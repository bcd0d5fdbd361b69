//! What the samples of the digital modem sound like: its gain, its levels,
//! the frames of Sd and of R, and the codeword nearest to a sample.

use crate::v90::levels::{Levels, LEVEL_LIMIT};
use crate::v90::tally::{place, shows, Stat, Tally};
use crate::v90::training::TRN1D_SYMBOLS;
use crate::v90::ucode::{
    law_rises_with_the_ucode, lemma_linear_fits, linear, spec_linear, Law, COUNT,
};
use crate::v90::Codeword;
use vstd::prelude::*;

verus! {

pub open spec fn magnitude(x: int) -> int {
    if x < 0 {
        -x
    } else {
        x
    }
}

fn size(x: i16) -> (size: i64)
    ensures
        size == magnitude(x as int),
        0 <= size <= 32_768,
{
    let value = x as i64;
    if value < 0 {
        -value
    } else {
        value
    }
}

/// The large symbols of a frame of Sd.
pub open spec fn is_large(n: int) -> bool {
    n == 0 || n == 2 || n == 3 || n == 5
}

/// Four large symbols, none 1.3 times another, and two at most a quarter of
/// each of them.
pub open spec fn sd_shaped(w: Seq<i16>) -> bool {
    &&& forall|i: int| 0 <= i < 6 && #[trigger] is_large(i) ==> w[i] != 0
    &&& forall|i: int, j: int|
        0 <= i < 6 && 0 <= j < 6 && #[trigger] is_large(i) && #[trigger] is_large(j) ==> 10
            * magnitude(w[i] as int) <= 13 * magnitude(w[j] as int)
    &&& forall|i: int, j: int|
        0 <= i < 6 && 0 <= j < 6 && !#[trigger] is_large(i) && #[trigger] is_large(j) ==> 4
            * magnitude(w[i] as int) <= magnitude(w[j] as int)
}

/// A frame of Sd, or of S̄d when false.
pub open spec fn spec_sd_like(w: Seq<i16>) -> Option<bool> {
    if !sd_shaped(w) {
        None
    } else if w[0] > 0 && w[2] > 0 && w[3] < 0 && w[5] < 0 {
        Some(true)
    } else if w[0] < 0 && w[2] < 0 && w[3] > 0 && w[5] > 0 {
        Some(false)
    } else {
        None
    }
}

/// Within a quarter of a level, which is in parts of `scale`.
pub open spec fn is_near(x: int, level: int, scale: int) -> bool {
    4 * magnitude(scale * magnitude(x) - level) <= level
}

/// A frame of R, + + + − − −, or of R̄ when false, at the level of each
/// interval.
pub open spec fn spec_r_like(w: Seq<i16>, levels: Seq<i64>, scale: int) -> Option<bool> {
    if exists|i: int|
        0 <= i < 6 && !#[trigger] is_near(w[i] as int, levels[i] as int, scale) {
        None
    } else if w[0] > 0 && w[1] > 0 && w[2] > 0 && w[3] < 0 && w[4] < 0 && w[5] < 0 {
        Some(true)
    } else if w[0] < 0 && w[1] < 0 && w[2] < 0 && w[3] > 0 && w[4] > 0 && w[5] > 0 {
        Some(false)
    } else {
        None
    }
}

fn near(x: i16, level: i64, scale: i64) -> (near: bool)
    requires
        0 < scale <= 0x1_0000,
        -LEVEL_LIMIT <= level <= LEVEL_LIMIT,
    ensures
        near == is_near(x as int, level as int, scale as int),
{
    let size = size(x);
    assert(0 <= scale * size <= 0x8000_0000) by (nonlinear_arith)
        requires
            0 < scale <= 0x1_0000,
            0 <= size <= 32_768,
    ;
    let off = scale * size - level;
    if off < 0 {
        4 * -off <= level
    } else {
        4 * off <= level
    }
}

fn r_like(w: &[i16; 6], levels: &[i64; 6], scale: i64) -> (like: Option<bool>)
    requires
        0 < scale <= 0x1_0000,
        forall|i: int| 0 <= i < 6 ==> -LEVEL_LIMIT <= #[trigger] levels@[i] <= LEVEL_LIMIT,
    ensures
        like == spec_r_like(w@, levels@, scale as int),
{
    let mut i: usize = 0;
    while i < 6
        invariant
            i <= 6,
            0 < scale <= 0x1_0000,
            forall|k: int| 0 <= k < 6 ==> -LEVEL_LIMIT <= #[trigger] levels@[k] <= LEVEL_LIMIT,
            forall|k: int|
                0 <= k < i ==> #[trigger] is_near(w@[k] as int, levels@[k] as int, scale as int),
        decreases 6 - i,
    {
        if !near(w[i], levels[i], scale) {
            assert(!is_near(w@[i as int] as int, levels@[i as int] as int, scale as int));
            return None;
        }
        i += 1;
    }
    if w[0] > 0 && w[1] > 0 && w[2] > 0 && w[3] < 0 && w[4] < 0 && w[5] < 0 {
        Some(true)
    } else if w[0] < 0 && w[1] < 0 && w[2] < 0 && w[3] > 0 && w[4] > 0 && w[5] > 0 {
        Some(false)
    } else {
        None
    }
}

fn sd_like(w: &[i16; 6]) -> (like: Option<bool>)
    ensures
        like == spec_sd_like(w@),
{
    let large = [size(w[0]), size(w[2]), size(w[3]), size(w[5])];
    let small = [size(w[1]), size(w[4])];
    let mut least = large[0];
    let mut most = large[0];
    let mut i: usize = 1;
    while i < 4
        invariant
            1 <= i <= 4,
            0 <= least <= 32_768,
            0 <= most <= 32_768,
            forall|k: int| 0 <= k < 4 ==> 0 <= #[trigger] large@[k] <= 32_768,
            forall|k: int| 0 <= k < i ==> least <= #[trigger] large@[k] <= most,
            exists|k: int| 0 <= k < i && #[trigger] large@[k] == least,
            exists|k: int| 0 <= k < i && #[trigger] large@[k] == most,
        decreases 4 - i,
    {
        let own = large[i];
        let ghost (low, high) = (
            choose|k: int| 0 <= k < i && #[trigger] large@[k] == least,
            choose|k: int| 0 <= k < i && #[trigger] large@[k] == most,
        );
        if own < least {
            least = own;
            assert(large@[i as int] == least);
        } else {
            assert(large@[low] == least);
        }
        if own > most {
            most = own;
            assert(large@[i as int] == most);
        } else {
            assert(large@[high] == most);
        }
        i += 1;
    }
    proof {
        assert(is_large(0) && is_large(2) && is_large(3) && is_large(5));
        assert(!is_large(1) && !is_large(4));
        assert(large@[0] == magnitude(w@[0] as int) && large@[1] == magnitude(w@[2] as int)
            && large@[2] == magnitude(w@[3] as int) && large@[3] == magnitude(w@[5] as int));
        assert(small@[0] == magnitude(w@[1] as int) && small@[1] == magnitude(w@[4] as int));
    }
    if least == 0 || 10 * most > 13 * least || 4 * small[0] > least || 4 * small[1] > least {
        return None;
    }
    assert(sd_shaped(w@));
    if w[0] > 0 && w[2] > 0 && w[3] < 0 && w[5] < 0 {
        Some(true)
    } else if w[0] < 0 && w[2] < 0 && w[3] > 0 && w[5] > 0 {
        Some(false)
    } else {
        None
    }
}

/// How far a sample is from the level of a Ucode, in 2⁻¹⁶ of a linear step.
pub open spec fn off_level(x: i16, interval: int, ucode: u8, levels: Levels) -> int {
    magnitude(0x1_0000 * magnitude(x as int) - levels.level(interval, ucode))
}

/// Of the Ucodes in `set` whose levels are nearest to a sample, the first is
/// at `n`.
pub open spec fn is_first_nearest(
    x: i16,
    interval: int,
    set: Seq<u8>,
    levels: Levels,
    n: int,
) -> bool {
    &&& 0 <= n < set.len()
    &&& set[n] < COUNT
    &&& forall|k: int|
        0 <= k < set.len() && #[trigger] set[k] < COUNT ==> off_level(x, interval, set[n], levels)
            <= off_level(x, interval, set[k], levels)
    &&& forall|k: int|
        0 <= k < n && #[trigger] set[k] < COUNT ==> off_level(x, interval, set[n], levels)
            < off_level(x, interval, set[k], levels)
}

/// A sample is decided on as the codeword with its sign and the nearest of
/// the Ucodes of its interval, or as Ucode 0 where there is none.
pub open spec fn is_sliced(
    x: i16,
    interval: int,
    set: Seq<u8>,
    levels: Levels,
    codeword: Codeword,
) -> bool {
    &&& codeword.positive == (x > 0)
    &&& if exists|k: int| 0 <= k < set.len() && #[trigger] set[k] < COUNT {
        exists|n: int| #[trigger]
            is_first_nearest(x, interval, set, levels, n) && codeword.ucode == set[n]
    } else {
        codeword.ucode == 0
    }
}

fn slice(x: i16, interval: usize, set: &Vec<u8>, levels: &Levels) -> (codeword: Codeword)
    requires
        levels.valid(),
        interval < 6,
    ensures
        is_sliced(x, interval as int, set@, *levels, codeword),
{
    let heard: i64 = 0x1_0000 * size(x);
    let mut found: Option<usize> = None;
    let mut least: i64 = 0;
    let mut k: usize = 0;
    while k < set.len()
        invariant
            k <= set.len(),
            levels.valid(),
            interval < 6,
            heard == 0x1_0000 * magnitude(x as int),
            heard <= 0x8000_0000,
            match found {
                Some(n) => {
                    &&& n < k
                    &&& set@[n as int] < COUNT
                    &&& least == off_level(x, interval as int, set@[n as int], *levels)
                    &&& forall|i: int|
                        0 <= i < k && #[trigger] set@[i] < COUNT ==> least <= off_level(
                            x,
                            interval as int,
                            set@[i],
                            *levels,
                        )
                    &&& forall|i: int|
                        0 <= i < n && #[trigger] set@[i] < COUNT ==> least < off_level(
                            x,
                            interval as int,
                            set@[i],
                            *levels,
                        )
                },
                None => forall|i: int| 0 <= i < k ==> #[trigger] set@[i] >= COUNT,
            },
        decreases set.len() - k,
    {
        let ucode = set[k];
        if ucode < COUNT {
            let level = levels.levels[interval][ucode as usize];
            assert(level == levels.levels@[interval as int]@[ucode as int]);
            assert(level == levels.level(interval as int, ucode));
            let off: i64 = if heard < level {
                level - heard
            } else {
                heard - level
            };
            if found.is_none() || off < least {
                found = Some(k);
                least = off;
            }
        }
        k += 1;
    }
    match found {
        Some(n) => {
            assert(is_first_nearest(x, interval as int, set@, *levels, n as int));
            Codeword { ucode: set[n], positive: x > 0 }
        },
        None => Codeword { ucode: 0, positive: x > 0 },
    }
}

/// A sample at the level of one Ucode of its interval, where the others lie
/// elsewhere, is decided on as that one.
pub proof fn law_slices_what_is_sent(
    x: i16,
    interval: int,
    set: Seq<u8>,
    levels: Levels,
    at: int,
    codeword: Codeword,
)
    requires
        0 <= interval < 6,
        0 <= at < set.len(),
        set[at] < COUNT,
        levels.level(interval, set[at]) == 0x1_0000 * magnitude(x as int),
        forall|k: int|
            0 <= k < set.len() && #[trigger] set[k] < COUNT && set[k] != set[at] ==> levels.level(
                interval,
                set[k],
            ) != levels.level(interval, set[at]),
        is_sliced(x, interval, set, levels, codeword),
    ensures
        codeword == (Codeword { ucode: set[at], positive: x > 0 }),
{
    assert(off_level(x, interval, set[at], levels) == 0);
    let n = choose|n: int| #[trigger]
        is_first_nearest(x, interval, set, levels, n) && codeword.ucode == set[n];
    assert(off_level(x, interval, set[n], levels) <= off_level(x, interval, set[at], levels));
}

/// The level of a Ucode where TRN1d, on `uinfo`, had a total size of
/// `loudness`, in 2⁻¹⁶ of a linear step.
pub open spec fn scaled(loudness: int, uinfo: int, ucode: int, law: Law) -> int {
    0x1_0000 * spec_linear(ucode, law) * loudness / (TRN1D_SYMBOLS * spec_linear(uinfo, law))
}

/// The levels that TRN1d shows.
pub open spec fn is_scaled(levels: Levels, loudness: int, uinfo: int, law: Law) -> bool {
    &&& forall|i: int, u: u8|
        #![trigger levels.level(i, u)]
        0 <= i < 6 && u < 128 ==> levels.level(i, u) == scaled(loudness, uinfo, u as int, law)
    &&& forall|c: int| 0 <= c < 8 ==> #[trigger] levels.noise@[c] == 0
}

fn scale(loudness: u64, uinfo: u8, law: Law) -> (levels: Levels)
    requires
        loudness <= 32_768 * TRN1D_SYMBOLS,
        1 <= uinfo < COUNT,
    ensures
        levels.valid(),
        is_scaled(levels, loudness as int, uinfo as int, law),
{
    proof {
        lemma_linear_fits(uinfo as int, law);
        lemma_linear_fits(0, law);
        law_rises_with_the_ucode(0, uinfo as int, law);
    }
    let own = linear(uinfo, law) as u64;
    let whole: u64 = TRN1D_SYMBOLS as u64 * own;
    let mut row: [i64; 128] = [0; 128];
    let mut ucode: u8 = 0;
    while ucode < 128
        invariant
            ucode <= 128,
            loudness <= 32_768 * TRN1D_SYMBOLS,
            0 < uinfo < COUNT,
            own == spec_linear(uinfo as int, law),
            1 <= own <= 32_256,
            whole == TRN1D_SYMBOLS * own,
            forall|u: int|
                0 <= u < ucode ==> #[trigger] row@[u] == scaled(
                    loudness as int,
                    uinfo as int,
                    u,
                    law,
                ) && 0 <= row@[u] <= LEVEL_LIMIT,
        decreases 128 - ucode,
    {
        proof {
            lemma_linear_fits(ucode as int, law);
        }
        let level: u64 = 0x1_0000 * linear(ucode, law) as u64;
        assert(0 <= level * loudness <= 0x7E00_0000 * 66_846_720) by (nonlinear_arith)
            requires
                0 <= level <= 0x7E00_0000,
                0 <= loudness <= 66_846_720,
        ;
        let heard = level * loudness / whole;
        proof {
            let (x, w) = (level * loudness, whole as int);
            assert(0 <= x / w <= x / 2040) by (nonlinear_arith)
                requires
                    x >= 0,
                    w >= 2040,
            ;
        }
        row[ucode as usize] = heard as i64;
        ucode += 1;
    }
    let levels = Levels { levels: [row, row, row, row, row, row], noise: [0; 8] };
    assert(forall|i: int| 0 <= i < 6 ==> #[trigger] levels.levels@[i] == row);
    levels
}

/// Behind a path that changes nothing, TRN1d shows table 1.
pub proof fn law_trn1d_at_its_level_shows_table_1(uinfo: int, ucode: int, law: Law)
    requires
        1 <= uinfo < COUNT,
        0 <= ucode < COUNT,
    ensures
        scaled(TRN1D_SYMBOLS * spec_linear(uinfo, law), uinfo, ucode, law) == 0x1_0000
            * spec_linear(ucode, law),
{
    lemma_linear_fits(0, law);
    law_rises_with_the_ucode(0, uinfo, law);
    let (level, whole) = (0x1_0000 * spec_linear(ucode, law), TRN1D_SYMBOLS * spec_linear(uinfo, law));
    assert(level * whole / whole == level) by (nonlinear_arith)
        requires
            whole > 0,
    ;
}

/// Listens to the samples of the digital modem.
#[derive(Debug)]
pub struct Samples {
    uinfo: u8,
    law: Law,
    /// The last six.
    window: [i16; 6],
    /// The symbols of TRN1d, and their total size.
    trained: usize,
    loudness: u64,
    tally: Tally,
    levels: Levels,
    /// DIL has shown the levels.
    shown: bool,
}

/// All that is known of the samples.
pub struct Known {
    pub uinfo: u8,
    pub law: Law,
    pub window: Seq<i16>,
    pub trained: int,
    pub loudness: int,
    pub tally: Tally,
    pub levels: Levels,
    pub shown: bool,
}

impl View for Samples {
    type V = Known;

    closed spec fn view(&self) -> Known {
        Known {
            uinfo: self.uinfo,
            law: self.law,
            window: self.window@,
            trained: self.trained as int,
            loudness: self.loudness as int,
            tally: self.tally,
            levels: self.levels,
            shown: self.shown,
        }
    }
}

impl Known {
    pub open spec fn valid(self) -> bool {
        &&& 1 <= self.uinfo < COUNT
        &&& self.window.len() == 6
        &&& 0 <= self.trained <= TRN1D_SYMBOLS
        &&& 0 <= self.loudness <= 32_768 * self.trained
        &&& self.tally.valid()
        &&& self.levels.valid()
    }

    /// No sample has come yet.
    pub open spec fn starts(self, uinfo: u8, law: Law) -> bool {
        &&& self.uinfo == uinfo
        &&& self.law == law
        &&& self.window == seq![0i16, 0, 0, 0, 0, 0]
        &&& self.trained == 0
        &&& self.loudness == 0
        &&& self.tally.stats() == Seq::new(1536, |n: int| Stat::none())
        &&& forall|i: int, u: u8|
            #![trigger self.levels.level(i, u)]
            0 <= i < 6 && u < 128 ==> self.levels.level(i, u) == 0x1_0000 * spec_linear(
                u as int,
                law,
            )
        &&& forall|c: int| 0 <= c < 8 ==> #[trigger] self.levels.noise@[c] == 0
        &&& !self.shown
    }

    /// With one more sample in the window.
    pub open spec fn with(self, x: i16) -> Self {
        Known { window: self.window.skip(1).push(x), ..self }
    }

    /// The last six samples as a frame of Ri, or of R̄i when false.
    pub open spec fn ri_like(self) -> Option<bool> {
        spec_r_like(
            self.window,
            Seq::new(6, |i: int| self.loudness as i64),
            TRN1D_SYMBOLS as int,
        )
    }

    /// The level of the first Ucode of an interval.
    pub open spec fn first_level(self, sets: Seq<Vec<u8>>, interval: int) -> int {
        let set = sets[interval]@;
        let ucode = if set.len() > 0 && set[0] < COUNT {
            set[0]
        } else {
            0
        };
        if self.shown {
            self.levels.level(interval, ucode)
        } else {
            0x1_0000 * spec_linear(ucode as int, self.law)
        }
    }

    /// The last six samples as a frame of Rd, on the largest points, or of
    /// R̄d when false.
    pub open spec fn rd_like(self, sets: Seq<Vec<u8>>) -> Option<bool> {
        spec_r_like(
            self.window,
            Seq::new(6, |i: int| self.first_level(sets, i) as i64),
            0x1_0000,
        )
    }
}

impl Samples {
    /// Of a digital modem that trains on `uinfo`.
    #[must_use]
    pub fn new(uinfo: u8, law: Law) -> (samples: Self)
        requires
            1 <= uinfo < COUNT,
        ensures
            samples@.valid(),
            samples@.starts(uinfo, law),
    {
        let samples = Self {
            uinfo,
            law,
            window: [0, 0, 0, 0, 0, 0],
            trained: 0,
            loudness: 0,
            tally: Tally::new(),
            levels: Levels::table(law),
            shown: false,
        };
        assert(samples@.window =~= seq![0i16, 0, 0, 0, 0, 0]);
        samples
    }

    /// The next sample.
    pub fn push(&mut self, x: i16)
        requires
            old(self)@.valid(),
        ensures
            final(self)@.valid(),
            final(self)@ == old(self)@.with(x),
    {
        let w = self.window;
        self.window = [w[1], w[2], w[3], w[4], w[5], x];
        assert(self.window@ =~= w@.skip(1).push(x));
    }

    #[must_use]
    pub fn sd_like(&self) -> (like: Option<bool>)
        requires
            self@.valid(),
        ensures
            like == spec_sd_like(self@.window),
    {
        sd_like(&self.window)
    }

    #[must_use]
    pub fn ri_like(&self) -> (like: Option<bool>)
        requires
            self@.valid(),
        ensures
            like == self@.ri_like(),
    {
        let level = self.loudness as i64;
        let levels = [level, level, level, level, level, level];
        assert(levels@ =~= Seq::new(6, |i: int| self@.loudness as i64));
        r_like(&self.window, &levels, TRN1D_SYMBOLS as i64)
    }

    fn first_level(&self, sets: &[Vec<u8>; 6], interval: usize) -> (level: i64)
        requires
            self@.valid(),
            interval < 6,
        ensures
            level == self@.first_level(sets@, interval as int),
            -LEVEL_LIMIT <= level <= LEVEL_LIMIT,
    {
        let ucode = if sets[interval].len() > 0 && sets[interval][0] < COUNT {
            sets[interval][0]
        } else {
            0
        };
        if self.shown {
            let level = self.levels.levels[interval][ucode as usize];
            assert(level == self.levels.levels@[interval as int]@[ucode as int]);
            level
        } else {
            proof {
                lemma_linear_fits(ucode as int, self.law);
            }
            0x1_0000 * linear(ucode, self.law) as i64
        }
    }

    #[must_use]
    pub fn rd_like(&self, sets: &[Vec<u8>; 6]) -> (like: Option<bool>)
        requires
            self@.valid(),
        ensures
            like == self@.rd_like(sets@),
    {
        let levels = [
            self.first_level(sets, 0),
            self.first_level(sets, 1),
            self.first_level(sets, 2),
            self.first_level(sets, 3),
            self.first_level(sets, 4),
            self.first_level(sets, 5),
        ];
        assert(levels@ =~= Seq::new(6, |i: int| self@.first_level(sets@, i) as i64));
        r_like(&self.window, &levels, 0x1_0000)
    }

    /// A symbol of TRN1d, and whether it is the last.
    pub fn learn_gain(&mut self, x: i16, last: bool)
        requires
            old(self)@.valid(),
            old(self)@.trained < TRN1D_SYMBOLS,
        ensures
            final(self)@.valid(),
            final(self)@ == (Known {
                trained: old(self)@.trained + 1,
                loudness: old(self)@.loudness + magnitude(x as int),
                levels: final(self)@.levels,
                ..old(self)@
            }),
            last ==> is_scaled(
                final(self)@.levels,
                final(self)@.loudness,
                old(self)@.uinfo as int,
                old(self)@.law,
            ),
            !last ==> final(self)@.levels == old(self)@.levels,
    {
        self.loudness += size(x) as u64;
        self.trained += 1;
        if last {
            self.levels = scale(self.loudness, self.uinfo, self.law);
        }
    }

    /// A symbol of DIL, and whether it is the last of a pass.
    pub fn learn_level(&mut self, x: i16, interval: usize, expected: Codeword, last: bool)
        requires
            old(self)@.valid(),
            interval < 6,
            expected.ucode < COUNT,
        ensures
            final(self)@.valid(),
            final(self)@ == (Known {
                tally: final(self)@.tally,
                levels: final(self)@.levels,
                shown: old(self)@.shown || last,
                ..old(self)@
            }),
            ({
                let stats = old(self)@.tally.stats();
                let n = place(interval as int, expected.ucode as int, expected.positive);
                final(self)@.tally.stats() == stats.update(n, stats[n].with(x))
            }),
            last ==> shows(final(self)@.tally.stats(), old(self)@.law, final(self)@.levels),
            !last ==> final(self)@.levels == old(self)@.levels,
    {
        self.tally.learn(x, interval, expected.ucode, expected.positive);
        if last {
            self.levels = self.tally.levels(self.law);
            self.shown = true;
        }
    }

    /// The levels, for the design of the constellations.
    #[must_use]
    pub fn levels(&self) -> (levels: &Levels)
        requires
            self@.valid(),
        ensures
            *levels == self@.levels,
            levels.valid(),
    {
        &self.levels
    }

    /// The codewords that the last six samples are decided on as.
    #[must_use]
    pub fn slice(&self, sets: &[Vec<u8>; 6]) -> (codewords: [Codeword; 6])
        requires
            self@.valid(),
        ensures
            forall|i: int|
                0 <= i < 6 ==> is_sliced(
                    self@.window[i],
                    i,
                    sets@[i]@,
                    self@.levels,
                    #[trigger] codewords@[i],
                ),
    {
        [
            slice(self.window[0], 0, &sets[0], &self.levels),
            slice(self.window[1], 1, &sets[1], &self.levels),
            slice(self.window[2], 2, &sets[2], &self.levels),
            slice(self.window[3], 3, &sets[3], &self.levels),
            slice(self.window[4], 4, &sets[4], &self.levels),
            slice(self.window[5], 5, &sets[5], &self.levels),
        ]
    }
}

/// A frame of Sd is told by its shape alone: + 0 + − 0 −, where no large
/// sample is over 1.3 times another and the small ones are at most a quarter
/// of each. S̄d is the same upside down.
pub proof fn law_sd_is_told_by_its_shape(w: Seq<i16>)
    requires
        w.len() == 6,
    ensures
        ({
            let up = seq![w[0] as int, w[2] as int, -w[3], -w[5]];
            let down = seq![-w[0], -w[2], w[3] as int, w[5] as int];
            let held = |large: Seq<int>|
                (forall|i: int| 0 <= i < 4 ==> #[trigger] large[i] > 0) && (forall|i: int, j: int|
                    0 <= i < 4 && 0 <= j < 4 ==> 10 * #[trigger] large[i] <= 13 * #[trigger] large[j]) && (forall|i: int|
                    0 <= i < 4 ==> -#[trigger] large[i] <= 4 * w[1] <= large[i]) && (forall|i: int|
                    0 <= i < 4 ==> -#[trigger] large[i] <= 4 * w[4] <= large[i]);
            &&& spec_sd_like(w) == Some(true) <==> held(up)
            &&& spec_sd_like(w) == Some(false) <==> held(down)
        }),
{
    let up = seq![w[0] as int, w[2] as int, -w[3], -w[5]];
    let down = seq![-w[0], -w[2], w[3] as int, w[5] as int];
    assert(is_large(0) && is_large(2) && is_large(3) && is_large(5) && !is_large(1) && !is_large(4));
    assert(up[0] == w[0] && up[1] == w[2] && up[2] == -w[3] && up[3] == -w[5]);
    assert(down[0] == -w[0] && down[1] == -w[2] && down[2] == w[3] && down[3] == w[5]);
}

/// A frame of R is + + + − − − with each sample within a quarter of the level
/// of its interval, which is `levels[i]` parts of 1/`scale`, and R̄ the same
/// upside down. Ri goes by the mean of TRN1d, whose 2040 symbols added up to
/// the loudness, and Rd by the level of the first Ucode of each interval.
pub proof fn law_r_is_told_by_its_signs_and_levels(w: Seq<i16>, levels: Seq<i64>, scale: int, known: Known, sets: Seq<Vec<u8>>)
    requires
        w.len() == 6,
        levels.len() == 6,
        0 <= known.loudness < 0x1_0000_0000,
    ensures
        ({
            let near = forall|i: int|
                0 <= i < 6 ==> 3 * #[trigger] levels[i] <= 4 * (scale * magnitude(w[i] as int)) <= 5 * levels[i];
            let up = w[0] > 0 && w[1] > 0 && w[2] > 0 && w[3] < 0 && w[4] < 0 && w[5] < 0;
            let down = w[0] < 0 && w[1] < 0 && w[2] < 0 && w[3] > 0 && w[4] > 0 && w[5] > 0;
            &&& spec_r_like(w, levels, scale) == Some(true) <==> near && up
            &&& spec_r_like(w, levels, scale) == Some(false) <==> near && down
            &&& known.ri_like() == spec_r_like(known.window, Seq::new(6, |i: int| known.loudness as i64), 2040)
            &&& known.rd_like(sets) == spec_r_like(
                known.window,
                Seq::new(6, |i: int| known.first_level(sets, i) as i64),
                65_536,
            )
        }),
{
    assert forall|i: int| 0 <= i < 6 implies (is_near(w[i] as int, #[trigger] levels[i] as int, scale) <==> 3 * levels[i]
        <= 4 * (scale * magnitude(w[i] as int)) <= 5 * levels[i]) by {}
    if exists|i: int| 0 <= i < 6 && !#[trigger] is_near(w[i] as int, levels[i] as int, scale) {
        let i = choose|i: int| 0 <= i < 6 && !#[trigger] is_near(w[i] as int, levels[i] as int, scale);
        assert(!(3 * levels[i] <= 4 * (scale * magnitude(w[i] as int)) <= 5 * levels[i]));
    } else {
        assert forall|i: int| 0 <= i < 6 implies 3 * #[trigger] levels[i] <= 4 * (scale * magnitude(w[i] as int)) <= 5
            * levels[i] by {
            assert(is_near(w[i] as int, levels[i] as int, scale));
        }
    }
}

/// The level of an interval is that of its first Ucode, as DIL showed it, or
/// as table 1 has it where it showed none.
pub proof fn law_rd_goes_by_the_first_ucode(known: Known, sets: Seq<Vec<u8>>, interval: int)
    requires
        0 <= interval < 6,
        sets.len() == 6,
    ensures
        known.shown && sets[interval]@.len() > 0 && sets[interval]@[0] < 128 ==> known.first_level(sets, interval)
            == known.levels.level(interval, sets[interval]@[0]),
        !known.shown && sets[interval]@.len() > 0 && sets[interval]@[0] < 128 ==> known.first_level(sets, interval)
            == 65_536 * spec_linear(sets[interval]@[0] as int, known.law),
{
}

/// The newest sample comes last in the window, and the oldest leaves.
pub proof fn law_the_window_slides(known: Known, x: i16, i: int)
    requires
        known.window.len() == 6,
        0 <= i < 5,
    ensures
        known.with(x).window.len() == 6,
        known.with(x).window[5] == x,
        known.with(x).window[i] == known.window[i + 1],
        known.with(x).levels == known.levels && known.with(x).tally == known.tally && known.with(x).trained
            == known.trained && known.with(x).loudness == known.loudness && known.with(x).shown == known.shown,
{
}

/// No Ucode of the interval is nearer to the sample than the one decided on,
/// which is one of the interval, and its sign is that of the sample.
pub proof fn law_slices_to_the_nearest(x: i16, interval: int, set: Seq<u8>, levels: Levels, codeword: Codeword, k: int)
    requires
        0 <= interval < 6,
        0 <= k < set.len(),
        set[k] < 128,
        is_sliced(x, interval, set, levels, codeword),
    ensures
        codeword.positive == (x > 0),
        set.contains(codeword.ucode),
        magnitude(65_536 * magnitude(x as int) - levels.level(interval, codeword.ucode)) <= magnitude(
            65_536 * magnitude(x as int) - levels.level(interval, set[k]),
        ),
        magnitude(x as int) == x || magnitude(x as int) == -x,
        magnitude(x as int) >= 0,
{
    let n = choose|n: int| #[trigger] is_first_nearest(x, interval, set, levels, n) && codeword.ucode == set[n];
    assert(set[k] < COUNT);
    assert(is_first_nearest(x, interval, set, levels, n));
    assert(off_level(x, interval, set[n], levels) <= off_level(x, interval, set[k], levels));
}

/// The levels that TRN1d shows are to each other as table 1 has them, and
/// that of UINFO is the mean of its 2040 symbols.
pub proof fn law_trn1d_scales_table_1(loudness: int, uinfo: int, ucode: int, law: Law)
    requires
        1 <= uinfo < 128,
        0 <= ucode < 128,
        loudness >= 0,
    ensures
        scaled(loudness, uinfo, ucode, law) * (2040 * spec_linear(uinfo, law)) <= 65_536 * spec_linear(ucode, law)
            * loudness < (scaled(loudness, uinfo, ucode, law) + 1) * (2040 * spec_linear(uinfo, law)),
{
    lemma_linear_fits(uinfo, law);
    law_rises_with_the_ucode(0, uinfo, law);
    lemma_linear_fits(0, law);
    let d = 2040 * spec_linear(uinfo, law);
    let n = 0x1_0000 * spec_linear(ucode, law) * loudness;
    let q = n / d;
    vstd::arithmetic::div_mod::lemma_fundamental_div_mod(n, d);
    assert(q * d <= n < (q + 1) * d) by (nonlinear_arith)
        requires
            n == d * q + n % d,
            0 <= n % d < d,
    ;
}

/// TRN1d shows a level for each Ucode, alike in the six intervals, and no
/// noise.
pub proof fn law_trn1d_shows_no_noise(levels: Levels, loudness: int, uinfo: int, law: Law, i: int, u: u8, c: int)
    requires
        is_scaled(levels, loudness, uinfo, law),
        0 <= i < 6,
        u < 128,
        0 <= c < 8,
    ensures
        levels.level(i, u) == scaled(loudness, uinfo, u as int, law),
        levels.level(i, u) == levels.level(0, u),
        levels.noise@[c] == 0,
{
}

} // verus!

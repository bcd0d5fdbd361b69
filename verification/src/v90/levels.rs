//! The constellations that the analogue modem asks for, from the levels and
//! the noise that DIL showed and the power that the digital modem may send.

use crate::v90::cp::Cp;
use crate::v90::design::{
    cp, firsts, label_uses, levels_for, mask_of, masks_of, reached, sixth, TRAINING_BITS,
};
use crate::v90::encoder::power_of_two;
use crate::v90::ucode::{
    law_rises_with_the_ucode, lemma_linear_fits, linear, spec_linear, Law, COUNT,
};
use vstd::arithmetic::power2::{lemma2_to64_rest, lemma_pow2_pos, lemma_pow2_strictly_increases, pow2};
use vstd::prelude::*;

verus! {

/// Table 15, as RMS, for bits 33:37 of INFO0d from 0 (-0.5 dBm0) to 31 (-16 dBm0).
pub const POWER_LIMITS: [u32; 32] = [
    15_124,
    14_276,
    13_480,
    12_724,
    12_012,
    11_340,
    10_708,
    10_108,
    9_544,
    9_008,
    8_504,
    8_028,
    7_580,
    7_156,
    6_756,
    6_380,
    6_020,
    5_684,
    5_368,
    5_068,
    4_784,
    4_516,
    4_264,
    4_024,
    3_800,
    3_588,
    3_388,
    3_196,
    3_020,
    2_852,
    2_692,
    2_540,
];

/// Levels, noise and spacings are in 2⁻¹⁶ of a linear step, and below this.
pub const LEVEL_LIMIT: i64 = 0x10_0000_0000_0000;

/// Where DIL showed no noise at all, half the smallest A-law step.
pub const LEAST_SPACING: i64 = 0x8_0000;

/// Full scale.
pub const MOST_SPACING: i64 = 0x8000_0000;

/// Levels this many noise deviations apart leave symbol errors below 10⁻⁷.
pub const SPACING_SIGMAS: i64 = 11;

/// Data mode rates, as D, from 28 000 bit/s up to 56 000.
pub const LEAST_DATA_BITS: usize = 21;

pub const MOST_DATA_BITS: usize = 42;

pub open spec fn spec_power_limit(max_power: u8) -> int {
    let rms = POWER_LIMITS@[if max_power < 32 {
        max_power as int
    } else {
        31
    }];
    rms * rms
}

/// The most that the average power may be, squared, for the highest digital
/// modem power in bits 33:37 of INFO0d.
#[must_use]
pub fn power_limit(max_power: u8) -> (limit: u64)
    ensures
        limit == spec_power_limit(max_power),
        limit <= 0x1_0000_0000,
{
    let index: usize = if max_power < 32 {
        max_power as usize
    } else {
        31
    };
    let rms = POWER_LIMITS[index] as u64;
    proof {
        assert(forall|i: int| 0 <= i < 32 ==> #[trigger] POWER_LIMITS@[i] <= 0x1_0000);
        assert(rms * rms <= 0x1_0000_0000) by (nonlinear_arith)
            requires
                rms <= 0x1_0000,
        ;
    }
    rms * rms
}

/// What DIL showed: the level of each Ucode in each interval, and the RMS of
/// the noise around those levels, by Uchord, as a path may add more to some
/// levels than to others.
#[derive(Debug)]
pub struct Levels {
    pub levels: [[i64; 128]; 6],
    pub noise: [i64; 8],
}

/// The last Ucode chosen.
pub open spec fn last_of(chosen: Seq<u8>) -> Option<u8> {
    if chosen.len() == 0 {
        None
    } else {
        Some(chosen.last())
    }
}

impl Levels {
    pub open spec fn valid(self) -> bool {
        &&& forall|i: int, u: int|
            #![trigger self.levels@[i]@[u]]
            0 <= i < 6 && 0 <= u < 128 ==> -LEVEL_LIMIT <= self.levels@[i]@[u] <= LEVEL_LIMIT
        &&& forall|c: int| 0 <= c < 8 ==> 0 <= #[trigger] self.noise@[c] <= LEVEL_LIMIT
    }

    pub open spec fn level(self, interval: int, ucode: u8) -> int {
        self.levels@[interval]@[ucode as int] as int
    }

    /// Twice half the room that a level needs from its neighbour, for the
    /// noise of its Uchord.
    pub open spec fn spec_margin(self, ucode: u8) -> int {
        SPACING_SIGMAS * self.noise@[ucode as int / 16]
    }

    /// Whether `ucode` is as far above `last` as `spacing` and their noise
    /// ask, or clear of its other sign where there is none.
    pub open spec fn has_room(self, interval: int, last: Option<u8>, ucode: u8, spacing: int) -> bool {
        let level = self.level(interval, ucode);
        match last {
            None => 2 * level >= spacing && 2 * level >= self.spec_margin(ucode),
            Some(last) => {
                let apart = level - self.level(interval, last);
                apart >= spacing && 2 * apart >= self.spec_margin(last) + self.spec_margin(ucode)
            },
        }
    }

    /// Up to `count` of the first `n` Ucodes, from the bottom, each with room
    /// above the last.
    pub open spec fn picked(self, interval: int, count: int, spacing: int, n: int) -> Seq<u8>
        decreases n,
    {
        if n <= 0 {
            seq![]
        } else {
            let chosen = self.picked(interval, count, spacing, n - 1);
            let ucode = (n - 1) as u8;
            if chosen.len() < count && self.has_room(interval, last_of(chosen), ucode, spacing) {
                chosen.push(ucode)
            } else {
                chosen
            }
        }
    }

    /// The Ucodes of each interval.
    pub open spec fn sets_at(self, count: int, spacing: int) -> Seq<Seq<u8>> {
        Seq::new(6, |i: int| self.picked(i, count, spacing, 128))
    }

    /// Whether every interval has that many levels, within the power limit.
    pub open spec fn fits(self, bits: int, law: Law, max_power: u8, spacing: int) -> bool {
        let count = levels_needed(bits - 6);
        let sets = self.sets_at(count, spacing);
        &&& forall|i: int| 0 <= i < 6 ==> (#[trigger] sets[i]).len() == count
        &&& total_power(sets, bits - 6, law, 6) <= 6 * pow2((bits - 6) as nat) * spec_power_limit(
            max_power,
        )
    }

    proof fn lemma_picked(self, interval: int, count: int, spacing: int, n: int)
        requires
            0 <= n <= 128,
            0 <= count,
        ensures
            self.picked(interval, count, spacing, n).len() <= n,
            self.picked(interval, count, spacing, n).len() <= count,
            forall|i: int|
                0 <= i < self.picked(interval, count, spacing, n).len()
                    ==> #[trigger] self.picked(interval, count, spacing, n)[i] < 128,
        decreases n,
    {
        if n > 0 {
            self.lemma_picked(interval, count, spacing, n - 1);
        }
    }

    /// As table 1 gives them, with no noise: a digital path that changes
    /// nothing.
    #[must_use]
    pub fn table(law: Law) -> (levels: Self)
        ensures
            levels.valid(),
            forall|i: int, u: u8|
                #![trigger levels.level(i, u)]
                0 <= i < 6 && u < 128 ==> levels.level(i, u) == 0x1_0000 * spec_linear(
                    u as int,
                    law,
                ),
            forall|c: int| 0 <= c < 8 ==> #[trigger] levels.noise@[c] == 0,
    {
        let mut row: [i64; 128] = [0; 128];
        let mut ucode: u8 = 0;
        while ucode < COUNT
            invariant
                ucode <= 128,
                forall|u: int|
                    0 <= u < ucode ==> #[trigger] row@[u] == 0x1_0000 * spec_linear(u, law) && 0
                        <= row@[u] <= LEVEL_LIMIT,
            decreases 128 - ucode,
        {
            row[ucode as usize] = 0x1_0000 * linear(ucode, law) as i64;
            ucode += 1;
        }
        let levels = Self { levels: [row, row, row, row, row, row], noise: [0; 8] };
        assert(forall|i: int| 0 <= i < 6 ==> #[trigger] levels.levels@[i] == row);
        levels
    }

    fn room(&self, interval: usize, last: Option<u8>, ucode: u8, spacing: i64) -> (room: bool)
        requires
            self.valid(),
            interval < 6,
            ucode < 128,
            last matches Some(last) ==> last < 128,
            0 <= spacing <= MOST_SPACING,
        ensures
            room == self.has_room(interval as int, last, ucode, spacing as int),
    {
        let level = self.levels[interval][ucode as usize];
        assert(level == self.levels@[interval as int]@[ucode as int]);
        let own = self.noise[(ucode / 16) as usize];
        match last {
            None => 2 * level >= spacing && 2 * level >= SPACING_SIGMAS * own,
            Some(last) => {
                let below = self.levels[interval][last as usize];
                assert(below == self.levels@[interval as int]@[last as int]);
                let other = self.noise[(last / 16) as usize];
                level - below >= spacing && 2 * (level - below) >= SPACING_SIGMAS * other
                    + SPACING_SIGMAS * own
            },
        }
    }

    /// `count` levels from the bottom, as far apart as `spacing` and their
    /// noise ask, the first clear of its other sign. There is no set of none.
    #[must_use]
    pub fn pick(&self, interval: usize, count: usize, spacing: i64) -> (chosen: Option<Vec<u8>>)
        requires
            self.valid(),
            interval < 6,
            0 <= spacing <= MOST_SPACING,
        ensures
            ({
                let picked = self.picked(interval as int, count as int, spacing as int, 128);
                match chosen {
                    Some(chosen) => chosen@ == picked && picked.len() == count && count > 0,
                    None => picked.len() < count || count == 0,
                }
            }),
    {
        let mut chosen: Vec<u8> = Vec::new();
        let mut ucode: u8 = 0;
        while ucode < COUNT
            invariant
                ucode <= 128,
                self.valid(),
                interval < 6,
                0 <= spacing <= MOST_SPACING,
                chosen@ == self.picked(
                    interval as int,
                    count as int,
                    spacing as int,
                    ucode as int,
                ),
                chosen.len() <= count,
                forall|i: int| 0 <= i < chosen.len() ==> #[trigger] chosen[i] < 128,
            decreases 128 - ucode,
        {
            if chosen.len() < count {
                let last = if chosen.len() > 0 {
                    Some(chosen[chosen.len() - 1])
                } else {
                    None
                };
                assert(last == last_of(chosen@));
                if self.room(interval, last, ucode, spacing) {
                    chosen.push(ucode);
                }
            }
            ucode += 1;
        }
        if count > 0 && chosen.len() == count {
            Some(chosen)
        } else {
            None
        }
    }

    /// The sets at a spacing, where they fit.
    fn sets(&self, bits: usize, law: Law, max_power: u8, spacing: i64) -> (sets: Option<[Vec<u8>; 6]>)
        requires
            self.valid(),
            6 <= bits < 70,
            0 <= spacing <= MOST_SPACING,
        ensures
            match sets {
                Some(sets) => {
                    &&& self.fits(bits as int, law, max_power, spacing as int)
                    &&& forall|i: int|
                        0 <= i < 6 ==> (#[trigger] sets@[i])@ == self.sets_at(
                            levels_needed(bits - 6),
                            spacing as int,
                        )[i]
                },
                None => !self.fits(bits as int, law, max_power, spacing as int),
            },
    {
        let count = levels_for(bits - 6);
        proof {
            lemma_levels_needed(bits - 6, count as int);
        }
        let ghost all = self.sets_at(count as int, spacing as int);
        let mut found: Vec<Vec<u8>> = Vec::new();
        while found.len() < 6
            invariant
                self.valid(),
                0 <= spacing <= MOST_SPACING,
                6 <= bits < 70,
                count == levels_needed(bits - 6),
                count > 0,
                all == self.sets_at(count as int, spacing as int),
                found.len() <= 6,
                forall|i: int| 0 <= i < found.len() ==> (#[trigger] found[i])@ == all[i],
                forall|i: int| 0 <= i < found.len() ==> (#[trigger] found[i])@.len() == count,
            decreases 6 - found.len(),
        {
            let i = found.len();
            match self.pick(i, count, spacing) {
                Some(set) => {
                    assert(set@ == all[i as int]);
                    found.push(set);
                },
                None => {
                    assert(all[i as int].len() < count);
                    return None;
                },
            }
        }
        let sets = six(found);
        proof {
            assert forall|i: int| 0 <= i < 6 implies (#[trigger] sets@[i])@ == all[i]
                && sets@[i]@.len() <= 128 && all[i].len() == count && (forall|k: int|
                0 <= k < sets@[i]@.len() ==> #[trigger] sets@[i]@[k] < 128) by {
                self.lemma_picked(i, count as int, spacing as int, 128);
            }
        }
        proof {
            assert forall|i: int| 0 <= i < 6 implies (#[trigger] all[i]).len() == count by {
                assert(sets@[i]@ == all[i]);
            }
        }
        let within = within_power(&sets, bits - 6, law, max_power, Ghost(all));
        assert(self.fits(bits as int, law, max_power, spacing as int) == within);
        if within {
            Some(sets)
        } else {
            None
        }
    }

    /// In each interval a level with its room above it is higher, the higher
    /// its Ucode: both the level, and the level with half its margin.
    pub open spec fn rises(self) -> bool {
        forall|i: int, u: u8, v: u8|
            #![trigger self.level(i, u), self.level(i, v)]
            0 <= i < 6 && u < v < 128 ==> {
                &&& self.level(i, u) <= self.level(i, v)
                &&& 2 * self.level(i, u) + self.spec_margin(u) <= 2 * self.level(i, v)
                    + self.spec_margin(v)
            }
    }

    /// The spacing that halving the way from one that fits to one that does
    /// not leads to. Where the levels do not rise, there may be others.
    pub open spec fn halved(self, bits: int, law: Law, max_power: u8, low: int, high: int) -> int
        decreases high - low,
    {
        if high - low <= 1 {
            low
        } else {
            let middle = low + (high - low) / 2;
            if self.fits(bits, law, max_power, middle) {
                self.halved(bits, law, max_power, middle, high)
            } else {
                self.halved(bits, law, max_power, low, middle)
            }
        }
    }

    /// `sets` are those of a spacing that fits, where the next wider one does
    /// not. Where the levels rise, none that is wider does.
    pub open spec fn widest(
        self,
        bits: int,
        law: Law,
        max_power: u8,
        sets: Seq<Seq<u8>>,
        spacing: int,
    ) -> bool {
        &&& LEAST_SPACING <= spacing < MOST_SPACING
        &&& spacing == self.halved(
            bits,
            law,
            max_power,
            LEAST_SPACING as int,
            MOST_SPACING as int,
        )
        &&& self.fits(bits, law, max_power, spacing)
        &&& sets == self.sets_at(levels_needed(bits - 6), spacing)
        &&& spacing + 1 == MOST_SPACING || !self.fits(bits, law, max_power, spacing + 1)
        &&& self.rises() ==> forall|wider: int|
            spacing < wider < MOST_SPACING ==> !#[trigger] self.fits(bits, law, max_power, wider)
    }

    /// Levels in each interval for D = `bits`, spaced as widely as the power
    /// limit allows. Six of the bits are signs.
    #[must_use]
    pub fn constellations(&self, bits: usize, law: Law, max_power: u8) -> (sets: Option<
        [Vec<u8>; 6],
    >)
        requires
            self.valid(),
        ensures
            sets matches Some(found) ==> bits >= 6 && exists|spacing: int| #[trigger]
                self.widest(bits as int, law, max_power, views(found@), spacing),
            sets is None ==> bits < 6 || !self.fits(
                bits as int,
                law,
                max_power,
                LEAST_SPACING as int,
            ),
    {
        if bits < 6 {
            return None;
        }
        if bits >= 70 {
            proof {
                self.lemma_too_many_bits(bits as int, law, max_power, LEAST_SPACING as int);
            }
            return None;
        }
        let mut best = match self.sets(bits, law, max_power, LEAST_SPACING) {
            Some(sets) => sets,
            None => {
                return None;
            },
        };
        let mut low: i64 = LEAST_SPACING;
        let mut high: i64 = MOST_SPACING;
        while high - low > 1
            invariant
                self.valid(),
                6 <= bits < 70,
                LEAST_SPACING <= low < high <= MOST_SPACING,
                self.fits(bits as int, law, max_power, low as int),
                high == MOST_SPACING || !self.fits(bits as int, law, max_power, high as int),
                self.halved(
                    bits as int,
                    law,
                    max_power,
                    LEAST_SPACING as int,
                    MOST_SPACING as int,
                ) == self.halved(bits as int, law, max_power, low as int, high as int),
                forall|i: int|
                    0 <= i < 6 ==> (#[trigger] best@[i])@ == self.sets_at(
                        levels_needed(bits - 6),
                        low as int,
                    )[i],
            decreases high - low,
        {
            let middle: i64 = low + (high - low) / 2;
            match self.sets(bits, law, max_power, middle) {
                Some(sets) => {
                    best = sets;
                    low = middle;
                },
                None => {
                    high = middle;
                },
            }
        }
        proof {
            assert(views(best@) =~= self.sets_at(levels_needed(bits - 6), low as int));
            assert forall|wider: int|
                self.rises() && low < wider < MOST_SPACING implies !#[trigger] self.fits(
                bits as int,
                law,
                max_power,
                wider,
            ) by {
                if self.fits(bits as int, law, max_power, wider) {
                    lemma_levels_exist(bits - 6);
                    law_a_narrower_spacing_fits_too(
                        *self,
                        bits as int,
                        law,
                        max_power,
                        low + 1,
                        wider,
                    );
                }
            }
            assert(self.widest(bits as int, law, max_power, views(best@), low as int));
        }
        let found = Some(best);
        assert(found->0 == best);
        found
    }

    /// There are only 128 Ucodes.
    proof fn lemma_too_many_bits(self, bits: int, law: Law, max_power: u8, spacing: int)
        requires
            bits >= 70,
        ensures
            !self.fits(bits, law, max_power, spacing),
    {
        let count = levels_needed(bits - 6);
        lemma_levels_exist(bits - 6);
        lemma2_to64_rest();
        if bits > 70 {
            lemma_pow2_strictly_increases(64, (bits - 6) as nat);
        }
        if count <= 128 {
            lemma_sixth_grows(count, 128);
            assert(sixth(128) == 0x400_0000_0000) by (nonlinear_arith)
                requires
                    sixth(128) == 128 * 128 * 128 * 128 * 128 * 128,
            ;
        }
        self.lemma_picked(0, count, spacing, 128);
        assert(self.sets_at(count, spacing)[0].len() <= 128);
    }

    /// `cp` asks for the widest sets at D = `bits`.
    pub open spec fn asks(
        self,
        cp: Cp,
        bits: int,
        training: bool,
        law: Law,
        max_power: u8,
        upstream_rates: u16,
    ) -> bool {
        exists|sets: Seq<Seq<u8>>, spacing: int|
            {
                &&& #[trigger] self.widest(bits, law, max_power, sets, spacing)
                &&& is_cp_for(cp, sets, bits, training, law, upstream_rates)
            }
    }

    /// CPt: 8 levels in each interval, as far apart as the power limit
    /// allows.
    #[must_use]
    pub fn training(&self, law: Law, max_power: u8, upstream_rates: u16) -> (cpt: Option<Cp>)
        requires
            self.valid(),
        ensures
            match cpt {
                Some(cpt) => self.asks(
                    cpt,
                    TRAINING_BITS as int,
                    true,
                    law,
                    max_power,
                    upstream_rates,
                ),
                None => !self.fits(TRAINING_BITS as int, law, max_power, LEAST_SPACING as int),
            },
    {
        match self.constellations(TRAINING_BITS, law, max_power) {
            Some(sets) => {
                let cpt = cp(&sets, TRAINING_BITS, true, law, upstream_rates);
                assert(masks_of(sets@) =~= Seq::new(6, |i: int| mask_of(views(sets@)[i])));
                assert(is_cp_for(
                    cpt,
                    views(sets@),
                    TRAINING_BITS as int,
                    true,
                    law,
                    upstream_rates,
                ));
                Some(cpt)
            },
            None => None,
        }
    }

    /// CP: the highest rate whose levels are far enough apart for the noise,
    /// within the power limit.
    #[must_use]
    pub fn data(&self, law: Law, max_power: u8, upstream_rates: u16) -> (cp: Option<Cp>)
        requires
            self.valid(),
        ensures
            match cp {
                Some(cp) => exists|bits: int|
                    {
                        &&& LEAST_DATA_BITS <= bits <= MOST_DATA_BITS
                        &&& #[trigger] self.asks(cp, bits, false, law, max_power, upstream_rates)
                        &&& forall|more: int|
                            bits < more <= MOST_DATA_BITS ==> !#[trigger] self.fits(
                                more,
                                law,
                                max_power,
                                LEAST_SPACING as int,
                            )
                    },
                None => forall|bits: int|
                    LEAST_DATA_BITS <= bits <= MOST_DATA_BITS ==> !#[trigger] self.fits(
                        bits,
                        law,
                        max_power,
                        LEAST_SPACING as int,
                    ),
            },
    {
        let mut bits: usize = MOST_DATA_BITS;
        while bits >= LEAST_DATA_BITS
            invariant
                self.valid(),
                LEAST_DATA_BITS - 1 <= bits <= MOST_DATA_BITS,
                forall|more: int|
                    bits < more <= MOST_DATA_BITS ==> !#[trigger] self.fits(
                        more,
                        law,
                        max_power,
                        LEAST_SPACING as int,
                    ),
            decreases bits,
        {
            if let Some(sets) = self.constellations(bits, law, max_power) {
                let cp = cp(&sets, bits, false, law, upstream_rates);
                proof {
                    assert(masks_of(sets@) =~= Seq::new(6, |i: int| mask_of(views(sets@)[i])));
                    assert(is_cp_for(cp, views(sets@), bits as int, false, law, upstream_rates));
                    assert(self.asks(cp, bits as int, false, law, max_power, upstream_rates));
                }
                return Some(cp);
            }
            bits -= 1;
        }
        None
    }
}

pub open spec fn views(sets: Seq<Vec<u8>>) -> Seq<Seq<u8>> {
    Seq::new(sets.len(), |i: int| sets[i]@)
}

/// `cp` asks for `sets` at D = `bits`, with no shaping.
pub open spec fn is_cp_for(
    cp: Cp,
    sets: Seq<Seq<u8>>,
    bits: int,
    training: bool,
    law: Law,
    upstream_rates: u16,
) -> bool {
    &&& cp.training == training
    &&& cp.rate == bits - (if training {
        8int
    } else {
        20int
    })
    &&& !cp.silence
    &&& cp.redundancy == 0
    &&& !cp.acknowledge
    &&& cp.law == law
    &&& cp.upstream_rates == upstream_rates
    &&& cp.lookahead == 0
    &&& cp.rms_ratio == 0x2000
    &&& cp.filter@ == seq![0i8, 0, 0, 0]
    &&& cp.at_codec is None
    &&& cp.constellations@ == firsts(Seq::new(sets.len(), |i: int| mask_of(sets[i])))
    &&& forall|i: int|
        0 <= i < 6 ==> #[trigger] cp.spec_constellation(i) == mask_of(sets[i])
}

/// `count` levels are the fewest whose six intervals carry K bits.
pub open spec fn is_least(modulus_bits: int, count: int) -> bool {
    1 <= count && sixth(count) >= pow2(modulus_bits as nat) && sixth(count - 1) < pow2(
        modulus_bits as nat,
    )
}

/// The fewest levels whose six intervals carry K bits.
pub open spec fn levels_needed(modulus_bits: int) -> int {
    choose|count: int| is_least(modulus_bits, count)
}

proof fn lemma_sixth_grows(a: int, b: int)
    requires
        0 <= a <= b,
    ensures
        sixth(a) <= sixth(b),
{
    let (c, d) = (a * a, b * b);
    assert(0 <= c <= d) by (nonlinear_arith)
        requires
            0 <= a <= b,
            c == a * a,
            d == b * b,
    ;
    assert(0 <= c * c <= d * d) by (nonlinear_arith)
        requires
            0 <= c <= d,
    ;
    assert(c * c * c <= d * d * d) by (nonlinear_arith)
        requires
            0 <= c <= d,
            0 <= c * c <= d * d,
    ;
    assert(sixth(a) == c * c * c) by (nonlinear_arith)
        requires
            c == a * a,
            sixth(a) == a * a * a * a * a * a,
    ;
    assert(sixth(b) == d * d * d) by (nonlinear_arith)
        requires
            d == b * b,
            sixth(b) == b * b * b * b * b * b,
    ;
}

proof fn lemma_least_from(modulus_bits: int, count: int)
    requires
        1 <= count,
        sixth(count - 1) < pow2(modulus_bits as nat),
    ensures
        exists|least: int| is_least(modulus_bits, least),
    decreases pow2(modulus_bits as nat) - count,
{
    if sixth(count) >= pow2(modulus_bits as nat) {
        assert(is_least(modulus_bits, count));
    } else {
        assert(count <= sixth(count)) by (nonlinear_arith)
            requires
                1 <= count,
                sixth(count) == count * count * count * count * count * count,
        ;
        lemma_least_from(modulus_bits, count + 1);
    }
}

/// Some number of levels carries K bits, so `levels_needed` is the fewest.
proof fn lemma_levels_exist(modulus_bits: int)
    ensures
        is_least(modulus_bits, levels_needed(modulus_bits)),
{
    lemma_pow2_pos(modulus_bits as nat);
    lemma_least_from(modulus_bits, 1);
}

proof fn lemma_levels_needed(modulus_bits: int, count: int)
    requires
        is_least(modulus_bits, count),
    ensures
        levels_needed(modulus_bits) == count,
{
    let other = levels_needed(modulus_bits);
    assert(is_least(modulus_bits, other));
    if other < count {
        lemma_sixth_grows(other, count - 1);
    }
    if count < other {
        lemma_sixth_grows(count, other - 1);
    }
}

fn six(found: Vec<Vec<u8>>) -> (sets: [Vec<u8>; 6])
    requires
        found.len() == 6,
    ensures
        forall|i: int| 0 <= i < 6 ==> (#[trigger] sets@[i])@ == found@[i]@,
{
    [
        crate::v90::encoder::copied(&found[0]),
        crate::v90::encoder::copied(&found[1]),
        crate::v90::encoder::copied(&found[2]),
        crate::v90::encoder::copied(&found[3]),
        crate::v90::encoder::copied(&found[4]),
        crate::v90::encoder::copied(&found[5]),
    ]
}

pub open spec fn sizes_of(sets: Seq<Seq<u8>>) -> Seq<usize> {
    Seq::new(sets.len(), |i: int| sets[i].len() as usize)
}

/// The squared levels of the first `count` labels of interval `n`, the
/// largest Ucode first, each as often as the modulus encoder reaches it.
pub open spec fn set_power(sets: Seq<Seq<u8>>, modulus_bits: int, law: Law, n: int, count: int) -> int
    decreases count,
{
    if count <= 0 {
        0
    } else {
        let level = spec_linear(sets[n][sets[n].len() - count] as int, law);
        set_power(sets, modulus_bits, law, n, count - 1) + level * level * reached(
            sizes_of(sets),
            pow2(modulus_bits as nat) as int,
            n,
            count - 1,
        )
    }
}

/// The same of the first `n` intervals.
pub open spec fn total_power(sets: Seq<Seq<u8>>, modulus_bits: int, law: Law, n: int) -> int
    decreases n,
{
    if n <= 0 {
        0
    } else {
        total_power(sets, modulus_bits, law, n - 1) + set_power(
            sets,
            modulus_bits,
            law,
            n - 1,
            sets[n - 1].len() as int,
        )
    }
}

proof fn lemma_reached_within(sizes: Seq<usize>, total: int, n: int, label: int)
    requires
        total >= 0,
    ensures
        0 <= reached(sizes, total, n, label) <= total,
    decreases total,
{
    if total > 0 {
        lemma_reached_within(sizes, total - 1, n, label);
    }
}

/// § 8.5.2: whether the average power of the constellations, when K bits
/// enter the modulus encoder, is within the limit.
fn within_power(
    sets: &[Vec<u8>; 6],
    modulus_bits: usize,
    law: Law,
    max_power: u8,
    Ghost(all): Ghost<Seq<Seq<u8>>>,
) -> (within: bool)
    requires
        modulus_bits < 64,
        all.len() == 6,
        forall|i: int| 0 <= i < 6 ==> (#[trigger] sets@[i])@ == all[i] && sets@[i]@.len() <= 128,
        forall|i: int, k: int|
            0 <= i < 6 && 0 <= k < sets@[i]@.len() ==> #[trigger] sets@[i]@[k] < 128,
    ensures
        within == (total_power(all, modulus_bits as int, law, 6) <= 6 * pow2(modulus_bits as nat)
            * spec_power_limit(max_power)),
{
    let sizes: [usize; 6] = [
        sets[0].len(),
        sets[1].len(),
        sets[2].len(),
        sets[3].len(),
        sets[4].len(),
        sets[5].len(),
    ];
    assert(sizes@ =~= sizes_of(all));
    let counts = label_uses(sizes, modulus_bits);
    let total = power_of_two(modulus_bits);
    proof {
        lemma_pow2_pos(modulus_bits as nat);
        lemma2_to64_rest();
        lemma_pow2_strictly_increases(modulus_bits as nat, 64);
    }
    let mut sum: u128 = 0;
    let mut n: usize = 0;
    while n < 6
        invariant
            n <= 6,
            all.len() == 6,
            sizes@ == sizes_of(all),
            counts.len() == 6,
            total == pow2(modulus_bits as nat),
            total < 0x1_0000_0000_0000_0000,
            forall|i: int|
                0 <= i < 6 ==> (#[trigger] sets@[i])@ == all[i] && sets@[i]@.len() <= 128,
            forall|i: int, k: int|
                0 <= i < 6 && 0 <= k < sets@[i]@.len() ==> #[trigger] sets@[i]@[k] < 128,
            forall|i: int| 0 <= i < 6 ==> (#[trigger] counts[i])@.len() == sizes@[i],
            forall|i: int, label: int|
                0 <= i < 6 && 0 <= label < sizes@[i] ==> #[trigger] counts[i]@[label] == reached(
                    sizes@,
                    total as int,
                    i,
                    label,
                ),
            sum == total_power(all, modulus_bits as int, law, n as int),
            sum <= n * 0x20_0000_0000_0000_0000_0000_0000,
        decreases 6 - n,
    {
        let length = sets[n].len();
        let mut part: u128 = 0;
        let mut label: usize = 0;
        while label < length
            invariant
                n < 6,
                all.len() == 6,
                sizes@ == sizes_of(all),
                counts.len() == 6,
                length == sets@[n as int]@.len(),
                length == all[n as int].len(),
                sets@[n as int]@ == all[n as int],
                length <= 128,
                label <= length,
                total == pow2(modulus_bits as nat),
                total < 0x1_0000_0000_0000_0000,
                counts[n as int]@.len() == length,
                forall|k: int| 0 <= k < length ==> #[trigger] sets@[n as int]@[k] < 128,
                forall|label: int|
                    0 <= label < length ==> #[trigger] counts[n as int]@[label] == reached(
                        sizes@,
                        total as int,
                        n as int,
                        label,
                    ),
                part == set_power(all, modulus_bits as int, law, n as int, label as int),
                part <= label * 0x4000_0000_0000_0000_0000_0000,
            decreases length - label,
        {
            let ucode = sets[n][length - 1 - label];
            let level = linear(ucode, law) as u128;
            let uses = counts[n][label];
            proof {
                lemma_reached_within(sizes@, total as int, n as int, label as int);
                assert(level * level <= 0x4000_0000) by (nonlinear_arith)
                    requires
                        level <= 0x8000,
                ;
                let square = level * level;
                assert(0 <= square * uses <= 0x4000_0000 * 0x1_0000_0000_0000_0000)
                    by (nonlinear_arith)
                    requires
                        0 <= square <= 0x4000_0000,
                        0 <= uses <= 0x1_0000_0000_0000_0000,
                ;
            }
            part = part + level * level * uses;
            label += 1;
        }
        sum = sum + part;
        n += 1;
    }
    let limit = power_limit(max_power) as u128;
    proof {
        let most = 6 * total;
        assert(0 <= most * limit <= 6 * 0x1_0000_0000_0000_0000 * 0x1_0000_0000)
            by (nonlinear_arith)
            requires
                0 <= most <= 6 * 0x1_0000_0000_0000_0000,
                0 <= limit <= 0x1_0000_0000,
        ;
    }
    sum <= 6 * total * limit
}

/// Every level chosen is clear of the one below it, by the spacing and by the
/// noise of their Uchords, and the first of its other sign. The Ucodes rise.
pub proof fn law_each_level_has_its_room(levels: Levels, interval: int, count: int, spacing: int, n: int)
    requires
        0 <= n <= 128,
    ensures
        ({
            let chosen = levels.picked(interval, count, spacing, n);
            &&& chosen.len() > 0 ==> levels.has_room(interval, None, chosen[0], spacing)
            &&& forall|i: int|
                0 <= i < chosen.len() - 1 ==> levels.has_room(
                    interval,
                    Some(#[trigger] chosen[i]),
                    chosen[i + 1],
                    spacing,
                )
            &&& forall|i: int, j: int|
                0 <= i < j < chosen.len() ==> #[trigger] chosen[i] < #[trigger] chosen[j]
            &&& forall|i: int| 0 <= i < chosen.len() ==> #[trigger] chosen[i] < n
        }),
    decreases n,
{
    if n > 0 {
        law_each_level_has_its_room(levels, interval, count, spacing, n - 1);
    }
}

/// Where the levels rise, a narrower spacing leaves as many levels, and none
/// of them higher.
proof fn lemma_narrower(levels: Levels, interval: int, count: int, narrow: int, wide: int, n: int)
    requires
        levels.rises(),
        0 <= interval < 6,
        narrow <= wide,
        0 <= n <= 128,
    ensures
        ({
            let low = levels.picked(interval, count, narrow, n);
            let high = levels.picked(interval, count, wide, n);
            &&& low.len() >= high.len()
            &&& forall|k: int| 0 <= k < high.len() ==> #[trigger] low[k] <= high[k]
            &&& forall|k: int| 0 <= k < low.len() ==> #[trigger] low[k] < n
        }),
    decreases n,
{
    if n > 0 {
        lemma_narrower(levels, interval, count, narrow, wide, n - 1);
        law_each_level_has_its_room(levels, interval, count, narrow, n - 1);
        law_each_level_has_its_room(levels, interval, count, wide, n - 1);
        let low = levels.picked(interval, count, narrow, n - 1);
        let high = levels.picked(interval, count, wide, n - 1);
        let ucode = (n - 1) as u8;
        if high.len() < count && levels.has_room(interval, last_of(high), ucode, wide)
            && low.len() == high.len() && high.len() > 0 {
            let (a, b) = (low.last(), high.last());
            assert(low[high.len() - 1] <= high[high.len() - 1]);
            assert(b < ucode);
            if a < b {
                assert(levels.level(interval, a) <= levels.level(interval, b));
            }
        }
    }
}

proof fn lemma_less_power(
    low: Seq<Seq<u8>>,
    high: Seq<Seq<u8>>,
    modulus_bits: int,
    law: Law,
    n: int,
    count: int,
)
    requires
        sizes_of(low) == sizes_of(high),
        low[n].len() == high[n].len(),
        0 <= count <= low[n].len(),
        forall|k: int| 0 <= k < low[n].len() ==> #[trigger] low[n][k] <= high[n][k] < 128,
    ensures
        set_power(low, modulus_bits, law, n, count) <= set_power(
            high,
            modulus_bits,
            law,
            n,
            count,
        ),
    decreases count,
{
    if count > 0 {
        lemma_less_power(low, high, modulus_bits, law, n, count - 1);
        let k = low[n].len() - count;
        let (u, v) = (low[n][k] as int, high[n][k] as int);
        assert(u <= v < 128);
        let (a, b) = (spec_linear(u, law), spec_linear(v, law));
        lemma_linear_fits(u, law);
        if u < v {
            law_rises_with_the_ucode(u, v, law);
        }
        let uses = reached(sizes_of(low), pow2(modulus_bits as nat) as int, n, count - 1);
        lemma_pow2_pos(modulus_bits as nat);
        lemma_reached_within(sizes_of(low), pow2(modulus_bits as nat) as int, n, count - 1);
        assert(a * a * uses <= b * b * uses) by (nonlinear_arith)
            requires
                0 <= a <= b,
                0 <= uses,
        ;
    }
}

proof fn lemma_less_power_in_all(
    low: Seq<Seq<u8>>,
    high: Seq<Seq<u8>>,
    modulus_bits: int,
    law: Law,
    n: int,
)
    requires
        sizes_of(low) == sizes_of(high),
        0 <= n <= 6,
        forall|i: int| 0 <= i < 6 ==> (#[trigger] low[i]).len() == high[i].len(),
        forall|i: int, k: int|
            0 <= i < 6 && 0 <= k < low[i].len() ==> #[trigger] low[i][k] <= high[i][k] < 128,
    ensures
        total_power(low, modulus_bits, law, n) <= total_power(high, modulus_bits, law, n),
    decreases n,
{
    if n > 0 {
        lemma_less_power_in_all(low, high, modulus_bits, law, n - 1);
        assert(low[n - 1].len() == high[n - 1].len());
        lemma_less_power(low, high, modulus_bits, law, n - 1, low[n - 1].len() as int);
    }
}

/// Where the levels rise, what fits at a spacing fits at every narrower one,
/// with no more power.
pub proof fn law_a_narrower_spacing_fits_too(
    levels: Levels,
    bits: int,
    law: Law,
    max_power: u8,
    narrow: int,
    wide: int,
)
    requires
        levels.rises(),
        bits >= 6,
        narrow <= wide,
        levels.fits(bits, law, max_power, wide),
    ensures
        levels.fits(bits, law, max_power, narrow),
{
    let count = levels_needed(bits - 6);
    lemma_levels_exist(bits - 6);
    let low = levels.sets_at(count, narrow);
    let high = levels.sets_at(count, wide);
    assert forall|i: int| 0 <= i < 6 implies (#[trigger] low[i]).len() == count && high[i].len()
        == count && (forall|k: int|
        0 <= k < low[i].len() ==> #[trigger] low[i][k] <= high[i][k] < 128) by {
        assert(high[i].len() == count);
        lemma_narrower(levels, i, count, narrow, wide, 128);
        levels.lemma_picked(i, count, narrow, 128);
        levels.lemma_picked(i, count, wide, 128);
        assert forall|k: int| 0 <= k < low[i].len() implies #[trigger] low[i][k] <= high[i][k]
            && high[i][k] < 128 by {
            assert(levels.picked(i, count, narrow, 128)[k] <= levels.picked(
                i,
                count,
                wide,
                128,
            )[k]);
        }
    }
    assert(sizes_of(low) =~= sizes_of(high));
    lemma_less_power_in_all(low, high, bits - 6, law, 6);
}

/// Table 1 with no noise rises.
pub proof fn law_the_table_rises(levels: Levels, law: Law)
    requires
        forall|i: int, u: u8|
            #![trigger levels.level(i, u)]
            0 <= i < 6 && u < 128 ==> levels.level(i, u) == 0x1_0000 * spec_linear(u as int, law),
        forall|c: int| 0 <= c < 8 ==> #[trigger] levels.noise@[c] == 0,
    ensures
        levels.rises(),
{
    assert forall|i: int, u: u8, v: u8|
        #![trigger levels.level(i, u), levels.level(i, v)]
        0 <= i < 6 && u < v < 128 implies {
        &&& levels.level(i, u) <= levels.level(i, v)
        &&& 2 * levels.level(i, u) + levels.spec_margin(u) <= 2 * levels.level(i, v)
            + levels.spec_margin(v)
    } by {
        law_rises_with_the_ucode(u as int, v as int, law);
        assert(levels.noise@[u as int / 16] == 0 && levels.noise@[v as int / 16] == 0);
    }
}

/// Table 15 goes down in steps of half a dB, from 15124 at −0.5 dBm0 to 2540
/// at −16 dBm0, and what is above bits 33:37 goes by the last.
pub proof fn law_table_15(max_power: u8)
    ensures
        spec_power_limit(0) == 15_124 * 15_124,
        spec_power_limit(31) == 2540 * 2540,
        max_power >= 32 ==> spec_power_limit(max_power) == 2540 * 2540,
        max_power < 31 ==> 8898 * spec_power_limit(max_power) <= 10_000 * spec_power_limit((max_power + 1) as u8)
            <= 8931 * spec_power_limit(max_power),
{
    let n = max_power as int;
    if n < 31 {
        let a = POWER_LIMITS@[n] as int;
        let b = POWER_LIMITS@[n + 1] as int;
        assert(9433 * a <= 10_000 * b <= 9450 * a && a >= 0);
        assert(8898 * (a * a) <= 10_000 * (b * b) <= 8931 * (a * a)) by (nonlinear_arith)
            requires
                9433 * a <= 10_000 * b <= 9450 * a,
                a >= 0,
        ;
    }
    assert(15_124int * 15_124 == 228_735_376 && 2540int * 2540 == 6_451_600);
}

/// A level has room above the last one where they are as far apart as the
/// spacing, and as 11 times the mean of the noise of their Uchords. The
/// first is as far from its own other sign.
pub proof fn law_room_is_spacing_and_noise(levels: Levels, interval: int, last: u8, ucode: u8, spacing: int)
    requires
        ucode < 128,
        last < 128,
    ensures
        ({
            let level = levels.levels@[interval]@[ucode as int];
            let below = levels.levels@[interval]@[last as int];
            let noise = levels.noise@[ucode as int / 16];
            let lower = levels.noise@[last as int / 16];
            &&& levels.has_room(interval, Some(last), ucode, spacing) <==> level - below >= spacing && 2 * (level - below)
                >= 11 * (lower + noise)
            &&& levels.has_room(interval, None, ucode, spacing) <==> level - (-level) >= spacing && level - (-level)
                >= 11 * noise
        }),
{
}

/// Levels are chosen from the bottom up, and none that has room above the
/// last chosen is left out before there are enough.
pub proof fn law_no_level_with_room_is_left_out(levels: Levels, interval: int, count: int, spacing: int, n: int)
    requires
        0 <= n < 128,
    ensures
        ({
            let before = levels.picked(interval, count, spacing, n);
            let after = levels.picked(interval, count, spacing, n + 1);
            let room = if before.len() == 0 {
                levels.has_room(interval, None, n as u8, spacing)
            } else {
                levels.has_room(interval, Some(before.last()), n as u8, spacing)
            };
            &&& levels.picked(interval, count, spacing, 0).len() == 0
            &&& before.len() < count && room ==> after == before.push(n as u8)
            &&& before.len() >= count || !room ==> after == before
            &&& levels.sets_at(count, spacing).len() == 6
            &&& 0 <= interval < 6 ==> levels.sets_at(count, spacing)[interval] == levels.picked(
                interval,
                count,
                spacing,
                128,
            )
        }),
{
}

/// A spacing fits D bits where each interval has the fewest levels whose six
/// carry D − 6 bits, and the mean power, by how often the modulus encoder
/// reaches each level, is within the limit.
pub proof fn law_what_fits_carries_its_bits(levels: Levels, bits: int, law: Law, max_power: u8, spacing: int, count: int)
    requires
        bits >= 6,
        1 <= count,
        count * count * count * count * count * count >= pow2((bits - 6) as nat),
        (count - 1) * (count - 1) * (count - 1) * (count - 1) * (count - 1) * (count - 1) < pow2((bits - 6) as nat),
    ensures
        ({
            let sets = levels.sets_at(count, spacing);
            levels.fits(bits, law, max_power, spacing) <==> (forall|i: int|
                0 <= i < 6 ==> (#[trigger] sets[i]).len() == count) && total_power(sets, bits - 6, law, 6) <= 6 * pow2(
                (bits - 6) as nat,
            ) * spec_power_limit(max_power)
        }),
{
    assert(is_least(bits - 6, count));
    let least = levels_needed(bits - 6);
    assert(is_least(bits - 6, least));
    if least < count {
        lemma_sixth_grows(least, count - 1);
    } else if count < least {
        lemma_sixth_grows(count, least - 1);
    }
}

/// The power of the sets adds up the square of each level of table 1, as
/// often as the modulus encoder reaches its label; the largest Ucode is label
/// 0.
pub proof fn law_power_counts_each_label(sets: Seq<Seq<u8>>, modulus_bits: int, law: Law, n: int, label: int)
    requires
        0 <= n < sets.len(),
        0 <= label < sets[n].len(),
    ensures
        set_power(sets, modulus_bits, law, n, 0) == 0,
        total_power(sets, modulus_bits, law, 0) == 0,
        set_power(sets, modulus_bits, law, n, label + 1) - set_power(sets, modulus_bits, law, n, label) == spec_linear(
            sets[n][sets[n].len() - 1 - label] as int,
            law,
        ) * spec_linear(sets[n][sets[n].len() - 1 - label] as int, law) * reached(
            sizes_of(sets),
            pow2(modulus_bits as nat) as int,
            n,
            label,
        ),
        total_power(sets, modulus_bits, law, n + 1) - total_power(sets, modulus_bits, law, n) == set_power(
            sets,
            modulus_bits,
            law,
            n,
            sets[n].len() as int,
        ),
{
}

/// CP carries D bits as D − 20, and CPt as D − 8, with no shaping and a
/// codec that is as in table 1.
pub proof fn law_cp_carries_its_rate(cp: Cp, sets: Seq<Seq<u8>>, bits: int, law: Law, upstream_rates: u16)
    ensures
        is_cp_for(cp, sets, bits, false, law, upstream_rates) ==> cp.rate + 20 == bits && !cp.training,
        is_cp_for(cp, sets, bits, true, law, upstream_rates) ==> cp.rate + 8 == bits && cp.training,
        is_cp_for(cp, sets, bits, true, law, upstream_rates) || is_cp_for(cp, sets, bits, false, law, upstream_rates)
            ==> cp.law == law && cp.upstream_rates == upstream_rates && cp.redundancy == 0 && cp.lookahead == 0
            && !cp.silence && !cp.acknowledge && cp.at_codec is None && cp.filter@ == seq![0i8, 0, 0, 0]
            && cp.rms_ratio == 0x2000,
        LEAST_DATA_BITS == 21 && MOST_DATA_BITS == 42 && TRAINING_BITS == 24,
        LEAST_SPACING == 8 * 0x1_0000 && MOST_SPACING == 0x8000 * 0x1_0000,
{
}

/// The spacing chosen fits, and one 2⁻¹⁶ of a step wider does not, unless it
/// is 2¹⁵ steps. Where the levels rise, no wider one does.
pub proof fn law_the_widest_spacing_is_chosen(
    levels: Levels,
    bits: int,
    law: Law,
    max_power: u8,
    sets: Seq<Seq<u8>>,
    spacing: int,
    wider: int,
)
    requires
        levels.widest(bits, law, max_power, sets, spacing),
    ensures
        0x8_0000 <= spacing < 0x8000_0000,
        levels.fits(bits, law, max_power, spacing),
        spacing + 1 < 0x8000_0000 ==> !levels.fits(bits, law, max_power, spacing + 1),
        levels.rises() && spacing < wider < 0x8000_0000 ==> !levels.fits(bits, law, max_power, wider),
{
}

/// The spacing is found by halving the way from one that fits to one that
/// does not.
pub proof fn law_halving_finds_the_spacing(levels: Levels, bits: int, law: Law, max_power: u8, low: int, high: int)
    ensures
        high - low <= 1 ==> levels.halved(bits, law, max_power, low, high) == low,
        high - low > 1 && levels.fits(bits, law, max_power, low + (high - low) / 2) ==> levels.halved(
            bits,
            law,
            max_power,
            low,
            high,
        ) == levels.halved(bits, law, max_power, low + (high - low) / 2, high),
        high - low > 1 && !levels.fits(bits, law, max_power, low + (high - low) / 2) ==> levels.halved(
            bits,
            law,
            max_power,
            low,
            high,
        ) == levels.halved(bits, law, max_power, low, low + (high - low) / 2),
{
}

} // verus!

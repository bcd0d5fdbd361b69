//! What DIL shows: the level of each Ucode in each data frame interval, from
//! the mean of its samples, and the noise around the levels of each Uchord.

use crate::v90::levels::{Levels, LEVEL_LIMIT};
use crate::v90::ucode::{spec_linear, spec_signed, Law, COUNT};
use vstd::prelude::*;

verus! {

/// The samples of one codeword in one interval that count, over 37 hours of
/// it.
pub const SAMPLE_LIMIT: u32 = 0x4000_0000;

/// The samples of one codeword in one interval.
#[derive(Debug, Clone, Copy, PartialEq, Eq, Structural)]
pub struct Stat {
    pub sum: i64,
    pub squares: u64,
    pub count: u32,
}

impl Stat {
    /// Within what `count` samples can add up to.
    pub open spec fn valid(self) -> bool {
        &&& self.count <= SAMPLE_LIMIT
        &&& -32_768 * self.count <= self.sum <= 32_768 * self.count
        &&& self.squares <= 0x4000_0000 * self.count
    }

    pub open spec fn none() -> Self {
        Self { sum: 0, squares: 0, count: 0 }
    }

    /// With one more sample, as far as they count.
    pub open spec fn with(self, x: i16) -> Self {
        if self.count < SAMPLE_LIMIT {
            Self {
                sum: (self.sum + x) as i64,
                squares: (self.squares + x * x) as u64,
                count: (self.count + 1) as u32,
            }
        } else {
            self
        }
    }

    fn push(&mut self, x: i16)
        requires
            old(self).valid(),
        ensures
            final(self).valid(),
            *final(self) == old(self).with(x),
    {
        if self.count >= SAMPLE_LIMIT {
            return;
        }
        let value = x as i64;
        assert(0 <= value * value <= 0x4000_0000) by (nonlinear_arith)
            requires
                -32_768 <= value <= 32_767,
        ;
        assert(value * value == x * x);
        self.sum += value;
        self.squares += (value * value) as u64;
        self.count += 1;
    }

    /// How far its samples lie from their mean, squared and added up, in
    /// 2⁻³² of a linear step squared.
    pub open spec fn spec_spread(self) -> int {
        let apart = self.squares * self.count - self.sum * self.sum;
        if apart <= 0 {
            0
        } else {
            0x1_0000_0000 * apart / self.count as int
        }
    }

    fn spread(&self) -> (spread: u128)
        requires
            self.valid(),
            self.count > 0,
        ensures
            spread == self.spec_spread(),
            spread <= 0x1000_0000_0000_0000_0000_0000,
    {
        let count = self.count as u128;
        let squares = self.squares as u128;
        let size: u128 = if self.sum < 0 {
            (-self.sum) as u128
        } else {
            self.sum as u128
        };
        proof {
            let (c, q, s) = (count as int, squares as int, size as int);
            assert(s * s == self.sum * self.sum) by (nonlinear_arith)
                requires
                    s == self.sum || s == -self.sum,
            ;
            assert(q * c <= 0x4000_0000 * 0x4000_0000 * 0x4000_0000) by (nonlinear_arith)
                requires
                    0 <= c <= 0x4000_0000,
                    0 <= q <= 0x4000_0000 * c,
            ;
            assert(0 <= q * c) by (nonlinear_arith)
                requires
                    0 <= c,
                    0 <= q,
            ;
            assert(0 <= s * s <= 0x4000_0000 * 0x4000_0000 * 0x4000_0000) by (nonlinear_arith)
                requires
                    0 <= c <= 0x4000_0000,
                    0 <= s <= 32_768 * c,
            ;
        }
        let all = squares * count;
        let mean = size * size;
        if all <= mean {
            return 0;
        }
        let apart = all - mean;
        let spread = 0x1_0000_0000 * apart / count;
        proof {
            let (c, q, a) = (count as int, squares as int, apart as int);
            assert(0x1_0000_0000 * a / c <= 0x1_0000_0000 * q) by (nonlinear_arith)
                requires
                    c > 0,
                    0 <= a <= q * c,
            ;
            assert(q <= 0x4000_0000 * 0x4000_0000) by (nonlinear_arith)
                requires
                    0 <= c <= 0x4000_0000,
                    q <= 0x4000_0000 * c,
            ;
        }
        spread
    }
}

/// Half the way from the mean of the negative samples to that of the
/// positive ones, in 2⁻¹⁶ of a linear step.
pub open spec fn level_between(negative: Stat, positive: Stat) -> int {
    32_768 * (positive.sum * negative.count - negative.sum * positive.count) / (positive.count
        * negative.count)
}

fn level_from(negative: &Stat, positive: &Stat) -> (level: i64)
    requires
        negative.valid(),
        positive.valid(),
        negative.count > 0,
        positive.count > 0,
    ensures
        level == level_between(*negative, *positive),
        -0x8000_0000 <= level <= 0x8000_0000,
{
    proof {
        let (p, n) = (positive.sum as int, negative.sum as int);
        let (a, b) = (positive.count as int, negative.count as int);
        assert(-32_768 * (a * b) <= p * b <= 32_768 * (a * b)) by (nonlinear_arith)
            requires
                b > 0,
                -32_768 * a <= p <= 32_768 * a,
        ;
        assert(-32_768 * (a * b) <= n * a <= 32_768 * (a * b)) by (nonlinear_arith)
            requires
                a > 0,
                -32_768 * b <= n <= 32_768 * b,
        ;
        assert(0 < a * b <= 0x4000_0000 * 0x4000_0000) by (nonlinear_arith)
            requires
                0 < a <= 0x4000_0000,
                0 < b <= 0x4000_0000,
        ;
    }
    let up = positive.sum as i128 * negative.count as i128;
    let down = negative.sum as i128 * positive.count as i128;
    let all = positive.count as i128 * negative.count as i128;
    let apart = 32_768 * (up - down);
    proof {
        let (x, d) = (apart as int, all as int);
        assert(-0x8000_0000 <= x / d <= 0x8000_0000) by (nonlinear_arith)
            requires
                d > 0,
                -0x8000_0000 * d <= x <= 0x8000_0000 * d,
        ;
    }
    if apart >= 0 {
        let level = apart as u128 / all as u128;
        level as i64
    } else {
        let below = (-apart) as u128;
        let part = all as u128;
        let level = (below + (part - 1)) / part;
        proof {
            let (x, d, l) = (below as int, part as int, level as int);
            assert((-x) / d == -l) by (nonlinear_arith)
                requires
                    d > 0,
                    x > 0,
                    l == (x + (d - 1)) / d,
            ;
        }
        -(level as i64)
    }
}

/// `root` is the whole part of the square root of `n`.
pub open spec fn is_root(root: int, n: int) -> bool {
    0 <= root && root * root <= n < (root + 1) * (root + 1)
}

fn root(n: u128) -> (root: u64)
    requires
        n <= 192 * 0x1000_0000_0000_0000_0000_0000,
    ensures
        is_root(root as int, n as int),
        root <= 0x4_0000_0000_0000,
{
    let mut low: u128 = 0;
    let mut high: u128 = 0x4_0000_0000_0001;
    assert(0x4_0000_0000_0001int * 0x4_0000_0000_0001
        > 192 * 0x1000_0000_0000_0000_0000_0000) by (nonlinear_arith);
    assert(0int * 0 == 0);
    while high - low > 1
        invariant
            low < high <= 0x4_0000_0000_0001,
            low * low <= n,
            n < high * high,
        decreases high - low,
    {
        let middle = low + (high - low) / 2;
        assert(0 <= middle * middle <= 0x4_0000_0000_0001 * 0x4_0000_0000_0001) by (nonlinear_arith)
            requires
                0 <= middle <= 0x4_0000_0000_0001,
        ;
        if middle * middle <= n {
            low = middle;
        } else {
            high = middle;
        }
    }
    low as u64
}

/// Where the samples of a codeword in an interval are kept.
pub open spec fn place(interval: int, ucode: int, positive: bool) -> int {
    256 * interval + 2 * ucode + if positive {
        1int
    } else {
        0
    }
}

pub open spec fn stat_of(stats: Seq<Stat>, interval: int, ucode: int, positive: bool) -> Stat {
    stats[place(interval, ucode, positive)]
}

/// A Ucode has come with both signs.
pub open spec fn counted(stats: Seq<Stat>, interval: int, ucode: int) -> bool {
    stat_of(stats, interval, ucode, false).count > 0 && stat_of(
        stats,
        interval,
        ucode,
        true,
    ).count > 0
}

/// The interval and the Ucode at place `k` of a Uchord.
pub open spec fn within(uchord: int, k: int) -> (int, int) {
    (k / 16, 16 * uchord + k % 16)
}

/// How far the samples at place `k` of a Uchord lie from their means.
pub open spec fn spread_at(stats: Seq<Stat>, uchord: int, k: int) -> int {
    let (interval, ucode) = within(uchord, k);
    if counted(stats, interval, ucode) {
        stat_of(stats, interval, ucode, false).spec_spread() + stat_of(
            stats,
            interval,
            ucode,
            true,
        ).spec_spread()
    } else {
        0
    }
}

/// How many samples at place `k` of a Uchord there are past the first of
/// each codeword.
pub open spec fn freedom_at(stats: Seq<Stat>, uchord: int, k: int) -> int {
    let (interval, ucode) = within(uchord, k);
    if counted(stats, interval, ucode) {
        stat_of(stats, interval, ucode, false).count + stat_of(
            stats,
            interval,
            ucode,
            true,
        ).count - 2
    } else {
        0
    }
}

/// Over the first `n` places.
pub open spec fn spreads(stats: Seq<Stat>, uchord: int, n: int) -> int
    decreases n,
{
    if n <= 0 {
        0
    } else {
        spreads(stats, uchord, n - 1) + spread_at(stats, uchord, n - 1)
    }
}

pub open spec fn freedoms(stats: Seq<Stat>, uchord: int, n: int) -> int
    decreases n,
{
    if n <= 0 {
        0
    } else {
        freedoms(stats, uchord, n - 1) + freedom_at(stats, uchord, n - 1)
    }
}

/// Whether a Uchord shows its noise.
pub open spec fn is_heard(stats: Seq<Stat>, uchord: int) -> bool {
    freedoms(stats, uchord, 96) > 0
}

/// The variance of a Uchord that shows its noise, in 2⁻³² of a linear step
/// squared.
pub open spec fn variance(stats: Seq<Stat>, uchord: int) -> int {
    spreads(stats, uchord, 96) / freedoms(stats, uchord, 96)
}

/// The level shown, or that of table 1 where there is none.
pub open spec fn level_shown(stats: Seq<Stat>, interval: int, ucode: int, law: Law) -> int {
    if counted(stats, interval, ucode) {
        level_between(
            stat_of(stats, interval, ucode, false),
            stat_of(stats, interval, ucode, true),
        )
    } else {
        0x1_0000 * spec_linear(ucode, law)
    }
}

/// The RMS of each Uchord that shows its noise, and the worst of them for
/// the others.
pub open spec fn noise_shown(stats: Seq<Stat>, noise: Seq<i64>) -> bool {
    &&& noise.len() == 8
    &&& forall|c: int|
        0 <= c < 8 && #[trigger] is_heard(stats, c) ==> is_root(noise[c] as int, variance(stats, c))
    &&& forall|c: int|
        0 <= c < 8 && !#[trigger] is_heard(stats, c) ==> is_worst(stats, noise, noise[c])
}

pub open spec fn is_worst(stats: Seq<Stat>, noise: Seq<i64>, worst: i64) -> bool {
    &&& forall|c: int| 0 <= c < 8 && #[trigger] is_heard(stats, c) ==> noise[c] <= worst
    &&& worst == 0 || exists|c: int|
        0 <= c < 8 && #[trigger] is_heard(stats, c) && noise[c] == worst
}

/// What the levels are that the samples show.
pub open spec fn shows(stats: Seq<Stat>, law: Law, levels: Levels) -> bool {
    &&& forall|i: int, u: u8|
        #![trigger levels.level(i, u)]
        0 <= i < 6 && u < 128 ==> levels.level(i, u) == level_shown(stats, i, u as int, law)
    &&& noise_shown(stats, levels.noise@)
}

/// The samples of DIL.
#[derive(Debug)]
pub struct Tally {
    stats: Vec<Stat>,
}

impl Tally {
    pub closed spec fn stats(self) -> Seq<Stat> {
        self.stats@
    }

    pub closed spec fn valid(self) -> bool {
        &&& self.stats@.len() == 1536
        &&& forall|n: int| 0 <= n < 1536 ==> (#[trigger] self.stats@[n]).valid()
    }

    #[must_use]
    pub fn new() -> (tally: Self)
        ensures
            tally.valid(),
            tally.stats() == Seq::new(1536, |n: int| Stat::none()),
    {
        let mut stats: Vec<Stat> = Vec::new();
        while stats.len() < 1536
            invariant
                stats@ == Seq::new(stats.len() as nat, |n: int| Stat::none()),
                stats.len() <= 1536,
            decreases 1536 - stats.len(),
        {
            stats.push(Stat { sum: 0, squares: 0, count: 0 });
            assert(stats@ =~= Seq::new(stats.len() as nat, |n: int| Stat::none()));
        }
        Self { stats }
    }

    /// One more sample of a codeword.
    pub fn learn(&mut self, x: i16, interval: usize, ucode: u8, positive: bool)
        requires
            old(self).valid(),
            interval < 6,
            ucode < COUNT,
        ensures
            final(self).valid(),
            ({
                let n = place(interval as int, ucode as int, positive);
                final(self).stats() == old(self).stats().update(n, old(self).stats()[n].with(x))
            }),
    {
        let sign: usize = if positive {
            1
        } else {
            0
        };
        let n: usize = 256 * interval + 2 * ucode as usize + sign;
        let mut stat = self.stats[n];
        stat.push(x);
        self.stats.set(n, stat);
    }

    fn stat(&self, interval: usize, ucode: usize, positive: bool) -> (stat: Stat)
        requires
            self.valid(),
            interval < 6,
            ucode < 128,
        ensures
            stat == stat_of(self.stats(), interval as int, ucode as int, positive),
            stat.valid(),
    {
        let sign: usize = if positive {
            1
        } else {
            0
        };
        self.stats[256 * interval + 2 * ucode + sign]
    }

    /// The spreads and the freedoms of a Uchord.
    fn of_uchord(&self, uchord: usize) -> (sums: (u128, u64))
        requires
            self.valid(),
            uchord < 8,
        ensures
            sums.0 == spreads(self.stats(), uchord as int, 96),
            sums.1 == freedoms(self.stats(), uchord as int, 96),
            sums.0 <= 192 * 0x1000_0000_0000_0000_0000_0000,
    {
        let mut spread: u128 = 0;
        let mut freedom: u64 = 0;
        let mut k: usize = 0;
        while k < 96
            invariant
                self.valid(),
                uchord < 8,
                k <= 96,
                spread == spreads(self.stats(), uchord as int, k as int),
                freedom == freedoms(self.stats(), uchord as int, k as int),
                spread <= 2 * k * 0x1000_0000_0000_0000_0000_0000,
                freedom <= 2 * k * SAMPLE_LIMIT,
            decreases 96 - k,
        {
            let (interval, ucode) = (k / 16, 16 * uchord + k % 16);
            let negative = self.stat(interval, ucode, false);
            let positive = self.stat(interval, ucode, true);
            if negative.count > 0 && positive.count > 0 {
                let below = negative.spread();
                let above = positive.spread();
                spread += below + above;
                freedom += (negative.count - 1) as u64 + (positive.count - 1) as u64;
            }
            k += 1;
        }
        (spread, freedom)
    }

    /// The noise of a Uchord, if it shows it.
    fn noise(&self, uchord: usize) -> (noise: Option<i64>)
        requires
            self.valid(),
            uchord < 8,
        ensures
            match noise {
                Some(noise) => is_heard(self.stats(), uchord as int) && is_root(
                    noise as int,
                    variance(self.stats(), uchord as int),
                ) && 0 <= noise <= LEVEL_LIMIT,
                None => !is_heard(self.stats(), uchord as int),
            },
    {
        let (spread, freedom) = self.of_uchord(uchord);
        if freedom == 0 {
            return None;
        }
        let variance = spread / freedom as u128;
        proof {
            let (s, f) = (spread as int, freedom as int);
            assert(s / f <= s) by (nonlinear_arith)
                requires
                    f > 0,
                    s >= 0,
            ;
        }
        Some(root(variance) as i64)
    }

    fn level(&self, interval: usize, ucode: u8, table: i64, Ghost(law): Ghost<Law>) -> (level: i64)
        requires
            self.valid(),
            interval < 6,
            ucode < 128,
            table == 0x1_0000 * spec_linear(ucode as int, law),
            0 <= table <= LEVEL_LIMIT,
        ensures
            level == level_shown(self.stats(), interval as int, ucode as int, law),
            -LEVEL_LIMIT <= level <= LEVEL_LIMIT,
    {
        let negative = self.stat(interval, ucode as usize, false);
        let positive = self.stat(interval, ucode as usize, true);
        if negative.count > 0 && positive.count > 0 {
            level_from(&negative, &positive)
        } else {
            table
        }
    }

    /// The levels that the samples show.
    #[must_use]
    pub fn levels(&self, law: Law) -> (levels: Levels)
        requires
            self.valid(),
        ensures
            levels.valid(),
            shows(self.stats(), law, levels),
    {
        let mut levels = Levels::table(law);
        let ghost table = levels;
        let mut interval: usize = 0;
        while interval < 6
            invariant
                self.valid(),
                interval <= 6,
                table.valid(),
                forall|i: int, u: u8|
                    #![trigger table.level(i, u)]
                    0 <= i < 6 && u < 128 ==> table.level(i, u) == 0x1_0000 * spec_linear(
                        u as int,
                        law,
                    ),
                levels.noise == table.noise,
                levels.valid(),
                forall|i: int|
                    interval <= i < 6 ==> #[trigger] levels.levels@[i] == table.levels@[i],
                forall|i: int, u: u8|
                    #![trigger levels.level(i, u)]
                    0 <= i < interval && u < 128 ==> levels.level(i, u) == level_shown(
                        self.stats(),
                        i,
                        u as int,
                        law,
                    ),
            decreases 6 - interval,
        {
            let mut row = levels.levels[interval];
            let ghost before = row;
            let mut ucode: u8 = 0;
            while ucode < 128
                invariant
                    self.valid(),
                    interval < 6,
                    ucode <= 128,
                    before == table.levels@[interval as int],
                    table.valid(),
                    forall|i: int, u: u8|
                        #![trigger table.level(i, u)]
                        0 <= i < 6 && u < 128 ==> table.level(i, u) == 0x1_0000 * spec_linear(
                            u as int,
                            law,
                        ),
                    forall|u: int| ucode <= u < 128 ==> #[trigger] row@[u] == before@[u],
                    forall|u: int|
                        0 <= u < ucode ==> #[trigger] row@[u] == level_shown(
                            self.stats(),
                            interval as int,
                            u,
                            law,
                        ) && -LEVEL_LIMIT <= row@[u] <= LEVEL_LIMIT,
                decreases 128 - ucode,
            {
                let own = row[ucode as usize];
                assert(own == before@[ucode as int]);
                assert(own == table.level(interval as int, ucode));
                proof {
                    crate::v90::ucode::lemma_linear_fits(ucode as int, law);
                }
                row[ucode as usize] = self.level(interval, ucode, own, Ghost(law));
                ucode += 1;
            }
            let ghost last = levels;
            levels.levels[interval] = row;
            assert(forall|i: int|
                0 <= i < 6 && i != interval ==> #[trigger] levels.levels@[i] == last.levels@[i]);
            assert forall|i: int, u: u8|
                #![trigger levels.level(i, u)]
                0 <= i < interval + 1 && u < 128 implies levels.level(i, u) == level_shown(
                self.stats(),
                i,
                u as int,
                law,
            ) by {
                if i < interval {
                    assert(last.level(i, u) == level_shown(self.stats(), i, u as int, law));
                } else {
                    assert(row@[u as int] == level_shown(self.stats(), i, u as int, law));
                }
            }
            interval += 1;
        }
        let ghost shown = levels;
        levels.noise = self.noises();
        assert(levels.levels == shown.levels);
        assert forall|i: int, u: u8|
            #![trigger levels.level(i, u)]
            0 <= i < 6 && u < 128 implies levels.level(i, u) == level_shown(
            self.stats(),
            i,
            u as int,
            law,
        ) by {
            assert(levels.level(i, u) == shown.level(i, u));
        }
        levels
    }

    fn noises(&self) -> (noise: [i64; 8])
        requires
            self.valid(),
        ensures
            noise_shown(self.stats(), noise@),
            forall|c: int| 0 <= c < 8 ==> 0 <= #[trigger] noise@[c] <= LEVEL_LIMIT,
    {
        let mut heard: [bool; 8] = [false; 8];
        let mut noise: [i64; 8] = [0; 8];
        let mut worst: i64 = 0;
        let mut c: usize = 0;
        while c < 8
            invariant
                self.valid(),
                c <= 8,
                0 <= worst <= LEVEL_LIMIT,
                forall|k: int|
                    0 <= k < c ==> #[trigger] heard@[k] == is_heard(self.stats(), k),
                forall|k: int| c <= k < 8 ==> !#[trigger] heard@[k],
                forall|k: int|
                    0 <= k < c && #[trigger] is_heard(self.stats(), k) ==> is_root(
                        noise@[k] as int,
                        variance(self.stats(), k),
                    ) && 0 <= noise@[k] <= worst,
                worst == 0 || exists|k: int|
                    0 <= k < c && #[trigger] is_heard(self.stats(), k) && noise@[k] == worst,
            decreases 8 - c,
        {
            if let Some(own) = self.noise(c) {
                let ghost before = noise@;
                heard[c] = true;
                noise[c] = own;
                assert(noise@ =~= before.update(c as int, own));
                if own > worst {
                    worst = own;
                    assert(is_heard(self.stats(), c as int) && noise@[c as int] == worst);
                } else if worst != 0 {
                    let ghost k = choose|k: int|
                        0 <= k < c && #[trigger] is_heard(self.stats(), k) && before[k] == worst;
                    assert(is_heard(self.stats(), k) && noise@[k] == worst);
                }
            }
            c += 1;
        }
        let ghost roots = noise@;
        let mut c: usize = 0;
        while c < 8
            invariant
                c <= 8,
                0 <= worst <= LEVEL_LIMIT,
                forall|k: int|
                    0 <= k < 8 ==> #[trigger] heard@[k] == is_heard(self.stats(), k),
                forall|k: int|
                    0 <= k < 8 && #[trigger] is_heard(self.stats(), k) ==> is_root(
                        roots[k] as int,
                        variance(self.stats(), k),
                    ) && 0 <= roots[k] <= worst,
                forall|k: int|
                    0 <= k < 8 && #[trigger] is_heard(self.stats(), k) ==> noise@[k] == roots[k],
                forall|k: int|
                    0 <= k < c && !#[trigger] is_heard(self.stats(), k) ==> noise@[k] == worst,
            decreases 8 - c,
        {
            if !heard[c] {
                let ghost before = noise@;
                noise[c] = worst;
                assert(noise@ =~= before.update(c as int, worst));
                assert(!is_heard(self.stats(), c as int));
            }
            c += 1;
        }
        proof {
            assert(is_worst(self.stats(), noise@, worst)) by {
                if worst != 0 {
                    let k = choose|k: int|
                        0 <= k < 8 && #[trigger] is_heard(self.stats(), k) && roots[k] == worst;
                    assert(is_heard(self.stats(), k) && noise@[k] == worst);
                }
            }
            assert forall|k: int| 0 <= k < 8 implies 0 <= #[trigger] noise@[k] <= LEVEL_LIMIT by {
                assert(heard@[k] == is_heard(self.stats(), k));
            }
        }
        noise
    }
}

/// Every sample of a codeword came at the level of table 1.
pub open spec fn is_exact(stat: Stat, ucode: int, positive: bool, law: Law) -> bool {
    &&& stat.sum == stat.count * spec_signed(ucode, positive, law)
    &&& stat.squares == stat.count * (spec_linear(ucode, law) * spec_linear(ucode, law))
}

/// Every sample came at the level of table 1.
pub open spec fn all_exact(stats: Seq<Stat>, law: Law) -> bool {
    forall|i: int, u: int, positive: bool|
        0 <= i < 6 && 0 <= u < 128 ==> is_exact(
            #[trigger] stat_of(stats, i, u, positive),
            u,
            positive,
            law,
        )
}

/// A sample that comes at its level leaves all of them at their levels.
pub proof fn law_exact_samples_stay_exact(
    stats: Seq<Stat>,
    law: Law,
    interval: int,
    ucode: int,
    positive: bool,
    x: i16,
)
    requires
        stats.len() == 1536,
        all_exact(stats, law),
        0 <= interval < 6,
        0 <= ucode < 128,
        x == spec_signed(ucode, positive, law),
        stat_of(stats, interval, ucode, positive).valid(),
    ensures
        ({
            let n = place(interval, ucode, positive);
            all_exact(stats.update(n, stats[n].with(x)), law)
        }),
{
    let n = place(interval, ucode, positive);
    let after = stats.update(n, stats[n].with(x));
    let own = stat_of(stats, interval, ucode, positive);
    assert(is_exact(own, ucode, positive, law));
    let (c, l) = (own.count as int, spec_linear(ucode, law));
    let s = spec_signed(ucode, positive, law);
    assert(x * x == l * l) by (nonlinear_arith)
        requires
            x == l || x == -l,
    ;
    assert((c + 1) * s == c * s + s) by (nonlinear_arith);
    assert((c + 1) * (l * l) == c * (l * l) + l * l) by (nonlinear_arith);
    assert(0 <= x * x <= 0x4000_0000) by (nonlinear_arith)
        requires
            -32_768 <= x <= 32_767,
    ;
    assert forall|i: int, u: int, sign: bool| 0 <= i < 6 && 0 <= u < 128 implies is_exact(
        #[trigger] stat_of(after, i, u, sign),
        u,
        sign,
        law,
    ) by {
        assert(is_exact(stat_of(stats, i, u, sign), u, sign, law));
        if place(i, u, sign) == n {
            assert(i == interval && u == ucode && sign == positive);
        }
    }
}

proof fn lemma_exact_spread(stat: Stat, ucode: int, positive: bool, law: Law)
    requires
        is_exact(stat, ucode, positive, law),
    ensures
        stat.spec_spread() == 0,
{
    let (c, l) = (stat.count as int, spec_linear(ucode, law));
    let s = spec_signed(ucode, positive, law);
    assert((c * (l * l)) * c == (c * s) * (c * s)) by (nonlinear_arith)
        requires
            s == l || s == -l,
    ;
}

proof fn lemma_exact_level(negative: Stat, positive: Stat, ucode: int, law: Law)
    requires
        is_exact(negative, ucode, false, law),
        is_exact(positive, ucode, true, law),
        negative.count > 0,
        positive.count > 0,
    ensures
        level_between(negative, positive) == 0x1_0000 * spec_linear(ucode, law),
{
    let (a, b) = (positive.count as int, negative.count as int);
    let l = spec_linear(ucode, law);
    let d = a * b;
    assert(d > 0) by (nonlinear_arith)
        requires
            a > 0,
            b > 0,
            d == a * b,
    ;
    assert(positive.sum * negative.count - negative.sum * positive.count == 2 * l * d) by (nonlinear_arith)
        requires
            positive.sum == a * l,
            negative.sum == b * (-l),
            positive.count == a,
            negative.count == b,
            d == a * b,
    ;
    assert(32_768 * (2 * l * d) == (0x1_0000 * l) * d) by (nonlinear_arith);
    assert((0x1_0000 * l) * d / d == 0x1_0000 * l) by (nonlinear_arith)
        requires
            d > 0,
    ;
}

proof fn lemma_exact_spreads(stats: Seq<Stat>, law: Law, uchord: int, n: int)
    requires
        all_exact(stats, law),
        0 <= uchord < 8,
        0 <= n <= 96,
    ensures
        spreads(stats, uchord, n) == 0,
    decreases n,
{
    if n > 0 {
        lemma_exact_spreads(stats, law, uchord, n - 1);
        let (i, u) = within(uchord, n - 1);
        assert(0 <= i < 6 && 0 <= u < 128);
        lemma_exact_spread(stat_of(stats, i, u, false), u, false, law);
        lemma_exact_spread(stat_of(stats, i, u, true), u, true, law);
    }
}

/// A digital path that changes nothing shows table 1, and no noise.
pub proof fn law_a_path_that_changes_nothing_shows_table_1(
    stats: Seq<Stat>,
    law: Law,
    levels: Levels,
    interval: int,
    ucode: u8,
    uchord: int,
)
    requires
        all_exact(stats, law),
        shows(stats, law, levels),
        0 <= interval < 6,
        ucode < 128,
        0 <= uchord < 8,
    ensures
        levels.level(interval, ucode) == 0x1_0000 * spec_linear(ucode as int, law),
        levels.noise@[uchord] == 0,
{
    let u = ucode as int;
    assert(is_exact(stat_of(stats, interval, u, false), u, false, law));
    assert(is_exact(stat_of(stats, interval, u, true), u, true, law));
    assert(levels.level(interval, ucode) == level_shown(stats, interval, u, law));
    if counted(stats, interval, u) {
        lemma_exact_level(
            stat_of(stats, interval, u, false),
            stat_of(stats, interval, u, true),
            u,
            law,
        );
    }
    let noise = levels.noise@;
    assert forall|c: int| 0 <= c < 8 && #[trigger] is_heard(stats, c) implies noise[c] == 0 by {
        lemma_exact_spreads(stats, law, c, 96);
        let f = freedoms(stats, c, 96);
        assert(0int / f == 0) by (nonlinear_arith)
            requires
                f > 0,
        ;
        let r = noise[c] as int;
        assert(r == 0) by (nonlinear_arith)
            requires
                0 <= r,
                r * r <= 0,
        ;
    }
    if !is_heard(stats, uchord) {
        assert(is_worst(stats, noise, noise[uchord]));
    }
}

/// A sample adds itself to the sum, its square to the squares, and one to
/// the count.
pub proof fn law_each_sample_adds_up(stat: Stat, x: i16)
    requires
        stat.valid(),
        stat.count < 0x4000_0000,
    ensures
        stat.with(x).sum == stat.sum + x,
        stat.with(x).squares == stat.squares + x * x,
        stat.with(x).count == stat.count + 1,
        Stat::none().sum == 0 && Stat::none().squares == 0 && Stat::none().count == 0,
{
    assert(0 <= x * x <= 0x4000_0000) by (nonlinear_arith)
        requires
            -32_768 <= x <= 32_767,
    ;
}

/// The spread is what the squares are above the square of the mean, and none
/// where the samples are all alike.
pub proof fn law_the_spread_is_around_the_mean(stat: Stat)
    requires
        stat.count > 0,
    ensures
        ({
            let apart = stat.squares * stat.count - stat.sum * stat.sum;
            &&& apart <= 0 ==> stat.spec_spread() == 0
            &&& apart > 0 ==> stat.spec_spread() * stat.count <= 0x1_0000_0000 * apart < (stat.spec_spread() + 1)
                * stat.count
        }),
{
    let d = stat.count as int;
    let n = 0x1_0000_0000 * (stat.squares * stat.count - stat.sum * stat.sum);
    let q = n / d;
    vstd::arithmetic::div_mod::lemma_fundamental_div_mod(n, d);
    assert(q * d <= n < (q + 1) * d) by (nonlinear_arith)
        requires
            n == d * q + n % d,
            0 <= n % d < d,
    ;
}

/// A level is half the way from the mean of the negative samples to the mean
/// of the positive ones, where a Ucode has come with both signs, and that of
/// table 1 otherwise.
pub proof fn law_a_level_is_half_the_way(stats: Seq<Stat>, interval: int, ucode: int, law: Law)
    requires
        0 <= interval < 6,
        0 <= ucode < 128,
    ensures
        ({
            let negative = stats[256 * interval + 2 * ucode];
            let positive = stats[256 * interval + 2 * ucode + 1];
            let level = level_shown(stats, interval, ucode, law);
            let all = positive.count * negative.count;
            let apart = 32_768 * (positive.sum * negative.count - negative.sum * positive.count);
            &&& negative.count > 0 && positive.count > 0 ==> level * all <= apart < (level + 1) * all
            &&& negative.count == 0 || positive.count == 0 ==> level == 65_536 * spec_linear(ucode, law)
        }),
{
    let negative = stats[256 * interval + 2 * ucode];
    let positive = stats[256 * interval + 2 * ucode + 1];
    assert(stat_of(stats, interval, ucode, false) == negative && stat_of(stats, interval, ucode, true) == positive);
    if negative.count > 0 && positive.count > 0 {
        let d = positive.count * negative.count;
        let n = 32_768 * (positive.sum * negative.count - negative.sum * positive.count);
        assert(d > 0) by (nonlinear_arith)
            requires
                d == positive.count * negative.count,
                positive.count > 0,
                negative.count > 0,
        ;
        let q = n / d;
        vstd::arithmetic::div_mod::lemma_fundamental_div_mod(n, d);
        assert(q * d <= n < (q + 1) * d) by (nonlinear_arith)
            requires
                n == d * q + n % d,
                0 <= n % d < d,
        ;
    }
}

/// The variance of a Uchord is the spread of its 16 Ucodes in all six
/// intervals, each around its own mean, by the samples past the first of each
/// codeword.
pub proof fn law_the_noise_of_a_uchord(stats: Seq<Stat>, uchord: int, interval: int, i: int)
    requires
        0 <= uchord < 8,
        0 <= interval < 6,
        0 <= i < 16,
    ensures
        ({
            let k = 16 * interval + i;
            let ucode = 16 * uchord + i;
            let negative = stats[256 * interval + 2 * ucode];
            let positive = stats[256 * interval + 2 * ucode + 1];
            let both = negative.count > 0 && positive.count > 0;
            &&& spreads(stats, uchord, 0) == 0 && freedoms(stats, uchord, 0) == 0
            &&& both ==> spreads(stats, uchord, k + 1) - spreads(stats, uchord, k) == negative.spec_spread()
                + positive.spec_spread()
            &&& both ==> freedoms(stats, uchord, k + 1) - freedoms(stats, uchord, k) == negative.count - 1
                + positive.count - 1
            &&& !both ==> spreads(stats, uchord, k + 1) == spreads(stats, uchord, k) && freedoms(stats, uchord, k + 1)
                == freedoms(stats, uchord, k)
            &&& is_heard(stats, uchord) <==> freedoms(stats, uchord, 96) > 0
            &&& freedoms(stats, uchord, 96) > 0 ==> variance(stats, uchord) * freedoms(stats, uchord, 96) <= spreads(
                stats,
                uchord,
                96,
            ) < (variance(stats, uchord) + 1) * freedoms(stats, uchord, 96)
        }),
{
    let k = 16 * interval + i;
    assert(k / 16 == interval && k % 16 == i);
    assert(within(uchord, k) == (interval, 16 * uchord + i));
    let d = freedoms(stats, uchord, 96);
    if d > 0 {
        let n = spreads(stats, uchord, 96);
        let q = n / d;
        vstd::arithmetic::div_mod::lemma_fundamental_div_mod(n, d);
        assert(q * d <= n < (q + 1) * d) by (nonlinear_arith)
            requires
                n == d * q + n % d,
                0 <= n % d < d,
        ;
    }
}

/// The noise of a Uchord is the root of its variance, to the whole below. One
/// that was not heard counts as noisy as the worst of those that were.
pub proof fn law_unheard_uchords_count_as_the_worst(stats: Seq<Stat>, noise: Seq<i64>, heard: int, other: int)
    requires
        noise_shown(stats, noise),
        0 <= heard < 8,
        0 <= other < 8,
        is_heard(stats, heard),
    ensures
        noise[heard] >= 0,
        noise[heard] * noise[heard] <= variance(stats, heard) < (noise[heard] + 1) * (noise[heard] + 1),
        !is_heard(stats, other) ==> noise[other] >= noise[heard],
        !is_heard(stats, other) ==> noise[other] == 0 || exists|c: int|
            0 <= c < 8 && #[trigger] is_heard(stats, c) && noise[c] == noise[other],
{
    assert(is_root(noise[heard] as int, variance(stats, heard)));
    if !is_heard(stats, other) {
        assert(is_worst(stats, noise, noise[other]));
    }
}

} // verus!

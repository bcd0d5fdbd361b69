//! The data mode framing of § 8 and the mapping parameters of § 9.2, for a
//! symbol rate and a data rate.

use crate::v34::SymbolRate;
use vstd::arithmetic::power2::{lemma_pow2_strictly_increases, pow2};
use vstd::prelude::*;

verus! {

/// The mapping of one data rate at one symbol rate.
#[derive(Debug, Clone, Copy, PartialEq, Eq, Structural)]
pub struct Framing {
    pub symbol_rate: SymbolRate,
    /// In bit/s, a multiple of 2400.
    pub bit_rate: u32,
    /// Data frames in a superframe.
    pub j: usize,
    /// Mapping frames in a data frame.
    pub p: usize,
    /// Bits in a high mapping frame; a low one carries b − 1.
    pub b: usize,
    /// High mapping frames in a data frame.
    pub r: usize,
    /// Bits for the shell mapper.
    pub k: usize,
    /// Bits for each 2D symbol besides the ring.
    pub q: usize,
    /// Rings, M of table 10.
    pub rings: u8,
    /// Points in the 2D constellation, L of table 10.
    pub points: usize,
}

/// The lowest and highest data rates of table 8 at a symbol rate.
pub open spec fn spec_rates(symbol_rate: SymbolRate) -> (u32, u32) {
    match symbol_rate {
        SymbolRate::S2400 => (2400, 21_600),
        SymbolRate::S2743 | SymbolRate::S2800 => (4800, 26_400),
        SymbolRate::S3000 => (4800, 28_800),
        SymbolRate::S3200 => (4800, 31_200),
        SymbolRate::S3429 => (4800, 33_600),
    }
}

/// Whether table 8 has the data rate at the symbol rate.
pub open spec fn in_table_8(symbol_rate: SymbolRate, bit_rate: u32) -> bool {
    bit_rate % 2400 == 0 && spec_rates(symbol_rate).0 <= bit_rate <= spec_rates(symbol_rate).1
}

/// J and P of table 7.
pub open spec fn spec_frames(symbol_rate: SymbolRate) -> (usize, usize) {
    match symbol_rate {
        SymbolRate::S2400 => (7, 12),
        SymbolRate::S2743 => (8, 12),
        SymbolRate::S2800 => (7, 14),
        SymbolRate::S3000 => (7, 15),
        SymbolRate::S3200 => (7, 16),
        SymbolRate::S3429 => (8, 15),
    }
}

pub open spec fn eighth(x: int) -> int {
    (x * x * (x * x)) * (x * x * (x * x))
}

/// `m` is the least number of rings whose M⁸ values hold `k` bits.
pub open spec fn is_minimum(k: nat, m: int) -> bool {
    m >= 1 && eighth(m) >= pow2(k) && eighth(m - 1) < pow2(k)
}

/// `m` is 1.25 · 2^(k/8), rounded to the nearest, a half up: between m − ½
/// and m + ½, in eighth powers and quarters.
pub open spec fn is_a_quarter_more(k: nat, m: int) -> bool {
    m >= 1 && eighth(4 * m - 2) <= 390_625 * pow2(k) < eighth(4 * m + 2)
}

/// M of table 10: the minimum, or expanded a quarter more than 2^(k/8), and
/// never below the minimum.
pub open spec fn is_ring_count(k: nat, expanded: bool, m: int) -> bool {
    if expanded {
        exists|minimum: int, larger: int|
            #[trigger] is_minimum(k, minimum) && #[trigger] is_a_quarter_more(k, larger) && m == if larger
                > minimum {
                larger
            } else {
                minimum
            }
    } else {
        is_minimum(k, m)
    }
}

impl Framing {
    /// Bits in a data frame, N of § 8.1.
    pub open spec fn n(self) -> int {
        (self.b - 1) * self.p + self.r
    }

    /// The framing of tables 7 to 10 for a data rate that table 8 has.
    pub open spec fn frames(self, symbol_rate: SymbolRate, bit_rate: u32, expanded: bool) -> bool {
        &&& self.shares(symbol_rate, bit_rate, expanded)
        &&& self.points == 4 * self.rings * pow2(self.q as nat)
    }

    /// All of the framing but its number of points.
    pub open spec fn shares(self, symbol_rate: SymbolRate, bit_rate: u32, expanded: bool) -> bool {
        &&& self.symbol_rate == symbol_rate
        &&& self.bit_rate == bit_rate
        &&& in_table_8(symbol_rate, bit_rate)
        &&& (self.j, self.p) == spec_frames(symbol_rate)
        &&& 1 <= self.r <= self.p
        &&& self.n() * self.j * 100 == bit_rate * 28
        &&& if self.b <= 12 {
            self.k == 0 && self.q == 0
        } else {
            // As few bits beside the ring as leave at most 31 for the rings.
            self.b == 12 + self.k + 8 * self.q && self.k <= 31 && (self.q > 0 ==> self.k + 8 > 31)
        }
        &&& is_ring_count(self.k as nat, expanded, self.rings as int)
    }

    /// One of the framings of tables 7 to 10.
    pub open spec fn valid(self) -> bool {
        self.frames(self.symbol_rate, self.bit_rate, false) || self.frames(
            self.symbol_rate,
            self.bit_rate,
            true,
        )
    }

    pub open spec fn spec_high(self, frame: int) -> bool {
        (frame + 1) * self.r / self.p as int > frame * self.r / self.p as int
    }

    /// How many bits mapping frame `frame` of a data frame carries.
    pub open spec fn frame_bits(self, frame: int) -> int {
        if self.spec_high(frame) {
            self.b as int
        } else {
            self.b - 1
        }
    }

    /// How many bits the first `frames` mapping frames carry.
    pub open spec fn bits_before(self, frames: int) -> int
        decreases frames,
    {
        if frames <= 0 {
            0
        } else {
            self.bits_before(frames - 1) + self.frame_bits(frames - 1)
        }
    }

    /// How many of the first `frames` mapping frames are high ones.
    pub open spec fn high_before(self, frames: int) -> int
        decreases frames,
    {
        if frames <= 0 {
            0
        } else {
            self.high_before(frames - 1) + if self.spec_high(frames - 1) {
                1int
            } else {
                0
            }
        }
    }

    /// The first `frames` mapping frames as binary digits, a one for a high
    /// one, the first leftmost.
    pub open spec fn swp_before(self, frames: int) -> nat
        decreases frames,
    {
        if frames <= 0 {
            0
        } else {
            2 * self.swp_before(frames - 1) + if self.spec_high(frames - 1) {
                1nat
            } else {
                0nat
            }
        }
    }
}

proof fn lemma_eighth_monotone(x: int, y: int)
    requires
        0 <= x <= y,
    ensures
        0 <= eighth(x) <= eighth(y),
{
    let a = x * x;
    let b = y * y;
    assert(0 <= a <= b) by (nonlinear_arith)
        requires
            0 <= x <= y,
            a == x * x,
            b == y * y,
    ;
    let c = a * a;
    let d = b * b;
    assert(0 <= c <= d) by (nonlinear_arith)
        requires
            0 <= a <= b,
            c == a * a,
            d == b * b,
    ;
    assert(0 <= c * c <= d * d) by (nonlinear_arith)
        requires
            0 <= c <= d,
    ;
}

proof fn lemma_pow2_bounds(k: nat, top: nat)
    requires
        k <= top,
    ensures
        1 <= pow2(k) <= pow2(top),
{
    vstd::arithmetic::power2::lemma_pow2_pos(k);
    if k < top {
        lemma_pow2_strictly_increases(k, top);
    }
}

proof fn lemma_eighth_values()
    ensures
        eighth(0) == 0,
        eighth(1) == 1,
        eighth(2) == 256,
        eighth(13) == 815_730_721,
        eighth(18) == 11_019_960_576,
        eighth(54) == 72_301_961_339_136,
        eighth(74) == 899_194_740_203_776,
{
    assert(eighth(2) == 256) by (nonlinear_arith);
    assert(eighth(13) == 815_730_721) by (nonlinear_arith);
    assert(eighth(18) == 11_019_960_576) by (nonlinear_arith);
    assert(eighth(54) == 72_301_961_339_136) by (nonlinear_arith);
    assert(eighth(74) == 899_194_740_203_776) by (nonlinear_arith);
}

/// There is one number of rings for each `k`.
proof fn lemma_ring_count_unique(k: nat, expanded: bool, m: int, n: int)
    requires
        is_ring_count(k, expanded, m),
        is_ring_count(k, expanded, n),
    ensures
        m == n,
{
    assert forall|x: int, y: int| #[trigger] is_minimum(k, x) && #[trigger] is_minimum(k, y) implies x == y by {
        if x < y {
            lemma_eighth_monotone(x, y - 1);
        } else if y < x {
            lemma_eighth_monotone(y, x - 1);
        }
    }
    assert forall|x: int, y: int| #[trigger]
        is_a_quarter_more(k, x) && #[trigger] is_a_quarter_more(k, y) implies x == y by {
        if x < y {
            lemma_eighth_monotone(4 * x + 2, 4 * y - 2);
        } else if y < x {
            lemma_eighth_monotone(4 * y + 2, 4 * x - 2);
        }
    }
}

/// The rings of `k` bits stay within 18, and within 13 up to 27 bits.
proof fn lemma_ring_count_bounds(k: nat, expanded: bool, m: int)
    requires
        is_ring_count(k, expanded, m),
        k <= 31,
    ensures
        1 <= m <= 18,
        k <= 27 ==> m <= 13,
        pow2(k) <= eighth(m),
{
    vstd::arithmetic::power2::lemma2_to64();
    lemma_eighth_values();
    lemma_pow2_bounds(k, 31);
    if k <= 27 {
        lemma_pow2_bounds(k, 27);
    }
    assert forall|x: int| #[trigger] is_minimum(k, x) implies x <= 18 && (k <= 27 ==> x <= 13) by {
        if x > 18 {
            lemma_eighth_monotone(18, x - 1);
        } else if x > 13 {
            lemma_eighth_monotone(13, x - 1);
        }
    }
    assert forall|x: int| #[trigger] is_a_quarter_more(k, x) implies x <= 18 && (k <= 27 ==> x
        <= 13) by {
        if x > 18 {
            lemma_eighth_monotone(74, 4 * x - 2);
        } else if x > 13 {
            lemma_eighth_monotone(54, 4 * x - 2);
        }
    }
    if expanded {
        let (minimum, larger) = choose|minimum: int, larger: int|
            #[trigger] is_minimum(k, minimum) && #[trigger] is_a_quarter_more(k, larger) && m == if larger
                > minimum {
                larger
            } else {
                minimum
            };
        lemma_eighth_monotone(minimum, m);
    }
}

proof fn lemma_sizes(framing: Framing, expanded: bool)
    requires
        framing.shares(framing.symbol_rate, framing.bit_rate, expanded),
    ensures
        7 <= framing.j <= 8,
        12 <= framing.p <= 16,
        8 <= framing.b <= 79,
        framing.k <= 31,
        framing.b > 12 ==> framing.k >= 1,
        framing.b == 8 ==> framing.r == framing.p,
        framing.q <= 5,
        1 <= framing.rings <= 18,
        framing.rings * pow2(framing.q as nat) <= 416,
        4 * framing.rings * pow2(framing.q as nat) <= 1664,
        pow2(framing.k as nat) <= eighth(framing.rings as int),
{
    vstd::arithmetic::power2::lemma2_to64();
    let j = framing.j as int;
    let p = framing.p as int;
    let b = framing.b as int;
    let n = framing.n();
    assert(j == 7 ==> n * j * 100 == 700 * n) by (nonlinear_arith);
    assert(j == 8 ==> n * j * 100 == 800 * n) by (nonlinear_arith);
    let units = framing.bit_rate / 2400;
    assert(framing.bit_rate == 2400 * units);
    assert(j == 7 ==> n == 96 * units);
    assert(j == 8 ==> n == 84 * units);
    let c = b - 1;
    assert(p == 12 ==> c * p == 12 * c) by (nonlinear_arith);
    assert(p == 14 ==> c * p == 14 * c) by (nonlinear_arith);
    assert(p == 15 ==> c * p == 15 * c) by (nonlinear_arith);
    assert(p == 16 ==> c * p == 16 * c) by (nonlinear_arith);
    lemma_ring_count_bounds(framing.k as nat, expanded, framing.rings as int);
    let rings = framing.rings as int;
    let q = framing.q as nat;
    let power = pow2(q) as int;
    if q == 5 {
        assert(rings * power <= 13 * 32) by (nonlinear_arith)
            requires
                0 <= rings <= 13,
                power == 32,
        ;
    } else {
        lemma_pow2_bounds(q, 4);
        assert(rings * power <= 18 * 16) by (nonlinear_arith)
            requires
                0 <= rings <= 18,
                0 <= power <= 16,
        ;
    }
    assert(4 * rings * power == 4 * (rings * power)) by (nonlinear_arith);
}

/// The sizes of every framing, and that its points are within the 1664 of
/// figure 5.
pub proof fn law_framings_fit(framing: Framing)
    requires
        framing.valid(),
    ensures
        7 <= framing.j <= 8,
        12 <= framing.p <= 16,
        8 <= framing.b <= 79,
        framing.k <= 31,
        framing.b > 12 ==> framing.k >= 1,
        framing.b == 8 ==> framing.r == framing.p,
        framing.q <= 5,
        1 <= framing.rings <= 18,
        framing.rings * pow2(framing.q as nat) <= 416,
        framing.points <= 1664,
        pow2(framing.k as nat) <= eighth(framing.rings as int),
{
    if framing.frames(framing.symbol_rate, framing.bit_rate, false) {
        lemma_sizes(framing, false);
    } else {
        lemma_sizes(framing, true);
    }
}

/// Tables 7 to 10 give one framing for each rate and shaping.
pub proof fn law_one_framing_for_each_rate(framing: Framing, other: Framing, expanded: bool)
    requires
        framing.frames(framing.symbol_rate, framing.bit_rate, expanded),
        other.frames(framing.symbol_rate, framing.bit_rate, expanded),
    ensures
        framing == other,
{
    let j = framing.j as int;
    let p = framing.p as int;
    let n = framing.n();
    let m = other.n();
    assert(n == m) by (nonlinear_arith)
        requires
            n * j * 100 == m * j * 100,
            j >= 7,
    ;
    let x = framing.b - 1;
    let y = other.b - 1;
    assert(x == y) by (nonlinear_arith)
        requires
            x * p + framing.r == y * p + other.r,
            1 <= framing.r <= p,
            1 <= other.r <= p,
    ;
    lemma_ring_count_unique(framing.k as nat, expanded, framing.rings as int, other.rings as int);
}

proof fn lemma_high_frames(framing: Framing, frames: int)
    requires
        framing.p > 0,
        0 <= framing.r <= framing.p,
        0 <= frames,
    ensures
        framing.high_before(frames) == frames * framing.r / framing.p as int,
        framing.bits_before(frames) == (framing.b - 1) * frames + framing.high_before(frames),
    decreases frames,
{
    let r = framing.r as int;
    let p = framing.p as int;
    let c = framing.b - 1;
    if frames == 0 {
        assert(c * 0 == 0 && 0 * r == 0);
        assert(0int / p == 0) by (nonlinear_arith)
            requires
                p > 0,
        ;
    } else {
        let f = frames - 1;
        lemma_high_frames(framing, f);
        let low = f * r;
        assert(frames * r == low + r) by (nonlinear_arith)
            requires
                low == f * r,
                frames == f + 1,
        ;
        assert(c * frames == c * f + c) by (nonlinear_arith)
            requires
                frames == f + 1,
        ;
        vstd::arithmetic::div_mod::lemma_fundamental_div_mod(low, p);
        vstd::arithmetic::div_mod::lemma_fundamental_div_mod(low + r, p);
        let x = low / p;
        let y = (low + r) / p;
        assert(x <= y <= x + 1) by (nonlinear_arith)
            requires
                low == p * x + low % p,
                low + r == p * y + (low + r) % p,
                0 <= low % p < p,
                0 <= (low + r) % p < p,
                0 <= r <= p,
                p > 0,
        ;
    }
}

/// The high frames of a data frame are spread evenly over it, and it has r of
/// them.
pub proof fn law_a_data_frame_has_r_high_frames(framing: Framing, frames: int)
    requires
        framing.valid(),
        0 <= frames <= framing.p,
    ensures
        framing.high_before(frames) == frames * framing.r / framing.p as int,
        framing.high_before(framing.p as int) == framing.r,
{
    law_framings_fit(framing);
    lemma_high_frames(framing, frames);
    lemma_high_frames(framing, framing.p as int);
    vstd::arithmetic::div_mod::lemma_div_multiples_vanish(framing.r as int, framing.p as int);
}

/// A data frame carries N bits, which make up the data rate over J data
/// frames in 280 ms.
pub proof fn law_carries_n_bits_in_each_data_frame(framing: Framing)
    requires
        framing.valid(),
    ensures
        framing.bits_before(framing.p as int) == framing.n(),
        framing.bits_before(framing.p as int) * framing.j * 100 == framing.bit_rate * 28,
{
    law_framings_fit(framing);
    lemma_high_frames(framing, framing.p as int);
    let p = framing.p as int;
    let r = framing.r as int;
    assert(p * r / p == r) by {
        vstd::arithmetic::div_mod::lemma_div_multiples_vanish(r, p);
    }
}

/// The last mapping frame of a data frame is always a high one.
pub proof fn law_ends_data_frames_high(framing: Framing)
    requires
        framing.valid(),
    ensures
        framing.spec_high(framing.p - 1),
{
    law_framings_fit(framing);
    let p = framing.p as int;
    let r = framing.r as int;
    assert(p * r / p == r) by {
        vstd::arithmetic::div_mod::lemma_div_multiples_vanish(r, p);
    }
    let low = (p - 1) * r;
    vstd::arithmetic::div_mod::lemma_fundamental_div_mod(low, p);
    let x = low / p;
    assert(x < r) by (nonlinear_arith)
        requires
            low == (p - 1) * r,
            low == p * x + low % p,
            0 <= low % p < p,
            1 <= r,
            p > 0,
    ;
}

/// The lowest and highest data rates of table 8 at a symbol rate.
fn rates(symbol_rate: SymbolRate) -> (rates: (u32, u32))
    ensures
        rates == spec_rates(symbol_rate),
{
    match symbol_rate {
        SymbolRate::S2400 => (2400, 21_600),
        SymbolRate::S2743 | SymbolRate::S2800 => (4800, 26_400),
        SymbolRate::S3000 => (4800, 28_800),
        SymbolRate::S3200 => (4800, 31_200),
        SymbolRate::S3429 => (4800, 33_600),
    }
}

fn eighth_power(x: u64) -> (power: u64)
    requires
        x <= 74,
    ensures
        power == eighth(x as int),
{
    proof {
        lemma_eighth_values();
        lemma_eighth_monotone(x as int, 74);
        assert(x * x <= 5476) by (nonlinear_arith)
            requires
                x <= 74,
        ;
        let s = x * x;
        assert(s * s <= 29_986_576) by (nonlinear_arith)
            requires
                0 <= s <= 5476,
        ;
    }
    let square: u64 = x * x;
    let fourth: u64 = square * square;
    fourth * fourth
}

fn power_of_two(k: usize) -> (power: u64)
    requires
        k <= 31,
    ensures
        power == pow2(k as nat),
{
    proof {
        vstd::arithmetic::power2::lemma2_to64();
    }
    let mut power: u64 = 1;
    let mut n: usize = 0;
    while n < k
        invariant
            n <= k <= 31,
            power == pow2(n as nat),
        decreases k - n,
    {
        proof {
            vstd::arithmetic::power2::lemma2_to64();
            lemma_pow2_bounds(n as nat, 31);
            vstd::arithmetic::power2::lemma_pow2_unfold((n + 1) as nat);
        }
        power = 2 * power;
        n += 1;
    }
    power
}

/// The minimum and the expanded number of rings for `k` bits. Table 10
/// rounds 2.5, at K = 8, up.
fn ring_counts(k: usize) -> (counts: (u8, u8))
    requires
        k <= 31,
    ensures
        is_ring_count(k as nat, false, counts.0 as int),
        is_ring_count(k as nat, true, counts.1 as int),
{
    let power = power_of_two(k);
    proof {
        vstd::arithmetic::power2::lemma2_to64();
        lemma_eighth_values();
        lemma_pow2_bounds(k as nat, 31);
    }
    let mut minimum: u8 = 1;
    while minimum < 18 && eighth_power(minimum as u64) < power
        invariant
            power == pow2(k as nat),
            1 <= power <= 0x8000_0000,
            1 <= minimum <= 18,
            eighth(minimum - 1) < power,
        decreases 18 - minimum,
    {
        minimum += 1;
    }
    let mut larger: u8 = 1;
    while larger < 18 && eighth_power(4 * larger as u64 + 2) <= 390_625 * power
        invariant
            power == pow2(k as nat),
            1 <= power <= 0x8000_0000,
            1 <= larger <= 18,
            eighth(4 * larger - 2) <= 390_625 * power,
        decreases 18 - larger,
    {
        larger += 1;
    }
    assert(is_minimum(k as nat, minimum as int));
    assert(is_a_quarter_more(k as nat, larger as int));
    let expanded = if larger > minimum {
        larger
    } else {
        minimum
    };
    (minimum, expanded)
}

impl Framing {
    /// With the minimum or the expanded number of rings, if table 8 has the
    /// data rate at the symbol rate.
    #[must_use]
    #[verifier::spinoff_prover]
    #[verifier::rlimit(40)]
    pub fn new(symbol_rate: SymbolRate, bit_rate: u32, expanded: bool) -> (framing: Option<Self>)
        ensures
            match framing {
                Some(framing) => framing.frames(symbol_rate, bit_rate, expanded),
                None => !in_table_8(symbol_rate, bit_rate),
            },
    {
        let (low, high) = rates(symbol_rate);
        if bit_rate % 2400 != 0 || bit_rate < low || bit_rate > high {
            return None;
        }
        let (j, p): (usize, usize) = match symbol_rate {
            SymbolRate::S2400 => (7, 12),
            SymbolRate::S2743 => (8, 12),
            SymbolRate::S2800 => (7, 14),
            SymbolRate::S3000 => (7, 15),
            SymbolRate::S3200 => (7, 16),
            SymbolRate::S3429 => (8, 15),
        };
        let n: usize = bit_rate as usize * 28 / 100 / j;
        proof {
            let units = bit_rate / 2400;
            assert(bit_rate == 2400 * units);
            assert(bit_rate * 28 / 100 == 672 * units);
            assert(j == 7 ==> n == 96 * units);
            assert(j == 8 ==> n == 84 * units);
            assert(n * j * 100 == 100 * (j * n)) by (nonlinear_arith);
            assert(j == 7 ==> j * n == 7 * n);
            assert(j == 8 ==> j * n == 8 * n);
        }
        let b: usize = (n + p - 1) / p;
        proof {
            let above = (n + p - 1) as int;
            vstd::arithmetic::div_mod::lemma_fundamental_div_mod(above, p as int);
            assert((b - 1) * p == p * b - p) by (nonlinear_arith);
            assert(0 <= (b - 1) * p < n <= (b - 1) * p + p);
            assert(b >= 1) by (nonlinear_arith)
                requires
                    p * b + above % (p as int) == above,
                    above % (p as int) < p,
                    above >= p,
            ;
            assert(b <= n + p) by (nonlinear_arith)
                requires
                    p * b <= n + p,
                    p >= 1,
            ;
        }
        let r: usize = n - (b - 1) * p;
        let (k, q): (usize, usize) = if b <= 12 {
            (0, 0)
        } else if b <= 43 {
            (b - 12, 0)
        } else {
            let q: usize = (b - 43 + 7) / 8;
            (b - 12 - 8 * q, q)
        };
        let (minimum, larger) = ring_counts(k);
        let rings = if expanded {
            larger
        } else {
            minimum
        };
        let ghost fields = Self { symbol_rate, bit_rate, j, p, b, r, k, q, rings, points: 0 };
        proof {
            assert(fields.n() == n);
            lemma_sizes(fields, expanded);
            vstd::arithmetic::power2::lemma2_to64();
            lemma_pow2_bounds(q as nat, 5);
            let power = pow2(q as nat) as int;
            assert(4 * rings * power == 4 * (rings * power)) by (nonlinear_arith);
        }
        let points = 4 * rings as usize * power_of_two(q) as usize;
        Some(Self { symbol_rate, bit_rate, j, p, b, r, k, q, rings, points })
    }

    /// Whether mapping frame `frame` of a data frame is a high one, by the
    /// counter of § 8.2.
    #[must_use]
    pub fn high(&self, frame: usize) -> (high: bool)
        requires
            self.p > 0,
            (frame + 1) * self.r <= usize::MAX,
        ensures
            high == self.spec_high(frame as int),
    {
        assert(frame * self.r <= (frame + 1) * self.r) by (nonlinear_arith)
            requires
                self.r >= 0,
        ;
        assert(frame < usize::MAX || self.r == 0) by (nonlinear_arith)
            requires
                (frame + 1) * self.r <= usize::MAX,
        ;
        if self.r == 0 {
            assert((frame + 1) * 0 == 0 && frame * 0 == 0);
            return false;
        }
        (frame + 1) * self.r / self.p > frame * self.r / self.p
    }

    /// SWP as table 8 writes it, the first mapping frame leftmost.
    #[must_use]
    pub fn swp(&self) -> (swp: u16)
        requires
            self.valid(),
        ensures
            swp == self.swp_before(self.p as int),
    {
        proof {
            law_framings_fit(*self);
            vstd::arithmetic::power2::lemma2_to64();
        }
        let mut swp: u16 = 0;
        let mut frame: usize = 0;
        while frame < self.p
            invariant
                frame <= self.p <= 16,
                self.r <= self.p,
                swp == self.swp_before(frame as int),
                swp < pow2(frame as nat),
            decreases self.p - frame,
        {
            proof {
                let f = frame as int;
                let r = self.r as int;
                assert((f + 1) * r <= 17 * 16) by (nonlinear_arith)
                    requires
                        0 <= f < 16,
                        0 <= r <= 16,
                ;
                vstd::arithmetic::power2::lemma2_to64();
                vstd::arithmetic::power2::lemma_pow2_unfold((frame + 1) as nat);
                lemma_pow2_bounds((frame + 1) as nat, 16);
            }
            swp = 2 * swp + if self.high(frame) {
                1
            } else {
                0
            };
            frame += 1;
        }
        swp
    }

    /// The scale of the precoder's modulo, 2w of § 9.6.2.
    #[must_use]
    pub fn precoder_modulo(&self) -> (modulo: i64)
        ensures
            modulo == if self.b < 56 {
                2int
            } else {
                4int
            },
    {
        if self.b < 56 {
            2
        } else {
            4
        }
    }
}

/// Tables 7, 8 and 10, in numbers: the data rates of each symbol rate, the
/// data frames of 280 ms and their mapping frames, the bits of a data frame
/// with its high mapping frames, the bits of the shell mapper, and the least
/// M with M⁸ ≥ 2^k, or M a quarter above 2^(k/8).
pub proof fn law_tables_7_to_10(framing: Framing, symbol_rate: SymbolRate, bit_rate: u32, expanded: bool)
    requires
        framing.frames(symbol_rate, bit_rate, expanded),
    ensures
        framing.symbol_rate == symbol_rate && framing.bit_rate == bit_rate,
        bit_rate % 2400 == 0,
        symbol_rate == SymbolRate::S2400 ==> 2400 <= bit_rate <= 21_600 && framing.j == 7 && framing.p == 12,
        symbol_rate == SymbolRate::S2743 ==> 4800 <= bit_rate <= 26_400 && framing.j == 8 && framing.p == 12,
        symbol_rate == SymbolRate::S2800 ==> 4800 <= bit_rate <= 26_400 && framing.j == 7 && framing.p == 14,
        symbol_rate == SymbolRate::S3000 ==> 4800 <= bit_rate <= 28_800 && framing.j == 7 && framing.p == 15,
        symbol_rate == SymbolRate::S3200 ==> 4800 <= bit_rate <= 31_200 && framing.j == 7 && framing.p == 16,
        symbol_rate == SymbolRate::S3429 ==> 4800 <= bit_rate <= 33_600 && framing.j == 8 && framing.p == 15,
        1 <= framing.r <= framing.p,
        ((framing.b - 1) * framing.p + framing.r) * framing.j * 100 == bit_rate * 28,
        framing.b <= 12 ==> framing.k == 0 && framing.q == 0,
        12 < framing.b <= 43 ==> framing.k == framing.b - 12 && framing.q == 0,
        framing.b > 43 ==> 24 <= framing.k <= 31 && framing.k + 8 * framing.q == framing.b - 12,
        framing.points == 4 * framing.rings * pow2(framing.q as nat),
        vstd::arithmetic::power::pow(framing.rings as int, 8) >= pow2(framing.k as nat),
        !expanded ==> vstd::arithmetic::power::pow(framing.rings - 1, 8) < pow2(framing.k as nat),
        expanded ==> 390_625 * pow2(framing.k as nat) < vstd::arithmetic::power::pow(4 * framing.rings + 2, 8),
        expanded ==> vstd::arithmetic::power::pow(framing.rings - 1, 8) < pow2(framing.k as nat)
            || vstd::arithmetic::power::pow(4 * framing.rings - 2, 8) <= 390_625 * pow2(framing.k as nat),
{
    lemma_sizes(framing, expanded);
    let m = framing.rings as int;
    crate::v34::shell::lemma_eighth_power(m);
    crate::v34::shell::lemma_eighth_power(m - 1);
    crate::v34::shell::lemma_eighth_power(4 * m + 2);
    crate::v34::shell::lemma_eighth_power(4 * m - 2);
    if expanded {
        let (minimum, larger) = choose|minimum: int, larger: int|
            #[trigger] is_minimum(framing.k as nat, minimum) && #[trigger] is_a_quarter_more(
                framing.k as nat,
                larger,
            ) && m == if larger > minimum {
                larger
            } else {
                minimum
            };
        lemma_eighth_monotone(minimum, m);
        lemma_eighth_monotone(4 * larger + 2, 4 * m + 2);
    }
}

/// Mapping frame i is a high one, with b bits, where i + 1 times r passes a
/// multiple of P that i times r had not reached, so r of every P are.
pub proof fn law_high_frames_stand_apart(framing: Framing, frame: int, multiple: int)
    requires
        framing.p > 0,
        framing.r <= framing.p,
        frame >= 0,
        multiple * framing.p <= (frame + 1) * framing.r < (multiple + 1) * framing.p,
    ensures
        framing.spec_high(frame) <==> frame * framing.r < multiple * framing.p,
        framing.frame_bits(frame) == framing.b - if frame * framing.r < multiple * framing.p {
            0int
        } else {
            1int
        },
{
    let p = framing.p as int;
    let r = framing.r as int;
    let (a, b) = ((frame + 1) * r, frame * r);
    assert(a == b + r) by (nonlinear_arith)
        requires
            a == (frame + 1) * r,
            b == frame * r,
    ;
    let under = multiple - 1;
    assert(under * p == multiple * p - p && (multiple + 1) * p == multiple * p + p) by (nonlinear_arith)
        requires
            under == multiple - 1,
    ;
    vstd::arithmetic::div_mod::lemma_fundamental_div_mod_converse(a, p, multiple, a - multiple * p);
    if b < multiple * p {
        vstd::arithmetic::div_mod::lemma_fundamental_div_mod_converse(b, p, under, b - under * p);
    } else {
        vstd::arithmetic::div_mod::lemma_fundamental_div_mod_converse(b, p, multiple, b - multiple * p);
    }
}

} // verus!

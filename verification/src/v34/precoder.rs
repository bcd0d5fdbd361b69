//! The precoder of § 9.6.2, for the transmitter.

use crate::v34::constellation::Point;
use crate::v34::mp::Precoding;
use vstd::prelude::*;

verus! {

/// A complex multiple of 2⁻⁷.
pub type Fixed = (i64, i64);

/// How far x(n) may go for its sums to fit. § 9.6.2 keeps it within 255.
pub const FIXED_LIMIT: i64 = 0x100_0000_0000;

pub open spec fn magnitude(value: int) -> int {
    if value < 0 {
        -value
    } else {
        value
    }
}

/// `value / divisor` to the nearest, a half towards the smaller magnitude.
pub open spec fn rounded(value: int, divisor: int) -> int {
    let quotient = (magnitude(value) + divisor / 2 - 1) / divisor;
    if value < 0 {
        -quotient
    } else {
        quotient
    }
}

/// Rounding leaves at most half a divisor, keeps the sign, and gives a half
/// to the smaller magnitude.
pub proof fn law_rounds_halves_towards_the_smaller_magnitude(value: int, divisor: int)
    requires
        divisor >= 2,
        divisor % 2 == 0,
    ensures
        2 * magnitude(value - rounded(value, divisor) * divisor) <= divisor,
        2 * magnitude(value - rounded(value, divisor) * divisor) == divisor ==> magnitude(
            rounded(value, divisor) * divisor,
        ) < magnitude(value),
        value >= 0 ==> rounded(value, divisor) >= 0,
        value <= 0 ==> rounded(value, divisor) <= 0,
        magnitude(rounded(value, divisor)) <= magnitude(value),
{
    let a = magnitude(value);
    let above = a + divisor / 2 - 1;
    let m = above / divisor;
    vstd::arithmetic::div_mod::lemma_fundamental_div_mod(above, divisor);
    assert(m * divisor == divisor * m) by (nonlinear_arith);
    assert((-m) * divisor == -(m * divisor)) by (nonlinear_arith);
    assert(m >= 0) by {
        vstd::arithmetic::div_mod::lemma_div_pos_is_pos(above, divisor);
    }
    assert(m * divisor >= 0) by (nonlinear_arith)
        requires
            m >= 0,
            divisor >= 2,
    ;
    assert(m * divisor >= m + m) by (nonlinear_arith)
        requires
            m >= 0,
            divisor >= 2,
    ;
    let less = m - 1;
    assert(less * divisor == m * divisor - divisor) by (nonlinear_arith)
        requires
            less == m - 1,
    ;
    assert(m <= a) by (nonlinear_arith)
        requires
            less * divisor <= a - 1,
            less == m - 1,
            a >= 0,
            divisor >= 2,
    ;
}

pub open spec fn fixed(value: Fixed) -> (int, int) {
    (value.0 as int, value.1 as int)
}

pub open spec fn complex_product(x: (int, int), h: (i16, i16)) -> (int, int) {
    (x.0 * h.0 - x.1 * h.1, x.0 * h.1 + x.1 * h.0)
}

/// The sum of x(n − i) h(i + 1), with 21 bits after the binary point.
pub open spec fn filtered(x: Seq<(int, int)>, h: Precoding) -> (int, int) {
    let a = complex_product(x[0], h[0]);
    let b = complex_product(x[1], h[1]);
    let c = complex_product(x[2], h[2]);
    (a.0 + b.0 + c.0, a.1 + b.1 + c.1)
}

/// p(n) after the three x(n) of `history`, newest first.
pub open spec fn p_after(history: Seq<(int, int)>, h: Precoding) -> (int, int) {
    (rounded(filtered(history, h).0, 16_384), rounded(filtered(history, h).1, 16_384))
}

/// c(n) after `history`.
pub open spec fn c_after(history: Seq<(int, int)>, h: Precoding, modulo: int) -> (int, int) {
    let p = p_after(history, h);
    (modulo_part(p.0, modulo), modulo_part(p.1, modulo))
}

/// x(n) for y(n) after `history`.
pub open spec fn x_after(history: Seq<(int, int)>, h: Precoding, y: (int, int)) -> (int, int) {
    let p = p_after(history, h);
    (128 * y.0 - p.0, 128 * y.1 - p.1)
}

/// The three newest x(n) once `x` has come.
pub open spec fn shifted(history: Seq<(int, int)>, x: (int, int)) -> Seq<(int, int)> {
    seq![x, history[0], history[1]]
}

pub open spec fn silence() -> Seq<(int, int)> {
    seq![(0int, 0int), (0int, 0int), (0int, 0int)]
}

/// c(n) for p(n): the nearest multiple of 2w, or 0 where it would not fit.
pub open spec fn modulo_part(p: int, modulo: int) -> int {
    let c = rounded(p, 128 * modulo) * modulo;
    if i32::MIN <= c <= i32::MAX {
        c
    } else {
        0
    }
}

/// § 9.6.2 rounds halves towards the smaller magnitude.
pub fn round_div(value: i64, divisor: i64) -> (quotient: i64)
    requires
        2 <= divisor,
        divisor % 2 == 0,
        magnitude(value as int) + divisor as int / 2 - 1 <= i64::MAX,
    ensures
        quotient == rounded(value as int, divisor as int),
{
    let absolute = if value < 0 {
        -value
    } else {
        value
    };
    proof {
        vstd::arithmetic::div_mod::lemma_div_pos_is_pos(
            absolute + divisor as int / 2 - 1,
            divisor as int,
        );
        law_rounds_halves_towards_the_smaller_magnitude(value as int, divisor as int);
    }
    let quotient: i64 = (absolute + (divisor / 2 - 1)) / divisor;
    if value < 0 {
        -quotient
    } else {
        quotient
    }
}

/// Works out c(n) and p(n) from the last three x(n), exactly as § 9.6.2.
#[derive(Debug, Clone, Copy)]
pub struct Precoder {
    coefficients: Precoding,
    modulo: i64,
    history: [Fixed; 3],
    c: Point,
    p: Fixed,
}

pub open spec fn within(x: (int, int), limit: int) -> bool {
    -limit <= x.0 <= limit && -limit <= x.1 <= limit
}

pub open spec fn all_within(x: Seq<(int, int)>, limit: int) -> bool {
    x.len() == 3 && within(x[0], limit) && within(x[1], limit) && within(x[2], limit)
}

impl Precoder {
    pub closed spec fn coefficients(self) -> Precoding {
        self.coefficients
    }

    /// 2w.
    pub closed spec fn modulo(self) -> int {
        self.modulo as int
    }

    /// The last three x(n), newest first.
    pub closed spec fn history(self) -> Seq<(int, int)> {
        seq![fixed(self.history@[0]), fixed(self.history@[1]), fixed(self.history@[2])]
    }

    /// Every x(n) is in bounds, and c(n) and p(n) come from them.
    pub closed spec fn valid(self) -> bool {
        &&& 0 < 128 * self.modulo <= i64::MAX
        &&& all_within(self.history(), FIXED_LIMIT as int)
        &&& fixed(self.p) == p_after(self.history(), self.coefficients)
        &&& (self.c.0 as int, self.c.1 as int) == c_after(
            self.history(),
            self.coefficients,
            self.modulo as int,
        )
    }

    /// Whether x(n) for y(n) is in bounds.
    pub open spec fn takes(self, y: (int, int)) -> bool {
        within(x_after(self.history(), self.coefficients(), y), FIXED_LIMIT as int)
    }

    /// With every x(n) before the first at 0. `modulo` is 2w: 2 or 4 in
    /// § 9.6.2, and any other step above 0 that fits in 2⁻⁷.
    #[must_use]
    pub fn new(coefficients: Precoding, modulo: i64) -> (precoder: Self)
        requires
            0 < 128 * modulo <= i64::MAX,
        ensures
            precoder.valid(),
            precoder.coefficients() == coefficients,
            precoder.modulo() == modulo,
            precoder.history() == silence(),
    {
        let precoder = Self {
            coefficients,
            modulo,
            history: [(0, 0), (0, 0), (0, 0)],
            c: (0, 0),
            p: (0, 0),
        };
        proof {
            assert(precoder.history() =~= silence());
            lemma_silence(coefficients);
            lemma_zero_rounds(16_384);
            lemma_zero_rounds(128 * modulo);
        }
        precoder
    }

    /// c(n), which makes the channel output y(n) = u(n) + c(n).
    #[must_use]
    pub fn c(&self) -> (c: Point)
        requires
            self.valid(),
        ensures
            (c.0 as int, c.1 as int) == c_after(
                self.history(),
                self.coefficients(),
                self.modulo(),
            ),
    {
        self.c
    }

    /// Takes y(n), and gives x(n) = y(n) − p(n) after working out c(n + 1)
    /// and p(n + 1) from it.
    pub fn push(&mut self, y: Point) -> (x: Fixed)
        requires
            old(self).valid(),
            old(self).takes((y.0 as int, y.1 as int)),
        ensures
            fixed(x) == x_after(
                old(self).history(),
                old(self).coefficients(),
                (y.0 as int, y.1 as int),
            ),
            final(self).valid(),
            final(self).coefficients() == old(self).coefficients(),
            final(self).modulo() == old(self).modulo(),
            final(self).history() == shifted(old(self).history(), fixed(x)),
    {
        let ghost before = *self;
        proof {
            lemma_p_bounded(before.history(), before.coefficients, FIXED_LIMIT as int);
        }
        let x: Fixed = (y.0 as i64 * 128 - self.p.0, y.1 as i64 * 128 - self.p.1);
        self.history = [x, self.history[0], self.history[1]];
        assert(self.history() =~= shifted(before.history(), fixed(x)));
        let (x0, x1, x2) = (self.history[0], self.history[1], self.history[2]);
        assert(fixed(x0) == self.history()[0] && fixed(x1) == self.history()[1] && fixed(x2)
            == self.history()[2]);
        let (h0, h1, h2) = (self.coefficients[0], self.coefficients[1], self.coefficients[2]);
        let a = product(x0, h0);
        let b = product(x1, h1);
        let c = product(x2, h2);
        let sum: Fixed = (a.0 + b.0 + c.0, a.1 + b.1 + c.1);
        self.p = (round_div(sum.0, 16_384), round_div(sum.1, 16_384));
        proof {
            lemma_p_bounded(self.history(), self.coefficients, FIXED_LIMIT as int);
        }
        self.c = (modulo_of(self.p.0, self.modulo), modulo_of(self.p.1, self.modulo));
        x
    }
}

fn product(x: Fixed, h: (i16, i16)) -> (z: Fixed)
    requires
        within(fixed(x), FIXED_LIMIT as int),
    ensures
        fixed(z) == complex_product(fixed(x), h),
        within(fixed(z), 0x100_0000_0000_0000),
{
    let (re, im) = (h.0 as i64, h.1 as i64);
    proof {
        lemma_product_bounded(fixed(x), h, FIXED_LIMIT as int);
        lemma_bounded_product(x.0 as int, re as int, FIXED_LIMIT as int);
        lemma_bounded_product(x.1 as int, im as int, FIXED_LIMIT as int);
        lemma_bounded_product(x.0 as int, im as int, FIXED_LIMIT as int);
        lemma_bounded_product(x.1 as int, re as int, FIXED_LIMIT as int);
    }
    (x.0 * re - x.1 * im, x.0 * im + x.1 * re)
}

proof fn lemma_bounded_product(x: int, h: int, limit: int)
    requires
        -limit <= x <= limit,
        -0x8000 <= h <= 0x8000,
    ensures
        -0x8000 * limit <= x * h <= 0x8000 * limit,
{
    assert(-0x8000 * limit <= x * h <= 0x8000 * limit) by (nonlinear_arith)
        requires
            -limit <= x <= limit,
            -0x8000 <= h <= 0x8000,
    ;
}

fn modulo_of(p: i64, modulo: i64) -> (c: i32)
    requires
        0 < 128 * modulo <= i64::MAX,
        -0x1000_0000_0000 <= p <= 0x1000_0000_0000,
    ensures
        c == modulo_part(p as int, modulo as int),
{
    proof {
        law_rounds_halves_towards_the_smaller_magnitude(p as int, 128 * modulo);
        assert(128 * modulo % 2 == 0);
    }
    let quotient = round_div(p, 128 * modulo);
    proof {
        let q = quotient as int;
        let m = modulo as int;
        assert(q * (128 * m) == 128 * (q * m)) by (nonlinear_arith);
    }
    let c: i64 = quotient * modulo;
    if c < -0x8000_0000 || c > 0x7FFF_FFFF {
        0
    } else {
        c as i32
    }
}

proof fn lemma_zero_rounds(divisor: int)
    requires
        divisor >= 2,
        divisor % 2 == 0,
    ensures
        rounded(0, divisor) == 0,
{
    law_rounds_halves_towards_the_smaller_magnitude(0, divisor);
}

proof fn lemma_silence(h: Precoding)
    ensures
        filtered(silence(), h) == (0int, 0int),
{
    assert forall|k: (i16, i16)| #[trigger] complex_product((0, 0), k) == (0int, 0int) by {
        assert(0 * k.0 == 0 && 0 * k.1 == 0);
    }
}

proof fn lemma_product_bounded(x: (int, int), h: (i16, i16), limit: int)
    requires
        within(x, limit),
    ensures
        within(complex_product(x, h), 0x1_0000 * limit),
{
    lemma_bounded_product(x.0, h.0 as int, limit);
    lemma_bounded_product(x.1, h.1 as int, limit);
    lemma_bounded_product(x.0, h.1 as int, limit);
    lemma_bounded_product(x.1, h.0 as int, limit);
}

/// p(n) stays within 12 times x(n).
proof fn lemma_p_bounded(history: Seq<(int, int)>, h: Precoding, limit: int)
    requires
        all_within(history, limit),
        limit >= 0,
    ensures
        within(filtered(history, h), 0x3_0000 * limit),
        within(p_after(history, h), 12 * limit + 1),
{
    lemma_product_bounded(history[0], h[0], limit);
    lemma_product_bounded(history[1], h[1], limit);
    lemma_product_bounded(history[2], h[2], limit);
    law_rounds_halves_towards_the_smaller_magnitude(filtered(history, h).0, 16_384);
    law_rounds_halves_towards_the_smaller_magnitude(filtered(history, h).1, 16_384);
}

/// The nearest multiple of 2w to p(n) fits c(n).
pub open spec fn modulo_fits(p: int, modulo: int) -> bool {
    i32::MIN <= rounded(p, 128 * modulo) * modulo <= i32::MAX
}

proof fn lemma_modulo_part(p: int, modulo: int)
    requires
        modulo > 0,
        modulo_fits(p, modulo),
    ensures
        modulo_part(p, modulo) % modulo == 0,
        magnitude(128 * modulo_part(p, modulo) - p) <= 64 * modulo,
{
    let q = rounded(p, 128 * modulo);
    law_rounds_halves_towards_the_smaller_magnitude(p, 128 * modulo);
    assert(q * (128 * modulo) == 128 * (q * modulo)) by (nonlinear_arith);
    vstd::arithmetic::div_mod::lemma_mod_multiples_basic(q, modulo);
}

/// c(n) is a multiple of 2w that takes all but half of 2w from p(n), wherever
/// it fits.
pub proof fn law_leaves_half_the_modulo(history: Seq<(int, int)>, h: Precoding, modulo: int)
    requires
        modulo > 0,
    ensures
        ({
            let (p, c) = (p_after(history, h), c_after(history, h, modulo));
            &&& modulo_fits(p.0, modulo) ==> c.0 % modulo == 0 && magnitude(128 * c.0 - p.0) <= 64
                * modulo
            &&& modulo_fits(p.1, modulo) ==> c.1 % modulo == 0 && magnitude(128 * c.1 - p.1) <= 64
                * modulo
        }),
{
    let p = p_after(history, h);
    if modulo_fits(p.0, modulo) {
        lemma_modulo_part(p.0, modulo);
    }
    if modulo_fits(p.1, modulo) {
        lemma_modulo_part(p.1, modulo);
    }
}

/// While x(n) stays within 6528, as an encoder keeps it, c(n) always fits.
pub proof fn law_c_fits_what_an_encoder_sends(history: Seq<(int, int)>, h: Precoding, modulo: int)
    requires
        all_within(history, 6528),
        modulo == 2 || modulo == 4,
    ensures
        within(p_after(history, h), 78_337),
        within(c_after(history, h, modulo), 313_348),
        modulo_fits(p_after(history, h).0, modulo),
        modulo_fits(p_after(history, h).1, modulo),
        c_after(history, h, modulo).0 % 2 == 0,
        c_after(history, h, modulo).1 % 2 == 0,
        magnitude(128 * c_after(history, h, modulo).0 - p_after(history, h).0) <= 64 * modulo,
        magnitude(128 * c_after(history, h, modulo).1 - p_after(history, h).1) <= 64 * modulo,
{
    lemma_p_bounded(history, h, 6528);
    let p = p_after(history, h);
    lemma_modulo_bounded(p.0, modulo);
    lemma_modulo_bounded(p.1, modulo);
    law_leaves_half_the_modulo(history, h, modulo);
}

proof fn lemma_modulo_bounded(p: int, modulo: int)
    requires
        -78_337 <= p <= 78_337,
        modulo == 2 || modulo == 4,
    ensures
        modulo_fits(p, modulo),
        modulo_part(p, modulo) % 2 == 0,
        -313_348 <= modulo_part(p, modulo) <= 313_348,
{
    let q = rounded(p, 128 * modulo);
    law_rounds_halves_towards_the_smaller_magnitude(p, 128 * modulo);
    if modulo == 2 {
        assert(q * modulo == 2 * q) by (nonlinear_arith)
            requires
                modulo == 2,
        ;
    } else {
        assert(q * modulo == 4 * q) by (nonlinear_arith)
            requires
                modulo == 4,
        ;
    }
}

/// Without coefficients the precoder adds nothing, and x(n) is y(n).
pub proof fn law_no_coefficients_change_nothing(
    history: Seq<(int, int)>,
    h: Precoding,
    modulo: int,
    y: (int, int),
)
    requires
        h@ == seq![(0i16, 0i16), (0i16, 0i16), (0i16, 0i16)],
        history.len() == 3,
        modulo == 2 || modulo == 4,
    ensures
        c_after(history, h, modulo) == (0int, 0int),
        x_after(history, h, y) == (128 * y.0, 128 * y.1),
{
    assert forall|x: (int, int)| #[trigger] complex_product(x, (0i16, 0i16)) == (0int, 0int) by {
        assert(x.0 * 0 == 0 && x.1 * 0 == 0);
    }
    assert(h[0] == h@[0] && h[1] == h@[1] && h[2] == h@[2]);
    lemma_zero_rounds(16_384);
    lemma_zero_rounds(128 * modulo);
}

/// p(n) is the sum of the last three x(n) with their coefficients, to the
/// nearest, a half towards 0. c(n) is the multiple of 2w nearest to it, a half
/// towards 0 again, and x(n) is what is left of y(n).
pub proof fn law_section_9_6_2(history: Seq<(int, int)>, h: Precoding, modulo: int, y: (int, int))
    requires
        history.len() == 3,
        modulo > 0,
    ensures
        ({
            let re = history[0].0 * h[0].0 - history[0].1 * h[0].1 + (history[1].0 * h[1].0 - history[1].1 * h[1].1)
                + (history[2].0 * h[2].0 - history[2].1 * h[2].1);
            let im = history[0].0 * h[0].1 + history[0].1 * h[0].0 + (history[1].0 * h[1].1 + history[1].1 * h[1].0)
                + (history[2].0 * h[2].1 + history[2].1 * h[2].0);
            let p = p_after(history, h);
            let c = c_after(history, h, modulo);
            let x = x_after(history, h, y);
            &&& re >= 0 ==> -8192 < re - 16_384 * p.0 <= 8192
            &&& re <= 0 ==> -8192 <= re - 16_384 * p.0 < 8192
            &&& im >= 0 ==> -8192 < im - 16_384 * p.1 <= 8192
            &&& im <= 0 ==> -8192 <= im - 16_384 * p.1 < 8192
            &&& modulo_fits(p.0, modulo) && p.0 >= 0 ==> -64 * modulo < p.0 - 128 * c.0 <= 64 * modulo
            &&& modulo_fits(p.0, modulo) && p.0 <= 0 ==> -64 * modulo <= p.0 - 128 * c.0 < 64 * modulo
            &&& modulo_fits(p.1, modulo) && p.1 >= 0 ==> -64 * modulo < p.1 - 128 * c.1 <= 64 * modulo
            &&& modulo_fits(p.1, modulo) && p.1 <= 0 ==> -64 * modulo <= p.1 - 128 * c.1 < 64 * modulo
            &&& modulo_fits(p.0, modulo) ==> c.0 % modulo == 0
            &&& modulo_fits(p.1, modulo) ==> c.1 % modulo == 0
            &&& x.0 + p.0 == 128 * y.0
            &&& x.1 + p.1 == 128 * y.1
            &&& shifted(history, x) == seq![x, history[0], history[1]]
        }),
{
    let sum = filtered(history, h);
    let p = p_after(history, h);
    lemma_a_half_goes_towards_0(sum.0, 16_384);
    lemma_a_half_goes_towards_0(sum.1, 16_384);
    lemma_a_half_goes_towards_0(p.0, 128 * modulo);
    lemma_a_half_goes_towards_0(p.1, 128 * modulo);
    law_leaves_half_the_modulo(history, h, modulo);
    let (q, r) = (rounded(p.0, 128 * modulo), rounded(p.1, 128 * modulo));
    assert(q * (128 * modulo) == 128 * (q * modulo)) by (nonlinear_arith);
    assert(r * (128 * modulo) == 128 * (r * modulo)) by (nonlinear_arith);
}

proof fn lemma_a_half_goes_towards_0(value: int, divisor: int)
    requires
        divisor >= 2,
        divisor % 2 == 0,
    ensures
        value >= 0 ==> -divisor < 2 * (value - rounded(value, divisor) * divisor) <= divisor,
        value <= 0 ==> -divisor <= 2 * (value - rounded(value, divisor) * divisor) < divisor,
{
    law_rounds_halves_towards_the_smaller_magnitude(value, divisor);
    let m = rounded(value, divisor);
    assert(value >= 0 ==> m * divisor >= 0) by (nonlinear_arith)
        requires
            value >= 0 ==> m >= 0,
            divisor >= 2,
    ;
    assert(value <= 0 ==> m * divisor <= 0) by (nonlinear_arith)
        requires
            value <= 0 ==> m <= 0,
            divisor >= 2,
    ;
}

} // verus!

//! The shell mapper of § 9.4, and its inverse for the receiver.
//!
//! The mapper numbers the 8-tuples of rings below M by their total, so that
//! smaller numbers get cheaper rings. Tuples of one total go by the total of
//! their first half, then by the number of their second half, then by that
//! of their first half, and halves are numbered in the same way.

use vstd::arithmetic::power::pow;
use vstd::prelude::*;

verus! {

/// f(0) + ... + f(n − 1).
pub open spec fn prefix(f: spec_fn(int) -> int, n: int) -> int
    decreases n,
{
    if n <= 0 {
        0
    } else {
        prefix(f, n - 1) + f(n - 1)
    }
}

/// How many ways there are to get `total` as p and the rest, for each p, if
/// each of them comes in f ways.
pub open spec fn products(f: spec_fn(int) -> int, total: int) -> spec_fn(int) -> int {
    |p: int| f(p) * f(total - p)
}

pub open spec fn convolved(f: spec_fn(int) -> int, total: int) -> int {
    prefix(products(f, total), total + 1)
}

/// How many pairs of rings below `m` have each total: G2 of § 9.4.
pub open spec fn pairs(m: int) -> spec_fn(int) -> int {
    |p: int|
        if 0 <= p < m {
            p + 1
        } else if m <= p <= 2 * m - 2 {
            2 * m - 1 - p
        } else {
            0
        }
}

/// How many 4-tuples have each total: G4.
pub open spec fn quads(m: int) -> spec_fn(int) -> int {
    |p: int| convolved(pairs(m), p)
}

/// How many 8-tuples have each total: G8.
pub open spec fn octets(m: int) -> spec_fn(int) -> int {
    |p: int| convolved(quads(m), p)
}

/// The place of a pair among those with its total.
pub open spec fn pair_rank(m: int, first: int, second: int) -> int {
    if first + second < m {
        first
    } else {
        m - 1 - second
    }
}

/// The place of four rings among those with their total.
pub open spec fn quad_rank(m: int, r: Seq<u8>) -> int {
    let c = r[0] + r[1];
    let b = c + r[2] + r[3];
    prefix(products(pairs(m), b), c) + pair_rank(m, r[2] as int, r[3] as int) * pairs(m)(c)
        + pair_rank(m, r[0] as int, r[1] as int)
}

pub open spec fn quad_total(r: Seq<u8>) -> int {
    r[0] + r[1] + r[2] + r[3]
}

/// R0 of equation 9-7 for eight rings: their place among all 8-tuples.
pub open spec fn shell_rank(m: int, r: Seq<u8>) -> int {
    let b = quad_total(r.take(4));
    let a = b + quad_total(r.skip(4));
    prefix(octets(m), a) + prefix(products(quads(m), a), b) + quad_rank(m, r.skip(4)) * quads(m)(b)
        + quad_rank(m, r.take(4))
}

/// The sum of the rings, which the mapper keeps small.
pub open spec fn cost(r: Seq<u8>) -> int {
    quad_total(r.take(4)) + quad_total(r.skip(4))
}

/// Eight rings below `m`.
pub open spec fn shell(m: int, r: Seq<u8>) -> bool {
    r.len() == 8 && forall|i: int| 0 <= i < 8 ==> #[trigger] r[i] < m
}

/// The shell that `r0` stands for.
pub open spec fn shell_of(m: int, r0: int) -> Seq<u8> {
    choose|r: Seq<u8>| shell(m, r) && shell_rank(m, r) == r0
}

spec fn nonnegative(f: spec_fn(int) -> int) -> bool {
    forall|p: int| #[trigger] f(p) >= 0
}

/// Zero from `n` on, and below 0.
spec fn ends_at(f: spec_fn(int) -> int, n: int) -> bool {
    forall|p: int| p < 0 || p >= n ==> #[trigger] f(p) == 0
}

proof fn lemma_prefix_monotone(f: spec_fn(int) -> int, n: int, k: int)
    requires
        nonnegative(f),
        n <= k,
    ensures
        0 <= prefix(f, n) <= prefix(f, k),
    decreases k,
{
    if k <= 0 {
    } else if n < k {
        lemma_prefix_monotone(f, n, k - 1);
        assert(f(k - 1) >= 0);
    } else {
        lemma_prefix_monotone(f, n - 1, k - 1);
        assert(f(k - 1) >= 0);
    }
}

proof fn lemma_prefix_congruent(f: spec_fn(int) -> int, g: spec_fn(int) -> int, n: int)
    requires
        forall|p: int| 0 <= p < n ==> #[trigger] f(p) == g(p),
    ensures
        prefix(f, n) == prefix(g, n),
    decreases n,
{
    if n > 0 {
        lemma_prefix_congruent(f, g, n - 1);
        assert(f(n - 1) == g(n - 1));
    }
}

proof fn lemma_prefix_past_end(f: spec_fn(int) -> int, n: int, k: int)
    requires
        ends_at(f, n),
        0 <= n <= k,
    ensures
        prefix(f, k) == prefix(f, n),
    decreases k - n,
{
    if n < k {
        lemma_prefix_past_end(f, n, k - 1);
        assert(f(k - 1) == 0);
    }
}

proof fn lemma_products_nonnegative(f: spec_fn(int) -> int, total: int)
    requires
        nonnegative(f),
    ensures
        nonnegative(products(f, total)),
{
    assert forall|p: int| #[trigger] products(f, total)(p) >= 0 by {
        let x = f(p);
        let y = f(total - p);
        assert(x * y >= 0) by (nonlinear_arith)
            requires
                x >= 0,
                y >= 0,
        ;
    }
}

proof fn lemma_convolved_nonnegative(f: spec_fn(int) -> int, total: int)
    requires
        nonnegative(f),
    ensures
        convolved(f, total) >= 0,
{
    lemma_products_nonnegative(f, total);
    if total >= 0 {
        lemma_prefix_monotone(products(f, total), 0, total + 1);
    }
}

proof fn lemma_convolved_ends(f: spec_fn(int) -> int, n: int, total: int)
    requires
        ends_at(f, n),
        total < 0 || total >= 2 * n - 1,
    ensures
        convolved(f, total) == 0,
{
    let g = products(f, total);
    if total >= 0 {
        assert forall|p: int| 0 <= p < total + 1 implies #[trigger] g(p) == 0 by {
            let x = f(p);
            let y = f(total - p);
            assert(x == 0 || y == 0);
            assert(x * y == 0) by (nonlinear_arith)
                requires
                    x == 0 || y == 0,
            ;
        }
        let zero = |p: int| 0int;
        lemma_prefix_congruent(g, zero, total + 1);
        lemma_prefix_past_end(zero, 0, total + 1);
    }
}

/// f(i) times the sum of f below `n` − i.
spec fn spread(f: spec_fn(int) -> int, n: int) -> spec_fn(int) -> int {
    |i: int| f(i) * prefix(f, n - i)
}

proof fn lemma_spread_grows(f: spec_fn(int) -> int, n: int, k: int)
    requires
        0 <= k <= n + 1,
    ensures
        prefix(spread(f, n + 1), k) == prefix(spread(f, n), k) + prefix(products(f, n), k),
    decreases k,
{
    if k > 0 {
        lemma_spread_grows(f, n, k - 1);
        let x = f(k - 1);
        let y = prefix(f, n - (k - 1));
        let z = f(n - (k - 1));
        assert(prefix(f, n + 1 - (k - 1)) == y + z);
        assert(x * (y + z) == x * y + x * z) by (nonlinear_arith);
    }
}

spec fn convolution(f: spec_fn(int) -> int) -> spec_fn(int) -> int {
    |p: int| convolved(f, p)
}

proof fn lemma_prefix_of_convolution(f: spec_fn(int) -> int, n: int)
    requires
        n >= 0,
    ensures
        prefix(convolution(f), n) == prefix(spread(f, n), n),
    decreases n,
{
    if n > 0 {
        lemma_prefix_of_convolution(f, n - 1);
        lemma_spread_grows(f, n - 1, n);
        let k = n - 1;
        // The last term of the narrower spread vanishes.
        assert(prefix(f, 0) == 0);
        let x = f(k);
        assert(x * 0 == 0);
        assert(spread(f, k)(k) == 0) by {
            assert(spread(f, k)(k) == x * prefix(f, k - k));
        }
        assert(prefix(spread(f, k), n) == prefix(spread(f, k), k) + spread(f, k)(k));
    }
}

proof fn lemma_prefix_scaled(f: spec_fn(int) -> int, g: spec_fn(int) -> int, c: int, n: int)
    requires
        forall|p: int| 0 <= p < n ==> #[trigger] g(p) == f(p) * c,
    ensures
        prefix(g, n) == prefix(f, n) * c,
    decreases n,
{
    if n > 0 {
        lemma_prefix_scaled(f, g, c, n - 1);
        assert(g(n - 1) == f(n - 1) * c);
        let x = prefix(f, n - 1);
        let y = f(n - 1);
        assert((x + y) * c == x * c + y * c) by (nonlinear_arith);
    }
}

/// All the ways together are the square of the ways of each half.
proof fn lemma_convolution_total(f: spec_fn(int) -> int, n: int)
    requires
        n >= 1,
        ends_at(f, n),
    ensures
        prefix(convolution(f), 2 * n - 1) == prefix(f, n) * prefix(f, n),
{
    let k = 2 * n - 1;
    let g = spread(f, k);
    lemma_prefix_of_convolution(f, k);
    assert forall|i: int| 0 <= i < k implies #[trigger] g(i) == f(i) * prefix(f, n) by {
        if i < n {
            lemma_prefix_past_end(f, n, k - i);
        } else {
            let x = prefix(f, k - i);
            let y = prefix(f, n);
            assert(f(i) == 0);
            assert(0 * x == 0 && 0 * y == 0);
        }
    }
    lemma_prefix_scaled(f, g, prefix(f, n), k);
    lemma_prefix_past_end(f, n, k);
}

proof fn lemma_pairs_prefix(m: int, n: int)
    requires
        m >= 1,
        0 <= n <= 2 * m - 1,
    ensures
        n <= m ==> 2 * prefix(pairs(m), n) == n * (n + 1),
        n >= m ==> 2 * prefix(pairs(m), n) == 2 * m * m - (2 * m - 1 - n) * (2 * m - n),
    decreases n,
{
    if n > 0 {
        lemma_pairs_prefix(m, n - 1);
        assert(pairs(m)(n - 1) == if n - 1 < m {
            n
        } else {
            2 * m - n
        });
        assert(n <= m ==> (n - 1) * n + 2 * n == n * (n + 1)) by (nonlinear_arith);
        assert((m - 1) * m + 2 * m == 2 * m * m - (2 * m - 1 - m) * (2 * m - m)) by (nonlinear_arith);
        assert(2 * m * m - (2 * m - 1 - (n - 1)) * (2 * m - (n - 1)) + 2 * (2 * m - n) == 2 * m * m - (2 * m
            - 1 - n) * (2 * m - n)) by (nonlinear_arith);
        if n == m {
            assert((n - 1) * n + 2 * n == 2 * m * m - (2 * m - 1 - n) * (2 * m - n));
        }
    } else {
        assert(0 * (0 + 1) == 0);
    }
}

proof fn lemma_pairs_facts(m: int)
    requires
        m >= 1,
    ensures
        nonnegative(pairs(m)),
        ends_at(pairs(m), 2 * m - 1),
        prefix(pairs(m), 2 * m - 1) == m * m,
{
    lemma_pairs_prefix(m, 2 * m - 1);
    assert((2 * m - 1 - (2 * m - 1)) * (2 * m - (2 * m - 1)) == 0) by (nonlinear_arith);
    assert(2 * m * m == 2 * (m * m)) by (nonlinear_arith);
    if m == 1 {
        assert(pairs(1)(0) == 1);
        assert(prefix(pairs(1), 1) == prefix(pairs(1), 0) + pairs(1)(0));
    }
}

proof fn lemma_quads_facts(m: int)
    requires
        m >= 1,
    ensures
        nonnegative(quads(m)),
        ends_at(quads(m), 4 * m - 3),
        prefix(quads(m), 4 * m - 3) == m * m * (m * m),
{
    lemma_pairs_facts(m);
    assert forall|p: int| #[trigger] quads(m)(p) >= 0 by {
        lemma_convolved_nonnegative(pairs(m), p);
    }
    assert forall|p: int| p < 0 || p >= 4 * m - 3 implies #[trigger] quads(m)(p) == 0 by {
        lemma_convolved_ends(pairs(m), 2 * m - 1, p);
    }
    lemma_convolution_total(pairs(m), 2 * m - 1);
    lemma_prefix_congruent(quads(m), convolution(pairs(m)), 4 * m - 3);
}

proof fn lemma_octets_facts(m: int)
    requires
        m >= 1,
    ensures
        nonnegative(octets(m)),
        ends_at(octets(m), 8 * m - 7),
        prefix(octets(m), 8 * m - 7) == pow(m, 8),
{
    lemma_quads_facts(m);
    assert forall|p: int| #[trigger] octets(m)(p) >= 0 by {
        lemma_convolved_nonnegative(quads(m), p);
    }
    assert forall|p: int| p < 0 || p >= 8 * m - 7 implies #[trigger] octets(m)(p) == 0 by {
        lemma_convolved_ends(quads(m), 4 * m - 3, p);
    }
    lemma_convolution_total(quads(m), 4 * m - 3);
    lemma_prefix_congruent(octets(m), convolution(quads(m)), 8 * m - 7);
    lemma_eighth_power(m);
}

pub proof fn lemma_eighth_power(m: int)
    ensures
        pow(m, 8) == m * m * (m * m) * (m * m * (m * m)),
{
    reveal(pow);
    reveal_with_fuel(pow, 9);
    let s = m * m;
    assert(m * (m * (m * (m * (m * (m * (m * (m * 1))))))) == s * s * (s * s)) by (nonlinear_arith)
        requires
            s == m * m,
    ;
}

proof fn lemma_eighth_power_fits(m: int)
    requires
        1 <= m <= 255,
    ensures
        1 <= pow(m, 8) <= u64::MAX,
{
    lemma_eighth_power(m);
    let s = m * m;
    assert(1 <= s <= 65025) by (nonlinear_arith)
        requires
            s == m * m,
            1 <= m <= 255,
    ;
    let t = s * s;
    assert(1 <= t <= 4228250625) by (nonlinear_arith)
        requires
            t == s * s,
            1 <= s <= 65025,
    ;
    assert(1 <= t * t <= 17878103347812890625) by (nonlinear_arith)
        requires
            1 <= t <= 4228250625,
    ;
}

/// A first part of total `b`, with its place `low` among those, and a second
/// part with its place `high`, stand in the slice of `b`.
proof fn lemma_slice(f: spec_fn(int) -> int, total: int, b: int, low: int, high: int)
    requires
        nonnegative(f),
        0 <= b <= total,
        0 <= low < f(b),
        0 <= high < f(total - b),
    ensures
        0 <= high * f(b) + low < products(f, total)(b),
        0 <= prefix(products(f, total), b) + high * f(b) + low < prefix(products(f, total), b + 1),
        prefix(products(f, total), b + 1) <= convolved(f, total),
{
    let x = f(b);
    let y = f(total - b);
    assert(0 <= high * x + low < x * y) by (nonlinear_arith)
        requires
            0 <= low < x,
            0 <= high < y,
    ;
    lemma_products_nonnegative(f, total);
    lemma_prefix_monotone(products(f, total), 0, b);
    lemma_prefix_monotone(products(f, total), b + 1, total + 1);
}

/// Slices do not overlap, so a place tells its slice and what stands in it.
proof fn lemma_slice_injective(f: spec_fn(int) -> int, n: int, x: int, k: int, y: int)
    requires
        nonnegative(f),
        n >= 0,
        k >= 0,
        0 <= x < f(n),
        0 <= y < f(k),
        prefix(f, n) + x == prefix(f, k) + y,
    ensures
        n == k,
        x == y,
{
    if n < k {
        lemma_prefix_monotone(f, n + 1, k);
    } else if k < n {
        lemma_prefix_monotone(f, k + 1, n);
    }
}

proof fn lemma_digits_injective(base: int, low: int, high: int, other_low: int, other_high: int)
    requires
        0 <= low < base,
        0 <= other_low < base,
        high * base + low == other_high * base + other_low,
    ensures
        low == other_low,
        high == other_high,
{
    let d = high - other_high;
    assert(d * base == other_low - low) by (nonlinear_arith)
        requires
            high * base + low == other_high * base + other_low,
            d == high - other_high,
    ;
    assert(d == 0) by (nonlinear_arith)
        requires
            d * base == other_low - low,
            -base < other_low - low < base,
            base > 0,
    ;
}

proof fn lemma_pair_rank(m: int, first: int, second: int)
    requires
        0 <= first < m,
        0 <= second < m,
    ensures
        0 <= pair_rank(m, first, second) < pairs(m)(first + second),
{
}

proof fn lemma_quad_rank(m: int, r: Seq<u8>)
    requires
        r.len() == 4,
        forall|i: int| 0 <= i < 4 ==> #[trigger] r[i] < m,
    ensures
        0 <= quad_rank(m, r) < quads(m)(quad_total(r)),
        0 <= quad_total(r) <= 4 * m - 4,
{
    assert(r[0] < m && r[1] < m && r[2] < m && r[3] < m);
    lemma_pairs_facts(m);
    lemma_pair_rank(m, r[0] as int, r[1] as int);
    lemma_pair_rank(m, r[2] as int, r[3] as int);
    let c = r[0] + r[1];
    let b = c + r[2] + r[3];
    assert(b - c == r[2] + r[3]);
    lemma_slice(
        pairs(m),
        b,
        c,
        pair_rank(m, r[0] as int, r[1] as int),
        pair_rank(m, r[2] as int, r[3] as int),
    );
}

proof fn lemma_quad_rank_injective(m: int, r: Seq<u8>, s: Seq<u8>)
    requires
        r.len() == 4,
        s.len() == 4,
        forall|i: int| 0 <= i < 4 ==> #[trigger] r[i] < m,
        forall|i: int| 0 <= i < 4 ==> #[trigger] s[i] < m,
        quad_total(r) == quad_total(s),
        quad_rank(m, r) == quad_rank(m, s),
    ensures
        r == s,
{
    assert(r[0] < m && r[1] < m && r[2] < m && r[3] < m);
    assert(s[0] < m && s[1] < m && s[2] < m && s[3] < m);
    lemma_pairs_facts(m);
    let f = pairs(m);
    let b = quad_total(r);
    let c = r[0] + r[1];
    let d = s[0] + s[1];
    assert(b - c == r[2] + r[3] && b - d == s[2] + s[3]);
    let low = pair_rank(m, r[0] as int, r[1] as int);
    let high = pair_rank(m, r[2] as int, r[3] as int);
    let other_low = pair_rank(m, s[0] as int, s[1] as int);
    let other_high = pair_rank(m, s[2] as int, s[3] as int);
    lemma_pair_rank(m, r[0] as int, r[1] as int);
    lemma_pair_rank(m, r[2] as int, r[3] as int);
    lemma_pair_rank(m, s[0] as int, s[1] as int);
    lemma_pair_rank(m, s[2] as int, s[3] as int);
    lemma_slice(f, b, c, low, high);
    lemma_slice(f, b, d, other_low, other_high);
    lemma_products_nonnegative(f, b);
    lemma_slice_injective(products(f, b), c, high * f(c) + low, d, other_high * f(d) + other_low);
    lemma_digits_injective(f(c), low, high, other_low, other_high);
    assert(r =~= s);
}

/// Where the number of a shell stands: in the slice of its total, and below
/// the number of all shells.
proof fn lemma_shell_rank(m: int, r: Seq<u8>)
    requires
        m >= 1,
        shell(m, r),
    ensures
        0 <= shell_rank(m, r) - prefix(octets(m), cost(r)) < octets(m)(cost(r)),
        0 <= cost(r) <= 8 * m - 8,
        0 <= shell_rank(m, r) < pow(m, 8),
{
    let first = r.take(4);
    let second = r.skip(4);
    let b = quad_total(first);
    let a = cost(r);
    lemma_quad_rank(m, first);
    lemma_quad_rank(m, second);
    assert(a - b == quad_total(second));
    lemma_quads_facts(m);
    lemma_octets_facts(m);
    lemma_slice(quads(m), a, b, quad_rank(m, first), quad_rank(m, second));
    lemma_prefix_monotone(octets(m), 0, a);
    lemma_prefix_monotone(octets(m), a + 1, 8 * m - 7);
}

/// Every number below M⁸ stands for at most one shell.
pub proof fn law_numbers_shells_apart(m: int, r: Seq<u8>, s: Seq<u8>)
    requires
        m >= 1,
        shell(m, r),
        shell(m, s),
        shell_rank(m, r) == shell_rank(m, s),
    ensures
        r == s,
{
    lemma_shell_rank(m, r);
    lemma_shell_rank(m, s);
    lemma_octets_facts(m);
    lemma_quads_facts(m);
    let a = cost(r);
    lemma_slice_injective(
        octets(m),
        a,
        shell_rank(m, r) - prefix(octets(m), a),
        cost(s),
        shell_rank(m, s) - prefix(octets(m), cost(s)),
    );
    let f = quads(m);
    let b = quad_total(r.take(4));
    let d = quad_total(s.take(4));
    assert(a - b == quad_total(r.skip(4)) && a - d == quad_total(s.skip(4)));
    let low = quad_rank(m, r.take(4));
    let high = quad_rank(m, r.skip(4));
    let other_low = quad_rank(m, s.take(4));
    let other_high = quad_rank(m, s.skip(4));
    lemma_quad_rank(m, r.take(4));
    lemma_quad_rank(m, r.skip(4));
    lemma_quad_rank(m, s.take(4));
    lemma_quad_rank(m, s.skip(4));
    lemma_slice(f, a, b, low, high);
    lemma_slice(f, a, d, other_low, other_high);
    lemma_products_nonnegative(f, a);
    lemma_slice_injective(products(f, a), b, high * f(b) + low, d, other_high * f(d) + other_low);
    lemma_digits_injective(f(b), low, high, other_low, other_high);
    lemma_quad_rank_injective(m, r.take(4), s.take(4));
    lemma_quad_rank_injective(m, r.skip(4), s.skip(4));
    assert(r =~= r.take(4) + r.skip(4));
    assert(s =~= s.take(4) + s.skip(4));
}

/// The slice that `value` falls in.
proof fn lemma_find(f: spec_fn(int) -> int, n: int, value: int) -> (b: int)
    requires
        0 <= value < prefix(f, n),
    ensures
        0 <= b < n,
        prefix(f, b) <= value < prefix(f, b + 1),
    decreases n,
{
    if prefix(f, n - 1) <= value {
        n - 1
    } else {
        lemma_find(f, n - 1, value)
    }
}

proof fn lemma_pair_exists(m: int, total: int, low: int) -> (pair: (u8, u8))
    requires
        1 <= m <= 255,
        0 <= low < pairs(m)(total),
    ensures
        pair.0 < m,
        pair.1 < m,
        pair.0 + pair.1 == total,
        pair_rank(m, pair.0 as int, pair.1 as int) == low,
{
    if total < m {
        (low as u8, (total - low) as u8)
    } else {
        ((total - (m - 1 - low)) as u8, (m - 1 - low) as u8)
    }
}

proof fn lemma_quad_exists(m: int, b: int, rank: int) -> (r: Seq<u8>)
    requires
        1 <= m <= 255,
        0 <= rank < quads(m)(b),
    ensures
        r.len() == 4,
        forall|i: int| 0 <= i < 4 ==> #[trigger] r[i] < m,
        quad_total(r) == b,
        quad_rank(m, r) == rank,
{
    let f = pairs(m);
    lemma_pairs_facts(m);
    let c = lemma_find(products(f, b), b + 1, rank);
    let left = rank - prefix(products(f, b), c);
    lemma_divided(left, f(c), f(b - c));
    let first = lemma_pair_exists(m, c, left % f(c));
    let second = lemma_pair_exists(m, b - c, left / f(c));
    let r = seq![first.0, first.1, second.0, second.1];
    assert(quad_total(r) == b);
    r
}

/// Every number below M⁸ stands for a shell.
pub proof fn law_numbers_every_shell(m: int, r0: int)
    requires
        1 <= m <= 255,
        0 <= r0 < pow(m, 8),
    ensures
        shell(m, shell_of(m, r0)),
        shell_rank(m, shell_of(m, r0)) == r0,
{
    let g = quads(m);
    lemma_quads_facts(m);
    lemma_octets_facts(m);
    let a = lemma_find(octets(m), 8 * m - 7, r0);
    let rest = r0 - prefix(octets(m), a);
    let b = lemma_find(products(g, a), a + 1, rest);
    let left = rest - prefix(products(g, a), b);
    lemma_divided(left, g(b), g(a - b));
    let first = lemma_quad_exists(m, b, left % g(b));
    let second = lemma_quad_exists(m, a - b, left / g(b));
    let r = first + second;
    assert(r.take(4) =~= first);
    assert(r.skip(4) =~= second);
    assert forall|i: int| 0 <= i < 8 implies #[trigger] r[i] < m by {
        assert(r[i] == if i < 4 { first[i] } else { second[i - 4] });
    }
    assert(shell(m, r) && shell_rank(m, r) == r0);
}

proof fn lemma_shell_of(m: int, r: Seq<u8>)
    requires
        m >= 1,
        shell(m, r),
    ensures
        shell_of(m, shell_rank(m, r)) == r,
{
    law_numbers_shells_apart(m, r, shell_of(m, shell_rank(m, r)));
}

/// A smaller number never stands for dearer rings.
pub proof fn law_gives_smaller_values_cheaper_rings(m: int, r: Seq<u8>, s: Seq<u8>)
    requires
        m >= 1,
        shell(m, r),
        shell(m, s),
        shell_rank(m, r) <= shell_rank(m, s),
    ensures
        cost(r) <= cost(s),
{
    lemma_shell_rank(m, r);
    lemma_shell_rank(m, s);
    lemma_octets_facts(m);
    if cost(s) < cost(r) {
        lemma_prefix_monotone(octets(m), cost(s) + 1, cost(r));
    }
}

/// The values of `f` where it is not zero.
spec fn tabulates(g: Seq<u64>, f: spec_fn(int) -> int) -> bool {
    ends_at(f, g.len() as int) && forall|p: int| 0 <= p < g.len() ==> #[trigger] g[p] == f(p)
}

proof fn lemma_tabulated(g: Seq<u64>, f: spec_fn(int) -> int)
    requires
        tabulates(g, f),
    ensures
        nonnegative(f),
{
    assert forall|p: int| #[trigger] f(p) >= 0 by {
        if 0 <= p < g.len() {
            assert(g[p] == f(p));
        }
    }
}

fn at(g: &[u64], p: usize, Ghost(f): Ghost<spec_fn(int) -> int>) -> (value: u64)
    requires
        tabulates(g@, f),
    ensures
        value == f(p as int),
{
    if p < g.len() {
        g[p]
    } else {
        0
    }
}

fn convolve(g: &[u64], Ghost(f): Ghost<spec_fn(int) -> int>) -> (out: Vec<u64>)
    requires
        tabulates(g@, f),
        1 <= g.len() <= 1024,
        prefix(f, g.len() as int) * prefix(f, g.len() as int) <= u64::MAX,
    ensures
        out.len() == 2 * g.len() - 1,
        tabulates(out@, convolution(f)),
{
    let mut out: Vec<u64> = Vec::new();
    let mut p: usize = 0;
    while p < 2 * g.len() - 1
        invariant
            tabulates(g@, f),
            1 <= g.len() <= 1024,
            prefix(f, g.len() as int) * prefix(f, g.len() as int) <= u64::MAX,
            out.len() == p <= 2 * g.len() - 1,
            forall|n: int| 0 <= n < p ==> #[trigger] out[n] == convolution(f)(n),
        decreases 2 * g.len() - 1 - p,
    {
        let ghost term = products(f, p as int);
        proof {
            lemma_tabulated(g@, f);
            lemma_products_nonnegative(f, p as int);
            lemma_convolution_total(f, g.len() as int);
            lemma_convolution_nonnegative(f);
            lemma_prefix_monotone(convolution(f), 0, p as int);
            lemma_prefix_monotone(convolution(f), p + 1, 2 * g.len() - 1);
            assert(convolution(f)(p as int) == prefix(term, p + 1));
        }
        let mut sum: u64 = 0;
        let mut i: usize = 0;
        while i <= p
            invariant
                tabulates(g@, f),
                term == products(f, p as int),
                nonnegative(term),
                prefix(term, p + 1) <= u64::MAX,
                i <= p + 1,
                p < 2048,
                sum == prefix(term, i as int),
            decreases p + 1 - i,
        {
            proof {
                lemma_prefix_monotone(term, i + 1, p + 1);
                lemma_prefix_monotone(term, 0, i as int);
                assert(term(i as int) == f(i as int) * f(p - i));
                if i >= g.len() || p - i >= g.len() {
                    let x = f(i as int);
                    let y = f(p - i);
                    assert(x * y == 0) by (nonlinear_arith)
                        requires
                            x == 0 || y == 0,
                    ;
                } else {
                    assert(g[i as int] == f(i as int) && g[p - i] == f(p - i));
                }
            }
            if i < g.len() && p - i < g.len() {
                sum += g[i] * g[p - i];
            }
            i += 1;
        }
        out.push(sum);
        p += 1;
    }
    proof {
        assert forall|n: int| n < 0 || n >= out.len() implies #[trigger] convolution(f)(n) == 0 by {
            lemma_convolved_ends(f, g.len() as int, n);
        }
    }
    out
}

proof fn lemma_convolution_nonnegative(f: spec_fn(int) -> int)
    requires
        nonnegative(f),
    ensures
        nonnegative(convolution(f)),
{
    assert forall|p: int| #[trigger] convolution(f)(p) >= 0 by {
        lemma_convolved_nonnegative(f, p);
    }
}

/// The slice that `value` falls in, of the ways to get `total`, and its
/// place in it.
fn largest(g: &[u64], total: usize, value: u64, Ghost(f): Ghost<spec_fn(int) -> int>) -> (slice: (
    usize,
    u64,
))
    requires
        tabulates(g@, f),
        value < convolved(f, total as int) <= u64::MAX,
        total < usize::MAX,
    ensures
        slice.0 <= total,
        prefix(products(f, total as int), slice.0 as int) + slice.1 == value,
        slice.1 < f(slice.0 as int) * f(total - slice.0),
{
    let ghost term = products(f, total as int);
    let mut n: usize = 0;
    let mut left: u64 = value;
    proof {
        lemma_tabulated(g@, f);
        lemma_products_nonnegative(f, total as int);
    }
    loop
        invariant
            tabulates(g@, f),
            term == products(f, total as int),
            nonnegative(term),
            n <= total < usize::MAX,
            prefix(term, n as int) + left == value,
            value < prefix(term, total + 1) <= u64::MAX,
        ensures
            n <= total,
            prefix(term, n as int) + left == value,
            left < term(n as int),
        decreases total - n,
    {
        proof {
            lemma_prefix_monotone(term, 0, n as int);
            lemma_prefix_monotone(term, n + 1, total + 1);
            assert(term(n as int) == f(n as int) * f(total - n));
        }
        let next: u64 = at(g, n, Ghost(f)) * at(g, total - n, Ghost(f));
        if left < next {
            break;
        }
        left -= next;
        n += 1;
    }
    (n, left)
}

/// The sum of the slices below `n`.
fn below(g: &[u64], total: usize, n: usize, Ghost(f): Ghost<spec_fn(int) -> int>) -> (sum: u64)
    requires
        tabulates(g@, f),
        n <= total < usize::MAX,
        convolved(f, total as int) <= u64::MAX,
    ensures
        sum == prefix(products(f, total as int), n as int),
{
    let ghost term = products(f, total as int);
    proof {
        lemma_tabulated(g@, f);
        lemma_products_nonnegative(f, total as int);
    }
    let mut sum: u64 = 0;
    let mut p: usize = 0;
    while p < n
        invariant
            tabulates(g@, f),
            term == products(f, total as int),
            nonnegative(term),
            p <= n <= total < usize::MAX,
            sum == prefix(term, p as int),
            prefix(term, total + 1) <= u64::MAX,
        decreases n - p,
    {
        proof {
            lemma_prefix_monotone(term, 0, p as int);
            lemma_prefix_monotone(term, p + 1, total + 1);
            assert(term(p as int) == f(p as int) * f(total - p));
        }
        sum += at(g, p, Ghost(f)) * at(g, total - p, Ghost(f));
        p += 1;
    }
    sum
}

fn pair(sum: usize, low: usize, rings: usize) -> (pair: [usize; 2])
    requires
        1 <= rings <= 255,
        low < pairs(rings as int)(sum as int),
    ensures
        pair[0] < rings,
        pair[1] < rings,
        pair[0] + pair[1] == sum,
        pair_rank(rings as int, pair[0] as int, pair[1] as int) == low,
{
    if sum < rings {
        [low, sum - low]
    } else {
        [sum - (rings - 1 - low), rings - 1 - low]
    }
}

fn unpair(first: u8, second: u8, rings: usize) -> (place: (usize, usize))
    requires
        first < rings <= 255,
        second < rings,
    ensures
        place.0 == first + second,
        place.1 == pair_rank(rings as int, first as int, second as int),
{
    let sum = first as usize + second as usize;
    (
        sum,
        if sum < rings {
            first as usize
        } else {
            rings - 1 - second as usize
        },
    )
}

/// Maps K bits to eight ring indices below M, cheaper rings for smaller
/// values, and back.
#[derive(Debug, Clone)]
pub struct ShellMapper {
    rings: usize,
    g2: Vec<u64>,
    g4: Vec<u64>,
    z8: Vec<u64>,
}

impl ShellMapper {
    /// M.
    pub closed spec fn m(self) -> int {
        self.rings as int
    }

    /// The tables are those of M.
    pub closed spec fn valid(self) -> bool {
        let m = self.rings as int;
        &&& 1 <= m <= 255
        &&& self.g2.len() == 2 * m - 1
        &&& tabulates(self.g2@, pairs(m))
        &&& self.g4.len() == 4 * m - 3
        &&& tabulates(self.g4@, quads(m))
        &&& self.z8.len() == 8 * m - 6
        &&& forall|p: int| 0 <= p < self.z8.len() ==> #[trigger] self.z8[p] == prefix(octets(m), p)
    }

    /// For M rings, from 1 to 18.
    #[must_use]
    pub fn new(rings: u8) -> (mapper: Self)
        requires
            rings >= 1,
        ensures
            mapper.valid(),
            mapper.m() == rings,
    {
        let rings = rings as usize;
        let ghost m = rings as int;
        let mut g2: Vec<u64> = Vec::new();
        let mut p: usize = 0;
        while p < 2 * rings - 1
            invariant
                1 <= rings <= 255,
                m == rings,
                g2.len() == p <= 2 * rings - 1,
                forall|n: int| 0 <= n < p ==> #[trigger] g2[n] == pairs(m)(n),
            decreases 2 * rings - 1 - p,
        {
            g2.push(
                if p < rings {
                    p as u64 + 1
                } else {
                    2 * rings as u64 - 1 - p as u64
                },
            );
            p += 1;
        }
        proof {
            lemma_pairs_facts(m);
            lemma_quads_facts(m);
            lemma_octets_facts(m);
            lemma_eighth_power(m);
            lemma_eighth_power_fits(m);
            let s = m * m;
            assert(s * s <= s * s * (s * s)) by (nonlinear_arith)
                requires
                    s == m * m,
                    m >= 1,
            ;
        }
        let g4 = convolve(g2.as_slice(), Ghost(pairs(m)));
        assert forall|n: int| #[trigger] quads(m)(n) == convolution(pairs(m))(n) by {}
        assert(tabulates(g4@, quads(m))) by {
            assert forall|n: int| 0 <= n < g4.len() implies #[trigger] g4[n] == quads(m)(n) by {
                assert(g4[n] == convolution(pairs(m))(n));
            }
        }
        let g8 = convolve(g4.as_slice(), Ghost(quads(m)));
        let mut z8: Vec<u64> = Vec::new();
        let mut total: u64 = 0;
        z8.push(0);
        let mut p: usize = 0;
        while p < g8.len()
            invariant
                1 <= m <= 255,
                g8.len() == 8 * m - 7,
                tabulates(g8@, convolution(quads(m))),
                z8.len() == p + 1,
                p <= g8.len(),
                total == prefix(octets(m), p as int),
                prefix(octets(m), 8 * m - 7) <= u64::MAX,
                nonnegative(octets(m)),
                forall|n: int| 0 <= n <= p ==> #[trigger] z8[n] == prefix(octets(m), n),
            decreases g8.len() - p,
        {
            proof {
                assert(g8[p as int] == convolution(quads(m))(p as int));
                assert(octets(m)(p as int) == convolution(quads(m))(p as int));
                lemma_prefix_monotone(octets(m), 0, p as int);
                lemma_prefix_monotone(octets(m), p + 1, 8 * m - 7);
            }
            total += g8[p];
            z8.push(total);
            p += 1;
        }
        Self { rings, g2, g4, z8 }
    }

    /// How many values `map` takes: M⁸.
    #[must_use]
    pub fn values(&self) -> (values: u64)
        requires
            self.valid(),
        ensures
            values == pow(self.m(), 8),
    {
        proof {
            lemma_octets_facts(self.m());
        }
        self.z8[self.z8.len() - 1]
    }

    /// The slice of totals that `value` falls in.
    fn total(&self, value: u64) -> (a: usize)
        requires
            self.valid(),
            value < pow(self.m(), 8),
        ensures
            a <= 8 * self.m() - 8,
            prefix(octets(self.m()), a as int) <= value < prefix(octets(self.m()), a + 1),
    {
        proof {
            lemma_octets_facts(self.m());
        }
        let mut a: usize = self.z8.len() - 1;
        while self.z8[a] > value
            invariant
                self.valid(),
                a <= 8 * self.m() - 7,
                value < prefix(octets(self.m()), a + 1) || a == 8 * self.m() - 7,
                value < prefix(octets(self.m()), 8 * self.m() - 7),
            decreases a,
        {
            assert(self.z8[0] == prefix(octets(self.m()), 0));
            a -= 1;
        }
        a
    }

    /// Ring indices m(i,0,0), m(i,0,1), ..., m(i,3,1) for the K shell mapping
    /// bits as R0 of equation 9-7, below `values()`.
    #[must_use]
    pub fn map(&self, r0: u64) -> (rings: [u8; 8])
        requires
            self.valid(),
            r0 < pow(self.m(), 8),
        ensures
            shell(self.m(), rings@),
            shell_rank(self.m(), rings@) == r0,
            rings@ == shell_of(self.m(), r0 as int),
    {
        let ghost m = self.m();
        let ghost g = quads(m);
        proof {
            lemma_quads_facts(m);
            lemma_octets_facts(m);
            lemma_eighth_power_fits(m);
        }
        let a = self.total(r0);
        proof {
            lemma_prefix_monotone(octets(m), a + 1, 8 * m - 7);
            lemma_prefix_monotone(octets(m), 0, a as int);
            assert(octets(m)(a as int) == convolved(g, a as int));
        }
        let (b, r1) = largest(self.g4.as_slice(), a, r0 - self.z8[a], Ghost(g));
        let g4_b: u64 = at(self.g4.as_slice(), b, Ghost(g));
        proof {
            lemma_divided(r1 as int, g(b as int), g(a - b));
        }
        let first = self.quad(b, r1 % g4_b);
        let second = self.quad(a - b, r1 / g4_b);
        let rings: [u8; 8] = [
            first[0],
            first[1],
            first[2],
            first[3],
            second[0],
            second[1],
            second[2],
            second[3],
        ];
        proof {
            assert(rings@.take(4) =~= first@);
            assert(rings@.skip(4) =~= second@);
            assert forall|i: int| 0 <= i < 8 implies #[trigger] rings@[i] < m by {
                assert(rings@[i] == if i < 4 { first@[i] } else { second@[i - 4] });
            }
            assert(shell_rank(m, rings@) == r0);
            lemma_shell_of(m, rings@);
        }
        rings
    }

    /// The four rings of total `b` in place `rank`.
    fn quad(&self, b: usize, rank: u64) -> (rings: [u8; 4])
        requires
            self.valid(),
            b <= 8 * 255,
            rank < quads(self.m())(b as int),
        ensures
            forall|i: int| 0 <= i < 4 ==> #[trigger] rings@[i] < self.m(),
            quad_total(rings@) == b,
            quad_rank(self.m(), rings@) == rank,
    {
        let ghost m = self.m();
        let ghost f = pairs(m);
        proof {
            lemma_pairs_facts(m);
            lemma_quads_fit(m, b as int);
        }
        let (c, left) = largest(self.g2.as_slice(), b, rank, Ghost(f));
        let g2_c: u64 = at(self.g2.as_slice(), c, Ghost(f));
        proof {
            lemma_divided(left as int, f(c as int), f(b - c));
            assert(f(c as int) <= 255 && f(b - c) <= 255);
        }
        let first = pair(c, (left % g2_c) as usize, self.rings);
        let second = pair(b - c, (left / g2_c) as usize, self.rings);
        [first[0] as u8, first[1] as u8, second[0] as u8, second[1] as u8]
    }

    /// R0 for the eight ring indices that `map` gave.
    #[must_use]
    #[verifier::spinoff_prover]
    #[verifier::rlimit(40)]
    pub fn unmap(&self, rings: [u8; 8]) -> (r0: u64)
        requires
            self.valid(),
            shell(self.m(), rings@),
        ensures
            r0 == shell_rank(self.m(), rings@),
            r0 < pow(self.m(), 8),
    {
        let ghost m = self.m();
        let ghost f = pairs(m);
        let ghost g = quads(m);
        let ghost head = rings@.take(4);
        let ghost tail = rings@.skip(4);
        proof {
            assert(rings@[0] < m && rings@[1] < m && rings@[2] < m && rings@[3] < m);
            assert(rings@[4] < m && rings@[5] < m && rings@[6] < m && rings@[7] < m);
            lemma_pairs_facts(m);
            lemma_quads_facts(m);
            lemma_octets_facts(m);
            lemma_eighth_power_fits(m);
            lemma_quad_rank(m, head);
            lemma_quad_rank(m, tail);
            lemma_shell_rank(m, rings@);
        }
        let (c, e) = unpair(rings[0], rings[1], self.rings);
        let (b_less_c, h) = unpair(rings[2], rings[3], self.rings);
        let (d, k) = unpair(rings[4], rings[5], self.rings);
        let (rest, l) = unpair(rings[6], rings[7], self.rings);
        let b = c + b_less_c;
        let a = b + d + rest;
        proof {
            lemma_pair_rank(m, rings@[0] as int, rings@[1] as int);
            lemma_pair_rank(m, rings@[2] as int, rings@[3] as int);
            lemma_pair_rank(m, rings@[4] as int, rings@[5] as int);
            lemma_pair_rank(m, rings@[6] as int, rings@[7] as int);
            assert(b - c == b_less_c && a - b - d == rest);
            lemma_quads_fit(m, b as int);
            lemma_quads_fit(m, a - b);
            lemma_slice(f, b as int, c as int, e as int, h as int);
            lemma_slice(f, a - b, d as int, k as int, l as int);
            assert(octets(m)(a as int) == convolved(g, a as int));
            lemma_prefix_monotone(octets(m), 0, a as int);
            lemma_prefix_monotone(octets(m), a + 1, 8 * m - 7);
            lemma_products_nonnegative(f, b as int);
            lemma_prefix_monotone(products(f, b as int), 0, c as int);
            lemma_products_nonnegative(f, a - b);
            lemma_prefix_monotone(products(f, a - b), 0, d as int);
            lemma_products_nonnegative(g, a as int);
            lemma_prefix_monotone(products(g, a as int), 0, b as int);
            assert(h * f(c as int) >= 0) by (nonlinear_arith)
                requires
                    h >= 0,
                    f(c as int) >= 0,
            ;
            assert(l * f(d as int) >= 0) by (nonlinear_arith)
                requires
                    l >= 0,
                    f(d as int) >= 0,
            ;
        }
        let r4: u64 = h as u64 * at(self.g2.as_slice(), c, Ghost(f)) + e as u64;
        let r5: u64 = l as u64 * at(self.g2.as_slice(), d, Ghost(f)) + k as u64;
        let r2: u64 = r4 + below(self.g2.as_slice(), b, c, Ghost(f));
        let r3: u64 = r5 + below(self.g2.as_slice(), a - b, d, Ghost(f));
        assert(r2 == quad_rank(m, head));
        assert(r3 == quad_rank(m, tail));
        proof {
            lemma_slice(g, a as int, b as int, r2 as int, r3 as int);
            assert(r3 * g(b as int) >= 0) by (nonlinear_arith)
                requires
                    r3 >= 0,
                    g(b as int) >= 0,
            ;
        }
        let r1: u64 = r3 * at(self.g4.as_slice(), b, Ghost(g)) + r2;
        r1 + self.z8[a] + below(self.g4.as_slice(), a, b, Ghost(g))
    }
}

proof fn lemma_divided(value: int, low: int, high: int)
    requires
        0 <= value < low * high,
        low >= 0,
        high >= 0,
    ensures
        low > 0,
        0 <= value % low < low,
        0 <= value / low < high,
        value == value / low * low + value % low,
{
    assert(low > 0) by (nonlinear_arith)
        requires
            0 < low * high,
            low >= 0,
            high >= 0,
    ;
    vstd::arithmetic::div_mod::lemma_fundamental_div_mod(value, low);
    let q = value / low;
    assert(q * low == low * q) by (nonlinear_arith);
    assert(0 <= q < high) by (nonlinear_arith)
        requires
            0 <= value < low * high,
            value == low * q + value % low,
            0 <= value % low < low,
            low > 0,
    ;
}

proof fn lemma_quads_fit(m: int, p: int)
    requires
        1 <= m <= 255,
    ensures
        quads(m)(p) == convolved(pairs(m), p),
        0 <= quads(m)(p) <= u64::MAX,
{
    lemma_quads_facts(m);
    lemma_eighth_power(m);
    lemma_eighth_power_fits(m);
    let s = m * m;
    assert(s * s <= s * s * (s * s)) by (nonlinear_arith)
        requires
            s == m * m,
            m >= 1,
    ;
    if 0 <= p < 4 * m - 3 {
        lemma_prefix_monotone(quads(m), 0, p);
        lemma_prefix_monotone(quads(m), p + 1, 4 * m - 3);
    }
}

/// Of two pairs with one total, the one with the smaller first ring has the
/// lower place.
proof fn lemma_pair_order(m: int, r: (int, int), s: (int, int))
    requires
        0 <= r.0 < m,
        0 <= r.1 < m,
        0 <= s.0 < m,
        0 <= s.1 < m,
        r.0 + r.1 == s.0 + s.1,
        r.0 < s.0,
    ensures
        pair_rank(m, r.0, r.1) < pair_rank(m, s.0, s.1),
{
}

/// What stands in an earlier slice, or lower in the same one, has the lower
/// place.
proof fn lemma_slice_order(
    f: spec_fn(int) -> int,
    total: int,
    b: int,
    low: int,
    high: int,
    d: int,
    other_low: int,
    other_high: int,
)
    requires
        nonnegative(f),
        0 <= b <= total,
        0 <= d <= total,
        0 <= low < f(b),
        0 <= high < f(total - b),
        0 <= other_low < f(d),
        0 <= other_high < f(total - d),
        b < d || b == d && (high < other_high || high == other_high && low < other_low),
    ensures
        prefix(products(f, total), b) + high * f(b) + low < prefix(products(f, total), d) + other_high * f(d)
            + other_low,
{
    lemma_slice(f, total, b, low, high);
    lemma_slice(f, total, d, other_low, other_high);
    lemma_products_nonnegative(f, total);
    if b < d {
        lemma_prefix_monotone(products(f, total), b + 1, d);
        let y = f(d);
        assert(other_high * y >= 0) by (nonlinear_arith)
            requires
                other_high >= 0,
                y >= 0,
        ;
    } else if high < other_high {
        let x = f(b);
        assert(high * x + low < other_high * x + other_low) by (nonlinear_arith)
            requires
                high < other_high,
                0 <= low < x,
                0 <= other_low,
        ;
    }
}

proof fn lemma_quad_order(m: int, r: Seq<u8>, s: Seq<u8>)
    requires
        r.len() == 4,
        s.len() == 4,
        forall|i: int| 0 <= i < 4 ==> #[trigger] r[i] < m,
        forall|i: int| 0 <= i < 4 ==> #[trigger] s[i] < m,
        r[0] + r[1] + r[2] + r[3] == s[0] + s[1] + s[2] + s[3],
        r[0] + r[1] < s[0] + s[1] || r[0] + r[1] == s[0] + s[1] && (r[2] < s[2] || r[2] == s[2] && r[0] < s[0]),
    ensures
        quad_rank(m, r) < quad_rank(m, s),
{
    assert(r[0] < m && r[1] < m && r[2] < m && r[3] < m);
    assert(s[0] < m && s[1] < m && s[2] < m && s[3] < m);
    lemma_pairs_facts(m);
    let b = quad_total(r);
    let c = r[0] + r[1];
    let d = s[0] + s[1];
    assert(b - c == r[2] + r[3] && b - d == s[2] + s[3]);
    lemma_pair_rank(m, r[0] as int, r[1] as int);
    lemma_pair_rank(m, r[2] as int, r[3] as int);
    lemma_pair_rank(m, s[0] as int, s[1] as int);
    lemma_pair_rank(m, s[2] as int, s[3] as int);
    if c == d {
        if r[2] < s[2] {
            lemma_pair_order(m, (r[2] as int, r[3] as int), (s[2] as int, s[3] as int));
        } else {
            assert(r[3] == s[3]);
            lemma_pair_order(m, (r[0] as int, r[1] as int), (s[0] as int, s[1] as int));
        }
    }
    lemma_slice_order(
        pairs(m),
        b,
        c,
        pair_rank(m, r[0] as int, r[1] as int),
        pair_rank(m, r[2] as int, r[3] as int),
        d,
        pair_rank(m, s[0] as int, s[1] as int),
        pair_rank(m, s[2] as int, s[3] as int),
    );
}

/// The order in which § 9.4 numbers the 8-tuples: by their total, then by
/// the total of the first four, then by the second four, then by the first
/// four. Four rings of one total go by the total of their first pair, then
/// by the second pair, then by the first pair, and a pair of one total by
/// its first ring.
pub proof fn law_the_order_of_the_shells(m: int, r: Seq<u8>, s: Seq<u8>)
    requires
        m >= 1,
        shell(m, r),
        shell(m, s),
    ensures
        ({
            let t = r[0] + r[1] + r[2] + r[3] + r[4] + r[5] + r[6] + r[7];
            let u = s[0] + s[1] + s[2] + s[3] + s[4] + s[5] + s[6] + s[7];
            let a = r[0] + r[1] + r[2] + r[3];
            let b = s[0] + s[1] + s[2] + s[3];
            &&& t < u ==> shell_rank(m, r) < shell_rank(m, s)
            &&& t == u && a < b ==> shell_rank(m, r) < shell_rank(m, s)
            &&& t == u && a == b && r[4] + r[5] < s[4] + s[5] ==> shell_rank(m, r) < shell_rank(m, s)
            &&& t == u && a == b && r[4] + r[5] == s[4] + s[5] && r[6] < s[6] ==> shell_rank(m, r) < shell_rank(m, s)
            &&& t == u && a == b && r[4] + r[5] == s[4] + s[5] && r[6] == s[6] && r[4] < s[4] ==> shell_rank(m, r)
                < shell_rank(m, s)
            &&& t == u && r.skip(4) == s.skip(4) && r[0] + r[1] < s[0] + s[1] ==> shell_rank(m, r) < shell_rank(m, s)
            &&& t == u && r.skip(4) == s.skip(4) && r[0] + r[1] == s[0] + s[1] && r[2] < s[2] ==> shell_rank(m, r)
                < shell_rank(m, s)
            &&& t == u && r.skip(4) == s.skip(4) && r[0] + r[1] == s[0] + s[1] && r[2] == s[2] && r[0] < s[0]
                ==> shell_rank(m, r) < shell_rank(m, s)
        }),
{
    let first = r.take(4);
    let second = r.skip(4);
    let other_first = s.take(4);
    let other_second = s.skip(4);
    lemma_shell_rank(m, r);
    lemma_shell_rank(m, s);
    lemma_quads_facts(m);
    lemma_octets_facts(m);
    lemma_quad_rank(m, first);
    lemma_quad_rank(m, second);
    lemma_quad_rank(m, other_first);
    lemma_quad_rank(m, other_second);
    let t = cost(r);
    let u = cost(s);
    let a = quad_total(first);
    let b = quad_total(other_first);
    assert(t - a == quad_total(second) && u - b == quad_total(other_second));
    assert(second == other_second ==> (forall|i: int| 0 <= i < 4 ==> #[trigger] r[i + 4] == second[i]));
    if t < u {
        lemma_prefix_monotone(octets(m), t + 1, u);
    } else if t == u {
        let low = quad_rank(m, first);
        let high = quad_rank(m, second);
        let other_low = quad_rank(m, other_first);
        let other_high = quad_rank(m, other_second);
        if a < b {
            lemma_slice_order(quads(m), t, a, low, high, b, other_low, other_high);
        } else if a == b && (r[4] + r[5] < s[4] + s[5] || r[4] + r[5] == s[4] + s[5] && (r[6] < s[6] || r[6] == s[6]
            && r[4] < s[4])) {
            lemma_quad_order(m, second, other_second);
            lemma_slice_order(quads(m), t, a, low, high, b, other_low, other_high);
        }
        if second == other_second && (r[0] + r[1] < s[0] + s[1] || r[0] + r[1] == s[0] + s[1] && (r[2] < s[2]
            || r[2] == s[2] && r[0] < s[0])) {
            lemma_quad_order(m, first, other_first);
            lemma_slice_order(quads(m), t, a, low, high, b, other_low, other_high);
        }
    }
}

} // verus!

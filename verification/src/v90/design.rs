//! What the analogue modem asks the digital modem for: the DIL in Ja, and
//! the constellations in CPt and CP, from the levels that DIL showed.

use crate::v34::bits::{law_writes_back_what_it_reads, value_of};
use crate::v90::cp::{contains, Constellation, Cp};
use crate::v90::dil::Descriptor;
use crate::v90::encoder::{label_for, left_for, power_of_two};
use crate::v90::ucode::Law;
use vstd::arithmetic::div_mod::{
    lemma_div_denominator, lemma_fundamental_div_mod, lemma_fundamental_div_mod_converse,
};
use vstd::arithmetic::power2::{lemma2_to64_rest, lemma_pow2_strictly_increases, pow2};
use vstd::prelude::*;

verus! {

/// SP, the most table 12 allows.
pub const DIL_SIGN_BITS: usize = 128;

/// Uchords, the eight groups of 16 Ucodes.
pub const UCHORDS: usize = 8;

/// H1 to H8: segments of 120 symbols, shorter for the loud Uchords, down to
/// 24 at full scale.
pub const DIL_LENGTHS: [u8; 8] = [19, 19, 19, 19, 19, 9, 3, 3];

/// Uchord 8 comes once in DIL, its even Ucodes on the way up and its odd
/// ones on the way down.
pub const LOUDEST: u8 = 112;

/// CPt: 32 000 bit/s on 8 levels.
pub const TRAINING_BITS: usize = 24;

/// The bit that x¹⁶ + x¹⁴ + x¹³ + x¹¹ + 1 feeds back.
pub open spec fn feedback(register: u16) -> u16 {
    (register ^ register >> 2 ^ register >> 3 ^ register >> 5) & 1
}

/// The register after `n` steps.
pub open spec fn register_after(n: nat) -> u16
    decreases n,
{
    if n == 0 {
        0xACE1
    } else {
        let before = register_after((n - 1) as nat);
        before >> 1 | feedback(before) << 15
    }
}

pub open spec fn drawn(n: int) -> bool {
    feedback(register_after(n as nat)) == 1
}

/// Pseudo-random, the second and fourth frames the ones before inverted.
pub open spec fn dil_sign(k: int) -> bool {
    if 6 <= k < 12 || 18 <= k < 24 {
        !drawn(k - 6)
    } else {
        drawn(k)
    }
}

fn dil_signs() -> (signs: Vec<bool>)
    ensures
        signs@ == Seq::new(128, |k: int| dil_sign(k)),
{
    let mut register: u16 = 0xACE1;
    let mut bits: Vec<bool> = Vec::new();
    let mut k: usize = 0;
    while k < DIL_SIGN_BITS
        invariant
            k <= DIL_SIGN_BITS,
            bits.len() == k,
            register == register_after(k as nat),
            forall|i: int| 0 <= i < k ==> #[trigger] bits[i] == drawn(i),
        decreases DIL_SIGN_BITS - k,
    {
        let bit: u16 = (register ^ register >> 2 ^ register >> 3 ^ register >> 5) & 1;
        bits.push(bit == 1);
        register = register >> 1 | bit << 15;
        assert(register == register_after((k + 1) as nat)) by {
            assert((k + 1) as nat - 1 == k as nat);
        }
        k += 1;
    }
    let mut signs: Vec<bool> = Vec::new();
    let mut k: usize = 0;
    while k < DIL_SIGN_BITS
        invariant
            k <= DIL_SIGN_BITS == bits.len(),
            signs.len() == k,
            forall|i: int| 0 <= i < DIL_SIGN_BITS ==> #[trigger] bits[i] == drawn(i),
            forall|i: int| 0 <= i < k ==> #[trigger] signs[i] == dil_sign(i),
        decreases DIL_SIGN_BITS - k,
    {
        if (6 <= k && k < 12) || (18 <= k && k < 24) {
            signs.push(!bits[k - 6]);
        } else {
            signs.push(bits[k]);
        }
        k += 1;
    }
    assert(signs@ =~= Seq::new(128, |k: int| dil_sign(k)));
    signs
}

/// From `ucode` up to 127, the loudest Uchord's even Ucodes alone.
pub open spec fn up_from(ucode: int) -> Seq<u8> {
    if ucode <= 112 {
        Seq::new(
            (120 - ucode) as nat,
            |i: int|
                (if ucode + i < 112 {
                    ucode + i
                } else {
                    2 * (ucode + i) - 112
                }) as u8,
        )
    } else {
        Seq::new(((128 - ucode) / 2) as nat, |i: int| ((ucode + 1) / 2 * 2 + 2 * i) as u8)
    }
}

/// From 127 down to 0, the loudest Uchord's odd Ucodes alone.
pub open spec fn down() -> Seq<u8> {
    Seq::new(
        120,
        |i: int|
            (if i < 8 {
                127 - 2 * i
            } else {
                119 - i
            }) as u8,
    )
}

/// From 1 up to below `ucode`.
pub open spec fn back_up_to(ucode: int) -> Seq<u8> {
    Seq::new((ucode - 1) as nat, |i: int| (i + 1) as u8)
}

pub open spec fn training_ucodes(uinfo: int) -> Seq<u8> {
    up_from(uinfo) + down() + back_up_to(uinfo)
}

/// UINFO as the descriptor uses it: a Ucode that is not 0.
pub open spec fn level_of(uinfo: u8) -> int {
    if uinfo < 1 {
        1
    } else if uinfo > 127 {
        127
    } else {
        uinfo as int
    }
}

/// The DIL this modem asks for: every Ucode, with each sign at least twice
/// in each data frame interval. The Ucodes go from UINFO up to 127, down to
/// 0 and back up to UINFO, so the level never jumps, and TRN1d before it and
/// Ri after it are near UINFO too. The loud Uchords have short segments.
#[must_use]
pub fn descriptor(uinfo: u8) -> (descriptor: Descriptor)
    ensures
        descriptor.valid(),
        descriptor.can_be_sent(),
        descriptor.signs@ == Seq::new(128, |k: int| dil_sign(k)),
        descriptor.pattern@ == seq![true],
        descriptor.lengths@ == DIL_LENGTHS@,
        forall|c: int| 0 <= c < 8 ==> #[trigger] descriptor.references@[c] == level_of(uinfo),
        descriptor.training@ == training_ucodes(level_of(uinfo)),
{
    let uinfo = if uinfo < 1 {
        1
    } else if uinfo > 127 {
        127
    } else {
        uinfo
    };
    let mut training: Vec<u8> = Vec::new();
    let ghost whole = training_ucodes(uinfo as int);
    let ghost rise = up_from(uinfo as int);
    let mut u: u8 = uinfo;
    while u < LOUDEST
        invariant
            1 <= uinfo <= u <= 127,
            uinfo <= 112 ==> u <= 112,
            uinfo > 112 ==> u == uinfo,
            rise == up_from(uinfo as int),
            training.len() == (if uinfo <= 112 {
                u - uinfo
            } else {
                0
            }),
            training.len() <= rise.len(),
            training@ == rise.take(training.len() as int),
        decreases 112 - u,
    {
        training.push(u);
        assert(training@ =~= rise.take(training.len() as int));
        u += 1;
    }
    if u % 2 == 1 {
        u += 1;
    }
    while u < 128
        invariant
            1 <= uinfo <= 127,
            u <= 128,
            u % 2 == 0,
            rise == up_from(uinfo as int),
            uinfo <= 112 ==> u >= 112 && training.len() == (112 - uinfo) + (u - 112) / 2,
            uinfo > 112 ==> u >= uinfo && training.len() == (u - uinfo) / 2,
            training.len() <= rise.len(),
            training@ == rise.take(training.len() as int),
        decreases 128 - u,
    {
        training.push(u);
        assert(training@ =~= rise.take(training.len() as int));
        u += 2;
    }
    assert(training@ =~= rise);
    let mut n: u8 = 0;
    while n < 120
        invariant
            n <= 120,
            training@ == rise + down().take(n as int),
        decreases 120 - n,
    {
        training.push(
            if n < 8 {
                127 - 2 * n
            } else {
                119 - n
            },
        );
        assert(training@ =~= rise + down().take(n + 1));
        n += 1;
    }
    assert(training@ =~= rise + down());
    let ghost so_far = training@;
    let mut u: u8 = 1;
    while u < uinfo
        invariant
            1 <= u <= uinfo <= 127,
            training@ == so_far + back_up_to(uinfo as int).take(u - 1),
        decreases uinfo - u,
    {
        training.push(u);
        assert(training@ =~= so_far + back_up_to(uinfo as int).take(u as int));
        u += 1;
    }
    assert(back_up_to(uinfo as int).take(uinfo - 1) =~= back_up_to(uinfo as int));
    let descriptor = Descriptor {
        signs: dil_signs(),
        pattern: vec![true],
        lengths: DIL_LENGTHS,
        references: [uinfo, uinfo, uinfo, uinfo, uinfo, uinfo, uinfo, uinfo],
        training,
    };
    assert(descriptor.pattern@ =~= seq![true]);
    assert(descriptor.training@ == whole);
    proof {
        assert(whole.len() <= 247);
        assert forall|c: int| 0 <= c < 8 implies #[trigger] descriptor.lengths@[c] < 128 by {}
    }
    descriptor
}

/// At most two Ucodes apart.
pub open spec fn near(a: u8, b: u8) -> bool {
    -2 <= a - b <= 2
}

/// The DIL asks for every Ucode.
pub proof fn law_asks_for_every_ucode(uinfo: int, ucode: u8)
    requires
        1 <= uinfo <= 127,
        ucode < 128,
    ensures
        training_ucodes(uinfo).contains(ucode),
{
    let up = up_from(uinfo);
    let all = training_ucodes(uinfo);
    let after_up = up.len() as int;
    if ucode < LOUDEST {
        assert(all[after_up + 119 - ucode] == ucode);
    } else if ucode % 2 == 1 {
        assert(all[after_up + (127 - ucode) / 2] == ucode);
    } else if ucode < uinfo {
        assert(all[after_up + 120 + ucode - 1] == ucode);
    } else if uinfo <= 112 {
        assert(all[112 - uinfo + (ucode - 112) / 2] == ucode);
    } else {
        assert(all[(ucode - uinfo) / 2] == ucode);
    }
}

/// The DIL moves through the Ucodes in steps of at most two, and ends near
/// UINFO.
pub proof fn law_moves_through_the_ucodes_in_small_steps(uinfo: int, i: int)
    requires
        1 <= uinfo <= 127,
        0 <= i < training_ucodes(uinfo).len() - 1,
    ensures
        near(training_ucodes(uinfo)[i], training_ucodes(uinfo)[i + 1]),
        training_ucodes(uinfo)[0] <= uinfo + 1,
        training_ucodes(uinfo)[0] >= uinfo,
        training_ucodes(uinfo).last() == uinfo - 1,
{
}

/// Where UINFO is below the loudest Uchord, each of its Ucodes comes once.
pub proof fn law_keeps_the_loud_part_short(uinfo: int, i: int, j: int)
    requires
        1 <= uinfo <= 112,
        0 <= i < j < training_ucodes(uinfo).len(),
        training_ucodes(uinfo)[i] >= LOUDEST,
    ensures
        training_ucodes(uinfo)[j] != training_ucodes(uinfo)[i],
{
}

/// Each data frame interval has each sign at least twice in every segment,
/// as the first two frames have opposite signs, and the next two, and no
/// segment is shorter than four frames.
pub proof fn law_asks_for_each_sign_twice_in_each_interval(interval: int, c: int)
    requires
        0 <= interval < 6,
        0 <= c < 8,
    ensures
        (DIL_LENGTHS@[c] + 1) * 6 >= 24,
        dil_sign(interval) != dil_sign(interval + 6),
        dil_sign(interval + 12) != dil_sign(interval + 18),
{
}

/// The digit of interval `n` when the modulus encoder takes `value` with
/// sets of `sizes` labels, where a set without labels takes nothing.
pub open spec fn digit(sizes: Seq<usize>, value: int, n: int) -> int {
    (value / weight(sizes, n)) % at_least_one(sizes[n] as int)
}

pub open spec fn at_least_one(size: int) -> int {
    if size < 1 {
        1
    } else {
        size
    }
}

/// What one step of the label of interval `n` is worth.
pub open spec fn weight(sizes: Seq<usize>, n: int) -> int
    decreases n,
{
    if n <= 0 {
        1
    } else {
        weight(sizes, n - 1) * at_least_one(sizes[n - 1] as int)
    }
}

/// How many numbers below `total` have the digit `label`.
pub open spec fn reached(sizes: Seq<usize>, total: int, n: int, label: int) -> int
    decreases total,
{
    if total <= 0 {
        0
    } else {
        reached(sizes, total - 1, n, label) + if digit(sizes, total - 1, n) == label {
            1int
        } else {
            0int
        }
    }
}

proof fn lemma_weight(sizes: Seq<usize>, n: int)
    requires
        forall|i: int| 0 <= i < n ==> #[trigger] sizes[i] <= 256,
        0 <= n <= 6,
    ensures
        1 <= weight(sizes, n) <= heaviest(n),
    decreases n,
{
    if n > 0 {
        lemma_weight(sizes, n - 1);
        let size = at_least_one(sizes[n - 1] as int);
        let before = weight(sizes, n - 1);
        assert(1 <= before * size <= heaviest(n - 1) * 256) by (nonlinear_arith)
            requires
                1 <= before <= heaviest(n - 1),
                1 <= size <= 256,
        ;
    }
}

/// 256 to the power of `n`.
spec fn heaviest(n: int) -> int
    decreases n,
{
    if n <= 0 {
        1
    } else {
        heaviest(n - 1) * 256
    }
}

/// What is left of a number is its part above the weight, and so the
/// labels of the modulus encoder are the digits.
pub proof fn law_labels_are_digits(sets: Seq<Vec<u8>>, sizes: Seq<usize>, value: int, n: int)
    requires
        value >= 0,
        0 <= n < 6,
        sets.len() == 6,
        sizes == Seq::new(6, |i: int| sets[i].len()),
    ensures
        left_for(sets, value, n) == value / weight(sizes, n),
        label_for(sets, value, n) == digit(sizes, value, n),
    decreases n,
{
    if n > 0 {
        law_labels_are_digits(sets, sizes, value, n - 1);
        lemma_weight_positive(sizes, n - 1);
        lemma_div_denominator(
            value,
            weight(sizes, n - 1),
            at_least_one(sizes[n - 1] as int),
        );
    }
}

proof fn lemma_weight_positive(sizes: Seq<usize>, n: int)
    ensures
        weight(sizes, n) >= 1,
    decreases n,
{
    if n > 0 {
        lemma_weight_positive(sizes, n - 1);
        let size = at_least_one(sizes[n - 1] as int);
        let before = weight(sizes, n - 1);
        assert(before * size >= 1) by (nonlinear_arith)
            requires
                before >= 1,
                size >= 1,
        ;
    }
}

/// The count of § 8.5.2, by how `label` compares with the digit of the
/// largest number.
pub open spec fn uses(weight: int, size: int, total: int, label: int) -> int {
    let remainder = (total - 1) / weight;
    let next = remainder / size;
    if label < remainder % size {
        weight * (next + 1)
    } else if label == remainder % size {
        total - weight * (remainder - next)
    } else {
        weight * next
    }
}

proof fn lemma_uses_step(weight: int, size: int, total: int, label: int)
    requires
        weight >= 1,
        size >= 1,
        total >= 1,
        0 <= label < size,
    ensures
        uses(weight, size, total + 1, label) == uses(weight, size, total, label) + if (total
            / weight) % size == label {
            1int
        } else {
            0int
        },
{
    let r = (total - 1) / weight;
    let next = r / size;
    let digit = r % size;
    lemma_fundamental_div_mod(total - 1, weight);
    lemma_fundamental_div_mod(r, size);
    let rest = (total - 1) % weight;
    assert(total - 1 == weight * r + rest && 0 <= rest < weight);
    assert(r == size * next + digit && 0 <= digit < size);
    if rest + 1 < weight {
        lemma_fundamental_div_mod_converse(total, weight, r, rest + 1);
    } else {
        assert(weight * (r + 1) == weight * r + weight) by (nonlinear_arith);
        lemma_fundamental_div_mod_converse(total, weight, r + 1, 0);
        if digit + 1 < size {
            lemma_fundamental_div_mod_converse(r + 1, size, next, digit + 1);
            assert(weight * (next + 1) == weight * next + weight) by (nonlinear_arith);
            assert(weight * (r - next) == weight * r - weight * next) by (nonlinear_arith);
            assert(weight * (r + 1 - next) == weight * r + weight - weight * next)
                by (nonlinear_arith);
        } else {
            assert(size * (next + 1) == size * next + size) by (nonlinear_arith);
            lemma_fundamental_div_mod_converse(r + 1, size, next + 1, 0);
            assert(weight * (next + 1) == weight * next + weight) by (nonlinear_arith);
            assert(weight * (r - next) == weight * r - weight * next) by (nonlinear_arith);
            assert(weight * (r + 1 - (next + 1)) == weight * r - weight * next)
                by (nonlinear_arith);
            if label != 0 {
                assert(label <= digit);
            }
        }
    }
}

/// The closed form counts the labels as the modulus encoder reaches them.
pub proof fn law_counts_the_labels_as_the_modulus_encoder_reaches_them(
    sizes: Seq<usize>,
    total: int,
    n: int,
    label: int,
)
    requires
        sizes.len() == 6,
        0 <= n < 6,
        total >= 1,
        0 <= label < at_least_one(sizes[n] as int),
    ensures
        reached(sizes, total, n, label) == uses(
            weight(sizes, n),
            at_least_one(sizes[n] as int),
            total,
            label,
        ),
    decreases total,
{
    let w = weight(sizes, n);
    let size = at_least_one(sizes[n] as int);
    lemma_weight_positive(sizes, n);
    if total == 1 {
        lemma_fundamental_div_mod_converse(0, w, 0, 0);
        lemma_fundamental_div_mod_converse(0, size, 0, 0);
        assert(reached(sizes, 0, n, label) == 0);
        assert(w * 0 == 0);
    } else {
        law_counts_the_labels_as_the_modulus_encoder_reaches_them(sizes, total - 1, n, label);
        lemma_uses_step(w, size, total - 1, label);
    }
}

/// How often each label of each interval comes over all the numbers that K
/// bits can write, as § 8.5.2 counts them, when the sets have `sizes`
/// labels.
#[must_use]
pub fn label_uses(sizes: [usize; 6], modulus_bits: usize) -> (counts: Vec<Vec<u128>>)
    requires
        modulus_bits < 64,
        forall|i: int| 0 <= i < 6 ==> #[trigger] sizes@[i] <= 256,
    ensures
        counts.len() == 6,
        forall|n: int| 0 <= n < 6 ==> (#[trigger] counts[n])@.len() == sizes@[n],
        forall|n: int, label: int|
            0 <= n < 6 && 0 <= label < sizes@[n] ==> #[trigger] counts[n]@[label] == reached(
                sizes@,
                pow2(modulus_bits as nat) as int,
                n,
                label,
            ),
{
    let total = power_of_two(modulus_bits);
    proof {
        vstd::arithmetic::power2::lemma_pow2_pos(modulus_bits as nat);
        lemma2_to64_rest();
        lemma_pow2_strictly_increases(modulus_bits as nat, 64);
        lemma_weight(sizes@, 6);
        reveal_with_fuel(heaviest, 7);
    }
    let mut counts: Vec<Vec<u128>> = Vec::new();
    let mut remainder: u128 = total - 1;
    let mut weight_here: u128 = 1;
    let mut n: usize = 0;
    proof {
        lemma_fundamental_div_mod_converse(total - 1, 1, total - 1, 0);
    }
    while n < 6
        invariant
            n <= 6,
            1 <= total == pow2(modulus_bits as nat) < 0x1_0000_0000_0000_0000,
            forall|i: int| 0 <= i < 6 ==> #[trigger] sizes@[i] <= 256,
            weight_here == weight(sizes@, n as int),
            1 <= weight_here <= heaviest(n as int),
            heaviest(n as int) <= 0x1_0000_0000_0000,
            remainder == (total - 1) / weight_here as int,
            counts.len() == n,
            forall|m: int| 0 <= m < n ==> (#[trigger] counts[m])@.len() == sizes@[m],
            forall|m: int, label: int|
                0 <= m < n && 0 <= label < sizes@[m] ==> #[trigger] counts[m]@[label] == reached(
                    sizes@,
                    total as int,
                    m,
                    label,
                ),
        decreases 6 - n,
    {
        let size: u128 = if sizes[n] < 1 {
            1
        } else {
            sizes[n] as u128
        };
        let label = remainder % size;
        let next = remainder / size;
        proof {
            lemma_weight(sizes@, n + 1);
            reveal_with_fuel(heaviest, 7);
            lemma_fundamental_div_mod(total - 1, weight_here as int);
            lemma_fundamental_div_mod(remainder as int, size as int);
            lemma_bounds(
                weight_here as int,
                size as int,
                remainder as int,
                next as int,
                label as int,
                total as int,
            );
        }
        let mut here: Vec<u128> = Vec::new();
        let mut j: usize = 0;
        while j < sizes[n]
            invariant
                n < 6,
                j <= sizes@[n as int] <= 256,
                here.len() == j,
                size == at_least_one(sizes@[n as int] as int),
                weight_here == weight(sizes@, n as int),
                1 <= weight_here,
                1 <= total < 0x1_0000_0000_0000_0000,
                remainder == (total - 1) / weight_here as int,
                label == remainder % size,
                next == remainder / size,
                next <= remainder,
                weight_here * (next + 1) <= u128::MAX,
                weight_here * next <= u128::MAX,
                0 <= weight_here * (remainder - next) <= total,
                forall|k: int|
                    0 <= k < j ==> #[trigger] here[k] == reached(
                        sizes@,
                        total as int,
                        n as int,
                        k,
                    ),
            decreases sizes@[n as int] - j,
        {
            proof {
                law_counts_the_labels_as_the_modulus_encoder_reaches_them(
                    sizes@,
                    total as int,
                    n as int,
                    j as int,
                );
            }
            let at = j as u128;
            here.push(
                if at < label {
                    weight_here * (next + 1)
                } else if at == label {
                    total - weight_here * (remainder - next)
                } else {
                    weight_here * next
                },
            );
            j += 1;
        }
        counts.push(here);
        proof {
            lemma_div_denominator(total - 1, weight_here as int, size as int);
        }
        weight_here = weight_here * size;
        remainder = next;
        n += 1;
    }
    counts
}

proof fn lemma_bounds(weight: int, size: int, remainder: int, next: int, label: int, total: int)
    requires
        1 <= weight <= 0x1_0000_0000_0000,
        size >= 1,
        0 <= remainder,
        0 <= total < 0x1_0000_0000_0000_0000,
        weight * remainder <= total - 1,
        remainder == size * next + label,
        0 <= label < size,
        next == remainder / size,
    ensures
        0 <= next <= remainder,
        0 <= weight * next <= total,
        weight * (next + 1) <= 0x2_0000_0000_0000_0000,
        0 <= weight * (remainder - next) <= total,
{
    assert(0 <= next <= remainder) by (nonlinear_arith)
        requires
            remainder == size * next + label,
            0 <= label < size,
            size >= 1,
            remainder >= 0,
    ;
    assert(0 <= weight * next <= weight * remainder) by (nonlinear_arith)
        requires
            0 <= next <= remainder,
            weight >= 1,
    ;
    assert(weight * (next + 1) == weight * next + weight) by (nonlinear_arith);
    assert(weight * (remainder - next) == weight * remainder - weight * next) by (nonlinear_arith);
}

/// `levels` to the sixth power.
pub open spec fn sixth(levels: int) -> int {
    levels * levels * levels * levels * levels * levels
}

/// The least number of levels whose six intervals carry K bits.
#[must_use]
pub fn levels_for(modulus_bits: usize) -> (levels: usize)
    requires
        modulus_bits < 64,
    ensures
        1 <= levels <= 2048,
        sixth(levels as int) >= pow2(modulus_bits as nat),
        sixth(levels - 1) < pow2(modulus_bits as nat),
{
    let total = power_of_two(modulus_bits);
    proof {
        vstd::arithmetic::power2::lemma_pow2_pos(modulus_bits as nat);
        lemma2_to64_rest();
        lemma_pow2_strictly_increases(modulus_bits as nat, 64);
    }
    let mut levels: u128 = 1;
    loop
        invariant
            1 <= levels <= 2048,
            total == pow2(modulus_bits as nat),
            1 <= total < 0x1_0000_0000_0000_0000,
            sixth(levels - 1) < total,
        decreases 2049 - levels,
    {
        assert(levels * levels <= 0x40_0000) by (nonlinear_arith)
            requires
                1 <= levels <= 2048,
        ;
        let square: u128 = levels * levels;
        assert(square * square <= 0x1000_0000_0000) by (nonlinear_arith)
            requires
                0 <= square <= 0x40_0000,
        ;
        let fourth: u128 = square * square;
        assert(fourth * square <= 0x4_0000_0000_0000_0000) by (nonlinear_arith)
            requires
                0 <= square <= 0x40_0000,
                0 <= fourth <= 0x1000_0000_0000,
        ;
        assert(fourth * square == sixth(levels as int)) by (nonlinear_arith)
            requires
                square == levels * levels,
                fourth == square * square,
        ;
        if fourth * square >= total {
            return levels as usize;
        }
        if levels == 2048 {
            assert(sixth(2048) == 0x4_0000_0000_0000_0000) by (nonlinear_arith);
            assert(false);
        }
        levels += 1;
    }
}

/// The constellation with the Ucodes of a set.
pub open spec fn mask_of(set: Seq<u8>) -> Constellation {
    value_of(Seq::new(128, |u: int| set.contains(u as u8))) as u128
}

/// A constellation has the Ucodes that it was made of, and no others.
pub proof fn law_masks_hold_their_ucodes(set: Seq<u8>, ucode: u8)
    requires
        ucode < 128,
    ensures
        contains(mask_of(set), ucode as int) == set.contains(ucode),
{
    let bits = Seq::new(128, |u: int| set.contains(u as u8));
    law_writes_back_what_it_reads(bits);
    lemma_pow2_128();
}

proof fn lemma_pow2_128()
    ensures
        pow2(128) == u128::MAX + 1,
{
    lemma2_to64_rest();
    vstd::arithmetic::power2::lemma_pow2_adds(64, 64);
}

fn mask(set: &Vec<u8>) -> (mask: Constellation)
    ensures
        mask == mask_of(set@),
{
    let ghost bits = Seq::new(128, |u: int| set@.contains(u as u8));
    let mut mask: u128 = 0;
    let mut left: u8 = 128;
    proof {
        reveal(value_of);
        assert(bits.skip(128) =~= Seq::<bool>::empty());
    }
    while left > 0
        invariant
            left <= 128,
            bits == Seq::new(128, |u: int| set@.contains(u as u8)),
            mask == value_of(bits.skip(left as int)),
        decreases left,
    {
        left -= 1;
        let bit: u128 = if has(set, left) {
            1
        } else {
            0
        };
        proof {
            let rest = bits.skip(left as int);
            reveal(value_of);
            assert(rest.skip(1) =~= bits.skip(left + 1));
            law_writes_back_what_it_reads(rest);
            lemma_pow2_128();
            if left > 0 {
                lemma_pow2_strictly_increases((128 - left) as nat, 128);
            }
            assert(value_of(rest) == bit + 2 * mask);
        }
        mask = bit + 2 * mask;
    }
    assert(bits.skip(0) =~= bits);
    mask
}

fn has(set: &Vec<u8>, ucode: u8) -> (has: bool)
    ensures
        has == set@.contains(ucode),
{
    let mut i: usize = 0;
    while i < set.len()
        invariant
            i <= set.len(),
            forall|k: int| 0 <= k < i ==> set[k] != ucode,
        decreases set.len() - i,
    {
        if set[i] == ucode {
            return true;
        }
        i += 1;
    }
    false
}

/// The values of `all`, each where it first comes.
pub open spec fn firsts(all: Seq<Constellation>) -> Seq<Constellation>
    decreases all.len(),
{
    if all.len() == 0 {
        seq![]
    } else if firsts(all.drop_last()).contains(all.last()) {
        firsts(all.drop_last())
    } else {
        firsts(all.drop_last()).push(all.last())
    }
}

pub open spec fn masks_of(sets: Seq<Vec<u8>>) -> Seq<Constellation> {
    Seq::new(sets.len(), |i: int| mask_of(sets[i]@))
}

fn place(all: &Vec<Constellation>, constellation: Constellation) -> (place: Option<usize>)
    ensures
        match place {
            Some(i) => i < all.len() && all@[i as int] == constellation && forall|k: int|
                0 <= k < i ==> all@[k] != constellation,
            None => !all@.contains(constellation),
        },
{
    let mut i: usize = 0;
    while i < all.len()
        invariant
            i <= all.len(),
            forall|k: int| 0 <= k < i ==> all@[k] != constellation,
        decreases all.len() - i,
    {
        if all[i] == constellation {
            return Some(i);
        }
        i += 1;
    }
    None
}

/// CP for D = `bits`, or CPt, that asks for `sets` in the intervals and no
/// shaping. Each constellation is in it once.
#[must_use]
pub fn cp(
    sets: &[Vec<u8>; 6],
    bits: usize,
    training: bool,
    law: Law,
    upstream_rates: u16,
) -> (cp: Cp)
    requires
        bits >= if training {
            8int
        } else {
            20int
        },
    ensures
        cp.whole(),
        cp.training == training,
        cp.rate == (if bits - (if training {
            8int
        } else {
            20int
        }) <= 255 {
            bits - (if training {
                8int
            } else {
                20int
            })
        } else {
            0
        }),
        !cp.silence,
        cp.redundancy == 0,
        !cp.acknowledge,
        cp.law == law,
        cp.upstream_rates == upstream_rates,
        cp.lookahead == 0,
        cp.rms_ratio == 0x2000,
        cp.filter@ == seq![0i8, 0, 0, 0],
        cp.at_codec is None,
        cp.constellations@ == firsts(masks_of(sets@)),
        forall|i: int|
            0 <= i < 6 ==> cp.intervals@[i] < cp.constellations@.len()
                && #[trigger] cp.spec_constellation(i) == mask_of(sets@[i]@),
{
    let offset: usize = if training {
        8
    } else {
        20
    };
    let mut constellations: Vec<Constellation> = Vec::new();
    let mut intervals: [u8; 6] = [0, 0, 0, 0, 0, 0];
    let ghost all = masks_of(sets@);
    let mut n: usize = 0;
    assert(all.take(0) =~= Seq::<Constellation>::empty());
    while n < 6
        invariant
            n <= 6,
            all == masks_of(sets@),
            constellations@ == firsts(all.take(n as int)),
            constellations.len() <= n,
            forall|i: int|
                0 <= i < n ==> #[trigger] intervals@[i] < constellations@.len()
                    && constellations@[intervals@[i] as int] == all[i],
            constellations.len() > 0 ==> exists|i: int|
                0 <= i < n && #[trigger] intervals@[i] == constellations.len() - 1,
            n > 0 ==> constellations.len() > 0,
        decreases 6 - n,
    {
        let ghost before = intervals@;
        let constellation = mask(&sets[n]);
        assert(constellation == all[n as int]);
        assert(all.take(n + 1).drop_last() =~= all.take(n as int));
        let found = place(&constellations, constellation);
        let index = match found {
            Some(index) => index,
            None => {
                constellations.push(constellation);
                constellations.len() - 1
            },
        };
        intervals[n] = index as u8;
        proof {
            assert(constellations@[index as int] == all[n as int]);
            assert forall|i: int| 0 <= i < n + 1 implies #[trigger] intervals@[i]
                < constellations@.len() && constellations@[intervals@[i] as int] == all[i] by {
                if i < n {
                    assert(intervals@[i] == before[i]);
                }
            }
            if index == constellations.len() - 1 {
                assert(intervals@[n as int] == constellations.len() - 1);
            } else {
                let i = choose|i: int|
                    0 <= i < n && #[trigger] before[i] == constellations.len() - 1;
                assert(intervals@[i] == before[i]);
            }
        }
        n += 1;
    }
    assert(all.take(6) =~= all);
    let rate = if bits - offset <= 255 {
        (bits - offset) as u8
    } else {
        0
    };
    let cp = Cp {
        training,
        rate,
        silence: false,
        redundancy: 0,
        acknowledge: false,
        law,
        upstream_rates,
        lookahead: 0,
        rms_ratio: 0x2000,
        filter: [0, 0, 0, 0],
        intervals,
        constellations,
        at_codec: None,
    };
    proof {
        let top = choose|i: int|
            0 <= i < 6 && #[trigger] cp.intervals@[i] == cp.constellations.len() - 1;
        assert(cp.intervals@[0] <= cp.constellations.len() - 1);
        assert(cp.intervals@[1] <= cp.constellations.len() - 1);
        assert(cp.intervals@[2] <= cp.constellations.len() - 1);
        assert(cp.intervals@[3] <= cp.constellations.len() - 1);
        assert(cp.intervals@[4] <= cp.constellations.len() - 1);
        assert(cp.intervals@[5] <= cp.constellations.len() - 1);
        assert(top == 0 || top == 1 || top == 2 || top == 3 || top == 4 || top == 5);
        assert(cp.filter@ =~= seq![0i8, 0, 0, 0]);
    }
    cp
}

/// The mapping of the CP that asks for `sets` gives each interval the
/// Ucodes of its set.
pub proof fn law_cp_asks_for_its_sets(cp: Cp, sets: Seq<Vec<u8>>, interval: int, ucode: u8)
    requires
        0 <= interval < 6,
        ucode < 128,
        cp.spec_constellation(interval) == mask_of(sets[interval]@),
    ensures
        crate::v90::cp::spec_labels(cp.spec_constellation(interval)).contains(ucode)
            == sets[interval]@.contains(ucode),
{
    law_masks_hold_their_ucodes(sets[interval]@, ucode);
    crate::v90::cp::law_labels_from_the_largest_ucode_down(cp.spec_constellation(interval));
}

/// The Ucodes that DIL goes through, one by one: from UINFO up, the loudest
/// Uchord by its even Ucodes, back down by its odd ones to 0, and up again to
/// just below UINFO.
pub proof fn law_the_order_of_the_training_ucodes(uinfo: int, i: int)
    requires
        1 <= uinfo <= 112,
        i >= 0,
    ensures
        ({
            let all = training_ucodes(uinfo);
            let up = 120 - uinfo;
            &&& all.len() == up + 120 + uinfo - 1
            &&& i < 112 - uinfo ==> all[i] == uinfo + i
            &&& i < 8 ==> all[112 - uinfo + i] == 112 + 2 * i
            &&& i < 8 ==> all[up + i] == 127 - 2 * i
            &&& i < 112 ==> all[up + 8 + i] == 111 - i
            &&& i < uinfo - 1 ==> all[up + 120 + i] == 1 + i
        }),
{
}

/// The same where UINFO is in the loudest Uchord: it goes up by even Ucodes
/// from UINFO, or the one after it.
pub proof fn law_the_order_from_a_loud_ucode(uinfo: int, i: int)
    requires
        112 < uinfo <= 127,
        i >= 0,
    ensures
        ({
            let all = training_ucodes(uinfo);
            let up = (128 - uinfo) / 2;
            &&& all.len() == up + 120 + uinfo - 1
            &&& i < up && uinfo % 2 == 0 ==> all[i] == uinfo + 2 * i
            &&& i < up && uinfo % 2 == 1 ==> all[i] == uinfo + 1 + 2 * i
            &&& i < 8 ==> all[up + i] == 127 - 2 * i
            &&& i < 112 ==> all[up + 8 + i] == 111 - i
            &&& i < uinfo - 1 ==> all[up + 120 + i] == 1 + i
        }),
{
}

/// The lengths of the segments: 120 symbols, 60 in the sixth Uchord and 24 in
/// the two loudest. UINFO counts as 1 where it is 0, and as 127 above that.
pub proof fn law_how_long_segments_are(c: int, uinfo: u8)
    requires
        0 <= c < 8,
    ensures
        c < 5 ==> 6 * (DIL_LENGTHS@[c] + 1) == 120,
        c == 5 ==> 6 * (DIL_LENGTHS@[c] + 1) == 60,
        c > 5 ==> 6 * (DIL_LENGTHS@[c] + 1) == 24,
        uinfo == 0 ==> level_of(uinfo) == 1,
        1 <= uinfo <= 127 ==> level_of(uinfo) == uinfo,
        uinfo > 127 ==> level_of(uinfo) == 127,
        DIL_SIGN_BITS == 128 && LOUDEST == 112 && UCHORDS == 8,
{
}

proof fn lemma_register_shifts(register: u16, next: u16)
    requires
        next == register >> 1 | feedback(register) << 15,
    ensures
        (next >> 15) & 1 == feedback(register),
        forall|i: u16| i < 15 ==> #[trigger] ((next >> i) & 1) == (register >> ((i + 1) as u16)) & 1,
{
    let bit: u16 = feedback(register);
    assert(bit == 0 || bit == 1) by {
        assert((register ^ register >> 2 ^ register >> 3 ^ register >> 5) & 1 == 0u16 || (register ^ register >> 2
            ^ register >> 3 ^ register >> 5) & 1 == 1u16) by (bit_vector);
    }
    assert((next >> 15) & 1 == bit) by (bit_vector)
        requires
            next == register >> 1 | bit << 15,
            bit == 0 || bit == 1,
    ;
    assert forall|i: u16| i < 15 implies #[trigger] ((next >> i) & 1) == (register >> ((i + 1) as u16)) & 1 by {
        assert((next >> i) & 1 == (register >> ((i + 1) as u16)) & 1) by (bit_vector)
            requires
                next == register >> 1 | bit << 15,
                i < 15,
        ;
    }
}

/// Digit `i` of the register is what was fed back 16 − `i` steps before.
proof fn lemma_register_holds(n: nat, i: u16)
    requires
        i < 16,
        n + i >= 16,
    ensures
        (register_after(n) >> i) & 1 == feedback(register_after((n + i - 16) as nat)),
    decreases 16 - i,
{
    let before = register_after((n - 1) as nat);
    lemma_register_shifts(before, register_after(n));
    if i < 15 {
        lemma_register_holds((n - 1) as nat, (i + 1) as u16);
    }
}

/// Each sign drawn is the sum of those 16, 14, 13 and 11 before it, as
/// x¹⁶ + x¹⁴ + x¹³ + x¹¹ + 1 has it, from a register of ACE1. The second and
/// the fourth six signs of DIL turn over those before them.
pub proof fn law_dil_signs_follow_their_polynomial(n: int)
    requires
        n >= 16,
    ensures
        drawn(n) == ((drawn(n - 16) != drawn(n - 14)) != (drawn(n - 13) != drawn(n - 11))),
        register_after(0) == 0xACE1,
        forall|k: int| 6 <= k < 12 || 18 <= k < 24 ==> #[trigger] dil_sign(k) == !drawn(k - 6),
        forall|k: int| 0 <= k < 6 || 12 <= k < 18 || k >= 24 ==> #[trigger] dil_sign(k) == drawn(k),
{
    let r = register_after(n as nat);
    lemma_register_holds(n as nat, 0);
    lemma_register_holds(n as nat, 2);
    lemma_register_holds(n as nat, 3);
    lemma_register_holds(n as nat, 5);
    assert(((r ^ r >> 2 ^ r >> 3 ^ r >> 5) & 1 == 1) == ((((r >> 0) & 1 == 1) != ((r >> 2) & 1 == 1)) != (((r >> 3) & 1
        == 1) != ((r >> 5) & 1 == 1)))) by (bit_vector);
}

/// The least number of levels for K bits is the first whose sixth power
/// reaches 2^K.
pub proof fn law_sixth_is_the_sixth_power(levels: int)
    ensures
        sixth(levels) == vstd::arithmetic::power::pow(levels, 6),
{
    reveal(vstd::arithmetic::power::pow);
    reveal_with_fuel(vstd::arithmetic::power::pow, 7);
    assert(levels * (levels * (levels * (levels * (levels * (levels * 1))))) == levels * levels * levels * levels * levels
        * levels) by (nonlinear_arith);
}

/// CP lists each constellation once, in the order of the intervals that first
/// have it.
pub proof fn law_each_constellation_is_listed_once(all: Seq<Constellation>)
    ensures
        firsts(all).no_duplicates(),
        forall|i: int| 0 <= i < all.len() ==> firsts(all).contains(#[trigger] all[i]),
        forall|c: Constellation| #[trigger] firsts(all).contains(c) ==> all.contains(c),
        all.len() > 0 && !all.drop_last().contains(all.last()) ==> firsts(all) == firsts(all.drop_last()).push(
            all.last(),
        ),
        all.len() > 0 && all.drop_last().contains(all.last()) ==> firsts(all) == firsts(all.drop_last()),
    decreases all.len(),
{
    if all.len() > 0 {
        let shorter = all.drop_last();
        let before = firsts(shorter);
        law_each_constellation_is_listed_once(shorter);
        if shorter.contains(all.last()) {
            let i = choose|i: int| 0 <= i < shorter.len() && shorter[i] == all.last();
            assert(before.contains(shorter[i]));
        }
        assert forall|i: int| 0 <= i < all.len() implies firsts(all).contains(#[trigger] all[i]) by {
            if i < all.len() - 1 {
                assert(before.contains(shorter[i]));
                let k = choose|k: int| 0 <= k < before.len() && before[k] == shorter[i];
                assert(firsts(all)[k] == all[i]);
            } else if !before.contains(all.last()) {
                assert(firsts(all)[before.len() as int] == all[i]);
            }
        }
        assert forall|c: Constellation| #[trigger] firsts(all).contains(c) implies all.contains(c) by {
            let k = choose|k: int| 0 <= k < firsts(all).len() && firsts(all)[k] == c;
            if k < before.len() {
                assert(before[k] == c && before.contains(c));
                let i = choose|i: int| 0 <= i < shorter.len() && shorter[i] == c;
                assert(all[i] == c);
            } else {
                assert(all[all.len() - 1] == c);
            }
        }
    }
}

} // verus!

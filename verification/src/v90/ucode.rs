//! The universal codes of table 1: one number for each positive PCM
//! codeword, in the order of its magnitude, for A-law and µ-law alike.

use vstd::arithmetic::power2::{lemma2_to64, lemma_pow2_strictly_increases, lemma_pow2_unfold, pow2};
use vstd::prelude::*;

verus! {

/// The Ucodes run from 0 to 127.
pub const COUNT: u8 = 128;

/// The PCM coding that the digital modem uses.
#[derive(Debug, Clone, Copy, PartialEq, Eq, Structural)]
pub enum Law {
    Mu,
    A,
}

impl Default for Law {
    fn default() -> (law: Self)
        ensures
            law == Self::A,
    {
        Self::A
    }
}

/// Table 1: the linear value of a positive codeword. Its top three bits are
/// the segment, the others the step within it.
pub open spec fn spec_linear(ucode: int, law: Law) -> int {
    let segment = ucode / 16;
    let step = ucode % 16;
    match law {
        Law::A => if segment == 0 {
            (2 * step + 1) * 8
        } else {
            (2 * step + 33) * 4 * pow2(segment as nat)
        },
        Law::Mu => ((2 * step + 33) * pow2(segment as nat) - 33) * 4,
    }
}

pub open spec fn spec_signed(ucode: int, positive: bool, law: Law) -> int {
    if positive {
        spec_linear(ucode, law)
    } else {
        -spec_linear(ucode, law)
    }
}

pub(crate) proof fn lemma_linear_fits(ucode: int, law: Law)
    requires
        0 <= ucode < 128,
    ensures
        0 <= spec_linear(ucode, law) <= 32_256,
        spec_linear(ucode, Law::A) >= 8,
        33 <= (2 * (ucode % 16) + 33) * pow2((ucode / 16) as nat) <= 8064,
        (2 * (ucode % 16) + 33) * 4 * pow2((ucode / 16) as nat) <= 32_256,
{
    let segment = (ucode / 16) as nat;
    let step = ucode % 16;
    let power = pow2(segment) as int;
    lemma2_to64();
    if segment < 7 {
        lemma_pow2_strictly_increases(segment, 7);
    }
    vstd::arithmetic::power2::lemma_pow2_pos(segment);
    let x = 2 * step + 33;
    assert(33 <= x * power <= 63 * 128) by (nonlinear_arith)
        requires
            33 <= x <= 63,
            1 <= power <= 128,
    ;
    assert(x * 4 * power == 4 * (x * power)) by (nonlinear_arith);
}

/// A larger Ucode is a larger level.
pub proof fn law_rises_with_the_ucode(ucode: int, other: int, law: Law)
    requires
        0 <= ucode < other < 128,
    ensures
        spec_linear(ucode, law) < spec_linear(other, law),
    decreases other - ucode,
{
    if ucode < other - 1 {
        law_rises_with_the_ucode(ucode, other - 1, law);
    }
    let low = other - 1;
    let segment = (low / 16) as nat;
    let step = low % 16;
    let power = pow2(segment) as int;
    vstd::arithmetic::power2::lemma_pow2_pos(segment);
    lemma2_to64();
    let x = 2 * step + 33;
    assert(x * 4 * power == 4 * (x * power)) by (nonlinear_arith);
    if step < 15 {
        assert(other as int / 16 == segment && other % 16 == step + 1);
        assert((x + 2) * power == x * power + 2 * power) by (nonlinear_arith);
        assert((x + 2) * 4 * power == 4 * ((x + 2) * power)) by (nonlinear_arith);
    } else {
        assert(other / 16 == segment + 1 && other % 16 == 0);
        lemma_pow2_unfold(segment + 1);
        let twice = pow2(segment + 1) as int;
        assert(33 * 4 * twice == 4 * (33 * twice)) by (nonlinear_arith);
        assert(63 * power < 33 * twice);
    }
}

fn power_of_two(n: u8) -> (power: i32)
    requires
        n < 8,
    ensures
        power == pow2(n as nat),
        1 <= power <= 128,
{
    proof {
        lemma2_to64();
    }
    match n {
        0 => 1,
        1 => 2,
        2 => 4,
        3 => 8,
        4 => 16,
        5 => 32,
        6 => 64,
        _ => 128,
    }
}

/// The linear value of the positive codeword of `ucode`, which is below
/// [`COUNT`].
#[must_use]
pub fn linear(ucode: u8, law: Law) -> (value: i16)
    requires
        ucode < COUNT,
    ensures
        value == spec_linear(ucode as int, law),
        value >= 0,
{
    let segment: u8 = ucode / 16;
    let step = (ucode % 16) as i32;
    proof {
        lemma_linear_fits(ucode as int, law);
        let x = 2 * step + 33;
        let power = pow2(segment as nat) as int;
        assert(x * 4 * power == 4 * (x * power)) by (nonlinear_arith);
    }
    let power = power_of_two(segment);
    let scaled: i32 = (2 * step + 33) * power;
    let value: i32 = match law {
        Law::A => if segment == 0 {
            (2 * step + 1) * 8
        } else {
            4 * scaled
        },
        Law::Mu => (scaled - 33) * 4,
    };
    value as i16
}

/// The signed linear value of `ucode`, positive or negative.
#[must_use]
pub fn signed(ucode: u8, positive: bool, law: Law) -> (value: i16)
    requires
        ucode < COUNT,
    ensures
        value == spec_signed(ucode as int, positive, law),
{
    let value = linear(ucode, law);
    if positive {
        value
    } else {
        -value
    }
}

/// The octet of a positive codeword: A-law inverts every other bit.
pub open spec fn spec_octet(ucode: u8, law: Law) -> u8 {
    match law {
        Law::A => 0x80 | (ucode ^ 0x55),
        Law::Mu => (0xFF - ucode) as u8,
    }
}

/// The octet of the positive codeword of `ucode`.
#[must_use]
pub fn octet(ucode: u8, law: Law) -> (octet: u8)
    requires
        ucode < COUNT,
    ensures
        octet == spec_octet(ucode, law),
{
    match law {
        Law::A => 0x80 | (ucode ^ 0x55),
        Law::Mu => 0xFF - ucode,
    }
}

/// Each Ucode has an octet of its own, with the sign bit of a positive
/// codeword.
pub proof fn law_octets_tell_ucodes_apart(ucode: u8, other: u8, law: Law)
    requires
        ucode < COUNT,
        other < COUNT,
    ensures
        spec_octet(ucode, law) >= 0x80,
        spec_octet(ucode, law) == spec_octet(other, law) ==> ucode == other,
{
    assert(0x80u8 | (ucode ^ 0x55) >= 0x80u8) by (bit_vector);
    assert(ucode < 128 && other < 128 && (0x80u8 | (ucode ^ 0x55)) == (0x80u8 | (other ^ 0x55)) ==> ucode
        == other) by (bit_vector);
}

/// How far a magnitude is from that of a Ucode, both in 2⁻¹⁶ of a linear
/// step.
pub open spec fn off(magnitude: int, ucode: int, law: Law) -> int {
    let level = 65_536 * spec_linear(ucode, law);
    if magnitude < level {
        level - magnitude
    } else {
        magnitude - level
    }
}

/// Of the Ucodes nearest to a magnitude, the smallest.
pub open spec fn is_nearest(ucode: int, magnitude: int, law: Law) -> bool {
    &&& 0 <= ucode < COUNT
    &&& forall|u: int|
        0 <= u < COUNT ==> off(magnitude, ucode, law) <= #[trigger] off(magnitude, u, law)
    &&& forall|u: int|
        0 <= u < ucode ==> off(magnitude, ucode, law) < #[trigger] off(magnitude, u, law)
}

fn distance(magnitude: u64, ucode: u8, law: Law) -> (distance: u64)
    requires
        ucode < COUNT,
    ensures
        distance == off(magnitude as int, ucode as int, law),
{
    proof {
        lemma_linear_fits(ucode as int, law);
    }
    let level: u64 = 65_536 * linear(ucode, law) as u64;
    if magnitude < level {
        level - magnitude
    } else {
        magnitude - level
    }
}

/// The Ucode whose magnitude is nearest `magnitude`, in 2⁻¹⁶ of a linear
/// step.
#[must_use]
pub fn nearest(magnitude: u64, law: Law) -> (ucode: u8)
    ensures
        is_nearest(ucode as int, magnitude as int, law),
{
    let mut best: u8 = 0;
    let mut least: u64 = distance(magnitude, 0, law);
    let mut ucode: u8 = 1;
    while ucode < COUNT
        invariant
            1 <= ucode <= COUNT,
            best < ucode,
            least == off(magnitude as int, best as int, law),
            forall|u: int| 0 <= u < ucode ==> least <= #[trigger] off(magnitude as int, u, law),
            forall|u: int| 0 <= u < best ==> least < #[trigger] off(magnitude as int, u, law),
        decreases COUNT - ucode,
    {
        let here = distance(magnitude, ucode, law);
        if here < least {
            best = ucode;
            least = here;
        }
        ucode += 1;
    }
    best
}

/// The magnitude of a Ucode is nearest to that Ucode.
pub proof fn law_a_ucode_is_nearest_itself(ucode: int, found: int, law: Law)
    requires
        0 <= ucode < COUNT,
        is_nearest(found, 65_536 * spec_linear(ucode, law), law),
    ensures
        found == ucode,
{
    let magnitude = 65_536 * spec_linear(ucode, law);
    assert(off(magnitude, ucode, law) == 0);
    assert(off(magnitude, found, law) <= off(magnitude, ucode, law));
    if found < ucode {
        law_rises_with_the_ucode(found, ucode, law);
    } else if ucode < found {
        law_rises_with_the_ucode(ucode, found, law);
    }
}

/// Table 1 by its steps: from one Ucode to the next the level rises by 16 in
/// the first segment of A-law and by 8 in that of µ-law, and by twice as much
/// in each segment after it, but that the first two of A-law are alike.
pub proof fn law_table_1_rises_by_its_steps(ucode: int)
    requires
        0 <= ucode < 128,
        ucode % 16 < 15,
    ensures
        spec_linear(0, Law::A) == 8,
        spec_linear(0, Law::Mu) == 0,
        ucode < 16 ==> spec_linear(ucode + 1, Law::A) - spec_linear(ucode, Law::A) == 16,
        ucode >= 16 ==> spec_linear(ucode + 1, Law::A) - spec_linear(ucode, Law::A) == 8 * pow2((ucode / 16) as nat),
        spec_linear(ucode + 1, Law::Mu) - spec_linear(ucode, Law::Mu) == 8 * pow2((ucode / 16) as nat),
{
    lemma2_to64();
    let segment = ucode / 16;
    let step = ucode % 16;
    assert((ucode + 1) / 16 == segment && (ucode + 1) % 16 == step + 1);
    let power = pow2(segment as nat) as int;
    assert((2 * (step + 1) + 33) * 4 * power == (2 * step + 33) * 4 * power + 8 * power) by (nonlinear_arith);
    assert((2 * (step + 1) + 33) * power == (2 * step + 33) * power + 2 * power) by (nonlinear_arith);
}

/// From the last Ucode of a segment to the first of the next, the level rises
/// by the mean of their steps.
pub proof fn law_segments_meet(segment: int)
    requires
        0 <= segment < 7,
    ensures
        segment >= 1 ==> spec_linear(16 * segment + 16, Law::A) - spec_linear(16 * segment + 15, Law::A) == 12 * pow2(
            segment as nat,
        ),
        segment == 0 ==> spec_linear(16, Law::A) - spec_linear(15, Law::A) == 16,
        spec_linear(16 * segment + 16, Law::Mu) - spec_linear(16 * segment + 15, Law::Mu) == 12 * pow2(segment as nat),
{
    lemma2_to64();
    lemma_pow2_unfold((segment + 1) as nat);
    assert((16 * segment + 16) / 16 == segment + 1 && (16 * segment + 16) % 16 == 0);
    assert((16 * segment + 15) / 16 == segment && (16 * segment + 15) % 16 == 15);
    let power = pow2(segment as nat) as int;
    let twice = pow2((segment + 1) as nat) as int;
    assert(33 * 4 * twice == 264 * power && 63 * 4 * power == 252 * power && 33 * twice == 66 * power) by (nonlinear_arith)
        requires
            twice == 2 * power,
    ;
}

/// A negative codeword is the positive one turned over. µ-law counts octets
/// down from FF, and A-law has every other bit of the Ucode inverted, from D5.
pub proof fn law_octets_and_signs(ucode: u8, law: Law)
    requires
        ucode < 128,
    ensures
        spec_signed(ucode as int, true, law) == spec_linear(ucode as int, law),
        spec_signed(ucode as int, false, law) == -spec_linear(ucode as int, law),
        spec_octet(ucode, Law::Mu) == 255 - ucode,
        spec_octet(0, Law::A) == 0xD5,
        ucode % 2 == 0 ==> spec_octet((ucode + 1) as u8, Law::A) == spec_octet(ucode, Law::A) - 1,
        ucode % 4 < 2 ==> spec_octet((ucode + 2) as u8, Law::A) == spec_octet(ucode, Law::A) + 2,
        ucode % 8 < 4 ==> spec_octet((ucode + 4) as u8, Law::A) == spec_octet(ucode, Law::A) - 4,
        ucode % 16 < 8 ==> spec_octet((ucode + 8) as u8, Law::A) == spec_octet(ucode, Law::A) + 8,
        ucode % 32 < 16 ==> spec_octet((ucode + 16) as u8, Law::A) == spec_octet(ucode, Law::A) - 16,
        ucode % 64 < 32 ==> spec_octet((ucode + 32) as u8, Law::A) == spec_octet(ucode, Law::A) + 32,
        ucode < 64 ==> spec_octet((ucode + 64) as u8, Law::A) == spec_octet(ucode, Law::A) - 64,
{
    assert(0x80u8 | (0u8 ^ 0x55) == 0xD5) by (bit_vector);
    assert(ucode % 2 == 0 ==> (0x80u8 | ((ucode + 1) as u8 ^ 0x55)) == (0x80u8 | (ucode ^ 0x55)) - 1) by (bit_vector)
        requires
            ucode < 128,
    ;
    assert(ucode % 4 < 2 ==> (0x80u8 | ((ucode + 2) as u8 ^ 0x55)) == (0x80u8 | (ucode ^ 0x55)) + 2) by (bit_vector)
        requires
            ucode < 128,
    ;
    assert(ucode % 8 < 4 ==> (0x80u8 | ((ucode + 4) as u8 ^ 0x55)) == (0x80u8 | (ucode ^ 0x55)) - 4) by (bit_vector)
        requires
            ucode < 128,
    ;
    assert(ucode % 16 < 8 ==> (0x80u8 | ((ucode + 8) as u8 ^ 0x55)) == (0x80u8 | (ucode ^ 0x55)) + 8) by (bit_vector)
        requires
            ucode < 128,
    ;
    assert(ucode % 32 < 16 ==> (0x80u8 | ((ucode + 16) as u8 ^ 0x55)) == (0x80u8 | (ucode ^ 0x55)) - 16) by (bit_vector)
        requires
            ucode < 128,
    ;
    assert(ucode % 64 < 32 ==> (0x80u8 | ((ucode + 32) as u8 ^ 0x55)) == (0x80u8 | (ucode ^ 0x55)) + 32) by (bit_vector)
        requires
            ucode < 128,
    ;
    assert(ucode < 64 ==> (0x80u8 | ((ucode + 64) as u8 ^ 0x55)) == (0x80u8 | (ucode ^ 0x55)) - 64) by (bit_vector)
        requires
            ucode < 128,
    ;
}

/// No Ucode is nearer to a magnitude than the one found, and none below it is
/// as near.
pub proof fn law_the_nearest_is_the_nearest(ucode: int, other: int, magnitude: int, law: Law)
    requires
        is_nearest(ucode, magnitude, law),
        0 <= other < 128,
    ensures
        ({
            let apart = magnitude - 65_536 * spec_linear(ucode, law);
            let farther = magnitude - 65_536 * spec_linear(other, law);
            &&& (apart <= farther && -apart <= farther) || (apart <= -farther && -apart <= -farther)
            &&& other < ucode ==> apart != farther && apart != -farther
        }),
{
    assert(off(magnitude, ucode, law) <= off(magnitude, other, law));
    if other < ucode {
        assert(off(magnitude, ucode, law) < off(magnitude, other, law));
    }
}

} // verus!

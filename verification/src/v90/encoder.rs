//! The encoder of the digital modem (§ 5.4), which turns each data frame
//! of D bits into six PCM codewords, and its inverse for the analogue
//! modem.

use crate::v34::bits::{
    field_bits, law_writes_back_what_it_reads, lemma_field_bits_len, lemma_field_bits_of_low,
    value_of, Writer,
};
use crate::v90::cp::{labels, law_labels_from_the_largest_ucode_down, spec_labels, Coefficient, Cp};
use crate::v90::ucode::Law;
use crate::v90::Codeword;
use std::collections::VecDeque;
use vstd::arithmetic::power2::{lemma2_to64, pow2};
use vstd::prelude::*;

verus! {

/// Symbols in a data frame.
pub const FRAME: usize = 6;

/// The mapping parameters of § 5.4.1.
#[derive(Debug, PartialEq, Eq)]
pub struct Mapping {
    /// The PCM code set of each data frame interval, labelled from the
    /// largest Ucode down.
    pub sets: [Vec<u8>; 6],
    /// K, the bits that enter the modulus encoder.
    pub modulus_bits: usize,
    /// Sr, the sign bits of each frame that shape the spectrum.
    pub redundancy: u8,
    /// ld.
    pub lookahead: u8,
    /// a1, a2, b1 and b2 of § 5.4.5.6, in Q1.6.
    pub filter: [Coefficient; 4],
    pub law: Law,
}

/// M of an interval, at least one.
pub open spec fn modulus(set: Seq<u8>) -> int {
    if set.len() == 0 {
        1
    } else {
        set.len() as int
    }
}

/// M0 · … · M(n − 1).
pub open spec fn product(sets: Seq<Vec<u8>>, n: int) -> int
    decreases n,
{
    if n <= 0 {
        1
    } else {
        product(sets, n - 1) * sets[n - 1]@.len()
    }
}

/// What is left of `value` for interval `n` on.
pub open spec fn left_for(sets: Seq<Vec<u8>>, value: int, n: int) -> int
    decreases n,
{
    if n <= 0 {
        value
    } else {
        left_for(sets, value, n - 1) / modulus(sets[n - 1]@)
    }
}

/// K of interval `n`.
pub open spec fn label_for(sets: Seq<Vec<u8>>, value: int, n: int) -> int {
    left_for(sets, value, n) % modulus(sets[n]@)
}

/// The Ucode of a label.
pub open spec fn ucode_of(set: Seq<u8>, label: int) -> u8 {
    if label < set.len() {
        set[label]
    } else {
        0
    }
}

/// The first label of `ucode` from `n` on, or 0 if it has none.
pub open spec fn label_from(set: Seq<u8>, ucode: u8, n: int) -> int
    decreases set.len() - n,
{
    if n >= set.len() {
        0
    } else if set[n] == ucode {
        n
    } else {
        label_from(set, ucode, n + 1)
    }
}

/// The value that the Ucodes from interval `n` on carry.
pub open spec fn value_from(sets: Seq<Vec<u8>>, ucodes: Seq<u8>, n: int) -> int
    decreases 6 - n,
{
    if n >= 6 {
        0
    } else {
        value_from(sets, ucodes, n + 1) * modulus(sets[n]@) + label_from(sets[n]@, ucodes[n], 0)
    }
}

impl Mapping {
    /// Whether 2^K ≤ M0 · … · M5, as § 5.4.3 requires.
    pub open spec fn spec_fits(self) -> bool {
        self.modulus_bits < 64 && pow2(self.modulus_bits as nat) <= product(self.sets@, 6)
            <= u128::MAX
    }

    /// Sets no larger than there are Ucodes, and no more sign bits for
    /// shaping than a frame can spare.
    pub open spec fn valid(self) -> bool {
        &&& self.redundancy <= 3
        &&& self.modulus_bits < 64
        &&& forall|i: int| 0 <= i < 6 ==> (#[trigger] self.sets@[i])@.len() <= 256
    }

    /// Each Ucode has one label.
    pub open spec fn labelled(self) -> bool {
        forall|i: int, a: int, b: int|
            0 <= i < 6 && 0 <= a < b < self.sets@[i]@.len() ==> #[trigger] self.sets@[i]@[a]
                != #[trigger] self.sets@[i]@[b]
    }

    pub open spec fn spec_sign_bits(self) -> int {
        6 - self.redundancy
    }

    /// D.
    pub open spec fn spec_bits(self) -> int {
        self.spec_sign_bits() + self.modulus_bits
    }

    /// The symbols of one spectral shaping frame: 6, 3 or 2.
    pub open spec fn spec_shaping_length(self) -> int {
        if self.redundancy <= 1 {
            6
        } else if self.redundancy == 2 {
            3
        } else {
            2
        }
    }

    /// The Ucode of interval `n` for the modulus bits `bits`.
    pub open spec fn mapped(self, bits: Seq<bool>, n: int) -> u8 {
        ucode_of(self.sets@[n]@, label_for(self.sets@, value_of(bits) as int, n))
    }

    /// The modulus bits that six Ucodes carry.
    pub open spec fn unmapped(self, ucodes: Seq<u8>) -> Seq<bool> {
        field_bits(value_from(self.sets@, ucodes, 0) as nat, self.modulus_bits as nat)
    }
}

proof fn lemma_left_for(sets: Seq<Vec<u8>>, value: int, n: int)
    requires
        0 <= n <= 6,
        value >= 0,
        forall|i: int| 0 <= i < n ==> (#[trigger] sets[i])@.len() >= 1,
    ensures
        left_for(sets, value, n) >= 0,
        product(sets, n) >= 1,
        left_for(sets, value, n) == value / product(sets, n),
    decreases n,
{
    if n > 0 {
        lemma_left_for(sets, value, n - 1);
        let p = product(sets, n - 1);
        let m = sets[n - 1]@.len() as int;
        assert(p * m >= 1) by (nonlinear_arith)
            requires
                p >= 1,
                m >= 1,
        ;
        vstd::arithmetic::div_mod::lemma_div_denominator(value, p, m);
        vstd::arithmetic::div_mod::lemma_div_pos_is_pos(value, p);
        vstd::arithmetic::div_mod::lemma_div_pos_is_pos(left_for(sets, value, n - 1), m);
    } else {
        assert(value / 1 == value);
    }
}

proof fn lemma_nonempty(sets: Seq<Vec<u8>>, n: int)
    requires
        0 <= n <= 6,
        product(sets, 6) >= 1,
    ensures
        forall|i: int| n <= i < 6 ==> (#[trigger] sets[i])@.len() >= 1,
        product(sets, n) >= 1,
    decreases 6 - n,
{
    if n < 6 {
        lemma_nonempty(sets, n + 1);
        let p = product(sets, n);
        let m = sets[n]@.len() as int;
        assert(p >= 1 && m >= 1) by (nonlinear_arith)
            requires
                p * m >= 1,
                m >= 0,
        ;
    }
}

proof fn lemma_label_found(set: Seq<u8>, label: int, n: int)
    requires
        0 <= n <= label < set.len(),
        forall|a: int, b: int| 0 <= a < b < set.len() ==> #[trigger] set[a] != #[trigger] set[b],
    ensures
        label_from(set, set[label], n) == label,
    decreases label - n,
{
    if n < label {
        lemma_label_found(set, label, n + 1);
    }
}

proof fn lemma_value_back(mapping: Mapping, bits: Seq<bool>, ucodes: Seq<u8>, n: int)
    requires
        mapping.labelled(),
        mapping.spec_fits(),
        bits.len() == mapping.modulus_bits,
        ucodes.len() == 6,
        forall|i: int| 0 <= i < 6 ==> #[trigger] ucodes[i] == mapping.mapped(bits, i),
        0 <= n <= 6,
    ensures
        value_from(mapping.sets@, ucodes, n) == left_for(mapping.sets@, value_of(bits) as int, n),
    decreases 6 - n,
{
    let sets = mapping.sets@;
    let value = value_of(bits) as int;
    law_writes_back_what_it_reads(bits);
    vstd::arithmetic::power2::lemma_pow2_pos(mapping.modulus_bits as nat);
    lemma_nonempty(sets, 0);
    lemma_left_for(sets, value, n);
    if n == 6 {
        let p = product(sets, 6);
        vstd::arithmetic::div_mod::lemma_basic_div(value, p);
    } else {
        lemma_value_back(mapping, bits, ucodes, n + 1);
        let left = left_for(sets, value, n);
        let m = sets[n]@.len() as int;
        let label = left % m;
        vstd::arithmetic::div_mod::lemma_fundamental_div_mod(left, m);
        assert(0 <= label < m);
        assert(ucodes[n] == sets[n]@[label]);
        assert forall|a: int, b: int| 0 <= a < b < sets[n]@.len() implies #[trigger] sets[n]@[a]
            != #[trigger] sets[n]@[b] by {}
        lemma_label_found(sets[n]@, label, 0);
        assert((left / m) * m == m * (left / m)) by (nonlinear_arith);
    }
}

/// The Ucodes of a data frame give its modulus bits back, where the sets
/// carry the rate and label each Ucode once.
pub proof fn law_unmaps_the_modulus_bits(mapping: Mapping, bits: Seq<bool>, ucodes: Seq<u8>)
    requires
        mapping.labelled(),
        mapping.spec_fits(),
        bits.len() == mapping.modulus_bits,
        ucodes.len() == 6,
        forall|i: int| 0 <= i < 6 ==> #[trigger] ucodes[i] == mapping.mapped(bits, i),
    ensures
        mapping.unmapped(ucodes) == bits,
{
    lemma_value_back(mapping, bits, ucodes, 0);
    law_writes_back_what_it_reads(bits);
}

proof fn lemma_digit(value: int, size: int, rest: int, digit: int)
    requires
        0 <= digit < size,
        value == digit + size * rest,
    ensures
        value % size == digit,
        value / size == rest,
{
    assert(size * rest == rest * size) by (nonlinear_arith);
    vstd::arithmetic::div_mod::lemma_fundamental_div_mod_converse(value, size, rest, digit);
}

/// The number that the modulus bits write is split into six digits, the
/// lowest first, each below the size of its set, and each interval sends the
/// Ucode at the place of its digit.
pub proof fn law_each_interval_sends_its_digit(mapping: Mapping, bits: Seq<bool>, digits: Seq<int>)
    requires
        digits.len() == 6,
        forall|i: int| 0 <= i < 6 ==> 0 <= #[trigger] digits[i] < mapping.sets@[i]@.len(),
        value_of(bits) == digits[0] + mapping.sets@[0]@.len() * (digits[1] + mapping.sets@[1]@.len()
            * (digits[2] + mapping.sets@[2]@.len() * (digits[3] + mapping.sets@[3]@.len() * (
        digits[4] + mapping.sets@[4]@.len() * digits[5])))),
    ensures
        forall|i: int|
            0 <= i < 6 ==> #[trigger] mapping.mapped(bits, i) == mapping.sets@[i]@[digits[i]],
{
    let sets = mapping.sets@;
    let v = value_of(bits) as int;
    let (m0, m1, m2, m3, m4) = (
        sets[0]@.len() as int,
        sets[1]@.len() as int,
        sets[2]@.len() as int,
        sets[3]@.len() as int,
        sets[4]@.len() as int,
    );
    let l5 = digits[5];
    let l4 = digits[4] + m4 * l5;
    let l3 = digits[3] + m3 * l4;
    let l2 = digits[2] + m2 * l3;
    let l1 = digits[1] + m1 * l2;
    assert(0 <= digits[0] < m0 && 0 <= digits[1] < m1 && 0 <= digits[2] < m2 && 0 <= digits[3] < m3
        && 0 <= digits[4] < m4 && 0 <= digits[5] < sets[5]@.len());
    lemma_digit(v, m0, l1, digits[0]);
    lemma_digit(l1, m1, l2, digits[1]);
    lemma_digit(l2, m2, l3, digits[2]);
    lemma_digit(l3, m3, l4, digits[3]);
    lemma_digit(l4, m4, l5, digits[4]);
    vstd::arithmetic::div_mod::lemma_small_mod(l5 as nat, sets[5]@.len());
    reveal_with_fuel(left_for, 7);
    assert forall|i: int| 0 <= i < 6 implies #[trigger] mapping.mapped(bits, i)
        == sets[i]@[digits[i]] by {
        assert(left_for(sets, v, 0) == v);
        assert(left_for(sets, v, 1) == l1);
        assert(left_for(sets, v, 2) == l2);
        assert(left_for(sets, v, 3) == l3);
        assert(left_for(sets, v, 4) == l4);
        assert(left_for(sets, v, 5) == l5);
    }
}

/// Interval n sends the Ucode at place R / (M0 · … · M(n − 1)) mod Mn of its
/// set, where R is the number that the modulus bits write.
pub proof fn law_each_interval_sends_its_remainder(mapping: Mapping, bits: Seq<bool>)
    requires
        forall|i: int| 0 <= i < 6 ==> (#[trigger] mapping.sets@[i])@.len() > 0,
    ensures
        ({
            let r = value_of(bits) as int;
            let s = mapping.sets@;
            let (m0, m1, m2, m3, m4, m5) = (
                s[0]@.len() as int,
                s[1]@.len() as int,
                s[2]@.len() as int,
                s[3]@.len() as int,
                s[4]@.len() as int,
                s[5]@.len() as int,
            );
            &&& mapping.mapped(bits, 0) == s[0]@[r % m0]
            &&& mapping.mapped(bits, 1) == s[1]@[r / m0 % m1]
            &&& mapping.mapped(bits, 2) == s[2]@[r / (m0 * m1) % m2]
            &&& mapping.mapped(bits, 3) == s[3]@[r / (m0 * m1 * m2) % m3]
            &&& mapping.mapped(bits, 4) == s[4]@[r / (m0 * m1 * m2 * m3) % m4]
            &&& mapping.mapped(bits, 5) == s[5]@[r / (m0 * m1 * m2 * m3 * m4) % m5]
        }),
{
    let r = value_of(bits) as int;
    let s = mapping.sets@;
    reveal_with_fuel(product, 7);
    assert(s[0]@.len() > 0 && s[1]@.len() > 0 && s[2]@.len() > 0 && s[3]@.len() > 0 && s[4]@.len()
        > 0 && s[5]@.len() > 0);
    lemma_left_for(s, r, 0);
    lemma_left_for(s, r, 1);
    lemma_left_for(s, r, 2);
    lemma_left_for(s, r, 3);
    lemma_left_for(s, r, 4);
    lemma_left_for(s, r, 5);
}

pub(crate) fn copied(set: &Vec<u8>) -> (copy: Vec<u8>)
    ensures
        copy@ == set@,
{
    let mut copy: Vec<u8> = Vec::new();
    let mut i: usize = 0;
    while i < set.len()
        invariant
            i <= set.len(),
            copy@ == set@.take(i as int),
        decreases set.len() - i,
    {
        copy.push(set[i]);
        i += 1;
    }
    assert(set@.take(i as int) =~= set@);
    copy
}

/// The sign bits that CP spends on shaping, at most three.
pub open spec fn redundancy_of(cp: Cp) -> u8 {
    if cp.redundancy < 3 {
        cp.redundancy
    } else {
        3
    }
}

impl Mapping {
    /// The mapping that CP or CPt asks for.
    pub open spec fn is_from(self, cp: Cp) -> bool {
        &&& forall|i: int|
            0 <= i < 6 ==> (#[trigger] self.sets@[i])@ == spec_labels(cp.spec_constellation(i))
        &&& self.modulus_bits == cp.spec_frame_bits() - (6 - redundancy_of(cp))
        &&& self.redundancy == redundancy_of(cp)
        &&& self.lookahead == cp.lookahead
        &&& self.filter == cp.filter
        &&& self.law == cp.law
    }

    /// From CP or CPt, if its sets carry its rate.
    #[must_use]
    pub fn from_cp(cp: &Cp) -> (mapping: Option<Self>)
        ensures
            match mapping {
                Some(mapping) => mapping.is_from(*cp) && mapping.spec_fits() && mapping.valid()
                    && mapping.labelled(),
                None => forall|mapping: Self| #[trigger]
                    mapping.is_from(*cp) ==> !mapping.spec_fits(),
            },
    {
        let bits = cp.frame_bits();
        let redundancy = if cp.redundancy < 3 {
            cp.redundancy
        } else {
            3
        };
        let modulus_bits = bits - (6 - redundancy as usize);
        let mapping = Self {
            sets: [
                labels(cp.constellation(0)),
                labels(cp.constellation(1)),
                labels(cp.constellation(2)),
                labels(cp.constellation(3)),
                labels(cp.constellation(4)),
                labels(cp.constellation(5)),
            ],
            modulus_bits,
            redundancy,
            lookahead: cp.lookahead,
            filter: cp.filter,
            law: cp.law,
        };
        proof {
            assert forall|i: int| 0 <= i < 6 implies (#[trigger] mapping.sets@[i])@ == spec_labels(
                cp.spec_constellation(i),
            ) && mapping.sets@[i]@.len() <= 128 by {
                law_labels_from_the_largest_ucode_down(cp.spec_constellation(i));
            }
            assert forall|i: int, a: int, b: int|
                0 <= i < 6 && 0 <= a < b < mapping.sets@[i]@.len() implies #[trigger] mapping.sets@[i]@[a]
                != #[trigger] mapping.sets@[i]@[b] by {
                law_labels_from_the_largest_ucode_down(cp.spec_constellation(i));
            }
            assert forall|i: int| 0 <= i < 6 implies (#[trigger] mapping.sets@[i])@.len() <= 256 by {}
        }
        if mapping.fits() {
            Some(mapping)
        } else {
            proof {
                assert forall|other: Self| #[trigger] other.is_from(*cp) implies !other.spec_fits() by {
                    lemma_same_product(mapping.sets@, other.sets@, 6);
                }
            }
            None
        }
    }

    /// § 8.6: the mapping of MP and Ed in a rate renegotiation, the
    /// constellations and K of CPt with the spectral shaping of data mode.
    #[must_use]
    pub fn renegotiating(training: &Self, data: &Self) -> (mapping: Self)
        ensures
            forall|i: int|
                0 <= i < 6 ==> (#[trigger] mapping.sets@[i])@ == training.sets@[i]@,
            mapping.modulus_bits == training.modulus_bits,
            mapping.redundancy == data.redundancy,
            mapping.lookahead == data.lookahead,
            mapping.filter == data.filter,
            mapping.law == training.law,
    {
        Self {
            sets: [
                copied(&training.sets[0]),
                copied(&training.sets[1]),
                copied(&training.sets[2]),
                copied(&training.sets[3]),
                copied(&training.sets[4]),
                copied(&training.sets[5]),
            ],
            modulus_bits: training.modulus_bits,
            redundancy: data.redundancy,
            lookahead: data.lookahead,
            filter: data.filter,
            law: training.law,
        }
    }

    /// Whether 2^K ≤ M0 · … · M5, as § 5.4.3 requires.
    #[must_use]
    pub fn fits(&self) -> (fits: bool)
        ensures
            fits == self.spec_fits(),
    {
        if self.modulus_bits >= 64 {
            return false;
        }
        let mut ways: u128 = 1;
        let mut n: usize = 0;
        while n < 6
            invariant
                n <= 6,
                self.modulus_bits < 64,
                ways == product(self.sets@, n as int),
            decreases 6 - n,
        {
            let length = self.sets[n].len() as u128;
            assert(self.sets[n as int]@ == self.sets@[n as int]@);
            match ways.checked_mul(length) {
                Some(more) => {
                    ways = more;
                },
                None => {
                    proof {
                        if self.spec_fits() {
                            vstd::arithmetic::power2::lemma_pow2_pos(self.modulus_bits as nat);
                            lemma_product_grows(self.sets@, n + 1);
                        }
                    }
                    return false;
                },
            }
            n += 1;
        }
        ways >= power_of_two(self.modulus_bits)
    }

    /// S, the sign bits of each frame that carry data.
    #[must_use]
    pub fn sign_bits(&self) -> (bits: usize)
        requires
            self.redundancy <= 6,
        ensures
            bits == self.spec_sign_bits(),
    {
        6 - self.redundancy as usize
    }

    /// D, the bits of each data frame.
    #[must_use]
    pub fn bits(&self) -> (bits: usize)
        requires
            self.valid(),
        ensures
            bits == self.spec_bits(),
    {
        self.sign_bits() + self.modulus_bits
    }

    /// The symbols of one spectral shaping frame: 6, 3 or 2.
    fn shaping_length(&self) -> (length: usize)
        ensures
            length == self.spec_shaping_length(),
    {
        match self.redundancy {
            0 | 1 => 6,
            2 => 3,
            _ => 2,
        }
    }

    /// § 5.4.3: K bits to K0 to K5, and § 5.4.4: each to its Ucode.
    #[must_use]
    pub fn map(&self, bits: &[bool]) -> (ucodes: [u8; 6])
        requires
            bits.len() < 64,
        ensures
            forall|i: int| 0 <= i < 6 ==> #[trigger] ucodes@[i] == self.mapped(bits@, i),
    {
        let value = number(bits);
        let ghost whole = value_of(bits@) as int;
        let (u0, v1) = step(&self.sets[0], value);
        let (u1, v2) = step(&self.sets[1], v1);
        let (u2, v3) = step(&self.sets[2], v2);
        let (u3, v4) = step(&self.sets[3], v3);
        let (u4, v5) = step(&self.sets[4], v4);
        let (u5, _v6) = step(&self.sets[5], v5);
        proof {
            let sets = self.sets@;
            assert(left_for(sets, whole, 0) == value);
            assert(left_for(sets, whole, 1) == v1);
            assert(left_for(sets, whole, 2) == v2);
            assert(left_for(sets, whole, 3) == v3);
            assert(left_for(sets, whole, 4) == v4);
            assert(left_for(sets, whole, 5) == v5);
        }
        [u0, u1, u2, u3, u4, u5]
    }

    /// The inverse of `map`, from the Ucodes of one frame.
    #[must_use]
    pub fn unmap(&self, ucodes: [u8; 6]) -> (bits: Vec<bool>)
        requires
            self.valid(),
        ensures
            bits@ == self.unmapped(ucodes@),
    {
        let mut value: u64 = 0;
        let mut n: usize = 6;
        while n > 0
            invariant
                n <= 6,
                self.valid(),
                value == value_from(self.sets@, ucodes@, n as int),
                value < room(6 - n),
            decreases n,
        {
            n -= 1;
            assert(self.sets@[n as int]@.len() <= 256);
            let label = find(&self.sets[n], ucodes[n]);
            let m: u64 = if self.sets[n].len() == 0 {
                1
            } else {
                self.sets[n].len() as u64
            };
            proof {
                let v = value as int;
                let k = m as int;
                let r = room(6 - n - 1);
                assert(v * k + label < 256 * r) by (nonlinear_arith)
                    requires
                        0 <= v < r,
                        1 <= k <= 256,
                        0 <= label < k,
                ;
                assert(0 <= v * k) by (nonlinear_arith)
                    requires
                        0 <= v,
                        1 <= k,
                ;
                reveal_with_fuel(room, 8);
            }
            value = value * m + label as u64;
        }
        let low = (value % 0x1_0000_0000) as u32;
        let high = (value / 0x1_0000_0000) as u32;
        let mut writer = Writer::default();
        let width = self.modulus_bits as u32;
        let first = if width < 32 {
            width
        } else {
            32
        };
        writer.field(low, first);
        writer.field(high, width - first);
        proof {
            lemma_split_field(value as nat, self.modulus_bits as nat);
            assert(writer.bits@ =~= self.unmapped(ucodes@));
        }
        writer.bits
    }
}

/// 256 to the `n`.
spec fn room(n: int) -> int
    decreases n,
{
    if n <= 0 {
        1
    } else {
        256 * room(n - 1)
    }
}

proof fn lemma_split_field(value: nat, width: nat)
    requires
        width < 64,
    ensures
        field_bits(value, width) == field_bits(
            value % 0x1_0000_0000,
            if width < 32 {
                width
            } else {
                32
            },
        ) + field_bits(
            value / 0x1_0000_0000,
            if width < 32 {
                0
            } else {
                (width - 32) as nat
            },
        ),
{
    lemma2_to64();
    if width < 32 {
        lemma_field_bits_of_low(value, 32, width);
        lemma_field_bits_len(value / 0x1_0000_0000, 0);
        assert(field_bits(value, width) =~= field_bits(value, width) + field_bits(
            value / 0x1_0000_0000,
            0,
        ));
    } else {
        crate::v34::bits::lemma_field_bits_split(value, 32, width);
        lemma_field_bits_of_low(value, 32, 32);
    }
}

pub(crate) fn power_of_two(k: usize) -> (power: u128)
    requires
        k < 64,
    ensures
        power == pow2(k as nat),
{
    proof {
        lemma2_to64();
    }
    let mut power: u128 = 1;
    let mut n: usize = 0;
    while n < k
        invariant
            n <= k < 64,
            power == pow2(n as nat),
        decreases k - n,
    {
        proof {
            lemma2_to64();
            vstd::arithmetic::power2::lemma_pow2_strictly_increases(n as nat, 64);
            vstd::arithmetic::power2::lemma_pow2_unfold((n + 1) as nat);
        }
        power = 2 * power;
        n += 1;
    }
    power
}

proof fn lemma_same_product(sets: Seq<Vec<u8>>, other: Seq<Vec<u8>>, n: int)
    requires
        forall|i: int| 0 <= i < n ==> (#[trigger] sets[i])@.len() == other[i]@.len(),
    ensures
        product(sets, n) == product(other, n),
    decreases n,
{
    if n > 0 {
        lemma_same_product(sets, other, n - 1);
        assert(sets[n - 1]@.len() == other[n - 1]@.len());
    }
}

proof fn lemma_product_grows(sets: Seq<Vec<u8>>, n: int)
    requires
        0 <= n <= 6,
        product(sets, 6) >= 1,
    ensures
        product(sets, n) <= product(sets, 6),
    decreases 6 - n,
{
    if n < 6 {
        lemma_product_grows(sets, n + 1);
        lemma_nonempty(sets, n);
        let p = product(sets, n);
        let m = sets[n]@.len() as int;
        assert(p <= p * m) by (nonlinear_arith)
            requires
                p >= 1,
                m >= 1,
        ;
    }
}

fn number(bits: &[bool]) -> (value: u64)
    requires
        bits.len() < 64,
    ensures
        value == value_of(bits@),
{
    let mut value: u64 = 0;
    let mut left: usize = bits.len();
    reveal(value_of);
    while left > 0
        invariant
            left <= bits.len() < 64,
            value == value_of(bits@.skip(left as int)),
        decreases left,
    {
        left -= 1;
        proof {
            reveal(value_of);
            let rest = bits@.skip(left as int);
            assert(rest.skip(1) =~= bits@.skip(left + 1));
            law_writes_back_what_it_reads(rest);
            lemma2_to64();
            vstd::arithmetic::power2::lemma_pow2_strictly_increases(rest.len(), 64);
        }
        value = 2 * value + if bits[left] {
            1
        } else {
            0
        };
    }
    assert(bits@.skip(0) =~= bits@);
    value
}

fn step(set: &Vec<u8>, value: u64) -> (out: (u8, u64))
    ensures
        out.0 == ucode_of(set@, value as int % modulus(set@)),
        out.1 == value as int / modulus(set@),
{
    let m: u64 = if set.len() == 0 {
        1
    } else {
        set.len() as u64
    };
    let label: u64 = value % m;
    let ucode = if label < set.len() as u64 {
        set[label as usize]
    } else {
        0
    };
    (ucode, value / m)
}

fn find(set: &Vec<u8>, ucode: u8) -> (label: usize)
    ensures
        label == label_from(set@, ucode, 0),
        label < modulus(set@),
{
    let mut n: usize = 0;
    while n < set.len()
        invariant
            n <= set.len(),
            label_from(set@, ucode, 0) == label_from(set@, ucode, n as int),
        decreases set.len() - n,
    {
        if set[n] == ucode {
            return n;
        }
        n += 1;
    }
    0
}

/// Rules A to D of § 5.4.5.5 over a shaping frame, and the trellis of
/// figure 2.
#[derive(Debug, Clone, Copy, PartialEq, Eq, Structural)]
pub enum Rule {
    A,
    B,
    C,
    D,
}

impl Rule {
    /// Whether figure 2 allows the rule in a state.
    pub open spec fn fits_state(self, state: bool) -> bool {
        if state {
            self is C || self is D
        } else {
            self is A || self is B
        }
    }

    pub open spec fn spec_next_state(self) -> bool {
        self is B || self is D
    }

    pub open spec fn spec_inverts(self, position: int) -> bool {
        match self {
            Self::A => false,
            Self::B => true,
            Self::C => position % 2 == 0,
            Self::D => position % 2 != 0,
        }
    }

    /// The two rules that figure 2 allows in a state.
    #[must_use]
    pub fn allowed(state: bool) -> (rules: [Self; 2])
        ensures
            forall|rule: Rule| #[trigger]
                rule.fits_state(state) <==> rules[0] == rule || rules[1] == rule,
            !rules[0].spec_next_state(),
            rules[1].spec_next_state(),
    {
        if state {
            [Self::C, Self::D]
        } else {
            [Self::A, Self::B]
        }
    }

    /// The state after the rule.
    #[must_use]
    pub fn next_state(self) -> (state: bool)
        ensures
            state == self.spec_next_state(),
    {
        matches!(self, Self::B | Self::D)
    }

    /// Whether the rule inverts the sign at `position`.
    #[must_use]
    pub fn inverts(self, position: usize) -> (inverts: bool)
        ensures
            inverts == self.spec_inverts(position as int),
    {
        match self {
            Self::A => false,
            Self::B => true,
            Self::C => position % 2 == 0,
            Self::D => position % 2 != 0,
        }
    }
}

/// Bit `k` of a shaping frame after the first differential encoding: bit 0
/// is left to the shaper, and each odd bit turns the odd bit before it.
pub open spec fn turned(bits: Seq<bool>, last_odd: bool, k: int) -> bool
    decreases k,
{
    if k <= 0 {
        false
    } else if k % 2 == 0 {
        bits[k - 1]
    } else if k == 1 {
        bits[0] != last_odd
    } else {
        bits[k - 1] != turned(bits, last_odd, k - 2)
    }
}

/// The last odd position of a shaping frame.
pub open spec fn last_odd_position(length: int) -> int {
    if length % 2 == 0 {
        length - 1
    } else {
        length - 2
    }
}

/// The differential encoders of § 5.4.5.2.
pub struct Turning {
    pub last_odd: bool,
    /// t of the last shaping frame.
    pub last_t: Seq<bool>,
}

impl Turning {
    /// At zero, as TRN2d and B1d start.
    pub open spec fn at_rest(mapping: Mapping) -> Self {
        Self {
            last_odd: false,
            last_t: Seq::new(mapping.spec_shaping_length() as nat, |i: int| false),
        }
    }

    /// t of § 5.4.5.2: the signs before shaping.
    pub open spec fn signs(self, bits: Seq<bool>) -> Seq<bool> {
        Seq::new(
            self.last_t.len(),
            |k: int| turned(bits, self.last_odd, k) != self.last_t[k],
        )
    }

    pub open spec fn after(self, bits: Seq<bool>) -> Self {
        Self {
            last_odd: turned(bits, self.last_odd, last_odd_position(self.last_t.len() as int)),
            last_t: self.signs(bits),
        }
    }
}

/// After the first `n` shaping frames of a data frame, each with its bits.
pub open spec fn turning_after(turning: Turning, bits: Seq<bool>, n: int) -> Turning
    decreases n,
{
    if n <= 0 {
        turning
    } else {
        turning_after(turning, bits, n - 1).after(frame_signs(turning, bits, n - 1))
    }
}

/// The sign bits of shaping frame `n`.
pub open spec fn frame_signs(turning: Turning, bits: Seq<bool>, n: int) -> Seq<bool> {
    let each = turning.last_t.len() - 1;
    bits.subrange(each * n, each * n + each)
}

/// A shaping frame that waits for its rule.
pub struct Piece {
    pub ucodes: Seq<u8>,
    pub signs: Seq<bool>,
}

impl Piece {
    /// Symbol `k` under a rule.
    pub open spec fn symbol(self, rule: Rule, k: int) -> Codeword {
        Codeword { ucode: self.ucodes[k], positive: self.signs[k] != rule.spec_inverts(k) }
    }

    pub open spec fn symbols(self, rule: Rule) -> Seq<Codeword> {
        Seq::new(self.ucodes.len(), |k: int| self.symbol(rule, k))
    }
}

/// A shaping frame that waits for its rule.
#[derive(Debug)]
pub struct Pending {
    pub ucodes: Vec<u8>,
    /// t of § 5.4.5.2, the signs before shaping.
    pub signs: Vec<bool>,
}

impl View for Pending {
    type V = Piece;

    open spec fn view(&self) -> Piece {
        Piece { ucodes: self.ucodes@, signs: self.signs@ }
    }
}

impl Pending {
    /// The symbols of the frame under `rule`.
    #[must_use]
    pub fn signed(&self, rule: Rule) -> (symbols: Vec<Codeword>)
        requires
            self.signs.len() == self.ucodes.len(),
        ensures
            symbols@ == self@.symbols(rule),
    {
        let mut symbols: Vec<Codeword> = Vec::new();
        let mut k: usize = 0;
        while k < self.ucodes.len()
            invariant
                k <= self.ucodes.len() == self.signs.len(),
                symbols.len() == k,
                forall|i: int| 0 <= i < k ==> #[trigger] symbols[i] == self@.symbol(rule, i),
            decreases self.ucodes.len() - k,
        {
            symbols.push(
                Codeword { ucode: self.ucodes[k], positive: self.signs[k] != rule.inverts(k) },
            );
            k += 1;
        }
        assert(symbols@ =~= self@.symbols(rule));
        symbols
    }
}

/// Maps data frames to codewords, with the spectral shaping that the
/// mapping asks for. What chooses the rule of each shaping frame, by the
/// filter of § 5.4.5.6, is up to its user.
#[derive(Debug)]
pub struct Encoder {
    mapping: Mapping,
    pending: VecDeque<Pending>,
    out: VecDeque<Codeword>,
    last_sign: bool,
    last_odd: bool,
    last_t: Vec<bool>,
    state: bool,
}

impl Encoder {
    pub closed spec fn spec_mapping(self) -> Mapping {
        self.mapping
    }

    /// The shaping frames that wait for their rules.
    pub closed spec fn pending(self) -> Seq<Piece> {
        Seq::new(self.pending@.len(), |i: int| self.pending@[i]@)
    }

    /// The codewords that wait for their frame.
    pub closed spec fn out(self) -> Seq<Codeword> {
        self.out@
    }

    /// The last sign without shaping.
    pub closed spec fn last_sign(self) -> bool {
        self.last_sign
    }

    pub closed spec fn turning(self) -> Turning {
        Turning { last_odd: self.last_odd, last_t: self.last_t@ }
    }

    /// Q of figure 2.
    pub closed spec fn spec_state(self) -> bool {
        self.state
    }

    pub closed spec fn valid(self) -> bool {
        &&& self.mapping.valid()
        &&& self.last_t@.len() == self.mapping.spec_shaping_length()
        &&& forall|i: int|
            0 <= i < self.pending@.len() ==> (#[trigger] self.pending@[i])@.signs.len()
                == self.pending@[i]@.ucodes.len()
    }

    /// It has taken nothing yet.
    pub open spec fn starts(self) -> bool {
        &&& self.pending() == Seq::<Piece>::empty()
        &&& self.out() == Seq::<Codeword>::empty()
        &&& !self.last_sign()
        &&& self.turning() == Turning::at_rest(self.spec_mapping())
        &&& !self.spec_state()
    }

    /// With its differential encoders at zero, as TRN2d and B1d start them.
    #[must_use]
    pub fn new(mapping: Mapping) -> (encoder: Self)
        requires
            mapping.valid(),
        ensures
            encoder.valid(),
            encoder.spec_mapping() == mapping,
            encoder.starts(),
    {
        let last_t = falses(mapping.shaping_length());
        let encoder = Self {
            mapping,
            pending: VecDeque::new(),
            out: VecDeque::new(),
            last_sign: false,
            last_odd: false,
            last_t,
            state: false,
        };
        assert(encoder.pending() =~= Seq::<Piece>::empty());
        encoder
    }

    #[must_use]
    pub fn mapping(&self) -> (mapping: &Mapping)
        ensures
            *mapping == self.spec_mapping(),
    {
        &self.mapping
    }

    pub proof fn lemma_mapping_valid(self)
        requires
            self.valid(),
        ensures
            self.spec_mapping().valid(),
            self.turning().last_t.len() == self.spec_mapping().spec_shaping_length(),
    {
    }

    /// Whether the next frame of codewords waits for another data frame of
    /// bits, which may be frames ahead.
    #[must_use]
    pub fn wants_bits(&self) -> (wants: bool)
        ensures
            wants == (self.out().len() < 6 && (self.spec_mapping().redundancy == 0
                || self.pending().len() <= self.spec_mapping().lookahead)),
    {
        self.out.len() < 6 && (self.mapping.redundancy == 0 || self.pending.len()
            <= self.mapping.lookahead as usize)
    }

    /// Whether it waits for the rule of the oldest shaping frame.
    #[must_use]
    pub fn wants_rule(&self) -> (wants: bool)
        ensures
            wants == (self.out().len() < 6 && self.spec_mapping().redundancy != 0
                && self.pending().len() > self.spec_mapping().lookahead),
    {
        self.out.len() < 6 && self.mapping.redundancy != 0 && self.pending.len()
            > self.mapping.lookahead as usize
    }

    /// The shaping frames that wait, the oldest first.
    #[must_use]
    pub fn waiting(&self) -> (waiting: &VecDeque<Pending>)
        ensures
            waiting@.len() == self.pending().len(),
            forall|i: int| 0 <= i < waiting@.len() ==> (#[trigger] waiting@[i])@ == self.pending()[i],
    {
        &self.pending
    }

    /// Q of figure 2.
    #[must_use]
    pub fn state(&self) -> (state: bool)
        ensures
            state == self.spec_state(),
    {
        self.state
    }

    /// `after` is this encoder once it has taken a data frame.
    pub open spec fn took(self, frame: Seq<bool>, after: Self) -> bool {
        let mapping = self.spec_mapping();
        &&& after.spec_mapping() == mapping
        &&& after.spec_state() == self.spec_state()
        &&& if mapping.redundancy == 0 {
            &&& after.pending() == self.pending()
            &&& after.turning() == self.turning()
            &&& after.out() == self.out() + unshaped(mapping, self.last_sign(), frame)
            &&& after.last_sign() == sign_after(self.last_sign(), frame, 6)
        } else {
            &&& after.pending() == self.pending() + pieces(mapping, self.turning(), frame)
            &&& after.turning() == turning_after(
                self.turning(),
                frame.take(mapping.spec_sign_bits()),
                6int / mapping.spec_shaping_length(),
            )
            &&& after.out() == self.out()
            &&& after.last_sign() == self.last_sign()
        }
    }

    /// Takes the D bits of a data frame.
    pub fn take(&mut self, frame: &[bool])
        requires
            old(self).valid(),
            frame.len() == old(self).spec_mapping().spec_bits(),
        ensures
            final(self).valid(),
            old(self).took(frame@, *final(self)),
    {
        let sign_bits = self.mapping.sign_bits();
        let (signs, modulus) = frame.split_at(sign_bits);
        assert(signs@ =~= frame@.take(sign_bits as int));
        assert(modulus@ =~= frame@.skip(sign_bits as int));
        let ucodes = self.mapping.map(modulus);
        if self.mapping.redundancy == 0 {
            self.unshape(signs, ucodes, Ghost(frame@));
        } else {
            self.parse(signs, ucodes, Ghost(frame@));
        }
    }

    /// § 5.4.5.1: Sr = 0, S = 6.
    fn unshape(&mut self, signs: &[bool], ucodes: [u8; 6], Ghost(frame): Ghost<Seq<bool>>)
        requires
            old(self).valid(),
            old(self).mapping.redundancy == 0,
            frame.len() == old(self).mapping.spec_bits(),
            signs@ == frame.take(6),
            forall|i: int|
                0 <= i < 6 ==> #[trigger] ucodes@[i] == old(self).mapping.mapped(frame.skip(6), i),
        ensures
            final(self).valid(),
            final(self).mapping == old(self).mapping,
            final(self).state == old(self).state,
            final(self).pending() == old(self).pending(),
            final(self).turning() == old(self).turning(),
            final(self).out@ == old(self).out@ + unshaped(
                old(self).mapping,
                old(self).last_sign,
                frame,
            ),
            final(self).last_sign == sign_after(old(self).last_sign, frame, 6),
    {
        let ghost before = *self;
        let ghost all = unshaped(before.mapping, before.last_sign, frame);
        let mut n: usize = 0;
        while n < 6
            invariant
                n <= 6,
                signs@ == frame.take(6),
                frame.len() >= 6,
                signs.len() == 6,
                all == unshaped(before.mapping, before.last_sign, frame),
                self.mapping == before.mapping,
                self.state == before.state,
                self.pending == before.pending,
                self.last_odd == before.last_odd,
                self.last_t == before.last_t,
                before.valid(),
                before.mapping.redundancy == 0,
                forall|i: int|
                    0 <= i < 6 ==> #[trigger] ucodes@[i] == before.mapping.mapped(frame.skip(6), i),
                self.out@ == before.out@ + all.take(n as int),
                self.last_sign == sign_after(before.last_sign, frame, n as int),
            decreases 6 - n,
        {
            self.last_sign = self.last_sign != signs[n];
            assert(ucodes@[n as int] == before.mapping.mapped(frame.skip(6), n as int));
            self.out.push_back(Codeword { ucode: ucodes[n], positive: self.last_sign });
            assert(all.take(n + 1) =~= all.take(n as int).push(all[n as int]));
            n += 1;
        }
        assert(all.take(6) =~= all);
    }

    /// Tables 3 and 4 and the second differential encoding, for each shaping
    /// frame of a data frame.
    fn parse(&mut self, signs: &[bool], ucodes: [u8; 6], Ghost(frame): Ghost<Seq<bool>>)
        requires
            old(self).valid(),
            old(self).mapping.redundancy != 0,
            frame.len() == old(self).mapping.spec_bits(),
            signs@ == frame.take(old(self).mapping.spec_sign_bits()),
            forall|i: int|
                0 <= i < 6 ==> #[trigger] ucodes@[i] == old(self).mapping.mapped(
                    frame.skip(old(self).mapping.spec_sign_bits()),
                    i,
                ),
        ensures
            final(self).valid(),
            final(self).mapping == old(self).mapping,
            final(self).state == old(self).state,
            final(self).out@ == old(self).out@,
            final(self).last_sign == old(self).last_sign,
            final(self).pending() == old(self).pending() + pieces(
                old(self).mapping,
                old(self).turning(),
                frame,
            ),
            final(self).turning() == turning_after(
                old(self).turning(),
                signs@,
                6int / old(self).mapping.spec_shaping_length(),
            ),
    {
        let ghost before = *self;
        let ghost turning = self.turning();
        let ghost all = pieces(before.mapping, turning, frame);
        let length = self.mapping.shaping_length();
        let count: usize = 6 / length;
        let mut n: usize = 0;
        assert(turning_after(turning, signs@, 0) == turning);
        assert(self.pending() + all.take(0) =~= self.pending());
        while n < count
            invariant
                n <= count,
                count == 6int / length as int,
                length == before.mapping.spec_shaping_length(),
                before.valid(),
                before.mapping.redundancy != 0,
                before.mapping.redundancy <= 3,
                self.valid(),
                self.mapping == before.mapping,
                self.state == before.state,
                self.out@ == before.out@,
                self.last_sign == before.last_sign,
                turning == before.turning(),
                turning.last_t.len() == length,
                frame.len() == before.mapping.spec_bits(),
                signs@ == frame.take(before.mapping.spec_sign_bits()),
                all == pieces(before.mapping, turning, frame),
                self.turning() == turning_after(turning, signs@, n as int),
                self.pending() == before.pending() + all.take(n as int),
                forall|i: int|
                    0 <= i < 6 ==> #[trigger] ucodes@[i] == before.mapping.mapped(
                        frame.skip(before.mapping.spec_sign_bits()),
                        i,
                    ),
            decreases count - n,
        {
            let each = length - 1;
            proof {
                assert((length == 6 && count == 1) || (length == 3 && count == 2) || (length == 2
                    && count == 3));
                assert(signs@.len() == each * count) by {
                    assert(before.mapping.spec_sign_bits() == each * count);
                }
                assert(each * n + each <= signs@.len()) by (nonlinear_arith)
                    requires
                        signs@.len() == each * count,
                        n < count,
                        each >= 1,
                ;
                assert(0 <= each * n <= 6) by (nonlinear_arith)
                    requires
                        each * n + each <= 6,
                        each >= 1,
                        n >= 0,
                ;
                assert(length * n + length <= 6) by {
                    assert(n <= 2);
                }
            }
            let ghost own = frame_signs(turning, signs@, n as int);
            let (t, last_odd) = self.turn(signs, each * n, Ghost(own));
            let mut part: Vec<u8> = Vec::new();
            let mut k: usize = 0;
            while k < length
                invariant
                    k <= length,
                    length * n + length <= 6,
                    part.len() == k,
                    forall|i: int| 0 <= i < k ==> #[trigger] part[i] == ucodes@[length * n + i],
                decreases length - k,
            {
                part.push(ucodes[length * n + k]);
                k += 1;
            }
            self.last_odd = last_odd;
            self.last_t = copied_bits(&t);
            let ghost held = self.pending();
            let pending = Pending { ucodes: part, signs: t };
            let ghost piece = pending@;
            self.pending.push_back(pending);
            proof {
                assert(piece.ucodes =~= all[n as int].ucodes);
                assert(piece.signs =~= all[n as int].signs);
                assert(piece == all[n as int]);
                assert(self.pending() =~= held.push(piece));
                assert(self.pending() =~= before.pending() + all.take(n + 1));
                assert(self.turning().last_t =~= turning_after(turning, signs@, n + 1).last_t);
            }
            n += 1;
        }
        assert(all.take(count as int) =~= all);
    }

    /// t and the last odd bit of the shaping frame whose bits begin at `at`.
    fn turn(&self, signs: &[bool], at: usize, Ghost(own): Ghost<Seq<bool>>) -> (out: (
        Vec<bool>,
        bool,
    ))
        requires
            2 <= self.last_t@.len() <= 6,
            at + self.last_t@.len() - 1 <= signs.len(),
            own == signs@.subrange(at as int, at + self.last_t@.len() - 1),
        ensures
            out.0@ == self.turning().signs(own),
            out.1 == self.turning().after(own).last_odd,
    {
        let length = self.last_t.len();
        let mut p: Vec<bool> = Vec::new();
        p.push(false);
        let mut last_odd = self.last_odd;
        let mut k: usize = 1;
        while k < length
            invariant
                1 <= k <= length <= 6,
                length == self.last_t@.len(),
                at + length - 1 <= signs.len(),
                own == signs@.subrange(at as int, at + length - 1),
                p.len() == k,
                forall|i: int| 0 <= i < k ==> #[trigger] p[i] == turned(own, self.last_odd, i),
                last_odd == if k == 1 {
                    self.last_odd
                } else {
                    turned(own, self.last_odd, last_odd_position(k as int))
                },
            decreases length - k,
        {
            let bit = signs[at + k - 1];
            assert(bit == own[k - 1]);
            if k % 2 == 1 {
                last_odd = bit != last_odd;
                p.push(last_odd);
            } else {
                p.push(bit);
            }
            k += 1;
        }
        let mut t: Vec<bool> = Vec::new();
        let mut k: usize = 0;
        while k < length
            invariant
                k <= length == p.len(),
                length == self.last_t@.len(),
                t.len() == k,
                forall|i: int| 0 <= i < length ==> #[trigger] p[i] == turned(own, self.last_odd, i),
                forall|i: int| 0 <= i < k ==> #[trigger] t[i] == self.turning().signs(own)[i],
            decreases length - k,
        {
            t.push(p[k] != self.last_t[k]);
            k += 1;
        }
        assert(t@ =~= self.turning().signs(own));
        (t, last_odd)
    }

    /// `after` is this encoder once the oldest shaping frame has its rule.
    pub open spec fn ruled(self, rule: Rule, after: Self) -> bool {
        &&& after.spec_mapping() == self.spec_mapping()
        &&& after.pending() == self.pending().skip(1)
        &&& after.out() == self.out() + self.pending()[0].symbols(rule)
        &&& after.spec_state() == rule.spec_next_state()
        &&& after.turning() == self.turning()
        &&& after.last_sign() == self.last_sign()
    }

    /// § 5.4.5.5: sends the oldest shaping frame under `rule`, one of those
    /// that figure 2 allows.
    pub fn shape(&mut self, rule: Rule)
        requires
            old(self).valid(),
            old(self).pending().len() > 0,
            rule.fits_state(old(self).spec_state()),
        ensures
            final(self).valid(),
            old(self).ruled(rule, *final(self)),
    {
        let ghost before = *self;
        if let Some(frame) = self.pending.pop_front() {
            assert(frame@ == before.pending()[0]);
            assert(self.pending() =~= before.pending().skip(1));
            assert(before.pending@[0]@.signs.len() == before.pending@[0]@.ucodes.len());
            let symbols = frame.signed(rule);
            let mut k: usize = 0;
            while k < symbols.len()
                invariant
                    k <= symbols.len(),
                    self.mapping == before.mapping,
                    self.state == before.state,
                    self.last_sign == before.last_sign,
                    self.last_odd == before.last_odd,
                    self.last_t == before.last_t,
                    self.pending() == before.pending().skip(1),
                    self.valid(),
                    self.out@ == before.out@ + symbols@.take(k as int),
                decreases symbols.len() - k,
            {
                self.out.push_back(symbols[k]);
                assert(symbols@.take(k + 1) =~= symbols@.take(k as int).push(symbols@[k as int]));
                k += 1;
            }
            assert(symbols@.take(k as int) =~= symbols@);
            self.state = rule.next_state();
        }
    }

    /// `after` is this encoder once it has given the six codewords that wait,
    /// if there are as many.
    pub open spec fn gave(self, frame: Option<[Codeword; 6]>, after: Self) -> bool {
        &&& after.spec_mapping() == self.spec_mapping()
        &&& after.pending() == self.pending()
        &&& after.turning() == self.turning()
        &&& after.spec_state() == self.spec_state()
        &&& after.last_sign() == self.last_sign()
        &&& match frame {
            Some(frame) => self.out().len() >= 6 && frame@ == self.out().take(6) && after.out()
                == self.out().skip(6),
            None => self.out().len() < 6 && after.out() == self.out(),
        }
    }

    /// The next data frame of codewords, once there are six.
    pub fn frame(&mut self) -> (frame: Option<[Codeword; 6]>)
        requires
            old(self).valid(),
        ensures
            final(self).valid(),
            old(self).gave(frame, *final(self)),
    {
        if self.out.len() < 6 {
            return None;
        }
        let ghost before = self.out@;
        let frame = [
            self.out[0],
            self.out[1],
            self.out[2],
            self.out[3],
            self.out[4],
            self.out[5],
        ];
        assert(frame@ =~= before.take(6));
        let ghost kept = *self;
        let mut n: usize = 0;
        while n < 6
            invariant
                n <= 6,
                before.len() >= 6,
                self.out@ == before.skip(n as int),
                self.mapping == kept.mapping,
                self.pending == kept.pending,
                self.last_sign == kept.last_sign,
                self.last_odd == kept.last_odd,
                self.last_t == kept.last_t,
                self.state == kept.state,
            decreases 6 - n,
        {
            let _sent = self.out.pop_front();
            assert(self.out@ =~= before.skip(n + 1));
            n += 1;
        }
        Some(frame)
    }
}

pub(crate) fn falses(count: usize) -> (bits: Vec<bool>)
    ensures
        bits@ == Seq::new(count as nat, |i: int| false),
{
    let mut bits: Vec<bool> = Vec::new();
    while bits.len() < count
        invariant
            bits.len() <= count,
            forall|i: int| 0 <= i < bits.len() ==> !#[trigger] bits[i],
        decreases count - bits.len(),
    {
        bits.push(false);
    }
    assert(bits@ =~= Seq::new(count as nat, |i: int| false));
    bits
}

pub(crate) fn copied_bits(bits: &Vec<bool>) -> (copy: Vec<bool>)
    ensures
        copy@ == bits@,
{
    let mut copy: Vec<bool> = Vec::new();
    let mut i: usize = 0;
    while i < bits.len()
        invariant
            i <= bits.len(),
            copy@ == bits@.take(i as int),
        decreases bits.len() - i,
    {
        copy.push(bits[i]);
        i += 1;
    }
    assert(bits@.take(i as int) =~= bits@);
    copy
}

/// The sign after the first `n` bits, each of which turns it.
pub open spec fn sign_after(last: bool, bits: Seq<bool>, n: int) -> bool
    decreases n,
{
    if n <= 0 {
        last
    } else {
        sign_after(last, bits, n - 1) != bits[n - 1]
    }
}

/// The codewords of a data frame without shaping.
pub open spec fn unshaped(mapping: Mapping, last: bool, frame: Seq<bool>) -> Seq<Codeword> {
    Seq::new(
        6,
        |n: int|
            Codeword {
                ucode: mapping.mapped(frame.skip(6), n),
                positive: sign_after(last, frame, n + 1),
            },
    )
}

/// The shaping frames of a data frame.
pub open spec fn pieces(mapping: Mapping, turning: Turning, frame: Seq<bool>) -> Seq<Piece> {
    let signs = frame.take(mapping.spec_sign_bits());
    let modulus = frame.skip(mapping.spec_sign_bits());
    let length = mapping.spec_shaping_length();
    Seq::new(
        (6int / length) as nat,
        |n: int|
            Piece {
                ucodes: Seq::new(length as nat, |k: int| mapping.mapped(modulus, length * n + k)),
                signs: turning_after(turning, signs, n).signs(frame_signs(turning, signs, n)),
            },
    )
}

/// Without shaping, a sign bit of 1 turns the sign of its symbol against the
/// one before, also across data frames, and the bits after the six sign bits
/// are the modulus bits.
pub proof fn law_each_sign_bit_turns_the_sign(mapping: Mapping, last: bool, frame: Seq<bool>, n: int)
    requires
        0 <= n < 6,
    ensures
        unshaped(mapping, last, frame).len() == 6,
        (unshaped(mapping, last, frame)[n].positive != (if n == 0 {
            last
        } else {
            unshaped(mapping, last, frame)[n - 1].positive
        })) == frame[n],
        unshaped(mapping, last, frame)[n].ucode == mapping.mapped(frame.skip(6), n),
        sign_after(last, frame, 6) == unshaped(mapping, last, frame)[5].positive,
{
    assert(sign_after(last, frame, n + 1) == (sign_after(last, frame, n) != frame[n]));
    assert(sign_after(last, frame, 0) == last);
}

/// § 5.4.5.2, before shaping: the first sign of a shaping frame is that of the
/// one before. An even sign turns against the same place of the one before
/// where its bit is 1. An odd sign turns so where its bit is 1 and the odd
/// sign before it did not turn, or its bit is 0 and that did.
pub proof fn law_the_signs_of_a_shaping_frame(turning: Turning, bits: Seq<bool>, k: int)
    requires
        0 <= k < turning.last_t.len(),
    ensures
        ({
            let t = turning.signs(bits);
            let turn = t[k] != turning.last_t[k];
            &&& t.len() == turning.last_t.len()
            &&& k == 0 ==> !turn
            &&& k > 0 && k % 2 == 0 ==> turn == bits[k - 1]
            &&& k == 1 ==> turn == (bits[0] != turning.last_odd)
            &&& k >= 3 && k % 2 == 1 ==> turn == (bits[k - 1] != (t[k - 2] != turning.last_t[k
                - 2]))
            &&& turning.after(bits).last_t == t
            &&& k % 2 == 1 && k + 2 >= turning.last_t.len() ==> turning.after(bits).last_odd == turn
        }),
{
}

/// A data frame with shaping has its sign bits first, six less one for each
/// shaping frame, and its modulus bits after them. Its shaping frames are 6, 3
/// or 2 symbols long, and take the Ucodes in order.
pub proof fn law_the_shaping_frames_of_a_data_frame(
    mapping: Mapping,
    turning: Turning,
    frame: Seq<bool>,
    n: int,
    k: int,
)
    requires
        1 <= mapping.redundancy <= 3,
        turning.last_t.len() == mapping.spec_shaping_length(),
        frame.len() >= 6,
        0 <= n < mapping.redundancy,
        0 <= k < turning.last_t.len(),
    ensures
        turning.last_t.len() * mapping.redundancy == 6,
        pieces(mapping, turning, frame).len() == mapping.redundancy,
        pieces(mapping, turning, frame)[n].ucodes.len() == turning.last_t.len(),
        pieces(mapping, turning, frame)[n].ucodes[k] == mapping.mapped(
            frame.skip(6 - mapping.redundancy),
            turning.last_t.len() * n + k,
        ),
        n == 0 ==> pieces(mapping, turning, frame)[0].signs == turning.signs(
            frame.take(turning.last_t.len() - 1),
        ),
        n == 1 ==> ({
            let each = turning.last_t.len() - 1;
            pieces(mapping, turning, frame)[1].signs == turning.after(frame.take(each)).signs(
                frame.subrange(each, 2 * each),
            )
        }),
        n == 2 ==> ({
            let each = turning.last_t.len() - 1;
            pieces(mapping, turning, frame)[2].signs == turning.after(frame.take(each)).after(
                frame.subrange(each, 2 * each),
            ).signs(frame.subrange(2 * each, 3 * each))
        }),
{
    let each = turning.last_t.len() - 1;
    let signs = frame.take(mapping.spec_sign_bits());
    let length = mapping.spec_shaping_length();
    assert(6int / 6int == 1 && 6int / 3int == 2 && 6int / 2int == 3);
    reveal_with_fuel(turning_after, 3);
    assert(each * 0 == 0 && each * 1 == each && each * 2 == 2 * each);
    assert(length * n == turning.last_t.len() * n);
    assert(frame_signs(turning, signs, 0) =~= frame.take(each));
    if mapping.redundancy >= 2 {
        assert(frame_signs(turning, signs, 1) =~= frame.subrange(each, 2 * each));
    }
    if mapping.redundancy == 3 {
        assert(frame_signs(turning, signs, 2) =~= frame.subrange(2 * each, 3 * each));
    }
}

/// § 5.4.5.5 and figure 2: rule A inverts no sign and rule B all of them, in
/// the state that A leads to; rule C inverts every other sign from the first
/// and rule D those between, in the state that B leads to. C leads where A
/// does, and D where B does.
pub proof fn law_the_rules_of_figure_2(position: int, state: bool)
    requires
        position >= 0,
    ensures
        !Rule::A.spec_inverts(position),
        Rule::B.spec_inverts(position),
        Rule::C.spec_inverts(2 * position) && !Rule::C.spec_inverts(2 * position + 1),
        !Rule::D.spec_inverts(2 * position) && Rule::D.spec_inverts(2 * position + 1),
        !Rule::A.spec_next_state() && !Rule::C.spec_next_state(),
        Rule::B.spec_next_state() && Rule::D.spec_next_state(),
        Rule::A.fits_state(state) == !state && Rule::B.fits_state(state) == !state,
        Rule::C.fits_state(state) == state && Rule::D.fits_state(state) == state,
{
}

/// A rule turns the signs that it inverts, and leaves the Ucodes.
pub proof fn law_a_rule_turns_signs(piece: Piece, rule: Rule, k: int)
    requires
        0 <= k < piece.ucodes.len(),
    ensures
        piece.symbols(rule).len() == piece.ucodes.len(),
        piece.symbols(rule)[k].ucode == piece.ucodes[k],
        (piece.symbols(rule)[k].positive != piece.signs[k]) == rule.spec_inverts(k),
{
}

/// The differential decoders of the analogue modem.
pub struct Reading {
    pub last_odd: bool,
    /// The signs of the last shaping frame.
    pub last_signs: Seq<bool>,
}

impl Reading {
    /// How sign `k` turned since the last shaping frame.
    pub open spec fn turn(self, signs: Seq<bool>, k: int) -> bool {
        signs[k] != self.last_signs[k]
    }

    /// Bit `k - 1` of a shaping frame.
    pub open spec fn bit(self, signs: Seq<bool>, k: int) -> bool {
        if k % 2 == 0 {
            self.turn(signs, k) != self.turn(signs, 0)
        } else if k == 1 {
            (self.turn(signs, 1) != self.last_odd) != self.turn(signs, 0)
        } else {
            self.turn(signs, k) != self.turn(signs, k - 2)
        }
    }

    pub open spec fn bits(self, signs: Seq<bool>) -> Seq<bool> {
        Seq::new((self.last_signs.len() - 1) as nat, |i: int| self.bit(signs, i + 1))
    }

    pub open spec fn after(self, signs: Seq<bool>) -> Self {
        Self {
            last_odd: self.turn(signs, last_odd_position(self.last_signs.len() as int)),
            last_signs: signs,
        }
    }
}

/// The signs of shaping frame `n`.
pub open spec fn signs_of(codewords: Seq<Codeword>, length: int, n: int) -> Seq<bool> {
    Seq::new(length as nat, |k: int| codewords[length * n + k].positive)
}

/// After the first `n` shaping frames of a data frame.
pub open spec fn reading_after(
    reading: Reading,
    codewords: Seq<Codeword>,
    length: int,
    n: int,
) -> Reading
    decreases n,
{
    if n <= 0 {
        reading
    } else {
        reading_after(reading, codewords, length, n - 1).after(
            signs_of(codewords, length, n - 1),
        )
    }
}

/// The sign bits of the first `n` shaping frames.
pub open spec fn signs_read(
    reading: Reading,
    codewords: Seq<Codeword>,
    length: int,
    n: int,
) -> Seq<bool>
    decreases n,
{
    if n <= 0 {
        Seq::empty()
    } else {
        signs_read(reading, codewords, length, n - 1) + reading_after(
            reading,
            codewords,
            length,
            n - 1,
        ).bits(signs_of(codewords, length, n - 1))
    }
}

/// The sign bits of a data frame without shaping.
pub open spec fn turns(last: bool, codewords: Seq<Codeword>) -> Seq<bool> {
    Seq::new(
        6,
        |n: int|
            codewords[n].positive != (if n == 0 {
                last
            } else {
                codewords[n - 1].positive
            }),
    )
}

pub open spec fn ucodes_of(codewords: Seq<Codeword>) -> Seq<u8> {
    Seq::new(6, |n: int| codewords[n].ucode)
}

/// Turns the codewords of each data frame back into its D bits.
#[derive(Debug)]
pub struct Decoder {
    mapping: Mapping,
    last_sign: bool,
    last_signs: Vec<bool>,
    last_odd: bool,
}

impl Decoder {
    pub closed spec fn spec_mapping(self) -> Mapping {
        self.mapping
    }

    pub closed spec fn last_sign(self) -> bool {
        self.last_sign
    }

    pub closed spec fn reading(self) -> Reading {
        Reading { last_odd: self.last_odd, last_signs: self.last_signs@ }
    }

    pub closed spec fn valid(self) -> bool {
        &&& self.mapping.valid()
        &&& self.last_signs@.len() == self.mapping.spec_shaping_length()
    }

    #[must_use]
    pub fn new(mapping: Mapping) -> (decoder: Self)
        requires
            mapping.valid(),
        ensures
            decoder.valid(),
            decoder.spec_mapping() == mapping,
            decoder.starts(),
    {
        let last_signs = falses(mapping.shaping_length());
        Self { mapping, last_sign: false, last_signs, last_odd: false }
    }

    #[must_use]
    pub fn mapping(&self) -> (mapping: &Mapping)
        ensures
            *mapping == self.spec_mapping(),
    {
        &self.mapping
    }

    /// The D bits of six codewords.
    pub open spec fn spec_frame(self, codewords: Seq<Codeword>) -> Seq<bool> {
        let mapping = self.spec_mapping();
        let length = mapping.spec_shaping_length();
        (if mapping.redundancy == 0 {
            turns(self.last_sign(), codewords)
        } else {
            signs_read(self.reading(), codewords, length, 6int / length)
        }) + mapping.unmapped(ucodes_of(codewords))
    }

    /// `after` is this decoder once it has read six codewords.
    pub open spec fn goes_on(self, codewords: Seq<Codeword>, after: Self) -> bool {
        let length = self.spec_mapping().spec_shaping_length();
        &&& after.spec_mapping() == self.spec_mapping()
        &&& if self.spec_mapping().redundancy == 0 {
            after.last_sign() == codewords[5].positive && after.reading() == self.reading()
        } else {
            &&& after.reading() == reading_after(self.reading(), codewords, length, 6int / length)
            &&& after.last_sign() == self.last_sign()
        }
    }

    /// It has read nothing yet.
    pub open spec fn starts(self) -> bool {
        &&& !self.last_sign()
        &&& self.reading() == Reading {
            last_odd: false,
            last_signs: Seq::new(
                self.spec_mapping().spec_shaping_length() as nat,
                |i: int| false,
            ),
        }
    }

    pub proof fn lemma_mapping_valid(self)
        requires
            self.valid(),
        ensures
            self.spec_mapping().valid(),
    {
    }

    /// The D bits of one data frame.
    pub fn frame(&mut self, codewords: [Codeword; 6]) -> (bits: Vec<bool>)
        requires
            old(self).valid(),
        ensures
            final(self).valid(),
            bits@ == old(self).spec_frame(codewords@),
            old(self).goes_on(codewords@, *final(self)),
    {
        let ucodes = [
            codewords[0].ucode,
            codewords[1].ucode,
            codewords[2].ucode,
            codewords[3].ucode,
            codewords[4].ucode,
            codewords[5].ucode,
        ];
        assert(ucodes@ =~= ucodes_of(codewords@));
        let mut bits = if self.mapping.redundancy == 0 {
            self.unshaped(codewords)
        } else {
            self.shaped(codewords)
        };
        let mut modulus = self.mapping.unmap(ucodes);
        bits.append(&mut modulus);
        bits
    }

    fn unshaped(&mut self, codewords: [Codeword; 6]) -> (bits: Vec<bool>)
        requires
            old(self).valid(),
        ensures
            final(self).mapping == old(self).mapping,
            final(self).last_signs == old(self).last_signs,
            final(self).last_odd == old(self).last_odd,
            final(self).last_sign == codewords@[5].positive,
            bits@ == turns(old(self).last_sign, codewords@),
    {
        let ghost before = *self;
        let mut bits: Vec<bool> = Vec::new();
        let mut n: usize = 0;
        while n < 6
            invariant
                n <= 6,
                self.mapping == before.mapping,
                self.last_signs == before.last_signs,
                self.last_odd == before.last_odd,
                bits@ == turns(before.last_sign, codewords@).take(n as int),
                self.last_sign == if n == 0 {
                    before.last_sign
                } else {
                    codewords@[n - 1].positive
                },
            decreases 6 - n,
        {
            let positive = codewords[n].positive;
            bits.push(positive != self.last_sign);
            self.last_sign = positive;
            assert(bits@ =~= turns(before.last_sign, codewords@).take(n + 1));
            n += 1;
        }
        assert(bits@ =~= turns(before.last_sign, codewords@));
        bits
    }

    fn shaped(&mut self, codewords: [Codeword; 6]) -> (bits: Vec<bool>)
        requires
            old(self).valid(),
            old(self).mapping.redundancy != 0,
        ensures
            final(self).valid(),
            final(self).mapping == old(self).mapping,
            final(self).last_sign == old(self).last_sign,
            ({
                let length = old(self).mapping.spec_shaping_length();
                &&& bits@ == signs_read(old(self).reading(), codewords@, length, 6int / length)
                &&& final(self).reading() == reading_after(
                    old(self).reading(),
                    codewords@,
                    length,
                    6int / length,
                )
            }),
    {
        let ghost before = *self;
        let ghost reading = self.reading();
        let length = self.mapping.shaping_length();
        let count: usize = 6 / length;
        let mut bits: Vec<bool> = Vec::new();
        let mut n: usize = 0;
        while n < count
            invariant
                n <= count,
                (length == 6 && count == 1) || (length == 3 && count == 2) || (length == 2
                    && count == 3),
                length == before.mapping.spec_shaping_length(),
                count == 6int / length as int,
                self.valid(),
                self.mapping == before.mapping,
                self.last_sign == before.last_sign,
                reading == before.reading(),
                self.reading() == reading_after(reading, codewords@, length as int, n as int),
                bits@ == signs_read(reading, codewords@, length as int, n as int),
            decreases count - n,
        {
            assert(length * n + length <= 6) by {
                assert(n <= 2);
            }
            let ghost own = signs_of(codewords@, length as int, n as int);
            let ghost held = self.reading();
            let mut signs: Vec<bool> = Vec::new();
            let mut u: Vec<bool> = Vec::new();
            let mut k: usize = 0;
            while k < length
                invariant
                    k <= length == self.last_signs.len(),
                    length * n + length <= 6,
                    own == signs_of(codewords@, length as int, n as int),
                    held == self.reading(),
                    signs@ == own.take(k as int),
                    u.len() == k,
                    forall|i: int| 0 <= i < k ==> #[trigger] u[i] == held.turn(own, i),
                decreases length - k,
            {
                let positive = codewords[length * n + k].positive;
                assert(positive == own[k as int]);
                signs.push(positive);
                u.push(positive != self.last_signs[k]);
                assert(signs@ =~= own.take(k + 1));
                k += 1;
            }
            assert(signs@ =~= own);
            let ghost kept = bits@;
            let mut k: usize = 1;
            while k < length
                invariant
                    1 <= k <= length == u.len(),
                    held == self.reading(),
                    length == held.last_signs.len(),
                    bits@ == kept + held.bits(own).take(k - 1),
                    forall|i: int| 0 <= i < length ==> #[trigger] u[i] == held.turn(own, i),
                decreases length - k,
            {
                bits.push(
                    if k % 2 == 0 {
                        u[k] != u[0]
                    } else if k == 1 {
                        (u[1] != self.last_odd) != u[0]
                    } else {
                        u[k] != u[k - 2]
                    },
                );
                assert(held.bits(own).take(k as int) =~= held.bits(own).take(k - 1).push(
                    held.bit(own, k as int),
                ));
                k += 1;
            }
            assert(held.bits(own).take(k - 1) =~= held.bits(own));
            self.last_odd = u[length - 1 - length % 2];
            self.last_signs = signs;
            n += 1;
        }
        bits
    }
}

/// A decoder that has followed an encoder to where `state` follows `before`
/// in figure 2.
pub open spec fn in_step(turning: Turning, state: bool, before: bool, reading: Reading) -> bool {
    &&& reading.last_signs.len() == turning.last_t.len()
    &&& forall|k: int|
        0 <= k < turning.last_t.len() ==> #[trigger] reading.last_signs[k] == (turning.last_t[k]
            != (if k % 2 == 0 {
            state != before
        } else {
            state
        }))
    &&& reading.last_odd == (turning.last_odd != (state != before))
}

/// The signs of a shaping frame under a rule.
pub open spec fn sent_signs(signs: Seq<bool>, rule: Rule) -> Seq<bool> {
    Seq::new(signs.len(), |k: int| signs[k] != rule.spec_inverts(k))
}

/// Whatever rule figure 2 allows, the decoder reads the sign bits of a
/// shaping frame back, and stays in step.
pub proof fn law_shaping_hides_no_sign_bit(
    turning: Turning,
    state: bool,
    before: bool,
    reading: Reading,
    bits: Seq<bool>,
    rule: Rule,
)
    requires
        turning.last_t.len() >= 2,
        bits.len() == turning.last_t.len() - 1,
        in_step(turning, state, before, reading),
        rule.fits_state(state),
    ensures
        reading.bits(sent_signs(turning.signs(bits), rule)) == bits,
        in_step(
            turning.after(bits),
            rule.spec_next_state(),
            state,
            reading.after(sent_signs(turning.signs(bits), rule)),
        ),
{
    let sent = sent_signs(turning.signs(bits), rule);
    let next = rule.spec_next_state();
    let length = turning.last_t.len() as int;
    assert forall|k: int| 0 <= k < length implies #[trigger] reading.turn(sent, k) == (turned(
        bits,
        turning.last_odd,
        k,
    ) != (if k % 2 == 0 {
        next != before
    } else {
        next != state
    })) by {
        assert(rule.spec_inverts(k) == (if k % 2 == 0 {
            next != state
        } else {
            next
        }));
        assert(reading.last_signs[k] == (turning.last_t[k] != (if k % 2 == 0 {
            state != before
        } else {
            state
        })));
    }
    assert forall|i: int| 0 <= i < length - 1 implies #[trigger] reading.bits(sent)[i]
        == bits[i] by {
        let k = i + 1;
        assert(reading.bits(sent)[i] == reading.bit(sent, k));
        assert(reading.turn(sent, 0) == (next != before));
        assert(reading.turn(sent, k) == (turned(bits, turning.last_odd, k) != (if k % 2 == 0 {
            next != before
        } else {
            next != state
        })));
        if k % 2 != 0 && k > 1 {
            assert(reading.turn(sent, k - 2) == (turned(bits, turning.last_odd, k - 2) != (next
                != state)));
        }
    }
    assert(reading.bits(sent) =~= bits);
    let last = last_odd_position(length);
    assert(0 <= last < length && last % 2 == 1);
    assert(reading.turn(sent, last) == (turned(bits, turning.last_odd, last) != (next != state)));
    assert forall|k: int| 0 <= k < length implies #[trigger] sent[k] == (turning.signs(bits)[k]
        != (if k % 2 == 0 {
        next != state
    } else {
        next
    })) by {}
}

/// The rules of a data frame, each one that figure 2 allows after the last.
pub open spec fn follows(state: bool, rules: Seq<Rule>) -> bool {
    forall|n: int| 0 <= n < rules.len() ==> (#[trigger] rules[n]).fits_state(
        state_after(state, rules, n),
    )
}

/// Q after the first `n` rules.
pub open spec fn state_after(state: bool, rules: Seq<Rule>, n: int) -> bool {
    if n <= 0 {
        state
    } else {
        rules[n - 1].spec_next_state()
    }
}

/// Q before that.
pub open spec fn state_before(state: bool, before: bool, rules: Seq<Rule>, n: int) -> bool {
    if n <= 0 {
        before
    } else {
        state_after(state, rules, n - 1)
    }
}

/// The symbols of the first `n` shaping frames, each under its rule.
pub open spec fn shaped(pieces: Seq<Piece>, rules: Seq<Rule>, n: int) -> Seq<Codeword>
    decreases n,
{
    if n <= 0 {
        Seq::empty()
    } else {
        shaped(pieces, rules, n - 1) + pieces[n - 1].symbols(rules[n - 1])
    }
}

pub(crate) proof fn lemma_shaped(pieces: Seq<Piece>, rules: Seq<Rule>, length: int, n: int)
    requires
        length > 0,
        n >= 0,
        forall|m: int| 0 <= m < n ==> (#[trigger] pieces[m]).ucodes.len() == length,
    ensures
        shaped(pieces, rules, n).len() == length * n,
        forall|m: int, k: int|
            0 <= m < n && 0 <= k < length ==> #[trigger] shaped(pieces, rules, n)[length * m + k]
                == pieces[m].symbol(rules[m], k),
    decreases n,
{
    if n > 0 {
        lemma_shaped(pieces, rules, length, n - 1);
        assert(length * n == length * (n - 1) + length) by (nonlinear_arith);
        assert forall|m: int, k: int| 0 <= m < n && 0 <= k < length implies #[trigger] shaped(
            pieces,
            rules,
            n,
        )[length * m + k] == pieces[m].symbol(rules[m], k) by {
            if m < n - 1 {
                assert(shaped(pieces, rules, n - 1)[length * m + k] == pieces[m].symbol(
                    rules[m],
                    k,
                ));
                assert(length * m + length <= length * (n - 1)) by (nonlinear_arith)
                    requires
                        m + 1 <= n - 1,
                        length > 0,
                ;
            }
            assert(length * m >= 0) by (nonlinear_arith)
                requires
                    m >= 0,
                    length > 0,
            ;
        }
    }
}

pub(crate) proof fn lemma_turning_length(turning: Turning, bits: Seq<bool>, n: int)
    ensures
        turning_after(turning, bits, n).last_t.len() == turning.last_t.len(),
    decreases n,
{
    if n > 0 {
        lemma_turning_length(turning, bits, n - 1);
    }
}

proof fn lemma_sign_bit_count(mapping: Mapping, n: int)
    requires
        1 <= mapping.redundancy <= 3,
        1 <= n <= 6int / mapping.spec_shaping_length(),
    ensures
        ({
            let each = mapping.spec_shaping_length() - 1;
            &&& 0 <= each * (n - 1)
            &&& each * n == each * (n - 1) + each
            &&& each * n <= mapping.spec_sign_bits()
            &&& n == 6int / mapping.spec_shaping_length() ==> each * n == mapping.spec_sign_bits()
        }),
{
    let length = mapping.spec_shaping_length();
    assert(6int / 6 == 1 && 6int / 3 == 2 && 6int / 2 == 3);
    if length == 6 {
        assert(n == 1);
    } else if length == 3 {
        assert(n == 1 || n == 2);
    } else {
        assert(n == 1 || n == 2 || n == 3);
    }
}

proof fn lemma_signs_back(
    mapping: Mapping,
    turning: Turning,
    state: bool,
    before: bool,
    reading: Reading,
    frame: Seq<bool>,
    rules: Seq<Rule>,
    n: int,
)
    requires
        mapping.valid(),
        mapping.redundancy != 0,
        turning.last_t.len() == mapping.spec_shaping_length(),
        frame.len() == mapping.spec_bits(),
        in_step(turning, state, before, reading),
        rules.len() == 6int / mapping.spec_shaping_length(),
        follows(state, rules),
        0 <= n <= rules.len(),
    ensures
        ({
            let length = mapping.spec_shaping_length();
            let signs = frame.take(mapping.spec_sign_bits());
            let sent = shaped(pieces(mapping, turning, frame), rules, rules.len() as int);
            &&& signs_read(reading, sent, length, n) == signs.take((length - 1) * n)
            &&& in_step(
                turning_after(turning, signs, n),
                state_after(state, rules, n),
                state_before(state, before, rules, n),
                reading_after(reading, sent, length, n),
            )
        }),
    decreases n,
{
    let length = mapping.spec_shaping_length();
    let signs = frame.take(mapping.spec_sign_bits());
    let parts = pieces(mapping, turning, frame);
    let sent = shaped(parts, rules, rules.len() as int);
    if n == 0 {
        assert((length - 1) * 0 == 0);
        assert(signs.take(0) =~= Seq::<bool>::empty());
    } else {
        lemma_signs_back(mapping, turning, state, before, reading, frame, rules, n - 1);
        lemma_shaped(parts, rules, length, rules.len() as int);
        lemma_turning_length(turning, signs, n - 1);
        let held = turning_after(turning, signs, n - 1);
        let own = frame_signs(turning, signs, n - 1);
        let rule = rules[n - 1];
        lemma_sign_bit_count(mapping, n);
        assert(own.len() == length - 1);
        law_shaping_hides_no_sign_bit(
            held,
            state_after(state, rules, n - 1),
            state_before(state, before, rules, n - 1),
            reading_after(reading, sent, length, n - 1),
            own,
            rule,
        );
        let got = signs_of(sent, length, n - 1);
        assert(parts[n - 1].signs == held.signs(own));
        assert forall|k: int| 0 <= k < length implies #[trigger] got[k] == sent_signs(
            held.signs(own),
            rule,
        )[k] by {
            assert(sent[length * (n - 1) + k] == parts[n - 1].symbol(rules[n - 1], k));
        }
        assert(got =~= sent_signs(held.signs(own), rule));
        assert(signs.take((length - 1) * n) =~= signs.take((length - 1) * (n - 1)) + own);
        assert(turning_after(turning, signs, n) == held.after(own));
        assert(reading_after(reading, sent, length, n) == reading_after(
            reading,
            sent,
            length,
            n - 1,
        ).after(got));
        assert(state_after(state, rules, n) == rule.spec_next_state());
    }
}

/// A decoder in step with an encoder reads a data frame back, whatever
/// rules the shaper chose in the trellis of figure 2, and stays in step.
pub proof fn law_decodes_what_it_encodes(
    mapping: Mapping,
    turning: Turning,
    state: bool,
    before: bool,
    reading: Reading,
    frame: Seq<bool>,
    rules: Seq<Rule>,
)
    requires
        mapping.valid(),
        mapping.spec_fits(),
        mapping.labelled(),
        mapping.redundancy != 0,
        turning.last_t.len() == mapping.spec_shaping_length(),
        frame.len() == mapping.spec_bits(),
        in_step(turning, state, before, reading),
        rules.len() == 6int / mapping.spec_shaping_length(),
        follows(state, rules),
    ensures
        ({
            let length = mapping.spec_shaping_length();
            let signs = frame.take(mapping.spec_sign_bits());
            let count = rules.len() as int;
            let sent = shaped(pieces(mapping, turning, frame), rules, count);
            &&& sent.len() == 6
            &&& signs_read(reading, sent, length, count) + mapping.unmapped(ucodes_of(sent))
                == frame
            &&& in_step(
                turning_after(turning, signs, count),
                state_after(state, rules, count),
                state_before(state, before, rules, count),
                reading_after(reading, sent, length, count),
            )
        }),
{
    let length = mapping.spec_shaping_length();
    let signs = frame.take(mapping.spec_sign_bits());
    let modulus = frame.skip(mapping.spec_sign_bits());
    let count = rules.len() as int;
    let parts = pieces(mapping, turning, frame);
    let sent = shaped(parts, rules, count);
    lemma_signs_back(mapping, turning, state, before, reading, frame, rules, count);
    lemma_shaped(parts, rules, length, count);
    lemma_sign_bit_count(mapping, count);
    assert(signs.take((length - 1) * count) =~= signs);
    assert(count * length == 6) by {
        assert(count == 1 || count == 2 || count == 3);
    }
    assert forall|i: int| 0 <= i < 6 implies #[trigger] ucodes_of(sent)[i] == mapping.mapped(
        modulus,
        i,
    ) by {
        let m = i / length;
        let k = i % length;
        assert(i == length * m + k && 0 <= m < count && 0 <= k < length);
        assert(sent[length * m + k] == parts[m].symbol(rules[m], k));
    }
    law_unmaps_the_modulus_bits(mapping, modulus, ucodes_of(sent));
    assert(signs + modulus =~= frame);
}

/// Without shaping, a decoder that saw the encoder's last sign reads a data
/// frame back.
pub proof fn law_decodes_what_it_encodes_unshaped(mapping: Mapping, last: bool, frame: Seq<bool>)
    requires
        mapping.valid(),
        mapping.spec_fits(),
        mapping.labelled(),
        mapping.redundancy == 0,
        frame.len() == mapping.spec_bits(),
    ensures
        turns(last, unshaped(mapping, last, frame)) + mapping.unmapped(
            ucodes_of(unshaped(mapping, last, frame)),
        ) == frame,
        unshaped(mapping, last, frame)[5].positive == sign_after(last, frame, 6),
{
    let sent = unshaped(mapping, last, frame);
    assert forall|n: int| 0 <= n < 6 implies #[trigger] turns(last, sent)[n] == frame[n] by {
        assert(sign_after(last, frame, n + 1) == (sign_after(last, frame, n) != frame[n]));
    }
    law_unmaps_the_modulus_bits(mapping, frame.skip(6), ucodes_of(sent));
    assert(turns(last, sent) + frame.skip(6) =~= frame);
}

/// Encoder and decoder start in step.
pub proof fn law_starts_in_step(length: nat)
    ensures
        in_step(
            Turning { last_odd: false, last_t: Seq::new(length, |i: int| false) },
            false,
            false,
            Reading { last_odd: false, last_signs: Seq::new(length, |i: int| false) },
        ),
{
}

} // verus!

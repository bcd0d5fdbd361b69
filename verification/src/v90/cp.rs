//! CP of § 8.5.2: the constellations and spectral shaping that the analogue
//! modem asks the digital modem to send with.

use crate::v34::bits::{
    field_bits, flag_value, law_fields_stand_at_their_places, law_writes_back_what_it_reads,
    lemma_written_len, number_at, repeated, start, value_of, written, Reader,
};
use crate::v34::info::lemma_flag_at;
use crate::v34::words::{flag, framed, packed, table_of, unpacked, with_crc};
use crate::v90::frames::{
    self, counts, filled, gives_at, incomplete, last_of_crc, law_finds_each_of_repeated_frames,
    resting, Deframing, Words,
};
use crate::v90::ucode::{Law, COUNT};
use vstd::arithmetic::power2::lemma2_to64;
use vstd::prelude::*;

verus! {

/// A constellation: the Ucodes of its positive points.
pub type Constellation = u128;

/// Whether `ucode` is in `constellation`.
pub open spec fn contains(constellation: Constellation, ucode: int) -> bool {
    field_bits(constellation as nat, 128)[ucode]
}

/// The Ucodes of `constellation` below `n`, from the largest down.
pub open spec fn labels_below(constellation: Constellation, n: int) -> Seq<u8>
    decreases n,
{
    if n <= 0 {
        seq![]
    } else if contains(constellation, n - 1) {
        seq![(n - 1) as u8] + labels_below(constellation, n - 1)
    } else {
        labels_below(constellation, n - 1)
    }
}

pub open spec fn spec_labels(constellation: Constellation) -> Seq<u8> {
    labels_below(constellation, 128)
}

proof fn lemma_labels_below(constellation: Constellation, n: int)
    requires
        0 <= n <= 128,
    ensures
        labels_below(constellation, n).len() <= n,
        forall|i: int|
            0 <= i < labels_below(constellation, n).len() ==> #[trigger] labels_below(
                constellation,
                n,
            )[i] < n && contains(constellation, labels_below(constellation, n)[i] as int),
        forall|i: int, j: int|
            0 <= i < j < labels_below(constellation, n).len() ==> #[trigger] labels_below(
                constellation,
                n,
            )[i] > #[trigger] labels_below(constellation, n)[j],
        forall|u: u8|
            u < n && #[trigger] contains(constellation, u as int) ==> labels_below(
                constellation,
                n,
            ).contains(u),
    decreases n,
{
    if n > 0 {
        let less = labels_below(constellation, n - 1);
        lemma_labels_below(constellation, n - 1);
        if contains(constellation, n - 1) {
            let all = labels_below(constellation, n);
            assert forall|i: int| 0 <= i < all.len() implies #[trigger] all[i] < n && contains(
                constellation,
                all[i] as int,
            ) by {
                if i > 0 {
                    assert(all[i] == less[i - 1]);
                }
            }
            assert forall|i: int, j: int| 0 <= i < j < all.len() implies #[trigger] all[i]
                > #[trigger] all[j] by {
                assert(all[j] == less[j - 1]);
                if i > 0 {
                    assert(all[i] == less[i - 1]);
                }
            }
            assert forall|u: u8| u < n && #[trigger] contains(constellation, u as int) implies all.contains(u) by {
                if u == n - 1 {
                    assert(all[0] == u);
                } else {
                    assert(less.contains(u));
                    let k = choose|k: int| 0 <= k < less.len() && less[k] == u;
                    assert(all[k + 1] == u);
                }
            }
        }
    }
}

/// The labels are the Ucodes of the constellation, each once, from the
/// largest down.
pub proof fn law_labels_from_the_largest_ucode_down(constellation: Constellation)
    ensures
        spec_labels(constellation).len() <= 128,
        forall|i: int, j: int|
            0 <= i < j < spec_labels(constellation).len() ==> spec_labels(constellation)[i]
                > spec_labels(constellation)[j],
        forall|u: u8| #[trigger]
            spec_labels(constellation).contains(u) <==> u < 128 && contains(constellation, u as int),
{
    lemma_labels_below(constellation, 128);
    let all = spec_labels(constellation);
    assert forall|u: u8| #[trigger] all.contains(u) implies u < 128 && contains(
        constellation,
        u as int,
    ) by {
        let k = choose|k: int| 0 <= k < all.len() && all[k] == u;
        assert(all[k] < 128);
    }
}

fn constellation_bits(constellation: Constellation) -> (bits: Vec<bool>)
    ensures
        bits@ == field_bits(constellation as nat, 128),
        bits.len() == 128,
{
    let mut bits: Vec<bool> = Vec::new();
    let mut rest: u128 = constellation;
    let mut n: usize = 0;
    while n < 128
        invariant
            n <= 128,
            bits.len() == n,
            bits@ + field_bits(rest as nat, (128 - n) as nat) == field_bits(
                constellation as nat,
                128,
            ),
        decreases 128 - n,
    {
        let ghost before = bits@;
        bits.push(rest % 2 == 1);
        reveal(field_bits);
        assert(bits@ + field_bits((rest / 2) as nat, (128 - n - 1) as nat) =~= before + field_bits(
            rest as nat,
            (128 - n) as nat,
        ));
        rest = rest / 2;
        n += 1;
    }
    reveal(field_bits);
    assert(bits@ + field_bits(rest as nat, 0) =~= bits@);
    bits
}

/// The Ucodes of `constellation`, from the largest down, as § 5.4.4 labels
/// them.
#[must_use]
pub fn labels(constellation: Constellation) -> (labels: Vec<u8>)
    ensures
        labels@ == spec_labels(constellation),
{
    let bits = constellation_bits(constellation);
    let mut labels: Vec<u8> = Vec::new();
    let mut left: u8 = COUNT;
    while left > 0
        invariant
            left <= 128,
            bits@ == field_bits(constellation as nat, 128),
            bits.len() == 128,
            labels@ + labels_below(constellation, left as int) == spec_labels(constellation),
        decreases left,
    {
        left -= 1;
        let ghost before = labels@;
        if bits[left as usize] {
            labels.push(left);
        }
        assert(labels@ + labels_below(constellation, left as int) =~= before + labels_below(
            constellation,
            left + 1,
        ));
    }
    assert(labels@ + labels_below(constellation, 0) =~= labels@);
    labels
}

/// A number as `n` words, the lowest first.
pub open spec fn spread(value: nat, n: nat) -> Seq<u16>
    decreases n,
{
    if n == 0 {
        seq![]
    } else {
        seq![(value % 0x1_0000) as u16] + spread(value / 0x1_0000, (n - 1) as nat)
    }
}

/// The number that words make up, the lowest first.
pub open spec fn joined(words: Seq<u16>) -> nat
    decreases words.len(),
{
    if words.len() == 0 {
        0
    } else {
        words[0] as nat + 0x1_0000 * joined(words.skip(1))
    }
}

spec fn limit(n: nat) -> nat
    decreases n,
{
    if n == 0 {
        1
    } else {
        0x1_0000 * limit((n - 1) as nat)
    }
}

proof fn lemma_spread(value: nat, n: nat)
    ensures
        spread(value, n).len() == n,
        value < limit(n) ==> joined(spread(value, n)) == value,
        joined(spread(value, n)) < limit(n),
    decreases n,
{
    if n > 0 {
        lemma_spread(value / 0x1_0000, (n - 1) as nat);
        assert(spread(value, n).skip(1) =~= spread(value / 0x1_0000, (n - 1) as nat));
    }
}

proof fn lemma_joined(words: Seq<u16>)
    ensures
        joined(words) < limit(words.len()),
        limit(words.len()) >= 1,
    decreases words.len(),
{
    if words.len() > 0 {
        lemma_joined(words.skip(1));
    }
}

proof fn lemma_limit()
    ensures
        limit(8) == u128::MAX + 1,
{
    reveal_with_fuel(limit, 9);
}

/// A constellation reads back from its eight words.
pub proof fn law_reads_back_a_constellation(constellation: Constellation)
    ensures
        joined(spread(constellation as nat, 8)) == constellation,
        spread(constellation as nat, 8).len() == 8,
{
    lemma_limit();
    lemma_spread(constellation as nat, 8);
}

/// The words of constellations, eight each.
pub open spec fn masks(constellations: Seq<Constellation>) -> Seq<u16>
    decreases constellations.len(),
{
    if constellations.len() == 0 {
        seq![]
    } else {
        masks(constellations.drop_last()) + spread(constellations.last() as nat, 8)
    }
}

proof fn lemma_masks(constellations: Seq<Constellation>, i: int)
    requires
        0 <= i < constellations.len(),
    ensures
        masks(constellations).len() == 8 * constellations.len(),
        joined(masks(constellations).subrange(8 * i, 8 * i + 8)) == constellations[i],
    decreases constellations.len(),
{
    let less = constellations.drop_last();
    lemma_masks_len(less);
    law_reads_back_a_constellation(constellations.last());
    if i == less.len() {
        assert(masks(constellations).subrange(8 * i, 8 * i + 8) =~= spread(
            constellations.last() as nat,
            8,
        ));
    } else {
        lemma_masks(less, i);
        assert(masks(constellations).subrange(8 * i, 8 * i + 8) =~= masks(less).subrange(
            8 * i,
            8 * i + 8,
        ));
    }
}

proof fn lemma_masks_len(constellations: Seq<Constellation>)
    ensures
        masks(constellations).len() == 8 * constellations.len(),
    decreases constellations.len(),
{
    if constellations.len() > 0 {
        lemma_masks_len(constellations.drop_last());
        lemma_spread(constellations.last() as nat, 8);
    }
}

fn push_mask(words: &mut Vec<u16>, constellation: Constellation)
    ensures
        final(words)@ == old(words)@ + spread(constellation as nat, 8),
{
    let mut rest: u128 = constellation;
    let mut n: usize = 0;
    while n < 8
        invariant
            n <= 8,
            words@ + spread(rest as nat, (8 - n) as nat) == old(words)@ + spread(
                constellation as nat,
                8,
            ),
        decreases 8 - n,
    {
        let ghost before = words@;
        words.push((rest % 0x1_0000) as u16);
        assert(words@ + spread((rest / 0x1_0000) as nat, (8 - n - 1) as nat) =~= before + spread(
            rest as nat,
            (8 - n) as nat,
        ));
        rest = rest / 0x1_0000;
        n += 1;
    }
    assert(words@ + spread(rest as nat, 0) =~= words@);
}

fn from_mask_words(words: &[u16], at: usize) -> (constellation: Constellation)
    requires
        at + 8 <= words.len(),
    ensures
        constellation == joined(words@.subrange(at as int, at + 8)),
{
    let ghost mask = words@.subrange(at as int, at + 8);
    let mut value: u128 = 0;
    let mut left: usize = 8;
    while left > 0
        invariant
            left <= 8,
            at + 8 <= words.len(),
            mask == words@.subrange(at as int, at + 8),
            value == joined(mask.skip(left as int)),
        decreases left,
    {
        left -= 1;
        proof {
            let rest = mask.skip(left as int);
            assert(rest.skip(1) =~= mask.skip(left + 1));
            lemma_joined(rest);
            lemma_limit_grows(rest.len(), 8);
            lemma_limit();
        }
        value = value * 0x1_0000 + words[at + left] as u128;
    }
    assert(mask.skip(0) =~= mask);
    value
}

proof fn lemma_limit_grows(n: nat, k: nat)
    requires
        n <= k,
    ensures
        limit(n) <= limit(k),
    decreases k,
{
    if n < k {
        lemma_limit_grows(n, (k - 1) as nat);
    }
}

/// A spectral shaping filter parameter, in Q1.6.
pub type Coefficient = i8;

/// A coefficient as a byte, in two's complement.
pub open spec fn byte_of(c: Coefficient) -> nat {
    (c as int % 256) as nat
}

pub open spec fn coefficient_of(byte: nat) -> Coefficient {
    if byte < 128 {
        byte as i8
    } else {
        (byte - 256) as i8
    }
}

/// A coefficient reads back from its byte.
pub proof fn law_reads_back_a_coefficient(c: Coefficient)
    ensures
        byte_of(c) < 256,
        coefficient_of(byte_of(c)) == c,
{
}

fn byte(c: Coefficient) -> (value: u32)
    ensures
        value == byte_of(c),
{
    if c < 0 {
        (c as i32 + 256) as u32
    } else {
        c as u32
    }
}

fn coefficient(value: u32) -> (c: Coefficient)
    requires
        value < 256,
    ensures
        c == coefficient_of(value as nat),
{
    if value < 128 {
        value as i8
    } else {
        (value as i32 - 256) as i8
    }
}

/// Table 14.
#[derive(Debug, Clone, PartialEq, Eq)]
pub struct Cp {
    /// CPt, for phase 4 training, else CP for data mode.
    pub training: bool,
    /// drn: (drn + 20) · 8000/6 bit/s in CP, (drn + 8) · 8000/6 in CPt. 0 clears down.
    pub rate: u8,
    /// CPs, which asks for silence in a rate renegotiation.
    pub silence: bool,
    /// Sr, the sign bits of each data frame that shape the spectrum.
    pub redundancy: u8,
    pub acknowledge: bool,
    pub law: Law,
    /// Bit n for (n + 2) · 2400 bit/s upstream, 4800 to 33 600.
    pub upstream_rates: u16,
    /// ld.
    pub lookahead: u8,
    /// The RMS of TRN1d at the transmitter over that at the D/A, in Q3.13.
    pub rms_ratio: u16,
    /// a1, a2, b1 and b2 of § 5.4.5.6.
    pub filter: [Coefficient; 4],
    /// The constellation of each data frame interval, by index.
    pub intervals: [u8; 6],
    pub constellations: Vec<Constellation>,
    /// The constellations at the D/A, if they differ.
    pub at_codec: Option<Vec<Constellation>>,
}

/// The values and widths of bits 18 to 33.
pub open spec fn first_table(cp: Cp) -> Seq<(nat, nat)> {
    seq![
        (0, 1),
        (flag_value(!cp.training), 1),
        (cp.rate as nat, 5),
        (0, 5),
        (flag_value(cp.silence), 1),
        (cp.redundancy as nat, 2),
        (flag_value(cp.acknowledge), 1),
    ]
}

/// The values and widths of bits 35 to 50.
pub open spec fn second_table(cp: Cp) -> Seq<(nat, nat)> {
    seq![
        (flag_value(cp.law == Law::A), 1),
        (cp.upstream_rates as nat, 13),
        (cp.lookahead as nat, 2),
    ]
}

/// The values and widths of two coefficients.
pub open spec fn filter_table(low: Coefficient, high: Coefficient) -> Seq<(nat, nat)> {
    seq![(byte_of(low), 8), (byte_of(high), 8)]
}

/// The values and widths of the first four indices.
pub open spec fn early_table(cp: Cp) -> Seq<(nat, nat)> {
    seq![
        (cp.intervals[0] as nat, 4),
        (cp.intervals[1] as nat, 4),
        (cp.intervals[2] as nat, 4),
        (cp.intervals[3] as nat, 4),
    ]
}

/// The values and widths of the last two indices, and whether there are
/// constellations at the D/A.
pub open spec fn late_table(cp: Cp) -> Seq<(nat, nat)> {
    seq![
        (cp.intervals[4] as nat, 4),
        (cp.intervals[5] as nat, 4),
        (flag_value(cp.at_codec is Some), 1),
        (0, 7),
    ]
}

#[verifier::opaque]
pub open spec fn word_of(table: Seq<(nat, nat)>) -> u16 {
    value_of(written(table, table.len())) as u16
}

/// The words before the first constellation.
pub open spec fn cp_head(cp: Cp) -> Seq<u16> {
    seq![
        word_of(first_table(cp)),
        word_of(second_table(cp)),
        cp.rms_ratio,
        word_of(filter_table(cp.filter[0], cp.filter[1])),
        word_of(filter_table(cp.filter[2], cp.filter[3])),
        word_of(early_table(cp)),
        word_of(late_table(cp)),
    ]
}

/// The words of table 14, CRC aside.
#[verifier::opaque]
pub open spec fn cp_words(cp: Cp) -> Seq<u16> {
    let words = cp_head(cp) + masks(cp.constellations@);
    match cp.at_codec {
        Some(codec) => words + masks(codec@),
        None => words,
    }
}

pub open spec fn cp_frame(cp: Cp) -> Seq<bool> {
    framed(cp_words(cp)) + seq![false, false, false]
}

pub open spec fn larger(a: nat, b: nat) -> nat {
    if a > b {
        a
    } else {
        b
    }
}

/// How many constellations the indices in words 5 and 6 tell of.
pub open spec fn count_in(early: u16, late: u16) -> nat {
    let e = field_bits(early as nat, 16);
    let l = field_bits(late as nat, 16);
    1 + larger(
        larger(
            larger(number_at(e, 0, 4), number_at(e, 4, 4)),
            larger(number_at(e, 8, 4), number_at(e, 12, 4)),
        ),
        larger(number_at(l, 0, 4), number_at(l, 4, 4)),
    )
}

/// Whether word 6 tells of constellations at the D/A.
pub open spec fn codec_in(late: u16) -> bool {
    field_bits(late as nat, 16)[8]
}

/// What the words of table 14 say.
#[verifier::opaque]
pub open spec fn cp_says(words: Seq<u16>, cp: Cp) -> bool {
    let first = field_bits(words[0] as nat, 16);
    let second = field_bits(words[1] as nat, 16);
    let low = field_bits(words[3] as nat, 16);
    let high = field_bits(words[4] as nat, 16);
    let early = field_bits(words[5] as nat, 16);
    let late = field_bits(words[6] as nat, 16);
    let count = count_in(words[5], words[6]);
    &&& cp.training == !first[1]
    &&& cp.rate == number_at(first, 2, 5)
    &&& cp.silence == first[12]
    &&& cp.redundancy == number_at(first, 13, 2)
    &&& cp.acknowledge == first[15]
    &&& cp.law == if second[0] {
        Law::A
    } else {
        Law::Mu
    }
    &&& cp.upstream_rates == number_at(second, 1, 13)
    &&& cp.lookahead == number_at(second, 14, 2)
    &&& cp.rms_ratio == words[2]
    &&& cp.filter[0] == coefficient_of(number_at(low, 0, 8))
    &&& cp.filter[1] == coefficient_of(number_at(low, 8, 8))
    &&& cp.filter[2] == coefficient_of(number_at(high, 0, 8))
    &&& cp.filter[3] == coefficient_of(number_at(high, 8, 8))
    &&& cp.intervals[0] == number_at(early, 0, 4)
    &&& cp.intervals[1] == number_at(early, 4, 4)
    &&& cp.intervals[2] == number_at(early, 8, 4)
    &&& cp.intervals[3] == number_at(early, 12, 4)
    &&& cp.intervals[4] == number_at(late, 0, 4)
    &&& cp.intervals[5] == number_at(late, 4, 4)
    &&& cp.constellations@ == constellations_in(words, 7, count)
    &&& match cp.at_codec {
        Some(codec) => codec_in(words[6]) && codec@ == constellations_in(words, 7 + 8 * count, count),
        None => !codec_in(words[6]),
    }
}

/// `count` constellations from word `at` on.
pub open spec fn constellations_in(words: Seq<u16>, at: nat, count: nat) -> Seq<Constellation> {
    Seq::new(count, |i: int| joined(words.subrange(at + 8 * i, at + 8 * i + 8)) as u128)
}

proof fn lemma_first_starts(cp: Cp)
    ensures
        start(first_table(cp), 0) == 0,
        start(first_table(cp), 1) == 1,
        start(first_table(cp), 2) == 2,
        start(first_table(cp), 3) == 7,
        start(first_table(cp), 4) == 12,
        start(first_table(cp), 5) == 13,
        start(first_table(cp), 6) == 15,
        start(first_table(cp), 7) == 16,
{
    let table = first_table(cp);
    assert(start(table, 0) == 0);
    assert(start(table, 1) == 1);
    assert(start(table, 2) == 2);
    assert(start(table, 3) == 7);
    assert(start(table, 4) == 12);
    assert(start(table, 5) == 13);
    assert(start(table, 6) == 15);
    assert(start(table, 7) == 16);
}

proof fn lemma_second_starts(cp: Cp)
    ensures
        start(second_table(cp), 0) == 0,
        start(second_table(cp), 1) == 1,
        start(second_table(cp), 2) == 14,
        start(second_table(cp), 3) == 16,
{
    let table = second_table(cp);
    assert(start(table, 0) == 0);
    assert(start(table, 1) == 1);
    assert(start(table, 2) == 14);
    assert(start(table, 3) == 16);
}

proof fn lemma_filter_starts(low: Coefficient, high: Coefficient)
    ensures
        start(filter_table(low, high), 0) == 0,
        start(filter_table(low, high), 1) == 8,
        start(filter_table(low, high), 2) == 16,
{
    let table = filter_table(low, high);
    assert(start(table, 0) == 0);
    assert(start(table, 1) == 8);
    assert(start(table, 2) == 16);
}

proof fn lemma_early_starts(cp: Cp)
    ensures
        start(early_table(cp), 0) == 0,
        start(early_table(cp), 1) == 4,
        start(early_table(cp), 2) == 8,
        start(early_table(cp), 3) == 12,
        start(early_table(cp), 4) == 16,
{
    let table = early_table(cp);
    assert(start(table, 0) == 0);
    assert(start(table, 1) == 4);
    assert(start(table, 2) == 8);
    assert(start(table, 3) == 12);
    assert(start(table, 4) == 16);
}

proof fn lemma_late_starts(cp: Cp)
    ensures
        start(late_table(cp), 0) == 0,
        start(late_table(cp), 1) == 4,
        start(late_table(cp), 2) == 8,
        start(late_table(cp), 3) == 9,
        start(late_table(cp), 4) == 16,
{
    let table = late_table(cp);
    assert(start(table, 0) == 0);
    assert(start(table, 1) == 4);
    assert(start(table, 2) == 8);
    assert(start(table, 3) == 9);
    assert(start(table, 4) == 16);
}

proof fn lemma_word_of(table: Seq<(nat, nat)>)
    requires
        start(table, table.len()) == 16,
    ensures
        field_bits(word_of(table) as nat, 16) == written(table, table.len()),
{
    reveal(word_of);
    lemma2_to64();
    lemma_written_len(table, table.len());
    law_writes_back_what_it_reads(written(table, table.len()));
}

impl Cp {
    /// It has as many constellations as its indices tell of.
    pub open spec fn whole(self) -> bool {
        let count = 1 + larger(
            larger(
                larger(self.intervals[0] as nat, self.intervals[1] as nat),
                larger(self.intervals[2] as nat, self.intervals[3] as nat),
            ),
            larger(self.intervals[4] as nat, self.intervals[5] as nat),
        );
        &&& count <= 16
        &&& self.constellations@.len() == count
        &&& match self.at_codec {
            Some(codec) => codec@.len() == count,
            None => true,
        }
    }

    /// `other` is this, as its words keep it.
    pub open spec fn carried_as(self, other: Self) -> bool {
        &&& other.training == self.training
        &&& other.rate == self.rate % 32
        &&& other.silence == self.silence
        &&& other.redundancy == self.redundancy % 4
        &&& other.acknowledge == self.acknowledge
        &&& other.law == self.law
        &&& other.upstream_rates == self.upstream_rates % 0x2000
        &&& other.lookahead == self.lookahead % 4
        &&& other.rms_ratio == self.rms_ratio
        &&& other.filter@ == self.filter@
        &&& other.intervals@ == self.intervals@
        &&& other.constellations@ == self.constellations@
        &&& match (self.at_codec, other.at_codec) {
            (Some(codec), Some(other_codec)) => codec@ == other_codec@,
            (None, None) => true,
            _ => false,
        }
    }

    fn head(&self) -> (words: Vec<u16>)
        ensures
            words@ == cp_head(*self),
    {
        let first = [
            (0, 1),
            (flag(!self.training), 1),
            (self.rate as u32, 5),
            (0, 5),
            (flag(self.silence), 1),
            (self.redundancy as u32, 2),
            (flag(self.acknowledge), 1),
        ];
        let is_a = matches!(self.law, Law::A);
        let second = [(flag(is_a), 1), (self.upstream_rates as u32, 13), (self.lookahead as u32, 2)];
        let low = [(byte(self.filter[0]), 8), (byte(self.filter[1]), 8)];
        let high = [(byte(self.filter[2]), 8), (byte(self.filter[3]), 8)];
        let early = [
            (self.intervals[0] as u32, 4),
            (self.intervals[1] as u32, 4),
            (self.intervals[2] as u32, 4),
            (self.intervals[3] as u32, 4),
        ];
        let late = [
            (self.intervals[4] as u32, 4),
            (self.intervals[5] as u32, 4),
            (flag(self.at_codec.is_some()), 1),
            (0, 7),
        ];
        proof {
            lemma_first_starts(*self);
            lemma_second_starts(*self);
            lemma_filter_starts(self.filter[0], self.filter[1]);
            lemma_filter_starts(self.filter[2], self.filter[3]);
            lemma_early_starts(*self);
            lemma_late_starts(*self);
            assert(table_of(first@) =~= first_table(*self));
            assert(table_of(second@) =~= second_table(*self));
            assert(table_of(low@) =~= filter_table(self.filter[0], self.filter[1]));
            assert(table_of(high@) =~= filter_table(self.filter[2], self.filter[3]));
            assert(table_of(early@) =~= early_table(*self));
            assert(table_of(late@) =~= late_table(*self));
        }
        let mut words: Vec<u16> = Vec::new();
        words.push(packed(&first));
        words.push(packed(&second));
        words.push(self.rms_ratio);
        words.push(packed(&low));
        words.push(packed(&high));
        words.push(packed(&early));
        words.push(packed(&late));
        proof {
            reveal(word_of);
            assert(words@ =~= cp_head(*self));
        }
        words
    }

    fn words(&self) -> (words: Vec<u16>)
        ensures
            words@ == cp_words(*self),
    {
        let mut words = self.head();
        push_masks(&mut words, &self.constellations);
        if let Some(codec) = &self.at_codec {
            push_masks(&mut words, codec);
        }
        proof {
            reveal(cp_words);
        }
        words
    }

    /// Frame sync, the words, the CRC and the fill.
    #[must_use]
    pub fn frame(&self) -> (bits: Vec<bool>)
        ensures
            bits@ == cp_frame(*self),
    {
        let words = self.words();
        let mut bits = frames::frame(words.as_slice());
        bits.push(false);
        bits.push(false);
        bits.push(false);
        assert(bits@ =~= cp_frame(*self));
        bits
    }

    pub open spec fn spec_frame_bits(self) -> int {
        self.rate + if self.training {
            8int
        } else {
            20int
        }
    }

    /// D, the bits of each data frame of six symbols.
    #[must_use]
    pub fn frame_bits(&self) -> (bits: usize)
        ensures
            bits == self.spec_frame_bits(),
    {
        let offset: usize = if self.training {
            8
        } else {
            20
        };
        self.rate as usize + offset
    }

    /// The bits of a data frame, of which there are 8000 / 6 in a second, to
    /// the nearest bit/s.
    pub open spec fn spec_bit_rate(self) -> int {
        (self.spec_frame_bits() * 8000 + 3) / 6
    }

    /// The downstream rate, in bit/s, rounded to the nearest.
    #[must_use]
    pub fn bit_rate(&self) -> (rate: u32)
        ensures
            rate == self.spec_bit_rate(),
    {
        (self.frame_bits() as u32 * 8000 + 3) / 6
    }

    pub open spec fn spec_constellation(self, interval: int) -> Constellation {
        let index = self.intervals[interval] as int;
        if index < self.constellations@.len() {
            self.constellations@[index]
        } else {
            0
        }
    }

    /// The constellation of data frame interval `interval`.
    #[must_use]
    pub fn constellation(&self, interval: usize) -> (constellation: Constellation)
        requires
            interval < 6,
        ensures
            constellation == self.spec_constellation(interval as int),
    {
        let index = self.intervals[interval] as usize;
        if index < self.constellations.len() {
            self.constellations[index]
        } else {
            0
        }
    }
}

fn push_masks(words: &mut Vec<u16>, constellations: &Vec<Constellation>)
    ensures
        final(words)@ == old(words)@ + masks(constellations@),
{
    let mut i: usize = 0;
    assert(masks(constellations@.take(0)) =~= Seq::<u16>::empty());
    while i < constellations.len()
        invariant
            i <= constellations.len(),
            words@ == old(words)@ + masks(constellations@.take(i as int)),
        decreases constellations.len() - i,
    {
        push_mask(words, constellations[i]);
        proof {
            let more = constellations@.take(i + 1);
            assert(more.drop_last() =~= constellations@.take(i as int));
            assert(words@ =~= old(words)@ + masks(more));
        }
        i += 1;
    }
    assert(constellations@.take(i as int) =~= constellations@);
}

/// The numbers of a nibble, from its place in a word.
fn nibbles(word: u16) -> (n: [u8; 4])
    ensures
        n[0] == number_at(field_bits(word as nat, 16), 0, 4),
        n[1] == number_at(field_bits(word as nat, 16), 4, 4),
        n[2] == number_at(field_bits(word as nat, 16), 8, 4),
        n[3] == number_at(field_bits(word as nat, 16), 12, 4),
        n[0] < 16,
        n[1] < 16,
        n[2] < 16,
        n[3] < 16,
{
    let bits = unpacked(word);
    proof {
        lemma2_to64();
    }
    let mut reader = Reader::new(bits.as_slice());
    let a = reader.field(4) as u8;
    let b = reader.field(4) as u8;
    let c = reader.field(4) as u8;
    let d = reader.field(4) as u8;
    [a, b, c, d]
}

fn larger_of(a: u8, b: u8) -> (larger: u8)
    ensures
        larger == crate::v90::cp::larger(a as nat, b as nat),
{
    if a > b {
        a
    } else {
        b
    }
}

/// How many constellations the indices in words 5 and 6 tell of.
fn count(early: u16, late: u16) -> (count: usize)
    ensures
        count == count_in(early, late),
        1 <= count <= 16,
{
    let e = nibbles(early);
    let l = nibbles(late);
    let most = larger_of(
        larger_of(larger_of(e[0], e[1]), larger_of(e[2], e[3])),
        larger_of(l[0], l[1]),
    );
    most as usize + 1
}

fn has_codec(late: u16) -> (has: bool)
    ensures
        has == codec_in(late),
{
    let bits = unpacked(late);
    bits[8]
}

fn read_constellations(words: &[u16], at: usize, count: usize) -> (found: Vec<Constellation>)
    requires
        count <= 16,
        at + 8 * count <= words.len(),
    ensures
        found@ == constellations_in(words@, at as nat, count as nat),
{
    let mut found: Vec<Constellation> = Vec::new();
    let mut i: usize = 0;
    while i < count
        invariant
            i <= count <= 16,
            at + 8 * count <= words.len(),
            found.len() == i,
            forall|k: int|
                0 <= k < i ==> #[trigger] found[k] == constellations_in(
                    words@,
                    at as nat,
                    count as nat,
                )[k],
        decreases count - i,
    {
        found.push(from_mask_words(words, at + 8 * i));
        i += 1;
    }
    assert(found@ =~= constellations_in(words@, at as nat, count as nat));
    found
}

impl Words for Cp {
    open spec fn spec_length(words: Seq<u16>) -> Option<nat> {
        if words.len() < 7 {
            None
        } else {
            Some(
                7 + 8 * count_in(words[5], words[6]) * if codec_in(words[6]) {
                    2nat
                } else {
                    1nat
                },
            )
        }
    }

    open spec fn says(words: Seq<u16>, found: Option<Self>) -> bool {
        match found {
            Some(cp) => cp_says(words, cp),
            None => false,
        }
    }

    proof fn lemma_length_is_told_early(words: Seq<u16>) {
        if words.len() >= 7 {
            let count = count_in(words[5], words[6]) as int;
            let copies = if codec_in(words[6]) {
                2int
            } else {
                1int
            };
            assert(8 * count * copies >= 8) by (nonlinear_arith)
                requires
                    count >= 1,
                    copies >= 1,
            ;
        }
    }

    fn length(words: &[u16]) -> (length: Option<usize>) {
        if words.len() < 7 {
            return None;
        }
        let count = count(words[5], words[6]);
        if has_codec(words[6]) {
            assert(8 * count * 2 == 16 * count);
            Some(7 + 16 * count)
        } else {
            Some(7 + 8 * count)
        }
    }

    fn from_words(words: &[u16]) -> (sequence: Option<Self>) {
        proof {
            lemma2_to64();
            reveal(cp_says);
        }
        let first_bits = unpacked(words[0]);
        let second_bits = unpacked(words[1]);
        let low_bits = unpacked(words[3]);
        let high_bits = unpacked(words[4]);
        let mut first = Reader::new(first_bits.as_slice());
        let mut second = Reader::new(second_bits.as_slice());
        let mut low = Reader::new(low_bits.as_slice());
        let mut high = Reader::new(high_bits.as_slice());
        let _reserved = first.flag();
        let training = !first.flag();
        let rate = first.field(5) as u8;
        let _reserved = first.field(5);
        let silence = first.flag();
        let redundancy = first.field(2) as u8;
        let acknowledge = first.flag();
        let law = if second.flag() {
            Law::A
        } else {
            Law::Mu
        };
        let upstream_rates = second.field(13) as u16;
        let lookahead = second.field(2) as u8;
        let a1 = coefficient(low.field(8));
        let a2 = coefficient(low.field(8));
        let b1 = coefficient(high.field(8));
        let b2 = coefficient(high.field(8));
        let early = nibbles(words[5]);
        let late = nibbles(words[6]);
        let count = count(words[5], words[6]);
        let has_codec = has_codec(words[6]);
        assert(has_codec ==> 8 * count * 2 == 16 * count);
        let constellations = read_constellations(words, 7, count);
        let at_codec = if has_codec {
            Some(read_constellations(words, 7 + 8 * count, count))
        } else {
            None
        };
        Some(
            Self {
                training,
                rate,
                silence,
                redundancy,
                acknowledge,
                law,
                upstream_rates,
                lookahead,
                rms_ratio: words[2],
                filter: [a1, a2, b1, b2],
                intervals: [early[0], early[1], early[2], early[3], late[0], late[1]],
                constellations,
                at_codec,
            },
        )
    }
}

/// What the words before the constellations say.
proof fn lemma_head_says(cp: Cp, words: Seq<u16>)
    requires
        cp.whole(),
        words.len() >= 7,
        words.take(7) == cp_head(cp),
    ensures
        count_in(words[5], words[6]) == cp.constellations@.len(),
        codec_in(words[6]) == (cp.at_codec is Some),
        ({
            let first = field_bits(words[0] as nat, 16);
            let second = field_bits(words[1] as nat, 16);
            let low = field_bits(words[3] as nat, 16);
            let high = field_bits(words[4] as nat, 16);
            let early = field_bits(words[5] as nat, 16);
            let late = field_bits(words[6] as nat, 16);
            &&& first[1] == !cp.training
            &&& number_at(first, 2, 5) == cp.rate % 32
            &&& first[12] == cp.silence
            &&& number_at(first, 13, 2) == cp.redundancy % 4
            &&& first[15] == cp.acknowledge
            &&& second[0] == (cp.law == Law::A)
            &&& number_at(second, 1, 13) == cp.upstream_rates % 0x2000
            &&& number_at(second, 14, 2) == cp.lookahead % 4
            &&& words[2] == cp.rms_ratio
            &&& number_at(low, 0, 8) == byte_of(cp.filter[0])
            &&& number_at(low, 8, 8) == byte_of(cp.filter[1])
            &&& number_at(high, 0, 8) == byte_of(cp.filter[2])
            &&& number_at(high, 8, 8) == byte_of(cp.filter[3])
            &&& number_at(early, 0, 4) == cp.intervals[0]
            &&& number_at(early, 4, 4) == cp.intervals[1]
            &&& number_at(early, 8, 4) == cp.intervals[2]
            &&& number_at(early, 12, 4) == cp.intervals[3]
            &&& number_at(late, 0, 4) == cp.intervals[4]
            &&& number_at(late, 4, 4) == cp.intervals[5]
        }),
{
    let head = words.take(7);
    assert(words[0] == head[0] && words[1] == head[1] && words[2] == head[2] && words[3] == head[3]
        && words[4] == head[4] && words[5] == head[5] && words[6] == head[6]);
    lemma_first_says(cp);
    lemma_second_says(cp);
    lemma_filter_reads(cp.filter[0], cp.filter[1]);
    lemma_filter_reads(cp.filter[2], cp.filter[3]);
    lemma_early_says(cp);
    lemma_late_says(cp);
}

proof fn lemma_first_says(cp: Cp)
    ensures
        ({
            let first = field_bits(word_of(first_table(cp)) as nat, 16);
            &&& first[1] == !cp.training
            &&& number_at(first, 2, 5) == cp.rate % 32
            &&& first[12] == cp.silence
            &&& number_at(first, 13, 2) == cp.redundancy % 4
            &&& first[15] == cp.acknowledge
        }),
{
    let first = first_table(cp);
    lemma2_to64();
    lemma_first_starts(cp);
    assert(first.len() == 7);
    lemma_word_of(first);
    lemma_flag_at(first, 7, 1, !cp.training);
    law_fields_stand_at_their_places(first, 7, 2);
    lemma_flag_at(first, 7, 4, cp.silence);
    law_fields_stand_at_their_places(first, 7, 5);
    lemma_flag_at(first, 7, 6, cp.acknowledge);
    assert(number_at(written(first, 7), 2, 5) == cp.rate % 32);
    assert(number_at(written(first, 7), 13, 2) == cp.redundancy % 4);
}

proof fn lemma_second_says(cp: Cp)
    ensures
        ({
            let second = field_bits(word_of(second_table(cp)) as nat, 16);
            &&& second[0] == (cp.law == Law::A)
            &&& number_at(second, 1, 13) == cp.upstream_rates % 0x2000
            &&& number_at(second, 14, 2) == cp.lookahead % 4
        }),
{
    let second = second_table(cp);
    lemma2_to64();
    lemma_second_starts(cp);
    assert(second.len() == 3);
    lemma_word_of(second);
    lemma_flag_at(second, 3, 0, cp.law == Law::A);
    law_fields_stand_at_their_places(second, 3, 1);
    law_fields_stand_at_their_places(second, 3, 2);
    assert(number_at(written(second, 3), 1, 13) == cp.upstream_rates % 0x2000);
    assert(number_at(written(second, 3), 14, 2) == cp.lookahead % 4);
}

proof fn lemma_early_says(cp: Cp)
    ensures
        ({
            let early = field_bits(word_of(early_table(cp)) as nat, 16);
            &&& number_at(early, 0, 4) == cp.intervals[0] % 16
            &&& number_at(early, 4, 4) == cp.intervals[1] % 16
            &&& number_at(early, 8, 4) == cp.intervals[2] % 16
            &&& number_at(early, 12, 4) == cp.intervals[3] % 16
        }),
{
    let early = early_table(cp);
    lemma2_to64();
    lemma_early_starts(cp);
    assert(early.len() == 4);
    lemma_word_of(early);
    law_fields_stand_at_their_places(early, 4, 0);
    law_fields_stand_at_their_places(early, 4, 1);
    law_fields_stand_at_their_places(early, 4, 2);
    law_fields_stand_at_their_places(early, 4, 3);
}

proof fn lemma_late_says(cp: Cp)
    ensures
        ({
            let late = field_bits(word_of(late_table(cp)) as nat, 16);
            &&& number_at(late, 0, 4) == cp.intervals[4] % 16
            &&& number_at(late, 4, 4) == cp.intervals[5] % 16
            &&& late[8] == (cp.at_codec is Some)
        }),
{
    let late = late_table(cp);
    lemma2_to64();
    lemma_late_starts(cp);
    assert(late.len() == 4);
    lemma_word_of(late);
    law_fields_stand_at_their_places(late, 4, 0);
    law_fields_stand_at_their_places(late, 4, 1);
    lemma_flag_at(late, 4, 2, cp.at_codec is Some);
}

proof fn lemma_filter_reads(low: Coefficient, high: Coefficient)
    ensures
        ({
            let bits = field_bits(word_of(filter_table(low, high)) as nat, 16);
            number_at(bits, 0, 8) == byte_of(low) && number_at(bits, 8, 8) == byte_of(high)
        }),
{
    let table = filter_table(low, high);
    lemma2_to64();
    lemma_filter_starts(low, high);
    lemma_word_of(table);
    law_fields_stand_at_their_places(table, 2, 0);
    law_fields_stand_at_their_places(table, 2, 1);
    law_reads_back_a_coefficient(low);
    law_reads_back_a_coefficient(high);
    assert(table.len() == 2);
    assert(table[0] == (byte_of(low), 8nat));
    assert(table[1] == (byte_of(high), 8nat));
    vstd::arithmetic::div_mod::lemma_small_mod(byte_of(low), 256);
    vstd::arithmetic::div_mod::lemma_small_mod(byte_of(high), 256);
    assert(number_at(written(table, 2), 0, 8) == byte_of(low) % 256);
    assert(number_at(written(table, 2), 8, 8) == byte_of(high) % 256);
    assert(number_at(written(table, 2), 0, 8) == byte_of(low));
    assert(number_at(written(table, 2), 8, 8) == byte_of(high));
}

proof fn lemma_constellations_read(words: Seq<u16>, at: nat, constellations: Seq<Constellation>)
    requires
        at + 8 * constellations.len() <= words.len(),
        words.subrange(at as int, at + 8 * constellations.len() as int) == masks(constellations),
    ensures
        constellations_in(words, at, constellations.len()) == constellations,
{
    let found = constellations_in(words, at, constellations.len());
    let all = masks(constellations);
    assert forall|i: int| 0 <= i < found.len() implies found[i] == constellations[i] by {
        lemma_masks(constellations, i);
        assert(words.subrange(at + 8 * i, at + 8 * i + 8) =~= all.subrange(8 * i, 8 * i + 8));
    }
    assert(found =~= constellations);
}

/// The words of a CP, part by part.
proof fn lemma_cp_words(cp: Cp)
    requires
        cp.whole(),
    ensures
        ({
            let words = cp_words(cp);
            let count = cp.constellations@.len();
            &&& words.len() == 7 + 8 * count * if cp.at_codec is Some {
                2nat
            } else {
                1nat
            }
            &&& words.take(7) == cp_head(cp)
            &&& constellations_in(words, 7, count) == cp.constellations@
            &&& match cp.at_codec {
                Some(codec) => constellations_in(words, 7 + 8 * count, count) == codec@,
                None => true,
            }
        }),
{
    reveal(cp_words);
    let words = cp_words(cp);
    let count = cp.constellations@.len();
    lemma_masks_len(cp.constellations@);
    if let Some(codec) = cp.at_codec {
        lemma_masks_len(codec@);
        assert(words.subrange(7 + 8 * count as int, 7 + 16 * count as int) =~= masks(codec@));
        lemma_constellations_read(words, 7 + 8 * count, codec@);
    }
    assert(words.take(7) =~= cp_head(cp));
    assert(words.subrange(7, 7 + 8 * count as int) =~= masks(cp.constellations@));
    lemma_constellations_read(words, 7, cp.constellations@);
}

proof fn lemma_cp_counts(cp: Cp)
    requires
        cp.whole(),
    ensures
        counts::<Cp>(with_crc(cp_words(cp))),
{
    let words = cp_words(cp);
    let all = with_crc(words);
    lemma_cp_words(cp);
    assert(all.take(7) =~= words.take(7));
    lemma_head_says(cp, all);
    assert forall|k: int| 0 < k < all.len() implies #[trigger] incomplete::<Cp>(all.take(k)) by {
        if k >= 7 {
            assert(all.take(k).take(7) =~= words.take(7));
            lemma_head_says(cp, all.take(k));
        }
    }
}

proof fn lemma_cp_says(cp: Cp, other: Cp)
    requires
        cp.whole(),
        cp_says(cp_words(cp), other),
    ensures
        cp.carried_as(other),
{
    reveal(cp_says);
    lemma_cp_words(cp);
    lemma_head_says(cp, cp_words(cp));
    law_reads_back_a_coefficient(cp.filter[0]);
    law_reads_back_a_coefficient(cp.filter[1]);
    law_reads_back_a_coefficient(cp.filter[2]);
    law_reads_back_a_coefficient(cp.filter[3]);
    lemma_same_filter(cp.filter, other.filter);
    lemma_same_intervals(cp.intervals, other.intervals);
}

/// A CP that has the constellations it tells of reads back as it was, less
/// what its words do not hold, and says how many words it has.
pub proof fn law_reads_back_cp(cp: Cp)
    requires
        cp.whole(),
    ensures
        forall|found: Option<Cp>| #[trigger]
            Cp::says(cp_words(cp), found) ==> found is Some && cp.carried_as(found->0),
        counts::<Cp>(with_crc(cp_words(cp))),
{
    lemma_cp_counts(cp);
    assert forall|found: Option<Cp>| #[trigger] Cp::says(cp_words(cp), found) implies found is Some
        && cp.carried_as(found->0) by {
        lemma_cp_says(cp, found->0);
    }
}

/// However many ones come first, a CP that repeats is read once each time, on
/// the last bit of its CRC, as it was, less what its words do not hold.
pub proof fn law_finds_each_cp(
    held: Deframing,
    lead: nat,
    cp: Cp,
    times: nat,
    at: int,
)
    requires
        resting(held),
        cp.whole(),
        0 <= at < lead + repeated(cp_frame(cp), times).len(),
    ensures
        ({
            let one = cp_frame(cp);
            let bits = Seq::new(lead, |i: int| true) + repeated(one, times);
            forall|found: Option<Cp>| #[trigger]
                gives_at::<Cp>(held, bits, at, found) ==> if at >= lead && (at - lead)
                    % one.len() as int == last_of_crc(cp_words(cp)) {
                    found is Some && cp.carried_as(found->0)
                } else {
                    found is None
                }
        }),
{
    law_reads_back_cp(cp);
    assert(cp_frame(cp) =~= filled(cp_words(cp), 3));
    law_finds_each_of_repeated_frames::<Cp>(held, lead, cp_words(cp), 3, times, at);
}

proof fn lemma_same_filter(filter: [Coefficient; 4], other: [Coefficient; 4])
    requires
        filter[0] == other[0],
        filter[1] == other[1],
        filter[2] == other[2],
        filter[3] == other[3],
    ensures
        filter@ == other@,
{
    assert(filter@ =~= other@);
}

proof fn lemma_same_intervals(intervals: [u8; 6], other: [u8; 6])
    requires
        intervals[0] == other[0],
        intervals[1] == other[1],
        intervals[2] == other[2],
        intervals[3] == other[3],
        intervals[4] == other[4],
        intervals[5] == other[5],
    ensures
        intervals@ == other@,
{
    assert(intervals@ =~= other@);
}

/// Sequences with the same parts have the same frame.
proof fn lemma_same_frame(cp: Cp, other: Cp)
    requires
        other.training == cp.training,
        other.rate == cp.rate,
        other.silence == cp.silence,
        other.redundancy == cp.redundancy,
        other.acknowledge == cp.acknowledge,
        other.law == cp.law,
        other.upstream_rates == cp.upstream_rates,
        other.lookahead == cp.lookahead,
        other.rms_ratio == cp.rms_ratio,
        other.filter == cp.filter,
        other.intervals == cp.intervals,
        other.constellations@ == cp.constellations@,
        match (cp.at_codec, other.at_codec) {
            (Some(codec), Some(other_codec)) => codec@ == other_codec@,
            (None, None) => true,
            _ => false,
        },
    ensures
        cp_frame(other) == cp_frame(cp),
{
    reveal(cp_words);
    assert(cp_head(other) == cp_head(cp));
}

impl Cp {
    /// The frame of the sequence with another acknowledgement, and of 0 bit/s
    /// where it clears down.
    #[must_use]
    pub fn frame_with(&self, acknowledge: bool, clears: bool) -> (bits: Vec<bool>)
        ensures
            bits@ == cp_frame(
                Cp {
                    acknowledge,
                    rate: if clears {
                        0
                    } else {
                        self.rate
                    },
                    ..*self
                },
            ),
    {
        let at_codec = match &self.at_codec {
            Some(codec) => Some(copied(codec)),
            None => None,
        };
        let cp = Cp {
            training: self.training,
            rate: if clears {
                0
            } else {
                self.rate
            },
            silence: self.silence,
            redundancy: self.redundancy,
            acknowledge,
            law: self.law,
            upstream_rates: self.upstream_rates,
            lookahead: self.lookahead,
            rms_ratio: self.rms_ratio,
            filter: self.filter,
            intervals: self.intervals,
            constellations: copied(&self.constellations),
            at_codec,
        };
        proof {
            lemma_same_frame(
                Cp {
                    acknowledge,
                    rate: if clears {
                        0
                    } else {
                        self.rate
                    },
                    ..*self
                },
                cp,
            );
        }
        cp.frame()
    }
}

fn copied(constellations: &Vec<Constellation>) -> (copy: Vec<Constellation>)
    ensures
        copy@ == constellations@,
{
    let mut copy: Vec<Constellation> = Vec::new();
    let mut i: usize = 0;
    while i < constellations.len()
        invariant
            i <= constellations.len(),
            copy@ == constellations@.take(i as int),
        decreases constellations.len() - i,
    {
        copy.push(constellations[i]);
        i += 1;
    }
    assert(constellations@.take(i as int) =~= constellations@);
    copy
}

/// Table 14, field by field: what each of the words of CP carries, the
/// constellations following from the eighth on, eight words each, and those
/// at the D/A after them.
pub proof fn law_table_14(cp: Cp)
    requires
        cp.whole(),
    ensures
        ({
            let words = cp_words(cp);
            let count = cp.constellations@.len();
            let first = field_bits(words[0] as nat, 16);
            let second = field_bits(words[1] as nat, 16);
            let low = field_bits(words[3] as nat, 16);
            let high = field_bits(words[4] as nat, 16);
            let early = field_bits(words[5] as nat, 16);
            let late = field_bits(words[6] as nat, 16);
            &&& first[1] == !cp.training
            &&& number_at(first, 2, 5) == cp.rate % 32
            &&& first[12] == cp.silence
            &&& number_at(first, 13, 2) == cp.redundancy % 4
            &&& first[15] == cp.acknowledge
            &&& second[0] == (cp.law == Law::A)
            &&& number_at(second, 1, 13) == cp.upstream_rates % 0x2000
            &&& number_at(second, 14, 2) == cp.lookahead % 4
            &&& words[2] == cp.rms_ratio
            &&& (number_at(low, 0, 8) - cp.filter[0]) % 256 == 0
            &&& (number_at(low, 8, 8) - cp.filter[1]) % 256 == 0
            &&& (number_at(high, 0, 8) - cp.filter[2]) % 256 == 0
            &&& (number_at(high, 8, 8) - cp.filter[3]) % 256 == 0
            &&& number_at(early, 0, 4) == cp.intervals[0]
            &&& number_at(early, 4, 4) == cp.intervals[1]
            &&& number_at(early, 8, 4) == cp.intervals[2]
            &&& number_at(early, 12, 4) == cp.intervals[3]
            &&& number_at(late, 0, 4) == cp.intervals[4]
            &&& number_at(late, 4, 4) == cp.intervals[5]
            &&& late[8] == (cp.at_codec is Some)
            &&& cp.at_codec is None ==> words.len() == 7 + 8 * count
            &&& cp.at_codec is Some ==> words.len() == 7 + 16 * count
            &&& cp_frame(cp).len() == framed(words).len() + 3
        }),
{
    lemma_cp_words(cp);
    lemma_head_says(cp, cp_words(cp));
    let count = cp.constellations@.len() as int;
    assert(8 * count * 2 == 16 * count && 8 * count * 1 == 8 * count) by (nonlinear_arith);
}

/// Word `j` of a constellation tells of Ucodes 16 j to 16 j + 15.
pub proof fn law_a_word_tells_of_16_ucodes(cp: Cp, i: int, j: nat)
    requires
        cp.whole(),
        0 <= i < cp.constellations@.len(),
        j < 8,
    ensures
        cp_words(cp)[7 + 8 * i + j] == cp.constellations@[i] as nat / vstd::arithmetic::power2::pow2((16 * j) as nat)
            % 0x1_0000,
{
    reveal(cp_words);
    lemma_masks_len(cp.constellations@);
    lemma_mask_word(cp.constellations@, i, j);
    assert(cp_words(cp)[7 + 8 * i + j] == masks(cp.constellations@)[8 * i + j]);
}

proof fn lemma_spread_word(value: nat, n: nat, j: nat)
    requires
        j < n,
    ensures
        spread(value, n).len() == n,
        spread(value, n)[j as int] == value / vstd::arithmetic::power2::pow2((16 * j) as nat) % 0x1_0000,
    decreases n,
{
    lemma_spread(value, n);
    lemma2_to64();
    if j == 0 {
        assert(value / 1 == value);
    } else {
        lemma_spread_word(value / 0x1_0000, (n - 1) as nat, (j - 1) as nat);
        vstd::arithmetic::power2::lemma_pow2_adds(16, (16 * j - 16) as nat);
        vstd::arithmetic::power2::lemma_pow2_pos((16 * j - 16) as nat);
        vstd::arithmetic::div_mod::lemma_div_denominator(
            value as int,
            0x1_0000,
            vstd::arithmetic::power2::pow2((16 * j - 16) as nat) as int,
        );
    }
}

proof fn lemma_mask_word(constellations: Seq<Constellation>, i: int, j: nat)
    requires
        0 <= i < constellations.len(),
        j < 8,
    ensures
        masks(constellations).len() == 8 * constellations.len(),
        masks(constellations)[8 * i + j] == constellations[i] as nat / vstd::arithmetic::power2::pow2((16 * j) as nat)
            % 0x1_0000,
    decreases constellations.len(),
{
    lemma_masks_len(constellations);
    lemma_masks_len(constellations.drop_last());
    lemma_spread_word(constellations.last() as nat, 8, j);
    if i < constellations.len() - 1 {
        lemma_mask_word(constellations.drop_last(), i, j);
    }
}

/// D is 20 above the rate of CP and 8 above that of CPt, and each interval
/// has the constellation that its index names.
pub proof fn law_cp_tells_its_rate_and_sets(cp: Cp, interval: int)
    requires
        0 <= interval < 6,
    ensures
        cp.training ==> cp.spec_frame_bits() == cp.rate + 8,
        !cp.training ==> cp.spec_frame_bits() == cp.rate + 20,
        cp.intervals[interval] < cp.constellations@.len() ==> cp.spec_constellation(interval)
            == cp.constellations@[cp.intervals[interval] as int],
        cp.intervals[interval] >= cp.constellations@.len() ==> cp.spec_constellation(interval) == 0,
{
}

/// The bit rate is the bits of a data frame 8000 / 6 times a second, to the
/// nearest.
pub proof fn law_the_rate_of_8000_symbols(cp: Cp)
    ensures
        6 * cp.spec_bit_rate() <= 8000 * cp.spec_frame_bits() + 3 < 6 * cp.spec_bit_rate() + 6,
{
}

} // verus!

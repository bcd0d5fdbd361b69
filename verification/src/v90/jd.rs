//! Jd of § 8.4.2, which the digital modem repeats at the end of phase 3.

use crate::v34::bits::{
    field_bits, flag_value, law_fields_stand_at_their_places, law_writes_back_what_it_reads,
    lemma_field_bits_len, lemma_written_len, number_at, repeated, start, value_of, written, Reader,
    Writer,
};
use crate::v34::info::lemma_flag_at;
use crate::v34::words::{framed, with_crc, word};
use crate::v90::frames::{
    self, counts, filled, gives_at, incomplete, last_of_crc, law_finds_each_of_repeated_frames,
    resting, Deframing, Words,
};
use vstd::arithmetic::power2::lemma2_to64;
use vstd::prelude::*;

verus! {

/// Bit n for (n + 21) · 8000/6 bit/s, 28 000 to 56 000.
pub const ALL_RATES: u32 = 0x3F_FFFF;

/// Table 13.
#[derive(Debug, Clone, Copy, PartialEq, Eq, Structural)]
pub struct Jd {
    /// The downstream rates its transmitter supports, bit 0 for 28 000 bit/s.
    pub rates: u32,
    /// CP, E and SCR on 16 points in phase 4, else 4.
    pub sixteen_points: bool,
    /// The same in a rate renegotiation.
    pub sixteen_points_renegotiating: bool,
    /// The most look-ahead frames its spectral shaper can use, 1 to 3.
    pub lookahead: u8,
}

/// The values and widths of bits 35 to 50.
pub open spec fn high_table(jd: Jd) -> Seq<(nat, nat)> {
    seq![
        (jd.rates as nat / 0x1_0000, 6),
        (0, 6),
        (flag_value(jd.sixteen_points), 1),
        (flag_value(jd.sixteen_points_renegotiating), 1),
        (jd.lookahead as nat, 2),
    ]
}

/// The words of table 13, CRC aside.
#[verifier::opaque]
pub open spec fn jd_words(jd: Jd) -> Seq<u16> {
    seq![
        (jd.rates as nat % 0x1_0000) as u16,
        value_of(written(high_table(jd), 5)) as u16,
    ]
}

/// Table 13 ends Jd with four zeros.
pub open spec fn jd_fill() -> Seq<bool> {
    seq![false, false, false, false]
}

pub open spec fn jd_frame(jd: Jd) -> Seq<bool> {
    framed(jd_words(jd)) + jd_fill()
}

proof fn lemma_high_starts(jd: Jd)
    ensures
        start(high_table(jd), 0) == 0,
        start(high_table(jd), 1) == 6,
        start(high_table(jd), 2) == 12,
        start(high_table(jd), 3) == 13,
        start(high_table(jd), 4) == 14,
        start(high_table(jd), 5) == 16,
{
    let table = high_table(jd);
    assert(start(table, 0) == 0);
    assert(start(table, 1) == 6);
    assert(start(table, 2) == 12);
    assert(start(table, 3) == 13);
    assert(start(table, 4) == 14);
    assert(start(table, 5) == 16);
}

proof fn lemma_jd_words(jd: Jd)
    ensures
        jd_words(jd).len() == 2,
        jd_words(jd)[0] == jd.rates as nat % 0x1_0000,
        field_bits(jd_words(jd)[1] as nat, 16) == written(high_table(jd), 5),
{
    reveal(jd_words);
    lemma2_to64();
    lemma_high_starts(jd);
    lemma_written_len(high_table(jd), 5);
    law_writes_back_what_it_reads(written(high_table(jd), 5));
}

impl Jd {
    /// As its words keep it.
    pub open spec fn carried(self) -> Self {
        Self {
            rates: (self.rates % 0x40_0000) as u32,
            lookahead: (self.lookahead % 4) as u8,
            ..self
        }
    }

    fn words(self) -> (words: Vec<u16>)
        ensures
            words@ == jd_words(self),
    {
        let ghost table = high_table(self);
        let mut writer = Writer::default();
        assert(writer.bits@ == written(table, 0));
        writer.field(self.rates / 0x1_0000, 6);
        assert(writer.bits@ == written(table, 1));
        writer.field(0, 6);
        assert(writer.bits@ == written(table, 2));
        writer.flag(self.sixteen_points);
        assert(writer.bits@ == written(table, 3));
        writer.flag(self.sixteen_points_renegotiating);
        assert(writer.bits@ == written(table, 4));
        writer.field(self.lookahead as u32, 2);
        assert(writer.bits@ == written(table, 5));
        proof {
            lemma_high_starts(self);
            lemma_written_len(table, 5);
        }
        let mut words: Vec<u16> = Vec::new();
        words.push((self.rates % 0x1_0000) as u16);
        words.push(word(writer.bits.as_slice()));
        proof {
            reveal(jd_words);
            assert(words@ =~= jd_words(self));
        }
        words
    }

    /// Frame sync, the words, the CRC and the fill: 72 bits.
    #[must_use]
    pub fn frame(self) -> (bits: Vec<bool>)
        ensures
            bits@ == jd_frame(self),
    {
        let words = self.words();
        let mut bits = frames::frame(words.as_slice());
        bits.push(false);
        bits.push(false);
        bits.push(false);
        bits.push(false);
        assert(bits@ =~= jd_frame(self));
        bits
    }
}

/// Jd is 72 bits.
pub proof fn law_jd_is_72_bits(jd: Jd)
    ensures
        jd_frame(jd).len() == 72,
{
    lemma_jd_words(jd);
    crate::v34::words::law_frames_are_whole_blocks(jd_words(jd));
}

/// What the words of Jd say.
pub open spec fn jd_of(words: Seq<u16>) -> Jd {
    let high = field_bits(words[1] as nat, 16);
    Jd {
        rates: (words[0] + 0x1_0000 * number_at(high, 0, 6)) as u32,
        sixteen_points: high[12],
        sixteen_points_renegotiating: high[13],
        lookahead: number_at(high, 14, 2) as u8,
    }
}

impl Words for Jd {
    open spec fn spec_length(words: Seq<u16>) -> Option<nat> {
        Some(2)
    }

    open spec fn says(words: Seq<u16>, found: Option<Self>) -> bool {
        found == Some(jd_of(words))
    }

    proof fn lemma_length_is_told_early(words: Seq<u16>) {
    }

    fn length(_words: &[u16]) -> (length: Option<usize>) {
        Some(2)
    }

    fn from_words(words: &[u16]) -> (sequence: Option<Self>) {
        let mut writer = Writer::default();
        writer.field(words[1] as u32, 16);
        proof {
            lemma2_to64();
            lemma_field_bits_len(words@[1] as nat, 16);
            assert(writer.bits@ =~= field_bits(words@[1] as nat, 16));
        }
        let mut high = Reader::new(writer.bits.as_slice());
        let rates = words[0] as u32 + 0x1_0000 * high.field(6);
        let _reserved = high.field(6);
        let sixteen_points = high.flag();
        let sixteen_points_renegotiating = high.flag();
        let lookahead = high.field(2) as u8;
        Some(Self { rates, sixteen_points, sixteen_points_renegotiating, lookahead })
    }
}

/// Jd reads back as it was, less what its words do not hold, and says how
/// many words it has.
#[verifier::rlimit(50)]
#[verifier::spinoff_prover]
pub proof fn law_reads_back_jd(jd: Jd)
    ensures
        forall|found: Option<Jd>| #[trigger] Jd::says(jd_words(jd), found) ==> found == Some(jd.carried()),
        counts::<Jd>(with_crc(jd_words(jd))),
{
    let table = high_table(jd);
    let all = with_crc(jd_words(jd));
    lemma2_to64();
    lemma_jd_words(jd);
    lemma_high_starts(jd);
    law_fields_stand_at_their_places(table, 5, 0);
    lemma_flag_at(table, 5, 2, jd.sixteen_points);
    lemma_flag_at(table, 5, 3, jd.sixteen_points_renegotiating);
    law_fields_stand_at_their_places(table, 5, 4);
    assert(number_at(written(table, 5), 0, 6) == (jd.rates as nat / 0x1_0000) % 64);
    assert(number_at(written(table, 5), 14, 2) == jd.lookahead % 4);
    assert(jd.rates as nat % 0x1_0000 + 0x1_0000 * ((jd.rates as nat / 0x1_0000) % 64)
        == jd.rates as nat % 0x40_0000);
    assert forall|k: int| 0 < k < all.len() implies #[trigger] incomplete::<Jd>(all.take(k)) by {}
}

/// However many ones come first, Jd that repeats is read once each time, on the
/// last bit of its CRC, as it was, less what its words do not hold.
pub proof fn law_finds_each_jd(
    held: Deframing,
    lead: nat,
    jd: Jd,
    times: nat,
    at: int,
)
    requires
        resting(held),
        0 <= at < lead + repeated(jd_frame(jd), times).len(),
    ensures
        ({
            let one = jd_frame(jd);
            let bits = Seq::new(lead, |i: int| true) + repeated(one, times);
            forall|found: Option<Jd>| #[trigger]
                gives_at::<Jd>(held, bits, at, found) ==> if at >= lead && (at - lead)
                    % one.len() as int == last_of_crc(jd_words(jd)) {
                    found == Some(jd.carried())
                } else {
                    found is None
                }
        }),
{
    law_reads_back_jd(jd);
    assert(jd_frame(jd) =~= filled(jd_words(jd), 4));
    law_finds_each_of_repeated_frames::<Jd>(held, lead, jd_words(jd), 4, times, at);
}

/// Table 13, field by field: the rates in the first word and six bits of the
/// second, which ends with the points and the look-ahead; four zeros end it.
pub proof fn law_table_13(jd: Jd)
    ensures
        ({
            let words = jd_words(jd);
            let high = field_bits(words[1] as nat, 16);
            &&& words.len() == 2
            &&& words[0] == jd.rates % 0x1_0000
            &&& number_at(high, 0, 6) == jd.rates / 0x1_0000 % 64
            &&& number_at(high, 6, 6) == 0
            &&& high[12] == jd.sixteen_points
            &&& high[13] == jd.sixteen_points_renegotiating
            &&& number_at(high, 14, 2) == jd.lookahead % 4
            &&& jd_frame(jd) == framed(words) + seq![false, false, false, false]
            &&& ALL_RATES == 0x40_0000 - 1
        }),
{
    let table = high_table(jd);
    lemma2_to64();
    lemma_jd_words(jd);
    lemma_high_starts(jd);
    law_fields_stand_at_their_places(table, 5, 0);
    law_fields_stand_at_their_places(table, 5, 1);
    lemma_flag_at(table, 5, 2, jd.sixteen_points);
    lemma_flag_at(table, 5, 3, jd.sixteen_points_renegotiating);
    law_fields_stand_at_their_places(table, 5, 4);
    assert(number_at(written(table, 5), 0, 6) == (jd.rates as nat / 0x1_0000) % 64);
    assert(number_at(written(table, 5), 14, 2) == jd.lookahead % 4);
    assert(number_at(written(table, 5), 6, 6) == 0);
}

} // verus!

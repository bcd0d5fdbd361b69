//! The MP sequences of § 10.1.3.9, which carry the data mode parameters in
//! phase 4 and in a rate renegotiation.

use crate::v34::bits::{
    crc_of, field_bits, flag_value, law_fields_stand_at_their_places, law_writes_back_what_it_reads,
    lemma_field_bits_len, lemma_written_len, number_at, start, value_of, written, Reader, Writer,
};
use crate::v34::encoder::Settings;
use crate::v34::info::lemma_flag_at;
use crate::v34::words::{
    blocks, crc_of_words, framed, law_a_flipped_bit_breaks_the_crc, law_frames_are_whole_blocks,
    law_reads_back_words, law_the_crc_of_words_holds, lemma_block, lemma_blocks_len, one_bit_apart,
    starts_hold, sync, with_crc, word, word_bits, words_in,
};
use std::collections::VecDeque;
use vstd::prelude::*;

verus! {

/// § 10.1.3.2: the ones that end MP.
pub const E_ONES: usize = 20;

/// The convolutional encoder of § 9.6.3.2.
#[derive(Debug, Clone, Copy, PartialEq, Eq, Structural)]
pub enum Trellis {
    States16,
    States32,
    States64,
}

impl Default for Trellis {
    fn default() -> (trellis: Self)
        ensures
            trellis == Self::States16,
    {
        Self::States16
    }
}

/// h(1) to h(3) of § 9.6.2, real and imaginary, with 14 bits after the
/// binary point.
pub type Precoding = [(i16, i16); 3];

/// No coefficients.
pub open spec fn is_flat(h: Precoding) -> bool {
    h[0] == (0i16, 0i16) && h[1] == (0i16, 0i16) && h[2] == (0i16, 0i16)
}

fn flat(h: Precoding) -> (flat: bool)
    ensures
        flat == is_flat(h),
{
    h[0].0 == 0 && h[0].1 == 0 && h[1].0 == 0 && h[1].1 == 0 && h[2].0 == 0 && h[2].1 == 0
}

/// What a receiver asks of the far transmitter in its MP, other than the rate.
#[derive(Debug, Clone, Copy, PartialEq, Eq)]
pub struct Asks {
    pub trellis: Trellis,
    /// Θ = 0.3125, else 0.
    pub nonlinear: bool,
    /// Expanded shaping, else minimum.
    pub expanded_shaping: bool,
    /// All zero for none.
    pub precoding: Precoding,
}

impl Default for Asks {
    fn default() -> (asks: Self)
        ensures
            asks.trellis == Trellis::States16,
            !asks.nonlinear,
            !asks.expanded_shaping,
            is_flat(asks.precoding),
    {
        Self {
            trellis: Trellis::States16,
            nonlinear: false,
            expanded_shaping: false,
            precoding: [(0, 0), (0, 0), (0, 0)],
        }
    }
}

impl Asks {
    /// `mp` with these choices.
    #[must_use]
    pub fn ask(self, mp: Mp) -> (asked: Mp)
        ensures
            asked == (Mp {
                trellis: self.trellis,
                nonlinear: self.nonlinear,
                expanded_shaping: self.expanded_shaping,
                precoding: if is_flat(self.precoding) {
                    None
                } else {
                    Some(self.precoding)
                },
                ..mp
            }),
    {
        let precoding = if flat(self.precoding) {
            None
        } else {
            Some(self.precoding)
        };
        Mp {
            trellis: self.trellis,
            nonlinear: self.nonlinear,
            expanded_shaping: self.expanded_shaping,
            precoding,
            ..mp
        }
    }

    /// What the far transmitter's encoder does, and so what the decoder undoes.
    #[must_use]
    pub fn settings(self) -> (settings: Settings)
        ensures
            settings == (Settings {
                trellis: self.trellis,
                nonlinear: self.nonlinear,
                precoding: self.precoding,
            }),
    {
        Settings { trellis: self.trellis, nonlinear: self.nonlinear, precoding: self.precoding }
    }
}

/// Tables 20 and 21. The choices marked "far" are what this end's receiver
/// asks of the far transmitter.
#[derive(Debug, Clone, Copy, PartialEq, Eq)]
pub struct Mp {
    /// In multiples of 2400 bit/s.
    pub max_call_to_answer: u8,
    pub max_answer_to_call: u8,
    pub auxiliary: bool,
    /// Far.
    pub trellis: Trellis,
    /// Far: Θ = 0.3125, else 0.
    pub nonlinear: bool,
    /// Far: expanded shaping, else minimum.
    pub expanded_shaping: bool,
    /// Set once the far MP has arrived.
    pub acknowledge: bool,
    /// Bit n for (n + 1) · 2400 bit/s, up to 33 600.
    pub rates: u16,
    pub asymmetric: bool,
    /// Far. Type 1 carries it, type 0 leaves the far precoder as it was.
    pub precoding: Option<Precoding>,
}

impl Default for Mp {
    fn default() -> (mp: Self)
        ensures
            mp == (Mp {
                max_call_to_answer: 0,
                max_answer_to_call: 0,
                auxiliary: false,
                trellis: Trellis::States16,
                nonlinear: false,
                expanded_shaping: false,
                acknowledge: false,
                rates: 0,
                asymmetric: false,
                precoding: None,
            }),
    {
        Self {
            max_call_to_answer: 0,
            max_answer_to_call: 0,
            auxiliary: false,
            trellis: Trellis::States16,
            nonlinear: false,
            expanded_shaping: false,
            acknowledge: false,
            rates: 0,
            asymmetric: false,
            precoding: None,
        }
    }
}

pub open spec fn trellis_value(trellis: Trellis) -> nat {
    match trellis {
        Trellis::States16 => 0,
        Trellis::States32 => 1,
        Trellis::States64 => 2,
    }
}

/// The values and widths of bits 18 to 33.
pub open spec fn first_table(mp: Mp) -> Seq<(nat, nat)> {
    seq![
        (flag_value(mp.precoding is Some), 1),
        (0, 1),
        (mp.max_call_to_answer as nat, 4),
        (mp.max_answer_to_call as nat, 4),
        (flag_value(mp.auxiliary), 1),
        (trellis_value(mp.trellis), 2),
        (flag_value(mp.nonlinear), 1),
        (flag_value(mp.expanded_shaping), 1),
        (flag_value(mp.acknowledge), 1),
    ]
}

/// The values and widths of bits 35 to 50.
pub open spec fn second_table(mp: Mp) -> Seq<(nat, nat)> {
    seq![(mp.rates as nat, 14), (0, 1), (flag_value(mp.asymmetric), 1)]
}

/// A coefficient as a word, in two's complement.
pub open spec fn signed_word(value: i16) -> u16 {
    (value as int % 0x1_0000) as u16
}

pub open spec fn word_signed(word: u16) -> i16 {
    if word < 0x8000 {
        word as i16
    } else {
        (word - 0x1_0000) as i16
    }
}

/// A coefficient reads back from its word.
pub proof fn law_reads_back_a_coefficient(value: i16)
    ensures
        word_signed(signed_word(value)) == value,
{
}

fn to_word(value: i16) -> (word: u16)
    ensures
        word == signed_word(value),
{
    if value < 0 {
        (value as i32 + 0x1_0000) as u16
    } else {
        value as u16
    }
}

fn from_word(word: u16) -> (value: i16)
    ensures
        value == word_signed(word),
{
    if word < 0x8000 {
        word as i16
    } else {
        (word as i32 - 0x1_0000) as i16
    }
}

pub open spec fn precoding_words(h: Precoding) -> Seq<u16> {
    seq![
        signed_word(h[0].0),
        signed_word(h[0].1),
        signed_word(h[1].0),
        signed_word(h[1].1),
        signed_word(h[2].0),
        signed_word(h[2].1),
    ]
}

/// The words of tables 20 and 21, CRC aside.
#[verifier::opaque]
pub open spec fn mp_words(mp: Mp) -> Seq<u16> {
    let head = seq![
        value_of(written(first_table(mp), 9)) as u16,
        value_of(written(second_table(mp), 3)) as u16,
    ];
    match mp.precoding {
        Some(h) => head + precoding_words(h) + seq![0u16],
        None => head + seq![0u16],
    }
}

/// The zeros after the CRC.
pub open spec fn mp_fill(mp: Mp) -> Seq<bool> {
    if mp.precoding is Some {
        seq![false]
    } else {
        seq![false, false, false]
    }
}

pub open spec fn mp_frame(mp: Mp) -> Seq<bool> {
    framed(mp_words(mp)) + mp_fill(mp)
}

/// MP takes 88 bits, or 188 with precoding coefficients.
pub proof fn law_mp_has_the_lengths_of_its_tables(mp: Mp)
    ensures
        mp_frame(mp).len() == if mp.precoding is Some {
            188int
        } else {
            88
        },
{
    reveal(mp_words);
    crate::v34::words::law_frames_are_whole_blocks(mp_words(mp));
}

/// The trellis that two bits stand for.
pub open spec fn trellis_of(value: nat) -> Option<Trellis> {
    if value == 0 {
        Some(Trellis::States16)
    } else if value == 1 {
        Some(Trellis::States32)
    } else if value == 2 {
        Some(Trellis::States64)
    } else {
        None
    }
}

/// h(1) to h(3) from the words that carry them.
pub open spec fn is_precoding(words: Seq<u16>, h: Precoding) -> bool {
    &&& h[0] == (word_signed(words[2]), word_signed(words[3]))
    &&& h[1] == (word_signed(words[4]), word_signed(words[5]))
    &&& h[2] == (word_signed(words[6]), word_signed(words[7]))
}

/// Whether a first word says that coefficients follow.
pub open spec fn precoded(first: u16) -> bool {
    field_bits(first as nat, 16)[0]
}

/// What the words of a type 0 or type 1 sequence say.
#[verifier::opaque]
pub open spec fn mp_read(words: Seq<u16>) -> Option<Mp> {
    let first = field_bits(words[0] as nat, 16);
    let second = field_bits(words[1] as nat, 16);
    match trellis_of(number_at(first, 11, 2)) {
        Some(trellis) => Some(
            Mp {
                max_call_to_answer: number_at(first, 2, 4) as u8,
                max_answer_to_call: number_at(first, 6, 4) as u8,
                auxiliary: first[10],
                trellis,
                nonlinear: first[13],
                expanded_shaping: first[14],
                acknowledge: first[15],
                rates: number_at(second, 0, 14) as u16,
                asymmetric: second[15],
                precoding: if precoded(words[0]) {
                    Some(choose|h: Precoding| is_precoding(words, h))
                } else {
                    None
                },
            },
        ),
        None => None,
    }
}

impl Mp {
    /// As its words keep it.
    pub open spec fn carried(self) -> Self {
        Self {
            max_call_to_answer: (self.max_call_to_answer % 16) as u8,
            max_answer_to_call: (self.max_answer_to_call % 16) as u8,
            rates: (self.rates % 0x4000) as u16,
            ..self
        }
    }
}

proof fn lemma_first_starts(mp: Mp)
    ensures
        start(first_table(mp), 0) == 0,
        start(first_table(mp), 1) == 1,
        start(first_table(mp), 2) == 2,
        start(first_table(mp), 3) == 6,
        start(first_table(mp), 4) == 10,
        start(first_table(mp), 5) == 11,
        start(first_table(mp), 6) == 13,
        start(first_table(mp), 7) == 14,
        start(first_table(mp), 8) == 15,
        start(first_table(mp), 9) == 16,
{
    let table = first_table(mp);
    assert(start(table, 0) == 0);
    assert(start(table, 1) == 1);
    assert(start(table, 2) == 2);
    assert(start(table, 3) == 6);
    assert(start(table, 4) == 10);
    assert(start(table, 5) == 11);
    assert(start(table, 6) == 13);
    assert(start(table, 7) == 14);
    assert(start(table, 8) == 15);
    assert(start(table, 9) == 16);
}

proof fn lemma_second_starts(mp: Mp)
    ensures
        start(second_table(mp), 0) == 0,
        start(second_table(mp), 1) == 14,
        start(second_table(mp), 2) == 15,
        start(second_table(mp), 3) == 16,
{
    let table = second_table(mp);
    assert(start(table, 0) == 0);
    assert(start(table, 1) == 14);
    assert(start(table, 2) == 15);
    assert(start(table, 3) == 16);
}

/// The first two words are 16 bits each.
proof fn lemma_head_words(mp: Mp)
    ensures
        field_bits(mp_words(mp)[0] as nat, 16) == written(first_table(mp), 9),
        field_bits(mp_words(mp)[1] as nat, 16) == written(second_table(mp), 3),
        mp_words(mp).len() == if mp.precoding is Some {
            9nat
        } else {
            3nat
        },
{
    reveal(mp_words);
    vstd::arithmetic::power2::lemma2_to64();
    lemma_first_starts(mp);
    lemma_second_starts(mp);
    lemma_written_len(first_table(mp), 9);
    lemma_written_len(second_table(mp), 3);
    law_writes_back_what_it_reads(written(first_table(mp), 9));
    law_writes_back_what_it_reads(written(second_table(mp), 3));
}

proof fn lemma_one_precoding(words: Seq<u16>, h: Precoding, k: Precoding)
    requires
        is_precoding(words, h),
        is_precoding(words, k),
    ensures
        h == k,
{
    assert(h@[0] == h[0] && h@[1] == h[1] && h@[2] == h[2]);
    assert(k@[0] == k[0] && k@[1] == k[1] && k@[2] == k[2]);
    assert(h@ =~= k@);
    assert(h == k);
}

/// MP reads back as it was, less what its words do not hold.
pub proof fn law_reads_back_mp(mp: Mp)
    ensures
        mp_read(mp_words(mp)) == Some(mp.carried()),
        precoded(mp_words(mp)[0]) == (mp.precoding is Some),
{
    let first = first_table(mp);
    let second = second_table(mp);
    let words = mp_words(mp);
    reveal(mp_read);
    vstd::arithmetic::power2::lemma2_to64();
    lemma_head_words(mp);
    lemma_first_starts(mp);
    lemma_second_starts(mp);
    lemma_flag_at(first, 9, 0, mp.precoding is Some);
    law_fields_stand_at_their_places(first, 9, 2);
    law_fields_stand_at_their_places(first, 9, 3);
    lemma_flag_at(first, 9, 4, mp.auxiliary);
    law_fields_stand_at_their_places(first, 9, 5);
    lemma_flag_at(first, 9, 6, mp.nonlinear);
    lemma_flag_at(first, 9, 7, mp.expanded_shaping);
    lemma_flag_at(first, 9, 8, mp.acknowledge);
    law_fields_stand_at_their_places(second, 3, 0);
    lemma_flag_at(second, 3, 2, mp.asymmetric);
    let head = written(first, 9);
    assert(number_at(head, 2, 4) == mp.max_call_to_answer % 16);
    assert(number_at(head, 6, 4) == mp.max_answer_to_call % 16);
    assert(first[5] == (trellis_value(mp.trellis), 2nat));
    assert(trellis_value(mp.trellis) < 3);
    assert(number_at(head, 11, 2) == trellis_value(mp.trellis));
    assert(number_at(written(second, 3), 0, 14) == mp.rates % 0x4000);
    assert(trellis_of(trellis_value(mp.trellis)) == Some(mp.trellis));
    if let Some(h) = mp.precoding {
        assert(is_precoding(words, h)) by {
            reveal(mp_words);
            let p = precoding_words(h);
            assert(words[2] == p[0] && words[3] == p[1] && words[4] == p[2] && words[5] == p[3]
                && words[6] == p[4] && words[7] == p[5]);
        }
        lemma_one_precoding(words, h, choose|k: Precoding| is_precoding(words, k));
    }
}

impl Mp {
    fn first_word(&self) -> (first: u16)
        ensures
            first == mp_words(*self)[0],
    {
        let ghost first = first_table(*self);
        let mut writer = Writer::default();
        assert(writer.bits@ == written(first, 0));
        writer.flag(self.precoding.is_some());
        assert(writer.bits@ == written(first, 1));
        writer.field(0, 1);
        assert(writer.bits@ == written(first, 2));
        writer.field(self.max_call_to_answer as u32, 4);
        assert(writer.bits@ == written(first, 3));
        writer.field(self.max_answer_to_call as u32, 4);
        assert(writer.bits@ == written(first, 4));
        writer.flag(self.auxiliary);
        assert(writer.bits@ == written(first, 5));
        writer.field(
            match self.trellis {
                Trellis::States16 => 0,
                Trellis::States32 => 1,
                Trellis::States64 => 2,
            },
            2,
        );
        assert(writer.bits@ == written(first, 6));
        writer.flag(self.nonlinear);
        assert(writer.bits@ == written(first, 7));
        writer.flag(self.expanded_shaping);
        assert(writer.bits@ == written(first, 8));
        writer.flag(self.acknowledge);
        assert(writer.bits@ == written(first, 9));
        proof {
            reveal(mp_words);
            lemma_first_starts(*self);
            lemma_written_len(first, 9);
        }
        word(writer.bits.as_slice())
    }

    fn second_word(&self) -> (second: u16)
        ensures
            second == mp_words(*self)[1],
    {
        let ghost second = second_table(*self);
        let mut writer = Writer::default();
        assert(writer.bits@ == written(second, 0));
        writer.field(self.rates as u32, 14);
        assert(writer.bits@ == written(second, 1));
        writer.field(0, 1);
        assert(writer.bits@ == written(second, 2));
        writer.flag(self.asymmetric);
        assert(writer.bits@ == written(second, 3));
        proof {
            reveal(mp_words);
            lemma_second_starts(*self);
            lemma_written_len(second, 3);
        }
        word(writer.bits.as_slice())
    }

    fn words(&self) -> (words: Vec<u16>)
        ensures
            words@ == mp_words(*self),
    {
        let mut words: Vec<u16> = Vec::new();
        words.push(self.first_word());
        words.push(self.second_word());
        if let Some(h) = self.precoding {
            words.push(to_word(h[0].0));
            words.push(to_word(h[0].1));
            words.push(to_word(h[1].0));
            words.push(to_word(h[1].1));
            words.push(to_word(h[2].0));
            words.push(to_word(h[2].1));
        }
        words.push(0);
        proof {
            reveal(mp_words);
            assert(words@ =~= mp_words(*self));
        }
        words
    }

    /// Frame sync, each word after a 0 start bit, the CRC, and the fill.
    #[must_use]
    pub fn frame(&self) -> (bits: Vec<bool>)
        ensures
            bits@ == mp_frame(*self),
    {
        let words = self.words();
        let mut bits = crate::v34::words::frame(words.as_slice());
        bits.push(false);
        if self.precoding.is_none() {
            bits.push(false);
            bits.push(false);
        }
        assert(bits@ =~= mp_frame(*self));
        bits
    }

    fn from_words(words: &[u16]) -> (mp: Option<Self>)
        requires
            words.len() >= 3,
            precoded(words@[0]) ==> words.len() >= 9,
        ensures
            mp == mp_read(words@),
    {
        let mut first_bits = Writer::default();
        first_bits.field(words[0] as u32, 16);
        let mut second_bits = Writer::default();
        second_bits.field(words[1] as u32, 16);
        proof {
            reveal(mp_read);
            vstd::arithmetic::power2::lemma2_to64();
            lemma_field_bits_len(words@[0] as nat, 16);
            lemma_field_bits_len(words@[1] as nat, 16);
            assert(first_bits.bits@ =~= field_bits(words@[0] as nat, 16));
            assert(second_bits.bits@ =~= field_bits(words@[1] as nat, 16));
        }
        let mut first = Reader::new(first_bits.bits.as_slice());
        let mut second = Reader::new(second_bits.bits.as_slice());
        let type_1 = first.flag();
        let _reserved = first.flag();
        let max_call_to_answer = first.field(4) as u8;
        let max_answer_to_call = first.field(4) as u8;
        let auxiliary = first.flag();
        let trellis = match first.field(2) {
            0 => Trellis::States16,
            1 => Trellis::States32,
            2 => Trellis::States64,
            _ => {
                return None;
            },
        };
        let nonlinear = first.flag();
        let expanded_shaping = first.flag();
        let acknowledge = first.flag();
        let rates = second.field(14) as u16;
        let _reserved = second.flag();
        let asymmetric = second.flag();
        let precoding = if type_1 {
            let h: Precoding = [
                (from_word(words[2]), from_word(words[3])),
                (from_word(words[4]), from_word(words[5])),
                (from_word(words[6]), from_word(words[7])),
            ];
            proof {
                assert(is_precoding(words@, h));
                lemma_one_precoding(words@, h, choose|k: Precoding| is_precoding(words@, k));
            }
            Some(h)
        } else {
            None
        };
        Some(
            Self {
                max_call_to_answer,
                max_answer_to_call,
                auxiliary,
                trellis,
                nonlinear,
                expanded_shaping,
                acknowledge,
                rates,
                asymmetric,
                precoding,
            },
        )
    }
}

/// The bits of a frame sync and `count` blocks.
pub open spec fn length_of(count: nat) -> int {
    (17 + 17 * count) as int
}

/// `tail` is a frame sync and `count` blocks, whose CRC holds.
pub open spec fn is_sequence(tail: Seq<bool>, count: nat) -> bool {
    &&& tail.len() == length_of(count)
    &&& tail.take(17) == sync()
    &&& starts_hold(tail.skip(17), count)
    &&& crc_of(word_bits(words_in(tail.skip(17), count))) == 0
}

/// The last bits of `bits`, as many as a sequence of `count` blocks has.
pub open spec fn tail(bits: Seq<bool>, count: nat) -> Seq<bool> {
    bits.skip(bits.len() - length_of(count))
}

/// The sequence of `count` blocks that `bits` end with, if it is of the type
/// that has as many.
#[verifier::opaque]
pub open spec fn mp_at_end(bits: Seq<bool>, count: nat) -> Option<Mp> {
    let words = words_in(tail(bits, count).skip(17), count).drop_last();
    if bits.len() >= length_of(count) && is_sequence(tail(bits, count), count) && precoded(words[0])
        == (count == 10) {
        mp_read(words)
    } else {
        None
    }
}

/// The sequence that `bits` end with.
pub open spec fn mp_found(bits: Seq<bool>) -> Option<Mp> {
    match mp_at_end(bits, 4) {
        Some(mp) => Some(mp),
        None => mp_at_end(bits, 10),
    }
}

/// The last bits once `bit` has come, as many as the longer type has.
pub open spec fn slid(window: Seq<bool>, bit: bool) -> Seq<bool> {
    let longer = window.push(bit);
    if longer.len() > 187 {
        longer.skip(1)
    } else {
        longer
    }
}

/// The window of a deframer after `bits`: it starts anew after a sequence.
pub open spec fn window_after(window: Seq<bool>, bits: Seq<bool>) -> Seq<bool>
    decreases bits.len(),
{
    if bits.len() == 0 {
        window
    } else {
        let next = slid(window_after(window, bits.drop_last()), bits.last());
        if mp_found(next) is Some {
            seq![]
        } else {
            next
        }
    }
}

/// The sequence that bit `at` of `bits` ends.
pub open spec fn found_at(window: Seq<bool>, bits: Seq<bool>, at: int) -> Option<Mp> {
    mp_found(slid(window_after(window, bits.take(at)), bits[at]))
}

/// One more bit slides the window as it does alone.
pub(crate) proof fn lemma_window_step(window: Seq<bool>, bits: Seq<bool>, bit: bool)
    ensures
        window_after(window, bits.push(bit)) == window_after(
            window_after(window, bits),
            seq![bit],
        ),
{
    assert(bits.push(bit).drop_last() =~= bits);
    assert(seq![bit].drop_last() =~= Seq::<bool>::empty());
    reveal_with_fuel(window_after, 2);
}

/// Finds MP sequences in descrambled bits.
#[derive(Debug)]
pub struct Deframer {
    window: VecDeque<bool>,
    ones: usize,
}

impl Default for Deframer {
    fn default() -> (deframer: Self)
        ensures
            deframer.valid(),
            deframer.window() == Seq::<bool>::empty(),
            deframer.spec_ones() == 0,
    {
        Self { window: VecDeque::new(), ones: 0 }
    }
}

impl Deframer {
    /// The last bits received, as many as matter.
    pub closed spec fn window(self) -> Seq<bool> {
        self.window@
    }

    pub closed spec fn spec_ones(self) -> int {
        self.ones as int
    }

    pub open spec fn valid(self) -> bool {
        self.window().len() <= 187
    }

    pub fn push(&mut self, bit: bool) -> (found: Option<Mp>)
        requires
            old(self).valid(),
        ensures
            final(self).valid(),
            found == found_at(old(self).window(), seq![bit], 0),
            final(self).window() == window_after(old(self).window(), seq![bit]),
            final(self).spec_ones() == if !bit {
                0
            } else if old(self).spec_ones() < usize::MAX {
                old(self).spec_ones() + 1
            } else {
                old(self).spec_ones()
            },
    {
        let ghost before = self.window@;
        proof {
            reveal_with_fuel(window_after, 2);
            assert(seq![bit].drop_last() =~= Seq::<bool>::empty());
            assert(seq![bit].take(0) =~= Seq::<bool>::empty());
        }
        self.ones = if !bit {
            0
        } else if self.ones < usize::MAX {
            self.ones + 1
        } else {
            self.ones
        };
        self.window.push_back(bit);
        if self.window.len() > 187 {
            let _oldest = self.window.pop_front();
        }
        assert(self.window@ =~= slid(before, bit));
        let mp = match self.at_end(4) {
            Some(mp) => Some(mp),
            None => self.at_end(10),
        };
        if mp.is_some() {
            self.window.clear();
        }
        mp
    }

    fn at_end(&self, count: usize) -> (found: Option<Mp>)
        requires
            count == 4 || count == 10,
            self.window@.len() <= 187,
        ensures
            found == mp_at_end(self.window@, count as nat),
    {
        proof {
            reveal(mp_at_end);
        }
        let length: usize = 17 + 17 * count;
        if self.window.len() < length {
            return None;
        }
        let from: usize = self.window.len() - length;
        let ghost last = tail(self.window@, count as nat);
        let mut i: usize = 0;
        while i < 17
            invariant
                i <= 17,
                from + length == self.window@.len(),
                self.window@.len() <= 187,
                length == length_of(count as nat),
                last == tail(self.window@, count as nat),
                length >= 17,
                forall|k: int| 0 <= k < i ==> #[trigger] last[k],
            decreases 17 - i,
        {
            if !self.window[from + i] {
                proof {
                    reveal(mp_at_end);
                    assert(!last[i as int]);
                    assert(last.take(17)[i as int] == last[i as int]);
                    assert(sync()[i as int]);
                }
                return None;
            }
            i += 1;
        }
        assert(last.take(17) =~= sync());
        let mut words: Vec<u16> = Vec::new();
        let ghost found = words_in(last.skip(17), count as nat);
        let mut n: usize = 0;
        while n < count
            invariant
                n <= count <= 10,
                words.len() == n,
                from + length == self.window@.len(),
                self.window@.len() <= 187,
                length == length_of(count as nat),
                last == tail(self.window@, count as nat),
                found == words_in(last.skip(17), count as nat),
                last.take(17) == sync(),
                forall|k: int| 0 <= k < n ==> !#[trigger] last.skip(17)[17 * k],
                forall|k: int| 0 <= k < n ==> #[trigger] words[k] == found[k],
            decreases count - n,
        {
            let at: usize = from + 17 + 17 * n;
            if self.window[at] {
                proof {
                    reveal(mp_at_end);
                    assert(last.skip(17)[17 * n as int]);
                }
                return None;
            }
            assert(!last.skip(17)[17 * n as int]);
            let mut bits: Vec<bool> = Vec::new();
            let mut i: usize = 1;
            while i < 17
                invariant
                    1 <= i <= 17,
                    n < count,
                    at == from + 17 + 17 * n,
                    from + length == self.window@.len(),
                    self.window@.len() <= 187,
                    length == length_of(count as nat),
                    bits@ == self.window@.subrange(at + 1, at + i),
                decreases 17 - i,
            {
                bits.push(self.window[at + i]);
                i += 1;
            }
            assert(bits@ =~= last.skip(17).subrange(17 * n + 1, 17 * n + 17));
            reveal(number_at);
            words.push(word(bits.as_slice()));
            n += 1;
        }
        assert(words@ =~= found);
        if crc_of_words(words.as_slice()) != 0 {
            return None;
        }
        let _crc = words.pop();
        assert(words@ =~= found.drop_last());
        reveal(field_bits);
        let type_1 = words[0] % 2 == 1;
        assert(type_1 == precoded(words@[0]));
        if type_1 != (count == 10) {
            return None;
        }
        Mp::from_words(words.as_slice())
    }

    /// Ones in a row up to the last bit. After MP, E is `E_ONES` of them.
    #[must_use]
    pub fn ones(&self) -> (ones: usize)
        ensures
            ones == self.spec_ones(),
    {
        self.ones
    }
}

/// All zeros or all ones, and no longer than a window.
pub open spec fn uniform(window: Seq<bool>) -> bool {
    window.len() <= 187 && forall|i: int, j: int|
        0 <= i < window.len() && 0 <= j < window.len() ==> #[trigger] window[i]
            == #[trigger] window[j]
}

/// Frame sync, blocks that have their start bits, and zeros.
spec fn blocky(bits: Seq<bool>) -> bool {
    &&& bits.len() >= 17
    &&& forall|i: int| 0 <= i < 17 ==> #[trigger] bits[i]
    &&& forall|k: int| 1 <= k && 17 * k < bits.len() ==> !#[trigger] bits[17 * k]
}

/// The last 187 bits.
spec fn last_bits(bits: Seq<bool>) -> Seq<bool> {
    if bits.len() > 187 {
        bits.skip(bits.len() - 187)
    } else {
        bits
    }
}

/// After a uniform window, a sequence can only begin where the frame sync
/// does.
proof fn lemma_only_aligned(window: Seq<bool>, bits: Seq<bool>, n: int, count: nat)
    requires
        uniform(window),
        blocky(bits),
        0 < n <= bits.len(),
        count == 4 || count == 10,
        n != length_of(count),
    ensures
        mp_at_end(last_bits(window + bits.take(n)), count) is None,
{
    let u = window.len() as int;
    let sent = window + bits.take(n);
    let held = last_bits(sent);
    let l = length_of(count);
    reveal(mp_at_end);
    if held.len() >= l && is_sequence(tail(held, count), count) {
        let t = tail(held, count);
        let a = u + n - l;
        assert(t =~= sent.skip(a));
        assert(t.take(17)[0] == t[0] && sync()[0]);
        assert(t[0] == sent[a]);
        assert(!t.skip(17)[17 * 0int]);
        assert(t.skip(17)[0] == t[17]);
        assert(t[17] == sent[a + 17]);
        if a < u {
            assert(window[a]);
            if a + 17 < u {
                assert(window[a + 17] == window[a]);
            } else {
                assert(bits[a + 17 - u]);
            }
        } else {
            let d = a - u;
            assert(d > 0);
            let k = (d + 16) / 17;
            let j = 17 * k;
            assert(d <= j <= d + 16);
            assert(t.take(17)[j - d] == t[j - d] && sync()[j - d]);
            assert(t[j - d] == sent[a + j - d]);
            assert(sent[a + j - d] == bits[j]);
            assert(!bits[17 * k]);
        }
    }
}

/// Nothing is found before the frame has as many blocks as its type.
proof fn lemma_window_fills(window: Seq<bool>, bits: Seq<bool>, count: nat, n: int)
    requires
        uniform(window),
        blocky(bits),
        count == 4 || count == 10,
        0 <= n <= bits.len(),
        n < length_of(count),
        count == 10 ==> precoded(words_in(bits.skip(17), 4)[0]),
    ensures
        window_after(window, bits.take(n)) == last_bits(window + bits.take(n)),
        n > 0 ==> found_at(window, bits, n - 1) is None,
    decreases n,
{
    if n == 0 {
        assert(bits.take(0) =~= Seq::<bool>::empty());
        assert(window + bits.take(0) =~= window);
    } else {
        lemma_window_fills(window, bits, count, n - 1);
        let before = last_bits(window + bits.take(n - 1));
        let next = last_bits(window + bits.take(n));
        assert(bits.take(n).drop_last() =~= bits.take(n - 1));
        assert(slid(before, bits[n - 1]) =~= next);
        lemma_only_aligned(window, bits, n, 10);
        if n == length_of(4) {
            lemma_not_the_short_type(window, bits);
        } else {
            lemma_only_aligned(window, bits, n, 4);
        }
    }
}

/// The beginning of a type 1 sequence is not one of type 0.
proof fn lemma_not_the_short_type(window: Seq<bool>, bits: Seq<bool>)
    requires
        uniform(window),
        bits.len() >= 85,
        precoded(words_in(bits.skip(17), 4)[0]),
    ensures
        mp_at_end(last_bits(window + bits.take(85)), 4) is None,
{
    reveal(mp_at_end);
    let sent = window + bits.take(85);
    let t = tail(last_bits(sent), 4);
    assert(t =~= bits.take(85));
    let words = words_in(t.skip(17), 4).drop_last();
    assert(t.skip(17).subrange(1, 17) =~= bits.skip(17).subrange(1, 17));
    reveal(number_at);
    assert(words[0] == words_in(bits.skip(17), 4)[0]);
}

/// At the last block the sequence is found, if its CRC holds.
proof fn lemma_found_at_last(window: Seq<bool>, all: Seq<u16>, rest: Seq<bool>)
    requires
        uniform(window),
        all.len() == 4 || all.len() == 10,
        precoded(all[0]) == (all.len() == 10),
        blocky(sync() + blocks(all) + rest),
    ensures
        found_at(window, sync() + blocks(all) + rest, length_of(all.len()) - 1) == if crc_of(
            word_bits(all),
        ) == 0 {
            mp_read(all.drop_last())
        } else {
            None::<Mp>
        },
        window_after(
            window,
            (sync() + blocks(all) + rest).take(length_of(all.len()) - 1),
        ) == last_bits(window + (sync() + blocks(all) + rest).take(length_of(all.len()) - 1)),
{
    let bits = sync() + blocks(all) + rest;
    let l = length_of(all.len());
    lemma_blocks_len(all);
    law_reads_back_words(all);
    assert(bits.skip(17).subrange(1, 17) =~= blocks(all).subrange(1, 17));
    reveal(number_at);
    assert(words_in(bits.skip(17), 4)[0] == words_in(blocks(all), all.len())[0]);
    lemma_window_fills(window, bits, all.len(), l - 1);
    let before = last_bits(window + bits.take(l - 1));
    let next = last_bits(window + bits.take(l));
    assert(slid(before, bits[l - 1]) =~= next);
    assert(tail(next, all.len()) =~= sync() + blocks(all));
    lemma_whole_at_end(next, all);
    if all.len() == 10 {
        lemma_only_aligned(window, bits, l, 4);
    } else {
        lemma_only_aligned(window, bits, l, 10);
    }
}

/// What is found where the bits end with whole blocks.
proof fn lemma_whole_at_end(bits: Seq<bool>, all: Seq<u16>)
    requires
        all.len() == 4 || all.len() == 10,
        precoded(all[0]) == (all.len() == 10),
        bits.len() >= length_of(all.len()),
        tail(bits, all.len()) == sync() + blocks(all),
    ensures
        mp_at_end(bits, all.len()) == if crc_of(word_bits(all)) == 0 {
            mp_read(all.drop_last())
        } else {
            None::<Mp>
        },
{
    reveal(mp_at_end);
    lemma_blocks_len(all);
    law_reads_back_words(all);
    let t = tail(bits, all.len());
    assert(t.take(17) =~= sync());
    assert(t.skip(17) =~= blocks(all));
}

proof fn lemma_frame_is_blocky(all: Seq<u16>, rest: Seq<bool>)
    requires
        forall|i: int| 0 <= i < rest.len() ==> !rest[i],
    ensures
        blocky(sync() + blocks(all) + rest),
        (sync() + blocks(all) + rest).len() == length_of(all.len()) + rest.len(),
{
    let bits = sync() + blocks(all) + rest;
    lemma_blocks_len(all);
    assert forall|k: int| 1 <= k && 17 * k < bits.len() implies !#[trigger] bits[17 * k] by {
        if k - 1 < all.len() {
            lemma_block(all, k - 1);
            assert(bits[17 * k] == blocks(all)[17 * (k - 1)]);
        }
    }
}

proof fn lemma_fill_adds_nothing(window: Seq<bool>, bits: Seq<bool>, from: int, n: int)
    requires
        window_after(window, bits.take(from)) == Seq::<bool>::empty(),
        0 <= from <= n <= bits.len(),
        n - from <= 3,
    ensures
        window_after(window, bits.take(n)) == bits.subrange(from, n),
        n > from ==> found_at(window, bits, n - 1) is None,
    decreases n - from,
{
    reveal(mp_at_end);
    if n > from {
        lemma_fill_adds_nothing(window, bits, from, n - 1);
        assert(bits.take(n).drop_last() =~= bits.take(n - 1));
        assert(slid(bits.subrange(from, n - 1), bits[n - 1]) =~= bits.subrange(from, n));
    } else {
        assert(bits.subrange(from, n) =~= Seq::<bool>::empty());
    }
}

/// After zeros or ones, a frame gives its MP at the last bit of the CRC, and
/// nothing before or after, and leaves its fill.
pub proof fn law_finds_mp(window: Seq<bool>, mp: Mp, at: int)
    requires
        uniform(window),
        0 <= at < mp_frame(mp).len(),
    ensures
        found_at(window, mp_frame(mp), at) == if at == framed(mp_words(mp)).len() - 1 {
            Some(mp.carried())
        } else {
            None::<Mp>
        },
        window_after(window, mp_frame(mp)) == mp_fill(mp),
{
    let all = with_crc(mp_words(mp));
    let rest = mp_fill(mp);
    let bits = mp_frame(mp);
    let l = length_of(all.len());
    assert(bits =~= sync() + blocks(all) + rest);
    lemma_head_words(mp);
    law_reads_back_mp(mp);
    law_the_crc_of_words_holds(mp_words(mp));
    law_frames_are_whole_blocks(mp_words(mp));
    law_reads_back_words(all);
    assert(all.drop_last() =~= mp_words(mp));
    lemma_frame_is_blocky(all, rest);
    lemma_found_at_last(window, all, rest);
    assert(bits.take(l).drop_last() =~= bits.take(l - 1));
    assert(bits.take(l).last() == bits[l - 1]);
    assert(window_after(window, bits.take(l)) == Seq::<bool>::empty());
    lemma_fill_adds_nothing(window, bits, l, bits.len() as int);
    assert(bits.take(bits.len() as int) =~= bits);
    assert(bits.subrange(l, bits.len() as int) =~= rest);
    if at < l - 1 {
        assert(bits.skip(17).subrange(1, 17) =~= blocks(all).subrange(1, 17));
        reveal(number_at);
        assert(words_in(bits.skip(17), 4)[0] == words_in(blocks(all), all.len())[0]);
        lemma_window_fills(window, bits, all.len(), at + 1);
    } else if at >= l {
        lemma_fill_adds_nothing(window, bits, l, at + 1);
    }
}

/// A frame with one bit of a word or of its CRC flipped, other than the one
/// that tells its type, gives nothing.
pub proof fn law_drops_mp_with_a_flipped_bit(
    window: Seq<bool>,
    mp: Mp,
    flipped: Seq<u16>,
    word: int,
    bit: int,
    at: int,
)
    requires
        uniform(window),
        one_bit_apart(with_crc(mp_words(mp)), flipped, word, bit),
        (word, bit) != (0int, 0int),
        0 <= at < (sync() + blocks(flipped) + mp_fill(mp)).len(),
    ensures
        found_at(window, sync() + blocks(flipped) + mp_fill(mp), at) is None,
{
    let all = with_crc(mp_words(mp));
    let rest = mp_fill(mp);
    let bits = sync() + blocks(flipped) + rest;
    let l = length_of(flipped.len());
    lemma_head_words(mp);
    law_reads_back_mp(mp);
    law_a_flipped_bit_breaks_the_crc(mp_words(mp), flipped, word, bit);
    law_reads_back_words(flipped);
    lemma_blocks_len(flipped);
    lemma_frame_is_blocky(flipped, rest);
    assert(precoded(flipped[0]) == precoded(all[0])) by {
        if word == 0 {
            lemma_field_bits_len(all[0] as nat, 16);
        } else {
            assert(all[0] == flipped[0]);
        }
    }
    lemma_found_at_last(window, flipped, rest);
    assert(bits.skip(17).subrange(1, 17) =~= blocks(flipped).subrange(1, 17));
    reveal(number_at);
    assert(words_in(bits.skip(17), 4)[0] == words_in(blocks(flipped), flipped.len())[0]);
    if at < l - 1 {
        lemma_window_fills(window, bits, flipped.len(), at + 1);
    } else {
        lemma_dropped_further(window, bits, flipped.len(), at);
    }
}

/// Where the CRC does not hold, nothing is found in the fill either.
proof fn lemma_dropped_further(window: Seq<bool>, bits: Seq<bool>, count: nat, at: int)
    requires
        uniform(window),
        blocky(bits),
        count == 4 || count == 10,
        length_of(count) - 1 <= at < bits.len() <= length_of(count) + 3,
        window_after(window, bits.take(length_of(count) - 1)) == last_bits(
            window + bits.take(length_of(count) - 1),
        ),
        found_at(window, bits, length_of(count) - 1) is None,
    ensures
        found_at(window, bits, at) is None,
        window_after(window, bits.take(at + 1)) == last_bits(window + bits.take(at + 1)),
    decreases at,
{
    let n = at + 1;
    assert(bits.take(n).drop_last() =~= bits.take(n - 1));
    assert(bits.take(n).last() == bits[n - 1]);
    if at >= length_of(count) {
        lemma_dropped_further(window, bits, count, at - 1);
        lemma_only_aligned(window, bits, n, 4);
        lemma_only_aligned(window, bits, n, 10);
    }
    let before = last_bits(window + bits.take(n - 1));
    assert(slid(before, bits[n - 1]) =~= last_bits(window + bits.take(n)));
}

/// Tables 20 and 21, field by field: the words that bits 18 to 33 and 35 to
/// 50 of MP carry, and those of the precoding coefficients in two's
/// complement, which a type bit of 1 tells of.
pub proof fn law_tables_20_and_21(mp: Mp)
    ensures
        ({
            let words = mp_words(mp);
            let first = field_bits(words[0] as nat, 16);
            let second = field_bits(words[1] as nat, 16);
            &&& first[0] == (mp.precoding is Some)
            &&& number_at(first, 2, 4) == mp.max_call_to_answer % 16
            &&& number_at(first, 6, 4) == mp.max_answer_to_call % 16
            &&& first[10] == mp.auxiliary
            &&& number_at(first, 11, 2) == match mp.trellis {
                Trellis::States16 => 0nat,
                Trellis::States32 => 1nat,
                Trellis::States64 => 2nat,
            }
            &&& first[13] == mp.nonlinear
            &&& first[14] == mp.expanded_shaping
            &&& first[15] == mp.acknowledge
            &&& number_at(second, 0, 14) == mp.rates % 0x4000
            &&& second[15] == mp.asymmetric
            &&& words.len() == if mp.precoding is Some {
                9nat
            } else {
                3nat
            }
            &&& words.last() == 0
            &&& mp.precoding is Some ==> {
                let h = mp.precoding->0;
                &&& (words[2] - h[0].0) % 0x1_0000 == 0 && (words[3] - h[0].1) % 0x1_0000 == 0
                &&& (words[4] - h[1].0) % 0x1_0000 == 0 && (words[5] - h[1].1) % 0x1_0000 == 0
                &&& (words[6] - h[2].0) % 0x1_0000 == 0 && (words[7] - h[2].1) % 0x1_0000 == 0
            }
            &&& mp_frame(mp).len() == framed(words).len() + mp_fill(mp).len()
            &&& forall|i: int| 0 <= i < mp_fill(mp).len() ==> !#[trigger] mp_fill(mp)[i]
        }),
{
    reveal(mp_words);
    let first = first_table(mp);
    let second = second_table(mp);
    vstd::arithmetic::power2::lemma2_to64();
    lemma_head_words(mp);
    lemma_first_starts(mp);
    lemma_second_starts(mp);
    crate::v34::info::lemma_flag_at(first, 9, 0, mp.precoding is Some);
    law_fields_stand_at_their_places(first, 9, 2);
    law_fields_stand_at_their_places(first, 9, 3);
    crate::v34::info::lemma_flag_at(first, 9, 4, mp.auxiliary);
    law_fields_stand_at_their_places(first, 9, 5);
    crate::v34::info::lemma_flag_at(first, 9, 6, mp.nonlinear);
    crate::v34::info::lemma_flag_at(first, 9, 7, mp.expanded_shaping);
    crate::v34::info::lemma_flag_at(first, 9, 8, mp.acknowledge);
    law_fields_stand_at_their_places(second, 3, 0);
    crate::v34::info::lemma_flag_at(second, 3, 2, mp.asymmetric);
    assert(number_at(written(first, 9), 2, 4) == mp.max_call_to_answer % 16);
    assert(number_at(written(first, 9), 6, 4) == mp.max_answer_to_call % 16);
    assert(number_at(written(first, 9), 11, 2) == trellis_value(mp.trellis));
    assert(number_at(written(second, 3), 0, 14) == mp.rates % 0x4000);
}

} // verus!

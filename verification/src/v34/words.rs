//! Sequences of 16-bit words as MP frames them: 17 ones, then the words,
//! each after a 0 start bit, and a CRC word over the words.

use crate::v34::bits::{
    crc_of, field_bits, law_a_flipped_bit_changes_the_crc, law_crc_of_a_frame_and_its_crc_is_zero,
    flag_value, law_reads_back_a_field, law_writes_back_what_it_reads, lemma_field_bits_len,
    lemma_flag, lemma_written_len, number_at, start, value_of, written, Writer,
};
use vstd::prelude::*;

verus! {

/// The ones that begin a sequence.
pub const SYNC_ONES: usize = 17;

pub open spec fn sync() -> Seq<bool> {
    Seq::new(17, |i: int| true)
}

/// The bits of `words`, which the CRC is over.
pub open spec fn word_bits(words: Seq<u16>) -> Seq<bool>
    decreases words.len(),
{
    if words.len() == 0 {
        seq![]
    } else {
        word_bits(words.drop_last()) + field_bits(words.last() as nat, 16)
    }
}

/// The words, each after its start bit.
pub open spec fn blocks(words: Seq<u16>) -> Seq<bool>
    decreases words.len(),
{
    if words.len() == 0 {
        seq![]
    } else {
        blocks(words.drop_last()).push(false) + field_bits(words.last() as nat, 16)
    }
}

pub open spec fn with_crc(words: Seq<u16>) -> Seq<u16> {
    words.push(crc_of(word_bits(words)))
}

/// Frame sync, the words, and their CRC, with no fill.
pub open spec fn framed(words: Seq<u16>) -> Seq<bool> {
    sync() + blocks(with_crc(words))
}

/// The words in `count` blocks.
pub open spec fn words_in(blocks: Seq<bool>, count: nat) -> Seq<u16> {
    Seq::new(count, |i: int| number_at(blocks, 17 * i + 1, 16) as u16)
}

/// Whether each of `count` blocks begins with a start bit.
pub open spec fn starts_hold(blocks: Seq<bool>, count: nat) -> bool {
    forall|i: int| 0 <= i < count ==> !#[trigger] blocks[17 * i]
}

pub proof fn lemma_word_bits_len(words: Seq<u16>)
    ensures
        word_bits(words).len() == 16 * words.len(),
    decreases words.len(),
{
    if words.len() > 0 {
        lemma_word_bits_len(words.drop_last());
        lemma_field_bits_len(words.last() as nat, 16);
    }
}

pub proof fn lemma_word_bits_push(words: Seq<u16>, word: u16)
    ensures
        word_bits(words.push(word)) == word_bits(words) + field_bits(word as nat, 16),
{
    assert(words.push(word).drop_last() =~= words);
}

/// Each word stands in its block, after its start bit.
pub proof fn lemma_block(words: Seq<u16>, i: int)
    requires
        0 <= i < words.len(),
    ensures
        blocks(words).len() == 17 * words.len(),
        !blocks(words)[17 * i],
        blocks(words).subrange(17 * i + 1, 17 * i + 17) == field_bits(words[i] as nat, 16),
    decreases words.len(),
{
    let less = words.drop_last();
    let n = less.len() as int;
    lemma_blocks_len(less);
    lemma_field_bits_len(words.last() as nat, 16);
    if i == n {
        assert(blocks(words).subrange(17 * i + 1, 17 * i + 17) =~= field_bits(
            words.last() as nat,
            16,
        ));
    } else {
        lemma_block(less, i);
        assert(blocks(words).subrange(17 * i + 1, 17 * i + 17) =~= blocks(less).subrange(
            17 * i + 1,
            17 * i + 17,
        ));
    }
}

pub proof fn lemma_blocks_len(words: Seq<u16>)
    ensures
        blocks(words).len() == 17 * words.len(),
    decreases words.len(),
{
    if words.len() > 0 {
        lemma_blocks_len(words.drop_last());
        lemma_field_bits_len(words.last() as nat, 16);
    }
}

/// Words read back from their blocks.
pub proof fn law_reads_back_words(words: Seq<u16>)
    ensures
        blocks(words).len() == 17 * words.len(),
        words_in(blocks(words), words.len()) == words,
        starts_hold(blocks(words), words.len()),
{
    vstd::arithmetic::power2::lemma2_to64();
    lemma_blocks_len(words);
    assert forall|i: int| 0 <= i < words.len() implies words_in(blocks(words), words.len())[i]
        == words[i] by {
        reveal(number_at);
        lemma_block(words, i);
        law_reads_back_a_field(words[i] as nat, 16);
    }
    assert forall|i: int| 0 <= i < words.len() implies !#[trigger] blocks(words)[17 * i] by {
        lemma_block(words, i);
    }
    assert(words_in(blocks(words), words.len()) =~= words);
}

/// Words followed by their CRC have a CRC of zero.
pub proof fn law_the_crc_of_words_holds(words: Seq<u16>)
    ensures
        crc_of(word_bits(with_crc(words))) == 0,
{
    lemma_word_bits_push(words, crc_of(word_bits(words)));
    law_crc_of_a_frame_and_its_crc_is_zero(word_bits(words));
}

/// A frame is 17 ones and 17 bits for each word and for the CRC.
pub proof fn law_frames_are_whole_blocks(words: Seq<u16>)
    ensures
        framed(words).len() == 34 + 17 * words.len(),
        forall|i: int| 0 <= i < 17 ==> #[trigger] framed(words)[i],
        framed(words).skip(17) == blocks(with_crc(words)),
{
    lemma_blocks_len(with_crc(words));
    assert(framed(words).skip(17) =~= blocks(with_crc(words)));
}

/// Words differ where one bit of their blocks does, start bits aside.
pub open spec fn one_bit_apart(words: Seq<u16>, other: Seq<u16>, at: int, bit: int) -> bool {
    &&& words.len() == other.len()
    &&& 0 <= at < words.len()
    &&& 0 <= bit < 16
    &&& forall|i: int| 0 <= i < words.len() && i != at ==> words[i] == #[trigger] other[i]
    &&& field_bits(other[at] as nat, 16) == field_bits(words[at] as nat, 16).update(
        bit,
        !field_bits(words[at] as nat, 16)[bit],
    )
}

proof fn lemma_one_bit_apart(words: Seq<u16>, other: Seq<u16>, at: int, bit: int)
    requires
        one_bit_apart(words, other, at, bit),
    ensures
        word_bits(words).len() == 16 * words.len(),
        word_bits(other) == word_bits(words).update(16 * at + bit, !word_bits(words)[16 * at + bit]),
    decreases words.len(),
{
    lemma_word_bits_len(words);
    lemma_word_bits_len(other);
    let less = words.drop_last();
    let other_less = other.drop_last();
    lemma_word_bits_len(less);
    lemma_word_bits_len(other_less);
    lemma_field_bits_len(words.last() as nat, 16);
    lemma_field_bits_len(other.last() as nat, 16);
    let flipped = word_bits(words).update(16 * at + bit, !word_bits(words)[16 * at + bit]);
    if at == words.len() - 1 {
        assert(less =~= other_less) by {
            assert forall|i: int| 0 <= i < less.len() implies less[i] == other_less[i] by {
                assert(words[i] == other[i]);
            }
        }
        assert(word_bits(other) =~= flipped);
    } else {
        assert(one_bit_apart(less, other_less, at, bit)) by {
            assert forall|i: int| 0 <= i < less.len() && i != at implies less[i]
                == #[trigger] other_less[i] by {
                assert(words[i] == other[i]);
            }
        }
        lemma_one_bit_apart(less, other_less, at, bit);
        assert(words.last() == other[words.len() - 1]);
        assert(word_bits(other) =~= flipped);
    }
}

/// One flipped bit of the words or of their CRC leaves a CRC that does not
/// hold.
pub proof fn law_a_flipped_bit_breaks_the_crc(words: Seq<u16>, other: Seq<u16>, at: int, bit: int)
    requires
        one_bit_apart(with_crc(words), other, at, bit),
    ensures
        crc_of(word_bits(other)) != 0,
{
    law_the_crc_of_words_holds(words);
    lemma_one_bit_apart(with_crc(words), other, at, bit);
    law_a_flipped_bit_changes_the_crc(word_bits(with_crc(words)), 16 * at + bit);
}

/// The CRC of `words`, whose bits go least significant first.
pub fn crc_of_words(words: &[u16]) -> (crc: u16)
    ensures
        crc == crc_of(word_bits(words@)),
{
    let mut writer = Writer::default();
    let mut i: usize = 0;
    while i < words.len()
        invariant
            i <= words.len(),
            writer.bits@ == word_bits(words@.take(i as int)),
        decreases words.len() - i,
    {
        writer.field(words[i] as u32, 16);
        proof {
            lemma_word_bits_push(words@.take(i as int), words@[i as int]);
            assert(words@.take(i + 1) =~= words@.take(i as int).push(words@[i as int]));
        }
        i += 1;
    }
    assert(words@.take(i as int) =~= words@);
    crate::v34::bits::crc(writer.bits.as_slice())
}

/// Frame sync, the words, and their CRC, with no fill.
#[must_use]
pub fn frame(words: &[u16]) -> (bits: Vec<bool>)
    ensures
        bits@ == framed(words@),
{
    let crc = crc_of_words(words);
    let mut writer = Writer::default();
    let mut i: usize = 0;
    while i < SYNC_ONES
        invariant
            i <= SYNC_ONES,
            writer.bits@ == sync().take(i as int),
        decreases SYNC_ONES - i,
    {
        writer.flag(true);
        i += 1;
        assert(sync().take(i as int) =~= sync().take(i - 1).push(true));
    }
    assert(sync().take(17) =~= sync());
    let mut i: usize = 0;
    assert(blocks(words@.take(0)) =~= Seq::<bool>::empty());
    while i < words.len()
        invariant
            i <= words.len(),
            writer.bits@ == sync() + blocks(words@.take(i as int)),
        decreases words.len() - i,
    {
        writer.flag(false);
        writer.field(words[i] as u32, 16);
        proof {
            let more = words@.take(i + 1);
            assert(more.drop_last() =~= words@.take(i as int));
            assert(writer.bits@ =~= sync() + blocks(more));
        }
        i += 1;
    }
    writer.flag(false);
    writer.field(crc as u32, 16);
    proof {
        assert(words@.take(i as int) =~= words@);
        assert(with_crc(words@).drop_last() =~= words@);
        assert(writer.bits@ =~= framed(words@));
    }
    writer.bits
}

/// The word that 16 bits write, least significant first.
pub fn word(bits: &[bool]) -> (word: u16)
    requires
        bits.len() == 16,
    ensures
        word == value_of(bits@),
        field_bits(word as nat, 16) == bits@,
{
    let mut reader = crate::v34::bits::Reader::new(bits);
    proof {
        vstd::arithmetic::power2::lemma2_to64();
        reveal(number_at);
        assert(bits@.subrange(0, 16) =~= bits@);
        law_writes_back_what_it_reads(bits@);
    }
    reader.field(16) as u16
}

/// A table of values and widths, as numbers.
pub open spec fn table_of(fields: Seq<(u32, u32)>) -> Seq<(nat, nat)> {
    Seq::new(fields.len(), |i: int| (fields[i].0 as nat, fields[i].1 as nat))
}

/// The word that fields of 16 bits in all make up.
pub(crate) fn packed(fields: &[(u32, u32)]) -> (word: u16)
    requires
        start(table_of(fields@), fields.len() as nat) == 16,
        forall|i: int| 0 <= i < fields.len() ==> (#[trigger] fields[i]).1 <= 32,
    ensures
        word == value_of(written(table_of(fields@), fields.len() as nat)),
        field_bits(word as nat, 16) == written(table_of(fields@), fields.len() as nat),
{
    let ghost table = table_of(fields@);
    let mut writer = Writer::default();
    let mut i: usize = 0;
    while i < fields.len()
        invariant
            i <= fields.len(),
            table == table_of(fields@),
            forall|i: int| 0 <= i < fields.len() ==> (#[trigger] fields[i]).1 <= 32,
            writer.bits@ == written(table, i as nat),
        decreases fields.len() - i,
    {
        let (value, width) = fields[i];
        assert(fields[i as int].1 <= 32);
        writer.field(value, width);
        i += 1;
    }
    proof {
        lemma_written_len(table, fields.len() as nat);
    }
    self::word(writer.bits.as_slice())
}

/// A flag as a field of one bit.
pub(crate) fn flag(set: bool) -> (value: u32)
    ensures
        value == flag_value(set),
{
    proof {
        lemma_flag(set);
    }
    if set {
        1
    } else {
        0
    }
}

/// The bits of `word`, least significant first.
pub(crate) fn unpacked(word: u16) -> (bits: Vec<bool>)
    ensures
        bits@ == field_bits(word as nat, 16),
        bits.len() == 16,
{
    let mut writer = Writer::default();
    writer.field(word as u32, 16);
    proof {
        lemma_field_bits_len(word as nat, 16);
        assert(writer.bits@ =~= field_bits(word as nat, 16));
    }
    writer.bits
}

/// Where each bit of a frame stands: 17 ones, then for each word a start bit
/// 0 and its 16 digits, the lowest first, the CRC over all of them coming
/// last.
pub proof fn law_where_each_word_stands(words: Seq<u16>, i: int, k: nat)
    requires
        0 <= i < words.len(),
        k < 16,
    ensures
        framed(words).len() == 17 + 17 * words.len() + 17,
        forall|n: int| 0 <= n < 17 ==> #[trigger] framed(words)[n],
        !framed(words)[17 + 17 * i],
        framed(words)[18 + 17 * i + k] == (words[i] as nat / vstd::arithmetic::power2::pow2(k) % 2 == 1),
        !framed(words)[17 + 17 * words.len() as int],
        framed(words)[18 + 17 * words.len() as int + k] == (crc_of(word_bits(words)) as nat / vstd::arithmetic::power2::pow2(k)
            % 2 == 1),
        word_bits(words).len() == 16 * words.len(),
        word_bits(words)[16 * i + k] == (words[i] as nat / vstd::arithmetic::power2::pow2(k) % 2 == 1),
{
    let all = with_crc(words);
    let n = words.len() as int;
    lemma_block(all, i);
    lemma_block(all, n);
    crate::v34::bits::law_a_field_shows_its_digits(words[i] as nat, 16, k);
    crate::v34::bits::law_a_field_shows_its_digits(all[n] as nat, 16, k);
    let whole = blocks(all);
    assert(all[i] == words[i]);
    assert(whole.subrange(17 * i + 1, 17 * i + 17)[k as int] == whole[17 * i + 1 + k]);
    assert(whole.subrange(17 * n + 1, 17 * n + 17)[k as int] == whole[17 * n + 1 + k]);
    lemma_word_bits_at(words, i, k);
}

proof fn lemma_word_bits_at(words: Seq<u16>, i: int, k: nat)
    requires
        0 <= i < words.len(),
        k < 16,
    ensures
        word_bits(words).len() == 16 * words.len(),
        word_bits(words)[16 * i + k] == field_bits(words[i] as nat, 16)[k as int],
    decreases words.len(),
{
    lemma_word_bits_len(words);
    lemma_word_bits_len(words.drop_last());
    lemma_field_bits_len(words.last() as nat, 16);
    if i < words.len() - 1 {
        lemma_word_bits_at(words.drop_last(), i, k);
    }
}

} // verus!

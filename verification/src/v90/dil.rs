//! The digital impairment learning sequence of § 8.4.1, and the DIL
//! descriptor of § 8.3.1 that the analogue modem repeats in Ja to ask for
//! it.

use crate::v34::bits::{
    field_bits, law_writes_back_what_it_reads, lemma_field_bits_len, lemma_field_bits_prefix,
    repeated, value_of,
};
use crate::v34::words::{framed, unpacked, with_crc};
use crate::v90::frames::{
    self, counts, filled, gives_at, incomplete, last_of_crc, law_finds_each_of_repeated_frames,
    resting, Deframing, Words,
};
use crate::v90::encoder::{copied, copied_bits};
use crate::v90::Codeword;
use vstd::arithmetic::power2::lemma2_to64;
use vstd::prelude::*;

verus! {

/// Table 12.
#[derive(Debug, Clone, PartialEq, Eq)]
pub struct Descriptor {
    /// SP: the sign of each symbol of a segment, 1 positive. 1 to 128 bits.
    pub signs: Vec<bool>,
    /// TP: 1 for the training symbol, 0 for the reference. 1 to 128 bits.
    pub pattern: Vec<bool>,
    /// H1 to H8: a segment of training symbols from Uchord c is
    /// (Hc + 1) · 6 symbols long.
    pub lengths: [u8; 8],
    /// REF1 to REF8: the reference Ucode of each Uchord.
    pub references: [u8; 8],
    /// The training Ucode of each segment, at most 255 of them.
    pub training: Vec<u8>,
}

pub open spec fn divided_up(n: nat, by: nat) -> nat
    recommends
        by > 0,
{
    (n + by - 1) as nat / by
}

/// Bits as words, 16 to a word.
pub open spec fn pattern_words(bits: Seq<bool>) -> Seq<u16> {
    Seq::new(divided_up(bits.len(), 16), |i: int| value_of(chunk(bits, i)) as u16)
}

/// The bits of word `i`.
pub open spec fn chunk(bits: Seq<bool>, i: int) -> Seq<bool> {
    bits.subrange(
        16 * i,
        if 16 * i + 16 < bits.len() {
            16 * i + 16
        } else {
            bits.len() as int
        },
    )
}

/// Values of seven bits as words, two to a word.
pub open spec fn pairs(values: Seq<u8>) -> Seq<u16> {
    Seq::new(divided_up(values.len(), 2), |i: int| pair(values, i))
}

pub open spec fn pair(values: Seq<u8>, i: int) -> u16 {
    (values[2 * i] % 128 + 256 * if 2 * i + 1 < values.len() {
        values[2 * i + 1] as int % 128
    } else {
        0
    }) as u16
}

/// One less than a pattern's length, within seven bits.
pub open spec fn length_value(bits: Seq<bool>) -> int {
    if bits.len() == 0 {
        0
    } else if bits.len() > 128 {
        127
    } else {
        bits.len() - 1
    }
}

pub open spec fn at_most_255(n: nat) -> nat {
    if n > 255 {
        255
    } else {
        n
    }
}

/// The words of table 12, CRC aside.
#[verifier::opaque]
pub open spec fn descriptor_words(d: Descriptor) -> Seq<u16> {
    seq![
        at_most_255(d.training@.len()) as u16,
        (length_value(d.signs@) + 256 * length_value(d.pattern@)) as u16,
    ] + pattern_words(d.signs@) + pattern_words(d.pattern@) + pairs(d.lengths@) + pairs(
        d.references@,
    ) + pairs(d.training@)
}

pub open spec fn descriptor_frame(d: Descriptor) -> Seq<bool> {
    let bits = framed(descriptor_words(d)).push(false);
    if bits.len() % 2 == 1 {
        bits.push(false)
    } else {
        bits
    }
}

/// How many signs the second word tells of.
pub open spec fn signs_in(lengths: u16) -> nat {
    lengths as nat % 128 + 1
}

pub open spec fn pattern_in(lengths: u16) -> nat {
    lengths as nat / 256 % 128 + 1
}

/// How many segments the first word tells of.
pub open spec fn count_in(first: u16) -> nat {
    first as nat % 256
}

/// Bit `n` of the words from `at` on.
pub open spec fn bit_in(words: Seq<u16>, at: int, n: int) -> bool {
    field_bits(words[at + n / 16] as nat, 16)[n % 16]
}

pub open spec fn bits_in(words: Seq<u16>, at: int, length: nat) -> Seq<bool> {
    Seq::new(length, |n: int| bit_in(words, at, n))
}

/// Value `n` of the pairs from word `at` on.
pub open spec fn value_in(words: Seq<u16>, at: int, n: int) -> u8 {
    let word = words[at + n / 2];
    if n % 2 == 0 {
        (word % 128) as u8
    } else {
        (word / 256 % 128) as u8
    }
}

pub open spec fn values_in(words: Seq<u16>, at: int, length: nat) -> Seq<u8> {
    Seq::new(length, |n: int| value_in(words, at, n))
}

/// Where the pairs begin.
pub open spec fn pairs_start(words: Seq<u16>) -> nat {
    2 + divided_up(signs_in(words[1]), 16) + divided_up(pattern_in(words[1]), 16)
}

/// What the words of table 12 say.
#[verifier::opaque]
pub open spec fn descriptor_says(words: Seq<u16>, d: Descriptor) -> bool {
    let signs = signs_in(words[1]);
    let at = pairs_start(words) as int;
    &&& d.signs@ == bits_in(words, 2, signs)
    &&& d.pattern@ == bits_in(words, 2 + divided_up(signs, 16) as int, pattern_in(words[1]))
    &&& d.lengths@ == values_in(words, at, 8)
    &&& d.references@ == values_in(words, at + 4, 8)
    &&& d.training@ == values_in(words, at + 8, count_in(words[0]))
}

impl Descriptor {
    /// Within table 12.
    pub open spec fn valid(self) -> bool {
        &&& 1 <= self.signs@.len() <= 128
        &&& 1 <= self.pattern@.len() <= 128
        &&& self.training@.len() <= 255
        &&& forall|i: int| 0 <= i < 8 ==> #[trigger] self.lengths@[i] < 128
        &&& forall|i: int| 0 <= i < 8 ==> #[trigger] self.references@[i] < 128
        &&& forall|i: int| 0 <= i < self.training@.len() ==> #[trigger] self.training@[i] < 128
    }

    /// The same in all its parts.
    pub open spec fn same(self, other: Self) -> bool {
        &&& self.signs@ == other.signs@
        &&& self.pattern@ == other.pattern@
        &&& self.lengths@ == other.lengths@
        &&& self.references@ == other.references@
        &&& self.training@ == other.training@
    }

    /// A descriptor that asks for no DIL.
    #[must_use]
    pub fn none() -> (none: Self)
        ensures
            none.valid(),
            none.signs@ == seq![false],
            none.pattern@ == seq![false],
            none.lengths@ == seq![0u8, 0, 0, 0, 0, 0, 0, 0],
            none.references@ == seq![0u8, 0, 0, 0, 0, 0, 0, 0],
            none.training@ == Seq::<u8>::empty(),
    {
        let none = Self {
            signs: vec![false],
            pattern: vec![false],
            lengths: [0, 0, 0, 0, 0, 0, 0, 0],
            references: [0, 0, 0, 0, 0, 0, 0, 0],
            training: Vec::new(),
        };
        assert(none.signs@ =~= seq![false]);
        assert(none.pattern@ =~= seq![false]);
        assert(none.lengths@ =~= seq![0u8, 0, 0, 0, 0, 0, 0, 0]);
        assert(none.references@ =~= seq![0u8, 0, 0, 0, 0, 0, 0, 0]);
        none
    }

    #[must_use]
    pub fn copied(&self) -> (copy: Self)
        ensures
            copy.same(*self),
    {
        Self {
            signs: copied_bits(&self.signs),
            pattern: copied_bits(&self.pattern),
            lengths: self.lengths,
            references: self.references,
            training: copied(&self.training),
        }
    }

    fn words(&self) -> (words: Vec<u16>)
        ensures
            words@ == descriptor_words(*self),
    {
        let count: u16 = if self.training.len() > 255 {
            255
        } else {
            self.training.len() as u16
        };
        let mut words: Vec<u16> = Vec::new();
        words.push(count);
        words.push(length(&self.signs) + 256 * length(&self.pattern));
        push_pattern(&mut words, &self.signs);
        push_pattern(&mut words, &self.pattern);
        push_pairs(&mut words, &self.lengths);
        push_pairs(&mut words, &self.references);
        push_pairs(&mut words, self.training.as_slice());
        proof {
            reveal(descriptor_words);
            assert(words@ =~= descriptor_words(*self));
        }
        words
    }

    /// Frame sync, the words, the CRC and the fill, to an even length.
    #[must_use]
    pub fn frame(&self) -> (bits: Vec<bool>)
        ensures
            bits@ == descriptor_frame(*self),
    {
        let words = self.words();
        let mut bits = frames::frame(words.as_slice());
        bits.push(false);
        if bits.len() % 2 == 1 {
            bits.push(false);
        }
        bits
    }
}

fn length(bits: &Vec<bool>) -> (value: u16)
    ensures
        value == length_value(bits@),
        value <= 127,
{
    if bits.len() == 0 {
        0
    } else if bits.len() > 128 {
        127
    } else {
        bits.len() as u16 - 1
    }
}

fn push_pattern(words: &mut Vec<u16>, bits: &Vec<bool>)
    ensures
        final(words)@ == old(words)@ + pattern_words(bits@),
{
    let count: usize = bits.len() / 16 + if bits.len() % 16 == 0 {
        0
    } else {
        1
    };
    let mut i: usize = 0;
    while i < count
        invariant
            i <= count,
            count == divided_up(bits@.len(), 16),
            words@ == old(words)@ + pattern_words(bits@).take(i as int),
        decreases count - i,
    {
        assert(16 * i < bits.len());
        let end = if bits.len() - 16 * i > 16 {
            16 * i + 16
        } else {
            bits.len()
        };
        let ghost piece = chunk(bits@, i as int);
        let mut word: u16 = 0;
        let mut left = end;
        reveal(value_of);
        while left > 16 * i
            invariant
                16 * i <= left <= end <= 16 * i + 16,
                end <= bits.len(),
                piece == bits@.subrange(16 * i as int, end as int),
                word == value_of(piece.skip(left - 16 * i)),
            decreases left,
        {
            left -= 1;
            proof {
                reveal(value_of);
                let rest = piece.skip(left - 16 * i);
                assert(rest.skip(1) =~= piece.skip(left + 1 - 16 * i));
                law_writes_back_what_it_reads(rest);
                lemma2_to64();
                if rest.len() < 16 {
                    vstd::arithmetic::power2::lemma_pow2_strictly_increases(rest.len(), 16);
                }
            }
            word = 2 * word + if bits[left] {
                1
            } else {
                0
            };
        }
        assert(piece.skip(0) =~= piece);
        words.push(word);
        proof {
            let all = pattern_words(bits@);
            assert(all.take(i + 1) =~= all.take(i as int).push(all[i as int]));
        }
        i += 1;
    }
    assert(pattern_words(bits@).take(i as int) =~= pattern_words(bits@));
}

fn push_pairs(words: &mut Vec<u16>, values: &[u8])
    ensures
        final(words)@ == old(words)@ + pairs(values@),
{
    let count: usize = values.len() / 2 + values.len() % 2;
    let mut i: usize = 0;
    while i < count
        invariant
            i <= count,
            count == divided_up(values@.len(), 2),
            words@ == old(words)@ + pairs(values@).take(i as int),
        decreases count - i,
    {
        assert(2 * i < values.len());
        let low = (values[2 * i] % 128) as u16;
        let high = if 2 * i + 1 < values.len() {
            (values[2 * i + 1] % 128) as u16
        } else {
            0
        };
        words.push(low + 256 * high);
        proof {
            let all = pairs(values@);
            assert(all.take(i + 1) =~= all.take(i as int).push(all[i as int]));
        }
        i += 1;
    }
    assert(pairs(values@).take(i as int) =~= pairs(values@));
}

fn read_bits(words: &[u16], at: usize, length: usize) -> (bits: Vec<bool>)
    requires
        length <= 128,
        at + divided_up(length as nat, 16) <= words.len(),
    ensures
        bits@ == bits_in(words@, at as int, length as nat),
{
    let mut bits: Vec<bool> = Vec::new();
    let mut n: usize = 0;
    while n < length
        invariant
            n <= length <= 128,
            at + divided_up(length as nat, 16) <= words.len(),
            bits.len() == n,
            forall|k: int| 0 <= k < n ==> #[trigger] bits[k] == bits_in(words@, at as int, length as nat)[k],
        decreases length - n,
    {
        let word = unpacked(words[at + n / 16]);
        bits.push(word[n % 16]);
        n += 1;
    }
    assert(bits@ =~= bits_in(words@, at as int, length as nat));
    bits
}

fn read_value(words: &[u16], at: usize, n: usize) -> (value: u8)
    requires
        at + n / 2 < words.len(),
        n <= 255,
    ensures
        value == value_in(words@, at as int, n as int),
{
    let word = words[at + n / 2];
    if n % 2 == 0 {
        (word % 128) as u8
    } else {
        (word / 256 % 128) as u8
    }
}

fn read_values(words: &[u16], at: usize, length: usize) -> (values: Vec<u8>)
    requires
        length <= 255,
        at + divided_up(length as nat, 2) <= words.len(),
    ensures
        values@ == values_in(words@, at as int, length as nat),
{
    let mut values: Vec<u8> = Vec::new();
    let mut n: usize = 0;
    while n < length
        invariant
            n <= length <= 255,
            at + divided_up(length as nat, 2) <= words.len(),
            values.len() == n,
            forall|k: int|
                0 <= k < n ==> #[trigger] values[k] == values_in(words@, at as int, length as nat)[k],
        decreases length - n,
    {
        values.push(read_value(words, at, n));
        n += 1;
    }
    assert(values@ =~= values_in(words@, at as int, length as nat));
    values
}

fn eight_values(words: &[u16], at: usize) -> (values: [u8; 8])
    requires
        at + 4 <= words.len(),
    ensures
        values@ == values_in(words@, at as int, 8),
{
    let v = read_values(words, at, 8);
    let values: [u8; 8] = [v[0], v[1], v[2], v[3], v[4], v[5], v[6], v[7]];
    assert(values@ =~= v@);
    values
}

impl Words for Descriptor {
    open spec fn spec_length(words: Seq<u16>) -> Option<nat> {
        if words.len() < 2 {
            None
        } else {
            Some(pairs_start(words) + 8 + divided_up(count_in(words[0]), 2))
        }
    }

    open spec fn says(words: Seq<u16>, found: Option<Self>) -> bool {
        match found {
            Some(descriptor) => descriptor_says(words, descriptor),
            None => false,
        }
    }

    proof fn lemma_length_is_told_early(words: Seq<u16>) {
    }

    fn length(words: &[u16]) -> (length: Option<usize>) {
        if words.len() < 2 {
            return None;
        }
        let count = (words[0] % 256) as usize;
        let signs = (words[1] % 128) as usize + 1;
        let pattern = (words[1] / 256 % 128) as usize + 1;
        Some(2 + (signs + 15) / 16 + (pattern + 15) / 16 + 8 + (count + 1) / 2)
    }

    fn from_words(words: &[u16]) -> (sequence: Option<Self>) {
        proof {
            reveal(descriptor_says);
        }
        let count = (words[0] % 256) as usize;
        let signs = (words[1] % 128) as usize + 1;
        let pattern = (words[1] / 256 % 128) as usize + 1;
        let pattern_at: usize = 2 + (signs + 15) / 16;
        let at: usize = pattern_at + (pattern + 15) / 16;
        Some(
            Self {
                signs: read_bits(words, 2, signs),
                pattern: read_bits(words, pattern_at, pattern),
                lengths: eight_values(words, at),
                references: eight_values(words, at + 4),
                training: read_values(words, at + 8, count),
            },
        )
    }
}

proof fn lemma_pattern_reads(words: Seq<u16>, at: int, bits: Seq<bool>)
    requires
        0 <= at,
        at + divided_up(bits.len(), 16) <= words.len(),
        words.subrange(at, at + divided_up(bits.len(), 16)) == pattern_words(bits),
    ensures
        bits_in(words, at, bits.len()) == bits,
{
    let found = bits_in(words, at, bits.len());
    let all = pattern_words(bits);
    lemma2_to64();
    assert forall|n: int| 0 <= n < bits.len() implies found[n] == bits[n] by {
        let i = n / 16;
        let piece = chunk(bits, i);
        assert(0 <= i < divided_up(bits.len(), 16));
        assert(words[at + i] == words.subrange(at, at + divided_up(bits.len(), 16))[i]);
        assert(words[at + i] == all[i]);
        law_writes_back_what_it_reads(piece);
        if piece.len() < 16 {
            vstd::arithmetic::power2::lemma_pow2_strictly_increases(piece.len(), 16);
        }
        lemma_field_bits_prefix(value_of(piece), piece.len(), 16);
        let word = field_bits(value_of(piece), 16);
        assert(value_of(piece) < 0x1_0000);
        assert(words[at + i] as nat == value_of(piece));
        assert(found[n] == word[n % 16]);
        lemma_field_bits_len(value_of(piece), 16);
        assert(n % 16 < piece.len());
        assert(word.take(piece.len() as int)[n % 16] == word[n % 16]);
        assert(word[n % 16] == piece[n % 16]);
        assert(piece[n % 16] == bits[16 * i + n % 16]);
    }
    assert(found =~= bits);
}

proof fn lemma_pairs_read(words: Seq<u16>, at: int, values: Seq<u8>)
    requires
        0 <= at,
        at + divided_up(values.len(), 2) <= words.len(),
        words.subrange(at, at + divided_up(values.len(), 2)) == pairs(values),
        forall|i: int| 0 <= i < values.len() ==> #[trigger] values[i] < 128,
    ensures
        values_in(words, at, values.len()) == values,
{
    let found = values_in(words, at, values.len());
    let all = pairs(values);
    assert forall|n: int| 0 <= n < values.len() implies found[n] == values[n] by {
        let i = n / 2;
        assert(0 <= i < divided_up(values.len(), 2));
        assert(words[at + i] == words.subrange(at, at + divided_up(values.len(), 2))[i]);
        assert(words[at + i] == pair(values, i));
        assert(values[2 * i] < 128);
        if 2 * i + 1 < values.len() {
            assert(values[2 * i + 1] < 128);
        }
    }
    assert(found =~= values);
}

/// The words of a descriptor, part by part.
proof fn lemma_descriptor_words(d: Descriptor)
    requires
        d.valid(),
    ensures
        ({
            let words = descriptor_words(d);
            let s = divided_up(d.signs@.len(), 16) as int;
            let p = divided_up(d.pattern@.len(), 16) as int;
            let t = divided_up(d.training@.len(), 2) as int;
            &&& words.len() == 10 + s + p + t
            &&& words[0] == d.training@.len()
            &&& words[1] == d.signs@.len() - 1 + 256 * (d.pattern@.len() - 1)
            &&& words.subrange(2, 2 + s) == pattern_words(d.signs@)
            &&& words.subrange(2 + s, 2 + s + p) == pattern_words(d.pattern@)
            &&& words.subrange(2 + s + p, 6 + s + p) == pairs(d.lengths@)
            &&& words.subrange(6 + s + p, 10 + s + p) == pairs(d.references@)
            &&& words.subrange(10 + s + p, 10 + s + p + t) == pairs(d.training@)
        }),
{
    reveal(descriptor_words);
    let words = descriptor_words(d);
    let s = divided_up(d.signs@.len(), 16) as int;
    let p = divided_up(d.pattern@.len(), 16) as int;
    let t = divided_up(d.training@.len(), 2) as int;
    assert(words.subrange(2, 2 + s) =~= pattern_words(d.signs@));
    assert(words.subrange(2 + s, 2 + s + p) =~= pattern_words(d.pattern@));
    assert(words.subrange(2 + s + p, 6 + s + p) =~= pairs(d.lengths@));
    assert(words.subrange(6 + s + p, 10 + s + p) =~= pairs(d.references@));
    assert(words.subrange(10 + s + p, 10 + s + p + t) =~= pairs(d.training@));
}

proof fn lemma_descriptor_says(d: Descriptor, other: Descriptor)
    requires
        d.valid(),
        descriptor_says(descriptor_words(d), other),
    ensures
        d.same(other),
{
    reveal(descriptor_says);
    let words = descriptor_words(d);
    let s = divided_up(d.signs@.len(), 16) as int;
    let p = divided_up(d.pattern@.len(), 16) as int;
    lemma_descriptor_words(d);
    assert(signs_in(words[1]) == d.signs@.len());
    assert(pattern_in(words[1]) == d.pattern@.len());
    lemma_pattern_reads(words, 2, d.signs@);
    lemma_pattern_reads(words, 2 + s, d.pattern@);
    lemma_pairs_read(words, 2 + s + p, d.lengths@);
    lemma_pairs_read(words, 6 + s + p, d.references@);
    lemma_pairs_read(words, 10 + s + p, d.training@);
}

/// A descriptor within table 12 reads back as it was, and says how many words
/// it has.
pub proof fn law_reads_back_a_descriptor(d: Descriptor)
    requires
        d.valid(),
    ensures
        forall|found: Option<Descriptor>| #[trigger]
            Descriptor::says(descriptor_words(d), found) ==> found is Some && d.same(found->0),
        counts::<Descriptor>(with_crc(descriptor_words(d))),
{
    assert forall|found: Option<Descriptor>| #[trigger]
        Descriptor::says(descriptor_words(d), found) implies found is Some && d.same(found->0) by {
        lemma_descriptor_says(d, found->0);
    }
    lemma_descriptor_words(d);
    let words = descriptor_words(d);
    let all = with_crc(words);
    assert(signs_in(words[1]) == d.signs@.len());
    assert(pattern_in(words[1]) == d.pattern@.len());
    assert forall|k: int| 0 < k < all.len() implies #[trigger] incomplete::<Descriptor>(
        all.take(k),
    ) by {
        if k >= 2 {
            assert(all.take(k)[0] == words[0] && all.take(k)[1] == words[1]);
        }
    }
}

/// However many ones come first, a descriptor that repeats is read once each
/// time, on the last bit of its CRC, as it was.
pub proof fn law_finds_each_descriptor(
    held: Deframing,
    lead: nat,
    d: Descriptor,
    times: nat,
    at: int,
)
    requires
        resting(held),
        d.valid(),
        0 <= at < lead + repeated(descriptor_frame(d), times).len(),
    ensures
        ({
            let one = descriptor_frame(d);
            let bits = Seq::new(lead, |i: int| true) + repeated(one, times);
            forall|found: Option<Descriptor>| #[trigger]
                gives_at::<Descriptor>(held, bits, at, found) ==> if at >= lead && (at - lead)
                    % one.len() as int == last_of_crc(descriptor_words(d)) {
                    found is Some && d.same(found->0)
                } else {
                    found is None
                }
        }),
{
    law_reads_back_a_descriptor(d);
    let words = descriptor_words(d);
    let fill: nat = if framed(words).len() % 2 == 1 {
        1
    } else {
        2
    };
    assert(descriptor_frame(d) =~= filled(words, fill));
    law_finds_each_of_repeated_frames::<Descriptor>(held, lead, words, fill, times, at);
}

/// The Uchord of a Ucode.
pub open spec fn uchord_of(ucode: u8) -> int {
    if ucode as int / 16 < 7 {
        ucode as int / 16
    } else {
        7
    }
}

impl Descriptor {
    /// How many symbols segment `segment` has.
    pub open spec fn segment_len(self, segment: int) -> int {
        (self.lengths@[uchord_of(self.training@[segment])] + 1) * 6
    }

    /// Symbol `symbol` of segment `segment`: the training Ucode or its
    /// reference, with a sign, by patterns that repeat.
    pub open spec fn symbol(self, segment: int, symbol: int) -> Codeword {
        let training = self.training@[segment];
        Codeword {
            ucode: if self.pattern@[symbol % (self.pattern@.len() as int)] {
                training
            } else {
                self.references@[uchord_of(training)]
            },
            positive: self.signs@[symbol % (self.signs@.len() as int)],
        }
    }

    /// Its patterns have bits to repeat, if there is DIL at all.
    pub open spec fn can_be_sent(self) -> bool {
        self.training@.len() > 0 ==> self.signs@.len() > 0 && self.pattern@.len() > 0
    }

    /// Where DIL goes on after symbol `at.1` of segment `at.0`.
    pub open spec fn following(self, at: (int, int)) -> (int, int) {
        if at.1 + 1 == self.segment_len(at.0) {
            ((at.0 + 1) % (self.training@.len() as int), 0)
        } else {
            (at.0, at.1 + 1)
        }
    }

    /// Where DIL is `count` symbols after `at`.
    pub open spec fn place_after(self, at: (int, int), count: nat) -> (int, int)
        decreases count,
    {
        if count == 0 {
            at
        } else {
            self.following(self.place_after(at, (count - 1) as nat))
        }
    }
}

proof fn lemma_within_a_segment(d: Descriptor, segment: int, count: nat)
    requires
        0 <= segment < d.training@.len(),
        count < d.segment_len(segment),
    ensures
        d.place_after((segment, 0), count) == (segment, count as int),
    decreases count,
{
    if count > 0 {
        lemma_within_a_segment(d, segment, (count - 1) as nat);
    }
}

/// Each segment has its own length, and the next one follows it, the first
/// after the last.
pub proof fn law_sends_each_segment_with_its_length(d: Descriptor, segment: int, symbol: nat)
    requires
        0 <= segment < d.training@.len(),
        symbol < d.segment_len(segment),
    ensures
        d.place_after((segment, 0), symbol) == (segment, symbol as int),
        d.place_after((segment, 0), d.segment_len(segment) as nat) == (
            (segment + 1) % (d.training@.len() as int),
            0int,
        ),
{
    lemma_within_a_segment(d, segment, symbol);
    lemma_within_a_segment(d, segment, (d.segment_len(segment) - 1) as nat);
}

/// Sends the DIL that a descriptor asks for, all its segments over and
/// over.
#[derive(Debug)]
pub struct Dil {
    descriptor: Descriptor,
    segment: usize,
    symbol: usize,
}

impl Dil {
    pub closed spec fn descriptor(self) -> Descriptor {
        self.descriptor
    }

    /// The segment and the symbol to come.
    pub closed spec fn place(self) -> (int, int) {
        (self.segment as int, self.symbol as int)
    }

    pub open spec fn valid(self) -> bool {
        let (segment, symbol) = self.place();
        &&& self.descriptor().can_be_sent()
        &&& self.descriptor().training@.len() > 0 ==> 0 <= segment < self.descriptor().training@.len()
            && 0 <= symbol < self.descriptor().segment_len(segment)
    }

    #[must_use]
    pub fn new(descriptor: Descriptor) -> (dil: Self)
        requires
            descriptor.can_be_sent(),
        ensures
            dil.valid(),
            dil.descriptor() == descriptor,
            dil.place() == (0int, 0int),
    {
        Self { descriptor, segment: 0, symbol: 0 }
    }

    /// Whether the descriptor asks for no DIL.
    #[must_use]
    pub fn is_empty(&self) -> (empty: bool)
        ensures
            empty == (self.descriptor().training@.len() == 0),
    {
        self.descriptor.training.len() == 0
    }

    /// Whether the next symbol starts a segment, where DIL may end.
    #[must_use]
    pub fn at_boundary(&self) -> (boundary: bool)
        ensures
            boundary == (self.place().1 == 0),
    {
        self.symbol == 0
    }

    /// The next symbol, if there is DIL at all.
    pub fn next(&mut self) -> (symbol: Option<Codeword>)
        requires
            old(self).valid(),
        ensures
            final(self).valid(),
            final(self).descriptor() == old(self).descriptor(),
            old(self).descriptor().training@.len() == 0 ==> symbol is None && final(self).place()
                == old(self).place(),
            old(self).descriptor().training@.len() > 0 ==> symbol == Some(
                old(self).descriptor().symbol(old(self).place().0, old(self).place().1),
            ) && final(self).place() == old(self).descriptor().following(old(self).place()),
    {
        if self.descriptor.training.len() == 0 {
            return None;
        }
        let training = self.descriptor.training[self.segment];
        let chord = training / 16;
        let uchord: usize = if chord < 7 {
            chord as usize
        } else {
            7
        };
        let length: usize = (self.descriptor.lengths[uchord] as usize + 1) * 6;
        let k = self.symbol;
        let positive = self.descriptor.signs[k % self.descriptor.signs.len()];
        let ucode = if self.descriptor.pattern[k % self.descriptor.pattern.len()] {
            training
        } else {
            self.descriptor.references[uchord]
        };
        self.symbol = k + 1;
        if self.symbol == length {
            self.symbol = 0;
            self.segment = if self.segment + 1 == self.descriptor.training.len() {
                0
            } else {
                self.segment + 1
            };
        }
        proof {
            let n = self.descriptor.training@.len() as int;
            let s = old(self).segment + 1;
            if s < n {
                vstd::arithmetic::div_mod::lemma_small_mod(s as nat, n as nat);
            } else {
                vstd::arithmetic::div_mod::lemma_mod_self_0(n);
            }
        }
        Some(Codeword { ucode, positive })
    }
}

/// Table 12, part by part: how many segments there are, one less than the
/// lengths of SP and TP, then the two patterns sixteen bits to a word, the
/// eight lengths, the eight references and the training Ucodes, two to a
/// word in its low and high bytes.
pub proof fn law_table_12(d: Descriptor, n: int)
    requires
        d.valid(),
        n >= 0,
    ensures
        ({
            let words = descriptor_words(d);
            let s = (d.signs@.len() + 15) / 16;
            let p = (d.pattern@.len() + 15) / 16;
            let at = 2 + s + p;
            &&& words[0] == d.training@.len()
            &&& words[1] % 256 == d.signs@.len() - 1
            &&& words[1] / 256 == d.pattern@.len() - 1
            &&& n < d.signs@.len() ==> field_bits(words[2 + n / 16] as nat, 16)[n % 16] == d.signs@[n]
            &&& n < d.pattern@.len() ==> field_bits(words[2 + s + n / 16] as nat, 16)[n % 16] == d.pattern@[n]
            &&& n < 4 ==> words[at + n] == d.lengths@[2 * n] + 256 * d.lengths@[2 * n + 1]
            &&& n < 4 ==> words[at + 4 + n] == d.references@[2 * n] + 256 * d.references@[2 * n + 1]
            &&& 2 * n + 1 < d.training@.len() ==> words[at + 8 + n] == d.training@[2 * n] + 256 * d.training@[2 * n + 1]
            &&& 2 * n + 1 == d.training@.len() ==> words[at + 8 + n] == d.training@[2 * n]
            &&& words.len() == at + 8 + (d.training@.len() + 1) / 2
            &&& descriptor_frame(d).len() % 2 == 0
        }),
{
    let words = descriptor_words(d);
    let s = divided_up(d.signs@.len(), 16) as int;
    let p = divided_up(d.pattern@.len(), 16) as int;
    let t = divided_up(d.training@.len(), 2) as int;
    lemma_descriptor_words(d);
    lemma_pattern_reads(words, 2, d.signs@);
    lemma_pattern_reads(words, 2 + s, d.pattern@);
    if n < d.signs@.len() {
        assert(bits_in(words, 2, d.signs@.len())[n] == bit_in(words, 2, n));
    }
    if n < d.pattern@.len() {
        assert(bits_in(words, 2 + s, d.pattern@.len())[n] == bit_in(words, 2 + s, n));
    }
    let lengths = words.subrange(2 + s + p, 6 + s + p);
    let references = words.subrange(6 + s + p, 10 + s + p);
    let training = words.subrange(10 + s + p, 10 + s + p + t);
    if n < 4 {
        assert(words[2 + s + p + n] == lengths[n] && lengths[n] == pair(d.lengths@, n));
        assert(words[6 + s + p + n] == references[n] && references[n] == pair(d.references@, n));
    }
    if 2 * n < d.training@.len() {
        assert(words[10 + s + p + n] == training[n] && training[n] == pair(d.training@, n));
    }
}

/// The symbols of DIL: a segment of Uchord c lasts (Hc + 1) · 6 symbols, on
/// its training Ucode where TP is 1 and the reference of the Uchord where it
/// is 0, with the signs of SP, both patterns starting over at their ends.
pub proof fn law_the_symbols_of_dil(d: Descriptor, segment: int, symbol: int)
    requires
        d.valid(),
        0 <= segment < d.training@.len(),
        0 <= symbol,
    ensures
        ({
            let ucode = d.training@[segment];
            let c = ucode as int / 16;
            let now = d.symbol(segment, symbol);
            &&& d.segment_len(segment) == 6 * (d.lengths@[c] + 1)
            &&& symbol < d.pattern@.len() && d.pattern@[symbol] ==> now.ucode == ucode
            &&& symbol < d.pattern@.len() && !d.pattern@[symbol] ==> now.ucode == d.references@[c]
            &&& symbol < d.signs@.len() ==> now.positive == d.signs@[symbol]
            &&& d.symbol(segment, symbol + d.signs@.len() * d.pattern@.len()) == now
            &&& symbol + 1 < d.segment_len(segment) ==> d.following((segment, symbol)) == (segment, symbol + 1)
            &&& symbol + 1 == d.segment_len(segment) && segment + 1 < d.training@.len() ==> d.following(
                (segment, symbol),
            ) == (segment + 1, 0int)
            &&& symbol + 1 == d.segment_len(segment) && segment + 1 == d.training@.len() ==> d.following(
                (segment, symbol),
            ) == (0int, 0int)
        }),
{
    let s = d.signs@.len() as int;
    let p = d.pattern@.len() as int;
    assert((symbol + s * p) % s == symbol % s) by {
        vstd::arithmetic::div_mod::lemma_mod_multiples_vanish(p, symbol, s);
    }
    assert((symbol + s * p) % p == symbol % p) by {
        vstd::arithmetic::div_mod::lemma_mod_multiples_vanish(s, symbol, p);
        assert(s * p == p * s) by (nonlinear_arith);
    }
    if symbol < s {
        vstd::arithmetic::div_mod::lemma_small_mod(symbol as nat, s as nat);
    }
    if symbol < p {
        vstd::arithmetic::div_mod::lemma_small_mod(symbol as nat, p as nat);
    }
    if segment + 1 < d.training@.len() {
        vstd::arithmetic::div_mod::lemma_small_mod((segment + 1) as nat, d.training@.len());
    } else {
        vstd::arithmetic::div_mod::lemma_mod_self_0(d.training@.len() as int);
    }
}

/// Lengths are carried one less within seven bits, and DIL can be sent where
/// its patterns are not empty, or there is none.
pub proof fn law_lengths_fit_seven_bits(bits: Seq<bool>, d: Descriptor, words: Seq<u16>, at: int, n: int)
    requires
        n >= 0,
    ensures
        1 <= bits.len() <= 128 ==> length_value(bits) == bits.len() - 1,
        bits.len() == 0 ==> length_value(bits) == 0,
        bits.len() > 128 ==> length_value(bits) == 127,
        d.training@.len() == 0 ==> d.can_be_sent(),
        d.training@.len() > 0 ==> (d.can_be_sent() <==> d.signs@.len() > 0 && d.pattern@.len() > 0),
        value_in(words, at, 2 * n) == words[at + n] % 128,
        value_in(words, at, 2 * n + 1) == words[at + n] / 256 % 128,
{
}

} // verus!

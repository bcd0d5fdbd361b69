//! The framing of Ja, Jd and CP: 17 ones, then 16-bit words, each after a
//! 0 start bit, and a CRC word over the words, as MP has in V.34.

use crate::v34::bits::{crc_of, lemma_repeated_len, number_at, repeated};
use crate::v34::words::{
    blocks, crc_of_words, framed, law_a_flipped_bit_breaks_the_crc, law_the_crc_of_words_holds,
    lemma_block, lemma_blocks_len, one_bit_apart, sync, with_crc, word, word_bits, SYNC_ONES,
};
use std::marker::PhantomData;
use vstd::prelude::*;

verus! {

/// Frame sync, the words, and their CRC, with no fill.
#[must_use]
pub fn frame(words: &[u16]) -> (bits: Vec<bool>)
    ensures
        bits@ == framed(words@),
{
    crate::v34::words::frame(words)
}

/// A sequence carried in words, which says from its first words how many
/// it has.
pub trait Words: Sized {
    /// How many words the sequence has, CRC aside, once `words` are enough
    /// to tell.
    spec fn spec_length(words: Seq<u16>) -> Option<nat>;

    /// Whether `found` is what the words say.
    spec fn says(words: Seq<u16>, found: Option<Self>) -> bool;

    /// The words that the length comes from are among those it counts.
    proof fn lemma_length_is_told_early(words: Seq<u16>)
        ensures
            match Self::spec_length(words) {
                Some(length) => length <= words.len() ==> Self::spec_length(
                    words.take(length as int),
                ) == Some(length),
                None => true,
            },
    ;

    fn length(words: &[u16]) -> (length: Option<usize>)
        ensures
            match length {
                Some(length) => Self::spec_length(words@) == Some(length as nat),
                None => Self::spec_length(words@) is None,
            },
    ;

    fn from_words(words: &[u16]) -> (sequence: Option<Self>)
        requires
            Self::spec_length(words@) == Some(words.len() as nat),
        ensures
            Self::says(words@, sequence),
    ;
}

/// What a deframer holds: the ones in a row up to the last bit, the block
/// under way, and the words since the last frame sync.
pub struct Deframing {
    pub ones: int,
    pub block: Seq<bool>,
    pub words: Option<Seq<u16>>,
}

pub open spec fn ones_after(ones: int, bit: bool) -> int {
    if !bit {
        0
    } else if ones < usize::MAX {
        ones + 1
    } else {
        ones
    }
}

/// With frame sync taken into account.
pub open spec fn synced(held: Deframing, bit: bool) -> Deframing {
    if held.ones >= SYNC_ONES && !bit {
        Deframing { ones: ones_after(held.ones, bit), block: seq![], words: Some(seq![]) }
    } else {
        Deframing { ones: ones_after(held.ones, bit), ..held }
    }
}

/// The words once `bit` ends a block, if it does and the block has its start
/// bit.
pub open spec fn words_with(held: Deframing, bit: bool) -> Option<Seq<u16>> {
    let held = synced(held, bit);
    let block = held.block.push(bit);
    match held.words {
        Some(words) if block.len() >= 17 && !block[0] => Some(
            words.push(number_at(block, 1, 16) as u16),
        ),
        _ => None,
    }
}

/// How many words a sequence is to have, and no more than that many are
/// here.
pub open spec fn incomplete<T: Words>(words: Seq<u16>) -> bool {
    match T::spec_length(words) {
        Some(length) => words.len() <= length,
        None => true,
    }
}

pub open spec fn deframing_after<T: Words>(held: Deframing, bit: bool) -> Deframing {
    let next = synced(held, bit);
    let block = next.block.push(bit);
    if next.words is None {
        next
    } else if block.len() < 17 {
        Deframing { block, ..next }
    } else {
        match words_with(held, bit) {
            Some(words) if incomplete::<T>(words) => Deframing {
                block: seq![],
                words: Some(words),
                ..next
            },
            _ => Deframing { block: seq![], words: None, ..next },
        }
    }
}

/// `found` is the sequence that `bit` ends, if its CRC holds.
pub open spec fn gives<T: Words>(held: Deframing, bit: bool, found: Option<T>) -> bool {
    match words_with(held, bit) {
        Some(words) if !incomplete::<T>(words) && crc_of(word_bits(words)) == 0 => T::says(
            words.take(T::spec_length(words)->0 as int),
            found,
        ),
        _ => found is None,
    }
}

/// What a deframer holds after `bits`.
pub open spec fn deframing_run<T: Words>(held: Deframing, bits: Seq<bool>) -> Deframing
    decreases bits.len(),
{
    if bits.len() == 0 {
        held
    } else {
        deframing_after::<T>(deframing_run::<T>(held, bits.drop_last()), bits.last())
    }
}

/// `found` is what bit `at` of `bits` gives.
pub open spec fn gives_at<T: Words>(
    held: Deframing,
    bits: Seq<bool>,
    at: int,
    found: Option<T>,
) -> bool {
    gives::<T>(deframing_run::<T>(held, bits.take(at)), bits[at], found)
}

/// Finds sequences of one kind in received bits, and keeps those whose CRC
/// holds.
#[derive(Debug)]
pub struct Deframer<T> {
    ones: usize,
    block: Vec<bool>,
    words: Option<Vec<u16>>,
    kind: PhantomData<T>,
}

impl<T> Default for Deframer<T> {
    fn default() -> (deframer: Self)
        ensures
            deframer.held() == (Deframing { ones: 0, block: seq![], words: None }),
            deframer.valid(),
    {
        Self { ones: 0, block: Vec::new(), words: None, kind: PhantomData }
    }
}

impl<T> Deframer<T> {
    pub closed spec fn held(self) -> Deframing {
        Deframing {
            ones: self.ones as int,
            block: self.block@,
            words: match self.words {
                Some(words) => Some(words@),
                None => None,
            },
        }
    }

    /// A block that is whole is not held.
    pub closed spec fn valid(self) -> bool {
        self.block.len() < 17
    }
}

impl<T: Words> Deframer<T> {
    pub fn push(&mut self, bit: bool) -> (found: Option<T>)
        requires
            old(self).valid(),
        ensures
            final(self).valid(),
            final(self).held() == deframing_after::<T>(old(self).held(), bit),
            gives::<T>(old(self).held(), bit, found),
    {
        let ghost before = self.held();
        let synced = self.ones >= SYNC_ONES && !bit;
        self.ones = if !bit {
            0
        } else if self.ones < usize::MAX {
            self.ones + 1
        } else {
            self.ones
        };
        if synced {
            self.words = Some(Vec::new());
            self.block = Vec::new();
        }
        assert(self.held().block =~= crate::v90::frames::synced(before, bit).block);
        let mut words = match self.words.take() {
            Some(words) => words,
            None => {
                return None;
            },
        };
        self.block.push(bit);
        if self.block.len() < 17 {
            self.words = Some(words);
            return None;
        }
        let ghost block = self.block@;
        let mut bits: Vec<bool> = Vec::new();
        let mut i: usize = 1;
        while i < 17
            invariant
                1 <= i <= 17,
                self.block@ == block,
                block.len() == 17,
                bits@ == block.subrange(1, i as int),
            decreases 17 - i,
        {
            bits.push(self.block[i]);
            i += 1;
        }
        let start = self.block[0];
        self.block = Vec::new();
        if start {
            return None;
        }
        reveal(number_at);
        words.push(word(bits.as_slice()));
        assert(self.held().block =~= Seq::<bool>::empty());
        match T::length(words.as_slice()) {
            Some(length) if words.len() > length => {
                if crc_of_words(words.as_slice()) != 0 {
                    return None;
                }
                proof {
                    T::lemma_length_is_told_early(words@);
                }
                words.truncate(length);
                T::from_words(words.as_slice())
            },
            _ => {
                self.words = Some(words);
                None
            },
        }
    }
}

/// Words and a CRC that say their own number, and not too soon.
pub open spec fn counts<T: Words>(all: Seq<u16>) -> bool {
    &&& all.len() >= 1
    &&& T::spec_length(all) == Some((all.len() - 1) as nat)
    &&& forall|k: int| 0 < k < all.len() ==> #[trigger] incomplete::<T>(all.take(k))
}

/// `found` is what such words say, if their CRC holds.
pub open spec fn says_checked<T: Words>(all: Seq<u16>, found: Option<T>) -> bool {
    if crc_of(word_bits(all)) == 0 {
        T::says(all.drop_last(), found)
    } else {
        found is None
    }
}

/// After `n` bits of the blocks of `all`, from frame sync on.
spec fn underway(held: Deframing, all: Seq<u16>, n: int) -> bool {
    let k = n / 17;
    let r = n % 17;
    &&& held.words == Some(all.take(k))
    &&& held.block == blocks(all).subrange(17 * k, n)
    &&& 0 <= held.ones <= if r == 0 {
        16
    } else {
        r - 1
    }
}

proof fn lemma_underway<T: Words>(held: Deframing, all: Seq<u16>, n: int)
    requires
        held.ones >= 17,
        counts::<T>(all),
        0 <= n < 17 * all.len(),
    ensures
        n > 0 ==> underway(deframing_run::<T>(held, blocks(all).take(n)), all, n),
        forall|found: Option<T>| #[trigger]
            gives_at::<T>(held, blocks(all), n, found) == if n == 17 * all.len() - 1 {
                says_checked::<T>(all, found)
            } else {
                found is None
            },
    decreases n,
{
    let bits = blocks(all);
    lemma_blocks_len(all);
    let now = deframing_run::<T>(held, bits.take(n));
    if n > 0 {
        lemma_underway::<T>(held, all, n - 1);
        let before = deframing_run::<T>(held, bits.take(n - 1));
        assert(bits.take(n).drop_last() =~= bits.take(n - 1));
        assert(bits.take(n).last() == bits[n - 1]);
        lemma_one_bit::<T>(before, all, n - 1);
        assert(underway(now, all, n));
    } else {
        assert(bits.take(0) =~= Seq::<bool>::empty());
    }
    lemma_one_bit::<T>(now, all, n);
}

/// What bit `n` of the blocks of a sequence does.
proof fn lemma_one_bit<T: Words>(held: Deframing, all: Seq<u16>, n: int)
    requires
        n == 0 ==> held.ones >= 17,
        n > 0 ==> underway(held, all, n),
        counts::<T>(all),
        0 <= n < 17 * all.len(),
    ensures
        ({
            let bit = blocks(all)[n];
            let last = n == 17 * all.len() - 1;
            &&& forall|found: Option<T>| #[trigger]
                gives::<T>(held, bit, found) == if last {
                    says_checked::<T>(all, found)
                } else {
                    found is None
                }
            &&& !last ==> underway(deframing_after::<T>(held, bit), all, n + 1)
        }),
{
    let bits = blocks(all);
    let bit = bits[n];
    let k = n / 17;
    let r = n % 17;
    lemma_blocks_len(all);
    lemma_block(all, k);
    let next = synced(held, bit);
    assert(n == 17 * k + r);
    assert(next.words == Some(all.take(k))) by {
        if n == 0 {
            assert(all.take(0) =~= Seq::<u16>::empty());
        }
    }
    assert(next.block =~= bits.subrange(17 * k, n));
    let block = next.block.push(bit);
    assert(block =~= bits.subrange(17 * k, n + 1));
    if r < 16 {
        assert((n + 1) / 17 == k && (n + 1) % 17 == r + 1);
        assert(words_with(held, bit) is None);
    } else {
        assert((n + 1) / 17 == k + 1 && (n + 1) % 17 == 0);
        assert(!block[0]);
        let field = block.subrange(1, 17);
        assert(field =~= bits.subrange(17 * k + 1, 17 * k + 17));
        vstd::arithmetic::power2::lemma2_to64();
        crate::v34::bits::law_reads_back_a_field(all[k] as nat, 16);
        reveal(number_at);
        assert(number_at(block, 1, 16) == all[k]);
        let longer = all.take(k).push(all[k]);
        assert(longer =~= all.take(k + 1));
        assert(words_with(held, bit) == Some(longer));
        assert(bits.subrange(n + 1, n + 1) =~= Seq::<bool>::empty());
        if k < all.len() - 1 {
            assert(incomplete::<T>(all.take(k + 1)));
        } else {
            assert(all.take(k + 1) =~= all);
            assert(all.take(all.len() - 1) =~= all.drop_last());
        }
    }
}

/// After frame sync, the blocks of a sequence give it at their last bit, and
/// nothing before, whatever the deframer held.
pub proof fn law_finds_a_sequence<T: Words>(held: Deframing, words: Seq<u16>, at: int)
    requires
        held.ones >= 17,
        counts::<T>(with_crc(words)),
        0 <= at < blocks(with_crc(words)).len(),
    ensures
        forall|found: Option<T>| #[trigger]
            gives_at::<T>(held, blocks(with_crc(words)), at, found) == if at == 17 * words.len()
                + 16 {
                T::says(words, found)
            } else {
                found is None
            },
{
    lemma_blocks_len(with_crc(words));
    lemma_underway::<T>(held, with_crc(words), at);
    law_the_crc_of_words_holds(words);
    assert(with_crc(words).drop_last() =~= words);
}

/// A sequence with one bit of a word or of its CRC flipped gives nothing,
/// where it still says as many words as it has.
pub proof fn law_drops_a_sequence_with_a_flipped_bit<T: Words>(
    held: Deframing,
    words: Seq<u16>,
    flipped: Seq<u16>,
    word: int,
    bit: int,
    at: int,
)
    requires
        held.ones >= 17,
        one_bit_apart(with_crc(words), flipped, word, bit),
        counts::<T>(flipped),
        0 <= at < blocks(flipped).len(),
    ensures
        forall|found: Option<T>| #[trigger]
            gives_at::<T>(held, blocks(flipped), at, found) ==> found is None,
{
    lemma_blocks_len(flipped);
    lemma_underway::<T>(held, flipped, at);
    law_a_flipped_bit_breaks_the_crc(words, flipped, word, bit);
}

/// Seventeen ones are frame sync, whatever the deframer held.
pub proof fn law_seventeen_ones_are_frame_sync<T: Words>(held: Deframing, ones: Seq<bool>)
    requires
        held.ones >= 0,
        ones.len() >= 17,
        forall|i: int| 0 <= i < ones.len() ==> ones[i],
    ensures
        deframing_run::<T>(held, ones).ones >= 17,
{
    lemma_ones_add_up::<T>(held, ones, ones.len() as int);
    assert(ones.take(ones.len() as int) =~= ones);
}

proof fn lemma_ones_add_up<T: Words>(held: Deframing, ones: Seq<bool>, n: int)
    requires
        held.ones >= 0,
        0 <= n <= ones.len(),
        forall|i: int| 0 <= i < ones.len() ==> ones[i],
    ensures
        deframing_run::<T>(held, ones.take(n)).ones >= if n < 17 {
            n
        } else {
            17
        },
    decreases n,
{
    if n > 0 {
        lemma_ones_add_up::<T>(held, ones, n - 1);
        assert(ones.take(n).drop_last() =~= ones.take(n - 1));
    }
}

/// No sequence is under way.
pub open spec fn resting(held: Deframing) -> bool {
    held.words is None && held.ones >= 0
}

proof fn lemma_run_on<T: Words>(held: Deframing, first: Seq<bool>, second: Seq<bool>)
    ensures
        deframing_run::<T>(held, first + second) == deframing_run::<T>(
            deframing_run::<T>(held, first),
            second,
        ),
    decreases second.len(),
{
    if second.len() == 0 {
        assert(first + second =~= first);
    } else {
        lemma_run_on::<T>(held, first, second.drop_last());
        assert((first + second).drop_last() =~= first + second.drop_last());
    }
}

proof fn lemma_gives_on<T: Words>(
    held: Deframing,
    first: Seq<bool>,
    second: Seq<bool>,
    at: int,
    found: Option<T>,
)
    requires
        0 <= at < first.len() + second.len(),
    ensures
        gives_at::<T>(held, first + second, at, found) == if at < first.len() {
            gives_at::<T>(held, first, at, found)
        } else {
            gives_at::<T>(
                deframing_run::<T>(held, first),
                second,
                at - first.len(),
                found,
            )
        },
{
    let both = first + second;
    if at < first.len() {
        assert(both.take(at) =~= first.take(at));
    } else {
        let then = at - first.len();
        assert(both.take(at) =~= first + second.take(then));
        lemma_run_on::<T>(held, first, second.take(then));
    }
}

/// Ones, or zeros that end no frame sync, give nothing to a deframer at rest.
proof fn lemma_rests<T: Words>(held: Deframing, bits: Seq<bool>)
    requires
        resting(held),
        (forall|i: int| 0 <= i < bits.len() ==> bits[i]) || (held.ones < 17 && forall|i: int|
            0 <= i < bits.len() ==> !bits[i]),
    ensures
        resting(deframing_run::<T>(held, bits)),
        held.ones < 17 && (forall|i: int| 0 <= i < bits.len() ==> !bits[i]) ==> deframing_run::<T>(
            held,
            bits,
        ).ones < 17,
        forall|at: int, found: Option<T>|
            0 <= at < bits.len() ==> #[trigger] gives_at::<T>(held, bits, at, found) == (
            found is None),
    decreases bits.len(),
{
    if bits.len() > 0 {
        let less = bits.drop_last();
        lemma_rests::<T>(held, less);
        let before = deframing_run::<T>(held, less);
        assert(bits.last() == bits[bits.len() - 1]);
        assert(synced(before, bits.last()).words is None);
        assert forall|at: int, found: Option<T>| 0 <= at < bits.len() implies #[trigger] gives_at::<
            T,
        >(held, bits, at, found) == (found is None) by {
            if at < less.len() {
                assert(less.take(at) =~= bits.take(at));
                assert(gives_at::<T>(held, less, at, found) == (found is None));
            } else {
                assert(bits.take(at) =~= less);
                assert(words_with(before, bits.last()) is None);
            }
        }
    }
}

/// After the last bit of a sequence the deframer rests.
proof fn lemma_ends<T: Words>(held: Deframing, all: Seq<u16>)
    requires
        held.ones >= 17,
        counts::<T>(all),
    ensures
        resting(deframing_run::<T>(held, blocks(all))),
        deframing_run::<T>(held, blocks(all)).ones < 17,
{
    let bits = blocks(all);
    lemma_blocks_len(all);
    let n = 17 * all.len() - 1;
    lemma_underway::<T>(held, all, n);
    let before = deframing_run::<T>(held, bits.take(n));
    assert(bits.drop_last() =~= bits.take(n));
    let bit = bits[n];
    let k = n / 17;
    assert(k == all.len() - 1 && n % 17 == 16);
    lemma_block(all, k);
    let block = synced(before, bit).block.push(bit);
    assert(block =~= bits.subrange(17 * k, n + 1));
    assert(!block[0]);
    assert(block.subrange(1, 17) =~= bits.subrange(17 * k + 1, 17 * k + 17));
    vstd::arithmetic::power2::lemma2_to64();
    crate::v34::bits::law_reads_back_a_field(all[k] as nat, 16);
    reveal(number_at);
    assert(number_at(block, 1, 16) == all[k]);
    assert(all.take(k).push(all[k]) =~= all);
    assert(words_with(before, bit) == Some(all));
}

/// A frame, with its fill.
pub open spec fn filled(words: Seq<u16>, fill: nat) -> Seq<bool> {
    framed(words) + Seq::new(fill, |i: int| false)
}

/// Where in a frame of `words` the CRC ends: after the sync, and a block for
/// each word and for the CRC.
pub open spec fn last_of_crc(words: Seq<u16>) -> int {
    17 * words.len() as int + 33
}

proof fn lemma_one_frame<T: Words>(held: Deframing, words: Seq<u16>, fill: nat)
    requires
        resting(held),
        counts::<T>(with_crc(words)),
    ensures
        filled(words, fill).len() == last_of_crc(words) + 1 + fill,
        resting(deframing_run::<T>(held, filled(words, fill))),
        forall|at: int, found: Option<T>|
            0 <= at < filled(words, fill).len() ==> #[trigger] gives_at::<T>(
                held,
                filled(words, fill),
                at,
                found,
            ) == if at == last_of_crc(words) {
                T::says(words, found)
            } else {
                found is None
            },
{
    let body = blocks(with_crc(words));
    let zeros = Seq::new(fill, |i: int| false);
    let rest = body + zeros;
    let whole = filled(words, fill);
    lemma_blocks_len(with_crc(words));
    assert(whole =~= sync() + rest);
    lemma_rests::<T>(held, sync());
    law_seventeen_ones_are_frame_sync::<T>(held, sync());
    let ready = deframing_run::<T>(held, sync());
    lemma_ends::<T>(ready, with_crc(words));
    let done = deframing_run::<T>(ready, body);
    lemma_rests::<T>(done, zeros);
    lemma_run_on::<T>(held, sync(), rest);
    lemma_run_on::<T>(ready, body, zeros);
    assert forall|at: int, found: Option<T>| 0 <= at < whole.len() implies #[trigger] gives_at::<T>(
        held,
        whole,
        at,
        found,
    ) == if at == last_of_crc(words) {
        T::says(words, found)
    } else {
        found is None
    } by {
        lemma_gives_on::<T>(held, sync(), rest, at, found);
        if at < 17 {
            assert(gives_at::<T>(held, sync(), at, found) == (found is None));
        } else {
            lemma_gives_on::<T>(ready, body, zeros, at - 17, found);
            if at - 17 < body.len() {
                law_finds_a_sequence::<T>(ready, words, at - 17);
                assert(gives_at::<T>(ready, body, at - 17, found) == if at - 17 == 17 * words.len()
                    + 16 {
                    T::says(words, found)
                } else {
                    found is None
                });
            } else {
                assert(gives_at::<T>(done, zeros, at - 17 - body.len(), found) == (found is None));
            }
        }
    }
}

proof fn lemma_frames<T: Words>(held: Deframing, words: Seq<u16>, fill: nat, times: nat)
    requires
        resting(held),
        counts::<T>(with_crc(words)),
    ensures
        ({
            let one = filled(words, fill);
            let bits = repeated(one, times);
            &&& resting(deframing_run::<T>(held, bits))
            &&& forall|at: int, found: Option<T>|
                0 <= at < bits.len() ==> #[trigger] gives_at::<T>(held, bits, at, found) == if at
                    % one.len() as int == last_of_crc(words) {
                    T::says(words, found)
                } else {
                    found is None
                }
        }),
    decreases times,
{
    let one = filled(words, fill);
    let length = one.len() as int;
    if times > 0 {
        let less = (times - 1) as nat;
        let before = repeated(one, less);
        let bits = repeated(one, times);
        lemma_frames::<T>(held, words, fill, less);
        let ready = deframing_run::<T>(held, before);
        lemma_one_frame::<T>(ready, words, fill);
        lemma_run_on::<T>(held, before, one);
        lemma_repeated_len(one, less);
        assert forall|at: int, found: Option<T>| 0 <= at < bits.len() implies #[trigger] gives_at::<
            T,
        >(held, bits, at, found) == if at % length == last_of_crc(words) {
            T::says(words, found)
        } else {
            found is None
        } by {
            lemma_gives_on::<T>(held, before, one, at, found);
            if at < before.len() {
                assert(gives_at::<T>(held, before, at, found) == if at % length == last_of_crc(
                    words,
                ) {
                    T::says(words, found)
                } else {
                    found is None
                });
            } else {
                let then = at - before.len();
                assert(gives_at::<T>(ready, one, then, found) == if then == last_of_crc(words) {
                    T::says(words, found)
                } else {
                    found is None
                });
                assert(at == length * less + then) by (nonlinear_arith)
                    requires
                        before.len() == less * length,
                        then == at - before.len(),
                ;
                vstd::arithmetic::div_mod::lemma_mod_multiples_vanish(less as int, then, length);
                vstd::arithmetic::div_mod::lemma_small_mod(then as nat, length as nat);
            }
        }
    }
}

/// However many ones come first, frames that repeat give their sequence once
/// each, on the last bit of the CRC: their sync and their fill give nothing.
pub proof fn law_finds_each_of_repeated_frames<T: Words>(
    held: Deframing,
    lead: nat,
    words: Seq<u16>,
    fill: nat,
    times: nat,
    at: int,
)
    requires
        resting(held),
        counts::<T>(with_crc(words)),
        0 <= at < lead + repeated(filled(words, fill), times).len(),
    ensures
        ({
            let one = filled(words, fill);
            let bits = Seq::new(lead, |i: int| true) + repeated(one, times);
            &&& resting(deframing_run::<T>(held, bits))
            &&& forall|found: Option<T>| #[trigger]
                gives_at::<T>(held, bits, at, found) == if at >= lead && (at - lead)
                    % one.len() as int == last_of_crc(words) {
                    T::says(words, found)
                } else {
                    found is None
                }
        }),
{
    let one = filled(words, fill);
    let ones = Seq::new(lead, |i: int| true);
    let frames = repeated(one, times);
    let ready = deframing_run::<T>(held, ones);
    lemma_rests::<T>(held, ones);
    lemma_frames::<T>(ready, words, fill, times);
    lemma_run_on::<T>(held, ones, frames);
    assert forall|found: Option<T>| #[trigger]
        gives_at::<T>(held, ones + frames, at, found) == if at >= lead && (at - lead)
            % one.len() as int == last_of_crc(words) {
            T::says(words, found)
        } else {
            found is None
        } by {
        lemma_gives_on::<T>(held, ones, frames, at, found);
        if at < lead {
            assert(gives_at::<T>(held, ones, at, found) == (found is None));
        } else {
            assert(gives_at::<T>(ready, frames, at - lead, found) == if (at - lead)
                % one.len() as int == last_of_crc(words) {
                T::says(words, found)
            } else {
                found is None
            });
        }
    }
}

/// The plainest of sequences: a first word that counts the words after it.
#[derive(Debug, PartialEq, Eq)]
pub struct Counted(pub Vec<u16>);

impl Words for Counted {
    open spec fn spec_length(words: Seq<u16>) -> Option<nat> {
        if words.len() == 0 {
            None
        } else {
            Some(words[0] as nat + 1)
        }
    }

    open spec fn says(words: Seq<u16>, found: Option<Self>) -> bool {
        match found {
            Some(counted) => counted.0@ == words,
            None => false,
        }
    }

    proof fn lemma_length_is_told_early(words: Seq<u16>) {
    }

    fn length(words: &[u16]) -> (length: Option<usize>) {
        if words.len() == 0 {
            None
        } else {
            Some(words[0] as usize + 1)
        }
    }

    fn from_words(words: &[u16]) -> (sequence: Option<Self>) {
        let mut copy: Vec<u16> = Vec::new();
        let mut i: usize = 0;
        while i < words.len()
            invariant
                i <= words.len(),
                copy@ == words@.take(i as int),
            decreases words.len() - i,
        {
            copy.push(words[i]);
            i += 1;
        }
        assert(words@.take(i as int) =~= words@);
        Some(Self(copy))
    }
}

/// How a deframer goes on. Seventeen ones or more and a 0 are frame sync and
/// the first start bit; blocks of 17 bits follow, each with a start bit of 0
/// and a word, and a start bit of 1 ends them.
pub proof fn law_blocks_follow_frame_sync<T: Words>(held: Deframing, bit: bool)
    requires
        0 <= held.ones < usize::MAX,
        held.block.len() < 17,
    ensures
        ({
            let next = deframing_after::<T>(held, bit);
            let sync = held.ones >= 17 && !bit;
            &&& bit ==> next.ones == held.ones + 1
            &&& !bit ==> next.ones == 0
            &&& sync ==> next.words == Some(Seq::<u16>::empty()) && next.block == seq![false]
            &&& !sync && held.words is None ==> next.words is None && words_with(held, bit) is None
            &&& !sync && held.words is Some && held.block.len() < 16 ==> next.words == held.words && next.block
                == held.block.push(bit) && words_with(held, bit) is None
            &&& !sync && held.words is Some && held.block.len() == 16 && held.block[0] ==> next.words is None
                && words_with(held, bit) is None
            &&& !sync && held.words is Some && held.block.len() == 16 && !held.block[0] ==> words_with(held, bit) == Some(
                held.words->0.push(number_at(held.block.push(bit), 1, 16) as u16),
            ) && next.block.len() == 0
        }),
{
    assert(Seq::<bool>::empty().push(false) =~= seq![false]);
}

/// A sequence is given with the word after its last, the CRC, and only where
/// that holds.
pub proof fn law_a_sequence_ends_with_its_crc<T: Words>(held: Deframing, bit: bool, found: Option<T>, words: Seq<u16>)
    requires
        gives::<T>(held, bit, found),
    ensures
        words_with(held, bit) is None ==> found is None,
        words_with(held, bit) == Some(words) && T::spec_length(words) is None ==> found is None,
        words_with(held, bit) == Some(words) && T::spec_length(words) is Some && words.len() <= T::spec_length(words)->0
            ==> found is None,
        words_with(held, bit) == Some(words) && crc_of(word_bits(words)) != 0 ==> found is None,
        words_with(held, bit) == Some(words) && T::spec_length(words) is Some && words.len() > T::spec_length(words)->0
            && crc_of(word_bits(words)) == 0 ==> T::says(words.take(T::spec_length(words)->0 as int), found),
{
}

} // verus!

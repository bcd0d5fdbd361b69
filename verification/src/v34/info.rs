//! The INFO sequences of § 10.1.2.3, which carry capabilities and the
//! results of line probing in phase 2.

use crate::v34::bits::{
    crc, crc_of, field_bits, flag_value, law_a_flipped_bit_changes_the_crc,
    law_crc_of_a_frame_and_its_crc_is_zero, law_fields_stand_at_their_places,
    law_reads_back_a_field, lemma_field_bits_len, lemma_flag, lemma_written_len, number_at,
    pattern_bits, start, written, Reader, Writer,
};
use crate::v34::SymbolRate;
use std::collections::VecDeque;
use std::marker::PhantomData;
use vstd::prelude::*;

verus! {

/// Four ones before and after each sequence.
pub open spec fn fill() -> Seq<bool> {
    seq![true, true, true, true]
}

/// The fill and the frame sync that begin a sequence.
#[verifier::opaque]
pub open spec fn header() -> Seq<bool> {
    seq![true, true, true, true, false, true, true, true, false, false, true, false]
}

/// Fill, frame sync, fields, CRC and fill, bit 0 first.
pub open spec fn frame_of(fields: Seq<bool>) -> Seq<bool> {
    header() + (fields + field_bits(crc_of(fields) as nat, 16)) + fill()
}

/// An INFO sequence, as the fields between its frame sync and its CRC.
pub trait Info: Sized {
    /// How many bits the fields take.
    spec fn width() -> nat;

    /// The fields, bit 12 of the sequence first.
    spec fn spec_fields(self) -> Seq<bool>;

    /// What the fields say, if they are of this kind.
    spec fn read(fields: Seq<bool>) -> Option<Self>;

    fn field_count() -> (count: usize)
        ensures
            count == Self::width(),
            count <= 1000,
    ;

    fn fields(&self) -> (bits: Vec<bool>)
        ensures
            bits@ == self.spec_fields(),
            bits.len() == Self::width(),
    ;

    fn from_fields(fields: &[bool]) -> (info: Option<Self>)
        requires
            fields.len() == Self::width(),
        ensures
            info == Self::read(fields@),
    ;

    /// Fill, frame sync, fields, CRC and fill, bit 0 first.
    fn frame(&self) -> (bits: Vec<bool>)
        ensures
            bits@ == frame_of(self.spec_fields()),
    {
        let fields = self.fields();
        let mut writer = Writer::default();
        writer.pattern("1111");
        writer.pattern("01110010");
        let crc = crc(fields.as_slice());
        let mut i: usize = 0;
        let ghost head = writer.bits@;
        proof {
            reveal_strlit("1111");
            reveal_strlit("01110010");
            reveal(header);
            assert(head =~= header());
        }
        while i < fields.len()
            invariant
                i <= fields.len(),
                writer.bits@ == head + fields@.take(i as int),
            decreases fields.len() - i,
        {
            writer.bits.push(fields[i]);
            i += 1;
            assert(fields@.take(i as int) =~= fields@.take(i - 1).push(fields@[i - 1]));
        }
        writer.field(crc as u32, 16);
        writer.pattern("1111");
        proof {
            assert(fields@.take(i as int) =~= fields@);
            assert(pattern_bits("1111"@) =~= fill());
            assert(writer.bits@ =~= frame_of(fields@));
        }
        writer.bits
    }
}

/// How many bits a deframer looks at: header, fields and CRC.
pub open spec fn sequence_len(width: nat) -> int {
    (12 + width + 16) as int
}

/// The last bits once `bit` has come, as many as a deframer looks at.
pub open spec fn slid(width: nat, window: Seq<bool>, bit: bool) -> Seq<bool> {
    let longer = window.push(bit);
    if longer.len() > sequence_len(width) {
        longer.skip(1)
    } else {
        longer
    }
}

/// `window` is a header, then fields whose CRC holds.
pub open spec fn is_sequence(width: nat, window: Seq<bool>) -> bool {
    &&& window.len() == sequence_len(width)
    &&& window.take(12) == header()
    &&& crc_of(window.skip(12)) == 0
}

/// The window of a deframer after `bits`: it starts anew after a sequence.
pub open spec fn window_after(width: nat, window: Seq<bool>, bits: Seq<bool>) -> Seq<bool>
    decreases bits.len(),
{
    if bits.len() == 0 {
        window
    } else {
        let next = slid(width, window_after(width, window, bits.drop_last()), bits.last());
        if is_sequence(width, next) {
            seq![]
        } else {
            next
        }
    }
}

/// Whether bit `at` of `bits` completes a sequence.
pub open spec fn completes(width: nat, window: Seq<bool>, bits: Seq<bool>, at: int) -> bool {
    is_sequence(width, slid(width, window_after(width, window, bits.take(at)), bits[at]))
}

/// Finds INFO sequences of one kind in received bits, and keeps those whose
/// CRC holds.
#[derive(Debug)]
pub struct Deframer<T> {
    window: VecDeque<bool>,
    kind: PhantomData<T>,
}

impl<T> Default for Deframer<T> {
    fn default() -> (deframer: Self)
        ensures
            deframer.window() == Seq::<bool>::empty(),
    {
        Self { window: VecDeque::new(), kind: PhantomData }
    }
}

impl<T> Deframer<T> {
    /// The last bits received, as many as matter.
    pub closed spec fn window(self) -> Seq<bool> {
        self.window@
    }
}

impl<T: Info> Deframer<T> {
    pub fn push(&mut self, bit: bool) -> (found: Option<T>)
        requires
            old(self).window().len() <= sequence_len(T::width()),
        ensures
            final(self).window().len() <= sequence_len(T::width()),
            final(self).window() == window_after(T::width(), old(self).window(), seq![bit]),
            found == if completes(T::width(), old(self).window(), seq![bit], 0) {
                T::read(slid(T::width(), old(self).window(), bit).subrange(12, 12 + T::width() as int))
            } else {
                None::<T>
            },
    {
        let ghost width = T::width();
        let ghost before = self.window@;
        proof {
            reveal_with_fuel(window_after, 2);
            assert(seq![bit].drop_last() =~= Seq::<bool>::empty());
            assert(seq![bit].take(0) =~= Seq::<bool>::empty());
        }
        let fields = T::field_count();
        let length: usize = 12 + fields + 16;
        self.window.push_back(bit);
        if self.window.len() > length {
            let _oldest = self.window.pop_front();
        }
        assert(self.window@ =~= slid(width, before, bit));
        if self.window.len() < length {
            return None;
        }
        let head: [bool; 12] = [
            true, true, true, true, false, true, true, true, false, false, true, false,
        ];
        assert(head@ =~= header()) by {
            reveal(header);
        }
        let mut i: usize = 0;
        while i < 12
            invariant
                i <= 12,
                self.window@ == slid(width, before, bit),
                self.window@.len() == length,
                length == sequence_len(width),
                head@ == header(),
                self.window@.take(i as int) == header().take(i as int),
                window_after(width, before, seq![bit]) == if is_sequence(
                    width,
                    slid(width, before, bit),
                ) {
                    Seq::<bool>::empty()
                } else {
                    slid(width, before, bit)
                },
                completes(width, before, seq![bit], 0) == is_sequence(
                    width,
                    slid(width, before, bit),
                ),
                width == T::width(),
                before == old(self).window@,
            decreases 12 - i,
        {
            if self.window[i] != head[i] {
                proof {
                    if self.window@.take(12) == header() {
                        assert(self.window@.take(12)[i as int] == header()[i as int]);
                    }
                }
                return None;
            }
            i += 1;
            assert(self.window@.take(i as int) =~= header().take(i as int));
        }
        assert(header().take(12) =~= header());
        let mut tail: Vec<bool> = Vec::new();
        let mut i: usize = 12;
        while i < length
            invariant
                12 <= i <= length,
                self.window@.len() == length,
                tail@ == self.window@.subrange(12, i as int),
            decreases length - i,
        {
            tail.push(self.window[i]);
            i += 1;
        }
        assert(tail@ =~= self.window@.skip(12));
        if crc(tail.as_slice()) != 0 {
            return None;
        }
        self.window.clear();
        tail.truncate(fields);
        assert(tail@ =~= slid(width, before, bit).subrange(12, 12 + width as int));
        T::from_fields(tail.as_slice())
    }
}

/// Four ones, then a zero.
proof fn lemma_header()
    ensures
        header().len() == 12,
        header()[0] && header()[1] && header()[2] && header()[3] && !header()[4],
{
    reveal(header);
}

proof fn lemma_no_header(window: Seq<bool>, at: int)
    requires
        window.len() >= 12,
        0 <= at < 12,
        window[at] != header()[at],
    ensures
        window.take(12) != header(),
{
    assert(window.take(12)[at] == window[at]);
}

/// The last bits of `ones` ones, then `bits`.
spec fn tail_of(width: nat, ones: nat, bits: Seq<bool>) -> Seq<bool> {
    let all = Seq::new(ones, |i: int| true) + bits;
    if all.len() > sequence_len(width) {
        all.skip(all.len() - sequence_len(width))
    } else {
        all
    }
}

/// Until its last bit, a sequence after at most four ones completes nothing.
proof fn lemma_window_fills(width: nat, ones: nat, body: Seq<bool>, count: int)
    requires
        ones <= 4,
        body.len() == width + 16,
        0 <= count < sequence_len(width),
    ensures
        window_after(width, Seq::new(ones, |i: int| true), (header() + body).take(count)) == tail_of(
            width,
            ones,
            (header() + body).take(count),
        ),
        count > 0 ==> !completes(
            width,
            Seq::new(ones, |i: int| true),
            (header() + body).take(count),
            count - 1,
        ),
    decreases count,
{
    let start = Seq::new(ones, |i: int| true);
    let all = header() + body;
    let sent = all.take(count);
    lemma_header();
    if count == 0 {
        assert(sent =~= Seq::<bool>::empty());
        assert(tail_of(width, ones, sent) =~= start);
    } else {
        lemma_window_fills(width, ones, body, count - 1);
        let before = all.take(count - 1);
        assert(sent.drop_last() =~= before);
        assert(sent.take(count - 1) =~= before);
        let window = tail_of(width, ones, before);
        let next = slid(width, window, sent.last());
        assert(next =~= tail_of(width, ones, sent));
        if next.len() == sequence_len(width) {
            // More than four ones begin the window.
            let early = ones + count - sequence_len(width);
            let front = start + sent;
            assert(next =~= front.skip(early));
            assert(next[4] == front[early + 4]);
            assert(front[early + 4] == if early + 4 < ones { true } else { sent[early + 4 - ones] });
            assert(early + 4 - ones < 4);
            assert(sent[0] && sent[1] && sent[2] && sent[3]) by {
                assert(count >= 4 ==> sent[0] == header()[0] && sent[1] == header()[1] && sent[2]
                    == header()[2] && sent[3] == header()[3]);
            }
            lemma_no_header(next, 4);
        }
    }
}

/// The last bit of its CRC completes the sequence of a frame.
proof fn lemma_completed(width: nat, ones: nat, fields: Seq<bool>)
    requires
        ones <= 4,
        fields.len() == width,
    ensures
        ({
            let window = Seq::new(ones, |i: int| true);
            let bits = frame_of(fields);
            let n = sequence_len(width);
            let whole = slid(width, window_after(width, window, bits.take(n - 1)), bits[n - 1]);
            &&& bits.len() == n + 4
            &&& is_sequence(width, whole)
            &&& whole.subrange(12, 12 + width as int) == fields
            &&& window_after(width, window, bits.take(n)) == Seq::<bool>::empty()
            &&& bits.subrange(n, n + 4) == fill()
            &&& forall|i: int|
                0 <= i < n ==> #[trigger] bits.take(i) == (header() + (fields + field_bits(
                    crc_of(fields) as nat,
                    16,
                ))).take(i)
        }),
{
    let window = Seq::new(ones, |i: int| true);
    let body = fields + field_bits(crc_of(fields) as nat, 16);
    let bits = frame_of(fields);
    let n = sequence_len(width);
    lemma_header();
    lemma_field_bits_len(crc_of(fields) as nat, 16);
    let all = header() + body;
    assert(bits =~= all + fill());
    assert forall|i: int| 0 <= i < n implies #[trigger] bits.take(i) == all.take(i) by {
        assert(bits.take(i) =~= all.take(i));
    }
    lemma_window_fills(width, ones, body, n - 1);
    let last = tail_of(width, ones, all.take(n - 1));
    let whole = slid(width, last, bits[n - 1]);
    assert(whole =~= all);
    law_crc_of_a_frame_and_its_crc_is_zero(fields);
    assert(all.take(12) =~= header());
    assert(all.skip(12) =~= body);
    assert(all.subrange(12, 12 + width as int) =~= fields);
    assert(bits.take(n).drop_last() =~= bits.take(n - 1));
    assert(bits.subrange(n, n + 4) =~= fill());
}

/// A frame after at most four ones completes its sequence at the last bit of
/// its CRC, and nothing before or after, and leaves four ones.
pub proof fn law_finds_a_sequence(width: nat, ones: nat, fields: Seq<bool>, at: int)
    requires
        ones <= 4,
        fields.len() == width,
        0 <= at < frame_of(fields).len(),
    ensures
        ({
            let window = Seq::new(ones, |i: int| true);
            let bits = frame_of(fields);
            &&& completes(width, window, bits, at) <==> at == sequence_len(width) - 1
            &&& at == sequence_len(width) - 1 ==> slid(
                width,
                window_after(width, window, bits.take(at)),
                bits[at],
            ).subrange(12, 12 + width as int) == fields
            &&& window_after(width, window, bits) == fill()
        }),
{
    let window = Seq::new(ones, |i: int| true);
    let body = fields + field_bits(crc_of(fields) as nat, 16);
    let bits = frame_of(fields);
    let n = sequence_len(width);
    lemma_field_bits_len(crc_of(fields) as nat, 16);
    lemma_header();
    lemma_completed(width, ones, fields);
    if at < n - 1 {
        let all = header() + body;
        lemma_window_fills(width, ones, body, at + 1);
        assert(bits.take(at) == all.take(at));
        assert(all.take(at + 1).take(at) =~= all.take(at));
        assert(all.take(at + 1)[at] == bits[at]);
    }
    lemma_fill_after(width, window, bits, n, 4);
    if at >= n {
        lemma_fill_after(width, window, bits, n, at - n);
    }
    assert(bits.take(n + 4) =~= bits);
    assert(fill().take(4) =~= fill());
}

/// Up to four bits after the window starts anew complete nothing.
proof fn lemma_fill_after(width: nat, start: Seq<bool>, bits: Seq<bool>, from: int, count: int)
    requires
        window_after(width, start, bits.take(from)) == Seq::<bool>::empty(),
        0 <= from,
        from + 4 <= bits.len(),
        bits.subrange(from, from + 4) == fill(),
        0 <= count <= 4,
    ensures
        window_after(width, start, bits.take(from + count)) == fill().take(count),
        count < 4 ==> !completes(width, start, bits, from + count),
    decreases count,
{
    if count > 0 {
        lemma_fill_after(width, start, bits, from, count - 1);
        let sent = bits.take(from + count);
        assert(sent.drop_last() =~= bits.take(from + count - 1));
        assert(sent.last() == bits.subrange(from, from + 4)[count - 1]);
        assert(slid(width, fill().take(count - 1), sent.last()) =~= fill().take(count));
    } else {
        assert(fill().take(0) =~= Seq::<bool>::empty());
    }
}

/// A frame with one bit of its fields or its CRC flipped completes nothing.
pub proof fn law_drops_a_sequence_with_a_flipped_bit(
    width: nat,
    fields: Seq<bool>,
    flipped: int,
    at: int,
)
    requires
        fields.len() == width,
        12 <= flipped < sequence_len(width),
        0 <= at < frame_of(fields).len(),
    ensures
        !completes(
            width,
            seq![],
            frame_of(fields).update(flipped, !frame_of(fields)[flipped]),
            at,
        ),
{
    let n = sequence_len(width);
    let sent = fields + field_bits(crc_of(fields) as nat, 16);
    lemma_field_bits_len(crc_of(fields) as nat, 16);
    lemma_header();
    let body = sent.update(flipped - 12, !sent[flipped - 12]);
    let all = header() + body;
    let bits = frame_of(fields).update(flipped, !frame_of(fields)[flipped]);
    assert(bits =~= all + fill());
    let start = Seq::<bool>::empty();
    assert(Seq::new(0, |i: int| true) =~= start);
    if at < n - 1 {
        lemma_window_fills(width, 0, body, at + 1);
        assert(all.take(at + 1).take(at) =~= all.take(at));
        assert(bits.take(at) =~= all.take(at));
        assert(all.take(at + 1)[at] == bits[at]);
    } else {
        lemma_dropped_tail(width, fields, body, at);
        lemma_window_fills(width, 0, body, n - 1);
    }
}

/// Where the CRC does not hold, nor does it further on.
proof fn lemma_dropped_tail(width: nat, fields: Seq<bool>, body: Seq<bool>, at: int)
    requires
        fields.len() == width,
        body.len() == width + 16,
        ({
            let sent = fields + field_bits(crc_of(fields) as nat, 16);
            exists|k: int| 0 <= k < width + 16 && body == sent.update(k, !#[trigger] sent[k])
        }),
        sequence_len(width) - 1 <= at < sequence_len(width) + 4,
    ensures
        !completes(width, seq![], header() + body + fill(), at),
        window_after(width, seq![], (header() + body + fill()).take(at)) == (header() + body
            + fill()).subrange(
            if at > sequence_len(width) {
                at - sequence_len(width)
            } else {
                0
            },
            at,
        ),
    decreases at,
{
    let n = sequence_len(width);
    let sent = fields + field_bits(crc_of(fields) as nat, 16);
    lemma_field_bits_len(crc_of(fields) as nat, 16);
    lemma_header();
    let k = choose|k: int| 0 <= k < width + 16 && body == sent.update(k, !#[trigger] sent[k]);
    let all = header() + body;
    let bits = all + fill();
    let start = Seq::<bool>::empty();
    assert(Seq::new(0, |i: int| true) =~= start);
    let from = if at > n {
        at - n
    } else {
        0
    };
    if at == n - 1 {
        lemma_window_fills(width, 0, body, n - 1);
        assert(bits.take(at) =~= all.take(at));
        assert(tail_of(width, 0, all.take(at)) =~= bits.subrange(0, at));
        let whole = slid(width, bits.subrange(0, at), bits[at]);
        assert(whole =~= all);
        assert(all.skip(12) =~= body);
        law_a_flipped_bit_changes_the_crc(sent, k);
        law_crc_of_a_frame_and_its_crc_is_zero(fields);
    } else {
        lemma_dropped_tail(width, fields, body, at - 1);
        assert(bits.take(at).drop_last() =~= bits.take(at - 1));
        assert(bits.take(at).take(at - 1) =~= bits.take(at - 1));
        let window = window_after(width, start, bits.take(at - 1));
        assert(slid(width, window, bits[at - 1]) =~= bits.subrange(from, at));
        let next = slid(width, bits.subrange(from, at), bits[at]);
        let offset = at + 1 - n;
        assert(next =~= bits.subrange(offset, at + 1));
        // The first zero of the sync comes too soon.
        assert(next[4 - offset] == bits[4]);
        assert(bits[4] == header()[4]);
        lemma_no_header(next, 4 - offset);
    }
}

/// Bits 26:27 of INFO0.
#[derive(Debug, Clone, Copy, PartialEq, Eq, Structural)]
pub enum TransmitClock {
    Internal,
    FromReceiver,
    External,
}

impl Default for TransmitClock {
    fn default() -> (clock: Self)
        ensures
            clock == Self::Internal,
    {
        Self::Internal
    }
}

/// Table 14: what a modem supports, sent by each end first.
#[derive(Debug, Clone, Copy, PartialEq, Eq, Structural)]
pub struct Info0 {
    pub supports_2743: bool,
    pub supports_2800: bool,
    pub supports_3429: bool,
    /// The carriers its transmitter may use at 3000 and 3200.
    pub low_carrier_3000: bool,
    pub high_carrier_3000: bool,
    pub low_carrier_3200: bool,
    pub high_carrier_3200: bool,
    /// False where regulations disallow 3429.
    pub allows_3429: bool,
    pub reduces_power: bool,
    /// How many symbol rate steps the two directions may differ by.
    pub rate_difference: u8,
    pub cme: bool,
    pub constellation_1664: bool,
    pub clock: TransmitClock,
    /// Set once the far INFO0 has arrived.
    pub acknowledge: bool,
}

impl Default for Info0 {
    fn default() -> (info: Self)
        ensures
            info == Self::nothing(),
    {
        Self {
            supports_2743: false,
            supports_2800: false,
            supports_3429: false,
            low_carrier_3000: false,
            high_carrier_3000: false,
            low_carrier_3200: false,
            high_carrier_3200: false,
            allows_3429: false,
            reduces_power: false,
            rate_difference: 0,
            cme: false,
            constellation_1664: false,
            clock: TransmitClock::Internal,
            acknowledge: false,
        }
    }
}

/// Bits 12 to 20 of INFO0.
#[verifier::opaque]
pub open spec fn flags_of(info: Info0) -> Seq<bool> {
    seq![
        info.supports_2743,
        info.supports_2800,
        info.supports_3429,
        info.low_carrier_3000,
        info.high_carrier_3000,
        info.low_carrier_3200,
        info.high_carrier_3200,
        info.allows_3429,
        info.reduces_power,
    ]
}

/// Table 14: bits 12 to 28 of INFO0.
#[verifier::opaque]
pub open spec fn table_14(info: Info0) -> Seq<bool> {
    flags_of(info) + field_bits(info.rate_difference as nat, 3) + seq![
        info.cme,
        info.constellation_1664,
    ] + field_bits(clock_value(info.clock), 2) + seq![info.acknowledge]
}

pub open spec fn clock_value(clock: TransmitClock) -> nat {
    match clock {
        TransmitClock::Internal => 0,
        TransmitClock::FromReceiver => 1,
        TransmitClock::External => 2,
    }
}

impl Info0 {
    /// All flags off.
    pub open spec fn nothing() -> Self {
        Self {
            supports_2743: false,
            supports_2800: false,
            supports_3429: false,
            low_carrier_3000: false,
            high_carrier_3000: false,
            low_carrier_3200: false,
            high_carrier_3200: false,
            allows_3429: false,
            reduces_power: false,
            rate_difference: 0,
            cme: false,
            constellation_1664: false,
            clock: TransmitClock::Internal,
            acknowledge: false,
        }
    }

    fn flags(&self) -> (bits: Vec<bool>)
        ensures
            bits@ == flags_of(*self),
            bits.len() == 9,
    {
        let bits = vec![
            self.supports_2743,
            self.supports_2800,
            self.supports_3429,
            self.low_carrier_3000,
            self.high_carrier_3000,
            self.low_carrier_3200,
            self.high_carrier_3200,
            self.allows_3429,
            self.reduces_power,
        ];
        proof {
            reveal(flags_of);
            assert(bits@ =~= flags_of(*self));
        }
        bits
    }

    /// As the fields keep it: three bits of the rate difference.
    pub open spec fn carried(self) -> Self {
        Self { rate_difference: (self.rate_difference % 8) as u8, ..self }
    }
}

/// What bits 12 to 28 say, unless the clock is one that table 14 leaves out.
#[verifier::opaque]
pub open spec fn info0_read(fields: Seq<bool>) -> Option<Info0> {
    let clock = number_at(fields, 14, 2);
    if clock == 3 {
        None
    } else {
        Some(
            Info0 {
                supports_2743: fields[0],
                supports_2800: fields[1],
                supports_3429: fields[2],
                low_carrier_3000: fields[3],
                high_carrier_3000: fields[4],
                low_carrier_3200: fields[5],
                high_carrier_3200: fields[6],
                allows_3429: fields[7],
                reduces_power: fields[8],
                rate_difference: number_at(fields, 9, 3) as u8,
                cme: fields[12],
                constellation_1664: fields[13],
                clock: if clock == 0 {
                    TransmitClock::Internal
                } else if clock == 1 {
                    TransmitClock::FromReceiver
                } else {
                    TransmitClock::External
                },
                acknowledge: fields[16],
            },
        )
    }
}

impl Info for Info0 {
    open spec fn width() -> nat {
        17
    }

    open spec fn spec_fields(self) -> Seq<bool> {
        table_14(self)
    }

    open spec fn read(fields: Seq<bool>) -> Option<Self> {
        info0_read(fields)
    }

    fn field_count() -> (count: usize) {
        17
    }

    fn fields(&self) -> (bits: Vec<bool>) {
        let mut writer = Writer { bits: self.flags() };
        writer.field(self.rate_difference as u32, 3);
        writer.flag(self.cme);
        writer.flag(self.constellation_1664);
        writer.field(
            match self.clock {
                TransmitClock::Internal => 0,
                TransmitClock::FromReceiver => 1,
                TransmitClock::External => 2,
            },
            2,
        );
        writer.flag(self.acknowledge);
        proof {
            lemma_field_bits_len(self.rate_difference as nat, 3);
            lemma_field_bits_len(clock_value(self.clock), 2);
            reveal(table_14);
            assert(writer.bits@ =~= table_14(*self));
            assert(Self::width() == 17);
        }
        writer.bits
    }

    fn from_fields(fields: &[bool]) -> (info: Option<Self>) {
        proof {
            reveal(info0_read);
        }
        let mut reader = Reader::new(fields);
        let supports_2743 = reader.flag();
        let supports_2800 = reader.flag();
        let supports_3429 = reader.flag();
        let low_carrier_3000 = reader.flag();
        let high_carrier_3000 = reader.flag();
        let low_carrier_3200 = reader.flag();
        let high_carrier_3200 = reader.flag();
        let allows_3429 = reader.flag();
        let reduces_power = reader.flag();
        proof {
            vstd::arithmetic::power2::lemma2_to64();
        }
        let rate_difference = reader.field(3) as u8;
        let cme = reader.flag();
        let constellation_1664 = reader.flag();
        let clock = match reader.field(2) {
            0 => TransmitClock::Internal,
            1 => TransmitClock::FromReceiver,
            2 => TransmitClock::External,
            _ => return None,
        };
        Some(
            Self {
                supports_2743,
                supports_2800,
                supports_3429,
                low_carrier_3000,
                high_carrier_3000,
                low_carrier_3200,
                high_carrier_3200,
                allows_3429,
                reduces_power,
                rate_difference,
                cme,
                constellation_1664,
                clock,
                acknowledge: reader.flag(),
            },
        )
    }
}

/// A flag stands as one bit at its place.
pub(crate) proof fn lemma_flag_at(table: Seq<(nat, nat)>, count: nat, field: nat, flag: bool)
    requires
        field < count,
        table[field as int] == (flag_value(flag), 1nat),
    ensures
        written(table, count)[start(table, field) as int] == flag,
{
    law_fields_stand_at_their_places(table, count, field);
    lemma_flag(flag);
    let at = start(table, field) as int;
    assert(written(table, count).subrange(at, at + 1)[0] == flag);
}

/// INFO0 reads back as it was, less what its fields do not hold.
pub proof fn law_reads_back_info0(info: Info0)
    ensures
        Info0::read(info.spec_fields()) == Some(info.carried()),
        info.rate_difference < 8 ==> info.carried() == info,
{
    reveal(table_14);
    reveal(info0_read);
    reveal(number_at);
    let fields = table_14(info);
    vstd::arithmetic::power2::lemma2_to64();
    law_reads_back_a_field(info.rate_difference as nat, 3);
    law_reads_back_a_field(clock_value(info.clock), 2);
    assert(flags_of(info).len() == 9) by {
        reveal(flags_of);
    }
    assert(fields.subrange(9, 12) =~= field_bits(info.rate_difference as nat, 3));
    assert(fields.subrange(14, 16) =~= field_bits(clock_value(info.clock), 2));
    assert(fields.take(9) =~= flags_of(info));
    assert(fields[12] == info.cme && fields[13] == info.constellation_1664 && fields[16]
        == info.acknowledge);
    lemma_info0_flags(info, fields);
}

proof fn lemma_info0_flags(info: Info0, fields: Seq<bool>)
    requires
        fields.len() >= 9,
        fields.take(9) == flags_of(info),
    ensures
        fields[0] == info.supports_2743,
        fields[1] == info.supports_2800,
        fields[2] == info.supports_3429,
        fields[3] == info.low_carrier_3000,
        fields[4] == info.high_carrier_3000,
        fields[5] == info.low_carrier_3200,
        fields[6] == info.high_carrier_3200,
        fields[7] == info.allows_3429,
        fields[8] == info.reduces_power,
{
    reveal(flags_of);
    let head = fields.take(9);
    assert(head[0] == fields[0]);
    assert(head[1] == fields[1]);
    assert(head[2] == fields[2]);
    assert(head[3] == fields[3]);
    assert(head[4] == fields[4]);
    assert(head[5] == fields[5]);
    assert(head[6] == fields[6]);
    assert(head[7] == fields[7]);
    assert(head[8] == fields[8]);
}

pub(crate) proof fn lemma_table_14_len(info: Info0)
    ensures
        table_14(info).len() == 17,
{
    reveal(table_14);
    reveal(flags_of);
    lemma_field_bits_len(info.rate_difference as nat, 3);
    lemma_field_bits_len(clock_value(info.clock), 2);
}

/// What line probing found for one symbol rate, for the transmitter at the
/// far end.
#[derive(Debug, Clone, Copy, PartialEq, Eq, Structural)]
pub struct Probe {
    pub high_carrier: bool,
    /// The index of tables 3 and 4, 0 to 10.
    pub pre_emphasis: u8,
    /// In multiples of 2400 bit/s, 0 if the symbol rate cannot be used.
    pub max_rate: u8,
}

impl Default for Probe {
    fn default() -> (probe: Self)
        ensures
            probe == (Self { high_carrier: false, pre_emphasis: 0, max_rate: 0 }),
    {
        Self { high_carrier: false, pre_emphasis: 0, max_rate: 0 }
    }
}

impl Probe {
    /// As the fields keep it: four bits each.
    pub open spec fn carried(self) -> Self {
        Self {
            pre_emphasis: (self.pre_emphasis % 16) as u8,
            max_rate: (self.max_rate % 16) as u8,
            ..self
        }
    }

    pub open spec fn read(fields: Seq<bool>, at: int) -> Self {
        Self {
            high_carrier: fields[at],
            pre_emphasis: number_at(fields, at + 1, 4) as u8,
            max_rate: number_at(fields, at + 5, 4) as u8,
        }
    }

    fn write(self, writer: &mut Writer)
        ensures
            final(writer).bits@ == old(writer).bits@ + field_bits(flag_value(self.high_carrier), 1)
                + field_bits(self.pre_emphasis as nat, 4) + field_bits(self.max_rate as nat, 4),
    {
        writer.flag(self.high_carrier);
        writer.field(self.pre_emphasis as u32, 4);
        writer.field(self.max_rate as u32, 4);
    }

    fn from_reader(reader: &mut Reader) -> (probe: Self)
        requires
            old(reader).valid(),
            old(reader).at() + 9 <= old(reader).source().len(),
        ensures
            final(reader).valid(),
            final(reader).source() == old(reader).source(),
            final(reader).at() == old(reader).at() + 9,
            probe == Self::read(old(reader).source(), old(reader).at()),
    {
        proof {
            vstd::arithmetic::power2::lemma2_to64();
        }
        let high_carrier = reader.flag();
        let pre_emphasis = reader.field(4) as u8;
        let max_rate = reader.field(4) as u8;
        Self { high_carrier, pre_emphasis, max_rate }
    }
}

/// The ten bits of a frequency offset: −512 means "ignore".
pub open spec fn offset_value(offset: Option<i16>) -> nat {
    match offset_carried(offset) {
        None => 512,
        Some(offset) => (offset as int % 1024) as nat,
    }
}

/// An offset as its ten bits keep it.
pub open spec fn offset_carried(offset: Option<i16>) -> Option<i16> {
    match offset {
        None => None,
        Some(offset) => Some(
            if offset < -511 {
                (-511) as i16
            } else if offset > 511 {
                511
            } else {
                offset
            },
        ),
    }
}

pub open spec fn offset_read(value: nat) -> Option<i16> {
    if value == 512 {
        None
    } else if value < 512 {
        Some(value as i16)
    } else {
        Some((value - 1024) as i16)
    }
}

/// An offset reads back as it was, within ±511, and one that could not be
/// measured as none.
pub proof fn law_reads_back_an_offset(offset: Option<i16>)
    ensures
        offset_value(offset) < 1024,
        offset_read(offset_value(offset)) == offset_carried(offset),
{
}

pub(crate) fn write_offset(writer: &mut Writer, offset: Option<i16>)
    ensures
        final(writer).bits@ == old(writer).bits@ + field_bits(offset_value(offset), 10),
{
    let value: u32 = match offset {
        None => 512,
        Some(offset) => {
            let kept: i16 = if offset < -511 {
                -511
            } else if offset > 511 {
                511
            } else {
                offset
            };
            if kept < 0 {
                (kept + 1024) as u32
            } else {
                kept as u32
            }
        },
    };
    writer.field(value, 10);
}

pub(crate) fn read_offset(reader: &mut Reader) -> (offset: Option<i16>)
    requires
        old(reader).valid(),
        old(reader).at() + 10 <= old(reader).source().len(),
    ensures
        final(reader).valid(),
        final(reader).source() == old(reader).source(),
        final(reader).at() == old(reader).at() + 10,
        offset == offset_read(number_at(old(reader).source(), old(reader).at(), 10)),
{
    proof {
        vstd::arithmetic::power2::lemma2_to64();
    }
    let value = reader.field(10);
    if value == 512 {
        None
    } else if value < 512 {
        Some(value as i16)
    } else {
        Some(value as i16 - 1024)
    }
}

/// Table 15: the call modem's probing results, sent after L1 and L2.
#[derive(Debug, Clone, Copy, PartialEq, Eq)]
pub struct Info1c {
    /// In dB, for the answer modem's transmitter.
    pub min_power_reduction: u8,
    pub extra_power_reduction: u8,
    /// In 35 ms steps.
    pub md_length: u8,
    /// For each symbol rate, in the order of `SymbolRate::ALL`.
    pub probes: [Probe; 6],
    /// Of the 1050 Hz probing tone, in 0.02 Hz, if it was measured.
    pub frequency_offset: Option<i16>,
}

/// The values and widths of table 15.
pub open spec fn table_15(info: Info1c) -> Seq<(nat, nat)> {
    let p = info.probes@;
    seq![
        (info.min_power_reduction as nat, 3),
        (info.extra_power_reduction as nat, 3),
        (info.md_length as nat, 7),
        (flag_value(p[0].high_carrier), 1),
        (p[0].pre_emphasis as nat, 4),
        (p[0].max_rate as nat, 4),
        (flag_value(p[1].high_carrier), 1),
        (p[1].pre_emphasis as nat, 4),
        (p[1].max_rate as nat, 4),
        (flag_value(p[2].high_carrier), 1),
        (p[2].pre_emphasis as nat, 4),
        (p[2].max_rate as nat, 4),
        (flag_value(p[3].high_carrier), 1),
        (p[3].pre_emphasis as nat, 4),
        (p[3].max_rate as nat, 4),
        (flag_value(p[4].high_carrier), 1),
        (p[4].pre_emphasis as nat, 4),
        (p[4].max_rate as nat, 4),
        (flag_value(p[5].high_carrier), 1),
        (p[5].pre_emphasis as nat, 4),
        (p[5].max_rate as nat, 4),
        (offset_value(info.frequency_offset), 10),
    ]
}

impl Info1c {
    /// As the fields keep it.
    pub open spec fn is_carried_as(self, other: Self) -> bool {
        &&& other.min_power_reduction == self.min_power_reduction % 8
        &&& other.extra_power_reduction == self.extra_power_reduction % 8
        &&& other.md_length == self.md_length % 128
        &&& forall|i: int| 0 <= i < 6 ==> #[trigger] other.probes@[i] == self.probes@[i].carried()
        &&& other.frequency_offset == offset_carried(self.frequency_offset)
    }

    /// What fields say, of which `info` is made.
    pub open spec fn is_read_as(fields: Seq<bool>, info: Self) -> bool {
        &&& info.min_power_reduction == number_at(fields, 0, 3)
        &&& info.extra_power_reduction == number_at(fields, 3, 3)
        &&& info.md_length == number_at(fields, 6, 7)
        &&& forall|i: int| 0 <= i < 6 ==> #[trigger] info.probes@[i] == Probe::read(fields, 13 + 9 * i)
        &&& info.frequency_offset == offset_read(number_at(fields, 67, 10))
    }
}

impl Default for Info1c {
    fn default() -> (info: Self)
        ensures
            info.min_power_reduction == 0,
            info.extra_power_reduction == 0,
            info.md_length == 0,
            forall|i: int|
                0 <= i < 6 ==> #[trigger] info.probes@[i] == (Probe {
                    high_carrier: false,
                    pre_emphasis: 0,
                    max_rate: 0,
                }),
            info.frequency_offset is None,
    {
        let none = Probe { high_carrier: false, pre_emphasis: 0, max_rate: 0 };
        Self {
            min_power_reduction: 0,
            extra_power_reduction: 0,
            md_length: 0,
            probes: [none, none, none, none, none, none],
            frequency_offset: None,
        }
    }
}

impl Info for Info1c {
    open spec fn width() -> nat {
        77
    }

    open spec fn spec_fields(self) -> Seq<bool> {
        written(table_15(self), 22)
    }

    open spec fn read(fields: Seq<bool>) -> Option<Self> {
        Some(choose|info: Self| Self::is_read_as(fields, info))
    }

    fn field_count() -> (count: usize) {
        77
    }

    fn fields(&self) -> (bits: Vec<bool>) {
        let ghost table = table_15(*self);
        let mut writer = Writer::default();
        assert(writer.bits@ == written(table, 0));
        writer.field(self.min_power_reduction as u32, 3);
        assert(writer.bits@ == written(table, 1));
        writer.field(self.extra_power_reduction as u32, 3);
        assert(writer.bits@ == written(table, 2));
        writer.field(self.md_length as u32, 7);
        assert(writer.bits@ == written(table, 3));
        self.probes[0].write(&mut writer);
        proof {
            lemma_probe_written(table, 3, self.probes@[0]);
        }
        assert(writer.bits@ == written(table, 6));
        self.probes[1].write(&mut writer);
        proof {
            lemma_probe_written(table, 6, self.probes@[1]);
        }
        assert(writer.bits@ == written(table, 9));
        self.probes[2].write(&mut writer);
        proof {
            lemma_probe_written(table, 9, self.probes@[2]);
        }
        assert(writer.bits@ == written(table, 12));
        self.probes[3].write(&mut writer);
        proof {
            lemma_probe_written(table, 12, self.probes@[3]);
        }
        assert(writer.bits@ == written(table, 15));
        self.probes[4].write(&mut writer);
        proof {
            lemma_probe_written(table, 15, self.probes@[4]);
        }
        assert(writer.bits@ == written(table, 18));
        self.probes[5].write(&mut writer);
        proof {
            lemma_probe_written(table, 18, self.probes@[5]);
        }
        assert(writer.bits@ == written(table, 21));
        write_offset(&mut writer, self.frequency_offset);
        assert(writer.bits@ == written(table, 22));
        proof {
            lemma_starts_15(*self);
            lemma_written_len(table, 22);
            assert(Self::width() == 77);
        }
        writer.bits
    }

    fn from_fields(fields: &[bool]) -> (info: Option<Self>) {
        let mut reader = Reader::new(fields);
        proof {
            vstd::arithmetic::power2::lemma2_to64();
        }
        let min_power_reduction = reader.field(3) as u8;
        let extra_power_reduction = reader.field(3) as u8;
        let md_length = reader.field(7) as u8;
        let p0 = Probe::from_reader(&mut reader);
        let p1 = Probe::from_reader(&mut reader);
        let p2 = Probe::from_reader(&mut reader);
        let p3 = Probe::from_reader(&mut reader);
        let p4 = Probe::from_reader(&mut reader);
        let p5 = Probe::from_reader(&mut reader);
        let frequency_offset = read_offset(&mut reader);
        let info = Self {
            min_power_reduction,
            extra_power_reduction,
            md_length,
            probes: [p0, p1, p2, p3, p4, p5],
            frequency_offset,
        };
        proof {
            assert(Self::is_read_as(fields@, info));
            lemma_one_info1c(info, choose|info: Self| Self::is_read_as(fields@, info), fields@);
        }
        Some(info)
    }
}

proof fn lemma_probe_written(table: Seq<(nat, nat)>, at: nat, probe: Probe)
    requires
        table[at as int] == (flag_value(probe.high_carrier), 1nat),
        table[at as int + 1] == (probe.pre_emphasis as nat, 4nat),
        table[at as int + 2] == (probe.max_rate as nat, 4nat),
    ensures
        written(table, at + 3) == written(table, at) + field_bits(flag_value(probe.high_carrier), 1)
            + field_bits(probe.pre_emphasis as nat, 4) + field_bits(probe.max_rate as nat, 4),
{
    reveal_with_fuel(written, 4);
}

proof fn lemma_starts_15(info: Info1c)
    ensures
        start(table_15(info), 0) == 0,
        start(table_15(info), 1) == 3,
        start(table_15(info), 2) == 6,
        start(table_15(info), 3) == 13,
        start(table_15(info), 4) == 14,
        start(table_15(info), 5) == 18,
        start(table_15(info), 6) == 22,
        start(table_15(info), 7) == 23,
        start(table_15(info), 8) == 27,
        start(table_15(info), 9) == 31,
        start(table_15(info), 10) == 32,
        start(table_15(info), 11) == 36,
        start(table_15(info), 12) == 40,
        start(table_15(info), 13) == 41,
        start(table_15(info), 14) == 45,
        start(table_15(info), 15) == 49,
        start(table_15(info), 16) == 50,
        start(table_15(info), 17) == 54,
        start(table_15(info), 18) == 58,
        start(table_15(info), 19) == 59,
        start(table_15(info), 20) == 63,
        start(table_15(info), 21) == 67,
        start(table_15(info), 22) == 77,
{
    let table = table_15(info);
    assert(start(table, 0) == 0);
    assert(start(table, 1) == 3);
    assert(start(table, 2) == 6);
    assert(start(table, 3) == 13);
    assert(start(table, 4) == 14);
    assert(start(table, 5) == 18);
    assert(start(table, 6) == 22);
    assert(start(table, 7) == 23);
    assert(start(table, 8) == 27);
    assert(start(table, 9) == 31);
    assert(start(table, 10) == 32);
    assert(start(table, 11) == 36);
    assert(start(table, 12) == 40);
    assert(start(table, 13) == 41);
    assert(start(table, 14) == 45);
    assert(start(table, 15) == 49);
    assert(start(table, 16) == 50);
    assert(start(table, 17) == 54);
    assert(start(table, 18) == 58);
    assert(start(table, 19) == 59);
    assert(start(table, 20) == 63);
    assert(start(table, 21) == 67);
    assert(start(table, 22) == 77);
}

proof fn lemma_probe_reads(table: Seq<(nat, nat)>, count: nat, at: nat, probe: Probe)
    requires
        at + 2 < count,
        table[at as int] == (flag_value(probe.high_carrier), 1nat),
        table[at as int + 1] == (probe.pre_emphasis as nat, 4nat),
        table[at as int + 2] == (probe.max_rate as nat, 4nat),
    ensures
        Probe::read(written(table, count), start(table, at) as int) == probe.carried(),
{
    vstd::arithmetic::power2::lemma2_to64();
    lemma_flag_at(table, count, at, probe.high_carrier);
    law_fields_stand_at_their_places(table, count, at + 1);
    law_fields_stand_at_their_places(table, count, at + 2);
    reveal_with_fuel(start, 3);
}

/// INFO1c reads back as it was, less what its fields do not hold.
pub proof fn law_reads_back_info1c(info: Info1c, found: Info1c)
    requires
        Info1c::read(info.spec_fields()) == Some(found),
    ensures
        info.is_carried_as(found),
{
    let table = table_15(info);
    let fields = info.spec_fields();
    vstd::arithmetic::power2::lemma2_to64();
    lemma_starts_15(info);
    law_fields_stand_at_their_places(table, 22, 0);
    law_fields_stand_at_their_places(table, 22, 1);
    law_fields_stand_at_their_places(table, 22, 2);
    law_fields_stand_at_their_places(table, 22, 21);
    law_reads_back_an_offset(info.frequency_offset);
    let p = info.probes@;
    lemma_probe_reads(table, 22, 3, p[0]);
    lemma_probe_reads(table, 22, 6, p[1]);
    lemma_probe_reads(table, 22, 9, p[2]);
    lemma_probe_reads(table, 22, 12, p[3]);
    lemma_probe_reads(table, 22, 15, p[4]);
    lemma_probe_reads(table, 22, 18, p[5]);
    let q0 = p[0].carried();
    let probes: [Probe; 6] = [q0, p[1].carried(), p[2].carried(), p[3].carried(), p[4].carried(), p[5].carried()];
    let kept = Info1c {
        min_power_reduction: (info.min_power_reduction % 8) as u8,
        extra_power_reduction: (info.extra_power_reduction % 8) as u8,
        md_length: (info.md_length % 128) as u8,
        probes,
        frequency_offset: offset_carried(info.frequency_offset),
    };
    assert(Info1c::is_read_as(fields, kept));
    lemma_one_info1c(kept, found, fields);
}

proof fn lemma_one_info1c(info: Info1c, other: Info1c, fields: Seq<bool>)
    requires
        Info1c::is_read_as(fields, info),
        Info1c::is_read_as(fields, other),
    ensures
        info == other,
{
    assert(info.probes@ =~= other.probes@);
    assert(info.probes == other.probes);
}

/// Table 16: the answer modem's probing results, and the symbol rate of
/// each direction.
#[derive(Debug, Clone, Copy, PartialEq, Eq)]
pub struct Info1a {
    /// In dB, for the call modem's transmitter.
    pub min_power_reduction: u8,
    pub extra_power_reduction: u8,
    /// In 35 ms steps.
    pub md_length: u8,
    /// For the call modem's transmitter.
    pub probe: Probe,
    pub answer_to_call: SymbolRate,
    pub call_to_answer: SymbolRate,
    /// Of the 1050 Hz probing tone, in 0.02 Hz, if it was measured.
    pub frequency_offset: Option<i16>,
}

/// The values and widths of table 16.
pub open spec fn table_16(info: Info1a) -> Seq<(nat, nat)> {
    seq![
        (info.min_power_reduction as nat, 3),
        (info.extra_power_reduction as nat, 3),
        (info.md_length as nat, 7),
        (flag_value(info.probe.high_carrier), 1),
        (info.probe.pre_emphasis as nat, 4),
        (info.probe.max_rate as nat, 4),
        (info.answer_to_call.spec_index() as nat, 3),
        (info.call_to_answer.spec_index() as nat, 3),
        (offset_value(info.frequency_offset), 10),
    ]
}

/// The symbol rate of an index.
pub open spec fn rate_of(index: nat) -> Option<SymbolRate> {
    if index == 0 {
        Some(SymbolRate::S2400)
    } else if index == 1 {
        Some(SymbolRate::S2743)
    } else if index == 2 {
        Some(SymbolRate::S2800)
    } else if index == 3 {
        Some(SymbolRate::S3000)
    } else if index == 4 {
        Some(SymbolRate::S3200)
    } else if index == 5 {
        Some(SymbolRate::S3429)
    } else {
        None
    }
}

impl Info1a {
    /// As the fields keep it.
    pub open spec fn carried(self) -> Self {
        Self {
            min_power_reduction: (self.min_power_reduction % 8) as u8,
            extra_power_reduction: (self.extra_power_reduction % 8) as u8,
            md_length: (self.md_length % 128) as u8,
            probe: self.probe.carried(),
            frequency_offset: offset_carried(self.frequency_offset),
            ..self
        }
    }
}

impl Info for Info1a {
    open spec fn width() -> nat {
        38
    }

    open spec fn spec_fields(self) -> Seq<bool> {
        written(table_16(self), 9)
    }

    open spec fn read(fields: Seq<bool>) -> Option<Self> {
        match (rate_of(number_at(fields, 22, 3)), rate_of(number_at(fields, 25, 3))) {
            (Some(answer_to_call), Some(call_to_answer)) => Some(
                Self {
                    min_power_reduction: number_at(fields, 0, 3) as u8,
                    extra_power_reduction: number_at(fields, 3, 3) as u8,
                    md_length: number_at(fields, 6, 7) as u8,
                    probe: Probe::read(fields, 13),
                    answer_to_call,
                    call_to_answer,
                    frequency_offset: offset_read(number_at(fields, 28, 10)),
                },
            ),
            _ => None,
        }
    }

    fn field_count() -> (count: usize) {
        38
    }

    fn fields(&self) -> (bits: Vec<bool>) {
        let ghost table = table_16(*self);
        let mut writer = Writer::default();
        assert(writer.bits@ == written(table, 0));
        writer.field(self.min_power_reduction as u32, 3);
        assert(writer.bits@ == written(table, 1));
        writer.field(self.extra_power_reduction as u32, 3);
        assert(writer.bits@ == written(table, 2));
        writer.field(self.md_length as u32, 7);
        assert(writer.bits@ == written(table, 3));
        self.probe.write(&mut writer);
        proof {
            lemma_probe_written(table, 3, self.probe);
        }
        assert(writer.bits@ == written(table, 6));
        writer.field(self.answer_to_call.index() as u32, 3);
        assert(writer.bits@ == written(table, 7));
        writer.field(self.call_to_answer.index() as u32, 3);
        assert(writer.bits@ == written(table, 8));
        write_offset(&mut writer, self.frequency_offset);
        assert(writer.bits@ == written(table, 9));
        proof {
            lemma_starts_16(*self);
            lemma_written_len(table, 9);
            assert(Self::width() == 38);
        }
        writer.bits
    }

    fn from_fields(fields: &[bool]) -> (info: Option<Self>) {
        let mut reader = Reader::new(fields);
        proof {
            vstd::arithmetic::power2::lemma2_to64();
        }
        let min_power_reduction = reader.field(3) as u8;
        let extra_power_reduction = reader.field(3) as u8;
        let md_length = reader.field(7) as u8;
        let probe = Probe::from_reader(&mut reader);
        let answer_to_call = SymbolRate::from_index(reader.field(3));
        let call_to_answer = SymbolRate::from_index(reader.field(3));
        let frequency_offset = read_offset(&mut reader);
        match (answer_to_call, call_to_answer) {
            (Some(answer_to_call), Some(call_to_answer)) => Some(
                Self {
                    min_power_reduction,
                    extra_power_reduction,
                    md_length,
                    probe,
                    answer_to_call,
                    call_to_answer,
                    frequency_offset,
                },
            ),
            _ => None,
        }
    }
}

proof fn lemma_starts_16(info: Info1a)
    ensures
        start(table_16(info), 0) == 0,
        start(table_16(info), 1) == 3,
        start(table_16(info), 2) == 6,
        start(table_16(info), 3) == 13,
        start(table_16(info), 4) == 14,
        start(table_16(info), 5) == 18,
        start(table_16(info), 6) == 22,
        start(table_16(info), 7) == 25,
        start(table_16(info), 8) == 28,
        start(table_16(info), 9) == 38,
{
    let table = table_16(info);
    assert(start(table, 0) == 0);
    assert(start(table, 1) == 3);
    assert(start(table, 2) == 6);
    assert(start(table, 3) == 13);
    assert(start(table, 4) == 14);
    assert(start(table, 5) == 18);
    assert(start(table, 6) == 22);
    assert(start(table, 7) == 25);
    assert(start(table, 8) == 28);
    assert(start(table, 9) == 38);
}

/// INFO1a reads back as it was, less what its fields do not hold.
pub proof fn law_reads_back_info1a(info: Info1a)
    ensures
        Info1a::read(info.spec_fields()) == Some(info.carried()),
{
    let table = table_16(info);
    vstd::arithmetic::power2::lemma2_to64();
    lemma_starts_16(info);
    law_fields_stand_at_their_places(table, 9, 0);
    law_fields_stand_at_their_places(table, 9, 1);
    law_fields_stand_at_their_places(table, 9, 2);
    lemma_probe_reads(table, 9, 3, info.probe);
    law_fields_stand_at_their_places(table, 9, 6);
    law_fields_stand_at_their_places(table, 9, 7);
    law_fields_stand_at_their_places(table, 9, 8);
    law_reads_back_an_offset(info.frequency_offset);
    let fields = written(table, 9);
    assert(number_at(fields, 0, 3) == info.min_power_reduction % 8);
    assert(number_at(fields, 3, 3) == info.extra_power_reduction % 8);
    assert(number_at(fields, 6, 7) == info.md_length % 128);
    assert(number_at(fields, 22, 3) == info.answer_to_call.spec_index());
    assert(number_at(fields, 25, 3) == info.call_to_answer.spec_index());
    assert(number_at(fields, 28, 10) == offset_value(info.frequency_offset));
    assert(rate_of(info.answer_to_call.spec_index() as nat) == Some(info.answer_to_call));
    assert(rate_of(info.call_to_answer.spec_index() as nat) == Some(info.call_to_answer));
}

/// A frame is 32 bits longer than its fields.
pub proof fn law_frames_have_the_lengths_of_their_tables(fields: Seq<bool>)
    ensures
        frame_of(fields).len() == fields.len() + 32,
{
    lemma_header();
    lemma_field_bits_len(crc_of(fields) as nat, 16);
}

/// Where each part of a frame stands: 1111, the frame sync 01110010, the
/// fields from bit 12 on, 16 bits of CRC over them, and 1111.
pub proof fn law_where_each_part_stands(fields: Seq<bool>, i: int)
    requires
        0 <= i < fields.len(),
    ensures
        frame_of(fields).take(12) == seq![
            true, true, true, true, false, true, true, true, false, false, true, false,
        ],
        frame_of(fields)[12 + i] == fields[i],
        frame_of(fields).subrange(12 + fields.len() as int, 28 + fields.len() as int) == field_bits(crc_of(fields) as nat, 16),
        frame_of(fields).skip(28 + fields.len() as int) == seq![true, true, true, true],
{
    reveal(header);
    lemma_header();
    lemma_field_bits_len(crc_of(fields) as nat, 16);
    assert(frame_of(fields).take(12) =~= header());
    assert(frame_of(fields).subrange(12 + fields.len() as int, 28 + fields.len() as int) =~= field_bits(crc_of(fields) as nat, 16));
    assert(frame_of(fields).skip(28 + fields.len() as int) =~= seq![true, true, true, true]);
}

/// Table 14, bit by bit from bit 12 of INFO0 on.
pub proof fn law_table_14(info: Info0)
    ensures
        ({
            let fields = info.spec_fields();
            &&& fields.len() == 17
            &&& fields[0] == info.supports_2743
            &&& fields[1] == info.supports_2800
            &&& fields[2] == info.supports_3429
            &&& fields[3] == info.low_carrier_3000
            &&& fields[4] == info.high_carrier_3000
            &&& fields[5] == info.low_carrier_3200
            &&& fields[6] == info.high_carrier_3200
            &&& fields[7] == info.allows_3429
            &&& fields[8] == info.reduces_power
            &&& number_at(fields, 9, 3) == info.rate_difference % 8
            &&& fields[12] == info.cme
            &&& fields[13] == info.constellation_1664
            &&& number_at(fields, 14, 2) == match info.clock {
                TransmitClock::Internal => 0nat,
                TransmitClock::FromReceiver => 1nat,
                TransmitClock::External => 2nat,
            }
            &&& fields[16] == info.acknowledge
        }),
{
    reveal(table_14);
    reveal(flags_of);
    reveal(number_at);
    vstd::arithmetic::power2::lemma2_to64();
    let fields = table_14(info);
    lemma_table_14_len(info);
    lemma_field_bits_len(info.rate_difference as nat, 3);
    lemma_field_bits_len(clock_value(info.clock), 2);
    law_reads_back_a_field(info.rate_difference as nat, 3);
    law_reads_back_a_field(clock_value(info.clock), 2);
    assert(fields.subrange(9, 12) =~= field_bits(info.rate_difference as nat, 3));
    assert(fields.subrange(14, 16) =~= field_bits(clock_value(info.clock), 2));
}

/// Table 15, field by field from bit 12 of INFO1c on: nine bits for each
/// symbol rate, in their order.
pub proof fn law_table_15(info: Info1c)
    ensures
        ({
            let fields = info.spec_fields();
            let p = info.probes@;
            &&& fields.len() == 77
            &&& number_at(fields, 0, 3) == info.min_power_reduction % 8
            &&& number_at(fields, 3, 3) == info.extra_power_reduction % 8
            &&& number_at(fields, 6, 7) == info.md_length % 128
            &&& fields[13] == p[0].high_carrier && number_at(fields, 14, 4) == p[0].pre_emphasis % 16
                && number_at(fields, 18, 4) == p[0].max_rate % 16
            &&& fields[22] == p[1].high_carrier && number_at(fields, 23, 4) == p[1].pre_emphasis % 16
                && number_at(fields, 27, 4) == p[1].max_rate % 16
            &&& fields[31] == p[2].high_carrier && number_at(fields, 32, 4) == p[2].pre_emphasis % 16
                && number_at(fields, 36, 4) == p[2].max_rate % 16
            &&& fields[40] == p[3].high_carrier && number_at(fields, 41, 4) == p[3].pre_emphasis % 16
                && number_at(fields, 45, 4) == p[3].max_rate % 16
            &&& fields[49] == p[4].high_carrier && number_at(fields, 50, 4) == p[4].pre_emphasis % 16
                && number_at(fields, 54, 4) == p[4].max_rate % 16
            &&& fields[58] == p[5].high_carrier && number_at(fields, 59, 4) == p[5].pre_emphasis % 16
                && number_at(fields, 63, 4) == p[5].max_rate % 16
            &&& number_at(fields, 67, 10) == offset_value(info.frequency_offset)
        }),
{
    let table = table_15(info);
    vstd::arithmetic::power2::lemma2_to64();
    lemma_starts_15(info);
    law_reads_back_an_offset(info.frequency_offset);
    law_fields_stand_at_their_places(table, 22, 0);
    law_fields_stand_at_their_places(table, 22, 1);
    law_fields_stand_at_their_places(table, 22, 2);
    let p = info.probes@;
    lemma_flag_at(table, 22, 3, p[0].high_carrier);
    law_fields_stand_at_their_places(table, 22, 4);
    law_fields_stand_at_their_places(table, 22, 5);
    lemma_flag_at(table, 22, 6, p[1].high_carrier);
    law_fields_stand_at_their_places(table, 22, 7);
    law_fields_stand_at_their_places(table, 22, 8);
    lemma_flag_at(table, 22, 9, p[2].high_carrier);
    law_fields_stand_at_their_places(table, 22, 10);
    law_fields_stand_at_their_places(table, 22, 11);
    lemma_flag_at(table, 22, 12, p[3].high_carrier);
    law_fields_stand_at_their_places(table, 22, 13);
    law_fields_stand_at_their_places(table, 22, 14);
    lemma_flag_at(table, 22, 15, p[4].high_carrier);
    law_fields_stand_at_their_places(table, 22, 16);
    law_fields_stand_at_their_places(table, 22, 17);
    lemma_flag_at(table, 22, 18, p[5].high_carrier);
    law_fields_stand_at_their_places(table, 22, 19);
    law_fields_stand_at_their_places(table, 22, 20);
    law_fields_stand_at_their_places(table, 22, 21);
}

/// Table 16, field by field from bit 12 of INFO1a on.
pub proof fn law_table_16(info: Info1a)
    ensures
        ({
            let fields = info.spec_fields();
            &&& fields.len() == 38
            &&& number_at(fields, 0, 3) == info.min_power_reduction % 8
            &&& number_at(fields, 3, 3) == info.extra_power_reduction % 8
            &&& number_at(fields, 6, 7) == info.md_length % 128
            &&& fields[13] == info.probe.high_carrier
            &&& number_at(fields, 14, 4) == info.probe.pre_emphasis % 16
            &&& number_at(fields, 18, 4) == info.probe.max_rate % 16
            &&& number_at(fields, 22, 3) == info.answer_to_call.spec_index()
            &&& number_at(fields, 25, 3) == info.call_to_answer.spec_index()
            &&& number_at(fields, 28, 10) == offset_value(info.frequency_offset)
        }),
{
    let table = table_16(info);
    vstd::arithmetic::power2::lemma2_to64();
    lemma_starts_16(info);
    law_reads_back_an_offset(info.frequency_offset);
    law_fields_stand_at_their_places(table, 9, 0);
    law_fields_stand_at_their_places(table, 9, 1);
    law_fields_stand_at_their_places(table, 9, 2);
    lemma_flag_at(table, 9, 3, info.probe.high_carrier);
    law_fields_stand_at_their_places(table, 9, 4);
    law_fields_stand_at_their_places(table, 9, 5);
    law_fields_stand_at_their_places(table, 9, 6);
    law_fields_stand_at_their_places(table, 9, 7);
    law_fields_stand_at_their_places(table, 9, 8);
}

/// An offset is a number of ten bits in two's complement, kept within ±511,
/// and −512 says that there is none.
pub proof fn law_an_offset_is_ten_bits(offset: i16)
    ensures
        offset_value(None) == 512,
        0 <= offset <= 511 ==> offset_value(Some(offset)) == offset,
        -511 <= offset < 0 ==> offset_value(Some(offset)) == 1024 + offset,
        offset > 511 ==> offset_value(Some(offset)) == 511,
        offset < -511 ==> offset_value(Some(offset)) == 513,
{
}

/// INFO0 is read flag by flag, and not at all where its clock has no meaning.
pub proof fn law_reads_table_14(fields: Seq<bool>)
    ensures
        Info0::read(fields) is Some <==> number_at(fields, 14, 2) != 3,
        ({
            let info = Info0::read(fields)->0;
            number_at(fields, 14, 2) != 3 ==> {
                &&& info.supports_2743 == fields[0] && info.supports_2800 == fields[1] && info.supports_3429 == fields[2]
                &&& info.low_carrier_3000 == fields[3] && info.high_carrier_3000 == fields[4]
                &&& info.low_carrier_3200 == fields[5] && info.high_carrier_3200 == fields[6]
                &&& info.allows_3429 == fields[7] && info.reduces_power == fields[8]
                &&& info.cme == fields[12] && info.constellation_1664 == fields[13] && info.acknowledge == fields[16]
                &&& number_at(fields, 14, 2) == 0 ==> info.clock is Internal
                &&& number_at(fields, 14, 2) == 1 ==> info.clock is FromReceiver
                &&& number_at(fields, 14, 2) == 2 ==> info.clock is External
            }
        }),
{
    reveal(info0_read);
}

} // verus!

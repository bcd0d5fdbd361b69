//! How the bits given to the digital modem reach its encoder in data mode.

use crate::scrambler::{
    descrambled_at, law_descrambles_what_it_scrambles, law_scrambling_goes_on, scrambled,
    scrambling_after, Scrambling,
};
use crate::v34::crossing::joined;
use crate::v34::mp::Mp;
use crate::v90::cp::Cp;
use crate::v90::digital::{Feeding, Next, Sending, Shaping, B1D_FRAMES};
use crate::v90::encoder::{pieces, unshaped, Decoder, Encoder, Rule};
use crate::v90::run::{has_run, law_decodes_a_whole_run, reads_on, sent, six};
use crate::v90::upstream::Upstream;
use vstd::prelude::*;

verus! {

/// An encoder and the scrambler before it.
pub struct Line {
    pub shaping: Shaping,
    pub scrambling: Scrambling,
}

/// After the first `n` data frames of `bits`, scrambled one after another.
pub open spec fn given(line: Line, bits: Seq<bool>, n: nat) -> Line
    decreases n,
{
    if n == 0 {
        line
    } else {
        let before = given(line, bits, (n - 1) as nat);
        let per_frame = line.shaping.mapping.spec_bits();
        let frame = bits.subrange((n - 1) * per_frame, n * per_frame);
        Line {
            shaping: before.shaping.taken(scrambled(before.scrambling, frame)),
            scrambling: scrambling_after(before.scrambling, frame),
        }
    }
}

impl Shaping {
    /// The symbols of what the encoder has taken and not yet given.
    pub open spec fn held(self) -> int {
        self.out.len() + self.mapping.spec_shaping_length() * self.pieces.len()
    }

    /// Each shaping frame that waits has all its symbols, and none waits
    /// where there is no shaping.
    pub open spec fn whole(self) -> bool {
        &&& self.mapping.redundancy <= 3
        &&& self.mapping.redundancy == 0 ==> self.pieces.len() == 0
        &&& forall|i: int|
            0 <= i < self.pieces.len() ==> (#[trigger] self.pieces[i]).ucodes.len()
                == self.mapping.spec_shaping_length()
    }
}

impl Feeding {
    pub open spec fn line(self) -> Line {
        Line { shaping: self.shaping, scrambling: self.scrambling }
    }
}

impl Sending {
    /// The bits on their way to the encoder, oldest first: those gathered for
    /// its next data frames, and the data behind them.
    pub open spec fn waiting(self) -> Seq<bool> {
        self.feeding->0.pending + self.data
    }

    /// The data frames ahead are those whose bits are gathered and those that
    /// the encoder has taken and not yet given, `frames` of them gathered.
    pub open spec fn counts(self, frames: int) -> bool {
        &&& self.feeding is Some
        &&& self.feeding->0.shaping.whole()
        &&& frames >= 0
        &&& self.feeding->0.pending.len() == frames * self.frame_bits()
        &&& 6 * self.script.ahead == 6 * frames + self.feeding->0.shaping.held()
    }

    /// In data mode, with whole data frames gathered, and enough of them for
    /// a data frame under way.
    pub open spec fn carries(self) -> bool {
        &&& self.script.send is Data
        &&& exists|frames: int| #[trigger] self.counts(frames)
        &&& self.script.emitting ==> !self.wants_bits()
    }

    /// From this to `after`, the encoder takes `frames` data frames of the
    /// bits that wait, in their order, with `ones` ones behind the last of
    /// them.
    pub open spec fn carries_to(self, frames: nat, ones: nat, after: Self) -> bool {
        let bits = self.waiting() + Seq::new(ones, |i: int| true);
        let line = given(self.feeding->0.line(), bits, frames);
        let shaping = after.feeding->0.shaping;
        &&& frames * self.frame_bits() <= bits.len()
        &&& after.waiting() == bits.skip(frames * self.frame_bits())
        &&& after.feeding->0.scrambling == line.scrambling
        &&& shaping == Shaping { out: shaping.out, ..line.shaping }
        &&& shaping.out == line.shaping.out || line.shaping.out.len() >= 6 && shaping.out
            == line.shaping.out.skip(6)
    }
}

/// A data frame of bits is six symbols.
proof fn lemma_taken(shaping: Shaping, frame: Seq<bool>)
    requires
        shaping.whole(),
    ensures
        shaping.taken(frame).whole(),
        shaping.taken(frame).mapping == shaping.mapping,
        shaping.taken(frame).held() == shaping.held() + 6,
{
    let m = shaping.mapping;
    let length = m.spec_shaping_length();
    let after = shaping.taken(frame);
    if m.redundancy == 0 {
        assert(unshaped(m, shaping.last_sign, frame).len() == 6);
    } else {
        let more = pieces(m, shaping.turning, frame);
        assert(length * (6int / length) == 6) by {
            assert(6int / 6int == 1 && 6int / 3int == 2 && 6int / 2int == 3);
        }
        assert(more.len() == 6int / length);
        assert(length * (shaping.pieces.len() + more.len()) == length * shaping.pieces.len()
            + length * more.len()) by (nonlinear_arith);
        assert forall|i: int| 0 <= i < after.pieces.len() implies (
        #[trigger] after.pieces[i]).ucodes.len() == length by {
            if i < shaping.pieces.len() {
                assert(after.pieces[i] == shaping.pieces[i]);
            } else {
                assert(after.pieces[i] == more[i - shaping.pieces.len()]);
            }
        }
    }
}

proof fn lemma_given_holds(line: Line, bits: Seq<bool>, n: nat)
    requires
        line.shaping.whole(),
    ensures
        given(line, bits, n).shaping.whole(),
        given(line, bits, n).shaping.mapping == line.shaping.mapping,
        given(line, bits, n).shaping.held() == line.shaping.held() + 6 * n,
    decreases n,
{
    if n > 0 {
        lemma_given_holds(line, bits, (n - 1) as nat);
        let before = given(line, bits, (n - 1) as nat);
        let per_frame = line.shaping.mapping.spec_bits();
        let frame = bits.subrange((n - 1) * per_frame, n * per_frame);
        lemma_taken(before.shaping, scrambled(before.scrambling, frame));
    }
}

/// Only the bits of the data frames taken matter.
proof fn lemma_given_prefix(line: Line, bits: Seq<bool>, more: Seq<bool>, n: nat)
    requires
        line.shaping.mapping.spec_bits() >= 0,
        n * line.shaping.mapping.spec_bits() <= bits.len(),
    ensures
        given(line, bits + more, n) == given(line, bits, n),
    decreases n,
{
    if n > 0 {
        let per_frame = line.shaping.mapping.spec_bits();
        assert((n - 1) * per_frame + per_frame == n * per_frame && 0 <= (n - 1) * per_frame)
            by (nonlinear_arith)
            requires
                per_frame >= 0,
                n > 0,
        ;
        lemma_given_prefix(line, bits, more, (n - 1) as nat);
        assert((bits + more).subrange((n - 1) * per_frame, n * per_frame) =~= bits.subrange(
            (n - 1) * per_frame,
            n * per_frame,
        ));
    }
}

/// As long as whole data frames wait, the encoder takes them as they are.
proof fn lemma_fed_what_waits(feeding: Feeding, idle: bool, frames: int, n: nat)
    requires
        feeding.shaping.whole(),
        feeding.pending.len() == frames * feeding.shaping.mapping.spec_bits(),
        n <= frames,
    ensures
        n * feeding.shaping.mapping.spec_bits() <= feeding.pending.len(),
        feeding.fed_times(idle, n).line() == given(feeding.line(), feeding.pending, n),
        feeding.fed_times(idle, n).pending == feeding.pending.skip(
            n * feeding.shaping.mapping.spec_bits(),
        ),
    decreases n,
{
    let per_frame = feeding.shaping.mapping.spec_bits();
    assert(n * per_frame <= frames * per_frame) by (nonlinear_arith)
        requires
            n <= frames,
            per_frame >= 0,
    ;
    if n == 0 {
        assert(feeding.pending.skip(0) =~= feeding.pending);
    } else {
        let m = (n - 1) as nat;
        lemma_fed_what_waits(feeding, idle, frames, m);
        lemma_given_holds(feeding.line(), feeding.pending, m);
        assert(m * per_frame + per_frame == n * per_frame && 0 <= m * per_frame)
            by (nonlinear_arith)
            requires
                n == m + 1,
                per_frame >= 0,
        ;
        let before = feeding.fed_times(idle, m);
        assert(before.shaping.mapping == feeding.shaping.mapping);
        let frame = feeding.pending.subrange((n - 1) * per_frame, n * per_frame);
        assert(before.next_bits(idle) =~= frame);
        assert(before.pending.skip(per_frame) =~= feeding.pending.skip(n * per_frame));
    }
}

/// A data frame under way takes only bits that have been gathered, whole data
/// frames of them.
proof fn lemma_fills_from_what_waits(
    sending: Sending,
    idle: bool,
    frames: int,
    fed: Feeding,
) -> (n: nat)
    requires
        sending.counts(frames),
        !sending.wants_bits(),
        sending.feeding->0.fills(idle, fed),
    ensures
        n <= frames,
        fed == sending.feeding->0.fed_times(idle, n),
{
    let feeding = sending.feeding->0;
    let n = choose|count: nat|
        #![trigger feeding.fed_times(idle, count)]
        feeding.fed_times(idle, count) == fed && forall|k: nat|
            k < count ==> (#[trigger] feeding.fed_times(idle, k)).shaping.wants_bits();
    if n > frames {
        let k = frames as nat;
        assert(feeding.fed_times(idle, k).shaping.wants_bits());
        lemma_fed_what_waits(feeding, idle, frames, k);
        lemma_given_holds(feeding.line(), feeding.pending, k);
        let shaping = feeding.fed_times(idle, k).shaping;
        assert(shaping == given(feeding.line(), feeding.pending, k).shaping);
        let length = shaping.mapping.spec_shaping_length();
        if shaping.mapping.redundancy > 0 {
            assert(length * shaping.pieces.len() <= 6 * shaping.mapping.lookahead)
                by (nonlinear_arith)
                requires
                    0 <= length <= 6,
                    0 <= shaping.pieces.len() <= shaping.mapping.lookahead,
            ;
        }
    }
    n
}

/// Data mode starts with the data frames of B1d ahead.
pub proof fn law_data_mode_starts_with_whole_frames(before: Sending, cp: Option<Cp>, after: Sending)
    requires
        before.begins_data(cp, after),
        !(before.script.send is Data),
        after.script.send is Data,
        !before.script.emitting,
    ensures
        after.carries(),
        after.waiting() == Seq::new((B1D_FRAMES * after.frame_bits()) as nat, |i: int| true)
            + before.data,
{
    assert(0 <= B1D_FRAMES * after.frame_bits()) by (nonlinear_arith)
        requires
            after.frame_bits() >= 0,
    ;
    assert(after.counts(B1D_FRAMES as int)) by {
        assert(after.feeding->0.shaping.held() == 0);
    }
}

/// Gathering for a data frame keeps the order of the bits, and puts ones
/// behind them only where the queue of data has run out.
pub proof fn law_ones_only_follow_the_data(sending: Sending) -> (ones: nat)
    requires
        sending.carries(),
    ensures
        sending.gathers().carries(),
        sending.gathers().feeding->0.line() == sending.feeding->0.line(),
        sending.gathers().waiting() == sending.waiting() + Seq::new(ones, |i: int| true),
        ones > 0 ==> sending.gathers().data.len() == 0,
{
    let frames = choose|frames: int| #[trigger] sending.counts(frames);
    let after = sending.gathers();
    let wanted = sending.wanted();
    let per_frame = sending.frame_bits();
    let count = (wanted * per_frame) as nat;
    assert(0 <= wanted * per_frame) by (nonlinear_arith)
        requires
            wanted >= 0,
            per_frame >= 0,
    ;
    assert((frames + wanted) * per_frame == frames * per_frame + wanted * per_frame)
        by (nonlinear_arith);
    assert(after.counts(frames + wanted));
    let ones: nat = if count <= sending.data.len() {
        0
    } else {
        (count - sending.data.len()) as nat
    };
    assert(after.waiting() =~= sending.waiting() + Seq::new(ones, |i: int| true));
    ones
}

/// A data frame under way takes what waits, oldest first, and nothing else.
pub proof fn law_a_data_frame_takes_what_waits(
    sending: Sending,
    cp: Option<Cp>,
    fed: Feeding,
    waits: bool,
    after: Sending,
) -> (frames: nat)
    requires
        sending.carries(),
        sending.script.emitting,
        sending.emits(cp, fed, waits, after),
    ensures
        after.carries(),
        after.data == sending.data,
        sending.carries_to(frames, 0, after),
{
    let gathered = choose|frames: int| #[trigger] sending.counts(frames);
    let feeding = sending.feeding->0;
    let per_frame = sending.frame_bits();
    let n = lemma_fills_from_what_waits(sending, sending.script.idle(), gathered, fed);
    lemma_fed_what_waits(feeding, sending.script.idle(), gathered, n);
    lemma_given_holds(feeding.line(), feeding.pending, n);
    assert(fed.line() == given(feeding.line(), feeding.pending, n));
    assert((gathered - n) * per_frame == gathered * per_frame - n * per_frame) by (nonlinear_arith);
    assert(0 <= n * per_frame) by (nonlinear_arith)
        requires
            per_frame >= 0,
    ;
    assert(fed.pending.len() == (gathered - n) * per_frame);
    assert(after.counts(gathered - n));
    let bits = sending.waiting() + Seq::new(0, |i: int| true);
    assert(bits =~= feeding.pending + sending.data);
    lemma_given_prefix(feeding.line(), feeding.pending, sending.data, n);
    assert(after.waiting() =~= bits.skip(n * per_frame));
    n
}

/// In data mode the bits given to the transmitter reach its encoder in order,
/// from one symbol to the next, with ones behind them only where its queue
/// has run out. So it goes on until a renegotiation starts.
pub proof fn law_data_reaches_the_encoder_in_order(
    sending: Sending,
    upstream: Upstream,
    mp: Mp,
    ready: Sending,
    full: Sending,
    next: Next,
    after: Sending,
) -> (moved: (nat, nat))
    requires
        sending.carries(),
        sending.gives(upstream, mp, ready, full, next, after),
        ready.script.send is Data,
    ensures
        after.carries(),
        sending.carries_to(moved.0, moved.1, after),
        moved.1 > 0 ==> after.data.len() == 0,
{
    if sending.queue.len() > 0 {
        let frames = choose|frames: int| #[trigger] sending.counts(frames);
        assert(after.counts(frames));
        let bits = sending.waiting() + Seq::new(0, |i: int| true);
        assert(bits =~= sending.waiting());
        assert(bits.skip(0) =~= bits);
        (0, 0)
    } else {
        let script = sending.script.responding(upstream.spec_ears().renegotiations);
        let base = Sending { script, ..sending };
        let frames = choose|frames: int| #[trigger] sending.counts(frames);
        let ones = if sending.script.emitting {
            assert(ready.waiting() =~= sending.waiting() + Seq::new(0, |i: int| true));
            0
        } else {
            assert(base.counts(frames));
            law_ones_only_follow_the_data(base)
        };
        let fed = choose|fed: Feeding| #[trigger]
            ready.emits(upstream.spec_cp(), fed, next is Rule, full);
        let n = law_a_data_frame_takes_what_waits(
            ready,
            upstream.spec_cp(),
            fed,
            next is Rule,
            full,
        );
        let bits = sending.waiting() + Seq::new(ones, |i: int| true);
        assert(ready.waiting() == bits);
        assert(bits + Seq::new(0, |i: int| true) =~= bits);
        let left = choose|frames: int| #[trigger] full.counts(frames);
        assert(after.counts(left));
        assert(after.waiting() == full.waiting());
        (n, ones)
    }
}

/// Data given to the transmitter waits behind what is already there.
pub proof fn law_data_waits_in_order(sending: Sending, bits: Seq<bool>)
    requires
        sending.carries(),
    ensures
        (Sending { data: sending.data + bits, ..sending }).carries(),
        (Sending { data: sending.data + bits, ..sending }).waiting() == sending.waiting() + bits,
{
    let frames = choose|frames: int| #[trigger] sending.counts(frames);
    let after = Sending { data: sending.data + bits, ..sending };
    assert(after.counts(frames));
    assert(after.waiting() =~= sending.waiting() + bits);
}

/// Sending a shaping frame under its rule leaves what waits alone.
pub proof fn law_a_rule_leaves_what_waits(sending: Sending, rule: Rule)
    requires
        sending.carries(),
        sending.feeding->0.shaping.pieces.len() > 0,
    ensures
        ({
            let feeding = sending.feeding->0;
            let after = Sending {
                feeding: Some(Feeding { shaping: feeding.shaping.shaped(rule), ..feeding }),
                ..sending
            };
            after.carries() && after.waiting() == sending.waiting()
        }),
{
    let frames = choose|frames: int| #[trigger] sending.counts(frames);
    let feeding = sending.feeding->0;
    let before = feeding.shaping;
    let shaping = before.shaped(rule);
    let after = Sending { feeding: Some(Feeding { shaping, ..feeding }), ..sending };
    let length = before.mapping.spec_shaping_length();
    assert(before.pieces[0].symbols(rule).len() == length);
    assert(length * (before.pieces.len() - 1) == length * before.pieces.len() - length)
        by (nonlinear_arith);
    assert forall|i: int| 0 <= i < shaping.pieces.len() implies (
    #[trigger] shaping.pieces[i]).ucodes.len() == length by {
        assert(shaping.pieces[i] == before.pieces[i + 1]);
    }
    assert(after.counts(frames));
}

/// Data frame `k` of `bits` after the scrambler.
pub open spec fn frame_of(scrambling: Scrambling, bits: Seq<bool>, per_frame: int, k: int) -> Seq<
    bool,
> {
    scrambled(
        scrambling_after(scrambling, bits.take(k * per_frame)),
        bits.subrange(k * per_frame, (k + 1) * per_frame),
    )
}

/// What the encoder takes of `bits` are its data frames, in their order.
pub proof fn law_the_encoder_takes_data_frames(line: Line, bits: Seq<bool>, n: nat)
    requires
        line.shaping.mapping.spec_bits() >= 0,
        n * line.shaping.mapping.spec_bits() <= bits.len(),
    ensures
        given(line, bits, n).scrambling == scrambling_after(
            line.scrambling,
            bits.take(n * line.shaping.mapping.spec_bits()),
        ),
        n > 0 ==> given(line, bits, n).shaping == given(line, bits, (n - 1) as nat).shaping.taken(
            frame_of(line.scrambling, bits, line.shaping.mapping.spec_bits(), n - 1),
        ),
    decreases n,
{
    let per_frame = line.shaping.mapping.spec_bits();
    if n == 0 {
        assert(bits.take(0) =~= Seq::<bool>::empty());
    } else {
        let m = (n - 1) as nat;
        assert(m * per_frame + per_frame == n * per_frame && 0 <= m * per_frame)
            by (nonlinear_arith)
            requires
                n == m + 1,
                per_frame >= 0,
        ;
        law_the_encoder_takes_data_frames(line, bits, m);
        let frame = bits.subrange(m * per_frame, n * per_frame);
        law_scrambling_goes_on(line.scrambling, bits.take(m * per_frame), frame);
        assert(bits.take(m * per_frame) + frame =~= bits.take(n * per_frame));
    }
}

/// The data frames that the decoder reads.
pub open spec fn frames_read(
    encoder: Encoder,
    frames: Seq<Seq<bool>>,
    rules: Seq<Rule>,
    decoders: Seq<Decoder>,
) -> Seq<Seq<bool>> {
    Seq::new(
        (decoders.len() - 1) as nat,
        |k: int| decoders[k].spec_frame(six(sent(encoder.spec_mapping(), frames, rules), k)),
    )
}

proof fn lemma_joined_frames(
    scrambling: Scrambling,
    bits: Seq<bool>,
    per_frame: int,
    read: Seq<Seq<bool>>,
    m: int,
)
    requires
        per_frame >= 0,
        0 <= m <= read.len(),
        m * per_frame <= bits.len(),
        forall|k: int|
            0 <= k < m ==> #[trigger] read[k] == frame_of(scrambling, bits, per_frame, k),
    ensures
        joined(read, m) == scrambled(scrambling, bits.take(m * per_frame)),
    decreases m,
{
    if m == 0 {
        assert(m * per_frame == 0) by (nonlinear_arith)
            requires
                m == 0,
        ;
        assert(bits.take(0) =~= Seq::<bool>::empty());
    } else {
        let less = m - 1;
        assert((less + 1) * per_frame == m * per_frame);
        assert(less * per_frame + per_frame == m * per_frame && 0 <= less * per_frame)
            by (nonlinear_arith)
            requires
                m == less + 1,
                less >= 0,
                per_frame >= 0,
        ;
        lemma_joined_frames(scrambling, bits, per_frame, read, less);
        let frame = bits.subrange(less * per_frame, m * per_frame);
        law_scrambling_goes_on(scrambling, bits.take(less * per_frame), frame);
        assert(bits.take(less * per_frame) + frame =~= bits.take(m * per_frame));
        assert(read[less] == frame_of(scrambling, bits, per_frame, less));
    }
}

/// What enters the scrambler of the digital modem comes out of the
/// descrambler of the analogue modem in order, for as far as the codewords of
/// its data frames have come: whatever signs the shaper inverts.
pub proof fn law_what_enters_comes_back(
    encoder: Encoder,
    scrambling: Scrambling,
    bits: Seq<bool>,
    frames: Seq<Seq<bool>>,
    rules: Seq<Rule>,
    drawn: int,
    decoders: Seq<Decoder>,
    i: int,
)
    requires
        encoder.spec_mapping().valid(),
        encoder.spec_mapping().spec_fits(),
        encoder.spec_mapping().labelled(),
        scrambling.valid(),
        !scrambling.guard,
        frames.len() * encoder.spec_mapping().spec_bits() <= bits.len(),
        forall|k: int|
            0 <= k < frames.len() ==> #[trigger] frames[k] == frame_of(
                scrambling,
                bits,
                encoder.spec_mapping().spec_bits(),
                k,
            ),
        has_run(encoder, frames, rules, drawn),
        reads_on(
            encoder.spec_mapping(),
            sent(encoder.spec_mapping(), frames, rules),
            decoders,
        ),
        decoders.len() > 0,
        0 <= i < (decoders.len() - 1) * encoder.spec_mapping().spec_bits(),
    ensures
        ({
            let read = frames_read(encoder, frames, rules, decoders);
            let line = joined(read, read.len() as int);
            &&& i < line.len() == read.len() * encoder.spec_mapping().spec_bits()
            &&& descrambled_at(scrambling.polynomial, scrambling.history, line, i) == bits[i]
        }),
{
    let per_frame = encoder.spec_mapping().spec_bits();
    let read = frames_read(encoder, frames, rules, decoders);
    let m = read.len() as int;
    assert forall|k: int| 0 <= k < m implies k < frames.len() && #[trigger] read[k] == frame_of(
        scrambling,
        bits,
        per_frame,
        k,
    ) by {
        law_decodes_a_whole_run(encoder, frames, rules, drawn, decoders, k);
    }
    if m > 0 {
        assert(read[m - 1] == frame_of(scrambling, bits, per_frame, m - 1));
    }
    assert(m <= frames.len());
    assert(0 <= m * per_frame <= frames.len() * per_frame) by (nonlinear_arith)
        requires
            0 <= m <= frames.len(),
            per_frame >= 0,
    ;
    lemma_joined_frames(scrambling, bits, per_frame, read, m);
    let entered = bits.take(m * per_frame);
    crate::scrambler::lemma_scrambles_each(scrambling, entered);
    law_descrambles_what_it_scrambles(scrambling, entered, i);
    assert(entered[i] == bits[i]);
}

} // verus!

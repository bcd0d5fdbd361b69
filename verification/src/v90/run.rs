//! Whole runs of the encoder and the decoder: the data frames that went in,
//! the rules that the shaper chose, and the codewords that came out. The
//! look-ahead holds codewords back, and changes none of them.

use crate::v90::encoder::{
    follows, in_step, law_decodes_what_it_encodes, law_decodes_what_it_encodes_unshaped,
    law_starts_in_step, lemma_shaped, lemma_turning_length, pieces, shaped, sign_after,
    state_after, state_before, turning_after, unshaped, Decoder, Encoder, Mapping, Piece, Rule,
    Turning,
};
use crate::v90::Codeword;
use vstd::prelude::*;

verus! {

/// Shaping frames in a data frame: 1, 2 or 3.
pub open spec fn per_frame(mapping: Mapping) -> int {
    6int / mapping.spec_shaping_length()
}

/// The differential encoders before data frame `n`.
pub open spec fn turning_before(mapping: Mapping, frames: Seq<Seq<bool>>, n: int) -> Turning
    decreases n,
{
    if n <= 0 {
        Turning::at_rest(mapping)
    } else {
        turning_after(
            turning_before(mapping, frames, n - 1),
            frames[n - 1].take(mapping.spec_sign_bits()),
            per_frame(mapping),
        )
    }
}

/// The shaping frames of the first `n` data frames.
pub open spec fn all_pieces(mapping: Mapping, frames: Seq<Seq<bool>>, n: int) -> Seq<Piece>
    decreases n,
{
    if n <= 0 {
        seq![]
    } else {
        all_pieces(mapping, frames, n - 1) + pieces(
            mapping,
            turning_before(mapping, frames, n - 1),
            frames[n - 1],
        )
    }
}

/// The last sign before data frame `n`, without shaping.
pub open spec fn sign_before(frames: Seq<Seq<bool>>, n: int) -> bool
    decreases n,
{
    if n <= 0 {
        false
    } else {
        sign_after(sign_before(frames, n - 1), frames[n - 1], 6)
    }
}

/// The codewords of the first `n` data frames, without shaping.
pub open spec fn all_unshaped(mapping: Mapping, frames: Seq<Seq<bool>>, n: int) -> Seq<Codeword>
    decreases n,
{
    if n <= 0 {
        seq![]
    } else {
        all_unshaped(mapping, frames, n - 1) + unshaped(
            mapping,
            sign_before(frames, n - 1),
            frames[n - 1],
        )
    }
}

/// All codewords that have come out of an encoder that took `frames`, and
/// gave the shaping frames `rules`.
pub open spec fn sent(mapping: Mapping, frames: Seq<Seq<bool>>, rules: Seq<Rule>) -> Seq<Codeword> {
    if mapping.redundancy == 0 {
        all_unshaped(mapping, frames, frames.len() as int)
    } else {
        shaped(all_pieces(mapping, frames, frames.len() as int), rules, rules.len() as int)
    }
}

/// Data frame `k` of the codewords.
pub open spec fn six(codewords: Seq<Codeword>, k: int) -> Seq<Codeword> {
    codewords.subrange(6 * k, 6 * k + 6)
}

/// Each data frame has its D bits.
pub open spec fn are_frames(mapping: Mapping, frames: Seq<Seq<bool>>) -> bool {
    forall|n: int| 0 <= n < frames.len() ==> (#[trigger] frames[n]).len() == mapping.spec_bits()
}

/// `encoder` has taken `frames`, given the oldest shaping frames `rules`, and
/// given out `given` data frames of codewords, in whatever order.
pub open spec fn has_run(
    encoder: Encoder,
    frames: Seq<Seq<bool>>,
    rules: Seq<Rule>,
    given: int,
) -> bool {
    let mapping = encoder.spec_mapping();
    let count = frames.len() as int;
    let all = sent(mapping, frames, rules);
    &&& are_frames(mapping, frames)
    &&& 0 <= 6 * given <= all.len()
    &&& encoder.out() == all.skip(6 * given)
    &&& if mapping.redundancy == 0 {
        &&& rules.len() == 0
        &&& encoder.last_sign() == sign_before(frames, count)
    } else {
        let parts = all_pieces(mapping, frames, count);
        &&& rules.len() <= parts.len()
        &&& follows(false, rules)
        &&& encoder.pending() == parts.skip(rules.len() as int)
        &&& encoder.turning() == turning_before(mapping, frames, count)
        &&& encoder.spec_state() == state_after(false, rules, rules.len() as int)
    }
}

/// The first codewords are as they were.
pub open spec fn goes_on_from(codewords: Seq<Codeword>, more: Seq<Codeword>) -> bool {
    codewords.len() <= more.len() && more.take(codewords.len() as int) == codewords
}

/// An encoder starts with an empty run.
pub proof fn law_a_run_starts_empty(encoder: Encoder)
    requires
        encoder.starts(),
    ensures
        has_run(encoder, seq![], seq![], 0),
{
    let mapping = encoder.spec_mapping();
    let (frames, rules): (Seq<Seq<bool>>, Seq<Rule>) = (seq![], seq![]);
    assert(sent(mapping, frames, rules) =~= Seq::<Codeword>::empty());
    assert(encoder.out() =~= sent(mapping, frames, rules).skip(0));
    assert(all_pieces(mapping, frames, 0) =~= Seq::<Piece>::empty());
    assert(encoder.pending() =~= all_pieces(mapping, frames, 0).skip(0));
}

/// Data frames that come later change nothing of those before.
proof fn lemma_prefix(mapping: Mapping, frames: Seq<Seq<bool>>, more: Seq<Seq<bool>>, n: int)
    requires
        0 <= n <= frames.len() <= more.len(),
        forall|i: int| 0 <= i < frames.len() ==> frames[i] == more[i],
    ensures
        turning_before(mapping, frames, n) == turning_before(mapping, more, n),
        all_pieces(mapping, frames, n) == all_pieces(mapping, more, n),
        sign_before(frames, n) == sign_before(more, n),
        all_unshaped(mapping, frames, n) == all_unshaped(mapping, more, n),
    decreases n,
{
    if n > 0 {
        lemma_prefix(mapping, frames, more, n - 1);
        assert(frames[n - 1] == more[n - 1]);
    }
}

proof fn lemma_per_frame(mapping: Mapping)
    requires
        mapping.valid(),
    ensures
        1 <= per_frame(mapping) <= 3,
        per_frame(mapping) * mapping.spec_shaping_length() == 6,
{
    assert(6int / 6 == 1 && 6int / 3 == 2 && 6int / 2 == 3);
}

proof fn lemma_piece_count(mapping: Mapping, frames: Seq<Seq<bool>>, n: int)
    requires
        mapping.valid(),
        0 <= n,
    ensures
        all_pieces(mapping, frames, n).len() == per_frame(mapping) * n,
        forall|m: int|
            0 <= m < all_pieces(mapping, frames, n).len() ==> (#[trigger] all_pieces(
                mapping,
                frames,
                n,
            )[m]).ucodes.len() == mapping.spec_shaping_length(),
    decreases n,
{
    let c = per_frame(mapping);
    if n > 0 {
        lemma_piece_count(mapping, frames, n - 1);
        lemma_per_frame(mapping);
        assert(c * n == c * (n - 1) + c) by (nonlinear_arith);
    } else {
        assert(c * 0 == 0);
    }
}

/// Only the shaping frames that have a rule are put out.
proof fn lemma_shaped_prefix(
    parts: Seq<Piece>,
    more: Seq<Piece>,
    rules: Seq<Rule>,
    next: Seq<Rule>,
    n: int,
)
    requires
        0 <= n <= rules.len() <= next.len(),
        n <= parts.len() <= more.len(),
        forall|i: int| 0 <= i < n ==> parts[i] == more[i],
        forall|i: int| 0 <= i < n ==> rules[i] == next[i],
    ensures
        shaped(parts, rules, n) == shaped(more, next, n),
    decreases n,
{
    if n > 0 {
        lemma_shaped_prefix(parts, more, rules, next, n - 1);
        assert(parts[n - 1] == more[n - 1] && rules[n - 1] == next[n - 1]);
    }
}

/// A data frame that an encoder takes joins its run, and the codewords that
/// have come out stay as they are.
pub proof fn law_a_run_takes_a_frame(
    encoder: Encoder,
    after: Encoder,
    frames: Seq<Seq<bool>>,
    rules: Seq<Rule>,
    given: int,
    frame: Seq<bool>,
)
    requires
        encoder.spec_mapping().valid(),
        has_run(encoder, frames, rules, given),
        frame.len() == encoder.spec_mapping().spec_bits(),
        encoder.took(frame, after),
    ensures
        has_run(after, frames.push(frame), rules, given),
        goes_on_from(
            sent(encoder.spec_mapping(), frames, rules),
            sent(encoder.spec_mapping(), frames.push(frame), rules),
        ),
{
    let mapping = encoder.spec_mapping();
    let more = frames.push(frame);
    let count = frames.len() as int;
    lemma_prefix(mapping, frames, more, count);
    let all = sent(mapping, frames, rules);
    let next = sent(mapping, more, rules);
    assert(more[count] == frame);
    if mapping.redundancy == 0 {
        assert(next =~= all + unshaped(mapping, encoder.last_sign(), frame));
        assert(next.take(all.len() as int) =~= all);
        assert(after.out() =~= next.skip(6 * given));
    } else {
        let parts = all_pieces(mapping, frames, count);
        let longer = all_pieces(mapping, more, count + 1);
        assert(longer =~= parts + pieces(mapping, encoder.turning(), frame));
        lemma_shaped_prefix(parts, longer, rules, rules, rules.len() as int);
        assert(after.pending() =~= longer.skip(rules.len() as int));
        assert(next.take(all.len() as int) =~= all);
    }
    assert forall|n: int| 0 <= n < more.len() implies (#[trigger] more[n]).len()
        == mapping.spec_bits() by {
        if n < count {
            assert(more[n] == frames[n]);
        }
    }
}

/// The rule of the oldest shaping frame joins the run, and its codewords
/// follow those that have come out.
pub proof fn law_a_run_takes_a_rule(
    encoder: Encoder,
    after: Encoder,
    frames: Seq<Seq<bool>>,
    rules: Seq<Rule>,
    given: int,
    rule: Rule,
)
    requires
        encoder.spec_mapping().valid(),
        encoder.spec_mapping().redundancy != 0,
        has_run(encoder, frames, rules, given),
        encoder.pending().len() > 0,
        rule.fits_state(encoder.spec_state()),
        encoder.ruled(rule, after),
    ensures
        has_run(after, frames, rules.push(rule), given),
        goes_on_from(
            sent(encoder.spec_mapping(), frames, rules),
            sent(encoder.spec_mapping(), frames, rules.push(rule)),
        ),
{
    let mapping = encoder.spec_mapping();
    let parts = all_pieces(mapping, frames, frames.len() as int);
    let n = rules.len() as int;
    let next = rules.push(rule);
    lemma_shaped_prefix(parts, parts, rules, next, n);
    assert(encoder.pending()[0] == parts[n]);
    assert(next[n] == rule);
    let all = sent(mapping, frames, rules);
    let longer = sent(mapping, frames, next);
    assert(longer =~= all + parts[n].symbols(rule));
    assert(longer.take(all.len() as int) =~= all);
    assert(after.out() =~= longer.skip(6 * given));
    assert(after.pending() =~= parts.skip(n + 1));
    assert forall|i: int| 0 <= i < next.len() implies (#[trigger] next[i]).fits_state(
        state_after(false, next, i),
    ) by {
        if i < n {
            assert(rules[i].fits_state(state_after(false, rules, i)));
            if i > 0 {
                assert(next[i - 1] == rules[i - 1]);
            }
        } else if i > 0 {
            assert(next[i - 1] == rules[i - 1]);
        }
    }
}

/// What an encoder gives out is the next data frame of the codewords.
pub proof fn law_a_run_gives_its_frames_in_order(
    encoder: Encoder,
    after: Encoder,
    frames: Seq<Seq<bool>>,
    rules: Seq<Rule>,
    given: int,
    frame: Option<[Codeword; 6]>,
)
    requires
        has_run(encoder, frames, rules, given),
        encoder.gave(frame, after),
    ensures
        match frame {
            Some(frame) => frame@ == six(sent(encoder.spec_mapping(), frames, rules), given)
                && has_run(after, frames, rules, given + 1),
            None => has_run(after, frames, rules, given),
        },
{
    let all = sent(encoder.spec_mapping(), frames, rules);
    if frame is Some {
        assert(frame->0@ =~= six(all, given));
        assert(after.out() =~= all.skip(6 * (given + 1)));
    }
}

/// `decoders` are one decoder of `mapping` from its start, before each data
/// frame of the codewords and after the last.
pub open spec fn reads_on(mapping: Mapping, codewords: Seq<Codeword>, decoders: Seq<Decoder>) -> bool {
    &&& decoders.len() >= 1
    &&& 6 * (decoders.len() - 1) <= codewords.len()
    &&& decoders[0].spec_mapping() == mapping
    &&& decoders[0].starts()
    &&& forall|k: int|
        0 <= k < decoders.len() - 1 ==> (#[trigger] decoders[k]).goes_on(
            six(codewords, k),
            decoders[k + 1],
        )
}

/// The codewords of a run of shaping frames are those of its first part, then
/// those of the rest.
proof fn lemma_shaped_parts(parts: Seq<Piece>, rules: Seq<Rule>, from: int, n: int)
    requires
        0 <= from,
        0 <= n,
        from + n <= parts.len(),
        from + n <= rules.len(),
    ensures
        shaped(parts, rules, from + n) == shaped(parts, rules, from) + shaped(
            parts.skip(from),
            rules.skip(from),
            n,
        ),
    decreases n,
{
    if n > 0 {
        lemma_shaped_parts(parts, rules, from, n - 1);
        assert(parts.skip(from)[n - 1] == parts[from + n - 1]);
        assert(rules.skip(from)[n - 1] == rules[from + n - 1]);
        assert(shaped(parts, rules, from + n) =~= shaped(parts, rules, from) + shaped(
            parts.skip(from),
            rules.skip(from),
            n,
        ));
    } else {
        assert(shaped(parts, rules, from) + Seq::<Codeword>::empty() =~= shaped(
            parts,
            rules,
            from,
        ));
    }
}

/// The shaping frames of data frame `k`.
proof fn lemma_pieces_of_frame(mapping: Mapping, frames: Seq<Seq<bool>>, n: int, k: int)
    requires
        mapping.valid(),
        0 <= k < n <= frames.len(),
    ensures
        ({
            let c = per_frame(mapping);
            &&& 0 <= c * k
            &&& c * k + c <= all_pieces(mapping, frames, n).len()
            &&& all_pieces(mapping, frames, n).subrange(c * k, c * k + c) == pieces(
                mapping,
                turning_before(mapping, frames, k),
                frames[k],
            )
        }),
    decreases n,
{
    let c = per_frame(mapping);
    lemma_per_frame(mapping);
    lemma_piece_count(mapping, frames, n);
    lemma_piece_count(mapping, frames, n - 1);
    assert(0 <= c * k && c * k + c <= c * n) by (nonlinear_arith)
        requires
            1 <= c,
            0 <= k < n,
    ;
    let own = pieces(mapping, turning_before(mapping, frames, k), frames[k]);
    let all = all_pieces(mapping, frames, n);
    if k == n - 1 {
        assert(all.subrange(c * k, c * k + c) =~= own);
    } else {
        lemma_pieces_of_frame(mapping, frames, n - 1, k);
        let less = all_pieces(mapping, frames, n - 1);
        assert(all.subrange(c * k, c * k + c) =~= less.subrange(c * k, c * k + c));
    }
}

proof fn lemma_turning_len(mapping: Mapping, frames: Seq<Seq<bool>>, n: int)
    requires
        mapping.valid(),
    ensures
        turning_before(mapping, frames, n).last_t.len() == mapping.spec_shaping_length(),
    decreases n,
{
    if n > 0 {
        lemma_turning_len(mapping, frames, n - 1);
        lemma_turning_length(
            turning_before(mapping, frames, n - 1),
            frames[n - 1].take(mapping.spec_sign_bits()),
            per_frame(mapping),
        );
    }
}

/// Data frame `k` of shaped codewords comes from the shaping frames and the
/// rules of data frame `k`.
proof fn lemma_six_shaped(mapping: Mapping, frames: Seq<Seq<bool>>, rules: Seq<Rule>, k: int)
    requires
        mapping.valid(),
        mapping.redundancy != 0,
        rules.len() <= all_pieces(mapping, frames, frames.len() as int).len(),
        0 <= k,
        6 * k + 6 <= sent(mapping, frames, rules).len(),
    ensures
        ({
            let c = per_frame(mapping);
            &&& k < frames.len()
            &&& 0 <= c * k
            &&& c * k + c <= rules.len()
            &&& six(sent(mapping, frames, rules), k) == shaped(
                pieces(mapping, turning_before(mapping, frames, k), frames[k]),
                rules.subrange(c * k, c * k + c),
                c,
            )
        }),
{
    let c = per_frame(mapping);
    let length = mapping.spec_shaping_length();
    let count = frames.len() as int;
    let parts = all_pieces(mapping, frames, count);
    let n = rules.len() as int;
    let all = sent(mapping, frames, rules);
    lemma_per_frame(mapping);
    lemma_piece_count(mapping, frames, count);
    lemma_shaped(parts, rules, length, n);
    assert(all.len() == length * n);
    assert(c * k + c <= n) by (nonlinear_arith)
        requires
            6 * k + 6 <= length * n,
            c * length == 6,
            length >= 2,
            c >= 1,
    ;
    assert(0 <= c * k && k < count) by (nonlinear_arith)
        requires
            c * k + c <= n,
            n <= c * count,
            c >= 1,
            0 <= k,
    ;
    lemma_pieces_of_frame(mapping, frames, count, k);
    let from = c * k;
    let own = pieces(mapping, turning_before(mapping, frames, k), frames[k]);
    let ours = rules.subrange(from, from + c);
    lemma_shaped_parts(parts, rules, from, c);
    lemma_shaped_parts(parts, rules, from + c, n - from - c);
    lemma_shaped(parts, rules, length, from);
    lemma_shaped(parts, rules, length, from + c);
    assert forall|i: int| 0 <= i < c implies own[i] == parts.skip(from)[i] by {
        assert(parts.subrange(from, from + c)[i] == parts[from + i]);
    }
    assert forall|i: int| 0 <= i < c implies ours[i] == rules.skip(from)[i] by {}
    lemma_shaped_prefix(own, parts.skip(from), ours, rules.skip(from), c);
    assert(length * from == 6 * k && length * (from + c) == 6 * k + 6) by (nonlinear_arith)
        requires
            from == c * k,
            c * length == 6,
    ;
    assert(six(all, k) =~= shaped(own, ours, c));
}

proof fn lemma_six_unshaped(mapping: Mapping, frames: Seq<Seq<bool>>, n: int, k: int)
    requires
        0 <= k < n <= frames.len(),
    ensures
        all_unshaped(mapping, frames, n).len() == 6 * n,
        six(all_unshaped(mapping, frames, n), k) == unshaped(
            mapping,
            sign_before(frames, k),
            frames[k],
        ),
    decreases n,
{
    let all = all_unshaped(mapping, frames, n);
    lemma_unshaped_len(mapping, frames, n);
    lemma_unshaped_len(mapping, frames, n - 1);
    if k == n - 1 {
        assert(six(all, k) =~= unshaped(mapping, sign_before(frames, k), frames[k]));
    } else {
        lemma_six_unshaped(mapping, frames, n - 1, k);
        assert(six(all, k) =~= six(all_unshaped(mapping, frames, n - 1), k));
    }
}

proof fn lemma_unshaped_len(mapping: Mapping, frames: Seq<Seq<bool>>, n: int)
    requires
        0 <= n,
    ensures
        all_unshaped(mapping, frames, n).len() == 6 * n,
    decreases n,
{
    if n > 0 {
        lemma_unshaped_len(mapping, frames, n - 1);
    }
}

/// Before data frame `k`, decoder and encoder agree.
spec fn agrees(
    mapping: Mapping,
    frames: Seq<Seq<bool>>,
    rules: Seq<Rule>,
    decoder: Decoder,
    k: int,
) -> bool {
    let at = per_frame(mapping) * k;
    &&& decoder.spec_mapping() == mapping
    &&& if mapping.redundancy == 0 {
        decoder.last_sign() == sign_before(frames, k)
    } else {
        in_step(
            turning_before(mapping, frames, k),
            state_after(false, rules, at),
            state_before(false, false, rules, at),
            decoder.reading(),
        )
    }
}

proof fn lemma_frame_back(
    mapping: Mapping,
    frames: Seq<Seq<bool>>,
    rules: Seq<Rule>,
    decoder: Decoder,
    after: Decoder,
    k: int,
)
    requires
        mapping.valid(),
        mapping.spec_fits(),
        mapping.labelled(),
        are_frames(mapping, frames),
        mapping.redundancy != 0 ==> rules.len() <= all_pieces(
            mapping,
            frames,
            frames.len() as int,
        ).len() && follows(false, rules),
        0 <= k,
        6 * k + 6 <= sent(mapping, frames, rules).len(),
        agrees(mapping, frames, rules, decoder, k),
        decoder.goes_on(six(sent(mapping, frames, rules), k), after),
    ensures
        k < frames.len(),
        decoder.spec_frame(six(sent(mapping, frames, rules), k)) == frames[k],
        agrees(mapping, frames, rules, after, k + 1),
{
    let all = sent(mapping, frames, rules);
    let codewords = six(all, k);
    let count = frames.len() as int;
    if mapping.redundancy == 0 {
        lemma_unshaped_len(mapping, frames, count);
        lemma_six_unshaped(mapping, frames, count, k);
        assert(frames[k].len() == mapping.spec_bits());
        law_decodes_what_it_encodes_unshaped(mapping, decoder.last_sign(), frames[k]);
    } else {
        lemma_six_shaped(mapping, frames, rules, k);
        let c = per_frame(mapping);
        let from = c * k;
        let ours = rules.subrange(from, from + c);
        let turning = turning_before(mapping, frames, k);
        let state = state_after(false, rules, from);
        let before = state_before(false, false, rules, from);
        lemma_per_frame(mapping);
        lemma_turning_len(mapping, frames, k);
        assert(frames[k].len() == mapping.spec_bits());
        assert forall|n: int| 0 <= n < ours.len() implies (#[trigger] ours[n]).fits_state(
            state_after(state, ours, n),
        ) by {
            assert(rules[from + n].fits_state(state_after(false, rules, from + n)));
            if n > 0 {
                assert(ours[n - 1] == rules[from + n - 1]);
            }
        }
        law_decodes_what_it_encodes(
            mapping,
            turning,
            state,
            before,
            decoder.reading(),
            frames[k],
            ours,
        );
        let next = c * (k + 1);
        assert(next == from + c) by (nonlinear_arith)
            requires
                next == c * (k + 1),
                from == c * k,
        ;
        assert(ours[c - 1] == rules[next - 1]);
        assert(state_after(state, ours, c) == state_after(false, rules, next));
        assert(state_before(state, before, ours, c) == state_before(false, false, rules, next)) by {
            if c > 1 {
                assert(ours[c - 2] == rules[next - 2]);
            }
        }
    }
}

proof fn lemma_agrees(
    mapping: Mapping,
    frames: Seq<Seq<bool>>,
    rules: Seq<Rule>,
    decoders: Seq<Decoder>,
    k: int,
)
    requires
        mapping.valid(),
        mapping.spec_fits(),
        mapping.labelled(),
        are_frames(mapping, frames),
        mapping.redundancy != 0 ==> rules.len() <= all_pieces(
            mapping,
            frames,
            frames.len() as int,
        ).len() && follows(false, rules),
        reads_on(mapping, sent(mapping, frames, rules), decoders),
        0 <= k < decoders.len(),
    ensures
        agrees(mapping, frames, rules, decoders[k], k),
    decreases k,
{
    if k == 0 {
        law_starts_in_step(mapping.spec_shaping_length() as nat);
        assert(per_frame(mapping) * 0 == 0);
    } else {
        lemma_agrees(mapping, frames, rules, decoders, k - 1);
        lemma_frame_back(mapping, frames, rules, decoders[k - 1], decoders[k], k - 1);
    }
}

/// Over a whole run, the decoder gives the data frames back in order, for as
/// far as their codewords have come out: whatever signs the shaper inverts,
/// and however far it looks ahead.
pub proof fn law_decodes_a_whole_run(
    encoder: Encoder,
    frames: Seq<Seq<bool>>,
    rules: Seq<Rule>,
    given: int,
    decoders: Seq<Decoder>,
    k: int,
)
    requires
        encoder.spec_mapping().valid(),
        encoder.spec_mapping().spec_fits(),
        encoder.spec_mapping().labelled(),
        has_run(encoder, frames, rules, given),
        reads_on(
            encoder.spec_mapping(),
            sent(encoder.spec_mapping(), frames, rules),
            decoders,
        ),
        0 <= k < decoders.len() - 1,
    ensures
        k < frames.len(),
        decoders[k].spec_frame(six(sent(encoder.spec_mapping(), frames, rules), k)) == frames[k],
{
    let mapping = encoder.spec_mapping();
    lemma_agrees(mapping, frames, rules, decoders, k);
    assert(decoders[k].goes_on(six(sent(mapping, frames, rules), k), decoders[k + 1]));
    assert(6 * k + 6 <= sent(mapping, frames, rules).len());
    lemma_frame_back(mapping, frames, rules, decoders[k], decoders[k + 1], k);
}

} // verus!

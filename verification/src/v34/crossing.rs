//! That the data given to one end of V.34 comes out at the other, over a line
//! that changes nothing.

use crate::scrambler::{
    descrambled_at, history_after, law_descrambles_what_it_scrambles, law_scrambling_goes_on,
    lemma_scrambles_each, scrambled, scrambling_after, Scrambling,
};
use crate::v34::constellation::{law_figure_5_exists, on_grid, quarter, wide, Point};
use crate::v34::decoder::{carries, lemma_rings_fit};
use crate::v34::encoder::{
    bits_in, coding_before, frame_symbol, group_of, label_of, law_mapping_frames_hold_four_symbols,
    lemma_group_low_bits, lemma_labels_fit, modulo_of, rings_of, symbol_of, Coding, Group,
    Settings,
};
use crate::v34::following::{law_decodes_what_the_encoder_sends, Frame, Run};
use crate::v34::framing::{law_carries_n_bits_in_each_data_frame, law_framings_fit, Framing};
use crate::v34::precoder::{law_no_coefficients_change_nothing, shifted};
use crate::v34::sink::Hearing;
use crate::v34::source::{next_bits, spec_polynomial, Encoding, Lining, Sent};
use crate::v34::viterbi::{Received, Viterbi};
use vstd::arithmetic::power2::pow2;
use vstd::prelude::*;

verus! {

/// The line after `n` mapping frames of data, the first `b1` of them of B1.
pub open spec fn lined(line: Lining, b1: int, n: int) -> Lining
    decreases n,
{
    if n <= 0 {
        line
    } else {
        lined(line, b1, n - 1).with_data(n - 1 < b1)
    }
}

/// The bits of mapping frame `n` before the scrambler.
pub open spec fn frame_bits(line: Lining, b1: int, n: int) -> Seq<bool> {
    let before = lined(line, b1, n);
    let encoding = before.encoding->0;
    next_bits(before.bits, n < b1, bits_in(encoding.framing, encoding.frame) as nat)
}

/// The bits of mapping frame `n` after the scrambler.
pub open spec fn frame_line(line: Lining, b1: int, n: int) -> Seq<bool> {
    scrambled(lined(line, b1, n).scrambling, frame_bits(line, b1, n))
}

/// The bits of the first `n` mapping frames before the scrambler.
pub open spec fn entered(line: Lining, b1: int, n: int) -> Seq<bool>
    decreases n,
{
    if n <= 0 {
        seq![]
    } else {
        entered(line, b1, n - 1) + frame_bits(line, b1, n - 1)
    }
}

/// The bits of the first `n` mapping frames after the scrambler.
pub open spec fn left(line: Lining, b1: int, n: int) -> Seq<bool>
    decreases n,
{
    if n <= 0 {
        seq![]
    } else {
        left(line, b1, n - 1) + frame_line(line, b1, n - 1)
    }
}

/// How many bits the first `n` mapping frames of data mode carry.
pub open spec fn carried(framing: Framing, n: int) -> int
    decreases n,
{
    if n <= 0 {
        0
    } else {
        carried(framing, n - 1) + framing.frame_bits((n - 1) % framing.p as int)
    }
}

/// Data, and ones past the last.
pub open spec fn idle_after(data: Seq<bool>, i: int) -> bool {
    i >= data.len() || data[i]
}

/// Symbol `i` of mapping frame `n`.
pub open spec fn symbol_sent(line: Lining, b1: int, n: int, i: int) -> Sent {
    lined(line, b1, n).encoding->0.symbol(frame_line(line, b1, n), i)
}

/// A symbol as it is received over a line that changes nothing.
pub open spec fn received_as(sent: Sent) -> Received {
    match sent {
        Sent::Data(x) => ((512 * x.0) as i64, (512 * x.1) as i64),
        _ => (0, 0),
    }
}

/// The points of mapping frame `n` as they are received.
pub open spec fn received(line: Lining, b1: int, n: int) -> Seq<Received> {
    Seq::new(8, |i: int| received_as(symbol_sent(line, b1, n, i)))
}

/// What the receiver is after decoded bits.
pub open spec fn hearing_after(hearing: Hearing, bits: Seq<bool>) -> Hearing
    decreases bits.len(),
{
    if bits.len() == 0 {
        hearing
    } else {
        hearing_after(hearing, bits.drop_last()).with_data_line(bits.last())
    }
}

/// The data that decoded bits give.
pub open spec fn data_heard(hearing: Hearing, bits: Seq<bool>) -> Seq<bool>
    decreases bits.len(),
{
    if bits.len() == 0 {
        seq![]
    } else {
        let before = data_heard(hearing, bits.drop_last());
        match hearing_after(hearing, bits.drop_last()).data_of(bits.last()) {
            Some(bit) => before.push(bit),
            None => before,
        }
    }
}

/// The first `n` of `parts`, one after another.
pub open spec fn joined(parts: Seq<Seq<bool>>, n: int) -> Seq<bool>
    decreases n,
{
    if n <= 0 {
        seq![]
    } else {
        joined(parts, n - 1) + parts[n - 1]
    }
}

/// A line about to send B1 and data, without precoding.
pub open spec fn starts(line: Lining, framing: Framing, settings: Settings) -> bool {
    &&& framing.valid()
    &&& settings.precoding@ == seq![(0i16, 0i16), (0i16, 0i16), (0i16, 0i16)]
    &&& line.encoding == Some(Encoding::fresh(framing, settings))
    &&& line.scrambling == Scrambling::fresh(spec_polynomial(line.role))
}

/// Data mode starts so, where the far end has asked for no precoding.
pub proof fn law_data_mode_starts(line: Lining, framing: Framing, settings: Settings)
    requires
        framing.valid(),
        settings.precoding@ == seq![(0i16, 0i16), (0i16, 0i16), (0i16, 0i16)],
    ensures
        starts(line.starting_data(framing, settings), framing, settings),
        line.starting_data(framing, settings).bits == line.bits,
{
}

/// The encoder goes through the mapping frames of a superframe.
proof fn lemma_encoding(line: Lining, framing: Framing, settings: Settings, b1: int, n: int)
    requires
        starts(line, framing, settings),
        n >= 0,
    ensures
        ({
            let after = lined(line, b1, n);
            &&& after.encoding is Some
            &&& after.encoding->0.framing == framing
            &&& after.encoding->0.settings == settings
            &&& after.encoding->0.frame == n % (framing.p * framing.j)
            &&& after.role == line.role
            &&& bits_in(framing, after.encoding->0.frame) == framing.frame_bits(
                n % framing.p as int,
            )
            &&& framing.frame_bits(n % framing.p as int) >= 8
        }),
    decreases n,
{
    law_framings_fit(framing);
    let (p, j) = (framing.p as int, framing.j as int);
    let all = p * j;
    assert(all > 1) by (nonlinear_arith)
        requires
            p >= 12,
            j >= 7,
            all == p * j,
    ;
    vstd::arithmetic::div_mod::lemma_mod_mod(n, p, j);
    law_mapping_frames_hold_four_symbols(framing, n % p);
    if n > 0 {
        lemma_encoding(line, framing, settings, b1, n - 1);
        let m = n - 1;
        vstd::arithmetic::div_mod::lemma_add_mod_noop(m, 1, all);
        vstd::arithmetic::div_mod::lemma_small_mod(1, all as nat);
        assert((m % all + 1) % all == n % all);
    } else {
        vstd::arithmetic::div_mod::lemma_small_mod(0, all as nat);
    }
}

/// The scrambler takes the frames one after another.
proof fn lemma_left(line: Lining, framing: Framing, settings: Settings, b1: int, n: int)
    requires
        starts(line, framing, settings),
        n >= 0,
    ensures
        lined(line, b1, n).scrambling == scrambling_after(line.scrambling, entered(line, b1, n)),
        left(line, b1, n) == scrambled(line.scrambling, entered(line, b1, n)),
        entered(line, b1, n).len() == carried(framing, n),
        carried(framing, n) >= 0,
    decreases n,
{
    if n > 0 {
        lemma_left(line, framing, settings, b1, n - 1);
        lemma_encoding(line, framing, settings, b1, n - 1);
        law_scrambling_goes_on(
            line.scrambling,
            entered(line, b1, n - 1),
            frame_bits(line, b1, n - 1),
        );
    }
}

/// B1 is ones and leaves the data alone, and the frames after it carry the
/// data in order, with ones only past its end.
#[verifier::spinoff_prover]
#[verifier::rlimit(40)]
pub proof fn law_data_enters_in_order(
    line: Lining,
    framing: Framing,
    settings: Settings,
    b1: int,
    n: int,
)
    requires
        starts(line, framing, settings),
        0 <= b1,
        0 <= n,
    ensures
        entered(line, b1, n).len() == carried(framing, n),
        n <= b1 ==> lined(line, b1, n).bits == line.bits,
        n >= b1 ==> {
            let taken = carried(framing, n) - carried(framing, b1);
            &&& taken >= 0
            &&& lined(line, b1, n).bits == if taken <= line.bits.len() {
                line.bits.skip(taken)
            } else {
                seq![]
            }
        },
        forall|i: int|
            0 <= i < entered(line, b1, n).len() ==> #[trigger] entered(line, b1, n)[i] == (i
                < carried(framing, b1) || idle_after(line.bits, i - carried(framing, b1))),
    decreases n,
{
    lemma_left(line, framing, settings, b1, n);
    lemma_left(line, framing, settings, b1, b1);
    if n == 0 {
        if b1 == 0 {
            assert(line.bits.skip(0) =~= line.bits);
        }
    } else {
        law_data_enters_in_order(line, framing, settings, b1, n - 1);
        lemma_left(line, framing, settings, b1, n - 1);
        lemma_encoding(line, framing, settings, b1, n - 1);
        let before = lined(line, b1, n - 1);
        let after = lined(line, b1, n);
        let frame = frame_bits(line, b1, n - 1);
        let old = entered(line, b1, n - 1);
        let start = carried(framing, b1);
        if n <= b1 {
            lemma_carried_grows(framing, n, b1);
            if n == b1 {
                assert(line.bits.skip(0) =~= line.bits);
            }
        } else {
            let taken = carried(framing, n - 1) - start;
            let more = frame.len() as int;
            assert(carried(framing, n) == carried(framing, n - 1) + more);
            if taken <= line.bits.len() {
                assert(before.bits == line.bits.skip(taken));
                if taken + more <= line.bits.len() {
                    assert(before.bits.skip(more) =~= line.bits.skip(taken + more));
                }
            }
            if taken + more == line.bits.len() {
                assert(line.bits.skip(taken + more) =~= Seq::<bool>::empty());
            }
            assert(after.bits =~= if taken + more <= line.bits.len() {
                line.bits.skip(taken + more)
            } else {
                seq![]
            });
        }
        assert forall|i: int| 0 <= i < entered(line, b1, n).len() implies #[trigger] entered(
            line,
            b1,
            n,
        )[i] == (i < start || idle_after(line.bits, i - start)) by {
            if i < old.len() {
                assert(entered(line, b1, n)[i] == old[i]);
            } else {
                let k = i - old.len();
                assert(entered(line, b1, n)[i] == frame[k]);
                if n > b1 {
                    let taken = carried(framing, n - 1) - start;
                    assert(i - start == taken + k);
                }
            }
        }
    }
}

proof fn lemma_carried_grows(framing: Framing, n: int, more: int)
    requires
        framing.valid(),
        0 <= n <= more,
    ensures
        0 <= carried(framing, n) <= carried(framing, more),
    decreases more,
{
    law_framings_fit(framing);
    if more > 0 {
        law_mapping_frames_hold_four_symbols(framing, (more - 1) % framing.p as int);
        if n < more {
            lemma_carried_grows(framing, n, more - 1);
        } else {
            lemma_carried_grows(framing, n - 1, more - 1);
        }
    }
}

/// The first data frame carries N bits, which the receiver skips as B1.
proof fn lemma_b1_is_skipped(framing: Framing)
    requires
        framing.valid(),
    ensures
        carried(framing, framing.p as int) == framing.p * framing.b - (framing.p - framing.r),
        0 <= carried(framing, framing.p as int) <= 16 * 79,
{
    law_framings_fit(framing);
    lemma_carried_before(framing, framing.p as int);
    law_carries_n_bits_in_each_data_frame(framing);
    let (p, b, r) = (framing.p as int, framing.b as int, framing.r as int);
    assert((b - 1) * p + r == p * b - (p - r)) by (nonlinear_arith);
    lemma_carried_grows(framing, 0, p);
    lemma_carried_most(framing, p);
    assert(p * b <= 16 * 79) by (nonlinear_arith)
        requires
            0 <= p <= 16,
            0 <= b <= 79,
    ;
}

proof fn lemma_carried_most(framing: Framing, n: int)
    requires
        framing.valid(),
        0 <= n,
    ensures
        carried(framing, n) <= n * framing.b,
    decreases n,
{
    if n > 0 {
        lemma_carried_most(framing, n - 1);
        assert((n - 1) * framing.b + framing.b == n * framing.b) by (nonlinear_arith);
    }
}

proof fn lemma_carried_before(framing: Framing, n: int)
    requires
        framing.valid(),
        0 <= n <= framing.p,
    ensures
        carried(framing, n) == framing.bits_before(n),
    decreases n,
{
    if n > 0 {
        lemma_carried_before(framing, n - 1);
        vstd::arithmetic::div_mod::lemma_small_mod((n - 1) as nat, framing.p as nat);
    }
}

/// The receiver descrambles each decoded bit past those it skips.
proof fn lemma_heard(hearing: Hearing, bits: Seq<bool>)
    ensures
        ({
            let polynomial = spec_polynomial(hearing.ear.far_role);
            let after = hearing_after(hearing, bits);
            let skip = hearing.ear.skip_bits as int;
            &&& after.ear.far_role == hearing.ear.far_role
            &&& after.data_history == history_after(polynomial, hearing.data_history, bits)
            &&& after.ear.skip_bits == if bits.len() < skip {
                skip - bits.len()
            } else {
                0
            }
            &&& data_heard(hearing, bits).len() == if bits.len() < skip {
                0
            } else {
                bits.len() - skip
            }
            &&& forall|i: int|
                0 <= i < data_heard(hearing, bits).len() ==> #[trigger] data_heard(hearing, bits)[i]
                    == descrambled_at(polynomial, hearing.data_history, bits, i + skip)
        }),
    decreases bits.len(),
{
    if bits.len() > 0 {
        let less = bits.drop_last();
        lemma_heard(hearing, less);
        let skip = hearing.ear.skip_bits as int;
        let polynomial = spec_polynomial(hearing.ear.far_role);
        assert forall|i: int| 0 <= i < data_heard(hearing, bits).len() implies #[trigger] data_heard(
            hearing,
            bits,
        )[i] == descrambled_at(polynomial, hearing.data_history, bits, i + skip) by {
            assert(bits.take(i + skip) =~= less.take(i + skip));
            if i + skip < less.len() {
                assert(data_heard(hearing, bits)[i] == data_heard(hearing, less)[i]);
            } else {
                assert(less.take(less.len() as int) =~= less);
            }
        }
    }
}

/// Without precoding, what is sent for a 4D symbol is its two points.
proof fn lemma_symbol_points(
    framing: Framing,
    settings: Settings,
    coding: Coding,
    m: int,
    group: Group,
    rings: (u8, u8),
)
    requires
        framing.valid(),
        settings.precoding@ == seq![(0i16, 0i16), (0i16, 0i16), (0i16, 0i16)],
        coding.history.len() == 3,
        group.q.0 < pow2(framing.q as nat),
        group.q.1 < pow2(framing.q as nat),
        rings.0 < framing.rings,
        rings.1 < framing.rings,
    ensures
        ({
            let symbol = symbol_of(framing, settings, coding, m, group, rings);
            &&& -49 <= symbol.first.0 <= 49 && -49 <= symbol.first.1 <= 49
            &&& -49 <= symbol.second.0 <= 49 && -49 <= symbol.second.1 <= 49
            &&& symbol.x_first == (128 * symbol.first.0, 128 * symbol.first.1)
            &&& symbol.x_second == (128 * symbol.second.0, 128 * symbol.second.1)
            &&& symbol.coding.history.len() == 3
        }),
{
    reveal(symbol_of);
    let h = settings.precoding;
    let modulo = modulo_of(framing);
    let symbol = symbol_of(framing, settings, coding, m, group, rings);
    law_no_coefficients_change_nothing(coding.history, h, modulo, symbol.first);
    let between = shifted(coding.history, symbol.x_first);
    law_no_coefficients_change_nothing(between, h, modulo, symbol.second);
    let first = label_of(framing.q, group.q.0, rings.0);
    let second = label_of(framing.q, group.q.1, rings.1);
    lemma_labels_fit(framing, group.q.0, rings.0);
    lemma_labels_fit(framing, group.q.1, rings.1);
    law_figure_5_exists();
    assert(on_grid(quarter()[first]) && on_grid(quarter()[second]));
}

proof fn lemma_history_of_three(
    framing: Framing,
    settings: Settings,
    coding: Coding,
    frame: int,
    bits: Seq<bool>,
    j: int,
)
    requires
        coding.history.len() == 3,
    ensures
        coding_before(framing, settings, coding, frame, bits, j).history.len() == 3,
{
    if j > 0 {
        reveal(symbol_of);
    }
}

/// The two points of 4D symbol `j` of a mapping frame.
pub open spec fn points_at(
    framing: Framing,
    settings: Settings,
    coding: Coding,
    frame: int,
    bits: Seq<bool>,
    j: int,
) -> (Point, Point) {
    let symbol = frame_symbol(framing, settings, coding, frame, bits, j);
    (
        (symbol.first.0 as i32, symbol.first.1 as i32),
        (symbol.second.0 as i32, symbol.second.1 as i32),
    )
}

/// What is sent in the first `n` mapping frames.
pub open spec fn run_of(line: Lining, b1: int, n: int) -> Run {
    let encoding = line.encoding->0;
    Run {
        framing: encoding.framing,
        settings: encoding.settings,
        start: encoding.coding,
        frames: Seq::new(
            n as nat,
            |k: int|
                {
                    let before = lined(line, b1, k).encoding->0;
                    let bits = frame_line(line, b1, k);
                    Frame {
                        bits,
                        points: Seq::new(
                            4,
                            |j: int|
                                points_at(
                                    before.framing,
                                    before.settings,
                                    before.coding,
                                    before.frame,
                                    bits,
                                    j,
                                ),
                        ),
                    }
                },
        ),
    }
}

proof fn lemma_run_coding(
    line: Lining,
    framing: Framing,
    settings: Settings,
    b1: int,
    n: int,
    k: int,
)
    requires
        starts(line, framing, settings),
        0 <= k <= n,
    ensures
        run_of(line, b1, n).coding(k) == lined(line, b1, k).encoding->0.coding,
        lined(line, b1, k).encoding->0.coding.history.len() == 3,
    decreases k,
{
    lemma_encoding(line, framing, settings, b1, k);
    if k > 0 {
        lemma_run_coding(line, framing, settings, b1, n, k - 1);
        lemma_encoding(line, framing, settings, b1, k - 1);
        let run = run_of(line, b1, n);
        let before = lined(line, b1, k - 1).encoding->0;
        assert(run.frames[k - 1].bits == frame_line(line, b1, k - 1));
        lemma_history_of_three(
            framing,
            settings,
            before.coding,
            before.frame,
            frame_line(line, b1, k - 1),
            4,
        );
    }
}

/// Frame `k` carries its bits, and its symbols are its points.
proof fn lemma_frame_is_sent(
    line: Lining,
    framing: Framing,
    settings: Settings,
    b1: int,
    n: int,
    k: int,
)
    requires
        starts(line, framing, settings),
        0 <= k < n,
    ensures
        ({
            let run = run_of(line, b1, n);
            let superframe = framing.p * framing.j;
            &&& run.frames[k].bits.len() == bits_in(framing, k % superframe)
            &&& carries(
                framing,
                settings,
                run.coding(k),
                k % superframe,
                run.frames[k].bits,
                run.frames[k].points,
            )
            &&& run.received(k) == received(line, b1, k)
        }),
{
    let run = run_of(line, b1, n);
    lemma_encoding(line, framing, settings, b1, k);
    lemma_run_coding(line, framing, settings, b1, n, k);
    lemma_left(line, framing, settings, b1, k);
    let before = lined(line, b1, k).encoding->0;
    let bits = frame_line(line, b1, k);
    lemma_fresh(line.role);
    lemma_scrambles_each(line.scrambling, entered(line, b1, k));
    lemma_scrambles_each(lined(line, b1, k).scrambling, frame_bits(line, b1, k));
    law_framings_fit(framing);
    law_mapping_frames_hold_four_symbols(framing, k % framing.p as int);
    lemma_rings_fit(framing, bits);
    let rings = rings_of(framing, bits);
    let points = run.frames[k].points;
    assert forall|j: int| 0 <= j < 4 implies {
        let symbol = #[trigger] frame_symbol(
            framing,
            settings,
            before.coding,
            before.frame,
            bits,
            j,
        );
        &&& wide(points[j].0) == symbol.first && wide(points[j].1) == symbol.second
        &&& -49 <= points[j].0.0 <= 49 && -49 <= points[j].0.1 <= 49
        &&& -49 <= points[j].1.0 <= 49 && -49 <= points[j].1.1 <= 49
        &&& symbol.x_first == (128 * symbol.first.0, 128 * symbol.first.1)
        &&& symbol.x_second == (128 * symbol.second.0, 128 * symbol.second.1)
    } by {
        lemma_group_low_bits(framing, bits, j);
        lemma_history_of_three(framing, settings, before.coding, before.frame, bits, j);
        assert(rings[2 * j] < framing.rings && rings[2 * j + 1] < framing.rings);
        lemma_symbol_points(
            framing,
            settings,
            coding_before(framing, settings, before.coding, before.frame, bits, j),
            4 * before.frame + j,
            group_of(framing, bits, j),
            (rings[2 * j], rings[2 * j + 1]),
        );
    }
    assert forall|i: int| 0 <= i < 8 implies #[trigger] run.received(k)[i] == received(
        line,
        b1,
        k,
    )[i] by {
        let j = i / 2;
        let symbol = frame_symbol(framing, settings, before.coding, before.frame, bits, j);
        assert(0 <= j < 4);
        assert(wide(points[j].0) == symbol.first);
    }
    assert(run.received(k) =~= received(line, b1, k));
}

proof fn lemma_fresh(role: crate::pump::Role)
    ensures
        Scrambling::fresh(spec_polynomial(role)).valid(),
{
}

proof fn lemma_run_is_sent(line: Lining, framing: Framing, settings: Settings, b1: int, n: int)
    requires
        starts(line, framing, settings),
        0 <= n,
    ensures
        run_of(line, b1, n).is_sent(),
{
    reveal(Run::is_sent);
    let run = run_of(line, b1, n);
    assert(run.superframe() == framing.p * framing.j);
    assert forall|k: int|
        #![trigger run.frames[k]]
        0 <= k < run.frames.len() implies {
        &&& run.frames[k].bits.len() == bits_in(framing, k % run.superframe())
        &&& carries(
            framing,
            settings,
            run.coding(k),
            k % run.superframe(),
            run.frames[k].bits,
            run.frames[k].points,
        )
    } by {
        lemma_frame_is_sent(line, framing, settings, b1, n, k);
    }
}

proof fn lemma_joined(line: Lining, b1: int, outs: Seq<Seq<bool>>, n: int)
    requires
        0 <= n <= outs.len(),
        forall|k: int|
            0 <= k < outs.len() ==> #[trigger] outs[k] == if k < 6 {
                Seq::<bool>::empty()
            } else {
                frame_line(line, b1, k - 6)
            },
    ensures
        joined(outs, n) == left(line, b1, n - 6),
    decreases n,
{
    if n > 0 {
        lemma_joined(line, b1, outs, n - 1);
        if n <= 6 {
            assert(joined(outs, n - 1) + outs[n - 1] =~= Seq::<bool>::empty());
        }
    }
}

/// What is given to one end for data mode comes out at the other in order,
/// once B1 is over and but for the last six mapping frames, with ones only
/// past the last of it. The line carries the symbols as they are, without
/// precoding, and `viterbis` are the decoder before each mapping frame.
pub proof fn law_data_crosses(
    line: Lining,
    framing: Framing,
    settings: Settings,
    hearing: Hearing,
    viterbis: Seq<Viterbi>,
    outs: Seq<Seq<bool>>,
)
    requires
        starts(line, framing, settings),
        hearing.ear.far_role == line.role,
        viterbis.len() == outs.len() + 1,
        viterbis[0].is_fresh(framing, settings.trellis),
        forall|k: int|
            0 <= k < outs.len() ==> (#[trigger] viterbis[k]).takes_frame(
                received(line, framing.p as int, k),
                outs[k],
                viterbis[k + 1],
            ),
    ensures
        ({
            let heard = data_heard(hearing.starting_data(framing), joined(outs, outs.len() as int));
            let came = carried(framing, outs.len() - 6) - carried(framing, framing.p as int);
            &&& heard.len() == if came < 0 {
                0
            } else {
                came
            }
            &&& forall|i: int| 0 <= i < heard.len() ==> #[trigger] heard[i] == idle_after(line.bits, i)
        }),
{
    let n = outs.len() as int;
    let p = framing.p as int;
    let run = run_of(line, p, n);
    lemma_run_is_sent(line, framing, settings, p, n);
    assert forall|k: int| 0 <= k < run.frames.len() implies (#[trigger] viterbis[k]).takes_frame(
        run.received(k),
        outs[k],
        viterbis[k + 1],
    ) by {
        lemma_frame_is_sent(line, framing, settings, p, n, k);
    }
    law_decodes_what_the_encoder_sends(run, viterbis, outs, n);
    assert forall|k: int| 0 <= k < outs.len() implies #[trigger] outs[k] == if k < 6 {
        Seq::<bool>::empty()
    } else {
        frame_line(line, p, k - 6)
    } by {}
    lemma_joined(line, p, outs, n);
    let came = if n < 6 {
        0
    } else {
        n - 6
    };
    let bits = joined(outs, n);
    assert(bits == left(line, p, came));
    assert(carried(framing, n - 6) == carried(framing, came));
    lemma_left(line, framing, settings, p, came);
    law_data_enters_in_order(line, framing, settings, p, came);
    let all = entered(line, p, came);
    lemma_fresh(line.role);
    lemma_scrambles_each(line.scrambling, all);
    lemma_b1_is_skipped(framing);
    let fresh = hearing.starting_data(framing);
    lemma_heard(fresh, bits);
    let skip = carried(framing, p);
    assert(fresh.ear.skip_bits == skip);
    let heard = data_heard(fresh, bits);
    assert forall|i: int| 0 <= i < heard.len() implies #[trigger] heard[i] == idle_after(
        line.bits,
        i,
    ) by {
        law_descrambles_what_it_scrambles(line.scrambling, all, i + skip);
        assert(fresh.data_history == line.scrambling.history);
        assert(all[i + skip] == idle_after(line.bits, i));
    }
}

} // verus!

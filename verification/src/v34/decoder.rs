//! The data mode decoder: the search over the trellis of § 9.6.3, then the
//! inverse of the mapper, the differential encoder, the shell mapper and the
//! parser. It takes points with no precoding and Θ = 0.

use crate::v34::bits::{
    field_bits, law_writes_back_what_it_reads, lemma_field_bits_len, lemma_field_bits_of_low, value_of,
    Writer,
};
use crate::v34::constellation::{
    law_labels_every_point_of_all_four_quarters, names, wide, Constellation, Point,
};
use crate::v34::encoder::{
    carries_i3, coding_before, frame_symbol, group_of, group_start, inversion, label_of,
    lemma_group_low_bits, lemma_groups_fit, lemma_labels_fit, lemma_r0_fits,
    law_mapping_frames_hold_four_symbols, next_quadrant, one_if, parses, r0_of, rings_of,
    shell_bits, small_power, spec_inversion, turned_point, Coding, Group, Settings,
};
use crate::v34::framing::{law_framings_fit, Framing};
use crate::v34::mp::Trellis;
use crate::v34::precoder::law_no_coefficients_change_nothing;
use crate::v34::shell::{law_numbers_every_shell, shell, shell_rank, ShellMapper};
use crate::v34::trellis::{inputs, odd, spec_inputs, spec_subset};
use std::collections::VecDeque;
use vstd::arithmetic::power2::pow2;
use vstd::prelude::*;

verus! {

/// 4D symbols a decision waits for.
pub const DEPTH: usize = 24;

/// The key of a path that cannot be.
pub const NO_PATH: u64 = 0x7FF0_0000_0000_0000;

/// Subsets of figure 9 are these points plus four times the checkerboard.
pub open spec fn spec_representative(label: int) -> (int, int) {
    if label == 0 {
        (1, 1)
    } else if label == 1 {
        (1, -1)
    } else if label == 2 {
        (-1, -1)
    } else if label == 3 {
        (-1, 1)
    } else if label == 4 {
        (-3, 1)
    } else if label == 5 {
        (1, 3)
    } else if label == 6 {
        (3, -1)
    } else {
        (-1, -3)
    }
}

/// Subsets of figure 9 are these points plus four times the checkerboard.
#[must_use]
pub fn representative(label: u8) -> (point: Point)
    requires
        label < 8,
    ensures
        wide(point) == spec_representative(label as int),
        spec_subset(wide(point)) == label,
        odd(wide(point)),
        -3 <= point.0 <= 3,
        -3 <= point.1 <= 3,
{
    match label {
        0 => (1, 1),
        1 => (1, -1),
        2 => (-1, -1),
        3 => (-1, 1),
        4 => (-3, 1),
        5 => (1, 3),
        6 => (3, -1),
        _ => (-1, -3),
    }
}

/// Four more turn a remainder by 8 of an odd number into the other one.
proof fn lemma_four_more(x: int, i: int)
    requires
        x % 2 == 1,
    ensures
        i % 2 == 0 ==> (x + 4 * i) % 8 == x % 8,
        i % 2 == 1 ==> (x + 4 * i) % 8 == (if x % 8 < 4 {
            x % 8 + 4
        } else {
            x % 8 - 4
        }),
{
    let q = x / 8;
    let r = x % 8;
    let m = i / 2;
    assert(x == 8 * q + r);
    if i % 2 == 0 {
        vstd::arithmetic::div_mod::lemma_fundamental_div_mod_converse(x + 4 * i, 8, q + m, r);
    } else if r < 4 {
        vstd::arithmetic::div_mod::lemma_fundamental_div_mod_converse(x + 4 * i, 8, q + m, r + 4);
    } else {
        vstd::arithmetic::div_mod::lemma_fundamental_div_mod_converse(
            x + 4 * i,
            8,
            q + m + 1,
            r - 4,
        );
    }
}

/// A step of four on the checkerboard keeps the subset.
#[verifier::rlimit(40)]
#[verifier::spinoff_prover]
pub proof fn law_the_checkerboard_keeps_the_subset(p: (int, int), i: int, j: int)
    requires
        (i + j) % 2 == 0,
        odd(p),
    ensures
        spec_subset((p.0 + 4 * i, p.1 + 4 * j)) == spec_subset(p),
        odd((p.0 + 4 * i, p.1 + 4 * j)),
{
    lemma_four_more(p.0, i);
    lemma_four_more(p.1, j);
    let (x, y) = (p.0 % 8, p.1 % 8);
    assert(x == 1 || x == 3 || x == 5 || x == 7);
    assert(y == 1 || y == 3 || y == 5 || y == 7);
    assert(i % 2 == j % 2);
}

/// One way into a state: from which state, and by which points.
#[derive(Debug, Clone, Copy)]
pub struct Survivor {
    pub from: u8,
    pub points: (Point, Point),
}

/// Branch 64 · state + 8 · first + second goes from `state` by points of the
/// subsets `first` and `second`, if the code allows it.
#[verifier::opaque]
pub open spec fn allowed(trellis: Trellis, inverted: bool, branch: int) -> bool {
    let (state, first, second) = (branch / 64, branch / 8 % 8, branch % 8);
    0 <= branch < 64 * trellis.spec_states() && ((first % 2 != second % 2) == (trellis.spec_output(
        state as u8,
    ) != inverted))
}

/// The state that `branch` leads to.
#[verifier::opaque]
pub open spec fn leads_to(trellis: Trellis, branch: int) -> nat {
    let (state, first, second) = (branch / 64, branch / 8 % 8, branch % 8);
    trellis.spec_next(state as u8, spec_inputs(first as u8, second as u8) as u8)
}

/// `branch` is one of the first `n`, and a way into `state`.
pub open spec fn enters(trellis: Trellis, inverted: bool, branch: int, state: int, n: int) -> bool {
    0 <= branch < n && allowed(trellis, inverted, branch) && leads_to(trellis, branch) == state
}

/// Of the first `n` branches into `state`, `chosen` is the one with the
/// smallest key, the first of equals, and there is one unless all their keys
/// are `NO_PATH` or more.
pub open spec fn best_branch(
    trellis: Trellis,
    inverted: bool,
    keys: Seq<u64>,
    state: int,
    chosen: Option<usize>,
    n: int,
) -> bool {
    match chosen {
        Some(best) => {
            &&& enters(trellis, inverted, best as int, state, n)
            &&& keys[best as int] < NO_PATH
            &&& forall|other: int| #[trigger]
                enters(trellis, inverted, other, state, n) ==> keys[best as int] < keys[other] || (
                keys[best as int] == keys[other] && best <= other)
        },
        None => forall|other: int| #[trigger]
            enters(trellis, inverted, other, state, n) ==> keys[other] >= NO_PATH,
    }
}

proof fn lemma_one_more_branch(
    trellis: Trellis,
    inverted: bool,
    keys: Seq<u64>,
    state: int,
    chosen: Option<usize>,
    branch: usize,
)
    requires
        best_branch(trellis, inverted, keys, state, chosen, branch as int),
    ensures
        best_branch(
            trellis,
            inverted,
            keys,
            state,
            if allowed(trellis, inverted, branch as int) && leads_to(trellis, branch as int) == state
                && keys[branch as int] < key_of(keys, chosen) {
                Some(branch)
            } else {
                chosen
            },
            branch + 1,
        ),
{
    assert forall|other: int| #[trigger]
        enters(trellis, inverted, other, state, branch + 1) implies enters(
        trellis,
        inverted,
        other,
        state,
        branch as int,
    ) || other == branch by {}
}

/// The survivor that `chosen` leaves, by the points that stand for each
/// subset.
pub open spec fn survivor_of(
    chosen: Option<usize>,
    first: Seq<Point>,
    second: Seq<Point>,
) -> Survivor {
    match chosen {
        Some(branch) => Survivor {
            from: (branch / 64) as u8,
            points: (first[branch as int / 8 % 8], second[branch as int % 8]),
        },
        None => Survivor { from: 0, points: ((1, 1), (1, 1)) },
    }
}

/// The oldest survivor on the path that ends in `state`.
pub open spec fn trace(survivors: Seq<Seq<Survivor>>, state: u8) -> Survivor
    decreases survivors.len(),
{
    let last = survivors.last()[state as int];
    if survivors.len() <= 1 {
        last
    } else {
        trace(survivors.drop_last(), last.from)
    }
}

/// The key of a state: that of its survivor's branch.
pub open spec fn key_of(keys: Seq<u64>, chosen: Option<usize>) -> u64 {
    match chosen {
        Some(branch) => keys[branch as int],
        None => NO_PATH,
    }
}

/// `state` has the smallest key, and is the first that has.
pub open spec fn best_state(keys: Seq<u64>, chosen: Seq<Option<usize>>, state: int) -> bool {
    &&& 0 <= state < chosen.len()
    &&& forall|other: int|
        0 <= other < chosen.len() ==> key_of(keys, chosen[state]) < key_of(
            keys,
            #[trigger] chosen[other],
        ) || (key_of(keys, chosen[state]) == key_of(keys, chosen[other]) && state <= other)
}

/// The label and turns of a point, or those of the first point for one that
/// is not in the superconstellation.
pub open spec fn named(p: Point) -> (int, int) {
    if exists|label: int, turns: int| names(label, turns, p) {
        choose|name: (int, int)| names(name.0, name.1, p)
    } else {
        (0, 0)
    }
}

proof fn lemma_named(p: Point, label: int, turns: int)
    requires
        names(label, turns, p),
    ensures
        named(p) == (label, turns),
{
    let name = (label, turns);
    assert(names(name.0, name.1, p));
    let found = named(p);
    law_labels_every_point_of_all_four_quarters(label, turns, found.0, found.1, p);
}

/// The ring of a label, at most the outermost.
pub open spec fn ring_of(framing: Framing, label: int) -> u8 {
    let ring = label / pow2(framing.q as nat) as int;
    if ring < framing.rings {
        ring as u8
    } else {
        (framing.rings - 1) as u8
    }
}

/// What the points of a 4D symbol carry besides their rings, after a symbol
/// that left Z at `quadrant`.
pub open spec fn group_in(framing: Framing, quadrant: int, points: (Point, Point)) -> Group {
    let (first, first_turns) = named(points.0);
    let (second, second_turns) = named(points.1);
    let i = (4 + first_turns - quadrant) % 4;
    let power = pow2(framing.q as nat) as int;
    Group {
        i1: (4 + second_turns - first_turns) % 4 >= 2,
        i2: i % 2 == 1,
        i3: i >= 2,
        q: ((first % power) as usize, (second % power) as usize),
    }
}

/// Z before 4D symbol `j` of a mapping frame.
pub open spec fn quadrant_before(quadrant: int, points: Seq<(Point, Point)>, j: int) -> int {
    if j == 0 {
        quadrant
    } else {
        named(points[j - 1].0).1
    }
}

/// The rings of the first `j` 4D symbols.
pub open spec fn rings_in(framing: Framing, points: Seq<(Point, Point)>) -> Seq<u8> {
    Seq::new(
        8,
        |i: int|
            ring_of(
                framing,
                named(
                    if i % 2 == 0 {
                        points[i / 2].0
                    } else {
                        points[i / 2].1
                    },
                ).0,
            ),
    )
}

/// The bits that 4D symbol `j` carries, of a mapping frame of `bits`.
pub open spec fn group_bits(framing: Framing, bits: int, j: int, group: Group) -> Seq<bool> {
    let i = if carries_i3(framing, bits, j) {
        seq![group.i1, group.i2, group.i3]
    } else {
        seq![group.i1, group.i2]
    };
    i + field_bits(group.q.0 as nat, framing.q as nat) + field_bits(
        group.q.1 as nat,
        framing.q as nat,
    )
}

/// The bits up to those of 4D symbol `j`, of a mapping frame of `bits`.
pub open spec fn unparsed(framing: Framing, bits: int, r0: nat, groups: spec_fn(int) -> Group, j: int) -> Seq<
    bool,
>
    decreases j,
{
    if j <= 0 {
        field_bits(r0, shell_bits(framing, bits) as nat)
    } else {
        unparsed(framing, bits, r0, groups, j - 1) + group_bits(framing, bits, j - 1, groups(j - 1))
    }
}

/// What each 4D symbol of a mapping frame carries.
pub open spec fn groups_in(framing: Framing, quadrant: int, points: Seq<(Point, Point)>) -> spec_fn(
    int,
) -> Group {
    |j: int| group_in(framing, quadrant_before(quadrant, points, j), points[j])
}

/// The bits of a mapping frame of `bits`, from its points.
pub open spec fn unmapped(
    framing: Framing,
    bits: int,
    quadrant: int,
    points: Seq<(Point, Point)>,
) -> Seq<bool> {
    let r0 = if framing.b <= 12 {
        0
    } else {
        shell_rank(framing.rings as int, rings_in(framing, points)) as nat
    };
    unparsed(framing, bits, r0, groups_in(framing, quadrant, points), 4)
}

/// What § 9.3 puts into each 4D symbol.
pub open spec fn groups_of(framing: Framing, bits: Seq<bool>) -> spec_fn(int) -> Group {
    |j: int| group_of(framing, bits, j)
}

proof fn lemma_unparsed(framing: Framing, bits: Seq<bool>, j: int)
    requires
        framing.valid(),
        parses(framing, bits.len() as int),
        0 <= j <= 4,
    ensures
        unparsed(
            framing,
            bits.len() as int,
            r0_of(framing, bits) as nat,
            groups_of(framing, bits),
            j,
        ) == bits.take(group_start(framing, bits.len() as int, j)),
    decreases j,
{
    let n = bits.len() as int;
    law_framings_fit(framing);
    lemma_groups_fit(framing, n, 0);
    let width = shell_bits(framing, n);
    if j == 0 {
        law_writes_back_what_it_reads(bits.take(width));
    } else {
        lemma_unparsed(framing, bits, j - 1);
        lemma_groups_fit(framing, n, j - 1);
        let at = group_start(framing, n, j - 1);
        let group = group_of(framing, bits, j - 1);
        let q = framing.q as int;
        if framing.b > 12 {
            let low = bits.subrange(at + 3, at + 3 + q);
            let high = bits.subrange(at + 3 + q, at + 3 + 2 * q);
            lemma_group_low_bits(framing, bits, j - 1);
            law_writes_back_what_it_reads(low);
            law_writes_back_what_it_reads(high);
            crate::v34::encoder::lemma_small_value(low, q as nat);
            crate::v34::encoder::lemma_small_value(high, q as nat);
            assert(group_bits(framing, n, j - 1, group) =~= bits.subrange(at, at + 3 + 2 * q));
        } else {
            lemma_field_bits_len(0, 0);
            assert(field_bits(0, 0) =~= Seq::<bool>::empty());
            let length = if carries_i3(framing, n, j - 1) {
                3int
            } else {
                2int
            };
            assert(group_bits(framing, n, j - 1, group) =~= bits.subrange(at, at + length));
        }
        let end = group_start(framing, n, j);
        assert(bits.take(at) + bits.subrange(at, end) =~= bits.take(end));
    }
}

/// Putting the bits of a mapping frame together again undoes § 9.3.
pub proof fn law_unparses_what_it_parses(framing: Framing, bits: Seq<bool>)
    requires
        framing.valid(),
        parses(framing, bits.len() as int),
    ensures
        unparsed(
            framing,
            bits.len() as int,
            r0_of(framing, bits) as nat,
            groups_of(framing, bits),
            4,
        ) == bits,
{
    lemma_unparsed(framing, bits, 4);
    lemma_groups_fit(framing, bits.len() as int, 0);
    assert(bits.take(bits.len() as int) =~= bits);
}

/// The points of a mapping frame, as the encoder sends them.
pub open spec fn carries(
    framing: Framing,
    settings: Settings,
    coding: Coding,
    frame: int,
    bits: Seq<bool>,
    points: Seq<(Point, Point)>,
) -> bool {
    points.len() == 4 && forall|j: int|
        0 <= j < 4 ==> {
            let symbol = #[trigger] frame_symbol(framing, settings, coding, frame, bits, j);
            wide(points[j].0) == symbol.first && wide(points[j].1) == symbol.second
        }
}

proof fn lemma_label_splits(framing: Framing, low: usize, ring: u8)
    requires
        framing.valid(),
        low < pow2(framing.q as nat),
        ring < framing.rings,
    ensures
        ring_of(framing, label_of(framing.q, low, ring)) == ring,
        label_of(framing.q, low, ring) % (pow2(framing.q as nat) as int) == low,
{
    vstd::arithmetic::power2::lemma_pow2_pos(framing.q as nat);
    let power = pow2(framing.q as nat) as int;
    let r = ring as int;
    assert(r * power == power * r) by (nonlinear_arith);
    vstd::arithmetic::div_mod::lemma_fundamental_div_mod_converse(
        low + r * power,
        power,
        r,
        low as int,
    );
}

/// The names of the two points of a 4D symbol sent without precoding, and
/// what they carry.
#[verifier::spinoff_prover]
#[verifier::rlimit(40)]
proof fn lemma_symbol_unmaps(
    framing: Framing,
    settings: Settings,
    coding: Coding,
    m: int,
    group: Group,
    rings: (u8, u8),
    points: (Point, Point),
)
    requires
        framing.valid(),
        settings.precoding@ == seq![(0i16, 0i16), (0i16, 0i16), (0i16, 0i16)],
        0 <= coding.quadrant < 4,
        coding.history.len() == 3,
        group.q.0 < pow2(framing.q as nat),
        group.q.1 < pow2(framing.q as nat),
        rings.0 < framing.rings,
        rings.1 < framing.rings,
        ({
            let symbol = crate::v34::encoder::symbol_of(framing, settings, coding, m, group, rings);
            wide(points.0) == symbol.first && wide(points.1) == symbol.second
        }),
    ensures
        named(points.0).1 == next_quadrant(coding.quadrant, group),
        ring_of(framing, named(points.0).0) == rings.0,
        ring_of(framing, named(points.1).0) == rings.1,
        group_in(framing, coding.quadrant, points) == group,
{
    reveal(crate::v34::encoder::symbol_of);
    let h = settings.precoding;
    let modulo = crate::v34::encoder::modulo_of(framing);
    let symbol = crate::v34::encoder::symbol_of(framing, settings, coding, m, group, rings);
    let quadrant = next_quadrant(coding.quadrant, group);
    law_no_coefficients_change_nothing(coding.history, h, modulo, symbol.first);
    let between = crate::v34::precoder::shifted(coding.history, symbol.x_first);
    law_no_coefficients_change_nothing(between, h, modulo, symbol.second);
    let first = label_of(framing.q, group.q.0, rings.0);
    let second = label_of(framing.q, group.q.1, rings.1);
    lemma_labels_fit(framing, group.q.0, rings.0);
    lemma_labels_fit(framing, group.q.1, rings.1);
    lemma_label_splits(framing, group.q.0, rings.0);
    lemma_label_splits(framing, group.q.1, rings.1);
    let c0 = false;
    let u0 = (settings.trellis.spec_output(coding.state) != c0) != spec_inversion(framing, m);
    let turns = quadrant + 2 * one_if(group.i1) + one_if(u0);
    assert(symbol.first == turned_point(first, quadrant));
    assert(symbol.second == turned_point(second, turns));
    assert(turned_point(second, turns) == turned_point(second, turns % 4));
    lemma_named(points.0, first, quadrant);
    lemma_named(points.1, second, turns % 4);
}

pub(crate) proof fn lemma_frame_unmaps(
    framing: Framing,
    settings: Settings,
    coding: Coding,
    frame: int,
    bits: Seq<bool>,
    points: Seq<(Point, Point)>,
    j: int,
)
    requires
        framing.valid(),
        settings.precoding@ == seq![(0i16, 0i16), (0i16, 0i16), (0i16, 0i16)],
        0 <= coding.quadrant < 4,
        coding.history.len() == 3,
        parses(framing, bits.len() as int),
        carries(framing, settings, coding, frame, bits, points),
        0 <= j <= 4,
    ensures
        ({
            let before = coding_before(framing, settings, coding, frame, bits, j);
            &&& before.quadrant == quadrant_before(coding.quadrant, points, j)
            &&& 0 <= before.quadrant < 4
            &&& before.history.len() == 3
        }),
        forall|i: int| 0 <= i < 2 * j ==> #[trigger] rings_in(framing, points)[i] == rings_of(framing, bits)[i],
        forall|i: int|
            0 <= i < j ==> #[trigger] groups_in(framing, coding.quadrant, points)(i) == group_of(
                framing,
                bits,
                i,
            ),
    decreases j,
{
    if j > 0 {
        let i = j - 1;
        lemma_frame_unmaps(framing, settings, coding, frame, bits, points, i);
        reveal(crate::v34::encoder::symbol_of);
        let symbol = frame_symbol(framing, settings, coding, frame, bits, i);
        let before = coding_before(framing, settings, coding, frame, bits, i);
        let rings = rings_of(framing, bits);
        lemma_rings_fit(framing, bits);
        lemma_group_low_bits(framing, bits, i);
        assert(rings[2 * i] < framing.rings && rings[2 * i + 1] < framing.rings);
        lemma_symbol_unmaps(
            framing,
            settings,
            before,
            4 * frame + i,
            group_of(framing, bits, i),
            (rings[2 * i], rings[2 * i + 1]),
            points[i],
        );
        let found = rings_in(framing, points);
        assert forall|k: int| 0 <= k < 2 * j implies #[trigger] found[k] == rings[k] by {
            if k == 2 * i {
                assert(k / 2 == i && k % 2 == 0);
            } else if k == 2 * i + 1 {
                assert(k / 2 == i && k % 2 == 1);
            }
        }
    }
}

pub(crate) proof fn lemma_rings_fit(framing: Framing, bits: Seq<bool>)
    requires
        framing.valid(),
        parses(framing, bits.len() as int),
    ensures
        rings_of(framing, bits).len() == 8,
        forall|i: int| 0 <= i < 8 ==> #[trigger] rings_of(framing, bits)[i] < framing.rings,
        framing.b > 12 ==> shell_rank(framing.rings as int, rings_of(framing, bits)) == r0_of(
            framing,
            bits,
        ),
{
    law_framings_fit(framing);
    if framing.b > 12 {
        lemma_r0_fits(framing, bits);
        law_numbers_every_shell(framing.rings as int, r0_of(framing, bits));
    }
}

/// The points of a mapping frame sent without precoding give its bits back,
/// to a decoder whose Z is the encoder's, and leave both with one Z again.
pub proof fn law_unmaps_what_the_encoder_maps(
    framing: Framing,
    settings: Settings,
    coding: Coding,
    frame: int,
    bits: Seq<bool>,
    points: Seq<(Point, Point)>,
)
    requires
        framing.valid(),
        settings.precoding@ == seq![(0i16, 0i16), (0i16, 0i16), (0i16, 0i16)],
        0 <= coding.quadrant < 4,
        coding.history.len() == 3,
        parses(framing, bits.len() as int),
        carries(framing, settings, coding, frame, bits, points),
    ensures
        unmapped(framing, bits.len() as int, coding.quadrant, points) == bits,
        quadrant_before(coding.quadrant, points, 4) == coding_before(
            framing,
            settings,
            coding,
            frame,
            bits,
            4,
        ).quadrant,
{
    lemma_frame_unmaps(framing, settings, coding, frame, bits, points, 4);
    lemma_rings_fit(framing, bits);
    law_unparses_what_it_parses(framing, bits);
    let n = bits.len() as int;
    assert(rings_in(framing, points) =~= rings_of(framing, bits));
    let r0 = if framing.b <= 12 {
        0
    } else {
        shell_rank(framing.rings as int, rings_in(framing, points)) as nat
    };
    assert(r0 == r0_of(framing, bits) as nat) by {
        if framing.b <= 12 {
            reveal(value_of);
            assert(bits.take(0) =~= Seq::<bool>::empty());
        }
    }
    lemma_unparsed_congruent(
        framing,
        n,
        r0,
        groups_in(framing, coding.quadrant, points),
        groups_of(framing, bits),
        4,
    );
}

proof fn lemma_unparsed_congruent(
    framing: Framing,
    bits: int,
    r0: nat,
    groups: spec_fn(int) -> Group,
    others: spec_fn(int) -> Group,
    j: int,
)
    requires
        forall|i: int| 0 <= i < j ==> #[trigger] groups(i) == others(i),
    ensures
        unparsed(framing, bits, r0, groups, j) == unparsed(framing, bits, r0, others, j),
    decreases j,
{
    if j > 0 {
        lemma_unparsed_congruent(framing, bits, r0, groups, others, j - 1);
        assert(groups(j - 1) == others(j - 1));
    }
}

/// A point whose turns can be told.
pub open spec fn turnable(p: Point) -> bool {
    p.0 > i32::MIN && p.1 > i32::MIN
}

pub open spec fn all_turnable(points: Seq<Point>) -> bool {
    forall|i: int| 0 <= i < points.len() ==> turnable(#[trigger] points[i])
}

/// The state that `chosen` leaves in front.
pub open spec fn front(keys: Seq<u64>, chosen: Seq<Option<usize>>) -> int {
    choose|state: int| best_state(keys, chosen, state)
}

/// Turns received points back into data bits, `DEPTH` 4D symbols late.
#[derive(Debug)]
pub struct Decoder {
    framing: Framing,
    shell: ShellMapper,
    constellation: Constellation,
    trellis: Trellis,
    survivors: VecDeque<Vec<Survivor>>,
    // 4D symbols of the superframe, B1 being its last data frame.
    received: usize,
    decided: Vec<(Point, Point)>,
    // Mapping frames of the data frame.
    frames_out: usize,
    quadrant: u8,
}

impl Decoder {
    pub closed spec fn framing(self) -> Framing {
        self.framing
    }

    pub closed spec fn trellis(self) -> Trellis {
        self.trellis
    }

    /// The survivors of each 4D symbol that waits for a decision.
    pub closed spec fn survivors(self) -> Seq<Seq<Survivor>> {
        Seq::new(self.survivors@.len(), |t: int| self.survivors@[t]@)
    }

    /// The 4D symbol to come, of a superframe.
    pub closed spec fn received(self) -> int {
        self.received as int
    }

    /// The points decided on, of a mapping frame that is not whole yet.
    pub closed spec fn decided(self) -> Seq<(Point, Point)> {
        self.decided@
    }

    /// The mapping frame that those points are of, within its data frame.
    pub closed spec fn frame(self) -> int {
        self.frames_out as int
    }

    /// Z of the differential encoder.
    pub closed spec fn quadrant(self) -> int {
        self.quadrant as int
    }

    pub closed spec fn valid(self) -> bool {
        &&& self.framing.valid()
        &&& self.shell.valid()
        &&& self.shell.m() == self.framing.rings
        &&& self.constellation.valid()
        &&& self.survivors@.len() <= DEPTH
        &&& forall|t: int|
            0 <= t < self.survivors@.len() ==> survivors_fit(
                self.trellis,
                #[trigger] self.survivors@[t],
            )
        &&& self.received < 4 * self.framing.p * self.framing.j
        &&& self.decided@.len() < 4
        &&& forall|i: int|
            0 <= i < self.decided@.len() ==> turnable((#[trigger] self.decided@[i]).0) && turnable(
                self.decided@[i].1,
            )
        &&& self.frames_out < self.framing.p
        &&& self.quadrant < 4
    }

    /// Starting with the first mapping frame of B1, in state 0.
    #[must_use]
    pub fn new(framing: Framing, trellis: Trellis) -> (decoder: Self)
        requires
            framing.valid(),
        ensures
            decoder.valid(),
            decoder.framing() == framing,
            decoder.trellis() == trellis,
            decoder.survivors() == Seq::<Seq<Survivor>>::empty(),
            decoder.received() == 0,
            decoder.decided() == Seq::<(Point, Point)>::empty(),
            decoder.frame() == 0,
            decoder.quadrant() == 0,
    {
        proof {
            law_framings_fit(framing);
            lemma_superframe(framing);
        }
        Self {
            shell: ShellMapper::new(framing.rings),
            constellation: Constellation::new(),
            framing,
            trellis,
            survivors: VecDeque::new(),
            received: 0,
            decided: Vec::new(),
            frames_out: 0,
            quadrant: 0,
        }
    }

    /// Whether the trellis inverts Y0 in the 4D symbol to come.
    #[must_use]
    pub fn inverted(&self) -> (inverted: bool)
        requires
            self.valid(),
        ensures
            inverted == spec_inversion(self.framing(), self.received()),
    {
        inversion(&self.framing, self.received)
    }

    /// The best branch into each state, by the keys of the paths that end
    /// with each branch.
    fn select(&self, keys: &[u64]) -> (chosen: Vec<Option<usize>>)
        requires
            self.valid(),
            keys.len() == 64 * self.trellis.spec_states(),
        ensures
            chosen.len() == self.trellis.spec_states(),
            forall|state: int|
                0 <= state < chosen.len() ==> best_branch(
                    self.trellis,
                    spec_inversion(self.framing, self.received as int),
                    keys@,
                    state,
                    #[trigger] chosen[state],
                    keys.len() as int,
                ),
    {
        let trellis = self.trellis;
        let inverted = self.inverted();
        let states = trellis.states();
        proof {
            crate::v34::trellis::law_stays_within_its_states(trellis, 0, 0);
        }
        let mut chosen: Vec<Option<usize>> = Vec::new();
        while chosen.len() < states
            invariant
                chosen.len() <= states,
                forall|state: int| 0 <= state < chosen.len() ==> chosen[state] is None,
            decreases states - chosen.len(),
        {
            chosen.push(None);
        }
        let mut branch: usize = 0;
        while branch < keys.len()
            invariant
                branch <= keys.len(),
                keys.len() == 64 * states,
                states == trellis.spec_states(),
                states <= 64,
                chosen.len() == states,
                forall|state: int|
                    0 <= state < chosen.len() ==> best_branch(
                        trellis,
                        inverted,
                        keys@,
                        state,
                        #[trigger] chosen[state],
                        branch as int,
                    ),
            decreases keys.len() - branch,
        {
            let state = (branch / 64) as u8;
            let first = (branch / 8 % 8) as u8;
            let second = (branch % 8) as u8;
            let parity = trellis.output(state) != inverted;
            let legal = (first % 2 != second % 2) == parity;
            assert(legal == allowed(trellis, inverted, branch as int)) by {
                reveal(allowed);
            }
            let next = trellis.next(state, inputs(first, second)) as usize;
            assert(next == leads_to(trellis, branch as int)) by {
                reveal(leads_to);
            }
            let ghost before = chosen@;
            if legal {
                let key = keys[branch];
                let best = match chosen[next] {
                    Some(found) => keys[found],
                    None => NO_PATH,
                };
                if key < best {
                    chosen.set(next, Some(branch));
                }
            }
            proof {
                assert forall|state: int| 0 <= state < chosen.len() implies best_branch(
                    trellis,
                    inverted,
                    keys@,
                    state,
                    #[trigger] chosen[state],
                    branch + 1,
                ) by {
                    lemma_one_more_branch(
                        trellis,
                        inverted,
                        keys@,
                        state,
                        before[state],
                        branch,
                    );
                }
            }
            branch += 1;
        }
        chosen
    }

    fn front_state(&self, keys: &[u64], chosen: &Vec<Option<usize>>) -> (state: u8)
        requires
            0 < chosen.len() <= 64,
            forall|i: int|
                0 <= i < chosen.len() ==> (#[trigger] chosen[i] matches Some(branch) ==> branch
                    < keys.len()),
        ensures
            state == front(keys@, chosen@),
            state < chosen.len(),
    {
        let mut state: u8 = 0;
        let mut best = match chosen[0] {
            Some(branch) => keys[branch],
            None => NO_PATH,
        };
        let mut n: u8 = 1;
        while (n as usize) < chosen.len()
            invariant
                0 < n <= chosen.len() <= 64,
                state < n,
                best == key_of(keys@, chosen@[state as int]),
                forall|i: int|
                    0 <= i < chosen.len() ==> (#[trigger] chosen[i] matches Some(branch) ==> branch
                        < keys.len()),
                forall|other: int|
                    0 <= other < n ==> best < key_of(keys@, #[trigger] chosen@[other]) || (best
                        == key_of(keys@, chosen@[other]) && state <= other),
            decreases chosen.len() - n,
        {
            let key = match chosen[n as usize] {
                Some(branch) => keys[branch],
                None => NO_PATH,
            };
            if key < best {
                best = key;
                state = n;
            }
            n += 1;
        }
        proof {
            assert(best_state(keys@, chosen@, state as int));
            let other = front(keys@, chosen@);
            assert(best_state(keys@, chosen@, other));
            assert(chosen@[state as int] == chosen[state as int] && chosen@[other]
                == chosen[other]);
        }
        state
    }

    fn trace_back(&self, end: u8) -> (decision: (Point, Point))
        requires
            self.survivors@.len() > 0,
            forall|t: int|
                0 <= t < self.survivors@.len() ==> survivors_fit(
                    self.trellis,
                    #[trigger] self.survivors@[t],
                ),
            end < self.trellis.spec_states(),
        ensures
            decision == trace(self.survivors(), end).points,
            turnable(decision.0),
            turnable(decision.1),
    {
        let mut state = end;
        let mut left: usize = self.survivors.len();
        let mut decision = ((1, 1), (1, 1));
        let ghost path = self.survivors();
        assert(path.take(left as int) =~= path);
        while left > 0
            invariant
                path == self.survivors(),
                left <= self.survivors@.len(),
                forall|t: int|
                    0 <= t < self.survivors@.len() ==> survivors_fit(
                        self.trellis,
                        #[trigger] self.survivors@[t],
                    ),
                state < self.trellis.spec_states(),
                left > 0 ==> trace(path.take(left as int), state) == trace(path, end),
                left == 0 ==> decision == trace(path, end).points,
                turnable(decision.0),
                turnable(decision.1),
            decreases left,
        {
            left -= 1;
            proof {
                assert(path.take(left + 1).drop_last() =~= path.take(left as int));
                assert(path.take(left + 1).last() == self.survivors@[left as int]@);
                assert(survivors_fit(self.trellis, self.survivors@[left as int]));
            }
            let survivor = self.survivors[left][state as usize];
            assert(fits(self.trellis, self.survivors@[left as int][state as int]));
            decision = survivor.points;
            state = survivor.from;
        }
        decision
    }

    /// One 4D symbol leaves `next`: `chosen` survives into each state, and
    /// `bits` are those of a mapping frame once all its points are decided
    /// on.
    pub open spec fn steps(
        self,
        first: Seq<Point>,
        second: Seq<Point>,
        keys: Seq<u64>,
        chosen: Seq<Option<usize>>,
        bits: Seq<bool>,
        next: Self,
    ) -> bool {
        let survivors = self.survivors().push(survivors_of(chosen, first, second));
        let decision = trace(survivors, front(keys, chosen) as u8).points;
        let decided = self.decided().push(decision);
        &&& next.framing() == self.framing()
        &&& next.trellis() == self.trellis()
        &&& next.received() == (self.received() + 1) % (4 * self.framing().p * self.framing().j)
        &&& chosen.len() == self.trellis().spec_states()
        &&& forall|state: int|
            0 <= state < chosen.len() ==> best_branch(
                self.trellis(),
                spec_inversion(self.framing(), self.received()),
                keys,
                state,
                #[trigger] chosen[state],
                keys.len() as int,
            )
        &&& if survivors.len() <= DEPTH {
            &&& next.survivors() == survivors
            &&& next.same_output(self)
            &&& bits == Seq::<bool>::empty()
        } else if decided.len() < 4 {
            &&& next.survivors() == survivors.skip(1)
            &&& next.decided() == decided
            &&& next.frame() == self.frame()
            &&& next.quadrant() == self.quadrant()
            &&& bits == Seq::<bool>::empty()
        } else {
            &&& next.survivors() == survivors.skip(1)
            &&& next.decided() == Seq::<(Point, Point)>::empty()
            &&& next.frame() == (self.frame() + 1) % self.framing().p as int
            &&& next.quadrant() == named(decision.0).1
            &&& bits == unmapped(
                self.framing(),
                self.framing().frame_bits(self.frame()),
                self.quadrant(),
                decided,
            )
        }
    }

    /// Takes one 4D symbol: for each subset the nearest of its points to each
    /// of the two received, and for each branch the key of the best path that
    /// ends with it, smaller for a better one. Gives the branch that survives
    /// into each state, and the bits of a mapping frame once all its points
    /// are decided on.
    pub fn step(&mut self, first: &[Point; 8], second: &[Point; 8], keys: &[u64]) -> (out: (
        Vec<Option<usize>>,
        Vec<bool>,
    ))
        requires
            old(self).valid(),
            all_turnable(first@),
            all_turnable(second@),
            keys.len() == 64 * old(self).trellis().spec_states(),
        ensures
            final(self).valid(),
            old(self).steps(first@, second@, keys@, out.0@, out.1@, *final(self)),
    {
        let ghost before = *self;
        let chosen = self.select(keys);
        proof {
            crate::v34::trellis::law_stays_within_its_states(self.trellis, 0, 0);
            law_framings_fit(self.framing);
            lemma_superframe(self.framing);
            assert forall|i: int| 0 <= i < chosen.len() implies (#[trigger] chosen[i] matches Some(
                branch,
            ) ==> branch < keys.len()) by {}
        }
        let newest = newest_survivors(self.trellis, &chosen, first, second, Ghost(keys.len() as int));
        let ghost pushed = self.survivors().push(newest@);
        assert(newest@ =~= survivors_of(chosen@, first@, second@));
        self.survivors.push_back(newest);
        assert(self.survivors() =~= pushed);
        self.received = (self.received + 1) % (4 * self.framing.p * self.framing.j);
        if self.survivors.len() <= DEPTH {
            return (chosen, Vec::new());
        }
        let end = self.front_state(keys, &chosen);
        let decision = self.trace_back(end);
        let _oldest = self.survivors.pop_front();
        assert(self.survivors() =~= pushed.skip(1));
        self.decided.push(decision);
        assert(self.decided@ == before.decided@.push(decision));
        if self.decided.len() < 4 {
            return (chosen, Vec::new());
        }
        let bits = self.unmap();
        assert(self.survivors() =~= pushed.skip(1));
        (chosen, bits)
    }

    /// Nothing but the survivors and the symbol counter changed.
    pub open spec fn same_output(self, other: Self) -> bool {
        &&& self.decided() == other.decided()
        &&& self.frame() == other.frame()
        &&& self.quadrant() == other.quadrant()
    }

    /// All of `valid` but that the mapping frame is not whole.
    spec fn ready(self) -> bool {
        &&& self.framing.valid()
        &&& self.shell.valid()
        &&& self.shell.m() == self.framing.rings
        &&& self.constellation.valid()
        &&& self.decided@.len() == 4
        &&& forall|i: int|
            0 <= i < self.decided@.len() ==> turnable((#[trigger] self.decided@[i]).0) && turnable(
                self.decided@[i].1,
            )
        &&& self.frames_out < self.framing.p
        &&& self.quadrant < 4
    }

    /// The bits of the mapping frame whose points are all decided on.
    fn unmap(&mut self) -> (bits: Vec<bool>)
        requires
            old(self).ready(),
        ensures
            final(self).framing == old(self).framing,
            final(self).shell == old(self).shell,
            final(self).constellation == old(self).constellation,
            final(self).trellis == old(self).trellis,
            final(self).survivors == old(self).survivors,
            final(self).received == old(self).received,
            final(self).decided@ == Seq::<(Point, Point)>::empty(),
            final(self).frames_out == (old(self).frames_out + 1) % old(self).framing.p as int,
            final(self).quadrant == named(old(self).decided@[3].0).1,
            final(self).quadrant < 4,
            bits@ == unmapped(
                old(self).framing,
                old(self).framing.frame_bits(old(self).frames_out as int),
                old(self).quadrant as int,
                old(self).decided@,
            ),
    {
        let ghost before = *self;
        let ghost points = self.decided@;
        let framing = self.framing;
        proof {
            law_framings_fit(framing);
            law_mapping_frames_hold_four_symbols(framing, self.frames_out as int);
            let f = self.frames_out as int;
            let r = framing.r as int;
            assert((f + 1) * r <= 17 * 16) by (nonlinear_arith)
                requires
                    0 <= f < 16,
                    0 <= r <= 16,
            ;
        }
        let total: usize = if framing.high(self.frames_out) {
            framing.b
        } else {
            framing.b - 1
        };
        self.frames_out = (self.frames_out + 1) % framing.p;
        let mut rings: Vec<u8> = Vec::new();
        let mut groups: Vec<Group> = Vec::new();
        let mut j: usize = 0;
        while j < 4
            invariant
                j <= 4,
                before.ready(),
                points == before.decided@,
                self.decided@ == points,
                self.framing == framing,
                before.framing == framing,
                self.shell == before.shell,
                self.constellation == before.constellation,
                self.trellis == before.trellis,
                self.survivors == before.survivors,
                self.received == before.received,
                self.frames_out == (before.frames_out + 1) % framing.p as int,
                self.quadrant < 4,
                self.quadrant == quadrant_before(before.quadrant as int, points, j as int),
                rings.len() == 2 * j,
                groups.len() == j,
                forall|i: int| 0 <= i < 2 * j ==> #[trigger] rings[i] == rings_in(framing, points)[i],
                forall|i: int| 0 <= i < 2 * j ==> #[trigger] rings[i] < framing.rings,
                forall|i: int|
                    0 <= i < j ==> #[trigger] groups[i] == groups_in(
                        framing,
                        before.quadrant as int,
                        points,
                    )(i),
            decreases 4 - j,
        {
            let (first_point, second_point) = self.decided[j];
            assert(turnable(points[j as int].0) && turnable(points[j as int].1));
            let (first, first_turns) = self.name(first_point);
            let (second, second_turns) = self.name(second_point);
            let i: u8 = (4 + first_turns - self.quadrant) % 4;
            let (first_ring, first_low) = self.split(first);
            let (second_ring, second_low) = self.split(second);
            rings.push(first_ring);
            rings.push(second_ring);
            groups.push(
                Group {
                    i1: (4 + second_turns - first_turns) % 4 >= 2,
                    i2: i % 2 == 1,
                    i3: i >= 2,
                    q: (first_low, second_low),
                },
            );
            self.quadrant = first_turns;
            proof {
                let found = rings_in(framing, points);
                assert((2 * j) / 2 == j && (2 * j) % 2 == 0);
                assert((2 * j + 1) / 2 == j && (2 * j + 1) % 2 == 1);
                assert(found[2 * j as int] == first_ring);
                assert(found[2 * j as int + 1] == second_ring);
            }
            j += 1;
        }
        self.decided.clear();
        self.unparse(
            total,
            rings,
            groups,
            Ghost(groups_in(framing, before.quadrant as int, points)),
            Ghost(points),
        )
    }

    /// The bits of a mapping frame of `total`, from its rings and its groups.
    fn unparse(
        &self,
        total: usize,
        rings: Vec<u8>,
        groups: Vec<Group>,
        Ghost(carried): Ghost<spec_fn(int) -> Group>,
        Ghost(points): Ghost<Seq<(Point, Point)>>,
    ) -> (bits: Vec<bool>)
        requires
            self.framing.valid(),
            self.shell.valid(),
            self.shell.m() == self.framing.rings,
            parses(self.framing, total as int),
            rings.len() == 8,
            groups.len() == 4,
            forall|i: int| 0 <= i < 8 ==> #[trigger] rings[i] == rings_in(self.framing, points)[i],
            forall|i: int| 0 <= i < 8 ==> #[trigger] rings[i] < self.framing.rings,
            forall|i: int| 0 <= i < 4 ==> #[trigger] groups[i] == carried(i),
        ensures
            bits@ == unparsed(
                self.framing,
                total as int,
                if self.framing.b <= 12 {
                    0
                } else {
                    shell_rank(self.framing.rings as int, rings_in(self.framing, points)) as nat
                },
                carried,
                4,
            ),
    {
        let framing = self.framing;
        proof {
            law_framings_fit(framing);
            lemma_groups_fit(framing, total as int, 0);
        }
        let mut writer = Writer::default();
        let ghost mut r0: nat = 0;
        if framing.b > 12 {
            let eight: [u8; 8] = [
                rings[0],
                rings[1],
                rings[2],
                rings[3],
                rings[4],
                rings[5],
                rings[6],
                rings[7],
            ];
            assert(eight@ =~= rings@);
            assert(eight@ =~= rings_in(framing, points));
            assert(shell(framing.rings as int, eight@));
            let number = self.shell.unmap(eight);
            proof {
                r0 = number as nat;
            }
            let shell_bits = if total == framing.b {
                framing.k
            } else {
                framing.k - 1
            };
            // Bits above the 32nd are beyond what a frame carries.
            let low: u32 = (number % 0x1_0000_0000) as u32;
            proof {
                lemma_low_field(r0, shell_bits as nat);
            }
            writer.field(low, shell_bits as u32);
        }
        proof {
            lemma_field_bits_len(r0, shell_bits(framing, total as int) as nat);
        }
        assert(writer.bits@ =~= field_bits(r0, shell_bits(framing, total as int) as nat));
        let mut j: usize = 0;
        while j < 4
            invariant
                j <= 4,
                framing.valid(),
                framing.q <= 5,
                groups.len() == 4,
                parses(framing, total as int),
                forall|i: int| 0 <= i < 4 ==> #[trigger] groups[i] == carried(i),
                writer.bits@ == unparsed(framing, total as int, r0, carried, j as int),
            decreases 4 - j,
        {
            let group = groups[j];
            assert(group == carried(j as int));
            write_group(&mut writer, &framing, total, j, group);
            j += 1;
        }
        writer.bits
    }

    fn name(&self, point: Point) -> (name: (usize, u8))
        requires
            self.constellation.valid(),
            turnable(point),
        ensures
            (name.0 as int, name.1 as int) == named(point),
            name.0 < 416,
            name.1 < 4,
    {
        match self.constellation.label(point) {
            Some(name) => {
                proof {
                    lemma_named(point, name.0 as int, name.1 as int);
                }
                name
            },
            None => (0, 0),
        }
    }

    /// The ring and the rest of a label.
    fn split(&self, label: usize) -> (parts: (u8, usize))
        requires
            self.framing.valid(),
            label < 416,
        ensures
            parts.0 == ring_of(self.framing, label as int),
            parts.0 < self.framing.rings,
            parts.1 == label as int % pow2(self.framing.q as nat) as int,
    {
        proof {
            law_framings_fit(self.framing);
            vstd::arithmetic::power2::lemma_pow2_pos(self.framing.q as nat);
        }
        let power = small_power(self.framing.q);
        let ring: usize = label / power;
        let outermost = self.framing.rings - 1;
        (
            if ring < self.framing.rings as usize {
                ring as u8
            } else {
                outermost
            },
            label % power,
        )
    }
}

fn write_group(writer: &mut Writer, framing: &Framing, total: usize, j: usize, group: Group)
    requires
        framing.q <= 5,
        parses(*framing, total as int),
    ensures
        final(writer).bits@ == old(writer).bits@ + group_bits(
            *framing,
            total as int,
            j as int,
            group,
        ),
{
    proof {
        lemma_low_field(group.q.0 as nat, framing.q as nat);
        lemma_low_field(group.q.1 as nat, framing.q as nat);
    }
    let ghost start = writer.bits@;
    writer.flag(group.i1);
    writer.flag(group.i2);
    if framing.b > 12 || j < total - 8 {
        writer.flag(group.i3);
    }
    let ghost flags = if carries_i3(*framing, total as int, j as int) {
        seq![group.i1, group.i2, group.i3]
    } else {
        seq![group.i1, group.i2]
    };
    assert(writer.bits@ =~= start + flags);
    writer.field((group.q.0 % 0x1_0000) as u32, framing.q as u32);
    writer.field((group.q.1 % 0x1_0000) as u32, framing.q as u32);
    assert(writer.bits@ =~= start + group_bits(*framing, total as int, j as int, group));
}

proof fn lemma_low_field(value: nat, width: nat)
    requires
        width <= 32,
    ensures
        field_bits(value % 0x1_0000_0000, width) == field_bits(value, width),
        width <= 16 ==> field_bits(value % 0x1_0000, width) == field_bits(value, width),
{
    vstd::arithmetic::power2::lemma2_to64();
    lemma_field_bits_of_low(value, 32, width);
    if width <= 16 {
        lemma_field_bits_of_low(value, 16, width);
    }
}

/// A survivor that a step of the search may leave.
pub open spec fn fits(trellis: Trellis, survivor: Survivor) -> bool {
    &&& survivor.from < trellis.spec_states()
    &&& turnable(survivor.points.0)
    &&& turnable(survivor.points.1)
}

/// One survivor for each state.
pub open spec fn survivors_fit(trellis: Trellis, survivors: Vec<Survivor>) -> bool {
    survivors.len() == trellis.spec_states() && forall|i: int|
        0 <= i < survivors.len() ==> fits(trellis, #[trigger] survivors[i])
}

/// The survivors that `chosen` leaves.
pub open spec fn survivors_of(
    chosen: Seq<Option<usize>>,
    first: Seq<Point>,
    second: Seq<Point>,
) -> Seq<Survivor> {
    Seq::new(chosen.len(), |i: int| survivor_of(chosen[i], first, second))
}

fn newest_survivors(
    trellis: Trellis,
    chosen: &Vec<Option<usize>>,
    first: &[Point; 8],
    second: &[Point; 8],
    Ghost(branches): Ghost<int>,
) -> (newest: Vec<Survivor>)
    requires
        all_turnable(first@),
        all_turnable(second@),
        chosen.len() == trellis.spec_states(),
        trellis.spec_states() <= 64,
        branches == 64 * trellis.spec_states(),
        forall|i: int|
            0 <= i < chosen.len() ==> (#[trigger] chosen[i] matches Some(branch) ==> branch < branches),
    ensures
        newest@ == survivors_of(chosen@, first@, second@),
        survivors_fit(trellis, newest),
{
    let mut newest: Vec<Survivor> = Vec::new();
    let mut i: usize = 0;
    while i < chosen.len()
        invariant
            i <= chosen.len(),
            newest.len() == i,
            all_turnable(first@),
            all_turnable(second@),
            chosen.len() == trellis.spec_states(),
            trellis.spec_states() <= 64,
            branches == 64 * trellis.spec_states(),
            forall|k: int|
                0 <= k < chosen.len() ==> (#[trigger] chosen[k] matches Some(branch) ==> branch
                    < branches),
            forall|k: int|
                0 <= k < i ==> #[trigger] newest[k] == survivor_of(chosen[k], first@, second@),
            forall|k: int| 0 <= k < i ==> fits(trellis, #[trigger] newest[k]),
        decreases chosen.len() - i,
    {
        let survivor = match chosen[i] {
            Some(branch) => {
                let (a, b) = (branch / 8 % 8, branch % 8);
                assert(turnable(first@[a as int]) && turnable(second@[b as int]));
                assert(branch as int / 64 < trellis.spec_states());
                Survivor { from: (branch / 64) as u8, points: (first[a], second[b]) }
            },
            None => Survivor { from: 0, points: ((1, 1), (1, 1)) },
        };
        newest.push(survivor);
        i += 1;
    }
    newest
}

proof fn lemma_superframe(framing: Framing)
    requires
        framing.valid(),
    ensures
        0 < 4 * framing.p * framing.j <= 512,
{
    law_framings_fit(framing);
    let p = framing.p as int;
    let j = framing.j as int;
    assert(0 < 4 * p * j <= 512) by (nonlinear_arith)
        requires
            12 <= p <= 16,
            7 <= j <= 8,
    ;
}

/// A branch leaves a state by a point of one subset and a point of another.
/// The subsets have opposite parities where the trellis encoder gives a 1 in
/// that state, or a 0 with C0 inverted, and their inputs lead to the next.
pub proof fn law_branches_keep_the_parity_of_their_state(
    trellis: Trellis,
    inverted: bool,
    state: u8,
    first: u8,
    second: u8,
)
    requires
        state < trellis.spec_states(),
        first < 8,
        second < 8,
    ensures
        ({
            let branch = 64 * state + 8 * first + second;
            let opposite = (first + second) % 2 == 1;
            &&& !inverted ==> (allowed(trellis, inverted, branch) <==> opposite == trellis.spec_output(state))
            &&& inverted ==> (allowed(trellis, inverted, branch) <==> opposite != trellis.spec_output(state))
            &&& leads_to(trellis, branch) == trellis.spec_next(state, spec_inputs(first, second) as u8)
        }),
{
    reveal(allowed);
    reveal(leads_to);
    let branch = 64 * state + 8 * first + second;
    assert(branch / 64 == state && branch / 8 % 8 == first && branch % 8 == second);
}

/// No way into a state is better than the one that survives, and of equally
/// good ones the first does.
pub proof fn law_the_best_branch_survives(
    trellis: Trellis,
    inverted: bool,
    keys: Seq<u64>,
    state: int,
    chosen: Option<usize>,
    branch: int,
    first: Seq<Point>,
    second: Seq<Point>,
)
    requires
        best_branch(trellis, inverted, keys, state, chosen, keys.len() as int),
        0 <= branch < keys.len(),
        allowed(trellis, inverted, branch),
        leads_to(trellis, branch) == state,
        keys[branch] < 0x7FF0_0000_0000_0000,
    ensures
        chosen is Some,
        allowed(trellis, inverted, chosen->0 as int) && leads_to(trellis, chosen->0 as int) == state,
        keys[chosen->0 as int] <= keys[branch],
        keys[chosen->0 as int] == keys[branch] ==> chosen->0 <= branch,
        64 * trellis.spec_states() <= 16_384 ==> survivor_of(chosen, first, second).from == chosen->0 / 64,
        survivor_of(chosen, first, second).points == (first[chosen->0 as int / 8 % 8], second[chosen->0 as int % 8]),
{
    assert(enters(trellis, inverted, branch, state, keys.len() as int));
    reveal(allowed);
    if 64 * trellis.spec_states() <= 16_384 {
        let best = chosen->0;
        assert(enters(trellis, inverted, best as int, state, keys.len() as int));
        assert(best < 16_384);
        assert(best / 64 < 256);
    }
}

/// A decision waits for 24 further 4D symbols, and bits come with every
/// fourth decision.
pub proof fn law_decisions_wait_for_24_symbols(
    decoder: Decoder,
    first: Seq<Point>,
    second: Seq<Point>,
    keys: Seq<u64>,
    chosen: Seq<Option<usize>>,
    bits: Seq<bool>,
    next: Decoder,
)
    requires
        decoder.steps(first, second, keys, chosen, bits, next),
    ensures
        decoder.survivors().len() < 24 ==> next.survivors().len() == decoder.survivors().len() + 1 && next.decided()
            == decoder.decided() && bits.len() == 0,
        decoder.survivors().len() >= 24 ==> next.survivors().len() == decoder.survivors().len(),
        decoder.survivors().len() >= 24 && decoder.decided().len() < 3 ==> next.decided().len() == decoder.decided().len()
            + 1 && bits.len() == 0 && next.frame() == decoder.frame() && next.quadrant() == decoder.quadrant(),
        decoder.survivors().len() >= 24 && decoder.decided().len() >= 3 ==> next.decided().len() == 0,
        decoder.survivors().len() >= 24 && decoder.decided().len() >= 3 && decoder.frame() + 1 < decoder.framing().p
            && decoder.frame() >= 0 ==> next.frame() == decoder.frame() + 1,
        decoder.survivors().len() >= 24 && decoder.decided().len() >= 3 && decoder.frame() + 1 == decoder.framing().p
            ==> next.frame() == 0,
{
    let p = decoder.framing().p as int;
    if 0 <= decoder.frame() && decoder.frame() + 1 < p {
        vstd::arithmetic::div_mod::lemma_small_mod((decoder.frame() + 1) as nat, p as nat);
    } else if decoder.frame() + 1 == p && p > 0 {
        vstd::arithmetic::div_mod::lemma_mod_self_0(p);
    }
}

/// A path is followed back from its newest survivor, state by state.
pub proof fn law_a_path_goes_from_state_to_state(survivors: Seq<Seq<Survivor>>, newest: Seq<Survivor>, state: u8)
    ensures
        survivors.len() == 0 ==> trace(survivors.push(newest), state) == newest[state as int],
        survivors.len() > 0 ==> trace(survivors.push(newest), state) == trace(survivors, newest[state as int].from),
{
    assert(survivors.push(newest).drop_last() =~= survivors);
}

/// A label's ring holds it, 2^q labels to a ring, but that those beyond the
/// rings count as of the outermost.
pub proof fn law_a_ring_holds_its_labels(framing: Framing, label: int)
    requires
        framing.valid(),
        0 <= label,
    ensures
        ({
            let ring = ring_of(framing, label) as int;
            let power = pow2(framing.q as nat) as int;
            &&& label < framing.rings * power ==> ring * power <= label < ring * power + power
            &&& label >= framing.rings * power ==> ring == framing.rings - 1
        }),
{
    law_framings_fit(framing);
    let power = pow2(framing.q as nat) as int;
    vstd::arithmetic::power2::lemma_pow2_pos(framing.q as nat);
    let quotient = label / power;
    let m = framing.rings as int;
    vstd::arithmetic::div_mod::lemma_fundamental_div_mod(label, power);
    vstd::arithmetic::div_mod::lemma_div_pos_is_pos(label, power);
    assert(power * quotient == quotient * power) by (nonlinear_arith);
    if label < m * power {
        assert(quotient < m) by (nonlinear_arith)
            requires
                quotient * power <= label,
                label < m * power,
                power > 0,
        ;
    } else {
        assert(quotient >= m) by (nonlinear_arith)
            requires
                label < quotient * power + power,
                label >= m * power,
                power > 0,
        ;
    }
}

} // verus!

//! That the decoder gives back what the encoder sends, over a line that
//! changes nothing.

use crate::v34::constellation::{
    is_quarter, law_figure_5_exists, on_grid, quarter, spec_rotate, wide, Point,
};
use crate::v34::decoder::{
    allowed, carries, law_unmaps_what_the_encoder_maps, leads_to, lemma_frame_unmaps,
    lemma_rings_fit, named, quadrant_before, unmapped, DEPTH,
};
use crate::v34::encoder::{
    bits_in, coding_before, frame_symbol, group_of, label_of, law_mapping_frames_hold_four_symbols,
    lemma_group_low_bits, lemma_labels_fit, modulo_of, next_quadrant, one_if, parses, rings_of,
    spec_inversion, symbol_of, turned_point, Coding, Group, Settings,
};
use crate::v34::framing::{law_framings_fit, Framing};
use crate::v34::mp::Trellis;
use crate::v34::precoder::{law_no_coefficients_change_nothing, shifted};
use crate::v34::trellis::{
    figure_column, figure_row, law_stays_within_its_states, odd, spec_inputs, spec_subset,
};
use crate::v34::viterbi::{
    branch_of, exactly, follows, law_follows_what_is_sent, sendable, Received, Viterbi, Way,
};
use vstd::arithmetic::div_mod::{lemma_fundamental_div_mod, lemma_fundamental_div_mod_converse};
use vstd::arithmetic::power2::pow2;
use vstd::prelude::*;

verus! {

proof fn lemma_residues(x: int)
    requires
        x % 4 == 1,
    ensures
        x % 8 == 1 && (-x) % 8 == 7 || x % 8 == 5 && (-x) % 8 == 3,
        x % 2 == 1,
        (-x) % 2 == 1,
{
    let k = x / 4;
    let m = k / 2;
    if k % 2 == 0 {
        lemma_fundamental_div_mod_converse(x, 8, m, 1);
        lemma_fundamental_div_mod_converse(-x, 8, -m - 1, 7);
    } else {
        lemma_fundamental_div_mod_converse(x, 8, m, 5);
        lemma_fundamental_div_mod_converse(-x, 8, -m - 1, 3);
    }
}

/// Turning a point of figure 5 changes the low bit of its subset.
proof fn lemma_turned_parity(p: (int, int), turns: int)
    requires
        p.0 % 4 == 1,
        p.1 % 4 == 1,
    ensures
        odd(spec_rotate(p, turns)),
        spec_subset(spec_rotate(p, turns)) < 8,
        spec_subset(spec_rotate(p, turns)) % 2 == turns % 2,
{
    lemma_residues(p.0);
    lemma_residues(p.1);
    let q = spec_rotate(p, turns);
    let (row, column) = (figure_row(q.1), figure_column(q.0));
    if turns % 4 == 0 {
        assert(turns % 2 == 0);
        assert((row == 1 || row == 3) && (column == 0 || column == 2));
    } else if turns % 4 == 1 {
        assert(turns % 2 == 1);
        assert((row == 0 || row == 2) && (column == 0 || column == 2));
    } else if turns % 4 == 2 {
        assert(turns % 2 == 0);
        assert((row == 0 || row == 2) && (column == 1 || column == 3));
    } else {
        assert(turns % 2 == 1);
        assert((row == 1 || row == 3) && (column == 1 || column == 3));
    }
}

proof fn lemma_on_figure_5(label: int)
    requires
        0 <= label < 416,
    ensures
        on_grid(quarter()[label]),
{
    law_figure_5_exists();
    assert(is_quarter(quarter()));
}

/// The code allows each 4D symbol sent without precoding, and leads from its
/// state to the next.
proof fn lemma_symbol_is_allowed(
    framing: Framing,
    settings: Settings,
    coding: Coding,
    m: int,
    group: Group,
    rings: (u8, u8),
    points: (Point, Point),
)
    requires
        framing.valid(),
        settings.precoding@ == seq![(0i16, 0i16), (0i16, 0i16), (0i16, 0i16)],
        0 <= coding.quadrant < 4,
        coding.history.len() == 3,
        coding.state < settings.trellis.spec_states(),
        group.q.0 < pow2(framing.q as nat),
        group.q.1 < pow2(framing.q as nat),
        rings.0 < framing.rings,
        rings.1 < framing.rings,
        ({
            let symbol = symbol_of(framing, settings, coding, m, group, rings);
            wide(points.0) == symbol.first && wide(points.1) == symbol.second
        }),
    ensures
        ({
            let way = Way { state: coding.state, points };
            let next = symbol_of(framing, settings, coding, m, group, rings).coding;
            &&& sendable(points.0)
            &&& sendable(points.1)
            &&& allowed(settings.trellis, spec_inversion(framing, m), branch_of(way))
            &&& leads_to(settings.trellis, branch_of(way)) as u8 == next.state
            &&& next.state < settings.trellis.spec_states()
        }),
{
    reveal(symbol_of);
    let h = settings.precoding;
    let modulo = modulo_of(framing);
    let symbol = symbol_of(framing, settings, coding, m, group, rings);
    let quadrant = next_quadrant(coding.quadrant, group);
    law_no_coefficients_change_nothing(coding.history, h, modulo, symbol.first);
    let between = shifted(coding.history, symbol.x_first);
    law_no_coefficients_change_nothing(between, h, modulo, symbol.second);
    let first = label_of(framing.q, group.q.0, rings.0);
    let second = label_of(framing.q, group.q.1, rings.1);
    lemma_labels_fit(framing, group.q.0, rings.0);
    lemma_labels_fit(framing, group.q.1, rings.1);
    let u0 = settings.trellis.spec_output(coding.state) != spec_inversion(framing, m);
    let turns = quadrant + 2 * one_if(group.i1) + one_if(u0);
    assert(symbol.first == turned_point(first, quadrant));
    assert(symbol.second == turned_point(second, turns));
    lemma_on_figure_5(first);
    lemma_on_figure_5(second);
    lemma_turned_parity(wide(quarter()[first]), quadrant);
    lemma_turned_parity(wide(quarter()[second]), turns);
    let (f, g) = (spec_subset(symbol.first), spec_subset(symbol.second));
    assert((f % 2 != g % 2) == u0) by {
        assert(turns % 2 == (quadrant + one_if(u0)) % 2);
    }
    lemma_branch_is_allowed(
        settings.trellis,
        spec_inversion(framing, m),
        Way { state: coding.state, points },
    );
}

/// A branch whose labels have the parity that its state asks for.
proof fn lemma_branch_is_allowed(trellis: Trellis, inverted: bool, way: Way)
    requires
        way.state < trellis.spec_states(),
        spec_subset(wide(way.points.0)) < 8,
        spec_subset(wide(way.points.1)) < 8,
        (spec_subset(wide(way.points.0)) % 2 != spec_subset(wide(way.points.1)) % 2) == (
        trellis.spec_output(way.state) != inverted),
    ensures
        allowed(trellis, inverted, branch_of(way)),
        leads_to(trellis, branch_of(way)) == trellis.spec_next(
            way.state,
            spec_inputs(
                spec_subset(wide(way.points.0)),
                spec_subset(wide(way.points.1)),
            ) as u8,
        ),
        leads_to(trellis, branch_of(way)) < trellis.spec_states() <= 64,
{
    reveal(allowed);
    reveal(leads_to);
    let (f, g) = (spec_subset(wide(way.points.0)), spec_subset(wide(way.points.1)));
    let branch = branch_of(way);
    assert(branch / 64 == way.state && branch / 8 % 8 == f && branch % 8 == g);
    law_stays_within_its_states(trellis, way.state, spec_inputs(f, g) as u8);
}

/// A mapping frame sent: its bits, and the points of its 4D symbols.
pub struct Frame {
    pub bits: Seq<bool>,
    pub points: Seq<(Point, Point)>,
}

/// What an encoder sends from its start.
pub struct Run {
    pub framing: Framing,
    pub settings: Settings,
    pub start: Coding,
    pub frames: Seq<Frame>,
}

impl Run {
    /// The mapping frames in a superframe.
    pub open spec fn superframe(self) -> int {
        self.framing.p * self.framing.j
    }

    /// The delays of the encoder before frame `n`.
    pub open spec fn coding(self, n: int) -> Coding
        decreases n,
    {
        if n <= 0 {
            self.start
        } else {
            coding_before(
                self.framing,
                self.settings,
                self.coding(n - 1),
                (n - 1) % self.superframe(),
                self.frames[n - 1].bits,
                4,
            )
        }
    }

    /// An encoder without precoding sends the frames, from every delay at 0.
    #[verifier::opaque]
    pub open spec fn is_sent(self) -> bool {
        &&& self.framing.valid()
        &&& self.settings.precoding@ == seq![(0i16, 0i16), (0i16, 0i16), (0i16, 0i16)]
        &&& self.start.at_rest()
        &&& forall|n: int|
            #![trigger self.frames[n]]
            0 <= n < self.frames.len() ==> {
                &&& self.frames[n].bits.len() == bits_in(self.framing, n % self.superframe())
                &&& carries(
                    self.framing,
                    self.settings,
                    self.coding(n),
                    n % self.superframe(),
                    self.frames[n].bits,
                    self.frames[n].points,
                )
            }
    }

    /// The delays before 4D symbol `i`.
    pub open spec fn before(self, i: int) -> Coding {
        coding_before(
            self.framing,
            self.settings,
            self.coding(i / 4),
            (i / 4) % self.superframe(),
            self.frames[i / 4].bits,
            i % 4,
        )
    }

    /// The state before 4D symbol `i`.
    pub open spec fn state(self, i: int) -> u8 {
        if i % 4 == 0 {
            self.coding(i / 4).state
        } else {
            self.before(i).state
        }
    }

    pub open spec fn way(self, i: int) -> Way {
        Way { state: self.state(i), points: self.frames[i / 4].points[i % 4] }
    }

    /// The first `n` 4D symbols.
    pub open spec fn path(self, n: int) -> Seq<Way> {
        Seq::new(n as nat, |i: int| self.way(i))
    }

    /// The points of the mapping frame of 4D symbol `n` up to that.
    pub open spec fn partly(self, n: int) -> Seq<(Point, Point)> {
        self.frames[n / 4].points.take(n % 4)
    }

    proof fn lemma_coding(self, n: int)
        requires
            self.is_sent(),
            0 <= n <= self.frames.len(),
        ensures
            0 <= self.coding(n).quadrant < 4,
            self.coding(n).history.len() == 3,
            self.coding(n).state < self.settings.trellis.spec_states(),
        decreases n, 0int,
    {
        reveal(Run::is_sent);
        law_framings_fit(self.framing);
        if n == 0 {
            law_stays_within_its_states(self.settings.trellis, 0, 0);
        } else {
            self.lemma_frame(n - 1, 4);
        }
    }

    /// A frame leaves the delays in order.
    proof fn lemma_frame(self, n: int, j: int)
        requires
            self.is_sent(),
            0 <= n < self.frames.len(),
            0 <= j <= 4,
        ensures
            self.framing.valid(),
            ({
                let frame = n % self.superframe();
                let bits = self.frames[n].bits;
                let before = coding_before(
                    self.framing,
                    self.settings,
                    self.coding(n),
                    frame,
                    bits,
                    j,
                );
                &&& parses(self.framing, bits.len() as int)
                &&& 0 <= before.quadrant < 4
                &&& before.history.len() == 3
                &&& before.state < self.settings.trellis.spec_states()
                &&& j > 0 ==> {
                    let points = self.frames[n].points[j - 1];
                    let last = coding_before(
                        self.framing,
                        self.settings,
                        self.coding(n),
                        frame,
                        bits,
                        j - 1,
                    );
                    let way = Way { state: last.state, points };
                    &&& sendable(points.0)
                    &&& sendable(points.1)
                    &&& allowed(
                        self.settings.trellis,
                        spec_inversion(self.framing, 4 * frame + j - 1),
                        branch_of(way),
                    )
                    &&& leads_to(self.settings.trellis, branch_of(way)) as u8 == before.state
                }
            }),
        decreases n, 1 + j,
    {
        reveal(Run::is_sent);
        self.lemma_coding(n);
        self.lemma_superframe();
        let frame = n % self.superframe();
        let f = self.frames[n];
        let coding = self.coding(n);
        law_mapping_frames_hold_four_symbols(self.framing, frame % self.framing.p as int);
        lemma_frame_unmaps(self.framing, self.settings, coding, frame, f.bits, f.points, j);
        if j > 0 {
            let i = j - 1;
            self.lemma_frame(n, i);
            let symbol = frame_symbol(self.framing, self.settings, coding, frame, f.bits, i);
            let rings = rings_of(self.framing, f.bits);
            lemma_rings_fit(self.framing, f.bits);
            lemma_group_low_bits(self.framing, f.bits, i);
            assert(rings[2 * i] < self.framing.rings && rings[2 * i + 1] < self.framing.rings);
            lemma_symbol_is_allowed(
                self.framing,
                self.settings,
                coding_before(self.framing, self.settings, coding, frame, f.bits, i),
                4 * frame + i,
                group_of(self.framing, f.bits, i),
                (rings[2 * i], rings[2 * i + 1]),
                f.points[i],
            );
        }
    }

    proof fn lemma_superframe(self)
        requires
            self.framing.valid(),
        ensures
            self.superframe() > 0,
            4 * self.framing.p * self.framing.j == 4 * self.superframe(),
    {
        law_framings_fit(self.framing);
        let (p, j) = (self.framing.p as int, self.framing.j as int);
        assert(p * j > 0 && 4 * p * j == 4 * (p * j)) by (nonlinear_arith)
            requires
                p >= 12,
                j >= 7,
        ;
    }

    /// The points of frame `n` as they are received.
    pub open spec fn received(self, n: int) -> Seq<Received> {
        Seq::new(
            8,
            |i: int|
                if i % 2 == 0 {
                    exactly(self.frames[n].points[i / 2].0)
                } else {
                    exactly(self.frames[n].points[i / 2].1)
                },
        )
    }

    /// How many 4D symbols are decided on after `i` of them.
    pub open spec fn decisions(i: int) -> int {
        if i < DEPTH {
            0
        } else {
            i - DEPTH
        }
    }

    /// The decoder follows the first `i` 4D symbols, and has decided on all
    /// but the last `DEPTH` as they were sent.
    #[verifier::opaque]
    pub open spec fn tracked_by(self, viterbi: Viterbi, i: int) -> bool {
        let d = viterbi.decoder();
        let c = Self::decisions(i);
        &&& follows(viterbi, self.path(i), self.state(i))
        &&& d.framing() == self.framing
        &&& d.trellis() == self.settings.trellis
        &&& d.received() == i % (4 * self.superframe())
        &&& d.decided() == self.partly(c)
        &&& d.frame() == (c / 4) % self.framing.p as int
        &&& d.quadrant() == self.coding(c / 4).quadrant
    }

    /// The bits that 4D symbol `i` lets the decoder decide on.
    pub open spec fn given(self, i: int) -> Seq<bool> {
        if i >= DEPTH && (i - DEPTH) % 4 == 3 {
            self.frames[(i - DEPTH) / 4].bits
        } else {
            seq![]
        }
    }

    proof fn lemma_place(self, i: int)
        requires
            self.framing.valid(),
            0 <= i,
        ensures
            i % (4 * self.superframe()) == 4 * ((i / 4) % self.superframe()) + i % 4,
            (i % (4 * self.superframe()) + 1) % (4 * self.superframe()) == (i + 1) % (4
                * self.superframe()),
    {
        self.lemma_superframe();
        let k = self.superframe();
        let n = i / 4;
        lemma_fundamental_div_mod(n, k);
        let (q, r) = (n / k, n % k);
        assert(i == (4 * k) * q + (4 * r + i % 4)) by (nonlinear_arith)
            requires
                i == 4 * n + i % 4,
                n == k * q + r,
        ;
        assert(4 * r + i % 4 < 4 * k);
        lemma_fundamental_div_mod_converse(i, 4 * k, q, 4 * r + i % 4);
        vstd::arithmetic::div_mod::lemma_add_mod_noop(i, 1, 4 * k);
        vstd::arithmetic::div_mod::lemma_small_mod(1, (4 * k) as nat);
    }

    /// The frame that is decided on gives its bits back.
    proof fn lemma_given(self, n: int)
        requires
            self.is_sent(),
            0 <= n < self.frames.len(),
        ensures
            unmapped(
                self.framing,
                self.framing.frame_bits(n % self.framing.p as int),
                self.coding(n).quadrant,
                self.frames[n].points,
            ) == self.frames[n].bits,
            named(self.frames[n].points[3].0).1 == self.coding(n + 1).quadrant,
            self.frames[n].points.len() == 4,
    {
        reveal(Run::is_sent);
        self.lemma_coding(n);
        self.lemma_superframe();
        self.lemma_frame(n, 0);
        let f = self.frames[n];
        let (p, j) = (self.framing.p as int, self.framing.j as int);
        law_framings_fit(self.framing);
        vstd::arithmetic::div_mod::lemma_mod_mod(n, p, j);
        law_unmaps_what_the_encoder_maps(
            self.framing,
            self.settings,
            self.coding(n),
            n % self.superframe(),
            f.bits,
            f.points,
        );
        assert(quadrant_before(self.coding(n).quadrant, f.points, 4) == named(f.points[3].0).1);
    }

    /// A decoder that tracks what is sent goes on tracking it.
    #[verifier::rlimit(40)]
    proof fn lemma_tracked(self, viterbi: Viterbi, i: int, bits: Seq<bool>, next: Viterbi)
        requires
            self.is_sent(),
            0 <= i < 4 * self.frames.len(),
            self.tracked_by(viterbi, i),
            next.valid(),
            viterbi.takes(
                (
                    exactly(self.frames[i / 4].points[i % 4].0),
                    exactly(self.frames[i / 4].points[i % 4].1),
                ),
                bits,
                next,
            ),
        ensures
            self.tracked_by(next, i + 1),
            bits == self.given(i),
    {
        reveal(Run::tracked_by);
        let (n, j) = (i / 4, i % 4);
        let way = self.way(i);
        self.lemma_frame(n, j + 1);
        self.lemma_place(i);
        self.lemma_superframe();
        assert(self.state(i) == coding_before(
            self.framing,
            self.settings,
            self.coding(n),
            n % self.superframe(),
            self.frames[n].bits,
            j,
        ).state);
        law_follows_what_is_sent(viterbi, self.path(i), way, bits, next);
        assert(self.path(i).push(way) =~= self.path(i + 1));
        assert(leads_to(self.settings.trellis, branch_of(way)) as u8 == self.state(i + 1)) by {
            if j == 3 {
                assert((i + 1) / 4 == n + 1 && (i + 1) % 4 == 0);
            } else {
                assert((i + 1) / 4 == n && (i + 1) % 4 == j + 1);
            }
        }
        let c = Self::decisions(i);
        if i >= DEPTH {
            let m = c / 4;
            self.lemma_given(m);
            let points = self.frames[m].points;
            assert(self.path(i + 1)[i - DEPTH].points == points[c % 4]);
            assert(self.partly(c).push(points[c % 4]) =~= points.take(c % 4 + 1));
            if c % 4 == 3 {
                assert((c + 1) / 4 == m + 1 && (c + 1) % 4 == 0);
                assert(points.take(4) =~= points);
                assert(self.partly(c + 1) =~= Seq::<(Point, Point)>::empty());
                let p = self.framing.p as int;
                law_framings_fit(self.framing);
                vstd::arithmetic::div_mod::lemma_add_mod_noop(m, 1, p);
                vstd::arithmetic::div_mod::lemma_small_mod(1, p as nat);
            } else {
                assert((c + 1) / 4 == m && (c + 1) % 4 == c % 4 + 1);
            }
        } else {
            assert(Self::decisions(i + 1) == 0);
        }
    }

    /// A fresh decoder tracks an encoder that has sent nothing.
    proof fn lemma_fresh(self, viterbi: Viterbi)
        requires
            self.is_sent(),
            viterbi.is_fresh(self.framing, self.settings.trellis),
        ensures
            self.tracked_by(viterbi, 0),
    {
        reveal(Run::is_sent);
        reveal(Run::tracked_by);
        self.lemma_superframe();
        law_stays_within_its_states(self.settings.trellis, 0, 0);
        assert(self.partly(0) =~= Seq::<(Point, Point)>::empty());
        vstd::arithmetic::div_mod::lemma_small_mod(0, (4 * self.superframe()) as nat);
        law_framings_fit(self.framing);
        vstd::arithmetic::div_mod::lemma_small_mod(0, self.framing.p as nat);
    }
}

/// A decoder that has followed `n` mapping frames follows the next, and gives
/// back the one six before it.
pub proof fn law_follows_each_frame(
    run: Run,
    n: int,
    viterbi: Viterbi,
    bits: Seq<bool>,
    next: Viterbi,
)
    requires
        run.is_sent(),
        0 <= n < run.frames.len(),
        run.tracked_by(viterbi, 4 * n),
        viterbi.takes_frame(run.received(n), bits, next),
    ensures
        run.tracked_by(next, 4 * n + 4),
        bits == if n < 6 {
            Seq::<bool>::empty()
        } else {
            run.frames[n - 6].bits
        },
{
    let z = run.received(n);
    let (parts, between) = choose|parts: Seq<Seq<bool>>, between: Seq<Viterbi>| #[trigger]
        viterbi.takes_frame_by(z, parts, between, next) && bits == parts[0] + parts[1] + parts[2]
            + parts[3];
    assert(between[0] == viterbi && between[4] == next && parts.len() == 4) by {
        reveal(Viterbi::takes_frame_by);
    }
    lemma_frame_step(run, n, 0, parts, between, viterbi, next);
    lemma_frame_step(run, n, 1, parts, between, viterbi, next);
    lemma_frame_step(run, n, 2, parts, between, viterbi, next);
    lemma_frame_step(run, n, 3, parts, between, viterbi, next);
    let out = if n < 6 {
        Seq::<bool>::empty()
    } else {
        run.frames[n - 6].bits
    };
    assert(run.given(4 * n) == Seq::<bool>::empty());
    assert(run.given(4 * n + 1) == Seq::<bool>::empty());
    assert(run.given(4 * n + 2) == Seq::<bool>::empty());
    assert(run.given(4 * n + 3) == out) by {
        if n >= 6 {
            assert((4 * n + 3 - DEPTH) / 4 == n - 6 && (4 * n + 3 - DEPTH) % 4 == 3);
        }
    }
    assert(bits =~= out);
}

proof fn lemma_frame_step(
    run: Run,
    n: int,
    j: int,
    parts: Seq<Seq<bool>>,
    between: Seq<Viterbi>,
    viterbi: Viterbi,
    next: Viterbi,
)
    requires
        run.is_sent(),
        0 <= n < run.frames.len(),
        0 <= j < 4,
        viterbi.takes_frame_by(run.received(n), parts, between, next),
        run.tracked_by(between[j], 4 * n + j),
    ensures
        run.tracked_by(between[j + 1], 4 * n + j + 1),
        parts[j] == run.given(4 * n + j),
{
    reveal(Viterbi::takes_frame_by);
    let z = run.received(n);
    assert(between[j + 1].valid());
    assert(between[j].takes((z[2 * j], z[2 * j + 1]), parts[j], between[j + 1]));
    assert((4 * n + j) / 4 == n && (4 * n + j) % 4 == j);
    assert(2 * j / 2 == j && (2 * j) % 2 == 0 && (2 * j + 1) / 2 == j && (2 * j + 1) % 2 == 1);
    run.lemma_tracked(between[j], 4 * n + j, parts[j], between[j + 1]);
}

/// Decoding what the encoder sends gives its bits back, six mapping frames
/// late.
pub proof fn law_decodes_what_the_encoder_sends(
    run: Run,
    viterbis: Seq<Viterbi>,
    outs: Seq<Seq<bool>>,
    n: int,
)
    requires
        run.is_sent(),
        viterbis.len() == run.frames.len() + 1,
        outs.len() == run.frames.len(),
        viterbis[0].is_fresh(run.framing, run.settings.trellis),
        forall|k: int|
            0 <= k < run.frames.len() ==> (#[trigger] viterbis[k]).takes_frame(
                run.received(k),
                outs[k],
                viterbis[k + 1],
            ),
        0 <= n <= run.frames.len(),
    ensures
        run.tracked_by(viterbis[n], 4 * n),
        forall|k: int|
            0 <= k < n ==> #[trigger] outs[k] == if k < 6 {
                Seq::<bool>::empty()
            } else {
                run.frames[k - 6].bits
            },
    decreases n,
{
    if n == 0 {
        run.lemma_fresh(viterbis[0]);
    } else {
        law_decodes_what_the_encoder_sends(run, viterbis, outs, n - 1);
        assert(viterbis[n - 1].takes_frame(run.received(n - 1), outs[n - 1], viterbis[n]));
        law_follows_each_frame(run, n - 1, viterbis[n - 1], outs[n - 1], viterbis[n]);
    }
}

} // verus!

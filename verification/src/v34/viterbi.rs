//! The metrics of the Viterbi decoder: how far a received point is from the
//! nearest of each subset, and the paths that follow from it.

use crate::v34::constellation::{wide, Point};
use crate::v34::decoder::{
    allowed, best_branch, best_state, enters, front, key_of,
    law_the_checkerboard_keeps_the_subset, leads_to, named, representative, spec_representative,
    survivors_of, trace, turnable, unmapped, Decoder, Survivor, DEPTH, NO_PATH,
};
use crate::v34::encoder::spec_inversion;
use crate::v34::framing::Framing;
use crate::v34::mp::Trellis;
use crate::v34::trellis::{law_a_subset_is_a_checkerboard, odd, spec_inputs, spec_subset};
use vstd::prelude::*;

verus! {

/// Received points are in 2⁻¹⁶ of the units of figure 5.
pub const FINE: i64 = 65_536;

/// How far from the origin a received point may be.
pub const RECEIVED_LIMIT: i64 = 0x4000_0000;

/// A received point.
pub type Received = (i64, i64);

pub open spec fn receivable(z: Received) -> bool {
    -RECEIVED_LIMIT <= z.0 <= RECEIVED_LIMIT && -RECEIVED_LIMIT <= z.1 <= RECEIVED_LIMIT
}

/// The squared distance from a received point to a point of the grid.
pub open spec fn distance(z: (int, int), p: (int, int)) -> int {
    (z.0 - 65_536 * p.0) * (z.0 - 65_536 * p.0) + (z.1 - 65_536 * p.1) * (z.1 - 65_536 * p.1)
}

/// `p` is in the subset `label`, and none of it is nearer to `z`.
pub open spec fn is_nearest(z: (int, int), label: u8, p: (int, int)) -> bool {
    &&& odd(p)
    &&& spec_subset(p) == label
    &&& forall|q: (int, int)|
        odd(q) && #[trigger] spec_subset(q) == label ==> distance(z, p) <= distance(z, q)
}

pub open spec fn magnitude(x: int) -> int {
    if x < 0 {
        -x
    } else {
        x
    }
}

/// A rounded value is no farther than any other whole step.
proof fn lemma_rounded(a: int, step: int, m: int)
    requires
        step > 0,
        2 * magnitude(a) <= step,
    ensures
        a * a <= (a - step * m) * (a - step * m),
{
    assert(a * a <= (a - step * m) * (a - step * m)) by (nonlinear_arith)
        requires
            step > 0,
            -step <= 2 * a <= step,
    {
        let t = step * m;
        assert((a - t) * (a - t) - a * a == t * (t - 2 * a)) by (nonlinear_arith);
        if m >= 1 {
            assert(t >= step) by (nonlinear_arith)
                requires
                    m >= 1,
                    step > 0,
                    t == step * m,
            ;
            assert(t * (t - 2 * a) >= 0) by (nonlinear_arith)
                requires
                    t >= step > 0,
                    2 * a <= step,
            ;
        } else if m <= -1 {
            assert(t <= -step) by (nonlinear_arith)
                requires
                    m <= -1,
                    step > 0,
                    t == step * m,
            ;
            assert(t * (t - 2 * a) >= 0) by (nonlinear_arith)
                requires
                    t <= -step < 0,
                    -step <= 2 * a,
            ;
        } else {
            assert(t == 0) by (nonlinear_arith)
                requires
                    m == 0,
                    t == step * m,
            ;
        }
    }
}

/// Any other step is at least as far as the next one.
proof fn lemma_next(a: int, step: int, m: int)
    requires
        step > 0,
        2 * magnitude(a) <= step,
        m != 0,
    ensures
        (step - magnitude(a)) * (step - magnitude(a)) <= (a - step * m) * (a - step * m),
{
    let t = step * m;
    let room = step - magnitude(a);
    if m >= 1 {
        assert(t >= step) by (nonlinear_arith)
            requires
                m >= 1,
                step > 0,
                t == step * m,
        ;
        assert(room * room <= (a - t) * (a - t)) by (nonlinear_arith)
            requires
                0 <= room <= t - a,
        ;
    } else {
        assert(t <= -step) by (nonlinear_arith)
            requires
                m <= -1,
                step > 0,
                t == step * m,
        ;
        assert(room * room <= (a - t) * (a - t)) by (nonlinear_arith)
            requires
                0 <= room <= a - t,
        ;
    }
}

/// The distance, in steps of the checkerboard.
pub open spec fn off(a: int, b: int, m: int, n: int) -> int {
    (a - 262_144 * m) * (a - 262_144 * m) + (b - 262_144 * n) * (b - 262_144 * n)
}

/// Where rounding leaves the checkerboard, one step along the coordinate that
/// is farther off is the nearest point of it.
proof fn lemma_nearest_off_the_board(a: int, b: int, m: int, n: int)
    requires
        2 * magnitude(a) <= 262_144,
        2 * magnitude(b) <= 262_144,
        (m + n) % 2 == 1,
    ensures
        magnitude(a) > magnitude(b) ==> (262_144 - magnitude(a)) * (262_144 - magnitude(a)) + b * b
            <= off(a, b, m, n),
        magnitude(a) <= magnitude(b) ==> a * a + (262_144 - magnitude(b)) * (262_144 - magnitude(b))
            <= off(a, b, m, n),
{
    let (x, y) = (magnitude(a), magnitude(b));
    let s = 262_144int;
    lemma_rounded(a, s, m);
    lemma_rounded(b, s, n);
    assert((s - x) * (s - x) + y * y - (x * x + (s - y) * (s - y)) == 2 * s * (y - x))
        by (nonlinear_arith)
        requires
            s == 262_144,
    ;
    assert(a * a == x * x && b * b == y * y) by (nonlinear_arith)
        requires
            x == a || x == -a,
            y == b || y == -b,
    ;
    if m != 0 {
        lemma_next(a, s, m);
    } else {
        lemma_next(b, s, n);
    }
}

/// Where rounding to whole steps from `base`, and then to the checkerboard,
/// leads is nearest.
proof fn lemma_is_nearest(
    z: (int, int),
    label: u8,
    base: (int, int),
    rounded: (int, int),
    steps: (int, int),
)
    requires
        odd(base),
        spec_subset(base) == label,
        ({
            let a = z.0 - 65_536 * base.0 - 262_144 * rounded.0;
            let b = z.1 - 65_536 * base.1 - 262_144 * rounded.1;
            &&& 2 * magnitude(a) <= 262_144
            &&& 2 * magnitude(b) <= 262_144
            &&& if (rounded.0 + rounded.1) % 2 == 0 {
                steps == rounded
            } else if magnitude(a) > magnitude(b) {
                steps == (rounded.0 + if a >= 0 {
                    1int
                } else {
                    -1
                }, rounded.1)
            } else {
                steps == (rounded.0, rounded.1 + if b >= 0 {
                    1int
                } else {
                    -1
                })
            }
        }),
    ensures
        is_nearest(z, label, (base.0 + 4 * steps.0, base.1 + 4 * steps.1)),
{
    let a = z.0 - 65_536 * base.0 - 262_144 * rounded.0;
    let b = z.1 - 65_536 * base.1 - 262_144 * rounded.1;
    let p = (base.0 + 4 * steps.0, base.1 + 4 * steps.1);
    let dx = z.0 - 65_536 * p.0;
    let dy = z.1 - 65_536 * p.1;
    law_the_checkerboard_keeps_the_subset(base, steps.0, steps.1);
    let on_board = (rounded.0 + rounded.1) % 2 == 0;
    let (x, y) = (262_144 - magnitude(a), 262_144 - magnitude(b));
    let along = magnitude(a) > magnitude(b);
    assert(dx * dx == if !on_board && along {
        x * x
    } else {
        a * a
    }) by (nonlinear_arith)
        requires
            dx == (if !on_board && along {
                if a >= 0 {
                    -x
                } else {
                    x
                }
            } else {
                a
            }),
    ;
    assert(dy * dy == if !on_board && !along {
        y * y
    } else {
        b * b
    }) by (nonlinear_arith)
        requires
            dy == (if !on_board && !along {
                if b >= 0 {
                    -y
                } else {
                    y
                }
            } else {
                b
            }),
    ;
    assert forall|q: (int, int)| odd(q) && #[trigger] spec_subset(q) == label implies distance(z, p)
        <= distance(z, q) by {
        let (m, n) = law_a_subset_is_a_checkerboard(q, base);
        let (s, t) = (m - rounded.0, n - rounded.1);
        assert(z.0 - 65_536 * q.0 == a - 262_144 * s);
        assert(z.1 - 65_536 * q.1 == b - 262_144 * t);
        assert(distance(z, q) == off(a, b, s, t));
        if on_board {
            lemma_rounded(a, 262_144, s);
            lemma_rounded(b, 262_144, t);
        } else {
            let (even, uneven) = ((m + n) / 2, (rounded.0 + rounded.1) / 2);
            assert(s + t == 2 * (even - uneven - 1) + 1);
            assert((s + t) % 2 == 1);
            lemma_nearest_off_the_board(a, b, s, t);
        }
    }
}

/// How many whole steps of the checkerboard are nearest to `x`, a half away
/// from 0.
pub open spec fn spec_rounded(x: int) -> int {
    let steps = (magnitude(x) + 131_072) / 262_144;
    if x < 0 {
        -steps
    } else {
        steps
    }
}

/// How many whole steps of the checkerboard are nearest to `x`, a half away
/// from 0.
fn rounded(x: i64) -> (steps: i64)
    requires
        -0x1_0000_0000 <= x <= 0x1_0000_0000,
    ensures
        steps == spec_rounded(x as int),
        -131_072 <= x - 262_144 * steps <= 131_072,
        -0x10_0000 <= steps <= 0x10_0000,
{
    let steps: i64 = (size(x) + 131_072) / 262_144;
    if x < 0 {
        -steps
    } else {
        steps
    }
}

/// The point of a subset that `z` is decided on as. Rounding, and where it
/// leaves the checkerboard one step along the coordinate that is farther off,
/// the second of two that are as far, settles which of several nearest.
#[verifier::opaque]
pub open spec fn spec_nearest(z: (int, int), label: int) -> (int, int) {
    let base = spec_representative(label);
    let (u, v) = (z.0 - 65_536 * base.0, z.1 - 65_536 * base.1);
    let (i, j) = (spec_rounded(u), spec_rounded(v));
    let (a, b) = (u - 262_144 * i, v - 262_144 * j);
    let (m, n) = if (i + j) % 2 == 0 {
        (i, j)
    } else if magnitude(a) > magnitude(b) {
        (i + if a >= 0 {
            1int
        } else {
            -1
        }, j)
    } else {
        (i, j + if b >= 0 {
            1int
        } else {
            -1
        })
    };
    (base.0 + 4 * m, base.1 + 4 * n)
}

fn size(x: i64) -> (size: i64)
    requires
        x > i64::MIN,
    ensures
        size == magnitude(x as int),
{
    if x < 0 {
        -x
    } else {
        x
    }
}

/// The point of a subset that is nearest to `z`, and its squared distance.
#[must_use]
pub fn nearest(z: Received, label: u8) -> (found: (Point, u64))
    requires
        receivable(z),
        label < 8,
    ensures
        wide(found.0) == spec_nearest((z.0 as int, z.1 as int), label as int),
        is_nearest((z.0 as int, z.1 as int), label, wide(found.0)),
        found.1 == distance((z.0 as int, z.1 as int), wide(found.0)),
        found.1 <= 0x20_0000_0000,
        turnable(found.0),
{
    reveal(spec_nearest);
    let base = representative(label);
    let u: i64 = z.0 - 65_536 * base.0 as i64;
    let v: i64 = z.1 - 65_536 * base.1 as i64;
    let mut i: i64 = rounded(u);
    let mut j: i64 = rounded(v);
    let ghost (i0, j0) = (i as int, j as int);
    let a: i64 = u - 262_144 * i;
    let b: i64 = v - 262_144 * j;
    if (i + j + 0x100_0000) % 2 == 1 {
        if size(a) > size(b) {
            i = if a >= 0 {
                i + 1
            } else {
                i - 1
            };
        } else {
            j = if b >= 0 {
                j + 1
            } else {
                j - 1
            };
        }
    }
    let found: Point = ((base.0 as i64 + 4 * i) as i32, (base.1 as i64 + 4 * j) as i32);
    let dx: i64 = u - 262_144 * i;
    let dy: i64 = v - 262_144 * j;
    proof {
        assert(0 <= dx * dx <= 0x10_0000_0000) by (nonlinear_arith)
            requires
                -262_144 <= dx <= 262_144,
        ;
        assert(0 <= dy * dy <= 0x10_0000_0000) by (nonlinear_arith)
            requires
                -262_144 <= dy <= 262_144,
        ;
        lemma_is_nearest(
            (z.0 as int, z.1 as int),
            label,
            wide(base),
            (i0, j0),
            (i as int, j as int),
        );
    }
    (found, (dx * dx + dy * dy) as u64)
}

/// The nearest point of each subset, and its squared distance.
pub open spec fn near(z: Received, found: Seq<(Point, u64)>) -> bool {
    &&& found.len() == 8
    &&& forall|label: int|
        #![trigger found[label]]
        0 <= label < 8 ==> {
            &&& wide(found[label].0) == spec_nearest((z.0 as int, z.1 as int), label)
            &&& is_nearest((z.0 as int, z.1 as int), label as u8, wide(found[label].0))
            &&& found[label].1 == distance((z.0 as int, z.1 as int), wide(found[label].0))
            &&& found[label].1 <= 0x20_0000_0000
            &&& turnable(found[label].0)
        }
}

fn nearest_of_each(z: Received) -> (found: [(Point, u64); 8])
    requires
        receivable(z),
    ensures
        near(z, found@),
{
    [
        nearest(z, 0),
        nearest(z, 1),
        nearest(z, 2),
        nearest(z, 3),
        nearest(z, 4),
        nearest(z, 5),
        nearest(z, 6),
        nearest(z, 7),
    ]
}

/// The key of a path: the sum of its squared distances, short of that of no
/// path at all.
pub open spec fn key(metric: u64, first: u64, second: u64) -> u64 {
    if metric >= NO_PATH {
        NO_PATH
    } else if metric + first + second < NO_PATH {
        (metric + first + second) as u64
    } else {
        (NO_PATH - 1) as u64
    }
}

/// The key of the best path that ends with each branch.
pub open spec fn keys_of(
    metrics: Seq<u64>,
    first: Seq<(Point, u64)>,
    second: Seq<(Point, u64)>,
) -> Seq<u64> {
    Seq::new(
        64 * metrics.len(),
        |branch: int|
            key(metrics[branch / 64], first[branch / 8 % 8].1, second[branch % 8].1),
    )
}

pub open spec fn points_of(found: Seq<(Point, u64)>) -> Seq<Point> {
    Seq::new(found.len(), |i: int| found[i].0)
}

/// The metric of each state, less the smallest.
pub open spec fn metrics_after(keys: Seq<u64>, chosen: Seq<Option<usize>>) -> Seq<u64> {
    let floor = key_of(keys, chosen[front(keys, chosen)]);
    Seq::new(
        chosen.len(),
        |state: int|
            match chosen[state] {
                Some(branch) => (keys[branch as int] - floor) as u64,
                None => NO_PATH,
            },
    )
}

/// The decoder, with the metrics of its paths.
#[derive(Debug)]
pub struct Viterbi {
    decoder: Decoder,
    metrics: Vec<u64>,
}

impl Viterbi {
    pub closed spec fn decoder(self) -> Decoder {
        self.decoder
    }

    pub closed spec fn metrics(self) -> Seq<u64> {
        self.metrics@
    }

    pub open spec fn valid(self) -> bool {
        &&& self.decoder().valid()
        &&& self.metrics().len() == self.decoder().trellis().spec_states()
    }

    /// Starting with the first mapping frame of B1, in state 0.
    #[must_use]
    pub fn new(framing: Framing, trellis: Trellis) -> (viterbi: Self)
        requires
            framing.valid(),
        ensures
            viterbi.is_fresh(framing, trellis),
    {
        let states = trellis.states();
        let mut metrics: Vec<u64> = Vec::new();
        while metrics.len() < states
            invariant
                metrics.len() <= states,
                forall|state: int|
                    0 <= state < metrics.len() ==> #[trigger] metrics[state] == if state == 0 {
                        0
                    } else {
                        NO_PATH
                    },
            decreases states - metrics.len(),
        {
            metrics.push(
                if metrics.len() == 0 {
                    0
                } else {
                    NO_PATH
                },
            );
        }
        Self { decoder: Decoder::new(framing, trellis), metrics }
    }

    /// As `new` gives it.
    pub open spec fn is_fresh(self, framing: Framing, trellis: Trellis) -> bool {
        &&& self.valid()
        &&& self.decoder().framing() == framing
        &&& self.decoder().trellis() == trellis
        &&& self.decoder().survivors() == Seq::<Seq<Survivor>>::empty()
        &&& self.decoder().received() == 0
        &&& self.decoder().decided() == Seq::<(Point, Point)>::empty()
        &&& self.decoder().frame() == 0
        &&& self.decoder().quadrant() == 0
        &&& forall|state: int|
            0 <= state < self.metrics().len() ==> #[trigger] self.metrics()[state] == if state == 0 {
                0
            } else {
                NO_PATH
            }
    }

    /// `next` is what the two points of a 4D symbol lead to, by the nearest
    /// points of each subset and the branches that survive.
    pub open spec fn takes_by(
        self,
        z: (Received, Received),
        first: Seq<(Point, u64)>,
        second: Seq<(Point, u64)>,
        chosen: Seq<Option<usize>>,
        bits: Seq<bool>,
        next: Self,
    ) -> bool {
        let keys = keys_of(self.metrics(), first, second);
        &&& near(z.0, first)
        &&& near(z.1, second)
        &&& self.decoder().steps(
            points_of(first),
            points_of(second),
            keys,
            chosen,
            bits,
            next.decoder(),
        )
        &&& next.metrics() == metrics_after(keys, chosen)
    }

    /// `next` is what the two points of a 4D symbol lead to, and `bits` those
    /// of a mapping frame that it completes.
    #[verifier::opaque]
    pub open spec fn takes(self, z: (Received, Received), bits: Seq<bool>, next: Self) -> bool {
        exists|
            first: Seq<(Point, u64)>,
            second: Seq<(Point, u64)>,
            chosen: Seq<Option<usize>>,
        | #[trigger]
            self.takes_by(z, first, second, chosen, bits, next)
    }

    fn keys(&self, first: &[(Point, u64); 8], second: &[(Point, u64); 8]) -> (keys: Vec<u64>)
        requires
            self.metrics@.len() <= 64,
            forall|i: int| 0 <= i < 8 ==> (#[trigger] first@[i]).1 <= 0x20_0000_0000,
            forall|i: int| 0 <= i < 8 ==> (#[trigger] second@[i]).1 <= 0x20_0000_0000,
        ensures
            keys@ == keys_of(self.metrics@, first@, second@),
    {
        let count: usize = 64 * self.metrics.len();
        let mut keys: Vec<u64> = Vec::new();
        while keys.len() < count
            invariant
                keys.len() <= count,
                count == 64 * self.metrics@.len(),
                self.metrics@.len() <= 64,
                forall|i: int| 0 <= i < 8 ==> (#[trigger] first@[i]).1 <= 0x20_0000_0000,
                forall|i: int| 0 <= i < 8 ==> (#[trigger] second@[i]).1 <= 0x20_0000_0000,
                forall|branch: int|
                    0 <= branch < keys.len() ==> #[trigger] keys[branch] == key(
                        self.metrics@[branch / 64],
                        first@[branch / 8 % 8].1,
                        second@[branch % 8].1,
                    ),
            decreases count - keys.len(),
        {
            let branch = keys.len();
            let metric = self.metrics[branch / 64];
            let (a, b) = (first[branch / 8 % 8].1, second[branch % 8].1);
            assert(first@[branch as int / 8 % 8].1 <= 0x20_0000_0000);
            assert(second@[branch as int % 8].1 <= 0x20_0000_0000);
            keys.push(
                if metric >= NO_PATH {
                    NO_PATH
                } else if metric + a + b < NO_PATH {
                    metric + a + b
                } else {
                    NO_PATH - 1
                },
            );
        }
        assert(keys@ =~= keys_of(self.metrics@, first@, second@));
        keys
    }

    /// Takes the two points of a 4D symbol, and gives the bits of the mapping
    /// frame that is decided on, if one is.
    pub fn step(&mut self, first: Received, second: Received) -> (bits: Vec<bool>)
        requires
            old(self).valid(),
            receivable(first),
            receivable(second),
        ensures
            final(self).valid(),
            old(self).takes((first, second), bits@, *final(self)),
    {
        proof {
            crate::v34::trellis::law_stays_within_its_states(self.decoder.trellis(), 0, 0);
        }
        let ghost before = *self;
        let near_first = nearest_of_each(first);
        let near_second = nearest_of_each(second);
        let keys = self.keys(&near_first, &near_second);
        let points_first = points(&near_first);
        let points_second = points(&near_second);
        let (chosen, bits) = self.decoder.step(&points_first, &points_second, keys.as_slice());
        self.metrics = remaining(
            keys.as_slice(),
            &chosen,
            Ghost(before.decoder().trellis()),
            Ghost(
                spec_inversion(
                    before.decoder().framing(),
                    before.decoder().received(),
                ),
            ),
        );
        proof {
            reveal(Viterbi::takes);
            assert(points_first@ =~= points_of(near_first@));
            assert(points_second@ =~= points_of(near_second@));
            assert(before.takes_by(
                (first, second),
                near_first@,
                near_second@,
                chosen@,
                bits@,
                *self,
            ));
        }
        bits
    }

    /// `next` is what the eight points of a mapping frame lead to, and
    /// `parts` the bits that each 4D symbol completes.
    #[verifier::opaque]
    pub open spec fn takes_frame_by(
        self,
        z: Seq<Received>,
        parts: Seq<Seq<bool>>,
        between: Seq<Self>,
        next: Self,
    ) -> bool {
        &&& parts.len() == 4
        &&& between.len() == 5
        &&& between[0] == self
        &&& between[4] == next
        &&& forall|j: int| 0 <= j < 5 ==> (#[trigger] between[j]).valid()
        &&& forall|j: int|
            0 <= j < 4 ==> (#[trigger] between[j]).takes(
                (z[2 * j], z[2 * j + 1]),
                parts[j],
                between[j + 1],
            )
    }

    /// `next` is what the eight points of a mapping frame lead to, and `bits`
    /// those of the mapping frame decided on.
    pub open spec fn takes_frame(self, z: Seq<Received>, bits: Seq<bool>, next: Self) -> bool {
        exists|parts: Seq<Seq<bool>>, between: Seq<Self>| #[trigger]
            self.takes_frame_by(z, parts, between, next) && bits == parts[0] + parts[1] + parts[2]
                + parts[3]
    }

    /// Takes the eight points of a mapping frame, and gives the bits of whole
    /// mapping frames decided so far.
    pub fn decode(&mut self, points: [Received; 8]) -> (bits: Vec<bool>)
        requires
            old(self).valid(),
            forall|i: int| 0 <= i < 8 ==> receivable(#[trigger] points@[i]),
        ensures
            final(self).valid(),
            old(self).takes_frame(points@, bits@, *final(self)),
    {
        let ghost before = *self;
        assert(forall|i: int| 0 <= i < 8 ==> receivable(#[trigger] points[i]));
        let mut bits = self.step(points[0], points[1]);
        let ghost first = bits@;
        let ghost a = *self;
        let mut more = self.step(points[2], points[3]);
        let ghost second = more@;
        let ghost b = *self;
        bits.append(&mut more);
        let mut more = self.step(points[4], points[5]);
        let ghost third = more@;
        let ghost c = *self;
        bits.append(&mut more);
        let mut more = self.step(points[6], points[7]);
        let ghost fourth = more@;
        bits.append(&mut more);
        proof {
            reveal(Viterbi::takes_frame_by);
            let parts = seq![first, second, third, fourth];
            let between = seq![before, a, b, c, *self];
            assert forall|j: int| 0 <= j < 4 implies (#[trigger] between[j]).takes(
                (points@[2 * j], points@[2 * j + 1]),
                parts[j],
                between[j + 1],
            ) by {
                if j == 0 {
                } else if j == 1 {
                } else if j == 2 {
                } else {
                }
            }
            assert(before.takes_frame_by(points@, parts, between, *self));
            assert(bits@ =~= parts[0] + parts[1] + parts[2] + parts[3]);
        }
        bits
    }
}

fn points(found: &[(Point, u64); 8]) -> (points: [Point; 8])
    ensures
        points@ == points_of(found@),
        forall|i: int| 0 <= i < 8 ==> #[trigger] points@[i] == found@[i].0,
{
    let points = [
        found[0].0,
        found[1].0,
        found[2].0,
        found[3].0,
        found[4].0,
        found[5].0,
        found[6].0,
        found[7].0,
    ];
    assert(points@ =~= points_of(found@));
    points
}

/// The metric of each state, less the smallest.
fn remaining(
    keys: &[u64],
    chosen: &Vec<Option<usize>>,
    Ghost(trellis): Ghost<Trellis>,
    Ghost(inverted): Ghost<bool>,
) -> (metrics: Vec<u64>)
    requires
        chosen.len() > 0,
        forall|state: int|
            0 <= state < chosen.len() ==> best_branch(
                trellis,
                inverted,
                keys@,
                state,
                #[trigger] chosen[state],
                keys.len() as int,
            ),
    ensures
        metrics@ == metrics_after(keys@, chosen@),
{
    let mut floor: u64 = match chosen[0] {
        Some(branch) => keys[branch],
        None => NO_PATH,
    };
    let ghost mut best: int = 0;
    assert(key_of(keys@, chosen[0]) == floor);
    let mut state: usize = 1;
    while state < chosen.len()
        invariant
            1 <= state <= chosen.len(),
            0 <= best < state,
            floor == key_of(keys@, chosen[best]),
            forall|s: int|
                0 <= s < chosen.len() ==> best_branch(
                    trellis,
                    inverted,
                    keys@,
                    s,
                    #[trigger] chosen[s],
                    keys.len() as int,
                ),
            forall|other: int|
                0 <= other < state ==> floor < key_of(keys@, #[trigger] chosen[other]) || (floor
                    == key_of(keys@, chosen[other]) && best <= other),
        decreases chosen.len() - state,
    {
        let here: u64 = match chosen[state] {
            Some(branch) => keys[branch],
            None => NO_PATH,
        };
        if here < floor {
            floor = here;
            proof {
                best = state as int;
            }
        }
        state += 1;
    }
    assert(best_state(keys@, chosen@, best));
    let ghost ahead = front(keys@, chosen@);
    assert(best_state(keys@, chosen@, ahead));
    assert(key_of(keys@, chosen[ahead]) == floor);
    let mut metrics: Vec<u64> = Vec::new();
    while metrics.len() < chosen.len()
        invariant
            metrics.len() <= chosen.len(),
            floor == key_of(keys@, chosen@[front(keys@, chosen@)]),
            forall|s: int|
                0 <= s < chosen.len() ==> best_branch(
                    trellis,
                    inverted,
                    keys@,
                    s,
                    #[trigger] chosen[s],
                    keys.len() as int,
                ),
            forall|s: int| 0 <= s < chosen.len() ==> floor <= key_of(keys@, #[trigger] chosen[s]),
            forall|s: int|
                0 <= s < metrics.len() ==> #[trigger] metrics[s] == metrics_after(keys@, chosen@)[s],
        decreases chosen.len() - metrics.len(),
    {
        let state = metrics.len();
        metrics.push(
            match chosen[state] {
                Some(branch) => keys[branch] - floor,
                None => NO_PATH,
            },
        );
    }
    assert(metrics@ =~= metrics_after(keys@, chosen@));
    metrics
}

/// One 4D symbol sent: the state before it, and its points.
pub struct Way {
    pub state: u8,
    pub points: (Point, Point),
}

/// A received point that is a point of the grid.
pub open spec fn exactly(p: Point) -> Received {
    ((65_536 * p.0) as i64, (65_536 * p.1) as i64)
}

pub open spec fn sendable(p: Point) -> bool {
    odd(wide(p)) && receivable(exactly(p)) && -16_384 <= p.0 <= 16_384 && -16_384 <= p.1 <= 16_384
}

/// The branch that `way` takes.
pub open spec fn branch_of(way: Way) -> int {
    64 * way.state + 8 * spec_subset(wide(way.points.0)) + spec_subset(wide(way.points.1))
}

/// The state after the first `n` of `path`, which ends in `state`.
pub open spec fn state_after(path: Seq<Way>, state: u8, n: int) -> u8 {
    if n < path.len() {
        path[n].state
    } else {
        state
    }
}

/// The best path by far is the one that was sent, into `state`.
pub open spec fn follows(viterbi: Viterbi, path: Seq<Way>, state: u8) -> bool {
    let survivors = viterbi.decoder().survivors();
    &&& viterbi.valid()
    &&& state < viterbi.metrics().len()
    &&& viterbi.metrics()[state as int] == 0
    &&& forall|other: int|
        0 <= other < viterbi.metrics().len() && other != state
            ==> #[trigger] viterbi.metrics()[other] > 0
    &&& survivors.len() == if path.len() < DEPTH {
        path.len() as int
    } else {
        DEPTH as int
    }
    &&& forall|t: int|
        0 <= t < survivors.len() ==> {
            let k = path.len() - survivors.len() + t;
            (#[trigger] survivors[t])[state_after(path, state, k + 1) as int] == Survivor {
                from: path[k].state,
                points: path[k].points,
            }
        }
}

proof fn lemma_exact_is_nearest(p: Point, found: Seq<(Point, u64)>)
    requires
        sendable(p),
        near(exactly(p), found),
    ensures
        found[spec_subset(wide(p)) as int].0 == p,
        found[spec_subset(wide(p)) as int].1 == 0,
        spec_subset(wide(p)) < 8,
        forall|label: int|
            0 <= label < 8 && label != spec_subset(wide(p)) ==> (#[trigger] found[label]).1 > 0,
{
    let z = (exactly(p).0 as int, exactly(p).1 as int);
    let own = spec_subset(wide(p)) as int;
    assert(z.0 - 65_536 * wide(p).0 == 0 && z.1 - 65_536 * wide(p).1 == 0);
    assert(0int * 0int == 0);
    assert(distance(z, wide(p)) == 0);
    assert(own < 8);
    assert forall|label: int|
        0 <= label < 8 && (#[trigger] found[label]).1 == 0 implies found[label].0 == p by {
        let q = wide(found[label].0);
        let (x, y) = (z.0 - 65_536 * q.0, z.1 - 65_536 * q.1);
        assert(x == 0 && y == 0) by (nonlinear_arith)
            requires
                x * x + y * y == 0,
        ;
    }
    assert(is_nearest(z, own as u8, wide(found[own].0)));
    let q = wide(found[own].0);
    let (x, y) = (z.0 - 65_536 * q.0, z.1 - 65_536 * q.1);
    assert(distance(z, q) <= 0);
    assert forall|label: int| 0 <= label < 8 && label != own implies (#[trigger] found[label]).1
        > 0 by {
        assert(is_nearest(z, label as u8, wide(found[label].0)));
    }
}

proof fn lemma_branch_parts(branch: int, way: Way)
    requires
        0 <= branch,
        spec_subset(wide(way.points.0)) < 8,
        spec_subset(wide(way.points.1)) < 8,
    ensures
        branch_of(way) / 64 == way.state,
        branch_of(way) / 8 % 8 == spec_subset(wide(way.points.0)),
        branch_of(way) % 8 == spec_subset(wide(way.points.1)),
        branch / 64 == way.state && branch / 8 % 8 == spec_subset(wide(way.points.0)) && branch % 8
            == spec_subset(wide(way.points.1)) ==> branch == branch_of(way),
{
}

/// All keys but that of the branch that was sent are above 0.
proof fn lemma_keys(
    viterbi: Viterbi,
    path: Seq<Way>,
    way: Way,
    first: Seq<(Point, u64)>,
    second: Seq<(Point, u64)>,
)
    requires
        follows(viterbi, path, way.state),
        sendable(way.points.0),
        sendable(way.points.1),
        near(exactly(way.points.0), first),
        near(exactly(way.points.1), second),
    ensures
        ({
            let keys = keys_of(viterbi.metrics(), first, second);
            &&& 0 <= branch_of(way) < keys.len()
            &&& keys[branch_of(way)] == 0
            &&& forall|branch: int|
                0 <= branch < keys.len() && branch != branch_of(way) ==> #[trigger] keys[branch]
                    > 0
        }),
{
    let keys = keys_of(viterbi.metrics(), first, second);
    lemma_exact_is_nearest(way.points.0, first);
    lemma_exact_is_nearest(way.points.1, second);
    lemma_branch_parts(0, way);
    assert forall|branch: int| 0 <= branch < keys.len() && branch != branch_of(way) implies #[trigger] keys[branch]
        > 0 by {
        lemma_branch_parts(branch, way);
        let (s, f, g) = (branch / 64, branch / 8 % 8, branch % 8);
        assert(0 <= s < viterbi.metrics().len());
        assert(keys[branch] == key(viterbi.metrics()[s], first[f].1, second[g].1));
        if s == way.state {
            if f == spec_subset(wide(way.points.0)) {
                assert(second[g].1 > 0);
            } else {
                assert(first[f].1 > 0);
            }
        } else {
            assert(viterbi.metrics()[s] > 0);
        }
    }
}

/// The oldest survivor on the way back from the end of a path.
proof fn lemma_trace(survivors: Seq<Seq<Survivor>>, path: Seq<Way>, state: u8)
    requires
        0 < survivors.len() <= path.len(),
        forall|t: int|
            0 <= t < survivors.len() ==> {
                let k = path.len() - survivors.len() + t;
                (#[trigger] survivors[t])[state_after(path, state, k + 1) as int] == Survivor {
                    from: path[k].state,
                    points: path[k].points,
                }
            },
    ensures
        trace(survivors, state).points == path[path.len() - survivors.len()].points,
    decreases survivors.len(),
{
    let last = path.len() - 1;
    assert(survivors[survivors.len() - 1][state as int] == Survivor {
        from: path[last].state,
        points: path[last].points,
    });
    if survivors.len() > 1 {
        let less = survivors.drop_last();
        let earlier = path.drop_last();
        assert forall|t: int| 0 <= t < less.len() implies {
            let k = earlier.len() - less.len() + t;
            (#[trigger] less[t])[state_after(earlier, path[last].state, k + 1) as int] == Survivor {
                from: earlier[k].state,
                points: earlier[k].points,
            }
        } by {
            let k = earlier.len() - less.len() + t;
            assert(survivors[t] == less[t]);
            assert(state_after(earlier, path[last].state, k + 1) == state_after(path, state, k + 1));
        }
        lemma_trace(less, earlier, path[last].state);
    }
}

/// A decoder that follows what was sent goes on following it, where the code
/// allows the points that come, and decides on those of `DEPTH` 4D symbols
/// before.
pub proof fn law_follows_what_is_sent(
    viterbi: Viterbi,
    path: Seq<Way>,
    way: Way,
    bits: Seq<bool>,
    next: Viterbi,
)
    requires
        follows(viterbi, path, way.state),
        next.valid(),
        sendable(way.points.0),
        sendable(way.points.1),
        allowed(
            viterbi.decoder().trellis(),
            spec_inversion(viterbi.decoder().framing(), viterbi.decoder().received()),
            branch_of(way),
        ),
        viterbi.takes((exactly(way.points.0), exactly(way.points.1)), bits, next),
    ensures
        follows(
            next,
            path.push(way),
            leads_to(viterbi.decoder().trellis(), branch_of(way)) as u8,
        ),
        ({
            let d = viterbi.decoder();
            let n = next.decoder();
            let sent = path.push(way);
            &&& n.framing() == d.framing()
            &&& n.trellis() == d.trellis()
            &&& n.received() == (d.received() + 1) % (4 * d.framing().p * d.framing().j)
            &&& if path.len() < DEPTH {
                n.same_output(d) && bits == Seq::<bool>::empty()
            } else {
                let decided = d.decided().push(sent[path.len() - DEPTH].points);
                if decided.len() < 4 {
                    &&& n.decided() == decided
                    &&& n.frame() == d.frame()
                    &&& n.quadrant() == d.quadrant()
                    &&& bits == Seq::<bool>::empty()
                } else {
                    &&& n.decided() == Seq::<(Point, Point)>::empty()
                    &&& n.frame() == (d.frame() + 1) % d.framing().p as int
                    &&& n.quadrant() == named(sent[path.len() - DEPTH].points.0).1
                    &&& bits == unmapped(
                        d.framing(),
                        d.framing().frame_bits(d.frame()),
                        d.quadrant(),
                        decided,
                    )
                }
            }
        }),
{
    reveal(Viterbi::takes);
    let d = viterbi.decoder();
    let z = (exactly(way.points.0), exactly(way.points.1));
    let (first, second, chosen) = choose|
        first: Seq<(Point, u64)>,
        second: Seq<(Point, u64)>,
        chosen: Seq<Option<usize>>,
    | #[trigger]
        viterbi.takes_by(z, first, second, chosen, bits, next);
    let keys = keys_of(viterbi.metrics(), first, second);
    let trellis = d.trellis();
    let inverted = spec_inversion(d.framing(), d.received());
    let branch = branch_of(way);
    let end = leads_to(trellis, branch) as int;
    lemma_keys(viterbi, path, way, first, second);
    lemma_exact_is_nearest(way.points.0, first);
    lemma_exact_is_nearest(way.points.1, second);
    lemma_branch_parts(0, way);
    reveal(leads_to);
    crate::v34::trellis::law_stays_within_its_states(
        trellis,
        (branch / 64) as u8,
        spec_inputs((branch / 8 % 8) as u8, (branch % 8) as u8) as u8,
    );
    assert(0 <= end < chosen.len());
    assert(enters(trellis, inverted, branch, end, keys.len() as int));
    assert(best_branch(trellis, inverted, keys, end, chosen[end], keys.len() as int));
    assert(chosen[end] == Some(branch as usize)) by {
        match chosen[end] {
            Some(best) => {
                if best != branch {
                    assert(keys[best as int] > 0);
                }
            },
            None => {},
        }
    }
    assert forall|other: int| 0 <= other < chosen.len() && other != end implies key_of(
        keys,
        #[trigger] chosen[other],
    ) > 0 by {
        assert(best_branch(trellis, inverted, keys, other, chosen[other], keys.len() as int));
        match chosen[other] {
            Some(best) => {
                assert(enters(trellis, inverted, best as int, other, keys.len() as int));
                assert(best != branch);
            },
            None => {},
        }
    }
    assert(key_of(keys, chosen[end]) == 0);
    assert(best_state(keys, chosen, end));
    let ahead = front(keys, chosen);
    assert(best_state(keys, chosen, ahead));
    assert(ahead == end) by {
        if ahead != end {
            assert(key_of(keys, chosen[ahead]) > 0);
        }
    }
    let sent = path.push(way);
    let state = end as u8;
    let newest = survivors_of(chosen, points_of(first), points_of(second));
    let survivors = d.survivors().push(newest);
    assert(newest[end] == Survivor { from: way.state, points: way.points });
    assert forall|t: int| 0 <= t < survivors.len() implies {
        let k = sent.len() - survivors.len() + t;
        (#[trigger] survivors[t])[state_after(sent, state, k + 1) as int] == Survivor {
            from: sent[k].state,
            points: sent[k].points,
        }
    } by {
        let k = sent.len() - survivors.len() + t;
        if t < d.survivors().len() {
            assert(survivors[t] == d.survivors()[t]);
            assert(state_after(sent, state, k + 1) == state_after(path, way.state, k + 1));
        }
    }
    assert forall|other: int|
        0 <= other < next.metrics().len() && other != end implies #[trigger] next.metrics()[other]
        > 0 by {
        assert(key_of(keys, chosen[other]) > 0);
    }
    if path.len() >= DEPTH {
        lemma_trace(survivors, sent, state);
        let kept = survivors.skip(1);
        assert forall|t: int| 0 <= t < kept.len() implies {
            let k = sent.len() - kept.len() + t;
            (#[trigger] kept[t])[state_after(sent, state, k + 1) as int] == Survivor {
                from: sent[k].state,
                points: sent[k].points,
            }
        } by {
            assert(kept[t] == survivors[t + 1]);
        }
    }
}

/// The key of a path is the sum of its squared distances, which stops short
/// of that of no path at all, and no path stays none.
pub proof fn law_keys_add_up_distances(metric: u64, first: u64, second: u64)
    ensures
        metric + first + second < 0x7FF0_0000_0000_0000 ==> key(metric, first, second) == metric + first + second,
        metric >= 0x7FF0_0000_0000_0000 ==> key(metric, first, second) == 0x7FF0_0000_0000_0000,
        metric < 0x7FF0_0000_0000_0000 ==> key(metric, first, second) < 0x7FF0_0000_0000_0000,
        metric < 0x7FF0_0000_0000_0000 && metric + first + second >= 0x7FF0_0000_0000_0000 ==> key(metric, first, second)
            == 0x7FEF_FFFF_FFFF_FFFF,
{
}

/// Each branch has the key of the path into its state and the two points of
/// its subsets.
pub proof fn law_each_branch_has_its_key(
    metrics: Seq<u64>,
    first: Seq<(Point, u64)>,
    second: Seq<(Point, u64)>,
    state: int,
    i: int,
    j: int,
)
    requires
        0 <= state < metrics.len(),
        0 <= i < 8,
        0 <= j < 8,
    ensures
        keys_of(metrics, first, second).len() == 64 * metrics.len(),
        keys_of(metrics, first, second)[64 * state + 8 * i + j] == key(metrics[state], first[i].1, second[j].1),
{
    let branch = 64 * state + 8 * i + j;
    assert(branch / 64 == state && branch / 8 % 8 == i && branch % 8 == j);
}

/// Metrics keep their differences, and that of the state in front is 0.
pub proof fn law_metrics_keep_their_differences(
    keys: Seq<u64>,
    chosen: Seq<Option<usize>>,
    state: int,
    other: int,
)
    requires
        0 <= state < chosen.len(),
        0 <= other < chosen.len(),
        exists|best: int| best_state(keys, chosen, best),
        forall|i: int| 0 <= i < chosen.len() && (#[trigger] chosen[i]) is Some ==> keys[chosen[i]->0 as int]
            < 0x7FF0_0000_0000_0000,
        chosen[state] is Some,
    ensures
        ({
            let metrics = metrics_after(keys, chosen);
            &&& metrics.len() == chosen.len()
            &&& chosen[other] is Some ==> metrics[state] - metrics[other] == keys[chosen[state]->0 as int]
                - keys[chosen[other]->0 as int]
            &&& chosen[other] is None ==> metrics[other] == 0x7FF0_0000_0000_0000
            &&& 0 <= front(keys, chosen) < chosen.len()
            &&& chosen[front(keys, chosen)] is Some
            &&& metrics[front(keys, chosen)] == 0
        }),
{
    let best = front(keys, chosen);
    assert(best_state(keys, chosen, best));
    let a = chosen[state];
    let b = chosen[other];
    let c = chosen[best];
}

/// A coordinate is rounded to the nearest multiple of 4 units, a half away
/// from 0. Where the two multiples do not fit the checkerboard, the one that
/// is farther off goes one step on, the second of equals.
pub proof fn law_decides_by_rounding(z: (int, int), label: int, steps: (int, int))
    requires
        0 <= label < 8,
        ({
            let base = spec_representative(label);
            let (u, v) = (z.0 - 65_536 * base.0, z.1 - 65_536 * base.1);
            &&& u >= 0 ==> -131_072 <= u - 262_144 * steps.0 < 131_072
            &&& u < 0 ==> -131_072 < u - 262_144 * steps.0 <= 131_072
            &&& v >= 0 ==> -131_072 <= v - 262_144 * steps.1 < 131_072
            &&& v < 0 ==> -131_072 < v - 262_144 * steps.1 <= 131_072
        }),
    ensures
        ({
            let base = spec_representative(label);
            let p = spec_nearest(z, label);
            let (a, b) = (z.0 - 65_536 * base.0 - 262_144 * steps.0, z.1 - 65_536 * base.1 - 262_144 * steps.1);
            let (whole_x, whole_y) = (base.0 + 4 * steps.0, base.1 + 4 * steps.1);
            let x_goes = (a > b && a > -b) || (-a > b && -a > -b);
            &&& (steps.0 + steps.1) % 2 == 0 ==> p == (whole_x, whole_y)
            &&& (steps.0 + steps.1) % 2 == 1 && x_goes ==> p.1 == whole_y && p.0 == whole_x + if a >= 0 {
                4int
            } else {
                -4int
            }
            &&& (steps.0 + steps.1) % 2 == 1 && !x_goes ==> p.0 == whole_x && p.1 == whole_y + if b >= 0 {
                4int
            } else {
                -4int
            }
        }),
{
    reveal(spec_nearest);
    let base = spec_representative(label);
    let (u, v) = (z.0 - 65_536 * base.0, z.1 - 65_536 * base.1);
    lemma_one_way_to_round(u, steps.0);
    lemma_one_way_to_round(v, steps.1);
}

proof fn lemma_one_way_to_round(x: int, steps: int)
    requires
        x >= 0 ==> -131_072 <= x - 262_144 * steps < 131_072,
        x < 0 ==> -131_072 < x - 262_144 * steps <= 131_072,
    ensures
        spec_rounded(x) == steps,
{
    let up = (magnitude(x) + 131_072) / 262_144;
}

} // verus!

//! The 16-point QAM of V.22bis at 600 baud, and its 4-point 1200 bit/s form,
//! on a grid whose points have a mean power of 10.

use crate::dpsk::{dibit, quarter_turns, table_1};
use vstd::prelude::*;

verus! {

/// How many bits each symbol carries.
#[derive(Debug, Clone, Copy, PartialEq, Eq, Structural)]
pub enum Rate {
    /// Dibits as quadrant changes, on the 01 point of each quadrant.
    Bps1200,
    /// Quadbits: a quadrant change, then one of four points in the quadrant.
    Bps2400,
}

pub type Point = (i8, i8);

/// Figure 2 of V.22bis, in quadrant 1, for the last two bits of a quadbit.
pub open spec fn figure_2(third: bool, fourth: bool) -> Point {
    (
        if fourth {
            3i8
        } else {
            1
        },
        if third {
            3i8
        } else {
            1
        },
    )
}

/// Figure 2 of V.22bis, in quadrant 1, for the last two bits of a quadbit.
#[must_use]
pub fn inner_point(third: bool, fourth: bool) -> (point: Point)
    ensures
        point == figure_2(third, fourth),
{
    let x: i8 = if fourth {
        3
    } else {
        1
    };
    let y: i8 = if third {
        3
    } else {
        1
    };
    (x, y)
}

/// A point turned counterclockwise.
pub open spec fn turned(point: Point, quarter_turns: int) -> Point {
    if quarter_turns % 4 == 0 {
        point
    } else if quarter_turns % 4 == 1 {
        ((-point.1) as i8, point.0)
    } else if quarter_turns % 4 == 2 {
        ((-point.0) as i8, (-point.1) as i8)
    } else {
        (point.1, (-point.0) as i8)
    }
}

/// A point turned counterclockwise.
#[must_use]
pub fn rotate(point: Point, quarter_turns: u8) -> (out: Point)
    requires
        -127 <= point.0,
        -127 <= point.1,
    ensures
        out == turned(point, quarter_turns as int),
{
    match quarter_turns % 4 {
        0 => point,
        1 => (-point.1, point.0),
        2 => (-point.0, -point.1),
        _ => (point.1, -point.0),
    }
}

/// A point of the constellation, as a decision names it.
#[derive(Debug, Clone, Copy, PartialEq, Eq)]
pub struct Decision {
    pub quadrant: u8,
    pub inner: (bool, bool),
}

impl Decision {
    pub open spec fn spec_point(self) -> Point {
        turned(figure_2(self.inner.0, self.inner.1), self.quadrant as int)
    }

    #[must_use]
    pub fn point(self) -> (point: Point)
        ensures
            point == self.spec_point(),
    {
        rotate(inner_point(self.inner.0, self.inner.1), self.quadrant)
    }

    pub open spec fn is_at(self, rate: Rate) -> bool {
        &&& self.quadrant < 4
        &&& rate is Bps1200 ==> self.inner == (false, true)
    }
}

/// The points that a rate uses, each once, by quadrant.
pub open spec fn spec_decisions(rate: Rate) -> Seq<Decision> {
    match rate {
        Rate::Bps1200 => Seq::new(
            4,
            |i: int| Decision { quadrant: i as u8, inner: (false, true) },
        ),
        Rate::Bps2400 => Seq::new(
            16,
            |i: int| Decision { quadrant: (i / 4) as u8, inner: ((i / 2) % 2 == 1, i % 2 == 1) },
        ),
    }
}

/// The points that a rate uses, each once, by quadrant.
#[must_use]
pub fn decisions(rate: Rate) -> (all: Vec<Decision>)
    ensures
        all@ == spec_decisions(rate),
{
    let count: u8 = match rate {
        Rate::Bps1200 => 4,
        Rate::Bps2400 => 16,
    };
    let mut all: Vec<Decision> = Vec::new();
    let mut i: u8 = 0;
    while i < count
        invariant
            i <= count == spec_decisions(rate).len(),
            all@ == spec_decisions(rate).take(i as int),
        decreases count - i,
    {
        all.push(
            match rate {
                Rate::Bps1200 => Decision { quadrant: i, inner: (false, true) },
                Rate::Bps2400 => Decision {
                    quadrant: i / 4,
                    inner: ((i / 2) % 2 == 1, i % 2 == 1),
                },
            },
        );
        assert(all@ =~= spec_decisions(rate).take(i + 1));
        i += 1;
    }
    assert(all@ =~= spec_decisions(rate));
    all
}

/// A received point, in 2⁻¹⁰ of the steps of figure 2.
pub type Received = (i32, i32);

/// How far a received point may be from the origin.
pub const RECEIVED_LIMIT: i32 = 0x10_0000;

pub open spec fn receivable(z: Received) -> bool {
    -RECEIVED_LIMIT <= z.0 <= RECEIVED_LIMIT && -RECEIVED_LIMIT <= z.1 <= RECEIVED_LIMIT
}

/// The squared distance of a received point from a decision.
pub open spec fn distance(z: Received, decision: Decision) -> int {
    let (x, y) = (z.0 - 1024 * decision.spec_point().0, z.1 - 1024 * decision.spec_point().1);
    x * x + y * y
}

fn distance_from(z: Received, decision: Decision) -> (squared: i64)
    requires
        receivable(z),
    ensures
        squared == distance(z, decision),
{
    let (x, y) = decision.point();
    let dx: i64 = z.0 as i64 - 1024 * x as i64;
    let dy: i64 = z.1 as i64 - 1024 * y as i64;
    proof {
        assert(0 <= dx * dx <= 0x200_0000_0000) by (nonlinear_arith)
            requires
                -0x12_0000 <= dx <= 0x12_0000,
        ;
        assert(0 <= dy * dy <= 0x200_0000_0000) by (nonlinear_arith)
            requires
                -0x12_0000 <= dy <= 0x12_0000,
        ;
    }
    dx * dx + dy * dy
}

/// The point of a rate that is nearest to a received one, the first of
/// equals.
#[must_use]
pub fn decide(z: Received, rate: Rate) -> (decision: Decision)
    requires
        receivable(z),
    ensures
        decision.is_at(rate),
        forall|other: Decision| #[trigger]
            other.is_at(rate) ==> distance(z, decision) <= distance(z, other),
        exists|i: int| #[trigger]
            is_first_nearest(z, spec_decisions(rate), i) && decision == spec_decisions(rate)[i],
{
    let all = decisions(rate);
    let mut best: usize = 0;
    let mut least: i64 = distance_from(z, all[0]);
    let mut i: usize = 1;
    while i < all.len()
        invariant
            receivable(z),
            1 <= i <= all.len(),
            best < i,
            all@ == spec_decisions(rate),
            least == distance(z, all@[best as int]),
            forall|k: int| 0 <= k < i ==> least <= distance(z, #[trigger] all@[k]),
            forall|k: int| 0 <= k < best ==> least < distance(z, #[trigger] all@[k]),
        decreases all.len() - i,
    {
        let here = distance_from(z, all[i]);
        if here < least {
            best = i;
            least = here;
        }
        i += 1;
    }
    proof {
        law_a_rate_uses_each_of_its_points(rate, all@[best as int]);
        assert(spec_decisions(rate).contains(all@[best as int]));
        assert forall|other: Decision| #[trigger] other.is_at(rate) implies least <= distance(
            z,
            other,
        ) by {
            law_a_rate_uses_each_of_its_points(rate, other);
            let k = choose|k: int| 0 <= k < all@.len() && all@[k] == other;
            assert(all@[k] == other);
        }
        assert(is_first_nearest(z, spec_decisions(rate), best as int));
    }
    all[best]
}

/// None of `all` is nearer than that at `i`, and none before it as near.
pub open spec fn is_first_nearest(z: Received, all: Seq<Decision>, i: int) -> bool {
    &&& 0 <= i < all.len()
    &&& forall|k: int| 0 <= k < all.len() ==> distance(z, all[i]) <= distance(z, #[trigger] all[k])
    &&& forall|k: int| 0 <= k < i ==> distance(z, all[i]) < distance(z, #[trigger] all[k])
}

/// A point that is sent is decided on, where nothing has changed it.
pub proof fn law_decides_on_what_is_sent(rate: Rate, sent: Decision, z: Received, decision: Decision)
    requires
        sent.is_at(rate),
        decision.is_at(rate),
        z.0 == 1024 * sent.spec_point().0,
        z.1 == 1024 * sent.spec_point().1,
        forall|other: Decision| #[trigger]
            other.is_at(rate) ==> distance(z, decision) <= distance(z, other),
    ensures
        decision == sent,
{
    assert(0int * 0int == 0);
    assert(distance(z, sent) == 0);
    let (x, y) = (z.0 - 1024 * decision.spec_point().0, z.1 - 1024 * decision.spec_point().1);
    assert(x == 0 && y == 0) by (nonlinear_arith)
        requires
            x * x + y * y <= 0,
    ;
    law_points_tell_decisions_apart(decision, sent);
}

/// A rate uses each of its points.
pub proof fn law_a_rate_uses_each_of_its_points(rate: Rate, decision: Decision)
    ensures
        decision.is_at(rate) <==> spec_decisions(rate).contains(decision),
{
    let all = spec_decisions(rate);
    if decision.is_at(rate) {
        let i = match rate {
            Rate::Bps1200 => decision.quadrant as int,
            Rate::Bps2400 => 4 * decision.quadrant + (if decision.inner.0 {
                2int
            } else {
                0
            }) + (if decision.inner.1 {
                1int
            } else {
                0
            }),
        };
        assert(all[i] == decision);
    }
}

/// The decision that carries `bits` after one in `quadrant`.
pub open spec fn decision_of(quadrant: int, bits: Seq<bool>) -> Decision {
    Decision {
        quadrant: ((quadrant + table_1(bits[0], bits[1])) % 4) as u8,
        inner: if bits.len() == 4 {
            (bits[2], bits[3])
        } else {
            (false, true)
        },
    }
}

pub open spec fn bits_per_symbol(rate: Rate) -> int {
    match rate {
        Rate::Bps1200 => 2,
        Rate::Bps2400 => 4,
    }
}

/// Maps bits to the points of symbols.
#[derive(Debug, Clone, Copy, PartialEq, Eq, Structural)]
pub struct Mapper {
    pub quadrant: u8,
}

impl Mapper {
    #[must_use]
    pub fn new() -> (mapper: Self)
        ensures
            mapper.quadrant == 0,
    {
        Self { quadrant: 0 }
    }

    /// The point of a symbol: two bits, or four at 2400 bit/s.
    pub fn map(&mut self, bits: &[bool]) -> (decision: Decision)
        requires
            bits.len() == 2 || bits.len() == 4,
            old(self).quadrant < 4,
        ensures
            decision == decision_of(old(self).quadrant as int, bits@),
            final(self).quadrant == decision.quadrant,
            final(self).quadrant < 4,
    {
        self.quadrant = (self.quadrant + quarter_turns(bits[0], bits[1])) % 4;
        let inner = if bits.len() == 4 {
            (bits[2], bits[3])
        } else {
            (false, true)
        };
        Decision { quadrant: self.quadrant, inner }
    }

    /// The bits of a symbol decided on, after the last.
    pub fn unmap(&mut self, decision: Decision, rate: Rate) -> (bits: Vec<bool>)
        requires
            decision.quadrant < 4,
            old(self).quadrant < 4,
        ensures
            bits.len() == bits_per_symbol(rate),
            table_1(bits@[0], bits@[1]) == (decision.quadrant + 4 - old(self).quadrant) % 4,
            rate is Bps2400 ==> bits@[2] == decision.inner.0 && bits@[3] == decision.inner.1,
            final(self).quadrant == decision.quadrant,
    {
        let (first, second) = dibit((decision.quadrant + 4 - self.quadrant) % 4);
        self.quadrant = decision.quadrant;
        match rate {
            Rate::Bps1200 => vec![first, second],
            Rate::Bps2400 => vec![first, second, decision.inner.0, decision.inner.1],
        }
    }
}

/// Each point belongs to one decision.
pub proof fn law_points_tell_decisions_apart(a: Decision, b: Decision)
    requires
        a.quadrant < 4,
        b.quadrant < 4,
        a.spec_point() == b.spec_point(),
    ensures
        a == b,
{
}

/// Unmapping a symbol in the quadrant it was mapped in gives its bits back.
pub proof fn law_unmaps_what_it_maps(quadrant: int, bits: Seq<bool>, found: Seq<bool>)
    requires
        0 <= quadrant < 4,
        bits.len() == 2 || bits.len() == 4,
        found.len() == bits.len(),
        ({
            let decision = decision_of(quadrant, bits);
            &&& table_1(found[0], found[1]) == (decision.quadrant + 4 - quadrant) % 4
            &&& bits.len() == 4 ==> found[2] == decision.inner.0 && found[3] == decision.inner.1
        }),
    ensures
        found == bits,
{
    assert(table_1(found[0], found[1]) == table_1(bits[0], bits[1]));
    assert(found =~= bits);
}

/// Figure 2: in quadrant 1 the last two bits pick (1, 1), (3, 1), (1, 3) or
/// (3, 3), and each quadrant is the one before turned by a quarter
/// counterclockwise. At 1200 bit/s only 01 is used.
pub proof fn law_figure_2(point: Point, turns: int)
    requires
        -3 <= point.0 <= 3,
        -3 <= point.1 <= 3,
    ensures
        figure_2(false, false) == (1i8, 1i8),
        figure_2(false, true) == (3i8, 1i8),
        figure_2(true, false) == (1i8, 3i8),
        figure_2(true, true) == (3i8, 3i8),
        turned(point, 4 * turns) == point,
        turned(point, turns + 1).0 == -turned(point, turns).1,
        turned(point, turns + 1).1 == turned(point, turns).0,
        (Decision { quadrant: 0, inner: (true, false) }).spec_point() == figure_2(true, false),
{
}

/// The first two bits advance the quadrant as table 1 of V.22 has it, and the
/// other two, at 2400 bit/s, pick the point in it.
pub proof fn law_a_quadbit_turns_then_picks(quadrant: int, bits: Seq<bool>)
    requires
        0 <= quadrant < 4,
        bits.len() == 2 || bits.len() == 4,
    ensures
        ({
            let decision = decision_of(quadrant, bits);
            &&& !bits[0] && !bits[1] ==> decision.quadrant == (quadrant + 1) % 4
            &&& !bits[0] && bits[1] ==> decision.quadrant == quadrant
            &&& bits[0] && bits[1] ==> decision.quadrant == (quadrant + 3) % 4
            &&& bits[0] && !bits[1] ==> decision.quadrant == (quadrant + 2) % 4
            &&& bits.len() == 2 ==> decision.inner == (false, true)
            &&& bits.len() == 4 ==> decision.inner == (bits[2], bits[3])
            &&& bits_per_symbol(Rate::Bps1200) == 2 && bits_per_symbol(Rate::Bps2400) == 4
        }),
{
}

/// How far a point received is from one sent, in squares of 1/1024.
pub proof fn law_distance_is_euclidean(z: Received, decision: Decision)
    ensures
        ({
            let p = decision.spec_point();
            distance(z, decision) == (z.0 - 1024 * p.0) * (z.0 - 1024 * p.0) + (z.1 - 1024 * p.1) * (z.1 - 1024 * p.1)
        }),
{
}

} // verus!

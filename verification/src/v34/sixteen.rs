//! Decisions on the 16 points that J or Jd asks for: the four points nearest
//! the origin in each quarter.

use crate::v34::constellation::{
    law_labels_every_point_of_all_four_quarters, quarter, rotate, spec_rotate, wide, Constellation,
    Point,
};
use crate::v34::viterbi::{distance, receivable, Received};
use vstd::prelude::*;

verus! {

/// The quarter turns and the label of the point at place `n`.
pub open spec fn spec_place(n: int) -> (int, int) {
    (n / 4, n % 4)
}

/// The point at place `n`: each quarter by its labels.
pub open spec fn point_at(n: int) -> (int, int) {
    spec_rotate(wide(quarter()[spec_place(n).1]), spec_place(n).0)
}

/// Of the points nearest to `z`, the first.
pub open spec fn is_first_nearest(z: Received, n: int) -> bool {
    &&& 0 <= n < 16
    &&& forall|k: int|
        0 <= k < 16 ==> distance(wide_received(z), point_at(n)) <= distance(
            wide_received(z),
            #[trigger] point_at(k),
        )
    &&& forall|k: int|
        0 <= k < n ==> distance(wide_received(z), point_at(n)) < distance(
            wide_received(z),
            #[trigger] point_at(k),
        )
}

pub open spec fn wide_received(z: Received) -> (int, int) {
    (z.0 as int, z.1 as int)
}

fn distance_from(z: Received, point: Point) -> (apart: i64)
    requires
        receivable(z),
        -49 <= point.0 <= 49,
        -49 <= point.1 <= 49,
    ensures
        apart == distance(wide_received(z), wide(point)),
{
    let x: i64 = z.0 - 65_536 * point.0 as i64;
    let y: i64 = z.1 - 65_536 * point.1 as i64;
    assert(0 <= x * x <= 0x1021_0000_0000_0000 && 0 <= y * y <= 0x1021_0000_0000_0000)
        by (nonlinear_arith)
        requires
            -0x4040_0000 <= x <= 0x4040_0000,
            -0x4040_0000 <= y <= 0x4040_0000,
    ;
    x * x + y * y
}

/// The quarter turns and the label of the nearest of the 16 points.
#[must_use]
pub fn nearest_sixteen(z: Received, constellation: &Constellation) -> (found: (u8, u8))
    requires
        receivable(z),
        constellation.valid(),
    ensures
        found.0 < 4,
        found.1 < 4,
        is_first_nearest(z, 4 * found.0 + found.1),
{
    let mut best: u8 = 0;
    let mut least: i64 = 0;
    let mut n: u8 = 0;
    while n < 16
        invariant
            receivable(z),
            constellation.valid(),
            n <= 16,
            n == 0 ==> best == 0,
            n > 0 ==> best < n,
            n > 0 ==> least == distance(wide_received(z), point_at(best as int)),
            forall|k: int|
                0 <= k < n ==> least <= distance(wide_received(z), #[trigger] point_at(k)),
            forall|k: int|
                0 <= k < best ==> least < distance(wide_received(z), #[trigger] point_at(k)),
        decreases 16 - n,
    {
        let point = rotate(constellation.point((n % 4) as usize), n / 4);
        assert(wide(point) == point_at(n as int));
        let here = distance_from(z, point);
        if n == 0 || here < least {
            best = n;
            least = here;
        }
        n += 1;
    }
    (best / 4, best % 4)
}

/// A point that comes as it was sent is decided on as that point.
pub proof fn law_decides_on_the_point_sent(turns: int, label: int, z: Received, n: int)
    requires
        0 <= turns < 4,
        0 <= label < 4,
        z.0 == 65_536 * point_at(4 * turns + label).0,
        z.1 == 65_536 * point_at(4 * turns + label).1,
        is_first_nearest(z, n),
    ensures
        spec_place(n) == (turns, label),
{
    let sent = point_at(4 * turns + label);
    let decided = point_at(n);
    assert(distance(wide_received(z), sent) == 0) by (nonlinear_arith)
        requires
            z.0 == 65_536 * sent.0,
            z.1 == 65_536 * sent.1,
            distance(wide_received(z), sent) == (z.0 - 65_536 * sent.0) * (z.0 - 65_536 * sent.0)
                + (z.1 - 65_536 * sent.1) * (z.1 - 65_536 * sent.1),
    ;
    let (x, y) = (z.0 - 65_536 * decided.0, z.1 - 65_536 * decided.1);
    assert(x * x + y * y <= 0);
    assert(x == 0 && y == 0) by (nonlinear_arith)
        requires
            x * x + y * y <= 0,
    ;
    crate::v34::constellation::law_figure_5_exists();
    let p = (decided.0 as i32, decided.1 as i32);
    assert(crate::v34::constellation::on_grid(quarter()[label]));
    assert(crate::v34::constellation::on_grid(quarter()[n % 4]));
    law_labels_every_point_of_all_four_quarters(label, turns, n % 4, n / 4, p);
}

/// Places go through the four points nearest the origin in each quarter, a
/// quarter turn clockwise after four of them. The decision is the first of
/// those with the least squared distance.
pub proof fn law_sixteen_points_in_four_quarters(turns: int, label: int, z: Received, n: int, k: int)
    requires
        0 <= turns < 4,
        0 <= label < 4,
        is_first_nearest(z, n),
        0 <= k < 16,
    ensures
        ({
            let p = quarter()[label];
            let (near, far) = (point_at(n), point_at(k));
            let apart = (z.0 - 65_536 * near.0) * (z.0 - 65_536 * near.0) + (z.1 - 65_536 * near.1) * (z.1 - 65_536
                * near.1);
            let farther = (z.0 - 65_536 * far.0) * (z.0 - 65_536 * far.0) + (z.1 - 65_536 * far.1) * (z.1 - 65_536
                * far.1);
            &&& turns == 0 ==> point_at(4 * turns + label) == (p.0 as int, p.1 as int)
            &&& turns == 1 ==> point_at(4 * turns + label) == (p.1 as int, -p.0)
            &&& turns == 2 ==> point_at(4 * turns + label) == (-p.0, -p.1)
            &&& turns == 3 ==> point_at(4 * turns + label) == (-p.1, p.0 as int)
            &&& spec_place(4 * turns + label) == (turns, label)
            &&& apart <= farther
            &&& k < n ==> apart < farther
        }),
{
    let near = point_at(n);
    let far = point_at(k);
    assert(distance(wide_received(z), near) <= distance(wide_received(z), far));
}

} // verus!

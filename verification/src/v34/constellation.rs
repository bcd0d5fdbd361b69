//! The 1664-point superconstellation of § 9.1 and figure 5.

use vstd::prelude::*;

verus! {

/// Points in the quarter-superconstellation of figure 5.
pub const QUARTER: usize = 416;

/// A point on the grid of odd integers.
pub type Point = (i32, i32);

/// The points that the quarter is taken from: 1 plus multiples of 4 each way.
pub open spec fn on_grid(p: Point) -> bool {
    &&& -47 <= p.0 <= 49
    &&& -47 <= p.1 <= 49
    &&& p.0 % 4 == 1
    &&& p.1 % 4 == 1
}

pub open spec fn norm(p: Point) -> int {
    p.0 * p.0 + p.1 * p.1
}

/// Figure 5 labels points from the origin outwards, and those at one
/// distance from the top down.
pub open spec fn before(p: Point, q: Point) -> bool {
    norm(p) < norm(q) || (norm(p) == norm(q) && p.1 > q.1)
}

spec fn ascending(t: Seq<Point>) -> bool {
    forall|i: int, j: int| 0 <= i < j < t.len() ==> before(#[trigger] t[i], #[trigger] t[j])
}

/// `t` holds the first points of the grid, as figure 5 labels them.
pub open spec fn is_quarter(t: Seq<Point>) -> bool {
    &&& t.len() == QUARTER
    &&& forall|i: int| 0 <= i < t.len() ==> on_grid(#[trigger] t[i])
    &&& forall|i: int, j: int|
        0 <= i < j < t.len() ==> before(#[trigger] t[i], #[trigger] t[j])
    &&& forall|p: Point| #[trigger] on_grid(p) && !t.contains(p) ==> before(t.last(), p)
}

/// The points of figure 5 by their labels.
pub open spec fn quarter() -> Seq<Point> {
    choose|t: Seq<Point>| is_quarter(t)
}

/// Turned clockwise by quarter turns.
pub open spec fn spec_rotate(p: (int, int), turns: int) -> (int, int) {
    if turns % 4 == 0 {
        p
    } else if turns % 4 == 1 {
        (p.1, -p.0)
    } else if turns % 4 == 2 {
        (-p.0, -p.1)
    } else {
        (-p.1, p.0)
    }
}

pub open spec fn wide(p: Point) -> (int, int) {
    (p.0 as int, p.1 as int)
}

/// `label` and `turns` name `p`.
pub open spec fn names(label: int, turns: int, p: Point) -> bool {
    &&& 0 <= label < QUARTER
    &&& 0 <= turns < 4
    &&& spec_rotate(wide(quarter()[label]), turns) == wide(p)
}

proof fn lemma_total(p: Point, q: Point)
    requires
        on_grid(p),
        on_grid(q),
    ensures
        p == q || before(p, q) || before(q, p),
        !before(p, p),
{
    if norm(p) == norm(q) && p.1 == q.1 {
        let x = p.0 as int;
        let y = q.0 as int;
        assert(x == y || x == -y) by (nonlinear_arith)
            requires
                x * x == y * y,
        ;
        if x == -y {
            assert(false);
        }
        assert(p == q);
    }
}

proof fn lemma_quarter_prefix(s: Seq<Point>, t: Seq<Point>, n: int)
    requires
        is_quarter(s),
        is_quarter(t),
        0 <= n <= QUARTER,
    ensures
        s.take(n) == t.take(n),
    decreases n,
{
    if n > 0 {
        let i = n - 1;
        lemma_quarter_prefix(s, t, i);
        lemma_total(s[i], t[i]);
        lemma_no_gap(s, t, i);
        lemma_no_gap(t, s, i);
        assert(s.take(n) =~= s.take(i).push(s[i]));
        assert(t.take(n) =~= t.take(i).push(t[i]));
    }
}

/// Where two tables agree up to `i`, neither can leave out what the other
/// has there.
proof fn lemma_no_gap(s: Seq<Point>, t: Seq<Point>, i: int)
    requires
        is_quarter(s),
        is_quarter(t),
        0 <= i < QUARTER,
        s.take(i) == t.take(i),
    ensures
        !before(s[i], t[i]),
{
    let p = s[i];
    assert(on_grid(p));
    if !before(p, t[i]) {
    } else if t.contains(p) {
        let j = choose|j: int| 0 <= j < t.len() && t[j] == p;
        if j < i {
            assert(s.take(i)[j] == t.take(i)[j]);
            assert(before(s[j], s[i]));
        } else if j > i {
            assert(before(t[i], t[j]));
        }
        lemma_total(p, p);
    } else {
        assert(before(t.last(), p));
        if i < t.len() - 1 {
            assert(before(t[i], t[t.len() - 1]));
        }
    }
}

/// Figure 5 is one table.
pub proof fn law_figure_5_is_one_table(s: Seq<Point>, t: Seq<Point>)
    requires
        is_quarter(s),
        is_quarter(t),
    ensures
        s == t,
{
    lemma_quarter_prefix(s, t, QUARTER as int);
    assert(s.take(QUARTER as int) =~= s);
    assert(t.take(QUARTER as int) =~= t);
}

/// The grid, counted column by column from the bottom left.
spec fn grid_point(n: int) -> Point {
    ((4 * (n / 25) - 47) as i32, (4 * (n % 25) - 47) as i32)
}

/// One of the first `n`.
spec fn counted(p: Point, n: int) -> bool {
    exists|k: int| 0 <= k < n && p == #[trigger] grid_point(k)
}

spec fn holds_grid(t: Seq<Point>, n: int) -> bool {
    &&& t.len() == n
    &&& ascending(t)
    &&& forall|i: int| 0 <= i < t.len() ==> on_grid(#[trigger] t[i])
    &&& forall|k: int| 0 <= k < n ==> t.contains(#[trigger] grid_point(k))
    &&& forall|i: int| 0 <= i < t.len() ==> counted(#[trigger] t[i], n)
}

proof fn lemma_grid_point(n: int)
    requires
        0 <= n < 625,
    ensures
        on_grid(grid_point(n)),
        grid_point(n).0 == 4 * (n / 25) - 47,
        grid_point(n).1 == 4 * (n % 25) - 47,
{
}

proof fn lemma_grid_points_differ(n: int, k: int)
    requires
        0 <= n < 625,
        0 <= k < 625,
        grid_point(n) == grid_point(k),
    ensures
        n == k,
{
    lemma_grid_point(n);
    lemma_grid_point(k);
}

/// Where `p` goes in `t`: after all that come before it.
spec fn slot(t: Seq<Point>, p: Point, at: int) -> bool {
    &&& 0 <= at <= t.len()
    &&& forall|i: int| 0 <= i < at ==> before(#[trigger] t[i], p)
    &&& at < t.len() ==> !before(t[at], p)
}

proof fn lemma_insert(t: Seq<Point>, n: int, at: int)
    requires
        0 <= n < 625,
        holds_grid(t, n),
        slot(t, grid_point(n), at),
    ensures
        holds_grid(t.insert(at, grid_point(n)), n + 1),
{
    let p = grid_point(n);
    let s = t.insert(at, p);
    lemma_grid_point(n);
    if at < t.len() {
        assert(counted(t[at], n));
        if t[at] == p {
            let k = choose|k: int| 0 <= k < n && t[at] == #[trigger] grid_point(k);
            lemma_grid_points_differ(n, k);
        }
        assert(on_grid(t[at]));
        lemma_total(t[at], p);
    }
    assert forall|i: int, j: int| 0 <= i < j < s.len() implies before(
        #[trigger] s[i],
        #[trigger] s[j],
    ) by {
        let a = if i < at {
            i
        } else {
            i - 1
        };
        let b = if j < at {
            j
        } else {
            j - 1
        };
        if i == at {
            assert(s[j] == t[b]);
            if b > at {
                assert(before(t[at], t[b]));
            }
        } else if j == at {
            assert(s[i] == t[a]);
        } else {
            assert(s[i] == t[a] && s[j] == t[b]);
            assert(before(t[a], t[b]));
        }
    }
    assert forall|i: int| 0 <= i < s.len() implies on_grid(#[trigger] s[i]) by {
        if i != at {
            assert(s[i] == t[if i < at { i } else { i - 1 }]);
        }
    }
    assert forall|k: int| 0 <= k < n + 1 implies s.contains(#[trigger] grid_point(k)) by {
        if k < n {
            assert(t.contains(grid_point(k)));
            let i = choose|i: int| 0 <= i < t.len() && t[i] == grid_point(k);
            assert(s[if i < at { i } else { i + 1 }] == grid_point(k));
        } else {
            assert(s[at] == p);
        }
    }
    assert forall|i: int| 0 <= i < s.len() implies counted(#[trigger] s[i], n + 1) by {
        if i == at {
            assert(s[i] == grid_point(n));
        } else {
            let a = if i < at {
                i
            } else {
                i - 1
            };
            assert(s[i] == t[a]);
            assert(counted(t[a], n));
            let k = choose|k: int| 0 <= k < n && t[a] == #[trigger] grid_point(k);
            assert(s[i] == grid_point(k));
        }
    }
}

proof fn lemma_slot(t: Seq<Point>, p: Point, from: int) -> (at: int)
    requires
        0 <= from <= t.len(),
        forall|i: int| 0 <= i < from ==> before(#[trigger] t[i], p),
    ensures
        slot(t, p, at),
    decreases t.len() - from,
{
    if from < t.len() && before(t[from], p) {
        lemma_slot(t, p, from + 1)
    } else {
        from
    }
}

proof fn lemma_sorted_grid(n: int) -> (t: Seq<Point>)
    requires
        0 <= n <= 625,
    ensures
        holds_grid(t, n),
    decreases n,
{
    if n == 0 {
        Seq::empty()
    } else {
        let t = lemma_sorted_grid(n - 1);
        let at = lemma_slot(t, grid_point(n - 1), 0);
        lemma_insert(t, n - 1, at);
        t.insert(at, grid_point(n - 1))
    }
}

proof fn lemma_truncated(t: Seq<Point>)
    requires
        holds_grid(t, 625),
    ensures
        is_quarter(t.take(QUARTER as int)),
        t.take(QUARTER as int) == quarter(),
{
    let s = t.take(QUARTER as int);
    assert forall|p: Point| #[trigger] on_grid(p) && !s.contains(p) implies before(s.last(), p) by {
        let n = 25 * ((p.0 + 47) / 4) + (p.1 + 47) / 4;
        assert(0 <= (p.0 + 47) / 4 < 25 && 0 <= (p.1 + 47) / 4 < 25);
        lemma_grid_point(n);
        assert(grid_point(n) == p);
        assert(t.contains(grid_point(n)));
        let i = choose|i: int| 0 <= i < t.len() && t[i] == p;
        if i < QUARTER {
            assert(s[i] == p);
        }
        assert(before(t[QUARTER - 1], t[i]));
    }
    assert forall|i: int, j: int| 0 <= i < j < s.len() implies before(
        #[trigger] s[i],
        #[trigger] s[j],
    ) by {
        assert(s[i] == t[i] && s[j] == t[j]);
    }
    assert(is_quarter(s));
    law_figure_5_is_one_table(s, quarter());
}

/// There is such a table, so `quarter()` is it.
pub proof fn law_figure_5_exists()
    ensures
        is_quarter(quarter()),
{
    let t = lemma_sorted_grid(625);
    lemma_truncated(t);
}

/// A point of the plane that the quarter is taken from, on the grid or
/// beyond it.
pub open spec fn on_lattice(p: Point) -> bool {
    p.0 % 4 == 1 && p.1 % 4 == 1
}

/// A square of 17 by 17 points, and wings of 6 by 12 at its sides and at its
/// top and bottom.
spec fn inner_point(n: int) -> Point {
    let m = if n < 361 {
        n - 289
    } else {
        n - 361
    };
    let far = if m / 12 < 3 {
        4 * (m / 12) - 43
    } else {
        4 * (m / 12) + 25
    };
    let near = 4 * (m % 12) - 23;
    if n < 289 {
        ((4 * (n / 17) - 31) as i32, (4 * (n % 17) - 31) as i32)
    } else if n < 361 {
        (far as i32, near as i32)
    } else {
        (near as i32, far as i32)
    }
}

proof fn lemma_inner_point(n: int)
    requires
        0 <= n < 433,
    ensures
        on_grid(inner_point(n)),
        norm(inner_point(n)) < 51 * 51,
{
    let p = inner_point(n);
    let (x, y) = (p.0 as int, p.1 as int);
    if n < 289 {
        assert(0 <= n / 17 < 17);
        assert(x * x + y * y < 51 * 51) by (nonlinear_arith)
            requires
                -31 <= x <= 33,
                -31 <= y <= 33,
        ;
    } else if n < 361 {
        assert(0 <= (n - 289) / 12 < 6);
        assert(x * x + y * y < 51 * 51) by (nonlinear_arith)
            requires
                -43 <= x <= 45,
                -23 <= y <= 21,
        ;
    } else {
        assert(0 <= (n - 361) / 12 < 6);
        assert(x * x + y * y < 51 * 51) by (nonlinear_arith)
            requires
                -23 <= x <= 21,
                -43 <= y <= 45,
        ;
    }
}

proof fn lemma_inner_points_differ(n: int, k: int)
    requires
        0 <= n < k < 433,
    ensures
        inner_point(n) != inner_point(k),
{
    lemma_inner_point(n);
    lemma_inner_point(k);
}

/// The last point of figure 5 is nearer than any point beyond the grid.
pub proof fn law_figure_5_ends_inside_the_grid()
    ensures
        norm(quarter().last()) < 51 * 51,
{
    law_figure_5_exists();
    let t = quarter();
    if norm(t.last()) >= 51 * 51 {
        let inner = Seq::new(433, |n: int| inner_point(n));
        assert forall|n: int, k: int| 0 <= n < k < 433 implies inner[n] != inner[k] by {
            lemma_inner_points_differ(n, k);
        }
        assert(inner.no_duplicates());
        inner.unique_seq_to_set();
        assert forall|p: Point| inner.to_set().contains(p) implies t.to_set().contains(p) by {
            let n = choose|n: int| 0 <= n < inner.len() && inner[n] == p;
            lemma_inner_point(n);
            assert(on_grid(p));
            if !t.contains(p) {
                assert(before(t.last(), p));
            }
        }
        t.lemma_cardinality_of_set();
        vstd::seq_lib::seq_to_set_is_finite(t);
        vstd::set_lib::lemma_len_subset(inner.to_set(), t.to_set());
    }
}

/// Figure 5 leaves no point out: those beyond it, on the grid or not, all
/// come after its last.
pub proof fn law_figure_5_leaves_no_point_out(p: Point)
    requires
        on_lattice(p),
    ensures
        quarter().contains(p) || before(quarter().last(), p),
        before(p, quarter().last()) ==> exists|label: int|
            0 <= label < QUARTER && #[trigger] quarter()[label] == p,
{
    law_figure_5_exists();
    law_figure_5_ends_inside_the_grid();
    let (x, y) = (p.0 as int, p.1 as int);
    if !on_grid(p) {
        assert(x <= -51 || x >= 51 || y <= -51 || y >= 51);
        assert(norm(p) >= 51 * 51) by (nonlinear_arith)
            requires
                x <= -51 || x >= 51 || y <= -51 || y >= 51,
                norm(p) == x * x + y * y,
        ;
    }
    if quarter().contains(p) {
        let label = choose|label: int| 0 <= label < quarter().len() && quarter()[label] == p;
        assert(quarter()[label] == p);
    }
}

/// No point as far out as those beyond the grid has a label.
pub proof fn law_far_points_have_no_label(p: Point, label: int, turns: int)
    requires
        norm(p) >= 51 * 51,
    ensures
        !names(label, turns, p),
{
    law_figure_5_exists();
    law_figure_5_ends_inside_the_grid();
    if names(label, turns, p) {
        let q = quarter()[label];
        let (x, y) = (q.0 as int, q.1 as int);
        assert((-x) * (-x) == x * x && (-y) * (-y) == y * y) by (nonlinear_arith);
        assert(norm(p) == norm(q));
        if label < QUARTER - 1 {
            assert(before(quarter()[label], quarter()[QUARTER - 1]));
        }
    }
}

/// The far corner of the grid is not in the superconstellation.
pub proof fn law_the_corner_has_no_label(label: int, turns: int)
    ensures
        !names(label, turns, (49i32, 49i32)),
{
    law_far_points_have_no_label((49i32, 49i32), label, turns);
}

/// Each point of the superconstellation has one label and one turn.
pub proof fn law_labels_every_point_of_all_four_quarters(
    label: int,
    turns: int,
    other_label: int,
    other_turns: int,
    p: Point,
)
    requires
        names(label, turns, p),
        names(other_label, other_turns, p),
    ensures
        label == other_label,
        turns == other_turns,
{
    law_figure_5_exists();
    let a = quarter()[label];
    let b = quarter()[other_label];
    assert(on_grid(a) && on_grid(b));
    // Each turn of a grid point leaves other remainders by 4.
    assert(turns == other_turns);
    assert(a == b);
    lemma_total(a, a);
    if label < other_label {
        assert(before(a, b));
    } else if other_label < label {
        assert(before(b, a));
    }
}

fn comes_before(p: Point, q: Point) -> (first: bool)
    requires
        on_grid(p),
        -49 <= q.0 <= 49,
        -49 <= q.1 <= 49,
    ensures
        first == before(p, q),
{
    let (a, b, c, d) = (p.0, p.1, q.0, q.1);
    proof {
        lemma_square(a as int);
        lemma_square(b as int);
        lemma_square(c as int);
        lemma_square(d as int);
    }
    let near: i32 = a * a + b * b;
    let far: i32 = c * c + d * d;
    near < far || (near == far && b > d)
}

proof fn lemma_square(x: int)
    requires
        -49 <= x <= 49,
    ensures
        0 <= x * x <= 2401,
{
    assert(0 <= x * x <= 2401) by (nonlinear_arith)
        requires
            -49 <= x <= 49,
    ;
}

/// The quarter-superconstellation, by label.
#[derive(Debug)]
pub struct Constellation {
    points: Vec<Point>,
}

impl Constellation {
    /// The points are those of figure 5.
    pub closed spec fn valid(self) -> bool {
        self.points@ == quarter() && is_quarter(self.points@)
    }

    #[must_use]
    pub fn new() -> (constellation: Self)
        ensures
            constellation.valid(),
    {
        let mut points: Vec<Point> = Vec::new();
        let mut n: i32 = 0;
        while n < 625
            invariant
                0 <= n <= 625,
                holds_grid(points@, n as int),
            decreases 625 - n,
        {
            let p: Point = (4 * (n / 25) - 47, 4 * (n % 25) - 47);
            proof {
                lemma_grid_point(n as int);
            }
            let mut at: usize = points.len();
            while at > 0 && !comes_before(points[at - 1], p)
                invariant
                    on_grid(p),
                    p == grid_point(n as int),
                    at <= points.len(),
                    0 <= n < 625,
                    holds_grid(points@, n as int),
                    at < points.len() ==> !before(points@[at as int], p),
                decreases at,
            {
                at -= 1;
            }
            proof {
                assert forall|i: int| 0 <= i < at implies before(#[trigger] points@[i], p) by {
                    if i < at - 1 {
                        assert(before(points@[i], points@[at - 1]));
                    }
                }
                lemma_insert(points@, n as int, at as int);
            }
            points.insert(at, p);
            n += 1;
        }
        proof {
            lemma_truncated(points@);
        }
        points.truncate(QUARTER);
        Self { points }
    }

    /// The point that figure 5 labels `label`, below `QUARTER`.
    #[must_use]
    pub fn point(&self, label: usize) -> (point: Point)
        requires
            self.valid(),
            label < QUARTER,
        ensures
            point == quarter()[label as int],
            on_grid(point),
    {
        self.points[label]
    }

    /// The label and clockwise quarter turns that give `point`, if it is in
    /// the superconstellation.
    #[must_use]
    pub fn label(&self, point: Point) -> (found: Option<(usize, u8)>)
        requires
            self.valid(),
            point.0 > i32::MIN,
            point.1 > i32::MIN,
        ensures
            match found {
                Some((label, turns)) => names(label as int, turns as int, point),
                None => forall|label: int, turns: int| !names(label, turns, point),
            },
    {
        let mut turns: u8 = 0;
        while turns < 4
            invariant
                self.valid(),
                point.0 > i32::MIN,
                point.1 > i32::MIN,
                turns <= 4,
                forall|label: int, other: int| other < turns ==> !names(label, other, point),
            decreases 4 - turns,
        {
            let turned = rotate(point, (4 - turns) % 4);
            assert forall|p: Point|
                #![trigger wide(p)]
                spec_rotate(wide(p), turns as int) == wide(point) <==> p == turned by {}
            if let Some(label) = self.find(turned) {
                assert(wide(quarter()[label as int]) == wide(turned));
                return Some((label, turns));
            }
            assert forall|label: int| !names(label, turns as int, point) by {
                if names(label, turns as int, point) {
                    assert(wide(quarter()[label]) == wide(turned));
                    assert(self.points@[label] == turned);
                    assert(self.points@.contains(turned));
                }
            }
            turns += 1;
        }
        None
    }

    fn find(&self, point: Point) -> (found: Option<usize>)
        requires
            self.valid(),
        ensures
            match found {
                Some(label) => label < QUARTER && quarter()[label as int] == point,
                None => !self.points@.contains(point),
            },
    {
        let mut label: usize = 0;
        while label < self.points.len()
            invariant
                self.valid(),
                label <= self.points.len(),
                forall|i: int| 0 <= i < label ==> self.points@[i] != point,
            decreases self.points.len() - label,
        {
            let at = self.points[label];
            if at.0 == point.0 && at.1 == point.1 {
                return Some(label);
            }
            label += 1;
        }
        None
    }
}

/// The point that figure 5 labels `label`, below `QUARTER`.
#[must_use]
pub fn point(label: usize) -> (point: Point)
    requires
        label < QUARTER,
    ensures
        point == quarter()[label as int],
        on_grid(point),
{
    Constellation::new().point(label)
}

/// Turned clockwise by `quarter_turns` · 90°, as § 9.6.1 turns points.
#[must_use]
pub fn rotate(point: Point, quarter_turns: u8) -> (turned: Point)
    requires
        point.0 > i32::MIN,
        point.1 > i32::MIN,
    ensures
        wide(turned) == spec_rotate(wide(point), quarter_turns as int),
{
    match quarter_turns % 4 {
        0 => point,
        1 => (point.1, -point.0),
        2 => (-point.0, -point.1),
        _ => (-point.1, point.0),
    }
}

/// The label and clockwise quarter turns that give `point`, if it is in the
/// superconstellation.
#[must_use]
pub fn label(point: Point) -> (found: Option<(usize, u8)>)
    requires
        point.0 > i32::MIN,
        point.1 > i32::MIN,
    ensures
        match found {
            Some((label, turns)) => names(label as int, turns as int, point),
            None => forall|label: int, turns: int| !names(label, turns, point),
        },
{
    Constellation::new().label(point)
}

/// Figure 5: its points stand 4 apart both ways, from (1, 1) outwards, and
/// those at one distance from the origin from the top down.
pub proof fn law_figure_5_goes_outwards(i: int, j: int)
    requires
        0 <= i < j < 416,
    ensures
        ({
            let (a, b) = (quarter()[i].0 as int, quarter()[i].1 as int);
            let (c, d) = (quarter()[j].0 as int, quarter()[j].1 as int);
            &&& quarter().len() == 416
            &&& (a - 1) % 4 == 0 && (b - 1) % 4 == 0 && (c - 1) % 4 == 0 && (d - 1) % 4 == 0
            &&& a * a + b * b <= c * c + d * d
            &&& a * a + b * b == c * c + d * d ==> b > d
            &&& i == 0 ==> a == 1 && b == 1
        }),
{
    law_figure_5_exists();
    let t = quarter();
    assert(before(t[i], t[j]));
    assert(on_grid(t[i]) && on_grid(t[j]));
    if i == 0 {
        let corner = (1i32, 1i32);
        assert(on_grid(corner) && norm(corner) == 2);
        assert forall|p: Point| #[trigger] on_grid(p) implies norm(p) > 2 || p == corner by {
            let (x, y) = (p.0 as int, p.1 as int);
            assert(x == 1 || x <= -3 || x >= 5);
            assert(y == 1 || y <= -3 || y >= 5);
            assert(x * x + y * y > 2 || (x == 1 && y == 1)) by (nonlinear_arith)
                requires
                    x == 1 || x <= -3 || x >= 5,
                    y == 1 || y <= -3 || y >= 5,
            ;
        }
        assert(on_grid(t.last()));
        assert(t.contains(corner));
        let k = choose|k: int| 0 <= k < t.len() && t[k] == corner;
        if k > 0 {
            assert(before(t[0], t[k]));
        }
    }
}

/// A quarter turn is clockwise, and turns follow on one another.
pub proof fn law_turns_go_clockwise(p: (int, int), turns: int)
    ensures
        spec_rotate(p, 0) == p,
        spec_rotate(p, 1) == (p.1, -p.0),
        spec_rotate(p, turns + 1) == (spec_rotate(p, turns).1, -spec_rotate(p, turns).0),
{
}

} // verus!

//! The training signals of phases 3 and 4 (§ 10.1.3): S and S̄, PP, TRN,
//! and the sequences J, J′, MP and E, as points of the constellation.

use crate::pump::Role;
use crate::scrambler::{Polynomial, Scrambler, Scrambling};
use crate::v34::bits::pattern_bits;
use crate::v34::constellation::{quarter, rotate, spec_rotate, wide, Constellation, Point};
use vstd::prelude::*;

verus! {

/// Table 18: J asks for a 4-point constellation.
pub const J_4: &'static str = "0000100110010001";

/// Table 18: J asks for a 16-point constellation.
pub const J_16: &'static str = "0000110110010001";

/// Table 19.
pub const J_PRIME: &'static str = "1111100110010001";

/// 6 periods of the 48-symbol sequence of § 10.1.3.6.
pub const PP_SYMBOLS: usize = 288;

/// Symbol `n` of S: point 0, then point 0 turned 90° counterclockwise.
pub open spec fn spec_s(n: int) -> Point {
    if n % 2 == 0 {
        (1i32, 1i32)
    } else {
        (-1i32, 1i32)
    }
}

/// Symbol `n` of S: point 0, then point 0 turned 90° counterclockwise.
#[must_use]
pub fn s(n: usize) -> (point: Point)
    ensures
        point == spec_s(n as int),
{
    if n % 2 == 0 {
        (1, 1)
    } else {
        (-1, 1)
    }
}

/// Symbol `n` of S̄: S turned by 180°.
pub open spec fn spec_s_bar(n: int) -> Point {
    ((-spec_s(n).0) as i32, (-spec_s(n).1) as i32)
}

/// Symbol `n` of S̄: S turned by 180°.
#[must_use]
pub fn s_bar(n: usize) -> (point: Point)
    ensures
        point == spec_s_bar(n as int),
{
    if n % 2 == 0 {
        (-1, -1)
    } else {
        (1, -1)
    }
}

/// The turn of symbol `i` of PP, in twelfths of a circle.
pub open spec fn spec_pp(i: int) -> int {
    let k = (i / 4) % 72;
    let l = i % 4;
    if k % 3 == 1 {
        (k * l + 4) % 12
    } else {
        (k * l) % 12
    }
}

/// The turn of symbol `i` of PP, below `PP_SYMBOLS`, in twelfths of a circle.
#[must_use]
pub fn pp(i: usize) -> (turns: u8)
    ensures
        turns == spec_pp(i as int),
{
    let k = (i / 4) % 72;
    let l = i % 4;
    assert(0 <= k * l <= 216) by (nonlinear_arith)
        requires
            0 <= k < 72,
            0 <= l < 4,
    ;
    if k % 3 == 1 {
        ((k * l + 4) % 12) as u8
    } else {
        ((k * l) % 12) as u8
    }
}

/// PP has a period of 48 symbols.
pub proof fn law_pp_repeats_after_48_symbols(i: int)
    requires
        0 <= i,
        i + 48 < PP_SYMBOLS,
    ensures
        spec_pp(i + 48) == spec_pp(i),
{
    let k = i / 4;
    let l = i % 4;
    assert((i + 48) / 4 == k + 12 && (i + 48) % 4 == l);
    assert(k + 12 < 72);
    assert((k + 12) * l == k * l + 12 * l) by (nonlinear_arith);
    assert((k + 12) % 3 == k % 3);
}

/// How many points TRN, MP and E use in phase 4, as J asked.
#[derive(Debug, Clone, Copy, PartialEq, Eq, Structural)]
pub enum Points {
    Four,
    Sixteen,
}

/// The bits of a symbol.
pub open spec fn bits_per_symbol(points: Points) -> nat {
    match points {
        Points::Four => 2,
        Points::Sixteen => 4,
    }
}

/// Scrambles two bits into a number below 4, the first its low bit.
pub open spec fn two_bits(state: Scrambling, first: bool, second: bool) -> int {
    (if state.out(first) {
        1int
    } else {
        0
    }) + (if state.after(first).out(second) {
        2int
    } else {
        0
    })
}

pub open spec fn after_two(state: Scrambling, first: bool, second: bool) -> Scrambling {
    state.after(first).after(second)
}

/// Bit `n` of a symbol, or 1 past the last.
pub open spec fn bit_or_one(bits: Seq<bool>, n: int) -> bool {
    if n < bits.len() {
        bits[n]
    } else {
        true
    }
}

/// The scrambler and the last quadrant.
pub struct Sending {
    pub scrambling: Scrambling,
    pub quadrant: int,
}

impl Sending {
    /// After the symbol that starts at bit `at`.
    pub open spec fn after(self, bits: Seq<bool>, at: int, points: Points) -> Self {
        let turns = two_bits(
            self.scrambling,
            bit_or_one(bits, at),
            bit_or_one(bits, at + 1),
        );
        let turned = after_two(self.scrambling, bit_or_one(bits, at), bit_or_one(bits, at + 1));
        Self {
            quadrant: (self.quadrant + turns) % 4,
            scrambling: match points {
                Points::Four => turned,
                Points::Sixteen => after_two(
                    turned,
                    bit_or_one(bits, at + 2),
                    bit_or_one(bits, at + 3),
                ),
            },
        }
    }

    /// The point of the symbol that starts at bit `at`.
    pub open spec fn point(self, bits: Seq<bool>, at: int, points: Points) -> (int, int) {
        let turned = after_two(self.scrambling, bit_or_one(bits, at), bit_or_one(bits, at + 1));
        let q = match points {
            Points::Four => 0int,
            Points::Sixteen => two_bits(
                turned,
                bit_or_one(bits, at + 2),
                bit_or_one(bits, at + 3),
            ),
        };
        spec_rotate(wide(quarter()[q]), self.after(bits, at, points).quadrant)
    }

    /// TRN does not add to the last quadrant.
    pub open spec fn from_zero(self) -> Self {
        Self { quadrant: 0, ..self }
    }
}

/// After the first `n` symbols of `bits`.
pub open spec fn sending_after(sending: Sending, bits: Seq<bool>, points: Points, n: int) -> Sending
    decreases n,
{
    if n <= 0 {
        sending
    } else {
        sending_after(sending, bits, points, n - 1).after(
            bits,
            (n - 1) * bits_per_symbol(points),
            points,
        )
    }
}

/// How many symbols `bits` take.
pub open spec fn symbols_of(bits: int, points: Points) -> int {
    let each = bits_per_symbol(points) as int;
    (bits + each - 1) / each
}

/// Sends TRN, then J, J′, MP and E, through the scrambler of the end in
/// `role`, as § 10.1.3.3 to § 10.1.3.9 build them.
#[derive(Debug)]
pub struct Sender {
    scrambler: Scrambler,
    constellation: Constellation,
    quadrant: u8,
}

impl View for Sender {
    type V = Sending;

    closed spec fn view(&self) -> Sending {
        Sending { scrambling: self.scrambler@, quadrant: self.quadrant as int }
    }
}

impl Sender {
    pub closed spec fn valid(self) -> bool {
        self.scrambler@.valid() && self.constellation.valid() && self.quadrant < 4
    }

    /// For TRN, which starts the scrambler at 0.
    #[must_use]
    pub fn new(role: Role) -> (sender: Self)
        ensures
            sender.valid(),
            sender@ == (Sending {
                scrambling: Scrambling::fresh(
                    match role {
                        Role::Originate => Polynomial::V34_CALL,
                        Role::Answer => Polynomial::V34_ANSWER,
                    },
                ),
                quadrant: 0,
            }),
    {
        let polynomial = match role {
            Role::Originate => Polynomial::V34_CALL,
            Role::Answer => Polynomial::V34_ANSWER,
        };
        Self {
            scrambler: Scrambler::with(polynomial),
            constellation: Constellation::new(),
            quadrant: 0,
        }
    }

    fn two_bits(&mut self, first: bool, second: bool) -> (value: u8)
        requires
            old(self).scrambler@.valid(),
        ensures
            final(self).scrambler@.valid(),
            final(self).quadrant == old(self).quadrant,
            final(self).constellation == old(self).constellation,
            value == two_bits(old(self).scrambler@, first, second),
            value < 4,
            final(self).scrambler@ == after_two(old(self).scrambler@, first, second),
    {
        let i1 = self.scrambler.scramble(first);
        let i2 = self.scrambler.scramble(second);
        let low: u8 = if i1 {
            1
        } else {
            0
        };
        let high: u8 = if i2 {
            2
        } else {
            0
        };
        low + high
    }

    fn symbol(&mut self, bits: &[bool], at: usize, points: Points) -> (point: Point)
        requires
            old(self).valid(),
            at <= bits.len(),
        ensures
            final(self).valid(),
            wide(point) == old(self)@.point(bits@, at as int, points),
            final(self)@ == old(self)@.after(bits@, at as int, points),
    {
        let turns = self.two_bits(bit_at(bits, at, 0), bit_at(bits, at, 1));
        self.quadrant = (self.quadrant + turns) % 4;
        let q = match points {
            Points::Four => 0,
            Points::Sixteen => self.two_bits(bit_at(bits, at, 2), bit_at(bits, at, 3)),
        };
        let point = self.constellation.point(q as usize);
        rotate(point, self.quadrant)
    }

    /// One symbol of TRN: scrambled ones, 4 or 16 points.
    pub fn trn(&mut self, points: Points) -> (point: Point)
        requires
            old(self).valid(),
        ensures
            final(self).valid(),
            wide(point) == old(self)@.from_zero().point(Seq::empty(), 0, points),
            final(self)@ == old(self)@.from_zero().after(Seq::empty(), 0, points),
    {
        self.quadrant = 0;
        let none: Vec<bool> = Vec::new();
        assert(none@ =~= Seq::<bool>::empty());
        self.symbol(none.as_slice(), 0, points)
    }

    /// The symbols for `bits`: J, J′, MP or E, differentially encoded from
    /// the last TRN symbol.
    pub fn sequence(&mut self, bits: &[bool], points: Points) -> (symbols: Vec<Point>)
        requires
            old(self).valid(),
        ensures
            final(self).valid(),
            symbols.len() == symbols_of(bits.len() as int, points),
            forall|n: int|
                0 <= n < symbols.len() ==> wide(#[trigger] symbols@[n]) == sending_after(
                    old(self)@,
                    bits@,
                    points,
                    n,
                ).point(bits@, n * bits_per_symbol(points), points),
            final(self)@ == sending_after(old(self)@, bits@, points, symbols.len() as int),
    {
        let each: usize = match points {
            Points::Four => 2,
            Points::Sixteen => 4,
        };
        let ghost before = self@;
        let mut symbols: Vec<Point> = Vec::new();
        let mut at: usize = 0;
        let mut more = bits.len() > 0;
        while more
            invariant
                self.valid(),
                each == bits_per_symbol(points),
                2 <= each <= 4,
                at <= bits.len(),
                more ==> at < bits.len() && at == symbols.len() * each,
                !more ==> bits.len() <= symbols.len() * each < bits.len() + each,
                self@ == sending_after(before, bits@, points, symbols.len() as int),
                forall|n: int|
                    0 <= n < symbols.len() ==> wide(#[trigger] symbols@[n]) == sending_after(
                        before,
                        bits@,
                        points,
                        n,
                    ).point(bits@, n * bits_per_symbol(points), points),
            decreases bits.len() - at + if more {
                1int
            } else {
                0
            },
        {
            let ghost count = symbols.len() as int;
            let point = self.symbol(bits, at, points);
            symbols.push(point);
            assert((count + 1) * each == count * each + each) by (nonlinear_arith);
            if bits.len() - at > each {
                at += each;
            } else {
                more = false;
            }
        }
        proof {
            let count = symbols.len() as int;
            let length = bits.len() as int;
            match points {
                Points::Four => assert(count == (length + 1) / 2),
                Points::Sixteen => assert(count == (length + 3) / 4),
            }
        }
        symbols
    }
}

fn bit_at(bits: &[bool], at: usize, n: usize) -> (bit: bool)
    requires
        at <= bits.len(),
    ensures
        bit == bit_or_one(bits@, at + n),
{
    if n < bits.len() - at {
        bits[at + n]
    } else {
        true
    }
}

/// Bits of a pattern of tables 18 and 19, left first.
#[must_use]
pub fn pattern(text: &str) -> (bits: Vec<bool>)
    ensures
        bits@ == pattern_bits(text@),
{
    crate::v34::bits::pattern(text)
}

/// S alternates between point 0 and the point a quarter turn
/// counterclockwise of it, and S̄ sends the opposite of S.
pub proof fn law_s_alternates(n: int)
    ensures
        spec_s(2 * n) == (1i32, 1i32),
        n % 2 == 0 ==> spec_s(n + 1).0 == -spec_s(n).1 && spec_s(n + 1).1 == spec_s(n).0,
        n % 2 != 0 ==> spec_s(n + 1).0 == spec_s(n).1 && spec_s(n + 1).1 == -spec_s(n).0,
        spec_s_bar(n).0 == -spec_s(n).0,
        spec_s_bar(n).1 == -spec_s(n).1,
{
}

/// Four symbols of PP that begin at symbol 4k turn by k twelfths of a circle
/// each, from 0, or from a third of a circle where k is 1 more than a
/// multiple of 3.
pub proof fn law_pp_turns_evenly(k: int, l: int)
    requires
        0 <= k < 72,
        0 <= l < 3,
    ensures
        spec_pp(4 * k) == if k % 3 == 1 {
            4int
        } else {
            0int
        },
        (spec_pp(4 * k + l + 1) - spec_pp(4 * k + l) - k) % 12 == 0,
        0 <= spec_pp(4 * k + l) < 12,
{
    assert((4 * k) / 4 == k && (4 * k) % 4 == 0);
    assert((4 * k + l) / 4 == k && (4 * k + l) % 4 == l);
    assert((4 * k + l + 1) / 4 == k && (4 * k + l + 1) % 4 == l + 1);
    assert(k * (l + 1) == k * l + k && k * 0 == 0) by (nonlinear_arith);
}

/// A symbol turns clockwise from the last by I1 + 2 I2 quarter turns, I1 and
/// I2 being its first two bits as the scrambler puts them out, ones past the
/// last bit. Of 16 points, the next two bits pick the point in the same way.
pub proof fn law_each_symbol_turns_by_two_bits(sending: Sending, bits: Seq<bool>, at: int, points: Points)
    requires
        at >= 0,
        0 <= sending.quadrant < 4,
    ensures
        ({
            let first = at < bits.len() ==> bits[at];
            let second = at + 1 < bits.len() ==> bits[at + 1];
            let third = at + 2 < bits.len() ==> bits[at + 2];
            let fourth = at + 3 < bits.len() ==> bits[at + 3];
            let s = sending.scrambling;
            let t = s.after(first).after(second);
            let next = sending.after(bits, at, points);
            let q = (if t.out(third) {
                1int
            } else {
                0
            }) + (if t.after(third).out(fourth) {
                2int
            } else {
                0
            });
            &&& !s.out(first) && !s.after(first).out(second) ==> next.quadrant == sending.quadrant
            &&& s.out(first) && !s.after(first).out(second) ==> next.quadrant == (sending.quadrant + 1) % 4
            &&& !s.out(first) && s.after(first).out(second) ==> next.quadrant == (sending.quadrant + 2) % 4
            &&& s.out(first) && s.after(first).out(second) ==> next.quadrant == (sending.quadrant + 3) % 4
            &&& points is Four ==> next.scrambling == t && sending.point(bits, at, points) == spec_rotate(
                wide(quarter()[0]),
                next.quadrant,
            )
            &&& points is Sixteen ==> next.scrambling == t.after(third).after(fourth) && sending.point(
                bits,
                at,
                points,
            ) == spec_rotate(wide(quarter()[q]), next.quadrant)
        }),
{
}

/// Two bits go into a symbol of 4 points and four into one of 16, the last
/// filled up with ones, and each symbol starts where the last ended.
pub proof fn law_symbols_share_out_the_bits(sending: Sending, bits: Seq<bool>, n: int)
    requires
        n >= 0,
    ensures
        2 * symbols_of(bits.len() as int, Points::Four) - bits.len() == 0 || 2 * symbols_of(
            bits.len() as int,
            Points::Four,
        ) - bits.len() == 1,
        0 <= 4 * symbols_of(bits.len() as int, Points::Sixteen) - bits.len() < 4,
        sending_after(sending, bits, Points::Four, 0) == sending,
        sending_after(sending, bits, Points::Sixteen, 0) == sending,
        sending_after(sending, bits, Points::Four, n + 1) == sending_after(sending, bits, Points::Four, n).after(
            bits,
            2 * n,
            Points::Four,
        ),
        sending_after(sending, bits, Points::Sixteen, n + 1) == sending_after(
            sending,
            bits,
            Points::Sixteen,
            n,
        ).after(bits, 4 * n, Points::Sixteen),
        sending.from_zero().quadrant == 0 && sending.from_zero().scrambling == sending.scrambling,
{
}

/// Tables 18 and 19: J asks for 4 points or 16, which its sixth bit tells,
/// and J′ begins with ones.
pub proof fn law_tables_18_and_19()
    ensures
        pattern_bits(J_4@) == seq![
            false, false, false, false, true, false, false, true, true, false, false, true, false, false, false, true,
        ],
        pattern_bits(J_16@) == pattern_bits(J_4@).update(5, true),
        pattern_bits(J_PRIME@) == pattern_bits(J_4@).update(0, true).update(1, true).update(2, true).update(3, true),
{
    reveal_strlit("0000100110010001");
    reveal_strlit("0000110110010001");
    reveal_strlit("1111100110010001");
}

} // verus!

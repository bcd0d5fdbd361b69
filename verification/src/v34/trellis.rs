//! The trellis code of § 9.6.3: the subset labels of figure 9, the bits of
//! table 13, and the convolutional encoders of figures 10 to 12.

use crate::v34::bits::{field_bits, value_of};
use crate::v34::constellation::Point;
use crate::v34::mp::Trellis;
use vstd::arithmetic::power2::pow2;
use vstd::prelude::*;

verus! {

/// The column of figure 9, Re from −3 up. The figure repeats every 8.
pub open spec fn figure_column(re: int) -> int {
    if re % 8 == 5 {
        0
    } else if re % 8 == 7 {
        1
    } else if re % 8 == 1 {
        2
    } else {
        3
    }
}

/// The row of figure 9, Im from 3 down.
pub open spec fn figure_row(im: int) -> int {
    if im % 8 == 3 {
        0
    } else if im % 8 == 1 {
        1
    } else if im % 8 == 7 {
        2
    } else {
        3
    }
}

/// Figure 9.
pub open spec fn figure_9(row: int, column: int) -> u8 {
    if row == 0 {
        if column == 0 { 0b001 } else if column == 1 { 0b110 } else if column == 2 { 0b101 } else { 0b010 }
    } else if row == 1 {
        if column == 0 { 0b100 } else if column == 1 { 0b011 } else if column == 2 { 0b000 } else { 0b111 }
    } else if row == 2 {
        if column == 0 { 0b101 } else if column == 1 { 0b010 } else if column == 2 { 0b001 } else { 0b110 }
    } else {
        if column == 0 { 0b000 } else if column == 1 { 0b111 } else if column == 2 { 0b100 } else { 0b011 }
    }
}

pub open spec fn spec_subset(p: (int, int)) -> u8 {
    figure_9(figure_row(p.1), figure_column(p.0))
}

pub open spec fn odd(p: (int, int)) -> bool {
    p.0 % 2 == 1 && p.1 % 2 == 1
}

proof fn lemma_figure_9(row: int, column: int, other_row: int, other_column: int)
    requires
        0 <= row < 4,
        0 <= column < 4,
        0 <= other_row < 4,
        0 <= other_column < 4,
        figure_9(row, column) == figure_9(other_row, other_column),
    ensures
        (row == other_row && column == other_column) || ((row == other_row + 2 || row == other_row
            - 2) && (column == other_column + 2 || column == other_column - 2)),
{
}

proof fn lemma_odd_by_8(x: int)
    requires
        x % 2 == 1,
    ensures
        x % 8 == 1 || x % 8 == 3 || x % 8 == 5 || x % 8 == 7,
        x == 8 * (x / 8) + x % 8,
{
    let m = x % 8;
    let q = x / 8;
    assert(x == 8 * q + m);
    assert(m % 2 == 1);
}

proof fn lemma_figure_place(p: (int, int)) -> (tile: (int, int))
    requires
        odd(p),
    ensures
        0 <= figure_row(p.1) < 4,
        0 <= figure_column(p.0) < 4,
        p.0 == 8 * tile.0 + 2 * figure_column(p.0) + 5,
        p.1 == 8 * tile.1 - 2 * figure_row(p.1) + 3,
{
    lemma_odd_by_8(p.0);
    lemma_odd_by_8(p.1);
    let q = p.0 / 8;
    let k = p.1 / 8;
    (
        if figure_column(p.0) >= 2 {
            q - 1
        } else {
            q
        },
        if figure_row(p.1) >= 2 {
            k + 1
        } else {
            k
        },
    )
}

/// The points of one subset are four times a checkerboard apart.
pub proof fn law_a_subset_is_a_checkerboard(a: (int, int), b: (int, int)) -> (steps: (int, int))
    requires
        odd(a),
        odd(b),
        spec_subset(a) == spec_subset(b),
    ensures
        a.0 - b.0 == 4 * steps.0,
        a.1 - b.1 == 4 * steps.1,
        (steps.0 + steps.1) % 2 == 0,
{
    let (r, c) = (figure_row(a.1), figure_column(a.0));
    let (v, d) = (figure_row(b.1), figure_column(b.0));
    lemma_figure_9(r, c, v, d);
    let s = lemma_figure_place(a);
    let t = lemma_figure_place(b);
    let i = 2 * (s.0 - t.0) + if c == d {
        0
    } else if c > d {
        1int
    } else {
        -1
    };
    let j = 2 * (s.1 - t.1) - if r == v {
        0
    } else if r > v {
        1int
    } else {
        -1
    };
    (i, j)
}

/// Points of one subset stay apart: a squared distance of at least 32 on the
/// odd grid.
pub proof fn law_keeps_points_of_one_subset_apart(a: (int, int), b: (int, int))
    requires
        odd(a),
        odd(b),
        a != b,
        spec_subset(a) == spec_subset(b),
    ensures
        (a.0 - b.0) * (a.0 - b.0) + (a.1 - b.1) * (a.1 - b.1) >= 32,
{
    let x = a.0 - b.0;
    let y = a.1 - b.1;
    let (i, j) = law_a_subset_is_a_checkerboard(a, b);
    assert(i != 0 || j != 0);
    let m = if i < 0 {
        -i
    } else {
        i
    };
    let n = if j < 0 {
        -j
    } else {
        j
    };
    assert(m + n >= 2);
    assert(x * x == 16 * (m * m) && y * y == 16 * (n * n)) by (nonlinear_arith)
        requires
            x == 4 * i,
            y == 4 * j,
            m == i || m == -i,
            n == j || n == -j,
    ;
    assert(m * m + n * n >= 2) by (nonlinear_arith)
        requires
            m >= 0,
            n >= 0,
            m + n >= 2,
    ;
}

/// Bits 0 to 7.
pub open spec fn octet_bits(value: u8) -> Seq<bool> {
    field_bits(value as nat, 8)
}

/// Table 13: Y1 to Y4 from s(2m) and s(2m + 1), whose bits are `f` and `s`.
pub open spec fn table_13(f: Seq<bool>, s: Seq<bool>) -> Seq<bool> {
    seq![(s[1] != f[1]) != (f[0] && !s[0]), f[0], f[1], f[2] != s[2]]
}

pub open spec fn spec_inputs(first: u8, second: u8) -> nat {
    value_of(table_13(octet_bits(first), octet_bits(second)))
}

impl Trellis {
    /// Delays of the encoder.
    pub open spec fn delays(self) -> nat {
        match self {
            Self::States16 => 4,
            Self::States32 => 5,
            Self::States64 => 6,
        }
    }

    /// Y0: the last delay.
    pub open spec fn y0(self, s: Seq<bool>) -> bool {
        s[self.delays() - 1]
    }

    /// Figures 10 to 12: what the delays take from the delays and Y1 to Y4.
    pub open spec fn step(self, s: Seq<bool>, y: Seq<bool>) -> Seq<bool> {
        let y0 = self.y0(s);
        let (y1, y2, y3, y4) = (y[0], y[1], y[2], y[3]);
        match self {
            Self::States16 => seq![y0, (s[0] != y2) != y0, s[1] != y2, s[2] != y1],
            Self::States32 => seq![y0, s[0] != y2, s[1] != y1, s[2] != y4, s[3] != y2],
            Self::States64 => seq![
                ((s[0] != s[1]) != y4) != (s[2] && (s[1] != y1)),
                (((s[0] != s[1]) != y3) != (y2 && s[2])) != s[3],
                (s[1] != y1) != s[2],
                s[2],
                y0,
                (s[4] != y2) != s[2],
            ],
        }
    }

    pub open spec fn spec_states(self) -> nat {
        pow2(self.delays())
    }

    pub open spec fn spec_output(self, state: u8) -> bool {
        self.y0(octet_bits(state))
    }

    pub open spec fn spec_next(self, state: u8, inputs: u8) -> nat {
        value_of(self.step(octet_bits(state), octet_bits(inputs)))
    }
}

proof fn lemma_value_below(bits: Seq<bool>)
    ensures
        value_of(bits) < pow2(bits.len()),
{
    crate::v34::bits::law_writes_back_what_it_reads(bits);
}

/// Every step leads to one of the encoder's states.
pub proof fn law_stays_within_its_states(trellis: Trellis, state: u8, inputs: u8)
    ensures
        trellis.spec_next(state, inputs) < trellis.spec_states() <= 64,
{
    vstd::arithmetic::power2::lemma2_to64();
    lemma_value_below(trellis.step(octet_bits(state), octet_bits(inputs)));
}

/// The 16-state encoder takes Y1 and Y2 only, the 32-state one no Y3.
pub proof fn law_ignores_the_inputs_its_rate_does_not_use(state: u8, inputs: u8, other: u8)
    requires
        octet_bits(inputs)[0] == octet_bits(other)[0],
        octet_bits(inputs)[1] == octet_bits(other)[1],
    ensures
        Trellis::States16.spec_next(state, inputs) == Trellis::States16.spec_next(state, other),
        octet_bits(inputs)[3] == octet_bits(other)[3] ==> Trellis::States32.spec_next(state, inputs)
            == Trellis::States32.spec_next(state, other),
{
}

proof fn lemma_zero_bits(n: nat)
    ensures
        field_bits(0, n).len() == n,
        forall|i: int| 0 <= i < n ==> field_bits(0, n)[i] == false,
    decreases n,
{
    reveal(field_bits);
    if n > 0 {
        lemma_zero_bits((n - 1) as nat);
        assert(0nat / 2 == 0);
    }
}

proof fn lemma_zero_value(bits: Seq<bool>)
    requires
        forall|i: int| 0 <= i < bits.len() ==> bits[i] == false,
    ensures
        value_of(bits) == 0,
    decreases bits.len(),
{
    reveal(value_of);
    if bits.len() > 0 {
        lemma_zero_value(bits.skip(1));
    }
}

/// Zero inputs keep an encoder in state 0, whose Y0 is 0.
pub proof fn law_stays_in_state_0_on_zero_inputs(trellis: Trellis)
    ensures
        trellis.spec_next(0, 0) == 0,
        !trellis.spec_output(0),
{
    lemma_zero_bits(8);
    lemma_zero_value(trellis.step(octet_bits(0), octet_bits(0)));
}

/// Flipping an input that its rate does not use changes nothing: Y3 or Y4 of
/// the 16-state encoder, Y3 of the 32-state one.
pub proof fn law_flipping_an_unused_input_changes_nothing(state: u8, inputs: u8)
    requires
        inputs < 16,
    ensures
        Trellis::States16.spec_next(state, inputs ^ 4) == Trellis::States16.spec_next(
            state,
            inputs,
        ),
        Trellis::States16.spec_next(state, inputs ^ 8) == Trellis::States16.spec_next(
            state,
            inputs,
        ),
        Trellis::States32.spec_next(state, inputs ^ 4) == Trellis::States32.spec_next(
            state,
            inputs,
        ),
{
    let (third, fourth) = (inputs ^ 4, inputs ^ 8);
    assert(inputs < 16 ==> (inputs ^ 4) % 2 == inputs % 2 && (inputs ^ 4) / 2 % 2 == inputs / 2 % 2
        && (inputs ^ 4) / 8 % 2 == inputs / 8 % 2 && (inputs ^ 8) % 2 == inputs % 2 && (inputs ^ 8)
        / 2 % 2 == inputs / 2 % 2) by (bit_vector);
    assert forall|x: u8|
        #![trigger octet_bits(x)]
        octet_bits(x)[0] == (x % 2 == 1) && octet_bits(x)[1] == (x / 2 % 2 == 1) && octet_bits(x)[3]
            == (x / 8 % 2 == 1) by {
        reveal_with_fuel(field_bits, 9);
        assert(x as nat / 2 / 2 / 2 == x as nat / 8);
    }
    law_ignores_the_inputs_its_rate_does_not_use(state, third, inputs);
    law_ignores_the_inputs_its_rate_does_not_use(state, fourth, inputs);
}

impl Trellis {
    /// The state after a sequence of inputs.
    pub open spec fn state_after(self, state: u8, inputs: Seq<u8>) -> u8
        decreases inputs.len(),
    {
        if inputs.len() == 0 {
            state
        } else {
            self.spec_next(self.state_after(state, inputs.drop_last()), inputs.last()) as u8
        }
    }
}

/// A byte with these low bits, and no others.
proof fn lemma_low_bits(bits: Seq<bool>) -> (value: u8)
    requires
        bits.len() <= 6,
    ensures
        value == value_of(bits),
        value < pow2(bits.len()),
        octet_bits(value).len() == 8,
        octet_bits(value).take(bits.len() as int) == bits,
{
    crate::v34::bits::law_writes_back_what_it_reads(bits);
    vstd::arithmetic::power2::lemma2_to64();
    if bits.len() < 6 {
        vstd::arithmetic::power2::lemma_pow2_strictly_increases(bits.len(), 6);
    }
    let value = value_of(bits) as u8;
    crate::v34::bits::lemma_field_bits_prefix(value as nat, bits.len(), 8);
    crate::v34::bits::lemma_field_bits_len(value as nat, 8);
    value
}

/// The inputs Y1 to Y4 as a byte.
proof fn lemma_inputs(y1: bool, y2: bool, y3: bool, y4: bool) -> (inputs: u8)
    ensures
        inputs < 16,
        octet_bits(inputs)[0] == y1,
        octet_bits(inputs)[1] == y2,
        octet_bits(inputs)[2] == y3,
        octet_bits(inputs)[3] == y4,
{
    let y = seq![y1, y2, y3, y4];
    let inputs = lemma_low_bits(y);
    vstd::arithmetic::power2::lemma2_to64();
    assert(octet_bits(inputs).take(4)[0] == y[0] && octet_bits(inputs).take(4)[1] == y[1]
        && octet_bits(inputs).take(4)[2] == y[2] && octet_bits(inputs).take(4)[3] == y[3]);
    inputs
}

/// The delays of a state after a step.
proof fn lemma_step_bits(trellis: Trellis, state: u8, inputs: u8) -> (next: u8)
    ensures
        next == trellis.spec_next(state, inputs),
        forall|i: int|
            0 <= i < trellis.delays() ==> #[trigger] octet_bits(next)[i] == trellis.step(
                octet_bits(state),
                octet_bits(inputs),
            )[i],
{
    let bits = trellis.step(octet_bits(state), octet_bits(inputs));
    let next = lemma_low_bits(bits);
    assert forall|i: int| 0 <= i < trellis.delays() implies #[trigger] octet_bits(next)[i]
        == bits[i] by {
        assert(octet_bits(next).take(bits.len() as int)[i] == bits[i]);
    }
    next
}

/// Two states with the same delays are one.
proof fn lemma_same_delays(trellis: Trellis, state: u8, other: u8)
    requires
        state < trellis.spec_states(),
        other < trellis.spec_states(),
        forall|i: int|
            0 <= i < trellis.delays() ==> #[trigger] octet_bits(state)[i] == octet_bits(other)[i],
    ensures
        state == other,
{
    let d = trellis.delays();
    crate::v34::bits::lemma_field_bits_prefix(state as nat, d, 8);
    crate::v34::bits::lemma_field_bits_prefix(other as nat, d, 8);
    crate::v34::bits::lemma_field_bits_len(state as nat, 8);
    crate::v34::bits::lemma_field_bits_len(other as nat, 8);
    assert(octet_bits(state).take(d as int) =~= octet_bits(other).take(d as int));
    crate::v34::bits::law_reads_back_a_field(state as nat, d);
    crate::v34::bits::law_reads_back_a_field(other as nat, d);
    vstd::arithmetic::div_mod::lemma_small_mod(state as nat, pow2(d));
    vstd::arithmetic::div_mod::lemma_small_mod(other as nat, pow2(d));
}

/// Every state of an encoder is reached from state 0: by two steps, or by
/// three with 32 states. `path` is one way there.
pub proof fn law_every_state_is_reached_from_0(trellis: Trellis, state: u8) -> (path: Seq<u8>)
    requires
        state < trellis.spec_states(),
    ensures
        forall|i: int| 0 <= i < path.len() ==> #[trigger] path[i] < 16,
        trellis.state_after(0, path) == state,
{
    reveal_with_fuel(Trellis::state_after, 4);
    lemma_zero_bits(8);
    vstd::arithmetic::power2::lemma2_to64();
    let t = octet_bits(state);
    match trellis {
        Trellis::States16 => {
            let a = (t[0] != t[1]) != t[2];
            let first = lemma_inputs(t[0], a, false, false);
            let second = lemma_inputs(t[3] != a, t[2] != a, false, false);
            let between = lemma_step_bits(trellis, 0, first);
            let last = lemma_step_bits(trellis, between, second);
            law_stays_within_its_states(trellis, between, second);
            lemma_same_delays(trellis, last, state);
            let path = seq![first, second];
            assert(path.drop_last() =~= seq![first]);
            assert(seq![first].drop_last() =~= Seq::<u8>::empty());
            path
        },
        Trellis::States32 => {
            let a = t[1] != t[4];
            let first = lemma_inputs(false, a, false, false);
            let second = lemma_inputs(false, t[0], false, false);
            let third = lemma_inputs(t[2] != t[0], t[4], false, t[3] != a);
            let early = lemma_step_bits(trellis, 0, first);
            let between = lemma_step_bits(trellis, early, second);
            let last = lemma_step_bits(trellis, between, third);
            law_stays_within_its_states(trellis, between, third);
            lemma_same_delays(trellis, last, state);
            let path = seq![first, second, third];
            assert(path.drop_last() =~= seq![first, second]);
            assert(seq![first, second].drop_last() =~= seq![first]);
            assert(seq![first].drop_last() =~= Seq::<u8>::empty());
            path
        },
        Trellis::States64 => {
            let first = lemma_inputs(t[3], t[4], false, false);
            let y1 = t[2] != t[3];
            let y2 = t[5] != t[3];
            let second = lemma_inputs(y1, y2, t[1] != (y2 && t[3]), t[0] != (t[3] && y1));
            let between = lemma_step_bits(trellis, 0, first);
            let last = lemma_step_bits(trellis, between, second);
            law_stays_within_its_states(trellis, between, second);
            lemma_same_delays(trellis, last, state);
            let path = seq![first, second];
            assert(path.drop_last() =~= seq![first]);
            assert(seq![first].drop_last() =~= Seq::<u8>::empty());
            path
        },
    }
}

/// The bits of a state or of inputs, as remainders.
proof fn lemma_octet_bits(x: u8)
    ensures
        octet_bits(x)[0] == (x % 2 == 1),
        octet_bits(x)[1] == (x / 2 % 2 == 1),
        octet_bits(x)[2] == (x / 4 % 2 == 1),
        octet_bits(x)[3] == (x / 8 % 2 == 1),
        octet_bits(x)[4] == (x / 16 % 2 == 1),
        octet_bits(x)[5] == (x / 32 % 2 == 1),
{
    reveal_with_fuel(field_bits, 9);
    assert(x as nat / 2 / 2 == x as nat / 4);
    assert(x as nat / 2 / 2 / 2 == x as nat / 8);
    assert(x as nat / 2 / 2 / 2 / 2 == x as nat / 16);
    assert(x as nat / 2 / 2 / 2 / 2 / 2 == x as nat / 32);
}

/// Y0 is the last delay: bit 3, 4 or 5 of the state, whatever inputs come
/// with it.
pub proof fn law_y0_is_the_last_delay(state: u8)
    ensures
        Trellis::States16.spec_output(state) == (state / 8 % 2 == 1),
        Trellis::States32.spec_output(state) == (state / 16 % 2 == 1),
        Trellis::States64.spec_output(state) == (state / 32 % 2 == 1),
{
    lemma_octet_bits(state);
}

/// The parity check of figure 10, from any state: Y0 is Y1 of one 4D symbol
/// before, Y2 of two and of three before, and Y0 of three and of four before,
/// added up. Before the start, where the state is 0, all of them are 0.
pub proof fn law_the_parity_check_of_figure_10(start: u8, a: u8, b: u8, c: u8, d: u8)
    ensures
        ({
            let t = Trellis::States16;
            let s1 = t.spec_next(start, a) as u8;
            let s2 = t.spec_next(s1, b) as u8;
            let s3 = t.spec_next(s2, c) as u8;
            let s4 = t.spec_next(s3, d) as u8;
            let (y1_d, y2_c, y2_b) = (d % 2 == 1, c / 2 % 2 == 1, b / 2 % 2 == 1);
            t.spec_output(s4) == ((((y1_d != y2_c) != y2_b) != t.spec_output(s1))
                != t.spec_output(start))
        }),
        Trellis::States16.spec_next(0, 0) == 0,
        !Trellis::States16.spec_output(0),
{
    let t = Trellis::States16;
    law_stays_in_state_0_on_zero_inputs(t);
    let s1 = lemma_step_bits(t, start, a);
    let s2 = lemma_step_bits(t, s1, b);
    let s3 = lemma_step_bits(t, s2, c);
    let s4 = lemma_step_bits(t, s3, d);
    lemma_octet_bits(b);
    lemma_octet_bits(c);
    lemma_octet_bits(d);
}

/// The parity check of figure 11, from any state: Y0 is Y2 of one 4D symbol
/// before, Y4 of two, Y1 of three, Y2 of four, and Y0 of five before, added
/// up. Before the start, where the state is 0, all of them are 0.
pub proof fn law_the_parity_check_of_figure_11(start: u8, a: u8, b: u8, c: u8, d: u8, e: u8)
    ensures
        ({
            let t = Trellis::States32;
            let s1 = t.spec_next(start, a) as u8;
            let s2 = t.spec_next(s1, b) as u8;
            let s3 = t.spec_next(s2, c) as u8;
            let s4 = t.spec_next(s3, d) as u8;
            let s5 = t.spec_next(s4, e) as u8;
            let (y2_e, y4_d, y1_c, y2_b) = (
                e / 2 % 2 == 1,
                d / 8 % 2 == 1,
                c % 2 == 1,
                b / 2 % 2 == 1,
            );
            t.spec_output(s5) == ((((y2_e != y4_d) != y1_c) != y2_b) != t.spec_output(start))
        }),
        Trellis::States32.spec_next(0, 0) == 0,
        !Trellis::States32.spec_output(0),
{
    let t = Trellis::States32;
    law_stays_in_state_0_on_zero_inputs(t);
    let s1 = lemma_step_bits(t, start, a);
    let s2 = lemma_step_bits(t, s1, b);
    let s3 = lemma_step_bits(t, s2, c);
    let s4 = lemma_step_bits(t, s3, d);
    let s5 = lemma_step_bits(t, s4, e);
    lemma_octet_bits(b);
    lemma_octet_bits(c);
    lemma_octet_bits(d);
    lemma_octet_bits(e);
}

/// The parity check of figure 12, from any state. Where P of a 4D symbol is
/// its Y2 with the Y0 before and after it, and Q is P and P of the next with
/// Y1, the five P and four Q around a 4D symbol fit together in one way, with
/// one product of P and one of Y2 and P. Before the start, where the state is
/// 0, all of them are 0.
pub proof fn law_the_parity_check_of_figure_12(
    start: u8,
    a: u8,
    b: u8,
    c: u8,
    d: u8,
    e: u8,
    f: u8,
)
    ensures
        ({
            let t = Trellis::States64;
            let s1 = t.spec_next(start, a) as u8;
            let s2 = t.spec_next(s1, b) as u8;
            let s3 = t.spec_next(s2, c) as u8;
            let s4 = t.spec_next(s3, d) as u8;
            let s5 = t.spec_next(s4, e) as u8;
            let s6 = t.spec_next(s5, f) as u8;
            let p1 = (t.spec_output(s2) != t.spec_output(start)) != (b / 2 % 2 == 1);
            let p2 = (t.spec_output(s3) != t.spec_output(s1)) != (c / 2 % 2 == 1);
            let p3 = (t.spec_output(s4) != t.spec_output(s2)) != (d / 2 % 2 == 1);
            let p4 = (t.spec_output(s5) != t.spec_output(s3)) != (e / 2 % 2 == 1);
            let p5 = (t.spec_output(s6) != t.spec_output(s4)) != (f / 2 % 2 == 1);
            let q2 = (p2 != p3) != (c % 2 == 1);
            let q3 = (p3 != p4) != (d % 2 == 1);
            let q4 = (p4 != p5) != (e % 2 == 1);
            let before = (((q2 != q3) != (c / 4 % 2 == 1)) != (c / 2 % 2 == 1 && p2)) != p1;
            let after = (((q3 != q4) != (d / 4 % 2 == 1)) != (d / 2 % 2 == 1 && p3)) != p2;
            after == (((before != q2) != (c / 8 % 2 == 1)) != (p2 && p2 != p3))
        }),
        Trellis::States64.spec_next(0, 0) == 0,
        !Trellis::States64.spec_output(0),
{
    let t = Trellis::States64;
    law_stays_in_state_0_on_zero_inputs(t);
    let s1 = lemma_step_64(start, a);
    let s2 = lemma_step_64(s1, b);
    let s3 = lemma_step_64(s2, c);
    let s4 = lemma_step_64(s3, d);
    let s5 = lemma_step_64(s4, e);
    let s6 = lemma_step_64(s5, f);
    // P is the third delay, and Q the second.
    assert(delay(s1, 4) == ((t.spec_output(s2) != t.spec_output(start)) != delay(b, 2)));
    assert(delay(s2, 4) == ((t.spec_output(s3) != t.spec_output(s1)) != delay(c, 2)));
    assert(delay(s3, 4) == ((t.spec_output(s4) != t.spec_output(s2)) != delay(d, 2)));
    assert(delay(s4, 4) == ((t.spec_output(s5) != t.spec_output(s3)) != delay(e, 2)));
    assert(delay(s5, 4) == ((t.spec_output(s6) != t.spec_output(s4)) != delay(f, 2)));
    assert(delay(s2, 2) == ((delay(s2, 4) != delay(s3, 4)) != delay(c, 1)));
    assert(delay(s3, 2) == ((delay(s3, 4) != delay(s4, 4)) != delay(d, 1)));
    assert(delay(s4, 2) == ((delay(s4, 4) != delay(s5, 4)) != delay(e, 1)));
}

spec fn delay(state: u8, weight: u8) -> bool {
    state / weight % 2 == 1
}

proof fn lemma_step_64(state: u8, inputs: u8) -> (next: u8)
    ensures
        next == Trellis::States64.spec_next(state, inputs) as u8,
        Trellis::States64.spec_output(state) == delay(state, 32),
        Trellis::States64.spec_output(next) == delay(next, 32),
        delay(next, 1) == (((delay(state, 1) != delay(state, 2)) != delay(inputs, 8)) != (delay(
            state,
            4,
        ) && (delay(state, 2) != delay(inputs, 1)))),
        delay(next, 2) == ((((delay(state, 1) != delay(state, 2)) != delay(inputs, 4)) != (delay(
            inputs,
            2,
        ) && delay(state, 4))) != delay(state, 8)),
        delay(next, 4) == ((delay(state, 2) != delay(inputs, 1)) != delay(state, 4)),
        delay(next, 8) == delay(state, 4),
        delay(next, 16) == delay(state, 32),
        delay(next, 32) == ((delay(state, 16) != delay(inputs, 2)) != delay(state, 4)),
{
    let next = lemma_step_bits(Trellis::States64, state, inputs);
    lemma_octet_bits(state);
    lemma_octet_bits(inputs);
    lemma_octet_bits(next);
    law_y0_is_the_last_delay(state);
    law_y0_is_the_last_delay(next);
    next
}

/// Table 13: Y2 and Y3 are the two low bits of the first label, Y4 tells
/// whether the high bits of the labels differ, and Y1 whether their middle
/// bits do, but for a first label that is odd with a second that is not.
pub proof fn law_table_13(first: u8, second: u8)
    ensures
        ({
            let y = spec_inputs(first, second);
            let turned = first % 2 == 1 && second % 2 == 0;
            &&& y < 16
            &&& (y % 2 == 1) == ((first / 2 % 2 != second / 2 % 2) != turned)
            &&& y / 2 % 2 == first as nat % 2
            &&& y / 4 % 2 == first as nat / 2 % 2
            &&& (y / 8 % 2 == 1) == (first / 4 % 2 != second / 4 % 2)
        }),
{
    let bits = table_13(octet_bits(first), octet_bits(second));
    let y = lemma_low_bits(bits);
    vstd::arithmetic::power2::lemma2_to64();
    lemma_octet_bits(first);
    lemma_octet_bits(second);
    lemma_octet_bits(y);
    assert(octet_bits(y).take(4)[0] == bits[0] && octet_bits(y).take(4)[1] == bits[1] && octet_bits(
        y,
    ).take(4)[2] == bits[2] && octet_bits(y).take(4)[3] == bits[3]);
}

/// Figure 9 by turns and steps: (1, 1) is labelled 0, a quarter turn
/// clockwise adds 1 to the two low bits of a label and keeps the high one, and
/// a step of 4 along Re or Im flips the high one.
pub proof fn law_figure_9(p: (int, int))
    requires
        odd(p),
    ensures
        spec_subset((1, 1)) == 0,
        spec_subset(p) < 8,
        spec_subset((p.1, -p.0)) % 4 == (spec_subset(p) + 1) % 4,
        spec_subset((p.1, -p.0)) / 4 == spec_subset(p) / 4,
        spec_subset((p.0 + 4, p.1)) == (spec_subset(p) + 4) % 8,
        spec_subset((p.0, p.1 + 4)) == (spec_subset(p) + 4) % 8,
        spec_subset((p.0 + 8, p.1)) == spec_subset(p),
        spec_subset((p.0, p.1 + 8)) == spec_subset(p),
{
    lemma_odd_by_8(p.0);
    lemma_odd_by_8(p.1);
}

/// The subset label s(n) of a channel output point on the odd grid.
#[must_use]
pub fn subset(point: Point) -> (label: u8)
    ensures
        label == spec_subset((point.0 as int, point.1 as int)),
        label < 8,
{
    let re: i64 = (point.0 as i64 + 0x8000_0000) % 8;
    let im: i64 = (point.1 as i64 + 0x8000_0000) % 8;
    assert(re == point.0 as int % 8);
    assert(im == point.1 as int % 8);
    let row: u8 = match im {
        3 => 0,
        1 => 1,
        7 => 2,
        _ => 3,
    };
    let column: u8 = match re {
        5 => 0,
        7 => 1,
        1 => 2,
        _ => 3,
    };
    match (row, column) {
        (0, 0) => 0b001,
        (0, 1) => 0b110,
        (0, 2) => 0b101,
        (0, _) => 0b010,
        (1, 0) => 0b100,
        (1, 1) => 0b011,
        (1, 2) => 0b000,
        (1, _) => 0b111,
        (2, 0) => 0b101,
        (2, 1) => 0b010,
        (2, 2) => 0b001,
        (2, _) => 0b110,
        (_, 0) => 0b000,
        (_, 1) => 0b111,
        (_, 2) => 0b100,
        (_, _) => 0b011,
    }
}

fn bits(value: u8) -> (bits: [bool; 8])
    ensures
        bits@ == octet_bits(value),
{
    let v0 = value;
    let v1: u8 = v0 / 2;
    let v2: u8 = v1 / 2;
    let v3: u8 = v2 / 2;
    let v4: u8 = v3 / 2;
    let v5: u8 = v4 / 2;
    let v6: u8 = v5 / 2;
    let v7: u8 = v6 / 2;
    let bits = [
        v0 % 2 == 1,
        v1 % 2 == 1,
        v2 % 2 == 1,
        v3 % 2 == 1,
        v4 % 2 == 1,
        v5 % 2 == 1,
        v6 % 2 == 1,
        v7 % 2 == 1,
    ];
    proof {
        reveal_with_fuel(field_bits, 9);
        assert(bits@ =~= octet_bits(value));
    }
    bits
}

fn pack(bits: &[bool]) -> (value: u8)
    requires
        bits.len() <= 8,
    ensures
        value == value_of(bits@),
{
    let mut value: u8 = 0;
    let mut left: usize = bits.len();
    reveal(value_of);
    while left > 0
        invariant
            left <= bits.len() <= 8,
            value == value_of(bits@.skip(left as int)),
        decreases left,
    {
        left -= 1;
        proof {
            reveal(value_of);
            let rest = bits@.skip(left as int);
            assert(rest.skip(1) =~= bits@.skip(left + 1));
            lemma_value_below(rest);
            vstd::arithmetic::power2::lemma2_to64();
            if rest.len() < 8 {
                vstd::arithmetic::power2::lemma_pow2_strictly_increases(rest.len(), 8);
            }
        }
        value = 2 * value + if bits[left] {
            1
        } else {
            0
        };
    }
    assert(bits@.skip(0) =~= bits@);
    value
}

/// Y1 to Y4, as bits 0 to 3, from the labels of the two 2D points of a 4D
/// symbol.
#[must_use]
pub fn inputs(first: u8, second: u8) -> (y: u8)
    ensures
        y == spec_inputs(first, second),
        y < 16,
{
    let f = bits(first);
    let s = bits(second);
    let y = [(s[1] != f[1]) != (f[0] && !s[0]), f[0], f[1], f[2] != s[2]];
    proof {
        assert(y@ =~= table_13(octet_bits(first), octet_bits(second)));
        lemma_value_below(y@);
        vstd::arithmetic::power2::lemma2_to64();
    }
    pack(&y)
}

impl Trellis {
    /// How many states the encoder has. A state holds its delays, the
    /// leftmost of its figure in bit 0.
    #[must_use]
    pub fn states(self) -> (states: usize)
        ensures
            states == self.spec_states(),
    {
        proof {
            vstd::arithmetic::power2::lemma2_to64();
        }
        match self {
            Self::States16 => 16,
            Self::States32 => 32,
            Self::States64 => 64,
        }
    }

    /// Y0 in a state: the last delay, so it does not depend on the inputs
    /// that arrive with it.
    #[must_use]
    pub fn output(self, state: u8) -> (y0: bool)
        ensures
            y0 == self.spec_output(state),
    {
        let s = bits(state);
        match self {
            Self::States16 => s[3],
            Self::States32 => s[4],
            Self::States64 => s[5],
        }
    }

    /// The state after `state` takes Y1 to Y4 as bits 0 to 3 of `inputs`.
    #[must_use]
    pub fn next(self, state: u8, inputs: u8) -> (next: u8)
        ensures
            next == self.spec_next(state, inputs),
            next < self.spec_states() <= 64,
    {
        let s = bits(state);
        let y = bits(inputs);
        let (y1, y2, y3, y4) = (y[0], y[1], y[2], y[3]);
        let y0 = self.output(state);
        proof {
            law_stays_within_its_states(self, state, inputs);
        }
        match self {
            Self::States16 => {
                let delays = [y0, (s[0] != y2) != y0, s[1] != y2, s[2] != y1];
                assert(delays@ =~= self.step(octet_bits(state), octet_bits(inputs)));
                pack(&delays)
            },
            Self::States32 => {
                let delays = [y0, s[0] != y2, s[1] != y1, s[2] != y4, s[3] != y2];
                assert(delays@ =~= self.step(octet_bits(state), octet_bits(inputs)));
                pack(&delays)
            },
            Self::States64 => {
                let delays = [
                    ((s[0] != s[1]) != y4) != (s[2] && (s[1] != y1)),
                    (((s[0] != s[1]) != y3) != (y2 && s[2])) != s[3],
                    (s[1] != y1) != s[2],
                    s[2],
                    y0,
                    (s[4] != y2) != s[2],
                ];
                assert(delays@ =~= self.step(octet_bits(state), octet_bits(inputs)));
                pack(&delays)
            },
        }
    }
}

} // verus!

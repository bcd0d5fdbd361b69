//! Self-synchronising scramblers: 1 + x⁻¹⁴ + x⁻¹⁷ of V.22 § 5, and the two of
//! V.34 § 7.

use std::collections::VecDeque;
use vstd::prelude::*;

verus! {

/// Ones in a row at the output after which the guard inverts an input.
pub const LOCKUP_ONES: u32 = 64;

/// A generating polynomial 1 + x⁻ᵃ + x⁻ᵇ.
#[derive(Debug, Clone, Copy, PartialEq, Eq, Structural)]
pub enum Polynomial {
    /// V.22's, a = 14 and b = 17.
    V22,
    /// a = 18 and b = 23.
    V34Call,
    /// a = 5 and b = 23.
    V34Answer,
}

impl Polynomial {
    /// From the call modem.
    pub const V34_CALL: Self = Self::V34Call;

    /// From the answer modem.
    pub const V34_ANSWER: Self = Self::V34Answer;

    pub open spec fn spec_a(self) -> int {
        match self {
            Self::V22 => 14,
            Self::V34Call => 18,
            Self::V34Answer => 5,
        }
    }

    pub open spec fn spec_b(self) -> int {
        match self {
            Self::V22 => 17,
            Self::V34Call => 23,
            Self::V34Answer => 23,
        }
    }

    fn a(self) -> (a: usize)
        ensures
            a == self.spec_a(),
    {
        match self {
            Self::V22 => 14,
            Self::V34Call => 18,
            Self::V34Answer => 5,
        }
    }

    fn b(self) -> (b: usize)
        ensures
            b == self.spec_b(),
    {
        match self {
            Self::V22 => 17,
            Self::V34Call => 23,
            Self::V34Answer => 23,
        }
    }

    /// What the polynomial adds to a bit that comes after the last b bits,
    /// newest first.
    pub open spec fn taps(self, history: Seq<bool>) -> bool {
        history[self.spec_a() - 1] != history[self.spec_b() - 1]
    }

    /// The last b bits once `bit` has come.
    pub open spec fn shift(self, history: Seq<bool>, bit: bool) -> Seq<bool> {
        seq![bit] + history.drop_last()
    }

    /// As many bits as it delays by.
    pub open spec fn holds(self, history: Seq<bool>) -> bool {
        history.len() == self.spec_b()
    }
}

impl Default for Polynomial {
    fn default() -> (polynomial: Self)
        ensures
            polynomial == Self::V22,
    {
        Self::V22
    }
}

/// All that a scrambler remembers.
pub struct Scrambling {
    pub polynomial: Polynomial,
    /// The last b bits sent, newest first.
    pub history: Seq<bool>,
    pub ones: int,
    pub guard: bool,
}

impl Scrambling {
    /// The history is as long as the polynomial's, and its newest bits are
    /// the ones counted.
    pub open spec fn valid(self) -> bool {
        &&& self.polynomial.holds(self.history)
        &&& 0 <= self.ones <= u32::MAX
        &&& forall|i: int| 0 <= i < self.ones && i < self.history.len() ==> #[trigger] self.history[i]
    }

    /// At rest.
    pub open spec fn fresh(polynomial: Polynomial) -> Self {
        Self {
            polynomial,
            history: Seq::new(polynomial.spec_b() as nat, |i: int| false),
            ones: 0,
            guard: false,
        }
    }

    /// Whether the guard inverts the next input.
    pub open spec fn inverts(self) -> bool {
        self.guard && self.ones >= LOCKUP_ONES
    }

    /// The scrambled bit for `bit`.
    pub open spec fn out(self, bit: bool) -> bool {
        (bit != self.inverts()) != self.polynomial.taps(self.history)
    }

    pub open spec fn after(self, bit: bool) -> Self {
        let out = self.out(bit);
        let ones = if self.inverts() {
            0
        } else {
            self.ones
        };
        Self {
            history: self.polynomial.shift(self.history, out),
            ones: if !out {
                0
            } else if ones < u32::MAX {
                ones + 1
            } else {
                ones
            },
            ..self
        }
    }
}

/// What a scrambler sends for `bits`.
pub open spec fn scrambled(state: Scrambling, bits: Seq<bool>) -> Seq<bool>
    decreases bits.len(),
{
    if bits.len() == 0 {
        seq![]
    } else {
        let before = scrambled(state, bits.drop_last());
        before.push(scrambling_after(state, bits.drop_last()).out(bits.last()))
    }
}

pub open spec fn scrambling_after(state: Scrambling, bits: Seq<bool>) -> Scrambling
    decreases bits.len(),
{
    if bits.len() == 0 {
        state
    } else {
        scrambling_after(state, bits.drop_last()).after(bits.last())
    }
}

/// The last b bits after `bits`, newest first.
pub open spec fn history_after(polynomial: Polynomial, history: Seq<bool>, bits: Seq<bool>) -> Seq<
    bool,
>
    decreases bits.len(),
{
    if bits.len() == 0 {
        history
    } else {
        polynomial.shift(history_after(polynomial, history, bits.drop_last()), bits.last())
    }
}

/// What a descrambler gives for received bit `n` of `bits`.
pub open spec fn descrambled_at(
    polynomial: Polynomial,
    history: Seq<bool>,
    bits: Seq<bool>,
    n: int,
) -> bool {
    bits[n] != polynomial.taps(history_after(polynomial, history, bits.take(n)))
}

proof fn lemma_scrambled(state: Scrambling, bits: Seq<bool>)
    requires
        state.valid(),
    ensures
        scrambled(state, bits).len() == bits.len(),
        scrambling_after(state, bits).valid(),
        scrambling_after(state, bits).polynomial == state.polynomial,
        scrambling_after(state, bits).guard == state.guard,
        scrambling_after(state, bits).history == history_after(
            state.polynomial,
            state.history,
            scrambled(state, bits),
        ),
    decreases bits.len(),
{
    if bits.len() > 0 {
        let less = bits.drop_last();
        lemma_scrambled(state, less);
        assert(scrambled(state, bits).drop_last() =~= scrambled(state, less));
        let before = scrambling_after(state, less);
        let after = before.after(bits.last());
        assert forall|i: int| 0 <= i < after.ones && i < after.history.len() implies #[trigger] after.history[i] by {
            if i > 0 {
                assert(after.history[i] == before.history[i - 1]);
            }
        }
    } else {
        assert(scrambled(state, bits) =~= Seq::<bool>::empty());
    }
}

proof fn lemma_scrambled_prefix(state: Scrambling, bits: Seq<bool>, n: int)
    requires
        0 <= n < bits.len(),
        state.valid(),
    ensures
        scrambled(state, bits).len() == bits.len(),
        scrambled(state, bits).take(n) == scrambled(state, bits.take(n)),
        scrambled(state, bits)[n] == scrambling_after(state, bits.take(n)).out(bits[n]),
    decreases bits.len(),
{
    let less = bits.drop_last();
    lemma_scrambled(state, bits);
    lemma_scrambled(state, less);
    lemma_scrambled(state, bits.take(n));
    if n == bits.len() - 1 {
        assert(bits.take(n) =~= less);
    } else {
        lemma_scrambled_prefix(state, less, n);
        assert(less.take(n) =~= bits.take(n));
    }
    assert(scrambled(state, bits).take(n) =~= scrambled(state, bits.take(n)));
}

/// Scrambling goes on from where it stands: what a scrambler sends for bits
/// in two parts is what it sends for them at once.
pub proof fn law_scrambling_goes_on(state: Scrambling, bits: Seq<bool>, more: Seq<bool>)
    ensures
        scrambling_after(state, bits + more) == scrambling_after(
            scrambling_after(state, bits),
            more,
        ),
        scrambled(state, bits + more) == scrambled(state, bits) + scrambled(
            scrambling_after(state, bits),
            more,
        ),
    decreases more.len(),
{
    if more.len() == 0 {
        assert(bits + more =~= bits);
        assert(scrambled(state, bits) + Seq::<bool>::empty() =~= scrambled(state, bits));
    } else {
        law_scrambling_goes_on(state, bits, more.drop_last());
        assert((bits + more).drop_last() =~= bits + more.drop_last());
        assert(scrambled(state, bits + more) =~= scrambled(state, bits) + scrambled(
            scrambling_after(state, bits),
            more,
        ));
    }
}

/// A scrambler sends as many bits as it takes, and stays what it is.
pub(crate) proof fn lemma_scrambles_each(state: Scrambling, bits: Seq<bool>)
    requires
        state.valid(),
    ensures
        scrambled(state, bits).len() == bits.len(),
        scrambling_after(state, bits).valid(),
        scrambling_after(state, bits).polynomial == state.polynomial,
        scrambling_after(state, bits).guard == state.guard,
{
    lemma_scrambled(state, bits);
}

/// A descrambler with the scrambler's history gives back what went into it,
/// as long as the guard is off.
pub proof fn law_descrambles_what_it_scrambles(state: Scrambling, bits: Seq<bool>, n: int)
    requires
        state.valid(),
        !state.guard,
        0 <= n < bits.len(),
    ensures
        descrambled_at(state.polynomial, state.history, scrambled(state, bits), n) == bits[n],
{
    lemma_scrambled_prefix(state, bits, n);
    lemma_scrambled(state, bits.take(n));
}

/// With the guard on, it gives back what went in, but for the bits that the
/// guard inverts.
pub proof fn law_descrambles_past_the_guard(state: Scrambling, bits: Seq<bool>, n: int)
    requires
        state.valid(),
        0 <= n < bits.len(),
    ensures
        descrambled_at(state.polynomial, state.history, scrambled(state, bits), n) == (bits[n]
            != scrambling_after(state, bits.take(n)).inverts()),
{
    lemma_scrambled_prefix(state, bits, n);
    lemma_scrambled(state, bits.take(n));
}

proof fn lemma_history_forgets(
    polynomial: Polynomial,
    history: Seq<bool>,
    bits: Seq<bool>,
)
    requires
        polynomial.holds(history),
    ensures
        history_after(polynomial, history, bits).len() == polynomial.spec_b(),
        forall|i: int|
            0 <= i < polynomial.spec_b() ==> #[trigger] history_after(polynomial, history, bits)[i]
                == if i < bits.len() {
                bits[bits.len() - 1 - i]
            } else {
                history[i - bits.len()]
            },
    decreases bits.len(),
{
    if bits.len() > 0 {
        lemma_history_forgets(polynomial, history, bits.drop_last());
    }
}

/// A descrambler synchronises itself: after b bits what it gives no longer
/// depends on where it started.
pub proof fn law_synchronises_itself(
    polynomial: Polynomial,
    history: Seq<bool>,
    other: Seq<bool>,
    bits: Seq<bool>,
    n: int,
)
    requires
        polynomial.holds(history),
        polynomial.holds(other),
        polynomial.spec_b() <= n < bits.len(),
    ensures
        descrambled_at(polynomial, history, bits, n) == descrambled_at(polynomial, other, bits, n),
{
    lemma_history_forgets(polynomial, history, bits.take(n));
    lemma_history_forgets(polynomial, other, bits.take(n));
}

/// The bit sent `k` before bit `n` of `out`, where `history` came before the
/// first.
pub open spec fn earlier(history: Seq<bool>, out: Seq<bool>, n: int, k: int) -> bool {
    if n >= k {
        out[n - k]
    } else {
        history[k - n - 1]
    }
}

/// Without the guard, a scrambler divides by its polynomial: each bit sent is
/// the bit that came in, less those sent a and b before it. At rest, zeros
/// came before the first.
pub proof fn law_divides_by_its_polynomial(state: Scrambling, bits: Seq<bool>, n: int)
    requires
        state.valid(),
        !state.guard,
        0 <= n < bits.len(),
    ensures
        ({
            let out = scrambled(state, bits);
            let (a, b) = (state.polynomial.spec_a() as int, state.polynomial.spec_b() as int);
            &&& out[n] == (bits[n] != (earlier(state.history, out, n, a) != earlier(
                state.history,
                out,
                n,
                b,
            )))
            &&& state == Scrambling::fresh(state.polynomial) ==> out[n] == (bits[n] != ((n >= a
                && out[n - a]) != (n >= b && out[n - b])))
        }),
{
    let out = scrambled(state, bits);
    lemma_scrambled_prefix(state, bits, n);
    lemma_scrambled(state, bits.take(n));
    lemma_history_forgets(state.polynomial, state.history, out.take(n));
    let history = history_after(state.polynomial, state.history, out.take(n));
    assert(history[state.polynomial.spec_a() - 1] == earlier(
        state.history,
        out,
        n,
        state.polynomial.spec_a() as int,
    ));
    assert(history[state.polynomial.spec_b() - 1] == earlier(
        state.history,
        out,
        n,
        state.polynomial.spec_b() as int,
    ));
}

/// The guard breaks a run: after 64 ones, a one at the input gives a zero.
pub proof fn law_the_guard_breaks_a_run_of_64_ones(state: Scrambling)
    requires
        state.valid(),
        state.guard,
        state.ones >= LOCKUP_ONES,
    ensures
        !state.out(true),
{
    assert(state.history[state.polynomial.spec_a() - 1]);
    assert(state.history[state.polynomial.spec_b() - 1]);
}

/// Without the guard, b ones in a row go on for as long as ones come in.
pub proof fn law_locks_up_on_ones_without_the_guard(state: Scrambling)
    requires
        state.valid(),
        !state.guard,
        state.ones >= state.polynomial.spec_b(),
    ensures
        state.out(true),
        state.after(true).ones >= state.polynomial.spec_b(),
{
    assert(state.history[state.polynomial.spec_a() - 1]);
    assert(state.history[state.polynomial.spec_b() - 1]);
}

fn zeros(count: usize) -> (bits: VecDeque<bool>)
    ensures
        bits@ == Seq::new(count as nat, |i: int| false),
{
    let mut bits: VecDeque<bool> = VecDeque::new();
    let mut n: usize = 0;
    while n < count
        invariant
            n <= count,
            bits@.len() == n,
            forall|i: int| 0 <= i < n ==> !#[trigger] bits@[i],
        decreases count - n,
    {
        bits.push_back(false);
        n += 1;
    }
    assert(bits@ =~= Seq::new(count as nat, |i: int| false));
    bits
}

fn taps(polynomial: Polynomial, history: &VecDeque<bool>) -> (sum: bool)
    requires
        polynomial.holds(history@),
    ensures
        sum == polynomial.taps(history@),
{
    history[polynomial.a() - 1] != history[polynomial.b() - 1]
}

fn shift(polynomial: Polynomial, history: &mut VecDeque<bool>, bit: bool)
    requires
        polynomial.holds(old(history)@),
    ensures
        final(history)@ == polynomial.shift(old(history)@, bit),
{
    let _oldest = history.pop_back();
    history.push_front(bit);
    assert(history@ =~= polynomial.shift(old(history)@, bit));
}

#[derive(Debug)]
pub struct Scrambler {
    polynomial: Polynomial,
    history: VecDeque<bool>,
    ones: u32,
    guard: bool,
}

impl View for Scrambler {
    type V = Scrambling;

    closed spec fn view(&self) -> Scrambling {
        Scrambling {
            polynomial: self.polynomial,
            history: self.history@,
            ones: self.ones as int,
            guard: self.guard,
        }
    }
}

impl Default for Scrambler {
    fn default() -> (scrambler: Self)
        ensures
            scrambler@ == Scrambling::fresh(Polynomial::V22),
            scrambler@.valid(),
    {
        Self::new()
    }
}

impl Scrambler {
    /// V.22's.
    #[must_use]
    pub fn new() -> (scrambler: Self)
        ensures
            scrambler@ == Scrambling::fresh(Polynomial::V22),
            scrambler@.valid(),
    {
        Self::with(Polynomial::V22)
    }

    #[must_use]
    pub fn with(polynomial: Polynomial) -> (scrambler: Self)
        ensures
            scrambler@ == Scrambling::fresh(polynomial),
            scrambler@.valid(),
    {
        Self { polynomial, history: zeros(polynomial.b()), ones: 0, guard: false }
    }

    /// From now on, inverts the next input after 64 ones in a row at the
    /// output, so that a run of ones cannot lock the scrambler. V.22 keeps
    /// this off during the handshake.
    pub fn guard_against_lockup(&mut self)
        ensures
            final(self)@ == (Scrambling { guard: true, ..old(self)@ }),
    {
        self.guard = true;
    }

    /// What the polynomial adds to the next bit.
    #[must_use]
    pub fn taps(&self) -> (sum: bool)
        requires
            self@.valid(),
        ensures
            sum == self@.polynomial.taps(self@.history),
    {
        taps(self.polynomial, &self.history)
    }

    pub fn scramble(&mut self, bit: bool) -> (out: bool)
        requires
            old(self)@.valid(),
        ensures
            out == old(self)@.out(bit),
            final(self)@ == old(self)@.after(bit),
            final(self)@.valid(),
    {
        let ghost before = self@;
        let bit = if self.guard && self.ones >= LOCKUP_ONES {
            self.ones = 0;
            !bit
        } else {
            bit
        };
        let out = bit != taps(self.polynomial, &self.history);
        shift(self.polynomial, &mut self.history, out);
        self.ones = if !out {
            0
        } else if self.ones < u32::MAX {
            self.ones + 1
        } else {
            self.ones
        };
        proof {
            assert forall|i: int| 0 <= i < self@.ones && i < self@.history.len() implies #[trigger] self@.history[i] by {
                if i > 0 {
                    assert(self@.history[i] == before.history[i - 1]);
                }
            }
        }
        out
    }
}

#[derive(Debug)]
pub struct Descrambler {
    polynomial: Polynomial,
    history: VecDeque<bool>,
}

impl Default for Descrambler {
    fn default() -> (descrambler: Self)
        ensures
            descrambler.valid(),
            descrambler.polynomial() == Polynomial::V22,
            descrambler.history() == Seq::new(17, |i: int| false),
    {
        Self::new()
    }
}

impl Descrambler {
    pub closed spec fn polynomial(self) -> Polynomial {
        self.polynomial
    }

    /// The last b bits received, newest first.
    pub closed spec fn history(self) -> Seq<bool> {
        self.history@
    }

    pub open spec fn valid(self) -> bool {
        self.polynomial().holds(self.history())
    }

    /// V.22's.
    #[must_use]
    pub fn new() -> (descrambler: Self)
        ensures
            descrambler.valid(),
            descrambler.polynomial() == Polynomial::V22,
            descrambler.history() == Seq::new(17, |i: int| false),
    {
        Self::with(Polynomial::V22)
    }

    #[must_use]
    pub fn with(polynomial: Polynomial) -> (descrambler: Self)
        ensures
            descrambler.valid(),
            descrambler.polynomial() == polynomial,
            descrambler.history() == Seq::new(polynomial.spec_b() as nat, |i: int| false),
    {
        Self { polynomial, history: zeros(polynomial.b()) }
    }

    pub fn descramble(&mut self, bit: bool) -> (out: bool)
        requires
            old(self).valid(),
        ensures
            out == (bit != old(self).polynomial().taps(old(self).history())),
            final(self).polynomial() == old(self).polynomial(),
            final(self).history() == old(self).polynomial().shift(old(self).history(), bit),
            final(self).valid(),
    {
        let out = bit != taps(self.polynomial, &self.history);
        shift(self.polynomial, &mut self.history, bit);
        out
    }
}

/// The taps of each polynomial: 1 + x⁻¹⁴ + x⁻¹⁷ of V.22, and 1 + x⁻¹⁸ + x⁻²³
/// and 1 + x⁻⁵ + x⁻²³ of V.34. Without the guard a bit that leaves is the one
/// that entered, turned over by each tap that holds a 1, and it is delayed
/// from then on.
pub proof fn law_taps_turn_the_bit(state: Scrambling, bit: bool, i: int)
    requires
        state.valid(),
        !state.guard,
    ensures
        ({
            let taps: (int, int) = match state.polynomial {
                Polynomial::V22 => (14, 17),
                Polynomial::V34Call => (18, 23),
                Polynomial::V34Answer => (5, 23),
            };
            let next = state.after(bit);
            &&& state.history.len() == taps.1
            &&& state.out(bit) == ((bit != state.history[taps.0 - 1]) != state.history[taps.1 - 1])
            &&& next.history.len() == taps.1
            &&& next.history[0] == state.out(bit)
            &&& 0 < i < taps.1 ==> next.history[i] == state.history[i - 1]
            &&& next.polynomial == state.polynomial && next.guard == state.guard
            &&& forall|k: int|
                0 <= k < Scrambling::fresh(state.polynomial).history.len() ==> !#[trigger] Scrambling::fresh(
                    state.polynomial,
                ).history[k]
            &&& Polynomial::V34_CALL == Polynomial::V34Call && Polynomial::V34_ANSWER == Polynomial::V34Answer
        }),
{
}

/// The guard turns the bit over that comes after 64 ones in a row on the
/// line, and counts from the start again.
pub proof fn law_the_guard_counts_64_ones(state: Scrambling, bit: bool)
    requires
        state.valid(),
        state.guard,
        state.ones < u32::MAX,
    ensures
        ({
            let plain = (bit != state.polynomial.taps(state.history));
            let next = state.after(bit);
            &&& state.ones < 64 ==> state.out(bit) == plain
            &&& state.ones >= 64 ==> state.out(bit) == !plain
            &&& !state.out(bit) ==> next.ones == 0
            &&& state.out(bit) && state.ones < 64 ==> next.ones == state.ones + 1
            &&& state.out(bit) && state.ones >= 64 ==> next.ones == 1
        }),
{
}

} // verus!

//! Finds S and the start of S̄ in front-end symbols, before the equaliser
//! has trained. S repeats every two symbols and S̄ is S turned by 180°,
//! which a linear channel and any timing phase keep.

use crate::pump::CLOCK_LIMIT;
use vstd::prelude::*;

verus! {

/// Symbols of S in a row before S counts as heard.
pub const S_SYMBOLS: usize = 32;

/// What `SDetector` found.
#[derive(Debug, Clone, Copy, PartialEq, Eq, Structural)]
pub enum Heard {
    S,
    /// S̄ began at this symbol, counted from the first the detector took.
    SBar(usize),
}

/// How a symbol compares with the two before it.
#[derive(Debug, Clone, Copy, PartialEq, Eq, Structural)]
pub enum Likeness {
    /// There is nothing to compare.
    Nothing,
    /// It repeats the one two symbols before, and differs from the last.
    Repeats,
    /// It turns the one two symbols before by 180°.
    Reverses,
    Other,
}

/// Hears S, then the S̄ that follows it.
#[derive(Debug, Clone, Copy, PartialEq, Eq, Structural)]
pub struct SDetector {
    /// The symbols taken.
    pub count: usize,
    /// The symbols of S in a row, as far as they count.
    pub run: usize,
    pub reversed: usize,
}

impl Default for SDetector {
    fn default() -> (detector: Self)
        ensures
            detector.valid(),
            detector == Self::fresh(),
    {
        Self { count: 0, run: 0, reversed: 0 }
    }
}

impl SDetector {
    pub open spec fn fresh() -> Self {
        Self { count: 0, run: 0, reversed: 0 }
    }

    pub open spec fn valid(self) -> bool {
        self.count <= CLOCK_LIMIT && self.run <= S_SYMBOLS + 1 && self.reversed < 2
    }

    /// Takes the next front-end symbol when it is too faint to be the far
    /// end's, as the echo of this end's own S is: it ends any S heard so far.
    pub fn skip(&mut self)
        requires
            old(self).valid(),
            old(self).count < CLOCK_LIMIT,
        ensures
            final(self).valid(),
            *final(self) == (Self { count: (old(self).count + 1) as usize, run: 0, reversed: 0 }),
    {
        self.count += 1;
        self.run = 0;
        self.reversed = 0;
    }

    /// S has lasted, so a reversal may be S̄.
    pub open spec fn awaits_s_bar(self) -> bool {
        self.run >= S_SYMBOLS
    }

    pub open spec fn after(self, likeness: Likeness) -> Self {
        let counted = Self { count: (self.count + 1) as usize, ..self };
        if likeness is Nothing || self.count < 2 {
            counted
        } else if self.awaits_s_bar() && likeness is Reverses {
            if self.reversed + 1 == 2 {
                Self { run: 0, reversed: 0, ..counted }
            } else {
                Self { reversed: (self.reversed + 1) as usize, ..counted }
            }
        } else if likeness is Repeats {
            Self {
                run: if self.run <= S_SYMBOLS {
                    (self.run + 1) as usize
                } else {
                    self.run
                },
                reversed: 0,
                ..counted
            }
        } else {
            Self { run: 0, reversed: 0, ..counted }
        }
    }

    /// S̄ is heard by its second symbol, S by its 32nd repetition.
    pub open spec fn hears(self, likeness: Likeness) -> Option<Heard> {
        if self.count < 2 {
            None
        } else if self.awaits_s_bar() && likeness is Reverses && self.reversed + 1 == 2 {
            Some(Heard::SBar((self.count - 1) as usize))
        } else if likeness is Repeats && self.run + 1 == S_SYMBOLS {
            Some(Heard::S)
        } else {
            None
        }
    }

    /// Takes how the next front-end symbol compares with those before it.
    pub fn push(&mut self, likeness: Likeness) -> (heard: Option<Heard>)
        requires
            old(self).valid(),
            old(self).count < CLOCK_LIMIT,
        ensures
            final(self).valid(),
            *final(self) == old(self).after(likeness),
            heard == old(self).hears(likeness),
    {
        let n = self.count;
        self.count += 1;
        if matches!(likeness, Likeness::Nothing) || n < 2 {
            return None;
        }
        if self.run >= S_SYMBOLS && matches!(likeness, Likeness::Reverses) {
            self.reversed += 1;
            if self.reversed == 2 {
                self.run = 0;
                self.reversed = 0;
                return Some(Heard::SBar(n - 1));
            }
            return None;
        }
        self.reversed = 0;
        if matches!(likeness, Likeness::Repeats) {
            if self.run <= S_SYMBOLS {
                self.run += 1;
            }
            if self.run == S_SYMBOLS {
                return Some(Heard::S);
            }
        } else {
            self.run = 0;
        }
        None
    }
}

pub open spec fn detector_after(detector: SDetector, symbols: Seq<Likeness>) -> SDetector
    decreases symbols.len(),
{
    if symbols.len() == 0 {
        detector
    } else {
        detector_after(detector, symbols.drop_last()).after(symbols.last())
    }
}

/// S of `count` symbols, whose first two have nothing before them.
pub open spec fn s_symbols(count: nat) -> Seq<Likeness> {
    Seq::new(
        count,
        |i: int|
            if i < 2 {
                Likeness::Other
            } else {
                Likeness::Repeats
            },
    )
}

proof fn lemma_s(count: nat)
    requires
        count <= CLOCK_LIMIT,
    ensures
        ({
            let after = detector_after(SDetector::fresh(), s_symbols(count));
            &&& after.count == count
            &&& after.reversed == 0
            &&& after.run == if count < 2 {
                0
            } else if count - 2 <= S_SYMBOLS + 1 {
                count - 2
            } else {
                S_SYMBOLS + 1
            }
        }),
    decreases count,
{
    if count > 0 {
        lemma_s((count - 1) as nat);
        assert(s_symbols(count).drop_last() =~= s_symbols((count - 1) as nat));
    }
}

/// After S of any length from 34 symbols on, S̄ is heard by its second
/// symbol, and told where it began.
pub proof fn law_hears_where_s_bar_begins(count: nat)
    requires
        S_SYMBOLS + 2 <= count < CLOCK_LIMIT,
    ensures
        ({
            let after = detector_after(SDetector::fresh(), s_symbols(count));
            let first = after.after(Likeness::Reverses);
            &&& after.hears(Likeness::Reverses) is None
            &&& first.hears(Likeness::Reverses) == Some(Heard::SBar(count as usize))
        }),
{
    lemma_s(count);
}

/// S is heard once, by its 34th symbol.
pub proof fn law_hears_s_once(count: nat)
    requires
        2 <= count < CLOCK_LIMIT,
    ensures
        detector_after(SDetector::fresh(), s_symbols(count)).hears(Likeness::Repeats) == if count
            == S_SYMBOLS + 1 {
            Some(Heard::S)
        } else {
            None::<Heard>
        },
{
    lemma_s(count);
}

/// Too little of S leads to nothing.
pub proof fn law_needs_enough_of_s_first(count: nat, next: Likeness)
    requires
        count <= S_SYMBOLS,
    ensures
        detector_after(SDetector::fresh(), s_symbols(count)).hears(next) is None,
{
    lemma_s(count);
}

/// Symbol by symbol, S is counted by its repetitions, heard by the 32nd in a
/// row, and ended by anything else. From then on two reversals in a row are
/// S̄, which began with the first of them. The first two symbols have none to
/// compare with.
pub proof fn law_each_symbol_is_compared_with_the_two_before(detector: SDetector, likeness: Likeness)
    requires
        detector.valid(),
        detector.count < CLOCK_LIMIT,
    ensures
        ({
            let after = detector.after(likeness);
            let hears = detector.hears(likeness);
            &&& after.count == detector.count + 1
            &&& detector.count < 2 || likeness == Likeness::Nothing ==> hears is None && after.run == detector.run
                && after.reversed == detector.reversed
            &&& detector.count >= 2 && likeness == Likeness::Repeats ==> {
                &&& after.reversed == 0
                &&& detector.run <= 32 ==> after.run == detector.run + 1
                &&& detector.run > 32 ==> after.run == detector.run
                &&& detector.run == 31 ==> hears == Some(Heard::S)
                &&& detector.run != 31 ==> hears is None
            }
            &&& detector.count >= 2 && likeness == Likeness::Reverses && detector.run >= 32 ==> {
                &&& detector.reversed == 0 ==> hears is None && after.reversed == 1 && after.run == detector.run
                &&& detector.reversed == 1 ==> hears == Some(Heard::SBar((detector.count - 1) as usize)) && after.run
                    == 0 && after.reversed == 0
            }
            &&& detector.count >= 2 && likeness == Likeness::Reverses && detector.run < 32 ==> hears is None
                && after.run == 0 && after.reversed == 0
            &&& detector.count >= 2 && likeness == Likeness::Other ==> hears is None && after.run == 0
                && after.reversed == 0
        }),
{
}

} // verus!

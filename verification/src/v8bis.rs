//! V.8 bis: the tone signals that start a transaction.

use crate::pump::CLOCK_LIMIT;
use vstd::prelude::*;

verus! {

/// § 7.1.2: segment 1 is 400 ms.
pub const SEGMENT_1_SAMPLES: usize = 3200;

/// § 7.1.2: segment 1 is 285 ms for MRe and CRe.
pub const SHORT_SEGMENT_1_SAMPLES: usize = 2280;

/// § 7.1.2: segment 2 is 100 ms.
pub const SEGMENT_2_SAMPLES: usize = 800;

/// Most of a short segment 1.
pub const PAIR_SAMPLES: usize = 1600;

/// Half of segment 2.
pub const SINGLE_SAMPLES: usize = 400;

pub const SEGMENT_2_WAIT_SAMPLES: usize = 1200;

/// A V.8 bis signal, named by its segment 2 tone.
#[derive(Debug, Clone, Copy, PartialEq, Eq, Structural)]
pub enum Signal {
    MRe,
    MRd,
    CRe,
    CRd,
    ESi,
    ESr,
}

/// The dual tone of segment 1: the one a transaction starts with, or the
/// one that answers it.
#[derive(Debug, Clone, Copy, PartialEq, Eq, Structural)]
pub enum Pair {
    Initiating,
    Responding,
}

impl Pair {
    pub open spec fn spec_signals(self) -> Seq<Signal> {
        match self {
            Self::Initiating => seq![
                Signal::MRe,
                Signal::MRd,
                Signal::CRe,
                Signal::CRd,
                Signal::ESi,
            ],
            Self::Responding => seq![Signal::MRd, Signal::CRd, Signal::ESr],
        }
    }

    /// The signals that start with the dual tone.
    #[must_use]
    pub fn signals(self) -> (signals: Vec<Signal>)
        ensures
            signals@ == self.spec_signals(),
    {
        let signals = match self {
            Self::Initiating => vec![
                Signal::MRe,
                Signal::MRd,
                Signal::CRe,
                Signal::CRd,
                Signal::ESi,
            ],
            Self::Responding => vec![Signal::MRd, Signal::CRd, Signal::ESr],
        };
        assert(signals@ =~= self.spec_signals());
        signals
    }
}

impl Signal {
    pub open spec fn spec_segment_2_hz(self) -> u32 {
        match self {
            Self::MRe => 650,
            Self::MRd => 1150,
            Self::CRe => 400,
            Self::CRd => 1900,
            Self::ESi => 980,
            Self::ESr => 1650,
        }
    }

    #[must_use]
    pub fn segment_2_hz(self) -> (hz: u32)
        ensures
            hz == self.spec_segment_2_hz(),
    {
        match self {
            Self::MRe => 650,
            Self::MRd => 1150,
            Self::CRe => 400,
            Self::CRd => 1900,
            Self::ESi => 980,
            Self::ESr => 1650,
        }
    }

    pub open spec fn spec_segment_1_samples(self) -> usize {
        match self {
            Self::MRe | Self::CRe => SHORT_SEGMENT_1_SAMPLES,
            _ => SEGMENT_1_SAMPLES,
        }
    }

    /// § 7.1.2 allows the shorter segment 1 so a modem without V.8 bis ignores it.
    #[must_use]
    pub fn segment_1_samples(self) -> (samples: usize)
        ensures
            samples == self.spec_segment_1_samples(),
    {
        match self {
            Self::MRe | Self::CRe => SHORT_SEGMENT_1_SAMPLES,
            _ => SEGMENT_1_SAMPLES,
        }
    }
}

/// The tones of segment 2 tell the signals apart.
pub proof fn law_signals_have_tones_of_their_own(signal: Signal, other: Signal)
    requires
        signal.spec_segment_2_hz() == other.spec_segment_2_hz(),
    ensures
        signal == other,
{
}

/// What a sample of a signal carries.
#[derive(Debug, Clone, Copy, PartialEq, Eq, Structural)]
pub enum Part {
    Pair,
    Single,
    Silence,
}

/// Sends one signal, then silence.
#[derive(Debug, Clone, Copy, PartialEq, Eq, Structural)]
pub struct Sending {
    pub segment_1: usize,
    pub sent: usize,
}

impl Sending {
    /// What the next sample carries.
    pub open spec fn part(self) -> Part {
        if self.sent < self.segment_1 {
            Part::Pair
        } else if self.sent < self.segment_1 + SEGMENT_2_SAMPLES {
            Part::Single
        } else {
            Part::Silence
        }
    }

    #[must_use]
    pub fn new(signal: Signal) -> (sending: Self)
        ensures
            sending == (Self { segment_1: signal.spec_segment_1_samples(), sent: 0 }),
    {
        Self { segment_1: signal.segment_1_samples(), sent: 0 }
    }

    #[must_use]
    pub fn done(&self) -> (done: bool)
        requires
            self.segment_1 <= CLOCK_LIMIT,
        ensures
            done == (self.sent >= self.segment_1 + SEGMENT_2_SAMPLES),
    {
        self.sent >= self.segment_1 + SEGMENT_2_SAMPLES
    }

    /// What the next sample carries.
    pub fn next(&mut self) -> (part: Part)
        requires
            old(self).segment_1 <= CLOCK_LIMIT,
            old(self).sent < CLOCK_LIMIT,
        ensures
            *final(self) == (Self { sent: (old(self).sent + 1) as usize, ..*old(self) }),
            part == old(self).part(),
    {
        let at = self.sent;
        self.sent += 1;
        if at < self.segment_1 {
            Part::Pair
        } else if at < self.segment_1 + SEGMENT_2_SAMPLES {
            Part::Single
        } else {
            Part::Silence
        }
    }
}

#[derive(Debug, Clone, Copy, PartialEq, Eq, Structural)]
pub enum Stage {
    /// The dual tone has lasted so long, as far as that counts.
    Pair { lasted: usize },
    /// Waiting for segment 2, with the tone that has lasted so long, if any.
    Single { waited: usize, lasted: usize, at: Option<usize> },
}

impl Stage {
    pub open spec fn valid(self) -> bool {
        match self {
            Self::Pair { lasted } => lasted <= PAIR_SAMPLES,
            Self::Single { waited, lasted, .. } => waited <= SEGMENT_2_WAIT_SAMPLES && lasted
                < SINGLE_SAMPLES,
        }
    }

    /// The tone whose segment 2 has now lasted long enough.
    pub open spec fn hears(self, single: Option<usize>) -> Option<usize> {
        match self {
            Self::Single { waited, lasted, at } => if waited < SEGMENT_2_WAIT_SAMPLES
                && single is Some && single == at && lasted + 1 >= SINGLE_SAMPLES {
                single
            } else {
                None
            },
            _ => None,
        }
    }

    pub open spec fn after(self, paired: bool, single: Option<usize>) -> Self {
        match self {
            Self::Pair { lasted } => if paired {
                Self::Pair {
                    lasted: if lasted < PAIR_SAMPLES {
                        (lasted + 1) as usize
                    } else {
                        PAIR_SAMPLES
                    },
                }
            } else if lasted >= PAIR_SAMPLES {
                Self::Single { waited: 0, lasted: 0, at: None }
            } else {
                Self::Pair { lasted: 0 }
            },
            Self::Single { waited, lasted, at } => if waited >= SEGMENT_2_WAIT_SAMPLES
                || self.hears(single) is Some {
                Self::Pair { lasted: 0 }
            } else {
                Self::Single {
                    waited: (waited + 1) as usize,
                    lasted: if single is None {
                        0
                    } else if single == at {
                        (lasted + 1) as usize
                    } else {
                        1
                    },
                    at: single,
                }
            },
        }
    }
}

/// Hears the signals that start with one dual tone and tells them apart by
/// their segment 2 tone.
#[derive(Debug)]
pub struct Hearing {
    signals: Vec<Signal>,
    stage: Stage,
}

impl Hearing {
    pub closed spec fn signals(self) -> Seq<Signal> {
        self.signals@
    }

    pub closed spec fn stage(self) -> Stage {
        self.stage
    }

    pub open spec fn valid(self) -> bool {
        self.stage().valid()
    }

    #[must_use]
    pub fn new(pair: Pair) -> (hearing: Self)
        ensures
            hearing.valid(),
            hearing.signals() == pair.spec_signals(),
            hearing.stage() == (Stage::Pair { lasted: 0 }),
    {
        Self { signals: pair.signals(), stage: Stage::Pair { lasted: 0 } }
    }

    /// Takes whether the dual tone is on the line, and which of the segment 2
    /// tones is, and gives the signal that has been heard.
    pub fn push(&mut self, paired: bool, single: Option<usize>) -> (heard: Option<Signal>)
        requires
            old(self).valid(),
            match single {
                Some(i) => i < old(self).signals().len(),
                None => true,
            },
        ensures
            final(self).valid(),
            final(self).signals() == old(self).signals(),
            final(self).stage() == old(self).stage().after(paired, single),
            heard == (match old(self).stage().hears(single) {
                Some(i) => Some(old(self).signals()[i as int]),
                None => None,
            }),
    {
        match self.stage {
            Stage::Pair { lasted } => {
                self.stage = if paired {
                    Stage::Pair {
                        lasted: if lasted < PAIR_SAMPLES {
                            lasted + 1
                        } else {
                            PAIR_SAMPLES
                        },
                    }
                } else if lasted >= PAIR_SAMPLES {
                    Stage::Single { waited: 0, lasted: 0, at: None }
                } else {
                    Stage::Pair { lasted: 0 }
                };
                None
            },
            Stage::Single { waited, lasted, at } => {
                if waited >= SEGMENT_2_WAIT_SAMPLES {
                    self.stage = Stage::Pair { lasted: 0 };
                    return None;
                }
                let lasted = match (single, at) {
                    (Some(i), Some(at)) => if i == at {
                        lasted + 1
                    } else {
                        1
                    },
                    (Some(_), None) => 1,
                    (None, _) => 0,
                };
                match single {
                    Some(i) => {
                        if lasted >= SINGLE_SAMPLES {
                            self.stage = Stage::Pair { lasted: 0 };
                            return Some(self.signals[i]);
                        }
                    },
                    None => {},
                }
                self.stage = Stage::Single { waited: waited + 1, lasted, at: single };
                None
            },
        }
    }
}

pub open spec fn stage_after(stage: Stage, heard: Seq<(bool, Option<usize>)>) -> Stage
    decreases heard.len(),
{
    if heard.len() == 0 {
        stage
    } else {
        stage_after(stage, heard.drop_last()).after(heard.last().0, heard.last().1)
    }
}

/// A signal is heard only after 200 ms of its dual tone: without it, no
/// segment 2 is waited for.
pub proof fn law_needs_the_dual_tone_first(stage: Stage, single: Option<usize>)
    requires
        stage.valid(),
        stage is Pair,
    ensures
        stage.hears(single) is None,
        stage.after(false, single) is Single ==> stage->Pair_lasted >= PAIR_SAMPLES,
        stage.after(true, single) is Pair,
{
}

/// Segment 2 that lasts 50 ms is heard, and nothing sooner.
pub proof fn law_hears_segment_2(waited: usize, at: usize, count: nat)
    requires
        waited + SINGLE_SAMPLES < SEGMENT_2_WAIT_SAMPLES,
        count < SINGLE_SAMPLES,
    ensures
        ({
            let start = Stage::Single { waited, lasted: 0, at: None };
            let tone = Seq::new(count, |i: int| (false, Some(at)));
            let stage = stage_after(start, tone);
            &&& count > 0 ==> stage == (Stage::Single {
                waited: (waited + count) as usize,
                lasted: count as usize,
                at: Some(at),
            })
            &&& stage.hears(Some(at)) == if count + 1 == SINGLE_SAMPLES {
                Some(at)
            } else {
                None::<usize>
            }
        }),
    decreases count,
{
    let tone = Seq::new(count, |i: int| (false, Some(at)));
    if count > 0 {
        law_hears_segment_2(waited, at, (count - 1) as nat);
        assert(tone.drop_last() =~= Seq::new((count - 1) as nat, |i: int| (false, Some(at))));
    }
}

/// § 7.1: the tones of each signal, and how long they last: 400 ms of the
/// dual tone, or 285 ms for MRe and CRe, then 100 ms of the single tone, and
/// silence.
pub proof fn law_each_signal_has_its_tones(signal: Signal, sending: Sending)
    requires
        sending.segment_1 == signal.spec_segment_1_samples(),
    ensures
        Signal::MRe.spec_segment_2_hz() == 650 && Signal::MRd.spec_segment_2_hz() == 1150,
        Signal::CRe.spec_segment_2_hz() == 400 && Signal::CRd.spec_segment_2_hz() == 1900,
        Signal::ESi.spec_segment_2_hz() == 980 && Signal::ESr.spec_segment_2_hz() == 1650,
        signal == Signal::MRe || signal == Signal::CRe ==> 1000 * signal.spec_segment_1_samples() == 285 * 8000,
        signal != Signal::MRe && signal != Signal::CRe ==> 1000 * signal.spec_segment_1_samples() == 400 * 8000,
        sending.sent < signal.spec_segment_1_samples() ==> sending.part() == Part::Pair,
        signal.spec_segment_1_samples() <= sending.sent < signal.spec_segment_1_samples() + 800 ==> sending.part()
            == Part::Single,
        sending.sent >= signal.spec_segment_1_samples() + 800 ==> sending.part() == Part::Silence,
        Pair::Initiating.spec_signals().contains(signal) <==> signal != Signal::ESr,
        Pair::Responding.spec_signals().contains(signal) <==> signal == Signal::MRd || signal == Signal::CRd || signal
            == Signal::ESr,
{
    let initiating = Pair::Initiating.spec_signals();
    let responding = Pair::Responding.spec_signals();
    assert(initiating[0] == Signal::MRe && initiating[1] == Signal::MRd && initiating[2] == Signal::CRe && initiating[3]
        == Signal::CRd && initiating[4] == Signal::ESi);
    assert(responding[0] == Signal::MRd && responding[1] == Signal::CRd && responding[2] == Signal::ESr);
}

/// The dual tone counts once it has lasted 200 ms. When it ends, a single
/// tone that lasts 50 ms within the 150 ms after it is the signal, and a
/// break or another tone starts it over.
pub proof fn law_a_signal_is_heard_by_both_segments(stage: Stage, single: Option<usize>, lasted: usize, waited: usize, at: Option<usize>)
    requires
        stage.valid(),
    ensures
        stage == (Stage::Pair { lasted }) ==> stage.hears(single) is None,
        stage == (Stage::Pair { lasted }) && lasted < 1600 ==> stage.after(true, single) == (Stage::Pair {
            lasted: (lasted + 1) as usize,
        }) && stage.after(false, single) == (Stage::Pair { lasted: 0 }),
        stage == (Stage::Pair { lasted: 1600 }) ==> stage.after(true, single) == stage && stage.after(false, single)
            == (Stage::Single { waited: 0, lasted: 0, at: None }),
        stage == (Stage::Single { waited, lasted, at }) && waited >= 1200 ==> stage.hears(single) is None && stage.after(
            false,
            single,
        ) == (Stage::Pair { lasted: 0 }),
        stage == (Stage::Single { waited, lasted, at }) && waited < 1200 ==> {
            &&& single is None ==> stage.hears(single) is None && stage.after(false, single) == (Stage::Single {
                waited: (waited + 1) as usize,
                lasted: 0,
                at: None,
            })
            &&& single is Some && single != at ==> stage.hears(single) is None && stage.after(false, single)
                == (Stage::Single { waited: (waited + 1) as usize, lasted: 1, at: single })
            &&& single is Some && single == at && lasted < 399 ==> stage.hears(single) is None && stage.after(
                false,
                single,
            ) == (Stage::Single { waited: (waited + 1) as usize, lasted: (lasted + 1) as usize, at })
            &&& single is Some && single == at && lasted == 399 ==> stage.hears(single) == single && stage.after(
                false,
                single,
            ) == (Stage::Pair { lasted: 0 })
        },
{
}

} // verus!

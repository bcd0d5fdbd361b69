//! The answer tones: ANS of V.25 and `ANSam` of V.8, and how a detector tells
//! them apart from the envelope of what it hears.

use vstd::prelude::*;

verus! {

/// V.25 § 2.3: the phase reverses every 450 ms.
pub const REVERSAL_SAMPLES: usize = 3600;

/// The samples of one step of the envelope.
pub const STEP: usize = 40;

/// The steps of the envelope that are judged, 400 ms.
pub const ENVELOPES: usize = 80;

/// The steps without tone that end it.
pub const GAP_STEPS: u32 = 5;

#[derive(Debug, Clone, Copy, PartialEq, Eq, Structural)]
pub enum AnswerToneKind {
    /// 2100 Hz, as V.25 sends it.
    Ans,
    /// 2100 Hz amplitude modulated at 15 Hz, as V.8 sends it.
    Ansam,
}

/// How a detector goes on with a step of the envelope.
#[derive(Debug, Clone, Copy, PartialEq, Eq, Structural)]
pub enum Step {
    /// The tone has ended: the envelope starts anew.
    Ended,
    /// The step joins the envelope, which is too short yet.
    Short,
    /// The step joins the envelope, which tells which tone it is.
    Judged,
}

/// What a detector has heard: an answer tone counts once it has lasted
/// 400 ms.
#[derive(Debug, Clone, Copy, PartialEq, Eq, Structural)]
pub struct Hearing {
    /// The steps of the envelope, at most as many as are judged.
    pub steps: usize,
    /// The steps without tone in a row, as far as they count.
    pub gap: u32,
    pub heard: Option<AnswerToneKind>,
}

impl Hearing {
    pub open spec fn valid(self) -> bool {
        self.steps <= ENVELOPES && self.gap <= GAP_STEPS
    }

    #[must_use]
    pub fn new() -> (hearing: Self)
        ensures
            hearing.valid(),
            hearing == (Self { steps: 0, gap: 0, heard: None }),
    {
        Self { steps: 0, gap: 0, heard: None }
    }

    pub open spec fn gap_after(self, present: bool) -> int {
        if present {
            0
        } else if self.gap < GAP_STEPS {
            self.gap + 1
        } else {
            GAP_STEPS as int
        }
    }

    pub open spec fn step(self, present: bool) -> Step {
        if self.gap_after(present) >= GAP_STEPS {
            Step::Ended
        } else if self.steps + 1 < ENVELOPES {
            Step::Short
        } else {
            Step::Judged
        }
    }

    /// Once a step of the envelope has come.
    pub open spec fn after(self, present: bool) -> Self {
        match self.step(present) {
            Step::Ended => Self { steps: 0, gap: GAP_STEPS, heard: None },
            _ => Self {
                steps: if self.steps < ENVELOPES {
                    (self.steps + 1) as usize
                } else {
                    ENVELOPES
                },
                gap: self.gap_after(present) as u32,
                ..self
            },
        }
    }

    /// Once the envelope is known to be modulated at 15 Hz, or not to be.
    pub open spec fn judged(self, modulated: bool) -> Self {
        Self {
            heard: Some(
                if modulated {
                    AnswerToneKind::Ansam
                } else {
                    AnswerToneKind::Ans
                },
            ),
            ..self
        }
    }

    /// Takes whether a step of the envelope has the tone in it.
    pub fn push(&mut self, present: bool) -> (step: Step)
        requires
            old(self).valid(),
        ensures
            final(self).valid(),
            step == old(self).step(present),
            *final(self) == old(self).after(present),
    {
        self.gap = if present {
            0
        } else if self.gap < GAP_STEPS {
            self.gap + 1
        } else {
            GAP_STEPS
        };
        if self.gap >= GAP_STEPS {
            self.steps = 0;
            self.heard = None;
            return Step::Ended;
        }
        if self.steps < ENVELOPES {
            self.steps += 1;
        }
        if self.steps < ENVELOPES {
            Step::Short
        } else {
            Step::Judged
        }
    }

    /// Takes whether the envelope is modulated at 15 Hz.
    pub fn judge(&mut self, modulated: bool)
        ensures
            *final(self) == old(self).judged(modulated),
    {
        self.heard = Some(
            if modulated {
                AnswerToneKind::Ansam
            } else {
                AnswerToneKind::Ans
            },
        );
    }
}

/// No tone is told of before 400 ms of it, and none through a gap of 25 ms.
pub proof fn law_a_tone_counts_once_it_has_lasted(hearing: Hearing, present: bool)
    requires
        hearing.valid(),
    ensures
        hearing.step(present) is Judged ==> hearing.steps + 1 >= ENVELOPES,
        !present && hearing.gap + 1 >= GAP_STEPS ==> hearing.step(present) is Ended,
{
}

pub open spec fn spec_reverses(sent: int) -> bool {
    sent > 0 && sent % REVERSAL_SAMPLES as int == 0
}

/// Whether the tone with reversals turns its phase before sample `sent`.
#[must_use]
pub fn reverses(sent: usize) -> (reverses: bool)
    ensures
        reverses == spec_reverses(sent as int),
{
    sent > 0 && sent % REVERSAL_SAMPLES == 0
}

/// A tone is judged by its last 400 ms, in steps of 5 ms, and ends with a gap
/// of 25 ms. Modulated at 15 Hz it is ANSam, and else ANS, which turns its
/// phase every 450 ms.
pub proof fn law_a_tone_is_judged_by_400_ms(hearing: Hearing, present: bool, sent: int)
    requires
        hearing.valid(),
    ensures
        present || hearing.gap < 4 ==> {
            &&& hearing.steps < 79 ==> hearing.step(present) == Step::Short
            &&& hearing.steps >= 79 ==> hearing.step(present) == Step::Judged
            &&& hearing.steps < 80 ==> hearing.after(present).steps == hearing.steps + 1
            &&& hearing.steps == 80 ==> hearing.after(present).steps == 80
            &&& hearing.after(present).heard == hearing.heard
        },
        present ==> hearing.after(present).gap == 0,
        !present && hearing.gap < 4 ==> hearing.after(present).gap == hearing.gap + 1,
        !present && hearing.gap >= 4 ==> hearing.step(present) == Step::Ended && hearing.after(present).steps == 0
            && hearing.after(present).heard is None,
        hearing.judged(true).heard == Some(AnswerToneKind::Ansam),
        hearing.judged(false).heard == Some(AnswerToneKind::Ans),
        hearing.judged(present).steps == hearing.steps && hearing.judged(present).gap == hearing.gap,
        1000 * STEP == 5 * 8000,
        0 < sent <= 3600 ==> (spec_reverses(sent) <==> 1000 * sent == 450 * 8000),
        sent > 0 ==> spec_reverses(sent + 3600) == spec_reverses(sent),
        !spec_reverses(0),
{
    if sent > 0 {
        vstd::arithmetic::div_mod::lemma_mod_add_multiples_vanish(sent, 3600);
    }
}

} // verus!

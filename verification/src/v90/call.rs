//! What a V.90 modem keeps of the call from phase 3 on: whether it has been
//! connected, and how long the far end has asked for a retrain.

use vstd::prelude::*;

verus! {

/// § 9.5.1.2 and § 9.5.2.2: the far tone for more than 50 ms in data mode
/// starts a retrain.
pub const RETRAIN_TONE: usize = 400;

/// One call.
#[derive(Debug, Clone, Copy, PartialEq, Eq, Structural)]
pub struct Call {
    /// Connected once, and still in the call through renegotiations and
    /// retrains.
    pub online: bool,
    /// How long the far tone has lasted, as far as that counts.
    pub tone_heard: usize,
}

impl Default for Call {
    fn default() -> (call: Self)
        ensures
            call == (Self { online: false, tone_heard: 0 }),
    {
        Self { online: false, tone_heard: 0 }
    }
}

impl Call {
    pub open spec fn valid(self) -> bool {
        self.tone_heard <= RETRAIN_TONE + 1
    }

    /// The two ends may have connected.
    pub fn heard(&mut self, connected: bool)
        ensures
            *final(self) == (Self { online: old(self).online || connected, ..*old(self) }),
    {
        self.online = self.online || connected;
    }

    /// Whether to report the carrier: through renegotiations and retrains,
    /// until a cleardown.
    #[must_use]
    pub fn carrier(&self, cleared: bool) -> (carrier: bool)
        ensures
            carrier == (self.online && !cleared),
    {
        self.online && !cleared
    }

    pub open spec fn tone_after(self, in_data: bool, present: bool, length: int) -> int {
        if !in_data || !present {
            0
        } else if self.tone_heard + length <= RETRAIN_TONE {
            self.tone_heard + length
        } else {
            RETRAIN_TONE + 1
        }
    }

    /// The far tone has been there, or not, for `length` samples. Tells
    /// whether the far end retrains.
    pub fn hear_tone(&mut self, in_data: bool, present: bool, length: usize) -> (retrains: bool)
        requires
            old(self).valid(),
        ensures
            final(self).valid(),
            *final(self) == (Self {
                tone_heard: old(self).tone_after(in_data, present, length as int) as usize,
                ..*old(self)
            }),
            retrains == (old(self).tone_after(in_data, present, length as int) > RETRAIN_TONE),
    {
        self.tone_heard = if !in_data || !present {
            0
        } else if length <= RETRAIN_TONE && self.tone_heard + length <= RETRAIN_TONE {
            self.tone_heard + length
        } else {
            RETRAIN_TONE + 1
        };
        self.tone_heard > RETRAIN_TONE
    }

    /// Phase 2 starts again.
    pub fn retrain(&mut self)
        ensures
            final(self).valid(),
            *final(self) == (Self { tone_heard: 0, ..*old(self) }),
    {
        self.tone_heard = 0;
    }
}

/// A retrain takes the far tone for more than 50 ms without a break, in data
/// mode.
pub proof fn law_a_break_in_the_tone_starts_over(call: Call, in_data: bool, present: bool, length: int)
    requires
        call.valid(),
        0 <= length,
    ensures
        !in_data || !present ==> call.tone_after(in_data, present, length) == 0,
        call.tone_after(in_data, present, length) > RETRAIN_TONE ==> call.tone_heard + length
            > RETRAIN_TONE,
{
}

/// In data mode the far tone is timed, and retrains the call once it has
/// lasted more than 50 ms, 400 samples, whatever the lengths it came in.
pub proof fn law_more_than_50_ms_of_the_far_tone_retrain(call: Call, length: int)
    requires
        call.valid(),
        0 <= length,
    ensures
        call.tone_heard + length > 400 ==> call.tone_after(true, true, length) > 400,
        call.tone_heard + length <= 400 ==> call.tone_after(true, true, length) == call.tone_heard + length,
        call.tone_after(true, false, length) == 0,
        call.tone_after(false, true, length) == 0,
        RETRAIN_TONE == 400,
{
}

} // verus!

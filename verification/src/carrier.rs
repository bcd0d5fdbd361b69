//! Carrier detection: a carrier comes or goes once the level has stayed
//! beyond a threshold for long enough.

use vstd::prelude::*;

verus! {

/// V.21 § 8.3 and table 2, switched network: on in 300 to 700 ms.
pub const V21_ON_SAMPLES: u32 = 3200;

/// V.21 § 8.3 and table 2, switched network: off in 20 to 80 ms.
pub const V21_OFF_SAMPLES: u32 = 400;

/// V.22 and V.22bis § 3.3.
pub const V22_ON_SAMPLES: u32 = 1200;

/// Whether a carrier is present.
#[derive(Debug, Clone, Copy, PartialEq, Eq, Structural)]
pub struct Tracker {
    pub carrier: bool,
    /// The samples in a row that speak against that.
    pub count: u32,
    pub on_samples: u32,
    pub off_samples: u32,
}

impl Tracker {
    pub open spec fn spec_needed(self) -> u32 {
        if self.carrier {
            self.off_samples
        } else {
            self.on_samples
        }
    }

    /// It flips once enough samples have come, so fewer are held.
    pub open spec fn valid(self) -> bool {
        &&& self.on_samples > 0
        &&& self.off_samples > 0
        &&& self.count < self.spec_needed()
    }

    #[must_use]
    pub fn new(on_samples: u32, off_samples: u32) -> (tracker: Self)
        requires
            on_samples > 0,
            off_samples > 0,
        ensures
            tracker.valid(),
            tracker == (Self { carrier: false, count: 0, on_samples, off_samples }),
    {
        Self { carrier: false, count: 0, on_samples, off_samples }
    }

    pub open spec fn after(self, above_on: bool, below_off: bool) -> Self {
        let flipping = if self.carrier {
            below_off
        } else {
            above_on
        };
        if !flipping {
            Self { count: 0, ..self }
        } else if self.count + 1 >= self.spec_needed() {
            Self { carrier: !self.carrier, count: 0, ..self }
        } else {
            Self { count: (self.count + 1) as u32, ..self }
        }
    }

    /// Takes whether the level of a sample is above the threshold for on,
    /// and whether it is below that for off.
    pub fn push(&mut self, above_on: bool, below_off: bool)
        requires
            old(self).valid(),
        ensures
            final(self).valid(),
            *final(self) == old(self).after(above_on, below_off),
    {
        let (flipping, needed) = if self.carrier {
            (below_off, self.off_samples)
        } else {
            (above_on, self.on_samples)
        };
        if !flipping {
            self.count = 0;
            return;
        }
        self.count += 1;
        if self.count >= needed {
            self.carrier = !self.carrier;
            self.count = 0;
        }
    }
}

pub open spec fn tracker_after(tracker: Tracker, levels: Seq<(bool, bool)>) -> Tracker
    decreases levels.len(),
{
    if levels.len() == 0 {
        tracker
    } else {
        tracker_after(tracker, levels.drop_last()).after(levels.last().0, levels.last().1)
    }
}

/// A signal that stays above the threshold for the whole time turns the
/// carrier on with its last sample, and not before.
pub proof fn law_comes_on_after_its_time(tracker: Tracker, levels: Seq<(bool, bool)>)
    requires
        tracker.valid(),
        !tracker.carrier,
        tracker.count == 0,
        levels.len() <= tracker.on_samples,
        forall|i: int| 0 <= i < levels.len() ==> (#[trigger] levels[i]).0,
    ensures
        tracker_after(tracker, levels) == if levels.len() == tracker.on_samples {
            Tracker { carrier: true, ..tracker }
        } else {
            Tracker { count: levels.len() as u32, ..tracker }
        },
    decreases levels.len(),
{
    if levels.len() > 0 {
        let less = levels.drop_last();
        assert forall|i: int| 0 <= i < less.len() implies (#[trigger] less[i]).0 by {
            assert(less[i] == levels[i]);
        }
        law_comes_on_after_its_time(tracker, less);
        assert(levels.last() == levels[levels.len() - 1]);
    }
}

/// A gap shorter than the time for off leaves the carrier on.
pub proof fn law_stays_on_through_a_short_gap(tracker: Tracker, levels: Seq<(bool, bool)>)
    requires
        tracker.valid(),
        tracker.carrier,
        tracker.count == 0,
        levels.len() < tracker.off_samples,
    ensures
        tracker_after(tracker, levels).carrier,
        tracker_after(tracker, levels).count <= levels.len(),
        tracker_after(tracker, levels).on_samples == tracker.on_samples,
        tracker_after(tracker, levels).off_samples == tracker.off_samples,
    decreases levels.len(),
{
    if levels.len() > 0 {
        law_stays_on_through_a_short_gap(tracker, levels.drop_last());
    }
}

/// Off goes on by samples above the one threshold, and on goes off by samples
/// below the other, as many in a row as each takes. Any other sample starts
/// the count over.
pub proof fn law_samples_in_a_row_turn_the_carrier(tracker: Tracker, above_on: bool, below_off: bool)
    requires
        tracker.valid(),
    ensures
        ({
            let next = tracker.after(above_on, below_off);
            &&& !tracker.carrier && !above_on ==> !next.carrier && next.count == 0
            &&& !tracker.carrier && above_on && tracker.count + 1 < tracker.on_samples ==> !next.carrier && next.count
                == tracker.count + 1
            &&& !tracker.carrier && above_on && tracker.count + 1 == tracker.on_samples ==> next.carrier && next.count
                == 0
            &&& tracker.carrier && !below_off ==> next.carrier && next.count == 0
            &&& tracker.carrier && below_off && tracker.count + 1 < tracker.off_samples ==> next.carrier && next.count
                == tracker.count + 1
            &&& tracker.carrier && below_off && tracker.count + 1 == tracker.off_samples ==> !next.carrier
                && next.count == 0
            &&& next.on_samples == tracker.on_samples && next.off_samples == tracker.off_samples
            &&& 1000 * V21_ON_SAMPLES == 400 * 8000 && 1000 * V21_OFF_SAMPLES == 50 * 8000 && 1000 * V22_ON_SAMPLES
                == 150 * 8000
        }),
{
}

} // verus!

//! When an end of V.34 should renegotiate or retrain, from the margin that
//! the equaliser leaves in data mode.

use vstd::prelude::*;

verus! {

/// The margin counts after 2 s of data.
pub const MONITOR_SETTLE: usize = 16_000;

pub const DOWN_AFTER: usize = 8_000;

pub const RETRAIN_AFTER: usize = 4_000;

pub const UP_AFTER: usize = 80_000;

pub const UP_MOST: usize = 2_400_000;

pub const COOLDOWN: usize = 160_000;

#[derive(Debug, Clone, Copy, PartialEq, Eq, Structural)]
pub enum Action {
    Renegotiate,
    Retrain,
}

/// What the margin over what the rate needs allows.
#[derive(Debug, Clone, Copy, PartialEq, Eq, Structural)]
pub struct Margin {
    /// Too little to stay at the rate.
    pub low: bool,
    /// Too little for the decoder to go on.
    pub lost: bool,
    /// Enough for the next rate up.
    pub high: bool,
}

/// When this end should renegotiate or retrain. Times are in samples.
#[derive(Debug, Clone, Copy, PartialEq, Eq, Structural)]
pub struct Monitor {
    /// In data mode, as far as it counts.
    pub in_data: usize,
    pub low: usize,
    pub lost: usize,
    pub high: usize,
    /// Since the last action, as far as it counts.
    pub since_action: usize,
    pub up_after: usize,
    /// The rate that a try at a higher one started from.
    pub up_from: Option<u8>,
}

impl Default for Monitor {
    fn default() -> (monitor: Self)
        ensures
            monitor.valid(),
            monitor == Self::fresh(),
    {
        Self {
            in_data: 0,
            low: 0,
            lost: 0,
            high: 0,
            since_action: COOLDOWN,
            up_after: UP_AFTER,
            up_from: None,
        }
    }
}

pub open spec fn capped(run: int, samples: int, most: int) -> int {
    if run + samples < most {
        run + samples
    } else {
        most
    }
}

/// A run that goes on, or starts anew.
pub open spec fn run_after(run: usize, holds: bool, samples: int) -> int {
    if holds {
        capped(run as int, samples, UP_MOST as int)
    } else {
        0
    }
}

fn cap(run: usize, samples: usize, most: usize) -> (total: usize)
    requires
        run <= most,
    ensures
        total == capped(run as int, samples as int, most as int),
{
    if samples < most - run {
        run + samples
    } else {
        most
    }
}

fn count(run: usize, holds: bool, samples: usize) -> (total: usize)
    requires
        run <= UP_MOST,
    ensures
        total == run_after(run, holds, samples as int),
{
    if holds {
        cap(run, samples, UP_MOST)
    } else {
        0
    }
}

impl Monitor {
    pub open spec fn fresh() -> Self {
        Self {
            in_data: 0,
            low: 0,
            lost: 0,
            high: 0,
            since_action: COOLDOWN,
            up_after: UP_AFTER,
            up_from: None,
        }
    }

    pub open spec fn valid(self) -> bool {
        &&& self.in_data <= MONITOR_SETTLE
        &&& self.low <= UP_MOST
        &&& self.lost <= UP_MOST
        &&& self.high <= UP_MOST
        &&& self.since_action <= COOLDOWN
        &&& UP_AFTER <= self.up_after <= UP_MOST
    }

    /// Out of data mode for so many samples.
    pub open spec fn left(self, samples: int) -> Self {
        Self {
            since_action: capped(self.since_action as int, samples, COOLDOWN as int) as usize,
            in_data: 0,
            low: 0,
            lost: 0,
            high: 0,
            ..self
        }
    }

    /// Out of data mode for `samples`.
    pub fn leave(&mut self, samples: usize)
        requires
            old(self).valid(),
        ensures
            final(self).valid(),
            *final(self) == old(self).left(samples as int),
    {
        self.since_action = cap(self.since_action, samples, COOLDOWN);
        self.in_data = 0;
        self.low = 0;
        self.lost = 0;
        self.high = 0;
    }

    /// A try at a higher rate that failed waits twice as long for the next.
    pub open spec fn judged(self, rate: u8) -> Self {
        match self.up_from {
            Some(from) => if self.in_data == 0 {
                Self {
                    up_from: None,
                    up_after: if rate > from {
                        UP_AFTER
                    } else if 2 * self.up_after < UP_MOST {
                        (2 * self.up_after) as usize
                    } else {
                        UP_MOST
                    },
                    ..self
                }
            } else {
                self
            },
            None => self,
        }
    }

    /// With `samples` more of data.
    pub open spec fn counted(self, margin: Margin, can_rise: bool, samples: int) -> Self {
        let timed = Self {
            since_action: capped(self.since_action as int, samples, COOLDOWN as int) as usize,
            in_data: capped(self.in_data as int, samples, MONITOR_SETTLE as int) as usize,
            ..self
        };
        if timed.in_data < MONITOR_SETTLE {
            timed
        } else {
            Self {
                low: run_after(self.low, margin.low, samples) as usize,
                lost: run_after(self.lost, margin.lost, samples) as usize,
                high: run_after(self.high, margin.high && can_rise, samples) as usize,
                ..timed
            }
        }
    }

    /// What is due.
    pub open spec fn due(self) -> Option<Action> {
        if self.in_data < MONITOR_SETTLE || self.since_action < COOLDOWN {
            None
        } else if self.lost >= RETRAIN_AFTER {
            Some(Action::Retrain)
        } else if self.low >= DOWN_AFTER {
            Some(Action::Renegotiate)
        } else if self.high >= self.up_after {
            Some(Action::Renegotiate)
        } else {
            None
        }
    }

    /// Whether what is due is a try at a higher rate.
    pub open spec fn tries_up(self) -> bool {
        self.due() is Some && self.lost < RETRAIN_AFTER && self.low < DOWN_AFTER
    }

    pub open spec fn watched(self, margin: Margin, rate: u8, can_rise: bool, samples: int) -> Self {
        let counted = self.judged(rate).counted(margin, can_rise, samples);
        if counted.due() is Some {
            Self {
                since_action: 0,
                up_from: if counted.tries_up() {
                    Some(rate)
                } else {
                    counted.up_from
                },
                ..counted
            }
        } else {
            counted
        }
    }

    /// In data mode for `samples` at `rate`.
    pub fn watch(
        &mut self,
        margin: Margin,
        rate: u8,
        can_rise: bool,
        samples: usize,
    ) -> (action: Option<Action>)
        requires
            old(self).valid(),
        ensures
            final(self).valid(),
            *final(self) == old(self).watched(margin, rate, can_rise, samples as int),
            action == old(self).judged(rate).counted(margin, can_rise, samples as int).due(),
    {
        if self.in_data == 0 {
            if let Some(from) = self.up_from {
                self.up_from = None;
                self.up_after = if rate > from {
                    UP_AFTER
                } else if 2 * self.up_after < UP_MOST {
                    2 * self.up_after
                } else {
                    UP_MOST
                };
            }
        }
        self.since_action = cap(self.since_action, samples, COOLDOWN);
        self.in_data = cap(self.in_data, samples, MONITOR_SETTLE);
        if self.in_data < MONITOR_SETTLE {
            return None;
        }
        self.low = count(self.low, margin.low, samples);
        self.lost = count(self.lost, margin.lost, samples);
        self.high = count(self.high, margin.high && can_rise, samples);
        if self.since_action < COOLDOWN {
            return None;
        }
        let action = if self.lost >= RETRAIN_AFTER {
            Action::Retrain
        } else if self.low >= DOWN_AFTER {
            Action::Renegotiate
        } else if self.high >= self.up_after {
            self.up_from = Some(rate);
            Action::Renegotiate
        } else {
            return None;
        };
        self.since_action = 0;
        Some(action)
    }
}

/// Two actions are at least 20 s apart.
pub proof fn law_acts_no_more_than_once_in_20_s(monitor: Monitor)
    requires
        monitor.since_action < COOLDOWN,
    ensures
        monitor.due() is None,
{
}

/// A margin that is neither too low nor high enough to rise leads to
/// nothing.
pub proof fn law_a_good_margin_leads_to_nothing(
    monitor: Monitor,
    margin: Margin,
    can_rise: bool,
    samples: int,
)
    requires
        monitor.valid(),
        samples >= 0,
        !margin.low,
        !margin.lost,
        !margin.high,
    ensures
        monitor.counted(margin, can_rise, samples).due() is None,
{
}

/// A failed try at a higher rate makes the next wait twice as long, up to
/// five minutes, and one that succeeds makes it as short as at first.
pub proof fn law_failed_tries_wait_twice_as_long(monitor: Monitor, from: u8, rate: u8)
    requires
        monitor.valid(),
        monitor.in_data == 0,
        monitor.up_from == Some(from),
    ensures
        rate > from ==> monitor.judged(rate).up_after == UP_AFTER,
        rate <= from ==> monitor.judged(rate).up_after == if 2 * monitor.up_after < UP_MOST {
            2 * monitor.up_after
        } else {
            UP_MOST as int
        },
{
}

/// What a margin leads to, once data has flowed for 2 s and 20 s have gone by
/// since the last action: lost for half a second, a retrain; else low for a
/// second, or high for as long as the next try up waits, a renegotiation; else
/// and before that, nothing.
pub proof fn law_acts_on_the_margin(
    monitor: Monitor,
    margin: Margin,
    rate: u8,
    can_rise: bool,
    samples: int,
)
    requires
        monitor.valid(),
        samples >= 0,
    ensures
        ({
            let action = monitor.judged(rate).counted(margin, can_rise, samples).due();
            let may_act = monitor.in_data + samples >= 2 * 8_000 && monitor.since_action + samples
                >= 20 * 8_000;
            let lost = if margin.lost {
                monitor.lost + samples
            } else {
                0
            };
            let low = if margin.low {
                monitor.low + samples
            } else {
                0
            };
            let high = if margin.high && can_rise {
                monitor.high + samples
            } else {
                0
            };
            let up_after = monitor.judged(rate).up_after;
            &&& !may_act ==> action is None
            &&& may_act && lost >= 4_000 ==> action == Some(Action::Retrain)
            &&& may_act && lost < 4_000 && low >= 8_000 ==> action == Some(Action::Renegotiate)
            &&& may_act && lost < 4_000 && low < 8_000 && high >= up_after && up_after <= 2_400_000
                ==> action == Some(Action::Renegotiate)
            &&& may_act && lost < 4_000 && low < 8_000 && high < up_after ==> action is None
            &&& monitor.up_from is None ==> up_after == monitor.up_after
            &&& up_after >= 10 * 8_000
        }),
{
}

/// Each margin counts on while it lasts and starts over when it ends, the
/// clocks go on, an action sets the clock of actions back, and only a try up
/// is remembered as one.
pub proof fn law_counts_while_a_margin_lasts(
    monitor: Monitor,
    margin: Margin,
    rate: u8,
    can_rise: bool,
    samples: int,
)
    requires
        monitor.valid(),
        monitor.up_from is None,
        0 <= samples <= 2_400_000,
    ensures
        ({
            let after = monitor.watched(margin, rate, can_rise, samples);
            let settled = monitor.in_data + samples >= 16_000;
            let acts = monitor.counted(margin, can_rise, samples).due() is Some;
            &&& settled && !margin.lost ==> after.lost == 0
            &&& settled && !margin.low ==> after.low == 0
            &&& settled && !(margin.high && can_rise) ==> after.high == 0
            &&& settled && margin.lost && monitor.lost + samples <= 2_400_000 ==> after.lost
                == monitor.lost + samples
            &&& settled && margin.low && monitor.low + samples <= 2_400_000 ==> after.low
                == monitor.low + samples
            &&& settled && margin.high && can_rise && monitor.high + samples <= 2_400_000
                ==> after.high == monitor.high + samples
            &&& !settled ==> after.lost == monitor.lost && after.low == monitor.low && after.high
                == monitor.high && after.in_data == monitor.in_data + samples
            &&& settled ==> after.in_data == 16_000
            &&& acts ==> after.since_action == 0
            &&& !acts && monitor.since_action + samples <= 160_000 ==> after.since_action
                == monitor.since_action + samples
            &&& !acts ==> after.up_from is None
            &&& acts && margin.lost && after.lost >= 4_000 ==> after.up_from is None
            &&& acts && after.lost < 4_000 && after.low < 8_000 ==> after.up_from == Some(rate)
        }),
{
}

/// Out of data mode no margin counts, and the 2 s start over.
pub proof fn law_out_of_data_mode_nothing_counts(monitor: Monitor, samples: int)
    requires
        monitor.valid(),
        samples >= 0,
    ensures
        ({
            let left = monitor.left(samples);
            &&& left.in_data == 0 && left.low == 0 && left.lost == 0 && left.high == 0
            &&& left.up_after == monitor.up_after && left.up_from == monitor.up_from
            &&& monitor.since_action + samples <= 160_000 ==> left.since_action
                == monitor.since_action + samples
            &&& monitor.since_action + samples > 160_000 ==> left.since_action == 160_000
        }),
{
}

} // verus!

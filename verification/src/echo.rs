//! Where the echo of what this end sends is looked for and followed: one
//! linear path, a few milliseconds long, some hundreds of milliseconds late,
//! whose delay jumps whenever a gateway's jitter buffer moves.

use vstd::prelude::*;

verus! {

/// How many samples sent and heard are kept.
pub const RING: u64 = 8192;

/// The latest echo, in samples, that is looked for.
pub const MAX_DELAY: usize = 4800;

pub const TAPS: usize = 64;

/// Taps before the peak of the echo.
pub const LEAD: usize = 16;

/// Lags either side of the echo's peak that are watched for a jump.
pub const TRACK: usize = 640;

/// A move of the peak by up to this many samples is left to the taps to
/// follow.
pub const GUARD: usize = 8;

/// The search takes one sample in this many.
pub const SEARCH_STRIDE: u64 = 4;

pub const CHECK: usize = 160;

/// Checks that a jump must hold for.
pub const CONFIRM: u32 = 2;

/// The echo is lost after this many checks without agreement.
pub const LOST: u32 = 100;

/// The latest samples heard that the taps are solved from.
pub const SOLVED: u64 = 1600;

/// How long a sudden residual holds adaptation back, in samples.
pub const HOLD: u32 = 2000;

/// No call lasts this many samples.
pub const CALL_LIMIT: u64 = 0x4000_0000_0000_0000;

pub open spec fn distance(a: int, b: int) -> int {
    if a < b {
        b - a
    } else {
        a - b
    }
}

fn abs_diff(a: usize, b: usize) -> (apart: usize)
    ensures
        apart == distance(a as int, b as int),
{
    if a < b {
        b - a
    } else {
        a - b
    }
}

/// Which samples sent are still kept, and which of them can train the
/// canceller.
#[derive(Debug, Clone, Copy, PartialEq, Eq, Structural)]
pub struct History {
    pub total: u64,
    /// The first sample of the run of broadband ones that goes on to the
    /// newest.
    pub broadband_from: Option<u64>,
}

impl History {
    pub open spec fn valid(self) -> bool {
        &&& self.total <= CALL_LIMIT
        &&& self.broadband_from matches Some(from) ==> from < self.total
    }

    #[must_use]
    pub fn new() -> (history: Self)
        ensures
            history.valid(),
            history == (Self { total: 0, broadband_from: None }),
    {
        Self { total: 0, broadband_from: None }
    }

    /// Where sample `t` is kept, later samples before earlier ones.
    pub open spec fn place(t: u64) -> int {
        RING - 1 - t % RING
    }

    #[must_use]
    pub fn at(t: u64) -> (place: usize)
        ensures
            place == Self::place(t),
            place < RING,
    {
        (RING - 1 - t % RING) as usize
    }

    pub open spec fn pushed(self, broadband: bool) -> Self {
        Self {
            total: (self.total + 1) as u64,
            broadband_from: match (broadband, self.broadband_from) {
                (false, _) => None,
                (true, None) => Some(self.total),
                (true, from) => from,
            },
        }
    }

    /// One more sample sent.
    pub fn push(&mut self, broadband: bool)
        requires
            old(self).valid(),
            old(self).total < CALL_LIMIT,
        ensures
            final(self).valid(),
            *final(self) == old(self).pushed(broadband),
    {
        self.broadband_from = if !broadband {
            None
        } else if self.broadband_from.is_none() {
            Some(self.total)
        } else {
            self.broadband_from
        };
        self.total = self.total + 1;
    }

    /// Whether sample `t` and the `len - 1` before it are all kept.
    pub open spec fn keeps(self, t: int, len: int) -> bool {
        t < self.total && self.total - t + len <= RING && t + 1 >= len
    }

    /// Where sample `t` and the `len - 1` before it start, newest first, if
    /// they are all kept.
    #[must_use]
    pub fn back_from(self, t: u64, len: usize) -> (from: Option<usize>)
        requires
            self.valid(),
            len <= RING,
        ensures
            match from {
                Some(from) => self.keeps(t as int, len as int) && from == Self::place(t),
                None => !self.keeps(t as int, len as int),
            },
    {
        if t < self.total && self.total - t <= RING && self.total - t + len as u64 <= RING && t + 1
            >= len as u64 {
            Some(Self::at(t))
        } else {
            None
        }
    }
}

/// Each sample that is kept lies where `back_from` says, in two rings one
/// after the other.
pub proof fn law_samples_kept_lie_in_a_row(t: u64, back: int)
    requires
        0 <= back < RING,
        back <= t,
    ensures
        ({
            let place = History::place(t) + back;
            let earlier = History::place((t - back) as u64);
            place == earlier || place == earlier + RING
        }),
{
    assert((t - back) % RING as int == if back <= t % RING {
        t % RING - back
    } else {
        t % RING - back + RING
    });
}

/// What a check comes to.
#[derive(Debug, Clone, Copy, PartialEq, Eq, Structural)]
pub enum Verdict {
    /// The taps stay as they are.
    Stays,
    /// An echo at this peak is to be taken up.
    Acquire(usize),
    /// The taps keep their shape at the echo's new delay.
    Moved,
    /// There is no echo any more.
    Lost,
    /// The taps at `delay` are to be solved again from what was heard from
    /// `first` to `last`.
    Solve { delay: usize, first: u64, last: u64 },
}

/// What the samples show at a check.
#[derive(Debug, Clone, Copy, PartialEq, Eq, Structural)]
pub struct Shown {
    /// The strongest lag of the search, if it stands clear and makes up most
    /// of the input.
    pub found: Option<usize>,
    /// A delay far from the current one that what is left matches.
    pub jumped: Option<usize>,
    /// The input agrees with the estimate.
    pub agrees: bool,
    /// The estimate explains the input: the far end is silent.
    pub alone: bool,
}

/// Where the echo is, and what has been seen of it.
#[derive(Debug, Clone, Copy, PartialEq, Eq)]
pub struct Tracker {
    pub heard: u64,
    /// The lag of the first tap, and of the peak the taps were placed at.
    pub delay: Option<usize>,
    pub peak: usize,
    /// The run of broadband samples that the correlation comes from, and the
    /// longest lag it covers.
    pub run: Option<u64>,
    pub reach: usize,
    pub updates: u64,
    pub moved_to: Option<(usize, u32)>,
    pub disagreed: u32,
    pub since_check: usize,
    /// The first sample of the echo heard alone lately, while the far end is
    /// silent.
    pub alone_since: Option<u64>,
    pub held: u32,
}

impl Tracker {
    pub open spec fn valid(self) -> bool {
        &&& self.heard <= CALL_LIMIT
        &&& self.updates <= self.heard
        &&& self.since_check < CHECK
        &&& self.disagreed < LOST
        &&& self.held <= HOLD
        &&& self.reach <= MAX_DELAY
        &&& self.peak <= MAX_DELAY
        &&& self.delay matches Some(delay) ==> delay <= self.peak && self.peak <= delay + LEAD
            && delay + TAPS <= MAX_DELAY + 1
        &&& self.moved_to matches Some((_, checks)) ==> checks < CONFIRM
    }

    pub open spec fn fresh() -> Self {
        Self {
            heard: 0,
            delay: None,
            peak: 0,
            run: None,
            reach: 0,
            updates: 0,
            moved_to: None,
            disagreed: 0,
            since_check: 0,
            alone_since: None,
            held: 0,
        }
    }

    #[must_use]
    pub fn new() -> (tracker: Self)
        ensures
            tracker.valid(),
            tracker == Self::fresh(),
    {
        Self {
            heard: 0,
            delay: None,
            peak: 0,
            run: None,
            reach: 0,
            updates: 0,
            moved_to: None,
            disagreed: 0,
            since_check: 0,
            alone_since: None,
            held: 0,
        }
    }

    /// The delay of the echo's peak in samples, once it is found and
    /// cancelled.
    #[must_use]
    pub fn delay(&self) -> (peak: Option<usize>)
        ensures
            peak == match self.delay {
                Some(_) => Some(self.peak),
                None => None,
            },
    {
        match self.delay {
            Some(_) => Some(self.peak),
            None => None,
        }
    }

    /// With one more sample heard.
    pub open spec fn heard_one(self) -> Self {
        Self {
            heard: (self.heard + 1) as u64,
            since_check: if self.since_check + 1 >= CHECK {
                0
            } else {
                (self.since_check + 1) as usize
            },
            ..self
        }
    }

    /// One more sample heard. Says which, and whether a check is due after
    /// it.
    pub fn hear(&mut self) -> (heard: (u64, bool))
        requires
            old(self).valid(),
            old(self).heard < CALL_LIMIT,
        ensures
            final(self).valid(),
            *final(self) == old(self).heard_one(),
            heard == (old(self).heard, old(self).since_check + 1 >= CHECK),
    {
        let at = self.heard;
        self.heard = at + 1;
        self.since_check = self.since_check + 1;
        let due = self.since_check >= CHECK;
        if due {
            self.since_check = 0;
        }
        (at, due)
    }

    pub open spec fn may_adapt(self, talk: bool) -> bool {
        !talk && self.held == 0
    }

    /// After a sample, on which the residual leaps if `talk`.
    pub open spec fn holding(self, talk: bool) -> Self {
        Self {
            held: if talk {
                (HOLD - 1) as u32
            } else if self.held > 0 {
                (self.held - 1) as u32
            } else {
                0
            },
            ..self
        }
    }

    /// Whether the taps may adapt to a sample, on which the residual leaps
    /// if `talk`: the far end starting to talk holds adaptation back.
    pub fn adapts(&mut self, talk: bool) -> (adapts: bool)
        requires
            old(self).valid(),
        ensures
            final(self).valid(),
            adapts == old(self).may_adapt(talk),
            *final(self) == old(self).holding(talk),
    {
        if talk {
            self.held = HOLD;
        }
        if self.held > 0 {
            self.held = self.held - 1;
            false
        } else {
            true
        }
    }

    pub open spec fn spec_window(self) -> (int, int) {
        match self.delay {
            Some(_) => (
                if self.peak < TRACK {
                    0
                } else {
                    self.peak - TRACK
                },
                if self.peak + TRACK < MAX_DELAY {
                    self.peak + TRACK
                } else {
                    MAX_DELAY as int
                },
            ),
            None => (0, MAX_DELAY as int),
        }
    }

    /// The lags watched: all of them, or those near the echo.
    #[must_use]
    pub fn window(&self) -> (window: (usize, usize))
        requires
            self.valid(),
        ensures
            window.0 == self.spec_window().0,
            window.1 == self.spec_window().1,
            window.0 <= window.1 <= MAX_DELAY,
    {
        match self.delay {
            Some(_) => (
                if self.peak < TRACK {
                    0
                } else {
                    self.peak - TRACK
                },
                if self.peak + TRACK < MAX_DELAY {
                    self.peak + TRACK
                } else {
                    MAX_DELAY
                },
            ),
            None => (0, MAX_DELAY),
        }
    }

    /// The lags that sample `at` is correlated over.
    pub open spec fn lags(self, at: u64, history: History, from: u64) -> (int, int) {
        let (low, high) = self.spec_window();
        let unsent = if at + 1 > history.total {
            at + 1 - history.total
        } else {
            0
        };
        (
            if low < unsent {
                unsent
            } else {
                low
            },
            if high < at - from {
                high
            } else {
                at - from
            },
        )
    }

    /// Whether sample `at` is correlated at all, and from which run.
    pub open spec fn correlates(self, at: u64, search: bool, history: History) -> Option<u64> {
        match history.broadband_from {
            Some(from) if from <= at && (self.delay is Some || search && at % SEARCH_STRIDE == 0) =>
            Some(from),
            _ => None,
        }
    }

    /// Which lags to correlate sample `at` over, with whether the correlation
    /// starts anew.
    pub fn correlate(&mut self, at: u64, search: bool, history: &History) -> (lags: (
        bool,
        Option<(usize, usize)>,
    ))
        requires
            old(self).valid(),
            history.valid(),
            at < old(self).heard,
            old(self).updates < old(self).heard,
        ensures
            final(self).valid(),
            match old(self).correlates(at, search, *history) {
                None => *final(self) == *old(self) && lags == (false, None::<(usize, usize)>),
                Some(from) => {
                    let (low, high) = old(self).lags(at, *history, from);
                    let anew = old(self).run != Some(from);
                    let started: int = if anew {
                        0
                    } else {
                        old(self).updates as int
                    };
                    let kept = low <= high && at >= low && history.keeps(at - low, high - low + 1);
                    &&& lags.0 == anew
                    &&& match lags.1 {
                        Some((l, h)) => kept && l == low && h == high,
                        None => !kept,
                    }
                    &&& *final(self) == (Self {
                        run: Some(from),
                        reach: high as usize,
                        updates: (started + if kept {
                            1int
                        } else {
                            0
                        }) as u64,
                        ..*old(self)
                    })
                },
            },
    {
        if self.delay.is_none() && !(search && at % SEARCH_STRIDE == 0) {
            return (false, None);
        }
        let from = match history.broadband_from {
            Some(from) => from,
            None => {
                return (false, None);
            },
        };
        if from > at {
            return (false, None);
        }
        let anew = match self.run {
            Some(run) => run != from,
            None => true,
        };
        if anew {
            self.run = Some(from);
            self.updates = 0;
        }
        let (low, high) = self.window();
        let unsent: u64 = if at + 1 > history.total {
            at + 1 - history.total
        } else {
            0
        };
        let high: usize = if (high as u64) < at - from {
            high
        } else {
            (at - from) as usize
        };
        self.reach = high;
        let low: u64 = if (low as u64) < unsent {
            unsent
        } else {
            low as u64
        };
        if low > high as u64 {
            return (anew, None);
        }
        let low: usize = low as usize;
        match history.back_from(at - low as u64, high - low + 1) {
            Some(_) => {
                self.updates = self.updates + 1;
                (anew, Some((low, high)))
            },
            None => (anew, None),
        }
    }

    /// The delays that a jump is looked for at, the last of which leaves room
    /// for the taps.
    #[must_use]
    pub fn jump_range(&self) -> (range: Option<(usize, usize)>)
        requires
            self.valid(),
        ensures
            ({
                let (low, high) = self.spec_window();
                let last = (if high < self.reach {
                    high
                } else {
                    self.reach as int
                }) + 1 - TAPS;
                match range {
                    Some((l, h)) => self.delay is Some && l == low && h == last && low <= last,
                    None => self.delay is None || last < low,
                }
            }),
    {
        if self.delay.is_none() {
            return None;
        }
        let (low, high) = self.window();
        let end: usize = if high < self.reach {
            high
        } else {
            self.reach
        };
        if end + 1 >= TAPS && end + 1 - TAPS >= low {
            Some((low, end + 1 - TAPS))
        } else {
            None
        }
    }

    /// Whether the delay `at` is far enough from the current one to be a
    /// jump.
    #[must_use]
    pub fn is_far(&self, at: usize) -> (far: bool)
        ensures
            far == (self.delay matches Some(delay) && distance(at as int, delay as int) > GUARD),
    {
        match self.delay {
            Some(delay) => abs_diff(at, delay) > GUARD,
            None => false,
        }
    }

    /// With its correlation from the start.
    pub open spec fn restarted(self) -> Self {
        Self { updates: 0, moved_to: None, disagreed: 0, ..self }
    }

    /// Without an echo.
    pub open spec fn lost(self) -> Self {
        Self { delay: None, ..self.restarted() }
    }

    /// The checks in a row that the jump has held for.
    pub open spec fn confirmed(self, at: usize) -> int {
        match self.moved_to {
            Some((to, checks)) if distance(to as int, at as int) <= GUARD => checks + 1,
            _ => 1,
        }
    }

    /// With the echo's taps at the delay `at`.
    pub open spec fn moved(self, at: usize) -> Self {
        match self.delay {
            Some(old) if at + TAPS <= MAX_DELAY + 1 => Self {
                delay: Some(at),
                peak: (at + (self.peak - old)) as usize,
                ..self.restarted()
            },
            _ => self.lost(),
        }
    }

    pub open spec fn disagreements(self, agrees: bool) -> int {
        if agrees {
            0
        } else {
            self.disagreed + 1
        }
    }

    /// Once it is clear that the echo stays where it is.
    pub open spec fn stays(self, search: bool, shown: Shown) -> (Self, Verdict) {
        let moved_to = match shown.jumped {
            Some(at) => Some((at, self.confirmed(at) as u32)),
            None => None,
        };
        let settled = (if self.heard < CHECK {
            0
        } else {
            self.heard - CHECK
        }) as u64;
        let next = Self {
            moved_to,
            disagreed: self.disagreements(shown.agrees) as u32,
            ..self
        };
        if !(search && shown.alone) {
            (Self { alone_since: None, ..next }, Verdict::Stays)
        } else {
            match self.alone_since {
                Some(since) => (
                    next,
                    Verdict::Solve { delay: self.delay->0, first: since, last: settled },
                ),
                None => (Self { alone_since: Some(settled), ..next }, Verdict::Stays),
            }
        }
    }

    /// After a check, and what it comes to.
    pub open spec fn checked(self, search: bool, shown: Shown) -> (Self, Verdict) {
        if self.delay is None {
            match shown.found {
                Some(peak) if search => (self, Verdict::Acquire(peak)),
                _ => (self, Verdict::Stays),
            }
        } else if shown.jumped is Some && self.confirmed(shown.jumped->0) >= CONFIRM {
            let next = self.moved(shown.jumped->0);
            (
                next,
                if next.delay is Some {
                    Verdict::Moved
                } else {
                    Verdict::Lost
                },
            )
        } else if self.disagreements(shown.agrees) >= LOST {
            (self.lost(), Verdict::Lost)
        } else {
            self.stays(search, shown)
        }
    }

    fn restart_tracking(&mut self)
        requires
            old(self).valid(),
        ensures
            final(self).valid(),
            *final(self) == old(self).restarted(),
    {
        self.updates = 0;
        self.moved_to = None;
        self.disagreed = 0;
    }

    fn lose(&mut self)
        requires
            old(self).valid(),
        ensures
            final(self).valid(),
            *final(self) == old(self).lost(),
    {
        self.delay = None;
        self.restart_tracking();
    }

    /// The taps keep their shape at the echo's new delay.
    fn move_to(&mut self, at: usize) -> (verdict: Verdict)
        requires
            old(self).valid(),
            at <= MAX_DELAY,
        ensures
            final(self).valid(),
            *final(self) == old(self).moved(at),
            verdict == if final(self).delay is Some {
                Verdict::Moved
            } else {
                Verdict::Lost
            },
    {
        match self.delay {
            Some(old) if at + TAPS <= MAX_DELAY + 1 => {
                self.peak = at + (self.peak - old);
                self.delay = Some(at);
                self.restart_tracking();
                Verdict::Moved
            },
            _ => {
                self.lose();
                Verdict::Lost
            },
        }
    }

    /// Every so often: whether the echo is found, has moved, or is lost.
    pub fn check(&mut self, search: bool, shown: Shown) -> (verdict: Verdict)
        requires
            old(self).valid(),
            shown.jumped matches Some(at) ==> at <= MAX_DELAY,
        ensures
            final(self).valid(),
            (*final(self), verdict) == old(self).checked(search, shown),
    {
        if self.delay.is_none() {
            return match shown.found {
                Some(peak) if search => Verdict::Acquire(peak),
                _ => Verdict::Stays,
            };
        }
        let moved_to = match shown.jumped {
            Some(at) => {
                let checks: u32 = match self.moved_to {
                    Some((to, checks)) if abs_diff(to, at) <= GUARD => checks + 1,
                    _ => 1,
                };
                if checks >= CONFIRM {
                    return self.move_to(at);
                }
                Some((at, checks))
            },
            None => None,
        };
        let disagreed: u32 = if shown.agrees {
            0
        } else {
            self.disagreed + 1
        };
        if disagreed >= LOST {
            self.lose();
            return Verdict::Lost;
        }
        self.moved_to = moved_to;
        self.disagreed = disagreed;
        let settled: u64 = if self.heard < CHECK as u64 {
            0
        } else {
            self.heard - CHECK as u64
        };
        if !(search && shown.alone) {
            self.alone_since = None;
            return Verdict::Stays;
        }
        match (self.alone_since, self.delay) {
            (Some(first), Some(delay)) => Verdict::Solve { delay, first, last: settled },
            _ => {
                self.alone_since = Some(settled);
                Verdict::Stays
            },
        }
    }

    pub open spec fn first_tap(peak: usize) -> int {
        if peak < LEAD {
            0
        } else {
            peak - LEAD
        }
    }

    /// From where the taps of an echo at `peak` can be solved: its delay and
    /// the first sample heard of the run of broadband ones.
    #[must_use]
    pub fn acquires(peak: usize, history: &History) -> (at: Option<(usize, u64)>)
        requires
            history.valid(),
            peak <= MAX_DELAY,
        ensures
            match (at, history.broadband_from) {
                (Some((delay, first)), Some(from)) => delay == Self::first_tap(peak) && first
                    == from + delay + TAPS,
                (None, None) => true,
                _ => false,
            },
    {
        let delay: usize = if peak < LEAD {
            0
        } else {
            peak - LEAD
        };
        match history.broadband_from {
            Some(from) => Some((delay, from + (delay + TAPS) as u64)),
            None => None,
        }
    }

    /// The echo at `peak` has been taken up, from `first` on.
    pub fn acquired(&mut self, peak: usize, first: u64)
        requires
            old(self).valid(),
            peak <= MAX_DELAY,
            Self::first_tap(peak) + TAPS <= MAX_DELAY + 1,
        ensures
            final(self).valid(),
            *final(self) == (Self {
                delay: Some(Self::first_tap(peak) as usize),
                peak,
                alone_since: Some(first),
                ..old(self).restarted()
            }),
    {
        self.delay = Some(
            if peak < LEAD {
                0
            } else {
                peak - LEAD
            },
        );
        self.peak = peak;
        self.restart_tracking();
        self.alone_since = Some(first);
    }
}

pub open spec fn later(a: int, b: int) -> int {
    if a < b {
        b
    } else {
        a
    }
}

/// From which sample heard the taps at `delay` are solved.
pub open spec fn solved_from(delay: int, first: int, last: int, from: int) -> int {
    later(later(first, from + delay + TAPS), last - SOLVED)
}

/// The samples heard from which the taps at `delay` are solved: from `first`
/// to before `last`, as far as broadband samples reach them and they are
/// recent, if that is enough of them.
#[must_use]
pub fn solves(delay: usize, first: u64, last: u64, history: &History) -> (samples: Option<
    (u64, u64),
>)
    requires
        history.valid(),
        last <= CALL_LIMIT,
        first <= CALL_LIMIT,
    ensures
        ({
            let can = delay + TAPS <= MAX_DELAY + 1 && history.broadband_from is Some && last
                >= solved_from(
                delay as int,
                first as int,
                last as int,
                history.broadband_from->0 as int,
            ) + 4 * TAPS;
            match samples {
                Some((begin, end)) => can && end == last && begin == solved_from(
                    delay as int,
                    first as int,
                    last as int,
                    history.broadband_from->0 as int,
                ),
                None => !can,
            }
        }),
{
    if delay > MAX_DELAY + 1 - TAPS {
        return None;
    }
    let sent: u64 = match history.broadband_from {
        Some(from) => from + (delay + TAPS) as u64,
        None => {
            return None;
        },
    };
    let recent: u64 = if last < SOLVED {
        0
    } else {
        last - SOLVED
    };
    let mut begin: u64 = if first < sent {
        sent
    } else {
        first
    };
    if begin < recent {
        begin = recent;
    }
    if last < begin + 4 * TAPS as u64 {
        return None;
    }
    Some((begin, last))
}

/// The echo is taken to have moved only once two checks in a row find it at
/// nearly the same new delay, and its peak keeps its place among the taps.
pub proof fn law_a_jump_must_hold(tracker: Tracker, search: bool, shown: Shown)
    requires
        tracker.valid(),
        tracker.delay is Some,
        shown.jumped matches Some(at) ==> at <= MAX_DELAY,
    ensures
        ({
            let (next, verdict) = tracker.checked(search, shown);
            verdict is Moved ==> {
                &&& shown.jumped is Some
                &&& tracker.moved_to matches Some((to, _)) && distance(
                    to as int,
                    shown.jumped->0 as int,
                ) <= GUARD
                &&& next.delay == shown.jumped
                &&& next.peak - next.delay->0 == tracker.peak - tracker.delay->0
            }
        }),
{
}

/// An echo that the input agrees with and that does not jump is never lost.
pub proof fn law_an_echo_that_agrees_stays(tracker: Tracker, search: bool, shown: Shown)
    requires
        tracker.valid(),
        tracker.delay is Some,
        shown.agrees,
        shown.jumped is None,
    ensures
        tracker.checked(search, shown).0.delay == tracker.delay,
        tracker.checked(search, shown).0.peak == tracker.peak,
        tracker.checked(search, shown).0.disagreed == 0,
{
}

/// Without a search, a line on which no echo was found stays as it is.
pub proof fn law_leaves_a_line_without_echo_as_it_is(tracker: Tracker, search: bool, shown: Shown)
    requires
        tracker.delay is None,
        !search || shown.found is None,
    ensures
        tracker.checked(search, shown) == (tracker, Verdict::Stays),
{
}

/// Samples sent are counted, and the run of broadband ones begins with the
/// first after one that is not. Of the last 8192 all are kept.
pub proof fn law_a_run_begins_after_a_break(history: History, broadband: bool, t: int, len: int)
    requires
        history.valid(),
        history.total < CALL_LIMIT,
    ensures
        history.pushed(broadband).total == history.total + 1,
        history.pushed(false).broadband_from is None,
        history.broadband_from is None ==> history.pushed(true).broadband_from == Some(history.total),
        history.broadband_from is Some ==> history.pushed(true).broadband_from == history.broadband_from,
        history.keeps(t, len) <==> t < history.total && t - (len - 1) >= 0 && t - (len - 1) > history.total - 8192,
{
}

/// A check is due every 20 ms, 160 samples. A leap of the residual holds the
/// taps back for 250 ms, 2000 samples of which it is the first.
pub proof fn law_checks_and_holds_keep_their_times(tracker: Tracker, talk: bool)
    requires
        tracker.valid(),
        tracker.heard < CALL_LIMIT,
    ensures
        tracker.heard_one().heard == tracker.heard + 1,
        tracker.since_check < 159 ==> tracker.heard_one().since_check == tracker.since_check + 1,
        tracker.since_check == 159 ==> tracker.heard_one().since_check == 0,
        !tracker.may_adapt(true) && tracker.holding(true).held == 1999,
        tracker.held > 0 ==> !tracker.may_adapt(talk) && tracker.holding(false).held == tracker.held - 1,
        tracker.held == 0 ==> tracker.may_adapt(false) && tracker.holding(false).held == 0,
        1000 * 160 == 20 * 8000 && 1000 * 2000 == 250 * 8000,
{
}

/// Without an echo all lags up to 600 ms are watched, and with one those
/// within 80 ms of its peak. Samples are correlated at lags that were sent,
/// in the broadband run, and of a search only every fourth.
pub proof fn law_which_lags_are_watched(tracker: Tracker, at: u64, search: bool, history: History, from: u64)
    requires
        tracker.valid(),
    ensures
        tracker.delay is None ==> tracker.spec_window() == (0int, 4800int),
        tracker.delay is Some && 640 <= tracker.peak <= 4160 ==> tracker.spec_window() == (
            tracker.peak - 640,
            tracker.peak + 640,
        ),
        tracker.delay is Some && tracker.peak < 640 ==> tracker.spec_window() == (0int, tracker.peak + 640),
        tracker.delay is Some && tracker.peak > 4160 ==> tracker.spec_window() == (tracker.peak - 640, 4800int),
        ({
            let (low, high) = tracker.spec_window();
            let (first, last) = tracker.lags(at, history, from);
            &&& first >= low && first >= at + 1 - history.total && (first == low || first == at + 1 - history.total)
            &&& last <= high && last <= at - from && (last == high || last == at - from)
        }),
        tracker.correlates(at, search, history) == (if history.broadband_from is Some && history.broadband_from->0 <= at
            && (tracker.delay is Some || search && at % 4 == 0) {
            history.broadband_from
        } else {
            None
        }),
{
}

/// What a check comes to. With no echo, a search takes up one that is found.
/// One that has moved to nearly the same place, within 8 samples, at two
/// checks in a row is moved, and one that disagrees for 100 checks, 2 s, is
/// lost. The echo heard alone is solved from when that began.
pub proof fn law_what_a_check_comes_to(tracker: Tracker, search: bool, shown: Shown)
    requires
        tracker.valid(),
        shown.jumped is Some ==> shown.jumped->0 <= MAX_DELAY,
        tracker.disagreed < u32::MAX,
    ensures
        ({
            let (next, verdict) = tracker.checked(search, shown);
            let there = tracker.delay is Some;
            let moves = shown.jumped is Some && tracker.moved_to is Some && distance(
                (tracker.moved_to->0).0 as int,
                shown.jumped->0 as int,
            ) <= 8 && (tracker.moved_to->0).1 >= 1;
            let lost = !shown.agrees && tracker.disagreed >= 99;
            &&& !there && search && shown.found is Some ==> verdict == Verdict::Acquire(shown.found->0) && next
                == tracker
            &&& !there && !(search && shown.found is Some) ==> verdict == Verdict::Stays && next == tracker
            &&& there && moves && shown.jumped->0 + 64 <= 4801 ==> verdict == Verdict::Moved && next.delay
                == shown.jumped && next.peak - next.delay->0 == tracker.peak - tracker.delay->0 && next.updates == 0
                && next.disagreed == 0 && next.moved_to is None
            &&& there && moves && shown.jumped->0 + 64 > 4801 ==> verdict == Verdict::Lost && next.delay is None
            &&& there && !moves && lost ==> verdict == Verdict::Lost && next.delay is None && next.updates == 0
            &&& there && !moves && !lost ==> {
                &&& next.delay == tracker.delay && next.peak == tracker.peak
                &&& shown.agrees ==> next.disagreed == 0
                &&& !shown.agrees ==> next.disagreed == tracker.disagreed + 1
                &&& shown.jumped is None ==> next.moved_to is None
                &&& shown.jumped is Some ==> next.moved_to is Some && (next.moved_to->0).0 == shown.jumped->0
                &&& !(search && shown.alone) ==> verdict == Verdict::Stays && next.alone_since is None
                &&& search && shown.alone && tracker.alone_since is None && tracker.heard >= 160 ==> verdict
                    == Verdict::Stays && next.alone_since == Some((tracker.heard - 160) as u64)
                &&& search && shown.alone && tracker.alone_since is Some && tracker.heard >= 160 ==> verdict
                    == (Verdict::Solve {
                    delay: tracker.delay->0,
                    first: tracker.alone_since->0,
                    last: (tracker.heard - 160) as u64,
                }) && next.alone_since == tracker.alone_since
            }
        }),
{
}

/// The first tap is 16 samples before the peak, where there are that many.
/// Taps are solved from samples that the broadband run reaches through all 64
/// of them, none before those asked for, and of the last 200 ms.
pub proof fn law_where_taps_are_solved_from(peak: usize, delay: int, first: int, last: int, from: int)
    ensures
        peak >= 16 ==> Tracker::first_tap(peak) == peak - 16,
        peak < 16 ==> Tracker::first_tap(peak) == 0,
        ({
            let begin = solved_from(delay, first, last, from);
            &&& begin >= first && begin >= from + delay + 64 && begin >= last - 1600
            &&& begin == first || begin == from + delay + 64 || begin == last - 1600
        }),
{
}

} // verus!

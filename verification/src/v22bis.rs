//! V.22bis: 2400 bit/s QAM, full duplex on the V.22 channels, with the
//! handshake of its § 6.3.1 that falls back to V.22, the retrain of § 6.4 and
//! the rate change of § 6.6.

use crate::dpsk::{quarter_turns, table_1};
use crate::pump::{Role, CLOCK_LIMIT};
use crate::qam::Rate;
use crate::scrambler::{Descrambler, Polynomial, Scrambler, Scrambling};
use crate::v22::{Run, SETTLE_SAMPLES, USB1_BITS, WAIT_SAMPLES};
use std::collections::VecDeque;
use vstd::prelude::*;

verus! {

pub const S1_SAMPLES: usize = 800;

pub const S1_SYMBOLS: u32 = 20;

pub const DECIDE_SAMPLES: usize = 3600;

pub const CHANGE_SAMPLES: usize = 4800;

pub const READY_SAMPLES: usize = 1600;

pub const READY_ONES: usize = 32;

pub const RATE_DIBITS: u32 = 32;

/// § 6.4: repeat a retrain unanswered within the longest two-way delay.
pub const REPEAT_SAMPLES: usize = 9600;

pub const REPLY_SAMPLES: usize = 8000;

pub const LOST_SAMPLES: usize = 2400;

pub const STEP_DOWN_SAMPLES: usize = 80_000;

/// Two bits of a symbol, the first the one sent first.
#[derive(Debug, Clone, Copy, PartialEq, Eq, Structural)]
pub struct Dibit {
    pub first: bool,
    pub second: bool,
}

impl Dibit {
    /// Table 4: the dibit after S1 that names 2400 bit/s.
    pub open spec fn spec_fast() -> Self {
        Self { first: true, second: true }
    }

    /// Table 4: the dibit after S1 that names 1200 bit/s.
    pub open spec fn spec_slow() -> Self {
        Self { first: false, second: true }
    }

    pub open spec fn spec_naming(rate: Rate) -> Self {
        match rate {
            Rate::Bps2400 => Self::spec_fast(),
            Rate::Bps1200 => Self::spec_slow(),
        }
    }

    /// Table 4: the dibit after S1 that names the rate.
    #[must_use]
    pub fn naming(rate: Rate) -> (dibit: Self)
        ensures
            dibit == Self::spec_naming(rate),
    {
        match rate {
            Rate::Bps2400 => Self { first: true, second: true },
            Rate::Bps1200 => Self { first: false, second: true },
        }
    }

    pub open spec fn spec_rate(self) -> Rate {
        if self == Self::spec_fast() {
            Rate::Bps2400
        } else {
            Rate::Bps1200
        }
    }

    /// The rate that the dibit names, 1200 bit/s for any other.
    #[must_use]
    pub fn rate(self) -> (rate: Rate)
        ensures
            rate == self.spec_rate(),
    {
        if self.first && self.second {
            Rate::Bps2400
        } else {
            Rate::Bps1200
        }
    }
}

/// The dibits of the two rates tell them apart.
pub proof fn law_dibits_name_their_rates(rate: Rate)
    ensures
        Dibit::spec_naming(rate).spec_rate() == rate,
{
}

/// Hears S1, which turns the phase by a quarter one way, then the other.
#[derive(Debug, Clone, Copy, PartialEq, Eq, Structural)]
pub struct S1Detector {
    /// The symbols of S1 in a row, as far as they count.
    pub run: u32,
    pub last: Option<u8>,
    pub heard: bool,
}

impl Default for S1Detector {
    fn default() -> (detector: Self)
        ensures
            detector == Self::fresh(),
    {
        Self { run: 0, last: None, heard: false }
    }
}

impl S1Detector {
    pub open spec fn fresh() -> Self {
        Self { run: 0, last: None, heard: false }
    }

    pub open spec fn valid(self) -> bool {
        self.run <= S1_SYMBOLS
    }

    pub open spec fn run_after(self, turns: u8) -> int {
        if turns != 1 && turns != 3 {
            0
        } else if self.last is Some && self.last != Some(turns) {
            if self.run < S1_SYMBOLS {
                self.run + 1
            } else {
                S1_SYMBOLS as int
            }
        } else {
            1
        }
    }

    /// S1 has been heard, and ends with a symbol that breaks it.
    pub open spec fn ends(self, turns: u8) -> bool {
        (self.heard || self.run_after(turns) >= S1_SYMBOLS) && self.run_after(turns) < 2
    }

    pub open spec fn after(self, turns: u8) -> Self {
        Self {
            run: self.run_after(turns) as u32,
            last: Some(turns),
            heard: (self.heard || self.run_after(turns) >= S1_SYMBOLS) && !self.ends(turns),
        }
    }

    /// Takes one symbol's quadrant change and tells whether S1 just ended.
    pub fn push(&mut self, turns: u8) -> (ended: bool)
        requires
            old(self).valid(),
        ensures
            final(self).valid(),
            *final(self) == old(self).after(turns),
            ended == old(self).ends(turns),
    {
        let fits = turns == 1 || turns == 3;
        let alternates = match self.last {
            Some(last) => last != turns,
            None => false,
        };
        self.run = if !fits {
            0
        } else if !alternates {
            1
        } else if self.run < S1_SYMBOLS {
            self.run + 1
        } else {
            S1_SYMBOLS
        };
        self.last = Some(turns);
        if self.run >= S1_SYMBOLS {
            self.heard = true;
        }
        let ended = self.heard && self.run < 2;
        if ended {
            self.heard = false;
        }
        ended
    }
}

pub open spec fn detector_after(detector: S1Detector, turns: Seq<u8>) -> S1Detector
    decreases turns.len(),
{
    if turns.len() == 0 {
        detector
    } else {
        detector_after(detector, turns.drop_last()).after(turns.last())
    }
}

/// S1: a quarter turn one way and the other in turn.
pub open spec fn s1_turns(count: nat, first: u8) -> Seq<u8> {
    Seq::new(
        count,
        |i: int|
            if i % 2 == 0 {
                first
            } else {
                (4 - first) as u8
            },
    )
}

proof fn lemma_s1(detector: S1Detector, count: nat, first: u8)
    requires
        detector.valid(),
        first == 1 || first == 3,
        count >= 1,
    ensures
        ({
            let after = detector_after(detector, s1_turns(count, first));
            &&& after.valid()
            &&& after.last == Some(s1_turns(count, first).last())
            &&& after.run >= if count < S1_SYMBOLS {
                count
            } else {
                S1_SYMBOLS as nat
            }
            &&& after.heard || after.run < S1_SYMBOLS
        }),
    decreases count,
{
    let turns = s1_turns(count, first);
    let less = s1_turns((count - 1) as nat, first);
    assert(turns.drop_last() =~= less);
    if count > 1 {
        lemma_s1(detector, (count - 1) as nat, first);
        assert(less.last() != turns.last());
    } else {
        assert(less =~= Seq::<u8>::empty());
    }
}

/// Twenty symbols of S1 count as S1, which ends with the first symbol that
/// is not a quarter turn.
pub proof fn law_recognises_s1_and_its_end(
    detector: S1Detector,
    count: nat,
    first: u8,
    turns: u8,
)
    requires
        detector.valid(),
        first == 1 || first == 3,
        count >= S1_SYMBOLS,
        turns != 1,
        turns != 3,
    ensures
        detector_after(detector, s1_turns(count, first)).heard,
        detector_after(detector, s1_turns(count, first)).ends(turns),
        !detector_after(detector, s1_turns(count, first)).after(turns).heard,
{
    lemma_s1(detector, count, first);
}

proof fn lemma_steady(turns: Seq<u8>)
    requires
        forall|i: int| 0 <= i < turns.len() ==> #[trigger] turns[i] == turns[0],
    ensures
        ({
            let after = detector_after(S1Detector::fresh(), turns);
            &&& after.run <= 1
            &&& !after.heard
            &&& turns.len() > 0 ==> after.last == Some(turns[0])
            &&& turns.len() == 0 ==> after == S1Detector::fresh()
        }),
    decreases turns.len(),
{
    if turns.len() > 0 {
        let less = turns.drop_last();
        assert forall|i: int| 0 <= i < less.len() implies #[trigger] less[i] == less[0] by {
            assert(turns[i] == turns[0]);
            assert(turns[0] == less[0]);
        }
        lemma_steady(less);
        assert(turns.last() == turns[turns.len() - 1]);
    }
}

/// A signal that turns the phase the same way with each symbol, as
/// unscrambled ones do, is not S1.
pub proof fn law_unscrambled_ones_are_not_s1(turns: Seq<u8>, next: u8)
    requires
        forall|i: int| 0 <= i < turns.len() ==> #[trigger] turns[i] == turns[0],
    ensures
        !detector_after(S1Detector::fresh(), turns).heard,
        !detector_after(S1Detector::fresh(), turns).ends(next),
{
    lemma_steady(turns);
}

/// The dibits that say the rate after S1.
#[derive(Debug, Clone, Copy, PartialEq, Eq, Structural)]
pub struct RateDibits {
    pub last: Option<Dibit>,
    /// How often it came in a row, as far as that counts.
    pub run: u32,
}

impl Default for RateDibits {
    fn default() -> (dibits: Self)
        ensures
            dibits == Self::fresh(),
    {
        Self { last: None, run: 0 }
    }
}

impl RateDibits {
    pub open spec fn fresh() -> Self {
        Self { last: None, run: 0 }
    }

    pub open spec fn after(self, dibit: Dibit) -> Self {
        Self {
            last: Some(dibit),
            run: if self.last != Some(dibit) {
                1
            } else if self.run < RATE_DIBITS {
                (self.run + 1) as u32
            } else {
                RATE_DIBITS
            },
        }
    }

    pub fn push(&mut self, dibit: Dibit)
        ensures
            *final(self) == old(self).after(dibit),
    {
        let same = match self.last {
            Some(last) => last == dibit,
            None => false,
        };
        if !same {
            self.last = Some(dibit);
            self.run = 1;
        } else if self.run < RATE_DIBITS {
            self.run += 1;
        } else {
            self.run = RATE_DIBITS;
        }
    }

    pub open spec fn spec_rate(self) -> Rate {
        match self.last {
            Some(dibit) => dibit.spec_rate(),
            None => Rate::Bps1200,
        }
    }

    #[must_use]
    pub fn rate(&self) -> (rate: Rate)
        ensures
            rate == self.spec_rate(),
    {
        match self.last {
            Some(dibit) => dibit.rate(),
            None => Rate::Bps1200,
        }
    }
}

#[derive(Debug, Clone, Copy, PartialEq, Eq, Structural)]
pub enum Transmit {
    Silence,
    UnscrambledOnes,
    S1 { until: usize },
    Slow,
    Fast,
}

#[derive(Debug, Clone, Copy, PartialEq, Eq, Structural)]
pub enum Speed {
    Slow { data_at: usize },
    Trained { t0: usize, rate: Option<Rate> },
}

#[derive(Debug, Clone, Copy, PartialEq, Eq, Structural)]
pub enum Exchange {
    Idle,
    Initiated { repeat_at: usize },
    Answering,
}

/// The answering end sends unscrambled ones. The caller hears them for
/// 155 ms, waits 456 ms, and sends S1 then scrambled ones. Each end that hears
/// S1 end, sends S1 back if it has not yet, and goes to 2400 bit/s 600 ms
/// later. An end that hears scrambled ones without S1 finishes the V.22
/// handshake at 1200 bit/s instead.
///
/// A retrain and a rate change are the same exchange during data: S1, then
/// the dibit that names the rate, answered by S1 and the same dibit. This end
/// starts one when it loses equalisation, and asks for 1200 bit/s when it
/// loses it again soon after.
#[derive(Debug, Clone, Copy, PartialEq, Eq)]
pub struct Control {
    pub role: Role,
    pub transmit: Transmit,
    pub speed: Option<Speed>,
    pub exchange: Exchange,
    /// The samples sent.
    pub sent: usize,
    pub send_s1_at: Option<usize>,
    pub s1_sent_until: Option<usize>,
    pub s1: S1Detector,
    /// The bits sent since S1 began, modulo 4.
    pub s1_phase: u8,
    pub dibit: Dibit,
    pub heard_dibits: RateDibits,
    pub changed_at: Option<usize>,
    /// The ones on the line in a row, as far as they count.
    pub ones: usize,
    pub run: Run,
    pub ready_ones: usize,
    pub rate: Rate,
    pub lost_since: Option<usize>,
    pub retrained_at: Option<usize>,
    pub ready: bool,
    pub connected: bool,
}

pub open spec fn none_after(at: Option<usize>, sent: usize) -> bool {
    match at {
        Some(at) => at <= sent,
        None => true,
    }
}

impl Control {
    pub open spec fn valid(self) -> bool {
        &&& self.sent <= CLOCK_LIMIT
        &&& self.s1.valid()
        &&& self.s1_phase < 4
        &&& self.ones <= USB1_BITS
        &&& self.run.valid()
        &&& self.ready_ones <= READY_ONES
        &&& none_after(self.s1_sent_until, (self.sent + S1_SAMPLES) as usize)
        &&& none_after(self.changed_at, self.sent)
        &&& none_after(self.lost_since, self.sent)
        &&& none_after(self.retrained_at, self.sent)
        &&& match self.speed {
            Some(Speed::Trained { t0, .. }) => t0 <= self.sent,
            _ => true,
        }
    }

    pub open spec fn spec_new(role: Role) -> Self {
        Self {
            role,
            transmit: match role {
                Role::Originate => Transmit::Silence,
                Role::Answer => Transmit::UnscrambledOnes,
            },
            speed: None,
            exchange: Exchange::Idle,
            sent: 0,
            send_s1_at: None,
            s1_sent_until: None,
            s1: S1Detector::fresh(),
            s1_phase: 0,
            dibit: Dibit::spec_fast(),
            heard_dibits: RateDibits::fresh(),
            changed_at: None,
            ones: 0,
            run: Run::none(),
            ready_ones: 0,
            rate: Rate::Bps1200,
            lost_since: None,
            retrained_at: None,
            ready: false,
            connected: false,
        }
    }

    #[must_use]
    pub fn new(role: Role) -> (control: Self)
        ensures
            control == Self::spec_new(role),
            control.valid(),
    {
        let transmit = match role {
            Role::Originate => Transmit::Silence,
            Role::Answer => Transmit::UnscrambledOnes,
        };
        Self {
            role,
            transmit,
            speed: None,
            exchange: Exchange::Idle,
            sent: 0,
            send_s1_at: None,
            s1_sent_until: None,
            s1: S1Detector::default(),
            s1_phase: 0,
            dibit: Dibit::naming(Rate::Bps2400),
            heard_dibits: RateDibits::default(),
            changed_at: None,
            ones: 0,
            run: Run::default(),
            ready_ones: 0,
            rate: Rate::Bps1200,
            lost_since: None,
            retrained_at: None,
            ready: false,
            connected: false,
        }
    }

    pub open spec fn sending_s1(self) -> Self {
        let until = (self.sent + S1_SAMPLES) as usize;
        Self {
            transmit: Transmit::S1 { until },
            s1_phase: 0,
            s1_sent_until: Some(until),
            ..self
        }
    }

    fn send_s1(&mut self)
        requires
            old(self).valid(),
        ensures
            final(self).valid(),
            *final(self) == old(self).sending_s1(),
    {
        let until = self.sent + S1_SAMPLES;
        self.transmit = Transmit::S1 { until };
        self.s1_phase = 0;
        self.s1_sent_until = Some(until);
    }

    /// § 6.6.1 f): an S1 heard soon after ours is the reply, not a new request.
    pub open spec fn hears_a_reply(self) -> bool {
        match self.s1_sent_until {
            Some(until) => self.sent < until + REPLY_SAMPLES,
            None => false,
        }
    }

    fn replies_to_ours(&self) -> (replies: bool)
        requires
            self.valid(),
        ensures
            replies == self.hears_a_reply(),
    {
        match self.s1_sent_until {
            Some(until) => self.sent < until + REPLY_SAMPLES,
            None => false,
        }
    }

    pub open spec fn initiating(self, rate: Rate) -> Self {
        Self {
            dibit: Dibit::spec_naming(rate),
            exchange: Exchange::Initiated {
                repeat_at: (self.sent + S1_SAMPLES + REPEAT_SAMPLES) as usize,
            },
            ready: false,
            ready_ones: 0,
            lost_since: None,
            ..self.sending_s1()
        }
    }

    /// Starts a retrain, or a rate change to `rate`, as §§ 6.4 and 6.6 have it.
    pub fn initiate(&mut self, rate: Rate)
        requires
            old(self).valid(),
        ensures
            final(self).valid(),
            *final(self) == old(self).initiating(rate),
    {
        self.dibit = Dibit::naming(rate);
        self.send_s1();
        self.exchange = Exchange::Initiated { repeat_at: self.sent + S1_SAMPLES + REPEAT_SAMPLES };
        self.ready = false;
        self.ready_ones = 0;
        self.lost_since = None;
    }

    pub open spec fn may_retrain(self) -> bool {
        self.connected && match self.speed {
            Some(Speed::Trained { .. }) => true,
            _ => false,
        }
    }

    /// Asking the far end to train again, if data came at a trained rate.
    pub open spec fn retrained(self) -> Self {
        if self.may_retrain() {
            self.initiating(Rate::Bps2400)
        } else {
            self
        }
    }

    /// Asks the far end to train again, if data came at a trained rate.
    pub fn retrain(&mut self)
        requires
            old(self).valid(),
        ensures
            final(self).valid(),
            *final(self) == old(self).retrained(),
    {
        let trained = match self.speed {
            Some(Speed::Trained { .. }) => true,
            _ => false,
        };
        if self.connected && trained {
            self.initiate(Rate::Bps2400);
        }
    }

    pub open spec fn training(self) -> Self {
        Self {
            speed: Some(Speed::Trained { t0: self.sent, rate: None }),
            exchange: Exchange::Idle,
            changed_at: None,
            ready_ones: 0,
            ready: false,
            ..self
        }
    }

    /// Trains from now on. The coherent demodulator starts anew.
    fn train(&mut self)
        requires
            old(self).valid(),
        ensures
            final(self).valid(),
            *final(self) == old(self).training(),
    {
        self.speed = Some(Speed::Trained { t0: self.sent, rate: None });
        self.exchange = Exchange::Idle;
        self.changed_at = None;
        self.ready_ones = 0;
        self.ready = false;
    }

    /// Whether this end trains when S1 ends, or else answers first.
    pub open spec fn trains_on_s1(self) -> bool {
        !self.connected || match self.exchange {
            Exchange::Initiated { .. } => true,
            Exchange::Idle => self.hears_a_reply(),
            Exchange::Answering => false,
        }
    }

    #[verifier::opaque]
    pub open spec fn after_s1(self) -> Self {
        let fresh = Self { heard_dibits: RateDibits::fresh(), ..self };
        if self.trains_on_s1() {
            if !self.connected && self.s1_sent_until is None {
                fresh.sending_s1().training()
            } else {
                fresh.training()
            }
        } else {
            Self { exchange: Exchange::Answering, ready: false, ready_ones: 0, ..fresh }
        }
    }

    /// S1 has ended. Tells whether the coherent demodulator is to start anew.
    pub fn s1_ended(&mut self) -> (restarts: bool)
        requires
            old(self).valid(),
        ensures
            final(self).valid(),
            *final(self) == old(self).after_s1(),
            restarts == old(self).trains_on_s1(),
    {
        reveal(Control::after_s1);
        self.heard_dibits = RateDibits::default();
        let trains = if !self.connected {
            if self.s1_sent_until.is_none() {
                self.send_s1();
            }
            true
        } else {
            match self.exchange {
                Exchange::Initiated { .. } => true,
                Exchange::Idle => self.replies_to_ours(),
                Exchange::Answering => false,
            }
        };
        if trains {
            self.train();
        } else {
            self.exchange = Exchange::Answering;
            self.ready = false;
            self.ready_ones = 0;
        }
        trains
    }

    /// S1 that was due begins.
    pub open spec fn with_due_s1(self) -> Self {
        match self.send_s1_at {
            Some(at) => if self.sent >= at {
                Self { send_s1_at: None, ..self }.sending_s1()
            } else {
                self
            },
            None => self,
        }
    }

    /// An exchange without an answer repeats.
    pub open spec fn with_due_repeat(self) -> Self {
        match self.exchange {
            Exchange::Initiated { repeat_at } => if self.sent >= repeat_at {
                self.initiating(self.dibit.spec_rate())
            } else {
                self
            },
            _ => self,
        }
    }

    /// S1 has been sent.
    pub open spec fn with_s1_over(self) -> Self {
        match self.transmit {
            Transmit::S1 { until } => if self.sent >= until {
                Self { transmit: Transmit::Slow, ..self }
            } else {
                self
            },
            _ => self,
        }
    }

    /// The rate that training decides on now.
    pub open spec fn decides(self) -> Option<Rate> {
        match self.speed {
            Some(Speed::Trained { t0, rate: None }) => if self.exchange is Idle && self.sent >= t0
                + DECIDE_SAMPLES {
                Some(self.heard_dibits.spec_rate())
            } else {
                None
            },
            _ => None,
        }
    }

    pub open spec fn with_rate_decided(self) -> Self {
        match (self.speed, self.decides()) {
            (Some(Speed::Trained { t0, .. }), Some(rate)) => Self {
                speed: Some(Speed::Trained { t0, rate: Some(rate) }),
                ..self
            },
            _ => self,
        }
    }

    /// 600 ms after S1 the rate changes.
    pub open spec fn with_rate_changed(self) -> Self {
        match self.speed {
            Some(Speed::Trained { t0, rate: Some(rate) }) => if self.exchange is Idle
                && self.changed_at is None && self.sent >= t0 + CHANGE_SAMPLES {
                Self {
                    changed_at: Some(self.sent),
                    rate,
                    dibit: Dibit::spec_fast(),
                    transmit: match rate {
                        Rate::Bps2400 => Transmit::Fast,
                        Rate::Bps1200 => Transmit::Slow,
                    },
                    ..self
                }
            } else {
                self
            },
            _ => self,
        }
    }

    /// Data may be sent 200 ms after that, if it comes too.
    pub open spec fn with_data_ready(self) -> Self {
        match (self.speed, self.changed_at) {
            (Some(Speed::Trained { rate: Some(_), .. }), Some(at)) => if self.exchange is Idle
                && !self.ready && self.ready_ones >= READY_ONES && self.sent >= at + READY_SAMPLES {
                Self {
                    ready: true,
                    s1_sent_until: None,
                    retrained_at: if self.connected {
                        Some(self.sent)
                    } else {
                        self.retrained_at
                    },
                    ..self
                }
            } else {
                self
            },
            (Some(Speed::Slow { data_at }), _) => if self.sent >= data_at {
                Self { ready: true, ..self }
            } else {
                self
            },
            _ => self,
        }
    }

    /// Data at 2400 bit/s, which the coherent demodulator receives.
    pub open spec fn is_fast_data(self) -> bool {
        self.ready && match self.speed {
            Some(Speed::Trained { rate: Some(rate), .. }) => rate is Bps2400,
            _ => false,
        }
    }

    /// Equalisation lost for 300 ms starts a retrain, or asks for 1200 bit/s
    /// soon after the last.
    pub open spec fn watched(self, lost: bool) -> Self {
        if !self.is_fast_data() || !lost {
            Self { lost_since: None, ..self }
        } else {
            let since = match self.lost_since {
                Some(since) => since,
                None => self.sent,
            };
            let held = Self { lost_since: Some(since), ..self };
            if self.sent - since < LOST_SAMPLES {
                held
            } else {
                let soon = match self.retrained_at {
                    Some(at) => self.sent - at < STEP_DOWN_SAMPLES,
                    None => false,
                };
                held.initiating(
                    if soon {
                        Rate::Bps1200
                    } else {
                        Rate::Bps2400
                    },
                )
            }
        }
    }

    /// Before the rate is decided on.
    pub open spec fn before_training(self) -> Self {
        self.with_due_s1().with_due_repeat().with_s1_over()
    }

    pub open spec fn advanced(self, lost: bool) -> Self {
        let trained = self.before_training().with_rate_decided().with_rate_changed();
        let watched = trained.with_data_ready().watched(lost);
        Self { connected: watched.connected || watched.ready, ..watched }
    }

    /// Goes on by the clock, with whether the coherent demodulator has lost
    /// the signal, and gives the rate it is to decide at from now on.
    pub fn advance(&mut self, lost: bool) -> (decided: Option<Rate>)
        requires
            old(self).valid(),
        ensures
            final(self).valid(),
            *final(self) == old(self).advanced(lost),
            decided == old(self).before_training().decides(),
    {
        self.start_in_time();
        let decided = self.advance_trained();
        self.watch_equalisation(lost);
        self.connected = self.connected || self.ready;
        decided
    }

    fn start_in_time(&mut self)
        requires
            old(self).valid(),
        ensures
            final(self).valid(),
            *final(self) == old(self).before_training(),
    {
        self.begin_due_s1();
        self.repeat_due_exchange();
        if let Transmit::S1 { until } = self.transmit {
            if self.sent >= until {
                self.transmit = Transmit::Slow;
            }
        }
    }

    fn begin_due_s1(&mut self)
        requires
            old(self).valid(),
        ensures
            final(self).valid(),
            *final(self) == old(self).with_due_s1(),
    {
        if let Some(at) = self.send_s1_at {
            if self.sent >= at {
                self.send_s1_at = None;
                self.send_s1();
            }
        }
    }

    fn repeat_due_exchange(&mut self)
        requires
            old(self).valid(),
        ensures
            final(self).valid(),
            *final(self) == old(self).with_due_repeat(),
    {
        if let Exchange::Initiated { repeat_at } = self.exchange {
            if self.sent >= repeat_at {
                self.initiate(self.dibit.rate());
            }
        }
    }

    fn advance_trained(&mut self) -> (decided: Option<Rate>)
        requires
            old(self).valid(),
        ensures
            final(self).valid(),
            *final(self) == old(self).with_rate_decided().with_rate_changed().with_data_ready(),
            decided == old(self).decides(),
    {
        let idle = matches!(self.exchange, Exchange::Idle);
        match self.speed {
            Some(Speed::Trained { t0, rate }) => {
                if !idle {
                    return None;
                }
                let decided = match rate {
                    None => {
                        if self.sent >= t0 + DECIDE_SAMPLES {
                            Some(self.heard_dibits.rate())
                        } else {
                            None
                        }
                    },
                    Some(_) => None,
                };
                if decided.is_some() {
                    self.speed = Some(Speed::Trained { t0, rate: decided });
                }
                let rate = match rate {
                    Some(rate) => rate,
                    None => match decided {
                        Some(rate) => rate,
                        None => {
                            return None;
                        },
                    },
                };
                if self.changed_at.is_none() && self.sent >= t0 + CHANGE_SAMPLES {
                    self.changed_at = Some(self.sent);
                    self.rate = rate;
                    self.dibit = Dibit::naming(Rate::Bps2400);
                    self.transmit = match rate {
                        Rate::Bps2400 => Transmit::Fast,
                        Rate::Bps1200 => Transmit::Slow,
                    };
                }
                if let Some(at) = self.changed_at {
                    if !self.ready && self.ready_ones >= READY_ONES && self.sent >= at
                        + READY_SAMPLES {
                        self.ready = true;
                        self.s1_sent_until = None;
                        if self.connected {
                            self.retrained_at = Some(self.sent);
                        }
                    }
                }
                decided
            },
            Some(Speed::Slow { data_at }) => {
                if self.sent >= data_at {
                    self.ready = true;
                }
                None
            },
            None => None,
        }
    }

    fn watch_equalisation(&mut self, lost: bool)
        requires
            old(self).valid(),
        ensures
            final(self).valid(),
            *final(self) == old(self).watched(lost),
    {
        let fast_data = self.ready && match self.speed {
            Some(Speed::Trained { rate: Some(rate), .. }) => matches!(rate, Rate::Bps2400),
            _ => false,
        };
        if !fast_data || !lost {
            self.lost_since = None;
            return;
        }
        let since = match self.lost_since {
            Some(since) => since,
            None => self.sent,
        };
        self.lost_since = Some(since);
        if self.sent - since < LOST_SAMPLES {
            return;
        }
        let soon = match self.retrained_at {
            Some(at) => self.sent - at < STEP_DOWN_SAMPLES,
            None => false,
        };
        if soon {
            self.initiate(Rate::Bps1200);
        } else {
            self.initiate(Rate::Bps2400);
        }
    }

    pub open spec fn ones_after(self, line: bool) -> int {
        if !line {
            0
        } else if self.ones < USB1_BITS {
            self.ones + 1
        } else {
            USB1_BITS as int
        }
    }

    /// At 1200 bit/s from 765 ms on, as V.22.
    pub open spec fn fallen_back(self) -> Self {
        Self {
            speed: Some(Speed::Slow { data_at: (self.sent + SETTLE_SAMPLES) as usize }),
            ..self
        }
    }

    pub open spec fn after_handshake_bit(self, line: bool, descrambled: bool) -> Self {
        let heard = Self {
            ones: self.ones_after(line) as usize,
            run: self.run.after(line, descrambled),
            ..self
        };
        if heard.s1.heard {
            heard
        } else if heard.role is Originate && heard.transmit is Silence && heard.send_s1_at is None
            && heard.ones >= USB1_BITS {
            Self { send_s1_at: Some((heard.sent + WAIT_SAMPLES) as usize), ..heard }
        } else if heard.role is Answer && heard.transmit is UnscrambledOnes
            && heard.run.spec_scrambled() {
            Self { transmit: Transmit::Slow, ..heard }.fallen_back()
        } else if heard.role is Originate && heard.transmit is Slow && heard.run.spec_scrambled()
            && heard.run.value {
            heard.fallen_back()
        } else {
            heard
        }
    }

    fn handshake_bit(&mut self, line: bool, descrambled: bool)
        requires
            old(self).valid(),
        ensures
            final(self).valid(),
            *final(self) == old(self).after_handshake_bit(line, descrambled),
    {
        self.ones = if !line {
            0
        } else if self.ones < USB1_BITS {
            self.ones + 1
        } else {
            USB1_BITS
        };
        self.run.push(line, descrambled);
        if self.s1.heard {
            return;
        }
        match (self.role, self.transmit) {
            (Role::Originate, Transmit::Silence) => {
                if self.send_s1_at.is_none() && self.ones >= USB1_BITS {
                    self.send_s1_at = Some(self.sent + WAIT_SAMPLES);
                }
            },
            (Role::Answer, Transmit::UnscrambledOnes) => {
                if self.run.scrambled() {
                    self.transmit = Transmit::Slow;
                    self.speed = Some(Speed::Slow { data_at: self.sent + SETTLE_SAMPLES });
                }
            },
            (Role::Originate, Transmit::Slow) => {
                if self.run.scrambled() && self.run.value {
                    self.speed = Some(Speed::Slow { data_at: self.sent + SETTLE_SAMPLES });
                }
            },
            _ => {},
        }
    }

    pub open spec fn spec_trained_rate(self) -> Option<Rate> {
        match self.speed {
            Some(Speed::Trained { rate, .. }) => if self.exchange is Idle {
                rate
            } else {
                None
            },
            _ => None,
        }
    }

    /// The rate that training decided on, while no exchange goes on.
    #[must_use]
    pub fn trained_rate(&self) -> (rate: Option<Rate>)
        ensures
            rate == self.spec_trained_rate(),
    {
        match self.speed {
            Some(Speed::Trained { rate, .. }) => match self.exchange {
                Exchange::Idle => rate,
                _ => None,
            },
            _ => None,
        }
    }

    /// Received data flows before this end may send, as in V.22.
    pub open spec fn spec_receiving(self) -> bool {
        match self.speed {
            Some(Speed::Slow { .. }) => self.role is Originate || self.ready,
            Some(Speed::Trained { .. }) => self.spec_trained_rate() is Some && self.ready_ones
                >= READY_ONES,
            None => false,
        }
    }

    /// Received data flows before this end may send, as in V.22.
    #[must_use]
    pub fn receiving(&self) -> (receiving: bool)
        ensures
            receiving == self.spec_receiving(),
    {
        match self.speed {
            Some(Speed::Slow { .. }) => matches!(self.role, Role::Originate) || self.ready,
            Some(Speed::Trained { .. }) => self.trained_rate().is_some() && self.ready_ones
                >= READY_ONES,
            None => false,
        }
    }

    pub open spec fn after_ready_bit(self, bit: bool) -> Self {
        if self.ready_ones >= READY_ONES {
            self
        } else {
            Self {
                ready_ones: if bit {
                    (self.ready_ones + 1) as usize
                } else {
                    0
                },
                ..self
            }
        }
    }

    pub open spec fn ready_data(self, bit: bool) -> Seq<bool> {
        if self.ready_ones >= READY_ONES {
            seq![bit]
        } else {
            seq![]
        }
    }

    /// §§ 6.3.1.1 f) and 6.6.1 e): data after 32 ones in a row at the new rate.
    pub fn ready_bit(&mut self, bit: bool, bits: &mut Vec<bool>)
        requires
            old(self).valid(),
        ensures
            final(self).valid(),
            *final(self) == old(self).after_ready_bit(bit),
            final(bits)@ == old(bits)@ + old(self).ready_data(bit),
    {
        if self.ready_ones >= READY_ONES {
            bits.push(bit);
            assert(bits@ =~= old(bits)@ + seq![bit]);
        } else {
            self.ready_ones = if bit {
                self.ready_ones + 1
            } else {
                0
            };
            assert(bits@ =~= old(bits)@ + Seq::<bool>::empty());
        }
    }

    /// The far end asks for a rate, and has done so often enough.
    pub open spec fn asked(self, descrambled: Dibit) -> bool {
        self.speed is Some && self.speed->0 is Trained && self.exchange is Answering
            && self.heard_dibits.after(descrambled).run >= RATE_DIBITS
    }

    #[verifier::opaque]
    pub open spec fn after_slow_dibit(self, line: Dibit, descrambled: Dibit) -> Self {
        match self.speed {
            None => {
                let first = self.after_handshake_bit(line.first, descrambled.first);
                first.after_handshake_bit(line.second, descrambled.second)
            },
            Some(Speed::Slow { .. }) => self,
            Some(Speed::Trained { .. }) => {
                let heard = Self { heard_dibits: self.heard_dibits.after(descrambled), ..self };
                if self.asked(descrambled) {
                    Self {
                        dibit: Dibit::spec_naming(heard.heard_dibits.spec_rate()),
                        ..heard
                    }.sending_s1().training()
                } else if heard.spec_trained_rate() == Some(Rate::Bps1200) {
                    heard.after_ready_bit(descrambled.first).after_ready_bit(descrambled.second)
                } else {
                    heard
                }
            },
        }
    }

    pub open spec fn slow_data(self, descrambled: Dibit) -> Seq<bool> {
        match self.speed {
            None => seq![],
            Some(Speed::Slow { .. }) => if self.spec_receiving() {
                seq![descrambled.first, descrambled.second]
            } else {
                seq![]
            },
            Some(Speed::Trained { .. }) => if !self.asked(descrambled)
                && self.spec_trained_rate() == Some(Rate::Bps1200) {
                self.ready_data(descrambled.first) + self.after_ready_bit(
                    descrambled.first,
                ).ready_data(descrambled.second)
            } else {
                seq![]
            },
        }
    }

    /// Takes a dibit of the line and what it descrambles to, and tells
    /// whether the coherent demodulator is to start anew.
    #[verifier::spinoff_prover]
    #[verifier::rlimit(40)]
    pub fn slow_dibit(
        &mut self,
        line: Dibit,
        descrambled: Dibit,
        bits: &mut Vec<bool>,
    ) -> (restarts: bool)
        requires
            old(self).valid(),
        ensures
            final(self).valid(),
            *final(self) == old(self).after_slow_dibit(line, descrambled),
            final(bits)@ == old(bits)@ + old(self).slow_data(descrambled),
            restarts == old(self).asked(descrambled),
    {
        reveal(Control::after_slow_dibit);
        assert(bits@ =~= bits@ + Seq::<bool>::empty());
        match self.speed {
            None => {
                self.handshake_bit(line.first, descrambled.first);
                self.handshake_bit(line.second, descrambled.second);
                false
            },
            Some(Speed::Slow { .. }) => {
                if self.receiving() {
                    bits.push(descrambled.first);
                    bits.push(descrambled.second);
                    assert(bits@ =~= old(bits)@ + seq![descrambled.first, descrambled.second]);
                }
                false
            },
            Some(Speed::Trained { .. }) => self.trained_dibit(descrambled, bits),
        }
    }

    fn trained_dibit(&mut self, descrambled: Dibit, bits: &mut Vec<bool>) -> (restarts: bool)
        requires
            old(self).valid(),
            old(self).speed is Some,
            old(self).speed->0 is Trained,
        ensures
            final(self).valid(),
            *final(self) == old(self).after_slow_dibit(descrambled, descrambled),
            final(bits)@ == old(bits)@ + old(self).slow_data(descrambled),
            restarts == old(self).asked(descrambled),
    {
        reveal(Control::after_slow_dibit);
        assert(bits@ =~= bits@ + Seq::<bool>::empty());
        let answering = matches!(self.exchange, Exchange::Answering);
        self.heard_dibits.push(descrambled);
        if answering && self.heard_dibits.run >= RATE_DIBITS {
            self.dibit = Dibit::naming(self.heard_dibits.rate());
            self.send_s1();
            self.train();
            return true;
        }
        let slow = match self.trained_rate() {
            Some(rate) => matches!(rate, Rate::Bps1200),
            None => false,
        };
        if slow {
            self.ready_bit(descrambled.first, bits);
            self.ready_bit(descrambled.second, bits);
            assert(bits@ =~= old(bits)@ + old(self).slow_data(descrambled));
        }
        false
    }

    pub open spec fn spec_bit_rate(self) -> u32 {
        match self.speed {
            Some(Speed::Trained { .. }) => if self.rate is Bps2400 {
                2400
            } else {
                1200
            },
            _ => 1200,
        }
    }

    #[must_use]
    pub fn bit_rate(&self) -> (rate: u32)
        ensures
            rate == self.spec_bit_rate(),
    {
        match (self.speed, self.rate) {
            (Some(Speed::Trained { .. }), Rate::Bps2400) => 2400,
            _ => 1200,
        }
    }

    #[must_use]
    pub fn engaged(&self) -> (engaged: bool)
        ensures
            engaged == (self.speed is Some || self.send_s1_at is Some || self.s1_sent_until
                is Some),
    {
        self.speed.is_some() || self.send_s1_at.is_some() || self.s1_sent_until.is_some()
    }
}

/// A connected end stays connected, through retrains and rate changes.
pub proof fn law_stays_connected(
    control: Control,
    lost: bool,
    line: Dibit,
    descrambled: Dibit,
    rate: Rate,
)
    requires
        control.connected,
    ensures
        control.advanced(lost).connected,
        control.after_s1().connected,
        control.after_slow_dibit(line, descrambled).connected,
        control.initiating(rate).connected,
{
    reveal(Control::after_s1);
    reveal(Control::after_slow_dibit);
}

/// No data comes at a trained rate before 32 ones in a row.
pub proof fn law_data_comes_after_32_ones(control: Control, descrambled: Dibit)
    requires
        control.valid(),
        control.speed is Some,
        control.speed->0 is Trained,
        control.ready_ones + 2 <= READY_ONES,
    ensures
        control.slow_data(descrambled) == Seq::<bool>::empty(),
{
    assert(control.slow_data(descrambled) =~= Seq::<bool>::empty());
}

/// The rate changes no sooner than 600 ms after S1, and data is sent no
/// sooner than 200 ms after that.
pub proof fn law_changes_rate_in_its_time(control: Control, lost: bool)
    requires
        control.valid(),
    ensures
        ({
            let next = control.advanced(lost);
            &&& control.changed_at is None && next.changed_at is Some ==> match next.speed {
                Some(Speed::Trained { t0, .. }) => control.sent >= t0 + CHANGE_SAMPLES,
                _ => false,
            }
            &&& control.speed is Some && control.speed->0 is Trained && !control.ready && next.ready
                ==> match next.changed_at {
                Some(at) => control.sent >= at + READY_SAMPLES,
                None => false,
            }
        }),
{
    let before = control.before_training();
    assert(before.changed_at == control.changed_at);
    assert(before.speed == control.speed);
}

/// Losing equalisation for 300 ms asks for a retrain at the same rate, or at
/// 1200 bit/s within 10 s of the last.
pub proof fn law_steps_down_when_it_loses_equalisation_again(control: Control, since: usize)
    requires
        control.valid(),
        control.is_fast_data(),
        control.lost_since == Some(since),
        control.sent - since >= LOST_SAMPLES,
    ensures
        control.watched(true).exchange is Initiated,
        control.watched(true).dibit.spec_rate() == (match control.retrained_at {
            Some(at) => if control.sent - at < STEP_DOWN_SAMPLES {
                Rate::Bps1200
            } else {
                Rate::Bps2400
            },
            None => Rate::Bps2400,
        }),
{
}

/// One end of V.22bis, as far as it deals in bits. The handshake signals, S1
/// during data, and 1200 bit/s are received by a differential demodulator,
/// which needs no training. A coherent one beside it trains from the end of
/// S1 and receives 2400 bit/s.
#[derive(Debug)]
pub struct V22bis {
    control: Control,
    scrambler: Scrambler,
    slow_descrambler: Descrambler,
    fast_descrambler: Descrambler,
    queue: VecDeque<bool>,
}

/// What a line bit descrambles to after `history`, newest first.
pub open spec fn descrambles(history: Seq<bool>, line: bool) -> bool {
    line != Polynomial::V22.taps(history)
}

impl V22bis {
    pub closed spec fn spec_control(self) -> Control {
        self.control
    }

    pub closed spec fn scrambling(self) -> Scrambling {
        self.scrambler@
    }

    /// The line bits heard last at 1200 bit/s, newest first.
    pub closed spec fn slow_history(self) -> Seq<bool> {
        self.slow_descrambler.history()
    }

    /// The line bits heard last at 2400 bit/s, newest first.
    pub closed spec fn fast_history(self) -> Seq<bool> {
        self.fast_descrambler.history()
    }

    /// The bits queued but not yet sent.
    pub closed spec fn queued(self) -> Seq<bool> {
        self.queue@
    }

    pub closed spec fn valid(self) -> bool {
        &&& self.control.valid()
        &&& self.scrambler@.valid()
        &&& self.slow_descrambler.valid()
        &&& self.slow_descrambler.polynomial() == Polynomial::V22
        &&& self.fast_descrambler.valid()
        &&& self.fast_descrambler.polynomial() == Polynomial::V22
    }

    #[must_use]
    pub fn new(role: Role) -> (pump: Self)
        ensures
            pump.valid(),
            pump.spec_control() == Control::spec_new(role),
            pump.scrambling() == (Scrambling {
                guard: true,
                ..Scrambling::fresh(Polynomial::V22)
            }),
            pump.slow_history() == Seq::new(17, |i: int| false),
            pump.fast_history() == Seq::new(17, |i: int| false),
            pump.queued() == Seq::<bool>::empty(),
    {
        let mut scrambler = Scrambler::new();
        scrambler.guard_against_lockup();
        Self {
            control: Control::new(role),
            scrambler,
            slow_descrambler: Descrambler::new(),
            fast_descrambler: Descrambler::new(),
            queue: VecDeque::new(),
        }
    }

    #[must_use]
    pub fn control(&self) -> (control: Control)
        ensures
            control == self.spec_control(),
    {
        self.control
    }

    /// Queues bits to send. The line idles on mark when none are queued.
    pub fn push_bits(&mut self, bits: &[bool])
        requires
            old(self).valid(),
        ensures
            final(self).valid(),
            final(self).queued() == old(self).queued() + bits@,
            final(self).spec_control() == old(self).spec_control(),
            final(self).scrambling() == old(self).scrambling(),
            final(self).slow_history() == old(self).slow_history(),
            final(self).fast_history() == old(self).fast_history(),
    {
        let ghost before = *self;
        let mut i: usize = 0;
        while i < bits.len()
            invariant
                i <= bits.len(),
                self.queue@ == before.queue@ + bits@.take(i as int),
                self.control == before.control,
                self.scrambler == before.scrambler,
                self.slow_descrambler == before.slow_descrambler,
                self.fast_descrambler == before.fast_descrambler,
            decreases bits.len() - i,
        {
            self.queue.push_back(bits[i]);
            i += 1;
            assert(bits@.take(i as int) =~= bits@.take(i - 1).push(bits@[i - 1]));
        }
        assert(bits@.take(i as int) =~= bits@);
    }

    /// Bits queued but not yet started.
    #[must_use]
    pub fn pending(&self) -> (pending: usize)
        ensures
            pending == self.queued().len(),
    {
        self.queue.len()
    }

    /// Starts a retrain, or a rate change, that asks for `rate`.
    pub fn initiate(&mut self, rate: Rate)
        requires
            old(self).valid(),
        ensures
            final(self).valid(),
            final(self).spec_control() == old(self).spec_control().initiating(rate),
            final(self).scrambling() == old(self).scrambling(),
            final(self).slow_history() == old(self).slow_history(),
            final(self).fast_history() == old(self).fast_history(),
            final(self).queued() == old(self).queued(),
    {
        self.control.initiate(rate);
    }

    /// Asks the far end to train again.
    pub fn retrain(&mut self)
        requires
            old(self).valid(),
        ensures
            final(self).valid(),
            final(self).spec_control() == old(self).spec_control().retrained(),
            final(self).scrambling() == old(self).scrambling(),
            final(self).slow_history() == old(self).slow_history(),
            final(self).fast_history() == old(self).fast_history(),
            final(self).queued() == old(self).queued(),
    {
        self.control.retrain();
    }

    /// Takes up the next `length` samples, with whether the coherent
    /// demodulator has lost the signal, and gives the rate it is to decide
    /// at from now on.
    pub fn transmit(&mut self, length: usize, lost: bool) -> (decided: Option<Rate>)
        requires
            old(self).valid(),
            old(self).spec_control().sent + length <= CLOCK_LIMIT,
        ensures
            final(self).valid(),
            final(self).spec_control() == (Control {
                sent: (old(self).spec_control().sent + length) as usize,
                ..old(self).spec_control().advanced(lost)
            }),
            decided == old(self).spec_control().before_training().decides(),
            final(self).scrambling() == old(self).scrambling(),
            final(self).slow_history() == old(self).slow_history(),
            final(self).fast_history() == old(self).fast_history(),
            final(self).queued() == old(self).queued(),
    {
        let decided = self.control.advance(lost);
        self.control.sent += length;
        decided
    }

    /// The bit that enters the scrambler next, if one does.
    pub open spec fn enters(self) -> Option<bool> {
        let control = self.spec_control();
        let queued = control.ready && self.queued().len() > 0;
        match control.transmit {
            Transmit::Slow => Some(
                if queued {
                    self.queued()[0]
                } else if control.s1_phase % 2 == 1 {
                    control.dibit.second
                } else {
                    control.dibit.first
                },
            ),
            Transmit::Fast => Some(
                if queued {
                    self.queued()[0]
                } else {
                    true
                },
            ),
            _ => None,
        }
    }

    /// The next bit for the line, or silence.
    pub open spec fn line_bit(self) -> Option<bool> {
        match self.enters() {
            Some(bit) => Some(self.scrambling().out(bit)),
            None => match self.spec_control().transmit {
                Transmit::UnscrambledOnes => Some(true),
                Transmit::S1 { .. } => Some(self.spec_control().s1_phase >= 2),
                _ => None,
            },
        }
    }

    /// The next bit for the line, or silence.
    pub fn next_bit(&mut self) -> (line: Option<bool>)
        requires
            old(self).valid(),
        ensures
            final(self).valid(),
            final(self).slow_history() == old(self).slow_history(),
            final(self).fast_history() == old(self).fast_history(),
            line == old(self).line_bit(),
            final(self).scrambling() == (match old(self).enters() {
                Some(bit) => old(self).scrambling().after(bit),
                None => old(self).scrambling(),
            }),
            final(self).spec_control() == (match old(self).spec_control().transmit {
                Transmit::S1 { .. } | Transmit::Slow => Control {
                    s1_phase: ((old(self).spec_control().s1_phase + 1) % 4) as u8,
                    ..old(self).spec_control()
                },
                _ => old(self).spec_control(),
            }),
            final(self).queued() == (if old(self).enters() is Some && old(self).spec_control().ready
                && old(self).queued().len() > 0 {
                old(self).queued().skip(1)
            } else {
                old(self).queued()
            }),
    {
        match self.control.transmit {
            Transmit::Silence => None,
            Transmit::UnscrambledOnes => Some(true),
            Transmit::S1 { .. } => {
                let bit = self.control.s1_phase >= 2;
                self.control.s1_phase = (self.control.s1_phase + 1) % 4;
                Some(bit)
            },
            Transmit::Slow => {
                let idle = if self.control.s1_phase % 2 == 1 {
                    self.control.dibit.second
                } else {
                    self.control.dibit.first
                };
                self.control.s1_phase = (self.control.s1_phase + 1) % 4;
                let bit = self.next_data(idle);
                Some(self.scrambler.scramble(bit))
            },
            Transmit::Fast => {
                let bit = self.next_data(true);
                Some(self.scrambler.scramble(bit))
            },
        }
    }

    fn next_data(&mut self, idle: bool) -> (bit: bool)
        ensures
            final(self).control == old(self).control,
            final(self).scrambler == old(self).scrambler,
            final(self).slow_descrambler == old(self).slow_descrambler,
            final(self).fast_descrambler == old(self).fast_descrambler,
            bit == (if old(self).control.ready && old(self).queue@.len() > 0 {
                old(self).queue@[0]
            } else {
                idle
            }),
            final(self).queue@ == (if old(self).control.ready && old(self).queue@.len() > 0 {
                old(self).queue@.skip(1)
            } else {
                old(self).queue@
            }),
    {
        if !self.control.ready {
            return idle;
        }
        let ghost before = self.queue@;
        match self.queue.pop_front() {
            Some(bit) => {
                assert(self.queue@ =~= before.skip(1));
                bit
            },
            None => idle,
        }
    }

    /// What a dibit descrambles to.
    pub open spec fn slow_descrambled(self, line: Dibit) -> Dibit {
        Dibit {
            first: descrambles(self.slow_history(), line.first),
            second: descrambles(
                Polynomial::V22.shift(self.slow_history(), line.first),
                line.second,
            ),
        }
    }

    /// The control before S1 can end.
    pub open spec fn heard_dibit(self, line: Dibit) -> Control {
        Control {
            s1: self.spec_control().s1.after(table_1(line.first, line.second)),
            ..self.spec_control()
        }.after_slow_dibit(line, self.slow_descrambled(line))
    }

    /// Takes a dibit from the differential demodulator, gives the data bits
    /// that come at 1200 bit/s, and tells whether the coherent demodulator
    /// is to start anew.
    #[verifier::rlimit(50)]
    #[verifier::spinoff_prover]
    pub fn receive_slow(&mut self, line: Dibit, bits: &mut Vec<bool>) -> (restarts: bool)
        requires
            old(self).valid(),
        ensures
            final(self).valid(),
            final(self).scrambling() == old(self).scrambling(),
            final(self).queued() == old(self).queued(),
            final(self).fast_history() == old(self).fast_history(),
            final(self).slow_history() == Polynomial::V22.shift(
                Polynomial::V22.shift(old(self).slow_history(), line.first),
                line.second,
            ),
            ({
                let ended = old(self).spec_control().s1.ends(table_1(line.first, line.second));
                let heard = old(self).heard_dibit(line);
                &&& final(self).spec_control() == if ended {
                    heard.after_s1()
                } else {
                    heard
                }
                &&& restarts == (old(self).spec_control().asked(old(self).slow_descrambled(line))
                    || ended && heard.trains_on_s1())
            }),
            final(bits)@ == old(bits)@ + old(self).spec_control().slow_data(
                old(self).slow_descrambled(line),
            ),
    {
        let ended = self.control.s1.push(quarter_turns(line.first, line.second));
        let first = self.slow_descrambler.descramble(line.first);
        let second = self.slow_descrambler.descramble(line.second);
        let asked = self.control.slow_dibit(line, Dibit { first, second }, bits);
        if ended {
            let restarts = self.control.s1_ended();
            asked || restarts
        } else {
            asked
        }
    }

    /// Whether the coherent demodulator's bits count.
    pub open spec fn takes_fast_bits(self) -> bool {
        self.spec_control().spec_trained_rate() == Some(Rate::Bps2400)
    }

    /// Takes a bit from the coherent demodulator, and gives the data bit
    /// that comes at 2400 bit/s.
    pub fn receive_fast(&mut self, line: bool, bits: &mut Vec<bool>)
        requires
            old(self).valid(),
        ensures
            final(self).valid(),
            final(self).scrambling() == old(self).scrambling(),
            final(self).queued() == old(self).queued(),
            final(self).slow_history() == old(self).slow_history(),
            old(self).takes_fast_bits() ==> {
                let bit = descrambles(old(self).fast_history(), line);
                &&& final(self).fast_history() == Polynomial::V22.shift(
                    old(self).fast_history(),
                    line,
                )
                &&& final(self).spec_control() == old(self).spec_control().after_ready_bit(bit)
                &&& final(bits)@ == old(bits)@ + old(self).spec_control().ready_data(bit)
            },
            !old(self).takes_fast_bits() ==> {
                &&& final(self).fast_history() == old(self).fast_history()
                &&& final(self).spec_control() == old(self).spec_control()
                &&& final(bits)@ == old(bits)@
            },
    {
        let fast = match self.control.trained_rate() {
            Some(rate) => matches!(rate, Rate::Bps2400),
            None => false,
        };
        if fast {
            let bit = self.fast_descrambler.descramble(line);
            self.control.ready_bit(bit, bits);
        }
    }
}

/// Table 4: 11 names 2400 bit/s, and 01, as any other, 1200 bit/s.
pub proof fn law_table_4(dibit: Dibit)
    ensures
        Dibit::spec_naming(Rate::Bps2400).first && Dibit::spec_naming(Rate::Bps2400).second,
        !Dibit::spec_naming(Rate::Bps1200).first && Dibit::spec_naming(Rate::Bps1200).second,
        dibit.first && dibit.second ==> dibit.spec_rate() == Rate::Bps2400,
        !dibit.first || !dibit.second ==> dibit.spec_rate() == Rate::Bps1200,
{
}

/// S1 turns by a quarter one way, then the other. Twenty such turns in a row
/// are S1, which ends with the next symbol that does not alternate.
pub proof fn law_s1_alternates(detector: S1Detector, turns: u8)
    requires
        detector.valid(),
    ensures
        ({
            let after = detector.after(turns);
            let quarter = turns == 1 || turns == 3;
            let alternates = quarter && detector.last is Some && detector.last->0 != turns;
            &&& after.last == Some(turns)
            &&& !quarter ==> after.run == 0
            &&& quarter && !alternates ==> after.run == 1
            &&& alternates && detector.run < 20 ==> after.run == detector.run + 1
            &&& alternates && detector.run == 20 ==> after.run == 20
            &&& alternates && detector.run >= 19 ==> after.heard && !detector.ends(turns)
            &&& alternates && 1 <= detector.run < 19 ==> after.heard == detector.heard && !detector.ends(turns)
            &&& !alternates && detector.heard ==> detector.ends(turns) && !after.heard
            &&& !detector.heard && !(alternates && detector.run >= 19) ==> !detector.ends(turns) && !after.heard
        }),
{
}

/// Dibits alike are counted up to 32, and the last one names the rate.
pub proof fn law_the_last_dibit_names_the_rate(dibits: RateDibits, dibit: Dibit)
    ensures
        dibits.after(dibit).spec_rate() == dibit.spec_rate(),
        dibits.last != Some(dibit) ==> dibits.after(dibit).run == 1,
        dibits.last == Some(dibit) && dibits.run < 32 ==> dibits.after(dibit).run == dibits.run + 1,
        dibits.last == Some(dibit) && dibits.run >= 32 ==> dibits.after(dibit).run == 32,
        RateDibits::fresh().spec_rate() == Rate::Bps1200 && RateDibits::fresh().run == 0,
{
}

/// How the handshake goes on. The caller, having heard 186 unscrambled ones,
/// sends S1 456 ms later. An end that hears scrambled bits without S1 goes to
/// data at 1200 bit/s 765 ms on: ones for the caller, any for the answerer.
pub proof fn law_the_handshake_leads_on(control: Control, line: bool, descrambled: bool)
    requires
        control.valid(),
    ensures
        ({
            let run = control.run.after(line, descrambled);
            let next = control.after_handshake_bit(line, descrambled);
            let enough = line && control.ones >= 185;
            let waits = control.role == Role::Originate && control.transmit == Transmit::Silence;
            let answers = control.role == Role::Answer && control.transmit == Transmit::UnscrambledOnes;
            let sends = control.role == Role::Originate && control.transmit == Transmit::Slow;
            let slow = Some(Speed::Slow { data_at: (control.sent + 6120) as usize });
            &&& next.run == run
            &&& control.s1.heard ==> next.transmit == control.transmit && next.speed == control.speed
                && next.send_s1_at == control.send_s1_at
            &&& !control.s1.heard && waits && control.send_s1_at is None && enough ==> next.send_s1_at == Some(
                (control.sent + 3648) as usize,
            )
            &&& !control.s1.heard && waits && !enough ==> next.send_s1_at == control.send_s1_at && next.speed
                == control.speed
            &&& !control.s1.heard && answers && run.spec_scrambled() ==> next.transmit == Transmit::Slow && next.speed
                == slow
            &&& !control.s1.heard && answers && !run.spec_scrambled() ==> next.transmit == control.transmit
                && next.speed == control.speed
            &&& !control.s1.heard && sends && run.spec_scrambled() && descrambled ==> next.transmit == Transmit::Slow
                && next.speed == slow
            &&& !control.s1.heard && sends && !(run.spec_scrambled() && descrambled) ==> next.speed == control.speed
            &&& Control::spec_new(Role::Originate).transmit == Transmit::Silence && Control::spec_new(
                Role::Answer,
            ).transmit == Transmit::UnscrambledOnes
            &&& Control::spec_new(control.role).dibit.spec_rate() == Rate::Bps2400
        }),
{
}

/// S1 lasts 100 ms. One that is due begins, one that is over gives way to
/// scrambled bits, and an exchange that this end started is repeated 1.2 s
/// after its S1 where no answer has come.
pub proof fn law_s1_lasts_100_ms(control: Control, rate: Rate, at: usize)
    requires
        control.valid(),
    ensures
        control.sending_s1().transmit == (Transmit::S1 { until: (control.sent + 800) as usize }),
        control.sending_s1().s1_sent_until == Some((control.sent + 800) as usize),
        control.sending_s1().s1_phase == 0,
        control.initiating(rate).dibit == Dibit::spec_naming(rate),
        control.initiating(rate).exchange == (Exchange::Initiated { repeat_at: (control.sent + 10_400) as usize }),
        control.initiating(rate).transmit == control.sending_s1().transmit,
        !control.initiating(rate).ready && control.initiating(rate).ready_ones == 0 && control.initiating(
            rate,
        ).lost_since is None,
        control.send_s1_at == Some(at) && control.sent >= at ==> control.with_due_s1().transmit
            == control.sending_s1().transmit && control.with_due_s1().send_s1_at is None,
        control.send_s1_at == Some(at) && control.sent < at || control.send_s1_at is None ==> control.with_due_s1()
            == control,
        control.exchange == (Exchange::Initiated { repeat_at: at }) && control.sent >= at ==> control.with_due_repeat()
            == control.initiating(control.dibit.spec_rate()),
        control.exchange == (Exchange::Initiated { repeat_at: at }) && control.sent < at || !(control.exchange
            is Initiated) ==> control.with_due_repeat() == control,
        control.transmit == (Transmit::S1 { until: at }) && control.sent >= at ==> control.with_s1_over().transmit
            == Transmit::Slow,
        control.transmit == (Transmit::S1 { until: at }) && control.sent < at || !(control.transmit is S1)
            ==> control.with_s1_over() == control,
{
}

/// What the end of S1 leads to. Before the call is connected, and in an
/// exchange that this end started or that ended less than a second ago, this
/// end trains from it, sending S1 back first where it has not. Otherwise the
/// far end asks for an exchange, and its dibits are waited for.
pub proof fn law_what_the_end_of_s1_leads_to(control: Control)
    requires
        control.valid(),
    ensures
        ({
            let next = control.after_s1();
            let reply = control.s1_sent_until is Some && control.sent < control.s1_sent_until->0 + 8000;
            let trains = !control.connected || control.exchange is Initiated || control.exchange == Exchange::Idle
                && reply;
            &&& control.trains_on_s1() == trains
            &&& trains ==> next.speed == Some(Speed::Trained { t0: control.sent, rate: None }) && next.exchange
                == Exchange::Idle && next.changed_at is None && !next.ready && next.ready_ones == 0
            &&& trains && !control.connected && control.s1_sent_until is None ==> next.transmit
                == control.sending_s1().transmit
            &&& trains && (control.connected || control.s1_sent_until is Some) ==> next.transmit == control.transmit
            &&& !trains ==> next.exchange == Exchange::Answering && next.speed == control.speed && next.transmit
                == control.transmit && !next.ready && next.ready_ones == 0
            &&& next.heard_dibits == RateDibits::fresh()
        }),
{
    reveal(Control::after_s1);
}

/// Training decides on the rate 450 ms after S1 by the dibits heard, changes
/// to it after 600 ms, and is ready for data 200 ms later, once 32 ones have
/// come at the new rate.
pub proof fn law_training_keeps_its_times(control: Control, t0: usize, rate: Rate, at: usize)
    requires
        control.valid(),
    ensures
        control.speed == Some(Speed::Trained { t0, rate: None }) && control.exchange == Exchange::Idle && control.sent
            >= t0 + 3600 ==> control.decides() == Some(control.heard_dibits.spec_rate())
            && control.with_rate_decided().speed == Some(
            Speed::Trained { t0, rate: Some(control.heard_dibits.spec_rate()) },
        ),
        control.speed == Some(Speed::Trained { t0, rate: None }) && control.sent < t0 + 3600 ==> control.decides()
            is None,
        control.exchange != Exchange::Idle ==> control.decides() is None,
        control.decides() is None ==> control.with_rate_decided() == control,
        control.speed == Some(Speed::Trained { t0, rate: Some(rate) }) && control.exchange == Exchange::Idle
            && control.changed_at is None && control.sent >= t0 + 4800 ==> {
            let next = control.with_rate_changed();
            &&& next.changed_at == Some(control.sent) && next.rate == rate
            &&& rate == Rate::Bps2400 ==> next.transmit == Transmit::Fast
            &&& rate == Rate::Bps1200 ==> next.transmit == Transmit::Slow
            &&& next.dibit.first && next.dibit.second
        },
        control.speed == Some(Speed::Trained { t0, rate: Some(rate) }) && (control.sent < t0 + 4800
            || control.changed_at is Some || control.exchange != Exchange::Idle) ==> control.with_rate_changed()
            == control,
        control.speed == Some(Speed::Trained { t0, rate: Some(rate) }) && control.changed_at == Some(at)
            && control.exchange == Exchange::Idle && !control.ready && control.ready_ones == 32 && control.sent >= at
            + 1600 ==> control.with_data_ready().ready && control.with_data_ready().s1_sent_until is None,
        control.speed == Some(Speed::Trained { t0, rate: Some(rate) }) && control.changed_at == Some(at)
            && (control.ready_ones < 32 || control.sent < at + 1600) ==> control.with_data_ready() == control,
        control.speed == Some(Speed::Slow { data_at: at }) && control.sent >= at ==> control.with_data_ready().ready,
        control.speed == Some(Speed::Slow { data_at: at }) && control.sent < at ==> control.with_data_ready() == control,
{
}

/// Equalisation lost for 300 ms of data at 2400 bit/s starts a retrain, or
/// within 10 s of the last asks for 1200 bit/s. Nothing lost starts nothing.
pub proof fn law_lost_equalisation_retrains(control: Control, lost: bool, since: usize)
    requires
        control.valid(),
    ensures
        ({
            let next = control.watched(lost);
            let soon = control.retrained_at is Some && control.sent - control.retrained_at->0 < 80_000;
            &&& !lost || !control.is_fast_data() ==> next == (Control { lost_since: None, ..control })
            &&& lost && control.is_fast_data() && control.lost_since is None ==> next.lost_since == Some(control.sent)
                && next.exchange == control.exchange
            &&& lost && control.is_fast_data() && control.lost_since == Some(since) && control.sent - since < 2400
                ==> next == control
            &&& lost && control.is_fast_data() && control.lost_since == Some(since) && control.sent - since >= 2400
                && soon ==> next.exchange is Initiated && next.dibit.spec_rate() == Rate::Bps1200
            &&& lost && control.is_fast_data() && control.lost_since == Some(since) && control.sent - since >= 2400
                && !soon ==> next.exchange is Initiated && next.dibit.spec_rate() == Rate::Bps2400
            &&& control.is_fast_data() <==> control.ready && control.speed is Some && control.speed->0 is Trained
                && control.speed->0->rate == Some(Rate::Bps2400)
        }),
{
}

/// The same dibit 32 times in a row, while this end answers, is the rate asked
/// for: S1 and the dibit go back, and this end trains. Data at 1200 bit/s
/// comes in dibits, in training only after 32 ones.
pub proof fn law_dibits_ask_and_carry_data(control: Control, line: Dibit, descrambled: Dibit, bit: bool)
    requires
        control.valid(),
    ensures
        ({
            let trained = control.speed is Some && control.speed->0 is Trained;
            let asked = trained && control.exchange == Exchange::Answering && control.heard_dibits.after(
                descrambled,
            ).run >= 32;
            let next = control.after_slow_dibit(line, descrambled);
            &&& control.asked(descrambled) == asked
            &&& asked ==> next.dibit.spec_rate() == descrambled.spec_rate() && next.transmit
                == control.sending_s1().transmit && next.speed == Some(Speed::Trained { t0: control.sent, rate: None })
                && next.exchange == Exchange::Idle
            &&& asked ==> control.slow_data(descrambled).len() == 0
            &&& trained && !asked ==> next.heard_dibits == control.heard_dibits.after(descrambled) && next.transmit
                == control.transmit
            &&& control.speed is None ==> control.slow_data(descrambled).len() == 0
            &&& control.speed is Some && control.speed->0 is Slow ==> next == control
            &&& control.speed is Some && control.speed->0 is Slow && (control.role == Role::Originate || control.ready)
                ==> control.slow_data(descrambled) == seq![descrambled.first, descrambled.second]
            &&& control.speed is Some && control.speed->0 is Slow && control.role == Role::Answer && !control.ready
                ==> control.slow_data(descrambled).len() == 0
            &&& control.ready_ones >= 32 ==> control.ready_data(bit) == seq![bit] && control.after_ready_bit(bit)
                == control
            &&& control.ready_ones < 32 ==> control.ready_data(bit).len() == 0
            &&& control.ready_ones < 32 && bit ==> control.after_ready_bit(bit).ready_ones == control.ready_ones + 1
            &&& control.ready_ones < 32 && !bit ==> control.after_ready_bit(bit).ready_ones == 0
        }),
{
    reveal(Control::after_slow_dibit);
}

/// What is on the line: silence, ones as they are, S1 as pairs of zeros and
/// of ones, and scrambled bits, which are data once it may be sent, and else
/// the dibit that names the rate, or ones at 2400 bit/s.
pub proof fn law_what_is_on_the_line(pump: V22bis)
    ensures
        ({
            let control = pump.spec_control();
            let data = control.ready && pump.queued().len() > 0;
            &&& control.transmit == Transmit::Silence ==> pump.line_bit() is None
            &&& control.transmit == Transmit::UnscrambledOnes ==> pump.line_bit() == Some(true)
            &&& control.transmit is S1 ==> pump.line_bit() == Some(control.s1_phase == 2 || control.s1_phase > 2)
                && pump.enters() is None
            &&& (control.transmit == Transmit::Slow || control.transmit == Transmit::Fast) && data ==> pump.enters()
                == Some(pump.queued()[0])
            &&& control.transmit == Transmit::Slow && !data && control.s1_phase % 2 == 0 ==> pump.enters() == Some(
                control.dibit.first,
            )
            &&& control.transmit == Transmit::Slow && !data && control.s1_phase % 2 == 1 ==> pump.enters() == Some(
                control.dibit.second,
            )
            &&& control.transmit == Transmit::Fast && !data ==> pump.enters() == Some(true)
            &&& control.transmit == Transmit::Slow || control.transmit == Transmit::Fast ==> pump.line_bit() == Some(
                pump.scrambling().out(pump.enters()->0),
            )
            &&& pump.takes_fast_bits() <==> control.spec_trained_rate() == Some(Rate::Bps2400)
            &&& control.speed is Some && control.speed->0 is Trained && control.rate == Rate::Bps2400
                ==> control.spec_bit_rate() == 2400
            &&& control.speed is None || control.speed->0 is Slow || control.rate == Rate::Bps1200
                ==> control.spec_bit_rate() == 1200
        }),
{
}

/// A retrain can be asked for once data has come at a trained rate, and asks
/// for 2400 bit/s. An S1 within 1 s of the end of ours is the reply to it.
pub proof fn law_a_retrain_asks_for_2400(control: Control, until: usize)
    ensures
        control.connected && control.speed is Some && control.speed->0 is Trained ==> control.retrained()
            == control.initiating(Rate::Bps2400),
        !control.connected ==> control.retrained() == control,
        control.speed is None || !(control.speed->0 is Trained) ==> control.retrained() == control,
        control.s1_sent_until == Some(until) ==> (control.hears_a_reply() <==> control.sent < until + 8000),
        control.s1_sent_until is None ==> !control.hears_a_reply(),
{
}

/// Received data flows at 1200 bit/s to the call modem from the start, and to
/// the answer modem once it is ready, and at a trained rate after 32 ones.
pub proof fn law_when_received_data_flows(control: Control)
    ensures
        control.speed is None ==> !control.spec_receiving(),
        control.speed is Some && control.speed->0 is Slow ==> (control.spec_receiving() <==> control.role is Originate
            || control.ready),
        control.speed is Some && control.speed->0 is Trained ==> (control.spec_receiving() <==> control.exchange is Idle
            && control.speed->0->rate is Some && control.ready_ones >= 32),
{
}

} // verus!

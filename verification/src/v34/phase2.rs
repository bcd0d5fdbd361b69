//! Phase 2 of § 11.2, as its error-free procedures give it: INFO0, the round
//! trip delay from the phase reversals of tones A and B, line probing with
//! L1 and L2, and INFO1, which fixes the symbol rate and carrier each way.
//! Phase 2 of V.90 (§ 9.2/V.90) is the same, with the digital modem in the
//! part of the call modem and its own INFO0d and INFO1a.

use crate::pump::{Role, CLOCK_LIMIT};
use crate::v34::info::{
    completes, sequence_len, slid, window_after, Deframer, Info, Info0, Info1a, Info1c, Probe,
    TransmitClock,
};
use crate::v34::rates::{spec_probe, Band};
use crate::v34::SymbolRate;
use crate::v90::info::{Info0d, Info1a as PcmInfo1a};
use crate::v90::ucode::Law;
use vstd::prelude::*;

verus! {

/// § 11.1: 75 ms of silence after CJ.
pub const CJ_SILENCE: usize = 600;

/// § 11.5: 70 ms of silence before the tone of a retrain.
pub const RETRAIN_SILENCE: usize = 560;

/// § 11.2.1: a reversal answers one 40 ms after it arrives.
pub const ANSWER_DELAY: usize = 320;

/// § 11.2.1: each tone goes on 10 ms after its reversal.
pub const TAIL: usize = 80;

/// § 11.2.1.2.3 and § 11.2.1.2.6: tone A for at least 50 ms first.
pub const TONE_FIRST: usize = 400;

/// 150 ms past the reversal, not 10: slmodemd hears silence sooner as a restart.
pub const HELD_TAIL: usize = 1200;

/// L1 lasts 160 ms.
pub const L1_SAMPLES: usize = 1280;

/// § 11.2.1.1.7 and § 11.2.1.2.6: L2 for at most 550 ms and a round trip.
pub const L2_MOST: usize = 4400;

/// L2 is measured from 20 ms in, for 400 ms, within the 500 ms of § 11.2.1.1.5.
pub const L2_SETTLE: usize = 160;

pub const L2_MEASURED: usize = 3200;

/// The call modem listens for tone A again only after this much of its L2.
pub const L2_LEAST: usize = 800;

/// INFO flips its carrier on each 1, so its fill bits must not pass for tone A's reversal.
pub const AFTER_INFO: usize = 160;

/// § 8.2.3.2/V.90: UINFO above 66.
pub const LEAST_UINFO: u8 = 67;

/// Bits 29:32 of INFO0d: the nominal power in dB below -6 dBm0.
pub const NOMINAL_STEPS: u8 = 7;

/// Bits 33:37 of INFO0d: -12 dBm0, the limit on V.90 in the United States.
pub const MAX_POWER_STEPS: u8 = 23;

/// One direction of the call as phase 2 left it.
#[derive(Debug, Clone, Copy, PartialEq, Eq, Structural)]
pub struct Direction {
    pub symbol_rate: SymbolRate,
    pub high_carrier: bool,
    pub pre_emphasis: u8,
    /// In multiples of 2400 bit/s, as probing judged it.
    pub max_rate: u8,
}

impl Direction {
    /// What a probe asks for at a symbol rate.
    pub open spec fn asked(symbol_rate: SymbolRate, probe: Probe) -> Self {
        Self {
            symbol_rate,
            high_carrier: probe.high_carrier,
            pre_emphasis: probe.pre_emphasis,
            max_rate: probe.max_rate,
        }
    }

    fn from_probe(symbol_rate: SymbolRate, probe: Probe) -> (direction: Self)
        ensures
            direction == Self::asked(symbol_rate, probe),
    {
        Self {
            symbol_rate,
            high_carrier: probe.high_carrier,
            pre_emphasis: probe.pre_emphasis,
            max_rate: probe.max_rate,
        }
    }
}

/// What phase 2 settled.
#[derive(Debug, Clone, Copy, PartialEq, Eq)]
pub struct Outcome {
    pub transmit: Direction,
    pub receive: Direction,
    /// In samples.
    pub round_trip: usize,
    pub far: Info0,
}

/// What phase 2 of V.90 settled.
#[derive(Debug, Clone, Copy, PartialEq, Eq)]
pub struct PcmOutcome {
    /// From the analogue modem to the digital modem.
    pub upstream: Direction,
    /// The Ucode of the two points that the digital modem trains with.
    pub uinfo: u8,
    /// In samples.
    pub round_trip: usize,
    /// The far INFO0, or the V.34 part of the far INFO0d.
    pub far: Info0,
    /// The digital modem's INFO0d.
    pub digital: Info0d,
}

/// Which INFO sequences phase 2 exchanges.
#[derive(Debug, Clone, Copy, PartialEq, Eq, Structural)]
pub enum Mode {
    V34,
    Digital,
    Analogue,
}

pub open spec fn spec_own_info0() -> Info0 {
    Info0 {
        supports_2743: true,
        supports_2800: true,
        supports_3429: true,
        low_carrier_3000: true,
        high_carrier_3000: true,
        low_carrier_3200: true,
        high_carrier_3200: true,
        allows_3429: true,
        reduces_power: false,
        rate_difference: 0,
        cme: false,
        constellation_1664: true,
        clock: TransmitClock::Internal,
        acknowledge: false,
    }
}

/// What this modem says of itself in INFO0.
#[must_use]
pub fn own_info0() -> (info: Info0)
    ensures
        info == spec_own_info0(),
{
    Info0 {
        supports_2743: true,
        supports_2800: true,
        supports_3429: true,
        low_carrier_3000: true,
        high_carrier_3000: true,
        low_carrier_3200: true,
        high_carrier_3200: true,
        allows_3429: true,
        reduces_power: false,
        rate_difference: 0,
        cme: false,
        constellation_1664: true,
        clock: TransmitClock::Internal,
        acknowledge: false,
    }
}

pub open spec fn spec_own_info0d() -> Info0d {
    Info0d {
        v34: spec_own_info0(),
        nominal_power: NOMINAL_STEPS,
        max_power: MAX_POWER_STEPS,
        power_at_codec: true,
        law: Law::A,
        upstream_3429: true,
    }
}

/// What this modem says of itself in INFO0d.
#[must_use]
pub fn own_info0d() -> (info: Info0d)
    ensures
        info == spec_own_info0d(),
{
    Info0d {
        v34: own_info0(),
        nominal_power: NOMINAL_STEPS,
        max_power: MAX_POWER_STEPS,
        power_at_codec: true,
        law: Law::A,
        upstream_3429: true,
    }
}

/// Whether both ends have a symbol rate.
pub open spec fn spec_shared(rate: SymbolRate, far: Info0) -> bool {
    match rate {
        SymbolRate::S2743 => far.supports_2743,
        SymbolRate::S2800 => far.supports_2800,
        SymbolRate::S3429 => far.supports_3429 && far.allows_3429,
        _ => true,
    }
}

fn shared(rate: SymbolRate, far: &Info0) -> (shared: bool)
    ensures
        shared == spec_shared(rate, *far),
{
    match rate {
        SymbolRate::S2743 => far.supports_2743,
        SymbolRate::S2800 => far.supports_2800,
        SymbolRate::S3429 => far.supports_3429 && far.allows_3429,
        _ => true,
    }
}

/// Bits 15 to 18 of INFO0 say which carriers the far transmitter may use.
pub open spec fn spec_far_carriers(rate: SymbolRate, far: Info0) -> Seq<bool> {
    match rate {
        SymbolRate::S3000 => seq![far.low_carrier_3000, far.high_carrier_3000],
        SymbolRate::S3200 => seq![far.low_carrier_3200, far.high_carrier_3200],
        _ => seq![true, true],
    }
}

fn far_carriers(rate: SymbolRate, far: &Info0) -> (carriers: [bool; 2])
    ensures
        carriers@ == spec_far_carriers(rate, *far),
{
    let carriers = match rate {
        SymbolRate::S3000 => [far.low_carrier_3000, far.high_carrier_3000],
        SymbolRate::S3200 => [far.low_carrier_3200, far.high_carrier_3200],
        _ => [true, true],
    };
    assert(carriers@ =~= spec_far_carriers(rate, *far));
    carriers
}

/// What line probing measured: the bands of each symbol rate, the low
/// carrier first, and the frequency offset in 0.02 Hz.
#[derive(Debug, Clone, Copy, PartialEq, Eq)]
pub struct Measured {
    pub bands: [[Band; 2]; 6],
    pub offset: Option<i16>,
}

#[derive(Debug, Clone, Copy, PartialEq, Eq, Structural)]
pub enum Step {
    SendInfo0,
    /// Answer: tone A, waiting for the call's INFO0 and tone B.
    ToneA,
    /// Waiting for the far reversal that answers ours.
    AwaitReply { ours: usize },
    /// Answer: L1 and L2 until tone B.
    Probe,
    /// Call: tone B, waiting for the reversal of § 11.2.1.1.3.
    ToneB,
    /// Answer: tone A, reversed once, until the far reversal that starts its L1 and L2.
    AwaitProbe { reversed: bool },
    Measure { from: usize },
    /// The answer waits for the call's INFO1; the call for the reversal before its L1.
    AfterProbe,
    /// Call: L1 and L2 until tone A.
    ProbeFar,
    SendInfo1,
    AwaitInfo1a,
    Done,
}

#[derive(Debug, Clone, Copy, PartialEq, Eq, Structural)]
pub enum Tx {
    Silence,
    Info,
    Tone,
    L1,
    L2,
}

/// How far phase 2 has come.
#[derive(Debug, Clone, Copy, PartialEq, Eq)]
pub struct Progress {
    pub role: Role,
    pub mode: Mode,
    pub step: Step,
    pub tx: Tx,
    pub tx_until: Option<usize>,
    /// The samples sent.
    pub sent: usize,
    /// The samples heard.
    pub heard: usize,
    pub tone_from: usize,
    pub l2_from: usize,
    pub far: Option<Info0>,
    pub far_info0d: Option<Info0d>,
    pub far_at: usize,
    pub round_trip: usize,
    pub measured: Option<Measured>,
    pub outcome: Option<Outcome>,
    pub pcm_outcome: Option<PcmOutcome>,
}

/// What a transmitter does besides, with the next sample.
pub struct Turn {
    pub progress: Progress,
    /// The tone reverses after so many samples.
    pub reverse_after: Option<int>,
    /// INFO1 of the call modem is sent.
    pub sends_info1: bool,
}

pub open spec fn later(a: int, b: int) -> int {
    if a < b {
        b
    } else {
        a
    }
}

impl Progress {
    pub open spec fn valid(self) -> bool {
        &&& self.sent <= CLOCK_LIMIT
        &&& self.heard <= CLOCK_LIMIT
        &&& self.tone_from <= self.sent
        &&& self.l2_from <= self.sent
        &&& self.far_at <= CLOCK_LIMIT
        &&& self.round_trip <= CLOCK_LIMIT
        &&& match self.step {
            Step::AwaitReply { ours } => ours <= CLOCK_LIMIT + ANSWER_DELAY,
            Step::Measure { from } => from <= CLOCK_LIMIT + TAIL + L1_SAMPLES + L2_SETTLE,
            _ => true,
        }
    }

    pub open spec fn spec_new(role: Role, mode: Mode) -> Self {
        Self {
            role,
            mode,
            step: Step::SendInfo0,
            tx: Tx::Silence,
            tx_until: Some(CJ_SILENCE),
            sent: 0,
            heard: 0,
            tone_from: 0,
            l2_from: 0,
            far: None,
            far_info0d: None,
            far_at: 0,
            round_trip: 0,
            measured: None,
            outcome: None,
            pcm_outcome: None,
        }
    }

    fn new(role: Role, mode: Mode) -> (progress: Self)
        ensures
            progress == Self::spec_new(role, mode),
            progress.valid(),
    {
        Self {
            role,
            mode,
            step: Step::SendInfo0,
            tx: Tx::Silence,
            tx_until: Some(CJ_SILENCE),
            sent: 0,
            heard: 0,
            tone_from: 0,
            l2_from: 0,
            far: None,
            far_info0d: None,
            far_at: 0,
            round_trip: 0,
            measured: None,
            outcome: None,
            pcm_outcome: None,
        }
    }

    /// Phase 2 again, from the tones, with the far INFO0 heard before.
    pub open spec fn retraining(role: Role, mode: Mode, far: Info0) -> Self {
        Self {
            far: Some(far),
            step: match role {
                Role::Answer => Step::ToneA,
                Role::Originate => Step::ToneB,
            },
            tx_until: Some(RETRAIN_SILENCE),
            ..Self::spec_new(role, mode)
        }
    }

    pub open spec fn starting(self, tx: Tx, until: Option<usize>) -> Self {
        Self {
            tone_from: if tx is Tone && !(self.tx is Tone) {
                self.sent
            } else {
                self.tone_from
            },
            l2_from: if tx is L2 {
                self.sent
            } else {
                self.l2_from
            },
            tx,
            tx_until: until,
            ..self
        }
    }

    fn start(&mut self, tx: Tx, until: Option<usize>)
        requires
            old(self).valid(),
        ensures
            final(self).valid(),
            *final(self) == old(self).starting(tx, until),
    {
        if matches!(tx, Tx::Tone) && !matches!(self.tx, Tx::Tone) {
            self.tone_from = self.sent;
        }
        if matches!(tx, Tx::L2) {
            self.l2_from = self.sent;
        }
        self.tx = tx;
        self.tx_until = until;
    }

    /// The tone reverses at sample `at`, and stops `TAIL` later.
    pub open spec fn reversing_at(self, at: int) -> Self {
        self.starting(Tx::Tone, Some((later(at, self.sent as int) + TAIL) as usize))
    }

    pub open spec fn reverses_after(self, at: int) -> int {
        later(at, self.sent as int) - self.sent
    }

    /// Reverses the tone at sample `at`, and stops it `TAIL` later.
    fn reverse_at(&mut self, at: usize) -> (after: usize)
        requires
            old(self).valid(),
            at <= CLOCK_LIMIT + ANSWER_DELAY,
        ensures
            final(self).valid(),
            *final(self) == old(self).reversing_at(at as int),
            after == old(self).reverses_after(at as int),
    {
        let from = if at < self.sent {
            self.sent
        } else {
            at
        };
        let after = from - self.sent;
        self.start(Tx::Tone, Some(from + TAIL));
        after
    }

    /// The step that measures the far L2, once its first reversal was at `at`.
    pub open spec fn measuring_from(self, at: int) -> Self {
        Self {
            step: Step::Measure { from: (at + TAIL + L1_SAMPLES + L2_SETTLE) as usize },
            ..self
        }
    }

    /// What probing asks of the far transmitter at a symbol rate.
    pub open spec fn spec_probe_for(self, rate: SymbolRate) -> Probe {
        match (self.measured, self.far) {
            (Some(measured), Some(far)) => if spec_shared(rate, far) {
                spec_probe(
                    measured.bands@[rate.spec_index() as int]@,
                    spec_far_carriers(rate, far),
                )
            } else {
                Probe { high_carrier: false, pre_emphasis: 0, max_rate: 0 }
            },
            _ => Probe { high_carrier: false, pre_emphasis: 0, max_rate: 0 },
        }
    }

    /// What probing asks of the far transmitter at a symbol rate.
    #[must_use]
    pub fn probe_for(&self, rate: SymbolRate) -> (probe: Probe)
        ensures
            probe == self.spec_probe_for(rate),
    {
        match (self.measured, self.far) {
            (Some(measured), Some(far)) => {
                if !shared(rate, &far) {
                    return Probe::default();
                }
                crate::v34::rates::probe(
                    measured.bands[rate.index() as usize],
                    far_carriers(rate, &far),
                )
            },
            _ => Probe::default(),
        }
    }

    pub open spec fn spec_offset(self) -> Option<i16> {
        match self.measured {
            Some(measured) => measured.offset,
            None => None,
        }
    }

    fn offset(&self) -> (offset: Option<i16>)
        ensures
            offset == self.spec_offset(),
    {
        match self.measured {
            Some(measured) => measured.offset,
            None => None,
        }
    }

    /// INFO1 of the call modem, from what it has measured.
    pub open spec fn is_info1(self, info: Info1c) -> bool {
        &&& info.min_power_reduction == 0
        &&& info.extra_power_reduction == 0
        &&& info.md_length == 0
        &&& info.frequency_offset == self.spec_offset()
        &&& forall|rate: SymbolRate|
            info.probes@[rate.spec_index() as int] == #[trigger] self.spec_probe_for(rate)
    }

    fn info1(&self) -> (info: Info1c)
        ensures
            self.is_info1(info),
    {
        let info = Info1c {
            min_power_reduction: 0,
            extra_power_reduction: 0,
            md_length: 0,
            probes: [
                self.probe_for(SymbolRate::S2400),
                self.probe_for(SymbolRate::S2743),
                self.probe_for(SymbolRate::S2800),
                self.probe_for(SymbolRate::S3000),
                self.probe_for(SymbolRate::S3200),
                self.probe_for(SymbolRate::S3429),
            ],
            frequency_offset: self.offset(),
        };
        assert forall|rate: SymbolRate| info.probes@[rate.spec_index() as int]
            == #[trigger] self.spec_probe_for(rate) by {
            match rate {
                SymbolRate::S2400 => {},
                SymbolRate::S2743 => {},
                SymbolRate::S2800 => {},
                SymbolRate::S3000 => {},
                SymbolRate::S3200 => {},
                SymbolRate::S3429 => {},
            }
        }
        info
    }

    pub open spec fn sending_info1(self) -> Self {
        Self { step: Step::SendInfo1, ..self.starting(Tx::Info, None) }
    }

    fn send_info1(&mut self) -> (info: Info1c)
        requires
            old(self).valid(),
        ensures
            final(self).valid(),
            *final(self) == old(self).sending_info1(),
            old(self).is_info1(info),
    {
        let info = self.info1();
        self.start(Tx::Info, None);
        self.step = Step::SendInfo1;
        info
    }

    /// What follows a segment that ends by the clock.
    pub open spec fn segment_ends(self) -> Turn {
        let (tx, until) = match (self.step, self.tx) {
            (Step::SendInfo0, Tx::Silence) => (Tx::Info, None),
            (Step::ToneA | Step::ToneB, Tx::Silence) => (Tx::Tone, None),
            (Step::Probe, Tx::L2) => (Tx::Tone, None),
            (Step::Probe | Step::ProbeFar, Tx::Tone) => (
                Tx::L1,
                Some((self.sent + L1_SAMPLES) as usize),
            ),
            (Step::Probe | Step::ProbeFar, Tx::L1) => (
                Tx::L2,
                Some((self.sent + L2_MOST + self.round_trip) as usize),
            ),
            _ => (Tx::Silence, None::<usize>),
        };
        if self.step is ProbeFar && self.tx is L2 {
            Turn { progress: self.sending_info1(), reverse_after: None, sends_info1: true }
        } else {
            Turn { progress: self.starting(tx, until), reverse_after: None, sends_info1: false }
        }
    }

    fn segment_ended(&mut self) -> (info: Option<Info1c>)
        requires
            old(self).valid(),
        ensures
            final(self).valid(),
            *final(self) == old(self).segment_ends().progress,
            (info is Some) == old(self).segment_ends().sends_info1,
            match info {
                Some(info) => old(self).is_info1(info),
                None => true,
            },
    {
        let sent = self.sent;
        let (tx, until): (Tx, Option<usize>) = match (self.step, self.tx) {
            (Step::SendInfo0, Tx::Silence) => (Tx::Info, None),
            (Step::ToneA | Step::ToneB, Tx::Silence) => (Tx::Tone, None),
            (Step::Probe, Tx::L2) => (Tx::Tone, None),
            (Step::Probe | Step::ProbeFar, Tx::Tone) => (Tx::L1, Some(sent + L1_SAMPLES)),
            (Step::Probe | Step::ProbeFar, Tx::L1) => (
                Tx::L2,
                Some(sent + L2_MOST + self.round_trip),
            ),
            (Step::ProbeFar, Tx::L2) => {
                return Some(self.send_info1());
            },
            _ => (Tx::Silence, None),
        };
        self.start(tx, until);
        None
    }

    /// How many of the next samples are all of one segment, at most `room`.
    pub open spec fn spec_segment(self, room: int) -> int {
        match self.tx_until {
            Some(until) => if until <= self.sent {
                0
            } else if until - self.sent < room {
                until - self.sent
            } else {
                room
            },
            None => room,
        }
    }

    fn segment(&self, room: usize) -> (length: usize)
        ensures
            length == self.spec_segment(room as int),
    {
        match self.tx_until {
            Some(until) => if until <= self.sent {
                0
            } else if until - self.sent < room {
                until - self.sent
            } else {
                room
            },
            None => room,
        }
    }

    /// After `length` samples.
    pub open spec fn with_sent(self, length: int) -> Self {
        Self { sent: (self.sent + length) as usize, ..self }
    }

    pub open spec fn segment_over(self) -> bool {
        match self.tx_until {
            Some(until) => self.sent >= until,
            None => false,
        }
    }

    /// INFO has been sent.
    pub open spec fn info_over(self) -> Self {
        match self.step {
            Step::SendInfo0 => Self {
                step: match self.role {
                    Role::Answer => Step::ToneA,
                    Role::Originate => Step::ToneB,
                },
                ..self.starting(Tx::Tone, None)
            },
            Step::SendInfo1 => Self {
                step: match self.role {
                    Role::Answer => Step::Done,
                    Role::Originate => Step::AwaitInfo1a,
                },
                ..self.starting(Tx::Silence, None)
            },
            _ => self.starting(Tx::Silence, None),
        }
    }

    fn info_sent(&mut self)
        requires
            old(self).valid(),
        ensures
            final(self).valid(),
            *final(self) == old(self).info_over(),
    {
        match self.step {
            Step::SendInfo0 => {
                self.start(Tx::Tone, None);
                self.step = match self.role {
                    Role::Answer => Step::ToneA,
                    Role::Originate => Step::ToneB,
                };
            },
            Step::SendInfo1 => {
                self.start(Tx::Silence, None);
                self.step = match self.role {
                    Role::Answer => Step::Done,
                    Role::Originate => Step::AwaitInfo1a,
                };
            },
            _ => self.start(Tx::Silence, None),
        }
    }
}

impl Progress {
    /// A reversal counts once INFO0 has come, and its fill is over.
    pub open spec fn counts(self, at: int) -> bool {
        self.far is Some && at >= self.far_at + AFTER_INFO
    }

    pub open spec fn stays(self) -> Turn {
        Turn { progress: self, reverse_after: None, sends_info1: false }
    }

    /// § 11.2.1.2.3: tone A reverses, once tone B has been there with it for
    /// long enough.
    pub open spec fn after_tone_a(self, present: bool) -> Turn {
        if self.far is Some && self.tx is Tone && present && self.sent >= self.tone_from
            + TONE_FIRST {
            Turn {
                progress: Self { step: Step::AwaitReply { ours: self.sent }, ..self },
                reverse_after: Some(0),
                sends_info1: false,
            }
        } else {
            self.stays()
        }
    }

    /// § 11.2.1.1.3: tone B answers the reversal of tone A.
    pub open spec fn after_tone_b(self, reversal: Option<int>) -> Turn {
        match reversal {
            Some(at) => {
                let ours = at + ANSWER_DELAY;
                Turn {
                    progress: Self {
                        tx_until: Some((later(ours, self.sent as int) + HELD_TAIL) as usize),
                        step: Step::AwaitReply { ours: ours as usize },
                        ..self.reversing_at(ours)
                    },
                    reverse_after: Some(self.reverses_after(ours)),
                    sends_info1: false,
                }
            },
            None => self.stays(),
        }
    }

    /// The round trip is what the reply took beyond the delay it is sent
    /// with.
    pub open spec fn after_reply(self, ours: int, reversal: Option<int>) -> Turn {
        match reversal {
            Some(at) => if at > ours {
                let timed = Self {
                    round_trip: (later(at, ours + ANSWER_DELAY) - (ours + ANSWER_DELAY)) as usize,
                    ..self
                };
                match self.role {
                    Role::Answer => Turn {
                        progress: Self {
                            step: Step::Probe,
                            ..timed.reversing_at(at + ANSWER_DELAY)
                        },
                        reverse_after: Some(timed.reverses_after(at + ANSWER_DELAY)),
                        sends_info1: false,
                    },
                    Role::Originate => timed.measuring_from(at).stays(),
                }
            } else {
                self.stays()
            },
            None => self.stays(),
        }
    }

    /// § 11.2.1.2.6: tone A reverses once more, and the call's reversal
    /// starts its L1 and L2.
    pub open spec fn after_probe_tone(self, reversed: bool, reversal: Option<int>) -> Turn {
        let reverses = !reversed && self.sent >= self.tone_from + TONE_FIRST;
        let turned = if reverses {
            Self {
                tx_until: Some((self.sent + HELD_TAIL) as usize),
                step: Step::AwaitProbe { reversed: true },
                ..self
            }
        } else {
            self
        };
        Turn {
            progress: match reversal {
                Some(at) => turned.starting(Tx::Silence, None).measuring_from(at),
                None => turned,
            },
            reverse_after: if reverses {
                Some(0)
            } else {
                None
            },
            sends_info1: false,
        }
    }

    /// How phase 2 goes on, with a reversal that counts, whether the far
    /// tone is there, and what has been measured.
    pub open spec fn advanced(
        self,
        reversal: Option<int>,
        present: bool,
        measured: Option<Measured>,
    ) -> Turn {
        match self.step {
            Step::ToneA => self.after_tone_a(present),
            Step::ToneB => if self.far is Some {
                self.after_tone_b(reversal)
            } else {
                self.stays()
            },
            Step::AwaitReply { ours } => self.after_reply(ours as int, reversal),
            Step::Probe => if self.tx is L2 && present {
                Self {
                    step: Step::AwaitProbe { reversed: false },
                    ..self.starting(Tx::Tone, None)
                }.stays()
            } else {
                self.stays()
            },
            Step::AwaitProbe { reversed } => self.after_probe_tone(reversed, reversal),
            Step::Measure { from } => if self.heard >= from + L2_MEASURED {
                Self {
                    measured,
                    step: Step::AfterProbe,
                    ..self.starting(Tx::Tone, None)
                }.stays()
            } else {
                self.stays()
            },
            Step::AfterProbe => match (self.role, reversal) {
                (Role::Originate, Some(at)) => Turn {
                    progress: Self {
                        step: Step::ProbeFar,
                        ..self.reversing_at(at + ANSWER_DELAY)
                    },
                    reverse_after: Some(self.reverses_after(at + ANSWER_DELAY)),
                    sends_info1: false,
                },
                _ => self.stays(),
            },
            Step::ProbeFar => if self.tx is L2 && self.sent >= self.l2_from + L2_LEAST && present {
                Turn { progress: self.sending_info1(), reverse_after: None, sends_info1: true }
            } else {
                self.stays()
            },
            _ => self.stays(),
        }
    }

    fn advance(
        &mut self,
        reversal: Option<usize>,
        present: bool,
        measured: Option<Measured>,
    ) -> (does: (Option<usize>, Option<Info1c>))
        requires
            old(self).valid(),
            match reversal {
                Some(at) => at <= CLOCK_LIMIT,
                None => true,
            },
        ensures
            final(self).valid(),
            ({
                let turn = old(self).advanced(
                    match reversal {
                        Some(at) => Some(at as int),
                        None => None,
                    },
                    present,
                    measured,
                );
                &&& *final(self) == turn.progress
                &&& match (does.0, turn.reverse_after) {
                    (Some(after), Some(expected)) => after == expected,
                    (None, None) => true,
                    _ => false,
                }
                &&& (does.1 is Some) == turn.sends_info1
                &&& match does.1 {
                    Some(info) => old(self).is_info1(info),
                    None => true,
                }
            }),
    {
        match self.step {
            Step::ToneA => {
                if self.far.is_some() && matches!(self.tx, Tx::Tone) && present && self.sent
                    >= self.tone_from + TONE_FIRST {
                    self.step = Step::AwaitReply { ours: self.sent };
                    return (Some(0), None);
                }
            },
            Step::ToneB => {
                if let Some(at) = reversal {
                    if self.far.is_some() {
                        let ours = at + ANSWER_DELAY;
                        let from = if ours < self.sent {
                            self.sent
                        } else {
                            ours
                        };
                        let after = self.reverse_at(ours);
                        self.tx_until = Some(from + HELD_TAIL);
                        self.step = Step::AwaitReply { ours };
                        return (Some(after), None);
                    }
                }
            },
            Step::AwaitReply { ours } => {
                if let Some(at) = reversal {
                    if at > ours {
                        self.round_trip = if at < ours + ANSWER_DELAY {
                            0
                        } else {
                            at - (ours + ANSWER_DELAY)
                        };
                        match self.role {
                            Role::Answer => {
                                let after = self.reverse_at(at + ANSWER_DELAY);
                                self.step = Step::Probe;
                                return (Some(after), None);
                            },
                            Role::Originate => {
                                self.step = Step::Measure {
                                    from: at + TAIL + L1_SAMPLES + L2_SETTLE,
                                };
                            },
                        }
                    }
                }
            },
            Step::Probe => {
                if matches!(self.tx, Tx::L2) && present {
                    self.start(Tx::Tone, None);
                    self.step = Step::AwaitProbe { reversed: false };
                }
            },
            Step::AwaitProbe { reversed } => {
                let reverses = !reversed && self.sent >= self.tone_from + TONE_FIRST;
                if reverses {
                    self.tx_until = Some(self.sent + HELD_TAIL);
                    self.step = Step::AwaitProbe { reversed: true };
                }
                if let Some(at) = reversal {
                    self.start(Tx::Silence, None);
                    self.step = Step::Measure { from: at + TAIL + L1_SAMPLES + L2_SETTLE };
                }
                if reverses {
                    return (Some(0), None);
                }
            },
            Step::Measure { from } => {
                if self.heard >= from + L2_MEASURED {
                    self.measured = measured;
                    self.start(Tx::Tone, None);
                    self.step = Step::AfterProbe;
                }
            },
            Step::AfterProbe => {
                if let Some(at) = reversal {
                    if matches!(self.role, Role::Originate) {
                        let after = self.reverse_at(at + ANSWER_DELAY);
                        self.step = Step::ProbeFar;
                        return (Some(after), None);
                    }
                }
            },
            Step::ProbeFar => {
                if matches!(self.tx, Tx::L2) && self.sent >= self.l2_from + L2_LEAST && present {
                    let info = self.send_info1();
                    return (None, Some(info));
                }
            },
            _ => {},
        }
        (None, None)
    }
}

/// What both directions carry at a symbol rate.
pub open spec fn both_ways(progress: Progress, info1c: Info1c, rate: SymbolRate) -> u8 {
    let down = info1c.probes@[rate.spec_index() as int].max_rate;
    let up = progress.spec_probe_for(rate).max_rate;
    if down < up {
        down
    } else {
        up
    }
}

/// The best of `chosen` and `rate`: what carries more both ways, the higher
/// symbol rate of equals.
pub open spec fn better(
    progress: Progress,
    info1c: Info1c,
    far: Info0,
    chosen: SymbolRate,
    rate: SymbolRate,
) -> SymbolRate {
    if spec_shared(rate, far) && both_ways(progress, info1c, rate) >= both_ways(
        progress,
        info1c,
        chosen,
    ) {
        rate
    } else {
        chosen
    }
}

/// § 11.2.1.2.9: the symbol rate that the answer modem picks both ways.
pub open spec fn best_rate(progress: Progress, info1c: Info1c, far: Info0) -> SymbolRate {
    let r1 = better(progress, info1c, far, SymbolRate::S2400, SymbolRate::S2743);
    let r2 = better(progress, info1c, far, r1, SymbolRate::S2800);
    let r3 = better(progress, info1c, far, r2, SymbolRate::S3000);
    let r4 = better(progress, info1c, far, r3, SymbolRate::S3200);
    better(progress, info1c, far, r4, SymbolRate::S3429)
}

/// The symbol rate picked is one that both ends have, and no other of those
/// carries more both ways, nor as much at a higher symbol rate.
pub proof fn law_picks_the_best_symbol_rate(
    progress: Progress,
    info1c: Info1c,
    far: Info0,
    other: SymbolRate,
)
    ensures
        ({
            let best = best_rate(progress, info1c, far);
            &&& spec_shared(best, far)
            &&& spec_shared(other, far) ==> both_ways(progress, info1c, other) <= both_ways(
                progress,
                info1c,
                best,
            )
            &&& spec_shared(other, far) && both_ways(progress, info1c, other) == both_ways(
                progress,
                info1c,
                best,
            ) ==> other.spec_index() <= best.spec_index()
        }),
{
}

impl Progress {
    /// What the answer modem replies to INFO1 of the call modem.
    pub open spec fn reply_to(self, info1c: Info1c, far: Info0) -> Info1a {
        let rate = best_rate(self, info1c, far);
        Info1a {
            min_power_reduction: 0,
            extra_power_reduction: 0,
            md_length: 0,
            probe: self.spec_probe_for(rate),
            answer_to_call: rate,
            call_to_answer: rate,
            frequency_offset: self.spec_offset(),
        }
    }

    pub open spec fn decided(self, info1c: Info1c) -> Self {
        match self.far {
            Some(far) => {
                let rate = best_rate(self, info1c, far);
                let up = self.spec_probe_for(rate);
                Self {
                    step: Step::SendInfo1,
                    outcome: Some(
                        Outcome {
                            transmit: Direction::asked(
                                rate,
                                info1c.probes@[rate.spec_index() as int],
                            ),
                            receive: Direction::asked(rate, Probe { pre_emphasis: 0, ..up }),
                            round_trip: self.round_trip,
                            far,
                        },
                    ),
                    ..self.starting(Tx::Info, None)
                }
            },
            None => self,
        }
    }

    fn pick(&self, info1c: &Info1c, far: &Info0) -> (rate: SymbolRate)
        ensures
            rate == best_rate(*self, *info1c, *far),
    {
        let mut rate = SymbolRate::S2400;
        rate = self.better(info1c, far, rate, SymbolRate::S2743);
        rate = self.better(info1c, far, rate, SymbolRate::S2800);
        rate = self.better(info1c, far, rate, SymbolRate::S3000);
        rate = self.better(info1c, far, rate, SymbolRate::S3200);
        self.better(info1c, far, rate, SymbolRate::S3429)
    }

    fn better(
        &self,
        info1c: &Info1c,
        far: &Info0,
        chosen: SymbolRate,
        rate: SymbolRate,
    ) -> (best: SymbolRate)
        ensures
            best == better(*self, *info1c, *far, chosen, rate),
    {
        if shared(rate, far) && self.both(info1c, rate) >= self.both(info1c, chosen) {
            rate
        } else {
            chosen
        }
    }

    fn both(&self, info1c: &Info1c, rate: SymbolRate) -> (both: u8)
        ensures
            both == both_ways(*self, *info1c, rate),
    {
        let down = info1c.probes[rate.index() as usize].max_rate;
        let up = self.probe_for(rate).max_rate;
        if down < up {
            down
        } else {
            up
        }
    }

    /// § 11.2.1.2.9: the answer modem picks the symbol rate both ways.
    fn decide(&mut self, info1c: &Info1c) -> (reply: Option<Info1a>)
        requires
            old(self).valid(),
        ensures
            final(self).valid(),
            *final(self) == old(self).decided(*info1c),
            reply == (match old(self).far {
                Some(far) => Some(old(self).reply_to(*info1c, far)),
                None => None,
            }),
    {
        let far = match self.far {
            Some(far) => far,
            None => {
                return None;
            },
        };
        let rate = self.pick(info1c, &far);
        let down = info1c.probes[rate.index() as usize];
        let up = self.probe_for(rate);
        let reply = Info1a {
            min_power_reduction: 0,
            extra_power_reduction: 0,
            md_length: 0,
            probe: up,
            answer_to_call: rate,
            call_to_answer: rate,
            frequency_offset: self.offset(),
        };
        self.start(Tx::Info, None);
        self.step = Step::SendInfo1;
        self.outcome = Some(
            Outcome {
                transmit: Direction::from_probe(rate, down),
                receive: Direction::from_probe(rate, Probe { pre_emphasis: 0, ..up }),
                round_trip: self.round_trip,
                far,
            },
        );
        Some(reply)
    }

    /// Once INFO1a has come.
    pub open spec fn settled(self, info1a: Info1a) -> Self {
        match self.far {
            Some(far) => {
                let down = self.spec_probe_for(info1a.answer_to_call);
                Self {
                    outcome: Some(
                        Outcome {
                            transmit: Direction::asked(info1a.call_to_answer, info1a.probe),
                            receive: Direction::asked(
                                info1a.answer_to_call,
                                Probe { pre_emphasis: 0, ..down },
                            ),
                            round_trip: self.round_trip,
                            far,
                        },
                    ),
                    step: Step::Done,
                    ..self
                }
            },
            None => self,
        }
    }

    fn settle(&mut self, info1a: &Info1a)
        requires
            old(self).valid(),
        ensures
            final(self).valid(),
            *final(self) == old(self).settled(*info1a),
    {
        if let Some(far) = self.far {
            let down = self.probe_for(info1a.answer_to_call);
            self.outcome = Some(
                Outcome {
                    transmit: Direction::from_probe(info1a.call_to_answer, info1a.probe),
                    receive: Direction::from_probe(
                        info1a.answer_to_call,
                        Probe { pre_emphasis: 0, ..down },
                    ),
                    round_trip: self.round_trip,
                    far,
                },
            );
            self.step = Step::Done;
        }
    }

    /// The upstream symbol rate that carries the most, the higher of equals.
    pub open spec fn upstream_rate(digital: Info0d, info1d: Info1c) -> SymbolRate {
        let low = info1d.probes@[3].max_rate;
        let middle = info1d.probes@[4].max_rate;
        let high = info1d.probes@[5].max_rate;
        if digital.upstream_3429 && high >= middle && high >= low {
            SymbolRate::S3429
        } else if middle >= low {
            SymbolRate::S3200
        } else {
            SymbolRate::S3000
        }
    }

    pub open spec fn least_uinfo(uinfo: u8) -> u8 {
        if uinfo < LEAST_UINFO {
            LEAST_UINFO
        } else {
            uinfo
        }
    }

    /// What the analogue modem replies to INFO1d.
    pub open spec fn pcm_reply(self, digital: Info0d, info1d: Info1c, uinfo: u8) -> PcmInfo1a {
        PcmInfo1a {
            md_length: 0,
            uinfo: Self::least_uinfo(uinfo),
            upstream: Self::upstream_rate(digital, info1d),
            frequency_offset: self.spec_offset(),
        }
    }

    pub open spec fn decided_pcm(self, info1d: Info1c, uinfo: u8) -> Self {
        match (self.far, self.far_info0d) {
            (Some(far), Some(digital)) => {
                let rate = Self::upstream_rate(digital, info1d);
                Self {
                    step: Step::SendInfo1,
                    pcm_outcome: Some(
                        PcmOutcome {
                            upstream: Direction::asked(
                                rate,
                                info1d.probes@[rate.spec_index() as int],
                            ),
                            uinfo: Self::least_uinfo(uinfo),
                            round_trip: self.round_trip,
                            far,
                            digital,
                        },
                    ),
                    ..self.starting(Tx::Info, None)
                }
            },
            _ => self,
        }
    }

    /// § 9.2.2.1.9/V.90: the analogue modem picks V.90 and its upstream symbol rate.
    fn decide_pcm(&mut self, info1d: &Info1c, uinfo: u8) -> (reply: Option<PcmInfo1a>)
        requires
            old(self).valid(),
        ensures
            final(self).valid(),
            *final(self) == old(self).decided_pcm(*info1d, uinfo),
            reply == (match (old(self).far, old(self).far_info0d) {
                (Some(_), Some(digital)) => Some(old(self).pcm_reply(digital, *info1d, uinfo)),
                _ => None,
            }),
    {
        match (self.far, self.far_info0d) {
            (Some(far), Some(digital)) => {
                let low = info1d.probes[3].max_rate;
                let middle = info1d.probes[4].max_rate;
                let high = info1d.probes[5].max_rate;
                let rate = if digital.upstream_3429 && high >= middle && high >= low {
                    SymbolRate::S3429
                } else if middle >= low {
                    SymbolRate::S3200
                } else {
                    SymbolRate::S3000
                };
                let uinfo = if uinfo < LEAST_UINFO {
                    LEAST_UINFO
                } else {
                    uinfo
                };
                let up = info1d.probes[rate.index() as usize];
                let reply = PcmInfo1a {
                    md_length: 0,
                    uinfo,
                    upstream: rate,
                    frequency_offset: self.offset(),
                };
                self.start(Tx::Info, None);
                self.step = Step::SendInfo1;
                self.pcm_outcome = Some(
                    PcmOutcome {
                        upstream: Direction::from_probe(rate, up),
                        uinfo,
                        round_trip: self.round_trip,
                        far,
                        digital,
                    },
                );
                Some(reply)
            },
            _ => None,
        }
    }

    /// Once INFO1a of V.90 has come.
    pub open spec fn settled_pcm(self, info1a: PcmInfo1a) -> Self {
        match self.far {
            Some(far) => {
                let up = self.spec_probe_for(info1a.upstream);
                Self {
                    pcm_outcome: Some(
                        PcmOutcome {
                            upstream: Direction::asked(
                                info1a.upstream,
                                Probe { pre_emphasis: 0, ..up },
                            ),
                            uinfo: info1a.uinfo,
                            round_trip: self.round_trip,
                            far,
                            digital: spec_own_info0d(),
                        },
                    ),
                    step: Step::Done,
                    ..self
                }
            },
            None => self,
        }
    }

    fn settle_pcm(&mut self, info1a: PcmInfo1a)
        requires
            old(self).valid(),
        ensures
            final(self).valid(),
            *final(self) == old(self).settled_pcm(info1a),
    {
        if let Some(far) = self.far {
            let up = self.probe_for(info1a.upstream);
            self.pcm_outcome = Some(
                PcmOutcome {
                    upstream: Direction::from_probe(
                        info1a.upstream,
                        Probe { pre_emphasis: 0, ..up },
                    ),
                    uinfo: info1a.uinfo,
                    round_trip: self.round_trip,
                    far,
                    digital: own_info0d(),
                },
            );
            self.step = Step::Done;
        }
    }
}

/// Two ends that have heard each other's INFO1 settle on the same symbol
/// rate, carrier, pre-emphasis and rate for each direction.
pub proof fn law_both_ends_settle_on_the_same(call: Progress, answer: Progress, info1c: Info1c)
    requires
        call.is_info1(info1c),
        call.far is Some,
        answer.far is Some,
    ensures
        ({
            let reply = answer.reply_to(info1c, answer.far->0);
            let caller = call.settled(reply).outcome;
            let answerer = answer.decided(info1c).outcome;
            &&& caller is Some
            &&& answerer is Some
            &&& caller->0.transmit == answerer->0.receive
            &&& caller->0.receive == answerer->0.transmit
        }),
{
    let rate = best_rate(answer, info1c, answer.far->0);
    assert(info1c.probes@[rate.spec_index() as int] == call.spec_probe_for(rate));
}

/// The two ends of V.90 settle on the same upstream and the same UINFO.
pub proof fn law_both_ends_settle_on_the_same_upstream(
    digital: Progress,
    analogue: Progress,
    info1d: Info1c,
    uinfo: u8,
)
    requires
        digital.is_info1(info1d),
        digital.far is Some,
        analogue.far is Some,
        analogue.far_info0d is Some,
    ensures
        ({
            let reply = analogue.pcm_reply(analogue.far_info0d->0, info1d, uinfo);
            let one = digital.settled_pcm(reply).pcm_outcome;
            let other = analogue.decided_pcm(info1d, uinfo).pcm_outcome;
            &&& one is Some
            &&& other is Some
            &&& one->0.upstream == other->0.upstream
            &&& one->0.uinfo == other->0.uinfo
            &&& one->0.uinfo >= LEAST_UINFO
        }),
{
    let rate = Progress::upstream_rate(analogue.far_info0d->0, info1d);
    assert(info1d.probes@[rate.spec_index() as int] == digital.spec_probe_for(rate));
}

/// Where each way takes `up` and `down` samples, and the far end replies to
/// our reversal as it should, the round trip measured is what both ways take.
pub proof fn law_measures_the_round_trip(progress: Progress, ours: int, up: nat, down: nat)
    requires
        0 <= ours,
        ours + up + ANSWER_DELAY + down <= CLOCK_LIMIT,
    ensures
        progress.after_reply(ours, Some(ours + up + ANSWER_DELAY + down)).progress.round_trip == up
            + down,
{
}

/// Phase 2 goes from one step to a later one.
pub proof fn law_phase_2_goes_on(
    progress: Progress,
    reversal: Option<int>,
    present: bool,
    measured: Option<Measured>,
)
    ensures
        rank(progress.step) <= rank(progress.advanced(reversal, present, measured).progress.step),
        rank(progress.step) <= rank(progress.info_over().step),
        rank(progress.step) <= rank(progress.segment_ends().progress.step),
{
}

pub open spec fn rank(step: Step) -> int {
    match step {
        Step::SendInfo0 => 0,
        Step::ToneA | Step::ToneB => 1,
        Step::AwaitReply { .. } => 2,
        Step::Probe => 3,
        Step::AwaitProbe { reversed } => if reversed {
            5
        } else {
            4
        },
        Step::Measure { .. } => 6,
        Step::AfterProbe => 7,
        Step::ProbeFar => 8,
        Step::SendInfo1 => 9,
        Step::AwaitInfo1a => 10,
        Step::Done => 11,
    }
}

/// What a bit completes for a deframer with `window`.
pub open spec fn found<T: Info>(window: Seq<bool>, bit: bool) -> Option<T> {
    if completes(T::width(), window, seq![bit], 0) {
        T::read(slid(T::width(), window, bit).subrange(12, 12 + T::width() as int))
    } else {
        None
    }
}

/// The window of a deframer after a bit.
pub open spec fn slides<T: Info>(window: Seq<bool>, bit: bool) -> Seq<bool> {
    window_after(T::width(), window, seq![bit])
}

/// What the deframers have of each sequence.
pub struct Windows {
    pub info0: Seq<bool>,
    pub info0d: Seq<bool>,
    pub info1c: Seq<bool>,
    pub info1a: Seq<bool>,
    pub pcm_info1a: Seq<bool>,
}

/// What a bit leads to.
#[derive(Debug, Clone, Copy, PartialEq, Eq)]
pub enum Reply {
    Nothing,
    /// INFO1a of V.34 is sent.
    Info1a(Info1a),
    /// The analogue modem is to decide on UINFO for this INFO0d, and go on
    /// with this INFO1d.
    WantsUinfo(Info0d, Info1c),
}

impl Progress {
    /// Once INFO0 has come, at the end of `length` samples.
    pub open spec fn with_far(self, info0: Option<Info0>, length: int) -> Self {
        match info0 {
            Some(info0) => if self.far is None {
                Self {
                    far: Some(info0),
                    far_at: (self.heard + length) as usize,
                    ..self
                }
            } else {
                self
            },
            None => self,
        }
    }

    /// The far end, as its INFO0 or INFO0d says it.
    pub open spec fn with_info0(self, windows: Windows, bit: bool, length: int) -> Self {
        if self.mode is Analogue {
            match found::<Info0d>(windows.info0d, bit) {
                Some(info0d) => Self { far_info0d: Some(info0d), ..self }.with_far(
                    Some(info0d.v34),
                    length,
                ),
                None => self,
            }
        } else {
            self.with_far(found::<Info0>(windows.info0, bit), length)
        }
    }

    /// What the answer modem does with INFO1c.
    pub open spec fn with_info1c(self, windows: Windows, bit: bool) -> Self {
        match found::<Info1c>(windows.info1c, bit) {
            Some(info1c) => if self.role is Answer && self.step is AfterProbe && !(
            self.mode is Analogue) {
                self.decided(info1c)
            } else {
                self
            },
            None => self,
        }
    }

    /// What the call modem does with INFO1a.
    pub open spec fn with_info1a(self, windows: Windows, bit: bool) -> Self {
        match found::<Info1a>(windows.info1a, bit) {
            Some(info1a) => if self.role is Originate && self.step is AwaitInfo1a {
                self.settled(info1a)
            } else {
                self
            },
            None => self,
        }
    }

    /// What the digital modem does with INFO1a of V.90.
    pub open spec fn with_pcm_info1a(self, windows: Windows, bit: bool) -> Self {
        match found::<PcmInfo1a>(windows.pcm_info1a, bit) {
            Some(info1a) => if self.mode is Digital && self.step is AwaitInfo1a {
                self.settled_pcm(info1a)
            } else {
                self
            },
            None => self,
        }
    }

    pub open spec fn with_bit(self, windows: Windows, bit: bool, length: int) -> Self {
        self.with_info0(windows, bit, length).with_info1c(windows, bit).with_info1a(
            windows,
            bit,
        ).with_pcm_info1a(windows, bit)
    }

    /// What the answer modem replies to INFO1c, where a bit completes it.
    pub open spec fn reply(self, windows: Windows, bit: bool) -> Reply {
        match found::<Info1c>(windows.info1c, bit) {
            Some(info1c) => if self.role is Answer && self.step is AfterProbe {
                if self.mode is Analogue {
                    match (self.far, self.far_info0d) {
                        (Some(_), Some(digital)) => Reply::WantsUinfo(digital, info1c),
                        _ => Reply::Nothing,
                    }
                } else {
                    match self.far {
                        Some(far) => Reply::Info1a(self.reply_to(info1c, far)),
                        None => Reply::Nothing,
                    }
                }
            } else {
                Reply::Nothing
            },
            None => Reply::Nothing,
        }
    }
}

/// Phase 2 from either end, as far as it decides. Its user sends the signals
/// and finds the bits, reversals and levels of those that come.
#[derive(Debug)]
pub struct Phase2 {
    progress: Progress,
    info0: Deframer<Info0>,
    info0d: Deframer<Info0d>,
    info1c: Deframer<Info1c>,
    info1a: Deframer<Info1a>,
    pcm_info1a: Deframer<PcmInfo1a>,
    reversals: Vec<usize>,
}

impl Phase2 {
    pub closed spec fn spec_progress(self) -> Progress {
        self.progress
    }

    pub closed spec fn windows(self) -> Windows {
        Windows {
            info0: self.info0.window(),
            info0d: self.info0d.window(),
            info1c: self.info1c.window(),
            info1a: self.info1a.window(),
            pcm_info1a: self.pcm_info1a.window(),
        }
    }

    /// The reversals heard and not yet taken up.
    pub closed spec fn reversals(self) -> Seq<usize> {
        self.reversals@
    }

    pub closed spec fn valid(self) -> bool {
        &&& self.progress.valid()
        &&& self.info0.window().len() <= sequence_len(Info0::width())
        &&& self.info0d.window().len() <= sequence_len(Info0d::width())
        &&& self.info1c.window().len() <= sequence_len(Info1c::width())
        &&& self.info1a.window().len() <= sequence_len(Info1a::width())
        &&& self.pcm_info1a.window().len() <= sequence_len(PcmInfo1a::width())
        &&& forall|i: int|
            0 <= i < self.reversals@.len() ==> #[trigger] self.reversals@[i] <= CLOCK_LIMIT
    }

    pub open spec fn fresh(self) -> bool {
        &&& self.valid()
        &&& self.reversals() == Seq::<usize>::empty()
        &&& self.windows() == (Windows {
            info0: seq![],
            info0d: seq![],
            info1c: seq![],
            info1a: seq![],
            pcm_info1a: seq![],
        })
    }

    fn with(progress: Progress) -> (phase2: Self)
        requires
            progress.valid(),
        ensures
            phase2.fresh(),
            phase2.spec_progress() == progress,
    {
        let phase2 = Self {
            progress,
            info0: Deframer::default(),
            info0d: Deframer::default(),
            info1c: Deframer::default(),
            info1a: Deframer::default(),
            pcm_info1a: Deframer::default(),
            reversals: Vec::new(),
        };
        assert(phase2.reversals() =~= Seq::<usize>::empty());
        phase2
    }

    /// Starting at the end of CJ, with the 75 ms of silence that § 11.2.1
    /// listens through.
    #[must_use]
    pub fn new(role: Role) -> (phase2: Self)
        ensures
            phase2.fresh(),
            phase2.spec_progress() == Progress::spec_new(role, Mode::V34),
    {
        Self::with(Progress::new(role, Mode::V34))
    }

    /// Phase 2 of V.90 from the digital modem, which takes the part of the
    /// V.34 call modem.
    #[must_use]
    pub fn digital() -> (phase2: Self)
        ensures
            phase2.fresh(),
            phase2.spec_progress() == Progress::spec_new(Role::Originate, Mode::Digital),
    {
        Self::with(Progress::new(Role::Originate, Mode::Digital))
    }

    /// Phase 2 of V.90 from the analogue modem, which takes the part of the
    /// V.34 answer modem.
    #[must_use]
    pub fn analogue() -> (phase2: Self)
        ensures
            phase2.fresh(),
            phase2.spec_progress() == Progress::spec_new(Role::Answer, Mode::Analogue),
    {
        Self::with(Progress::new(Role::Answer, Mode::Analogue))
    }

    /// The INFO0 or INFO0d that begins phase 2.
    #[must_use]
    pub fn own_info(&self) -> (bits: Vec<bool>)
        ensures
            bits@ == crate::v34::info::frame_of(
                if self.spec_progress().mode is Digital {
                    spec_own_info0d().spec_fields()
                } else {
                    spec_own_info0().spec_fields()
                },
            ),
    {
        match self.progress.mode {
            Mode::Digital => own_info0d().frame(),
            _ => own_info0().frame(),
        }
    }

    /// Phase 2 again, to answer or start a retrain (§ 11.5): 70 ms of
    /// silence, then tone A or B and the rest of phase 2 from the tones, with
    /// the far INFO0 heard before.
    #[must_use]
    pub fn retrain(role: Role, far: Info0) -> (phase2: Self)
        ensures
            phase2.fresh(),
            phase2.spec_progress() == Progress::retraining(role, Mode::V34, far),
    {
        let mut progress = Progress::new(role, Mode::V34);
        progress.far = Some(far);
        progress.step = match role {
            Role::Answer => Step::ToneA,
            Role::Originate => Step::ToneB,
        };
        progress.tx_until = Some(RETRAIN_SILENCE);
        Self::with(progress)
    }

    /// Phase 2 of V.90 again from the digital modem, for a retrain
    /// (§ 9.5/V.90), with the far INFO0 heard before.
    #[must_use]
    pub fn retrain_digital(far: Info0) -> (phase2: Self)
        ensures
            phase2.fresh(),
            phase2.spec_progress() == Progress::retraining(Role::Originate, Mode::Digital, far),
    {
        let mut progress = Progress::new(Role::Originate, Mode::Digital);
        progress.far = Some(far);
        progress.step = Step::ToneB;
        progress.tx_until = Some(RETRAIN_SILENCE);
        Self::with(progress)
    }

    /// Phase 2 of V.90 again from the analogue modem, for a retrain
    /// (§ 9.5/V.90), with the far INFO0d heard before.
    #[must_use]
    pub fn retrain_analogue(far: Info0d) -> (phase2: Self)
        ensures
            phase2.fresh(),
            phase2.spec_progress() == (Progress {
                far_info0d: Some(far),
                ..Progress::retraining(Role::Answer, Mode::Analogue, far.v34)
            }),
    {
        let mut progress = Progress::new(Role::Answer, Mode::Analogue);
        progress.far = Some(far.v34);
        progress.far_info0d = Some(far);
        progress.step = Step::ToneA;
        progress.tx_until = Some(RETRAIN_SILENCE);
        Self::with(progress)
    }

    #[must_use]
    pub fn progress(&self) -> (progress: Progress)
        ensures
            progress == self.spec_progress(),
    {
        self.progress
    }

    /// What phase 2 settled, once it has.
    #[must_use]
    pub fn outcome(&self) -> (outcome: Option<Outcome>)
        ensures
            outcome == self.spec_progress().outcome,
    {
        self.progress.outcome
    }

    /// What phase 2 of V.90 settled, once it has. A digital modem whose far
    /// end picked V.34 in INFO1a has an [`Outcome`] instead.
    #[must_use]
    pub fn pcm_outcome(&self) -> (outcome: Option<PcmOutcome>)
        ensures
            outcome == self.spec_progress().pcm_outcome,
    {
        self.progress.pcm_outcome
    }

    /// Whether the far end has answered with its INFO0.
    #[must_use]
    pub fn engaged(&self) -> (engaged: bool)
        ensures
            engaged == (self.spec_progress().far is Some),
    {
        self.progress.far.is_some()
    }

    /// Whether this end has done its part of phase 2.
    #[must_use]
    pub fn done(&self) -> (done: bool)
        ensures
            done == (self.spec_progress().step is Done),
    {
        matches!(self.progress.step, Step::Done)
    }

    /// What the next samples carry, and how many of them, at most `room`.
    #[must_use]
    pub fn transmit(&self, room: usize) -> (segment: (Tx, usize))
        ensures
            segment.0 == self.spec_progress().tx,
            segment.1 == self.spec_progress().spec_segment(room as int),
            segment.1 <= room,
    {
        (self.progress.tx, self.progress.segment(room))
    }

    /// `length` samples of the segment have been sent. Gives the INFO1 to
    /// send, where one follows.
    pub fn sent(&mut self, length: usize) -> (info: Option<Info1c>)
        requires
            old(self).valid(),
            old(self).spec_progress().sent + length <= CLOCK_LIMIT,
        ensures
            final(self).valid(),
            final(self).windows() == old(self).windows(),
            final(self).reversals() == old(self).reversals(),
            ({
                let sent = old(self).spec_progress().with_sent(length as int);
                let turn = sent.segment_ends();
                if sent.segment_over() {
                    &&& final(self).spec_progress() == turn.progress
                    &&& (info is Some) == turn.sends_info1
                    &&& match info {
                        Some(info) => sent.is_info1(info),
                        None => true,
                    }
                } else {
                    final(self).spec_progress() == sent && info is None
                }
            }),
    {
        self.progress.sent += length;
        match self.progress.tx_until {
            Some(until) => if self.progress.sent >= until {
                self.progress.segment_ended()
            } else {
                None
            },
            None => None,
        }
    }

    /// The bits of INFO have all been sent.
    pub fn info_sent(&mut self)
        requires
            old(self).valid(),
        ensures
            final(self).valid(),
            final(self).windows() == old(self).windows(),
            final(self).reversals() == old(self).reversals(),
            final(self).spec_progress() == (if old(self).spec_progress().tx is Info {
                old(self).spec_progress().info_over()
            } else {
                old(self).spec_progress()
            }),
    {
        if matches!(self.progress.tx, Tx::Info) {
            self.progress.info_sent();
        }
    }

    /// Takes a bit that came in the next `length` samples.
    pub fn bit(&mut self, bit: bool, length: usize) -> (reply: Reply)
        requires
            old(self).valid(),
            old(self).spec_progress().heard + length <= CLOCK_LIMIT,
        ensures
            final(self).valid(),
            final(self).reversals() == old(self).reversals(),
            final(self).spec_progress() == old(self).spec_progress().with_bit(
                old(self).windows(),
                bit,
                length as int,
            ),
            reply == old(self).spec_progress().with_info0(
                old(self).windows(),
                bit,
                length as int,
            ).reply(old(self).windows(), bit),
            ({
                let before = old(self).windows();
                let progress = old(self).spec_progress();
                &&& final(self).windows().info0 == if progress.mode is Analogue {
                    before.info0
                } else {
                    slides::<Info0>(before.info0, bit)
                }
                &&& final(self).windows().info0d == if progress.mode is Analogue {
                    slides::<Info0d>(before.info0d, bit)
                } else {
                    before.info0d
                }
                &&& final(self).windows().info1c == if progress.role is Answer {
                    slides::<Info1c>(before.info1c, bit)
                } else {
                    before.info1c
                }
                &&& final(self).windows().info1a == if progress.role is Originate {
                    slides::<Info1a>(before.info1a, bit)
                } else {
                    before.info1a
                }
                &&& final(self).windows().pcm_info1a == if progress.mode is Digital {
                    slides::<PcmInfo1a>(before.pcm_info1a, bit)
                } else {
                    before.pcm_info1a
                }
            }),
    {
        let ghost before = *self;
        self.bit_of_info0(bit, length);
        let ghost far = self.progress;
        let reply = self.bit_of_info1c(bit);
        self.bit_of_info1a(bit);
        self.bit_of_pcm_info1a(bit);
        proof {
            assert(far.role == before.progress.role && far.mode == before.progress.mode);
        }
        reply
    }

    fn bit_of_info0(&mut self, bit: bool, length: usize)
        requires
            old(self).valid(),
            old(self).spec_progress().heard + length <= CLOCK_LIMIT,
        ensures
            final(self).valid(),
            final(self).reversals == old(self).reversals,
            final(self).info1c == old(self).info1c,
            final(self).info1a == old(self).info1a,
            final(self).pcm_info1a == old(self).pcm_info1a,
            final(self).progress == old(self).progress.with_info0(
                old(self).windows(),
                bit,
                length as int,
            ),
            final(self).progress.role == old(self).progress.role,
            final(self).progress.mode == old(self).progress.mode,
            final(self).windows().info0 == (if old(self).progress.mode is Analogue {
                old(self).windows().info0
            } else {
                slides::<Info0>(old(self).windows().info0, bit)
            }),
            final(self).windows().info0d == (if old(self).progress.mode is Analogue {
                slides::<Info0d>(old(self).windows().info0d, bit)
            } else {
                old(self).windows().info0d
            }),
    {
        let far = match self.progress.mode {
            Mode::Analogue => match self.info0d.push(bit) {
                Some(info0d) => {
                    self.progress.far_info0d = Some(info0d);
                    Some(info0d.v34)
                },
                None => None,
            },
            _ => self.info0.push(bit),
        };
        if let Some(info0) = far {
            if self.progress.far.is_none() {
                self.progress.far = Some(info0);
                self.progress.far_at = self.progress.heard + length;
            }
        }
    }

    fn bit_of_info1c(&mut self, bit: bool) -> (reply: Reply)
        requires
            old(self).valid(),
        ensures
            final(self).valid(),
            final(self).reversals == old(self).reversals,
            final(self).info0 == old(self).info0,
            final(self).info0d == old(self).info0d,
            final(self).info1a == old(self).info1a,
            final(self).pcm_info1a == old(self).pcm_info1a,
            final(self).progress == old(self).progress.with_info1c(old(self).windows(), bit),
            final(self).progress.role == old(self).progress.role,
            final(self).progress.mode == old(self).progress.mode,
            reply == old(self).progress.reply(old(self).windows(), bit),
            final(self).windows().info1c == (if old(self).progress.role is Answer {
                slides::<Info1c>(old(self).windows().info1c, bit)
            } else {
                old(self).windows().info1c
            }),
    {
        if !matches!(self.progress.role, Role::Answer) {
            return Reply::Nothing;
        }
        let heard = self.info1c.push(bit);
        if !matches!(self.progress.step, Step::AfterProbe) {
            return Reply::Nothing;
        }
        match heard {
            Some(info1c) => match self.progress.mode {
                Mode::Analogue => match (self.progress.far, self.progress.far_info0d) {
                    (Some(_), Some(digital)) => Reply::WantsUinfo(digital, info1c),
                    _ => Reply::Nothing,
                },
                _ => match self.progress.decide(&info1c) {
                    Some(reply) => Reply::Info1a(reply),
                    None => Reply::Nothing,
                },
            },
            None => Reply::Nothing,
        }
    }

    fn bit_of_info1a(&mut self, bit: bool)
        requires
            old(self).valid(),
        ensures
            final(self).valid(),
            final(self).reversals == old(self).reversals,
            final(self).info0 == old(self).info0,
            final(self).info0d == old(self).info0d,
            final(self).info1c == old(self).info1c,
            final(self).pcm_info1a == old(self).pcm_info1a,
            final(self).progress == old(self).progress.with_info1a(old(self).windows(), bit),
            final(self).progress.role == old(self).progress.role,
            final(self).progress.mode == old(self).progress.mode,
            final(self).windows().info1a == (if old(self).progress.role is Originate {
                slides::<Info1a>(old(self).windows().info1a, bit)
            } else {
                old(self).windows().info1a
            }),
    {
        if matches!(self.progress.role, Role::Originate) {
            if let Some(info1a) = self.info1a.push(bit) {
                if matches!(self.progress.step, Step::AwaitInfo1a) {
                    self.progress.settle(&info1a);
                }
            }
        }
    }

    fn bit_of_pcm_info1a(&mut self, bit: bool)
        requires
            old(self).valid(),
        ensures
            final(self).valid(),
            final(self).reversals == old(self).reversals,
            final(self).info0 == old(self).info0,
            final(self).info0d == old(self).info0d,
            final(self).info1c == old(self).info1c,
            final(self).info1a == old(self).info1a,
            final(self).progress == old(self).progress.with_pcm_info1a(old(self).windows(), bit),
            final(self).windows().pcm_info1a == (if old(self).progress.mode is Digital {
                slides::<PcmInfo1a>(old(self).windows().pcm_info1a, bit)
            } else {
                old(self).windows().pcm_info1a
            }),
    {
        if matches!(self.progress.mode, Mode::Digital) {
            if let Some(info1a) = self.pcm_info1a.push(bit) {
                if matches!(self.progress.step, Step::AwaitInfo1a) {
                    self.progress.settle_pcm(info1a);
                }
            }
        }
    }

    /// § 9.2.2.1.9/V.90: the analogue modem picks V.90, its upstream symbol
    /// rate and the Ucode that the digital modem trains with, `uinfo` where
    /// it is high enough, and replies with INFO1a.
    pub fn decide_pcm(&mut self, info1d: &Info1c, uinfo: u8) -> (reply: Option<PcmInfo1a>)
        requires
            old(self).valid(),
        ensures
            final(self).valid(),
            final(self).windows() == old(self).windows(),
            final(self).reversals() == old(self).reversals(),
            final(self).spec_progress() == old(self).spec_progress().decided_pcm(*info1d, uinfo),
            reply == (match (old(self).spec_progress().far, old(self).spec_progress().far_info0d) {
                (Some(_), Some(digital)) => Some(
                    old(self).spec_progress().pcm_reply(digital, *info1d, uinfo),
                ),
                _ => None,
            }),
    {
        self.progress.decide_pcm(info1d, uinfo)
    }

    /// A reversal of the far tone at sample `at`.
    pub fn reversed(&mut self, at: usize)
        requires
            old(self).valid(),
            at <= CLOCK_LIMIT,
        ensures
            final(self).valid(),
            final(self).windows() == old(self).windows(),
            final(self).spec_progress() == old(self).spec_progress(),
            final(self).reversals() == old(self).reversals().push(at),
    {
        self.reversals.push(at);
    }

    /// The part of the next `length` samples that L2 is measured in.
    #[must_use]
    pub fn measures(&self, length: usize) -> (part: Option<(usize, usize)>)
        requires
            self.valid(),
        ensures
            match (part, self.spec_progress().step) {
                (Some((start, end)), Step::Measure { from }) => {
                    let heard = self.spec_progress().heard as int;
                    &&& start <= end <= length
                    &&& forall|i: int|
                        0 <= i < length ==> (start <= i < end <==> #[trigger] within(
                            heard + i,
                            from as int,
                        ))
                },
                (None, Step::Measure { .. }) => false,
                (None, _) => true,
                _ => false,
            },
    {
        match self.progress.step {
            Step::Measure { from } => {
                let heard = self.progress.heard;
                let start = clipped(from, heard, length);
                let end = clipped(from + L2_MEASURED, heard, length);
                Some((start, end))
            },
            _ => None,
        }
    }

    /// Whether L2 has been measured once the next `length` samples have come.
    #[must_use]
    pub fn measured(&self, length: usize) -> (measured: bool)
        requires
            self.valid(),
            self.spec_progress().heard + length <= CLOCK_LIMIT,
        ensures
            measured == (match self.spec_progress().step {
                Step::Measure { from } => self.spec_progress().heard + length >= from + L2_MEASURED,
                _ => false,
            }),
    {
        match self.progress.step {
            Step::Measure { from } => self.progress.heard + length >= from + L2_MEASURED,
            _ => false,
        }
    }

    /// The reversal taken up next, where it counts.
    pub open spec fn next_reversal(self) -> Option<int> {
        if self.reversals().len() > 0 && self.spec_progress().counts(self.reversals()[0] as int) {
            Some(self.reversals()[0] as int)
        } else {
            None
        }
    }

    /// `length` samples have come. Goes on, with whether the far tone is
    /// there and what L2 measured, and gives how many samples from now the
    /// tone reverses, and the INFO1 to send, where one follows.
    pub fn advance(
        &mut self,
        length: usize,
        present: bool,
        measured: Option<Measured>,
    ) -> (does: (Option<usize>, Option<Info1c>))
        requires
            old(self).valid(),
            old(self).spec_progress().heard + length <= CLOCK_LIMIT,
        ensures
            final(self).valid(),
            final(self).windows() == old(self).windows(),
            final(self).reversals() == (if old(self).reversals().len() > 0 {
                old(self).reversals().skip(1)
            } else {
                old(self).reversals()
            }),
            ({
                let heard = Progress {
                    heard: (old(self).spec_progress().heard + length) as usize,
                    ..old(self).spec_progress()
                };
                let turn = heard.advanced(old(self).next_reversal(), present, measured);
                &&& final(self).spec_progress() == turn.progress
                &&& match (does.0, turn.reverse_after) {
                    (Some(after), Some(expected)) => after == expected,
                    (None, None) => true,
                    _ => false,
                }
                &&& (does.1 is Some) == turn.sends_info1
                &&& match does.1 {
                    Some(info) => heard.is_info1(info),
                    None => true,
                }
            }),
    {
        let ghost before = *self;
        self.progress.heard += length;
        let mut reversal: Option<usize> = None;
        if self.reversals.len() > 0 {
            let at = self.reversals.remove(0);
            assert(self.reversals@ =~= before.reversals@.skip(1));
            assert(before.reversals@[0] == at);
            if self.progress.far.is_some() && at >= self.progress.far_at + AFTER_INFO {
                reversal = Some(at);
            }
        }
        let ghost next = match reversal {
            Some(at) => Some(at as int),
            None => None,
        };
        assert(next == before.next_reversal());
        self.progress.advance(reversal, present, measured)
    }
}

/// Within the part of L2 that is measured.
pub open spec fn within(at: int, from: int) -> bool {
    from <= at < from + L2_MEASURED
}

fn clipped(at: usize, heard: usize, length: usize) -> (index: usize)
    ensures
        index == (if at <= heard {
            0
        } else if at - heard < length {
            at - heard
        } else {
            length as int
        }),
{
    if at <= heard {
        0
    } else if at - heard < length {
        at - heard
    } else {
        length
    }
}

/// § 11.2.1.2.9: of the symbol rates that both ends have, the answer modem
/// picks the one at which the weaker direction carries the most, by what INFO1c
/// says of one and its own probing of the other, and the highest of equals. It
/// picks it both ways.
pub proof fn law_the_weaker_direction_decides(
    progress: Progress,
    info1c: Info1c,
    far: Info0,
    other: SymbolRate,
)
    requires
        other is S2743 ==> far.supports_2743,
        other is S2800 ==> far.supports_2800,
        other is S3429 ==> far.supports_3429 && far.allows_3429,
    ensures
        ({
            let reply = progress.reply_to(info1c, far);
            let best = reply.answer_to_call;
            let down = info1c.probes@[best.spec_index() as int].max_rate;
            let up = progress.spec_probe_for(best).max_rate;
            let other_down = info1c.probes@[other.spec_index() as int].max_rate;
            let other_up = progress.spec_probe_for(other).max_rate;
            &&& reply.call_to_answer == best
            &&& best is S2743 ==> far.supports_2743
            &&& best is S2800 ==> far.supports_2800
            &&& best is S3429 ==> far.supports_3429 && far.allows_3429
            &&& other_down <= down && other_down <= up || other_up <= down && other_up <= up
            &&& other.spec_index() > best.spec_index() ==> other_down < down && other_down < up
                || other_up < down && other_up < up
            &&& reply.probe == progress.spec_probe_for(best)
            &&& reply.frequency_offset == progress.spec_offset()
        }),
{
}

/// What a modem asks of the far transmitter at a symbol rate is what it
/// measured there, of the carriers that the far INFO0 allows. Without a
/// measurement, or at a symbol rate that the far end lacks, it is nothing.
pub proof fn law_probing_asks_for_what_it_measured(progress: Progress, rate: SymbolRate)
    ensures
        ({
            let probe = progress.spec_probe_for(rate);
            let far = progress.far->0;
            let lacks = rate is S2743 && !far.supports_2743 || rate is S2800 && !far.supports_2800
                || rate is S3429 && !(far.supports_3429 && far.allows_3429);
            let low = (rate is S3000 ==> far.low_carrier_3000) && (rate is S3200
                ==> far.low_carrier_3200);
            let high = (rate is S3000 ==> far.high_carrier_3000) && (rate is S3200
                ==> far.high_carrier_3200);
            let bands = progress.measured->0.bands@[rate.spec_index() as int];
            let place = if probe.high_carrier {
                1int
            } else {
                0
            };
            &&& progress.far is None || progress.measured is None || lacks ==> probe.max_rate == 0
            &&& progress.far is Some && progress.measured is Some && !lacks && (low || high) ==> {
                &&& probe.max_rate == bands@[place].max_rate
                &&& probe.high_carrier ==> high
                &&& !probe.high_carrier ==> low
                &&& low && high ==> bands@[place].rank >= bands@[1 - place].rank
            }
            &&& probe.pre_emphasis == 0
        }),
{
    if progress.far is Some && progress.measured is Some {
        let far = progress.far->0;
        let bands = progress.measured->0.bands@[rate.spec_index() as int];
        let carriers = spec_far_carriers(rate, far);
        crate::v34::rates::law_a_probe_asks_for_the_better_carrier(
            bands@,
            carriers[0],
            carriers[1],
        );
        assert(carriers =~= seq![carriers[0], carriers[1]]);
    }
}

/// What phase 2 settles is what the receiver of each direction asked for: the
/// answer modem sends as INFO1c asks and hears as its own reply asks, and the
/// call modem the other way round.
pub proof fn law_each_transmitter_sends_as_asked(
    answer: Progress,
    call: Progress,
    info1c: Info1c,
    info1a: Info1a,
)
    requires
        answer.far is Some,
        call.far is Some,
    ensures
        ({
            let rate = answer.reply_to(info1c, answer.far->0).answer_to_call;
            let asked = info1c.probes@[rate.spec_index() as int];
            let own = answer.spec_probe_for(rate);
            let at_answer = answer.decided(info1c).outcome;
            &&& at_answer is Some
            &&& at_answer->0.transmit.symbol_rate == rate && at_answer->0.receive.symbol_rate == rate
            &&& at_answer->0.transmit.high_carrier == asked.high_carrier
            &&& at_answer->0.transmit.pre_emphasis == asked.pre_emphasis
            &&& at_answer->0.transmit.max_rate == asked.max_rate
            &&& at_answer->0.receive.high_carrier == own.high_carrier
            &&& at_answer->0.receive.max_rate == own.max_rate
            &&& at_answer->0.round_trip == answer.round_trip && at_answer->0.far == answer.far->0
            &&& answer.decided(info1c).step is SendInfo1 && answer.decided(info1c).tx is Info
        }),
        ({
            let own = call.spec_probe_for(info1a.answer_to_call);
            let at_call = call.settled(info1a).outcome;
            &&& at_call is Some
            &&& at_call->0.transmit.symbol_rate == info1a.call_to_answer
            &&& at_call->0.transmit.high_carrier == info1a.probe.high_carrier
            &&& at_call->0.transmit.pre_emphasis == info1a.probe.pre_emphasis
            &&& at_call->0.transmit.max_rate == info1a.probe.max_rate
            &&& at_call->0.receive.symbol_rate == info1a.answer_to_call
            &&& at_call->0.receive.high_carrier == own.high_carrier
            &&& at_call->0.receive.max_rate == own.max_rate
            &&& at_call->0.round_trip == call.round_trip && at_call->0.far == call.far->0
            &&& call.settled(info1a).step is Done
        }),
{
}

/// § 9.2.2.1.9/V.90: of 3000, 3200 and, where the digital modem has it, 3429
/// baud, the analogue modem picks the upstream that carries the most, the
/// highest of equals, and a UINFO above 66.
pub proof fn law_the_upstream_carries_the_most(
    progress: Progress,
    digital: Info0d,
    info1d: Info1c,
    uinfo: u8,
)
    requires
        progress.far is Some,
        progress.far_info0d == Some(digital),
    ensures
        ({
            let reply = progress.pcm_reply(digital, info1d, uinfo);
            let outcome = progress.decided_pcm(info1d, uinfo).pcm_outcome;
            let place = reply.upstream.spec_index() as int;
            let most = info1d.probes@[place].max_rate;
            &&& reply.upstream is S3000 || reply.upstream is S3200 || reply.upstream is S3429
                && digital.upstream_3429
            &&& info1d.probes@[3].max_rate <= most && info1d.probes@[4].max_rate <= most
            &&& digital.upstream_3429 ==> info1d.probes@[5].max_rate <= most
            &&& reply.upstream is S3000 ==> info1d.probes@[4].max_rate < most
            &&& !(reply.upstream is S3429) && digital.upstream_3429 ==> info1d.probes@[5].max_rate
                < most
            &&& reply.uinfo > 66 && (uinfo > 66 ==> reply.uinfo == uinfo)
            &&& uinfo <= 66 ==> reply.uinfo == 67
            &&& outcome is Some
            &&& outcome->0.upstream.symbol_rate == reply.upstream
            &&& outcome->0.upstream.max_rate == most
            &&& outcome->0.upstream.high_carrier == info1d.probes@[place].high_carrier
            &&& outcome->0.uinfo == reply.uinfo
            &&& outcome->0.digital == digital && outcome->0.far == progress.far->0
            &&& outcome->0.round_trip == progress.round_trip
        }),
{
}

/// § 11.2.1: the answer modem reverses tone A once INFO0 has come and both
/// tones have been there, its own for 50 ms; the call modem reverses tone B
/// 40 ms after that reaches it, or at once if that is over; and the answer
/// modem once more 40 ms after that reaches it, with L1 and L2 to follow.
pub proof fn law_reversals_answer_each_other_after_40_ms(
    progress: Progress,
    present: bool,
    at: int,
    measured: Option<Measured>,
)
    requires
        progress.valid(),
        0 <= at <= CLOCK_LIMIT,
    ensures
        progress.step is ToneA ==> {
            let turn = progress.advanced(None, present, measured);
            let reverses = progress.far is Some && progress.tx is Tone && present && progress.sent
                >= progress.tone_from + 50 * 8;
            &&& reverses ==> turn.reverse_after == Some(0int) && turn.progress.step
                == (Step::AwaitReply { ours: progress.sent })
            &&& !reverses ==> turn.reverse_after is None && turn.progress == progress
        },
        progress.step is ToneB && progress.far is Some ==> {
            let turn = progress.advanced(Some(at), present, measured);
            let due = at + 40 * 8;
            &&& turn.reverse_after == Some(
                if due > progress.sent {
                    due - progress.sent
                } else {
                    0
                },
            )
            &&& turn.progress.step == (Step::AwaitReply { ours: (at + 320) as usize })
            &&& turn.progress.tx is Tone
            &&& turn.progress.tx_until == Some((progress.sent + turn.reverse_after->0 + 1200) as usize)
        },
        progress.step matches Step::AwaitReply { ours } ==> {
            let turn = progress.advanced(Some(at), present, measured);
            let due = at + 40 * 8;
            &&& at <= ours ==> turn.progress == progress && turn.reverse_after is None
            &&& at > ours && at >= ours + 320 ==> turn.progress.round_trip == at - ours - 320
            &&& at > ours && at < ours + 320 ==> turn.progress.round_trip == 0
            &&& at > ours && progress.role is Answer ==> {
                &&& turn.progress.step is Probe && turn.progress.tx is Tone
                &&& turn.reverse_after == Some(
                    if due > progress.sent {
                        due - progress.sent
                    } else {
                        0
                    },
                )
                &&& turn.progress.tx_until == Some(
                    (progress.sent + turn.reverse_after->0 + 80) as usize,
                )
            }
            &&& at > ours && progress.role is Originate ==> turn.progress.step == (
            Step::Measure { from: (at + 80 + 1280 + 160) as usize }) && turn.reverse_after is None
        },
{
}

/// The probing signals follow the last reversal of each end: 10 ms of tone,
/// 160 ms of L1, then L2 for up to 550 ms and a round trip. INFO0 follows the
/// 75 ms of silence, and a tone the silence of a retrain.
pub proof fn law_l1_and_l2_follow_the_tone(progress: Progress)
    requires
        progress.valid(),
    ensures
        ({
            let next = progress.segment_ends();
            let probes = progress.step is Probe || progress.step is ProbeFar;
            &&& progress.step is SendInfo0 && progress.tx is Silence ==> next.progress.tx is Info
                && next.progress.tx_until is None
            &&& (progress.step is ToneA || progress.step is ToneB) && progress.tx is Silence
                ==> next.progress.tx is Tone && next.progress.tx_until is None
                && next.progress.tone_from == progress.sent
            &&& probes && progress.tx is Tone ==> next.progress.tx is L1 && next.progress.tx_until
                == Some((progress.sent + 160 * 8) as usize)
            &&& probes && progress.tx is L1 ==> next.progress.tx is L2 && next.progress.l2_from
                == progress.sent && next.progress.tx_until == Some(
                (progress.sent + 550 * 8 + progress.round_trip) as usize,
            )
            &&& progress.step is Probe && progress.tx is L2 ==> next.progress.tx is Tone
                && next.progress.step is Probe
            &&& progress.step is ProbeFar && progress.tx is L2 ==> next.sends_info1
                && next.progress.step is SendInfo1 && next.progress.tx is Info
            &&& next.sends_info1 ==> progress.step is ProbeFar && progress.tx is L2
        }),
        Progress::spec_new(progress.role, progress.mode).step is SendInfo0,
        Progress::spec_new(progress.role, progress.mode).tx is Silence,
        Progress::spec_new(progress.role, progress.mode).tx_until == Some((75 * 8) as usize),
{
}

/// The far L2 is measured for 400 ms from 20 ms in; then the answer modem waits
/// for INFO1c, and the call modem for the reversal before its own probing,
/// which ends with INFO1 once tone A is there again after 100 ms of L2.
pub proof fn law_probing_ends_with_info1(
    progress: Progress,
    present: bool,
    at: int,
    measured: Option<Measured>,
)
    requires
        progress.valid(),
        0 <= at <= CLOCK_LIMIT,
    ensures
        progress.step matches Step::Measure { from } ==> {
            let turn = progress.advanced(None, present, measured);
            &&& progress.heard >= from + 400 * 8 ==> turn.progress.step is AfterProbe
                && turn.progress.measured == measured && turn.progress.tx is Tone
            &&& progress.heard < from + 400 * 8 ==> turn.progress == progress
        },
        progress.step is Probe ==> {
            let turn = progress.advanced(None, present, measured);
            &&& progress.tx is L2 && present ==> turn.progress.step == (
            Step::AwaitProbe { reversed: false }) && turn.progress.tx is Tone
            &&& !(progress.tx is L2 && present) ==> turn.progress == progress
        },
        progress.step == (Step::AwaitProbe { reversed: false }) ==> {
            let turn = progress.advanced(None, present, measured);
            &&& progress.sent >= progress.tone_from + 400 ==> turn.reverse_after == Some(0int)
                && turn.progress.step == (Step::AwaitProbe { reversed: true })
            &&& progress.sent < progress.tone_from + 400 ==> turn.progress == progress
        },
        progress.step is AwaitProbe ==> {
            let turn = progress.advanced(Some(at), present, measured);
            turn.progress.step == (Step::Measure { from: (at + 80 + 1280 + 160) as usize })
                && turn.progress.tx is Silence
        },
        progress.step is AfterProbe ==> {
            let turn = progress.advanced(Some(at), present, measured);
            &&& progress.role is Originate ==> turn.progress.step is ProbeFar && turn.progress.tx
                is Tone && turn.reverse_after == Some(
                if at + 320 > progress.sent {
                    at + 320 - progress.sent
                } else {
                    0
                },
            )
            &&& progress.role is Answer ==> turn.progress == progress && turn.reverse_after is None
        },
        progress.step is ProbeFar ==> {
            let turn = progress.advanced(None, present, measured);
            let over = progress.tx is L2 && progress.sent >= progress.l2_from + 100 * 8 && present;
            &&& turn.sends_info1 == over
            &&& over ==> turn.progress.step is SendInfo1 && turn.progress.tx is Info
            &&& !over ==> turn.progress == progress
        },
{
}

/// INFO0 leads to tone A at the answer modem and to tone B at the call modem.
/// INFO1 ends phase 2 for the answer modem, and the call modem then waits for
/// INFO1a. A reversal counts only 20 ms after the far INFO0.
pub proof fn law_each_info_leads_on(progress: Progress, at: int)
    ensures
        ({
            let next = progress.info_over();
            &&& progress.step is SendInfo0 ==> next.tx is Tone && (progress.role is Answer
                ==> next.step is ToneA) && (progress.role is Originate ==> next.step is ToneB)
            &&& progress.step is SendInfo1 ==> next.tx is Silence && (progress.role is Answer
                ==> next.step is Done) && (progress.role is Originate ==> next.step is AwaitInfo1a)
        }),
        progress.counts(at) == (progress.far is Some && at >= progress.far_at + 20 * 8),
{
}

/// The first INFO0 that comes is kept, with when it came, and no later one.
pub proof fn law_the_first_info0_is_kept(progress: Progress, info0: Info0, length: int)
    requires
        0 <= progress.heard + length <= CLOCK_LIMIT,
    ensures
        progress.far is None ==> progress.with_far(Some(info0), length).far == Some(info0)
            && progress.with_far(Some(info0), length).far_at == progress.heard + length,
        progress.far is Some ==> progress.with_far(Some(info0), length) == progress,
        progress.with_far(None, length) == progress,
{
}

/// INFO1c is answered by the answer modem alone, once it has probed, INFO1a is
/// taken by the call modem that waits for it, and INFO1a of V.90 by the digital
/// modem that waits for it.
pub proof fn law_each_info1_is_taken_where_it_is_due(
    progress: Progress,
    windows: Windows,
    bit: bool,
)
    ensures
        ({
            let answers = progress.role is Answer && progress.step is AfterProbe;
            let heard = found::<Info1c>(windows.info1c, bit);
            &&& answers && heard is Some && !(progress.mode is Analogue) && progress.far is Some
                ==> progress.with_info1c(windows, bit) == progress.decided(heard->0)
                && progress.reply(windows, bit) == Reply::Info1a(
                progress.reply_to(heard->0, progress.far->0),
            )
            &&& answers && heard is Some && progress.mode is Analogue && progress.far is Some
                && progress.far_info0d is Some ==> progress.reply(windows, bit)
                == Reply::WantsUinfo(progress.far_info0d->0, heard->0)
            &&& !answers || heard is None ==> progress.with_info1c(windows, bit) == progress
                && progress.reply(windows, bit) is Nothing
        }),
        ({
            let waits = progress.role is Originate && progress.step is AwaitInfo1a;
            let heard = found::<Info1a>(windows.info1a, bit);
            &&& waits && heard is Some ==> progress.with_info1a(windows, bit) == progress.settled(
                heard->0,
            )
            &&& !waits || heard is None ==> progress.with_info1a(windows, bit) == progress
        }),
        ({
            let waits = progress.mode is Digital && progress.step is AwaitInfo1a;
            let heard = found::<PcmInfo1a>(windows.pcm_info1a, bit);
            &&& waits && heard is Some ==> progress.with_pcm_info1a(windows, bit)
                == progress.settled_pcm(heard->0)
            &&& !waits || heard is None ==> progress.with_pcm_info1a(windows, bit) == progress
        }),
{
}

/// What this modem says of itself in INFO0 and INFO0d: all symbol rates and
/// carriers, 1664 points, the internal clock, A-law, −13 dBm0, and at most
/// −12 dBm0 at its codec.
pub proof fn law_what_info0_offers()
    ensures
        ({
            let own = spec_own_info0();
            let digital = spec_own_info0d();
            &&& own.supports_2743 && own.supports_2800 && own.supports_3429 && own.allows_3429
            &&& own.low_carrier_3000 && own.high_carrier_3000 && own.low_carrier_3200 && own.high_carrier_3200
            &&& !own.reduces_power && own.rate_difference == 0 && !own.cme
            &&& own.constellation_1664 && own.clock is Internal && !own.acknowledge
            &&& digital.v34 == own
            &&& digital.nominal_power == 7 && digital.max_power == 23
            &&& digital.power_at_codec && digital.law == Law::A && digital.upstream_3429
        }),
{
}

/// INFO0 limits the carriers at 3000 and 3200 only.
pub proof fn law_info0_limits_the_carriers(far: Info0, rate: SymbolRate)
    ensures
        ({
            let may = spec_far_carriers(rate, far);
            &&& may.len() == 2
            &&& rate == SymbolRate::S3000 ==> may[0] == far.low_carrier_3000 && may[1] == far.high_carrier_3000
            &&& rate == SymbolRate::S3200 ==> may[0] == far.low_carrier_3200 && may[1] == far.high_carrier_3200
            &&& rate != SymbolRate::S3000 && rate != SymbolRate::S3200 ==> may[0] && may[1]
        }),
{
}

/// A segment is sent up to its end and no further. The times at which the
/// tone and L2 began are those of their first samples.
pub proof fn law_segments_end_in_their_time(progress: Progress, room: int, until: usize, tx: Tx, end: Option<usize>)
    requires
        room >= 0,
    ensures
        progress.tx_until is None ==> progress.spec_segment(room) == room && !progress.segment_over(),
        progress.tx_until == Some(until) ==> {
            &&& progress.segment_over() <==> progress.sent >= until
            &&& progress.segment_over() ==> progress.spec_segment(room) == 0
            &&& !progress.segment_over() && until - progress.sent <= room ==> progress.spec_segment(room) == until
                - progress.sent
            &&& !progress.segment_over() && until - progress.sent > room ==> progress.spec_segment(room) == room
        },
        ({
            let next = progress.starting(tx, end);
            &&& next.tx == tx && next.tx_until == end && next.sent == progress.sent && next.step == progress.step
            &&& tx is Tone && !(progress.tx is Tone) ==> next.tone_from == progress.sent
            &&& !(tx is Tone) || progress.tx is Tone ==> next.tone_from == progress.tone_from
            &&& tx is L2 ==> next.l2_from == progress.sent
            &&& !(tx is L2) ==> next.l2_from == progress.l2_from
        }),
{
}

/// The far end is known by INFO0d to the analogue modem and by INFO0 to the
/// others, and a frame that is not there changes nothing.
pub proof fn law_the_far_end_is_known_by_its_info0(progress: Progress, windows: Windows, bit: bool, length: int)
    ensures
        progress.mode is Analogue && found::<Info0d>(windows.info0d, bit) is None ==> progress.with_info0(
            windows,
            bit,
            length,
        ) == progress,
        progress.mode is Analogue && found::<Info0d>(windows.info0d, bit) is Some ==> ({
            let next = progress.with_info0(windows, bit, length);
            let info0d = found::<Info0d>(windows.info0d, bit)->0;
            next == (Progress { far_info0d: Some(info0d), ..progress }).with_far(Some(info0d.v34), length)
        }),
        !(progress.mode is Analogue) ==> progress.with_info0(windows, bit, length) == progress.with_far(
            found::<Info0>(windows.info0, bit),
            length,
        ),
{
}

/// A retrain begins with 70 ms of silence and goes on from tone A at the
/// answer modem and from tone B at the call modem, with INFO0 known.
pub proof fn law_a_retrain_begins_with_the_tones(role: Role, mode: Mode, far: Info0)
    ensures
        ({
            let progress = Progress::retraining(role, mode, far);
            &&& progress.far == Some(far)
            &&& progress.role == role && progress.mode == mode
            &&& progress.tx is Silence
            &&& progress.tx_until == Some((70 * 8) as usize)
            &&& progress.sent == 0
            &&& role is Answer ==> progress.step is ToneA
            &&& role is Originate ==> progress.step is ToneB
            &&& progress.outcome is None
        }),
{
}

} // verus!

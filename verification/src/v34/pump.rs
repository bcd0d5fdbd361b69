//! The V.34 data pump from phase 3 on, as far as it decides: training, the
//! rate that the two MPs agree on, data mode, and the way out of it.

use crate::pump::{Role, CLOCK_LIMIT};
use crate::v34::encoder::Settings;
use crate::v34::framing::{in_table_8, Framing};
use crate::v34::info::Info0;
use crate::v34::monitor::{Action, Margin, Monitor};
use crate::v34::mp::{is_flat, Asks, Mp, Trellis};
use crate::v34::phase2::Outcome;
use crate::v34::rates::{agree, is_agreed, least, mask, mask_bits};
use crate::v34::detect::Heard;
use crate::v34::sink::{Hearing, Sink, Target, Tracking};
use crate::v34::source::{
    pp_symbols, s_and_s_bar, spec_polynomial, Far, Lining, Script, Sent, Source, Transmitting,
};
use crate::v34::SymbolRate;
use vstd::prelude::*;

verus! {

/// § 11.5: the far tone for more than 50 ms starts a retrain.
pub const RETRAIN_TONE: usize = 400;

/// § 11.3.1.2.1: the answer modem waits 70 ± 5 ms after INFO1a.
pub open spec fn spec_silence(rate: SymbolRate) -> int {
    168 * rate.spec_ratio().0 as int / rate.spec_ratio().1 as int
}

/// § 11.3.1.2.1: the answer modem waits 70 ± 5 ms after INFO1a. In symbols.
#[must_use]
pub fn silence_symbols(rate: SymbolRate) -> (symbols: usize)
    ensures
        symbols == spec_silence(rate),
{
    let (a, c) = rate.ratio();
    (168 * a / c) as usize
}

/// What is on its way to the line as training begins: from the answer modem,
/// the silence after INFO1a, then S, S̄ and PP.
pub open spec fn first_line(role: Role, outcome: Outcome) -> Lining {
    Lining {
        queue: match role {
            Role::Answer => Seq::new(
                spec_silence(outcome.transmit.symbol_rate) as nat,
                |i: int| Sent::Silence,
            ) + (s_and_s_bar() + pp_symbols()),
            Role::Originate => seq![],
        },
        ..Lining::fresh(role)
    }
}

/// Whose phase 2 a retrain runs.
#[derive(Debug, Clone, Copy, PartialEq, Eq, Structural)]
pub enum Retrains {
    Here,
    /// Phase 2 was that of V.90, which a retrain must use again, once `asked`.
    InV90 { asked: bool },
}

/// All that an end of V.34 keeps past phase 2.
pub struct Running {
    pub role: Role,
    pub outcome: Option<Outcome>,
    pub source: Option<Transmitting>,
    pub sink: Option<Hearing>,
    pub far: Far,
    /// In multiples of 2400 bit/s.
    pub rate: u8,
    /// Connected once, and still in the call through renegotiations and retrains.
    pub online: bool,
    /// How long the far end's tone A or B has lasted, as far as that counts.
    pub tone_heard: int,
    pub monitor: Monitor,
    pub asks: Asks,
    pub retrains: Retrains,
}

/// V.34 duplex past phase 2.
#[derive(Debug)]
pub struct V34 {
    role: Role,
    outcome: Option<Outcome>,
    source: Option<Source>,
    sink: Option<Sink>,
    far: Far,
    rate: u8,
    online: bool,
    tone_heard: usize,
    monitor: Monitor,
    asks: Asks,
    retrains: Retrains,
}

/// The MP that this end sends, before it has heard the far TRN: the far end
/// judges the direction it hears, in its own MP.
pub open spec fn is_first_mp(running: Running, outcome: Outcome, mp: Mp) -> bool {
    &&& mp.max_call_to_answer == match running.role {
        Role::Originate => 14,
        Role::Answer => outcome.receive.max_rate,
    }
    &&& mp.max_answer_to_call == match running.role {
        Role::Originate => outcome.receive.max_rate,
        Role::Answer => 14,
    }
    &&& crate::v34::bits::field_bits(mp.rates as nat, 16) == mask_bits(
        outcome.transmit.symbol_rate,
        14,
    )
    &&& mp.trellis == running.asks.trellis
    &&& mp.nonlinear == running.asks.nonlinear
    &&& mp.expanded_shaping == running.asks.expanded_shaping
    &&& mp.precoding == if crate::v34::mp::is_flat(running.asks.precoding) {
        None
    } else {
        Some(running.asks.precoding)
    }
    &&& !mp.auxiliary
    &&& !mp.acknowledge
    &&& !mp.asymmetric
}

/// One direction that this end does not judge is left open.
pub open spec fn leaves_open(role: Role, mp: Mp) -> bool {
    match role {
        Role::Originate => mp.max_call_to_answer == 14,
        Role::Answer => mp.max_answer_to_call == 14,
    }
}

/// The two maxima of each MP.
pub open spec fn maxima(ours: Mp, theirs: Mp) -> Seq<u8> {
    seq![
        ours.max_call_to_answer,
        ours.max_answer_to_call,
        theirs.max_call_to_answer,
        theirs.max_answer_to_call,
    ]
}

/// The rate that two MPs agree on.
pub open spec fn agreed(ours: Mp, theirs: Mp, rate: u8) -> bool {
    is_agreed(maxima(ours, theirs), seq![ours.rates, theirs.rates], rate)
}

/// What the far MP asks of this end's encoder.
pub open spec fn is_asked(theirs: Mp, settings: Settings) -> bool {
    &&& settings.trellis == theirs.trellis
    &&& settings.nonlinear == theirs.nonlinear
    &&& match theirs.precoding {
        Some(precoding) => settings.precoding == precoding,
        None => settings.precoding@ == seq![(0i16, 0i16), (0i16, 0i16), (0i16, 0i16)],
    }
}

/// A rate that table 8 has for both directions.
pub open spec fn usable(outcome: Outcome, rate: u8) -> bool {
    in_table_8(outcome.transmit.symbol_rate, (rate * 2400) as u32) && in_table_8(
        outcome.receive.symbol_rate,
        (rate * 2400) as u32,
    )
}

impl Running {
    pub open spec fn spec_connected(self) -> bool {
        match (self.source, self.sink) {
            (Some(source), Some(sink)) => source.script.b1_sent && sink.in_data(),
            _ => false,
        }
    }

    pub open spec fn spec_cleared(self) -> bool {
        match self.source {
            Some(source) => source.script.send is Cleared,
            None => false,
        }
    }

    /// § 11.5: phase 2 again from the tones, then phases 3 and 4.
    pub open spec fn restarted(self) -> Self {
        match (self.outcome, self.retrains) {
            (None, _) => self,
            (Some(_), Retrains::InV90 { .. }) => Self {
                retrains: Retrains::InV90 { asked: true },
                ..self
            },
            (Some(_), Retrains::Here) => Self {
                outcome: None,
                source: None,
                sink: None,
                far: Far::nothing(),
                tone_heard: 0,
                ..self
            },
        }
    }

    /// The far INFO0 that phase 2 runs again with here.
    pub open spec fn runs_phase2(self) -> Option<Info0> {
        match (self.outcome, self.retrains) {
            (Some(outcome), Retrains::Here) => Some(outcome.far),
            _ => None,
        }
    }

    /// Whether the far tone counts.
    pub open spec fn in_phase_4(self) -> bool {
        match self.source {
            Some(source) => source.script.phase == 4,
            None => false,
        }
    }

    pub open spec fn tone_after(self, present: bool, length: int) -> int {
        if !self.in_phase_4() || !present {
            0
        } else if self.tone_heard + length < RETRAIN_TONE + 1 {
            self.tone_heard + length
        } else {
            RETRAIN_TONE + 1
        }
    }

    /// The two MPs are there, and no rate has been agreed on since.
    pub open spec fn may_agree(self) -> bool {
        match self.source {
            Some(source) => self.outcome is Some && self.sink is Some && self.far.mp is Some
                && source.line.encoding is None,
            None => false,
        }
    }

    /// With data both ways at `rate`.
    pub open spec fn is_agreed_as(
        self,
        next: Self,
        rate: u8,
        transmit: Framing,
        receive: Framing,
        settings: Settings,
    ) -> bool {
        let outcome = self.outcome->0;
        let theirs = self.far.mp->0;
        let source = self.source->0;
        let sink = self.sink->0;
        &&& transmit.frames(
            outcome.transmit.symbol_rate,
            (rate * 2400) as u32,
            theirs.expanded_shaping,
        )
        &&& receive.frames(
            outcome.receive.symbol_rate,
            (rate * 2400) as u32,
            self.asks.expanded_shaping,
        )
        &&& is_asked(theirs, settings)
        &&& next == (Self {
            source: Some(
                Transmitting {
                    script: Script { encoding: true, b1_frames: transmit.p, ..source.script },
                    line: source.line.starting_data(transmit, settings),
                },
            ),
            sink: Some(sink.starting_data(receive)),
            rate,
            ..self
        })
    }
}

impl Hearing {
    /// With data to come in `framing`, from B1.
    pub open spec fn starting_data(self, framing: Framing) -> Self {
        Self {
            ear: crate::v34::sink::Ear {
                decoding: true,
                skip_bits: (framing.p * framing.b - (framing.p - framing.r)) as usize,
                ..self.ear
            },
            data_history: Seq::new(
                spec_polynomial(self.ear.far_role).spec_b() as nat,
                |i: int| false,
            ),
            ..self
        }
    }
}

impl View for V34 {
    type V = Running;

    closed spec fn view(&self) -> Running {
        Running {
            role: self.role,
            outcome: self.outcome,
            source: match self.source {
                Some(source) => Some(source@),
                None => None,
            },
            sink: match self.sink {
                Some(sink) => Some(sink@),
                None => None,
            },
            far: self.far,
            rate: self.rate,
            online: self.online,
            tone_heard: self.tone_heard as int,
            monitor: self.monitor,
            asks: self.asks,
            retrains: self.retrains,
        }
    }
}

impl V34 {
    pub closed spec fn valid(self) -> bool {
        &&& self.monitor.valid()
        &&& self.tone_heard <= RETRAIN_TONE + 1
        &&& match self.source {
            Some(source) => source.valid() && leaves_open(self.role, source@.script.mp)
                && source@.script.role == self.role,
            None => true,
        }
        &&& match self.sink {
            Some(sink) => sink.valid(),
            None => true,
        }
    }

    /// Before phase 2 has settled.
    #[must_use]
    pub fn new(role: Role) -> (v34: Self)
        ensures
            v34.valid(),
            v34@.role == role,
            v34@.outcome is None,
            v34@.source is None,
            v34@.sink is None,
            v34@.far == Far::nothing(),
            v34@.rate == 0,
            !v34@.online,
            v34@.tone_heard == 0,
            v34@.monitor == Monitor::fresh(),
            v34@.retrains == Retrains::Here,
            v34@.asks.trellis == Trellis::States16,
            !v34@.asks.nonlinear,
            !v34@.asks.expanded_shaping,
            is_flat(v34@.asks.precoding),
    {
        Self {
            role,
            outcome: None,
            source: None,
            sink: None,
            far: Far::default(),
            rate: 0,
            online: false,
            tone_heard: 0,
            monitor: Monitor::default(),
            asks: Asks::default(),
            retrains: Retrains::Here,
        }
    }

    /// V.34 from phase 3, where phase 2 of V.90 settled on V.34
    /// (§ 9.2.1.1.8/V.90 and § 9.2.2.1.9/V.90). A retrain goes back to
    /// phase 2 of V.90, which [`V34::retrain_asked`] leaves to the V.90 modem.
    #[must_use]
    pub fn after_v90(role: Role, outcome: Outcome) -> (v34: Self)
        ensures
            v34.valid(),
            v34@.role == role,
            v34@.retrains == (Retrains::InV90 { asked: false }),
            v34@.outcome == Some(outcome),
            v34@.sink == Some(Hearing::fresh(role)),
            v34@.source == Some(
                Transmitting {
                    script: Script::spec_new(role, v34@.source->0.script.mp),
                    line: first_line(role, outcome),
                },
            ),
            is_first_mp(v34@, outcome, v34@.source->0.script.mp),
            v34@.far == Far::nothing(),
            v34@.rate == 0,
            !v34@.online,
            v34@.tone_heard == 0,
            v34@.monitor == Monitor::fresh(),
            v34@.asks.trellis == Trellis::States16,
            !v34@.asks.nonlinear,
            !v34@.asks.expanded_shaping,
            is_flat(v34@.asks.precoding),
    {
        let mut v34 = Self::new(role);
        v34.retrains = Retrains::InV90 { asked: false };
        v34.start_training(outcome);
        v34
    }

    /// Whether either end has started a retrain that phase 2 of V.90 must carry.
    #[must_use]
    pub fn retrain_asked(&self) -> (asked: bool)
        ensures
            asked == (self@.retrains == Retrains::InV90 { asked: true }),
    {
        match self.retrains {
            Retrains::InV90 { asked } => asked,
            Retrains::Here => false,
        }
    }

    /// Asking the far transmitter for `asks` in MP.
    #[must_use]
    pub fn asking(self, asks: Asks) -> (v34: Self)
        requires
            self.valid(),
        ensures
            v34.valid(),
            v34@ == (Running { asks, ..self@ }),
    {
        let mut v34 = self;
        v34.asks = asks;
        v34
    }

    /// Phase 2 has settled: training begins.
    pub fn start_training(&mut self, outcome: Outcome)
        requires
            old(self).valid(),
        ensures
            final(self).valid(),
            ({
                let mp = final(self)@.source->0.script.mp;
                &&& is_first_mp(old(self)@, outcome, mp)
                &&& final(self)@ == (Running {
                    outcome: Some(outcome),
                    source: Some(
                        Transmitting {
                            script: Script::spec_new(old(self)@.role, mp),
                            line: first_line(old(self)@.role, outcome),
                        },
                    ),
                    sink: Some(Hearing::fresh(old(self)@.role)),
                    ..old(self)@
                })
            }),
    {
        let receive_max = outcome.receive.max_rate;
        let (silence, call_to_answer, answer_to_call) = match self.role {
            Role::Originate => (0, 14, receive_max),
            Role::Answer => (silence_symbols(outcome.transmit.symbol_rate), receive_max, 14),
        };
        let rates = mask(outcome.transmit.symbol_rate, 14);
        let mp = self.asks.ask(
            Mp {
                max_call_to_answer: call_to_answer,
                max_answer_to_call: answer_to_call,
                rates,
                ..Mp::default()
            },
        );
        let source = Source::new(self.role, silence, mp);
        proof {
            if self.role is Originate {
                assert(source@.line.queue =~= Seq::<Sent>::empty());
            }
        }
        self.source = Some(source);
        self.sink = Some(Sink::new(self.role));
        self.outcome = Some(outcome);
    }

    /// § 11.5: phase 2 again from the tones, with the far INFO0 kept, which
    /// it gives where phase 2 runs here.
    fn restart(&mut self) -> (far: Option<Info0>)
        requires
            old(self).valid(),
        ensures
            final(self).valid(),
            final(self)@ == old(self)@.restarted(),
            far == old(self)@.runs_phase2(),
    {
        let outcome = match self.outcome {
            Some(outcome) => outcome,
            None => {
                return None;
            },
        };
        match self.retrains {
            Retrains::InV90 { .. } => {
                self.retrains = Retrains::InV90 { asked: true };
                None
            },
            Retrains::Here => {
                self.outcome = None;
                self.source = None;
                self.sink = None;
                self.far = Far::default();
                self.tone_heard = 0;
                Some(outcome.far)
            },
        }
    }

    /// Whether the far tone counts: from phase 4 on.
    #[must_use]
    pub fn in_phase_4(&self) -> (counts: bool)
        ensures
            counts == self@.in_phase_4(),
    {
        match &self.source {
            Some(source) => source.script().phase == 4,
            None => false,
        }
    }

    /// Takes whether the far tone A or B is there over `length` samples.
    /// § 11.4.2 and § 11.5: more than 50 ms of it from phase 4 on starts a
    /// retrain. Gives the INFO0 to run phase 2 again with.
    pub fn hear_tone(&mut self, present: bool, length: usize) -> (does: (bool, Option<Info0>))
        requires
            old(self).valid(),
        ensures
            final(self).valid(),
            ({
                let tone = old(self)@.tone_after(present, length as int);
                let heard = Running { tone_heard: tone, ..old(self)@ };
                &&& does.0 == (tone > RETRAIN_TONE)
                &&& if does.0 {
                    final(self)@ == heard.restarted() && does.1 == heard.runs_phase2()
                } else {
                    final(self)@ == heard && does.1 is None
                }
            }),
    {
        self.tone_heard = if !self.in_phase_4() || !present {
            0
        } else if length < RETRAIN_TONE + 1 - self.tone_heard {
            self.tone_heard + length
        } else {
            RETRAIN_TONE + 1
        };
        if self.tone_heard > RETRAIN_TONE {
            let far = self.restart();
            (true, far)
        } else {
            (false, None)
        }
    }

    /// § 11.4.1.1.3: once the far MP has come, both ends know the data rate.
    /// Gives the framings of what is sent and what is heard.
    pub fn agree(&mut self) -> (framings: Option<(Framing, Framing)>)
        requires
            old(self).valid(),
        ensures
            final(self).valid(),
            match framings {
                Some((transmit, receive)) => {
                    let before = old(self)@;
                    let ours = before.source->0.script.spec_own_mp(before.far);
                    let theirs = before.far.mp->0;
                    let rate = final(self)@.rate;
                    &&& before.may_agree()
                    &&& agreed(ours, theirs, rate)
                    &&& exists|settings: Settings| #[trigger]
                        before.is_agreed_as(final(self)@, rate, transmit, receive, settings)
                },
                None => {
                    let before = old(self)@;
                    let ours = before.source->0.script.spec_own_mp(before.far);
                    let theirs = before.far.mp->0;
                    &&& final(self)@ == before
                    &&& before.may_agree() ==> exists|rate: u8| #[trigger]
                        agreed(ours, theirs, rate) && !usable(before.outcome->0, rate)
                },
            },
    {
        let (outcome, theirs) = match (self.outcome, self.far.mp) {
            (Some(outcome), Some(theirs)) => (outcome, theirs),
            _ => {
                return None;
            },
        };
        let script = match (&self.source, &self.sink) {
            (Some(source), Some(_)) => source.script(),
            _ => {
                return None;
            },
        };
        proof {
            self.lemma_encoding();
        }
        if script.encoding {
            return None;
        }
        let ours = script.own_mp(&self.far);
        let most = [
            ours.max_call_to_answer,
            ours.max_answer_to_call,
            theirs.max_call_to_answer,
            theirs.max_answer_to_call,
        ];
        let masks = [ours.rates, theirs.rates];
        assert(most@ =~= maxima(ours, theirs));
        assert(masks@ =~= seq![ours.rates, theirs.rates]);
        assert(least(most@) <= 14);
        let rate = agree(most, masks);
        assert(agreed(ours, theirs, rate));
        let bit_rate: u32 = rate as u32 * 2400;
        let transmit = match Framing::new(
            outcome.transmit.symbol_rate,
            bit_rate,
            theirs.expanded_shaping,
        ) {
            Some(framing) => framing,
            None => {
                assert(!usable(outcome, rate));
                return None;
            },
        };
        let receive = match Framing::new(
            outcome.receive.symbol_rate,
            bit_rate,
            self.asks.expanded_shaping,
        ) {
            Some(framing) => framing,
            None => {
                assert(!usable(outcome, rate));
                return None;
            },
        };
        let precoding = match theirs.precoding {
            Some(precoding) => precoding,
            None => [(0, 0), (0, 0), (0, 0)],
        };
        let settings = Settings { trellis: theirs.trellis, nonlinear: theirs.nonlinear, precoding };
        assert(theirs.precoding is None ==> precoding@ =~= seq![
            (0i16, 0i16),
            (0i16, 0i16),
            (0i16, 0i16),
        ]);
        self.start_data(transmit, receive, settings, rate);
        proof {
            assert(old(self)@.is_agreed_as(self@, rate, transmit, receive, settings));
        }
        Some((transmit, receive))
    }

    proof fn lemma_encoding(self)
        requires
            self.valid(),
            self.source is Some,
        ensures
            self@.source->0.script.encoding == (self@.source->0.line.encoding is Some),
    {
        self.source->0.lemma_encoding();
    }

    fn start_data(&mut self, transmit: Framing, receive: Framing, settings: Settings, rate: u8)
        requires
            old(self).valid(),
            old(self).source is Some,
            old(self).sink is Some,
            transmit.valid(),
            receive.valid(),
        ensures
            final(self).valid(),
            ({
                let source = old(self)@.source->0;
                final(self)@ == (Running {
                    source: Some(
                        Transmitting {
                            script: Script {
                                encoding: true,
                                b1_frames: transmit.p,
                                ..source.script
                            },
                            line: source.line.starting_data(transmit, settings),
                        },
                    ),
                    sink: Some(old(self)@.sink->0.starting_data(receive)),
                    rate,
                    ..old(self)@
                })
            }),
    {
        let mut source: Option<Source> = None;
        core::mem::swap(&mut source, &mut self.source);
        if let Some(mut source) = source {
            source.start_data(transmit, settings);
            self.source = Some(source);
        }
        let mut sink: Option<Sink> = None;
        core::mem::swap(&mut sink, &mut self.sink);
        if let Some(mut sink) = sink {
            sink.start_data(&receive);
            self.sink = Some(sink);
        }
        self.rate = rate;
    }

    /// Data stops until both ends are in data mode again, at the rate the two
    /// MPs agree.
    pub fn renegotiate(&mut self)
        requires
            old(self).valid(),
        ensures
            final(self).valid(),
            final(self)@ == old(self)@.renegotiated(),
    {
        let mut source: Option<Source> = None;
        core::mem::swap(&mut source, &mut self.source);
        if let Some(mut source) = source {
            if source.renegotiate() {
                self.far.forget_mp();
            }
            self.source = Some(source);
        }
    }

    /// Starts ending the call with the far end, from data mode.
    pub fn clear_down(&mut self)
        requires
            old(self).valid(),
        ensures
            final(self).valid(),
            final(self)@ == old(self)@.clearing_down(),
    {
        let mut source: Option<Source> = None;
        core::mem::swap(&mut source, &mut self.source);
        if let Some(mut source) = source {
            if source.clear_down() {
                self.far.forget_mp();
            }
            self.source = Some(source);
        }
    }

    /// Whether the two ends have agreed to end the call, from either side.
    #[must_use]
    pub fn cleared(&self) -> (cleared: bool)
        ensures
            cleared == self@.spec_cleared(),
    {
        match &self.source {
            Some(source) => matches!(source.script().send, crate::v34::source::Send::Cleared),
            None => false,
        }
    }

    /// Whether data flows both ways.
    #[must_use]
    pub fn connected(&self) -> (connected: bool)
        ensures
            connected == self@.spec_connected(),
    {
        match (&self.source, &self.sink) {
            (Some(source), Some(sink)) => source.script().b1_sent && sink.in_data(),
            _ => false,
        }
    }

    /// Asks the far end to train again, from data mode. Gives the INFO0 to
    /// run phase 2 again with.
    pub fn retrain(&mut self) -> (far: Option<Info0>)
        requires
            old(self).valid(),
        ensures
            final(self).valid(),
            old(self)@.spec_connected() ==> final(self)@ == old(self)@.restarted() && far == old(
                self,
            )@.runs_phase2(),
            !old(self)@.spec_connected() ==> final(self)@ == old(self)@ && far is None,
    {
        if self.connected() {
            self.restart()
        } else {
            None
        }
    }

    /// § 11.5 and § 11.6 leave it to each end when to retrain or renegotiate:
    /// `margin` is what the equaliser leaves over `samples` in data mode.
    /// Gives the INFO0 to run phase 2 again with.
    pub fn watch(&mut self, margin: Margin, can_rise: bool, samples: usize) -> (far: Option<Info0>)
        requires
            old(self).valid(),
        ensures
            final(self).valid(),
            (final(self)@, far) == old(self)@.watching(margin, can_rise, samples as int),
    {
        if !self.connected() {
            self.monitor.leave(samples);
            return None;
        }
        self.online = true;
        match self.monitor.watch(margin, self.rate, can_rise, samples) {
            Some(Action::Renegotiate) => {
                self.renegotiate();
                None
            },
            Some(Action::Retrain) => self.restart(),
            None => None,
        }
    }
}

impl V34 {
    /// Whether phases 3 and 4 have begun.
    #[must_use]
    pub fn training(&self) -> (training: bool)
        ensures
            training == (self@.source is Some && self@.sink is Some),
    {
        self.source.is_some() && self.sink.is_some()
    }

    /// The data rate, in bit/s.
    #[must_use]
    pub fn bit_rate(&self) -> (rate: u32)
        ensures
            rate == self@.rate * 2400,
    {
        self.rate as u32 * 2400
    }

    /// Whether the call has been connected, and has not ended.
    #[must_use]
    pub fn online(&self) -> (online: bool)
        ensures
            online == self@.online,
    {
        self.online
    }

    /// The MP that the far end sent last, in phase 4 or a renegotiation.
    #[must_use]
    pub fn far_mp(&self) -> (mp: Option<Mp>)
        ensures
            mp == self@.far.mp,
    {
        self.far.mp
    }

    /// What phase 2 settled.
    #[must_use]
    pub fn outcome(&self) -> (outcome: Option<Outcome>)
        ensures
            outcome == self@.outcome,
    {
        self.outcome
    }

    /// The next symbol to send.
    pub fn next(&mut self) -> (sent: Sent)
        requires
            old(self).valid(),
        ensures
            final(self).valid(),
            match old(self)@.source {
                Some(source) => {
                    let (next, after) = source.going_on(old(self)@.far);
                    sent == next && final(self)@ == (Running { source: Some(after), ..old(self)@ })
                },
                None => sent is Silence && final(self)@ == old(self)@,
            },
    {
        let mut source: Option<Source> = None;
        core::mem::swap(&mut source, &mut self.source);
        match source {
            Some(mut source) => {
                let ghost before = source@;
                let sent = source.next(&self.far);
                proof {
                    lemma_keeps_mp(before, self.far);
                }
                self.source = Some(source);
                sent
            },
            None => Sent::Silence,
        }
    }

    /// Takes what the detector found with the next symbol, and gives how the
    /// front end is to track from now on, where that changes.
    pub fn hear(&mut self, heard: Option<Heard>) -> (tracking: Option<Tracking>)
        requires
            old(self).valid(),
            match heard {
                Some(Heard::SBar(at)) => at <= CLOCK_LIMIT,
                _ => true,
            },
        ensures
            final(self).valid(),
            match old(self)@.sink {
                Some(sink) => {
                    let told = sink.heard(heard, old(self)@.far);
                    &&& final(self)@ == (Running {
                        sink: Some(told.hearing),
                        far: told.far,
                        ..old(self)@
                    })
                    &&& tracking == if heard is Some && heard->0 is SBar && sink.ear.listen is S {
                        Some(Tracking::Train)
                    } else {
                        None
                    }
                },
                None => final(self)@ == old(self)@ && tracking is None,
            },
    {
        let mut sink: Option<Sink> = None;
        core::mem::swap(&mut sink, &mut self.sink);
        match sink {
            Some(mut sink) => {
                let mut far = self.far;
                let tracking = sink.hear(heard, &mut far);
                self.far = far;
                self.sink = Some(sink);
                tracking
            },
            None => None,
        }
    }

    /// What the equaliser is to learn from the symbol at `index`.
    pub fn target(&mut self, index: usize) -> (target: Target)
        requires
            old(self).valid(),
            index <= CLOCK_LIMIT,
        ensures
            final(self).valid(),
            final(self)@.far == old(self)@.far,
            final(self)@.source == old(self)@.source,
            match old(self)@.sink {
                Some(sink) => {
                    &&& target == sink.spec_target(index as int)
                    &&& final(self)@ == (Running {
                        sink: Some(sink.learnt(index as int)),
                        ..old(self)@
                    })
                },
                None => target is Nothing && final(self)@ == old(self)@,
            },
    {
        let mut sink: Option<Sink> = None;
        core::mem::swap(&mut sink, &mut self.sink);
        match sink {
            Some(mut sink) => {
                let target = sink.target(index);
                self.sink = Some(sink);
                target
            },
            None => Target::Nothing,
        }
    }

    /// Takes the symbol at `index`, whose nearest of the 4 points is in
    /// `quadrant`, where the far TRN is heard well enough for `trained`.
    pub fn take(&mut self, quadrant: u8, index: usize, trained: u8)
        requires
            old(self).valid(),
            quadrant < 4,
            index <= CLOCK_LIMIT,
        ensures
            final(self).valid(),
            match old(self)@.sink {
                Some(sink) => {
                    let told = sink.taken(quadrant, index as int, trained, old(self)@.far);
                    final(self)@ == (Running {
                        sink: Some(told.hearing),
                        far: told.far,
                        ..old(self)@
                    })
                },
                None => final(self)@ == old(self)@,
            },
    {
        let mut sink: Option<Sink> = None;
        core::mem::swap(&mut sink, &mut self.sink);
        if let Some(mut sink) = sink {
            let mut far = self.far;
            sink.take(quadrant, index, trained, &mut far);
            self.far = far;
            self.sink = Some(sink);
        }
    }

    /// Takes a decoded bit, and gives its data bit once B1 is over.
    pub fn data_bit(&mut self, line: bool) -> (data: Option<bool>)
        requires
            old(self).valid(),
        ensures
            final(self).valid(),
            match old(self)@.sink {
                Some(sink) => {
                    &&& data == sink.data_of(line)
                    &&& final(self)@ == (Running {
                        sink: Some(sink.with_data_line(line)),
                        ..old(self)@
                    })
                },
                None => data is None && final(self)@ == old(self)@,
            },
    {
        let mut sink: Option<Sink> = None;
        core::mem::swap(&mut sink, &mut self.sink);
        match sink {
            Some(mut sink) => {
                let data = sink.data_bit(line);
                self.sink = Some(sink);
                data
            },
            None => None,
        }
    }

    /// Whether B1 is still to come, so that timing is followed closely.
    #[must_use]
    pub fn skips(&self) -> (skips: bool)
        ensures
            skips == (match self@.sink {
                Some(sink) => sink.ear.skip_bits > 0,
                None => false,
            }),
    {
        match &self.sink {
            Some(sink) => sink.ear().skip_bits > 0,
            None => false,
        }
    }

    /// Whether a decoder for the rate agreed on is there.
    #[must_use]
    pub fn decoding(&self) -> (decoding: bool)
        ensures
            decoding == (match self@.sink {
                Some(sink) => sink.ear.decoding,
                None => false,
            }),
    {
        match &self.sink {
            Some(sink) => sink.ear().decoding,
            None => false,
        }
    }

    /// Queues bits to send.
    pub fn push_bits(&mut self, bits: &[bool])
        requires
            old(self).valid(),
        ensures
            final(self).valid(),
            final(self)@ == (match old(self)@.source {
                Some(source) => Running {
                    source: Some(Transmitting { line: source.line.with_bits(bits@), ..source }),
                    ..old(self)@
                },
                None => old(self)@,
            }),
    {
        let mut source: Option<Source> = None;
        core::mem::swap(&mut source, &mut self.source);
        if let Some(mut source) = source {
            source.push_bits(bits);
            self.source = Some(source);
        }
    }

    /// Bits queued but not yet started.
    #[must_use]
    pub fn pending(&self) -> (pending: usize)
        ensures
            pending == (match self@.source {
                Some(source) => source.line.bits.len(),
                None => 0,
            }),
    {
        match &self.source {
            Some(source) => source.pending(),
            None => 0,
        }
    }
}

/// Sending keeps the role and this end's own MP.
proof fn lemma_keeps_mp(source: Transmitting, far: Far)
    ensures
        source.refilled(far).script.mp == source.script.mp,
        source.refilled(far).script.role == source.script.role,
{
}

impl Running {
    /// Out of data mode, to end the call.
    pub open spec fn clearing_down(self) -> Self {
        match self.source {
            Some(source) => if source.script.send is Data {
                Self {
                    source: Some(
                        Transmitting {
                            script: source.script.clearing_down(),
                            ..source.renegotiating()
                        },
                    ),
                    far: self.far.without_mp(),
                    ..self
                }
            } else {
                self
            },
            None => self,
        }
    }

    /// As `margin` over `samples` leaves it, and the INFO0 to run phase 2
    /// again with.
    pub open spec fn watching(self, margin: Margin, can_rise: bool, samples: int) -> (Self, Option<Info0>) {
        if self.spec_connected() {
            let watched = Self {
                monitor: self.monitor.watched(margin, self.rate, can_rise, samples),
                online: true,
                ..self
            };
            match self.monitor.judged(self.rate).counted(margin, can_rise, samples).due() {
                Some(Action::Retrain) => (watched.restarted(), watched.runs_phase2()),
                Some(Action::Renegotiate) => (watched.renegotiated(), None),
                None => (watched, None),
            }
        } else {
            (Self { monitor: self.monitor.left(samples), ..self }, None)
        }
    }

    /// Out of data mode, for the two MPs to agree on a rate again.
    pub open spec fn renegotiated(self) -> Self {
        match self.source {
            Some(source) => if source.script.send is Data {
                Self {
                    source: Some(source.renegotiating()),
                    far: self.far.without_mp(),
                    ..self
                }
            } else {
                self
            },
            None => self,
        }
    }
}

/// Whichever end works it out, the two MPs agree on the same rate.
pub proof fn law_both_ends_agree_on_one_rate(call: Mp, answer: Mp, ours: u8, theirs: u8)
    requires
        least(maxima(call, answer)) <= 16,
        agreed(call, answer, ours),
        agreed(answer, call, theirs),
    ensures
        ours == theirs,
{
    let most = maxima(call, answer);
    assert(maxima(answer, call) =~= seq![most[2], most[3], most[0], most[1]]);
    crate::v34::rates::law_both_ends_agree_on_one_rate(
        most,
        seq![call.rates, answer.rates],
        ours,
        theirs,
    );
}

/// § 11.5: a retrain goes back to phase 2 with the far INFO0, and with nothing
/// of what the far end said since. Where phase 2 of V.90 carries it, it is
/// asked for there, and V.34 stays as it is.
pub proof fn law_a_retrain_goes_back_to_phase_2(running: Running)
    requires
        running.outcome is Some,
    ensures
        running.retrains is Here ==> {
            let after = running.restarted();
            &&& running.runs_phase2() == Some(running.outcome->0.far)
            &&& after.outcome is None && after.source is None && after.sink is None
            &&& after.far.mp is None && after.far.j is None && !after.far.trn && !after.far.ack
            &&& after.far.trained is None
            &&& after.role == running.role && after.rate == running.rate && after.online
                == running.online
            &&& !after.spec_connected()
        },
        running.retrains is InV90 ==> {
            let after = running.restarted();
            &&& running.runs_phase2() is None
            &&& after.retrains == (Retrains::InV90 { asked: true })
            &&& after.source == running.source && after.sink == running.sink
        },
{
}

/// § 11.4.2 and § 11.5: the far tone counts from phase 4 on and while it
/// lasts, up to what starts a retrain: more than 50 ms of it.
pub proof fn law_more_than_50_ms_of_the_far_tone_retrain(
    running: Running,
    present: bool,
    length: int,
)
    requires
        0 <= running.tone_heard <= 401,
        length >= 0,
    ensures
        ({
            let heard = running.tone_after(present, length);
            let counts = present && running.source is Some && running.source->0.script.phase == 4;
            &&& (heard > 400) == (counts && running.tone_heard + length > 50 * 8)
            &&& !counts ==> heard == 0
            &&& counts && heard <= 400 ==> heard == running.tone_heard + length
        }),
{
}

/// A renegotiation from data mode keeps the call: it takes back only the far
/// MP and what it led to, sends S and S̄ and TRN again, and no data until a
/// rate is agreed on.
pub proof fn law_a_renegotiation_keeps_the_call(running: Running)
    requires
        running.source is Some,
        running.source->0.script.send is Data,
    ensures
        ({
            let after = running.renegotiated();
            let source = after.source->0;
            &&& after.source is Some
            &&& source.script.send == (crate::v34::source::Send::Trn { sent: 0 })
            &&& !source.script.b1_sent && source.line.encoding is None
            &&& source.line.bits == running.source->0.line.bits
            &&& source.line.queue.len() == running.source->0.line.queue.len() + 144
            &&& after.far.mp is None && !after.far.ack && !after.far.trn && after.far.trained is None
            &&& after.far.renegotiations == running.far.renegotiations
            &&& after.outcome == running.outcome && after.sink == running.sink
            &&& after.online == running.online && after.rate == running.rate
            &&& !after.spec_connected()
        }),
{
}

/// Data flows once B1 has been sent and heard.
pub proof fn law_connected_once_b1_is_over_both_ways(running: Running)
    ensures
        running.spec_connected() == (running.source is Some && running.sink is Some
            && running.source->0.script.b1_sent && running.sink->0.ear.decoding
            && running.sink->0.ear.skip_bits == 0 && running.sink->0.ear.listen is Data),
{
}

/// 70 ms of silence, in symbols of each rate. The answer modem keeps it, then
/// sends S, S̄ and PP; the call modem has nothing to send yet.
pub proof fn law_the_answer_modem_is_silent_for_70_ms(rate: SymbolRate, outcome: Outcome, i: int)
    requires
        0 <= i,
    ensures
        spec_silence(rate) == match rate {
            SymbolRate::S2400 => 168int,
            SymbolRate::S2743 => 192int,
            SymbolRate::S2800 => 196int,
            SymbolRate::S3000 => 210int,
            SymbolRate::S3200 => 224int,
            SymbolRate::S3429 => 240int,
        },
        first_line(Role::Originate, outcome).queue.len() == 0,
        ({
            let queue = first_line(Role::Answer, outcome).queue;
            let silent = spec_silence(outcome.transmit.symbol_rate);
            &&& queue.len() == silent + 144 + pp_symbols().len()
            &&& i < silent ==> queue[i] == Sent::Silence
            &&& i < 144 ==> queue[silent + i] == s_and_s_bar()[i]
            &&& i < pp_symbols().len() ==> queue[silent + 144 + i] == pp_symbols()[i]
        }),
{
    assert(s_and_s_bar().len() == 144);
    lemma_silence(rate);
    lemma_silence(outcome.transmit.symbol_rate);
}

proof fn lemma_silence(rate: SymbolRate)
    ensures
        spec_silence(rate) == match rate {
            SymbolRate::S2400 => 168int,
            SymbolRate::S2743 => 192int,
            SymbolRate::S2800 => 196int,
            SymbolRate::S3000 => 210int,
            SymbolRate::S3200 => 224int,
            SymbolRate::S3429 => 240int,
        },
{
    let (a, c) = (rate.spec_ratio().0 as int, rate.spec_ratio().1 as int);
    assert(a == 1 && c == 1 ==> 168 * a / c == 168) by (nonlinear_arith);
    assert(a == 8 && c == 7 ==> 168 * a / c == 192) by (nonlinear_arith);
    assert(a == 7 && c == 6 ==> 168 * a / c == 196) by (nonlinear_arith);
    assert(a == 5 && c == 4 ==> 168 * a / c == 210) by (nonlinear_arith);
    assert(a == 4 && c == 3 ==> 168 * a / c == 224) by (nonlinear_arith);
    assert(a == 10 && c == 7 ==> 168 * a / c == 240) by (nonlinear_arith);
}

/// The first MP asks for the most that the receiver here can take, and leaves
/// the other direction to the far end.
pub proof fn law_the_first_mp_asks_for_what_is_heard(running: Running, outcome: Outcome, mp: Mp)
    requires
        is_first_mp(running, outcome, mp),
    ensures
        running.role is Originate ==> mp.max_call_to_answer == 14 && mp.max_answer_to_call == outcome.receive.max_rate,
        running.role is Answer ==> mp.max_answer_to_call == 14 && mp.max_call_to_answer == outcome.receive.max_rate,
        leaves_open(running.role, mp),
        mp.trellis == running.asks.trellis,
        mp.nonlinear == running.asks.nonlinear,
        mp.expanded_shaping == running.asks.expanded_shaping,
        mp.precoding is Some ==> mp.precoding == Some(running.asks.precoding),
        !mp.auxiliary && !mp.acknowledge && !mp.asymmetric,
{
}

/// Each end encodes as the far MP asks, and decodes as its own does, both at
/// the rate agreed on. The bits of B1, one data frame, are not data.
pub proof fn law_data_is_sent_as_the_far_mp_asks(
    running: Running,
    next: Running,
    rate: u8,
    transmit: Framing,
    receive: Framing,
    settings: Settings,
)
    requires
        running.may_agree(),
        running.is_agreed_as(next, rate, transmit, receive, settings),
        receive.valid(),
    ensures
        next.rate == rate,
        transmit.bit_rate == (2400 * rate) as u32 && receive.bit_rate == (2400 * rate) as u32,
        transmit.symbol_rate == running.outcome->0.transmit.symbol_rate,
        receive.symbol_rate == running.outcome->0.receive.symbol_rate,
        settings.trellis == running.far.mp->0.trellis,
        settings.nonlinear == running.far.mp->0.nonlinear,
        running.far.mp->0.precoding is Some ==> settings.precoding == running.far.mp->0.precoding->0,
        running.far.mp->0.precoding is None ==> settings.precoding@ == seq![(0i16, 0i16), (0i16, 0i16), (0i16, 0i16)],
        next.source->0.script.encoding,
        next.source->0.script.b1_frames == transmit.p,
        next.sink->0.ear.decoding,
        next.sink->0.ear.skip_bits == receive.r * receive.b + (receive.p - receive.r) * (receive.b - 1),
        next.role == running.role && next.far == running.far && next.outcome == running.outcome,
{
    crate::v34::framing::law_framings_fit(receive);
    let (p, b, r) = (receive.p as int, receive.b as int, receive.r as int);
    assert(r * b + (p - r) * (b - 1) == p * b - (p - r)) by (nonlinear_arith);
    assert(0 <= p * b <= 16 * 79) by (nonlinear_arith)
        requires
            0 <= p <= 16,
            0 <= b <= 79,
    ;
    assert(p * b >= p) by (nonlinear_arith)
        requires
            p >= 0,
            b >= 1,
    ;
}

/// Two MPs can be agreed on once the far one has come and data has not begun.
pub proof fn law_agreeing_waits_for_the_far_mp(running: Running)
    ensures
        running.may_agree() ==> running.far.mp is Some && running.source is Some && running.sink is Some
            && running.outcome is Some && running.source->0.line.encoding is None,
        running.far.mp is None ==> !running.may_agree(),
{
}

/// A call is over once MP′ at 0 bit/s has gone both ways, and a rate is used
/// only where table 8 has it for both directions.
pub proof fn law_both_directions_carry_the_rate(running: Running, outcome: Outcome, rate: u8)
    ensures
        usable(outcome, rate) <==> in_table_8(outcome.transmit.symbol_rate, (2400 * rate) as u32) && in_table_8(
            outcome.receive.symbol_rate,
            (2400 * rate) as u32,
        ),
        running.spec_cleared() <==> running.source is Some && running.source->0.script.send is Cleared,
        running.in_phase_4() <==> running.source is Some && running.source->0.script.phase == 4,
{
}

/// What the margin leads to: a retrain runs phase 2 again, a renegotiation
/// goes back to TRN, and out of data mode nothing is done.
pub proof fn law_the_margin_leads_out_of_data(running: Running, margin: Margin, can_rise: bool, samples: int)
    ensures
        ({
            let (next, far) = running.watching(margin, can_rise, samples);
            let due = running.monitor.judged(running.rate).counted(margin, can_rise, samples).due();
            let watched = Running {
                monitor: running.monitor.watched(margin, running.rate, can_rise, samples),
                online: true,
                ..running
            };
            &&& !running.spec_connected() ==> far is None && next.source == running.source && next.sink == running.sink
                && next.rate == running.rate && next.online == running.online && next.monitor
                == running.monitor.left(samples)
            &&& running.spec_connected() && due == Some(Action::Retrain) ==> next == watched.restarted() && far
                == watched.runs_phase2()
            &&& running.spec_connected() && due == Some(Action::Renegotiate) ==> next == watched.renegotiated() && far
                is None
            &&& running.spec_connected() && due is None ==> next == watched && far is None
        }),
{
}

/// A call is ended from data mode only: the transmitter goes back to its
/// sequences and asks for 0 bit/s, and the far MP is waited for again.
pub proof fn law_a_call_is_ended_from_data(running: Running)
    ensures
        running.source is None || !(running.source->0.script.send is Data) ==> running.clearing_down() == running,
        running.source is Some && running.source->0.script.send is Data ==> ({
            let next = running.clearing_down();
            &&& next.source is Some
            &&& next.source->0.script.clearing
            &&& next.source->0.script.send is Mp
            &&& next.far.mp is None
            &&& next.sink == running.sink && next.rate == running.rate && next.outcome == running.outcome
        }),
{
}

} // verus!

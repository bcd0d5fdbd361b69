//! What the analogue modem sends up to the digital modem, from phase 3 on:
//! V.34 with Ja, CPt and CP (§ 9.3.2, § 9.4.2, § 9.6.2 and § 9.7).

use crate::pump::Role;
use crate::v34::encoder::Settings;
use crate::v34::framing::{in_table_8, Framing};
use crate::v34::mp::Mp;
use crate::v34::phase2::PcmOutcome;
use crate::v34::pump::{is_asked, silence_symbols, spec_silence};
use crate::v34::rates::{agree, is_agreed, mask, mask_bits};
use crate::v34::source::{pp_symbols, s_and_s_bar, Line, Lining, Sent, S_BAR_SYMBOLS, TRN_SYMBOLS};
use crate::v34::training::{s, s_bar, spec_s, spec_s_bar, Points};
use crate::v90::cp::{cp_frame, Cp};
use crate::v90::design::{descriptor, dil_sign, level_of, training_ucodes, DIL_LENGTHS};
use crate::v90::dil::{descriptor_frame, Descriptor};
use crate::v90::downstream::Events;
use crate::v90::listener::Listener;
use crate::v90::jd::Jd;
use vstd::prelude::*;

verus! {

#[derive(Debug, Clone, Copy, PartialEq, Eq, Structural)]
pub enum Send {
    /// Ja, until the Sd to S̄d transition.
    Ja,
    /// Silence, until Jd.
    Quiet,
    /// S, until Jd′.
    S,
    /// Silence through DIL, until it has shown the levels.
    Dil,
    /// CPt, until R̄i.
    Cpt,
    /// CP, then CP′ until MP′ or Ed.
    Cp,
    /// B1 and data.
    Data,
    /// Silence once a cleardown has ended the call.
    Cleared,
}

/// What is sent next.
#[derive(Debug, Clone, Copy, PartialEq, Eq, Structural)]
pub enum Order {
    Silence,
    Ja,
    /// Two symbols of S.
    S,
    /// S̄, which ends S.
    SBar,
    /// CPt and CP are to be designed from what DIL showed.
    Design,
    Cpt,
    Cp { acknowledge: bool },
    /// E, then data where the call is not over.
    E { over: bool },
    /// § 9.6.2.1: S and S̄, then CP.
    Renegotiate,
    Data { b1: bool },
}

/// Where the transmitter is.
#[derive(Debug, Clone, Copy, PartialEq, Eq, Structural)]
pub struct Script {
    pub send: Send,
    /// CP′ has been sent.
    pub acked: bool,
    pub encoding: bool,
    pub b1_frames: usize,
    pub b1_sent: bool,
    /// In multiples of 2400 bit/s.
    pub rate: u8,
    /// Renegotiations the digital modem has started, as far as this end has answered them.
    pub renegotiations: u32,
    /// A renegotiation to start at the next symbol.
    pub renegotiate: bool,
    /// This end started a cleardown, so its CP asks for 0 bit/s.
    pub clearing: bool,
    /// A rate renegotiation has begun.
    pub renegotiated: bool,
}

pub struct Sends {
    pub script: Script,
    pub order: Order,
}

/// § 9.7: a rate sequence of 0 bit/s.
pub open spec fn far_clears(events: Events) -> bool {
    match events.mp {
        Some(mp) => mp.max_answer_to_call == 0,
        None => false,
    }
}

impl Script {
    /// To renegotiate, or with `clearing` to end the call.
    pub open spec fn leaving_data(self, clearing: bool) -> Self {
        Self { renegotiate: true, clearing, b1_sent: false, ..self }
    }

    pub open spec fn fresh() -> Self {
        Self {
            send: Send::Ja,
            acked: false,
            encoding: false,
            b1_frames: 0,
            b1_sent: false,
            rate: 0,
            renegotiations: 0,
            renegotiate: false,
            clearing: false,
            renegotiated: false,
        }
    }

    /// The points of CPt, CP and E, as Jd asks for them (§ 8.5.2).
    pub open spec fn spec_points(self, jd: Option<Jd>) -> Points {
        match jd {
            Some(jd) => if self.renegotiated && jd.sixteen_points_renegotiating
                || !self.renegotiated && jd.sixteen_points {
                Points::Sixteen
            } else {
                Points::Four
            },
            None => Points::Four,
        }
    }

    fn points(&self, jd: Option<Jd>) -> (points: Points)
        ensures
            points == self.spec_points(jd),
    {
        match jd {
            Some(jd) => {
                let sixteen = if self.renegotiated {
                    jd.sixteen_points_renegotiating
                } else {
                    jd.sixteen_points
                };
                if sixteen {
                    Points::Sixteen
                } else {
                    Points::Four
                }
            },
            None => Points::Four,
        }
    }

    /// § 9.6.2.2: the responding modem answers the far R̄d; an initiating one
    /// has already begun.
    pub open spec fn responding(self, events: Events) -> Self {
        if events.renegotiations != self.renegotiations {
            Self {
                renegotiations: events.renegotiations,
                renegotiate: self.renegotiate || self.send is Data,
                ..self
            }
        } else {
            self
        }
    }

    pub open spec fn sending(self, send: Send) -> Self {
        Self { send, ..self }
    }

    pub open spec fn with_s(self, events: Events) -> Sends {
        if events.jd_prime {
            Sends { script: self.sending(Send::Dil), order: Order::SBar }
        } else {
            Sends { script: self.sending(Send::S), order: Order::S }
        }
    }

    pub open spec fn with_quiet(self, events: Events) -> Sends {
        if events.jd is Some || events.levels {
            self.with_s(events)
        } else {
            Sends { script: self.sending(Send::Quiet), order: Order::Silence }
        }
    }

    /// § 9.4.2.3 and § 9.4.2.4: CP until MP, CP′ until MP′ or Ed, then E.
    pub open spec fn with_cp(self, events: Events, designed: bool) -> Sends {
        let sending = self.sending(Send::Cp);
        if self.acked && events.mp_ack {
            let over = self.clearing || far_clears(events);
            Sends {
                script: self.sending(
                    if over {
                        Send::Cleared
                    } else {
                        Send::Data
                    },
                ),
                order: Order::E { over },
            }
        } else if !designed {
            Sends { script: sending, order: Order::Silence }
        } else {
            Sends {
                script: Self { acked: self.acked || events.mp is Some, ..sending },
                order: Order::Cp { acknowledge: events.mp is Some },
            }
        }
    }

    pub open spec fn with_data(self) -> Sends {
        if self.renegotiate {
            Sends {
                script: Self {
                    renegotiate: false,
                    renegotiated: true,
                    acked: false,
                    b1_sent: false,
                    send: Send::Cp,
                    ..self
                },
                order: Order::Renegotiate,
            }
        } else if !self.encoding {
            Sends { script: self, order: Order::Silence }
        } else if self.b1_frames > 0 {
            Sends {
                script: Self {
                    b1_frames: (self.b1_frames - 1) as usize,
                    b1_sent: self.b1_sent || self.b1_frames == 1,
                    ..self
                },
                order: Order::Data { b1: true },
            }
        } else {
            Sends { script: self, order: Order::Data { b1: false } }
        }
    }

    /// What is sent next, with whether a CP has been designed.
    pub open spec fn goes_on(self, events: Events, designed: bool) -> Sends {
        match self.send {
            Send::Ja => if events.sd {
                self.with_quiet(events)
            } else {
                Sends { script: self, order: Order::Ja }
            },
            Send::Quiet => self.with_quiet(events),
            Send::S => self.with_s(events),
            Send::Dil => Sends {
                script: self,
                order: if events.levels {
                    Order::Design
                } else {
                    Order::Silence
                },
            },
            Send::Cpt => if events.r_bar {
                self.with_cp(events, designed)
            } else {
                Sends { script: self, order: Order::Cpt }
            },
            Send::Cp => self.with_cp(events, designed),
            Send::Data => self.with_data(),
            Send::Cleared => Sends { script: self, order: Order::Silence },
        }
    }

    fn respond(&mut self, events: &Events)
        ensures
            *final(self) == old(self).responding(*events),
    {
        if events.renegotiations != self.renegotiations {
            self.renegotiations = events.renegotiations;
            self.renegotiate = self.renegotiate || matches!(self.send, Send::Data);
        }
    }

    fn s(&mut self, events: &Events) -> (order: Order)
        ensures
            ({
                let sends = old(self).with_s(*events);
                *final(self) == sends.script && order == sends.order
            }),
    {
        if events.jd_prime {
            self.send = Send::Dil;
            Order::SBar
        } else {
            self.send = Send::S;
            Order::S
        }
    }

    fn quiet(&mut self, events: &Events) -> (order: Order)
        ensures
            ({
                let sends = old(self).with_quiet(*events);
                *final(self) == sends.script && order == sends.order
            }),
    {
        if events.jd.is_some() || events.levels {
            self.s(events)
        } else {
            self.send = Send::Quiet;
            Order::Silence
        }
    }

    fn cp(&mut self, events: &Events, designed: bool) -> (order: Order)
        ensures
            ({
                let sends = old(self).with_cp(*events, designed);
                *final(self) == sends.script && order == sends.order
            }),
    {
        if self.acked && events.mp_ack {
            let far_clears = match events.mp {
                Some(mp) => mp.max_answer_to_call == 0,
                None => false,
            };
            let over = self.clearing || far_clears;
            self.send = if over {
                Send::Cleared
            } else {
                Send::Data
            };
            return Order::E { over };
        }
        self.send = Send::Cp;
        if !designed {
            return Order::Silence;
        }
        let acknowledge = events.mp.is_some();
        self.acked = self.acked || acknowledge;
        Order::Cp { acknowledge }
    }

    fn data(&mut self) -> (order: Order)
        ensures
            ({
                let sends = old(self).with_data();
                *final(self) == sends.script && order == sends.order
            }),
    {
        if self.renegotiate {
            self.renegotiate = false;
            self.renegotiated = true;
            self.acked = false;
            self.b1_sent = false;
            self.send = Send::Cp;
            return Order::Renegotiate;
        }
        if !self.encoding {
            return Order::Silence;
        }
        let b1 = self.b1_frames > 0;
        if b1 {
            self.b1_sent = self.b1_sent || self.b1_frames == 1;
            self.b1_frames -= 1;
        }
        Order::Data { b1 }
    }

    fn go_on(&mut self, events: &Events, designed: bool) -> (order: Order)
        ensures
            ({
                let sends = old(self).goes_on(*events, designed);
                *final(self) == sends.script && order == sends.order
            }),
    {
        match self.send {
            Send::Ja => if events.sd {
                self.quiet(events)
            } else {
                Order::Ja
            },
            Send::Quiet => self.quiet(events),
            Send::S => self.s(events),
            Send::Dil => if events.levels {
                Order::Design
            } else {
                Order::Silence
            },
            Send::Cpt => if events.r_bar {
                self.cp(events, designed)
            } else {
                Order::Cpt
            },
            Send::Cp => self.cp(events, designed),
            Send::Data => self.data(),
            Send::Cleared => Order::Silence,
        }
    }
}

/// Data follows CP′ and MP′ or Ed, and nothing follows a cleardown.
pub proof fn law_data_follows_the_acknowledgements(script: Script, events: Events, designed: bool)
    ensures
        ({
            let next = script.goes_on(events, designed);
            &&& !(script.send is Data) && next.script.send is Data ==> script.acked
                && events.mp_ack && !script.clearing && !far_clears(events)
            &&& script.send is Cleared ==> next.script == script && next.order is Silence
        }),
{
}

/// All that the transmitter keeps.
pub struct Transmitting {
    pub script: Script,
    pub line: Lining,
    pub outcome: PcmOutcome,
    /// The bits of Ja.
    pub ja: Seq<bool>,
    pub cpt: Option<Cp>,
    pub cp: Option<Cp>,
}

/// The rate that both enable, up to the maximum in MP (§ 9.4.2.4).
pub open spec fn is_chosen(outcome: PcmOutcome, mp: Mp, rate: u8) -> bool {
    let most = if mp.max_answer_to_call < 16 {
        mp.max_answer_to_call
    } else {
        16
    };
    exists|own: u16|
        #![trigger crate::v34::bits::field_bits(own as nat, 16)]
        crate::v34::bits::field_bits(own as nat, 16) == mask_bits(
            outcome.upstream.symbol_rate,
            14,
        ) && is_agreed(seq![most, most, most, most], seq![own, mp.rates], rate)
}

impl Transmitting {
    /// With data at the rate that MP allows, if there is one.
    pub open spec fn starts_data(self, mp: Option<Mp>, next: Self) -> bool {
        match mp {
            None => next == self,
            Some(mp) => exists|rate: u8| #[trigger]
                is_chosen(self.outcome, mp, rate) && if in_table_8(
                    self.outcome.upstream.symbol_rate,
                    (rate * 2400) as u32,
                ) {
                    exists|framing: Framing, settings: Settings| #[trigger]
                        framing.frames(
                            self.outcome.upstream.symbol_rate,
                            (rate * 2400) as u32,
                            mp.expanded_shaping,
                        ) && #[trigger] is_asked(mp, settings) && next == (Self {
                            line: self.line.starting_data(framing, settings),
                            script: Script {
                                encoding: true,
                                b1_frames: framing.p,
                                rate,
                                ..self.script
                            },
                            ..self
                        })
                } else {
                    next == self
                },
        }
    }

    /// With what an order other than `Design` sends.
    pub open spec fn ordered(self, order: Order, events: Events, next: Self) -> bool {
        let points = self.script.spec_points(events.jd);
        match order {
            Order::Silence | Order::Design => next == (Self {
                line: self.line.queued(seq![Sent::Silence]),
                ..self
            }),
            Order::Ja => next == (Self {
                line: self.line.sequenced(self.ja, Points::Four),
                ..self
            }),
            Order::S => next == (Self {
                line: self.line.queued(seq![Sent::Four(spec_s(0)), Sent::Four(spec_s(1))]),
                ..self
            }),
            Order::SBar => next == (Self {
                line: self.line.queued(
                    Seq::new(S_BAR_SYMBOLS as nat, |n: int| Sent::Four(spec_s_bar(n))),
                ),
                ..self
            }),
            Order::Cpt => next == (Self {
                line: match self.cpt {
                    Some(cpt) => self.line.sequenced(cp_frame(cpt), points),
                    None => self.line.queued(seq![Sent::Silence]),
                },
                ..self
            }),
            Order::Cp { acknowledge } => next == (Self {
                line: match self.cp {
                    Some(cp) => self.line.sequenced(
                        cp_frame(
                            Cp {
                                acknowledge,
                                rate: if self.script.clearing {
                                    0
                                } else {
                                    cp.rate
                                },
                                ..cp
                            },
                        ),
                        points,
                    ),
                    None => self.line,
                },
                ..self
            }),
            Order::E { over } => {
                let ended = Self { line: self.line.with_e(points), ..self };
                if over {
                    next == ended
                } else {
                    ended.starts_data(events.mp, next)
                }
            },
            Order::Renegotiate => next == (Self {
                line: self.line.restarted().queued(s_and_s_bar()),
                ..self
            }),
            Order::Data { b1 } => next == (Self { line: self.line.with_data(b1), ..self }),
        }
    }

    /// With the next symbols.
    pub open spec fn refills(self, events: Events, next: Self) -> bool {
        let sends = self.script.responding(events).goes_on(events, self.cp is Some);
        Self { script: sends.script, ..self }.ordered(sends.order, events, next)
    }

    /// With symbols to send.
    pub open spec fn readies(self, events: Events, next: Self) -> bool {
        if self.line.queue.len() == 0 {
            self.refills(events, next)
        } else {
            next == self
        }
    }

    /// What the transmitter waits for: the constellations.
    pub open spec fn wants_design(self, events: Events) -> bool {
        self.line.queue.len() == 0 && self.script.responding(events).goes_on(
            events,
            self.cp is Some,
        ).order is Design
    }
}

/// The upstream V.34 signal from phase 3 on.
#[derive(Debug)]
pub struct Upstream {
    script: Script,
    line: Line,
    outcome: PcmOutcome,
    ja: Vec<bool>,
    cpt: Option<Cp>,
    cp: Option<Cp>,
}

impl View for Upstream {
    type V = Transmitting;

    closed spec fn view(&self) -> Transmitting {
        Transmitting {
            script: self.script,
            line: self.line@,
            outcome: self.outcome,
            ja: self.ja@,
            cpt: self.cpt,
            cp: self.cp,
        }
    }
}

/// The first symbols of phase 3: 70 ms of silence, S, S̄, PP and TRN.
pub open spec fn trained(line: Lining, count: nat) -> Lining
    decreases count,
{
    if count == 0 {
        line
    } else {
        trained(line, (count - 1) as nat).with_trn(Points::Four)
    }
}

/// The descriptor of the DIL that this modem asks for.
pub open spec fn is_own_descriptor(uinfo: u8, d: Descriptor) -> bool {
    &&& d.signs@ == Seq::new(128, |k: int| dil_sign(k))
    &&& d.pattern@ == seq![true]
    &&& d.lengths@ == DIL_LENGTHS@
    &&& forall|c: int| 0 <= c < 8 ==> #[trigger] d.references@[c] == level_of(uinfo)
    &&& d.training@ == training_ucodes(level_of(uinfo))
}

impl Upstream {
    pub closed spec fn valid(self) -> bool {
        &&& self.line.valid()
        &&& self.line@.role == Role::Answer
        &&& self.script.encoding ==> self.line@.encoding is Some
    }

    #[must_use]
    pub fn new(outcome: PcmOutcome) -> (upstream: Self)
        ensures
            upstream.valid(),
            upstream@.script == Script::fresh(),
            upstream@.outcome == outcome,
            upstream@.cpt is None,
            upstream@.cp is None,
            exists|d: Descriptor| #[trigger]
                is_own_descriptor(outcome.uinfo, d) && upstream@.ja == descriptor_frame(d),
            ({
                let start = Lining::fresh(Role::Answer);
                let silence = Seq::new(
                    spec_silence(outcome.upstream.symbol_rate) as nat,
                    |i: int| Sent::Silence,
                );
                upstream@.line == trained(
                    start.queued(silence).queued(s_and_s_bar()).queued(pp_symbols()),
                    TRN_SYMBOLS as nat,
                )
            }),
    {
        let mut line = Line::new(Role::Answer);
        line.queue_silence(silence_symbols(outcome.upstream.symbol_rate));
        line.queue_s();
        line.queue_pp();
        let ghost before = line@;
        let mut n: usize = 0;
        while n < TRN_SYMBOLS
            invariant
                n <= TRN_SYMBOLS,
                line.valid(),
                line@ == trained(before, n as nat),
                line@.role == Role::Answer,
            decreases TRN_SYMBOLS - n,
        {
            line.queue_trn(Points::Four);
            n += 1;
            assert(trained(before, n as nat) == trained(before, (n - 1) as nat).with_trn(
                Points::Four,
            ));
        }
        let asked = descriptor(outcome.uinfo);
        assert(is_own_descriptor(outcome.uinfo, asked));
        Self {
            script: Script {
                send: Send::Ja,
                acked: false,
                encoding: false,
                b1_frames: 0,
                b1_sent: false,
                rate: 0,
                renegotiations: 0,
                renegotiate: false,
                clearing: false,
                renegotiated: false,
            },
            line,
            outcome,
            ja: asked.frame(),
            cpt: None,
            cp: None,
        }
    }

    #[must_use]
    pub fn script(&self) -> (script: Script)
        ensures
            script == self@.script,
    {
        self.script
    }

    /// CPt and CP, once they are designed.
    #[must_use]
    pub fn designed(&self) -> (designed: Option<(&Cp, &Cp)>)
        ensures
            match designed {
                Some((cpt, cp)) => self@.cpt == Some(*cpt) && self@.cp == Some(*cp),
                None => self@.cpt is None || self@.cp is None,
            },
    {
        match (&self.cpt, &self.cp) {
            (Some(cpt), Some(cp)) => Some((cpt, cp)),
            _ => None,
        }
    }

    /// Whether the constellations are to be designed before the next symbol.
    #[must_use]
    pub fn wants_design(&self, events: &Events) -> (wants: bool)
        ensures
            wants == self@.wants_design(*events),
    {
        let mut script = self.script;
        script.respond(events);
        self.line.is_empty() && matches!(
            script.go_on(events, self.cp.is_some()),
            Order::Design
        )
    }

    /// The rates that this modem's transmitter has, as CPt and CP carry them:
    /// bit n for (n + 2) · 2400 bit/s.
    #[must_use]
    pub fn own_rates(&self) -> (rates: u16)
        ensures
            exists|mask: u16|
                #![trigger crate::v34::bits::field_bits(mask as nat, 16)]
                crate::v34::bits::field_bits(mask as nat, 16) == mask_bits(
                    self@.outcome.upstream.symbol_rate,
                    14,
                ) && rates == mask / 2,
    {
        let rates = mask(self.outcome.upstream.symbol_rate, 14);
        rates / 2
    }

    /// § 9.3.2.10: CPt and CP from what DIL showed, then S and S̄ to end DIL.
    pub fn design(&mut self, cpt: Option<Cp>, cp: Option<Cp>)
        requires
            old(self).valid(),
        ensures
            final(self).valid(),
            final(self)@ == (Transmitting {
                script: old(self)@.script.sending(Send::Cpt),
                line: old(self)@.line.restarted().queued(s_and_s_bar()),
                cpt,
                cp,
                ..old(self)@
            }),
    {
        self.cpt = cpt;
        self.cp = cp;
        self.line.restart_training();
        self.line.queue_s();
        self.script.send = Send::Cpt;
    }

    fn start_data(&mut self, mp: Option<Mp>)
        requires
            old(self).valid(),
        ensures
            final(self).valid(),
            old(self)@.starts_data(mp, final(self)@),
    {
        let mp = match mp {
            Some(mp) => mp,
            None => {
                return;
            },
        };
        let own = mask(self.outcome.upstream.symbol_rate, 14);
        let most = if mp.max_answer_to_call < 16 {
            mp.max_answer_to_call
        } else {
            16
        };
        let maxima = [most, most, most, most];
        let masks = [own, mp.rates];
        assert(maxima@ =~= seq![most, most, most, most]);
        assert(masks@ =~= seq![own, mp.rates]);
        let rate = agree(maxima, masks);
        assert(crate::v34::bits::field_bits(own as nat, 16) == mask_bits(
            self.outcome.upstream.symbol_rate,
            14,
        ));
        assert(is_chosen(self.outcome, mp, rate));
        let bit_rate: u32 = rate as u32 * 2400;
        match Framing::new(self.outcome.upstream.symbol_rate, bit_rate, mp.expanded_shaping) {
            Some(framing) => {
                let precoding = match mp.precoding {
                    Some(precoding) => precoding,
                    None => [(0, 0), (0, 0), (0, 0)],
                };
                let settings = Settings {
                    trellis: mp.trellis,
                    nonlinear: mp.nonlinear,
                    precoding,
                };
                assert(mp.precoding is None ==> precoding@ =~= seq![
                    (0i16, 0i16),
                    (0i16, 0i16),
                    (0i16, 0i16),
                ]);
                assert(is_asked(mp, settings));
                self.line.start_data(framing, settings);
                self.script.encoding = true;
                self.script.b1_frames = framing.p;
                self.script.rate = rate;
            },
            None => {},
        }
    }

    #[verifier::spinoff_prover]
    #[verifier::rlimit(40)]
    fn carry_out(&mut self, order: Order, events: &Events)
        requires
            old(self).valid(),
            match order {
                Order::Data { .. } => old(self)@.line.encoding is Some,
                _ => true,
            },
        ensures
            final(self).valid(),
            old(self)@.ordered(order, *events, final(self)@),
    {
        let points = self.script.points(events.jd);
        match order {
            Order::Silence | Order::Design => {
                self.line.queue_silence(1);
                assert(Seq::new(1, |i: int| Sent::Silence) =~= seq![Sent::Silence]);
            },
            Order::Ja => self.line.queue_sequence(self.ja.as_slice(), Points::Four),
            Order::S => {
                self.line.queue_point(s(0));
                self.line.queue_point(s(1));
                assert(self@.line.queue =~= old(self)@.line.queue + seq![
                    Sent::Four(spec_s(0)),
                    Sent::Four(spec_s(1)),
                ]);
            },
            Order::SBar => self.queue_s_bar(),
            Order::Cpt => match &self.cpt {
                Some(cpt) => {
                    let frame = cpt.frame();
                    self.line.queue_sequence(frame.as_slice(), points);
                },
                None => {
                    self.line.queue_silence(1);
                    assert(Seq::new(1, |i: int| Sent::Silence) =~= seq![Sent::Silence]);
                },
            },
            Order::Cp { acknowledge } => {
                if let Some(cp) = &self.cp {
                    let frame = cp.frame_with(acknowledge, self.script.clearing);
                    self.line.queue_sequence(frame.as_slice(), points);
                }
            },
            Order::E { over } => {
                self.line.queue_e(points);
                if !over {
                    self.start_data(events.mp);
                }
            },
            Order::Renegotiate => {
                self.line.restart_training();
                self.line.queue_s();
            },
            Order::Data { b1 } => self.line.queue_data(b1),
        }
    }

    fn queue_s_bar(&mut self)
        requires
            old(self).valid(),
        ensures
            final(self).valid(),
            final(self)@ == (Transmitting {
                line: old(self)@.line.queued(
                    Seq::new(S_BAR_SYMBOLS as nat, |n: int| Sent::Four(spec_s_bar(n))),
                ),
                ..old(self)@
            }),
    {
        let ghost before = self@;
        let ghost all = Seq::new(S_BAR_SYMBOLS as nat, |n: int| Sent::Four(spec_s_bar(n)));
        let mut n: usize = 0;
        assert(before.line.queue + all.take(0) =~= before.line.queue);
        while n < S_BAR_SYMBOLS
            invariant
                n <= S_BAR_SYMBOLS,
                self.valid(),
                all == Seq::new(S_BAR_SYMBOLS as nat, |n: int| Sent::Four(spec_s_bar(n))),
                self@ == (Transmitting {
                    line: Lining { queue: before.line.queue + all.take(n as int), ..before.line },
                    ..before
                }),
            decreases S_BAR_SYMBOLS - n,
        {
            self.line.queue_point(s_bar(n));
            n += 1;
            assert(self@.line.queue =~= before.line.queue + all.take(n as int));
        }
        assert(all.take(n as int) =~= all);
    }

    /// The next symbol. Where the constellations are to be designed first, it
    /// is silence.
    #[verifier::spinoff_prover]
    #[verifier::rlimit(40)]
    pub fn next(&mut self, events: &Events) -> (sent: Sent)
        requires
            old(self).valid(),
        ensures
            final(self).valid(),
            exists|ready: Transmitting| {
                &&& #[trigger] old(self)@.readies(*events, ready)
                &&& if ready.line.queue.len() > 0 {
                    &&& sent == ready.line.queue[0]
                    &&& final(self)@ == (Transmitting { line: ready.line.popped(), ..ready })
                } else {
                    sent is Silence && final(self)@ == ready
                }
            },
    {
        if self.line.is_empty() {
            self.script.respond(events);
            let order = self.script.go_on(events, self.cp.is_some());
            self.carry_out(order, events);
        }
        let ghost ready = self@;
        assert(old(self)@.readies(*events, ready));
        let sent = match self.line.pop() {
            Some(sent) => sent,
            None => Sent::Silence,
        };
        sent
    }

    /// Starts a rate renegotiation from data mode, as § 9.6.2.1 has the
    /// analogue modem do, or a cleardown, and tells whether it did.
    pub fn renegotiate(&mut self, clearing: bool) -> (does: bool)
        requires
            old(self).valid(),
        ensures
            final(self).valid(),
            does == (old(self)@.script.send is Data),
            final(self)@ == (if does {
                Transmitting { script: old(self)@.script.leaving_data(clearing), ..old(self)@ }
            } else {
                old(self)@
            }),
    {
        if !matches!(self.script.send, Send::Data) {
            return false;
        }
        self.script.renegotiate = true;
        self.script.clearing = clearing;
        self.script.b1_sent = false;
        true
    }

    /// The downstream rate that CP asks for, in bit/s.
    #[must_use]
    pub fn bit_rate(&self) -> (rate: u32)
        ensures
            rate == (match self@.cp {
                Some(cp) => cp.spec_bit_rate(),
                None => 0,
            }),
    {
        match &self.cp {
            Some(cp) => cp.bit_rate(),
            None => 0,
        }
    }

    /// Queues bits to send.
    pub fn push_bits(&mut self, bits: &[bool])
        requires
            old(self).valid(),
        ensures
            final(self).valid(),
            final(self)@ == (Transmitting { line: old(self)@.line.with_bits(bits@), ..old(self)@ }),
    {
        self.line.push_bits(bits);
    }

    /// Bits queued but not yet started.
    #[must_use]
    pub fn pending(&self) -> (pending: usize)
        ensures
            pending == self@.line.bits.len(),
    {
        self.line.pending()
    }
}

/// Whether data flows both ways.
#[must_use]
pub fn connected(upstream: &Upstream, listener: &Listener) -> (connected: bool)
    ensures
        connected == (upstream@.script.b1_sent && listener.spec_in_data()),
{
    upstream.script().b1_sent && listener.in_data()
}

/// Starts a rate renegotiation from data mode, or a cleardown, with a new MP
/// to come.
pub fn renegotiate(upstream: &mut Upstream, listener: &mut Listener, clearing: bool)
    requires
        old(upstream).valid(),
        old(listener).valid(),
    ensures
        final(upstream).valid(),
        final(listener).valid(),
        old(upstream)@.script.send is Data ==> {
            &&& final(upstream)@ == (Transmitting {
                script: old(upstream)@.script.leaving_data(clearing),
                ..old(upstream)@
            })
            &&& old(listener).spec_downstream().forgot_mp(final(listener).spec_downstream())
            &&& final(listener).known() == old(listener).known()
        },
        !(old(upstream)@.script.send is Data) ==> final(upstream)@ == old(upstream)@
            && *final(listener) == *old(listener),
{
    if upstream.renegotiate(clearing) {
        listener.expect_renegotiation();
    }
}

/// What each part of phase 3 leads to. Ja goes on until Sd ends, silence
/// until Jd, and S until Jd′, which S̄ answers. DIL is heard in silence until
/// it has shown the levels, and the constellations are then to be designed.
pub proof fn law_phase_3_goes_from_ja_to_dil(script: Script, events: Events, designed: bool)
    ensures
        ({
            let sends = script.goes_on(events, designed);
            let known = events.jd is Some || events.levels;
            &&& Script::fresh().send == Send::Ja && !Script::fresh().acked && !Script::fresh().renegotiated
            &&& script.send == Send::Ja && !events.sd ==> sends.order == Order::Ja && sends.script == script
            &&& (script.send == Send::Ja && events.sd || script.send == Send::Quiet) && !known ==> sends.order
                == Order::Silence && sends.script == (Script { send: Send::Quiet, ..script })
            &&& (script.send == Send::Ja && events.sd || script.send == Send::Quiet) && known && !events.jd_prime
                ==> sends.order == Order::S && sends.script == (Script { send: Send::S, ..script })
            &&& script.send == Send::S && !events.jd_prime ==> sends.order == Order::S && sends.script == script
            &&& script.send == Send::S && events.jd_prime ==> sends.order == Order::SBar && sends.script == (Script {
                send: Send::Dil,
                ..script
            })
            &&& script.send == Send::Dil && !events.levels ==> sends.order == Order::Silence && sends.script == script
            &&& script.send == Send::Dil && events.levels ==> sends.order == Order::Design && sends.script == script
        }),
{
}

/// What each part of phase 4 leads to. CPt goes on until R̄, CP until CP′ has
/// gone and MP′ or Ed has come, and E then ends it, with data after B1, unless
/// either end asks for 0 bit/s. A renegotiation goes back to CP.
pub proof fn law_phase_4_goes_from_cpt_to_data(script: Script, events: Events, designed: bool)
    ensures
        ({
            let sends = script.goes_on(events, designed);
            let in_cp = script.send == Send::Cp || script.send == Send::Cpt && events.r_bar;
            let done = script.acked && events.mp_ack;
            let over = script.clearing || events.mp is Some && events.mp->0.max_answer_to_call == 0;
            &&& script.send == Send::Cpt && !events.r_bar ==> sends.order == Order::Cpt && sends.script == script
            &&& in_cp && !done && !designed ==> sends.order == Order::Silence && sends.script == (Script {
                send: Send::Cp,
                ..script
            })
            &&& in_cp && !done && designed ==> sends.order == (Order::Cp { acknowledge: events.mp is Some })
                && sends.script == (Script { send: Send::Cp, acked: script.acked || events.mp is Some, ..script })
            &&& in_cp && done && over ==> sends.order == (Order::E { over: true }) && sends.script == (Script {
                send: Send::Cleared,
                ..script
            })
            &&& in_cp && done && !over ==> sends.order == (Order::E { over: false }) && sends.script == (Script {
                send: Send::Data,
                ..script
            })
            &&& script.send == Send::Data && script.renegotiate ==> {
                &&& sends.order == Order::Renegotiate
                &&& sends.script.send == Send::Cp
                &&& sends.script.renegotiated && !sends.script.renegotiate && !sends.script.acked
                    && !sends.script.b1_sent
                &&& sends.script.rate == script.rate && sends.script.clearing == script.clearing
                    && sends.script.encoding == script.encoding
            }
            &&& script.send == Send::Data && !script.renegotiate && !script.encoding ==> sends.order == Order::Silence
                && sends.script == script
            &&& script.send == Send::Data && !script.renegotiate && script.encoding && script.b1_frames > 0 ==> {
                &&& sends.order == (Order::Data { b1: true })
                &&& sends.script.b1_frames == script.b1_frames - 1
                &&& sends.script.b1_sent == (script.b1_sent || script.b1_frames == 1)
                &&& sends.script.send == Send::Data
            }
            &&& script.send == Send::Data && !script.renegotiate && script.encoding && script.b1_frames == 0
                ==> sends.order == (Order::Data { b1: false }) && sends.script == script
            &&& script.send == Send::Cleared ==> sends.order == Order::Silence && sends.script == script
        }),
{
}

/// The R̄d of the digital modem, counted, calls for a renegotiation in data
/// mode, and nowhere else. CP goes on 16 points where Jd asks for them, which
/// it does apart for renegotiations.
pub proof fn law_a_far_r_bar_renegotiates(script: Script, events: Events)
    ensures
        script.responding(events).renegotiations == events.renegotiations,
        events.renegotiations == script.renegotiations ==> script.responding(events) == script,
        events.renegotiations != script.renegotiations ==> script.responding(events).renegotiate == (script.renegotiate
            || script.send == Send::Data),
        script.responding(events).send == script.send && script.responding(events).acked == script.acked,
        events.jd is None ==> script.spec_points(events.jd) == Points::Four,
        events.jd is Some && !script.renegotiated ==> (script.spec_points(events.jd) == Points::Sixteen
            <==> events.jd->0.sixteen_points),
        events.jd is Some && script.renegotiated ==> (script.spec_points(events.jd) == Points::Sixteen
            <==> events.jd->0.sixteen_points_renegotiating),
        far_clears(events) <==> (events.mp is Some && events.mp->0.max_answer_to_call == 0),
{
}

/// What each order puts on the line: two symbols of S at a time, 16 of S̄, and
/// 144 of both before a renegotiation, whose CP starts its scrambler anew. CPt
/// and CP go as the far end's Jd asked, CP asking for 0 bit/s in a cleardown.
pub proof fn law_each_order_has_its_symbols(sender: Transmitting, order: Order, events: Events, next: Transmitting)
    requires
        sender.ordered(order, events, next),
    ensures
        ({
            let queue = sender.line.queue;
            let points = sender.script.spec_points(events.jd);
            &&& order == Order::Silence || order == Order::Design ==> next.line.queue == queue.push(Sent::Silence)
            &&& order == Order::Ja ==> next.line == sender.line.sequenced(sender.ja, Points::Four)
            &&& order == Order::S ==> next.line.queue == queue.push(Sent::Four(spec_s(0))).push(Sent::Four(spec_s(1)))
            &&& order == Order::SBar ==> next.line.queue.len() == queue.len() + 16 && forall|n: int|
                0 <= n < 16 ==> #[trigger] next.line.queue[queue.len() + n] == Sent::Four(spec_s_bar(n))
            &&& order == Order::Cpt && sender.cpt is Some ==> next.line == sender.line.sequenced(
                cp_frame(sender.cpt->0),
                points,
            )
            &&& order == Order::Cpt && sender.cpt is None ==> next.line.queue == queue.push(Sent::Silence)
            &&& order is Cp && sender.cp is Some && !sender.script.clearing ==> next.line == sender.line.sequenced(
                cp_frame(Cp { acknowledge: order->acknowledge, ..sender.cp->0 }),
                points,
            )
            &&& order is Cp && sender.cp is Some && sender.script.clearing ==> next.line == sender.line.sequenced(
                cp_frame(Cp { acknowledge: order->acknowledge, rate: 0, ..sender.cp->0 }),
                points,
            )
            &&& order == (Order::E { over: true }) ==> next.line == sender.line.with_e(points)
            &&& order == (Order::E { over: false }) && events.mp is None ==> next.line == sender.line.with_e(points)
            &&& order == Order::Renegotiate ==> next.line.queue.len() == queue.len() + 144 && next.line.training
                == sender.line.restarted().training
            &&& order == (Order::Data { b1: true }) ==> next.line == sender.line.with_data(true)
            &&& order == (Order::Data { b1: false }) ==> next.line == sender.line.with_data(false)
            &&& !(order is E) ==> next.script == sender.script
        }),
{
    assert(sender.line.queue + seq![Sent::Silence] =~= sender.line.queue.push(Sent::Silence));
    assert(sender.line.queue + seq![Sent::Four(spec_s(0)), Sent::Four(spec_s(1))] =~= sender.line.queue.push(
        Sent::Four(spec_s(0)),
    ).push(Sent::Four(spec_s(1))));
}

/// Data goes out at the highest of the rates that this end has at its symbol
/// rate and MP enables, up to the maximum in MP, B1 being one data frame.
pub proof fn law_data_starts_at_the_rate_of_mp(sender: Transmitting, mp: Mp, next: Transmitting, n: int)
    requires
        sender.starts_data(Some(mp), next),
    ensures
        next.script.encoding && !sender.script.encoding ==> {
            let rate = next.script.rate;
            &&& rate <= mp.max_answer_to_call
            &&& rate > 0 ==> crate::v34::bits::field_bits(mp.rates as nat, 16)[rate - 1]
            &&& rate > 0 ==> mask_bits(sender.outcome.upstream.symbol_rate, 14)[rate - 1]
            &&& rate < n <= mp.max_answer_to_call && 1 <= n <= 16 ==> !(crate::v34::bits::field_bits(
                mp.rates as nat,
                16,
            )[n - 1] && mask_bits(sender.outcome.upstream.symbol_rate, 14)[n - 1])
            &&& next.line.encoding is Some
            &&& next.line.encoding->0.framing.bit_rate == rate * 2400
            &&& next.line.encoding->0.framing.symbol_rate == sender.outcome.upstream.symbol_rate
            &&& next.script.b1_frames == next.line.encoding->0.framing.p
            &&& next.line.encoding->0.frame == 0
        },
        !next.script.encoding ==> next == sender,
{
    let symbol_rate = sender.outcome.upstream.symbol_rate;
    if next.script.encoding && !sender.script.encoding {
        let rate = choose|rate: u8| #[trigger]
            is_chosen(sender.outcome, mp, rate) && if in_table_8(symbol_rate, (rate * 2400) as u32) {
                exists|framing: Framing, settings: Settings| #[trigger]
                    framing.frames(symbol_rate, (rate * 2400) as u32, mp.expanded_shaping) && #[trigger] is_asked(
                        mp,
                        settings,
                    ) && next == (Transmitting {
                        line: sender.line.starting_data(framing, settings),
                        script: Script { encoding: true, b1_frames: framing.p, rate, ..sender.script },
                        ..sender
                    })
            } else {
                next == sender
            };
        let most = if mp.max_answer_to_call < 16 {
            mp.max_answer_to_call
        } else {
            16
        };
        let own = choose|own: u16|
            #![trigger crate::v34::bits::field_bits(own as nat, 16)]
            crate::v34::bits::field_bits(own as nat, 16) == mask_bits(symbol_rate, 14) && is_agreed(
                seq![most, most, most, most],
                seq![own, mp.rates],
                rate,
            );
        let both = seq![own, mp.rates];
        assert(crate::v34::rates::enabled(both, rate as int) || rate == 0);
        assert(crate::v34::rates::enabled(both, n) ==> n <= rate || n > most);
    }
}

/// The DIL that this modem asks for: 128 signs, training symbols only, the
/// segments shorter the louder they are, and UINFO for every reference.
pub proof fn law_the_dil_asked_for(uinfo: u8, d: Descriptor, k: int)
    requires
        is_own_descriptor(uinfo, d),
        1 <= uinfo <= 127,
    ensures
        d.signs@.len() == 128,
        0 <= k < 128 ==> d.signs@[k] == dil_sign(k),
        d.pattern@.len() == 1 && d.pattern@[0],
        d.lengths@ == seq![19u8, 19, 19, 19, 19, 9, 3, 3],
        0 <= k < 8 ==> d.references@[k] == uinfo,
        d.training@ == training_ucodes(uinfo as int),
{
    assert(d.lengths@ =~= seq![19u8, 19, 19, 19, 19, 9, 3, 3]);
    if 0 <= k < 8 {
        assert(d.references@[k] == level_of(uinfo));
    }
}

/// What leads out of data mode asks for it, ends the call where it is to, and
/// counts data as not begun, with nothing else changed.
pub proof fn law_leaving_data_is_asked_for(script: Script, clearing: bool)
    ensures
        script.leaving_data(clearing).renegotiate,
        script.leaving_data(clearing).clearing == clearing,
        !script.leaving_data(clearing).b1_sent,
        script.leaving_data(clearing).send == script.send,
{
}

} // verus!

//! The symbols that an end of V.34 sends from phase 3 on: the training of
//! § 11.3 and § 11.4, rate renegotiations, cleardowns, and data.

use crate::pump::Role;
use crate::scrambler::{Polynomial, Scrambler, Scrambling};
use crate::v34::bits::pattern_bits;
use crate::v34::encoder::{
    bits_in, coding_before, frame_symbol, Coding, Encoder, Settings,
};
use crate::v34::framing::Framing;
use crate::v34::mp::{mp_frame, Mp, E_ONES};
use crate::v34::precoder::{fixed, silence, Fixed};
use crate::v34::constellation::{wide, Point};
use crate::v34::training::{
    pattern, pp, s, s_bar, sending_after, spec_pp, spec_s, spec_s_bar, symbols_of, Points, Sender,
    Sending, J_4, J_PRIME,
};
use std::collections::VecDeque;
use vstd::prelude::*;

verus! {

pub const S_SYMBOLS: usize = 128;

pub const S_BAR_SYMBOLS: usize = 16;

/// § 11.3.1: TRN for at least 512T; this modem sends twice that in phase 3.
pub const TRN_SYMBOLS: usize = 1024;

pub const TRN_LEAST: usize = 512;

pub open spec fn spec_polynomial(role: Role) -> Polynomial {
    match role {
        Role::Originate => Polynomial::V34_CALL,
        Role::Answer => Polynomial::V34_ANSWER,
    }
}

/// The scrambler of the end in `role`.
#[must_use]
pub fn polynomial(role: Role) -> (polynomial: Polynomial)
    ensures
        polynomial == spec_polynomial(role),
{
    match role {
        Role::Originate => Polynomial::V34_CALL,
        Role::Answer => Polynomial::V34_ANSWER,
    }
}

/// What the receive side has heard that the transmit side acts on.
#[derive(Debug, Clone, Copy, PartialEq, Eq)]
pub struct Far {
    /// S̄ heard from the far end: 1 in phase 3, 2 once its phase 4 begins.
    pub s_bar: u8,
    /// J, and the constellation it asks this end to train with.
    pub j: Option<Points>,
    /// The far phase 4 TRN measured, or ended by its MP.
    pub trn: bool,
    /// The highest rate that the far phase 4 TRN was heard well enough for.
    pub trained: Option<u8>,
    pub mp: Option<Mp>,
    /// MP′ or E from the far end.
    pub ack: bool,
    /// Rate renegotiations heard from the far end, by the S̄ that starts each.
    pub renegotiations: u32,
}

impl Far {
    pub open spec fn nothing() -> Self {
        Self {
            s_bar: 0,
            j: None,
            trn: false,
            trained: None,
            mp: None,
            ack: false,
            renegotiations: 0,
        }
    }

    /// What a new exchange of MP starts from.
    pub open spec fn without_mp(self) -> Self {
        Self { trn: false, trained: None, mp: None, ack: false, ..self }
    }

    pub fn forget_mp(&mut self)
        ensures
            *final(self) == old(self).without_mp(),
    {
        self.trn = false;
        self.trained = None;
        self.mp = None;
        self.ack = false;
    }

    /// Its MP asks for 0 bit/s both ways.
    pub open spec fn spec_clears(self) -> bool {
        match self.mp {
            Some(mp) => mp.max_call_to_answer == 0 && mp.max_answer_to_call == 0,
            None => false,
        }
    }

    #[must_use]
    pub fn clears(&self) -> (clears: bool)
        ensures
            clears == self.spec_clears(),
    {
        match self.mp {
            Some(mp) => mp.max_call_to_answer == 0 && mp.max_answer_to_call == 0,
            None => false,
        }
    }
}

impl Default for Far {
    fn default() -> (far: Self)
        ensures
            far == Self::nothing(),
    {
        Self {
            s_bar: 0,
            j: None,
            trn: false,
            trained: None,
            mp: None,
            ack: false,
            renegotiations: 0,
        }
    }
}

#[derive(Debug, Clone, Copy, PartialEq, Eq, Structural)]
pub enum Send {
    /// Silence until the receive side hears what this end waits for.
    Wait,
    /// The symbols of TRN sent, as far as they count.
    Trn { sent: usize },
    J,
    Mp,
    Data,
    /// Silence once a cleardown has ended the call.
    Cleared,
}

/// What is sent next.
#[derive(Debug, Clone, Copy, PartialEq, Eq)]
pub enum Order {
    /// One symbol of silence.
    Silence,
    /// S, S̄ and PP, with TRN from a new start after it.
    Phase3,
    /// S and S̄, with TRN from a new start after it.
    Phase4,
    /// One symbol of TRN.
    Trn(Points),
    J,
    /// J′, with TRN from a new start after it.
    JPrime,
    Mp(Mp, Points),
    E(Points),
    /// A mapping frame, of ones in B1.
    Data { b1: bool },
}

/// Where the transmitter is.
#[derive(Debug, Clone, Copy, PartialEq, Eq)]
pub struct Script {
    pub role: Role,
    pub send: Send,
    pub phase: u8,
    pub points: Points,
    pub mp: Mp,
    /// The MP′ sent, as far as they count.
    pub acks_sent: u8,
    /// The two MPs have agreed on a data rate.
    pub encoding: bool,
    pub b1_frames: usize,
    pub b1_sent: bool,
    pub renegotiations: u32,
    /// This end started a cleardown, so its MP asks for 0 bit/s both ways.
    pub clearing: bool,
}

pub open spec fn points_or_four(points: Option<Points>) -> Points {
    match points {
        Some(points) => points,
        None => Points::Four,
    }
}

/// A script, and what is sent next.
pub struct Sends {
    pub script: Script,
    pub order: Order,
}

impl Script {
    pub open spec fn spec_new(role: Role, mp: Mp) -> Self {
        Self {
            role,
            send: match role {
                Role::Answer => Send::Trn { sent: 0 },
                Role::Originate => Send::Wait,
            },
            phase: 3,
            points: Points::Four,
            mp,
            acks_sent: 0,
            encoding: false,
            b1_frames: 0,
            b1_sent: false,
            renegotiations: 0,
            clearing: false,
        }
    }

    pub open spec fn silent(self) -> Sends {
        Sends { script: self, order: Order::Silence }
    }

    /// § 11.6: S, S̄ and TRN, then MP, E and B1 as in phase 4, all on 4 points.
    pub open spec fn renegotiating(self) -> Self {
        Self {
            points: Points::Four,
            acks_sent: 0,
            encoding: false,
            b1_sent: false,
            send: Send::Trn { sent: 0 },
            ..self
        }
    }

    /// § 11.7.1.1: S and S̄, then MP asking for 0 bit/s, with no TRN.
    pub open spec fn clearing_down(self) -> Self {
        Self { clearing: true, send: Send::Mp, ..self.renegotiating() }
    }

    /// § 11.6.1.2.2: the responding modem answers the far S̄; an initiating
    /// one has already begun.
    pub open spec fn responds(self, far: Far) -> bool {
        far.renegotiations != self.renegotiations && self.send is Data
    }

    pub open spec fn responding(self, far: Far) -> Self {
        let heard = Self { renegotiations: far.renegotiations, ..self };
        if self.responds(far) {
            heard.renegotiating()
        } else {
            heard
        }
    }

    pub open spec fn waited(self, far: Far) -> Sends {
        if self.phase != 3 || far.j is None {
            self.silent()
        } else {
            match self.role {
                // § 11.3.1.1.3: the call modem trains the far end once it has J.
                Role::Originate => Sends {
                    script: Self { send: Send::Trn { sent: 0 }, ..self },
                    order: Order::Phase3,
                },
                // § 11.4.1.2.1: phase 4 starts with S and S̄, then TRN.
                Role::Answer => Sends {
                    script: Self {
                        phase: 4,
                        points: points_or_four(far.j),
                        send: Send::Trn { sent: 0 },
                        ..self
                    },
                    order: Order::Phase4,
                },
            }
        }
    }

    pub open spec fn enough_trn(self, sent: int, far: Far) -> bool {
        if self.phase == 3 {
            sent >= TRN_SYMBOLS
        } else {
            sent >= TRN_LEAST && far.trn
        }
    }

    pub open spec fn trained(self, sent: int, far: Far) -> Sends {
        if self.enough_trn(sent, far) {
            if self.phase == 3 {
                Self { send: Send::J, ..self }.with_j(far)
            } else {
                Self { send: Send::Mp, ..self }.with_mp(far)
            }
        } else {
            Sends {
                script: Self {
                    send: Send::Trn {
                        sent: (if sent < TRN_SYMBOLS {
                            sent + 1
                        } else {
                            sent
                        }) as usize,
                    },
                    ..self
                },
                order: Order::Trn(
                    if self.phase == 3 {
                        Points::Four
                    } else {
                        self.points
                    },
                ),
            }
        }
    }

    /// Phase 3 J, until the far S̄ that ends it.
    pub open spec fn with_j(self, far: Far) -> Sends {
        match self.role {
            Role::Answer => if far.s_bar >= 1 {
                Self { send: Send::Wait, ..self }.silent()
            } else {
                Sends { script: self, order: Order::J }
            },
            // § 11.4.1.1.1: J′, then TRN.
            Role::Originate => if far.s_bar >= 2 {
                Sends {
                    script: Self {
                        phase: 4,
                        points: points_or_four(far.j),
                        send: Send::Trn { sent: 0 },
                        ..self
                    },
                    order: Order::JPrime,
                }
            } else {
                Sends { script: self, order: Order::J }
            },
        }
    }

    /// Ours, with the rate the far TRN allows in the direction this end hears.
    pub open spec fn spec_own_mp(self, far: Far) -> Mp {
        match (far.trained, self.role) {
            (Some(trained), Role::Originate) => Mp { max_answer_to_call: trained, ..self.mp },
            (Some(trained), Role::Answer) => Mp { max_call_to_answer: trained, ..self.mp },
            (None, _) => self.mp,
        }
    }

    /// Ours, as it is sent.
    pub open spec fn sent_mp(self, far: Far) -> Mp {
        let own = self.spec_own_mp(far);
        Mp {
            max_call_to_answer: if self.clearing {
                0
            } else {
                own.max_call_to_answer
            },
            max_answer_to_call: if self.clearing {
                0
            } else {
                own.max_answer_to_call
            },
            acknowledge: far.mp is Some,
            ..own
        }
    }

    pub open spec fn with_mp(self, far: Far) -> Sends {
        // Two MP′ at least, as slmodemd may miss the first while it restarts its own MP.
        if self.acks_sent >= 2 && far.ack {
            // § 11.7: MP′ both ways ends a cleardown, with no E.
            if self.clearing || far.spec_clears() {
                Self { send: Send::Cleared, ..self }.silent()
            } else {
                Sends {
                    script: Self { send: Send::Data, ..self },
                    order: Order::E(self.points),
                }
            }
        } else {
            Sends {
                script: Self {
                    acks_sent: if far.mp is Some && self.acks_sent < 2 {
                        (self.acks_sent + 1) as u8
                    } else {
                        self.acks_sent
                    },
                    ..self
                },
                order: Order::Mp(self.sent_mp(far), self.points),
            }
        }
    }

    pub open spec fn with_data(self) -> Sends {
        if !self.encoding {
            self.silent()
        } else if self.b1_frames > 0 {
            Sends {
                script: Self {
                    b1_frames: (self.b1_frames - 1) as usize,
                    b1_sent: self.b1_sent || self.b1_frames == 1,
                    ..self
                },
                order: Order::Data { b1: true },
            }
        } else {
            Sends { script: self, order: Order::Data { b1: false } }
        }
    }

    /// What is sent next, once the far S̄ has been answered.
    pub open spec fn goes_on(self, far: Far) -> Sends {
        match self.send {
            Send::Wait => self.waited(far),
            Send::Trn { sent } => self.trained(sent as int, far),
            Send::J => self.with_j(far),
            Send::Mp => self.with_mp(far),
            Send::Data => self.with_data(),
            Send::Cleared => self.silent(),
        }
    }

    #[must_use]
    pub fn new(role: Role, mp: Mp) -> (script: Self)
        ensures
            script == Self::spec_new(role, mp),
    {
        let send = match role {
            Role::Answer => Send::Trn { sent: 0 },
            Role::Originate => Send::Wait,
        };
        Self {
            role,
            send,
            phase: 3,
            points: Points::Four,
            mp,
            acks_sent: 0,
            encoding: false,
            b1_frames: 0,
            b1_sent: false,
            renegotiations: 0,
            clearing: false,
        }
    }

    fn renegotiate(&mut self)
        ensures
            *final(self) == old(self).renegotiating(),
    {
        self.points = Points::Four;
        self.acks_sent = 0;
        self.encoding = false;
        self.b1_sent = false;
        self.send = Send::Trn { sent: 0 };
    }

    fn respond(&mut self, far: &Far) -> (restarts: bool)
        ensures
            *final(self) == old(self).responding(*far),
            restarts == old(self).responds(*far),
    {
        let heard = far.renegotiations != self.renegotiations;
        self.renegotiations = far.renegotiations;
        let responds = heard && matches!(self.send, Send::Data);
        if responds {
            self.renegotiate();
        }
        responds
    }

    /// Ours, with the rate the far TRN allows in the direction this end hears.
    #[must_use]
    pub fn own_mp(&self, far: &Far) -> (mp: Mp)
        ensures
            mp == self.spec_own_mp(*far),
    {
        let mut mp = self.mp;
        if let Some(trained) = far.trained {
            match self.role {
                Role::Originate => {
                    mp.max_answer_to_call = trained;
                },
                Role::Answer => {
                    mp.max_call_to_answer = trained;
                },
            }
        }
        mp
    }

    fn go_on(&mut self, far: &Far) -> (order: Order)
        ensures
            ({
                let sends = old(self).goes_on(*far);
                *final(self) == sends.script && order == sends.order
            }),
    {
        match self.send {
            Send::Wait => self.wait(far),
            Send::Trn { sent } => self.trn(sent, far),
            Send::J => self.j(far),
            Send::Mp => self.send_mp(far),
            Send::Data => self.data(),
            Send::Cleared => Order::Silence,
        }
    }

    fn wait(&mut self, far: &Far) -> (order: Order)
        ensures
            ({
                let sends = old(self).waited(*far);
                *final(self) == sends.script && order == sends.order
            }),
    {
        if self.phase != 3 {
            return Order::Silence;
        }
        match far.j {
            None => Order::Silence,
            Some(points) => {
                self.send = Send::Trn { sent: 0 };
                match self.role {
                    Role::Originate => Order::Phase3,
                    Role::Answer => {
                        self.phase = 4;
                        self.points = points;
                        Order::Phase4
                    },
                }
            },
        }
    }

    fn trn(&mut self, sent: usize, far: &Far) -> (order: Order)
        ensures
            ({
                let sends = old(self).trained(sent as int, *far);
                *final(self) == sends.script && order == sends.order
            }),
    {
        if self.phase == 3 {
            if sent >= TRN_SYMBOLS {
                self.send = Send::J;
                return self.j(far);
            }
        } else if sent >= TRN_LEAST && far.trn {
            self.send = Send::Mp;
            return self.send_mp(far);
        }
        let next = if sent < TRN_SYMBOLS {
            sent + 1
        } else {
            sent
        };
        self.send = Send::Trn { sent: next };
        Order::Trn(
            if self.phase == 3 {
                Points::Four
            } else {
                self.points
            },
        )
    }

    fn j(&mut self, far: &Far) -> (order: Order)
        ensures
            ({
                let sends = old(self).with_j(*far);
                *final(self) == sends.script && order == sends.order
            }),
    {
        match self.role {
            Role::Answer => {
                if far.s_bar >= 1 {
                    self.send = Send::Wait;
                    return Order::Silence;
                }
                Order::J
            },
            Role::Originate => {
                if far.s_bar >= 2 {
                    self.phase = 4;
                    self.points = match far.j {
                        Some(points) => points,
                        None => Points::Four,
                    };
                    self.send = Send::Trn { sent: 0 };
                    return Order::JPrime;
                }
                Order::J
            },
        }
    }

    fn send_mp(&mut self, far: &Far) -> (order: Order)
        ensures
            ({
                let sends = old(self).with_mp(*far);
                *final(self) == sends.script && order == sends.order
            }),
    {
        if self.acks_sent >= 2 && far.ack {
            if self.clearing || far.clears() {
                self.send = Send::Cleared;
                return Order::Silence;
            }
            self.send = Send::Data;
            return Order::E(self.points);
        }
        let mut mp = self.own_mp(far);
        if self.clearing {
            mp.max_call_to_answer = 0;
            mp.max_answer_to_call = 0;
        }
        mp.acknowledge = far.mp.is_some();
        if mp.acknowledge && self.acks_sent < 2 {
            self.acks_sent += 1;
        }
        Order::Mp(mp, self.points)
    }

    fn data(&mut self) -> (order: Order)
        ensures
            ({
                let sends = old(self).with_data();
                *final(self) == sends.script && order == sends.order
            }),
    {
        if !self.encoding {
            return Order::Silence;
        }
        let b1 = self.b1_frames > 0;
        if b1 {
            self.b1_sent = self.b1_sent || self.b1_frames == 1;
            self.b1_frames -= 1;
        }
        Order::Data { b1 }
    }
}

/// Data is sent only after two MP′, and an MP′ or E from the far end, and a
/// cleardown leads to no data.
pub proof fn law_data_follows_two_acknowledgements(script: Script, far: Far)
    ensures
        !(script.send is Data) && script.goes_on(far).script.send is Data ==> script.acks_sent >= 2
            && far.ack && !script.clearing && !far.spec_clears(),
        script.send is Cleared ==> script.goes_on(far).script == script && script.goes_on(
            far,
        ).order is Silence,
{
}

/// A cleardown that either end started ends with both cleared, once each has
/// sent MP′ and heard the other's.
pub proof fn law_both_ends_clear(ours: Script, theirs: Script, heard: Far, told: Far)
    requires
        ours.send is Mp,
        theirs.send is Mp,
        ours.acks_sent >= 2,
        theirs.acks_sent >= 2,
        heard.ack,
        told.ack,
        ours.clearing,
        told.mp == Some(ours.sent_mp(heard)),
    ensures
        ours.goes_on(heard).script.send is Cleared,
        theirs.goes_on(told).script.send is Cleared,
{
}

/// One symbol, as exact as it is.
#[derive(Debug, Clone, Copy, PartialEq, Eq)]
pub enum Sent {
    Silence,
    /// A point of the four, whose power is 2.
    Four(Point),
    /// A point of the sixteen, whose mean power is 10.
    Sixteen(Point),
    /// A turn of PP, in twelfths of a circle, on the unit circle.
    Turn(u8),
    /// x(n) of a mapping frame.
    Data(Fixed),
}

pub open spec fn point_sent(point: (int, int), points: Points) -> Sent {
    match points {
        Points::Four => Sent::Four((point.0 as i32, point.1 as i32)),
        Points::Sixteen => Sent::Sixteen((point.0 as i32, point.1 as i32)),
    }
}

/// S, then S̄.
pub open spec fn s_and_s_bar() -> Seq<Sent> {
    Seq::new(
        144,
        |n: int|
            if n < 128 {
                Sent::Four(spec_s(n))
            } else {
                Sent::Four(spec_s_bar(n - 128))
            },
    )
}

pub open spec fn pp_symbols() -> Seq<Sent> {
    Seq::new(288, |n: int| Sent::Turn(spec_pp(n) as u8))
}

/// The symbols of a sequence of bits.
pub open spec fn sequence_symbols(
    sending: Sending,
    bits: Seq<bool>,
    points: Points,
) -> Seq<Sent> {
    Seq::new(
        symbols_of(bits.len() as int, points) as nat,
        |n: int|
            point_sent(
                sending_after(sending, bits, points, n).point(
                    bits,
                    n * crate::v34::training::bits_per_symbol(points),
                    points,
                ),
                points,
            ),
    )
}

/// The encoder of data mode and its delays.
pub struct Encoding {
    pub framing: Framing,
    pub settings: Settings,
    pub frame: int,
    pub coding: Coding,
}

impl Encoding {
    /// As B1 starts it.
    pub open spec fn fresh(framing: Framing, settings: Settings) -> Self {
        Self {
            framing,
            settings,
            frame: 0,
            coding: Coding { quadrant: 0, state: 0, history: silence() },
        }
    }

    pub open spec fn of(encoder: Encoder) -> Self {
        Self {
            framing: encoder.framing(),
            settings: encoder.settings(),
            frame: encoder.frame(),
            coding: encoder.coding(),
        }
    }

    /// Symbol `i` of a mapping frame.
    pub open spec fn symbol(self, bits: Seq<bool>, i: int) -> Sent {
        let symbol = frame_symbol(
            self.framing,
            self.settings,
            self.coding,
            self.frame,
            bits,
            i / 2,
        );
        let x = if i % 2 == 0 {
            symbol.x_first
        } else {
            symbol.x_second
        };
        Sent::Data((x.0 as i64, x.1 as i64))
    }

    pub open spec fn after(self, bits: Seq<bool>) -> Self {
        Self {
            frame: (self.frame + 1) % (self.framing.p * self.framing.j),
            coding: coding_before(
                self.framing,
                self.settings,
                self.coding,
                self.frame,
                bits,
                4,
            ),
            ..self
        }
    }
}

/// The next `count` bits to scramble: ones in B1, else those queued, and
/// ones past the last.
pub open spec fn next_bits(queued: Seq<bool>, b1: bool, count: nat) -> Seq<bool> {
    Seq::new(
        count,
        |i: int|
            if !b1 && i < queued.len() {
                queued[i]
            } else {
                true
            },
    )
}

/// What is on its way to the line: symbols, the training sender, the encoder
/// of data mode, its scrambler, and the bits for it.
pub struct Lining {
    pub role: Role,
    pub queue: Seq<Sent>,
    pub training: Sending,
    pub encoding: Option<Encoding>,
    pub scrambling: Scrambling,
    pub bits: Seq<bool>,
}

impl Lining {
    pub open spec fn fresh(role: Role) -> Self {
        Self {
            role,
            queue: seq![],
            training: Sending {
                scrambling: Scrambling::fresh(spec_polynomial(role)),
                quadrant: 0,
            },
            encoding: None,
            scrambling: Scrambling::fresh(spec_polynomial(role)),
            bits: seq![],
        }
    }

    /// TRN from a new start.
    pub open spec fn restarted(self) -> Self {
        Self {
            training: Sending {
                scrambling: Scrambling::fresh(spec_polynomial(self.role)),
                quadrant: 0,
            },
            ..self
        }
    }

    pub open spec fn queued(self, symbols: Seq<Sent>) -> Self {
        Self { queue: self.queue + symbols, ..self }
    }

    /// The symbols of `bits`, and what the training sender is after them.
    pub open spec fn sequenced(self, bits: Seq<bool>, points: Points) -> Self {
        Self {
            training: sending_after(
                self.training,
                bits,
                points,
                symbols_of(bits.len() as int, points),
            ),
            ..self.queued(sequence_symbols(self.training, bits, points))
        }
    }

    /// With one symbol of TRN.
    pub open spec fn with_trn(self, points: Points) -> Self {
        Self {
            training: self.training.from_zero().after(Seq::empty(), 0, points),
            ..self.queued(
                seq![
                    point_sent(
                        self.training.from_zero().point(Seq::empty(), 0, points),
                        points,
                    ),
                ],
            )
        }
    }

    /// With E.
    pub open spec fn with_e(self, points: Points) -> Self {
        self.sequenced(Seq::new(E_ONES as nat, |i: int| true), points)
    }

    /// With a mapping frame, of ones in B1.
    pub open spec fn with_data(self, b1: bool) -> Self {
        match self.encoding {
            Some(encoding) => {
                let count = bits_in(encoding.framing, encoding.frame) as nat;
                let bits = next_bits(self.bits, b1, count);
                let line = crate::scrambler::scrambled(self.scrambling, bits);
                Self {
                    encoding: Some(encoding.after(line)),
                    scrambling: crate::scrambler::scrambling_after(self.scrambling, bits),
                    bits: if b1 {
                        self.bits
                    } else if count <= self.bits.len() {
                        self.bits.skip(count as int)
                    } else {
                        seq![]
                    },
                    ..self.queued(Seq::new(8, |i: int| encoding.symbol(line, i)))
                }
            },
            None => self,
        }
    }

    /// With data to be encoded in `framing`, from B1.
    pub open spec fn starting_data(self, framing: Framing, settings: Settings) -> Self {
        Self {
            encoding: Some(Encoding::fresh(framing, settings)),
            scrambling: Scrambling::fresh(spec_polynomial(self.role)),
            ..self
        }
    }

    /// With no encoder, and S and S̄ before TRN from a new start.
    pub open spec fn renegotiating(self) -> Self {
        Self { encoding: None, ..self.restarted().queued(s_and_s_bar()) }
    }

    pub open spec fn with_bits(self, bits: Seq<bool>) -> Self {
        Self { bits: self.bits + bits, ..self }
    }

    /// Without its first symbol.
    pub open spec fn popped(self) -> Self {
        Self { queue: self.queue.skip(1), ..self }
    }
}

/// All that the transmitter keeps.
pub struct Transmitting {
    pub script: Script,
    pub line: Lining,
}

impl Transmitting {
    /// With what an order sends.
    pub open spec fn ordered(self, order: Order) -> Self {
        Self {
            line: match order {
                Order::Silence => self.line.queued(seq![Sent::Silence]),
                Order::Phase3 => self.line.restarted().queued(s_and_s_bar() + pp_symbols()),
                Order::Phase4 => self.line.restarted().queued(s_and_s_bar()),
                Order::Trn(points) => self.line.with_trn(points),
                Order::J => self.line.sequenced(pattern_bits(J_4@), Points::Four),
                Order::JPrime => self.line.sequenced(
                    pattern_bits(J_PRIME@),
                    Points::Four,
                ).restarted(),
                Order::Mp(mp, points) => self.line.sequenced(mp_frame(mp), points),
                Order::E(points) => self.line.with_e(points),
                Order::Data { b1 } => self.line.with_data(b1),
            },
            ..self
        }
    }

    /// Once the far S̄ has been answered.
    pub open spec fn responded(self, far: Far) -> Self {
        Self {
            script: self.script.responding(far),
            line: if self.script.responds(far) {
                self.line.renegotiating()
            } else {
                self.line
            },
        }
    }

    /// The next symbol, and what is left after it.
    pub open spec fn going_on(self, far: Far) -> (Sent, Self) {
        let ready = if self.line.queue.len() == 0 {
            self.refilled(far)
        } else {
            self
        };
        if ready.line.queue.len() > 0 {
            (ready.line.queue[0], Self { line: ready.line.popped(), ..ready })
        } else {
            (Sent::Silence, ready)
        }
    }

    /// With the next symbols.
    pub open spec fn refilled(self, far: Far) -> Self {
        let before = self.responded(far);
        let sends = before.script.goes_on(far);
        Self { script: sends.script, ..before }.ordered(sends.order)
    }

    pub open spec fn renegotiating(self) -> Self {
        Self { script: self.script.renegotiating(), line: self.line.renegotiating() }
    }
}

/// What is on its way to the line.
#[derive(Debug)]
pub struct Line {
    role: Role,
    queue: VecDeque<Sent>,
    training: Sender,
    encoder: Option<Encoder>,
    scrambler: Scrambler,
    bits: VecDeque<bool>,
}

impl View for Line {
    type V = Lining;

    closed spec fn view(&self) -> Lining {
        Lining {
            role: self.role,
            queue: self.queue@,
            training: self.training@,
            encoding: match self.encoder {
                Some(encoder) => Some(Encoding::of(encoder)),
                None => None,
            },
            scrambling: self.scrambler@,
            bits: self.bits@,
        }
    }
}

impl Line {
    pub closed spec fn valid(self) -> bool {
        &&& self.training.valid()
        &&& self.scrambler@.valid()
        &&& match self.encoder {
            Some(encoder) => encoder.valid(),
            None => true,
        }
    }

    #[must_use]
    pub fn new(role: Role) -> (line: Self)
        ensures
            line.valid(),
            line@ == Lining::fresh(role),
    {
        let line = Self {
            role,
            queue: VecDeque::new(),
            training: Sender::new(role),
            encoder: None,
            scrambler: Scrambler::with(polynomial(role)),
            bits: VecDeque::new(),
        };
        assert(line@.queue =~= Seq::<Sent>::empty());
        assert(line@.bits =~= Seq::<bool>::empty());
        line
    }

    #[must_use]
    pub fn is_empty(&self) -> (empty: bool)
        ensures
            empty == (self@.queue.len() == 0),
    {
        self.queue.len() == 0
    }

    /// The next symbol.
    pub fn pop(&mut self) -> (sent: Option<Sent>)
        requires
            old(self).valid(),
        ensures
            final(self).valid(),
            old(self)@.queue.len() > 0 ==> sent == Some(old(self)@.queue[0]) && final(self)@ == old(
                self,
            )@.popped(),
            old(self)@.queue.len() == 0 ==> sent is None && final(self)@ == old(self)@,
    {
        let ghost before = self.queue@;
        match self.queue.pop_front() {
            Some(sent) => {
                assert(self.queue@ =~= before.skip(1));
                Some(sent)
            },
            None => None,
        }
    }

    /// Symbols of silence.
    pub fn queue_silence(&mut self, count: usize)
        requires
            old(self).valid(),
        ensures
            final(self).valid(),
            final(self)@ == old(self)@.queued(Seq::new(count as nat, |i: int| Sent::Silence)),
    {
        let ghost before = *self;
        let mut n: usize = 0;
        while n < count
            invariant
                n <= count,
                self.queue@ == before.queue@ + Seq::new(n as nat, |i: int| Sent::Silence),
                self.same_but_queue(before),
            decreases count - n,
        {
            self.queue.push_back(Sent::Silence);
            n += 1;
            assert(self.queue@ =~= before.queue@ + Seq::new(n as nat, |i: int| Sent::Silence));
        }
        assert(self.queue@ =~= before.queue@ + Seq::new(count as nat, |i: int| Sent::Silence));
    }

    spec fn same_but_queue(self, other: Self) -> bool {
        &&& self.role == other.role
        &&& self.training == other.training
        &&& self.encoder == other.encoder
        &&& self.scrambler == other.scrambler
        &&& self.bits == other.bits
    }

    /// One symbol of S or S̄.
    pub fn queue_point(&mut self, point: Point)
        requires
            old(self).valid(),
        ensures
            final(self).valid(),
            final(self)@ == old(self)@.queued(seq![Sent::Four(point)]),
    {
        self.queue.push_back(Sent::Four(point));
        assert(self@.queue =~= old(self)@.queue + seq![Sent::Four(point)]);
    }

    /// S, then S̄.
    pub fn queue_s(&mut self)
        requires
            old(self).valid(),
        ensures
            final(self).valid(),
            final(self)@ == old(self)@.queued(s_and_s_bar()),
    {
        let ghost before = *self;
        let mut n: usize = 0;
        while n < 144
            invariant
                n <= 144,
                self.queue@ == before.queue@ + s_and_s_bar().take(n as int),
                self.same_but_queue(before),
            decreases 144 - n,
        {
            if n < 128 {
                self.queue.push_back(Sent::Four(s(n)));
            } else {
                self.queue.push_back(Sent::Four(s_bar(n - 128)));
            }
            n += 1;
            assert(s_and_s_bar().take(n as int) =~= s_and_s_bar().take(n - 1).push(
                s_and_s_bar()[n - 1],
            ));
        }
        assert(s_and_s_bar().take(144) =~= s_and_s_bar());
    }

    /// PP.
    pub fn queue_pp(&mut self)
        requires
            old(self).valid(),
        ensures
            final(self).valid(),
            final(self)@ == old(self)@.queued(pp_symbols()),
    {
        let ghost before = *self;
        let mut n: usize = 0;
        while n < 288
            invariant
                n <= 288,
                self.queue@ == before.queue@ + pp_symbols().take(n as int),
                self.same_but_queue(before),
            decreases 288 - n,
        {
            self.queue.push_back(Sent::Turn(pp(n)));
            n += 1;
            assert(pp_symbols().take(n as int) =~= pp_symbols().take(n - 1).push(
                pp_symbols()[n - 1],
            ));
        }
        assert(pp_symbols().take(288) =~= pp_symbols());
    }

    /// TRN from a new start.
    pub fn restart_training(&mut self)
        requires
            old(self).valid(),
        ensures
            final(self).valid(),
            final(self)@ == old(self)@.restarted(),
    {
        self.training = Sender::new(self.role);
    }

    /// The symbols of `bits`.
    pub fn queue_sequence(&mut self, bits: &[bool], points: Points)
        requires
            old(self).valid(),
        ensures
            final(self).valid(),
            final(self)@ == old(self)@.sequenced(bits@, points),
    {
        let ghost before = *self;
        let symbols = self.training.sequence(bits, points);
        let ghost all = sequence_symbols(before.training@, bits@, points);
        let ghost trained = self.training;
        assert(all.len() == symbols.len());
        let mut n: usize = 0;
        while n < symbols.len()
            invariant
                n <= symbols.len(),
                all.len() == symbols.len(),
                all == sequence_symbols(before.training@, bits@, points),
                self.queue@ == before.queue@ + all.take(n as int),
                self.role == before.role,
                self.training == trained,
                self.encoder == before.encoder,
                self.scrambler == before.scrambler,
                self.bits == before.bits,
                forall|i: int|
                    0 <= i < symbols.len() ==> wide(#[trigger] symbols@[i]) == sending_after(
                        before.training@,
                        bits@,
                        points,
                        i,
                    ).point(bits@, i * crate::v34::training::bits_per_symbol(points), points),
            decreases symbols.len() - n,
        {
            let point = symbols[n];
            assert(wide(symbols@[n as int]) == wide(point));
            self.queue.push_back(
                match points {
                    Points::Four => Sent::Four(point),
                    Points::Sixteen => Sent::Sixteen(point),
                },
            );
            assert(self.queue@.last() == all[n as int]);
            n += 1;
            assert(all.take(n as int) =~= all.take(n - 1).push(all[n - 1]));
        }
        assert(all.take(n as int) =~= all);
    }

    /// A mapping frame, of ones in B1.
    pub fn queue_data(&mut self, b1: bool)
        requires
            old(self).valid(),
            old(self)@.encoding is Some,
        ensures
            final(self).valid(),
            final(self)@ == old(self)@.with_data(b1),
    {
        let ghost before = *self;
        let mut encoder: Option<Encoder> = None;
        core::mem::swap(&mut encoder, &mut self.encoder);
        if let Some(mut encoder) = encoder {
            let ghost encoding = Encoding::of(encoder);
            let count = encoder.bits();
            let ghost bits = next_bits(before.bits@, b1, count as nat);
            let mut line: Vec<bool> = Vec::new();
            assert(bits.take(0) =~= Seq::<bool>::empty());
            assert(before.bits@.skip(0) =~= before.bits@);
            while line.len() < count
                invariant
                    line.len() <= count,
                    bits == next_bits(before.bits@, b1, count as nat),
                    line@ == crate::scrambler::scrambled(
                        before.scrambler@,
                        bits.take(line.len() as int),
                    ),
                    self.scrambler@ == crate::scrambler::scrambling_after(
                        before.scrambler@,
                        bits.take(line.len() as int),
                    ),
                    self.scrambler@.valid(),
                    self.bits@ == (if b1 {
                        before.bits@
                    } else if line.len() <= before.bits@.len() {
                        before.bits@.skip(line.len() as int)
                    } else {
                        Seq::<bool>::empty()
                    }),
                    self.role == before.role,
                    self.queue == before.queue,
                    self.training == before.training,
                decreases count - line.len(),
            {
                let ghost n = line.len() as int;
                let ghost held = self.bits@;
                let bit = if b1 {
                    true
                } else {
                    match self.bits.pop_front() {
                        Some(bit) => bit,
                        None => true,
                    }
                };
                proof {
                    assert(bit == bits[n]);
                    assert(bits.take(n + 1).drop_last() =~= bits.take(n));
                    if !b1 && held.len() > 0 {
                        assert(self.bits@ =~= before.bits@.skip(n + 1));
                    } else if !b1 && n == before.bits@.len() {
                        assert(self.bits@ =~= Seq::<bool>::empty());
                    }
                }
                line.push(self.scrambler.scramble(bit));
            }
            assert(bits.take(count as int) =~= bits);
            proof {
                if !b1 && count > before.bits@.len() {
                } else if !b1 && count == before.bits@.len() {
                    assert(before.bits@.skip(count as int) =~= Seq::<bool>::empty());
                }
            }
            let points = encoder.encode(line.as_slice());
            let ghost all = Seq::new(8, |i: int| encoding.symbol(line@, i));
            let mut i: usize = 0;
            while i < 8
                invariant
                    i <= 8,
                    all == Seq::new(8, |i: int| encoding.symbol(line@, i)),
                    forall|j: int|
                        0 <= j < 4 ==> {
                            let symbol = #[trigger] frame_symbol(
                                encoding.framing,
                                encoding.settings,
                                encoding.coding,
                                encoding.frame,
                                line@,
                                j,
                            );
                            fixed(points[2 * j]) == symbol.x_first && fixed(points[2 * j + 1])
                                == symbol.x_second
                        },
                    self.queue@ == before.queue@ + all.take(i as int),
                    self.role == before.role,
                    self.training == before.training,
                    self.scrambler@ == crate::scrambler::scrambling_after(before.scrambler@, bits),
                    self.scrambler@.valid(),
                    self.bits@ == (if b1 {
                        before.bits@
                    } else if count <= before.bits@.len() {
                        before.bits@.skip(count as int)
                    } else {
                        Seq::<bool>::empty()
                    }),
                decreases 8 - i,
            {
                self.queue.push_back(Sent::Data(points[i]));
                proof {
                    let j = i as int / 2;
                    let symbol = frame_symbol(
                        encoding.framing,
                        encoding.settings,
                        encoding.coding,
                        encoding.frame,
                        line@,
                        j,
                    );
                    assert(fixed(points[2 * j]) == symbol.x_first && fixed(points[2 * j + 1])
                        == symbol.x_second);
                    assert(i == 2 * j || i == 2 * j + 1);
                    assert(Sent::Data(points[i as int]) == all[i as int]);
                }
                i += 1;
                assert(all.take(i as int) =~= all.take(i - 1).push(all[i - 1]));
            }
            assert(all.take(8) =~= all);
            self.encoder = Some(encoder);
        }
    }

    /// One symbol of TRN.
    pub fn queue_trn(&mut self, points: Points)
        requires
            old(self).valid(),
        ensures
            final(self).valid(),
            final(self)@ == old(self)@.with_trn(points),
    {
        let point = self.training.trn(points);
        let sent = match points {
            Points::Four => Sent::Four(point),
            Points::Sixteen => Sent::Sixteen(point),
        };
        self.queue.push_back(sent);
        assert(self@.queue =~= old(self)@.queue + seq![sent]);
    }

    /// E.
    pub fn queue_e(&mut self, points: Points)
        requires
            old(self).valid(),
        ensures
            final(self).valid(),
            final(self)@ == old(self)@.with_e(points),
    {
        let mut ones: Vec<bool> = Vec::new();
        while ones.len() < E_ONES
            invariant
                ones.len() <= E_ONES,
                forall|i: int| 0 <= i < ones.len() ==> #[trigger] ones[i],
            decreases E_ONES - ones.len(),
        {
            ones.push(true);
        }
        assert(ones@ =~= Seq::new(E_ONES as nat, |i: int| true));
        self.queue_sequence(ones.as_slice(), points);
    }

    /// S, S̄ and TRN from a new start, with no encoder.
    pub fn renegotiate(&mut self)
        requires
            old(self).valid(),
        ensures
            final(self).valid(),
            final(self)@ == old(self)@.renegotiating(),
    {
        self.encoder = None;
        self.restart_training();
        self.queue_s();
    }

    /// Encodes data in `framing` from now on, from B1.
    pub fn start_data(&mut self, framing: Framing, settings: Settings)
        requires
            old(self).valid(),
            framing.valid(),
        ensures
            final(self).valid(),
            final(self)@ == old(self)@.starting_data(framing, settings),
    {
        self.encoder = Some(Encoder::new(framing, settings));
        self.scrambler = Scrambler::with(polynomial(self.role));
    }

    /// Queues bits to send.
    pub fn push_bits(&mut self, bits: &[bool])
        requires
            old(self).valid(),
        ensures
            final(self).valid(),
            final(self)@ == old(self)@.with_bits(bits@),
    {
        let ghost before = *self;
        let mut i: usize = 0;
        while i < bits.len()
            invariant
                i <= bits.len(),
                self.bits@ == before.bits@ + bits@.take(i as int),
                self.role == before.role,
                self.queue == before.queue,
                self.training == before.training,
                self.encoder == before.encoder,
                self.scrambler == before.scrambler,
            decreases bits.len() - i,
        {
            self.bits.push_back(bits[i]);
            i += 1;
            assert(bits@.take(i as int) =~= bits@.take(i - 1).push(bits@[i - 1]));
        }
        assert(bits@.take(i as int) =~= bits@);
    }

    /// Bits queued but not yet started.
    #[must_use]
    pub fn pending(&self) -> (pending: usize)
        ensures
            pending == self@.bits.len(),
    {
        self.bits.len()
    }
}

/// The symbols this end sends from phase 3 on.
#[derive(Debug)]
pub struct Source {
    script: Script,
    line: Line,
}

impl View for Source {
    type V = Transmitting;

    closed spec fn view(&self) -> Transmitting {
        Transmitting { script: self.script, line: self.line@ }
    }
}

impl Source {
    pub closed spec fn valid(self) -> bool {
        &&& self.line.valid()
        &&& self.script.encoding == (self.line@.encoding is Some)
        &&& self.line@.role == self.script.role
    }

    pub proof fn lemma_encoding(self)
        requires
            self.valid(),
        ensures
            self@.script.encoding == (self@.line.encoding is Some),
    {
    }

    /// After `silence` symbols of silence. The answer modem starts phase 3
    /// with them.
    #[must_use]
    pub fn new(role: Role, silence: usize, mp: Mp) -> (source: Self)
        ensures
            source.valid(),
            source@ == (Transmitting {
                script: Script::spec_new(role, mp),
                line: Lining {
                    queue: Seq::new(silence as nat, |i: int| Sent::Silence) + match role {
                        Role::Answer => s_and_s_bar() + pp_symbols(),
                        Role::Originate => seq![],
                    },
                    ..Lining::fresh(role)
                },
            }),
    {
        let mut line = Line::new(role);
        line.queue_silence(silence);
        match role {
            Role::Answer => {
                line.queue_s();
                line.queue_pp();
            },
            Role::Originate => {},
        }
        assert(line@.queue =~= Seq::new(silence as nat, |i: int| Sent::Silence) + match role {
            Role::Answer => s_and_s_bar() + pp_symbols(),
            Role::Originate => seq![],
        });
        Self { script: Script::new(role, mp), line }
    }

    fn carry_out(&mut self, order: Order)
        requires
            old(self).line.valid(),
            match order {
                Order::Data { .. } => old(self)@.line.encoding is Some,
                _ => true,
            },
        ensures
            final(self).line.valid(),
            final(self)@ == old(self)@.ordered(order),
    {
        match order {
            Order::Silence => {
                self.line.queue_silence(1);
                assert(Seq::new(1, |i: int| Sent::Silence) =~= seq![Sent::Silence]);
            },
            Order::Phase3 => {
                self.line.restart_training();
                self.line.queue_s();
                self.line.queue_pp();
                assert(self@.line.queue =~= old(self)@.line.queue + (s_and_s_bar() + pp_symbols()));
            },
            Order::Phase4 => {
                self.line.restart_training();
                self.line.queue_s();
            },
            Order::Trn(points) => self.line.queue_trn(points),
            Order::J => {
                let bits = pattern(J_4);
                self.line.queue_sequence(bits.as_slice(), Points::Four);
            },
            Order::JPrime => {
                let bits = pattern(J_PRIME);
                self.line.queue_sequence(bits.as_slice(), Points::Four);
                self.line.restart_training();
            },
            Order::Mp(mp, points) => {
                let frame = mp.frame();
                self.line.queue_sequence(frame.as_slice(), points);
            },
            Order::E(points) => self.line.queue_e(points),
            Order::Data { b1 } => self.line.queue_data(b1),
        }
    }

    #[verifier::spinoff_prover]
    #[verifier::rlimit(40)]
    fn refill(&mut self, far: &Far)
        requires
            old(self).valid(),
        ensures
            final(self).valid(),
            final(self)@ == old(self)@.refilled(*far),
    {
        if self.script.respond(far) {
            self.line.renegotiate();
        }
        let order = self.script.go_on(far);
        self.carry_out(order);
    }

    /// The next symbol.
    pub fn next(&mut self, far: &Far) -> (sent: Sent)
        requires
            old(self).valid(),
        ensures
            final(self).valid(),
            (sent, final(self)@) == old(self)@.going_on(*far),
    {
        if self.line.is_empty() {
            self.refill(far);
        }
        match self.line.pop() {
            Some(sent) => sent,
            None => Sent::Silence,
        }
    }

    #[must_use]
    pub fn script(&self) -> (script: Script)
        ensures
            script == self@.script,
    {
        self.script
    }

    /// Starts a rate renegotiation, in data mode, and tells whether it did.
    pub fn renegotiate(&mut self) -> (does: bool)
        requires
            old(self).valid(),
        ensures
            final(self).valid(),
            does == (old(self)@.script.send is Data),
            final(self)@ == (if does {
                old(self)@.renegotiating()
            } else {
                old(self)@
            }),
    {
        if !matches!(self.script.send, Send::Data) {
            return false;
        }
        self.script.renegotiate();
        self.line.renegotiate();
        true
    }

    /// Starts a cleardown, in data mode, and tells whether it did.
    pub fn clear_down(&mut self) -> (does: bool)
        requires
            old(self).valid(),
        ensures
            final(self).valid(),
            does == (old(self)@.script.send is Data),
            final(self)@ == (if does {
                Transmitting {
                    script: old(self)@.script.clearing_down(),
                    ..old(self)@.renegotiating()
                }
            } else {
                old(self)@
            }),
    {
        if !self.renegotiate() {
            return false;
        }
        self.script.clearing = true;
        self.script.send = Send::Mp;
        true
    }

    /// Goes on with data in `framing`, once the two MPs have agreed, from B1.
    pub fn start_data(&mut self, framing: Framing, settings: Settings)
        requires
            old(self).valid(),
            framing.valid(),
        ensures
            final(self).valid(),
            final(self)@ == (Transmitting {
                script: Script {
                    encoding: true,
                    b1_frames: framing.p,
                    ..old(self)@.script
                },
                line: old(self)@.line.starting_data(framing, settings),
            }),
    {
        self.line.start_data(framing, settings);
        self.script.b1_frames = framing.p;
        self.script.encoding = true;
    }

    /// Queues bits to send.
    pub fn push_bits(&mut self, bits: &[bool])
        requires
            old(self).valid(),
        ensures
            final(self).valid(),
            final(self)@ == (Transmitting {
                line: old(self)@.line.with_bits(bits@),
                ..old(self)@
            }),
    {
        self.line.push_bits(bits);
    }

    /// Bits queued but not yet started.
    #[must_use]
    pub fn pending(&self) -> (pending: usize)
        ensures
            pending == self@.line.bits.len(),
    {
        self.line.pending()
    }
}

/// How phase 3 goes. The answering end begins with TRN, and the calling one
/// waits for J. Its TRN lasts 1024 symbols on 4 points, and J then goes on
/// until the far S̄: the first for the answering end, which falls silent, and
/// the second for the calling one, which sends J′ and trains in phase 4 on
/// the points that the far J asked for.
pub proof fn law_phase_3_goes_from_trn_to_j(script: Script, far: Far, mp: Mp, sent: usize)
    requires
        script.phase == 3,
    ensures
        Script::spec_new(Role::Answer, mp).send == (Send::Trn { sent: 0 }),
        Script::spec_new(Role::Originate, mp).send == Send::Wait,
        Script::spec_new(script.role, mp).phase == 3 && Script::spec_new(script.role, mp).acks_sent == 0
            && Script::spec_new(script.role, mp).mp == mp,
        script.send == Send::Wait && far.j is None ==> script.goes_on(far).script == script && script.goes_on(far).order
            == Order::Silence,
        script.send == Send::Wait && far.j is Some && script.role == Role::Originate ==> script.goes_on(far).order
            == Order::Phase3 && script.goes_on(far).script.send == (Send::Trn { sent: 0 }) && script.goes_on(
            far,
        ).script.phase == 3,
        script.send == Send::Wait && far.j is Some && script.role == Role::Answer ==> script.goes_on(far).order
            == Order::Phase4 && script.goes_on(far).script.send == (Send::Trn { sent: 0 }) && script.goes_on(
            far,
        ).script.phase == 4 && Some(script.goes_on(far).script.points) == far.j,
        script.send == (Send::Trn { sent }) && sent < 1024 ==> script.goes_on(far).order == Order::Trn(Points::Four)
            && script.goes_on(far).script.send == (Send::Trn { sent: (sent + 1) as usize }),
        script.send == (Send::Trn { sent }) && sent >= 1024 ==> script.goes_on(far) == (Script {
            send: Send::J,
            ..script
        }).goes_on(far),
        script.send == Send::J && script.role == Role::Answer && far.s_bar == 0 ==> script.goes_on(far).order
            == Order::J && script.goes_on(far).script == script,
        script.send == Send::J && script.role == Role::Answer && far.s_bar > 0 ==> script.goes_on(far).order
            == Order::Silence && script.goes_on(far).script.send == Send::Wait,
        script.send == Send::J && script.role == Role::Originate && far.s_bar < 2 ==> script.goes_on(far).order
            == Order::J && script.goes_on(far).script == script,
        script.send == Send::J && script.role == Role::Originate && far.s_bar >= 2 ==> script.goes_on(far).order
            == Order::JPrime && script.goes_on(far).script.send == (Send::Trn { sent: 0 }) && script.goes_on(
            far,
        ).script.phase == 4 && (far.j is Some ==> Some(script.goes_on(far).script.points) == far.j),
{
}

/// How phase 4 goes. TRN lasts until 512 symbols of it are sent and the far
/// TRN is measured, and MP then goes on until two MP′ are sent and the far
/// end has acknowledged. E follows, and data after B1, unless the call is
/// being cleared.
pub proof fn law_phase_4_goes_from_trn_to_data(script: Script, far: Far, sent: usize)
    requires
        script.phase == 4,
    ensures
        script.send == (Send::Trn { sent }) && (sent < 512 || !far.trn) ==> script.goes_on(far).order == Order::Trn(
            script.points,
        ) && script.goes_on(far).script.send == (Send::Trn {
            sent: if sent < 1024 {
                (sent + 1) as usize
            } else {
                sent
            },
        }),
        script.send == (Send::Trn { sent }) && sent >= 512 && far.trn ==> script.goes_on(far) == (Script {
            send: Send::Mp,
            ..script
        }).goes_on(far),
        script.send == Send::Mp && (script.acks_sent < 2 || !far.ack) ==> {
            let sends = script.goes_on(far);
            &&& sends.order == Order::Mp(script.sent_mp(far), script.points)
            &&& sends.script.send == Send::Mp
            &&& sends.script.acks_sent == script.acks_sent + if far.mp is Some && script.acks_sent < 2 {
                1int
            } else {
                0int
            }
        },
        script.send == Send::Mp && script.acks_sent >= 2 && far.ack && (script.clearing || far.spec_clears())
            ==> script.goes_on(far).order == Order::Silence && script.goes_on(far).script.send == Send::Cleared,
        script.send == Send::Mp && script.acks_sent >= 2 && far.ack && !script.clearing && !far.spec_clears()
            ==> script.goes_on(far).order == Order::E(script.points) && script.goes_on(far).script.send == Send::Data,
        script.send == Send::Data && !script.encoding ==> script.goes_on(far).order == Order::Silence && script.goes_on(
            far,
        ).script == script,
        script.send == Send::Data && script.encoding && script.b1_frames > 0 ==> {
            let sends = script.goes_on(far);
            &&& sends.order == (Order::Data { b1: true })
            &&& sends.script.b1_frames == script.b1_frames - 1
            &&& sends.script.b1_sent == (script.b1_sent || script.b1_frames == 1)
            &&& sends.script.send == Send::Data
        },
        script.send == Send::Data && script.encoding && script.b1_frames == 0 ==> script.goes_on(far).order
            == (Order::Data { b1: false }) && script.goes_on(far).script == script,
        script.send == Send::Cleared ==> script.goes_on(far).order == Order::Silence && script.goes_on(far).script
            == script,
{
}

/// Our MP is the one we have, with the rate that the far TRN allowed in the
/// direction we hear, 0 bit/s both ways in a cleardown, and an
/// acknowledgement once the far MP has come.
pub proof fn law_mp_asks_for_what_was_trained(script: Script, far: Far)
    ensures
        script.sent_mp(far).acknowledge == (far.mp is Some),
        script.clearing ==> script.sent_mp(far).max_call_to_answer == 0 && script.sent_mp(far).max_answer_to_call == 0,
        !script.clearing && far.trained is None ==> script.sent_mp(far).max_call_to_answer
            == script.mp.max_call_to_answer && script.sent_mp(far).max_answer_to_call == script.mp.max_answer_to_call,
        !script.clearing && far.trained is Some && script.role == Role::Originate ==> Some(
            script.sent_mp(far).max_answer_to_call,
        ) == far.trained && script.sent_mp(far).max_call_to_answer == script.mp.max_call_to_answer,
        !script.clearing && far.trained is Some && script.role == Role::Answer ==> Some(
            script.sent_mp(far).max_call_to_answer,
        ) == far.trained && script.sent_mp(far).max_answer_to_call == script.mp.max_answer_to_call,
        script.spec_own_mp(far).max_call_to_answer == script.mp.max_call_to_answer || script.role == Role::Answer,
        script.spec_own_mp(far).max_answer_to_call == script.mp.max_answer_to_call || script.role == Role::Originate,
        far.spec_clears() <==> (far.mp is Some && far.mp->0.max_call_to_answer == 0 && far.mp->0.max_answer_to_call
            == 0),
{
}

/// A renegotiation, ours or one that a far S̄ calls for in data mode, starts
/// over from TRN on 4 points with no MP′ sent and no data encoded. A cleardown
/// does the same and goes straight to MP.
pub proof fn law_a_renegotiation_starts_from_trn(script: Script, far: Far)
    ensures
        script.renegotiating().send == (Send::Trn { sent: 0 }),
        script.renegotiating().points == Points::Four,
        script.renegotiating().acks_sent == 0,
        !script.renegotiating().encoding && !script.renegotiating().b1_sent,
        script.renegotiating().phase == script.phase && script.renegotiating().role == script.role
            && script.renegotiating().mp == script.mp && script.renegotiating().clearing == script.clearing,
        script.clearing_down().clearing && script.clearing_down().send == Send::Mp,
        script.clearing_down().points == Points::Four && script.clearing_down().acks_sent == 0,
        !script.clearing_down().encoding && !script.clearing_down().b1_sent,
        script.responding(far).renegotiations == far.renegotiations,
        far.renegotiations == script.renegotiations || script.send != Send::Data ==> !script.responds(far)
            && script.responding(far) == (Script { renegotiations: far.renegotiations, ..script }),
        far.renegotiations != script.renegotiations && script.send == Send::Data ==> script.responds(far)
            && script.responding(far).send == (Send::Trn { sent: 0 }) && script.responding(far).acks_sent == 0
            && script.responding(far).points == Points::Four && !script.responding(far).encoding,
        far.without_mp().mp is None && far.without_mp().trained is None && !far.without_mp().trn
            && !far.without_mp().ack,
        far.without_mp().s_bar == far.s_bar && far.without_mp().j == far.j && far.without_mp().renegotiations
            == far.renegotiations,
{
}

/// What each order puts on the line: 128 symbols of S and 16 of S̄ before
/// TRN, and in phase 3 the 288 of PP between them; J and J′ on 4 points, MP
/// and the 20 ones of E on those agreed; and 8 symbols for each mapping
/// frame. TRN starts its scrambler anew after S̄, PP and J′.
pub proof fn law_each_order_has_its_symbols(sender: Transmitting, n: int)
    ensures
        ({
            let queue = sender.line.queue;
            let fresh = Sending { scrambling: Scrambling::fresh(spec_polynomial(sender.line.role)), quadrant: 0 };
            let three = sender.ordered(Order::Phase3).line;
            let four = sender.ordered(Order::Phase4).line;
            &&& sender.ordered(Order::Silence).line.queue == queue.push(Sent::Silence)
            &&& three.queue.len() == queue.len() + 128 + 16 + 288
            &&& four.queue.len() == queue.len() + 128 + 16
            &&& 0 <= n < 128 ==> three.queue[queue.len() + n] == Sent::Four(spec_s(n)) && four.queue[queue.len() + n]
                == Sent::Four(spec_s(n))
            &&& 0 <= n < 16 ==> three.queue[queue.len() + 128 + n] == Sent::Four(spec_s_bar(n))
                && four.queue[queue.len() + 128 + n] == Sent::Four(spec_s_bar(n))
            &&& 0 <= n < 288 ==> three.queue[queue.len() + 144 + n] == Sent::Turn(spec_pp(n) as u8)
            &&& three.training == fresh && four.training == fresh
            &&& sender.ordered(Order::JPrime).line.training == fresh
            &&& sender.line.renegotiating().training == fresh
            &&& sender.line.renegotiating().encoding is None
            &&& sender.line.renegotiating().queue.len() == queue.len() + 144
            &&& sender.ordered(Order::E(Points::Four)).line.queue.len() == queue.len() + 10
            &&& sender.ordered(Order::E(Points::Sixteen)).line.queue.len() == queue.len() + 5
            &&& sender.ordered(Order::J).line.queue.len() == queue.len() + 8
            &&& sender.ordered(Order::JPrime).line.queue.len() == queue.len() + 8
            &&& sender.line.encoding is Some ==> sender.ordered(Order::Data { b1: true }).line.queue.len()
                == queue.len() + 8 && sender.ordered(Order::Data { b1: true }).line.bits == sender.line.bits
        }),
{
    reveal_strlit("0000100110010001");
    reveal_strlit("1111100110010001");
    assert(sender.line.queue + seq![Sent::Silence] =~= sender.line.queue.push(Sent::Silence));
}

/// Data bits are taken in order, and ones fill up where they run out. B1 is
/// all ones.
pub proof fn law_ones_fill_up_a_mapping_frame(queued: Seq<bool>, count: nat, i: int)
    requires
        0 <= i < count,
    ensures
        next_bits(queued, false, count).len() == count,
        next_bits(queued, true, count)[i],
        i < queued.len() ==> next_bits(queued, false, count)[i] == queued[i],
        i >= queued.len() ==> next_bits(queued, false, count)[i],
{
}

/// The calling end scrambles by 1 + x⁻¹⁸ + x⁻²³ and the answering end by
/// 1 + x⁻⁵ + x⁻²³.
pub proof fn law_each_end_has_its_scrambler()
    ensures
        spec_polynomial(Role::Originate).spec_a() == 18 && spec_polynomial(Role::Originate).spec_b() == 23,
        spec_polynomial(Role::Answer).spec_a() == 5 && spec_polynomial(Role::Answer).spec_b() == 23,
{
}

/// Symbols go out in the order of the queue, which is refilled only where it
/// is empty. There is silence where that gives none.
pub proof fn law_symbols_go_out_in_order(sender: Transmitting, far: Far, i: int)
    requires
        0 <= i,
    ensures
        ({
            let (sent, after) = sender.going_on(far);
            let queue = sender.line.queue;
            let more = sender.refilled(far).line.queue;
            &&& queue.len() > 0 ==> {
                &&& sent == queue[0]
                &&& after.line.queue.len() == queue.len() - 1
                &&& i < queue.len() - 1 ==> after.line.queue[i] == queue[i + 1]
                &&& after.script == sender.script && after.line.bits == sender.line.bits
            }
            &&& queue.len() == 0 && more.len() > 0 ==> {
                &&& sent == more[0]
                &&& after.line.queue.len() == more.len() - 1
                &&& i < more.len() - 1 ==> after.line.queue[i] == more[i + 1]
                &&& after.script == sender.refilled(far).script
            }
            &&& queue.len() == 0 && more.len() == 0 ==> sent is Silence && after == sender.refilled(far)
        }),
{
}

} // verus!

//! V.21: 300 bit/s FSK, full duplex on two channels.

use crate::pump::{Role, CLOCK_LIMIT};
use vstd::prelude::*;

verus! {

/// Longer than the far end's carrier detect, so its first bytes are not lost.
pub const ORIGINATE_CARRIER_BEFORE_CONNECT: usize = 4_800;

/// The answering end sends carrier at once and connects when it hears the
/// caller's. The caller sends carrier when it hears the answering end's, and
/// connects a little later.
#[derive(Debug, Clone, Copy, PartialEq, Eq, Structural)]
pub struct V21 {
    pub role: Role,
    /// The samples sent.
    pub sent: usize,
    pub carrier_since: Option<usize>,
    pub heard_carrier: bool,
}

impl V21 {
    pub open spec fn valid(self) -> bool {
        &&& self.sent <= CLOCK_LIMIT
        &&& match self.carrier_since {
            Some(since) => since <= self.sent,
            None => true,
        }
    }

    #[must_use]
    pub fn new(role: Role) -> (v21: Self)
        ensures
            v21 == (Self { role, sent: 0, carrier_since: None, heard_carrier: false }),
            v21.valid(),
    {
        Self { role, sent: 0, carrier_since: None, heard_carrier: false }
    }

    /// The pump from where its demodulator has already heard the far end.
    #[must_use]
    pub fn resuming(role: Role, carrier: bool) -> (v21: Self)
        ensures
            v21 == (Self { role, sent: 0, carrier_since: None, heard_carrier: carrier }),
            v21.valid(),
    {
        Self { role, sent: 0, carrier_since: None, heard_carrier: carrier }
    }

    pub open spec fn sends_carrier(self) -> bool {
        self.role == Role::Answer || self.heard_carrier
    }

    /// Once the next `length` samples are sent.
    pub open spec fn after_sending(self, length: int) -> Self {
        Self {
            sent: (self.sent + length) as usize,
            carrier_since: if self.role == Role::Originate && self.heard_carrier && self.carrier_since is None {
                Some(self.sent)
            } else {
                self.carrier_since
            },
            ..self
        }
    }

    /// Takes up the next `length` samples, and tells whether they carry the
    /// modulator's signal or silence.
    pub fn transmit(&mut self, length: usize) -> (carrier: bool)
        requires
            old(self).valid(),
            old(self).sent + length <= CLOCK_LIMIT,
        ensures
            final(self).valid(),
            carrier == old(self).sends_carrier(),
            *final(self) == old(self).after_sending(length as int),
    {
        let carrier = match self.role {
            Role::Answer => true,
            Role::Originate => {
                if self.heard_carrier && self.carrier_since.is_none() {
                    self.carrier_since = Some(self.sent);
                }
                self.heard_carrier
            },
        };
        self.sent += length;
        carrier
    }

    /// Takes what the demodulator says of the carrier.
    pub fn receive(&mut self, carrier: bool)
        ensures
            *final(self) == (Self { heard_carrier: old(self).heard_carrier || carrier, ..*old(self) }),
    {
        self.heard_carrier = self.heard_carrier || carrier;
    }

    #[must_use]
    pub fn engaged(&self) -> (engaged: bool)
        ensures
            engaged == self.heard_carrier,
    {
        self.heard_carrier
    }

    pub open spec fn spec_connected(self) -> bool {
        match self.role {
            Role::Answer => self.heard_carrier,
            Role::Originate => match self.carrier_since {
                Some(since) => self.sent - since >= ORIGINATE_CARRIER_BEFORE_CONNECT,
                None => false,
            },
        }
    }

    #[must_use]
    pub fn connected(&self) -> (connected: bool)
        requires
            self.valid(),
        ensures
            connected == self.spec_connected(),
    {
        match self.role {
            Role::Answer => self.heard_carrier,
            Role::Originate => match self.carrier_since {
                Some(since) => self.sent - since >= ORIGINATE_CARRIER_BEFORE_CONNECT,
                None => false,
            },
        }
    }
}

/// The answering end sends carrier at once and is connected when it hears the
/// caller's. The caller sends carrier from when it hears the answering end's,
/// and is connected 600 ms after it began to.
pub proof fn law_the_caller_connects_600_ms_after_its_carrier(v21: V21, length: int)
    requires
        v21.valid(),
        0 <= length,
        v21.sent + length <= CLOCK_LIMIT,
    ensures
        v21.role == Role::Answer ==> v21.sends_carrier() && v21.spec_connected() == v21.heard_carrier,
        v21.role == Role::Originate ==> v21.sends_carrier() == v21.heard_carrier,
        v21.role == Role::Originate && v21.carrier_since is None ==> !v21.spec_connected(),
        v21.role == Role::Originate && v21.carrier_since is Some ==> (v21.spec_connected() <==> 1000 * (v21.sent
            - v21.carrier_since->0) >= 600 * 8000),
        v21.after_sending(length).sent == v21.sent + length,
        v21.role == Role::Originate && v21.heard_carrier && v21.carrier_since is None ==> v21.after_sending(
            length,
        ).carrier_since == Some(v21.sent),
        v21.role == Role::Answer || !v21.heard_carrier || v21.carrier_since is Some ==> v21.after_sending(
            length,
        ).carrier_since == v21.carrier_since,
{
}

} // verus!

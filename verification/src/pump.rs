//! Data pumps: one modulation's handshake, modulator and demodulator, chosen
//! per call.

use vstd::prelude::*;

verus! {

/// The samples that the clocks of a call count, and no more so that times
/// after them can be told: over 37 hours at 8 kHz even on a small machine.
pub const CLOCK_LIMIT: usize = usize::MAX / 4;

/// Which end of the link this is.
#[derive(Debug, Clone, Copy, PartialEq, Eq, Structural)]
pub enum Role {
    Originate,
    Answer,
}

impl Role {
    pub open spec fn spec_far(self) -> Self {
        match self {
            Self::Originate => Self::Answer,
            Self::Answer => Self::Originate,
        }
    }

    /// The other end.
    #[must_use]
    pub fn far(self) -> (far: Self)
        ensures
            far == self.spec_far(),
    {
        match self {
            Self::Originate => Self::Answer,
            Self::Answer => Self::Originate,
        }
    }
}

#[derive(Debug, Clone, Copy, PartialEq, Eq, Structural)]
pub enum Modulation {
    V21,
    V22,
    V22bis,
    /// V.34 duplex, whose phase 1 is V.8.
    V34,
    /// V.90, whose phase 1 is V.8. The answer modem is the digital modem.
    V90,
}

impl Default for Modulation {
    fn default() -> (modulation: Self)
        ensures
            modulation == Self::V21,
    {
        Self::V21
    }
}

/// The pump that carries a call.
#[derive(Debug, Clone, Copy, PartialEq, Eq, Structural)]
pub enum Pump {
    V21(Role),
    V22(Role),
    V22bis(Role),
    V34(Role),
    /// The digital modem of V.90.
    Digital,
    /// The analogue modem of V.90.
    Analogue,
    /// V.8 up to `top`.
    Automode { top: Modulation, role: Role },
    /// V.8 with `top` alone.
    Only { top: Modulation, role: Role },
}

impl Modulation {
    pub open spec fn spec_pump(self, role: Role) -> Pump {
        match self {
            Self::V21 => Pump::V21(role),
            Self::V22 => Pump::V22(role),
            Self::V22bis => Pump::V22bis(role),
            Self::V34 => Pump::V34(role),
            Self::V90 => if role == Role::Answer {
                Pump::Digital
            } else {
                Pump::Analogue
            },
        }
    }

    /// The pump from the end of its start-up: the answer tone, or for V.34
    /// and V.90 the silence after CJ.
    #[must_use]
    pub fn pump(self, role: Role) -> (pump: Pump)
        ensures
            pump == self.spec_pump(role),
    {
        match self {
            Self::V21 => Pump::V21(role),
            Self::V22 => Pump::V22(role),
            Self::V22bis => Pump::V22bis(role),
            Self::V34 => Pump::V34(role),
            Self::V90 => match role {
                Role::Answer => Pump::Digital,
                Role::Originate => Pump::Analogue,
            },
        }
    }
}

/// The modulation for a call, and whether automode may fall back from it to
/// the best one the far end also has.
#[derive(Debug, Clone, Copy, PartialEq, Eq, Structural)]
pub struct Offer {
    pub top: Modulation,
    pub automode: bool,
}

impl Offer {
    pub open spec fn spec_pump(self, role: Role) -> Pump {
        if self.automode {
            Pump::Automode { top: self.top, role }
        } else if self.top is V34 || self.top is V90 {
            Pump::Only { top: self.top, role }
        } else {
            self.top.spec_pump(role)
        }
    }

    #[must_use]
    pub fn pump(self, role: Role) -> (pump: Pump)
        ensures
            pump == self.spec_pump(role),
    {
        if self.automode {
            Pump::Automode { top: self.top, role }
        } else {
            match self.top {
                Modulation::V34 | Modulation::V90 => Pump::Only { top: self.top, role },
                _ => self.top.pump(role),
            }
        }
    }
}

/// Each modulation runs at either end as itself, but for V.90, whose digital
/// modem answers and whose analogue modem calls. Automode and the modulations
/// that begin with V.8 start with it.
pub proof fn law_each_offer_has_its_pump(role: Role, offer: Offer)
    ensures
        Role::Originate.spec_far() == Role::Answer && Role::Answer.spec_far() == Role::Originate,
        Modulation::V21.spec_pump(role) == Pump::V21(role),
        Modulation::V22.spec_pump(role) == Pump::V22(role),
        Modulation::V22bis.spec_pump(role) == Pump::V22bis(role),
        Modulation::V34.spec_pump(role) == Pump::V34(role),
        Modulation::V90.spec_pump(Role::Answer) == Pump::Digital,
        Modulation::V90.spec_pump(Role::Originate) == Pump::Analogue,
        offer.automode ==> offer.spec_pump(role) == (Pump::Automode { top: offer.top, role }),
        !offer.automode && (offer.top == Modulation::V34 || offer.top == Modulation::V90) ==> offer.spec_pump(role)
            == (Pump::Only { top: offer.top, role }),
        !offer.automode && offer.top != Modulation::V34 && offer.top != Modulation::V90 ==> offer.spec_pump(role)
            == offer.top.spec_pump(role),
{
}

} // verus!

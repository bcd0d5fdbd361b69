//! V.34 both ways, where phase 2 of V.90 settles on it (§ 9.2.1.1.8 and
//! § 9.2.2.1.9), with phase 2 of V.90 again for each retrain.

use crate::v34::pump::{Retrains, V34};
use vstd::prelude::*;

verus! {

/// A retrain from V.34, which phase 2 of V.90 is to carry.
#[derive(Debug, Clone, Copy, PartialEq, Eq, Structural)]
pub struct Retrain {
    /// The rate that V.34 ran at, in bit/s.
    pub rate: u32,
    /// V.34 has connected.
    pub online: bool,
}

/// Goes on in V.34 where phase 2 of V.90 settles on it.
#[derive(Debug)]
pub struct Fallback {
    v34: Option<V34>,
    online: bool,
}

impl Fallback {
    /// The V.34 modem that runs, if one does.
    pub closed spec fn running(self) -> Option<V34> {
        self.v34
    }

    /// Whether V.34 has connected.
    pub closed spec fn online(self) -> bool {
        self.online
    }

    pub open spec fn valid(self) -> bool {
        self.running() matches Some(v34) ==> v34.valid()
    }

    /// With V.90 in phase 2.
    #[must_use]
    pub fn new() -> (fallback: Self)
        ensures
            fallback.valid(),
            fallback.running() is None,
            !fallback.online(),
    {
        Self { v34: None, online: false }
    }

    /// The V.34 modem, where it is the one that runs. V.90 runs otherwise.
    #[must_use]
    pub fn v34(&self) -> (v34: &Option<V34>)
        ensures
            *v34 == self.running(),
    {
        &self.v34
    }

    /// Takes the V.34 modem out, to run it.
    pub fn take(&mut self) -> (v34: Option<V34>)
        requires
            old(self).valid(),
        ensures
            v34 == old(self).running(),
            final(self).valid(),
            final(self).running() is None,
            final(self).online() == old(self).online(),
            v34 matches Some(v34) ==> v34.valid(),
    {
        let mut v34: Option<V34> = None;
        core::mem::swap(&mut self.v34, &mut v34);
        v34
    }

    /// What V.90 has settled on after it has run: V.34, or none.
    pub fn settled(&mut self, v34: Option<V34>)
        requires
            old(self).valid(),
            old(self).running() is None,
            v34 matches Some(v34) ==> v34.valid(),
        ensures
            final(self).valid(),
            final(self).running() == v34,
            final(self).online() == old(self).online(),
    {
        self.v34 = v34;
    }

    /// `retrain` is what V.34 leaves to V.90, whether or not it has
    /// connected now.
    pub open spec fn leaves(self, ran: V34, heard: bool, retrain: Option<Retrain>, next: Self) -> bool {
        let online = self.online() || heard && ran@.spec_connected();
        &&& next.online() == online
        &&& if ran@.retrains == (Retrains::InV90 { asked: true }) {
            retrain == Some(Retrain { rate: (ran@.rate * 2400) as u32, online })
                && next.running() is None
        } else {
            retrain is None && next.running() == Some(ran)
        }
    }

    /// Puts the V.34 modem back after it has run, on received samples where
    /// it `heard` any. It stays unless it has a retrain to leave to V.90.
    pub fn ran(&mut self, v34: V34, heard: bool) -> (retrain: Option<Retrain>)
        requires
            old(self).valid(),
            v34.valid(),
        ensures
            final(self).valid(),
            old(self).leaves(v34, heard, retrain, *final(self)),
    {
        if heard && v34.connected() {
            self.online = true;
        }
        if v34.retrain_asked() {
            self.v34 = None;
            Some(Retrain { rate: v34.bit_rate(), online: self.online })
        } else {
            self.v34 = Some(v34);
            None
        }
    }
}

/// V.34 is left only for a retrain that either end has asked for, and once
/// it has connected every later retrain says so.
pub proof fn law_leaves_v34_only_to_retrain(
    before: Fallback,
    ran: V34,
    heard: bool,
    retrain: Option<Retrain>,
    after: Fallback,
)
    requires
        before.leaves(ran, heard, retrain, after),
    ensures
        after.running() is None <==> ran@.retrains == (Retrains::InV90 { asked: true }),
        retrain is Some <==> after.running() is None,
        before.online() ==> after.online(),
        retrain matches Some(retrain) ==> retrain.online == after.online(),
{
}

/// A retrain carries the rate that V.34 ran at, in bit/s, and V.34 counts as
/// having connected from the first samples it was connected on.
pub proof fn law_a_retrain_carries_the_rate(
    before: Fallback,
    ran: V34,
    heard: bool,
    retrain: Option<Retrain>,
    after: Fallback,
)
    requires
        before.leaves(ran, heard, retrain, after),
        ran@.rate <= 14,
    ensures
        ran@.retrains == (Retrains::InV90 { asked: true }) ==> retrain is Some && retrain->0.rate == 2400 * ran@.rate,
        ran@.retrains != (Retrains::InV90 { asked: true }) ==> after.running() == Some(ran),
        heard && ran@.spec_connected() ==> after.online(),
        !heard || !ran@.spec_connected() ==> after.online() == before.online(),
{
}

} // verus!

//! Automode: V.8 bis, then V.8 to agree on a modulation, and Annex A of
//! V.32 bis with one step of this modem's own for a far end that does not
//! speak V.8.

use crate::ansam::AnswerToneKind;
use crate::pump::{Modulation, Pump, Role, CLOCK_LIMIT};
use crate::v8::{Heard, Menu, Modes, Pcm, Reader, Reading};
use vstd::prelude::*;

verus! {

/// V.8 bis § 10.2.2.
pub const V8BIS_SILENCE_SAMPLES: usize = 3_200;

/// V.25 § 4.3.
pub const SILENCE_SAMPLES: usize = 16_000;

/// V.8 § 8.2.2.
pub const ANSAM_SAMPLES: usize = 40_000;

/// V.8 § 8.1.1.
pub const TE_SAMPLES: usize = 8_000;

/// V.8 § 8.1.2.
pub const GAP_SAMPLES: usize = 600;

/// Annex A.2.2 of V.32 bis.
pub const TA_SAMPLES: usize = 24_000;

pub const MARK_SAMPLES: usize = 1_600;

/// A V.21 caller's mark or data rather than CM, which repeats every 60 bits.
pub const SIGC_BITS: usize = 150;

pub open spec fn spec_gap(modes: Modes) -> usize {
    if modes.v34 || modes.v90.spec_any() {
        0
    } else {
        GAP_SAMPLES
    }
}

/// V.34 and V.90 send the 75 ms after CJ themselves, as they listen for
/// INFO0 during them.
#[must_use]
pub fn gap(modes: Modes) -> (gap: usize)
    ensures
        gap == spec_gap(modes),
{
    if modes.v34 || modes.v90.any() {
        0
    } else {
        GAP_SAMPLES
    }
}

/// The top modulation, and whether the ones below it may be offered too.
#[derive(Debug, Clone, Copy, PartialEq, Eq, Structural)]
pub struct Offered {
    pub top: Modulation,
    pub fallback: bool,
}

impl Offered {
    /// The side of V.90 that each end takes: the answer modem is the digital
    /// modem.
    pub open spec fn spec_side(self, role: Role) -> Pcm {
        Pcm {
            analogue: self.top is V90 && role is Originate,
            digital: self.top is V90 && role is Answer,
        }
    }

    pub open spec fn spec_modes(self, role: Role) -> Modes {
        if self.fallback {
            Modes {
                v90: self.spec_side(role),
                v34: self.top is V34 || self.top is V90,
                v22bis: !(self.top is V21),
                v21: true,
            }
        } else {
            Modes {
                v90: self.spec_side(role),
                v34: self.top is V34,
                v22bis: self.top is V22 || self.top is V22bis,
                v21: self.top is V21,
            }
        }
    }

    /// What a menu from the end in `role` offers.
    #[must_use]
    pub fn modes(self, role: Role) -> (modes: Modes)
        ensures
            modes == self.spec_modes(role),
    {
        let v90 = match (self.top, role) {
            (Modulation::V90, Role::Originate) => Pcm { analogue: true, digital: false },
            (Modulation::V90, Role::Answer) => Pcm { analogue: false, digital: true },
            _ => Pcm { analogue: false, digital: false },
        };
        if self.fallback {
            Modes {
                v90,
                v34: matches!(self.top, Modulation::V34 | Modulation::V90),
                v22bis: !matches!(self.top, Modulation::V21),
                v21: true,
            }
        } else {
            Modes {
                v90,
                v34: matches!(self.top, Modulation::V34),
                v22bis: matches!(self.top, Modulation::V22 | Modulation::V22bis),
                v21: matches!(self.top, Modulation::V21),
            }
        }
    }

    pub open spec fn spec_legacy(self) -> Modulation {
        if self.top is V34 || self.top is V90 {
            Modulation::V22bis
        } else {
            self.top
        }
    }

    /// The V.22 family's own start-up, for a far end without V.8.
    #[must_use]
    pub fn legacy(self) -> (modulation: Modulation)
        ensures
            modulation == self.spec_legacy(),
    {
        match self.top {
            Modulation::V34 | Modulation::V90 => Modulation::V22bis,
            top => top,
        }
    }

    pub open spec fn spec_chosen(self, common: Modes, role: Role) -> Pump {
        if common.v90.spec_any() {
            Modulation::V90.spec_pump(role)
        } else if common.v34 {
            Modulation::V34.spec_pump(role)
        } else if common.v22bis {
            self.spec_legacy().spec_pump(role)
        } else {
            Modulation::V21.spec_pump(role)
        }
    }

    /// The best of the modes in common.
    #[must_use]
    pub fn chosen(self, common: Modes, role: Role) -> (pump: Pump)
        ensures
            pump == self.spec_chosen(common, role),
    {
        if common.v90.any() {
            Modulation::V90.pump(role)
        } else if common.v34 {
            Modulation::V34.pump(role)
        } else if common.v22bis {
            self.legacy().pump(role)
        } else {
            Modulation::V21.pump(role)
        }
    }
}

/// Two pumps that understand each other: the same modulation at both ends,
/// the two sides of V.90, or two of the V.22 family.
pub open spec fn pair_up(caller: Pump, answerer: Pump) -> bool {
    ||| caller == Pump::Analogue && answerer == Pump::Digital
    ||| caller == Pump::V34(Role::Originate) && answerer == Pump::V34(Role::Answer)
    ||| caller == Pump::V21(Role::Originate) && answerer == Pump::V21(Role::Answer)
    ||| (caller == Pump::V22(Role::Originate) || caller == Pump::V22bis(Role::Originate)) && (
    answerer == Pump::V22(Role::Answer) || answerer == Pump::V22bis(Role::Answer))
}

/// Whatever the two ends offer, the caller finds the same in JM as the
/// answerer did in CM, and both choose pumps that understand each other.
pub proof fn law_both_ends_choose_pumps_that_pair_up(caller: Offered, answerer: Offered)
    ensures
        ({
            let cm = caller.spec_modes(Role::Originate);
            let jm = answerer.spec_modes(Role::Answer).spec_common(cm);
            let joint = cm.spec_common(jm);
            pair_up(
                caller.spec_chosen(joint, Role::Originate),
                answerer.spec_chosen(jm, Role::Answer),
            )
        }),
{
}

/// Both ends with the same top and fallback choose that top.
pub proof fn law_equal_offers_meet_at_the_top(offer: Offered)
    ensures
        ({
            let cm = offer.spec_modes(Role::Originate);
            let jm = offer.spec_modes(Role::Answer).spec_common(cm);
            let joint = cm.spec_common(jm);
            &&& offer.spec_chosen(jm, Role::Answer) == offer.top.spec_pump(Role::Answer)
            &&& offer.spec_chosen(joint, Role::Originate) == offer.top.spec_pump(Role::Originate)
        }),
{
}

impl Offered {
    /// The modulations in order, the best last.
    pub open spec fn rank(modulation: Modulation) -> int {
        match modulation {
            Modulation::V21 => 0,
            Modulation::V22 => 1,
            Modulation::V22bis => 2,
            Modulation::V34 => 3,
            Modulation::V90 => 4,
        }
    }

    /// The lower of the tops of two offers.
    pub open spec fn lower_top(self, other: Self) -> Modulation {
        if Self::rank(self.top) <= Self::rank(other.top) {
            self.top
        } else {
            other.top
        }
    }
}

/// Two ends that may both fall back meet at the lower of their tops. In the
/// V.22 family each end chooses the pump of its own start-up, the lower of
/// which is that top.
pub proof fn law_fallback_meets_at_the_lower_top(caller: Offered, answerer: Offered)
    requires
        caller.fallback,
        answerer.fallback,
    ensures
        ({
            let cm = caller.spec_modes(Role::Originate);
            let jm = answerer.spec_modes(Role::Answer).spec_common(cm);
            let joint = cm.spec_common(jm);
            let lower = caller.lower_top(answerer);
            let calling = caller.spec_chosen(joint, Role::Originate);
            let answering = answerer.spec_chosen(jm, Role::Answer);
            if lower is V22 || lower is V22bis {
                &&& calling == caller.spec_legacy().spec_pump(Role::Originate)
                &&& answering == answerer.spec_legacy().spec_pump(Role::Answer)
                &&& Offered::rank(caller.spec_legacy()) <= Offered::rank(answerer.spec_legacy())
                    ==> caller.spec_legacy() == lower
                &&& Offered::rank(answerer.spec_legacy()) <= Offered::rank(caller.spec_legacy())
                    ==> answerer.spec_legacy() == lower
            } else {
                &&& calling == lower.spec_pump(Role::Originate)
                &&& answering == lower.spec_pump(Role::Answer)
            }
        }),
{
}

/// A menu counts once it has come twice in a row.
#[derive(Debug, Clone, Copy, PartialEq, Eq, Structural)]
pub struct Repeats {
    pub last: Option<Menu>,
    /// How often it came in a row, as far as that counts.
    pub count: u32,
}

impl Default for Repeats {
    fn default() -> (repeats: Self)
        ensures
            repeats == Self::fresh(),
    {
        Self { last: None, count: 0 }
    }
}

impl Repeats {
    pub open spec fn fresh() -> Self {
        Self { last: None, count: 0 }
    }

    pub open spec fn after(self, menu: Menu) -> Self {
        Self {
            last: Some(menu),
            count: if self.last != Some(menu) {
                1
            } else if self.count < 2 {
                (self.count + 1) as u32
            } else {
                2
            },
        }
    }

    /// V.8 §§ 7.4 and 8.1.2: a menu counts once it has come twice in a row.
    pub fn push(&mut self, menu: Menu) -> (counts: Option<Menu>)
        ensures
            *final(self) == old(self).after(menu),
            counts == (if old(self).after(menu).count >= 2 {
                Some(menu)
            } else {
                None
            }),
    {
        let same = match self.last {
            Some(last) => last == menu,
            None => false,
        };
        if !same {
            self.last = Some(menu);
            self.count = 1;
        } else if self.count < 2 {
            self.count += 1;
        } else {
            self.count = 2;
        }
        if self.count >= 2 {
            Some(menu)
        } else {
            None
        }
    }
}

/// Whatever came before, a menu counts by its second arrival in a row, and
/// on its first only if it had come before.
pub proof fn law_a_menu_counts_on_its_second_arrival(repeats: Repeats, menu: Menu)
    requires
        repeats.count >= 1 || repeats.last is None,
    ensures
        repeats.after(menu).after(menu).count >= 2,
        repeats.last != Some(menu) ==> repeats.after(menu).count < 2,
{
}

/// What a link has heard of menus.
pub struct Linking {
    pub reading: Reading,
    pub repeats: Repeats,
    /// The bits since the last menu, as far as they count.
    pub without_menu: int,
}

pub open spec fn at_most(value: int, most: int) -> int {
    if value < most {
        value
    } else {
        most
    }
}

pub open spec fn has_menu(heard: Seq<Heard>) -> bool {
    exists|i: int| 0 <= i < heard.len() && #[trigger] heard[i] is Menu
}

/// The first menu that counts.
pub open spec fn first_menu(repeats: Repeats, heard: Seq<Heard>) -> Option<Menu>
    decreases heard.len(),
{
    if heard.len() == 0 {
        None
    } else {
        match heard[0] {
            Heard::Menu(menu) => if repeats.after(menu).count >= 2 {
                Some(menu)
            } else {
                first_menu(repeats.after(menu), heard.skip(1))
            },
            Heard::Cj => first_menu(repeats, heard.skip(1)),
        }
    }
}

/// The repeats up to the first menu that counts.
pub open spec fn repeats_after(repeats: Repeats, heard: Seq<Heard>) -> Repeats
    decreases heard.len(),
{
    if heard.len() == 0 {
        repeats
    } else {
        match heard[0] {
            Heard::Menu(menu) => if repeats.after(menu).count >= 2 {
                repeats.after(menu)
            } else {
                repeats_after(repeats.after(menu), heard.skip(1))
            },
            Heard::Cj => repeats_after(repeats, heard.skip(1)),
        }
    }
}

impl Linking {
    /// After bits that said `heard`.
    pub open spec fn after(self, bits: Seq<bool>, heard: Seq<Heard>) -> Self {
        Self {
            reading: crate::v8::reading_after(self.reading, bits),
            without_menu: if has_menu(heard) {
                0
            } else {
                at_most(self.without_menu + bits.len(), SIGC_BITS as int)
            },
            ..self
        }
    }
}

/// Reads menus from the bits of V.21.
#[derive(Debug)]
pub struct MenuLink {
    reader: Reader,
    repeats: Repeats,
    bits_without_menu: usize,
}

impl View for MenuLink {
    type V = Linking;

    closed spec fn view(&self) -> Linking {
        Linking {
            reading: self.reader@,
            repeats: self.repeats,
            without_menu: self.bits_without_menu as int,
        }
    }
}

impl MenuLink {
    pub closed spec fn valid(self) -> bool {
        self.reader@.valid() && self.bits_without_menu <= SIGC_BITS
    }

    #[must_use]
    pub fn new() -> (link: Self)
        ensures
            link.valid(),
            link@ == (Linking {
                reading: Reading::fresh(),
                repeats: Repeats::fresh(),
                without_menu: 0,
            }),
    {
        Self { reader: Reader::new(), repeats: Repeats::default(), bits_without_menu: 0 }
    }

    /// A V.21 caller's mark or data rather than CM, which repeats every 60 bits.
    #[must_use]
    pub fn plain_v21(&self) -> (plain: bool)
        requires
            self.valid(),
        ensures
            plain == (self@.without_menu >= SIGC_BITS),
    {
        self.bits_without_menu >= SIGC_BITS
    }

    /// What `bits` say.
    pub fn hear(&mut self, bits: &[bool]) -> (heard: Vec<Heard>)
        requires
            old(self).valid(),
        ensures
            final(self).valid(),
            heard@ == crate::v8::hears(old(self)@.reading, bits@),
            final(self)@ == old(self)@.after(bits@, heard@),
    {
        let ghost before = self@;
        let mut heard: Vec<Heard> = Vec::new();
        let mut menu = false;
        let mut i: usize = 0;
        assert(bits@.take(0) =~= Seq::<bool>::empty());
        while i < bits.len()
            invariant
                i <= bits.len(),
                self.reader@.valid(),
                self.reader@ == crate::v8::reading_after(before.reading, bits@.take(i as int)),
                self.repeats == before.repeats,
                self.bits_without_menu == before.without_menu,
                heard@ == crate::v8::hears(before.reading, bits@.take(i as int)),
                menu == has_menu(heard@),
            decreases bits.len() - i,
        {
            let ghost said = heard@;
            assert(bits@.take(i + 1).drop_last() =~= bits@.take(i as int));
            match self.reader.push(bits[i]) {
                Some(one) => {
                    heard.push(one);
                    menu = menu || matches!(one, Heard::Menu(_));
                    proof {
                        assert(heard@ =~= said + seq![one]);
                        assert(heard@[said.len() as int] == one);
                        if has_menu(said) {
                            let k = choose|k: int| 0 <= k < said.len() && #[trigger] said[k] is Menu;
                            assert(heard@[k] == said[k]);
                        }
                        if has_menu(heard@) {
                            let k = choose|k: int|
                                0 <= k < heard@.len() && #[trigger] heard@[k] is Menu;
                            if k < said.len() {
                                assert(said[k] is Menu);
                            }
                        }
                    }
                },
                None => {
                    assert(said + Seq::<Heard>::empty() =~= said);
                },
            }
            i += 1;
        }
        assert(bits@.take(i as int) =~= bits@);
        self.bits_without_menu = if menu {
            0
        } else if bits.len() < SIGC_BITS - self.bits_without_menu {
            self.bits_without_menu + bits.len()
        } else {
            SIGC_BITS
        };
        heard
    }

    /// The first menu in `bits` that counts.
    pub fn menu(&mut self, bits: &[bool]) -> (menu: Option<Menu>)
        requires
            old(self).valid(),
        ensures
            final(self).valid(),
            ({
                let heard = crate::v8::hears(old(self)@.reading, bits@);
                &&& menu == first_menu(old(self)@.repeats, heard)
                &&& final(self)@ == (Linking {
                    repeats: repeats_after(old(self)@.repeats, heard),
                    ..old(self)@.after(bits@, heard)
                })
            }),
    {
        let ghost before = self@;
        let heard = self.hear(bits);
        let ghost linked = self@;
        let mut i: usize = 0;
        assert(heard@.skip(0) =~= heard@);
        while i < heard.len()
            invariant
                i <= heard.len(),
                self.valid(),
                before == old(self)@,
                heard@ == crate::v8::hears(before.reading, bits@),
                linked == before.after(bits@, heard@),
                self@ == (Linking { repeats: self.repeats, ..linked }),
                first_menu(self.repeats, heard@.skip(i as int)) == first_menu(
                    before.repeats,
                    heard@,
                ),
                repeats_after(self.repeats, heard@.skip(i as int)) == repeats_after(
                    before.repeats,
                    heard@,
                ),
            decreases heard.len() - i,
        {
            assert(heard@.skip(i as int).skip(1) =~= heard@.skip(i + 1));
            assert(heard@.skip(i as int)[0] == heard@[i as int]);
            if let Heard::Menu(menu) = heard[i] {
                let ghost held = self.repeats;
                let counts = self.repeats.push(menu);
                if counts.is_some() {
                    assert(first_menu(held, heard@.skip(i as int)) == Some(menu));
                    assert(repeats_after(held, heard@.skip(i as int)) == self.repeats);
                    return counts;
                }
            }
            i += 1;
        }
        assert(heard@.skip(i as int).len() == 0);
        None
    }
}

/// How V.8 bis ended for the answerer.
#[derive(Debug, Clone, Copy, PartialEq, Eq, Structural)]
pub enum Startup {
    /// On with ANSam and V.8.
    V8,
    /// On with ANS and the start-up of a modulation.
    V25,
    /// The two ends change places.
    Caller,
}

/// What carries the call on.
#[derive(Debug, Clone, Copy, PartialEq, Eq, Structural)]
pub enum Next {
    Fresh(Pump),
    /// V.21, on the demodulator that has already heard it.
    ResumedV21,
    /// Automode as the caller.
    Caller,
}

#[derive(Debug, Clone, Copy, PartialEq, Eq, Structural)]
pub enum AnswerStage {
    Silence,
    V8bis,
    Tone { until: usize },
    Jm { menu: Menu },
    Gap { until: usize, next: Option<Next> },
    Trying { pump: Pump, until: usize },
    Chosen(Next),
}

/// Where the answerer is.
#[derive(Debug, Clone, Copy, PartialEq, Eq, Structural)]
pub struct Answering {
    pub offer: Offered,
    pub stage: AnswerStage,
    /// The answer tone is ANS, not ANSam.
    pub plain: bool,
    /// The samples sent.
    pub sent: usize,
}

impl Answering {
    pub open spec fn tone(self) -> AnswerStage {
        AnswerStage::Tone { until: (self.sent + ANSAM_SAMPLES) as usize }
    }

    /// The stage by the clock, given how V.8 bis stands, and whether the far
    /// end has answered the pump that is tried.
    pub open spec fn stage_in_time(
        self,
        startup: Option<Startup>,
        transacts: bool,
        engaged: bool,
    ) -> AnswerStage {
        match self.stage {
            AnswerStage::Silence => if self.sent >= V8BIS_SILENCE_SAMPLES {
                AnswerStage::V8bis
            } else {
                self.stage
            },
            AnswerStage::V8bis => match startup {
                Some(Startup::V8) | Some(Startup::V25) => self.tone(),
                Some(Startup::Caller) => AnswerStage::Chosen(Next::Caller),
                None => if !transacts && self.sent >= SILENCE_SAMPLES {
                    self.tone()
                } else {
                    self.stage
                },
            },
            AnswerStage::Tone { until } => if self.sent >= until {
                AnswerStage::Gap { until: (self.sent + GAP_SAMPLES) as usize, next: None }
            } else {
                self.stage
            },
            AnswerStage::Gap { until, next } => if self.sent < until {
                self.stage
            } else {
                match next {
                    Some(next) => AnswerStage::Chosen(next),
                    None => if self.offer.top is V21 {
                        AnswerStage::Chosen(
                            Next::Fresh(Modulation::V21.spec_pump(Role::Answer)),
                        )
                    } else {
                        AnswerStage::Trying {
                            pump: self.offer.spec_legacy().spec_pump(Role::Answer),
                            until: (self.sent + TA_SAMPLES) as usize,
                        }
                    },
                }
            },
            AnswerStage::Trying { until, .. } => if self.sent >= until && !engaged {
                AnswerStage::Chosen(Next::Fresh(Modulation::V21.spec_pump(Role::Answer)))
            } else {
                self.stage
            },
            _ => self.stage,
        }
    }

    pub open spec fn advanced(
        self,
        startup: Option<Startup>,
        transacts: bool,
        engaged: bool,
    ) -> Self {
        Self {
            stage: self.stage_in_time(startup, transacts, engaged),
            plain: self.plain || self.stage is V8bis && startup == Some(Startup::V25),
            ..self
        }
    }

    /// The stage after a menu from the caller, or so many bits without one
    /// that it speaks V.21 alone.
    pub open spec fn stage_after_menu(self, cm: Option<Menu>, plain_v21: bool) -> AnswerStage {
        match cm {
            Some(cm) => AnswerStage::Jm {
                menu: Menu {
                    data: cm.data,
                    modes: self.offer.spec_modes(Role::Answer).spec_common(cm.modes),
                },
            },
            None => if plain_v21 {
                AnswerStage::Gap {
                    until: (self.sent + GAP_SAMPLES) as usize,
                    next: Some(Next::ResumedV21),
                }
            } else {
                self.stage
            },
        }
    }

    /// The stage where a pump is tried, and the far end answers it or speaks
    /// V.21 alone.
    pub open spec fn stage_trying(self, pump: Pump, engaged: bool, plain_v21: bool) -> AnswerStage {
        if engaged {
            AnswerStage::Chosen(Next::Fresh(pump))
        } else if plain_v21 {
            AnswerStage::Chosen(Next::ResumedV21)
        } else {
            self.stage
        }
    }

    /// The stage after the end of CM, or of the carrier.
    pub open spec fn stage_after_jm(self, menu: Menu, over: bool) -> AnswerStage {
        if over {
            AnswerStage::Gap {
                until: (self.sent + spec_gap(menu.modes)) as usize,
                next: Some(Next::Fresh(self.offer.spec_chosen(menu.modes, Role::Answer))),
            }
        } else {
            self.stage
        }
    }
}

/// Answers with CRe, then ANSam and V.8, or with USB1 then V.21 mark for a
/// far end without V.8.
#[derive(Debug)]
pub struct Answer {
    state: Answering,
    link: MenuLink,
}

impl Answer {
    pub closed spec fn state(self) -> Answering {
        self.state
    }

    pub closed spec fn link(self) -> Linking {
        self.link@
    }

    pub closed spec fn valid(self) -> bool {
        self.link.valid() && self.state.sent <= CLOCK_LIMIT
    }

    #[must_use]
    pub fn new(offer: Offered) -> (answer: Self)
        ensures
            answer.valid(),
            answer.state() == (Answering {
                offer,
                stage: AnswerStage::Silence,
                plain: false,
                sent: 0,
            }),
            answer.link() == (Linking {
                reading: Reading::fresh(),
                repeats: Repeats::fresh(),
                without_menu: 0,
            }),
    {
        Self {
            state: Answering { offer, stage: AnswerStage::Silence, plain: false, sent: 0 },
            link: MenuLink::new(),
        }
    }

    #[must_use]
    pub fn stage(&self) -> (stage: AnswerStage)
        ensures
            stage == self.state().stage,
    {
        self.state.stage
    }

    /// The answer tone that this end sends.
    #[must_use]
    pub fn tone(&self) -> (kind: AnswerToneKind)
        ensures
            kind == (if self.state().plain {
                AnswerToneKind::Ans
            } else {
                AnswerToneKind::Ansam
            }),
    {
        if self.state.plain {
            AnswerToneKind::Ans
        } else {
            AnswerToneKind::Ansam
        }
    }

    /// Goes on by the clock before the next samples, given how V.8 bis
    /// stands, and whether the far end has answered the pump that is tried.
    pub fn advance(&mut self, startup: Option<Startup>, transacts: bool, engaged: bool)
        requires
            old(self).valid(),
        ensures
            final(self).valid(),
            final(self).link() == old(self).link(),
            final(self).state() == old(self).state().advanced(startup, transacts, engaged),
    {
        let sent = self.state.sent;
        let tone = AnswerStage::Tone { until: sent + ANSAM_SAMPLES };
        let stage = self.state.stage;
        self.state.stage = match stage {
            AnswerStage::Silence => if sent >= V8BIS_SILENCE_SAMPLES {
                AnswerStage::V8bis
            } else {
                stage
            },
            AnswerStage::V8bis => match startup {
                Some(Startup::V8) => tone,
                Some(Startup::V25) => {
                    self.state.plain = true;
                    tone
                },
                Some(Startup::Caller) => AnswerStage::Chosen(Next::Caller),
                None => if !transacts && sent >= SILENCE_SAMPLES {
                    tone
                } else {
                    stage
                },
            },
            AnswerStage::Tone { until } => if sent >= until {
                AnswerStage::Gap { until: sent + GAP_SAMPLES, next: None }
            } else {
                stage
            },
            AnswerStage::Gap { until, next } => if sent < until {
                stage
            } else {
                match next {
                    Some(next) => AnswerStage::Chosen(next),
                    None => if matches!(self.state.offer.top, Modulation::V21) {
                        AnswerStage::Chosen(Next::Fresh(Modulation::V21.pump(Role::Answer)))
                    } else {
                        AnswerStage::Trying {
                            pump: self.state.offer.legacy().pump(Role::Answer),
                            until: sent + TA_SAMPLES,
                        }
                    },
                }
            },
            AnswerStage::Trying { until, .. } => if sent >= until && !engaged {
                AnswerStage::Chosen(Next::Fresh(Modulation::V21.pump(Role::Answer)))
            } else {
                stage
            },
            _ => stage,
        };
    }

    /// `length` samples have been sent.
    pub fn sent(&mut self, length: usize)
        requires
            old(self).valid(),
            old(self).state().sent + length <= CLOCK_LIMIT,
        ensures
            final(self).valid(),
            final(self).link() == old(self).link(),
            final(self).state() == (Answering {
                sent: (old(self).state().sent + length) as usize,
                ..old(self).state()
            }),
    {
        self.state.sent += length;
    }

    /// Whether the V.21 demodulator is to listen.
    #[must_use]
    pub fn listens(&self) -> (listens: bool)
        ensures
            listens == (self.state().stage is Silence || self.state().stage is Tone
                || self.state().stage is Jm || self.state().stage is Trying),
    {
        matches!(
            self.state.stage,
            AnswerStage::Silence | AnswerStage::Tone { .. } | AnswerStage::Jm { .. } | AnswerStage::Trying { .. }
        )
    }

    /// Takes the bits of V.21 that came, whether its carrier is there, and
    /// whether the far end has answered the pump that is tried.
    pub fn receive(&mut self, bits: &[bool], carrier: bool, engaged: bool)
        requires
            old(self).valid(),
        ensures
            final(self).valid(),
            ({
                let before = old(self).state();
                let link = old(self).link();
                let heard = crate::v8::hears(link.reading, bits@);
                let next = link.after(bits@, heard);
                let plain = next.without_menu >= SIGC_BITS;
                match before.stage {
                    AnswerStage::Silence | AnswerStage::Tone { .. } => {
                        &&& final(self).state() == (Answering {
                            stage: before.stage_after_menu(
                                first_menu(link.repeats, heard),
                                plain,
                            ),
                            ..before
                        })
                        &&& final(self).link() == (Linking {
                            repeats: repeats_after(link.repeats, heard),
                            ..next
                        })
                    },
                    AnswerStage::Jm { menu } => {
                        &&& final(self).state() == (Answering {
                            stage: before.stage_after_jm(
                                menu,
                                heard.contains(Heard::Cj) || !carrier,
                            ),
                            ..before
                        })
                        &&& final(self).link() == next
                    },
                    AnswerStage::Trying { pump, .. } => {
                        &&& final(self).state() == (Answering {
                            stage: before.stage_trying(pump, engaged, plain),
                            ..before
                        })
                        &&& final(self).link() == next
                    },
                    _ => final(self).state() == before && final(self).link() == link,
                }
            }),
    {
        let sent = self.state.sent;
        match self.state.stage {
            AnswerStage::Silence | AnswerStage::Tone { .. } => {
                match self.link.menu(bits) {
                    Some(cm) => {
                        let modes = self.state.offer.modes(Role::Answer).common(cm.modes);
                        self.state.stage = AnswerStage::Jm { menu: Menu { data: cm.data, modes } };
                    },
                    None => {
                        if self.link.plain_v21() {
                            // V.8 § 8.2.2: a V.21 caller's sigC during ANSam.
                            self.state.stage = AnswerStage::Gap {
                                until: sent + GAP_SAMPLES,
                                next: Some(Next::ResumedV21),
                            };
                        }
                    },
                }
            },
            AnswerStage::Jm { menu } => {
                // V.8 § 8.2.3 allows the end of CM in place of a lost CJ.
                let heard = self.link.hear(bits);
                let cj = says_cj(&heard);
                if cj || !carrier {
                    let next = self.state.offer.chosen(menu.modes, Role::Answer);
                    self.state.stage = AnswerStage::Gap {
                        until: sent + gap(menu.modes),
                        next: Some(Next::Fresh(next)),
                    };
                }
            },
            AnswerStage::Trying { pump, .. } => {
                let _heard = self.link.hear(bits);
                if engaged {
                    self.state.stage = AnswerStage::Chosen(Next::Fresh(pump));
                } else if self.link.plain_v21() {
                    self.state.stage = AnswerStage::Chosen(Next::ResumedV21);
                }
            },
            _ => {},
        }
    }
}

fn says_cj(heard: &Vec<Heard>) -> (says: bool)
    ensures
        says == heard@.contains(Heard::Cj),
{
    let mut i: usize = 0;
    while i < heard.len()
        invariant
            i <= heard.len(),
            forall|k: int| 0 <= k < i ==> heard[k] != Heard::Cj,
        decreases heard.len() - i,
    {
        if matches!(heard[i], Heard::Cj) {
            assert(heard@[i as int] == Heard::Cj);
            return true;
        }
        i += 1;
    }
    false
}

/// A caller that takes no notice of V.8 bis hears the answer tone 2 s after
/// the answer, and not before.
pub proof fn law_sends_the_answer_tone_at_2_s(state: Answering)
    requires
        state.stage is V8bis,
    ensures
        state.stage_in_time(None, false, false) is Tone <==> state.sent >= SILENCE_SAMPLES,
{
}

/// The answerer goes on from one stage to a later one, and a chosen pump
/// stays chosen.
pub proof fn law_answering_goes_on(
    state: Answering,
    startup: Option<Startup>,
    transacts: bool,
    engaged: bool,
    cm: Option<Menu>,
    plain: bool,
)
    ensures
        answer_rank(state.stage) <= answer_rank(
            state.stage_in_time(startup, transacts, engaged),
        ),
        state.stage is Silence || state.stage is Tone ==> answer_rank(state.stage) <= answer_rank(
            state.stage_after_menu(cm, plain),
        ),
        state.stage is Chosen ==> state.stage_in_time(startup, transacts, engaged) == state.stage,
{
}

pub open spec fn answer_rank(stage: AnswerStage) -> int {
    match stage {
        AnswerStage::Silence => 0,
        AnswerStage::V8bis => 1,
        AnswerStage::Tone { .. } => 2,
        AnswerStage::Jm { .. } => 3,
        AnswerStage::Gap { .. } => 4,
        AnswerStage::Trying { .. } => 5,
        AnswerStage::Chosen(_) => 6,
    }
}

#[derive(Debug, Clone, Copy, PartialEq, Eq, Structural)]
pub enum CallStage {
    Listening { heard_ans: bool },
    Te { until: usize },
    Cm { joint: Option<Modes> },
    Cj { modes: Modes },
    Gap { until: usize, next: Pump },
    Legacy,
    Chosen(Pump),
}

/// What the caller sends next.
#[derive(Debug, Clone, Copy, PartialEq, Eq, Structural)]
pub enum Sends {
    /// What V.8 bis has to say.
    V8bis,
    Silence,
    /// What is left of the bits of V.21, after `bits` where it has ended.
    Menu(Menu),
    Cj,
    /// What is left of the bits of V.21.
    Rest,
    Pump,
}

/// Where the caller is.
#[derive(Debug, Clone, Copy, PartialEq, Eq, Structural)]
pub struct Calling {
    pub offer: Offered,
    pub stage: CallStage,
    /// The samples of V.21 mark in a row, as far as they count.
    pub marked: usize,
    /// The samples sent.
    pub sent: usize,
}

impl Calling {
    pub open spec fn spec_cm(self) -> Menu {
        Menu { data: true, modes: self.offer.spec_modes(Role::Originate) }
    }

    /// The stage by the clock.
    pub open spec fn stage_in_time(self) -> CallStage {
        match self.stage {
            CallStage::Te { until } => if self.sent >= until {
                CallStage::Cm { joint: None }
            } else {
                self.stage
            },
            CallStage::Gap { until, next } => if self.sent >= until {
                CallStage::Chosen(next)
            } else {
                self.stage
            },
            _ => self.stage,
        }
    }

    /// CJ follows the last whole CM once JM has come.
    pub open spec fn stage_sending(self, idle: bool) -> CallStage {
        match self.stage_in_time() {
            CallStage::Cm { joint: Some(modes) } => if idle {
                CallStage::Cj { modes }
            } else {
                self.stage_in_time()
            },
            stage => stage,
        }
    }

    pub open spec fn sends(self, idle: bool) -> Sends {
        match self.stage_in_time() {
            CallStage::Listening { .. } => Sends::V8bis,
            CallStage::Te { .. } | CallStage::Gap { .. } | CallStage::Legacy => Sends::Silence,
            CallStage::Cm { joint } => if !idle {
                Sends::Rest
            } else if joint is Some {
                Sends::Cj
            } else {
                Sends::Menu(self.spec_cm())
            },
            CallStage::Cj { .. } => Sends::Rest,
            CallStage::Chosen(_) => Sends::Pump,
        }
    }

    /// The stage once `length` samples have been sent. The gap begins where
    /// CJ has ended, with what was sent while it did.
    pub open spec fn stage_sent(self, ended_cj: bool, length: int) -> CallStage {
        match self.stage {
            CallStage::Cj { modes } => if ended_cj {
                CallStage::Gap {
                    until: (self.sent + length + spec_gap(modes)) as usize,
                    next: self.offer.spec_chosen(modes, Role::Originate),
                }
            } else {
                self.stage
            },
            _ => self.stage,
        }
    }

    pub open spec fn spec_waits(self) -> bool {
        match self.stage {
            CallStage::Te { .. } | CallStage::Legacy => true,
            CallStage::Cm { joint } => joint is None,
            _ => false,
        }
    }

    pub open spec fn marked_after(self, mark: bool, length: int) -> int {
        if mark {
            at_most(self.marked + length, MARK_SAMPLES as int)
        } else {
            0
        }
    }

    /// V.8 § 8.1.1: the caller goes on as soon as it hears a modulation's
    /// own sigA: what the pump it tries has been answered with, or V.21 mark.
    pub open spec fn hears_sig_a(self, mark: bool, engaged: bool, length: int) -> Option<Pump> {
        if engaged && !(self.offer.top is V21) {
            Some(self.offer.spec_legacy().spec_pump(Role::Originate))
        } else if self.marked_after(mark, length) >= MARK_SAMPLES {
            Some(Modulation::V21.spec_pump(Role::Originate))
        } else {
            None
        }
    }

    /// The stage once JM has come, where it is waited for.
    pub open spec fn stage_after_jm(self, jm: Option<Menu>) -> CallStage {
        match jm {
            Some(jm) => CallStage::Cm {
                joint: Some(self.offer.spec_modes(Role::Originate).spec_common(jm.modes)),
            },
            None => self.stage,
        }
    }

    /// The state once V.21 mark has been listened for, or the far end has
    /// answered the pump that is tried.
    pub open spec fn with_sig_a(self, mark: bool, engaged: bool, length: int) -> Self {
        Self {
            stage: match self.hears_sig_a(mark, engaged, length) {
                Some(pump) => CallStage::Chosen(pump),
                None => self.stage,
            },
            marked: self.marked_after(mark, length) as usize,
            ..self
        }
    }

    /// The stage after the answer tone, or its end.
    pub open spec fn stage_after_tone(
        self,
        heard_ans: bool,
        tone: Option<AnswerToneKind>,
    ) -> CallStage {
        match tone {
            Some(AnswerToneKind::Ansam) => CallStage::Te {
                until: (self.sent + TE_SAMPLES) as usize,
            },
            Some(AnswerToneKind::Ans) => CallStage::Listening { heard_ans: true },
            None => if heard_ans {
                CallStage::Legacy
            } else {
                self.stage
            },
        }
    }
}

/// Answers CRe, calls with V.8 after ANSam, or follows USB1 or V.21 mark
/// after plain ANS.
#[derive(Debug)]
pub struct Call {
    state: Calling,
    link: MenuLink,
}

impl Call {
    pub closed spec fn state(self) -> Calling {
        self.state
    }

    pub closed spec fn link(self) -> Linking {
        self.link@
    }

    pub closed spec fn valid(self) -> bool {
        self.link.valid() && self.state.sent <= CLOCK_LIMIT && self.state.marked <= MARK_SAMPLES
    }

    #[must_use]
    pub fn new(offer: Offered) -> (call: Self)
        ensures
            call.valid(),
            call.state() == (Calling {
                offer,
                stage: CallStage::Listening { heard_ans: false },
                marked: 0,
                sent: 0,
            }),
            call.link() == (Linking {
                reading: Reading::fresh(),
                repeats: Repeats::fresh(),
                without_menu: 0,
            }),
    {
        Self {
            state: Calling {
                offer,
                stage: CallStage::Listening { heard_ans: false },
                marked: 0,
                sent: 0,
            },
            link: MenuLink::new(),
        }
    }

    #[must_use]
    pub fn stage(&self) -> (stage: CallStage)
        ensures
            stage == self.state().stage,
    {
        self.state.stage
    }

    /// The menu this end calls with.
    #[must_use]
    pub fn cm(&self) -> (menu: Menu)
        ensures
            menu == self.state().spec_cm(),
    {
        Menu::data(self.state.offer.modes(Role::Originate))
    }

    /// Goes on by the clock before the next samples, and says what they
    /// carry. V.21 is `idle` where it has no bits left to send.
    pub fn transmit(&mut self, idle: bool) -> (sends: Sends)
        requires
            old(self).valid(),
        ensures
            final(self).valid(),
            final(self).link() == old(self).link(),
            final(self).state() == (Calling {
                stage: old(self).state().stage_sending(idle),
                ..old(self).state()
            }),
            sends == old(self).state().sends(idle),
    {
        let sent = self.state.sent;
        match self.state.stage {
            CallStage::Te { until } => {
                if sent >= until {
                    self.state.stage = CallStage::Cm { joint: None };
                }
            },
            CallStage::Gap { until, next } => {
                if sent >= until {
                    self.state.stage = CallStage::Chosen(next);
                }
            },
            _ => {},
        }
        match self.state.stage {
            CallStage::Listening { .. } => Sends::V8bis,
            CallStage::Te { .. } | CallStage::Gap { .. } | CallStage::Legacy => Sends::Silence,
            CallStage::Cm { joint } => {
                if !idle {
                    return Sends::Rest;
                }
                match joint {
                    Some(modes) => {
                        self.state.stage = CallStage::Cj { modes };
                        Sends::Cj
                    },
                    None => Sends::Menu(self.cm()),
                }
            },
            CallStage::Cj { .. } => Sends::Rest,
            CallStage::Chosen(_) => Sends::Pump,
        }
    }

    /// `length` samples have been sent, and V.21 is `idle` after them. The
    /// samples that CJ starts in do not end it.
    pub fn sent(&mut self, length: usize, sends: Sends, idle: bool)
        requires
            old(self).valid(),
            old(self).state().sent + length <= CLOCK_LIMIT,
        ensures
            final(self).valid(),
            final(self).link() == old(self).link(),
            final(self).state() == (Calling {
                stage: old(self).state().stage_sent(sends is Rest && idle, length as int),
                sent: (old(self).state().sent + length) as usize,
                ..old(self).state()
            }),
    {
        if let CallStage::Cj { modes } = self.state.stage {
            if matches!(sends, Sends::Rest) && idle {
                self.state.stage = CallStage::Gap {
                    until: self.state.sent + length + gap(modes),
                    next: self.state.offer.chosen(modes, Role::Originate),
                };
            }
        }
        self.state.sent += length;
    }

    /// Whether the pump of the V.22 family that this end tries goes on in
    /// silence.
    #[must_use]
    pub fn ticks(&self) -> (ticks: bool)
        ensures
            ticks == (self.state().stage is Te || self.state().stage is Cm || self.state().stage
                is Legacy),
    {
        matches!(
            self.state.stage,
            CallStage::Te { .. } | CallStage::Cm { .. } | CallStage::Legacy
        )
    }

    /// Whether this end listens for a modulation's own sigA.
    #[must_use]
    pub fn waits(&self) -> (waits: bool)
        ensures
            waits == self.state().spec_waits(),
    {
        match self.state.stage {
            CallStage::Te { .. } | CallStage::Legacy => true,
            CallStage::Cm { joint } => joint.is_none(),
            _ => false,
        }
    }

    /// Takes whether V.21 mark is on the line, and whether the far end has
    /// answered the pump that this end tries, over `length` samples, and
    /// tells whether the call goes on with a pump.
    pub fn hear_sig_a(&mut self, mark: bool, engaged: bool, length: usize) -> (chosen: bool)
        requires
            old(self).valid(),
            old(self).state().spec_waits(),
        ensures
            final(self).valid(),
            final(self).link() == old(self).link(),
            ({
                let before = old(self).state();
                let heard = before.hears_sig_a(mark, engaged, length as int);
                &&& chosen == (heard is Some)
                &&& final(self).state() == before.with_sig_a(mark, engaged, length as int)
            }),
    {
        self.state.marked = if !mark {
            0
        } else if length < MARK_SAMPLES - self.state.marked {
            self.state.marked + length
        } else {
            MARK_SAMPLES
        };
        if engaged && !matches!(self.state.offer.top, Modulation::V21) {
            self.state.stage = CallStage::Chosen(self.state.offer.legacy().pump(Role::Originate));
            true
        } else if self.state.marked >= MARK_SAMPLES {
            self.state.stage = CallStage::Chosen(Modulation::V21.pump(Role::Originate));
            true
        } else {
            false
        }
    }

    /// Takes the answer tone that is on the line, and the bits of V.21 that
    /// came, as far as this end listens for them.
    pub fn receive(&mut self, tone: Option<AnswerToneKind>, bits: &[bool])
        requires
            old(self).valid(),
        ensures
            final(self).valid(),
            ({
                let before = old(self).state();
                let link = old(self).link();
                let heard = crate::v8::hears(link.reading, bits@);
                match before.stage {
                    CallStage::Listening { heard_ans } => {
                        &&& final(self).state() == (Calling {
                            stage: before.stage_after_tone(heard_ans, tone),
                            ..before
                        })
                        &&& final(self).link() == link
                    },
                    CallStage::Cm { joint: None } => {
                        &&& final(self).state() == (Calling {
                            stage: before.stage_after_jm(first_menu(link.repeats, heard)),
                            ..before
                        })
                        &&& final(self).link() == (Linking {
                            repeats: repeats_after(link.repeats, heard),
                            ..link.after(bits@, heard)
                        })
                    },
                    _ => final(self).state() == before && final(self).link() == link,
                }
            }),
    {
        match self.state.stage {
            CallStage::Listening { heard_ans } => match tone {
                Some(AnswerToneKind::Ansam) => {
                    self.state.stage = CallStage::Te { until: self.state.sent + TE_SAMPLES };
                },
                Some(AnswerToneKind::Ans) => {
                    self.state.stage = CallStage::Listening { heard_ans: true };
                },
                None => {
                    if heard_ans {
                        self.state.stage = CallStage::Legacy;
                    }
                },
            },
            CallStage::Cm { joint } => {
                if joint.is_none() {
                    if let Some(jm) = self.link.menu(bits) {
                        let modes = self.state.offer.modes(Role::Originate).common(jm.modes);
                        self.state.stage = CallStage::Cm { joint: Some(modes) };
                    }
                }
            },
            _ => {},
        }
    }
}

/// The caller sends CJ only when JM has come and the last CM is whole, and a
/// chosen pump stays chosen.
pub proof fn law_calling_goes_on(state: Calling, idle: bool)
    ensures
        state.sends(idle) is Cj ==> idle && state.stage is Cm && state.stage->joint is Some,
        state.stage is Chosen ==> state.stage_sending(idle) == state.stage,
        state.sends(idle) is Menu ==> idle,
{
}

/// The two ends of V.8 from the menu on: the answerer's JM gives the caller
/// the modes that the answerer goes on with, so the pumps of both pair up.
pub proof fn law_cm_and_jm_lead_to_pumps_that_pair_up(
    answering: Answering,
    calling: Calling,
    menu: Menu,
    jm: Menu,
)
    requires
        menu == calling.spec_cm(),
        answering.stage_after_menu(Some(menu), false) == (AnswerStage::Jm { menu: jm }),
    ensures
        ({
            let joint = calling.offer.spec_modes(Role::Originate).spec_common(jm.modes);
            let answerer = answering.stage_after_jm(jm, true);
            let caller = Calling {
                stage: CallStage::Cj { modes: joint },
                ..calling
            }.stage_sent(true, 0);
            &&& answerer is Gap
            &&& answerer->Gap_next is Some
            &&& answerer->Gap_next->0 is Fresh
            &&& pair_up(caller->Gap_next, answerer->Gap_next->0->Fresh_0)
        }),
{
    law_both_ends_choose_pumps_that_pair_up(calling.offer, answering.offer);
}

/// A call to a far end without V.8: once ANS has been heard, its end leaves the
/// caller waiting for the signal of a modulation, and so does the wait after
/// ANSam, until JM has come.
pub proof fn law_a_legacy_call_waits_for_a_modulation(calling: Calling, heard_ans: bool)
    requires
        calling.stage == (CallStage::Listening { heard_ans }),
        calling.sent <= CLOCK_LIMIT,
    ensures
        calling.stage_after_tone(heard_ans, Some(AnswerToneKind::Ans)) == (CallStage::Listening {
            heard_ans: true,
        }),
        calling.stage_after_tone(true, None) is Legacy,
        heard_ans || calling.stage_after_tone(heard_ans, None) == calling.stage,
        calling.stage_after_tone(heard_ans, Some(AnswerToneKind::Ansam)) == (CallStage::Te {
            until: (calling.sent + 8_000) as usize,
        }),
        ({
            let after = Calling { stage: calling.stage_after_tone(true, None), ..calling };
            &&& after.spec_waits()
            &&& after.sends(true) is Silence && after.stage_sending(true) == after.stage
        }),
        !calling.spec_waits(),
{
}

/// From there the far end's own signal carries the call on: its answer to the
/// pump of the V.22 family that is tried, or 200 ms of V.21 mark in a row.
pub proof fn law_sig_a_carries_a_call_on(calling: Calling, mark: bool, engaged: bool, length: int)
    requires
        calling.marked <= 1_600,
        length >= 0,
    ensures
        ({
            let after = calling.with_sig_a(mark, engaged, length);
            let tried = engaged && !(calling.offer.top is V21);
            let marked = mark && calling.marked + length >= 200 * 8;
            &&& tried && calling.offer.top is V22 ==> after.stage == CallStage::Chosen(
                Pump::V22(Role::Originate),
            )
            &&& tried && !(calling.offer.top is V22) ==> after.stage == CallStage::Chosen(
                Pump::V22bis(Role::Originate),
            )
            &&& !tried && marked ==> after.stage == CallStage::Chosen(Pump::V21(Role::Originate))
            &&& !tried && !marked ==> after.stage == calling.stage
            &&& !mark ==> after.marked == 0
            &&& mark && !marked ==> after.marked == calling.marked + length
            &&& calling.hears_sig_a(mark, engaged, length) is Some <==> tried || marked
            &&& after.offer == calling.offer && after.sent == calling.sent
        }),
        calling.spec_waits() == (calling.stage is Te || calling.stage is Legacy || calling.stage
            == (CallStage::Cm { joint: None })),
{
}

/// V.8 from the caller: CM after a second of silence, over and over until JM
/// has come, then CJ once the last CM is whole, and the pump after CJ and 75 ms
/// of silence, or at once for V.34 and V.90.
pub proof fn law_the_caller_runs_v8(calling: Calling, idle: bool, length: int, jm: Menu)
    requires
        calling.sent <= CLOCK_LIMIT,
        0 <= length <= CLOCK_LIMIT - calling.sent,
    ensures
        calling.stage matches CallStage::Te { until } ==> {
            &&& calling.sent < until ==> calling.sends(idle) is Silence && calling.stage_sending(
                idle,
            ) == calling.stage
            &&& calling.sent >= until && idle ==> calling.sends(idle) is Menu
                && calling.stage_sending(idle) == (CallStage::Cm { joint: None })
        },
        calling.stage == (CallStage::Cm { joint: None }) && idle ==> calling.sends(idle)
            == Sends::Menu(
            Menu { data: true, modes: calling.offer.spec_modes(Role::Originate) },
        ),
        calling.stage matches CallStage::Cm { joint: Some(modes) } ==> {
            &&& idle ==> calling.sends(idle) is Cj && calling.stage_sending(idle) == (
            CallStage::Cj { modes })
            &&& !idle ==> calling.sends(idle) is Rest && calling.stage_sending(idle)
                == calling.stage
        },
        calling.stage matches CallStage::Cj { modes } ==> {
            let after = calling.stage_sent(true, length);
            let silence = if modes.v34 || modes.v90.analogue || modes.v90.digital {
                0
            } else {
                75 * 8int
            };
            &&& calling.sends(idle) is Rest
            &&& calling.stage_sent(false, length) == calling.stage
            &&& after is Gap && after->Gap_until == calling.sent + length + silence
            &&& after->Gap_next == calling.offer.spec_chosen(modes, Role::Originate)
        },
        calling.stage matches CallStage::Gap { until, next } ==> {
            &&& calling.sent >= until ==> calling.stage_sending(idle) == CallStage::Chosen(next)
                && calling.sends(idle) is Pump
            &&& calling.sent < until ==> calling.stage_sending(idle) == calling.stage
                && calling.sends(idle) is Silence
        },
        calling.stage_after_jm(Some(jm)) == (CallStage::Cm {
            joint: Some(calling.offer.spec_modes(Role::Originate).spec_common(jm.modes)),
        }),
        calling.stage_after_jm(None) == calling.stage,
{
}

/// What an answerer does by the clock: 0.4 s of silence, V.8 bis until 2 s,
/// 5 s of answer tone, 75 ms of silence, the V.22 family for 3 s, then V.21.
/// With V.21 alone it goes there after the tone, and V.8 bis may end sooner.
pub proof fn law_the_answerer_goes_by_the_clock(
    answering: Answering,
    startup: Option<Startup>,
    transacts: bool,
    engaged: bool,
)
    requires
        answering.sent <= CLOCK_LIMIT,
    ensures
        ({
            let sent = answering.sent as int;
            let next = answering.stage_in_time(startup, transacts, engaged);
            &&& answering.stage is Silence ==> if sent >= 3_200 {
                next is V8bis
            } else {
                next == answering.stage
            }
            &&& answering.stage is V8bis ==> {
                let tone = AnswerStage::Tone { until: (sent + 5 * 8_000) as usize };
                match startup {
                    Some(Startup::V8) => next == tone,
                    Some(Startup::V25) => next == tone,
                    Some(Startup::Caller) => next == AnswerStage::Chosen(Next::Caller),
                    None => if !transacts && sent >= 2 * 8_000 {
                        next == tone
                    } else {
                        next == answering.stage
                    },
                }
            }
            &&& answering.stage matches AnswerStage::Tone { until } ==> if sent >= until {
                next == (AnswerStage::Gap { until: (sent + 75 * 8) as usize, next: None })
            } else {
                next == answering.stage
            }
            &&& answering.stage matches AnswerStage::Gap { until, next: held } ==> {
                &&& sent < until ==> next == answering.stage
                &&& sent >= until && held is Some ==> next == AnswerStage::Chosen(held->0)
                &&& sent >= until && held is None && answering.offer.top is V21 ==> next
                    == AnswerStage::Chosen(Next::Fresh(Pump::V21(Role::Answer)))
                &&& sent >= until && held is None && answering.offer.top is V22 ==> next == (
                AnswerStage::Trying {
                    pump: Pump::V22(Role::Answer),
                    until: (sent + 3 * 8_000) as usize,
                })
                &&& sent >= until && held is None && !(answering.offer.top is V21)
                    && !(answering.offer.top is V22) ==> next == (AnswerStage::Trying {
                    pump: Pump::V22bis(Role::Answer),
                    until: (sent + 3 * 8_000) as usize,
                })
            }
            &&& answering.stage matches AnswerStage::Trying { pump, until } ==> {
                &&& sent >= until && !engaged ==> next == AnswerStage::Chosen(
                    Next::Fresh(Pump::V21(Role::Answer)),
                )
                &&& sent < until || engaged ==> next == answering.stage
            }
            &&& answering.stage is Jm || answering.stage is Chosen ==> next == answering.stage
        }),
        ({
            let after = answering.advanced(startup, transacts, engaged);
            &&& after.plain == (answering.plain || answering.stage is V8bis && startup == Some(
                Startup::V25,
            ))
            &&& after.offer == answering.offer && after.sent == answering.sent
        }),
{
}

/// What an answerer does by what it hears: CM is answered with what both ends
/// have, CJ or the end of CM leads to the pump for it, a V.21 caller is taken
/// up at once, and a pump that is tried stays once the far end answers it.
pub proof fn law_the_answerer_goes_by_what_it_hears(
    answering: Answering,
    cm: Menu,
    plain: bool,
    pump: Pump,
    engaged: bool,
)
    requires
        answering.sent <= CLOCK_LIMIT,
    ensures
        answering.stage_after_menu(Some(cm), plain) == (AnswerStage::Jm {
            menu: Menu {
                data: cm.data,
                modes: answering.offer.spec_modes(Role::Answer).spec_common(cm.modes),
            },
        }),
        answering.stage_after_menu(None, true) == (AnswerStage::Gap {
            until: (answering.sent + 600) as usize,
            next: Some(Next::ResumedV21),
        }),
        answering.stage_after_menu(None, false) == answering.stage,
        ({
            let silence = if cm.modes.v34 || cm.modes.v90.analogue || cm.modes.v90.digital {
                0
            } else {
                600int
            };
            &&& answering.stage_after_jm(cm, true) == (AnswerStage::Gap {
                until: (answering.sent + silence) as usize,
                next: Some(Next::Fresh(answering.offer.spec_chosen(cm.modes, Role::Answer))),
            })
            &&& answering.stage_after_jm(cm, false) == answering.stage
        }),
        engaged ==> answering.stage_trying(pump, engaged, plain) == AnswerStage::Chosen(
            Next::Fresh(pump),
        ),
        !engaged && plain ==> answering.stage_trying(pump, engaged, plain) == AnswerStage::Chosen(
            Next::ResumedV21,
        ),
        !engaged && !plain ==> answering.stage_trying(pump, engaged, plain) == answering.stage,
{
}

/// The best mode in common is chosen: V.90, else V.34, else the V.22 family,
/// at its own start-up, else V.21.
pub proof fn law_the_best_common_mode_is_chosen(offer: Offered, common: Modes, role: Role)
    ensures
        ({
            let chosen = offer.spec_chosen(common, role);
            let v90 = common.v90.analogue || common.v90.digital;
            &&& v90 && role is Originate ==> chosen is Analogue
            &&& v90 && role is Answer ==> chosen is Digital
            &&& !v90 && common.v34 ==> chosen == Pump::V34(role)
            &&& !v90 && !common.v34 && common.v22bis ==> match offer.top {
                Modulation::V21 => chosen == Pump::V21(role),
                Modulation::V22 => chosen == Pump::V22(role),
                _ => chosen == Pump::V22bis(role),
            }
            &&& !v90 && !common.v34 && !common.v22bis ==> chosen == Pump::V21(role)
        }),
{
}

/// A menu offers the top, and with fallback all below it, and no more. Of V.90
/// the caller offers the analogue side and the answerer the digital one.
pub proof fn law_a_menu_offers_the_top_and_what_is_below(offer: Offered, role: Role)
    ensures
        ({
            let modes = offer.spec_modes(role);
            let top = offer.top;
            &&& modes.v90.analogue == (top is V90 && role is Originate)
            &&& modes.v90.digital == (top is V90 && role is Answer)
            &&& modes.v34 == (top is V34 || top is V90 && offer.fallback)
            &&& modes.v22bis == (top is V22 || top is V22bis || offer.fallback && (top is V34 || top
                is V90))
            &&& modes.v21 == (top is V21 || offer.fallback)
        }),
{
}

/// A menu counts where the one heard last is the same, a first one and CJ lead
/// on to what follows, and nothing heard counts as none.
pub proof fn law_a_repeated_menu_counts(repeats: Repeats, menu: Menu, heard: Seq<Heard>)
    ensures
        first_menu(repeats, Seq::<Heard>::empty()) is None,
        repeats.last == Some(menu) && repeats.count >= 1 ==> first_menu(
            repeats,
            seq![Heard::Menu(menu)] + heard,
        ) == Some(menu),
        repeats.last != Some(menu) ==> ({
            let once = Repeats { last: Some(menu), count: 1 };
            first_menu(repeats, seq![Heard::Menu(menu)] + heard) == first_menu(once, heard)
        }),
        first_menu(repeats, seq![Heard::Cj] + heard) == first_menu(repeats, heard),
{
    let one = seq![Heard::Menu(menu)] + heard;
    let cj = seq![Heard::Cj] + heard;
    assert(one[0] == Heard::Menu(menu) && cj[0] == Heard::Cj);
    assert(one.skip(1) =~= heard);
    assert(cj.skip(1) =~= heard);
}

/// So many bits without a menu show V.21 alone, and a menu starts them over.
pub proof fn law_150_bits_without_a_menu_are_plain_v21(
    link: Linking,
    bits: Seq<bool>,
    heard: Seq<Heard>,
)
    requires
        0 <= link.without_menu <= 150,
    ensures
        ({
            let after = link.after(bits, heard);
            let menu = exists|i: int| 0 <= i < heard.len() && #[trigger] heard[i] is Menu;
            &&& menu ==> after.without_menu == 0
            &&& !menu ==> (after.without_menu >= 150) == (link.without_menu + bits.len() >= 150)
            &&& !menu && link.without_menu + bits.len() < 150 ==> after.without_menu
                == link.without_menu + bits.len()
        }),
{
}

/// A modem that has neither V.34 nor V.90 to run waits 75 ms, 600 samples,
/// between V.8 and its modulation.
pub proof fn law_75_ms_between_v8_and_the_modulation(modes: Modes)
    ensures
        modes.v34 || modes.v90.spec_any() ==> spec_gap(modes) == 0,
        !modes.v34 && !modes.v90.spec_any() ==> spec_gap(modes) == 600,
{
}

/// Menus are counted while they repeat, from 1 for another, and CJ leaves the
/// count.
pub proof fn law_menus_are_counted_in_order(repeats: Repeats, menu: Menu, heard: Seq<Heard>)
    ensures
        repeats_after(repeats, Seq::<Heard>::empty()) == repeats,
        repeats_after(repeats, seq![Heard::Cj] + heard) == repeats_after(repeats, heard),
        repeats.last != Some(menu) ==> repeats_after(repeats, seq![Heard::Menu(menu)] + heard) == repeats_after(
            Repeats { last: Some(menu), count: 1 },
            heard,
        ),
        repeats.last == Some(menu) && repeats.count >= 1 ==> repeats_after(repeats, seq![Heard::Menu(menu)] + heard) == (
        Repeats { last: Some(menu), count: 2 }),
{
    let one = seq![Heard::Menu(menu)] + heard;
    let cj = seq![Heard::Cj] + heard;
    assert(one[0] == Heard::Menu(menu) && cj[0] == Heard::Cj);
    assert(one.skip(1) =~= heard);
    assert(cj.skip(1) =~= heard);
}

} // verus!

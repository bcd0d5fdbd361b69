//! What an end of V.34 hears from phase 3 on: S and S̄, the training of the
//! far end, J, MP and E, and where data begins.

use crate::pump::{Role, CLOCK_LIMIT};
use crate::scrambler::{Descrambler, Scrambling};
use crate::v34::bits::pattern_bits;
use crate::v34::constellation::{wide, Point};
use crate::v34::detect::Heard;
use crate::v34::framing::Framing;
use crate::v34::mp::{found_at, window_after, Deframer, E_ONES};
use crate::v34::source::{polynomial, spec_polynomial, Far, Sent, S_BAR_SYMBOLS, TRN_LEAST};
use crate::v34::training::{
    pattern, pp, spec_pp, Points, Sender, Sending, J_16, J_4, J_PRIME, PP_SYMBOLS,
};
use std::collections::VecDeque;
use vstd::prelude::*;

verus! {

/// Of the far phase 4 TRN: the symbols the equaliser settles on.
pub const TRN_SETTLE: usize = 512;

/// Of the far phase 4 TRN: the end of the measurement.
pub const TRN_HEARD: usize = 1536;

/// How a front end follows the timing of a signal.
#[derive(Debug, Clone, Copy, PartialEq, Eq, Structural)]
pub enum Tracking {
    /// On S, which carries strong timing, from any starting phase.
    Acquire,
    /// On PP and TRN.
    Train,
    /// In data mode, where Gardner's self-noise on a large constellation
    /// would limit the SNR, and only clock drift is left to follow.
    Data,
}

#[derive(Debug, Clone, Copy, PartialEq, Eq, Structural)]
pub enum Listen {
    /// For S and the S̄ after it.
    S,
    /// On PP and TRN, known from the S̄ that began at `from`.
    Train { from: usize },
    /// Decisions on 4 points, reading J, J′, MP and E.
    Sequences,
    /// Phase 4 TRN, from `from`.
    Trn { from: usize },
    /// B1 and data, from `from`.
    Data { from: usize },
    /// S in data mode, until the S̄ that starts a rate renegotiation.
    Hold,
}

/// Where the receiver is.
#[derive(Debug, Clone, Copy, PartialEq, Eq, Structural)]
pub struct Ear {
    pub far_role: Role,
    pub listen: Listen,
    pub phase: u8,
    pub quadrant: u8,
    /// A decoder for the rate agreed on is there.
    pub decoding: bool,
    /// The bits of B1 still to come.
    pub skip_bits: usize,
}

/// What the equaliser learns from a symbol.
#[derive(Debug, Clone, Copy, PartialEq, Eq)]
pub enum Target {
    Nothing,
    /// A symbol known before it came.
    Known(Sent),
    /// The nearest of the 4 points. In TRN past `TRN_SETTLE` its distance is
    /// measured.
    Nearest { trn: Option<usize> },
    Data,
}

/// All that the receiver keeps.
pub struct Hearing {
    pub ear: Ear,
    pub known: Sending,
    /// The symbols of the far TRN as they are known.
    pub known_symbols: Seq<Point>,
    /// The line bits of the sequences, newest first.
    pub history: Seq<bool>,
    /// The last 32 bits of the sequences.
    pub window: Seq<bool>,
    /// What the MP deframer has.
    pub mp_window: Seq<bool>,
    pub ones: int,
    /// The line bits of data, newest first.
    pub data_history: Seq<bool>,
}

pub open spec fn j_of(points: Points) -> Seq<bool> {
    match points {
        Points::Four => pattern_bits(J_4@),
        Points::Sixteen => pattern_bits(J_16@),
    }
}

/// J repeats: a single 16-bit match can come from errors in a long TRN.
pub open spec fn repeats_j(window: Seq<bool>, points: Points) -> bool {
    window.take(16) == j_of(points) && window.skip(16) == j_of(points)
}

/// J′ follows J.
pub open spec fn ends_j(window: Seq<bool>) -> bool {
    (window.take(16) == j_of(Points::Four) || window.take(16) == j_of(Points::Sixteen))
        && window.skip(16) == pattern_bits(J_PRIME@)
}

/// The receiver and what it tells the transmitter.
pub struct Told {
    pub hearing: Hearing,
    pub far: Far,
}

impl Hearing {
    pub open spec fn fresh(role: Role) -> Self {
        let polynomial = spec_polynomial(role.spec_far());
        Self {
            ear: Ear {
                far_role: role.spec_far(),
                listen: Listen::S,
                phase: 3,
                quadrant: 0,
                decoding: false,
                skip_bits: 0,
            },
            known: Sending { scrambling: Scrambling::fresh(polynomial), quadrant: 0 },
            known_symbols: seq![],
            history: Seq::new(polynomial.spec_b() as nat, |i: int| false),
            window: Seq::new(32, |i: int| false),
            mp_window: seq![],
            ones: 0,
            data_history: Seq::new(polynomial.spec_b() as nat, |i: int| false),
        }
    }

    pub open spec fn listening(self, listen: Listen) -> Self {
        Self { ear: Ear { listen, ..self.ear }, ..self }
    }

    /// § 11.6.1.1.2 and § 11.6.1.2.1: after the far S̄, TRN, MP and E again,
    /// then B1 at the new rate.
    pub open spec fn renegotiated(self, at: int) -> Self {
        Self {
            ear: Ear {
                listen: Listen::Trn { from: (at + S_BAR_SYMBOLS) as usize },
                decoding: false,
                ..self.ear
            },
            mp_window: seq![],
            ones: 0,
            ..self
        }
    }

    /// What S or S̄ leads to.
    pub open spec fn heard(self, heard: Option<Heard>, far: Far) -> Told {
        match (heard, self.ear.listen) {
            (Some(Heard::SBar(at)), Listen::S) => Told {
                hearing: self.listening(Listen::Train { from: at }),
                far: Far { s_bar: 1, ..far },
            },
            (Some(Heard::SBar(at)), Listen::Sequences) => if self.ear.phase == 4 && far.s_bar == 1 {
                Told {
                    hearing: self.listening(Listen::Trn { from: (at + S_BAR_SYMBOLS) as usize }),
                    far: Far { s_bar: 2, ..far },
                }
            } else {
                Told { hearing: self, far }
            },
            (Some(Heard::S), Listen::Data { .. }) => Told {
                hearing: self.listening(Listen::Hold),
                far,
            },
            (Some(Heard::SBar(at)), Listen::Data { .. } | Listen::Hold) => Told {
                hearing: self.renegotiated(at as int),
                far: Far {
                    renegotiations: if far.renegotiations < u32::MAX {
                        (far.renegotiations + 1) as u32
                    } else {
                        0
                    },
                    ..far.without_mp()
                },
            },
            _ => Told { hearing: self, far },
        }
    }

    /// The bit that a line bit of a sequence stands for.
    pub open spec fn descrambles(self, line: bool) -> bool {
        line != spec_polynomial(self.ear.far_role).taps(self.history)
    }

    pub open spec fn with_line(self, line: bool) -> Self {
        Self { history: spec_polynomial(self.ear.far_role).shift(self.history, line), ..self }
    }

    /// How far a symbol turned from the last, clockwise.
    pub open spec fn turns(self, quadrant: u8) -> int {
        (quadrant + 4 - self.ear.quadrant) % 4
    }

    pub open spec fn line_bit(self, quadrant: u8, n: int) -> bool {
        if n == 0 {
            self.turns(quadrant) % 2 == 1
        } else {
            self.turns(quadrant) >= 2
        }
    }

    /// The two bits of a 4-point symbol of J, J′, MP or E, descrambled.
    pub open spec fn bit(self, quadrant: u8, n: int) -> bool {
        if n == 0 {
            self.descrambles(self.line_bit(quadrant, 0))
        } else {
            self.with_line(self.line_bit(quadrant, 0)).descrambles(self.line_bit(quadrant, 1))
        }
    }

    pub open spec fn with_symbol(self, quadrant: u8) -> Self {
        let lined = self.with_line(self.line_bit(quadrant, 0)).with_line(
            self.line_bit(quadrant, 1),
        );
        Self { ear: Ear { quadrant, ..self.ear }, ..lined }
    }

    /// J asks for a constellation.
    pub open spec fn with_j(self, far: Far, index: int) -> Told {
        if self.ear.phase == 3 {
            let j = if repeats_j(self.window, Points::Sixteen) {
                Some(Points::Sixteen)
            } else if repeats_j(self.window, Points::Four) {
                Some(Points::Four)
            } else {
                far.j
            };
            Told {
                hearing: Self {
                    ear: Ear {
                        phase: if j is Some {
                            4
                        } else {
                            3
                        },
                        ..self.ear
                    },
                    ..self
                },
                far: Far { j, ..far },
            }
        } else if self.ear.far_role is Originate && !far.trn && ends_j(self.window) {
            Told { hearing: self.listening(Listen::Trn { from: (index + 1) as usize }), far }
        } else {
            Told { hearing: self, far }
        }
    }

    /// A bit that MP is read from.
    pub open spec fn with_mp_bit(self, bit: bool, far: Far) -> Told {
        Told {
            hearing: Self {
                mp_window: window_after(self.mp_window, seq![bit]),
                ones: if !bit {
                    0
                } else if self.ones < usize::MAX {
                    self.ones + 1
                } else {
                    self.ones
                },
                ..self
            },
            far: match found_at(self.mp_window, seq![bit], 0) {
                Some(mp) => Far { ack: far.ack || mp.acknowledge, mp: Some(mp), ..far },
                None => far,
            },
        }
    }

    /// E, after MP, leads to data.
    pub open spec fn with_e(self, far: Far, index: int) -> Told {
        if far.mp is Some && self.ones == E_ONES {
            Told {
                hearing: self.listening(Listen::Data { from: (index + 1) as usize }),
                far: Far { ack: true, ..far },
            }
        } else {
            Told { hearing: self, far }
        }
    }

    pub open spec fn with_sequence_bit(self, bit: bool, far: Far, index: int) -> Told {
        let slid = Self { window: self.window.skip(1).push(bit), ..self };
        let j = slid.with_j(far, index);
        let mp = j.hearing.with_mp_bit(bit, j.far);
        mp.hearing.with_e(mp.far, index)
    }

    /// A symbol of the sequences.
    pub open spec fn with_sequences(self, quadrant: u8, far: Far, index: int) -> Told {
        let first = self.bit(quadrant, 0);
        let second = self.bit(quadrant, 1);
        let told = self.with_symbol(quadrant).with_sequence_bit(first, far, index);
        told.hearing.with_sequence_bit(second, told.far, index)
    }

    /// The far phase 4 TRN, until enough symbols of it or the far MP after it.
    pub open spec fn with_trn(self, quadrant: u8, offset: int, trained: u8, far: Far) -> Told {
        let first = self.with_symbol(quadrant).with_mp_bit(self.bit(quadrant, 0), far);
        let second = first.hearing.with_mp_bit(self.bit(quadrant, 1), first.far);
        if offset + 1 < TRN_HEARD && second.far.mp is None {
            second
        } else {
            Told {
                hearing: second.hearing.listening(Listen::Sequences),
                far: Far { trn: true, trained: Some(trained), ..second.far },
            }
        }
    }

    /// A symbol at `index`, whose nearest of the 4 points is in `quadrant`,
    /// where the far TRN is heard well enough for `trained`.
    pub open spec fn taken(self, quadrant: u8, index: int, trained: u8, far: Far) -> Told {
        match self.ear.listen {
            Listen::Sequences => self.with_sequences(quadrant, far, index),
            Listen::Trn { from } => if index >= from {
                self.with_trn(quadrant, index - from, trained, far)
            } else {
                Told { hearing: self.with_symbol(quadrant), far }
            },
            _ => Told { hearing: self, far },
        }
    }
}

/// After J has come twice in a row, whatever came before, this end knows the
/// constellation it asks for.
pub proof fn law_j_twice_asks_for_its_constellation(hearing: Hearing, far: Far, index: int)
    requires
        hearing.ear.phase == 3,
        hearing.window.len() == 32,
    ensures
        repeats_j(hearing.window, Points::Four) ==> hearing.with_j(far, index).far.j == Some(
            Points::Four,
        ),
        repeats_j(hearing.window, Points::Sixteen) ==> hearing.with_j(far, index).far.j == Some(
            Points::Sixteen,
        ),
{
    reveal_strlit("0000100110010001");
    reveal_strlit("0000110110010001");
    if repeats_j(hearing.window, Points::Four) && repeats_j(hearing.window, Points::Sixteen) {
        assert(j_of(Points::Four)[5] != j_of(Points::Sixteen)[5]);
    }
}

/// Data begins only after the far MP, by E.
pub proof fn law_data_follows_mp_and_e(hearing: Hearing, quadrant: u8, index: int, trained: u8, far: Far)
    requires
        hearing.ear.listen is Sequences || hearing.ear.listen is Trn,
    ensures
        ({
            let told = hearing.taken(quadrant, index, trained, far);
            told.hearing.ear.listen is Data ==> told.far.mp is Some && told.far.ack
        }),
{
}

/// The receive side from phase 3 on.
#[derive(Debug)]
pub struct Sink {
    ear: Ear,
    known: Sender,
    known_symbols: Vec<Point>,
    descrambler: Descrambler,
    window: VecDeque<bool>,
    deframer: Deframer,
    data_descrambler: Descrambler,
}

impl View for Sink {
    type V = Hearing;

    closed spec fn view(&self) -> Hearing {
        Hearing {
            ear: self.ear,
            known: self.known@,
            known_symbols: self.known_symbols@,
            history: self.descrambler.history(),
            window: self.window@,
            mp_window: self.deframer.window(),
            ones: self.deframer.spec_ones(),
            data_history: self.data_descrambler.history(),
        }
    }
}

fn thirty_two_zeros() -> (bits: VecDeque<bool>)
    ensures
        bits@ == Seq::new(32, |i: int| false),
{
    let mut bits: VecDeque<bool> = VecDeque::new();
    let mut n: usize = 0;
    while n < 32
        invariant
            n <= 32,
            bits@ == Seq::new(n as nat, |i: int| false),
        decreases 32 - n,
    {
        bits.push_back(false);
        n += 1;
        assert(bits@ =~= Seq::new(n as nat, |i: int| false));
    }
    bits
}

/// Whether `window` has `bits` from `at` on.
fn has_at(window: &VecDeque<bool>, at: usize, bits: &Vec<bool>) -> (has_bits: bool)
    requires
        window@.len() == 32,
        bits.len() == 16,
        at == 0 || at == 16,
    ensures
        has_bits == (window@.subrange(at as int, at + 16) == bits@),
{
    let mut i: usize = 0;
    while i < 16
        invariant
            i <= 16,
            window@.len() == 32,
            bits.len() == 16,
            at == 0 || at == 16,
            forall|k: int| 0 <= k < i ==> #[trigger] bits@[k] == window@[at + k],
        decreases 16 - i,
    {
        if window[at + i] != bits[i] {
            assert(window@.subrange(at as int, at + 16)[i as int] != bits@[i as int]);
            return false;
        }
        i += 1;
    }
    assert(window@.subrange(at as int, at + 16) =~= bits@);
    true
}

impl Sink {
    pub closed spec fn valid(self) -> bool {
        let polynomial = spec_polynomial(self.ear.far_role);
        &&& self.ear.quadrant < 4
        &&& self.known.valid()
        &&& self.descrambler.valid()
        &&& self.descrambler.polynomial() == polynomial
        &&& self.data_descrambler.valid()
        &&& self.data_descrambler.polynomial() == polynomial
        &&& self.window@.len() == 32
        &&& self.deframer.valid()
        &&& match self.ear.listen {
            Listen::Train { from } => from <= CLOCK_LIMIT,
            Listen::Trn { from } => from <= CLOCK_LIMIT + S_BAR_SYMBOLS,
            _ => true,
        }
    }

    #[must_use]
    pub fn new(role: Role) -> (sink: Self)
        ensures
            sink.valid(),
            sink@ == Hearing::fresh(role),
    {
        let far_role = role.far();
        let sink = Self {
            ear: Ear {
                far_role,
                listen: Listen::S,
                phase: 3,
                quadrant: 0,
                decoding: false,
                skip_bits: 0,
            },
            known: Sender::new(far_role),
            known_symbols: Vec::new(),
            descrambler: Descrambler::with(polynomial(far_role)),
            window: thirty_two_zeros(),
            deframer: Deframer::default(),
            data_descrambler: Descrambler::with(polynomial(far_role)),
        };
        assert(sink@.known_symbols =~= Seq::<Point>::empty());
        sink
    }

    #[must_use]
    pub fn ear(&self) -> (ear: Ear)
        ensures
            ear == self@.ear,
    {
        self.ear
    }

    /// Takes what the detector found with the next symbol, and gives how the
    /// front end is to track from now on, where that changes.
    pub fn hear(&mut self, heard: Option<Heard>, far: &mut Far) -> (tracking: Option<Tracking>)
        requires
            old(self).valid(),
            match heard {
                Some(Heard::SBar(at)) => at <= CLOCK_LIMIT,
                _ => true,
            },
        ensures
            final(self).valid(),
            final(self)@ == old(self)@.heard(heard, *old(far)).hearing,
            *final(far) == old(self)@.heard(heard, *old(far)).far,
            tracking == (if heard is Some && heard->0 is SBar && old(self)@.ear.listen is S {
                Some(Tracking::Train)
            } else {
                None
            }),
    {
        match heard {
            Some(Heard::SBar(at)) => match self.ear.listen {
                Listen::S => {
                    self.ear.listen = Listen::Train { from: at };
                    far.s_bar = 1;
                    return Some(Tracking::Train);
                },
                Listen::Sequences => {
                    if self.ear.phase == 4 && far.s_bar == 1 {
                        self.ear.listen = Listen::Trn { from: at + S_BAR_SYMBOLS };
                        far.s_bar = 2;
                    }
                },
                Listen::Data { .. } | Listen::Hold => {
                    self.ear.listen = Listen::Trn { from: at + S_BAR_SYMBOLS };
                    self.ear.decoding = false;
                    self.deframer = Deframer::default();
                    far.forget_mp();
                    far.renegotiations = if far.renegotiations < u32::MAX {
                        far.renegotiations + 1
                    } else {
                        0
                    };
                },
                _ => {},
            },
            Some(Heard::S) => {
                if let Listen::Data { .. } = self.ear.listen {
                    self.ear.listen = Listen::Hold;
                }
            },
            None => {},
        }
        None
    }

    /// What the equaliser is to learn from the symbol at `index`. Once enough
    /// of TRN has come, the sequences after it are read.
    pub fn target(&mut self, index: usize) -> (target: Target)
        requires
            old(self).valid(),
            index <= CLOCK_LIMIT,
        ensures
            final(self).valid(),
            target == old(self)@.spec_target(index as int),
            final(self)@ == old(self)@.learnt(index as int),
    {
        match self.ear.listen {
            Listen::Train { from } => {
                if index < from + S_BAR_SYMBOLS {
                    return Target::Nothing;
                }
                let offset = index - (from + S_BAR_SYMBOLS);
                if offset < PP_SYMBOLS {
                    return Target::Known(Sent::Turn(pp(offset)));
                }
                let trn = offset - PP_SYMBOLS;
                self.learn(trn);
                let known = self.known_symbols[trn];
                self.ear.quadrant = quarter(known);
                if trn + 1 >= TRN_LEAST {
                    self.ear.listen = Listen::Sequences;
                }
                Target::Known(Sent::Four(known))
            },
            Listen::Sequences => Target::Nearest { trn: None },
            Listen::Trn { from } => Target::Nearest {
                trn: if index >= from {
                    Some(index - from)
                } else {
                    None
                },
            },
            Listen::Data { from } => if index >= from {
                Target::Data
            } else {
                Target::Nothing
            },
            _ => Target::Nothing,
        }
    }

    /// The symbols of the far TRN up to `trn`.
    fn learn(&mut self, trn: usize)
        requires
            old(self).valid(),
            trn <= CLOCK_LIMIT,
        ensures
            final(self).valid(),
            final(self).known_symbols.len() > trn,
            ({
                let known = known_after(old(self)@.known, old(self)@.known_symbols, trn + 1);
                final(self)@ == (Hearing { known: known.0, known_symbols: known.1, ..old(self)@ })
            }),
    {
        let ghost before = self@;
        while self.known_symbols.len() <= trn
            invariant
                self.valid(),
                trn <= CLOCK_LIMIT,
                self@ == (Hearing {
                    known: self.known@,
                    known_symbols: self.known_symbols@,
                    ..before
                }),
                known_after(before.known, before.known_symbols, trn + 1) == known_after(
                    self.known@,
                    self.known_symbols@,
                    trn + 1,
                ),
            decreases trn + 1 - self.known_symbols.len(),
        {
            let ghost held = self.known@;
            let ghost symbols = self.known_symbols@;
            let next = self.known.trn(Points::Four);
            self.known_symbols.push(next);
            proof {
                let p = held.from_zero().point(Seq::empty(), 0, Points::Four);
                assert(wide(next) == p);
                assert(next == (p.0 as i32, p.1 as i32));
                reveal_with_fuel(known_after, 2);
                assert(self.known_symbols@ =~= symbols.push((p.0 as i32, p.1 as i32)));
            }
        }
    }

    /// One 4-point symbol of J, J′, MP or E, descrambled.
    fn sequence_bits(&mut self, quadrant: u8) -> (bits: (bool, bool))
        requires
            old(self).valid(),
            quadrant < 4,
        ensures
            final(self).valid(),
            final(self)@ == old(self)@.with_symbol(quadrant),
            bits.0 == old(self)@.bit(quadrant, 0),
            bits.1 == old(self)@.bit(quadrant, 1),
    {
        let turns = (quadrant + 4 - self.ear.quadrant) % 4;
        self.ear.quadrant = quadrant;
        let first = self.descrambler.descramble(turns % 2 == 1);
        let second = self.descrambler.descramble(turns >= 2);
        (first, second)
    }

    fn j(&mut self, index: usize, far: &mut Far)
        requires
            old(self).valid(),
            index <= CLOCK_LIMIT,
        ensures
            final(self).valid(),
            final(self)@ == old(self)@.with_j(*old(far), index as int).hearing,
            *final(far) == old(self)@.with_j(*old(far), index as int).far,
    {
        proof {
            reveal_strlit("0000100110010001");
            reveal_strlit("0000110110010001");
            reveal_strlit("1111100110010001");
        }
        let four = pattern(J_4);
        let sixteen = pattern(J_16);
        proof {
            assert(self.window@.subrange(0, 16) =~= self.window@.take(16));
            assert(self.window@.subrange(16, 32) =~= self.window@.skip(16));
        }
        let after_four = has_at(&self.window, 0, &four);
        let after_sixteen = has_at(&self.window, 0, &sixteen);
        if self.ear.phase == 3 {
            if after_sixteen && has_at(&self.window, 16, &sixteen) {
                far.j = Some(Points::Sixteen);
            } else if after_four && has_at(&self.window, 16, &four) {
                far.j = Some(Points::Four);
            }
            if far.j.is_some() {
                self.ear.phase = 4;
            }
        } else if matches!(self.ear.far_role, Role::Originate) && !far.trn {
            let end = pattern(J_PRIME);
            if (after_four || after_sixteen) && has_at(&self.window, 16, &end) {
                self.ear.listen = Listen::Trn { from: index + 1 };
            }
        }
    }

    fn mp_bit(&mut self, bit: bool, far: &mut Far)
        requires
            old(self).valid(),
        ensures
            final(self).valid(),
            final(self)@ == old(self)@.with_mp_bit(bit, *old(far)).hearing,
            *final(far) == old(self)@.with_mp_bit(bit, *old(far)).far,
    {
        if let Some(mp) = self.deframer.push(bit) {
            far.ack = far.ack || mp.acknowledge;
            far.mp = Some(mp);
        }
    }

    fn sequence_bit(&mut self, bit: bool, index: usize, far: &mut Far)
        requires
            old(self).valid(),
            index <= CLOCK_LIMIT,
        ensures
            final(self).valid(),
            final(self)@ == old(self)@.with_sequence_bit(bit, *old(far), index as int).hearing,
            *final(far) == old(self)@.with_sequence_bit(bit, *old(far), index as int).far,
    {
        let ghost window = self.window@;
        let _oldest = self.window.pop_front();
        self.window.push_back(bit);
        assert(self.window@ =~= window.skip(1).push(bit));
        self.j(index, far);
        self.mp_bit(bit, far);
        if far.mp.is_some() && self.deframer.ones() == E_ONES {
            far.ack = true;
            self.ear.listen = Listen::Data { from: index + 1 };
        }
    }

    /// Takes the symbol at `index`, whose nearest of the 4 points is in
    /// `quadrant`, where the far TRN is heard well enough for `trained`.
    pub fn take(&mut self, quadrant: u8, index: usize, trained: u8, far: &mut Far)
        requires
            old(self).valid(),
            quadrant < 4,
            index <= CLOCK_LIMIT,
        ensures
            final(self).valid(),
            final(self)@ == old(self)@.taken(quadrant, index as int, trained, *old(far)).hearing,
            *final(far) == old(self)@.taken(quadrant, index as int, trained, *old(far)).far,
    {
        match self.ear.listen {
            Listen::Sequences => {
                let (first, second) = self.sequence_bits(quadrant);
                self.sequence_bit(first, index, far);
                self.sequence_bit(second, index, far);
            },
            Listen::Trn { from } => {
                let (first, second) = self.sequence_bits(quadrant);
                if index >= from {
                    self.mp_bit(first, far);
                    self.mp_bit(second, far);
                    if index - from + 1 >= TRN_HEARD || far.mp.is_some() {
                        far.trn = true;
                        far.trained = Some(trained);
                        self.ear.listen = Listen::Sequences;
                    }
                }
            },
            _ => {},
        }
    }

    /// Goes on with data in `framing`, from B1.
    pub fn start_data(&mut self, framing: &Framing)
        requires
            old(self).valid(),
            framing.valid(),
        ensures
            final(self).valid(),
            final(self)@ == (Hearing {
                ear: Ear {
                    decoding: true,
                    skip_bits: (framing.p * framing.b - (framing.p - framing.r)) as usize,
                    ..old(self)@.ear
                },
                data_history: Seq::new(
                    spec_polynomial(old(self)@.ear.far_role).spec_b() as nat,
                    |i: int| false,
                ),
                ..old(self)@
            }),
    {
        proof {
            crate::v34::framing::law_framings_fit(*framing);
            let p = framing.p as int;
            let b = framing.b as int;
            assert(0 <= p * b <= 0x10000) by (nonlinear_arith)
                requires
                    0 <= p <= 16,
                    0 <= b <= 0x1000,
            ;
            assert(p * b >= p) by (nonlinear_arith)
                requires
                    p >= 0,
                    b >= 1,
            ;
        }
        self.ear.skip_bits = framing.p * framing.b - (framing.p - framing.r);
        self.ear.decoding = true;
        self.data_descrambler = Descrambler::with(polynomial(self.ear.far_role));
    }

    /// Takes a decoded bit, and gives its data bit once B1 is over.
    pub fn data_bit(&mut self, line: bool) -> (data: Option<bool>)
        requires
            old(self).valid(),
        ensures
            final(self).valid(),
            data == old(self)@.data_of(line),
            final(self)@ == old(self)@.with_data_line(line),
    {
        let bit = self.data_descrambler.descramble(line);
        if self.ear.skip_bits > 0 {
            self.ear.skip_bits -= 1;
            None
        } else {
            Some(bit)
        }
    }

    /// Whether data flows.
    #[must_use]
    pub fn in_data(&self) -> (flows: bool)
        ensures
            flows == self@.in_data(),
    {
        self.ear.decoding && self.ear.skip_bits == 0 && matches!(
            self.ear.listen,
            Listen::Data { .. }
        )
    }
}

impl Hearing {
    /// What the equaliser is to learn from the symbol at `index`.
    pub open spec fn spec_target(self, index: int) -> Target {
        match self.ear.listen {
            Listen::Train { from } => {
                let offset = index - (from + S_BAR_SYMBOLS);
                if offset < 0 {
                    Target::Nothing
                } else if offset < PP_SYMBOLS {
                    Target::Known(Sent::Turn(spec_pp(offset) as u8))
                } else {
                    let known = known_after(
                        self.known,
                        self.known_symbols,
                        offset - PP_SYMBOLS + 1,
                    );
                    Target::Known(Sent::Four(known.1[offset - PP_SYMBOLS]))
                }
            },
            Listen::Sequences => Target::Nearest { trn: None },
            Listen::Trn { from } => Target::Nearest {
                trn: if index >= from {
                    Some((index - from) as usize)
                } else {
                    None
                },
            },
            Listen::Data { from } => if index >= from {
                Target::Data
            } else {
                Target::Nothing
            },
            _ => Target::Nothing,
        }
    }

    /// Once the equaliser has learnt from the symbol at `index`: after enough
    /// of TRN, the sequences after it are read.
    pub open spec fn learnt(self, index: int) -> Self {
        match self.ear.listen {
            Listen::Train { from } => {
                let trn = index - (from + S_BAR_SYMBOLS) - PP_SYMBOLS;
                if trn >= 0 {
                    let known = known_after(self.known, self.known_symbols, trn + 1);
                    Self {
                        known: known.0,
                        known_symbols: known.1,
                        ear: Ear {
                            quadrant: quarter_of(known.1[trn]),
                            listen: if trn + 1 >= TRN_LEAST {
                                Listen::Sequences
                            } else {
                                self.ear.listen
                            },
                            ..self.ear
                        },
                        ..self
                    }
                } else {
                    self
                }
            },
            _ => self,
        }
    }

    /// The data bit of a decoded bit, once B1 is over.
    pub open spec fn data_of(self, line: bool) -> Option<bool> {
        if self.ear.skip_bits > 0 {
            None
        } else {
            Some(line != spec_polynomial(self.ear.far_role).taps(self.data_history))
        }
    }

    pub open spec fn with_data_line(self, line: bool) -> Self {
        Self {
            ear: Ear {
                skip_bits: if self.ear.skip_bits > 0 {
                    (self.ear.skip_bits - 1) as usize
                } else {
                    0
                },
                ..self.ear
            },
            data_history: spec_polynomial(self.ear.far_role).shift(self.data_history, line),
            ..self
        }
    }

    /// Whether data flows.
    pub open spec fn in_data(self) -> bool {
        self.ear.decoding && self.ear.skip_bits == 0 && self.ear.listen is Data
    }
}

/// The known symbols of TRN, and the sender of the rest, once there are
/// `count`.
pub open spec fn known_after(known: Sending, symbols: Seq<Point>, count: int) -> (Sending, Seq<Point>)
    decreases count - symbols.len(),
{
    if symbols.len() >= count {
        (known, symbols)
    } else {
        let p = known.from_zero().point(Seq::empty(), 0, Points::Four);
        known_after(
            known.from_zero().after(Seq::empty(), 0, Points::Four),
            symbols.push((p.0 as i32, p.1 as i32)),
            count,
        )
    }
}

/// The clockwise quarter turns from the first quarter to that of a point.
pub open spec fn quarter_of(point: Point) -> u8 {
    if point.0 >= 0 {
        if point.1 >= 0 {
            0
        } else {
            1
        }
    } else if point.1 >= 0 {
        3
    } else {
        2
    }
}

fn quarter(point: Point) -> (quarter: u8)
    ensures
        quarter == quarter_of(point),
{
    match (point.0 >= 0, point.1 >= 0) {
        (true, true) => 0,
        (true, false) => 1,
        (false, false) => 2,
        (false, true) => 3,
    }
}

/// What S̄ leads to: training in phase 3, the far TRN 16 symbols on in phase
/// 4, and in data mode a renegotiation, which forgets the MPs. S alone only
/// stops the decoder in data mode.
pub proof fn law_s_bar_leads_on(hearing: Hearing, far: Far, at: usize)
    requires
        at < usize::MAX - 16,
    ensures
        ({
            let told = hearing.heard(Some(Heard::SBar(at)), far);
            let held = hearing.heard(Some(Heard::S), far);
            &&& hearing.heard(None, far) == (Told { hearing, far })
            &&& hearing.ear.listen == Listen::S ==> told.hearing.ear.listen == (Listen::Train { from: at })
                && told.far.s_bar == 1
            &&& hearing.ear.listen == Listen::Sequences && hearing.ear.phase == 4 && far.s_bar == 1
                ==> told.hearing.ear.listen == (Listen::Trn { from: (at + 16) as usize }) && told.far.s_bar == 2
            &&& hearing.ear.listen == Listen::Sequences && !(hearing.ear.phase == 4 && far.s_bar == 1) ==> told
                == (Told { hearing, far })
            &&& hearing.ear.listen is Data || hearing.ear.listen == Listen::Hold ==> {
                &&& told.hearing.ear.listen == (Listen::Trn { from: (at + 16) as usize })
                &&& !told.hearing.ear.decoding
                &&& told.hearing.mp_window.len() == 0 && told.hearing.ones == 0
                &&& far.renegotiations < u32::MAX ==> told.far.renegotiations == far.renegotiations + 1
                &&& told.far.mp is None && !told.far.ack && !told.far.trn && told.far.trained is None
            }
            &&& hearing.ear.listen is Data ==> held.hearing.ear.listen == Listen::Hold && held.far == far
            &&& !(hearing.ear.listen is Data) ==> held == (Told { hearing, far })
            &&& hearing.ear.listen is Train || hearing.ear.listen is Trn ==> told == (Told { hearing, far })
        }),
{
}

/// A symbol turned clockwise from the last by a quarter has line bits 1 and
/// 0, by a half 0 and 1, and by three quarters both, and each is descrambled
/// by the far end's polynomial.
pub proof fn law_turns_carry_two_bits(hearing: Hearing, quadrant: u8)
    requires
        quadrant < 4,
        hearing.ear.quadrant < 4,
        hearing.history.len() == 23,
    ensures
        ({
            let turned = (quadrant - hearing.ear.quadrant) % 4;
            let near: int = if hearing.ear.far_role == Role::Originate {
                18
            } else {
                5
            };
            let one = turned == 1 || turned == 3;
            let two = turned == 2 || turned == 3;
            let first = hearing.history[near - 1] != hearing.history[22];
            let second = hearing.history[near - 2] != hearing.history[21];
            &&& hearing.bit(quadrant, 0) == (one != first)
            &&& hearing.bit(quadrant, 1) == (two != second)
            &&& hearing.with_symbol(quadrant).history == seq![two, one] + hearing.history.take(21)
            &&& hearing.with_symbol(quadrant).ear.quadrant == quadrant
        }),
{
    let one = hearing.line_bit(quadrant, 0);
    let two = hearing.line_bit(quadrant, 1);
    assert(hearing.with_symbol(quadrant).history =~= seq![two, one] + hearing.history.take(21));
}

/// J, sent twice, is what the far end asks for, and moves this end on to
/// phase 4; there, from a calling end, J′ after J means TRN from the next
/// symbol. MP is kept with its acknowledgement, and E is told by 20 ones
/// after it, data following with the next symbol.
pub proof fn law_sequences_lead_on(hearing: Hearing, far: Far, index: usize, bit: bool)
    requires
        hearing.window.len() == 32,
        index < usize::MAX,
    ensures
        hearing.ear.phase == 3 && far.j is None && hearing.with_j(far, index as int).far.j is None
            ==> hearing.with_j(far, index as int).hearing == hearing,
        hearing.ear.phase == 3 && hearing.with_j(far, index as int).far.j is Some ==> hearing.with_j(
            far,
            index as int,
        ).hearing.ear.phase == 4,
        hearing.ear.phase == 3 && far.j is None && hearing.with_j(far, index as int).far.j is Some ==> hearing.window
            == hearing.window.take(16) + hearing.window.take(16),
        hearing.ear.phase == 4 && hearing.ear.far_role == Role::Originate && !far.trn && hearing.window.take(16)
            == pattern_bits(J_4@) && hearing.window.skip(16) == pattern_bits(J_PRIME@) ==> hearing.with_j(
            far,
            index as int,
        ).hearing.ear.listen == (Listen::Trn { from: (index + 1) as usize }),
        hearing.ear.phase == 4 && (hearing.ear.far_role == Role::Answer || far.trn) ==> hearing.with_j(
            far,
            index as int,
        ).hearing == hearing,
        hearing.ear.phase == 4 ==> hearing.with_j(far, index as int).far == far,
        far.mp is Some && hearing.ones == 20 ==> hearing.with_e(far, index as int).hearing.ear.listen == (Listen::Data {
            from: (index + 1) as usize,
        }) && hearing.with_e(far, index as int).far.ack,
        far.mp is None || hearing.ones != 20 ==> hearing.with_e(far, index as int) == (Told { hearing, far }),
        !bit ==> hearing.with_mp_bit(bit, far).hearing.ones == 0,
        bit && hearing.ones < usize::MAX ==> hearing.with_mp_bit(bit, far).hearing.ones == hearing.ones + 1,
        hearing.with_mp_bit(bit, far).far.mp != far.mp ==> hearing.with_mp_bit(bit, far).far.mp is Some && hearing.with_mp_bit(
            bit,
            far,
        ).far.ack == (far.ack || hearing.with_mp_bit(bit, far).far.mp->0.acknowledge),
{
    if hearing.ear.phase == 3 && far.j is None && hearing.with_j(far, index as int).far.j is Some {
        assert(hearing.window.take(16) + hearing.window.skip(16) =~= hearing.window);
    }
}

/// The far TRN of phase 4 is heard for 1536 symbols, or until its MP, and
/// then counts as measured with the rate it is good for; the sequences after
/// it are read.
pub proof fn law_the_far_trn_is_heard_out(hearing: Hearing, quadrant: u8, from: usize, index: int, trained: u8, far: Far)
    requires
        hearing.ear.listen == (Listen::Trn { from }),
    ensures
        ({
            let told = hearing.taken(quadrant, index, trained, far);
            &&& index < from ==> told.far == far && told.hearing.ear.listen == hearing.ear.listen
            &&& index >= from && index - from < 1535 && told.far.mp is None ==> told.hearing.ear.listen
                == hearing.ear.listen && told.far.trn == far.trn && told.far.trained == far.trained
            &&& index >= from && (index - from >= 1535 || told.far.mp is Some) ==> told.hearing.ear.listen
                == Listen::Sequences && told.far.trn && told.far.trained == Some(trained)
        }),
{
}

/// PP is known from 16 symbols after the S̄ that began at `from`, for 288
/// symbols, and TRN after it. Its 512th symbol leads on to the sequences.
pub proof fn law_training_is_known_from_s_bar(hearing: Hearing, from: usize, index: int)
    requires
        hearing.ear.listen == (Listen::Train { from }),
    ensures
        index < from + 16 ==> hearing.spec_target(index) == Target::Nothing && hearing.learnt(index) == hearing,
        from + 16 <= index < from + 304 ==> hearing.spec_target(index) == Target::Known(
            Sent::Turn(spec_pp(index - from - 16) as u8),
        ) && hearing.learnt(index) == hearing,
        index >= from + 304 ==> {
            let trn = index - from - 304;
            let known = known_after(hearing.known, hearing.known_symbols, trn + 1).1;
            &&& hearing.spec_target(index) == Target::Known(Sent::Four(known[trn]))
            &&& hearing.learnt(index).known_symbols == known
            &&& trn < 511 ==> hearing.learnt(index).ear.listen == hearing.ear.listen
            &&& trn >= 511 ==> hearing.learnt(index).ear.listen == Listen::Sequences
            &&& hearing.learnt(index).ear.quadrant == quarter_of(known[trn])
        },
{
}

/// Past training, a symbol is taken for the nearest point in the sequences
/// and the far TRN, and for data from where data begins.
pub proof fn law_symbols_are_decided_on(hearing: Hearing, from: usize, index: int)
    requires
        0 <= index <= usize::MAX,
    ensures
        hearing.ear.listen == Listen::Sequences ==> hearing.spec_target(index) == (Target::Nearest { trn: None }),
        hearing.ear.listen == (Listen::Trn { from }) && index < from ==> hearing.spec_target(index)
            == (Target::Nearest { trn: None }),
        hearing.ear.listen == (Listen::Trn { from }) && index >= from ==> hearing.spec_target(index)
            == (Target::Nearest { trn: Some((index - from) as usize) }),
        hearing.ear.listen == (Listen::Data { from }) && index < from ==> hearing.spec_target(index) == Target::Nothing,
        hearing.ear.listen == (Listen::Data { from }) && index >= from ==> hearing.spec_target(index) == Target::Data,
        hearing.ear.listen == Listen::S || hearing.ear.listen == Listen::Hold ==> hearing.spec_target(index)
            == Target::Nothing,
        !(hearing.ear.listen is Train) ==> hearing.learnt(index) == hearing,
{
}

/// The quarters are numbered clockwise from that of point 0.
pub proof fn law_quarters_are_numbered_clockwise(x: i32, y: i32)
    requires
        x > 0,
        y > 0,
        x < i32::MAX,
        y < i32::MAX,
    ensures
        quarter_of((x, y)) == 0,
        quarter_of((y, (-x) as i32)) == 1,
        quarter_of(((-x) as i32, (-y) as i32)) == 2,
        quarter_of(((-y) as i32, x)) == 3,
{
}

/// Of decoded bits, those of B1 are skipped, and the rest are descrambled by
/// the polynomial of the far end.
pub proof fn law_b1_is_skipped(hearing: Hearing, line: bool)
    requires
        hearing.data_history.len() == 23,
    ensures
        ({
            let near: int = if hearing.ear.far_role == Role::Originate {
                18
            } else {
                5
            };
            let next = hearing.with_data_line(line);
            &&& hearing.ear.skip_bits > 0 ==> hearing.data_of(line) is None && next.ear.skip_bits
                == hearing.ear.skip_bits - 1
            &&& hearing.ear.skip_bits == 0 ==> hearing.data_of(line) == Some(
                line != (hearing.data_history[near - 1] != hearing.data_history[22]),
            ) && next.ear.skip_bits == 0
            &&& next.data_history == seq![line] + hearing.data_history.take(22)
            &&& next.ear.listen == hearing.ear.listen && next.ear.decoding == hearing.ear.decoding
        }),
{
    assert(hearing.data_history.drop_last() =~= hearing.data_history.take(22));
}

} // verus!

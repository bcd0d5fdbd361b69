//! What the digital modem hears of the V.34 signal from the analogue modem,
//! from phase 3 on (§ 9.3.1, § 9.4.1).

use crate::pump::{Role, CLOCK_LIMIT};
use crate::scrambler::{Descrambler, Polynomial, Scrambling};
use crate::v34::constellation::{wide, Point};
use crate::v34::detect::Heard;
use crate::v34::framing::{in_table_8, Framing};
use crate::v34::mp::E_ONES;
use crate::v34::sink::{known_after, quarter_of, Target, Tracking};
use crate::v34::source::{Sent, S_BAR_SYMBOLS, TRN_LEAST};
use crate::v34::training::{pp, spec_pp, Points, Sender, Sending, PP_SYMBOLS};
use crate::v34::SymbolRate;
use crate::v90::cp::Cp;
use crate::v90::dil::Descriptor;
use crate::v90::frames::{deframing_after, gives, Deframer, Deframing};
use crate::v90::jd::Jd;
use vstd::prelude::*;

verus! {

#[derive(Debug, Clone, Copy, PartialEq, Eq, Structural)]
pub enum Listen {
    /// For S and the S̄ after it.
    S,
    /// On PP and TRN, known from the S̄ that began at `from`.
    Train { from: usize },
    /// Decisions on 4 or 16 points: Ja, CPt, CP and E.
    Sequences,
    /// B1 and data, from `from`.
    Data { from: usize },
    /// S in data mode, until the S̄ that starts a rate renegotiation.
    Hold,
}

/// Where the receiver is, and what it has heard that the transmitter acts on.
#[derive(Debug, Clone, Copy, PartialEq, Eq, Structural)]
pub struct Ears {
    pub symbol_rate: SymbolRate,
    pub listen: Listen,
    pub quadrant: u8,
    /// Ja is on 4 points, CPt, CP and E on those its Jd asks for (§ 8.5.2).
    pub points: Points,
    pub phase4_points: Points,
    pub renegotiation_points: Points,
    /// The ones in a row, as far as they count.
    pub ones: usize,
    pub decoding: bool,
    pub skip_bits: usize,
    /// S heard after Ja, which ends Jd.
    pub s: bool,
    /// The S̄ heard after Ja, as far as they count: the first ends Jd′, the
    /// second DIL.
    pub s_bars: u32,
    /// CP′ or E, which ends MP.
    pub cp_ack: bool,
    /// The highest upstream rate the phase 3 training allows, in multiples of 2400 bit/s.
    pub trained: Option<u8>,
    /// Rate renegotiations the analogue modem has started, by the S̄ of each.
    pub renegotiations: u32,
}

pub open spec fn points_of(sixteen: bool) -> Points {
    if sixteen {
        Points::Sixteen
    } else {
        Points::Four
    }
}

fn points(sixteen: bool) -> (points: Points)
    ensures
        points == points_of(sixteen),
{
    if sixteen {
        Points::Sixteen
    } else {
        Points::Four
    }
}

impl Ears {
    pub open spec fn fresh(symbol_rate: SymbolRate, jd: Jd) -> Self {
        Self {
            symbol_rate,
            listen: Listen::S,
            quadrant: 0,
            points: Points::Four,
            phase4_points: points_of(jd.sixteen_points),
            renegotiation_points: points_of(jd.sixteen_points_renegotiating),
            ones: 0,
            decoding: false,
            skip_bits: 0,
            s: false,
            s_bars: 0,
            cp_ack: false,
            trained: None,
            renegotiations: 0,
        }
    }

    pub open spec fn valid(self) -> bool {
        &&& self.quadrant < 4
        &&& self.ones <= E_ONES + 1
        &&& self.s_bars <= 2
        &&& match self.listen {
            Listen::Train { from } => from <= CLOCK_LIMIT,
            _ => true,
        }
    }

    /// After a line bit of B1 or of data.
    pub open spec fn past_a_bit(self) -> Self {
        Self {
            skip_bits: if self.skip_bits > 0 {
                (self.skip_bits - 1) as usize
            } else {
                0
            },
            ..self
        }
    }

    /// Without the CP of data mode.
    pub open spec fn without_cp(self) -> Self {
        Self {
            cp_ack: false,
            ones: 0,
            decoding: false,
            points: self.renegotiation_points,
            ..self
        }
    }

    /// What S or S̄ leads to, with whether Ja has come.
    pub open spec fn heard(self, heard: Option<Heard>, ja: bool) -> Self {
        match (heard, self.listen) {
            (Some(Heard::SBar(at)), Listen::S) => Self {
                listen: Listen::Train { from: at },
                ..self
            },
            (Some(Heard::S), Listen::Sequences) => Self { s: self.s || ja, ..self },
            (Some(Heard::SBar(_)), Listen::Sequences) => if ja && self.s_bars < 2 {
                Self { s_bars: (self.s_bars + 1) as u32, ..self }
            } else {
                self
            },
            (Some(Heard::S), Listen::Data { .. }) => Self { listen: Listen::Hold, ..self },
            (Some(Heard::SBar(_)), Listen::Data { .. } | Listen::Hold) => Self {
                listen: Listen::Sequences,
                renegotiations: if self.renegotiations < u32::MAX {
                    (self.renegotiations + 1) as u32
                } else {
                    0
                },
                ..self.without_cp()
            },
            _ => self,
        }
    }

    /// S̄ in data mode starts a rate renegotiation.
    pub open spec fn renegotiates(self, heard: Option<Heard>) -> bool {
        heard is Some && heard->0 is SBar && (self.listen is Data || self.listen is Hold)
    }

    pub open spec fn ones_after(self, bit: bool) -> int {
        if !bit {
            0
        } else if self.ones <= E_ONES {
            self.ones + 1
        } else {
            self.ones as int
        }
    }

    /// How far a symbol turned from the last, clockwise.
    pub open spec fn turns(self, quadrant: u8) -> int {
        (quadrant + 4 - self.quadrant) % 4
    }

    /// The bits on the line of a symbol of Ja, CP or E.
    pub open spec fn line_bits(self, quadrant: u8, label: u8) -> Seq<bool> {
        let turns = self.turns(quadrant);
        match self.points {
            Points::Four => seq![turns % 2 == 1, turns >= 2],
            Points::Sixteen => seq![turns % 2 == 1, turns >= 2, label % 2 == 1, label >= 2],
        }
    }
}

/// Hears the analogue modem from its phase 3 on.
#[derive(Debug)]
pub struct Upstream {
    ears: Ears,
    known: Sender,
    known_symbols: Vec<Point>,
    descrambler: Descrambler,
    ja_deframer: Deframer<Descriptor>,
    cp_deframer: Deframer<Cp>,
    data_descrambler: Descrambler,
    ja: Option<Descriptor>,
    cpt: Option<Cp>,
    cp: Option<Cp>,
}

impl Upstream {
    pub closed spec fn spec_ears(self) -> Ears {
        self.ears
    }

    pub closed spec fn known(self) -> Sending {
        self.known@
    }

    pub closed spec fn known_symbols(self) -> Seq<Point> {
        self.known_symbols@
    }

    /// The line bits of the sequences, newest first.
    pub closed spec fn history(self) -> Seq<bool> {
        self.descrambler.history()
    }

    /// The line bits of data, newest first.
    pub closed spec fn data_history(self) -> Seq<bool> {
        self.data_descrambler.history()
    }

    pub closed spec fn ja_held(self) -> Deframing {
        self.ja_deframer.held()
    }

    pub closed spec fn cp_held(self) -> Deframing {
        self.cp_deframer.held()
    }

    /// The DIL descriptor from Ja.
    pub closed spec fn spec_ja(self) -> Option<Descriptor> {
        self.ja
    }

    pub closed spec fn spec_cpt(self) -> Option<Cp> {
        self.cpt
    }

    pub closed spec fn spec_cp(self) -> Option<Cp> {
        self.cp
    }

    pub closed spec fn valid(self) -> bool {
        &&& self.ears.valid()
        &&& self.known.valid()
        &&& self.descrambler.valid()
        &&& self.descrambler.polynomial() == Polynomial::V34Answer
        &&& self.data_descrambler.valid()
        &&& self.data_descrambler.polynomial() == Polynomial::V34Answer
        &&& self.ja_deframer.valid()
        &&& self.cp_deframer.valid()
        &&& self.ja matches Some(ja) ==> ja.can_be_sent()
    }

    /// The data that a line bit carries, once B1 is over.
    pub open spec fn spec_data_bit(self, line: bool) -> Option<bool> {
        if self.spec_ears().skip_bits > 0 {
            None
        } else {
            Some(line != Polynomial::V34Answer.taps(self.data_history()))
        }
    }

    /// The DIL that Ja asks for can be sent.
    pub proof fn lemma_ja_can_be_sent(self)
        requires
            self.valid(),
        ensures
            self.spec_ja() matches Some(ja) ==> ja.can_be_sent(),
    {
    }

    /// The receivers of data and of what is known are as they were.
    pub open spec fn same_line(self, other: Self) -> bool {
        &&& self.known() == other.known()
        &&& self.known_symbols() == other.known_symbols()
        &&& self.data_history() == other.data_history()
    }

    /// What has been read is as it was.
    pub open spec fn same_sequences(self, other: Self) -> bool {
        &&& self.history() == other.history()
        &&& self.ja_held() == other.ja_held()
        &&& self.cp_held() == other.cp_held()
        &&& self.spec_ja() == other.spec_ja()
        &&& self.spec_cpt() == other.spec_cpt()
        &&& self.spec_cp() == other.spec_cp()
    }

    #[must_use]
    pub fn new(symbol_rate: SymbolRate, jd: &Jd) -> (upstream: Self)
        ensures
            upstream.valid(),
            upstream.spec_ears() == Ears::fresh(symbol_rate, *jd),
            upstream.known() == (Sending {
                scrambling: Scrambling::fresh(Polynomial::V34Answer),
                quadrant: 0,
            }),
            upstream.known_symbols() == Seq::<Point>::empty(),
            upstream.history() == Seq::new(23, |i: int| false),
            upstream.data_history() == Seq::new(23, |i: int| false),
            upstream.ja_held() == (Deframing { ones: 0, block: seq![], words: None }),
            upstream.cp_held() == (Deframing { ones: 0, block: seq![], words: None }),
            upstream.spec_ja() is None,
            upstream.spec_cpt() is None,
            upstream.spec_cp() is None,
    {
        let upstream = Self {
            ears: Ears {
                symbol_rate,
                listen: Listen::S,
                quadrant: 0,
                points: Points::Four,
                phase4_points: points(jd.sixteen_points),
                renegotiation_points: points(jd.sixteen_points_renegotiating),
                ones: 0,
                decoding: false,
                skip_bits: 0,
                s: false,
                s_bars: 0,
                cp_ack: false,
                trained: None,
                renegotiations: 0,
            },
            known: Sender::new(Role::Answer),
            known_symbols: Vec::new(),
            descrambler: Descrambler::with(Polynomial::V34_ANSWER),
            ja_deframer: Deframer::default(),
            cp_deframer: Deframer::default(),
            data_descrambler: Descrambler::with(Polynomial::V34_ANSWER),
            ja: None,
            cpt: None,
            cp: None,
        };
        assert(upstream.known_symbols() =~= Seq::<Point>::empty());
        upstream
    }

    #[must_use]
    pub fn ears(&self) -> (ears: Ears)
        ensures
            ears == self.spec_ears(),
    {
        self.ears
    }

    #[must_use]
    pub fn ja(&self) -> (ja: &Option<Descriptor>)
        ensures
            *ja == self.spec_ja(),
    {
        &self.ja
    }

    #[must_use]
    pub fn cpt(&self) -> (cpt: &Option<Cp>)
        ensures
            *cpt == self.spec_cpt(),
    {
        &self.cpt
    }

    #[must_use]
    pub fn cp(&self) -> (cp: &Option<Cp>)
        ensures
            *cp == self.spec_cp(),
    {
        &self.cp
    }

    /// Whether B1 has passed and data is coming.
    #[must_use]
    pub fn in_data(&self) -> (flows: bool)
        ensures
            flows == (self.spec_ears().decoding && self.spec_ears().skip_bits == 0
                && self.spec_ears().listen is Data),
    {
        self.ears.decoding && self.ears.skip_bits == 0 && matches!(
            self.ears.listen,
            Listen::Data { .. }
        )
    }

    #[must_use]
    pub fn symbol_rate(&self) -> (rate: SymbolRate)
        ensures
            rate == self.spec_ears().symbol_rate,
    {
        self.ears.symbol_rate
    }

    /// Whether data mode waits for its rate, from phase 4 or a renegotiation.
    #[must_use]
    pub fn awaits_rate(&self) -> (awaits: bool)
        ensures
            awaits == !self.spec_ears().decoding,
    {
        !self.ears.decoding
    }

    /// Takes what the detector found with the next symbol, and gives how the
    /// front end is to track from now on, where that changes.
    pub fn hear(&mut self, heard: Option<Heard>) -> (tracking: Option<Tracking>)
        requires
            old(self).valid(),
            match heard {
                Some(Heard::SBar(at)) => at <= CLOCK_LIMIT,
                _ => true,
            },
        ensures
            final(self).valid(),
            final(self).spec_ears() == old(self).spec_ears().heard(
                heard,
                old(self).spec_ja() is Some,
            ),
            final(self).same_line(*old(self)),
            !old(self).spec_ears().renegotiates(heard) ==> final(self).same_sequences(*old(self)),
            old(self).spec_ears().renegotiates(heard) ==> {
                &&& final(self).spec_cp() is None
                &&& final(self).cp_held() == (Deframing { ones: 0, block: seq![], words: None })
                &&& final(self).history() == old(self).history()
                &&& final(self).ja_held() == old(self).ja_held()
                &&& final(self).spec_ja() == old(self).spec_ja()
                &&& final(self).spec_cpt() == old(self).spec_cpt()
            },
            tracking == (if heard is Some && heard->0 is SBar && old(self).spec_ears().listen is S {
                Some(Tracking::Train)
            } else {
                None
            }),
    {
        match heard {
            Some(Heard::SBar(at)) => match self.ears.listen {
                Listen::S => {
                    self.ears.listen = Listen::Train { from: at };
                    return Some(Tracking::Train);
                },
                Listen::Sequences => {
                    if self.ja.is_some() && self.ears.s_bars < 2 {
                        self.ears.s_bars += 1;
                    }
                },
                Listen::Data { .. } | Listen::Hold => {
                    self.expect_renegotiation();
                    self.ears.listen = Listen::Sequences;
                    self.ears.renegotiations = if self.ears.renegotiations < u32::MAX {
                        self.ears.renegotiations + 1
                    } else {
                        0
                    };
                },
                _ => {},
            },
            Some(Heard::S) => match self.ears.listen {
                Listen::Sequences => {
                    self.ears.s = self.ears.s || self.ja.is_some();
                },
                Listen::Data { .. } => {
                    self.ears.listen = Listen::Hold;
                },
                _ => {},
            },
            None => {},
        }
        None
    }

    /// `after` is this receiver without the CP of data mode.
    pub open spec fn forgot_cp(self, after: Self) -> bool {
        &&& after.spec_ears() == self.spec_ears().without_cp()
        &&& after.spec_cp() is None
        &&& after.cp_held() == Deframing { ones: 0, block: seq![], words: None }
        &&& after.same_line(self)
        &&& after.history() == self.history()
        &&& after.ja_held() == self.ja_held()
        &&& after.spec_ja() == self.spec_ja()
        &&& after.spec_cpt() == self.spec_cpt()
    }

    /// Forgets the CP of data mode, for the new one that § 9.6 has the
    /// analogue modem send after S and S̄.
    pub fn expect_renegotiation(&mut self)
        requires
            old(self).valid(),
        ensures
            final(self).valid(),
            old(self).forgot_cp(*final(self)),
    {
        self.cp = None;
        self.ears.cp_ack = false;
        self.cp_deframer = Deframer::default();
        self.ears.ones = 0;
        self.ears.decoding = false;
        self.ears.points = self.ears.renegotiation_points;
    }

    /// What the equaliser is to learn from the symbol at `index`.
    pub open spec fn spec_target(self, index: int) -> Target {
        match self.spec_ears().listen {
            Listen::Train { from } => {
                let offset = index - (from + S_BAR_SYMBOLS);
                if offset < 0 {
                    Target::Nothing
                } else if offset < PP_SYMBOLS {
                    Target::Known(Sent::Turn(spec_pp(offset) as u8))
                } else {
                    let known = known_after(
                        self.known(),
                        self.known_symbols(),
                        offset - PP_SYMBOLS + 1,
                    );
                    Target::Known(Sent::Four(known.1[offset - PP_SYMBOLS]))
                }
            },
            Listen::Sequences => Target::Nearest { trn: None },
            Listen::Data { from } => if index >= from {
                Target::Data
            } else {
                Target::Nothing
            },
            _ => Target::Nothing,
        }
    }

    /// What the equaliser is to learn from the symbol at `index`. Once enough
    /// of TRN has come, the sequences after it are read.
    pub fn target(&mut self, index: usize) -> (target: Target)
        requires
            old(self).valid(),
            index <= CLOCK_LIMIT,
        ensures
            final(self).valid(),
            target == old(self).spec_target(index as int),
            final(self).same_sequences(*old(self)),
            final(self).data_history() == old(self).data_history(),
            match old(self).spec_ears().listen {
                Listen::Train { from } => {
                    let trn = index - (from + S_BAR_SYMBOLS) - PP_SYMBOLS;
                    if trn >= 0 {
                        let known = known_after(
                            old(self).known(),
                            old(self).known_symbols(),
                            trn + 1,
                        );
                        &&& final(self).known() == known.0
                        &&& final(self).known_symbols() == known.1
                        &&& final(self).spec_ears() == (Ears {
                            quadrant: quarter_of(known.1[trn]),
                            listen: if trn + 1 >= TRN_LEAST {
                                Listen::Sequences
                            } else {
                                old(self).spec_ears().listen
                            },
                            ..old(self).spec_ears()
                        })
                    } else {
                        final(self).spec_ears() == old(self).spec_ears() && final(self).same_line(
                            *old(self),
                        )
                    }
                },
                _ => final(self).spec_ears() == old(self).spec_ears() && final(self).same_line(
                    *old(self),
                ),
            },
    {
        match self.ears.listen {
            Listen::Train { from } => {
                if index < from + S_BAR_SYMBOLS {
                    return Target::Nothing;
                }
                let offset = index - (from + S_BAR_SYMBOLS);
                if offset < PP_SYMBOLS {
                    return Target::Known(Sent::Turn(pp(offset)));
                }
                let trn = offset - PP_SYMBOLS;
                self.learn(trn);
                let known = self.known_symbols[trn];
                self.ears.quadrant = match (known.0 >= 0, known.1 >= 0) {
                    (true, true) => 0,
                    (true, false) => 1,
                    (false, false) => 2,
                    (false, true) => 3,
                };
                if trn + 1 >= TRN_LEAST {
                    self.ears.listen = Listen::Sequences;
                }
                Target::Known(Sent::Four(known))
            },
            Listen::Sequences => Target::Nearest { trn: None },
            Listen::Data { from } => if index >= from {
                Target::Data
            } else {
                Target::Nothing
            },
            _ => Target::Nothing,
        }
    }

    fn learn(&mut self, trn: usize)
        requires
            old(self).valid(),
            trn <= CLOCK_LIMIT,
        ensures
            final(self).valid(),
            final(self).known_symbols.len() > trn,
            final(self).same_sequences(*old(self)),
            final(self).ears == old(self).ears,
            final(self).data_history() == old(self).data_history(),
            ({
                let known = known_after(old(self).known(), old(self).known_symbols(), trn + 1);
                final(self).known() == known.0 && final(self).known_symbols() == known.1
            }),
    {
        let ghost before = *self;
        while self.known_symbols.len() <= trn
            invariant
                self.valid(),
                trn <= CLOCK_LIMIT,
                self.same_sequences(before),
                self.ears == before.ears,
                self.data_history() == before.data_history(),
                known_after(before.known(), before.known_symbols(), trn + 1) == known_after(
                    self.known(),
                    self.known_symbols(),
                    trn + 1,
                ),
            decreases trn + 1 - self.known_symbols.len(),
        {
            let ghost held = self.known@;
            let ghost symbols = self.known_symbols@;
            let next = self.known.trn(Points::Four);
            self.known_symbols.push(next);
            proof {
                let p = held.from_zero().point(Seq::empty(), 0, Points::Four);
                assert(wide(next) == p);
                assert(next == (p.0 as i32, p.1 as i32));
                reveal_with_fuel(known_after, 2);
                assert(self.known_symbols@ =~= symbols.push((p.0 as i32, p.1 as i32)));
            }
        }
    }

    /// The bits of a symbol of Ja, CP or E whose nearest point is in
    /// `quadrant`, and of 16 points the one with `label` there, descrambled.
    pub fn symbol_bits(&mut self, quadrant: u8, label: u8) -> (bits: Vec<bool>)
        requires
            old(self).valid(),
            quadrant < 4,
            label < 4,
        ensures
            final(self).valid(),
            final(self).spec_ears() == (Ears { quadrant, ..old(self).spec_ears() }),
            final(self).same_line(*old(self)),
            ({
                let line = old(self).spec_ears().line_bits(quadrant, label);
                &&& bits@ == Seq::new(
                    line.len(),
                    |n: int|
                        crate::scrambler::descrambled_at(
                            Polynomial::V34Answer,
                            old(self).history(),
                            line,
                            n,
                        ),
                )
                &&& final(self).history() == crate::scrambler::history_after(
                    Polynomial::V34Answer,
                    old(self).history(),
                    line,
                )
            }),
            final(self).ja_held() == old(self).ja_held(),
            final(self).cp_held() == old(self).cp_held(),
            final(self).spec_ja() == old(self).spec_ja(),
            final(self).spec_cpt() == old(self).spec_cpt(),
            final(self).spec_cp() == old(self).spec_cp(),
    {
        let ghost before = *self;
        let ghost line = self.ears.line_bits(quadrant, label);
        let turns = (quadrant + 4 - self.ears.quadrant) % 4;
        self.ears.quadrant = quadrant;
        let bits_on_line: Vec<bool> = match self.ears.points {
            Points::Four => vec![turns % 2 == 1, turns >= 2],
            Points::Sixteen => vec![turns % 2 == 1, turns >= 2, label % 2 == 1, label >= 2],
        };
        assert(bits_on_line@ =~= line);
        let mut bits: Vec<bool> = Vec::new();
        let mut n: usize = 0;
        assert(line.take(0) =~= Seq::<bool>::empty());
        while n < bits_on_line.len()
            invariant
                n <= bits_on_line.len(),
                bits_on_line@ == line,
                bits.len() == n,
                self.valid(),
                self.ears == (Ears { quadrant, ..before.ears }),
                self.history() == crate::scrambler::history_after(
                    Polynomial::V34Answer,
                    before.history(),
                    line.take(n as int),
                ),
                forall|i: int|
                    0 <= i < n ==> #[trigger] bits[i] == crate::scrambler::descrambled_at(
                        Polynomial::V34Answer,
                        before.history(),
                        line,
                        i,
                    ),
                self.same_line(before),
                self.ja_held() == before.ja_held(),
                self.cp_held() == before.cp_held(),
                self.spec_ja() == before.spec_ja(),
                self.spec_cpt() == before.spec_cpt(),
                self.spec_cp() == before.spec_cp(),
            decreases bits_on_line.len() - n,
        {
            assert(line.take(n + 1).drop_last() =~= line.take(n as int));
            bits.push(self.descrambler.descramble(bits_on_line[n]));
            n += 1;
        }
        assert(line.take(n as int) =~= line);
        bits
    }

    /// Takes a bit of Ja, or of CPt, CP and E once it has come, of the symbol
    /// at `index`, where TRN was heard well enough for `trained`.
    pub fn bit(&mut self, bit: bool, index: usize, trained: u8)
        requires
            old(self).valid(),
            index <= CLOCK_LIMIT,
        ensures
            final(self).valid(),
            final(self).same_line(*old(self)),
            final(self).history() == old(self).history(),
            old(self).spec_ja() is None ==> {
                &&& final(self).ja_held() == deframing_after::<Descriptor>(
                    old(self).ja_held(),
                    bit,
                )
                &&& gives::<Descriptor>(old(self).ja_held(), bit, final(self).spec_ja())
                &&& final(self).cp_held() == old(self).cp_held()
                &&& final(self).spec_cpt() == old(self).spec_cpt()
                &&& final(self).spec_cp() == old(self).spec_cp()
                &&& final(self).spec_ears() == (Ears {
                    ones: old(self).spec_ears().ones_after(bit) as usize,
                    trained: if final(self).spec_ja() is Some {
                        Some(trained)
                    } else {
                        old(self).spec_ears().trained
                    },
                    points: if final(self).spec_ja() is Some {
                        old(self).spec_ears().phase4_points
                    } else {
                        old(self).spec_ears().points
                    },
                    ..old(self).spec_ears()
                })
            },
            old(self).spec_ja() is Some ==> {
                &&& final(self).spec_ja() == old(self).spec_ja()
                &&& final(self).ja_held() == old(self).ja_held()
                &&& final(self).cp_held() == deframing_after::<Cp>(old(self).cp_held(), bit)
                &&& exists|found: Option<Cp>| #[trigger]
                    gives::<Cp>(old(self).cp_held(), bit, found) && old(self).after_cp_bit(
                        bit,
                        found,
                        index as int,
                        *final(self),
                    )
            },
    {
        self.ears.ones = if !bit {
            0
        } else if self.ears.ones <= E_ONES {
            self.ears.ones + 1
        } else {
            self.ears.ones
        };
        if self.ja.is_none() {
            self.ja_bit(bit, trained);
        } else {
            self.cp_bit(bit, index, Ghost(*old(self)));
        }
    }

    fn ja_bit(&mut self, bit: bool, trained: u8)
        requires
            old(self).valid(),
            old(self).ja is None,
        ensures
            final(self).valid(),
            final(self).same_line(*old(self)),
            final(self).history() == old(self).history(),
            final(self).ja_held() == deframing_after::<Descriptor>(old(self).ja_held(), bit),
            gives::<Descriptor>(old(self).ja_held(), bit, final(self).spec_ja()),
            final(self).cp_held() == old(self).cp_held(),
            final(self).cpt == old(self).cpt,
            final(self).cp == old(self).cp,
            final(self).ears == (Ears {
                trained: if final(self).ja is Some {
                    Some(trained)
                } else {
                    old(self).ears.trained
                },
                points: if final(self).ja is Some {
                    old(self).ears.phase4_points
                } else {
                    old(self).ears.points
                },
                ..old(self).ears
            }),
    {
        self.ja = self.ja_deframer.push(bit);
        proof {
            reveal(crate::v90::dil::descriptor_says);
        }
        if self.ja.is_some() {
            self.ears.trained = Some(trained);
            self.ears.points = self.ears.phase4_points;
        }
    }

    /// The rest of `bit`, once the ones have been counted.
    fn cp_bit(&mut self, bit: bool, index: usize, Ghost(before): Ghost<Self>)
        requires
            old(self).valid(),
            index <= CLOCK_LIMIT,
            old(self).ears == (Ears {
                ones: before.ears.ones_after(bit) as usize,
                ..before.ears
            }),
            old(self).cp == before.cp,
            old(self).cpt == before.cpt,
        ensures
            final(self).valid(),
            final(self).same_line(*old(self)),
            final(self).history() == old(self).history(),
            final(self).ja == old(self).ja,
            final(self).ja_held() == old(self).ja_held(),
            final(self).cp_held() == deframing_after::<Cp>(old(self).cp_held(), bit),
            exists|found: Option<Cp>| #[trigger]
                gives::<Cp>(old(self).cp_held(), bit, found) && before.after_cp_bit(
                    bit,
                    found,
                    index as int,
                    *final(self),
                ),
    {
        let found = self.cp_deframer.push(bit);
        let ghost told = found;
        if let Some(cp) = found {
            self.ears.cp_ack = self.ears.cp_ack || (cp.acknowledge && !cp.training && !cp.silence);
            if cp.training {
                self.cpt = Some(cp);
            } else {
                self.cp = Some(cp);
            }
        }
        // § 9.6.2.1.6: after CPs′ comes SCR, whose ones are not E.
        let after_cp = match &self.cp {
            Some(cp) => !cp.silence,
            None => false,
        };
        if after_cp && self.ears.ones == E_ONES {
            self.ears.cp_ack = true;
            self.ears.listen = Listen::Data { from: index + 1 };
        }
        assert(gives::<Cp>(old(self).cp_held(), bit, told));
        assert(before.after_cp_bit(bit, told, index as int, *self));
    }

    /// What a bit of CP leads to, with the sequence it ends, if any.
    pub open spec fn after_cp_bit(
        self,
        bit: bool,
        found: Option<Cp>,
        index: int,
        after: Self,
    ) -> bool {
        let acked = self.spec_ears().cp_ack || match found {
            Some(cp) => cp.acknowledge && !cp.training && !cp.silence,
            None => false,
        };
        let cp = match found {
            Some(cp) => if cp.training {
                self.spec_cp()
            } else {
                Some(cp)
            },
            None => self.spec_cp(),
        };
        let ended = match cp {
            Some(cp) => !cp.silence && self.spec_ears().ones_after(bit) == E_ONES,
            None => false,
        };
        &&& after.spec_cp() == cp
        &&& after.spec_cpt() == match found {
            Some(cp) => if cp.training {
                Some(cp)
            } else {
                self.spec_cpt()
            },
            None => self.spec_cpt(),
        }
        &&& after.spec_ears() == (Ears {
            ones: self.spec_ears().ones_after(bit) as usize,
            cp_ack: acked || ended,
            listen: if ended {
                Listen::Data { from: (index + 1) as usize }
            } else {
                self.spec_ears().listen
            },
            ..self.spec_ears()
        })
    }

    /// Starts decoding data mode at `bit_rate`, from after B1. Gives its
    /// framing, if table 8 has the rate.
    pub fn start_data(&mut self, bit_rate: u32) -> (framing: Option<Framing>)
        requires
            old(self).valid(),
        ensures
            final(self).valid(),
            final(self).same_sequences(*old(self)),
            final(self).known() == old(self).known(),
            final(self).known_symbols() == old(self).known_symbols(),
            match framing {
                Some(framing) => {
                    &&& framing.frames(old(self).spec_ears().symbol_rate, bit_rate, false)
                    &&& final(self).spec_ears() == (Ears {
                        decoding: true,
                        skip_bits: (framing.p * framing.b - (framing.p - framing.r)) as usize,
                        ..old(self).spec_ears()
                    })
                    &&& final(self).data_history() == Seq::new(23, |i: int| false)
                },
                None => {
                    &&& !in_table_8(old(self).spec_ears().symbol_rate, bit_rate)
                    &&& final(self).spec_ears() == old(self).spec_ears()
                    &&& final(self).data_history() == old(self).data_history()
                },
            },
    {
        match Framing::new(self.ears.symbol_rate, bit_rate, false) {
            Some(framing) => {
                proof {
                    crate::v34::framing::law_framings_fit(framing);
                    let p = framing.p as int;
                    let b = framing.b as int;
                    assert(0 <= p * b <= 0x10000) by (nonlinear_arith)
                        requires
                            0 <= p <= 16,
                            0 <= b <= 0x1000,
                    ;
                    assert(p * b >= p) by (nonlinear_arith)
                        requires
                            p >= 0,
                            b >= 1,
                    ;
                }
                self.ears.skip_bits = framing.p * framing.b - (framing.p - framing.r);
                self.ears.decoding = true;
                self.data_descrambler = Descrambler::with(Polynomial::V34_ANSWER);
                Some(framing)
            },
            None => None,
        }
    }

    /// Takes a decoded bit, and gives its data bit once B1 is over.
    pub fn data_bit(&mut self, line: bool) -> (data: Option<bool>)
        requires
            old(self).valid(),
        ensures
            final(self).valid(),
            final(self).same_sequences(*old(self)),
            final(self).known() == old(self).known(),
            final(self).known_symbols() == old(self).known_symbols(),
            data == old(self).spec_data_bit(line),
            final(self).spec_ears() == old(self).spec_ears().past_a_bit(),
            final(self).data_history() == Polynomial::V34Answer.shift(
                old(self).data_history(),
                line,
            ),
    {
        let bit = self.data_descrambler.descramble(line);
        if self.ears.skip_bits > 0 {
            self.ears.skip_bits -= 1;
            None
        } else {
            Some(bit)
        }
    }
}

/// Data begins by E after a CP that asks for no silence, and E is told of as
/// an acknowledgement.
pub proof fn law_data_follows_cp_and_e(
    before: Upstream,
    bit: bool,
    found: Option<Cp>,
    index: int,
    after: Upstream,
)
    requires
        before.after_cp_bit(bit, found, index, after),
        !(before.spec_ears().listen is Data),
        after.spec_ears().listen is Data,
    ensures
        after.spec_cp() is Some,
        !after.spec_cp()->0.silence,
        after.spec_ears().cp_ack,
{
}

/// What S and S̄ lead to. The first S̄ starts training. After Ja, S and up to
/// two S̄ are told of. In data mode S stops the decoder, and S̄ starts a
/// renegotiation, which forgets CP and goes by the points for it.
pub proof fn law_s_and_s_bar_lead_on(ears: Ears, at: usize, ja: bool)
    ensures
        ({
            let bar = ears.heard(Some(Heard::SBar(at)), ja);
            let s = ears.heard(Some(Heard::S), ja);
            let in_data = ears.listen is Data || ears.listen == Listen::Hold;
            &&& ears.heard(None, ja) == ears
            &&& ears.listen == Listen::S ==> bar == (Ears { listen: Listen::Train { from: at }, ..ears }) && s == ears
            &&& ears.listen is Train ==> bar == ears && s == ears
            &&& ears.listen == Listen::Sequences && ja ==> s == (Ears { s: true, ..ears })
            &&& ears.listen == Listen::Sequences && !ja ==> s == ears && bar == ears
            &&& ears.listen == Listen::Sequences && ja && ears.s_bars < 2 ==> bar == (Ears {
                s_bars: (ears.s_bars + 1) as u32,
                ..ears
            })
            &&& ears.listen == Listen::Sequences && ears.s_bars >= 2 ==> bar == ears
            &&& ears.listen is Data ==> s == (Ears { listen: Listen::Hold, ..ears })
            &&& ears.listen == Listen::Hold ==> s == ears
            &&& in_data ==> {
                &&& bar.listen == Listen::Sequences
                &&& ears.renegotiations < u32::MAX ==> bar.renegotiations == ears.renegotiations + 1
                &&& !bar.cp_ack && bar.ones == 0 && !bar.decoding
                &&& bar.points == ears.renegotiation_points
                &&& bar.trained == ears.trained && bar.symbol_rate == ears.symbol_rate
            }
            &&& ears.renegotiates(Some(Heard::SBar(at))) <==> in_data
            &&& !ears.renegotiates(Some(Heard::S)) && !ears.renegotiates(None)
        }),
{
}

/// Ja comes on 4 points, CPt and CP on those that Jd asks for. A symbol's
/// turn from the last, clockwise, writes its first two bits, low bit first,
/// and of 16 points the label writes two more.
pub proof fn law_turns_and_labels_carry_bits(ears: Ears, symbol_rate: SymbolRate, jd: Jd, quadrant: u8, label: u8)
    requires
        quadrant < 4,
        label < 4,
        ears.quadrant < 4,
    ensures
        ({
            let fresh = Ears::fresh(symbol_rate, jd);
            let bits = ears.line_bits(quadrant, label);
            let number = (if bits[0] {
                1int
            } else {
                0
            }) + (if bits[1] {
                2int
            } else {
                0
            });
            &&& fresh.points == Points::Four && fresh.listen == Listen::S && fresh.s_bars == 0 && !fresh.cp_ack
            &&& fresh.phase4_points == Points::Sixteen <==> jd.sixteen_points
            &&& fresh.renegotiation_points == Points::Sixteen <==> jd.sixteen_points_renegotiating
            &&& (ears.quadrant + number) % 4 == quadrant
            &&& ears.points == Points::Four ==> bits.len() == 2
            &&& ears.points == Points::Sixteen ==> {
                &&& bits.len() == 4
                &&& label == (if bits[2] {
                    1int
                } else {
                    0
                }) + (if bits[3] {
                    2int
                } else {
                    0
                })
            }
        }),
{
}

/// PP is known from 16 symbols after the S̄ that began at `from`, for 288
/// symbols, and TRN after it. The sequences are decided on by the nearest
/// point, and data is data from where it begins.
pub proof fn law_training_is_known_from_s_bar(upstream: Upstream, from: usize, index: int)
    ensures
        ({
            let listen = upstream.spec_ears().listen;
            let target = upstream.spec_target(index);
            &&& listen == (Listen::Train { from }) && index < from + 16 ==> target == Target::Nothing
            &&& listen == (Listen::Train { from }) && from + 16 <= index < from + 304 ==> target == Target::Known(
                Sent::Turn(spec_pp(index - from - 16) as u8),
            )
            &&& listen == (Listen::Train { from }) && index >= from + 304 ==> target == Target::Known(
                Sent::Four(
                    known_after(upstream.known(), upstream.known_symbols(), index - from - 303).1[index - from - 304],
                ),
            )
            &&& listen == Listen::Sequences ==> target == (Target::Nearest { trn: None })
            &&& listen == (Listen::Data { from }) && index < from ==> target == Target::Nothing
            &&& listen == (Listen::Data { from }) && index >= from ==> target == Target::Data
            &&& listen == Listen::S || listen == Listen::Hold ==> target == Target::Nothing
        }),
{
}

/// A sequence that ends is CPt if it says so, else CP, which acknowledges if
/// it says so and asks for no silence. Twenty ones in a row after CP are E,
/// which acknowledges too and leads to data with the next symbol.
pub proof fn law_cp_and_e_lead_on(before: Upstream, bit: bool, found: Option<Cp>, index: usize, after: Upstream)
    requires
        before.after_cp_bit(bit, found, index as int, after),
        index < usize::MAX,
        before.spec_ears().ones <= 21,
    ensures
        found is None ==> after.spec_cp() == before.spec_cp() && after.spec_cpt() == before.spec_cpt(),
        found is Some && found->0.training ==> after.spec_cpt() == found && after.spec_cp() == before.spec_cp(),
        found is Some && !found->0.training ==> after.spec_cp() == found && after.spec_cpt() == before.spec_cpt(),
        found is Some && !found->0.training && found->0.acknowledge && !found->0.silence ==> after.spec_ears().cp_ack,
        found is None && after.spec_ears().listen == before.spec_ears().listen && !(after.spec_ears().listen is Data)
            ==> after.spec_ears().cp_ack == before.spec_ears().cp_ack,
        !bit ==> after.spec_ears().ones == 0,
        bit && before.spec_ears().ones <= 20 ==> after.spec_ears().ones == before.spec_ears().ones + 1,
        bit && before.spec_ears().ones > 20 ==> after.spec_ears().ones == before.spec_ears().ones,
        bit && before.spec_ears().ones == 19 && after.spec_cp() is Some && !after.spec_cp()->0.silence
            ==> after.spec_ears().listen == (Listen::Data { from: (index + 1) as usize }) && after.spec_ears().cp_ack,
        !bit || before.spec_ears().ones != 19 || after.spec_cp() is None || after.spec_cp()->0.silence
            ==> after.spec_ears().listen == before.spec_ears().listen,
        after.spec_ears().points == before.spec_ears().points && after.spec_ears().s_bars == before.spec_ears().s_bars,
{
}

/// Without the CP of data mode, the next is listened for from its start, on
/// the points that Jd asked for in a renegotiation, and the rest is kept.
pub proof fn law_a_renegotiation_forgets_cp(upstream: Upstream, after: Upstream)
    requires
        upstream.forgot_cp(after),
    ensures
        after.spec_cp() is None,
        after.cp_held().words is None && after.cp_held().ones == 0 && after.cp_held().block.len() == 0,
        !after.spec_ears().cp_ack && !after.spec_ears().decoding && after.spec_ears().ones == 0,
        after.spec_ears().points == upstream.spec_ears().renegotiation_points,
        after.spec_ears().listen == upstream.spec_ears().listen,
        after.spec_ears().renegotiations == upstream.spec_ears().renegotiations,
        after.spec_ears().trained == upstream.spec_ears().trained,
        after.spec_cpt() == upstream.spec_cpt() && after.spec_ja() == upstream.spec_ja(),
        after.history() == upstream.history() && after.data_history() == upstream.data_history(),
{
}

/// The bits of B1 give no data. After them each line bit gives its sum with
/// those 5 and 23 bits before it, which undoes the scrambler of the answer
/// modem.
pub proof fn law_data_comes_after_b1_descrambled(upstream: Upstream, line: bool, data: bool)
    requires
        upstream.data_history().len() == 23,
    ensures
        ({
            let held = upstream.data_history();
            let skip = upstream.spec_ears().skip_bits;
            let after = upstream.spec_ears().past_a_bit();
            &&& skip > 0 ==> upstream.spec_data_bit(line) is None && after.skip_bits == skip - 1
            &&& skip == 0 ==> upstream.spec_data_bit(data != (held[4] != held[22])) == Some(data) && after.skip_bits == 0
            &&& after.listen == upstream.spec_ears().listen && after.decoding == upstream.spec_ears().decoding
        }),
{
}

} // verus!

//! What the digital modem sends down to the analogue modem from phase 3 on,
//! as PCM codewords, and the upstream rate it agrees on (§ 9.3.1, § 9.4.1).

use crate::scrambler::{scrambled, scrambling_after, Polynomial, Scrambler, Scrambling};
use crate::v34::bits::field_bits;
use crate::v34::framing::{in_table_8, Framing};
use crate::v34::mp::{law_mp_has_the_lengths_of_its_tables, mp_frame, Mp, Trellis};
use crate::v34::phase2::PcmOutcome;
use crate::v34::rates::{agree, enabled, is_agreed, mask, mask_bits};
use crate::v34::SymbolRate;
use crate::v90::analogue::is_chosen;
use crate::v90::cp::Cp;
use crate::v90::dil::{Descriptor, Dil};
use crate::v90::encoder::{
    falses, pieces, sign_after, turning_after, unshaped, Encoder, Mapping, Piece, Rule, Turning,
};
use crate::v90::jd::{jd_frame, law_jd_is_72_bits, Jd, ALL_RATES};
use crate::v90::training::{
    alternating, r, sd, sd_symbol, signing_after, Signing, Signs, JD_PRIME_BITS, RI_SYMBOLS,
    R_BAR_SYMBOLS, SD_BAR_SYMBOLS, SD_SYMBOLS, TRN1D_SYMBOLS,
};
use crate::v90::upstream::{Ears, Upstream};
use crate::v90::Codeword;
use std::collections::VecDeque;
use vstd::prelude::*;

verus! {

/// § 9.4.1.2: TRN2d for at least 2040T.
pub const TRN2D_FRAMES: usize = 340;

/// § 8.6.2.
pub const ED_FRAMES: usize = 2;

/// § 8.6.1.
pub const B1D_FRAMES: usize = 48;

/// The most look-ahead this modem's spectral shaper takes.
pub const LOOKAHEAD: u8 = 3;

/// What the digital modem asks in Jd.
pub open spec fn spec_jd(sixteen_points: bool) -> Jd {
    Jd {
        rates: ALL_RATES,
        sixteen_points,
        sixteen_points_renegotiating: sixteen_points,
        lookahead: LOOKAHEAD,
    }
}

/// What the digital modem asks in Jd: every rate, and CP on 4 points, or on
/// 16.
#[must_use]
pub fn jd(sixteen_points: bool) -> (jd: Jd)
    ensures
        jd == spec_jd(sixteen_points),
{
    Jd {
        rates: ALL_RATES,
        sixteen_points,
        sixteen_points_renegotiating: sixteen_points,
        lookahead: LOOKAHEAD,
    }
}

#[derive(Debug, Clone, Copy, PartialEq, Eq, Structural)]
pub enum Send {
    /// Silence until Ja.
    Quiet,
    /// Jd, until the far S.
    Jd,
    /// DIL, until the second far S̄.
    Dil,
    /// Ri, until CPt. The symbols sent, as far as they count.
    Ri { sent: usize },
    /// TRN2d, MP, MP′ and Ed, with the constellations of CPt.
    Training,
    /// B1d and data, with the constellations of CP.
    Data,
    /// Silence once a cleardown has ended the call.
    Cleared,
}

/// Where the transmitter is.
#[derive(Debug, Clone, Copy, PartialEq, Eq, Structural)]
pub struct Script {
    pub uinfo: u8,
    pub send: Send,
    /// The data frames that bits have been queued for, less those sent.
    pub ahead: usize,
    /// The data frames sent, as far as they count.
    pub sent: usize,
    /// The data frames until the current encoder stops, once that is known.
    pub left: Option<usize>,
    /// MP′ has been sent.
    pub acked: bool,
    pub b1_sent: bool,
    /// In bit/s.
    pub rate: u32,
    /// A data frame is under way, and may wait for a rule of its shaping.
    pub emitting: bool,
    /// Renegotiations the analogue modem has started, as far as this end has
    /// answered them.
    pub renegotiations: u32,
    /// A renegotiation to start at the next data frame.
    pub renegotiate: bool,
    /// This end started a cleardown, so its MP asks for 0 bit/s.
    pub clearing: bool,
}

impl Script {
    /// To renegotiate, or with `clearing` to end the call.
    pub open spec fn leaving_data(self, clearing: bool) -> Self {
        Self { renegotiate: true, clearing, b1_sent: false, ..self }
    }

    pub open spec fn valid(self) -> bool {
        &&& self.uinfo < 128
        &&& self.ahead <= 1000
        &&& self.sent <= B1D_FRAMES
        &&& self.left matches Some(left) ==> left <= 1002
        &&& self.emitting ==> self.send is Training || self.send is Data
    }

    /// Before phase 3.
    pub open spec fn fresh(uinfo: u8) -> Self {
        Self {
            uinfo,
            send: Send::Quiet,
            ahead: 0,
            sent: 0,
            left: None,
            acked: false,
            b1_sent: false,
            rate: 0,
            emitting: false,
            renegotiations: 0,
            renegotiate: false,
            clearing: false,
        }
    }

    /// The responding modem answers the S̄ of the analogue modem in data
    /// mode; an initiating one has already begun.
    pub open spec fn responding(self, renegotiations: u32) -> Self {
        Self {
            renegotiations,
            renegotiate: self.renegotiate || renegotiations != self.renegotiations
                && self.send is Data,
            ..self
        }
    }

    /// MP, or MP′ once CP has come.
    pub open spec fn own_mp(self, mp: Mp, cp: bool) -> Mp {
        Mp {
            acknowledge: cp,
            max_answer_to_call: if self.clearing {
                0
            } else {
                mp.max_answer_to_call
            },
            ..mp
        }
    }

    /// What fills up the bits of a data frame.
    pub open spec fn idle(self) -> bool {
        self.send is Data
    }

    /// With one more data frame sent.
    pub open spec fn sent_one(self) -> Self {
        Self {
            ahead: if self.ahead > 0 {
                (self.ahead - 1) as usize
            } else {
                0
            },
            sent: if self.sent < B1D_FRAMES {
                (self.sent + 1) as usize
            } else {
                self.sent
            },
            left: match self.left {
                Some(left) if left > 0 => Some((left - 1) as usize),
                left => left,
            },
            b1_sent: self.b1_sent || self.send is Data && self.sent + 1 >= B1D_FRAMES,
            emitting: false,
            ..self
        }
    }
}

/// The encoder and its delays.
pub struct Shaping {
    pub mapping: Mapping,
    pub pieces: Seq<Piece>,
    pub out: Seq<Codeword>,
    pub last_sign: bool,
    pub turning: Turning,
    pub state: bool,
}

impl Shaping {
    pub open spec fn of(encoder: Encoder) -> Self {
        Self {
            mapping: encoder.spec_mapping(),
            pieces: encoder.pending(),
            out: encoder.out(),
            last_sign: encoder.last_sign(),
            turning: encoder.turning(),
            state: encoder.spec_state(),
        }
    }

    /// With its differential encoders at zero.
    pub open spec fn fresh(mapping: Mapping) -> Self {
        Self {
            mapping,
            pieces: seq![],
            out: seq![],
            last_sign: false,
            turning: Turning {
                last_odd: false,
                last_t: Seq::new(mapping.spec_shaping_length() as nat, |i: int| false),
            },
            state: false,
        }
    }

    /// With the bits of a data frame.
    pub open spec fn taken(self, frame: Seq<bool>) -> Self {
        if self.mapping.redundancy == 0 {
            Self {
                out: self.out + unshaped(self.mapping, self.last_sign, frame),
                last_sign: sign_after(self.last_sign, frame, 6),
                ..self
            }
        } else {
            Self {
                pieces: self.pieces + pieces(self.mapping, self.turning, frame),
                turning: turning_after(
                    self.turning,
                    frame.take(self.mapping.spec_sign_bits()),
                    6int / self.mapping.spec_shaping_length(),
                ),
                ..self
            }
        }
    }

    /// With the oldest shaping frame sent under `rule`.
    pub open spec fn shaped(self, rule: Rule) -> Self {
        Self {
            pieces: self.pieces.skip(1),
            out: self.out + self.pieces[0].symbols(rule),
            state: rule.spec_next_state(),
            ..self
        }
    }

    pub open spec fn wants_bits(self) -> bool {
        self.out.len() < 6 && (self.mapping.redundancy == 0 || self.pieces.len()
            <= self.mapping.lookahead)
    }
}

/// What feeds the encoder: bits, filled up with `idle`, through the scrambler.
pub struct Feeding {
    pub shaping: Shaping,
    pub scrambling: Scrambling,
    pub pending: Seq<bool>,
}

impl Feeding {
    /// The next D bits.
    pub open spec fn next_bits(self, idle: bool) -> Seq<bool> {
        Seq::new(
            self.shaping.mapping.spec_bits() as nat,
            |i: int|
                if i < self.pending.len() {
                    self.pending[i]
                } else {
                    idle
                },
        )
    }

    /// With one more data frame of bits.
    pub open spec fn fed(self, idle: bool) -> Self {
        let bits = self.next_bits(idle);
        Self {
            shaping: self.shaping.taken(scrambled(self.scrambling, bits)),
            scrambling: scrambling_after(self.scrambling, bits),
            pending: if bits.len() <= self.pending.len() {
                self.pending.skip(bits.len() as int)
            } else {
                seq![]
            },
        }
    }

    /// With `count` more data frames of bits.
    pub open spec fn fed_times(self, idle: bool, count: nat) -> Self
        decreases count,
    {
        if count == 0 {
            self
        } else {
            self.fed_times(idle, (count - 1) as nat).fed(idle)
        }
    }

    /// `next` is this with as many data frames of bits as the encoder wants,
    /// and no more.
    pub open spec fn fills(self, idle: bool, next: Self) -> bool {
        !next.shaping.wants_bits() && exists|count: nat| #[trigger]
            self.fed_times(idle, count) == next && forall|k: nat|
                k < count ==> (#[trigger] self.fed_times(idle, k)).shaping.wants_bits()
    }
}

/// Feeds an encoder.
#[derive(Debug)]
pub struct Feed {
    encoder: Encoder,
    scrambler: Scrambler,
    pending: VecDeque<bool>,
}

impl View for Feed {
    type V = Feeding;

    closed spec fn view(&self) -> Feeding {
        Feeding {
            shaping: Shaping::of(self.encoder),
            scrambling: self.scrambler@,
            pending: self.pending@,
        }
    }
}

impl Feed {
    pub closed spec fn valid(self) -> bool {
        self.encoder.valid() && self.scrambler@.valid()
    }

    /// From the start of a mapping.
    #[must_use]
    pub fn new(mapping: Mapping) -> (feed: Self)
        requires
            mapping.valid(),
        ensures
            feed.valid(),
            feed@ == (Feeding {
                shaping: Shaping::fresh(mapping),
                scrambling: Scrambling::fresh(Polynomial::V34Call),
                pending: seq![],
            }),
    {
        let feed = Self {
            encoder: Encoder::new(mapping),
            scrambler: Scrambler::with(Polynomial::V34_CALL),
            pending: VecDeque::new(),
        };
        assert(feed@.pending =~= Seq::<bool>::empty());
        feed
    }

    pub proof fn lemma_mapping_valid(self)
        requires
            self.valid(),
        ensures
            self@.shaping.mapping.valid(),
    {
        self.encoder.lemma_mapping_valid();
    }

    #[must_use]
    pub fn encoder(&self) -> (encoder: &Encoder)
        ensures
            Shaping::of(*encoder) == self@.shaping,
    {
        &self.encoder
    }

    /// D.
    #[must_use]
    pub fn frame_bits(&self) -> (bits: usize)
        requires
            self.valid(),
        ensures
            bits == self@.shaping.mapping.spec_bits(),
            3 <= bits <= 69,
    {
        proof {
            self.encoder.lemma_mapping_valid();
        }
        self.encoder.mapping().bits()
    }

    /// Bits for the encoder.
    pub fn push(&mut self, bit: bool)
        requires
            old(self).valid(),
        ensures
            final(self).valid(),
            final(self)@ == (Feeding { pending: old(self)@.pending.push(bit), ..old(self)@ }),
    {
        self.pending.push_back(bit);
    }

    fn take(&mut self, idle: bool)
        requires
            old(self).valid(),
        ensures
            final(self).valid(),
            final(self)@ == old(self)@.fed(idle),
    {
        let ghost before = *self;
        let count = self.frame_bits();
        let ghost bits = self@.next_bits(idle);
        let mut line: Vec<bool> = Vec::new();
        assert(bits.take(0) =~= Seq::<bool>::empty());
        assert(before.pending@.skip(0) =~= before.pending@);
        while line.len() < count
            invariant
                line.len() <= count,
                bits == before@.next_bits(idle),
                bits.len() == count,
                line@ == scrambled(before.scrambler@, bits.take(line.len() as int)),
                self.scrambler@ == scrambling_after(
                    before.scrambler@,
                    bits.take(line.len() as int),
                ),
                self.scrambler@.valid(),
                self.encoder == before.encoder,
                self.pending@ == (if line.len() <= before.pending@.len() {
                    before.pending@.skip(line.len() as int)
                } else {
                    Seq::<bool>::empty()
                }),
            decreases count - line.len(),
        {
            let ghost n = line.len() as int;
            let ghost held = self.pending@;
            let bit = match self.pending.pop_front() {
                Some(bit) => bit,
                None => idle,
            };
            proof {
                assert(bit == bits[n]);
                assert(bits.take(n + 1).drop_last() =~= bits.take(n));
                if held.len() > 0 {
                    assert(self.pending@ =~= before.pending@.skip(n + 1));
                } else if n == before.pending@.len() {
                    assert(self.pending@ =~= Seq::<bool>::empty());
                }
            }
            line.push(self.scrambler.scramble(bit));
        }
        assert(bits.take(count as int) =~= bits);
        proof {
            if count == before.pending@.len() {
                assert(before.pending@.skip(count as int) =~= Seq::<bool>::empty());
            }
        }
        self.encoder.take(line.as_slice());
    }

    /// Gives the encoder as many data frames of bits as it wants.
    pub fn fill(&mut self, idle: bool)
        requires
            old(self).valid(),
        ensures
            final(self).valid(),
            old(self)@.fills(idle, final(self)@),
    {
        let ghost before = self@;
        let ghost mut count: nat = 0;
        proof {
            self.encoder.lemma_mapping_valid();
        }
        while self.encoder.wants_bits()
            invariant
                self.valid(),
                self@ == before.fed_times(idle, count),
                forall|k: nat|
                    k < count ==> (#[trigger] before.fed_times(idle, k)).shaping.wants_bits(),
            decreases (if self@.shaping.out.len() < 6 {
                1int
            } else {
                0
            }), self@.shaping.mapping.lookahead + 3 - self@.shaping.pieces.len(),
        {
            let ghost held = self@;
            proof {
                self.encoder.lemma_mapping_valid();
            }
            self.take(idle);
            proof {
                count = count + 1;
                let m = held.shaping.mapping;
                let length = m.spec_shaping_length();
                assert(1 <= 6int / length <= 3) by {
                    assert(6int / 6int == 1 && 6int / 3int == 2 && 6int / 2int == 3);
                }
                let line = scrambled(held.scrambling, held.next_bits(idle));
                if m.redundancy == 0 {
                    assert(unshaped(m, held.shaping.last_sign, line).len() == 6);
                } else {
                    assert(pieces(m, held.shaping.turning, line).len() == 6int / length);
                }
            }
        }
        assert(before.fed_times(idle, count) == self@);
    }

    /// Sends the oldest shaping frame under `rule`.
    pub fn shape(&mut self, rule: Rule)
        requires
            old(self).valid(),
            old(self)@.shaping.pieces.len() > 0,
            rule.fits_state(old(self)@.shaping.state),
        ensures
            final(self).valid(),
            final(self)@ == (Feeding { shaping: old(self)@.shaping.shaped(rule), ..old(self)@ }),
    {
        self.encoder.shape(rule);
    }

    /// The next data frame of codewords, once there are six.
    pub fn frame(&mut self) -> (frame: Option<[Codeword; 6]>)
        requires
            old(self).valid(),
        ensures
            final(self).valid(),
            match frame {
                Some(frame) => {
                    &&& old(self)@.shaping.out.len() >= 6
                    &&& frame@ == old(self)@.shaping.out.take(6)
                    &&& final(self)@ == (Feeding {
                        shaping: Shaping {
                            out: old(self)@.shaping.out.skip(6),
                            ..old(self)@.shaping
                        },
                        ..old(self)@
                    })
                },
                None => old(self)@.shaping.out.len() < 6 && final(self)@ == old(self)@,
            },
    {
        self.encoder.frame()
    }
}

/// `count` symbols of R, or R̄ when `bar`, on UINFO.
pub open spec fn ringing(uinfo: u8, bar: bool, count: nat) -> Seq<Codeword> {
    Seq::new(count, |n: int| Codeword { ucode: uinfo, positive: alternating(n, bar) })
}

/// The symbols of `bits` as signs of UINFO.
pub open spec fn signed(uinfo: u8, signing: Signing, bits: Seq<bool>) -> Seq<Codeword> {
    Seq::new(
        bits.len(),
        |n: int|
            Codeword { ucode: uinfo, positive: signing_after(signing, bits, n).sign(bits[n]) },
    )
}

/// After `count` symbols of TRN1d.
pub open spec fn trained(signing: Signing, count: int) -> Signing
    decreases count,
{
    if count <= 0 {
        signing
    } else {
        trained(signing, count - 1).after_trn()
    }
}

/// Sd, S̄d and TRN1d.
pub open spec fn starting(uinfo: u8, signing: Signing) -> Seq<Codeword> {
    Seq::new(SD_SYMBOLS as nat, |n: int| sd_symbol(uinfo, false, n)) + Seq::new(
        SD_BAR_SYMBOLS as nat,
        |n: int| sd_symbol(uinfo, true, n),
    ) + Seq::new(
        TRN1D_SYMBOLS as nat,
        |n: int| Codeword { ucode: uinfo, positive: trained(signing, n + 1).last },
    )
}

/// The data frames of `per_frame` bits that `length` bits take.
pub open spec fn frames_for(length: int, per_frame: int) -> int {
    (length + per_frame - 1) / per_frame
}

/// `bits` filled up with zeros to whole data frames.
pub open spec fn padded(bits: Seq<bool>, per_frame: int) -> Seq<bool> {
    Seq::new(
        (frames_for(bits.len() as int, per_frame) * per_frame) as nat,
        |i: int| i < bits.len() && bits[i],
    )
}

/// What the transmitter gives for the next symbol.
#[derive(Debug, Clone, Copy, PartialEq, Eq, Structural)]
pub enum Next {
    Symbol(Codeword),
    /// The encoder waits for the rule of a shaping frame.
    Rule,
}

/// The downstream signal and what waits to be sent.
pub struct Sending {
    pub jd: Jd,
    pub script: Script,
    pub queue: Seq<Codeword>,
    pub signing: Signing,
    pub dil: Option<Dil>,
    pub feeding: Option<Feeding>,
    pub data: Seq<bool>,
}

/// The largest Ucode of an interval.
pub open spec fn largest(mapping: Mapping, interval: int) -> u8 {
    if mapping.sets@[interval]@.len() > 0 {
        mapping.sets@[interval]@[0]
    } else {
        0
    }
}

/// `count` symbols of Rd, or R̄d when `bar`, on the largest Ucode of each
/// interval.
pub open spec fn ringing_in_data(mapping: Mapping, bar: bool, count: nat) -> Seq<Codeword> {
    Seq::new(
        count,
        |n: int| Codeword { ucode: largest(mapping, n % 6), positive: alternating(n, bar) },
    )
}

/// `mapping` has the constellations and K of CPt with the spectral shaping of
/// data mode.
pub open spec fn is_renegotiating(mapping: Mapping, cpt: Cp, data: Mapping) -> bool {
    exists|training: Mapping|
        {
            &&& #[trigger] training.is_from(cpt)
            &&& training.spec_fits()
            &&& forall|i: int|
                0 <= i < 6 ==> (#[trigger] mapping.sets@[i])@ == training.sets@[i]@
            &&& mapping.modulus_bits == training.modulus_bits
            &&& mapping.redundancy == data.redundancy
            &&& mapping.lookahead == data.lookahead
            &&& mapping.filter == data.filter
            &&& mapping.law == training.law
        }
}

/// CP has no mapping whose sets carry its rate.
pub open spec fn unmapped(cp: Cp) -> bool {
    forall|mapping: Mapping| #[trigger] mapping.is_from(cp) ==> !mapping.spec_fits()
}

impl Sending {
    pub open spec fn mapping(self) -> Mapping {
        self.feeding->0.shaping.mapping
    }

    pub open spec fn frame_bits(self) -> int {
        self.mapping().spec_bits()
    }

    /// Whether the encoder would take bits beyond those queued for the next
    /// data frame.
    pub open spec fn wants_bits(self) -> bool {
        self.script.ahead <= self.mapping().lookahead
    }

    pub open spec fn with_queue(self, symbols: Seq<Codeword>, send: Send) -> Self {
        Self { queue: symbols, script: Script { send, ..self.script }, ..self }
    }

    /// `bits` as signs of UINFO.
    pub open spec fn signs(self, bits: Seq<bool>, send: Send) -> Self {
        Self {
            signing: signing_after(self.signing, bits, bits.len() as int),
            ..self.with_queue(signed(self.script.uinfo, self.signing, bits), send)
        }
    }

    /// Sd, S̄d and TRN1d, with the DIL that Ja asks for to come.
    pub open spec fn starts(self, ja: Descriptor, next: Self) -> bool {
        &&& next == Self {
            signing: trained(self.signing, TRN1D_SYMBOLS as int),
            dil: next.dil,
            ..self.with_queue(starting(self.script.uinfo, self.signing), Send::Jd)
        }
        &&& next.dil is Some && next.dil->0.descriptor().same(ja) && next.dil->0.place() == (
            0int,
            0int,
        )
    }

    /// One more symbol of DIL.
    pub open spec fn dils(self, next: Self) -> bool {
        let d = self.dil->0.descriptor();
        let at = self.dil->0.place();
        &&& next == Self {
            dil: next.dil,
            ..self.with_queue(seq![d.symbol(at.0, at.1)], Send::Dil)
        }
        &&& next.dil is Some && next.dil->0.descriptor() == d && next.dil->0.place()
            == d.following(at)
    }

    /// An encoder from its start with the mapping of `cp`, and `frames` data
    /// frames of ones for it.
    pub open spec fn restarts(self, cp: Cp, frames: usize, next: Self) -> bool {
        let mapping = next.mapping();
        &&& mapping.is_from(cp) && mapping.spec_fits()
        &&& next.feeding == Some(
            Feeding {
                shaping: Shaping::fresh(mapping),
                scrambling: Scrambling::fresh(Polynomial::V34Call),
                pending: Seq::new((frames * mapping.spec_bits()) as nat, |i: int| true),
            },
        )
    }

    /// Ri, until CPt comes.
    pub open spec fn rings(self, sent: usize, cpt: Option<Cp>, next: Self) -> bool {
        match cpt {
            Some(cpt) if sent >= RI_SYMBOLS => {
                let r_bar = ringing(self.script.uinfo, true, R_BAR_SYMBOLS as nat);
                if unmapped(cpt) {
                    next == self.with_queue(
                        r_bar.push(Codeword::spec_silence()),
                        Send::Ri { sent },
                    )
                } else {
                    &&& self.restarts(cpt, TRN2D_FRAMES, next)
                    &&& next == Self {
                        queue: r_bar,
                        feeding: next.feeding,
                        script: Script {
                            send: Send::Training,
                            ahead: TRN2D_FRAMES,
                            sent: 0,
                            left: None,
                            ..self.script
                        },
                        ..self
                    }
                }
            },
            _ => next == self.with_queue(
                ringing(self.script.uinfo, false, 6),
                Send::Ri {
                    sent: if sent + 6 < RI_SYMBOLS {
                        (sent + 6) as usize
                    } else {
                        RI_SYMBOLS
                    },
                },
            ),
        }
    }

    /// With the bits of whole data frames for the encoder.
    pub open spec fn with_bits(self, bits: Seq<bool>) -> Self {
        let feeding = self.feeding->0;
        Self {
            feeding: Some(
                Feeding { pending: feeding.pending + padded(bits, self.frame_bits()), ..feeding },
            ),
            script: Script {
                ahead: (self.script.ahead + frames_for(bits.len() as int, self.frame_bits())) as usize,
                ..self.script
            },
            ..self
        }
    }

    /// MP until CP, MP′ until CP′ or E, then Ed (§ 9.4.1.3 and § 9.4.1.4).
    pub open spec fn trains(self, cp: bool, cp_ack: bool, mp: Mp) -> Self {
        let next = if self.script.left is Some || !self.wants_bits() {
            self
        } else if self.script.acked && cp_ack {
            let script = Script {
                left: Some((self.script.ahead + ED_FRAMES) as usize),
                ..self.script
            };
            (Self { script, ..self }).with_bits(
                Seq::new((ED_FRAMES * self.frame_bits()) as nat, |i: int| false),
            )
        } else {
            let script = Script { acked: self.script.acked || cp, ..self.script };
            (Self { script, ..self }).with_bits(mp_frame(self.script.own_mp(mp, cp)))
        };
        Self { script: Script { emitting: true, ..next.script }, ..next }
    }

    /// The data frames of data that the encoder takes before the next frame.
    pub open spec fn wanted(self) -> int {
        if self.wants_bits() {
            self.mapping().lookahead + 1 - self.script.ahead
        } else {
            0
        }
    }

    /// With data for the encoder, and ones where there is none.
    pub open spec fn gathers(self) -> Self {
        let count = (self.wanted() * self.frame_bits()) as nat;
        let feeding = self.feeding->0;
        Self {
            feeding: Some(
                Feeding {
                    pending: feeding.pending + Seq::new(
                        count,
                        |i: int| i >= self.data.len() || self.data[i],
                    ),
                    ..feeding
                },
            ),
            data: if count <= self.data.len() {
                self.data.skip(count as int)
            } else {
                seq![]
            },
            script: Script {
                ahead: (self.script.ahead + self.wanted()) as usize,
                emitting: true,
                ..self.script
            },
            ..self
        }
    }

    /// § 9.6.1: Rd and R̄d, then MP again.
    pub open spec fn renegotiates(self, cpt: Cp, next: Self) -> bool {
        let data = self.mapping();
        &&& is_renegotiating(next.mapping(), cpt, data)
        &&& next == Self {
            queue: ringing_in_data(data, false, RI_SYMBOLS as nat) + ringing_in_data(
                data,
                true,
                R_BAR_SYMBOLS as nat,
            ),
            feeding: Some(
                Feeding {
                    shaping: Shaping::fresh(next.mapping()),
                    scrambling: Scrambling::fresh(Polynomial::V34Call),
                    pending: seq![],
                },
            ),
            script: Script {
                send: Send::Training,
                ahead: 0,
                sent: 0,
                left: None,
                acked: false,
                b1_sent: false,
                renegotiate: false,
                ..self.script
            },
            ..self
        }
    }

    /// `next` has symbols to send, or a data frame under way, and has taken
    /// up a renegotiation that the analogue modem starts.
    pub open spec fn prepares(self, upstream: Upstream, mp: Mp, next: Self) -> bool {
        let script = self.script.responding(upstream.spec_ears().renegotiations);
        (Self { script, ..self }).goes_on(upstream, mp, next)
    }

    /// `next` has symbols to send, or a data frame under way.
    pub open spec fn goes_on(self, upstream: Upstream, mp: Mp, next: Self) -> bool {
        let ears = upstream.spec_ears();
        match self.script.send {
            Send::Quiet => match upstream.spec_ja() {
                None => next == self.with_queue(seq![Codeword::spec_silence()], Send::Quiet),
                Some(ja) => self.starts(ja, next),
            },
            Send::Jd => if ears.s {
                next == self.signs(
                    Seq::new(JD_PRIME_BITS as nat, |i: int| false),
                    if self.dil is Some && self.dil->0.descriptor().training@.len() > 0 {
                        Send::Dil
                    } else {
                        Send::Ri { sent: 0 }
                    },
                )
            } else {
                next == self.signs(jd_frame(self.jd), Send::Jd)
            },
            Send::Dil => if ears.s_bars >= 2 && self.dil->0.place().1 == 0 {
                self.rings(0, upstream.spec_cpt(), next)
            } else {
                self.dils(next)
            },
            Send::Ri { sent } => self.rings(sent, upstream.spec_cpt(), next),
            Send::Training => next == self.trains(upstream.spec_cp() is Some, ears.cp_ack, mp),
            Send::Data => match upstream.spec_cpt() {
                Some(cpt) if self.script.renegotiate && !unmapped(cpt) => self.renegotiates(
                    cpt,
                    next,
                ),
                _ => next == self.gathers(),
            },
            Send::Cleared => next == self.with_queue(
                seq![Codeword::spec_silence()],
                Send::Cleared,
            ),
        }
    }

    /// `next` follows the last data frame of training: B1d, if CP has a
    /// mapping. After a rate of 0 bit/s from either end, the call is over
    /// (§ 9.7).
    pub open spec fn begins_data(self, cp: Option<Cp>, next: Self) -> bool {
        match cp {
            Some(cp) if self.script.clearing || cp.rate == 0 => next == Self {
                script: Script { send: Send::Cleared, ..self.script },
                ..self
            },
            Some(cp) if !unmapped(cp) => {
                &&& self.restarts(cp, B1D_FRAMES, next)
                &&& next == Self {
                    feeding: next.feeding,
                    script: Script {
                        send: Send::Data,
                        ahead: B1D_FRAMES,
                        sent: 0,
                        left: None,
                        rate: ((cp.spec_frame_bits() * 8000 + 3) / 6) as u32,
                        ..self.script
                    },
                    ..self
                }
            },
            _ => next == self,
        }
    }

    /// With the first data frame of what has been fed.
    pub open spec fn framed(self, fed: Feeding) -> Self {
        Self {
            queue: fed.shaping.out.take(6),
            feeding: Some(
                Feeding {
                    shaping: Shaping { out: fed.shaping.out.skip(6), ..fed.shaping },
                    ..fed
                },
            ),
            script: self.script.sent_one(),
            ..self
        }
    }

    /// `next` has the data frame under way in its queue, unless it `waits`
    /// for a rule.
    pub open spec fn emits(self, cp: Option<Cp>, fed: Feeding, waits: bool, next: Self) -> bool {
        &&& self.feeding->0.fills(self.script.idle(), fed)
        &&& waits == (fed.shaping.out.len() < 6)
        &&& if waits {
            next == Self { feeding: Some(fed), ..self }
        } else if self.script.send is Training && self.script.left == Some(1usize) {
            self.framed(fed).begins_data(cp, next)
        } else {
            next == self.framed(fed)
        }
    }

    /// `ready` is this with symbols to send or a data frame under way.
    pub open spec fn readies(self, upstream: Upstream, mp: Mp, ready: Self) -> bool {
        if self.script.emitting || self.queue.len() > 0 {
            ready == self
        } else {
            self.prepares(upstream, mp, ready)
        }
    }

    /// `full` is this with symbols to send, unless it `waits` for a rule.
    pub open spec fn fills_up(self, cp: Option<Cp>, waits: bool, full: Self) -> bool {
        if self.queue.len() > 0 {
            !waits && full == self
        } else {
            exists|fed: Feeding| #[trigger] self.emits(cp, fed, waits, full)
        }
    }

    /// `next` is the first symbol of what is `full`, or a rule is waited for.
    pub open spec fn gives(
        self,
        upstream: Upstream,
        mp: Mp,
        ready: Self,
        full: Self,
        next: Next,
        after: Self,
    ) -> bool {
        &&& self.readies(upstream, mp, ready)
        &&& ready.fills_up(upstream.spec_cp(), next is Rule, full)
        &&& match next {
            Next::Rule => after == full && full.feeding is Some
                && full.feeding->0.shaping.pieces.len() > 0,
            Next::Symbol(symbol) => full.queue.len() > 0 && symbol == full.queue[0] && after == (
            Self { queue: full.queue.skip(1), ..full }),
        }
    }
}

/// The downstream signal from phase 3 on.
#[derive(Debug)]
pub struct Sender {
    jd: Jd,
    script: Script,
    queue: VecDeque<Codeword>,
    signs: Signs,
    dil: Option<Dil>,
    feed: Option<Feed>,
    data: VecDeque<bool>,
}

impl View for Sender {
    type V = Sending;

    closed spec fn view(&self) -> Sending {
        Sending {
            jd: self.jd,
            script: self.script,
            queue: self.queue@,
            signing: self.signs@,
            dil: self.dil,
            feeding: match self.feed {
                Some(feed) => Some(feed@),
                None => None,
            },
            data: self.data@,
        }
    }
}

impl Sender {
    pub closed spec fn valid(self) -> bool {
        &&& self.script.valid()
        &&& self.signs.uinfo() == self.script.uinfo
        &&& self.signs@.scrambling.valid()
        &&& self.dil matches Some(dil) ==> dil.valid()
        &&& self.feed matches Some(feed) ==> feed.valid()
        &&& self.script.send is Training || self.script.send is Data ==> self.feed is Some
        &&& self.script.send is Dil ==> self.dil is Some && self.dil->0.descriptor().training@.len()
            > 0
        &&& self.script.emitting ==> self.queue@.len() == 0
    }

    #[must_use]
    pub fn new(uinfo: u8, jd: Jd) -> (sender: Self)
        requires
            uinfo < 128,
        ensures
            sender.valid(),
            sender@ == (Sending {
                jd,
                script: Script::fresh(uinfo),
                queue: seq![],
                signing: Signing {
                    scrambling: Scrambling::fresh(Polynomial::V34Call),
                    last: false,
                },
                dil: None,
                feeding: None,
                data: seq![],
            }),
    {
        let sender = Self {
            jd,
            script: Script {
                uinfo,
                send: Send::Quiet,
                ahead: 0,
                sent: 0,
                left: None,
                acked: false,
                b1_sent: false,
                rate: 0,
                emitting: false,
                renegotiations: 0,
                renegotiate: false,
                clearing: false,
            },
            queue: VecDeque::new(),
            signs: Signs::new(uinfo),
            dil: None,
            feed: None,
            data: VecDeque::new(),
        };
        assert(sender@.queue =~= Seq::<Codeword>::empty());
        assert(sender@.data =~= Seq::<bool>::empty());
        sender
    }

    #[must_use]
    pub fn script(&self) -> (script: Script)
        ensures
            script == self@.script,
    {
        self.script
    }

    /// The encoder, whose rules are to be chosen.
    #[must_use]
    pub fn encoder(&self) -> (encoder: Option<&Encoder>)
        ensures
            match encoder {
                Some(encoder) => self@.feeding is Some && Shaping::of(*encoder)
                    == self@.feeding->0.shaping,
                None => self@.feeding is None,
            },
    {
        match &self.feed {
            Some(feed) => Some(feed.encoder()),
            None => None,
        }
    }

    /// In bit/s, 0 before data mode.
    #[must_use]
    pub fn bit_rate(&self) -> (rate: u32)
        ensures
            rate == self@.script.rate,
    {
        self.script.rate
    }

    /// Data to send.
    pub fn push_bits(&mut self, bits: &[bool])
        requires
            old(self).valid(),
        ensures
            final(self).valid(),
            final(self)@ == (Sending { data: old(self)@.data + bits@, ..old(self)@ }),
    {
        let ghost before = self.data@;
        let mut i: usize = 0;
        assert(before + bits@.take(0) =~= before);
        while i < bits.len()
            invariant
                i <= bits.len(),
                self.valid(),
                self@ == (Sending { data: before + bits@.take(i as int), ..old(self)@ }),
            decreases bits.len() - i,
        {
            self.data.push_back(bits[i]);
            i += 1;
            assert(self.data@ =~= before + bits@.take(i as int));
        }
        assert(bits@.take(i as int) =~= bits@);
    }

    /// The bits of data still to go to the encoder.
    #[must_use]
    pub fn pending(&self) -> (count: usize)
        ensures
            count == self@.data.len(),
    {
        self.data.len()
    }

    fn queue(&mut self, symbols: Vec<Codeword>)
        requires
            old(self).valid(),
            !old(self).script.emitting,
        ensures
            final(self).valid(),
            final(self)@ == (Sending { queue: old(self)@.queue + symbols@, ..old(self)@ }),
    {
        let ghost before = self.queue@;
        let mut i: usize = 0;
        assert(before + symbols@.take(0) =~= before);
        while i < symbols.len()
            invariant
                i <= symbols.len(),
                self.valid(),
                !self.script.emitting,
                self@ == (Sending { queue: before + symbols@.take(i as int), ..old(self)@ }),
            decreases symbols.len() - i,
        {
            self.queue.push_back(symbols[i]);
            i += 1;
            assert(self.queue@ =~= before + symbols@.take(i as int));
        }
        assert(symbols@.take(i as int) =~= symbols@);
    }

    /// Sd, S̄d and TRN1d, with the DIL that Ja asks for to come.
    fn start(&mut self, ja: &Descriptor)
        requires
            old(self).valid(),
            old(self)@.queue == Seq::<Codeword>::empty(),
            old(self).script.send is Quiet,
            ja.can_be_sent(),
        ensures
            final(self).valid(),
            old(self)@.starts(*ja, final(self)@),
    {
        let uinfo = self.script.uinfo;
        self.dil = Some(Dil::new(ja.copied()));
        self.queue(sd(uinfo, false));
        self.queue(sd(uinfo, true));
        let ghost opening = self.queue@;
        let ghost signing = self.signs@;
        let ghost held = self@;
        let mut n: usize = 0;
        assert(opening + Seq::new(
            0,
            |k: int| Codeword { ucode: uinfo, positive: trained(signing, k + 1).last },
        ) =~= opening);
        while n < TRN1D_SYMBOLS
            invariant
                n <= TRN1D_SYMBOLS,
                self.valid(),
                !self.script.emitting,
                uinfo == self.script.uinfo,
                self@ == (Sending {
                    queue: opening + Seq::new(
                        n as nat,
                        |k: int| Codeword { ucode: uinfo, positive: trained(signing, k + 1).last },
                    ),
                    signing: trained(signing, n as int),
                    ..held
                }),
            decreases TRN1D_SYMBOLS - n,
        {
            let ghost queue = self.queue@;
            let symbol = self.signs.trn();
            self.queue.push_back(symbol);
            n += 1;
            assert(self.queue@ =~= opening + Seq::new(
                n as nat,
                |k: int| Codeword { ucode: uinfo, positive: trained(signing, k + 1).last },
            ));
        }
        self.script.send = Send::Jd;
        assert(self.queue@ =~= starting(uinfo, signing));
    }

    /// `bits` as signs of UINFO.
    fn sign(&mut self, bits: &[bool], send: Send)
        requires
            old(self).valid(),
            old(self)@.queue == Seq::<Codeword>::empty(),
            !old(self).script.emitting,
            send is Jd || send is Ri || send is Dil && old(self).dil is Some && old(
                self,
            ).dil->0.descriptor().training@.len() > 0,
        ensures
            final(self).valid(),
            final(self)@ == old(self)@.signs(bits@, send),
    {
        let ghost before = self@;
        let symbols = self.signs.sequence(bits);
        assert(symbols@ =~= signed(before.script.uinfo, before.signing, bits@));
        self.queue(symbols);
        self.script.send = send;
        assert(self.queue@ =~= signed(before.script.uinfo, before.signing, bits@));
    }

    /// An encoder from its start, with `frames` data frames of ones for it.
    fn restart(&mut self, mapping: Mapping, frames: usize, send: Send)
        requires
            old(self).valid(),
            mapping.valid(),
            frames <= 1000,
            send is Training || send is Data,
        ensures
            final(self).valid(),
            final(self)@ == (Sending {
                feeding: Some(
                    Feeding {
                        shaping: Shaping::fresh(mapping),
                        scrambling: Scrambling::fresh(Polynomial::V34Call),
                        pending: Seq::new((frames * mapping.spec_bits()) as nat, |i: int| true),
                    },
                ),
                script: Script {
                    send,
                    ahead: frames,
                    sent: 0,
                    left: None,
                    ..old(self)@.script
                },
                ..old(self)@
            }),
    {
        let mut feed = Feed::new(mapping);
        let per_frame = feed.frame_bits();
        proof {
            assert(0 <= frames * per_frame <= 1000 * 69) by (nonlinear_arith)
                requires
                    frames <= 1000,
                    3 <= per_frame <= 69,
            ;
        }
        let count: usize = frames * per_frame;
        let mut n: usize = 0;
        assert(Seq::new(0, |i: int| true) =~= Seq::<bool>::empty());
        while n < count
            invariant
                n <= count,
                feed.valid(),
                feed@ == (Feeding {
                    shaping: Shaping::fresh(mapping),
                    scrambling: Scrambling::fresh(Polynomial::V34Call),
                    pending: Seq::new(n as nat, |i: int| true),
                }),
            decreases count - n,
        {
            feed.push(true);
            n += 1;
            assert(feed@.pending =~= Seq::new(n as nat, |i: int| true));
        }
        self.feed = Some(feed);
        self.script.send = send;
        self.script.ahead = frames;
        self.script.sent = 0;
        self.script.left = None;
    }

    /// Ri, until CPt comes.
    fn ring(&mut self, sent: usize, cpt: &Option<Cp>)
        requires
            old(self).valid(),
            old(self)@.queue == Seq::<Codeword>::empty(),
            !old(self).script.emitting,
        ensures
            final(self).valid(),
            old(self)@.rings(sent, *cpt, final(self)@),
            final(self)@.queue.len() > 0,
    {
        let ghost before = self@;
        let uinfo = self.script.uinfo;
        let ucodes = [uinfo; 6];
        match cpt {
            Some(cpt) if sent >= RI_SYMBOLS => {
                let symbols = r(ucodes, true, R_BAR_SYMBOLS);
                assert(symbols@ =~= ringing(uinfo, true, R_BAR_SYMBOLS as nat));
                self.queue(symbols);
                assert(self.queue@ =~= ringing(uinfo, true, R_BAR_SYMBOLS as nat));
                match Mapping::from_cp(cpt) {
                    Some(mapping) => {
                        assert(!unmapped(*cpt));
                        self.restart(mapping, TRN2D_FRAMES, Send::Training);
                    },
                    None => {
                        assert(unmapped(*cpt));
                        self.queue.push_back(Codeword::silence());
                        self.script.send = Send::Ri { sent };
                    },
                }
            },
            _ => {
                let symbols = r(ucodes, false, 6);
                assert(symbols@ =~= ringing(uinfo, false, 6));
                self.queue(symbols);
                assert(self.queue@ =~= ringing(uinfo, false, 6));
                self.script.send = Send::Ri {
                    sent: if sent < RI_SYMBOLS - 6 {
                        sent + 6
                    } else {
                        RI_SYMBOLS
                    },
                };
            },
        }
    }

    /// A bit for the encoder.
    fn feed_bit(&mut self, bit: bool)
        requires
            old(self).valid(),
            old(self).feed is Some,
        ensures
            final(self).valid(),
            final(self).feed is Some,
            final(self)@ == (Sending {
                feeding: Some(
                    Feeding {
                        pending: old(self)@.feeding->0.pending.push(bit),
                        ..old(self)@.feeding->0
                    },
                ),
                ..old(self)@
            }),
    {
        match &mut self.feed {
            Some(feed) => feed.push(bit),
            None => {},
        }
    }

    fn frame_bits(&self) -> (bits: usize)
        requires
            self.valid(),
            self.feed is Some,
        ensures
            bits == self@.frame_bits(),
            3 <= bits <= 69,
    {
        match &self.feed {
            Some(feed) => feed.frame_bits(),
            None => 3,
        }
    }

    fn wants_bits(&self) -> (wants: bool)
        requires
            self.valid(),
            self.feed is Some,
        ensures
            wants == self@.wants_bits(),
    {
        match &self.feed {
            Some(feed) => self.script.ahead <= feed.encoder().mapping().lookahead as usize,
            None => false,
        }
    }

    /// Bits of whole data frames, for the encoder.
    fn queue_bits(&mut self, bits: &[bool])
        requires
            old(self).valid(),
            old(self).feed is Some,
            bits.len() <= 200,
            old(self).script.ahead <= 255,
        ensures
            final(self).valid(),
            final(self).feed is Some,
            final(self)@ == old(self)@.with_bits(bits@),
    {
        let ghost before = self@;
        let per_frame = self.frame_bits();
        let frames: usize = (bits.len() + per_frame - 1) / per_frame;
        let ghost all = padded(bits@, per_frame as int);
        proof {
            let n = bits.len() + per_frame - 1;
            assert(0 <= frames <= n && bits.len() <= frames * per_frame <= n) by (nonlinear_arith)
                requires
                    frames == n / per_frame as int,
                    n == bits.len() + per_frame - 1,
                    3 <= per_frame <= 69,
                    bits.len() <= 200,
            ;
        }
        let count: usize = frames * per_frame;
        let mut i: usize = 0;
        assert(before.feeding->0.pending + all.take(0) =~= before.feeding->0.pending);
        while i < count
            invariant
                i <= count,
                count == all.len(),
                all == padded(bits@, per_frame as int),
                bits.len() <= count,
                self.valid(),
                self.feed is Some,
                self@ == (Sending {
                    feeding: Some(
                        Feeding {
                            pending: before.feeding->0.pending + all.take(i as int),
                            ..before.feeding->0
                        },
                    ),
                    ..before
                }),
            decreases count - i,
        {
            let ghost held = self@.feeding->0.pending;
            let bit = i < bits.len() && bits[i];
            self.feed_bit(bit);
            i += 1;
            assert(held.push(bit) =~= before.feeding->0.pending + all.take(i as int));
        }
        assert(all.take(count as int) =~= all);
        self.script.ahead = self.script.ahead + frames;
    }

    /// MP until CP, MP′ until CP′ or E, then Ed.
    #[verifier::spinoff_prover]
    #[verifier::rlimit(40)]
    fn train(&mut self, cp: bool, cp_ack: bool, mp: Mp)
        requires
            old(self).valid(),
            old(self)@.queue == Seq::<Codeword>::empty(),
            old(self).script.send is Training,
        ensures
            final(self).valid(),
            final(self)@ == old(self)@.trains(cp, cp_ack, mp),
    {
        if self.script.left.is_none() && self.wants_bits() {
            if self.script.acked && cp_ack {
                self.script.left = Some(self.script.ahead + ED_FRAMES);
                let count: usize = self.frame_bits() * ED_FRAMES;
                let zeros = falses(count);
                self.queue_bits(zeros.as_slice());
                assert(zeros@ =~= Seq::new(count as nat, |i: int| false));
            } else {
                self.script.acked = self.script.acked || cp;
                let mp = Mp {
                    acknowledge: cp,
                    max_answer_to_call: if self.script.clearing {
                        0
                    } else {
                        mp.max_answer_to_call
                    },
                    ..mp
                };
                let frame = mp.frame();
                proof {
                    law_mp_has_the_lengths_of_its_tables(mp);
                }
                self.queue_bits(frame.as_slice());
            }
        }
        self.script.emitting = true;
    }

    /// Data for the encoder, and ones where there is none.
    fn gather(&mut self)
        requires
            old(self).valid(),
            old(self)@.queue == Seq::<Codeword>::empty(),
            old(self).script.send is Data,
        ensures
            final(self).valid(),
            final(self)@ == old(self)@.gathers(),
    {
        let ghost before = self@;
        let per_frame = self.frame_bits();
        let frames: usize = match &self.feed {
            Some(feed) => {
                let lookahead = feed.encoder().mapping().lookahead as usize;
                if self.script.ahead <= lookahead {
                    lookahead + 1 - self.script.ahead
                } else {
                    0
                }
            },
            None => 0,
        };
        proof {
            assert(0 <= frames * per_frame <= 256 * 69) by (nonlinear_arith)
                requires
                    frames <= 256,
                    3 <= per_frame <= 69,
            ;
        }
        let count: usize = frames * per_frame;
        let ghost bits = Seq::new(count as nat, |i: int| i >= before.data.len() || before.data[i]);
        let mut i: usize = 0;
        assert(before.feeding->0.pending + bits.take(0) =~= before.feeding->0.pending);
        assert(before.data.skip(0) =~= before.data);
        while i < count
            invariant
                i <= count,
                bits == Seq::new(
                    count as nat,
                    |i: int| i >= before.data.len() || before.data[i],
                ),
                self.valid(),
                self.feed is Some,
                self@ == (Sending {
                    feeding: Some(
                        Feeding {
                            pending: before.feeding->0.pending + bits.take(i as int),
                            ..before.feeding->0
                        },
                    ),
                    data: if i <= before.data.len() {
                        before.data.skip(i as int)
                    } else {
                        Seq::<bool>::empty()
                    },
                    ..before
                }),
            decreases count - i,
        {
            let ghost held = self@;
            let bit = match self.data.pop_front() {
                Some(bit) => bit,
                None => true,
            };
            proof {
                if held.data.len() > 0 {
                    assert(self.data@ =~= before.data.skip(i + 1));
                } else if i == before.data.len() {
                    assert(self.data@ =~= Seq::<bool>::empty());
                }
                assert(bit == bits[i as int]);
            }
            self.feed_bit(bit);
            i += 1;
            assert(held.feeding->0.pending.push(bit) =~= before.feeding->0.pending + bits.take(
                i as int,
            ));
        }
        assert(bits.take(count as int) =~= bits);
        proof {
            if count == before.data.len() {
                assert(before.data.skip(count as int) =~= Seq::<bool>::empty());
            }
        }
        self.script.ahead = self.script.ahead + frames;
        self.script.emitting = true;
    }

    /// Takes up what is to be sent next.
    fn prepare(&mut self, upstream: &Upstream, mp: Mp)
        requires
            old(self).valid(),
            upstream.valid(),
            old(self)@.queue == Seq::<Codeword>::empty(),
            !old(self).script.emitting,
        ensures
            final(self).valid(),
            old(self)@.prepares(*upstream, mp, final(self)@),
            final(self)@.queue.len() > 0 || final(self)@.script.emitting,
    {
        let ears = upstream.ears();
        if ears.renegotiations != self.script.renegotiations {
            self.script.renegotiations = ears.renegotiations;
            self.script.renegotiate = self.script.renegotiate || matches!(
                self.script.send,
                Send::Data
            );
        }
        let ghost held = self@;
        match self.script.send {
            Send::Quiet => match upstream.ja() {
                None => {
                    self.queue.push_back(Codeword::silence());
                    assert(self.queue@ =~= seq![Codeword::spec_silence()]);
                },
                Some(ja) => {
                    proof {
                        upstream.lemma_ja_can_be_sent();
                    }
                    self.start(ja);
                },
            },
            Send::Jd => {
                if ears.s {
                    let send = match &self.dil {
                        Some(dil) if !dil.is_empty() => Send::Dil,
                        _ => Send::Ri { sent: 0 },
                    };
                    let zeros = falses(JD_PRIME_BITS);
                    self.sign(zeros.as_slice(), send);
                } else {
                    let frame = self.jd.frame();
                    proof {
                        law_jd_is_72_bits(self.jd);
                    }
                    self.sign(frame.as_slice(), Send::Jd);
                }
            },
            Send::Dil => {
                let over = match &self.dil {
                    Some(dil) => ears.s_bars >= 2 && dil.at_boundary(),
                    None => true,
                };
                if over {
                    self.ring(0, upstream.cpt());
                } else {
                    match &mut self.dil {
                        Some(dil) => {
                            let symbol = dil.next();
                            if let Some(symbol) = symbol {
                                self.queue.push_back(symbol);
                                assert(self.queue@ =~= seq![symbol]);
                            }
                        },
                        None => {},
                    }
                }
            },
            Send::Ri { sent } => self.ring(sent, upstream.cpt()),
            Send::Training => self.train(upstream.cp().is_some(), ears.cp_ack, mp),
            Send::Data => {
                let training = match upstream.cpt() {
                    Some(cpt) if self.script.renegotiate => Mapping::from_cp(cpt),
                    _ => None,
                };
                match training {
                    Some(training) => {
                        assert(!unmapped(upstream.spec_cpt()->0));
                        self.start_renegotiation(training, Ghost(upstream.spec_cpt()->0));
                    },
                    None => {
                        assert(held.script.renegotiate && upstream.spec_cpt() is Some ==> unmapped(
                            upstream.spec_cpt()->0,
                        ));
                        self.gather();
                    },
                }
            },
            Send::Cleared => {
                self.queue.push_back(Codeword::silence());
                assert(self.queue@ =~= seq![Codeword::spec_silence()]);
            },
        }
    }

    /// § 9.6.1: Rd and R̄d, then MP again.
    fn start_renegotiation(&mut self, training: Mapping, Ghost(cpt): Ghost<Cp>)
        requires
            old(self).valid(),
            old(self)@.queue == Seq::<Codeword>::empty(),
            old(self).script.send is Data,
            !old(self).script.emitting,
            training.is_from(cpt),
            training.spec_fits(),
            training.valid(),
        ensures
            final(self).valid(),
            old(self)@.renegotiates(cpt, final(self)@),
            final(self)@.queue.len() > 0,
    {
        let ghost before = self@;
        let ghost data = before.mapping();
        let mut ucodes: [u8; 6] = [0; 6];
        let mapping = match &self.feed {
            Some(feed) => {
                let data = feed.encoder().mapping();
                let mut i: usize = 0;
                while i < 6
                    invariant
                        i <= 6,
                        data == before.mapping(),
                        forall|k: int| 0 <= k < i ==> #[trigger] ucodes[k] == largest(*data, k),
                    decreases 6 - i,
                {
                    let ucode = if data.sets[i].len() > 0 {
                        data.sets[i][0]
                    } else {
                        0
                    };
                    ucodes[i] = ucode;
                    i += 1;
                }
                proof {
                    feed.lemma_mapping_valid();
                }
                Mapping::renegotiating(&training, data)
            },
            None => training,
        };
        assert(is_renegotiating(mapping, cpt, data));
        let rd = r(ucodes, false, RI_SYMBOLS);
        assert(rd@ =~= ringing_in_data(data, false, RI_SYMBOLS as nat));
        self.queue(rd);
        let bar = r(ucodes, true, R_BAR_SYMBOLS);
        assert(bar@ =~= ringing_in_data(data, true, R_BAR_SYMBOLS as nat));
        self.queue(bar);
        self.restart(mapping, 0, Send::Training);
        assert(Seq::new(0, |i: int| true) =~= Seq::<bool>::empty());
        self.script.acked = false;
        self.script.b1_sent = false;
        self.script.renegotiate = false;
        assert(self.queue@ =~= ringing_in_data(data, false, RI_SYMBOLS as nat) + ringing_in_data(
            data,
            true,
            R_BAR_SYMBOLS as nat,
        ));
    }

    /// Starts a rate renegotiation from data mode, or a cleardown, and tells
    /// whether it did.
    pub fn renegotiate(&mut self, clearing: bool) -> (does: bool)
        requires
            old(self).valid(),
        ensures
            final(self).valid(),
            does == (old(self)@.script.send is Data),
            final(self)@ == (if does {
                Sending { script: old(self)@.script.leaving_data(clearing), ..old(self)@ }
            } else {
                old(self)@
            }),
    {
        if !matches!(self.script.send, Send::Data) {
            return false;
        }
        self.script.renegotiate = true;
        self.script.clearing = clearing;
        self.script.b1_sent = false;
        true
    }

    /// Goes on with the data frame under way, and says whether it waits for
    /// a rule.
    #[verifier::spinoff_prover]
    #[verifier::rlimit(40)]
    fn emit(&mut self, cp: &Option<Cp>) -> (waits: bool)
        requires
            old(self).valid(),
            old(self).script.emitting,
        ensures
            final(self).valid(),
            exists|fed: Feeding| #[trigger] old(self)@.emits(*cp, fed, waits, final(self)@),
            !waits ==> final(self)@.queue.len() == 6,
            waits ==> final(self)@.feeding is Some && final(self)@.feeding->0.shaping.pieces.len()
                > 0,
    {
        let idle = matches!(self.script.send, Send::Data);
        let ends = matches!(self.script.send, Send::Training) && matches!(self.script.left, Some(1));
        let ghost before = self@;
        let ghost mut fed: Feeding = before.feeding->0;
        let mut frame: Option<[Codeword; 6]> = None;
        match &mut self.feed {
            Some(feed) => {
                feed.fill(idle);
                proof {
                    fed = feed@;
                }
                frame = feed.frame();
            },
            None => {},
        }
        match frame {
            None => {
                assert(before.emits(*cp, fed, true, self@));
                true
            },
            Some(frame) => {
                let mut i: usize = 0;
                self.script.emitting = false;
                let ghost held = self@;
                assert(held.queue =~= frame@.take(0));
                while i < 6
                    invariant
                        i <= 6,
                        self.valid(),
                        !self.script.emitting,
                        held.queue.len() == 0,
                        self@ == (Sending { queue: frame@.take(i as int), ..held }),
                    decreases 6 - i,
                {
                    self.queue.push_back(frame[i]);
                    i += 1;
                    assert(self.queue@ =~= frame@.take(i as int));
                }
                assert(frame@.take(6) =~= frame@);
                let sent = self.script.sent;
                self.script.b1_sent = self.script.b1_sent || idle && sent + 1 >= B1D_FRAMES;
                if self.script.ahead > 0 {
                    self.script.ahead = self.script.ahead - 1;
                }
                if sent < B1D_FRAMES {
                    self.script.sent = sent + 1;
                }
                if let Some(left) = self.script.left {
                    if left > 0 {
                        self.script.left = Some(left - 1);
                    }
                }
                assert(self@ == before.framed(fed));
                if ends {
                    self.begin_data(cp);
                }
                assert(before.emits(*cp, fed, false, self@));
                false
            },
        }
    }

    /// B1d, if CP has a mapping.
    fn begin_data(&mut self, cp: &Option<Cp>)
        requires
            old(self).valid(),
            !old(self).script.emitting,
        ensures
            final(self).valid(),
            old(self)@.begins_data(*cp, final(self)@),
    {
        if let Some(cp) = cp {
            if self.script.clearing || cp.rate == 0 {
                self.script.send = Send::Cleared;
                return;
            }
            match Mapping::from_cp(cp) {
                Some(mapping) => {
                    assert(!unmapped(*cp));
                    self.script.rate = cp.bit_rate();
                    self.restart(mapping, B1D_FRAMES, Send::Data);
                },
                None => {
                    assert(unmapped(*cp));
                },
            }
        }
    }

    /// The next symbol, from what the receiver has read and the MP of this
    /// end.
    pub fn next(&mut self, upstream: &Upstream, mp: Mp) -> (next: Next)
        requires
            old(self).valid(),
            upstream.valid(),
        ensures
            final(self).valid(),
            exists|ready: Sending, full: Sending|
                #[trigger] old(self)@.gives(*upstream, mp, ready, full, next, final(self)@),
    {
        let ghost before = self@;
        if self.queue.len() == 0 && !self.script.emitting {
            assert(self.queue@ =~= Seq::<Codeword>::empty());
            self.prepare(upstream, mp);
        }
        let ghost ready = self@;
        assert(before.readies(*upstream, mp, ready));
        if self.queue.len() == 0 {
            let waits = self.emit(upstream.cp());
            let ghost full = self@;
            assert(ready.fills_up(upstream.spec_cp(), waits, full));
            if waits {
                assert(before.gives(*upstream, mp, ready, full, Next::Rule, self@));
                return Next::Rule;
            }
        }
        let ghost full = self@;
        assert(ready.fills_up(upstream.spec_cp(), false, full));
        match self.queue.pop_front() {
            Some(symbol) => {
                assert(self.queue@ =~= full.queue.skip(1));
                assert(before.gives(*upstream, mp, ready, full, Next::Symbol(symbol), self@));
                Next::Symbol(symbol)
            },
            None => Next::Rule,
        }
    }

    /// Sends the oldest shaping frame under `rule`.
    pub fn shape(&mut self, rule: Rule)
        requires
            old(self).valid(),
            old(self)@.feeding is Some,
            old(self)@.feeding->0.shaping.pieces.len() > 0,
            rule.fits_state(old(self)@.feeding->0.shaping.state),
        ensures
            final(self).valid(),
            final(self)@ == (Sending {
                feeding: Some(
                    Feeding {
                        shaping: old(self)@.feeding->0.shaping.shaped(rule),
                        ..old(self)@.feeding->0
                    },
                ),
                ..old(self)@
            }),
    {
        match &mut self.feed {
            Some(feed) => feed.shape(rule),
            None => {},
        }
    }
}

/// What this end's receiver asks of the analogue modem's transmitter in MP
/// (table 16), once it knows the rate it has trained for.
pub open spec fn asks(
    trained: Option<u8>,
    max_rate: u8,
    symbol_rate: SymbolRate,
    mp: Mp,
) -> bool {
    let most = match trained {
        Some(trained) => trained,
        None => max_rate,
    };
    &&& mp == Mp {
        max_call_to_answer: 0,
        max_answer_to_call: if most < 14 {
            most
        } else {
            14
        },
        auxiliary: false,
        trellis: Trellis::States16,
        nonlinear: false,
        expanded_shaping: false,
        acknowledge: false,
        rates: mp.rates,
        asymmetric: false,
        precoding: None,
    }
    &&& field_bits(mp.rates as nat, 16) == mask_bits(symbol_rate, 14).update(0, false)
}

/// Table 16: what this end's receiver asks of the analogue modem's
/// transmitter.
#[must_use]
pub fn upstream_mp(trained: Option<u8>, max_rate: u8, symbol_rate: SymbolRate) -> (mp: Mp)
    ensures
        asks(trained, max_rate, symbol_rate, mp),
{
    let most = match trained {
        Some(trained) => trained,
        None => max_rate,
    };
    let all = mask(symbol_rate, 14);
    let rates: u16 = all / 2 * 2;
    proof {
        reveal_with_fuel(field_bits, 2);
        assert(field_bits(rates as nat, 16) =~= mask_bits(symbol_rate, 14).update(0, false));
    }
    Mp {
        max_call_to_answer: 0,
        max_answer_to_call: if most < 14 {
            most
        } else {
            14
        },
        auxiliary: false,
        trellis: Trellis::States16,
        nonlinear: false,
        expanded_shaping: false,
        acknowledge: false,
        rates,
        asymmetric: false,
        precoding: None,
    }
}

/// The rates that CP enables upstream, as MP has them: bit n for (n + 1) ·
/// 2400 bit/s.
pub open spec fn as_in_mp(upstream_rates: u16) -> u16 {
    (upstream_rates % 0x8000 * 2) as u16
}

/// `rate` is the highest that MP and CP both enable, up to the maximum in MP,
/// or 0 if there is none.
pub open spec fn is_upstream_rate(mp: Mp, upstream_rates: u16, rate: u8) -> bool {
    let most = mp.max_answer_to_call;
    is_agreed(seq![most, most, most, most], seq![mp.rates, as_in_mp(upstream_rates)], rate)
}

/// § 9.4.2.4: the highest upstream rate that both ends enable, up to the
/// maximum in MP, in multiples of 2400 bit/s, or 0 if there is none.
#[must_use]
pub fn agree_upstream(mp: &Mp, upstream_rates: u16) -> (rate: u8)
    requires
        mp.max_answer_to_call <= 16,
    ensures
        is_upstream_rate(*mp, upstream_rates, rate),
{
    let most = mp.max_answer_to_call;
    let theirs: u16 = upstream_rates % 0x8000 * 2;
    let maxima = [most, most, most, most];
    let masks = [mp.rates, theirs];
    proof {
        assert(maxima@ =~= seq![most, most, most, most]);
        assert(masks@ =~= seq![mp.rates, theirs]);
    }
    agree(maxima, masks)
}

/// Both ends of the line come to the same upstream rate: the analogue modem
/// from MP, and the digital modem from the rates in CP.
pub proof fn law_both_ends_agree_on_one_upstream_rate(
    outcome: PcmOutcome,
    trained: Option<u8>,
    max_rate: u8,
    mp: Mp,
    own: u16,
    analogue: u8,
    digital: u8,
)
    requires
        asks(trained, max_rate, outcome.upstream.symbol_rate, mp),
        field_bits(own as nat, 16) == mask_bits(outcome.upstream.symbol_rate, 14),
        is_chosen(outcome, mp, analogue),
        is_upstream_rate(mp, (own / 2) as u16, digital),
    ensures
        analogue == digital,
{
    let shifted = as_in_mp((own / 2) as u16);
    let most = mp.max_answer_to_call;
    let theirs = choose|theirs: u16|
        #![trigger field_bits(theirs as nat, 16)]
        field_bits(theirs as nat, 16) == mask_bits(outcome.upstream.symbol_rate, 14) && is_agreed(
            seq![most, most, most, most],
            seq![theirs, mp.rates],
            analogue,
        );
    let up = seq![theirs, mp.rates];
    let down = seq![mp.rates, shifted];
    assert forall|n: int| #[trigger] enabled(up, n) == enabled(down, n) by {
        reveal_with_fuel(field_bits, 2);
        assert(shifted == own / 2 * 2);
        crate::v34::bits::lemma_field_bits_len(mp.rates as nat, 16);
        crate::v34::bits::lemma_field_bits_len((own / 2) as nat, 15);
        if 2 <= n <= 16 {
            assert(field_bits(shifted as nat, 16)[n - 1] == field_bits((own / 2) as nat, 15)[n - 2]);
            assert(field_bits(own as nat, 16)[n - 1] == field_bits((own / 2) as nat, 15)[n - 2]);
        }
    }
    assert forall|n: int| #[trigger] enabled(down, n) == enabled(up, n) by {
        assert(enabled(up, n) == enabled(down, n));
    }
    if analogue < digital {
        assert(enabled(down, digital as int));
        assert(!enabled(up, digital as int));
    }
    if digital < analogue {
        assert(enabled(up, analogue as int));
        assert(!enabled(down, analogue as int));
    }
}

/// The transmitter goes to data mode only at the end of training, and
/// training ends only once MP′ has gone and CP′ or E has come.
#[verifier::spinoff_prover]
#[verifier::rlimit(40)]
pub proof fn law_data_follows_the_acknowledgements(
    sending: Sending,
    upstream: Upstream,
    mp: Mp,
    ready: Sending,
    full: Sending,
    next: Next,
    after: Sending,
)
    requires
        sending.gives(upstream, mp, ready, full, next, after),
    ensures
        after.script.send is Data && !(sending.script.send is Data) ==> sending.script.send
            is Training && ready.script.left == Some(1usize) && upstream.spec_cp() is Some
            && upstream.spec_cp()->0.rate != 0 && !sending.script.clearing,
        ready.script.left is Some && sending.script.left is None ==> sending.script.acked
            && upstream.spec_ears().cp_ack,
        after.script.acked && !sending.script.acked ==> upstream.spec_cp() is Some,
{
}

/// The data frames of one encoder are whole: each takes as many bits of the
/// queue as its mapping carries.
pub proof fn law_frames_take_whole_queues(bits: Seq<bool>, per_frame: int)
    requires
        per_frame > 0,
    ensures
        padded(bits, per_frame).len() == frames_for(bits.len() as int, per_frame) * per_frame,
        bits.len() <= padded(bits, per_frame).len() < bits.len() + per_frame,
        padded(bits, per_frame).take(bits.len() as int) == bits,
{
    let n = bits.len() as int;
    let frames = frames_for(n, per_frame);
    assert(n <= frames * per_frame < n + per_frame) by (nonlinear_arith)
        requires
            per_frame > 0,
            n >= 0,
            frames == (n + per_frame - 1) / per_frame,
    ;
    assert(padded(bits, per_frame).take(n) =~= bits);
}

/// The call is cleared only where a rate sequence of 0 bit/s has come from
/// either end, and then stays so.
#[verifier::spinoff_prover]
#[verifier::rlimit(40)]
pub proof fn law_clears_only_at_0_bit_s(
    sending: Sending,
    upstream: Upstream,
    mp: Mp,
    ready: Sending,
    full: Sending,
    next: Next,
    after: Sending,
)
    requires
        sending.gives(upstream, mp, ready, full, next, after),
    ensures
        after.script.send is Cleared && !(sending.script.send is Cleared) ==> sending.script.clearing
            || upstream.spec_cp() is Some && upstream.spec_cp()->0.rate == 0,
        sending.script.send is Cleared ==> after.script.send is Cleared,
        sending.script.send is Cleared && sending.queue.len() == 0 && !sending.script.emitting
            ==> next == Next::Symbol(Codeword::spec_silence()),
{
}

/// Whether data flows both ways.
#[must_use]
pub fn connected(sender: &Sender, upstream: &Upstream) -> (connected: bool)
    ensures
        connected == (sender@.script.b1_sent && upstream.spec_ears().decoding
            && upstream.spec_ears().skip_bits == 0 && upstream.spec_ears().listen is Data),
{
    sender.script().b1_sent && upstream.in_data()
}

/// Starts a rate renegotiation from data mode, or a cleardown, with a new CP
/// to come.
pub fn renegotiate(sender: &mut Sender, upstream: &mut Upstream, clearing: bool)
    requires
        old(sender).valid(),
        old(upstream).valid(),
    ensures
        final(sender).valid(),
        final(upstream).valid(),
        old(sender)@.script.send is Data ==> {
            &&& final(sender)@ == (Sending {
                script: old(sender)@.script.leaving_data(clearing),
                ..old(sender)@
            })
            &&& old(upstream).forgot_cp(*final(upstream))
        },
        !(old(sender)@.script.send is Data) ==> final(sender)@ == old(sender)@ && *final(upstream)
            == *old(upstream),
{
    if sender.renegotiate(clearing) {
        upstream.expect_renegotiation();
    }
}

/// Starts to decode data mode, once CP has said which rates the analogue
/// modem has, at the rate that both ends come to.
pub fn start_upstream(upstream: &mut Upstream, mp: &Mp) -> (framing: Option<Framing>)
    requires
        old(upstream).valid(),
        mp.max_answer_to_call <= 14,
    ensures
        final(upstream).valid(),
        final(upstream).same_sequences(*old(upstream)),
        match old(upstream).spec_cp() {
            Some(cp) if !old(upstream).spec_ears().decoding => exists|rate: u8|
                {
                    &&& #[trigger] is_upstream_rate(*mp, cp.upstream_rates, rate)
                    &&& match framing {
                        Some(framing) => {
                            &&& rate > 0
                            &&& framing.frames(
                                old(upstream).spec_ears().symbol_rate,
                                (rate * 2400) as u32,
                                false,
                            )
                            &&& final(upstream).spec_ears() == (Ears {
                                decoding: true,
                                skip_bits: (framing.p * framing.b - (framing.p
                                    - framing.r)) as usize,
                                ..old(upstream).spec_ears()
                            })
                            &&& final(upstream).data_history() == Seq::new(23, |i: int| false)
                            &&& final(upstream).known() == old(upstream).known()
                            &&& final(upstream).known_symbols() == old(upstream).known_symbols()
                        },
                        None => {
                            &&& rate == 0 || !in_table_8(
                                old(upstream).spec_ears().symbol_rate,
                                (rate * 2400) as u32,
                            )
                            &&& final(upstream).spec_ears() == old(upstream).spec_ears()
                            &&& final(upstream).same_line(*old(upstream))
                        },
                    }
                },
            _ => framing is None && *final(upstream) == *old(upstream),
        },
{
    if !upstream.awaits_rate() {
        return None;
    }
    let rate = match upstream.cp() {
        Some(cp) => agree_upstream(mp, cp.upstream_rates),
        None => {
            return None;
        },
    };
    if rate == 0 {
        return None;
    }
    upstream.start_data(rate as u32 * 2400)
}

/// What each part of phase 3 leads to. Ja starts Sd for 384 symbols, S̄d for
/// 48 and TRN1d for 2040, with Jd after them. The far S ends Jd by the twelve
/// zeros of Jd′, with DIL after them, or Ri if Ja asked for none. DIL ends at
/// the end of a segment once the far S̄ has come twice.
pub proof fn law_phase_3_goes_from_ja_to_ri(sending: Sending, upstream: Upstream, mp: Mp, next: Sending)
    requires
        sending.goes_on(upstream, mp, next),
    ensures
        ({
            let ears = upstream.spec_ears();
            let uinfo = sending.script.uinfo;
            &&& sending.script.send == Send::Quiet && upstream.spec_ja() is None ==> next.script == sending.script
                && next.queue == seq![Codeword::spec_silence()]
            &&& sending.script.send == Send::Quiet && upstream.spec_ja() is Some ==> {
                &&& next.script.send == Send::Jd
                &&& next.queue.len() == 384 + 48 + 2040
                &&& forall|n: int| 0 <= n < 384 ==> #[trigger] next.queue[n] == sd_symbol(uinfo, false, n)
                &&& forall|n: int| 384 <= n < 432 ==> #[trigger] next.queue[n] == sd_symbol(uinfo, true, n - 384)
                &&& forall|n: int| 432 <= n < 2472 ==> (#[trigger] next.queue[n]).ucode == uinfo
                &&& next.dil is Some && next.dil->0.descriptor().same(upstream.spec_ja()->0)
            }
            &&& sending.script.send == Send::Jd && !ears.s ==> next.script.send == Send::Jd && next.queue == signed(
                uinfo,
                sending.signing,
                jd_frame(sending.jd),
            )
            &&& sending.script.send == Send::Jd && ears.s ==> {
                &&& next.queue == signed(uinfo, sending.signing, Seq::new(12, |i: int| false))
                &&& sending.dil is Some && sending.dil->0.descriptor().training@.len() > 0 ==> next.script.send
                    == Send::Dil
                &&& sending.dil is None || sending.dil->0.descriptor().training@.len() == 0 ==> next.script.send
                    == (Send::Ri { sent: 0 })
            }
            &&& sending.script.send == Send::Dil && (ears.s_bars < 2 || sending.dil->0.place().1 != 0) ==> {
                let at = sending.dil->0.place();
                &&& next.script.send == Send::Dil
                &&& next.queue == seq![sending.dil->0.descriptor().symbol(at.0, at.1)]
                &&& next.dil->0.place() == sending.dil->0.descriptor().following(at)
            }
            &&& sending.script.send == Send::Dil && ears.s_bars >= 2 && sending.dil->0.place().1 == 0
                ==> next.script.send == (Send::Ri { sent: 6 }) && next.queue.len() == 6
            &&& sending.script.send == Send::Cleared ==> next.script == sending.script && next.queue
                == seq![Codeword::spec_silence()]
        }),
{
    if sending.script.send == Send::Quiet && upstream.spec_ja() is Some {
        let a = Seq::new(384, |n: int| sd_symbol(sending.script.uinfo, false, n));
        let b = Seq::new(48, |n: int| sd_symbol(sending.script.uinfo, true, n));
        let c = Seq::new(
            2040,
            |n: int| Codeword { ucode: sending.script.uinfo, positive: trained(sending.signing, n + 1).last },
        );
        assert(next.queue == a + b + c);
        assert forall|n: int| 0 <= n < 384 implies #[trigger] next.queue[n] == sd_symbol(
            sending.script.uinfo,
            false,
            n,
        ) by {
            assert(next.queue[n] == a[n]);
        }
        assert forall|n: int| 384 <= n < 432 implies #[trigger] next.queue[n] == sd_symbol(
            sending.script.uinfo,
            true,
            n - 384,
        ) by {
            assert(next.queue[n] == b[n - 384]);
        }
        assert forall|n: int| 432 <= n < 2472 implies (#[trigger] next.queue[n]).ucode == sending.script.uinfo by {
            assert(next.queue[n] == c[n - 432]);
        }
    }
}

/// Ri goes on six symbols at a time until 192 are sent and CPt has come. R̄
/// of 24 symbols then ends it, with 340 data frames of TRN2d after it in the
/// constellations of CPt.
pub proof fn law_ri_lasts_until_cpt(sending: Sending, upstream: Upstream, mp: Mp, next: Sending, sent: usize)
    requires
        sending.goes_on(upstream, mp, next),
        sending.script.send == (Send::Ri { sent }),
        sent <= 192,
    ensures
        sent < 192 || upstream.spec_cpt() is None ==> {
            &&& next.script.send == (Send::Ri {
                sent: if sent <= 186 {
                    (sent + 6) as usize
                } else {
                    192
                },
            })
            &&& next.queue.len() == 6
            &&& forall|n: int| 0 <= n < 6 ==> #[trigger] next.queue[n] == (Codeword {
                ucode: sending.script.uinfo,
                positive: n < 3,
            })
        },
        sent == 192 && upstream.spec_cpt() is Some ==> {
            &&& next.queue.len() >= 24
            &&& forall|n: int| 0 <= n < 24 ==> #[trigger] next.queue[n] == (Codeword {
                ucode: sending.script.uinfo,
                positive: n % 6 >= 3,
            })
            &&& unmapped(upstream.spec_cpt()->0) ==> next.script.send == (Send::Ri { sent }) && next.queue.len() == 25
            &&& !unmapped(upstream.spec_cpt()->0) ==> {
                &&& next.script.send == Send::Training
                &&& next.script.ahead == 340 && next.script.sent == 0 && next.script.left is None
                &&& next.queue.len() == 24
                &&& next.mapping().is_from(upstream.spec_cpt()->0)
                &&& next.feeding->0.scrambling == Scrambling::fresh(Polynomial::V34Call)
                &&& next.feeding->0.pending == Seq::new((340 * next.mapping().spec_bits()) as nat, |i: int| true)
                &&& !next.feeding->0.shaping.last_sign && next.feeding->0.shaping.out.len() == 0
            }
        },
{
}

/// Training sends MP, and MP′ once CP has come, each filled up with zeros to
/// whole data frames and only where the encoder wants more. Two data frames
/// of zeros follow MP′ once CP′ or E has come, and end it.
pub proof fn law_training_goes_from_mp_to_ed(sending: Sending, upstream: Upstream, mp: Mp, next: Sending)
    requires
        sending.goes_on(upstream, mp, next),
        sending.script.send == Send::Training,
        sending.feeding is Some,
        sending.mapping().spec_bits() > 0,
        sending.script.ahead <= 100,
    ensures
        ({
            let pending = sending.feeding->0.pending;
            let cp = upstream.spec_cp() is Some;
            let ack = upstream.spec_ears().cp_ack;
            let more = sending.script.left is None && sending.script.ahead <= sending.mapping().lookahead;
            let own = Mp {
                acknowledge: cp,
                max_answer_to_call: if sending.script.clearing {
                    0
                } else {
                    mp.max_answer_to_call
                },
                ..mp
            };
            &&& next.script.emitting
            &&& next.script.send == Send::Training
            &&& !more ==> next.feeding == sending.feeding && next.script.left == sending.script.left
                && next.script.acked == sending.script.acked
            &&& more && sending.script.acked && ack ==> {
                &&& next.script.left == Some((sending.script.ahead + 2) as usize)
                &&& next.script.ahead == sending.script.ahead + 2
                &&& next.feeding->0.pending == pending + Seq::new(
                    (2 * sending.mapping().spec_bits()) as nat,
                    |i: int| false,
                )
            }
            &&& more && !(sending.script.acked && ack) ==> {
                &&& next.script.left is None
                &&& next.script.acked == (sending.script.acked || cp)
                &&& next.feeding->0.pending.len() >= pending.len() + mp_frame(own).len()
                &&& next.feeding->0.pending.subrange(pending.len() as int, (pending.len() + mp_frame(own).len()) as int)
                    == mp_frame(own)
            }
        }),
{
    let d = sending.mapping().spec_bits();
    let pending = sending.feeding->0.pending;
    let cp = upstream.spec_cp() is Some;
    let ack = upstream.spec_ears().cp_ack;
    if sending.script.left is None && sending.wants_bits() {
        if sending.script.acked && ack {
            let zeros = Seq::new((2 * d) as nat, |i: int| false);
            assert(frames_for(2 * d, d) == 2) by (nonlinear_arith)
                requires
                    d > 0,
                    frames_for(2 * d, d) == (2 * d + d - 1) / d,
            ;
            assert(padded(zeros, d) =~= zeros);
        } else {
            let own = sending.script.own_mp(mp, cp);
            let frame = mp_frame(own);
            law_frames_take_whole_queues(frame, d);
            let whole = pending + padded(frame, d);
            assert(whole.subrange(pending.len() as int, (pending.len() + frame.len()) as int) =~= padded(frame, d).take(
                frame.len() as int,
            ));
        }
    }
}

/// The last data frame of training leads to data: 48 data frames of ones in
/// the constellations of CP, at 8000/6 bit/s for each bit of a data frame, or
/// to the end of the call where either end asks for 0 bit/s.
pub proof fn law_training_ends_in_data(sending: Sending, cp: Option<Cp>, next: Sending)
    requires
        sending.begins_data(cp, next),
    ensures
        cp is None ==> next == sending,
        cp is Some && (sending.script.clearing || cp->0.rate == 0) ==> next.script.send == Send::Cleared,
        cp is Some && !sending.script.clearing && cp->0.rate != 0 && unmapped(cp->0) ==> next == sending,
        cp is Some && !sending.script.clearing && cp->0.rate != 0 && !unmapped(cp->0) ==> {
            &&& next.script.send == Send::Data
            &&& next.script.ahead == 48 && next.script.sent == 0 && next.script.left is None
            &&& next.mapping().is_from(cp->0)
            &&& next.feeding->0.pending == Seq::new((48 * next.mapping().spec_bits()) as nat, |i: int| true)
            &&& next.feeding->0.scrambling == Scrambling::fresh(Polynomial::V34Call)
            &&& next.script.rate == ((cp->0.spec_frame_bits() * 8000 + 3) / 6) as u32
        },
{
}

/// Data frames are counted as they go: B1d is sent after 48 of them in data
/// mode, and the last of training is the one with none left.
pub proof fn law_each_data_frame_counts(script: Script, sending: Sending, fed: Feeding, waits: bool, next: Sending, cp: Option<Cp>)
    requires
        sending.emits(cp, fed, waits, next),
        script.sent <= 48,
    ensures
        script.ahead > 0 ==> script.sent_one().ahead == script.ahead - 1,
        script.ahead == 0 ==> script.sent_one().ahead == 0,
        script.sent < 48 ==> script.sent_one().sent == script.sent + 1,
        script.sent == 48 ==> script.sent_one().sent == 48,
        script.left is None ==> script.sent_one().left is None,
        script.left is Some && script.left->0 > 0 ==> script.sent_one().left == Some((script.left->0 - 1) as usize),
        script.sent_one().b1_sent == (script.b1_sent || script.send == Send::Data && script.sent >= 47),
        !script.sent_one().emitting,
        script.sent_one().send == script.send && script.sent_one().rate == script.rate,
        waits <==> fed.shaping.out.len() < 6,
        waits ==> next.queue == sending.queue && next.script == sending.script,
        !waits && !(sending.script.send == Send::Training && sending.script.left == Some(1usize)) ==> next.queue
            == fed.shaping.out.take(6) && next.feeding->0.shaping.out == fed.shaping.out.skip(6) && next.script
            == sending.script.sent_one(),
        !waits && sending.script.send == Send::Training && sending.script.left == Some(1usize) && cp is Some
            && !sending.script.clearing && cp->0.rate != 0 && !unmapped(cp->0) ==> next.script.send == Send::Data
            && next.queue == fed.shaping.out.take(6),
{
}

/// Data is taken in order into whole data frames, one more than the look-ahead
/// of the shaper, with ones past its end. A renegotiation sends 192 symbols
/// of Rd and 24 of R̄d on the largest Ucode of each interval, and MP again.
pub proof fn law_data_goes_on_until_a_renegotiation(sending: Sending, upstream: Upstream, mp: Mp, next: Sending, n: int)
    requires
        sending.goes_on(upstream, mp, next),
        sending.script.send == Send::Data,
        sending.feeding is Some,
        sending.mapping().spec_bits() > 0,
        sending.script.ahead <= 100,
        n >= 0,
    ensures
        ({
            let wanted = if sending.script.ahead <= sending.mapping().lookahead {
                sending.mapping().lookahead + 1 - sending.script.ahead
            } else {
                0
            };
            let count = wanted * sending.mapping().spec_bits();
            let pending = sending.feeding->0.pending;
            let starts = sending.script.renegotiate && upstream.spec_cpt() is Some && !unmapped(
                upstream.spec_cpt()->0,
            );
            &&& !starts ==> {
                &&& next.script.send == Send::Data && next.script.emitting
                &&& next.script.ahead == sending.script.ahead + wanted
                &&& next.feeding->0.pending.len() == pending.len() + count
                &&& n < pending.len() ==> next.feeding->0.pending[n] == pending[n]
                &&& n < count && n < sending.data.len() ==> next.feeding->0.pending[pending.len() + n]
                    == sending.data[n]
                &&& n < count && n >= sending.data.len() ==> next.feeding->0.pending[pending.len() + n]
                &&& count <= sending.data.len() ==> next.data == sending.data.skip(count)
                &&& count > sending.data.len() ==> next.data.len() == 0
            }
            &&& starts ==> {
                let sets = sending.mapping().sets@;
                &&& next.script.send == Send::Training
                &&& next.script.ahead == 0 && next.script.sent == 0 && next.script.left is None
                &&& !next.script.acked && !next.script.b1_sent && !next.script.renegotiate
                &&& next.queue.len() == 192 + 24
                &&& n < 192 ==> next.queue[n].positive == (n % 6 < 3)
                &&& 192 <= n < 216 ==> next.queue[n].positive == (n % 6 >= 3)
                &&& n < 216 && sets[n % 6]@.len() > 0 ==> next.queue[n].ucode == sets[n % 6]@[0]
                &&& next.feeding->0.pending.len() == 0
                &&& next.data == sending.data
            }
        }),
{
    let d = sending.mapping().spec_bits();
    let wanted = sending.wanted();
    assert(wanted * d >= 0) by (nonlinear_arith)
        requires
            wanted >= 0,
            d > 0,
    ;
    if 192 <= n < 216 {
        assert((n - 192) % 6 == n % 6);
    }
}

/// The S̄ of the analogue modem, counted, calls for a renegotiation in data
/// mode, and nowhere else.
pub proof fn law_a_far_s_bar_renegotiates(script: Script, renegotiations: u32)
    ensures
        script.responding(renegotiations).renegotiations == renegotiations,
        renegotiations != script.renegotiations && script.send == Send::Data ==> script.responding(
            renegotiations,
        ).renegotiate,
        renegotiations == script.renegotiations || script.send != Send::Data ==> script.responding(
            renegotiations,
        ).renegotiate == script.renegotiate,
        script.responding(renegotiations).send == script.send,
{
}

/// Upstream, MP asks for the rate that was trained for, or else the most
/// there is, up to 33600 bit/s, with every rate of the symbol rate but 2400
/// bit/s, and a trellis of 16 states. The rate that CP and MP come to is
/// enabled in both, n · 2400 bit/s being bit n − 2 of CP, and none above it
/// up to the maximum is.
pub proof fn law_the_upstream_rate_is_the_most_of_both(
    trained: Option<u8>,
    max_rate: u8,
    symbol_rate: SymbolRate,
    mp: Mp,
    upstream_rates: u16,
    rate: u8,
    n: int,
)
    requires
        asks(trained, max_rate, symbol_rate, mp),
        is_upstream_rate(mp, upstream_rates, rate),
    ensures
        trained is Some && trained->0 <= 14 ==> mp.max_answer_to_call == trained->0,
        trained is None && max_rate <= 14 ==> mp.max_answer_to_call == max_rate,
        mp.max_answer_to_call <= 14 && mp.max_call_to_answer == 0,
        mp.trellis == Trellis::States16 && !mp.nonlinear && !mp.expanded_shaping && !mp.acknowledge
            && mp.precoding is None && !mp.auxiliary,
        !field_bits(mp.rates as nat, 16)[0],
        1 <= n < 16 ==> field_bits(mp.rates as nat, 16)[n] == mask_bits(symbol_rate, 14)[n],
        rate <= mp.max_answer_to_call,
        rate > 1 ==> field_bits(mp.rates as nat, 16)[rate - 1] && field_bits(upstream_rates as nat, 16)[rate - 2],
        rate < n <= mp.max_answer_to_call && n >= 2 ==> !(field_bits(mp.rates as nat, 16)[n - 1] && field_bits(
            upstream_rates as nat,
            16,
        )[n - 2]),
{
    let both = seq![mp.rates, as_in_mp(upstream_rates)];
    crate::v34::bits::lemma_field_bits_len(mp.rates as nat, 16);
    crate::v34::bits::lemma_field_bits_len(upstream_rates as nat, 16);
    crate::v34::bits::lemma_field_bits_len(as_in_mp(upstream_rates) as nat, 16);
    assert(mask_bits(symbol_rate, 14).len() == 16);
    assert forall|k: int| 2 <= k <= 16 implies field_bits(as_in_mp(upstream_rates) as nat, 16)[k - 1]
        == #[trigger] field_bits(upstream_rates as nat, 16)[k - 2] by {
        let whole = upstream_rates as nat;
        let low = (upstream_rates % 0x8000) as nat;
        let i = (k - 2) as nat;
        crate::v34::bits::law_a_field_shows_its_digits(as_in_mp(upstream_rates) as nat, 16, (k - 1) as nat);
        crate::v34::bits::law_a_field_shows_its_digits(whole, 16, i);
        vstd::arithmetic::power2::lemma2_to64();
        vstd::arithmetic::power2::lemma_pow2_pos(i);
        vstd::arithmetic::power2::lemma_pow2_unfold((k - 1) as nat);
        let p = vstd::arithmetic::power2::pow2(i) as int;
        assert((low * 2) as int / (2 * p) == low as int / p) by {
            vstd::arithmetic::div_mod::lemma_div_denominator((low * 2) as int, 2, p);
        }
        lemma_low_digits(whole, low, i);
    }
    assert(enabled(both, rate as int) || rate == 0);
    assert(enabled(both, n) ==> n <= rate || n > mp.max_answer_to_call);
}

/// The digits below the sixteenth are those of the number without it.
proof fn lemma_low_digits(whole: nat, low: nat, i: nat)
    requires
        i < 15,
        low == whole % 0x8000,
    ensures
        whole / vstd::arithmetic::power2::pow2(i) % 2 == low / vstd::arithmetic::power2::pow2(i) % 2,
{
    vstd::arithmetic::power2::lemma2_to64();
    let p = vstd::arithmetic::power2::pow2(i) as int;
    let rest = vstd::arithmetic::power2::pow2((14 - i) as nat) as int;
    vstd::arithmetic::power2::lemma_pow2_pos(i);
    vstd::arithmetic::power2::lemma_pow2_adds(i, (14 - i) as nat);
    let high = whole as int / 0x8000;
    let q = low as int / p;
    let r = low as int % p;
    vstd::arithmetic::div_mod::lemma_fundamental_div_mod(low as int, p);
    assert(whole == high * 0x8000 + low);
    assert(p * rest == 0x4000);
    assert(whole == (high * 2 * rest + q) * p + r) by (nonlinear_arith)
        requires
            whole == high * 0x8000 + low,
            low == p * q + r,
            p * rest == 0x4000,
    ;
    vstd::arithmetic::div_mod::lemma_fundamental_div_mod_converse(whole as int, p, high * 2 * rest + q, r);
    let k = high * rest;
    assert(high * 2 * rest == 2 * k) by (nonlinear_arith)
        requires
            k == high * rest,
    ;
}

/// What Jd asks for: all rates, three data frames of lookahead, and the same
/// points before and in a renegotiation.
pub proof fn law_what_jd_asks_for(sixteen_points: bool)
    ensures
        spec_jd(sixteen_points).rates == 0x3F_FFFF,
        spec_jd(sixteen_points).lookahead == 3,
        spec_jd(sixteen_points).sixteen_points == sixteen_points,
        spec_jd(sixteen_points).sixteen_points_renegotiating == sixteen_points,
{
}

/// The encoder wants bits while no whole data frame is there to send, and
/// with spectral shaping as long as it does not look ahead far enough.
pub proof fn law_shaping_looks_ahead(shaping: Shaping)
    ensures
        shaping.out.len() >= 6 ==> !shaping.wants_bits(),
        shaping.out.len() < 6 && shaping.mapping.redundancy == 0 ==> shaping.wants_bits(),
        shaping.out.len() < 6 && shaping.mapping.redundancy > 0 ==> (shaping.wants_bits() <==> shaping.pieces.len()
            <= shaping.mapping.lookahead),
{
}

/// Training in a renegotiation has the constellations and K of CPt and the
/// spectral shaping of the data before it.
pub proof fn law_a_renegotiation_keeps_the_shaping(mapping: Mapping, cpt: Cp, data: Mapping)
    requires
        is_renegotiating(mapping, cpt, data),
    ensures
        mapping.redundancy == data.redundancy,
        mapping.lookahead == data.lookahead,
        mapping.filter == data.filter,
        exists|training: Mapping| #[trigger]
            training.is_from(cpt) && mapping.modulus_bits == training.modulus_bits && mapping.law == training.law
                && mapping.sets@[0]@ == training.sets@[0]@ && mapping.sets@[1]@ == training.sets@[1]@ && mapping.sets@[2]@
                == training.sets@[2]@ && mapping.sets@[3]@ == training.sets@[3]@ && mapping.sets@[4]@
                == training.sets@[4]@ && mapping.sets@[5]@ == training.sets@[5]@,
{
}

/// What leads out of data mode asks for it, ends the call where it is to, and
/// counts data as not begun, with nothing else changed.
pub proof fn law_leaving_data_is_asked_for(script: Script, clearing: bool)
    ensures
        script.leaving_data(clearing).renegotiate,
        script.leaving_data(clearing).clearing == clearing,
        !script.leaving_data(clearing).b1_sent,
        script.leaving_data(clearing).send == script.send,
{
}

} // verus!

//! What the analogue modem hears from the digital modem, from phase 3 on
//! (§ 9.3.2, § 9.4.2). The path to it is digital, so each sample is one
//! symbol.

use crate::pump::CLOCK_LIMIT;
use crate::scrambler::{history_after, Descrambler, Polynomial};
use crate::v34::bits::crc_of;
use crate::v34::mp::{found_at, window_after, Deframer as MpDeframer, Mp};
use crate::v34::words::word_bits;
use crate::v90::dil::{Descriptor, Dil};
use crate::v90::encoder::{Decoder, Mapping};
use crate::v90::frames::{deframing_after, gives, incomplete, words_with, Deframer, Deframing};
use crate::v90::jd::{jd_of, Jd};
use crate::v90::training::{SignReader, SD_BAR_SYMBOLS, TRN1D_SYMBOLS};
use crate::v90::Codeword;
use vstd::prelude::*;

verus! {

/// Frames of Sd in a row before the frame alignment counts.
pub const SD_FRAMES: usize = 8;

/// Frames of Ri before R̄i counts.
pub const RI_FRAMES: usize = 4;

pub const R_BAR_SYMBOLS: usize = 24;

/// Jd's fill and Jd′.
pub const JD_PRIME_ZEROS: usize = 16;

pub const ED_FRAMES: usize = 2;

pub const B1D_FRAMES: usize = 48;

/// What the receiver has heard that the transmitter acts on.
#[derive(Debug, Clone, Copy, PartialEq, Eq)]
pub struct Events {
    /// The Sd to S̄d transition, which ends Ja.
    pub sd: bool,
    pub jd: Option<Jd>,
    /// Jd′, which ends S.
    pub jd_prime: bool,
    /// DIL has shown the levels.
    pub levels: bool,
    /// The Ri to R̄i transition, which ends CPt.
    pub r_bar: bool,
    pub mp: Option<Mp>,
    /// MP′ or Ed, which ends CP′.
    pub mp_ack: bool,
    /// Rate renegotiations the digital modem has started or answered, by
    /// the R̄d of each.
    pub renegotiations: u32,
}

#[derive(Debug, Clone, Copy, PartialEq, Eq, Structural)]
pub enum Stage {
    /// Frames of Sd in a row, as far as they count, and where the last ended.
    Sd { run: usize, last: Option<usize> },
    Trn { from: usize },
    Jd,
    Dil { from: usize },
    /// Frames of Ri, as far as they count.
    Ri { frames: usize },
    Training { from: usize },
    Data,
}

/// Where the receiver is.
#[derive(Debug, Clone, Copy, PartialEq, Eq)]
pub struct Course {
    pub stage: Stage,
    /// The samples heard.
    pub count: usize,
    /// Where a data frame began.
    pub origin: usize,
    /// The zeros since Jd.
    pub zeros: Option<usize>,
    /// The symbols of one pass of DIL.
    pub dil_symbols: usize,
    /// The samples of a data frame that have come.
    pub collected: usize,
    /// Data frames of zeros in a row, as far as they count.
    pub zero_frames: usize,
    /// Frames of B1d still to come.
    pub skip_frames: usize,
    pub events: Events,
}

impl Course {
    pub open spec fn valid(self) -> bool {
        &&& self.count <= CLOCK_LIMIT
        &&& self.origin <= self.count
        &&& self.dil_symbols <= CLOCK_LIMIT
        &&& self.collected < 6
        &&& self.zero_frames <= ED_FRAMES + 1
        &&& match self.zeros {
            Some(zeros) => zeros < JD_PRIME_ZEROS || !(self.stage is Sd || self.stage is Trn
                || self.stage is Jd),
            None => true,
        }
        &&& match self.stage {
            Stage::Sd { run, last } => run <= SD_FRAMES && match last {
                Some(last) => 5 <= last <= self.count,
                None => run == 0,
            },
            Stage::Trn { from } => from <= CLOCK_LIMIT + SD_BAR_SYMBOLS,
            Stage::Dil { from } => from <= CLOCK_LIMIT + 1,
            Stage::Ri { frames } => frames <= RI_FRAMES,
            Stage::Training { from } => from <= CLOCK_LIMIT + R_BAR_SYMBOLS,
            _ => true,
        }
    }

    pub open spec fn fresh(dil_symbols: usize) -> Self {
        Self {
            stage: Stage::Sd { run: 0, last: None },
            count: 0,
            origin: 0,
            zeros: None,
            dil_symbols,
            collected: 0,
            zero_frames: 0,
            skip_frames: 0,
            events: Events {
                sd: false,
                jd: None,
                jd_prime: false,
                levels: false,
                r_bar: false,
                mp: None,
                mp_ack: false,
                renegotiations: 0,
            },
        }
    }

    /// Whether the sample at `count` ends a data frame.
    pub open spec fn spec_at_frame_end(self) -> bool {
        (self.count + 1 - self.origin) % 6 == 0
    }

    /// The last six samples look like a frame of Sd, or of S̄d.
    pub open spec fn after_sd(self, like: Option<bool>) -> Self {
        match (self.stage, like) {
            (Stage::Sd { run, last }, Some(positive)) => {
                let n = self.count as int;
                let follows = last is Some && last->0 + 6 == n;
                if positive {
                    Self {
                        stage: Stage::Sd {
                            run: if !follows {
                                1
                            } else if run < SD_FRAMES {
                                (run + 1) as usize
                            } else {
                                SD_FRAMES
                            },
                            last: Some(self.count),
                        },
                        ..self
                    }
                } else if follows && run >= SD_FRAMES {
                    Self {
                        origin: (n + 1 - 6) as usize,
                        events: Events { sd: true, ..self.events },
                        stage: Stage::Trn { from: (n + 1 - 6 + SD_BAR_SYMBOLS) as usize },
                        ..self
                    }
                } else {
                    self
                }
            },
            _ => self,
        }
    }

    /// The last symbol of TRN1d leads to Jd.
    pub open spec fn after_trn(self) -> Self {
        match self.stage {
            Stage::Trn { from } => if self.count + 1 == from + TRN1D_SYMBOLS {
                Self { stage: Stage::Jd, ..self }
            } else {
                self
            },
            _ => self,
        }
    }

    /// A bit of Jd, or of Jd′ after it.
    pub open spec fn after_jd(self, bit: bool, jd: Option<Jd>, empty: bool) -> Self {
        match jd {
            Some(jd) => Self {
                events: Events { jd: Some(jd), ..self.events },
                zeros: Some(0),
                ..self
            },
            None => {
                let zeros = match self.zeros {
                    Some(zeros) => if bit {
                        None
                    } else {
                        Some((zeros + 1) as usize)
                    },
                    None => None,
                };
                if zeros == Some(JD_PRIME_ZEROS) {
                    Self {
                        zeros,
                        events: Events { jd_prime: true, ..self.events },
                        stage: if empty {
                            Stage::Ri { frames: 0 }
                        } else {
                            Stage::Dil { from: (self.count + 1) as usize }
                        },
                        ..self
                    }
                } else {
                    Self { zeros, ..self }
                }
            },
        }
    }

    /// The last symbol of a pass of DIL shows the levels.
    pub open spec fn after_dil(self) -> Self {
        match self.stage {
            Stage::Dil { from } => if self.count + 1 == from + self.dil_symbols {
                Self {
                    events: Events { levels: true, ..self.events },
                    stage: Stage::Ri { frames: 0 },
                    ..self
                }
            } else {
                self
            },
            _ => self,
        }
    }

    /// The last data frame looks like R, or R̄.
    pub open spec fn after_ri(self, like: Option<bool>) -> Self {
        match self.stage {
            Stage::Ri { frames } => if !self.spec_at_frame_end() {
                self
            } else {
                match like {
                    Some(true) => Self {
                        stage: Stage::Ri {
                            frames: if frames < RI_FRAMES {
                                (frames + 1) as usize
                            } else {
                                RI_FRAMES
                            },
                        },
                        ..self
                    },
                    Some(false) => if frames >= RI_FRAMES {
                        Self {
                            events: Events { r_bar: true, ..self.events },
                            stage: Stage::Training {
                                from: (self.count + 1 - 6 + R_BAR_SYMBOLS) as usize,
                            },
                            ..self
                        }
                    } else {
                        self
                    },
                    None => self,
                }
            },
            _ => self,
        }
    }

    /// Without the MP of data mode.
    pub open spec fn without_mp(self) -> Self {
        Self {
            events: Events { mp: None, mp_ack: false, ..self.events },
            zero_frames: 0,
            ..self
        }
    }

    /// R̄d starts MP, at any sample so that it undoes a slip.
    pub open spec fn after_r_bar(self) -> Self {
        let origin = (self.count + 1 - 6) as usize;
        Self {
            events: Events {
                mp: None,
                mp_ack: false,
                renegotiations: if self.events.renegotiations < u32::MAX {
                    (self.events.renegotiations + 1) as u32
                } else {
                    0
                },
                ..self.events
            },
            zero_frames: 0,
            origin,
            collected: 0,
            stage: Stage::Training { from: (origin + R_BAR_SYMBOLS) as usize },
            ..self
        }
    }

    /// A bit of MP.
    pub open spec fn after_mp(self, mp: Option<Mp>) -> Self {
        match mp {
            Some(mp) => Self {
                events: Events {
                    mp_ack: self.events.mp_ack || mp.acknowledge,
                    mp: Some(mp),
                    ..self.events
                },
                ..self
            },
            None => self,
        }
    }

    /// The end of a data frame in training. Ed, after MP, leads to data.
    pub open spec fn after_frame(self, zero: bool) -> Self {
        let zero_frames = if !zero {
            0
        } else if self.zero_frames <= ED_FRAMES {
            self.zero_frames + 1
        } else {
            self.zero_frames as int
        };
        let counted = Self { zero_frames: zero_frames as usize, ..self };
        if self.events.mp is Some && zero_frames == ED_FRAMES {
            Self {
                events: Events { mp_ack: true, ..self.events },
                stage: Stage::Data,
                skip_frames: B1D_FRAMES,
                ..counted
            }
        } else {
            counted
        }
    }

    fn sd(&mut self, like: Option<bool>)
        requires
            old(self).valid(),
            like is Some ==> old(self).count >= 5,
        ensures
            final(self).valid(),
            *final(self) == old(self).after_sd(like),
    {
        let positive = match like {
            Some(positive) => positive,
            None => {
                return;
            },
        };
        if let Stage::Sd { run, last } = self.stage {
            let n = self.count;
            let follows = match last {
                Some(last) => last + 6 == n,
                None => false,
            };
            if positive {
                let run = if !follows {
                    1
                } else if run < SD_FRAMES {
                    run + 1
                } else {
                    SD_FRAMES
                };
                self.stage = Stage::Sd { run, last: Some(n) };
            } else if follows && run >= SD_FRAMES {
                self.origin = n + 1 - 6;
                self.events.sd = true;
                self.stage = Stage::Trn { from: n + 1 - 6 + SD_BAR_SYMBOLS };
            }
        }
    }

    fn ri(&mut self, like: Option<bool>)
        requires
            old(self).valid(),
            like is Some ==> old(self).count >= 5,
        ensures
            final(self).valid(),
            *final(self) == old(self).after_ri(like),
    {
        if let Stage::Ri { frames } = self.stage {
            if (self.count + 1 - self.origin) % 6 != 0 {
                return;
            }
            match like {
                Some(true) => {
                    let frames = if frames < RI_FRAMES {
                        frames + 1
                    } else {
                        RI_FRAMES
                    };
                    self.stage = Stage::Ri { frames };
                },
                Some(false) => {
                    if frames >= RI_FRAMES {
                        self.events.r_bar = true;
                        self.stage = Stage::Training { from: self.count + 1 - 6 + R_BAR_SYMBOLS };
                    }
                },
                None => {},
            }
        }
    }
}

/// The alignment counts only after eight frames of Sd, by the first of S̄d.
pub proof fn law_sd_aligns_the_frames(course: Course, like: Option<bool>)
    requires
        course.valid(),
        course.stage is Sd,
    ensures
        course.after_sd(like).stage is Trn ==> like == Some(false) && course.stage->run
            >= SD_FRAMES && course.after_sd(like).origin == course.count + 1 - 6
            && course.after_sd(like).events.sd,
{
}

/// Data follows MP, by Ed.
pub proof fn law_data_follows_mp_and_ed(course: Course, zero: bool)
    requires
        course.stage is Training,
    ensures
        course.after_frame(zero).stage is Data ==> course.events.mp is Some && zero
            && course.after_frame(zero).events.mp_ack,
{
}

/// Both mappings map alike.
pub open spec fn maps_alike(mapping: Mapping, other: Mapping) -> bool {
    &&& forall|i: int| 0 <= i < 6 ==> (#[trigger] mapping.sets@[i])@ == other.sets@[i]@
    &&& mapping.modulus_bits == other.modulus_bits
    &&& mapping.redundancy == other.redundancy
    &&& mapping.lookahead == other.lookahead
    &&& mapping.filter == other.filter
    &&& mapping.law == other.law
}

fn copied(mapping: &Mapping) -> (copy: Mapping)
    ensures
        maps_alike(copy, *mapping),
{
    Mapping::renegotiating(mapping, mapping)
}

/// What a sample leads to.
#[derive(Debug, Clone, Copy, PartialEq, Eq)]
pub enum Does {
    Nothing,
    /// A symbol of TRN1d, which the gain is measured by, and whether it is
    /// the last.
    Gain { last: bool },
    /// A symbol of DIL in a data frame interval, and whether it is the last
    /// of a pass.
    Dil { interval: usize, expected: Codeword, last: bool },
    /// The last of the six samples of a data frame, to be decided on.
    Frame,
}

/// What a sample sounds like.
#[derive(Debug, Clone, Copy, PartialEq, Eq, Structural)]
pub struct Sample {
    pub positive: bool,
    /// The last six samples are a frame of Sd, or of S̄d when false.
    pub sd: Option<bool>,
    /// The last six samples are a frame of R, or of R̄ when false.
    pub r: Option<bool>,
}

/// Hears the digital modem from its phase 3 on.
#[derive(Debug)]
pub struct Downstream {
    course: Course,
    dil: Dil,
    signs: SignReader,
    jd: Deframer<Jd>,
    training: Option<Mapping>,
    data: Option<Mapping>,
    /// The mapping that TRN2d or MP will come with.
    next: Option<Mapping>,
    /// Frames of Rd in a row, as far as they count, at each sample of the
    /// data frame they might start at.
    rd_frames: [usize; 6],
    decoder: Option<Decoder>,
    descrambler: Descrambler,
    mp: MpDeframer,
}

impl Downstream {
    pub closed spec fn spec_course(self) -> Course {
        self.course
    }

    pub closed spec fn descriptor(self) -> Descriptor {
        self.dil.descriptor()
    }

    /// Where in DIL the next symbol is.
    pub closed spec fn dil_place(self) -> (int, int) {
        self.dil.place()
    }

    /// The last sign of TRN1d, Jd and Jd′.
    pub closed spec fn last_sign(self) -> bool {
        self.signs.last()
    }

    /// The bits of Jd on the line, newest first.
    pub closed spec fn sign_history(self) -> Seq<bool> {
        self.signs.history()
    }

    pub closed spec fn jd_held(self) -> Deframing {
        self.jd.held()
    }

    pub closed spec fn rd_frames(self) -> Seq<usize> {
        self.rd_frames@
    }

    pub closed spec fn training(self) -> Option<Mapping> {
        self.training
    }

    pub closed spec fn data(self) -> Option<Mapping> {
        self.data
    }

    pub closed spec fn next(self) -> Option<Mapping> {
        self.next
    }

    pub closed spec fn decoder(self) -> Option<Decoder> {
        self.decoder
    }

    /// The bits on the line, newest first.
    pub closed spec fn history(self) -> Seq<bool> {
        self.descrambler.history()
    }

    pub closed spec fn mp_window(self) -> Seq<bool> {
        self.mp.window()
    }

    pub closed spec fn valid(self) -> bool {
        &&& self.course.valid()
        &&& self.dil.valid()
        &&& self.signs.valid()
        &&& self.jd.valid()
        &&& self.descrambler.valid()
        &&& self.descrambler.polynomial() == Polynomial::V34Call
        &&& self.mp.valid()
        &&& forall|i: int| 0 <= i < 6 ==> #[trigger] self.rd_frames@[i] <= RI_FRAMES
        &&& match self.decoder {
            Some(decoder) => decoder.valid(),
            None => true,
        }
        &&& match self.training {
            Some(mapping) => mapping.valid(),
            None => true,
        }
        &&& match self.data {
            Some(mapping) => mapping.valid(),
            None => true,
        }
        &&& match self.next {
            Some(mapping) => mapping.valid(),
            None => true,
        }
    }

    /// All but the course is as it was.
    pub closed spec fn same_but_course(self, other: Self) -> bool {
        &&& self.dil == other.dil
        &&& self.signs == other.signs
        &&& self.jd == other.jd
        &&& self.training == other.training
        &&& self.data == other.data
        &&& self.next == other.next
        &&& self.rd_frames == other.rd_frames
        &&& self.decoder == other.decoder
        &&& self.descrambler == other.descrambler
        &&& self.mp == other.mp
    }

    /// What DIL and the signs have shown is as it was.
    pub open spec fn knows_the_same(self, other: Self) -> bool {
        &&& self.descriptor() == other.descriptor()
        &&& self.dil_place() == other.dil_place()
        &&& self.last_sign() == other.last_sign()
        &&& self.sign_history() == other.sign_history()
        &&& self.jd_held() == other.jd_held()
    }

    /// It has heard nothing yet.
    pub open spec fn starts(self, descriptor: Descriptor) -> bool {
        &&& self.descriptor() == descriptor
        &&& self.dil_place() == (0int, 0int)
        &&& self.spec_course() == Course::fresh(pass_of(descriptor) as usize)
        &&& !self.last_sign()
        &&& self.sign_history() == Seq::new(23, |i: int| false)
        &&& self.jd_held() == Deframing { ones: 0, block: seq![], words: None }
        &&& self.rd_frames() == seq![0usize, 0, 0, 0, 0, 0]
        &&& self.training() is None
        &&& self.data() is None
        &&& self.next() is None
        &&& self.decoder() is None
        &&& self.history() == Seq::new(23, |i: int| false)
        &&& self.mp_window() == Seq::<bool>::empty()
    }

    /// The next symbol of a DIL of Ucodes is one of them.
    pub proof fn lemma_next_of_dil(self)
        requires
            self.valid(),
            self.descriptor().valid(),
            self.descriptor().training@.len() > 0,
        ensures
            self.descriptor().symbol(self.dil_place().0, self.dil_place().1).ucode < 128,
    {
        let training = self.descriptor().training@[self.dil_place().0];
        assert(training < 128);
        assert(self.descriptor().references@[crate::v90::dil::uchord_of(training)] < 128);
    }

    pub proof fn lemma_course_valid(self)
        requires
            self.valid(),
        ensures
            self.spec_course().valid(),
    {
    }

    /// For the DIL that `descriptor` asks for.
    #[must_use]
    pub fn new(descriptor: Descriptor) -> (downstream: Self)
        requires
            descriptor.valid(),
        ensures
            downstream.valid(),
            downstream.starts(descriptor),
    {
        let dil_symbols = pass_symbols(&descriptor);
        let downstream = Self {
            course: Course {
                stage: Stage::Sd { run: 0, last: None },
                count: 0,
                origin: 0,
                zeros: None,
                dil_symbols,
                collected: 0,
                zero_frames: 0,
                skip_frames: 0,
                events: Events {
                    sd: false,
                    jd: None,
                    jd_prime: false,
                    levels: false,
                    r_bar: false,
                    mp: None,
                    mp_ack: false,
                    renegotiations: 0,
                },
            },
            dil: Dil::new(descriptor),
            signs: SignReader::default(),
            jd: Deframer::default(),
            training: None,
            data: None,
            next: None,
            rd_frames: [0, 0, 0, 0, 0, 0],
            decoder: None,
            descrambler: Descrambler::with(Polynomial::V34_CALL),
            mp: MpDeframer::default(),
        };
        assert(downstream.rd_frames() =~= seq![0usize, 0, 0, 0, 0, 0]);
        downstream
    }

    #[must_use]
    pub fn course(&self) -> (course: Course)
        ensures
            course == self.spec_course(),
    {
        self.course
    }

    #[must_use]
    pub fn events(&self) -> (events: Events)
        ensures
            events == self.spec_course().events,
    {
        self.course.events
    }

    /// `after` is this receiver with the mappings of CPt and CP.
    pub open spec fn got_mappings(
        self,
        training: Option<Mapping>,
        data: Option<Mapping>,
        after: Self,
    ) -> bool {
        &&& after.training() == training
        &&& after.data() == data
        &&& after.spec_course() == self.spec_course()
        &&& after.next() == self.next()
        &&& after.decoder() == self.decoder()
        &&& after.history() == self.history()
        &&& after.mp_window() == self.mp_window()
        &&& after.rd_frames() == self.rd_frames()
        &&& after.knows_the_same(self)
    }

    /// The constellations of CPt, which TRN2d, MP and Ed use, and of CP,
    /// which B1d and data use.
    pub fn set_mappings(&mut self, training: Option<Mapping>, data: Option<Mapping>)
        requires
            old(self).valid(),
            match training {
                Some(mapping) => mapping.valid(),
                None => true,
            },
            match data {
                Some(mapping) => mapping.valid(),
                None => true,
            },
        ensures
            final(self).valid(),
            old(self).got_mappings(training, data, *final(self)),
    {
        self.training = training;
        self.data = data;
    }

    #[must_use]
    pub fn has_mappings(&self) -> (has_them: bool)
        ensures
            has_them == (self.training() is Some),
    {
        self.training.is_some()
    }

    /// Whether B1d has passed and data is coming.
    #[must_use]
    pub fn in_data(&self) -> (flows: bool)
        ensures
            flows == (self.spec_course().stage is Data && self.spec_course().skip_frames == 0
                && self.decoder() is Some),
    {
        matches!(self.course.stage, Stage::Data) && self.course.skip_frames == 0
            && self.decoder.is_some()
    }

    /// The mapping that codewords are decided on with, now.
    #[must_use]
    pub fn mapping(&self) -> (mapping: Option<&Mapping>)
        ensures
            match (mapping, self.decoder()) {
                (Some(mapping), Some(decoder)) => *mapping == decoder.spec_mapping(),
                (None, None) => true,
                _ => false,
            },
    {
        match &self.decoder {
            Some(decoder) => Some(decoder.mapping()),
            None => None,
        }
    }
}

impl Course {
    /// With one more sample.
    pub open spec fn ticked(self) -> Self {
        Self { count: (self.count + 1) as usize, ..self }
    }

    /// With one more sample of a data frame.
    pub open spec fn collecting(self) -> Self {
        Self {
            collected: if self.collected == 5 {
                0
            } else {
                (self.collected + 1) as usize
            },
            ..self
        }
    }
}

impl Downstream {
    /// R̄ ends the R of the data frames that end where this sample does.
    pub open spec fn renegotiates(self, like: Option<bool>) -> bool {
        self.decoder() is Some && like == Some(false) && self.rd_frames()[self.spec_course().count
            as int % 6] >= RI_FRAMES
    }

    /// Whether R holds the data frame that ends with this sample.
    pub open spec fn rd_after(self, like: Option<bool>) -> usize {
        let held = self.rd_frames()[self.spec_course().count as int % 6];
        if self.decoder() is None {
            held
        } else if like != Some(true) {
            0
        } else if held < RI_FRAMES {
            (held + 1) as usize
        } else {
            RI_FRAMES
        }
    }

    /// The course after a sample.
    pub open spec fn course_after(self, sample: Sample) -> Course {
        let course = self.spec_course();
        match course.stage {
            Stage::Sd { .. } => course.after_sd(sample.sd),
            Stage::Trn { from } => if course.count >= from {
                course.after_trn()
            } else {
                course
            },
            Stage::Jd => course.after_jd(
                self.jd_bit(sample.positive),
                jd_found(self.jd_held(), self.jd_bit(sample.positive)),
                self.descriptor().training@.len() == 0,
            ),
            Stage::Dil { from } => if course.count >= from && self.descriptor().training@.len() > 0 {
                course.after_dil()
            } else {
                course
            },
            Stage::Ri { .. } => course.after_ri(sample.r),
            Stage::Training { from } => if course.count >= from {
                course.collecting()
            } else {
                course
            },
            Stage::Data => if self.renegotiates(sample.r) {
                course.after_r_bar()
            } else {
                course.collecting()
            },
        }
    }

    /// The bit of Jd that a sign carries.
    pub open spec fn jd_bit(self, positive: bool) -> bool {
        (positive != self.last_sign()) != Polynomial::V34Call.taps(self.sign_history())
    }

    /// What a sample leads to.
    pub open spec fn does(self, sample: Sample, after: Self) -> Does {
        let course = self.spec_course();
        match course.stage {
            Stage::Trn { from } => if course.count >= from {
                Does::Gain { last: course.after_trn().stage is Jd }
            } else {
                Does::Nothing
            },
            Stage::Dil { from } => if course.count >= from && self.descriptor().training@.len() > 0 {
                Does::Dil {
                    interval: ((course.count - course.origin) % 6) as usize,
                    expected: self.descriptor().symbol(self.dil_place().0, self.dil_place().1),
                    last: course.after_dil().stage is Ri,
                }
            } else {
                Does::Nothing
            },
            Stage::Training { from } => if course.count >= from && course.collected == 5
                && after.decoder() is Some {
                Does::Frame
            } else {
                Does::Nothing
            },
            Stage::Data => if !self.renegotiates(sample.r) && course.collected == 5
                && self.decoder() is Some && self.rd_after(sample.r) == 0 {
                Does::Frame
            } else {
                Does::Nothing
            },
            _ => Does::Nothing,
        }
    }

    /// The mappings and the decoder after a sample: MP comes with the mapping
    /// of CPt, shaped as data in a renegotiation, and its decoder starts with
    /// it.
    pub open spec fn remaps(self, sample: Sample, after: Self) -> bool {
        let course = self.spec_course();
        match course.stage {
            Stage::Ri { .. } => {
                &&& after.decoder() == self.decoder()
                &&& if course.after_ri(sample.r).stage is Training {
                    match (self.training(), after.next()) {
                        (Some(training), Some(next)) => maps_alike(next, training),
                        (None, None) => true,
                        _ => false,
                    }
                } else {
                    after.next() == self.next()
                }
            },
            Stage::Training { from } => if course.count == from {
                &&& after.next() is None
                &&& match (self.next(), after.decoder()) {
                    (Some(next), Some(decoder)) => decoder.spec_mapping() == next
                        && decoder.starts(),
                    (None, None) => true,
                    _ => false,
                }
            } else {
                after.next() == self.next() && after.decoder() == self.decoder()
            },
            Stage::Data => {
                &&& after.decoder() == self.decoder()
                &&& if self.renegotiates(sample.r) {
                    match (self.training(), after.next()) {
                        (Some(training), Some(next)) => {
                            let data = self.decoder()->0.spec_mapping();
                            &&& forall|i: int|
                                0 <= i < 6 ==> (#[trigger] next.sets@[i])@ == training.sets@[i]@
                            &&& next.modulus_bits == training.modulus_bits
                            &&& next.redundancy == data.redundancy
                            &&& next.lookahead == data.lookahead
                            &&& next.filter == data.filter
                            &&& next.law == training.law
                        },
                        (None, None) => true,
                        _ => false,
                    }
                } else {
                    after.next() == self.next()
                }
            },
            _ => after.next() == self.next() && after.decoder() == self.decoder(),
        }
    }

    /// The last sign and the bits of its sequence on the line, after a sign.
    pub open spec fn signs_after(self, positive: bool) -> (bool, Seq<bool>) {
        let history = self.sign_history();
        match self.spec_course().stage {
            Stage::Trn { from } => if self.spec_course().count >= from {
                (positive, Polynomial::V34Call.shift(history, positive))
            } else {
                (self.last_sign(), history)
            },
            Stage::Jd => (
                positive,
                Polynomial::V34Call.shift(history, positive != self.last_sign()),
            ),
            _ => (self.last_sign(), history),
        }
    }

    /// The frames of Rd in a row, after a sample.
    pub open spec fn rd_frames_after(self, like: Option<bool>) -> Seq<usize> {
        if !(self.spec_course().stage is Data) {
            self.rd_frames()
        } else if self.renegotiates(like) {
            seq![0usize, 0, 0, 0, 0, 0]
        } else {
            self.rd_frames().update(self.spec_course().count as int % 6, self.rd_after(like))
        }
    }

    /// `after` is this receiver once it has taken a sample, which leads to
    /// `does`.
    pub open spec fn took(self, sample: Sample, does: Does, after: Self) -> bool {
        &&& after.spec_course() == self.course_after(sample).ticked()
        &&& does == self.does(sample, after)
        &&& self.remaps(sample, after)
        &&& after.training() == self.training()
        &&& after.data() == self.data()
        &&& after.descriptor() == self.descriptor()
        &&& after.dil_place() == (if does is Dil {
            self.descriptor().following(self.dil_place())
        } else {
            self.dil_place()
        })
        &&& (after.last_sign(), after.sign_history()) == self.signs_after(sample.positive)
        &&& after.jd_held() == (if self.spec_course().stage is Jd {
            deframing_after::<Jd>(self.jd_held(), self.jd_bit(sample.positive))
        } else {
            self.jd_held()
        })
        &&& after.rd_frames() == self.rd_frames_after(sample.r)
        &&& after.history() == (match self.spec_course().stage {
            Stage::Training { from } => if self.spec_course().count == from {
                Seq::new(23, |i: int| false)
            } else {
                self.history()
            },
            _ => self.history(),
        })
        &&& after.mp_window() == (if self.spec_course().stage is Data && self.renegotiates(sample.r) {
            Seq::<bool>::empty()
        } else {
            self.mp_window()
        })
    }

    /// Takes the next sample.
    pub fn take(&mut self, sample: Sample) -> (does: Does)
        requires
            old(self).valid(),
            old(self).spec_course().count < CLOCK_LIMIT,
            sample.sd is Some || sample.r is Some ==> old(self).spec_course().count >= 5,
        ensures
            final(self).valid(),
            old(self).took(sample, does, *final(self)),
    {
        let does = match self.course.stage {
            Stage::Sd { .. } => {
                self.course.sd(sample.sd);
                Does::Nothing
            },
            Stage::Trn { from } => {
                if self.course.count < from {
                    Does::Nothing
                } else {
                    let _bit = self.signs.trn(sample.positive);
                    let last = self.course.count + 1 == from + TRN1D_SYMBOLS;
                    if last {
                        self.course.stage = Stage::Jd;
                    }
                    Does::Gain { last }
                }
            },
            Stage::Jd => {
                self.take_jd(sample.positive);
                Does::Nothing
            },
            Stage::Dil { from } => {
                if self.course.count < from {
                    Does::Nothing
                } else {
                    self.take_dil(from)
                }
            },
            Stage::Ri { .. } => {
                self.course.ri(sample.r);
                if let Stage::Training { .. } = self.course.stage {
                    self.next = match &self.training {
                        Some(training) => Some(copied(training)),
                        None => None,
                    };
                }
                Does::Nothing
            },
            Stage::Training { from } => self.take_training(from),
            Stage::Data => self.take_data(sample.r),
        };
        self.course.count += 1;
        does
    }

    fn take_jd(&mut self, positive: bool)
        requires
            old(self).valid(),
            old(self).course.stage is Jd,
            old(self).course.count < CLOCK_LIMIT,
        ensures
            final(self).valid(),
            final(self).course.count == old(self).course.count,
            final(self).course == old(self).course.after_jd(
                old(self).jd_bit(positive),
                jd_found(old(self).jd_held(), old(self).jd_bit(positive)),
                old(self).descriptor().training@.len() == 0,
            ),
            final(self).jd_held() == deframing_after::<Jd>(
                old(self).jd_held(),
                old(self).jd_bit(positive),
            ),
            (final(self).last_sign(), final(self).sign_history()) == old(self).signs_after(positive),
            final(self).dil == old(self).dil,
            final(self).training == old(self).training,
            final(self).data == old(self).data,
            final(self).next == old(self).next,
            final(self).decoder == old(self).decoder,
            final(self).rd_frames == old(self).rd_frames,
            final(self).mp == old(self).mp,
            final(self).descrambler == old(self).descrambler,
    {
        let bit = self.signs.push(positive);
        let jd = self.jd.push(bit);
        assert(gives::<Jd>(old(self).jd_held(), bit, jd));
        assert(jd == jd_found(old(self).jd_held(), bit));
        if jd.is_some() {
            self.course.events.jd = jd;
            self.course.zeros = Some(0);
            return;
        }
        self.course.zeros = match self.course.zeros {
            Some(zeros) => if bit {
                None
            } else {
                Some(zeros + 1)
            },
            None => None,
        };
        if let Some(zeros) = self.course.zeros {
            if zeros == JD_PRIME_ZEROS {
                self.course.events.jd_prime = true;
                self.course.stage = if self.dil.is_empty() {
                    Stage::Ri { frames: 0 }
                } else {
                    Stage::Dil { from: self.course.count + 1 }
                };
            }
        }
    }

    fn take_dil(&mut self, from: usize) -> (does: Does)
        requires
            old(self).valid(),
            old(self).course.stage == (Stage::Dil { from }),
            old(self).course.count >= from,
        ensures
            final(self).valid(),
            final(self).descriptor() == old(self).descriptor(),
            final(self).course.count == old(self).course.count,
            final(self).course == (if old(self).descriptor().training@.len() > 0 {
                old(self).course.after_dil()
            } else {
                old(self).course
            }),
            does == (if old(self).descriptor().training@.len() > 0 {
                Does::Dil {
                    interval: ((old(self).course.count - old(self).course.origin) % 6) as usize,
                    expected: old(self).descriptor().symbol(
                        old(self).dil_place().0,
                        old(self).dil_place().1,
                    ),
                    last: old(self).course.after_dil().stage is Ri,
                }
            } else {
                Does::Nothing
            }),
            final(self).dil_place() == (if does is Dil {
                old(self).descriptor().following(old(self).dil_place())
            } else {
                old(self).dil_place()
            }),
            final(self).signs == old(self).signs,
            final(self).jd == old(self).jd,
            final(self).training == old(self).training,
            final(self).data == old(self).data,
            final(self).next == old(self).next,
            final(self).decoder == old(self).decoder,
            final(self).descrambler == old(self).descrambler,
            final(self).rd_frames == old(self).rd_frames,
            final(self).mp == old(self).mp,
    {
        match self.dil.next() {
            Some(expected) => {
                let interval = (self.course.count - self.course.origin) % 6;
                let last = self.course.count + 1 == from + self.course.dil_symbols;
                if last {
                    self.course.events.levels = true;
                    self.course.stage = Stage::Ri { frames: 0 };
                }
                Does::Dil { interval, expected, last }
            },
            None => Does::Nothing,
        }
    }

    fn collect(&mut self) -> (whole: bool)
        requires
            old(self).valid(),
        ensures
            final(self).valid(),
            final(self).same_but_course(*old(self)),
            final(self).course == old(self).course.collecting(),
            whole == (old(self).course.collected == 5),
    {
        self.course.collected += 1;
        let whole = self.course.collected == 6;
        if whole {
            self.course.collected = 0;
        }
        whole
    }

    fn take_training(&mut self, from: usize) -> (does: Does)
        requires
            old(self).valid(),
            old(self).course.stage == (Stage::Training { from }),
        ensures
            final(self).valid(),
            final(self).course == (if old(self).course.count >= from {
                old(self).course.collecting()
            } else {
                old(self).course
            }),
            does == (if old(self).course.count >= from && old(self).course.collected == 5 && final(
                self
            ).decoder() is Some {
                Does::Frame
            } else {
                Does::Nothing
            }),
            old(self).course.count == from ==> {
                &&& final(self).next is None
                &&& match (old(self).next, final(self).decoder()) {
                    (Some(next), Some(decoder)) => decoder.spec_mapping() == next
                        && decoder.starts(),
                    (None, None) => true,
                    _ => false,
                }
                &&& final(self).history() == Seq::new(23, |i: int| false)
            },
            old(self).course.count != from ==> final(self).next == old(self).next && final(
                self
            ).decoder == old(self).decoder && final(self).descrambler == old(self).descrambler,
            final(self).dil == old(self).dil,
            final(self).signs == old(self).signs,
            final(self).jd == old(self).jd,
            final(self).training == old(self).training,
            final(self).data == old(self).data,
            final(self).rd_frames == old(self).rd_frames,
            final(self).mp == old(self).mp,
    {
        if self.course.count == from {
            self.decoder = match self.next.take() {
                Some(mapping) => Some(Decoder::new(mapping)),
                None => None,
            };
            self.descrambler = Descrambler::with(Polynomial::V34_CALL);
        }
        if self.course.count >= from && self.collect() && self.decoder.is_some() {
            Does::Frame
        } else {
            Does::Nothing
        }
    }

    fn take_data(&mut self, like: Option<bool>) -> (does: Does)
        requires
            old(self).valid(),
            old(self).course.stage is Data,
            like is Some ==> old(self).course.count >= 5,
        ensures
            final(self).valid(),
            final(self).course == (if old(self).renegotiates(like) {
                old(self).course.after_r_bar()
            } else {
                old(self).course.collecting()
            }),
            does == (if !old(self).renegotiates(like) && old(self).course.collected == 5 && old(
                self,
            ).decoder() is Some && old(self).rd_after(like) == 0 {
                Does::Frame
            } else {
                Does::Nothing
            }),
            old(self).renegotiates(like) ==> {
                &&& final(self).rd_frames() == seq![0usize, 0, 0, 0, 0, 0]
                &&& final(self).mp_window() == Seq::<bool>::empty()
                &&& match (old(self).training, final(self).next) {
                    (Some(training), Some(next)) => {
                        let data = old(self).decoder()->0.spec_mapping();
                        &&& forall|i: int|
                            0 <= i < 6 ==> (#[trigger] next.sets@[i])@ == training.sets@[i]@
                        &&& next.modulus_bits == training.modulus_bits
                        &&& next.redundancy == data.redundancy
                        &&& next.lookahead == data.lookahead
                        &&& next.filter == data.filter
                        &&& next.law == training.law
                    },
                    (None, None) => true,
                    _ => false,
                }
            },
            !old(self).renegotiates(like) ==> final(self).next == old(self).next && final(
                self
            ).rd_frames() == old(self).rd_frames().update(
                old(self).course.count as int % 6,
                old(self).rd_after(like),
            ) && final(self).mp == old(self).mp,
            final(self).decoder == old(self).decoder,
            final(self).descrambler == old(self).descrambler,
            final(self).dil == old(self).dil,
            final(self).signs == old(self).signs,
            final(self).jd == old(self).jd,
            final(self).training == old(self).training,
            final(self).data == old(self).data,
    {
        let phase = self.course.count % 6;
        let held = self.rd_frames[phase];
        if self.decoder.is_some() {
            if like == Some(false) && held >= RI_FRAMES {
                self.restart();
                return Does::Nothing;
            }
            let frames = if like != Some(true) {
                0
            } else if held < RI_FRAMES {
                held + 1
            } else {
                RI_FRAMES
            };
            self.rd_frames[phase] = frames;
        }
        assert(self.rd_frames() =~= old(self).rd_frames().update(
            phase as int,
            old(self).rd_after(like),
        ));
        let held = self.rd_frames[phase];
        if self.collect() && self.decoder.is_some() && held == 0 {
            Does::Frame
        } else {
            Does::Nothing
        }
    }

    fn restart(&mut self)
        requires
            old(self).valid(),
            old(self).decoder is Some,
            old(self).course.count >= 5,
        ensures
            final(self).valid(),
            final(self).course == old(self).course.after_r_bar(),
            final(self).rd_frames() == seq![0usize, 0, 0, 0, 0, 0],
            final(self).mp_window() == Seq::<bool>::empty(),
            match (old(self).training, final(self).next) {
                (Some(training), Some(next)) => {
                    let data = old(self).decoder()->0.spec_mapping();
                    &&& forall|i: int|
                        0 <= i < 6 ==> (#[trigger] next.sets@[i])@ == training.sets@[i]@
                    &&& next.modulus_bits == training.modulus_bits
                    &&& next.redundancy == data.redundancy
                    &&& next.lookahead == data.lookahead
                    &&& next.filter == data.filter
                    &&& next.law == training.law
                },
                (None, None) => true,
                _ => false,
            },
            final(self).decoder == old(self).decoder,
            final(self).descrambler == old(self).descrambler,
            final(self).dil == old(self).dil,
            final(self).signs == old(self).signs,
            final(self).jd == old(self).jd,
            final(self).training == old(self).training,
            final(self).data == old(self).data,
    {
        self.rd_frames = [0, 0, 0, 0, 0, 0];
        assert(self.rd_frames() =~= seq![0usize, 0, 0, 0, 0, 0]);
        self.next = match (&self.training, &self.decoder) {
            (Some(training), Some(decoder)) => {
                proof {
                    decoder.lemma_mapping_valid();
                }
                Some(Mapping::renegotiating(training, decoder.mapping()))
            },
            _ => None,
        };
        self.course.events.mp = None;
        self.course.events.mp_ack = false;
        self.mp = MpDeframer::default();
        self.course.zero_frames = 0;
        self.course.events.renegotiations = if self.course.events.renegotiations < u32::MAX {
            self.course.events.renegotiations + 1
        } else {
            0
        };
        self.course.origin = self.course.count + 1 - 6;
        self.course.collected = 0;
        self.course.stage = Stage::Training { from: self.course.origin + R_BAR_SYMBOLS };
    }

    /// `after` is this receiver without the MP of data mode.
    pub open spec fn forgot_mp(self, after: Self) -> bool {
        &&& after.spec_course() == self.spec_course().without_mp()
        &&& after.mp_window() == Seq::<bool>::empty()
        &&& after.training() == self.training()
        &&& after.data() == self.data()
        &&& after.next() == self.next()
        &&& after.decoder() == self.decoder()
        &&& after.history() == self.history()
        &&& after.rd_frames() == self.rd_frames()
        &&& after.knows_the_same(self)
    }

    /// Forgets the MP of data mode and listens for a new one, as § 9.6 has
    /// the digital modem send after R̄d.
    pub fn expect_renegotiation(&mut self)
        requires
            old(self).valid(),
        ensures
            final(self).valid(),
            old(self).forgot_mp(*final(self)),
    {
        self.course.events.mp = None;
        self.course.events.mp_ack = false;
        self.mp = MpDeframer::default();
        self.course.zero_frames = 0;
    }
}

/// What the bits of a data frame descramble to.
pub open spec fn descrambled(history: Seq<bool>, line: Seq<bool>) -> Seq<bool> {
    Seq::new(
        line.len(),
        |n: int| crate::scrambler::descrambled_at(Polynomial::V34Call, history, line, n),
    )
}

/// The course after the first `n` bits of a data frame of MP.
pub open spec fn course_after_bits(course: Course, window: Seq<bool>, bits: Seq<bool>, n: int) -> Course
    decreases n,
{
    if n <= 0 {
        course
    } else {
        course_after_bits(course, window, bits, n - 1).after_mp(
            found_at(window_after(window, bits.take(n - 1)), seq![bits[n - 1]], 0),
        )
    }
}

/// The bits of MP do not move the receiver.
pub proof fn lemma_bits_move_nothing(course: Course, window: Seq<bool>, bits: Seq<bool>, n: int)
    ensures
        course_after_bits(course, window, bits, n) == (Course {
            events: course_after_bits(course, window, bits, n).events,
            ..course
        }),
    decreases n,
{
    if n > 0 {
        lemma_bits_move_nothing(course, window, bits, n - 1);
    }
}

pub open spec fn all_zeros(bits: Seq<bool>) -> bool {
    forall|i: int| 0 <= i < bits.len() ==> !#[trigger] bits[i]
}

impl Downstream {
    /// The bits of a data frame.
    pub open spec fn frame_bits(self, codewords: Seq<Codeword>) -> Seq<bool> {
        descrambled(self.history(), self.decoder()->0.spec_frame(codewords))
    }

    /// The course after a data frame.
    pub open spec fn course_after_frame(self, codewords: Seq<Codeword>) -> Course {
        let course = self.spec_course();
        let bits = self.frame_bits(codewords);
        if course.stage is Data {
            Course {
                skip_frames: if course.skip_frames > 0 {
                    (course.skip_frames - 1) as usize
                } else {
                    0
                },
                ..course
            }
        } else {
            course_after_bits(course, self.mp_window(), bits, bits.len() as int).after_frame(
                all_zeros(bits),
            )
        }
    }

    /// `after` is this receiver once it has taken six codewords, which take
    /// the data bits from `data` to `read`.
    pub open spec fn framed(
        self,
        codewords: Seq<Codeword>,
        data: Seq<bool>,
        read: Seq<bool>,
        after: Self,
    ) -> bool {
        &&& after.spec_course() == self.course_after_frame(codewords)
        &&& read == (if self.spec_course().stage is Data && self.spec_course().skip_frames == 0 {
            data + self.frame_bits(codewords)
        } else {
            data
        })
        &&& after.training() == self.training()
        &&& after.data() == self.data()
        &&& after.next() == self.next()
        &&& after.rd_frames() == self.rd_frames()
        &&& after.knows_the_same(self)
        &&& after.mp_window() == (if self.spec_course().stage is Data {
            self.mp_window()
        } else {
            window_after(self.mp_window(), self.frame_bits(codewords))
        })
        &&& if !(self.spec_course().stage is Data) && after.spec_course().stage is Data {
            &&& after.history() == Seq::new(23, |i: int| false)
            &&& match (self.data(), after.decoder()) {
                (Some(mapping), Some(decoder)) => maps_alike(decoder.spec_mapping(), mapping)
                    && decoder.starts(),
                (None, None) => true,
                _ => false,
            }
        } else {
            &&& after.history() == history_after(
                Polynomial::V34Call,
                self.history(),
                self.decoder()->0.spec_frame(codewords),
            )
            &&& after.decoder() is Some
            &&& self.decoder()->0.goes_on(codewords, after.decoder()->0)
        }
    }

    /// Takes the codewords that the six samples of a data frame were decided
    /// as.
    pub fn frame(&mut self, codewords: [Codeword; 6], data: &mut Vec<bool>)
        requires
            old(self).valid(),
            old(self).decoder() is Some,
        ensures
            final(self).valid(),
            old(self).framed(codewords@, old(data)@, final(data)@, *final(self)),
    {
        let mut decoder: Option<Decoder> = None;
        core::mem::swap(&mut decoder, &mut self.decoder);
        let mut decoder = match decoder {
            Some(decoder) => decoder,
            None => {
                return;
            },
        };
        let line = decoder.frame(codewords);
        self.decoder = Some(decoder);
        let bits = self.descramble(&line);
        if let Stage::Data = self.course.stage {
            if self.course.skip_frames > 0 {
                self.course.skip_frames -= 1;
            } else {
                extend(data, &bits);
            }
            return;
        }
        let zero = self.read_mp(&bits);
        self.course.zero_frames = if !zero {
            0
        } else if self.course.zero_frames <= ED_FRAMES {
            self.course.zero_frames + 1
        } else {
            self.course.zero_frames
        };
        if self.course.events.mp.is_some() && self.course.zero_frames == ED_FRAMES {
            self.course.events.mp_ack = true;
            self.course.stage = Stage::Data;
            self.decoder = match &self.data {
                Some(mapping) => Some(Decoder::new(copied(mapping))),
                None => None,
            };
            self.descrambler = Descrambler::with(Polynomial::V34_CALL);
            self.course.skip_frames = B1D_FRAMES;
        }
    }

    fn descramble(&mut self, line: &Vec<bool>) -> (bits: Vec<bool>)
        requires
            old(self).valid(),
        ensures
            final(self).valid(),
            bits@ == descrambled(old(self).history(), line@),
            final(self).history() == history_after(
                Polynomial::V34Call,
                old(self).history(),
                line@,
            ),
            final(self).course == old(self).course,
            final(self).dil == old(self).dil,
            final(self).signs == old(self).signs,
            final(self).jd == old(self).jd,
            final(self).training == old(self).training,
            final(self).data == old(self).data,
            final(self).next == old(self).next,
            final(self).decoder == old(self).decoder,
            final(self).mp == old(self).mp,
            final(self).rd_frames == old(self).rd_frames,
    {
        let ghost before = *self;
        let ghost history = self.history();
        let mut bits: Vec<bool> = Vec::new();
        let mut n: usize = 0;
        assert(line@.take(0) =~= Seq::<bool>::empty());
        while n < line.len()
            invariant
                n <= line.len(),
                bits.len() == n,
                self.descrambler.valid(),
                self.descrambler.polynomial() == Polynomial::V34Call,
                self.descrambler.history() == history_after(
                    Polynomial::V34Call,
                    history,
                    line@.take(n as int),
                ),
                forall|i: int|
                    0 <= i < n ==> #[trigger] bits[i] == descrambled(history, line@)[i],
                self.course == before.course,
                self.dil == before.dil,
                self.signs == before.signs,
                self.jd == before.jd,
                self.training == before.training,
                self.data == before.data,
                self.next == before.next,
                self.decoder == before.decoder,
                self.mp == before.mp,
                self.rd_frames == before.rd_frames,
            decreases line.len() - n,
        {
            assert(line@.take(n + 1).drop_last() =~= line@.take(n as int));
            bits.push(self.descrambler.descramble(line[n]));
            n += 1;
        }
        assert(bits@ =~= descrambled(history, line@));
        assert(line@.take(n as int) =~= line@);
        bits
    }

    fn read_mp(&mut self, bits: &Vec<bool>) -> (zero: bool)
        requires
            old(self).valid(),
            old(self).course.stage is Training || old(self).decoder is Some,
        ensures
            final(self).valid(),
            zero == all_zeros(bits@),
            final(self).course.stage == old(self).course.stage,
            final(self).course == course_after_bits(
                old(self).course,
                old(self).mp_window(),
                bits@,
                bits.len() as int,
            ),
            final(self).mp_window() == window_after(old(self).mp_window(), bits@),
            final(self).descrambler == old(self).descrambler,
            final(self).dil == old(self).dil,
            final(self).signs == old(self).signs,
            final(self).jd == old(self).jd,
            final(self).training == old(self).training,
            final(self).data == old(self).data,
            final(self).next == old(self).next,
            final(self).decoder == old(self).decoder,
            final(self).rd_frames == old(self).rd_frames,
    {
        let ghost before = *self;
        let mut zero = true;
        let mut n: usize = 0;
        assert(bits@.take(0) =~= Seq::<bool>::empty());
        while n < bits.len()
            invariant
                n <= bits.len(),
                self.valid(),
                self.course.stage == before.course.stage,
                zero == all_zeros(bits@.take(n as int)),
                self.course == course_after_bits(
                    before.course,
                    before.mp_window(),
                    bits@,
                    n as int,
                ),
                self.mp_window() == window_after(before.mp_window(), bits@.take(n as int)),
                self.descrambler == before.descrambler,
                self.dil == before.dil,
                self.signs == before.signs,
                self.jd == before.jd,
                self.training == before.training,
                self.data == before.data,
                self.next == before.next,
                self.decoder == before.decoder,
                self.rd_frames == before.rd_frames,
            decreases bits.len() - n,
        {
            let bit = bits[n];
            proof {
                let so_far = bits@.take(n as int);
                let more = bits@.take(n + 1);
                assert(more.drop_last() =~= so_far);
                crate::v34::mp::lemma_window_step(before.mp_window(), so_far, bit);
                assert(so_far.push(bit) =~= more);
                assert(all_zeros(more) == (all_zeros(so_far) && !bit)) by {
                    assert(more[n as int] == bit);
                    assert forall|i: int| 0 <= i < so_far.len() implies so_far[i] == more[i] by {}
                    if all_zeros(so_far) && !bit {
                        assert forall|i: int| 0 <= i < more.len() implies !#[trigger] more[i] by {
                            if i < n {
                                assert(!so_far[i]);
                            }
                        }
                    }
                }
            }
            if let Some(mp) = self.mp.push(bit) {
                self.course.events.mp_ack = self.course.events.mp_ack || mp.acknowledge;
                self.course.events.mp = Some(mp);
            }
            zero = zero && !bit;
            n += 1;
        }
        assert(bits@.take(n as int) =~= bits@);
        zero
    }
}

fn extend(data: &mut Vec<bool>, bits: &Vec<bool>)
    ensures
        final(data)@ == old(data)@ + bits@,
{
    let mut i: usize = 0;
    while i < bits.len()
        invariant
            i <= bits.len(),
            data@ == old(data)@ + bits@.take(i as int),
        decreases bits.len() - i,
    {
        data.push(bits[i]);
        i += 1;
        assert(bits@.take(i as int) =~= bits@.take(i - 1).push(bits@[i - 1]));
    }
    assert(bits@.take(i as int) =~= bits@);
}

/// The Jd that a bit ends, if its CRC holds.
pub open spec fn jd_found(held: Deframing, bit: bool) -> Option<Jd> {
    match words_with(held, bit) {
        Some(words) if !incomplete::<Jd>(words) && crc_of(word_bits(words)) == 0 => Some(
            jd_of(words.take(2)),
        ),
        _ => None,
    }
}

/// The symbols of the first `n` segments of DIL.
pub open spec fn segments(d: Descriptor, n: int) -> int
    decreases n,
{
    if n <= 0 {
        0
    } else {
        segments(d, n - 1) + d.segment_len(n - 1)
    }
}

/// The symbols of one pass of DIL.
pub open spec fn pass_of(d: Descriptor) -> int {
    segments(d, d.training@.len() as int)
}

fn pass_symbols(descriptor: &Descriptor) -> (symbols: usize)
    requires
        descriptor.valid(),
    ensures
        symbols == pass_of(*descriptor),
        symbols <= CLOCK_LIMIT,
{
    let mut symbols: usize = 0;
    let mut n: usize = 0;
    while n < descriptor.training.len()
        invariant
            n <= descriptor.training.len() <= 255,
            descriptor.valid(),
            symbols == segments(*descriptor, n as int),
            symbols <= 1536 * n,
        decreases descriptor.training.len() - n,
    {
        let chord = descriptor.training[n] / 16;
        let uchord: usize = if chord < 7 {
            chord as usize
        } else {
            7
        };
        assert(uchord == crate::v90::dil::uchord_of(descriptor.training@[n as int]));
        let length: usize = (descriptor.lengths[uchord] as usize + 1) * 6;
        symbols += length;
        n += 1;
        assert(segments(*descriptor, n as int) == segments(*descriptor, n - 1)
            + descriptor.segment_len(n - 1));
    }
    symbols
}

/// Frames of Sd count while each follows the last by six samples. S̄d counts
/// after eight of them: data frames are then aligned by it, Ja ends, and
/// TRN1d comes 48 symbols after S̄d began.
pub proof fn law_sd_aligns_the_data_frames(course: Course, run: usize, last: Option<usize>)
    requires
        course.valid(),
        course.count >= 5,
        course.stage == (Stage::Sd { run, last }),
    ensures
        ({
            let follows = last is Some && course.count == last->0 + 6;
            let more = course.after_sd(Some(true));
            let bar = course.after_sd(Some(false));
            &&& course.after_sd(None) == course
            &&& !follows ==> more.stage == (Stage::Sd { run: 1, last: Some(course.count) })
            &&& follows && run < 8 ==> more.stage == (Stage::Sd { run: (run + 1) as usize, last: Some(course.count) })
            &&& follows && run == 8 ==> more.stage == (Stage::Sd { run: 8, last: Some(course.count) })
            &&& more.events == course.events && more.origin == course.origin
            &&& !(follows && run == 8) ==> bar == course
            &&& follows && run == 8 ==> {
                &&& bar.events.sd
                &&& bar.origin == course.count - 5
                &&& bar.stage == (Stage::Trn { from: (course.count + 43) as usize })
            }
        }),
{
}

/// TRN1d lasts 2040 symbols. Jd is told of when it comes, and 16 zeros in a
/// row after it are Jd′, after which DIL begins, or Ri if none was asked for.
/// A pass of DIL shows the levels.
pub proof fn law_phase_3_goes_from_trn_to_ri(course: Course, from: usize, bit: bool, jd: Jd, empty: bool)
    requires
        course.valid(),
        from <= CLOCK_LIMIT,
        course.count < CLOCK_LIMIT,
        course.stage is Jd || course.zeros is None,
    ensures
        course.stage == (Stage::Trn { from }) && course.count == from + 2039 ==> course.after_trn().stage == Stage::Jd,
        course.stage == (Stage::Trn { from }) && course.count != from + 2039 ==> course.after_trn() == course,
        course.after_jd(bit, Some(jd), empty).events.jd == Some(jd) && course.after_jd(bit, Some(jd), empty).zeros
            == Some(0usize) && course.after_jd(bit, Some(jd), empty).stage == course.stage,
        course.zeros is None ==> course.after_jd(bit, None, empty) == course,
        course.zeros is Some && bit ==> course.after_jd(bit, None, empty) == (Course { zeros: None, ..course }),
        course.zeros is Some && !bit && course.zeros->0 < 15 ==> course.after_jd(bit, None, empty) == (Course {
            zeros: Some((course.zeros->0 + 1) as usize),
            ..course
        }),
        course.zeros == Some(15usize) && !bit ==> course.after_jd(bit, None, empty).events.jd_prime,
        course.zeros == Some(15usize) && !bit && empty ==> course.after_jd(bit, None, empty).stage == (Stage::Ri {
            frames: 0,
        }),
        course.zeros == Some(15usize) && !bit && !empty ==> course.after_jd(bit, None, empty).stage == (Stage::Dil {
            from: (course.count + 1) as usize,
        }),
        course.stage == (Stage::Dil { from }) && course.count + 1 == from + course.dil_symbols
            ==> course.after_dil().events.levels && course.after_dil().stage == (Stage::Ri { frames: 0 }),
        course.stage == (Stage::Dil { from }) && course.count + 1 != from + course.dil_symbols ==> course.after_dil()
            == course,
{
}

/// Ri counts by data frames; after four of them R̄i ends it, and MP comes 24
/// symbols after R̄i began. In data mode R̄ does the same from any sample, and
/// is counted.
pub proof fn law_r_bar_leads_to_mp(course: Course, frames: usize)
    requires
        course.valid(),
        course.count >= 5,
    ensures
        ({
            let ends = (course.count - course.origin) % 6 == 5;
            let r = course.after_ri(Some(true));
            let bar = course.after_ri(Some(false));
            let again = course.after_r_bar();
            &&& course.stage == (Stage::Ri { frames }) && !ends ==> r == course && bar == course
            &&& course.after_ri(None) == course
            &&& course.stage == (Stage::Ri { frames }) && ends && frames < 4 ==> r == (Course {
                stage: Stage::Ri { frames: (frames + 1) as usize },
                ..course
            }) && bar == course
            &&& course.stage == (Stage::Ri { frames }) && ends && frames == 4 ==> r == course && bar.events.r_bar
                && bar.stage == (Stage::Training { from: (course.count + 19) as usize })
            &&& again.stage == (Stage::Training { from: (course.count + 19) as usize })
            &&& again.origin == course.count - 5 && again.collected == 0 && again.zero_frames == 0
            &&& again.events.mp is None && !again.events.mp_ack
            &&& course.events.renegotiations < u32::MAX ==> again.events.renegotiations
                == course.events.renegotiations + 1
            &&& course.without_mp().events.mp is None && !course.without_mp().events.mp_ack
                && course.without_mp().zero_frames == 0 && course.without_mp().stage == course.stage
        }),
{
}

/// MP is kept, with its acknowledgement. Two data frames of zeros after it
/// are Ed, which acknowledges too, and 48 frames of B1d then come before data.
pub proof fn law_mp_and_ed_lead_to_data(course: Course, mp: Mp, zero: bool)
    requires
        course.valid(),
    ensures
        course.after_mp(None) == course,
        course.after_mp(Some(mp)).events.mp == Some(mp),
        course.after_mp(Some(mp)).events.mp_ack == (course.events.mp_ack || mp.acknowledge),
        course.after_mp(Some(mp)).stage == course.stage,
        !zero ==> course.after_frame(zero) == (Course { zero_frames: 0, ..course }),
        zero && course.zero_frames <= 2 ==> course.after_frame(zero).zero_frames == course.zero_frames + 1,
        zero && course.zero_frames == 3 ==> course.after_frame(zero) == course,
        zero && course.zero_frames == 1 && course.events.mp is Some ==> course.after_frame(zero).stage == Stage::Data
            && course.after_frame(zero).events.mp_ack && course.after_frame(zero).skip_frames == 48,
        zero && course.zero_frames != 1 || course.events.mp is None ==> course.after_frame(zero).stage == course.stage
            && course.after_frame(zero).events == course.events,
{
}

/// Each sample is one of its stage, and counted. Data frames are decided on
/// by their sixth sample, in data mode only outside R. Four data frames of R
/// on end and R̄ start a renegotiation.
pub proof fn law_each_sample_belongs_to_its_stage(receiver: Downstream, sample: Sample, does: Does, after: Downstream)
    requires
        receiver.took(sample, does, after),
        receiver.spec_course().valid(),
        receiver.rd_frames().len() == 6,
        receiver.spec_course().count < CLOCK_LIMIT,
    ensures
        ({
            let course = receiver.spec_course();
            let next = after.spec_course();
            let place = course.count as int % 6;
            let held = receiver.rd_frames()[place];
            let again = course.stage == Stage::Data && receiver.decoder() is Some && sample.r == Some(false) && held >= 4;
            &&& next.count == course.count + 1
            &&& does is Gain ==> course.stage is Trn
            &&& does is Dil ==> course.stage is Dil && does->interval == (course.count - course.origin) % 6
                && after.dil_place() == receiver.descriptor().following(receiver.dil_place())
            &&& does is Frame ==> (course.stage is Training || course.stage == Stage::Data) && course.collected == 5
            &&& course.stage == Stage::Data && !again ==> {
                &&& next.stage == Stage::Data
                &&& next.collected == if course.collected == 5 {
                    0
                } else {
                    course.collected + 1
                }
                &&& receiver.decoder() is Some && sample.r == Some(true) && held < 4 ==> after.rd_frames()
                    == receiver.rd_frames().update(place, (held + 1) as usize)
                &&& receiver.decoder() is Some && sample.r != Some(true) ==> after.rd_frames()
                    == receiver.rd_frames().update(place, 0)
                &&& does is Frame ==> sample.r != Some(true)
                &&& receiver.decoder() is Some && sample.r != Some(true) && course.collected == 5 ==> does is Frame
            }
            &&& again ==> {
                &&& next.stage is Training
                &&& does is Nothing
                &&& next.events.mp is None
                &&& after.rd_frames() == seq![0usize, 0, 0, 0, 0, 0]
                &&& after.mp_window().len() == 0
            }
            &&& course.stage == Stage::Jd ==> (after.last_sign() == sample.positive && next.stage is Jd || next.stage
                is Ri || next.stage is Dil)
            &&& course.stage is Training && course.count < course.stage->Training_from ==> does is Nothing
                && next.collected == course.collected
        }),
{
}

/// The bits of a data frame in data mode are data once the 48 frames of B1d
/// are over, and each of them counts one down.
pub proof fn law_b1d_is_skipped(receiver: Downstream, codewords: Seq<Codeword>, data: Seq<bool>, read: Seq<bool>, after: Downstream)
    requires
        receiver.framed(codewords, data, read, after),
    ensures
        receiver.spec_course().stage == Stage::Data && receiver.spec_course().skip_frames > 0 ==> read == data
            && after.spec_course().skip_frames == receiver.spec_course().skip_frames - 1,
        receiver.spec_course().stage == Stage::Data && receiver.spec_course().skip_frames == 0 ==> read == data
            + receiver.frame_bits(codewords) && after.spec_course() == receiver.spec_course(),
        !(receiver.spec_course().stage is Data) ==> read == data,
        receiver.frame_bits(codewords).len() == receiver.decoder()->0.spec_frame(codewords).len(),
{
}

/// A segment of DIL is as long as its descriptor has it for the Uchord, and a
/// pass is all segments, one for each training Ucode.
pub proof fn law_a_pass_is_all_segments(d: Descriptor, n: int)
    requires
        0 <= n < d.training@.len(),
    ensures
        segments(d, 0) == 0,
        segments(d, n + 1) - segments(d, n) == d.segment_len(n),
        pass_of(d) == segments(d, d.training@.len() as int),
{
}

/// A sign of Jd carries a bit by its change from the sign before it,
/// descrambled by the changes 18 and 23 symbols before. The signs of TRN1d are
/// themselves the scrambled bits.
pub proof fn law_signs_carry_scrambled_bits(receiver: Downstream, positive: bool, i: int)
    requires
        receiver.sign_history().len() == 23,
        0 <= i < 22,
    ensures
        ({
            let held = receiver.sign_history();
            let last = receiver.last_sign();
            let course = receiver.spec_course();
            let (sign, next) = receiver.signs_after(positive);
            let heard = course.stage is Trn && course.count >= course.stage->Trn_from;
            &&& receiver.jd_bit(positive) == ((positive != last) != (held[17] != held[22]))
            &&& course.stage is Jd ==> sign == positive && next[0] == (positive != last) && next[i + 1] == held[i]
            &&& heard ==> sign == positive && next[0] == positive && next[i + 1] == held[i]
            &&& !(course.stage is Jd) && !heard ==> sign == last && next == held
        }),
{
}

/// MP after R̄ comes with the constellations and K of CPt, in a renegotiation
/// with the spectral shaping of the data before it.
pub proof fn law_mp_comes_by_the_mapping_of_cpt(receiver: Downstream, sample: Sample, after: Downstream, i: int)
    requires
        receiver.remaps(sample, after),
        receiver.training() is Some,
        0 <= i < 6,
    ensures
        ({
            let course = receiver.spec_course();
            let training = receiver.training()->0;
            let next = after.next()->0;
            let starts = course.stage is Ri && course.after_ri(sample.r).stage is Training;
            let again = course.stage is Data && receiver.decoder() is Some && sample.r == Some(false)
                && receiver.rd_frames()[course.count as int % 6] >= 4;
            &&& starts || again ==> {
                &&& after.next() is Some
                &&& next.sets@[i]@ == training.sets@[i]@
                &&& next.modulus_bits == training.modulus_bits
                &&& next.law == training.law
                &&& after.decoder() == receiver.decoder()
            }
            &&& starts ==> next.redundancy == training.redundancy && next.lookahead == training.lookahead && next.filter
                == training.filter
            &&& again ==> ({
                let data = receiver.decoder()->0.spec_mapping();
                next.redundancy == data.redundancy && next.lookahead == data.lookahead && next.filter == data.filter
            })
            &&& course.stage is Training && course.count == course.stage->Training_from && receiver.next() is Some ==> {
                &&& after.next() is None
                &&& after.decoder() is Some
                &&& after.decoder()->0.spec_mapping() == receiver.next()->0
                &&& after.decoder()->0.starts()
            }
            &&& course.stage is Training && course.count != course.stage->Training_from ==> after.next()
                == receiver.next() && after.decoder() == receiver.decoder()
        }),
{
}

/// Mappings are taken as they are given, and an MP is forgotten with what was
/// heard of the next, neither with any other change.
pub proof fn law_mappings_and_mp_change_alone(
    receiver: Downstream,
    training: Option<Mapping>,
    data: Option<Mapping>,
    after: Downstream,
)
    ensures
        receiver.got_mappings(training, data, after) ==> after.training() == training && after.data() == data
            && after.spec_course() == receiver.spec_course() && after.decoder() == receiver.decoder() && after.next()
            == receiver.next() && after.mp_window() == receiver.mp_window() && after.last_sign() == receiver.last_sign(),
        receiver.forgot_mp(after) ==> after.mp_window().len() == 0 && after.spec_course().events.mp is None
            && after.spec_course().stage == receiver.spec_course().stage && after.spec_course().count
            == receiver.spec_course().count && after.decoder() == receiver.decoder() && after.training()
            == receiver.training() && after.data() == receiver.data(),
{
}

} // verus!

//! The analogue modem's receiver of the digital modem's PCM signal, sample
//! by sample: what each sounds like, and what it leads to.

use crate::pump::CLOCK_LIMIT;
use crate::v90::dil::Descriptor;
use crate::v90::downstream::{
    lemma_bits_move_nothing, Course, Does, Downstream, Events, Sample, Stage,
};
use crate::v90::encoder::Mapping;
use crate::v90::levels::Levels;
use crate::v90::samples::{is_scaled, is_sliced, magnitude, spec_sd_like, Known, Samples};
use crate::v90::tally::{place, shows};
use crate::v90::training::TRN1D_SYMBOLS;
use crate::v90::ucode::{Law, COUNT};
use crate::v90::Codeword;
use vstd::prelude::*;

verus! {

/// Hears the digital modem from its phase 3 on.
#[derive(Debug)]
pub struct Listener {
    downstream: Downstream,
    samples: Samples,
}

/// How far TRN1d has come where the receiver is.
pub open spec fn trained_at(course: Course) -> int {
    match course.stage {
        Stage::Sd { .. } => 0,
        Stage::Trn { from } => if course.count <= from {
            0
        } else {
            course.count - from
        },
        _ => TRN1D_SYMBOLS as int,
    }
}

/// What a sample sounds like, with the six samples that end with it. No six
/// have come before `count` is 5.
pub open spec fn sounds_like(downstream: Downstream, known: Known, x: i16) -> Sample {
    let course = downstream.spec_course();
    Sample {
        positive: x > 0,
        sd: if course.count >= 5 {
            spec_sd_like(known.window)
        } else {
            None
        },
        r: if course.count >= 5 {
            match course.stage {
                Stage::Data => match downstream.decoder() {
                    Some(decoder) => known.rd_like(decoder.spec_mapping().sets@),
                    None => None,
                },
                Stage::Ri { .. } => known.ri_like(),
                _ => None,
            }
        } else {
            None
        },
    }
}

/// What is known of the samples after one that leads to `does`.
pub open spec fn learns(known: Known, x: i16, does: Does, after: Known) -> bool {
    match does {
        Does::Gain { last } => {
            &&& after == Known {
                trained: known.trained + 1,
                loudness: known.loudness + magnitude(x as int),
                levels: after.levels,
                ..known
            }
            &&& last ==> is_scaled(after.levels, after.loudness, known.uinfo as int, known.law)
            &&& !last ==> after.levels == known.levels
        },
        Does::Dil { interval, expected, last } => {
            let stats = known.tally.stats();
            let n = place(interval as int, expected.ucode as int, expected.positive);
            &&& after == Known {
                tally: after.tally,
                levels: after.levels,
                shown: known.shown || last,
                ..known
            }
            &&& after.tally.stats() == stats.update(n, stats[n].with(x))
            &&& last ==> shows(after.tally.stats(), known.law, after.levels)
            &&& !last ==> after.levels == known.levels
        },
        _ => after == known,
    }
}

/// The last six samples are decided on as `codewords`.
pub open spec fn are_sliced(known: Known, sets: Seq<Vec<u8>>, codewords: Seq<Codeword>) -> bool {
    &&& codewords.len() == 6
    &&& forall|i: int|
        0 <= i < 6 ==> is_sliced(
            known.window[i],
            i,
            sets[i]@,
            known.levels,
            #[trigger] codewords[i],
        )
}

/// The last six samples, decided on, take `before` to `after`.
pub open spec fn decided(
    known: Known,
    before: Downstream,
    data: Seq<bool>,
    read: Seq<bool>,
    after: Downstream,
) -> bool {
    exists|codewords: Seq<Codeword>| #[trigger]
        are_sliced(known, before.decoder()->0.spec_mapping().sets@, codewords) && before.framed(
            codewords,
            data,
            read,
            after,
        )
}

impl Listener {
    pub closed spec fn spec_downstream(self) -> Downstream {
        self.downstream
    }

    pub closed spec fn known(self) -> Known {
        self.samples@
    }

    pub open spec fn valid(self) -> bool {
        let course = self.spec_downstream().spec_course();
        &&& self.spec_downstream().valid()
        &&& self.spec_downstream().descriptor().valid()
        &&& self.known().valid()
        &&& self.known().trained == trained_at(course)
        &&& self.known().trained <= TRN1D_SYMBOLS
        &&& match course.stage {
            Stage::Trn { from } => course.count < from + TRN1D_SYMBOLS,
            _ => true,
        }
    }

    /// For the DIL that `descriptor` asks for, and training on `uinfo`.
    #[must_use]
    pub fn new(uinfo: u8, law: Law, descriptor: Descriptor) -> (listener: Self)
        requires
            descriptor.valid(),
            1 <= uinfo < COUNT,
        ensures
            listener.valid(),
            listener.spec_downstream().starts(descriptor),
            listener.known().starts(uinfo, law),
    {
        Self { downstream: Downstream::new(descriptor), samples: Samples::new(uinfo, law) }
    }

    /// `after` is this receiver once it has heard `x`, which takes the data
    /// bits from `data` to `read`: the sample is judged with the five before
    /// it, and at the end of a data frame all six are decided on.
    pub open spec fn heard(self, x: i16, data: Seq<bool>, read: Seq<bool>, after: Self) -> bool {
        let known = self.known().with(x);
        let sample = sounds_like(self.spec_downstream(), known, x);
        exists|does: Does, between: Downstream|
            {
                &&& #[trigger] self.spec_downstream().took(sample, does, between)
                &&& learns(known, x, does, after.known())
                &&& if does is Frame {
                    decided(after.known(), between, data, read, after.spec_downstream())
                } else {
                    after.spec_downstream() == between && read == data
                }
            }
    }

    /// Takes a sample, and gives the data bits that come with it.
    pub fn hear(&mut self, x: i16, data: &mut Vec<bool>)
        requires
            old(self).valid(),
            old(self).spec_downstream().spec_course().count < CLOCK_LIMIT,
        ensures
            final(self).valid(),
            final(self).spec_downstream().spec_course().count == old(
                self,
            ).spec_downstream().spec_course().count + 1,
            old(self).heard(x, old(data)@, final(data)@, *final(self)),
    {
        let ghost before = *self;
        proof {
            self.downstream.lemma_course_valid();
            if self.downstream.descriptor().training@.len() > 0 {
                self.downstream.lemma_next_of_dil();
            }
        }
        self.samples.push(x);
        let ghost known = self.samples@;
        let course = self.downstream.course();
        let whole = course.count >= 5;
        let sd = if whole {
            self.samples.sd_like()
        } else {
            None
        };
        let r = if whole {
            match course.stage {
                Stage::Data => match self.downstream.mapping() {
                    Some(mapping) => self.samples.rd_like(&mapping.sets),
                    None => None,
                },
                Stage::Ri { .. } => self.samples.ri_like(),
                _ => None,
            }
        } else {
            None
        };
        let sample = Sample { positive: x > 0, sd, r };
        assert(sample == sounds_like(before.downstream, known, x));
        let does = self.downstream.take(sample);
        let ghost between = self.downstream;
        match does {
            Does::Nothing => {},
            Does::Gain { last } => {
                self.samples.learn_gain(x, last);
            },
            Does::Dil { interval, expected, last } => {
                self.samples.learn_level(x, interval, expected, last);
            },
            Does::Frame => {
                if let Some(mapping) = self.downstream.mapping() {
                    let codewords = self.samples.slice(&mapping.sets);
                    self.downstream.frame(codewords, data);
                    proof {
                        let bits = between.frame_bits(codewords@);
                        lemma_bits_move_nothing(
                            between.spec_course(),
                            between.mp_window(),
                            bits,
                            bits.len() as int,
                        );
                    }
                    assert(are_sliced(
                        self.known(),
                        between.decoder()->0.spec_mapping().sets@,
                        codewords@,
                    ));
                }
            },
        }
        assert(before.spec_downstream().took(sample, does, between));
    }

    #[must_use]
    pub fn course(&self) -> (course: Course)
        ensures
            course == self.spec_downstream().spec_course(),
    {
        self.downstream.course()
    }

    #[must_use]
    pub fn events(&self) -> (events: Events)
        ensures
            events == self.spec_downstream().spec_course().events,
    {
        self.downstream.events()
    }

    /// What TRN1d and DIL have shown.
    #[must_use]
    pub fn levels(&self) -> (levels: &Levels)
        requires
            self.valid(),
        ensures
            *levels == self.known().levels,
            levels.valid(),
    {
        self.samples.levels()
    }

    /// Whether B1d has passed and data is coming.
    pub open spec fn spec_in_data(self) -> bool {
        let downstream = self.spec_downstream();
        &&& downstream.spec_course().stage is Data
        &&& downstream.spec_course().skip_frames == 0
        &&& downstream.decoder() is Some
    }

    #[must_use]
    pub fn in_data(&self) -> (flows: bool)
        ensures
            flows == self.spec_in_data(),
    {
        self.downstream.in_data()
    }

    #[must_use]
    pub fn has_mappings(&self) -> (has_them: bool)
        ensures
            has_them == (self.spec_downstream().training() is Some),
    {
        self.downstream.has_mappings()
    }

    /// The constellations of CPt, which TRN2d, MP and Ed use, and of CP,
    /// which B1d and data use.
    pub fn set_mappings(&mut self, training: Option<Mapping>, data: Option<Mapping>)
        requires
            old(self).valid(),
            match training {
                Some(mapping) => mapping.valid(),
                None => true,
            },
            match data {
                Some(mapping) => mapping.valid(),
                None => true,
            },
        ensures
            final(self).valid(),
            old(self).spec_downstream().got_mappings(
                training,
                data,
                final(self).spec_downstream(),
            ),
            final(self).known() == old(self).known(),
    {
        self.downstream.set_mappings(training, data);
    }

    /// Forgets the MP of data mode and listens for a new one, as § 9.6 has
    /// the digital modem send after R̄d.
    pub fn expect_renegotiation(&mut self)
        requires
            old(self).valid(),
        ensures
            final(self).valid(),
            old(self).spec_downstream().forgot_mp(final(self).spec_downstream()),
            final(self).known() == old(self).known(),
    {
        self.downstream.expect_renegotiation();
    }
}

/// The sign of a sample is that of its value, Sd is looked for in the last
/// six, and R only where it can come: Ri before CPt, and Rd in data mode on
/// the constellations that are decoded.
pub proof fn law_a_sample_sounds_like_its_stage(downstream: Downstream, known: Known, x: i16)
    ensures
        ({
            let sample = sounds_like(downstream, known, x);
            let course = downstream.spec_course();
            &&& x > 0 ==> sample.positive
            &&& x <= 0 ==> !sample.positive
            &&& course.count < 5 ==> sample.sd is None && sample.r is None
            &&& course.count >= 5 ==> sample.sd == spec_sd_like(known.window)
            &&& course.count >= 5 && course.stage is Ri ==> sample.r == known.ri_like()
            &&& course.count >= 5 && course.stage == Stage::Data && downstream.decoder() is Some ==> sample.r
                == known.rd_like(downstream.decoder()->0.spec_mapping().sets@)
            &&& course.stage == Stage::Data && downstream.decoder() is None ==> sample.r is None
            &&& course.stage is Sd || course.stage is Trn || course.stage == Stage::Jd || course.stage is Dil
                || course.stage is Training ==> sample.r is None
        }),
{
}

/// TRN1d adds up the magnitudes of its samples, and its last sets the levels
/// by them. Each symbol of DIL is counted at its interval, Ucode and sign, and
/// the last of a pass shows the levels. No other sample changes what is known.
pub proof fn law_only_trn_and_dil_teach(known: Known, x: i16, does: Does, after: Known)
    requires
        learns(known, x, does, after),
    ensures
        does == Does::Nothing || does == Does::Frame ==> after == known,
        does is Gain && x >= 0 ==> after.loudness == known.loudness + x,
        does is Gain && x < 0 ==> after.loudness == known.loudness - x,
        does is Gain ==> after.trained == known.trained + 1 && after.tally == known.tally && after.shown == known.shown,
        does == (Does::Gain { last: false }) ==> after.levels == known.levels,
        does is Dil ==> after.trained == known.trained && after.loudness == known.loudness,
        does is Dil && does->Dil_last ==> after.shown,
        does is Dil && !does->Dil_last ==> after.shown == known.shown && after.levels == known.levels,
{
}

/// TRN1d has come as far as the samples since it began, and all of its 2040
/// once it is over.
pub proof fn law_how_far_trn_has_come(course: Course, from: usize)
    ensures
        course.stage is Sd ==> trained_at(course) == 0,
        course.stage == (Stage::Trn { from }) && course.count <= from ==> trained_at(course) == 0,
        course.stage == (Stage::Trn { from }) && course.count > from ==> trained_at(course) == course.count - from,
        !(course.stage is Sd) && !(course.stage is Trn) ==> trained_at(course) == 2040,
{
}

/// Data flows once the data mode decoder runs and B1d is over.
pub proof fn law_data_flows_after_b1d(listener: Listener)
    ensures
        listener.spec_in_data() <==> listener.spec_downstream().spec_course().stage is Data
            && listener.spec_downstream().spec_course().skip_frames == 0 && listener.spec_downstream().decoder() is Some,
{
}

} // verus!

//! V.22: 1200 bit/s DPSK, full duplex on two channels, with the constant
//! carrier handshake of its § 6.3.1.

use crate::pump::{Role, CLOCK_LIMIT};
use crate::scrambler::{Descrambler, Polynomial, Scrambler, Scrambling};
use std::collections::VecDeque;
use vstd::prelude::*;

verus! {

pub const BIT_RATE: u32 = 1200;

/// 155 ms of unscrambled ones.
pub const USB1_BITS: usize = 186;

/// 270 ms of scrambled ones.
pub const SCRAMBLED_BITS: usize = 324;

/// 456 ms.
pub const WAIT_SAMPLES: usize = 3648;

/// 765 ms.
pub const SETTLE_SAMPLES: usize = 6120;

#[derive(Debug, Clone, Copy, PartialEq, Eq, Structural)]
pub enum Phase {
    Listening,
    Waiting { until: usize },
    UnscrambledOnes,
    ScrambledOnes,
    Settling { until: usize },
    Data,
}

/// The bits of one value in a row. Unscrambled ones descramble to ones too,
/// so scrambled ones need varied line bits.
#[derive(Debug, Clone, Copy, PartialEq, Eq, Structural)]
pub struct Run {
    pub value: bool,
    pub length: usize,
    pub line_zeros: usize,
}

impl Default for Run {
    fn default() -> (run: Self)
        ensures
            run == Self::none(),
    {
        Self { value: false, length: 0, line_zeros: 0 }
    }
}

impl Run {
    pub open spec fn none() -> Self {
        Self { value: false, length: 0, line_zeros: 0 }
    }

    pub open spec fn valid(self) -> bool {
        self.line_zeros <= self.length
    }

    /// One more, as far as it can be counted.
    pub open spec fn counted(count: usize) -> usize {
        if count < usize::MAX {
            (count + 1) as usize
        } else {
            usize::MAX
        }
    }

    /// A bit of another value starts a new run.
    pub open spec fn after(self, line: bool, descrambled: bool) -> Self {
        let (length, zeros) = if descrambled != self.value || self.length == 0 {
            (0, 0)
        } else {
            (self.length, self.line_zeros)
        };
        Self {
            value: descrambled,
            length: Self::counted(length),
            line_zeros: if line {
                zeros
            } else {
                Self::counted(zeros)
            },
        }
    }

    pub fn push(&mut self, line: bool, descrambled: bool)
        requires
            old(self).valid(),
        ensures
            *final(self) == old(self).after(line, descrambled),
            final(self).valid(),
    {
        if descrambled != self.value || self.length == 0 {
            *self = Self { value: descrambled, length: 0, line_zeros: 0 };
        }
        if self.length < usize::MAX {
            self.length += 1;
        }
        if !line && self.line_zeros < usize::MAX {
            self.line_zeros += 1;
        }
    }

    pub open spec fn spec_scrambled(self) -> bool {
        self.length >= SCRAMBLED_BITS && self.line_zeros >= self.length / 4
    }

    #[must_use]
    pub fn scrambled(&self) -> (scrambled: bool)
        ensures
            scrambled == self.spec_scrambled(),
    {
        self.length >= SCRAMBLED_BITS && self.line_zeros >= self.length / 4
    }
}

/// The run after line bits, each with what it descrambles to.
pub open spec fn run_after(run: Run, heard: Seq<(bool, bool)>) -> Run
    decreases heard.len(),
{
    if heard.len() == 0 {
        run
    } else {
        run_after(run, heard.drop_last()).after(heard.last().0, heard.last().1)
    }
}

proof fn lemma_all_ones(heard: Seq<(bool, bool)>)
    requires
        forall|i: int| 0 <= i < heard.len() ==> (#[trigger] heard[i]).0,
    ensures
        run_after(Run::none(), heard).line_zeros == 0,
    decreases heard.len(),
{
    if heard.len() > 0 {
        let less = heard.drop_last();
        assert forall|i: int| 0 <= i < less.len() implies (#[trigger] less[i]).0 by {
            assert(less[i] == heard[i]);
        }
        lemma_all_ones(less);
    }
}

/// Unscrambled ones are never taken for scrambled ones, whatever they
/// descramble to.
pub proof fn law_unscrambled_ones_are_not_scrambled(heard: Seq<(bool, bool)>)
    requires
        forall|i: int| 0 <= i < heard.len() ==> (#[trigger] heard[i]).0,
    ensures
        !run_after(Run::none(), heard).spec_scrambled(),
{
    lemma_all_ones(heard);
}

/// The answering end sends unscrambled ones until it hears the caller's
/// scrambled ones, then scrambled ones for 765 ms before data. The caller
/// stays silent until it has heard unscrambled ones for 155 ms, waits
/// 456 ms, sends scrambled ones, and goes to data 765 ms after it hears them
/// back.
#[derive(Debug, Clone, Copy, PartialEq, Eq, Structural)]
pub struct Handshake {
    pub phase: Phase,
    /// The samples sent.
    pub sent: usize,
    /// The ones on the line in a row, as far as they count.
    pub ones: usize,
    pub run: Run,
}

impl Handshake {
    pub open spec fn valid(self) -> bool {
        &&& self.sent <= CLOCK_LIMIT
        &&& self.ones <= USB1_BITS
        &&& self.run.valid()
    }

    #[must_use]
    pub fn new(role: Role) -> (handshake: Self)
        ensures
            handshake.valid(),
            handshake == (Self {
                phase: match role {
                    Role::Originate => Phase::Listening,
                    Role::Answer => Phase::UnscrambledOnes,
                },
                sent: 0,
                ones: 0,
                run: Run::none(),
            }),
    {
        let phase = match role {
            Role::Originate => Phase::Listening,
            Role::Answer => Phase::UnscrambledOnes,
        };
        Self { phase, sent: 0, ones: 0, run: Run::default() }
    }

    /// The phase once its time is over.
    pub open spec fn phase_in_time(self) -> Phase {
        match self.phase {
            Phase::Waiting { until } => if self.sent >= until {
                Phase::ScrambledOnes
            } else {
                self.phase
            },
            Phase::Settling { until } => if self.sent >= until {
                Phase::Data
            } else {
                self.phase
            },
            _ => self.phase,
        }
    }

    /// Takes up the next `length` samples.
    pub fn transmit(&mut self, length: usize)
        requires
            old(self).valid(),
            old(self).sent + length <= CLOCK_LIMIT,
        ensures
            final(self).valid(),
            *final(self) == (Self {
                phase: old(self).phase_in_time(),
                sent: (old(self).sent + length) as usize,
                ..*old(self)
            }),
    {
        match self.phase {
            Phase::Waiting { until } => {
                if self.sent >= until {
                    self.phase = Phase::ScrambledOnes;
                }
            },
            Phase::Settling { until } => {
                if self.sent >= until {
                    self.phase = Phase::Data;
                }
            },
            _ => {},
        }
        self.sent += length;
    }

    pub open spec fn ones_after(self, line: bool) -> int {
        if !line {
            0
        } else if self.ones < USB1_BITS {
            self.ones + 1
        } else {
            USB1_BITS as int
        }
    }

    /// The phase once a line bit has come.
    pub open spec fn phase_after(self, line: bool, descrambled: bool) -> Phase {
        let run = self.run.after(line, descrambled);
        match self.phase {
            Phase::Listening => if self.ones_after(line) >= USB1_BITS {
                Phase::Waiting { until: (self.sent + WAIT_SAMPLES) as usize }
            } else {
                self.phase
            },
            Phase::UnscrambledOnes => if run.spec_scrambled() {
                Phase::Settling { until: (self.sent + SETTLE_SAMPLES) as usize }
            } else {
                self.phase
            },
            Phase::ScrambledOnes => if run.spec_scrambled() && run.value {
                Phase::Settling { until: (self.sent + SETTLE_SAMPLES) as usize }
            } else {
                self.phase
            },
            _ => self.phase,
        }
    }

    /// Takes a line bit and what it descrambles to.
    pub fn heard(&mut self, line: bool, descrambled: bool)
        requires
            old(self).valid(),
        ensures
            final(self).valid(),
            *final(self) == (Self {
                phase: old(self).phase_after(line, descrambled),
                ones: old(self).ones_after(line) as usize,
                run: old(self).run.after(line, descrambled),
                ..*old(self)
            }),
    {
        self.ones = if !line {
            0
        } else if self.ones < USB1_BITS {
            self.ones + 1
        } else {
            USB1_BITS
        };
        self.run.push(line, descrambled);
        match self.phase {
            Phase::Listening => {
                if self.ones >= USB1_BITS {
                    self.phase = Phase::Waiting { until: self.sent + WAIT_SAMPLES };
                }
            },
            Phase::UnscrambledOnes => {
                if self.run.scrambled() {
                    self.phase = Phase::Settling { until: self.sent + SETTLE_SAMPLES };
                }
            },
            Phase::ScrambledOnes => {
                if self.run.scrambled() && self.run.value {
                    self.phase = Phase::Settling { until: self.sent + SETTLE_SAMPLES };
                }
            },
            _ => {},
        }
    }

    #[must_use]
    pub fn connected(&self) -> (connected: bool)
        ensures
            connected == (self.phase is Data),
    {
        matches!(self.phase, Phase::Data)
    }

    #[must_use]
    pub fn engaged(&self) -> (engaged: bool)
        ensures
            engaged == !(self.phase is Listening || self.phase is UnscrambledOnes),
    {
        !matches!(self.phase, Phase::Listening | Phase::UnscrambledOnes)
    }
}

/// The handshake never goes back: each phase leads to a later one.
pub proof fn law_handshake_goes_on(
    handshake: Handshake,
    line: bool,
    descrambled: bool,
)
    ensures
        rank(handshake.phase) <= rank(handshake.phase_in_time()),
        rank(handshake.phase) <= rank(handshake.phase_after(line, descrambled)),
        handshake.phase is Data ==> handshake.phase_in_time() is Data && handshake.phase_after(
            line,
            descrambled,
        ) is Data,
{
}

pub open spec fn rank(phase: Phase) -> int {
    match phase {
        Phase::Listening => 0,
        Phase::Waiting { .. } => 1,
        Phase::UnscrambledOnes => 2,
        Phase::ScrambledOnes => 3,
        Phase::Settling { .. } => 4,
        Phase::Data => 5,
    }
}

/// One end of V.22, as far as it deals in bits.
#[derive(Debug)]
pub struct V22 {
    handshake: Handshake,
    scrambler: Scrambler,
    descrambler: Descrambler,
    queue: VecDeque<bool>,
}

impl V22 {
    pub closed spec fn spec_handshake(self) -> Handshake {
        self.handshake
    }

    pub closed spec fn scrambling(self) -> Scrambling {
        self.scrambler@
    }

    /// The line bits heard last, newest first.
    pub closed spec fn history(self) -> Seq<bool> {
        self.descrambler.history()
    }

    /// The bits queued but not yet sent.
    pub closed spec fn queued(self) -> Seq<bool> {
        self.queue@
    }

    pub closed spec fn valid(self) -> bool {
        &&& self.handshake.valid()
        &&& self.scrambler@.valid()
        &&& self.descrambler.valid()
        &&& self.descrambler.polynomial() == Polynomial::V22
    }

    pub open spec fn descrambles(self, line: bool) -> bool {
        line != Polynomial::V22.taps(self.history())
    }

    #[must_use]
    pub fn new(role: Role) -> (v22: Self)
        ensures
            v22.valid(),
            v22.spec_handshake().phase == (match role {
                Role::Originate => Phase::Listening,
                Role::Answer => Phase::UnscrambledOnes,
            }),
            v22.spec_handshake().sent == 0,
            v22.spec_handshake().ones == 0,
            v22.spec_handshake().run == Run::none(),
            v22.scrambling() == Scrambling::fresh(Polynomial::V22),
            v22.history() == Seq::new(17, |i: int| false),
            v22.queued() == Seq::<bool>::empty(),
    {
        Self {
            handshake: Handshake::new(role),
            scrambler: Scrambler::new(),
            descrambler: Descrambler::new(),
            queue: VecDeque::new(),
        }
    }

    #[must_use]
    pub fn handshake(&self) -> (handshake: Handshake)
        ensures
            handshake == self.spec_handshake(),
    {
        self.handshake
    }

    /// Queues bits to send. The line idles on mark when none are queued.
    pub fn push_bits(&mut self, bits: &[bool])
        requires
            old(self).valid(),
        ensures
            final(self).valid(),
            final(self).queued() == old(self).queued() + bits@,
            final(self).spec_handshake() == old(self).spec_handshake(),
            final(self).scrambling() == old(self).scrambling(),
            final(self).history() == old(self).history(),
    {
        let ghost before = *self;
        let mut i: usize = 0;
        while i < bits.len()
            invariant
                i <= bits.len(),
                self.queue@ == before.queue@ + bits@.take(i as int),
                self.handshake == before.handshake,
                self.scrambler == before.scrambler,
                self.descrambler == before.descrambler,
            decreases bits.len() - i,
        {
            self.queue.push_back(bits[i]);
            i += 1;
            assert(bits@.take(i as int) =~= bits@.take(i - 1).push(bits@[i - 1]));
        }
        assert(bits@.take(i as int) =~= bits@);
    }

    /// Bits queued but not yet started.
    #[must_use]
    pub fn pending(&self) -> (pending: usize)
        ensures
            pending == self.queued().len(),
    {
        self.queue.len()
    }

    /// Takes up the next `length` samples. The scrambler starts its guard
    /// against lock-up with data.
    pub fn transmit(&mut self, length: usize)
        requires
            old(self).valid(),
            old(self).spec_handshake().sent + length <= CLOCK_LIMIT,
        ensures
            final(self).valid(),
            final(self).spec_handshake() == (Handshake {
                phase: old(self).spec_handshake().phase_in_time(),
                sent: (old(self).spec_handshake().sent + length) as usize,
                ..old(self).spec_handshake()
            }),
            final(self).scrambling() == (if old(self).spec_handshake().phase is Settling
                && old(self).spec_handshake().phase_in_time() is Data {
                Scrambling { guard: true, ..old(self).scrambling() }
            } else {
                old(self).scrambling()
            }),
            final(self).history() == old(self).history(),
            final(self).queued() == old(self).queued(),
    {
        let settling = matches!(self.handshake.phase, Phase::Settling { .. });
        self.handshake.transmit(length);
        if settling && self.handshake.connected() {
            self.scrambler.guard_against_lockup();
        }
    }

    /// The bit that enters the scrambler next, if one does.
    pub open spec fn enters(self) -> Option<bool> {
        match self.spec_handshake().phase {
            Phase::ScrambledOnes | Phase::Settling { .. } => Some(true),
            Phase::Data => Some(
                if self.queued().len() > 0 {
                    self.queued()[0]
                } else {
                    true
                },
            ),
            _ => None,
        }
    }

    /// The next bit for the line, or silence.
    pub open spec fn line_bit(self) -> Option<bool> {
        match self.enters() {
            Some(bit) => Some(self.scrambling().out(bit)),
            None => if self.spec_handshake().phase is UnscrambledOnes {
                Some(true)
            } else {
                None
            },
        }
    }

    /// The next bit for the line, or silence.
    pub fn next_bit(&mut self) -> (line: Option<bool>)
        requires
            old(self).valid(),
        ensures
            final(self).valid(),
            final(self).spec_handshake() == old(self).spec_handshake(),
            final(self).history() == old(self).history(),
            line == old(self).line_bit(),
            final(self).scrambling() == (match old(self).enters() {
                Some(bit) => old(self).scrambling().after(bit),
                None => old(self).scrambling(),
            }),
            final(self).queued() == (if old(self).spec_handshake().phase is Data && old(
                self,
            ).queued().len() > 0 {
                old(self).queued().skip(1)
            } else {
                old(self).queued()
            }),
    {
        match self.handshake.phase {
            Phase::Listening | Phase::Waiting { .. } => None,
            Phase::UnscrambledOnes => Some(true),
            Phase::ScrambledOnes | Phase::Settling { .. } => Some(self.scrambler.scramble(true)),
            Phase::Data => {
                let ghost before = self.queue@;
                let bit = match self.queue.pop_front() {
                    Some(bit) => {
                        assert(self.queue@ =~= before.skip(1));
                        bit
                    },
                    None => true,
                };
                Some(self.scrambler.scramble(bit))
            },
        }
    }

    /// Takes a line bit, and gives its data bit in data mode.
    pub fn receive(&mut self, line: bool) -> (data: Option<bool>)
        requires
            old(self).valid(),
        ensures
            final(self).valid(),
            final(self).scrambling() == old(self).scrambling(),
            final(self).queued() == old(self).queued(),
            final(self).history() == Polynomial::V22.shift(old(self).history(), line),
            old(self).spec_handshake().phase is Data ==> {
                &&& data == Some(old(self).descrambles(line))
                &&& final(self).spec_handshake() == old(self).spec_handshake()
            },
            !(old(self).spec_handshake().phase is Data) ==> {
                &&& data is None
                &&& final(self).spec_handshake() == (Handshake {
                    phase: old(self).spec_handshake().phase_after(
                        line,
                        old(self).descrambles(line),
                    ),
                    ones: old(self).spec_handshake().ones_after(line) as usize,
                    run: old(self).spec_handshake().run.after(line, old(self).descrambles(line)),
                    ..old(self).spec_handshake()
                })
            },
    {
        let descrambled = self.descrambler.descramble(line);
        if self.handshake.connected() {
            Some(descrambled)
        } else {
            self.handshake.heard(line, descrambled);
            None
        }
    }
}

/// A run counts bits that descramble alike, and those of them that are zeros
/// on the line. It is scrambled from 270 ms on, 324 bits, with zeros for a
/// quarter of it.
pub proof fn law_a_run_counts_bits_alike(run: Run, line: bool, descrambled: bool)
    requires
        run.valid(),
        run.length < usize::MAX,
    ensures
        run.length > 0 && descrambled == run.value ==> run.after(line, descrambled).length == run.length + 1,
        run.length > 0 && descrambled == run.value && line ==> run.after(line, descrambled).line_zeros == run.line_zeros,
        run.length > 0 && descrambled == run.value && !line ==> run.after(line, descrambled).line_zeros
            == run.line_zeros + 1,
        run.length == 0 || descrambled != run.value ==> run.after(line, descrambled).length == 1,
        (run.length == 0 || descrambled != run.value) && line ==> run.after(line, descrambled).line_zeros == 0,
        (run.length == 0 || descrambled != run.value) && !line ==> run.after(line, descrambled).line_zeros == 1,
        run.after(line, descrambled).value == descrambled,
        run.spec_scrambled() <==> run.length >= 324 && 4 * run.line_zeros + 3 >= run.length,
        1000 * 324 == 270 * 1200,
{
}

/// How the handshake goes on. 186 unscrambled ones, 155 ms, make the caller
/// wait 456 ms and then send scrambled ones. Scrambled bits of one value make
/// the answering end go to data 765 ms on, and scrambled ones the caller.
pub proof fn law_each_phase_leads_on(handshake: Handshake, line: bool, descrambled: bool, until: usize)
    requires
        handshake.valid(),
    ensures
        ({
            let run = handshake.run.after(line, descrambled);
            let phase = handshake.phase_after(line, descrambled);
            &&& handshake.phase == Phase::Listening && line && handshake.ones >= 185 ==> phase == (Phase::Waiting {
                until: (handshake.sent + 3648) as usize,
            })
            &&& handshake.phase == Phase::Listening && (!line || handshake.ones < 185) ==> phase == Phase::Listening
            &&& handshake.phase == Phase::UnscrambledOnes && run.spec_scrambled() ==> phase == (Phase::Settling {
                until: (handshake.sent + 6120) as usize,
            })
            &&& handshake.phase == Phase::UnscrambledOnes && !run.spec_scrambled() ==> phase == Phase::UnscrambledOnes
            &&& handshake.phase == Phase::ScrambledOnes && run.spec_scrambled() && descrambled ==> phase
                == (Phase::Settling { until: (handshake.sent + 6120) as usize })
            &&& handshake.phase == Phase::ScrambledOnes && !(run.spec_scrambled() && descrambled) ==> phase
                == Phase::ScrambledOnes
            &&& handshake.phase is Waiting || handshake.phase is Settling || handshake.phase == Phase::Data ==> phase
                == handshake.phase
            &&& !line ==> handshake.ones_after(line) == 0
            &&& line && handshake.ones < 186 ==> handshake.ones_after(line) == handshake.ones + 1
            &&& handshake.phase == (Phase::Waiting { until }) && handshake.sent >= until ==> handshake.phase_in_time()
                == Phase::ScrambledOnes
            &&& handshake.phase == (Phase::Settling { until }) && handshake.sent >= until ==> handshake.phase_in_time()
                == Phase::Data
            &&& handshake.phase == (Phase::Waiting { until }) && handshake.sent < until || handshake.phase
                == (Phase::Settling { until }) && handshake.sent < until ==> handshake.phase_in_time()
                == handshake.phase
            &&& handshake.phase == Phase::Listening || handshake.phase == Phase::UnscrambledOnes || handshake.phase
                == Phase::ScrambledOnes || handshake.phase == Phase::Data ==> handshake.phase_in_time()
                == handshake.phase
            &&& 1000 * 186 == 155 * 1200 && 1000 * 3648 == 456 * 8000 && 1000 * 6120 == 765 * 8000
        }),
{
}

/// What is on the line in each phase: silence, ones as they are, scrambled
/// ones, and scrambled data with ones where there is none.
pub proof fn law_what_is_on_the_line(v22: V22)
    ensures
        v22.spec_handshake().phase == Phase::Listening || v22.spec_handshake().phase is Waiting ==> v22.line_bit()
            is None && v22.enters() is None,
        v22.spec_handshake().phase == Phase::UnscrambledOnes ==> v22.line_bit() == Some(true) && v22.enters() is None,
        v22.spec_handshake().phase == Phase::ScrambledOnes || v22.spec_handshake().phase is Settling ==> v22.enters()
            == Some(true) && v22.line_bit() == Some(v22.scrambling().out(true)),
        v22.spec_handshake().phase == Phase::Data && v22.queued().len() > 0 ==> v22.enters() == Some(v22.queued()[0]),
        v22.spec_handshake().phase == Phase::Data && v22.queued().len() == 0 ==> v22.enters() == Some(true),
        v22.spec_handshake().phase == Phase::Data ==> v22.line_bit() == Some(v22.scrambling().out(v22.enters()->0)),
        v22.history().len() == 17 ==> v22.descrambles(true) == (v22.history()[13] == v22.history()[16])
            && v22.descrambles(false) == (v22.history()[13] != v22.history()[16]),
{
}

} // verus!

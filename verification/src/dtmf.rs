//! DTMF digits, as Q.23 has them, for a menu at the far end that answers
//! before its modem does.

use std::collections::VecDeque;
use vstd::prelude::*;

verus! {

/// Well above the 40 ms that detectors need, so a digit survives a codec.
pub const TONE_SAMPLES: usize = 800;

pub const GAP_SAMPLES: usize = 800;

/// The keys by row and column, the rows and columns from the lowest tone up.
pub open spec fn keys() -> Seq<Seq<char>> {
    seq![
        seq!['1', '2', '3', 'A'],
        seq!['4', '5', '6', 'B'],
        seq!['7', '8', '9', 'C'],
        seq!['*', '0', '#', 'D'],
    ]
}

/// The row and column of a key, if there is such a key.
#[must_use]
pub fn place(key: char) -> (place: Option<(usize, usize)>)
    ensures
        match place {
            Some((row, column)) => row < 4 && column < 4 && keys()[row as int][column as int] == key,
            None => forall|row: int, column: int|
                0 <= row < 4 && 0 <= column < 4 ==> #[trigger] keys()[row][column] != key,
        },
{
    match key {
        '1' => Some((0, 0)),
        '2' => Some((0, 1)),
        '3' => Some((0, 2)),
        'A' => Some((0, 3)),
        '4' => Some((1, 0)),
        '5' => Some((1, 1)),
        '6' => Some((1, 2)),
        'B' => Some((1, 3)),
        '7' => Some((2, 0)),
        '8' => Some((2, 1)),
        '9' => Some((2, 2)),
        'C' => Some((2, 3)),
        '*' => Some((3, 0)),
        '0' => Some((3, 1)),
        '#' => Some((3, 2)),
        'D' => Some((3, 3)),
        _ => None,
    }
}

/// Each key has its own two tones.
pub proof fn law_keys_have_places_of_their_own(row: int, column: int, other: int, across: int)
    requires
        0 <= row < 4,
        0 <= column < 4,
        0 <= other < 4,
        0 <= across < 4,
        keys()[row][column] == keys()[other][across],
    ensures
        row == other,
        column == across,
{
}

/// What the line carries next.
#[derive(Debug, Clone, Copy, PartialEq, Eq, Structural)]
pub enum Step {
    /// The tones of a row and a column, for this many samples.
    Digit { row: usize, column: usize, left: usize },
    Silence { left: usize },
}

impl Step {
    pub open spec fn spec_left(self) -> usize {
        match self {
            Self::Digit { left, .. } => left,
            Self::Silence { left } => left,
        }
    }

    pub open spec fn with_left(self, left: usize) -> Self {
        match self {
            Self::Digit { row, column, .. } => Self::Digit { row, column, left },
            Self::Silence { .. } => Self::Silence { left },
        }
    }
}

pub open spec fn is_key(key: char, row: int, column: int) -> bool {
    0 <= row < 4 && 0 <= column < 4 && keys()[row][column] == key
}

pub open spec fn has_place(key: char) -> bool {
    exists|row: int, column: int| is_key(key, row, column)
}

/// The steps of one character, with `,` as a pause. Others than keys have none.
pub open spec fn steps_of(key: char, pause: usize) -> Seq<Step> {
    if key == ',' {
        seq![Step::Silence { left: pause }]
    } else if has_place(key) {
        let (row, column) = choose|row: int, column: int| is_key(key, row, column);
        seq![
            Step::Digit { row: row as usize, column: column as usize, left: TONE_SAMPLES },
            Step::Silence { left: GAP_SAMPLES },
        ]
    } else {
        seq![]
    }
}

/// The steps of a sequence.
pub open spec fn all_steps(sequence: Seq<char>, pause: usize) -> Seq<Step>
    decreases sequence.len(),
{
    if sequence.len() == 0 {
        seq![]
    } else {
        all_steps(sequence.drop_last(), pause) + steps_of(sequence.last(), pause)
    }
}

/// Plays a sequence of DTMF digits, with `,` as a pause.
#[derive(Debug)]
pub struct DtmfSender {
    steps: VecDeque<Step>,
}

impl View for DtmfSender {
    type V = Seq<Step>;

    closed spec fn view(&self) -> Seq<Step> {
        self.steps@
    }
}

impl DtmfSender {
    /// `sequence` holds `0` to `9`, `*`, `#`, `A` to `D` and `,`, which is
    /// silence for `pause` samples. Other characters are skipped.
    #[must_use]
    pub fn new(sequence: &str, pause: usize) -> (sender: Self)
        ensures
            sender@ == all_steps(sequence@, pause),
    {
        let mut steps: VecDeque<Step> = VecDeque::new();
        let length = sequence.unicode_len();
        let mut i: usize = 0;
        assert(sequence@.take(0) =~= Seq::<char>::empty());
        while i < length
            invariant
                i <= length == sequence@.len(),
                steps@ == all_steps(sequence@.take(i as int), pause),
            decreases length - i,
        {
            let key = sequence.get_char(i);
            let ghost before = steps@;
            assert(sequence@.take(i + 1).drop_last() =~= sequence@.take(i as int));
            if key == ',' {
                steps.push_back(Step::Silence { left: pause });
            } else {
                match place(key) {
                    Some((row, column)) => {
                        steps.push_back(Step::Digit { row, column, left: TONE_SAMPLES });
                        steps.push_back(Step::Silence { left: GAP_SAMPLES });
                        proof {
                            assert(is_key(key, row as int, column as int));
                            let (r, c) = choose|r: int, c: int| is_key(key, r, c);
                            law_keys_have_places_of_their_own(row as int, column as int, r, c);
                        }
                    },
                    None => {
                        assert forall|r: int, c: int| !is_key(key, r, c) by {
                            if is_key(key, r, c) {
                                assert(keys()[r][c] == key);
                            }
                        }
                    },
                }
            }
            assert(steps@ =~= before + steps_of(key, pause));
            i += 1;
        }
        assert(sequence@.take(i as int) =~= sequence@);
        Self { steps }
    }

    /// Whether the whole sequence has been played.
    #[must_use]
    pub fn done(&self) -> (done: bool)
        ensures
            done == (self@.len() == 0),
    {
        self.steps.len() == 0
    }

    /// What the next samples carry, at most `room` of them: what a step has
    /// left, or silence once the sequence is done.
    pub fn next(&mut self, room: usize) -> (chunk: Step)
        ensures
            old(self)@.len() == 0 ==> chunk == (Step::Silence { left: room }) && final(self)@ == old(
                self,
            )@,
            old(self)@.len() > 0 ==> {
                let first = old(self)@[0];
                &&& chunk == first.with_left(
                    if first.spec_left() < room {
                        first.spec_left()
                    } else {
                        room
                    },
                )
                &&& final(self)@ == if first.spec_left() <= room {
                    old(self)@.skip(1)
                } else {
                    old(self)@.update(0, first.with_left((first.spec_left() - room) as usize))
                }
            },
    {
        let ghost before = self.steps@;
        match self.steps.pop_front() {
            None => Step::Silence { left: room },
            Some(step) => {
                assert(self.steps@ =~= before.skip(1));
                let left = match step {
                    Step::Digit { left, .. } => left,
                    Step::Silence { left } => left,
                };
                let n = if left < room {
                    left
                } else {
                    room
                };
                let (chunk, rest) = match step {
                    Step::Digit { row, column, .. } => (
                        Step::Digit { row, column, left: n },
                        Step::Digit { row, column, left: left - n },
                    ),
                    Step::Silence { .. } => (
                        Step::Silence { left: n },
                        Step::Silence { left: left - n },
                    ),
                };
                if left > n {
                    self.steps.push_front(rest);
                    assert(self.steps@ =~= before.update(0, rest));
                }
                chunk
            },
        }
    }
}

/// The samples that steps last.
pub open spec fn duration(steps: Seq<Step>) -> int
    decreases steps.len(),
{
    if steps.len() == 0 {
        0
    } else {
        duration(steps.drop_last()) + steps.last().spec_left()
    }
}

proof fn lemma_duration(first: Seq<Step>, second: Seq<Step>)
    ensures
        duration(first + second) == duration(first) + duration(second),
    decreases second.len(),
{
    if second.len() == 0 {
        assert(first + second =~= first);
    } else {
        lemma_duration(first, second.drop_last());
        assert((first + second).drop_last() =~= first + second.drop_last());
    }
}

/// A sequence of keys lasts 200 ms a key.
pub proof fn law_keys_last_alike(sequence: Seq<char>, pause: usize)
    requires
        forall|i: int| 0 <= i < sequence.len() ==> has_place(#[trigger] sequence[i]),
    ensures
        duration(all_steps(sequence, pause)) == sequence.len() * (TONE_SAMPLES + GAP_SAMPLES),
    decreases sequence.len(),
{
    if sequence.len() > 0 {
        let less = sequence.drop_last();
        assert forall|i: int| 0 <= i < less.len() implies has_place(#[trigger] less[i]) by {
            assert(less[i] == sequence[i]);
        }
        law_keys_last_alike(less, pause);
        let key = sequence[sequence.len() - 1];
        assert(key == sequence.last());
        let (row, column) = choose|row: int, column: int| is_key(key, row, column);
        assert(is_key(key, row, column));
        assert(key != ',');
        let steps = steps_of(key, pause);
        assert(steps.drop_last().drop_last() =~= Seq::<Step>::empty());
        assert(duration(steps) == TONE_SAMPLES + GAP_SAMPLES) by {
            reveal_with_fuel(duration, 3);
        }
        lemma_duration(all_steps(less, pause), steps);
        assert(sequence.len() * (TONE_SAMPLES + GAP_SAMPLES) == less.len() * (TONE_SAMPLES
            + GAP_SAMPLES) + (TONE_SAMPLES + GAP_SAMPLES)) by (nonlinear_arith)
            requires
                sequence.len() == less.len() + 1,
        ;
    }
}

/// Each key lasts 100 ms, on the tones of its row and column, with 100 ms of
/// silence after it. A comma is a pause, and nothing else is played.
pub proof fn law_each_key_plays_its_tones(sequence: Seq<char>, key: char, pause: usize, row: int, column: int)
    requires
        0 <= row < 4,
        0 <= column < 4,
    ensures
        keys()[0] == seq!['1', '2', '3', 'A'] && keys()[1] == seq!['4', '5', '6', 'B'],
        keys()[2] == seq!['7', '8', '9', 'C'] && keys()[3] == seq!['*', '0', '#', 'D'],
        steps_of(keys()[row][column], pause) == seq![
            Step::Digit { row: row as usize, column: column as usize, left: 800 },
            Step::Silence { left: 800 },
        ],
        steps_of(',', pause) == seq![Step::Silence { left: pause }],
        key != ',' && !has_place(key) ==> steps_of(key, pause).len() == 0,
        all_steps(Seq::empty(), pause).len() == 0,
        all_steps(sequence.push(key), pause) == all_steps(sequence, pause) + steps_of(key, pause),
        1000 * 800 == 100 * 8000,
{
    let here = keys()[row][column];
    assert(is_key(here, row, column));
    assert(has_place(here) && here != ',');
    let (r, c) = choose|r: int, c: int| is_key(here, r, c);
    assert(is_key(here, r, c));
    law_keys_have_places_of_their_own(row, column, r, c);
    assert(sequence.push(key).drop_last() =~= sequence);
}

/// A step that is cut short keeps its tones, and only its length changes.
pub proof fn law_a_step_keeps_its_tones(step: Step, left: usize, row: usize, column: usize, was: usize)
    ensures
        step.with_left(left).spec_left() == left,
        step == (Step::Digit { row, column, left: was }) ==> step.spec_left() == was && step.with_left(left)
            == (Step::Digit { row, column, left }),
        step == (Step::Silence { left: was }) ==> step.spec_left() == was && step.with_left(left) == (Step::Silence {
            left,
        }),
{
}

} // verus!

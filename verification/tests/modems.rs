//! Two modems against each other, symbol by symbol over a line that changes
//! nothing.

use std::collections::VecDeque;

use softmodem_dsp::automode::{self, Answer, AnswerStage, CallStage, Offered, Sends};
use softmodem_dsp::pump::{Modulation, Offer, Pump, Role};
use softmodem_dsp::v34::constellation::{Constellation, Point};
use softmodem_dsp::v34::detect::{Likeness, SDetector};
use softmodem_dsp::v34::framing::Framing;
use softmodem_dsp::v34::info::Info0;
use softmodem_dsp::v34::monitor::Margin;
use softmodem_dsp::v34::mp::{Mp, Trellis};
use softmodem_dsp::v34::phase2::{own_info0d, Direction, Outcome, PcmOutcome};
use softmodem_dsp::v34::pump::V34;
use softmodem_dsp::v34::sink::Target;
use softmodem_dsp::v34::sixteen::nearest_sixteen;
use softmodem_dsp::v34::source::Sent;
use softmodem_dsp::v34::viterbi::{Received, Viterbi, FINE};
use softmodem_dsp::v34::SymbolRate;
use softmodem_dsp::v90::analogue::{self, Upstream as AnalogueSender};
use softmodem_dsp::v90::call::Call;
use softmodem_dsp::v90::cp::Cp;
use softmodem_dsp::v90::design::descriptor;
use softmodem_dsp::v90::digital::{self, jd, start_upstream, upstream_mp, Next, Sender};
use softmodem_dsp::v90::encoder::{Mapping, Rule};
use softmodem_dsp::v90::fallback::Fallback;
use softmodem_dsp::v90::listener::Listener;
use softmodem_dsp::v90::ucode::Law;
use softmodem_dsp::v90::upstream::Upstream;
use softmodem_dsp::v90::Codeword;

type Complex = (f64, f64);

fn fine_point(z: Complex) -> Received {
    let fine = FINE as f64;
    ((z.0 * fine).round() as i64, (z.1 * fine).round() as i64)
}

// Takes the points of a mapping frame one by one.
struct FrameDecoder {
    viterbi: Viterbi,
    points: Vec<Received>,
}

impl FrameDecoder {
    fn new(framing: Framing, trellis: Trellis) -> Self {
        Self {
            viterbi: Viterbi::new(framing, trellis),
            points: Vec::new(),
        }
    }

    fn push(&mut self, z: Complex) -> Vec<bool> {
        self.points.push(fine_point(z));
        if self.points.len() < 8 {
            return Vec::new();
        }
        let points: [Received; 8] = std::array::from_fn(|i| self.points[i]);
        self.points.clear();
        self.viterbi.decode(points)
    }
}

fn to_complex(sent: Sent) -> Complex {
    let unit = |point: Point, energy: f64| {
        (
            f64::from(point.0) / energy.sqrt(),
            f64::from(point.1) / energy.sqrt(),
        )
    };
    match sent {
        Sent::Silence => (0.0, 0.0),
        Sent::Four(point) => unit(point, 2.0),
        Sent::Sixteen(point) => unit(point, 10.0),
        Sent::Turn(twelfths) => {
            let angle = std::f64::consts::TAU * f64::from(twelfths) / 12.0;
            (angle.cos(), angle.sin())
        }
        Sent::Data((re, im)) => (re as f64 / 128.0, im as f64 / 128.0),
    }
}

#[derive(Default)]
struct Ear {
    detector: SDetector,
    history: [Complex; 2],
    index: usize,
}

impl Ear {
    fn hear(&mut self, z: Complex) -> Option<softmodem_dsp::v34::detect::Heard> {
        let magnitude = |a: Complex| (a.0 * a.0 + a.1 * a.1).sqrt();
        let product = |a: Complex, b: Complex| a.0 * b.0 + a.1 * b.1;
        let [older, old] = self.history;
        self.history = [old, z];
        let scale = magnitude(z) * magnitude(older);
        let likeness = if scale <= 0.0 {
            Likeness::Nothing
        } else {
            let repeat = product(z, older) / scale;
            let turn = product(z, old) / (magnitude(z) * magnitude(old)).max(f64::MIN_POSITIVE);
            if repeat < -0.7 {
                Likeness::Reverses
            } else if repeat > 0.7 && turn < 0.97 {
                Likeness::Repeats
            } else {
                Likeness::Other
            }
        };
        self.detector.push(likeness)
    }
}

fn quarter(z: Complex) -> u8 {
    match (z.0 >= 0.0, z.1 >= 0.0) {
        (true, true) => 0,
        (true, false) => 1,
        (false, false) => 2,
        (false, true) => 3,
    }
}

struct End {
    v34: V34,
    ear: Ear,
    viterbi: Option<FrameDecoder>,
    data: Vec<bool>,
    // The rate that the line carries, as a multiple of 2400 bit/s.
    trained: u8,
    // How far ahead of its place a symbol of TRN counts.
    ahead: usize,
}

impl End {
    fn new(v34: V34) -> Self {
        Self {
            v34,
            ear: Ear::default(),
            viterbi: None,
            data: Vec::new(),
            trained: 14,
            ahead: 0,
        }
    }

    // Phase 2 has settled again.
    fn train_again(&mut self) {
        self.ear = Ear::default();
        self.viterbi = None;
        self.v34.start_training(outcome());
    }

    fn take(&mut self, z: Complex) {
        let heard = self.ear.hear(z);
        self.v34.hear(heard);
        let index = self.ear.index;
        self.ear.index += 1;
        match self.v34.target(index) {
            Target::Nothing | Target::Known(_) => {}
            Target::Nearest { trn: None } => self.v34.take(quarter(z), index, self.trained),
            Target::Nearest { trn: Some(_) } => {
                self.v34
                    .take(quarter(z), index + self.ahead, self.trained);
            }
            Target::Data => {
                if let Some(viterbi) = &mut self.viterbi {
                    for bit in viterbi.push(z) {
                        self.data.extend(self.v34.data_bit(bit));
                    }
                }
            }
        }
        if let Some((_, receive)) = self.v34.agree() {
            self.viterbi = Some(FrameDecoder::new(receive, Trellis::States16));
        }
    }
}

fn direction(symbol_rate: SymbolRate) -> Direction {
    Direction {
        symbol_rate,
        high_carrier: true,
        pre_emphasis: 0,
        max_rate: 14,
    }
}

fn outcome() -> Outcome {
    Outcome {
        transmit: direction(SymbolRate::S3429),
        receive: direction(SymbolRate::S3429),
        round_trip: 0,
        far: Info0::default(),
    }
}

fn exchange(caller: &mut End, answerer: &mut End, symbols: usize) {
    for _ in 0..symbols {
        let up = to_complex(caller.v34.next());
        let down = to_complex(answerer.v34.next());
        answerer.take(up);
        caller.take(down);
    }
}

fn pair() -> (End, End) {
    let mut caller = End::new(V34::new(Role::Originate));
    let mut answerer = End::new(V34::new(Role::Answer));
    caller.v34.start_training(outcome());
    answerer.v34.start_training(outcome());
    (caller, answerer)
}

fn connect(caller: &mut End, answerer: &mut End) {
    let connected = (0..30_000).find(|_| {
        exchange(caller, answerer, 1);
        caller.v34.connected() && answerer.v34.connected()
    });
    assert!(connected.is_some(), "no V.34 connection");
}

fn connected_pair() -> (End, End) {
    let (mut caller, mut answerer) = pair();
    connect(&mut caller, &mut answerer);
    (caller, answerer)
}

fn message(bits: usize) -> Vec<bool> {
    (0..bits).map(|n| n % 7 < 3 || n % 13 == 0).collect()
}

fn found(message: &[bool], bits: &[bool]) -> bool {
    bits.windows(message.len()).any(|w| w == message)
}

fn crosses(caller: &mut End, answerer: &mut End) {
    let message = message(20_000);
    caller.data.clear();
    answerer.data.clear();
    caller.v34.push_bits(&message);
    answerer.v34.push_bits(&message);
    exchange(caller, answerer, 60 * 69);
    assert!(
        found(&message, &answerer.data),
        "the answerer lost the caller's data"
    );
    assert!(
        found(&message, &caller.data),
        "the caller lost the answerer's data"
    );
}

#[test]
fn two_ends_connect_at_33600_and_carry_data_both_ways() {
    let (mut caller, mut answerer) = connected_pair();
    assert_eq!(
        (caller.v34.bit_rate(), answerer.v34.bit_rate()),
        (33_600, 33_600)
    );
    crosses(&mut caller, &mut answerer);
    assert_eq!(caller.v34.pending(), 0);
}

// The delay is in samples of a line at 3429 baud.
#[test]
fn two_ends_connect_whatever_the_delay_of_the_line() {
    for delay in [1, 37, 80, 160, 241, 320, 480, 800, 1600] {
        let (mut caller, mut answerer) = pair();
        let symbols = delay * 3429 / 8000;
        let mut up = VecDeque::from(vec![(0.0, 0.0); symbols]);
        let mut down = up.clone();
        let connected = (0..30_000).any(|_| {
            up.push_back(to_complex(caller.v34.next()));
            down.push_back(to_complex(answerer.v34.next()));
            answerer.take(up.pop_front().unwrap());
            caller.take(down.pop_front().unwrap());
            caller.v34.connected() && answerer.v34.connected()
        });
        assert!(
            connected,
            "no V.34 connection over a line of {delay} samples each way"
        );
    }
}

// The delays are in samples of a line at 3429 baud.
#[test]
fn two_v34_ends_connect_whatever_the_delay_each_way() {
    let mut failed = Vec::new();
    for up_delay in [0, 1, 160, 320, 555] {
        for down_delay in [0, 1, 160, 320, 555] {
            let (mut caller, mut answerer) = pair();
            let line = |delay: usize| VecDeque::from(vec![(0.0, 0.0); delay * 3429 / 8000]);
            let (mut up, mut down) = (line(up_delay), line(down_delay));
            let connected = (0..30_000).any(|_| {
                up.push_back(to_complex(caller.v34.next()));
                down.push_back(to_complex(answerer.v34.next()));
                answerer.take(up.pop_front().unwrap());
                caller.take(down.pop_front().unwrap());
                caller.v34.connected() && answerer.v34.connected()
            });
            if !(connected && caller.v34.bit_rate() == 33_600) {
                failed.push((up_delay, down_delay));
            }
        }
    }
    assert!(
        failed.is_empty(),
        "no V.34 connection over lines of these delays up and down, in samples: {failed:?}"
    );
}

#[test]
fn two_v34_ends_connect_when_each_sends_and_hears_in_either_order() {
    let mut failed = Vec::new();
    for seed in 1..=40u32 {
        let mut state = seed.wrapping_mul(2_654_435_761);
        let mut coin = move || {
            state ^= state << 13;
            state ^= state >> 17;
            state ^= state << 5;
            state & 1 == 1
        };
        let (caller, answerer) = pair();
        let mut ends = [caller, answerer];
        let mut queues = [VecDeque::new(), VecDeque::new()];
        let mut frames = 0;
        while !ends.iter().all(|end| end.v34.connected()) && frames < 1000 {
            for end in 0..2 {
                let first = coin();
                for transmit in [first, !first] {
                    if transmit {
                        let frame: Vec<Complex> =
                            (0..69).map(|_| to_complex(ends[end].v34.next())).collect();
                        queues[end].push_back(frame);
                    } else if let Some(heard) = queues[1 - end].pop_front() {
                        for z in heard {
                            ends[end].take(z);
                        }
                    }
                }
            }
            frames += 1;
        }
        if !(ends.iter().all(|end| end.v34.connected()) && ends[0].v34.bit_rate() == 33_600) {
            failed.push(seed);
        }
    }
    assert!(
        failed.is_empty(),
        "no V.34 connection when each end sends and hears in either order, for seeds {failed:?}"
    );
}

#[test]
fn pump_renegotiates_from_either_end_and_carries_data_after() {
    for initiator in [Role::Originate, Role::Answer] {
        let (mut caller, mut answerer) = connected_pair();
        match initiator {
            Role::Originate => caller.v34.renegotiate(),
            Role::Answer => answerer.v34.renegotiate(),
        }
        assert!(!(caller.v34.connected() && answerer.v34.connected()));
        connect(&mut caller, &mut answerer);
        assert_eq!(
            (caller.v34.bit_rate(), answerer.v34.bit_rate()),
            (33_600, 33_600)
        );
        crosses(&mut caller, &mut answerer);
    }
}

#[test]
fn pump_clears_down_from_either_end() {
    for initiator in [Role::Originate, Role::Answer] {
        let (mut caller, mut answerer) = connected_pair();
        match initiator {
            Role::Originate => caller.v34.clear_down(),
            Role::Answer => answerer.v34.clear_down(),
        }
        let cleared = (0..30_000).find(|_| {
            exchange(&mut caller, &mut answerer, 1);
            caller.v34.cleared() && answerer.v34.cleared()
        });
        assert!(
            cleared.is_some(),
            "a cleardown started by the {initiator:?} end would leave the call up"
        );
        assert!(!caller.v34.connected() && !answerer.v34.connected());
    }
}

#[test]
fn stays_in_data_mode_on_a_clean_line() {
    let (mut caller, mut answerer) = connected_pair();
    let clean = Margin {
        low: false,
        lost: false,
        high: false,
    };
    for _ in 0..125 {
        exchange(&mut caller, &mut answerer, 69);
        assert!(caller.v34.watch(clean, false, 160).is_none());
        assert!(answerer.v34.watch(clean, false, 160).is_none());
        assert!(
            caller.v34.connected() && answerer.v34.connected(),
            "a clean line would be renegotiated or retrained for nothing"
        );
    }
    assert_eq!(caller.v34.bit_rate(), 33_600);
}

// The frames of 160 samples until the far tone has lasted, if within `frames`.
fn hears_tone(end: &mut End, frames: usize) -> Option<usize> {
    (1..=frames).find(|_| end.v34.hear_tone(true, 160).0)
}

// `starts` has begun a retrain: the other end hears its tone, and phase 2 settles again.
fn retrain(caller: &mut End, answerer: &mut End, initiator: Role) {
    let (starts, answers) = match initiator {
        Role::Originate => (&mut *caller, &mut *answerer),
        Role::Answer => (&mut *answerer, &mut *caller),
    };
    assert_eq!(starts.v34.retrain(), Some(outcome().far));
    assert!(!starts.v34.training() && answers.v34.training());
    assert_eq!(hears_tone(answers, 25), Some(3));
    assert!(!answers.v34.training());
    caller.train_again();
    answerer.train_again();
    assert!(!caller.v34.connected() && !answerer.v34.connected());
}

#[test]
fn retrains_from_either_end_and_carries_data_after() {
    for initiator in [Role::Originate, Role::Answer] {
        let (mut caller, mut answerer) = connected_pair();
        retrain(&mut caller, &mut answerer, initiator);
        connect(&mut caller, &mut answerer);
        assert_eq!(
            (caller.v34.bit_rate(), answerer.v34.bit_rate()),
            (33_600, 33_600)
        );
        crosses(&mut caller, &mut answerer);
    }
}

#[test]
fn answers_a_retrain_that_the_far_end_starts_in_phase_4() {
    for initiator in [Role::Originate, Role::Answer] {
        let (mut caller, mut answerer) = pair();
        let begun = |end: &End| end.v34.in_phase_4() && !end.v34.connected();
        let reached = (0..30_000).any(|_| {
            exchange(&mut caller, &mut answerer, 1);
            begun(&caller) && begun(&answerer)
        });
        assert!(reached, "two ends would never train each other");
        let (starts, answers) = match initiator {
            Role::Originate => (&mut caller, &mut answerer),
            Role::Answer => (&mut answerer, &mut caller),
        };
        *starts = End::new(V34::new(initiator));
        let joined = hears_tone(answers, 25).is_some() && !answers.v34.training();
        assert!(
            joined,
            "a retrain from the {initiator:?} end in phase 4 would go unanswered until the far end gives up"
        );
        caller.train_again();
        answerer.train_again();
        connect(&mut caller, &mut answerer);
    }
}

#[test]
fn retrains_down_when_the_line_gets_worse() {
    let (mut caller, mut answerer) = connected_pair();
    caller.trained = 9;
    answerer.trained = 9;
    retrain(&mut caller, &mut answerer, Role::Originate);
    connect(&mut caller, &mut answerer);
    let rate = caller.v34.bit_rate();
    assert!(
        rate < 33_600 && rate == answerer.v34.bit_rate(),
        "a retrain over a noisier line would keep {rate} bit/s"
    );
    assert_eq!(rate, 21_600);
    crosses(&mut caller, &mut answerer);
}

#[test]
fn renegotiates_down_when_the_line_gets_worse() {
    let (mut caller, mut answerer) = connected_pair();
    caller.trained = 9;
    answerer.trained = 9;
    caller.v34.renegotiate();
    connect(&mut caller, &mut answerer);
    let rate = caller.v34.bit_rate();
    assert!(
        rate < 33_600 && rate == answerer.v34.bit_rate(),
        "a noisier line would keep {rate} bit/s and lose data"
    );
    assert_eq!(rate, 21_600);
    crosses(&mut caller, &mut answerer);
}

// Frames of 160 samples until both ends are connected again at a rate that
// `holds`, if within `frames`. The margin that each end sees is `margin`.
fn until_rate(
    caller: &mut End,
    answerer: &mut End,
    margin: Margin,
    frames: usize,
    holds: impl Fn(u32) -> bool,
) -> Option<usize> {
    (1..=frames).find(|_| {
        exchange(caller, answerer, 69);
        for end in [&mut *caller, &mut *answerer] {
            assert!(end.v34.watch(margin, true, 160).is_none());
        }
        caller.v34.connected() && answerer.v34.connected() && holds(caller.v34.bit_rate())
    })
}

// A line with less room than 33 600 bit/s needs, but on which nothing is lost.
fn steps_down(caller: &mut End, answerer: &mut End) -> Option<usize> {
    caller.trained = 12;
    answerer.trained = 12;
    let mild = Margin {
        low: true,
        lost: false,
        high: false,
    };
    until_rate(caller, answerer, mild, 750, |rate| rate < 33_600)
}

#[test]
fn steps_down_on_its_own_when_the_line_gets_worse() {
    let (mut caller, mut answerer) = connected_pair();
    let stepped = steps_down(&mut caller, &mut answerer);
    assert!(
        stepped.is_some(),
        "33 600 bit/s would stay on a line that no longer carries it"
    );
    assert_eq!(caller.v34.bit_rate(), 28_800);
    crosses(&mut caller, &mut answerer);
}

#[test]
fn steps_up_again_when_the_line_gets_better() {
    let (mut caller, mut answerer) = connected_pair();
    steps_down(&mut caller, &mut answerer).expect("no step down to come back up from");
    let low = caller.v34.bit_rate();
    caller.trained = 14;
    answerer.trained = 14;
    let clean = Margin {
        low: false,
        lost: false,
        high: true,
    };
    let rose = until_rate(&mut caller, &mut answerer, clean, 1500, |rate| rate > low);
    assert!(
        rose.is_some(),
        "{low} bit/s would stay after the line got clean again"
    );
    assert_eq!(caller.v34.bit_rate(), 33_600);
}

#[test]
fn connects_to_an_end_that_sends_the_shortest_phase_4_trn() {
    let (mut caller, mut answerer) = pair();
    // It takes the first symbol of the far TRN for all of it.
    answerer.ahead = 1536;
    let (mut phase_4, mut mp_at) = (None, None);
    let connected = (0..30_000).any(|symbol| {
        exchange(&mut caller, &mut answerer, 1);
        if answerer.v34.in_phase_4() {
            phase_4.get_or_insert(symbol);
        }
        if caller.v34.far_mp().is_some() {
            mp_at.get_or_insert(symbol);
        }
        caller.v34.connected() && answerer.v34.connected()
    });
    // S, S̄, 512T of TRN, and MP.
    let late = phase_4.zip(mp_at).map(|(from, mp)| mp - from - (128 + 16 + 512));
    assert!(
        late.is_some_and(|symbols| symbols * 1000 / 3429 < 150),
        "the caller heard the far MP as TRN for {late:?} symbols, and would answer it that much late"
    );
    assert!(
        connected,
        "a far end that ends its TRN after 512T would never reach data"
    );
    crosses(&mut caller, &mut answerer);
}

// V.8 between two ends that offer V.34 alone, as far as the bits of V.21 go.
fn v8_of_v34() -> (Pump, automode::Next) {
    let offer = Offered {
        top: Modulation::V34,
        fallback: false,
    };
    let mut call = automode::Call::new(offer);
    let mut answer = Answer::new(offer);
    let (mut up, mut down) = (VecDeque::new(), VecDeque::new());
    for _ in 0..1500 {
        let sends = call.transmit(up.is_empty());
        match sends {
            Sends::Menu(menu) => up.extend(menu.sequence()),
            Sends::Cj => up.extend(softmodem_dsp::v8::cj()),
            _ => {}
        }
        let menus = matches!(sends, Sends::Menu(_) | Sends::Cj | Sends::Rest);
        let sent_up: Vec<bool> = (0..if menus { 6 } else { 0 })
            .map(|_| up.pop_front().unwrap_or(true))
            .collect();
        call.sent(160, sends, up.is_empty());
        answer.advance(None, false, false);
        let mut sent_down = Vec::new();
        if let AnswerStage::Jm { menu } = answer.stage() {
            if down.is_empty() {
                down.extend(menu.sequence());
            }
            sent_down.extend((0..6).map(|_| down.pop_front().unwrap_or(true)));
        }
        let tone = matches!(answer.stage(), AnswerStage::Tone { .. });
        answer.sent(160);
        answer.receive(&sent_up, menus, false);
        call.receive(tone.then_some(answer.tone()), &sent_down);
        if let (CallStage::Chosen(pump), AnswerStage::Chosen(next)) = (call.stage(), answer.stage())
        {
            return (pump, next);
        }
    }
    panic!("no pumps: {:?} and {:?}", call.stage(), answer.stage());
}

#[test]
fn a_fixed_v34_still_runs_v8_first() {
    let fixed = Offer {
        top: Modulation::V34,
        automode: false,
    };
    for role in [Role::Originate, Role::Answer] {
        let top = Modulation::V34;
        assert_eq!(fixed.pump(role), Pump::Only { top, role });
    }
    let (calling, answering) = v8_of_v34();
    assert_eq!(calling, Pump::V34(Role::Originate));
    assert_eq!(answering, automode::Next::Fresh(Pump::V34(Role::Answer)));
    let (caller, answerer) = connected_pair();
    assert_eq!(
        (caller.v34.bit_rate(), answerer.v34.bit_rate()),
        (33_600, 33_600)
    );
}

#[test]
fn retrains_where_the_far_tone_lasts() {
    let (mut caller, _) = connected_pair();
    assert_eq!(caller.v34.hear_tone(true, 160).1, None);
    assert_eq!(caller.v34.hear_tone(true, 160).1, None);
    let (_, far) = caller.v34.hear_tone(true, 160);
    assert_eq!(far, Some(outcome().far));
    assert!(!caller.v34.connected());
}

#[test]
fn v34_after_v90_stands_at_the_start_of_phase_3() {
    let mut answerer = V34::after_v90(Role::Answer, outcome());
    assert!(!answerer.online() && !answerer.connected());
    assert_eq!((answerer.bit_rate(), answerer.pending()), (0, 0));
    assert!(!answerer.in_phase_4() && !answerer.retrain_asked());
    // 70 ms of silence at 3429 baud, then S.
    for _ in 0..240 {
        assert_eq!(answerer.next(), Sent::Silence);
    }
    assert!(matches!(answerer.next(), Sent::Four(_)));
    let mut caller = V34::after_v90(Role::Originate, outcome());
    assert_eq!(caller.next(), Sent::Silence);
}

#[test]
fn a_fallback_leaves_v34_for_a_retrain() {
    let mut fallback = Fallback::new();
    assert!(fallback.v34().is_none());
    let mut caller = End::new(V34::after_v90(Role::Originate, outcome()));
    let mut answerer = End::new(V34::after_v90(Role::Answer, outcome()));
    connect(&mut caller, &mut answerer);
    fallback.settled(Some(caller.v34));
    let v34 = fallback.take().unwrap();
    assert_eq!(fallback.ran(v34, true), None);
    let mut v34 = fallback.take().unwrap();
    assert_eq!(v34.retrain(), None);
    let retrain = fallback.ran(v34, true).unwrap();
    assert_eq!((retrain.rate, retrain.online), (33_600, true));
    assert!(fallback.v34().is_none());
}

struct DigitalEnd {
    sender: Sender,
    upstream: Upstream,
    ear: Ear,
    viterbi: Option<FrameDecoder>,
    constellation: Constellation,
    call: Call,
    data: Vec<bool>,
}

fn pcm_outcome() -> PcmOutcome {
    PcmOutcome {
        upstream: direction(SymbolRate::S3200),
        uinfo: 75,
        round_trip: 0,
        far: Info0::default(),
        digital: own_info0d(),
    }
}

impl DigitalEnd {
    fn new(sixteen_points: bool) -> Self {
        let outcome = pcm_outcome();
        Self {
            sender: Sender::new(outcome.uinfo, jd(sixteen_points)),
            upstream: Upstream::new(outcome.upstream.symbol_rate, &jd(sixteen_points)),
            ear: Ear::default(),
            viterbi: None,
            constellation: Constellation::new(),
            call: Call::default(),
            data: Vec::new(),
        }
    }

    fn mp(&self) -> Mp {
        upstream_mp(
            self.upstream.ears().trained,
            14,
            self.upstream.symbol_rate(),
        )
    }

    fn connected(&self) -> bool {
        digital::connected(&self.sender, &self.upstream)
    }

    fn next(&mut self) -> Codeword {
        loop {
            let mp = self.mp();
            match self.sender.next(&self.upstream, mp) {
                Next::Symbol(symbol) => return symbol,
                Next::Rule => {
                    let state = self.sender.encoder().unwrap().state();
                    self.sender.shape(Rule::allowed(state)[0]);
                }
            }
        }
    }

    fn take(&mut self, z: Complex) {
        let heard = self.ear.hear(z);
        self.upstream.hear(heard);
        let index = self.ear.index;
        self.ear.index += 1;
        match self.upstream.target(index) {
            Target::Nothing | Target::Known(_) => {}
            Target::Nearest { .. } => {
                let sixteen = self.upstream.ears().points
                    == softmodem_dsp::v34::training::Points::Sixteen;
                let (quadrant, label) = if sixteen {
                    let grid = (z.0 * 10f64.sqrt(), z.1 * 10f64.sqrt());
                    nearest_sixteen(fine_point(grid), &self.constellation)
                } else {
                    (quarter(z), 0)
                };
                for bit in self.upstream.symbol_bits(quadrant, label) {
                    self.upstream.bit(bit, index, 14);
                }
            }
            Target::Data => {
                if let Some(viterbi) = &mut self.viterbi {
                    for bit in viterbi.push(z) {
                        self.data.extend(self.upstream.data_bit(bit));
                    }
                }
            }
        }
        let mp = self.mp();
        if let Some(framing) = start_upstream(&mut self.upstream, &mp) {
            self.viterbi = Some(FrameDecoder::new(framing, Trellis::States16));
        }
        let connected = self.connected();
        self.call.heard(connected);
    }
}

// G.711 A-law and back, as the transport carries every call.
fn alaw(sample: i16) -> i16 {
    let ends: [i32; 8] = [0x1F, 0x3F, 0x7F, 0xFF, 0x1FF, 0x3FF, 0x7FF, 0xFFF];
    let value = i32::from(sample) >> 3;
    let (negative, magnitude) = if value >= 0 {
        (false, value)
    } else {
        (true, -value - 1)
    };
    let segment = ends.iter().position(|&end| magnitude <= end).unwrap_or(7);
    let shift = if segment < 2 { 1 } else { segment };
    let step = ((magnitude.min(0xFFF) >> shift) & 0x0F) << 4;
    let restored = if segment == 0 {
        step + 8
    } else {
        (step + 0x108) << (segment - 1)
    };
    let restored = i16::try_from(restored).unwrap_or(i16::MAX);
    if negative {
        -restored
    } else {
        restored
    }
}

// A-law, with a digital pad of `gain` that the network codes to A-law again.
fn padded(sample: i16, gain: f64) -> i16 {
    alaw((f64::from(alaw(sample)) * gain).round() as i16)
}

struct AnalogueEnd {
    upstream: AnalogueSender,
    downstream: Listener,
    shaped: bool,
    call: Call,
    data: Vec<bool>,
}

impl AnalogueEnd {
    fn new(shaped: bool) -> Self {
        let outcome = pcm_outcome();
        Self {
            upstream: AnalogueSender::new(outcome),
            downstream: Listener::new(outcome.uinfo, Law::A, descriptor(outcome.uinfo)),
            shaped,
            call: Call::default(),
            data: Vec::new(),
        }
    }

    fn connected(&self) -> bool {
        analogue::connected(&self.upstream, &self.downstream)
    }

    fn next(&mut self) -> Sent {
        let events = self.downstream.events();
        if self.upstream.wants_design(&events) {
            let rates = self.upstream.own_rates();
            let levels = self.downstream.levels();
            let max_power = pcm_outcome().digital.max_power;
            let cpt = levels.training(Law::A, max_power, rates);
            let mut data = levels.data(Law::A, max_power, rates).expect("a CP");
            if self.shaped {
                data = Cp {
                    rate: 21,
                    redundancy: 1,
                    lookahead: 2,
                    ..data
                };
            }
            self.upstream.design(cpt, Some(data));
        }
        let sent = self.upstream.next(&events);
        if !self.downstream.has_mappings() {
            if let Some((cpt, cp)) = self.upstream.designed() {
                let mappings = (Mapping::from_cp(cpt), Mapping::from_cp(cp));
                self.downstream.set_mappings(mappings.0, mappings.1);
            }
        }
        sent
    }

    fn take(&mut self, heard: i16) {
        self.downstream.hear(heard, &mut self.data);
        let connected = self.connected();
        self.call.heard(connected);
    }
}

struct Line {
    analogue: AnalogueEnd,
    digital: DigitalEnd,
    clock: u32,
    gain: f64,
    // The symbols and the samples on their way.
    up: VecDeque<Complex>,
    down: VecDeque<i16>,
    // Whether the frame that goes up now is lost.
    lost: bool,
}

impl Line {
    fn new(sixteen_points: bool, shaped: bool) -> Self {
        Self {
            analogue: AnalogueEnd::new(shaped),
            digital: DigitalEnd::new(sixteen_points),
            clock: 0,
            gain: 1.0,
            up: VecDeque::new(),
            down: VecDeque::new(),
            lost: false,
        }
    }

    // With delays in samples.
    fn delayed(up: usize, down: usize) -> Self {
        Self {
            up: VecDeque::from(vec![(0.0, 0.0); up * 3200 / 8000]),
            down: VecDeque::from(vec![0; down]),
            ..Self::new(false, false)
        }
    }

    fn exchange(&mut self, samples: usize) {
        for _ in 0..samples {
            self.clock += 3200;
            if self.clock >= 8000 {
                self.clock -= 8000;
                let up = to_complex(self.analogue.next());
                self.up.push_back(if self.lost { (0.0, 0.0) } else { up });
                let heard = self.up.pop_front().unwrap_or((0.0, 0.0));
                self.digital.take(heard);
            }
            let down = padded(self.digital.next().linear(Law::A), self.gain);
            self.down.push_back(down);
            let heard = self.down.pop_front().unwrap_or(0);
            self.analogue.take(heard);
        }
    }

    fn connected(&self) -> bool {
        self.analogue.connected() && self.digital.connected()
    }

    fn connect(&mut self) {
        let connected = (0..2000).find(|_| {
            self.exchange(160);
            self.connected()
        });
        assert!(
            connected.is_some(),
            "no V.90 connection: {:?} {:?} {:?}",
            self.digital.sender.script(),
            self.digital.upstream.ears(),
            self.analogue.downstream.course()
        );
    }

    fn bit_rates(&self) -> (u32, u32) {
        (
            self.analogue.upstream.bit_rate(),
            self.digital.sender.bit_rate(),
        )
    }

    // Whether data crosses down and up.
    fn carries_data(&mut self) -> (bool, bool) {
        let message = message(20_000);
        self.analogue.data.clear();
        self.digital.data.clear();
        self.analogue.upstream.push_bits(&message);
        self.digital.sender.push_bits(&message);
        self.exchange(160 * 60);
        (
            found(&message, &self.analogue.data),
            found(&message, &self.digital.data),
        )
    }
}

#[test]
fn an_analogue_and_a_digital_modem_carry_data_at_56000_bit_s() {
    let mut line = Line::new(false, false);
    line.connect();
    assert_eq!(line.bit_rates(), (56_000, 56_000));
    assert_eq!(line.carries_data(), (true, true));
}

#[test]
fn learns_the_levels_behind_a_digital_pad() {
    let mut line = Line::new(false, false);
    line.gain = 10f64.powf(-3.0 / 20.0);
    line.connect();
    assert_eq!(line.bit_rates(), (56_000, 56_000));
    assert_eq!(line.carries_data(), (true, true));
}

#[test]
fn carries_data_with_spectral_shaping() {
    let mut line = Line::new(false, true);
    line.connect();
    assert_eq!(line.bit_rates(), (54_667, 54_667));
    assert_eq!(line.carries_data(), (true, true));
    digital::renegotiate(&mut line.digital.sender, &mut line.digital.upstream, false);
    line.connect();
    assert_eq!(line.carries_data(), (true, true));
}

fn renegotiates_from_either_end(slip: bool) {
    for from_analogue in [true, false] {
        let mut line = Line::new(false, false);
        line.connect();
        if slip {
            for _ in 0..320 {
                line.digital.next();
            }
            assert_eq!(line.carries_data(), (false, true));
        }
        if from_analogue {
            analogue::renegotiate(
                &mut line.analogue.upstream,
                &mut line.analogue.downstream,
                false,
            );
        } else {
            digital::renegotiate(&mut line.digital.sender, &mut line.digital.upstream, false);
        }
        assert!(!line.connected());
        let back = (0..1500).find(|_| {
            line.exchange(160);
            assert!(
                line.analogue.call.carrier(false) && line.digital.call.carrier(false),
                "DCD would drop during a renegotiation"
            );
            line.connected()
        });
        assert!(back.is_some(), "a renegotiation would not end");
        assert_eq!(line.bit_rates(), (56_000, 56_000));
        assert_eq!(line.carries_data(), (true, true));
    }
}

#[test]
fn tests_renegotiates_from_either_end_and_carries_data_after() {
    renegotiates_from_either_end(false);
}

#[test]
fn a_renegotiation_finds_the_data_frames_again_after_a_slip() {
    renegotiates_from_either_end(true);
}

#[test]
fn retrains_from_either_end_after_a_slip_and_carries_data_after() {
    for from_analogue in [true, false] {
        let mut line = Line::new(false, false);
        line.connect();
        for _ in 0..320 {
            line.digital.next();
        }
        assert_eq!(line.carries_data(), (false, true));
        // The end that hears the other's tone retrains, as the other has.
        let far = if from_analogue {
            &mut line.digital.call
        } else {
            &mut line.analogue.call
        };
        let heard = (0..4).find(|_| far.hear_tone(true, true, 160));
        assert_eq!(heard, Some(2));
        let (mut analogue, mut digital) = (line.analogue.call, line.digital.call);
        analogue.retrain();
        digital.retrain();
        line = Line::new(false, false);
        (line.analogue.call, line.digital.call) = (analogue, digital);
        assert!(!line.connected());
        let back = (0..1500).find(|_| {
            line.exchange(160);
            assert!(
                line.analogue.call.carrier(false) && line.digital.call.carrier(false),
                "DCD would drop during a retrain"
            );
            line.connected()
        });
        assert!(back.is_some(), "a retrain would not end");
        assert_eq!(line.bit_rates(), (56_000, 56_000));
        assert_eq!(line.carries_data(), (true, true));
    }
}

#[test]
fn tests_clears_down_from_either_end() {
    for from_analogue in [true, false] {
        let mut line = Line::new(false, false);
        line.connect();
        if from_analogue {
            analogue::renegotiate(
                &mut line.analogue.upstream,
                &mut line.analogue.downstream,
                true,
            );
        } else {
            digital::renegotiate(&mut line.digital.sender, &mut line.digital.upstream, true);
        }
        let cleared = |line: &Line| {
            (
                line.analogue.upstream.script().send == analogue::Send::Cleared,
                line.digital.sender.script().send == digital::Send::Cleared,
            )
        };
        let ended = (0..500).find(|_| {
            line.exchange(160);
            cleared(&line) == (true, true)
        });
        assert!(
            ended.is_some(),
            "a cleardown from the {} modem would leave the call up",
            if from_analogue { "analogue" } else { "digital" }
        );
        assert!(
            !line.analogue.call.carrier(true) && !line.digital.call.carrier(true),
            "DCD would stay on after a cleardown"
        );
    }
}

#[test]
fn sends_cp_on_16_points_when_jd_asks() {
    for from_analogue in [true, false] {
        let mut line = Line::new(true, false);
        line.connect();
        assert_eq!(line.carries_data(), (true, true));
        if from_analogue {
            analogue::renegotiate(
                &mut line.analogue.upstream,
                &mut line.analogue.downstream,
                false,
            );
        } else {
            digital::renegotiate(&mut line.digital.sender, &mut line.digital.upstream, false);
        }
        line.connect();
        assert_eq!(line.carries_data(), (true, true));
    }
}

#[test]
fn a_far_tone_of_more_than_50_ms_in_data_mode_starts_a_retrain() {
    let mut call = Call::default();
    assert!(!call.hear_tone(true, true, 400));
    assert!(!call.hear_tone(true, false, 160));
    assert!(!call.hear_tone(false, true, 800));
    assert!(!call.hear_tone(true, true, 240));
    assert!(call.hear_tone(true, true, 161));
    call.retrain();
    assert!(!call.hear_tone(true, true, 400));
}

#[test]
fn keeps_its_rate_while_data_mode_stays_within_dil() {
    let mut line = Line::new(false, false);
    line.connect();
    line.exchange(400 * 160);
    assert_eq!(line.bit_rates(), (56_000, 56_000));
    assert!(line.connected());
}

#[test]
fn connects_whatever_the_delay_each_way() {
    for (up, down) in [(1, 0), (0, 37), (160, 161), (555, 3), (1600, 1600)] {
        let mut line = Line::delayed(up, down);
        line.connect();
        assert_eq!(
            line.bit_rates(),
            (56_000, 56_000),
            "delayed by {up} and {down}"
        );
    }
}

// Connects with frame `lost` of the upstream lost, in at most 2000 frames.
fn connects_losing_upstream_frame(lost: usize) -> bool {
    let mut line = Line::new(true, false);
    (0..2000).any(|frame| {
        line.lost = frame == lost;
        line.exchange(160);
        line.connected()
    })
}

#[test]
fn connects_whichever_upstream_frame_of_phase_4_before_e_is_lost() {
    let mut line = Line::new(true, false);
    let mut phase_4 = Vec::new();
    for frame in 0..2000 {
        // Phase 4 follows the S̄ that ends DIL.
        let begun = line.digital.sender.script().send != digital::Send::Dil;
        line.exchange(160);
        let sends = line.analogue.upstream.script().send;
        if begun && matches!(sends, analogue::Send::Cpt | analogue::Send::Cp) {
            phase_4.push(frame);
        }
        if line.connected() {
            break;
        }
    }
    assert!(!phase_4.is_empty(), "no V.90 phase 4 to lose frames from");
    let failed: Vec<usize> = phase_4
        .into_iter()
        .filter(|&lost| !connects_losing_upstream_frame(lost))
        .collect();
    assert!(
        failed.is_empty(),
        "losing upstream frame {failed:?} of phase 4 leaves no connection"
    );
}

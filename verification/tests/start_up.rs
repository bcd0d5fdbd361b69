//! How a call starts: the answer tone, the menus, and the low-speed modems.

use std::collections::VecDeque;

use softmodem_dsp::ansam::{reverses, AnswerToneKind, Hearing, Step as ToneStep, STEP};
use softmodem_dsp::automode::{
    gap, Answer, AnswerStage, Call, CallStage, MenuLink, Next, Offered, Repeats, Sends,
    SILENCE_SAMPLES, V8BIS_SILENCE_SAMPLES,
};
use softmodem_dsp::carrier::Tracker;
use softmodem_dsp::dtmf::{place, DtmfSender, Step, GAP_SAMPLES, TONE_SAMPLES};
use softmodem_dsp::echo::{solves, History, Shown, Tracker as EchoTracker, Verdict};
use softmodem_dsp::pump::{Modulation, Offer, Pump, Role};
use softmodem_dsp::qam::{decide, decisions, inner_point, rotate, Decision, Mapper, Rate};
use softmodem_dsp::v21::V21;
use softmodem_dsp::v22::{Phase, Run, V22};
use softmodem_dsp::v22bis::{Dibit, S1Detector, Transmit, V22bis};
use softmodem_dsp::v8::{Menu, Modes};
use softmodem_dsp::v8bis::{Hearing as SignalHearing, Pair, Part, Sending, Signal};

#[test]
fn a_menu_counts_on_its_second_arrival() {
    let mut repeats = Repeats::default();
    let menu = Menu::data(
        Offered {
            top: Modulation::V22bis,
            fallback: true,
        }
        .modes(Role::Answer),
    );
    assert_eq!(repeats.push(menu), None);
    assert_eq!(repeats.push(menu), Some(menu));
}

#[test]
fn an_offer_leads_to_its_pump() {
    let offer = |top, automode| Offer { top, automode };
    assert_eq!(
        offer(Modulation::V22bis, true).pump(Role::Answer),
        Pump::Automode {
            top: Modulation::V22bis,
            role: Role::Answer
        }
    );
    assert_eq!(
        offer(Modulation::V34, false).pump(Role::Originate),
        Pump::Only {
            top: Modulation::V34,
            role: Role::Originate
        }
    );
    assert_eq!(
        offer(Modulation::V21, false).pump(Role::Originate),
        Pump::V21(Role::Originate)
    );
    assert_eq!(Modulation::V90.pump(Role::Answer), Pump::Digital);
    assert_eq!(Modulation::V90.pump(Role::Originate), Pump::Analogue);
}

const FRAME: usize = 160;
// V.21 carries 300 bit/s, 6 bits in a frame.
const BITS: usize = 6;

// What a sample of the answerer carries.
#[derive(Debug, Clone, Copy, PartialEq)]
enum Carries {
    Cre(Part),
    Tone(AnswerToneKind),
}

// The caller and the answerer of a call, frame by frame, to the pumps that they choose.
fn start(caller: Offered, answerer: Offered) -> (Pump, Next, usize) {
    let mut call = Call::new(caller);
    let mut answer = Answer::new(answerer);
    let (mut up, mut down) = (VecDeque::new(), VecDeque::new());
    let mut tone = Hearing::new();
    for frame in 1..1500 {
        let mut sent_up = Vec::new();
        let sends = call.transmit(up.is_empty());
        match sends {
            Sends::Menu(menu) if up.is_empty() => up.extend(menu.sequence()),
            Sends::Cj => up.extend(softmodem_dsp::v8::cj()),
            _ => {}
        }
        let v21_up = matches!(sends, Sends::Menu(_) | Sends::Cj | Sends::Rest);
        if v21_up {
            sent_up.extend((0..BITS).map(|_| up.pop_front().unwrap_or(true)));
        }
        call.sent(FRAME, sends, up.is_empty());

        answer.advance(None, false, false);
        let mut sent_down = Vec::new();
        let mut sent_tone = false;
        match answer.stage() {
            AnswerStage::Tone { .. } => sent_tone = true,
            AnswerStage::Jm { menu } => {
                if down.is_empty() {
                    down.extend(menu.sequence());
                }
                sent_down.extend((0..BITS).map(|_| down.pop_front().unwrap_or(true)));
            }
            _ => {}
        }
        answer.sent(FRAME);
        answer.receive(&sent_up, v21_up, false);

        for _ in 0..FRAME / STEP {
            if tone.push(sent_tone) == ToneStep::Judged {
                tone.judge(answer.tone() == AnswerToneKind::Ansam);
            }
        }
        call.receive(tone.heard, &sent_down);
        if let (CallStage::Chosen(pump), AnswerStage::Chosen(next)) = (call.stage(), answer.stage())
        {
            return (pump, next, frame);
        }
    }
    panic!("no pumps: {:?} and {:?}", call.stage(), answer.stage());
}

#[test]
fn a_caller_that_ignores_cre_hears_ansam_at_2_s() {
    let mut answer = Answer::new(Offered {
        top: Modulation::V22bis,
        fallback: true,
    });
    let mut cre: Option<Sending> = None;
    let mut line = Vec::new();
    for _ in 0..20_000 / FRAME {
        answer.advance(None, false, false);
        for _ in 0..FRAME {
            line.push(match answer.stage() {
                AnswerStage::V8bis => {
                    let sending = cre.get_or_insert_with(|| Sending::new(Signal::CRe));
                    if sending.done() {
                        None
                    } else {
                        Some(Carries::Cre(sending.next()))
                    }
                }
                AnswerStage::Tone { .. } => Some(Carries::Tone(answer.tone())),
                _ => None,
            });
        }
        answer.sent(FRAME);
        answer.receive(&[], false, false);
    }
    assert!(line[..V8BIS_SILENCE_SAMPLES].iter().all(Option::is_none));
    let mut hearing = SignalHearing::new(Pair::Initiating);
    let place = Pair::Initiating
        .signals()
        .iter()
        .position(|&signal| signal == Signal::CRe);
    let heard = line[..8000].iter().find_map(|carries| match carries {
        Some(Carries::Cre(Part::Pair)) => hearing.push(true, None),
        Some(Carries::Cre(Part::Single)) => hearing.push(false, place),
        _ => hearing.push(false, None),
    });
    assert_eq!(heard, Some(Signal::CRe));
    assert!(line[8000..SILENCE_SAMPLES].iter().all(Option::is_none));
    assert!(line[SILENCE_SAMPLES..]
        .iter()
        .all(|&carries| carries == Some(Carries::Tone(AnswerToneKind::Ansam))));
    let mut tone = Hearing::new();
    for samples in line[SILENCE_SAMPLES..].chunks(STEP) {
        if tone.push(samples.iter().all(Option::is_some)) == ToneStep::Judged {
            tone.judge(true);
        }
    }
    assert_eq!(tone.heard, Some(AnswerToneKind::Ansam));
}

#[test]
fn two_automode_ends_agree_on_v22bis_through_v8() {
    let offer = Offered {
        top: Modulation::V22bis,
        fallback: true,
    };
    let (caller, answerer, frames) = start(offer, offer);
    assert_eq!(caller, Pump::V22bis(Role::Originate));
    assert_eq!(answerer, Next::Fresh(Pump::V22bis(Role::Answer)));
    assert!(
        frames * 20 < 8000,
        "V.8 bis and V.8 took {} ms",
        frames * 20
    );
}

#[test]
fn two_v34_ends_agree_on_v34_through_v8() {
    let offer = Offered {
        top: Modulation::V34,
        fallback: true,
    };
    let (caller, answerer, _) = start(offer, offer);
    assert_eq!(caller, Pump::V34(Role::Originate));
    assert_eq!(answerer, Next::Fresh(Pump::V34(Role::Answer)));
}

#[test]
fn a_v34_caller_meets_a_v22bis_answerer_at_2400() {
    let caller = Offered {
        top: Modulation::V34,
        fallback: true,
    };
    let answerer = Offered {
        top: Modulation::V22bis,
        fallback: true,
    };
    let (caller, answerer, _) = start(caller, answerer);
    assert_eq!(caller, Pump::V22bis(Role::Originate));
    assert_eq!(answerer, Next::Fresh(Pump::V22bis(Role::Answer)));
}

#[test]
fn a_v21_only_end_brings_v8_down_to_v21() {
    let caller = Offered {
        top: Modulation::V21,
        fallback: true,
    };
    let answerer = Offered {
        top: Modulation::V22bis,
        fallback: true,
    };
    let (caller, answerer, _) = start(caller, answerer);
    assert_eq!(caller, Pump::V21(Role::Originate));
    assert_eq!(answerer, Next::Fresh(Pump::V21(Role::Answer)));
}

#[test]
fn two_ends_that_fall_back_meet_at_the_lower_top() {
    let offer = |top| Offered {
        top,
        fallback: true,
    };
    let tops = [Modulation::V21, Modulation::V34, Modulation::V90];
    for (n, &high) in tops.iter().enumerate() {
        for &low in &tops[..=n] {
            for (caller, answerer) in [(high, low), (low, high)] {
                let (calling, answering, _) = start(offer(caller), offer(answerer));
                assert_eq!(calling, low.pump(Role::Originate));
                assert_eq!(answering, Next::Fresh(low.pump(Role::Answer)));
            }
        }
    }
    let (calling, answering, _) = start(offer(Modulation::V90), offer(Modulation::V22));
    assert_eq!(calling, Pump::V22bis(Role::Originate));
    assert_eq!(answering, Next::Fresh(Pump::V22(Role::Answer)));
}

#[test]
fn an_analogue_caller_meets_a_digital_answerer() {
    let offer = Offered {
        top: Modulation::V90,
        fallback: true,
    };
    let (caller, answerer, _) = start(offer, offer);
    assert_eq!(caller, Pump::Analogue);
    assert_eq!(answerer, Next::Fresh(Pump::Digital));
}

#[test]
fn v34_and_v90_start_at_once_after_cj() {
    let modes = Modes {
        v34: true,
        ..Modes::default()
    };
    assert_eq!(gap(modes), 0);
    assert_eq!(gap(Modes::default()), 600);
}

#[test]
fn plain_v21_shows_in_bits_without_a_menu() {
    let mut link = MenuLink::new();
    link.hear(&[true; 149]);
    assert!(!link.plain_v21());
    link.hear(&[true]);
    assert!(link.plain_v21());
}

/// An end of the V.22 family, frame by frame, on decided points.
trait End {
    fn transmit(&mut self) -> Vec<Option<Decision>>;
    fn receive(&mut self, symbols: &[Option<Decision>], bits: &mut Vec<bool>);
    fn push_bits(&mut self, bits: &[bool]);
    fn connected(&self) -> bool;
    fn bit_rate(&self) -> u32;
}

// 600 baud.
const SYMBOLS: usize = 12;

struct Slow {
    v22: V22,
    out: Mapper,
    heard: Mapper,
}

impl Slow {
    fn new(role: Role) -> Self {
        Self {
            v22: V22::new(role),
            out: Mapper::new(),
            heard: Mapper::new(),
        }
    }
}

impl End for Slow {
    fn transmit(&mut self) -> Vec<Option<Decision>> {
        self.v22.transmit(FRAME);
        (0..SYMBOLS)
            .map(|_| {
                let bits = [self.v22.next_bit()?, self.v22.next_bit()?];
                Some(self.out.map(&bits))
            })
            .collect()
    }

    fn receive(&mut self, symbols: &[Option<Decision>], bits: &mut Vec<bool>) {
        for &decision in symbols.iter().flatten() {
            for line in self.heard.unmap(decision, Rate::Bps1200) {
                bits.extend(self.v22.receive(line));
            }
        }
    }

    fn push_bits(&mut self, bits: &[bool]) {
        self.v22.push_bits(bits);
    }

    fn connected(&self) -> bool {
        self.v22.handshake().connected()
    }

    fn bit_rate(&self) -> u32 {
        1200
    }
}

struct Fast {
    v22bis: V22bis,
    out: Mapper,
    slow: Mapper,
    fast: Mapper,
    rate: Rate,
    lost: bool,
}

impl Fast {
    fn new(role: Role) -> Self {
        Self {
            v22bis: V22bis::new(role),
            out: Mapper::new(),
            slow: Mapper::new(),
            fast: Mapper::new(),
            rate: Rate::Bps1200,
            lost: false,
        }
    }

    fn ready(&self) -> bool {
        self.v22bis.control().ready
    }
}

impl End for Fast {
    fn transmit(&mut self) -> Vec<Option<Decision>> {
        if let Some(rate) = self.v22bis.transmit(FRAME, self.lost) {
            self.rate = rate;
        }
        let per_symbol = match self.v22bis.control().transmit {
            Transmit::Fast => 4,
            _ => 2,
        };
        (0..SYMBOLS)
            .map(|_| {
                let bits: Option<Vec<bool>> =
                    (0..per_symbol).map(|_| self.v22bis.next_bit()).collect();
                Some(self.out.map(&bits?))
            })
            .collect()
    }

    fn receive(&mut self, symbols: &[Option<Decision>], bits: &mut Vec<bool>) {
        for &decision in symbols.iter().flatten() {
            let dibit = self.slow.unmap(decision, Rate::Bps1200);
            self.v22bis.receive_slow(
                Dibit {
                    first: dibit[0],
                    second: dibit[1],
                },
                bits,
            );
            for line in self.fast.unmap(decision, self.rate) {
                self.v22bis.receive_fast(line, bits);
            }
        }
    }

    fn push_bits(&mut self, bits: &[bool]) {
        self.v22bis.push_bits(bits);
    }

    fn connected(&self) -> bool {
        self.v22bis.control().connected
    }

    fn bit_rate(&self) -> u32 {
        self.v22bis.control().bit_rate()
    }
}

fn exchange(
    caller: &mut dyn End,
    answerer: &mut dyn End,
    frames: usize,
) -> (Vec<bool>, Vec<bool>) {
    let (mut at_caller, mut at_answerer) = (Vec::new(), Vec::new());
    for _ in 0..frames {
        let up = caller.transmit();
        let down = answerer.transmit();
        answerer.receive(&up, &mut at_answerer);
        caller.receive(&down, &mut at_caller);
    }
    (at_caller, at_answerer)
}

fn connect(caller: &mut dyn End, answerer: &mut dyn End) {
    let mut frames = 0;
    while !(caller.connected() && answerer.connected()) {
        exchange(caller, answerer, 1);
        frames += 1;
        assert!(frames < 250, "no connection after {} ms", frames * 20);
    }
}

fn crosses(caller: &mut dyn End, answerer: &mut dyn End) {
    let message: Vec<bool> = (0..1200).map(|n| n % 7 < 3).collect();
    caller.push_bits(&message);
    answerer.push_bits(&message);
    let (at_caller, at_answerer) = exchange(caller, answerer, 100);
    let found = |bits: &[bool]| bits.windows(message.len()).any(|w| w == message);
    assert!(found(&at_caller), "the caller lost the answerer's data");
    assert!(found(&at_answerer), "the answerer lost the caller's data");
}

fn settle(caller: &mut Fast, answerer: &mut Fast) {
    let mut frames = 0;
    while !(caller.ready() && answerer.ready()) {
        exchange(caller, answerer, 1);
        frames += 1;
        assert!(
            frames < 150,
            "the exchange did not finish in {} ms",
            frames * 20
        );
    }
}

fn trained() -> (Fast, Fast) {
    let mut caller = Fast::new(Role::Originate);
    let mut answerer = Fast::new(Role::Answer);
    connect(&mut caller, &mut answerer);
    (caller, answerer)
}

#[test]
fn a_run_counts_as_far_as_it_can() {
    let mut run = Run::default();
    for n in 1..=400 {
        run.push(n % 4 != 0, true);
        assert_eq!((run.length, run.line_zeros), (n, n / 4));
    }
    assert!(run.scrambled());
    run.length = usize::MAX;
    run.push(true, true);
    assert_eq!(run.length, usize::MAX);
    run.push(true, false);
    assert_eq!((run.length, run.line_zeros), (1, 0));
}

#[test]
fn two_ends_train_within_the_handshake_times() {
    let mut caller = Slow::new(Role::Originate);
    let mut answerer = Slow::new(Role::Answer);
    let mut frames = 0;
    while !(caller.connected() && answerer.connected()) {
        exchange(&mut caller, &mut answerer, 1);
        frames += 1;
        assert!(frames < 150, "no connection after {} ms", frames * 20);
    }
}

#[test]
fn the_caller_does_not_take_unscrambled_ones_for_scrambled() {
    let mut caller = Slow::new(Role::Originate);
    let mut answerer = Slow::new(Role::Answer);
    for _ in 0..300 {
        caller.transmit();
        let down = answerer.transmit();
        caller.receive(&down, &mut Vec::new());
    }
    assert_eq!(caller.v22.handshake().phase, Phase::ScrambledOnes);
}

#[test]
fn data_crosses_both_ways_once_trained() {
    let mut caller = Slow::new(Role::Originate);
    let mut answerer = Slow::new(Role::Answer);
    exchange(&mut caller, &mut answerer, 150);
    let message: Vec<bool> = (0..600).map(|n| n % 7 < 3).collect();
    caller.push_bits(&message);
    answerer.push_bits(&message);
    let (at_caller, at_answerer) = exchange(&mut caller, &mut answerer, 50);
    let found = |bits: &[bool]| bits.windows(message.len()).any(|w| w == message);
    assert!(found(&at_caller), "the caller lost the answerer's data");
    assert!(found(&at_answerer), "the answerer lost the caller's data");
    assert_eq!(caller.v22.pending(), 0);
}

#[test]
fn two_ends_train_at_2400_and_carry_data() {
    let (mut caller, mut answerer) = trained();
    assert_eq!((caller.bit_rate(), answerer.bit_rate()), (2400, 2400));
    crosses(&mut caller, &mut answerer);
}

#[test]
fn answers_a_retrain_and_carries_data_again() {
    let (mut caller, mut answerer) = trained();
    caller.v22bis.retrain();
    exchange(&mut caller, &mut answerer, 20);
    assert!(!answerer.ready(), "the answerer did not hear the retrain");
    settle(&mut caller, &mut answerer);
    assert_eq!((caller.bit_rate(), answerer.bit_rate()), (2400, 2400));
    crosses(&mut caller, &mut answerer);
}

#[test]
fn changes_rate_down_to_1200_and_back_up() {
    let (mut caller, mut answerer) = trained();
    answerer.v22bis.initiate(Rate::Bps1200);
    settle(&mut caller, &mut answerer);
    assert_eq!((caller.bit_rate(), answerer.bit_rate()), (1200, 1200));
    crosses(&mut caller, &mut answerer);

    caller.v22bis.retrain();
    exchange(&mut caller, &mut answerer, 5);
    settle(&mut caller, &mut answerer);
    assert_eq!((caller.bit_rate(), answerer.bit_rate()), (2400, 2400));
    crosses(&mut caller, &mut answerer);
}

#[test]
fn repeats_s1_until_the_far_end_answers() {
    let (mut caller, _answerer) = trained();
    caller.v22bis.retrain();
    let mut s1_starts = 0;
    for _ in 0..150 {
        let was_s1 = matches!(caller.v22bis.control().transmit, Transmit::S1 { .. });
        caller.transmit();
        if !was_s1 && matches!(caller.v22bis.control().transmit, Transmit::S1 { .. }) {
            s1_starts += 1;
        }
    }
    assert!(s1_starts >= 2, "S1 was sent again {s1_starts} times in 3 s");
}

#[test]
fn retrains_when_noise_ruins_equalisation_then_steps_down() {
    let (mut caller, mut answerer) = trained();
    let mut burst = |caller: &mut Fast, answerer: &mut Fast| {
        caller.lost = true;
        exchange(caller, answerer, 17);
        caller.lost = false;
        exchange(caller, answerer, 20);
    };

    let retrained_at = caller.v22bis.control().retrained_at;
    burst(&mut caller, &mut answerer);
    settle(&mut caller, &mut answerer);
    assert_ne!(
        caller.v22bis.control().retrained_at,
        retrained_at,
        "nobody retrained"
    );
    assert_eq!(caller.bit_rate(), 2400, "the first retrain stepped down");

    burst(&mut caller, &mut answerer);
    settle(&mut caller, &mut answerer);
    assert_eq!(
        (caller.bit_rate(), answerer.bit_rate()),
        (1200, 1200),
        "a second loss soon after did not step down"
    );
    crosses(&mut caller, &mut answerer);
}

#[test]
fn v22_top_offers_v22_and_meets_v22bis_at_1200() {
    let offer = |top| Offered {
        top,
        fallback: true,
    };
    let (chosen, answers, _) = start(offer(Modulation::V22), offer(Modulation::V22bis));
    assert_eq!(chosen, Pump::V22(Role::Originate));
    assert_eq!(answers, Next::Fresh(Pump::V22bis(Role::Answer)));
    let mut caller = Slow::new(Role::Originate);
    let mut answerer = Fast::new(Role::Answer);
    connect(&mut caller, &mut answerer);
    assert_eq!((caller.bit_rate(), answerer.bit_rate()), (1200, 1200));
}

#[test]
fn a_v22_answerer_brings_it_down_to_1200() {
    let mut caller = Fast::new(Role::Originate);
    let mut answerer = Slow::new(Role::Answer);
    connect(&mut caller, &mut answerer);
    assert_eq!(caller.bit_rate(), 1200);
    crosses(&mut caller, &mut answerer);
}

#[test]
fn a_v22_caller_brings_it_down_to_1200() {
    let mut caller = Slow::new(Role::Originate);
    let mut answerer = Fast::new(Role::Answer);
    connect(&mut caller, &mut answerer);
    assert_eq!(answerer.bit_rate(), 1200);
    crosses(&mut caller, &mut answerer);
}

#[test]
fn recognises_s1_and_its_end() {
    let mut detector = S1Detector::default();
    let ended: Vec<bool> = (0..30)
        .map(|n| if n % 2 == 0 { 1 } else { 3 })
        .chain([0, 0])
        .map(|turns| detector.push(turns))
        .collect();
    assert_eq!(ended.iter().filter(|&&e| e).count(), 1);
    assert!(ended[30]);
}

#[test]
fn unscrambled_ones_are_not_s1() {
    let mut detector = S1Detector::default();
    assert!(!(0..100).any(|_| detector.push(3)));
    assert!(!detector.heard);
}

#[test]
fn the_constellation_is_figure_2() {
    let at = |bits: (bool, bool), quadrant| {
        let (x, y) = rotate(inner_point(bits.0, bits.1), quadrant);
        (f64::from(x), f64::from(y))
    };
    assert_eq!(at((false, false), 0), (1.0, 1.0));
    assert_eq!(at((false, true), 0), (3.0, 1.0));
    assert_eq!(at((true, false), 0), (1.0, 3.0));
    assert_eq!(at((true, true), 0), (3.0, 3.0));
    assert_eq!(at((true, true), 1), (-3.0, 3.0));
    assert_eq!(at((false, true), 1), (-1.0, 3.0));
    assert_eq!(at((false, true), 2), (-3.0, -1.0));
    assert_eq!(at((false, true), 3), (1.0, -3.0));
    assert_eq!(at((true, false), 3), (3.0, -1.0));
}

#[test]
fn the_16_points_have_unit_mean_power() {
    let total: f64 = (0..4)
        .flat_map(|q| {
            [(false, false), (false, true), (true, false), (true, true)].map(|(a, b)| {
                let (x, y) = rotate(inner_point(a, b), q);
                f64::from(i32::from(x).pow(2) + i32::from(y).pow(2)) / 10.0
            })
        })
        .sum();
    assert!((total / 16.0 - 1.0).abs() < 1e-12);
}

#[test]
fn decides_the_nearest_point() {
    // Points of unit mean power are √10 steps of figure 2.
    let received = |z: (f64, f64)| {
        let fine = 10f64.sqrt() * 1024.0;
        ((z.0 * fine).round() as i32, (z.1 * fine).round() as i32)
    };
    let decision = decide(received((0.9, 0.35)), Rate::Bps2400);
    assert_eq!((decision.quadrant, decision.inner), (0, (false, true)));
    let decision = decide(received((-0.2, 0.9)), Rate::Bps1200);
    assert_eq!(decision.quadrant, 1);
}

#[test]
fn a_rate_uses_its_points() {
    assert_eq!(decisions(Rate::Bps1200).len(), 4);
    assert_eq!(decisions(Rate::Bps2400).len(), 16);
    let (mut out, mut heard) = (Mapper::new(), Mapper::new());
    for n in 0..16u8 {
        let bits: Vec<bool> = (0..4).map(|k| n >> k & 1 == 1).collect();
        let decision = out.map(&bits);
        assert_eq!(heard.unmap(decision, Rate::Bps2400), bits);
    }
}

// Whether each sample carries a tone, and which.
fn play(sequence: &str, pause: usize) -> Vec<Option<(usize, usize)>> {
    let mut sender = DtmfSender::new(sequence, pause);
    let mut out = Vec::new();
    while !sender.done() {
        match sender.next(160) {
            Step::Digit { row, column, left } => {
                out.extend(std::iter::repeat_n(Some((row, column)), left))
            }
            Step::Silence { left } => out.extend(std::iter::repeat_n(None, left)),
        }
    }
    out
}

#[test]
fn each_key_sends_its_row_and_column() {
    for (row, keys) in ["123A", "456B", "789C", "*0#D"].iter().enumerate() {
        for (column, key) in keys.chars().enumerate() {
            assert_eq!(place(key), Some((row, column)));
            let samples = play(&key.to_string(), 0);
            assert!(samples[..TONE_SAMPLES]
                .iter()
                .all(|&tone| tone == Some((row, column))));
        }
    }
}

#[test]
fn a_digit_is_a_tone_then_a_gap() {
    let samples = play("5", 0);
    assert_eq!(samples.len(), TONE_SAMPLES + GAP_SAMPLES);
    assert!(samples[..TONE_SAMPLES].iter().all(|s| s.is_some()));
    assert!(samples[TONE_SAMPLES..].iter().all(|s| s.is_none()));
}

#[test]
fn a_comma_is_a_silent_pause() {
    let samples = play(",1", 4000);
    assert!(samples[..4000].iter().all(|s| s.is_none()));
    assert!(samples[4000..4000 + TONE_SAMPLES].iter().all(|s| s.is_some()));
}

#[test]
fn skips_what_is_not_a_key() {
    assert!(DtmfSender::new("xyz", 8000).done());
    assert_eq!(play("1x2", 0), play("12", 0));
}

#[test]
fn is_silent_once_done() {
    let mut sender = DtmfSender::new("", 0);
    assert_eq!(sender.next(160), Step::Silence { left: 160 });
}

fn heard(samples: usize, modulated: bool) -> Option<AnswerToneKind> {
    let mut hearing = Hearing::new();
    for _ in 0..samples / STEP {
        if hearing.push(true) == ToneStep::Judged {
            hearing.judge(modulated);
        }
    }
    hearing.heard
}

#[test]
fn needs_400_ms_to_decide() {
    assert_eq!(heard(2800, true), None);
    assert_eq!(heard(3400, true), Some(AnswerToneKind::Ansam));
    assert_eq!(heard(3400, false), Some(AnswerToneKind::Ans));
}

#[test]
fn forgets_the_tone_within_30_ms_of_its_end() {
    let mut hearing = Hearing::new();
    for _ in 0..400 {
        if hearing.push(true) == ToneStep::Judged {
            hearing.judge(true);
        }
    }
    for _ in 0..6 {
        hearing.push(false);
    }
    assert_eq!(hearing.heard, None);
}

#[test]
fn the_answer_tone_reverses_every_450_ms() {
    assert!(!reverses(0) && !reverses(3599) && reverses(3600) && reverses(7200));
}

#[test]
fn a_carrier_counts_once_it_has_lasted() {
    let mut tracker = Tracker::new(3, 2);
    for expected in [false, false, true] {
        tracker.push(true, false);
        assert_eq!(tracker.carrier, expected);
    }
    tracker.push(false, true);
    assert!(tracker.carrier);
    tracker.push(false, true);
    assert!(!tracker.carrier);
}

// What a detector for `pair` hears of a signal sent on `sent`.
fn signals_heard(signal: Signal, sent: Pair, pair: Pair) -> Vec<Signal> {
    let mut sending = Sending::new(signal);
    let mut hearing = SignalHearing::new(pair);
    let mut found = Vec::new();
    let place = pair
        .signals()
        .iter()
        .position(|other| other.segment_2_hz() == signal.segment_2_hz());
    for _ in 0..12_000 {
        let part = if sending.done() {
            Part::Silence
        } else {
            sending.next()
        };
        let (paired, single) = match part {
            Part::Pair => (sent == pair, None),
            Part::Single => (false, place),
            Part::Silence => (false, None),
        };
        found.extend(hearing.push(paired, single));
    }
    found
}

#[test]
fn hears_each_signal_after_its_own_dual_tone() {
    for pair in [Pair::Initiating, Pair::Responding] {
        for signal in pair.signals() {
            assert_eq!(signals_heard(signal, pair, pair), [signal], "{signal:?}");
        }
    }
}

#[test]
fn does_not_hear_the_other_pair() {
    assert!(signals_heard(Signal::CRe, Pair::Initiating, Pair::Responding).is_empty());
    assert!(signals_heard(Signal::CRd, Pair::Responding, Pair::Initiating).is_empty());
}

#[test]
fn v21_connects_once_each_end_has_sent_its_carrier() {
    let mut caller = V21::new(Role::Originate);
    let mut answerer = V21::new(Role::Answer);
    assert!(answerer.transmit(FRAME));
    assert!(!caller.transmit(FRAME));
    caller.receive(true);
    for _ in 0..31 {
        assert!(caller.transmit(FRAME));
        answerer.transmit(FRAME);
        answerer.receive(true);
    }
    assert!(caller.connected() && answerer.connected());
}

fn shown() -> Shown {
    Shown {
        found: None,
        jumped: None,
        agrees: true,
        alone: false,
    }
}

fn tracking() -> EchoTracker {
    let mut tracker = EchoTracker::new();
    tracker.acquired(1000, 5000);
    tracker
}

#[test]
fn an_echo_is_taken_up_where_it_is_found() {
    let mut tracker = EchoTracker::new();
    assert_eq!(tracker.delay(), None);
    let found = Shown {
        found: Some(1000),
        ..shown()
    };
    assert_eq!(tracker.check(false, found), Verdict::Stays);
    assert_eq!(tracker.check(true, found), Verdict::Acquire(1000));
    let mut history = History::new();
    assert_eq!(EchoTracker::acquires(1000, &history), None);
    history.push(true);
    assert_eq!(EchoTracker::acquires(1000, &history), Some((984, 1048)));
    tracker.acquired(1000, 1048);
    assert_eq!(tracker.delay(), Some(1000));
    assert_eq!(tracker.window(), (360, 1640));
}

#[test]
fn an_echo_that_jumps_is_followed_once_it_holds() {
    let mut tracker = tracking();
    let jumped = |at| Shown {
        jumped: Some(at),
        ..shown()
    };
    assert_eq!(tracker.check(true, jumped(1200)), Verdict::Stays);
    assert_eq!(tracker.check(true, jumped(1400)), Verdict::Stays);
    assert_eq!(tracker.check(true, jumped(1404)), Verdict::Moved);
    assert_eq!(tracker.delay(), Some(1420));
    assert_eq!(tracker.check(true, jumped(4800)), Verdict::Stays);
    assert_eq!(tracker.check(true, jumped(4800)), Verdict::Lost);
    assert_eq!(tracker.delay(), None);
}

#[test]
fn an_echo_is_lost_after_100_checks_without_agreement() {
    let mut tracker = tracking();
    let strange = Shown {
        agrees: false,
        ..shown()
    };
    for _ in 0..99 {
        assert_eq!(tracker.check(true, strange), Verdict::Stays);
    }
    assert_eq!(tracker.check(true, strange), Verdict::Lost);
}

#[test]
fn the_taps_are_solved_from_what_is_recent_and_broadband() {
    let mut history = History::new();
    for _ in 0..100 {
        history.push(false);
    }
    for _ in 0..5000 {
        history.push(true);
    }
    assert_eq!(solves(900, 0, 5000, &history), Some((3400, 5000)));
    assert_eq!(solves(900, 4000, 5000, &history), Some((4000, 5000)));
    assert_eq!(solves(900, 4800, 5000, &history), None);
    assert_eq!(solves(4800, 0, 5000, &history), None);
    assert_eq!(history.back_from(5099, 64), Some(History::at(5099)));
    assert_eq!(history.back_from(5100, 64), None);
}

//! Phase 2 of two modems, sample by sample, on what each sample carries.

use std::collections::VecDeque;

use softmodem_dsp::pump::Role;
use softmodem_dsp::v34::info::Info;
use softmodem_dsp::v34::phase2::{Measured, Phase2, Reply, Tx};
use softmodem_dsp::v34::rates::{highest, Band};
use softmodem_dsp::v34::SymbolRate;

const FRAME: usize = 160;

#[derive(Debug, Clone, Copy, PartialEq)]
enum Sound {
    Quiet,
    /// INFO, with the bit that ends in this sample.
    Info(Option<bool>),
    /// Tone A or B, and whether it is reversed.
    Tone(bool),
    Probe,
}

struct End {
    phase2: Phase2,
    info: VecDeque<bool>,
    bit_clock: usize,
    reversed: bool,
    reverse_after: Option<usize>,
    heard: usize,
    last: Sound,
    tone: usize,
}

impl End {
    fn new(phase2: Phase2) -> Self {
        Self {
            info: phase2.own_info().into(),
            phase2,
            bit_clock: 0,
            reversed: false,
            reverse_after: None,
            heard: 0,
            last: Sound::Quiet,
            tone: 0,
        }
    }

    fn sound(&mut self, tx: Tx) -> Sound {
        match tx {
            Tx::Silence => Sound::Quiet,
            Tx::L1 | Tx::L2 => Sound::Probe,
            Tx::Tone => {
                match self.reverse_after {
                    Some(0) => {
                        self.reversed = !self.reversed;
                        self.reverse_after = None;
                    }
                    Some(left) => self.reverse_after = Some(left - 1),
                    None => {}
                }
                Sound::Tone(self.reversed)
            }
            Tx::Info => {
                // 600 bit/s of 8000 samples.
                self.bit_clock += 600;
                if self.bit_clock < 8000 {
                    return Sound::Info(None);
                }
                self.bit_clock -= 8000;
                Sound::Info(self.info.pop_front())
            }
        }
    }

    fn transmit(&mut self) -> Vec<Sound> {
        let mut out = Vec::new();
        while out.len() < FRAME {
            let (tx, length) = self.phase2.transmit(FRAME - out.len());
            for _ in 0..length {
                let sound = self.sound(tx);
                out.push(sound);
            }
            if let Some(info1c) = self.phase2.sent(length) {
                self.info = info1c.frame().into();
            }
        }
        if self.phase2.progress().tx == Tx::Info && self.info.is_empty() {
            self.phase2.info_sent();
        }
        out
    }

    fn receive(&mut self, input: &[Sound]) {
        for &sound in input {
            if let Sound::Info(Some(bit)) = sound {
                match self.phase2.bit(bit, input.len()) {
                    Reply::Nothing => {}
                    Reply::Info1a(info1a) => self.info = info1a.frame().into(),
                    Reply::WantsUinfo(_, info1d) => {
                        if let Some(reply) = self.phase2.decide_pcm(&info1d, 75) {
                            self.info = reply.frame().into();
                        }
                    }
                }
            }
            if let (Sound::Tone(was), Sound::Tone(is)) = (self.last, sound) {
                if was != is {
                    self.phase2.reversed(self.heard);
                }
            }
            self.tone = match sound {
                Sound::Tone(_) => self.tone + 1,
                _ => 0,
            };
            self.last = sound;
            self.heard += 1;
        }
        let measured = self.phase2.measured(input.len()).then(clean);
        let (reverse, info1c) = self.phase2.advance(input.len(), self.tone >= 80, measured);
        if reverse.is_some() {
            self.reverse_after = reverse;
        }
        if let Some(info1c) = info1c {
            self.info = info1c.frame().into();
        }
    }
}

fn clean() -> Measured {
    Measured {
        bands: SymbolRate::ALL.map(|rate| {
            [1, 2].map(|rank| Band {
                rank,
                max_rate: highest(rate, 40_000),
            })
        }),
        offset: Some(0),
    }
}

fn run(delay: usize) -> (Phase2, Phase2, usize) {
    run_between(
        Phase2::new(Role::Originate),
        Phase2::new(Role::Answer),
        delay,
    )
}

// `call` and `answer` in their V.34 parts, which V.90 gives the digital and the analogue modem.
fn run_between(call: Phase2, answer: Phase2, delay: usize) -> (Phase2, Phase2, usize) {
    let (mut call, mut answer) = (End::new(call), End::new(answer));
    let mut up_line = VecDeque::from(vec![Sound::Quiet; delay]);
    let mut down_line = up_line.clone();
    let mut frames = 0;
    while !(call.phase2.done() && answer.phase2.done()) && frames < 400 {
        up_line.extend(call.transmit());
        down_line.extend(answer.transmit());
        let heard_up: Vec<Sound> = up_line.drain(..FRAME).collect();
        let heard_down: Vec<Sound> = down_line.drain(..FRAME).collect();
        answer.receive(&heard_up);
        call.receive(&heard_down);
        frames += 1;
    }
    (call.phase2, answer.phase2, frames)
}

#[test]
fn two_ends_settle_phase_2_on_a_clean_line() {
    let (call, answer, frames) = run(0);
    let (Some(call), Some(answer)) = (call.outcome(), answer.outcome()) else {
        panic!(
            "phase 2 did not finish in {} ms: call {:?}, answer {:?}",
            frames * 20,
            call.progress().step,
            answer.progress().step
        );
    };
    assert_eq!(call.transmit.symbol_rate, answer.receive.symbol_rate);
    assert_eq!(call.receive.symbol_rate, answer.transmit.symbol_rate);
    assert_eq!(call.transmit.high_carrier, answer.receive.high_carrier);
    assert_eq!(call.receive.high_carrier, answer.transmit.high_carrier);
    assert_eq!(call.receive.symbol_rate, SymbolRate::S3429);
    assert_eq!(call.receive.max_rate, 14);
    assert!(frames < 150, "phase 2 took {} ms", frames * 20);
}

#[test]
fn a_digital_and_an_analogue_modem_settle_phase_2_of_v90() {
    for delay in [0, 400] {
        let (digital, analogue, frames) = run_between(Phase2::digital(), Phase2::analogue(), delay);
        let (Some(digital), Some(analogue)) = (digital.pcm_outcome(), analogue.pcm_outcome()) else {
            panic!(
                "V.90 phase 2 did not finish in {} ms: digital {:?}, analogue {:?}",
                frames * 20,
                digital.progress().step,
                analogue.progress().step
            );
        };
        assert_eq!(digital.upstream.symbol_rate, analogue.upstream.symbol_rate);
        assert_eq!(
            digital.upstream.high_carrier,
            analogue.upstream.high_carrier
        );
        assert_eq!(analogue.upstream.symbol_rate, SymbolRate::S3429);
        assert_eq!((digital.uinfo, analogue.uinfo), (75, 75));
        assert_eq!(digital.digital, analogue.digital);
        assert!(digital.round_trip.abs_diff(2 * delay) <= 8);
    }
}

#[test]
fn measures_the_round_trip() {
    for delay in [0, 400] {
        let (call, answer, _) = run(delay);
        let (call, answer) = (call.outcome().unwrap(), answer.outcome().unwrap());
        for measured in [call.round_trip, answer.round_trip] {
            assert!(
                measured.abs_diff(2 * delay) <= 8,
                "the round trip delay would be {measured} samples, not {}",
                2 * delay
            );
        }
    }
}

#[test]
fn a_retrain_settles_as_phase_2_did() {
    let (call, answer, _) = run(0);
    let (call, answer) = (call.outcome().unwrap(), answer.outcome().unwrap());
    let (again_call, again_answer, _) = run_between(
        Phase2::retrain(Role::Originate, call.far),
        Phase2::retrain(Role::Answer, answer.far),
        0,
    );
    assert_eq!(
        again_call.outcome().unwrap().transmit,
        call.transmit
    );
    assert_eq!(
        again_answer.outcome().unwrap().receive,
        answer.receive
    );
}

#[test]
fn a_retrain_of_v90_settles_as_phase_2_did() {
    let (digital, analogue, _) = run_between(Phase2::digital(), Phase2::analogue(), 0);
    let (digital, analogue) = (
        digital.pcm_outcome().unwrap(),
        analogue.pcm_outcome().unwrap(),
    );
    let (again_digital, again_analogue, _) = run_between(
        Phase2::retrain_digital(digital.far),
        Phase2::retrain_analogue(analogue.digital),
        0,
    );
    let (again_digital, again_analogue) = (
        again_digital.pcm_outcome().unwrap(),
        again_analogue.pcm_outcome().unwrap(),
    );
    assert_eq!(again_digital.uinfo, digital.uinfo);
    assert_eq!(again_digital.upstream, again_analogue.upstream);
    assert_eq!(again_analogue.digital, digital.digital);
}

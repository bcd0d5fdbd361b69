use softmodem_dsp::pump::Role;
use softmodem_dsp::scrambler::{Polynomial, Scrambler};
use softmodem_dsp::v34::constellation::{label, rotate, Point};
use softmodem_dsp::v34::decoder::representative;
use softmodem_dsp::v34::detect::{Heard, Likeness, SDetector};
use softmodem_dsp::v34::encoder::{Encoder, Settings};
use softmodem_dsp::v34::energy::average_energy;
use softmodem_dsp::v34::framing::Framing;
use softmodem_dsp::v34::mp::Trellis;
use softmodem_dsp::v34::precoder::{round_div, Fixed};
use softmodem_dsp::v34::rates::{agree, highest, mask, probe, Band};
use softmodem_dsp::v34::training::{pattern, pp, s, s_bar, Points, Sender, J_4, PP_SYMBOLS};
use softmodem_dsp::v34::trellis::subset;
use softmodem_dsp::v34::viterbi::{nearest, Received, Viterbi, FINE};
use softmodem_dsp::v34::SymbolRate;

type Complex = (f64, f64);

fn to_complex(x: Fixed) -> Complex {
    (x.0 as f64 / 128.0, x.1 as f64 / 128.0)
}

#[test]
fn rounds_halves_towards_the_smaller_magnitude() {
    assert_eq!(round_div(3, 2), 1);
    assert_eq!(round_div(-3, 2), -1);
    assert_eq!(round_div(5, 2), 2);
    assert_eq!(round_div(7, 4), 2);
    assert_eq!(round_div(-6, 4), -1);
    assert_eq!(round_div(0, 4), 0);
}

#[test]
fn representatives_have_their_labels() {
    for label in 0u8..8 {
        assert_eq!(subset(representative(label)), label);
    }
}

// In 2⁻¹⁶ of the units of figure 5.
fn fine_point(point: Complex) -> Received {
    let fine = FINE as f64;
    (
        (point.0 * fine).round() as i64,
        (point.1 * fine).round() as i64,
    )
}

#[test]
fn rounds_away_from_the_origin_between_two_points() {
    for (z, found) in [
        ((-1.0, -1.0), (-3, -3)),
        ((3.0, 3.0), (5, 5)),
        ((-1.0, 1.0), (1, 1)),
        ((5.0, 1.0), (5, 5)),
    ] {
        assert_eq!(nearest(fine_point(z), 0).0, found, "{z:?}");
    }
}

#[test]
fn finds_the_nearest_point_of_each_subset() {
    for label in 0..8 {
        for (re, im) in [(0.3, -7.2), (12.9, 4.4), (-20.0, -20.0), (2.0, 2.0)] {
            let (found, distance) = nearest(fine_point((re, im)), label);
            let distance = distance as f64 / (FINE as f64).powi(2);
            assert_eq!(subset(found), label);
            for dx in (-12..=12).step_by(2) {
                for dy in (-12..=12).step_by(2) {
                    let other = (found.0 + dx, found.1 + dy);
                    if subset(other) == label {
                        let d =
                            (re - f64::from(other.0)).powi(2) + (im - f64::from(other.1)).powi(2);
                        assert!(d >= distance - 1e-3, "{other:?} is nearer than {found:?}");
                    }
                }
            }
        }
    }
}

struct Noise(u64);

impl Noise {
    fn uniform(&mut self) -> f64 {
        self.0 ^= self.0 << 13;
        self.0 ^= self.0 >> 7;
        self.0 ^= self.0 << 17;
        f64::from(u32::try_from(self.0 >> 32).unwrap()) / f64::from(u32::MAX) - 0.5
    }

    fn gaussian(&mut self) -> f64 {
        (0..12).map(|_| self.uniform()).sum()
    }

    fn bit(&mut self) -> bool {
        self.uniform() > 0.0
    }
}

fn errors(symbol_rate: SymbolRate, bit_rate: u32, trellis: Trellis, sigma: f64) -> (usize, usize) {
    let framing = Framing::new(symbol_rate, bit_rate, false).unwrap();
    let settings = Settings {
        trellis,
        ..Settings::default()
    };
    let mut encoder = Encoder::new(framing, settings);
    let mut decoder = Viterbi::new(framing, trellis);
    let mut noise = Noise(0x2545_F491_4F6C_DD1D);
    let mut sent: Vec<bool> = Vec::new();
    let mut received: Vec<bool> = Vec::new();
    for _ in 0..300 {
        let bits: Vec<bool> = (0..encoder.bits()).map(|_| noise.bit()).collect();
        sent.extend(&bits);
        let points = encoder
            .encode(&bits)
            .map(to_complex)
            .map(|(re, im)| (re + sigma * noise.gaussian(), im + sigma * noise.gaussian()))
            .map(fine_point);
        received.extend(decoder.decode(points));
    }
    let wrong = sent.iter().zip(&received).filter(|(a, b)| a != b).count();
    (wrong, received.len())
}

#[test]
fn decodes_what_the_encoder_sends() {
    for (symbol_rate, bit_rate) in [
        (SymbolRate::S2400, 2400),
        (SymbolRate::S2400, 4800),
        (SymbolRate::S3000, 7200),
        (SymbolRate::S2800, 14_400),
        (SymbolRate::S3200, 28_800),
        (SymbolRate::S3429, 33_600),
    ] {
        for trellis in [Trellis::States16, Trellis::States32, Trellis::States64] {
            let (wrong, decided) = errors(symbol_rate, bit_rate, trellis, 0.0);
            assert!(decided > 0);
            assert_eq!(
                wrong, 0,
                "{symbol_rate:?} at {bit_rate} with {trellis:?} would lose data"
            );
        }
    }
}

fn mean_energy(framing: &Framing) -> f64 {
    let (energy, points) = average_energy(framing);
    energy as f64 / points as f64
}

fn baud(symbol_rate: SymbolRate) -> f64 {
    let (a, c) = symbol_rate.ratio();
    2400.0 * f64::from(a) / f64::from(c)
}

#[test]
fn decodes_as_well_as_the_rate_choice_assumes() {
    for (symbol_rate, bit_rate) in [(SymbolRate::S3429, 33_600), (SymbolRate::S2400, 9_600)] {
        let framing = Framing::new(symbol_rate, bit_rate, false).unwrap();
        let energy = mean_energy(&framing);
        let bits = f64::from(bit_rate) / baud(symbol_rate);
        let snr_db = 4.0 + 3.01 * bits;
        let sigma = (energy / 2.0 / 10f64.powf(snr_db / 10.0)).sqrt();
        let (wrong, decided) = (0..4)
            .map(|_| errors(symbol_rate, bit_rate, Trellis::States16, sigma))
            .fold((0, 0), |a, b| (a.0 + b.0, a.1 + b.1));
        assert!(
            wrong * 100_000 <= decided,
            "at {snr_db:.1} dB, {bit_rate} bit/s would lose {wrong} of {decided} bits"
        );
    }
}

#[test]
fn corrects_errors_that_slicing_alone_would_make() {
    let sigma = 0.35;
    let (coded, decided) = errors(SymbolRate::S3200, 24_000, Trellis::States16, sigma);
    let mut noise = Noise(7);
    let flips = (0..100_000)
        .filter(|_| {
            let (re, im) = (sigma * noise.gaussian(), sigma * noise.gaussian());
            re.abs() > 1.0 || im.abs() > 1.0
        })
        .count();
    assert!(flips > 500, "the test line would be too clean: {flips}");
    assert!(
        coded * 1000 < decided,
        "the trellis would not correct errors: {coded} of {decided} bits wrong"
    );
}

fn bits_for(encoder: &Encoder, seed: &mut u64) -> Vec<bool> {
    (0..encoder.bits())
        .map(|_| {
            *seed ^= *seed << 13;
            *seed ^= *seed >> 7;
            *seed ^= *seed << 17;
            *seed & 1 == 1
        })
        .collect()
}

fn encoder(symbol_rate: SymbolRate, bit_rate: u32, settings: Settings) -> Encoder {
    Encoder::new(
        Framing::new(symbol_rate, bit_rate, false).unwrap(),
        settings,
    )
}

fn grid(point: Complex) -> Point {
    (point.0 as i32, point.1 as i32)
}

#[test]
fn sends_only_points_of_its_constellation() {
    for (symbol_rate, bit_rate) in [
        (SymbolRate::S2400, 2400),
        (SymbolRate::S3000, 7200),
        (SymbolRate::S3200, 28_800),
        (SymbolRate::S3429, 33_600),
    ] {
        let mut encoder = encoder(symbol_rate, bit_rate, Settings::default());
        let quarter = Framing::new(symbol_rate, bit_rate, false).unwrap().points / 4;
        let mut seed = 1;
        for _ in 0..200 {
            let bits = bits_for(&encoder, &mut seed);
            for point in encoder.encode(&bits).map(to_complex) {
                let (label, _) = label(grid(point)).unwrap();
                assert!(
                    label < quarter,
                    "{symbol_rate:?} at {bit_rate} would send a point the far end lacks"
                );
            }
        }
    }
}

#[test]
fn takes_n_bits_in_each_data_frame() {
    let mut encoder = encoder(SymbolRate::S3000, 19_200, Settings::default());
    let mut seed = 7;
    let taken: usize = (0..15)
        .map(|_| {
            let bits = bits_for(&encoder, &mut seed);
            encoder.encode(&bits);
            bits.len()
        })
        .sum();
    assert_eq!(taken, 19_200 * 28 / 100 / 7);
}

#[test]
fn its_points_have_the_energy_it_reports() {
    for (symbol_rate, bit_rate) in [(SymbolRate::S3200, 26_400), (SymbolRate::S3429, 33_600)] {
        let mut encoder = encoder(symbol_rate, bit_rate, Settings::default());
        let framing = Framing::new(symbol_rate, bit_rate, false).unwrap();
        let energy = mean_energy(&framing);
        let mut seed = 3;
        let mut total = 0.0;
        let frames = 12_000;
        for _ in 0..frames {
            let bits = bits_for(&encoder, &mut seed);
            total += encoder
                .encode(&bits)
                .map(to_complex)
                .iter()
                .map(|p| p.0 * p.0 + p.1 * p.1)
                .sum::<f64>();
        }
        let mean = total / f64::from(8 * frames);
        assert!(
            (mean / energy - 1.0).abs() < 0.01,
            "{bit_rate} bit/s would be sent at a level off by more than 1% from what a far receiver expects: {mean:.2} against {energy:.2}",
        );
    }
}

#[test]
fn precodes_onto_the_modulo_grid() {
    let settings = Settings {
        precoding: [(4096, -2048), (-1024, 512), (300, 200)],
        ..Settings::default()
    };
    let mut plain = encoder(SymbolRate::S3000, 24_000, Settings::default());
    let mut precoded = encoder(SymbolRate::S3000, 24_000, settings);
    let mut seed = 5;
    let mut differs = false;
    for _ in 0..100 {
        let bits = bits_for(&plain, &mut seed);
        let a = plain.encode(&bits);
        let b = precoded.encode(&bits);
        differs |= a != b;
        for point in b.map(to_complex) {
            assert!(
                point.0.abs() <= 255.0 && point.1.abs() <= 255.0,
                "the precoder would leave the bounds of § 9.6.2: {point:?}"
            );
        }
    }
    assert!(differs, "the precoder would do nothing");
}

#[test]
fn inverts_u0_at_each_half_data_frame_as_table_12() {
    let encoder = encoder(SymbolRate::S3000, 19_200, Settings::default());
    let half = 2 * 15;
    let pattern: Vec<bool> = (0..14).map(|h| encoder.inversion(h * half)).collect();
    let expected = [
        true, false, false, true, true, true, false, true, true, true, true, true, true, true,
    ];
    assert_eq!(pattern, expected);
    assert!(!encoder.inversion(1));
}

fn unit(point: Point, power: f64) -> Complex {
    (
        f64::from(point.0) / power.sqrt(),
        f64::from(point.1) / power.sqrt(),
    )
}

fn pp_point(i: usize) -> Complex {
    let angle = std::f64::consts::TAU * f64::from(pp(i)) / 12.0;
    (angle.cos(), angle.sin())
}

fn power(points: impl Iterator<Item = Complex>) -> f64 {
    let (sum, count) = points.fold((0.0, 0.0), |(sum, count), p| {
        (sum + p.0 * p.0 + p.1 * p.1, count + 1.0)
    });
    sum / count
}

#[test]
fn s_ends_as_s_bar_begins() {
    assert_eq!(unit(s(127), 2.0), unit((-1, 1), 2.0));
    assert_eq!(unit(s_bar(0), 2.0), unit((-1, -1), 2.0));
    assert_eq!(unit(s(0), 2.0), unit((1, 1), 2.0));
    assert_eq!(unit(s_bar(1), 2.0), unit((1, -1), 2.0));
}

#[test]
fn pp_has_unit_power_and_a_period_of_48() {
    for i in 0..PP_SYMBOLS - 48 {
        let (a, b) = (pp_point(i), pp_point(i + 48));
        assert!((a.0 - b.0).abs() < 1e-9 && (a.1 - b.1).abs() < 1e-9);
        assert!((a.0 * a.0 + a.1 * a.1 - 1.0).abs() < 1e-9);
    }
}

#[test]
fn pp_is_flat_across_its_period() {
    for shift in 1..48 {
        let (re, im) = (0..48).fold((0.0, 0.0), |(re, im), i| {
            let (a, b) = (pp_point(i), pp_point((i + shift) % 48));
            (re + a.0 * b.0 + a.1 * b.1, im + a.1 * b.0 - a.0 * b.1)
        });
        assert!(
            (re * re + im * im).sqrt() < 1e-9,
            "PP would not train an equaliser evenly: correlation at {shift}"
        );
    }
}

#[test]
fn every_signal_has_unit_mean_power() {
    let mut sender = Sender::new(Role::Answer);
    let four = (0..2000).map(|_| unit(sender.trn(Points::Four), 2.0));
    assert!((power(four) - 1.0).abs() < 1e-9);
    let sixteen = power((0..20_000).map(|_| unit(sender.trn(Points::Sixteen), 10.0)));
    assert!((sixteen - 1.0).abs() < 0.03);
    assert!((power((0..128).map(|n| unit(s(n), 2.0))) - 1.0).abs() < 1e-9);
}

#[test]
fn trn_starts_from_a_scrambler_at_zero() {
    let mut sender = Sender::new(Role::Originate);
    let first = sender.trn(Points::Four);
    let mut scrambler = Scrambler::with(Polynomial::V34_CALL);
    let turns = u8::from(scrambler.scramble(true)) + 2 * u8::from(scrambler.scramble(true));
    assert_eq!(unit(first, 2.0), unit(rotate((1, 1), turns), 2.0));
}

#[test]
fn sends_j_as_two_bits_a_symbol() {
    let mut sender = Sender::new(Role::Answer);
    assert_eq!(sender.sequence(&pattern(J_4), Points::Four).len(), 8);
    assert_eq!(sender.sequence(&pattern(J_4), Points::Sixteen).len(), 4);
}

fn product(a: Complex, b: Complex) -> Complex {
    (a.0 * b.0 + a.1 * b.1, a.1 * b.0 - a.0 * b.1)
}

fn magnitude(a: Complex) -> f64 {
    (a.0 * a.0 + a.1 * a.1).sqrt()
}

fn likeness(z: Complex, old: Complex, older: Complex) -> Likeness {
    let scale = magnitude(z) * magnitude(older);
    if scale <= 0.0 {
        return Likeness::Nothing;
    }
    let repeat = product(z, older).0 / scale;
    let turn = product(z, old).0 / (magnitude(z) * magnitude(old)).max(f64::MIN_POSITIVE);
    if repeat < -0.7 {
        Likeness::Reverses
    } else if repeat > 0.7 && turn < 0.97 {
        Likeness::Repeats
    } else {
        Likeness::Other
    }
}

fn heard(points: impl Iterator<Item = Complex>) -> Vec<Heard> {
    let mut detector = SDetector::default();
    let mut history = [(0.0, 0.0); 2];
    points
        .filter_map(|symbol| {
            let [older, old] = history;
            history = [old, symbol];
            detector.push(likeness(symbol, old, older))
        })
        .collect()
}

fn s_then_s_bar(turn: Complex, s: usize) -> impl Iterator<Item = Complex> {
    let rotate = move |p: Complex| (p.0 * turn.0 - p.1 * turn.1, p.0 * turn.1 + p.1 * turn.0);
    (0..s)
        .map(|n| if n % 2 == 0 { (1.0, 1.0) } else { (-1.0, 1.0) })
        .chain((0..16).map(|n| {
            if n % 2 == 0 {
                (-1.0, -1.0)
            } else {
                (1.0, -1.0)
            }
        }))
        .map(rotate)
}

#[test]
fn hears_s_then_where_s_bar_begins_on_any_channel_phase() {
    for turn in [(1.0, 0.0), (0.3, -2.0), (-0.01, 0.02)] {
        assert_eq!(
            heard(s_then_s_bar(turn, 128)),
            [Heard::S, Heard::SBar(128)],
            "phase 3 would train on the wrong symbols"
        );
    }
}

#[test]
fn does_not_take_a_steady_tone_or_its_reversal_for_s() {
    let steady = (0..200).map(|n| if n < 100 { (1.0, 0.5) } else { (-1.0, -0.5) });
    assert!(heard(steady).is_empty());
}

#[test]
fn needs_enough_of_s_first() {
    assert!(heard(s_then_s_bar((1.0, 0.0), 20)).is_empty());
}

#[test]
fn agrees_on_the_highest_rate_both_ends_have() {
    let ours = mask(SymbolRate::S3200, 13);
    let theirs = mask(SymbolRate::S3200, 10);
    assert_eq!(agree([13, 13, 11, 12], [ours, theirs]), 10);
    assert_eq!(agree([13, 13, 13, 13], [ours, ours]), 13);
    assert_eq!(agree([0, 13, 13, 13], [ours, ours]), 0);
}

fn max_rate(symbol_rate: SymbolRate, snr_db: f64) -> u8 {
    let bits = (snr_db - 4.0 - 5.0) / 3.01;
    highest(symbol_rate, (bits * baud(symbol_rate)).max(0.0) as u32)
}

#[test]
fn a_clean_line_carries_the_top_rate_of_table_8() {
    assert_eq!(max_rate(SymbolRate::S3429, 60.0), 14);
    assert_eq!(max_rate(SymbolRate::S3200, 60.0), 13);
    assert_eq!(max_rate(SymbolRate::S2400, 60.0), 9);
}

#[test]
fn a_noisy_line_carries_less() {
    let rate = max_rate(SymbolRate::S3200, 30.0);
    assert!(
        (5..=10).contains(&rate),
        "a 30 dB line would be judged to carry {rate} · 2400 bit/s"
    );
    assert_eq!(max_rate(SymbolRate::S3200, 5.0), 0);
}

#[test]
fn a_probe_takes_the_better_of_the_carriers_it_may() {
    let bands = [
        Band {
            rank: 300,
            max_rate: 9,
        },
        Band {
            rank: 310,
            max_rate: 10,
        },
    ];
    assert!(probe(bands, [true, true]).high_carrier);
    assert_eq!(probe(bands, [true, true]).max_rate, 10);
    assert!(!probe(bands, [true, false]).high_carrier);
    assert_eq!(probe(bands, [true, false]).max_rate, 9);
}

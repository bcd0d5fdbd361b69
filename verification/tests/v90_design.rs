use softmodem_dsp::v90::design::{
    cp, descriptor, label_uses, levels_for, DIL_LENGTHS, LOUDEST, TRAINING_BITS,
};
use softmodem_dsp::v90::encoder::{Mapping, FRAME};
use softmodem_dsp::v90::levels::{power_limit, Levels, SPACING_SIGMAS};
use softmodem_dsp::v90::ucode::{linear, Law, COUNT};

#[test]
fn asks_for_each_ucode_with_each_sign_twice_in_each_interval() {
    let descriptor = descriptor(75);
    assert!(descriptor.training.len() <= 255);
    let mut ucodes = descriptor.training.clone();
    ucodes.sort_unstable();
    ucodes.dedup();
    assert_eq!(ucodes.len(), usize::from(COUNT));
    for h in DIL_LENGTHS {
        let length = (usize::from(h) + 1) * FRAME;
        for interval in 0..FRAME {
            let signs: Vec<bool> = (interval..length)
                .step_by(FRAME)
                .map(|k| descriptor.signs[k % descriptor.signs.len()])
                .collect();
            let positive = signs.iter().filter(|&&sign| sign).count();
            assert!(positive >= 2 && signs.len() - positive >= 2);
        }
    }
}

#[test]
fn moves_through_the_ucodes_in_small_steps() {
    let training = descriptor(75).training;
    assert_eq!((training[0], *training.last().unwrap_or(&0)), (75, 74));
    assert!(training.windows(2).all(|w| w[0].abs_diff(w[1]) <= 2));
    assert_eq!(training.iter().filter(|&&u| u >= LOUDEST).count(), 16);
}

#[test]
fn keeps_the_loud_part_short() {
    let descriptor = descriptor(75);
    let length = |u: u8| (usize::from(descriptor.lengths[usize::from(u / 16)]) + 1) * FRAME;
    let loud: usize = descriptor
        .training
        .iter()
        .filter(|&&u| u >= 112)
        .map(|&u| length(u))
        .sum();
    assert!(loud <= 400, "{loud} symbols of DIL near full scale");
}

// The mean power of `sets`, whose labels carry `bits` modulus bits.
fn average_power(sets: &[Vec<f64>; FRAME], bits: usize) -> f64 {
    let sizes: [usize; FRAME] = std::array::from_fn(|i| sets[i].len());
    let uses = label_uses(sizes, bits);
    let total: f64 = sets
        .iter()
        .zip(&uses)
        .map(|(set, uses)| {
            set.iter()
                .zip(uses)
                .map(|(power, &count)| power * count as f64)
                .sum::<f64>()
        })
        .sum();
    total / (FRAME as f64 * (1u64 << bits) as f64)
}

#[test]
fn averages_equally_used_levels() {
    let sets: [Vec<f64>; FRAME] = std::array::from_fn(|_| vec![4.0, 1.0]);
    assert!((average_power(&sets, 6) - 2.5).abs() < 1e-9);
}

#[test]
fn counts_the_labels_as_the_modulus_encoder_reaches_them() {
    let three = |values: [f64; 3]| -> [Vec<f64>; FRAME] {
        std::array::from_fn(|i| if i < 2 { values.to_vec() } else { vec![0.0] })
    };
    assert!((average_power(&three([1.0, 0.0, 0.0]), 3) - 6.0 / 48.0).abs() < 1e-12);
    assert!((average_power(&three([0.0, 0.0, 1.0]), 3) - 4.0 / 48.0).abs() < 1e-12);
}

#[test]
fn a_cp_asks_for_its_sets() {
    let sets: [Vec<u8>; FRAME] =
        std::array::from_fn(|i| (0..8).rev().map(|n| 8 * n + i as u8 % 2).collect());
    let cpt = cp(&sets, TRAINING_BITS, true, Law::A, 0x1FFF);
    assert_eq!(cpt.bit_rate(), 32_000);
    assert_eq!(cpt.constellations.len(), 2);
    assert_eq!(cpt.intervals, [0, 1, 0, 1, 0, 1]);
    let mapping = Mapping::from_cp(&cpt).expect("CPt carries its rate");
    assert_eq!(mapping.sets, sets);
    assert_eq!(levels_for(18), 8);
    assert_eq!(levels_for(36), 64);
}

// In 2⁻¹⁶ of a linear step.
const UNIT: i64 = 65_536;

#[test]
fn gives_the_limits_of_table_15() {
    let rms = |max_power| (power_limit(max_power) as f64).sqrt();
    assert!((rms(0) - 15124.0).abs() < 1e-9);
    assert!((rms(23) - 4024.0).abs() < 1e-9);
    assert!((rms(31) - 2540.0).abs() < 1e-9);
    assert_eq!(power_limit(40), power_limit(31));
}

#[test]
fn reaches_56000_bit_s_on_a_path_that_changes_nothing() {
    let levels = Levels::table(Law::A);
    let cp = levels.data(Law::A, 23, 0x1FFF).expect("a CP");
    assert_eq!(cp.bit_rate(), 56_000);
    let mapping = Mapping::from_cp(&cp).expect("CP carries its rate");
    assert!(mapping.sets.iter().all(|set| set.len() == 64));
    let powers: [Vec<f64>; FRAME] = std::array::from_fn(|i| {
        mapping.sets[i]
            .iter()
            .map(|&u| f64::from(linear(u, Law::A)).powi(2))
            .collect()
    });
    assert!(average_power(&powers, mapping.modulus_bits) <= power_limit(23) as f64);
}

#[test]
fn falls_back_as_the_noise_grows() {
    let mut levels = Levels::table(Law::A);
    levels.noise = [40 * UNIT; 8];
    let noisy = levels.data(Law::A, 23, 0x1FFF).expect("a CP");
    assert!((28_000..56_000).contains(&noisy.bit_rate()));
    levels.noise = [5000 * UNIT; 8];
    assert!(levels.data(Law::A, 23, 0x1FFF).is_none());
}

#[test]
fn spaces_each_level_for_the_noise_of_its_uchord() {
    let mut levels = Levels::table(Law::A);
    levels.noise = [80 * UNIT; 8];
    let everywhere = levels.data(Law::A, 23, 0x1FFF).expect("a CP");
    levels.noise = [0, 0, 0, 0, 0, 0, 80 * UNIT, 80 * UNIT];
    let loud = levels.data(Law::A, 23, 0x1FFF).expect("a CP");
    assert!(loud.bit_rate() > everywhere.bit_rate());
    let mapping = Mapping::from_cp(&loud).expect("CP carries its rate");
    for set in &mapping.sets {
        let mut ucodes = set.clone();
        ucodes.sort_unstable();
        for pair in ucodes.windows(2).filter(|pair| pair[0] >= 96) {
            let gap = linear(pair[1], Law::A) - linear(pair[0], Law::A);
            assert!(i64::from(gap) >= SPACING_SIGMAS * 80);
        }
    }
}

#[test]
fn trains_on_8_levels_within_the_limit() {
    let cpt = Levels::table(Law::A)
        .training(Law::A, 23, 0x1FFF)
        .expect("a CPt");
    assert_eq!(cpt.bit_rate(), 32_000);
    assert!(Mapping::from_cp(&cpt).is_some_and(|m| m.sets.iter().all(|s| s.len() == 8)));
}

#[test]
fn there_is_no_set_of_no_levels_or_too_many() {
    let levels = Levels::table(Law::A);
    assert_eq!(levels.pick(0, 0, 0), None);
    assert_eq!(levels.pick(0, 3, 0), Some(vec![0, 1, 2]));
    for bits in [0, 5, 49, 70, usize::MAX] {
        assert!(levels.constellations(bits, Law::A, 0).is_none(), "{bits}");
    }
    let one = levels.constellations(6, Law::A, 0).unwrap();
    assert!(one.iter().all(|set| set.len() == 1));
}

#[test]
fn a_wider_spacing_leaves_no_more_levels() {
    let levels = Levels::table(Law::Mu);
    let most = |spacing| {
        (0..=128)
            .rev()
            .find(|&count| levels.pick(0, count, spacing).is_some())
    };
    let counts: Vec<Option<usize>> = (0..20).map(|n| most(0x1_0000 << n)).collect();
    assert!(counts.windows(2).all(|pair| pair[1] <= pair[0]), "{counts:?}");
}

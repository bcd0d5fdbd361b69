//! What the samples of the digital modem show.

use softmodem_dsp::v34::constellation::{point, rotate, Constellation};
use softmodem_dsp::v34::sixteen::nearest_sixteen;
use softmodem_dsp::v90::levels::Levels;
use softmodem_dsp::v90::samples::Samples;
use softmodem_dsp::v90::tally::Tally;
use softmodem_dsp::v90::ucode::{linear, signed, Law, COUNT};
use softmodem_dsp::v90::Codeword;

#[test]
fn a_path_that_changes_nothing_shows_table_1() {
    for law in [Law::A, Law::Mu] {
        let mut tally = Tally::new();
        for interval in 0..6 {
            for ucode in 0..COUNT {
                for positive in [false, true, true] {
                    let x = signed(ucode, positive, law);
                    tally.learn(x, interval, ucode, positive);
                }
            }
        }
        let (shown, table) = (tally.levels(law), Levels::table(law));
        assert_eq!(shown.levels, table.levels);
        assert_eq!(shown.noise, [0; 8]);
    }
}

#[test]
fn shows_half_the_way_between_the_signs_and_the_noise_around_it() {
    let mut tally = Tally::new();
    for (x, positive) in [(1000, true), (1004, true), (-995, false), (-999, false)] {
        tally.learn(x, 2, 70, positive);
    }
    let shown = tally.levels(Law::A);
    // (1002 + 997) / 2, in 2⁻¹⁶.
    assert_eq!(shown.levels[2][70], 999 * 65_536 + 32_768);
    assert_eq!(shown.levels[1][70], 65_536 * i64::from(linear(70, Law::A)));
    // √8: two deviations of 2 each way, over one degree of freedom each.
    assert_eq!(shown.noise, [185_363; 8]);
}

#[test]
fn a_codeword_that_came_with_one_sign_only_shows_nothing() {
    let mut tally = Tally::new();
    tally.learn(123, 0, 5, true);
    tally.learn(321, 0, 5, true);
    let shown = tally.levels(Law::Mu);
    assert_eq!(shown.levels[0][5], 65_536 * i64::from(linear(5, Law::Mu)));
    assert_eq!(shown.noise, [0; 8]);
}

fn heard(window: [i16; 6]) -> Samples {
    let mut samples = Samples::new(75, Law::A);
    for x in window {
        samples.push(x);
    }
    samples
}

#[test]
fn tells_frames_of_sd_from_their_likes() {
    assert_eq!(heard([100, 3, 110, -100, 0, -105]).sd_like(), Some(true));
    assert_eq!(heard([-100, 3, -110, 100, 0, 105]).sd_like(), Some(false));
    // 1.3 times is still a frame, and a quarter still small.
    assert_eq!(heard([100, 25, 130, -100, -25, -130]).sd_like(), Some(true));
    assert_eq!(heard([100, 25, 131, -100, -25, -130]).sd_like(), None);
    assert_eq!(heard([100, 26, 130, -100, -25, -130]).sd_like(), None);
    assert_eq!(heard([100, 0, 100, 100, 0, -100]).sd_like(), None);
    assert_eq!(heard([0; 6]).sd_like(), None);
}

#[test]
fn tells_frames_of_ri_by_the_level_of_trn1d() {
    let mut samples = Samples::new(75, Law::A);
    for n in 0..2040 {
        let x = if n % 2 == 0 { 400 } else { -400 };
        samples.learn_gain(x, n == 2039);
    }
    for (window, like) in [
        ([400, 300, 500, -400, -300, -500], Some(true)),
        ([-400, -300, -500, 400, 300, 500], Some(false)),
        ([400, 299, 500, -400, -300, -500], None),
        ([400, 300, 501, -400, -300, -500], None),
        ([400, 300, -500, -400, -300, -500], None),
    ] {
        for x in window {
            samples.push(x);
        }
        assert_eq!(samples.ri_like(), like, "{window:?}");
    }
    // Half the level of table 1 where half of it came.
    let own = i64::from(linear(75, Law::A));
    let level = samples.levels().levels[3][100];
    assert_eq!(level, 65_536 * i64::from(linear(100, Law::A)) * 400 / own);
}

#[test]
fn tells_frames_of_rd_on_the_largest_points() {
    let samples = heard([1000, 1000, 1000, -1000, -1000, -1000]);
    let at = |ucode: u8| std::array::from_fn(|_| vec![ucode, 3]);
    // 1008 and 1504 in table 1 for A-law.
    assert_eq!(linear(47, Law::A), 1008);
    assert_eq!(samples.rd_like(&at(47)), Some(true));
    assert_eq!(samples.rd_like(&at(60)), None);
}

#[test]
fn slices_each_sample_to_the_nearest_point_of_its_interval() {
    let samples = heard([8, -24, 1000, -1000, 0, 32_000]);
    let set = vec![47u8, 40, 1, 0];
    let sets = std::array::from_fn(|i| if i == 4 { Vec::new() } else { set.clone() });
    let codeword = |ucode, positive| Codeword { ucode, positive };
    assert_eq!(
        samples.slice(&sets),
        [
            codeword(0, true),
            codeword(1, false),
            codeword(47, true),
            codeword(47, false),
            codeword(0, false),
            codeword(47, true),
        ]
    );
}

#[test]
fn takes_the_first_of_two_points_as_near() {
    let samples = heard([16; 6]);
    let sets = std::array::from_fn(|i| if i < 3 { vec![1u8, 0] } else { vec![0u8, 1] });
    let ucodes = samples.slice(&sets).map(|codeword| codeword.ucode);
    assert_eq!(ucodes, [1, 1, 1, 0, 0, 0]);
}

#[test]
fn decides_on_each_of_the_sixteen_points() {
    let constellation = Constellation::new();
    for turns in 0..4 {
        for label in 0..4 {
            let (x, y) = rotate(point(usize::from(label)), turns);
            for (dx, dy) in [(0, 0), (60_000, -60_000), (-65_000, 65_000)] {
                let z = (65_536 * i64::from(x) + dx, 65_536 * i64::from(y) + dy);
                assert_eq!(nearest_sixteen(z, &constellation), (turns, label));
            }
        }
    }
}

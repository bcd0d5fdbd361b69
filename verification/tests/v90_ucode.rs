use softmodem_dsp::v90::ucode::{linear, nearest, octet, signed, Law, COUNT};
use softmodem_dsp::v90::Codeword;

#[test]
fn gives_the_linear_values_of_table_1() {
    for (ucode, mu, a) in [
        (0, 0, 8),
        (1, 8, 24),
        (15, 120, 248),
        (16, 132, 264),
        (31, 372, 504),
        (32, 396, 528),
        (47, 876, 1008),
        (63, 1884, 2016),
        (64, 1980, 2112),
        (66, 2236, 2368),
        (100, 10364, 10496),
        (112, 16764, 16896),
        (127, 32124, 32256),
    ] {
        assert_eq!(
            (ucode, linear(ucode, Law::Mu), linear(ucode, Law::A)),
            (ucode, mu, a)
        );
    }
}

#[test]
fn gives_the_octets_of_table_1() {
    for (ucode, mu, a) in [
        (0, 0xFF, 0xD5),
        (3, 0xFC, 0xD6),
        (16, 0xEF, 0xC5),
        (42, 0xD5, 0xFF),
        (64, 0xBF, 0x95),
        (101, 0x9A, 0xB0),
        (127, 0x80, 0xAA),
    ] {
        assert_eq!(
            (ucode, octet(ucode, Law::Mu), octet(ucode, Law::A)),
            (ucode, mu, a)
        );
    }
}

#[test]
fn rises_with_the_ucode() {
    for law in [Law::A, Law::Mu] {
        for ucode in 1..COUNT {
            assert!(linear(ucode, law) > linear(ucode - 1, law));
        }
    }
}

#[test]
fn a_codeword_has_the_sign_of_its_sample() {
    for law in [Law::A, Law::Mu] {
        assert_eq!(signed(66, false, law), -linear(66, law));
        let codeword = Codeword {
            ucode: 66,
            positive: true,
        };
        assert_eq!(codeword.linear(law), linear(66, law));
    }
    assert_eq!(Codeword::silence().linear(Law::Mu), 0);
}

// In 2⁻¹⁶ of a linear step.
#[test]
fn finds_the_nearest_ucode() {
    assert_eq!(nearest(0, Law::A), 0);
    assert_eq!(nearest(2370 << 16, Law::A), 66);
    assert_eq!(nearest(40_000 << 16, Law::A), 127);
}

#[test]
fn a_ucode_is_nearest_its_own_level() {
    for law in [Law::A, Law::Mu] {
        for ucode in 0..COUNT {
            let level = u64::try_from(linear(ucode, law)).unwrap();
            assert_eq!(nearest(level << 16, law), ucode);
        }
    }
}

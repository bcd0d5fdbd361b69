use softmodem_dsp::v90::frames::Deframer;
use softmodem_dsp::v90::jd::{Jd, ALL_RATES};
use softmodem_dsp::v90::training::{r, sd, SignReader, Signs, TRN1D_SYMBOLS};
use softmodem_dsp::v90::Codeword;

#[test]
fn builds_sd_from_w_and_ucode_0() {
    let sd_symbols = sd(70, false);
    assert_eq!(sd_symbols.len(), 384);
    let ucodes: Vec<u8> = sd_symbols[..6].iter().map(|c| c.ucode).collect();
    assert_eq!(ucodes, [86, 0, 86, 86, 0, 86]);
    let signs: Vec<bool> = sd_symbols[..6].iter().map(|c| c.positive).collect();
    assert_eq!(signs, [true, true, true, false, false, false]);
    let bar = sd(70, true);
    assert_eq!(bar.len(), 48);
    assert!(!bar[0].positive && bar[3].positive);
}

#[test]
fn reads_jd_back_after_trn1d() {
    let jd = Jd {
        rates: ALL_RATES,
        sixteen_points: false,
        sixteen_points_renegotiating: false,
        lookahead: 1,
    };
    let mut signs = Signs::new(75);
    let trn: Vec<Codeword> = (0..TRN1D_SYMBOLS).map(|_| signs.trn()).collect();
    let mut symbols = signs.sequence(&jd.frame());
    symbols.extend(signs.sequence(&jd.frame()));
    assert!(trn.iter().chain(&symbols).all(|c| c.ucode == 75));
    let mut reader = SignReader::default();
    let ones = trn.iter().filter(|c| reader.trn(c.positive)).count();
    assert!(ones >= TRN1D_SYMBOLS - 23);
    let mut deframer = Deframer::<Jd>::default();
    let found: Vec<Jd> = symbols
        .iter()
        .filter_map(|c| deframer.push(reader.push(c.positive)))
        .collect();
    assert_eq!(found, [jd, jd]);
}

#[test]
fn trn1d_is_balanced() {
    let mut signs = Signs::new(75);
    let positive = (0..TRN1D_SYMBOLS).filter(|_| signs.trn().positive).count();
    assert!(positive.abs_diff(TRN1D_SYMBOLS / 2) < 100);
}

#[test]
fn r_and_its_bar_differ_in_sign() {
    let plain = r([1, 2, 3, 4, 5, 6], false, 12);
    let bar = r([1, 2, 3, 4, 5, 6], true, 12);
    assert_eq!(plain.len(), 12);
    for (a, b) in plain.iter().zip(&bar) {
        assert_eq!((a.ucode, a.positive), (b.ucode, !b.positive));
    }
    let ucodes: Vec<u8> = plain.iter().map(|c| c.ucode).collect();
    assert_eq!(ucodes, [1, 2, 3, 4, 5, 6, 1, 2, 3, 4, 5, 6]);
}

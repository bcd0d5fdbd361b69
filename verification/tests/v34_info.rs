use softmodem_dsp::v34::bits::pattern;
use softmodem_dsp::v34::info::{Deframer, Info, Info0, Info1a, Info1c, Probe, TransmitClock};
use softmodem_dsp::v34::mp::{Deframer as MpDeframer, Mp, Trellis, E_ONES};
use softmodem_dsp::v34::SymbolRate;

fn info0() -> Info0 {
    Info0 {
        supports_2743: true,
        supports_3429: true,
        high_carrier_3000: true,
        low_carrier_3200: true,
        allows_3429: true,
        rate_difference: 2,
        constellation_1664: true,
        clock: TransmitClock::FromReceiver,
        acknowledge: true,
        ..Info0::default()
    }
}

fn info1c() -> Info1c {
    let mut probes = [Probe::default(); 6];
    for (n, probe) in (0u8..).zip(&mut probes) {
        *probe = Probe {
            high_carrier: n % 2 == 1,
            pre_emphasis: n + 3,
            max_rate: n * 2 + 1,
        };
    }
    Info1c {
        min_power_reduction: 3,
        extra_power_reduction: 5,
        md_length: 100,
        probes,
        frequency_offset: Some(-37),
    }
}

fn info1a() -> Info1a {
    Info1a {
        min_power_reduction: 1,
        extra_power_reduction: 7,
        md_length: 0,
        probe: Probe {
            high_carrier: true,
            pre_emphasis: 10,
            max_rate: 14,
        },
        answer_to_call: SymbolRate::S3200,
        call_to_answer: SymbolRate::S3000,
        frequency_offset: None,
    }
}

fn deframe<T: Info>(bits: impl IntoIterator<Item = bool>) -> Vec<T> {
    let mut deframer = Deframer::<T>::default();
    bits.into_iter()
        .filter_map(|bit| deframer.push(bit))
        .collect()
}

fn noise() -> impl Iterator<Item = bool> {
    (0u32..300).map(|n| n.wrapping_mul(2_654_435_761) >> 31 == 1)
}

#[test]
fn frames_have_the_lengths_of_tables_14_to_16() {
    assert_eq!(info0().frame().len(), 49);
    assert_eq!(info1c().frame().len(), 109);
    assert_eq!(info1a().frame().len(), 70);
}

#[test]
fn puts_the_frame_sync_at_bits_4_to_11() {
    assert_eq!(info0().frame()[4..12], pattern("01110010"));
    assert_eq!(info0().frame()[45..], pattern("1111"));
}

#[test]
fn places_info0_fields_at_their_bits() {
    let frame = info0().frame();
    let set: Vec<usize> = (12..29).filter(|&n| frame[n]).collect();
    assert_eq!(set, [12, 14, 16, 17, 19, 22, 25, 26, 28]);
}

#[test]
fn places_the_sign_of_the_offset_at_bit_88_of_info1c() {
    assert!(info1c().frame()[88]);
    let offset = Info1c {
        frequency_offset: Some(37),
        ..info1c()
    };
    assert!(!offset.frame()[88]);
}

#[test]
fn finds_each_kind_among_other_bits() {
    let bits = |frame: Vec<bool>| noise().chain(frame).chain(noise());
    assert_eq!(deframe::<Info0>(bits(info0().frame())), [info0()]);
    assert_eq!(deframe::<Info1c>(bits(info1c().frame())), [info1c()]);
    assert_eq!(deframe::<Info1a>(bits(info1a().frame())), [info1a()]);
}

#[test]
fn finds_repeated_sequences() {
    let bits: Vec<bool> = (0..3).flat_map(|_| info0().frame()).collect();
    assert_eq!(deframe::<Info0>(bits).len(), 3);
}

#[test]
fn info_drops_a_sequence_with_a_flipped_bit() {
    for n in 12..45 {
        let mut frame = info0().frame();
        frame[n] = !frame[n];
        assert!(deframe::<Info0>(frame).is_empty(), "bit {n}");
    }
}

#[test]
fn marks_an_offset_it_could_not_measure() {
    assert_eq!(info1a().frame()[40..50], pattern("0000000001"));
}

#[test]
fn keeps_offsets_within_their_ten_bits() {
    let far = Info1c {
        frequency_offset: Some(-2000),
        ..info1c()
    };
    let found = deframe::<Info1c>(far.frame());
    assert_eq!(found[0].frequency_offset, Some(-511));
}

fn type_0() -> Mp {
    Mp {
        max_call_to_answer: 12,
        max_answer_to_call: 14,
        trellis: Trellis::States64,
        nonlinear: true,
        acknowledge: true,
        rates: 0x3FFF,
        ..Mp::default()
    }
}

fn type_1() -> Mp {
    Mp {
        expanded_shaping: true,
        asymmetric: true,
        precoding: Some([(16384, -16384), (-1, 1), (i16::MIN, i16::MAX)]),
        ..type_0()
    }
}

fn deframe_mp(bits: impl IntoIterator<Item = bool>) -> Vec<Mp> {
    let mut deframer = MpDeframer::default();
    bits.into_iter()
        .filter_map(|bit| deframer.push(bit))
        .collect()
}

#[test]
fn frames_have_the_lengths_of_tables_20_and_21() {
    assert_eq!(type_0().frame().len(), 88);
    assert_eq!(type_1().frame().len(), 188);
}

#[test]
fn places_the_start_bits() {
    let frame = type_1().frame();
    for n in [17, 34, 51, 68, 85, 102, 119, 136, 153, 170] {
        assert!(!frame[n], "bit {n}");
    }
    assert!(frame[..17].iter().all(|&bit| bit));
}

#[test]
fn places_the_fields_of_table_20() {
    let frame = type_0().frame();
    assert!(!frame[18], "type");
    assert_eq!(frame[20..24], pattern("0011"), "12 · 2400");
    assert_eq!(frame[29..31], pattern("01"), "64 states");
    assert!(frame[31] && !frame[32] && frame[33]);
    assert!(frame[35..49].iter().all(|&bit| bit) && !frame[49]);
}

#[test]
fn finds_each_type_after_the_ones_of_trn() {
    for mp in [type_0(), type_1()] {
        let bits = std::iter::repeat_n(true, 200).chain(mp.frame());
        assert_eq!(deframe_mp(bits), [mp]);
    }
}

#[test]
fn finds_repeated_sequences_of_both_types() {
    let bits = type_0()
        .frame()
        .into_iter()
        .chain(type_1().frame())
        .chain(type_0().frame());
    assert_eq!(deframe_mp(bits), [type_0(), type_1(), type_0()]);
}

#[test]
fn mp_drops_a_sequence_with_a_flipped_bit() {
    for n in 18..171 {
        let mut frame = type_1().frame();
        frame[n] = !frame[n];
        assert!(deframe_mp(frame).is_empty(), "bit {n}");
    }
}

#[test]
fn counts_the_ones_of_e() {
    let mut deframer = MpDeframer::default();
    for bit in type_0().frame() {
        deframer.push(bit);
    }
    for _ in 0..E_ONES {
        deframer.push(true);
    }
    assert_eq!(deframer.ones(), E_ONES);
}

#[test]
fn numbers_them_in_order() {
    for rate in SymbolRate::ALL {
        assert_eq!(SymbolRate::from_index(rate.index().into()), Some(rate));
    }
    assert_eq!(SymbolRate::from_index(6), None);
}

fn rounded(ratio: impl Fn(SymbolRate) -> (u32, u32)) -> Vec<String> {
    SymbolRate::ALL
        .into_iter()
        .map(|rate| {
            let (a, c) = ratio(rate);
            format!("{:.0}", 2400.0 * f64::from(a) / f64::from(c))
        })
        .collect()
}

#[test]
fn rounds_to_table_1() {
    assert_eq!(
        rounded(SymbolRate::ratio),
        ["2400", "2743", "2800", "3000", "3200", "3429"]
    );
}

#[test]
fn rounds_to_table_2() {
    let carriers = |high: bool| -> Vec<String> {
        SymbolRate::ALL
            .into_iter()
            .map(|rate| {
                let (a, c) = rate.ratio();
                let (d, e) = rate.carrier_ratio(high);
                let baud = 2400.0 * f64::from(a) / f64::from(c);
                format!("{:.0}", baud * f64::from(d) / f64::from(e))
            })
            .collect()
    };
    assert_eq!(
        carriers(false),
        ["1600", "1646", "1680", "1800", "1829", "1959"]
    );
    assert_eq!(
        carriers(true),
        ["1800", "1829", "1867", "2000", "1920", "1959"]
    );
}

use softmodem_dsp::v34::info::{Deframer, Info, Info0, Info1a as V34Info1a, Probe};
use softmodem_dsp::v34::SymbolRate;
use softmodem_dsp::v90::info::{Info0d, Info1a};
use softmodem_dsp::v90::ucode::Law;

fn info0d() -> Info0d {
    Info0d {
        v34: Info0 {
            supports_3429: true,
            high_carrier_3200: true,
            allows_3429: true,
            constellation_1664: true,
            acknowledge: true,
            ..Info0::default()
        },
        nominal_power: 7,
        max_power: 23,
        power_at_codec: true,
        law: Law::A,
        upstream_3429: true,
    }
}

fn info1a() -> Info1a {
    Info1a {
        md_length: 0,
        uinfo: 70,
        upstream: SymbolRate::S3200,
        frequency_offset: Some(-3),
    }
}

fn deframe<T: Info>(frame: Vec<bool>) -> Vec<T> {
    let mut deframer = Deframer::<T>::default();
    frame
        .into_iter()
        .filter_map(|bit| deframer.push(bit))
        .collect()
}

#[test]
fn frames_have_the_lengths_of_tables_7_and_10() {
    assert_eq!(info0d().frame().len(), 62);
    assert_eq!(info1a().frame().len(), 70);
}

#[test]
fn places_the_fields_of_table_7() {
    let frame = info0d().frame();
    let set: Vec<usize> = (12..42).filter(|&n| frame[n]).collect();
    assert_eq!(
        set,
        [14, 18, 19, 25, 28, 29, 30, 31, 33, 34, 35, 37, 38, 39, 40]
    );
}

#[test]
fn places_the_fields_of_table_10() {
    let frame = info1a().frame();
    let field = |from: usize, to: usize| {
        (from..=to)
            .rev()
            .fold(0u32, |value, n| value << 1 | u32::from(frame[n]))
    };
    assert_eq!(field(25, 31), 70);
    assert_eq!(field(34, 36), 4);
    assert_eq!(field(37, 39), 6);
}

#[test]
fn info_reads_back_what_it_frames() {
    assert_eq!(deframe::<Info0d>(info0d().frame()), [info0d()]);
    assert_eq!(deframe::<Info1a>(info1a().frame()), [info1a()]);
}

#[test]
fn tells_the_two_forms_of_info1a_apart() {
    assert!(deframe::<V34Info1a>(info1a().frame()).is_empty());
    let v34 = V34Info1a {
        min_power_reduction: 0,
        extra_power_reduction: 0,
        md_length: 0,
        probe: Probe::default(),
        answer_to_call: SymbolRate::S3200,
        call_to_answer: SymbolRate::S3200,
        frequency_offset: None,
    };
    assert!(deframe::<Info1a>(v34.frame()).is_empty());
}

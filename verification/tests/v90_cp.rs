use softmodem_dsp::v90::cp::{labels, Cp};
use softmodem_dsp::v90::frames::Deframer;
use softmodem_dsp::v90::ucode::Law;

fn cp() -> Cp {
    Cp {
        training: false,
        rate: 22,
        silence: false,
        redundancy: 1,
        acknowledge: true,
        law: Law::A,
        upstream_rates: 0x1FFF,
        lookahead: 1,
        rms_ratio: 1 << 13,
        filter: [-64, 32, 63, 0],
        intervals: [0, 1, 0, 1, 0, 1],
        constellations: vec![(1 << 64) - 1, 0xAAAA << 100 | 1],
        at_codec: None,
    }
}

fn deframe(bits: Vec<bool>) -> Vec<Cp> {
    let mut deframer = Deframer::<Cp>::default();
    bits.into_iter()
        .filter_map(|bit| deframer.push(bit))
        .collect()
}

#[test]
fn places_the_fields_of_table_14() {
    let frame = cp().frame();
    assert_eq!(frame.len(), 272 + 136 + 20);
    assert!(frame[19]);
    let field = |from: usize, to: usize| {
        (from..=to)
            .rev()
            .fold(0u32, |value, n| value << 1 | u32::from(frame[n]))
    };
    assert_eq!(field(20, 24), 22);
    assert_eq!(field(31, 32), 1);
    assert!(frame[33] && frame[35]);
    assert_eq!(field(36, 48), 0x1FFF);
    assert_eq!(field(49, 50), 1);
    assert_eq!(field(52, 67), 1 << 13);
    assert_eq!(field(69, 76), 0xC0);
    assert_eq!(field(107, 110), 1);
    assert!(!frame[128]);
    assert!(frame[137..153].iter().all(|&bit| bit));
    assert!(frame[154..169].iter().all(|&bit| bit) && !frame[170]);
    assert_eq!(cp().bit_rate(), 56_000);
    let cpt = Cp {
        training: true,
        rate: 15,
        ..cp()
    };
    assert_eq!((cpt.frame_bits(), cpt.bit_rate()), (23, 30_667));
}

#[test]
fn cp_reads_back_what_it_frames() {
    assert_eq!(deframe(cp().frame()), [cp()]);
    let codec = Cp {
        training: true,
        at_codec: Some(vec![1, 2]),
        ..cp()
    };
    assert_eq!(deframe(codec.frame()), [codec]);
}

#[test]
fn labels_from_the_largest_ucode_down() {
    assert_eq!(labels(0b1011), [3, 1, 0]);
    assert_eq!(cp().constellation(1), 0xAAAA << 100 | 1);
}

#[test]
fn a_copy_of_cp_differs_in_its_acknowledgement_alone() {
    let acknowledged = Cp {
        acknowledge: true,
        ..cp()
    };
    let open = Cp {
        acknowledge: false,
        ..cp()
    };
    assert_eq!(open.frame_with(true, false), acknowledged.frame());
    assert_ne!(open.frame(), acknowledged.frame());
}

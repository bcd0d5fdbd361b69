use softmodem_dsp::v90::frames::Deframer;
use softmodem_dsp::v90::jd::{Jd, ALL_RATES};

fn jd() -> Jd {
    Jd {
        rates: ALL_RATES,
        sixteen_points: false,
        sixteen_points_renegotiating: true,
        lookahead: 3,
    }
}

#[test]
fn places_the_fields_of_table_13() {
    let frame = jd().frame();
    assert_eq!(frame.len(), 72);
    assert!(frame[18..34].iter().all(|&bit| bit));
    assert!(frame[35..41].iter().all(|&bit| bit));
    assert!(frame[41..47].iter().all(|&bit| !bit));
    assert!(!frame[47] && frame[48] && frame[49] && frame[50]);
    assert!(!frame[34] && !frame[51]);
    assert!(frame[68..].iter().all(|&bit| !bit));
}

#[test]
fn jd_reads_back_what_it_frames() {
    let mut deframer = Deframer::<Jd>::default();
    let found: Vec<Jd> = jd()
        .frame()
        .into_iter()
        .chain(jd().frame())
        .filter_map(|bit| deframer.push(bit))
        .collect();
    assert_eq!(found, [jd(), jd()]);
}

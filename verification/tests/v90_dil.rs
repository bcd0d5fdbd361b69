use softmodem_dsp::v90::dil::{Descriptor, Dil};
use softmodem_dsp::v90::frames::Deframer;
use softmodem_dsp::v90::Codeword;

fn take(dil: &mut Dil, count: usize) -> Vec<Codeword> {
    (0..count).filter_map(|_| dil.next()).collect()
}

fn descriptor() -> Descriptor {
    Descriptor {
        signs: (0..20).map(|n| n % 3 == 0).collect(),
        pattern: vec![false, true, true],
        lengths: [0, 1, 2, 3, 4, 5, 6, 127],
        references: [15, 20, 40, 50, 70, 90, 100, 120],
        training: vec![3, 17, 127],
    }
}

#[test]
fn has_the_length_of_table_12() {
    let frame = descriptor().frame();
    let alpha = 2 * 17;
    let beta = alpha + 17;
    assert_eq!(frame.len(), 204 + beta + 2 * 17 + 1);
    assert!(!frame[51] && !frame[51 + alpha] && !frame[51 + beta]);
}

#[test]
fn dil_reads_back_what_it_frames() {
    let mut deframer = Deframer::<Descriptor>::default();
    let found: Vec<Descriptor> = [descriptor().frame(), Descriptor::none().frame()]
        .concat()
        .into_iter()
        .filter_map(|bit| deframer.push(bit))
        .collect();
    assert_eq!(found, [descriptor(), Descriptor::none()]);
}

#[test]
fn sends_each_segment_with_its_reference_and_length() {
    let mut dil = Dil::new(descriptor());
    let first: Vec<Codeword> = take(&mut dil, 6);
    assert_eq!(
        first.iter().map(|c| c.ucode).collect::<Vec<_>>(),
        [15, 3, 3, 15, 3, 3]
    );
    assert_eq!(
        first.iter().map(|c| c.positive).collect::<Vec<_>>(),
        [true, false, false, true, false, false]
    );
    assert!(dil.at_boundary());
    let second: Vec<Codeword> = take(&mut dil, 12);
    assert_eq!((second[0].ucode, second[1].ucode), (20, 17));
    assert!(dil.at_boundary());
    assert_eq!(take(&mut dil, 128 * 6).len(), 128 * 6);
    assert!(dil.at_boundary());
    assert_eq!(dil.next().map(|c| c.ucode), Some(15));
    assert_eq!(Dil::new(Descriptor::none()).next(), None);
}

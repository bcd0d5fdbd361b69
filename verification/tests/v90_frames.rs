use softmodem_dsp::v90::frames::{frame, Counted, Deframer};
use softmodem_dsp::v90::jd::Jd;

fn deframe(bits: impl IntoIterator<Item = bool>) -> Vec<Counted> {
    let mut deframer = Deframer::<Counted>::default();
    bits.into_iter()
        .filter_map(|bit| deframer.push(bit))
        .collect()
}

#[test]
fn places_the_sync_and_the_start_bits() {
    let bits = frame(&[0xFFFF, 0]);
    assert_eq!(bits.len(), 17 + 3 * 17);
    assert!(bits[..17].iter().all(|&bit| bit));
    for n in [17, 34, 51] {
        assert!(!bits[n]);
    }
    assert!(bits[18..34].iter().all(|&bit| bit));
}

#[test]
fn finds_sequences_of_any_length_after_ones() {
    let short = [0];
    let long = [3, 0x1234, 0xFFFF, 0];
    let bits = std::iter::repeat_n(true, 40)
        .chain(frame(&short))
        .chain([false, false])
        .chain(frame(&long))
        .chain(frame(&long));
    assert_eq!(
        deframe(bits),
        [
            Counted(short.to_vec()),
            Counted(long.to_vec()),
            Counted(long.to_vec())
        ]
    );
}

#[test]
fn frames_drops_a_sequence_with_a_flipped_bit() {
    for n in 18..(17 + 5 * 17) {
        let mut bits = frame(&[3, 0x1234, 0xFFFF, 0]);
        bits[n] = !bits[n];
        assert!(deframe(bits).is_empty(), "bit {n}");
    }
}

#[test]
fn finds_each_of_repeated_frames_on_the_last_bit_of_its_crc() {
    let jd = Jd {
        rates: 0x2A_5A5A,
        sixteen_points: true,
        sixteen_points_renegotiating: false,
        lookahead: 3,
    };
    for lead in [0, 1, 40] {
        let mut deframer = Deframer::<Jd>::default();
        let bits = std::iter::repeat(true)
            .take(lead)
            .chain(jd.frame().repeat(3));
        let found: Vec<(usize, Jd)> = bits
            .enumerate()
            .filter_map(|(at, bit)| deframer.push(bit).map(|jd| (at, jd)))
            .collect();
        // 17 ones, two words and the CRC, and four zeros of fill.
        let at = |n: usize| (lead + 72 * n + 67, jd);
        assert_eq!(found, [at(0), at(1), at(2)]);
    }
}

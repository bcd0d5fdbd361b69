use softmodem_dsp::v90::encoder::{Decoder, Encoder, Mapping, Rule};
use softmodem_dsp::v90::ucode::{Law, COUNT};
use softmodem_dsp::v90::Codeword;

// Chooses the rules of shaping by turns, which the decoder does not mind.
fn next_frame(
    encoder: &mut Encoder,
    source: &mut impl Iterator<Item = bool>,
    turn: usize,
) -> [Codeword; 6] {
    let mut turn = turn;
    loop {
        if encoder.wants_bits() {
            let bits: Vec<bool> = source.take(encoder.mapping().bits()).collect();
            encoder.take(&bits);
        } else if encoder.wants_rule() {
            let rules = Rule::allowed(encoder.state());
            encoder.shape(rules[turn / 3 % 2]);
            turn += 1;
        } else if let Some(frame) = encoder.frame() {
            return frame;
        }
    }
}

fn mapping(redundancy: u8, lookahead: u8) -> Mapping {
    let sets = std::array::from_fn(|interval| {
        (0..COUNT)
            .rev()
            .filter(|&u| (usize::from(u) + interval).is_multiple_of(3))
            .take(20 + interval * 3)
            .collect()
    });
    Mapping {
        sets,
        modulus_bits: 26,
        redundancy,
        lookahead,
        filter: [58, -19, 13, 32],
        law: Law::A,
    }
}

fn data(count: usize) -> Vec<bool> {
    (0u64..count as u64)
        .map(|n| n.wrapping_mul(0x9E37_79B9_7F4A_7C15) >> 63 == 1)
        .collect()
}

#[test]
fn maps_and_unmaps_the_modulus_bits() {
    let mapping = mapping(0, 0);
    assert!(mapping.fits());
    for chunk in data(26 * 40).chunks(26) {
        assert_eq!(mapping.unmap(mapping.map(chunk)), chunk);
    }
}

#[test]
fn labels_0_as_the_largest_code() {
    let mapping = mapping(0, 0);
    let zeros = [false; 26];
    assert_eq!(mapping.map(&zeros)[0], mapping.sets[0][0]);
    assert!(mapping.sets[0][0] > mapping.sets[0][1]);
}

#[test]
fn decodes_what_it_encodes_for_every_redundancy_and_lookahead() {
    for redundancy in 0..=3 {
        for lookahead in 0..=3 {
            let bits = data(mapping(redundancy, lookahead).bits() * 60);
            let mut source = bits.iter().copied().chain(std::iter::repeat(false));
            let mut encoder = Encoder::new(mapping(redundancy, lookahead));
            let mut decoder = Decoder::new(mapping(redundancy, lookahead));
            let received: Vec<bool> = (0..60)
                .flat_map(|n| {
                    let frame = next_frame(&mut encoder, &mut source, n);
                    decoder.frame(frame)
                })
                .collect();
            assert_eq!(received, bits, "Sr {redundancy}, ld {lookahead}");
        }
    }
}

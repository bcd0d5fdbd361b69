use softmodem_dsp::dpsk::{dibit, quarter_turns};
use softmodem_dsp::uart::{frame, Decoder};

fn decode(bits: impl IntoIterator<Item = bool>) -> (Vec<u8>, u64) {
    let mut decoder = Decoder::new();
    let bytes = bits.into_iter().filter_map(|b| decoder.push(b)).collect();
    (bytes, decoder.framing_errors())
}

#[test]
fn frames_lsb_first_between_start_and_stop() {
    let bits: Vec<bool> = frame(0b1000_0001);
    assert_eq!(
        bits,
        [
            false, true, false, false, false, false, false, false, true, true
        ]
    );
}

#[test]
fn round_trips_every_byte() {
    let input: Vec<u8> = (0..=255).collect();
    let (output, errors) = decode(input.iter().flat_map(|&b| frame(b)));
    assert_eq!(output, input);
    assert_eq!(errors, 0);
}

#[test]
fn idle_mark_yields_nothing() {
    assert_eq!(decode(std::iter::repeat_n(true, 100)), (vec![], 0));
}

#[test]
fn resynchronises_after_a_framing_error() {
    let mut bits: Vec<bool> = frame(b'A');
    *bits.last_mut().unwrap() = false;
    bits.extend(std::iter::repeat_n(true, 3));
    bits.extend(frame(b'B'));
    assert_eq!(decode(bits), (vec![b'B'], 1));
}

#[test]
fn a_reset_forgets_half_a_byte() {
    let mut decoder = Decoder::new();
    for bit in &frame(0x55)[..5] {
        assert_eq!(decoder.push(*bit), None);
    }
    decoder.reset();
    let bytes: Vec<u8> = frame(b'C')
        .into_iter()
        .filter_map(|b| decoder.push(b))
        .collect();
    assert_eq!(bytes, [b'C']);
}

#[test]
fn each_dibit_turns_the_phase_as_table_1_says() {
    assert_eq!(quarter_turns(false, false), 1);
    assert_eq!(quarter_turns(false, true), 0);
    assert_eq!(quarter_turns(true, true), 3);
    assert_eq!(quarter_turns(true, false), 2);
    for (first, second) in [(false, false), (false, true), (true, true), (true, false)] {
        assert_eq!(dibit(quarter_turns(first, second)), (first, second));
    }
}

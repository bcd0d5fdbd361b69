use softmodem_dsp::scrambler::{Descrambler, Polynomial, Scrambler};

fn data() -> Vec<bool> {
    (0u32..2000)
        .map(|n| n.wrapping_mul(2_654_435_761) >> 31 == 1)
        .collect()
}

#[test]
fn descrambles_what_it_scrambles() {
    let mut scrambler = Scrambler::new();
    let mut descrambler = Descrambler::new();
    let out: Vec<bool> = data()
        .into_iter()
        .map(|b| descrambler.descramble(scrambler.scramble(b)))
        .collect();
    assert_eq!(out, data());
}

#[test]
fn synchronises_itself_within_17_bits() {
    let mut scrambler = Scrambler::new();
    for bit in data() {
        scrambler.scramble(bit);
    }
    let mut descrambler = Descrambler::new();
    let out: Vec<bool> = data()
        .into_iter()
        .map(|b| descrambler.descramble(scrambler.scramble(b)))
        .collect();
    assert_eq!(out[17..], data()[17..]);
}

#[test]
fn each_v34_polynomial_synchronises_itself_within_23_bits() {
    for polynomial in [Polynomial::V34_CALL, Polynomial::V34_ANSWER] {
        let mut scrambler = Scrambler::with(polynomial);
        for bit in data() {
            scrambler.scramble(bit);
        }
        let mut descrambler = Descrambler::with(polynomial);
        let out: Vec<bool> = data()
            .into_iter()
            .map(|b| descrambler.descramble(scrambler.scramble(b)))
            .collect();
        assert_eq!(out[23..], data()[23..], "{polynomial:?}");
    }
}

#[test]
fn the_v34_directions_scramble_differently() {
    let run = |polynomial| {
        let mut scrambler = Scrambler::with(polynomial);
        (0..100)
            .map(|_| scrambler.scramble(true))
            .collect::<Vec<_>>()
    };
    assert_ne!(run(Polynomial::V34_CALL), run(Polynomial::V34_ANSWER));
}

#[test]
fn divides_by_its_polynomial() {
    let mut scrambler = Scrambler::with(Polynomial::V34_ANSWER);
    let out: Vec<bool> = data().into_iter().map(|b| scrambler.scramble(b)).collect();
    for n in 23..out.len() {
        assert_eq!(out[n], data()[n] ^ out[n - 5] ^ out[n - 23], "bit {n}");
    }
}

#[test]
fn the_other_polynomials_divide_as_well() {
    let mut scrambler = Scrambler::with(Polynomial::V34_CALL);
    let out: Vec<bool> = data().into_iter().map(|b| scrambler.scramble(b)).collect();
    for n in 23..out.len() {
        assert_eq!(out[n], data()[n] ^ out[n - 18] ^ out[n - 23], "bit {n}");
    }
    let mut scrambler = Scrambler::new();
    let out: Vec<bool> = data().into_iter().map(|b| scrambler.scramble(b)).collect();
    for n in 17..out.len() {
        assert_eq!(out[n], data()[n] ^ out[n - 14] ^ out[n - 17], "bit {n}");
    }
}

#[test]
fn scrambles_idle_mark_into_both_values() {
    let mut scrambler = Scrambler::new();
    let out: Vec<bool> = (0..200).map(|_| scrambler.scramble(true)).collect();
    assert!(out.contains(&true) && out.contains(&false));
}

fn longest_run_of_ones(guard: bool) -> usize {
    let mut scrambler = Scrambler::new();
    if guard {
        scrambler.guard_against_lockup();
    }
    let mut run = 0;
    let mut longest = 0;
    for n in 0..300 {
        let bit = if n < 17 { !scrambler.taps() } else { true };
        if scrambler.scramble(bit) {
            run += 1;
            longest = longest.max(run);
        } else {
            run = 0;
        }
    }
    longest
}

#[test]
fn locks_up_on_ones_without_the_guard() {
    assert_eq!(longest_run_of_ones(false), 300);
}

#[test]
fn the_guard_breaks_a_run_of_64_ones() {
    assert_eq!(longest_run_of_ones(true), 64);
}

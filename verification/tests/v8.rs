use softmodem_dsp::v8::{cj, Heard, Menu, Modes, Pcm, Reader};

fn read(bits: impl IntoIterator<Item = bool>) -> Vec<Heard> {
    let mut reader = Reader::new();
    bits.into_iter().filter_map(|b| reader.push(b)).collect()
}

const BOTH: Modes = Modes {
    v90: Pcm {
        analogue: false,
        digital: false,
    },
    v34: false,
    v22bis: true,
    v21: true,
};

const ANALOGUE: Modes = Modes {
    v90: Pcm {
        analogue: true,
        digital: false,
    },
    v34: true,
    ..BOTH
};

const DIGITAL: Modes = Modes {
    v90: Pcm {
        analogue: false,
        digital: true,
    },
    v34: true,
    ..BOTH
};

#[test]
fn encodes_the_octets_of_tables_3_and_4() {
    assert_eq!(Menu::data(BOTH).octets(), [0xC1, 0x05, 0x12, 0x90]);
    let v34 = Modes { v34: true, ..BOTH };
    assert_eq!(Menu::data(v34).octets(), [0xC1, 0x45, 0x12, 0x90]);
}

#[test]
fn encodes_v90_with_the_pstn_access_and_pcm_octets_of_tables_5_and_7() {
    assert_eq!(
        Menu::data(ANALOGUE).octets(),
        [0xC1, 0x65, 0x12, 0x90, 0x8D, 0x27]
    );
    assert_eq!(
        Menu::data(DIGITAL).octets(),
        [0xC1, 0x65, 0x12, 0x90, 0x8D, 0x47]
    );
}

#[test]
fn reads_back_v34() {
    let menu = Menu::data(Modes { v34: true, ..BOTH });
    let heard = read(menu.sequence().repeat(2).into_iter().chain([true; 10]));
    assert_eq!(heard, [Heard::Menu(menu); 2]);
}

#[test]
fn reads_back_v90() {
    for modes in [ANALOGUE, DIGITAL] {
        let menu = Menu::data(modes);
        let heard = read(menu.sequence().repeat(2).into_iter().chain([true; 10]));
        assert_eq!(heard, [Heard::Menu(menu); 2]);
    }
}

#[test]
fn reads_pcm0_past_a_protocol_octet() {
    let prot0 = 0x8A;
    let octets = [0xC1, 0x65, 0x12, 0x90, prot0, 0x0D, 0x27];
    let menu = Menu::parse(&octets).expect("a data CM");
    assert_eq!(menu.modes, ANALOGUE);
}

#[test]
fn pairs_an_analogue_modem_only_with_a_digital_one() {
    assert!(DIGITAL.common(ANALOGUE).v90.digital);
    assert!(ANALOGUE.common(DIGITAL).v90.analogue);
    assert!(!ANALOGUE.common(ANALOGUE).v90.any());
    assert!(!DIGITAL.common(DIGITAL).v90.any());
    assert!(DIGITAL.common(ANALOGUE).v34);
}

#[test]
fn never_sends_an_hdlc_flag() {
    let bits: Vec<bool> = Menu::data(BOTH).sequence().repeat(3);
    let flag = [false, true, true, true, true, true, true, false];
    assert!(!bits.windows(8).any(|w| w == flag));
}

#[test]
fn reads_back_repeated_menus() {
    let menu = Menu::data(Modes {
        v22bis: false,
        ..BOTH
    });
    let heard = read(menu.sequence().repeat(3).into_iter().chain([true; 10]));
    assert_eq!(heard, [Heard::Menu(menu); 3]);
}

#[test]
fn hears_each_menu_on_the_first_bit_after_it() {
    let menu = Menu::data(BOTH);
    let length = menu.sequence().len();
    let bits = menu.sequence().repeat(3).into_iter().chain([true; 10]);
    let mut reader = Reader::new();
    let heard: Vec<usize> = bits
        .enumerate()
        .filter(|&(_, bit)| reader.push(bit).is_some())
        .map(|(at, _)| at)
        .collect();
    assert_eq!(heard, [length, 2 * length, 3 * length]);
}

#[test]
fn hears_cj_after_the_menus() {
    let menu = Menu::data(BOTH);
    let mut bits = menu.sequence().repeat(2);
    bits.extend(cj());
    let heard = read(bits);
    assert_eq!(heard.last(), Some(&Heard::Cj));
    assert!(heard.contains(&Heard::Menu(menu)));
}

#[test]
fn hears_cj_that_follows_the_preamble_of_a_new_menu() {
    let mut bits = Menu::data(BOTH).sequence().repeat(2);
    bits.extend([true; 10]);
    bits.extend(cj());
    bits.extend([true; 20]);
    assert_eq!(
        read(bits).last(),
        Some(&Heard::Cj),
        "a caller that ends CM after its preamble would hold JM on until its carrier drops"
    );
}

#[test]
fn ignores_idle_mark_and_noise() {
    assert!(read([true; 200]).is_empty());
    let noise = (0u32..2000).map(|n| n.wrapping_mul(2_654_435_761) >> 31 == 1);
    assert!(!read(noise).iter().any(|h| matches!(h, Heard::Cj)));
}

#[test]
fn keeps_only_the_modes_in_common() {
    let ours = BOTH;
    let theirs = Modes {
        v22bis: false,
        ..BOTH
    };
    assert_eq!(ours.common(theirs), theirs);
}

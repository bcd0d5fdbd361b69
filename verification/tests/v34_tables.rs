use softmodem_dsp::v34::bits::{crc, pattern, Reader, Writer};
use softmodem_dsp::v34::constellation::{
    label, point, rotate, Constellation, Point, QUARTER,
};
use softmodem_dsp::v34::framing::Framing;
use softmodem_dsp::v34::mp::Trellis;
use softmodem_dsp::v34::shell::ShellMapper;
use softmodem_dsp::v34::trellis::{inputs, subset};
use softmodem_dsp::v34::SymbolRate;

#[test]
fn the_crc_of_a_frame_and_its_crc_is_zero() {
    let data = pattern("1011001110001111010101");
    let mut writer = Writer::default();
    writer.bits.extend(&data);
    writer.field(u32::from(crc(&data)), 16);
    assert_eq!(crc(&writer.bits), 0);
}

#[test]
fn the_crc_of_nothing_is_its_preset() {
    assert_eq!(crc(&[]), 0xFFFF);
}

#[test]
fn reads_what_it_writes() {
    let mut writer = Writer::default();
    writer.field(0b101, 3);
    writer.flag(true);
    writer.field(300, 10);
    let mut reader = Reader::new(&writer.bits);
    assert_eq!(
        (reader.field(3), reader.flag(), reader.field(10)),
        (0b101, true, 300)
    );
}

#[test]
fn writes_the_least_significant_bit_first() {
    let mut writer = Writer::default();
    writer.field(0b0001, 4);
    assert_eq!(writer.bits, pattern("1000"));
}

fn row(y: i32) -> Vec<usize> {
    let mut found: Vec<(i32, usize)> = (0..QUARTER)
        .filter(|&label| point(label).1 == y)
        .map(|label| (point(label).0, label))
        .collect();
    found.sort_unstable();
    found.into_iter().map(|(_, label)| label).collect()
}

#[test]
fn labels_the_rows_of_figure_5() {
    assert_eq!(
        row(1),
        [
            362, 296, 238, 186, 142, 103, 69, 43, 22, 9, 1, 0, 5, 16, 32, 56, 85, 122, 163, 213,
            267, 328, 395
        ]
    );
    assert_eq!(
        row(-3),
        [
            365, 300, 240, 190, 144, 106, 73, 45, 25, 11, 3, 2, 7, 18, 36, 59, 88, 124, 166, 217,
            272, 331, 397
        ]
    );
    assert_eq!(row(45), [408, 396, 394, 400, 414]);
    assert_eq!(row(-43), [411, 389, 374, 366, 364, 368, 381, 393]);
    assert_eq!(
        row(21),
        [
            384, 324, 277, 229, 189, 156, 131, 110, 96, 87, 83, 92, 100, 117, 140, 172, 208, 254,
            299, 354
        ]
    );
}

#[test]
fn puts_label_0_nearest_the_origin() {
    assert_eq!(point(0), (1, 1));
    assert_eq!(point(415), (45, 9));
}

#[test]
fn turns_clockwise() {
    assert_eq!(rotate((1, 1), 1), (1, -1));
    assert_eq!(rotate((1, 1), 2), (-1, -1));
    assert_eq!(rotate((5, 1), 4), (5, 1));
}

#[test]
fn labels_every_point_of_all_four_quarters() {
    for label_in in 0..QUARTER {
        for turns in 0..4 {
            assert_eq!(
                label(rotate(point(label_in), turns)),
                Some((label_in, turns))
            );
        }
    }
    assert_eq!(label((49, 49)), None);
}

#[test]
fn figure_5_leaves_no_nearer_point_out() {
    let norm = |p: (i32, i32)| p.0 * p.0 + p.1 * p.1;
    let last = point(QUARTER - 1);
    let constellation = Constellation::new();
    for x in (-63..=61).step_by(4) {
        for y in (-63..=61).step_by(4) {
            let p = (x, y);
            let nearer = (norm(p), -p.1) <= (norm(last), -last.1);
            let turns = constellation.label(p).map(|(_, turns)| turns);
            assert_eq!(turns, nearer.then_some(0), "{p:?}");
        }
    }
}

fn framing(symbol_rate: SymbolRate, bit_rate: u32) -> Framing {
    Framing::new(symbol_rate, bit_rate, false).unwrap()
}

#[test]
fn gives_b_and_swp_as_table_8() {
    let rows: [(SymbolRate, u32, usize, u16); 12] = [
        (SymbolRate::S2400, 2400, 8, 0xFFF),
        (SymbolRate::S2400, 21_600, 72, 0xFFF),
        (SymbolRate::S2743, 26_400, 77, 0xFFF),
        (SymbolRate::S2800, 4800, 14, 0x1BB7),
        (SymbolRate::S2800, 14_400, 42, 0x0081),
        (SymbolRate::S3000, 9600, 26, 0x2D6B),
        (SymbolRate::S3000, 19_200, 52, 0x0421),
        (SymbolRate::S3000, 28_800, 77, 0x3DEF),
        (SymbolRate::S3200, 31_200, 78, 0xFFFF),
        (SymbolRate::S3429, 4800, 12, 0x0421),
        (SymbolRate::S3429, 12_000, 28, 0x7FFF),
        (SymbolRate::S3429, 33_600, 79, 0x14A5),
    ];
    for (symbol_rate, bit_rate, b, swp) in rows {
        let framing = framing(symbol_rate, bit_rate);
        assert_eq!(
            (framing.b, framing.swp()),
            (b, swp),
            "{symbol_rate:?} at {bit_rate} would not frame as the far end does"
        );
    }
}

#[test]
fn gives_k_m_and_l_as_table_10() {
    let rows: [(SymbolRate, u32, usize, u8, u8, usize, usize); 10] = [
        (SymbolRate::S2400, 2400, 0, 1, 1, 4, 4),
        (SymbolRate::S2400, 7200, 12, 3, 4, 12, 16),
        (SymbolRate::S2400, 14_400, 28, 12, 14, 96, 112),
        (SymbolRate::S2743, 14_400, 30, 14, 17, 56, 68),
        (SymbolRate::S2743, 26_400, 25, 9, 11, 1152, 1408),
        (SymbolRate::S2800, 26_400, 24, 8, 10, 1024, 1280),
        (SymbolRate::S3000, 7200, 8, 2, 3, 8, 12),
        (SymbolRate::S3200, 31_200, 26, 10, 12, 1280, 1536),
        (SymbolRate::S3429, 7200, 5, 2, 2, 8, 8),
        (SymbolRate::S3429, 33_600, 27, 11, 13, 1408, 1664),
    ];
    for (symbol_rate, bit_rate, k, minimum, expanded, l_minimum, l_expanded) in rows {
        let small = framing(symbol_rate, bit_rate);
        let large = Framing::new(symbol_rate, bit_rate, true).unwrap();
        assert_eq!(
            (
                small.k,
                small.rings,
                large.rings,
                small.points,
                large.points
            ),
            (k, minimum, expanded, l_minimum, l_expanded),
            "{symbol_rate:?} at {bit_rate} would map to other points than the far end"
        );
    }
}

#[test]
fn has_no_rates_that_table_8_leaves_out() {
    assert!(Framing::new(SymbolRate::S2400, 24_000, false).is_none());
    assert!(Framing::new(SymbolRate::S3000, 2400, false).is_none());
    assert!(Framing::new(SymbolRate::S3200, 33_600, false).is_none());
    assert!(Framing::new(SymbolRate::S3429, 5000, false).is_none());
}

#[test]
fn carries_n_bits_in_each_data_frame() {
    for symbol_rate in SymbolRate::ALL {
        for bit_rate in (2400..=33_600).step_by(2400) {
            let Some(framing) = Framing::new(symbol_rate, bit_rate, false) else {
                continue;
            };
            let bits: usize = (0..framing.p)
                .map(|frame| framing.b - usize::from(!framing.high(frame)))
                .sum();
            assert_eq!(
                bits * framing.j * 100,
                usize::try_from(bit_rate).unwrap() * 28
            );
            assert!(framing.high(framing.p - 1));
        }
    }
}

#[test]
fn a_data_frame_has_r_high_frames() {
    for symbol_rate in SymbolRate::ALL {
        for framing in (1..=14).filter_map(|n| Framing::new(symbol_rate, n * 2400, false)) {
            let mut high = 0;
            for frame in 0..framing.p {
                high += usize::from(framing.high(frame));
                assert_eq!(high, (frame + 1) * framing.r / framing.p);
            }
            assert_eq!(high, framing.r);
        }
    }
}

fn values(n: u64) -> impl Iterator<Item = u64> {
    (0..n).map(|i| i.wrapping_mul(0x9E37_79B9_7F4A_7C15) >> 33)
}

#[test]
fn counts_m_to_the_eighth_values() {
    for rings in 1..=18u8 {
        assert_eq!(ShellMapper::new(rings).values(), u64::from(rings).pow(8));
    }
}

#[test]
fn unmaps_every_value_it_maps_for_small_m() {
    for rings in 1..=4 {
        let shell = ShellMapper::new(rings);
        for r0 in 0..shell.values() {
            let mapped = shell.map(r0);
            assert!(mapped.iter().all(|&ring| ring < rings));
            assert_eq!(shell.unmap(mapped), r0);
        }
    }
}

#[test]
fn unmaps_31_bits_for_large_m() {
    for rings in [15, 17, 18] {
        let shell = ShellMapper::new(rings);
        for r0 in values(20_000) {
            let mapped = shell.map(r0);
            assert!(mapped.iter().all(|&ring| ring < rings));
            assert_eq!(shell.unmap(mapped), r0);
        }
    }
}

#[test]
fn gives_smaller_values_cheaper_rings() {
    let shell = ShellMapper::new(5);
    let cost = |r0| {
        shell
            .map(r0)
            .iter()
            .map(|&ring| u32::from(ring))
            .sum::<u32>()
    };
    let costs: Vec<u32> = (0..shell.values()).step_by(97).map(cost).collect();
    assert!(costs.is_sorted());
}

#[test]
fn maps_zero_to_the_inner_ring() {
    assert_eq!(ShellMapper::new(12).map(0), [0; 8]);
    assert_eq!(ShellMapper::new(12).map(1), [0, 0, 0, 0, 0, 0, 0, 1]);
}

#[test]
fn labels_the_points_of_figure_9() {
    let row = |im| [-3, -1, 1, 3].map(|re| subset((re, im)));
    assert_eq!(row(3), [0b001, 0b110, 0b101, 0b010]);
    assert_eq!(row(1), [0b100, 0b011, 0b000, 0b111]);
    assert_eq!(row(-1), [0b101, 0b010, 0b001, 0b110]);
    assert_eq!(row(-3), [0b000, 0b111, 0b100, 0b011]);
}

#[test]
fn keeps_points_of_one_subset_apart() {
    let grid: Vec<Point> = (-15..=15)
        .step_by(2)
        .flat_map(|re| (-15..=15).step_by(2).map(move |im| (re, im)))
        .collect();
    for &a in &grid {
        for &b in &grid {
            let distance = (a.0 - b.0).pow(2) + (a.1 - b.1).pow(2);
            if a != b && subset(a) == subset(b) {
                assert!(distance >= 32, "{a:?} and {b:?} would be confused");
            }
        }
    }
}

#[test]
fn reads_table_13() {
    assert_eq!(inputs(0b000, 0b000), 0b0000);
    assert_eq!(inputs(0b011, 0b101), 0b1111);
    assert_eq!(inputs(0b110, 0b100), 0b0101);
    assert_eq!(inputs(0b111, 0b111), 0b0110);
}

#[test]
fn each_encoder_reaches_all_of_its_states() {
    for trellis in [Trellis::States16, Trellis::States32, Trellis::States64] {
        let mut reached = vec![false; trellis.states()];
        let mut frontier = vec![0u8];
        reached[0] = true;
        while let Some(state) = frontier.pop() {
            for inputs in 0..16 {
                let next = trellis.next(state, inputs);
                if !reached[usize::from(next)] {
                    reached[usize::from(next)] = true;
                    frontier.push(next);
                }
            }
        }
        assert!(reached.iter().all(|&r| r), "{trellis:?} would lose states");
    }
}

#[test]
fn ignores_the_inputs_its_rate_does_not_use() {
    for state in 0..16 {
        for inputs in 0..4 {
            let next = Trellis::States16.next(state, inputs);
            for unused in [0b0100, 0b1000, 0b1100] {
                assert_eq!(Trellis::States16.next(state, inputs | unused), next);
            }
        }
    }
    for state in 0..32 {
        for inputs in 0..16 {
            assert_eq!(
                Trellis::States32.next(state, inputs),
                Trellis::States32.next(state, inputs ^ 0b0100)
            );
        }
    }
}

#[test]
fn stays_in_state_0_on_zero_inputs() {
    for trellis in [Trellis::States16, Trellis::States32, Trellis::States64] {
        assert_eq!(trellis.next(0, 0), 0);
        assert!(!trellis.output(0));
    }
}

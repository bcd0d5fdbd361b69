//! The data mode encoder of § 9: scrambled bits to the points x(n), eight to
//! a mapping frame. The non-linear encoder of § 9.7 follows it.

use crate::v34::bits::{law_writes_back_what_it_reads, value_of};
use crate::v34::constellation::{quarter, rotate, spec_rotate, wide, Constellation, Point};
use crate::v34::framing::{law_framings_fit, Framing};
use crate::v34::mp::{Precoding, Trellis};
use crate::v34::precoder::{
    all_within, c_after, fixed, law_c_fits_what_an_encoder_sends, shifted, silence, within, x_after,
    Fixed, Precoder,
};
use crate::v34::shell::{lemma_eighth_power, shell_of, ShellMapper};
use crate::v34::trellis::{inputs, spec_inputs, spec_subset, subset};
use vstd::arithmetic::power::pow;
use vstd::arithmetic::power2::pow2;
use vstd::prelude::*;

verus! {

/// What the far receiver asked this transmitter for in its MP, and so what
/// its decoder takes.
#[derive(Debug, Clone, Copy, PartialEq, Eq)]
pub struct Settings {
    pub trellis: Trellis,
    /// Θ = 0.3125 rather than 0.
    pub nonlinear: bool,
    pub precoding: Precoding,
}

impl Default for Settings {
    fn default() -> (settings: Self)
        ensures
            settings.trellis == Trellis::States16,
            !settings.nonlinear,
            settings.precoding@ == seq![(0i16, 0i16), (0i16, 0i16), (0i16, 0i16)],
    {
        let precoding: Precoding = [(0, 0), (0, 0), (0, 0)];
        assert(precoding@ =~= seq![(0i16, 0i16), (0i16, 0i16), (0i16, 0i16)]);
        Self { trellis: Trellis::States16, nonlinear: false, precoding }
    }
}

/// Table 12, the first half data frame of a superframe first.
pub open spec fn table_12(j: int) -> Seq<bool> {
    if j == 8 {
        seq![
            false, true, true, true, false, true, true, true, true, true, true, true, true, false,
            true, false,
        ]
    } else {
        seq![
            false, true, true, true, false, true, true, true, true, true, true, true, true, false,
        ]
    }
}

/// V0(m) of table 12, with B1 as the last data frame of a superframe.
pub open spec fn spec_inversion(framing: Framing, m: int) -> bool {
    let half = 2 * framing.p;
    let table = table_12(framing.j as int);
    m % half == 0 && table[(m / half + table.len() - 2) % (table.len() as int)]
}

/// V0(m) of table 12, with B1 as the last data frame of a superframe.
#[must_use]
pub fn inversion(framing: &Framing, m: usize) -> (inverted: bool)
    requires
        framing.valid(),
    ensures
        inverted == spec_inversion(*framing, m as int),
{
    proof {
        law_framings_fit(*framing);
    }
    let half: usize = 2 * framing.p;
    if m % half != 0 {
        return false;
    }
    let past: usize = m / half;
    assert(past <= m / 24) by (nonlinear_arith)
        requires
            past == m / half,
            half >= 24,
    ;
    if framing.j == 8 {
        let table = [
            false, true, true, true, false, true, true, true, true, true, true, true, true, false,
            true, false,
        ];
        assert(table@ =~= table_12(8));
        table[(past + 14) % 16]
    } else {
        let table = [
            false, true, true, true, false, true, true, true, true, true, true, true, true, false,
        ];
        assert(table@ =~= table_12(7));
        table[(past + 12) % 14]
    }
}

/// The bits of one 4D symbol besides its rings: I1, I2 and I3 of § 9.3, and
/// the numbers that the Q bits of its two 2D symbols write.
#[derive(Debug, Clone, Copy)]
pub struct Group {
    pub i1: bool,
    pub i2: bool,
    pub i3: bool,
    pub q: (usize, usize),
}

/// How many of `bits` bits the shell mapper takes.
pub open spec fn shell_bits(framing: Framing, bits: int) -> int {
    if framing.b <= 12 {
        0
    } else if bits == framing.b {
        framing.k as int
    } else {
        framing.k - 1
    }
}

/// Where the bits of 4D symbol `j` begin. Up to 12 bits leave out I3 in the
/// last symbols.
pub open spec fn group_start(framing: Framing, bits: int, j: int) -> int {
    if framing.b <= 12 {
        2 * j + if j < bits - 8 {
            j
        } else {
            bits - 8
        }
    } else {
        shell_bits(framing, bits) + j * (3 + 2 * framing.q)
    }
}

/// Whether 4D symbol `j` carries I3.
pub open spec fn carries_i3(framing: Framing, bits: int, j: int) -> bool {
    framing.b > 12 || j < bits - 8
}

/// § 9.3: the bits of 4D symbol `j`.
pub open spec fn group_of(framing: Framing, bits: Seq<bool>, j: int) -> Group {
    let at = group_start(framing, bits.len() as int, j);
    let q = framing.q as int;
    Group {
        i1: bits[at],
        i2: bits[at + 1],
        i3: carries_i3(framing, bits.len() as int, j) && bits[at + 2],
        q: if framing.b <= 12 {
            (0, 0)
        } else {
            (
                value_of(bits.subrange(at + 3, at + 3 + q)) as usize,
                value_of(bits.subrange(at + 3 + q, at + 3 + 2 * q)) as usize,
            )
        },
    }
}

/// R0: the number that the shell mapping bits write.
pub open spec fn r0_of(framing: Framing, bits: Seq<bool>) -> int {
    value_of(bits.take(shell_bits(framing, bits.len() as int))) as int
}

pub open spec fn rings_of(framing: Framing, bits: Seq<bool>) -> Seq<u8> {
    if framing.b <= 12 {
        seq![0u8, 0, 0, 0, 0, 0, 0, 0]
    } else {
        shell_of(framing.rings as int, r0_of(framing, bits))
    }
}

/// The delays of the encoder: Z of the differential encoder, the state of the
/// convolutional encoder, and the last three x(n).
pub struct Coding {
    pub quadrant: int,
    pub state: u8,
    pub history: Seq<(int, int)>,
}

impl Coding {
    /// As § 10.1.3.1 starts.
    pub open spec fn at_rest(self) -> bool {
        self.quadrant == 0 && self.state == 0 && self.history == silence()
    }

    pub open spec fn valid(self) -> bool {
        0 <= self.quadrant < 4 && all_within(self.history, 6528)
    }
}

pub open spec fn modulo_of(framing: Framing) -> int {
    if framing.b < 56 {
        2
    } else {
        4
    }
}

/// For the modulo encoder: whether c/2 has an odd sum of components.
pub open spec fn odd_half(c: (int, int)) -> bool {
    (c.0 / 2 + c.1 / 2) % 2 == 1
}

/// The point of a label, which a ring and the Q bits make up.
pub open spec fn label_of(q: usize, low: usize, ring: u8) -> int {
    low + ring * pow2(q as nat)
}

pub open spec fn turned_point(label: int, turns: int) -> (int, int) {
    spec_rotate(wide(quarter()[label]), turns)
}

pub open spec fn plus(a: (int, int), b: (int, int)) -> (int, int) {
    (a.0 + b.0, a.1 + b.1)
}

pub open spec fn one_if(bit: bool) -> int {
    if bit {
        1
    } else {
        0
    }
}

/// Z after I2 and I3.
pub open spec fn next_quadrant(quadrant: int, group: Group) -> int {
    (quadrant + one_if(group.i2) + 2 * one_if(group.i3)) % 4
}

/// One 4D symbol: its channel output points y(n), its x(n), and the delays
/// after it.
pub struct Symbol {
    pub first: (int, int),
    pub second: (int, int),
    pub x_first: (int, int),
    pub x_second: (int, int),
    pub coding: Coding,
}

/// Steps 1 to 9 of table 11 for 4D symbol `m`.
#[verifier::opaque]
pub open spec fn symbol_of(
    framing: Framing,
    settings: Settings,
    coding: Coding,
    m: int,
    group: Group,
    rings: (u8, u8),
) -> Symbol {
    let h = settings.precoding;
    let quadrant = next_quadrant(coding.quadrant, group);
    let c_first = c_after(coding.history, h, modulo_of(framing));
    let first = plus(turned_point(label_of(framing.q, group.q.0, rings.0), quadrant), c_first);
    let x_first = x_after(coding.history, h, first);
    let between = shifted(coding.history, x_first);
    let c_second = c_after(between, h, modulo_of(framing));
    let c0 = odd_half(c_first) != odd_half(c_second);
    let u0 = (settings.trellis.spec_output(coding.state) != c0) != spec_inversion(framing, m);
    let turns = quadrant + 2 * one_if(group.i1) + one_if(u0);
    let second = plus(turned_point(label_of(framing.q, group.q.1, rings.1), turns), c_second);
    let x_second = x_after(between, h, second);
    let y = spec_inputs(spec_subset(first), spec_subset(second)) as u8;
    Symbol {
        first,
        second,
        x_first,
        x_second,
        coding: Coding {
            quadrant,
            state: settings.trellis.spec_next(coding.state, y) as u8,
            history: shifted(between, x_second),
        },
    }
}

/// 4D symbol `j` of mapping frame `frame`, which carries `bits`.
pub open spec fn frame_symbol(
    framing: Framing,
    settings: Settings,
    coding: Coding,
    frame: int,
    bits: Seq<bool>,
    j: int,
) -> Symbol {
    let rings = rings_of(framing, bits);
    symbol_of(
        framing,
        settings,
        coding_before(framing, settings, coding, frame, bits, j),
        4 * frame + j,
        group_of(framing, bits, j),
        (rings[2 * j], rings[2 * j + 1]),
    )
}

/// The delays before 4D symbol `j` of a mapping frame that starts from
/// `coding`.
pub open spec fn coding_before(
    framing: Framing,
    settings: Settings,
    coding: Coding,
    frame: int,
    bits: Seq<bool>,
    j: int,
) -> Coding
    decreases j, 0int,
{
    if j <= 0 {
        coding
    } else {
        let rings = rings_of(framing, bits);
        symbol_of(
            framing,
            settings,
            coding_before(framing, settings, coding, frame, bits, j - 1),
            4 * frame + j - 1,
            group_of(framing, bits, j - 1),
            (rings[2 * (j - 1)], rings[2 * (j - 1) + 1]),
        ).coding
    }
}

/// The bits of mapping frame `frame` of a superframe.
pub open spec fn bits_in(framing: Framing, frame: int) -> int {
    framing.frame_bits(frame % framing.p as int)
}

/// The number of bits fits § 9.3.
pub open spec fn parses(framing: Framing, bits: int) -> bool {
    (bits == framing.b || bits == framing.b - 1) && bits >= 8
}

/// A mapping frame never carries fewer than the 8 bits that its four 4D
/// symbols need.
pub proof fn law_mapping_frames_hold_four_symbols(framing: Framing, frame: int)
    requires
        framing.valid(),
        frame >= 0,
    ensures
        parses(framing, framing.frame_bits(frame)),
{
    law_framings_fit(framing);
    if framing.b == 8 {
        let p = framing.p as int;
        assert((frame + 1) * p / p == frame + 1) by {
            vstd::arithmetic::div_mod::lemma_div_by_multiple(frame + 1, p);
        }
        assert(frame * p / p == frame) by {
            vstd::arithmetic::div_mod::lemma_div_by_multiple(frame, p);
        }
    }
}

pub(crate) proof fn lemma_groups_fit(framing: Framing, bits: int, j: int)
    requires
        framing.valid(),
        parses(framing, bits),
        0 <= j < 4,
    ensures
        0 <= shell_bits(framing, bits) <= group_start(framing, bits, j) <= bits - 2,
        framing.b > 12 ==> group_start(framing, bits, j) + 3 + 2 * framing.q <= bits,
        framing.b > 12 ==> group_start(framing, bits, j + 1) == group_start(framing, bits, j) + 3 + 2
            * framing.q,
        framing.b <= 12 && carries_i3(framing, bits, j) ==> group_start(framing, bits, j) + 3 <= bits,
        framing.b <= 12 ==> group_start(framing, bits, j + 1) == group_start(framing, bits, j) + if carries_i3(
            framing,
            bits,
            j,
        ) {
            3int
        } else {
            2int
        },
        group_start(framing, bits, 0) == shell_bits(framing, bits),
        group_start(framing, bits, 4) == bits,
{
    law_framings_fit(framing);
    let width = 3 + 2 * framing.q;
    assert(j * width <= 3 * width && j * width >= 0 && (j + 1) * width == j * width + width && 4
        * width == width + width + width + width && 0 * width == 0) by (nonlinear_arith)
        requires
            0 <= j < 4,
            width >= 3,
    ;
}

pub(crate) proof fn lemma_small_value(bits: Seq<bool>, width: nat)
    requires
        bits.len() == width,
        width <= 31,
    ensures
        value_of(bits) < pow2(width) <= 0x8000_0000,
{
    law_writes_back_what_it_reads(bits);
    vstd::arithmetic::power2::lemma2_to64();
    if width < 31 {
        vstd::arithmetic::power2::lemma_pow2_strictly_increases(width, 31);
    }
}

/// The labels of a mapping frame are those of its constellation.
pub(crate) proof fn lemma_labels_fit(framing: Framing, low: usize, ring: u8)
    requires
        framing.valid(),
        low < pow2(framing.q as nat),
        ring < framing.rings,
    ensures
        0 <= label_of(framing.q, low, ring) < framing.rings * pow2(framing.q as nat) <= 416,
{
    law_framings_fit(framing);
    let power = pow2(framing.q as nat) as int;
    let r = ring as int;
    let rings = framing.rings as int;
    assert(0 <= low + r * power < rings * power) by (nonlinear_arith)
        requires
            0 <= low < power,
            0 <= r < rings,
    ;
}

pub(crate) proof fn lemma_group_low_bits(framing: Framing, bits: Seq<bool>, j: int)
    requires
        framing.valid(),
        parses(framing, bits.len() as int),
        0 <= j < 4,
    ensures
        group_of(framing, bits, j).q.0 < pow2(framing.q as nat),
        group_of(framing, bits, j).q.1 < pow2(framing.q as nat),
{
    law_framings_fit(framing);
    lemma_groups_fit(framing, bits.len() as int, j);
    vstd::arithmetic::power2::lemma2_to64();
    let at = group_start(framing, bits.len() as int, j);
    let q = framing.q as int;
    if framing.b > 12 {
        lemma_small_value(bits.subrange(at + 3, at + 3 + q), q as nat);
        lemma_small_value(bits.subrange(at + 3 + q, at + 3 + 2 * q), q as nat);
    }
}

/// R0 is below M⁸.
pub(crate) proof fn lemma_r0_fits(framing: Framing, bits: Seq<bool>)
    requires
        framing.valid(),
        parses(framing, bits.len() as int),
        framing.b > 12,
    ensures
        0 <= r0_of(framing, bits) < pow(framing.rings as int, 8),
        r0_of(framing, bits) < 0x8000_0000,
{
    law_framings_fit(framing);
    lemma_groups_fit(framing, bits.len() as int, 0);
    let width = shell_bits(framing, bits.len() as int);
    lemma_small_value(bits.take(width), width as nat);
    if width < framing.k {
        vstd::arithmetic::power2::lemma_pow2_strictly_increases(width as nat, framing.k as nat);
    }
    lemma_eighth_power(framing.rings as int);
}

/// The number that `width` bits from `at` on write.
pub(crate) fn number(bits: &[bool], at: usize, width: usize) -> (value: u64)
    requires
        at + width <= bits.len(),
        width <= 31,
    ensures
        value == value_of(bits@.subrange(at as int, at + width)),
        value < pow2(width as nat) <= 0x8000_0000,
{
    let ghost field = bits@.subrange(at as int, at + width);
    reveal(value_of);
    let mut value: u64 = 0;
    let mut left: usize = width;
    while left > 0
        invariant
            left <= width <= 31,
            at + width <= bits.len(),
            field == bits@.subrange(at as int, at + width),
            value == value_of(field.skip(left as int)),
        decreases left,
    {
        left -= 1;
        proof {
            reveal(value_of);
            assert(field.skip(left as int).skip(1) =~= field.skip(left + 1));
            lemma_small_value(field.skip(left as int), (width - left) as nat);
        }
        value = 2 * value + if bits[at + left] {
            1
        } else {
            0
        };
    }
    assert(field.skip(0) =~= field);
    proof {
        lemma_small_value(field, width as nat);
    }
    value
}

pub(crate) fn small_power(q: usize) -> (power: usize)
    requires
        q <= 5,
    ensures
        power == pow2(q as nat),
{
    proof {
        vstd::arithmetic::power2::lemma2_to64();
    }
    match q {
        0 => 1,
        1 => 2,
        2 => 4,
        3 => 8,
        4 => 16,
        _ => 32,
    }
}

/// Turns scrambled data bits into the points of data mode.
#[derive(Debug)]
pub struct Encoder {
    framing: Framing,
    shell: ShellMapper,
    constellation: Constellation,
    settings: Settings,
    // Of the superframe, B1 being its last data frame.
    frame: usize,
    quadrant: u8,
    state: u8,
    precoder: Precoder,
}

impl Encoder {
    pub closed spec fn framing(self) -> Framing {
        self.framing
    }

    pub closed spec fn settings(self) -> Settings {
        self.settings
    }

    /// The mapping frame to come, counted from the first of B1, modulo the
    /// mapping frames in a superframe.
    pub closed spec fn frame(self) -> int {
        self.frame as int
    }

    pub closed spec fn coding(self) -> Coding {
        Coding {
            quadrant: self.quadrant as int,
            state: self.state,
            history: self.precoder.history(),
        }
    }

    pub closed spec fn valid(self) -> bool {
        &&& self.framing.valid()
        &&& self.shell.valid()
        &&& self.shell.m() == self.framing.rings
        &&& self.constellation.valid()
        &&& self.precoder.valid()
        &&& self.precoder.coefficients() == self.settings.precoding
        &&& self.precoder.modulo() == modulo_of(self.framing)
        &&& self.coding().valid()
        &&& self.frame < self.framing.p * self.framing.j
    }

    /// Starting with the first mapping frame of B1, with every delay at 0
    /// as § 10.1.3.1 asks.
    #[must_use]
    pub fn new(framing: Framing, settings: Settings) -> (encoder: Self)
        requires
            framing.valid(),
        ensures
            encoder.valid(),
            encoder.framing() == framing,
            encoder.settings() == settings,
            encoder.frame() == 0,
            encoder.coding().at_rest(),
    {
        proof {
            law_framings_fit(framing);
            let p = framing.p as int;
            let j = framing.j as int;
            assert(p * j > 0) by (nonlinear_arith)
                requires
                    p > 0,
                    j > 0,
            ;
        }
        Self {
            precoder: Precoder::new(settings.precoding, framing.precoder_modulo()),
            framing,
            shell: ShellMapper::new(framing.rings),
            constellation: Constellation::new(),
            settings,
            frame: 0,
            quadrant: 0,
            state: 0,
        }
    }

    /// How many bits the next mapping frame takes: b, or b − 1 in a low one.
    #[must_use]
    pub fn bits(&self) -> (bits: usize)
        requires
            self.valid(),
        ensures
            bits == bits_in(self.framing(), self.frame()),
            parses(self.framing(), bits as int),
    {
        let frame: usize = self.frame % self.framing.p;
        proof {
            law_framings_fit(self.framing);
            law_mapping_frames_hold_four_symbols(self.framing, frame as int);
            let f = frame as int;
            let r = self.framing.r as int;
            assert((f + 1) * r <= 17 * 16) by (nonlinear_arith)
                requires
                    0 <= f < 16,
                    0 <= r <= 16,
            ;
        }
        if self.framing.high(frame) {
            self.framing.b
        } else {
            self.framing.b - 1
        }
    }

    /// The eight points x(n) of the next mapping frame, from `bits()` bits.
    /// They stay within 51 units of figure 5 each way.
    pub fn encode(&mut self, bits: &[bool]) -> (points: [Fixed; 8])
        requires
            old(self).valid(),
            bits.len() == bits_in(old(self).framing(), old(self).frame()),
        ensures
            final(self).valid(),
            final(self).framing() == old(self).framing(),
            final(self).settings() == old(self).settings(),
            final(self).frame() == (old(self).frame() + 1) % (old(self).framing().p
                * old(self).framing().j),
            final(self).coding() == coding_before(
                old(self).framing(),
                old(self).settings(),
                old(self).coding(),
                old(self).frame(),
                bits@,
                4,
            ),
            forall|j: int|
                0 <= j < 4 ==> {
                    let symbol = #[trigger] frame_symbol(
                        old(self).framing(),
                        old(self).settings(),
                        old(self).coding(),
                        old(self).frame(),
                        bits@,
                        j,
                    );
                    fixed(points[2 * j]) == symbol.x_first && fixed(points[2 * j + 1])
                        == symbol.x_second
                },
            forall|i: int| 0 <= i < 8 ==> within(fixed(#[trigger] points[i]), 6528),
    {
        let ghost before = *self;
        let frame = self.frame;
        proof {
            law_framings_fit(self.framing);
            law_mapping_frames_hold_four_symbols(
                self.framing,
                frame as int % self.framing.p as int,
            );
            let p = self.framing.p as int;
            let j = self.framing.j as int;
            assert(p * j <= 128) by (nonlinear_arith)
                requires
                    0 <= p <= 16,
                    0 <= j <= 8,
            ;
        }
        let rings = self.rings(bits);
        let mut out: Vec<Fixed> = Vec::new();
        let mut j: usize = 0;
        while j < 4
            invariant
                j <= 4,
                before.valid(),
                self.valid(),
                frame == before.frame,
                frame <= 128,
                self.frame == frame,
                self.framing == before.framing,
                self.settings == before.settings,
                parses(self.framing, bits.len() as int),
                rings@ == rings_of(self.framing, bits@),
                forall|i: int| 0 <= i < 8 ==> #[trigger] rings@[i] < self.framing.rings,
                out.len() == 2 * j,
                self.coding() == coding_before(
                    before.framing,
                    before.settings,
                    before.coding(),
                    frame as int,
                    bits@,
                    j as int,
                ),
                forall|i: int|
                    0 <= i < j ==> {
                        let symbol = #[trigger] frame_symbol(
                            before.framing,
                            before.settings,
                            before.coding(),
                            frame as int,
                            bits@,
                            i,
                        );
                        fixed(out[2 * i]) == symbol.x_first && fixed(out[2 * i + 1])
                            == symbol.x_second
                    },
                forall|i: int| 0 <= i < out.len() ==> within(fixed(#[trigger] out[i]), 6528),
            decreases 4 - j,
        {
            let group = self.group(bits, j);
            proof {
                lemma_group_low_bits(self.framing, bits@, j as int);
                assert(rings@[2 * j] < self.framing.rings && rings@[2 * j + 1] < self.framing.rings);
            }
            let (first, second) = self.symbol(
                4 * frame + j,
                group,
                (rings[2 * j], rings[2 * j + 1]),
            );
            out.push(first);
            out.push(second);
            j += 1;
        }
        self.frame = (frame + 1) % (self.framing.p * self.framing.j);
        let points: [Fixed; 8] = [out[0], out[1], out[2], out[3], out[4], out[5], out[6], out[7]];
        assert(points@ =~= out@);
        points
    }

    /// The rings of a mapping frame.
    fn rings(&self, bits: &[bool]) -> (rings: [u8; 8])
        requires
            self.valid(),
            parses(self.framing, bits.len() as int),
        ensures
            rings@ == rings_of(self.framing, bits@),
            forall|i: int| 0 <= i < 8 ==> #[trigger] rings@[i] < self.framing.rings,
    {
        proof {
            law_framings_fit(self.framing);
            lemma_groups_fit(self.framing, bits.len() as int, 0);
        }
        if self.framing.b <= 12 {
            let rings: [u8; 8] = [0, 0, 0, 0, 0, 0, 0, 0];
            assert(rings@ =~= rings_of(self.framing, bits@));
            return rings;
        }
        let shell_bits = if bits.len() == self.framing.b {
            self.framing.k
        } else {
            self.framing.k - 1
        };
        let r0 = number(bits, 0, shell_bits);
        proof {
            assert(bits@.subrange(0, shell_bits as int) =~= bits@.take(shell_bits as int));
            lemma_r0_fits(self.framing, bits@);
        }
        self.shell.map(r0)
    }

    /// The bits of 4D symbol `j`.
    fn group(&self, bits: &[bool], j: usize) -> (group: Group)
        requires
            self.valid(),
            parses(self.framing, bits.len() as int),
            j < 4,
        ensures
            group == group_of(self.framing, bits@, j as int),
    {
        proof {
            law_framings_fit(self.framing);
            lemma_groups_fit(self.framing, bits.len() as int, j as int);
        }
        if self.framing.b <= 12 {
            let with_i3 = bits.len() - 8;
            let at: usize = 2 * j + if j < with_i3 {
                j
            } else {
                with_i3
            };
            return Group {
                i1: bits[at],
                i2: bits[at + 1],
                i3: j < with_i3 && bits[at + 2],
                q: (0, 0),
            };
        }
        let shell_bits = if bits.len() == self.framing.b {
            self.framing.k
        } else {
            self.framing.k - 1
        };
        let q = self.framing.q;
        assert(0 <= j * (3 + 2 * q) <= 3 * 13) by (nonlinear_arith)
            requires
                0 <= j < 4,
                0 <= q <= 5,
        ;
        let at: usize = shell_bits + j * (3 + 2 * q);
        Group {
            i1: bits[at],
            i2: bits[at + 1],
            i3: bits[at + 2],
            q: (number(bits, at + 3, q) as usize, number(bits, at + 3 + q, q) as usize),
        }
    }

    /// Steps 1 to 9 of table 11 for 4D symbol m.
    fn symbol(&mut self, m: usize, group: Group, rings: (u8, u8)) -> (points: (Fixed, Fixed))
        requires
            old(self).valid(),
            group.q.0 < pow2(old(self).framing.q as nat),
            group.q.1 < pow2(old(self).framing.q as nat),
            rings.0 < old(self).framing.rings,
            rings.1 < old(self).framing.rings,
        ensures
            final(self).valid(),
            final(self).framing == old(self).framing,
            final(self).settings == old(self).settings,
            final(self).frame == old(self).frame,
            ({
                let symbol = symbol_of(
                    old(self).framing,
                    old(self).settings,
                    old(self).coding(),
                    m as int,
                    group,
                    rings,
                );
                &&& fixed(points.0) == symbol.x_first
                &&& fixed(points.1) == symbol.x_second
                &&& final(self).coding() == symbol.coding
            }),
            within(fixed(points.0), 6528),
            within(fixed(points.1), 6528),
    {
        let ghost before = *self;
        let ghost h = self.settings.precoding;
        let ghost modulo = modulo_of(self.framing);
        proof {
            reveal(symbol_of);
            law_framings_fit(self.framing);
            lemma_labels_fit(self.framing, group.q.0, rings.0);
            lemma_labels_fit(self.framing, group.q.1, rings.1);
            law_c_fits_what_an_encoder_sends(self.coding().history, h, modulo);
        }
        self.quadrant = (self.quadrant + if group.i2 {
            1
        } else {
            0
        } + if group.i3 {
            2
        } else {
            0
        }) % 4;
        let c_first = self.precoder.c();
        let u_first = self.turned(group.q.0, rings.0, self.quadrant);
        let y_first = (u_first.0 + c_first.0, u_first.1 + c_first.1);
        proof {
            lemma_x_follows_u(before.coding().history, h, modulo, wide(u_first));
        }
        let x_first = self.precoder.push(y_first);
        let ghost between = self.precoder.history();
        proof {
            law_c_fits_what_an_encoder_sends(between, h, modulo);
        }
        let c_second = self.precoder.c();
        let c0 = parity(c_first) != parity(c_second);
        let u0 = (self.settings.trellis.output(self.state) != c0) != inversion(&self.framing, m);
        let turns = self.quadrant + if group.i1 {
            2
        } else {
            0
        } + if u0 {
            1
        } else {
            0
        };
        let u_second = self.turned(group.q.1, rings.1, turns);
        let y_second = (u_second.0 + c_second.0, u_second.1 + c_second.1);
        proof {
            lemma_x_follows_u(between, h, modulo, wide(u_second));
        }
        let x_second = self.precoder.push(y_second);
        let taken = inputs(subset(y_first), subset(y_second));
        self.state = self.settings.trellis.next(self.state, taken);
        (x_first, x_second)
    }

    fn turned(&self, low: usize, ring: u8, turns: u8) -> (u: Point)
        requires
            self.valid(),
            low < pow2(self.framing.q as nat),
            ring < self.framing.rings,
        ensures
            wide(u) == turned_point(label_of(self.framing.q, low, ring), turns as int),
            within(wide(u), 49),
    {
        proof {
            law_framings_fit(self.framing);
            lemma_labels_fit(self.framing, low, ring);
            let power = pow2(self.framing.q as nat) as int;
            let r = ring as int;
            assert(0 <= r * power) by (nonlinear_arith)
                requires
                    r >= 0,
                    power >= 0,
            ;
        }
        let label: usize = low + ring as usize * small_power(self.framing.q);
        rotate(self.constellation.point(label), turns)
    }

    /// V0(m) of table 12, with B1 as the last data frame of a superframe.
    #[must_use]
    pub fn inversion(&self, m: usize) -> (inverted: bool)
        requires
            self.valid(),
        ensures
            inverted == spec_inversion(self.framing(), m as int),
    {
        inversion(&self.framing, m)
    }
}

/// x(n) keeps within half of 2w of u(n).
proof fn lemma_x_follows_u(history: Seq<(int, int)>, h: Precoding, modulo: int, u: (int, int))
    requires
        all_within(history, 6528),
        modulo == 2 || modulo == 4,
        within(u, 49),
    ensures
        within(x_after(history, h, plus(u, c_after(history, h, modulo))), 6528),
{
    law_c_fits_what_an_encoder_sends(history, h, modulo);
}

/// For the modulo encoder: whether c/2 has an odd sum of components.
fn parity(c: Point) -> (odd: bool)
    requires
        within(wide(c), 313_348),
        c.0 % 2 == 0,
        c.1 % 2 == 0,
    ensures
        odd == odd_half(wide(c)),
{
    // Shifted up by a multiple of 4, to divide what is not negative.
    let shift: i32 = 400_000;
    let halves: i32 = (c.0 + shift) / 2 + (c.1 + shift) / 2;
    assert((c.0 + shift) / 2 == c.0 as int / 2 + 200_000);
    assert((c.1 + shift) / 2 == c.1 as int / 2 + 200_000);
    halves % 2 == 1
}

/// Only where a half data frame begins can a bit be inverted. Counted from
/// the first of B1, half data frames 1, 2 and 6 of a superframe are not, nor
/// is the last of 16, and all others are.
pub proof fn law_table_12(framing: Framing, m: int, half: int)
    requires
        framing.valid(),
        half >= 0,
    ensures
        m % (2 * framing.p as int) != 0 ==> !spec_inversion(framing, m),
        framing.j == 8 ==> (spec_inversion(framing, half * (2 * framing.p)) <==> half % 16 != 1 && half % 16 != 2
            && half % 16 != 6 && half % 16 != 15),
        framing.j == 7 ==> (spec_inversion(framing, half * (2 * framing.p)) <==> half % 14 != 1 && half % 14 != 2
            && half % 14 != 6),
{
    law_framings_fit(framing);
    let width = 2 * framing.p as int;
    vstd::arithmetic::div_mod::lemma_div_by_multiple(half, width);
    vstd::arithmetic::div_mod::lemma_mod_multiples_basic(half, width);
    let table = table_12(framing.j as int);
    if framing.j == 8 {
        assert((half + 14) % 16 == if half % 16 < 2 {
            half % 16 + 14
        } else {
            half % 16 - 2
        });
    } else {
        assert((half + 12) % 14 == if half % 14 < 2 {
            half % 14 + 12
        } else {
            half % 14 - 2
        });
    }
}

/// § 9.3, bit by bit. More than 12 bits begin with those of the shell
/// mapper, one less in a low frame, and each 4D symbol then takes I1, I2,
/// I3, the Q bits of its first 2D symbol and those of its second. Up to 12
/// bits have no others than I1, I2 and I3, and leave I3 out of the last
/// symbols; all their rings are 0.
pub proof fn law_the_bits_of_a_mapping_frame(framing: Framing, bits: Seq<bool>, j: int)
    requires
        framing.valid(),
        parses(framing, bits.len() as int),
        0 <= j < 4,
    ensures
        ({
            let group = group_of(framing, bits, j);
            let q = framing.q as int;
            let first = framing.k - (framing.b - bits.len()) + j * (3 + 2 * q);
            let short = bits.len() - 8;
            let at = if j < short {
                3 * j
            } else {
                2 * j + short
            };
            &&& framing.b > 12 ==> {
                &&& r0_of(framing, bits) == value_of(bits.subrange(0, framing.k - (framing.b - bits.len())))
                &&& rings_of(framing, bits) == shell_of(framing.rings as int, r0_of(framing, bits))
                &&& group.i1 == bits[first]
                &&& group.i2 == bits[first + 1]
                &&& group.i3 == bits[first + 2]
                &&& group.q.0 == value_of(bits.subrange(first + 3, first + 3 + q))
                &&& group.q.1 == value_of(bits.subrange(first + 3 + q, first + 3 + 2 * q))
            }
            &&& framing.b <= 12 ==> {
                &&& rings_of(framing, bits) == seq![0u8, 0, 0, 0, 0, 0, 0, 0]
                &&& group.i1 == bits[at]
                &&& group.i2 == bits[at + 1]
                &&& group.i3 == (j < short && bits[at + 2])
                &&& group.q == (0usize, 0usize)
            }
        }),
{
    law_framings_fit(framing);
    lemma_groups_fit(framing, bits.len() as int, j);
    let at = group_start(framing, bits.len() as int, j);
    let q = framing.q as int;
    if framing.b > 12 {
        assert(bits.take(framing.k - (framing.b - bits.len())) =~= bits.subrange(
            0,
            framing.k - (framing.b - bits.len()),
        ));
        lemma_small_value(bits.subrange(at + 3, at + 3 + q), q as nat);
        lemma_small_value(bits.subrange(at + 3 + q, at + 3 + 2 * q), q as nat);
    }
}

/// Without precoding: Z goes on by I2 + 2 I3 quarter turns, the first point
/// is that of its label turned Z times, and the second that of its own label
/// turned Z + 2 I1 + U0 times, where U0 is Y0 of the trellis encoder,
/// inverted where table 12 says so. The trellis encoder then takes the
/// subsets of both points.
pub proof fn law_the_points_of_a_4d_symbol(
    framing: Framing,
    settings: Settings,
    coding: Coding,
    m: int,
    group: Group,
    rings: (u8, u8),
)
    requires
        framing.valid(),
        coding.valid(),
        settings.precoding@ == seq![(0i16, 0i16), (0i16, 0i16), (0i16, 0i16)],
        group.q.0 < pow2(framing.q as nat),
        group.q.1 < pow2(framing.q as nat),
    ensures
        ({
            let symbol = symbol_of(framing, settings, coding, m, group, rings);
            let z = symbol.coding.quadrant;
            let one = quarter()[group.q.0 + pow2(framing.q as nat) * rings.0];
            let two = quarter()[group.q.1 + pow2(framing.q as nat) * rings.1];
            let u0 = settings.trellis.spec_output(coding.state) != spec_inversion(framing, m);
            let half = if group.i1 {
                2int
            } else {
                0int
            };
            let turns = z + half + if u0 {
                1int
            } else {
                0int
            };
            &&& !group.i2 && !group.i3 ==> z == coding.quadrant
            &&& group.i2 && !group.i3 ==> z == (coding.quadrant + 1) % 4
            &&& !group.i2 && group.i3 ==> z == (coding.quadrant + 2) % 4
            &&& group.i2 && group.i3 ==> z == (coding.quadrant + 3) % 4
            &&& z == 0 ==> symbol.first == (one.0 as int, one.1 as int)
            &&& z == 1 ==> symbol.first == (one.1 as int, -one.0)
            &&& z == 2 ==> symbol.first == (-one.0, -one.1)
            &&& z == 3 ==> symbol.first == (-one.1, one.0 as int)
            &&& turns % 4 == 0 ==> symbol.second == (two.0 as int, two.1 as int)
            &&& turns % 4 == 1 ==> symbol.second == (two.1 as int, -two.0)
            &&& turns % 4 == 2 ==> symbol.second == (-two.0, -two.1)
            &&& turns % 4 == 3 ==> symbol.second == (-two.1, two.0 as int)
            &&& symbol.x_first == (128 * symbol.first.0, 128 * symbol.first.1)
            &&& symbol.x_second == (128 * symbol.second.0, 128 * symbol.second.1)
            &&& symbol.coding.history == seq![symbol.x_second, symbol.x_first, coding.history[0]]
            &&& symbol.coding.state == settings.trellis.spec_next(
                coding.state,
                spec_inputs(spec_subset(symbol.first), spec_subset(symbol.second)) as u8,
            ) as u8
        }),
{
    reveal(symbol_of);
    let h = settings.precoding;
    let symbol = symbol_of(framing, settings, coding, m, group, rings);
    let between = shifted(coding.history, symbol.x_first);
    crate::v34::precoder::law_no_coefficients_change_nothing(coding.history, h, modulo_of(framing), symbol.first);
    crate::v34::precoder::law_no_coefficients_change_nothing(between, h, modulo_of(framing), symbol.second);
    let power = pow2(framing.q as nat) as int;
    let (r, s) = (rings.0 as int, rings.1 as int);
    assert(r * power == power * r && s * power == power * s) by (nonlinear_arith);
    assert(shifted(between, symbol.x_second) =~= seq![symbol.x_second, symbol.x_first, coding.history[0]]);
}

proof fn lemma_parities(c: (int, int), next: (int, int))
    ensures
        (odd_half(c) != odd_half(next)) == ((c.0 / 2 + c.1 / 2 + next.0 / 2 + next.1 / 2) % 2 == 1),
{
}

/// The second point's extra turn also counts what the precoder put in: C0 is
/// 1 where c(n) and c(n + 1), halved, have sums of different parity. The
/// precoder's c(n) is what stands between the turned point and y(n).
#[verifier::rlimit(40)]
#[verifier::spinoff_prover]
pub proof fn law_c0_keeps_the_parity_of_the_precoder(
    framing: Framing,
    settings: Settings,
    coding: Coding,
    m: int,
    group: Group,
    rings: (u8, u8),
)
    requires
        framing.valid(),
    ensures
        ({
            let symbol = symbol_of(framing, settings, coding, m, group, rings);
            let modulo: int = if framing.b < 56 {
                2
            } else {
                4
            };
            let z = (coding.quadrant + (if group.i2 {
                1int
            } else {
                0
            }) + (if group.i3 {
                2int
            } else {
                0
            })) % 4;
            let one = quarter()[group.q.0 + rings.0 * pow2(framing.q as nat)];
            let two = quarter()[group.q.1 + rings.1 * pow2(framing.q as nat)];
            let c = c_after(coding.history, settings.precoding, modulo);
            let next = c_after(seq![symbol.x_first, coding.history[0], coding.history[1]], settings.precoding, modulo);
            let c0 = (c.0 / 2 + c.1 / 2 + next.0 / 2 + next.1 / 2) % 2 == 1;
            let u0 = (settings.trellis.spec_output(coding.state) != c0) != spec_inversion(framing, m);
            let turn = spec_rotate((one.0 as int, one.1 as int), z);
            let other = spec_rotate((two.0 as int, two.1 as int), z + (if group.i1 {
                2int
            } else {
                0
            }) + (if u0 {
                1int
            } else {
                0
            }));
            &&& symbol.coding.quadrant == z
            &&& symbol.first == (turn.0 + c.0, turn.1 + c.1)
            &&& symbol.second == (other.0 + next.0, other.1 + next.1)
        }),
{
    reveal(symbol_of);
    let symbol = symbol_of(framing, settings, coding, m, group, rings);
    let between = shifted(coding.history, symbol.x_first);
    assert(between =~= seq![symbol.x_first, coding.history[0], coding.history[1]]);
    lemma_parities(
        c_after(coding.history, settings.precoding, modulo_of(framing)),
        c_after(between, settings.precoding, modulo_of(framing)),
    );
}

} // verus!

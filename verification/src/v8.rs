//! The V.8 menus: CM from the caller, JM from the answering modem, and CJ, as
//! bit sequences for V.21 at 300 bit/s.

use crate::uart::{character, frame};
use crate::v34::bits::{
    field_bits, law_reads_back_a_field, law_writes_back_what_it_reads, lemma_field_bits_len,
    lemma_repeated_len, number_at, repeated, value_of, Reader as Fields,
};
use std::collections::VecDeque;
use vstd::prelude::*;

verus! {

/// Table 1, the ones of the preamble.
pub const PREAMBLE_ONES: usize = 10;

/// Table 1, the CM and JM synchronisation.
pub const SYNC: [bool; 10] = [
    false,
    false,
    false,
    false,
    false,
    false,
    true,
    true,
    true,
    true,
];

/// The sides of V.90 a menu offers, from table 5.
#[derive(Debug, Clone, Copy, PartialEq, Eq, Structural)]
pub struct Pcm {
    /// The analogue modem, b5.
    pub analogue: bool,
    /// The digital modem, b6.
    pub digital: bool,
}

impl Default for Pcm {
    fn default() -> (none: Self)
        ensures
            none == Self::spec_none(),
    {
        Self { analogue: false, digital: false }
    }
}

impl Pcm {
    pub open spec fn spec_none() -> Self {
        Self { analogue: false, digital: false }
    }

    pub open spec fn spec_any(self) -> bool {
        self.analogue || self.digital
    }

    #[must_use]
    pub fn any(self) -> (any: bool)
        ensures
            any == self.spec_any(),
    {
        self.analogue || self.digital
    }

    /// V.90 needs an analogue and a digital modem, one at each end (V.90 § 9.1.1).
    pub open spec fn spec_common(self, other: Self) -> Self {
        Self {
            analogue: self.analogue && other.digital,
            digital: self.digital && other.analogue,
        }
    }

    /// V.90 needs an analogue and a digital modem, one at each end (V.90 § 9.1.1).
    #[must_use]
    pub fn common(self, other: Self) -> (common: Self)
        ensures
            common == self.spec_common(other),
    {
        Self {
            analogue: self.analogue && other.digital,
            digital: self.digital && other.analogue,
        }
    }
}

/// The modulations a menu offers, of those this modem has.
#[derive(Debug, Clone, Copy, PartialEq, Eq, Structural)]
pub struct Modes {
    pub v90: Pcm,
    /// V.34 duplex, item 2 of table 4.
    pub v34: bool,
    /// V.22bis or V.22, item 4 of table 4.
    pub v22bis: bool,
    /// V.21, item 12 of table 4.
    pub v21: bool,
}

impl Default for Modes {
    fn default() -> (none: Self)
        ensures
            none == Self::spec_none(),
    {
        Self { v90: Pcm::default(), v34: false, v22bis: false, v21: false }
    }
}

impl Modes {
    pub open spec fn spec_none() -> Self {
        Self { v90: Pcm::spec_none(), v34: false, v22bis: false, v21: false }
    }

    pub open spec fn spec_common(self, other: Self) -> Self {
        Self {
            v90: self.v90.spec_common(other.v90),
            v34: self.v34 && other.v34,
            v22bis: self.v22bis && other.v22bis,
            v21: self.v21 && other.v21,
        }
    }

    #[must_use]
    pub fn common(self, other: Self) -> (common: Self)
        ensures
            common == self.spec_common(other),
    {
        Self {
            v90: self.v90.common(other.v90),
            v34: self.v34 && other.v34,
            v22bis: self.v22bis && other.v22bis,
            v21: self.v21 && other.v21,
        }
    }
}

/// What two ends have in common, each finds for itself: the same modes, but
/// for the sides of V.90, which are the other way round.
pub proof fn law_both_ends_find_the_same_modes(ours: Modes, theirs: Modes)
    ensures
        ours.spec_common(theirs).v34 == theirs.spec_common(ours).v34,
        ours.spec_common(theirs).v22bis == theirs.spec_common(ours).v22bis,
        ours.spec_common(theirs).v21 == theirs.spec_common(ours).v21,
        ours.spec_common(theirs).v90.analogue == theirs.spec_common(ours).v90.digital,
        ours.spec_common(theirs).v90.digital == theirs.spec_common(ours).v90.analogue,
        ours.spec_common(theirs).v90.spec_any() == theirs.spec_common(ours).v90.spec_any(),
{
}

/// An analogue modem pairs only with a digital one.
pub proof fn law_pairs_an_analogue_modem_only_with_a_digital_one(ours: Pcm, theirs: Pcm)
    ensures
        ours.spec_common(theirs).analogue ==> theirs.digital,
        ours.spec_common(theirs).digital ==> theirs.analogue,
        !ours.digital && !theirs.digital ==> !ours.spec_common(theirs).spec_any(),
        !ours.analogue && !theirs.analogue ==> !ours.spec_common(theirs).spec_any(),
{
}

/// A CM or JM, told apart by the channel it came on.
#[derive(Debug, Clone, Copy, PartialEq, Eq, Structural)]
pub struct Menu {
    pub data: bool,
    pub modes: Modes,
}

pub open spec fn if_set(set: bool, value: u8) -> int {
    if set {
        value as int
    } else {
        0
    }
}

/// Bit b_i of an octet, from what it is worth.
pub open spec fn is_set(octet: u8, worth: int) -> bool {
    (octet as int / worth) % 2 == 1
}

/// How far a menu has been read.
pub struct Scan {
    pub modes: Modes,
    pub in_modulation: bool,
    /// The extension octets since the last category.
    pub extensions: nat,
}

impl Scan {
    /// An extension octet has b3, b4 and b5 as 0, 1 and 0.
    pub open spec fn is_extension(octet: u8) -> bool {
        (octet as int / 8) % 8 == 2
    }

    pub open spec fn after(self, octet: u8) -> Self {
        if Self::is_extension(octet) {
            if self.in_modulation {
                Self {
                    modes: Modes {
                        v22bis: if self.extensions == 0 {
                            is_set(octet, 2)
                        } else {
                            self.modes.v22bis
                        },
                        v21: if self.extensions == 1 {
                            is_set(octet, 128)
                        } else {
                            self.modes.v21
                        },
                        ..self.modes
                    },
                    in_modulation: true,
                    extensions: self.extensions + 1,
                }
            } else {
                self
            }
        } else if !is_set(octet, 16) {
            Self {
                modes: Modes {
                    v34: if octet % 16 == 5 {
                        is_set(octet, 64)
                    } else {
                        self.modes.v34
                    },
                    v90: if octet % 32 == 7 {
                        Pcm { analogue: is_set(octet, 32), digital: is_set(octet, 64) }
                    } else {
                        self.modes.v90
                    },
                    ..self.modes
                },
                in_modulation: octet % 16 == 5,
                extensions: 0,
            }
        } else {
            self
        }
    }
}

/// What the octets after the first say.
pub open spec fn scanned(octets: Seq<u8>) -> Scan
    decreases octets.len(),
{
    if octets.len() == 0 {
        Scan { modes: Modes::spec_none(), in_modulation: false, extensions: 0 }
    } else {
        scanned(octets.drop_last()).after(octets.last())
    }
}

impl Menu {
    /// Tables 2 to 7, with bit i of each byte being b_i. This modem is always
    /// on a digital network connection, as it speaks RTP.
    pub open spec fn spec_octets(self) -> Seq<u8> {
        let v90 = self.modes.v90;
        seq![
            if self.data {
                0xC1u8
            } else {
                0x01
            },
            (0x05 + if_set(v90.spec_any(), 0x20) + if_set(self.modes.v34, 0x40)) as u8,
            (0x10 + if_set(self.modes.v22bis, 0x02)) as u8,
            (0x10 + if_set(self.modes.v21, 0x80)) as u8,
        ] + if v90.spec_any() {
            seq![
                0x8Du8,
                (0x07 + if_set(v90.analogue, 0x20) + if_set(v90.digital, 0x40)) as u8,
            ]
        } else {
            seq![]
        }
    }

    /// A call function octet, then what the others say.
    pub open spec fn spec_parse(octets: Seq<u8>) -> Option<Self> {
        if octets.len() > 0 && octets[0] % 16 == 1 && !is_set(octets[0], 16) {
            Some(Self { data: octets[0] == 0xC1, modes: scanned(octets.skip(1)).modes })
        } else {
            None
        }
    }

    /// Preamble, synchronisation and octets.
    pub open spec fn spec_sequence(self) -> Seq<bool> {
        ones(10) + SYNC@ + characters(self.spec_octets())
    }

    #[must_use]
    pub fn data(modes: Modes) -> (menu: Self)
        ensures
            menu == (Self { data: true, modes }),
    {
        Self { data: true, modes }
    }

    /// Tables 2 to 7, with bit i of each byte being b_i.
    #[must_use]
    pub fn octets(self) -> (octets: Vec<u8>)
        ensures
            octets@ == self.spec_octets(),
    {
        let modes = self.modes;
        let call: u8 = if self.data {
            0xC1
        } else {
            0x01
        };
        let any = modes.v90.any();
        let modn0: u8 = 0x05 + (if any {
            0x20u8
        } else {
            0
        }) + (if modes.v34 {
            0x40u8
        } else {
            0
        });
        let modn1: u8 = 0x10 + (if modes.v22bis {
            0x02u8
        } else {
            0
        });
        let modn2: u8 = 0x10 + (if modes.v21 {
            0x80u8
        } else {
            0
        });
        let mut octets: Vec<u8> = vec![call, modn0, modn1, modn2];
        if any {
            let pcm0: u8 = 0x07 + (if modes.v90.analogue {
                0x20u8
            } else {
                0
            }) + (if modes.v90.digital {
                0x40u8
            } else {
                0
            });
            octets.push(0x8D);
            octets.push(pcm0);
        }
        assert(octets@ =~= self.spec_octets());
        octets
    }

    /// One sequence of the menu, to be sent over and over.
    #[must_use]
    pub fn sequence(self) -> (bits: Vec<bool>)
        ensures
            bits@ == self.spec_sequence(),
    {
        let mut bits: Vec<bool> = Vec::new();
        while bits.len() < PREAMBLE_ONES
            invariant
                bits.len() <= 10,
                bits@ == ones(bits.len() as nat),
            decreases 10 - bits.len(),
        {
            bits.push(true);
            assert(bits@ =~= ones(bits.len() as nat));
        }
        let mut i: usize = 0;
        while i < 10
            invariant
                i <= 10,
                bits@ == ones(10) + SYNC@.take(i as int),
            decreases 10 - i,
        {
            bits.push(SYNC[i]);
            i += 1;
            assert(bits@ =~= ones(10) + SYNC@.take(i as int));
        }
        let octets = self.octets();
        let mut i: usize = 0;
        assert(octets@.take(0) =~= Seq::<u8>::empty());
        assert(bits@ =~= ones(10) + SYNC@ + characters(octets@.take(0)));
        while i < octets.len()
            invariant
                i <= octets.len(),
                bits@ == ones(10) + SYNC@ + characters(octets@.take(i as int)),
            decreases octets.len() - i,
        {
            let mut character = frame(octets[i]);
            bits.append(&mut character);
            i += 1;
            assert(octets@.take(i as int).drop_last() =~= octets@.take(i - 1));
            assert(bits@ =~= ones(10) + SYNC@ + characters(octets@.take(i as int)));
        }
        assert(octets@.take(i as int) =~= octets@);
        bits
    }

    /// What the octets of a menu say, if they are those of a menu.
    #[must_use]
    pub fn parse(octets: &[u8]) -> (menu: Option<Self>)
        ensures
            menu == Self::spec_parse(octets@),
    {
        if octets.len() == 0 {
            return None;
        }
        let call = octets[0];
        if call % 16 != 1 || (call / 16) % 2 == 1 {
            return None;
        }
        let mut modes = Modes::default();
        let mut in_modulation = false;
        let mut extensions: u8 = 0;
        let mut i: usize = 1;
        assert(octets@.subrange(1, 1) =~= Seq::<u8>::empty());
        while i < octets.len()
            invariant
                1 <= i <= octets.len(),
                extensions <= 3,
                ({
                    let scan = scanned(octets@.subrange(1, i as int));
                    &&& modes == scan.modes
                    &&& in_modulation == scan.in_modulation
                    &&& extensions == if scan.extensions < 3 {
                        scan.extensions
                    } else {
                        3
                    }
                }),
            decreases octets.len() - i,
        {
            let octet = octets[i];
            proof {
                assert(octets@.subrange(1, i + 1).drop_last() =~= octets@.subrange(1, i as int));
                assert(octets@.subrange(1, i + 1).last() == octet);
            }
            if (octet / 8) % 8 == 2 {
                if in_modulation {
                    if extensions == 0 {
                        modes.v22bis = (octet / 2) % 2 == 1;
                    } else if extensions == 1 {
                        modes.v21 = octet / 128 == 1;
                    }
                    if extensions < 3 {
                        extensions += 1;
                    }
                }
            } else if (octet / 16) % 2 == 0 {
                in_modulation = octet % 16 == 5;
                if in_modulation {
                    modes.v34 = (octet / 64) % 2 == 1;
                }
                if octet % 32 == 7 {
                    modes.v90 = Pcm {
                        analogue: (octet / 32) % 2 == 1,
                        digital: (octet / 64) % 2 == 1,
                    };
                }
                extensions = 0;
            }
            i += 1;
        }
        assert(octets@.subrange(1, i as int) =~= octets@.skip(1));
        Some(Self { data: call == 0xC1, modes })
    }
}

pub open spec fn ones(count: nat) -> Seq<bool> {
    Seq::new(count, |i: int| true)
}

/// The octets as start-stop characters.
pub open spec fn characters(octets: Seq<u8>) -> Seq<bool>
    decreases octets.len(),
{
    if octets.len() == 0 {
        seq![]
    } else {
        characters(octets.drop_last()) + character(octets.last())
    }
}

/// A menu's octets say what it offers.
pub proof fn law_parses_the_octets_of_a_menu(menu: Menu)
    ensures
        Menu::spec_parse(menu.spec_octets()) == Some(menu),
{
    let octets = menu.spec_octets();
    let rest = octets.skip(1);
    let none = Seq::<u8>::empty();
    assert(rest.take(0) =~= none);
    assert(rest.take(1).drop_last() =~= rest.take(0));
    assert(rest.take(2).drop_last() =~= rest.take(1));
    assert(rest.take(3).drop_last() =~= rest.take(2));
    let first = scanned(rest.take(1));
    assert(first == scanned(none).after(rest[0]));
    assert(first.modes == Modes { v34: menu.modes.v34, ..Modes::spec_none() });
    assert(first.in_modulation && first.extensions == 0);
    let second = scanned(rest.take(2));
    assert(second == first.after(rest[1]));
    assert(second.modes == Modes { v22bis: menu.modes.v22bis, ..first.modes });
    assert(second.in_modulation && second.extensions == 1);
    let third = scanned(rest.take(3));
    assert(third == second.after(rest[2]));
    assert(third.modes == Modes { v21: menu.modes.v21, ..second.modes });
    if menu.modes.v90.spec_any() {
        assert(rest.take(4).drop_last() =~= rest.take(3));
        assert(rest.take(5).drop_last() =~= rest.take(4));
        assert(rest.take(5) =~= rest);
        let fourth = scanned(rest.take(4));
        assert(fourth == third.after(rest[3]));
        assert(fourth.modes == third.modes);
        let fifth = scanned(rest.take(5));
        assert(fifth == fourth.after(rest[4]));
        assert(fifth.modes.v90 == menu.modes.v90);
        assert(fifth.modes == menu.modes);
    } else {
        assert(rest.take(3) =~= rest);
        assert(menu.modes.v90 == Pcm::spec_none());
    }
}

/// CJ, which ends CM once the caller has heard JM: three octets of zeros.
pub open spec fn spec_cj() -> Seq<bool> {
    Seq::new(30, |i: int| i % 10 == 9)
}

/// CJ, which ends CM once the caller has heard JM.
#[must_use]
pub fn cj() -> (bits: Vec<bool>)
    ensures
        bits@ == spec_cj(),
        bits@ == characters(seq![0u8, 0, 0]),
{
    let mut bits: Vec<bool> = Vec::new();
    let mut i: usize = 0;
    while i < 30
        invariant
            i <= 30,
            bits.len() == i,
            forall|k: int| 0 <= k < i ==> #[trigger] bits[k] == (k % 10 == 9),
        decreases 30 - i,
    {
        bits.push(i % 10 == 9);
        i += 1;
    }
    assert(bits@ =~= spec_cj());
    proof {
        lemma_character_of_zero();
        let zeros = seq![0u8, 0, 0];
        assert(zeros.drop_last() =~= seq![0u8, 0]);
        assert(seq![0u8, 0].drop_last() =~= seq![0u8]);
        assert(seq![0u8].drop_last() =~= Seq::<u8>::empty());
        reveal_with_fuel(characters, 4);
        assert(characters(zeros) =~= spec_cj());
    }
    bits
}

proof fn lemma_character_of_zero()
    ensures
        character(0) == Seq::new(10, |i: int| i == 9),
{
    reveal_with_fuel(field_bits, 9);
    assert(character(0) =~= Seq::new(10, |i: int| i == 9));
}

/// What the reader found in the bits.
#[derive(Debug, Clone, Copy, PartialEq, Eq, Structural)]
pub enum Heard {
    Menu(Menu),
    Cj,
}

/// Where a reader is in a menu.
pub enum Place {
    /// Before it, after ones as far as they count for a preamble.
    Hunt { ones: nat },
    /// After so many bits of the synchronisation.
    Sync { at: nat },
    /// Between two octets.
    Octets,
    /// After these data bits of an octet.
    Octet(Seq<bool>),
    /// Before the stop bit of an octet.
    Stop(u8),
}

/// What a reader keeps.
pub struct Reading {
    pub place: Place,
    pub octets: Seq<u8>,
    /// The last 30 bits, as CJ may follow a menu or the preamble of the next.
    pub recent: Seq<bool>,
}

/// The place after one more bit of the synchronisation.
pub open spec fn synced(at: nat, bit: bool) -> Place {
    if bit != SYNC@[at as int] {
        Place::Hunt {
            ones: if bit {
                1
            } else {
                0
            },
        }
    } else if at == 9 {
        Place::Octets
    } else {
        Place::Sync { at: at + 1 }
    }
}

impl Reading {
    pub open spec fn fresh() -> Self {
        Self { place: Place::Hunt { ones: 0 }, octets: seq![], recent: ones(30) }
    }

    pub open spec fn valid(self) -> bool {
        &&& self.recent.len() == 30
        &&& match self.place {
            Place::Hunt { ones } => ones <= 10,
            Place::Sync { at } => at < 10,
            Place::Octet(bits) => bits.len() < 8,
            _ => true,
        }
    }

    /// Whether `bit` ends CJ.
    pub open spec fn ends_cj(self, bit: bool) -> bool {
        self.recent.skip(1).push(bit) == spec_cj()
    }

    pub open spec fn place_after(self, bit: bool) -> Place {
        match self.place {
            Place::Hunt { ones } => if bit {
                Place::Hunt {
                    ones: if ones < 10 {
                        ones + 1
                    } else {
                        10
                    },
                }
            } else if ones == 10 {
                synced(0, bit)
            } else {
                Place::Hunt { ones: 0 }
            },
            Place::Sync { at } => synced(at, bit),
            Place::Octets => if bit {
                Place::Hunt { ones: 1 }
            } else {
                Place::Octet(seq![])
            },
            Place::Octet(bits) => if bits.len() == 7 {
                Place::Stop(value_of(bits.push(bit)) as u8)
            } else {
                Place::Octet(bits.push(bit))
            },
            Place::Stop(_) => if bit {
                Place::Octets
            } else {
                Place::Hunt { ones: 0 }
            },
        }
    }

    pub open spec fn octets_after(self, bit: bool) -> Seq<u8> {
        match self.place {
            Place::Sync { at } => if at == 9 && bit == SYNC@[9] {
                seq![]
            } else {
                self.octets
            },
            Place::Octets => if bit {
                seq![]
            } else {
                self.octets
            },
            Place::Stop(octet) => if bit {
                self.octets.push(octet)
            } else {
                seq![]
            },
            _ => self.octets,
        }
    }

    pub open spec fn after(self, bit: bool) -> Self {
        if self.ends_cj(bit) {
            Self::fresh()
        } else {
            Self {
                place: self.place_after(bit),
                octets: self.octets_after(bit),
                recent: self.recent.skip(1).push(bit),
            }
        }
    }

    /// What `bit` completes.
    pub open spec fn heard(self, bit: bool) -> Option<Heard> {
        if self.ends_cj(bit) {
            Some(Heard::Cj)
        } else if self.place is Octets && bit {
            match Menu::spec_parse(self.octets) {
                Some(menu) => Some(Heard::Menu(menu)),
                None => None,
            }
        } else {
            None
        }
    }
}

/// After `bits`.
pub open spec fn reading_after(reading: Reading, bits: Seq<bool>) -> Reading
    decreases bits.len(),
{
    if bits.len() == 0 {
        reading
    } else {
        reading_after(reading, bits.drop_last()).after(bits.last())
    }
}

/// What `bits` say, in order.
pub open spec fn hears(reading: Reading, bits: Seq<bool>) -> Seq<Heard>
    decreases bits.len(),
{
    if bits.len() == 0 {
        seq![]
    } else {
        hears(reading, bits.drop_last()) + match reading_after(reading, bits.drop_last()).heard(
            bits.last(),
        ) {
            Some(heard) => seq![heard],
            None => seq![],
        }
    }
}

#[derive(Debug)]
enum State {
    Hunt { ones: usize },
    Sync { at: usize },
    Octets,
    Octet { bits: Vec<bool> },
    Stop { value: u8 },
}

/// Finds CM, JM and CJ in a stream of V.21 bits.
#[derive(Debug)]
pub struct Reader {
    state: State,
    octets: Vec<u8>,
    recent: VecDeque<bool>,
}

impl View for Reader {
    type V = Reading;

    closed spec fn view(&self) -> Reading {
        Reading {
            place: match self.state {
                State::Hunt { ones } => Place::Hunt { ones: ones as nat },
                State::Sync { at } => Place::Sync { at: at as nat },
                State::Octets => Place::Octets,
                State::Octet { bits } => Place::Octet(bits@),
                State::Stop { value } => Place::Stop(value),
            },
            octets: self.octets@,
            recent: self.recent@,
        }
    }
}

impl Default for Reader {
    fn default() -> (reader: Self)
        ensures
            reader@ == Reading::fresh(),
    {
        Self::new()
    }
}

fn thirty_ones() -> (bits: VecDeque<bool>)
    ensures
        bits@ == ones(30),
{
    let mut bits: VecDeque<bool> = VecDeque::new();
    let mut n: usize = 0;
    while n < 30
        invariant
            n <= 30,
            bits@ == ones(n as nat),
        decreases 30 - n,
    {
        bits.push_back(true);
        n += 1;
        assert(bits@ =~= ones(n as nat));
    }
    bits
}

impl Reader {
    #[must_use]
    pub fn new() -> (reader: Self)
        ensures
            reader@ == Reading::fresh(),
            reader@.valid(),
    {
        let reader = Self {
            state: State::Hunt { ones: 0 },
            octets: Vec::new(),
            recent: thirty_ones(),
        };
        assert(reader@.octets =~= Seq::<u8>::empty());
        reader
    }

    fn recent_is_cj(&self) -> (is: bool)
        requires
            self.recent@.len() == 30,
        ensures
            is == (self.recent@ == spec_cj()),
    {
        let mut i: usize = 0;
        while i < 30
            invariant
                i <= 30,
                self.recent@.len() == 30,
                forall|k: int| 0 <= k < i ==> #[trigger] self.recent@[k] == spec_cj()[k],
            decreases 30 - i,
        {
            if self.recent[i] != (i % 10 == 9) {
                assert(self.recent@[i as int] != spec_cj()[i as int]);
                return false;
            }
            i += 1;
        }
        assert(self.recent@ =~= spec_cj());
        true
    }

    pub fn push(&mut self, bit: bool) -> (heard: Option<Heard>)
        requires
            old(self)@.valid(),
        ensures
            final(self)@.valid(),
            final(self)@ == old(self)@.after(bit),
            heard == old(self)@.heard(bit),
    {
        let ghost before = self@;
        let _oldest = self.recent.pop_front();
        self.recent.push_back(bit);
        assert(self.recent@ =~= before.recent.skip(1).push(bit));
        if self.recent_is_cj() {
            self.recent = thirty_ones();
            self.octets = Vec::new();
            self.state = State::Hunt { ones: 0 };
            assert(self@.octets =~= Seq::<u8>::empty());
            return Some(Heard::Cj);
        }
        let mut state = State::Octets;
        core::mem::swap(&mut state, &mut self.state);
        match state {
            State::Hunt { ones } => {
                if bit {
                    self.state = State::Hunt {
                        ones: if ones < PREAMBLE_ONES {
                            ones + 1
                        } else {
                            PREAMBLE_ONES
                        },
                    };
                } else if ones >= PREAMBLE_ONES {
                    self.sync(0, bit);
                } else {
                    self.state = State::Hunt { ones: 0 };
                }
                None
            },
            State::Sync { at } => {
                self.sync(at, bit);
                None
            },
            State::Octets => {
                if bit {
                    let menu = Menu::parse(self.octets.as_slice());
                    self.octets = Vec::new();
                    self.state = State::Hunt { ones: 1 };
                    assert(self@.octets =~= Seq::<u8>::empty());
                    match menu {
                        Some(menu) => Some(Heard::Menu(menu)),
                        None => None,
                    }
                } else {
                    self.state = State::Octet { bits: Vec::new() };
                    assert(self@.place->Octet_0 =~= Seq::<bool>::empty());
                    None
                }
            },
            State::Octet { mut bits } => {
                bits.push(bit);
                if bits.len() == 8 {
                    proof {
                        vstd::arithmetic::power2::lemma2_to64();
                        reveal(number_at);
                        law_writes_back_what_it_reads(bits@);
                        assert(bits@.subrange(0, 8) =~= bits@);
                    }
                    let value = Fields::new(bits.as_slice()).field(8) as u8;
                    self.state = State::Stop { value };
                } else {
                    self.state = State::Octet { bits };
                }
                None
            },
            State::Stop { value } => {
                if bit {
                    self.octets.push(value);
                    self.state = State::Octets;
                } else {
                    self.octets = Vec::new();
                    self.state = State::Hunt { ones: 0 };
                    assert(self@.octets =~= Seq::<u8>::empty());
                }
                None
            },
        }
    }

    fn sync(&mut self, at: usize, bit: bool)
        requires
            at < 10,
        ensures
            final(self).recent == old(self).recent,
            final(self)@.place == synced(at as nat, bit),
            final(self)@.octets == if at == 9 && bit == SYNC@[9] {
                Seq::<u8>::empty()
            } else {
                old(self)@.octets
            },
    {
        if bit != SYNC[at] {
            self.state = State::Hunt {
                ones: if bit {
                    1
                } else {
                    0
                },
            };
        } else if at == 9 {
            self.octets = Vec::new();
            self.state = State::Octets;
            assert(self@.octets =~= Seq::<u8>::empty());
        } else {
            self.state = State::Sync { at: at + 1 };
        }
    }
}

proof fn lemma_concatenated(reading: Reading, first: Seq<bool>, second: Seq<bool>)
    ensures
        reading_after(reading, first + second) == reading_after(
            reading_after(reading, first),
            second,
        ),
        hears(reading, first + second) == hears(reading, first) + hears(
            reading_after(reading, first),
            second,
        ),
    decreases second.len(),
{
    if second.len() == 0 {
        assert(first + second =~= first);
        assert(hears(reading, first) + Seq::<Heard>::empty() =~= hears(reading, first));
    } else {
        lemma_concatenated(reading, first, second.drop_last());
        assert((first + second).drop_last() =~= first + second.drop_last());
        assert(hears(reading, first + second) =~= hears(reading, first) + hears(
            reading_after(reading, first),
            second,
        ));
    }
}

proof fn lemma_stays_valid(reading: Reading, bits: Seq<bool>)
    requires
        reading.valid(),
    ensures
        reading_after(reading, bits).valid(),
    decreases bits.len(),
{
    if bits.len() > 0 {
        lemma_stays_valid(reading, bits.drop_last());
    }
}

/// While no CJ comes, the last bits are those that came last.
proof fn lemma_recent(reading: Reading, bits: Seq<bool>)
    requires
        reading.valid(),
        bits.len() <= 30,
        forall|i: int| 0 <= i < bits.len() ==> #[trigger] hears_no_cj(reading, bits, i),
    ensures
        reading_after(reading, bits).recent == (reading.recent + bits).skip(bits.len() as int),
    decreases bits.len(),
{
    if bits.len() == 0 {
        assert((reading.recent + bits).skip(0) =~= reading.recent);
    } else {
        let n = bits.len() as int;
        let less = bits.drop_last();
        assert forall|i: int| 0 <= i < less.len() implies #[trigger] hears_no_cj(
            reading,
            less,
            i,
        ) by {
            assert(hears_no_cj(reading, bits, i));
            assert(less.take(i) =~= bits.take(i));
        }
        lemma_recent(reading, less);
        assert(hears_no_cj(reading, bits, n - 1));
        assert(bits.take(n - 1) =~= less);
        assert((reading.recent + less).skip(n - 1).skip(1).push(bits.last()) =~= (reading.recent
            + bits).skip(n));
    }
}

spec fn hears_no_cj(reading: Reading, bits: Seq<bool>, i: int) -> bool {
    !reading_after(reading, bits.take(i)).ends_cj(bits[i])
}

/// CJ is heard by its last bit at the latest, whatever came before it.
pub proof fn law_hears_cj(reading: Reading)
    requires
        reading.valid(),
    ensures
        hears(reading, spec_cj()).contains(Heard::Cj),
{
    let bits = spec_cj();
    if forall|i: int| 0 <= i < 29 ==> #[trigger] hears_no_cj(reading, bits, i) {
        let less = bits.take(29);
        assert forall|i: int| 0 <= i < less.len() implies #[trigger] hears_no_cj(
            reading,
            less,
            i,
        ) by {
            assert(hears_no_cj(reading, bits, i));
            assert(less.take(i) =~= bits.take(i));
        }
        lemma_recent(reading, less);
        assert(bits.drop_last() =~= less);
        assert((reading.recent + less).skip(29).skip(1).push(true) =~= bits);
        assert(reading_after(reading, less).ends_cj(true));
        let all = hears(reading, bits);
        assert(all.last() == Heard::Cj);
        assert(all[all.len() - 1] == Heard::Cj);
    } else {
        let i = choose|i: int| 0 <= i < 29 && !#[trigger] hears_no_cj(reading, bits, i);
        let first = bits.take(i + 1);
        assert(first.drop_last() =~= bits.take(i));
        let early = hears(reading, first);
        assert(early[early.len() - 1] == Heard::Cj);
        lemma_concatenated(reading, first, bits.skip(i + 1));
        assert(first + bits.skip(i + 1) =~= bits);
        let all = hears(reading, bits);
        assert(all[early.len() - 1] == Heard::Cj);
    }
}

/// Before a one that ends CJ come nine zeros.
proof fn lemma_no_cj(reading: Reading, bit: bool, at: int)
    requires
        reading.valid(),
        !bit || (21 <= at < 30 && reading.recent[at]),
    ensures
        !reading.ends_cj(bit),
{
    let next = reading.recent.skip(1).push(bit);
    if bit {
        assert(next[at - 1] && !spec_cj()[at - 1]);
    } else {
        assert(!next[29] && spec_cj()[29]);
    }
}

proof fn lemma_preamble(reading: Reading, count: nat)
    requires
        reading.valid(),
        reading.place is Hunt,
        reading.recent[29],
    ensures
        ({
            let after = reading_after(reading, ones(count));
            &&& hears(reading, ones(count)) == Seq::<Heard>::empty()
            &&& after.valid()
            &&& after.recent[29]
            &&& after.place == Place::Hunt {
                ones: if reading.place->ones + count < 10 {
                    reading.place->ones + count
                } else {
                    10
                },
            }
        }),
    decreases count,
{
    if count > 0 {
        let less = (count - 1) as nat;
        lemma_preamble(reading, less);
        assert(ones(count).drop_last() =~= ones(less));
        lemma_no_cj(reading_after(reading, ones(less)), true, 29);
    }
}

proof fn lemma_sync(reading: Reading, count: int)
    requires
        reading.valid(),
        reading.place == (Place::Hunt { ones: 10 }),
        reading.recent[29],
        0 <= count <= 10,
    ensures
        ({
            let after = reading_after(reading, SYNC@.take(count));
            &&& hears(reading, SYNC@.take(count)) == Seq::<Heard>::empty()
            &&& after.valid()
            &&& after.recent == (reading.recent + SYNC@.take(count)).skip(count)
            &&& 0 < count < 10 ==> after.place == Place::Sync { at: count as nat }
            &&& count == 10 ==> after.place is Octets && after.octets == Seq::<u8>::empty()
        }),
    decreases count,
{
    let bits = SYNC@.take(count);
    if count > 0 {
        let less = SYNC@.take(count - 1);
        lemma_sync(reading, count - 1);
        assert(bits.drop_last() =~= less);
        let before = reading_after(reading, less);
        let at = if count > 7 {
            29
        } else {
            30 - count
        };
        assert(before.recent[at] == (reading.recent + less)[at + count - 1]);
        lemma_no_cj(before, bits.last(), at);
        assert(before.recent.skip(1).push(bits.last()) =~= (reading.recent + bits).skip(count));
    } else {
        assert(bits =~= Seq::<bool>::empty());
        assert((reading.recent + bits).skip(0) =~= reading.recent);
    }
}

proof fn lemma_octet_has_a_one(octet: u8)
    requires
        octet != 0,
    ensures
        exists|k: int| 0 <= k < 8 && #[trigger] field_bits(octet as nat, 8)[k],
{
    let bits = field_bits(octet as nat, 8);
    law_reads_back_a_field(octet as nat, 8);
    law_reads_back_a_field(0, 8);
    vstd::arithmetic::power2::lemma2_to64();
    if forall|k: int| 0 <= k < 8 ==> !#[trigger] bits[k] {
        lemma_character_of_zero();
        assert forall|k: int| 0 <= k < 8 implies !#[trigger] field_bits(0, 8)[k] by {
            assert(character(0)[k + 1] == field_bits(0, 8)[k]);
        }
        assert(bits =~= field_bits(0, 8));
    }
}

proof fn lemma_octet_bits(reading: Reading, octet: u8, count: int)
    requires
        reading.valid(),
        reading.place is Octets,
        reading.recent[29],
        1 <= count <= 9,
    ensures
        ({
            let bits = character(octet).take(count);
            let after = reading_after(reading, bits);
            &&& hears(reading, bits) == Seq::<Heard>::empty()
            &&& after.valid()
            &&& after.octets == reading.octets
            &&& after.recent == (reading.recent + bits).skip(count)
            &&& count <= 8 ==> after.place == Place::Octet(
                field_bits(octet as nat, 8).take(count - 1),
            )
            &&& count == 9 ==> after.place == Place::Stop(octet)
        }),
    decreases count,
{
    let whole = character(octet);
    lemma_field_bits_len(octet as nat, 8);
    let bits = whole.take(count);
    let less = whole.take(count - 1);
    assert(bits.drop_last() =~= less);
    if count == 1 {
        assert(less =~= Seq::<bool>::empty());
        lemma_no_cj(reading, false, 29);
        assert(!bits.last());
        assert(reading_after(reading, less) == reading);
        assert(hears(reading, less) == Seq::<Heard>::empty());
        assert(reading.heard(false) is None);
        assert(reading.recent.skip(1).push(false) =~= (reading.recent + bits).skip(1));
        assert(field_bits(octet as nat, 8).take(0) =~= Seq::<bool>::empty());
    } else {
        lemma_octet_bits(reading, octet, count - 1);
        let before = reading_after(reading, less);
        assert(before.recent[30 - count] == (reading.recent + less)[29]);
        lemma_no_cj(before, bits.last(), 30 - count);
        assert(before.recent.skip(1).push(bits.last()) =~= (reading.recent + bits).skip(count));
        assert(field_bits(octet as nat, 8).take(count - 2).push(bits.last()) =~= field_bits(
            octet as nat,
            8,
        ).take(count - 1));
        if count == 9 {
            law_reads_back_a_field(octet as nat, 8);
            vstd::arithmetic::power2::lemma2_to64();
            assert(field_bits(octet as nat, 8).take(8) =~= field_bits(octet as nat, 8));
        }
    }
}

proof fn lemma_octet(reading: Reading, octet: u8)
    requires
        reading.valid(),
        reading.place is Octets,
        reading.recent[29],
        octet != 0,
    ensures
        ({
            let after = reading_after(reading, character(octet));
            &&& hears(reading, character(octet)) == Seq::<Heard>::empty()
            &&& after.valid()
            &&& after.place is Octets
            &&& after.octets == reading.octets.push(octet)
            &&& after.recent[29]
        }),
{
    let whole = character(octet);
    lemma_field_bits_len(octet as nat, 8);
    lemma_octet_bits(reading, octet, 9);
    lemma_octet_has_a_one(octet);
    let k = choose|k: int| 0 <= k < 8 && #[trigger] field_bits(octet as nat, 8)[k];
    let less = whole.take(9);
    assert(whole.drop_last() =~= less);
    let before = reading_after(reading, less);
    assert(before.recent[22 + k] == (reading.recent + less)[31 + k]);
    assert(less[k + 1] == field_bits(octet as nat, 8)[k]);
    lemma_no_cj(before, true, 22 + k);
}

proof fn lemma_octets(reading: Reading, octets: Seq<u8>)
    requires
        reading.valid(),
        reading.place is Octets,
        reading.recent[29],
        forall|i: int| 0 <= i < octets.len() ==> #[trigger] octets[i] != 0,
    ensures
        ({
            let after = reading_after(reading, characters(octets));
            &&& hears(reading, characters(octets)) == Seq::<Heard>::empty()
            &&& after.valid()
            &&& after.place is Octets
            &&& after.octets == reading.octets + octets
            &&& after.recent[29]
        }),
    decreases octets.len(),
{
    if octets.len() == 0 {
        assert(reading.octets + octets =~= reading.octets);
    } else {
        let less = octets.drop_last();
        lemma_octets(reading, less);
        let before = reading_after(reading, characters(less));
        lemma_octet(before, octets.last());
        lemma_concatenated(reading, characters(less), character(octets.last()));
        assert(reading.octets + octets =~= (reading.octets + less).push(octets.last()));
        assert(Seq::<Heard>::empty() + Seq::<Heard>::empty() =~= Seq::<Heard>::empty());
    }
}

/// A whole menu, after its preamble.
proof fn lemma_menu(reading: Reading, menu: Menu)
    requires
        reading.valid(),
        reading.place == (Place::Hunt { ones: 10 }),
        reading.recent[29],
    ensures
        ({
            let bits = SYNC@ + characters(menu.spec_octets());
            let after = reading_after(reading, bits);
            &&& hears(reading, bits) == Seq::<Heard>::empty()
            &&& after.valid()
            &&& after.place is Octets
            &&& after.octets == menu.spec_octets()
            &&& after.recent[29]
        }),
{
    lemma_sync(reading, 10);
    assert(SYNC@.take(10) =~= SYNC@);
    let synced = reading_after(reading, SYNC@);
    assert(synced.recent[29] == (reading.recent + SYNC@)[39]);
    lemma_octets(synced, menu.spec_octets());
    lemma_concatenated(reading, SYNC@, characters(menu.spec_octets()));
    assert(Seq::<u8>::empty() + menu.spec_octets() =~= menu.spec_octets());
    assert(Seq::<Heard>::empty() + Seq::<Heard>::empty() =~= Seq::<Heard>::empty());
}

proof fn lemma_repeats(reading: Reading, menu: Menu, times: nat)
    requires
        reading.valid(),
        reading.place is Hunt,
        reading.recent[29],
        times >= 1,
    ensures
        ({
            let bits = repeated(menu.spec_sequence(), times);
            let after = reading_after(reading, bits);
            &&& hears(reading, bits) == Seq::new((times - 1) as nat, |i: int| Heard::Menu(menu))
            &&& after.valid()
            &&& after.place is Octets
            &&& after.octets == menu.spec_octets()
            &&& after.recent[29]
        }),
    decreases times,
{
    let one = menu.spec_sequence();
    let body = SYNC@ + characters(menu.spec_octets());
    assert(one =~= ones(10) + body);
    if times == 1 {
        assert(repeated(one, 1) =~= one) by {
            reveal_with_fuel(repeated, 2);
        }
        lemma_preamble(reading, 10);
        lemma_menu(reading_after(reading, ones(10)), menu);
        lemma_concatenated(reading, ones(10), body);
        assert(hears(reading, one) =~= Seq::new(0, |i: int| Heard::Menu(menu)));
    } else {
        let less = (times - 1) as nat;
        lemma_repeats(reading, menu, less);
        let before = reading_after(reading, repeated(one, less));
        law_parses_the_octets_of_a_menu(menu);
        lemma_no_cj(before, true, 29);
        let first = seq![true];
        assert(first.drop_last() =~= Seq::<bool>::empty());
        reveal_with_fuel(reading_after, 2);
        reveal_with_fuel(hears, 2);
        let hunting = reading_after(before, first);
        assert(hunting == before.after(true));
        assert(hears(before, first) =~= seq![Heard::Menu(menu)]);
        lemma_preamble(hunting, 9);
        lemma_concatenated(before, first, ones(9));
        assert(first + ones(9) =~= ones(10));
        let ready = reading_after(before, ones(10));
        lemma_menu(ready, menu);
        lemma_concatenated(before, ones(10), body);
        lemma_concatenated(reading, repeated(one, less), one);
        assert(hears(before, one) =~= seq![Heard::Menu(menu)]);
        assert(hears(reading, repeated(one, times)) =~= Seq::new(
            (times - 1) as nat,
            |i: int| Heard::Menu(menu),
        ));
    }
}

/// What bit `i` of `bits` completes.
pub open spec fn heard_at(reading: Reading, bits: Seq<bool>, i: int) -> Option<Heard> {
    reading_after(reading, bits.take(i)).heard(bits[i])
}

/// Bits that say nothing complete nothing.
proof fn lemma_nothing_heard(reading: Reading, bits: Seq<bool>)
    requires
        hears(reading, bits) == Seq::<Heard>::empty(),
    ensures
        forall|i: int| 0 <= i < bits.len() ==> #[trigger] heard_at(reading, bits, i) is None,
    decreases bits.len(),
{
    if bits.len() > 0 {
        let less = bits.drop_last();
        assert(hears(reading, bits).len() >= hears(reading, less).len());
        assert(hears(reading, less) =~= Seq::<Heard>::empty());
        lemma_nothing_heard(reading, less);
        assert forall|i: int| 0 <= i < bits.len() implies #[trigger] heard_at(
            reading,
            bits,
            i,
        ) is None by {
            if i < less.len() {
                assert(less.take(i) =~= bits.take(i));
                assert(heard_at(reading, less, i) is None);
            } else {
                assert(bits.take(i) =~= less);
                let last = reading_after(reading, less).heard(bits.last());
                if last is Some {
                    assert(hears(reading, bits).len() == 1);
                }
            }
        }
    }
}

proof fn lemma_heard_at(reading: Reading, first: Seq<bool>, second: Seq<bool>, i: int)
    requires
        0 <= i < first.len() + second.len(),
    ensures
        heard_at(reading, first + second, i) == if i < first.len() {
            heard_at(reading, first, i)
        } else {
            heard_at(reading_after(reading, first), second, i - first.len())
        },
{
    let both = first + second;
    if i < first.len() {
        assert(both.take(i) =~= first.take(i));
    } else {
        let j = i - first.len();
        assert(both.take(i) =~= first + second.take(j));
        lemma_concatenated(reading, first, second.take(j));
    }
}

/// After a menu, the first of more ones completes it, and nothing else does.
proof fn lemma_first_bit_hears(before: Reading, menu: Menu, bits: Seq<bool>)
    requires
        before.valid(),
        before.place is Octets,
        before.octets == menu.spec_octets(),
        before.recent[29],
        bits.len() >= 1,
        bits[0],
        hears(before, bits).len() == 1,
    ensures
        forall|i: int|
            0 <= i < bits.len() ==> #[trigger] heard_at(before, bits, i) == if i == 0 {
                Some(Heard::Menu(menu))
            } else {
                None
            },
{
    let (first, rest) = (bits.take(1), bits.skip(1));
    assert(first =~= seq![true]);
    assert(first.drop_last() =~= Seq::<bool>::empty());
    assert(first + rest =~= bits);
    law_parses_the_octets_of_a_menu(menu);
    lemma_no_cj(before, true, 29);
    assert(hears(before, first) =~= seq![Heard::Menu(menu)]) by {
        reveal_with_fuel(hears, 2);
        reveal_with_fuel(reading_after, 2);
    }
    lemma_concatenated(before, first, rest);
    assert(hears(reading_after(before, first), rest) =~= Seq::<Heard>::empty());
    lemma_nothing_heard(reading_after(before, first), rest);
    assert forall|i: int| 0 <= i < bits.len() implies #[trigger] heard_at(before, bits, i) == if i
        == 0 {
        Some(Heard::Menu(menu))
    } else {
        None
    } by {
        lemma_heard_at(before, first, rest, i);
        if i == 0 {
            assert(bits.take(0) =~= Seq::<bool>::empty());
        } else {
            assert(heard_at(reading_after(before, first), rest, i - 1) is None);
        }
    }
}

/// A menu is heard on the first bit of the one after it.
proof fn lemma_repeats_heard_at(reading: Reading, menu: Menu, times: nat)
    requires
        reading.valid(),
        reading.place is Hunt,
        reading.recent[29],
        times >= 1,
    ensures
        ({
            let one = menu.spec_sequence();
            let bits = repeated(one, times);
            forall|i: int|
                0 <= i < bits.len() ==> #[trigger] heard_at(reading, bits, i) == if i > 0 && i
                    % one.len() as int == 0 {
                    Some(Heard::Menu(menu))
                } else {
                    None
                }
        }),
    decreases times,
{
    let one = menu.spec_sequence();
    let length = one.len() as int;
    let bits = repeated(one, times);
    let less = (times - 1) as nat;
    let before = repeated(one, less);
    lemma_repeats(reading, menu, times);
    lemma_repeated_len(one, times);
    lemma_repeated_len(one, less);
    assert(length >= 20);
    if times == 1 {
        assert(before =~= Seq::<bool>::empty());
        assert(bits =~= one);
        assert(hears(reading, bits) =~= Seq::<Heard>::empty());
        lemma_nothing_heard(reading, bits);
        assert forall|i: int| 0 <= i < bits.len() implies #[trigger] heard_at(reading, bits, i)
            == if i > 0 && i % length == 0 {
            Some(Heard::Menu(menu))
        } else {
            None
        } by {
            vstd::arithmetic::div_mod::lemma_small_mod(i as nat, length as nat);
        }
    } else {
        lemma_repeats(reading, menu, less);
        lemma_repeats_heard_at(reading, menu, less);
        let ready = reading_after(reading, before);
        lemma_concatenated(reading, before, one);
        assert(hears(ready, one).len() == 1);
        assert(one[0]);
        lemma_first_bit_hears(ready, menu, one);
        assert forall|i: int| 0 <= i < bits.len() implies #[trigger] heard_at(reading, bits, i)
            == if i > 0 && i % length == 0 {
            Some(Heard::Menu(menu))
        } else {
            None
        } by {
            lemma_heard_at(reading, before, one, i);
            if i < before.len() {
                assert(heard_at(reading, before, i) == if i > 0 && i % length == 0 {
                    Some(Heard::Menu(menu))
                } else {
                    None
                });
            } else {
                let j = i - before.len();
                assert(heard_at(ready, one, j) == if j == 0 {
                    Some(Heard::Menu(menu))
                } else {
                    None
                });
                assert(i == length * less + j) by (nonlinear_arith)
                    requires
                        before.len() == less * length,
                        j == i - before.len(),
                ;
                vstd::arithmetic::div_mod::lemma_mod_multiples_vanish(less as int, j, length);
                vstd::arithmetic::div_mod::lemma_small_mod(j as nat, length as nat);
                assert(before.len() > 0) by (nonlinear_arith)
                    requires
                        before.len() == less * length,
                        less >= 1,
                        length >= 20,
                ;
            }
        }
    }
}

/// Menus that repeat are heard once each, whatever they offer, when mark came
/// before them and comes after them: each on the first bit after its last
/// stop bit, and on no other bit.
pub proof fn law_reads_back_repeated_menus(reading: Reading, menu: Menu, times: nat)
    requires
        reading.valid(),
        reading.place is Hunt,
        reading.recent[29],
        times >= 1,
    ensures
        ({
            let one = menu.spec_sequence();
            let bits = repeated(one, times) + ones(10);
            &&& bits.len() == times * one.len() + 10
            &&& hears(reading, bits) == Seq::new(times, |i: int| Heard::Menu(menu))
            &&& forall|i: int|
                0 <= i < bits.len() ==> #[trigger] heard_at(reading, bits, i) == if i > 0 && i
                    % one.len() as int == 0 {
                    Some(Heard::Menu(menu))
                } else {
                    None
                }
        }),
{
    let one = menu.spec_sequence();
    let length = one.len() as int;
    let menus = repeated(one, times);
    let bits = menus + ones(10);
    lemma_repeats(reading, menu, times);
    lemma_repeats_heard_at(reading, menu, times);
    lemma_repeated_len(one, times);
    let before = reading_after(reading, menus);
    let first = seq![true];
    law_parses_the_octets_of_a_menu(menu);
    lemma_no_cj(before, true, 29);
    assert(first.drop_last() =~= Seq::<bool>::empty());
    assert(hears(before, first) =~= seq![Heard::Menu(menu)]) by {
        reveal_with_fuel(hears, 2);
        reveal_with_fuel(reading_after, 2);
    }
    let hunting = reading_after(before, first);
    assert(hunting == before.after(true)) by {
        reveal_with_fuel(reading_after, 2);
    }
    lemma_preamble(hunting, 9);
    lemma_concatenated(before, first, ones(9));
    assert(first + ones(9) =~= ones(10));
    assert(hears(before, ones(10)) =~= seq![Heard::Menu(menu)]);
    lemma_concatenated(reading, menus, ones(10));
    assert(hears(reading, bits) =~= Seq::new(times, |i: int| Heard::Menu(menu)));
    lemma_first_bit_hears(before, menu, ones(10));
    assert(length >= 20);
    assert forall|i: int| 0 <= i < bits.len() implies #[trigger] heard_at(reading, bits, i) == if i
        > 0 && i % length == 0 {
        Some(Heard::Menu(menu))
    } else {
        None
    } by {
        lemma_heard_at(reading, menus, ones(10), i);
        if i < menus.len() {
            assert(heard_at(reading, menus, i) == if i > 0 && i % length == 0 {
                Some(Heard::Menu(menu))
            } else {
                None
            });
        } else {
            let j = i - menus.len();
            assert(heard_at(before, ones(10), j) == if j == 0 {
                Some(Heard::Menu(menu))
            } else {
                None
            });
            assert(i == length * times + j) by (nonlinear_arith)
                requires
                    menus.len() == times * length,
                    j == i - menus.len(),
            ;
            vstd::arithmetic::div_mod::lemma_mod_multiples_vanish(times as int, j, length);
            vstd::arithmetic::div_mod::lemma_small_mod(j as nat, length as nat);
            assert(menus.len() > 0) by (nonlinear_arith)
                requires
                    menus.len() == times * length,
                    times >= 1,
                    length >= 20,
            ;
        }
    }
}

/// Idle mark says nothing, on any of its bits.
pub proof fn law_ignores_idle_mark(count: nat)
    ensures
        hears(Reading::fresh(), ones(count)) == Seq::<Heard>::empty(),
        forall|i: int|
            0 <= i < count ==> #[trigger] heard_at(Reading::fresh(), ones(count), i) is None,
{
    lemma_preamble(Reading::fresh(), count);
    lemma_nothing_heard(Reading::fresh(), ones(count));
}

/// Tables 2 to 7, bit by bit: the call function octet, then the modulations,
/// V.90 and V.34 in b5 and b6 of the first, V.22bis in b1 of the second and
/// V.21 in b7 of the third, and with V.90 the access and the sides of it.
pub proof fn law_tables_2_to_7(menu: Menu)
    ensures
        ({
            let octets = menu.spec_octets();
            let pcm = menu.modes.v90.analogue || menu.modes.v90.digital;
            &&& menu.data ==> octets[0] == 0xC1
            &&& !menu.data ==> octets[0] == 0x01
            &&& octets[1] % 32 == 5
            &&& octets[1] / 32 == (if pcm {
                1int
            } else {
                0
            }) + (if menu.modes.v34 {
                2int
            } else {
                0
            })
            &&& octets[2] == 0x10 + if menu.modes.v22bis {
                2int
            } else {
                0
            }
            &&& octets[3] == 0x10 + if menu.modes.v21 {
                128int
            } else {
                0
            }
            &&& !pcm ==> octets.len() == 4
            &&& pcm ==> octets.len() == 6 && octets[4] == 0x8D && octets[5] % 32 == 7 && octets[5] / 32 == (
            if menu.modes.v90.analogue {
                1int
            } else {
                0
            }) + (if menu.modes.v90.digital {
                2int
            } else {
                0
            })
            &&& menu.spec_sequence().take(20) == Seq::new(20, |i: int| i < 10 || i >= 16)
            &&& menu.spec_sequence().skip(20) == characters(octets)
        }),
{
    let sequence = menu.spec_sequence();
    assert(sequence.take(20) =~= Seq::new(20, |i: int| i < 10 || i >= 16));
    assert(sequence.skip(20) =~= characters(menu.spec_octets()));
}

/// What two ends have in common is what both offer, and of V.90 the analogue
/// side at one and the digital side at the other.
pub proof fn law_common_modes_are_offered_by_both(ours: Modes, theirs: Modes)
    ensures
        ours.spec_common(theirs).v34 <==> ours.v34 && theirs.v34,
        ours.spec_common(theirs).v22bis <==> ours.v22bis && theirs.v22bis,
        ours.spec_common(theirs).v21 <==> ours.v21 && theirs.v21,
        ours.spec_common(theirs).v90.analogue <==> ours.v90.analogue && theirs.v90.digital,
        ours.spec_common(theirs).v90.digital <==> ours.v90.digital && theirs.v90.analogue,
        ours.v90.spec_any() <==> ours.v90.analogue || ours.v90.digital,
        !Modes::spec_none().v34 && !Modes::spec_none().v22bis && !Modes::spec_none().v21
            && !Modes::spec_none().v90.spec_any(),
{
}

/// How an octet of a menu is read: those that extend the modulations tell of
/// V.22bis by b1 of the first and of V.21 by b7 of the second; the octet of
/// the modulations tells of V.34 by b6, and that of PCM of the sides of V.90.
pub proof fn law_how_an_octet_is_read(scan: Scan, octet: u8)
    ensures
        ({
            let next = scan.after(octet);
            let extends = octet as int / 8 % 8 == 2;
            &&& extends && scan.in_modulation && scan.extensions == 0 ==> next.modes == (Modes {
                v22bis: octet as int / 2 % 2 == 1,
                ..scan.modes
            }) && next.extensions == 1 && next.in_modulation
            &&& extends && scan.in_modulation && scan.extensions == 1 ==> next.modes == (Modes {
                v21: octet >= 128,
                ..scan.modes
            }) && next.extensions == 2 && next.in_modulation
            &&& extends && scan.in_modulation && scan.extensions > 1 ==> next.modes == scan.modes
            &&& extends && !scan.in_modulation ==> next == scan
            &&& !extends && octet as int / 16 % 2 == 1 ==> next == scan
            &&& !extends && octet as int / 16 % 2 == 0 && octet % 16 == 5 ==> next.in_modulation && next.extensions
                == 0 && next.modes == (Modes { v34: octet as int / 64 % 2 == 1, ..scan.modes })
            &&& !extends && octet % 32 == 7 ==> !next.in_modulation && next.modes == (Modes {
                v90: Pcm { analogue: octet as int / 32 % 2 == 1, digital: octet as int / 64 % 2 == 1 },
                ..scan.modes
            })
            &&& !extends && octet as int / 16 % 2 == 0 && octet % 16 != 5 && octet % 16 != 7 ==> !next.in_modulation
                && next.modes == scan.modes
        }),
{
}

/// A menu is read from a call function octet on, which is 1 in its low four
/// bits with b4 0, and C1 for data.
pub proof fn law_a_menu_begins_with_a_call_function(octets: Seq<u8>)
    ensures
        octets.len() == 0 ==> Menu::spec_parse(octets) is None,
        octets.len() > 0 && octets[0] % 32 != 1 ==> Menu::spec_parse(octets) is None,
        octets.len() > 0 && octets[0] % 32 == 1 ==> Menu::spec_parse(octets) is Some && Menu::spec_parse(octets)->0.data
            == (octets[0] == 0xC1) && Menu::spec_parse(octets)->0.modes == scanned(octets.skip(1)).modes,
        scanned(Seq::empty()).modes == Modes::spec_none() && !scanned(Seq::empty()).in_modulation,
{
}

/// How a reader goes on: ten ones, then 0000001111, then octets between start
/// and stop bits, and a 1 in place of a start bit ends the menu. CJ is three
/// octets of zeros.
pub proof fn law_a_reader_goes_by_its_place(reading: Reading, bit: bool, ones_in_a_row: nat, at: nat, bits: Seq<bool>, octet: u8)
    requires
        reading.valid(),
    ensures
        ({
            let next = reading.place_after(bit);
            &&& reading.place == (Place::Hunt { ones: ones_in_a_row }) && bit && ones_in_a_row < 10 ==> next
                == (Place::Hunt { ones: ones_in_a_row + 1 })
            &&& reading.place == (Place::Hunt { ones: 10 }) && bit ==> next == (Place::Hunt { ones: 10 })
            &&& reading.place == (Place::Hunt { ones: ones_in_a_row }) && !bit && ones_in_a_row < 10 ==> next
                == (Place::Hunt { ones: 0 })
            &&& reading.place == (Place::Hunt { ones: 10 }) && !bit ==> next == (Place::Sync { at: 1 })
            &&& reading.place == (Place::Sync { at }) && at < 9 && bit == (at >= 6) ==> next == (Place::Sync {
                at: at + 1,
            })
            &&& reading.place == (Place::Sync { at: 9 }) && bit ==> next == Place::Octets && reading.octets_after(
                bit,
            ).len() == 0
            &&& reading.place == (Place::Sync { at }) && bit && at < 6 ==> next == (Place::Hunt { ones: 1 })
            &&& reading.place == (Place::Sync { at }) && !bit && at >= 6 ==> next == (Place::Hunt { ones: 0 })
            &&& reading.place == Place::Octets && !bit ==> next == Place::Octet(Seq::empty()) && reading.octets_after(
                bit,
            ) == reading.octets
            &&& reading.place == Place::Octets && bit ==> next == (Place::Hunt { ones: 1 }) && reading.octets_after(
                bit,
            ).len() == 0
            &&& reading.place == Place::Octet(bits) && bits.len() < 7 ==> next == Place::Octet(bits.push(bit))
            &&& reading.place == Place::Octet(bits) && bits.len() == 7 ==> next == Place::Stop(
                value_of(bits.push(bit)) as u8,
            )
            &&& reading.place == Place::Stop(octet) && bit ==> next == Place::Octets && reading.octets_after(bit)
                == reading.octets.push(octet)
            &&& reading.place == Place::Stop(octet) && !bit ==> next == (Place::Hunt { ones: 0 })
                && reading.octets_after(bit).len() == 0
            &&& reading.ends_cj(bit) ==> reading.heard(bit) == Some(Heard::Cj) && reading.after(bit)
                == Reading::fresh()
            &&& !reading.ends_cj(bit) && reading.place == Place::Octets && bit && Menu::spec_parse(reading.octets) is Some
                ==> reading.heard(bit) == Some(Heard::Menu(Menu::spec_parse(reading.octets)->0))
            &&& !reading.ends_cj(bit) && !(reading.place == Place::Octets && bit) ==> reading.heard(bit) is None
            &&& spec_cj() == characters(seq![0u8, 0, 0])
        }),
{
    reveal_with_fuel(characters, 4);
    lemma_character_of_zero();
    let zeros = seq![0u8, 0, 0];
    assert(zeros.drop_last() =~= seq![0u8, 0]);
    assert(seq![0u8, 0].drop_last() =~= seq![0u8]);
    assert(seq![0u8].drop_last() =~= Seq::<u8>::empty());
    assert(spec_cj() =~= characters(zeros));
}

} // verus!

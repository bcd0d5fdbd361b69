//! 8N1 asynchronous framing: a start bit, eight data bits LSB first, a stop
//! bit. The idle line is mark, which is `true`.

use crate::v34::bits::{
    field_bits, law_reads_back_a_field, law_writes_back_what_it_reads, lemma_field_bits_len,
    value_of, Reader, Writer,
};
use vstd::prelude::*;

verus! {

/// A start bit, the data bits of `byte`, and a stop bit.
pub open spec fn character(byte: u8) -> Seq<bool> {
    seq![false] + field_bits(byte as nat, 8) + seq![true]
}

/// A start bit, the data bits of `byte`, and a stop bit.
pub fn frame(byte: u8) -> (bits: Vec<bool>)
    ensures
        bits@ == character(byte),
{
    let mut writer = Writer::default();
    writer.flag(false);
    writer.field(byte as u32, 8);
    writer.flag(true);
    assert(writer.bits@ =~= character(byte));
    writer.bits
}

/// What a decoder waits for.
pub enum Receiving {
    Idle,
    /// The rest of the data bits, of which these have come.
    Data(Seq<bool>),
    Stop(u8),
    /// Mark, so one bad stop bit does not misframe what follows.
    Hunt,
}

impl Receiving {
    /// Data bits are held until there are eight.
    pub open spec fn valid(self) -> bool {
        match self {
            Self::Data(bits) => bits.len() < 8,
            _ => true,
        }
    }

    pub open spec fn after(self, bit: bool) -> Self {
        match self {
            Self::Idle => if bit {
                Self::Idle
            } else {
                Self::Data(seq![])
            },
            Self::Data(bits) => if bits.len() == 7 {
                Self::Stop(value_of(bits.push(bit)) as u8)
            } else {
                Self::Data(bits.push(bit))
            },
            Self::Stop(_) | Self::Hunt => if bit {
                Self::Idle
            } else {
                Self::Hunt
            },
        }
    }

    /// The byte that `bit` completes.
    pub open spec fn out(self, bit: bool) -> Option<u8> {
        match self {
            Self::Stop(byte) if bit => Some(byte),
            _ => None,
        }
    }

    /// Whether `bit` is a bad stop bit.
    pub open spec fn misframed(self, bit: bool) -> bool {
        self is Stop && !bit
    }
}

/// What a decoder waits for after `bits`.
pub open spec fn receiving_after(state: Receiving, bits: Seq<bool>) -> Receiving
    decreases bits.len(),
{
    if bits.len() == 0 {
        state
    } else {
        receiving_after(state, bits.drop_last()).after(bits.last())
    }
}

/// The byte that bit `n` of `bits` completes.
pub open spec fn byte_at(state: Receiving, bits: Seq<bool>, n: int) -> Option<u8> {
    receiving_after(state, bits.take(n)).out(bits[n])
}

proof fn lemma_data_bits(bits: Seq<bool>, n: int)
    requires
        bits.len() >= 9,
        !bits[0],
        1 <= n <= 8,
    ensures
        receiving_after(Receiving::Idle, bits.take(n)) == Receiving::Data(bits.subrange(1, n)),
    decreases n,
{
    assert(bits.take(n).drop_last() =~= bits.take(n - 1));
    if n == 1 {
        assert(bits.take(0) =~= Seq::<bool>::empty());
        assert(bits.subrange(1, 1) =~= Seq::<bool>::empty());
    } else {
        lemma_data_bits(bits, n - 1);
        assert(bits.subrange(1, n - 1).push(bits[n - 1]) =~= bits.subrange(1, n));
    }
}

/// A character reads back as its byte, at its stop bit and not before, and
/// leaves the decoder idle.
pub proof fn law_round_trips_every_byte(byte: u8, n: int)
    requires
        0 <= n < 10,
    ensures
        byte_at(Receiving::Idle, character(byte), n) == if n == 9 {
            Some(byte)
        } else {
            None::<u8>
        },
        receiving_after(Receiving::Idle, character(byte)) is Idle,
{
    let bits = character(byte);
    lemma_field_bits_len(byte as nat, 8);
    law_reads_back_a_field(byte as nat, 8);
    vstd::arithmetic::power2::lemma2_to64();
    lemma_data_bits(bits, 8);
    assert(bits.take(9).drop_last() =~= bits.take(8));
    assert(bits.subrange(1, 8).push(bits[8]) =~= field_bits(byte as nat, 8));
    assert(receiving_after(Receiving::Idle, bits.take(9)) == Receiving::Stop(byte));
    assert(bits.drop_last() =~= bits.take(9));
    assert(bits.take(10) =~= bits);
    if 1 <= n <= 8 {
        lemma_data_bits(bits, n);
    } else if n == 0 {
        assert(bits.take(0) =~= Seq::<bool>::empty());
    }
}

/// Mark keeps an idle decoder idle.
pub proof fn law_idle_mark_yields_nothing(bits: Seq<bool>)
    requires
        forall|i: int| 0 <= i < bits.len() ==> bits[i],
    ensures
        receiving_after(Receiving::Idle, bits) is Idle,
    decreases bits.len(),
{
    if bits.len() > 0 {
        law_idle_mark_yields_nothing(bits.drop_last());
    }
}

/// After a bad stop bit the decoder takes nothing until mark comes, and is
/// then idle.
pub proof fn law_resynchronises_after_a_framing_error(byte: u8, spaces: Seq<bool>)
    requires
        forall|i: int| 0 <= i < spaces.len() ==> !spaces[i],
    ensures
        receiving_after(Receiving::Stop(byte).after(false), spaces) is Hunt,
        receiving_after(Receiving::Stop(byte).after(false), spaces.push(true)) is Idle,
    decreases spaces.len(),
{
    if spaces.len() > 0 {
        law_resynchronises_after_a_framing_error(byte, spaces.drop_last());
    }
    assert(spaces.push(true).drop_last() =~= spaces);
}

#[derive(Debug)]
enum State {
    Idle,
    Data(Vec<bool>),
    Stop(u8),
    Hunt,
}

#[derive(Debug)]
pub struct Decoder {
    state: State,
    framing_errors: u64,
}

impl Default for Decoder {
    fn default() -> (decoder: Self)
        ensures
            decoder@ is Idle,
            decoder.spec_framing_errors() == 0,
    {
        Self::new()
    }
}

impl View for Decoder {
    type V = Receiving;

    closed spec fn view(&self) -> Receiving {
        match self.state {
            State::Idle => Receiving::Idle,
            State::Data(bits) => Receiving::Data(bits@),
            State::Stop(byte) => Receiving::Stop(byte),
            State::Hunt => Receiving::Hunt,
        }
    }
}

impl Decoder {
    pub closed spec fn spec_framing_errors(self) -> u64 {
        self.framing_errors
    }

    #[must_use]
    pub fn new() -> (decoder: Self)
        ensures
            decoder@ is Idle,
            decoder@.valid(),
            decoder.spec_framing_errors() == 0,
    {
        Self { state: State::Idle, framing_errors: 0 }
    }

    pub fn push(&mut self, bit: bool) -> (out: Option<u8>)
        requires
            old(self)@.valid(),
        ensures
            final(self)@.valid(),
            final(self)@ == old(self)@.after(bit),
            out == old(self)@.out(bit),
            final(self).spec_framing_errors() == if old(self)@.misframed(bit) && old(
                self,
            ).spec_framing_errors() < u64::MAX {
                (old(self).spec_framing_errors() + 1) as u64
            } else {
                old(self).spec_framing_errors()
            },
    {
        let mut state = State::Hunt;
        core::mem::swap(&mut state, &mut self.state);
        match state {
            State::Idle => {
                self.state = if bit {
                    State::Idle
                } else {
                    State::Data(Vec::new())
                };
                None
            },
            State::Hunt => {
                self.state = if bit {
                    State::Idle
                } else {
                    State::Hunt
                };
                None
            },
            State::Data(mut bits) => {
                bits.push(bit);
                if bits.len() == 8 {
                    proof {
                        vstd::arithmetic::power2::lemma2_to64();
                        reveal(crate::v34::bits::number_at);
                        law_writes_back_what_it_reads(bits@);
                        assert(bits@.subrange(0, 8) =~= bits@);
                    }
                    let byte = Reader::new(bits.as_slice()).field(8) as u8;
                    self.state = State::Stop(byte);
                } else {
                    self.state = State::Data(bits);
                }
                None
            },
            State::Stop(byte) => {
                if bit {
                    self.state = State::Idle;
                    Some(byte)
                } else {
                    if self.framing_errors < u64::MAX {
                        self.framing_errors += 1;
                    }
                    self.state = State::Hunt;
                    None
                }
            },
        }
    }

    /// Drops a partly received character, for when carrier is lost.
    pub fn reset(&mut self)
        ensures
            final(self)@ is Idle,
            final(self).spec_framing_errors() == old(self).spec_framing_errors(),
    {
        self.state = State::Idle;
    }

    /// How many stop bits were bad.
    #[must_use]
    pub fn framing_errors(&self) -> (errors: u64)
        ensures
            errors == self.spec_framing_errors(),
    {
        self.framing_errors
    }
}

/// A character is ten bits: a start bit 0, the eight digits of the byte, the
/// lowest first, and a stop bit 1.
pub proof fn law_a_character_is_ten_bits(byte: u8, i: nat)
    requires
        i < 8,
    ensures
        character(byte).len() == 10,
        !character(byte)[0],
        character(byte)[1 + i as int] == (byte as nat / vstd::arithmetic::power2::pow2(i) % 2 == 1),
        character(byte)[9],
{
    crate::v34::bits::law_a_field_shows_its_digits(byte as nat, 8, i);
}

/// How a decoder goes on: a 0 starts a character, whose eighth data bit leads
/// to the stop bit. A stop bit of 1 gives the byte, and one of 0 is an error
/// that only a 1 ends.
pub proof fn law_a_decoder_goes_by_start_and_stop(bits: Seq<bool>, byte: u8, bit: bool)
    ensures
        Receiving::Idle.after(true) == Receiving::Idle,
        Receiving::Idle.after(false) == Receiving::Data(Seq::empty()),
        bits.len() < 7 ==> Receiving::Data(bits).after(bit) == Receiving::Data(bits.push(bit)),
        bits.len() == 7 ==> Receiving::Data(bits).after(bit) == Receiving::Stop(value_of(bits.push(bit)) as u8),
        Receiving::Stop(byte).after(true) == Receiving::Idle && Receiving::Stop(byte).after(false) == Receiving::Hunt,
        Receiving::Hunt.after(true) == Receiving::Idle && Receiving::Hunt.after(false) == Receiving::Hunt,
        Receiving::Stop(byte).out(true) == Some(byte) && Receiving::Stop(byte).out(false) is None,
        Receiving::Stop(byte).misframed(false) && !Receiving::Stop(byte).misframed(true),
        Receiving::Idle.out(bit) is None && Receiving::Hunt.out(bit) is None && Receiving::Data(bits).out(bit) is None,
        !Receiving::Idle.misframed(bit) && !Receiving::Hunt.misframed(bit) && !Receiving::Data(bits).misframed(bit),
{
}

} // verus!

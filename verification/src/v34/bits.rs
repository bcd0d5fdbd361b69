//! Fields that go least significant bit first, and the CRC of § 10.1.2.3.2.

use vstd::arithmetic::power2::{lemma_pow2_unfold, pow2};
use vstd::prelude::*;

verus! {

/// x¹⁶ + x¹² + x⁵ + 1, shifted towards bit 0 as figure 14 draws it.
const CRC_POLYNOMIAL: u16 = 0x8408;

/// What the register starts from.
pub const CRC_PRESET: u16 = 0xFFFF;

/// The register of figure 14 after one more bit.
pub open spec fn crc_step(register: u16, bit: bool) -> u16 {
    if (register % 2 == 1) != bit {
        (register >> 1) ^ 0x8408
    } else {
        register >> 1
    }
}

/// The register after `bits`, from `register`.
pub open spec fn crc_from(register: u16, bits: Seq<bool>) -> u16
    decreases bits.len(),
{
    if bits.len() == 0 {
        register
    } else {
        crc_step(crc_from(register, bits.drop_last()), bits.last())
    }
}

pub open spec fn crc_of(bits: Seq<bool>) -> u16 {
    crc_from(CRC_PRESET, bits)
}

/// The `width` low bits of `value`, least significant first.
#[verifier::opaque]
pub open spec fn field_bits(value: nat, width: nat) -> Seq<bool>
    decreases width,
{
    if width == 0 {
        seq![]
    } else {
        seq![value % 2 == 1] + field_bits(value / 2, (width - 1) as nat)
    }
}

/// The number that `bits` write, least significant first.
#[verifier::opaque]
pub open spec fn value_of(bits: Seq<bool>) -> nat
    decreases bits.len(),
{
    if bits.len() == 0 {
        0
    } else {
        (if bits[0] { 1nat } else { 0nat }) + 2 * value_of(bits.skip(1))
    }
}

/// `bits` over and over.
pub open spec fn repeated(bits: Seq<bool>, times: nat) -> Seq<bool>
    decreases times,
{
    if times == 0 {
        seq![]
    } else {
        repeated(bits, (times - 1) as nat) + bits
    }
}

pub proof fn lemma_repeated_len(bits: Seq<bool>, times: nat)
    ensures
        repeated(bits, times).len() == times * bits.len(),
    decreases times,
{
    if times > 0 {
        lemma_repeated_len(bits, (times - 1) as nat);
        assert(times * bits.len() == (times - 1) * bits.len() + bits.len()) by (nonlinear_arith)
            requires
                times > 0,
        ;
    } else {
        assert(0 * bits.len() == 0);
    }
}

/// The bits that `text` writes, left first: a one for each `1`.
pub open spec fn pattern_bits(text: Seq<char>) -> Seq<bool> {
    Seq::new(text.len(), |i: int| text[i] == '1')
}

/// The number that `width` bits from `at` on write.
#[verifier::opaque]
pub open spec fn number_at(bits: Seq<bool>, at: int, width: int) -> nat {
    value_of(bits.subrange(at, at + width as int))
}

/// The first `count` fields of a table of values and widths, one after the
/// other.
pub open spec fn written(table: Seq<(nat, nat)>, count: nat) -> Seq<bool>
    decreases count,
{
    if count == 0 {
        seq![]
    } else {
        let (value, width) = table[count - 1];
        written(table, (count - 1) as nat) + field_bits(value, width)
    }
}

/// Where field `count` of a table begins.
pub open spec fn start(table: Seq<(nat, nat)>, count: nat) -> nat
    decreases count,
{
    if count == 0 {
        0
    } else {
        start(table, (count - 1) as nat) + table[count - 1].1
    }
}

/// A flag is a field of one bit.
#[verifier::opaque]
pub open spec fn flag_value(flag: bool) -> nat {
    if flag {
        1
    } else {
        0
    }
}

pub proof fn lemma_flag(flag: bool)
    ensures
        field_bits(flag_value(flag), 1) == seq![flag],
        value_of(seq![flag]) == flag_value(flag),
        flag_value(flag) == if flag {
            1nat
        } else {
            0nat
        },
{
    reveal(flag_value);
    reveal_with_fuel(field_bits, 2);
    reveal_with_fuel(value_of, 2);
    assert(field_bits(flag_value(flag), 1) =~= seq![flag]);
}

pub proof fn lemma_written_len(table: Seq<(nat, nat)>, count: nat)
    ensures
        written(table, count).len() == start(table, count),
    decreases count,
{
    if count > 0 {
        lemma_written_len(table, (count - 1) as nat);
        lemma_field_bits_len(table[count - 1].0, table[count - 1].1);
    }
}

/// Every field stands at its place in the table, and reads back as its
/// value, less what does not fit in its width.
pub proof fn law_fields_stand_at_their_places(table: Seq<(nat, nat)>, count: nat, field: nat)
    requires
        field < count,
    ensures
        written(table, count).len() == start(table, count),
        start(table, field) + table[field as int].1 <= start(table, count),
        written(table, count).subrange(
            start(table, field) as int,
            start(table, field) + table[field as int].1 as int,
        ) == field_bits(table[field as int].0, table[field as int].1),
        number_at(written(table, count), start(table, field) as int, table[field as int].1 as int)
            == table[field as int].0 % pow2(table[field as int].1),
        table[field as int].0 < pow2(table[field as int].1) ==> number_at(
            written(table, count),
            start(table, field) as int,
            table[field as int].1 as int,
        ) == table[field as int].0,
    decreases count,
{
    reveal(number_at);
    let (value, width) = table[field as int];
    let at = start(table, field) as int;
    lemma_written_len(table, count);
    lemma_written_len(table, (count - 1) as nat);
    lemma_field_bits_len(table[count - 1].0, table[count - 1].1);
    law_reads_back_a_field(value, width);
    if value < pow2(width) {
        vstd::arithmetic::div_mod::lemma_small_mod(value, pow2(width));
    }
    if field == count - 1 {
        assert(written(table, count).subrange(at, at + width as int) =~= field_bits(value, width));
    } else {
        law_fields_stand_at_their_places(table, (count - 1) as nat, field);
        assert(written(table, count).subrange(at, at + width as int) =~= written(
            table,
            (count - 1) as nat,
        ).subrange(at, at + width as int));
    }
}

pub proof fn lemma_crc_from_push(register: u16, bits: Seq<bool>, bit: bool)
    ensures
        crc_from(register, bits.push(bit)) == crc_step(crc_from(register, bits), bit),
{
    assert(bits.push(bit).drop_last() =~= bits);
}

pub proof fn lemma_crc_from_add(register: u16, front: Seq<bool>, back: Seq<bool>)
    ensures
        crc_from(register, front + back) == crc_from(crc_from(register, front), back),
    decreases back.len(),
{
    if back.len() == 0 {
        assert(front + back =~= front);
    } else {
        lemma_crc_from_add(register, front, back.drop_last());
        assert((front + back).drop_last() =~= front + back.drop_last());
    }
}

proof fn lemma_halve(register: u16)
    ensures
        register >> 1 == register / 2,
{
    assert(register >> 1 == register / 2) by (bit_vector);
}

/// Shifting a register out through its own input clears it.
proof fn lemma_crc_of_own_bits(register: u16, width: nat)
    requires
        width <= 16,
        register < pow2(width),
    ensures
        crc_from(register, field_bits(register as nat, width)) == 0,
    decreases width,
{
    reveal(field_bits);
    if width == 0 {
        assert(pow2(0) == 1) by {
            vstd::arithmetic::power2::lemma2_to64();
        }
    } else {
        lemma_halve(register);
        lemma_pow2_unfold(width);
        let rest = field_bits((register / 2) as nat, (width - 1) as nat);
        let first = seq![register % 2 == 1];
        lemma_crc_from_add(register, first, rest);
        assert(crc_from(register, first) == register / 2) by {
            assert(first.drop_last() =~= Seq::<bool>::empty());
            assert(crc_from(register, first.drop_last()) == register);
        }
        lemma_crc_of_own_bits((register / 2) as u16, (width - 1) as nat);
    }
}

/// A sequence followed by its CRC has a CRC of zero.
pub proof fn law_crc_of_a_frame_and_its_crc_is_zero(data: Seq<bool>)
    ensures
        crc_of(data + field_bits(crc_of(data) as nat, 16)) == 0,
{
    vstd::arithmetic::power2::lemma2_to64();
    let register = crc_of(data);
    lemma_crc_of_own_bits(register, 16);
    lemma_crc_from_add(CRC_PRESET, data, field_bits(register as nat, 16));
}

proof fn lemma_crc_step_injective(a: u16, b: u16, bit: bool)
    requires
        crc_step(a, bit) == crc_step(b, bit),
    ensures
        a == b,
{
    let x = (a % 2 == 1) != bit;
    let y = (b % 2 == 1) != bit;
    assert((if x { (a >> 1) ^ 0x8408 } else { a >> 1 }) == (if y { (b >> 1) ^ 0x8408 } else { b >> 1 }) && x == ((a % 2 == 1) != bit)
        && y == ((b % 2 == 1) != bit) ==> a == b) by (bit_vector);
}

proof fn lemma_crc_step_tells_bits_apart(register: u16)
    ensures
        crc_step(register, true) != crc_step(register, false),
{
    let half = register >> 1;
    assert(half ^ 0x8408 != half) by (bit_vector);
}

proof fn lemma_crc_from_injective(a: u16, b: u16, bits: Seq<bool>)
    requires
        crc_from(a, bits) == crc_from(b, bits),
    ensures
        a == b,
    decreases bits.len(),
{
    if bits.len() > 0 {
        lemma_crc_step_injective(
            crc_from(a, bits.drop_last()),
            crc_from(b, bits.drop_last()),
            bits.last(),
        );
        lemma_crc_from_injective(a, b, bits.drop_last());
    }
}

/// One flipped bit always changes the CRC.
pub proof fn law_a_flipped_bit_changes_the_crc(bits: Seq<bool>, at: int)
    requires
        0 <= at < bits.len(),
    ensures
        crc_of(bits.update(at, !bits[at])) != crc_of(bits),
{
    let front = bits.take(at);
    let back = bits.skip(at + 1);
    let flipped = bits.update(at, !bits[at]);
    let register = crc_of(front);
    assert(bits =~= front.push(bits[at]) + back);
    assert(flipped =~= front.push(!bits[at]) + back);
    lemma_crc_from_push(CRC_PRESET, front, bits[at]);
    lemma_crc_from_push(CRC_PRESET, front, !bits[at]);
    lemma_crc_from_add(CRC_PRESET, front.push(bits[at]), back);
    lemma_crc_from_add(CRC_PRESET, front.push(!bits[at]), back);
    lemma_crc_step_tells_bits_apart(register);
    if crc_of(flipped) == crc_of(bits) {
        lemma_crc_from_injective(
            crc_step(register, bits[at]),
            crc_step(register, !bits[at]),
            back,
        );
    }
}

pub broadcast proof fn lemma_field_bits_len(value: nat, width: nat)
    ensures
        #[trigger] field_bits(value, width).len() == width,
    decreases width,
{
    reveal(field_bits);
    if width > 0 {
        lemma_field_bits_len(value / 2, (width - 1) as nat);
    }
}

/// The bits of a field do not depend on what is above them.
pub proof fn lemma_field_bits_of_low(value: nat, kept: nat, width: nat)
    requires
        width <= kept,
    ensures
        field_bits(value % pow2(kept), width) == field_bits(value, width),
    decreases width,
{
    reveal(field_bits);
    vstd::arithmetic::power2::lemma_pow2_pos(kept);
    if width > 0 {
        let half = pow2((kept - 1) as nat);
        lemma_pow2_unfold(kept);
        vstd::arithmetic::power2::lemma_pow2_pos((kept - 1) as nat);
        vstd::arithmetic::div_mod::lemma_mod_breakdown(value as int, 2, half as int);
        // value % 2h == 2 · (value / 2 % h) + value % 2.
        let low = value % pow2(kept);
        assert(low == 2 * (value / 2 % half) + value % 2);
        assert(low % 2 == value % 2);
        assert(low / 2 == value / 2 % half);
        lemma_field_bits_of_low(value / 2, (kept - 1) as nat, (width - 1) as nat);
        let less = (width - 1) as nat;
        assert(field_bits(low, width) == seq![low % 2 == 1] + field_bits(low / 2, less));
        assert(field_bits(value, width) == seq![value % 2 == 1] + field_bits(value / 2, less));
    }
}

/// A wider field begins as a narrower one.
pub proof fn lemma_field_bits_prefix(value: nat, width: nat, wider: nat)
    requires
        width <= wider,
    ensures
        field_bits(value, wider).take(width as int) == field_bits(value, width),
    decreases width,
{
    reveal(field_bits);
    lemma_field_bits_len(value, wider);
    lemma_field_bits_len(value, width);
    if width > 0 {
        lemma_field_bits_prefix(value / 2, (width - 1) as nat, (wider - 1) as nat);
        let rest = field_bits(value / 2, (wider - 1) as nat);
        lemma_field_bits_len(value / 2, (wider - 1) as nat);
        assert(field_bits(value, wider).take(width as int) =~= seq![value % 2 == 1] + rest.take(
            width - 1,
        ));
    } else {
        assert(field_bits(value, wider).take(0) =~= field_bits(value, 0));
    }
}

/// A field is its low part, then its high part.
pub proof fn lemma_field_bits_split(value: nat, low: nat, width: nat)
    requires
        low <= width,
    ensures
        field_bits(value, width) == field_bits(value, low) + field_bits(
            value / pow2(low),
            (width - low) as nat,
        ),
    decreases low,
{
    reveal(field_bits);
    vstd::arithmetic::power2::lemma2_to64();
    if low == 0 {
        assert(value / 1 == value);
        assert(field_bits(value, width) =~= field_bits(value, 0) + field_bits(value, width));
    } else {
        let half = pow2((low - 1) as nat);
        lemma_field_bits_split(value / 2, (low - 1) as nat, (width - 1) as nat);
        lemma_pow2_unfold(low);
        vstd::arithmetic::power2::lemma_pow2_pos((low - 1) as nat);
        vstd::arithmetic::div_mod::lemma_div_denominator(value as int, 2, half as int);
        assert(field_bits(value, width) =~= field_bits(value, low) + field_bits(
            value / pow2(low),
            (width - low) as nat,
        ));
    }
}

/// A field reads back as its value, less what does not fit in its width.
pub proof fn law_reads_back_a_field(value: nat, width: nat)
    ensures
        field_bits(value, width).len() == width,
        value_of(field_bits(value, width)) == value % pow2(width),
    decreases width,
{
    reveal(field_bits);
    reveal(value_of);
    if width == 0 {
        vstd::arithmetic::power2::lemma2_to64();
        assert(value % 1 == 0);
    } else {
        let rest = field_bits(value / 2, (width - 1) as nat);
        law_reads_back_a_field(value / 2, (width - 1) as nat);
        assert(field_bits(value, width).skip(1) =~= rest);
        lemma_pow2_unfold(width);
        vstd::arithmetic::power2::lemma_pow2_pos((width - 1) as nat);
        let half = pow2((width - 1) as nat) as int;
        vstd::arithmetic::div_mod::lemma_mod_breakdown(value as int, 2, half);
    }
}

/// Bits written as the number they stand for are the same bits.
pub proof fn law_writes_back_what_it_reads(bits: Seq<bool>)
    ensures
        field_bits(value_of(bits), bits.len()) == bits,
        value_of(bits) < pow2(bits.len()),
    decreases bits.len(),
{
    reveal(field_bits);
    reveal(value_of);
    if bits.len() == 0 {
        vstd::arithmetic::power2::lemma2_to64();
        assert(field_bits(0, 0) =~= bits);
    } else {
        law_writes_back_what_it_reads(bits.skip(1));
        lemma_pow2_unfold(bits.len());
        assert(field_bits(value_of(bits), bits.len()) =~= bits);
    }
}

/// The CRC of `bits`, which go first to last.
pub fn crc(bits: &[bool]) -> (register: u16)
    ensures
        register == crc_of(bits@),
{
    let mut register: u16 = CRC_PRESET;
    let mut i: usize = 0;
    while i < bits.len()
        invariant
            i <= bits.len(),
            register == crc_of(bits@.take(i as int)),
        decreases bits.len() - i,
    {
        proof {
            lemma_crc_from_push(CRC_PRESET, bits@.take(i as int), bits[i as int]);
            assert(bits@.take(i + 1) =~= bits@.take(i as int).push(bits[i as int]));
        }
        let feedback = (register % 2 == 1) != bits[i];
        let shifted: u16 = register >> 1;
        register = if feedback {
            shifted ^ CRC_POLYNOMIAL
        } else {
            shifted
        };
        i += 1;
    }
    assert(bits@.take(i as int) =~= bits@);
    register
}

/// Bits in the order they are sent.
#[derive(Debug)]
pub struct Writer {
    pub bits: Vec<bool>,
}

impl Default for Writer {
    fn default() -> (writer: Self)
        ensures
            writer.bits@ == Seq::<bool>::empty(),
    {
        Self { bits: Vec::new() }
    }
}

impl Writer {
    /// The low `width` bits of `value`, least significant first.
    pub fn field(&mut self, value: u32, width: u32)
        requires
            width <= 32,
        ensures
            final(self).bits@ == old(self).bits@ + field_bits(value as nat, width as nat),
    {
        let mut rest: u32 = value;
        let mut n: u32 = 0;
        while n < width
            invariant
                n <= width,
                self.bits@ + field_bits(rest as nat, (width - n) as nat) == old(self).bits@
                    + field_bits(value as nat, width as nat),
            decreases width - n,
        {
            let ghost before = self.bits@;
            self.bits.push(rest % 2 == 1);
            reveal(field_bits);
            assert(self.bits@ + field_bits((rest / 2) as nat, (width - n - 1) as nat) =~= before
                + field_bits(rest as nat, (width - n) as nat));
            rest = rest / 2;
            n += 1;
        }
        proof {
            lemma_field_bits_len(rest as nat, 0);
        }
        assert(self.bits@ + field_bits(rest as nat, 0) =~= self.bits@);
    }

    pub fn flag(&mut self, value: bool)
        ensures
            final(self).bits@ == old(self).bits@.push(value),
            final(self).bits@ == old(self).bits@ + field_bits(flag_value(value), 1),
    {
        proof {
            lemma_flag(value);
        }
        self.bits.push(value);
    }

    /// Bits written left first, as the tables of V.34 give frame syncs.
    pub fn pattern(&mut self, pattern: &str)
        ensures
            final(self).bits@ == old(self).bits@ + pattern_bits(pattern@),
    {
        let length = pattern.unicode_len();
        let mut i: usize = 0;
        while i < length
            invariant
                i <= length == pattern@.len(),
                self.bits@ == old(self).bits@ + pattern_bits(pattern@).take(i as int),
            decreases length - i,
        {
            self.bits.push(pattern.get_char(i) == '1');
            i += 1;
            assert(pattern_bits(pattern@).take(i as int) =~= pattern_bits(pattern@).take(
                i - 1,
            ).push(pattern_bits(pattern@)[i - 1]));
        }
        assert(pattern_bits(pattern@).take(i as int) =~= pattern_bits(pattern@));
    }
}

/// One more low bit, in 32 bits.
proof fn lemma_shifted_in(high: nat, bit: bool)
    ensures
        ((if bit {
            1nat
        } else {
            0nat
        }) + 2 * high) % 0x1_0000_0000 == high % 0x1_0000_0000 % 0x8000_0000 * 2 + if bit {
            1nat
        } else {
            0nat
        },
{
    let q = high / 0x8000_0000;
    let r = high % 0x8000_0000;
    assert(high == 0x8000_0000 * q + r);
    assert(high % 0x1_0000_0000 % 0x8000_0000 == r);
}

/// Takes fields off a run of bits, one after the other.
pub struct Reader<'a> {
    bits: &'a [bool],
    at: usize,
}

impl<'a> Reader<'a> {
    /// The bits it reads.
    pub closed spec fn source(self) -> Seq<bool> {
        self.bits@
    }

    /// How many of them it has read.
    pub closed spec fn at(self) -> int {
        self.at as int
    }

    pub open spec fn valid(self) -> bool {
        0 <= self.at() <= self.source().len()
    }

    pub fn new(bits: &'a [bool]) -> (reader: Self)
        ensures
            reader.valid(),
            reader.source() == bits@,
            reader.at() == 0,
    {
        Self { bits, at: 0 }
    }

    /// The number that the next `width` bits write. Bits past the 32nd do
    /// not count.
    pub fn field(&mut self, width: usize) -> (value: u32)
        requires
            old(self).valid(),
            old(self).at() + width <= old(self).source().len(),
        ensures
            final(self).valid(),
            final(self).source() == old(self).source(),
            final(self).at() == old(self).at() + width,
            value == number_at(old(self).source(), old(self).at(), width as int) % 0x1_0000_0000,
            width <= 32 ==> value == number_at(old(self).source(), old(self).at(), width as int),
            width <= 32 ==> value < pow2(width as nat),
    {
        let from = self.at;
        let bits = self.bits;
        let ghost field = bits@.subrange(from as int, from + width);
        let mut value: u32 = 0;
        let mut left: usize = width;
        reveal(value_of);
        while left > 0
            invariant
                left <= width == field.len(),
                from + width <= bits.len(),
                field == bits@.subrange(from as int, from + width),
                value == value_of(field.skip(left as int)) % 0x1_0000_0000,
            decreases left,
        {
            left -= 1;
            reveal(value_of);
            assert(field.skip(left as int).skip(1) =~= field.skip(left + 1));
            proof {
                lemma_shifted_in(value_of(field.skip(left + 1)), bits[from + left]);
            }
            value = value % 0x8000_0000 * 2 + if bits[from + left] {
                1
            } else {
                0
            };
        }
        assert(field.skip(0) =~= field);
        proof {
            reveal(number_at);
            law_writes_back_what_it_reads(field);
            vstd::arithmetic::power2::lemma2_to64();
            if width < 32 {
                vstd::arithmetic::power2::lemma_pow2_strictly_increases(width as nat, 32);
            }
        }
        self.at = from + width;
        value
    }

    pub fn flag(&mut self) -> (value: bool)
        requires
            old(self).valid(),
            old(self).at() + 1 <= old(self).source().len(),
        ensures
            final(self).valid(),
            final(self).source() == old(self).source(),
            final(self).at() == old(self).at() + 1,
            value == old(self).source()[old(self).at()],
    {
        proof {
            reveal(number_at);
            let field = self.source().subrange(self.at(), self.at() + 1);
            lemma_flag(field[0]);
            assert(field =~= seq![field[0]]);
        }
        self.field(1) == 1
    }
}

/// The bits that `text` writes, left first.
pub fn pattern(text: &str) -> (bits: Vec<bool>)
    ensures
        bits@ == pattern_bits(text@),
{
    let mut writer = Writer::default();
    writer.pattern(text);
    assert(Seq::<bool>::empty() + pattern_bits(text@) =~= pattern_bits(text@));
    writer.bits
}

/// Bit i weighs 2^i: setting it adds that much, whatever the other bits are,
/// and no bits set write 0.
pub proof fn law_each_bit_has_its_weight(bits: Seq<bool>, i: int)
    requires
        0 <= i < bits.len(),
    ensures
        value_of(bits.update(i, true)) == value_of(bits.update(i, false)) + pow2(i as nat),
        value_of(Seq::new(bits.len(), |k: int| false)) == 0,
    decreases i,
{
    reveal(value_of);
    let (set, clear) = (bits.update(i, true), bits.update(i, false));
    lemma_no_bits_write_0(bits.len());
    if i == 0 {
        assert(set.skip(1) =~= clear.skip(1));
        vstd::arithmetic::power2::lemma2_to64();
    } else {
        law_each_bit_has_its_weight(bits.skip(1), i - 1);
        assert(set.skip(1) =~= bits.skip(1).update(i - 1, true));
        assert(clear.skip(1) =~= bits.skip(1).update(i - 1, false));
        lemma_pow2_unfold(i as nat);
    }
}

proof fn lemma_no_bits_write_0(count: nat)
    ensures
        value_of(Seq::new(count, |k: int| false)) == 0,
    decreases count,
{
    reveal(value_of);
    if count > 0 {
        lemma_no_bits_write_0((count - 1) as nat);
        assert(Seq::new(count, |k: int| false).skip(1) =~= Seq::new(
            (count - 1) as nat,
            |k: int| false,
        ));
    }
}

/// A field shows the binary digits of its value, the lowest first.
pub proof fn law_a_field_shows_its_digits(value: nat, width: nat, i: nat)
    requires
        i < width,
    ensures
        field_bits(value, width).len() == width,
        field_bits(value, width)[i as int] == (value / pow2(i) % 2 == 1),
    decreases width,
{
    reveal(field_bits);
    lemma_field_bits_len(value, width);
    if i == 0 {
        vstd::arithmetic::power2::lemma2_to64();
        assert(value / 1 == value);
    } else {
        law_a_field_shows_its_digits(value / 2, (width - 1) as nat, (i - 1) as nat);
        lemma_pow2_unfold(i);
        vstd::arithmetic::power2::lemma_pow2_pos((i - 1) as nat);
        vstd::arithmetic::div_mod::lemma_div_denominator(
            value as int,
            2,
            pow2((i - 1) as nat) as int,
        );
    }
}

/// Figure 14: the register starts with all ones and shifts towards its low
/// end, and what leaves it, turned over by a 1, comes back in at the top and
/// into the taps of x¹² and x⁵.
pub proof fn law_figure_14(register: u16, bits: Seq<bool>, bit: bool)
    ensures
        crc_of(Seq::empty()) == 0xFFFF,
        crc_of(bits.push(bit)) == crc_from(crc_of(bits), seq![bit]),
        ({
            let next = crc_from(register, seq![bit]);
            let back = (register % 2 == 1) != bit;
            &&& next / 2048 == register / 4096 + if back {
                16int
            } else {
                0
            }
            &&& next / 16 % 64 == register / 32 % 64
            &&& (next / 1024 % 2 == 1) == ((register / 2048 % 2 == 1) != back)
            &&& (next / 8 % 2 == 1) == ((register / 16 % 2 == 1) != back)
            &&& next % 8 == register / 2 % 8
        }),
{
    lemma_crc_from_push(CRC_PRESET, bits, bit);
    lemma_crc_from_push(crc_of(bits), Seq::empty(), bit);
    lemma_crc_from_push(register, Seq::empty(), bit);
    assert(Seq::<bool>::empty().push(bit) =~= seq![bit]);
    let kept = register >> 1;
    let turned = (register >> 1) ^ 0x8408;
    assert(kept / 2048 == register / 4096 && kept / 16 % 64 == register / 32 % 64 && kept / 1024 % 2 == register / 2048 % 2
        && kept / 8 % 2 == register / 16 % 2 && kept % 8 == register / 2 % 8) by (bit_vector)
        requires
            kept == register >> 1,
    ;
    assert(turned / 2048 == register / 4096 + 16 && turned / 16 % 64 == register / 32 % 64 && turned / 1024 % 2 != register
        / 2048 % 2 && turned / 8 % 2 != register / 16 % 2 && turned % 8 == register / 2 % 8) by (bit_vector)
        requires
            turned == (register >> 1) ^ 0x8408,
    ;
}

} // verus!

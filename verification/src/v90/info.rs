//! The INFO sequences of § 8.2.3 that differ from those of V.34: INFO0d
//! from the digital modem, and INFO1a when the analogue modem picks V.90.
//! INFO0a has the layout of the V.34 INFO0, and INFO1d that of INFO1c.

use crate::v34::bits::{
    field_bits, law_fields_stand_at_their_places, law_reads_back_a_field, lemma_field_bits_len,
    lemma_written_len, number_at, start, written, Reader, Writer,
};
use crate::v34::info::{
    law_reads_back_an_offset, law_reads_back_info0, lemma_table_14_len, offset_carried, offset_read,
    offset_value, rate_of, read_offset, table_14, write_offset, Info, Info0, TransmitClock,
};
use crate::v34::SymbolRate;
use crate::v90::ucode::Law;
use vstd::arithmetic::power2::lemma2_to64;
use vstd::prelude::*;

verus! {

/// Table 7: what the digital modem supports.
#[derive(Debug, Clone, Copy, PartialEq, Eq, Structural)]
pub struct Info0d {
    /// Bits 12 to 28, as the V.34 INFO0 has them, with no transmit clock.
    pub v34: Info0,
    /// Its phase 2 power, in dB below -6 dBm0.
    pub nominal_power: u8,
    /// Its highest power, in 0.5 dB steps below -0.5 dBm0.
    pub max_power: u8,
    /// Its power is measured at the output of the codec, not at its terminals.
    pub power_at_codec: bool,
    pub law: Law,
    pub upstream_3429: bool,
}

impl Default for Info0d {
    fn default() -> (info: Self)
        ensures
            info == (Info0d {
                v34: Info0::nothing(),
                nominal_power: 0,
                max_power: 0,
                power_at_codec: false,
                law: Law::A,
                upstream_3429: false,
            }),
    {
        Self {
            v34: Info0::default(),
            nominal_power: 0,
            max_power: 0,
            power_at_codec: false,
            law: Law::A,
            upstream_3429: false,
        }
    }
}

/// The V.34 part with no transmit clock of its own.
#[verifier::opaque]
pub open spec fn without_clock(info: Info0) -> Info0 {
    Info0 { clock: TransmitClock::Internal, ..info }
}

/// Table 7: bits 12 to 41 of INFO0d.
pub open spec fn table_7(info: Info0d) -> Seq<bool> {
    table_14(without_clock(info.v34)) + field_bits(info.nominal_power as nat, 4) + field_bits(
        info.max_power as nat,
        5,
    ) + seq![info.power_at_codec, info.law == Law::A, info.upstream_3429, false]
}

impl Info0d {
    /// As the fields keep it.
    pub open spec fn carried(self) -> Self {
        Self {
            v34: without_clock(self.v34.carried()),
            nominal_power: (self.nominal_power % 16) as u8,
            max_power: (self.max_power % 32) as u8,
            ..self
        }
    }
}

impl Info for Info0d {
    open spec fn width() -> nat {
        30
    }

    open spec fn spec_fields(self) -> Seq<bool> {
        table_7(self)
    }

    open spec fn read(fields: Seq<bool>) -> Option<Self> {
        match Info0::read(fields.take(17)) {
            Some(v34) => Some(
                Self {
                    v34: without_clock(v34),
                    nominal_power: number_at(fields, 17, 4) as u8,
                    max_power: number_at(fields, 21, 5) as u8,
                    power_at_codec: fields[26],
                    law: if fields[27] {
                        Law::A
                    } else {
                        Law::Mu
                    },
                    upstream_3429: fields[28],
                },
            ),
            None => None,
        }
    }

    fn field_count() -> (count: usize) {
        30
    }

    fn fields(&self) -> (bits: Vec<bool>) {
        reveal(without_clock);
        let v34 = Info0 { clock: TransmitClock::Internal, ..self.v34 };
        let mut writer = Writer { bits: v34.fields() };
        writer.field(self.nominal_power as u32, 4);
        writer.field(self.max_power as u32, 5);
        writer.flag(self.power_at_codec);
        writer.flag(matches!(self.law, Law::A));
        writer.flag(self.upstream_3429);
        writer.flag(false);
        proof {
            assert(Info0::width() == 17);
            assert(Self::width() == 30);
            lemma_field_bits_len(self.nominal_power as nat, 4);
            lemma_field_bits_len(self.max_power as nat, 5);
            assert(writer.bits@ =~= table_7(*self));
        }
        writer.bits
    }

    fn from_fields(fields: &[bool]) -> (info: Option<Self>) {
        reveal(without_clock);
        let (v34_fields, _rest) = fields.split_at(17);
        assert(v34_fields@ =~= fields@.take(17));
        let v34 = match Info0::from_fields(v34_fields) {
            Some(v34) => v34,
            None => {
                return None;
            },
        };
        proof {
            lemma2_to64();
        }
        let mut reader = Reader::new(fields);
        let _v34 = reader.field(17);
        let nominal_power = reader.field(4) as u8;
        let max_power = reader.field(5) as u8;
        let power_at_codec = reader.flag();
        let law = if reader.flag() {
            Law::A
        } else {
            Law::Mu
        };
        let upstream_3429 = reader.flag();
        Some(
            Self {
                v34: Info0 { clock: TransmitClock::Internal, ..v34 },
                nominal_power,
                max_power,
                power_at_codec,
                law,
                upstream_3429,
            },
        )
    }
}

/// INFO0d reads back as it was, less what its fields do not hold.
pub proof fn law_reads_back_info0d(info: Info0d)
    ensures
        Info0d::read(info.spec_fields()) == Some(info.carried()),
{
    let v34 = without_clock(info.v34);
    law_reads_back_info0(v34);
    lemma_clock_dropped(info.v34);
    lemma_table_14_len(v34);
    lemma_table_7(
        table_14(v34),
        info.nominal_power as nat,
        info.max_power as nat,
        info.power_at_codec,
        info.law == Law::A,
        info.upstream_3429,
    );
}

proof fn lemma_clock_dropped(info: Info0)
    ensures
        without_clock(without_clock(info).carried()) == without_clock(info.carried()),
{
    reveal(without_clock);
}

/// The parts of table 7.
proof fn lemma_table_7(
    head: Seq<bool>,
    nominal: nat,
    most: nat,
    at_codec: bool,
    a_law: bool,
    upstream: bool,
)
    requires
        head.len() == 17,
    ensures
        ({
            let fields = head + field_bits(nominal, 4) + field_bits(most, 5) + seq![
                at_codec,
                a_law,
                upstream,
                false,
            ];
            &&& fields.take(17) == head
            &&& number_at(fields, 17, 4) == nominal % 16
            &&& number_at(fields, 21, 5) == most % 32
            &&& fields[26] == at_codec
            &&& fields[27] == a_law
            &&& fields[28] == upstream
        }),
{
    reveal(number_at);
    lemma2_to64();
    law_reads_back_a_field(nominal, 4);
    law_reads_back_a_field(most, 5);
    let fields = head + field_bits(nominal, 4) + field_bits(most, 5) + seq![
        at_codec,
        a_law,
        upstream,
        false,
    ];
    assert(fields.take(17) =~= head);
    assert(fields.subrange(17, 21) =~= field_bits(nominal, 4));
    assert(fields.subrange(21, 26) =~= field_bits(most, 5));
}

/// Table 10: the analogue modem asks for V.90.
#[derive(Debug, Clone, Copy, PartialEq, Eq)]
pub struct Info1a {
    /// In 35 ms steps.
    pub md_length: u8,
    /// The Ucode of the two points that the digital modem trains with.
    pub uinfo: u8,
    /// 3000, 3200 or 3429.
    pub upstream: SymbolRate,
    /// Of the 1050 Hz probing tone, in 0.02 Hz, if it was measured.
    pub frequency_offset: Option<i16>,
}

/// The values and widths of table 10. Index 6 for the downstream rate says
/// that the digital modem sends at 8000 symbols/s.
pub open spec fn table_10(info: Info1a) -> Seq<(nat, nat)> {
    seq![
        (0, 6),
        (info.md_length as nat, 7),
        (info.uinfo as nat, 7),
        (0, 2),
        (info.upstream.spec_index() as nat, 3),
        (6, 3),
        (offset_value(info.frequency_offset), 10),
    ]
}

impl Info1a {
    /// As the fields keep it.
    pub open spec fn carried(self) -> Self {
        Self {
            md_length: (self.md_length % 128) as u8,
            uinfo: (self.uinfo % 128) as u8,
            frequency_offset: offset_carried(self.frequency_offset),
            ..self
        }
    }
}

impl Info for Info1a {
    open spec fn width() -> nat {
        38
    }

    open spec fn spec_fields(self) -> Seq<bool> {
        written(table_10(self), 7)
    }

    open spec fn read(fields: Seq<bool>) -> Option<Self> {
        match rate_of(number_at(fields, 22, 3)) {
            Some(upstream) => if upstream.spec_index() >= 3 && number_at(fields, 25, 3) == 6 {
                Some(
                    Self {
                        md_length: number_at(fields, 6, 7) as u8,
                        uinfo: number_at(fields, 13, 7) as u8,
                        upstream,
                        frequency_offset: offset_read(number_at(fields, 28, 10)),
                    },
                )
            } else {
                None
            },
            None => None,
        }
    }

    fn field_count() -> (count: usize) {
        38
    }

    fn fields(&self) -> (bits: Vec<bool>) {
        let ghost table = table_10(*self);
        let mut writer = Writer::default();
        assert(writer.bits@ == written(table, 0));
        writer.field(0, 6);
        assert(writer.bits@ == written(table, 1));
        writer.field(self.md_length as u32, 7);
        assert(writer.bits@ == written(table, 2));
        writer.field(self.uinfo as u32, 7);
        assert(writer.bits@ == written(table, 3));
        writer.field(0, 2);
        assert(writer.bits@ == written(table, 4));
        writer.field(self.upstream.index() as u32, 3);
        assert(writer.bits@ == written(table, 5));
        writer.field(6, 3);
        assert(writer.bits@ == written(table, 6));
        write_offset(&mut writer, self.frequency_offset);
        assert(writer.bits@ == written(table, 7));
        proof {
            lemma_starts_10(*self);
            lemma_written_len(table, 7);
            assert(Self::width() == 38);
        }
        writer.bits
    }

    fn from_fields(fields: &[bool]) -> (info: Option<Self>) {
        proof {
            lemma2_to64();
        }
        let mut reader = Reader::new(fields);
        let _reserved = reader.field(6);
        let md_length = reader.field(7) as u8;
        let uinfo = reader.field(7) as u8;
        let _reserved = reader.field(2);
        let upstream = SymbolRate::from_index(reader.field(3));
        let downstream = reader.field(3);
        let frequency_offset = read_offset(&mut reader);
        match upstream {
            Some(upstream) => if upstream.index() >= 3 && downstream == 6 {
                Some(Self { md_length, uinfo, upstream, frequency_offset })
            } else {
                None
            },
            None => None,
        }
    }
}

proof fn lemma_starts_10(info: Info1a)
    ensures
        start(table_10(info), 0) == 0,
        start(table_10(info), 1) == 6,
        start(table_10(info), 2) == 13,
        start(table_10(info), 3) == 20,
        start(table_10(info), 4) == 22,
        start(table_10(info), 5) == 25,
        start(table_10(info), 6) == 28,
        start(table_10(info), 7) == 38,
{
    let table = table_10(info);
    assert(start(table, 0) == 0);
    assert(start(table, 1) == 6);
    assert(start(table, 2) == 13);
    assert(start(table, 3) == 20);
    assert(start(table, 4) == 22);
    assert(start(table, 5) == 25);
    assert(start(table, 6) == 28);
    assert(start(table, 7) == 38);
}

/// INFO1a reads back as it was, less what its fields do not hold, where the
/// upstream rate is one that V.90 has.
pub proof fn law_reads_back_info1a(info: Info1a)
    requires
        info.upstream.spec_index() >= 3,
    ensures
        Info1a::read(info.spec_fields()) == Some(info.carried()),
{
    let table = table_10(info);
    lemma2_to64();
    lemma_starts_10(info);
    law_fields_stand_at_their_places(table, 7, 1);
    law_fields_stand_at_their_places(table, 7, 2);
    law_fields_stand_at_their_places(table, 7, 4);
    law_fields_stand_at_their_places(table, 7, 5);
    law_fields_stand_at_their_places(table, 7, 6);
    law_reads_back_an_offset(info.frequency_offset);
    let fields = written(table, 7);
    assert(table[4] == (info.upstream.spec_index() as nat, 3nat));
    assert(table[5] == (6nat, 3nat));
    assert(number_at(fields, 6, 7) == info.md_length % 128);
    assert(number_at(fields, 13, 7) == info.uinfo % 128);
    assert(number_at(fields, 22, 3) == info.upstream.spec_index());
    assert(number_at(fields, 25, 3) == 6);
    assert(number_at(fields, 28, 10) == offset_value(info.frequency_offset));
    assert(rate_of(info.upstream.spec_index() as nat) == Some(info.upstream));
}

/// No fields are both forms of INFO1a: the V.34 form has a symbol rate where
/// this one has index 6.
pub proof fn law_tells_the_two_forms_of_info1a_apart(fields: Seq<bool>)
    ensures
        Info1a::read(fields) is None || crate::v34::info::Info1a::read(fields) is None,
{
}

/// Table 7, from bit 29 of INFO0d on, after the V.34 part of INFO0, which has
/// no transmit clock of its own.
pub proof fn law_table_7(info: Info0d)
    ensures
        ({
            let fields = info.spec_fields();
            &&& fields.len() == 30
            &&& fields.take(17) == (Info0 { clock: TransmitClock::Internal, ..info.v34 }).spec_fields()
            &&& number_at(fields, 17, 4) == info.nominal_power % 16
            &&& number_at(fields, 21, 5) == info.max_power % 32
            &&& fields[26] == info.power_at_codec
            &&& fields[27] == (info.law == Law::A)
            &&& fields[28] == info.upstream_3429
            &&& !fields[29]
        }),
{
    let v34 = Info0 { clock: TransmitClock::Internal, ..info.v34 };
    let head = table_14(v34);
    assert(without_clock(info.v34) == v34) by {
        reveal(without_clock);
    }
    assert(head.len() == 17) by {
        lemma_table_14_len(v34);
    }
    lemma_table_7(
        head,
        info.nominal_power as nat,
        info.max_power as nat,
        info.power_at_codec,
        info.law == Law::A,
        info.upstream_3429,
    );
    lemma_the_end_of_table_7(
        head,
        info.nominal_power as nat,
        info.max_power as nat,
        seq![info.power_at_codec, info.law == Law::A, info.upstream_3429, false],
    );
    assert(v34.spec_fields() == head);
}

proof fn lemma_the_end_of_table_7(head: Seq<bool>, nominal: nat, most: nat, flags: Seq<bool>)
    requires
        head.len() == 17,
        flags.len() == 4,
    ensures
        (head + field_bits(nominal, 4) + field_bits(most, 5) + flags).len() == 30,
        (head + field_bits(nominal, 4) + field_bits(most, 5) + flags)[29] == flags[3],
{
    lemma_field_bits_len(nominal, 4);
    lemma_field_bits_len(most, 5);
}

/// Table 10, field by field from bit 12 of INFO1a on. It is read only where
/// the downstream rate is 6 and the upstream one 3000, 3200 or 3429.
pub proof fn law_table_10(info: Info1a, fields: Seq<bool>)
    ensures
        ({
            let own = info.spec_fields();
            &&& own.len() == 38
            &&& number_at(own, 0, 6) == 0
            &&& number_at(own, 6, 7) == info.md_length % 128
            &&& number_at(own, 13, 7) == info.uinfo % 128
            &&& number_at(own, 20, 2) == 0
            &&& number_at(own, 22, 3) == info.upstream.spec_index()
            &&& number_at(own, 25, 3) == 6
            &&& number_at(own, 28, 10) == offset_value(info.frequency_offset)
        }),
        Info1a::read(fields) is Some <==> number_at(fields, 25, 3) == 6 && 3 <= number_at(fields, 22, 3) <= 5,
        Info1a::read(fields) is Some ==> Info1a::read(fields)->0.upstream.spec_index() == number_at(fields, 22, 3),
{
    let table = table_10(info);
    lemma2_to64();
    lemma_starts_10(info);
    law_reads_back_an_offset(info.frequency_offset);
    law_fields_stand_at_their_places(table, 7, 0);
    law_fields_stand_at_their_places(table, 7, 1);
    law_fields_stand_at_their_places(table, 7, 2);
    law_fields_stand_at_their_places(table, 7, 3);
    law_fields_stand_at_their_places(table, 7, 4);
    law_fields_stand_at_their_places(table, 7, 5);
    law_fields_stand_at_their_places(table, 7, 6);
    assert(table[0] == (0nat, 6nat) && table[3] == (0nat, 2nat));
    assert(table[4] == (info.upstream.spec_index() as nat, 3nat));
    assert(table[5] == (6nat, 3nat));
}

} // verus!

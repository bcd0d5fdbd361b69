//! V.34: the sequences of its start-up and the encoding of its data mode.

pub mod bits;
pub mod constellation;
pub mod crossing;
pub mod decoder;
pub mod detect;
pub mod encoder;
pub mod energy;
pub mod following;
pub mod framing;
pub mod info;
pub mod monitor;
pub mod mp;
pub mod phase2;
pub mod precoder;
pub mod pump;
pub mod rates;
pub mod shell;
pub mod sink;
pub mod sixteen;
pub mod source;
pub mod training;
pub mod trellis;
pub mod viterbi;
pub mod words;

use vstd::prelude::*;

verus! {

/// Table 1, in the order INFO sequences number them.
#[derive(Debug, Clone, Copy, PartialEq, Eq, PartialOrd, Ord, Hash, Structural)]
pub enum SymbolRate {
    S2400,
    S2743,
    S2800,
    S3000,
    S3200,
    S3429,
}

impl SymbolRate {
    pub const ALL: [Self; 6] = [
        Self::S2400,
        Self::S2743,
        Self::S2800,
        Self::S3000,
        Self::S3200,
        Self::S3429,
    ];

    /// a and c of S = (a/c) · 2400.
    pub open spec fn spec_ratio(self) -> (u32, u32) {
        match self {
            Self::S2400 => (1, 1),
            Self::S2743 => (8, 7),
            Self::S2800 => (7, 6),
            Self::S3000 => (5, 4),
            Self::S3200 => (4, 3),
            Self::S3429 => (10, 7),
        }
    }

    /// a and c of S = (a/c) · 2400.
    #[must_use]
    pub fn ratio(self) -> (ratio: (u32, u32))
        ensures
            ratio == self.spec_ratio(),
    {
        match self {
            Self::S2400 => (1, 1),
            Self::S2743 => (8, 7),
            Self::S2800 => (7, 6),
            Self::S3000 => (5, 4),
            Self::S3200 => (4, 3),
            Self::S3429 => (10, 7),
        }
    }

    /// Table 2: d and e of the carrier (d/e) · S.
    pub open spec fn spec_carrier_ratio(self, high: bool) -> (u32, u32) {
        match self {
            Self::S2400 => if high { (3, 4) } else { (2, 3) },
            Self::S2743 | Self::S2800 | Self::S3000 => if high { (2, 3) } else { (3, 5) },
            Self::S3200 => if high { (3, 5) } else { (4, 7) },
            Self::S3429 => (4, 7),
        }
    }

    /// Table 2: d and e of the carrier (d/e) · S.
    #[must_use]
    pub fn carrier_ratio(self, high: bool) -> (ratio: (u32, u32))
        ensures
            ratio == self.spec_carrier_ratio(high),
    {
        match (self, high) {
            (Self::S2400, false) | (Self::S2743 | Self::S2800 | Self::S3000, true) => (2, 3),
            (Self::S2400, true) => (3, 4),
            (Self::S2743 | Self::S2800 | Self::S3000, false) | (Self::S3200, true) => (3, 5),
            (Self::S3200, false) | (Self::S3429, _) => (4, 7),
        }
    }

    /// The place of the rate in table 1.
    pub open spec fn spec_index(self) -> u8 {
        match self {
            Self::S2400 => 0,
            Self::S2743 => 1,
            Self::S2800 => 2,
            Self::S3000 => 3,
            Self::S3200 => 4,
            Self::S3429 => 5,
        }
    }

    #[must_use]
    pub fn index(self) -> (index: u8)
        ensures
            index == self.spec_index(),
    {
        match self {
            Self::S2400 => 0,
            Self::S2743 => 1,
            Self::S2800 => 2,
            Self::S3000 => 3,
            Self::S3200 => 4,
            Self::S3429 => 5,
        }
    }

    /// The rate that `index` gives for.
    #[must_use]
    pub fn from_index(index: u32) -> (rate: Option<Self>)
        ensures
            match rate {
                Some(rate) => rate.spec_index() == index,
                None => index > 5,
            },
    {
        match index {
            0 => Some(Self::S2400),
            1 => Some(Self::S2743),
            2 => Some(Self::S2800),
            3 => Some(Self::S3000),
            4 => Some(Self::S3200),
            5 => Some(Self::S3429),
            _ => None,
        }
    }
}

/// No two symbol rates have one index, and every index is below 6.
pub proof fn law_symbol_rates_are_numbered_apart(rate: SymbolRate, other: SymbolRate)
    ensures
        rate.spec_index() < 6,
        rate.spec_index() == other.spec_index() ==> rate == other,
{
}

/// Tables 1 and 2: the symbol rates in their order, as 2400 · a/c, and the
/// carriers as S · d/e, the lower and the higher.
pub proof fn law_tables_1_and_2(rate: SymbolRate)
    ensures
        rate.spec_index() == 0 ==> rate.spec_ratio() == (1u32, 1u32),
        rate.spec_index() == 1 ==> 2400 * rate.spec_ratio().0 == 2742 * rate.spec_ratio().1 + 6,
        rate.spec_index() == 2 ==> 2400 * rate.spec_ratio().0 == 2800 * rate.spec_ratio().1,
        rate.spec_index() == 3 ==> 2400 * rate.spec_ratio().0 == 3000 * rate.spec_ratio().1,
        rate.spec_index() == 4 ==> 2400 * rate.spec_ratio().0 == 3200 * rate.spec_ratio().1,
        rate.spec_index() == 5 ==> 2400 * rate.spec_ratio().0 == 3428 * rate.spec_ratio().1 + 4,
        rate.spec_index() == 0 ==> rate.spec_carrier_ratio(false) == (2u32, 3u32) && rate.spec_carrier_ratio(true) == (
            3u32,
            4u32,
        ),
        1 <= rate.spec_index() <= 3 ==> rate.spec_carrier_ratio(false) == (3u32, 5u32) && rate.spec_carrier_ratio(
            true,
        ) == (2u32, 3u32),
        rate.spec_index() == 4 ==> rate.spec_carrier_ratio(false) == (4u32, 7u32) && rate.spec_carrier_ratio(true) == (
            3u32,
            5u32,
        ),
        rate.spec_index() == 5 ==> rate.spec_carrier_ratio(false) == (4u32, 7u32) && rate.spec_carrier_ratio(true)
            == rate.spec_carrier_ratio(false),
{
}

} // verus!

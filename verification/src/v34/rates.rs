//! Choosing a carrier and a data rate from what line probing and training
//! measured, for this modem's receiver: the 16-state trellis and minimum
//! shaping.

use crate::v34::bits::{field_bits, law_writes_back_what_it_reads, value_of, Writer};
use crate::v34::framing::{in_table_8, Framing};
use crate::v34::info::Probe;
use crate::v34::SymbolRate;
use vstd::arithmetic::power2::{lemma2_to64, lemma_pow2_strictly_increases};
use vstd::prelude::*;

verus! {

/// Whether table 8 has `n` · 2400 bit/s at the symbol rate.
pub open spec fn has_rate(symbol_rate: SymbolRate, n: int) -> bool {
    1 <= n <= 14 && in_table_8(symbol_rate, (n * 2400) as u32)
}

fn supports(symbol_rate: SymbolRate, n: u8) -> (supports: bool)
    requires
        n <= 14,
    ensures
        supports == has_rate(symbol_rate, n as int),
{
    n >= 1 && Framing::new(symbol_rate, n as u32 * 2400, false).is_some()
}

/// The highest data rate, in multiples of 2400 bit/s, that table 8 has at
/// `symbol_rate` up to `limit` bit/s, or 0 if none.
#[must_use]
pub fn highest(symbol_rate: SymbolRate, limit: u32) -> (rate: u8)
    ensures
        rate <= 14,
        rate > 0 ==> has_rate(symbol_rate, rate as int) && rate * 2400 <= limit,
        forall|n: int| rate < n && #[trigger] has_rate(symbol_rate, n) ==> n * 2400 > limit,
{
    let mut n: u8 = 14;
    while n > 0
        invariant
            n <= 14,
            forall|m: int| n < m && #[trigger] has_rate(symbol_rate, m) ==> m * 2400 > limit,
        decreases n,
    {
        if supports(symbol_rate, n) && n as u32 * 2400 <= limit {
            return n;
        }
        n -= 1;
    }
    0
}

/// What probing measured in the band of one carrier: how it ranks against
/// another, and the highest rate it carries.
#[derive(Debug, Clone, Copy, PartialEq, Eq, Structural)]
pub struct Band {
    pub rank: i64,
    pub max_rate: u8,
}

/// The carrier that ranks higher of those allowed, the high one of equals.
pub open spec fn spec_probe(bands: Seq<Band>, carriers: Seq<bool>) -> Probe {
    let high = carriers[1] && (!carriers[0] || bands[1].rank >= bands[0].rank);
    if carriers[0] || carriers[1] {
        Probe {
            high_carrier: high,
            pre_emphasis: 0,
            max_rate: if high {
                bands[1].max_rate
            } else {
                bands[0].max_rate
            },
        }
    } else {
        Probe { high_carrier: false, pre_emphasis: 0, max_rate: 0 }
    }
}

/// The carrier, pre-emphasis and rate for the far transmitter at one symbol
/// rate, as INFO1 carries them, choosing between the carriers it allows, the
/// low one first. It asks for no pre-emphasis, as the equaliser takes out the
/// tilt of the line.
#[must_use]
pub fn probe(bands: [Band; 2], carriers: [bool; 2]) -> (probe: Probe)
    ensures
        probe == spec_probe(bands@, carriers@),
{
    if !carriers[0] && !carriers[1] {
        return Probe { high_carrier: false, pre_emphasis: 0, max_rate: 0 };
    }
    let high = carriers[1] && (!carriers[0] || bands[1].rank >= bands[0].rank);
    let max_rate = if high {
        bands[1].max_rate
    } else {
        bands[0].max_rate
    };
    Probe { high_carrier: high, pre_emphasis: 0, max_rate }
}

/// Bit n for (n + 1) · 2400 bit/s, set for each rate up to `max` that table
/// 8 has at `symbol_rate`.
pub open spec fn mask_bits(symbol_rate: SymbolRate, max: u8) -> Seq<bool> {
    Seq::new(16, |n: int| n + 1 <= max && has_rate(symbol_rate, n + 1))
}

/// The rate mask of MP: bit n for (n + 1) · 2400 bit/s, set for each rate up
/// to `max` that table 8 has at `symbol_rate`.
#[must_use]
pub fn mask(symbol_rate: SymbolRate, max: u8) -> (mask: u16)
    ensures
        mask == value_of(mask_bits(symbol_rate, max)),
        field_bits(mask as nat, 16) == mask_bits(symbol_rate, max),
{
    let ghost bits = mask_bits(symbol_rate, max);
    let mut mask: u16 = 0;
    let mut left: u8 = 16;
    proof {
        reveal(value_of);
        assert(bits.skip(16) =~= Seq::<bool>::empty());
    }
    while left > 0
        invariant
            left <= 16,
            bits == mask_bits(symbol_rate, max),
            mask == value_of(bits.skip(left as int)),
        decreases left,
    {
        let bit: u16 = if left <= max && left <= 14 && supports(symbol_rate, left) {
            1
        } else {
            0
        };
        left -= 1;
        proof {
            let rest = bits.skip(left as int);
            reveal(value_of);
            assert(rest.skip(1) =~= bits.skip(left + 1));
            law_writes_back_what_it_reads(rest);
            lemma2_to64();
            if left > 0 {
                lemma_pow2_strictly_increases((16 - left) as nat, 16);
            }
            assert(value_of(rest) == bit + 2 * mask);
        }
        mask = bit + 2 * mask;
    }
    proof {
        assert(bits.skip(0) =~= bits);
        law_writes_back_what_it_reads(bits);
    }
    mask
}

/// Whether both masks enable `n` · 2400 bit/s.
pub open spec fn enabled(masks: Seq<u16>, n: int) -> bool {
    1 <= n <= 16 && field_bits(masks[0] as nat, 16)[n - 1] && field_bits(
        masks[1] as nat,
        16,
    )[n - 1]
}

pub open spec fn least(maxima: Seq<u8>) -> u8 {
    let first = if maxima[0] < maxima[1] {
        maxima[0]
    } else {
        maxima[1]
    };
    let second = if maxima[2] < maxima[3] {
        maxima[2]
    } else {
        maxima[3]
    };
    if first < second {
        first
    } else {
        second
    }
}

/// `rate` is the highest that both masks enable and no maximum exceeds, or 0
/// if there is none.
pub open spec fn is_agreed(maxima: Seq<u8>, masks: Seq<u16>, rate: u8) -> bool {
    &&& rate <= least(maxima)
    &&& rate > 0 ==> enabled(masks, rate as int)
    &&& forall|n: int| rate < n <= least(maxima) ==> !#[trigger] enabled(masks, n)
}

/// The data rate both directions run at, in multiples of 2400 bit/s, as
/// § 11.4.1.1.3 has it for symmetric rates: the highest that both masks
/// enable and no maximum exceeds.
#[must_use]
pub fn agree(maxima: [u8; 4], masks: [u16; 2]) -> (rate: u8)
    requires
        least(maxima@) <= 16,
    ensures
        is_agreed(maxima@, masks@, rate),
{
    let first = if maxima[0] < maxima[1] {
        maxima[0]
    } else {
        maxima[1]
    };
    let second = if maxima[2] < maxima[3] {
        maxima[2]
    } else {
        maxima[3]
    };
    let ceiling = if first < second {
        first
    } else {
        second
    };
    let mut ours = Writer::default();
    ours.field(masks[0] as u32, 16);
    let mut theirs = Writer::default();
    theirs.field(masks[1] as u32, 16);
    proof {
        crate::v34::bits::lemma_field_bits_len(masks@[0] as nat, 16);
        crate::v34::bits::lemma_field_bits_len(masks@[1] as nat, 16);
        assert(ours.bits@ =~= field_bits(masks@[0] as nat, 16));
        assert(theirs.bits@ =~= field_bits(masks@[1] as nat, 16));
    }
    let mut n: u8 = ceiling;
    while n > 0
        invariant
            n <= ceiling <= 16,
            ceiling == least(maxima@),
            ours.bits@ == field_bits(masks@[0] as nat, 16),
            theirs.bits@ == field_bits(masks@[1] as nat, 16),
            ours.bits.len() == 16,
            theirs.bits.len() == 16,
            forall|m: int| n < m <= ceiling ==> !#[trigger] enabled(masks@, m),
        decreases n,
    {
        if ours.bits[n as usize - 1] && theirs.bits[n as usize - 1] {
            assert(enabled(masks@, n as int));
            return n;
        }
        n -= 1;
    }
    0
}

/// Both ends agree on the same rate, whichever way round they take the masks
/// and the maxima of the two directions.
pub proof fn law_both_ends_agree_on_one_rate(
    maxima: Seq<u8>,
    masks: Seq<u16>,
    ours: u8,
    theirs: u8,
)
    requires
        maxima.len() == 4,
        masks.len() == 2,
        least(maxima) <= 16,
        is_agreed(maxima, masks, ours),
        is_agreed(
            seq![maxima[2], maxima[3], maxima[0], maxima[1]],
            seq![masks[1], masks[0]],
            theirs,
        ),
    ensures
        ours == theirs,
{
    let turned = seq![masks[1], masks[0]];
    assert(forall|n: int| enabled(masks, n) == #[trigger] enabled(turned, n));
    if ours < theirs {
        assert(enabled(turned, theirs as int));
    }
    if theirs < ours {
        assert(enabled(masks, ours as int));
        assert(enabled(turned, ours as int) == enabled(masks, ours as int));
    }
}

/// Between two ends with masks of what table 8 has, every agreed rate is in
/// table 8.
pub proof fn law_agreed_rates_are_in_table_8(
    symbol_rate: SymbolRate,
    maxima: Seq<u8>,
    ours: u16,
    theirs: u16,
    max: u8,
    rate: u8,
)
    requires
        field_bits(ours as nat, 16) == mask_bits(symbol_rate, max),
        is_agreed(maxima, seq![ours, theirs], rate),
        rate > 0,
    ensures
        has_rate(symbol_rate, rate as int),
        rate <= max,
{
}

/// A probe asks for a carrier that the far transmitter may use, whose band
/// ranks no lower than the other's where it may use that too, the high one of
/// equals, and carries what was measured in that band. Where it may use none,
/// it carries nothing.
pub proof fn law_a_probe_asks_for_the_better_carrier(bands: Seq<Band>, low: bool, high: bool)
    requires
        bands.len() == 2,
    ensures
        ({
            let probe = spec_probe(bands, seq![low, high]);
            let place = if probe.high_carrier {
                1int
            } else {
                0
            };
            &&& probe.pre_emphasis == 0
            &&& low && !high ==> !probe.high_carrier
            &&& high && !low ==> probe.high_carrier
            &&& low && high ==> bands[place].rank >= bands[1 - place].rank
            &&& low && high && bands[0].rank == bands[1].rank ==> probe.high_carrier
            &&& low || high ==> probe.max_rate == bands[place].max_rate
            &&& !low && !high ==> probe.max_rate == 0
        }),
{
}

/// A mask enables n · 2400 bit/s by bit n − 1, and an agreed rate is the most
/// of those that both masks enable and that none of the four maxima is below.
pub proof fn law_the_agreed_rate_is_the_most_of_both(
    maxima: Seq<u8>,
    masks: Seq<u16>,
    rate: u8,
    other: u8,
)
    requires
        maxima.len() == 4,
        masks.len() == 2,
        is_agreed(maxima, masks, rate),
        1 <= other <= 16,
        other <= maxima[0] && other <= maxima[1] && other <= maxima[2] && other <= maxima[3],
        masks[0] as nat / vstd::arithmetic::power2::pow2((other - 1) as nat) % 2 == 1,
        masks[1] as nat / vstd::arithmetic::power2::pow2((other - 1) as nat) % 2 == 1,
    ensures
        other <= rate,
        rate <= maxima[0] && rate <= maxima[1] && rate <= maxima[2] && rate <= maxima[3],
        rate <= 16,
        masks[0] as nat / vstd::arithmetic::power2::pow2((rate - 1) as nat) % 2 == 1,
        masks[1] as nat / vstd::arithmetic::power2::pow2((rate - 1) as nat) % 2 == 1,
{
    crate::v34::bits::law_a_field_shows_its_digits(masks[0] as nat, 16, (other - 1) as nat);
    crate::v34::bits::law_a_field_shows_its_digits(masks[1] as nat, 16, (other - 1) as nat);
    assert(enabled(masks, other as int));
    crate::v34::bits::law_a_field_shows_its_digits(masks[0] as nat, 16, (rate - 1) as nat);
    crate::v34::bits::law_a_field_shows_its_digits(masks[1] as nat, 16, (rate - 1) as nat);
}

/// Table 8: the multiples of 2400 bit/s of each symbol rate. The mask has a
/// bit for each of them up to the most asked for.
pub proof fn law_table_8(symbol_rate: SymbolRate, rate: u8, max: u8)
    requires
        1 <= rate <= 16,
    ensures
        ({
            let most: int = match symbol_rate {
                SymbolRate::S2400 => 9,
                SymbolRate::S2743 => 11,
                SymbolRate::S2800 => 11,
                SymbolRate::S3000 => 12,
                SymbolRate::S3200 => 13,
                SymbolRate::S3429 => 14,
            };
            let least: int = match symbol_rate {
                SymbolRate::S2400 => 1,
                _ => 2,
            };
            &&& mask_bits(symbol_rate, max).len() == 16
            &&& mask_bits(symbol_rate, max)[rate - 1] <==> least <= rate <= most && rate <= max
            &&& crate::v34::framing::in_table_8(symbol_rate, (2400 * rate) as u32) <==> least <= rate <= most
        }),
{
}

} // verus!

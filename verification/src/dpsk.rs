//! The dibits of differential 4-phase PSK at 600 baud, as V.22 uses it.

use vstd::prelude::*;

verus! {

/// Table 1 of V.22: the quarter turns a dibit advances the phase by.
pub open spec fn table_1(first: bool, second: bool) -> u8 {
    match (first, second) {
        (false, false) => 1,
        (false, true) => 0,
        (true, true) => 3,
        (true, false) => 2,
    }
}

/// The quarter turns a dibit advances the phase by, from table 1 of V.22.
/// The first bit of the pair is the one sent first.
#[must_use]
pub fn quarter_turns(first: bool, second: bool) -> (turns: u8)
    ensures
        turns == table_1(first, second),
        turns < 4,
{
    match (first, second) {
        (false, false) => 1,
        (false, true) => 0,
        (true, true) => 3,
        (true, false) => 2,
    }
}

/// The dibit that advances the phase by `quarter_turns`.
#[must_use]
pub fn dibit(quarter_turns: u8) -> (bits: (bool, bool))
    ensures
        table_1(bits.0, bits.1) == quarter_turns % 4,
{
    match quarter_turns % 4 {
        0 => (false, true),
        1 => (false, false),
        2 => (true, false),
        _ => (true, true),
    }
}

/// No two dibits turn the phase alike.
pub proof fn law_dibits_turn_the_phase_apart(a: (bool, bool), b: (bool, bool))
    requires
        table_1(a.0, a.1) == table_1(b.0, b.1),
    ensures
        a == b,
{
}

/// Table 1 of V.22, in degrees: 00 advances the phase by 90, 01 by 0, 11 by
/// 270 and 10 by 180.
pub proof fn law_table_1()
    ensures
        90 * table_1(false, false) == 90,
        90 * table_1(false, true) == 0,
        90 * table_1(true, true) == 270,
        90 * table_1(true, false) == 180,
{
}

} // verus!

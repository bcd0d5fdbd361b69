//! The PCM signals of phases 3 and 4 (§ 8.4 and § 8.6): Sd and S̄d, TRN1d,
//! Jd and Jd′ as signs of UINFO, and R and R̄, with the receiver's
//! inverse of the sign modulation.

use crate::scrambler::{Descrambler, Polynomial, Scrambler, Scrambling};
use crate::v90::Codeword;
use vstd::prelude::*;

verus! {

/// § 8.4.4: 64 and 8 repetitions of six symbols.
pub const SD_SYMBOLS: usize = 384;

pub const SD_BAR_SYMBOLS: usize = 48;

/// § 9.3.1.4: TRN1d for at least 2040T.
pub const TRN1D_SYMBOLS: usize = 2040;

/// § 8.4.3: Jd′ is 12 zeros.
pub const JD_PRIME_BITS: usize = 12;

/// § 9.4.1.1 and § 8.6.4: Ri for 192T at least, R̄ for 24T.
pub const RI_SYMBOLS: usize = 192;

pub const R_BAR_SYMBOLS: usize = 24;

/// The signs + + + − − −, or their inverse.
pub open spec fn alternating(n: int, bar: bool) -> bool {
    (n % 6 < 3) != bar
}

/// Symbol `n` of Sd or S̄d: W, 0, W, where W is Ucode 16 + UINFO.
pub open spec fn sd_symbol(uinfo: u8, bar: bool, n: int) -> Codeword {
    Codeword {
        ucode: if n % 3 == 1 {
            0
        } else if uinfo + 16 < 127 {
            (uinfo + 16) as u8
        } else {
            127
        },
        positive: alternating(n, bar),
    }
}

/// Sd, or S̄d when `bar`: W, 0, W with the signs of + + + − − −, where W is
/// Ucode 16 + UINFO.
#[must_use]
pub fn sd(uinfo: u8, bar: bool) -> (symbols: Vec<Codeword>)
    requires
        uinfo <= 239,
    ensures
        symbols.len() == if bar {
            SD_BAR_SYMBOLS
        } else {
            SD_SYMBOLS
        },
        forall|n: int|
            0 <= n < symbols.len() ==> #[trigger] symbols[n] == sd_symbol(uinfo, bar, n),
{
    let w = if uinfo + 16 < 127 {
        uinfo + 16
    } else {
        127
    };
    let count = if bar {
        SD_BAR_SYMBOLS
    } else {
        SD_SYMBOLS
    };
    let mut symbols: Vec<Codeword> = Vec::new();
    let mut n: usize = 0;
    while n < count
        invariant
            n <= count,
            uinfo <= 239,
            w == if uinfo + 16 < 127 {
                uinfo + 16
            } else {
                127
            },
            symbols.len() == n,
            forall|k: int| 0 <= k < n ==> #[trigger] symbols[k] == sd_symbol(uinfo, bar, k),
        decreases count - n,
    {
        symbols.push(
            Codeword {
                ucode: if n % 3 == 1 {
                    0
                } else {
                    w
                },
                positive: (n % 6 < 3) != bar,
            },
        );
        n += 1;
    }
    symbols
}

/// R, or R̄ when `bar`, on the Ucode of each data frame interval.
#[must_use]
pub fn r(ucodes: [u8; 6], bar: bool, symbols: usize) -> (out: Vec<Codeword>)
    ensures
        out.len() == symbols,
        forall|n: int|
            0 <= n < symbols ==> #[trigger] out[n] == (Codeword {
                ucode: ucodes[n % 6],
                positive: alternating(n, bar),
            }),
{
    let mut out: Vec<Codeword> = Vec::new();
    let mut n: usize = 0;
    while n < symbols
        invariant
            n <= symbols,
            out.len() == n,
            forall|k: int|
                0 <= k < n ==> #[trigger] out[k] == (Codeword {
                    ucode: ucodes[k % 6],
                    positive: alternating(k, bar),
                }),
        decreases symbols - n,
    {
        out.push(Codeword { ucode: ucodes[n % 6], positive: (n % 6 < 3) != bar });
        n += 1;
    }
    out
}

/// The scrambler of the sign modulation, and the last sign.
pub struct Signing {
    pub scrambling: Scrambling,
    pub last: bool,
}

impl Signing {
    /// The sign for `bit`: the scrambled bit turns the last sign.
    pub open spec fn sign(self, bit: bool) -> bool {
        self.last != self.scrambling.out(bit)
    }

    pub open spec fn after(self, bit: bool) -> Self {
        Self { scrambling: self.scrambling.after(bit), last: self.sign(bit) }
    }

    /// TRN1d is a scrambled one itself.
    pub open spec fn after_trn(self) -> Self {
        Self { scrambling: self.scrambling.after(true), last: self.scrambling.out(true) }
    }
}

/// After the first `n` of `bits`.
pub open spec fn signing_after(signing: Signing, bits: Seq<bool>, n: int) -> Signing
    decreases n,
{
    if n <= 0 {
        signing
    } else {
        signing_after(signing, bits, n - 1).after(bits[n - 1])
    }
}

/// TRN1d, then Jd and Jd′, as signs of UINFO from the scrambler of the
/// digital modem.
#[derive(Debug)]
pub struct Signs {
    uinfo: u8,
    scrambler: Scrambler,
    last: bool,
}

impl View for Signs {
    type V = Signing;

    closed spec fn view(&self) -> Signing {
        Signing { scrambling: self.scrambler@, last: self.last }
    }
}

impl Signs {
    pub closed spec fn uinfo(self) -> u8 {
        self.uinfo
    }

    /// For TRN1d, which starts the scrambler at zero.
    #[must_use]
    pub fn new(uinfo: u8) -> (signs: Self)
        ensures
            signs.uinfo() == uinfo,
            signs@.scrambling == Scrambling::fresh(Polynomial::V34Call),
            signs@.scrambling.valid(),
            !signs@.last,
    {
        Self { uinfo, scrambler: Scrambler::with(Polynomial::V34_CALL), last: false }
    }

    /// One symbol of TRN1d: a scrambled one.
    pub fn trn(&mut self) -> (symbol: Codeword)
        requires
            old(self)@.scrambling.valid(),
        ensures
            final(self)@ == old(self)@.after_trn(),
            final(self)@.scrambling.valid(),
            final(self).uinfo() == old(self).uinfo(),
            symbol == (Codeword { ucode: old(self).uinfo(), positive: final(self)@.last }),
    {
        self.last = self.scrambler.scramble(true);
        Codeword { ucode: self.uinfo, positive: self.last }
    }

    /// The symbols of `bits`, scrambled and differentially encoded from the
    /// last symbol.
    pub fn sequence(&mut self, bits: &[bool]) -> (symbols: Vec<Codeword>)
        requires
            old(self)@.scrambling.valid(),
        ensures
            final(self)@ == signing_after(old(self)@, bits@, bits.len() as int),
            final(self)@.scrambling.valid(),
            final(self).uinfo() == old(self).uinfo(),
            symbols.len() == bits.len(),
            forall|n: int|
                0 <= n < bits.len() ==> #[trigger] symbols[n] == (Codeword {
                    ucode: old(self).uinfo(),
                    positive: signing_after(old(self)@, bits@, n).sign(bits[n]),
                }),
    {
        let ghost before = self@;
        let mut symbols: Vec<Codeword> = Vec::new();
        let mut n: usize = 0;
        while n < bits.len()
            invariant
                n <= bits.len(),
                before == old(self)@,
                self@.scrambling.valid(),
                self.uinfo == old(self).uinfo,
                self@ == signing_after(before, bits@, n as int),
                symbols.len() == n,
                forall|k: int|
                    0 <= k < n ==> #[trigger] symbols[k] == (Codeword {
                        ucode: old(self).uinfo,
                        positive: signing_after(before, bits@, k).sign(bits[k]),
                    }),
            decreases bits.len() - n,
        {
            let turn = self.scrambler.scramble(bits[n]);
            self.last = self.last != turn;
            symbols.push(Codeword { ucode: self.uinfo, positive: self.last });
            n += 1;
        }
        symbols
    }
}

/// Reads the bits of Jd and Jd′ back from the signs of the symbols.
#[derive(Debug)]
pub struct SignReader {
    descrambler: Descrambler,
    last: bool,
}

impl Default for SignReader {
    fn default() -> (reader: Self)
        ensures
            reader.valid(),
            !reader.last(),
            reader.history() == Seq::new(23, |i: int| false),
    {
        Self { descrambler: Descrambler::with(Polynomial::V34_CALL), last: false }
    }
}

impl SignReader {
    pub closed spec fn last(self) -> bool {
        self.last
    }

    /// What its descrambler remembers.
    pub closed spec fn history(self) -> Seq<bool> {
        self.descrambler.history()
    }

    pub closed spec fn valid(self) -> bool {
        self.descrambler.valid() && self.descrambler.polynomial() == Polynomial::V34Call
    }

    /// A symbol of TRN1d, whose sign is the scrambled bit itself. It gives
    /// back the descrambled bit, a one unless the sign was wrong.
    pub fn trn(&mut self, positive: bool) -> (bit: bool)
        requires
            old(self).valid(),
        ensures
            final(self).valid(),
            final(self).last() == positive,
            final(self).history() == Polynomial::V34Call.shift(old(self).history(), positive),
            bit == (positive != Polynomial::V34Call.taps(old(self).history())),
    {
        self.last = positive;
        self.descrambler.descramble(positive)
    }

    /// A symbol of Jd or Jd′, and the bit it carries.
    pub fn push(&mut self, positive: bool) -> (bit: bool)
        requires
            old(self).valid(),
        ensures
            final(self).valid(),
            final(self).last() == positive,
            final(self).history() == Polynomial::V34Call.shift(
                old(self).history(),
                positive != old(self).last(),
            ),
            bit == ((positive != old(self).last()) != Polynomial::V34Call.taps(
                old(self).history(),
            )),
    {
        let turn = positive != self.last;
        self.last = positive;
        self.descrambler.descramble(turn)
    }
}

/// A reader that remembers what the scrambler does, and the last sign, reads
/// each bit back from its sign, and goes on remembering the same.
pub proof fn law_reads_signs_back(signing: Signing, bit: bool)
    requires
        signing.scrambling.valid(),
        signing.scrambling.polynomial == Polynomial::V34Call,
        !signing.scrambling.guard,
    ensures
        ({
            let turn = signing.sign(bit) != signing.last;
            &&& (turn != Polynomial::V34Call.taps(signing.scrambling.history)) == bit
            &&& Polynomial::V34Call.shift(signing.scrambling.history, turn) == signing.after(
                bit,
            ).scrambling.history
        }),
{
}

/// In TRN1d too, whose signs are the scrambled ones themselves.
pub proof fn law_reads_trn1d_as_ones(signing: Signing)
    requires
        signing.scrambling.valid(),
        signing.scrambling.polynomial == Polynomial::V34Call,
        !signing.scrambling.guard,
    ensures
        ({
            let sign = signing.after_trn().last;
            &&& sign != Polynomial::V34Call.taps(signing.scrambling.history)
            &&& Polynomial::V34Call.shift(signing.scrambling.history, sign)
                == signing.after_trn().scrambling.history
        }),
{
}

/// Three symbols of one sign, then three of the other, positive first or,
/// with a bar, negative first. Of Sd every middle one of three is Ucode 0,
/// and the others 16 above UINFO, up to 127.
pub proof fn law_signs_alternate_by_threes(n: int, bar: bool, uinfo: u8)
    ensures
        alternating(6 * n, false) && alternating(6 * n + 1, false) && alternating(6 * n + 2, false),
        alternating(n + 3, bar) == !alternating(n, bar),
        alternating(n, true) == !alternating(n, false),
        sd_symbol(uinfo, bar, n).positive == alternating(n, bar),
        sd_symbol(uinfo, bar, 3 * n + 1).ucode == 0,
        uinfo <= 111 ==> sd_symbol(uinfo, bar, 3 * n).ucode == uinfo + 16 && sd_symbol(uinfo, bar, 3 * n + 2).ucode
            == uinfo + 16,
        uinfo > 111 ==> sd_symbol(uinfo, bar, 3 * n).ucode == 127 && sd_symbol(uinfo, bar, 3 * n + 2).ucode == 127,
{
}

/// In Jd a scrambled 1 turns the sign over and a scrambled 0 keeps it, and in
/// TRN1d the sign is the scrambled bit.
pub proof fn law_scrambled_ones_turn_the_sign(signing: Signing, bits: Seq<bool>, n: int, bit: bool)
    requires
        0 <= n < bits.len(),
    ensures
        signing.scrambling.out(bit) ==> signing.sign(bit) == !signing.last,
        !signing.scrambling.out(bit) ==> signing.sign(bit) == signing.last,
        signing.after(bit).last == signing.sign(bit),
        signing.after(bit).scrambling == signing.scrambling.after(bit),
        signing.after_trn().last == signing.scrambling.out(true),
        signing.after_trn().scrambling == signing.scrambling.after(true),
        signing_after(signing, bits, 0) == signing,
        signing_after(signing, bits, n + 1).last == signing_after(signing, bits, n).sign(bits[n]),
        signing_after(signing, bits, n + 1).scrambling == signing_after(signing, bits, n).scrambling.after(bits[n]),
{
}

/// How long each signal lasts, in symbols.
pub proof fn law_how_long_each_signal_lasts()
    ensures
        SD_SYMBOLS == 64 * 6 && SD_BAR_SYMBOLS == 8 * 6,
        TRN1D_SYMBOLS == 2040,
        JD_PRIME_BITS == 12,
        RI_SYMBOLS == 192 && R_BAR_SYMBOLS == 24,
{
}

} // verus!

//! V.90: the digital modem, which sends PCM codewords down, and the
//! analogue modem, which receives them and sends V.34 up.

pub mod analogue;
pub mod call;
pub mod carrying;
pub mod cp;
pub mod design;
pub mod digital;
pub mod dil;
pub mod downstream;
pub mod encoder;
pub mod fallback;
pub mod frames;
pub mod info;
pub mod jd;
pub mod levels;
pub mod listener;
pub mod run;
pub mod samples;
pub mod tally;
pub mod training;
pub mod ucode;
pub mod upstream;

use crate::v90::ucode::{signed, spec_signed, Law, COUNT};
use vstd::prelude::*;

verus! {

/// One PCM symbol: a Ucode and its sign.
#[derive(Debug, Clone, Copy, PartialEq, Eq, Structural)]
pub struct Codeword {
    pub ucode: u8,
    pub positive: bool,
}

impl Codeword {
    /// Ucode 0, the codeword nearest to no signal.
    pub open spec fn spec_silence() -> Self {
        Self { ucode: 0, positive: true }
    }

    /// Ucode 0, the codeword nearest to no signal.
    #[must_use]
    pub fn silence() -> (codeword: Self)
        ensures
            codeword == Self::spec_silence(),
    {
        Self { ucode: 0, positive: true }
    }

    /// The linear sample that the codec turns back into this codeword.
    #[must_use]
    pub fn linear(self, law: Law) -> (sample: i16)
        requires
            self.ucode < COUNT,
        ensures
            sample == spec_signed(self.ucode as int, self.positive, law),
    {
        signed(self.ucode, self.positive, law)
    }
}

} // verus!

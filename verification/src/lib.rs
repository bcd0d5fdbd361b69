//! The signal processing of a soft modem over linear 8 kHz samples, as far as
//! it is exact: scramblers, framing, mapping, and the state machines that
//! start a call up. No IO.

pub mod ansam;
pub mod automode;
pub mod carrier;
pub mod dpsk;
pub mod dtmf;
pub mod echo;
pub mod pump;
pub mod qam;
pub mod scrambler;
pub mod uart;
pub mod v21;
pub mod v22;
pub mod v22bis;
pub mod v8;
pub mod v8bis;
pub mod v34;
pub mod v90;

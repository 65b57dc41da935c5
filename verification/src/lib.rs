//! A verified parser for the Linux `candump` capture-line format.
//!
//! One line of capture text such as
//! `(0000000000.100000) vcan0 211#616C75653A353131`
//! holds a timestamp, an interface name, an arbitration identifier and a
//! hexadecimal payload.  [`parser`] builds a [`CandumpParser`] whose
//! [`CandumpParser::parse`] method turns one such line into a
//! [`CandumpFrame`] or a [`ParseError`], exactly as the
//! specification-level grammar [`grammar::parse_line`] says.

pub mod chars;
pub mod frame;
pub mod grammar;
pub mod laws;
pub mod parse;

pub use frame::CandumpFrame;
pub use frame::Expected;
pub use frame::FrameModel;
pub use frame::ParseError;
pub use frame::Timestamp;
pub use parse::CandumpParser;
pub use parse::parser;

//! The frame record a parsed capture line yields, its specification-level
//! model, and the errors a malformed line is rejected with.

use vstd::prelude::*;

verus! {

/// How long after the capture epoch a frame was seen: whole seconds plus a
/// sub-second part held in nanoseconds, always below one second.
#[derive(Clone, Copy, Debug, PartialEq, Eq, Structural)]
pub struct Timestamp {
    secs: u64,
    nanos: u32,
}

impl Timestamp {
    /// The whole-seconds part, as specification code sees it.
    pub closed spec fn spec_secs(&self) -> u64 {
        self.secs
    }

    /// The sub-second part in nanoseconds, as specification code sees it.
    pub closed spec fn spec_nanos(&self) -> u32 {
        self.nanos
    }

    /// The sub-second part never reaches a whole second.
    pub open spec fn wf(&self) -> bool {
        self.spec_nanos() < 1_000_000_000
    }

    /// Build a timestamp from whole seconds and sub-second nanoseconds.
    pub fn new(secs: u64, nanos: u32) -> (t: Timestamp)
        requires
            nanos < 1_000_000_000,
        ensures
            t.spec_secs() == secs,
            t.spec_nanos() == nanos,
            t.wf(),
    {
        Timestamp { secs, nanos }
    }

    /// The whole-seconds part.
    pub fn as_secs(&self) -> (r: u64)
        ensures
            r == self.spec_secs(),
    {
        self.secs
    }

    /// The sub-second part in nanoseconds.
    pub fn subsec_nanos(&self) -> (r: u32)
        ensures
            r == self.spec_nanos(),
    {
        self.nanos
    }

    /// The sub-second part in whole microseconds.
    pub fn subsec_micros(&self) -> (r: u32)
        ensures
            r == self.spec_nanos() / 1000,
    {
        self.nanos / 1000
    }

    /// The sub-second part in whole milliseconds.
    pub fn subsec_millis(&self) -> (r: u32)
        ensures
            r == self.spec_nanos() / 1_000_000,
    {
        self.nanos / 1_000_000
    }
}

/// One frame of the Linux `candump` file format.
///
/// A value of this type is only ever produced by a successful parse of one
/// capture line, for example:
///
/// ```text
/// (0000000000.000000) vcan0 211#616C75653A353131
/// (0000000000.000000) vcan0 212#0D0A4104
/// ```
#[derive(Debug, PartialEq, Eq)]
pub struct CandumpFrame {
    /// When the frame was captured.
    pub timestamp: Timestamp,
    /// The name of the interface the frame was captured on.
    pub interface: String,
    /// The arbitration identifier.
    pub id: u32,
    /// The payload bytes, in input order.
    pub data: Vec<u8>,
}

/// The mathematical model of a [`CandumpFrame`].
pub ghost struct FrameModel {
    /// Whole seconds of the timestamp.
    pub secs: u64,
    /// Sub-second nanoseconds of the timestamp.
    pub nanos: u32,
    /// The interface name, as a sequence of characters.
    pub interface: Seq<char>,
    /// The arbitration identifier.
    pub id: u32,
    /// The payload bytes.
    pub data: Seq<u8>,
}

impl View for CandumpFrame {
    type V = FrameModel;

    open spec fn view(&self) -> FrameModel {
        FrameModel {
            secs: self.timestamp.spec_secs(),
            nanos: self.timestamp.spec_nanos(),
            interface: self.interface@,
            id: self.id,
            data: self.data@,
        }
    }
}

impl CandumpFrame {
    /// The timestamp of a parsed frame keeps its sub-second part below one
    /// second.
    pub open spec fn wf(&self) -> bool {
        self.timestamp.wf()
    }
}

/// The token class a [`ParseError::SyntaxError`] was waiting for when the
/// input broke off or showed something else.
#[derive(Clone, Copy, Debug, PartialEq, Eq, Structural)]
pub enum Expected {
    /// The opening parenthesis of the timestamp.
    OpenParen,
    /// A decimal digit of the whole-seconds field.
    Digit,
    /// The dot between whole seconds and the fraction.
    Dot,
    /// The closing parenthesis of the timestamp.
    CloseParen,
    /// The single space between two fields.
    Space,
    /// The first character of the interface name.
    Ident,
    /// A hexadecimal digit of the arbitration identifier.
    HexDigit,
    /// The `#` between the arbitration identifier and the payload.
    Hash,
}

/// Why a capture line was rejected.  Every malformed line yields exactly
/// one of these; no input makes the parser panic.
#[derive(Clone, Copy, Debug, PartialEq, Eq, Structural)]
pub enum ParseError {
    /// The grammar was broken at character offset `offset`, where
    /// `expected` should have stood.
    SyntaxError { offset: usize, expected: Expected },
    /// The fractional-seconds field did not hold exactly six digits.
    PrecisionError,
    /// A numeric field was too large: the arbitration identifier does not
    /// fit in 32 bits, or the whole-seconds field does not fit in 64 bits.
    OverflowError,
    /// The payload held an odd number of hexadecimal digits.
    PayloadLengthError,
    /// Characters were left over after the payload.
    TrailingInputError,
}

} // verus!

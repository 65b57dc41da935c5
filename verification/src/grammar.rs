//! The specification-level grammar of one capture line.
//!
//! [`parse_line`] is the mathematical meaning of a parse: it consumes the
//! line strictly left to right, field by field, each field a maximal run
//! ended by an unambiguous delimiter, and yields either the model of the
//! frame the line encodes or the error the line is rejected with.  The
//! executable parser promises to return exactly what this function says.

use vstd::prelude::*;

use crate::chars::dec_end;
use crate::chars::dec_value;
use crate::chars::hex_bytes;
use crate::chars::hex_end;
use crate::chars::hex_value;
use crate::chars::ident_end;
use crate::chars::is_ident_start;
use crate::frame::Expected;
use crate::frame::FrameModel;
use crate::frame::ParseError;

verus! {

/// A line is taken with or without its line ending: one trailing `"\n"`
/// or `"\r\n"` is ignored, nothing else is.
pub open spec fn strip_newline(s: Seq<char>) -> Seq<char> {
    if s.len() > 0 && s.last() == '\n' {
        if s.len() > 1 && s[s.len() - 2] == '\r' {
            s.take(s.len() - 2)
        } else {
            s.take(s.len() - 1)
        }
    } else {
        s
    }
}

/// What parsing the capture line `s0` yields.
///
/// The line must read, left to right: `'('`, one or more decimal digits of
/// whole seconds (their value must fit in 64 bits), `'.'`, exactly six
/// decimal digits of microseconds, `')'`, a space, a non-empty interface
/// name, a space, one or more hexadecimal digits of the arbitration
/// identifier (their value must fit in 32 bits, the digit count itself is
/// not bounded), `'#'`, and an even number of hexadecimal payload digits
/// reaching the end of the line.  Each numeric run is maximal, so the
/// first character after it decides whether the expected delimiter stands
/// there.
pub open spec fn parse_line(s0: Seq<char>) -> Result<FrameModel, ParseError> {
    let s = strip_newline(s0);
    if s.len() == 0 || s[0] != '(' {
        Err(ParseError::SyntaxError { offset: 0, expected: Expected::OpenParen })
    } else {
        let se = dec_end(s, 1);
        if se == 1 {
            Err(ParseError::SyntaxError { offset: 1, expected: Expected::Digit })
        } else if dec_value(s.subrange(1, se)) > u64::MAX {
            Err(ParseError::OverflowError)
        } else if se == s.len() || s[se] != '.' {
            Err(ParseError::SyntaxError { offset: se as usize, expected: Expected::Dot })
        } else {
            let fe = dec_end(s, se + 1);
            if fe - (se + 1) != 6 {
                Err(ParseError::PrecisionError)
            } else if fe == s.len() || s[fe] != ')' {
                Err(ParseError::SyntaxError { offset: fe as usize, expected: Expected::CloseParen })
            } else if fe + 1 == s.len() || s[fe + 1] != ' ' {
                Err(
                    ParseError::SyntaxError {
                        offset: (fe + 1) as usize,
                        expected: Expected::Space,
                    },
                )
            } else if fe + 2 == s.len() || !is_ident_start(s[fe + 2]) {
                Err(
                    ParseError::SyntaxError {
                        offset: (fe + 2) as usize,
                        expected: Expected::Ident,
                    },
                )
            } else {
                let ie = ident_end(s, fe + 3);
                if ie == s.len() || s[ie] != ' ' {
                    Err(
                        ParseError::SyntaxError {
                            offset: ie as usize,
                            expected: Expected::Space,
                        },
                    )
                } else {
                    let he = hex_end(s, ie + 1);
                    if he == ie + 1 {
                        Err(
                            ParseError::SyntaxError {
                                offset: (ie + 1) as usize,
                                expected: Expected::HexDigit,
                            },
                        )
                    } else if hex_value(s.subrange(ie + 1, he)) > u32::MAX {
                        Err(ParseError::OverflowError)
                    } else if he == s.len() || s[he] != '#' {
                        Err(
                            ParseError::SyntaxError {
                                offset: he as usize,
                                expected: Expected::Hash,
                            },
                        )
                    } else {
                        let de = hex_end(s, he + 1);
                        if (de - (he + 1)) % 2 != 0 {
                            Err(ParseError::PayloadLengthError)
                        } else if de != s.len() {
                            Err(ParseError::TrailingInputError)
                        } else {
                            Ok(
                                FrameModel {
                                    secs: dec_value(s.subrange(1, se)) as u64,
                                    nanos: (dec_value(s.subrange(se + 1, fe)) * 1000) as u32,
                                    interface: s.subrange(fe + 2, ie),
                                    id: hex_value(s.subrange(ie + 1, he)) as u32,
                                    data: hex_bytes(s.subrange(he + 1, de)),
                                },
                            )
                        }
                    }
                }
            }
        }
    }
}

} // verus!

//! The executable parser: one capture line in, a [`CandumpFrame`] or a
//! [`ParseError`] out, exactly as [`parse_line`] says.

use vstd::prelude::*;
use vstd::string::StrSliceExecFns;

use crate::chars::dec_digit_val;
use crate::chars::dec_end;
use crate::chars::dec_value;
use crate::chars::hex_bytes;
use crate::chars::hex_digit_val;
use crate::chars::hex_end;
use crate::chars::hex_value;
use crate::chars::ident_end;
use crate::chars::is_dec_digit;
use crate::chars::is_hex_digit;
use crate::chars::is_ident_char;
use crate::chars::is_ident_start;
use crate::chars::lemma_dec_end;
use crate::chars::lemma_dec_value_bound;
use crate::chars::lemma_dec_value_take_mono;
use crate::chars::lemma_hex_end;
use crate::chars::lemma_hex_value_take_mono;
use crate::chars::pow10;
use crate::frame::CandumpFrame;
use crate::frame::Expected;
use crate::frame::ParseError;
use crate::frame::Timestamp;
use crate::grammar::parse_line;
use crate::grammar::strip_newline;

verus! {

/// Whether `c` is a decimal digit.
fn dec_digit(c: char) -> (b: bool)
    ensures
        b == is_dec_digit(c),
{
    let u: u32 = c as u32;
    48 <= u && u <= 57
}

/// Whether `c` is a hexadecimal digit.
fn hex_digit(c: char) -> (b: bool)
    ensures
        b == is_hex_digit(c),
{
    let u: u32 = c as u32;
    (48 <= u && u <= 57) || (97 <= u && u <= 102) || (65 <= u && u <= 70)
}

/// Whether `c` may open an interface name.
fn ident_start(c: char) -> (b: bool)
    ensures
        b == is_ident_start(c),
{
    let u: u32 = c as u32;
    (97 <= u && u <= 122) || (65 <= u && u <= 90) || u == 95
}

/// Whether `c` may continue an interface name.
fn ident_char(c: char) -> (b: bool)
    ensures
        b == is_ident_char(c),
{
    ident_start(c) || dec_digit(c)
}

/// The value of the decimal digit `c`.
fn dec_val(c: char) -> (v: u8)
    requires
        is_dec_digit(c),
    ensures
        v as nat == dec_digit_val(c),
        v < 10,
{
    (c as u32 - 48) as u8
}

/// The value of the hexadecimal digit `c`.
fn hex_val(c: char) -> (v: u8)
    requires
        is_hex_digit(c),
    ensures
        v as nat == hex_digit_val(c),
        v < 16,
{
    let u: u32 = c as u32;
    if u <= 57 {
        (u - 48) as u8
    } else if u >= 97 {
        (u - 97 + 10) as u8
    } else {
        (u - 65 + 10) as u8
    }
}

/// Scan the maximal run of decimal digits of `s` that starts at `from`,
/// never looking past `m`.
fn scan_dec(s: &str, from: usize, m: usize) -> (r: usize)
    requires
        from <= m <= s@.len(),
    ensures
        from <= r <= m,
        r == dec_end(s@.take(m as int), from as int),
{
    let mut i: usize = from;
    loop
        invariant
            from <= i <= m <= s@.len(),
            dec_end(s@.take(m as int), from as int) == dec_end(s@.take(m as int), i as int),
        ensures
            from <= i <= m,
            dec_end(s@.take(m as int), from as int) == i,
        decreases m - i,
    {
        if i >= m {
            break ;
        }
        let c = s.get_char(i);
        proof {
            assert(s@.take(m as int)[i as int] == s@[i as int]);
        }
        if !dec_digit(c) {
            break ;
        }
        i = i + 1;
    }
    i
}

/// Scan the maximal run of hexadecimal digits of `s` that starts at
/// `from`, never looking past `m`.
fn scan_hex(s: &str, from: usize, m: usize) -> (r: usize)
    requires
        from <= m <= s@.len(),
    ensures
        from <= r <= m,
        r == hex_end(s@.take(m as int), from as int),
{
    let mut i: usize = from;
    loop
        invariant
            from <= i <= m <= s@.len(),
            hex_end(s@.take(m as int), from as int) == hex_end(s@.take(m as int), i as int),
        ensures
            from <= i <= m,
            hex_end(s@.take(m as int), from as int) == i,
        decreases m - i,
    {
        if i >= m {
            break ;
        }
        let c = s.get_char(i);
        proof {
            assert(s@.take(m as int)[i as int] == s@[i as int]);
        }
        if !hex_digit(c) {
            break ;
        }
        i = i + 1;
    }
    i
}

/// Scan the maximal run of identifier characters of `s` that starts at
/// `from`, never looking past `m`.
fn scan_ident(s: &str, from: usize, m: usize) -> (r: usize)
    requires
        from <= m <= s@.len(),
    ensures
        from <= r <= m,
        r == ident_end(s@.take(m as int), from as int),
{
    let mut i: usize = from;
    loop
        invariant
            from <= i <= m <= s@.len(),
            ident_end(s@.take(m as int), from as int) == ident_end(s@.take(m as int), i as int),
        ensures
            from <= i <= m,
            ident_end(s@.take(m as int), from as int) == i,
        decreases m - i,
    {
        if i >= m {
            break ;
        }
        let c = s.get_char(i);
        proof {
            assert(s@.take(m as int)[i as int] == s@[i as int]);
        }
        if !ident_char(c) {
            break ;
        }
        i = i + 1;
    }
    i
}

/// Read the decimal digits `s[from..to)` as an unsigned integer, or
/// report that their value does not fit in 64 bits.
fn parse_dec_u64(s: &str, from: usize, to: usize) -> (r: Option<u64>)
    requires
        from <= to <= s@.len(),
        forall|k: int| from <= k < to ==> is_dec_digit(s@[k]),
    ensures
        match r {
            Some(x) => x as nat == dec_value(s@.subrange(from as int, to as int)),
            None => dec_value(s@.subrange(from as int, to as int)) > u64::MAX,
        },
{
    let mut acc: u64 = 0;
    let mut i: usize = from;
    while i < to
        invariant
            from <= i <= to <= s@.len(),
            forall|k: int| from <= k < to ==> is_dec_digit(s@[k]),
            acc as nat == dec_value(s@.subrange(from as int, i as int)),
        decreases to - i,
    {
        let c = s.get_char(i);
        let d = dec_val(c);
        proof {
            assert(s@.subrange(from as int, i as int + 1).drop_last() =~= s@.subrange(
                from as int,
                i as int,
            ));
            assert(s@.subrange(from as int, i as int + 1).last() == s@[i as int]);
        }
        let next: Option<u64> = match acc.checked_mul(10) {
            Some(p) => p.checked_add(d as u64),
            None => None,
        };
        match next {
            Some(x) => {
                acc = x;
                i = i + 1;
            },
            None => {
                proof {
                    let whole = s@.subrange(from as int, to as int);
                    assert(whole.take(i as int + 1 - from) =~= s@.subrange(
                        from as int,
                        i as int + 1,
                    ));
                    lemma_dec_value_take_mono(whole, i as int + 1 - from);
                }
                return None;
            },
        }
    }
    Some(acc)
}

/// Read the hexadecimal digits `s[from..to)` as an unsigned integer, or
/// report that their value does not fit in 32 bits.
fn parse_hex_u32(s: &str, from: usize, to: usize) -> (r: Option<u32>)
    requires
        from <= to <= s@.len(),
        forall|k: int| from <= k < to ==> is_hex_digit(s@[k]),
    ensures
        match r {
            Some(x) => x as nat == hex_value(s@.subrange(from as int, to as int)),
            None => hex_value(s@.subrange(from as int, to as int)) > u32::MAX,
        },
{
    let mut acc: u32 = 0;
    let mut i: usize = from;
    while i < to
        invariant
            from <= i <= to <= s@.len(),
            forall|k: int| from <= k < to ==> is_hex_digit(s@[k]),
            acc as nat == hex_value(s@.subrange(from as int, i as int)),
        decreases to - i,
    {
        let c = s.get_char(i);
        let d = hex_val(c);
        proof {
            assert(s@.subrange(from as int, i as int + 1).drop_last() =~= s@.subrange(
                from as int,
                i as int,
            ));
            assert(s@.subrange(from as int, i as int + 1).last() == s@[i as int]);
        }
        let next: Option<u32> = match acc.checked_mul(16) {
            Some(p) => p.checked_add(d as u32),
            None => None,
        };
        match next {
            Some(x) => {
                acc = x;
                i = i + 1;
            },
            None => {
                proof {
                    let whole = s@.subrange(from as int, to as int);
                    assert(whole.take(i as int + 1 - from) =~= s@.subrange(
                        from as int,
                        i as int + 1,
                    ));
                    lemma_hex_value_take_mono(whole, i as int + 1 - from);
                }
                return None;
            },
        }
    }
    Some(acc)
}

/// Decode the even-length run of hexadecimal digits `s[from..to)` into
/// bytes, one byte per pair of digits, most significant nibble first.
fn decode_hex(s: &str, from: usize, to: usize) -> (out: Vec<u8>)
    requires
        from <= to <= s@.len(),
        (to - from) % 2 == 0,
        forall|k: int| from <= k < to ==> is_hex_digit(s@[k]),
    ensures
        out@ == hex_bytes(s@.subrange(from as int, to as int)),
{
    let mut out: Vec<u8> = Vec::new();
    let mut i: usize = from;
    while i < to
        invariant
            from <= i <= to <= s@.len(),
            (to - from) % 2 == 0,
            (i - from) % 2 == 0,
            forall|k: int| from <= k < to ==> is_hex_digit(s@[k]),
            out@.len() == (i - from) / 2,
            forall|j: int|
                0 <= j < out@.len() ==> out@[j] == (hex_digit_val(s@[from + 2 * j]) * 16
                    + hex_digit_val(s@[from + 2 * j + 1])) as u8,
        decreases to - i,
    {
        assert(i + 1 < to);
        let hi = hex_val(s.get_char(i));
        let lo = hex_val(s.get_char(i + 1));
        out.push(hi * 16 + lo);
        i = i + 2;
    }
    proof {
        let whole = s@.subrange(from as int, to as int);
        assert(out@ =~= hex_bytes(whole));
    }
    out
}

/// A grammar object for capture lines.  It holds no state: one value may
/// be shared and used for any number of parses.
#[derive(Clone, Copy, Debug, PartialEq, Eq, Structural)]
pub struct CandumpParser;

/// Build the parser for the `candump` capture-line format.
pub fn parser() -> (p: CandumpParser) {
    CandumpParser
}

impl CandumpParser {
    /// Parse one capture line.
    ///
    /// Any input is accepted, with or without a trailing line ending; the
    /// result — frame or error — is exactly what the specification-level
    /// grammar [`parse_line`] assigns to the line, so no two parses of
    /// equal lines can disagree, and no input panics.
    #[verifier::rlimit(100)]
    pub fn parse(&self, input: &str) -> (r: Result<CandumpFrame, ParseError>)
        ensures
            match (r, parse_line(input@)) {
                (Ok(f), Ok(model)) => f@ == model && f.wf(),
                (Err(e), Err(spec_e)) => e == spec_e,
                _ => false,
            },
    {
        let n: usize = input.unicode_len();
        let m: usize;
        if n > 0 && input.get_char(n - 1) == '\n' {
            if n > 1 && input.get_char(n - 2) == '\r' {
                m = n - 2;
            } else {
                m = n - 1;
            }
        } else {
            m = n;
        }
        let ghost t = input@.take(m as int);
        proof {
            assert(t =~= strip_newline(input@));
        }

        // "(" then the whole-seconds digits.
        if m == 0 || input.get_char(0) != '(' {
            return Err(ParseError::SyntaxError { offset: 0, expected: Expected::OpenParen });
        }
        let se = scan_dec(input, 1, m);
        if se == 1 {
            return Err(ParseError::SyntaxError { offset: 1, expected: Expected::Digit });
        }
        proof {
            lemma_dec_end(t, 1);
            assert forall|k: int| 1 <= k < se as int implies is_dec_digit(input@[k]) by {
                assert(t[k] == input@[k]);
            }
            assert(input@.subrange(1, se as int) =~= t.subrange(1, se as int));
        }
        let secs: u64 = match parse_dec_u64(input, 1, se) {
            Some(v) => v,
            None => { return Err(ParseError::OverflowError) },
        };

        // "." then exactly six fraction digits.
        if se == m || input.get_char(se) != '.' {
            return Err(ParseError::SyntaxError { offset: se, expected: Expected::Dot });
        }
        let fe = scan_dec(input, se + 1, m);
        if fe - (se + 1) != 6 {
            return Err(ParseError::PrecisionError);
        }
        proof {
            lemma_dec_end(t, se as int + 1);
            assert forall|k: int| se as int + 1 <= k < fe as int implies is_dec_digit(
                input@[k],
            ) by {
                assert(t[k] == input@[k]);
            }
            assert(input@.subrange(se as int + 1, fe as int) =~= t.subrange(
                se as int + 1,
                fe as int,
            ));
        }
        let frac: u64 = match parse_dec_u64(input, se + 1, fe) {
            Some(v) => v,
            None => {
                proof {
                    lemma_dec_value_bound(input@.subrange(se as int + 1, fe as int));
                    reveal_with_fuel(pow10, 7);
                }
                return Err(ParseError::PrecisionError);
            },
        };
        proof {
            lemma_dec_value_bound(input@.subrange(se as int + 1, fe as int));
            reveal_with_fuel(pow10, 7);
            assert(frac < 1_000_000);
        }
        let nanos: u32 = (frac as u32) * 1000;

        // ")", a space, then the interface name.
        if fe == m || input.get_char(fe) != ')' {
            return Err(ParseError::SyntaxError { offset: fe, expected: Expected::CloseParen });
        }
        if fe + 1 == m || input.get_char(fe + 1) != ' ' {
            return Err(ParseError::SyntaxError { offset: fe + 1, expected: Expected::Space });
        }
        if fe + 2 == m || !ident_start(input.get_char(fe + 2)) {
            return Err(ParseError::SyntaxError { offset: fe + 2, expected: Expected::Ident });
        }
        let ie = scan_ident(input, fe + 3, m);
        if ie == m || input.get_char(ie) != ' ' {
            return Err(ParseError::SyntaxError { offset: ie, expected: Expected::Space });
        }
        let interface: String = input.substring_char(fe + 2, ie).to_owned();
        proof {
            assert(interface@ =~= t.subrange(fe as int + 2, ie as int));
        }

        // The arbitration identifier, then "#".
        let he = scan_hex(input, ie + 1, m);
        if he == ie + 1 {
            return Err(ParseError::SyntaxError { offset: ie + 1, expected: Expected::HexDigit });
        }
        proof {
            lemma_hex_end(t, ie as int + 1);
            assert forall|k: int| ie as int + 1 <= k < he as int implies is_hex_digit(
                input@[k],
            ) by {
                assert(t[k] == input@[k]);
            }
            assert(input@.subrange(ie as int + 1, he as int) =~= t.subrange(
                ie as int + 1,
                he as int,
            ));
        }
        let id: u32 = match parse_hex_u32(input, ie + 1, he) {
            Some(v) => v,
            None => { return Err(ParseError::OverflowError) },
        };
        if he == m || input.get_char(he) != '#' {
            return Err(ParseError::SyntaxError { offset: he, expected: Expected::Hash });
        }

        // The payload, which must reach the end of the line.
        let de = scan_hex(input, he + 1, m);
        if (de - (he + 1)) % 2 != 0 {
            return Err(ParseError::PayloadLengthError);
        }
        if de != m {
            return Err(ParseError::TrailingInputError);
        }
        proof {
            lemma_hex_end(t, he as int + 1);
            assert forall|k: int| he as int + 1 <= k < de as int implies is_hex_digit(
                input@[k],
            ) by {
                assert(t[k] == input@[k]);
            }
            assert(input@.subrange(he as int + 1, de as int) =~= t.subrange(
                he as int + 1,
                de as int,
            ));
        }
        let data = decode_hex(input, he + 1, de);
        Ok(
            CandumpFrame {
                timestamp: Timestamp::new(secs, nanos),
                interface,
                id,
                data,
            },
        )
    }
}

} // verus!

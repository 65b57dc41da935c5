//! What holds of parsing in general: a well-formed line always parses to
//! exactly the values it spells out, a line whose fraction, payload or
//! arbitration identifier is out of shape is rejected with the matching
//! error, a trailing line ending never changes the outcome, and parsing
//! the same line twice yields the same result.

use vstd::prelude::*;

use crate::chars::dec_end;
use crate::chars::dec_value;
use crate::chars::hex_bytes;
use crate::chars::hex_end;
use crate::chars::hex_value;
use crate::chars::ident_end;
use crate::chars::is_dec_digit;
use crate::chars::is_hex_digit;
use crate::chars::is_ident_char;
use crate::chars::is_ident_start;
use crate::chars::lemma_dec_end_is;
use crate::chars::lemma_hex_end_is;
use crate::chars::lemma_ident_end_is;
use crate::frame::FrameModel;
use crate::frame::ParseError;
use crate::grammar::parse_line;
use crate::grammar::strip_newline;

verus! {

/// A valid whole-seconds field: at least one decimal digit, value within
/// 64 bits.
pub open spec fn secs_field_ok(secs: Seq<char>) -> bool {
    &&& secs.len() >= 1
    &&& forall|k: int| 0 <= k < secs.len() ==> is_dec_digit(secs[k])
    &&& dec_value(secs) <= u64::MAX
}

/// A valid fractional-seconds field: exactly six decimal digits.
pub open spec fn frac_field_ok(frac: Seq<char>) -> bool {
    &&& frac.len() == 6
    &&& forall|k: int| 0 <= k < frac.len() ==> is_dec_digit(frac[k])
}

/// A valid interface name: non-empty, a letter or underscore first, then
/// letters, digits and underscores.
pub open spec fn iface_field_ok(iface: Seq<char>) -> bool {
    &&& iface.len() >= 1
    &&& is_ident_start(iface[0])
    &&& forall|k: int| 0 <= k < iface.len() ==> is_ident_char(iface[k])
}

/// A valid arbitration-identifier field: at least one hexadecimal digit,
/// value within 32 bits.
pub open spec fn id_field_ok(id: Seq<char>) -> bool {
    &&& id.len() >= 1
    &&& forall|k: int| 0 <= k < id.len() ==> is_hex_digit(id[k])
    &&& hex_value(id) <= u32::MAX
}

/// A valid payload field: an even number of hexadecimal digits.
pub open spec fn data_field_ok(data: Seq<char>) -> bool {
    &&& data.len() % 2 == 0
    &&& forall|k: int| 0 <= k < data.len() ==> is_hex_digit(data[k])
}

/// All five fields of a line are valid.
pub open spec fn fields_ok(
    secs: Seq<char>,
    frac: Seq<char>,
    iface: Seq<char>,
    id: Seq<char>,
    data: Seq<char>,
) -> bool {
    &&& secs_field_ok(secs)
    &&& frac_field_ok(frac)
    &&& iface_field_ok(iface)
    &&& id_field_ok(id)
    &&& data_field_ok(data)
}

/// The timestamp fields, the interface name and an arbitrary remainder,
/// laid out as the grammar demands up to the second space.
pub open spec fn line_with_tail(
    secs: Seq<char>,
    frac: Seq<char>,
    iface: Seq<char>,
    tail: Seq<char>,
) -> Seq<char> {
    seq!['('] + secs + seq!['.'] + frac + seq![')', ' '] + iface + seq![' '] + tail
}

/// A whole capture line spelled out field by field.
pub open spec fn frame_line(
    secs: Seq<char>,
    frac: Seq<char>,
    iface: Seq<char>,
    id: Seq<char>,
    data: Seq<char>,
) -> Seq<char> {
    line_with_tail(secs, frac, iface, id + seq!['#'] + data)
}

/// The model a well-formed line should parse to: each field exactly the
/// value it spells out.
pub open spec fn spelled_model(
    secs: Seq<char>,
    frac: Seq<char>,
    iface: Seq<char>,
    id: Seq<char>,
    data: Seq<char>,
) -> FrameModel {
    FrameModel {
        secs: dec_value(secs) as u64,
        nanos: (dec_value(frac) * 1000) as u32,
        interface: iface,
        id: hex_value(id) as u32,
        data: hex_bytes(data),
    }
}

/// Walks a `line_with_tail` layout up to the second space: no character
/// is a newline at the end, every delimiter stands where the grammar puts
/// it, every maximal run ends exactly at its field boundary, and every
/// field reads back out of the line unchanged.
proof fn lemma_tail_line_positions(
    secs: Seq<char>,
    frac: Seq<char>,
    iface: Seq<char>,
    tail: Seq<char>,
)
    requires
        secs_field_ok(secs),
        frac_field_ok(frac),
        iface_field_ok(iface),
        tail.len() > 0 ==> tail.last() != '\n',
    ensures
        ({
            let s = line_with_tail(secs, frac, iface, tail);
            let sl = secs.len() as int;
            let il = iface.len() as int;
            &&& s.len() == 11 + sl + il + tail.len()
            &&& strip_newline(s) == s
            &&& s[0] == '('
            &&& dec_end(s, 1) == 1 + sl
            &&& s.subrange(1, 1 + sl) == secs
            &&& s[1 + sl] == '.'
            &&& dec_end(s, 2 + sl) == 8 + sl
            &&& s.subrange(2 + sl, 8 + sl) == frac
            &&& s[8 + sl] == ')'
            &&& s[9 + sl] == ' '
            &&& s[10 + sl] == iface[0]
            &&& ident_end(s, 11 + sl) == 10 + sl + il
            &&& s.subrange(10 + sl, 10 + sl + il) == iface
            &&& s[10 + sl + il] == ' '
            &&& s.subrange(11 + sl + il, s.len() as int) == tail
            &&& forall|k: int|
                11 + sl + il <= k < s.len() ==> s[k] == tail[k - (11 + sl + il)]
        }),
{
    let s = line_with_tail(secs, frac, iface, tail);
    let sl = secs.len() as int;
    let il = iface.len() as int;
    assert(s.len() == 11 + sl + il + tail.len());
    assert(s[0] == '(');
    assert(forall|k: int| 1 <= k < 1 + sl ==> s[k] == secs[k - 1]);
    assert(s[1 + sl] == '.');
    assert(forall|k: int| 2 + sl <= k < 8 + sl ==> s[k] == frac[k - 2 - sl]);
    assert(s[8 + sl] == ')');
    assert(s[9 + sl] == ' ');
    assert(forall|k: int| 10 + sl <= k < 10 + sl + il ==> s[k] == iface[k - 10 - sl]);
    assert(s[10 + sl + il] == ' ');
    assert(forall|k: int| 11 + sl + il <= k < s.len() ==> s[k] == tail[k - (11 + sl + il)]);

    // The line never ends in a newline, so nothing is stripped.
    if tail.len() > 0 {
        assert(s.last() == tail.last());
    } else {
        assert(s.last() == ' ');
    }
    assert(strip_newline(s) == s);

    // Each maximal run stops exactly at the delimiter after its field.
    lemma_dec_end_is(s, 1, 1 + sl);
    assert(s.subrange(1, 1 + sl) =~= secs);
    lemma_dec_end_is(s, 2 + sl, 8 + sl);
    assert(s.subrange(2 + sl, 8 + sl) =~= frac);
    lemma_ident_end_is(s, 11 + sl, 10 + sl + il);
    assert(s.subrange(10 + sl, 10 + sl + il) =~= iface);
    assert(s.subrange(11 + sl + il, s.len() as int) =~= tail);
}

/// Every well-formed line parses, and every field of the resulting frame
/// equals the value literally encoded in the line.
pub proof fn lemma_well_formed_line_parses(
    secs: Seq<char>,
    frac: Seq<char>,
    iface: Seq<char>,
    id: Seq<char>,
    data: Seq<char>,
)
    requires
        fields_ok(secs, frac, iface, id, data),
    ensures
        parse_line(frame_line(secs, frac, iface, id, data)) == Ok::<FrameModel, ParseError>(
            spelled_model(secs, frac, iface, id, data),
        ),
{
    let tail = id + seq!['#'] + data;
    let s = frame_line(secs, frac, iface, id, data);
    let sl = secs.len() as int;
    let il = iface.len() as int;
    let idl = id.len() as int;
    let dl = data.len() as int;
    let ts = 11 + sl + il;
    assert(tail.len() == idl + 1 + dl);
    assert(forall|k: int| 0 <= k < idl ==> tail[k] == id[k]);
    assert(tail[idl] == '#');
    assert(forall|k: int| idl + 1 <= k < tail.len() ==> tail[k] == data[k - idl - 1]);
    if dl > 0 {
        assert(tail.last() == data.last());
    }
    lemma_tail_line_positions(secs, frac, iface, tail);

    // The arbitration identifier runs up to the '#'.
    lemma_hex_end_is(s, ts, ts + idl);
    assert(s.subrange(ts, ts + idl) =~= id);
    assert(s[ts + idl] == '#');

    // The payload runs up to the end of the line.
    lemma_hex_end_is(s, ts + idl + 1, s.len() as int);
    assert(s.subrange(ts + idl + 1, s.len() as int) =~= data);

    assert(parse_line(s) == Ok::<FrameModel, ParseError>(
        spelled_model(secs, frac, iface, id, data),
    ));
}

/// A line whose fractional-seconds field holds any number of digits other
/// than six — none at all included — is rejected with `PrecisionError`,
/// whatever follows the field.
pub proof fn lemma_wrong_precision_rejected(secs: Seq<char>, frac: Seq<char>, rest: Seq<char>)
    requires
        secs_field_ok(secs),
        forall|k: int| 0 <= k < frac.len() ==> is_dec_digit(frac[k]),
        frac.len() != 6,
        rest.len() > 0 ==> !is_dec_digit(rest[0]),
        rest.len() > 0 ==> rest.last() != '\n',
    ensures
        parse_line(seq!['('] + secs + seq!['.'] + frac + rest) == Err::<FrameModel, ParseError>(
            ParseError::PrecisionError,
        ),
{
    let s = seq!['('] + secs + seq!['.'] + frac + rest;
    let sl = secs.len() as int;
    let fl = frac.len() as int;
    assert(s.len() == 2 + sl + fl + rest.len());
    assert(s[0] == '(');
    assert(forall|k: int| 1 <= k < 1 + sl ==> s[k] == secs[k - 1]);
    assert(s[1 + sl] == '.');
    assert(forall|k: int| 2 + sl <= k < 2 + sl + fl ==> s[k] == frac[k - 2 - sl]);
    assert(forall|k: int| 2 + sl + fl <= k < s.len() ==> s[k] == rest[k - 2 - sl - fl]);

    if rest.len() > 0 {
        assert(s.last() == rest.last());
    } else if fl > 0 {
        assert(s.last() == frac.last());
    } else {
        assert(s.last() == '.');
    }
    assert(strip_newline(s) == s);

    lemma_dec_end_is(s, 1, 1 + sl);
    assert(s.subrange(1, 1 + sl) =~= secs);
    lemma_dec_end_is(s, 2 + sl, 2 + sl + fl);

    assert(parse_line(s) == Err::<FrameModel, ParseError>(ParseError::PrecisionError));
}

/// A line whose payload holds an odd number of hexadecimal digits is
/// rejected with `PayloadLengthError`.
pub proof fn lemma_odd_payload_rejected(
    secs: Seq<char>,
    frac: Seq<char>,
    iface: Seq<char>,
    id: Seq<char>,
    data: Seq<char>,
)
    requires
        secs_field_ok(secs),
        frac_field_ok(frac),
        iface_field_ok(iface),
        id_field_ok(id),
        forall|k: int| 0 <= k < data.len() ==> is_hex_digit(data[k]),
        data.len() % 2 == 1,
    ensures
        parse_line(frame_line(secs, frac, iface, id, data)) == Err::<FrameModel, ParseError>(
            ParseError::PayloadLengthError,
        ),
{
    let tail = id + seq!['#'] + data;
    let s = frame_line(secs, frac, iface, id, data);
    let sl = secs.len() as int;
    let il = iface.len() as int;
    let idl = id.len() as int;
    let dl = data.len() as int;
    let ts = 11 + sl + il;
    assert(tail.len() == idl + 1 + dl);
    assert(forall|k: int| 0 <= k < idl ==> tail[k] == id[k]);
    assert(tail[idl] == '#');
    assert(forall|k: int| idl + 1 <= k < tail.len() ==> tail[k] == data[k - idl - 1]);
    assert(tail.last() == data.last());
    lemma_tail_line_positions(secs, frac, iface, tail);

    lemma_hex_end_is(s, ts, ts + idl);
    assert(s.subrange(ts, ts + idl) =~= id);
    assert(s[ts + idl] == '#');
    lemma_hex_end_is(s, ts + idl + 1, s.len() as int);

    assert(parse_line(s) == Err::<FrameModel, ParseError>(ParseError::PayloadLengthError));
}

/// A line whose arbitration-identifier value does not fit in 32 bits is
/// rejected with `OverflowError`, whatever follows the field.
pub proof fn lemma_id_overflow_rejected(
    secs: Seq<char>,
    frac: Seq<char>,
    iface: Seq<char>,
    id: Seq<char>,
    rest: Seq<char>,
)
    requires
        secs_field_ok(secs),
        frac_field_ok(frac),
        iface_field_ok(iface),
        id.len() >= 1,
        forall|k: int| 0 <= k < id.len() ==> is_hex_digit(id[k]),
        hex_value(id) > u32::MAX,
        rest.len() > 0 ==> !is_hex_digit(rest[0]),
        rest.len() > 0 ==> rest.last() != '\n',
    ensures
        parse_line(line_with_tail(secs, frac, iface, id + rest)) == Err::<FrameModel, ParseError>(
            ParseError::OverflowError,
        ),
{
    let tail = id + rest;
    let s = line_with_tail(secs, frac, iface, tail);
    let sl = secs.len() as int;
    let il = iface.len() as int;
    let idl = id.len() as int;
    let ts = 11 + sl + il;
    assert(forall|k: int| 0 <= k < idl ==> tail[k] == id[k]);
    assert(forall|k: int| idl <= k < tail.len() ==> tail[k] == rest[k - idl]);
    if rest.len() > 0 {
        assert(tail.last() == rest.last());
    } else {
        assert(tail.last() == id.last());
    }
    lemma_tail_line_positions(secs, frac, iface, tail);

    lemma_hex_end_is(s, ts, ts + idl);
    assert(s.subrange(ts, ts + idl) =~= id);

    assert(parse_line(s) == Err::<FrameModel, ParseError>(ParseError::OverflowError));
}

/// One trailing `"\n"` or `"\r\n"` never changes what a line parses to.
pub proof fn lemma_trailing_newline_ignored(s: Seq<char>)
    requires
        s.len() > 0 ==> s.last() != '\n' && s.last() != '\r',
    ensures
        parse_line(s.push('\n')) == parse_line(s),
        parse_line(s + seq!['\r', '\n']) == parse_line(s),
{
    assert(strip_newline(s) == s);
    assert(strip_newline(s.push('\n')) =~= s);
    let crlf = s + seq!['\r', '\n'];
    assert(crlf[crlf.len() - 2] == '\r');
    assert(strip_newline(crlf) =~= s);
}

/// Parsing is a pure function of the line: the same line, parsed twice,
/// yields structurally equal results, frame for frame and error for
/// error.
pub proof fn lemma_parse_idempotent(s1: Seq<char>, s2: Seq<char>)
    requires
        s1 == s2,
    ensures
        parse_line(s1) == parse_line(s2),
{
}

} // verus!

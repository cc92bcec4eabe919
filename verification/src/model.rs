//! The mathematical model of protocol messages.
//!
//! `MsgV` is the spec-level shape of a wire message: every contract of the
//! codec and of the dispatcher speaks of values of this type.  The module
//! also defines the decimal number spec functions, the encoding function,
//! and the reference parser that the executable codec is proved against.

use vstd::prelude::*;

verus! {

/// Spec-level message tree: the view of both executable message types.
pub enum MsgV {
    SimpleString(Seq<char>),
    Error(Seq<char>),
    Integer(int),
    BulkString(Seq<char>),
    Array(Seq<MsgV>),
    Null,
}

/// How a decode attempt fails.  Each variant names the production that was
/// being read when the input ran out or disagreed with the grammar.
#[derive(Clone, Copy, Debug, PartialEq, Eq, Structural)]
pub enum DecodeErr {
    /// The input held no bytes at all.
    Empty,
    /// A complete message was followed by unconsumed bytes.
    Trailing,
    /// The leading type tag is none of `+ - : $ *`.
    BadTag,
    /// A simple string was not terminated.
    BadSimple,
    /// An error string was not terminated.
    BadError,
    /// An integer field was unterminated or not a decimal in range.
    BadInt,
    /// A bulk string length line did not hold a decimal in range.
    BadBulkLen,
    /// A bulk string was shorter than declared or not terminated.
    BadBulk,
    /// An array length line was unterminated or not a decimal in range.
    BadArrayLen,
}

// ---------------------------------------------------------------------------
// Decimal numbers
// ---------------------------------------------------------------------------

pub open spec fn is_digit(c: char) -> bool {
    '0' <= c && c <= '9'
}

pub open spec fn digit_val(c: char) -> int {
    c as int - 48
}

pub open spec fn all_digits(s: Seq<char>) -> bool {
    forall|i: int| 0 <= i < s.len() ==> is_digit(#[trigger] s[i])
}

/// Value of a sequence of decimal digits, most significant first.
pub open spec fn dec_val(s: Seq<char>) -> int
    decreases s.len(),
{
    if s.len() == 0 {
        0
    } else {
        dec_val(s.drop_last()) * 10 + digit_val(s.last())
    }
}

/// A decimal integer with an optional sign, as `i32::from_str` reads it:
/// at least one digit, nothing else, any number of leading zeros.
pub open spec fn spec_parse_int(s: Seq<char>) -> Option<int> {
    if s.len() >= 1 && (s[0] == '+' || s[0] == '-') {
        let ds = s.drop_first();
        if ds.len() >= 1 && all_digits(ds) {
            Some(if s[0] == '-' { -dec_val(ds) } else { dec_val(ds) })
        } else {
            None
        }
    } else if s.len() >= 1 && all_digits(s) {
        Some(dec_val(s))
    } else {
        None
    }
}

/// A decimal as `usize::from_str` reads it: an optional `+`, then digits.
pub open spec fn spec_parse_uint(s: Seq<char>) -> Option<int> {
    let ds = if s.len() >= 1 && s[0] == '+' { s.drop_first() } else { s };
    if ds.len() >= 1 && all_digits(ds) {
        Some(dec_val(ds))
    } else {
        None
    }
}

pub open spec fn i32_in_range(v: int) -> bool {
    -0x8000_0000 <= v <= 0x7fff_ffff
}

/// The protocol-level integer: a decimal within the `i32` range.
pub open spec fn spec_parse_i32(s: Seq<char>) -> Option<int> {
    match spec_parse_int(s) {
        Some(v) => if i32_in_range(v) { Some(v) } else { None },
        None => None,
    }
}

/// An array length: a decimal within the `usize` range.
pub open spec fn spec_parse_usize(s: Seq<char>) -> Option<int> {
    match spec_parse_uint(s) {
        Some(v) => if 0 <= v <= usize::MAX { Some(v) } else { None },
        None => None,
    }
}

pub open spec fn digit_chr(d: int) -> char {
    (48 + d) as char
}

/// Decimal digits of a non-negative number, no leading zeros.
pub open spec fn dec_digits(n: int) -> Seq<char>
    decreases n,
{
    if n < 10 {
        seq![digit_chr(if n < 0 { 0 } else { n })]
    } else {
        dec_digits(n / 10).push(digit_chr(n % 10))
    }
}

/// Canonical decimal rendering of an integer, `-` for negative values.
pub open spec fn int_dec(v: int) -> Seq<char> {
    if v < 0 {
        seq!['-'] + dec_digits(-v)
    } else {
        dec_digits(v)
    }
}

// ---------------------------------------------------------------------------
// Terminators and well-formedness
// ---------------------------------------------------------------------------

/// The wire terminator: a carriage return followed by a line feed.
pub open spec fn crlf() -> Seq<char> {
    seq!['\r', '\n']
}

/// The four-character terminator of the escaped textual form:
/// backslash, `r`, backslash, `n`.
pub open spec fn escaped_crlf() -> Seq<char> {
    seq!['\\', 'r', '\\', 'n']
}

/// Text that may stand on a status line: no carriage return, no line feed.
pub open spec fn line_ok(s: Seq<char>) -> bool {
    forall|i: int| 0 <= i < s.len() ==> #[trigger] s[i] != '\r' && s[i] != '\n'
}

/// A message the encoder can frame so that the wire parser reads it back:
/// status text stays on one line, integers fit the protocol range, a bulk
/// string's length fits the length field, an array's length fits a machine
/// word.
pub open spec fn wf_msg(m: MsgV) -> bool
    decreases m,
{
    match m {
        MsgV::SimpleString(s) => line_ok(s),
        MsgV::Error(s) => line_ok(s),
        MsgV::Integer(v) => i32_in_range(v),
        MsgV::BulkString(s) => s.len() <= 0x7fff_ffff,
        MsgV::Array(elems) => elems.len() <= usize::MAX && forall|i: int|
            0 <= i < elems.len() ==> wf_msg(#[trigger] elems[i]),
        MsgV::Null => true,
    }
}

/// No `Null` anywhere in the tree.  The encoder writes `Null` as `_`, a tag
/// the parser does not accept, so only null-free messages round-trip.
pub open spec fn null_free(m: MsgV) -> bool
    decreases m,
{
    match m {
        MsgV::Array(elems) => forall|i: int|
            0 <= i < elems.len() ==> null_free(#[trigger] elems[i]),
        MsgV::Null => false,
        _ => true,
    }
}

// ---------------------------------------------------------------------------
// Encoding
// ---------------------------------------------------------------------------

/// The wire encoding of a message: tag, payload, terminator.
pub open spec fn encode_msg(m: MsgV) -> Seq<char>
    decreases m,
{
    match m {
        MsgV::SimpleString(s) => seq!['+'] + s + crlf(),
        MsgV::Error(s) => seq!['-'] + s + crlf(),
        MsgV::Integer(v) => seq![':'] + int_dec(v) + crlf(),
        MsgV::BulkString(s) => seq!['$'] + int_dec(s.len() as int) + crlf() + s + crlf(),
        MsgV::Array(elems) => seq!['*'] + int_dec(elems.len() as int) + crlf()
            + encode_list(elems),
        MsgV::Null => seq!['_'] + crlf(),
    }
}

/// The concatenated encodings of the elements, in order.
pub open spec fn encode_list(elems: Seq<MsgV>) -> Seq<char>
    decreases elems,
{
    if elems.len() == 0 {
        Seq::empty()
    } else {
        encode_msg(elems[0]) + encode_list(elems.drop_first())
    }
}

// ---------------------------------------------------------------------------
// The reference parser
// ---------------------------------------------------------------------------

/// Reads one line: the characters from `pos` up to the first occurrence of
/// the terminator's head, which must begin a full copy of `term`.  Yields
/// the content and the position just past the terminator.  `None` when the
/// input ends first or the terminator is incomplete.
pub open spec fn spec_read_line(s: Seq<char>, pos: int, term: Seq<char>) -> Option<(Seq<char>, int)>
    decreases s.len() - pos,
{
    if pos < 0 || pos >= s.len() {
        None
    } else if s[pos] == term[0] {
        if pos + term.len() <= s.len() && s.subrange(pos, pos + term.len()) == term {
            Some((Seq::empty(), pos + term.len()))
        } else {
            None
        }
    } else {
        match spec_read_line(s, pos + 1, term) {
            Some((content, p2)) => Some((seq![s[pos]] + content, p2)),
            None => None,
        }
    }
}

/// One message, parsed from `pos`: a type tag, then the tag's production.
/// Yields the message and the position just past it.
pub open spec fn spec_parse_msg(s: Seq<char>, pos: int, term: Seq<char>) -> Result<(MsgV, int), DecodeErr>
    decreases s.len() - pos, 0int,
{
    if pos < 0 || pos >= s.len() {
        Err(DecodeErr::BadTag)
    } else {
        let tag = s[pos];
        if tag == '+' {
            match spec_read_line(s, pos + 1, term) {
                Some((content, p2)) => Ok((MsgV::SimpleString(content), p2)),
                None => Err(DecodeErr::BadSimple),
            }
        } else if tag == '-' {
            match spec_read_line(s, pos + 1, term) {
                Some((content, p2)) => Ok((MsgV::Error(content), p2)),
                None => Err(DecodeErr::BadError),
            }
        } else if tag == ':' {
            match spec_read_line(s, pos + 1, term) {
                Some((content, p2)) => match spec_parse_i32(content) {
                    Some(v) => Ok((MsgV::Integer(v), p2)),
                    None => Err(DecodeErr::BadInt),
                },
                None => Err(DecodeErr::BadInt),
            }
        } else if tag == '$' {
            spec_parse_bulk(s, pos, term)
        } else if tag == '*' {
            match spec_read_line(s, pos + 1, term) {
                Some((lenline, p2)) => match spec_parse_usize(lenline) {
                    Some(n) => if pos < p2 <= s.len() {
                        match spec_parse_elems(s, p2, term, n as nat) {
                            Ok((elems, p3)) => Ok((MsgV::Array(elems), p3)),
                            Err(e) => Err(e),
                        }
                    } else {
                        // dead: a read line ends past where it began
                        Err(DecodeErr::BadArrayLen)
                    },
                    None => Err(DecodeErr::BadArrayLen),
                },
                None => Err(DecodeErr::BadArrayLen),
            }
        } else {
            Err(DecodeErr::BadTag)
        }
    }
}

/// The bulk string production: a length line, then `Null` for length -1,
/// or exactly `length` content characters followed by the terminator.
pub open spec fn spec_parse_bulk(s: Seq<char>, pos: int, term: Seq<char>) -> Result<(MsgV, int), DecodeErr> {
    match spec_read_line(s, pos + 1, term) {
        Some((lenline, p2)) => match spec_parse_i32(lenline) {
            Some(n) => if n == -1 {
                Ok((MsgV::Null, p2))
            } else if n < 0 {
                Err(DecodeErr::BadBulk)
            } else if p2 + n + term.len() <= s.len()
                && s.subrange(p2 + n, p2 + n + term.len()) == term {
                Ok((MsgV::BulkString(s.subrange(p2, p2 + n)), p2 + n + term.len()))
            } else {
                Err(DecodeErr::BadBulk)
            },
            None => Err(DecodeErr::BadBulkLen),
        },
        None => Err(DecodeErr::BadBulk),
    }
}

/// Exactly `n` messages in sequence, each beginning where the one before
/// ended.
pub open spec fn spec_parse_elems(s: Seq<char>, pos: int, term: Seq<char>, n: nat) -> Result<(Seq<MsgV>, int), DecodeErr>
    decreases s.len() - pos, n,
{
    if n == 0 {
        Ok((Seq::empty(), pos))
    } else {
        match spec_parse_msg(s, pos, term) {
            Ok((m, p2)) => if pos < p2 <= s.len() {
                match spec_parse_elems(s, p2, term, (n - 1) as nat) {
                    Ok((rest, p3)) => Ok((seq![m] + rest, p3)),
                    Err(e) => Err(e),
                }
            } else {
                // dead: a parsed message consumes at least its tag
                Err(DecodeErr::BadArrayLen)
            },
            Err(e) => Err(e),
        }
    }
}

/// A whole decode: the input must be non-empty, hold one message, and hold
/// nothing after it.
pub open spec fn spec_decode(s: Seq<char>, term: Seq<char>) -> Result<MsgV, DecodeErr> {
    if s.len() == 0 {
        Err(DecodeErr::Empty)
    } else {
        match spec_parse_msg(s, 0, term) {
            Ok((m, p)) => if p == s.len() { Ok(m) } else { Err(DecodeErr::Trailing) },
            Err(e) => Err(e),
        }
    }
}

} // verus!

//! The wire codec entry point.
//!
//! `RESP::deserialize` reads one complete frame and yields the decoded
//! message, or an `Error` message describing the first way the frame broke
//! the grammar; the connection owner sends that error back and carries on.

use vstd::prelude::*;

use crate::model::{crlf, spec_decode, DecodeErr, MsgV};
use crate::parser::{crlf_chars, decode_chars};
use crate::resp_data::RESPData;
use crate::text::str_to_chars;
use vstd::string::StringExecFns;

verus! {

/// The status text reported for each way a wire decode fails.
pub open spec fn wire_err_text(e: DecodeErr) -> Seq<char> {
    match e {
        DecodeErr::Empty => "Empty message!"@,
        DecodeErr::Trailing => "Invalid Message!!"@,
        DecodeErr::BadTag => "Invalid Data Type!!"@,
        DecodeErr::BadSimple => "Could not parse simple string"@,
        DecodeErr::BadError => "Could not parse error"@,
        DecodeErr::BadInt => "Invalid integer!"@,
        DecodeErr::BadBulkLen => "Invalid bulk string length!"@,
        DecodeErr::BadBulk => "Invalid bulk string message!"@,
        DecodeErr::BadArrayLen => "Invalid array length!"@,
    }
}

/// What deserialization of a whole frame yields: the decoded message, or
/// an `Error` message carrying the failure's status text.
pub open spec fn wire_decoded(s: Seq<char>) -> MsgV {
    match spec_decode(s, crlf()) {
        Ok(m) => m,
        Err(e) => MsgV::Error(wire_err_text(e)),
    }
}

/// The wire codec.
pub struct RESP {}

impl RESP {
    /// Decodes one complete frame; a malformed frame yields an `Error`
    /// message rather than a failure, so the connection stays usable.
    pub fn deserialize(input_message: String) -> (r: RESPData)
        ensures
            r@ == wire_decoded(input_message@),
    {
        let chars = str_to_chars(input_message.as_str());
        let term = crlf_chars();
        match decode_chars(&chars, &term) {
            Ok(m) => m,
            Err(e) => RESPData::Error(wire_err_string(e)),
        }
    }
}

/// The status text of a wire decode failure, as a string.
fn wire_err_string(e: DecodeErr) -> (r: String)
    ensures
        r@ == wire_err_text(e),
{
    match e {
        DecodeErr::Empty => String::from_str("Empty message!"),
        DecodeErr::Trailing => String::from_str("Invalid Message!!"),
        DecodeErr::BadTag => String::from_str("Invalid Data Type!!"),
        DecodeErr::BadSimple => String::from_str("Could not parse simple string"),
        DecodeErr::BadError => String::from_str("Could not parse error"),
        DecodeErr::BadInt => String::from_str("Invalid integer!"),
        DecodeErr::BadBulkLen => String::from_str("Invalid bulk string length!"),
        DecodeErr::BadBulk => String::from_str("Invalid bulk string message!"),
        DecodeErr::BadArrayLen => String::from_str("Invalid array length!"),
    }
}

} // verus!

//! The textual message type.
//!
//! `Message` is the message tree produced from the escaped textual form of
//! the protocol, where each field ends in the four characters backslash,
//! `r`, backslash, `n` instead of a real carriage return and line feed.
//! `Message::new` decodes that form, or reports how the text broke the
//! grammar.

use vstd::prelude::*;

use crate::model::{escaped_crlf, spec_decode, DecodeErr, MsgV};
use crate::parser::{decode_chars, escaped_crlf_chars};
use crate::resp_data::{lemma_resp_list_view_len, resp_list_view, RESPData};
use crate::text::str_to_chars;
use vstd::string::StringExecFns;

verus! {

/// A protocol message read from the escaped textual form.
#[derive(Debug)]
pub enum Message {
    SimpleString(String),
    Error(String),
    Integer(i32),
    BulkString(String),
    Array(Vec<Message>),
    Null,
}

/// The message tree a `Message` stands for.
pub open spec fn msg_view(m: Message) -> MsgV
    decreases m,
{
    match m {
        Message::SimpleString(s) => MsgV::SimpleString(s@),
        Message::Error(s) => MsgV::Error(s@),
        Message::Integer(v) => MsgV::Integer(v as int),
        Message::BulkString(s) => MsgV::BulkString(s@),
        Message::Array(elems) => MsgV::Array(msg_list_view(elems@)),
        Message::Null => MsgV::Null,
    }
}

/// The message trees of a sequence of `Message`s, in order.
pub open spec fn msg_list_view(s: Seq<Message>) -> Seq<MsgV>
    decreases s,
{
    if s.len() == 0 {
        Seq::empty()
    } else {
        seq![msg_view(s[0])] + msg_list_view(s.drop_first())
    }
}

impl View for Message {
    type V = MsgV;

    open spec fn view(&self) -> MsgV {
        msg_view(*self)
    }
}

pub broadcast proof fn lemma_msg_list_view_len(s: Seq<Message>)
    ensures
        (#[trigger] msg_list_view(s)).len() == s.len(),
    decreases s.len(),
{
    if s.len() > 0 {
        lemma_msg_list_view_len(s.drop_first());
    }
}

pub broadcast proof fn lemma_msg_list_view_index(s: Seq<Message>, i: int)
    requires
        0 <= i < s.len(),
    ensures
        #[trigger] msg_list_view(s)[i] == s[i]@,
    decreases s.len(),
{
    lemma_msg_list_view_len(s);
    if i > 0 {
        lemma_msg_list_view_index(s.drop_first(), i - 1);
    }
}

pub proof fn lemma_msg_list_view_push(s: Seq<Message>, m: Message)
    ensures
        msg_list_view(s.push(m)) == msg_list_view(s) + seq![m@],
    decreases s.len(),
{
    if s.len() == 0 {
        assert(s.push(m).drop_first() =~= s);
        assert(msg_list_view(s.push(m)) =~= msg_list_view(s) + seq![m@]);
    } else {
        assert(s.push(m).drop_first() =~= s.drop_first().push(m));
        lemma_msg_list_view_push(s.drop_first(), m);
        assert(msg_list_view(s.push(m)) =~= msg_list_view(s) + seq![m@]);
    }
}

impl PartialEq for Message {
    /// Structural, recursive equality: arrays are equal when they have
    /// equal length and pairwise equal elements.
    #[verifier::loop_isolation(false)]
    fn eq(&self, other: &Self) -> (r: bool)
        decreases self,
    {
        match (self, other) {
            (Message::SimpleString(a), Message::SimpleString(b)) => *a == *b,
            (Message::Error(a), Message::Error(b)) => *a == *b,
            (Message::Integer(a), Message::Integer(b)) => *a == *b,
            (Message::BulkString(a), Message::BulkString(b)) => *a == *b,
            (Message::Array(a), Message::Array(b)) => {
                if a.len() != b.len() {
                    proof {
                        lemma_msg_list_view_len(a@);
                        lemma_msg_list_view_len(b@);
                    }
                    false
                } else {
                    let mut i: usize = 0;
                    let mut same: bool = true;
                    while i < a.len() && same
                        invariant
                            i <= a@.len(),
                            a@.len() == b@.len(),
                            same ==> forall|j: int| 0 <= j < i ==> #[trigger] a@[j]@ == b@[j]@,
                            !same ==> exists|j: int| 0 <= j < a@.len() && #[trigger] a@[j]@ != b@[j]@,
                        decreases a@.len() - i + (if same { 1int } else { 0int }),
                    {
                        proof {
                            assert(decreases_to!(*self => self->Array_0));
                            assert(decreases_to!(self->Array_0 => self->Array_0@));
                            assert(decreases_to!(self->Array_0@ => self->Array_0@[i as int]));
                            assert(self->Array_0@ == a@);
                        }
                        if a[i].eq(&b[i]) {
                            i = i + 1;
                        } else {
                            same = false;
                        }
                    }
                    proof {
                        lemma_msg_list_view_len(a@);
                        lemma_msg_list_view_len(b@);
                        if same {
                            assert forall|j: int| 0 <= j < a@.len()
                                implies #[trigger] msg_list_view(a@)[j] == msg_list_view(b@)[j] by {
                                lemma_msg_list_view_index(a@, j);
                                lemma_msg_list_view_index(b@, j);
                            }
                            assert(msg_list_view(a@) =~= msg_list_view(b@));
                        } else {
                            let j = choose|j: int| 0 <= j < a@.len() && #[trigger] a@[j]@ != b@[j]@;
                            lemma_msg_list_view_index(a@, j);
                            lemma_msg_list_view_index(b@, j);
                            assert(msg_list_view(a@)[j] != msg_list_view(b@)[j]);
                        }
                    }
                    same
                }
            },
            (Message::Null, Message::Null) => true,
            _ => false,
        }
    }
}

impl vstd::std_specs::cmp::PartialEqSpecImpl for Message {
    open spec fn obeys_eq_spec() -> bool {
        true
    }

    open spec fn eq_spec(&self, other: &Self) -> bool {
        self@ == other@
    }
}

/// The error text reported for each way a textual decode fails.
pub open spec fn message_err_text(e: DecodeErr) -> Seq<char> {
    match e {
        DecodeErr::Empty => "Empty message!"@,
        DecodeErr::Trailing => "Invalid Message!!"@,
        DecodeErr::BadTag => "Invalid Data Type!!"@,
        DecodeErr::BadSimple => "Could not parse simple string"@,
        DecodeErr::BadError => "Could not parse simple string"@,
        DecodeErr::BadInt => "Invalid integer!"@,
        DecodeErr::BadBulkLen => "Invalid bulk string length!"@,
        DecodeErr::BadBulk => "Invalid bulk string message!"@,
        DecodeErr::BadArrayLen => "Invalid array length!"@,
    }
}

impl Message {
    /// Decodes one complete message from the escaped textual form: exactly
    /// one message, fully consumed, or the text of the first failure.
    pub fn new(message: String) -> (r: Result<Message, String>)
        ensures
            ({
                match (r, spec_decode(message@, escaped_crlf())) {
                    (Ok(m), Ok(sm)) => m@ == sm,
                    (Err(t), Err(e)) => t@ == message_err_text(e),
                    _ => false,
                }
            }),
    {
        let chars = str_to_chars(message.as_str());
        let term = escaped_crlf_chars();
        match decode_chars(&chars, &term) {
            Ok(d) => Ok(message_of_resp(&d)),
            Err(e) => Err(message_err_string(e)),
        }
    }
}

/// The error text of a textual decode failure, as a string.
fn message_err_string(e: DecodeErr) -> (r: String)
    ensures
        r@ == message_err_text(e),
{
    match e {
        DecodeErr::Empty => String::from_str("Empty message!"),
        DecodeErr::Trailing => String::from_str("Invalid Message!!"),
        DecodeErr::BadTag => String::from_str("Invalid Data Type!!"),
        DecodeErr::BadSimple => String::from_str("Could not parse simple string"),
        DecodeErr::BadError => String::from_str("Could not parse simple string"),
        DecodeErr::BadInt => String::from_str("Invalid integer!"),
        DecodeErr::BadBulkLen => String::from_str("Invalid bulk string length!"),
        DecodeErr::BadBulk => String::from_str("Invalid bulk string message!"),
        DecodeErr::BadArrayLen => String::from_str("Invalid array length!"),
    }
}

/// Rebuilds a wire message as a textual message standing for the same
/// tree, cloning its text.
#[verifier::loop_isolation(false)]
fn message_of_resp(d: &RESPData) -> (r: Message)
    ensures
        r@ == d@,
    decreases d,
{
    match d {
        RESPData::SimpleString(s) => Message::SimpleString(s.clone()),
        RESPData::Error(s) => Message::Error(s.clone()),
        RESPData::Integer(v) => Message::Integer(*v),
        RESPData::BulkString(s) => Message::BulkString(s.clone()),
        RESPData::Array(elems) => {
            proof {
                lemma_resp_list_view_len(elems@);
            }
            let mut out: Vec<Message> = Vec::new();
            let mut i: usize = 0;
            while i < elems.len()
                invariant
                    i <= elems@.len(),
                    out@.len() == i,
                    msg_list_view(out@) == resp_list_view(elems@).subrange(0, i as int),
                decreases elems@.len() - i,
            {
                proof {
                    assert(decreases_to!(*d => d->Array_0));
                    assert(decreases_to!(d->Array_0 => d->Array_0@));
                    assert(decreases_to!(d->Array_0@ => d->Array_0@[i as int]));
                    assert(d->Array_0@ == elems@);
                }
                let ghost prev = out@;
                let m = message_of_resp(&elems[i]);
                proof {
                    lemma_msg_list_view_push(prev, m);
                    crate::resp_data::lemma_resp_list_view_index(elems@, i as int);
                    assert(msg_list_view(prev) + seq![m@]
                        =~= resp_list_view(elems@).subrange(0, i + 1 as int));
                }
                out.push(m);
                i = i + 1;
            }
            proof {
                assert(resp_list_view(elems@).subrange(0, elems@.len() as int)
                    =~= resp_list_view(elems@));
            }
            Message::Array(out)
        },
        RESPData::Null => Message::Null,
    }
}

} // verus!

//! The wire message type.
//!
//! `RESPData` is the message tree of the wire protocol proper, with real
//! carriage-return line-feed terminators.  It carries the encoder; the
//! parser lives in `parser` and is reached through `parse_message`.

use vstd::prelude::*;

use crate::model::{crlf, encode_list, encode_msg, int_dec, spec_parse_msg, DecodeErr, MsgV};
use crate::num::push_usize_dec;
use crate::text::chars_to_string;
use vstd::string::StrSliceExecFns;

verus! {

/// A wire protocol message.
#[derive(Debug)]
pub enum RESPData {
    SimpleString(String),
    Error(String),
    Integer(i32),
    BulkString(String),
    Array(Vec<RESPData>),
    Null,
}

/// The message tree a `RESPData` stands for.
pub open spec fn resp_view(m: RESPData) -> MsgV
    decreases m,
{
    match m {
        RESPData::SimpleString(s) => MsgV::SimpleString(s@),
        RESPData::Error(s) => MsgV::Error(s@),
        RESPData::Integer(v) => MsgV::Integer(v as int),
        RESPData::BulkString(s) => MsgV::BulkString(s@),
        RESPData::Array(elems) => MsgV::Array(resp_list_view(elems@)),
        RESPData::Null => MsgV::Null,
    }
}

/// The message trees of a sequence of `RESPData`, in order.
pub open spec fn resp_list_view(s: Seq<RESPData>) -> Seq<MsgV>
    decreases s,
{
    if s.len() == 0 {
        Seq::empty()
    } else {
        seq![resp_view(s[0])] + resp_list_view(s.drop_first())
    }
}

impl View for RESPData {
    type V = MsgV;

    open spec fn view(&self) -> MsgV {
        resp_view(*self)
    }
}

pub broadcast proof fn lemma_resp_list_view_len(s: Seq<RESPData>)
    ensures
        (#[trigger] resp_list_view(s)).len() == s.len(),
    decreases s.len(),
{
    if s.len() > 0 {
        lemma_resp_list_view_len(s.drop_first());
    }
}

pub broadcast proof fn lemma_resp_list_view_index(s: Seq<RESPData>, i: int)
    requires
        0 <= i < s.len(),
    ensures
        #[trigger] resp_list_view(s)[i] == s[i]@,
    decreases s.len(),
{
    lemma_resp_list_view_len(s);
    if i > 0 {
        lemma_resp_list_view_index(s.drop_first(), i - 1);
    }
}

pub proof fn lemma_resp_list_view_push(s: Seq<RESPData>, m: RESPData)
    ensures
        resp_list_view(s.push(m)) == resp_list_view(s) + seq![m@],
    decreases s.len(),
{
    if s.len() == 0 {
        assert(s.push(m).drop_first() =~= s);
        assert(resp_list_view(s.push(m)) =~= resp_list_view(s) + seq![m@]);
    } else {
        assert(s.push(m).drop_first() =~= s.drop_first().push(m));
        lemma_resp_list_view_push(s.drop_first(), m);
        assert(resp_list_view(s.push(m)) =~= resp_list_view(s) + seq![m@]);
    }
}

impl PartialEq for RESPData {
    /// Structural, recursive equality: arrays are equal when they have
    /// equal length and pairwise equal elements.
    #[verifier::loop_isolation(false)]
    fn eq(&self, other: &Self) -> (r: bool)
        decreases self,
    {
        match (self, other) {
            (RESPData::SimpleString(a), RESPData::SimpleString(b)) => *a == *b,
            (RESPData::Error(a), RESPData::Error(b)) => *a == *b,
            (RESPData::Integer(a), RESPData::Integer(b)) => *a == *b,
            (RESPData::BulkString(a), RESPData::BulkString(b)) => *a == *b,
            (RESPData::Array(a), RESPData::Array(b)) => {
                if a.len() != b.len() {
                    proof {
                        lemma_resp_list_view_len(a@);
                        lemma_resp_list_view_len(b@);
                    }
                    false
                } else {
                    let mut i: usize = 0;
                    let mut same: bool = true;
                    while i < a.len() && same
                        invariant
                            i <= a@.len(),
                            a@.len() == b@.len(),
                            same ==> forall|j: int| 0 <= j < i ==> #[trigger] a@[j]@ == b@[j]@,
                            !same ==> exists|j: int| 0 <= j < a@.len() && #[trigger] a@[j]@ != b@[j]@,
                        decreases a@.len() - i + (if same { 1int } else { 0int }),
                    {
                        proof {
                            assert(decreases_to!(*self => self->Array_0));
                            assert(decreases_to!(self->Array_0 => self->Array_0@));
                            assert(decreases_to!(self->Array_0@ => self->Array_0@[i as int]));
                            assert(self->Array_0@ == a@);
                        }
                        if a[i].eq(&b[i]) {
                            i = i + 1;
                        } else {
                            same = false;
                        }
                    }
                    proof {
                        lemma_resp_list_view_len(a@);
                        lemma_resp_list_view_len(b@);
                        if same {
                            assert forall|j: int| 0 <= j < a@.len()
                                implies #[trigger] resp_list_view(a@)[j] == resp_list_view(b@)[j] by {
                                lemma_resp_list_view_index(a@, j);
                                lemma_resp_list_view_index(b@, j);
                            }
                            assert(resp_list_view(a@) =~= resp_list_view(b@));
                        } else {
                            let j = choose|j: int| 0 <= j < a@.len() && #[trigger] a@[j]@ != b@[j]@;
                            lemma_resp_list_view_index(a@, j);
                            lemma_resp_list_view_index(b@, j);
                            assert(resp_list_view(a@)[j] != resp_list_view(b@)[j]);
                        }
                    }
                    same
                }
            },
            (RESPData::Null, RESPData::Null) => true,
            _ => false,
        }
    }
}

impl vstd::std_specs::cmp::PartialEqSpecImpl for RESPData {
    open spec fn obeys_eq_spec() -> bool {
        true
    }

    open spec fn eq_spec(&self, other: &Self) -> bool {
        self@ == other@
    }
}

impl RESPData {
    /// A deep copy: a message equal to this one sharing no storage with it.
    #[verifier::loop_isolation(false)]
    pub fn copy(&self) -> (r: Self)
        ensures
            r@ == self@,
        decreases self,
    {
        match self {
            RESPData::SimpleString(s) => RESPData::SimpleString(s.clone()),
            RESPData::Error(s) => RESPData::Error(s.clone()),
            RESPData::Integer(v) => RESPData::Integer(*v),
            RESPData::BulkString(s) => RESPData::BulkString(s.clone()),
            RESPData::Array(elems) => {
                let mut out: Vec<RESPData> = Vec::new();
                let mut i: usize = 0;
                while i < elems.len()
                    invariant
                        i <= elems@.len(),
                        resp_list_view(out@) == resp_list_view(elems@.subrange(0, i as int)),
                        out@.len() == i,
                    decreases elems@.len() - i,
                {
                    proof {
                        assert(decreases_to!(*self => self->Array_0));
                        assert(decreases_to!(self->Array_0 => self->Array_0@));
                        assert(decreases_to!(self->Array_0@ => self->Array_0@[i as int]));
                        assert(self->Array_0@ == elems@);
                    }
                    let c = elems[i].copy();
                    proof {
                        lemma_resp_list_view_push(out@, c);
                        lemma_resp_list_view_push(
                            elems@.subrange(0, i as int),
                            elems@[i as int],
                        );
                        assert(elems@.subrange(0, i as int).push(elems@[i as int])
                            =~= elems@.subrange(0, i + 1 as int));
                    }
                    out.push(c);
                    i = i + 1;
                }
                proof {
                    assert(elems@.subrange(0, elems@.len() as int) =~= elems@);
                }
                RESPData::Array(out)
            },
            RESPData::Null => RESPData::Null,
        }
    }

    /// Parses one wire message beginning at `pos`, returning it with the
    /// position just past it, exactly as the reference parser reads it.
    /// The caller decides what trailing characters mean.
    pub fn parse_message(input: &Vec<char>, pos: usize) -> (r: Result<(RESPData, usize), DecodeErr>)
        requires
            pos <= input@.len(),
        ensures
            ({
                match (r, spec_parse_msg(input@, pos as int, crlf())) {
                    (Ok((m, p)), Ok(sp)) => m@ == sp.0 && p as int == sp.1
                        && pos < p <= input@.len(),
                    (Err(e), Err(se)) => e == se,
                    _ => false,
                }
            }),
    {
        let term = crate::parser::crlf_chars();
        crate::parser::parse_msg_at(input, pos, &term)
    }

    /// The wire bytes of this message, as characters.
    pub fn serialize(&self) -> (r: String)
        ensures
            r@ == encode_msg(self@),
    {
        let mut out: Vec<char> = Vec::new();
        self.push_encode(&mut out);
        chars_to_string(&out)
    }

    /// Appends the wire encoding of this message to `out`.
    #[verifier::loop_isolation(false)]
    fn push_encode(&self, out: &mut Vec<char>)
        ensures
            final(out)@ == old(out)@ + encode_msg(self@),
        decreases self,
    {
        match self {
            RESPData::SimpleString(s) => {
                out.push('+');
                push_str_chars(out, s);
                out.push('\r');
                out.push('\n');
                assert(out@ =~= old(out)@ + encode_msg(self@));
            },
            RESPData::Error(s) => {
                out.push('-');
                push_str_chars(out, s);
                out.push('\r');
                out.push('\n');
                assert(out@ =~= old(out)@ + encode_msg(self@));
            },
            RESPData::Integer(v) => {
                out.push(':');
                crate::num::push_i32_dec(out, *v);
                out.push('\r');
                out.push('\n');
                assert(out@ =~= old(out)@ + encode_msg(self@));
            },
            RESPData::BulkString(s) => {
                out.push('$');
                let n = s.as_str().unicode_len();
                push_usize_dec(out, n);
                out.push('\r');
                out.push('\n');
                push_str_chars(out, s);
                out.push('\r');
                out.push('\n');
                assert(out@ =~= old(out)@ + encode_msg(self@));
            },
            RESPData::Array(elems) => {
                out.push('*');
                push_usize_dec(out, elems.len());
                out.push('\r');
                out.push('\n');
                proof {
                    lemma_resp_list_view_len(elems@);
                }
                let ghost base = out@;
                let mut i: usize = 0;
                while i < elems.len()
                    invariant
                        i <= elems@.len(),
                        out@ == base + encode_list(resp_list_view(elems@).subrange(0, i as int)),
                        resp_list_view(elems@).len() == elems@.len(),
                    decreases elems@.len() - i,
                {
                    proof {
                        assert(decreases_to!(*self => self->Array_0));
                        assert(decreases_to!(self->Array_0 => self->Array_0@));
                        assert(decreases_to!(self->Array_0@ => self->Array_0@[i as int]));
                        assert(self->Array_0@ == elems@);
                    }
                    elems[i].push_encode(out);
                    proof {
                        lemma_resp_list_view_index(elems@, i as int);
                        lemma_encode_list_snoc(resp_list_view(elems@), i as int);
                    }
                    i = i + 1;
                }
                proof {
                    assert(resp_list_view(elems@).subrange(0, elems@.len() as int)
                        =~= resp_list_view(elems@));
                    assert(int_dec(elems@.len() as int)
                        == int_dec(resp_list_view(elems@).len() as int));
                    assert(out@ =~= old(out)@ + encode_msg(self@));
                }
            },
            RESPData::Null => {
                out.push('_');
                out.push('\r');
                out.push('\n');
                assert(out@ =~= old(out)@ + encode_msg(self@));
            },
        }
    }
}

/// Appends the characters of `s` to `out`.
fn push_str_chars(out: &mut Vec<char>, s: &String)
    ensures
        final(out)@ == old(out)@ + s@,
{
    let cs = crate::text::str_to_chars(s.as_str());
    let mut i: usize = 0;
    while i < cs.len()
        invariant
            i <= cs@.len(),
            cs@ == s@,
            out@ == old(out)@ + s@.subrange(0, i as int),
        decreases cs@.len() - i,
    {
        out.push(cs[i]);
        proof {
            assert(old(out)@ + s@.subrange(0, i as int) + seq![s@[i as int]]
                =~= old(out)@ + s@.subrange(0, i + 1 as int));
        }
        i = i + 1;
    }
    proof {
        assert(s@.subrange(0, s@.len() as int) =~= s@);
    }
}

/// Splitting one element off the tail of an encoded prefix.
proof fn lemma_encode_list_snoc(s: Seq<MsgV>, i: int)
    requires
        0 <= i < s.len(),
    ensures
        encode_list(s.subrange(0, i + 1))
            == encode_list(s.subrange(0, i)) + encode_msg(s[i]),
    decreases i,
{
    if i == 0 {
        let one = s.subrange(0, 1);
        let e = Seq::<MsgV>::empty();
        assert(one[0] == s[0]);
        assert(one.drop_first() =~= e);
        assert(encode_list(e) =~= Seq::<char>::empty());
        assert(encode_list(one) == encode_msg(one[0]) + encode_list(one.drop_first()));
        assert(encode_list(s.subrange(0, 0)) =~= Seq::<char>::empty());
        assert(encode_list(one) =~= encode_msg(s[0]));
    } else {
        let a = s.subrange(0, i + 1);
        let b = s.subrange(0, i);
        assert(a.drop_first() =~= s.drop_first().subrange(0, i));
        assert(b.drop_first() =~= s.drop_first().subrange(0, i - 1));
        lemma_encode_list_snoc(s.drop_first(), i - 1);
        assert(a[0] == s[0] && b[0] == s[0]);
        assert(s.drop_first()[i - 1] == s[i]);
        assert(encode_list(a) == encode_msg(s[0]) + encode_list(a.drop_first()));
        assert(encode_list(b) == encode_msg(s[0]) + encode_list(b.drop_first()));
        assert(encode_list(a) =~= encode_list(b) + encode_msg(s[i]));
    }
}

} // verus!

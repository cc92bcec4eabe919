//! The executable decoder core.
//!
//! One recursive-descent parser serves both textual forms of the protocol:
//! the terminator sequence is a parameter, carriage-return line-feed on the
//! wire and the four-character escaped form in the textual variant.  Every
//! function is proved to return exactly what the reference parser of
//! `model` says.

use vstd::prelude::*;

use crate::model::{
    crlf, escaped_crlf, spec_decode, spec_parse_elems, spec_parse_msg, spec_parse_usize,
    spec_read_line, DecodeErr, MsgV,
};
use crate::num::{parse_i32_chars, parse_usize_chars};
use crate::resp_data::{
    lemma_resp_list_view_len, lemma_resp_list_view_push, resp_list_view, RESPData,
};
use crate::text::chars_to_string;

verus! {

/// The wire terminator as characters.
pub(crate) fn crlf_chars() -> (r: Vec<char>)
    ensures
        r@ == crlf(),
{
    let mut v: Vec<char> = Vec::new();
    v.push('\r');
    v.push('\n');
    proof {
        assert(v@ =~= crlf());
    }
    v
}

/// The escaped terminator as characters.
pub(crate) fn escaped_crlf_chars() -> (r: Vec<char>)
    ensures
        r@ == escaped_crlf(),
{
    let mut v: Vec<char> = Vec::new();
    v.push('\\');
    v.push('r');
    v.push('\\');
    v.push('n');
    proof {
        assert(v@ =~= escaped_crlf());
    }
    v
}

/// Whether a full copy of `term` stands at `at`.
#[verifier::loop_isolation(false)]
fn term_at(input: &Vec<char>, at: usize, term: &Vec<char>) -> (r: bool)
    requires
        at <= input@.len(),
    ensures
        r == (at + term@.len() <= input@.len()
            && input@.subrange(at as int, at + term@.len()) == term@),
{
    if term.len() > input.len() - at {
        proof {
            assert(at + term@.len() > input@.len());
        }
        return false;
    }
    let mut j: usize = 0;
    while j < term.len()
        invariant
            j <= term@.len(),
            forall|k: int| 0 <= k < j ==> input@[at + k] == term@[k],
        decreases term@.len() - j,
    {
        if input[at + j] != term[j] {
            proof {
                let sub = input@.subrange(at as int, at + term@.len());
                assert(sub[j as int] != term@[j as int]);
            }
            return false;
        }
        j = j + 1;
    }
    proof {
        assert(input@.subrange(at as int, at + term@.len()) =~= term@);
    }
    true
}

/// The characters of `input` from `from` to `to`, as a fresh vector.
#[verifier::loop_isolation(false)]
fn collect_range(input: &Vec<char>, from: usize, to: usize) -> (r: Vec<char>)
    requires
        from <= to <= input@.len(),
    ensures
        r@ == input@.subrange(from as int, to as int),
{
    let mut r: Vec<char> = Vec::new();
    let mut i: usize = from;
    while i < to
        invariant
            from <= i <= to,
            r@ == input@.subrange(from as int, i as int),
        decreases to - i,
    {
        r.push(input[i]);
        i = i + 1;
        proof {
            assert(r@ =~= input@.subrange(from as int, i as int));
        }
    }
    r
}

/// Scanning over characters other than the terminator's head only moves
/// the content prefix in front of the rest of the line.
pub(crate) proof fn lemma_read_line_skip(s: Seq<char>, pos: int, i: int, term: Seq<char>)
    requires
        0 <= pos <= i <= s.len(),
        forall|j: int| pos <= j < i ==> s[j] != term[0],
    ensures
        spec_read_line(s, pos, term) == (match spec_read_line(s, i, term) {
            Some(cp) => Some((s.subrange(pos, i) + cp.0, cp.1)),
            None => None::<(Seq<char>, int)>,
        }),
    decreases i - pos,
{
    if pos == i {
        match spec_read_line(s, i, term) {
            Some(cp) => {
                assert(s.subrange(pos, i) + cp.0 =~= cp.0);
            },
            None => {},
        }
    } else {
        lemma_read_line_skip(s, pos + 1, i, term);
        assert(s[pos] != term[0]);
        match spec_read_line(s, i, term) {
            Some(cp) => {
                assert(spec_read_line(s, pos + 1, term)
                    == Some((s.subrange(pos + 1, i) + cp.0, cp.1)));
                assert(seq![s[pos]] + (s.subrange(pos + 1, i) + cp.0)
                    =~= s.subrange(pos, i) + cp.0);
            },
            None => {},
        }
    }
}

/// Reads one terminated field from `pos`: the content before the
/// terminator and the position just past it.
#[verifier::loop_isolation(false)]
fn read_line(input: &Vec<char>, pos: usize, term: &Vec<char>) -> (r: Option<(Vec<char>, usize)>)
    requires
        pos <= input@.len(),
        term@.len() >= 1,
    ensures
        ({
            match (r, spec_read_line(input@, pos as int, term@)) {
                (Some((c, p)), Some(cp)) => c@ == cp.0 && p as int == cp.1
                    && pos < p <= input@.len(),
                (None, None) => true,
                _ => false,
            }
        }),
{
    let mut i: usize = pos;
    while i < input.len() && input[i] != term[0]
        invariant
            pos <= i <= input@.len(),
            forall|j: int| pos <= j < i ==> input@[j] != term@[0],
        decreases input@.len() - i,
    {
        i = i + 1;
    }
    proof {
        lemma_read_line_skip(input@, pos as int, i as int, term@);
    }
    if i == input.len() {
        // the input ended before the terminator's head
        return None;
    }
    if !term_at(input, i, term) {
        proof {
            assert(spec_read_line(input@, i as int, term@) is None);
        }
        return None;
    }
    let content = collect_range(input, pos, i);
    let p = i + term.len();
    proof {
        assert(spec_read_line(input@, i as int, term@)
            == Some((Seq::<char>::empty(), i + term@.len())));
        assert(input@.subrange(pos as int, i as int) + Seq::<char>::empty()
            =~= input@.subrange(pos as int, i as int));
    }
    Some((content, p))
}

/// Parses one message beginning at `pos`, returning it with the position
/// just past it, exactly as the reference parser reads it.
#[verifier::loop_isolation(false)]
pub(crate) fn parse_msg_at(input: &Vec<char>, pos: usize, term: &Vec<char>) -> (r: Result<
    (RESPData, usize),
    DecodeErr,
>)
    requires
        pos <= input@.len(),
        term@.len() >= 1,
    ensures
        ({
            match (r, spec_parse_msg(input@, pos as int, term@)) {
                (Ok((m, p)), Ok(sp)) => m@ == sp.0 && p as int == sp.1
                    && pos < p <= input@.len(),
                (Err(e), Err(se)) => e == se,
                _ => false,
            }
        }),
    decreases input@.len() - pos,
{
    if pos == input.len() {
        return Err(DecodeErr::BadTag);
    }
    let tag = input[pos];
    if tag == '+' {
        match read_line(input, pos + 1, term) {
            Some((content, p2)) => Ok((RESPData::SimpleString(chars_to_string(&content)), p2)),
            None => Err(DecodeErr::BadSimple),
        }
    } else if tag == '-' {
        match read_line(input, pos + 1, term) {
            Some((content, p2)) => Ok((RESPData::Error(chars_to_string(&content)), p2)),
            None => Err(DecodeErr::BadError),
        }
    } else if tag == ':' {
        match read_line(input, pos + 1, term) {
            Some((content, p2)) => match parse_i32_chars(&content) {
                Some(v) => Ok((RESPData::Integer(v), p2)),
                None => Err(DecodeErr::BadInt),
            },
            None => Err(DecodeErr::BadInt),
        }
    } else if tag == '$' {
        match read_line(input, pos + 1, term) {
            Some((lenline, p2)) => match parse_i32_chars(&lenline) {
                Some(n) => {
                    if n == -1 {
                        Ok((RESPData::Null, p2))
                    } else if n < 0 {
                        Err(DecodeErr::BadBulk)
                    } else {
                        let nu = n as usize;
                        if nu <= input.len() - p2 {
                            let end = p2 + nu;
                            if term_at(input, end, term) {
                                let content = collect_range(input, p2, end);
                                Ok((
                                    RESPData::BulkString(chars_to_string(&content)),
                                    end + term.len(),
                                ))
                            } else {
                                Err(DecodeErr::BadBulk)
                            }
                        } else {
                            proof {
                                assert(p2 + n + term@.len() > input@.len());
                            }
                            Err(DecodeErr::BadBulk)
                        }
                    }
                },
                None => Err(DecodeErr::BadBulkLen),
            },
            None => Err(DecodeErr::BadBulk),
        }
    } else if tag == '*' {
        match read_line(input, pos + 1, term) {
            Some((lenline, p2)) => match parse_usize_chars(&lenline) {
                Some(n) => {
                    proof {
                        assert(spec_parse_usize(lenline@) == Some(n as int));
                        assert(spec_parse_msg(input@, pos as int, term@)
                            == (match spec_parse_elems(input@, p2 as int, term@, n as nat) {
                                Ok(rp) => Ok::<(MsgV, int), DecodeErr>((MsgV::Array(rp.0), rp.1)),
                                Err(e) => Err(e),
                            }));
                    }
                    let mut elems: Vec<RESPData> = Vec::new();
                    let mut cur: usize = p2;
                    let mut cnt: usize = 0;
                    loop
                        invariant
                            cnt <= n,
                            pos < cur <= input@.len(),
                            elems@.len() == cnt,
                            spec_parse_elems(input@, p2 as int, term@, n as nat)
                                == (match spec_parse_elems(input@, cur as int, term@,
                                        (n - cnt) as nat) {
                                    Ok(rp) => Ok::<_, DecodeErr>((
                                        resp_list_view(elems@) + rp.0,
                                        rp.1,
                                    )),
                                    Err(e) => Err(e),
                                }),
                        decreases n - cnt,
                    {
                        if cnt == n {
                            break;
                        }
                        match parse_msg_at(input, cur, term) {
                            Ok((m, p3)) => {
                                proof {
                                    let s = input@;
                                    let t = term@;
                                    let rest: nat = (n - cnt) as nat;
                                    assert(spec_parse_elems(s, cur as int, t, rest)
                                        == (match spec_parse_elems(s, p3 as int, t,
                                                (rest - 1) as nat) {
                                            Ok(rp) => Ok::<_, DecodeErr>((
                                                seq![m@] + rp.0,
                                                rp.1,
                                            )),
                                            Err(e) => Err(e),
                                        }));
                                    lemma_resp_list_view_push(elems@, m);
                                    match spec_parse_elems(s, p3 as int, t, (rest - 1) as nat) {
                                        Ok(rp) => {
                                            assert(resp_list_view(elems@) + (seq![m@] + rp.0)
                                                =~= (resp_list_view(elems@) + seq![m@]) + rp.0);
                                        },
                                        Err(_) => {},
                                    }
                                }
                                elems.push(m);
                                cur = p3;
                                cnt = cnt + 1;
                            },
                            Err(e) => {
                                proof {
                                    assert(spec_parse_elems(input@, p2 as int, term@, n as nat)
                                        == Err::<(Seq<MsgV>, int), DecodeErr>(e));
                                }
                                return Err(e);
                            },
                        }
                    }
                    proof {
                        assert(spec_parse_elems(input@, cur as int, term@, 0)
                            == Ok::<_, DecodeErr>((Seq::<MsgV>::empty(), cur as int)));
                        assert(resp_list_view(elems@) + Seq::<MsgV>::empty()
                            =~= resp_list_view(elems@));
                    }
                    Ok((RESPData::Array(elems), cur))
                },
                None => Err(DecodeErr::BadArrayLen),
            },
            None => Err(DecodeErr::BadArrayLen),
        }
    } else {
        Err(DecodeErr::BadTag)
    }
}

/// Decodes a whole input: exactly one message, fully consumed.
pub(crate) fn decode_chars(input: &Vec<char>, term: &Vec<char>) -> (r: Result<RESPData, DecodeErr>)
    requires
        term@.len() >= 1,
    ensures
        ({
            match (r, spec_decode(input@, term@)) {
                (Ok(m), Ok(sm)) => m@ == sm,
                (Err(e), Err(se)) => e == se,
                _ => false,
            }
        }),
{
    if input.len() == 0 {
        return Err(DecodeErr::Empty);
    }
    match parse_msg_at(input, 0, term) {
        Ok((m, p)) => {
            if p == input.len() {
                Ok(m)
            } else {
                Err(DecodeErr::Trailing)
            }
        },
        Err(e) => Err(e),
    }
}

} // verus!

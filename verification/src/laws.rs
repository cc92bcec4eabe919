//! The codec's round-trip law and the store's serial-counter law.

use vstd::prelude::*;

use crate::db::{incr_spec, process_spec};
use crate::model::{
    crlf, dec_digits, encode_list, encode_msg, i32_in_range, int_dec, is_digit,
    null_free, spec_decode, spec_parse_elems, spec_parse_msg, spec_read_line, wf_msg, DecodeErr,
    MsgV,
};
use crate::num::{lemma_dec_digits_wf, lemma_parse_int_dec, lemma_parse_usize_dec};
use crate::parser::lemma_read_line_skip;
use crate::resp::wire_decoded;
use crate::store::{incr_result, StoredV};

verus! {

/// `w` stands in `s` beginning at `pos`.
pub open spec fn window(s: Seq<char>, pos: int, w: Seq<char>) -> bool {
    0 <= pos && pos + w.len() <= s.len() && s.subrange(pos, pos + w.len()) == w
}

proof fn lemma_window_index(s: Seq<char>, pos: int, w: Seq<char>)
    requires
        window(s, pos, w),
    ensures
        forall|k: int| 0 <= k < w.len() ==> s[pos + k] == #[trigger] w[k],
{
    assert forall|k: int| 0 <= k < w.len() implies s[pos + k] == #[trigger] w[k] by {
        assert(w[k] == s.subrange(pos, pos + w.len() as int)[k]);
    }
}

/// A part of a window is a window of the part.
proof fn lemma_window_sub(s: Seq<char>, pos: int, w: Seq<char>, a: int, b: int)
    requires
        window(s, pos, w),
        0 <= a <= b <= w.len(),
    ensures
        s.subrange(pos + a, pos + b) == w.subrange(a, b),
{
    lemma_window_index(s, pos, w);
    assert forall|k: int| 0 <= k < b - a
        implies s.subrange(pos + a, pos + b)[k] == w.subrange(a, b)[k] by {
        assert(s[pos + (a + k)] == w[a + k]);
    }
    assert(s.subrange(pos + a, pos + b) =~= w.subrange(a, b));
}

/// Reading a line whose content holds no carriage return finds exactly
/// that content and stops just past the terminator.
proof fn lemma_read_line_exact(s: Seq<char>, pos: int, content: Seq<char>)
    requires
        window(s, pos, content + crlf()),
        forall|i: int| 0 <= i < content.len() ==> #[trigger] content[i] != '\r',
    ensures
        spec_read_line(s, pos, crlf()) == Some((content, pos + content.len() + 2)),
{
    let w = content + crlf();
    let i = pos + content.len();
    lemma_window_index(s, pos, w);
    assert forall|j: int| pos <= j < i implies s[j] != '\r' by {
        assert(s[j] == w[j - pos]);
        assert(w[j - pos] == content[j - pos]);
    }
    lemma_read_line_skip(s, pos, i, crlf());
    assert(s[i] == w[content.len() as int]);
    assert(s[i] == '\r');
    assert(s[i + 1] == w[content.len() as int + 1]);
    assert(s[i + 1] == '\n');
    assert(s.subrange(i, i + 2) =~= crlf());
    assert(spec_read_line(s, i, crlf()) == Some((Seq::<char>::empty(), i + 2)));
    assert(s.subrange(pos, i) =~= content);
    assert(s.subrange(pos, i) + Seq::<char>::empty() =~= content);
}

/// A rendered decimal holds neither carriage return nor line feed.
proof fn lemma_int_dec_no_cr(v: int)
    ensures
        forall|i: int| 0 <= i < int_dec(v).len()
            ==> #[trigger] int_dec(v)[i] != '\r' && int_dec(v)[i] != '\n',
{
    if v < 0 {
        lemma_dec_digits_wf(-v);
        assert forall|i: int| 0 <= i < int_dec(v).len()
            implies #[trigger] int_dec(v)[i] != '\r' && int_dec(v)[i] != '\n' by {
            if i > 0 {
                assert(int_dec(v)[i] == dec_digits(-v)[i - 1]);
                assert(is_digit(dec_digits(-v)[i - 1]));
            }
        }
    } else {
        lemma_dec_digits_wf(v);
        assert forall|i: int| 0 <= i < int_dec(v).len()
            implies #[trigger] int_dec(v)[i] != '\r' && int_dec(v)[i] != '\n' by {
            assert(is_digit(dec_digits(v)[i]));
        }
    }
}

/// Every encoding begins with its tag: it is never empty.
proof fn lemma_encode_nonempty(m: MsgV)
    ensures
        encode_msg(m).len() >= 1,
{
}

/// Parsing an encoded message out of any surrounding text yields exactly
/// that message and stops exactly at its end.
proof fn lemma_parse_at(s: Seq<char>, pos: int, m: MsgV)
    requires
        wf_msg(m),
        null_free(m),
        window(s, pos, encode_msg(m)),
    ensures
        spec_parse_msg(s, pos, crlf()) == Ok::<(MsgV, int), DecodeErr>((
            m,
            pos + encode_msg(m).len(),
        )),
    decreases m, 0int,
{
    let enc = encode_msg(m);
    lemma_window_index(s, pos, enc);
    match m {
        MsgV::SimpleString(text) => {
            assert(enc[0] == '+');
            assert(s[pos] == '+') by {
                assert(s[pos + 0] == enc[0]);
            }
            lemma_window_sub(s, pos, enc, 1, enc.len() as int);
            assert(enc.subrange(1, enc.len() as int) =~= text + crlf());
            lemma_read_line_exact(s, pos + 1, text);
        },
        MsgV::Error(text) => {
            assert(enc[0] == '-');
            assert(s[pos] == '-') by {
                assert(s[pos + 0] == enc[0]);
            }
            lemma_window_sub(s, pos, enc, 1, enc.len() as int);
            assert(enc.subrange(1, enc.len() as int) =~= text + crlf());
            lemma_read_line_exact(s, pos + 1, text);
        },
        MsgV::Integer(v) => {
            let d = int_dec(v);
            assert(enc[0] == ':');
            assert(s[pos] == ':') by {
                assert(s[pos + 0] == enc[0]);
            }
            lemma_window_sub(s, pos, enc, 1, enc.len() as int);
            assert(enc.subrange(1, enc.len() as int) =~= d + crlf());
            lemma_int_dec_no_cr(v);
            lemma_read_line_exact(s, pos + 1, d);
            lemma_parse_int_dec(v);
        },
        MsgV::BulkString(content) => {
            let ln = content.len() as int;
            let d = int_dec(ln);
            assert(enc == seq!['$'] + d + crlf() + content + crlf());
            assert(enc[0] == '$');
            assert(s[pos] == '$') by {
                assert(s[pos + 0] == enc[0]);
            }
            lemma_window_sub(s, pos, enc, 1, 1 + d.len() as int + 2);
            assert(enc.subrange(1, 1 + d.len() as int + 2) =~= d + crlf());
            lemma_int_dec_no_cr(ln);
            lemma_read_line_exact(s, pos + 1, d);
            let p2 = pos + 1 + d.len() + 2;
            lemma_parse_int_dec(ln);
            lemma_window_sub(s, pos, enc, 1 + d.len() as int + 2, 1 + d.len() as int + 2 + ln);
            assert(enc.subrange(1 + d.len() as int + 2, 1 + d.len() as int + 2 + ln)
                =~= content);
            lemma_window_sub(s, pos, enc, 1 + d.len() as int + 2 + ln, enc.len() as int);
            assert(enc.subrange(1 + d.len() as int + 2 + ln, enc.len() as int) =~= crlf());
            assert(s.subrange(p2, p2 + ln) == content);
            assert(s.subrange(p2 + ln, p2 + ln + 2) == crlf());
        },
        MsgV::Array(elems) => {
            let n = elems.len() as int;
            let d = int_dec(n);
            assert(enc == seq!['*'] + d + crlf() + encode_list(elems));
            assert(enc[0] == '*');
            assert(s[pos] == '*') by {
                assert(s[pos + 0] == enc[0]);
            }
            lemma_window_sub(s, pos, enc, 1, 1 + d.len() as int + 2);
            assert(enc.subrange(1, 1 + d.len() as int + 2) =~= d + crlf());
            lemma_int_dec_no_cr(n);
            lemma_read_line_exact(s, pos + 1, d);
            let p2 = pos + 1 + d.len() + 2;
            lemma_parse_usize_dec(n);
            lemma_window_sub(s, pos, enc, 1 + d.len() as int + 2, enc.len() as int);
            assert(enc.subrange(1 + d.len() as int + 2, enc.len() as int)
                =~= encode_list(elems));
            assert(window(s, p2, encode_list(elems)));
            lemma_parse_elems_at(s, p2, elems);
        },
        MsgV::Null => {
            assert(false);
        },
    }
}

/// Parsing the concatenated encodings of a list of messages, one after
/// the other, yields exactly those messages in order.
proof fn lemma_parse_elems_at(s: Seq<char>, pos: int, elems: Seq<MsgV>)
    requires
        forall|i: int| 0 <= i < elems.len()
            ==> wf_msg(#[trigger] elems[i]) && null_free(elems[i]),
        window(s, pos, encode_list(elems)),
    ensures
        spec_parse_elems(s, pos, crlf(), elems.len() as nat) == Ok::<
            (Seq<MsgV>, int),
            DecodeErr,
        >((elems, pos + encode_list(elems).len())),
    decreases elems, 1int,
{
    if elems.len() == 0 {
        assert(elems =~= Seq::<MsgV>::empty());
    } else {
        let m0 = elems[0];
        let e0 = encode_msg(m0);
        let rest = elems.drop_first();
        let w = encode_list(elems);
        assert(w == e0 + encode_list(rest));
        lemma_window_sub(s, pos, w, 0, e0.len() as int);
        assert(w.subrange(0, e0.len() as int) =~= e0);
        assert(s.subrange(pos + 0, pos + e0.len()) == e0);
        assert(s.subrange(pos, pos + e0.len()) == e0);
        lemma_parse_at(s, pos, m0);
        let p2 = pos + e0.len();
        lemma_encode_nonempty(m0);
        lemma_window_sub(s, pos, w, e0.len() as int, w.len() as int);
        assert(w.subrange(e0.len() as int, w.len() as int) =~= encode_list(rest));
        assert(window(s, p2, encode_list(rest)));
        lemma_parse_elems_at(s, p2, rest);
        assert(seq![m0] + rest =~= elems);
    }
}

/// Round trip: decoding the encoding of any well-formed message that
/// holds no `Null` yields that message back, with nothing left over.
pub proof fn lemma_round_trip(m: MsgV)
    requires
        wf_msg(m),
        null_free(m),
    ensures
        spec_decode(encode_msg(m), crlf()) == Ok::<MsgV, DecodeErr>(m),
        wire_decoded(encode_msg(m)) == m,
{
    let enc = encode_msg(m);
    lemma_encode_nonempty(m);
    assert(enc.subrange(0, enc.len() as int) =~= enc);
    lemma_parse_at(enc, 0, m);
}

// ---------------------------------------------------------------------------
// Errors leave the store alone
// ---------------------------------------------------------------------------

/// Counting deletions always answers an integer.
proof fn lemma_del_loop_integer(m: Map<Seq<char>, StoredV>, args: Seq<MsgV>, acc: int)
    ensures
        crate::db::del_loop(m, args, acc).1 is Integer,
    decreases args.len(),
{
    if args.len() > 0 {
        let k = args[0]->BulkString_0;
        lemma_del_loop_integer(
            m.remove(k),
            args.drop_first(),
            acc + (if m.contains_key(k) { 1int } else { 0int }),
        );
    }
}

/// An error reply never corrupts the store: whatever message comes in,
/// if the dispatcher answers with an `Error` of its own, the store after
/// the call is exactly the store before it.  (PING and ECHO may echo an
/// `Error` argument back verbatim; they never touch the store either.)
pub proof fn lemma_error_leaves_store(m: Map<Seq<char>, StoredV>, msg: MsgV)
    ensures
        process_spec(m, msg).1 is Error ==> process_spec(m, msg).0 == m,
{
    match msg {
        MsgV::Array(elems) => {
            if elems.len() > 0 {
                match elems[0] {
                    MsgV::BulkString(cmd) => {
                        let args = elems.drop_first();
                        let lc = crate::db::ascii_lower(cmd);
                        if lc == "del"@ && args.len() > 0 && crate::db::all_bulk(args) {
                            lemma_del_loop_integer(m, args, 0);
                        }
                    },
                    _ => {},
                }
            }
        },
        _ => {},
    }
}

// ---------------------------------------------------------------------------
// Serial counting
// ---------------------------------------------------------------------------

/// The increment command for a key, as the dispatcher receives it.
pub open spec fn incr_msg(k: Seq<char>) -> MsgV {
    MsgV::Array(seq![MsgV::BulkString("incr"@), MsgV::BulkString(k)])
}

/// The store map after `n` increment commands on `k`, applied one after
/// the other.
pub open spec fn process_incr_n(m: Map<Seq<char>, StoredV>, k: Seq<char>, n: nat) -> Map<
    Seq<char>,
    StoredV,
>
    decreases n,
{
    if n == 0 {
        m
    } else {
        process_spec(process_incr_n(m, k, (n - 1) as nat), incr_msg(k)).0
    }
}

/// The lower-case command name reaches the increment branch.
proof fn lemma_incr_dispatch(m: Map<Seq<char>, StoredV>, k: Seq<char>)
    ensures
        process_spec(m, incr_msg(k)) == incr_spec(m, "incr"@, seq![MsgV::BulkString(k)], 1),
{
    reveal_strlit("incr");
    reveal_strlit("ping");
    reveal_strlit("echo");
    reveal_strlit("set");
    reveal_strlit("get");
    reveal_strlit("exists");
    reveal_strlit("del");
    let elems = seq![MsgV::BulkString("incr"@), MsgV::BulkString(k)];
    assert(elems.drop_first() =~= seq![MsgV::BulkString(k)]);
    let lc = crate::db::ascii_lower("incr"@);
    assert(lc =~= "incr"@) by {
        assert forall|i: int| 0 <= i < "incr"@.len()
            implies crate::db::lower_char("incr"@[i]) == #[trigger] "incr"@[i] by {}
    }
    assert(lc != "ping"@) by {
        assert(lc[0] == 'i' && "ping"@[0] == 'p');
    }
    assert(lc != "echo"@) by {
        assert(lc[0] == 'i' && "echo"@[0] == 'e');
    }
    assert(lc != "set"@) by {
        assert(lc.len() == 4 && "set"@.len() == 3);
    }
    assert(lc != "get"@) by {
        assert(lc.len() == 4 && "get"@.len() == 3);
    }
    assert(lc != "exists"@) by {
        assert(lc.len() == 4 && "exists"@.len() == 6);
    }
    assert(lc != "del"@) by {
        assert(lc.len() == 4 && "del"@.len() == 3);
    }
}

/// Serial counting loses no update: starting from an absent key, any
/// sequence of `n` increment commands, each applied atomically after the
/// one before, leaves exactly the integer `n` stored under the key, and
/// the `n`-th response reports it.
pub proof fn lemma_incr_serial(m: Map<Seq<char>, StoredV>, k: Seq<char>, n: nat)
    requires
        !m.contains_key(k),
        1 <= n <= 0x7fff_ffff,
    ensures
        process_incr_n(m, k, n).contains_key(k),
        process_incr_n(m, k, n)[k] == StoredV::Str(int_dec(n as int)),
        process_spec(process_incr_n(m, k, (n - 1) as nat), incr_msg(k)).1 == MsgV::Integer(
            n as int,
        ),
    decreases n,
{
    lemma_incr_dispatch(process_incr_n(m, k, (n - 1) as nat), k);
    let args = seq![MsgV::BulkString(k)];
    assert(args[0]->BulkString_0 == k);
    if n == 1 {
        assert(process_incr_n(m, k, 0) == m);
        assert(incr_result(m, k, 1) == Ok::<int, crate::store::StoreErr>(1));
    } else {
        lemma_incr_serial(m, k, (n - 1) as nat);
        let prev = process_incr_n(m, k, (n - 1) as nat);
        assert(prev[k] == StoredV::Str(int_dec(n - 1)));
        lemma_parse_int_dec(n - 1);
        assert(i32_in_range(n as int));
        assert(incr_result(prev, k, 1) == Ok::<int, crate::store::StoreErr>(n as int));
    }
}

} // verus!

//! The command dispatcher.
//!
//! `DB` owns the store and interprets one decoded message per call as a
//! command invocation: it validates the shape and arity, touches the
//! store, and produces the response message.  The whole behaviour — the
//! response and the store it leaves behind — is `process_spec` of the
//! store's map and the message tree.

use vstd::prelude::*;

use crate::model::{int_dec, MsgV};
use crate::resp_data::{
    lemma_resp_list_view_index, lemma_resp_list_view_len, resp_list_view, RESPData,
};
use crate::store::{
    incr_result, pushed_list, Store, StoredV, StoredValue, StoreErr, strs_view,
};
use crate::text::{chars_to_string, str_to_chars};
use vstd::string::StringExecFns;

verus! {

// ---------------------------------------------------------------------------
// Case folding for command names
// ---------------------------------------------------------------------------

/// The lower-case form of an upper-case Latin letter; anything else as is.
pub open spec fn lower_char(c: char) -> char {
    if 'A' <= c && c <= 'Z' {
        ((c as u8) + 32) as char
    } else {
        c
    }
}

/// Letter-by-letter lower-casing, for case-insensitive command names.
pub open spec fn ascii_lower(s: Seq<char>) -> Seq<char> {
    s.map_values(|c: char| lower_char(c))
}

/// The lower-case form of a command name.
#[verifier::loop_isolation(false)]
fn lowercase_string(s: &String) -> (r: String)
    ensures
        r@ == ascii_lower(s@),
{
    let cs = str_to_chars(s.as_str());
    let mut out: Vec<char> = Vec::new();
    let mut i: usize = 0;
    while i < cs.len()
        invariant
            i <= cs@.len(),
            cs@ == s@,
            out@.len() == i,
            forall|j: int| 0 <= j < i ==> #[trigger] out@[j] == lower_char(s@[j]),
        decreases cs@.len() - i,
    {
        let c = cs[i];
        if c >= 'A' && c <= 'Z' {
            out.push(((c as u8) + 32) as char);
        } else {
            out.push(c);
        }
        i = i + 1;
    }
    proof {
        assert(out@ =~= ascii_lower(s@));
    }
    chars_to_string(&out)
}

// ---------------------------------------------------------------------------
// What each command does, in spec
// ---------------------------------------------------------------------------

/// The response to a message that is not an array of a command name and
/// arguments.
pub open spec fn invalid_resp() -> MsgV {
    MsgV::Error("Invalid RESP message!"@)
}

/// The arity error for a command, named as the peer typed it.
pub open spec fn arity_err(cmd: Seq<char>) -> MsgV {
    MsgV::Error("ERR wrong number of arguments for '"@ + cmd + "' command"@)
}

pub open spec fn syntax_err() -> MsgV {
    MsgV::Error("ERR syntax error"@)
}

/// The message a stored value reads back as.
pub open spec fn stored_to_msg(v: StoredV) -> MsgV {
    match v {
        StoredV::Str(s) => MsgV::BulkString(s),
        StoredV::List(l) => MsgV::Array(l.map_values(|t: Seq<char>| MsgV::BulkString(t))),
    }
}

/// A count clamped to the protocol's integer range.  The clamp cannot be
/// reached through the wire, whose frames are far too short to name that
/// many keys, but it makes the counting commands total.
pub open spec fn sat_i32(n: int) -> int {
    if n <= 0x7fff_ffff {
        n
    } else {
        0x7fff_ffff
    }
}

/// PING: no argument answers PONG, one argument is echoed back verbatim.
pub open spec fn ping_spec(cmd: Seq<char>, args: Seq<MsgV>) -> MsgV {
    if args.len() == 0 {
        MsgV::SimpleString("PONG"@)
    } else if args.len() == 1 {
        args[0]
    } else {
        arity_err(cmd)
    }
}

/// ECHO: exactly one argument, echoed back verbatim.
pub open spec fn echo_spec(cmd: Seq<char>, args: Seq<MsgV>) -> MsgV {
    if args.len() == 1 {
        args[0]
    } else {
        arity_err(cmd)
    }
}

/// SET key value: stores the value text, replacing whatever was there.
pub open spec fn set_spec(m: Map<Seq<char>, StoredV>, args: Seq<MsgV>) -> (Map<
    Seq<char>,
    StoredV,
>, MsgV) {
    if args.len() != 2 {
        (m, syntax_err())
    } else if !(args[0] is BulkString) || !(args[1] is BulkString) {
        (m, syntax_err())
    } else {
        (
            m.insert(args[0]->BulkString_0, StoredV::Str(args[1]->BulkString_0)),
            MsgV::SimpleString("OK"@),
        )
    }
}

/// GET key: a copy of the stored value, or Null when the key is absent.
pub open spec fn get_spec(m: Map<Seq<char>, StoredV>, args: Seq<MsgV>) -> MsgV {
    if args.len() != 1 {
        MsgV::Error("ERR wrong number of arguments for 'GET' command"@)
    } else if !(args[0] is BulkString) {
        syntax_err()
    } else {
        let k = args[0]->BulkString_0;
        if m.contains_key(k) {
            stored_to_msg(m[k])
        } else {
            MsgV::Null
        }
    }
}

/// EXISTS, one key at a time: each present key adds one to the count; a
/// non-text argument stops the command with an error.
pub open spec fn exists_loop(m: Map<Seq<char>, StoredV>, args: Seq<MsgV>, acc: int) -> MsgV
    decreases args.len(),
{
    if args.len() == 0 {
        MsgV::Integer(sat_i32(acc))
    } else if args[0] is BulkString {
        exists_loop(
            m,
            args.drop_first(),
            acc + (if m.contains_key(args[0]->BulkString_0) { 1int } else { 0int }),
        )
    } else {
        MsgV::Error("ERR syntax error."@)
    }
}

/// EXISTS keys...: the count of keys present.
pub open spec fn exists_spec(m: Map<Seq<char>, StoredV>, args: Seq<MsgV>) -> MsgV {
    if args.len() == 0 {
        MsgV::Error("ERR wrong number of arguments for 'EXISTS' command"@)
    } else {
        exists_loop(m, args, 0)
    }
}

/// DEL, one key at a time over text arguments: each present key is
/// removed and counted.
pub open spec fn del_loop(m: Map<Seq<char>, StoredV>, args: Seq<MsgV>, acc: int) -> (Map<
    Seq<char>,
    StoredV,
>, MsgV)
    decreases args.len(),
{
    if args.len() == 0 {
        (m, MsgV::Integer(sat_i32(acc)))
    } else {
        let k = args[0]->BulkString_0;
        del_loop(
            m.remove(k),
            args.drop_first(),
            acc + (if m.contains_key(k) { 1int } else { 0int }),
        )
    }
}

/// DEL keys...: the count of keys actually removed.  A non-text argument
/// anywhere rejects the whole command and leaves the store untouched.
pub open spec fn del_spec(m: Map<Seq<char>, StoredV>, args: Seq<MsgV>) -> (Map<
    Seq<char>,
    StoredV,
>, MsgV) {
    if args.len() == 0 {
        (m, MsgV::Error("ERR wrong number of arguments for 'DEL' command"@))
    } else if !all_bulk(args) {
        (m, MsgV::Error("ERR syntax error."@))
    } else {
        del_loop(m, args, 0)
    }
}

/// INCR and DECR: the stored text read as an integer, moved by `delta`,
/// stored back as text and returned; failures leave the store unchanged.
/// The arity error names the command as the peer typed it.
pub open spec fn incr_spec(m: Map<Seq<char>, StoredV>, cmd: Seq<char>, args: Seq<MsgV>, delta: int) -> (Map<
    Seq<char>,
    StoredV,
>, MsgV) {
    if args.len() != 1 {
        (m, arity_err(cmd))
    } else if !(args[0] is BulkString) {
        (m, syntax_err())
    } else {
        let k = args[0]->BulkString_0;
        match incr_result(m, k, delta) {
            Ok(v) => (m.insert(k, StoredV::Str(int_dec(v))), MsgV::Integer(v)),
            Err(StoreErr::NotAnInteger) => (
                m,
                MsgV::Error("ERR value is not an integer or out of range"@),
            ),
            Err(StoreErr::WrongType) => (m, MsgV::Error("Invalid message!"@)),
        }
    }
}

/// Every argument is a text.
pub open spec fn all_bulk(args: Seq<MsgV>) -> bool {
    forall|i: int| 0 <= i < args.len() ==> args[i] is BulkString
}

/// The texts of a sequence of text arguments, in order.
pub open spec fn bulk_texts(args: Seq<MsgV>) -> Seq<Seq<char>> {
    args.map_values(|a: MsgV| a->BulkString_0)
}

/// LPUSH and RPUSH: the given texts joined to the list under the key, at
/// its head keeping their order, or at its tail.  The arity error names
/// the command as the peer typed it.
pub open spec fn push_spec(m: Map<Seq<char>, StoredV>, cmd: Seq<char>, args: Seq<MsgV>, front: bool) -> (Map<
    Seq<char>,
    StoredV,
>, MsgV) {
    if args.len() < 2 {
        (m, arity_err(cmd))
    } else if !(args[0] is BulkString) {
        (m, MsgV::Error("Invalid message!"@))
    } else if !all_bulk(args.drop_first()) {
        (m, MsgV::Error("Invalid message!"@))
    } else {
        let k = args[0]->BulkString_0;
        match pushed_list(m, k, bulk_texts(args.drop_first()), front) {
            Some(nl) => (m.insert(k, StoredV::List(nl)), MsgV::SimpleString("OK"@)),
            None => (m, MsgV::Error("Invalid message!"@)),
        }
    }
}

/// One command dispatched by its lower-cased name.
pub open spec fn dispatch_spec(m: Map<Seq<char>, StoredV>, cmd: Seq<char>, args: Seq<MsgV>) -> (Map<
    Seq<char>,
    StoredV,
>, MsgV) {
    let lc = ascii_lower(cmd);
    if lc == "ping"@ {
        (m, ping_spec(cmd, args))
    } else if lc == "echo"@ {
        (m, echo_spec(cmd, args))
    } else if lc == "set"@ {
        set_spec(m, args)
    } else if lc == "get"@ {
        (m, get_spec(m, args))
    } else if lc == "exists"@ {
        (m, exists_spec(m, args))
    } else if lc == "del"@ {
        del_spec(m, args)
    } else if lc == "incr"@ {
        incr_spec(m, cmd, args, 1)
    } else if lc == "decr"@ {
        incr_spec(m, cmd, args, -1)
    } else if lc == "lpush"@ {
        push_spec(m, cmd, args, true)
    } else if lc == "rpush"@ {
        push_spec(m, cmd, args, false)
    } else {
        (m, MsgV::Error("Invalid command "@ + cmd + "!"@))
    }
}

/// One whole invocation: the message must be an array whose first element
/// is a text naming the command; the rest are its arguments, unevaluated.
pub open spec fn process_spec(m: Map<Seq<char>, StoredV>, msg: MsgV) -> (Map<
    Seq<char>,
    StoredV,
>, MsgV) {
    match msg {
        MsgV::Array(elems) => {
            if elems.len() == 0 {
                (m, invalid_resp())
            } else {
                match elems[0] {
                    MsgV::BulkString(cmd) => dispatch_spec(m, cmd, elems.drop_first()),
                    _ => (m, invalid_resp()),
                }
            }
        },
        _ => (m, invalid_resp()),
    }
}

// ---------------------------------------------------------------------------
// The executable dispatcher
// ---------------------------------------------------------------------------

/// The dispatcher and the store it owns.
pub struct DB {
    store: Store,
}

impl View for DB {
    type V = Map<Seq<char>, StoredV>;

    closed spec fn view(&self) -> Map<Seq<char>, StoredV> {
        self.store@
    }
}

fn err_string(text: &str) -> (r: RESPData)
    ensures
        r@ == MsgV::Error(text@),
{
    RESPData::Error(String::from_str(text))
}

fn err_arity(cmd: &String) -> (r: RESPData)
    ensures
        r@ == arity_err(cmd@),
{
    let mut s = String::from_str("ERR wrong number of arguments for '");
    s.append(cmd.as_str());
    s.append("' command");
    RESPData::Error(s)
}

impl DB {
    /// The store inside keeps its shape sound.
    pub closed spec fn wf(&self) -> bool {
        self.store.wf()
    }

    /// A dispatcher over an empty store.
    pub fn new() -> (r: Self)
        ensures
            r.wf(),
            r@ == Map::<Seq<char>, StoredV>::empty(),
    {
        DB { store: Store::new() }
    }

    /// Interprets one decoded message as a command invocation and answers
    /// it, as `process_spec` says: the first component is the store left
    /// behind, the second the response.
    pub fn proccess_message(&mut self, message: RESPData) -> (r: RESPData)
        requires
            old(self).wf(),
        ensures
            final(self).wf(),
            final(self)@ == process_spec(old(self)@, message@).0,
            r@ == process_spec(old(self)@, message@).1,
    {
        match message {
            RESPData::Array(mut elems) => {
                proof {
                    lemma_resp_list_view_len(elems@);
                }
                if elems.len() == 0 {
                    err_string("Invalid RESP message!")
                } else {
                    let ghost whole = elems@;
                    let first = elems.remove(0);
                    proof {
                        assert(whole.remove(0) =~= whole.drop_first());
                        lemma_resp_list_view_index(whole, 0);
                        assert(resp_list_view(whole)
                            == seq![first@] + resp_list_view(whole.drop_first()));
                        assert(resp_list_view(whole).drop_first()
                            =~= resp_list_view(whole.drop_first()));
                        assert(resp_list_view(whole)[0] == first@);
                    }
                    match first {
                        RESPData::BulkString(cmd) => self.dispatch(cmd, elems),
                        _ => err_string("Invalid RESP message!"),
                    }
                }
            },
            _ => err_string("Invalid RESP message!"),
        }
    }

    /// One command, already split into its name and arguments.
    fn dispatch(&mut self, cmd: String, args: Vec<RESPData>) -> (r: RESPData)
        requires
            old(self).wf(),
        ensures
            final(self).wf(),
            final(self)@ == dispatch_spec(old(self)@, cmd@, resp_list_view(args@)).0,
            r@ == dispatch_spec(old(self)@, cmd@, resp_list_view(args@)).1,
    {
        let lc = lowercase_string(&cmd);
        if lc == String::from_str("ping") {
            Self::handle_ping_echo(&cmd, args, true)
        } else if lc == String::from_str("echo") {
            Self::handle_ping_echo(&cmd, args, false)
        } else if lc == String::from_str("set") {
            self.handle_set(args)
        } else if lc == String::from_str("get") {
            self.handle_get(args)
        } else if lc == String::from_str("exists") {
            self.handle_exists(args)
        } else if lc == String::from_str("del") {
            self.handle_del(args)
        } else if lc == String::from_str("incr") {
            self.handle_incr(&cmd, args)
        } else if lc == String::from_str("decr") {
            self.handle_decr(&cmd, args)
        } else if lc == String::from_str("lpush") {
            self.handle_lpush(&cmd, args)
        } else if lc == String::from_str("rpush") {
            self.handle_rpush(&cmd, args)
        } else {
            let mut s = String::from_str("Invalid command ");
            s.append(cmd.as_str());
            s.append("!");
            RESPData::Error(s)
        }
    }

    /// PING answers PONG when bare; with one argument, both PING and ECHO
    /// echo it back verbatim.
    fn handle_ping_echo(cmd: &String, args: Vec<RESPData>, is_ping: bool) -> (r: RESPData)
        ensures
            is_ping ==> r@ == ping_spec(cmd@, resp_list_view(args@)),
            !is_ping ==> r@ == echo_spec(cmd@, resp_list_view(args@)),
    {
        proof {
            lemma_resp_list_view_len(args@);
        }
        let mut args = args;
        if args.len() == 1 {
            proof {
                lemma_resp_list_view_index(args@, 0);
            }
            args.remove(0)
        } else if args.len() == 0 && is_ping {
            RESPData::SimpleString(String::from_str("PONG"))
        } else {
            err_arity(cmd)
        }
    }

    fn handle_set(&mut self, args: Vec<RESPData>) -> (r: RESPData)
        requires
            old(self).wf(),
        ensures
            final(self).wf(),
            final(self)@ == set_spec(old(self)@, resp_list_view(args@)).0,
            r@ == set_spec(old(self)@, resp_list_view(args@)).1,
    {
        proof {
            lemma_resp_list_view_len(args@);
        }
        if args.len() != 2 {
            err_string("ERR syntax error")
        } else {
            proof {
                lemma_resp_list_view_index(args@, 0);
                lemma_resp_list_view_index(args@, 1);
            }
            match &args[0] {
                RESPData::BulkString(k) => match &args[1] {
                    RESPData::BulkString(v) => {
                        self.store.set(k.clone(), StoredValue::Str(v.clone()));
                        RESPData::SimpleString(String::from_str("OK"))
                    },
                    _ => err_string("ERR syntax error"),
                },
                _ => err_string("ERR syntax error"),
            }
        }
    }

    fn handle_get(&self, args: Vec<RESPData>) -> (r: RESPData)
        requires
            self.wf(),
        ensures
            r@ == get_spec(self@, resp_list_view(args@)),
    {
        proof {
            lemma_resp_list_view_len(args@);
        }
        if args.len() != 1 {
            err_string("ERR wrong number of arguments for 'GET' command")
        } else {
            proof {
                lemma_resp_list_view_index(args@, 0);
            }
            match &args[0] {
                RESPData::BulkString(k) => match self.store.get(k) {
                    Some(StoredValue::Str(s)) => RESPData::BulkString(s),
                    Some(StoredValue::List(l)) => Self::list_reply(l),
                    None => RESPData::Null,
                },
                _ => err_string("ERR syntax error"),
            }
        }
    }

    /// A stored list read back as an array of texts.
    #[verifier::loop_isolation(false)]
    fn list_reply(l: Vec<String>) -> (r: RESPData)
        ensures
            r@ == stored_to_msg(StoredV::List(strs_view(l@))),
    {
        let mut out: Vec<RESPData> = Vec::new();
        let mut i: usize = 0;
        while i < l.len()
            invariant
                i <= l@.len(),
                out@.len() == i,
                forall|j: int| 0 <= j < i ==> #[trigger] out@[j]@ == MsgV::BulkString(l@[j]@),
            decreases l@.len() - i,
        {
            out.push(RESPData::BulkString(l[i].clone()));
            i = i + 1;
        }
        proof {
            lemma_resp_list_view_len(out@);
            assert forall|j: int| 0 <= j < out@.len()
                implies #[trigger] resp_list_view(out@)[j]
                    == strs_view(l@).map_values(|t: Seq<char>| MsgV::BulkString(t))[j] by {
                lemma_resp_list_view_index(out@, j);
            }
            assert(resp_list_view(out@)
                =~= strs_view(l@).map_values(|t: Seq<char>| MsgV::BulkString(t)));
        }
        RESPData::Array(out)
    }

    #[verifier::loop_isolation(false)]
    fn handle_exists(&self, args: Vec<RESPData>) -> (r: RESPData)
        requires
            self.wf(),
        ensures
            r@ == exists_spec(self@, resp_list_view(args@)),
    {
        proof {
            lemma_resp_list_view_len(args@);
        }
        let ghost argv = resp_list_view(args@);
        if args.len() == 0 {
            return err_string("ERR wrong number of arguments for 'EXISTS' command");
        }
        proof {
            assert(argv.skip(0) =~= argv);
        }
        let mut count: usize = 0;
        let mut i: usize = 0;
        while i < args.len()
            invariant
                i <= args@.len(),
                count <= i,
                exists_loop(self@, argv, 0) == exists_loop(
                    self@,
                    argv.skip(i as int),
                    count as int,
                ),
            decreases args@.len() - i,
        {
            proof {
                lemma_resp_list_view_index(args@, i as int);
                assert(argv.skip(i as int)[0] == argv[i as int]);
                assert(argv.skip(i as int).drop_first() =~= argv.skip(i + 1));
            }
            match &args[i] {
                RESPData::BulkString(k) => {
                    if self.store.exists_key(k) {
                        count = count + 1;
                    }
                },
                _ => {
                    return err_string("ERR syntax error.");
                },
            }
            i = i + 1;
        }
        proof {
            assert(argv.skip(args@.len() as int).len() == 0);
        }
        if count > 0x7fff_ffffusize {
            RESPData::Integer(0x7fff_ffffi32)
        } else {
            RESPData::Integer(count as i32)
        }
    }

    #[verifier::loop_isolation(false)]
    fn handle_del(&mut self, args: Vec<RESPData>) -> (r: RESPData)
        requires
            old(self).wf(),
        ensures
            final(self).wf(),
            final(self)@ == del_spec(old(self)@, resp_list_view(args@)).0,
            r@ == del_spec(old(self)@, resp_list_view(args@)).1,
    {
        proof {
            lemma_resp_list_view_len(args@);
        }
        let ghost argv = resp_list_view(args@);
        if args.len() == 0 {
            return err_string("ERR wrong number of arguments for 'DEL' command");
        }
        // every argument must be a text before anything is removed: an
        // error reply never changes the store
        let mut i: usize = 0;
        while i < args.len()
            invariant
                i <= args@.len(),
                forall|j: int| 0 <= j < i ==> #[trigger] argv[j] is BulkString,
            decreases args@.len() - i,
        {
            proof {
                lemma_resp_list_view_index(args@, i as int);
            }
            match &args[i] {
                RESPData::BulkString(_) => {},
                _ => {
                    proof {
                        assert(!all_bulk(argv));
                    }
                    return err_string("ERR syntax error.");
                },
            }
            i = i + 1;
        }
        proof {
            assert(all_bulk(argv));
            assert(argv.skip(0) =~= argv);
        }
        let mut count: usize = 0;
        i = 0;
        while i < args.len()
            invariant
                i <= args@.len(),
                count <= i,
                self.wf(),
                del_loop(old(self)@, argv, 0) == del_loop(
                    self@,
                    argv.skip(i as int),
                    count as int,
                ),
            decreases args@.len() - i,
        {
            proof {
                lemma_resp_list_view_index(args@, i as int);
                assert(argv.skip(i as int)[0] == argv[i as int]);
                assert(argv.skip(i as int).drop_first() =~= argv.skip(i + 1));
            }
            match &args[i] {
                RESPData::BulkString(k) => {
                    if self.store.delete(k) {
                        count = count + 1;
                    }
                },
                _ => {
                    proof {
                        assert(argv[i as int] is BulkString);
                        assert(false);
                    }
                },
            }
            i = i + 1;
        }
        proof {
            assert(argv.skip(args@.len() as int).len() == 0);
        }
        if count > 0x7fff_ffffusize {
            RESPData::Integer(0x7fff_ffffi32)
        } else {
            RESPData::Integer(count as i32)
        }
    }

    fn handle_incr(&mut self, cmd: &String, args: Vec<RESPData>) -> (r: RESPData)
        requires
            old(self).wf(),
        ensures
            final(self).wf(),
            final(self)@ == incr_spec(old(self)@, cmd@, resp_list_view(args@), 1).0,
            r@ == incr_spec(old(self)@, cmd@, resp_list_view(args@), 1).1,
    {
        self.handle_incr_by(cmd, args, 1)
    }

    fn handle_decr(&mut self, cmd: &String, args: Vec<RESPData>) -> (r: RESPData)
        requires
            old(self).wf(),
        ensures
            final(self).wf(),
            final(self)@ == incr_spec(old(self)@, cmd@, resp_list_view(args@), -1).0,
            r@ == incr_spec(old(self)@, cmd@, resp_list_view(args@), -1).1,
    {
        self.handle_incr_by(cmd, args, -1)
    }

    fn handle_incr_by(&mut self, cmd: &String, args: Vec<RESPData>, delta: i32) -> (r: RESPData)
        requires
            old(self).wf(),
        ensures
            final(self).wf(),
            final(self)@ == incr_spec(old(self)@, cmd@, resp_list_view(args@), delta as int).0,
            r@ == incr_spec(old(self)@, cmd@, resp_list_view(args@), delta as int).1,
    {
        proof {
            lemma_resp_list_view_len(args@);
        }
        if args.len() != 1 {
            err_arity(cmd)
        } else {
            proof {
                lemma_resp_list_view_index(args@, 0);
            }
            match &args[0] {
                RESPData::BulkString(k) => match self.store.increment_by(k, delta) {
                    Ok(v) => RESPData::Integer(v),
                    Err(StoreErr::NotAnInteger) => err_string(
                        "ERR value is not an integer or out of range",
                    ),
                    Err(StoreErr::WrongType) => err_string("Invalid message!"),
                },
                _ => err_string("ERR syntax error"),
            }
        }
    }

    fn handle_lpush(&mut self, cmd: &String, args: Vec<RESPData>) -> (r: RESPData)
        requires
            old(self).wf(),
        ensures
            final(self).wf(),
            final(self)@ == push_spec(old(self)@, cmd@, resp_list_view(args@), true).0,
            r@ == push_spec(old(self)@, cmd@, resp_list_view(args@), true).1,
    {
        self.handle_push(cmd, args, true)
    }

    fn handle_rpush(&mut self, cmd: &String, args: Vec<RESPData>) -> (r: RESPData)
        requires
            old(self).wf(),
        ensures
            final(self).wf(),
            final(self)@ == push_spec(old(self)@, cmd@, resp_list_view(args@), false).0,
            r@ == push_spec(old(self)@, cmd@, resp_list_view(args@), false).1,
    {
        self.handle_push(cmd, args, false)
    }

    #[verifier::loop_isolation(false)]
    fn handle_push(&mut self, cmd: &String, args: Vec<RESPData>, front: bool) -> (r: RESPData)
        requires
            old(self).wf(),
        ensures
            final(self).wf(),
            final(self)@ == push_spec(old(self)@, cmd@, resp_list_view(args@), front).0,
            r@ == push_spec(old(self)@, cmd@, resp_list_view(args@), front).1,
    {
        proof {
            lemma_resp_list_view_len(args@);
        }
        let ghost argv = resp_list_view(args@);
        if args.len() < 2 {
            return err_arity(cmd);
        }
        proof {
            lemma_resp_list_view_index(args@, 0);
        }
        match &args[0] {
            RESPData::BulkString(k) => {
                let mut vals: Vec<String> = Vec::new();
                let mut i: usize = 1;
                while i < args.len()
                    invariant
                        1 <= i <= args@.len(),
                        vals@.len() == i - 1,
                        forall|j: int| 1 <= j < i ==> #[trigger] argv[j] is BulkString,
                        forall|j: int| 0 <= j < i - 1
                            ==> #[trigger] vals@[j]@ == argv[j + 1]->BulkString_0,
                    decreases args@.len() - i,
                {
                    proof {
                        lemma_resp_list_view_index(args@, i as int);
                    }
                    match &args[i] {
                        RESPData::BulkString(s) => {
                            vals.push(s.clone());
                        },
                        _ => {
                            proof {
                                assert(argv.drop_first()[i - 1] == argv[i as int]);
                                assert(!all_bulk(argv.drop_first()));
                            }
                            return err_string("Invalid message!");
                        },
                    }
                    i = i + 1;
                }
                proof {
                    assert forall|j: int| 0 <= j < argv.drop_first().len()
                        implies #[trigger] argv.drop_first()[j] is BulkString by {
                        assert(argv.drop_first()[j] == argv[j + 1]);
                    }
                    assert(all_bulk(argv.drop_first()));
                    assert(strs_view(vals@) =~= bulk_texts(argv.drop_first()));
                }
                let pushed = if front {
                    self.store.push_front(k, vals)
                } else {
                    self.store.push_back(k, vals)
                };
                match pushed {
                    Ok(_) => RESPData::SimpleString(String::from_str("OK")),
                    Err(_) => err_string("Invalid message!"),
                }
            },
            _ => err_string("Invalid message!"),
        }
    }
}

} // verus!

use resp_kv::db::DB;
use resp_kv::resp::RESP;
use resp_kv::resp_data::RESPData;

fn cmd(parts: &[&str]) -> RESPData {
    let mut elems = Vec::new();
    for p in parts {
        elems.push(RESPData::BulkString(String::from(*p)));
    }
    RESPData::Array(elems)
}

fn simple(s: &str) -> RESPData {
    RESPData::SimpleString(String::from(s))
}

fn bulk(s: &str) -> RESPData {
    RESPData::BulkString(String::from(s))
}

fn err(s: &str) -> RESPData {
    RESPData::Error(String::from(s))
}

#[test]
fn ping_frame_yields_pong() {
    let mut db = DB::new();
    let m = RESP::deserialize(String::from("*1\r\n$4\r\nPING\r\n"));
    assert_eq!(db.proccess_message(m), simple("PONG"));
}

#[test]
fn ping_with_argument_echoes_it() {
    let mut db = DB::new();
    assert_eq!(db.proccess_message(cmd(&["PING", "hey"])), bulk("hey"));
}

#[test]
fn echo_returns_copy_of_argument() {
    let mut db = DB::new();
    assert_eq!(db.proccess_message(cmd(&["ECHO", "hello world"])), bulk("hello world"));
}

#[test]
fn echo_without_argument_is_arity_error() {
    let mut db = DB::new();
    assert_eq!(
        db.proccess_message(cmd(&["ECHO"])),
        err("ERR wrong number of arguments for 'ECHO' command")
    );
}

#[test]
fn ping_with_two_arguments_is_arity_error() {
    let mut db = DB::new();
    assert_eq!(
        db.proccess_message(cmd(&["PING", "a", "b"])),
        err("ERR wrong number of arguments for 'PING' command")
    );
}

#[test]
fn set_then_get_returns_value() {
    let mut db = DB::new();
    assert_eq!(db.proccess_message(cmd(&["SET", "k", "v"])), simple("OK"));
    assert_eq!(db.proccess_message(cmd(&["GET", "k"])), bulk("v"));
}

#[test]
fn get_missing_returns_null() {
    let mut db = DB::new();
    assert_eq!(db.proccess_message(cmd(&["GET", "missing"])), RESPData::Null);
}

#[test]
fn set_overwrites_any_previous_value() {
    let mut db = DB::new();
    assert_eq!(db.proccess_message(cmd(&["LPUSH", "k", "a"])), simple("OK"));
    assert_eq!(db.proccess_message(cmd(&["SET", "k", "v"])), simple("OK"));
    assert_eq!(db.proccess_message(cmd(&["GET", "k"])), bulk("v"));
}

#[test]
fn command_names_are_case_insensitive() {
    let mut db = DB::new();
    assert_eq!(db.proccess_message(cmd(&["SeT", "k", "v"])), simple("OK"));
    assert_eq!(db.proccess_message(cmd(&["gEt", "k"])), bulk("v"));
}

#[test]
fn del_counts_only_present_keys() {
    let mut db = DB::new();
    assert_eq!(db.proccess_message(cmd(&["SET", "a", "1"])), simple("OK"));
    assert_eq!(db.proccess_message(cmd(&["DEL", "a", "b"])), RESPData::Integer(1));
    assert_eq!(db.proccess_message(cmd(&["EXISTS", "a", "b"])), RESPData::Integer(0));
}

#[test]
fn exists_counts_each_present_key() {
    let mut db = DB::new();
    assert_eq!(db.proccess_message(cmd(&["SET", "a", "1"])), simple("OK"));
    assert_eq!(db.proccess_message(cmd(&["SET", "b", "2"])), simple("OK"));
    assert_eq!(
        db.proccess_message(cmd(&["EXISTS", "a", "b", "c", "a"])),
        RESPData::Integer(3)
    );
}

#[test]
fn exists_without_keys_is_arity_error() {
    let mut db = DB::new();
    assert_eq!(
        db.proccess_message(cmd(&["EXISTS"])),
        err("ERR wrong number of arguments for 'EXISTS' command")
    );
}

#[test]
fn del_without_keys_is_arity_error() {
    let mut db = DB::new();
    assert_eq!(
        db.proccess_message(cmd(&["DEL"])),
        err("ERR wrong number of arguments for 'DEL' command")
    );
}

#[test]
fn incr_on_fresh_keys_returns_one() {
    let mut db = DB::new();
    assert_eq!(db.proccess_message(cmd(&["INCR", "first"])), RESPData::Integer(1));
    assert_eq!(db.proccess_message(cmd(&["INCR", "second"])), RESPData::Integer(1));
}

#[test]
fn incr_twice_on_same_key_returns_two() {
    let mut db = DB::new();
    assert_eq!(db.proccess_message(cmd(&["INCR", "counter"])), RESPData::Integer(1));
    assert_eq!(db.proccess_message(cmd(&["INCR", "counter"])), RESPData::Integer(2));
}

#[test]
fn incr_on_text_errors_and_keeps_value() {
    let mut db = DB::new();
    assert_eq!(db.proccess_message(cmd(&["SET", "k", "abc"])), simple("OK"));
    assert_eq!(
        db.proccess_message(cmd(&["INCR", "k"])),
        err("ERR value is not an integer or out of range")
    );
    assert_eq!(db.proccess_message(cmd(&["GET", "k"])), bulk("abc"));
}

#[test]
fn incr_at_range_top_errors_and_keeps_value() {
    let mut db = DB::new();
    assert_eq!(db.proccess_message(cmd(&["SET", "k", "2147483647"])), simple("OK"));
    assert_eq!(
        db.proccess_message(cmd(&["INCR", "k"])),
        err("ERR value is not an integer or out of range")
    );
    assert_eq!(db.proccess_message(cmd(&["GET", "k"])), bulk("2147483647"));
}

#[test]
fn incr_on_list_is_type_error() {
    let mut db = DB::new();
    assert_eq!(db.proccess_message(cmd(&["RPUSH", "l", "x"])), simple("OK"));
    assert_eq!(db.proccess_message(cmd(&["INCR", "l"])), err("Invalid message!"));
}

#[test]
fn decr_on_fresh_key_returns_minus_one() {
    let mut db = DB::new();
    assert_eq!(db.proccess_message(cmd(&["DECR", "n"])), RESPData::Integer(-1));
    assert_eq!(db.proccess_message(cmd(&["DECR", "n"])), RESPData::Integer(-2));
}

#[test]
fn incr_stores_the_value_as_text() {
    let mut db = DB::new();
    assert_eq!(db.proccess_message(cmd(&["SET", "k", "41"])), simple("OK"));
    assert_eq!(db.proccess_message(cmd(&["INCR", "k"])), RESPData::Integer(42));
    assert_eq!(db.proccess_message(cmd(&["GET", "k"])), bulk("42"));
}

#[test]
fn lpush_then_rpush_keeps_head_order() {
    let mut db = DB::new();
    assert_eq!(db.proccess_message(cmd(&["LPUSH", "l", "a", "b"])), simple("OK"));
    assert_eq!(db.proccess_message(cmd(&["LPUSH", "l", "c"])), simple("OK"));
    assert_eq!(db.proccess_message(cmd(&["RPUSH", "l", "d"])), simple("OK"));
    let should_be = RESPData::Array(vec![bulk("c"), bulk("a"), bulk("b"), bulk("d")]);
    assert_eq!(db.proccess_message(cmd(&["GET", "l"])), should_be);
}

#[test]
fn lpush_on_scalar_is_type_error() {
    let mut db = DB::new();
    assert_eq!(db.proccess_message(cmd(&["SET", "k", "v"])), simple("OK"));
    assert_eq!(db.proccess_message(cmd(&["LPUSH", "k", "a"])), err("Invalid message!"));
    assert_eq!(db.proccess_message(cmd(&["GET", "k"])), bulk("v"));
}

#[test]
fn push_without_values_is_arity_error() {
    let mut db = DB::new();
    assert_eq!(
        db.proccess_message(cmd(&["LPUSH", "l"])),
        err("ERR wrong number of arguments for 'LPUSH' command")
    );
    assert_eq!(
        db.proccess_message(cmd(&["RPUSH", "l"])),
        err("ERR wrong number of arguments for 'RPUSH' command")
    );
}

#[test]
fn incr_and_decr_arity_errors_name_the_command() {
    let mut db = DB::new();
    assert_eq!(
        db.proccess_message(cmd(&["INCR"])),
        err("ERR wrong number of arguments for 'INCR' command")
    );
    assert_eq!(
        db.proccess_message(cmd(&["DECR", "a", "b"])),
        err("ERR wrong number of arguments for 'DECR' command")
    );
}

#[test]
fn del_with_bad_argument_removes_nothing() {
    let mut db = DB::new();
    assert_eq!(db.proccess_message(cmd(&["SET", "a", "1"])), simple("OK"));
    let m = RESPData::Array(vec![bulk("DEL"), bulk("a"), RESPData::Integer(1)]);
    assert_eq!(db.proccess_message(m), err("ERR syntax error."));
    assert_eq!(db.proccess_message(cmd(&["EXISTS", "a"])), RESPData::Integer(1));
    assert_eq!(db.proccess_message(cmd(&["GET", "a"])), bulk("1"));
}

#[test]
fn unknown_command_names_itself() {
    let mut db = DB::new();
    assert_eq!(db.proccess_message(cmd(&["SAVE"])), err("Invalid command SAVE!"));
}

#[test]
fn non_array_message_is_invalid() {
    let mut db = DB::new();
    assert_eq!(db.proccess_message(bulk("PING")), err("Invalid RESP message!"));
    assert_eq!(db.proccess_message(RESPData::Integer(1)), err("Invalid RESP message!"));
    assert_eq!(db.proccess_message(RESPData::Array(vec![])), err("Invalid RESP message!"));
}

#[test]
fn command_must_be_a_bulk_string() {
    let mut db = DB::new();
    let m = RESPData::Array(vec![simple("PING")]);
    assert_eq!(db.proccess_message(m), err("Invalid RESP message!"));
}

#[test]
fn set_arity_and_type_violations_are_syntax_errors() {
    let mut db = DB::new();
    assert_eq!(db.proccess_message(cmd(&["SET", "k"])), err("ERR syntax error"));
    let m = RESPData::Array(vec![bulk("SET"), RESPData::Integer(1), bulk("v")]);
    assert_eq!(db.proccess_message(m), err("ERR syntax error"));
    let m2 = RESPData::Array(vec![bulk("SET"), bulk("k"), RESPData::Integer(1)]);
    assert_eq!(db.proccess_message(m2), err("ERR syntax error"));
}

#[test]
fn hundred_serial_incrs_lose_no_update() {
    let mut db = DB::new();
    let mut last = RESPData::Null;
    for _ in 0..100 {
        last = db.proccess_message(cmd(&["INCR", "same_key"]));
    }
    assert_eq!(last, RESPData::Integer(100));
    assert_eq!(db.proccess_message(cmd(&["GET", "same_key"])), bulk("100"));
}

#[test]
fn malformed_frame_then_next_frame_still_served() {
    let mut db = DB::new();
    let bad = RESP::deserialize(String::from("$3\r\nab\r\n"));
    assert_eq!(
        db.proccess_message(bad),
        err("Invalid RESP message!")
    );
    let good = RESP::deserialize(String::from("*1\r\n$4\r\nPING\r\n"));
    assert_eq!(db.proccess_message(good), simple("PONG"));
}

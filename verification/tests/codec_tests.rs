use resp_kv::resp::RESP;
use resp_kv::resp_data::RESPData;

#[test]
fn serialize_simple_string() {
    let m = RESPData::SimpleString(String::from("OK"));
    assert_eq!(m.serialize(), "+OK\r\n");
}

#[test]
fn serialize_error() {
    let m = RESPData::Error(String::from("ERR syntax error"));
    assert_eq!(m.serialize(), "-ERR syntax error\r\n");
}

#[test]
fn serialize_integer() {
    assert_eq!(RESPData::Integer(19).serialize(), ":19\r\n");
    assert_eq!(RESPData::Integer(-7).serialize(), ":-7\r\n");
    assert_eq!(RESPData::Integer(0).serialize(), ":0\r\n");
    assert_eq!(
        RESPData::Integer(i32::MIN).serialize(),
        ":-2147483648\r\n"
    );
}

#[test]
fn serialize_bulk_string() {
    let m = RESPData::BulkString(String::from("hello"));
    assert_eq!(m.serialize(), "$5\r\nhello\r\n");
}

#[test]
fn serialize_null() {
    assert_eq!(RESPData::Null.serialize(), "_\r\n");
}

#[test]
fn serialize_array() {
    let m = RESPData::Array(vec![
        RESPData::BulkString(String::from("get")),
        RESPData::BulkString(String::from("key")),
    ]);
    assert_eq!(m.serialize(), "*2\r\n$3\r\nget\r\n$3\r\nkey\r\n");
}

#[test]
fn deserialize_simple_string() {
    let m = RESP::deserialize(String::from("+PONG\r\n"));
    assert_eq!(m, RESPData::SimpleString(String::from("PONG")));
}

#[test]
fn deserialize_error_frame() {
    let m = RESP::deserialize(String::from("-oops\r\n"));
    assert_eq!(m, RESPData::Error(String::from("oops")));
}

#[test]
fn deserialize_null_bulk() {
    let m = RESP::deserialize(String::from("$-1\r\n"));
    assert_eq!(m, RESPData::Null);
}

#[test]
fn deserialize_nested_array() {
    let m = RESP::deserialize(String::from("*2\r\n*1\r\n:1\r\n$2\r\nab\r\n"));
    let should_be = RESPData::Array(vec![
        RESPData::Array(vec![RESPData::Integer(1)]),
        RESPData::BulkString(String::from("ab")),
    ]);
    assert_eq!(m, should_be);
}

#[test]
fn round_trip_scalar_messages() {
    let samples = vec![
        RESPData::SimpleString(String::from("OK")),
        RESPData::Error(String::from("ERR wrong type")),
        RESPData::Integer(-2147483648),
        RESPData::Integer(2147483647),
        RESPData::BulkString(String::from("")),
        RESPData::BulkString(String::from("hello world")),
    ];
    for m in samples {
        let copy = m.copy();
        assert_eq!(RESP::deserialize(m.serialize()), copy);
    }
}

#[test]
fn round_trip_bulk_with_embedded_terminator() {
    let m = RESPData::BulkString(String::from("a\r\nb"));
    assert_eq!(m.serialize(), "$4\r\na\r\nb\r\n");
    assert_eq!(RESP::deserialize(m.serialize()), m);
}

#[test]
fn round_trip_nested_array() {
    let m = RESPData::Array(vec![
        RESPData::Array(vec![
            RESPData::BulkString(String::from("set")),
            RESPData::Integer(5),
        ]),
        RESPData::SimpleString(String::from("ok")),
        RESPData::Array(vec![]),
    ]);
    assert_eq!(RESP::deserialize(m.serialize()), m);
}

#[test]
fn malformed_bulk_length_yields_error_frame() {
    let m = RESP::deserialize(String::from("$3\r\nab\r\n"));
    assert_eq!(m, RESPData::Error(String::from("Invalid bulk string message!")));
}

#[test]
fn empty_frame_yields_error_frame() {
    let m = RESP::deserialize(String::new());
    assert_eq!(m, RESPData::Error(String::from("Empty message!")));
}

#[test]
fn trailing_bytes_yield_error_frame() {
    let m = RESP::deserialize(String::from("+OK\r\nextra"));
    assert_eq!(m, RESPData::Error(String::from("Invalid Message!!")));
}

#[test]
fn unknown_tag_yields_error_frame() {
    let m = RESP::deserialize(String::from("#19\r\n"));
    assert_eq!(m, RESPData::Error(String::from("Invalid Data Type!!")));
}

#[test]
fn bad_integer_yields_error_frame() {
    let m = RESP::deserialize(String::from(":abc\r\n"));
    assert_eq!(m, RESPData::Error(String::from("Invalid integer!")));
}

#[test]
fn unterminated_error_yields_error_frame() {
    let m = RESP::deserialize(String::from("-oops"));
    assert_eq!(m, RESPData::Error(String::from("Could not parse error")));
}

#[test]
fn bad_array_length_yields_error_frame() {
    let m = RESP::deserialize(String::from("*two\r\n"));
    assert_eq!(m, RESPData::Error(String::from("Invalid array length!")));
}

#[test]
fn parse_message_reports_consumed_position() {
    let chars: Vec<char> = "+OK\r\n:3\r\n".chars().collect();
    let (first, after) = RESPData::parse_message(&chars, 0).unwrap();
    assert_eq!(first, RESPData::SimpleString(String::from("OK")));
    assert_eq!(after, 5);
    let (second, end) = RESPData::parse_message(&chars, after).unwrap();
    assert_eq!(second, RESPData::Integer(3));
    assert_eq!(end, chars.len());
}

#[test]
fn deep_copy_is_equal_and_independent() {
    let m = RESPData::Array(vec![
        RESPData::BulkString(String::from("a")),
        RESPData::Array(vec![RESPData::Integer(1)]),
    ]);
    let c = m.copy();
    assert_eq!(m, c);
    drop(m);
    assert_eq!(c.serialize(), "*2\r\n$1\r\na\r\n*1\r\n:1\r\n");
}

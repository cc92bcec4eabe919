use resp_kv::message::Message;

#[test]
fn null_bulk_string() {
    let message = String::from("$-1\\r\\n");
    assert_eq!(Message::new(message), Ok(Message::Null));
}

#[test]
fn one_element_array() {
    let message = String::from("*1\\r\\n$4\\r\\nping\\r\\n");
    let should_be = Message::Array(vec![Message::BulkString(String::from("ping"))]);
    assert_eq!(Message::new(message), Ok(should_be));
}

#[test]
fn two_elements_array() {
    let message = String::from("*2\\r\\n$4\\r\\necho\\r\\n$11\\r\\nhello world\\r\\n");
    let should_be = Message::Array(vec![
        Message::BulkString(String::from("echo")),
        Message::BulkString(String::from("hello world")),
    ]);
    assert_eq!(Message::new(message), Ok(should_be));
}

#[test]
fn another_two_elements_array() {
    let message = String::from("*2\\r\\n$3\\r\\nget\\r\\n$3\\r\\nkey\\r\\n");
    let should_be = Message::Array(vec![
        Message::BulkString(String::from("get")),
        Message::BulkString(String::from("key")),
    ]);
    assert_eq!(Message::new(message), Ok(should_be));
}

#[test]
fn simple_string() {
    let message = String::from("+OK\\r\\n");
    assert_eq!(
        Message::new(message),
        Ok(Message::SimpleString(String::from("OK")))
    );
}

#[test]
fn error() {
    let message = String::from("-Error message\\r\\n");
    assert_eq!(
        Message::new(message),
        Ok(Message::Error(String::from("Error message")))
    );
}

#[test]
fn empty_bulk_string() {
    let message = String::from("$0\\r\\n\\r\\n");
    assert_eq!(
        Message::new(message),
        Ok(Message::BulkString(String::from("")))
    );
}

#[test]
fn another_simple_string() {
    let message = String::from("+hello world\\r\\n");
    assert_eq!(
        Message::new(message),
        Ok(Message::SimpleString(String::from("hello world")))
    );
}

#[test]
fn integer() {
    let message = String::from(":19\\r\\n");
    assert_eq!(Message::new(message), Ok(Message::Integer(19)));
}

#[test]
fn invalid_data_type() {
    let message = String::from("#19\\r\\n");
    assert_eq!(
        Message::new(message),
        Err(String::from("Invalid Data Type!!"))
    );
}

#[test]
fn invalid_integer() {
    let message = String::from(":Hello world\\r\\n");
    assert_eq!(Message::new(message), Err(String::from("Invalid integer!")));
}

#[test]
fn empty_message_is_rejected() {
    assert_eq!(Message::new(String::new()), Err(String::from("Empty message!")));
}

#[test]
fn trailing_text_is_rejected() {
    let message = String::from("+OK\\r\\nx");
    assert_eq!(Message::new(message), Err(String::from("Invalid Message!!")));
}

#[test]
fn unterminated_simple_string_is_rejected() {
    let message = String::from("+OK");
    assert_eq!(
        Message::new(message),
        Err(String::from("Could not parse simple string"))
    );
}

#[test]
fn bulk_length_mismatch_is_rejected() {
    let message = String::from("$3\\r\\nab\\r\\n");
    assert_eq!(
        Message::new(message),
        Err(String::from("Invalid bulk string message!"))
    );
}

#[test]
fn bad_bulk_length_is_rejected() {
    let message = String::from("$x\\r\\nab\\r\\n");
    assert_eq!(
        Message::new(message),
        Err(String::from("Invalid bulk string length!"))
    );
}

#[test]
fn bad_array_length_is_rejected() {
    let message = String::from("*x\\r\\n");
    assert_eq!(
        Message::new(message),
        Err(String::from("Invalid array length!"))
    );
}

#[test]
fn integer_out_of_range_is_rejected() {
    let message = String::from(":2147483648\\r\\n");
    assert_eq!(Message::new(message), Err(String::from("Invalid integer!")));
}

#[test]
fn negative_integer_parses() {
    let message = String::from(":-19\\r\\n");
    assert_eq!(Message::new(message), Ok(Message::Integer(-19)));
}

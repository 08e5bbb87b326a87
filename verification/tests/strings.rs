use json::data_structures::{JString, JWhitespace, Serialize, Ws};

#[test]
fn j_string_test_legal_string() {
    let s = JString::new("🚗 this is a car!").unwrap();
    assert_eq!("🚗 this is a car!".to_string(), s.to_string());
}

#[test]
fn j_string_test_illegal_string() {
    let mut illegal_s = "Hello world".to_string();
    illegal_s.push(0x0006 as char);
    let error = "The string contains an illegal char (0x0006)".to_string();
    assert_eq!(Err(error), JString::new(&illegal_s));
}

#[test]
fn j_string_test_serialization() {
    let mut n = JString::new("🚗 this is a car!").unwrap();
    assert_eq!("\"🚗 this is a car!\"".to_string(), n.serialize());

    let mut s = String::new();
    s.push_str("Hello world ");
    s.push(0x0022 as char);
    s.push_str("quotation ");
    s.push(0x005C as char);
    s.push_str("back-slash ");
    s.push(0x002F as char);
    s.push_str("slash ");
    s.push(0x0008 as char);
    s.push_str("backspace ");
    s.push(0x000C as char);
    s.push_str("form-feed ");
    s.push(0x000A as char);
    s.push_str("line-feed ");
    s.push(0x000D as char);
    s.push_str("carriage-return ");
    s.push(0x0009 as char);
    s.push_str("tab.");

    n = JString::new(&s).unwrap();
    assert_eq!("\"Hello world \\\"quotation \\\\back-slash \\/slash \\bback\
    space \\fform-feed \\nline-feed \\rcarriage-return \\ttab.\"".to_string(), n.serialize());
}

#[test]
fn j_whitespace_test_empty_string() {
    assert_eq!(Err("The string is empty"), JWhitespace::new(""));
}

#[test]
fn j_whitespace_test_illegal_string() {
    let mut whitespace = String::new();
    whitespace.push(0x20 as char);
    whitespace.push(0x0A as char);
    whitespace.push(0x0B as char);
    assert_eq!(Err("The string contains illegal characters"), JWhitespace::new(&whitespace));
}

#[test]
fn j_whitespace_test_legal_string() {
    let mut whitespace = String::new();
    whitespace.push(0x20 as char);
    whitespace.push(0x0A as char);
    whitespace.push(0x0D as char);
    whitespace.push(0x09 as char);
    let ws = JWhitespace::new(&whitespace).unwrap();
    assert_eq!(whitespace, ws.to_string());
}

#[test]
fn j_whitespace_test_serialization() {
    let mut ws = JWhitespace::new(" ").unwrap();
    assert_eq!(" ".to_string(), ws.serialize());

    ws = JWhitespace::new("  \n  \t ").unwrap();
    assert_eq!(" ".to_string(), ws.serialize());
}

#[test]
fn ws_test_empty_string() {
    assert_eq!(Err("The string is empty"), Ws::new(""));
}

#[test]
fn ws_test_illegal_string() {
    let mut whitespace = String::new();
    whitespace.push(0x20 as char);
    whitespace.push(0x0A as char);
    whitespace.push(0x0B as char);
    assert_eq!(Err("The string contains illegal characters"), Ws::new(&whitespace));
}

#[test]
fn ws_test_legal_string() {
    let mut whitespace = String::new();
    whitespace.push(0x20 as char);
    whitespace.push(0x0A as char);
    whitespace.push(0x0D as char);
    whitespace.push(0x09 as char);
    let ws = Ws::new(&whitespace).unwrap();
    assert_eq!(whitespace, ws.to_string());
}

#[test]
fn test_ws() {
    let mut white_space = String::new();
    assert_eq!(Err("The string is empty"), Ws::new(&white_space));

    white_space.push(0x20 as char);
    white_space.push(0x0A as char);
    white_space.push(0x0D as char);
    white_space.push(0x09 as char);
    let ws = Ws::new(&white_space).unwrap();
    assert_eq!(white_space, ws.to_string());
    // Testing with an illegal string
    white_space.push(0x0B as char);
    assert_eq!(Err("The string contains illegal characters"), Ws::new(&white_space));
}

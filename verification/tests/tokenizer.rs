use json::parser::tokenizer::{tokenize, Token};

#[test]
fn test_tokenize_curly() {
    assert_eq!(vec![Token::CurlyBracketOpen], tokenize("{").unwrap());
    assert_eq!(vec![Token::CurlyBracketClose], tokenize("}").unwrap());
    assert_eq!(vec![Token::CurlyBracketOpen, Token::CurlyBracketClose], tokenize("{}").unwrap());
    assert_eq!(vec![Token::CurlyBracketOpen, Token::CurlyBracketClose], tokenize(" \t{\n } ").unwrap());
}

#[test]
fn test_tokenize_square() {
    assert_eq!(vec![Token::SquareBracketOpen], tokenize("[").unwrap());
    assert_eq!(vec![Token::SquareBracketClose], tokenize("]").unwrap());
    assert_eq!(vec![Token::SquareBracketOpen, Token::SquareBracketClose], tokenize("[]").unwrap());
    assert_eq!(vec![Token::SquareBracketOpen, Token::SquareBracketClose], tokenize(" \t[\n ] ").unwrap());
}

#[test]
fn test_tokenize_colon() {
    assert_eq!(vec![Token::Colon], tokenize(":").unwrap());
    assert_eq!(vec![Token::Colon], tokenize("\n \t \t:  \n").unwrap());
}

#[test]
fn test_tokenize_comma() {
    assert_eq!(vec![Token::Comma], tokenize(",").unwrap());
    assert_eq!(vec![Token::Comma], tokenize("\n \t \t,  \n").unwrap());
}

#[test]
fn test_tokenize_string() {
    assert_eq!(vec![Token::String("hello world".to_string())], tokenize("\"hello world\"").unwrap());
    assert_eq!(vec![Token::String("hello \\\" world".to_string())], tokenize("\"hello \\\" world\"").unwrap());
    assert_eq!(vec![Token::String("hello world".to_string())], tokenize("\n \t \t\"hello world\"  \n").unwrap());
    assert_eq!(Err("Invalid string token at the end of file!".to_string()), tokenize("\"hello world"));
}

#[test]
fn test_tokenize_number() {
    assert_eq!(vec![Token::Number("0.013e10".to_string())], tokenize("0.013e10").unwrap());
    assert_eq!(vec![Token::Number("00E.-0+13e10".to_string())], tokenize("00E.-0+13e10").unwrap());
    assert_eq!(vec![Token::Number("0.013".to_string()), Token::Number("0e10".to_string())], tokenize("\n\t0.013 0e10").unwrap());
}

#[test]
fn test_tokenize_true() {
    assert_eq!(vec![Token::True], tokenize("true").unwrap());
    assert_eq!(vec![Token::True], tokenize("\n \t \ttrue  \n").unwrap());
}

#[test]
fn test_tokenize_false() {
    assert_eq!(vec![Token::False], tokenize("false").unwrap());
    assert_eq!(vec![Token::False], tokenize("\n \t \tfalse  \n").unwrap());
}

#[test]
fn test_tokenize_null() {
    assert_eq!(vec![Token::Null], tokenize("null").unwrap());
    assert_eq!(vec![Token::Null], tokenize("\n \t \tnull  \n").unwrap());
}

#[test]
fn test_tokenize() {
    assert_eq!(vec![
        Token::CurlyBracketOpen,
        Token::String("key".to_string()),
        Token::Colon,
        Token::SquareBracketOpen,
        Token::True,
        Token::Comma,
        Token::Number("10".to_string()),
        Token::Comma,
        Token::Number("10e20".to_string()),
        Token::SquareBracketClose,
        Token::CurlyBracketClose,
    ], tokenize("{\n\t\"key\" : [true, 10,10e20]\n}").unwrap());
    assert_eq!(Err("Invalid char \'+\' (0x002b)".to_string()), tokenize("+10"));
    assert_eq!(Err("Invalid char \'d\' (0x0064)".to_string()), tokenize("1d0"));
    assert_eq!(Err("Invalid token \"tru \"".to_string()), tokenize("tru "));
    assert_eq!(Err("Invalid token \"nul\"".to_string()), tokenize("nul"));
}

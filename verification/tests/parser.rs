use json::data_structures::{JNumber, JObject, JString, JValue, Serialize};
use json::data_structures::j_number::NumberError;
use json::parser::parser::{get_jvalue, parse_chars, parse_tokens, ParseError};
use json::parser::tokenizer::{tokenize, Keyword, LexError, Token};
use json::parser::parse;

fn number(s: &str) -> JValue {
    JValue::Number(JNumber::from_str(s).unwrap())
}

fn string(s: &str) -> JValue {
    JValue::String(JString::new(s).unwrap())
}

#[test]
fn parse_scalars() {
    assert_eq!(Ok(JValue::Null), parse("null"));
    assert_eq!(Ok(JValue::Boolean(true)), parse(" true "));
    assert_eq!(Ok(JValue::Boolean(false)), parse("\nfalse\t"));
    assert_eq!(Ok(number("-12.5e3")), parse("-12.5e3"));
    assert_eq!(Ok(string("hello")), parse("\"hello\""));
}

#[test]
fn parse_empty_containers() {
    let o = parse("{}").unwrap();
    assert_eq!(JValue::Object(JObject::new()), o);
    assert_eq!("{}".to_string(), o.serialize());
    let a = parse("[]").unwrap();
    assert_eq!(JValue::Array(vec![]), a);
    assert_eq!("[]".to_string(), a.serialize());
    assert_eq!("{}".to_string(), parse(" { } ").unwrap().serialize());
    assert_eq!("[]".to_string(), parse(" [ ] ").unwrap().serialize());
}

#[test]
fn parse_nested_document() {
    let v = parse("{\n\t\"key\" : [true, 10,10e20],\n\t\"other\": {\"x\": null}\n}").unwrap();
    let mut inner = JObject::new();
    inner.insert("x".to_string(), JValue::Null);
    let mut expected = JObject::new();
    expected.insert(
        "key".to_string(),
        JValue::Array(vec![JValue::Boolean(true), number("10"), number("10e20")]),
    );
    expected.insert("other".to_string(), JValue::Object(inner));
    assert_eq!(JValue::Object(expected), v);
    assert_eq!("{\"key\":[true,10,10e20],\"other\":{\"x\":null}}".to_string(), v.serialize());
    assert_eq!("{key : [true, 10, 10e20],other : {x : null,},}".to_string(), v.to_string());
}

#[test]
fn parse_keeps_the_order_of_members() {
    let v = parse("{\"b\":1,\"a\":2,\"c\":3}").unwrap();
    assert_eq!("{\"b\":1,\"a\":2,\"c\":3}".to_string(), v.serialize());
}

#[test]
fn parse_duplicate_key() {
    assert_eq!(
        Err("Invalid JSON object: the key a is not unique".to_string()),
        parse("{\"a\":1,\"a\":2}")
    );
    let tokens = tokenize("{\"a\":1,\"a\":2}").unwrap();
    assert_eq!(Err(ParseError::DuplicateKey { index: 5 }), parse_tokens(&tokens));
    assert_eq!(
        Err("Invalid JSON object: the key a is not unique".to_string()),
        parse("{\"a\":1,\"b\":{},\"a\":[]}")
    );
    assert!(parse("{\"a\":1,\"b\":{\"a\":2}}").is_ok());
}

#[test]
fn parse_numeric_equality_across_spellings() {
    let v = parse("[1e2, 100, 100.0]").unwrap();
    match v {
        JValue::Array(items) => {
            assert_eq!(3, items.len());
            assert_eq!(items[0], items[1]);
            assert_eq!(items[0], items[2]);
            assert_eq!(items[1], items[2]);
            assert_eq!("1e2".to_string(), items[0].serialize());
            assert_eq!("100".to_string(), items[1].serialize());
            assert_eq!("100".to_string(), items[2].serialize());
        }
        _ => panic!("an array was expected"),
    }
}

#[test]
fn parse_unterminated_input() {
    assert_eq!(
        Err("Invalid JSON array! Missing a closing square bracket \"]\"".to_string()),
        parse("{\"key\":[true,10")
    );
    assert_eq!(
        Err("Invalid JSON array! Missing a closing square bracket \"]\"".to_string()),
        parse("[")
    );
    assert_eq!(
        Err("Invalid JSON array! Missing a closing square bracket \"]\"".to_string()),
        parse("[1,")
    );
    assert_eq!(
        Err("Invalid JSON object! Missing a closing curly bracket \"}\"".to_string()),
        parse("{")
    );
    assert_eq!(
        Err("Invalid JSON object! Missing a closing curly bracket \"}\"".to_string()),
        parse("{\"a\":1")
    );
    assert_eq!(
        Err("Invalid JSON object! Missing a closing curly bracket \"}\"".to_string()),
        parse("{\"key\":[true,10]")
    );
}

#[test]
fn parse_structural_errors() {
    assert_eq!(Err("No Token Found".to_string()), parse(""));
    assert_eq!(Err("No Token Found".to_string()), parse("  \n"));
    assert_eq!(Err("No Token Found".to_string()), parse("{\"a\":"));
    assert_eq!(Err("Invalid token ']'".to_string()), parse("]"));
    assert_eq!(Err("Invalid token ','".to_string()), parse(","));
    assert_eq!(Err("Invalid token '}'".to_string()), parse("{\"a\":}"));
    assert_eq!(Err("Invalid JSON array! Invalid token: :".to_string()), parse("[:]"));
    assert_eq!(Err("Invalid JSON array! Invalid token: ,".to_string()), parse("[,1]"));
    assert_eq!(Err("Invalid JSON array! Invalid token: 2".to_string()), parse("[1 2]"));
    assert_eq!(Err("Invalid JSON array! Invalid token: }".to_string()), parse("[1}"));
    assert_eq!(Err("Invalid JSON object! Invalid token:  1".to_string()), parse("{1}"));
    assert_eq!(Err("Invalid JSON object! Invalid token:  b".to_string()), parse("{\"a\":1 \"b\":2}"));
    assert_eq!(
        Err("Invalid JSON object! Invalid token: 1 instead of \":\"".to_string()),
        parse("{\"a\" 1}")
    );
    assert_eq!(Err("Invalid JSON object! Missing a colon \":\"".to_string()), parse("{\"a\""));
    assert_eq!(
        Err("Invalid JSON document! Invalid token: 2 after the value".to_string()),
        parse("1 2")
    );
    assert_eq!(
        Err("Invalid JSON document! Invalid token: ] after the value".to_string()),
        parse("[]]")
    );
}

#[test]
fn parse_passes_on_the_errors_of_tokens() {
    assert_eq!(Err("Invalid token \"tru\"".to_string()), parse("[tru"));
    assert_eq!(Err("Invalid char '+' (0x002b)".to_string()), parse("[+1]"));
    assert_eq!(Err("Invalid string token at the end of file!".to_string()), parse("{\"a"));
    assert_eq!(Err("Illegal input! Point was expected at index 1".to_string()), parse("[01]"));
    assert_eq!(Err("An illegal sign at index 1".to_string()), parse("{\"a\":1-2}"));
    assert_eq!(
        Err("The string contains an illegal char (0x0006)".to_string()),
        parse("\"a\u{6}\"")
    );
    assert_eq!(
        Err("The string contains an illegal char (0x001F)".to_string()),
        parse("{\"k\u{1f}\":1}")
    );
}

#[test]
fn parse_chars_tells_the_kinds_of_errors_apart() {
    let err = |s: &str| parse_chars(&s.chars().collect()).unwrap_err();
    assert_eq!(ParseError::Lexical(LexError::UnterminatedString), err("[\"a"));
    assert_eq!(ParseError::Lexical(LexError::InvalidChar { symbol: '?' }), err("{?}"));
    assert_eq!(
        ParseError::Lexical(LexError::InvalidToken {
            keyword: Keyword::False,
            matched: 2,
            found: Some('1'),
        }),
        err("fa1se")
    );
    assert_eq!(ParseError::Number(NumberError::PointExpected { index: 1 }), err("[01]"));
    assert_eq!(ParseError::Number(NumberError::DigitExpected { index: 1 }), err("{\"a\":-}"));
    assert_eq!(ParseError::IllegalString { symbol: '\u{1}' }, err("[\"\u{1}\"]"));
    assert_eq!(ParseError::IllegalString { symbol: '\u{b}' }, err("{\"a\u{b}\":1}"));
    assert_eq!(ParseError::DuplicateKey { index: 5 }, err("{\"a\":1,\"a\":2}"));
    assert_eq!(ParseError::TrailingToken { index: 1 }, err("1 2"));
    assert_eq!(Ok(JValue::Null), parse_chars(&"null".chars().collect()));
    let tokens = tokenize("[01]").unwrap();
    assert_eq!(
        "Illegal input! Point was expected at index 1".to_string(),
        ParseError::Number(NumberError::PointExpected { index: 1 }).message(&tokens)
    );
    assert_eq!(
        "Invalid char '?' (0x003f)".to_string(),
        ParseError::Lexical(LexError::InvalidChar { symbol: '?' }).message(&tokens)
    );
    assert_eq!(
        "Invalid token ''".to_string(),
        ParseError::InvalidToken { index: 9 }.message(&tokens)
    );
}

#[test]
fn parse_tokens_reports_the_index_of_the_token() {
    let err = |s: &str| parse_tokens(&tokenize(s).unwrap()).unwrap_err();
    assert_eq!(ParseError::NoToken, err(""));
    assert_eq!(ParseError::InvalidToken { index: 0 }, err(":"));
    assert_eq!(ParseError::InvalidToken { index: 3 }, err("{\"a\":,}"));
    assert_eq!(ParseError::ArrayInvalidToken { index: 2 }, err("[1 2]"));
    assert_eq!(ParseError::ArrayUnclosed, err("[1"));
    assert_eq!(ParseError::ObjectInvalidToken { index: 1 }, err("{[}"));
    assert_eq!(ParseError::ObjectInvalidToken { index: 4 }, err("{\"a\":1]"));
    assert_eq!(ParseError::ObjectUnclosed, err("{\"a\":1,"));
    assert_eq!(ParseError::ColonExpected { index: 2 }, err("{\"a\",1}"));
    assert_eq!(ParseError::ColonMissing, err("{\"a\""));
    assert_eq!(ParseError::TrailingToken { index: 1 }, err("null null"));
    assert_eq!(ParseError::TrailingToken { index: 2 }, err("{},"));
}

#[test]
fn parse_rejects_a_comma_before_the_closing_bracket() {
    assert_eq!(Err("Invalid JSON array! Invalid token: ]".to_string()), parse("[1,]"));
    assert_eq!(Err("Invalid JSON array! Invalid token: ]".to_string()), parse("[[],]"));
    assert_eq!(Err("Invalid JSON object! Invalid token:  }".to_string()), parse("{\"a\":1,}"));
    let err = |s: &str| parse_tokens(&tokenize(s).unwrap()).unwrap_err();
    assert_eq!(ParseError::ArrayInvalidToken { index: 3 }, err("[1,]"));
    assert_eq!(ParseError::ObjectInvalidToken { index: 5 }, err("{\"a\":1,}"));
    assert_eq!(ParseError::ArrayInvalidToken { index: 1 }, err("[,]"));
}

#[test]
fn get_jvalue_reads_one_value_and_stops() {
    let tokens = tokenize("[1,[2,3],{\"a\":4}] true").unwrap();
    let (v, next) = get_jvalue(&tokens, 0).unwrap();
    assert_eq!("[1,[2,3],{\"a\":4}]".to_string(), v.serialize());
    assert_eq!(15, next);
    let (v, next) = get_jvalue(&tokens, 3).unwrap();
    assert_eq!("[2,3]".to_string(), v.serialize());
    assert_eq!(8, next);
    assert_eq!(Ok((JValue::Boolean(true), 16)), get_jvalue(&tokens, 15));
    assert_eq!(Err(ParseError::NoToken), get_jvalue(&tokens, 16));
    assert_eq!(Token::True, tokens[15]);
}

#[test]
fn round_trip_of_a_document_without_escapes() {
    let text = "{\"a\":[1,2.50,{\"b\":null},[]],\"c\":\"x y\",\"d\":true,\"e\":-0.5E-3,\"f\":{}}";
    let v = parse(text).unwrap();
    let written = v.serialize();
    assert_eq!(text.to_string(), written);
    assert_eq!(v, parse(&written).unwrap());
}

#[test]
fn round_trip_drops_a_fraction_or_an_exponent_that_is_zero() {
    let v = parse("[1.0, 2e0, 0.0e5, 3.0E+0, 10.00]").unwrap();
    let written = v.serialize();
    assert_eq!("[1,2,0e5,3,10.00]".to_string(), written);
    assert_eq!(v, parse(&written).unwrap());
}

#[test]
fn round_trip_changes_a_string_that_needs_an_escape() {
    let v = parse("\"a/b\"").unwrap();
    let written = v.serialize();
    assert_eq!("\"a\\/b\"".to_string(), written);
    let again = parse(&written).unwrap();
    assert_eq!(string("a\\/b"), again);
    assert_ne!(v, again);
}

use json::parser::tokenizer::{
    get_false, get_null, get_number, get_string, get_token, get_true, tokenize, tokenize_chars,
    Keyword, LexError, Token,
};

fn chars(s: &str) -> Vec<char> {
    s.chars().collect()
}

#[test]
fn a_backslash_escapes_the_character_behind_it() {
    assert_eq!(vec![Token::String("a\\\\".to_string())], tokenize("\"a\\\\\"").unwrap());
    assert_eq!(
        vec![Token::String("a\\\\".to_string()), Token::Comma],
        tokenize("\"a\\\\\",").unwrap()
    );
    assert_eq!(vec![Token::String("\\\"".to_string())], tokenize("\"\\\"\"").unwrap());
    assert_eq!(
        Err("Invalid string token at the end of file!".to_string()),
        tokenize("\"a\\\"")
    );
    assert_eq!(vec![Token::String("\\n\\t".to_string())], tokenize("\"\\n\\t\"").unwrap());
    assert_eq!(vec![Token::String("".to_string())], tokenize("\"\"").unwrap());
}

#[test]
fn a_string_holds_any_character() {
    assert_eq!(
        vec![Token::String("{ [1, true] }\n🚗".to_string())],
        tokenize("\"{ [1, true] }\n🚗\"").unwrap()
    );
}

#[test]
fn invalid_characters_are_shown_with_their_code_point() {
    assert_eq!(Err("Invalid char 'x' (0x0078)".to_string()), tokenize("x"));
    assert_eq!(Err("Invalid char '€' (0x20ac)".to_string()), tokenize(" €"));
    assert_eq!(Err("Invalid char '🚗' (0x1f697)".to_string()), tokenize("[🚗]"));
    assert_eq!(Err("Invalid char '\u{b}' (0x000b)".to_string()), tokenize("\u{b}"));
    assert_eq!(Err("Invalid char '\u{0}' (0x0000)".to_string()), tokenize("\u{0}"));
    assert_eq!(Err("Invalid char '{' (0x007b)".to_string()), tokenize("1{"));
    assert_eq!(Err("Invalid char ':' (0x003a)".to_string()), tokenize("1:"));
    assert_eq!(Err("Invalid char '\"' (0x0022)".to_string()), tokenize("1\"a\""));
    assert_eq!(Err(LexError::InvalidChar { symbol: 'd' }), tokenize_chars(&chars("1d0")));
}

#[test]
fn a_numeral_ends_at_a_delimiter() {
    assert_eq!(
        vec![Token::Number("1".to_string()), Token::Comma, Token::Number("-2".to_string())],
        tokenize("1,-2").unwrap()
    );
    assert_eq!(
        vec![Token::Number("1".to_string()), Token::SquareBracketClose],
        tokenize("1]").unwrap()
    );
    assert_eq!(
        vec![Token::Number("1".to_string()), Token::CurlyBracketClose],
        tokenize("1}").unwrap()
    );
    assert_eq!(
        vec![Token::Number("-".to_string()), Token::Number("1+-.eE".to_string())],
        tokenize("-\t1+-.eE\r").unwrap()
    );
}

#[test]
fn a_word_that_is_cut_short_is_shown_with_what_was_read() {
    assert_eq!(Err("Invalid token \"t\"".to_string()), tokenize("t"));
    assert_eq!(Err("Invalid token \"tx\"".to_string()), tokenize("tx"));
    assert_eq!(Err("Invalid token \"tr\"".to_string()), tokenize("tr"));
    assert_eq!(Err("Invalid token \"tr,\"".to_string()), tokenize("tr,"));
    assert_eq!(Err("Invalid token \"trU\"".to_string()), tokenize("trUe"));
    assert_eq!(Err("Invalid token \"f\"".to_string()), tokenize("f"));
    assert_eq!(Err("Invalid token \"fa]\"".to_string()), tokenize("fa]"));
    assert_eq!(Err("Invalid token \"fal\"".to_string()), tokenize("fal"));
    assert_eq!(Err("Invalid token \"fals\"".to_string()), tokenize("fals"));
    assert_eq!(Err("Invalid token \"falsy\"".to_string()), tokenize("falsy"));
    assert_eq!(Err("Invalid token \"n\"".to_string()), tokenize("n"));
    assert_eq!(Err("Invalid token \"nu\"".to_string()), tokenize("nu"));
    assert_eq!(Err("Invalid token \"nul \"".to_string()), tokenize("nul l"));
    assert_eq!(
        Err(LexError::InvalidToken { keyword: Keyword::Null, matched: 3, found: None }),
        tokenize_chars(&chars("nul"))
    );
    assert_eq!(
        Err(LexError::InvalidToken { keyword: Keyword::True, matched: 3, found: Some(' ') }),
        tokenize_chars(&chars("tru "))
    );
    assert_eq!(
        "Invalid token \"false\"".to_string(),
        LexError::InvalidToken { keyword: Keyword::False, matched: 9, found: None }.message()
    );
}

#[test]
fn words_need_no_delimiter() {
    assert_eq!(vec![Token::True, Token::False, Token::Null], tokenize("truefalsenull").unwrap());
    assert_eq!(Err("Invalid char 'x' (0x0078)".to_string()), tokenize("truex"));
}

#[test]
fn the_readers_give_the_token_and_the_index_behind_it() {
    let text = chars("  \"ab\" -1.5e3,true false null{");
    assert_eq!(Ok((Token::String("ab".to_string()), 6)), get_string(&text, 2));
    assert_eq!(Ok((Token::Number("-1.5e3".to_string()), 13)), get_number(&text, 7));
    assert_eq!(Ok((Token::True, 18)), get_true(&text, 14));
    assert_eq!(Ok((Token::False, 24)), get_false(&text, 19));
    assert_eq!(Ok((Token::Null, 29)), get_null(&text, 25));
    assert_eq!(Ok((Token::CurlyBracketOpen, 30)), get_token(&text, 29));
    assert_eq!(Ok((Token::Comma, 14)), get_token(&text, 13));
    assert_eq!(Ok((Token::String("ab".to_string()), 6)), get_token(&text, 2));
    assert_eq!(Err(LexError::UnterminatedString), get_string(&text, 5));
}

#[test]
fn tokens_are_shown_by_their_text() {
    let shown: Vec<String> =
        tokenize("{\"k\":[1.5,true,false,null]}").unwrap().iter().map(|t| t.to_string()).collect();
    assert_eq!(vec!["{", "k", ":", "[", "1.5", ",", "true", ",", "false", ",", "null", "]", "}"], shown);
}

#[test]
fn tokens_of_different_kinds_differ() {
    assert_ne!(Token::String("1".to_string()), Token::Number("1".to_string()));
    assert_ne!(Token::String("a".to_string()), Token::String("b".to_string()));
    assert_ne!(Token::True, Token::False);
    assert_ne!(Token::CurlyBracketOpen, Token::SquareBracketOpen);
    assert_eq!(Token::Number("1".to_string()), Token::Number("1".to_string()));
}

//! A recursive-descent parser from tokens to a value tree.

use vstd::prelude::*;
use crate::data_structures::j_number::{number_spec, JNumber, NumberError};
use crate::data_structures::j_object::{has_key, JObject};
use crate::data_structures::j_string::{
    first_illegal_char,
    illegal_char_message,
    illegal_char_text,
    is_legal_text,
    JString,
};
use crate::data_structures::j_value::{lemma_array_model, models, JValue, Json};
use crate::parser::tokenizer::{
    lexemes,
    tokenize_chars,
    tokenize_spec,
    unread,
    LexError,
    Lexeme,
    Token,
};
use crate::parser::well_formed::lemma_value_well_formed;
use crate::text::chars_of;

verus! {

/// Why a text is no JSON document. An index is that of a token in the
/// sequence of the document's tokens.
#[derive(Debug, Clone, Copy, PartialEq, Eq, Structural)]
pub enum ParseError {
    /// The text cannot be cut into tokens.
    Lexical(LexError),
    /// A number token is no numeric literal.
    Number(NumberError),
    /// A string token holds the illegal character `symbol`.
    IllegalString { symbol: char },
    /// A value is expected where the tokens end.
    NoToken,
    /// The token at `index` starts no value.
    InvalidToken { index: usize },
    /// In an array, the token at `index` stands where a value is expected,
    /// or where a comma or the closing bracket is expected behind a value.
    ArrayInvalidToken { index: usize },
    /// The tokens end inside an array.
    ArrayUnclosed,
    /// In an object, the token at `index` stands where a key is expected, or
    /// where a comma or the closing bracket is expected behind a member.
    ObjectInvalidToken { index: usize },
    /// The tokens end inside an object.
    ObjectUnclosed,
    /// The token at `index` stands where the colon behind a key is expected.
    ColonExpected { index: usize },
    /// The tokens end behind a key.
    ColonMissing,
    /// The key at `index` occurs earlier in the same object.
    DuplicateKey { index: usize },
    /// The token at `index` follows the end of the document's value.
    TrailingToken { index: usize },
}

/// The text of the token at `index`, for a message.
pub open spec fn token_text(ts: Seq<Lexeme>, index: usize) -> Seq<char> {
    if index < ts.len() {
        ts[index as int].text()
    } else {
        Seq::empty()
    }
}

impl ParseError {
    /// The text of the error message for a document with the tokens `ts`.
    pub open spec fn message_spec(self, ts: Seq<Lexeme>) -> Seq<char> {
        match self {
            ParseError::Lexical(e) => e.message_spec(),
            ParseError::Number(e) => e.message_spec(),
            ParseError::IllegalString { symbol } => illegal_char_message(symbol),
            ParseError::NoToken => "No Token Found"@,
            ParseError::InvalidToken { index } => "Invalid token '"@ + token_text(ts, index)
                + "'"@,
            ParseError::ArrayInvalidToken { index } => "Invalid JSON array! Invalid token: "@
                + token_text(ts, index),
            ParseError::ArrayUnclosed =>
                "Invalid JSON array! Missing a closing square bracket \"]\""@,
            ParseError::ObjectInvalidToken { index } => "Invalid JSON object! Invalid token:  "@
                + token_text(ts, index),
            ParseError::ObjectUnclosed =>
                "Invalid JSON object! Missing a closing curly bracket \"}\""@,
            ParseError::ColonExpected { index } => "Invalid JSON object! Invalid token: "@
                + token_text(ts, index) + " instead of \":\""@,
            ParseError::ColonMissing => "Invalid JSON object! Missing a colon \":\""@,
            ParseError::DuplicateKey { index } => "Invalid JSON object: the key "@ + token_text(
                ts,
                index,
            ) + " is not unique"@,
            ParseError::TrailingToken { index } => "Invalid JSON document! Invalid token: "@
                + token_text(ts, index) + " after the value"@,
        }
    }

    /// The error message for a document with the tokens `tokens`.
    pub fn message(&self, tokens: &Vec<Token>) -> (m: String)
        ensures
            m@ == self.message_spec(lexemes(tokens@)),
    {
        match self {
            ParseError::Lexical(e) => e.message(),
            ParseError::Number(e) => e.message(),
            ParseError::IllegalString { symbol } => illegal_char_text(*symbol),
            ParseError::NoToken => String::from_str("No Token Found"),
            ParseError::InvalidToken { index } => {
                let mut m = String::from_str("Invalid token '");
                push_token(&mut m, tokens, *index);
                m.append("'");
                m
            },
            ParseError::ArrayInvalidToken { index } => {
                let mut m = String::from_str("Invalid JSON array! Invalid token: ");
                push_token(&mut m, tokens, *index);
                m
            },
            ParseError::ArrayUnclosed => String::from_str(
                "Invalid JSON array! Missing a closing square bracket \"]\"",
            ),
            ParseError::ObjectInvalidToken { index } => {
                let mut m = String::from_str("Invalid JSON object! Invalid token:  ");
                push_token(&mut m, tokens, *index);
                m
            },
            ParseError::ObjectUnclosed => String::from_str(
                "Invalid JSON object! Missing a closing curly bracket \"}\"",
            ),
            ParseError::ColonExpected { index } => {
                let mut m = String::from_str("Invalid JSON object! Invalid token: ");
                push_token(&mut m, tokens, *index);
                m.append(" instead of \":\"");
                m
            },
            ParseError::ColonMissing => String::from_str(
                "Invalid JSON object! Missing a colon \":\"",
            ),
            ParseError::DuplicateKey { index } => {
                let mut m = String::from_str("Invalid JSON object: the key ");
                push_token(&mut m, tokens, *index);
                m.append(" is not unique");
                m
            },
            ParseError::TrailingToken { index } => {
                let mut m = String::from_str("Invalid JSON document! Invalid token: ");
                push_token(&mut m, tokens, *index);
                m.append(" after the value");
                m
            },
        }
    }
}

/// Appends the text of the token at `index` to `m`.
fn push_token(m: &mut String, tokens: &Vec<Token>, index: usize)
    ensures
        final(m)@ == old(m)@ + token_text(lexemes(tokens@), index),
{
    if index < tokens.len() {
        let t = tokens[index].to_string();
        m.append(t.as_str());
    } else {
        assert(m@ =~= m@ + Seq::<char>::empty());
    }
}

/// The outcome `r` of reading a part of the document, with the number of
/// tokens that another part has taken before it counted in.
pub open spec fn after(taken: nat, r: Result<(Json, nat), ParseError>) -> Result<
    (Json, nat),
    ParseError,
> {
    match r {
        Ok((v, n)) => Ok((v, taken + n)),
        Err(e) => Err(e),
    }
}

/// The value that starts at the token `i`, with the number of tokens that it
/// takes, or the first error.
pub open spec fn value_at(ts: Seq<Lexeme>, i: int) -> Result<(Json, nat), ParseError>
    decreases unread(ts, i), 0nat,
{
    if i < 0 || i >= ts.len() {
        Err(ParseError::NoToken)
    } else {
        match ts[i] {
            Lexeme::CurlyBracketOpen => after(1, members_at(ts, i + 1, Seq::empty())),
            Lexeme::SquareBracketOpen => after(1, items_at(ts, i + 1, Seq::empty())),
            Lexeme::Number(n) => match number_spec(n) {
                Ok(d) => Ok((Json::Number(d), 1)),
                Err(e) => Err(ParseError::Number(e)),
            },
            Lexeme::String(s) => if is_legal_text(s) {
                Ok((Json::String(s), 1))
            } else {
                Err(ParseError::IllegalString { symbol: first_illegal_char(s) })
            },
            Lexeme::True => Ok((Json::Boolean(true), 1)),
            Lexeme::False => Ok((Json::Boolean(false), 1)),
            Lexeme::Null => Ok((Json::Null, 1)),
            _ => Err(ParseError::InvalidToken { index: i as usize }),
        }
    }
}

/// The array whose items `done` have been read and whose next item is
/// expected at the token `i`, with the number of tokens from `i` up to its
/// end, or the first error. The closing bracket may stand in place of the
/// item only where no item has been read: behind a comma an item must
/// follow.
pub open spec fn items_at(ts: Seq<Lexeme>, i: int, done: Seq<Json>) -> Result<
    (Json, nat),
    ParseError,
>
    decreases unread(ts, i), 1nat,
{
    if i < 0 || i >= ts.len() {
        Err(ParseError::ArrayUnclosed)
    } else if ts[i] == Lexeme::SquareBracketClose && done.len() == 0 {
        Ok((Json::Array(done), 1))
    } else if ts[i] == Lexeme::SquareBracketClose || ts[i] == Lexeme::Colon || ts[i]
        == Lexeme::Comma || ts[i] == Lexeme::CurlyBracketClose {
        Err(ParseError::ArrayInvalidToken { index: i as usize })
    } else {
        match value_at(ts, i) {
            Err(e) => Err(e),
            Ok((v, n)) => {
                let j = i + n;
                if j >= ts.len() {
                    Err(ParseError::ArrayUnclosed)
                } else if ts[j] == Lexeme::Comma {
                    after(n + 1, items_at(ts, j + 1, done.push(v)))
                } else if ts[j] == Lexeme::SquareBracketClose {
                    Ok((Json::Array(done.push(v)), n + 1))
                } else {
                    Err(ParseError::ArrayInvalidToken { index: j as usize })
                }
            },
        }
    }
}

/// The object whose members `done` have been read and whose next key is
/// expected at the token `i`, with the number of tokens from `i` up to its
/// end, or the first error. The closing bracket may stand in place of the
/// key only where no member has been read: behind a comma a member must
/// follow. A key that a member of `done` has is an error, found when the
/// key's value has been read.
pub open spec fn members_at(ts: Seq<Lexeme>, i: int, done: Seq<(Seq<char>, Json)>) -> Result<
    (Json, nat),
    ParseError,
>
    decreases unread(ts, i), 1nat,
{
    if i < 0 || i >= ts.len() {
        Err(ParseError::ObjectUnclosed)
    } else if ts[i] == Lexeme::CurlyBracketClose && done.len() == 0 {
        Ok((Json::Object(done), 1))
    } else if !(ts[i] is String) {
        Err(ParseError::ObjectInvalidToken { index: i as usize })
    } else if !is_legal_text(ts[i]->String_0) {
        Err(ParseError::IllegalString { symbol: first_illegal_char(ts[i]->String_0) })
    } else if i + 1 >= ts.len() {
        Err(ParseError::ColonMissing)
    } else if ts[i + 1] != Lexeme::Colon {
        Err(ParseError::ColonExpected { index: (i + 1) as usize })
    } else {
        match value_at(ts, i + 2) {
            Err(e) => Err(e),
            Ok((v, n)) => {
                let key = ts[i]->String_0;
                let j = i + 2 + n;
                if has_key(done, key) {
                    Err(ParseError::DuplicateKey { index: i as usize })
                } else if j >= ts.len() {
                    Err(ParseError::ObjectUnclosed)
                } else if ts[j] == Lexeme::Comma {
                    after(n + 3, members_at(ts, j + 1, done.push((key, v))))
                } else if ts[j] == Lexeme::CurlyBracketClose {
                    Ok((Json::Object(done.push((key, v))), n + 3))
                } else {
                    Err(ParseError::ObjectInvalidToken { index: j as usize })
                }
            },
        }
    }
}

/// The value of the document with the tokens `ts`: the value that starts at
/// the first token, which must take all of them.
pub open spec fn parse_tokens_spec(ts: Seq<Lexeme>) -> Result<Json, ParseError> {
    match value_at(ts, 0) {
        Err(e) => Err(e),
        Ok((v, n)) => if n < ts.len() {
            Err(ParseError::TrailingToken { index: n as usize })
        } else {
            Ok(v)
        },
    }
}

/// The value of the document `s`, or the first error.
pub open spec fn parse_spec(s: Seq<char>) -> Result<Json, ParseError> {
    match tokenize_spec(s) {
        Err(e) => Err(ParseError::Lexical(e)),
        Ok(ts) => parse_tokens_spec(ts),
    }
}

/// The message of the error that the document `s` gives.
pub open spec fn parse_error_message(s: Seq<char>) -> Seq<char>
    recommends
        parse_spec(s) is Err,
{
    match tokenize_spec(s) {
        Err(e) => e.message_spec(),
        Ok(ts) => parse_tokens_spec(ts)->Err_0.message_spec(ts),
    }
}

/// Whether the outcome `r` of reading a part of the document at the token
/// `i` is the one that `expected` describes: the same value and the index
/// behind it, or the same error.
pub open spec fn parses(
    r: Result<(JValue, usize), ParseError>,
    i: int,
    expected: Result<(Json, nat), ParseError>,
) -> bool {
    match r {
        Ok((v, next)) => expected == Ok::<(Json, nat), ParseError>((v@, (next - i) as nat))
            && next >= i,
        Err(e) => expected == Err::<(Json, nat), ParseError>(e),
    }
}

/// Reads the value that starts at the token `pos`.
pub fn get_jvalue(tokens: &Vec<Token>, pos: usize) -> (r: Result<(JValue, usize), ParseError>)
    requires
        pos <= tokens.len(),
    ensures
        parses(r, pos as int, value_at(lexemes(tokens@), pos as int)),
        r matches Ok(read) ==> read.1 <= tokens.len(),
    decreases tokens.len() - pos, 0nat,
{
    if pos >= tokens.len() {
        return Err(ParseError::NoToken);
    }
    assert(lexemes(tokens@)[pos as int] == tokens@[pos as int]@);
    match &tokens[pos] {
        Token::CurlyBracketOpen => get_jobject(tokens, pos + 1),
        Token::SquareBracketOpen => get_jarray(tokens, pos + 1),
        Token::Number(n) => {
            let chars = chars_of(n.as_str());
            match JNumber::from_chars(&chars) {
                Ok(number) => Ok((JValue::Number(number), pos + 1)),
                Err(e) => Err(ParseError::Number(e)),
            }
        },
        Token::String(s) => match JString::from_text(s.as_str()) {
            Ok(string) => Ok((JValue::String(string), pos + 1)),
            Err(symbol) => Err(ParseError::IllegalString { symbol }),
        },
        Token::True => Ok((JValue::Boolean(true), pos + 1)),
        Token::False => Ok((JValue::Boolean(false), pos + 1)),
        Token::Null => Ok((JValue::Null, pos + 1)),
        _ => Err(ParseError::InvalidToken { index: pos }),
    }
}

/// Reads the array whose opening bracket stands before the token `pos`: its
/// items, with a comma behind each but the last, up to the closing bracket.
/// The index that comes back is the one behind the closing bracket.
pub fn get_jarray(tokens: &Vec<Token>, pos: usize) -> (r: Result<(JValue, usize), ParseError>)
    requires
        0 < pos <= tokens.len(),
    ensures
        parses(
            r,
            pos - 1,
            after(1, items_at(lexemes(tokens@), pos as int, Seq::empty())),
        ),
        r matches Ok(read) ==> read.1 <= tokens.len(),
    decreases tokens.len() - pos, 1nat,
{
    let ghost ts = lexemes(tokens@);
    let mut vec: Vec<JValue> = Vec::new();
    let mut i: usize = pos;
    assert(models(vec@) =~= Seq::<Json>::empty());
    loop
        invariant
            0 < pos <= i <= tokens.len(),
            ts == lexemes(tokens@),
            items_at(ts, pos as int, Seq::empty()) == after(
                (i - pos) as nat,
                items_at(ts, i as int, models(vec@)),
            ),
        decreases tokens.len() - i,
    {
        if i >= tokens.len() {
            return Err(ParseError::ArrayUnclosed);
        }
        assert(ts[i as int] == tokens@[i as int]@);
        match &tokens[i] {
            Token::SquareBracketClose => {
                if vec.len() == 0 {
                    proof {
                        lemma_array_model(vec);
                    }
                    return Ok((JValue::Array(vec), i + 1));
                }
                return Err(ParseError::ArrayInvalidToken { index: i });
            },
            Token::Colon | Token::Comma | Token::CurlyBracketClose => {
                return Err(ParseError::ArrayInvalidToken { index: i });
            },
            _ => {},
        }
        let (v, j) = match get_jvalue(tokens, i) {
            Ok(read) => read,
            Err(e) => {
                return Err(e);
            },
        };
        if j >= tokens.len() {
            return Err(ParseError::ArrayUnclosed);
        }
        assert(ts[j as int] == tokens@[j as int]@);
        assert(models(vec@.push(v)) =~= models(vec@).push(v@));
        vec.push(v);
        match &tokens[j] {
            Token::Comma => {
                i = j + 1;
            },
            Token::SquareBracketClose => {
                proof {
                    lemma_array_model(vec);
                }
                return Ok((JValue::Array(vec), j + 1));
            },
            _ => {
                return Err(ParseError::ArrayInvalidToken { index: j });
            },
        }
    }
}

/// Reads the object whose opening bracket stands before the token `pos`:
/// its members, each a key, a colon and a value, with a comma behind each but
/// the last, up to the closing bracket. No key may occur twice. The index
/// that comes back is the one behind the closing bracket.
pub fn get_jobject(tokens: &Vec<Token>, pos: usize) -> (r: Result<(JValue, usize), ParseError>)
    requires
        0 < pos <= tokens.len(),
    ensures
        parses(
            r,
            pos - 1,
            after(1, members_at(lexemes(tokens@), pos as int, Seq::empty())),
        ),
        r matches Ok(read) ==> read.1 <= tokens.len(),
    decreases tokens.len() - pos, 1nat,
{
    let ghost ts = lexemes(tokens@);
    let mut obj = JObject::new();
    let mut i: usize = pos;
    assert(obj@ =~= Seq::<(Seq<char>, Json)>::empty());
    loop
        invariant
            0 < pos <= i <= tokens.len(),
            ts == lexemes(tokens@),
            members_at(ts, pos as int, Seq::empty()) == after(
                (i - pos) as nat,
                members_at(ts, i as int, obj@),
            ),
        decreases tokens.len() - i,
    {
        if i >= tokens.len() {
            return Err(ParseError::ObjectUnclosed);
        }
        assert(ts[i as int] == tokens@[i as int]@);
        let key = match &tokens[i] {
            Token::String(s) => match JString::from_text(s.as_str()) {
                Ok(_) => s.clone(),
                Err(symbol) => {
                    return Err(ParseError::IllegalString { symbol });
                },
            },
            Token::CurlyBracketClose => {
                if obj.len() == 0 {
                    return Ok((JValue::Object(obj), i + 1));
                }
                return Err(ParseError::ObjectInvalidToken { index: i });
            },
            _ => {
                return Err(ParseError::ObjectInvalidToken { index: i });
            },
        };
        if i + 1 >= tokens.len() {
            return Err(ParseError::ColonMissing);
        }
        assert(ts[i + 1] == tokens@[i + 1]@);
        match &tokens[i + 1] {
            Token::Colon => {},
            _ => {
                return Err(ParseError::ColonExpected { index: i + 1 });
            },
        }
        let (v, j) = match get_jvalue(tokens, i + 2) {
            Ok(read) => read,
            Err(e) => {
                return Err(e);
            },
        };
        match obj.insert(key, v) {
            Some(_) => {
                return Err(ParseError::DuplicateKey { index: i });
            },
            None => {},
        }
        if j >= tokens.len() {
            return Err(ParseError::ObjectUnclosed);
        }
        assert(ts[j as int] == tokens@[j as int]@);
        match &tokens[j] {
            Token::Comma => {
                i = j + 1;
            },
            Token::CurlyBracketClose => {
                return Ok((JValue::Object(obj), j + 1));
            },
            _ => {
                return Err(ParseError::ObjectInvalidToken { index: j });
            },
        }
    }
}

/// Reads the tokens of a document as one value, which takes all of them.
/// The value is well formed: in particular, no object in it has a key
/// twice.
pub fn parse_tokens(tokens: &Vec<Token>) -> (r: Result<JValue, ParseError>)
    ensures
        match r {
            Ok(v) => parse_tokens_spec(lexemes(tokens@)) == Ok::<Json, ParseError>(v@)
                && v@.well_formed(),
            Err(e) => parse_tokens_spec(lexemes(tokens@)) == Err::<Json, ParseError>(e),
        },
{
    proof {
        if value_at(lexemes(tokens@), 0) is Ok {
            lemma_value_well_formed(lexemes(tokens@), 0);
        }
    }
    match get_jvalue(tokens, 0) {
        Err(e) => Err(e),
        Ok((v, next)) => {
            if next < tokens.len() {
                Err(ParseError::TrailingToken { index: next })
            } else {
                Ok(v)
            }
        },
    }
}

/// Reads the characters of a document as a value, which is well formed.
pub fn parse_chars(chars: &Vec<char>) -> (r: Result<JValue, ParseError>)
    ensures
        match r {
            Ok(v) => parse_spec(chars@) == Ok::<Json, ParseError>(v@) && v@.well_formed(),
            Err(e) => parse_spec(chars@) == Err::<Json, ParseError>(e),
        },
{
    match tokenize_chars(chars) {
        Ok(tokens) => parse_tokens(&tokens),
        Err(e) => Err(ParseError::Lexical(e)),
    }
}

/// Reads a document as a value, which is well formed; the error is the
/// message of the [`ParseError`] that the text gives.
pub fn parse(json_string: &str) -> (r: Result<JValue, String>)
    ensures
        match r {
            Ok(v) => parse_spec(json_string@) == Ok::<Json, ParseError>(v@) && v@.well_formed(),
            Err(m) => parse_spec(json_string@) is Err && m@ == parse_error_message(json_string@),
        },
{
    let chars = chars_of(json_string);
    let tokens = match tokenize_chars(&chars) {
        Ok(tokens) => tokens,
        Err(e) => {
            return Err(e.message());
        },
    };
    match parse_tokens(&tokens) {
        Ok(v) => Ok(v),
        Err(e) => Err(e.message(&tokens)),
    }
}

} // verus!

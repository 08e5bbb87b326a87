//! A lexical analyzer for JSON.

use vstd::prelude::*;
use crate::text::{chars_of, hex_text, is_digit, is_whitespace, push_char, push_hex, string_of};

verus! {

/// The mathematical model of a token: a string or a number is the text that
/// stood in the document, escapes not decoded and numeral not checked.
pub enum Lexeme {
    String(Seq<char>),
    Number(Seq<char>),
    CurlyBracketOpen,
    CurlyBracketClose,
    SquareBracketOpen,
    SquareBracketClose,
    Colon,
    Comma,
    Null,
    True,
    False,
}

/// An atomic lexical unit of a JSON document.
#[derive(Debug)]
pub enum Token {
    String(String),
    Number(String),
    CurlyBracketOpen,
    CurlyBracketClose,
    SquareBracketOpen,
    SquareBracketClose,
    Colon,
    Comma,
    Null,
    True,
    False,
}

impl View for Token {
    type V = Lexeme;

    open spec fn view(&self) -> Lexeme {
        match self {
            Token::String(s) => Lexeme::String(s@),
            Token::Number(n) => Lexeme::Number(n@),
            Token::CurlyBracketOpen => Lexeme::CurlyBracketOpen,
            Token::CurlyBracketClose => Lexeme::CurlyBracketClose,
            Token::SquareBracketOpen => Lexeme::SquareBracketOpen,
            Token::SquareBracketClose => Lexeme::SquareBracketClose,
            Token::Colon => Lexeme::Colon,
            Token::Comma => Lexeme::Comma,
            Token::Null => Lexeme::Null,
            Token::True => Lexeme::True,
            Token::False => Lexeme::False,
        }
    }
}

impl PartialEq for Token {
    fn eq(&self, other: &Self) -> (r: bool) {
        match (self, other) {
            (Token::String(s1), Token::String(s2)) => *s1 == *s2,
            (Token::Number(n1), Token::Number(n2)) => *n1 == *n2,
            (Token::CurlyBracketOpen, Token::CurlyBracketOpen) => true,
            (Token::CurlyBracketClose, Token::CurlyBracketClose) => true,
            (Token::SquareBracketOpen, Token::SquareBracketOpen) => true,
            (Token::SquareBracketClose, Token::SquareBracketClose) => true,
            (Token::Colon, Token::Colon) => true,
            (Token::Comma, Token::Comma) => true,
            (Token::True, Token::True) => true,
            (Token::False, Token::False) => true,
            (Token::Null, Token::Null) => true,
            _ => false,
        }
    }
}

impl vstd::std_specs::cmp::PartialEqSpecImpl for Token {
    open spec fn obeys_eq_spec() -> bool {
        true
    }

    /// Two tokens are equal if they are of one kind and hold the same text.
    open spec fn eq_spec(&self, other: &Token) -> bool {
        self@ == other@
    }
}

impl Token {
    /// The text that shows the token in a message: see [`Lexeme::text`].
    pub open spec fn text(&self) -> Seq<char> {
        self@.text()
    }

    /// The text that shows the token in a message.
    pub fn to_string(&self) -> (t: String)
        ensures
            t@ == self.text(),
    {
        let mut t = String::new();
        match self {
            Token::String(s) => {
                t.append(s.as_str());
            },
            Token::Number(n) => {
                t.append(n.as_str());
            },
            Token::True => {
                push_char(&mut t, 't');
                push_char(&mut t, 'r');
                push_char(&mut t, 'u');
                push_char(&mut t, 'e');
            },
            Token::False => {
                push_char(&mut t, 'f');
                push_char(&mut t, 'a');
                push_char(&mut t, 'l');
                push_char(&mut t, 's');
                push_char(&mut t, 'e');
            },
            Token::Null => {
                push_char(&mut t, 'n');
                push_char(&mut t, 'u');
                push_char(&mut t, 'l');
                push_char(&mut t, 'l');
            },
            Token::Comma => {
                push_char(&mut t, ',');
            },
            Token::Colon => {
                push_char(&mut t, ':');
            },
            Token::SquareBracketOpen => {
                push_char(&mut t, '[');
            },
            Token::SquareBracketClose => {
                push_char(&mut t, ']');
            },
            Token::CurlyBracketOpen => {
                push_char(&mut t, '{');
            },
            Token::CurlyBracketClose => {
                push_char(&mut t, '}');
            },
        }
        assert(t@ =~= self.text());
        t
    }
}

impl Lexeme {
    /// The text that shows the token in a message: the text of a string or
    /// a number, and else the characters that write the token.
    pub open spec fn text(self) -> Seq<char> {
        match self {
            Lexeme::String(s) => s,
            Lexeme::Number(n) => n,
            Lexeme::True => seq!['t', 'r', 'u', 'e'],
            Lexeme::False => seq!['f', 'a', 'l', 's', 'e'],
            Lexeme::Null => seq!['n', 'u', 'l', 'l'],
            Lexeme::Comma => seq![','],
            Lexeme::Colon => seq![':'],
            Lexeme::SquareBracketOpen => seq!['['],
            Lexeme::SquareBracketClose => seq![']'],
            Lexeme::CurlyBracketOpen => seq!['{'],
            Lexeme::CurlyBracketClose => seq!['}'],
        }
    }
}

/// The models of the tokens `ts`, in order.
pub open spec fn lexemes(ts: Seq<Token>) -> Seq<Lexeme> {
    Seq::new(ts.len(), |k: int| ts[k]@)
}

/// One of the three words of JSON.
#[derive(Debug, Clone, Copy, PartialEq, Eq, Structural)]
pub enum Keyword {
    True,
    False,
    Null,
}

/// Why a text cannot be cut into tokens.
#[derive(Debug, Clone, Copy, PartialEq, Eq, Structural)]
pub enum LexError {
    /// A character that starts no token, or one that can neither continue nor
    /// end a numeral.
    InvalidChar { symbol: char },
    /// A word that starts like `keyword`; `matched` of its characters agree
    /// with the keyword, and `found` is the character behind them, if the
    /// text does not end there.
    InvalidToken { keyword: Keyword, matched: usize, found: Option<char> },
    /// The text ends inside a string.
    UnterminatedString,
}

impl Keyword {
    /// The characters of the word.
    pub open spec fn text(self) -> Seq<char> {
        match self {
            Keyword::True => seq!['t', 'r', 'u', 'e'],
            Keyword::False => seq!['f', 'a', 'l', 's', 'e'],
            Keyword::Null => seq!['n', 'u', 'l', 'l'],
        }
    }

    /// The first `matched` characters of the word; the whole word if it has
    /// no more.
    pub open spec fn matched_text(self, matched: usize) -> Seq<char> {
        if matched <= self.text().len() {
            self.text().subrange(0, matched as int)
        } else {
            self.text()
        }
    }

    /// The token that the word is.
    pub open spec fn lexeme(self) -> Lexeme {
        match self {
            Keyword::True => Lexeme::True,
            Keyword::False => Lexeme::False,
            Keyword::Null => Lexeme::Null,
        }
    }

    /// The characters of the word.
    fn chars(&self) -> (w: Vec<char>)
        ensures
            w@ == self.text(),
    {
        match self {
            Keyword::True => vec!['t', 'r', 'u', 'e'],
            Keyword::False => vec!['f', 'a', 'l', 's', 'e'],
            Keyword::Null => vec!['n', 'u', 'l', 'l'],
        }
    }

    /// The token that the word is.
    fn token(&self) -> (t: Token)
        ensures
            t@ == self.lexeme(),
    {
        match self {
            Keyword::True => Token::True,
            Keyword::False => Token::False,
            Keyword::Null => Token::Null,
        }
    }
}

impl LexError {
    /// The text of the error message.
    pub open spec fn message_spec(self) -> Seq<char> {
        match self {
            LexError::InvalidChar { symbol } => "Invalid char '"@ + seq![symbol] + "' (0x"@
                + hex_text(symbol as nat, 4, false) + ")"@,
            LexError::InvalidToken { keyword, matched, found } => "Invalid token \""@
                + keyword.matched_text(matched) + match found {
                Some(c) => seq![c],
                None => Seq::<char>::empty(),
            } + "\""@,
            LexError::UnterminatedString => "Invalid string token at the end of file!"@,
        }
    }

    /// The error message.
    pub fn message(&self) -> (m: String)
        ensures
            m@ == self.message_spec(),
    {
        match self {
            LexError::InvalidChar { symbol } => {
                let mut m = String::from_str("Invalid char '");
                push_char(&mut m, *symbol);
                m.append("' (0x");
                push_hex(&mut m, *symbol as u32, 4, false);
                m.append(")");
                m
            },
            LexError::InvalidToken { keyword, matched, found } => {
                let mut m = String::from_str("Invalid token \"");
                let word = keyword.chars();
                let shown = if *matched <= word.len() {
                    *matched
                } else {
                    word.len()
                };
                let part = string_of(&word, 0, shown);
                m.append(part.as_str());
                match found {
                    Some(c) => {
                        push_char(&mut m, *c);
                    },
                    None => {
                        assert(m@ =~= m@ + Seq::<char>::empty());
                    },
                }
                m.append("\"");
                m
            },
            LexError::UnterminatedString => String::from_str(
                "Invalid string token at the end of file!",
            ),
        }
    }
}


/// Whether `c` can stand in the span of a numeral: a digit, a point, a sign
/// or an exponent marker.
pub open spec fn is_numeric(c: char) -> bool {
    is_digit(c) || c == '.' || c == '-' || c == '+' || c == 'e' || c == 'E'
}

/// Whether `c` can end the span of a numeral: whitespace, a comma or a
/// closing bracket.
pub open spec fn is_delimiter(c: char) -> bool {
    is_whitespace(c) || c == ',' || c == ']' || c == '}'
}

/// The token that the single character `c` is, if it is one.
pub open spec fn punctuation(c: char) -> Option<Lexeme> {
    if c == '{' {
        Some(Lexeme::CurlyBracketOpen)
    } else if c == '}' {
        Some(Lexeme::CurlyBracketClose)
    } else if c == '[' {
        Some(Lexeme::SquareBracketOpen)
    } else if c == ']' {
        Some(Lexeme::SquareBracketClose)
    } else if c == ':' {
        Some(Lexeme::Colon)
    } else if c == ',' {
        Some(Lexeme::Comma)
    } else {
        None
    }
}

/// The number of characters from index `i` up to the quotation mark that
/// closes the string, or up to the end of the text if none does. A backslash
/// that is not itself escaped escapes the character behind it, so that an
/// escaped quotation mark does not close the string.
pub open spec fn string_len(s: Seq<char>, i: int, escaped: bool) -> nat
    decreases s.len() - i,
{
    if i < 0 || i >= s.len() {
        0
    } else if escaped {
        1 + string_len(s, i + 1, false)
    } else if s[i] == '\\' {
        1 + string_len(s, i + 1, true)
    } else if s[i] == '"' {
        0
    } else {
        1 + string_len(s, i + 1, false)
    }
}

/// The number of characters from index `i` on that can stand in a numeral.
pub open spec fn numeric_len(s: Seq<char>, i: int) -> nat
    decreases s.len() - i,
{
    if 0 <= i < s.len() && is_numeric(s[i]) {
        1 + numeric_len(s, i + 1)
    } else {
        0
    }
}

/// The number of characters in which `s` from index `i + j` on agrees with
/// `word` from index `j` on.
pub open spec fn matched_len(s: Seq<char>, i: int, word: Seq<char>, j: int) -> nat
    decreases word.len() - j,
{
    if 0 <= j < word.len() && 0 <= i + j < s.len() && s[i + j] == word[j] {
        1 + matched_len(s, i, word, j + 1)
    } else {
        0
    }
}

/// The string token whose opening quotation mark stands at index `i`, with
/// the number of characters that it takes behind that mark.
pub open spec fn string_at(s: Seq<char>, i: int) -> Result<(Lexeme, nat), LexError> {
    let len = string_len(s, i + 1, false);
    if i + 1 + len >= s.len() {
        Err(LexError::UnterminatedString)
    } else {
        Ok((Lexeme::String(s.subrange(i + 1, i + 1 + len)), len + 1))
    }
}

/// The number token that starts at index `i`, with the number of characters
/// that it takes behind its first. Its span runs as far as the characters can
/// stand in a numeral, and must be followed by a delimiter or by the end of
/// the text.
pub open spec fn number_at(s: Seq<char>, i: int) -> Result<(Lexeme, nat), LexError> {
    let len = numeric_len(s, i + 1);
    let end = i + 1 + len;
    if end < s.len() && !is_delimiter(s[end]) {
        Err(LexError::InvalidChar { symbol: s[end] })
    } else {
        Ok((Lexeme::Number(s.subrange(i, end)), len))
    }
}

/// The token for `keyword` at index `i`, with the number of characters that
/// it takes behind its first. Where the text departs from the word, the error
/// holds the part that agrees and the character that does not.
pub open spec fn keyword_at(s: Seq<char>, i: int, keyword: Keyword) -> Result<
    (Lexeme, nat),
    LexError,
> {
    let matched = matched_len(s, i, keyword.text(), 0);
    if matched == keyword.text().len() {
        Ok((keyword.lexeme(), (matched - 1) as nat))
    } else {
        Err(
            LexError::InvalidToken {
                keyword,
                matched: matched as usize,
                found: if i + matched < s.len() {
                    Some(s[i + matched])
                } else {
                    None
                },
            },
        )
    }
}

/// The token that starts at index `i`, where `s` holds no whitespace, with
/// the number of characters that it takes behind its first.
pub open spec fn lexeme_at(s: Seq<char>, i: int) -> Result<(Lexeme, nat), LexError> {
    let c = s[i];
    if punctuation(c) is Some {
        Ok((punctuation(c)->0, 0))
    } else if c == '"' {
        string_at(s, i)
    } else if is_digit(c) || c == '-' {
        number_at(s, i)
    } else if c == 't' {
        keyword_at(s, i, Keyword::True)
    } else if c == 'f' {
        keyword_at(s, i, Keyword::False)
    } else if c == 'n' {
        keyword_at(s, i, Keyword::Null)
    } else {
        Err(LexError::InvalidChar { symbol: c })
    }
}

/// The number of elements of `s` from index `i` on.
pub open spec fn unread<A>(s: Seq<A>, i: int) -> nat {
    if i < s.len() {
        (s.len() - i) as nat
    } else {
        0
    }
}

/// The tokens of `s` from index `i` on, or the first lexical error.
pub open spec fn tokenize_from(s: Seq<char>, i: int) -> Result<Seq<Lexeme>, LexError>
    decreases unread(s, i),
{
    if i < 0 || i >= s.len() {
        Ok(Seq::empty())
    } else if is_whitespace(s[i]) {
        tokenize_from(s, i + 1)
    } else {
        match lexeme_at(s, i) {
            Err(e) => Err(e),
            Ok((t, extra)) => match tokenize_from(s, i + 1 + extra) {
                Err(e) => Err(e),
                Ok(rest) => Ok(seq![t] + rest),
            },
        }
    }
}

/// The tokens of the document `s`, or the first lexical error.
pub open spec fn tokenize_spec(s: Seq<char>) -> Result<Seq<Lexeme>, LexError> {
    tokenize_from(s, 0)
}

/// Whether the outcome `r` of reading a token at index `i` is the one that
/// `expected` describes: the same token and the index behind it, or the same
/// error.
pub open spec fn reads(
    r: Result<(Token, usize), LexError>,
    i: int,
    expected: Result<(Lexeme, nat), LexError>,
) -> bool {
    match r {
        Ok((t, next)) => expected == Ok::<(Lexeme, nat), LexError>(
            (t@, (next - i - 1) as nat),
        ) && next > i,
        Err(e) => expected == Err::<(Lexeme, nat), LexError>(e),
    }
}

/// Whether `c` is whitespace.
pub fn is_whitespace_char(c: char) -> (b: bool)
    ensures
        b == is_whitespace(c),
{
    c == ' ' || c == '\n' || c == '\r' || c == '\t'
}

/// Reads the string whose opening quotation mark stands at index `start`.
pub fn get_string(chars: &Vec<char>, start: usize) -> (r: Result<(Token, usize), LexError>)
    requires
        start < chars.len(),
    ensures
        reads(r, start as int, string_at(chars@, start as int)),
        r matches Ok(read) ==> read.1 <= chars.len(),
{
    let n = chars.len();
    let mut string = String::new();
    let mut escaped = false;
    let mut i: usize = start + 1;
    while i < n
        invariant
            n == chars.len(),
            start < i <= n,
            string@ == chars@.subrange(start + 1, i as int),
            start + 1 + string_len(chars@, start + 1, false) == i + string_len(
                chars@,
                i as int,
                escaped,
            ),
        decreases n - i,
    {
        let c = chars[i];
        if escaped {
            escaped = false;
        } else if c == '\\' {
            escaped = true;
        } else if c == '"' {
            return Ok((Token::String(string), i + 1));
        }
        push_char(&mut string, c);
        i += 1;
        assert(string@ =~= chars@.subrange(start + 1, i as int));
    }
    Err(LexError::UnterminatedString)
}

/// Reads the numeral whose first character stands at index `start`.
pub fn get_number(chars: &Vec<char>, start: usize) -> (r: Result<(Token, usize), LexError>)
    requires
        start < chars.len(),
    ensures
        reads(r, start as int, number_at(chars@, start as int)),
        r matches Ok(read) ==> read.1 <= chars.len(),
{
    let n = chars.len();
    let mut string = String::new();
    push_char(&mut string, chars[start]);
    let mut i: usize = start + 1;
    assert(string@ =~= chars@.subrange(start as int, i as int));
    while i < n && is_numeric_char(chars[i])
        invariant
            n == chars.len(),
            start < i <= n,
            string@ == chars@.subrange(start as int, i as int),
            start + 1 + numeric_len(chars@, start + 1) == i + numeric_len(chars@, i as int),
        decreases n - i,
    {
        push_char(&mut string, chars[i]);
        i += 1;
        assert(string@ =~= chars@.subrange(start as int, i as int));
    }
    if i < n && !is_delimiter_char(chars[i]) {
        Err(LexError::InvalidChar { symbol: chars[i] })
    } else {
        Ok((Token::Number(string), i))
    }
}

/// Whether `c` can stand in the span of a numeral.
fn is_numeric_char(c: char) -> (b: bool)
    ensures
        b == is_numeric(c),
{
    ('0' <= c && c <= '9') || c == '.' || c == '-' || c == '+' || c == 'e' || c == 'E'
}

/// Whether `c` can end the span of a numeral.
fn is_delimiter_char(c: char) -> (b: bool)
    ensures
        b == is_delimiter(c),
{
    is_whitespace_char(c) || c == ',' || c == ']' || c == '}'
}

/// Matches the text from index `start` on against `keyword`, and reports the
/// longest part that agrees where the two differ.
pub fn get_keyword(chars: &Vec<char>, start: usize, keyword: Keyword) -> (r: Result<
    (Token, usize),
    LexError,
>)
    requires
        start < chars.len(),
    ensures
        reads(r, start as int, keyword_at(chars@, start as int, keyword)),
        r matches Ok(read) ==> read.1 <= chars.len(),
{
    let n = chars.len();
    let word = keyword.chars();
    let mut j: usize = 0;
    while j < word.len() && j < n - start && chars[start + j] == word[j]
        invariant
            n == chars.len(),
            start < n,
            word@ == keyword.text(),
            j <= word.len(),
            j <= n - start,
            matched_len(chars@, start as int, word@, 0) == j + matched_len(
                chars@,
                start as int,
                word@,
                j as int,
            ),
        decreases word.len() - j,
    {
        j += 1;
    }
    if j == word.len() {
        Ok((keyword.token(), start + j))
    } else {
        let found = if j < n - start {
            Some(chars[start + j])
        } else {
            None
        };
        Err(LexError::InvalidToken { keyword, matched: j, found })
    }
}

/// Reads the word `true`, whose first character stands at index `start`.
pub fn get_true(chars: &Vec<char>, start: usize) -> (r: Result<(Token, usize), LexError>)
    requires
        start < chars.len(),
    ensures
        reads(r, start as int, keyword_at(chars@, start as int, Keyword::True)),
        r matches Ok(read) ==> read.1 <= chars.len(),
{
    get_keyword(chars, start, Keyword::True)
}

/// Reads the word `false`, whose first character stands at index `start`.
pub fn get_false(chars: &Vec<char>, start: usize) -> (r: Result<(Token, usize), LexError>)
    requires
        start < chars.len(),
    ensures
        reads(r, start as int, keyword_at(chars@, start as int, Keyword::False)),
        r matches Ok(read) ==> read.1 <= chars.len(),
{
    get_keyword(chars, start, Keyword::False)
}

/// Reads the word `null`, whose first character stands at index `start`.
pub fn get_null(chars: &Vec<char>, start: usize) -> (r: Result<(Token, usize), LexError>)
    requires
        start < chars.len(),
    ensures
        reads(r, start as int, keyword_at(chars@, start as int, Keyword::Null)),
        r matches Ok(read) ==> read.1 <= chars.len(),
{
    get_keyword(chars, start, Keyword::Null)
}


/// The tokens `done` followed by the tokens of `rest`, or the error of `rest`.
pub open spec fn followed_by(done: Seq<Lexeme>, rest: Result<Seq<Lexeme>, LexError>) -> Result<
    Seq<Lexeme>,
    LexError,
> {
    match rest {
        Ok(ts) => Ok(done + ts),
        Err(e) => Err(e),
    }
}

/// Reads the token whose first character stands at index `start`, which is
/// no whitespace.
pub fn get_token(chars: &Vec<char>, start: usize) -> (r: Result<(Token, usize), LexError>)
    requires
        start < chars.len(),
    ensures
        reads(r, start as int, lexeme_at(chars@, start as int)),
        r matches Ok(read) ==> read.1 <= chars.len(),
{
    let c = chars[start];
    match c {
        '{' => Ok((Token::CurlyBracketOpen, start + 1)),
        '}' => Ok((Token::CurlyBracketClose, start + 1)),
        '[' => Ok((Token::SquareBracketOpen, start + 1)),
        ']' => Ok((Token::SquareBracketClose, start + 1)),
        ':' => Ok((Token::Colon, start + 1)),
        ',' => Ok((Token::Comma, start + 1)),
        '"' => get_string(chars, start),
        '-' => get_number(chars, start),
        't' => get_true(chars, start),
        'f' => get_false(chars, start),
        'n' => get_null(chars, start),
        _ => {
            if '0' <= c && c <= '9' {
                get_number(chars, start)
            } else {
                Err(LexError::InvalidChar { symbol: c })
            }
        },
    }
}

/// Cuts the characters of a document into tokens.
pub fn tokenize_chars(chars: &Vec<char>) -> (r: Result<Vec<Token>, LexError>)
    ensures
        match r {
            Ok(ts) => tokenize_spec(chars@) == Ok::<Seq<Lexeme>, LexError>(lexemes(ts@)),
            Err(e) => tokenize_spec(chars@) == Err::<Seq<Lexeme>, LexError>(e),
        },
{
    let n = chars.len();
    let mut tokens: Vec<Token> = Vec::new();
    let mut i: usize = 0;
    assert(lexemes(tokens@) + Seq::<Lexeme>::empty() =~= Seq::<Lexeme>::empty());
    while i < n
        invariant
            n == chars.len(),
            i <= n,
            tokenize_spec(chars@) == followed_by(lexemes(tokens@), tokenize_from(chars@, i as int)),
        decreases n - i,
    {
        if is_whitespace_char(chars[i]) {
            i += 1;
        } else {
            let ghost done = lexemes(tokens@);
            match get_token(chars, i) {
                Err(e) => {
                    return Err(e);
                },
                Ok((t, next)) => {
                    proof {
                        let rest = tokenize_from(chars@, next as int);
                        assert(lexemes(tokens@.push(t)) =~= done.push(t@));
                        if let Ok(ts) = rest {
                            assert(done + (seq![t@] + ts) =~= done.push(t@) + ts);
                        }
                    }
                    tokens.push(t);
                    i = next;
                },
            }
        }
    }
    assert(lexemes(tokens@) + Seq::<Lexeme>::empty() =~= lexemes(tokens@));
    Ok(tokens)
}

/// Cuts a document into tokens; the error is the message of the
/// [`LexError`] that the text gives.
pub fn tokenize(s: &str) -> (r: Result<Vec<Token>, String>)
    ensures
        match r {
            Ok(ts) => tokenize_spec(s@) == Ok::<Seq<Lexeme>, LexError>(lexemes(ts@)),
            Err(m) => tokenize_spec(s@) is Err && m@ == tokenize_spec(s@)->Err_0.message_spec(),
        },
{
    let chars = chars_of(s);
    match tokenize_chars(&chars) {
        Ok(ts) => Ok(ts),
        Err(e) => Err(e.message()),
    }
}

} // verus!

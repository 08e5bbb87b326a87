//! Cutting a value's text into tokens gives the tokens of the value.

use vstd::prelude::*;
use crate::data_structures::j_number::{Decimal, Sign};
use crate::data_structures::j_value::{items_text, members_text, Json};
use crate::parser::tokenizer::{
    followed_by,
    is_numeric,
    keyword_at,
    lexeme_at,
    matched_len,
    number_at,
    numeric_len,
    punctuation,
    string_at,
    string_len,
    tokenize_from,
    Keyword,
    LexError,
    Lexeme,
};
use crate::round_trip::model::{
    is_plain_text,
    items_tokens,
    lemma_stands_index,
    lemma_stands_split,
    members_tokens,
    stands_at,
};
use crate::serializer::{escape, escape_all, is_escaped, quoted};
use crate::text::is_digit;

verus! {

/// Whether the text of a value can end before index `at`: the text ends
/// there, or a comma or a closing bracket stands there.
pub open spec fn value_can_end(s: Seq<char>, at: int) -> bool {
    at >= s.len() || s[at] == ',' || s[at] == ']' || s[at] == '}'
}

/// The tokens of `s` from index `i` on, or the first lexical error. This is
/// [`tokenize_from`] under a name that a proof opens only where it reads a
/// token.
#[verifier::opaque]
pub open spec fn scan_from(s: Seq<char>, i: int) -> Result<Seq<Lexeme>, LexError> {
    tokenize_from(s, i)
}

/// Tokens before tokens before a rest are the tokens joined before the rest.
pub proof fn lemma_followed_twice(
    a: Seq<Lexeme>,
    b: Seq<Lexeme>,
    r: Result<Seq<Lexeme>, LexError>,
)
    ensures
        followed_by(a, followed_by(b, r)) == followed_by(a + b, r),
{
    if let Ok(ts) = r {
        assert(a + (b + ts) =~= (a + b) + ts);
    }
}

/// A character that is a token by itself is cut off as that token.
pub proof fn lemma_punctuation_scanned(s: Seq<char>, i: int)
    requires
        0 <= i < s.len(),
        punctuation(s[i]) is Some,
    ensures
        scan_from(s, i) == followed_by(seq![punctuation(s[i])->0], scan_from(s, i + 1)),
{
    reveal(scan_from);
}

/// Plain text is written as it is.
pub proof fn lemma_plain_unescaped(x: Seq<char>)
    requires
        is_plain_text(x),
    ensures
        escape_all(x) == x,
    decreases x.len(),
{
    if x.len() > 0 {
        lemma_plain_unescaped(x.drop_last());
        assert(!is_escaped(x.last()));
        assert(escape(x.last()) =~= seq![x.last()]);
        assert(x.drop_last() + seq![x.last()] =~= x);
    } else {
        assert(escape_all(x) =~= x);
    }
}

/// Where only characters that are neither a backslash nor a quotation mark
/// stand from `from` up to a quotation mark at `to`, the string that starts
/// at `from` ends at `to`.
pub proof fn lemma_string_len(s: Seq<char>, from: int, to: int)
    requires
        0 <= from <= to < s.len(),
        forall|k: int| from <= k < to ==> #[trigger] s[k] != '\\' && s[k] != '"',
        s[to] == '"',
    ensures
        string_len(s, from, false) == to - from,
    decreases to - from,
{
    if from < to {
        lemma_string_len(s, from + 1, to);
    }
}

/// The text of a plain string is cut off as the string's token.
pub proof fn lemma_string_scanned(s: Seq<char>, i: int, x: Seq<char>)
    requires
        is_plain_text(x),
        stands_at(s, i, quoted(x)),
    ensures
        scan_from(s, i) == followed_by(
            seq![Lexeme::String(x)],
            scan_from(s, i + quoted(x).len()),
        ),
        quoted(x).len() == x.len() + 2,
{
    reveal(scan_from);
    lemma_plain_unescaped(x);
    let q = quoted(x);
    assert(q.len() == x.len() + 2);
    lemma_stands_index(s, i, q, 0);
    lemma_stands_index(s, i, q, (x.len() + 1) as int);
    assert forall|k: int| i + 1 <= k < i + 1 + x.len() implies #[trigger] s[k] != '\\' && s[k]
        != '"' by {
        lemma_stands_index(s, i, q, k - i);
        assert(q[k - i] == x[k - i - 1]);
        assert(!is_escaped(x[k - i - 1]));
    }
    lemma_string_len(s, i + 1, i + 1 + x.len());
    assert(s.subrange(i + 1, i + 1 + x.len()) =~= x) by {
        assert forall|k: int| 0 <= k < x.len() implies s[i + 1 + k] == x[k] by {
            lemma_stands_index(s, i, q, k + 1);
        }
    }
    assert(string_at(s, i) == Ok::<(Lexeme, nat), LexError>(
        (Lexeme::String(x), (x.len() + 1) as nat),
    ));
    assert(lexeme_at(s, i) == string_at(s, i));
}

/// Where only characters that can stand in a numeral stand from `from` up
/// to `to`, and none stands at `to`, the span that starts at `from` ends at
/// `to`.
pub proof fn lemma_numeric_len(s: Seq<char>, from: int, to: int)
    requires
        0 <= from <= to <= s.len(),
        forall|k: int| from <= k < to ==> is_numeric(#[trigger] s[k]),
        to < s.len() ==> !is_numeric(s[to]),
    ensures
        numeric_len(s, from) == to - from,
    decreases to - from,
{
    if from < to {
        lemma_numeric_len(s, from + 1, to);
    }
}

/// The text of a well-formed number starts with a digit or a minus sign and
/// holds only characters that can stand in a numeral.
pub proof fn lemma_render_numeric(d: Decimal)
    requires
        d.well_formed(),
    ensures
        d.render().len() >= 1,
        is_digit(d.render()[0]) || d.render()[0] == '-',
        forall|k: int| 0 <= k < d.render().len() ==> is_numeric(#[trigger] d.render()[k]),
{
    let r = d.render();
    let sg = d.sign_text();
    let ft = d.fraction_text();
    let et = d.exponent_text();
    let a = sg.len() as int;
    let b = a + d.integer.len();
    let c = b + ft.len();
    assert(is_digit(d.integer[0]));
    assert(r[a] == d.integer[0]);
    assert forall|k: int| 0 <= k < r.len() implies is_numeric(#[trigger] r[k]) by {
        if k < a {
            assert(r[k] == sg[k]);
        } else if k < b {
            assert(r[k] == d.integer[k - a]);
            assert(is_digit(d.integer[k - a]));
        } else if k < c {
            assert(r[k] == ft[k - b]);
            if k > b {
                assert(ft[k - b] == d.fraction[k - b - 1]);
                assert(is_digit(d.fraction[k - b - 1]));
            }
        } else {
            assert(r[k] == et[k - c]);
            let signed: int = if d.e_sign == Sign::NoSign {
                0
            } else {
                1
            };
            if k - c >= 1 + signed {
                assert(et[k - c] == d.exponent[k - c - 1 - signed]);
                assert(is_digit(d.exponent[k - c - 1 - signed]));
            }
        }
    }
}

/// The text of a well-formed number is cut off as the number's token, where
/// a comma, a closing bracket or the end of the text follows it.
pub proof fn lemma_number_scanned(s: Seq<char>, i: int, d: Decimal)
    requires
        d.well_formed(),
        stands_at(s, i, d.render()),
        value_can_end(s, i + d.render().len()),
    ensures
        scan_from(s, i) == followed_by(
            seq![Lexeme::Number(d.render())],
            scan_from(s, i + d.render().len()),
        ),
{
    reveal(scan_from);
    let r = d.render();
    lemma_render_numeric(d);
    lemma_stands_index(s, i, r, 0);
    let end = i + r.len();
    assert forall|k: int| i + 1 <= k < end implies is_numeric(#[trigger] s[k]) by {
        lemma_stands_index(s, i, r, k - i);
    }
    lemma_numeric_len(s, i + 1, end);
    assert(s.subrange(i, end) =~= r);
    assert(number_at(s, i) == Ok::<(Lexeme, nat), LexError>(
        (Lexeme::Number(r), (r.len() - 1) as nat),
    ));
    assert(lexeme_at(s, i) == number_at(s, i));
}

/// The text of a word is cut off as the word's token.
pub proof fn lemma_keyword_scanned(s: Seq<char>, i: int, keyword: Keyword)
    requires
        stands_at(s, i, keyword.text()),
    ensures
        scan_from(s, i) == followed_by(
            seq![keyword.lexeme()],
            scan_from(s, i + keyword.text().len()),
        ),
{
    reveal(scan_from);
    let w = keyword.text();
    assert forall|k: int| 0 <= k < w.len() implies s[i + k] == w[k] by {
        lemma_stands_index(s, i, w, k);
    }
    reveal_with_fuel(matched_len, 6);
    assert(matched_len(s, i, w, 0) == w.len());
    assert(keyword_at(s, i, keyword) == Ok::<(Lexeme, nat), LexError>(
        (keyword.lexeme(), (w.len() - 1) as nat),
    ));
    assert(lexeme_at(s, i) == keyword_at(s, i, keyword));
}

/// Cutting the text of a well-formed, plain value into tokens gives the
/// tokens of the value, and goes on behind the text.
pub proof fn lemma_value_scanned(s: Seq<char>, i: int, v: Json)
    requires
        v.well_formed(),
        v.plain(),
        stands_at(s, i, v.text()),
        value_can_end(s, i + v.text().len()),
    ensures
        scan_from(s, i) == followed_by(v.tokens(), scan_from(s, i + v.text().len())),
    decreases v, 0nat,
{
    match v {
        Json::Object(members) => {
            let inner = members_text(members, 0);
            let close = seq!['}'];
            assert(v.text() =~= seq!['{'] + (inner + close));
            lemma_stands_split(s, i, seq!['{'], inner + close);
            lemma_stands_index(s, i, seq!['{'], 0);
            lemma_punctuation_scanned(s, i);
            lemma_members_scanned(s, i + 1, members, 0);
            let j = i + 1 + inner.len();
            lemma_stands_split(s, i + 1, inner, close);
            lemma_stands_index(s, j, close, 0);
            lemma_punctuation_scanned(s, j);
            let rest = scan_from(s, j + 1);
            lemma_followed_twice(
                members_tokens(members, 0),
                seq![Lexeme::CurlyBracketClose],
                rest,
            );
            lemma_followed_twice(
                seq![Lexeme::CurlyBracketOpen],
                members_tokens(members, 0) + seq![Lexeme::CurlyBracketClose],
                rest,
            );
            assert(v.tokens() =~= seq![Lexeme::CurlyBracketOpen] + (members_tokens(members, 0)
                + seq![Lexeme::CurlyBracketClose]));
        },
        Json::Array(items) => {
            let inner = items_text(items, 0);
            let close = seq![']'];
            assert(v.text() =~= seq!['['] + (inner + close));
            lemma_stands_split(s, i, seq!['['], inner + close);
            lemma_stands_index(s, i, seq!['['], 0);
            lemma_punctuation_scanned(s, i);
            lemma_items_scanned(s, i + 1, items, 0);
            let j = i + 1 + inner.len();
            lemma_stands_split(s, i + 1, inner, close);
            lemma_stands_index(s, j, close, 0);
            lemma_punctuation_scanned(s, j);
            let rest = scan_from(s, j + 1);
            lemma_followed_twice(items_tokens(items, 0), seq![Lexeme::SquareBracketClose], rest);
            lemma_followed_twice(
                seq![Lexeme::SquareBracketOpen],
                items_tokens(items, 0) + seq![Lexeme::SquareBracketClose],
                rest,
            );
            assert(v.tokens() =~= seq![Lexeme::SquareBracketOpen] + (items_tokens(items, 0)
                + seq![Lexeme::SquareBracketClose]));
        },
        Json::String(x) => {
            lemma_string_scanned(s, i, x);
        },
        Json::Number(d) => {
            lemma_number_scanned(s, i, d);
        },
        Json::Boolean(b) => {
            if b {
                lemma_keyword_scanned(s, i, Keyword::True);
            } else {
                lemma_keyword_scanned(s, i, Keyword::False);
            }
        },
        Json::Null => {
            lemma_keyword_scanned(s, i, Keyword::Null);
        },
    }
}

/// Where tokens are cut off up to a comma, and further tokens behind the
/// comma, the tokens with the comma between them are cut off together.
pub proof fn lemma_comma_between(
    s: Seq<char>,
    j: int,
    head: Seq<Lexeme>,
    comma: int,
    tail: Seq<Lexeme>,
    end: int,
)
    requires
        0 <= j <= comma < s.len(),
        s[comma] == ',',
        scan_from(s, j) == followed_by(head, scan_from(s, comma)),
        scan_from(s, comma + 1) == followed_by(tail, scan_from(s, end)),
    ensures
        scan_from(s, j) == followed_by(
            head + (seq![Lexeme::Comma] + tail),
            scan_from(s, end),
        ),
{
    lemma_punctuation_scanned(s, comma);
    let after = scan_from(s, end);
    lemma_followed_twice(seq![Lexeme::Comma], tail, after);
    lemma_followed_twice(head, seq![Lexeme::Comma] + tail, after);
}

/// The text of a plain key and the colon behind it are cut off as two
/// tokens.
pub proof fn lemma_key_scanned(s: Seq<char>, j: int, key: Seq<char>)
    requires
        is_plain_text(key),
        stands_at(s, j, quoted(key) + seq![':']),
    ensures
        scan_from(s, j) == followed_by(
            seq![Lexeme::String(key), Lexeme::Colon],
            scan_from(s, j + quoted(key).len() + 1),
        ),
{
    let q = quoted(key);
    lemma_stands_split(s, j, q, seq![':']);
    lemma_stands_index(s, j + q.len(), seq![':'], 0);
    lemma_string_scanned(s, j, key);
    lemma_punctuation_scanned(s, j + q.len());
    lemma_followed_twice(
        seq![Lexeme::String(key)],
        seq![Lexeme::Colon],
        scan_from(s, j + q.len() + 1),
    );
    assert(seq![Lexeme::String(key)] + seq![Lexeme::Colon] =~= seq![
        Lexeme::String(key),
        Lexeme::Colon,
    ]);
}

/// Cutting the text of the items from index `k` on into tokens gives their
/// tokens, and goes on at the closing bracket behind them.
pub proof fn lemma_items_scanned(s: Seq<char>, j: int, items: Seq<Json>, k: nat)
    requires
        Json::Array(items).well_formed(),
        Json::Array(items).plain(),
        k <= items.len(),
        stands_at(s, j, items_text(items, k) + seq![']']),
    ensures
        scan_from(s, j) == followed_by(
            items_tokens(items, k),
            scan_from(s, j + items_text(items, k).len()),
        ),
    decreases items, items.len() - k,
{
    let close = seq![']'];
    if k >= items.len() {
        assert(Seq::<Lexeme>::empty() + scan_from(s, j)->Ok_0 =~= scan_from(s, j)->Ok_0);
    } else {
        let v = items[k as int];
        let n = v.text().len();
        let rest = items_text(items, k + 1);
        assert(Json::Array(items)->Array_0 == items);
        if k + 1 < items.len() {
            assert(items_text(items, k) + close =~= v.text() + (seq![','] + (rest + close)));
            lemma_stands_split(s, j, v.text(), seq![','] + (rest + close));
            lemma_stands_split(s, j + n, seq![','], rest + close);
            lemma_stands_index(s, j + n, seq![','], 0);
            lemma_value_scanned(s, j, v);
            lemma_items_scanned(s, j + n + 1, items, k + 1);
            lemma_comma_between(
                s,
                j,
                v.tokens(),
                j + n,
                items_tokens(items, k + 1),
                j + n + 1 + rest.len(),
            );
            assert(items_tokens(items, k) =~= v.tokens() + (seq![Lexeme::Comma] + items_tokens(
                items,
                k + 1,
            )));
        } else {
            assert(items_text(items, k) + close =~= v.text() + close);
            lemma_stands_split(s, j, v.text(), close);
            lemma_stands_index(s, j + n, close, 0);
            lemma_value_scanned(s, j, v);
            assert(items_tokens(items, k) =~= v.tokens());
            assert(items_text(items, k) =~= v.text());
        }
    }
}

/// The text of a member is cut off as its key, the colon and the tokens of
/// its value.
pub proof fn lemma_member_scanned(s: Seq<char>, j: int, key: Seq<char>, v: Json)
    requires
        is_plain_text(key),
        stands_at(s, j, quoted(key) + seq![':'] + v.text()),
        scan_from(s, j + quoted(key).len() + 1) == followed_by(
            v.tokens(),
            scan_from(s, j + quoted(key).len() + 1 + v.text().len()),
        ),
    ensures
        scan_from(s, j) == followed_by(
            seq![Lexeme::String(key), Lexeme::Colon] + v.tokens(),
            scan_from(s, j + quoted(key).len() + 1 + v.text().len()),
        ),
{
    lemma_stands_split(s, j, quoted(key) + seq![':'], v.text());
    lemma_key_scanned(s, j, key);
    lemma_followed_twice(
        seq![Lexeme::String(key), Lexeme::Colon],
        v.tokens(),
        scan_from(s, j + quoted(key).len() + 1 + v.text().len()),
    );
}

/// Cutting the text of the members from index `k` on into tokens gives
/// their tokens, and goes on at the closing bracket behind them.
pub proof fn lemma_members_scanned(s: Seq<char>, j: int, members: Seq<(Seq<char>, Json)>, k: nat)
    requires
        Json::Object(members).well_formed(),
        Json::Object(members).plain(),
        k <= members.len(),
        stands_at(s, j, members_text(members, k) + seq!['}']),
    ensures
        scan_from(s, j) == followed_by(
            members_tokens(members, k),
            scan_from(s, j + members_text(members, k).len()),
        ),
    decreases members, members.len() - k,
{
    let close = seq!['}'];
    if k >= members.len() {
        assert(Seq::<Lexeme>::empty() + scan_from(s, j)->Ok_0 =~= scan_from(s, j)->Ok_0);
    } else {
        let key = members[k as int].0;
        let v = members[k as int].1;
        let member = quoted(key) + seq![':'] + v.text();
        let head = seq![Lexeme::String(key), Lexeme::Colon] + v.tokens();
        let start = j + quoted(key).len() + 1;
        let n = member.len();
        let rest = members_text(members, k + 1);
        assert(Json::Object(members)->Object_0 == members);
        if k + 1 < members.len() {
            assert(members_text(members, k) + close =~= member + (seq![','] + (rest + close)));
            lemma_stands_split(s, j, member, seq![','] + (rest + close));
            lemma_stands_split(s, j + n, seq![','], rest + close);
            lemma_stands_index(s, j + n, seq![','], 0);
            lemma_stands_split(s, j, quoted(key) + seq![':'], v.text());
            lemma_value_scanned(s, start, v);
            lemma_member_scanned(s, j, key, v);
            lemma_members_scanned(s, j + n + 1, members, k + 1);
            lemma_comma_between(
                s,
                j,
                head,
                j + n,
                members_tokens(members, k + 1),
                j + n + 1 + rest.len(),
            );
            assert(members_tokens(members, k) =~= head + (seq![Lexeme::Comma] + members_tokens(
                members,
                k + 1,
            )));
        } else {
            assert(members_text(members, k) + close =~= member + close);
            lemma_stands_split(s, j, member, close);
            lemma_stands_index(s, j + n, close, 0);
            lemma_stands_split(s, j, quoted(key) + seq![':'], v.text());
            lemma_value_scanned(s, start, v);
            lemma_member_scanned(s, j, key, v);
            assert(members_tokens(members, k) =~= head);
            assert(members_text(members, k) =~= member);
        }
    }
}

} // verus!

//! Reading the tokens of a value's text gives the value back.

use vstd::prelude::*;
use crate::data_structures::j_object::{has_key, lemma_position};
use crate::data_structures::j_value::Json;
use crate::parser::parser::{items_at, members_at, value_at, ParseError};
use crate::parser::tokenizer::Lexeme;
use crate::round_trip::model::{
    items_tokens,
    lemma_stands_index,
    lemma_stands_split,
    members_tokens,
    stands_at,
};
use crate::round_trip::numbers::lemma_number_round_trip;

verus! {

/// Whether a value can start with the token `t`.
pub open spec fn starts_value(t: Lexeme) -> bool {
    t is CurlyBracketOpen || t is SquareBracketOpen || t is String || t is Number || t is True
        || t is False || t is Null
}

/// The text of a value has a token, and its first token starts a value.
pub proof fn lemma_tokens_first(v: Json)
    ensures
        v.tokens().len() >= 1,
        starts_value(v.tokens()[0]),
{
}

/// Where two parts stand one behind the other, the two together stand at
/// the place of the first.
pub proof fn lemma_stands_join<A>(whole: Seq<A>, at: int, first: Seq<A>, second: Seq<A>)
    requires
        stands_at(whole, at, first),
        stands_at(whole, at + first.len(), second),
    ensures
        stands_at(whole, at, first + second),
{
    assert forall|k: int| 0 <= k < first.len() + second.len() implies whole[at + k] == (first
        + second)[k] by {
        if k < first.len() {
            lemma_stands_index(whole, at, first, k);
        } else {
            lemma_stands_index(whole, at + first.len(), second, k - first.len());
        }
    }
    assert(whole.subrange(at, at + (first + second).len()) =~= first + second);
}

/// The canonical forms of the first `k` items.
pub open spec fn items_done(items: Seq<Json>, k: nat) -> Seq<Json> {
    Seq::new(k, |x: int| items[x].canonical())
}

/// The first `k` members, with their values in canonical form.
pub open spec fn members_done(members: Seq<(Seq<char>, Json)>, k: nat) -> Seq<(Seq<char>, Json)> {
    Seq::new(k, |x: int| (members[x].0, members[x].1.canonical()))
}

/// Reading the tokens of a well-formed value's text gives the value in its
/// canonical form, and takes these tokens and no more.
pub proof fn lemma_value_read(ts: Seq<Lexeme>, i: int, v: Json)
    requires
        v.well_formed(),
        stands_at(ts, i, v.tokens()),
    ensures
        value_at(ts, i) == Ok::<(Json, nat), ParseError>((v.canonical(), v.tokens().len())),
    decreases v, 0nat,
{
    lemma_tokens_first(v);
    lemma_stands_index(ts, i, v.tokens(), 0);
    match v {
        Json::Object(members) => {
            let inner = members_tokens(members, 0);
            let close = seq![Lexeme::CurlyBracketClose];
            assert(v.tokens() =~= seq![Lexeme::CurlyBracketOpen] + (inner + close));
            lemma_stands_split(ts, i, seq![Lexeme::CurlyBracketOpen], inner + close);
            assert(members_done(members, 0) =~= Seq::<(Seq<char>, Json)>::empty());
            lemma_members_read(ts, i + 1, members, 0);
        },
        Json::Array(items) => {
            let inner = items_tokens(items, 0);
            let close = seq![Lexeme::SquareBracketClose];
            assert(v.tokens() =~= seq![Lexeme::SquareBracketOpen] + (inner + close));
            lemma_stands_split(ts, i, seq![Lexeme::SquareBracketOpen], inner + close);
            assert(items_done(items, 0) =~= Seq::<Json>::empty());
            lemma_items_read(ts, i + 1, items, 0);
        },
        Json::Number(n) => {
            lemma_number_round_trip(n);
        },
        _ => {},
    }
}

/// Reading the tokens of the items from index `k` on, when the items before
/// have been read, gives the whole array.
pub proof fn lemma_items_read(ts: Seq<Lexeme>, j: int, items: Seq<Json>, k: nat)
    requires
        Json::Array(items).well_formed(),
        k < items.len() || k == items.len() == 0,
        stands_at(ts, j, items_tokens(items, k) + seq![Lexeme::SquareBracketClose]),
    ensures
        items_at(ts, j, items_done(items, k)) == Ok::<(Json, nat), ParseError>(
            (Json::Array(items).canonical(), items_tokens(items, k).len() + 1),
        ),
    decreases items, items.len() - k,
{
    let close = seq![Lexeme::SquareBracketClose];
    let all = items_tokens(items, k);
    let done = items_done(items, k);
    if k >= items.len() {
        assert(all + close =~= close);
        lemma_stands_index(ts, j, close, 0);
        assert(done =~= Json::Array(items).canonical()->Array_0);
    } else {
        let v = items[k as int];
        let separator = if k + 1 < items.len() {
            seq![Lexeme::Comma]
        } else {
            Seq::<Lexeme>::empty()
        };
        let rest = items_tokens(items, k + 1);
        let n = v.tokens().len();
        assert(all + close =~= v.tokens() + (separator + (rest + close)));
        lemma_stands_split(ts, j, v.tokens(), separator + (rest + close));
        lemma_stands_split(ts, j + n, separator, rest + close);
        lemma_tokens_first(v);
        lemma_stands_index(ts, j, v.tokens(), 0);
        lemma_value_read(ts, j, v);
        assert(done.push(v.canonical()) =~= items_done(items, k + 1));
        if k + 1 < items.len() {
            lemma_stands_index(ts, j + n, separator, 0);
            lemma_items_read(ts, j + n + 1, items, k + 1);
        } else {
            assert(rest + close =~= close);
            lemma_stands_index(ts, j + n, close, 0);
            assert(items_done(items, k + 1) =~= Json::Array(items).canonical()->Array_0);
        }
    }
}

/// Reading the tokens of the members from index `k` on, when the members
/// before have been read, gives the whole object.
pub proof fn lemma_members_read(ts: Seq<Lexeme>, j: int, members: Seq<(Seq<char>, Json)>, k: nat)
    requires
        Json::Object(members).well_formed(),
        k < members.len() || k == members.len() == 0,
        stands_at(ts, j, members_tokens(members, k) + seq![Lexeme::CurlyBracketClose]),
    ensures
        members_at(ts, j, members_done(members, k)) == Ok::<(Json, nat), ParseError>(
            (Json::Object(members).canonical(), members_tokens(members, k).len() + 1),
        ),
    decreases members, members.len() - k,
{
    let close = seq![Lexeme::CurlyBracketClose];
    let all = members_tokens(members, k);
    let done = members_done(members, k);
    if k >= members.len() {
        assert(all + close =~= close);
        lemma_stands_index(ts, j, close, 0);
        assert(done =~= Json::Object(members).canonical()->Object_0);
    } else {
        let key = members[k as int].0;
        let v = members[k as int].1;
        let head = seq![Lexeme::String(key), Lexeme::Colon];
        let separator = if k + 1 < members.len() {
            seq![Lexeme::Comma]
        } else {
            Seq::<Lexeme>::empty()
        };
        let rest = members_tokens(members, k + 1);
        let n = v.tokens().len();
        assert(all + close =~= head + (v.tokens() + (separator + (rest + close))));
        lemma_stands_split(ts, j, head, v.tokens() + (separator + (rest + close)));
        lemma_stands_split(ts, j + 2, v.tokens(), separator + (rest + close));
        lemma_stands_split(ts, j + 2 + n, separator, rest + close);
        lemma_stands_index(ts, j, head, 0);
        lemma_stands_index(ts, j, head, 1);
        lemma_value_read(ts, j + 2, v);
        assert(!has_key(done, key)) by {
            assert forall|x: int| 0 <= x < done.len() implies (#[trigger] done[x]).0 != key by {
                assert(members[x].0 != members[k as int].0);
            }
            lemma_position(done, key, done.len() as int);
        }
        assert(done.push((key, v.canonical())) =~= members_done(members, k + 1));
        if k + 1 < members.len() {
            lemma_stands_index(ts, j + 2 + n, separator, 0);
            lemma_members_read(ts, j + 2 + n + 1, members, k + 1);
        } else {
            assert(rest + close =~= close);
            lemma_stands_index(ts, j + 2 + n, close, 0);
            assert(members_done(members, k + 1) =~= Json::Object(members).canonical()->Object_0);
        }
    }
}

} // verus!

//! Reading a document gives a well-formed value.

use vstd::prelude::*;
use crate::data_structures::j_number::lemma_literal_well_formed;
use crate::data_structures::j_object::lemma_position_found;
use crate::data_structures::j_string::is_legal_text;
use crate::data_structures::j_value::Json;
use crate::parser::parser::{items_at, members_at, parse_spec, value_at};
use crate::parser::tokenizer::{tokenize_spec, unread, Lexeme};

verus! {

/// The value that is read at a token is well formed.
pub proof fn lemma_value_well_formed(ts: Seq<Lexeme>, i: int)
    requires
        value_at(ts, i) is Ok,
    ensures
        value_at(ts, i)->Ok_0.0.well_formed(),
    decreases unread(ts, i), 0nat,
{
    match ts[i] {
        Lexeme::CurlyBracketOpen => {
            let done = Seq::<(Seq<char>, Json)>::empty();
            assert(Json::Object(done)->Object_0 == done);
            lemma_members_well_formed(ts, i + 1, done);
        },
        Lexeme::SquareBracketOpen => {
            let done = Seq::<Json>::empty();
            assert(Json::Array(done)->Array_0 == done);
            lemma_items_well_formed(ts, i + 1, done);
        },
        Lexeme::Number(n) => {
            lemma_literal_well_formed(n);
        },
        _ => {},
    }
}

/// The array that is read when well-formed items have been read is well
/// formed.
pub proof fn lemma_items_well_formed(ts: Seq<Lexeme>, i: int, done: Seq<Json>)
    requires
        Json::Array(done).well_formed(),
        items_at(ts, i, done) is Ok,
    ensures
        items_at(ts, i, done)->Ok_0.0.well_formed(),
    decreases unread(ts, i), 1nat,
{
    assert(Json::Array(done)->Array_0 == done);
    if 0 <= i < ts.len() && !(ts[i] == Lexeme::SquareBracketClose && done.len() == 0) {
        lemma_value_well_formed(ts, i);
        let v = value_at(ts, i)->Ok_0.0;
        let n = value_at(ts, i)->Ok_0.1;
        let next = done.push(v);
        assert(Json::Array(next)->Array_0 == next);
        assert(Json::Array(next).well_formed()) by {
            assert forall|x: int| 0 <= x < next.len() implies (#[trigger] next[x]).well_formed() by {
                if x < done.len() {
                    assert(next[x] == done[x]);
                }
            }
        }
        if ts[i + n] == Lexeme::Comma {
            lemma_items_well_formed(ts, i + n + 1, next);
        }
    }
}

/// The object that is read when well-formed members have been read is well
/// formed.
pub proof fn lemma_members_well_formed(ts: Seq<Lexeme>, i: int, done: Seq<(Seq<char>, Json)>)
    requires
        Json::Object(done).well_formed(),
        members_at(ts, i, done) is Ok,
    ensures
        members_at(ts, i, done)->Ok_0.0.well_formed(),
    decreases unread(ts, i), 1nat,
{
    assert(Json::Object(done)->Object_0 == done);
    if 0 <= i < ts.len() && !(ts[i] == Lexeme::CurlyBracketClose && done.len() == 0) {
        lemma_value_well_formed(ts, i + 2);
        let key = ts[i]->String_0;
        let v = value_at(ts, i + 2)->Ok_0.0;
        let n = value_at(ts, i + 2)->Ok_0.1;
        let next = done.push((key, v));
        assert(Json::Object(next)->Object_0 == next);
        lemma_position_found(done, key);
        assert(Json::Object(next).well_formed()) by {
            assert forall|x: int, y: int| 0 <= x < y < next.len() implies (#[trigger] next[x]).0
                != (#[trigger] next[y]).0 by {
                if y < done.len() {
                    assert(next[x] == done[x] && next[y] == done[y]);
                } else {
                    assert(next[x] == done[x]);
                }
            }
            assert forall|x: int| 0 <= x < next.len() implies is_legal_text(
                (#[trigger] next[x]).0,
            ) && next[x].1.well_formed() by {
                if x < done.len() {
                    assert(next[x] == done[x]);
                }
            }
        }
        if ts[i + 2 + n] == Lexeme::Comma {
            lemma_members_well_formed(ts, i + 2 + n + 1, next);
        }
    }
}

/// The value of a document is well formed.
pub proof fn lemma_parse_well_formed(d: Seq<char>)
    requires
        parse_spec(d) is Ok,
    ensures
        parse_spec(d)->Ok_0.well_formed(),
{
    lemma_value_well_formed(tokenize_spec(d)->Ok_0, 0);
}

} // verus!

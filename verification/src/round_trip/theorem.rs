//! The round trip: a value that is written as text and read again is the
//! value that was written.

use vstd::prelude::*;
use crate::data_structures::j_object::{has_key, lemma_position, position};
use crate::data_structures::j_value::Json;
use crate::parser::parser::{parse_spec, ParseError};
use crate::parser::tokenizer::{tokenize_spec, LexError, Lexeme};
use crate::parser::well_formed::lemma_parse_well_formed;
use crate::round_trip::numbers::lemma_canonical_same_value;
use crate::round_trip::reading::lemma_value_read;
use crate::round_trip::writing::{lemma_value_scanned, scan_from};

verus! {

/// The canonical form of a well-formed value is equal to the value.
pub proof fn lemma_canonical_same(v: Json)
    requires
        v.well_formed(),
    ensures
        v.canonical().same(v),
    decreases v,
{
    match v {
        Json::Object(members) => {
            let a = v.canonical()->Object_0;
            assert(Json::Object(members)->Object_0 == members);
            assert forall|i: int| 0 <= i < a.len() implies has_key(members, (#[trigger] a[i]).0)
                && a[i].1.same(members[position(members, a[i].0)].1) by {
                assert forall|j: int| 0 <= j < i implies (#[trigger] members[j]).0
                    != members[i].0 by {}
                lemma_position(members, members[i].0, i);
                lemma_canonical_same(members[i].1);
            }
        },
        Json::Array(items) => {
            let a = v.canonical()->Array_0;
            assert(Json::Array(items)->Array_0 == items);
            assert forall|i: int| 0 <= i < a.len() implies (#[trigger] a[i]).same(items[i]) by {
                lemma_canonical_same(items[i]);
            }
        },
        Json::Number(n) => {
            lemma_canonical_same_value(n);
        },
        _ => {},
    }
}

/// The text of a well-formed value without escaped characters is cut into
/// the tokens of the value.
pub proof fn lemma_text_tokens(v: Json)
    requires
        v.well_formed(),
        v.plain(),
    ensures
        tokenize_spec(v.text()) == Ok::<Seq<Lexeme>, LexError>(v.tokens()),
{
    let s = v.text();
    assert(s.subrange(0, s.len() as int) =~= s);
    reveal(scan_from);
    lemma_value_scanned(s, 0, v);
    assert(v.tokens() + Seq::<Lexeme>::empty() =~= v.tokens());
}

/// Reading the text of a well-formed value without escaped characters gives
/// the value back, with every number in its canonical form, and so a value
/// that is equal to the one that was written.
pub proof fn lemma_written_and_read(v: Json)
    requires
        v.well_formed(),
        v.plain(),
    ensures
        parse_spec(v.text()) == Ok::<Json, ParseError>(v.canonical()),
        v.canonical().same(v),
{
    lemma_text_tokens(v);
    let ts = v.tokens();
    assert(ts.subrange(0, ts.len() as int) =~= ts);
    lemma_value_read(ts, 0, v);
    lemma_canonical_same(v);
}

/// For every document `d` that has a value, in which no key and no string
/// holds a character that is written as an escape: the text of the value of
/// `d` is a document again, and its value is equal to the value of `d`.
pub proof fn theorem_round_trip(d: Seq<char>)
    requires
        parse_spec(d) is Ok,
        parse_spec(d)->Ok_0.plain(),
    ensures
        parse_spec(parse_spec(d)->Ok_0.text()) is Ok,
        parse_spec(parse_spec(d)->Ok_0.text())->Ok_0.same(parse_spec(d)->Ok_0),
{
    lemma_parse_well_formed(d);
    lemma_written_and_read(parse_spec(d)->Ok_0);
}

} // verus!

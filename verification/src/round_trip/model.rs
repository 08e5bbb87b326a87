//! What the laws of this module speak of: the values whose text needs no
//! escape, the canonical form of a value, and the tokens of a value's text.

use vstd::prelude::*;
use crate::data_structures::j_value::Json;
use crate::parser::tokenizer::Lexeme;
use crate::serializer::is_escaped;

verus! {

/// Whether no character of `s` is written as an escape.
pub open spec fn is_plain_text(s: Seq<char>) -> bool {
    forall|i: int| 0 <= i < s.len() ==> !is_escaped(#[trigger] s[i])
}

impl Json {
    /// Whether no key and no string in the value holds a character that is
    /// written as an escape.
    pub open spec fn plain(self) -> bool
        decreases self,
    {
        match self {
            Json::Object(members) => forall|i: int|
                0 <= i < members.len() ==> is_plain_text((#[trigger] members[i]).0)
                    && members[i].1.plain(),
            Json::Array(items) => forall|i: int|
                0 <= i < items.len() ==> (#[trigger] items[i]).plain(),
            Json::String(s) => is_plain_text(s),
            _ => true,
        }
    }

    /// The value with every number in its canonical form.
    pub open spec fn canonical(self) -> Json
        decreases self,
    {
        match self {
            Json::Object(members) => Json::Object(
                Seq::new(
                    members.len(),
                    |i: int|
                        if 0 <= i < members.len() {
                            (members[i].0, members[i].1.canonical())
                        } else {
                            (Seq::empty(), Json::Null)
                        },
                ),
            ),
            Json::Array(items) => Json::Array(
                Seq::new(
                    items.len(),
                    |i: int|
                        if 0 <= i < items.len() {
                            items[i].canonical()
                        } else {
                            Json::Null
                        },
                ),
            ),
            Json::Number(n) => Json::Number(n.canonical()),
            _ => self,
        }
    }

    /// The tokens of the value's text.
    pub open spec fn tokens(self) -> Seq<Lexeme>
        decreases self, 0nat,
    {
        match self {
            Json::Object(members) => seq![Lexeme::CurlyBracketOpen] + members_tokens(members, 0)
                + seq![Lexeme::CurlyBracketClose],
            Json::Array(items) => seq![Lexeme::SquareBracketOpen] + items_tokens(items, 0)
                + seq![Lexeme::SquareBracketClose],
            Json::String(s) => seq![Lexeme::String(s)],
            Json::Number(n) => seq![Lexeme::Number(n.render())],
            Json::Boolean(b) => if b {
                seq![Lexeme::True]
            } else {
                seq![Lexeme::False]
            },
            Json::Null => seq![Lexeme::Null],
        }
    }
}

/// The tokens of the text of the members from index `from` on.
pub open spec fn members_tokens(members: Seq<(Seq<char>, Json)>, from: nat) -> Seq<Lexeme>
    decreases members, members.len() - from,
{
    if from >= members.len() {
        Seq::empty()
    } else {
        let separator = if from + 1 < members.len() {
            seq![Lexeme::Comma]
        } else {
            Seq::<Lexeme>::empty()
        };
        seq![Lexeme::String(members[from as int].0), Lexeme::Colon]
            + members[from as int].1.tokens() + separator + members_tokens(members, from + 1)
    }
}

/// The tokens of the text of the items from index `from` on.
pub open spec fn items_tokens(items: Seq<Json>, from: nat) -> Seq<Lexeme>
    decreases items, items.len() - from,
{
    if from >= items.len() {
        Seq::empty()
    } else {
        let separator = if from + 1 < items.len() {
            seq![Lexeme::Comma]
        } else {
            Seq::<Lexeme>::empty()
        };
        items[from as int].tokens() + separator + items_tokens(items, from + 1)
    }
}

/// Whether `part` stands in `whole` at index `at`.
pub open spec fn stands_at<A>(whole: Seq<A>, at: int, part: Seq<A>) -> bool {
    &&& 0 <= at
    &&& at + part.len() <= whole.len()
    &&& whole.subrange(at, at + part.len()) == part
}

/// Where two parts stand one behind the other, each stands at its place.
pub proof fn lemma_stands_split<A>(whole: Seq<A>, at: int, first: Seq<A>, second: Seq<A>)
    requires
        stands_at(whole, at, first + second),
    ensures
        stands_at(whole, at, first),
        stands_at(whole, at + first.len(), second),
{
    let both = first + second;
    assert(whole.subrange(at, at + first.len()) =~= both.subrange(0, first.len() as int));
    assert(both.subrange(0, first.len() as int) =~= first);
    assert(whole.subrange(at + first.len(), at + first.len() + second.len()) =~= both.subrange(
        first.len() as int,
        both.len() as int,
    ));
    assert(both.subrange(first.len() as int, both.len() as int) =~= second);
}

/// The element at an index of a part that stands in a whole.
pub proof fn lemma_stands_index<A>(whole: Seq<A>, at: int, part: Seq<A>, k: int)
    requires
        stands_at(whole, at, part),
        0 <= k < part.len(),
    ensures
        whole[at + k] == part[k],
{
    assert(whole.subrange(at, at + part.len())[k] == whole[at + k]);
}

} // verus!

//! The value of a JSON document.

use vstd::prelude::*;
use crate::data_structures::j_number::{Decimal, JNumber};
use crate::data_structures::j_object::{has_key, keys_unique, position, JObject};
use crate::data_structures::j_string::{is_legal_text, JString};
use crate::serializer::{quoted, Serialize};
use crate::text::push_char;

verus! {

/// The mathematical model of a value tree. An object is the sequence of its
/// members, each a key and a value, in the order in which they were
/// inserted.
pub enum Json {
    Object(Seq<(Seq<char>, Json)>),
    Array(Seq<Json>),
    String(Seq<char>),
    Number(Decimal),
    Boolean(bool),
    Null,
}

/// A value can be a string, or a number, or true or false or null, or an
/// object or an array.
#[derive(Debug)]
pub enum JValue {
    Object(JObject),
    Array(Vec<JValue>),
    String(JString),
    Number(JNumber),
    Boolean(bool),
    Null,
}

impl JValue {
    /// The model of the value: see [`Json`].
    pub open spec fn model(&self) -> Json
        decreases self,
    {
        match self {
            JValue::Object(o) => Json::Object(o.members()),
            JValue::Array(a) => Json::Array(
                Seq::new(
                    a@.len(),
                    |i: int|
                        if 0 <= i < a@.len() {
                            a@[i].model()
                        } else {
                            Json::Null
                        },
                ),
            ),
            JValue::String(s) => Json::String(s@),
            JValue::Number(n) => Json::Number(n@),
            JValue::Boolean(b) => Json::Boolean(*b),
            JValue::Null => Json::Null,
        }
    }
}

impl View for JValue {
    type V = Json;

    open spec fn view(&self) -> Json {
        self.model()
    }
}

/// The word that writes the boolean `b`.
pub open spec fn boolean_text(b: bool) -> Seq<char> {
    if b {
        seq!['t', 'r', 'u', 'e']
    } else {
        seq!['f', 'a', 'l', 's', 'e']
    }
}

/// The word that writes the null value.
pub open spec fn null_text() -> Seq<char> {
    seq!['n', 'u', 'l', 'l']
}

impl Json {
    /// The compact JSON text of the value: an object as `{"key":value,...}`,
    /// an array as `[value,...]`, a string escaped between quotation marks, a
    /// number by its parts, and `true`, `false` and `null` as these words.
    pub open spec fn text(self) -> Seq<char>
        decreases self, 0nat,
    {
        match self {
            Json::Object(members) => seq!['{'] + members_text(members, 0) + seq!['}'],
            Json::Array(items) => seq!['['] + items_text(items, 0) + seq![']'],
            Json::String(s) => quoted(s),
            Json::Number(n) => n.render(),
            Json::Boolean(b) => boolean_text(b),
            Json::Null => null_text(),
        }
    }

    /// Whether the value is one that reading a document can give: the keys
    /// of an object are unique, keys and strings hold legal text, and the
    /// parts of a number are well formed.
    pub open spec fn well_formed(self) -> bool
        decreases self,
    {
        match self {
            Json::Object(members) => {
                &&& keys_unique(members)
                &&& forall|i: int|
                    0 <= i < members.len() ==> is_legal_text((#[trigger] members[i]).0)
                        && members[i].1.well_formed()
            },
            Json::Array(items) => forall|i: int|
                0 <= i < items.len() ==> (#[trigger] items[i]).well_formed(),
            Json::String(s) => is_legal_text(s),
            Json::Number(n) => n.well_formed(),
            _ => true,
        }
    }

    /// Whether two values are equal: of one kind and, for an object, with
    /// the same keys and equal values under each key, in whatever order; for
    /// an array, of one length with equal items at each index; for a number,
    /// of the same value, whatever the spelling; and else the same.
    pub open spec fn same(self, other: Json) -> bool
        decreases self,
    {
        match (self, other) {
            (Json::Object(a), Json::Object(b)) => {
                &&& a.len() == b.len()
                &&& forall|i: int|
                    0 <= i < a.len() ==> has_key(b, (#[trigger] a[i]).0) && a[i].1.same(
                        b[position(b, a[i].0)].1,
                    )
            },
            (Json::Array(a), Json::Array(b)) => {
                &&& a.len() == b.len()
                &&& forall|i: int| 0 <= i < a.len() ==> (#[trigger] a[i]).same(b[i])
            },
            (Json::String(s), Json::String(t)) => s == t,
            (Json::Number(n), Json::Number(m)) => n.same_value(m),
            (Json::Boolean(x), Json::Boolean(y)) => x == y,
            (Json::Null, Json::Null) => true,
            _ => false,
        }
    }

    /// How the value is shown for diagnostics, which is no JSON: a string
    /// without quotation marks unless it stands in an array, the members of
    /// an object as `key : value,`, and the items of an array behind a comma
    /// and a space.
    pub open spec fn shown(self) -> Seq<char>
        decreases self, 0nat,
    {
        match self {
            Json::Object(members) => seq!['{'] + members_shown(members, 0) + seq!['}'],
            Json::Array(items) => seq!['['] + items_shown(items, 0) + seq![']'],
            Json::String(s) => s,
            Json::Number(n) => n.render(),
            Json::Boolean(b) => boolean_text(b),
            Json::Null => null_text(),
        }
    }
}

/// The compact JSON text of the members from index `from` on, with a comma
/// between two of them.
pub open spec fn members_text(members: Seq<(Seq<char>, Json)>, from: nat) -> Seq<char>
    decreases members, members.len() - from,
{
    if from >= members.len() {
        Seq::empty()
    } else {
        let separator = if from + 1 < members.len() {
            seq![',']
        } else {
            Seq::<char>::empty()
        };
        quoted(members[from as int].0) + seq![':'] + members[from as int].1.text() + separator
            + members_text(members, from + 1)
    }
}

/// The compact JSON text of the items from index `from` on, with a comma
/// between two of them.
pub open spec fn items_text(items: Seq<Json>, from: nat) -> Seq<char>
    decreases items, items.len() - from,
{
    if from >= items.len() {
        Seq::empty()
    } else {
        let separator = if from + 1 < items.len() {
            seq![',']
        } else {
            Seq::<char>::empty()
        };
        items[from as int].text() + separator + items_text(items, from + 1)
    }
}

/// How the members from index `from` on are shown: each as its key, a colon
/// between spaces, its value and a comma.
pub open spec fn members_shown(members: Seq<(Seq<char>, Json)>, from: nat) -> Seq<char>
    decreases members, members.len() - from,
{
    if from >= members.len() {
        Seq::empty()
    } else {
        members[from as int].0 + seq![' ', ':', ' '] + members[from as int].1.shown() + seq![',']
            + members_shown(members, from + 1)
    }
}

/// How an item of an array is shown: a string between quotation marks, and
/// any other value as it is shown elsewhere.
pub open spec fn item_shown(item: Json) -> Seq<char>
    decreases item, 1nat,
{
    match item {
        Json::String(s) => seq!['"'] + s + seq!['"'],
        _ => item.shown(),
    }
}

/// How the items from index `from` on are shown, with a comma and a space
/// between two of them.
pub open spec fn items_shown(items: Seq<Json>, from: nat) -> Seq<char>
    decreases items, items.len() - from,
{
    if from >= items.len() {
        Seq::empty()
    } else {
        let separator = if from + 1 < items.len() {
            seq![',', ' ']
        } else {
            Seq::<char>::empty()
        };
        item_shown(items[from as int]) + separator + items_shown(items, from + 1)
    }
}

/// The models of the values `a`, in order.
pub open spec fn models(a: Seq<JValue>) -> Seq<Json> {
    Seq::new(a.len(), |i: int| a[i]@)
}

/// Appends the word for `b` to `out`.
fn push_boolean(out: &mut String, b: bool)
    ensures
        final(out)@ == old(out)@ + boolean_text(b),
{
    if b {
        push_char(out, 't');
        push_char(out, 'r');
        push_char(out, 'u');
        push_char(out, 'e');
    } else {
        push_char(out, 'f');
        push_char(out, 'a');
        push_char(out, 'l');
        push_char(out, 's');
        push_char(out, 'e');
    }
    assert(out@ =~= old(out)@ + boolean_text(b));
}

/// Appends the word `null` to `out`.
fn push_null(out: &mut String)
    ensures
        final(out)@ == old(out)@ + null_text(),
{
    push_char(out, 'n');
    push_char(out, 'u');
    push_char(out, 'l');
    push_char(out, 'l');
    assert(out@ =~= old(out)@ + null_text());
}

/// The model of an array is the sequence of the models of its items.
pub proof fn lemma_array_model(a: Vec<JValue>)
    ensures
        JValue::Array(a)@ == Json::Array(models(a@)),
{
    reveal_with_fuel(JValue::model, 2);
    assert(JValue::Array(a)@->Array_0 =~= models(a@));
}

impl JValue {
    /// Appends the compact JSON text of the value to `out`.
    pub fn write_text(&self, out: &mut String)
        ensures
            final(out)@ == old(out)@ + self@.text(),
        decreases self,
    {
        match self {
            JValue::Object(o) => {
                o.write_text(out);
            },
            JValue::Array(a) => {
                proof {
                    lemma_array_model(*a);
                }
                write_items(a, true, out);
            },
            JValue::String(s) => {
                let t = s.serialize();
                out.append(t.as_str());
            },
            JValue::Number(n) => {
                let t = n.serialize();
                out.append(t.as_str());
            },
            JValue::Boolean(b) => {
                push_boolean(out, *b);
            },
            JValue::Null => {
                push_null(out);
            },
        }
    }

    /// Appends to `out` how the value is shown for diagnostics.
    pub fn write_shown(&self, out: &mut String)
        ensures
            final(out)@ == old(out)@ + self@.shown(),
        decreases self,
    {
        match self {
            JValue::Object(o) => {
                o.write_shown(out);
            },
            JValue::Array(a) => {
                proof {
                    lemma_array_model(*a);
                }
                write_items(a, false, out);
            },
            JValue::String(s) => {
                out.append(s.as_str());
            },
            JValue::Number(n) => {
                let t = n.to_string();
                out.append(t.as_str());
            },
            JValue::Boolean(b) => {
                push_boolean(out, *b);
            },
            JValue::Null => {
                push_null(out);
            },
        }
    }

    /// A copy of the value.
    pub fn copy(&self) -> (r: JValue)
        ensures
            r@ == self@,
        decreases self,
    {
        match self {
            JValue::Object(o) => JValue::Object(o.copy()),
            JValue::Array(a) => {
                let items = copy_items(a);
                proof {
                    lemma_array_model(*a);
                    lemma_array_model(items);
                }
                JValue::Array(items)
            },
            JValue::String(s) => JValue::String(s.clone()),
            JValue::Number(n) => JValue::Number(n.clone()),
            JValue::Boolean(b) => JValue::Boolean(*b),
            JValue::Null => JValue::Null,
        }
    }

    /// Whether the two values are equal: see [`Json::same`].
    pub fn same_as(&self, other: &JValue) -> (r: bool)
        ensures
            r == self@.same(other@),
        decreases self,
    {
        match (self, other) {
            (JValue::Object(a), JValue::Object(b)) => a.same_as(b),
            (JValue::Array(a), JValue::Array(b)) => {
                proof {
                    lemma_array_model(*a);
                    lemma_array_model(*b);
                }
                same_items(a, b)
            },
            (JValue::String(s), JValue::String(t)) => *s == *t,
            (JValue::Number(n), JValue::Number(m)) => n.same_value(m),
            (JValue::Boolean(x), JValue::Boolean(y)) => *x == *y,
            (JValue::Null, JValue::Null) => true,
            _ => false,
        }
    }

    /// How the value is shown for diagnostics: see [`Json::shown`].
    pub fn to_string(&self) -> (r: String)
        ensures
            r@ == self@.shown(),
    {
        let mut r = String::new();
        self.write_shown(&mut r);
        assert(r@ =~= self@.shown());
        r
    }
}

/// A copy of the values `a`.
pub fn copy_items(a: &Vec<JValue>) -> (r: Vec<JValue>)
    ensures
        models(r@) == models(a@),
    decreases a,
{
    let mut r: Vec<JValue> = Vec::new();
    let mut i: usize = 0;
    while i < a.len()
        invariant
            i <= a.len(),
            r@.len() == i,
            forall|k: int| 0 <= k < i ==> (#[trigger] r@[k])@ == a@[k]@,
        decreases a.len() - i,
    {
        r.push(a[i].copy());
        i += 1;
    }
    assert(models(r@) =~= models(a@));
    r
}

impl Clone for JValue {
    fn clone(&self) -> (r: Self)
        ensures
            r@ == self@,
    {
        self.copy()
    }
}

impl PartialEq for JValue {
    fn eq(&self, other: &Self) -> (r: bool) {
        self.same_as(other)
    }
}

impl vstd::std_specs::cmp::PartialEqSpecImpl for JValue {
    open spec fn obeys_eq_spec() -> bool {
        true
    }

    /// Two values are equal as [`Json::same`] says.
    open spec fn eq_spec(&self, other: &JValue) -> bool {
        self@.same(other@)
    }
}

impl Serialize for JValue {
    open spec fn serialization(&self) -> Seq<char> {
        self@.text()
    }

    /// Creates the compact JSON text of the value: see [`Json::text`].
    fn serialize(&self) -> (r: String) {
        let mut r = String::new();
        self.write_text(&mut r);
        assert(r@ =~= self@.text());
        r
    }
}

/// Whether the two arrays are equal: of one length, with equal items at each
/// index.
pub fn same_items(a: &Vec<JValue>, b: &Vec<JValue>) -> (r: bool)
    ensures
        r == Json::Array(models(a@)).same(Json::Array(models(b@))),
    decreases a,
{
    if a.len() != b.len() {
        return false;
    }
    let mut i: usize = 0;
    while i < a.len()
        invariant
            i <= a.len(),
            a.len() == b.len(),
            forall|k: int| 0 <= k < i ==> (#[trigger] models(a@)[k]).same(models(b@)[k]),
        decreases a.len() - i,
    {
        if !a[i].same_as(&b[i]) {
            assert(!models(a@)[i as int].same(models(b@)[i as int]));
            return false;
        }
        i += 1;
    }
    true
}

/// The text of the array `array` between square brackets, as JSON if
/// `serialize` holds and as it is shown for diagnostics otherwise.
pub open spec fn array_text(items: Seq<Json>, serialize: bool) -> Seq<char> {
    if serialize {
        Json::Array(items).text()
    } else {
        Json::Array(items).shown()
    }
}

/// Appends the text of the array `array` to `out`, as JSON if `serialize`
/// holds and as it is shown for diagnostics otherwise.
pub fn write_items(array: &Vec<JValue>, serialize: bool, out: &mut String)
    ensures
        final(out)@ == old(out)@ + array_text(models(array@), serialize),
    decreases array,
{
    let ghost items = models(array@);
    push_char(out, '[');
    let mut i: usize = 0;
    while i < array.len()
        invariant
            i <= array.len(),
            items == models(array@),
            serialize ==> out@ + items_text(items, i as nat) == old(out)@ + seq!['['] + items_text(
                items,
                0,
            ),
            !serialize ==> out@ + items_shown(items, i as nat) == old(out)@ + seq!['[']
                + items_shown(items, 0),
        decreases array.len() - i,
    {
        let ghost before = out@;
        let v = &array[i];
        assert(items[i as int] == v@);
        if serialize {
            v.write_text(out);
            if i < array.len() - 1 {
                push_char(out, ',');
            }
            assert(out@ + items_text(items, (i + 1) as nat) =~= before + items_text(
                items,
                i as nat,
            ));
        } else {
            match v {
                JValue::String(s) => {
                    push_char(out, '"');
                    out.append(s.as_str());
                    push_char(out, '"');
                },
                _ => {
                    v.write_shown(out);
                },
            }
            assert(out@ =~= before + item_shown(v@));
            if i < array.len() - 1 {
                push_char(out, ',');
                push_char(out, ' ');
            }
            assert(out@ + items_shown(items, (i + 1) as nat) =~= before + items_shown(
                items,
                i as nat,
            ));
        }
        i += 1;
    }
    push_char(out, ']');
    assert(out@ =~= old(out)@ + array_text(items, serialize));
}

/// The text of the array `array`, as JSON if `serialize` holds and as it is
/// shown for diagnostics otherwise.
pub fn array_to_string(array: &Vec<JValue>, serialize: bool) -> (r: String)
    ensures
        r@ == array_text(models(array@), serialize),
{
    let mut r = String::new();
    write_items(array, serialize, &mut r);
    assert(r@ =~= array_text(models(array@), serialize));
    r
}

} // verus!

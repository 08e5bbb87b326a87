//! The object of a JSON document.

use vstd::prelude::*;
use crate::data_structures::j_value::{members_shown, members_text, JValue, Json};
use crate::serializer::{serialize_string, Serialize};
use crate::text::push_char;

verus! {

/// An object is a set of name/value pairs, kept in the order in which the
/// names were inserted. No name occurs twice.
#[derive(Debug)]
pub struct JObject {
    names: Vec<String>,
    values: Vec<JValue>,
}

impl JObject {
    /// The members of the object, each a key and the model of a value, in
    /// the order in which they were inserted.
    pub closed spec fn members(&self) -> Seq<(Seq<char>, Json)>
        decreases self,
    {
        Seq::new(
            self.names@.len(),
            |i: int|
                if 0 <= i < self.values@.len() {
                    (self.names@[i]@, self.values@[i].model())
                } else {
                    (self.names@[i]@, Json::Null)
                },
        )
    }
}

impl View for JObject {
    type V = Seq<(Seq<char>, Json)>;

    open spec fn view(&self) -> Seq<(Seq<char>, Json)> {
        self.members()
    }
}

/// The index of the first member of `members` with the key `key`; the number
/// of members if none has it.
pub open spec fn position(members: Seq<(Seq<char>, Json)>, key: Seq<char>) -> int
    decreases members.len(),
{
    if members.len() == 0 {
        0
    } else if members[0].0 == key {
        0
    } else {
        1 + position(members.drop_first(), key)
    }
}

/// Whether a member of `members` has the key `key`.
pub open spec fn has_key(members: Seq<(Seq<char>, Json)>, key: Seq<char>) -> bool {
    position(members, key) < members.len()
}

/// Whether no two members of `members` have the same key.
pub open spec fn keys_unique(members: Seq<(Seq<char>, Json)>) -> bool {
    forall|i: int, j: int|
        0 <= i < j < members.len() ==> (#[trigger] members[i]).0 != (#[trigger] members[j]).0
}

/// `position` is the index `p` if no member before `p` has the key and the
/// member at `p` has it, or `p` is the number of members.
pub proof fn lemma_position(members: Seq<(Seq<char>, Json)>, key: Seq<char>, p: int)
    requires
        0 <= p <= members.len(),
        forall|j: int| 0 <= j < p ==> (#[trigger] members[j]).0 != key,
        p < members.len() ==> members[p].0 == key,
    ensures
        position(members, key) == p,
    decreases members.len(),
{
    if members.len() > 0 && p > 0 {
        let rest = members.drop_first();
        assert(members[0].0 != key);
        assert forall|j: int| 0 <= j < p - 1 implies (#[trigger] rest[j]).0 != key by {
            assert(rest[j] == members[j + 1]);
        }
        lemma_position(rest, key, p - 1);
    }
}

/// No member before `position` has the key, and the member there has it.
pub proof fn lemma_position_found(members: Seq<(Seq<char>, Json)>, key: Seq<char>)
    ensures
        0 <= position(members, key) <= members.len(),
        forall|j: int| 0 <= j < position(members, key) ==> (#[trigger] members[j]).0 != key,
        position(members, key) < members.len() ==> members[position(members, key)].0 == key,
    decreases members.len(),
{
    if members.len() > 0 && members[0].0 != key {
        let rest = members.drop_first();
        lemma_position_found(rest, key);
        assert forall|j: int| 0 <= j < position(members, key) implies (#[trigger] members[j]).0
            != key by {
            if j > 0 {
                assert(rest[j - 1] == members[j]);
            }
        }
    }
}

impl JObject {
    #[verifier::type_invariant]
    spec fn names_unique(&self) -> bool {
        &&& self.names@.len() == self.values@.len()
        &&& forall|i: int, j: int|
            0 <= i < j < self.names@.len() ==> (#[trigger] self.names@[i])@ != (
            #[trigger] self.names@[j])@
    }

    /// Creates a new object without members.
    pub fn new() -> (r: JObject)
        ensures
            r@ == Seq::<(Seq<char>, Json)>::empty(),
    {
        let r = JObject { names: Vec::new(), values: Vec::new() };
        assert(r@ =~= Seq::<(Seq<char>, Json)>::empty());
        r
    }

    /// Returns the number of members of the object.
    pub fn len(&self) -> (n: usize)
        ensures
            n == self@.len(),
    {
        self.names.len()
    }

    /// The index of the member with the key `k`; the number of members if
    /// there is none.
    fn find(&self, k: &String) -> (p: usize)
        ensures
            p == position(self@, k@),
            p <= self@.len(),
    {
        let mut i: usize = 0;
        while i < self.names.len()
            invariant
                i <= self.names.len(),
                forall|j: int| 0 <= j < i ==> (#[trigger] self@[j]).0 != k@,
            decreases self.names.len() - i,
        {
            if self.names[i] == *k {
                proof {
                    lemma_position(self@, k@, i as int);
                }
                return i;
            }
            i += 1;
        }
        proof {
            lemma_position(self@, k@, i as int);
        }
        i
    }

    /// Whether the object has a member with the key `k`.
    pub fn contains_key(&self, k: &String) -> (b: bool)
        ensures
            b == has_key(self@, k@),
    {
        self.find(k) < self.names.len()
    }

    /// The keys of the members, in order. No two of them are equal.
    pub fn keys(&self) -> (r: &Vec<String>)
        ensures
            keys_unique(self@),
            r@.len() == self@.len(),
            forall|i: int| 0 <= i < r@.len() ==> (#[trigger] r@[i])@ == self@[i].0,
    {
        proof {
            use_type_invariant(self);
        }
        &self.names
    }

    /// The values of the members, in order.
    pub fn values(&self) -> (r: &Vec<JValue>)
        ensures
            r@.len() == self@.len(),
            forall|i: int| 0 <= i < r@.len() ==> (#[trigger] r@[i])@ == self@[i].1,
    {
        proof {
            use_type_invariant(self);
        }
        &self.values
    }

    /// Inserts a key-value pair into the object.
    ///
    /// If the object did not have this key present, the pair becomes its last
    /// member and `None` is returned. If it did, the value is replaced where
    /// it stands, and the old value is returned.
    pub fn insert(&mut self, k: String, v: JValue) -> (r: Option<JValue>)
        ensures
            keys_unique(final(self)@),
            match r {
                Some(previous) => {
                    let p = position(old(self)@, k@);
                    &&& has_key(old(self)@, k@)
                    &&& previous@ == old(self)@[p].1
                    &&& final(self)@ == old(self)@.update(p, (k@, v@))
                },
                None => !has_key(old(self)@, k@) && final(self)@ == old(self)@.push((k@, v@)),
            },
    {
        proof {
            use_type_invariant(&*self);
            lemma_position_found(self@, k@);
        }
        let p = self.find(&k);
        let mut taken = JObject::new();
        std::mem::swap(self, &mut taken);
        let JObject { mut names, mut values } = taken;
        values.push(v);
        if p < values.len() - 1 {
            let previous = values.swap_remove(p);
            *self = JObject { names, values };
            assert(self@ =~= old(self)@.update(p as int, (k@, v@)));
            proof {
                self.lemma_keys_unique();
            }
            Some(previous)
        } else {
            names.push(k);
            assert forall|i: int, j: int| 0 <= i < j < names@.len() implies (
            #[trigger] names@[i])@ != (#[trigger] names@[j])@ by {
                if j == names@.len() - 1 {
                    assert(old(self)@[i].0 != k@);
                }
            }
            *self = JObject { names, values };
            assert(self@ =~= old(self)@.push((k@, v@)));
            proof {
                self.lemma_keys_unique();
            }
            None
        }
    }

    /// The keys of the model are unique where the names are.
    proof fn lemma_keys_unique(&self)
        requires
            self.names_unique(),
        ensures
            keys_unique(self@),
    {
        assert forall|i: int, j: int| 0 <= i < j < self@.len() implies (#[trigger] self@[i]).0 != (
        #[trigger] self@[j]).0 by {
            assert(self.names@[i]@ != self.names@[j]@);
        }
    }

    /// Removes a key from the object, returning the value at the key if the
    /// key was in the object, and `None` otherwise. The other members keep
    /// their order.
    pub fn remove(&mut self, k: &String) -> (r: Option<JValue>)
        ensures
            keys_unique(final(self)@),
            match r {
                Some(previous) => {
                    let p = position(old(self)@, k@);
                    &&& has_key(old(self)@, k@)
                    &&& previous@ == old(self)@[p].1
                    &&& final(self)@ == old(self)@.remove(p)
                },
                None => !has_key(old(self)@, k@) && final(self)@ == old(self)@,
            },
    {
        proof {
            use_type_invariant(&*self);
            self.lemma_keys_unique();
        }
        let p = self.find(k);
        if p < self.names.len() {
            let mut taken = JObject::new();
            std::mem::swap(self, &mut taken);
            let JObject { mut names, mut values } = taken;
            let _ = names.remove(p);
            let previous = values.remove(p);
            assert forall|i: int, j: int| 0 <= i < j < names@.len() implies (
            #[trigger] names@[i])@ != (#[trigger] names@[j])@ by {
                let i0 = if i < p { i } else { i + 1 };
                let j0 = if j < p { j } else { j + 1 };
                assert(old(self).names@[i0]@ != old(self).names@[j0]@);
            }
            *self = JObject { names, values };
            assert(self@ =~= old(self)@.remove(p as int));
            proof {
                self.lemma_keys_unique();
            }
            Some(previous)
        } else {
            None
        }
    }

    /// Gets a reference to the value if the key exists in the object, and
    /// `None` otherwise.
    pub fn get(&self, k: &String) -> (r: Option<&JValue>)
        ensures
            match r {
                Some(v) => has_key(self@, k@) && v@ == self@[position(self@, k@)].1,
                None => !has_key(self@, k@),
            },
    {
        proof {
            use_type_invariant(self);
        }
        let p = self.find(k);
        if p < self.names.len() {
            Some(&self.values[p])
        } else {
            None
        }
    }

    /// Gets a mutable reference to the value if the key exists in the object,
    /// and `None` otherwise. What is written through the reference becomes
    /// the value of that member, and nothing else changes.
    pub fn get_mut(&mut self, k: &String) -> (r: Option<&mut JValue>)
        ensures
            match r {
                Some(v) => {
                    let p = position(old(self)@, k@);
                    &&& has_key(old(self)@, k@)
                    &&& (*v)@ == old(self)@[p].1
                    &&& final(self)@ == old(self)@.update(p, (k@, (*final(v))@))
                },
                None => !has_key(old(self)@, k@) && final(self)@ == old(self)@,
            },
    {
        proof {
            use_type_invariant(&*self);
            lemma_position_found(self@, k@);
        }
        let p = self.find(k);
        if p < self.names.len() {
            Some(&mut self.values[p])
        } else {
            None
        }
    }

    /// A copy of the object.
    pub fn copy(&self) -> (r: JObject)
        ensures
            r@ == self@,
        decreases self,
    {
        proof {
            use_type_invariant(self);
        }
        let mut names: Vec<String> = Vec::new();
        let mut values: Vec<JValue> = Vec::new();
        let mut i: usize = 0;
        while i < self.names.len()
            invariant
                i <= self.names.len(),
                self.names.len() == self.values.len(),
                names@.len() == i,
                values@.len() == i,
                forall|k: int| 0 <= k < i ==> (#[trigger] names@[k])@ == self.names@[k]@,
                forall|k: int| 0 <= k < i ==> (#[trigger] values@[k])@ == self.values@[k]@,
            decreases self.names.len() - i,
        {
            names.push(self.names[i].clone());
            values.push(self.values[i].copy());
            i += 1;
        }
        let r = JObject { names, values };
        assert(r@ =~= self@);
        r
    }

    /// Whether the two objects are equal: with the same keys and equal
    /// values under each key, in whatever order.
    pub fn same_as(&self, other: &JObject) -> (r: bool)
        ensures
            r == Json::Object(self@).same(Json::Object(other@)),
        decreases self,
    {
        proof {
            use_type_invariant(self);
        }
        if self.names.len() != other.len() {
            return false;
        }
        let mut i: usize = 0;
        while i < self.names.len()
            invariant
                i <= self.names.len(),
                self.names.len() == self.values.len(),
                self@.len() == other@.len(),
                forall|k: int|
                    0 <= k < i ==> has_key(other@, (#[trigger] self@[k]).0) && self@[k].1.same(
                        other@[position(other@, self@[k].0)].1,
                    ),
            decreases self.names.len() - i,
        {
            match other.get(&self.names[i]) {
                Some(v) => {
                    if !self.values[i].same_as(v) {
                        assert(!self@[i as int].1.same(
                            other@[position(other@, self@[i as int].0)].1,
                        ));
                        return false;
                    }
                },
                None => {
                    assert(!has_key(other@, self@[i as int].0));
                    return false;
                },
            }
            i += 1;
        }
        true
    }

    /// Appends the compact JSON text of the object to `out`.
    pub fn write_text(&self, out: &mut String)
        ensures
            final(out)@ == old(out)@ + Json::Object(self@).text(),
        decreases self,
    {
        proof {
            use_type_invariant(self);
        }
        push_char(out, '{');
        let mut i: usize = 0;
        while i < self.names.len()
            invariant
                i <= self.names.len(),
                self.names.len() == self.values.len(),
                out@ + members_text(self@, i as nat) == old(out)@ + seq!['{'] + members_text(
                    self@,
                    0,
                ),
            decreases self.names.len() - i,
        {
            let ghost before = out@;
            let key = serialize_string(&self.names[i]);
            out.append(key.as_str());
            push_char(out, ':');
            self.values[i].write_text(out);
            if i < self.names.len() - 1 {
                push_char(out, ',');
            }
            assert(out@ + members_text(self@, (i + 1) as nat) =~= before + members_text(
                self@,
                i as nat,
            ));
            i += 1;
        }
        push_char(out, '}');
        assert(out@ =~= old(out)@ + Json::Object(self@).text());
    }

    /// Appends to `out` how the object is shown for diagnostics.
    pub fn write_shown(&self, out: &mut String)
        ensures
            final(out)@ == old(out)@ + Json::Object(self@).shown(),
        decreases self,
    {
        proof {
            use_type_invariant(self);
        }
        push_char(out, '{');
        let mut i: usize = 0;
        while i < self.names.len()
            invariant
                i <= self.names.len(),
                self.names.len() == self.values.len(),
                out@ + members_shown(self@, i as nat) == old(out)@ + seq!['{'] + members_shown(
                    self@,
                    0,
                ),
            decreases self.names.len() - i,
        {
            let ghost before = out@;
            out.append(self.names[i].as_str());
            push_char(out, ' ');
            push_char(out, ':');
            push_char(out, ' ');
            self.values[i].write_shown(out);
            push_char(out, ',');
            assert(out@ + members_shown(self@, (i + 1) as nat) =~= before + members_shown(
                self@,
                i as nat,
            ));
            i += 1;
        }
        push_char(out, '}');
        assert(out@ =~= old(out)@ + Json::Object(self@).shown());
    }

    /// How the object is shown for diagnostics: see [`Json::shown`].
    pub fn to_string(&self) -> (r: String)
        ensures
            r@ == Json::Object(self@).shown(),
    {
        let mut r = String::new();
        self.write_shown(&mut r);
        assert(r@ =~= Json::Object(self@).shown());
        r
    }
}

impl Clone for JObject {
    fn clone(&self) -> (r: Self)
        ensures
            r@ == self@,
    {
        self.copy()
    }
}

impl PartialEq for JObject {
    fn eq(&self, other: &Self) -> (r: bool) {
        self.same_as(other)
    }
}

impl vstd::std_specs::cmp::PartialEqSpecImpl for JObject {
    open spec fn obeys_eq_spec() -> bool {
        true
    }

    /// Two objects are equal if they have the same keys and equal values
    /// under each key, in whatever order.
    open spec fn eq_spec(&self, other: &JObject) -> bool {
        Json::Object(self@).same(Json::Object(other@))
    }
}

impl Serialize for JObject {
    open spec fn serialization(&self) -> Seq<char> {
        Json::Object(self@).text()
    }

    /// Creates the compact JSON text of the object: its members in the order
    /// in which they were inserted, as `"key":value`, between braces.
    fn serialize(&self) -> (r: String) {
        let mut r = String::new();
        self.write_text(&mut r);
        assert(r@ =~= Json::Object(self@).text());
        r
    }
}

} // verus!

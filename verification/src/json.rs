//! JSON values, and objects whose members are kept in key order.

use vstd::prelude::*;
use vstd::string::*;

use crate::text::{lemma_precedes_irreflexive, lemma_precedes_transitive, place, precedes, Placement};

verus! {

/// A JSON number, as the `serde_json` crate holds it. The library carries numbers
/// from place to place and never looks inside one.
#[verifier::external_type_specification]
#[verifier::external_body]
pub struct ExNumber(serde_json::Number);

/// `serde_json::Number`'s `clone`: the copy is the same number.
pub assume_specification[ <serde_json::Number as Clone>::clone ](n: &serde_json::Number) -> (copy:
    serde_json::Number)
    ensures
        copy == *n,
;

/// A JSON value.
#[derive(Debug, PartialEq)]
pub enum Json {
    Null,
    Bool(bool),
    Number(serde_json::Number),
    String(String),
    Array(Vec<Json>),
    Object(JsonObject),
}

/// A JSON object: its members in strictly ascending key order, so that no key
/// occurs twice.
#[derive(Debug, PartialEq)]
pub struct JsonObject {
    members: Vec<(String, Json)>,
}

/// What a JSON value stands for. The members of an object are listed in the order
/// in which they are visited.
pub enum JsonView {
    Null,
    Bool(bool),
    Number(serde_json::Number),
    String(Seq<char>),
    Array(Seq<JsonView>),
    Object(Seq<(Seq<char>, JsonView)>),
}

impl Json {
    pub open spec fn view(&self) -> JsonView
        decreases self,
    {
        match self {
            Json::Null => JsonView::Null,
            Json::Bool(b) => JsonView::Bool(*b),
            Json::Number(n) => JsonView::Number(*n),
            Json::String(s) => JsonView::String(s@),
            Json::Array(items) => JsonView::Array(
                Seq::new(
                    items@.len(),
                    |i: int|
                        if 0 <= i < items@.len() {
                            items@[i].view()
                        } else {
                            JsonView::Null
                        },
                ),
            ),
            Json::Object(object) => JsonView::Object(object.entries()),
        }
    }
}

/// Whether the keys of `entries` are in strictly ascending order.
pub open spec fn ascending(entries: Seq<(Seq<char>, JsonView)>) -> bool {
    forall|i: int, j: int|
        0 <= i < j < entries.len() ==> precedes(#[trigger] entries[i].0, #[trigger] entries[j].0)
}

/// Whether some entry has the key `key`.
pub open spec fn has_key(entries: Seq<(Seq<char>, JsonView)>, key: Seq<char>) -> bool {
    exists|i: int| 0 <= i < entries.len() && #[trigger] entries[i].0 == key
}

/// The map that `entries` list; a later entry replaces an earlier one of the same key.
pub open spec fn as_map(entries: Seq<(Seq<char>, JsonView)>) -> Map<Seq<char>, JsonView>
    decreases entries.len(),
{
    if entries.len() == 0 {
        Map::empty()
    } else {
        as_map(entries.drop_last()).insert(entries.last().0, entries.last().1)
    }
}

/// In an ascending list every entry is in the map, and nothing else is.
pub proof fn lemma_as_map(entries: Seq<(Seq<char>, JsonView)>)
    requires
        ascending(entries),
    ensures
        forall|key: Seq<char>| #[trigger]
            as_map(entries).contains_key(key) <==> has_key(entries, key),
        forall|i: int|
            0 <= i < entries.len() ==> as_map(entries)[(#[trigger] entries[i]).0] == entries[i].1,
    decreases entries.len(),
{
    if entries.len() > 0 {
        let front = entries.drop_last();
        let last = entries.last();
        assert(forall|i: int| 0 <= i < front.len() ==> front[i] == entries[i]);
        lemma_as_map(front);
        assert forall|key: Seq<char>| #[trigger]
            as_map(entries).contains_key(key) <==> has_key(entries, key) by {
            if has_key(front, key) {
                let i = choose|i: int| 0 <= i < front.len() && #[trigger] front[i].0 == key;
                assert(entries[i].0 == key);
            }
            if last.0 == key {
                assert(entries[entries.len() - 1].0 == key);
            }
            if has_key(entries, key) && last.0 != key {
                let i = choose|i: int| 0 <= i < entries.len() && #[trigger] entries[i].0 == key;
                assert(front[i].0 == key);
            }
            assert(as_map(front).contains_key(key) <==> has_key(front, key));
        }
        assert forall|i: int| 0 <= i < entries.len() implies as_map(entries)[(
        #[trigger] entries[i]).0] == entries[i].1 by {
            if i < front.len() {
                lemma_precedes_irreflexive(last.0);
                assert(precedes(entries[i].0, entries[entries.len() - 1].0));
                assert(front[i] == entries[i]);
            }
        }
    }
}

/// A map has only one listing in ascending key order.
pub proof fn lemma_listing_unique(
    a: Seq<(Seq<char>, JsonView)>,
    b: Seq<(Seq<char>, JsonView)>,
)
    requires
        ascending(a),
        ascending(b),
        as_map(a) == as_map(b),
    ensures
        a == b,
    decreases a.len(),
{
    lemma_as_map(a);
    lemma_as_map(b);
    if a.len() == 0 {
        if b.len() > 0 {
            assert(has_key(b, b[0].0));
            assert(as_map(a).contains_key(b[0].0));
        }
    } else {
        let i = a.len() - 1;
        assert(a[i].0 == a[i].0);
        assert(has_key(a, a[i].0));
        assert(as_map(b).contains_key(a[i].0));
        let j = choose|j: int| 0 <= j < b.len() && #[trigger] b[j].0 == a[i].0;
        let n = b.len() - 1;
        assert(b[n].0 == b[n].0);
        assert(has_key(b, b[n].0));
        assert(as_map(a).contains_key(b[n].0));
        let m = choose|m: int| 0 <= m < a.len() && #[trigger] a[m].0 == b[n].0;
        if j < n {
            assert(precedes(b[j].0, b[n].0));
            if m < i {
                assert(precedes(a[m].0, a[i].0));
                lemma_precedes_transitive(a[i].0, b[n].0, a[i].0);
            }
            lemma_precedes_irreflexive(a[i].0);
        }
        assert(j == n);
        assert(a[i] == b[n]);
        let front_a = a.drop_last();
        let front_b = b.drop_last();
        assert(ascending(front_a)) by {
            assert(forall|k: int| 0 <= k < front_a.len() ==> front_a[k] == a[k]);
        }
        assert(ascending(front_b)) by {
            assert(forall|k: int| 0 <= k < front_b.len() ==> front_b[k] == b[k]);
        }
        lemma_front_lacks_last(a);
        lemma_front_lacks_last(b);
        assert(as_map(front_a) =~= as_map(a).remove(a[i].0));
        assert(as_map(front_b) =~= as_map(b).remove(b[n].0));
        lemma_listing_unique(front_a, front_b);
        assert(a =~= front_a.push(a[i]));
        assert(b =~= front_b.push(b[n]));
    }
}

proof fn lemma_front_lacks_last(entries: Seq<(Seq<char>, JsonView)>)
    requires
        ascending(entries),
        entries.len() > 0,
    ensures
        !as_map(entries.drop_last()).contains_key(entries.last().0),
{
    let front = entries.drop_last();
    assert(forall|k: int| 0 <= k < front.len() ==> front[k] == entries[k]);
    lemma_as_map(front);
    if has_key(front, entries.last().0) {
        let k = choose|k: int|
            0 <= k < front.len() && #[trigger] front[k].0 == entries.last().0;
        assert(precedes(entries[k].0, entries[entries.len() - 1].0));
        lemma_precedes_irreflexive(entries.last().0);
    }
}

/// Where a key is, or where it belongs.
enum Slot {
    Taken(usize),
    Free(usize),
}

impl JsonObject {
    /// The members, in key order.
    pub closed spec fn entries(&self) -> Seq<(Seq<char>, JsonView)>
        decreases self,
    {
        Seq::new(
            self.members@.len(),
            |i: int|
                if 0 <= i < self.members@.len() {
                    (self.members@[i].0@, self.members@[i].1.view())
                } else {
                    (Seq::empty(), JsonView::Null)
                },
        )
    }

    /// The members as a map.
    pub open spec fn view(&self) -> Map<Seq<char>, JsonView> {
        as_map(self.entries())
    }

    #[verifier::type_invariant]
    closed spec fn in_key_order(self) -> bool {
        ascending(self.entries())
    }

    /// An object with no members.
    pub fn new() -> (object: Self)
        ensures
            object.entries() == Seq::<(Seq<char>, JsonView)>::empty(),
            object@ == Map::<Seq<char>, JsonView>::empty(),
    {
        let members: Vec<(String, Json)> = Vec::new();
        let object = JsonObject { members };
        assert(object.entries() =~= Seq::<(Seq<char>, JsonView)>::empty());
        object
    }

    /// How many members there are. They stand in strictly ascending key order.
    pub fn len(&self) -> (n: usize)
        ensures
            n == self.entries().len(),
            ascending(self.entries()),
    {
        proof {
            use_type_invariant(self);
        }
        self.members.len()
    }

    /// The key of the member at position `i`.
    pub fn key_at(&self, i: usize) -> (key: &String)
        requires
            i < self.entries().len(),
        ensures
            key@ == self.entries()[i as int].0,
    {
        &self.members[i].0
    }

    /// The value of the member at position `i`.
    pub fn value_at(&self, i: usize) -> (value: &Json)
        requires
            i < self.entries().len(),
        ensures
            value@ == self.entries()[i as int].1,
    {
        &self.members[i].1
    }

    /// Finds `key` by halving the range it can be in.
    fn slot(&self, key: &str) -> (slot: Slot)
        ensures
            match slot {
                Slot::Taken(i) => i < self.entries().len() && self.entries()[i as int].0 == key@,
                Slot::Free(i) => {
                    &&& i <= self.entries().len()
                    &&& forall|j: int|
                        0 <= j < i ==> precedes(#[trigger] self.entries()[j].0, key@)
                    &&& forall|j: int|
                        i <= j < self.entries().len() ==> precedes(
                            key@,
                            #[trigger] self.entries()[j].0,
                        )
                },
            },
    {
        proof {
            use_type_invariant(self);
        }
        let mut low: usize = 0;
        let mut high: usize = self.members.len();
        while low < high
            invariant
                low <= high <= self.entries().len(),
                self.entries().len() == self.members@.len(),
                ascending(self.entries()),
                forall|j: int| 0 <= j < low ==> precedes(#[trigger] self.entries()[j].0, key@),
                forall|j: int|
                    high <= j < self.entries().len() ==> precedes(
                        key@,
                        #[trigger] self.entries()[j].0,
                    ),
            decreases high - low,
        {
            let mid: usize = low + (high - low) / 2;
            let placement = place(self.members[mid].0.as_str(), key);
            assert(self.entries()[mid as int].0 == self.members@[mid as int].0@);
            match placement {
                Placement::Same => {
                    return Slot::Taken(mid);
                },
                Placement::Before => {
                    assert forall|j: int| 0 <= j < mid + 1 implies precedes(
                        #[trigger] self.entries()[j].0,
                        key@,
                    ) by {
                        if j < mid {
                            lemma_precedes_transitive(
                                self.entries()[j].0,
                                self.entries()[mid as int].0,
                                key@,
                            );
                        }
                    }
                    low = mid + 1;
                },
                Placement::After => {
                    assert forall|j: int| mid <= j < self.entries().len() implies precedes(
                        key@,
                        #[trigger] self.entries()[j].0,
                    ) by {
                        if mid < j {
                            lemma_precedes_transitive(
                                key@,
                                self.entries()[mid as int].0,
                                self.entries()[j].0,
                            );
                        }
                    }
                    high = mid;
                },
            }
        }
        Slot::Free(low)
    }

    /// The value under `key`, if there is one.
    pub fn get(&self, key: &str) -> (value: Option<&Json>)
        ensures
            match value {
                Some(v) => self@.contains_key(key@) && v@ == self@[key@],
                None => !self@.contains_key(key@),
            },
    {
        proof {
            use_type_invariant(self);
            lemma_as_map(self.entries());
        }
        match self.slot(key) {
            Slot::Taken(i) => {
                assert(has_key(self.entries(), key@)) by {
                    assert(self.entries()[i as int].0 == key@);
                }
                Some(&self.members[i].1)
            },
            Slot::Free(i) => {
                proof {
                    if has_key(self.entries(), key@) {
                        let j = choose|j: int|
                            0 <= j < self.entries().len() && #[trigger] self.entries()[j].0 == key@;
                        lemma_precedes_irreflexive(key@);
                        assert(false);
                    }
                }
                None
            },
        }
    }

    /// Puts `value` under `key`, in place of what was there.
    pub fn insert(&mut self, key: String, value: Json)
        ensures
            final(self)@ == old(self)@.insert(key@, value@),
    {
        let ghost before = self.entries();
        proof {
            use_type_invariant(&*self);
        }
        let slot = self.slot(key.as_str());
        let mut members: Vec<(String, Json)> = Vec::new();
        core::mem::swap(&mut members, &mut self.members);
        match slot {
            Slot::Taken(i) => {
                members[i] = (key, value);
                assert((JsonObject { members }).entries() =~= before.update(
                    i as int,
                    (key@, value@),
                ));
                proof {
                    lemma_replaced(before, i as int, value@);
                }
            },
            Slot::Free(i) => {
                members.insert(i, (key, value));
                assert((JsonObject { members }).entries() =~= before.insert(
                    i as int,
                    (key@, value@),
                ));
                proof {
                    lemma_inserted(before, i as int, key@, value@);
                }
            },
        }
        self.members = members;
    }

    /// Adds a member behind all others.
    pub(crate) fn push_last(&mut self, key: String, value: Json)
        requires
            forall|i: int|
                0 <= i < old(self).entries().len() ==> precedes(
                    (#[trigger] old(self).entries()[i]).0,
                    key@,
                ),
        ensures
            final(self).entries() == old(self).entries().push((key@, value@)),
    {
        let ghost before = self.entries();
        proof {
            use_type_invariant(&*self);
        }
        let mut members: Vec<(String, Json)> = Vec::new();
        core::mem::swap(&mut members, &mut self.members);
        members.push((key, value));
        assert((JsonObject { members }).entries() =~= before.push((key@, value@)));
        self.members = members;
    }
}

proof fn lemma_replaced(entries: Seq<(Seq<char>, JsonView)>, at: int, value: JsonView)
    requires
        ascending(entries),
        0 <= at < entries.len(),
    ensures
        ascending(entries.update(at, (entries[at].0, value))),
        as_map(entries.update(at, (entries[at].0, value))) == as_map(entries).insert(
            entries[at].0,
            value,
        ),
{
    let key = entries[at].0;
    let after = entries.update(at, (key, value));
    assert(forall|i: int| 0 <= i < after.len() ==> after[i].0 == entries[i].0);
    lemma_as_map(entries);
    lemma_as_map(after);
    let left = as_map(after);
    let right = as_map(entries).insert(key, value);
    assert forall|k: Seq<char>| left.contains_key(k) == right.contains_key(k) by {
        if has_key(after, k) {
            let i = choose|i: int| 0 <= i < after.len() && #[trigger] after[i].0 == k;
            assert(entries[i].0 == k);
        }
        if has_key(entries, k) {
            let i = choose|i: int| 0 <= i < entries.len() && #[trigger] entries[i].0 == k;
            assert(after[i].0 == k);
        }
        assert(after[at].0 == key);
    }
    assert forall|k: Seq<char>| left.contains_key(k) implies left[k] == right[k] by {
        let i = choose|i: int| 0 <= i < after.len() && #[trigger] after[i].0 == k;
        assert(as_map(after)[after[i].0] == after[i].1);
        assert(as_map(entries)[entries[i].0] == entries[i].1);
        if k == key {
            lemma_precedes_irreflexive(key);
            assert(i == at);
        }
    }
    assert(left =~= right);
}

proof fn lemma_inserted(
    entries: Seq<(Seq<char>, JsonView)>,
    at: int,
    key: Seq<char>,
    value: JsonView,
)
    requires
        ascending(entries),
        0 <= at <= entries.len(),
        forall|j: int| 0 <= j < at ==> precedes(#[trigger] entries[j].0, key),
        forall|j: int| at <= j < entries.len() ==> precedes(key, #[trigger] entries[j].0),
    ensures
        ascending(entries.insert(at, (key, value))),
        as_map(entries.insert(at, (key, value))) == as_map(entries).insert(key, value),
{
    let after = entries.insert(at, (key, value));
    assert(forall|i: int| 0 <= i < at ==> after[i] == entries[i]);
    assert(forall|i: int| at < i < after.len() ==> after[i] == entries[i - 1]);
    assert(after[at] == (key, value));
    lemma_as_map(entries);
    lemma_as_map(after);
    let left = as_map(after);
    let right = as_map(entries).insert(key, value);
    assert forall|k: Seq<char>| left.contains_key(k) == right.contains_key(k) by {
        if has_key(after, k) && k != key {
            let i = choose|i: int| 0 <= i < after.len() && #[trigger] after[i].0 == k;
            assert(entries[if i < at { i } else { i - 1 }].0 == k);
        }
        if has_key(entries, k) {
            let i = choose|i: int| 0 <= i < entries.len() && #[trigger] entries[i].0 == k;
            assert(after[if i < at { i } else { i + 1 }].0 == k);
        }
        assert(after[at].0 == key);
    }
    assert forall|k: Seq<char>| left.contains_key(k) implies left[k] == right[k] by {
        let i = choose|i: int| 0 <= i < after.len() && #[trigger] after[i].0 == k;
        assert(as_map(after)[after[i].0] == after[i].1);
        lemma_precedes_irreflexive(key);
        if i != at {
            let j = if i < at { i } else { i - 1 };
            assert(as_map(entries)[entries[j].0] == entries[j].1);
        }
    }
    assert(left =~= right);
}

impl Clone for Json {
    /// The copy stands for the same value.
    fn clone(&self) -> (copy: Self)
        ensures
            copy@ == self@,
        decreases self,
    {
        match self {
            Json::Null => Json::Null,
            Json::Bool(b) => Json::Bool(*b),
            Json::Number(n) => Json::Number(n.clone()),
            Json::String(s) => Json::String(s.clone()),
            Json::Array(items) => {
                let mut copies: Vec<Json> = Vec::new();
                let mut i: usize = 0;
                while i < items.len()
                    invariant
                        *self is Array,
                        self->Array_0 == *items,
                        i <= items.len(),
                        copies.len() == i,
                        forall|j: int| 0 <= j < i ==> (#[trigger] copies@[j])@ == items@[j]@,
                    decreases items.len() - i,
                {
                    assert(decreases_to!(*self => self->Array_0@[i as int]));
                    copies.push(items[i].clone());
                    i = i + 1;
                }
                let copy = Json::Array(copies);
                assert(copy@->Array_0 =~= self@->Array_0);
                copy
            },
            Json::Object(object) => Json::Object(object.clone()),
        }
    }
}

impl Clone for JsonObject {
    /// The copy has the same members.
    fn clone(&self) -> (copy: Self)
        ensures
            copy.entries() == self.entries(),
            copy@ == self@,
        decreases self,
    {
        proof {
            use_type_invariant(self);
        }
        let mut members: Vec<(String, Json)> = Vec::new();
        let mut i: usize = 0;
        while i < self.members.len()
            invariant
                i <= self.members.len(),
                members.len() == i,
                forall|j: int|
                    0 <= j < i ==> (#[trigger] members@[j]).0@ == self.members@[j].0@
                        && members@[j].1@ == self.members@[j].1@,
            decreases self.members.len() - i,
        {
            members.push((self.members[i].0.clone(), self.members[i].1.clone()));
            i = i + 1;
        }
        assert((JsonObject { members }).entries() =~= self.entries());
        JsonObject { members }
    }
}

} // verus!

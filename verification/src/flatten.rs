//! Flattening: nested objects become one object with dotted keys.

use vstd::prelude::*;
use vstd::string::*;

use crate::json::{Json, JsonObject, JsonView};
use crate::text::same_text;

verus! {

/// The key of a member under a prefix: the two with a dot between them, or the bare
/// key where the prefix is empty.
pub open spec fn flat_key(key: Seq<char>, prefix: Seq<char>) -> Seq<char> {
    if prefix.len() > 0 {
        prefix + seq!['.'] + key
    } else {
        key
    }
}

/// Puts `prefix` and a dot in front of `key`; an empty prefix adds nothing.
pub fn json_flatten_prefix(key: &str, prefix: &str) -> (full: String)
    ensures
        full@ == flat_key(key@, prefix@),
        prefix@.len() > 0 ==> full@ == prefix@ + seq!['.'] + key@,
        prefix@.len() == 0 ==> full@ == key@,
{
    if !prefix.is_empty() {
        proof {
            reveal_strlit(".");
        }
        assert("."@ =~= seq!['.']);
        let mut full: String = prefix.to_owned();
        full.append(".");
        full.append(key);
        full
    } else {
        key.to_owned()
    }
}

/// `map` after the members of `json` were stored under their dotted keys, in order.
/// A value that is not an object has no members.
pub open spec fn flattened(
    prefix: Seq<char>,
    json: JsonView,
    map: Map<Seq<char>, JsonView>,
) -> Map<Seq<char>, JsonView>
    decreases json,
{
    match json {
        JsonView::Object(entries) => flattened_members(prefix, entries, map),
        _ => map,
    }
}

/// `map` after `entries` were stored in order: an object by its own members, anything
/// else as it is.
pub open spec fn flattened_members(
    prefix: Seq<char>,
    entries: Seq<(Seq<char>, JsonView)>,
    map: Map<Seq<char>, JsonView>,
) -> Map<Seq<char>, JsonView>
    decreases entries,
{
    if entries.len() == 0 {
        map
    } else {
        let (key, value) = entries.last();
        let before = flattened_members(prefix, entries.drop_last(), map);
        if value is Object {
            flattened(flat_key(key, prefix), value, before)
        } else {
            before.insert(flat_key(key, prefix), value)
        }
    }
}

/// Stores the members of `json` in `acc`, at any depth, under dotted keys.
pub fn json_flatten(prefix: &str, json: &Json, acc: &mut JsonObject)
    ensures
        final(acc)@ == flattened(prefix@, json@, old(acc)@),
    decreases json@,
{
    if let Json::Object(object) = json {
        let n = object.len();
        let ghost entries = object.entries();
        let ghost start = acc@;
        let mut i: usize = 0;
        assert(entries.take(0) =~= Seq::<(Seq<char>, JsonView)>::empty());
        while i < n
            invariant
                json@ == JsonView::Object(entries),
                entries == object.entries(),
                n == entries.len(),
                i <= n,
                acc@ == flattened_members(prefix@, entries.take(i as int), start),
            decreases n - i,
        {
            let key = object.key_at(i);
            let value = object.value_at(i);
            assert(entries.take(i + 1).drop_last() =~= entries.take(i as int));
            assert(entries.take(i + 1).last() == entries[i as int]);
            let full = json_flatten_prefix(key.as_str(), prefix);
            if let Json::Object(_) = value {
                assert(decreases_to!(json@ => json@->Object_0[i as int].1));
                json_flatten(full.as_str(), value, acc);
            } else {
                acc.insert(full, value.clone());
            }
            i = i + 1;
        }
        assert(entries.take(i as int) =~= entries);
    }
}

/// `map` after the scalar members of `json` were stored under their dotted keys, and
/// the members of the object under `tags`, at any depth.
pub open spec fn flattened_one_level(
    prefix: Seq<char>,
    json: JsonView,
    map: Map<Seq<char>, JsonView>,
) -> Map<Seq<char>, JsonView> {
    match json {
        JsonView::Object(entries) => flattened_top(prefix, entries, map),
        _ => map,
    }
}

/// `map` after `entries` were gone through in order: strings, numbers and booleans are
/// stored, an object under `tags` is flattened, anything else is passed over.
pub open spec fn flattened_top(
    prefix: Seq<char>,
    entries: Seq<(Seq<char>, JsonView)>,
    map: Map<Seq<char>, JsonView>,
) -> Map<Seq<char>, JsonView>
    decreases entries.len(),
{
    if entries.len() == 0 {
        map
    } else {
        let (key, value) = entries.last();
        let before = flattened_top(prefix, entries.drop_last(), map);
        if value is String || value is Number || value is Bool {
            before.insert(flat_key(key, prefix), value)
        } else if value is Object && key == "tags"@ {
            flattened(flat_key(key, prefix), value, before)
        } else {
            before
        }
    }
}

/// Stores the scalar members of `json` in `acc` under dotted keys, and all that is in
/// an object under `tags`.
pub fn json_flatten_one_level_deep(prefix: &str, json: &Json, acc: &mut JsonObject)
    ensures
        final(acc)@ == flattened_one_level(prefix@, json@, old(acc)@),
{
    if let Json::Object(object) = json {
        let n = object.len();
        let ghost entries = object.entries();
        let ghost start = acc@;
        let mut i: usize = 0;
        assert(entries.take(0) =~= Seq::<(Seq<char>, JsonView)>::empty());
        while i < n
            invariant
                json@ == JsonView::Object(entries),
                entries == object.entries(),
                n == entries.len(),
                i <= n,
                acc@ == flattened_top(prefix@, entries.take(i as int), start),
            decreases n - i,
        {
            let key = object.key_at(i);
            let value = object.value_at(i);
            assert(entries.take(i + 1).drop_last() =~= entries.take(i as int));
            assert(entries.take(i + 1).last() == entries[i as int]);
            let full = json_flatten_prefix(key.as_str(), prefix);
            match value {
                Json::String(_) | Json::Number(_) | Json::Bool(_) => {
                    acc.insert(full, value.clone());
                },
                Json::Object(_) => {
                    if same_text(key.as_str(), "tags") {
                        json_flatten(full.as_str(), value, acc);
                    }
                },
                _ => {},
            }
            i = i + 1;
        }
        assert(entries.take(i as int) =~= entries);
    }
}

} // verus!

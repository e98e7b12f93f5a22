//! What flattening keeps, adds and leaves alone.

use vstd::prelude::*;

use crate::flatten::{
    flat_key, flattened, flattened_members, flattened_one_level, flattened_top,
};
use crate::json::{ascending, JsonView};
use crate::text::{joined, lemma_joined_front, lemma_precedes_irreflexive};
use crate::text_laws::law_joining_one_more;

verus! {

/// Whether `key` is `prefix`, a dot, and then anything.
pub open spec fn below(key: Seq<char>, prefix: Seq<char>) -> bool {
    &&& key.len() > prefix.len()
    &&& key.take(prefix.len() as int) == prefix
    &&& key[prefix.len() as int] == '.'
}

/// Whether no value of `map` is an object.
pub open spec fn is_flat(map: Map<Seq<char>, JsonView>) -> bool {
    forall|key: Seq<char>| #[trigger] map.contains_key(key) ==> !(map[key] is Object)
}

/// Whether `path` leads from `json` through nested objects to `value`, which is not
/// itself an object.
pub open spec fn leaf(json: JsonView, path: Seq<Seq<char>>, value: JsonView) -> bool
    decreases path.len(),
{
    &&& json is Object
    &&& path.len() > 0
    &&& exists|i: int|
        {
            &&& 0 <= i < json->Object_0.len()
            &&& (#[trigger] json->Object_0[i]).0 == path[0]
            &&& if path.len() == 1 {
                json->Object_0[i].1 == value && !(value is Object)
            } else {
                leaf(json->Object_0[i].1, path.drop_first(), value)
            }
        }
}

/// Whether `path` leads to `value` by way of the entry at position `i`.
spec fn leaf_in_member(
    entries: Seq<(Seq<char>, JsonView)>,
    i: int,
    path: Seq<Seq<char>>,
    value: JsonView,
) -> bool {
    &&& 0 <= i < entries.len()
    &&& path.len() > 0
    &&& entries[i].0 == path[0]
    &&& if path.len() == 1 {
        entries[i].1 == value && !(value is Object)
    } else {
        leaf(entries[i].1, path.drop_first(), value)
    }
}

proof fn lemma_leaf_has_member(json: JsonView, path: Seq<Seq<char>>, value: JsonView) -> (i: int)
    requires
        leaf(json, path, value),
    ensures
        leaf_in_member(json->Object_0, i, path, value),
{
    let i = choose|i: int|
        {
            &&& 0 <= i < json->Object_0.len()
            &&& (#[trigger] json->Object_0[i]).0 == path[0]
            &&& if path.len() == 1 {
                json->Object_0[i].1 == value && !(value is Object)
            } else {
                leaf(json->Object_0[i].1, path.drop_first(), value)
            }
        };
    i
}

/// The dotted key of a path under a prefix.
pub open spec fn path_key(prefix: Seq<char>, path: Seq<Seq<char>>) -> Seq<char>
    decreases path.len(),
{
    if path.len() == 0 {
        prefix
    } else {
        path_key(flat_key(path[0], prefix), path.drop_first())
    }
}

/// Whether at every level the keys are in ascending order and hold no dot.
pub open spec fn dot_free(json: JsonView) -> bool
    decreases json,
{
    match json {
        JsonView::Object(entries) => {
            &&& ascending(entries)
            &&& forall|i: int|
                0 <= i < entries.len() ==> !(#[trigger] entries[i]).0.contains('.') && dot_free(
                    entries[i].1,
                )
        },
        _ => true,
    }
}

pub(crate) proof fn lemma_below_flat_key(prefix: Seq<char>, key: Seq<char>)
    requires
        prefix.len() > 0,
    ensures
        below(flat_key(key, prefix), prefix),
        flat_key(key, prefix).len() > 0,
        forall|k: Seq<char>| below(k, flat_key(key, prefix)) ==> #[trigger] below(k, prefix),
{
    let full = flat_key(key, prefix);
    assert(full.take(prefix.len() as int) =~= prefix);
    assert forall|k: Seq<char>| below(k, full) implies #[trigger] below(k, prefix) by {
        assert(k.take(full.len() as int).take(prefix.len() as int) =~= k.take(
            prefix.len() as int,
        ));
        assert(k.take(full.len() as int)[prefix.len() as int] == k[prefix.len() as int]);
    }
}

pub(crate) proof fn lemma_below_transitive(key: Seq<char>, mid: Seq<char>, top: Seq<char>)
    requires
        below(mid, top),
        below(key, mid),
    ensures
        below(key, top),
{
    assert(key.take(mid.len() as int).take(top.len() as int) =~= key.take(top.len() as int));
    assert(key.take(mid.len() as int)[top.len() as int] == key[top.len() as int]);
}

/// A key under a prefix starts with the prefix and a dot and ends with the key; without
/// a prefix it is the key.
pub proof fn law_flat_key_is_prefix_dot_key(key: Seq<char>, prefix: Seq<char>)
    ensures
        prefix.len() > 0 ==> {
            &&& flat_key(key, prefix).len() == prefix.len() + 1 + key.len()
            &&& flat_key(key, prefix).take(prefix.len() as int) == prefix
            &&& flat_key(key, prefix)[prefix.len() as int] == '.'
            &&& flat_key(key, prefix).skip(prefix.len() as int + 1) == key
        },
        prefix.len() == 0 ==> flat_key(key, prefix) == key,
{
    if prefix.len() > 0 {
        assert(flat_key(key, prefix).take(prefix.len() as int) =~= prefix);
        assert(flat_key(key, prefix).skip(prefix.len() as int + 1) =~= key);
    }
}

/// The dotted key of a path is its steps joined by dots, behind the prefix.
pub proof fn law_path_key_is_joined_by_dots(prefix: Seq<char>, path: Seq<Seq<char>>)
    requires
        prefix.len() > 0,
    ensures
        path_key(prefix, path) == joined(seq![prefix] + path, "."@),
    decreases path.len(),
{
    reveal_strlit(".");
    assert("."@ =~= seq!['.']);
    let whole = seq![prefix] + path;
    if path.len() == 0 {
        assert(whole =~= seq![prefix]);
    } else {
        let rest = path.drop_first();
        let full = flat_key(path[0], prefix);
        law_path_key_is_joined_by_dots(full, rest);
        if rest.len() == 0 {
            assert(whole =~= seq![prefix].push(path[0]));
            law_joining_one_more(seq![prefix], path[0], "."@);
            law_joining_one_more(seq![], prefix, "."@);
            assert(seq![full] + rest =~= seq![full]);
        } else {
            assert(whole =~= seq![prefix] + path);
            lemma_joined_front(prefix, path, "."@);
            assert(path =~= seq![path[0]] + rest);
            lemma_joined_front(path[0], rest, "."@);
            lemma_joined_front(full, rest, "."@);
            assert(prefix + "."@ + (path[0] + "."@ + joined(rest, "."@)) =~= full + "."@ + joined(
                rest,
                "."@,
            ));
        }
    }
}

/// Flattening goes through the members in order: one more member that is no object is
/// stored under prefix, dot and key, in place of what was there, and one more object is
/// flattened under that key.
pub proof fn law_flatten_takes_members_in_order(
    prefix: Seq<char>,
    entries: Seq<(Seq<char>, JsonView)>,
    key: Seq<char>,
    value: JsonView,
    map: Map<Seq<char>, JsonView>,
)
    requires
        prefix.len() > 0,
    ensures
        ({
            let before = flattened(prefix, JsonView::Object(entries), map);
            let after = flattened(prefix, JsonView::Object(entries.push((key, value))), map);
            &&& flattened(prefix, JsonView::Object(Seq::empty()), map) == map
            &&& !(value is Object) ==> after == before.insert(prefix + "."@ + key, value)
            &&& value is Object ==> after == flattened(prefix + "."@ + key, value, before)
        }),
{
    reveal_strlit(".");
    assert("."@ =~= seq!['.']);
    assert(entries.push((key, value)).drop_last() =~= entries);
}

/// Without a prefix the members are stored under their own keys.
pub proof fn law_flatten_without_prefix(
    entries: Seq<(Seq<char>, JsonView)>,
    key: Seq<char>,
    value: JsonView,
    map: Map<Seq<char>, JsonView>,
)
    ensures
        ({
            let before = flattened(Seq::empty(), JsonView::Object(entries), map);
            let after = flattened(Seq::empty(), JsonView::Object(entries.push((key, value))), map);
            &&& flattened(Seq::empty(), JsonView::Object(Seq::empty()), map) == map
            &&& !(value is Object) ==> after == before.insert(key, value)
            &&& value is Object ==> after == flattened(key, value, before)
        }),
{
    assert(entries.push((key, value)).drop_last() =~= entries);
}

/// What is no object has no members to store.
pub proof fn law_only_objects_are_flattened(
    prefix: Seq<char>,
    json: JsonView,
    map: Map<Seq<char>, JsonView>,
)
    requires
        !(json is Object),
    ensures
        flattened(prefix, json, map) == map,
        flattened_one_level(prefix, json, map) == map,
{
}

/// Flattening one level deep goes through the members in order: one more string, number
/// or boolean is stored under prefix, dot and key, one more object under `tags` is
/// flattened under that key, and anything else changes nothing.
pub proof fn law_one_level_takes_members_in_order(
    prefix: Seq<char>,
    entries: Seq<(Seq<char>, JsonView)>,
    key: Seq<char>,
    value: JsonView,
    map: Map<Seq<char>, JsonView>,
)
    requires
        prefix.len() > 0,
    ensures
        ({
            let before = flattened_one_level(prefix, JsonView::Object(entries), map);
            let after = flattened_one_level(
                prefix,
                JsonView::Object(entries.push((key, value))),
                map,
            );
            &&& flattened_one_level(prefix, JsonView::Object(Seq::empty()), map) == map
            &&& value is String || value is Number || value is Bool ==> after == before.insert(
                prefix + "."@ + key,
                value,
            )
            &&& value is Null || value is Array ==> after == before
            &&& value is Object && key != "tags"@ ==> after == before
            &&& value is Object && key == "tags"@ ==> after == flattened(
                prefix + ".tags"@,
                value,
                before,
            )
        }),
{
    reveal_strlit(".");
    reveal_strlit("tags");
    reveal_strlit(".tags");
    assert("."@ =~= seq!['.']);
    assert(prefix + ".tags"@ =~= prefix + seq!['.'] + "tags"@);
    assert(entries.push((key, value)).drop_last() =~= entries);
}

/// Without a prefix the first level is stored under its own keys.
pub proof fn law_one_level_without_prefix(
    entries: Seq<(Seq<char>, JsonView)>,
    key: Seq<char>,
    value: JsonView,
    map: Map<Seq<char>, JsonView>,
)
    ensures
        ({
            let before = flattened_one_level(Seq::empty(), JsonView::Object(entries), map);
            let after = flattened_one_level(
                Seq::empty(),
                JsonView::Object(entries.push((key, value))),
                map,
            );
            &&& flattened_one_level(Seq::empty(), JsonView::Object(Seq::empty()), map) == map
            &&& value is String || value is Number || value is Bool ==> after == before.insert(
                key,
                value,
            )
            &&& value is Null || value is Array ==> after == before
            &&& value is Object && key != "tags"@ ==> after == before
            &&& value is Object && key == "tags"@ ==> after == flattened("tags"@, value, before)
        }),
{
    assert(entries.push((key, value)).drop_last() =~= entries);
}

/// Flattening under a prefix touches only keys below that prefix.
pub proof fn law_flatten_touches_only_below(
    prefix: Seq<char>,
    json: JsonView,
    map: Map<Seq<char>, JsonView>,
    key: Seq<char>,
)
    requires
        prefix.len() > 0,
        !below(key, prefix),
    ensures
        flattened(prefix, json, map).contains_key(key) == map.contains_key(key),
        flattened(prefix, json, map)[key] == map[key],
    decreases json,
{
    if let JsonView::Object(entries) = json {
        lemma_members_touch_only_below(prefix, entries, map, key);
    }
}

proof fn lemma_members_touch_only_below(
    prefix: Seq<char>,
    entries: Seq<(Seq<char>, JsonView)>,
    map: Map<Seq<char>, JsonView>,
    key: Seq<char>,
)
    requires
        prefix.len() > 0,
        !below(key, prefix),
    ensures
        flattened_members(prefix, entries, map).contains_key(key) == map.contains_key(key),
        flattened_members(prefix, entries, map)[key] == map[key],
    decreases entries,
{
    if entries.len() > 0 {
        let (k, value) = entries.last();
        let before = flattened_members(prefix, entries.drop_last(), map);
        lemma_members_touch_only_below(prefix, entries.drop_last(), map, key);
        lemma_below_flat_key(prefix, k);
        if value is Object {
            assert(below(key, flat_key(k, prefix)) ==> below(key, prefix));
            law_flatten_touches_only_below(flat_key(k, prefix), value, before, key);
        }
    }
}

/// Flattening removes no key.
pub proof fn law_flatten_keeps_keys(
    prefix: Seq<char>,
    json: JsonView,
    map: Map<Seq<char>, JsonView>,
    key: Seq<char>,
)
    requires
        map.contains_key(key),
    ensures
        flattened(prefix, json, map).contains_key(key),
    decreases json,
{
    if let JsonView::Object(entries) = json {
        lemma_members_keep_keys(prefix, entries, map, key);
    }
}

proof fn lemma_members_keep_keys(
    prefix: Seq<char>,
    entries: Seq<(Seq<char>, JsonView)>,
    map: Map<Seq<char>, JsonView>,
    key: Seq<char>,
)
    requires
        map.contains_key(key),
    ensures
        flattened_members(prefix, entries, map).contains_key(key),
    decreases entries,
{
    if entries.len() > 0 {
        let (k, value) = entries.last();
        let before = flattened_members(prefix, entries.drop_last(), map);
        lemma_members_keep_keys(prefix, entries.drop_last(), map, key);
        if value is Object {
            law_flatten_keeps_keys(flat_key(k, prefix), value, before, key);
        }
    }
}

/// A map without objects is still one after flattening.
pub proof fn law_flatten_is_flat(prefix: Seq<char>, json: JsonView, map: Map<Seq<char>, JsonView>)
    requires
        is_flat(map),
    ensures
        is_flat(flattened(prefix, json, map)),
    decreases json,
{
    if let JsonView::Object(entries) = json {
        lemma_members_are_flat(prefix, entries, map);
    }
}

proof fn lemma_members_are_flat(
    prefix: Seq<char>,
    entries: Seq<(Seq<char>, JsonView)>,
    map: Map<Seq<char>, JsonView>,
)
    requires
        is_flat(map),
    ensures
        is_flat(flattened_members(prefix, entries, map)),
    decreases entries,
{
    if entries.len() > 0 {
        let (k, value) = entries.last();
        let before = flattened_members(prefix, entries.drop_last(), map);
        lemma_members_are_flat(prefix, entries.drop_last(), map);
        if value is Object {
            law_flatten_is_flat(flat_key(k, prefix), value, before);
        }
    }
}

/// Whatever flattening stores is a leaf of the value, under the key of its path.
pub proof fn law_flatten_stores_only_leaves(
    prefix: Seq<char>,
    json: JsonView,
    map: Map<Seq<char>, JsonView>,
    key: Seq<char>,
)
    requires
        flattened(prefix, json, map).contains_key(key),
    ensures
        ({
            ||| map.contains_key(key) && flattened(prefix, json, map)[key] == map[key]
            ||| exists|path: Seq<Seq<char>>|
                key == path_key(prefix, path) && #[trigger] leaf(
                    json,
                    path,
                    flattened(prefix, json, map)[key],
                )
        }),
    decreases json,
{
    if let JsonView::Object(entries) = json {
        lemma_members_store_only_leaves(prefix, entries, map, key);
        let value = flattened(prefix, json, map)[key];
        if !(map.contains_key(key) && value == map[key]) {
            let (path, i) = choose|path: Seq<Seq<char>>, i: int|
                key == path_key(prefix, path) && #[trigger] leaf_in_member(entries, i, path, value);
            assert(leaf_in_member(json->Object_0, i, path, value));
            assert(json->Object_0[i].0 == path[0]);
            assert(leaf(json, path, value));
        }
    }
}

proof fn lemma_members_store_only_leaves(
    prefix: Seq<char>,
    entries: Seq<(Seq<char>, JsonView)>,
    map: Map<Seq<char>, JsonView>,
    key: Seq<char>,
)
    requires
        flattened_members(prefix, entries, map).contains_key(key),
    ensures
        ({
            let value = flattened_members(prefix, entries, map)[key];
            ||| map.contains_key(key) && value == map[key]
            ||| exists|path: Seq<Seq<char>>, i: int|
                key == path_key(prefix, path) && #[trigger] leaf_in_member(entries, i, path, value)
        }),
    decreases entries,
{
    if entries.len() > 0 {
        let (k, member) = entries.last();
        let front = entries.drop_last();
        let before = flattened_members(prefix, front, map);
        let value = flattened_members(prefix, entries, map)[key];
        let full = flat_key(k, prefix);
        let last = entries.len() - 1;
        if member is Object {
            law_flatten_stores_only_leaves(full, member, before, key);
            if !(before.contains_key(key) && value == before[key]) {
                let rest = choose|path: Seq<Seq<char>>|
                    key == path_key(full, path) && #[trigger] leaf(member, path, value);
                let path = seq![k] + rest;
                assert(path.drop_first() =~= rest);
                assert(leaf_in_member(entries, last, path, value));
            }
        } else if key == full {
            let path = seq![k];
            assert(path.drop_first() =~= Seq::<Seq<char>>::empty());
            assert(path_key(full, path.drop_first()) == full);
            assert(leaf_in_member(entries, last, path, value));
        }
        if before.contains_key(key) && value == before[key] {
            lemma_members_store_only_leaves(prefix, front, map, key);
            if !(map.contains_key(key) && value == map[key]) {
                let (path, i) = choose|path: Seq<Seq<char>>, i: int|
                    key == path_key(prefix, path) && #[trigger] leaf_in_member(
                        front,
                        i,
                        path,
                        value,
                    );
                assert(front[i] == entries[i]);
                assert(leaf_in_member(entries, i, path, value));
            }
        }
    }
}

/// Every leaf of the value has its key in the result.
pub proof fn law_flatten_covers_leaves(
    prefix: Seq<char>,
    json: JsonView,
    map: Map<Seq<char>, JsonView>,
    path: Seq<Seq<char>>,
    value: JsonView,
)
    requires
        leaf(json, path, value),
    ensures
        flattened(prefix, json, map).contains_key(path_key(prefix, path)),
    decreases json,
{
    if let JsonView::Object(entries) = json {
        let i = lemma_leaf_has_member(json, path, value);
        lemma_members_cover_leaves(prefix, entries, map, i, path, value);
    }
}

proof fn lemma_members_cover_leaves(
    prefix: Seq<char>,
    entries: Seq<(Seq<char>, JsonView)>,
    map: Map<Seq<char>, JsonView>,
    i: int,
    path: Seq<Seq<char>>,
    value: JsonView,
)
    requires
        leaf_in_member(entries, i, path, value),
    ensures
        flattened_members(prefix, entries, map).contains_key(path_key(prefix, path)),
    decreases entries,
{
    let (k, member) = entries.last();
    let front = entries.drop_last();
    let before = flattened_members(prefix, front, map);
    let full = flat_key(k, prefix);
    if i == entries.len() - 1 {
        if path.len() == 1 {
            assert(path_key(full, path.drop_first()) == full);
        } else {
            law_flatten_covers_leaves(full, member, before, path.drop_first(), value);
        }
    } else {
        assert(front[i] == entries[i]);
        assert(leaf_in_member(front, i, path, value));
        lemma_members_cover_leaves(prefix, front, map, i, path, value);
        if member is Object {
            law_flatten_keeps_keys(full, member, before, path_key(prefix, path));
        }
    }
}

proof fn lemma_path_key_at_or_below(prefix: Seq<char>, path: Seq<Seq<char>>)
    requires
        prefix.len() > 0,
    ensures
        path_key(prefix, path) == prefix || below(path_key(prefix, path), prefix),
        path.len() > 0 ==> below(path_key(prefix, path), prefix),
    decreases path.len(),
{
    if path.len() > 0 {
        let full = flat_key(path[0], prefix);
        lemma_below_flat_key(prefix, path[0]);
        lemma_path_key_at_or_below(full, path.drop_first());
        assert(below(path_key(prefix, path), full) ==> below(path_key(prefix, path), prefix));
    }
}

/// Two different keys without dots lead to keys that lie apart.
proof fn lemma_siblings_apart(prefix: Seq<char>, a: Seq<char>, b: Seq<char>, key: Seq<char>)
    requires
        prefix.len() > 0,
        !a.contains('.'),
        !b.contains('.'),
        a != b,
        key == flat_key(a, prefix) || below(key, flat_key(a, prefix)),
    ensures
        key != flat_key(b, prefix),
        !below(key, flat_key(b, prefix)),
{
    let p = prefix.len() as int + 1;
    let fa = flat_key(a, prefix);
    let fb = flat_key(b, prefix);
    if key == fb || below(key, fb) {
        assert(key.take(fa.len() as int) =~= fa);
        assert(key.take(fb.len() as int) =~= fb);
        assert forall|j: int| 0 <= j < a.len() implies key[p + j] == a[j] by {
            assert(fa[p + j] == a[j]);
            assert(key.take(fa.len() as int)[p + j] == key[p + j]);
        }
        assert forall|j: int| 0 <= j < b.len() implies key[p + j] == b[j] by {
            assert(fb[p + j] == b[j]);
            assert(key.take(fb.len() as int)[p + j] == key[p + j]);
        }
        if a.len() < b.len() {
            assert(key[p + a.len()] == b[a.len() as int]);
            assert(b.contains(b[a.len() as int]));
        } else if b.len() < a.len() {
            assert(key[p + b.len()] == a[b.len() as int]);
            assert(a.contains(a[b.len() as int]));
        } else {
            assert(a =~= b);
        }
    }
}

/// Where no key holds a dot, the result has under the key of every leaf that leaf's
/// value.
pub proof fn law_flatten_keeps_leaves(
    prefix: Seq<char>,
    json: JsonView,
    map: Map<Seq<char>, JsonView>,
    path: Seq<Seq<char>>,
    value: JsonView,
)
    requires
        prefix.len() > 0,
        dot_free(json),
        leaf(json, path, value),
    ensures
        flattened(prefix, json, map).contains_key(path_key(prefix, path)),
        flattened(prefix, json, map)[path_key(prefix, path)] == value,
    decreases json,
{
    law_flatten_covers_leaves(prefix, json, map, path, value);
    if let JsonView::Object(entries) = json {
        let i = lemma_leaf_has_member(json, path, value);
        assert(forall|j: int|
            0 <= j < entries.len() ==> !(#[trigger] entries[j]).0.contains('.') && dot_free(
                entries[j].1,
            ));
        lemma_members_keep_leaves(prefix, entries, map, i, path, value);
    }
}

proof fn lemma_members_keep_leaves(
    prefix: Seq<char>,
    entries: Seq<(Seq<char>, JsonView)>,
    map: Map<Seq<char>, JsonView>,
    i: int,
    path: Seq<Seq<char>>,
    value: JsonView,
)
    requires
        prefix.len() > 0,
        ascending(entries),
        forall|j: int|
            0 <= j < entries.len() ==> !(#[trigger] entries[j]).0.contains('.') && dot_free(
                entries[j].1,
            ),
        leaf_in_member(entries, i, path, value),
    ensures
        flattened_members(prefix, entries, map)[path_key(prefix, path)] == value,
    decreases entries,
{
    let (k, member) = entries.last();
    let last = entries.len() - 1;
    let front = entries.drop_last();
    let before = flattened_members(prefix, front, map);
    let full = flat_key(k, prefix);
    let key = path_key(prefix, path);
    assert(entries[last] == (k, member));
    lemma_below_flat_key(prefix, k);
    if i == last {
        if path.len() == 1 {
            assert(path_key(full, path.drop_first()) == full);
        } else {
            law_flatten_keeps_leaves(full, member, before, path.drop_first(), value);
        }
    } else {
        assert(forall|j: int| 0 <= j < front.len() ==> front[j] == entries[j]);
        assert(leaf_in_member(front, i, path, value));
        lemma_members_keep_leaves(prefix, front, map, i, path, value);
        lemma_precedes_irreflexive(k);
        lemma_below_flat_key(prefix, path[0]);
        lemma_path_key_at_or_below(flat_key(path[0], prefix), path.drop_first());
        lemma_siblings_apart(prefix, path[0], k, key);
        if member is Object {
            law_flatten_touches_only_below(full, member, before, key);
        }
    }
}

/// Flattening into a map overrides it with what flattening into an empty map gives.
pub proof fn law_flatten_overrides(
    prefix: Seq<char>,
    json: JsonView,
    map: Map<Seq<char>, JsonView>,
)
    ensures
        flattened(prefix, json, map) == map.union_prefer_right(
            flattened(prefix, json, Map::empty()),
        ),
    decreases json,
{
    if let JsonView::Object(entries) = json {
        lemma_members_override(prefix, entries, map);
    } else {
        assert(map.union_prefer_right(Map::empty()) =~= map);
    }
}

proof fn lemma_members_override(
    prefix: Seq<char>,
    entries: Seq<(Seq<char>, JsonView)>,
    map: Map<Seq<char>, JsonView>,
)
    ensures
        flattened_members(prefix, entries, map) == map.union_prefer_right(
            flattened_members(prefix, entries, Map::empty()),
        ),
    decreases entries,
{
    let empty = Map::<Seq<char>, JsonView>::empty();
    if entries.len() > 0 {
        let (k, value) = entries.last();
        let front = entries.drop_last();
        lemma_members_override(prefix, front, map);
        if value is Object {
            let full = flat_key(k, prefix);
            law_flatten_overrides(full, value, flattened_members(prefix, front, map));
            law_flatten_overrides(full, value, flattened_members(prefix, front, empty));
        }
    }
    assert(flattened_members(prefix, entries, map) =~= map.union_prefer_right(
        flattened_members(prefix, entries, empty),
    ));
}

/// Flattening twice is flattening once.
pub proof fn law_flatten_twice(prefix: Seq<char>, json: JsonView, map: Map<Seq<char>, JsonView>)
    ensures
        flattened(prefix, json, flattened(prefix, json, map)) == flattened(prefix, json, map),
{
    let once = flattened(prefix, json, map);
    law_flatten_overrides(prefix, json, map);
    law_flatten_overrides(prefix, json, once);
    assert(once.union_prefer_right(flattened(prefix, json, Map::empty())) =~= once);
}

/// Whether leaves that share a dotted key share their value too.
pub open spec fn unshared(prefix: Seq<char>, json: JsonView) -> bool {
    forall|p: Seq<Seq<char>>, q: Seq<Seq<char>>, v: JsonView, w: JsonView|
        #[trigger] leaf(json, p, v) && #[trigger] leaf(json, q, w) && path_key(prefix, p)
            == path_key(prefix, q) ==> v == w
}

/// Where no two leaves share a dotted key, the result is the map overridden by the
/// leaves: under the key of a leaf it has that leaf's value, and any other key is as it
/// was.
pub proof fn law_flatten_overrides_with_leaves(
    prefix: Seq<char>,
    json: JsonView,
    map: Map<Seq<char>, JsonView>,
    key: Seq<char>,
)
    requires
        unshared(prefix, json),
    ensures
        forall|path: Seq<Seq<char>>, value: JsonView| #[trigger]
            leaf(json, path, value) && path_key(prefix, path) == key ==> flattened(
                prefix,
                json,
                map,
            ).contains_key(key) && flattened(prefix, json, map)[key] == value,
        (forall|path: Seq<Seq<char>>, value: JsonView| #[trigger]
            leaf(json, path, value) ==> path_key(prefix, path) != key) ==> {
            &&& flattened(prefix, json, map).contains_key(key) == map.contains_key(key)
            &&& map.contains_key(key) ==> flattened(prefix, json, map)[key] == map[key]
        },
{
    let empty = Map::<Seq<char>, JsonView>::empty();
    let stored = flattened(prefix, json, empty);
    law_flatten_overrides(prefix, json, map);
    if stored.contains_key(key) {
        law_flatten_stores_only_leaves(prefix, json, empty, key);
    }
    assert forall|path: Seq<Seq<char>>, value: JsonView| #[trigger]
        leaf(json, path, value) && path_key(prefix, path) == key implies flattened(
        prefix,
        json,
        map,
    ).contains_key(key) && flattened(prefix, json, map)[key] == value by {
        law_flatten_covers_leaves(prefix, json, empty, path, value);
    }
}

/// Where no key holds a dot, no two leaves share a dotted key.
pub proof fn law_dot_free_leaves_are_unshared(prefix: Seq<char>, json: JsonView)
    requires
        prefix.len() > 0,
        dot_free(json),
    ensures
        unshared(prefix, json),
{
    let empty = Map::<Seq<char>, JsonView>::empty();
    assert forall|p: Seq<Seq<char>>, q: Seq<Seq<char>>, v: JsonView, w: JsonView|
        #[trigger] leaf(json, p, v) && #[trigger] leaf(json, q, w) && path_key(prefix, p)
            == path_key(prefix, q) implies v == w by {
        law_flatten_keeps_leaves(prefix, json, empty, p, v);
        law_flatten_keeps_leaves(prefix, json, empty, q, w);
    }
}

/// Where no key holds a dot, the key of no leaf lies below the key of another.
pub proof fn law_leaf_keys_lie_apart(
    prefix: Seq<char>,
    json: JsonView,
    p: Seq<Seq<char>>,
    v: JsonView,
    q: Seq<Seq<char>>,
    w: JsonView,
)
    requires
        prefix.len() > 0,
        dot_free(json),
        leaf(json, p, v),
        leaf(json, q, w),
    ensures
        !below(path_key(prefix, q), path_key(prefix, p)),
    decreases p.len(),
{
    let entries = json->Object_0;
    let i = lemma_leaf_has_member(json, p, v);
    let j = lemma_leaf_has_member(json, q, w);
    assert(json == JsonView::Object(entries));
    let at = path_key(prefix, p);
    let key = path_key(prefix, q);
    let fp = flat_key(p[0], prefix);
    let fq = flat_key(q[0], prefix);
    lemma_below_flat_key(prefix, p[0]);
    lemma_below_flat_key(prefix, q[0]);
    lemma_path_key_at_or_below(fp, p.drop_first());
    lemma_path_key_at_or_below(fq, q.drop_first());
    if i != j {
        lemma_keys_differ(entries, i, j);
        if below(key, at) {
            if at != fp {
                lemma_below_transitive(key, at, fp);
            }
            lemma_siblings_apart(prefix, q[0], p[0], key);
        }
    } else if p.len() == 1 {
        assert(at == fp);
        assert(key == fp);
    } else if q.len() > 1 {
        assert(dot_free(entries[i].1)) by {
            assert(!entries[i].0.contains('.') && dot_free(entries[i].1));
        }
        law_leaf_keys_lie_apart(fp, entries[i].1, p.drop_first(), v, q.drop_first(), w);
    }
}

/// Flattening one level deep under a prefix touches only keys below that prefix.
pub proof fn law_one_level_touches_only_below(
    prefix: Seq<char>,
    json: JsonView,
    map: Map<Seq<char>, JsonView>,
    key: Seq<char>,
)
    requires
        prefix.len() > 0,
        !below(key, prefix),
    ensures
        flattened_one_level(prefix, json, map).contains_key(key) == map.contains_key(key),
        flattened_one_level(prefix, json, map)[key] == map[key],
{
    if let JsonView::Object(entries) = json {
        lemma_top_touches_only_below(prefix, entries, map, key);
    }
}

proof fn lemma_top_touches_only_below(
    prefix: Seq<char>,
    entries: Seq<(Seq<char>, JsonView)>,
    map: Map<Seq<char>, JsonView>,
    key: Seq<char>,
)
    requires
        prefix.len() > 0,
        !below(key, prefix),
    ensures
        flattened_top(prefix, entries, map).contains_key(key) == map.contains_key(key),
        flattened_top(prefix, entries, map)[key] == map[key],
    decreases entries.len(),
{
    if entries.len() > 0 {
        let (k, value) = entries.last();
        let before = flattened_top(prefix, entries.drop_last(), map);
        lemma_top_touches_only_below(prefix, entries.drop_last(), map, key);
        lemma_below_flat_key(prefix, k);
        if value is Object && k == "tags"@ {
            assert(below(key, flat_key(k, prefix)) ==> below(key, prefix));
            law_flatten_touches_only_below(flat_key(k, prefix), value, before, key);
        }
    }
}

/// A map without objects is still one after flattening one level deep.
pub proof fn law_one_level_is_flat(
    prefix: Seq<char>,
    json: JsonView,
    map: Map<Seq<char>, JsonView>,
)
    requires
        is_flat(map),
    ensures
        is_flat(flattened_one_level(prefix, json, map)),
{
    if let JsonView::Object(entries) = json {
        lemma_top_is_flat(prefix, entries, map);
    }
}

proof fn lemma_top_is_flat(
    prefix: Seq<char>,
    entries: Seq<(Seq<char>, JsonView)>,
    map: Map<Seq<char>, JsonView>,
)
    requires
        is_flat(map),
    ensures
        is_flat(flattened_top(prefix, entries, map)),
    decreases entries.len(),
{
    if entries.len() > 0 {
        let (k, value) = entries.last();
        let before = flattened_top(prefix, entries.drop_last(), map);
        lemma_top_is_flat(prefix, entries.drop_last(), map);
        if value is Object && k == "tags"@ {
            law_flatten_is_flat(flat_key(k, prefix), value, before);
        }
    }
}

/// Whether a value is kept by flattening one level deep where it stands at the top.
pub open spec fn is_scalar(value: JsonView) -> bool {
    value is String || value is Number || value is Bool
}

/// Whether `path` leads to a `value` that flattening one level deep keeps: a scalar of
/// the top level, or a leaf of the object under `tags`.
pub open spec fn kept(json: JsonView, path: Seq<Seq<char>>, value: JsonView) -> bool {
    &&& json is Object
    &&& path.len() > 0
    &&& exists|i: int|
        {
            &&& 0 <= i < json->Object_0.len()
            &&& (#[trigger] json->Object_0[i]).0 == path[0]
            &&& if path.len() == 1 {
                json->Object_0[i].1 == value && is_scalar(value)
            } else {
                path[0] == "tags"@ && leaf(json->Object_0[i].1, path.drop_first(), value)
            }
        }
}

/// Whether `path` leads to a kept `value` by way of the entry at position `i`.
spec fn kept_in_member(
    entries: Seq<(Seq<char>, JsonView)>,
    i: int,
    path: Seq<Seq<char>>,
    value: JsonView,
) -> bool {
    &&& 0 <= i < entries.len()
    &&& path.len() > 0
    &&& entries[i].0 == path[0]
    &&& if path.len() == 1 {
        entries[i].1 == value && is_scalar(value)
    } else {
        path[0] == "tags"@ && leaf(entries[i].1, path.drop_first(), value)
    }
}

proof fn lemma_kept_has_member(json: JsonView, path: Seq<Seq<char>>, value: JsonView) -> (i: int)
    requires
        kept(json, path, value),
    ensures
        kept_in_member(json->Object_0, i, path, value),
{
    let i = choose|i: int|
        {
            &&& 0 <= i < json->Object_0.len()
            &&& (#[trigger] json->Object_0[i]).0 == path[0]
            &&& if path.len() == 1 {
                json->Object_0[i].1 == value && is_scalar(value)
            } else {
                path[0] == "tags"@ && leaf(json->Object_0[i].1, path.drop_first(), value)
            }
        };
    i
}

/// Whatever flattening one level deep keeps is a leaf.
pub proof fn law_kept_is_leaf(json: JsonView, path: Seq<Seq<char>>, value: JsonView)
    requires
        kept(json, path, value),
    ensures
        leaf(json, path, value),
{
    let i = lemma_kept_has_member(json, path, value);
    assert(json->Object_0[i].0 == path[0]);
}

/// Without an object under `tags`, nothing but scalars of the first level is kept.
pub proof fn law_without_tags_only_first_level_is_kept(
    entries: Seq<(Seq<char>, JsonView)>,
    path: Seq<Seq<char>>,
    value: JsonView,
)
    requires
        forall|i: int|
            0 <= i < entries.len() && (#[trigger] entries[i]).0 == "tags"@ ==> !(
            entries[i].1 is Object),
        kept(JsonView::Object(entries), path, value),
    ensures
        path.len() == 1,
        is_scalar(value),
{
    let i = lemma_kept_has_member(JsonView::Object(entries), path, value);
    assert(entries[i].0 == path[0]);
}

/// Flattening one level deep into a map overrides it with what flattening into an empty
/// map gives.
pub proof fn law_one_level_overrides(
    prefix: Seq<char>,
    json: JsonView,
    map: Map<Seq<char>, JsonView>,
)
    ensures
        flattened_one_level(prefix, json, map) == map.union_prefer_right(
            flattened_one_level(prefix, json, Map::empty()),
        ),
{
    if let JsonView::Object(entries) = json {
        lemma_top_overrides(prefix, entries, map);
    } else {
        assert(map.union_prefer_right(Map::empty()) =~= map);
    }
}

proof fn lemma_top_overrides(
    prefix: Seq<char>,
    entries: Seq<(Seq<char>, JsonView)>,
    map: Map<Seq<char>, JsonView>,
)
    ensures
        flattened_top(prefix, entries, map) == map.union_prefer_right(
            flattened_top(prefix, entries, Map::empty()),
        ),
    decreases entries.len(),
{
    let empty = Map::<Seq<char>, JsonView>::empty();
    if entries.len() > 0 {
        let (k, value) = entries.last();
        let front = entries.drop_last();
        lemma_top_overrides(prefix, front, map);
        if value is Object && k == "tags"@ {
            let full = flat_key(k, prefix);
            law_flatten_overrides(full, value, flattened_top(prefix, front, map));
            law_flatten_overrides(full, value, flattened_top(prefix, front, empty));
        }
    }
    assert(flattened_top(prefix, entries, map) =~= map.union_prefer_right(
        flattened_top(prefix, entries, empty),
    ));
}

/// Flattening one level deep twice is doing so once.
pub proof fn law_one_level_twice(prefix: Seq<char>, json: JsonView, map: Map<Seq<char>, JsonView>)
    ensures
        flattened_one_level(prefix, json, flattened_one_level(prefix, json, map))
            == flattened_one_level(prefix, json, map),
{
    let once = flattened_one_level(prefix, json, map);
    law_one_level_overrides(prefix, json, map);
    law_one_level_overrides(prefix, json, once);
    assert(once.union_prefer_right(flattened_one_level(prefix, json, Map::empty())) =~= once);
}

/// Whatever flattening one level deep stores is a kept value, under the key of its path.
pub proof fn law_one_level_stores_only_kept(
    prefix: Seq<char>,
    json: JsonView,
    map: Map<Seq<char>, JsonView>,
    key: Seq<char>,
)
    requires
        flattened_one_level(prefix, json, map).contains_key(key),
    ensures
        ({
            let value = flattened_one_level(prefix, json, map)[key];
            ||| map.contains_key(key) && value == map[key]
            ||| exists|path: Seq<Seq<char>>|
                key == path_key(prefix, path) && #[trigger] kept(json, path, value)
        }),
{
    if let JsonView::Object(entries) = json {
        lemma_top_stores_only_kept(prefix, entries, map, key);
        let value = flattened_one_level(prefix, json, map)[key];
        if !(map.contains_key(key) && value == map[key]) {
            let (path, i) = choose|path: Seq<Seq<char>>, i: int|
                key == path_key(prefix, path) && #[trigger] kept_in_member(entries, i, path, value);
            assert(json->Object_0[i].0 == path[0]);
            assert(kept(json, path, value));
        }
    }
}

proof fn lemma_top_stores_only_kept(
    prefix: Seq<char>,
    entries: Seq<(Seq<char>, JsonView)>,
    map: Map<Seq<char>, JsonView>,
    key: Seq<char>,
)
    requires
        flattened_top(prefix, entries, map).contains_key(key),
    ensures
        ({
            let value = flattened_top(prefix, entries, map)[key];
            ||| map.contains_key(key) && value == map[key]
            ||| exists|path: Seq<Seq<char>>, i: int|
                key == path_key(prefix, path) && #[trigger] kept_in_member(entries, i, path, value)
        }),
    decreases entries.len(),
{
    if entries.len() > 0 {
        let (k, member) = entries.last();
        let front = entries.drop_last();
        let before = flattened_top(prefix, front, map);
        let value = flattened_top(prefix, entries, map)[key];
        let full = flat_key(k, prefix);
        let last = entries.len() - 1;
        if is_scalar(member) {
            if key == full {
                let path = seq![k];
                assert(path.drop_first() =~= Seq::<Seq<char>>::empty());
                assert(path_key(full, path.drop_first()) == full);
                assert(kept_in_member(entries, last, path, value));
            }
        } else if member is Object && k == "tags"@ {
            law_flatten_stores_only_leaves(full, member, before, key);
            if !(before.contains_key(key) && value == before[key]) {
                let rest = choose|path: Seq<Seq<char>>|
                    key == path_key(full, path) && #[trigger] leaf(member, path, value);
                let path = seq![k] + rest;
                assert(path.drop_first() =~= rest);
                assert(kept_in_member(entries, last, path, value));
            }
        }
        if before.contains_key(key) && value == before[key] {
            lemma_top_stores_only_kept(prefix, front, map, key);
            if !(map.contains_key(key) && value == map[key]) {
                let (path, i) = choose|path: Seq<Seq<char>>, i: int|
                    key == path_key(prefix, path) && #[trigger] kept_in_member(
                        front,
                        i,
                        path,
                        value,
                    );
                assert(front[i] == entries[i]);
                assert(kept_in_member(entries, i, path, value));
            }
        }
    }
}

/// Every kept value has its key in the result.
pub proof fn law_one_level_covers_kept(
    prefix: Seq<char>,
    json: JsonView,
    map: Map<Seq<char>, JsonView>,
    path: Seq<Seq<char>>,
    value: JsonView,
)
    requires
        kept(json, path, value),
    ensures
        flattened_one_level(prefix, json, map).contains_key(path_key(prefix, path)),
{
    let i = lemma_kept_has_member(json, path, value);
    lemma_top_covers_kept(prefix, json->Object_0, map, i, path, value);
}

proof fn lemma_top_covers_kept(
    prefix: Seq<char>,
    entries: Seq<(Seq<char>, JsonView)>,
    map: Map<Seq<char>, JsonView>,
    i: int,
    path: Seq<Seq<char>>,
    value: JsonView,
)
    requires
        kept_in_member(entries, i, path, value),
    ensures
        flattened_top(prefix, entries, map).contains_key(path_key(prefix, path)),
    decreases entries.len(),
{
    let (k, member) = entries.last();
    let front = entries.drop_last();
    let before = flattened_top(prefix, front, map);
    let full = flat_key(k, prefix);
    if i == entries.len() - 1 {
        if path.len() == 1 {
            assert(path_key(full, path.drop_first()) == full);
        } else {
            law_flatten_covers_leaves(full, member, before, path.drop_first(), value);
        }
    } else {
        assert(front[i] == entries[i]);
        assert(kept_in_member(front, i, path, value));
        lemma_top_covers_kept(prefix, front, map, i, path, value);
        if member is Object && k == "tags"@ {
            law_flatten_keeps_keys(full, member, before, path_key(prefix, path));
        }
    }
}

/// Whether kept values that share a dotted key are the same.
pub open spec fn unshared_kept(prefix: Seq<char>, json: JsonView) -> bool {
    forall|p: Seq<Seq<char>>, q: Seq<Seq<char>>, v: JsonView, w: JsonView|
        #[trigger] kept(json, p, v) && #[trigger] kept(json, q, w) && path_key(prefix, p)
            == path_key(prefix, q) ==> v == w
}

/// Where no two kept values share a dotted key, the result of flattening one level deep
/// is the map overridden by them: under the key of a kept value it has that value, and
/// any other key is as it was.
pub proof fn law_one_level_overrides_with_kept(
    prefix: Seq<char>,
    json: JsonView,
    map: Map<Seq<char>, JsonView>,
    key: Seq<char>,
)
    requires
        unshared_kept(prefix, json),
    ensures
        forall|path: Seq<Seq<char>>, value: JsonView| #[trigger]
            kept(json, path, value) && path_key(prefix, path) == key ==> flattened_one_level(
                prefix,
                json,
                map,
            ).contains_key(key) && flattened_one_level(prefix, json, map)[key] == value,
        (forall|path: Seq<Seq<char>>, value: JsonView| #[trigger]
            kept(json, path, value) ==> path_key(prefix, path) != key) ==> {
            &&& flattened_one_level(prefix, json, map).contains_key(key) == map.contains_key(key)
            &&& map.contains_key(key) ==> flattened_one_level(prefix, json, map)[key] == map[key]
        },
{
    let empty = Map::<Seq<char>, JsonView>::empty();
    let stored = flattened_one_level(prefix, json, empty);
    law_one_level_overrides(prefix, json, map);
    if stored.contains_key(key) {
        law_one_level_stores_only_kept(prefix, json, empty, key);
    }
    assert forall|path: Seq<Seq<char>>, value: JsonView| #[trigger]
        kept(json, path, value) && path_key(prefix, path) == key implies flattened_one_level(
        prefix,
        json,
        map,
    ).contains_key(key) && flattened_one_level(prefix, json, map)[key] == value by {
        law_one_level_covers_kept(prefix, json, empty, path, value);
    }
}

/// Where no two leaves share a dotted key, no two kept values do.
pub proof fn law_unshared_leaves_are_unshared_kept(prefix: Seq<char>, json: JsonView)
    requires
        unshared(prefix, json),
    ensures
        unshared_kept(prefix, json),
{
    assert forall|p: Seq<Seq<char>>, q: Seq<Seq<char>>, v: JsonView, w: JsonView|
        #[trigger] kept(json, p, v) && #[trigger] kept(json, q, w) && path_key(prefix, p)
            == path_key(prefix, q) implies v == w by {
        law_kept_is_leaf(json, p, v);
        law_kept_is_leaf(json, q, w);
    }
}

/// Where no key holds a dot, flattening one level deep stores every scalar of the top
/// level under its dotted key.
pub proof fn law_one_level_keeps_scalars(
    prefix: Seq<char>,
    entries: Seq<(Seq<char>, JsonView)>,
    map: Map<Seq<char>, JsonView>,
    i: int,
)
    requires
        prefix.len() > 0,
        dot_free(JsonView::Object(entries)),
        0 <= i < entries.len(),
        is_scalar(entries[i].1),
    ensures
        ({
            let after = flattened_one_level(prefix, JsonView::Object(entries), map);
            &&& after.contains_key(flat_key(entries[i].0, prefix))
            &&& after[flat_key(entries[i].0, prefix)] == entries[i].1
        }),
{
    let json = JsonView::Object(entries);
    let path = seq![entries[i].0];
    let key = flat_key(entries[i].0, prefix);
    law_dot_free_leaves_are_unshared(prefix, json);
    law_unshared_leaves_are_unshared_kept(prefix, json);
    assert(path_key(key, path.drop_first()) == key);
    assert(json->Object_0[i].0 == path[0]);
    assert(kept(json, path, entries[i].1));
    law_one_level_overrides_with_kept(prefix, json, map, key);
}

/// Where no key holds a dot, flattening one level deep does not touch the keys of a
/// member of the top level that is neither a scalar nor an object under `tags`.
pub proof fn law_one_level_skips_others(
    prefix: Seq<char>,
    entries: Seq<(Seq<char>, JsonView)>,
    map: Map<Seq<char>, JsonView>,
    i: int,
    key: Seq<char>,
)
    requires
        prefix.len() > 0,
        dot_free(JsonView::Object(entries)),
        0 <= i < entries.len(),
        !is_scalar(entries[i].1),
        !(entries[i].1 is Object && entries[i].0 == "tags"@),
        key == flat_key(entries[i].0, prefix) || below(key, flat_key(entries[i].0, prefix)),
    ensures
        ({
            let after = flattened_one_level(prefix, JsonView::Object(entries), map);
            after.contains_key(key) == map.contains_key(key) && after[key] == map[key]
        }),
{
    lemma_top_skips(prefix, entries, map, i, key, entries.len());
    assert(entries.take(entries.len() as int) =~= entries);
}

proof fn lemma_top_skips(
    prefix: Seq<char>,
    entries: Seq<(Seq<char>, JsonView)>,
    map: Map<Seq<char>, JsonView>,
    i: int,
    key: Seq<char>,
    n: nat,
)
    requires
        prefix.len() > 0,
        dot_free(JsonView::Object(entries)),
        0 <= i < entries.len(),
        n <= entries.len(),
        !is_scalar(entries[i].1),
        !(entries[i].1 is Object && entries[i].0 == "tags"@),
        key == flat_key(entries[i].0, prefix) || below(key, flat_key(entries[i].0, prefix)),
    ensures
        ({
            let after = flattened_top(prefix, entries.take(n as int), map);
            after.contains_key(key) == map.contains_key(key) && after[key] == map[key]
        }),
    decreases n,
{
    if n > 0 {
        lemma_top_skips(prefix, entries, map, i, key, (n - 1) as nat);
        let taken = entries.take(n as int);
        assert(taken.drop_last() =~= entries.take(n - 1));
        let j = n - 1;
        assert(taken.last() == entries[j]);
        if i != j {
            lemma_keys_differ(entries, i, j);
            lemma_siblings_apart(prefix, entries[i].0, entries[j].0, key);
            if entries[j].1 is Object && entries[j].0 == "tags"@ {
                lemma_below_flat_key(prefix, entries[j].0);
                law_flatten_touches_only_below(
                    flat_key(entries[j].0, prefix),
                    entries[j].1,
                    flattened_top(prefix, entries.take(n - 1), map),
                    key,
                );
            }
        }
    }
}

/// Where no key holds a dot, flattening one level deep stores every leaf below the
/// object under `tags` under the key of its path.
pub proof fn law_one_level_keeps_tags(
    prefix: Seq<char>,
    entries: Seq<(Seq<char>, JsonView)>,
    map: Map<Seq<char>, JsonView>,
    i: int,
    path: Seq<Seq<char>>,
    value: JsonView,
)
    requires
        prefix.len() > 0,
        dot_free(JsonView::Object(entries)),
        0 <= i < entries.len(),
        entries[i].0 == "tags"@,
        leaf(entries[i].1, path, value),
    ensures
        ({
            let after = flattened_one_level(prefix, JsonView::Object(entries), map);
            let key = path_key(flat_key("tags"@, prefix), path);
            after.contains_key(key) && after[key] == value
        }),
{
    let json = JsonView::Object(entries);
    let whole = seq!["tags"@] + path;
    law_dot_free_leaves_are_unshared(prefix, json);
    law_unshared_leaves_are_unshared_kept(prefix, json);
    assert(whole.drop_first() =~= path);
    assert(json->Object_0[i].0 == whole[0]);
    assert(kept(json, whole, value));
    law_one_level_overrides_with_kept(prefix, json, map, path_key(prefix, whole));
}

proof fn lemma_keys_differ(entries: Seq<(Seq<char>, JsonView)>, i: int, j: int)
    requires
        dot_free(JsonView::Object(entries)),
        0 <= i < entries.len(),
        0 <= j < entries.len(),
        i != j,
    ensures
        entries[i].0 != entries[j].0,
        !entries[i].0.contains('.'),
        !entries[j].0.contains('.'),
{
    lemma_precedes_irreflexive(entries[i].0);
    assert(!entries[i].0.contains('.') && dot_free(entries[i].1));
    assert(!entries[j].0.contains('.') && dot_free(entries[j].1));
}

} // verus!

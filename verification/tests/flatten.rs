use telemetry::codec::parse_json;
use telemetry::flatten::{json_flatten, json_flatten_one_level_deep, json_flatten_prefix};
use telemetry::json::{Json, JsonObject};

fn object(source: &str) -> JsonObject {
    match parse_json(source) {
        Ok(Json::Object(object)) => object,
        other => panic!("{:?}", other),
    }
}

fn flattened(prefix: &str, source: &str, start: &str) -> JsonObject {
    let mut acc = object(start);
    json_flatten(prefix, &parse_json(source).unwrap(), &mut acc);
    acc
}

fn one_level(prefix: &str, source: &str, start: &str) -> JsonObject {
    let mut acc = object(start);
    json_flatten_one_level_deep(prefix, &parse_json(source).unwrap(), &mut acc);
    acc
}

#[test]
fn prefix_and_key_are_joined_by_a_dot() {
    assert_eq!(json_flatten_prefix("key", "prefix"), "prefix.key");
    assert_eq!(json_flatten_prefix("", "prefix"), "prefix.");
    assert_eq!(json_flatten_prefix("key", ""), "key");
}

#[test]
fn nested_objects_become_dotted_keys() {
    assert_eq!(
        flattened("p", r#"{"a":1,"b":{"c":"x","d":{"e":null}},"f":[{"g":2}]}"#, r#"{"old":true}"#),
        object(r#"{"old":true,"p.a":1,"p.b.c":"x","p.b.d.e":null,"p.f":[{"g":2}]}"#)
    );
    assert_eq!(flattened("", r#"{"a":{"b":1}}"#, "{}"), object(r#"{"a.b":1}"#));
    assert_eq!(flattened("p", r#"{"a":{},"b":{"c":{}}}"#, "{}"), object("{}"));
}

#[test]
fn what_is_no_object_is_not_flattened() {
    for source in ["null", "true", "1", "\"x\"", "[{\"a\":1}]"] {
        assert_eq!(flattened("p", source, r#"{"k":1}"#), object(r#"{"k":1}"#));
        assert_eq!(one_level("p", source, r#"{"k":1}"#), object(r#"{"k":1}"#));
    }
}

#[test]
fn of_two_members_with_one_dotted_key_the_later_stays() {
    assert_eq!(
        flattened("p", r#"{"a":{"b":"inner"},"a.b":"outer"}"#, "{}"),
        object(r#"{"p.a.b":"outer"}"#)
    );
    assert_eq!(flattened("p", r#"{"a":2}"#, r#"{"p.a":1}"#), object(r#"{"p.a":2}"#));
}

#[test]
fn only_keys_below_the_prefix_change() {
    let before = object(r#"{"p":0,"px":1,"q.a":2,"p.old":3}"#);
    let after = flattened("p", r#"{"a":{"b":4},"old":5}"#, r#"{"p":0,"px":1,"q.a":2,"p.old":3}"#);
    for key in ["p", "px", "q.a"] {
        assert_eq!(after.get(key), before.get(key));
    }
    assert_eq!(after.len(), 5);
}

#[test]
fn every_leaf_without_dots_in_its_path_is_found_again() {
    let acc = flattened("p", r#"{"":{"":1},"a":{"":2,"b":3},"ab":4}"#, "{}");
    assert_eq!(acc, object(r#"{"p..":1,"p.a.":2,"p.a.b":3,"p.ab":4}"#));
}

#[test]
fn one_level_keeps_scalars_and_tags() {
    assert_eq!(
        one_level(
            "payload",
            r#"{"s":"x","n":1.5,"b":false,"z":null,"l":[1],"o":{"a":1},"tags":{"user_agent":"u","deep":{"x":[2],"y":null}}}"#,
            r#"{"old":1}"#
        ),
        object(
            r#"{"old":1,"payload.s":"x","payload.n":1.5,"payload.b":false,"payload.tags.user_agent":"u","payload.tags.deep.x":[2],"payload.tags.deep.y":null}"#
        )
    );
}

#[test]
fn tags_that_are_no_object_are_treated_like_any_member() {
    assert_eq!(one_level("p", r#"{"tags":"x"}"#, "{}"), object(r#"{"p.tags":"x"}"#));
    assert_eq!(one_level("p", r#"{"tags":[1]}"#, "{}"), object("{}"));
    assert_eq!(one_level("p", r#"{"tags":null}"#, "{}"), object("{}"));
}

#[test]
fn flattening_twice_is_flattening_once() {
    let source = r#"{"a":{"b":"inner","c":1},"a.b":"outer"}"#;
    let json = parse_json(source).unwrap();
    let once = flattened("p", source, r#"{"p.a.b":0,"k":1}"#);
    let mut twice = flattened("p", source, r#"{"p.a.b":0,"k":1}"#);
    json_flatten("p", &json, &mut twice);
    assert_eq!(twice, once);
}

#[test]
fn leaves_with_dots_in_their_keys_override_what_was_there() {
    let source = r#"{"a.b":1,"a":{"c":2},"":{"d":3}}"#;
    assert_eq!(
        flattened("", source, r#"{"a.b":0,"e":4}"#),
        object(r#"{"a.b":1,"a.c":2,"d":3,"e":4}"#)
    );
    assert_eq!(
        flattened("p", source, r#"{"p.a.c":0,"e":4}"#),
        object(r#"{"p.a.b":1,"p.a.c":2,"p..d":3,"e":4}"#)
    );
}

#[test]
fn one_level_overrides_with_what_is_kept() {
    let source = r#"{"a.b":1,"a":{"b":2},"tags.x":true,"tags":{"y":{"z":"t"}},"":"e"}"#;
    let after = one_level("p", source, r#"{"p.a.b":0,"k":4}"#);
    assert_eq!(
        after,
        object(r#"{"p.a.b":1,"p.tags.x":true,"p.tags.y.z":"t","p.":"e","k":4}"#)
    );
    let mut twice = after.clone();
    json_flatten_one_level_deep("p", &parse_json(source).unwrap(), &mut twice);
    assert_eq!(twice, after);
    assert_eq!(one_level("", source, "{}").get("tags.y.z"), after.get("p.tags.y.z"));
}

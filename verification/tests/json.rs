use telemetry::codec::{
    display_json, from_value, object_to_value, parse_json, print_object, to_value,
};
use telemetry::json::{Json, JsonObject};

fn text(s: &str) -> Json {
    Json::String(s.to_string())
}

fn number(n: i64) -> Json {
    Json::Number(serde_json::Number::from(n))
}

fn object(members: Vec<(&str, Json)>) -> JsonObject {
    let mut object = JsonObject::new();
    for (key, value) in members {
        object.insert(key.to_string(), value);
    }
    object
}

fn keys(object: &JsonObject) -> Vec<String> {
    let mut keys = Vec::new();
    for i in 0..object.len() {
        keys.push(object.key_at(i).clone());
    }
    keys
}

#[test]
fn members_stand_in_key_order() {
    let object = object(vec![
        ("b", number(1)),
        ("a", number(2)),
        ("c", number(3)),
        ("a.b", number(4)),
        ("", number(5)),
        ("b", number(6)),
    ]);
    assert_eq!(keys(&object), vec!["", "a", "a.b", "b", "c"]);
    assert_eq!(object.len(), 5);
    assert_eq!(object.get("b"), Some(&number(6)));
    assert_eq!(object.get("a"), Some(&number(2)));
    assert_eq!(object.get("d"), None);
    assert_eq!(object.value_at(4), &number(3));
}

#[test]
fn the_order_of_insertion_does_not_matter() {
    let one = object(vec![("x", number(1)), ("y", number(2)), ("z", number(3))]);
    let other = object(vec![("z", number(3)), ("x", number(1)), ("y", number(2))]);
    assert_eq!(one, other);
}

#[test]
fn a_copy_is_independent() {
    let original = object(vec![("list", Json::Array(vec![Json::Null, Json::Bool(true)]))]);
    let mut copy = original.clone();
    assert_eq!(copy, original);
    copy.insert("more".to_string(), Json::Null);
    assert_eq!(original.len(), 1);
    assert_eq!(copy.len(), 2);
}

#[test]
fn values_go_to_serde_json_and_back() {
    let source = r#"{"z":null,"a":[1,-2,2.5,"x\n",{"k":true}],"m":{"y":{},"x":[]}}"#;
    let value: serde_json::Value = serde_json::from_str(source).unwrap();
    let json = from_value(&value);
    assert_eq!(to_value(&json), value);
    match json {
        Json::Object(members) => {
            assert_eq!(keys(&members), vec!["a", "m", "z"]);
            assert_eq!(object_to_value(&members), value);
        }
        other => panic!("{:?}", other),
    }
}

#[test]
fn json_text_is_read() {
    assert_eq!(parse_json("null"), Ok(Json::Null));
    assert_eq!(parse_json(" [true, \"a\"] "), Ok(Json::Array(vec![Json::Bool(true), text("a")])));
    assert_eq!(
        parse_json(r#"{"b":1,"a":"x"}"#),
        Ok(Json::Object(object(vec![("a", text("x")), ("b", number(1))])))
    );
    assert_eq!(
        parse_json("{"),
        Err("EOF while parsing an object at line 1 column 1".to_string())
    );
    assert_eq!(
        parse_json(""),
        Err("EOF while parsing a value at line 1 column 0".to_string())
    );
    assert_eq!(parse_json("nonsense"), Err("expected ident at line 1 column 2".to_string()));
}

#[test]
fn json_text_is_written() {
    let payload = object(vec![("b", Json::Array(vec![number(1), Json::Null])), ("a", text("\"x\""))]);
    assert_eq!(print_object(&payload), Ok(r#"{"a":"\"x\"","b":[1,null]}"#.to_string()));
    assert_eq!(display_json(&text("a.b")), "\"a.b\"");
    assert_eq!(display_json(&Json::Object(payload)), r#"{"a":"\"x\"","b":[1,null]}"#);
}

#[test]
fn what_is_written_is_read_back() {
    let payload = object(vec![("n", number(i64::MIN)), ("s", text("é\t")), ("l", Json::Array(vec![]))]);
    let printed = print_object(&payload).unwrap();
    assert_eq!(parse_json(&printed), Ok(Json::Object(payload)));
}

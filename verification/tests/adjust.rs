use telemetry::adjust::{
    adjust_account_id, adjust_agent_id, adjust_event_properties, adjust_pattern, adjust_payload,
    adjust_properties, adjust_request_properties, adjust_response_properties, adjust_session_id,
    adjust_tracking_id, adjust_useragent_tag, replace_integer, replace_session_tracking_label,
    MessagingPattern,
};
use telemetry::codec::parse_json;
use telemetry::json::{Json, JsonObject};
use telemetry::user_agent::{append_ua_keys_to_json, store_user_agent, UserAgent};

fn object(source: &str) -> JsonObject {
    match parse_json(source) {
        Ok(Json::Object(object)) => object,
        other => panic!("{:?}", other),
    }
}

fn text(object: &JsonObject, key: &str) -> String {
    match object.get(key) {
        Some(Json::String(s)) => s.clone(),
        other => panic!("{}: {:?}", key, other),
    }
}

const CHROME: &str = "Mozilla/5.0 (Windows NT 6.3; WOW64) AppleWebKit/537.36 (KHTML, like Gecko) Chrome/43.0.2357.130 Safari/537.36";

#[test]
fn an_account_id_is_taken_apart() {
    let mut acc = object(r#"{"a":"john.usr.example.org","b":"nodot","c":5}"#);
    adjust_account_id("a", &mut acc);
    adjust_account_id("b", &mut acc);
    adjust_account_id("c", &mut acc);
    adjust_account_id("d", &mut acc);
    assert_eq!(
        acc,
        object(
            r#"{"a":"john.usr.example.org","a.label":"john","a.audience":"usr.example.org","b":"nodot","c":5}"#
        )
    );
    assert_eq!(
        format!("{}.{}", text(&acc, "a.label"), text(&acc, "a.audience")),
        text(&acc, "a")
    );
}

#[test]
fn an_agent_id_is_taken_apart_with_its_account() {
    let mut acc = object(r#"{"a":"web.john.usr.example.org"}"#);
    adjust_agent_id("a", &mut acc);
    assert_eq!(
        acc,
        object(
            r#"{"a":"web.john.usr.example.org","a.label":"web","a.account_id":"john.usr.example.org","a.account_id.label":"john","a.account_id.audience":"usr.example.org"}"#
        )
    );
    let mut acc = object(r#"{"a":"web.john","b":"web"}"#);
    adjust_agent_id("a", &mut acc);
    adjust_agent_id("b", &mut acc);
    assert_eq!(
        acc,
        object(r#"{"a":"web.john","a.label":"web","a.account_id":"john","b":"web"}"#)
    );
}

#[test]
fn an_account_id_is_left_alone_where_there_is_no_agent_id() {
    let mut acc = object(r#"{"a":"web","a.account_id":"john.usr"}"#);
    adjust_agent_id("a", &mut acc);
    assert_eq!(acc, object(r#"{"a":"web","a.account_id":"john.usr"}"#));
}

#[test]
fn a_tracking_id_is_taken_apart_with_its_session() {
    let mut acc = object(r#"{"t":"id.agent.broker"}"#);
    adjust_tracking_id("t", &mut acc);
    assert_eq!(
        acc,
        object(
            r#"{"t":"id.agent.broker","t.label":"id","t.session_id":"agent.broker","t.session_id.agent_session_label":"agent","t.session_id.broker_session_label":"broker"}"#
        )
    );
    let mut acc = object(r#"{"s":"agent.broker.rest"}"#);
    adjust_session_id("s", &mut acc);
    assert_eq!(
        acc,
        object(
            r#"{"s":"agent.broker.rest","s.agent_session_label":"agent","s.broker_session_label":"broker.rest"}"#
        )
    );
}

#[test]
fn a_session_tracking_label_becomes_a_list() {
    let mut acc = object(r#"{"l":"a.b c.d","e":"","n":1}"#);
    replace_session_tracking_label("l", &mut acc);
    replace_session_tracking_label("e", &mut acc);
    replace_session_tracking_label("n", &mut acc);
    replace_session_tracking_label("x", &mut acc);
    assert_eq!(acc, object(r#"{"l":["a.b","c.d"],"e":[""],"n":1}"#));
    replace_session_tracking_label("l", &mut acc);
    assert_eq!(acc, object(r#"{"l":["a.b","c.d"],"e":[""],"n":1}"#));
}

#[test]
fn integers_that_came_as_text_become_numbers() {
    let mut acc = object(r#"{"a":"200","b":"-5","c":"x","d":1.5,"e":"9223372036854775808"}"#);
    for key in ["a", "b", "c", "d", "e", "f", "a"] {
        replace_integer(key, &mut acc);
    }
    assert_eq!(acc, object(r#"{"a":200,"b":-5,"c":"x","d":1.5,"e":"9223372036854775808"}"#));
}

#[test]
fn all_properties_are_adjusted() {
    let mut acc = object(
        r#"{
            "properties.agent_id":"web.john.usr",
            "properties.broker_agent_id":"alpha.broker.svc",
            "properties.tracking_id":"t.a.b",
            "properties.session_tracking_label":"x y",
            "properties.status":"1",
            "properties.broker_initial_processing_timestamp":"2",
            "properties.broker_processing_timestamp":"3",
            "properties.broker_timestamp":"4",
            "properties.local_initial_timediff":"-5",
            "properties.initial_timestamp":"6",
            "properties.timestamp":"7",
            "properties.authorization_time":"8",
            "properties.processing_time":"9",
            "properties.cumulative_authorization_time":"10",
            "properties.cumulative_processing_time":"11",
            "properties.method":"12"
        }"#,
    );
    adjust_properties(&mut acc);
    assert_eq!(
        acc,
        object(
            r#"{
                "properties.agent_id":"web.john.usr",
                "properties.agent_id.label":"web",
                "properties.agent_id.account_id":"john.usr",
                "properties.agent_id.account_id.label":"john",
                "properties.agent_id.account_id.audience":"usr",
                "properties.broker_agent_id":"alpha.broker.svc",
                "properties.broker_agent_id.label":"alpha",
                "properties.broker_agent_id.account_id":"broker.svc",
                "properties.broker_agent_id.account_id.label":"broker",
                "properties.broker_agent_id.account_id.audience":"svc",
                "properties.tracking_id":"t.a.b",
                "properties.tracking_id.label":"t",
                "properties.tracking_id.session_id":"a.b",
                "properties.tracking_id.session_id.agent_session_label":"a",
                "properties.tracking_id.session_id.broker_session_label":"b",
                "properties.session_tracking_label":["x","y"],
                "properties.status":1,
                "properties.broker_initial_processing_timestamp":2,
                "properties.broker_processing_timestamp":3,
                "properties.broker_timestamp":4,
                "properties.local_initial_timediff":-5,
                "properties.initial_timestamp":6,
                "properties.timestamp":7,
                "properties.authorization_time":8,
                "properties.processing_time":9,
                "properties.cumulative_authorization_time":10,
                "properties.cumulative_processing_time":11,
                "properties.method":"12"
            }"#
        )
    );
}

#[test]
fn the_kind_of_a_message_is_noted() {
    let mut acc = object(r#"{"properties.type":"mine","properties.status":"200","k":"1"}"#);
    adjust_request_properties(&mut acc);
    assert_eq!(acc, object(r#"{"properties.type":"request","properties.status":200,"k":"1"}"#));
    adjust_response_properties(&mut acc);
    assert_eq!(text(&acc, "properties.type"), "response");
    adjust_event_properties(&mut acc);
    assert_eq!(text(&acc, "properties.type"), "event");
}

#[test]
fn addresses_are_taken_apart_by_pattern() {
    let start = r#"{"pattern.from":"a.b.c","pattern.from.account_id":"d.e","pattern.to.account_id":"f.g","pattern.to.agent_id":"h.i.j"}"#;

    let mut acc = object(start);
    adjust_pattern(&MessagingPattern::Broadcast(Json::Null), &mut acc);
    assert_eq!(text(&acc, "pattern.from.account_id.label"), "d");
    assert_eq!(text(&acc, "pattern.from.account_id.audience"), "e");
    assert_eq!(acc.len(), 6);

    let mut acc = object(start);
    adjust_pattern(&MessagingPattern::Multicast(Json::Null), &mut acc);
    assert_eq!(text(&acc, "pattern.from.label"), "a");
    assert_eq!(text(&acc, "pattern.from.account_id"), "b.c");
    assert_eq!(text(&acc, "pattern.from.account_id.audience"), "c");
    assert_eq!(text(&acc, "pattern.to.account_id.label"), "f");
    assert_eq!(acc.len(), 9);

    let mut acc = object(start);
    adjust_pattern(&MessagingPattern::Unicast(Json::Null), &mut acc);
    assert_eq!(text(&acc, "pattern.from.label"), "a");
    assert_eq!(text(&acc, "pattern.from.audience"), "b.c");
    assert_eq!(text(&acc, "pattern.to.agent_id.account_id"), "i.j");
    assert_eq!(text(&acc, "pattern.to.agent_id.account_id.label"), "i");
    assert_eq!(acc.len(), 10);
}

#[test]
fn a_user_agent_is_taken_apart() {
    let mut acc = object("{}");
    append_ua_keys_to_json(CHROME, "ua", &mut acc);
    assert_eq!(
        acc,
        object(
            r#"{"ua.name":"Chrome","ua.category":"pc","ua.os":"Windows 8.1","ua.os_version":"NT 6.3","ua.browser_type":"browser","ua.version":"43.0.2357.130","ua.vendor":"Google"}"#
        )
    );
}

#[test]
fn a_user_agent_that_is_not_known_adds_nothing() {
    let mut acc = object(r#"{"k":1}"#);
    append_ua_keys_to_json("something else", "ua", &mut acc);
    assert_eq!(acc, object(r#"{"k":1}"#));
}

#[test]
fn the_parts_of_a_user_agent_are_stored() {
    let mut acc = object(r#"{"os":"mine"}"#);
    let ua = UserAgent {
        name: "n".to_string(),
        category: "c".to_string(),
        os: "o".to_string(),
        os_version: "ov".to_string(),
        browser_type: "b".to_string(),
        version: "v".to_string(),
        vendor: "w".to_string(),
    };
    store_user_agent(ua, "", &mut acc);
    assert_eq!(
        acc,
        object(
            r#"{"name":"n","category":"c","os":"o","os_version":"ov","browser_type":"b","version":"v","vendor":"w"}"#
        )
    );
}

#[test]
fn the_user_agent_tag_must_be_text() {
    let mut acc = object(r#"{"t":1}"#);
    adjust_useragent_tag("t", &mut acc);
    adjust_useragent_tag("u", &mut acc);
    assert_eq!(acc, object(r#"{"t":1}"#));
    acc.insert("t".to_string(), Json::String(CHROME.to_string()));
    adjust_useragent_tag("t", &mut acc);
    assert_eq!(text(&acc, "t.name"), "Chrome");
    assert_eq!(acc.len(), 8);
}

#[test]
fn the_payload_is_adjusted() {
    let mut acc = object(
        r#"{"payload.agent_id":"a.b.c","payload.created_by":"d.e.f","payload.x":"g.h"}"#,
    );
    acc.insert("payload.tags.user_agent".to_string(), Json::String(CHROME.to_string()));
    adjust_payload(&mut acc);
    assert_eq!(text(&acc, "payload.agent_id.account_id.audience"), "c");
    assert_eq!(text(&acc, "payload.created_by.label"), "d");
    assert_eq!(text(&acc, "payload.tags.user_agent.vendor"), "Google");
    assert_eq!(acc.len(), 4 + 4 + 4 + 7);
}

#[test]
fn without_payload_keys_the_payload_adjustment_does_nothing() {
    let mut acc = object(r#"{"pattern.from":"a.b.c","properties.agent_id":"d.e"}"#);
    adjust_payload(&mut acc);
    assert_eq!(acc, object(r#"{"pattern.from":"a.b.c","properties.agent_id":"d.e"}"#));
}

#[test]
fn adjusting_twice_is_adjusting_once() {
    let source = r#"{"properties.agent_id":"a.b.c","properties.broker_agent_id":"d.e.f","properties.tracking_id":"t.s.b","properties.session_tracking_label":"x y","properties.status":"200","properties.timestamp":"5","pattern.from":"a.b.c","pattern.to.account_id":"g.h","payload.agent_id":"a.b.c","payload.created_by":"d.e"}"#;
    let mut once = object(source);
    once.insert("payload.tags.user_agent".to_string(), Json::String(CHROME.to_string()));
    let pattern = MessagingPattern::Multicast(Json::Null);
    adjust_properties(&mut once);
    adjust_pattern(&pattern, &mut once);
    adjust_payload(&mut once);
    let mut twice = once.clone();
    adjust_properties(&mut twice);
    adjust_pattern(&pattern, &mut twice);
    adjust_payload(&mut twice);
    assert_eq!(twice, once);
    adjust_event_properties(&mut once);
    adjust_event_properties(&mut twice);
    adjust_event_properties(&mut twice);
    assert_eq!(twice, once);
}

#[test]
fn identifiers_under_the_empty_key_are_taken_apart_too() {
    let mut acc = object(r#"{"":"a.b.c"}"#);
    adjust_agent_id("", &mut acc);
    assert_eq!(
        acc,
        object(
            r#"{"":"a.b.c","label":"a","account_id":"b.c","account_id.label":"b","account_id.audience":"c"}"#
        )
    );
    let mut acc = object(r#"{"":"t.s.b"}"#);
    adjust_tracking_id("", &mut acc);
    assert_eq!(
        acc,
        object(
            r#"{"":"t.s.b","label":"t","session_id":"s.b","session_id.agent_session_label":"s","session_id.broker_session_label":"b"}"#
        )
    );
}

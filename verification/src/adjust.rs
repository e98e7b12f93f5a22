//! Adjusting flattened messages: identifiers are taken apart, numbers and lists that
//! came as text become numbers and lists.

use vstd::prelude::*;
use vstd::string::*;

use crate::codec::{integer_number, number_from_integer};
use crate::flatten::{flat_key, json_flatten_prefix};
use crate::json::{Json, JsonObject, JsonView};
use crate::text::{cut, fields, integer, parse_integer, split_all, split_once, texts};
use crate::user_agent::{append_ua_keys_to_json, user_agent_appended};

verus! {

/// The text under `key`, where there is one.
pub open spec fn text_at(key: Seq<char>, map: Map<Seq<char>, JsonView>) -> Option<Seq<char>> {
    if map.contains_key(key) && map[key] is String {
        Some(map[key]->String_0)
    } else {
        None
    }
}

/// A copy of the text under `key`, where there is one.
fn copy_text(key: &str, acc: &JsonObject) -> (found: Option<String>)
    ensures
        match found {
            Some(s) => text_at(key@, acc@) == Some(s@),
            None => text_at(key@, acc@) is None,
        },
{
    match acc.get(key) {
        Some(Json::String(val)) => Some(val.clone()),
        _ => None,
    }
}

/// The two halves of the text under `key`, cut at its first dot, where there are two.
pub open spec fn halves_at(
    key: Seq<char>,
    map: Map<Seq<char>, JsonView>,
) -> Option<(Seq<char>, Seq<char>)> {
    match text_at(key, map) {
        Some(s) => cut(s, '.'),
        None => None,
    }
}

/// `map` with the two halves of the text under `key` stored as its members `first` and
/// `second`; where there are no two halves, `map` itself.
pub open spec fn halved(
    key: Seq<char>,
    first: Seq<char>,
    second: Seq<char>,
    map: Map<Seq<char>, JsonView>,
) -> Map<Seq<char>, JsonView> {
    match halves_at(key, map) {
        Some((head, tail)) => map.insert(flat_key(first, key), JsonView::String(head)).insert(
            flat_key(second, key),
            JsonView::String(tail),
        ),
        None => map,
    }
}

/// Stores the two halves of the text under `key` as its members `first` and `second`,
/// and says whether there were two.
fn store_halves(key: &str, first: &str, second: &str, acc: &mut JsonObject) -> (cut_up: bool)
    ensures
        final(acc)@ == halved(key@, first@, second@, old(acc)@),
        cut_up == (halves_at(key@, old(acc)@) is Some),
{
    if let Some(val) = copy_text(key, acc) {
        if let Some((head, tail)) = split_once(val.as_str(), '.') {
            acc.insert(json_flatten_prefix(first, key), Json::String(head));
            acc.insert(json_flatten_prefix(second, key), Json::String(tail));
            return true;
        }
    }
    false
}

/// `map` with the account id under `key` taken apart into label and audience.
pub open spec fn account_id_adjusted(
    key: Seq<char>,
    map: Map<Seq<char>, JsonView>,
) -> Map<Seq<char>, JsonView> {
    halved(key, "label"@, "audience"@, map)
}

/// Takes the account id under `key`, `LABEL.AUDIENCE`, apart.
pub fn adjust_account_id(key: &str, acc: &mut JsonObject)
    ensures
        final(acc)@ == account_id_adjusted(key@, old(acc)@),
{
    store_halves(key, "label", "audience", acc);
}

/// `map` with the agent id under `key` taken apart into label and account id, and the
/// account id in turn.
pub open spec fn agent_id_adjusted(
    key: Seq<char>,
    map: Map<Seq<char>, JsonView>,
) -> Map<Seq<char>, JsonView> {
    if halves_at(key, map) is Some {
        account_id_adjusted(
            flat_key("account_id"@, key),
            halved(key, "label"@, "account_id"@, map),
        )
    } else {
        map
    }
}

/// Takes the agent id under `key`, `LABEL.ACCOUNT_ID`, apart.
pub fn adjust_agent_id(key: &str, acc: &mut JsonObject)
    ensures
        final(acc)@ == agent_id_adjusted(key@, old(acc)@),
{
    if store_halves(key, "label", "account_id", acc) {
        let next = json_flatten_prefix("account_id", key);
        adjust_account_id(next.as_str(), acc);
    }
}

/// `map` with the session id under `key` taken apart into the labels of the agent's and
/// the broker's session.
pub open spec fn session_id_adjusted(
    key: Seq<char>,
    map: Map<Seq<char>, JsonView>,
) -> Map<Seq<char>, JsonView> {
    halved(key, "agent_session_label"@, "broker_session_label"@, map)
}

/// Takes the session id under `key`, `AGENT_SESSION_LABEL.BROKER_SESSION_LABEL`, apart.
pub fn adjust_session_id(key: &str, acc: &mut JsonObject)
    ensures
        final(acc)@ == session_id_adjusted(key@, old(acc)@),
{
    store_halves(key, "agent_session_label", "broker_session_label", acc);
}

/// `map` with the tracking id under `key` taken apart into label and session id, and
/// the session id in turn.
pub open spec fn tracking_id_adjusted(
    key: Seq<char>,
    map: Map<Seq<char>, JsonView>,
) -> Map<Seq<char>, JsonView> {
    if halves_at(key, map) is Some {
        session_id_adjusted(
            flat_key("session_id"@, key),
            halved(key, "label"@, "session_id"@, map),
        )
    } else {
        map
    }
}

/// Takes the tracking id under `key`, `LABEL.SESSION_ID`, apart.
pub fn adjust_tracking_id(key: &str, acc: &mut JsonObject)
    ensures
        final(acc)@ == tracking_id_adjusted(key@, old(acc)@),
{
    if store_halves(key, "label", "session_id", acc) {
        let next = json_flatten_prefix("session_id", key);
        adjust_session_id(next.as_str(), acc);
    }
}

/// The texts of a list, as JSON values.
pub open spec fn string_values(parts: Seq<Seq<char>>) -> Seq<JsonView> {
    parts.map_values(|part: Seq<char>| JsonView::String(part))
}

/// `map` with the text under `key` replaced by the list of what stands between its
/// spaces.
pub open spec fn session_tracking_label_replaced(
    key: Seq<char>,
    map: Map<Seq<char>, JsonView>,
) -> Map<Seq<char>, JsonView> {
    match text_at(key, map) {
        Some(s) => map.insert(key, JsonView::Array(string_values(fields(s, ' ')))),
        None => map,
    }
}

/// Replaces the text under `key` by the list of what stands between its spaces.
pub fn replace_session_tracking_label(key: &str, acc: &mut JsonObject)
    ensures
        final(acc)@ == session_tracking_label_replaced(key@, old(acc)@),
{
    if let Some(val) = copy_text(key, acc) {
        let parts = split_all(val.as_str(), ' ');
        let mut items: Vec<Json> = Vec::new();
        let mut i: usize = 0;
        while i < parts.len()
            invariant
                i <= parts.len(),
                items.len() == i,
                forall|j: int|
                    0 <= j < i ==> (#[trigger] items@[j])@ == JsonView::String(parts@[j]@),
            decreases parts.len() - i,
        {
            items.push(Json::String(parts[i].clone()));
            i = i + 1;
        }
        let list = Json::Array(items);
        assert(list@->Array_0 =~= string_values(texts(parts@)));
        acc.insert(key.to_owned(), list);
    }
}

/// `map` with the text under `key` replaced by the integer that it writes, where it
/// writes one.
pub open spec fn integer_replaced(
    key: Seq<char>,
    map: Map<Seq<char>, JsonView>,
) -> Map<Seq<char>, JsonView> {
    match text_at(key, map) {
        Some(s) => match integer(s) {
            Some(n) => map.insert(key, JsonView::Number(integer_number(n as i64))),
            None => map,
        },
        None => map,
    }
}

/// Replaces the text under `key` by the integer that it writes, where it writes one.
pub fn replace_integer(key: &str, acc: &mut JsonObject)
    ensures
        final(acc)@ == integer_replaced(key@, old(acc)@),
{
    if let Some(val) = copy_text(key, acc) {
        if let Some(n) = parse_integer(val.as_str()) {
            acc.insert(key.to_owned(), Json::Number(number_from_integer(n)));
        }
    }
}

/// `map` with the adjustments that the properties of every message get.
pub open spec fn properties_adjusted(map: Map<Seq<char>, JsonView>) -> Map<Seq<char>, JsonView> {
    let map = agent_id_adjusted("properties.agent_id"@, map);
    let map = agent_id_adjusted("properties.broker_agent_id"@, map);
    let map = tracking_id_adjusted("properties.tracking_id"@, map);
    let map = session_tracking_label_replaced("properties.session_tracking_label"@, map);
    let map = integer_replaced("properties.status"@, map);
    let map = integer_replaced("properties.broker_initial_processing_timestamp"@, map);
    let map = integer_replaced("properties.broker_processing_timestamp"@, map);
    let map = integer_replaced("properties.broker_timestamp"@, map);
    let map = integer_replaced("properties.local_initial_timediff"@, map);
    let map = integer_replaced("properties.initial_timestamp"@, map);
    let map = integer_replaced("properties.timestamp"@, map);
    let map = integer_replaced("properties.authorization_time"@, map);
    let map = integer_replaced("properties.processing_time"@, map);
    let map = integer_replaced("properties.cumulative_authorization_time"@, map);
    integer_replaced("properties.cumulative_processing_time"@, map)
}

/// Adjusts what the properties of every message hold.
pub fn adjust_properties(acc: &mut JsonObject)
    ensures
        final(acc)@ == properties_adjusted(old(acc)@),
{
    adjust_agent_id("properties.agent_id", acc);
    adjust_agent_id("properties.broker_agent_id", acc);
    adjust_tracking_id("properties.tracking_id", acc);
    replace_session_tracking_label("properties.session_tracking_label", acc);
    replace_integer("properties.status", acc);
    replace_integer("properties.broker_initial_processing_timestamp", acc);
    replace_integer("properties.broker_processing_timestamp", acc);
    replace_integer("properties.broker_timestamp", acc);
    replace_integer("properties.local_initial_timediff", acc);
    replace_integer("properties.initial_timestamp", acc);
    replace_integer("properties.timestamp", acc);
    replace_integer("properties.authorization_time", acc);
    replace_integer("properties.processing_time", acc);
    replace_integer("properties.cumulative_authorization_time", acc);
    replace_integer("properties.cumulative_processing_time", acc);
}

/// `map` with the properties adjusted and the kind of message noted.
pub open spec fn typed_properties_adjusted(
    kind: Seq<char>,
    map: Map<Seq<char>, JsonView>,
) -> Map<Seq<char>, JsonView> {
    properties_adjusted(map.insert("properties.type"@, JsonView::String(kind)))
}

/// Adjusts the properties of a request.
pub fn adjust_request_properties(acc: &mut JsonObject)
    ensures
        final(acc)@ == typed_properties_adjusted("request"@, old(acc)@),
{
    acc.insert("properties.type".to_owned(), Json::String("request".to_owned()));
    adjust_properties(acc);
}

/// Adjusts the properties of a response.
pub fn adjust_response_properties(acc: &mut JsonObject)
    ensures
        final(acc)@ == typed_properties_adjusted("response"@, old(acc)@),
{
    acc.insert("properties.type".to_owned(), Json::String("response".to_owned()));
    adjust_properties(acc);
}

/// Adjusts the properties of an event.
pub fn adjust_event_properties(acc: &mut JsonObject)
    ensures
        final(acc)@ == typed_properties_adjusted("event"@, old(acc)@),
{
    acc.insert("properties.type".to_owned(), Json::String("event".to_owned()));
    adjust_properties(acc);
}

/// How a message was addressed, with the JSON form of its addresses.
#[derive(Debug, PartialEq)]
pub enum MessagingPattern {
    Broadcast(Json),
    Multicast(Json),
    Unicast(Json),
}

impl MessagingPattern {
    /// The JSON form of the addresses.
    pub open spec fn form(&self) -> JsonView {
        match self {
            MessagingPattern::Broadcast(json) => json@,
            MessagingPattern::Multicast(json) => json@,
            MessagingPattern::Unicast(json) => json@,
        }
    }

    /// The JSON form of the addresses.
    pub fn json(&self) -> (json: &Json)
        ensures
            json@ == self.form(),
            match self {
                MessagingPattern::Broadcast(addresses) => json == addresses,
                MessagingPattern::Multicast(addresses) => json == addresses,
                MessagingPattern::Unicast(addresses) => json == addresses,
            },
    {
        match self {
            MessagingPattern::Broadcast(json) => json,
            MessagingPattern::Multicast(json) => json,
            MessagingPattern::Unicast(json) => json,
        }
    }
}

/// `map` with the addresses of a message taken apart.
pub open spec fn pattern_adjusted(
    pattern: MessagingPattern,
    map: Map<Seq<char>, JsonView>,
) -> Map<Seq<char>, JsonView> {
    match pattern {
        MessagingPattern::Broadcast(_) => account_id_adjusted("pattern.from.account_id"@, map),
        MessagingPattern::Multicast(_) => account_id_adjusted(
            "pattern.to.account_id"@,
            agent_id_adjusted("pattern.from"@, map),
        ),
        MessagingPattern::Unicast(_) => agent_id_adjusted(
            "pattern.to.agent_id"@,
            account_id_adjusted("pattern.from"@, map),
        ),
    }
}

/// Takes the addresses of a message apart.
pub fn adjust_pattern(pattern: &MessagingPattern, acc: &mut JsonObject)
    ensures
        final(acc)@ == pattern_adjusted(*pattern, old(acc)@),
{
    match pattern {
        MessagingPattern::Broadcast(_) => {
            adjust_account_id("pattern.from.account_id", acc);
        },
        MessagingPattern::Multicast(_) => {
            adjust_agent_id("pattern.from", acc);
            adjust_account_id("pattern.to.account_id", acc);
        },
        MessagingPattern::Unicast(_) => {
            adjust_account_id("pattern.from", acc);
            adjust_agent_id("pattern.to.agent_id", acc);
        },
    }
}

/// `map` with what is known of the user agent under `key` stored below it.
pub open spec fn useragent_tag_adjusted(
    key: Seq<char>,
    map: Map<Seq<char>, JsonView>,
) -> Map<Seq<char>, JsonView> {
    match text_at(key, map) {
        Some(s) => user_agent_appended(s, key, map),
        None => map,
    }
}

/// Takes the user agent under `key` apart.
pub fn adjust_useragent_tag(key: &str, acc: &mut JsonObject)
    ensures
        final(acc)@ == useragent_tag_adjusted(key@, old(acc)@),
{
    if let Some(ua_str) = copy_text(key, acc) {
        append_ua_keys_to_json(ua_str.as_str(), key, acc);
    }
}

/// `map` with the payload of a message adjusted.
pub open spec fn payload_adjusted(map: Map<Seq<char>, JsonView>) -> Map<Seq<char>, JsonView> {
    useragent_tag_adjusted(
        "payload.tags.user_agent"@,
        agent_id_adjusted(
            "payload.created_by"@,
            agent_id_adjusted("payload.agent_id"@, map),
        ),
    )
}

/// Adjusts what the payload of a message holds.
pub fn adjust_payload(acc: &mut JsonObject)
    ensures
        final(acc)@ == payload_adjusted(old(acc)@),
{
    adjust_agent_id("payload.agent_id", acc);
    adjust_agent_id("payload.created_by", acc);
    adjust_useragent_tag("payload.tags.user_agent", acc);
}

} // verus!

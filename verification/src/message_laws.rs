//! What holds of every payload that comes of a message.

use vstd::prelude::*;

use crate::adjust::{payload_adjusted, MessagingPattern};
use crate::adjust_laws::{
    law_kind_is_noted, law_kinds_differ_only_in_type, law_pattern_stays_flat,
    law_pattern_touches_only_pattern, law_payload_adjustment_needs_payload,
    law_payload_adjustment_writes_only_below, law_payload_stays_flat,
    law_payload_touches_only_payload, law_properties_stay_flat,
    law_typed_properties_touch_only_properties, same_at,
};
use crate::agent::{multicast_topic, AgentId, API_VERSION};
use crate::codec::parsed_json;
use crate::flatten::{flattened, flattened_one_level};
use crate::flatten_laws::{
    below, dot_free, is_flat, kept, law_dot_free_leaves_are_unshared, law_flatten_is_flat,
    law_flatten_keeps_leaves, law_flatten_stores_only_leaves, law_flatten_touches_only_below,
    law_kept_is_leaf, law_leaf_keys_lie_apart, law_one_level_is_flat,
    law_one_level_overrides_with_kept, law_one_level_stores_only_kept,
    law_one_level_touches_only_below, law_unshared_leaves_are_unshared_kept, leaf, path_key,
};
use crate::json::JsonView;
use crate::message::{addressed, described, event_maps, message_maps, Message};

verus! {

/// The word that a payload notes for the kind of its message.
pub open spec fn kind_of(message: Message) -> Seq<char> {
    match message {
        Message::Request(_) => "request"@,
        Message::Response(_) => "response"@,
        _ => "event"@,
    }
}

/// The properties of a message.
pub open spec fn properties_of(message: Message) -> JsonView {
    match message {
        Message::Request(properties) => properties@,
        Message::Response(properties) => properties@,
        Message::Event { properties, .. } => properties@,
        Message::Malformed(_) => JsonView::Null,
    }
}

/// All that is known of a message apart from its payload lies below `pattern` or
/// `properties`.
pub proof fn law_description_has_two_sections(
    pattern: MessagingPattern,
    kind: Seq<char>,
    properties: JsonView,
    key: Seq<char>,
)
    requires
        described(pattern, kind, properties).contains_key(key),
    ensures
        below(key, "pattern"@) || below(key, "properties"@),
        !below(key, "payload"@),
{
    reveal_strlit("pattern");
    reveal_strlit("properties");
    reveal_strlit("payload");
    let empty = Map::<Seq<char>, JsonView>::empty();
    let form = flattened("pattern"@, pattern.form(), empty);
    let address = addressed(pattern);
    let both = flattened("properties"@, properties, address);
    if !below(key, "pattern"@) && !below(key, "properties"@) {
        law_flatten_touches_only_below("pattern"@, pattern.form(), empty, key);
        law_pattern_touches_only_pattern(pattern, form, key);
        law_flatten_touches_only_below("properties"@, properties, address, key);
        law_typed_properties_touch_only_properties(kind, both, key);
    }
    if below(key, "payload"@) {
        assert("payload"@[1] == key.take(7)[1] && "payload"@[2] == key.take(7)[2]);
        assert(below(key, "pattern"@) ==> "pattern"@[2] == key.take(7)[2]);
        assert(below(key, "properties"@) ==> "properties"@[1] == key.take(10)[1]);
    }
}

/// Adjusting the payload of what is known of a message otherwise changes nothing.
pub proof fn law_description_needs_no_payload_adjustment(
    pattern: MessagingPattern,
    kind: Seq<char>,
    properties: JsonView,
)
    ensures
        payload_adjusted(described(pattern, kind, properties)) == described(
            pattern,
            kind,
            properties,
        ),
{
    let known = described(pattern, kind, properties);
    assert forall|key: Seq<char>| #[trigger] known.contains_key(key) implies !below(
        key,
        "payload"@,
    ) by {
        law_description_has_two_sections(pattern, kind, properties, key);
    }
    law_payload_adjustment_needs_payload(known);
}

/// What is known of a request, a response and an event with the same address and the
/// same properties differs only in the kind that is noted.
pub proof fn law_descriptions_differ_only_in_type(
    pattern: MessagingPattern,
    kind: Seq<char>,
    other: Seq<char>,
    properties: JsonView,
)
    ensures
        described(pattern, kind, properties) == described(pattern, other, properties).insert(
            "properties.type"@,
            JsonView::String(kind),
        ),
{
    law_kinds_differ_only_in_type(
        kind,
        other,
        flattened("properties"@, properties, addressed(pattern)),
    );
}

/// Of a list of metrics every one becomes a payload of its own: what is known of the
/// event, and the metric flattened below `payload`.
pub proof fn law_every_metric_is_a_payload(
    me: AgentId,
    topic: Seq<char>,
    pattern: MessagingPattern,
    message: Message,
    metrics: Seq<JsonView>,
)
    requires
        message is Event,
        topic == multicast_topic(message->sender.text(), API_VERSION@, me.account_id.text()),
        parsed_json(message->payload@) == Ok::<JsonView, Seq<char>>(JsonView::Array(metrics)),
    ensures
        ({
            let sent = message_maps(me, topic, pattern, message);
            &&& sent is Ok
            &&& sent->Ok_0.len() == metrics.len()
            &&& forall|i: int|
                0 <= i < metrics.len() ==> #[trigger] sent->Ok_0[i] == flattened(
                    "payload"@,
                    metrics[i],
                    described(pattern, "event"@, properties_of(message)),
                )
        }),
{
}

/// Where no key of a payload holds a dot, adjusting it leaves every leaf as it was
/// stored.
proof fn lemma_adjustment_keeps_leaves(
    pattern: MessagingPattern,
    properties: JsonView,
    json: JsonView,
    raw: Map<Seq<char>, JsonView>,
    path: Seq<Seq<char>>,
    value: JsonView,
)
    requires
        dot_free(json),
        leaf(json, path, value),
        forall|key: Seq<char>| #[trigger]
            raw.contains_key(key) ==> described(pattern, "event"@, properties).contains_key(key)
                || stems_from_leaf(json, key),
    ensures
        same_at(payload_adjusted(raw), raw, path_key("payload"@, path)),
{
    let key = path_key("payload"@, path);
    reveal_strlit("payload");
    reveal_strlit("payload.agent_id");
    reveal_strlit("payload.created_by");
    reveal_strlit("payload.tags.user_agent");
    assert("payload.agent_id"@.take(7) =~= "payload"@);
    assert("payload.created_by"@.take(7) =~= "payload"@);
    assert("payload.tags.user_agent"@.take(7) =~= "payload"@);
    assert forall|at: Seq<char>| below(at, "payload"@) && #[trigger] raw.contains_key(at) implies
        !below(key, at) by {
        if described(pattern, "event"@, properties).contains_key(at) {
            law_description_has_two_sections(pattern, "event"@, properties, at);
        }
        let (q, w) = choose|q: Seq<Seq<char>>, w: JsonView|
            #[trigger] leaf(json, q, w) && path_key("payload"@, q) == at;
        law_leaf_keys_lie_apart("payload"@, json, q, w, path, value);
    }
    law_payload_adjustment_writes_only_below(raw, key);
}

/// Whether `key` is the key of a leaf of `json` below `payload`.
spec fn stems_from_leaf(json: JsonView, key: Seq<char>) -> bool {
    exists|q: Seq<Seq<char>>, w: JsonView|
        #[trigger] leaf(json, q, w) && path_key("payload"@, q) == key
}

/// Of a single metric everything is sent: where no key of it holds a dot, every leaf
/// stands under its path with its value.
pub proof fn law_single_metric_is_sent_in_full(
    me: AgentId,
    topic: Seq<char>,
    pattern: MessagingPattern,
    message: Message,
    json: JsonView,
    path: Seq<Seq<char>>,
    value: JsonView,
)
    requires
        message is Event,
        topic == multicast_topic(message->sender.text(), API_VERSION@, me.account_id.text()),
        parsed_json(message->payload@) == Ok::<JsonView, Seq<char>>(json),
        !(json is Array),
        dot_free(json),
        leaf(json, path, value),
    ensures
        ({
            let sent = message_maps(me, topic, pattern, message);
            let key = path_key("payload"@, path);
            &&& sent is Ok
            &&& sent->Ok_0.len() == 1
            &&& sent->Ok_0[0].contains_key(key)
            &&& sent->Ok_0[0][key] == value
        }),
{
    reveal_strlit("payload");
    let properties = properties_of(message);
    let known = described(pattern, "event"@, properties);
    let raw = flattened("payload"@, json, known);
    law_flatten_keeps_leaves("payload"@, json, known, path, value);
    assert forall|key: Seq<char>| #[trigger] raw.contains_key(key) implies known.contains_key(key)
        || stems_from_leaf(json, key) by {
        law_flatten_stores_only_leaves("payload"@, json, known, key);
    }
    lemma_adjustment_keeps_leaves(pattern, properties, json, raw, path, value);
}

/// Of a metric in a list everything is sent too.
pub proof fn law_listed_metric_is_sent_in_full(
    me: AgentId,
    topic: Seq<char>,
    pattern: MessagingPattern,
    message: Message,
    metrics: Seq<JsonView>,
    i: int,
    path: Seq<Seq<char>>,
    value: JsonView,
)
    requires
        message is Event,
        topic == multicast_topic(message->sender.text(), API_VERSION@, me.account_id.text()),
        parsed_json(message->payload@) == Ok::<JsonView, Seq<char>>(JsonView::Array(metrics)),
        0 <= i < metrics.len(),
        dot_free(metrics[i]),
        leaf(metrics[i], path, value),
    ensures
        ({
            let sent = message_maps(me, topic, pattern, message);
            let key = path_key("payload"@, path);
            &&& sent is Ok
            &&& sent->Ok_0.len() == metrics.len()
            &&& sent->Ok_0[i].contains_key(key)
            &&& sent->Ok_0[i][key] == value
        }),
{
    reveal_strlit("payload");
    let known = described(pattern, "event"@, properties_of(message));
    law_every_metric_is_a_payload(me, topic, pattern, message, metrics);
    law_flatten_keeps_leaves("payload"@, metrics[i], known, path, value);
}

/// Of an event that is no telemetry the scalars of the first level and what is in the
/// object under `tags` are sent: where no key of it holds a dot, each stands under its
/// path with its value.
pub proof fn law_other_event_is_sent_one_level_deep(
    me: AgentId,
    topic: Seq<char>,
    pattern: MessagingPattern,
    message: Message,
    json: JsonView,
    path: Seq<Seq<char>>,
    value: JsonView,
)
    requires
        message is Event,
        topic != multicast_topic(message->sender.text(), API_VERSION@, me.account_id.text()),
        parsed_json(message->payload@) == Ok::<JsonView, Seq<char>>(json),
        dot_free(json),
        kept(json, path, value),
    ensures
        ({
            let sent = message_maps(me, topic, pattern, message);
            let key = path_key("payload"@, path);
            &&& sent is Ok
            &&& sent->Ok_0.len() == 1
            &&& sent->Ok_0[0].contains_key(key)
            &&& sent->Ok_0[0][key] == value
        }),
{
    reveal_strlit("payload");
    let properties = properties_of(message);
    let known = described(pattern, "event"@, properties);
    let raw = flattened_one_level("payload"@, json, known);
    law_kept_is_leaf(json, path, value);
    law_dot_free_leaves_are_unshared("payload"@, json);
    law_unshared_leaves_are_unshared_kept("payload"@, json);
    law_one_level_overrides_with_kept("payload"@, json, known, path_key("payload"@, path));
    assert forall|key: Seq<char>| #[trigger] raw.contains_key(key) implies known.contains_key(key)
        || stems_from_leaf(json, key) by {
        law_one_level_stores_only_kept("payload"@, json, known, key);
        if !(known.contains_key(key) && raw[key] == known[key]) {
            let q = choose|q: Seq<Seq<char>>|
                key == path_key("payload"@, q) && #[trigger] kept(json, q, raw[key]);
            law_kept_is_leaf(json, q, raw[key]);
        }
    }
    lemma_adjustment_keeps_leaves(pattern, properties, json, raw, path, value);
}

/// What is known of a message apart from its payload holds no object.
pub proof fn law_description_is_flat(
    pattern: MessagingPattern,
    kind: Seq<char>,
    properties: JsonView,
)
    ensures
        is_flat(described(pattern, kind, properties)),
{
    let empty = Map::<Seq<char>, JsonView>::empty();
    law_flatten_is_flat("pattern"@, pattern.form(), empty);
    law_pattern_stays_flat(pattern, flattened("pattern"@, pattern.form(), empty));
    law_flatten_is_flat("properties"@, properties, addressed(pattern));
    law_properties_stay_flat(kind, flattened("properties"@, properties, addressed(pattern)));
}

/// Whether `payload` says of a message what its address and its properties say, and
/// adds only keys below `payload`.
pub open spec fn extends_description(
    payload: Map<Seq<char>, JsonView>,
    known: Map<Seq<char>, JsonView>,
) -> bool {
    forall|key: Seq<char>|
        !below(key, "payload"@) ==> #[trigger] same_at(payload, known, key)
}

/// Every payload of an event is flat, and adds to what is known of the event only keys
/// below `payload`.
pub proof fn law_event_payloads(
    telemetry: bool,
    pattern: MessagingPattern,
    properties: JsonView,
    payload: JsonView,
    i: int,
)
    requires
        0 <= i < event_maps(
            telemetry,
            payload,
            described(pattern, "event"@, properties),
        ).len(),
    ensures
        ({
            let known = described(pattern, "event"@, properties);
            let sent = event_maps(telemetry, payload, known)[i];
            is_flat(sent) && extends_description(sent, known)
        }),
{
    reveal_strlit("payload");
    let known = described(pattern, "event"@, properties);
    law_description_is_flat(pattern, "event"@, properties);
    let sent = event_maps(telemetry, payload, known)[i];
    if !telemetry {
        let raw = flattened_one_level("payload"@, payload, known);
        law_one_level_is_flat("payload"@, payload, known);
        law_payload_stays_flat(raw);
        assert forall|key: Seq<char>| !below(key, "payload"@) implies #[trigger] same_at(
            sent,
            known,
            key,
        ) by {
            law_one_level_touches_only_below("payload"@, payload, known, key);
            law_payload_touches_only_payload(raw, key);
        }
    } else if payload is Array {
        let metrics = payload->Array_0;
        assert(payload == JsonView::Array(metrics));
        law_flatten_is_flat("payload"@, metrics[i], known);
        assert forall|key: Seq<char>| !below(key, "payload"@) implies #[trigger] same_at(
            sent,
            known,
            key,
        ) by {
            law_flatten_touches_only_below("payload"@, metrics[i], known, key);
        }
    } else {
        let raw = flattened("payload"@, payload, known);
        law_flatten_is_flat("payload"@, payload, known);
        law_payload_stays_flat(raw);
        assert forall|key: Seq<char>| !below(key, "payload"@) implies #[trigger] same_at(
            sent,
            known,
            key,
        ) by {
            law_flatten_touches_only_below("payload"@, payload, known, key);
            law_payload_touches_only_payload(raw, key);
        }
    }
}

/// Every payload of every message is flat, notes the kind of the message, says what its
/// address and its properties say, and has no key outside the three sections.
pub proof fn law_payloads(
    me: AgentId,
    topic: Seq<char>,
    pattern: MessagingPattern,
    message: Message,
    i: int,
)
    requires
        message_maps(me, topic, pattern, message) is Ok,
        0 <= i < message_maps(me, topic, pattern, message)->Ok_0.len(),
    ensures
        ({
            let known = described(pattern, kind_of(message), properties_of(message));
            let sent = message_maps(me, topic, pattern, message)->Ok_0[i];
            &&& is_flat(sent)
            &&& extends_description(sent, known)
            &&& sent.contains_key("properties.type"@)
            &&& sent["properties.type"@] == JsonView::String(kind_of(message))
            &&& forall|key: Seq<char>| #[trigger]
                sent.contains_key(key) ==> below(key, "pattern"@) || below(key, "properties"@)
                    || below(key, "payload"@)
        }),
{
    let kind = kind_of(message);
    let properties = properties_of(message);
    let known = described(pattern, kind, properties);
    let sent = message_maps(me, topic, pattern, message)->Ok_0[i];
    if let Message::Event { payload, .. } = message {
        let json = parsed_json(payload@)->Ok_0;
        let telemetry = topic == multicast_topic(
            message->sender.text(),
            API_VERSION@,
            me.account_id.text(),
        );
        law_event_payloads(telemetry, pattern, properties, json, i);
    } else {
        law_description_is_flat(pattern, kind, properties);
    }
    reveal_strlit("payload");
    reveal_strlit("properties.type");
    assert(!below("properties.type"@, "payload"@)) by {
        assert("properties.type"@.take(7)[1] == 'r');
    }
    law_kind_is_noted(kind, flattened("properties"@, properties, addressed(pattern)));
    assert(same_at(sent, known, "properties.type"@));
    assert forall|key: Seq<char>| #[trigger] sent.contains_key(key) implies below(key, "pattern"@)
        || below(key, "properties"@) || below(key, "payload"@) by {
        if !below(key, "payload"@) {
            assert(same_at(sent, known, key));
            law_description_has_two_sections(pattern, kind, properties, key);
        }
    }
}

} // verus!

//! What is sent of a message, key by key.

use vstd::prelude::*;

use crate::adjust::{
    account_id_adjusted, agent_id_adjusted, pattern_adjusted, payload_adjusted,
    typed_properties_adjusted, MessagingPattern,
};
use crate::adjust_laws::{
    agree_at, law_addresses_are_adjusted_one_by_one, law_other_addresses_stay,
    law_pattern_touches_only_pattern, law_sections_are_adjusted_apart,
    law_typed_properties_touch_only_properties, same_at,
};
use crate::agent::{multicast_topic, AgentId, API_VERSION};
use crate::codec::{integer_number, json_error_message, parsed_value};
use crate::flatten::{flattened, flattened_one_level};
use crate::flatten_laws::{
    below, law_flatten_overrides, law_flatten_touches_only_below, law_one_level_overrides,
    lemma_below_transitive,
};
use crate::json::{JsonObject, JsonView};
use crate::message::{addressed, described, maps, message_maps, Message, MessageErrorView};
use crate::message_laws::{
    kind_of, law_description_has_two_sections, law_payloads, properties_of,
};
use crate::outcome_laws::{
    holds, is_measured, law_agent_properties_are_taken_apart,
    law_label_property_becomes_a_list, law_measured_properties_become_numbers,
    law_payload_ids_are_taken_apart, law_payload_user_agent_gives_its_parts,
    law_tracking_property_is_taken_apart, lemma_account_parts, lemma_agent_parts,
    lemma_members_below, member, spaced,
};
use crate::text_laws::writes;
use crate::user_agent::parsed_user_agent;

verus! {

/// The JSON form of the addresses of a message.
pub open spec fn form_of(pattern: MessagingPattern) -> JsonView {
    match pattern {
        MessagingPattern::Broadcast(json) => json@,
        MessagingPattern::Multicast(json) => json@,
        MessagingPattern::Unicast(json) => json@,
    }
}

/// The topic of the telemetry that `sender` sends to `me`, written out.
pub open spec fn telemetry_topic_of(sender: AgentId, me: AgentId) -> Seq<char> {
    "agents/"@ + sender.label@ + "."@ + sender.account_id.label@ + "."@
        + sender.account_id.audience@ + "/api/v1/out/"@ + me.account_id.label@ + "."@
        + me.account_id.audience@
}

/// The topic of telemetry names the sending agent, the version of the API, and the
/// account of the receiver.
pub proof fn law_telemetry_topic_is_written_out(sender: AgentId, me: AgentId)
    ensures
        multicast_topic(sender.text(), API_VERSION@, me.account_id.text()) == telemetry_topic_of(
            sender,
            me,
        ),
{
    reveal_strlit(".");
    reveal_strlit("v1");
    reveal_strlit("/api/");
    reveal_strlit("/out/");
    reveal_strlit("/api/v1/out/");
    assert("."@ =~= seq!['.']);
    assert("/api/v1/out/"@ =~= "/api/"@ + "v1"@ + "/out/"@);
    assert(multicast_topic(sender.text(), API_VERSION@, me.account_id.text())
        =~= telemetry_topic_of(sender, me));
}

/// The payloads that are sent of a message.
pub open spec fn sent_of(
    me: AgentId,
    topic: Seq<char>,
    pattern: MessagingPattern,
    message: Message,
) -> Seq<Map<Seq<char>, JsonView>> {
    message_maps(me, topic, pattern, message)->Ok_0
}

/// The members of several objects are those of each, one by one.
pub proof fn law_maps_are_one_by_one(objects: Seq<JsonObject>)
    ensures
        maps(objects).len() == objects.len(),
        forall|i: int| 0 <= i < objects.len() ==> #[trigger] maps(objects)[i] == objects[i]@,
{
}

/// A request and a response give one payload each. So does an event whose payload can be
/// read, but for telemetry in a list, which gives one payload for each metric. Where the
/// payload or the envelope cannot be read, nothing is sent and the reason is kept.
pub proof fn law_how_much_is_sent(
    me: AgentId,
    topic: Seq<char>,
    pattern: MessagingPattern,
    message: Message,
)
    ensures
        match message {
            Message::Request(_) => message_maps(me, topic, pattern, message) is Ok && sent_of(
                me,
                topic,
                pattern,
                message,
            ).len() == 1,
            Message::Response(_) => message_maps(me, topic, pattern, message) is Ok && sent_of(
                me,
                topic,
                pattern,
                message,
            ).len() == 1,
            Message::Event { sender, properties, payload } => match parsed_value(payload@) {
                Ok(json) => message_maps(me, topic, pattern, message) is Ok && sent_of(
                    me,
                    topic,
                    pattern,
                    message,
                ).len() == if topic == telemetry_topic_of(sender, me) && json is Array {
                    json->Array_0.len()
                } else {
                    1
                },
                Err(error) => message_maps(me, topic, pattern, message) == Err::<
                    Seq<Map<Seq<char>, JsonView>>,
                    MessageErrorView,
                >(
                    MessageErrorView::Payload(
                        "error deserializing payload of an envelope, "@ + json_error_message(
                            error,
                        ),
                    ),
                ),
            },
            Message::Malformed(cause) => message_maps(me, topic, pattern, message) == Err::<
                Seq<Map<Seq<char>, JsonView>>,
                MessageErrorView,
            >(MessageErrorView::Envelope(cause@)),
        },
{
    if let Message::Event { sender, .. } = message {
        law_telemetry_topic_is_written_out(sender, me);
    }
}

/// What every payload has below `pattern` are the flattened addresses, taken apart.
pub proof fn law_addresses_are_sent(
    me: AgentId,
    topic: Seq<char>,
    pattern: MessagingPattern,
    message: Message,
    i: int,
    key: Seq<char>,
)
    requires
        message_maps(me, topic, pattern, message) is Ok,
        0 <= i < sent_of(me, topic, pattern, message).len(),
        below(key, "pattern"@),
    ensures
        agree_at(
            sent_of(me, topic, pattern, message)[i],
            pattern_adjusted(
                pattern,
                flattened("pattern"@, form_of(pattern), Map::empty()),
            ),
            key,
        ),
{
    reveal_strlit("pattern");
    reveal_strlit("properties");
    reveal_strlit("payload");
    let kind = kind_of(message);
    let properties = properties_of(message);
    let known = described(pattern, kind, properties);
    let address = addressed(pattern);
    law_payloads(me, topic, pattern, message, i);
    assert(key.take(7)[2] == 't');
    assert(!below(key, "payload"@)) by {
        if below(key, "payload"@) {
            assert(key.take(7)[2] == 'y');
        }
    }
    assert(!below(key, "properties"@)) by {
        if below(key, "properties"@) {
            assert(key.take(10)[2] == 'o');
            assert(key.take(7)[2] == key[2]);
        }
    }
    assert(same_at(sent_of(me, topic, pattern, message)[i], known, key));
    law_flatten_touches_only_below("properties"@, properties, address, key);
    law_typed_properties_touch_only_properties(
        kind,
        flattened("properties"@, properties, address),
        key,
    );
}

/// What every payload has below `properties` are the flattened properties, adjusted, and
/// the kind of the message.
pub proof fn law_properties_are_sent(
    me: AgentId,
    topic: Seq<char>,
    pattern: MessagingPattern,
    message: Message,
    i: int,
    key: Seq<char>,
)
    requires
        message_maps(me, topic, pattern, message) is Ok,
        0 <= i < sent_of(me, topic, pattern, message).len(),
        below(key, "properties"@),
    ensures
        agree_at(
            sent_of(me, topic, pattern, message)[i],
            typed_properties_adjusted(
                kind_of(message),
                flattened("properties"@, properties_of(message), Map::empty()),
            ),
            key,
        ),
{
    reveal_strlit("pattern");
    reveal_strlit("properties");
    reveal_strlit("payload");
    let kind = kind_of(message);
    let properties = properties_of(message);
    let known = described(pattern, kind, properties);
    let address = addressed(pattern);
    let empty = Map::<Seq<char>, JsonView>::empty();
    law_payloads(me, topic, pattern, message, i);
    assert(!below(key, "payload"@)) by {
        if below(key, "payload"@) {
            assert(key.take(7)[1] == 'a');
            assert(key.take(10)[1] == 'r');
        }
    }
    assert(same_at(sent_of(me, topic, pattern, message)[i], known, key));
    let a = flattened("properties"@, properties, address);
    let b = flattened("properties"@, properties, empty);
    law_flatten_overrides("properties"@, properties, address);
    assert forall|k: Seq<char>| below(k, "properties"@) implies #[trigger] agree_at(a, b, k) by {
        lemma_no_property_in_address(pattern, k);
    }
    law_sections_are_adjusted_apart(pattern, kind, a, b, key);
}

proof fn lemma_no_property_in_address(pattern: MessagingPattern, key: Seq<char>)
    requires
        below(key, "properties"@),
    ensures
        !addressed(pattern).contains_key(key),
{
    reveal_strlit("pattern");
    reveal_strlit("properties");
    assert(key.take(10)[2] == 'o');
    assert(!below(key, "pattern"@)) by {
        if below(key, "pattern"@) {
            assert(key.take(7)[2] == 't');
        }
    }
    let empty = Map::<Seq<char>, JsonView>::empty();
    law_flatten_touches_only_below("pattern"@, pattern.form(), empty, key);
    law_pattern_touches_only_pattern(
        pattern,
        flattened("pattern"@, pattern.form(), empty),
        key,
    );
}

/// What an event's payload leaves below `payload`: a metric of a list as it is, any
/// other telemetry adjusted, and of other events the first level, adjusted.
pub proof fn law_event_payload_is_sent(
    me: AgentId,
    topic: Seq<char>,
    pattern: MessagingPattern,
    message: Message,
    json: JsonView,
    i: int,
    key: Seq<char>,
)
    requires
        message is Event,
        parsed_value(message->payload@) == Ok::<JsonView, serde_json::Error>(json),
        0 <= i < sent_of(me, topic, pattern, message).len(),
        below(key, "payload"@),
    ensures
        ({
            let sent = sent_of(me, topic, pattern, message)[i];
            let telemetry = topic == telemetry_topic_of(message->sender, me);
            let empty = Map::<Seq<char>, JsonView>::empty();
            &&& telemetry && json is Array ==> agree_at(
                sent,
                flattened("payload"@, json->Array_0[i], empty),
                key,
            )
            &&& telemetry && !(json is Array) ==> agree_at(
                sent,
                payload_adjusted(flattened("payload"@, json, empty)),
                key,
            )
            &&& !telemetry ==> agree_at(
                sent,
                payload_adjusted(flattened_one_level("payload"@, json, empty)),
                key,
            )
        }),
{
    law_telemetry_topic_is_written_out(message->sender, me);
    let empty = Map::<Seq<char>, JsonView>::empty();
    let known = described(pattern, "event"@, properties_of(message));
    assert forall|k: Seq<char>| below(k, "payload"@) implies !(#[trigger] known.contains_key(k)) by {
        if known.contains_key(k) {
            law_description_has_two_sections(pattern, "event"@, properties_of(message), k);
        }
    }
    if topic == telemetry_topic_of(message->sender, me) {
        if json is Array {
            law_flatten_overrides("payload"@, json->Array_0[i], known);
        } else {
            let a = flattened("payload"@, json, known);
            let b = flattened("payload"@, json, empty);
            law_flatten_overrides("payload"@, json, known);
            assert forall|k: Seq<char>| below(k, "payload"@) implies #[trigger] agree_at(
                a,
                b,
                k,
            ) by {
                assert(!known.contains_key(k));
            }
            law_sections_are_adjusted_apart(pattern, "event"@, a, b, key);
        }
    } else {
        let a = flattened_one_level("payload"@, json, known);
        let b = flattened_one_level("payload"@, json, empty);
        law_one_level_overrides("payload"@, json, known);
        assert forall|k: Seq<char>| below(k, "payload"@) implies #[trigger] agree_at(a, b, k) by {
            assert(!known.contains_key(k));
        }
        law_sections_are_adjusted_apart(pattern, "event"@, a, b, key);
    }
}

/// Of the payload of a request or a response nothing is sent.
pub proof fn law_no_payload_of_requests_and_responses(
    me: AgentId,
    topic: Seq<char>,
    pattern: MessagingPattern,
    message: Message,
    i: int,
    key: Seq<char>,
)
    requires
        message is Request || message is Response,
        0 <= i < sent_of(me, topic, pattern, message).len(),
        below(key, "payload"@),
    ensures
        !sent_of(me, topic, pattern, message)[i].contains_key(key),
{
    let known = described(pattern, kind_of(message), properties_of(message));
    if known.contains_key(key) {
        law_description_has_two_sections(
            pattern,
            kind_of(message),
            properties_of(message),
            key,
        );
    }
}

/// Whether `sent` has under `key` an agent id and its parts.
pub open spec fn has_agent_id(
    sent: Map<Seq<char>, JsonView>,
    key: Seq<char>,
    label: Seq<char>,
    account_label: Seq<char>,
    audience: Seq<char>,
) -> bool {
    &&& holds(sent, key, label + "."@ + (account_label + "."@ + audience))
    &&& holds(sent, key + ".label"@, label)
    &&& holds(sent, key + ".account_id"@, account_label + "."@ + audience)
    &&& holds(sent, key + ".account_id.label"@, account_label)
    &&& holds(sent, key + ".account_id.audience"@, audience)
}

/// Whether `sent` has under `key` an account id and its parts.
pub open spec fn has_account_id(
    sent: Map<Seq<char>, JsonView>,
    key: Seq<char>,
    label: Seq<char>,
    audience: Seq<char>,
) -> bool {
    &&& holds(sent, key, label + "."@ + audience)
    &&& holds(sent, key + ".label"@, label)
    &&& holds(sent, key + ".audience"@, audience)
}

/// The addresses of a message that name agents, by how it was addressed.
pub open spec fn names_agent(pattern: MessagingPattern, key: Seq<char>) -> bool {
    ||| pattern is Multicast && key == "pattern.from"@
    ||| pattern is Unicast && key == "pattern.to.agent_id"@
}

/// The addresses of a message that name accounts, by how it was addressed.
pub open spec fn names_account(pattern: MessagingPattern, key: Seq<char>) -> bool {
    ||| pattern is Broadcast && key == "pattern.from.account_id"@
    ||| pattern is Multicast && key == "pattern.to.account_id"@
    ||| pattern is Unicast && key == "pattern.from"@
}

proof fn lemma_address_below(pattern: MessagingPattern, key: Seq<char>)
    requires
        names_agent(pattern, key) || names_account(pattern, key),
    ensures
        key.len() > 0,
        below(key, "pattern"@),
        forall|k: Seq<char>| #[trigger] below(k, key) ==> below(k, "pattern"@),
{
    reveal_strlit("pattern");
    reveal_strlit("pattern.from");
    reveal_strlit("pattern.from.account_id");
    reveal_strlit("pattern.to.account_id");
    reveal_strlit("pattern.to.agent_id");
    assert(key.take(7) =~= "pattern"@);
    assert forall|k: Seq<char>| #[trigger] below(k, key) implies below(k, "pattern"@) by {
        lemma_below_transitive(k, key, "pattern"@);
    }
}

/// In every payload the agent that sent a multicast message, and the one that a unicast
/// message goes to, stand with label, account id, and label and audience of that.
pub proof fn law_agent_addresses_are_sent_in_parts(
    me: AgentId,
    topic: Seq<char>,
    pattern: MessagingPattern,
    message: Message,
    i: int,
    key: Seq<char>,
    label: Seq<char>,
    account_label: Seq<char>,
    audience: Seq<char>,
)
    requires
        message_maps(me, topic, pattern, message) is Ok,
        0 <= i < sent_of(me, topic, pattern, message).len(),
        names_agent(pattern, key),
        !label.contains('.'),
        !account_label.contains('.'),
        holds(
            flattened("pattern"@, form_of(pattern), Map::empty()),
            key,
            label + "."@ + (account_label + "."@ + audience),
        ),
    ensures
        has_agent_id(
            sent_of(me, topic, pattern, message)[i],
            key,
            label,
            account_label,
            audience,
        ),
{
    let form = flattened("pattern"@, form_of(pattern), Map::empty());
    lemma_address_below(pattern, key);
    lemma_agent_parts(key, form, label, account_label, audience);
    lemma_members_below(key);
    lemma_address_sent(me, topic, pattern, message, i, key, key);
    lemma_address_sent(me, topic, pattern, message, i, key, member(key, ".label"@));
    lemma_address_sent(me, topic, pattern, message, i, key, member(key, ".account_id"@));
    lemma_address_sent(me, topic, pattern, message, i, key, member(key, ".account_id.label"@));
    lemma_address_sent(me, topic, pattern, message, i, key, member(key, ".account_id.audience"@));
}

/// In every payload the account that a broadcast or unicast message comes from, and the
/// one that a multicast message goes to, stand with label and audience.
pub proof fn law_account_addresses_are_sent_in_parts(
    me: AgentId,
    topic: Seq<char>,
    pattern: MessagingPattern,
    message: Message,
    i: int,
    key: Seq<char>,
    label: Seq<char>,
    audience: Seq<char>,
)
    requires
        message_maps(me, topic, pattern, message) is Ok,
        0 <= i < sent_of(me, topic, pattern, message).len(),
        names_account(pattern, key),
        !label.contains('.'),
        holds(
            flattened("pattern"@, form_of(pattern), Map::empty()),
            key,
            label + "."@ + audience,
        ),
    ensures
        has_account_id(sent_of(me, topic, pattern, message)[i], key, label, audience),
{
    let form = flattened("pattern"@, form_of(pattern), Map::empty());
    lemma_address_below(pattern, key);
    lemma_account_parts(key, form, label, audience);
    lemma_members_below(key);
    lemma_address_sent(me, topic, pattern, message, i, key, key);
    lemma_address_sent(me, topic, pattern, message, i, key, member(key, ".label"@));
    lemma_address_sent(me, topic, pattern, message, i, key, member(key, ".audience"@));
}

proof fn lemma_address_sent(
    me: AgentId,
    topic: Seq<char>,
    pattern: MessagingPattern,
    message: Message,
    i: int,
    at: Seq<char>,
    key: Seq<char>,
)
    requires
        message_maps(me, topic, pattern, message) is Ok,
        0 <= i < sent_of(me, topic, pattern, message).len(),
        names_agent(pattern, at) || names_account(pattern, at),
        key == at || below(key, at),
    ensures
        names_agent(pattern, at) ==> agree_at(
            sent_of(me, topic, pattern, message)[i],
            agent_id_adjusted(
                at,
                flattened("pattern"@, form_of(pattern), Map::empty()),
            ),
            key,
        ),
        names_account(pattern, at) ==> agree_at(
            sent_of(me, topic, pattern, message)[i],
            account_id_adjusted(
                at,
                flattened("pattern"@, form_of(pattern), Map::empty()),
            ),
            key,
        ),
{
    let form = flattened("pattern"@, form_of(pattern), Map::empty());
    lemma_address_below(pattern, at);
    law_addresses_are_sent(me, topic, pattern, message, i, key);
    law_addresses_are_adjusted_one_by_one(pattern, form, key);
}

/// Every other key of the addresses is sent as it was.
pub proof fn law_other_addresses_are_sent_as_they_are(
    me: AgentId,
    topic: Seq<char>,
    pattern: MessagingPattern,
    message: Message,
    i: int,
    key: Seq<char>,
)
    requires
        message_maps(me, topic, pattern, message) is Ok,
        0 <= i < sent_of(me, topic, pattern, message).len(),
        below(key, "pattern"@),
        forall|at: Seq<char>|
            #![trigger names_agent(pattern, at)]
            #![trigger names_account(pattern, at)]
            names_agent(pattern, at) || names_account(pattern, at) ==> key != at && !below(key, at),
    ensures
        agree_at(
            sent_of(me, topic, pattern, message)[i],
            flattened("pattern"@, form_of(pattern), Map::empty()),
            key,
        ),
{
    let form = flattened("pattern"@, form_of(pattern), Map::empty());
    law_addresses_are_sent(me, topic, pattern, message, i, key);
    assert(pattern is Broadcast ==> names_account(pattern, "pattern.from.account_id"@));
    assert(pattern is Multicast ==> names_agent(pattern, "pattern.from"@) && names_account(
        pattern,
        "pattern.to.account_id"@,
    ));
    assert(pattern is Unicast ==> names_account(pattern, "pattern.from"@) && names_agent(
        pattern,
        "pattern.to.agent_id"@,
    ));
    law_other_addresses_stay(pattern, form, key);
}

/// The flattened properties of a message.
pub open spec fn flat_properties(message: Message) -> Map<Seq<char>, JsonView> {
    flattened("properties"@, properties_of(message), Map::empty())
}

/// In every payload of every message the status, the timestamps and the durations that
/// write integers of 64 bits stand as numbers.
pub proof fn law_measured_properties_are_sent_as_numbers(
    me: AgentId,
    topic: Seq<char>,
    pattern: MessagingPattern,
    message: Message,
    i: int,
    key: Seq<char>,
    text: Seq<char>,
    value: i64,
)
    requires
        message_maps(me, topic, pattern, message) is Ok,
        0 <= i < sent_of(me, topic, pattern, message).len(),
        is_measured(key),
        holds(flat_properties(message), key, text),
        writes(text, value as int),
    ensures
        sent_of(me, topic, pattern, message)[i].contains_key(key),
        sent_of(me, topic, pattern, message)[i][key] == JsonView::Number(integer_number(value)),
{
    lemma_measured_below(key);
    law_properties_are_sent(me, topic, pattern, message, i, key);
    law_measured_properties_become_numbers(kind_of(message), flat_properties(message), key);
}

proof fn lemma_measured_below(key: Seq<char>)
    requires
        is_measured(key),
    ensures
        below(key, "properties"@),
{
    reveal_strlit("properties");
    reveal_strlit("properties.status");
    reveal_strlit("properties.broker_initial_processing_timestamp");
    reveal_strlit("properties.broker_processing_timestamp");
    reveal_strlit("properties.broker_timestamp");
    reveal_strlit("properties.local_initial_timediff");
    reveal_strlit("properties.initial_timestamp");
    reveal_strlit("properties.timestamp");
    reveal_strlit("properties.authorization_time");
    reveal_strlit("properties.processing_time");
    reveal_strlit("properties.cumulative_authorization_time");
    reveal_strlit("properties.cumulative_processing_time");
    assert(key.take(10) =~= "properties"@);
}

/// In every payload of every message the ids of its agent and of its broker's agent stand
/// with their parts.
pub proof fn law_agent_properties_are_sent_in_parts(
    me: AgentId,
    topic: Seq<char>,
    pattern: MessagingPattern,
    message: Message,
    i: int,
    key: Seq<char>,
    label: Seq<char>,
    account_label: Seq<char>,
    audience: Seq<char>,
)
    requires
        message_maps(me, topic, pattern, message) is Ok,
        0 <= i < sent_of(me, topic, pattern, message).len(),
        key == "properties.agent_id"@ || key == "properties.broker_agent_id"@,
        !label.contains('.'),
        !account_label.contains('.'),
        holds(
            flat_properties(message),
            key,
            label + "."@ + (account_label + "."@ + audience),
        ),
    ensures
        has_agent_id(
            sent_of(me, topic, pattern, message)[i],
            key,
            label,
            account_label,
            audience,
        ),
{
    reveal_strlit("properties");
    reveal_strlit("properties.agent_id");
    reveal_strlit("properties.broker_agent_id");
    assert(key.take(10) =~= "properties"@);
    lemma_members_below(key);
    let k1 = member(key, ".label"@);
    let k2 = member(key, ".account_id"@);
    let k3 = member(key, ".account_id.label"@);
    let k4 = member(key, ".account_id.audience"@);
    lemma_below_transitive(k1, key, "properties"@);
    lemma_below_transitive(k2, key, "properties"@);
    lemma_below_transitive(k3, key, "properties"@);
    lemma_below_transitive(k4, key, "properties"@);
    law_agent_properties_are_taken_apart(
        kind_of(message),
        flat_properties(message),
        key,
        label,
        account_label,
        audience,
    );
    law_properties_are_sent(me, topic, pattern, message, i, key);
    law_properties_are_sent(me, topic, pattern, message, i, k1);
    law_properties_are_sent(me, topic, pattern, message, i, k2);
    law_properties_are_sent(me, topic, pattern, message, i, k3);
    law_properties_are_sent(me, topic, pattern, message, i, k4);
}

/// In every payload of every message the tracking id stands with its parts.
pub proof fn law_tracking_id_is_sent_in_parts(
    me: AgentId,
    topic: Seq<char>,
    pattern: MessagingPattern,
    message: Message,
    i: int,
    label: Seq<char>,
    agent_session: Seq<char>,
    broker_session: Seq<char>,
)
    requires
        message_maps(me, topic, pattern, message) is Ok,
        0 <= i < sent_of(me, topic, pattern, message).len(),
        !label.contains('.'),
        !agent_session.contains('.'),
        holds(
            flat_properties(message),
            "properties.tracking_id"@,
            label + "."@ + (agent_session + "."@ + broker_session),
        ),
    ensures
        ({
            let sent = sent_of(me, topic, pattern, message)[i];
            &&& holds(
                sent,
                "properties.tracking_id"@,
                label + "."@ + (agent_session + "."@ + broker_session),
            )
            &&& holds(sent, "properties.tracking_id.label"@, label)
            &&& holds(
                sent,
                "properties.tracking_id.session_id"@,
                agent_session + "."@ + broker_session,
            )
            &&& holds(
                sent,
                "properties.tracking_id.session_id.agent_session_label"@,
                agent_session,
            )
            &&& holds(
                sent,
                "properties.tracking_id.session_id.broker_session_label"@,
                broker_session,
            )
        }),
{
    let key = "properties.tracking_id"@;
    reveal_strlit("properties");
    reveal_strlit("properties.tracking_id");
    reveal_strlit("properties.tracking_id.label");
    reveal_strlit("properties.tracking_id.session_id");
    reveal_strlit("properties.tracking_id.session_id.agent_session_label");
    reveal_strlit("properties.tracking_id.session_id.broker_session_label");
    reveal_strlit(".label");
    reveal_strlit(".session_id");
    reveal_strlit(".session_id.agent_session_label");
    reveal_strlit(".session_id.broker_session_label");
    let k1 = "properties.tracking_id.label"@;
    let k2 = "properties.tracking_id.session_id"@;
    let k3 = "properties.tracking_id.session_id.agent_session_label"@;
    let k4 = "properties.tracking_id.session_id.broker_session_label"@;
    assert(k1 =~= member(key, ".label"@));
    assert(k2 =~= member(key, ".session_id"@));
    assert(k3 =~= member(key, ".session_id.agent_session_label"@));
    assert(k4 =~= member(key, ".session_id.broker_session_label"@));
    assert(key.take(10) =~= "properties"@);
    assert(k1.take(10) =~= "properties"@);
    assert(k2.take(10) =~= "properties"@);
    assert(k3.take(10) =~= "properties"@);
    assert(k4.take(10) =~= "properties"@);
    law_tracking_property_is_taken_apart(
        kind_of(message),
        flat_properties(message),
        label,
        agent_session,
        broker_session,
    );
    law_properties_are_sent(me, topic, pattern, message, i, key);
    law_properties_are_sent(me, topic, pattern, message, i, k1);
    law_properties_are_sent(me, topic, pattern, message, i, k2);
    law_properties_are_sent(me, topic, pattern, message, i, k3);
    law_properties_are_sent(me, topic, pattern, message, i, k4);
}

/// In every payload of every message the session tracking label stands as a list.
pub proof fn law_session_tracking_label_is_sent_as_a_list(
    me: AgentId,
    topic: Seq<char>,
    pattern: MessagingPattern,
    message: Message,
    i: int,
    text: Seq<char>,
)
    requires
        message_maps(me, topic, pattern, message) is Ok,
        0 <= i < sent_of(me, topic, pattern, message).len(),
        holds(flat_properties(message), "properties.session_tracking_label"@, text),
    ensures
        ({
            let sent = sent_of(me, topic, pattern, message)[i];
            let key = "properties.session_tracking_label"@;
            sent.contains_key(key) && sent[key] is Array && spaced(sent[key]->Array_0, text)
        }),
{
    let key = "properties.session_tracking_label"@;
    reveal_strlit("properties");
    reveal_strlit("properties.session_tracking_label");
    assert(key.take(10) =~= "properties"@);
    law_properties_are_sent(me, topic, pattern, message, i, key);
    law_label_property_becomes_a_list(kind_of(message), flat_properties(message), text);
}

/// What an event's payload is flattened to before it is adjusted: all of it where it is
/// telemetry, and else its first level.
pub open spec fn flat_payload(telemetry: bool, json: JsonView) -> Map<Seq<char>, JsonView> {
    if telemetry {
        flattened("payload"@, json, Map::empty())
    } else {
        flattened_one_level("payload"@, json, Map::empty())
    }
}

/// The ids of the agent and of the creator in an event's payload are sent with their
/// parts, unless it is telemetry in a list.
pub proof fn law_payload_ids_are_sent_in_parts(
    me: AgentId,
    topic: Seq<char>,
    pattern: MessagingPattern,
    message: Message,
    json: JsonView,
    key: Seq<char>,
    label: Seq<char>,
    account_label: Seq<char>,
    audience: Seq<char>,
)
    requires
        message is Event,
        parsed_value(message->payload@) == Ok::<JsonView, serde_json::Error>(json),
        !(json is Array),
        key == "payload.agent_id"@ || key == "payload.created_by"@,
        !label.contains('.'),
        !account_label.contains('.'),
        holds(
            flat_payload(topic == telemetry_topic_of(message->sender, me), json),
            key,
            label + "."@ + (account_label + "."@ + audience),
        ),
    ensures
        has_agent_id(
            sent_of(me, topic, pattern, message)[0],
            key,
            label,
            account_label,
            audience,
        ),
{
    reveal_strlit("payload");
    reveal_strlit("payload.agent_id");
    reveal_strlit("payload.created_by");
    assert(key.take(7) =~= "payload"@);
    lemma_members_below(key);
    let k1 = member(key, ".label"@);
    let k2 = member(key, ".account_id"@);
    let k3 = member(key, ".account_id.label"@);
    let k4 = member(key, ".account_id.audience"@);
    lemma_below_transitive(k1, key, "payload"@);
    lemma_below_transitive(k2, key, "payload"@);
    lemma_below_transitive(k3, key, "payload"@);
    lemma_below_transitive(k4, key, "payload"@);
    law_payload_ids_are_taken_apart(
        flat_payload(topic == telemetry_topic_of(message->sender, me), json),
        key,
        label,
        account_label,
        audience,
    );
    law_how_much_is_sent(me, topic, pattern, message);
    law_event_payload_is_sent(me, topic, pattern, message, json, 0, key);
    law_event_payload_is_sent(me, topic, pattern, message, json, 0, k1);
    law_event_payload_is_sent(me, topic, pattern, message, json, 0, k2);
    law_event_payload_is_sent(me, topic, pattern, message, json, 0, k3);
    law_event_payload_is_sent(me, topic, pattern, message, json, 0, k4);
}

/// A known user agent in an event's payload is sent with its parts, unless it is
/// telemetry in a list.
pub proof fn law_user_agent_is_sent_in_parts(
    me: AgentId,
    topic: Seq<char>,
    pattern: MessagingPattern,
    message: Message,
    json: JsonView,
    source: Seq<char>,
)
    requires
        message is Event,
        parsed_value(message->payload@) == Ok::<JsonView, serde_json::Error>(json),
        !(json is Array),
        parsed_user_agent(source) is Some,
        holds(
            flat_payload(topic == telemetry_topic_of(message->sender, me), json),
            "payload.tags.user_agent"@,
            source,
        ),
    ensures
        ({
            let sent = sent_of(me, topic, pattern, message)[0];
            let ua = parsed_user_agent(source)->0;
            &&& holds(sent, "payload.tags.user_agent"@, source)
            &&& holds(sent, "payload.tags.user_agent.name"@, ua.name)
            &&& holds(sent, "payload.tags.user_agent.category"@, ua.category)
            &&& holds(sent, "payload.tags.user_agent.os"@, ua.os)
            &&& holds(sent, "payload.tags.user_agent.os_version"@, ua.os_version)
            &&& holds(sent, "payload.tags.user_agent.browser_type"@, ua.browser_type)
            &&& holds(sent, "payload.tags.user_agent.version"@, ua.version)
            &&& holds(sent, "payload.tags.user_agent.vendor"@, ua.vendor)
        }),
{
    reveal_strlit("payload");
    law_payload_user_agent_gives_its_parts(
        flat_payload(topic == telemetry_topic_of(message->sender, me), json),
        source,
    );
    law_how_much_is_sent(me, topic, pattern, message);
    reveal_strlit("payload.tags.user_agent");
    assert("payload.tags.user_agent"@.take(7) =~= "payload"@);
    law_event_payload_is_sent(me, topic, pattern, message, json, 0, "payload.tags.user_agent"@);
    reveal_strlit("payload.tags.user_agent.name");
    assert("payload.tags.user_agent.name"@.take(7) =~= "payload"@);
    law_event_payload_is_sent(me, topic, pattern, message, json, 0, "payload.tags.user_agent.name"@);
    reveal_strlit("payload.tags.user_agent.category");
    assert("payload.tags.user_agent.category"@.take(7) =~= "payload"@);
    law_event_payload_is_sent(me, topic, pattern, message, json, 0, "payload.tags.user_agent.category"@);
    reveal_strlit("payload.tags.user_agent.os");
    assert("payload.tags.user_agent.os"@.take(7) =~= "payload"@);
    law_event_payload_is_sent(me, topic, pattern, message, json, 0, "payload.tags.user_agent.os"@);
    reveal_strlit("payload.tags.user_agent.os_version");
    assert("payload.tags.user_agent.os_version"@.take(7) =~= "payload"@);
    law_event_payload_is_sent(me, topic, pattern, message, json, 0, "payload.tags.user_agent.os_version"@);
    reveal_strlit("payload.tags.user_agent.browser_type");
    assert("payload.tags.user_agent.browser_type"@.take(7) =~= "payload"@);
    law_event_payload_is_sent(me, topic, pattern, message, json, 0, "payload.tags.user_agent.browser_type"@);
    reveal_strlit("payload.tags.user_agent.version");
    assert("payload.tags.user_agent.version"@.take(7) =~= "payload"@);
    law_event_payload_is_sent(me, topic, pattern, message, json, 0, "payload.tags.user_agent.version"@);
    reveal_strlit("payload.tags.user_agent.vendor");
    assert("payload.tags.user_agent.vendor"@.take(7) =~= "payload"@);
    law_event_payload_is_sent(me, topic, pattern, message, json, 0, "payload.tags.user_agent.vendor"@);
}

} // verus!

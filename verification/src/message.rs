//! From a message to the payloads that are sent on.

use vstd::prelude::*;
use vstd::string::*;

use crate::adjust::{
    adjust_event_properties, adjust_pattern, adjust_payload, adjust_request_properties,
    adjust_response_properties, pattern_adjusted, payload_adjusted, typed_properties_adjusted,
    MessagingPattern,
};
use crate::agent::{multicast_topic, telemetry_topic, AgentId, API_VERSION};
use crate::codec::{json_error_message, parse_json, parsed_json, parsed_value};
use crate::flatten::{flattened, flattened_one_level, json_flatten, json_flatten_one_level_deep};
use crate::json::{Json, JsonObject, JsonView};
use crate::message_laws::law_description_needs_no_payload_adjustment;
use crate::text::same_text;

verus! {

/// A message as it came in.
#[derive(Debug, PartialEq)]
pub enum Message {
    /// A request, by the JSON form of its properties.
    Request(Json),
    /// A response, by the JSON form of its properties.
    Response(Json),
    /// An event: who sent it, the JSON form of its properties, and its payload text.
    Event { sender: AgentId, properties: Json, payload: String },
    /// Something whose envelope could not be read, for this reason.
    Malformed(String),
}

/// Why no payload comes of a message.
#[derive(Debug, PartialEq)]
pub enum MessageError {
    /// Its envelope could not be read, for this reason.
    Envelope(String),
    /// Its payload could not be read, for this reason.
    Payload(String),
    /// The topic of its sender's telemetry has no name.
    TelemetryTopic,
}

/// What an error stands for.
pub enum MessageErrorView {
    Envelope(Seq<char>),
    Payload(Seq<char>),
    TelemetryTopic,
}

impl MessageError {
    pub open spec fn view(&self) -> MessageErrorView {
        match self {
            MessageError::Envelope(cause) => MessageErrorView::Envelope(cause@),
            MessageError::Payload(cause) => MessageErrorView::Payload(cause@),
            MessageError::TelemetryTopic => MessageErrorView::TelemetryTopic,
        }
    }

    /// What the error says.
    pub fn text(&self) -> (text: &'static str)
        ensures
            text@ == match self@ {
                MessageErrorView::Envelope(_) => "Failed to parse message envelope"@,
                MessageErrorView::Payload(_) => "Failed to serialize message payload"@,
                MessageErrorView::TelemetryTopic => "Error building telemetry subscription topic"@,
            },
            match self {
                MessageError::Envelope(_) => text@ == "Failed to parse message envelope"@,
                MessageError::Payload(_) => text@ == "Failed to serialize message payload"@,
                MessageError::TelemetryTopic => text@
                    == "Error building telemetry subscription topic"@,
            },
    {
        match self {
            MessageError::Envelope(_) => "Failed to parse message envelope",
            MessageError::Payload(_) => "Failed to serialize message payload",
            MessageError::TelemetryTopic => "Error building telemetry subscription topic",
        }
    }

    /// What lies behind the error.
    pub fn cause(&self) -> (cause: Option<&str>)
        ensures
            match self@ {
                MessageErrorView::Envelope(reason) => cause is Some && cause->0@ == reason,
                MessageErrorView::Payload(reason) => cause is Some && cause->0@ == reason,
                MessageErrorView::TelemetryTopic => cause is None,
            },
            match self {
                MessageError::Envelope(reason) => cause is Some && cause->0@ == reason@,
                MessageError::Payload(reason) => cause is Some && cause->0@ == reason@,
                MessageError::TelemetryTopic => cause is None,
            },
    {
        match self {
            MessageError::Envelope(cause) => Some(cause.as_str()),
            MessageError::Payload(cause) => Some(cause.as_str()),
            MessageError::TelemetryTopic => None,
        }
    }
}

/// The members of several objects, each as a map.
pub open spec fn maps(objects: Seq<JsonObject>) -> Seq<Map<Seq<char>, JsonView>> {
    objects.map_values(|object: JsonObject| object@)
}

/// What is known of a message from how it was addressed.
pub open spec fn addressed(pattern: MessagingPattern) -> Map<Seq<char>, JsonView> {
    pattern_adjusted(pattern, flattened("pattern"@, pattern.form(), Map::empty()))
}

/// What is known of a message from how it was addressed.
fn address_of(pattern: &MessagingPattern) -> (acc: JsonObject)
    ensures
        acc@ == addressed(*pattern),
{
    let mut acc = JsonObject::new();
    json_flatten("pattern", pattern.json(), &mut acc);
    adjust_pattern(pattern, &mut acc);
    acc
}

/// What is known of a message from its address and its properties.
pub open spec fn described(
    pattern: MessagingPattern,
    kind: Seq<char>,
    properties: JsonView,
) -> Map<Seq<char>, JsonView> {
    typed_properties_adjusted(
        kind,
        flattened("properties"@, properties, addressed(pattern)),
    )
}

/// The payloads that come of an event with the payload `payload`, where `map` is known
/// of it otherwise. Telemetry is sent in full, a list of metrics as one payload each;
/// of other events only the first level is sent.
pub open spec fn event_maps(
    telemetry: bool,
    payload: JsonView,
    map: Map<Seq<char>, JsonView>,
) -> Seq<Map<Seq<char>, JsonView>> {
    if !telemetry {
        seq![payload_adjusted(flattened_one_level("payload"@, payload, map))]
    } else if payload is Array {
        payload->Array_0.map_values(|metric: JsonView| flattened("payload"@, metric, map))
    } else {
        seq![payload_adjusted(flattened("payload"@, payload, map))]
    }
}

/// The payloads that come of an event, from its address, its properties and its own
/// payload.
pub fn event_payloads(
    telemetry: bool,
    payload: &Json,
    pattern: &MessagingPattern,
    properties: &Json,
) -> (payloads: Vec<JsonObject>)
    ensures
        maps(payloads@) == event_maps(
            telemetry,
            payload@,
            described(*pattern, "event"@, properties@),
        ),
{
    let mut acc = address_of(pattern);
    json_flatten("properties", properties, &mut acc);
    adjust_event_properties(&mut acc);
    let ghost known = described(*pattern, "event"@, properties@);
    let mut payloads: Vec<JsonObject> = Vec::new();
    if telemetry {
        if let Json::Array(items) = payload {
            proof {
                law_description_needs_no_payload_adjustment(*pattern, "event"@, properties@);
            }
            let mut i: usize = 0;
            while i < items.len()
                invariant
                    *payload is Array,
                    payload->Array_0 == *items,
                    i <= items.len(),
                    payloads.len() == i,
                    acc@ == known,
                    payload_adjusted(known) == known,
                    forall|j: int|
                        0 <= j < i ==> (#[trigger] payloads@[j])@ == flattened(
                            "payload"@,
                            payload@->Array_0[j],
                            known,
                        ),
                decreases items.len() - i,
            {
                let mut metric = acc.clone();
                json_flatten("payload", &items[i], &mut metric);
                // Metrics of a list go out as they are; what is known of the event
                // otherwise holds nothing to adjust.
                adjust_payload(&mut acc);
                payloads.push(metric);
                i = i + 1;
            }
        } else {
            json_flatten("payload", payload, &mut acc);
            adjust_payload(&mut acc);
            payloads.push(acc);
        }
    } else {
        json_flatten_one_level_deep("payload", payload, &mut acc);
        adjust_payload(&mut acc);
        payloads.push(acc);
    }
    assert(maps(payloads@) =~= event_maps(telemetry, payload@, known));
    payloads
}

/// What lies behind a payload that could not be read, from what the JSON parser says.
pub open spec fn payload_cause(reason: Seq<char>) -> Seq<char> {
    "error deserializing payload of an envelope, "@ + reason
}

/// The payloads that come of a message on `topic`, or why there are none.
pub open spec fn message_maps(
    me: AgentId,
    topic: Seq<char>,
    pattern: MessagingPattern,
    message: Message,
) -> Result<Seq<Map<Seq<char>, JsonView>>, MessageErrorView> {
    match message {
        Message::Request(properties) => Ok(seq![described(pattern, "request"@, properties@)]),
        Message::Response(properties) => Ok(seq![described(pattern, "response"@, properties@)]),
        Message::Event { sender, properties, payload } => match parsed_json(payload@) {
            Ok(json) => Ok(
                event_maps(
                    topic == multicast_topic(sender.text(), API_VERSION@, me.account_id.text()),
                    json,
                    described(pattern, "event"@, properties@),
                ),
            ),
            Err(reason) => Err(MessageErrorView::Payload(payload_cause(reason))),
        },
        Message::Malformed(cause) => Err(MessageErrorView::Envelope(cause@)),
    }
}

/// The payloads to send on for a message that `agent_id` got on `topic`, in order.
pub fn handle_message(
    agent_id: &AgentId,
    topic: &str,
    pattern: &MessagingPattern,
    message: &Message,
) -> (outcome: Result<Vec<JsonObject>, MessageError>)
    ensures
        message_maps(*agent_id, topic@, *pattern, *message) == match outcome {
            Ok(payloads) => Ok(maps(payloads@)),
            Err(error) => Err(error@),
        },
        match message {
            Message::Request(_) => outcome is Ok,
            Message::Response(_) => outcome is Ok,
            Message::Event { payload, .. } => match parsed_value(payload@) {
                Ok(_) => outcome is Ok,
                Err(error) => outcome is Err && outcome->Err_0 is Payload
                    && outcome->Err_0->Payload_0@ == "error deserializing payload of an envelope, "@
                    + json_error_message(error),
            },
            Message::Malformed(cause) => outcome is Err && outcome->Err_0 is Envelope
                && outcome->Err_0->Envelope_0@ == cause@,
        },
{
    match message {
        Message::Request(properties) => {
            let mut acc = address_of(pattern);
            json_flatten("properties", properties, &mut acc);
            adjust_request_properties(&mut acc);
            let ghost known = acc@;
            let mut payloads: Vec<JsonObject> = Vec::new();
            payloads.push(acc);
            assert(maps(payloads@) =~= seq![known]);
            Ok(payloads)
        },
        Message::Response(properties) => {
            let mut acc = address_of(pattern);
            json_flatten("properties", properties, &mut acc);
            adjust_response_properties(&mut acc);
            let ghost known = acc@;
            let mut payloads: Vec<JsonObject> = Vec::new();
            payloads.push(acc);
            assert(maps(payloads@) =~= seq![known]);
            Ok(payloads)
        },
        Message::Event { sender, properties, payload } => {
            let json = match parse_json(payload.as_str()) {
                Ok(json) => json,
                Err(reason) => {
                    let cause = "error deserializing payload of an envelope, ".to_owned();
                    return Err(MessageError::Payload(cause.concat(reason.as_str())));
                },
            };
            match telemetry_topic(sender, agent_id) {
                Some(expected) => Ok(
                    event_payloads(same_text(topic, expected.as_str()), &json, pattern, properties),
                ),
                None => Err(MessageError::TelemetryTopic),
            }
        },
        Message::Malformed(cause) => Err(MessageError::Envelope(cause.clone())),
    }
}

} // verus!

use telemetry::adjust::MessagingPattern;
use telemetry::agent::{
    react, telemetry_topic, AccountId, AgentId, Notification, Reaction, API_VERSION,
    AUDIENCE_EVENTS_TOPIC, SHARED_GROUP_LABEL,
};
use telemetry::codec::parse_json;
use telemetry::json::{Json, JsonObject};
use telemetry::message::{event_payloads, handle_message, Message, MessageError};
use telemetry::token::{id_token, judge_token, SigningAlgorithm, TokenError};

fn json(source: &str) -> Json {
    parse_json(source).unwrap()
}

fn object(source: &str) -> JsonObject {
    match json(source) {
        Json::Object(object) => object,
        other => panic!("{:?}", other),
    }
}

fn agent(label: &str, account: &str, audience: &str) -> AgentId {
    AgentId {
        label: label.to_string(),
        account_id: AccountId { label: account.to_string(), audience: audience.to_string() },
    }
}

fn me() -> AgentId {
    agent("alpha", "telemetry", "svc.example.org")
}

fn sender() -> AgentId {
    agent("web", "john", "usr.example.org")
}

fn pattern() -> MessagingPattern {
    MessagingPattern::Broadcast(json(r#"{"from":{"account_id":"app.svc"},"version":"v1"}"#))
}

fn event(payload: &str) -> Message {
    Message::Event {
        sender: sender(),
        properties: json(r#"{"label":"metric","timestamp":"5"}"#),
        payload: payload.to_string(),
    }
}

const TELEMETRY: &str = "agents/web.john.usr.example.org/api/v1/out/telemetry.svc.example.org";

const ADDRESS: &str = r#""pattern.from.account_id":"app.svc","pattern.from.account_id.label":"app","pattern.from.account_id.audience":"svc","pattern.version":"v1""#;

const EVENT: &str =
    r#""properties.label":"metric","properties.timestamp":5,"properties.type":"event""#;

#[test]
fn the_telemetry_topic_names_both_sides() {
    assert_eq!(telemetry_topic(&sender(), &me()), Some(TELEMETRY.to_string()));
    assert_eq!(API_VERSION, "v1");
    assert_eq!(AUDIENCE_EVENTS_TOPIC, "apps/+/api/+/audiences/#");
    assert_eq!(SHARED_GROUP_LABEL, "loadbalancer");
}

#[test]
fn a_request_is_described() {
    let message = Message::Request(json(r#"{"method":"ping","agent_id":"web.john"}"#));
    let payloads = handle_message(&me(), "any", &pattern(), &message).unwrap();
    assert_eq!(
        payloads,
        vec![object(&format!(
            r#"{{{},"properties.method":"ping","properties.agent_id":"web.john","properties.agent_id.label":"web","properties.agent_id.account_id":"john","properties.type":"request"}}"#,
            ADDRESS
        ))]
    );
}

#[test]
fn a_response_is_described() {
    let message = Message::Response(json(r#"{"status":"200"}"#));
    let payloads = handle_message(&me(), "any", &pattern(), &message).unwrap();
    assert_eq!(
        payloads,
        vec![object(&format!(
            r#"{{{},"properties.status":200,"properties.type":"response"}}"#,
            ADDRESS
        ))]
    );
}

#[test]
fn a_single_metric_is_sent_in_full() {
    let message = event(r#"{"metric":"x","agent_id":"a.b","deep":{"n":null,"o":{"l":[1]}}}"#);
    let payloads = handle_message(&me(), TELEMETRY, &pattern(), &message).unwrap();
    assert_eq!(
        payloads,
        vec![object(&format!(
            r#"{{{},{},"payload.metric":"x","payload.agent_id":"a.b","payload.agent_id.label":"a","payload.agent_id.account_id":"b","payload.deep.n":null,"payload.deep.o.l":[1]}}"#,
            ADDRESS, EVENT
        ))]
    );
}

#[test]
fn every_metric_of_a_list_is_sent_on_its_own() {
    let message = event(r#"[{"agent_id":"a.b"},{"x":{"y":2}},7]"#);
    let payloads = handle_message(&me(), TELEMETRY, &pattern(), &message).unwrap();
    assert_eq!(
        payloads,
        vec![
            object(&format!(r#"{{{},{},"payload.agent_id":"a.b"}}"#, ADDRESS, EVENT)),
            object(&format!(r#"{{{},{},"payload.x.y":2}}"#, ADDRESS, EVENT)),
            object(&format!(r#"{{{},{}}}"#, ADDRESS, EVENT)),
        ]
    );
    let none = handle_message(&me(), TELEMETRY, &pattern(), &event("[]")).unwrap();
    assert_eq!(none, vec![]);
}

#[test]
fn of_other_events_the_first_level_is_sent() {
    let message = event(
        r#"{"created_by":"a.b","deep":{"n":1},"none":null,"tags":{"scope":{"x":"y"}}}"#,
    );
    let topic = "apps/app.svc/api/v1/audiences/usr/events";
    let payloads = handle_message(&me(), topic, &pattern(), &message).unwrap();
    assert_eq!(
        payloads,
        vec![object(&format!(
            r#"{{{},{},"payload.created_by":"a.b","payload.created_by.label":"a","payload.created_by.account_id":"b","payload.tags.scope.x":"y"}}"#,
            ADDRESS, EVENT
        ))]
    );
    let list = handle_message(&me(), topic, &pattern(), &event("[{\"a\":1}]")).unwrap();
    assert_eq!(list, vec![object(&format!(r#"{{{},{}}}"#, ADDRESS, EVENT))]);
}

#[test]
fn no_payload_of_a_message_holds_an_object() {
    let message = event(r#"[{"a":{"b":{"c":{"d":1}}}}]"#);
    for payload in handle_message(&me(), TELEMETRY, &pattern(), &message).unwrap() {
        for i in 0..payload.len() {
            assert!(!matches!(payload.value_at(i), Json::Object(_)));
            let key = payload.key_at(i);
            assert!(
                key.starts_with("pattern.")
                    || key.starts_with("properties.")
                    || key.starts_with("payload.")
            );
        }
    }
}

#[test]
fn a_payload_that_is_not_json_is_an_error() {
    let error = handle_message(&me(), TELEMETRY, &pattern(), &event("{")).unwrap_err();
    let cause = "error deserializing payload of an envelope, \
                 EOF while parsing an object at line 1 column 1";
    assert_eq!(error, MessageError::Payload(cause.to_string()));
    assert_eq!(error.text(), "Failed to serialize message payload");
    assert_eq!(error.cause(), Some(cause));
}

#[test]
fn an_envelope_that_cannot_be_read_is_an_error() {
    let message = Message::Malformed("no such type".to_string());
    let error = handle_message(&me(), "any", &pattern(), &message).unwrap_err();
    assert_eq!(error, MessageError::Envelope("no such type".to_string()));
    assert_eq!(error.text(), "Failed to parse message envelope");
    assert_eq!(error.cause(), Some("no such type"));
    let topic = MessageError::TelemetryTopic;
    assert_eq!(topic.text(), "Error building telemetry subscription topic");
    assert_eq!(topic.cause(), None);
}

#[test]
fn the_payloads_of_an_event_follow_from_what_was_read() {
    let properties = json(r#"{"label":"metric","timestamp":"5"}"#);
    let payloads =
        event_payloads(true, &json(r#"[{"agent_id":"a.b"}]"#), &pattern(), &properties);
    assert_eq!(
        payloads,
        vec![object(&format!(r#"{{{},{},"payload.agent_id":"a.b"}}"#, ADDRESS, EVENT))]
    );
    let payloads = event_payloads(false, &json(r#"{"a":{"b":1},"c":2}"#), &pattern(), &properties);
    assert_eq!(payloads, vec![object(&format!(r#"{{{},{},"payload.c":2}}"#, ADDRESS, EVENT))]);
}

#[test]
fn requests_and_responses_differ_only_in_type() {
    let source = r#"{"agent_id":"a.b.c","status":"200"}"#;
    let request = Message::Request(json(source));
    let response = Message::Response(json(source));
    let mut asked = handle_message(&me(), "any", &pattern(), &request).unwrap();
    let answered = handle_message(&me(), "any", &pattern(), &response).unwrap();
    assert_ne!(asked, answered);
    asked[0].insert("properties.type".to_string(), Json::String("response".to_string()));
    assert_eq!(asked, answered);
}

#[test]
fn every_notification_has_its_reaction() {
    assert_eq!(react(Notification::Message), Reaction::HandleMessage);
    assert_eq!(react(Notification::Reconnection), Reaction::Subscribe);
    assert_eq!(react(Notification::Disconnection), Reaction::ReportDisconnection);
    assert_eq!(react(Notification::Abort), Reaction::ReportAbort);
    for acknowledgement in [
        Notification::Puback,
        Notification::Pubrec,
        Notification::Pubcomp,
        Notification::Suback,
        Notification::Unsuback,
    ] {
        assert_eq!(react(acknowledgement), Reaction::Nothing);
    }
}

#[test]
fn a_token_names_the_agent() {
    let token = id_token(&me(), SigningAlgorithm::HS256, b"key").unwrap();
    let again = id_token(&me(), SigningAlgorithm::HS256, b"key").unwrap();
    assert_eq!(token, again);
    let account = svc_authn::AccountId::new("telemetry", "svc.example.org");
    let expected = svc_authn::token::jws_compact::TokenBuilder::new()
        .issuer("svc.example.org")
        .subject(&account)
        .key(svc_authn::jose::Algorithm::HS256, b"key")
        .build()
        .unwrap();
    assert_eq!(token, expected);
    assert_ne!(token, id_token(&sender(), SigningAlgorithm::HS256, b"key").unwrap());
    assert_ne!(token, id_token(&me(), SigningAlgorithm::HS256, b"other").unwrap());
}

#[test]
fn every_secret_signs_a_token_with_hs256() {
    for key in [&b""[..], &b"k"[..], &[0u8; 300][..]] {
        let token = id_token(&me(), SigningAlgorithm::HS256, key).unwrap();
        assert_eq!(id_token(&me(), SigningAlgorithm::HS256, key), Ok(token));
    }
}

/// The P-256 key whose secret is the number one, as PKCS #8.
fn ec_key() -> Vec<u8> {
    let digits = "308187020100301306072a8648ce3d020106082a8648ce3d030107046d306b0201010420\
                  0000000000000000000000000000000000000000000000000000000000000001\
                  a14403420004\
                  6b17d1f2e12c4247f8bce6e563a440f277037d812deb33a0f4a13945d898c296\
                  4fe342e2fe1a7f9b8ee7eb4a7c0f9e162bce33576b315ececbb6406837bf51f5";
    (0..digits.len() / 2)
        .map(|i| u8::from_str_radix(&digits[2 * i..2 * i + 2], 16).unwrap())
        .collect()
}

#[test]
fn a_valid_key_signs_a_token_with_es256() {
    let token = id_token(&me(), SigningAlgorithm::ES256, &ec_key()).unwrap();
    let again = id_token(&me(), SigningAlgorithm::ES256, &ec_key()).unwrap();
    let unsigned = |token: &str| token.rsplitn(2, '.').nth(1).unwrap().to_string();
    assert_eq!(unsigned(&token), unsigned(&again));
    assert_ne!(token, again);
    let hs256 = id_token(&me(), SigningAlgorithm::HS256, &ec_key()).unwrap();
    assert_ne!(unsigned(&token), unsigned(&hs256));
}

#[test]
fn a_token_needs_an_algorithm_and_a_key_that_work() {
    let refused = id_token(&me(), SigningAlgorithm::ES256, b"no key").unwrap_err();
    assert_eq!(refused.text(), "Error creating an id token");
    assert!(refused.cause.starts_with("encoding error, "));
    for algorithm in [
        SigningAlgorithm::HS384,
        SigningAlgorithm::HS512,
        SigningAlgorithm::ES384,
        SigningAlgorithm::RS256,
        SigningAlgorithm::RS384,
        SigningAlgorithm::RS512,
        SigningAlgorithm::PS256,
        SigningAlgorithm::PS384,
        SigningAlgorithm::PS512,
    ] {
        let cause = format!("unsupported algorithm {:?}", algorithm);
        let refused = id_token(&me(), algorithm, b"key").unwrap_err();
        assert_eq!(refused, TokenError { cause });
        assert_eq!(id_token(&me(), algorithm, &ec_key()), Err(refused));
    }
}

#[test]
fn what_was_signed_is_judged() {
    assert_eq!(judge_token(Ok("a.b.c".to_string())), Ok("a.b.c".to_string()));
    assert_eq!(
        judge_token(Err(svc_authn::SerializationError::new("no"))),
        Err(TokenError { cause: "no".to_string() })
    );
}

#[test]
fn adjusting_leaves_every_leaf_of_a_payload_in_place() {
    let source = r#"{"agent_id":{"label":"own"},"created_by":"a.b","tags":{"user_agent":{"name":"n"}}}"#;
    let leaves = r#""payload.agent_id.label":"own","payload.created_by":"a.b","payload.created_by.label":"a","payload.created_by.account_id":"b","payload.tags.user_agent.name":"n""#;
    let metric = handle_message(&me(), TELEMETRY, &pattern(), &event(source)).unwrap();
    assert_eq!(metric, vec![object(&format!(r#"{{{},{},{}}}"#, ADDRESS, EVENT, leaves))]);
    let other = handle_message(&me(), "any", &pattern(), &event(source)).unwrap();
    assert_eq!(other[0].get("payload.agent_id.label"), None);
    assert_eq!(
        other[0].get("payload.tags.user_agent.name"),
        metric[0].get("payload.tags.user_agent.name")
    );
}

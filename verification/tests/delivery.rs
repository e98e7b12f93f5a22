use telemetry::codec::parse_json;
use telemetry::delivery::{
    assemble_request, build_request, http_request, judge_reply, judge_request, tracking_id_of,
    Delivery, DeliveryStep, Reply, SendError, TopMindConfig, TopMindResponse, TrySend, Verdict,
    DEFAULT_HTTP_TIMEOUT, MAX_ATTEMPTS, MAX_HTTP_CONNECTION,
};
use telemetry::json::{Json, JsonObject};

fn object(source: &str) -> JsonObject {
    match parse_json(source) {
        Ok(Json::Object(object)) => object,
        other => panic!("{:?}", other),
    }
}

fn config(timeout: Option<u64>, retry: Option<u8>) -> TopMindConfig {
    TopMindConfig {
        uri: "https://example.org/topmind".to_string(),
        token: "secret".to_string(),
        timeout,
        retry,
    }
}

fn failed(text: &str) -> Result<(), String> {
    Err(text.to_string())
}

#[test]
fn the_defaults_stand_in_for_what_is_not_configured() {
    assert_eq!(MAX_ATTEMPTS, 3);
    assert_eq!(DEFAULT_HTTP_TIMEOUT, 5);
    assert_eq!(MAX_HTTP_CONNECTION, 256);
    assert_eq!(config(None, None).http_timeout(), 5);
    assert_eq!(config(Some(9), None).http_timeout(), 9);
}

#[test]
fn the_first_success_ends_the_attempts() {
    let mut state = TrySend::new(None);
    assert_eq!(state.verdict(), Verdict::Attempt);
    state.record(failed("one"));
    assert_eq!(state.verdict(), Verdict::Attempt);
    state.record(Ok(()));
    assert_eq!(state.verdict(), Verdict::Sent);
}

#[test]
fn three_failures_give_up() {
    let mut state = TrySend::new(None);
    state.record(failed("one"));
    state.record(failed("one"));
    assert_eq!(state.verdict(), Verdict::Attempt);
    state.record(failed("two"));
    assert_eq!(state.verdict(), Verdict::Failed("one, two".to_string()));
}

#[test]
fn only_neighbouring_errors_are_merged() {
    let mut state = TrySend::new(Some(4));
    for error in ["a", "b", "b", "a"] {
        state.record(failed(error));
    }
    assert_eq!(state.verdict(), Verdict::Failed("a, b, a".to_string()));
}

#[test]
fn without_attempts_there_is_nothing_to_report() {
    assert_eq!(TrySend::new(Some(0)).verdict(), Verdict::Failed("".to_string()));
    assert_eq!(Delivery::new(1, Some(0)).step(), DeliveryStep::Failed("".to_string()));
    assert_eq!(Delivery::new(0, Some(0)).step(), DeliveryStep::Done);
}

#[test]
fn payloads_are_sent_one_after_the_other() {
    let mut state = Delivery::new(2, Some(2));
    assert_eq!(state.step(), DeliveryStep::Send(0));
    state.record(failed("x"));
    assert_eq!(state.step(), DeliveryStep::Send(0));
    state.record(Ok(()));
    assert_eq!(state.step(), DeliveryStep::Send(1));
    state.record(failed("y"));
    assert_eq!(state.step(), DeliveryStep::Send(1));
    state.record(Ok(()));
    assert_eq!(state.step(), DeliveryStep::Done);
}

#[test]
fn a_payload_that_is_given_up_ends_the_delivery() {
    let mut state = Delivery::new(3, Some(2));
    state.record(Ok(()));
    state.record(failed("x"));
    state.record(failed("y"));
    assert_eq!(state.step(), DeliveryStep::Failed("x, y".to_string()));
}

#[test]
fn a_request_posts_the_payload() {
    let payload = object(r#"{"properties.tracking_id":"a.b","k":[1]}"#);
    let request = build_request(&payload, &config(None, None)).unwrap();
    assert_eq!(request.uri, "https://example.org/topmind");
    assert_eq!(request.body, r#"{"k":[1],"properties.tracking_id":"a.b"}"#);
    assert_eq!(request.tracking_id, "\"a.b\"");
    let headers: Vec<(&str, &str)> =
        request.headers.iter().map(|(name, value)| (name.as_str(), value.as_str())).collect();
    assert_eq!(
        headers,
        vec![
            ("authorization", "Bearer secret"),
            ("content-type", "application/json"),
            ("connection", "keep-alive"),
            ("user-agent", "telemetry"),
        ]
    );
}

#[test]
fn a_request_is_assembled_from_its_parts() {
    let request = assemble_request("body".to_string(), "id".to_string(), &config(None, None));
    assert_eq!(request.body, "body");
    assert_eq!(request.tracking_id, "id");
    assert_eq!(request.headers.len(), 4);
}

#[test]
fn the_http_request_is_a_post_with_all_headers() {
    let request = assemble_request("body".to_string(), "id".to_string(), &config(None, None));
    let post = http_request(&request).unwrap();
    assert_eq!(post.method().as_str(), "POST");
    assert_eq!(post.uri().to_string(), "https://example.org/topmind");
    assert_eq!(post.body(), "body");
    let mut headers: Vec<(&str, &str)> = post
        .headers()
        .iter()
        .map(|(name, value)| (name.as_str(), value.to_str().unwrap()))
        .collect();
    headers.sort();
    assert_eq!(
        headers,
        vec![
            ("authorization", "Bearer secret"),
            ("connection", "keep-alive"),
            ("content-type", "application/json"),
            ("user-agent", "telemetry"),
        ]
    );
}

#[test]
fn an_invalid_address_or_header_gives_no_http_request() {
    let mut topmind = config(None, None);
    topmind.uri = "not an address".to_string();
    let request = assemble_request("body".to_string(), "id".to_string(), &topmind);
    let error = http_request(&request).unwrap_err();
    assert_eq!(error, SendError::Request("invalid uri character".to_string()));
    assert_eq!(error.text(), "invalid uri character");

    let mut topmind = config(None, None);
    topmind.token = "two\nlines".to_string();
    let request = assemble_request("body".to_string(), "id".to_string(), &topmind);
    assert_eq!(
        http_request(&request).unwrap_err(),
        SendError::Request("failed to parse header value".to_string())
    );
}

#[test]
fn what_was_built_is_judged() {
    let built = isahc::http::Request::post("/path").body("text".to_string());
    assert_eq!(judge_request(built).unwrap().body(), "text");
    let refused = isahc::http::Request::post("").body("text".to_string());
    assert_eq!(
        judge_request(refused).unwrap_err(),
        SendError::Request("empty string".to_string())
    );
}

#[test]
fn a_payload_without_tracking_id_is_called_none() {
    assert_eq!(tracking_id_of(&object("{}")), "None");
    assert_eq!(tracking_id_of(&object(r#"{"properties.tracking_id":null}"#)), "null");
}

#[test]
fn replies_are_judged() {
    assert_eq!(judge_reply("id", Reply::Answer(TopMindResponse::Success)), Ok(()));
    let cases = vec![
        (
            Reply::Nothing("no route".to_string()),
            SendError::Transport { tracking_id: "id".to_string(), cause: "no route".to_string() },
            "Error sending the TopMind request with tracking_id=id",
            "no route",
        ),
        (
            Reply::NotText("bad bytes".to_string()),
            SendError::NotText("bad bytes".to_string()),
            "Invalid format of the TopMind response, received data isn't even a string",
            "bad bytes",
        ),
        (
            Reply::Unreadable { data: "<html>".to_string(), cause: "no JSON".to_string() },
            SendError::Unreadable { data: "<html>".to_string(), cause: "no JSON".to_string() },
            "Invalid format of the TopMind response, received data = '<html>'",
            "no JSON",
        ),
        (
            Reply::Answer(TopMindResponse::Error("too late".to_string())),
            SendError::Refused("too late".to_string()),
            "TopMind responded with the error",
            "too late",
        ),
    ];
    for (reply, error, text, cause) in cases {
        assert_eq!(error.text(), text);
        assert_eq!(error.cause(), Some(cause));
        assert_eq!(judge_reply("id", reply), Err(error));
    }
    let body = SendError::Body("no key".to_string());
    assert_eq!(body.text(), "Failed to build TopMind request");
    assert_eq!(body.cause(), Some("no key"));
    assert_eq!(SendError::Request("empty string".to_string()).cause(), None);
}

//! Sending payloads to TopMind: the request, the reply, and when to try again.

use vstd::prelude::*;
use vstd::string::*;

use crate::codec::{
    display_json, displayed_json, json_error_message, print_object, printed_json, printed_value,
};
use crate::http::{http_error_message, http_error_text, post, posted};
use crate::json::{JsonObject, JsonView};
use crate::text::{dedup, join, joined, texts, without_repeats};

verus! {

/// How often a payload is sent before it is given up, unless the config says otherwise.
pub const MAX_ATTEMPTS: u8 = 3;

/// How many connections the HTTP client keeps at most.
pub const MAX_HTTP_CONNECTION: usize = 256;

/// How many seconds a request may take, unless the config says otherwise.
pub const DEFAULT_HTTP_TIMEOUT: u64 = 5;

/// Where and how TopMind is reached.
#[derive(Debug, PartialEq)]
pub struct TopMindConfig {
    pub uri: String,
    pub token: String,
    pub timeout: Option<u64>,
    pub retry: Option<u8>,
}

impl TopMindConfig {
    /// How many seconds a request may take.
    pub fn http_timeout(&self) -> (seconds: u64)
        ensures
            seconds == match self.timeout {
                Some(seconds) => seconds,
                None => DEFAULT_HTTP_TIMEOUT,
            },
    {
        match self.timeout {
            Some(seconds) => seconds,
            None => DEFAULT_HTTP_TIMEOUT,
        }
    }
}

/// How often a payload is sent at most.
pub open spec fn attempt_limit(retry: Option<u8>) -> nat {
    match retry {
        Some(n) => n as nat,
        None => MAX_ATTEMPTS as nat,
    }
}

/// What is known while one payload is being sent.
pub struct TrySendView {
    /// How many attempts there are.
    pub limit: nat,
    /// The errors of the attempts so far, in order.
    pub errors: Seq<Seq<char>>,
    /// Whether an attempt has succeeded.
    pub sent: bool,
}

/// What comes next for one payload.
#[derive(Debug, PartialEq)]
pub enum Verdict {
    /// Send it.
    Attempt,
    /// It was sent.
    Sent,
    /// It is given up, for these reasons.
    Failed(String),
}

/// What a verdict stands for.
pub enum VerdictView {
    Attempt,
    Sent,
    Failed(Seq<char>),
}

impl Verdict {
    pub open spec fn view(&self) -> VerdictView {
        match self {
            Verdict::Attempt => VerdictView::Attempt,
            Verdict::Sent => VerdictView::Sent,
            Verdict::Failed(reasons) => VerdictView::Failed(reasons@),
        }
    }
}

/// The outcome of an attempt.
pub open spec fn outcome_view(outcome: Result<(), String>) -> Result<(), Seq<char>> {
    match outcome {
        Ok(_) => Ok(()),
        Err(error) => Err(error@),
    }
}

impl TrySendView {
    /// Before the first attempt.
    pub open spec fn start(retry: Option<u8>) -> TrySendView {
        TrySendView { limit: attempt_limit(retry), errors: Seq::empty(), sent: false }
    }

    /// What comes next: a success ends it, and so does the error of the last attempt.
    /// The reasons are the errors with repeats left out.
    pub open spec fn verdict(self) -> VerdictView {
        if self.sent {
            VerdictView::Sent
        } else if self.errors.len() < self.limit {
            VerdictView::Attempt
        } else {
            VerdictView::Failed(joined(without_repeats(self.errors), ", "@))
        }
    }

    /// How many attempts were made.
    pub open spec fn attempts(self) -> nat {
        self.errors.len() + if self.sent {
            1nat
        } else {
            0nat
        }
    }

    /// After one more attempt.
    pub open spec fn record(self, outcome: Result<(), Seq<char>>) -> TrySendView {
        match outcome {
            Ok(_) => TrySendView { sent: true, ..self },
            Err(error) => TrySendView { errors: self.errors.push(error), ..self },
        }
    }

    /// After attempts with these outcomes, as far as attempts were due.
    pub open spec fn run(retry: Option<u8>, outcomes: Seq<Result<(), Seq<char>>>) -> TrySendView
        decreases outcomes.len(),
    {
        if outcomes.len() == 0 {
            TrySendView::start(retry)
        } else {
            let before = TrySendView::run(retry, outcomes.drop_last());
            if before.verdict() is Attempt {
                before.record(outcomes.last())
            } else {
                before
            }
        }
    }
}

/// The state of sending one payload.
#[derive(Debug)]
pub struct TrySend {
    limit: u8,
    errors: Vec<String>,
    sent: bool,
}

impl TrySend {
    pub closed spec fn view(&self) -> TrySendView {
        TrySendView { limit: self.limit as nat, errors: texts(self.errors@), sent: self.sent }
    }

    /// Before the first attempt.
    pub fn new(retry: Option<u8>) -> (state: Self)
        ensures
            state@ == TrySendView::start(retry),
    {
        let limit: u8 = match retry {
            Some(n) => n,
            None => MAX_ATTEMPTS,
        };
        let state = TrySend { limit, errors: Vec::new(), sent: false };
        assert(state@.errors =~= Seq::<Seq<char>>::empty());
        state
    }

    /// What comes next.
    pub fn verdict(&self) -> (verdict: Verdict)
        ensures
            verdict@ == self@.verdict(),
            match verdict {
                Verdict::Attempt => self@.verdict() == VerdictView::Attempt,
                Verdict::Sent => self@.verdict() == VerdictView::Sent,
                Verdict::Failed(reasons) => self@.verdict() == VerdictView::Failed(reasons@),
            },
    {
        if self.sent {
            Verdict::Sent
        } else if self.errors.len() < self.limit as usize {
            Verdict::Attempt
        } else {
            let kept = dedup(&self.errors);
            Verdict::Failed(join(&kept, ", "))
        }
    }

    /// Takes note of an attempt that was due.
    pub fn record(&mut self, outcome: Result<(), String>)
        requires
            old(self)@.verdict() is Attempt,
        ensures
            final(self)@ == old(self)@.record(outcome_view(outcome)),
            match outcome {
                Ok(_) => final(self)@ == old(self)@.record(Ok(())),
                Err(error) => final(self)@ == old(self)@.record(Err(error@)),
            },
    {
        match outcome {
            Ok(_) => {
                self.sent = true;
            },
            Err(error) => {
                let ghost before = self.errors@;
                self.errors.push(error);
                assert(texts(self.errors@) =~= texts(before).push(error@));
            },
        }
    }
}

/// What is known while several payloads are being sent.
pub struct DeliveryView {
    pub retry: Option<u8>,
    /// How many payloads there are.
    pub count: nat,
    /// How many of them were sent.
    pub sent: nat,
    /// The state of the one that is being sent.
    pub current: TrySendView,
}

/// What comes next for several payloads.
#[derive(Debug, PartialEq)]
pub enum DeliveryStep {
    /// Send the payload at this position.
    Send(usize),
    /// All were sent.
    Done,
    /// One was given up, for these reasons; the rest is not sent.
    Failed(String),
}

/// What a step stands for.
pub enum DeliveryStepView {
    Send(nat),
    Done,
    Failed(Seq<char>),
}

impl DeliveryStep {
    pub open spec fn view(&self) -> DeliveryStepView {
        match self {
            DeliveryStep::Send(i) => DeliveryStepView::Send(*i as nat),
            DeliveryStep::Done => DeliveryStepView::Done,
            DeliveryStep::Failed(reasons) => DeliveryStepView::Failed(reasons@),
        }
    }
}

impl DeliveryView {
    /// Before the first payload.
    pub open spec fn start(count: nat, retry: Option<u8>) -> DeliveryView {
        DeliveryView { retry, count, sent: 0, current: TrySendView::start(retry) }
    }

    /// What comes next: payloads are sent one after the other until one is given up.
    pub open spec fn step(self) -> DeliveryStepView {
        if self.sent >= self.count {
            DeliveryStepView::Done
        } else {
            match self.current.verdict() {
                VerdictView::Failed(reasons) => DeliveryStepView::Failed(reasons),
                _ => DeliveryStepView::Send(self.sent),
            }
        }
    }

    /// After one more attempt.
    pub open spec fn record(self, outcome: Result<(), Seq<char>>) -> DeliveryView {
        match outcome {
            Ok(_) => DeliveryView {
                sent: self.sent + 1,
                current: TrySendView::start(self.retry),
                ..self
            },
            Err(_) => DeliveryView { current: self.current.record(outcome), ..self },
        }
    }

    /// After attempts with these outcomes, as far as attempts were due.
    pub open spec fn run(
        count: nat,
        retry: Option<u8>,
        outcomes: Seq<Result<(), Seq<char>>>,
    ) -> DeliveryView
        decreases outcomes.len(),
    {
        if outcomes.len() == 0 {
            DeliveryView::start(count, retry)
        } else {
            let before = DeliveryView::run(count, retry, outcomes.drop_last());
            if before.step() is Send {
                before.record(outcomes.last())
            } else {
                before
            }
        }
    }
}

/// The state of sending several payloads, one after the other.
#[derive(Debug)]
pub struct Delivery {
    retry: Option<u8>,
    count: usize,
    sent: usize,
    current: TrySend,
}

impl Delivery {
    pub closed spec fn view(&self) -> DeliveryView {
        DeliveryView {
            retry: self.retry,
            count: self.count as nat,
            sent: self.sent as nat,
            current: self.current@,
        }
    }

    #[verifier::type_invariant]
    closed spec fn under_way(self) -> bool {
        !self.current@.sent
    }

    /// Before the first payload.
    pub fn new(count: usize, retry: Option<u8>) -> (state: Self)
        ensures
            state@ == DeliveryView::start(count as nat, retry),
    {
        Delivery { retry, count, sent: 0, current: TrySend::new(retry) }
    }

    /// What comes next.
    pub fn step(&self) -> (step: DeliveryStep)
        ensures
            step@ == self@.step(),
            match step {
                DeliveryStep::Send(i) => self@.step() == DeliveryStepView::Send(i as nat),
                DeliveryStep::Done => self@.step() == DeliveryStepView::Done,
                DeliveryStep::Failed(reasons) => self@.step() == DeliveryStepView::Failed(reasons@),
            },
    {
        if self.sent >= self.count {
            DeliveryStep::Done
        } else {
            match self.current.verdict() {
                Verdict::Failed(reasons) => DeliveryStep::Failed(reasons),
                _ => DeliveryStep::Send(self.sent),
            }
        }
    }

    /// Takes note of an attempt that was due.
    pub fn record(&mut self, outcome: Result<(), String>)
        requires
            old(self)@.step() is Send,
        ensures
            final(self)@ == old(self)@.record(outcome_view(outcome)),
            match outcome {
                Ok(_) => final(self)@ == old(self)@.record(Ok(())),
                Err(error) => final(self)@ == old(self)@.record(Err(error@)),
            },
    {
        proof {
            use_type_invariant(&*self);
        }
        match outcome {
            Ok(_) => {
                self.sent = self.sent + 1;
                self.current = TrySend::new(self.retry);
            },
            Err(_) => {
                let mut current = TrySend::new(self.retry);
                core::mem::swap(&mut current, &mut self.current);
                current.record(outcome);
                self.current = current;
            },
        }
    }
}

/// A request to TopMind, and what it is called by in error messages.
#[derive(Debug, PartialEq)]
pub struct TopMindRequest {
    pub uri: String,
    pub headers: [(String, String); 4],
    pub body: String,
    pub tracking_id: String,
}

/// What a list of headers holds.
pub open spec fn header_texts(headers: Seq<(String, String)>) -> Seq<(Seq<char>, Seq<char>)> {
    headers.map_values(|header: (String, String)| (header.0@, header.1@))
}

/// The headers of every request: the token, and what the body and the connection are.
pub open spec fn request_headers(token: Seq<char>) -> Seq<(Seq<char>, Seq<char>)> {
    seq![
        ("authorization"@, "Bearer "@ + token),
        ("content-type"@, "application/json"@),
        ("connection"@, "keep-alive"@),
        ("user-agent"@, "telemetry"@),
    ]
}

/// The request that posts `body`.
pub fn assemble_request(
    body: String,
    tracking_id: String,
    topmind: &TopMindConfig,
) -> (request: TopMindRequest)
    ensures
        request.uri@ == topmind.uri@,
        header_texts(request.headers@) == request_headers(topmind.token@),
        request.headers@[0].0@ == "authorization"@,
        request.headers@[0].1@ == "Bearer "@ + topmind.token@,
        request.headers@[1].0@ == "content-type"@,
        request.headers@[1].1@ == "application/json"@,
        request.headers@[2].0@ == "connection"@,
        request.headers@[2].1@ == "keep-alive"@,
        request.headers@[3].0@ == "user-agent"@,
        request.headers@[3].1@ == "telemetry"@,
        request.body@ == body@,
        request.tracking_id@ == tracking_id@,
{
    let headers = [
        ("authorization".to_owned(), "Bearer ".to_owned().concat(topmind.token.as_str())),
        ("content-type".to_owned(), "application/json".to_owned()),
        ("connection".to_owned(), "keep-alive".to_owned()),
        ("user-agent".to_owned(), "telemetry".to_owned()),
    ];
    assert(header_texts(headers@) =~= request_headers(topmind.token@));
    TopMindRequest { uri: topmind.uri.clone(), headers, body, tracking_id }
}

/// What a payload is called by in error messages: the JSON text of its tracking id.
pub open spec fn tracking_id_text(payload: Map<Seq<char>, JsonView>) -> Seq<char> {
    if payload.contains_key("properties.tracking_id"@) {
        displayed_json(payload["properties.tracking_id"@])
    } else {
        "None"@
    }
}

/// What a payload is called by in error messages.
pub fn tracking_id_of(payload: &JsonObject) -> (tracking_id: String)
    ensures
        tracking_id@ == tracking_id_text(payload@),
        payload@.contains_key("properties.tracking_id"@) ==> tracking_id@ == displayed_json(
            payload@["properties.tracking_id"@],
        ),
        !payload@.contains_key("properties.tracking_id"@) ==> tracking_id@ == "None"@,
{
    match payload.get("properties.tracking_id") {
        Some(value) => display_json(value),
        None => "None".to_owned(),
    }
}

/// The request that posts a payload. There is one exactly where the payload can be
/// printed.
pub fn build_request(payload: &JsonObject, topmind: &TopMindConfig) -> (outcome: Result<
    TopMindRequest,
    SendError,
>)
    ensures
        match outcome {
            Ok(request) => {
                &&& request.uri@ == topmind.uri@
                &&& header_texts(request.headers@) == request_headers(topmind.token@)
                &&& request.headers@[0].0@ == "authorization"@
                &&& request.headers@[0].1@ == "Bearer "@ + topmind.token@
                &&& request.headers@[1].0@ == "content-type"@
                &&& request.headers@[1].1@ == "application/json"@
                &&& request.headers@[2].0@ == "connection"@
                &&& request.headers@[2].1@ == "keep-alive"@
                &&& request.headers@[3].0@ == "user-agent"@
                &&& request.headers@[3].1@ == "telemetry"@
                &&& printed_json(JsonView::Object(payload.entries())) == Ok::<Seq<char>, Seq<char>>(
                    request.body@,
                )
                &&& request.tracking_id@ == tracking_id_text(payload@)
                &&& payload@.contains_key("properties.tracking_id"@) ==> request.tracking_id@
                    == displayed_json(payload@["properties.tracking_id"@])
                &&& !payload@.contains_key("properties.tracking_id"@) ==> request.tracking_id@
                    == "None"@
            },
            Err(error) => {
                &&& error is Body
                &&& printed_json(JsonView::Object(payload.entries())) == Err::<Seq<char>, Seq<char>>(
                    error->Body_0@,
                )
            },
        },
        match printed_value(JsonView::Object(payload.entries())) {
            Ok(printed) => outcome is Ok && outcome->Ok_0.body@ == printed,
            Err(error) => outcome is Err && outcome->Err_0 is Body && outcome->Err_0->Body_0@
                == json_error_message(error),
        },
{
    let tracking_id = tracking_id_of(payload);
    match print_object(payload) {
        Ok(body) => Ok(assemble_request(body, tracking_id, topmind)),
        Err(cause) => Err(SendError::Body(cause)),
    }
}

/// The request as the HTTP client takes it, or why there is none, from what the `http`
/// crate made of it.
pub fn judge_request(
    outcome: Result<isahc::http::Request<String>, isahc::http::Error>,
) -> (judged: Result<isahc::http::Request<String>, SendError>)
    ensures
        match outcome {
            Ok(request) => judged == Ok::<isahc::http::Request<String>, SendError>(request),
            Err(error) => judged is Err && judged->Err_0 is Request
                && judged->Err_0->Request_0@ == http_error_message(error),
        },
{
    match outcome {
        Ok(request) => Ok(request),
        Err(error) => Err(SendError::Request(http_error_text(&error))),
    }
}

/// The request as the HTTP client takes it. There is one exactly where the `http` crate
/// takes the address and every header for valid.
pub fn http_request(request: &TopMindRequest) -> (outcome: Result<
    isahc::http::Request<String>,
    SendError,
>)
    ensures
        match posted(request.uri@, header_texts(request.headers@), request.body@) {
            Ok(built) => outcome == Ok::<isahc::http::Request<String>, SendError>(built),
            Err(error) => outcome is Err && outcome->Err_0 is Request
                && outcome->Err_0->Request_0@ == http_error_message(error),
        },
        match posted(
            request.uri@,
            seq![
                (request.headers@[0].0@, request.headers@[0].1@),
                (request.headers@[1].0@, request.headers@[1].1@),
                (request.headers@[2].0@, request.headers@[2].1@),
                (request.headers@[3].0@, request.headers@[3].1@),
            ],
            request.body@,
        ) {
            Ok(built) => outcome == Ok::<isahc::http::Request<String>, SendError>(built),
            Err(error) => outcome is Err && outcome->Err_0 is Request
                && outcome->Err_0->Request_0@ == http_error_message(error),
        },
{
    let a = &request.headers[0];
    let b = &request.headers[1];
    let c = &request.headers[2];
    let d = &request.headers[3];
    assert(header_texts(request.headers@) =~= seq![
        (a.0@, a.1@),
        (b.0@, b.1@),
        (c.0@, c.1@),
        (d.0@, d.1@),
    ]);
    judge_request(
        post(
            request.uri.as_str(),
            (a.0.as_str(), a.1.as_str()),
            (b.0.as_str(), b.1.as_str()),
            (c.0.as_str(), c.1.as_str()),
            (d.0.as_str(), d.1.as_str()),
            request.body.clone(),
        ),
    )
}

/// What TopMind answers.
#[derive(Debug, PartialEq)]
pub enum TopMindResponse {
    Success,
    /// An error, with what it says.
    Error(String),
}

/// What came back for a request.
#[derive(Debug, PartialEq)]
pub enum Reply {
    /// Nothing: the request could not be sent, for this reason.
    Nothing(String),
    /// Something that is not text, for this reason.
    NotText(String),
    /// A text that is no answer, and why it is none.
    Unreadable { data: String, cause: String },
    /// An answer.
    Answer(TopMindResponse),
}

/// Why a payload was not taken, with what lies behind it.
#[derive(Debug, PartialEq)]
pub enum SendError {
    /// The payload could not be printed.
    Body(String),
    /// The request could not be built, for this reason.
    Request(String),
    /// The request with this tracking id could not be sent.
    Transport { tracking_id: String, cause: String },
    /// The reply was not text.
    NotText(String),
    /// The reply was this text, which is no answer.
    Unreadable { data: String, cause: String },
    /// TopMind refused the payload.
    Refused(String),
}

impl SendError {
    /// What the error says.
    pub open spec fn message(&self) -> Seq<char> {
        match self {
            SendError::Body(_) => "Failed to build TopMind request"@,
            SendError::Request(reason) => reason@,
            SendError::Transport { tracking_id, .. } =>
                "Error sending the TopMind request with tracking_id="@ + tracking_id@,
            SendError::NotText(_) =>
                "Invalid format of the TopMind response, received data isn't even a string"@,
            SendError::Unreadable { data, .. } =>
                "Invalid format of the TopMind response, received data = '"@ + data@ + "'"@,
            SendError::Refused(_) => "TopMind responded with the error"@,
        }
    }

    /// What lies behind the error, where it does not say so itself.
    pub open spec fn reason(&self) -> Option<Seq<char>> {
        match self {
            SendError::Body(cause) => Some(cause@),
            SendError::Request(_) => None,
            SendError::Transport { cause, .. } => Some(cause@),
            SendError::NotText(cause) => Some(cause@),
            SendError::Unreadable { cause, .. } => Some(cause@),
            SendError::Refused(detail) => Some(detail@),
        }
    }

    /// What the error says.
    pub fn text(&self) -> (text: String)
        ensures
            text@ == self.message(),
            match self {
                SendError::Body(_) => text@ == "Failed to build TopMind request"@,
                SendError::Request(reason) => text@ == reason@,
                SendError::Transport { tracking_id, .. } => text@
                    == "Error sending the TopMind request with tracking_id="@ + tracking_id@,
                SendError::NotText(_) => text@
                    == "Invalid format of the TopMind response, received data isn't even a string"@,
                SendError::Unreadable { data, .. } => text@
                    == "Invalid format of the TopMind response, received data = '"@ + data@ + "'"@,
                SendError::Refused(_) => text@ == "TopMind responded with the error"@,
            },
    {
        match self {
            SendError::Body(_) => "Failed to build TopMind request".to_owned(),
            SendError::Request(reason) => reason.clone(),
            SendError::Transport { tracking_id, .. } =>
                "Error sending the TopMind request with tracking_id="
                .to_owned()
                .concat(tracking_id.as_str()),
            SendError::NotText(_) =>
                "Invalid format of the TopMind response, received data isn't even a string"
                .to_owned(),
            SendError::Unreadable { data, .. } =>
                "Invalid format of the TopMind response, received data = '"
                .to_owned()
                .concat(data.as_str())
                .concat("'"),
            SendError::Refused(_) => "TopMind responded with the error".to_owned(),
        }
    }

    /// What lies behind the error, where it does not say so itself.
    pub fn cause(&self) -> (cause: Option<&str>)
        ensures
            self.reason() == match cause {
                Some(text) => Some(text@),
                None => None,
            },
            match self {
                SendError::Body(reason) => cause is Some && cause->0@ == reason@,
                SendError::Request(_) => cause is None,
                SendError::Transport { cause: reason, .. } => cause is Some && cause->0@ == reason@,
                SendError::NotText(reason) => cause is Some && cause->0@ == reason@,
                SendError::Unreadable { cause: reason, .. } => cause is Some && cause->0@
                    == reason@,
                SendError::Refused(detail) => cause is Some && cause->0@ == detail@,
            },
    {
        match self {
            SendError::Body(cause) => Some(cause.as_str()),
            SendError::Request(_) => None,
            SendError::Transport { cause, .. } => Some(cause.as_str()),
            SendError::NotText(cause) => Some(cause.as_str()),
            SendError::Unreadable { cause, .. } => Some(cause.as_str()),
            SendError::Refused(detail) => Some(detail.as_str()),
        }
    }
}

/// Whether the payload was taken: only an answer that is no error says so. Otherwise the
/// error keeps what lies behind it.
pub fn judge_reply(tracking_id: &str, reply: Reply) -> (outcome: Result<(), SendError>)
    ensures
        match reply {
            Reply::Nothing(cause) => outcome is Err && outcome->Err_0 is Transport
                && outcome->Err_0->tracking_id@ == tracking_id@ && outcome->Err_0.reason() == Some(
                cause@,
            ) && outcome->Err_0->Transport_cause == cause,
            Reply::NotText(cause) => outcome == Err::<(), SendError>(SendError::NotText(cause)),
            Reply::Unreadable { data, cause } => outcome == Err::<(), SendError>(
                (SendError::Unreadable { data, cause }),
            ),
            Reply::Answer(TopMindResponse::Error(detail)) => outcome == Err::<(), SendError>(
                SendError::Refused(detail),
            ),
            Reply::Answer(TopMindResponse::Success) => outcome is Ok,
        },
{
    match reply {
        Reply::Nothing(cause) => Err(
            SendError::Transport { tracking_id: tracking_id.to_owned(), cause },
        ),
        Reply::NotText(cause) => Err(SendError::NotText(cause)),
        Reply::Unreadable { data, cause } => Err(SendError::Unreadable { data, cause }),
        Reply::Answer(TopMindResponse::Error(detail)) => Err(SendError::Refused(detail)),
        Reply::Answer(TopMindResponse::Success) => Ok(()),
    }
}

} // verus!

//! Agents, the topics they meet on, and what the agent does on a notification.

use svc_agent::mqtt::SubscriptionTopic;
use vstd::prelude::*;
use vstd::string::*;

verus! {

/// The version of the API that the agent speaks.
pub const API_VERSION: &'static str = "v1";

/// The topic of the broadcast events that the agent subscribes to.
pub const AUDIENCE_EVENTS_TOPIC: &'static str = "apps/+/api/+/audiences/#";

/// The label of the group in which the agent shares its subscriptions.
pub const SHARED_GROUP_LABEL: &'static str = "loadbalancer";

/// The error of the `svc_agent` crate.
#[verifier::external_type_specification]
#[verifier::external_body]
pub struct ExAgentError(svc_agent::Error);

/// The account of an agent.
#[derive(Debug, PartialEq)]
pub struct AccountId {
    pub label: String,
    pub audience: String,
}

/// An agent: a label and the account behind it.
#[derive(Debug, PartialEq)]
pub struct AgentId {
    pub label: String,
    pub account_id: AccountId,
}

impl AccountId {
    /// `LABEL.AUDIENCE`.
    pub open spec fn text(&self) -> Seq<char> {
        self.label@ + seq!['.'] + self.audience@
    }
}

impl AgentId {
    /// `LABEL.ACCOUNT_ID`.
    pub open spec fn text(&self) -> Seq<char> {
        self.label@ + seq!['.'] + self.account_id.text()
    }
}

/// The topic on which the account `to` gets the multicast requests of the agent `from`.
pub open spec fn multicast_topic(
    from: Seq<char>,
    version: Seq<char>,
    to: Seq<char>,
) -> Seq<char> {
    "agents/"@ + from + "/api/"@ + version + "/out/"@ + to
}

/// `svc_agent::Subscription::multicast_requests_from` and, on what it gives,
/// `subscription_topic`, for agents that `svc_agent::AgentId::new` and
/// `svc_agent::AccountId::new` make of their parts. There is always a topic; it names
/// the sender in full, the version, and the account of the receiver.
#[verifier::external_body]
fn multicast_requests_topic(
    from: &AgentId,
    version: &str,
    me: &AgentId,
) -> (topic: Result<String, svc_agent::Error>)
    ensures
        topic is Ok,
        topic->Ok_0@ == multicast_topic(from.text(), version@, me.account_id.text()),
{
    let account = svc_agent::AccountId::new(&from.account_id.label, &from.account_id.audience);
    let sender = svc_agent::AgentId::new(&from.label, account);
    let account = svc_agent::AccountId::new(&me.account_id.label, &me.account_id.audience);
    let receiver = svc_agent::AgentId::new(&me.label, account);
    svc_agent::Subscription::multicast_requests_from(&sender, Some(version))
        .subscription_topic(&receiver, version)
}

/// The topic on which `me` gets the telemetry of the agent `from`. The `svc_agent` crate
/// could refuse to name one, but does not for this kind of subscription.
pub fn telemetry_topic(from: &AgentId, me: &AgentId) -> (topic: Option<String>)
    ensures
        topic matches Some(t) && t@ == multicast_topic(
            from.text(),
            API_VERSION@,
            me.account_id.text(),
        ),
        topic is Some && topic->0@ == "agents/"@ + from.label@ + seq!['.'] + from.account_id.label@
            + seq!['.'] + from.account_id.audience@ + "/api/"@ + API_VERSION@ + "/out/"@
            + me.account_id.label@ + seq!['.'] + me.account_id.audience@,
{
    proof {
        assert(multicast_topic(from.text(), API_VERSION@, me.account_id.text()) =~= "agents/"@
            + from.label@ + seq!['.'] + from.account_id.label@ + seq!['.']
            + from.account_id.audience@ + "/api/"@ + API_VERSION@ + "/out/"@ + me.account_id.label@
            + seq!['.'] + me.account_id.audience@);
    }
    match multicast_requests_topic(from, API_VERSION, me) {
        Ok(topic) => Some(topic),
        Err(_) => None,
    }
}

/// What the MQTT client tells the agent.
#[derive(Debug, Clone, Copy, PartialEq, Eq)]
pub enum Notification {
    Message,
    Reconnection,
    Disconnection,
    Puback,
    Pubrec,
    Pubcomp,
    Suback,
    Unsuback,
    Abort,
}

/// What the agent does about it.
#[derive(Debug, Clone, Copy, PartialEq, Eq)]
pub enum Reaction {
    HandleMessage,
    Subscribe,
    ReportDisconnection,
    ReportAbort,
    Nothing,
}

/// The reaction to a notification: messages are handled, a reconnection calls for new
/// subscriptions, a lost connection and an abort are reported, and acknowledgements
/// need nothing.
pub fn react(notification: Notification) -> (reaction: Reaction)
    ensures
        reaction == Reaction::HandleMessage <==> notification == Notification::Message,
        reaction == Reaction::Subscribe <==> notification == Notification::Reconnection,
        reaction == Reaction::ReportDisconnection <==> notification == Notification::Disconnection,
        reaction == Reaction::ReportAbort <==> notification == Notification::Abort,
{
    match notification {
        Notification::Message => Reaction::HandleMessage,
        Notification::Reconnection => Reaction::Subscribe,
        Notification::Disconnection => Reaction::ReportDisconnection,
        Notification::Abort => Reaction::ReportAbort,
        Notification::Puback
        | Notification::Pubrec
        | Notification::Pubcomp
        | Notification::Suback
        | Notification::Unsuback => Reaction::Nothing,
    }
}

} // verus!

//! What the adjustments keep, add and leave alone.

use vstd::prelude::*;

use crate::adjust::{
    account_id_adjusted, agent_id_adjusted, halved, halves_at, integer_replaced, pattern_adjusted,
    payload_adjusted, properties_adjusted, session_id_adjusted, session_tracking_label_replaced,
    string_values, text_at, tracking_id_adjusted, typed_properties_adjusted,
    useragent_tag_adjusted, MessagingPattern,
};
use crate::flatten::flat_key;
use crate::flatten_laws::{below, is_flat, lemma_below_flat_key, lemma_below_transitive};
use crate::json::JsonView;
use crate::text::{
    cut, fields, joined, lemma_cut_head_is_clean, lemma_cut_of_two, lemma_cut_rejoins,
    lemma_fields_rejoin,
};

verus! {

/// Whether two maps agree on `key`: both lack it, or both have the same value there.
pub open spec fn same_at(
    a: Map<Seq<char>, JsonView>,
    b: Map<Seq<char>, JsonView>,
    key: Seq<char>,
) -> bool {
    a.contains_key(key) == b.contains_key(key) && a[key] == b[key]
}

/// Whether two maps agree on `key` as far as they have it.
pub open spec fn agree_at(
    a: Map<Seq<char>, JsonView>,
    b: Map<Seq<char>, JsonView>,
    key: Seq<char>,
) -> bool {
    a.contains_key(key) == b.contains_key(key) && (a.contains_key(key) ==> a[key] == b[key])
}

/// What lies outside a section lies outside every part of it.
proof fn lemma_literal_below(section: Seq<char>, part: Seq<char>, key: Seq<char>)
    requires
        part.len() > section.len(),
        part.take(section.len() as int) =~= section,
        part[section.len() as int] == '.',
        !below(key, section),
    ensures
        below(part, section),
        key != part,
        !below(key, part),
{
    if below(key, part) {
        lemma_below_transitive(key, part, section);
    }
}

proof fn lemma_halved_frame(
    at: Seq<char>,
    first: Seq<char>,
    second: Seq<char>,
    map: Map<Seq<char>, JsonView>,
    key: Seq<char>,
)
    requires
        at.len() > 0,
        !below(key, at),
    ensures
        same_at(halved(at, first, second, map), map, key),
{
    lemma_below_flat_key(at, first);
    lemma_below_flat_key(at, second);
}

/// `map` with the two halves of the text under `key` stored, and those of the second
/// half in turn.
spec fn nested(
    key: Seq<char>,
    first: Seq<char>,
    second: Seq<char>,
    x: Seq<char>,
    y: Seq<char>,
    map: Map<Seq<char>, JsonView>,
) -> Map<Seq<char>, JsonView> {
    if halves_at(key, map) is Some {
        halved(flat_key(second, key), x, y, halved(key, first, second, map))
    } else {
        map
    }
}

proof fn lemma_nested_frame(
    at: Seq<char>,
    first: Seq<char>,
    second: Seq<char>,
    x: Seq<char>,
    y: Seq<char>,
    map: Map<Seq<char>, JsonView>,
    key: Seq<char>,
)
    requires
        at.len() > 0,
        !below(key, at),
    ensures
        same_at(nested(at, first, second, x, y, map), map, key),
{
    let next = flat_key(second, at);
    lemma_halved_frame(at, first, second, map, key);
    lemma_below_flat_key(at, second);
    assert(below(key, next) ==> below(key, at));
    lemma_halved_frame(next, x, y, halved(at, first, second, map), key);
}

proof fn lemma_useragent_frame(at: Seq<char>, map: Map<Seq<char>, JsonView>, key: Seq<char>)
    requires
        at.len() > 0,
        !below(key, at),
    ensures
        same_at(useragent_tag_adjusted(at, map), map, key),
{
    lemma_below_flat_key(at, "name"@);
    lemma_below_flat_key(at, "category"@);
    lemma_below_flat_key(at, "os"@);
    lemma_below_flat_key(at, "os_version"@);
    lemma_below_flat_key(at, "browser_type"@);
    lemma_below_flat_key(at, "version"@);
    lemma_below_flat_key(at, "vendor"@);
}

/// One adjustment of what stands under a key.
enum Step {
    AccountId(Seq<char>),
    AgentId(Seq<char>),
    TrackingId(Seq<char>),
    SessionTrackingLabel(Seq<char>),
    Integer(Seq<char>),
    UserAgent(Seq<char>),
}

impl Step {
    /// The key whose value is adjusted.
    spec fn at(self) -> Seq<char> {
        match self {
            Step::AccountId(at) => at,
            Step::AgentId(at) => at,
            Step::TrackingId(at) => at,
            Step::SessionTrackingLabel(at) => at,
            Step::Integer(at) => at,
            Step::UserAgent(at) => at,
        }
    }

    /// `map` with the adjustment made.
    spec fn applied(self, map: Map<Seq<char>, JsonView>) -> Map<Seq<char>, JsonView> {
        match self {
            Step::AccountId(at) => account_id_adjusted(at, map),
            Step::AgentId(at) => agent_id_adjusted(at, map),
            Step::TrackingId(at) => tracking_id_adjusted(at, map),
            Step::SessionTrackingLabel(at) => session_tracking_label_replaced(at, map),
            Step::Integer(at) => integer_replaced(at, map),
            Step::UserAgent(at) => useragent_tag_adjusted(at, map),
        }
    }

    /// Whether the adjustment may read or write `key`.
    spec fn covers(self, key: Seq<char>) -> bool {
        key == self.at() || below(key, self.at())
    }
}

/// `map` after the first `n` of `steps`.
spec fn all_applied(
    steps: Seq<Step>,
    n: nat,
    map: Map<Seq<char>, JsonView>,
) -> Map<Seq<char>, JsonView>
    decreases n,
{
    if n == 0 {
        map
    } else {
        steps[n - 1].applied(all_applied(steps, (n - 1) as nat, map))
    }
}

/// The adjustments that the properties of every message get.
spec fn property_steps() -> Seq<Step> {
    seq![
        Step::AgentId("properties.agent_id"@),
        Step::AgentId("properties.broker_agent_id"@),
        Step::TrackingId("properties.tracking_id"@),
        Step::SessionTrackingLabel("properties.session_tracking_label"@),
        Step::Integer("properties.status"@),
        Step::Integer("properties.broker_initial_processing_timestamp"@),
        Step::Integer("properties.broker_processing_timestamp"@),
        Step::Integer("properties.broker_timestamp"@),
        Step::Integer("properties.local_initial_timediff"@),
        Step::Integer("properties.initial_timestamp"@),
        Step::Integer("properties.timestamp"@),
        Step::Integer("properties.authorization_time"@),
        Step::Integer("properties.processing_time"@),
        Step::Integer("properties.cumulative_authorization_time"@),
        Step::Integer("properties.cumulative_processing_time"@),
    ]
}

/// The adjustments that the addresses of a message get.
spec fn pattern_steps(pattern: MessagingPattern) -> Seq<Step> {
    match pattern {
        MessagingPattern::Broadcast(_) => seq![Step::AccountId("pattern.from.account_id"@)],
        MessagingPattern::Multicast(_) => seq![
            Step::AgentId("pattern.from"@),
            Step::AccountId("pattern.to.account_id"@),
        ],
        MessagingPattern::Unicast(_) => seq![
            Step::AccountId("pattern.from"@),
            Step::AgentId("pattern.to.agent_id"@),
        ],
    }
}

/// The adjustments that the payload of a message gets.
spec fn payload_steps() -> Seq<Step> {
    seq![
        Step::AgentId("payload.agent_id"@),
        Step::AgentId("payload.created_by"@),
        Step::UserAgent("payload.tags.user_agent"@),
    ]
}

proof fn lemma_property_steps(map: Map<Seq<char>, JsonView>)
    ensures
        property_steps().len() == 15,
        all_applied(property_steps(), 15, map) == properties_adjusted(map),
{
    reveal_with_fuel(all_applied, 16);
}

proof fn lemma_pattern_steps(pattern: MessagingPattern, map: Map<Seq<char>, JsonView>)
    ensures
        1 <= pattern_steps(pattern).len() <= 2,
        all_applied(pattern_steps(pattern), pattern_steps(pattern).len(), map) == pattern_adjusted(
            pattern,
            map,
        ),
{
    reveal_with_fuel(all_applied, 3);
}

proof fn lemma_payload_steps(map: Map<Seq<char>, JsonView>)
    ensures
        payload_steps().len() == 3,
        all_applied(payload_steps(), 3, map) == payload_adjusted(map),
{
    reveal_with_fuel(all_applied, 4);
}

/// Whether two keys have different characters at some position.
spec fn parted(a: Seq<char>, b: Seq<char>) -> bool {
    exists|p: int| 0 <= p < a.len() && p < b.len() && #[trigger] a[p] != b[p]
}

/// No key is covered by two adjustments of parted keys.
proof fn lemma_parted(a: Step, b: Step, key: Seq<char>)
    requires
        parted(a.at(), b.at()),
        a.covers(key),
    ensures
        !b.covers(key),
{
    if b.covers(key) {
        let p = choose|p: int|
            0 <= p < a.at().len() && p < b.at().len() && #[trigger] a.at()[p] != b.at()[p];
        assert(key.take(a.at().len() as int) =~= a.at());
        assert(key.take(b.at().len() as int) =~= b.at());
        assert(key.take(a.at().len() as int)[p] == key[p]);
        assert(key.take(b.at().len() as int)[p] == key[p]);
    }
}

/// Whether each of the first `n` steps has a key, and no two have keys on the same way.
spec fn all_parted(steps: Seq<Step>, n: nat) -> bool {
    &&& n <= steps.len()
    &&& forall|i: int| 0 <= i < n ==> (#[trigger] steps[i]).at().len() > 0
    &&& forall|i: int, j: int|
        0 <= i < j < n ==> parted((#[trigger] steps[i]).at(), (#[trigger] steps[j]).at())
}

proof fn lemma_property_keys_parted(i: int, j: int)
    requires
        0 <= i < j < 15,
    ensures
        property_steps()[i].at().len() > 0,
        property_steps()[j].at().len() > 0,
        parted(property_steps()[i].at(), property_steps()[j].at()),
{
    reveal_strlit("properties.agent_id");
    reveal_strlit("properties.broker_agent_id");
    reveal_strlit("properties.tracking_id");
    reveal_strlit("properties.session_tracking_label");
    reveal_strlit("properties.status");
    reveal_strlit("properties.broker_initial_processing_timestamp");
    reveal_strlit("properties.broker_processing_timestamp");
    reveal_strlit("properties.broker_timestamp");
    reveal_strlit("properties.local_initial_timediff");
    reveal_strlit("properties.initial_timestamp");
    reveal_strlit("properties.timestamp");
    reveal_strlit("properties.authorization_time");
    reveal_strlit("properties.processing_time");
    reveal_strlit("properties.cumulative_authorization_time");
    reveal_strlit("properties.cumulative_processing_time");
    let a = property_steps()[i].at();
    let b = property_steps()[j].at();
    assert(a.len() > 12 && b.len() > 12);
    assert(a[11] != b[11] || a[12] != b[12] || (a.len() > 18 && b.len() > 18 && a[18] != b[18])
        || (a.len() > 22 && b.len() > 22 && a[22] != b[22]));
}

proof fn lemma_properties_parted()
    ensures
        all_parted(property_steps(), 15),
{
    assert(property_steps().len() == 15);
    assert forall|i: int| 0 <= i < 15 implies (#[trigger] property_steps()[i]).at().len() > 0 by {
        if i == 0 {
            lemma_property_keys_parted(0, 1);
        } else {
            lemma_property_keys_parted(0, i);
        }
    }
    assert forall|i: int, j: int| 0 <= i < j < 15 implies parted(
        (#[trigger] property_steps()[i]).at(),
        (#[trigger] property_steps()[j]).at(),
    ) by {
        lemma_property_keys_parted(i, j);
    }
}

proof fn lemma_pattern_parted(pattern: MessagingPattern)
    ensures
        all_parted(pattern_steps(pattern), pattern_steps(pattern).len()),
{
    reveal_strlit("pattern.from");
    reveal_strlit("pattern.from.account_id");
    reveal_strlit("pattern.to.account_id");
    reveal_strlit("pattern.to.agent_id");
    assert("pattern.from"@[8] != "pattern.to.account_id"@[8]);
    assert("pattern.from"@[8] != "pattern.to.agent_id"@[8]);
}

proof fn lemma_payload_parted()
    ensures
        all_parted(payload_steps(), 3),
{
    reveal_strlit("payload.agent_id");
    reveal_strlit("payload.created_by");
    reveal_strlit("payload.tags.user_agent");
    assert("payload.agent_id"@[8] != "payload.created_by"@[8]);
    assert("payload.agent_id"@[8] != "payload.tags.user_agent"@[8]);
    assert("payload.created_by"@[8] != "payload.tags.user_agent"@[8]);
}

/// An adjustment leaves alone what it does not cover.
proof fn lemma_step_frame(step: Step, map: Map<Seq<char>, JsonView>, key: Seq<char>)
    requires
        step.at().len() > 0,
        !step.covers(key),
    ensures
        same_at(step.applied(map), map, key),
{
    match step {
        Step::AccountId(at) => lemma_halved_frame(at, "label"@, "audience"@, map, key),
        Step::AgentId(at) => {
            lemma_nested_frame(at, "label"@, "account_id"@, "label"@, "audience"@, map, key)
        },
        Step::TrackingId(at) => {
            let (x, y) = ("agent_session_label"@, "broker_session_label"@);
            lemma_nested_frame(at, "label"@, "session_id"@, x, y, map, key)
        },
        Step::UserAgent(at) => lemma_useragent_frame(at, map, key),
        _ => {},
    }
}

/// No adjustment stores an object.
proof fn lemma_step_flat(step: Step, map: Map<Seq<char>, JsonView>)
    requires
        is_flat(map),
    ensures
        is_flat(step.applied(map)),
{
}

/// No adjustment removes a key.
proof fn lemma_step_keeps(step: Step, map: Map<Seq<char>, JsonView>, key: Seq<char>)
    requires
        map.contains_key(key),
    ensures
        step.applied(map).contains_key(key),
{
}

/// An adjustment makes the same of maps that are the same where it covers them.
proof fn lemma_step_local(
    step: Step,
    a: Map<Seq<char>, JsonView>,
    b: Map<Seq<char>, JsonView>,
    key: Seq<char>,
)
    requires
        step.at().len() > 0,
        forall|k: Seq<char>| step.covers(k) ==> #[trigger] same_at(a, b, k),
        step.covers(key),
    ensures
        same_at(step.applied(a), step.applied(b), key),
{
    let at = step.at();
    assert(same_at(a, b, at));
    assert(same_at(a, b, key));
    match step {
        Step::AgentId(_) => {
            let inner = flat_key("account_id"@, at);
            lemma_below_flat_key(at, "account_id"@);
            assert(same_at(a, b, inner));
        },
        Step::TrackingId(_) => {
            let inner = flat_key("session_id"@, at);
            lemma_below_flat_key(at, "session_id"@);
            assert(same_at(a, b, inner));
        },
        _ => {},
    }
}

/// An adjustment makes the same of maps that agree where it covers them.
proof fn lemma_step_agrees(
    step: Step,
    a: Map<Seq<char>, JsonView>,
    b: Map<Seq<char>, JsonView>,
    key: Seq<char>,
)
    requires
        step.at().len() > 0,
        forall|k: Seq<char>| step.covers(k) ==> #[trigger] agree_at(a, b, k),
        step.covers(key),
    ensures
        agree_at(step.applied(a), step.applied(b), key),
{
    let at = step.at();
    assert(agree_at(a, b, at));
    assert(agree_at(a, b, key));
    match step {
        Step::AgentId(_) => {
            let inner = flat_key("account_id"@, at);
            lemma_below_flat_key(at, "account_id"@);
            assert(agree_at(a, b, inner));
        },
        Step::TrackingId(_) => {
            let inner = flat_key("session_id"@, at);
            lemma_below_flat_key(at, "session_id"@);
            assert(agree_at(a, b, inner));
        },
        _ => {},
    }
}

/// Making an adjustment twice is making it once.
proof fn lemma_step_twice(step: Step, map: Map<Seq<char>, JsonView>)
    requires
        step.at().len() > 0,
    ensures
        step.applied(step.applied(map)) == step.applied(map),
{
    lemma_names();
    match step {
        Step::AccountId(at) => lemma_halved_twice(at, "label"@, "audience"@, map),
        Step::AgentId(at) => {
            lemma_nested_twice(at, "label"@, "account_id"@, "label"@, "audience"@, map)
        },
        Step::TrackingId(at) => {
            let (x, y) = ("agent_session_label"@, "broker_session_label"@);
            lemma_nested_twice(at, "label"@, "session_id"@, x, y, map)
        },
        Step::UserAgent(at) => lemma_useragent_twice(at, map),
        _ => {
            law_replacing_twice(step.at(), map);
        },
    }
}

/// What no step covers is left alone by all of them.
proof fn lemma_steps_frame(
    steps: Seq<Step>,
    n: nat,
    map: Map<Seq<char>, JsonView>,
    key: Seq<char>,
)
    requires
        all_parted(steps, n),
        forall|i: int| 0 <= i < n ==> !(#[trigger] steps[i]).covers(key),
    ensures
        same_at(all_applied(steps, n, map), map, key),
    decreases n,
{
    if n > 0 {
        lemma_steps_frame(steps, (n - 1) as nat, map, key);
        lemma_step_frame(steps[n - 1], all_applied(steps, (n - 1) as nat, map), key);
    }
}

proof fn lemma_steps_flat(steps: Seq<Step>, n: nat, map: Map<Seq<char>, JsonView>)
    requires
        is_flat(map),
    ensures
        is_flat(all_applied(steps, n, map)),
    decreases n,
{
    if n > 0 {
        lemma_steps_flat(steps, (n - 1) as nat, map);
        lemma_step_flat(steps[n - 1], all_applied(steps, (n - 1) as nat, map));
    }
}

proof fn lemma_steps_keep(
    steps: Seq<Step>,
    n: nat,
    map: Map<Seq<char>, JsonView>,
    key: Seq<char>,
)
    requires
        map.contains_key(key),
    ensures
        all_applied(steps, n, map).contains_key(key),
    decreases n,
{
    if n > 0 {
        lemma_steps_keep(steps, (n - 1) as nat, map, key);
        lemma_step_keeps(steps[n - 1], all_applied(steps, (n - 1) as nat, map), key);
    }
}

/// A step that was made leaves nothing to do, whatever parted steps came after it.
proof fn lemma_step_settled(steps: Seq<Step>, n: nat, map: Map<Seq<char>, JsonView>, i: int)
    requires
        all_parted(steps, n),
        0 <= i < n,
    ensures
        steps[i].applied(all_applied(steps, n, map)) == all_applied(steps, n, map),
    decreases n,
{
    let m = (n - 1) as nat;
    let before = all_applied(steps, m, map);
    let last = steps[n - 1];
    let after = last.applied(before);
    if i == n - 1 {
        lemma_step_twice(last, before);
    } else {
        let step = steps[i];
        lemma_step_settled(steps, m, map, i);
        assert forall|k: Seq<char>| step.covers(k) implies #[trigger] same_at(after, before, k) by {
            lemma_parted(step, last, k);
            lemma_step_frame(last, before, k);
        }
        assert forall|k: Seq<char>| #[trigger] agree_at(step.applied(after), after, k) by {
            if step.covers(k) {
                lemma_step_local(step, after, before, k);
                assert(same_at(after, before, k));
            } else {
                lemma_step_frame(step, after, k);
            }
        }
        lemma_agree_everywhere(step.applied(after), after);
    }
}

proof fn lemma_agree_everywhere(a: Map<Seq<char>, JsonView>, b: Map<Seq<char>, JsonView>)
    requires
        forall|k: Seq<char>| #[trigger] agree_at(a, b, k),
    ensures
        a == b,
{
    assert forall|k: Seq<char>| #[trigger] a.dom().contains(k) == b.dom().contains(k) by {
        assert(agree_at(a, b, k));
    }
    assert(a.dom() =~= b.dom());
    assert forall|k: Seq<char>| #[trigger] a.dom().contains(k) implies a[k] == b[k] by {
        assert(agree_at(a, b, k));
    }
    assert(a =~= b);
}

/// Making all of parted steps twice is making them once.
proof fn lemma_steps_twice(steps: Seq<Step>, n: nat, total: nat, map: Map<Seq<char>, JsonView>)
    requires
        all_parted(steps, total),
        n <= total,
    ensures
        all_applied(steps, n, all_applied(steps, total, map)) == all_applied(steps, total, map),
    decreases n,
{
    if n > 0 {
        lemma_steps_twice(steps, (n - 1) as nat, total, map);
        lemma_step_settled(steps, total, map, n - 1);
    }
}

/// Each property that is adjusted lies below `properties`, and none on the way to the
/// place where the kind of a message is noted.
proof fn lemma_property_key(i: int)
    requires
        0 <= i < 15,
    ensures
        below(property_steps()[i].at(), "properties"@),
        !property_steps()[i].covers("properties.type"@),
{
    reveal_strlit("properties");
    reveal_strlit("properties.type");
    reveal_strlit("properties.agent_id");
    reveal_strlit("properties.broker_agent_id");
    reveal_strlit("properties.tracking_id");
    reveal_strlit("properties.session_tracking_label");
    reveal_strlit("properties.status");
    reveal_strlit("properties.broker_initial_processing_timestamp");
    reveal_strlit("properties.broker_processing_timestamp");
    reveal_strlit("properties.broker_timestamp");
    reveal_strlit("properties.local_initial_timediff");
    reveal_strlit("properties.initial_timestamp");
    reveal_strlit("properties.timestamp");
    reveal_strlit("properties.authorization_time");
    reveal_strlit("properties.processing_time");
    reveal_strlit("properties.cumulative_authorization_time");
    reveal_strlit("properties.cumulative_processing_time");
    let at = property_steps()[i].at();
    assert(at.take(10) =~= "properties"@);
    assert(at.len() > "properties.type"@.len());
}

/// Adjusting the properties touches only keys below `properties`.
pub proof fn law_properties_touch_only_properties(
    map: Map<Seq<char>, JsonView>,
    key: Seq<char>,
)
    requires
        !below(key, "properties"@),
    ensures
        same_at(properties_adjusted(map), map, key),
{
    assert forall|i: int| 0 <= i < 15 implies !(#[trigger] property_steps()[i]).covers(key) by {
        lemma_property_key(i);
        if below(key, property_steps()[i].at()) {
            lemma_below_transitive(key, property_steps()[i].at(), "properties"@);
        }
    }
    lemma_properties_parted();
    lemma_property_steps(map);
    lemma_steps_frame(property_steps(), 15, map, key);
}

/// Noting the kind of a message and adjusting its properties touches only keys below
/// `properties`.
pub proof fn law_typed_properties_touch_only_properties(
    kind: Seq<char>,
    map: Map<Seq<char>, JsonView>,
    key: Seq<char>,
)
    requires
        !below(key, "properties"@),
    ensures
        same_at(typed_properties_adjusted(kind, map), map, key),
{
    reveal_strlit("properties");
    reveal_strlit("properties.type");
    lemma_literal_below("properties"@, "properties.type"@, key);
    law_properties_touch_only_properties(
        map.insert("properties.type"@, JsonView::String(kind)),
        key,
    );
}

/// Adjusting the addresses touches only keys below `pattern`.
pub proof fn law_pattern_touches_only_pattern(
    pattern: MessagingPattern,
    map: Map<Seq<char>, JsonView>,
    key: Seq<char>,
)
    requires
        !below(key, "pattern"@),
    ensures
        same_at(pattern_adjusted(pattern, map), map, key),
{
    reveal_strlit("pattern");
    reveal_strlit("pattern.from");
    reveal_strlit("pattern.from.account_id");
    reveal_strlit("pattern.to.account_id");
    reveal_strlit("pattern.to.agent_id");
    lemma_literal_below("pattern"@, "pattern.from"@, key);
    lemma_literal_below("pattern"@, "pattern.from.account_id"@, key);
    lemma_literal_below("pattern"@, "pattern.to.account_id"@, key);
    lemma_literal_below("pattern"@, "pattern.to.agent_id"@, key);
    lemma_pattern_parted(pattern);
    lemma_pattern_steps(pattern, map);
    lemma_steps_frame(pattern_steps(pattern), pattern_steps(pattern).len(), map, key);
}

/// Adjusting the payload touches only keys below `payload`.
pub proof fn law_payload_touches_only_payload(map: Map<Seq<char>, JsonView>, key: Seq<char>)
    requires
        !below(key, "payload"@),
    ensures
        same_at(payload_adjusted(map), map, key),
{
    reveal_strlit("payload");
    reveal_strlit("payload.agent_id");
    reveal_strlit("payload.created_by");
    reveal_strlit("payload.tags.user_agent");
    lemma_literal_below("payload"@, "payload.agent_id"@, key);
    lemma_literal_below("payload"@, "payload.created_by"@, key);
    lemma_literal_below("payload"@, "payload.tags.user_agent"@, key);
    lemma_payload_parted();
    lemma_payload_steps(map);
    lemma_steps_frame(payload_steps(), 3, map, key);
}

/// Without payload keys there is nothing in the payload to adjust.
pub proof fn law_payload_adjustment_needs_payload(map: Map<Seq<char>, JsonView>)
    requires
        forall|key: Seq<char>| #[trigger] map.contains_key(key) ==> !below(key, "payload"@),
    ensures
        payload_adjusted(map) == map,
{
    reveal_strlit("payload");
    reveal_strlit("payload.agent_id");
    reveal_strlit("payload.created_by");
    reveal_strlit("payload.tags.user_agent");
    assert("payload.agent_id"@.take(7) =~= "payload"@);
    assert("payload.created_by"@.take(7) =~= "payload"@);
    assert("payload.tags.user_agent"@.take(7) =~= "payload"@);
    assert(!map.contains_key("payload.agent_id"@));
    assert(!map.contains_key("payload.created_by"@));
    assert(!map.contains_key("payload.tags.user_agent"@));
}

/// Taking texts apart writes only below keys that were there before.
proof fn lemma_steps_write_only_below(
    steps: Seq<Step>,
    n: nat,
    map: Map<Seq<char>, JsonView>,
    key: Seq<char>,
)
    requires
        all_parted(steps, n),
        forall|i: int|
            0 <= i < n ==> !(#[trigger] steps[i] is SessionTrackingLabel) && !(steps[i] is Integer)
                && (map.contains_key(steps[i].at()) ==> !below(key, steps[i].at())),
    ensures
        same_at(all_applied(steps, n, map), map, key),
    decreases n,
{
    if n > 0 {
        let m = (n - 1) as nat;
        let before = all_applied(steps, m, map);
        let step = steps[n - 1];
        let at = step.at();
        lemma_steps_write_only_below(steps, m, map, key);
        if below(key, at) {
            assert forall|i: int| 0 <= i < m implies !(#[trigger] steps[i]).covers(at) by {
                if steps[i].covers(at) {
                    lemma_parted(steps[i], step, at);
                }
            }
            lemma_steps_frame(steps, m, map, at);
            assert(step.applied(before) == before);
        } else {
            match step {
                Step::AccountId(_) => lemma_halved_frame(at, "label"@, "audience"@, before, key),
                Step::AgentId(_) => {
                    let (x, y) = ("label"@, "audience"@);
                    lemma_nested_frame(at, "label"@, "account_id"@, x, y, before, key)
                },
                Step::TrackingId(_) => {
                    let (x, y) = ("agent_session_label"@, "broker_session_label"@);
                    lemma_nested_frame(at, "label"@, "session_id"@, x, y, before, key)
                },
                Step::UserAgent(_) => lemma_useragent_frame(at, before, key),
                _ => {},
            }
        }
    }
}

/// Adjusting the payload changes only what lies below an id or a user agent that is
/// there.
pub proof fn law_payload_adjustment_writes_only_below(
    map: Map<Seq<char>, JsonView>,
    key: Seq<char>,
)
    requires
        map.contains_key("payload.agent_id"@) ==> !below(key, "payload.agent_id"@),
        map.contains_key("payload.created_by"@) ==> !below(key, "payload.created_by"@),
        map.contains_key("payload.tags.user_agent"@) ==> !below(key, "payload.tags.user_agent"@),
    ensures
        same_at(payload_adjusted(map), map, key),
{
    lemma_payload_parted();
    lemma_payload_steps(map);
    lemma_steps_write_only_below(payload_steps(), 3, map, key);
}

/// The kind of a message is still noted after its properties are adjusted.
pub proof fn law_kind_is_noted(kind: Seq<char>, map: Map<Seq<char>, JsonView>)
    ensures
        typed_properties_adjusted(kind, map).contains_key("properties.type"@),
        typed_properties_adjusted(kind, map)["properties.type"@] == JsonView::String(kind),
{
    let noted = map.insert("properties.type"@, JsonView::String(kind));
    assert forall|i: int| 0 <= i < 15 implies !(#[trigger] property_steps()[i]).covers(
        "properties.type"@,
    ) by {
        lemma_property_key(i);
    }
    lemma_properties_parted();
    lemma_property_steps(noted);
    lemma_steps_frame(property_steps(), 15, noted, "properties.type"@);
}

/// What becomes of the properties of a request, a response and an event differs only in
/// the kind that is noted.
pub proof fn law_kinds_differ_only_in_type(
    kind: Seq<char>,
    other: Seq<char>,
    map: Map<Seq<char>, JsonView>,
)
    ensures
        typed_properties_adjusted(kind, map) == typed_properties_adjusted(other, map).insert(
            "properties.type"@,
            JsonView::String(kind),
        ),
{
    let off = "properties.type"@;
    let a = map.insert(off, JsonView::String(kind));
    let b = map.insert(off, JsonView::String(other));
    let left = typed_properties_adjusted(kind, map);
    let right = typed_properties_adjusted(other, map).insert(off, JsonView::String(kind));
    assert forall|i: int| 0 <= i < 15 implies !(#[trigger] property_steps()[i]).covers(off) by {
        lemma_property_key(i);
    }
    lemma_properties_parted();
    lemma_property_steps(a);
    lemma_property_steps(b);
    law_kind_is_noted(kind, map);
    assert forall|k: Seq<char>| #[trigger] agree_at(left, right, k) by {
        if k != off {
            lemma_steps_agree(property_steps(), 15, a, b, k);
        }
    }
    lemma_agree_everywhere(left, right);
}

/// Adjusting the properties of a message of some kind is adjusting them and noting the
/// kind.
pub proof fn law_typing_only_adds_the_kind(kind: Seq<char>, map: Map<Seq<char>, JsonView>)
    ensures
        typed_properties_adjusted(kind, map) == properties_adjusted(map).insert(
            "properties.type"@,
            JsonView::String(kind),
        ),
{
    let off = "properties.type"@;
    let a = map.insert(off, JsonView::String(kind));
    let left = typed_properties_adjusted(kind, map);
    let right = properties_adjusted(map).insert(off, JsonView::String(kind));
    assert forall|i: int| 0 <= i < 15 implies !(#[trigger] property_steps()[i]).covers(off) by {
        lemma_property_key(i);
    }
    lemma_properties_parted();
    lemma_property_steps(a);
    lemma_property_steps(map);
    law_kind_is_noted(kind, map);
    assert forall|k: Seq<char>| #[trigger] agree_at(left, right, k) by {
        if k != off {
            lemma_steps_agree(property_steps(), 15, a, map, k);
        }
    }
    lemma_agree_everywhere(left, right);
}

/// Whether `key` is `at`, or `at`, a dot, and then anything.
pub open spec fn at_or_below(key: Seq<char>, at: Seq<char>) -> bool {
    key == at || below(key, at)
}

/// Where a step covers a key, all parted steps together leave there what that step alone
/// would.
proof fn lemma_steps_at(
    steps: Seq<Step>,
    n: nat,
    map: Map<Seq<char>, JsonView>,
    i: int,
    key: Seq<char>,
)
    requires
        all_parted(steps, n),
        0 <= i < n,
        steps[i].covers(key),
    ensures
        same_at(all_applied(steps, n, map), steps[i].applied(map), key),
    decreases n,
{
    let m = (n - 1) as nat;
    let before = all_applied(steps, m, map);
    let step = steps[i];
    if i == n - 1 {
        assert forall|k: Seq<char>| step.covers(k) implies #[trigger] same_at(before, map, k) by {
            assert forall|j: int| 0 <= j < m implies !(#[trigger] steps[j]).covers(k) by {
                if steps[j].covers(k) {
                    lemma_parted(steps[j], step, k);
                }
            }
            lemma_steps_frame(steps, m, map, k);
        }
        lemma_step_local(step, before, map, key);
    } else {
        lemma_steps_at(steps, m, map, i, key);
        lemma_parted(step, steps[n - 1], key);
        lemma_step_frame(steps[n - 1], before, key);
    }
}

/// Steps leave the same under a key in two maps that agree there and wherever a
/// step covers them.
proof fn lemma_steps_agree(
    steps: Seq<Step>,
    n: nat,
    a: Map<Seq<char>, JsonView>,
    b: Map<Seq<char>, JsonView>,
    key: Seq<char>,
)
    requires
        all_parted(steps, n),
        forall|i: int, k: Seq<char>|
            0 <= i < n && (#[trigger] steps[i]).covers(k) ==> #[trigger] agree_at(a, b, k),
        agree_at(a, b, key),
    ensures
        agree_at(all_applied(steps, n, a), all_applied(steps, n, b), key),
{
    if exists|i: int| 0 <= i < n && (#[trigger] steps[i]).covers(key) {
        let i = choose|i: int| 0 <= i < n && (#[trigger] steps[i]).covers(key);
        lemma_steps_at(steps, n, a, i, key);
        lemma_steps_at(steps, n, b, i, key);
        lemma_step_agrees(steps[i], a, b, key);
    } else {
        lemma_steps_frame(steps, n, a, key);
        lemma_steps_frame(steps, n, b, key);
    }
}

proof fn lemma_property_at(kind: Seq<char>, map: Map<Seq<char>, JsonView>, i: int, key: Seq<char>)
    requires
        0 <= i < 15,
        property_steps()[i].covers(key),
    ensures
        same_at(typed_properties_adjusted(kind, map), property_steps()[i].applied(map), key),
{
    let noted = map.insert("properties.type"@, JsonView::String(kind));
    let step = property_steps()[i];
    lemma_properties_parted();
    lemma_property_steps(noted);
    lemma_steps_at(property_steps(), 15, noted, i, key);
    lemma_property_key(i);
    assert forall|k: Seq<char>| step.covers(k) implies #[trigger] same_at(noted, map, k) by {}
    lemma_step_local(step, noted, map, key);
}

/// The properties are adjusted one by one: what becomes of each depends on it alone.
pub proof fn law_properties_are_adjusted_one_by_one(
    kind: Seq<char>,
    map: Map<Seq<char>, JsonView>,
    key: Seq<char>,
)
    ensures
        at_or_below(key, "properties.agent_id"@) ==> same_at(
            typed_properties_adjusted(kind, map),
            agent_id_adjusted("properties.agent_id"@, map),
            key,
        ),
        at_or_below(key, "properties.broker_agent_id"@) ==> same_at(
            typed_properties_adjusted(kind, map),
            agent_id_adjusted("properties.broker_agent_id"@, map),
            key,
        ),
        at_or_below(key, "properties.tracking_id"@) ==> same_at(
            typed_properties_adjusted(kind, map),
            tracking_id_adjusted("properties.tracking_id"@, map),
            key,
        ),
        at_or_below(key, "properties.session_tracking_label"@) ==> same_at(
            typed_properties_adjusted(kind, map),
            session_tracking_label_replaced("properties.session_tracking_label"@, map),
            key,
        ),
        at_or_below(key, "properties.status"@) ==> same_at(
            typed_properties_adjusted(kind, map),
            integer_replaced("properties.status"@, map),
            key,
        ),
        at_or_below(key, "properties.broker_initial_processing_timestamp"@) ==> same_at(
            typed_properties_adjusted(kind, map),
            integer_replaced("properties.broker_initial_processing_timestamp"@, map),
            key,
        ),
        at_or_below(key, "properties.broker_processing_timestamp"@) ==> same_at(
            typed_properties_adjusted(kind, map),
            integer_replaced("properties.broker_processing_timestamp"@, map),
            key,
        ),
        at_or_below(key, "properties.broker_timestamp"@) ==> same_at(
            typed_properties_adjusted(kind, map),
            integer_replaced("properties.broker_timestamp"@, map),
            key,
        ),
        at_or_below(key, "properties.local_initial_timediff"@) ==> same_at(
            typed_properties_adjusted(kind, map),
            integer_replaced("properties.local_initial_timediff"@, map),
            key,
        ),
        at_or_below(key, "properties.initial_timestamp"@) ==> same_at(
            typed_properties_adjusted(kind, map),
            integer_replaced("properties.initial_timestamp"@, map),
            key,
        ),
        at_or_below(key, "properties.timestamp"@) ==> same_at(
            typed_properties_adjusted(kind, map),
            integer_replaced("properties.timestamp"@, map),
            key,
        ),
        at_or_below(key, "properties.authorization_time"@) ==> same_at(
            typed_properties_adjusted(kind, map),
            integer_replaced("properties.authorization_time"@, map),
            key,
        ),
        at_or_below(key, "properties.processing_time"@) ==> same_at(
            typed_properties_adjusted(kind, map),
            integer_replaced("properties.processing_time"@, map),
            key,
        ),
        at_or_below(key, "properties.cumulative_authorization_time"@) ==> same_at(
            typed_properties_adjusted(kind, map),
            integer_replaced("properties.cumulative_authorization_time"@, map),
            key,
        ),
        at_or_below(key, "properties.cumulative_processing_time"@) ==> same_at(
            typed_properties_adjusted(kind, map),
            integer_replaced("properties.cumulative_processing_time"@, map),
            key,
        ),
{
    if at_or_below(key, "properties.agent_id"@) {
        lemma_property_at(kind, map, 0, key);
    }
    if at_or_below(key, "properties.broker_agent_id"@) {
        lemma_property_at(kind, map, 1, key);
    }
    if at_or_below(key, "properties.tracking_id"@) {
        lemma_property_at(kind, map, 2, key);
    }
    if at_or_below(key, "properties.session_tracking_label"@) {
        lemma_property_at(kind, map, 3, key);
    }
    if at_or_below(key, "properties.status"@) {
        lemma_property_at(kind, map, 4, key);
    }
    if at_or_below(key, "properties.broker_initial_processing_timestamp"@) {
        lemma_property_at(kind, map, 5, key);
    }
    if at_or_below(key, "properties.broker_processing_timestamp"@) {
        lemma_property_at(kind, map, 6, key);
    }
    if at_or_below(key, "properties.broker_timestamp"@) {
        lemma_property_at(kind, map, 7, key);
    }
    if at_or_below(key, "properties.local_initial_timediff"@) {
        lemma_property_at(kind, map, 8, key);
    }
    if at_or_below(key, "properties.initial_timestamp"@) {
        lemma_property_at(kind, map, 9, key);
    }
    if at_or_below(key, "properties.timestamp"@) {
        lemma_property_at(kind, map, 10, key);
    }
    if at_or_below(key, "properties.authorization_time"@) {
        lemma_property_at(kind, map, 11, key);
    }
    if at_or_below(key, "properties.processing_time"@) {
        lemma_property_at(kind, map, 12, key);
    }
    if at_or_below(key, "properties.cumulative_authorization_time"@) {
        lemma_property_at(kind, map, 13, key);
    }
    if at_or_below(key, "properties.cumulative_processing_time"@) {
        lemma_property_at(kind, map, 14, key);
    }
}

/// What belongs to no adjusted property, but for the kind of the message, stays as it is.
pub proof fn law_other_properties_stay(
    kind: Seq<char>,
    map: Map<Seq<char>, JsonView>,
    key: Seq<char>,
)
    requires
        key != "properties.type"@,
        !at_or_below(key, "properties.agent_id"@),
        !at_or_below(key, "properties.broker_agent_id"@),
        !at_or_below(key, "properties.tracking_id"@),
        !at_or_below(key, "properties.session_tracking_label"@),
        !at_or_below(key, "properties.status"@),
        !at_or_below(key, "properties.broker_initial_processing_timestamp"@),
        !at_or_below(key, "properties.broker_processing_timestamp"@),
        !at_or_below(key, "properties.broker_timestamp"@),
        !at_or_below(key, "properties.local_initial_timediff"@),
        !at_or_below(key, "properties.initial_timestamp"@),
        !at_or_below(key, "properties.timestamp"@),
        !at_or_below(key, "properties.authorization_time"@),
        !at_or_below(key, "properties.processing_time"@),
        !at_or_below(key, "properties.cumulative_authorization_time"@),
        !at_or_below(key, "properties.cumulative_processing_time"@),
    ensures
        same_at(typed_properties_adjusted(kind, map), map, key),
{
    let noted = map.insert("properties.type"@, JsonView::String(kind));
    lemma_properties_parted();
    lemma_property_steps(noted);
    assert forall|i: int| 0 <= i < 15 implies !(#[trigger] property_steps()[i]).covers(key) by {}
    lemma_steps_frame(property_steps(), 15, noted, key);
}

/// The addresses are adjusted one by one, each according to its kind.
pub proof fn law_addresses_are_adjusted_one_by_one(
    pattern: MessagingPattern,
    map: Map<Seq<char>, JsonView>,
    key: Seq<char>,
)
    ensures
        pattern is Broadcast && at_or_below(key, "pattern.from.account_id"@) ==> same_at(
            pattern_adjusted(pattern, map),
            account_id_adjusted("pattern.from.account_id"@, map),
            key,
        ),
        pattern is Multicast && at_or_below(key, "pattern.from"@) ==> same_at(
            pattern_adjusted(pattern, map),
            agent_id_adjusted("pattern.from"@, map),
            key,
        ),
        pattern is Multicast && at_or_below(key, "pattern.to.account_id"@) ==> same_at(
            pattern_adjusted(pattern, map),
            account_id_adjusted("pattern.to.account_id"@, map),
            key,
        ),
        pattern is Unicast && at_or_below(key, "pattern.from"@) ==> same_at(
            pattern_adjusted(pattern, map),
            account_id_adjusted("pattern.from"@, map),
            key,
        ),
        pattern is Unicast && at_or_below(key, "pattern.to.agent_id"@) ==> same_at(
            pattern_adjusted(pattern, map),
            agent_id_adjusted("pattern.to.agent_id"@, map),
            key,
        ),
{
    let steps = pattern_steps(pattern);
    let n = steps.len();
    lemma_pattern_parted(pattern);
    lemma_pattern_steps(pattern, map);
    if steps[0].covers(key) {
        lemma_steps_at(steps, n, map, 0, key);
    }
    if n == 2 && steps[1].covers(key) {
        lemma_steps_at(steps, n, map, 1, key);
    }
}

/// What belongs to no address that is taken apart stays as it is.
pub proof fn law_other_addresses_stay(
    pattern: MessagingPattern,
    map: Map<Seq<char>, JsonView>,
    key: Seq<char>,
)
    requires
        pattern is Broadcast ==> !at_or_below(key, "pattern.from.account_id"@),
        !(pattern is Broadcast) ==> !at_or_below(key, "pattern.from"@),
        pattern is Multicast ==> !at_or_below(key, "pattern.to.account_id"@),
        pattern is Unicast ==> !at_or_below(key, "pattern.to.agent_id"@),
    ensures
        same_at(pattern_adjusted(pattern, map), map, key),
{
    lemma_pattern_parted(pattern);
    lemma_pattern_steps(pattern, map);
    lemma_steps_frame(pattern_steps(pattern), pattern_steps(pattern).len(), map, key);
}

/// What is adjusted of a payload is adjusted one by one.
pub proof fn law_payload_is_adjusted_one_by_one(map: Map<Seq<char>, JsonView>, key: Seq<char>)
    ensures
        at_or_below(key, "payload.agent_id"@) ==> same_at(
            payload_adjusted(map),
            agent_id_adjusted("payload.agent_id"@, map),
            key,
        ),
        at_or_below(key, "payload.created_by"@) ==> same_at(
            payload_adjusted(map),
            agent_id_adjusted("payload.created_by"@, map),
            key,
        ),
        at_or_below(key, "payload.tags.user_agent"@) ==> same_at(
            payload_adjusted(map),
            useragent_tag_adjusted("payload.tags.user_agent"@, map),
            key,
        ),
        !at_or_below(key, "payload.agent_id"@) && !at_or_below(key, "payload.created_by"@)
            && !at_or_below(key, "payload.tags.user_agent"@) ==> same_at(
            payload_adjusted(map),
            map,
            key,
        ),
{
    let steps = payload_steps();
    lemma_payload_parted();
    lemma_payload_steps(map);
    if steps[0].covers(key) {
        lemma_steps_at(steps, 3, map, 0, key);
    } else if steps[1].covers(key) {
        lemma_steps_at(steps, 3, map, 1, key);
    } else if steps[2].covers(key) {
        lemma_steps_at(steps, 3, map, 2, key);
    } else {
        lemma_steps_frame(steps, 3, map, key);
    }
    if steps[1].covers(key) {
        lemma_steps_at(steps, 3, map, 1, key);
    }
    if steps[2].covers(key) {
        lemma_steps_at(steps, 3, map, 2, key);
    }
}

/// What becomes of a section of a message depends on that section alone.
pub proof fn law_sections_are_adjusted_apart(
    pattern: MessagingPattern,
    kind: Seq<char>,
    a: Map<Seq<char>, JsonView>,
    b: Map<Seq<char>, JsonView>,
    key: Seq<char>,
)
    ensures
        below(key, "pattern"@) && (forall|k: Seq<char>|
            below(k, "pattern"@) ==> #[trigger] agree_at(a, b, k)) ==> agree_at(
            pattern_adjusted(pattern, a),
            pattern_adjusted(pattern, b),
            key,
        ),
        below(key, "properties"@) && (forall|k: Seq<char>|
            below(k, "properties"@) ==> #[trigger] agree_at(a, b, k)) ==> agree_at(
            typed_properties_adjusted(kind, a),
            typed_properties_adjusted(kind, b),
            key,
        ),
        below(key, "payload"@) && (forall|k: Seq<char>|
            below(k, "payload"@) ==> #[trigger] agree_at(a, b, k)) ==> agree_at(
            payload_adjusted(a),
            payload_adjusted(b),
            key,
        ),
{
    if below(key, "pattern"@) && (forall|k: Seq<char>|
        below(k, "pattern"@) ==> #[trigger] agree_at(a, b, k)) {
        let steps = pattern_steps(pattern);
        lemma_pattern_parted(pattern);
        lemma_pattern_steps(pattern, a);
        lemma_pattern_steps(pattern, b);
        assert(agree_at(a, b, key));
        assert forall|i: int, k: Seq<char>|
            0 <= i < steps.len() && (#[trigger] steps[i]).covers(k) implies #[trigger] agree_at(
            a,
            b,
            k,
        ) by {
            reveal_strlit("pattern");
            reveal_strlit("pattern.from");
            reveal_strlit("pattern.from.account_id");
            reveal_strlit("pattern.to.account_id");
            reveal_strlit("pattern.to.agent_id");
            assert(steps[i].at().take(7) =~= "pattern"@);
            if k != steps[i].at() {
                lemma_below_transitive(k, steps[i].at(), "pattern"@);
            }
        }
        lemma_steps_agree(steps, steps.len(), a, b, key);
    }
    if below(key, "properties"@) && (forall|k: Seq<char>|
        below(k, "properties"@) ==> #[trigger] agree_at(a, b, k)) {
        let x = a.insert("properties.type"@, JsonView::String(kind));
        let y = b.insert("properties.type"@, JsonView::String(kind));
        lemma_properties_parted();
        lemma_property_steps(x);
        lemma_property_steps(y);
        assert(agree_at(a, b, key));
        assert forall|i: int, k: Seq<char>|
            0 <= i < 15 && (#[trigger] property_steps()[i]).covers(k) implies #[trigger] agree_at(
            x,
            y,
            k,
        ) by {
            lemma_property_key(i);
            if k != property_steps()[i].at() {
                lemma_below_transitive(k, property_steps()[i].at(), "properties"@);
            }
            assert(agree_at(a, b, k));
        }
        lemma_steps_agree(property_steps(), 15, x, y, key);
    }
    if below(key, "payload"@) && (forall|k: Seq<char>|
        below(k, "payload"@) ==> #[trigger] agree_at(a, b, k)) {
        let steps = payload_steps();
        lemma_payload_parted();
        lemma_payload_steps(a);
        lemma_payload_steps(b);
        assert(agree_at(a, b, key));
        assert forall|i: int, k: Seq<char>|
            0 <= i < 3 && (#[trigger] steps[i]).covers(k) implies #[trigger] agree_at(a, b, k) by {
            reveal_strlit("payload");
            reveal_strlit("payload.agent_id");
            reveal_strlit("payload.created_by");
            reveal_strlit("payload.tags.user_agent");
            assert(steps[i].at().take(7) =~= "payload"@);
            if k != steps[i].at() {
                lemma_below_transitive(k, steps[i].at(), "payload"@);
            }
        }
        lemma_steps_agree(steps, 3, a, b, key);
    }
}

/// Adjusting the properties twice is adjusting them once, and so it is with the
/// addresses and with the payload.
pub proof fn law_adjusting_twice(pattern: MessagingPattern, map: Map<Seq<char>, JsonView>)
    ensures
        properties_adjusted(properties_adjusted(map)) == properties_adjusted(map),
        pattern_adjusted(pattern, pattern_adjusted(pattern, map)) == pattern_adjusted(pattern, map),
        payload_adjusted(payload_adjusted(map)) == payload_adjusted(map),
{
    lemma_properties_parted();
    lemma_property_steps(map);
    lemma_property_steps(properties_adjusted(map));
    lemma_steps_twice(property_steps(), 15, 15, map);
    let n = pattern_steps(pattern).len();
    lemma_pattern_parted(pattern);
    lemma_pattern_steps(pattern, map);
    lemma_pattern_steps(pattern, pattern_adjusted(pattern, map));
    lemma_steps_twice(pattern_steps(pattern), n, n, map);
    lemma_payload_parted();
    lemma_payload_steps(map);
    lemma_payload_steps(payload_adjusted(map));
    lemma_steps_twice(payload_steps(), 3, 3, map);
}

/// Noting the kind of a message and adjusting its properties twice is doing so once.
pub proof fn law_typed_adjusting_twice(kind: Seq<char>, map: Map<Seq<char>, JsonView>)
    ensures
        typed_properties_adjusted(kind, typed_properties_adjusted(kind, map))
            == typed_properties_adjusted(kind, map),
{
    let once = typed_properties_adjusted(kind, map);
    let noted = map.insert("properties.type"@, JsonView::String(kind));
    law_kind_is_noted(kind, map);
    assert(once.insert("properties.type"@, JsonView::String(kind)) =~= once);
    lemma_properties_parted();
    lemma_property_steps(noted);
    lemma_property_steps(once);
    lemma_steps_twice(property_steps(), 15, 15, noted);
}

/// A map without objects is still one after its properties are adjusted.
pub proof fn law_properties_stay_flat(kind: Seq<char>, map: Map<Seq<char>, JsonView>)
    requires
        is_flat(map),
    ensures
        is_flat(typed_properties_adjusted(kind, map)),
{
    let noted = map.insert("properties.type"@, JsonView::String(kind));
    lemma_property_steps(noted);
    lemma_steps_flat(property_steps(), 15, noted);
}

/// A map without objects is still one after its addresses are adjusted.
pub proof fn law_pattern_stays_flat(pattern: MessagingPattern, map: Map<Seq<char>, JsonView>)
    requires
        is_flat(map),
    ensures
        is_flat(pattern_adjusted(pattern, map)),
{
    lemma_pattern_steps(pattern, map);
    lemma_steps_flat(pattern_steps(pattern), pattern_steps(pattern).len(), map);
}

/// A map without objects is still one after its payload is adjusted.
pub proof fn law_payload_stays_flat(map: Map<Seq<char>, JsonView>)
    requires
        is_flat(map),
    ensures
        is_flat(payload_adjusted(map)),
{
    lemma_payload_steps(map);
    lemma_steps_flat(payload_steps(), 3, map);
}

/// No adjustment removes a key.
pub proof fn law_adjustments_keep_keys(
    pattern: MessagingPattern,
    kind: Seq<char>,
    map: Map<Seq<char>, JsonView>,
    key: Seq<char>,
)
    requires
        map.contains_key(key),
    ensures
        pattern_adjusted(pattern, map).contains_key(key),
        typed_properties_adjusted(kind, map).contains_key(key),
        payload_adjusted(map).contains_key(key),
{
    let noted = map.insert("properties.type"@, JsonView::String(kind));
    lemma_pattern_steps(pattern, map);
    lemma_steps_keep(pattern_steps(pattern), pattern_steps(pattern).len(), map, key);
    lemma_property_steps(noted);
    lemma_steps_keep(property_steps(), 15, noted, key);
    lemma_payload_steps(map);
    lemma_steps_keep(payload_steps(), 3, map, key);
}

/// Whether names can stand for the parts of a text that is cut in two and whose second
/// part is cut in turn: none is empty, and the two of one cut differ.
spec fn proper_names(first: Seq<char>, second: Seq<char>, x: Seq<char>, y: Seq<char>) -> bool {
    &&& 0 < first.len() < second.len()
    &&& x.len() > 0
    &&& y.len() > 0
    &&& x != y
}

proof fn lemma_names()
    ensures
        proper_names("label"@, "account_id"@, "label"@, "audience"@),
        proper_names("label"@, "session_id"@, "agent_session_label"@, "broker_session_label"@),
{
    reveal_strlit("label");
    reveal_strlit("account_id");
    reveal_strlit("audience");
    reveal_strlit("session_id");
    reveal_strlit("agent_session_label");
    reveal_strlit("broker_session_label");
    assert("label"@.len() < "audience"@.len());
    assert("agent_session_label"@.len() < "broker_session_label"@.len());
}

/// The text under `key`, where it has two halves, is still there after they were
/// stored; the halves are what is stored, and with a dot between them they are the text.
proof fn lemma_halves_stored(
    key: Seq<char>,
    first: Seq<char>,
    second: Seq<char>,
    map: Map<Seq<char>, JsonView>,
)
    requires
        first.len() > 0,
        second.len() > 0,
        first != second,
        halves_at(key, map) is Some,
    ensures
        ({
            let after = halved(key, first, second, map);
            let (head, tail) = halves_at(key, map)->0;
            &&& text_at(flat_key(first, key), after) == Some(head)
            &&& text_at(flat_key(second, key), after) == Some(tail)
            &&& text_at(key, after) == text_at(key, map)
            &&& text_at(key, map) == Some(head + seq!['.'] + tail)
            &&& !head.contains('.')
        }),
{
    let text = text_at(key, map)->0;
    lemma_cut_rejoins(text, '.');
    lemma_cut_head_is_clean(text, '.');
    let a = flat_key(first, key);
    let b = flat_key(second, key);
    assert(a.len() > key.len() && b.len() > key.len());
    if key.len() > 0 && a == b {
        let n = key.len() as int + 1;
        assert(a.skip(n) =~= first);
        assert(b.skip(n) =~= second);
    }
}

/// Storing the halves of a text twice is storing them once.
proof fn lemma_halved_twice(
    key: Seq<char>,
    first: Seq<char>,
    second: Seq<char>,
    map: Map<Seq<char>, JsonView>,
)
    requires
        first.len() > 0,
        second.len() > 0,
        first != second,
    ensures
        halved(key, first, second, halved(key, first, second, map)) == halved(
            key,
            first,
            second,
            map,
        ),
{
    let once = halved(key, first, second, map);
    if halves_at(key, map) is Some {
        lemma_halves_stored(key, first, second, map);
        assert(halved(key, first, second, once) =~= once);
    }
}

/// After both cuts everything that the first one stored is still there, and the second
/// one has nothing left to do; what it stored is what the second half was cut into.
proof fn lemma_nested_stored(
    key: Seq<char>,
    first: Seq<char>,
    second: Seq<char>,
    x: Seq<char>,
    y: Seq<char>,
    map: Map<Seq<char>, JsonView>,
)
    requires
        proper_names(first, second, x, y),
        halves_at(key, map) is Some,
    ensures
        ({
            let after = nested(key, first, second, x, y, map);
            let (head, tail) = halves_at(key, map)->0;
            let inner = flat_key(second, key);
            &&& text_at(flat_key(first, key), after) == Some(head)
            &&& text_at(inner, after) == Some(tail)
            &&& text_at(key, after) == text_at(key, map)
            &&& text_at(key, map) == Some(head + seq!['.'] + tail)
            &&& !head.contains('.')
            &&& halved(inner, x, y, after) == after
            &&& cut(tail, '.') matches Some((a, b)) ==> text_at(flat_key(x, inner), after) == Some(
                a,
            ) && text_at(flat_key(y, inner), after) == Some(b)
        }),
{
    let mid = halved(key, first, second, map);
    let inner = flat_key(second, key);
    lemma_halves_stored(key, first, second, map);
    assert(flat_key(first, key).len() < inner.len());
    assert(key.len() < inner.len());
    lemma_halved_frame(inner, x, y, mid, flat_key(first, key));
    lemma_halved_frame(inner, x, y, mid, key);
    lemma_halved_frame(inner, x, y, mid, inner);
    lemma_halved_twice(inner, x, y, mid);
    if halves_at(inner, mid) is Some {
        lemma_halves_stored(inner, x, y, mid);
    }
}

/// Making both cuts twice is making them once.
proof fn lemma_nested_twice(
    key: Seq<char>,
    first: Seq<char>,
    second: Seq<char>,
    x: Seq<char>,
    y: Seq<char>,
    map: Map<Seq<char>, JsonView>,
)
    requires
        proper_names(first, second, x, y),
    ensures
        nested(key, first, second, x, y, nested(key, first, second, x, y, map)) == nested(
            key,
            first,
            second,
            x,
            y,
            map,
        ),
{
    let once = nested(key, first, second, x, y, map);
    if halves_at(key, map) is Some {
        lemma_nested_stored(key, first, second, x, y, map);
        assert(halved(key, first, second, once) =~= once);
    }
}

/// Label and audience of an account id, with a dot between them, are the account id,
/// which stays in place; the label holds no dot.
pub proof fn law_account_id_rejoins(key: Seq<char>, map: Map<Seq<char>, JsonView>)
    requires
        halves_at(key, map) is Some,
    ensures
        ({
            let after = account_id_adjusted(key, map);
            let label = text_at(flat_key("label"@, key), after);
            let audience = text_at(flat_key("audience"@, key), after);
            &&& label is Some
            &&& audience is Some
            &&& text_at(key, after) == text_at(key, map)
            &&& text_at(key, map) == Some(label->0 + seq!['.'] + audience->0)
            &&& !label->0.contains('.')
        }),
{
    lemma_names();
    lemma_halves_stored(key, "label"@, "audience"@, map);
}

/// The labels of the two sessions of a session id, with a dot between them, are the
/// session id, which stays in place; the agent's label holds no dot.
pub proof fn law_session_id_rejoins(key: Seq<char>, map: Map<Seq<char>, JsonView>)
    requires
        halves_at(key, map) is Some,
    ensures
        ({
            let after = session_id_adjusted(key, map);
            let agent = text_at(flat_key("agent_session_label"@, key), after);
            let broker = text_at(flat_key("broker_session_label"@, key), after);
            &&& agent is Some
            &&& broker is Some
            &&& text_at(key, after) == text_at(key, map)
            &&& text_at(key, map) == Some(agent->0 + seq!['.'] + broker->0)
            &&& !agent->0.contains('.')
        }),
{
    lemma_names();
    lemma_halves_stored(key, "agent_session_label"@, "broker_session_label"@, map);
}

/// Label and account id of an agent id, with a dot between them, are the agent id, which
/// stays in place; the label holds no dot, and the account id is taken apart in turn.
pub proof fn law_agent_id_rejoins(key: Seq<char>, map: Map<Seq<char>, JsonView>)
    requires
        halves_at(key, map) is Some,
    ensures
        ({
            let after = agent_id_adjusted(key, map);
            let inner = flat_key("account_id"@, key);
            let label = text_at(flat_key("label"@, key), after);
            let account = text_at(inner, after);
            &&& label is Some
            &&& account is Some
            &&& text_at(key, after) == text_at(key, map)
            &&& text_at(key, map) == Some(label->0 + seq!['.'] + account->0)
            &&& !label->0.contains('.')
            &&& after == account_id_adjusted(inner, after)
        }),
{
    lemma_names();
    lemma_nested_stored(key, "label"@, "account_id"@, "label"@, "audience"@, map);
}

/// Label and session id of a tracking id, with a dot between them, are the tracking id,
/// which stays in place; the label holds no dot, and the session id is taken apart in
/// turn.
pub proof fn law_tracking_id_rejoins(key: Seq<char>, map: Map<Seq<char>, JsonView>)
    requires
        halves_at(key, map) is Some,
    ensures
        ({
            let after = tracking_id_adjusted(key, map);
            let inner = flat_key("session_id"@, key);
            let label = text_at(flat_key("label"@, key), after);
            let session = text_at(inner, after);
            &&& label is Some
            &&& session is Some
            &&& text_at(key, after) == text_at(key, map)
            &&& text_at(key, map) == Some(label->0 + seq!['.'] + session->0)
            &&& !label->0.contains('.')
            &&& after == session_id_adjusted(inner, after)
        }),
{
    lemma_names();
    lemma_nested_stored(
        key,
        "label"@,
        "session_id"@,
        "agent_session_label"@,
        "broker_session_label"@,
        map,
    );
}

/// An agent id that was put together from a label, an account label and an audience is
/// taken apart into the same three, where the labels hold no dot.
pub proof fn law_agent_id_parts(
    key: Seq<char>,
    map: Map<Seq<char>, JsonView>,
    label: Seq<char>,
    account_label: Seq<char>,
    audience: Seq<char>,
)
    requires
        !label.contains('.'),
        !account_label.contains('.'),
        text_at(key, map) == Some(
            label + seq!['.'] + (account_label + seq!['.'] + audience),
        ),
    ensures
        ({
            let after = agent_id_adjusted(key, map);
            let account = flat_key("account_id"@, key);
            &&& text_at(flat_key("label"@, key), after) == Some(label)
            &&& text_at(account, after) == Some(account_label + seq!['.'] + audience)
            &&& text_at(flat_key("label"@, account), after) == Some(account_label)
            &&& text_at(flat_key("audience"@, account), after) == Some(audience)
        }),
{
    lemma_cut_of_two(label, '.', account_label + seq!['.'] + audience);
    lemma_cut_of_two(account_label, '.', audience);
    lemma_names();
    lemma_nested_stored(key, "label"@, "account_id"@, "label"@, "audience"@, map);
}

/// A tracking id that was put together from a label and the labels of two sessions is
/// taken apart into the same three, where the first two hold no dot.
pub proof fn law_tracking_id_parts(
    key: Seq<char>,
    map: Map<Seq<char>, JsonView>,
    label: Seq<char>,
    agent_session: Seq<char>,
    broker_session: Seq<char>,
)
    requires
        !label.contains('.'),
        !agent_session.contains('.'),
        text_at(key, map) == Some(
            label + seq!['.'] + (agent_session + seq!['.'] + broker_session),
        ),
    ensures
        ({
            let after = tracking_id_adjusted(key, map);
            let session = flat_key("session_id"@, key);
            &&& text_at(flat_key("label"@, key), after) == Some(label)
            &&& text_at(session, after) == Some(agent_session + seq!['.'] + broker_session)
            &&& text_at(flat_key("agent_session_label"@, session), after) == Some(agent_session)
            &&& text_at(flat_key("broker_session_label"@, session), after) == Some(broker_session)
        }),
{
    lemma_cut_of_two(label, '.', agent_session + seq!['.'] + broker_session);
    lemma_cut_of_two(agent_session, '.', broker_session);
    lemma_names();
    lemma_nested_stored(
        key,
        "label"@,
        "session_id"@,
        "agent_session_label"@,
        "broker_session_label"@,
        map,
    );
}

/// Taking a user agent apart twice is taking it apart once.
proof fn lemma_useragent_twice(key: Seq<char>, map: Map<Seq<char>, JsonView>)
    requires
        key.len() > 0,
    ensures
        useragent_tag_adjusted(key, useragent_tag_adjusted(key, map)) == useragent_tag_adjusted(
            key,
            map,
        ),
{
    let once = useragent_tag_adjusted(key, map);
    lemma_useragent_frame(key, map, key);
    assert(useragent_tag_adjusted(key, once) =~= once);
}

/// The list that replaces a session tracking label, joined by spaces, is the label.
pub proof fn law_session_tracking_label_rejoins(key: Seq<char>, map: Map<Seq<char>, JsonView>)
    requires
        text_at(key, map) is Some,
    ensures
        ({
            let parts = fields(text_at(key, map)->0, ' ');
            &&& session_tracking_label_replaced(key, map)[key] == JsonView::Array(
                string_values(parts),
            )
            &&& joined(parts, seq![' ']) == text_at(key, map)->0
        }),
{
    lemma_fields_rejoin(text_at(key, map)->0, ' ');
}

/// Replacing twice is replacing once.
pub proof fn law_replacing_twice(key: Seq<char>, map: Map<Seq<char>, JsonView>)
    ensures
        integer_replaced(key, integer_replaced(key, map)) == integer_replaced(key, map),
        session_tracking_label_replaced(key, session_tracking_label_replaced(key, map))
            == session_tracking_label_replaced(key, map),
{
}

} // verus!

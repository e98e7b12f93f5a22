//! What each adjustment leaves, key by key.

use vstd::prelude::*;

use crate::adjust::{
    account_id_adjusted, agent_id_adjusted, integer_replaced, payload_adjusted, session_id_adjusted,
    session_tracking_label_replaced, string_values, tracking_id_adjusted,
    typed_properties_adjusted, useragent_tag_adjusted,
};
use crate::adjust_laws::{
    at_or_below, law_other_properties_stay, law_payload_is_adjusted_one_by_one,
    law_properties_are_adjusted_one_by_one, same_at,
};
use crate::codec::integer_number;
use crate::flatten::flat_key;
use crate::flatten_laws::{below, lemma_below_flat_key};
use crate::json::JsonView;
use crate::text::{fields, lemma_cut_of_two};
use crate::text_laws::{
    law_cut_is_at_the_first_separator, law_fields_go_from_separator_to_separator,
    law_integer_is_what_is_written, writes,
};
use crate::user_agent::parsed_user_agent;

verus! {

/// The key of the member `.name` of what stands under `key`: the two together, or the
/// bare name where there is no key.
pub open spec fn member(key: Seq<char>, dot_name: Seq<char>) -> Seq<char> {
    if key.len() > 0 {
        key + dot_name
    } else {
        dot_name.drop_first()
    }
}

/// Whether `map` has the text `text` under `key`.
pub open spec fn holds(map: Map<Seq<char>, JsonView>, key: Seq<char>, text: Seq<char>) -> bool {
    map.contains_key(key) && map[key] == JsonView::String(text)
}

/// Whether `map` has a text with a dot under `key`.
pub open spec fn holds_dotted(map: Map<Seq<char>, JsonView>, key: Seq<char>) -> bool {
    map.contains_key(key) && map[key] is String && map[key]->String_0.contains('.')
}

/// Whether `map` has under the member `.name` of `key` the text `text`.
pub open spec fn has_member(
    map: Map<Seq<char>, JsonView>,
    key: Seq<char>,
    dot_name: Seq<char>,
    text: Seq<char>,
) -> bool {
    holds(map, member(key, dot_name), text)
}

proof fn lemma_member(key: Seq<char>, name: Seq<char>, dot_name: Seq<char>)
    requires
        dot_name == seq!['.'] + name,
    ensures
        member(key, dot_name) == flat_key(name, key),
        key.len() > 0 ==> below(member(key, dot_name), key),
{
    assert(dot_name.drop_first() =~= name);
    assert(member(key, dot_name) =~= flat_key(name, key));
    if key.len() > 0 {
        lemma_below_flat_key(key, name);
    }
}

/// The keys of the members that hold the parts of an id.
proof fn lemma_members(key: Seq<char>)
    ensures
        member(key, ".label"@) == flat_key("label"@, key),
        member(key, ".audience"@) == flat_key("audience"@, key),
        member(key, ".account_id"@) == flat_key("account_id"@, key),
        member(key, ".account_id.label"@) == flat_key("label"@, flat_key("account_id"@, key)),
        member(key, ".account_id.audience"@) == flat_key("audience"@, flat_key("account_id"@, key)),
        member(key, ".session_id"@) == flat_key("session_id"@, key),
        member(key, ".agent_session_label"@) == flat_key("agent_session_label"@, key),
        member(key, ".broker_session_label"@) == flat_key("broker_session_label"@, key),
        member(key, ".session_id.agent_session_label"@) == flat_key(
            "agent_session_label"@,
            flat_key("session_id"@, key),
        ),
        member(key, ".session_id.broker_session_label"@) == flat_key(
            "broker_session_label"@,
            flat_key("session_id"@, key),
        ),
        key.len() > 0 ==> {
            &&& below(member(key, ".label"@), key)
            &&& below(member(key, ".audience"@), key)
            &&& below(member(key, ".account_id"@), key)
            &&& below(member(key, ".account_id.label"@), key)
            &&& below(member(key, ".account_id.audience"@), key)
            &&& below(member(key, ".session_id"@), key)
            &&& below(member(key, ".session_id.agent_session_label"@), key)
            &&& below(member(key, ".session_id.broker_session_label"@), key)
        },
{
    assert("account_id"@.len() > 0 && "session_id"@.len() > 0) by {
        reveal_strlit("account_id");
        reveal_strlit("session_id");
    }
    assert(".label"@ == seq!['.'] + "label"@) by {
        reveal_strlit("label");
        reveal_strlit(".label");
        assert(".label"@ =~= seq!['.'] + "label"@);
    }
    lemma_member(key, "label"@, ".label"@);
    assert(".audience"@ == seq!['.'] + "audience"@) by {
        reveal_strlit("audience");
        reveal_strlit(".audience");
        assert(".audience"@ =~= seq!['.'] + "audience"@);
    }
    lemma_member(key, "audience"@, ".audience"@);
    assert(".account_id"@ == seq!['.'] + "account_id"@) by {
        reveal_strlit("account_id");
        reveal_strlit(".account_id");
        assert(".account_id"@ =~= seq!['.'] + "account_id"@);
    }
    lemma_member(key, "account_id"@, ".account_id"@);
    assert(".session_id"@ == seq!['.'] + "session_id"@) by {
        reveal_strlit("session_id");
        reveal_strlit(".session_id");
        assert(".session_id"@ =~= seq!['.'] + "session_id"@);
    }
    lemma_member(key, "session_id"@, ".session_id"@);
    assert(".agent_session_label"@ == seq!['.'] + "agent_session_label"@) by {
        reveal_strlit("agent_session_label");
        reveal_strlit(".agent_session_label");
        assert(".agent_session_label"@ =~= seq!['.'] + "agent_session_label"@);
    }
    lemma_member(key, "agent_session_label"@, ".agent_session_label"@);
    assert(".broker_session_label"@ == seq!['.'] + "broker_session_label"@) by {
        reveal_strlit("broker_session_label");
        reveal_strlit(".broker_session_label");
        assert(".broker_session_label"@ =~= seq!['.'] + "broker_session_label"@);
    }
    lemma_member(key, "broker_session_label"@, ".broker_session_label"@);
    assert(".account_id.label"@ == seq!['.'] + ("account_id"@ + seq!['.'] + "label"@)) by {
        reveal_strlit("account_id");
        reveal_strlit("label");
        reveal_strlit(".account_id.label");
        assert(".account_id.label"@ =~= seq!['.'] + ("account_id"@ + seq!['.'] + "label"@));
    }
    lemma_nested_member(key, "account_id"@, "label"@, ".account_id.label"@);
    assert(".account_id.audience"@ == seq!['.'] + ("account_id"@ + seq!['.'] + "audience"@)) by {
        reveal_strlit("account_id");
        reveal_strlit("audience");
        reveal_strlit(".account_id.audience");
        assert(".account_id.audience"@ =~= seq!['.'] + ("account_id"@ + seq!['.'] + "audience"@));
    }
    lemma_nested_member(key, "account_id"@, "audience"@, ".account_id.audience"@);
    assert(".session_id.agent_session_label"@ == seq!['.'] + ("session_id"@ + seq!['.'] + "agent_session_label"@)) by {
        reveal_strlit("session_id");
        reveal_strlit("agent_session_label");
        reveal_strlit(".session_id.agent_session_label");
        assert(".session_id.agent_session_label"@ =~= seq!['.'] + ("session_id"@ + seq!['.'] + "agent_session_label"@));
    }
    lemma_nested_member(key, "session_id"@, "agent_session_label"@, ".session_id.agent_session_label"@);
    assert(".session_id.broker_session_label"@ == seq!['.'] + ("session_id"@ + seq!['.'] + "broker_session_label"@)) by {
        reveal_strlit("session_id");
        reveal_strlit("broker_session_label");
        reveal_strlit(".session_id.broker_session_label");
        assert(".session_id.broker_session_label"@ =~= seq!['.'] + ("session_id"@ + seq!['.'] + "broker_session_label"@));
    }
    lemma_nested_member(key, "session_id"@, "broker_session_label"@, ".session_id.broker_session_label"@);
}

proof fn lemma_nested_member(
    key: Seq<char>,
    outer: Seq<char>,
    inner: Seq<char>,
    dot_name: Seq<char>,
)
    requires
        outer.len() > 0,
        dot_name == seq!['.'] + (outer + seq!['.'] + inner),
    ensures
        member(key, dot_name) == flat_key(inner, flat_key(outer, key)),
        key.len() > 0 ==> below(member(key, dot_name), key),
{
    lemma_member(key, outer + seq!['.'] + inner, dot_name);
    assert(flat_key(outer + seq!['.'] + inner, key) =~= flat_key(inner, flat_key(outer, key)));
}

/// An account id `LABEL.AUDIENCE` leaves its label and its audience under `.label` and
/// `.audience`, and nothing else changes.
pub proof fn law_account_id_gives_label_and_audience(
    key: Seq<char>,
    map: Map<Seq<char>, JsonView>,
    label: Seq<char>,
    audience: Seq<char>,
)
    requires
        !label.contains('.'),
        holds(map, key, label + "."@ + audience),
    ensures
        account_id_adjusted(key, map) == map.insert(
            member(key, ".label"@),
            JsonView::String(label),
        ).insert(member(key, ".audience"@), JsonView::String(audience)),
{
    reveal_strlit(".");
    assert("."@ =~= seq!['.']);
    lemma_cut_of_two(label, '.', audience);
    lemma_members(key);
}

/// A session id leaves the labels of its two sessions under `.agent_session_label` and
/// `.broker_session_label`, and nothing else changes.
pub proof fn law_session_id_gives_two_labels(
    key: Seq<char>,
    map: Map<Seq<char>, JsonView>,
    agent_session: Seq<char>,
    broker_session: Seq<char>,
)
    requires
        !agent_session.contains('.'),
        holds(map, key, agent_session + "."@ + broker_session),
    ensures
        session_id_adjusted(key, map) == map.insert(
            member(key, ".agent_session_label"@),
            JsonView::String(agent_session),
        ).insert(member(key, ".broker_session_label"@), JsonView::String(broker_session)),
{
    reveal_strlit(".");
    assert("."@ =~= seq!['.']);
    lemma_cut_of_two(agent_session, '.', broker_session);
    lemma_members(key);
}

/// An agent id `LABEL.ACCOUNT_LABEL.AUDIENCE` leaves its label, its account id and both
/// parts of that, and nothing else changes.
pub proof fn law_agent_id_gives_label_and_account(
    key: Seq<char>,
    map: Map<Seq<char>, JsonView>,
    label: Seq<char>,
    account_label: Seq<char>,
    audience: Seq<char>,
)
    requires
        !label.contains('.'),
        !account_label.contains('.'),
        holds(map, key, label + "."@ + (account_label + "."@ + audience)),
    ensures
        agent_id_adjusted(key, map) == map.insert(
            member(key, ".label"@),
            JsonView::String(label),
        ).insert(
            member(key, ".account_id"@),
            JsonView::String(account_label + "."@ + audience),
        ).insert(member(key, ".account_id.label"@), JsonView::String(account_label)).insert(
            member(key, ".account_id.audience"@),
            JsonView::String(audience),
        ),
{
    reveal_strlit(".");
    assert("."@ =~= seq!['.']);
    lemma_cut_of_two(label, '.', account_label + "."@ + audience);
    lemma_cut_of_two(account_label, '.', audience);
    lemma_members(key);
}

/// An agent id whose account id has no dot leaves its label and that account id.
pub proof fn law_short_agent_id_gives_label_and_account(
    key: Seq<char>,
    map: Map<Seq<char>, JsonView>,
    label: Seq<char>,
    account: Seq<char>,
)
    requires
        !label.contains('.'),
        !account.contains('.'),
        holds(map, key, label + "."@ + account),
    ensures
        agent_id_adjusted(key, map) == map.insert(
            member(key, ".label"@),
            JsonView::String(label),
        ).insert(member(key, ".account_id"@), JsonView::String(account)),
{
    reveal_strlit(".");
    assert("."@ =~= seq!['.']);
    lemma_cut_of_two(label, '.', account);
    law_cut_is_at_the_first_separator(account, '.');
    lemma_members(key);
}

/// A tracking id leaves its label, its session id and both parts of that, and nothing
/// else changes.
pub proof fn law_tracking_id_gives_label_and_session(
    key: Seq<char>,
    map: Map<Seq<char>, JsonView>,
    label: Seq<char>,
    agent_session: Seq<char>,
    broker_session: Seq<char>,
)
    requires
        !label.contains('.'),
        !agent_session.contains('.'),
        holds(map, key, label + "."@ + (agent_session + "."@ + broker_session)),
    ensures
        tracking_id_adjusted(key, map) == map.insert(
            member(key, ".label"@),
            JsonView::String(label),
        ).insert(
            member(key, ".session_id"@),
            JsonView::String(agent_session + "."@ + broker_session),
        ).insert(
            member(key, ".session_id.agent_session_label"@),
            JsonView::String(agent_session),
        ).insert(
            member(key, ".session_id.broker_session_label"@),
            JsonView::String(broker_session),
        ),
{
    reveal_strlit(".");
    assert("."@ =~= seq!['.']);
    lemma_cut_of_two(label, '.', agent_session + "."@ + broker_session);
    lemma_cut_of_two(agent_session, '.', broker_session);
    lemma_members(key);
}

/// A tracking id whose session id has no dot leaves its label and that session id.
pub proof fn law_short_tracking_id_gives_label_and_session(
    key: Seq<char>,
    map: Map<Seq<char>, JsonView>,
    label: Seq<char>,
    session: Seq<char>,
)
    requires
        !label.contains('.'),
        !session.contains('.'),
        holds(map, key, label + "."@ + session),
    ensures
        tracking_id_adjusted(key, map) == map.insert(
            member(key, ".label"@),
            JsonView::String(label),
        ).insert(member(key, ".session_id"@), JsonView::String(session)),
{
    reveal_strlit(".");
    assert("."@ =~= seq!['.']);
    lemma_cut_of_two(label, '.', session);
    law_cut_is_at_the_first_separator(session, '.');
    lemma_members(key);
}

/// Without a text that holds a dot there is nothing to take apart.
pub proof fn law_nothing_is_taken_apart_without_a_dot(
    key: Seq<char>,
    map: Map<Seq<char>, JsonView>,
)
    requires
        !holds_dotted(map, key),
    ensures
        account_id_adjusted(key, map) == map,
        session_id_adjusted(key, map) == map,
        agent_id_adjusted(key, map) == map,
        tracking_id_adjusted(key, map) == map,
{
    if map.contains_key(key) && map[key] is String {
        law_cut_is_at_the_first_separator(map[key]->String_0, '.');
    }
}

/// A text that writes an integer of 64 bits becomes that number.
pub proof fn law_written_integer_becomes_a_number(
    key: Seq<char>,
    map: Map<Seq<char>, JsonView>,
    text: Seq<char>,
    value: i64,
)
    requires
        holds(map, key, text),
        writes(text, value as int),
    ensures
        integer_replaced(key, map) == map.insert(key, JsonView::Number(integer_number(value))),
{
    law_integer_is_what_is_written(text);
}

/// What writes no integer of 64 bits stays as it is.
pub proof fn law_other_values_stay(key: Seq<char>, map: Map<Seq<char>, JsonView>)
    requires
        forall|text: Seq<char>, value: i64|
            holds(map, key, text) ==> !(#[trigger] writes(text, value as int)),
    ensures
        integer_replaced(key, map) == map,
{
    if map.contains_key(key) && map[key] is String {
        let text = map[key]->String_0;
        law_integer_is_what_is_written(text);
        if crate::text::integer(text) is Some {
            let value = crate::text::integer(text)->0;
            assert(writes(text, (value as i64) as int));
        }
    }
}

/// A session tracking label without spaces becomes a list of one; one that has a space
/// becomes what stands before the first, and then the list that the rest becomes.
pub proof fn law_session_tracking_label_becomes_a_list(
    key: Seq<char>,
    map: Map<Seq<char>, JsonView>,
    head: Seq<char>,
    tail: Seq<char>,
)
    requires
        !head.contains(' '),
    ensures
        ({
            let single = session_tracking_label_replaced(
                key,
                map.insert(key, JsonView::String(head)),
            );
            let whole = session_tracking_label_replaced(
                key,
                map.insert(key, JsonView::String(head + " "@ + tail)),
            );
            let rest = session_tracking_label_replaced(
                key,
                map.insert(key, JsonView::String(tail)),
            );
            &&& single == map.insert(key, JsonView::Array(seq![JsonView::String(head)]))
            &&& rest.contains_key(key)
            &&& rest[key] is Array
            &&& whole == map.insert(
                key,
                JsonView::Array(seq![JsonView::String(head)] + rest[key]->Array_0),
            )
        }),
{
    reveal_strlit(" ");
    assert(" "@ =~= seq![' ']);
    law_fields_go_from_separator_to_separator(head, ' ', tail);
    let list = string_values(fields(tail, ' '));
    assert(string_values(seq![head]) =~= seq![JsonView::String(head)]);
    assert(string_values(seq![head] + fields(tail, ' ')) =~= seq![JsonView::String(head)] + list);
    let single = session_tracking_label_replaced(key, map.insert(key, JsonView::String(head)));
    let whole = session_tracking_label_replaced(
        key,
        map.insert(key, JsonView::String(head + " "@ + tail)),
    );
    let rest = session_tracking_label_replaced(key, map.insert(key, JsonView::String(tail)));
    assert(single =~= map.insert(key, JsonView::Array(seq![JsonView::String(head)])));
    assert(whole =~= map.insert(
        key,
        JsonView::Array(seq![JsonView::String(head)] + rest[key]->Array_0),
    ));
}

/// A session tracking label that is no text stays as it is.
pub proof fn law_session_tracking_label_must_be_text(
    key: Seq<char>,
    map: Map<Seq<char>, JsonView>,
)
    requires
        !map.contains_key(key) || !(map[key] is String),
    ensures
        session_tracking_label_replaced(key, map) == map,
{
}

/// A user agent that is known leaves its name, category, system, version of the system,
/// type, version and vendor, and nothing else changes; one that is not known, or is no
/// text, changes nothing.
pub proof fn law_user_agent_gives_its_parts(key: Seq<char>, map: Map<Seq<char>, JsonView>)
    ensures
        !map.contains_key(key) || !(map[key] is String) ==> useragent_tag_adjusted(key, map) == map,
        map.contains_key(key) && map[key] is String ==> match parsed_user_agent(
            map[key]->String_0,
        ) {
            Some(ua) => useragent_tag_adjusted(key, map) == map.insert(
                member(key, ".name"@),
                JsonView::String(ua.name),
            ).insert(member(key, ".category"@), JsonView::String(ua.category)).insert(
                member(key, ".os"@),
                JsonView::String(ua.os),
            ).insert(member(key, ".os_version"@), JsonView::String(ua.os_version)).insert(
                member(key, ".browser_type"@),
                JsonView::String(ua.browser_type),
            ).insert(member(key, ".version"@), JsonView::String(ua.version)).insert(
                member(key, ".vendor"@),
                JsonView::String(ua.vendor),
            ),
            None => useragent_tag_adjusted(key, map) == map,
        },
{
    reveal_strlit("name");
    reveal_strlit(".name");
    assert(".name"@ =~= seq!['.'] + "name"@);
    lemma_member(key, "name"@, ".name"@);
    reveal_strlit("category");
    reveal_strlit(".category");
    assert(".category"@ =~= seq!['.'] + "category"@);
    lemma_member(key, "category"@, ".category"@);
    reveal_strlit("os");
    reveal_strlit(".os");
    assert(".os"@ =~= seq!['.'] + "os"@);
    lemma_member(key, "os"@, ".os"@);
    reveal_strlit("os_version");
    reveal_strlit(".os_version");
    assert(".os_version"@ =~= seq!['.'] + "os_version"@);
    lemma_member(key, "os_version"@, ".os_version"@);
    reveal_strlit("browser_type");
    reveal_strlit(".browser_type");
    assert(".browser_type"@ =~= seq!['.'] + "browser_type"@);
    lemma_member(key, "browser_type"@, ".browser_type"@);
    reveal_strlit("version");
    reveal_strlit(".version");
    assert(".version"@ =~= seq!['.'] + "version"@);
    lemma_member(key, "version"@, ".version"@);
    reveal_strlit("vendor");
    reveal_strlit(".vendor");
    assert(".vendor"@ =~= seq!['.'] + "vendor"@);
    lemma_member(key, "vendor"@, ".vendor"@);
}

/// Whether `key` is a property that is counted or measured.
pub open spec fn is_measured(key: Seq<char>) -> bool {
    ||| key == "properties.status"@
    ||| key == "properties.broker_initial_processing_timestamp"@
    ||| key == "properties.broker_processing_timestamp"@
    ||| key == "properties.broker_timestamp"@
    ||| key == "properties.local_initial_timediff"@
    ||| key == "properties.initial_timestamp"@
    ||| key == "properties.timestamp"@
    ||| key == "properties.authorization_time"@
    ||| key == "properties.processing_time"@
    ||| key == "properties.cumulative_authorization_time"@
    ||| key == "properties.cumulative_processing_time"@
}

/// Whatever kind a message has, its status, its timestamps and its durations become
/// numbers where they write integers of 64 bits, and stay as they are where they do not.
pub proof fn law_measured_properties_become_numbers(
    kind: Seq<char>,
    map: Map<Seq<char>, JsonView>,
    key: Seq<char>,
)
    requires
        is_measured(key),
    ensures
        forall|text: Seq<char>, value: i64|
            holds(map, key, text) && #[trigger] writes(text, value as int)
                ==> typed_properties_adjusted(kind, map).contains_key(key)
                && typed_properties_adjusted(kind, map)[key] == JsonView::Number(
                integer_number(value),
            ),
        (forall|text: Seq<char>, value: i64|
            holds(map, key, text) ==> !(#[trigger] writes(text, value as int))) ==> same_at(
            typed_properties_adjusted(kind, map),
            map,
            key,
        ),
{
    law_properties_are_adjusted_one_by_one(kind, map, key);
    assert(same_at(typed_properties_adjusted(kind, map), integer_replaced(key, map), key));
    assert forall|text: Seq<char>, value: i64|
        holds(map, key, text) && #[trigger] writes(text, value as int) implies
        typed_properties_adjusted(kind, map).contains_key(key) && typed_properties_adjusted(
        kind,
        map,
    )[key] == JsonView::Number(integer_number(value)) by {
        law_written_integer_becomes_a_number(key, map, text, value);
    }
    if forall|text: Seq<char>, value: i64|
        holds(map, key, text) ==> !(#[trigger] writes(text, value as int)) {
        law_other_values_stay(key, map);
    }
}

/// Whatever kind a message has, the ids of its agent and of its broker's agent are taken
/// apart into label, account id, and label and audience of that.
pub proof fn law_agent_properties_are_taken_apart(
    kind: Seq<char>,
    map: Map<Seq<char>, JsonView>,
    key: Seq<char>,
    label: Seq<char>,
    account_label: Seq<char>,
    audience: Seq<char>,
)
    requires
        key == "properties.agent_id"@ || key == "properties.broker_agent_id"@,
        !label.contains('.'),
        !account_label.contains('.'),
        holds(map, key, label + "."@ + (account_label + "."@ + audience)),
    ensures
        ({
            let after = typed_properties_adjusted(kind, map);
            &&& holds(after, key, label + "."@ + (account_label + "."@ + audience))
            &&& has_member(after, key, ".label"@, label)
            &&& has_member(after, key, ".account_id"@, account_label + "."@ + audience)
            &&& has_member(after, key, ".account_id.label"@, account_label)
            &&& has_member(after, key, ".account_id.audience"@, audience)
        }),
{
    reveal_strlit("properties.agent_id");
    reveal_strlit("properties.broker_agent_id");
    lemma_agent_parts(key, map, label, account_label, audience);
    lemma_members(key);
    law_properties_are_adjusted_one_by_one(kind, map, key);
    law_properties_are_adjusted_one_by_one(kind, map, member(key, ".label"@));
    law_properties_are_adjusted_one_by_one(kind, map, member(key, ".account_id"@));
    law_properties_are_adjusted_one_by_one(kind, map, member(key, ".account_id.label"@));
    law_properties_are_adjusted_one_by_one(kind, map, member(key, ".account_id.audience"@));
}

/// The members of an agent id that is taken apart, and the id itself.
pub(crate) proof fn lemma_agent_parts(
    key: Seq<char>,
    map: Map<Seq<char>, JsonView>,
    label: Seq<char>,
    account_label: Seq<char>,
    audience: Seq<char>,
)
    requires
        !label.contains('.'),
        !account_label.contains('.'),
        holds(map, key, label + "."@ + (account_label + "."@ + audience)),
    ensures
        ({
            let after = agent_id_adjusted(key, map);
            &&& holds(after, key, label + "."@ + (account_label + "."@ + audience))
            &&& has_member(after, key, ".label"@, label)
            &&& has_member(after, key, ".account_id"@, account_label + "."@ + audience)
            &&& has_member(after, key, ".account_id.label"@, account_label)
            &&& has_member(after, key, ".account_id.audience"@, audience)
        }),
{
    law_agent_id_gives_label_and_account(key, map, label, account_label, audience);
    reveal_strlit(".label");
    reveal_strlit(".account_id");
    reveal_strlit(".account_id.label");
    reveal_strlit(".account_id.audience");
    let k1 = member(key, ".label"@);
    let k2 = member(key, ".account_id"@);
    let k3 = member(key, ".account_id.label"@);
    let k4 = member(key, ".account_id.audience"@);
    assert(key.len() < k1.len() < k2.len() < k3.len() < k4.len());
}

/// The members of an account id that is taken apart, and the id itself.
pub(crate) proof fn lemma_account_parts(
    key: Seq<char>,
    map: Map<Seq<char>, JsonView>,
    label: Seq<char>,
    audience: Seq<char>,
)
    requires
        !label.contains('.'),
        holds(map, key, label + "."@ + audience),
    ensures
        ({
            let after = account_id_adjusted(key, map);
            &&& holds(after, key, label + "."@ + audience)
            &&& has_member(after, key, ".label"@, label)
            &&& has_member(after, key, ".audience"@, audience)
        }),
{
    law_account_id_gives_label_and_audience(key, map, label, audience);
    reveal_strlit(".label");
    reveal_strlit(".audience");
    assert(key.len() < member(key, ".label"@).len() < member(key, ".audience"@).len());
}

pub(crate) proof fn lemma_members_below(key: Seq<char>)
    requires
        key.len() > 0,
    ensures
        below(member(key, ".label"@), key),
        below(member(key, ".audience"@), key),
        below(member(key, ".account_id"@), key),
        below(member(key, ".account_id.label"@), key),
        below(member(key, ".account_id.audience"@), key),
{
    lemma_members(key);
}

/// Whatever kind a message has, its tracking id is taken apart into label, session id,
/// and the labels of the two sessions.
pub proof fn law_tracking_property_is_taken_apart(
    kind: Seq<char>,
    map: Map<Seq<char>, JsonView>,
    label: Seq<char>,
    agent_session: Seq<char>,
    broker_session: Seq<char>,
)
    requires
        !label.contains('.'),
        !agent_session.contains('.'),
        holds(
            map,
            "properties.tracking_id"@,
            label + "."@ + (agent_session + "."@ + broker_session),
        ),
    ensures
        ({
            let after = typed_properties_adjusted(kind, map);
            let key = "properties.tracking_id"@;
            &&& holds(after, key, label + "."@ + (agent_session + "."@ + broker_session))
            &&& has_member(after, key, ".label"@, label)
            &&& has_member(after, key, ".session_id"@, agent_session + "."@ + broker_session)
            &&& has_member(after, key, ".session_id.agent_session_label"@, agent_session)
            &&& has_member(after, key, ".session_id.broker_session_label"@, broker_session)
        }),
{
    let key = "properties.tracking_id"@;
    reveal_strlit("properties.tracking_id");
    reveal_strlit(".label");
    reveal_strlit(".session_id");
    reveal_strlit(".session_id.agent_session_label");
    reveal_strlit(".session_id.broker_session_label");
    law_tracking_id_gives_label_and_session(key, map, label, agent_session, broker_session);
    lemma_members(key);
    let k1 = member(key, ".label"@);
    let k2 = member(key, ".session_id"@);
    let k3 = member(key, ".session_id.agent_session_label"@);
    let k4 = member(key, ".session_id.broker_session_label"@);
    assert(key.len() < k1.len() < k2.len() < k3.len() < k4.len());
    law_properties_are_adjusted_one_by_one(kind, map, key);
    law_properties_are_adjusted_one_by_one(kind, map, k1);
    law_properties_are_adjusted_one_by_one(kind, map, k2);
    law_properties_are_adjusted_one_by_one(kind, map, k3);
    law_properties_are_adjusted_one_by_one(kind, map, k4);
}

/// Whatever kind a message has, its session tracking label becomes a list of texts
/// without spaces, which with spaces between them are the label.
pub proof fn law_label_property_becomes_a_list(
    kind: Seq<char>,
    map: Map<Seq<char>, JsonView>,
    text: Seq<char>,
)
    requires
        holds(map, "properties.session_tracking_label"@, text),
    ensures
        ({
            let key = "properties.session_tracking_label"@;
            let after = typed_properties_adjusted(kind, map);
            &&& after.contains_key(key)
            &&& after[key] is Array
            &&& spaced(after[key]->Array_0, text)
        }),
{
    let key = "properties.session_tracking_label"@;
    law_properties_are_adjusted_one_by_one(kind, map, key);
    lemma_fields_spaced(text);
}

/// Whether `items` are texts without spaces that make up `text` with a space between
/// neighbours.
pub open spec fn spaced(items: Seq<JsonView>, text: Seq<char>) -> bool {
    &&& items.len() > 0
    &&& forall|i: int|
        0 <= i < items.len() ==> (#[trigger] items[i]) is String && !items[i]->String_0.contains(
            ' ',
        )
    &&& glued(items) == text
}

/// The texts of a list, with a space between neighbours.
pub open spec fn glued(items: Seq<JsonView>) -> Seq<char>
    decreases items.len(),
{
    if items.len() == 0 {
        Seq::empty()
    } else if items.len() == 1 {
        items[0]->String_0
    } else {
        items[0]->String_0 + " "@ + glued(items.drop_first())
    }
}

proof fn lemma_fields_spaced(text: Seq<char>)
    ensures
        spaced(string_values(fields(text, ' ')), text),
    decreases text.len(),
{
    reveal_strlit(" ");
    assert(" "@ =~= seq![' ']);
    law_cut_is_at_the_first_separator(text, ' ');
    let items = string_values(fields(text, ' '));
    match crate::text::cut(text, ' ') {
        Some((head, tail)) => {
            law_fields_go_from_separator_to_separator(head, ' ', tail);
            lemma_fields_spaced(tail);
            assert(items.drop_first() =~= string_values(fields(tail, ' ')));
            let rest = items.drop_first();
            assert(items[0] == JsonView::String(head));
            assert(forall|i: int| 0 < i < items.len() ==> items[i] == rest[i - 1]);
        },
        None => {
            law_fields_go_from_separator_to_separator(text, ' ', text);
            assert(items =~= seq![JsonView::String(text)]);
        },
    }
}

/// The keys that adjusting the properties may add to or change.
pub open spec fn is_adjusted_property(key: Seq<char>) -> bool {
    ||| key == "properties.type"@
    ||| key == "properties.session_tracking_label"@
    ||| is_measured(key)
    ||| key == member("properties.agent_id"@, ".label"@)
    ||| key == member("properties.agent_id"@, ".account_id"@)
    ||| key == member("properties.agent_id"@, ".account_id.label"@)
    ||| key == member("properties.agent_id"@, ".account_id.audience"@)
    ||| key == member("properties.broker_agent_id"@, ".label"@)
    ||| key == member("properties.broker_agent_id"@, ".account_id"@)
    ||| key == member("properties.broker_agent_id"@, ".account_id.label"@)
    ||| key == member("properties.broker_agent_id"@, ".account_id.audience"@)
    ||| key == member("properties.tracking_id"@, ".label"@)
    ||| key == member("properties.tracking_id"@, ".session_id"@)
    ||| key == member("properties.tracking_id"@, ".session_id.agent_session_label"@)
    ||| key == member("properties.tracking_id"@, ".session_id.broker_session_label"@)
}

/// Adjusting the properties changes nothing but the kind, the measured properties, the
/// session tracking label, and the parts of the three ids.
pub proof fn law_only_adjusted_properties_change(
    kind: Seq<char>,
    map: Map<Seq<char>, JsonView>,
    key: Seq<char>,
)
    requires
        !is_adjusted_property(key),
    ensures
        same_at(typed_properties_adjusted(kind, map), map, key),
{
    law_properties_are_adjusted_one_by_one(kind, map, key);
    lemma_members("properties.agent_id"@);
    lemma_members("properties.broker_agent_id"@);
    lemma_members("properties.tracking_id"@);
    if at_or_below(key, "properties.agent_id"@) || at_or_below(key, "properties.broker_agent_id"@)
        || at_or_below(key, "properties.tracking_id"@) {
    } else if !lies_in_replaced(key) {
        law_other_properties_stay(kind, map, key);
    }
}

/// Whether `key` is, or lies below, a property that is replaced.
spec fn lies_in_replaced(key: Seq<char>) -> bool {
    ||| at_or_below(key, "properties.session_tracking_label"@)
    ||| at_or_below(key, "properties.status"@)
    ||| at_or_below(key, "properties.broker_initial_processing_timestamp"@)
    ||| at_or_below(key, "properties.broker_processing_timestamp"@)
    ||| at_or_below(key, "properties.broker_timestamp"@)
    ||| at_or_below(key, "properties.local_initial_timediff"@)
    ||| at_or_below(key, "properties.initial_timestamp"@)
    ||| at_or_below(key, "properties.timestamp"@)
    ||| at_or_below(key, "properties.authorization_time"@)
    ||| at_or_below(key, "properties.processing_time"@)
    ||| at_or_below(key, "properties.cumulative_authorization_time"@)
    ||| at_or_below(key, "properties.cumulative_processing_time"@)
}

/// The ids of a payload's agent and creator are taken apart into label, account id, and
/// label and audience of that.
pub proof fn law_payload_ids_are_taken_apart(
    map: Map<Seq<char>, JsonView>,
    key: Seq<char>,
    label: Seq<char>,
    account_label: Seq<char>,
    audience: Seq<char>,
)
    requires
        key == "payload.agent_id"@ || key == "payload.created_by"@,
        !label.contains('.'),
        !account_label.contains('.'),
        holds(map, key, label + "."@ + (account_label + "."@ + audience)),
    ensures
        ({
            let after = payload_adjusted(map);
            &&& holds(after, key, label + "."@ + (account_label + "."@ + audience))
            &&& has_member(after, key, ".label"@, label)
            &&& has_member(after, key, ".account_id"@, account_label + "."@ + audience)
            &&& has_member(after, key, ".account_id.label"@, account_label)
            &&& has_member(after, key, ".account_id.audience"@, audience)
        }),
{
    reveal_strlit("payload.agent_id");
    reveal_strlit("payload.created_by");
    lemma_agent_parts(key, map, label, account_label, audience);
    lemma_members(key);
    law_payload_is_adjusted_one_by_one(map, key);
    law_payload_is_adjusted_one_by_one(map, member(key, ".label"@));
    law_payload_is_adjusted_one_by_one(map, member(key, ".account_id"@));
    law_payload_is_adjusted_one_by_one(map, member(key, ".account_id.label"@));
    law_payload_is_adjusted_one_by_one(map, member(key, ".account_id.audience"@));
}

/// The user agent of a payload, where it is known, leaves its parts below the tag; where
/// it is not known, nothing below the tag changes.
pub proof fn law_payload_user_agent_gives_its_parts(
    map: Map<Seq<char>, JsonView>,
    source: Seq<char>,
)
    requires
        holds(map, "payload.tags.user_agent"@, source),
    ensures
        ({
            let after = payload_adjusted(map);
            &&& holds(after, "payload.tags.user_agent"@, source)
            &&& match parsed_user_agent(source) {
                Some(ua) => {
                    &&& holds(after, "payload.tags.user_agent.name"@, ua.name)
                    &&& holds(after, "payload.tags.user_agent.category"@, ua.category)
                    &&& holds(after, "payload.tags.user_agent.os"@, ua.os)
                    &&& holds(after, "payload.tags.user_agent.os_version"@, ua.os_version)
                    &&& holds(after, "payload.tags.user_agent.browser_type"@, ua.browser_type)
                    &&& holds(after, "payload.tags.user_agent.version"@, ua.version)
                    &&& holds(after, "payload.tags.user_agent.vendor"@, ua.vendor)
                },
                None => forall|key: Seq<char>|
                    below(key, "payload.tags.user_agent"@) ==> #[trigger] same_at(after, map, key),
            }
        }),
{
    let tag = "payload.tags.user_agent"@;
    reveal_strlit("payload.tags.user_agent");
    law_user_agent_gives_its_parts(tag, map);
    law_payload_is_adjusted_one_by_one(map, tag);
    reveal_strlit("name");
    reveal_strlit(".name");
    reveal_strlit("payload.tags.user_agent.name");
    assert(".name"@ =~= seq!['.'] + "name"@);
    lemma_member(tag, "name"@, ".name"@);
    assert("payload.tags.user_agent.name"@ =~= tag + ".name"@);
    law_payload_is_adjusted_one_by_one(map, tag + ".name"@);
    reveal_strlit("category");
    reveal_strlit(".category");
    reveal_strlit("payload.tags.user_agent.category");
    assert(".category"@ =~= seq!['.'] + "category"@);
    lemma_member(tag, "category"@, ".category"@);
    assert("payload.tags.user_agent.category"@ =~= tag + ".category"@);
    law_payload_is_adjusted_one_by_one(map, tag + ".category"@);
    reveal_strlit("os");
    reveal_strlit(".os");
    reveal_strlit("payload.tags.user_agent.os");
    assert(".os"@ =~= seq!['.'] + "os"@);
    lemma_member(tag, "os"@, ".os"@);
    assert("payload.tags.user_agent.os"@ =~= tag + ".os"@);
    law_payload_is_adjusted_one_by_one(map, tag + ".os"@);
    reveal_strlit("os_version");
    reveal_strlit(".os_version");
    reveal_strlit("payload.tags.user_agent.os_version");
    assert(".os_version"@ =~= seq!['.'] + "os_version"@);
    lemma_member(tag, "os_version"@, ".os_version"@);
    assert("payload.tags.user_agent.os_version"@ =~= tag + ".os_version"@);
    law_payload_is_adjusted_one_by_one(map, tag + ".os_version"@);
    reveal_strlit("browser_type");
    reveal_strlit(".browser_type");
    reveal_strlit("payload.tags.user_agent.browser_type");
    assert(".browser_type"@ =~= seq!['.'] + "browser_type"@);
    lemma_member(tag, "browser_type"@, ".browser_type"@);
    assert("payload.tags.user_agent.browser_type"@ =~= tag + ".browser_type"@);
    law_payload_is_adjusted_one_by_one(map, tag + ".browser_type"@);
    reveal_strlit("version");
    reveal_strlit(".version");
    reveal_strlit("payload.tags.user_agent.version");
    assert(".version"@ =~= seq!['.'] + "version"@);
    lemma_member(tag, "version"@, ".version"@);
    assert("payload.tags.user_agent.version"@ =~= tag + ".version"@);
    law_payload_is_adjusted_one_by_one(map, tag + ".version"@);
    reveal_strlit("vendor");
    reveal_strlit(".vendor");
    reveal_strlit("payload.tags.user_agent.vendor");
    assert(".vendor"@ =~= seq!['.'] + "vendor"@);
    lemma_member(tag, "vendor"@, ".vendor"@);
    assert("payload.tags.user_agent.vendor"@ =~= tag + ".vendor"@);
    law_payload_is_adjusted_one_by_one(map, tag + ".vendor"@);
    assert(".os"@.len() < ".name"@.len() < ".vendor"@.len() < ".version"@.len() < ".category"@.len());
    assert(".category"@.len() < ".os_version"@.len() < ".browser_type"@.len());
    assert(forall|key: Seq<char>|
        below(key, tag) ==> #[trigger] same_at(payload_adjusted(map), map, key)
            || parsed_user_agent(source) is Some) by {
        assert forall|key: Seq<char>| below(key, tag) implies #[trigger] same_at(
            payload_adjusted(map),
            map,
            key,
        ) || parsed_user_agent(source) is Some by {
            law_payload_is_adjusted_one_by_one(map, key);
        }
    }
}

/// The keys that adjusting a payload may add to or change.
pub open spec fn is_adjusted_in_payload(key: Seq<char>) -> bool {
    ||| key == "payload.agent_id.label"@
    ||| key == "payload.agent_id.account_id"@
    ||| key == "payload.agent_id.account_id.label"@
    ||| key == "payload.agent_id.account_id.audience"@
    ||| key == "payload.created_by.label"@
    ||| key == "payload.created_by.account_id"@
    ||| key == "payload.created_by.account_id.label"@
    ||| key == "payload.created_by.account_id.audience"@
    ||| key == "payload.tags.user_agent.name"@
    ||| key == "payload.tags.user_agent.category"@
    ||| key == "payload.tags.user_agent.os"@
    ||| key == "payload.tags.user_agent.os_version"@
    ||| key == "payload.tags.user_agent.browser_type"@
    ||| key == "payload.tags.user_agent.version"@
    ||| key == "payload.tags.user_agent.vendor"@
}

/// Adjusting a payload changes nothing but the parts of its two ids and of its user
/// agent.
pub proof fn law_only_adjusted_payload_changes(map: Map<Seq<char>, JsonView>, key: Seq<char>)
    requires
        !is_adjusted_in_payload(key),
    ensures
        same_at(payload_adjusted(map), map, key),
{
    law_payload_is_adjusted_one_by_one(map, key);
    law_user_agent_gives_its_parts("payload.tags.user_agent"@, map);
    lemma_members("payload.agent_id"@);
    lemma_members("payload.created_by"@);
    reveal_strlit("payload.agent_id");
    reveal_strlit("payload.created_by");
    reveal_strlit("payload.tags.user_agent");
    reveal_strlit(".label");
    reveal_strlit(".account_id");
    reveal_strlit(".account_id.label");
    reveal_strlit(".account_id.audience");
    reveal_strlit(".name");
    reveal_strlit(".category");
    reveal_strlit(".os");
    reveal_strlit(".os_version");
    reveal_strlit(".browser_type");
    reveal_strlit(".version");
    reveal_strlit(".vendor");
    reveal_strlit("payload.agent_id.label");
    assert("payload.agent_id.label"@ =~= member("payload.agent_id"@, ".label"@));
    reveal_strlit("payload.agent_id.account_id");
    assert("payload.agent_id.account_id"@ =~= member("payload.agent_id"@, ".account_id"@));
    reveal_strlit("payload.agent_id.account_id.label");
    assert("payload.agent_id.account_id.label"@ =~= member("payload.agent_id"@, ".account_id.label"@));
    reveal_strlit("payload.agent_id.account_id.audience");
    assert("payload.agent_id.account_id.audience"@ =~= member("payload.agent_id"@, ".account_id.audience"@));
    reveal_strlit("payload.created_by.label");
    assert("payload.created_by.label"@ =~= member("payload.created_by"@, ".label"@));
    reveal_strlit("payload.created_by.account_id");
    assert("payload.created_by.account_id"@ =~= member("payload.created_by"@, ".account_id"@));
    reveal_strlit("payload.created_by.account_id.label");
    assert("payload.created_by.account_id.label"@ =~= member("payload.created_by"@, ".account_id.label"@));
    reveal_strlit("payload.created_by.account_id.audience");
    assert("payload.created_by.account_id.audience"@ =~= member("payload.created_by"@, ".account_id.audience"@));
    reveal_strlit("payload.tags.user_agent.name");
    assert("payload.tags.user_agent.name"@ =~= member("payload.tags.user_agent"@, ".name"@));
    reveal_strlit("payload.tags.user_agent.category");
    assert("payload.tags.user_agent.category"@ =~= member("payload.tags.user_agent"@, ".category"@));
    reveal_strlit("payload.tags.user_agent.os");
    assert("payload.tags.user_agent.os"@ =~= member("payload.tags.user_agent"@, ".os"@));
    reveal_strlit("payload.tags.user_agent.os_version");
    assert("payload.tags.user_agent.os_version"@ =~= member("payload.tags.user_agent"@, ".os_version"@));
    reveal_strlit("payload.tags.user_agent.browser_type");
    assert("payload.tags.user_agent.browser_type"@ =~= member("payload.tags.user_agent"@, ".browser_type"@));
    reveal_strlit("payload.tags.user_agent.version");
    assert("payload.tags.user_agent.version"@ =~= member("payload.tags.user_agent"@, ".version"@));
    reveal_strlit("payload.tags.user_agent.vendor");
    assert("payload.tags.user_agent.vendor"@ =~= member("payload.tags.user_agent"@, ".vendor"@));
}

} // verus!

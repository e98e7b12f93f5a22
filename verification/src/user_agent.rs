//! What the `woothee` crate reads from a user agent string.

use vstd::prelude::*;
use vstd::string::*;

use crate::flatten::{flat_key, json_flatten_prefix};
use crate::json::{Json, JsonObject, JsonView};

verus! {

/// A user agent, taken apart.
#[derive(Debug, PartialEq)]
pub struct UserAgent {
    pub name: String,
    pub category: String,
    pub os: String,
    pub os_version: String,
    pub browser_type: String,
    pub version: String,
    pub vendor: String,
}

/// What a user agent stands for.
pub struct UserAgentView {
    pub name: Seq<char>,
    pub category: Seq<char>,
    pub os: Seq<char>,
    pub os_version: Seq<char>,
    pub browser_type: Seq<char>,
    pub version: Seq<char>,
    pub vendor: Seq<char>,
}

impl UserAgent {
    pub open spec fn view(&self) -> UserAgentView {
        UserAgentView {
            name: self.name@,
            category: self.category@,
            os: self.os@,
            os_version: self.os_version@,
            browser_type: self.browser_type@,
            version: self.version@,
            vendor: self.vendor@,
        }
    }
}

/// What `woothee` makes of a user agent string; `None` where it knows nothing of it.
pub uninterp spec fn parsed_user_agent(source: Seq<char>) -> Option<UserAgentView>;

/// `woothee::parser::Parser::parse` with a new parser: the outcome depends on the
/// string alone.
#[verifier::external_body]
fn parse_user_agent(source: &str) -> (parsed: Option<UserAgent>)
    ensures
        parsed_user_agent(source@) == match parsed {
            Some(ua) => Some(ua@),
            None => None,
        },
{
    woothee::parser::Parser::new().parse(source).map(|ua| UserAgent {
        name: ua.name.to_owned(),
        category: ua.category.to_owned(),
        os: ua.os.to_owned(),
        os_version: ua.os_version.into_owned(),
        browser_type: ua.browser_type.to_owned(),
        version: ua.version.to_owned(),
        vendor: ua.vendor.to_owned(),
    })
}

/// `map` with the parts of a user agent stored under `key`.
pub open spec fn user_agent_stored(
    ua: UserAgentView,
    key: Seq<char>,
    map: Map<Seq<char>, JsonView>,
) -> Map<Seq<char>, JsonView> {
    map
        .insert(flat_key("name"@, key), JsonView::String(ua.name))
        .insert(flat_key("category"@, key), JsonView::String(ua.category))
        .insert(flat_key("os"@, key), JsonView::String(ua.os))
        .insert(flat_key("os_version"@, key), JsonView::String(ua.os_version))
        .insert(flat_key("browser_type"@, key), JsonView::String(ua.browser_type))
        .insert(flat_key("version"@, key), JsonView::String(ua.version))
        .insert(flat_key("vendor"@, key), JsonView::String(ua.vendor))
}

/// Stores the parts of a user agent under `key`.
pub fn store_user_agent(ua: UserAgent, key: &str, acc: &mut JsonObject)
    ensures
        final(acc)@ == user_agent_stored(ua@, key@, old(acc)@),
        key@.len() > 0 ==> final(acc)@ == old(acc)@.insert(
            key@ + ".name"@,
            JsonView::String(ua.name@),
        ).insert(key@ + ".category"@, JsonView::String(ua.category@)).insert(
            key@ + ".os"@,
            JsonView::String(ua.os@),
        ).insert(key@ + ".os_version"@, JsonView::String(ua.os_version@)).insert(
            key@ + ".browser_type"@,
            JsonView::String(ua.browser_type@),
        ).insert(key@ + ".version"@, JsonView::String(ua.version@)).insert(
            key@ + ".vendor"@,
            JsonView::String(ua.vendor@),
        ),
{
    proof {
        reveal_strlit("name");
        reveal_strlit(".name");
        assert(key@ + ".name"@ =~= key@ + seq!['.'] + "name"@);
        reveal_strlit("category");
        reveal_strlit(".category");
        assert(key@ + ".category"@ =~= key@ + seq!['.'] + "category"@);
        reveal_strlit("os");
        reveal_strlit(".os");
        assert(key@ + ".os"@ =~= key@ + seq!['.'] + "os"@);
        reveal_strlit("os_version");
        reveal_strlit(".os_version");
        assert(key@ + ".os_version"@ =~= key@ + seq!['.'] + "os_version"@);
        reveal_strlit("browser_type");
        reveal_strlit(".browser_type");
        assert(key@ + ".browser_type"@ =~= key@ + seq!['.'] + "browser_type"@);
        reveal_strlit("version");
        reveal_strlit(".version");
        assert(key@ + ".version"@ =~= key@ + seq!['.'] + "version"@);
        reveal_strlit("vendor");
        reveal_strlit(".vendor");
        assert(key@ + ".vendor"@ =~= key@ + seq!['.'] + "vendor"@);
    }
    acc.insert(json_flatten_prefix("name", key), Json::String(ua.name));
    acc.insert(json_flatten_prefix("category", key), Json::String(ua.category));
    acc.insert(json_flatten_prefix("os", key), Json::String(ua.os));
    acc.insert(json_flatten_prefix("os_version", key), Json::String(ua.os_version));
    acc.insert(json_flatten_prefix("browser_type", key), Json::String(ua.browser_type));
    acc.insert(json_flatten_prefix("version", key), Json::String(ua.version));
    acc.insert(json_flatten_prefix("vendor", key), Json::String(ua.vendor));
}

/// `map` with what is known of the user agent `source` stored under `key`.
pub open spec fn user_agent_appended(
    source: Seq<char>,
    key: Seq<char>,
    map: Map<Seq<char>, JsonView>,
) -> Map<Seq<char>, JsonView> {
    match parsed_user_agent(source) {
        Some(ua) => user_agent_stored(ua, key, map),
        None => map,
    }
}

/// Takes the user agent `ua_str` apart and stores the parts under `key`; one that is
/// not known leaves `acc` as it was.
pub fn append_ua_keys_to_json(ua_str: &str, key: &str, acc: &mut JsonObject)
    ensures
        final(acc)@ == user_agent_appended(ua_str@, key@, old(acc)@),
{
    if let Some(ua) = parse_user_agent(ua_str) {
        store_user_agent(ua, key, acc);
    }
}

} // verus!

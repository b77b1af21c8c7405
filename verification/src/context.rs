//! What Herdr says of the pane that the plugin was called for.
use vstd::prelude::*;
use vstd::utf8::encode_utf8;

use crate::seqs::option_view;
use crate::text::{lowercase, lowercased, same_chars, same_text, to_chars};

verus! {

/// A JSON value, as far as it is looked into.
#[derive(Debug, PartialEq, Eq)]
pub enum Json {
    Null,
    Bool(bool),
    Text(String),
    Object(Vec<Member>),
    /// A number or an array.
    Other,
}

/// A member of a JSON object.
#[derive(Debug, PartialEq, Eq)]
pub struct Member {
    pub name: String,
    pub value: Json,
}

pub ghost enum JsonView {
    Null,
    Bool(bool),
    Text(Seq<char>),
    Object(Seq<(Seq<char>, JsonView)>),
    Other,
}

pub open spec fn json_view(json: Json) -> JsonView
    decreases json,
{
    match json {
        Json::Null => JsonView::Null,
        Json::Bool(value) => JsonView::Bool(value),
        Json::Text(text) => JsonView::Text(text@),
        Json::Object(members) => JsonView::Object(
            Seq::new(
                members@.len(),
                |i: int|
                    if 0 <= i < members@.len() {
                        (members@[i].name@, json_view(members@[i].value))
                    } else {
                        (Seq::empty(), JsonView::Null)
                    },
            ),
        ),
        Json::Other => JsonView::Other,
    }
}

impl View for Json {
    type V = JsonView;

    open spec fn view(&self) -> JsonView {
        json_view(*self)
    }
}

/// The first member of that name.
pub open spec fn member(members: Seq<(Seq<char>, JsonView)>, key: Seq<char>) -> Option<JsonView>
    decreases members.len(),
{
    if members.len() == 0 {
        None
    } else if members[0].0 == key {
        Some(members[0].1)
    } else {
        member(members.skip(1), key)
    }
}

/// The member of an object.
pub open spec fn get_member(value: JsonView, key: Seq<char>) -> Option<JsonView> {
    match value {
        JsonView::Object(members) => member(members, key),
        _ => None,
    }
}

/// The value under the key: the object's own member, else the first that its
/// members have, each looked through in turn.
pub open spec fn found(value: JsonView, key: Seq<char>) -> Option<JsonView>
    decreases value, 1int,
{
    match value {
        JsonView::Object(members) => match member(members, key) {
            Some(inner) => Some(inner),
            None => found_below(members, key),
        },
        _ => None,
    }
}

pub open spec fn found_below(members: Seq<(Seq<char>, JsonView)>, key: Seq<char>) -> Option<
    JsonView,
>
    decreases members, 0int,
{
    if members.len() == 0 {
        None
    } else {
        match found(members[0].1, key) {
            Some(inner) => Some(inner),
            None => found_below(members.skip(1), key),
        }
    }
}

/// What is found of the members from the first on, once some have been passed.
proof fn lemma_member_skip(members: Seq<(Seq<char>, JsonView)>, key: Seq<char>, k: int)
    requires
        0 <= k <= members.len(),
        forall|i: int| 0 <= i < k ==> (#[trigger] members[i]).0 != key,
    ensures
        member(members, key) == member(members.skip(k), key),
    decreases k,
{
    if k == 0 {
        assert(members.skip(0) =~= members);
    } else {
        let rest = members.skip(1);
        assert forall|i: int| 0 <= i < k - 1 implies (#[trigger] rest[i]).0 != key by {
            assert(rest[i] == members[i + 1]);
        }
        lemma_member_skip(rest, key, k - 1);
        assert(rest.skip(k - 1) =~= members.skip(k));
    }
}

/// The member of an object.
fn get<'a>(value: &'a Json, key: &str) -> (result: Option<&'a Json>)
    ensures
        (match result {
            Some(inner) => Some(inner@),
            None => None,
        }) == get_member(value@, key@),
{
    match value {
        Json::Object(members) => {
            let ghost all = value@->Object_0;
            let mut i: usize = 0;
            while i < members.len()
                invariant
                    i <= members@.len(),
                    *value == Json::Object(*members),
                    value@ == JsonView::Object(all),
                    all.len() == members@.len(),
                    forall|j: int| 0 <= j < i ==> (#[trigger] all[j]).0 != key@,
                decreases members@.len() - i,
            {
                proof {
                    assert(all[i as int] == (
                        members@[i as int].name@,
                        members@[i as int].value@,
                    ));
                }
                if same_text(members[i].name.as_str(), key) {
                    proof {
                        lemma_member_skip(all, key@, i as int);
                        assert(all.skip(i as int)[0] == all[i as int]);
                    }
                    return Some(&members[i].value);
                }
                i += 1;
            }
            proof {
                lemma_member_skip(all, key@, i as int);
                assert(all.skip(i as int) =~= Seq::empty());
            }
            None
        },
        _ => None,
    }
}

/// The value under the key: the object's own member, else the first that its
/// members have, each looked through in turn.
pub fn find_value<'a>(value: &'a Json, key: &str) -> (result: Option<&'a Json>)
    ensures
        (match result {
            Some(inner) => Some(inner@),
            None => None,
        }) == found(value@, key@),
    decreases *value,
{
    if let Some(inner) = get(value, key) {
        return Some(inner);
    }
    match value {
        Json::Object(members) => {
            let ghost all = value@->Object_0;
            let mut i: usize = 0;
            proof {
                assert(all.skip(0) =~= all);
            }
            while i < members.len()
                invariant
                    i <= members@.len(),
                    *value == Json::Object(*members),
                    value@ == JsonView::Object(all),
                    all.len() == members@.len(),
                    get_member(value@, key@) is None,
                    found_below(all, key@) == found_below(all.skip(i as int), key@),
                decreases members@.len() - i,
            {
                proof {
                    assert(all[i as int] == (
                        members@[i as int].name@,
                        members@[i as int].value@,
                    ));
                    assert(all.skip(i as int)[0] == all[i as int]);
                    assert(all.skip(i as int).skip(1) =~= all.skip(i + 1));
                    assert(decreases_to!(*value => members@[i as int].value));
                }
                if let Some(inner) = find_value(&members[i].value, key) {
                    return Some(inner);
                }
                i += 1;
            }
            proof {
                assert(all.skip(i as int) =~= Seq::empty());
            }
            None
        },
        _ => None,
    }
}

/// The text under the first of the keys that has one.
pub open spec fn text_under(value: JsonView, keys: Seq<Seq<char>>) -> Option<Seq<char>>
    decreases keys.len(),
{
    if keys.len() == 0 {
        None
    } else {
        match found(value, keys[0]) {
            Some(JsonView::Text(text)) => Some(text),
            _ => text_under(value, keys.skip(1)),
        }
    }
}

/// The text under one of the keys in the first of the values that has one.
pub open spec fn first_text(values: Seq<Option<JsonView>>, keys: Seq<Seq<char>>) -> Option<
    Seq<char>,
>
    decreases values.len(),
{
    if values.len() == 0 {
        None
    } else {
        match values[0] {
            Some(value) => match text_under(value, keys) {
                Some(text) => Some(text),
                None => first_text(values.skip(1), keys),
            },
            None => first_text(values.skip(1), keys),
        }
    }
}

/// The name of a session, where it stands in an object of its own.
pub open spec fn session_text(value: JsonView) -> Option<Seq<char>> {
    match found(value, "agent_session"@) {
        Some(session) => match get_member(session, "value"@) {
            Some(JsonView::Text(text)) => Some(text),
            _ => None,
        },
        None => None,
    }
}

pub open spec fn first_session(values: Seq<Option<JsonView>>) -> Option<Seq<char>>
    decreases values.len(),
{
    if values.len() == 0 {
        None
    } else {
        match values[0] {
            Some(value) => match session_text(value) {
                Some(text) => Some(text),
                None => first_session(values.skip(1)),
            },
            None => first_session(values.skip(1)),
        }
    }
}

pub open spec fn session_of(values: Seq<Option<JsonView>>) -> Option<Seq<char>> {
    match first_text(values, seq!["agent_session_id"@, "session_id"@]) {
        Some(text) => Some(text),
        None => first_session(values),
    }
}

/// What the values hold, by their views.
pub open spec fn value_views(values: Seq<Option<&Json>>) -> Seq<Option<JsonView>> {
    Seq::new(
        values.len(),
        |i: int|
            match values[i] {
                Some(value) => Some(value@),
                None => None,
            },
    )
}

pub open spec fn key_texts(keys: Seq<&str>) -> Seq<Seq<char>> {
    Seq::new(keys.len(), |i: int| keys[i]@)
}

fn find_text(value: &Json, keys: &[&str]) -> (result: Option<String>)
    ensures
        option_view(result) == text_under(value@, key_texts(keys@)),
{
    let ghost all = key_texts(keys@);
    let mut i: usize = 0;
    proof {
        assert(all.skip(0) =~= all);
    }
    while i < keys.len()
        invariant
            i <= keys@.len(),
            all == key_texts(keys@),
            text_under(value@, all) == text_under(value@, all.skip(i as int)),
        decreases keys@.len() - i,
    {
        proof {
            assert(all.skip(i as int)[0] == keys@[i as int]@);
            assert(all.skip(i as int).skip(1) =~= all.skip(i + 1));
        }
        if let Some(inner) = find_value(value, keys[i]) {
            if let Json::Text(text) = inner {
                return Some(text.clone());
            }
        }
        i += 1;
    }
    None
}

/// The text under one of the keys in the first of the values that has one.
pub fn find_string(values: &[Option<&Json>], keys: &[&str]) -> (result: Option<String>)
    ensures
        option_view(result) == first_text(value_views(values@), key_texts(keys@)),
{
    let ghost all = value_views(values@);
    let ghost wanted = key_texts(keys@);
    let mut i: usize = 0;
    proof {
        assert(all.skip(0) =~= all);
    }
    while i < values.len()
        invariant
            i <= values@.len(),
            all == value_views(values@),
            wanted == key_texts(keys@),
            first_text(all, wanted) == first_text(all.skip(i as int), wanted),
        decreases values@.len() - i,
    {
        proof {
            assert(all.skip(i as int)[0] == all[i as int]);
            assert(all.skip(i as int).skip(1) =~= all.skip(i + 1));
        }
        if let Some(value) = values[i] {
            if let Some(text) = find_text(value, keys) {
                return Some(text);
            }
        }
        i += 1;
    }
    None
}

fn find_session_text(value: &Json) -> (result: Option<String>)
    ensures
        option_view(result) == session_text(value@),
{
    if let Some(session) = find_value(value, "agent_session") {
        if let Some(inner) = get(session, "value") {
            if let Json::Text(text) = inner {
                return Some(text.clone());
            }
        }
    }
    None
}

/// The name of the session that the values tell of.
pub fn find_session(values: &[Option<&Json>]) -> (result: Option<String>)
    ensures
        option_view(result) == session_of(value_views(values@)),
{
    let keys: [&str; 2] = ["agent_session_id", "session_id"];
    proof {
        assert(key_texts(keys@) =~= seq!["agent_session_id"@, "session_id"@]);
    }
    if let Some(text) = find_string(values, &keys) {
        return Some(text);
    }
    let ghost all = value_views(values@);
    let mut i: usize = 0;
    proof {
        assert(all.skip(0) =~= all);
    }
    while i < values.len()
        invariant
            i <= values@.len(),
            all == value_views(values@),
            first_text(all, seq!["agent_session_id"@, "session_id"@]) is None,
            first_session(all) == first_session(all.skip(i as int)),
        decreases values@.len() - i,
    {
        proof {
            assert(all.skip(i as int)[0] == all[i as int]);
            assert(all.skip(i as int).skip(1) =~= all.skip(i + 1));
        }
        if let Some(value) = values[i] {
            if let Some(text) = find_session_text(value) {
                return Some(text);
            }
        }
        i += 1;
    }
    None
}

/// `serde_json::Value`, of which nothing is seen but what [`json_contents`] names.
#[verifier::external_type_specification]
#[verifier::external_body]
pub struct ExValue(serde_json::Value);

/// What a JSON value of `serde_json` holds, numbers and arrays left out.
pub uninterp spec fn json_contents(value: serde_json::Value) -> JsonView;

/// What `serde_json::from_str` reads in a text; `None` where it reports an error.
pub uninterp spec fn parsed_json(text: Seq<char>) -> Option<JsonView>;

/// `serde_json::from_str`, for any JSON value. Whether the text is accepted and
/// what it then holds are functions of the text; which texts are JSON is left to
/// the name.
#[verifier::external_body]
fn read_json(text: &str) -> (value: Option<serde_json::Value>)
    ensures
        (match value {
            Some(value) => Some(json_contents(value)),
            None => None,
        }) == parsed_json(text@),
{
    serde_json::from_str::<serde_json::Value>(text).ok()
}

/// A `serde_json::Value` as a [`Json`]: the same value, the members of an object
/// in the order in which `serde_json::Map` hands them out.
#[verifier::external_body]
fn json_from(value: serde_json::Value) -> (json: Json)
    ensures
        json@ == json_contents(value),
{
    match value {
        serde_json::Value::Null => Json::Null,
        serde_json::Value::Bool(value) => Json::Bool(value),
        serde_json::Value::String(text) => Json::Text(text),
        serde_json::Value::Object(map) => Json::Object(
            map.into_iter().map(|(name, value)| Member { name, value: json_from(value) }).collect(),
        ),
        serde_json::Value::Number(_) => Json::Other,
        serde_json::Value::Array(_) => Json::Other,
    }
}

/// Reads a JSON text.
pub fn parse_json(text: &str) -> (json: Option<Json>)
    ensures
        option_view(json) == parsed_json(text@),
{
    match read_json(text) {
        Some(value) => Some(json_from(value)),
        None => None,
    }
}

/// What the environment says to the plugin.
#[derive(Debug)]
pub struct PluginEnvironment {
    /// `HERDR_PLUGIN_CONTEXT_JSON`
    pub context_json: Option<String>,
    /// `HERDR_PLUGIN_EVENT_JSON`
    pub event_json: Option<String>,
    /// `HERDR_PLUGIN_EVENT`
    pub event: Option<String>,
    /// `HERDR_PANE_ID`
    pub pane_id: Option<String>,
    /// `HERDR_WORKSPACE_ID`
    pub workspace_id: Option<String>,
    /// `HERDR_ACTIVE_PANE_CWD`
    pub active_pane_cwd: Option<String>,
}

pub ghost struct EnvironmentView {
    pub context_json: Option<Seq<char>>,
    pub event_json: Option<Seq<char>>,
    pub event: Option<Seq<char>>,
    pub pane_id: Option<Seq<char>>,
    pub workspace_id: Option<Seq<char>>,
    pub active_pane_cwd: Option<Seq<char>>,
}

impl View for PluginEnvironment {
    type V = EnvironmentView;

    open spec fn view(&self) -> EnvironmentView {
        EnvironmentView {
            context_json: option_view(self.context_json),
            event_json: option_view(self.event_json),
            event: option_view(self.event),
            pane_id: option_view(self.pane_id),
            workspace_id: option_view(self.workspace_id),
            active_pane_cwd: option_view(self.active_pane_cwd),
        }
    }
}

/// The pane that the plugin was called for, as far as it is known.
#[derive(Debug, PartialEq, Eq)]
pub struct PluginContext {
    pub pane_id: Option<String>,
    pub workspace_id: Option<String>,
    pub cwd: Option<Vec<u8>>,
    pub agent: Option<String>,
    pub session_ref: Option<String>,
}

pub ghost struct ContextView {
    pub pane_id: Option<Seq<char>>,
    pub workspace_id: Option<Seq<char>>,
    pub cwd: Option<Seq<u8>>,
    pub agent: Option<Seq<char>>,
    pub session_ref: Option<Seq<char>>,
}

impl View for PluginContext {
    type V = ContextView;

    open spec fn view(&self) -> ContextView {
        ContextView {
            pane_id: option_view(self.pane_id),
            workspace_id: option_view(self.workspace_id),
            cwd: option_view(self.cwd),
            agent: option_view(self.agent),
            session_ref: option_view(self.session_ref),
        }
    }
}

impl Default for PluginContext {
    fn default() -> (context: Self)
        ensures
            context@ == (ContextView {
                pane_id: None,
                workspace_id: None,
                cwd: None,
                agent: None,
                session_ref: None,
            }),
    {
        PluginContext { pane_id: None, workspace_id: None, cwd: None, agent: None, session_ref: None }
    }
}

pub open spec fn either<T>(first: Option<T>, second: Option<T>) -> Option<T> {
    match first {
        Some(value) => Some(value),
        None => second,
    }
}

pub open spec fn encoded(text: Option<Seq<char>>) -> Option<Seq<u8>> {
    match text {
        Some(text) => Some(encode_utf8(text)),
        None => None,
    }
}

/// The context that an event and a context value give, the event first, and
/// behind them the environment.
pub open spec fn context_of(
    event: Option<JsonView>,
    context: Option<JsonView>,
    environment: EnvironmentView,
) -> ContextView {
    let values = seq![event, context];
    ContextView {
        pane_id: either(
            first_text(values, seq!["pane_id"@, "target_pane_id"@]),
            environment.pane_id,
        ),
        workspace_id: either(
            first_text(values, seq!["workspace_id"@]),
            environment.workspace_id,
        ),
        cwd: encoded(
            either(
                first_text(values, seq!["foreground_cwd"@, "cwd"@]),
                environment.active_pane_cwd,
            ),
        ),
        agent: first_text(values, seq!["agent"@, "agent_label"@]),
        session_ref: session_of(values),
    }
}

pub open spec fn parsed_option(text: Option<Seq<char>>) -> Option<JsonView> {
    match text {
        Some(text) => parsed_json(text),
        None => None,
    }
}

/// Whether an event says that the agent has let go of its pane.
pub open spec fn says_released(value: JsonView) -> bool {
    ||| get_member(value, "released"@) == Some(JsonView::Bool(true))
    ||| get_member(value, "reason"@) matches Some(JsonView::Text(reason)) && lowercase(reason)
        == lowercase("released"@)
    ||| found(value, "agent"@) == Some(JsonView::Null)
}

pub open spec fn release_event(name: Option<Seq<char>>, value: Option<JsonView>) -> bool {
    &&& name == Some("pane.agent_detected"@)
    &&& value matches Some(json) && says_released(json)
}

fn parse_option(text: &Option<String>) -> (json: Option<Json>)
    ensures
        option_view(json) == parsed_option(option_view(*text)),
{
    match text {
        Some(text) => parse_json(text.as_str()),
        None => None,
    }
}

fn or_copy(first: Option<String>, second: &Option<String>) -> (result: Option<String>)
    ensures
        option_view(result) == either(option_view(first), option_view(*second)),
{
    match first {
        Some(text) => Some(text),
        None => match second {
            Some(text) => Some(text.clone()),
            None => None,
        },
    }
}

impl PluginContext {
    /// The context that an event and a context value give.
    pub fn from_values(
        event: &Option<Json>,
        context: &Option<Json>,
        environment: &PluginEnvironment,
    ) -> (result: PluginContext)
        ensures
            result@ == context_of(option_view(*event), option_view(*context), environment@),
    {
        let values: [Option<&Json>; 2] = [event.as_ref(), context.as_ref()];
        let pane_keys: [&str; 2] = ["pane_id", "target_pane_id"];
        let workspace_keys: [&str; 1] = ["workspace_id"];
        let cwd_keys: [&str; 2] = ["foreground_cwd", "cwd"];
        let agent_keys: [&str; 2] = ["agent", "agent_label"];
        proof {
            assert(value_views(values@) =~= seq![option_view(*event), option_view(*context)]);
            assert(key_texts(pane_keys@) =~= seq!["pane_id"@, "target_pane_id"@]);
            assert(key_texts(workspace_keys@) =~= seq!["workspace_id"@]);
            assert(key_texts(cwd_keys@) =~= seq!["foreground_cwd"@, "cwd"@]);
            assert(key_texts(agent_keys@) =~= seq!["agent"@, "agent_label"@]);
        }
        let pane_id = or_copy(find_string(&values, &pane_keys), &environment.pane_id);
        let workspace_id = or_copy(
            find_string(&values, &workspace_keys),
            &environment.workspace_id,
        );
        let cwd = match or_copy(find_string(&values, &cwd_keys), &environment.active_pane_cwd) {
            Some(text) => Some(text.as_str().as_bytes_vec()),
            None => None,
        };
        let agent = find_string(&values, &agent_keys);
        let session_ref = find_session(&values);
        PluginContext { pane_id, workspace_id, cwd, agent, session_ref }
    }

    /// The context that the environment gives.
    pub fn from_env(environment: &PluginEnvironment) -> (result: PluginContext)
        ensures
            result@ == context_of(
                parsed_option(environment@.event_json),
                parsed_option(environment@.context_json),
                environment@,
            ),
    {
        let context = parse_option(&environment.context_json);
        let event = parse_option(&environment.event_json);
        PluginContext::from_values(&event, &context, environment)
    }

    /// Whether the event says that the agent has let go of its pane.
    pub fn is_release(name: &Option<String>, value: &Option<Json>) -> (released: bool)
        ensures
            released == release_event(option_view(*name), option_view(*value)),
    {
        let detected = match name {
            Some(text) => same_text(text.as_str(), "pane.agent_detected"),
            None => false,
        };
        if !detected {
            return false;
        }
        match value {
            None => false,
            Some(json) => {
                if let Some(Json::Bool(true)) = get(json, "released") {
                    return true;
                }
                if let Some(Json::Text(reason)) = get(json, "reason") {
                    let given = to_chars(reason.as_str());
                    let wanted = to_chars("released");
                    let given_lower = lowercased(&given);
                    let wanted_lower = lowercased(&wanted);
                    if same_chars(&given_lower, &wanted_lower) {
                        return true;
                    }
                }
                if let Some(Json::Null) = find_value(json, "agent") {
                    return true;
                }
                false
            },
        }
    }

    /// Whether the environment tells of an event that says so.
    pub fn is_release_event(environment: &PluginEnvironment) -> (released: bool)
        ensures
            released == release_event(
                environment@.event,
                parsed_option(environment@.event_json),
            ),
    {
        let value = parse_option(&environment.event_json);
        PluginContext::is_release(&environment.event, &value)
    }
}

/// What an event says of a pane comes before what the context says, and both
/// before the environment.
pub proof fn law_event_comes_first(
    event: Option<JsonView>,
    context: Option<JsonView>,
    environment: EnvironmentView,
    keys: Seq<Seq<char>>,
)
    ensures
        first_text(seq![event, context], keys) == either(
            first_text(seq![event], keys),
            first_text(seq![context], keys),
        ),
        first_text(seq![event, context], seq!["pane_id"@, "target_pane_id"@]) is Some
            ==> context_of(event, context, environment).pane_id == first_text(
            seq![event, context],
            seq!["pane_id"@, "target_pane_id"@],
        ),
        event is None && context is None ==> context_of(event, context, environment).pane_id
            == environment.pane_id,
{
    reveal_with_fuel(first_text, 4);
    let both = seq![event, context];
    assert(both.skip(1) =~= seq![context]);
    assert(seq![event].skip(1) =~= Seq::empty());
    assert(seq![context].skip(1) =~= Seq::empty());
}

/// Whether a value is an object whose own member of that name, the first of the name,
/// is the text.
pub open spec fn says(value: Option<JsonView>, key: Seq<char>, text: Seq<char>) -> bool {
    &&& value matches Some(JsonView::Object(members))
    &&& exists|i: int|
        #![trigger members[i]]
        0 <= i < members.len() && members[i] == (key, JsonView::Text(text)) && forall|j: int|
            0 <= j < i ==> (#[trigger] members[j]).0 != key
}

/// Whether a value has a member of that name nowhere, at no depth.
pub open spec fn says_nothing(value: Option<JsonView>, key: Seq<char>) -> bool {
    value matches Some(json) ==> found(json, key) is None
}

proof fn lemma_says(value: Option<JsonView>, key: Seq<char>, text: Seq<char>)
    requires
        says(value, key, text),
    ensures
        value is Some,
        get_member(value->0, key) == Some(JsonView::Text(text)),
        found(value->0, key) == Some(JsonView::Text(text)),
{
    let members = value->0->Object_0;
    let i = choose|i: int|
        #![trigger members[i]]
        0 <= i < members.len() && members[i] == (key, JsonView::Text(text)) && forall|j: int|
            0 <= j < i ==> (#[trigger] members[j]).0 != key;
    lemma_member_skip(members, key, i);
    assert(members.skip(i)[0] == members[i]);
}

/// What an event says of itself is what the plugin goes by, whatever the context and
/// the environment say: the pane, the workspace, the directory in the foreground before
/// the other, the agent before its label, and the session.
pub proof fn law_an_event_is_taken_at_its_word(
    event: Option<JsonView>,
    context: Option<JsonView>,
    environment: EnvironmentView,
    text: Seq<char>,
)
    ensures
        ({
            let told = context_of(event, context, environment);
            &&& says(event, "pane_id"@, text) ==> told.pane_id == Some(text)
            &&& says(event, "target_pane_id"@, text) && says_nothing(event, "pane_id"@)
                ==> told.pane_id == Some(text)
            &&& says(event, "workspace_id"@, text) ==> told.workspace_id == Some(text)
            &&& says(event, "foreground_cwd"@, text) ==> told.cwd == Some(encode_utf8(text))
            &&& says(event, "cwd"@, text) && says_nothing(event, "foreground_cwd"@) ==> told.cwd
                == Some(encode_utf8(text))
            &&& says(event, "agent"@, text) ==> told.agent == Some(text)
            &&& says(event, "agent_label"@, text) && says_nothing(event, "agent"@) ==> told.agent
                == Some(text)
            &&& says(event, "agent_session_id"@, text) ==> told.session_ref == Some(text)
            &&& says(event, "session_id"@, text) && says_nothing(event, "agent_session_id"@)
                ==> told.session_ref == Some(text)
        }),
{
    lemma_first_says(event, context, seq!["pane_id"@, "target_pane_id"@], text);
    lemma_first_says(event, context, seq!["workspace_id"@], text);
    lemma_first_says(event, context, seq!["foreground_cwd"@, "cwd"@], text);
    lemma_first_says(event, context, seq!["agent"@, "agent_label"@], text);
    lemma_first_says(event, context, seq!["agent_session_id"@, "session_id"@], text);
}

proof fn lemma_first_says(
    event: Option<JsonView>,
    context: Option<JsonView>,
    keys: Seq<Seq<char>>,
    text: Seq<char>,
)
    requires
        1 <= keys.len() <= 2,
    ensures
        says(event, keys[0], text) ==> first_text(seq![event, context], keys) == Some(text),
        keys.len() == 2 && says(event, keys[1], text) && says_nothing(event, keys[0])
            ==> first_text(seq![event, context], keys) == Some(text),
{
    reveal_with_fuel(text_under, 3);
    if says(event, keys[0], text) {
        lemma_says(event, keys[0], text);
    }
    if keys.len() == 2 && says(event, keys[1], text) {
        lemma_says(event, keys[1], text);
        assert(keys.skip(1)[0] == keys[1]);
    }
    assert(seq![event, context][0] == event);
}

/// Where neither the event nor the context says anything, the environment is gone by;
/// it knows of no agent and no session.
pub proof fn law_the_environment_comes_last(environment: EnvironmentView)
    ensures
        ({
            let told = context_of(None, None, environment);
            &&& told.pane_id == environment.pane_id
            &&& told.workspace_id == environment.workspace_id
            &&& environment.active_pane_cwd matches Some(text) ==> told.cwd == Some(
                encode_utf8(text),
            )
            &&& environment.active_pane_cwd is None ==> told.cwd is None
            &&& told.agent is None
            &&& told.session_ref is None
        }),
{
    reveal_with_fuel(first_text, 4);
    reveal_with_fuel(first_session, 4);
    let both: Seq<Option<JsonView>> = seq![None, None];
    assert(both.skip(1) =~= seq![None]);
    assert(both.skip(1).skip(1) =~= Seq::empty());
}

/// An agent has let go of its pane if and only if the event is that of an agent being
/// detected and says so: by a mark, by its reason, however that is written, or by an
/// agent that is null.
pub proof fn law_only_agents_let_go(
    name: Option<Seq<char>>,
    members: Seq<(Seq<char>, JsonView)>,
)
    ensures
        ({
            let event = JsonView::Object(members);
            let released = release_event(name, Some(event));
            &&& released ==> name == Some("pane.agent_detected"@)
            &&& !release_event(name, None)
            &&& name == Some("pane.agent_detected"@) ==> {
                &&& member(members, "released"@) == Some(JsonView::Bool(true)) ==> released
                &&& member(members, "reason"@) == Some(JsonView::Text("released"@)) ==> released
                &&& member(members, "agent"@) == Some(JsonView::Null) ==> released
                &&& member(members, "released"@) is None && member(members, "reason"@) is None
                    && found(event, "agent"@) != Some(JsonView::Null) ==> !released
            }
        }),
{
}

proof fn lemma_no_text(value: Option<JsonView>, other: Option<JsonView>, keys: Seq<Seq<char>>)
    requires
        forall|i: int|
            0 <= i < keys.len() ==> says_nothing(value, #[trigger] keys[i]) && says_nothing(
                other,
                keys[i],
            ),
    ensures
        first_text(seq![value, other], keys) is None,
{
    reveal_with_fuel(first_text, 4);
    let both = seq![value, other];
    assert(both.skip(1) =~= seq![other]);
    assert(both.skip(1).skip(1) =~= Seq::empty());
    if let Some(json) = value {
        lemma_no_text_under(json, keys);
    }
    if let Some(json) = other {
        lemma_no_text_under(json, keys);
    }
}

proof fn lemma_no_text_under(value: JsonView, keys: Seq<Seq<char>>)
    requires
        forall|i: int| 0 <= i < keys.len() ==> found(value, #[trigger] keys[i]) is None,
    ensures
        text_under(value, keys) is None,
    decreases keys.len(),
{
    if keys.len() > 0 {
        assert(found(value, keys[0]) is None);
        let rest = keys.skip(1);
        assert forall|i: int| 0 <= i < rest.len() implies found(value, #[trigger] rest[i])
            is None by {
            assert(rest[i] == keys[i + 1]);
        }
        lemma_no_text_under(value, rest);
    }
}

/// A session that stands in an object of its own is gone by where no other name is given
/// for one.
pub proof fn law_a_session_may_stand_in_an_object(
    event: JsonView,
    context: Option<JsonView>,
    environment: EnvironmentView,
    session: JsonView,
    text: Seq<char>,
)
    requires
        found(event, "agent_session"@) == Some(session),
        get_member(session, "value"@) == Some(JsonView::Text(text)),
        says_nothing(Some(event), "agent_session_id"@),
        says_nothing(Some(event), "session_id"@),
        says_nothing(context, "agent_session_id"@),
        says_nothing(context, "session_id"@),
    ensures
        context_of(Some(event), context, environment).session_ref == Some(text),
{
    let keys = seq!["agent_session_id"@, "session_id"@];
    lemma_no_text(Some(event), context, keys);
    let both = seq![Some(event), context];
    assert(both[0] == Some(event));
}

/// What a value has itself is found before anything that its members have, and what none
/// has is not found.
pub proof fn law_members_are_found_at_any_depth(
    name: Seq<char>,
    value: JsonView,
    key: Seq<char>,
)
    ensures
        ({
            let outer = JsonView::Object(seq![(name, value)]);
            &&& name == key ==> found(outer, key) == Some(value)
            &&& name != key ==> found(outer, key) == found(value, key)
            &&& !(value is Object) ==> found(value, key) is None
        }),
{
    let members = seq![(name, value)];
    reveal_with_fuel(member, 3);
    reveal_with_fuel(found, 3);
    reveal_with_fuel(found_below, 3);
    assert(members.skip(1) =~= Seq::empty());
    assert(members[0] == (name, value));
    assert(member(members.skip(1), key) is None);
    assert(found_below(members.skip(1), key) is None);
    if name != key {
        assert(member(members, key) is None);
        assert(found_below(members, key) == found(value, key));
    } else {
        assert(member(members, key) == Some(value));
    }
}

} // verus!

use herdr_agent_diff::context::{
    find_session, find_string, find_value, parse_json, Json, Member, PluginContext,
    PluginEnvironment,
};

fn object(members: Vec<(&str, Json)>) -> Json {
    Json::Object(
        members
            .into_iter()
            .map(|(key, value)| Member {
                name: key.to_owned(),
                value,
            })
            .collect(),
    )
}

fn string(text: &str) -> Json {
    Json::Text(text.to_owned())
}

#[test]
fn parses_nested_event_shapes_defensively() {
    let event = object(vec![(
        "event",
        object(vec![
            (
                "pane",
                object(vec![
                    ("pane_id", string("w1:p2")),
                    ("foreground_cwd", string("/tmp/demo")),
                ]),
            ),
            ("agent", string("codex")),
            ("agent_session", object(vec![("value", string("native-1"))])),
        ]),
    )]);
    let values = [Some(&event)];
    assert_eq!(find_string(&values, &["pane_id"]).as_deref(), Some("w1:p2"));
    assert_eq!(find_session(&values).as_deref(), Some("native-1"));
}

fn environment() -> PluginEnvironment {
    PluginEnvironment {
        context_json: None,
        event_json: None,
        event: None,
        pane_id: None,
        workspace_id: None,
        active_pane_cwd: None,
    }
}

#[test]
fn json_is_read_by_its_members() {
    let value = parse_json(r#"{"b": {"pane_id": "w1:p1"}, "a": [null, true, 7, "x"]}"#)
        .expect("object");
    assert_eq!(find_value(&value, "pane_id"), Some(&string("w1:p1")));
    assert!(matches!(find_value(&value, "a"), Some(Json::Other)));
    assert!(find_value(&value, "missing").is_none());
    assert!(parse_json("{").is_none());
    assert!(matches!(parse_json("null"), Some(Json::Null)));
    assert!(matches!(parse_json("true"), Some(Json::Bool(true))));
}

#[test]
fn an_event_comes_before_the_context_and_both_before_the_environment() {
    let mut values = environment();
    values.pane_id = Some("w9:p9".to_owned());
    values.workspace_id = Some("w9".to_owned());
    values.active_pane_cwd = Some("/env".to_owned());
    let context = PluginContext::from_env(&values);
    assert_eq!(context.pane_id.as_deref(), Some("w9:p9"));
    assert_eq!(context.cwd.as_deref(), Some(b"/env".as_slice()));
    assert_eq!(context.agent, None);

    values.context_json =
        Some(r#"{"target_pane_id": "w1:p1", "cwd": "/context", "session_id": "s1"}"#.to_owned());
    let context = PluginContext::from_env(&values);
    assert_eq!(context.pane_id.as_deref(), Some("w1:p1"));
    assert_eq!(context.workspace_id.as_deref(), Some("w9"));
    assert_eq!(context.cwd.as_deref(), Some(b"/context".as_slice()));
    assert_eq!(context.session_ref.as_deref(), Some("s1"));

    values.event_json =
        Some(r#"{"pane": {"pane_id": "w2:p2", "agent_label": "codex"}}"#.to_owned());
    let context = PluginContext::from_env(&values);
    assert_eq!(context.pane_id.as_deref(), Some("w2:p2"));
    assert_eq!(context.agent.as_deref(), Some("codex"));
    assert_eq!(context.cwd.as_deref(), Some(b"/context".as_slice()));
}

#[test]
fn an_agent_that_lets_go_of_its_pane_is_noticed() {
    let released = |event: &str, json: &str| {
        let mut values = environment();
        values.event = Some(event.to_owned());
        values.event_json = Some(json.to_owned());
        PluginContext::is_release_event(&values)
    };
    assert!(released("pane.agent_detected", r#"{"released": true}"#));
    assert!(released("pane.agent_detected", r#"{"reason": "RELEASED"}"#));
    assert!(released("pane.agent_detected", r#"{"pane": {"agent": null}}"#));
    assert!(!released("pane.agent_detected", r#"{"released": "yes"}"#));
    assert!(!released("pane.agent_detected", r#"{"agent": "codex"}"#));
    assert!(!released("pane.agent_detected", "{"));
    assert!(!released("pane.closed", r#"{"released": true}"#));
    assert!(!PluginContext::is_release_event(&environment()));
}

use robot_core::json::{
    ensure_required_fields_present, finalize_arguments, merge_planner_args, normalize_null_strings, resolve_arguments, Json,
    ResolveError,
};
use robot_core::mcp::{
    call_arguments, inject_session_id, is_cancel_text, on_elicitation_answer, on_parsed_answer,
    requires_elicitation, should_reconnect, AnswerStep, elicitation_output, tool_cancel_output, begin_elicitation,
    end_elicitation, after_failure, ElicitationStash, RetryAction,
};
use robot_core::consumed::{is_elicitation_active, ActiveElicitations, ConsumedEvents};
use robot_core::text::{json_slice, trim};

fn obj(entries: Vec<(&str, Json)>) -> Json {
    Json::Object(entries.into_iter().map(|(k, v)| (k.to_string(), v)).collect())
}

fn text(s: &str) -> Json {
    Json::Str(s.to_string())
}

fn get<'a>(v: &'a Json, k: &str) -> Option<&'a Json> {
    match v {
        Json::Object(es) => es.iter().find(|(key, _)| key == k).map(|(_, v)| v),
        _ => None,
    }
}

fn required(names: &[&str]) -> Vec<String> {
    names.iter().map(|s| s.to_string()).collect()
}

#[test]
fn null_strings_become_null_at_any_depth() {
    let v = obj(vec![
        ("a", text(" NULL ")),
        ("b", Json::Array(vec![text("null"), text("x"), obj(vec![("c", text("Null"))])])),
        ("d", text("nullable")),
        ("e", Json::Number("3".to_string())),
    ]);
    let r = normalize_null_strings(v);
    let expected = obj(vec![
        ("a", Json::Null),
        ("b", Json::Array(vec![Json::Null, text("x"), obj(vec![("c", Json::Null)])])),
        ("d", text("nullable")),
        ("e", Json::Number("3".to_string())),
    ]);
    assert_eq!(r, expected);
}

#[test]
fn required_fields_are_made_present() {
    let v = obj(vec![("city", Json::Null), ("unit", text("c")), ("days", Json::Number("2".to_string()))]);
    let r = ensure_required_fields_present(v, &required(&["city", "country", "days"]));
    assert_eq!(get(&r, "city"), Some(&Json::Null));
    assert_eq!(get(&r, "country"), Some(&Json::Null));
    assert_eq!(get(&r, "days"), Some(&Json::Number("2".to_string())));
    assert_eq!(get(&r, "unit"), Some(&text("c")));
}

#[test]
fn required_fields_leave_non_objects_alone() {
    let r = ensure_required_fields_present(text("x"), &required(&["city"]));
    assert_eq!(r, text("x"));
}

#[test]
fn planner_values_win_over_resolver_values() {
    let resolved = obj(vec![("a", text("from resolver")), ("b", text("kept"))]);
    let planner = obj(vec![("a", text("from planner")), ("c", Json::Null)]);
    let r = merge_planner_args(resolved, planner);
    assert_eq!(get(&r, "a"), Some(&text("from planner")));
    assert_eq!(get(&r, "b"), Some(&text("kept")));
    assert_eq!(get(&r, "c"), None);
}

#[test]
fn non_object_extraction_becomes_required_nulls() {
    let r = finalize_arguments(Json::Array(vec![]), Json::Null, &required(&["city"]));
    assert_eq!(r, obj(vec![("city", Json::Null)]));
    let r = finalize_arguments(text("Paris"), Json::Null, &required(&[]));
    assert_eq!(r, obj(vec![]));
}

#[test]
fn resolution_trusts_planner_objects_and_prefers_the_audit() {
    let req = required(&["city"]);
    let planner = obj(vec![("city", text("null"))]);
    assert_eq!(resolve_arguments(planner, None, None, &req).ok(), Some(obj(vec![("city", text("null"))])));
    assert!(matches!(resolve_arguments(Json::Null, None, None, &req), Err(ResolveError::Unparsed)));
    let first = obj(vec![("city", text("Paris"))]);
    let audit = obj(vec![("city", text("Lyon"))]);
    assert_eq!(resolve_arguments(Json::Null, Some(first), Some(audit), &req).ok(), Some(obj(vec![("city", text("Lyon"))])));
    let first = obj(vec![("city", text("Paris"))]);
    assert_eq!(resolve_arguments(Json::Null, Some(first), None, &req).ok(), Some(obj(vec![("city", text("Paris"))])));
}

#[test]
fn elicitation_is_stashed_and_owns_the_turn() {
    let mut stash = ElicitationStash::new();
    let mut active = ActiveElicitations::new();
    let o = begin_elicitation(&mut stash, &mut active, &"s1".to_string(), "Which city?".to_string(), obj(vec![]));
    assert_eq!(stash.last_message, Some("Which city?".to_string()));
    assert_eq!(stash.last_schema, Some(obj(vec![])));
    assert!(is_elicitation_active(&active, "s1"));
    assert_eq!(o.content, obj(vec![("message", text("Which city?")), ("schema", obj(vec![]))]));
    end_elicitation(&mut active, &"s1".to_string());
    assert!(!is_elicitation_active(&active, "s1"));
}

#[test]
fn only_transport_failures_are_retried_once() {
    assert!(matches!(after_failure(false, "broken pipe"), RetryAction::Reconnect));
    assert!(matches!(after_failure(true, "broken pipe"), RetryAction::Fail));
    assert!(matches!(after_failure(false, "invalid params"), RetryAction::Fail));
}

#[test]
fn resolver_output_has_required_fields_and_no_null_strings() {
    let extracted = obj(vec![("message", text("hello")), ("city", text("null"))]);
    let r = finalize_arguments(extracted, Json::Null, &required(&["city", "message", "date"]));
    assert_eq!(get(&r, "message"), Some(&text("hello")));
    assert_eq!(get(&r, "city"), Some(&Json::Null));
    assert_eq!(get(&r, "date"), Some(&Json::Null));
}

#[test]
fn echo_arguments_resolve_to_the_message() {
    let r = finalize_arguments(obj(vec![("message", text("hello"))]), Json::Null, &required(&["message"]));
    assert_eq!(r, obj(vec![("message", text("hello"))]));
}

#[test]
fn cancel_words_are_recognised() {
    assert!(is_cancel_text("算了"));
    assert!(is_cancel_text("  Cancel  "));
    assert!(is_cancel_text("please STOP now"));
    assert!(is_cancel_text("never mind"));
    assert!(is_cancel_text("不需要了"));
    assert!(!is_cancel_text("Beijing"));
    assert!(!is_cancel_text("   "));
    assert!(!is_cancel_text(""));
}

#[test]
fn cancel_word_answer_consumes_the_event() {
    let mut consumed = ConsumedEvents::new();
    let step = on_elicitation_answer(&mut consumed, 99, "算了", &Some("req-7".to_string()));
    match step {
        AnswerStep::Cancel { notify } => assert_eq!(notify, Some("req-7".to_string())),
        AnswerStep::Parse => panic!("expected a cancel"),
    }
    assert!(consumed.check_and_remove(99));
    let step = on_elicitation_answer(&mut consumed, 100, "Beijing", &None);
    assert!(matches!(step, AnswerStep::Parse));
    assert!(!consumed.contains(100));
}

#[test]
fn parsed_answer_consumes_only_on_success() {
    let mut consumed = ConsumedEvents::new();
    let r = on_parsed_answer(&mut consumed, 5, Some(obj(vec![("city", text("Paris"))])));
    assert_eq!(r, Some(obj(vec![("city", text("Paris"))])));
    assert!(consumed.contains(5));
    let r = on_parsed_answer(&mut consumed, 6, None);
    assert_eq!(r, None);
    assert!(!consumed.contains(6));
}

#[test]
fn transport_errors_call_for_reconnect() {
    assert!(should_reconnect("Broken pipe (os error 32)"));
    assert!(should_reconnect("Connection reset by peer"));
    assert!(should_reconnect("unexpected EOF"));
    assert!(should_reconnect("Transport closed"));
    assert!(!should_reconnect("invalid params: city"));
}

#[test]
fn missing_required_values_trigger_elicitation() {
    let req = required(&["city"]);
    assert!(requires_elicitation(&obj(vec![]), &req));
    assert!(requires_elicitation(&obj(vec![("city", Json::Null)]), &req));
    assert!(requires_elicitation(&obj(vec![("city", text("  "))]), &req));
    assert!(requires_elicitation(&obj(vec![("city", text("NULL"))]), &req));
    assert!(requires_elicitation(&obj(vec![("city", Json::Array(vec![]))]), &req));
    assert!(!requires_elicitation(&obj(vec![("city", text("Paris"))]), &req));
    assert!(!requires_elicitation(&obj(vec![("city", Json::Bool(false))]), &req));
    assert!(!requires_elicitation(&text("x"), &req));
}

#[test]
fn elicitation_call_sends_no_arguments() {
    let req = required(&["city"]);
    let args = obj(vec![("city", Json::Null), ("session_id", text("s1")), ("__trace", text("t")), ("unit", text("c"))]);
    let r = call_arguments(args, &req);
    assert_eq!(r, None);
    let r = call_arguments(obj(vec![("city", Json::Null), ("unit", text("c"))]), &req);
    assert_eq!(r, None);
    let r = call_arguments(obj(vec![("city", text("Paris"))]), &req);
    assert_eq!(r, Some(obj(vec![("city", text("Paris"))])));
    assert_eq!(call_arguments(Json::Null, &req), None);
}

#[test]
fn session_id_is_added_once() {
    let r = inject_session_id(obj(vec![("a", text("1"))]), &Some("s9".to_string()));
    assert_eq!(r, obj(vec![("a", text("1")), ("session_id", text("s9"))]));
    let r = inject_session_id(obj(vec![("session_id", text("own"))]), &Some("s9".to_string()));
    assert_eq!(r, obj(vec![("session_id", text("own"))]));
    let r = inject_session_id(obj(vec![("a", text("1"))]), &None);
    assert_eq!(r, obj(vec![("a", text("1"))]));
}

#[test]
fn json_slice_cuts_the_object_out() {
    assert_eq!(json_slice("Sure:\n```json\n{\"a\": 1}\n```"), "{\"a\": 1}");
    assert_eq!(json_slice("  no braces here "), "no braces here");
    assert_eq!(json_slice("} before {"), "} before {");
}

#[test]
fn trim_removes_unicode_whitespace() {
    assert_eq!(trim("\u{3000} hi \n"), "hi");
    assert_eq!(trim("   "), "");
}

#[test]
fn elicitation_and_cancel_notices() {
    let schema = obj(vec![("type", text("object"))]);
    let o = elicitation_output(&"s1".to_string(), "Which city?".to_string(), schema);
    assert_eq!(o.source, "mcp");
    assert_eq!(o.content, obj(vec![("message", text("Which city?")), ("schema", obj(vec![("type", text("object"))]))]));
    let c = tool_cancel_output(&"s1".to_string());
    assert_eq!(c.session_id, Some("s1".to_string()));
    assert_eq!(c.content, obj(vec![("type", text("tool_cancel")), ("message", text("已取消本次工具调用"))]));
}

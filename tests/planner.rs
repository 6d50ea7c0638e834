use robot_core::json::Json;
use robot_core::llm::reply_text;
use robot_core::llm::split_reply;
use robot_core::mcp::required_fields_of;
use robot_core::mcp::is_long_running_meta;
use robot_core::mcp::cancelled_text;
use robot_core::session::text_output;
use robot_core::plan::{
    parse_index, plan_from_reply, plan_response_from_json, select_plan_items, step_items_from_json, StepSpec,
    ToolMeta,
};

fn obj(entries: Vec<(&str, Json)>) -> Json {
    Json::Object(entries.into_iter().map(|(k, v)| (k.to_string(), v)).collect())
}

fn text(s: &str) -> Json {
    Json::Str(s.to_string())
}

fn num(s: &str) -> Json {
    Json::Number(s.to_string())
}

fn step(tool: &str, deps: &[&str]) -> Json {
    obj(vec![("tool", text(tool)), ("dependencies", Json::Array(deps.iter().map(|d| num(d)).collect()))])
}

#[test]
fn step_indices_are_plain_unsigned_integers() {
    assert_eq!(parse_index(&"0".to_string()), Some(0));
    assert_eq!(parse_index(&"12".to_string()), Some(12));
    assert_eq!(parse_index(&"18446744073709551615".to_string()), Some(usize::MAX));
    assert_eq!(parse_index(&"18446744073709551616".to_string()), None);
    assert_eq!(parse_index(&"-1".to_string()), None);
    assert_eq!(parse_index(&"1.0".to_string()), None);
    assert_eq!(parse_index(&"".to_string()), None);
}

#[test]
fn step_list_needs_tool_and_dependencies() {
    let ok = Json::Array(vec![step("list_running_tasks", &[]), step("cancel_task", &["0"])]);
    let items = step_items_from_json(&ok).unwrap();
    assert_eq!(items.len(), 2);
    assert_eq!(items[1].tool, "cancel_task");
    assert_eq!(items[1].dependencies, vec![0]);
    let missing = Json::Array(vec![obj(vec![("tool", text("echo"))])]);
    assert!(step_items_from_json(&missing).is_none());
    let bad_dep = Json::Array(vec![step("sub", &["-1"])]);
    assert!(step_items_from_json(&bad_dep).is_none());
}

#[test]
fn reply_object_carries_steps_and_reasoning() {
    let reply = obj(vec![("reasoning", text("because")), ("steps", Json::Array(vec![step("echo", &[])]))]);
    let (items, why) = plan_response_from_json(&reply).unwrap();
    assert_eq!(items.len(), 1);
    assert_eq!(why, Some("because".to_string()));
    let no_reason = obj(vec![("steps", Json::Array(vec![]))]);
    let (items, why) = plan_response_from_json(&no_reason).unwrap();
    assert!(items.is_empty());
    assert_eq!(why, None);
    let bad_reason = obj(vec![("reasoning", num("1")), ("steps", Json::Array(vec![]))]);
    assert!(plan_response_from_json(&bad_reason).is_none());
    assert!(plan_response_from_json(&obj(vec![("reasoning", text("x"))])).is_none());
}

#[test]
fn first_object_with_steps_wins() {
    let empty = obj(vec![("reasoning", text("first thoughts")), ("steps", Json::Array(vec![]))]);
    let full = obj(vec![("reasoning", text("  ")), ("steps", Json::Array(vec![step("echo", &[])]))]);
    let (items, why) = select_plan_items(vec![None, Some(empty), Some(full)], vec![], Some("thought".to_string()));
    assert_eq!(items.len(), 1);
    assert_eq!(items[0].tool, "echo");
    assert_eq!(why, Some("first thoughts".to_string()));
}

#[test]
fn step_array_is_the_fallback() {
    let arr = Json::Array(vec![step("get_current_datetime", &[]), step("sub", &["0"])]);
    let (items, why) = select_plan_items(vec![Some(num("3"))], vec![None, Some(arr)], None);
    assert_eq!(items.len(), 2);
    assert_eq!(items[1].dependencies, vec![0]);
    assert_eq!(why, None);
    let (items, _) = select_plan_items(vec![], vec![], None);
    assert!(items.is_empty());
}

#[test]
fn reply_becomes_a_plan_against_the_catalog() {
    let tools = vec![
        ToolMeta { name: "long_term_test".to_string(), description: "long".to_string(), is_long_running: true },
        ToolMeta { name: "echo".to_string(), description: "echo".to_string(), is_long_running: false },
    ];
    let reply = obj(vec![
        ("reasoning", text("run it")),
        ("steps", Json::Array(vec![step("long_term_test", &[]), step("Memory", &[]), step("echo", &["0"])])),
    ]);
    let plan = plan_from_reply(vec![Some(reply)], vec![], None, &tools);
    assert_eq!(plan.reasoning, Some("run it".to_string()));
    assert_eq!(
        plan.steps,
        vec![
            StepSpec::Tool { name: "long_term_test".to_string(), args: Json::Null, is_background: true, dependencies: vec![] },
            StepSpec::Memory,
            StepSpec::Tool { name: "echo".to_string(), args: Json::Null, is_background: false, dependencies: vec![0] },
        ]
    );
    let unparsed = plan_from_reply(vec![None], vec![None], None, &tools);
    assert!(unparsed.steps.is_empty());
}

#[test]
fn reply_text_reads_the_first_choice() {
    let raw = obj(vec![(
        "choices",
        Json::Array(vec![obj(vec![("message", obj(vec![("role", text("assistant")), ("content", text("hi there"))]))])]),
    )]);
    assert_eq!(reply_text(&raw), "hi there");
    assert_eq!(reply_text(&obj(vec![("choices", Json::Array(vec![]))])), "");
    assert_eq!(reply_text(&Json::Null), "");
}

#[test]
fn thought_is_split_and_announced() {
    let out = split_reply("<think>hmm</think>Answer", &Some("s1".to_string()));
    assert_eq!(out.text, "Answer");
    assert_eq!(out.thought, Some("hmm".to_string()));
    let e = out.think_event.unwrap();
    assert_eq!(e.source, "llm");
    assert_eq!(e.session_id, Some("s1".to_string()));
    assert_eq!(e.content, obj(vec![("type", text("think")), ("content", text("hmm"))]));
    let out = split_reply("<think>only thinking</think>", &None);
    assert_eq!(out.text, "<think>only thinking</think>");
    assert_eq!(out.thought, Some("only thinking".to_string()));
    assert!(out.think_event.is_none());
    let out = split_reply("plain", &Some("s1".to_string()));
    assert_eq!(out.text, "plain");
    assert!(out.thought.is_none() && out.think_event.is_none());
}

#[test]
fn schema_required_fields_skip_non_strings() {
    let schema = obj(vec![
        ("type", text("object")),
        ("required", Json::Array(vec![text("city"), num("3"), text("date")])),
    ]);
    assert_eq!(required_fields_of(&schema), vec!["city".to_string(), "date".to_string()]);
    assert!(required_fields_of(&obj(vec![("type", text("object"))])).is_empty());
}

#[test]
fn long_running_flag_comes_from_metadata() {
    assert!(is_long_running_meta(&Some(obj(vec![("isLongRunning", Json::Bool(true))]))));
    assert!(!is_long_running_meta(&Some(obj(vec![("isLongRunning", text("true"))]))));
    assert!(!is_long_running_meta(&Some(obj(vec![]))));
    assert!(!is_long_running_meta(&None));
}

#[test]
fn cancelled_call_reads_as_tool_cancel_text() {
    assert_eq!(cancelled_text("get_weather", &Some("user cancelled".to_string())), "tool_cancel\nname=get_weather\nmessage=user cancelled");
    assert_eq!(cancelled_text("get_weather", &None), "tool_cancel\nname=get_weather\nmessage=用户取消了本次工具调用");
}

#[test]
fn text_notice_carries_type_and_text() {
    let o = text_output(&"web".to_string(), &Some("s1".to_string()), "confirm?".to_string(), &"neutral".to_string());
    assert_eq!(o.content, obj(vec![("type", text("text")), ("text", text("confirm?"))]));
    assert_eq!(o.source, "web");
    assert_eq!(o.session_id, Some("s1".to_string()));
}

use robot_core::consumed::{set_elicitation_active, ActiveElicitations, ConsumedEvents};
use robot_core::context::{
    auditor_user_prompt, resolver_input_text, resolver_user_prompt, workflow_context, Context, HistoryEntry, Persona,
    StepStatus,
};
use robot_core::json::Json;
use robot_core::modules::{build_step, BasicDecisionEngine, McpToolStep, Step};
use robot_core::plan::{
    check_catalog, format_qwen_messages, input_text, intent_from_reply, parse_external_name, plan_candidates,
    plan_from_items, planner_text, remove_think_tags, DecisionError, IntentDecision, Message, SourceMetadata,
    StepItem, StepSpec, ToolMeta, WorkflowPlan,
};
use robot_core::router::{target_handlers, EventRouter, HandlerId, Route, TcpHandler, WebHandler};
use robot_core::session::{
    after_background, after_step, begin_input, is_for_session, next_step, no_capability_output, original_prompt,
    register_background, started_message, AfterStep, InputAction, InputEvent, NextStep, SessionState,
    SessionTable, SessionTurns, WorkflowRun,
};
use robot_core::tasks::TaskManager;

fn obj(entries: Vec<(&str, Json)>) -> Json {
    Json::Object(entries.into_iter().map(|(k, v)| (k.to_string(), v)).collect())
}

fn text(s: &str) -> Json {
    Json::Str(s.to_string())
}

fn tool(name: &str, long: bool) -> ToolMeta {
    ToolMeta { name: name.to_string(), description: format!("{} tool", name), is_long_running: long }
}

fn item(name: &str, deps: Vec<usize>) -> StepItem {
    StepItem { tool: name.to_string(), dependencies: deps }
}

fn event(id: u128, session: Option<&str>, content: &str) -> InputEvent {
    InputEvent {
        id,
        source: "tcp".to_string(),
        session_id: session.map(|s| s.to_string()),
        source_meta: None,
        payload: obj(vec![("content", text(content))]),
    }
}

fn persona() -> Persona {
    Persona {
        name: "RobotCore".to_string(),
        style: "neutral".to_string(),
        nickname: None,
        background: None,
        preferences: None,
        banned_topics: None,
        uuid: "u".to_string(),
    }
}

#[test]
fn simple_echo_plan_has_one_tool_step() {
    let tools = vec![tool("echo", false)];
    let plan = plan_from_items(vec![item("echo", vec![])], &tools, Some("echo it".to_string()));
    assert_eq!(plan.steps.len(), 1);
    assert_eq!(
        plan.steps[0],
        StepSpec::Tool { name: "echo".to_string(), args: Json::Null, is_background: false, dependencies: vec![] }
    );
    assert_eq!(plan.reasoning, Some("echo it".to_string()));
}

#[test]
fn builtin_names_map_case_insensitively() {
    let tools = vec![tool("long_term_test", true)];
    let plan = plan_from_items(
        vec![item("MEMORY", vec![]), item("Profile", vec![]), item("relationship", vec![]), item("long_term_test", vec![0])],
        &tools,
        None,
    );
    assert_eq!(plan.steps[0], StepSpec::Memory);
    assert_eq!(plan.steps[1], StepSpec::Profile);
    assert_eq!(plan.steps[2], StepSpec::Relationship);
    assert_eq!(
        plan.steps[3],
        StepSpec::Tool { name: "long_term_test".to_string(), args: Json::Null, is_background: true, dependencies: vec![0] }
    );
}

#[test]
fn two_step_math_keeps_dependencies() {
    let tools = vec![tool("get_current_datetime", false), tool("sub", false)];
    let plan = plan_from_items(
        vec![item("get_current_datetime", vec![]), item("get_current_datetime", vec![]), item("sub", vec![0, 1])],
        &tools,
        None,
    );
    assert_eq!(plan.steps.len(), 3);
    match &plan.steps[2] {
        StepSpec::Tool { name, dependencies, is_background, .. } => {
            assert_eq!(name, "sub");
            assert_eq!(dependencies, &vec![0, 1]);
            assert!(!is_background);
        }
        _ => panic!("expected a tool step"),
    }
}

#[test]
fn empty_catalog_means_no_tools_available() {
    let none: Vec<ToolMeta> = vec![];
    match check_catalog(&none) {
        Err(e) => {
            assert!(matches!(e, DecisionError::NoToolsAvailable));
            assert_eq!(e.message(), "NO_TOOLS_AVAILABLE");
        }
        Ok(()) => panic!("expected an error"),
    }
    assert!(check_catalog(&vec![tool("echo", false)]).is_ok());
}

#[test]
fn no_capability_output_is_the_single_notice() {
    let o = no_capability_output(&"tcp".to_string(), &"s1".to_string(), &"neutral".to_string());
    assert_eq!(o.target, "default");
    assert_eq!(o.source, "tcp");
    assert_eq!(o.session_id, Some("s1".to_string()));
    assert_eq!(o.content, obj(vec![("content", text("没有可用执行能力"))]));
}

#[test]
fn planner_and_session_text_sources() {
    let payload = obj(vec![("line", Json::Number("1".to_string())), ("content", text("hi")), ("msg", text("m"))]);
    assert_eq!(planner_text(&payload, &None), "");
    assert_eq!(input_text(&payload), "hi");
    let meta = SourceMetadata {
        name: "web".to_string(),
        format_hint: "text".to_string(),
        content_field: "msg".to_string(),
        description: "d".to_string(),
    };
    assert_eq!(planner_text(&payload, &Some(meta)), "m");
    let p2 = obj(vec![("line", text("first")), ("content", text("second"))]);
    assert_eq!(planner_text(&p2, &None), "first");
    assert_eq!(input_text(&p2), "first");
    assert_eq!(input_text(&Json::Null), "");
}

#[test]
fn intent_reads_the_decision_line() {
    assert_eq!(intent_from_reply("Reason: greeting\nDecision: RESPOND"), IntentDecision::Act);
    assert_eq!(intent_from_reply("reason: x\ndecision:respond"), IntentDecision::Act);
    assert_eq!(intent_from_reply("Reason: spam\nDecision: IGNORE"), IntentDecision::Ignore);
}

#[test]
fn think_tags_are_split_off() {
    let (v, t) = remove_think_tags("<think>plan it</think>Hello");
    assert_eq!(v, "Hello");
    assert_eq!(t, Some("plan it".to_string()));
    let (v, t) = remove_think_tags("a<think>x</think>b<think>y</think>c");
    assert_eq!(v, "abc");
    assert_eq!(t, Some("xy".to_string()));
    let (v, t) = remove_think_tags("plain");
    assert_eq!(v, "plain");
    assert_eq!(t, None);
    let (v, t) = remove_think_tags("ok<think>unfinished");
    assert_eq!(v, "ok");
    assert_eq!(t, Some("unfinished".to_string()));
    let (v, t) = remove_think_tags("<think>");
    assert_eq!(v, "");
    assert_eq!(t, None);
}

#[test]
fn external_names_split_into_address_and_tool() {
    assert_eq!(parse_external_name("ext::127.0.0.1:9002::echo"), Some(("127.0.0.1:9002".to_string(), "echo".to_string())));
    assert_eq!(parse_external_name("ext::host::a::b"), Some(("host".to_string(), "a::b".to_string())));
    assert_eq!(parse_external_name("ext::host"), None);
    assert_eq!(parse_external_name("echo"), None);
    assert_eq!(parse_external_name("int::a::b"), None);
}

#[test]
fn chat_template_wraps_each_message() {
    let msgs = vec![
        Message { role: "system".to_string(), content: "be brief".to_string() },
        Message { role: "user".to_string(), content: "hi".to_string() },
    ];
    assert_eq!(
        format_qwen_messages(&msgs),
        "<|im_start|>system\nbe brief\n<|im_end|>\n<|im_start|>user\nhi\n<|im_end|>\n<|im_start|>assistant\n"
    );
    assert_eq!(format_qwen_messages(&[]), "<|im_start|>assistant\n");
}

#[test]
fn planner_reply_candidates_in_order() {
    let c = plan_candidates(" x {\"a\":{\"b\":1}} y ", '{', '}');
    assert_eq!(c, vec!["{\"a\":{\"b\":1}}".to_string(), "{\"b\":1}}".to_string()]);
    let c = plan_candidates("[{\"tool\":\"echo\"}]", '[', ']');
    assert_eq!(c, vec!["[{\"tool\":\"echo\"}]".to_string()]);
    assert!(plan_candidates("nothing", '{', '}').is_empty());
}

fn math_context() -> Context {
    let mut ctx = Context::new(&persona(), "time difference between now and now".to_string(), Some("s1".to_string()));
    let plan = WorkflowPlan {
        steps: vec![
            StepSpec::Tool { name: "get_current_datetime".to_string(), args: Json::Null, is_background: false, dependencies: vec![] },
            StepSpec::Tool { name: "get_current_datetime".to_string(), args: Json::Null, is_background: false, dependencies: vec![] },
            StepSpec::Tool { name: "sub".to_string(), args: Json::Null, is_background: false, dependencies: vec![0, 1] },
            StepSpec::Memory,
        ],
        reasoning: Some("subtract".to_string()),
    };
    ctx.start_workflow(&plan);
    ctx
}

#[test]
fn context_block_shows_history_and_dependencies() {
    let mut ctx = math_context();
    let step = McpToolStep { name: "get_current_datetime".to_string(), args: Json::Null };
    ctx.set_current_step(0);
    step.record(&mut ctx, obj(vec![]), "{}".to_string());
    step.complete(&mut ctx, Json::Number("10".to_string()), "10".to_string());
    ctx.set_current_step(1);
    step.record(&mut ctx, obj(vec![]), "{}".to_string());
    step.complete(&mut ctx, Json::Number("12".to_string()), "12".to_string());
    ctx.set_current_step(2);
    let block = workflow_context(&ctx);
    let expected = "\nWorkflow Context (You are resolving parameters for the CURRENT step):\n\
Planner Reasoning (Use this to understand intent):\nsubtract\n\n\
1. get_current_datetime (Completed) - Executed with args: {} -> Result: 10\n\
2. get_current_datetime (Completed) - Executed with args: {} -> Result: 12\n\
3. sub (CURRENT - FOCUS HERE) [Depends on Steps: [0, 1]]\n    - Step 1 Result: 10\n    - Step 2 Result: 12\n\
4. System Step (Pending)\n";
    assert_eq!(block, expected);
    assert_eq!(ctx.last_tool_result, Some(Json::Number("12".to_string())));
}

#[test]
fn context_block_is_empty_without_a_workflow() {
    let ctx = Context::new(&persona(), "x".to_string(), None);
    assert_eq!(workflow_context(&ctx), "");
}

#[test]
fn tool_step_output_carries_the_result() {
    let mut ctx = math_context();
    let step = McpToolStep { name: "echo".to_string(), args: Json::Null };
    let args = step.prepare(&ctx, obj(vec![("message", text("hello"))]));
    assert_eq!(args, obj(vec![("message", text("hello")), ("session_id", text("s1"))]));
    step.record(&mut ctx, args, "{}".to_string());
    let r = step.complete(&mut ctx, obj(vec![("text", text("hello"))]), "{\"text\":\"hello\"}".to_string());
    assert_eq!(r.status, StepStatus::Continue);
    let out = r.output.unwrap();
    assert_eq!(out.content, obj(vec![("text", text("hello"))]));
    assert_eq!(out.session_id, Some("s1".to_string()));
    let h: &HistoryEntry = &ctx.workflow.as_ref().unwrap().history[0];
    assert_eq!(h.tool, "echo");
    assert_eq!(h.result, Some(obj(vec![("text", text("hello"))])));
}

#[test]
fn basic_plan_runs_builtin_steps() {
    let plan = BasicDecisionEngine.decide(&event(1, None, "hi"));
    assert_eq!(plan.steps, vec![StepSpec::Memory, StepSpec::Profile, StepSpec::Relationship]);
    let mut ctx = Context::new(&persona(), "hi".to_string(), None);
    let mut statuses = Vec::new();
    let mut outputs = Vec::new();
    for spec in plan.steps {
        let res = match build_step(spec) {
            Step::Memory(s) => s.run(&mut ctx),
            Step::Profile(s) => s.run(&mut ctx),
            Step::Relationship(s) => s.run(&mut ctx),
            Step::Tool(_) => panic!("no tool step expected"),
        };
        statuses.push(res.status);
        if let Some(o) = res.output {
            outputs.push(o);
        }
    }
    assert_eq!(statuses, vec![StepStatus::Continue, StepStatus::Continue, StepStatus::Stop]);
    assert_eq!(ctx.memory_input_text, Some("hi".to_string()));
    assert!(ctx.memory_touched && ctx.profile_touched && ctx.relationships_touched);
    assert_eq!(outputs.len(), 1);
    let o = &outputs[0];
    assert_eq!(o.source, "system");
    assert_eq!(o.style, "neutral");
    let touched = obj(vec![("touched", Json::Bool(true))]);
    assert_eq!(
        o.content,
        obj(vec![
            ("persona", text("RobotCore")),
            ("memory", obj(vec![("touched", Json::Bool(true)), ("input_text", text("hi"))])),
            ("profile", obj(vec![("touched", Json::Bool(true))])),
            ("relationships", touched),
        ])
    );
}

#[test]
fn turns_stop_after_shutdown() {
    let mut turns = SessionTurns::new();
    turns.arrive(1);
    turns.shut_down();
    assert_eq!(turns.start_next(), None);
}

#[test]
fn suspended_workflow_resumes_once_at_the_same_step() {
    let mut state = SessionState::new("s1".to_string());
    let mut consumed = ConsumedEvents::new();
    let active = ActiveElicitations::new();
    let steps = vec![StepSpec::Memory, StepSpec::Profile];
    let run = WorkflowRun { steps, index: 1, ctx: Context::new(&persona(), "start".to_string(), Some("s1".to_string())) };
    match after_step(run, StepStatus::WaitUser("confirm?".to_string()), &mut state) {
        AfterStep::Suspended(p) => assert_eq!(p, "confirm?"),
        _ => panic!("expected suspension"),
    }
    assert!(state.pending.is_some());
    match begin_input(&mut state, &mut consumed, &active, &event(2, Some("s1"), "yes")) {
        InputAction::Resume(p) => {
            assert_eq!(p.index, 1);
            assert_eq!(p.ctx.input_text, "yes");
            assert_eq!(p.steps, vec![StepSpec::Memory, StepSpec::Profile]);
        }
        _ => panic!("expected a resume"),
    }
    assert!(state.pending.is_none());
    assert!(matches!(begin_input(&mut state, &mut consumed, &active, &event(3, Some("s1"), "again")), InputAction::Plan));
}

#[test]
fn consumed_cancel_word_runs_no_plan() {
    let mut state = SessionState::new("s1".to_string());
    let mut consumed = ConsumedEvents::new();
    let active = ActiveElicitations::new();
    consumed.mark_consumed(77);
    assert!(matches!(begin_input(&mut state, &mut consumed, &active, &event(77, Some("s1"), "算了")), InputAction::Drop));
    assert!(!consumed.contains(77));
}

#[test]
fn active_elicitation_owns_the_turn() {
    let mut state = SessionState::new("tcp".to_string());
    let mut consumed = ConsumedEvents::new();
    let mut active = ActiveElicitations::new();
    set_elicitation_active(&mut active, "tcp", true);
    assert!(matches!(begin_input(&mut state, &mut consumed, &active, &event(1, None, "Paris")), InputAction::Drop));
    set_elicitation_active(&mut active, "tcp", false);
    assert!(matches!(begin_input(&mut state, &mut consumed, &active, &event(1, None, "Paris")), InputAction::Plan));
}

#[test]
fn runner_steps_through_background_and_stop() {
    let steps = vec![
        StepSpec::Tool { name: "long_term_test".to_string(), args: Json::Null, is_background: true, dependencies: vec![] },
        StepSpec::Relationship,
        StepSpec::Memory,
    ];
    let mut state = SessionState::new("s".to_string());
    let mut run = WorkflowRun { steps, index: 0, ctx: Context::new(&persona(), "x".to_string(), None) };
    assert!(matches!(next_step(&mut run), NextStep::Background));
    after_background(&mut run);
    assert_eq!(run.index, 1);
    assert!(matches!(next_step(&mut run), NextStep::Foreground));
    assert!(matches!(after_step(run, StepStatus::Stop, &mut state), AfterStep::Stopped));
    assert!(state.pending.is_none());
}

#[test]
fn runner_finishes_after_the_last_step() {
    let mut state = SessionState::new("s".to_string());
    let run = WorkflowRun { steps: vec![StepSpec::Memory], index: 0, ctx: Context::new(&persona(), "x".to_string(), None) };
    let mut run = match after_step(run, StepStatus::Continue, &mut state) {
        AfterStep::Next(r) => r,
        _ => panic!("expected the next step"),
    };
    assert_eq!(run.index, 1);
    assert!(matches!(next_step(&mut run), NextStep::Done));
}

#[test]
fn background_registration_announces_the_task() {
    let mut m = TaskManager::new();
    let started = register_background(&mut m, "long_term_test", "run the long test", &obj(vec![("n", Json::Number("3".to_string()))]), "{\"n\":3}");
    assert_eq!(started.id.len(), 36);
    assert_eq!(started.ordinal, 1);
    assert_eq!(started.message, format!("Started background task 'long_term_test' (ID: {})", started.id));
    let listed = m.list_tasks();
    assert_eq!(listed[0].original_prompt, "run the long test | args={\"n\":3}");
    let second = register_background(&mut m, "long_term_test", "again", &Json::Null, "null");
    assert_eq!(second.ordinal, 2);
    assert_ne!(second.id, started.id);
}

#[test]
fn trivial_arguments_leave_the_prompt_alone() {
    assert_eq!(original_prompt("do it", &Json::Null, "null"), "do it");
    assert_eq!(original_prompt("do it", &obj(vec![]), "{}"), "do it");
    assert_eq!(original_prompt("do it", &Json::Array(vec![]), "[]"), "do it");
    assert_eq!(original_prompt("do it", &text("x"), "\"x\""), "do it | args=\"x\"");
    assert_eq!(started_message("t", "id"), "Started background task 't' (ID: id)");
}

#[test]
fn same_session_events_queue_in_order() {
    let mut table = SessionTable::new();
    assert!(table.dispatch("s1".to_string(), 1));
    assert!(!table.dispatch("s1".to_string(), 2));
    assert!(table.dispatch("s2".to_string(), 3));
    assert_eq!(table.take_next(&"s1".to_string()), Some(1));
    assert_eq!(table.take_next(&"s1".to_string()), Some(2));
    assert_eq!(table.take_next(&"s1".to_string()), None);
    assert_eq!(table.take_next(&"s2".to_string()), Some(3));
    assert_eq!(table.take_next(&"s3".to_string()), None);
}

#[test]
fn closed_session_is_opened_anew() {
    let mut table = SessionTable::new();
    table.dispatch("s1".to_string(), 1);
    assert!(table.remove_session(&"s1".to_string()));
    assert!(!table.remove_session(&"s1".to_string()));
    assert!(table.dispatch("s1".to_string(), 2));
    assert_eq!(table.take_next(&"s1".to_string()), Some(2));
}

#[test]
fn events_match_their_session() {
    assert!(is_for_session(&event(1, Some("s1"), "x"), "s1"));
    assert!(!is_for_session(&event(1, Some("s1"), "x"), "tcp"));
    assert!(is_for_session(&event(1, None, "x"), "tcp"));
}

#[test]
fn routes_pick_targets_or_broadcast() {
    let all = vec![HandlerId::named("tcp"), HandlerId::named("web")];
    let mut router = EventRouter::new();
    assert!(!router.has_routes());
    let t = target_handlers(&router, &"tcp".to_string(), &all);
    assert_eq!(t.iter().map(|h| h.name().to_string()).collect::<Vec<_>>(), vec!["tcp", "web"]);
    router.add_source_route::<TcpHandler>(vec![HandlerId::of::<WebHandler>()]);
    assert!(router.has_routes());
    let t = target_handlers(&router, &"tcp".to_string(), &all);
    assert_eq!(t.iter().map(|h| h.name().to_string()).collect::<Vec<_>>(), vec!["web"]);
    let t = target_handlers(&router, &"console".to_string(), &all);
    assert_eq!(t.len(), 2);
    router.add_route(Route::new(HandlerId::named("tcp"), HandlerId::named("web")).add_output(HandlerId::named("tcp")));
    let outs = router.get_outputs_for_handler(&HandlerId::named("tcp")).unwrap();
    assert_eq!(outs.iter().map(|h| h.name().to_string()).collect::<Vec<_>>(), vec!["web", "tcp"]);
    assert!(router.get_outputs_for_handler(&HandlerId::named("web")).is_none());
    let src = router.get_outputs_for_source_type(&"tcp".to_string()).unwrap();
    assert_eq!(src.len(), 1);
}

#[test]
fn resolver_prompts_are_assembled() {
    let ctx = Context::new(&persona(), "weather in Paris".to_string(), None);
    assert_eq!(resolver_input_text(&Json::Null, &ctx), Some("weather in Paris".to_string()));
    assert_eq!(resolver_input_text(&text("Paris"), &ctx), Some("Paris".to_string()));
    assert_eq!(resolver_input_text(&Json::Bool(true), &ctx), None);
    assert_eq!(resolver_user_prompt("Paris", &None, "BLOCK"), "Input: Paris\nBLOCK\nReturn JSON:");
    assert_eq!(
        resolver_user_prompt("Paris", &Some("{\"t\":1}".to_string()), "BLOCK"),
        "Input: Paris\nPrevious result: {\"t\":1}\nBLOCK\nReturn JSON:"
    );
    assert_eq!(
        auditor_user_prompt("u", "c", "{}"),
        "User Input: u\nContext: c\nGenerated Args: {}\n\nPlease evaluate and fix the arguments. Return JSON:"
    );
}

#[test]
fn one_turn_at_a_time_in_arrival_order() {
    let mut turns = SessionTurns::new();
    turns.arrive(1);
    turns.arrive(2);
    assert_eq!(turns.start_next(), Some(1));
    assert_eq!(turns.start_next(), None);
    turns.arrive(3);
    assert_eq!(turns.finish_current(), Some(1));
    assert_eq!(turns.start_next(), Some(2));
    assert_eq!(turns.finish_current(), Some(2));
    assert_eq!(turns.finish_current(), None);
    assert_eq!(turns.start_next(), Some(3));
}

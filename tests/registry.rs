use robot_core::consumed::{is_elicitation_active, set_elicitation_active, ActiveElicitations, ConsumedEvents};
use robot_core::json::Json;
use robot_core::task_tools::{
    cancel_task_call, route_tool_call, task_tool_required_fields, with_task_tools, TaskCallError, ToolRoute,
};
use robot_core::tasks::TaskManager;
use robot_core::plan::ToolMeta;

fn obj(entries: Vec<(&str, Json)>) -> Json {
    Json::Object(entries.into_iter().map(|(k, v)| (k.to_string(), v)).collect())
}

fn text(s: &str) -> Json {
    Json::Str(s.to_string())
}

#[test]
fn consumed_event_is_reported_once() {
    let mut set = ConsumedEvents::new();
    set.mark_consumed(42);
    assert!(set.contains(42));
    assert!(set.check_and_remove(42));
    assert!(!set.check_and_remove(42));
    assert!(!set.check_and_remove(42));
    assert!(!set.contains(42));
}

#[test]
fn unmarked_event_is_not_consumed() {
    let mut set = ConsumedEvents::new();
    set.mark_consumed(1);
    assert!(!set.check_and_remove(2));
    assert!(set.check_and_remove(1));
}

#[test]
fn marking_twice_still_reports_once() {
    let mut set = ConsumedEvents::new();
    set.mark_consumed(7);
    set.mark_consumed(7);
    assert!(set.check_and_remove(7));
    assert!(!set.check_and_remove(7));
}

#[test]
fn elicitation_activity_follows_the_flag() {
    let mut set = ActiveElicitations::new();
    assert!(!is_elicitation_active(&set, "s1"));
    set_elicitation_active(&mut set, "s1", true);
    set_elicitation_active(&mut set, "s1", true);
    assert!(is_elicitation_active(&set, "s1"));
    assert!(!is_elicitation_active(&set, "s2"));
    set_elicitation_active(&mut set, "s1", false);
    assert!(!is_elicitation_active(&set, "s1"));
    set_elicitation_active(&mut set, "s2", false);
    assert!(!is_elicitation_active(&set, "s2"));
}

#[test]
fn ordinals_strictly_increase() {
    let mut m = TaskManager::new();
    let a = m.add_task("a".to_string(), "long_term_test".to_string(), "first".to_string());
    let b = m.add_task("b".to_string(), "long_term_test".to_string(), "second".to_string());
    m.remove_task("a");
    let c = m.add_task("c".to_string(), "long_term_test".to_string(), "third".to_string());
    assert_eq!(a, 1);
    assert_eq!(b, 2);
    assert_eq!(c, 3);
    assert!(a < b && b < c);
}

#[test]
fn cancel_returns_true_exactly_once() {
    let mut m = TaskManager::new();
    m.add_task("t1".to_string(), "long_term_test".to_string(), "p".to_string());
    m.add_task("t2".to_string(), "long_term_test".to_string(), "q".to_string());
    assert_eq!(m.len(), 2);
    assert!(m.cancel_task("t1"));
    assert_eq!(m.len(), 1);
    assert!(!m.cancel_task("t1"));
    assert!(m.cancel_task("t2"));
    assert!(!m.cancel_task("t1"));
    assert_eq!(m.len(), 0);
}

#[test]
fn listing_shows_every_running_task() {
    let mut m = TaskManager::new();
    m.add_task("x".to_string(), "long_term_test".to_string(), "do x".to_string());
    m.add_task("y".to_string(), "gpuinfo".to_string(), "do y".to_string());
    let list = m.list_tasks();
    assert_eq!(list.len(), 2);
    let x = list.iter().find(|t| t.id == "x").unwrap();
    assert_eq!(x.name, "long_term_test");
    assert_eq!(x.ordinal, 1);
    assert_eq!(x.original_prompt, "do x");
    assert_eq!(x.status, "Running");
    let y = list.iter().find(|t| t.id == "y").unwrap();
    assert_eq!(y.ordinal, 2);
    assert_eq!(y.status, "Running");
}

#[test]
fn re_adding_an_id_replaces_it() {
    let mut m = TaskManager::new();
    m.add_task("x".to_string(), "a".to_string(), "one".to_string());
    let o = m.add_task("x".to_string(), "b".to_string(), "two".to_string());
    assert_eq!(o, 2);
    assert_eq!(m.len(), 1);
    let list = m.list_tasks();
    assert_eq!(list[0].name, "b");
    assert_eq!(list[0].ordinal, 2);
}

#[test]
fn catalog_gains_the_two_task_tools() {
    let tools = vec![ToolMeta { name: "echo".to_string(), description: "Echo".to_string(), is_long_running: false }];
    let all = with_task_tools(tools);
    assert_eq!(all.len(), 3);
    assert_eq!(all[0].name, "echo");
    assert_eq!(all[1].name, "list_running_tasks");
    assert_eq!(all[2].name, "cancel_task");
    assert!(!all[1].is_long_running && !all[2].is_long_running);
    assert!(all[2].description.contains("list_running_tasks"));
}

#[test]
fn tool_calls_are_routed_by_name() {
    assert!(matches!(route_tool_call("list_running_tasks"), ToolRoute::ListRunningTasks));
    assert!(matches!(route_tool_call("cancel_task"), ToolRoute::CancelTask));
    assert!(matches!(route_tool_call("echo"), ToolRoute::Inner));
    assert_eq!(task_tool_required_fields("cancel_task"), Some(vec!["task_id".to_string()]));
    assert_eq!(task_tool_required_fields("list_running_tasks"), Some(vec![]));
    assert_eq!(task_tool_required_fields("echo"), None);
}

#[test]
fn list_then_cancel_removes_one_task() {
    let mut m = TaskManager::new();
    m.add_task("id-1".to_string(), "long_term_test".to_string(), "first long task".to_string());
    m.add_task("id-2".to_string(), "long_term_test".to_string(), "second long task".to_string());
    let listed = m.list_tasks();
    let first = listed.iter().find(|t| t.ordinal == 1).unwrap().id.clone();
    let reply = cancel_task_call(&mut m, &obj(vec![("task_id", text(&first))]));
    match reply {
        Ok(msg) => assert_eq!(msg, "Task id-1 cancelled successfully"),
        Err(_) => panic!("cancel failed"),
    }
    assert_eq!(m.len(), 1);
    let again = cancel_task_call(&mut m, &obj(vec![("task_id", text("id-1"))]));
    match again {
        Ok(msg) => assert_eq!(msg, "Task id-1 not found"),
        Err(_) => panic!("cancel failed"),
    }
}

#[test]
fn cancel_without_task_id_fails() {
    let mut m = TaskManager::new();
    m.add_task("a".to_string(), "t".to_string(), "p".to_string());
    assert!(matches!(cancel_task_call(&mut m, &obj(vec![])), Err(TaskCallError::MissingTaskId)));
    assert!(matches!(cancel_task_call(&mut m, &obj(vec![("task_id", Json::Null)])), Err(TaskCallError::MissingTaskId)));
    assert!(matches!(cancel_task_call(&mut m, &Json::Null), Err(TaskCallError::MissingTaskId)));
    assert_eq!(m.len(), 1);
}

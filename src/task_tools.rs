//! The two synthetic tools that every session's catalog carries beside the
//! server's own: `list_running_tasks` and `cancel_task`, both answered from
//! the session's task registry.

use vstd::prelude::*;
use crate::json::Json;
use crate::plan::{ToolMeta, string_field};
use crate::tasks::TaskManager;
use crate::text::{push_str, string_of};

verus! {

pub open spec fn list_tasks_name() -> Seq<char> {
    "list_running_tasks"@
}

pub open spec fn cancel_task_name() -> Seq<char> {
    "cancel_task"@
}

/// Where a call to a tool goes.
pub enum ToolRoute {
    /// Answered with the registry's snapshot.
    ListRunningTasks,
    /// Answered by cancelling a registered task.
    CancelTask,
    /// Handed to the session's MCP client.
    Inner,
}

/// Which tool answers a call to `name`.
pub fn route_tool_call(name: &str) -> (r: ToolRoute)
    ensures
        r is ListRunningTasks <==> name@ == list_tasks_name(),
        r is CancelTask <==> name@ == cancel_task_name(),
{
    let n = name.to_string();
    proof {
        reveal_strlit("list_running_tasks");
        reveal_strlit("cancel_task");
        assert(list_tasks_name().len() == 18);
        assert(cancel_task_name().len() == 11);
    }
    if n == "list_running_tasks".to_string() {
        ToolRoute::ListRunningTasks
    } else if n == "cancel_task".to_string() {
        ToolRoute::CancelTask
    } else {
        ToolRoute::Inner
    }
}

/// The catalog with the two synthetic tools appended, the listing first.
pub fn with_task_tools(tools: Vec<ToolMeta>) -> (r: Vec<ToolMeta>)
    ensures
        r.len() == tools.len() + 2,
        r@.subrange(0, tools.len() as int) == tools@,
        r@[tools.len() as int].name@ == list_tasks_name(),
        !r@[tools.len() as int].is_long_running,
        r@[tools.len() + 1].name@ == cancel_task_name(),
        !r@[tools.len() + 1].is_long_running,
{
    let ghost before = tools@;
    let mut r = tools;
    r.push(
        ToolMeta {
            name: "list_running_tasks".to_string(),
            description: "CRITICAL: Call this tool FIRST when the user wants to check status or cancel a task. Returns a list of tasks with 'ordinal' (index), 'original_prompt' (user intent), and 'task_id'. Use this output to map user's natural language description to a precise 'task_id'.".to_string(),
            is_long_running: false,
        },
    );
    r.push(
        ToolMeta {
            name: "cancel_task".to_string(),
            description: "Cancels a background task. REQUIRED: You MUST have a valid 'task_id' from the output of 'list_running_tasks' before calling this. DO NOT guess the ID. If you don't know the ID, call 'list_running_tasks' first.".to_string(),
            is_long_running: false,
        },
    );
    assert(r@.subrange(0, before.len() as int) =~= before);
    r
}

/// The required fields of a synthetic tool: `task_id` for `cancel_task`,
/// none for `list_running_tasks`; `None` for any other tool.
pub fn task_tool_required_fields(name: &str) -> (r: Option<Vec<String>>)
    ensures
        name@ == cancel_task_name() ==> r is Some && r->Some_0.len() == 1 && r->Some_0@[0]@ == "task_id"@,
        name@ == list_tasks_name() ==> r is Some && r->Some_0.len() == 0,
        name@ != cancel_task_name() && name@ != list_tasks_name() ==> r is None,
{
    match route_tool_call(name) {
        ToolRoute::CancelTask => Some(vec!["task_id".to_string()]),
        ToolRoute::ListRunningTasks => Some(Vec::new()),
        ToolRoute::Inner => None,
    }
}

/// Why a synthetic tool call failed.
pub enum TaskCallError {
    /// `cancel_task` was called without a string `task_id`.
    MissingTaskId,
}

/// The reply to a cancellation of `id`.
pub open spec fn cancel_reply(id: Seq<char>, found: bool) -> Seq<char> {
    "Task "@ + id + if found {
        " cancelled successfully"@
    } else {
        " not found"@
    }
}

/// Answers `cancel_task`: cancels the task under the string `task_id` of
/// `args` and says whether it was found. Without such a field the registry
/// is left as it is and the call fails.
pub fn cancel_task_call(manager: &mut TaskManager, args: &Json) -> (r: Result<String, TaskCallError>)
    requires
        old(manager).wf(),
    ensures
        final(manager).wf(),
        match string_field(*args, "task_id"@) {
            None => r is Err && final(manager)@ == old(manager)@,
            Some(id) => r is Ok && final(manager)@ == old(manager)@.removed(id) && r->Ok_0@
                == cancel_reply(id, old(manager)@.tasks.contains_key(id)) && (old(manager)@.tasks.contains_key(id)
                ==> final(manager)@.tasks.len() + 1 == old(manager)@.tasks.len()),
        },
{
    let id = match args {
        Json::Object(es) => {
            let key = "task_id".to_string();
            let pos = crate::json::find_key(es, &key);
            proof {
                crate::json::lemma_first_key_from(es@, key@, 0);
            }
            match pos {
                Some(j) => match &es[j].1 {
                    Json::Str(s) => Some(s),
                    _ => None,
                },
                None => None,
            }
        },
        _ => None,
    };
    match id {
        Some(id) => {
            let found = manager.cancel_task(id.as_str());
            let mut msg: Vec<char> = Vec::new();
            push_str(&mut msg, "Task ");
            push_str(&mut msg, id.as_str());
            if found {
                push_str(&mut msg, " cancelled successfully");
            } else {
                push_str(&mut msg, " not found");
            }
            Ok(string_of(msg.as_slice()))
        },
        None => Err(TaskCallError::MissingTaskId),
    }
}

} // verus!

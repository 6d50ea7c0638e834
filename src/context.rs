//! The scratch context threaded through a workflow's steps: persona, the
//! user's text, the plan being run with its history of tool calls, and the
//! built-in steps' effects. Also the workflow context block that tells the
//! parameter extractor where in the plan it stands.

use vstd::prelude::*;
use crate::json::{Json, same_json, set_key};
use crate::llm::field;
use crate::session::OutputEvent;
use crate::plan::{StepSpec, WorkflowPlan};
use crate::text::{push_str, string_of, chars_of, trim_chars, trimmed};

verus! {

/// How outputs are styled.
pub enum OutputStyle {
    Neutral,
    Formal,
    Friendly,
}

impl OutputStyle {
    pub open spec fn spec_label(&self) -> Seq<char> {
        match self {
            OutputStyle::Neutral => "neutral"@,
            OutputStyle::Formal => "formal"@,
            OutputStyle::Friendly => "friendly"@,
        }
    }

    /// The style's name as personas and outputs carry it.
    pub fn label(&self) -> (r: String)
        ensures
            r@ == self.spec_label(),
    {
        match self {
            OutputStyle::Neutral => "neutral".to_string(),
            OutputStyle::Formal => "formal".to_string(),
            OutputStyle::Friendly => "friendly".to_string(),
        }
    }
}

/// Who the agent is.
pub struct Persona {
    pub name: String,
    pub style: String,
    pub nickname: Option<String>,
    pub background: Option<String>,
    pub preferences: Option<String>,
    pub banned_topics: Option<Vec<String>>,
    pub uuid: String,
}

impl Default for Persona {
    /// `RobotCore`, neutral, with a fresh random id.
    fn default() -> (r: Self)
        ensures
            r.name@ == "RobotCore"@,
            r.style@ == "neutral"@,
            r.nickname is None,
            r.background is None,
            r.preferences is None,
            r.banned_topics is None,
            r.uuid@.len() == 36,
    {
        Persona {
            name: "RobotCore".to_string(),
            style: OutputStyle::Neutral.label(),
            nickname: None,
            background: None,
            preferences: None,
            banned_topics: None,
            uuid: crate::session::new_uuid_text(),
        }
    }
}

/// A step of the plan as the context block shows it.
pub struct StepLabel {
    /// The tool's name, or `None` for a built-in step.
    pub tool: Option<String>,
    pub dependencies: Vec<usize>,
}

/// One tool call of the running workflow, with the texts of its arguments
/// and, once it returned, of its result.
pub struct HistoryEntry {
    pub step_index: usize,
    pub tool: String,
    pub args: Json,
    pub args_text: String,
    pub result: Option<Json>,
    pub result_text: Option<String>,
}

/// The workflow part of a context's memory.
pub struct WorkflowMemory {
    pub steps: Vec<StepLabel>,
    pub reasoning: Option<String>,
    pub current_step_index: usize,
    pub history: Vec<HistoryEntry>,
}

/// The scratch context of one workflow run.
pub struct Context {
    pub persona_name: String,
    pub style: String,
    pub input_text: String,
    pub session_id: Option<String>,
    pub workflow: Option<WorkflowMemory>,
    pub last_tool_result: Option<Json>,
    /// The input text that a memory step stashed.
    pub memory_input_text: Option<String>,
    pub memory_touched: bool,
    pub profile_touched: bool,
    pub relationships_touched: bool,
}

fn copy_deps(ds: &Vec<usize>) -> (r: Vec<usize>)
    ensures
        r@ == ds@,
{
    let mut out: Vec<usize> = Vec::new();
    let mut i: usize = 0;
    while i < ds.len()
        invariant
            i <= ds.len(),
            out@ == ds@.subrange(0, i as int),
        decreases ds.len() - i,
    {
        out.push(ds[i]);
        i = i + 1;
        assert(out@ =~= ds@.subrange(0, i as int));
    }
    assert(ds@.subrange(0, ds.len() as int) =~= ds@);
    out
}

/// The label that a step shows in the context block.
pub open spec fn label_matches(s: StepSpec, l: StepLabel) -> bool {
    match s {
        StepSpec::Tool { name, dependencies, .. } => l.tool is Some && l.tool->Some_0@ == name@
            && l.dependencies@ == dependencies@,
        _ => l.tool is None && l.dependencies@.len() == 0,
    }
}

/// The labels of a plan's steps, in order.
pub fn labels_of(plan: &WorkflowPlan) -> (r: Vec<StepLabel>)
    ensures
        r.len() == plan.steps.len(),
        forall|i: int| 0 <= i < r.len() ==> label_matches(plan.steps@[i], #[trigger] r@[i]),
{
    let mut out: Vec<StepLabel> = Vec::new();
    let mut i: usize = 0;
    while i < plan.steps.len()
        invariant
            i <= plan.steps.len(),
            out.len() == i,
            forall|k: int| 0 <= k < i ==> label_matches(plan.steps@[k], #[trigger] out@[k]),
        decreases plan.steps.len() - i,
    {
        let l = match &plan.steps[i] {
            StepSpec::Tool { name, dependencies, .. } => StepLabel {
                tool: Some(name.clone()),
                dependencies: copy_deps(dependencies),
            },
            _ => StepLabel { tool: None, dependencies: Vec::new() },
        };
        out.push(l);
        i = i + 1;
    }
    out
}

impl Context {
    /// Everything but the text, the workflow and the last result is the same
    /// in both contexts.
    pub open spec fn same_scratch(&self, other: &Context) -> bool {
        &&& self.persona_name == other.persona_name
        &&& self.style == other.style
        &&& self.session_id == other.session_id
        &&& self.memory_input_text == other.memory_input_text
        &&& self.memory_touched == other.memory_touched
        &&& self.profile_touched == other.profile_touched
        &&& self.relationships_touched == other.relationships_touched
    }

    /// A fresh context for a turn: nothing remembered yet.
    pub fn new(persona: &Persona, input_text: String, session_id: Option<String>) -> (r: Self)
        ensures
            r.persona_name@ == persona.name@,
            r.style@ == persona.style@,
            r.input_text == input_text,
            r.session_id == session_id,
            r.workflow is None,
            r.last_tool_result is None,
            r.memory_input_text is None,
            !r.memory_touched && !r.profile_touched && !r.relationships_touched,
    {
        Context {
            persona_name: persona.name.clone(),
            style: persona.style.clone(),
            input_text,
            session_id,
            workflow: None,
            last_tool_result: None,
            memory_input_text: None,
            memory_touched: false,
            profile_touched: false,
            relationships_touched: false,
        }
    }

    /// Starts running `plan`: its steps are remembered and the current step
    /// is the first.
    pub fn start_workflow(&mut self, plan: &WorkflowPlan)
        ensures
            final(self).workflow is Some,
            final(self).workflow->Some_0.current_step_index == 0,
            final(self).workflow->Some_0.history.len() == 0,
            final(self).workflow->Some_0.steps.len() == plan.steps.len(),
            forall|i: int|
                0 <= i < plan.steps.len() ==> label_matches(
                    plan.steps@[i],
                    #[trigger] final(self).workflow->Some_0.steps@[i],
                ),
            crate::plan::opt_text(final(self).workflow->Some_0.reasoning) == crate::plan::opt_text(plan.reasoning),
            final(self).input_text == old(self).input_text,
            final(self).same_scratch(&*old(self)),
            final(self).last_tool_result == old(self).last_tool_result,
    {
        let reasoning = match &plan.reasoning {
            Some(r) => Some(r.clone()),
            None => None,
        };
        self.workflow = Some(
            WorkflowMemory {
                steps: labels_of(plan),
                reasoning,
                current_step_index: 0,
                history: Vec::new(),
            },
        );
    }

    /// Marks step `i` as the current one.
    pub fn set_current_step(&mut self, i: usize)
        ensures
            old(self).workflow is Some ==> final(self).workflow is Some
                && final(self).workflow->Some_0.current_step_index == i
                && final(self).workflow->Some_0.history@ == old(self).workflow->Some_0.history@
                && final(self).workflow->Some_0.steps == old(self).workflow->Some_0.steps
                && final(self).workflow->Some_0.reasoning == old(self).workflow->Some_0.reasoning,
            old(self).workflow is None ==> final(self).workflow is None,
            final(self).input_text == old(self).input_text,
            final(self).same_scratch(&*old(self)),
            final(self).last_tool_result == old(self).last_tool_result,
    {
        match &mut self.workflow {
            Some(w) => {
                w.current_step_index = i;
            },
            None => {},
        }
    }

    /// The memory step: the input text is stashed and memory marked touched.
    pub fn memory_step(&mut self) -> (r: StepStatus)
        ensures
            r is Continue,
            final(self).memory_input_text is Some,
            final(self).memory_input_text->Some_0@ == old(self).input_text@,
            final(self).memory_touched,
            final(self).input_text == old(self).input_text,
            final(self).profile_touched == old(self).profile_touched,
            final(self).relationships_touched == old(self).relationships_touched,
            final(self).persona_name == old(self).persona_name,
            final(self).style == old(self).style,
            final(self).session_id == old(self).session_id,
            final(self).workflow == old(self).workflow,
            final(self).last_tool_result == old(self).last_tool_result,
    {
        self.memory_input_text = Some(self.input_text.clone());
        self.memory_touched = true;
        StepStatus::Continue
    }

    /// The profile step: the profile is marked touched.
    pub fn profile_step(&mut self) -> (r: StepStatus)
        ensures
            r is Continue,
            final(self).profile_touched,
            final(self).memory_touched == old(self).memory_touched,
            final(self).relationships_touched == old(self).relationships_touched,
            final(self).input_text == old(self).input_text,
            final(self).memory_input_text == old(self).memory_input_text,
            final(self).persona_name == old(self).persona_name,
            final(self).style == old(self).style,
            final(self).session_id == old(self).session_id,
            final(self).workflow == old(self).workflow,
            final(self).last_tool_result == old(self).last_tool_result,
    {
        self.profile_touched = true;
        StepStatus::Continue
    }

    /// The relationship step: relationships are marked touched, and the plan
    /// stops here.
    pub fn relationship_step(&mut self) -> (r: StepStatus)
        ensures
            r is Stop,
            final(self).relationships_touched,
            final(self).memory_touched == old(self).memory_touched,
            final(self).profile_touched == old(self).profile_touched,
            final(self).input_text == old(self).input_text,
            final(self).memory_input_text == old(self).memory_input_text,
            final(self).persona_name == old(self).persona_name,
            final(self).style == old(self).style,
            final(self).session_id == old(self).session_id,
            final(self).workflow == old(self).workflow,
            final(self).last_tool_result == old(self).last_tool_result,
    {
        self.relationships_touched = true;
        StepStatus::Stop
    }

    /// Records a tool call about to be made, under the current step.
    pub fn record_call(&mut self, tool: String, args: Json, args_text: String)
        ensures
            old(self).workflow is Some ==> final(self).workflow is Some
                && final(self).workflow->Some_0.current_step_index == old(self).workflow->Some_0.current_step_index
                && final(self).workflow->Some_0.history@.drop_last() == old(self).workflow->Some_0.history@
                && final(self).workflow->Some_0.history@.len() == old(self).workflow->Some_0.history@.len() + 1
                && ({
                let e = final(self).workflow->Some_0.history@.last();
                &&& e.step_index == old(self).workflow->Some_0.current_step_index
                &&& e.tool == tool
                &&& e.args == args
                &&& e.args_text == args_text
                &&& e.result is None
                &&& e.result_text is None
            }) && final(self).workflow->Some_0.steps == old(self).workflow->Some_0.steps
                && final(self).workflow->Some_0.reasoning == old(self).workflow->Some_0.reasoning,
            old(self).workflow is None ==> final(self).workflow is None,
            final(self).input_text == old(self).input_text,
            final(self).last_tool_result == old(self).last_tool_result,
            final(self).same_scratch(&*old(self)),
    {
        match &mut self.workflow {
            Some(w) => {
                let ghost before = w.history@;
                let e = HistoryEntry {
                    step_index: w.current_step_index,
                    tool,
                    args,
                    args_text,
                    result: None,
                    result_text: None,
                };
                w.history.push(e);
                assert(w.history@.drop_last() =~= before);
            },
            None => {},
        }
    }

    /// Records what the last tool call returned: it becomes the last tool
    /// result, and the result of the last history entry.
    pub fn record_result(&mut self, result: Json, result_text: String)
        ensures
            final(self).last_tool_result == Some(result),
            old(self).workflow is Some ==> final(self).workflow is Some
                && final(self).workflow->Some_0.current_step_index == old(self).workflow->Some_0.current_step_index
                && final(self).workflow->Some_0.history.len() == old(self).workflow->Some_0.history.len()
                && final(self).workflow->Some_0.steps == old(self).workflow->Some_0.steps
                && final(self).workflow->Some_0.reasoning == old(self).workflow->Some_0.reasoning
                && (old(self).workflow->Some_0.history.len() > 0 ==> {
                    let n = old(self).workflow->Some_0.history.len() - 1;
                    let e = final(self).workflow->Some_0.history@[n];
                    let o = old(self).workflow->Some_0.history@[n];
                    &&& final(self).workflow->Some_0.history@.drop_last() == old(self).workflow->Some_0.history@.drop_last()
                    &&& e.step_index == o.step_index
                    &&& e.tool == o.tool
                    &&& e.args == o.args
                    &&& e.args_text == o.args_text
                    &&& e.result is Some
                    &&& same_json(result, e.result->Some_0)
                    &&& e.result_text is Some
                    &&& e.result_text->Some_0 == result_text
                }),
            old(self).workflow is None ==> final(self).workflow is None,
            final(self).input_text == old(self).input_text,
            final(self).same_scratch(&*old(self)),
    {
        let stored = result.deep_copy();
        self.last_tool_result = Some(result);
        match &mut self.workflow {
            Some(w) => {
                let n = w.history.len();
                if n > 0 {
                    let ghost before = w.history@;
                    let mut e = w.history.pop().unwrap();
                    e.result = Some(stored);
                    e.result_text = Some(result_text);
                    w.history.push(e);
                    assert(w.history@.drop_last() =~= before.drop_last());
                }
            },
            None => {},
        }
    }
}

/// `j` shows a touched flag: `{"touched": true}` where it is set, null
/// where it is not.
pub open spec fn touched_json(j: Json, b: bool) -> bool {
    if b {
        j is Object && field(j, "touched"@) == Some(Json::Bool(true))
    } else {
        j is Null
    }
}

fn touched_value(b: bool) -> (r: Json)
    ensures
        touched_json(r, b),
{
    if b {
        let mut es: Vec<(String, Json)> = Vec::new();
        set_key(&mut es, "touched".to_string(), Json::Bool(true));
        Json::Object(es)
    } else {
        Json::Null
    }
}

impl Context {
    /// The output that sums the context up: the persona's name, the memory
    /// (its touched flag and stashed input text), the profile and the
    /// relationships, for the context's session, in the persona's style.
    pub fn summary_output(&self) -> (r: OutputEvent)
        ensures
            r.target@ == "default"@,
            r.source@ == "system"@,
            r.session_id is Some <==> self.session_id is Some,
            self.session_id is Some ==> r.session_id->Some_0@ == self.session_id->Some_0@,
            r.style@ == self.style@,
            r.content is Object,
            field(r.content, "persona"@) is Some && field(r.content, "persona"@)->Some_0 is Str
                && field(r.content, "persona"@)->Some_0->Str_0@ == self.persona_name@,
            field(r.content, "memory"@) is Some && ({
                let m = field(r.content, "memory"@)->Some_0;
                &&& m is Object
                &&& field(m, "touched"@) == Some(Json::Bool(self.memory_touched))
                &&& match self.memory_input_text {
                    Some(t) => field(m, "input_text"@) is Some && field(m, "input_text"@)->Some_0 is Str
                        && field(m, "input_text"@)->Some_0->Str_0@ == t@,
                    None => field(m, "input_text"@) == Some(Json::Null),
                }
            }),
            field(r.content, "profile"@) is Some && touched_json(field(r.content, "profile"@)->Some_0, self.profile_touched),
            field(r.content, "relationships"@) is Some && touched_json(
                field(r.content, "relationships"@)->Some_0,
                self.relationships_touched,
            ),
    {
        proof {
            reveal_strlit("persona");
            reveal_strlit("memory");
            reveal_strlit("profile");
            reveal_strlit("relationships");
            reveal_strlit("touched");
            reveal_strlit("input_text");
            assert("persona"@[1] != "profile"@[1]);
            assert("persona"@ != "profile"@);
            assert("memory"@.len() != "persona"@.len());
            assert("memory"@.len() != "profile"@.len());
            assert("relationships"@.len() != "persona"@.len());
            assert("relationships"@.len() != "memory"@.len());
            assert("relationships"@.len() != "profile"@.len());
            assert("touched"@.len() != "input_text"@.len());
        }
        let mut mem: Vec<(String, Json)> = Vec::new();
        set_key(&mut mem, "touched".to_string(), Json::Bool(self.memory_touched));
        let text = match &self.memory_input_text {
            Some(t) => Json::Str(t.clone()),
            None => Json::Null,
        };
        set_key(&mut mem, "input_text".to_string(), text);
        let mut es: Vec<(String, Json)> = Vec::new();
        set_key(&mut es, "persona".to_string(), Json::Str(self.persona_name.clone()));
        set_key(&mut es, "memory".to_string(), Json::Object(mem));
        set_key(&mut es, "profile".to_string(), touched_value(self.profile_touched));
        set_key(&mut es, "relationships".to_string(), touched_value(self.relationships_touched));
        let session_id = match &self.session_id {
            Some(s) => Some(s.clone()),
            None => None,
        };
        OutputEvent {
            target: "default".to_string(),
            source: "system".to_string(),
            session_id,
            content: Json::Object(es),
            style: self.style.clone(),
        }
    }
}

/// What a step asks of the workflow after it ran.
#[derive(Debug, PartialEq)]
pub enum StepStatus {
    Continue,
    Stop,
    WaitUser(String),
}

/// The decimal digit for `d`.
pub open spec fn digit_char(d: int) -> char {
    ((48 + d) as u8) as char
}

/// The decimal text of `n`.
pub open spec fn dec_text(n: nat) -> Seq<char>
    decreases n,
{
    if n < 10 {
        seq![digit_char(n as int)]
    } else {
        dec_text(n / 10).push(digit_char((n % 10) as int))
    }
}

/// Appends the decimal text of `n`.
pub fn push_decimal(out: &mut Vec<char>, n: usize)
    ensures
        final(out)@ == old(out)@ + dec_text(n as nat),
    decreases n,
{
    if n >= 10 {
        push_decimal(out, n / 10);
    }
    let d = (n % 10) as u8;
    out.push((48u8 + d) as char);
    proof {
        if n < 10 {
            assert(old(out)@.push(digit_char(n as int)) =~= old(out)@ + dec_text(n as nat));
        } else {
            assert(final(out)@ =~= old(out)@ + dec_text(n as nat));
        }
    }
}

/// `[a, b, …]`: how a list of step indices is shown.
pub open spec fn items_text(ds: Seq<usize>) -> Seq<char>
    decreases ds.len(),
{
    if ds.len() == 0 {
        Seq::empty()
    } else if ds.len() == 1 {
        dec_text(ds[0] as nat)
    } else {
        items_text(ds.drop_last()) + ", "@ + dec_text(ds.last() as nat)
    }
}

/// The last history entry of step `i`, if it ran.
pub open spec fn history_at(h: Seq<HistoryEntry>, i: int) -> Option<HistoryEntry>
    decreases h.len(),
{
    if h.len() == 0 {
        None
    } else if h.last().step_index == i {
        Some(h.last())
    } else {
        history_at(h.drop_last(), i)
    }
}

/// The results of the steps in `ds` that have one, each on its own line.
pub open spec fn dep_results(ds: Seq<usize>, h: Seq<HistoryEntry>) -> Seq<char>
    decreases ds.len(),
{
    if ds.len() == 0 {
        Seq::empty()
    } else {
        dep_results(ds.drop_last(), h) + match history_at(h, ds.last() as int) {
            Some(e) => match e.result_text {
                Some(r) => "\n    - Step "@ + dec_text((ds.last() + 1) as nat) + " Result: "@ + r@,
                None => Seq::empty(),
            },
            None => Seq::empty(),
        }
    }
}

/// How step `i` of the plan stands, seen from the current step `cur`.
pub open spec fn status_text(l: StepLabel, h: Seq<HistoryEntry>, cur: int, i: int) -> Seq<char> {
    if i < cur {
        match history_at(h, i) {
            Some(e) => "(Completed) - Executed with args: "@ + e.args_text@ + match e.result_text {
                Some(r) => " -> Result: "@ + r@,
                None => Seq::empty(),
            },
            None => "(Completed)"@,
        }
    } else if i == cur {
        "(CURRENT - FOCUS HERE)"@ + if l.tool is Some && l.dependencies@.len() > 0 {
            " [Depends on Steps: ["@ + items_text(l.dependencies@) + "]]"@ + dep_results(
                l.dependencies@,
                h,
            )
        } else {
            Seq::empty()
        }
    } else {
        "(Pending)"@
    }
}

/// The name that a step shows: its tool, or `System Step` for a built-in.
pub open spec fn step_name(l: StepLabel) -> Seq<char> {
    match l.tool {
        Some(t) => t@,
        None => "System Step"@,
    }
}

/// The lines of the first `n` steps.
pub open spec fn step_lines(ls: Seq<StepLabel>, h: Seq<HistoryEntry>, cur: int, n: int) -> Seq<char>
    decreases n,
{
    if n <= 0 {
        Seq::empty()
    } else {
        step_lines(ls, h, cur, n - 1) + dec_text(n as nat) + ". "@ + step_name(ls[n - 1]) + " "@
            + status_text(ls[n - 1], h, cur, n - 1) + "\n"@
    }
}

/// The planner's reasoning as the block shows it: only where it is not blank.
pub open spec fn reasoning_text(reasoning: Option<String>) -> Seq<char> {
    match reasoning {
        Some(r) => if trimmed(r@).len() > 0 {
            "Planner Reasoning (Use this to understand intent):\n"@ + r@ + "\n\n"@
        } else {
            Seq::empty()
        },
        None => Seq::empty(),
    }
}

/// The workflow context block of a running workflow.
pub open spec fn context_block(w: WorkflowMemory) -> Seq<char> {
    "\nWorkflow Context (You are resolving parameters for the CURRENT step):\n"@ + reasoning_text(
        w.reasoning,
    ) + step_lines(w.steps@, w.history@, w.current_step_index as int, w.steps.len() as int)
}

fn history_lookup(h: &Vec<HistoryEntry>, i: usize) -> (r: Option<usize>)
    ensures
        match r {
            Some(k) => k < h.len() && history_at(h@, i as int) == Some(h@[k as int]),
            None => history_at(h@, i as int) is None,
        },
{
    let mut n: usize = h.len();
    assert(h@.subrange(0, n as int) =~= h@);
    while n > 0
        invariant
            n <= h.len(),
            history_at(h@, i as int) == history_at(h@.subrange(0, n as int), i as int),
        decreases n,
    {
        let ghost sub = h@.subrange(0, n as int);
        assert(sub.last() == h@[n - 1]);
        assert(sub.drop_last() =~= h@.subrange(0, n - 1));
        if h[n - 1].step_index == i {
            return Some(n - 1);
        }
        n = n - 1;
    }
    None
}

fn push_items(out: &mut Vec<char>, ds: &Vec<usize>)
    ensures
        final(out)@ == old(out)@ + items_text(ds@),
{
    let mut i: usize = 0;
    while i < ds.len()
        invariant
            i <= ds.len(),
            out@ == old(out)@ + items_text(ds@.subrange(0, i as int)),
        decreases ds.len() - i,
    {
        let ghost before = out@;
        if i > 0 {
            push_str(out, ", ");
        }
        push_decimal(out, ds[i]);
        proof {
            let post = ds@.subrange(0, i + 1);
            assert(post.drop_last() =~= ds@.subrange(0, i as int));
            assert(post.last() == ds@[i as int]);
            if i == 0 {
                assert(post.len() == 1);
                assert(items_text(ds@.subrange(0, 0)) =~= Seq::<char>::empty());
                assert(out@ =~= old(out)@ + items_text(post));
            } else {
                assert(out@ =~= old(out)@ + items_text(post));
            }
        }
        i = i + 1;
    }
    assert(ds@.subrange(0, ds.len() as int) =~= ds@);
}

fn push_dep_results(out: &mut Vec<char>, ds: &Vec<usize>, h: &Vec<HistoryEntry>)
    requires
        forall|k: int| 0 <= k < ds.len() ==> ds@[k] < usize::MAX,
    ensures
        final(out)@ == old(out)@ + dep_results(ds@, h@),
{
    let mut i: usize = 0;
    while i < ds.len()
        invariant
            i <= ds.len(),
            forall|k: int| 0 <= k < ds.len() ==> ds@[k] < usize::MAX,
            out@ == old(out)@ + dep_results(ds@.subrange(0, i as int), h@),
        decreases ds.len() - i,
    {
        let d = ds[i];
        let ghost before = out@;
        match history_lookup(h, d) {
            Some(k) => match &h[k].result_text {
                Some(r) => {
                    push_str(out, "\n    - Step ");
                    push_decimal(out, d + 1);
                    push_str(out, " Result: ");
                    push_str(out, r.as_str());
                },
                None => {},
            },
            None => {},
        }
        proof {
            let post = ds@.subrange(0, i + 1);
            assert(post.drop_last() =~= ds@.subrange(0, i as int));
            assert(post.last() == d);
            assert(out@ =~= old(out)@ + dep_results(post, h@));
        }
        i = i + 1;
    }
    assert(ds@.subrange(0, ds.len() as int) =~= ds@);
}

fn push_status(out: &mut Vec<char>, l: &StepLabel, h: &Vec<HistoryEntry>, cur: usize, i: usize)
    requires
        forall|k: int| 0 <= k < l.dependencies.len() ==> #[trigger] l.dependencies@[k] < usize::MAX,
    ensures
        final(out)@ == old(out)@ + status_text(*l, h@, cur as int, i as int),
{
    if i < cur {
        match history_lookup(h, i) {
            Some(k) => {
                let e = &h[k];
                push_str(out, "(Completed) - Executed with args: ");
                push_str(out, e.args_text.as_str());
                match &e.result_text {
                    Some(r) => {
                        push_str(out, " -> Result: ");
                        push_str(out, r.as_str());
                    },
                    None => {},
                }
            },
            None => push_str(out, "(Completed)"),
        }
    } else if i == cur {
        push_str(out, "(CURRENT - FOCUS HERE)");
        if l.tool.is_some() && l.dependencies.len() > 0 {
            push_str(out, " [Depends on Steps: [");
            push_items(out, &l.dependencies);
            push_str(out, "]]");
            push_dep_results(out, &l.dependencies, h);
        }
    } else {
        push_str(out, "(Pending)");
    }
    assert(out@ =~= old(out)@ + status_text(*l, h@, cur as int, i as int));
}

fn push_step_line(out: &mut Vec<char>, l: &StepLabel, h: &Vec<HistoryEntry>, cur: usize, i: usize)
    requires
        i < usize::MAX,
        forall|k: int| 0 <= k < l.dependencies.len() ==> #[trigger] l.dependencies@[k] < usize::MAX,
    ensures
        final(out)@ == old(out)@ + dec_text((i + 1) as nat) + ". "@ + step_name(*l) + " "@ + status_text(
            *l,
            h@,
            cur as int,
            i as int,
        ) + "\n"@,
{
    push_decimal(out, i + 1);
    push_str(out, ". ");
    match &l.tool {
        Some(t) => push_str(out, t.as_str()),
        None => push_str(out, "System Step"),
    }
    push_str(out, " ");
    push_status(out, l, h, cur, i);
    push_str(out, "\n");
    assert(out@ =~= old(out)@ + dec_text((i + 1) as nat) + ". "@ + step_name(*l) + " "@ + status_text(
        *l,
        h@,
        cur as int,
        i as int,
    ) + "\n"@);
}

/// The workflow context block that the parameter extractor is given: the
/// planner's reasoning, then one line per step of the plan with how it
/// stands — completed (with its arguments and result), current (with the
/// results of the steps it depends on), or pending. Empty where no
/// workflow is running.
pub fn workflow_context(ctx: &Context) -> (r: String)
    requires
        ctx.workflow is Some ==> ctx.workflow->Some_0.steps.len() < usize::MAX && forall|i: int, k: int|
            0 <= i < ctx.workflow->Some_0.steps.len() && 0 <= k
                < ctx.workflow->Some_0.steps@[i].dependencies.len() ==> #[trigger] ctx.workflow->Some_0.steps@[i].dependencies@[k]
                < usize::MAX,
    ensures
        match ctx.workflow {
            Some(w) => r@ == context_block(w),
            None => r@.len() == 0,
        },
{
    match &ctx.workflow {
        None => String::new(),
        Some(w) => {
            let mut out: Vec<char> = Vec::new();
            push_str(&mut out, "\nWorkflow Context (You are resolving parameters for the CURRENT step):\n");
            match &w.reasoning {
                Some(r) => {
                    let t = trim_chars(&chars_of(r.as_str()));
                    if t.len() > 0 {
                        push_str(&mut out, "Planner Reasoning (Use this to understand intent):\n");
                        push_str(&mut out, r.as_str());
                        push_str(&mut out, "\n\n");
                    }
                },
                None => {},
            }
            let ghost head = out@;
            let cur = w.current_step_index;
            let mut i: usize = 0;
            while i < w.steps.len()
                invariant
                    i <= w.steps.len(),
                    w.steps.len() < usize::MAX,
                    ctx.workflow == Some(*w),
                    forall|a: int, k: int|
                        0 <= a < w.steps.len() && 0 <= k < w.steps@[a].dependencies.len()
                            ==> #[trigger] w.steps@[a].dependencies@[k] < usize::MAX,
                    out@ == head + step_lines(w.steps@, w.history@, cur as int, i as int),
                decreases w.steps.len() - i,
            {
                push_step_line(&mut out, &w.steps[i], &w.history, cur, i);
                proof {
                    assert(out@ =~= head + step_lines(w.steps@, w.history@, cur as int, i + 1));
                }
                i = i + 1;
            }
            string_of(out.as_slice())
        },
    }
}

/// The text that the parameter extractor works from: the planner's string
/// argument, or the user's text where the planner gave null; `None` for any
/// other value, whose JSON text is used instead.
pub fn resolver_input_text(input: &Json, ctx: &Context) -> (r: Option<String>)
    ensures
        match *input {
            Json::Str(s) => r is Some && r->Some_0@ == s@,
            Json::Null => r is Some && r->Some_0@ == ctx.input_text@,
            _ => r is None,
        },
{
    match input {
        Json::Str(s) => Some(s.clone()),
        Json::Null => Some(ctx.input_text.clone()),
        _ => None,
    }
}

/// The extractor's user prompt: the input, the previous tool result where
/// there is one, and the workflow context block.
pub open spec fn resolver_prompt_of(input: Seq<char>, previous: Option<Seq<char>>, block: Seq<char>) -> Seq<char> {
    match previous {
        Some(p) => "Input: "@ + input + "\n"@ + "Previous result: "@ + p + "\n"@ + block + "\nReturn JSON:"@,
        None => "Input: "@ + input + "\n"@ + block + "\nReturn JSON:"@,
    }
}

/// The extractor's user prompt; `previous` is the JSON text of the last
/// tool result, if any.
pub fn resolver_user_prompt(input: &str, previous: &Option<String>, block: &str) -> (r: String)
    ensures
        r@ == resolver_prompt_of(input@, crate::plan::opt_text(*previous), block@),
{
    let mut out: Vec<char> = Vec::new();
    push_str(&mut out, "Input: ");
    push_str(&mut out, input);
    push_str(&mut out, "\n");
    match previous {
        Some(p) => {
            push_str(&mut out, "Previous result: ");
            push_str(&mut out, p.as_str());
            push_str(&mut out, "\n");
        },
        None => {},
    }
    push_str(&mut out, block);
    push_str(&mut out, "\nReturn JSON:");
    proof {
        if previous.is_some() {
            assert(out@ =~= resolver_prompt_of(input@, Some(previous->Some_0@), block@));
        } else {
            assert(out@ =~= resolver_prompt_of(input@, None, block@));
        }
    }
    string_of(out.as_slice())
}

/// The auditor's user prompt: the user's input, the workflow context and the
/// extractor's arguments as JSON text.
pub fn auditor_user_prompt(user_input: &str, context: &str, generated_args: &str) -> (r: String)
    ensures
        r@ == "User Input: "@ + user_input@ + "\nContext: "@ + context@ + "\nGenerated Args: "@ + generated_args@
            + "\n\nPlease evaluate and fix the arguments. Return JSON:"@,
{
    let mut out: Vec<char> = Vec::new();
    push_str(&mut out, "User Input: ");
    push_str(&mut out, user_input);
    push_str(&mut out, "\nContext: ");
    push_str(&mut out, context);
    push_str(&mut out, "\nGenerated Args: ");
    push_str(&mut out, generated_args);
    push_str(&mut out, "\n\nPlease evaluate and fix the arguments. Return JSON:");
    string_of(out.as_slice())
}

} // verus!

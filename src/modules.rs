//! The basic capability implementations: perception without analysis, an
//! intent gate that always responds, a fixed built-in plan, a resolver that
//! trusts the planner, and the built-in steps.

use vstd::prelude::*;
use crate::context::{Context, StepStatus, touched_json};
use crate::llm::field;
use crate::json::{Json, same_json};
use crate::plan::{IntentDecision, StepSpec, WorkflowPlan};
use crate::mcp::inject_session_id;
use crate::session::{InputEvent, OutputEvent};

verus! {

/// What perception makes of an input.
pub struct PerceptionData {
    pub sentiment: String,
    pub urgency: String,
    pub context_summary: String,
}

/// Perception that does no analysis.
pub struct BasicPerceptionModule;

impl BasicPerceptionModule {
    /// A neutral, normal-urgency reading of any input.
    pub fn perceive(&self, _input: &InputEvent) -> (r: PerceptionData)
        ensures
            r.sentiment@ == "neutral"@,
            r.urgency@ == "normal"@,
            r.context_summary@ == "No deep analysis"@,
    {
        PerceptionData {
            sentiment: "neutral".to_string(),
            urgency: "normal".to_string(),
            context_summary: "No deep analysis".to_string(),
        }
    }
}

/// An intent gate that always responds.
pub struct BasicIntentModule;

impl BasicIntentModule {
    pub fn evaluate(&self, _perception: &PerceptionData, _input_text: &str) -> (r: IntentDecision)
        ensures
            r is Act,
    {
        IntentDecision::Act
    }
}

/// A planner that always runs the built-in steps.
pub struct BasicDecisionEngine;

impl BasicDecisionEngine {
    /// The plan memory, profile, relationship, with no reasoning.
    pub fn decide(&self, _input: &InputEvent) -> (r: WorkflowPlan)
        ensures
            r.steps.len() == 3,
            r.steps@[0] is Memory,
            r.steps@[1] is Profile,
            r.steps@[2] is Relationship,
            r.reasoning is None,
    {
        WorkflowPlan { steps: vec![StepSpec::Memory, StepSpec::Profile, StepSpec::Relationship], reasoning: None }
    }
}

/// A resolver that hands the planner's arguments on unchanged.
pub struct NoopResolver;

impl NoopResolver {
    pub fn resolve(&self, _tool: &str, input: &Json, _ctx: &Context) -> (r: Json)
        ensures
            same_json(*input, r),
    {
        input.deep_copy()
    }
}

/// An input source that never yields an event.
pub struct NullInput;

impl NullInput {
    pub fn poll(&self) -> (r: Option<InputEvent>)
        ensures
            r is None,
    {
        None
    }
}

/// What an output handler says of itself.
pub struct OutputMetadata {
    pub name: String,
    pub format: String,
    pub description: String,
}

/// The step that stashes the input text in memory.
pub struct MemoryStep;

impl MemoryStep {
    /// Stashes the input text and marks memory touched; no output, and the
    /// plan goes on. Nothing else in the context changes.
    pub fn run(&self, ctx: &mut Context) -> (r: StepResult)
        ensures
            r.status is Continue,
            r.output is None,
            final(ctx).memory_touched,
            final(ctx).memory_input_text is Some,
            final(ctx).memory_input_text->Some_0@ == old(ctx).input_text@,
            final(ctx).input_text == old(ctx).input_text,
            final(ctx).profile_touched == old(ctx).profile_touched,
            final(ctx).relationships_touched == old(ctx).relationships_touched,
            final(ctx).persona_name == old(ctx).persona_name,
            final(ctx).style == old(ctx).style,
            final(ctx).session_id == old(ctx).session_id,
            final(ctx).workflow == old(ctx).workflow,
            final(ctx).last_tool_result == old(ctx).last_tool_result,
    {
        let status = ctx.memory_step();
        StepResult { status, output: None }
    }
}

/// The step that marks the profile touched.
pub struct ProfileStep;

impl ProfileStep {
    /// Marks the profile touched; no output, and the plan goes on. Nothing
    /// else in the context changes.
    pub fn run(&self, ctx: &mut Context) -> (r: StepResult)
        ensures
            r.status is Continue,
            r.output is None,
            final(ctx).profile_touched,
            final(ctx).memory_touched == old(ctx).memory_touched,
            final(ctx).memory_input_text == old(ctx).memory_input_text,
            final(ctx).relationships_touched == old(ctx).relationships_touched,
            final(ctx).input_text == old(ctx).input_text,
            final(ctx).persona_name == old(ctx).persona_name,
            final(ctx).style == old(ctx).style,
            final(ctx).session_id == old(ctx).session_id,
            final(ctx).workflow == old(ctx).workflow,
            final(ctx).last_tool_result == old(ctx).last_tool_result,
    {
        let status = ctx.profile_step();
        StepResult { status, output: None }
    }
}

/// The step that marks relationships touched, sums the context up and ends
/// the plan.
pub struct RelationshipStep;

impl RelationshipStep {
    /// Marks relationships touched, and outputs the summary of the context
    /// so marked (`Context::summary_output`); the plan stops here.
    pub fn run(&self, ctx: &mut Context) -> (r: StepResult)
        ensures
            r.status is Stop,
            final(ctx).relationships_touched,
            final(ctx).memory_touched == old(ctx).memory_touched,
            final(ctx).memory_input_text == old(ctx).memory_input_text,
            final(ctx).profile_touched == old(ctx).profile_touched,
            final(ctx).input_text == old(ctx).input_text,
            final(ctx).persona_name == old(ctx).persona_name,
            final(ctx).style == old(ctx).style,
            final(ctx).session_id == old(ctx).session_id,
            final(ctx).workflow == old(ctx).workflow,
            final(ctx).last_tool_result == old(ctx).last_tool_result,
            r.output is Some,
            ({
                let o = r.output->Some_0;
                &&& o.target@ == "default"@
                &&& o.source@ == "system"@
                &&& (o.session_id is Some <==> old(ctx).session_id is Some)
                &&& old(ctx).session_id is Some ==> o.session_id->Some_0@ == old(ctx).session_id->Some_0@
                &&& o.style@ == old(ctx).style@
                &&& o.content is Object
                &&& field(o.content, "persona"@) is Some && field(o.content, "persona"@)->Some_0 is Str
                    && field(o.content, "persona"@)->Some_0->Str_0@ == old(ctx).persona_name@
                &&& field(o.content, "memory"@) is Some && ({
                    let m = field(o.content, "memory"@)->Some_0;
                    &&& m is Object
                    &&& field(m, "touched"@) == Some(Json::Bool(old(ctx).memory_touched))
                    &&& match old(ctx).memory_input_text {
                        Some(t) => field(m, "input_text"@) is Some && field(m, "input_text"@)->Some_0 is Str
                            && field(m, "input_text"@)->Some_0->Str_0@ == t@,
                        None => field(m, "input_text"@) == Some(Json::Null),
                    }
                })
                &&& field(o.content, "profile"@) is Some && touched_json(
                    field(o.content, "profile"@)->Some_0,
                    old(ctx).profile_touched,
                )
                &&& field(o.content, "relationships"@) is Some && touched_json(
                    field(o.content, "relationships"@)->Some_0,
                    true,
                )
            }),
    {
        let status = ctx.relationship_step();
        let output = ctx.summary_output();
        StepResult { status, output: Some(output) }
    }
}

/// A step's status, and the output to dispatch before the status is honored.
pub struct StepResult {
    pub status: StepStatus,
    pub output: Option<OutputEvent>,
}

/// A call of a named MCP tool with the planner's arguments.
pub struct McpToolStep {
    pub name: String,
    pub args: Json,
}

impl McpToolStep {
    /// The arguments to send, once resolved: the session's id is added
    /// where the arguments are an object without one.
    pub fn prepare(&self, ctx: &Context, resolved: Json) -> (r: Json)
        ensures
            match (resolved, ctx.session_id) {
                (Json::Object(es), Some(sid)) => r is Object && if crate::json::lookup(es@, "session_id"@) is Some {
                    r->Object_0@ == es@
                } else {
                    r->Object_0@.drop_last() == es@ && r->Object_0@.last().0@ == "session_id"@
                        && r->Object_0@.last().1 is Str && r->Object_0@.last().1->Str_0@ == sid@
                },
                _ => r == resolved,
            },
    {
        inject_session_id(resolved, &ctx.session_id)
    }

    /// Records the call in the workflow's history before it is made.
    pub fn record(&self, ctx: &mut Context, args: Json, args_text: String)
        ensures
            old(ctx).workflow is Some ==> final(ctx).workflow is Some
                && final(ctx).workflow->Some_0.history.len() == old(ctx).workflow->Some_0.history.len() + 1
                && final(ctx).workflow->Some_0.history@.last().tool@ == self.name@
                && final(ctx).workflow->Some_0.history@.last().args == args
                && final(ctx).workflow->Some_0.history@.last().step_index
                == old(ctx).workflow->Some_0.current_step_index
                && final(ctx).workflow->Some_0.history@.last().result is None
                && final(ctx).workflow->Some_0.history@.drop_last() == old(ctx).workflow->Some_0.history@
                && final(ctx).workflow->Some_0.steps == old(ctx).workflow->Some_0.steps
                && final(ctx).workflow->Some_0.reasoning == old(ctx).workflow->Some_0.reasoning,
            old(ctx).workflow is None ==> final(ctx).workflow is None,
            final(ctx).input_text == old(ctx).input_text,
            final(ctx).last_tool_result == old(ctx).last_tool_result,
            final(ctx).same_scratch(&*old(ctx)),
    {
        ctx.record_call(self.name.clone(), args, args_text);
    }

    /// Takes the tool's result: it is remembered as the last result and in
    /// the history, and becomes the step's output; the plan goes on.
    pub fn complete(&self, ctx: &mut Context, result: Json, result_text: String) -> (r: StepResult)
        ensures
            r.status is Continue,
            r.output is Some,
            r.output->Some_0.target@ == "default"@,
            r.output->Some_0.source@ == "system"@,
            r.output->Some_0.session_id is Some <==> old(ctx).session_id is Some,
            old(ctx).session_id is Some ==> r.output->Some_0.session_id->Some_0@ == old(ctx).session_id->Some_0@,
            r.output->Some_0.style@ == old(ctx).style@,
            same_json(result, r.output->Some_0.content),
            final(ctx).last_tool_result == Some(result),
            final(ctx).input_text == old(ctx).input_text,
            final(ctx).same_scratch(&*old(ctx)),
            old(ctx).workflow is None ==> final(ctx).workflow is None,
            old(ctx).workflow is Some ==> final(ctx).workflow is Some
                && final(ctx).workflow->Some_0.current_step_index == old(ctx).workflow->Some_0.current_step_index
                && final(ctx).workflow->Some_0.steps == old(ctx).workflow->Some_0.steps
                && final(ctx).workflow->Some_0.reasoning == old(ctx).workflow->Some_0.reasoning
                && final(ctx).workflow->Some_0.history.len() == old(ctx).workflow->Some_0.history.len()
                && (old(ctx).workflow->Some_0.history.len() > 0 ==> {
                    let n = old(ctx).workflow->Some_0.history.len() - 1;
                    let e = final(ctx).workflow->Some_0.history@[n];
                    let o = old(ctx).workflow->Some_0.history@[n];
                    &&& final(ctx).workflow->Some_0.history@.drop_last() == old(ctx).workflow->Some_0.history@.drop_last()
                    &&& e.step_index == o.step_index
                    &&& e.tool == o.tool
                    &&& e.args == o.args
                    &&& e.result is Some
                    &&& same_json(result, e.result->Some_0)
                    &&& e.result_text == Some(result_text)
                }),
    {
        let content = result.deep_copy();
        let session_id = match &ctx.session_id {
            Some(s) => Some(s.clone()),
            None => None,
        };
        let style = ctx.style.clone();
        ctx.record_result(result, result_text);
        StepResult {
            status: StepStatus::Continue,
            output: Some(
                OutputEvent {
                    target: "default".to_string(),
                    source: "system".to_string(),
                    session_id,
                    content,
                    style,
                },
            ),
        }
    }
}

/// A step ready to run.
pub enum Step {
    Memory(MemoryStep),
    Profile(ProfileStep),
    Relationship(RelationshipStep),
    Tool(McpToolStep),
}

/// The step that a plan's step spec stands for.
pub fn build_step(spec: StepSpec) -> (r: Step)
    ensures
        spec is Memory <==> r is Memory,
        spec is Profile <==> r is Profile,
        spec is Relationship <==> r is Relationship,
        spec is Tool ==> r is Tool && r->Tool_0.name == spec->Tool_name && r->Tool_0.args == spec->Tool_args,
{
    match spec {
        StepSpec::Memory => Step::Memory(MemoryStep),
        StepSpec::Profile => Step::Profile(ProfileStep),
        StepSpec::Relationship => Step::Relationship(RelationshipStep),
        StepSpec::Tool { name, args, .. } => Step::Tool(McpToolStep { name, args }),
    }
}

} // verus!

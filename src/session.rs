//! The session actor's decisions and the session manager's dispatch.
//!
//! The actor's loop itself (receiving, awaiting the model and the tools,
//! emitting outputs) runs outside; each decision it takes between those
//! awaits is a function here, from state and event to next state and action.

use vstd::prelude::*;
use crate::consumed::{ActiveElicitations, ConsumedEvents, is_elicitation_active};
use crate::context::{Context, StepStatus};
use crate::json::Json;
use crate::plan::{SourceMetadata, StepSpec, input_text, input_text_of};
use crate::tasks::TaskManager;
use crate::text::{push_str, string_of};

verus! {

/// One user message.
pub struct InputEvent {
    pub id: u128,
    pub source: String,
    pub session_id: Option<String>,
    pub source_meta: Option<SourceMetadata>,
    pub payload: Json,
}

/// One outbound notification.
pub struct OutputEvent {
    pub target: String,
    pub source: String,
    pub session_id: Option<String>,
    pub content: Json,
    pub style: String,
}

/// The session an event belongs to: its session id, else its source.
pub open spec fn session_of(session_id: Option<String>, source: String) -> Seq<char> {
    match session_id {
        Some(s) => s@,
        None => source@,
    }
}

/// The session an event belongs to.
pub fn session_id_of(event: &InputEvent) -> (r: String)
    ensures
        r@ == session_of(event.session_id, event.source),
{
    match &event.session_id {
        Some(s) => s.clone(),
        None => event.source.clone(),
    }
}

/// Whether an event answers an elicitation of session `sid`: it belongs
/// to that session.
pub fn is_for_session(event: &InputEvent, sid: &str) -> (r: bool)
    ensures
        r == (session_of(event.session_id, event.source) == sid@),
{
    let own = session_id_of(event);
    own == sid.to_string()
}

/// The text of an answer to an elicitation, where the payload holds it as
/// the string `content`; otherwise the caller answers with the payload's
/// JSON text.
pub fn answer_text(payload: &Json) -> (r: Option<String>)
    ensures
        match r {
            Some(s) => crate::plan::string_field(*payload, "content"@) == Some(s@),
            None => crate::plan::string_field(*payload, "content"@) is None,
        },
{
    crate::plan::get_string_field(payload, &"content".to_string())
}

/// A workflow suspended until the user answers: the plan's steps, the step
/// to resume at, and the context.
pub struct PendingExecution {
    pub steps: Vec<StepSpec>,
    pub index: usize,
    pub ctx: Context,
}

/// What a session actor keeps between events.
pub struct SessionState {
    pub id: String,
    pub pending: Option<PendingExecution>,
}

impl SessionState {
    pub fn new(id: String) -> (r: Self)
        ensures
            r.id == id,
            r.pending is None,
    {
        SessionState { id, pending: None }
    }
}

/// What the actor does with an input event.
pub enum InputAction {
    /// The event was consumed by an elicitation, or the session's
    /// elicitation owns this turn: nothing more is done.
    Drop,
    /// A suspended workflow resumes with this event's text as its input.
    Resume(PendingExecution),
    /// The event goes through perception, intent and planning.
    Plan,
}

/// The first decision on an input event. A consumed event is dropped (and
/// its mark removed); so is an event of a session whose elicitation is
/// active. Otherwise a suspended workflow is taken, exactly once, and
/// resumed with the event's text; with none, the event is planned.
pub fn begin_input(
    state: &mut SessionState,
    consumed: &mut ConsumedEvents,
    active: &ActiveElicitations,
    event: &InputEvent,
) -> (r: InputAction)
    requires
        old(consumed).wf(),
    ensures
        final(consumed).wf(),
        final(consumed)@ == old(consumed)@.remove(event.id),
        final(state).id == old(state).id,
        old(consumed)@.contains(event.id) ==> r is Drop && final(state).pending == old(state).pending,
        !old(consumed)@.contains(event.id) && active@.contains(session_of(event.session_id, event.source))
            ==> r is Drop && final(state).pending == old(state).pending,
        !old(consumed)@.contains(event.id) && !active@.contains(session_of(event.session_id, event.source))
            ==> match old(state).pending {
            Some(p) => final(state).pending is None && r is Resume && ({
                let q = r->Resume_0;
                &&& q.steps == p.steps
                &&& q.index == p.index
                &&& q.ctx.input_text@ == input_text_of(event.payload)
                &&& q.ctx.workflow == p.ctx.workflow
                &&& q.ctx.last_tool_result == p.ctx.last_tool_result
                &&& q.ctx.same_scratch(&p.ctx)
            }),
            None => r is Plan && final(state).pending is None,
        },
{
    if consumed.check_and_remove(event.id) {
        return InputAction::Drop;
    }
    let sid = session_id_of(event);
    if is_elicitation_active(active, sid.as_str()) {
        return InputAction::Drop;
    }
    let text = input_text(&event.payload);
    match state.pending.take() {
        Some(p) => {
            let mut p = p;
            p.ctx.input_text = text;
            InputAction::Resume(p)
        },
        None => InputAction::Plan,
    }
}

/// A workflow being run: its steps, the next step's index, and the context.
pub struct WorkflowRun {
    pub steps: Vec<StepSpec>,
    pub index: usize,
    pub ctx: Context,
}

/// What the runner does next.
pub enum NextStep {
    /// Every step has run.
    Done,
    /// The step is spawned off the actor; the runner does not wait for it.
    Background,
    /// The step runs now, and its status decides what follows.
    Foreground,
}

/// Whether a step is run in the background.
pub open spec fn is_background_step(s: StepSpec) -> bool {
    match s {
        StepSpec::Tool { is_background, .. } => is_background,
        _ => false,
    }
}

/// Picks the next step of a run and marks it current in the context.
pub fn next_step(run: &mut WorkflowRun) -> (r: NextStep)
    ensures
        final(run).steps == old(run).steps,
        final(run).index == old(run).index,
        final(run).ctx.input_text == old(run).ctx.input_text,
        old(run).index >= old(run).steps.len() ==> r is Done,
        old(run).index < old(run).steps.len() ==> (r is Background <==> is_background_step(
            old(run).steps@[old(run).index as int],
        )) && !(r is Done),
        old(run).index < old(run).steps.len() && old(run).ctx.workflow is Some
            ==> final(run).ctx.workflow is Some
            && final(run).ctx.workflow->Some_0.current_step_index == old(run).index,
{
    if run.index >= run.steps.len() {
        return NextStep::Done;
    }
    let i = run.index;
    run.ctx.set_current_step(i);
    match &run.steps[i] {
        StepSpec::Tool { is_background, .. } => {
            if *is_background {
                NextStep::Background
            } else {
                NextStep::Foreground
            }
        },
        _ => NextStep::Foreground,
    }
}

/// Moves past a step that was spawned in the background, without waiting.
pub fn after_background(run: &mut WorkflowRun)
    requires
        old(run).index < old(run).steps.len(),
    ensures
        final(run).index == old(run).index + 1,
        final(run).steps == old(run).steps,
        final(run).ctx == old(run).ctx,
{
    run.index = run.index + 1;
}

/// What follows a foreground step.
pub enum AfterStep {
    /// The run goes on with the next step.
    Next(WorkflowRun),
    /// The plan ends here.
    Stopped,
    /// The run is suspended; the prompt is shown to the user.
    Suspended(String),
}

/// Honors a foreground step's status: go on, stop, or suspend the run at
/// this step until the user's next message.
pub fn after_step(run: WorkflowRun, status: StepStatus, state: &mut SessionState) -> (r: AfterStep)
    requires
        run.index < run.steps.len(),
    ensures
        final(state).id == old(state).id,
        status is Continue ==> r is Next && r->Next_0.index == run.index + 1 && r->Next_0.steps == run.steps
            && r->Next_0.ctx == run.ctx && final(state).pending == old(state).pending,
        status is Stop ==> r is Stopped && final(state).pending == old(state).pending,
        status is WaitUser ==> r is Suspended && r->Suspended_0 == status->WaitUser_0 && final(state).pending
            == Some(PendingExecution { steps: run.steps, index: run.index, ctx: run.ctx }),
{
    match status {
        StepStatus::Continue => {
            let WorkflowRun { steps, index, ctx } = run;
            AfterStep::Next(WorkflowRun { steps, index: index + 1, ctx })
        },
        StepStatus::Stop => AfterStep::Stopped,
        StepStatus::WaitUser(prompt) => {
            let WorkflowRun { steps, index, ctx } = run;
            state.pending = Some(PendingExecution { steps, index, ctx });
            AfterStep::Suspended(prompt)
        },
    }
}

/// The prompt a background task is remembered by: the user's text, with
/// the step's arguments appended unless they are trivial (null, an empty
/// object or an empty array).
pub open spec fn original_prompt_of(input_text: Seq<char>, args: Json, args_text: Seq<char>) -> Seq<char> {
    let trivial = match args {
        Json::Null => true,
        Json::Object(es) => es.len() == 0,
        Json::Array(xs) => xs.len() == 0,
        _ => false,
    };
    if trivial {
        input_text
    } else {
        input_text + " | args="@ + args_text
    }
}

/// The prompt a background task is remembered by.
pub fn original_prompt(input_text: &str, args: &Json, args_text: &str) -> (r: String)
    ensures
        r@ == original_prompt_of(input_text@, *args, args_text@),
{
    let trivial = match args {
        Json::Null => true,
        Json::Object(es) => es.len() == 0,
        Json::Array(xs) => xs.len() == 0,
        _ => false,
    };
    let mut out: Vec<char> = Vec::new();
    push_str(&mut out, input_text);
    if !trivial {
        push_str(&mut out, " | args=");
        push_str(&mut out, args_text);
    }
    string_of(out.as_slice())
}

/// The message that announces a background task.
pub open spec fn started_message_of(name: Seq<char>, id: Seq<char>) -> Seq<char> {
    "Started background task '"@ + name + "' (ID: "@ + id + ")"@
}

/// The message that announces a background task.
pub fn started_message(name: &str, id: &str) -> (r: String)
    ensures
        r@ == started_message_of(name@, id@),
{
    let mut out: Vec<char> = Vec::new();
    push_str(&mut out, "Started background task '");
    push_str(&mut out, name);
    push_str(&mut out, "' (ID: ");
    push_str(&mut out, id);
    push_str(&mut out, ")");
    string_of(out.as_slice())
}

/// Relies on `uuid::Uuid::new_v4` and its `Display`, which writes the
/// hyphenated form: 36 characters. The id itself is random.
#[verifier::external_body]
pub(crate) fn new_uuid_text() -> (r: String)
    ensures
        r@.len() == 36,
{
    uuid::Uuid::new_v4().to_string()
}

/// A background task that was just registered.
pub struct StartedTask {
    pub id: String,
    pub ordinal: u64,
    pub message: String,
}

/// Registers a background step under a fresh random id, remembered by the
/// prompt it came from, and gives the message that announces it.
pub fn register_background(
    manager: &mut TaskManager,
    name: &str,
    input_text: &str,
    args: &Json,
    args_text: &str,
) -> (r: StartedTask)
    requires
        old(manager).wf(),
        old(manager)@.counter < u64::MAX,
    ensures
        final(manager).wf(),
        r.id@.len() == 36,
        r.ordinal == old(manager)@.counter + 1,
        final(manager)@ == old(manager)@.added(
            r.id@,
            name@,
            original_prompt_of(input_text@, *args, args_text@),
            final(manager)@.tasks[r.id@].start_time,
        ),
        r.message@ == started_message_of(name@, r.id@),
{
    let id = new_uuid_text();
    let prompt = original_prompt(input_text, args, args_text);
    let message = started_message(name, id.as_str());
    let ordinal = manager.add_task(id.clone(), name.to_string(), prompt);
    StartedTask { id, ordinal, message }
}

/// The reply a session gives when no tool is available.
pub fn no_capability_output(source: &String, session_id: &String, style: &String) -> (r: OutputEvent)
    ensures
        r.target@ == "default"@,
        r.source@ == source@,
        r.session_id is Some && r.session_id->Some_0@ == session_id@,
        r.style@ == style@,
        r.content is Object && r.content->Object_0.len() == 1 && r.content->Object_0@[0].0@ == "content"@
            && r.content->Object_0@[0].1 is Str && r.content->Object_0@[0].1->Str_0@ == "没有可用执行能力"@,
{
    let content = Json::Object(vec![("content".to_string(), Json::Str("没有可用执行能力".to_string()))]);
    OutputEvent {
        target: "default".to_string(),
        source: source.clone(),
        session_id: Some(session_id.clone()),
        content,
        style: style.clone(),
    }
}

/// A text notice to the user: the prompt of a suspended step, or the
/// announcement of a background task.
pub fn text_output(source: &String, session_id: &Option<String>, text: String, style: &String) -> (r: OutputEvent)
    ensures
        r.target@ == "default"@,
        r.source@ == source@,
        r.session_id is Some <==> session_id is Some,
        session_id is Some ==> r.session_id->Some_0@ == session_id->Some_0@,
        r.style@ == style@,
        crate::llm::field(r.content, "type"@) is Some,
        crate::llm::field(r.content, "type"@)->Some_0 is Str,
        crate::llm::field(r.content, "type"@)->Some_0->Str_0@ == "text"@,
        crate::llm::field(r.content, "text"@) == Some(Json::Str(text)),
{
    let ghost tv = text;
    let content = Json::Object(vec![("type".to_string(), Json::Str("text".to_string())), ("text".to_string(), Json::Str(text))]);
    proof {
        reveal_strlit("type");
        reveal_strlit("text");
        assert(content->Object_0@[0].0@ == "type"@);
        assert("type"@[1] != "text"@[1]);
        assert(content->Object_0@[0].0@ != "text"@);
        assert(crate::json::first_key_from(content->Object_0@, "text"@, 1) == 1);
        assert(crate::json::first_key_from(content->Object_0@, "text"@, 0) == 1);
    }
    let sid = match session_id {
        Some(s) => Some(s.clone()),
        None => None,
    };
    OutputEvent { target: "default".to_string(), source: source.clone(), session_id: sid, content, style: style.clone() }
}

/// A step's output as the session dispatches it: carrying the event's
/// source, and the session's id where the step gave none.
pub fn route_output(o: OutputEvent, source: &String, session_id: &String) -> (r: OutputEvent)
    ensures
        r.source@ == source@,
        o.session_id is Some ==> r.session_id == o.session_id,
        o.session_id is None ==> r.session_id is Some && r.session_id->Some_0@ == session_id@,
        r.content == o.content,
        r.target == o.target,
        r.style == o.style,
{
    let OutputEvent { target, source: _, session_id: sid, content, style } = o;
    let sid = match sid {
        Some(s) => Some(s),
        None => Some(session_id.clone()),
    };
    OutputEvent { target, source: source.clone(), session_id: sid, content, style }
}

/// The session manager's table: each live session's inbox of event ids,
/// oldest first. Each session is held once, so all of a session's events
/// queue in one inbox and its actor takes them one at a time, in order.
pub struct SessionTable {
    entries: Vec<(String, Vec<u128>)>,
}

impl View for SessionTable {
    type V = Map<Seq<char>, Seq<u128>>;

    closed spec fn view(&self) -> Map<Seq<char>, Seq<u128>> {
        Map::new(
            |k: Seq<char>| exists|i: int| 0 <= i < self.entries.len() && #[trigger] self.entries@[i].0@ == k,
            |k: Seq<char>|
                self.entries@[choose|i: int| 0 <= i < self.entries.len() && #[trigger] self.entries@[i].0@ == k].1@,
        )
    }
}

/// The inbox of session `k` in table `t`; empty for a session not yet seen.
pub open spec fn inbox(t: Map<Seq<char>, Seq<u128>>, k: Seq<char>) -> Seq<u128> {
    if t.contains_key(k) {
        t[k]
    } else {
        Seq::empty()
    }
}

impl SessionTable {
    pub closed spec fn wf(&self) -> bool {
        forall|i: int, j: int|
            0 <= i < j < self.entries.len() ==> #[trigger] self.entries@[i].0@ != #[trigger] self.entries@[j].0@
    }

    proof fn lemma_at(&self, i: int)
        requires
            self.wf(),
            0 <= i < self.entries.len(),
        ensures
            self@.contains_key(self.entries@[i].0@),
            self@[self.entries@[i].0@] == self.entries@[i].1@,
    {
        let k = self.entries@[i].0@;
        assert(self.entries@[i].0@ == k);
        let j = choose|j: int| 0 <= j < self.entries.len() && #[trigger] self.entries@[j].0@ == k;
        if j != i {
            if j < i {
                assert(self.entries@[j].0@ != self.entries@[i].0@);
            } else {
                assert(self.entries@[i].0@ != self.entries@[j].0@);
            }
        }
    }

    pub fn new() -> (r: Self)
        ensures
            r.wf(),
            r@ == Map::<Seq<char>, Seq<u128>>::empty(),
    {
        let r = SessionTable { entries: Vec::new() };
        assert(r@ =~= Map::<Seq<char>, Seq<u128>>::empty());
        r
    }

    fn position(&self, key: &String) -> (r: Option<usize>)
        requires
            self.wf(),
        ensures
            match r {
                Some(i) => i < self.entries.len() && self.entries@[i as int].0@ == key@,
                None => !self@.contains_key(key@),
            },
    {
        let mut i: usize = 0;
        while i < self.entries.len()
            invariant
                i <= self.entries.len(),
                forall|k: int| 0 <= k < i ==> self.entries@[k].0@ != key@,
            decreases self.entries.len() - i,
        {
            if self.entries[i].0 == *key {
                return Some(i);
            }
            i = i + 1;
        }
        None
    }

    /// Replaces the inbox at position `i`.
    fn replace_at(&mut self, i: usize, q: Vec<u128>)
        requires
            old(self).wf(),
            i < old(self).entries.len(),
        ensures
            final(self).wf(),
            final(self)@ == old(self)@.insert(old(self).entries@[i as int].0@, q@),
    {
        let ghost kv = self.entries@[i as int].0@;
        let ghost before = self.entries@;
        let mut entry = self.entries.remove(i);
        entry.1 = q;
        self.entries.insert(i, entry);
        proof {
            assert forall|a: int| 0 <= a < self.entries.len() implies #[trigger] self.entries@[a].0@
                == before[a].0@ by {}
            assert forall|a: int| 0 <= a < self.entries.len() && a != i implies #[trigger] self.entries@[a]
                == before[a] by {}
            assert forall|a: int, b: int|
                0 <= a < b < self.entries.len() implies #[trigger] self.entries@[a].0@
                != #[trigger] self.entries@[b].0@ by {
                assert(old(self).entries@[a].0@ != old(self).entries@[b].0@);
            }
            assert forall|k: Seq<char>| #[trigger] self@.contains_key(k) == old(self)@.insert(kv, q@).contains_key(
                k,
            ) by {
                if self@.contains_key(k) {
                    let a = choose|a: int| 0 <= a < self.entries.len() && #[trigger] self.entries@[a].0@ == k;
                    old(self).lemma_at(a);
                }
                if old(self)@.contains_key(k) {
                    let a = choose|a: int| 0 <= a < old(self).entries.len() && #[trigger] old(self).entries@[a].0@ == k;
                    self.lemma_at(a);
                }
            }
            assert forall|k: Seq<char>| #[trigger] self@.contains_key(k) implies self@[k] == old(self)@.insert(
                kv,
                q@,
            )[k] by {
                let a = choose|a: int| 0 <= a < self.entries.len() && #[trigger] self.entries@[a].0@ == k;
                self.lemma_at(a);
                old(self).lemma_at(a);
            }
            assert(self@ =~= old(self)@.insert(kv, q@));
        }
    }

    /// Queues `event_id` in the inbox of session `session_id`, opening the
    /// session if it is new; reports whether it was new.
    pub fn dispatch(&mut self, session_id: String, event_id: u128) -> (r: bool)
        requires
            old(self).wf(),
        ensures
            final(self).wf(),
            r == !old(self)@.contains_key(session_id@),
            final(self)@ == old(self)@.insert(session_id@, inbox(old(self)@, session_id@).push(event_id)),
    {
        match self.position(&session_id) {
            Some(i) => {
                proof {
                    self.lemma_at(i as int);
                }
                let mut q = Vec::new();
                let n = self.entries[i].1.len();
                let mut k: usize = 0;
                while k < n
                    invariant
                        k <= n,
                        n == self.entries[i as int].1.len(),
                        i < self.entries.len(),
                        q@ == self.entries@[i as int].1@.subrange(0, k as int),
                    decreases n - k,
                {
                    q.push(self.entries[i].1[k]);
                    k = k + 1;
                    assert(q@ =~= self.entries@[i as int].1@.subrange(0, k as int));
                }
                assert(q@ =~= self.entries@[i as int].1@);
                q.push(event_id);
                self.replace_at(i, q);
                false
            },
            None => {
                let ghost kv = session_id@;
                let ghost before = self.entries@;
                self.entries.push((session_id, vec![event_id]));
                proof {
                    let n = before.len() as int;
                    assert forall|a: int, b: int|
                        0 <= a < b < self.entries.len() implies #[trigger] self.entries@[a].0@
                        != #[trigger] self.entries@[b].0@ by {
                        if b == n {
                            old(self).lemma_at(a);
                        } else {
                            assert(old(self).entries@[a].0@ != old(self).entries@[b].0@);
                        }
                    }
                    assert(Seq::<u128>::empty().push(event_id) =~= seq![event_id]);
                    assert(self.entries@[n].1@ =~= seq![event_id]);
                    assert forall|q: Seq<char>| #[trigger] self@.contains_key(q) == old(self)@.insert(
                        kv,
                        seq![event_id],
                    ).contains_key(q) by {
                        if self@.contains_key(q) && q != kv {
                            let a = choose|a: int| 0 <= a < self.entries.len() && #[trigger] self.entries@[a].0@ == q;
                            assert(a < n);
                            old(self).lemma_at(a);
                        }
                        if old(self)@.contains_key(q) {
                            let a = choose|a: int| 0 <= a < old(self).entries.len() && #[trigger] old(self).entries@[a].0@ == q;
                            self.lemma_at(a);
                        }
                        if q == kv {
                            self.lemma_at(n);
                        }
                    }
                    assert forall|q: Seq<char>| #[trigger] self@.contains_key(q) implies self@[q] == old(self)@.insert(
                        kv,
                        seq![event_id],
                    )[q] by {
                        let a = choose|a: int| 0 <= a < self.entries.len() && #[trigger] self.entries@[a].0@ == q;
                        self.lemma_at(a);
                        if a < n {
                            old(self).lemma_at(a);
                        }
                    }
                    assert(self@ =~= old(self)@.insert(kv, seq![event_id]));
                }
                true
            },
        }
    }

    /// Forgets session `session_id`, whose actor's inbox was closed; its next
    /// event opens it anew. Reports whether it was there.
    pub fn remove_session(&mut self, session_id: &String) -> (r: bool)
        requires
            old(self).wf(),
        ensures
            final(self).wf(),
            r == old(self)@.contains_key(session_id@),
            final(self)@ == old(self)@.remove(session_id@),
    {
        match self.position(session_id) {
            Some(i) => {
                let ghost k = session_id@;
                let ghost before = self.entries@;
                self.entries.remove(i);
                proof {
                    old(self).lemma_at(i as int);
                    assert(self.entries@ =~= before.remove(i as int));
                    assert forall|a: int, b: int|
                        0 <= a < b < self.entries.len() implies #[trigger] self.entries@[a].0@
                        != #[trigger] self.entries@[b].0@ by {
                        let a2 = if a < i { a } else { a + 1 };
                        let b2 = if b < i { b } else { b + 1 };
                        assert(old(self).entries@[a2].0@ != old(self).entries@[b2].0@);
                    }
                    assert forall|q: Seq<char>| #[trigger] self@.contains_key(q) == old(self)@.remove(k).contains_key(
                        q,
                    ) by {
                        if self@.contains_key(q) {
                            let a = choose|a: int| 0 <= a < self.entries.len() && #[trigger] self.entries@[a].0@ == q;
                            let a2 = if a < i { a } else { a + 1 };
                            assert(old(self).entries@[a2].0@ == q);
                            old(self).lemma_at(a2);
                            assert(a2 != i);
                        }
                        if old(self)@.contains_key(q) && q != k {
                            let a = choose|a: int| 0 <= a < old(self).entries.len() && #[trigger] old(self).entries@[a].0@ == q;
                            assert(a != i);
                            let a2 = if a < i { a } else { a - 1 };
                            assert(self.entries@[a2].0@ == q);
                        }
                    }
                    assert forall|q: Seq<char>| #[trigger] self@.contains_key(q) implies self@[q] == old(self)@.remove(
                        k,
                    )[q] by {
                        let a = choose|a: int| 0 <= a < self.entries.len() && #[trigger] self.entries@[a].0@ == q;
                        self.lemma_at(a);
                        let a2 = if a < i { a } else { a + 1 };
                        old(self).lemma_at(a2);
                        assert(old(self).entries@[a2] == self.entries@[a]);
                    }
                    assert(self@ =~= old(self)@.remove(k));
                }
                true
            },
            None => {
                assert(self@.remove(session_id@) =~= self@);
                false
            },
        }
    }

    /// Takes the oldest event of session `session_id`'s inbox.
    pub fn take_next(&mut self, session_id: &String) -> (r: Option<u128>)
        requires
            old(self).wf(),
        ensures
            final(self).wf(),
            inbox(old(self)@, session_id@).len() == 0 ==> r is None && final(self)@ == old(self)@,
            inbox(old(self)@, session_id@).len() > 0 ==> r == Some(inbox(old(self)@, session_id@)[0])
                && final(self)@ == old(self)@.insert(session_id@, inbox(old(self)@, session_id@).drop_first()),
    {
        match self.position(session_id) {
            Some(i) => {
                proof {
                    self.lemma_at(i as int);
                }
                if self.entries[i].1.len() == 0 {
                    return None;
                }
                let first = self.entries[i].1[0];
                let mut q = Vec::new();
                let n = self.entries[i].1.len();
                let mut k: usize = 1;
                while k < n
                    invariant
                        1 <= k <= n,
                        n == self.entries[i as int].1.len(),
                        i < self.entries.len(),
                        q@ == self.entries@[i as int].1@.subrange(1, k as int),
                    decreases n - k,
                {
                    q.push(self.entries[i].1[k]);
                    k = k + 1;
                    assert(q@ =~= self.entries@[i as int].1@.subrange(1, k as int));
                }
                assert(q@ =~= self.entries@[i as int].1@.drop_first());
                self.replace_at(i, q);
                Some(first)
            },
            None => None,
        }
    }
}

/// One session actor's turns: the events waiting in its inbox, the one
/// whose workflow is in progress, if any, and those finished. The actor
/// starts a turn only when none is in progress, and none after it was shut
/// down.
pub struct SessionTurns {
    waiting: Vec<u128>,
    current: Option<u128>,
    finished: Vec<u128>,
    shut_down: bool,
    arrived: Ghost<Seq<u128>>,
}

/// `Some(e)` as a one-element sequence, `None` as an empty one.
pub open spec fn opt_seq(o: Option<u128>) -> Seq<u128> {
    match o {
        Some(e) => seq![e],
        None => Seq::empty(),
    }
}

impl SessionTurns {
    /// Every event that arrived, in arrival order.
    pub closed spec fn arrived(&self) -> Seq<u128> {
        self.arrived@
    }

    /// The events waiting, oldest first.
    pub closed spec fn waiting_view(&self) -> Seq<u128> {
        self.waiting@
    }

    /// The events whose turns finished, in the order they finished.
    pub closed spec fn finished_view(&self) -> Seq<u128> {
        self.finished@
    }

    /// The event whose turn is in progress.
    pub closed spec fn current_view(&self) -> Option<u128> {
        self.current
    }

    /// Whether the actor was shut down.
    pub closed spec fn is_shut_down(&self) -> bool {
        self.shut_down
    }

    /// Finished turns, the turn in progress and the waiting events are,
    /// in that order, exactly the events that arrived.
    pub closed spec fn wf(&self) -> bool {
        self.finished@ + opt_seq(self.current) + self.waiting@ == self.arrived@
    }

    pub fn new() -> (r: Self)
        ensures
            r.wf(),
            r.arrived() == Seq::<u128>::empty(),
            r.waiting_view() == Seq::<u128>::empty(),
            r.finished_view() == Seq::<u128>::empty(),
            r.current_view() is None,
            !r.is_shut_down(),
    {
        let r = SessionTurns {
            waiting: Vec::new(),
            current: None,
            finished: Vec::new(),
            shut_down: false,
            arrived: Ghost(Seq::empty()),
        };
        assert(r.finished@ + opt_seq(r.current) + r.waiting@ =~= Seq::<u128>::empty());
        r
    }

    /// An event reaches the actor's inbox and waits behind those before it.
    pub fn arrive(&mut self, event_id: u128)
        requires
            old(self).wf(),
        ensures
            final(self).wf(),
            final(self).arrived() == old(self).arrived().push(event_id),
            final(self).waiting_view() == old(self).waiting_view().push(event_id),
            final(self).current_view() == old(self).current_view(),
            final(self).finished_view() == old(self).finished_view(),
            final(self).is_shut_down() == old(self).is_shut_down(),
    {
        self.waiting.push(event_id);
        self.arrived = Ghost(self.arrived@.push(event_id));
        assert(self.finished@ + opt_seq(self.current) + self.waiting@ =~= self.arrived@);
    }

    /// The actor's inbox yields `Shutdown`: no turn starts after this.
    pub fn shut_down(&mut self)
        requires
            old(self).wf(),
        ensures
            final(self).wf(),
            final(self).is_shut_down(),
            final(self).arrived() == old(self).arrived(),
            final(self).waiting_view() == old(self).waiting_view(),
            final(self).current_view() == old(self).current_view(),
            final(self).finished_view() == old(self).finished_view(),
    {
        self.shut_down = true;
    }

    /// Starts the next turn with the oldest waiting event, if the actor is
    /// running, no turn is in progress and an event waits.
    pub fn start_next(&mut self) -> (r: Option<u128>)
        requires
            old(self).wf(),
        ensures
            final(self).wf(),
            final(self).arrived() == old(self).arrived(),
            final(self).finished_view() == old(self).finished_view(),
            final(self).is_shut_down() == old(self).is_shut_down(),
            old(self).is_shut_down() || old(self).current_view() is Some || old(self).waiting_view().len() == 0
                ==> r is None && final(self).current_view() == old(self).current_view()
                && final(self).waiting_view() == old(self).waiting_view(),
            !old(self).is_shut_down() && old(self).current_view() is None && old(self).waiting_view().len() > 0
                ==> r == Some(old(self).waiting_view()[0]) && final(self).current_view() == r
                && final(self).waiting_view() == old(self).waiting_view().drop_first(),
    {
        if self.shut_down || self.current.is_some() || self.waiting.len() == 0 {
            return None;
        }
        let e = self.waiting.remove(0);
        self.current = Some(e);
        assert(self.waiting@ =~= old(self).waiting@.drop_first());
        assert(self.finished@ + opt_seq(self.current) + self.waiting@ =~= self.arrived@);
        Some(e)
    }

    /// Ends the turn in progress.
    pub fn finish_current(&mut self) -> (r: Option<u128>)
        requires
            old(self).wf(),
        ensures
            final(self).wf(),
            final(self).arrived() == old(self).arrived(),
            final(self).current_view() is None,
            final(self).waiting_view() == old(self).waiting_view(),
            final(self).is_shut_down() == old(self).is_shut_down(),
            r == old(self).current_view(),
            final(self).finished_view() == old(self).finished_view() + opt_seq(old(self).current_view()),
    {
        let r = self.current;
        match self.current {
            Some(e) => {
                self.finished.push(e);
                self.current = None;
                assert(self.finished@ + opt_seq(self.current) + self.waiting@ =~= self.arrived@);
            },
            None => {
                assert(self.finished@ =~= old(self).finished@ + opt_seq(None));
            },
        }
        r
    }
}

/// Turns never interleave: at most one turn is in progress, and turns are
/// finished in the order their events arrived — the finished events are a
/// prefix of the arrivals, the turn in progress comes right after them.
pub proof fn lemma_turns_in_order(t: &SessionTurns)
    requires
        t.wf(),
    ensures
        t.finished_view().len() <= t.arrived().len(),
        t.finished_view() == t.arrived().subrange(0, t.finished_view().len() as int),
        t.current_view() is Some ==> t.arrived()[t.finished_view().len() as int] == t.current_view()->Some_0,
{
    let f = t.finished_view();
    let a = t.arrived();
    assert(a.subrange(0, f.len() as int) =~= f);
}

/// Events of one session reach its actor in the order the manager received
/// them: after `e1` and then `e2` are dispatched to the same session, its
/// inbox ends with `e1` followed by `e2`, and the inboxes of other sessions
/// are untouched. The actor takes one event at a time from the front, so the
/// two workflows run one after the other and never interleave.
pub proof fn lemma_session_order(t: Map<Seq<char>, Seq<u128>>, sid: Seq<char>, e1: u128, e2: u128, other: Seq<char>)
    ensures
        ({
            let t1 = t.insert(sid, inbox(t, sid).push(e1));
            let t2 = t1.insert(sid, inbox(t1, sid).push(e2));
            &&& inbox(t2, sid) == inbox(t, sid) + seq![e1, e2]
            &&& inbox(t2, sid).len() >= 2
            &&& inbox(t2, sid)[inbox(t2, sid).len() - 2] == e1
            &&& inbox(t2, sid)[inbox(t2, sid).len() - 1] == e2
            &&& other != sid ==> inbox(t2, other) == inbox(t, other)
        }),
{
    let t1 = t.insert(sid, inbox(t, sid).push(e1));
    let t2 = t1.insert(sid, inbox(t1, sid).push(e2));
    assert(inbox(t2, sid) =~= inbox(t, sid) + seq![e1, e2]);
}

} // verus!

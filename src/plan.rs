//! The planner's side of a turn: the tool catalog, workflow plans and their
//! steps, how a planner's reply becomes a plan, the respond-or-ignore gate,
//! and the handling of a model reply's thought channel.

use vstd::prelude::*;
use crate::json::{Json, find_key, lemma_first_key_from, lookup};
use crate::text::{
    chars_of, eq_ignore_ascii_case, first_occ, lower_seq, occurs_at, push_chars, push_str,
    slice_chars, string_of, to_ascii_upper, trim_chars, trimmed, upper_seq, find_seq,
    contains_chars, contains_seq,
};

verus! {

/// What the catalog says of one tool.
pub struct ToolMeta {
    pub name: String,
    pub description: String,
    pub is_long_running: bool,
}

/// A list of known tools, in registration order.
pub struct ToolRegistry {
    tools: Vec<ToolMeta>,
}

impl ToolRegistry {
    pub closed spec fn spec_tools(&self) -> Seq<ToolMeta> {
        self.tools@
    }

    pub fn new() -> (r: Self)
        ensures
            r.spec_tools() == Seq::<ToolMeta>::empty(),
    {
        ToolRegistry { tools: Vec::new() }
    }

    pub fn register(&mut self, meta: ToolMeta)
        ensures
            final(self).spec_tools() == old(self).spec_tools().push(meta),
    {
        self.tools.push(meta);
    }

    pub fn list(&self) -> (r: &[ToolMeta])
        ensures
            r@ == self.spec_tools(),
    {
        self.tools.as_slice()
    }
}

/// One step of a workflow plan.
#[derive(Debug, PartialEq)]
pub enum StepSpec {
    Memory,
    Profile,
    Relationship,
    Tool { name: String, args: Json, is_background: bool, dependencies: Vec<usize> },
}

/// An ordered list of steps, with the planner's reasoning if it gave any.
pub struct WorkflowPlan {
    pub steps: Vec<StepSpec>,
    pub reasoning: Option<String>,
}

/// One step as the planner's reply names it.
pub struct StepItem {
    pub tool: String,
    pub dependencies: Vec<usize>,
}

/// Why no plan could be made.
pub enum DecisionError {
    /// The tool catalog is empty.
    NoToolsAvailable,
}

impl DecisionError {
    /// The distinguished text of the error.
    pub fn message(&self) -> (r: String)
        ensures
            r@ == "NO_TOOLS_AVAILABLE"@,
    {
        "NO_TOOLS_AVAILABLE".to_string()
    }
}

/// A plan can be made only from a non-empty catalog.
pub fn check_catalog(tools: &Vec<ToolMeta>) -> (r: Result<(), DecisionError>)
    ensures
        r is Err <==> tools.len() == 0,
{
    if tools.len() == 0 {
        Err(DecisionError::NoToolsAvailable)
    } else {
        Ok(())
    }
}

/// The built-in step that a planner's tool name stands for, if any: the
/// names `memory`, `profile` and `relationship`, in any ASCII case.
pub open spec fn builtin_of(name: Seq<char>) -> Option<StepSpec> {
    if lower_seq(name) == lower_seq("memory"@) {
        Some(StepSpec::Memory)
    } else if lower_seq(name) == lower_seq("profile"@) {
        Some(StepSpec::Profile)
    } else if lower_seq(name) == lower_seq("relationship"@) {
        Some(StepSpec::Relationship)
    } else {
        None
    }
}

/// Whether the catalog marks its first tool named `name` long-running
/// (false where no tool has that name).
pub open spec fn long_running_in(tools: Seq<ToolMeta>, name: Seq<char>) -> bool
    decreases tools.len(),
{
    if tools.len() == 0 {
        false
    } else if tools[0].name@ == name {
        tools[0].is_long_running
    } else {
        long_running_in(tools.drop_first(), name)
    }
}

fn long_running(tools: &Vec<ToolMeta>, name: &String) -> (r: bool)
    ensures
        r == long_running_in(tools@, name@),
{
    let mut i: usize = 0;
    assert(tools@.subrange(0, tools.len() as int) =~= tools@);
    while i < tools.len()
        invariant
            i <= tools.len(),
            long_running_in(tools@, name@) == long_running_in(tools@.subrange(i as int, tools.len() as int), name@),
        decreases tools.len() - i,
    {
        assert(tools@.subrange(i as int, tools.len() as int).drop_first() =~= tools@.subrange(
            i + 1,
            tools.len() as int,
        ));
        if tools[i].name == *name {
            return tools[i].is_long_running;
        }
        i = i + 1;
    }
    false
}

/// `s` is the step that the planner's item `item` becomes against `tools`.
pub open spec fn step_of(item: StepItem, tools: Seq<ToolMeta>, s: StepSpec) -> bool {
    match builtin_of(item.tool@) {
        Some(b) => s == b,
        None => match s {
            StepSpec::Tool { name, args, is_background, dependencies } => name@ == item.tool@ && args
                == Json::Null && is_background == long_running_in(tools, item.tool@) && dependencies@
                == item.dependencies@,
            _ => false,
        },
    }
}

/// The step that one planner item becomes.
pub fn step_from_item(item: StepItem, tools: &Vec<ToolMeta>) -> (r: StepSpec)
    ensures
        step_of(item, tools@, r),
{
    if eq_ignore_ascii_case(item.tool.as_str(), "memory") {
        StepSpec::Memory
    } else if eq_ignore_ascii_case(item.tool.as_str(), "profile") {
        StepSpec::Profile
    } else if eq_ignore_ascii_case(item.tool.as_str(), "relationship") {
        StepSpec::Relationship
    } else {
        let is_background = long_running(tools, &item.tool);
        StepSpec::Tool { name: item.tool, args: Json::Null, is_background, dependencies: item.dependencies }
    }
}

/// Turns the planner's items into a plan, one step per item, in order.
pub fn plan_from_items(items: Vec<StepItem>, tools: &Vec<ToolMeta>, reasoning: Option<String>) -> (r: WorkflowPlan)
    ensures
        r.steps.len() == items.len(),
        forall|i: int| 0 <= i < items.len() ==> step_of(#[trigger] items@[i], tools@, r.steps@[i]),
        r.reasoning == reasoning,
{
    let ghost orig = items@;
    let mut rest = items;
    let mut steps: Vec<StepSpec> = Vec::new();
    let ghost mut k: int = 0;
    while rest.len() > 0
        invariant
            0 <= k <= orig.len(),
            k + rest.len() == orig.len(),
            rest@ == orig.subrange(k, orig.len() as int),
            steps.len() == k,
            forall|i: int| 0 <= i < k ==> step_of(#[trigger] orig[i], tools@, steps@[i]),
        decreases rest.len(),
    {
        let item = rest.remove(0);
        assert(item == orig[k]);
        let s = step_from_item(item, tools);
        steps.push(s);
        proof {
            k = k + 1;
        }
        assert(rest@ =~= orig.subrange(k, orig.len() as int));
    }
    WorkflowPlan { steps, reasoning }
}

/// A planner's reply that fails to parse yields an empty plan.
pub fn empty_plan(reasoning: Option<String>) -> (r: WorkflowPlan)
    ensures
        r.steps.len() == 0,
        r.reasoning == reasoning,
{
    WorkflowPlan { steps: Vec::new(), reasoning }
}

/// Where an input's payload keeps its text, as its front-end describes it.
pub struct SourceMetadata {
    pub name: String,
    pub format_hint: String,
    pub content_field: String,
    pub description: String,
}

/// The string under `k` in an object payload, if there is one.
pub open spec fn string_field(payload: Json, k: Seq<char>) -> Option<Seq<char>> {
    match payload {
        Json::Object(es) => match lookup(es@, k) {
            Some(Json::Str(s)) => Some(s@),
            _ => None,
        },
        _ => None,
    }
}

/// Whether an object payload has key `k`.
pub open spec fn has_field(payload: Json, k: Seq<char>) -> bool {
    match payload {
        Json::Object(es) => lookup(es@, k) is Some,
        _ => false,
    }
}

pub(crate) fn get_string_field(payload: &Json, k: &String) -> (r: Option<String>)
    ensures
        match r {
            Some(s) => string_field(*payload, k@) == Some(s@),
            None => string_field(*payload, k@) is None,
        },
{
    match payload {
        Json::Object(es) => {
            let pos = find_key(es, k);
            proof {
                lemma_first_key_from(es@, k@, 0);
            }
            match pos {
                Some(j) => match &es[j].1 {
                    Json::Str(s) => Some(s.clone()),
                    _ => None,
                },
                None => None,
            }
        },
        _ => None,
    }
}

fn has_key(payload: &Json, k: &String) -> (r: bool)
    ensures
        r == has_field(*payload, k@),
{
    match payload {
        Json::Object(es) => find_key(es, k).is_some(),
        _ => false,
    }
}

/// The text that the planner is asked about: the payload's string under the
/// source's content field where the source describes one; otherwise under
/// `line`, or under `content` where there is no `line` at all; else empty.
pub open spec fn planner_text_of(payload: Json, meta: Option<SourceMetadata>) -> Seq<char> {
    match meta {
        Some(m) => match string_field(payload, m.content_field@) {
            Some(s) => s,
            None => Seq::empty(),
        },
        None => if has_field(payload, "line"@) {
            match string_field(payload, "line"@) {
                Some(s) => s,
                None => Seq::empty(),
            }
        } else {
            match string_field(payload, "content"@) {
                Some(s) => s,
                None => Seq::empty(),
            }
        },
    }
}

/// The text of an input as the planner sees it.
pub fn planner_text(payload: &Json, meta: &Option<SourceMetadata>) -> (r: String)
    ensures
        r@ == planner_text_of(*payload, *meta),
{
    let found = match meta {
        Some(m) => get_string_field(payload, &m.content_field),
        None => {
            let line = "line".to_string();
            if has_key(payload, &line) {
                get_string_field(payload, &line)
            } else {
                get_string_field(payload, &"content".to_string())
            }
        },
    };
    match found {
        Some(s) => s,
        None => String::new(),
    }
}

/// The planner's note on where an input came from.
pub open spec fn source_context_of(meta: Option<SourceMetadata>) -> Seq<char> {
    match meta {
        Some(m) => "Input Source: "@ + m.name@ + "\nFormat: "@ + m.format_hint@ + "\nDescription: "@
            + m.description@ + "\n"@,
        None => "Input Source: unknown\n"@,
    }
}

/// The planner's note on where an input came from.
pub fn source_context(meta: &Option<SourceMetadata>) -> (r: String)
    ensures
        r@ == source_context_of(*meta),
{
    let mut out: Vec<char> = Vec::new();
    match meta {
        Some(m) => {
            push_str(&mut out, "Input Source: ");
            push_str(&mut out, m.name.as_str());
            push_str(&mut out, "\nFormat: ");
            push_str(&mut out, m.format_hint.as_str());
            push_str(&mut out, "\nDescription: ");
            push_str(&mut out, m.description.as_str());
            push_str(&mut out, "\n");
        },
        None => push_str(&mut out, "Input Source: unknown\n"),
    }
    string_of(out.as_slice())
}

/// The text of an input as the session sees it: the string under `line`,
/// else the string under `content`, else empty.
pub open spec fn input_text_of(payload: Json) -> Seq<char> {
    match string_field(payload, "line"@) {
        Some(s) => s,
        None => match string_field(payload, "content"@) {
            Some(s) => s,
            None => Seq::empty(),
        },
    }
}

/// The text of an input as the session sees it.
pub fn input_text(payload: &Json) -> (r: String)
    ensures
        r@ == input_text_of(*payload),
{
    match get_string_field(payload, &"line".to_string()) {
        Some(s) => s,
        None => match get_string_field(payload, &"content".to_string()) {
            Some(s) => s,
            None => String::new(),
        },
    }
}

/// Whether a session should respond to a message.
#[derive(Debug, PartialEq)]
pub enum IntentDecision {
    Act,
    Ignore,
}

/// The intent gate's reading of a model's reply: act when the reply, trimmed
/// and upper-cased, says `DECISION: RESPOND` (with or without the space).
pub open spec fn intent_of(reply: Seq<char>) -> IntentDecision {
    let u = upper_seq(trimmed(reply));
    if contains_seq(u, "DECISION: RESPOND"@) || contains_seq(u, "DECISION:RESPOND"@) {
        IntentDecision::Act
    } else {
        IntentDecision::Ignore
    }
}

/// Reads the intent gate's reply.
pub fn intent_from_reply(reply: &str) -> (r: IntentDecision)
    ensures
        r == intent_of(reply@),
{
    let u = to_ascii_upper(&trim_chars(&chars_of(reply)));
    if contains_chars(&u, &chars_of("DECISION: RESPOND")) || contains_chars(&u, &chars_of("DECISION:RESPOND")) {
        IntentDecision::Act
    } else {
        IntentDecision::Ignore
    }
}

pub open spec fn think_open() -> Seq<char> {
    seq!['<', 't', 'h', 'i', 'n', 'k', '>']
}

pub open spec fn think_close() -> Seq<char> {
    seq!['<', '/', 't', 'h', 'i', 'n', 'k', '>']
}

/// A reply split into its visible text, its thought text, and whether it
/// held any thought: each `<think>`…`</think>` span goes to the thought, and
/// an unclosed `<think>` sends the rest of the reply there.
pub open spec fn strip_think(s: Seq<char>) -> (Seq<char>, Seq<char>, bool)
    decreases s.len(),
{
    let a = first_occ(s, think_open(), 0);
    if a < 0 || a > s.len() {
        (s, Seq::empty(), false)
    } else {
        let rest = s.subrange(a, s.len() as int);
        let b = first_occ(rest, think_close(), 0);
        if b >= 7 && b + 8 <= rest.len() {
            let inner = strip_think(rest.subrange(b + 8, rest.len() as int));
            (s.subrange(0, a) + inner.0, rest.subrange(7, b) + inner.1, true)
        } else if rest.len() > 7 {
            (s.subrange(0, a), rest.subrange(7, rest.len() as int), true)
        } else {
            (s.subrange(0, a), Seq::empty(), false)
        }
    }
}

proof fn lemma_first_occ_shift(h: Seq<char>, n: Seq<char>, from: int)
    requires
        0 <= from <= h.len(),
    ensures
        first_occ(h, n, from) == -1 <==> first_occ(h.subrange(from, h.len() as int), n, 0) == -1,
        first_occ(h, n, from) != -1 ==> first_occ(h, n, from) == first_occ(
            h.subrange(from, h.len() as int),
            n,
            0,
        ) + from,
    decreases h.len() - from,
{
    let t = h.subrange(from, h.len() as int);
    lemma_first_occ_shift_gen(h, n, from, 0);
}

proof fn lemma_first_occ_shift_gen(h: Seq<char>, n: Seq<char>, from: int, j: int)
    requires
        0 <= from <= h.len(),
        0 <= j <= h.len() - from,
    ensures
        ({
            let t = h.subrange(from, h.len() as int);
            &&& first_occ(h, n, from + j) == -1 <==> first_occ(t, n, j) == -1
            &&& first_occ(h, n, from + j) != -1 ==> first_occ(h, n, from + j) == first_occ(t, n, j) + from
        }),
    decreases h.len() - from - j,
{
    let t = h.subrange(from, h.len() as int);
    if from + j + n.len() > h.len() {
    } else {
        if n.len() == 0 {
            assert(h.subrange(from + j, from + j) =~= n);
            assert(t.subrange(j, j) =~= n);
        }
        assert(t.subrange(j, j + n.len()) =~= h.subrange(from + j, from + j + n.len()));
        if !occurs_at(h, n, from + j) {
            lemma_first_occ_shift_gen(h, n, from, j + 1);
        }
    }
}

proof fn lemma_first_occ_found(h: Seq<char>, n: Seq<char>, from: int)
    requires
        0 <= from,
    ensures
        first_occ(h, n, from) == -1 || (from <= first_occ(h, n, from) && first_occ(h, n, from) + n.len()
            <= h.len()),
    decreases h.len() + 1 - from,
{
    if from + n.len() <= h.len() && !occurs_at(h, n, from) {
        lemma_first_occ_found(h, n, from + 1);
    }
}

/// Splits a model's reply into its visible text and its thought, if any.
pub fn remove_think_tags(text: &str) -> (r: (String, Option<String>))
    ensures
        r.0@ == strip_think(text@).0,
        r.1 is Some == strip_think(text@).2,
        r.1 is Some ==> r.1->Some_0@ == strip_think(text@).1,
{
    let s = chars_of(text);
    let open: Vec<char> = vec!['<', 't', 'h', 'i', 'n', 'k', '>'];
    let close: Vec<char> = vec!['<', '/', 't', 'h', 'i', 'n', 'k', '>'];
    assert(open@ =~= think_open());
    assert(close@ =~= think_close());
    let mut result: Vec<char> = Vec::new();
    let mut thought: Vec<char> = Vec::new();
    let mut has_thought = false;
    let mut pos: usize = 0;
    let mut done = false;
    assert(s@.subrange(0, s.len() as int) =~= s@);
    assert(result@ + strip_think(s@).0 =~= strip_think(s@).0);
    assert(thought@ + strip_think(s@).1 =~= strip_think(s@).1);
    while !done
        invariant
            pos <= s.len(),
            open@ == think_open(),
            close@ == think_close(),
            !done ==> ({
                let tail = strip_think(s@.subrange(pos as int, s.len() as int));
                strip_think(s@) == (result@ + tail.0, thought@ + tail.1, has_thought || tail.2)
            }),
            done ==> strip_think(s@) == (result@, thought@, has_thought),
        decreases s.len() - pos + (if done { 0int } else { 1int }),
    {
        let ghost cur = s@.subrange(pos as int, s.len() as int);
        let ghost tail = strip_think(cur);
        let ghost r0 = result@;
        let ghost t0 = thought@;
        let ghost h0 = has_thought;
        let a_abs = find_seq(&s, &open, pos);
        proof {
            lemma_first_occ_shift(s@, open@, pos as int);
            lemma_first_occ_found(s@, open@, pos as int);
        }
        match a_abs {
            None => {
                push_chars(&mut result, slice_chars(&s, pos, s.len()).as_slice());
                proof {
                    assert(first_occ(cur, think_open(), 0) == -1);
                    assert(tail == (cur, Seq::<char>::empty(), false));
                    assert(thought@ + Seq::<char>::empty() =~= thought@);
                }
                done = true;
            },
            Some(a) => {
                let ghost arel = a - pos;
                assert(first_occ(cur, think_open(), 0) == arel);
                let ghost rest = cur.subrange(arel, cur.len() as int);
                assert(rest =~= s@.subrange(a as int, s.len() as int));
                let b_abs = find_seq(&s, &close, a);
                proof {
                    lemma_first_occ_shift(s@, close@, a as int);
                    lemma_first_occ_found(s@, close@, a as int);
                }
                push_chars(&mut result, slice_chars(&s, pos, a).as_slice());
                assert(cur.subrange(0, arel) =~= s@.subrange(pos as int, a as int));
                let mut matched = false;
                match b_abs {
                    Some(b) => {
                        assert(first_occ(rest, think_close(), 0) == b - a);
                        if b - a >= 7 {
                            assert(b + 8 <= s.len());
                            push_chars(&mut thought, slice_chars(&s, a + 7, b).as_slice());
                            assert(rest.subrange(7, b - a) =~= s@.subrange(a + 7, b as int));
                            has_thought = true;
                            pos = b + 8;
                            assert(rest.subrange(b - a + 8, rest.len() as int) =~= s@.subrange(
                                pos as int,
                                s.len() as int,
                            ));
                            proof {
                                let inner = strip_think(s@.subrange(pos as int, s.len() as int));
                                assert(tail == (cur.subrange(0, arel) + inner.0, rest.subrange(7, b - a) + inner.1, true));
                                assert(r0 + (cur.subrange(0, arel) + inner.0) =~= result@ + inner.0);
                                assert(t0 + (rest.subrange(7, b - a) + inner.1) =~= thought@ + inner.1);
                            }
                            matched = true;
                        }
                    },
                    None => {
                        assert(first_occ(rest, think_close(), 0) == -1);
                    },
                }
                if !matched {
                    if s.len() - a > 7 {
                        push_chars(&mut thought, slice_chars(&s, a + 7, s.len()).as_slice());
                        assert(rest.subrange(7, rest.len() as int) =~= s@.subrange(a + 7, s.len() as int));
                        has_thought = true;
                        proof {
                            assert(tail == (cur.subrange(0, arel), rest.subrange(7, rest.len() as int), true));
                        }
                    } else {
                        proof {
                            assert(tail == (cur.subrange(0, arel), Seq::<char>::empty(), false));
                            assert(thought@ + Seq::<char>::empty() =~= thought@);
                        }
                    }
                    done = true;
                }
            },
        }
    }
    let visible = string_of(result.as_slice());
    if has_thought {
        (visible, Some(string_of(thought.as_slice())))
    } else {
        (visible, None)
    }
}

pub open spec fn name_sep() -> Seq<char> {
    seq![':', ':']
}

/// The address and tool of an external tool name `ext::<addr>::<tool>`: the
/// name's first `::`-separated part is `ext`, the address is its second
/// part, and the tool is everything after the second separator.
pub open spec fn external_name_of(name: Seq<char>) -> Option<(Seq<char>, Seq<char>)> {
    let i = first_occ(name, name_sep(), 0);
    let j = first_occ(name, name_sep(), 5);
    if i == 3 && name.subrange(0, 3) == seq!['e', 'x', 't'] && j >= 5 {
        Some((name.subrange(5, j), name.subrange(j + 2, name.len() as int)))
    } else {
        None
    }
}

/// Splits an external tool name into its address and tool.
pub fn parse_external_name(name: &str) -> (r: Option<(String, String)>)
    ensures
        match r {
            Some((addr, tool)) => external_name_of(name@) == Some((addr@, tool@)),
            None => external_name_of(name@) is None,
        },
{
    let cs = chars_of(name);
    let sep: Vec<char> = vec![':', ':'];
    assert(sep@ =~= name_sep());
    let i = find_seq(&cs, &sep, 0);
    proof {
        crate::text::lemma_first_occ_bounds(cs@, sep@, 0);
    }
    match i {
        Some(i) => {
            if i == 3 && cs[0] == 'e' && cs[1] == 'x' && cs[2] == 't' {
                assert(cs@.subrange(0, 3) =~= seq!['e', 'x', 't']);
                match find_seq(&cs, &sep, 5) {
                    Some(j) => {
                        proof {
                            crate::text::lemma_first_occ_bounds(cs@, sep@, 5);
                        }
                        let addr = slice_chars(&cs, 5, j);
                        let tool = slice_chars(&cs, j + 2, cs.len());
                        Some((string_of(addr.as_slice()), string_of(tool.as_slice())))
                    },
                    None => None,
                }
            } else {
                proof {
                    if i == 3 && cs@.subrange(0, 3) == seq!['e', 'x', 't'] {
                        assert(cs@.subrange(0, 3)[0] == 'e');
                        assert(cs@.subrange(0, 3)[1] == 'x');
                        assert(cs@.subrange(0, 3)[2] == 't');
                    }
                }
                None
            }
        },
        None => None,
    }
}

/// One message of a chat.
pub struct Message {
    pub role: String,
    pub content: String,
}

/// The chat-template turns for `msgs`, in order.
pub open spec fn qwen_turns(msgs: Seq<Message>) -> Seq<char>
    decreases msgs.len(),
{
    if msgs.len() == 0 {
        Seq::empty()
    } else {
        let m = msgs.last();
        qwen_turns(msgs.drop_last()) + "<|im_start|>"@ + m.role@ + seq!['\n'] + m.content@ + seq!['\n']
            + "<|im_end|>\n"@
    }
}

/// Renders messages in the chat template, ending with an open assistant turn.
pub fn format_qwen_messages(msgs: &[Message]) -> (r: String)
    ensures
        r@ == qwen_turns(msgs@) + "<|im_start|>assistant\n"@,
{
    let mut s: Vec<char> = Vec::new();
    let mut i: usize = 0;
    while i < msgs.len()
        invariant
            i <= msgs.len(),
            s@ == qwen_turns(msgs@.subrange(0, i as int)),
        decreases msgs.len() - i,
    {
        let m = &msgs[i];
        push_str(&mut s, "<|im_start|>");
        push_str(&mut s, m.role.as_str());
        s.push('\n');
        push_str(&mut s, m.content.as_str());
        s.push('\n');
        push_str(&mut s, "<|im_end|>\n");
        proof {
            let pre = msgs@.subrange(0, i as int);
            let post = msgs@.subrange(0, i + 1);
            assert(post.drop_last() =~= pre);
            assert(post.last() == msgs@[i as int]);
        }
        i = i + 1;
        assert(s@ =~= qwen_turns(msgs@.subrange(0, i as int)));
    }
    assert(msgs@.subrange(0, msgs.len() as int) =~= msgs@);
    push_str(&mut s, "<|im_start|>assistant\n");
    string_of(s.as_slice())
}

/// The texts that a planner's reply is tried as, in order: for each
/// position among the first `n` that holds `open` and is not after the last
/// `close` at `last`, the text from there through that `close`.
pub open spec fn candidates_upto(s: Seq<char>, open: char, last: int, n: int) -> Seq<Seq<char>>
    decreases n,
{
    if n <= 0 {
        Seq::empty()
    } else {
        let prev = candidates_upto(s, open, last, n - 1);
        if s[n - 1] == open && n - 1 <= last {
            prev.push(s.subrange(n - 1, last + 1))
        } else {
            prev
        }
    }
}

/// The texts that a planner's reply is tried as: every span of the trimmed
/// reply from an `open` character through its last `close` character, the
/// earliest start first.
pub open spec fn candidates_of(reply: Seq<char>, open: char, close: char) -> Seq<Seq<char>> {
    let t = trimmed(reply);
    let last = crate::text::last_char_before(t, close, t.len() as int);
    if last < 0 {
        Seq::empty()
    } else {
        candidates_upto(t, open, last, t.len() as int)
    }
}

/// The texts of some strings.
pub open spec fn texts_of(v: Seq<String>) -> Seq<Seq<char>> {
    v.map_values(|x: String| x@)
}

/// The spans of a planner's reply to try parsing, in order: objects with
/// `{` and `}`, or step lists with `[` and `]`.
pub fn plan_candidates(reply: &str, open: char, close: char) -> (r: Vec<String>)
    ensures
        texts_of(r@) == candidates_of(reply@, open, close),
{
    let t = trim_chars(&chars_of(reply));
    let last_opt = crate::text::last_char_index(&t, close);
    proof {
        crate::text::lemma_last_char_before(t@, close, t.len() as int);
    }
    let mut out: Vec<String> = Vec::new();
    match last_opt {
        None => {
            assert(texts_of(out@) =~= Seq::<Seq<char>>::empty());
            out
        },
        Some(last) => {
            assert(texts_of(out@) =~= Seq::<Seq<char>>::empty());
            let mut p: usize = 0;
            while p < t.len()
                invariant
                    p <= t.len(),
                    last < t.len(),
                    texts_of(out@) == candidates_upto(t@, open, last as int, p as int),
                decreases t.len() - p,
            {
                let ghost before = out@;
                if t[p] == open && p <= last {
                    let span = slice_chars(&t, p, last + 1);
                    out.push(string_of(span.as_slice()));
                    assert(texts_of(out@) =~= texts_of(before).push(t@.subrange(p as int, last + 1)));
                }
                p = p + 1;
            }
            out
        },
    }
}

/// The value of a string of decimal digits.
pub open spec fn digits_value(s: Seq<char>) -> int
    decreases s.len(),
{
    if s.len() == 0 {
        0
    } else {
        digits_value(s.drop_last()) * 10 + (s.last() as int - '0' as int)
    }
}

pub open spec fn all_digits(s: Seq<char>) -> bool {
    forall|i: int| 0 <= i < s.len() ==> '0' <= #[trigger] s[i] && s[i] <= '9'
}

/// The step index that a JSON number's text stands for: a non-negative
/// integer that fits a `usize`.
pub open spec fn index_of_text(s: Seq<char>) -> Option<int> {
    if s.len() > 0 && all_digits(s) && digits_value(s) <= usize::MAX {
        Some(digits_value(s))
    } else {
        None
    }
}

proof fn lemma_digits_grow(s: Seq<char>, k: int)
    requires
        all_digits(s),
        0 <= k <= s.len(),
    ensures
        digits_value(s.subrange(0, k)) <= digits_value(s),
        digits_value(s) >= 0,
    decreases s.len() - k,
{
    if k < s.len() {
        let t = s.drop_last();
        assert(all_digits(t)) by {
            assert forall|i: int| 0 <= i < t.len() implies '0' <= #[trigger] t[i] && t[i] <= '9' by {
                assert(t[i] == s[i]);
            }
        }
        lemma_digits_grow(t, k);
        assert(t.subrange(0, k) =~= s.subrange(0, k));
    } else {
        assert(s.subrange(0, k) =~= s);
        lemma_digits_nonneg(s);
    }
}

proof fn lemma_digits_nonneg(s: Seq<char>)
    requires
        all_digits(s),
    ensures
        digits_value(s) >= 0,
    decreases s.len(),
{
    if s.len() > 0 {
        let t = s.drop_last();
        assert(all_digits(t)) by {
            assert forall|i: int| 0 <= i < t.len() implies '0' <= #[trigger] t[i] && t[i] <= '9' by {
                assert(t[i] == s[i]);
            }
        }
        lemma_digits_nonneg(t);
    }
}

/// Reads a step index from a JSON number's text.
pub fn parse_index(s: &String) -> (r: Option<usize>)
    ensures
        match r {
            Some(n) => index_of_text(s@) == Some(n as int),
            None => index_of_text(s@) is None,
        },
{
    let cs = chars_of(s.as_str());
    if cs.len() == 0 {
        return None;
    }
    let mut acc: usize = 0;
    let mut i: usize = 0;
    while i < cs.len()
        invariant
            i <= cs.len(),
            cs@ == s@,
            all_digits(cs@.subrange(0, i as int)),
            acc as int == digits_value(cs@.subrange(0, i as int)),
        decreases cs.len() - i,
    {
        let c = cs[i];
        let ghost pre = cs@.subrange(0, i as int);
        let ghost post = cs@.subrange(0, i + 1);
        assert(post.drop_last() =~= pre);
        if c < '0' || c > '9' {
            assert(!all_digits(cs@)) by {
                assert(cs@[i as int] == c);
            }
            return None;
        }
        let d = (c as u32 - '0' as u32) as usize;
        if acc > (usize::MAX - d) / 10 {
            proof {
                assert(all_digits(post)) by {
                    assert forall|k: int| 0 <= k < post.len() implies '0' <= #[trigger] post[k] && post[k] <= '9' by {
                        if k < i {
                            assert(post[k] == pre[k]);
                        }
                    }
                }
                assert(digits_value(post) == acc * 10 + d) by (nonlinear_arith)
                    requires
                        digits_value(post) == digits_value(pre) * 10 + d,
                        acc as int == digits_value(pre),
                ;
                assert(acc * 10 + d > usize::MAX) by (nonlinear_arith)
                    requires
                        acc > (usize::MAX - d) / 10,
                        d <= 9,
                ;
                if all_digits(cs@) {
                    lemma_digits_grow(cs@, i + 1);
                }
            }
            return None;
        }
        proof {
            assert(acc * 10 + d <= usize::MAX) by (nonlinear_arith)
                requires
                    acc <= (usize::MAX - d) / 10,
                    d <= 9,
            ;
        }
        acc = acc * 10 + d;
        i = i + 1;
        proof {
            assert(all_digits(post)) by {
                assert forall|k: int| 0 <= k < post.len() implies '0' <= #[trigger] post[k] && post[k] <= '9' by {
                    if k < i - 1 {
                        assert(post[k] == pre[k]);
                    }
                }
            }
        }
    }
    assert(cs@.subrange(0, cs.len() as int) =~= cs@);
    Some(acc)
}

/// The step that a planner's JSON step object names: its string `tool`
/// and its array of step indices `dependencies`.
pub open spec fn step_item_of(v: Json) -> Option<(Seq<char>, Seq<int>)> {
    match v {
        Json::Object(es) => match (lookup(es@, "tool"@), lookup(es@, "dependencies"@)) {
            (Some(Json::Str(t)), Some(Json::Array(xs))) => if forall|i: int|
                0 <= i < xs.len() ==> (#[trigger] xs@[i]) is Number && index_of_text(xs@[i]->Number_0@) is Some {
                Some((t@, Seq::new(xs.len() as nat, |i: int| index_of_text(xs@[i]->Number_0@)->Some_0)))
            } else {
                None
            },
            _ => None,
        },
        _ => None,
    }
}

/// `item` is the step that `v` names.
pub open spec fn item_matches(item: StepItem, parsed: (Seq<char>, Seq<int>)) -> bool {
    item.tool@ == parsed.0 && item.dependencies.len() == parsed.1.len() && forall|i: int|
        0 <= i < parsed.1.len() ==> #[trigger] item.dependencies@[i] as int == parsed.1[i]
}

fn index_list(xs: &Vec<Json>) -> (r: Option<Vec<usize>>)
    ensures
        r is Some <==> forall|i: int|
            0 <= i < xs.len() ==> (#[trigger] xs@[i]) is Number && index_of_text(xs@[i]->Number_0@) is Some,
        r is Some ==> r->Some_0.len() == xs.len() && forall|i: int|
            0 <= i < xs.len() ==> index_of_text(xs@[i]->Number_0@) == Some(#[trigger] r->Some_0@[i] as int),
{
    let mut out: Vec<usize> = Vec::new();
    let mut i: usize = 0;
    while i < xs.len()
        invariant
            i <= xs.len(),
            out.len() == i,
            forall|k: int| 0 <= k < i ==> (#[trigger] xs@[k]) is Number && index_of_text(xs@[k]->Number_0@) == Some(out@[k] as int),
        decreases xs.len() - i,
    {
        match &xs[i] {
            Json::Number(n) => match parse_index(n) {
                Some(v) => out.push(v),
                None => return None,
            },
            _ => return None,
        }
        i = i + 1;
    }
    Some(out)
}

/// Reads one step object of a planner's reply.
pub fn step_item_from_json(v: &Json) -> (r: Option<StepItem>)
    ensures
        r is Some <==> step_item_of(*v) is Some,
        r is Some ==> item_matches(r->Some_0, step_item_of(*v)->Some_0),
{
    let tool = "tool".to_string();
    let deps = "dependencies".to_string();
    match v {
        Json::Object(es) => {
            let t = find_key(es, &tool);
            let d = find_key(es, &deps);
            proof {
                lemma_first_key_from(es@, tool@, 0);
                lemma_first_key_from(es@, deps@, 0);
            }
            match (t, d) {
                (Some(ti), Some(di)) => match (&es[ti].1, &es[di].1) {
                    (Json::Str(name), Json::Array(xs)) => match index_list(xs) {
                        Some(ds) => Some(StepItem { tool: name.clone(), dependencies: ds }),
                        None => None,
                    },
                    _ => None,
                },
                _ => None,
            }
        },
        _ => None,
    }
}

/// The steps of a planner's JSON step list, if every element is a step.
pub open spec fn step_items_of(v: Json) -> Option<Seq<(Seq<char>, Seq<int>)>> {
    match v {
        Json::Array(xs) => if forall|i: int| 0 <= i < xs.len() ==> step_item_of(#[trigger] xs@[i]) is Some {
            Some(Seq::new(xs.len() as nat, |i: int| step_item_of(xs@[i])->Some_0))
        } else {
            None
        },
        _ => None,
    }
}

/// Reads a planner's JSON step list.
pub fn step_items_from_json(v: &Json) -> (r: Option<Vec<StepItem>>)
    ensures
        r is Some <==> step_items_of(*v) is Some,
        r is Some ==> r->Some_0.len() == step_items_of(*v)->Some_0.len() && forall|i: int|
            0 <= i < r->Some_0.len() ==> item_matches(#[trigger] r->Some_0@[i], step_items_of(*v)->Some_0[i]),
{
    match v {
        Json::Array(xs) => {
            let mut out: Vec<StepItem> = Vec::new();
            let mut i: usize = 0;
            while i < xs.len()
                invariant
                    i <= xs.len(),
                    out.len() == i,
                    v is Array && v->Array_0@ == xs@,
                    forall|k: int| 0 <= k < i ==> step_item_of(#[trigger] xs@[k]) is Some,
                    forall|k: int| 0 <= k < i ==> item_matches(#[trigger] out@[k], step_item_of(xs@[k])->Some_0),
                decreases xs.len() - i,
            {
                match step_item_from_json(&xs[i]) {
                    Some(it) => out.push(it),
                    None => return None,
                }
                i = i + 1;
            }
            Some(out)
        },
        _ => None,
    }
}

/// A planner's JSON reply object: its `steps` list, and its `reasoning`
/// where that is a string (absent or null gives none; anything else
/// rejects the reply).
pub open spec fn plan_response_of(v: Json) -> Option<(Seq<(Seq<char>, Seq<int>)>, Option<Seq<char>>)> {
    match v {
        Json::Object(es) => match (lookup(es@, "steps"@), lookup(es@, "reasoning"@)) {
            (Some(st), r) => match step_items_of(st) {
                Some(items) => match r {
                    None => Some((items, None)),
                    Some(Json::Null) => Some((items, None)),
                    Some(Json::Str(t)) => Some((items, Some(t@))),
                    _ => None,
                },
                None => None,
            },
            _ => None,
        },
        _ => None,
    }
}

/// Reads a planner's JSON reply object into its steps and reasoning.
pub fn plan_response_from_json(v: &Json) -> (r: Option<(Vec<StepItem>, Option<String>)>)
    ensures
        r is Some <==> plan_response_of(*v) is Some,
        r is Some ==> ({
            let (items, reasoning) = r->Some_0;
            let (want, why) = plan_response_of(*v)->Some_0;
            &&& items.len() == want.len()
            &&& forall|i: int| 0 <= i < items.len() ==> item_matches(#[trigger] items@[i], want[i])
            &&& reasoning is Some <==> why is Some
            &&& reasoning is Some ==> reasoning->Some_0@ == why->Some_0
        }),
{
    let steps = "steps".to_string();
    let reasoning = "reasoning".to_string();
    match v {
        Json::Object(es) => {
            let si = find_key(es, &steps);
            let ri = find_key(es, &reasoning);
            proof {
                lemma_first_key_from(es@, steps@, 0);
                lemma_first_key_from(es@, reasoning@, 0);
            }
            match si {
                Some(si) => match step_items_from_json(&es[si].1) {
                    Some(items) => match ri {
                        None => Some((items, None)),
                        Some(ri) => match &es[ri].1 {
                            Json::Null => Some((items, None)),
                            Json::Str(t) => Some((items, Some(t.clone()))),
                            _ => None,
                        },
                    },
                    None => None,
                },
                None => None,
            }
        },
        _ => None,
    }
}

/// The text of an optional string.
pub open spec fn opt_text(o: Option<String>) -> Option<Seq<char>> {
    match o {
        Some(t) => Some(t@),
        None => None,
    }
}

/// Each item is the parsed step at its position.
pub open spec fn items_match(items: Seq<StepItem>, want: Seq<(Seq<char>, Seq<int>)>) -> bool {
    items.len() == want.len() && forall|i: int| 0 <= i < items.len() ==> item_matches(#[trigger] items[i], want[i])
}

/// Reasoning taken over from a parsed reply where it is not blank.
pub open spec fn keep_reasoning(r: Option<Seq<char>>, why: Option<Seq<char>>) -> Option<Seq<char>> {
    match r {
        Some(t) => if trimmed(t).len() > 0 {
            Some(t)
        } else {
            why
        },
        None => why,
    }
}

/// The steps and reasoning that the object candidates from position `i`
/// on yield: the first candidate that reads as a reply with steps wins;
/// every reply read on the way may set the reasoning.
pub open spec fn select_objects(
    objs: Seq<Option<Json>>,
    i: int,
    items: Seq<(Seq<char>, Seq<int>)>,
    why: Option<Seq<char>>,
) -> (Seq<(Seq<char>, Seq<int>)>, Option<Seq<char>>)
    decreases objs.len() - i,
{
    if i < 0 || i >= objs.len() {
        (items, why)
    } else {
        match objs[i] {
            Some(j) => match plan_response_of(j) {
                Some((its, r)) => if its.len() > 0 {
                    (its, keep_reasoning(r, why))
                } else {
                    select_objects(objs, i + 1, its, keep_reasoning(r, why))
                },
                None => select_objects(objs, i + 1, items, why),
            },
            None => select_objects(objs, i + 1, items, why),
        }
    }
}

/// The steps that the array candidates from position `i` on yield: the
/// first that reads as a step list, or none.
pub open spec fn select_arrays(arrs: Seq<Option<Json>>, i: int) -> Seq<(Seq<char>, Seq<int>)>
    decreases arrs.len() - i,
{
    if i < 0 || i >= arrs.len() {
        Seq::empty()
    } else {
        match arrs[i] {
            Some(j) => match step_items_of(j) {
                Some(its) => its,
                None => select_arrays(arrs, i + 1),
            },
            None => select_arrays(arrs, i + 1),
        }
    }
}

/// Picks the planner's steps from its reply, given what each candidate span
/// parsed to (`None`: not JSON): the object candidates first; where they
/// yield no steps, the first array candidate that is a step list. The
/// model's thought is the reasoning unless a reply gives a non-blank one.
pub fn select_plan_items(
    objects: Vec<Option<Json>>,
    arrays: Vec<Option<Json>>,
    thought: Option<String>,
) -> (r: (Vec<StepItem>, Option<String>))
    ensures
        ({
            let (want, why) = select_objects(objects@, 0, Seq::empty(), opt_text(thought));
            &&& want.len() > 0 ==> items_match(r.0@, want)
            &&& want.len() == 0 ==> items_match(r.0@, select_arrays(arrays@, 0))
            &&& (r.1 is Some <==> why is Some)
            &&& r.1 is Some ==> r.1->Some_0@ == why->Some_0
        }),
{
    let ghost why0: Option<Seq<char>> = opt_text(thought);
    let mut items: Vec<StepItem> = Vec::new();
    let mut why = thought;
    let mut i: usize = 0;
    let mut found = false;
    assert(items_match(items@, Seq::<(Seq<char>, Seq<int>)>::empty()));
    assert(opt_text(why) == why0);
    while i < objects.len() && !found
        invariant
            i <= objects.len(),
            ({
                let (want, w) = select_objects(objects@, 0, Seq::empty(), why0);
                let cur_why: Option<Seq<char>> = opt_text(why);
                &&& !found ==> exists|cur: Seq<(Seq<char>, Seq<int>)>|
                    items_match(items@, cur) && select_objects(objects@, i as int, cur, cur_why) == (want, w)
                &&& found ==> items_match(items@, want) && want.len() > 0 && cur_why == w
            }),
        decreases objects.len() - i + (if found { 0int } else { 1int }),
    {
        let ghost cur_why: Option<Seq<char>> = opt_text(why);
        let ghost cur = choose|cur: Seq<(Seq<char>, Seq<int>)>|
            items_match(items@, cur) && select_objects(objects@, i as int, cur, cur_why) == select_objects(
                objects@,
                0,
                Seq::empty(),
                why0,
            );
        match &objects[i] {
            Some(j) => match plan_response_from_json(j) {
                Some((its, r)) => {
                    let ghost parsed = plan_response_of(*j)->Some_0;
                    match r {
                        Some(t) => {
                            let tt = trim_chars(&chars_of(t.as_str()));
                            if tt.len() > 0 {
                                why = Some(t);
                            }
                        },
                        None => {},
                    }
                    let n = its.len();
                    items = its;
                    proof {
                        assert(items_match(items@, parsed.0));
                    }
                    if n > 0 {
                        found = true;
                    }
                },
                None => {},
            },
            None => {},
        }
        i = i + 1;
    }
    if items.len() == 0 {
        let mut k: usize = 0;
        let mut done = false;
        while k < arrays.len() && !done
            invariant
                k <= arrays.len(),
                !done ==> items.len() == 0 && select_arrays(arrays@, 0) == select_arrays(arrays@, k as int),
                done ==> items_match(items@, select_arrays(arrays@, 0)),
            decreases arrays.len() - k + (if done { 0int } else { 1int }),
        {
            match &arrays[k] {
                Some(j) => match step_items_from_json(j) {
                    Some(its) => {
                        items = its;
                        done = true;
                    },
                    None => {},
                },
                None => {},
            }
            k = k + 1;
        }
        if !done {
            assert(select_arrays(arrays@, k as int) == Seq::<(Seq<char>, Seq<int>)>::empty());
        }
    }
    (items, why)
}

/// `s` is the step that the parsed step `p` becomes against `tools`.
pub open spec fn step_of_parsed(p: (Seq<char>, Seq<int>), tools: Seq<ToolMeta>, s: StepSpec) -> bool {
    match builtin_of(p.0) {
        Some(b) => s == b,
        None => match s {
            StepSpec::Tool { name, args, is_background, dependencies } => name@ == p.0 && args == Json::Null
                && is_background == long_running_in(tools, p.0) && dependencies.len() == p.1.len()
                && forall|k: int| 0 <= k < p.1.len() ==> #[trigger] dependencies@[k] as int == p.1[k],
            _ => false,
        },
    }
}

/// The plan that a planner's reply makes against the catalog: the steps
/// that `select_plan_items` picks, each made a step by `step_from_item`.
pub fn plan_from_reply(
    objects: Vec<Option<Json>>,
    arrays: Vec<Option<Json>>,
    thought: Option<String>,
    tools: &Vec<ToolMeta>,
) -> (r: WorkflowPlan)
    ensures
        ({
            let (want, why) = select_objects(objects@, 0, Seq::empty(), opt_text(thought));
            let chosen = if want.len() > 0 {
                want
            } else {
                select_arrays(arrays@, 0)
            };
            &&& r.steps.len() == chosen.len()
            &&& forall|i: int| 0 <= i < chosen.len() ==> step_of_parsed(#[trigger] chosen[i], tools@, r.steps@[i])
            &&& opt_text(r.reasoning) == why
        }),
{
    let ghost objs = objects@;
    let ghost arrs = arrays@;
    let ghost th = opt_text(thought);
    let (items, reasoning) = select_plan_items(objects, arrays, thought);
    let ghost its = items@;
    let ghost rs = opt_text(reasoning);
    let plan = plan_from_items(items, tools, reasoning);
    proof {
        let (want, why) = select_objects(objs, 0, Seq::empty(), th);
        let chosen = if want.len() > 0 {
            want
        } else {
            select_arrays(arrs, 0)
        };
        assert(rs == why);
        assert(its.len() == chosen.len());
        assert forall|i: int| 0 <= i < chosen.len() implies step_of_parsed(
            #[trigger] chosen[i],
            tools@,
            plan.steps@[i],
        ) by {
            assert(item_matches(its[i], chosen[i]));
            assert(step_of(its[i], tools@, plan.steps@[i]));
            assert(its[i].tool@ == chosen[i].0);
            if builtin_of(chosen[i].0) is None {
                assert(plan.steps@[i]->Tool_dependencies@ == its[i].dependencies@);
            }
        }
        assert(opt_text(plan.reasoning) == why);
        assert(plan.steps.len() == chosen.len());
    }
    plan
}

} // verus!

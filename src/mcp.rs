//! Decisions of the per-session MCP client: when a tool call must trigger
//! elicitation and with which arguments, which failures call for a fresh
//! connection, and how a user's answer to an elicitation is taken.

use vstd::prelude::*;
use crate::consumed::{ActiveElicitations, ConsumedEvents, set_elicitation_active};
use crate::json::{Json, same_json, find_key, lemma_first_key_from, lookup, null_word};
use crate::llm::field;
use crate::session::OutputEvent;
use crate::text::{
    push_str, string_of, chars_of, contains_chars, contains_seq, lower_seq, to_ascii_lower, trim_chars, trimmed,
};

verus! {

/// Whether some word of `ws` occurs in `h`.
pub open spec fn any_word(h: Seq<char>, ws: Seq<Seq<char>>) -> bool {
    exists|i: int| 0 <= i < ws.len() && contains_seq(h, #[trigger] ws[i])
}

fn contains_any(h: &Vec<char>, words: &Vec<Vec<char>>) -> (r: bool)
    ensures
        r == exists|i: int| 0 <= i < words.len() && contains_seq(h@, #[trigger] words@[i]@),
{
    let mut i: usize = 0;
    while i < words.len()
        invariant
            i <= words.len(),
            forall|k: int| 0 <= k < i ==> !contains_seq(h@, #[trigger] words@[k]@),
        decreases words.len() - i,
    {
        if contains_chars(h, &words[i]) {
            return true;
        }
        i = i + 1;
    }
    false
}

/// Words in an error's text that mark a lost connection.
pub open spec fn reconnect_words() -> Seq<Seq<char>> {
    seq![
        "broken pipe"@,
        "connection"@,
        "transport"@,
        "closed"@,
        "eof"@,
        "reset by peer"@,
        "os error"@,
    ]
}

/// Whether a failed request calls for dropping the connection and retrying
/// once on a fresh one: its error text names a transport-level failure, in
/// any ASCII case.
pub fn should_reconnect(error_text: &str) -> (r: bool)
    ensures
        r == any_word(lower_seq(error_text@), reconnect_words()),
{
    let l = to_ascii_lower(&chars_of(error_text));
    let words: Vec<Vec<char>> = vec![
        chars_of("broken pipe"),
        chars_of("connection"),
        chars_of("transport"),
        chars_of("closed"),
        chars_of("eof"),
        chars_of("reset by peer"),
        chars_of("os error"),
    ];
    let r = contains_any(&l, &words);
    proof {
        let ws = reconnect_words();
        assert(ws.len() == words.len());
        assert forall|i: int| 0 <= i < ws.len() implies #[trigger] ws[i] == words@[i]@ by {}
        if r {
            let i = choose|i: int| 0 <= i < words.len() && contains_seq(l@, #[trigger] words@[i]@);
            assert(contains_seq(l@, ws[i]));
        }
        if any_word(l@, ws) {
            let i = choose|i: int| 0 <= i < ws.len() && contains_seq(l@, #[trigger] ws[i]);
            assert(contains_seq(l@, words@[i]@));
        }
    }
    r
}

/// What a client does after a failed request.
pub enum RetryAction {
    /// Drop the connection and try the request once more on a fresh one.
    Reconnect,
    /// Hand the error to the caller.
    Fail,
}

/// A failed request is retried once, on a fresh connection, where its error
/// names a transport-level failure; a retry that fails too, or any other
/// error, goes to the caller.
pub fn after_failure(already_retried: bool, error_text: &str) -> (r: RetryAction)
    ensures
        r is Reconnect <==> !already_retried && any_word(lower_seq(error_text@), reconnect_words()),
{
    if !already_retried && should_reconnect(error_text) {
        RetryAction::Reconnect
    } else {
        RetryAction::Fail
    }
}

/// Words and phrases by which a user calls off a pending tool call.
pub open spec fn cancel_words() -> Seq<Seq<char>> {
    seq![
        "算了"@,
        "不用了"@,
        "取消"@,
        "停止"@,
        "不需要了"@,
        "stop"@,
        "cancel"@,
        "never mind"@,
        "nevermind"@,
        "quit"@,
        "exit"@,
    ]
}

/// An answer that calls off the tool call: non-empty once trimmed, and,
/// ASCII-lower-cased, holding one of the cancel words.
pub open spec fn is_cancel_answer(s: Seq<char>) -> bool {
    let t = lower_seq(trimmed(s));
    t.len() > 0 && any_word(t, cancel_words())
}

/// Whether the user's answer calls off the pending tool call.
pub fn is_cancel_text(s: &str) -> (r: bool)
    ensures
        r == is_cancel_answer(s@),
{
    let t = to_ascii_lower(&trim_chars(&chars_of(s)));
    if t.len() == 0 {
        return false;
    }
    let words: Vec<Vec<char>> = vec![
        chars_of("算了"),
        chars_of("不用了"),
        chars_of("取消"),
        chars_of("停止"),
        chars_of("不需要了"),
        chars_of("stop"),
        chars_of("cancel"),
        chars_of("never mind"),
        chars_of("nevermind"),
        chars_of("quit"),
        chars_of("exit"),
    ];
    let r = contains_any(&t, &words);
    proof {
        let ws = cancel_words();
        assert(ws.len() == words.len());
        assert forall|i: int| 0 <= i < ws.len() implies #[trigger] ws[i] == words@[i]@ by {}
        if r {
            let i = choose|i: int| 0 <= i < words.len() && contains_seq(t@, #[trigger] words@[i]@);
            assert(contains_seq(t@, ws[i]));
        }
        if any_word(t@, ws) {
            let i = choose|i: int| 0 <= i < ws.len() && contains_seq(t@, #[trigger] ws[i]);
            assert(contains_seq(t@, words@[i]@));
        }
    }
    r
}

/// A value that leaves a required field unfilled: null, an empty or
/// null-standing string, or an empty array.
pub open spec fn is_missing_value(v: Json) -> bool {
    match v {
        Json::Null => true,
        Json::Str(s) => trimmed(s@).len() == 0 || lower_seq(trimmed(s@)) == null_word(),
        Json::Array(xs) => xs.len() == 0,
        _ => false,
    }
}

/// A required field that the arguments leave unfilled.
pub open spec fn field_missing(es: Seq<(String, Json)>, k: Seq<char>) -> bool {
    match lookup(es, k) {
        Some(v) => is_missing_value(v),
        None => true,
    }
}

/// Whether a call with `args` must trigger elicitation: `args` is an object
/// and leaves some required field unfilled.
pub open spec fn elicitation_needed(args: Json, required: Seq<String>) -> bool {
    args is Object && exists|i: int|
        0 <= i < required.len() && field_missing(args->Object_0@, (#[trigger] required[i])@)
}

fn missing_value(v: &Json) -> (r: bool)
    ensures
        r == is_missing_value(*v),
{
    match v {
        Json::Null => true,
        Json::Str(s) => {
            let t = trim_chars(&chars_of(s.as_str()));
            if t.len() == 0 {
                true
            } else {
                let l = to_ascii_lower(&t);
                let r = l.len() == 4 && l[0] == 'n' && l[1] == 'u' && l[2] == 'l' && l[3] == 'l';
                assert(r ==> l@ =~= null_word());
                r
            }
        },
        Json::Array(xs) => xs.len() == 0,
        _ => false,
    }
}

/// Whether a call with `args` must trigger elicitation.
pub fn requires_elicitation(args: &Json, required_fields: &Vec<String>) -> (r: bool)
    ensures
        r == elicitation_needed(*args, required_fields@),
{
    match args {
        Json::Object(es) => {
            let mut i: usize = 0;
            while i < required_fields.len()
                invariant
                    i <= required_fields.len(),
                    args is Object && args->Object_0@ == es@,
                    forall|k: int| 0 <= k < i ==> !field_missing(es@, (#[trigger] required_fields@[k])@),
                decreases required_fields.len() - i,
            {
                let pos = find_key(es, &required_fields[i]);
                proof {
                    lemma_first_key_from(es@, required_fields@[i as int]@, 0);
                }
                let missing = match pos {
                    Some(j) => missing_value(&es[j].1),
                    None => true,
                };
                if missing {
                    assert(field_missing(es@, required_fields@[i as int]@));
                    assert(args->Object_0@ == es@);
                    assert(field_missing(args->Object_0@, required_fields@[i as int]@));
                    return true;
                }
                i = i + 1;
            }
            false
        },
        _ => false,
    }
}

/// The arguments that a tool call with `args` sends (`None`: no
/// arguments): none where `args` is not an object, and none where a
/// required field is unfilled, so that the server asks the user for it;
/// otherwise `args` whole.
pub open spec fn call_arguments_of(args: Json, required: Seq<String>) -> Option<Json> {
    if !(args is Object) || elicitation_needed(args, required) {
        None
    } else {
        Some(args)
    }
}

/// The arguments that a tool call sends; `None` sends no arguments.
pub fn call_arguments(args: Json, required_fields: &Vec<String>) -> (r: Option<Json>)
    ensures
        r == call_arguments_of(args, required_fields@),
{
    let elicit = requires_elicitation(&args, required_fields);
    if elicit {
        return None;
    }
    match args {
        Json::Object(es) => Some(Json::Object(es)),
        _ => None,
    }
}

/// Adds the session's id to a tool's arguments, where they are an object
/// and carry no `session_id` of their own.
pub fn inject_session_id(args: Json, session_id: &Option<String>) -> (r: Json)
    ensures
        match (args, *session_id) {
            (Json::Object(es), Some(sid)) => r is Object && if lookup(es@, "session_id"@) is Some {
                r->Object_0@ == es@
            } else {
                r->Object_0@.drop_last() == es@ && r->Object_0@.last().0@ == "session_id"@
                    && r->Object_0@.last().1 is Str && r->Object_0@.last().1->Str_0@ == sid@
            },
            _ => r == args,
        },
{
    match (args, session_id) {
        (Json::Object(es), Some(sid)) => {
            let key = "session_id".to_string();
            if find_key(&es, &key).is_some() {
                Json::Object(es)
            } else {
                let ghost before = es@;
                let mut es = es;
                es.push((key, Json::Str(sid.clone())));
                assert(es@.drop_last() =~= before);
                Json::Object(es)
            }
        },
        (args, _) => args,
    }
}

/// What the elicitation handler does with a user's answer.
pub enum AnswerStep {
    /// The user called the tool call off: the answer's event is consumed,
    /// and the server is sent a `cancelled` notification for `notify`, the
    /// id of the tool call in flight, where there is one.
    Cancel { notify: Option<String> },
    /// The answer must be parsed as the requested object.
    Parse,
}

/// Takes a user's answer to an elicitation: a cancel word consumes the
/// answer's event and calls off the tool call in flight (`current_request`,
/// its request id, if any); anything else goes on to parsing.
pub fn on_elicitation_answer(
    consumed: &mut ConsumedEvents,
    event_id: u128,
    text: &str,
    current_request: &Option<String>,
) -> (r: AnswerStep)
    requires
        old(consumed).wf(),
    ensures
        final(consumed).wf(),
        (r is Cancel) == is_cancel_answer(text@),
        r is Cancel ==> final(consumed)@ == old(consumed)@.insert(event_id) && (r->notify is Some
            <==> current_request is Some) && (current_request is Some ==> r->notify->Some_0@
            == current_request->Some_0@),
        r is Parse ==> final(consumed)@ == old(consumed)@,
{
    if is_cancel_text(text) {
        consumed.mark_consumed(event_id);
        let notify = match current_request {
            Some(id) => Some(id.clone()),
            None => None,
        };
        AnswerStep::Cancel { notify }
    } else {
        AnswerStep::Parse
    }
}

/// What the client keeps of the last elicitation, for introspection.
pub struct ElicitationStash {
    pub last_message: Option<String>,
    pub last_schema: Option<Json>,
}

impl ElicitationStash {
    pub fn new() -> (r: Self)
        ensures
            r.last_message is None,
            r.last_schema is None,
    {
        ElicitationStash { last_message: None, last_schema: None }
    }
}

/// Opens an elicitation for session `sid`: the server's message and schema
/// are stashed, the session's elicitation is marked active (so the session
/// actor leaves its next event to the handler), and the prompt to show the
/// user is returned.
pub fn begin_elicitation(
    stash: &mut ElicitationStash,
    active: &mut ActiveElicitations,
    sid: &String,
    message: String,
    schema: Json,
) -> (r: OutputEvent)
    requires
        old(active).wf(),
    ensures
        final(active).wf(),
        final(active)@ == old(active)@.insert(sid@),
        final(stash).last_message is Some && final(stash).last_message->Some_0@ == message@,
        final(stash).last_schema is Some && same_json(schema, final(stash).last_schema->Some_0),
        r.target@ == "default"@,
        r.source@ == "mcp"@,
        r.session_id is Some && r.session_id->Some_0@ == sid@,
        field(r.content, "message"@) == Some(Json::Str(message)),
        field(r.content, "schema"@) == Some(schema),
{
    stash.last_message = Some(message.clone());
    stash.last_schema = Some(schema.deep_copy());
    set_elicitation_active(active, sid.as_str(), true);
    elicitation_output(sid, message, schema)
}

/// Closes the elicitation of session `sid`: its events go to the session
/// actor again.
pub fn end_elicitation(active: &mut ActiveElicitations, sid: &String)
    requires
        old(active).wf(),
    ensures
        final(active).wf(),
        final(active)@ == old(active)@.remove(sid@),
{
    set_elicitation_active(active, sid.as_str(), false);
}

/// Takes the outcome of parsing an answer: a parsed object is accepted and
/// its event consumed; a failed parse consumes nothing.
pub fn on_parsed_answer(consumed: &mut ConsumedEvents, event_id: u128, parsed: Option<Json>) -> (r: Option<Json>)
    requires
        old(consumed).wf(),
    ensures
        final(consumed).wf(),
        r == parsed,
        parsed is Some ==> final(consumed)@ == old(consumed)@.insert(event_id),
        parsed is None ==> final(consumed)@ == old(consumed)@,
{
    if parsed.is_some() {
        consumed.mark_consumed(event_id);
    }
    parsed
}

/// The string names under a schema's `required` array, in order; an entry
/// that is not a string is skipped.
pub open spec fn required_names(xs: Seq<Json>) -> Seq<Seq<char>>
    decreases xs.len(),
{
    if xs.len() == 0 {
        Seq::empty()
    } else {
        let prev = required_names(xs.drop_last());
        match xs.last() {
            Json::Str(s) => prev.push(s@),
            _ => prev,
        }
    }
}

/// The required fields that a tool's input schema names.
pub open spec fn required_fields_of_schema(schema: Json) -> Seq<Seq<char>> {
    match field(schema, "required"@) {
        Some(Json::Array(xs)) => required_names(xs@),
        _ => Seq::empty(),
    }
}

/// The required fields of a tool's input schema.
pub fn required_fields_of(schema: &Json) -> (r: Vec<String>)
    ensures
        r@.map_values(|x: String| x@) == required_fields_of_schema(*schema),
{
    let mut out: Vec<String> = Vec::new();
    let key = "required".to_string();
    match schema {
        Json::Object(es) => {
            let pos = find_key(es, &key);
            proof {
                lemma_first_key_from(es@, key@, 0);
            }
            match pos {
                Some(j) => match &es[j].1 {
                    Json::Array(xs) => {
                        let mut i: usize = 0;
                        while i < xs.len()
                            invariant
                                i <= xs.len(),
                                out@.map_values(|x: String| x@) == required_names(xs@.subrange(0, i as int)),
                            decreases xs.len() - i,
                        {
                            let ghost before = out@;
                            let ghost post = xs@.subrange(0, i + 1);
                            assert(post.drop_last() =~= xs@.subrange(0, i as int));
                            match &xs[i] {
                                Json::Str(name) => {
                                    out.push(name.clone());
                                    assert(out@.map_values(|x: String| x@) =~= before.map_values(|x: String| x@).push(
                                        name@,
                                    ));
                                },
                                _ => {},
                            }
                            i = i + 1;
                        }
                        assert(xs@.subrange(0, xs.len() as int) =~= xs@);
                    },
                    _ => {},
                },
                None => {},
            }
        },
        _ => {},
    }
    proof {
        if out.len() == 0 {
            assert(out@.map_values(|x: String| x@) =~= Seq::<Seq<char>>::empty());
        }
    }
    out
}

/// Whether a tool's metadata marks it long-running: its `isLongRunning`
/// is `true`; absent or not a boolean, it is not.
pub fn is_long_running_meta(meta: &Option<Json>) -> (r: bool)
    ensures
        r == match *meta {
            Some(m) => field(m, "isLongRunning"@) == Some(Json::Bool(true)),
            None => false,
        },
{
    match meta {
        Some(Json::Object(es)) => {
            let key = "isLongRunning".to_string();
            let pos = find_key(es, &key);
            proof {
                lemma_first_key_from(es@, key@, 0);
            }
            match pos {
                Some(j) => match &es[j].1 {
                    Json::Bool(b) => *b,
                    _ => false,
                },
                None => false,
            }
        },
        _ => false,
    }
}

/// The text of the result that stands for a cancelled tool call.
pub open spec fn cancelled_text_of(tool: Seq<char>, reason: Option<Seq<char>>) -> Seq<char> {
    "tool_cancel\nname="@ + tool + "\nmessage="@ + match reason {
        Some(r) => r,
        None => "用户取消了本次工具调用"@,
    }
}

/// The text of the result that stands for a cancelled tool call: the call
/// is reported as a success carrying this text, never as an error.
pub fn cancelled_text(tool: &str, reason: &Option<String>) -> (r: String)
    ensures
        r@ == cancelled_text_of(tool@, match *reason {
            Some(t) => Some(t@),
            None => None,
        }),
{
    let mut out: Vec<char> = Vec::new();
    push_str(&mut out, "tool_cancel\nname=");
    push_str(&mut out, tool);
    push_str(&mut out, "\nmessage=");
    match reason {
        Some(t) => push_str(&mut out, t.as_str()),
        None => push_str(&mut out, "用户取消了本次工具调用"),
    }
    string_of(out.as_slice())
}

/// The prompt that an elicitation shows the user of session `sid`: the
/// server's message and the schema it asks for.
pub fn elicitation_output(sid: &String, message: String, schema: Json) -> (r: OutputEvent)
    ensures
        r.target@ == "default"@,
        r.source@ == "mcp"@,
        r.session_id is Some && r.session_id->Some_0@ == sid@,
        field(r.content, "message"@) == Some(Json::Str(message)),
        field(r.content, "schema"@) == Some(schema),
{
    let ghost m = message;
    let ghost sc = schema;
    let content = Json::Object(vec![("message".to_string(), Json::Str(message)), ("schema".to_string(), schema)]);
    proof {
        reveal_strlit("message");
        reveal_strlit("schema");
        assert(content->Object_0@[0].0@ == "message"@);
        assert(content->Object_0@[1].0@ == "schema"@);
        assert(content->Object_0@[0].0@ != "schema"@);
        assert(crate::json::first_key_from(content->Object_0@, "schema"@, 1) == 1);
        assert(crate::json::first_key_from(content->Object_0@, "schema"@, 0) == 1);
    }
    OutputEvent {
        target: "default".to_string(),
        source: "mcp".to_string(),
        session_id: Some(sid.clone()),
        content,
        style: "neutral".to_string(),
    }
}

/// The notice that the user called the tool call off.
pub fn tool_cancel_output(sid: &String) -> (r: OutputEvent)
    ensures
        r.target@ == "default"@,
        r.source@ == "mcp"@,
        r.session_id is Some && r.session_id->Some_0@ == sid@,
        field(r.content, "type"@) is Some && field(r.content, "type"@)->Some_0 is Str
            && field(r.content, "type"@)->Some_0->Str_0@ == "tool_cancel"@,
        field(r.content, "message"@) is Some && field(r.content, "message"@)->Some_0 is Str
            && field(r.content, "message"@)->Some_0->Str_0@ == "已取消本次工具调用"@,
{
    let content = Json::Object(
        vec![
            ("type".to_string(), Json::Str("tool_cancel".to_string())),
            ("message".to_string(), Json::Str("已取消本次工具调用".to_string())),
        ],
    );
    proof {
        reveal_strlit("message");
        reveal_strlit("type");
        assert(content->Object_0@[0].0@ == "type"@);
        assert(content->Object_0@[1].0@ == "message"@);
        assert(content->Object_0@[0].0@ != "message"@);
        assert(crate::json::first_key_from(content->Object_0@, "message"@, 1) == 1);
        assert(crate::json::first_key_from(content->Object_0@, "message"@, 0) == 1);
    }
    OutputEvent {
        target: "default".to_string(),
        source: "mcp".to_string(),
        session_id: Some(sid.clone()),
        content,
        style: "neutral".to_string(),
    }
}

} // verus!

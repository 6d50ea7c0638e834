//! Reading a chat-completion reply: its text, and the thought channel that
//! `<think>` spans carry.

use vstd::prelude::*;
use crate::json::{Json, find_key, first_key_from, lemma_first_key_from, lookup};
use crate::plan::{remove_think_tags, strip_think};
use crate::session::OutputEvent;
use crate::text::{chars_of, trim_chars, trimmed};

verus! {

/// The value under `k` of an object.
pub open spec fn field(v: Json, k: Seq<char>) -> Option<Json> {
    match v {
        Json::Object(es) => lookup(es@, k),
        _ => None,
    }
}

/// The reply text of a chat-completion response:
/// `choices[0].message.content` where that is a string, else empty.
pub open spec fn reply_text_of(raw: Json) -> Seq<char> {
    match field(raw, "choices"@) {
        Some(Json::Array(cs)) => if cs.len() > 0 {
            match field(cs@[0], "message"@) {
                Some(m) => match field(m, "content"@) {
                    Some(Json::Str(s)) => s@,
                    _ => Seq::empty(),
                },
                None => Seq::empty(),
            }
        } else {
            Seq::empty()
        },
        _ => Seq::empty(),
    }
}

fn get_field<'a>(v: &'a Json, k: &str) -> (r: Option<&'a Json>)
    ensures
        match r {
            Some(x) => field(*v, k@) == Some(*x),
            None => field(*v, k@) is None,
        },
{
    match v {
        Json::Object(es) => {
            let key = k.to_string();
            let pos = find_key(es, &key);
            proof {
                lemma_first_key_from(es@, key@, 0);
            }
            match pos {
                Some(i) => Some(&es[i].1),
                None => None,
            }
        },
        _ => None,
    }
}

/// The reply text of a chat-completion response.
pub fn reply_text(raw: &Json) -> (r: String)
    ensures
        r@ == reply_text_of(*raw),
{
    match get_field(raw, "choices") {
        Some(Json::Array(cs)) => {
            if cs.len() > 0 {
                match get_field(&cs[0], "message") {
                    Some(m) => match get_field(m, "content") {
                        Some(Json::Str(s)) => s.clone(),
                        _ => String::new(),
                    },
                    None => String::new(),
                }
            } else {
                String::new()
            }
        },
        _ => String::new(),
    }
}

/// A model's reply split for its reader.
pub struct ChatOutput {
    /// The visible text.
    pub text: String,
    /// The thought, where the reply held any.
    pub thought: Option<String>,
    /// The thought as an output for the session, where the request named one.
    pub think_event: Option<OutputEvent>,
}

/// Splits a reply: `<think>` spans go to the thought; the visible text is
/// the rest, or the whole reply where the rest is blank and the reply is
/// not. With a session, the thought is also an output of type `think`.
pub fn split_reply(text: &str, session_id: &Option<String>) -> (r: ChatOutput)
    ensures
        ({
            let (visible, thought, has) = strip_think(text@);
            &&& r.text@ == if trimmed(visible).len() == 0 && trimmed(text@).len() > 0 {
                text@
            } else {
                visible
            }
            &&& r.thought is Some == has
            &&& r.thought is Some ==> r.thought->Some_0@ == thought
            &&& r.think_event is Some <==> (has && session_id is Some)
            &&& r.think_event is Some ==> {
                let e = r.think_event->Some_0;
                &&& e.source@ == "llm"@
                &&& e.target@ == "default"@
                &&& e.session_id is Some && e.session_id->Some_0@ == session_id->Some_0@
                &&& field(e.content, "type"@) is Some && field(e.content, "type"@)->Some_0 is Str
                &&& field(e.content, "type"@)->Some_0->Str_0@ == "think"@
                &&& field(e.content, "content"@) is Some && field(e.content, "content"@)->Some_0 is Str
                &&& field(e.content, "content"@)->Some_0->Str_0@ == thought
            }
        }),
{
    let (visible, thought) = remove_think_tags(text);
    let blank = trim_chars(&chars_of(visible.as_str())).len() == 0;
    let reply_blank = trim_chars(&chars_of(text)).len() == 0;
    let shown = if blank && !reply_blank {
        text.to_string()
    } else {
        visible
    };
    let think_event = match (&thought, session_id) {
        (Some(t), Some(sid)) => {
            let ty = "type".to_string();
            let ct = "content".to_string();
            let content = Json::Object(vec![(ty, Json::Str("think".to_string())), (ct, Json::Str(t.clone()))]);
            proof {
                reveal_strlit("type");
                reveal_strlit("content");
                assert(content->Object_0@[0].0@ == "type"@);
                assert(content->Object_0@[1].0@ == "content"@);
                assert(content->Object_0@[0].0@ != "content"@);
                assert(first_key_from(content->Object_0@, "content"@, 1) == 1);
                assert(first_key_from(content->Object_0@, "content"@, 0) == 1);
            }
            Some(
                OutputEvent {
                    target: "default".to_string(),
                    source: "llm".to_string(),
                    session_id: Some(sid.clone()),
                    content,
                    style: "neutral".to_string(),
                },
            )
        },
        _ => None,
    };
    ChatOutput { text: shown, thought, think_event }
}

} // verus!

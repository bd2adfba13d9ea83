//! What the chat stream makes of each JSON payload, and the names of the
//! daemon's own domain events. The fields of a payload are read by the caller
//! and handed in as plain values.
use vstd::prelude::*;
use vstd::string::StringSliceAdditionalSpecFns;
use crate::bytes::same_bytes;

verus! {

/// `serde_json::Value`, carried through unread: the tool use of a chat payload.
#[verifier::external_type_specification]
#[verifier::external_body]
pub struct ExValue(serde_json::Value);

/// Token counts of a completed chat answer.
#[derive(Clone, Copy, PartialEq, Eq, Structural, Debug)]
pub struct Usage {
    pub prompt_tokens: Option<u32>,
    pub completion_tokens: Option<u32>,
}

/// `a`, else `b`, cut to its low 32 bits as `as u32` does.
pub open spec fn first_count(a: Option<u64>, b: Option<u64>) -> Option<u32> {
    match a {
        Some(v) => Some(v as u32),
        None => match b {
            Some(v) => Some(v as u32),
            None => None,
        },
    }
}

fn first_count_exec(a: Option<u64>, b: Option<u64>) -> (r: Option<u32>)
    ensures
        r == first_count(a, b),
{
    match a {
        Some(v) => Some(v as u32),
        None => match b {
            Some(v) => Some(v as u32),
            None => None,
        },
    }
}

/// The usage of a payload: `usage.prompt_tokens`, else `prompt_eval_count`;
/// `usage.completion_tokens`, else `eval_count`; none where both are absent.
pub fn usage_of(
    usage_prompt_tokens: Option<u64>,
    prompt_eval_count: Option<u64>,
    usage_completion_tokens: Option<u64>,
    eval_count: Option<u64>,
) -> (r: Option<Usage>)
    ensures
        ({
            let p = first_count(usage_prompt_tokens, prompt_eval_count);
            let c = first_count(usage_completion_tokens, eval_count);
            &&& (p is None && c is None) ==> r is None
            &&& (p is Some || c is Some) ==> r == Some(Usage { prompt_tokens: p, completion_tokens: c })
        }),
{
    let p = first_count_exec(usage_prompt_tokens, prompt_eval_count);
    let c = first_count_exec(usage_completion_tokens, eval_count);
    if p.is_some() || c.is_some() {
        Some(Usage { prompt_tokens: p, completion_tokens: c })
    } else {
        None
    }
}

/// One piece of a chat answer as the UI receives it.
pub struct StreamChunk {
    pub content: String,
    pub done: bool,
    pub model: Option<String>,
    pub usage: Option<Usage>,
    pub tool_use: Option<serde_json::Value>,
    pub error: Option<String>,
}

/// What a chat payload gives: the chunk, whether it goes to the done channel
/// (otherwise the chunk channel), and whether the stream ends with it.
pub struct ChatStep {
    pub chunk: StreamChunk,
    pub to_done: bool,
    pub ends: bool,
}

pub open spec fn str_opt_view(o: Option<String>) -> Option<Seq<char>> {
    match o {
        Some(s) => Some(s@),
        None => None,
    }
}

/// A chat payload with fields `error`, `content`, `done`, `model`, `tool_use`
/// (each where it is present with the right type) and its usage. A payload
/// with an error ends the stream on the done channel with that error; any
/// other gives its content (empty where absent), its model (where not empty),
/// its tool use, and its usage where it is done, on the done channel where it
/// is done and the chunk channel otherwise.
pub fn chat_step(
    error: Option<String>,
    content: Option<String>,
    done: Option<bool>,
    model: Option<String>,
    tool_use: Option<serde_json::Value>,
    usage: Option<Usage>,
) -> (r: ChatStep)
    ensures
        error matches Some(e) ==> (r.to_done && r.ends && r.chunk.done && r.chunk.content@.len() == 0
            && r.chunk.model is None && r.chunk.usage is None && r.chunk.tool_use is None
            && str_opt_view(r.chunk.error) == Some(e@)),
        error is None ==> ({
            let d = match done {
                Some(b) => b,
                None => false,
            };
            &&& r.chunk.done == d
            &&& r.to_done == d
            &&& r.ends == d
            &&& r.chunk.content@ == match content {
                Some(c) => c@,
                None => Seq::<char>::empty(),
            }
            &&& str_opt_view(r.chunk.model) == match model {
                Some(m) => if m@.len() > 0 {
                    Some(m@)
                } else {
                    None
                },
                None => None,
            }
            &&& r.chunk.usage == if d {
                usage
            } else {
                None
            }
            &&& r.chunk.tool_use == tool_use
            &&& r.chunk.error is None
        }),
{
    match error {
        Some(e) => ChatStep {
            chunk: StreamChunk {
                content: String::new(),
                done: true,
                model: None,
                usage: None,
                tool_use: None,
                error: Some(e),
            },
            to_done: true,
            ends: true,
        },
        None => {
            let d = match done {
                Some(b) => b,
                None => false,
            };
            let c = match content {
                Some(c) => c,
                None => String::new(),
            };
            let m = match model {
                Some(m) => if m.as_str().unicode_len() > 0 {
                    Some(m)
                } else {
                    None
                },
                None => None,
            };
            ChatStep {
                chunk: StreamChunk {
                    content: c,
                    done: d,
                    model: m,
                    usage: if d {
                        usage
                    } else {
                        None
                    },
                    tool_use,
                    error: None,
                },
                to_done: d,
                ends: d,
            }
        },
    }
}

/// The event name under which the UI receives a daemon domain event, for the
/// three event types it knows; other types are not forwarded.
pub open spec fn daemon_event(event_type: Seq<u8>) -> Option<Seq<char>> {
    if event_type == "realm_join_status".spec_bytes() {
        Some("daemon-realm-join-status"@)
    } else if event_type == "identity_changed".spec_bytes() {
        Some("daemon-identity-changed"@)
    } else if event_type == "settings_changed".spec_bytes() {
        Some("daemon-settings-changed"@)
    } else {
        None
    }
}

pub fn daemon_event_name(event_type: &[u8]) -> (r: Option<String>)
    ensures
        str_opt_view(r) == daemon_event(event_type@),
{
    if same_bytes(event_type, "realm_join_status".as_bytes()) {
        Some(String::from_str("daemon-realm-join-status"))
    } else if same_bytes(event_type, "identity_changed".as_bytes()) {
        Some(String::from_str("daemon-identity-changed"))
    } else if same_bytes(event_type, "settings_changed".as_bytes()) {
        Some(String::from_str("daemon-settings-changed"))
    } else {
        None
    }
}

} // verus!

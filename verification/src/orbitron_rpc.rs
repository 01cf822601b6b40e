//! What the Orbitron pane is told of the agent's RPC lines, and what the host answers.
//! The app reads each frame off the child's stdout and carries out the actions decided
//! here: writing a reply line, noting the agent's status, emitting an event to the pane,
//! and recording the session file.
use vstd::prelude::*;
use crate::json::{bool_field, field, str_field, str_field_exec, str_field_or_empty, str_field_or_empty_exec, take_field, Json};
use crate::orbitron_agent::{sanitize_text, sanitized};
use crate::text::{owned, str_eq};

verus! {

/// What the agent is doing, as the pane shows it.
#[derive(Clone, Copy, PartialEq, Eq, Structural)]
pub enum AgentStatus {
    Idle,
    Thinking,
    UpdatingBoard,
    Compacting,
}

/// An event for the pane.
pub enum AgentEvent {
    Ready,
    Status(AgentStatus),
    /// Assistant text; `done` starts a new bubble.
    Message { role: String, text: String, done: bool },
    /// A board tool the agent called, with its arguments.
    HostToolCall { id: String, tool_call_id: String, tool_name: String, arguments: Json },
    Error { message: String },
    Exited,
}

pub open spec fn in_flight() -> Seq<char> {
    "Another board change is waiting."@
}

pub open spec fn xai_signin() -> Seq<char> {
    "Couldn't sign in to xAI. Check the API key."@
}

pub open spec fn send_failed() -> Seq<char> {
    "The agent didn't take that message. Check the Orbitron log."@
}

/// What a line means for the pane, by its views: a status, or assistant text.
pub enum EventView {
    Status(AgentStatus),
    Text(Seq<char>, bool),
}

pub open spec fn key_view(key: Option<&str>) -> Option<Seq<char>> {
    match key {
        Some(k) => Some(k@),
        None => None,
    }
}

/// Assistant text arrives as `assistantMessageEvent` deltas interleaved with reasoning;
/// only `text_start` (an empty text that starts a bubble) and `text_delta` are shown.
pub open spec fn assistant_text_spec(line: Json, key: Option<Seq<char>>) -> Option<EventView> {
    match field(line, "assistantMessageEvent"@) {
        None => None,
        Some(ev) => {
            let kind = str_field_or_empty(ev, "type"@);
            if kind == "text_start"@ {
                Some(EventView::Text(sanitized(seq![], key), true))
            } else if kind == "text_delta"@ {
                Some(EventView::Text(sanitized(str_field_or_empty(ev, "delta"@), key), false))
            } else {
                None
            }
        },
    }
}

/// The pane's reading of an RPC line. An `agent_end` that says it is not terminal keeps
/// the turn going; a call of the read-only `board_get` changes nothing on screen.
pub open spec fn rpc_event_spec(line: Json, key: Option<Seq<char>>) -> Option<EventView> {
    let kind = str_field_or_empty(line, "type"@);
    if kind == "auto_compaction_start"@ {
        Some(EventView::Status(AgentStatus::Compacting))
    } else if kind == "agent_end"@ && bool_field(line, "isTerminal"@) == Some(false) {
        None
    } else if kind == "auto_compaction_end"@ || kind == "agent_end"@ {
        Some(EventView::Status(AgentStatus::Idle))
    } else if kind == "agent_start"@ {
        Some(EventView::Status(AgentStatus::Thinking))
    } else if kind == "host_tool_call"@ {
        if str_field_or_empty(line, "toolName"@) == "board_get"@ {
            None
        } else {
            Some(EventView::Status(AgentStatus::UpdatingBoard))
        }
    } else if kind == "message_update"@ {
        assistant_text_spec(line, key)
    } else {
        None
    }
}

/// The view of an event that `map_rpc_event` can give.
pub open spec fn event_is(e: AgentEvent, v: EventView) -> bool {
    match v {
        EventView::Status(s) => e == AgentEvent::Status(s),
        EventView::Text(t, done) => e matches AgentEvent::Message { role, text, done: d } && role@ == "assistant"@
            && text@ == t && d == done,
    }
}

fn assistant_text(line: &Json, key: Option<&str>) -> (r: Option<AgentEvent>)
    ensures
        match assistant_text_spec(*line, key_view(key)) {
            Some(v) => r matches Some(e) && event_is(e, v),
            None => r is None,
        },
{
    let ev = match line.get("assistantMessageEvent") {
        Some(ev) => ev,
        None => {
            return None;
        },
    };
    let kind = str_field_or_empty_exec(ev, "type");
    proof {
        reveal_strlit("");
        assert(""@ =~= Seq::<char>::empty());
    }
    if str_eq(kind.as_str(), "text_start") {
        Some(AgentEvent::Message { role: owned("assistant"), text: sanitize_text("", key), done: true })
    } else if str_eq(kind.as_str(), "text_delta") {
        let delta = str_field_or_empty_exec(ev, "delta");
        Some(AgentEvent::Message { role: owned("assistant"), text: sanitize_text(delta.as_str(), key), done: false })
    } else {
        None
    }
}

/// What an RPC line tells the pane; see [`rpc_event_spec`].
pub fn map_rpc_event(line: &Json, key: Option<&str>) -> (r: Option<AgentEvent>)
    ensures
        match rpc_event_spec(*line, key_view(key)) {
            Some(v) => r matches Some(e) && event_is(e, v),
            None => r is None,
        },
{
    let kind = str_field_or_empty_exec(line, "type");
    let k = kind.as_str();
    if str_eq(k, "auto_compaction_start") {
        Some(AgentEvent::Status(AgentStatus::Compacting))
    } else if str_eq(k, "agent_end") && crate::json::bool_field_exec(line, "isTerminal") == Some(false) {
        None
    } else if str_eq(k, "auto_compaction_end") || str_eq(k, "agent_end") {
        Some(AgentEvent::Status(AgentStatus::Idle))
    } else if str_eq(k, "agent_start") {
        Some(AgentEvent::Status(AgentStatus::Thinking))
    } else if str_eq(k, "host_tool_call") {
        let name = str_field_or_empty_exec(line, "toolName");
        if str_eq(name.as_str(), "board_get") {
            None
        } else {
            Some(AgentEvent::Status(AgentStatus::UpdatingBoard))
        }
    } else if str_eq(k, "message_update") {
        assistant_text(line, key)
    } else {
        None
    }
}

/// What the host does with one frame from the agent.
pub enum FrameAction {
    /// Answer extension UI request `id` as dismissed.
    CancelUi(String),
    /// Answer host tool call `id` with an error result carrying this text.
    RefuseCall(String, String),
    /// Record the agent's status (streaming, compacting).
    Note(AgentStatus),
    Emit(AgentEvent),
    /// The agent's session file, to be recorded as the pointer to it.
    SessionPointer(String),
}

/// The frame's decision: the actions in order, and the board change now held.
pub struct FrameOutcome {
    pub actions: Vec<FrameAction>,
    pub pending: Option<String>,
}

pub open spec fn opt_view(s: Option<String>) -> Option<Seq<char>> {
    match s {
        Some(t) => Some(t@),
        None => None,
    }
}

/// The actions for an event the pane is sent: a status is noted before it is emitted.
pub open spec fn emits(actions: Seq<FrameAction>, v: EventView) -> bool {
    match v {
        EventView::Status(s) => {
            &&& actions.len() == 2
            &&& actions[0] == FrameAction::Note(s)
            &&& actions[1] matches FrameAction::Emit(e) && event_is(e, v)
        },
        EventView::Text(_, _) => {
            &&& actions.len() == 1
            &&& actions[0] matches FrameAction::Emit(e) && event_is(e, v)
        },
    }
}

fn push_event(actions: &mut Vec<FrameAction>, e: Option<AgentEvent>)
    ensures
        match e {
            None => final(actions)@ == old(actions)@,
            Some(AgentEvent::Status(s)) => final(actions)@ == old(actions)@.push(FrameAction::Note(s)).push(
                FrameAction::Emit(AgentEvent::Status(s)),
            ),
            Some(ev) => final(actions)@ == old(actions)@.push(FrameAction::Emit(ev)),
        },
{
    match e {
        None => {},
        Some(AgentEvent::Status(s)) => {
            actions.push(FrameAction::Note(s));
            actions.push(FrameAction::Emit(AgentEvent::Status(s)));
        },
        Some(ev) => {
            actions.push(FrameAction::Emit(ev));
        },
    }
}

/// One frame from the agent. An extension UI request is dismissed (nothing here renders
/// one, and an unanswered one stalls the turn). A board change is held while the human
/// decides, and a second one meanwhile is refused rather than taking its place; a
/// cancelled call is let go. A rejected key or message is reported; the session file is
/// recorded; anything else is shown as [`map_rpc_event`] reads it.
pub fn handle_frame(frame: Json, pending: Option<String>, key: Option<&str>) -> (r: FrameOutcome)
    ensures
        ({
            let kind = str_field_or_empty(frame, "type"@);
            if kind == "extension_ui_request"@ {
                &&& opt_view(r.pending) == opt_view(pending)
                &&& match str_field(frame, "id"@) {
                    Some(id) => {
                        &&& r.actions@.len() == 1
                        &&& r.actions@[0] matches FrameAction::CancelUi(i) && i@ == id
                    },
                    None => r.actions@.len() == 0,
                }
            } else if kind == "host_tool_call"@ {
                let id = str_field_or_empty(frame, "id"@);
                let name = str_field_or_empty(frame, "toolName"@);
                let mutating = name != "board_get"@;
                if mutating && pending is Some {
                    &&& opt_view(r.pending) == opt_view(pending)
                    &&& r.actions@.len() == 1
                    &&& r.actions@[0] matches FrameAction::RefuseCall(i, m) && i@ == id && m@ == in_flight()
                } else {
                    &&& opt_view(r.pending) == if mutating {
                        Some(id)
                    } else {
                        opt_view(pending)
                    }
                    &&& r.actions@.len() >= 1
                    &&& r.actions@.last() matches FrameAction::Emit(AgentEvent::HostToolCall {
                        id: i,
                        tool_call_id,
                        tool_name,
                        arguments,
                    }) && i@ == id && tool_call_id@ == str_field_or_empty(frame, "toolCallId"@) && tool_name@ == name
                        && match field(frame, "arguments"@) {
                        Some(a) => arguments == a,
                        None => arguments matches Json::Object(m) && m@.len() == 0,
                    }
                    &&& match rpc_event_spec(frame, key_view(key)) {
                        Some(v) => emits(r.actions@.drop_last(), v),
                        None => r.actions@.len() == 1,
                    }
                }
            } else if kind == "host_tool_cancel"@ {
                &&& r.actions@.len() == 0
                &&& opt_view(r.pending) == if opt_view(pending) == Some(str_field_or_empty(frame, "targetId"@)) {
                    None
                } else {
                    opt_view(pending)
                }
            } else if kind == "response"@ {
                let command = str_field_or_empty(frame, "command"@);
                let ok = bool_field(frame, "success"@) == Some(true);
                &&& opt_view(r.pending) == opt_view(pending)
                &&& if command == "set_model"@ && !ok {
                    &&& r.actions@.len() == 1
                    &&& r.actions@[0] matches FrameAction::Emit(AgentEvent::Error { message }) && message@
                        == xai_signin()
                } else if command == "prompt"@ && !ok {
                    &&& r.actions@.len() == 3
                    &&& r.actions@[0] == FrameAction::Note(AgentStatus::Idle)
                    &&& r.actions@[1] matches FrameAction::Emit(AgentEvent::Error { message }) && message@
                        == send_failed()
                    &&& r.actions@[2] matches FrameAction::Emit(AgentEvent::Status(AgentStatus::Idle))
                } else if command == "get_state"@ && ok {
                    match (match field(frame, "data"@) {
                        Some(d) => str_field(d, "sessionFile"@),
                        None => None,
                    }) {
                        Some(file) => {
                            &&& r.actions@.len() == 1
                            &&& r.actions@[0] matches FrameAction::SessionPointer(f) && f@ == file
                        },
                        None => r.actions@.len() == 0,
                    }
                } else {
                    r.actions@.len() == 0
                }
            } else {
                &&& opt_view(r.pending) == opt_view(pending)
                &&& match rpc_event_spec(frame, key_view(key)) {
                    Some(v) => emits(r.actions@, v),
                    None => r.actions@.len() == 0,
                }
            }
        }),
{
    let mut actions: Vec<FrameAction> = Vec::new();
    let kind = str_field_or_empty_exec(&frame, "type");
    let k = kind.as_str();
    if str_eq(k, "extension_ui_request") {
        match str_field_exec(&frame, "id") {
            Some(id) => {
                actions.push(FrameAction::CancelUi(id));
            },
            None => {},
        }
        return FrameOutcome { actions, pending };
    }
    if str_eq(k, "host_tool_call") {
        let id = str_field_or_empty_exec(&frame, "id");
        let tool_name = str_field_or_empty_exec(&frame, "toolName");
        let tool_call_id = str_field_or_empty_exec(&frame, "toolCallId");
        let mutating = !str_eq(tool_name.as_str(), "board_get");
        if mutating && pending.is_some() {
            actions.push(FrameAction::RefuseCall(id, owned("Another board change is waiting.")));
            return FrameOutcome { actions, pending };
        }
        let next_pending = if mutating {
            Some(owned(id.as_str()))
        } else {
            pending
        };
        let event = map_rpc_event(&frame, key);
        push_event(&mut actions, event);
        let ghost before = actions@;
        let arguments = match take_field(frame, "arguments") {
            Some(a) => a,
            None => Json::Object(Vec::new()),
        };
        actions.push(FrameAction::Emit(AgentEvent::HostToolCall { id, tool_call_id, tool_name, arguments }));
        assert(actions@.drop_last() =~= before);
        return FrameOutcome { actions, pending: next_pending };
    }
    if str_eq(k, "host_tool_cancel") {
        let target = str_field_or_empty_exec(&frame, "targetId");
        let next = match pending {
            Some(p) => if str_eq(p.as_str(), target.as_str()) {
                None
            } else {
                Some(p)
            },
            None => None,
        };
        return FrameOutcome { actions, pending: next };
    }
    if str_eq(k, "response") {
        let command = str_field_or_empty_exec(&frame, "command");
        let ok = crate::json::bool_field_exec(&frame, "success") == Some(true);
        if str_eq(command.as_str(), "set_model") && !ok {
            actions.push(FrameAction::Emit(AgentEvent::Error { message: owned("Couldn't sign in to xAI. Check the API key.") }));
        } else if str_eq(command.as_str(), "prompt") && !ok {
            actions.push(FrameAction::Note(AgentStatus::Idle));
            actions.push(
                FrameAction::Emit(
                    AgentEvent::Error { message: owned("The agent didn't take that message. Check the Orbitron log.") },
                ),
            );
            actions.push(FrameAction::Emit(AgentEvent::Status(AgentStatus::Idle)));
        } else if str_eq(command.as_str(), "get_state") && ok {
            let file = match frame.get("data") {
                Some(d) => str_field_exec(d, "sessionFile"),
                None => None,
            };
            match file {
                Some(f) => {
                    actions.push(FrameAction::SessionPointer(f));
                },
                None => {},
            }
        }
        return FrameOutcome { actions, pending };
    }
    let event = map_rpc_event(&frame, key);
    push_event(&mut actions, event);
    FrameOutcome { actions, pending }
}

/// A JSON string with this text.
pub open spec fn is_text(j: Json, s: Seq<char>) -> bool {
    j matches Json::Str(t) && t@ == s
}

fn text(s: &str) -> (r: Json)
    ensures
        is_text(r, s@),
{
    Json::Str(owned(s))
}

/// `{"type": "extension_ui_response", "id": id, "cancelled": true}`: a UI request
/// answered as dismissed.
pub fn cancel_extension_ui(id: &str) -> (r: Json)
    ensures
        r matches Json::Object(m) && m@.len() == 3 && m@[0].0@ == "type"@ && is_text(m@[0].1, "extension_ui_response"@)
            && m@[1].0@ == "id"@ && is_text(m@[1].1, id@) && m@[2].0@ == "cancelled"@ && m@[2].1 == Json::Bool(true),
{
    let mut m: Vec<(String, Json)> = Vec::new();
    m.push((owned("type"), text("extension_ui_response")));
    m.push((owned("id"), text(id)));
    m.push((owned("cancelled"), Json::Bool(true)));
    Json::Object(m)
}

/// The text a tool result carries: a string as it is; anything else as its JSON text
/// (`serialized`).
pub fn host_tool_result_text(result: &Json, serialized: String) -> (r: String)
    ensures
        match result {
            Json::Str(s) => r@ == s@,
            _ => r@ == serialized@,
        },
{
    match result {
        Json::Str(s) => owned(s.as_str()),
        _ => serialized,
    }
}

/// `{"type": "host_tool_result", "id": id, "result": {"content": [{"type": "text",
/// "text": text}]}}`, with `"isError": true` for an error.
pub fn host_tool_result_line(id: &str, result_text: String, is_error: bool) -> (r: Json)
    ensures
        r matches Json::Object(m) && m@.len() == (if is_error {
            4int
        } else {
            3int
        }) && m@[0].0@ == "type"@ && is_text(m@[0].1, "host_tool_result"@) && m@[1].0@ == "id"@ && is_text(
            m@[1].1,
            id@,
        ) && m@[2].0@ == "result"@ && (m@[2].1 matches Json::Object(res) && res@.len() == 1 && res@[0].0@
            == "content"@ && (res@[0].1 matches Json::Array(items) && items@.len() == 1 && (items@[0] matches Json::Object(
            c,
        ) && c@.len() == 2 && c@[0].0@ == "type"@ && is_text(c@[0].1, "text"@) && c@[1].0@ == "text"@ && is_text(
            c@[1].1,
            result_text@,
        )))) && (is_error ==> m@[3].0@ == "isError"@ && m@[3].1 == Json::Bool(true)),
{
    let mut item: Vec<(String, Json)> = Vec::new();
    let ghost t = result_text@;
    item.push((owned("type"), text("text")));
    item.push((owned("text"), Json::Str(result_text)));
    let mut items: Vec<Json> = Vec::new();
    items.push(Json::Object(item));
    let mut res: Vec<(String, Json)> = Vec::new();
    res.push((owned("content"), Json::Array(items)));
    let mut m: Vec<(String, Json)> = Vec::new();
    m.push((owned("type"), text("host_tool_result")));
    m.push((owned("id"), text(id)));
    m.push((owned("result"), Json::Object(res)));
    if is_error {
        m.push((owned("isError"), Json::Bool(true)));
    }
    Json::Object(m)
}

/// `{"type": "prompt", "message": text}`, with `"streamingBehavior"` when given.
pub fn prompt_request(message: &str, streaming_behavior: Option<&str>) -> (r: Json)
    ensures
        r matches Json::Object(m) && m@.len() == (if streaming_behavior is Some {
            3int
        } else {
            2int
        }) && m@[0].0@ == "type"@ && is_text(m@[0].1, "prompt"@) && m@[1].0@ == "message"@ && is_text(
            m@[1].1,
            message@,
        ) && (streaming_behavior matches Some(b) ==> m@[2].0@ == "streamingBehavior"@ && is_text(m@[2].1, b@)),
{
    let mut m: Vec<(String, Json)> = Vec::new();
    m.push((owned("type"), text("prompt")));
    m.push((owned("message"), text(message)));
    match streaming_behavior {
        Some(b) => {
            m.push((owned("streamingBehavior"), text(b)));
        },
        None => {},
    }
    Json::Object(m)
}

/// `{"type": "get_state"}`: asks for the session file.
pub fn get_state_request() -> (r: Json)
    ensures
        r matches Json::Object(m) && m@.len() == 1 && m@[0].0@ == "type"@ && is_text(m@[0].1, "get_state"@),
{
    let mut m: Vec<(String, Json)> = Vec::new();
    m.push((owned("type"), text("get_state")));
    Json::Object(m)
}

/// `{"type": "negotiate_protocol", "protocolVersion": 2}`.
pub fn bootstrap_negotiate() -> (r: Json)
    ensures
        r matches Json::Object(m) && m@.len() == 2 && m@[0].0@ == "type"@ && is_text(m@[0].1, "negotiate_protocol"@)
            && m@[1].0@ == "protocolVersion"@ && m@[1].1 == Json::Number(Some(2)),
{
    let mut m: Vec<(String, Json)> = Vec::new();
    m.push((owned("type"), text("negotiate_protocol")));
    m.push((owned("protocolVersion"), Json::Number(Some(2))));
    Json::Object(m)
}

/// `{"type": "set_model", "provider": "xai", "modelId": "grok-4.6"}`.
pub fn bootstrap_set_model() -> (r: Json)
    ensures
        r matches Json::Object(m) && m@.len() == 3 && m@[0].0@ == "type"@ && is_text(m@[0].1, "set_model"@) && m@[1].0@
            == "provider"@ && is_text(m@[1].1, "xai"@) && m@[2].0@ == "modelId"@ && is_text(m@[2].1, "grok-4.6"@),
{
    let mut m: Vec<(String, Json)> = Vec::new();
    m.push((owned("type"), text("set_model")));
    m.push((owned("provider"), text("xai")));
    m.push((owned("modelId"), text("grok-4.6")));
    Json::Object(m)
}

} // verus!

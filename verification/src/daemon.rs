//! The daemon behind the request/reply pipe: how the persistent agent is
//! started, how turns are serialized on its single stream, and how its events
//! become replies.

use crate::json;
use crate::json::quote;
use crate::protocol;
use crate::protocol::{Response, State};
use crate::text;
use crate::text::{copy_opt, push_text};
use vstd::prelude::*;
use vstd::string::*;

verus! {

/// The system prompt of lean mode where the consumer gives none.
pub open spec fn default_lean_system() -> Seq<char> {
    "You are a fast assistant invoked over a pipe. Answer directly and concisely. Output only the answer — no preamble, no markdown fences, no commentary."@
}

/// A flag with its value, if there is one.
pub open spec fn flagged(flag: Seq<char>, value: Option<Seq<char>>) -> Seq<Seq<char>> {
    match value {
        Some(v) => seq![flag, v],
        None => Seq::empty(),
    }
}

/// The arguments that make the agent a long-lived stream of JSON lines.
pub open spec fn stream_args() -> Seq<Seq<char>> {
    seq![
        "-p"@,
        "--verbose"@,
        "--input-format"@,
        "stream-json"@,
        "--output-format"@,
        "stream-json"@,
    ]
}

/// The arguments that strip the agent of everything a turn does not need.
pub open spec fn lean_args(system: Option<Seq<char>>) -> Seq<Seq<char>> {
    seq![
        "--system-prompt"@,
        match system {
            Some(s) => s,
            None => default_lean_system(),
        },
        "--tools"@,
        ""@,
        "--strict-mcp-config"@,
        "--setting-sources"@,
        ""@,
        "--exclude-dynamic-system-prompt-sections"@,
        "--permission-mode"@,
        "default"@,
    ]
}

/// The arguments of the agent. In full mode the consumer's system prompt is
/// appended to the agent's own; in lean mode it replaces it.
pub open spec fn tool_arg_texts(
    model: Option<Seq<char>>,
    system: Option<Seq<char>>,
    resume: Option<Seq<char>>,
    full: bool,
) -> Seq<Seq<char>> {
    stream_args() + flagged("--model"@, model) + (if full {
        flagged("--append-system-prompt"@, system)
    } else {
        lean_args(system)
    }) + flagged("--resume"@, resume)
}

fn push_flagged(v: &mut Vec<String>, flag: &str, value: &Option<String>)
    ensures
        text::texts(final(v)@) == text::texts(old(v)@) + flagged(flag@, text::opt_text(*value)),
{
    if let Some(x) = value {
        push_text(v, flag);
        push_text(v, x.as_str());
    }
    assert(text::texts(v@) =~= text::texts(old(v)@) + flagged(flag@, text::opt_text(*value)));
}

/// The arguments with which the persistent agent is started.
pub fn tool_args(
    model: &Option<String>,
    system: &Option<String>,
    resume: &Option<String>,
    full: bool,
) -> (r: Vec<String>)
    ensures
        text::texts(r@) == tool_arg_texts(
            text::opt_text(*model),
            text::opt_text(*system),
            text::opt_text(*resume),
            full,
        ),
{
    let mut v: Vec<String> = Vec::new();
    assert(text::texts(v@) =~= Seq::empty());
    push_text(&mut v, "-p");
    push_text(&mut v, "--verbose");
    push_text(&mut v, "--input-format");
    push_text(&mut v, "stream-json");
    push_text(&mut v, "--output-format");
    push_text(&mut v, "stream-json");
    assert(text::texts(v@) =~= stream_args());
    push_flagged(&mut v, "--model", model);
    if full {
        push_flagged(&mut v, "--append-system-prompt", system);
    } else {
        let ghost before = text::texts(v@);
        push_text(&mut v, "--system-prompt");
        match system {
            Some(s) => push_text(&mut v, s.as_str()),
            None => push_text(
                &mut v,
                "You are a fast assistant invoked over a pipe. Answer directly and concisely. Output only the answer — no preamble, no markdown fences, no commentary.",
            ),
        }
        push_text(&mut v, "--tools");
        push_text(&mut v, "");
        push_text(&mut v, "--strict-mcp-config");
        push_text(&mut v, "--setting-sources");
        push_text(&mut v, "");
        push_text(&mut v, "--exclude-dynamic-system-prompt-sections");
        push_text(&mut v, "--permission-mode");
        push_text(&mut v, "default");
        assert(text::texts(v@) =~= before + lean_args(text::opt_text(*system)));
    }
    push_flagged(&mut v, "--resume", resume);
    v
}

/// The arguments with which the program starts itself in the background.
pub open spec fn background_args(
    session: Seq<char>,
    model: Option<Seq<char>>,
    system: Option<Seq<char>>,
    resume: Option<Seq<char>>,
    full: bool,
) -> Seq<Seq<char>> {
    seq!["up"@, "--session"@, session] + flagged("--model"@, model) + flagged("--system"@, system)
        + flagged("--resume"@, resume) + (if full {
        seq!["--full"@]
    } else {
        Seq::empty()
    })
}

/// The arguments with which `up --detach` starts the daemon in the background:
/// the same call without `--detach`.
pub fn detached_up_args(
    session: &str,
    model: &Option<String>,
    system: &Option<String>,
    resume: &Option<String>,
    full: bool,
) -> (r: Vec<String>)
    ensures
        text::texts(r@) == background_args(
            session@,
            text::opt_text(*model),
            text::opt_text(*system),
            text::opt_text(*resume),
            full,
        ),
{
    let mut v: Vec<String> = Vec::new();
    push_text(&mut v, "up");
    push_text(&mut v, "--session");
    push_text(&mut v, session);
    assert(text::texts(v@) =~= seq!["up"@, "--session"@, session@]);
    push_flagged(&mut v, "--model", model);
    push_flagged(&mut v, "--system", system);
    push_flagged(&mut v, "--resume", resume);
    let ghost before = text::texts(v@);
    if full {
        push_text(&mut v, "--full");
    }
    assert(text::texts(v@) =~= before + (if full {
        seq!["--full"@]
    } else {
        Seq::empty()
    }));
    v
}

/// What to do about the socket of a session that is to be started.
#[derive(Debug, Clone, Copy, PartialEq, Eq, Structural)]
pub enum SocketClaim {
    /// Another daemon listens on it.
    Refuse,
    /// It is left over from a daemon that is gone.
    RemoveStale,
    /// There is none.
    Fresh,
}

/// What to do about the socket of a session.
pub open spec fn socket_claim(present: bool, live: bool) -> SocketClaim {
    if !present {
        SocketClaim::Fresh
    } else if live {
        SocketClaim::Refuse
    } else {
        SocketClaim::RemoveStale
    }
}

/// Decides what to do about the socket of a session, given whether the file is
/// there and whether it accepts connections.
pub fn claim_socket(present: bool, live: bool) -> (r: SocketClaim)
    ensures
        r == socket_claim(present, live),
{
    if !present {
        SocketClaim::Fresh
    } else if live {
        SocketClaim::Refuse
    } else {
        SocketClaim::RemoveStale
    }
}

/// Why a session cannot be started twice.
pub fn already_running(session: &str, socket: &str) -> (r: String)
    ensures
        r@ == "session '"@ + session@ + "' already running (socket "@ + socket@ + " is live)"@,
{
    let mut out: String = "session '".to_owned();
    out.append(session);
    out.append("' already running (socket ");
    out.append(socket);
    out.append(" is live)");
    out
}

/// The state of a session whose agent has not said anything yet.
pub open spec fn state_at_start(pid: u32, model: Option<Seq<char>>) -> protocol::StateModel {
    protocol::StateModel { pid, session_id: None, model }
}

/// The state of a session whose agent has not said anything yet.
pub fn initial_state(pid: u32, model: &Option<String>) -> (r: State)
    ensures
        r@ == state_at_start(pid, text::opt_text(*model)),
{
    State { pid, session_id: None, model: copy_opt(model) }
}

/// The state with a new session id, over what was there.
pub open spec fn state_with_id(
    existing: Option<protocol::StateModel>,
    pid: u32,
    session_id: Seq<char>,
) -> protocol::StateModel {
    match existing {
        Some(s) => protocol::StateModel { session_id: Some(session_id), ..s },
        None => protocol::StateModel { pid, session_id: Some(session_id), model: None },
    }
}

/// The state with a new session id, over what was there; `pid` stands in where
/// nothing readable was.
pub fn merged_state(existing: Option<State>, pid: u32, session_id: &str) -> (r: State)
    ensures
        r@ == state_with_id(
            match existing {
                Some(s) => Some(s@),
                None => None,
            },
            pid,
            session_id@,
        ),
{
    match existing {
        Some(s) => State { pid: s.pid, session_id: Some(session_id.to_owned()), model: s.model },
        None => State { pid, session_id: Some(session_id.to_owned()), model: None },
    }
}

/// The line that hands a message to the agent.
pub open spec fn envelope(message: Seq<char>) -> Seq<char> {
    "{\"type\":\"user\",\"message\":{\"role\":\"user\",\"content\":"@ + json::json_string(message)
        + "}}\n"@
}

/// Builds the line that hands a message to the agent.
pub fn user_envelope(message: &str) -> (r: String)
    ensures
        r@ == envelope(message@),
{
    let mut out: String = "{\"type\":\"user\",\"message\":{\"role\":\"user\",\"content\":".to_owned();
    out.append(quote(message).as_str());
    out.append("}}\n");
    out
}

/// A message is handed over as exactly one line, whatever it holds: the only
/// line feed is the last character.
pub proof fn law_envelope_is_one_line(message: Seq<char>)
    ensures
        envelope(message).last() == '\n',
        forall|i: int| 0 <= i < envelope(message).len() - 1 ==> envelope(message)[i] != '\n',
{
    reveal_strlit("{\"type\":\"user\",\"message\":{\"role\":\"user\",\"content\":");
    reveal_strlit("}}\n");
    json::law_json_string_is_one_line(message);
    let head = "{\"type\":\"user\",\"message\":{\"role\":\"user\",\"content\":"@;
    let body = json::json_string(message);
    let e = envelope(message);
    assert forall|i: int| 0 <= i < e.len() - 1 implies e[i] != '\n' by {
        if i < head.len() {
            assert(e[i] == head[i]);
        } else if i < head.len() + body.len() {
            assert(e[i] == body[i - head.len()]);
        } else {
            assert(e[i] == "}}\n"@[i - head.len() - body.len()]);
        }
    }
}

/// What became of a line that a client sent.
pub enum Dispatch {
    /// The worker answered the request.
    Replied(Response),
    /// The line is not a request.
    BadRequest { error: String },
    /// The worker takes no more requests.
    WorkerGone,
    /// The worker stopped before it answered.
    ReplyDropped,
}

/// The reply that a client gets.
pub open spec fn dispatch_reply(d: Dispatch) -> protocol::ResponseModel {
    match d {
        Dispatch::Replied(resp) => resp@,
        Dispatch::BadRequest { error } => protocol::failure("bad request json: "@ + error@),
        Dispatch::WorkerGone => protocol::failure("daemon worker is gone"@),
        Dispatch::ReplyDropped => protocol::failure("worker dropped reply"@),
    }
}

/// The reply that a client gets.
pub fn conn_response(d: Dispatch) -> (r: Response)
    ensures
        r@ == dispatch_reply(d),
{
    match d {
        Dispatch::Replied(resp) => resp,
        Dispatch::BadRequest { error } => {
            let mut msg: String = "bad request json: ".to_owned();
            msg.append(error.as_str());
            Response::error(msg.as_str())
        },
        Dispatch::WorkerGone => Response::error("daemon worker is gone"),
        Dispatch::ReplyDropped => Response::error("worker dropped reply"),
    }
}

/// How long a program started in the background may take to accept
/// connections, in milliseconds.
pub const READY_WAIT_MS: u64 = 15_000;

/// How long to wait between two looks, in milliseconds.
pub const READY_POLL_MS: u64 = 100;

/// What to do about a program that was started in the background.
#[derive(Debug, Clone, Copy, PartialEq, Eq, Structural)]
pub enum Poll {
    /// It accepts connections.
    Ready,
    /// Look again after so many milliseconds.
    Wait(u64),
    /// It takes too long.
    GaveUp,
}

/// Until when a program that was started at `now` may take.
pub fn ready_deadline(now: u64) -> (r: u64)
    requires
        now + READY_WAIT_MS <= u64::MAX,
    ensures
        r == now + READY_WAIT_MS,
{
    now + READY_WAIT_MS
}

/// What to do about a program that was started in the background.
pub open spec fn readiness(connected: bool, now: u64, deadline: u64) -> Poll {
    if connected {
        Poll::Ready
    } else if now < deadline {
        Poll::Wait(READY_POLL_MS)
    } else {
        Poll::GaveUp
    }
}

/// Decides what to do about a program that was started in the background,
/// given whether it took a connection just now.
pub fn poll_ready(connected: bool, now: u64, deadline: u64) -> (r: Poll)
    ensures
        r == readiness(connected, now, deadline),
{
    if connected {
        Poll::Ready
    } else if now < deadline {
        Poll::Wait(READY_POLL_MS)
    } else {
        Poll::GaveUp
    }
}

} // verus!

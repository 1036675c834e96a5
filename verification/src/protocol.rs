//! The messages of the pipe and of the control plane, and the paths of the
//! runtime files.
//!
//! The data path has no message types here: it carries raw ACP bytes. The
//! request/reply pipe speaks [`Request`] and [`Response`]; the control plane,
//! on a socket of its own, speaks [`ControlRequest`] and [`ControlResponse`].

use crate::names;
use crate::names::program_name;
use crate::text;
use crate::text::{copy_opt, decimal, join_path};
use vstd::prelude::*;
use vstd::string::*;

verus! {

/// A message for the persistent agent.
#[derive(Debug)]
pub struct Request {
    pub text: String,
    pub timeout_ms: u64,
}

/// The timeout of a request that names none, in milliseconds.
pub fn default_timeout_ms() -> (r: u64)
    ensures
        r == 60_000,
{
    60_000
}

/// A [`Response`] as mathematical values.
pub struct ResponseModel {
    pub ok: bool,
    pub text: Seq<char>,
    pub session_id: Seq<char>,
    pub turn_ms: u64,
    pub error: Option<Seq<char>>,
}

/// The reply to a [`Request`].
#[derive(Debug)]
pub struct Response {
    pub ok: bool,
    pub text: String,
    pub session_id: String,
    pub turn_ms: u64,
    pub error: Option<String>,
}

impl View for Response {
    type V = ResponseModel;

    open spec fn view(&self) -> ResponseModel {
        ResponseModel {
            ok: self.ok,
            text: self.text@,
            session_id: self.session_id@,
            turn_ms: self.turn_ms,
            error: text::opt_text(self.error),
        }
    }
}

/// The reply that reports a failure.
pub open spec fn failure(msg: Seq<char>) -> ResponseModel {
    ResponseModel {
        ok: false,
        text: Seq::empty(),
        session_id: Seq::empty(),
        turn_ms: 0,
        error: Some(msg),
    }
}

impl Response {
    /// A failed reply that carries a message and nothing else.
    pub fn error(msg: &str) -> (r: Response)
        ensures
            r@ == failure(msg@),
    {
        Response {
            ok: false,
            text: String::new(),
            session_id: String::new(),
            turn_ms: 0,
            error: Some(msg.to_owned()),
        }
    }
}

/// The runtime directory: below the directory that the session's environment
/// names, or one of the user's own below `/tmp`.
pub open spec fn runtime_dir_of(tool: Seq<char>, xdg: Option<Seq<char>>, uid: u32) -> Seq<char> {
    match xdg {
        Some(x) if x.len() > 0 => text::joined(x, names::program(tool)),
        _ => "/tmp/"@ + names::program(tool) + "-"@ + text::decimal_text(uid as nat),
    }
}

/// The runtime directory of the pipe for a tool, given the value of
/// `XDG_RUNTIME_DIR` and the user id.
pub fn runtime_dir(tool: &str, xdg: Option<&str>, uid: u32) -> (r: String)
    ensures
        r@ == runtime_dir_of(
            tool@,
            match xdg {
                Some(x) => Some(x@),
                None => None,
            },
            uid,
        ),
{
    if let Some(x) = xdg {
        if !x.is_empty() {
            return join_path(x, program_name(tool).as_str());
        }
    }
    let mut out: String = "/tmp/".to_owned();
    out.append(program_name(tool).as_str());
    out.append("-");
    out.append(decimal(uid as u64).as_str());
    out
}

/// The file `stem` + `ending` in the runtime directory.
pub open spec fn runtime_file(dir: Seq<char>, stem: Seq<char>, ending: Seq<char>) -> Seq<char> {
    text::joined(dir, stem + ending)
}

fn file_in(dir: &str, stem: &str, ending: &str) -> (r: String)
    ensures
        r@ == runtime_file(dir@, stem@, ending@),
{
    let mut name: String = stem.to_owned();
    name.append(ending);
    join_path(dir, name.as_str())
}

/// The request/reply socket of a session.
pub open spec fn session_socket(dir: Seq<char>, session: Seq<char>) -> Seq<char> {
    runtime_file(dir, session, ".sock"@)
}

/// The state file of a session.
pub open spec fn session_state(dir: Seq<char>, session: Seq<char>) -> Seq<char> {
    runtime_file(dir, session, ".state.json"@)
}

/// The data socket of an agent.
pub open spec fn agent_socket(dir: Seq<char>, agent_id: Seq<char>) -> Seq<char> {
    runtime_file(dir, agent_id, ".acp.sock"@)
}

/// The control socket.
pub open spec fn control_socket(dir: Seq<char>) -> Seq<char> {
    text::joined(dir, "control.sock"@)
}

/// The state file of the supervisor.
pub open spec fn supervisor_state(dir: Seq<char>) -> Seq<char> {
    text::joined(dir, "supervisor.state.json"@)
}

/// The request/reply socket of a session.
pub fn socket_path(dir: &str, session: &str) -> (r: String)
    ensures
        r@ == session_socket(dir@, session@),
{
    file_in(dir, session, ".sock")
}

/// The state file of a session.
pub fn state_path(dir: &str, session: &str) -> (r: String)
    ensures
        r@ == session_state(dir@, session@),
{
    file_in(dir, session, ".state.json")
}

/// The data socket of an agent, which carries raw ACP and nothing else.
pub fn agent_socket_path(dir: &str, agent_id: &str) -> (r: String)
    ensures
        r@ == agent_socket(dir@, agent_id@),
{
    file_in(dir, agent_id, ".acp.sock")
}

/// The control socket.
pub fn control_socket_path(dir: &str) -> (r: String)
    ensures
        r@ == control_socket(dir@),
{
    join_path(dir, "control.sock")
}

/// The state file of the supervisor.
pub fn supervisor_state_path(dir: &str) -> (r: String)
    ensures
        r@ == supervisor_state(dir@),
{
    join_path(dir, "supervisor.state.json")
}

/// Appends a suffix to the file name of a path.
pub fn with_suffix(path: &str, suffix: &str) -> (r: String)
    ensures
        r@ == path@ + suffix@,
{
    let mut s: String = path.to_owned();
    s.append(suffix);
    s
}

/// A file in the runtime directory is the path of its stem with the ending
/// behind it.
proof fn lemma_runtime_file(dir: Seq<char>, stem: Seq<char>, ending: Seq<char>)
    requires
        ending.len() > 0,
        ending[0] != '/',
    ensures
        runtime_file(dir, stem, ending) == text::joined(dir, stem) + ending,
{
    if stem.len() > 0 {
        assert((stem + ending)[0] == stem[0]);
    } else {
        assert((stem + ending)[0] == ending[0]);
    }
    assert(runtime_file(dir, stem, ending) =~= text::joined(dir, stem) + ending);
}

/// Two relative names below one directory are two paths.
proof fn lemma_joined_injective(dir: Seq<char>, a: Seq<char>, b: Seq<char>)
    requires
        text::joined(dir, a) == text::joined(dir, b),
        text::is_absolute(a) == text::is_absolute(b),
    ensures
        a == b,
{
    if !text::is_absolute(a) {
        let base = if dir.len() == 0 || dir.last() == '/' {
            dir
        } else {
            dir + seq!['/']
        };
        assert(text::joined(dir, a).skip(base.len() as int) =~= a);
        assert(text::joined(dir, b).skip(base.len() as int) =~= b);
    }
}

/// A joined path ends as its name does.
proof fn lemma_joined_ends(dir: Seq<char>, name: Seq<char>, k: int)
    requires
        1 <= k <= name.len(),
    ensures
        text::joined(dir, name).len() >= name.len(),
        text::joined(dir, name)[text::joined(dir, name).len() - k] == name[name.len() - k],
{
}

/// Named sessions do not collide: two sessions have two sockets and two state
/// files. (A name that is an absolute path leaves the runtime directory, so one
/// that spells out the path of another session is left out.)
pub proof fn law_sessions_do_not_collide(dir: Seq<char>, a: Seq<char>, b: Seq<char>)
    requires
        a != b,
        text::is_absolute(a) && !text::is_absolute(b) ==> a != text::joined(dir, b),
        text::is_absolute(b) && !text::is_absolute(a) ==> b != text::joined(dir, a),
    ensures
        runtime_file(dir, a, ".sock"@) != runtime_file(dir, b, ".sock"@),
        runtime_file(dir, a, ".state.json"@) != runtime_file(dir, b, ".state.json"@),
        runtime_file(dir, a, ".acp.sock"@) != runtime_file(dir, b, ".acp.sock"@),
{
    reveal_strlit(".sock");
    reveal_strlit(".state.json");
    reveal_strlit(".acp.sock");
    let x = text::joined(dir, a);
    let y = text::joined(dir, b);
    if text::is_absolute(a) == text::is_absolute(b) && x == y {
        lemma_joined_injective(dir, a, b);
    }
    assert(x != y);
    assert forall|ending: Seq<char>|
        ending.len() > 0 && ending[0] == '.' implies #[trigger] runtime_file(dir, a, ending)
        != runtime_file(dir, b, ending) by {
        lemma_runtime_file(dir, a, ending);
        lemma_runtime_file(dir, b, ending);
        if x + ending == y + ending {
            assert((x + ending).take(x.len() as int) =~= x);
            assert((y + ending).take(y.len() as int) =~= y);
        }
    }
}

/// The data path and the control plane never meet: no agent's data socket is
/// the control socket.
pub proof fn law_data_and_control_apart(dir: Seq<char>, agent_id: Seq<char>)
    ensures
        runtime_file(dir, agent_id, ".acp.sock"@) != text::joined(dir, "control.sock"@),
{
    reveal_strlit(".acp.sock");
    reveal_strlit("control.sock");
    lemma_joined_ends(dir, agent_id + ".acp.sock"@, 6);
    lemma_joined_ends(dir, "control.sock"@, 6);
}

/// A state file is never a socket, and the temporary file that a state is
/// written to first is never the state file itself.
pub proof fn law_state_and_socket_apart(dir: Seq<char>, a: Seq<char>, b: Seq<char>)
    ensures
        runtime_file(dir, a, ".state.json"@) != runtime_file(dir, b, ".sock"@),
        runtime_file(dir, a, ".state.json"@) != runtime_file(dir, b, ".acp.sock"@),
        runtime_file(dir, a, ".state.json"@) != text::joined(dir, "control.sock"@),
        runtime_file(dir, a, ".state.json"@) + ".tmp"@ != runtime_file(dir, a, ".state.json"@),
{
    reveal_strlit(".sock");
    reveal_strlit(".state.json");
    reveal_strlit(".acp.sock");
    reveal_strlit("control.sock");
    reveal_strlit(".tmp");
    lemma_joined_ends(dir, a + ".state.json"@, 1);
    lemma_joined_ends(dir, b + ".sock"@, 1);
    lemma_joined_ends(dir, b + ".acp.sock"@, 1);
    lemma_joined_ends(dir, "control.sock"@, 1);
    let p = runtime_file(dir, a, ".state.json"@);
    assert((p + ".tmp"@).len() == p.len() + 4);
}

/// A [`State`] as mathematical values.
pub struct StateModel {
    pub pid: u32,
    pub session_id: Option<Seq<char>>,
    pub model: Option<Seq<char>>,
}

/// What a session's daemon keeps on disk.
#[derive(Debug)]
pub struct State {
    pub pid: u32,
    pub session_id: Option<String>,
    pub model: Option<String>,
}

impl View for State {
    type V = StateModel;

    open spec fn view(&self) -> StateModel {
        StateModel {
            pid: self.pid,
            session_id: text::opt_text(self.session_id),
            model: text::opt_text(self.model),
        }
    }
}

/// Whether an agent process is alive, as the supervisor sees it.
#[derive(Debug, Clone, Copy, PartialEq, Eq, Structural)]
pub enum Liveness {
    /// Spawned and idling in the warm pool.
    Warm,
    /// Spawned, but not ready yet.
    Starting,
    /// The process has exited.
    Dead,
}

/// An [`AgentInfo`] as mathematical values.
pub struct AgentModel {
    pub id: Seq<char>,
    pub recipe: Seq<char>,
    pub pid: u32,
    pub liveness: Liveness,
    pub lease_holder: Option<Seq<char>>,
    pub session_count: usize,
}

/// One agent of the pool, as `list` shows it.
#[derive(Debug)]
pub struct AgentInfo {
    /// The agent's stable id.
    pub id: String,
    /// The recipe that spawned it.
    pub recipe: String,
    /// The process id of the agent.
    pub pid: u32,
    pub liveness: Liveness,
    /// The tag of the lease holder, if the agent is leased.
    pub lease_holder: Option<String>,
    /// How many ACP sessions were seen on this agent.
    pub session_count: usize,
}

impl View for AgentInfo {
    type V = AgentModel;

    open spec fn view(&self) -> AgentModel {
        AgentModel {
            id: self.id@,
            recipe: self.recipe@,
            pid: self.pid,
            liveness: self.liveness,
            lease_holder: text::opt_text(self.lease_holder),
            session_count: self.session_count,
        }
    }
}

impl Clone for AgentInfo {
    fn clone(&self) -> (r: Self)
        ensures
            r == *self,
    {
        AgentInfo {
            id: self.id.clone(),
            recipe: self.recipe.clone(),
            pid: self.pid,
            liveness: self.liveness,
            lease_holder: copy_opt(&self.lease_holder),
            session_count: self.session_count,
        }
    }
}

/// The models of several agents.
pub open spec fn agent_models(v: Seq<AgentInfo>) -> Seq<AgentModel> {
    Seq::new(v.len(), |i: int| v[i]@)
}

/// A request on the control socket.
#[allow(inconsistent_fields)]
#[derive(Debug, Clone)]
pub enum ControlRequest {
    /// Enumerate the agents.
    List,
    /// Grant the lease on an agent, named by id or recipe.
    Attach { target: String, holder: String },
    /// Start an agent from a recipe.
    Spawn { recipe: String },
    /// Release the holder's lease, on `id` if given.
    Detach { id: Option<String>, holder: String },
    /// Terminate an agent.
    Kill { id: String },
    /// Stream an agent's telemetry.
    Events { agent: String },
}

/// A [`Telemetry`] sample as mathematical values.
pub struct TelemetryModel {
    pub session: Seq<char>,
    pub queue_depth: nat,
    pub oldest_unread_ms: nat,
    pub lifecycle: Seq<char>,
}

/// One telemetry sample.
#[derive(Debug)]
pub struct Telemetry {
    /// The ACP session, or `-` for what concerns the connection.
    pub session: String,
    /// How many frames wait for the client.
    pub queue_depth: usize,
    /// The age of the oldest of them in milliseconds, 0 if there is none.
    pub oldest_unread_ms: u64,
    /// `flowing`, `pressured`, `torn`, `agent_dead` or `idle`.
    pub lifecycle: String,
}

impl View for Telemetry {
    type V = TelemetryModel;

    open spec fn view(&self) -> TelemetryModel {
        TelemetryModel {
            session: self.session@,
            queue_depth: self.queue_depth as nat,
            oldest_unread_ms: self.oldest_unread_ms as nat,
            lifecycle: self.lifecycle@,
        }
    }
}

impl Clone for Telemetry {
    fn clone(&self) -> (r: Self)
        ensures
            r == *self,
    {
        Telemetry {
            session: self.session.clone(),
            queue_depth: self.queue_depth,
            oldest_unread_ms: self.oldest_unread_ms,
            lifecycle: self.lifecycle.clone(),
        }
    }
}

/// The models of several samples.
pub open spec fn telemetry_models(v: Seq<Telemetry>) -> Seq<TelemetryModel> {
    Seq::new(v.len(), |i: int| v[i]@)
}

/// A [`ControlResponse`] as mathematical values.
pub enum ControlReplyModel {
    Ack { message: Seq<char> },
    Agents { agents: Seq<AgentModel> },
    Attached { socket: Seq<char>, agent: AgentModel },
    Spawned { agent: AgentModel },
    Telemetry { sample: TelemetryModel },
    Error { message: Seq<char> },
}

/// A reply on the control socket.
#[derive(Debug, Clone)]
pub enum ControlResponse {
    /// An acknowledgement.
    Ack { message: String },
    /// The agents of the pool.
    Agents { agents: Vec<AgentInfo> },
    /// The data socket to connect to.
    Attached { socket: String, agent: AgentInfo },
    /// The agent that was started.
    Spawned { agent: AgentInfo },
    /// One telemetry sample.
    Telemetry(Telemetry),
    /// A failure.
    Error { message: String },
}

impl View for ControlResponse {
    type V = ControlReplyModel;

    open spec fn view(&self) -> ControlReplyModel {
        match self {
            ControlResponse::Ack { message } => ControlReplyModel::Ack { message: message@ },
            ControlResponse::Agents { agents } => ControlReplyModel::Agents {
                agents: agent_models(agents@),
            },
            ControlResponse::Attached { socket, agent } => ControlReplyModel::Attached {
                socket: socket@,
                agent: agent@,
            },
            ControlResponse::Spawned { agent } => ControlReplyModel::Spawned { agent: agent@ },
            ControlResponse::Telemetry(sample) => ControlReplyModel::Telemetry { sample: sample@ },
            ControlResponse::Error { message } => ControlReplyModel::Error { message: message@ },
        }
    }
}

impl ControlResponse {
    /// An error reply.
    pub fn err(msg: &str) -> (r: ControlResponse)
        ensures
            r@ == (ControlReplyModel::Error { message: msg@ }),
    {
        ControlResponse::Error { message: msg.to_owned() }
    }
}

} // verus!

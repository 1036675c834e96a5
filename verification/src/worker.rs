//! The worker that serializes turns on the agent's single stream.
//!
//! The stream carries one result event per message. A turn that timed out
//! still owes its result, which has to be read off the stream before the next
//! message is written; otherwise every later reply would be that of the turn
//! before. The worker is a state machine: it is told what happened on the
//! stream and says what to do next.

use crate::daemon;
use crate::daemon::user_envelope;
use crate::json;
use crate::json::Json;
use crate::protocol;
use crate::protocol::{Request, Response};
use crate::queue;
use crate::text;
use crate::text::{copy_opt, decimal, same_text, trim};
use vstd::prelude::*;
use vstd::string::*;
use vstd::utf8::*;

verus! {

/// How long a result that is still owed is waited for, in milliseconds.
pub const DRAIN_CAP_MS: u64 = 120_000;

/// A [`Job`] as mathematical values.
pub struct JobModel {
    pub text: Seq<char>,
    pub timeout_ms: u64,
    pub started: u64,
}

/// A request that is being served, and when it came (in milliseconds).
pub struct Job {
    pub req: Request,
    pub started: u64,
}

impl View for Job {
    type V = JobModel;

    open spec fn view(&self) -> JobModel {
        JobModel { text: self.req.text@, timeout_ms: self.req.timeout_ms, started: self.started }
    }
}

/// A [`Phase`] as mathematical values.
pub enum PhaseModel {
    Idle { owes: bool },
    Draining { job: JobModel },
    Turn { job: JobModel },
    Stopped,
}

/// What the worker is doing.
pub enum Phase {
    /// Waiting for a request. `owes` tells that the last turn timed out, so
    /// that its result is still to come.
    Idle { owes: bool },
    /// Waiting for a result that is still owed, before `job` can be served.
    Draining { job: Job },
    /// Waiting for the result of `job`.
    Turn { job: Job },
    /// Done: the stream cannot be realigned.
    Stopped,
}

impl View for Phase {
    type V = PhaseModel;

    open spec fn view(&self) -> PhaseModel {
        match self {
            Phase::Idle { owes } => PhaseModel::Idle { owes: *owes },
            Phase::Draining { job } => PhaseModel::Draining { job: job@ },
            Phase::Turn { job } => PhaseModel::Turn { job: job@ },
            Phase::Stopped => PhaseModel::Stopped,
        }
    }
}

/// A [`Worker`] as mathematical values.
pub struct WorkerModel {
    pub tool: Seq<char>,
    pub session_id: Option<Seq<char>>,
    pub phase: PhaseModel,
}

/// The worker of one session.
pub struct Worker {
    /// The tool that the agent is a process of.
    pub tool: String,
    /// The session id that the agent told last.
    pub session_id: Option<String>,
    pub phase: Phase,
}

impl View for Worker {
    type V = WorkerModel;

    open spec fn view(&self) -> WorkerModel {
        WorkerModel {
            tool: self.tool@,
            session_id: text::opt_text(self.session_id),
            phase: self.phase@,
        }
    }
}

/// An [`Action`] as mathematical values.
pub enum ActionModel {
    Drain { cap_ms: u64 },
    Write { line: Seq<char>, deadline_ms: u64 },
    Read,
    Reply { response: protocol::ResponseModel },
    Abort { response: protocol::ResponseModel },
}

/// What to do next.
pub enum Action {
    /// Read lines, for at most `cap_ms` milliseconds from now.
    Drain { cap_ms: u64 },
    /// Write the line and flush; then read lines, for at most `deadline_ms`
    /// milliseconds from then.
    Write { line: String, deadline_ms: u64 },
    /// Read the next line, within the time that is set.
    Read,
    /// Answer the request, and wait for the next.
    Reply { response: Response },
    /// Answer the request, and serve no more.
    Abort { response: Response },
}

impl View for Action {
    type V = ActionModel;

    open spec fn view(&self) -> ActionModel {
        match self {
            Action::Drain { cap_ms } => ActionModel::Drain { cap_ms: *cap_ms },
            Action::Write { line, deadline_ms } => ActionModel::Write {
                line: line@,
                deadline_ms: *deadline_ms,
            },
            Action::Read => ActionModel::Read,
            Action::Reply { response } => ActionModel::Reply { response: response@ },
            Action::Abort { response } => ActionModel::Abort { response: response@ },
        }
    }
}

/// A [`Step`] as mathematical values.
pub struct StepModel {
    pub persist: Option<Seq<char>>,
    pub action: ActionModel,
}

/// A session id to save, if a new one was learned, and what to do next.
pub struct Step {
    pub persist: Option<String>,
    pub action: Action,
}

impl View for Step {
    type V = StepModel;

    open spec fn view(&self) -> StepModel {
        StepModel { persist: text::opt_text(self.persist), action: self.action@ }
    }
}

/// An [`End`] as mathematical values.
pub enum EndModel {
    Closed,
    ReadFailed { error: Seq<char> },
    TimedOut,
    WriteFailed { error: Seq<char> },
    FlushFailed { error: Seq<char> },
}

/// How a wait for a result ended without one.
pub enum End {
    /// The agent's output ended.
    Closed,
    /// Reading failed.
    ReadFailed { error: String },
    /// The time ran out.
    TimedOut,
    /// The message could not be written.
    WriteFailed { error: String },
    /// The message could not be flushed.
    FlushFailed { error: String },
}

impl View for End {
    type V = EndModel;

    open spec fn view(&self) -> EndModel {
        match self {
            End::Closed => EndModel::Closed,
            End::ReadFailed { error } => EndModel::ReadFailed { error: error@ },
            End::TimedOut => EndModel::TimedOut,
            End::WriteFailed { error } => EndModel::WriteFailed { error: error@ },
            End::FlushFailed { error } => EndModel::FlushFailed { error: error@ },
        }
    }
}

/// The text of an optional member, with a stand-in where it is missing.
pub open spec fn text_or(t: Option<Seq<char>>, other: Seq<char>) -> Seq<char> {
    match t {
        Some(s) => s,
        None => other,
    }
}

/// The session id that is known after an event.
pub open spec fn learned(known: Option<Seq<char>>, ev: json::JsonTree) -> Option<Seq<char>> {
    match json::member_text(ev, "session_id"@) {
        Some(id) => Some(id),
        None => known,
    }
}

/// The session id to save after an event: one that is new.
pub open spec fn to_persist(known: Option<Seq<char>>, ev: json::JsonTree) -> Option<Seq<char>> {
    if learned(known, ev) != known {
        learned(known, ev)
    } else {
        None
    }
}

/// Whether an event is the result that ends a turn.
pub open spec fn is_result(ev: json::JsonTree) -> bool {
    json::member_text(ev, "type"@) == Some("result"@)
}

/// The reply that a result event stands for, given the session id. A failed
/// result has no text, only an error.
pub open spec fn result_reply(
    tool: Seq<char>,
    session_id: Option<Seq<char>>,
    ev: json::JsonTree,
    turn_ms: u64,
) -> protocol::ResponseModel {
    let failed = json::member_bool(ev, "is_error"@) == Some(true);
    protocol::ResponseModel {
        ok: !failed,
        text: if failed {
            Seq::empty()
        } else {
            text_or(json::member_text(ev, "result"@), Seq::empty())
        },
        session_id: text_or(session_id, Seq::empty()),
        turn_ms,
        error: if failed {
            Some(
                tool + " result error: "@ + text_or(
                    json::member_text(ev, "subtype"@),
                    "error"@,
                ),
            )
        } else {
            None
        },
    }
}

/// The event on a line: none on a blank line, nor on one that is not JSON.
pub open spec fn line_event(line: Seq<char>) -> Option<json::JsonTree> {
    let content = text::trimmed(line);
    if content.len() == 0 {
        None
    } else {
        json::document(encode_utf8(content))
    }
}

/// The larger of a timeout and one millisecond.
pub open spec fn turn_deadline(timeout_ms: u64) -> u64 {
    if timeout_ms < 1 {
        1
    } else {
        timeout_ms
    }
}

/// The step that hands a job to the agent.
pub open spec fn write_job(job: JobModel) -> ActionModel {
    ActionModel::Write {
        line: daemon::envelope(job.text),
        deadline_ms: turn_deadline(job.timeout_ms),
    }
}

/// A request comes in: it is served at once, or after the result that is still
/// owed.
pub open spec fn submitted(m: WorkerModel, job: JobModel) -> (WorkerModel, ActionModel) {
    match m.phase {
        PhaseModel::Idle { owes: true } => (
            WorkerModel { phase: PhaseModel::Draining { job }, ..m },
            ActionModel::Drain { cap_ms: DRAIN_CAP_MS },
        ),
        _ => (WorkerModel { phase: PhaseModel::Turn { job }, ..m }, write_job(job)),
    }
}

/// An event comes in while a result is waited for.
pub open spec fn heard(m: WorkerModel, ev: json::JsonTree, now: u64) -> (WorkerModel, StepModel) {
    let session_id = learned(m.session_id, ev);
    let persist = to_persist(m.session_id, ev);
    if !is_result(ev) {
        (WorkerModel { session_id, ..m }, StepModel { persist, action: ActionModel::Read })
    } else {
        match m.phase {
            PhaseModel::Draining { job } => (
                WorkerModel { session_id, phase: PhaseModel::Turn { job }, ..m },
                StepModel { persist, action: write_job(job) },
            ),
            PhaseModel::Turn { job } => (
                WorkerModel { session_id, phase: PhaseModel::Idle { owes: false }, ..m },
                StepModel {
                    persist,
                    action: ActionModel::Reply {
                        response: result_reply(
                            m.tool,
                            session_id,
                            ev,
                            queue::elapsed(job.started, now) as u64,
                        ),
                    },
                },
            ),
            _ => (
                WorkerModel { session_id, ..m },
                StepModel { persist, action: ActionModel::Read },
            ),
        }
    }
}

/// A line comes in while a result is waited for: one without an event is
/// skipped.
pub open spec fn heard_line(m: WorkerModel, line: Seq<char>, now: u64) -> (WorkerModel, StepModel) {
    match line_event(line) {
        Some(ev) => heard(m, ev, now),
        None => (m, StepModel { persist: None, action: ActionModel::Read }),
    }
}

/// What a turn that ended without a result is answered.
pub open spec fn end_message(tool: Seq<char>, end: EndModel, timeout_ms: u64) -> Seq<char> {
    match end {
        EndModel::Closed => "read error: "@ + tool
            + " stdout closed mid-turn (process died?)"@,
        EndModel::ReadFailed { error } => "read error: reading "@ + tool + " stdout: "@ + error,
        EndModel::TimedOut => "timeout after "@ + text::decimal_text(timeout_ms as nat)
            + "ms waiting for "@ + tool + " result"@,
        EndModel::WriteFailed { error } => "turn failed: writing to "@ + tool
            + " stdin: "@ + error,
        EndModel::FlushFailed { error } => "turn failed: flushing "@ + tool
            + " stdin: "@ + error,
    }
}

/// What a request is answered when a result that was owed never came.
pub open spec fn desync_message(tool: Seq<char>) -> Seq<char> {
    tool + " stream desynced and could not recover (process died?)"@
}

/// The wait for a result ends without one. A turn that timed out still owes
/// its result; a result that was owed and never came stops the worker.
pub open spec fn ended(m: WorkerModel, end: EndModel, now: u64) -> (WorkerModel, ActionModel) {
    match m.phase {
        PhaseModel::Turn { job } => (
            WorkerModel { phase: PhaseModel::Idle { owes: end is TimedOut }, ..m },
            ActionModel::Reply {
                response: protocol::ResponseModel {
                    turn_ms: queue::elapsed(job.started, now) as u64,
                    ..protocol::failure(end_message(m.tool, end, job.timeout_ms))
                },
            },
        ),
        _ => (
            WorkerModel { phase: PhaseModel::Stopped, ..m },
            ActionModel::Abort { response: protocol::failure(desync_message(m.tool)) },
        ),
    }
}

fn since(then: u64, now: u64) -> (r: u64)
    ensures
        r == queue::elapsed(then, now),
{
    if now >= then {
        now - then
    } else {
        0
    }
}

fn start(job: &Job) -> (r: Action)
    ensures
        r@ == write_job(job@),
{
    Action::Write {
        line: user_envelope(job.req.text.as_str()),
        deadline_ms: if job.req.timeout_ms < 1 {
            1
        } else {
            job.req.timeout_ms
        },
    }
}

/// The text of an optional string, with a stand-in where it is missing.
fn or_text(t: Option<String>, other: &str) -> (r: String)
    ensures
        r@ == text_or(text::opt_text(t), other@),
{
    match t {
        Some(s) => s,
        None => other.to_owned(),
    }
}

/// The reply that a result event stands for.
pub fn reply_of_result(tool: &str, session_id: &Option<String>, ev: &Json, turn_ms: u64) -> (r: Response)
    ensures
        r@ == result_reply(tool@, text::opt_text(*session_id), ev.tree(), turn_ms),
{
    proof {
        reveal_strlit("");
    }
    assert(""@ =~= Seq::<char>::empty());
    let failed: bool = match ev.get_bool("is_error") {
        Some(b) => b,
        None => false,
    };
    let body: String = if failed {
        String::new()
    } else {
        or_text(ev.get_text("result"), "")
    };
    let id: String = or_text(copy_opt(session_id), "");
    let error: Option<String> = if failed {
        let mut msg: String = tool.to_owned();
        msg.append(" result error: ");
        msg.append(or_text(ev.get_text("subtype"), "error").as_str());
        Some(msg)
    } else {
        None
    };
    Response { ok: !failed, text: body, session_id: id, turn_ms, error }
}

impl Worker {
    /// A worker that has served nothing yet.
    pub fn new(tool: &str) -> (r: Self)
        ensures
            r@ == (WorkerModel {
                tool: tool@,
                session_id: None,
                phase: PhaseModel::Idle { owes: false },
            }),
    {
        Worker {
            tool: tool.to_owned(),
            session_id: None,
            phase: Phase::Idle { owes: false },
        }
    }

    /// Whether the worker waits for a request.
    pub fn is_idle(&self) -> (r: bool)
        ensures
            r == (self@.phase is Idle),
    {
        match self.phase {
            Phase::Idle { owes: _ } => true,
            _ => false,
        }
    }

    /// A request comes in.
    pub fn submit(&mut self, req: Request, now: u64) -> (r: Action)
        requires
            old(self)@.phase is Idle,
        ensures
            (final(self)@, r@) == submitted(
                old(self)@,
                JobModel { text: req.text@, timeout_ms: req.timeout_ms, started: now },
            ),
    {
        let job = Job { req, started: now };
        let owes: bool = match self.phase {
            Phase::Idle { owes } => owes,
            _ => false,
        };
        if owes {
            self.phase = Phase::Draining { job };
            Action::Drain { cap_ms: DRAIN_CAP_MS }
        } else {
            let action: Action = start(&job);
            self.phase = Phase::Turn { job };
            action
        }
    }

    fn learn(&mut self, ev: &Json) -> (r: Option<String>)
        ensures
            text::opt_text(r) == to_persist(old(self)@.session_id, ev.tree()),
            final(self)@ == (WorkerModel {
                session_id: learned(old(self)@.session_id, ev.tree()),
                ..old(self)@
            }),
    {
        match ev.get_text("session_id") {
            Some(id) => {
                let known: bool = match &self.session_id {
                    Some(k) => same_text(k.as_str(), id.as_str()),
                    None => false,
                };
                if known {
                    None
                } else {
                    self.session_id = Some(id.clone());
                    Some(id)
                }
            },
            None => None,
        }
    }

    /// An event comes in while a result is waited for.
    pub fn on_event(&mut self, ev: &Json, now: u64) -> (r: Step)
        requires
            old(self)@.phase is Draining || old(self)@.phase is Turn,
        ensures
            (final(self)@, r@) == heard(old(self)@, ev.tree(), now),
    {
        let persist: Option<String> = self.learn(ev);
        let result: bool = match ev.get_text("type") {
            Some(t) => same_text(t.as_str(), "result"),
            None => false,
        };
        if !result {
            return Step { persist, action: Action::Read };
        }
        let mut phase: Phase = Phase::Idle { owes: false };
        core::mem::swap(&mut self.phase, &mut phase);
        match phase {
            Phase::Draining { job } => {
                let action: Action = start(&job);
                self.phase = Phase::Turn { job };
                Step { persist, action }
            },
            Phase::Turn { job } => {
                let response: Response = reply_of_result(
                    self.tool.as_str(),
                    &self.session_id,
                    ev,
                    since(job.started, now),
                );
                Step { persist, action: Action::Reply { response } }
            },
            _ => Step { persist, action: Action::Read },
        }
    }

    /// A line comes in while a result is waited for.
    pub fn on_line(&mut self, line: &str, now: u64) -> (r: Step)
        requires
            old(self)@.phase is Draining || old(self)@.phase is Turn,
        ensures
            (final(self)@, r@) == heard_line(old(self)@, line@, now),
    {
        let content: &str = trim(line);
        if content.unicode_len() > 0 {
            if let Some(ev) = Json::parse(content.as_bytes()) {
                return self.on_event(&ev, now);
            }
        }
        Step { persist: None, action: Action::Read }
    }

    /// The wait for a result ends without one.
    pub fn on_end(&mut self, end: &End, now: u64) -> (r: Action)
        requires
            old(self)@.phase is Draining || old(self)@.phase is Turn,
        ensures
            (final(self)@, r@) == ended(old(self)@, end@, now),
    {
        let mut phase: Phase = Phase::Stopped;
        core::mem::swap(&mut self.phase, &mut phase);
        match phase {
            Phase::Turn { job } => {
                let timed_out: bool = match end {
                    End::TimedOut => true,
                    _ => false,
                };
                self.phase = Phase::Idle { owes: timed_out };
                let failed: Response = Response::error(
                    end_text(self.tool.as_str(), end, job.req.timeout_ms).as_str(),
                );
                Action::Reply {
                    response: Response { turn_ms: since(job.started, now), ..failed },
                }
            },
            _ => {
                let mut msg: String = self.tool.clone();
                msg.append(" stream desynced and could not recover (process died?)");
                Action::Abort { response: Response::error(msg.as_str()) }
            },
        }
    }
}

fn end_text(tool: &str, end: &End, timeout_ms: u64) -> (r: String)
    ensures
        r@ == end_message(tool@, end@, timeout_ms),
{
    match end {
        End::Closed => {
            let mut out: String = "read error: ".to_owned();
            out.append(tool);
            out.append(" stdout closed mid-turn (process died?)");
            out
        },
        End::ReadFailed { error } => {
            let mut out: String = "read error: reading ".to_owned();
            out.append(tool);
            out.append(" stdout: ");
            out.append(error.as_str());
            out
        },
        End::TimedOut => {
            let mut out: String = "timeout after ".to_owned();
            out.append(decimal(timeout_ms).as_str());
            out.append("ms waiting for ");
            out.append(tool);
            out.append(" result");
            out
        },
        End::WriteFailed { error } => {
            let mut out: String = "turn failed: writing to ".to_owned();
            out.append(tool);
            out.append(" stdin: ");
            out.append(error.as_str());
            out
        },
        End::FlushFailed { error } => {
            let mut out: String = "turn failed: flushing ".to_owned();
            out.append(tool);
            out.append(" stdin: ");
            out.append(error.as_str());
            out
        },
    }
}

} // verus!

//! The control client: how requests are tagged and replies are told apart and
//! printed.

use crate::protocol;
use crate::protocol::{AgentInfo, ControlResponse, Liveness, Telemetry};
use crate::text;
use crate::text::{decimal, pad_right, signed_decimal};
use vstd::prelude::*;
use vstd::string::*;

verus! {

/// The tag of a caller that gives none: one per parent process, so that a
/// shell is the same holder from call to call.
pub fn default_holder(ppid: i32) -> (r: String)
    ensures
        r@ == "cli-"@ + text::integer_text(ppid as int),
{
    let mut out: String = "cli-".to_owned();
    out.append(signed_decimal(ppid as i64).as_str());
    out
}

/// The tag of a caller: the one it gives, or one per parent process.
pub open spec fn caller_tag(holder: Option<Seq<char>>, ppid: i32) -> Seq<char> {
    match holder {
        Some(h) => h,
        None => "cli-"@ + text::integer_text(ppid as int),
    }
}

/// The tag of a caller.
pub fn holder_tag(holder: Option<String>, ppid: i32) -> (r: String)
    ensures
        r@ == caller_tag(text::opt_text(holder), ppid),
{
    match holder {
        Some(h) => h,
        None => default_holder(ppid),
    }
}

/// Why a reply is not the one that was waited for.
pub enum ReplyError {
    /// The request was refused, with a reason.
    Refused(String),
    /// The reply is of another kind.
    Unexpected(ControlResponse),
}

/// What a reply that is not the one waited for stands for.
pub open spec fn misfit(resp: ControlResponse) -> ReplyError {
    match resp {
        ControlResponse::Error { message } => ReplyError::Refused(message),
        _ => ReplyError::Unexpected(resp),
    }
}

fn refuse(resp: ControlResponse) -> (r: ReplyError)
    ensures
        r == misfit(resp),
{
    match resp {
        ControlResponse::Error { message } => ReplyError::Refused(message),
        other => ReplyError::Unexpected(other),
    }
}

/// The agents, in the reply to `list`.
pub fn expect_agents(resp: ControlResponse) -> (r: Result<Vec<AgentInfo>, ReplyError>)
    ensures
        match r {
            Ok(agents) => resp == (ControlResponse::Agents { agents }),
            Err(e) => !(resp is Agents) && e == misfit(resp),
        },
{
    match resp {
        ControlResponse::Agents { agents } => Ok(agents),
        other => Err(refuse(other)),
    }
}

/// The agent, in the reply to `spawn`.
pub fn expect_spawned(resp: ControlResponse) -> (r: Result<AgentInfo, ReplyError>)
    ensures
        match r {
            Ok(agent) => resp == (ControlResponse::Spawned { agent }),
            Err(e) => !(resp is Spawned) && e == misfit(resp),
        },
{
    match resp {
        ControlResponse::Spawned { agent } => Ok(agent),
        other => Err(refuse(other)),
    }
}

/// The data socket and the agent, in the reply to `attach`.
pub fn expect_attached(resp: ControlResponse) -> (r: Result<(String, AgentInfo), ReplyError>)
    ensures
        match r {
            Ok(x) => resp == (ControlResponse::Attached { socket: x.0, agent: x.1 }),
            Err(e) => !(resp is Attached) && e == misfit(resp),
        },
{
    match resp {
        ControlResponse::Attached { socket, agent } => Ok((socket, agent)),
        other => Err(refuse(other)),
    }
}

/// The message, in the reply to `detach` or `kill`.
pub fn expect_ack(resp: ControlResponse) -> (r: Result<String, ReplyError>)
    ensures
        match r {
            Ok(message) => resp == (ControlResponse::Ack { message }),
            Err(e) => !(resp is Ack) && e == misfit(resp),
        },
{
    match resp {
        ControlResponse::Ack { message } => Ok(message),
        other => Err(refuse(other)),
    }
}

/// What `events` does with one reply.
pub enum EventsStep {
    /// Print the sample and go on.
    Print(Telemetry),
    /// Stop with an error.
    Fail(String),
    /// Complain and go on.
    Complain(ControlResponse),
}

/// What `events` does with one reply.
pub open spec fn events_action(resp: ControlResponse) -> EventsStep {
    match resp {
        ControlResponse::Telemetry(t) => EventsStep::Print(t),
        ControlResponse::Error { message } => EventsStep::Fail(message),
        _ => EventsStep::Complain(resp),
    }
}

/// Decides what `events` does with one reply.
pub fn events_step(resp: ControlResponse) -> (r: EventsStep)
    ensures
        r == events_action(resp),
{
    match resp {
        ControlResponse::Telemetry(t) => EventsStep::Print(t),
        ControlResponse::Error { message } => EventsStep::Fail(message),
        other => EventsStep::Complain(other),
    }
}

/// What `spawn` prints.
pub fn spawned_line(agent: &AgentInfo) -> (r: String)
    ensures
        r@ == "spawned "@ + agent.id@ + " (recipe "@ + agent.recipe@ + ", pid "@
            + text::decimal_text(agent.pid as nat) + ")\n"@,
{
    let mut out: String = "spawned ".to_owned();
    out.append(agent.id.as_str());
    out.append(" (recipe ");
    out.append(agent.recipe.as_str());
    out.append(", pid ");
    out.append(decimal(agent.pid as u64).as_str());
    out.append(")\n");
    out
}

/// The word for a liveness.
pub open spec fn liveness_text(l: Liveness) -> Seq<char> {
    match l {
        Liveness::Warm => "Warm"@,
        Liveness::Starting => "Starting"@,
        Liveness::Dead => "Dead"@,
    }
}

/// The header of the agent table.
pub open spec fn list_header() -> Seq<char> {
    text::padded("ID"@, 16) + " "@ + text::padded("RECIPE"@, 16) + " "@ + text::padded("PID"@, 8)
        + " "@ + text::padded("LIVENESS"@, 10) + " "@ + text::padded("LEASE"@, 14) + " SESSIONS\n"@
}

/// The row of one agent. The liveness stands as it is, without filling.
pub open spec fn list_row(a: protocol::AgentModel) -> Seq<char> {
    text::padded(a.id, 16) + " "@ + text::padded(a.recipe, 16) + " "@ + text::padded(
        text::decimal_text(a.pid as nat),
        8,
    ) + " "@ + liveness_text(a.liveness) + " "@ + text::padded(
        match a.lease_holder {
            Some(h) => h,
            None => "-"@,
        },
        14,
    ) + " "@ + text::decimal_text(a.session_count as nat) + "\n"@
}

/// The rows of several agents.
pub open spec fn list_rows(agents: Seq<protocol::AgentModel>) -> Seq<char>
    decreases agents.len(),
{
    if agents.len() == 0 {
        Seq::empty()
    } else {
        list_rows(agents.drop_last()) + list_row(agents.last())
    }
}

/// What `list` prints.
pub open spec fn list_text(agents: Seq<protocol::AgentModel>) -> Seq<char> {
    if agents.len() == 0 {
        "(no agents)\n"@
    } else {
        list_header() + list_rows(agents)
    }
}

fn render_row(a: &AgentInfo) -> (r: String)
    ensures
        r@ == list_row(a@),
{
    let mut out: String = pad_right(a.id.as_str(), 16);
    out.append(" ");
    out.append(pad_right(a.recipe.as_str(), 16).as_str());
    out.append(" ");
    out.append(pad_right(decimal(a.pid as u64).as_str(), 8).as_str());
    out.append(" ");
    out.append(match a.liveness {
        Liveness::Warm => "Warm",
        Liveness::Starting => "Starting",
        Liveness::Dead => "Dead",
    });
    out.append(" ");
    match &a.lease_holder {
        Some(h) => out.append(pad_right(h.as_str(), 14).as_str()),
        None => out.append(pad_right("-", 14).as_str()),
    }
    out.append(" ");
    out.append(decimal(a.session_count as u64).as_str());
    out.append("\n");
    out
}

/// What `list` prints: a table of the agents.
pub fn render_list(agents: &Vec<AgentInfo>) -> (r: String)
    ensures
        r@ == list_text(protocol::agent_models(agents@)),
{
    if agents.len() == 0 {
        return "(no agents)\n".to_owned();
    }
    let mut out: String = pad_right("ID", 16);
    out.append(" ");
    out.append(pad_right("RECIPE", 16).as_str());
    out.append(" ");
    out.append(pad_right("PID", 8).as_str());
    out.append(" ");
    out.append(pad_right("LIVENESS", 10).as_str());
    out.append(" ");
    out.append(pad_right("LEASE", 14).as_str());
    out.append(" SESSIONS\n");
    let ghost models = protocol::agent_models(agents@);
    let mut i: usize = 0;
    proof {
        assert(models.take(0) =~= Seq::empty());
        assert(out@ =~= list_header() + list_rows(models.take(0)));
    }
    while i < agents.len()
        invariant
            i <= agents@.len(),
            models == protocol::agent_models(agents@),
            out@ == list_header() + list_rows(models.take(i as int)),
        decreases agents@.len() - i,
    {
        out.append(render_row(&agents[i]).as_str());
        proof {
            assert(models.take(i + 1).drop_last() =~= models.take(i as int));
            assert(out@ =~= list_header() + list_rows(models.take(i + 1)));
        }
        i = i + 1;
    }
    assert(models.take(i as int) =~= models);
    out
}

} // verus!

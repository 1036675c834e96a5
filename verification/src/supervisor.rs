//! The supervisor: the pool of agents, how they are named and found, and how
//! control requests are answered.

use crate::protocol;
use crate::protocol::{agent_socket_path, AgentInfo, ControlRequest, ControlResponse, Liveness};
use crate::recipe;
use crate::recipe::Recipe;
use crate::text;
use crate::text::{copy_opt, decimal, push_text, same_text, strip_leading};
use vstd::prelude::*;
use vstd::string::*;

verus! {

/// A [`Pool`] as mathematical values: the agents in the order in which they
/// came, and the number of the last id.
pub struct PoolModel {
    pub agents: Seq<protocol::AgentModel>,
    pub next_seq: u64,
}

/// The agents that the supervisor owns.
pub struct Pool {
    agents: Vec<AgentInfo>,
    next_seq: u64,
}

impl View for Pool {
    type V = PoolModel;

    closed spec fn view(&self) -> PoolModel {
        PoolModel { agents: protocol::agent_models(self.agents@), next_seq: self.next_seq }
    }
}

/// The ids of some agents.
pub open spec fn ids(agents: Seq<protocol::AgentModel>) -> Seq<Seq<char>> {
    Seq::new(agents.len(), |i: int| agents[i].id)
}

/// The id of the agent number `seq`, made from a recipe.
pub open spec fn minted(recipe: Seq<char>, seq: u64) -> Seq<char> {
    recipe + "-"@ + text::decimal_text(seq as nat)
}

/// The pool after an id was made for an agent of a recipe, and that id.
pub open spec fn minting(m: PoolModel, recipe: Seq<char>) -> (PoolModel, Seq<char>) {
    let seq = (m.next_seq + 1) as u64;
    (PoolModel { next_seq: seq, ..m }, minted(recipe, seq))
}

/// An agent that has just been started.
pub open spec fn fresh_agent(id: Seq<char>, recipe: Seq<char>, pid: u32) -> protocol::AgentModel {
    protocol::AgentModel {
        id,
        recipe,
        pid,
        liveness: Liveness::Warm,
        lease_holder: None,
        session_count: 0,
    }
}

/// Some agents with one more; one with the same id gives its place up.
pub open spec fn registered(
    agents: Seq<protocol::AgentModel>,
    agent: protocol::AgentModel,
) -> Seq<protocol::AgentModel> {
    if ids(agents).contains(agent.id) {
        agents.update(ids(agents).index_of(agent.id), agent)
    } else {
        agents.push(agent)
    }
}

/// Whether a text ends in another.
pub open spec fn ends_in(s: Seq<char>, end: Seq<char>) -> bool {
    s.len() >= end.len() && s.skip(s.len() - end.len()) == end
}

/// Whether an agent answers to a target that is no agent's id as it stands:
/// a warm agent answers to its recipe, and every agent to its id or, behind a
/// `#`, to its number.
pub open spec fn answers_to(a: protocol::AgentModel, target: Seq<char>) -> bool {
    let want = text::without_leading(target, '#');
    ||| a.recipe == want && a.liveness == Liveness::Warm
    ||| a.id == want
    ||| target.len() > want.len() && ends_in(a.id, "-"@ + want)
}

/// The first of some agents that answers to a target.
pub open spec fn first_answering(agents: Seq<protocol::AgentModel>, target: Seq<char>) -> Option<
    Seq<char>,
>
    decreases agents.len(),
{
    if agents.len() == 0 {
        None
    } else {
        match first_answering(agents.drop_last(), target) {
            Some(id) => Some(id),
            None => if answers_to(agents.last(), target) {
                Some(agents.last().id)
            } else {
                None
            },
        }
    }
}

/// The agent that a target names: the one with that id, else the first that
/// answers to it.
pub open spec fn resolved(agents: Seq<protocol::AgentModel>, target: Seq<char>) -> Option<
    Seq<char>,
> {
    if ids(agents).contains(target) {
        Some(target)
    } else {
        first_answering(agents, target)
    }
}

/// The agents once the process of one has exited.
pub open spec fn exited(agents: Seq<protocol::AgentModel>, id: Seq<char>) -> Seq<
    protocol::AgentModel,
> {
    if ids(agents).contains(id) {
        let i = ids(agents).index_of(id);
        agents.update(i, protocol::AgentModel { liveness: Liveness::Dead, ..agents[i] })
    } else {
        agents
    }
}

/// What is kept of an agent across restarts.
#[derive(Debug)]
pub struct PersistedAgent {
    pub id: String,
    pub recipe: String,
    pub pid: u32,
}

/// What is kept of the pool across restarts: who the agents are, not their
/// live handles.
#[derive(Debug)]
pub struct PersistedPool {
    pub agents: Vec<PersistedAgent>,
    pub next_seq: u64,
}

/// What is kept of some agents across restarts: the id, the recipe and the
/// process of each.
pub open spec fn kept_of(agents: Seq<protocol::AgentModel>) -> Seq<(Seq<char>, Seq<char>, u32)> {
    Seq::new(agents.len(), |i: int| (agents[i].id, agents[i].recipe, agents[i].pid))
}

impl PersistedPool {
    /// What is kept, as mathematical values.
    pub open spec fn entries(self) -> Seq<(Seq<char>, Seq<char>, u32)> {
        Seq::new(
            self.agents@.len(),
            |i: int| (self.agents@[i].id@, self.agents@[i].recipe@, self.agents@[i].pid),
        )
    }
}

fn answers(a: &AgentInfo, target: &str) -> (r: bool)
    ensures
        r == answers_to(a@, target@),
{
    let want: String = strip_leading(target, '#');
    let warm: bool = match a.liveness {
        Liveness::Warm => true,
        _ => false,
    };
    if same_text(a.recipe.as_str(), want.as_str()) && warm {
        return true;
    }
    if same_text(a.id.as_str(), want.as_str()) {
        return true;
    }
    let numbered: bool = target.unicode_len() > want.as_str().unicode_len();
    if !numbered {
        return false;
    }
    let mut end: String = "-".to_owned();
    end.append(want.as_str());
    let n: usize = a.id.as_str().unicode_len();
    let k: usize = end.as_str().unicode_len();
    if n < k {
        return false;
    }
    assert(a.id@.subrange(n - k, n as int) =~= a.id@.skip(n - k));
    same_text(a.id.as_str().substring_char(n - k, n), end.as_str())
}

impl Pool {
    /// No two agents have the same id.
    pub open spec fn inv(self) -> bool {
        ids(self@.agents).no_duplicates()
    }

    /// An empty pool.
    pub fn new() -> (r: Self)
        ensures
            r.inv(),
            r@ == (PoolModel { agents: Seq::empty(), next_seq: 0 }),
    {
        let r = Pool { agents: Vec::new(), next_seq: 0 };
        assert(r@.agents =~= Seq::empty());
        r
    }

    /// How many agents there are.
    pub fn len(&self) -> (r: usize)
        ensures
            r == self@.agents.len(),
    {
        self.agents.len()
    }

    /// The number of the last id.
    pub fn last_seq(&self) -> (r: u64)
        ensures
            r == self@.next_seq,
    {
        self.next_seq
    }

    /// Makes the id of the next agent.
    pub fn mint_id(&mut self, recipe: &str) -> (r: String)
        requires
            old(self).inv(),
            old(self)@.next_seq < u64::MAX,
        ensures
            final(self).inv(),
            (final(self)@, r@) == minting(old(self)@, recipe@),
            final(self)@ == (PoolModel {
                next_seq: (old(self)@.next_seq + 1) as u64,
                ..old(self)@
            }),
            r@ == minted(recipe@, (old(self)@.next_seq + 1) as u64),
    {
        self.next_seq = self.next_seq + 1;
        let mut out: String = recipe.to_owned();
        out.append("-");
        out.append(decimal(self.next_seq).as_str());
        out
    }

    fn position(&self, id: &str) -> (r: Option<usize>)
        requires
            self.inv(),
        ensures
            match r {
                Some(i) => {
                    &&& i < self@.agents.len()
                    &&& self@.agents[i as int].id == id@
                    &&& ids(self@.agents).contains(id@)
                    &&& ids(self@.agents).index_of(id@) == i
                },
                None => !ids(self@.agents).contains(id@),
            },
    {
        let mut i: usize = 0;
        while i < self.agents.len()
            invariant
                self.inv(),
                i <= self.agents@.len(),
                forall|j: int| 0 <= j < i ==> ids(self@.agents)[j] != id@,
            decreases self.agents@.len() - i,
        {
            if same_text(self.agents[i].id.as_str(), id) {
                assert(ids(self@.agents)[i as int] == id@);
                return Some(i);
            }
            i = i + 1;
        }
        None
    }

    /// Takes an agent in that has just been started, and tells what it is.
    pub fn register(&mut self, id: &str, recipe: &str, pid: u32) -> (r: AgentInfo)
        requires
            old(self).inv(),
        ensures
            final(self).inv(),
            final(self)@ == (PoolModel {
                agents: registered(old(self)@.agents, fresh_agent(id@, recipe@, pid)),
                ..old(self)@
            }),
            r@ == fresh_agent(id@, recipe@, pid),
    {
        let info = AgentInfo {
            id: id.to_owned(),
            recipe: recipe.to_owned(),
            pid,
            liveness: Liveness::Warm,
            lease_holder: None,
            session_count: 0,
        };
        let ghost before = self@.agents;
        let copy: AgentInfo = info.clone();
        match self.position(id) {
            Some(i) => {
                self.agents[i] = copy;
                proof {
                    assert(self@.agents =~= before.update(i as int, info@));
                    assert(ids(self@.agents) =~= ids(before));
                }
            },
            None => {
                self.agents.push(copy);
                proof {
                    assert(self@.agents =~= before.push(info@));
                    assert(ids(self@.agents) =~= ids(before).push(id@));
                }
            },
        }
        info
    }

    /// The agent with an id.
    pub fn get(&self, id: &str) -> (r: Option<AgentInfo>)
        requires
            self.inv(),
        ensures
            match r {
                Some(a) => {
                    &&& ids(self@.agents).contains(id@)
                    &&& a@ == self@.agents[ids(self@.agents).index_of(id@)]
                },
                None => !ids(self@.agents).contains(id@),
            },
    {
        match self.position(id) {
            Some(i) => Some(self.agents[i].clone()),
            None => None,
        }
    }

    /// The agent that came as number `i`.
    pub fn agent_at(&self, i: usize) -> (r: &AgentInfo)
        requires
            i < self@.agents.len(),
        ensures
            r@ == self@.agents[i as int],
    {
        &self.agents[i]
    }

    /// Records that the process of an agent has exited.
    pub fn mark_exited(&mut self, id: &str)
        requires
            old(self).inv(),
        ensures
            final(self).inv(),
            final(self)@ == (PoolModel {
                agents: exited(old(self)@.agents, id@),
                ..old(self)@
            }),
    {
        let ghost before = self@.agents;
        if let Some(i) = self.position(id) {
            let mut info: AgentInfo = self.agents[i].clone();
            info.liveness = Liveness::Dead;
            self.agents[i] = info;
            proof {
                assert(self@.agents =~= before.update(i as int, info@));
                assert(ids(self@.agents) =~= ids(before));
            }
        }
    }

    /// The agent that a target names: the one with that id, else the first
    /// that answers to it.
    pub fn resolve_target(&self, target: &str) -> (r: Option<String>)
        requires
            self.inv(),
        ensures
            text::opt_text(r) == resolved(self@.agents, target@),
    {
        if self.position(target).is_some() {
            return Some(target.to_owned());
        }
        let ghost agents = self@.agents;
        let mut i: usize = 0;
        assert(agents.take(0) =~= Seq::empty());
        while i < self.agents.len()
            invariant
                i <= self.agents@.len(),
                agents == protocol::agent_models(self.agents@),
                agents == self@.agents,
                !ids(agents).contains(target@),
                first_answering(agents.take(i as int), target@) is None,
            decreases self.agents@.len() - i,
        {
            proof {
                assert(agents.take(i + 1).drop_last() =~= agents.take(i as int));
                assert(agents.take(i + 1).last() == agents[i as int]);
            }
            if answers(&self.agents[i], target) {
                proof {
                    lemma_first_answering_stays(agents, i + 1, target@);
                }
                return Some(self.agents[i].id.clone());
            }
            i = i + 1;
        }
        assert(agents.take(i as int) =~= agents);
        None
    }

    /// What is kept of the pool across restarts.
    pub fn snapshot(&self) -> (r: PersistedPool)
        ensures
            r.next_seq == self@.next_seq,
            r.entries() == kept_of(self@.agents),
            r.agents@.len() == self@.agents.len(),
            forall|i: int|
                0 <= i < r.agents@.len() ==> {
                    let p = #[trigger] r.agents@[i];
                    &&& p.id@ == self@.agents[i].id
                    &&& p.recipe@ == self@.agents[i].recipe
                    &&& p.pid == self@.agents[i].pid
                },
    {
        let mut agents: Vec<PersistedAgent> = Vec::new();
        let mut i: usize = 0;
        while i < self.agents.len()
            invariant
                i <= self.agents@.len(),
                agents@.len() == i,
                forall|j: int|
                    0 <= j < i ==> {
                        let p = #[trigger] agents@[j];
                        &&& p.id@ == self@.agents[j].id
                        &&& p.recipe@ == self@.agents[j].recipe
                        &&& p.pid == self@.agents[j].pid
                    },
            decreases self.agents@.len() - i,
        {
            let a: &AgentInfo = &self.agents[i];
            agents.push(
                PersistedAgent { id: a.id.clone(), recipe: a.recipe.clone(), pid: a.pid },
            );
            i = i + 1;
        }
        let r = PersistedPool { agents, next_seq: self.next_seq };
        assert(r.entries() =~= kept_of(self@.agents));
        r
    }
}

proof fn lemma_first_answering_stays(
    agents: Seq<protocol::AgentModel>,
    k: int,
    target: Seq<char>,
)
    requires
        0 <= k <= agents.len(),
        first_answering(agents.take(k), target) is Some,
    ensures
        first_answering(agents, target) == first_answering(agents.take(k), target),
    decreases agents.len() - k,
{
    if k == agents.len() {
        assert(agents.take(k) =~= agents);
    } else {
        assert(agents.take(k + 1).drop_last() =~= agents.take(k));
        lemma_first_answering_stays(agents, k + 1, target);
    }
}

/// The reply to a line that is not a control request.
pub fn bad_request(error: &str) -> (r: ControlResponse)
    ensures
        r@ == (protocol::ControlReplyModel::Error { message: "bad control request: "@ + error@ }),
{
    let mut msg: String = "bad control request: ".to_owned();
    msg.append(error);
    ControlResponse::err(msg.as_str())
}

/// Names separated by commas.
pub open spec fn listed(names: Seq<Seq<char>>) -> Seq<char>
    decreases names.len(),
{
    if names.len() == 0 {
        Seq::empty()
    } else if names.len() == 1 {
        names[0]
    } else {
        listed(names.drop_last()) + ", "@ + names.last()
    }
}

fn known_names(tool: &str) -> (r: String)
    ensures
        r@ == listed(recipe::recipe_names(tool@)),
{
    let names: Vec<String> = Recipe::builtin_names(tool);
    let ghost all = text::texts(names@);
    let mut out: String = String::new();
    let mut i: usize = 0;
    assert(all.take(0) =~= Seq::empty());
    while i < names.len()
        invariant
            i <= names@.len(),
            all == text::texts(names@),
            out@ == listed(all.take(i as int)),
        decreases names@.len() - i,
    {
        let ghost before = out@;
        if i > 0 {
            out.append(", ");
        }
        out.append(names[i].as_str());
        proof {
            assert(all.take(i + 1).drop_last() =~= all.take(i as int));
            assert(all.take(i + 1).last() == all[i as int]);
            if i == 0 {
                assert(out@ =~= all[0]);
            }
        }
        i = i + 1;
    }
    assert(all.take(i as int) =~= all);
    out
}

/// The recipe that a `spawn` request asks for, or the reply that it is not
/// known.
pub fn plan_spawn(
    tool: &str,
    name: &str,
    channels_bridge: Option<String>,
    mock_agent: Option<String>,
) -> (r: Result<Recipe, ControlResponse>)
    ensures
        ({
            let known = recipe::builtin_recipe(
                tool@,
                name@,
                text::opt_text(channels_bridge),
                text::opt_text(mock_agent),
            );
            match r {
                Ok(x) => known == Some(x@),
                Err(e) => known is None && e@ == (protocol::ControlReplyModel::Error {
                    message: "unknown recipe '"@ + name@ + "' (known: "@ + listed(
                        recipe::recipe_names(tool@),
                    ) + ")"@,
                }),
            }
        }),
{
    match Recipe::builtin(tool, name, channels_bridge, mock_agent) {
        Some(x) => Ok(x),
        None => {
            let mut msg: String = "unknown recipe '".to_owned();
            msg.append(name);
            msg.append("' (known: ");
            msg.append(known_names(tool).as_str());
            msg.append(")");
            Err(ControlResponse::err(msg.as_str()))
        },
    }
}

/// The reply to a `spawn` request.
pub open spec fn spawn_reply(
    outcome: Result<protocol::AgentModel, Seq<char>>,
) -> protocol::ControlReplyModel {
    match outcome {
        Ok(agent) => protocol::ControlReplyModel::Spawned { agent },
        Err(e) => protocol::ControlReplyModel::Error { message: "spawn failed: "@ + e },
    }
}

/// The reply to a `spawn` request, given the agent or why it did not start.
pub fn spawn_response(outcome: Result<AgentInfo, String>) -> (r: ControlResponse)
    ensures
        r@ == spawn_reply(
            match outcome {
                Ok(agent) => Ok(agent@),
                Err(e) => Err(e@),
            },
        ),
{
    match outcome {
        Ok(agent) => ControlResponse::Spawned { agent },
        Err(e) => {
            let mut msg: String = "spawn failed: ".to_owned();
            msg.append(e.as_str());
            ControlResponse::err(msg.as_str())
        },
    }
}

/// How many agents a recipe is brought up to when it is named at the start: as
/// many as it wants warm, and at least one.
pub fn prespawn_count(r: &Recipe) -> (n: usize)
    ensures
        n == if r@.pool_size > 1 {
            r@.pool_size
        } else {
            1
        },
{
    if r.pool_size > 1 {
        r.pool_size
    } else {
        1
    }
}

/// The arguments with which `serve --detach` starts the supervisor in the
/// background.
pub open spec fn background_serve_args(prespawn: Seq<Seq<char>>) -> Seq<Seq<char>>
    decreases prespawn.len(),
{
    if prespawn.len() == 0 {
        seq!["serve"@]
    } else {
        background_serve_args(prespawn.drop_last()).push("--prespawn"@).push(prespawn.last())
    }
}

/// The arguments with which `serve --detach` starts the supervisor in the
/// background: the same call without `--detach`.
pub fn detached_serve_args(prespawn: &Vec<String>) -> (r: Vec<String>)
    ensures
        text::texts(r@) == background_serve_args(text::texts(prespawn@)),
{
    let mut v: Vec<String> = Vec::new();
    push_text(&mut v, "serve");
    let ghost all = text::texts(prespawn@);
    let mut i: usize = 0;
    proof {
        assert(all.take(0) =~= Seq::empty());
        assert(text::texts(v@) =~= seq!["serve"@]);
    }
    while i < prespawn.len()
        invariant
            i <= prespawn@.len(),
            all == text::texts(prespawn@),
            text::texts(v@) == background_serve_args(all.take(i as int)),
        decreases prespawn@.len() - i,
    {
        push_text(&mut v, "--prespawn");
        push_text(&mut v, prespawn[i].as_str());
        proof {
            assert(all.take(i + 1).drop_last() =~= all.take(i as int));
        }
        i = i + 1;
    }
    assert(all.take(i as int) =~= all);
    v
}

/// Why the supervisor cannot be started twice.
pub fn already_running(socket: &str) -> (r: String)
    ensures
        r@ == "supervisor already running (control socket "@ + socket@ + " is live)"@,
{
    let mut out: String = "supervisor already running (control socket ".to_owned();
    out.append(socket);
    out.append(" is live)");
    out
}

/// What an `attach` request comes to.
pub struct AttachPlan {
    /// The agent whose relay is told the holder before the reply goes out.
    pub agent: Option<String>,
    pub reply: ControlResponse,
}

/// What the relay of an agent and the state of its process tell about it.
pub struct Probe {
    /// The lease holder, if the relay answered.
    pub lease_holder: Option<Option<String>>,
    /// The session count, if the relay answered.
    pub session_count: Option<usize>,
    /// Whether the process has exited.
    pub exited: bool,
}

/// The row that `list` gives of an agent: what is on record, with what the
/// relay tells now.
pub open spec fn current_row(a: protocol::AgentModel, p: Probe) -> protocol::AgentModel {
    protocol::AgentModel {
        lease_holder: match p.lease_holder {
            Some(h) => text::opt_text(h),
            None => a.lease_holder,
        },
        session_count: match p.session_count {
            Some(n) => n,
            None => a.session_count,
        },
        liveness: if a.liveness == Liveness::Dead || p.exited {
            Liveness::Dead
        } else {
            Liveness::Warm
        },
        ..a
    }
}

/// The row that `list` gives of an agent.
pub fn list_row(a: &AgentInfo, p: &Probe) -> (r: AgentInfo)
    ensures
        r@ == current_row(a@, *p),
{
    let mut info: AgentInfo = a.clone();
    if let Some(h) = &p.lease_holder {
        info.lease_holder = copy_opt(h);
    }
    if let Some(n) = p.session_count {
        info.session_count = n;
    }
    let dead: bool = match a.liveness {
        Liveness::Dead => true,
        _ => p.exited,
    };
    info.liveness = if dead {
        Liveness::Dead
    } else {
        Liveness::Warm
    };
    info
}

impl Pool {
    /// Decides an `attach` request: finds the agent, and gives the caller its
    /// data socket below `dir`, with the caller as lease holder.
    pub fn attach(&self, target: &str, holder: &str, dir: &str) -> (r: AttachPlan)
        requires
            self.inv(),
        ensures
            text::opt_text(r.agent) == resolved(self@.agents, target@),
            match resolved(self@.agents, target@) {
                Some(id) => {
                    let a = self@.agents[ids(self@.agents).index_of(id)];
                    r.reply@ == (protocol::ControlReplyModel::Attached {
                        socket: protocol::runtime_file(dir@, id, ".acp.sock"@),
                        agent: protocol::AgentModel { lease_holder: Some(holder@), ..a },
                    })
                },
                None => r.reply@ == (protocol::ControlReplyModel::Error {
                    message: "no agent matching '"@ + target@ + "'"@,
                }),
            },
    {
        if let Some(id) = self.resolve_target(target) {
            proof {
                lemma_resolved_is_there(self@.agents, target@);
            }
            if let Some(mut info) = self.get(id.as_str()) {
                info.lease_holder = Some(holder.to_owned());
                let socket: String = agent_socket_path(dir, id.as_str());
                return AttachPlan {
                    agent: Some(id),
                    reply: ControlResponse::Attached { socket, agent: info },
                };
            }
        }
        let mut msg: String = "no agent matching '".to_owned();
        msg.append(target);
        msg.append("'");
        AttachPlan { agent: None, reply: ControlResponse::err(msg.as_str()) }
    }

    /// The agent whose telemetry an `events` request asks for, or the reply
    /// that there is none.
    pub fn events_target(&self, agent: &str) -> (r: Result<String, ControlResponse>)
        requires
            self.inv(),
        ensures
            match r {
                Ok(id) => resolved(self@.agents, agent@) == Some(id@),
                Err(e) => resolved(self@.agents, agent@) is None && e@ == (
                protocol::ControlReplyModel::Error { message: "no agent '"@ + agent@ + "'"@ }),
            },
    {
        match self.resolve_target(agent) {
            Some(id) => Ok(id),
            None => {
                let mut msg: String = "no agent '".to_owned();
                msg.append(agent);
                msg.append("'");
                Err(ControlResponse::err(msg.as_str()))
            },
        }
    }

    /// Decides a `kill` request: takes the agent out of the pool. Tells
    /// whether there is a process to terminate, and the reply.
    pub fn kill(&mut self, id: &str) -> (r: (bool, ControlResponse))
        requires
            old(self).inv(),
        ensures
            final(self).inv(),
            r.0 == ids(old(self)@.agents).contains(id@),
            if r.0 {
                &&& final(self)@ == (PoolModel {
                    agents: old(self)@.agents.remove(ids(old(self)@.agents).index_of(id@)),
                    ..old(self)@
                })
                &&& r.1@ == (protocol::ControlReplyModel::Ack {
                    message: "killed agent '"@ + id@ + "'"@,
                })
            } else {
                &&& final(self)@ == old(self)@
                &&& r.1@ == (protocol::ControlReplyModel::Error {
                    message: "no agent '"@ + id@ + "'"@,
                })
            },
    {
        let ghost before = self@.agents;
        match self.position(id) {
            Some(i) => {
                let _gone: AgentInfo = self.agents.remove(i);
                proof {
                    assert(self@.agents =~= before.remove(i as int));
                    assert(ids(self@.agents) =~= ids(before).remove(i as int));
                }
                let mut msg: String = "killed agent '".to_owned();
                msg.append(id);
                msg.append("'");
                (true, ControlResponse::Ack { message: msg })
            },
            None => {
                let mut msg: String = "no agent '".to_owned();
                msg.append(id);
                msg.append("'");
                (false, ControlResponse::err(msg.as_str()))
            },
        }
    }

    /// The agents that a `detach` request is about: the one with the id, or
    /// all.
    pub fn detach_targets(&self, id: Option<&str>) -> (r: Vec<String>)
        requires
            self.inv(),
        ensures
            text::texts(r@) == match id {
                Some(i) => if ids(self@.agents).contains(i@) {
                    seq![i@]
                } else {
                    Seq::empty()
                },
                None => ids(self@.agents),
            },
    {
        let mut v: Vec<String> = Vec::new();
        assert(text::texts(v@) =~= Seq::empty());
        match id {
            Some(i) => {
                if self.position(i).is_some() {
                    push_text(&mut v, i);
                    assert(text::texts(v@) =~= seq![i@]);
                }
            },
            None => {
                let ghost all = ids(self@.agents);
                let mut k: usize = 0;
                assert(all.take(0) =~= Seq::empty());
                while k < self.agents.len()
                    invariant
                        k <= self.agents@.len(),
                        all == ids(self@.agents),
                        text::texts(v@) == all.take(k as int),
                    decreases self.agents@.len() - k,
                {
                    push_text(&mut v, self.agents[k].id.as_str());
                    assert(all.take(k + 1) =~= all.take(k as int).push(all[k as int]));
                    k = k + 1;
                }
                assert(all.take(k as int) =~= all);
            },
        }
        v
    }
}

/// A target that is found is in the pool.
pub proof fn lemma_resolved_is_there(agents: Seq<protocol::AgentModel>, target: Seq<char>)
    ensures
        resolved(agents, target) matches Some(id) ==> ids(agents).contains(id),
{
    if !ids(agents).contains(target) {
        lemma_first_is_there(agents, target);
    }
}

proof fn lemma_first_is_there(agents: Seq<protocol::AgentModel>, target: Seq<char>)
    ensures
        first_answering(agents, target) matches Some(id) ==> exists|i: int|
            0 <= i < agents.len() && (#[trigger] agents[i]).id == id && answers_to(
                agents[i],
                target,
            ),
        first_answering(agents, target) matches Some(id) ==> ids(agents).contains(id),
    decreases agents.len(),
{
    if agents.len() > 0 {
        let before = agents.drop_last();
        lemma_first_is_there(before, target);
        if let Some(id) = first_answering(before, target) {
            let i = choose|i: int|
                0 <= i < before.len() && (#[trigger] before[i]).id == id && answers_to(
                    before[i],
                    target,
                );
            assert(agents[i] == before[i]);
            assert(ids(agents)[i] == id);
        } else if answers_to(agents.last(), target) {
            let n = agents.len() - 1;
            assert(agents[n] == agents.last());
            assert(ids(agents)[n] == agents.last().id);
        }
    }
}

/// A [`DetachWalk`] as mathematical values.
pub struct WalkModel {
    pub holder: Seq<char>,
    pub asked: Option<Seq<char>>,
    pub left: Seq<Seq<char>>,
}

/// A `detach` request on its way from agent to agent.
pub struct DetachWalk {
    holder: String,
    targets: Vec<String>,
    at: usize,
}

/// What a `detach` request does next.
pub enum WalkStep {
    /// Ask the relay of this agent to release the lease.
    Ask(String),
    /// Reply.
    Done(ControlResponse),
}

impl DetachWalk {
    /// The walk has not gone past its end.
    pub closed spec fn inv(self) -> bool {
        self.at <= self.targets@.len()
    }

    /// The agent that was asked last, and those that are left to ask.
    pub closed spec fn model(self) -> WalkModel {
        WalkModel {
            holder: self.holder@,
            asked: if self.at > 0 {
                Some(self.targets@[self.at - 1]@)
            } else {
                None
            },
            left: text::texts(self.targets@).skip(self.at as int),
        }
    }

    /// A walk over the given agents.
    pub fn begin(holder: &str, targets: Vec<String>) -> (r: Self)
        ensures
            r.inv(),
            r.model() == (WalkModel {
                holder: holder@,
                asked: None,
                left: text::texts(targets@),
            }),
    {
        let r = DetachWalk { holder: holder.to_owned(), targets, at: 0 };
        assert(r.model().left =~= text::texts(targets@));
        r
    }

    /// The holder whose lease is to be released.
    pub fn holder(&self) -> (r: &str)
        ensures
            r@ == self.model().holder,
    {
        self.holder.as_str()
    }

    /// Goes on, given whether the agent that was asked last released a lease.
    /// The first release ends the walk.
    pub fn step(&mut self, released: bool) -> (r: WalkStep)
        requires
            old(self).inv(),
        ensures
            final(self).inv(),
            (final(self).model(), r@) == walked(old(self).model(), released),
            ({
                let m = old(self).model();
                match r {
                    WalkStep::Ask(id) => {
                        &&& !(released && m.asked is Some)
                        &&& m.left.len() > 0
                        &&& id@ == m.left[0]
                        &&& final(self).model() == (WalkModel {
                            asked: Some(m.left[0]),
                            left: m.left.skip(1),
                            ..m
                        })
                    },
                    WalkStep::Done(reply) => {
                        &&& final(self).model() == m
                        &&& reply@ == walk_reply(m, released)
                        &&& released && m.asked is Some || m.left.len() == 0
                    },
                }
            }),
    {
        if released && self.at > 0 {
            let mut msg: String = "detached '".to_owned();
            msg.append(self.holder.as_str());
            msg.append("' from '");
            msg.append(self.targets[self.at - 1].as_str());
            msg.append("'");
            return WalkStep::Done(ControlResponse::Ack { message: msg });
        }
        if self.at < self.targets.len() {
            let id: String = self.targets[self.at].clone();
            let ghost m = self.model();
            self.at = self.at + 1;
            assert(self.model().left =~= m.left.skip(1));
            return WalkStep::Ask(id);
        }
        let mut msg: String = "no matching lease for '".to_owned();
        msg.append(self.holder.as_str());
        msg.append("'");
        WalkStep::Done(ControlResponse::Ack { message: msg })
    }
}

/// A [`WalkStep`] as mathematical values.
pub enum WalkStepModel {
    Ask(Seq<char>),
    Done(protocol::ControlReplyModel),
}

impl View for WalkStep {
    type V = WalkStepModel;

    open spec fn view(&self) -> WalkStepModel {
        match self {
            WalkStep::Ask(id) => WalkStepModel::Ask(id@),
            WalkStep::Done(reply) => WalkStepModel::Done(reply@),
        }
    }
}

/// One step of a walk, given whether the agent that was asked last released a
/// lease.
pub open spec fn walked(m: WalkModel, released: bool) -> (WalkModel, WalkStepModel) {
    if released && m.asked is Some || m.left.len() == 0 {
        (m, WalkStepModel::Done(walk_reply(m, released)))
    } else {
        (
            WalkModel { asked: Some(m.left[0]), left: m.left.skip(1), ..m },
            WalkStepModel::Ask(m.left[0]),
        )
    }
}

/// The reply at the end of a walk.
pub open spec fn walk_reply(m: WalkModel, released: bool) -> protocol::ControlReplyModel {
    protocol::ControlReplyModel::Ack {
        message: match m.asked {
            Some(id) if released => "detached '"@ + m.holder + "' from '"@ + id + "'"@,
            _ => "no matching lease for '"@ + m.holder + "'"@,
        },
    }
}

/// A [`ControlStep`] as mathematical values.
pub enum ControlStepModel {
    Reply(protocol::ControlReplyModel),
    Collect,
    Start(recipe::RecipeModel),
    Announce { agent: Seq<char>, holder: Seq<char>, reply: protocol::ControlReplyModel },
    Release(WalkModel),
    Terminate { id: Seq<char>, reply: protocol::ControlReplyModel },
    Stream(Seq<char>),
}

/// What a control request asks for.
pub enum ControlStep {
    /// Reply, and be done.
    Reply(ControlResponse),
    /// Reply with the rows of all agents.
    Collect,
    /// Start an agent, and reply with what became of it.
    Start(Recipe),
    /// Tell the relay of `agent` who is about to connect, and then reply.
    Announce { agent: String, holder: String, reply: ControlResponse },
    /// Walk from agent to agent, and reply at the end.
    Release(DetachWalk),
    /// Terminate the process of an agent that has left the pool, and reply.
    Terminate { id: String, reply: ControlResponse },
    /// Stream the samples of an agent.
    Stream(String),
}

impl ControlStep {
    /// The walk, if there is one, is sound.
    pub open spec fn inv(self) -> bool {
        match self {
            ControlStep::Release(walk) => walk.inv(),
            _ => true,
        }
    }
}

impl View for ControlStep {
    type V = ControlStepModel;

    open spec fn view(&self) -> ControlStepModel {
        match self {
            ControlStep::Reply(reply) => ControlStepModel::Reply(reply@),
            ControlStep::Collect => ControlStepModel::Collect,
            ControlStep::Start(recipe) => ControlStepModel::Start(recipe@),
            ControlStep::Announce { agent, holder, reply } => ControlStepModel::Announce {
                agent: agent@,
                holder: holder@,
                reply: reply@,
            },
            ControlStep::Release(walk) => ControlStepModel::Release(walk.model()),
            ControlStep::Terminate { id, reply } => ControlStepModel::Terminate {
                id: id@,
                reply: reply@,
            },
            ControlStep::Stream(id) => ControlStepModel::Stream(id@),
        }
    }
}

/// An error reply.
pub open spec fn error_reply(message: Seq<char>) -> protocol::ControlReplyModel {
    protocol::ControlReplyModel::Error { message }
}

/// The surroundings of the supervisor that its replies depend on: the tool it
/// is for, the runtime directory, and the scripts that override the built-in
/// ones.
pub struct Surroundings {
    pub tool: String,
    pub dir: String,
    pub channels_bridge: Option<String>,
    pub mock_agent: Option<String>,
}

/// What a control request asks for, and the pool after it. Only `kill` changes
/// the pool at once; `spawn` does when the agent has started.
pub open spec fn planned(m: PoolModel, s: Surroundings, req: ControlRequest) -> (
    PoolModel,
    ControlStepModel,
) {
    match req {
        ControlRequest::List => (m, ControlStepModel::Collect),
        ControlRequest::Spawn { recipe } => (
            m,
            match recipe::builtin_recipe(
                s.tool@,
                recipe@,
                text::opt_text(s.channels_bridge),
                text::opt_text(s.mock_agent),
            ) {
                Some(r) => ControlStepModel::Start(r),
                None => ControlStepModel::Reply(
                    error_reply(
                        "unknown recipe '"@ + recipe@ + "' (known: "@ + listed(
                            recipe::recipe_names(s.tool@),
                        ) + ")"@,
                    ),
                ),
            },
        ),
        ControlRequest::Attach { target, holder } => (
            m,
            match resolved(m.agents, target@) {
                Some(id) => ControlStepModel::Announce {
                    agent: id,
                    holder: holder@,
                    reply: protocol::ControlReplyModel::Attached {
                        socket: protocol::runtime_file(s.dir@, id, ".acp.sock"@),
                        agent: protocol::AgentModel {
                            lease_holder: Some(holder@),
                            ..m.agents[ids(m.agents).index_of(id)]
                        },
                    },
                },
                None => ControlStepModel::Reply(
                    error_reply("no agent matching '"@ + target@ + "'"@),
                ),
            },
        ),
        ControlRequest::Detach { id, holder } => (
            m,
            ControlStepModel::Release(
                WalkModel {
                    holder: holder@,
                    asked: None,
                    left: match id {
                        Some(i) => if ids(m.agents).contains(i@) {
                            seq![i@]
                        } else {
                            Seq::empty()
                        },
                        None => ids(m.agents),
                    },
                },
            ),
        ),
        ControlRequest::Kill { id } => if ids(m.agents).contains(id@) {
            (
                PoolModel { agents: m.agents.remove(ids(m.agents).index_of(id@)), ..m },
                ControlStepModel::Terminate {
                    id: id@,
                    reply: protocol::ControlReplyModel::Ack {
                        message: "killed agent '"@ + id@ + "'"@,
                    },
                },
            )
        } else {
            (m, ControlStepModel::Reply(error_reply("no agent '"@ + id@ + "'"@)))
        },
        ControlRequest::Events { agent } => (
            m,
            match resolved(m.agents, agent@) {
                Some(id) => ControlStepModel::Stream(id),
                None => ControlStepModel::Reply(error_reply("no agent '"@ + agent@ + "'"@)),
            },
        ),
    }
}

impl Pool {
    /// Decides what a control request asks for.
    pub fn plan(&mut self, s: &Surroundings, req: ControlRequest) -> (r: ControlStep)
        requires
            old(self).inv(),
        ensures
            final(self).inv(),
            r.inv(),
            (final(self)@, r@) == planned(old(self)@, *s, req),
    {
        match req {
            ControlRequest::List => ControlStep::Collect,
            ControlRequest::Spawn { recipe } => match plan_spawn(
                s.tool.as_str(),
                recipe.as_str(),
                copy_opt(&s.channels_bridge),
                copy_opt(&s.mock_agent),
            ) {
                Ok(x) => ControlStep::Start(x),
                Err(refusal) => ControlStep::Reply(refusal),
            },
            ControlRequest::Attach { target, holder } => {
                let plan: AttachPlan = self.attach(
                    target.as_str(),
                    holder.as_str(),
                    s.dir.as_str(),
                );
                match plan.agent {
                    Some(agent) => ControlStep::Announce { agent, holder, reply: plan.reply },
                    None => ControlStep::Reply(plan.reply),
                }
            },
            ControlRequest::Detach { id, holder } => {
                let targets: Vec<String> = match &id {
                    Some(i) => self.detach_targets(Some(i.as_str())),
                    None => self.detach_targets(None),
                };
                ControlStep::Release(DetachWalk::begin(holder.as_str(), targets))
            },
            ControlRequest::Kill { id } => {
                let (found, reply) = self.kill(id.as_str());
                if found {
                    ControlStep::Terminate { id, reply }
                } else {
                    ControlStep::Reply(reply)
                }
            },
            ControlRequest::Events { agent } => match self.events_target(agent.as_str()) {
                Ok(id) => ControlStep::Stream(id),
                Err(refusal) => ControlStep::Reply(refusal),
            },
        }
    }
}

/// Looking does not change the pool: no request but `kill` does.
pub proof fn law_only_kill_changes_the_pool(m: PoolModel, s: Surroundings, req: ControlRequest)
    requires
        !(req is Kill),
    ensures
        planned(m, s, req).0 == m,
{
}

/// A [`Prespawn`] as mathematical values.
pub enum PrespawnModel {
    Start { recipe: recipe::RecipeModel, count: usize },
    Unknown { name: Seq<char> },
}

/// What a recipe named at the start comes to.
pub enum Prespawn {
    /// Start so many agents; after a failure, go on with the next recipe.
    Start { recipe: Recipe, count: usize },
    /// Complain and go on.
    Unknown { name: String },
}

impl View for Prespawn {
    type V = PrespawnModel;

    open spec fn view(&self) -> PrespawnModel {
        match self {
            Prespawn::Start { recipe, count } => PrespawnModel::Start {
                recipe: recipe@,
                count: *count,
            },
            Prespawn::Unknown { name } => PrespawnModel::Unknown { name: name@ },
        }
    }
}

/// What a recipe named at the start comes to: as many agents as it wants warm,
/// and at least one.
pub open spec fn prespawned(s: Surroundings, name: Seq<char>) -> PrespawnModel {
    match recipe::builtin_recipe(
        s.tool@,
        name,
        text::opt_text(s.channels_bridge),
        text::opt_text(s.mock_agent),
    ) {
        Some(r) => PrespawnModel::Start {
            recipe: r,
            count: if r.pool_size > 1 {
                r.pool_size
            } else {
                1
            },
        },
        None => PrespawnModel::Unknown { name },
    }
}

/// Plans the agents that are started before the control socket opens.
pub fn prespawn_plan(s: &Surroundings, names: &Vec<String>) -> (r: Vec<Prespawn>)
    ensures
        r@.len() == names@.len(),
        forall|i: int| 0 <= i < r@.len() ==> (#[trigger] r@[i])@ == prespawned(*s, names@[i]@),
{
    let mut out: Vec<Prespawn> = Vec::new();
    let mut i: usize = 0;
    while i < names.len()
        invariant
            i <= names@.len(),
            out@.len() == i,
            forall|j: int| 0 <= j < i ==> (#[trigger] out@[j])@ == prespawned(*s, names@[j]@),
        decreases names@.len() - i,
    {
        let one: Prespawn = match Recipe::builtin(
            s.tool.as_str(),
            names[i].as_str(),
            copy_opt(&s.channels_bridge),
            copy_opt(&s.mock_agent),
        ) {
            Some(recipe) => {
                let count: usize = prespawn_count(&recipe);
                Prespawn::Start { recipe, count }
            },
            None => Prespawn::Unknown { name: names[i].clone() },
        };
        out.push(one);
        i = i + 1;
    }
    out
}

/// An agent is found by its number, whatever its recipe: the id of agent `n`
/// is the only one that ends in a dash and `n`.
pub proof fn law_number_finds_agent(recipe: Seq<char>, seq: u64, n: u64)
    ensures
        ends_in(minted(recipe, seq), "-"@ + text::decimal_text(n as nat)) <==> seq == n,
{
    reveal_strlit("-");
    let d = text::decimal_text(seq as nat);
    let e = text::decimal_text(n as nat);
    let id = minted(recipe, seq);
    let end = "-"@ + e;
    text::lemma_decimal_digits(seq as nat);
    text::lemma_decimal_digits(n as nat);
    assert(id.len() == recipe.len() + 1 + d.len());
    assert(id[recipe.len() as int] == '-');
    assert forall|i: int| 0 <= i < d.len() implies id[recipe.len() + 1 + i] == d[i] by {}
    if ends_in(id, end) {
        let tail = id.skip(id.len() - end.len());
        assert(tail == end);
        assert(end[0] == '-');
        if e.len() < d.len() {
            assert(tail[0] == id[id.len() - end.len()]);
            assert(id[id.len() - end.len()] == d[d.len() - end.len()]);
            assert(false);
        } else if e.len() > d.len() {
            let k = e.len() - d.len();
            assert(tail[k] == id[id.len() - end.len() + k]);
            assert(tail[k] == '-');
            assert(end[k] == e[k - 1]);
            assert(false);
        } else {
            assert forall|i: int| 0 <= i < e.len() implies e[i] == d[i] by {
                assert(end[i + 1] == e[i]);
                assert(tail[i + 1] == id[id.len() - end.len() + i + 1]);
            }
            assert(e =~= d);
            text::lemma_decimal_injective(seq as nat, n as nat);
        }
    }
    if seq == n {
        assert(id.skip(id.len() - end.len()) =~= end);
    }
}

/// No two agents get the same id, whatever their recipes.
pub proof fn law_minted_ids_are_distinct(a: Seq<char>, s: u64, b: Seq<char>, t: u64)
    requires
        s != t,
    ensures
        minted(a, s) != minted(b, t),
{
    law_number_finds_agent(a, s, t);
    law_number_finds_agent(b, t, t);
}

/// Every agent has an id that was minted for its recipe.
pub open spec fn issued(m: PoolModel) -> bool {
    forall|i: int|
        0 <= i < m.agents.len() ==> exists|s: u64|
            s <= m.next_seq && (#[trigger] m.agents[i]).id == #[trigger] minted(
                m.agents[i].recipe,
                s,
            )
}

/// The next id is always new: as long as the pool holds agents under minted
/// ids only, none has the id that is minted next, and taking an agent in under
/// that id keeps this so.
pub proof fn law_next_id_is_new(m: PoolModel, recipe: Seq<char>, pid: u32)
    requires
        issued(m),
        m.next_seq < u64::MAX,
    ensures
        ({
            let next = (m.next_seq + 1) as u64;
            let id = minted(recipe, next);
            let agents = registered(m.agents, fresh_agent(id, recipe, pid));
            &&& !ids(m.agents).contains(id)
            &&& agents == m.agents.push(fresh_agent(id, recipe, pid))
            &&& issued(PoolModel { agents, next_seq: next })
        }),
{
    let next = (m.next_seq + 1) as u64;
    let id = minted(recipe, next);
    let agents = registered(m.agents, fresh_agent(id, recipe, pid));
    assert forall|i: int| 0 <= i < m.agents.len() implies ids(m.agents)[i] != id by {
        let s = choose|s: u64|
            s <= m.next_seq && m.agents[i].id == #[trigger] minted(m.agents[i].recipe, s);
        law_minted_ids_are_distinct(m.agents[i].recipe, s, recipe, next);
    }
    let after = PoolModel { agents, next_seq: next };
    assert forall|i: int| 0 <= i < after.agents.len() implies exists|s: u64|
        s <= after.next_seq && (#[trigger] after.agents[i]).id == #[trigger] minted(
            after.agents[i].recipe,
            s,
        ) by {
        if i < m.agents.len() {
            assert(after.agents[i] == m.agents[i]);
            let s = choose|s: u64|
                s <= m.next_seq && m.agents[i].id == #[trigger] minted(m.agents[i].recipe, s);
            assert(after.agents[i].id == minted(after.agents[i].recipe, s));
        } else {
            assert(after.agents[i].id == minted(after.agents[i].recipe, next));
        }
    }
}

/// An exact id always wins over a recipe or a number.
pub proof fn law_exact_id_wins(agents: Seq<protocol::AgentModel>, target: Seq<char>)
    requires
        ids(agents).contains(target),
    ensures
        resolved(agents, target) == Some(target),
{
}

/// What is found is in the pool, and a target is found if and only if it is an
/// id or some agent answers to it.
pub proof fn law_found_agents_are_there(agents: Seq<protocol::AgentModel>, target: Seq<char>)
    ensures
        resolved(agents, target) matches Some(id) ==> ids(agents).contains(id),
        resolved(agents, target) is Some <==> ids(agents).contains(target) || exists|i: int|
            0 <= i < agents.len() && answers_to(#[trigger] agents[i], target),
{
    lemma_resolved_is_there(agents, target);
    if !ids(agents).contains(target) {
        lemma_first_is_there(agents, target);
        if let Some(id) = first_answering(agents, target) {
            let i = choose|i: int|
                0 <= i < agents.len() && (#[trigger] agents[i]).id == id && answers_to(
                    agents[i],
                    target,
                );
            assert(answers_to(agents[i], target));
        } else {
            lemma_none_answers(agents, target);
        }
    }
}

proof fn lemma_none_answers(agents: Seq<protocol::AgentModel>, target: Seq<char>)
    requires
        first_answering(agents, target) is None,
    ensures
        forall|i: int| 0 <= i < agents.len() ==> !answers_to(#[trigger] agents[i], target),
    decreases agents.len(),
{
    if agents.len() > 0 {
        lemma_none_answers(agents.drop_last(), target);
        assert forall|i: int| 0 <= i < agents.len() implies !answers_to(
            #[trigger] agents[i],
            target,
        ) by {
            if i < agents.len() - 1 {
                assert(agents.drop_last()[i] == agents[i]);
            }
        }
    }
}

/// A warm agent is found by the name of its recipe.
pub proof fn law_recipe_finds_warm_agent(agents: Seq<protocol::AgentModel>, i: int)
    requires
        0 <= i < agents.len(),
        agents[i].liveness == Liveness::Warm,
        agents[i].recipe.len() > 0 ==> agents[i].recipe[0] != '#',
    ensures
        resolved(agents, agents[i].recipe) is Some,
{
    let target = agents[i].recipe;
    assert(text::without_leading(target, '#') == target);
    assert(answers_to(agents[i], target));
    law_found_agents_are_there(agents, target);
}

/// An agent that was killed is gone: its id is no longer in the pool.
pub proof fn law_killed_agent_is_gone(agents: Seq<protocol::AgentModel>, id: Seq<char>)
    requires
        ids(agents).no_duplicates(),
        ids(agents).contains(id),
    ensures
        !ids(agents.remove(ids(agents).index_of(id))).contains(id),
{
    let k = ids(agents).index_of(id);
    let after = agents.remove(k);
    assert forall|i: int| 0 <= i < after.len() implies ids(after)[i] != id by {
        let j = if i < k {
            i
        } else {
            i + 1
        };
        assert(ids(after)[i] == ids(agents)[j]);
        assert(ids(agents)[k] == id);
    }
}

} // verus!

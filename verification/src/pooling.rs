//! What is promised of the pool: how agents are found, what each control
//! request does, and what is shown.

use crate::control;
use crate::protocol;
use crate::protocol::{ControlRequest, Liveness};
use crate::recipe;
use crate::recipe::RecipeKind;
use crate::supervisor;
use crate::text;
use vstd::prelude::*;

verus! {

proof fn lemma_first(agents: Seq<protocol::AgentModel>, target: Seq<char>)
    ensures
        match supervisor::first_answering(agents, target) {
            Some(id) => exists|i: int|
                0 <= i < agents.len() && (#[trigger] agents[i]).id == id && supervisor::answers_to(
                    agents[i],
                    target,
                ) && forall|j: int|
                    0 <= j < i ==> !supervisor::answers_to(#[trigger] agents[j], target),
            None => forall|j: int|
                0 <= j < agents.len() ==> !supervisor::answers_to(#[trigger] agents[j], target),
        },
    decreases agents.len(),
{
    if agents.len() > 0 {
        let before = agents.drop_last();
        let n = agents.len() - 1;
        lemma_first(before, target);
        assert(agents[n] == agents.last());
        match supervisor::first_answering(before, target) {
            Some(id) => {
                let i = choose|i: int|
                    0 <= i < before.len() && (#[trigger] before[i]).id == id
                        && supervisor::answers_to(before[i], target) && forall|j: int|
                        0 <= j < i ==> !supervisor::answers_to(#[trigger] before[j], target);
                assert(agents[i] == before[i]);
                assert forall|j: int| 0 <= j < i implies !supervisor::answers_to(
                    #[trigger] agents[j],
                    target,
                ) by {
                    assert(agents[j] == before[j]);
                }
            },
            None => {
                assert forall|j: int| 0 <= j < n implies !supervisor::answers_to(
                    #[trigger] agents[j],
                    target,
                ) by {
                    assert(agents[j] == before[j]);
                }
            },
        }
    }
}

/// A recipe finds the first warm agent of that recipe: a target that is no id
/// and does not begin with `#` leads to the agent of that recipe that came
/// first and has not exited, and to none if there is none.
pub proof fn law_recipe_finds_the_first_warm_agent(
    agents: Seq<protocol::AgentModel>,
    target: Seq<char>,
)
    requires
        forall|i: int| 0 <= i < agents.len() ==> (#[trigger] agents[i]).id != target,
        target.len() > 0 ==> target[0] != '#',
    ensures
        match supervisor::resolved(agents, target) {
            Some(id) => exists|i: int|
                0 <= i < agents.len() && (#[trigger] agents[i]).id == id && agents[i].recipe
                    == target && agents[i].liveness == Liveness::Warm && forall|j: int|
                    0 <= j < i ==> (#[trigger] agents[j]).recipe != target || agents[j].liveness
                        != Liveness::Warm,
            None => forall|j: int|
                0 <= j < agents.len() ==> (#[trigger] agents[j]).recipe != target
                    || agents[j].liveness != Liveness::Warm,
        },
{
    if supervisor::ids(agents).contains(target) {
        let i = supervisor::ids(agents).index_of(target);
        assert(agents[i].id == target);
    }
    assert(text::without_leading(target, '#') == target);
    lemma_first(agents, target);
    match supervisor::resolved(agents, target) {
        Some(id) => {
            let i = choose|i: int|
                0 <= i < agents.len() && (#[trigger] agents[i]).id == id && supervisor::answers_to(
                    agents[i],
                    target,
                ) && forall|j: int|
                    0 <= j < i ==> !supervisor::answers_to(#[trigger] agents[j], target);
            assert(agents[i].id != target);
            assert forall|j: int| 0 <= j < i implies (#[trigger] agents[j]).recipe != target
                || agents[j].liveness != Liveness::Warm by {
                assert(!supervisor::answers_to(agents[j], target));
            }
        },
        None => {
            assert forall|j: int| 0 <= j < agents.len() implies (#[trigger] agents[j]).recipe
                != target || agents[j].liveness != Liveness::Warm by {
                assert(!supervisor::answers_to(agents[j], target));
            }
        },
    }
}

/// `#n` finds agent number `n`: among agents with minted ids, and no recipe
/// that is spelled like the number, the target `#n` leads to the agent whose id
/// was minted with `n`, and to none if there is none.
pub proof fn law_hash_finds_the_number(
    agents: Seq<protocol::AgentModel>,
    seqs: Seq<u64>,
    n: u64,
)
    requires
        seqs.len() == agents.len(),
        forall|i: int|
            0 <= i < agents.len() ==> (#[trigger] agents[i]).id == supervisor::minted(
                agents[i].recipe,
                seqs[i],
            ) && agents[i].recipe != text::decimal_text(n as nat),
    ensures
        match supervisor::resolved(agents, seq!['#'] + text::decimal_text(n as nat)) {
            Some(id) => exists|i: int|
                0 <= i < agents.len() && (#[trigger] agents[i]).id == id && seqs[i] == n,
            None => forall|i: int| 0 <= i < seqs.len() ==> #[trigger] seqs[i] != n,
        },
{
    reveal_strlit("-");
    let d = text::decimal_text(n as nat);
    let target = seq!['#'] + d;
    text::lemma_decimal_digits(n as nat);
    assert(target.drop_first() =~= d);
    assert(text::without_leading(d, '#') == d);
    assert(text::without_leading(target, '#') == d);
    assert forall|i: int| 0 <= i < agents.len() implies {
        &&& (#[trigger] agents[i]).id != target
        &&& agents[i].id != d
        &&& supervisor::answers_to(agents[i], target) == (seqs[i] == n)
    } by {
        let a = agents[i];
        supervisor::law_number_finds_agent(a.recipe, seqs[i], n);
        let k = a.recipe.len() as int;
        assert(a.id[k] == '-');
        if a.id == target {
            assert(target[k] == '-');
            assert(k > 0 ==> target[k] == d[k - 1]);
        }
        if a.id == d {
            assert(d[k] == '-');
        }
    }
    if supervisor::ids(agents).contains(target) {
        let i = supervisor::ids(agents).index_of(target);
        assert(agents[i].id == target);
    }
    lemma_first(agents, target);
    match supervisor::resolved(agents, target) {
        Some(id) => {
            let i = choose|i: int|
                0 <= i < agents.len() && (#[trigger] agents[i]).id == id && supervisor::answers_to(
                    agents[i],
                    target,
                ) && forall|j: int|
                    0 <= j < i ==> !supervisor::answers_to(#[trigger] agents[j], target);
            assert(agents[i].id == id && seqs[i] == n);
        },
        None => {
            assert forall|i: int| 0 <= i < seqs.len() implies #[trigger] seqs[i] != n by {
                assert(!supervisor::answers_to(agents[i], target));
            }
        },
    }
}

/// A detach request that names an agent asks that agent alone, if it is there,
/// and no other; one that names none asks every agent, in order. The holder is
/// the caller, and nothing has been asked yet.
pub proof fn law_detach_asks_the_named_agent(
    m: supervisor::PoolModel,
    s: supervisor::Surroundings,
    id: Option<String>,
    holder: String,
)
    ensures
        ({
            let (after, step) = supervisor::planned(m, s, ControlRequest::Detach { id, holder });
            &&& after == m
            &&& step is Release
            &&& step->Release_0.holder == holder@
            &&& step->Release_0.asked is None
            &&& id matches Some(i) ==> {
                &&& forall|k: int|
                    0 <= k < step->Release_0.left.len() ==> #[trigger] step->Release_0.left[k] == i@
                &&& step->Release_0.left.len() <= 1
                &&& forall|k: int|
                    0 <= k < m.agents.len() && (#[trigger] m.agents[k]).id == i@
                        ==> step->Release_0.left.contains(i@)
                &&& step->Release_0.left.len() > 0 ==> exists|k: int|
                    0 <= k < m.agents.len() && (#[trigger] m.agents[k]).id == i@
            }
            &&& id is None ==> {
                &&& step->Release_0.left.len() == m.agents.len()
                &&& forall|k: int|
                    0 <= k < m.agents.len() ==> (#[trigger] m.agents[k]).id
                        == step->Release_0.left[k]
            }
        }),
{
    if let Some(i) = id {
        let left = supervisor::planned(
            m,
            s,
            ControlRequest::Detach { id, holder },
        ).1->Release_0.left;
        assert forall|k: int| 0 <= k < m.agents.len() && (#[trigger] m.agents[k]).id
            == i@ implies left.contains(i@) by {
            assert(supervisor::ids(m.agents)[k] == i@);
            assert(left[0] == i@);
        }
        if left.len() > 0 {
            let k = supervisor::ids(m.agents).index_of(i@);
            assert(m.agents[k].id == i@);
        }
    }
}

/// A walk asks the agents one after the other, each once and in order, and ends
/// with the first that releases a lease, or when none is left. The reply names
/// the holder and the agent that released.
pub proof fn law_walk_ends_with_the_first_release(m: supervisor::WalkModel)
    ensures
        m.left.len() > 0 ==> {
            let (after, step) = supervisor::walked(m, false);
            &&& step == supervisor::WalkStepModel::Ask(m.left[0])
            &&& after.asked == Some(m.left[0])
            &&& after.left == m.left.skip(1)
            &&& after.holder == m.holder
        },
        m.left.len() == 0 ==> supervisor::walked(m, false).1 == supervisor::WalkStepModel::Done(
            protocol::ControlReplyModel::Ack {
                message: "no matching lease for '"@ + m.holder + "'"@,
            },
        ),
        m.asked matches Some(id) ==> supervisor::walked(m, true).1
            == supervisor::WalkStepModel::Done(
            protocol::ControlReplyModel::Ack {
                message: "detached '"@ + m.holder + "' from '"@ + id + "'"@,
            },
        ),
{
}

/// An attach request leads to the agent that its target names: the relay of
/// that agent is told the caller, and the reply gives that agent's data socket
/// and what is on record of it, with the caller as lease holder. A target that
/// names none is refused. The pool stays as it is.
pub proof fn law_attach_gives_the_agents_socket(
    m: supervisor::PoolModel,
    s: supervisor::Surroundings,
    target: String,
    holder: String,
    i: int,
)
    requires
        supervisor::ids(m.agents).no_duplicates(),
        0 <= i < m.agents.len(),
    ensures
        ({
            let (after, step) = supervisor::planned(
                m,
                s,
                ControlRequest::Attach { target, holder },
            );
            &&& after == m
            &&& supervisor::resolved(m.agents, target@) == Some(m.agents[i].id) ==> {
                &&& step is Announce
                &&& step->agent == m.agents[i].id
                &&& step->holder == holder@
                &&& step->Announce_reply is Attached
                &&& step->Announce_reply->socket == protocol::runtime_file(
                    s.dir@,
                    m.agents[i].id,
                    ".acp.sock"@,
                )
                &&& step->Announce_reply->Attached_agent.id == m.agents[i].id
                &&& step->Announce_reply->Attached_agent.recipe == m.agents[i].recipe
                &&& step->Announce_reply->Attached_agent.pid == m.agents[i].pid
                &&& step->Announce_reply->Attached_agent.liveness == m.agents[i].liveness
                &&& step->Announce_reply->Attached_agent.session_count
                    == m.agents[i].session_count
                &&& step->Announce_reply->Attached_agent.lease_holder == Some(holder@)
            }
            &&& supervisor::resolved(m.agents, target@) is None ==> step
                == supervisor::ControlStepModel::Reply(
                protocol::ControlReplyModel::Error {
                    message: "no agent matching '"@ + target@ + "'"@,
                },
            )
        }),
{
    assert(supervisor::ids(m.agents)[i] == m.agents[i].id);
    assert(supervisor::ids(m.agents).index_of(m.agents[i].id) == i);
}

/// Killing an agent takes that agent out and no other, and its process is the
/// one that is terminated; an id that is not there changes nothing and is
/// refused.
pub proof fn law_kill_takes_out_that_agent_alone(
    m: supervisor::PoolModel,
    s: supervisor::Surroundings,
    id: String,
    i: int,
)
    requires
        supervisor::ids(m.agents).no_duplicates(),
    ensures
        ({
            let (after, step) = supervisor::planned(m, s, ControlRequest::Kill { id });
            &&& after.next_seq == m.next_seq
            &&& 0 <= i < m.agents.len() && m.agents[i].id == id@ ==> {
                &&& after.agents == m.agents.take(i) + m.agents.skip(i + 1)
                &&& step == (supervisor::ControlStepModel::Terminate {
                    id: id@,
                    reply: protocol::ControlReplyModel::Ack {
                        message: "killed agent '"@ + id@ + "'"@,
                    },
                })
            }
            &&& (forall|k: int| 0 <= k < m.agents.len() ==> (#[trigger] m.agents[k]).id != id@)
                ==> {
                &&& after == m
                &&& step == supervisor::ControlStepModel::Reply(
                    protocol::ControlReplyModel::Error { message: "no agent '"@ + id@ + "'"@ },
                )
            }
        }),
{
    if 0 <= i < m.agents.len() && m.agents[i].id == id@ {
        assert(supervisor::ids(m.agents)[i] == id@);
        assert(supervisor::ids(m.agents).index_of(id@) == i);
        assert(m.agents.remove(i) =~= m.agents.take(i) + m.agents.skip(i + 1));
    }
    if forall|k: int| 0 <= k < m.agents.len() ==> (#[trigger] m.agents[k]).id != id@ {
        if supervisor::ids(m.agents).contains(id@) {
            let k = supervisor::ids(m.agents).index_of(id@);
            assert(m.agents[k].id == id@);
        }
    }
}

/// An events request streams the agent that its target names, and is refused
/// where it names none; a list request is answered with rows.
pub proof fn law_events_stream_the_named_agent(
    m: supervisor::PoolModel,
    s: supervisor::Surroundings,
    agent: String,
)
    ensures
        supervisor::planned(m, s, ControlRequest::List) == (
            m,
            supervisor::ControlStepModel::Collect,
        ),
        supervisor::planned(m, s, ControlRequest::Events { agent }).0 == m,
        supervisor::resolved(m.agents, agent@) matches Some(id) ==> supervisor::planned(
            m,
            s,
            ControlRequest::Events { agent },
        ).1 == supervisor::ControlStepModel::Stream(id),
        supervisor::resolved(m.agents, agent@) is None ==> supervisor::planned(
            m,
            s,
            ControlRequest::Events { agent },
        ).1 == supervisor::ControlStepModel::Reply(
            protocol::ControlReplyModel::Error { message: "no agent '"@ + agent@ + "'"@ },
        ),
{
}

/// A spawn request starts the recipe that it names, and is refused with the
/// known names where there is none such. Starting is reported as it went.
pub proof fn law_spawn_starts_the_named_recipe(
    m: supervisor::PoolModel,
    s: supervisor::Surroundings,
    recipe: String,
    agent: protocol::AgentModel,
    e: Seq<char>,
)
    ensures
        ({
            let (after, step) = supervisor::planned(m, s, ControlRequest::Spawn { recipe });
            let known = recipe::builtin_recipe(
                s.tool@,
                recipe@,
                text::opt_text(s.channels_bridge),
                text::opt_text(s.mock_agent),
            );
            &&& after == m
            &&& known matches Some(r) ==> step == supervisor::ControlStepModel::Start(r)
            &&& known is None ==> step == supervisor::ControlStepModel::Reply(
                protocol::ControlReplyModel::Error {
                    message: "unknown recipe '"@ + recipe@ + "' (known: "@ + supervisor::listed(
                        recipe::recipe_names(s.tool@),
                    ) + ")"@,
                },
            )
        }),
        supervisor::spawn_reply(Ok(agent)) == (protocol::ControlReplyModel::Spawned { agent }),
        supervisor::spawn_reply(Err(e)) == (protocol::ControlReplyModel::Error {
            message: "spawn failed: "@ + e,
        }),
{
}

/// The known names are listed whole, in order, with a comma between them.
pub proof fn law_lists_are_whole(names: Seq<Seq<char>>, name: Seq<char>)
    ensures
        supervisor::listed(seq![name]) == name,
        names.len() > 0 ==> supervisor::listed(names.push(name)) == supervisor::listed(names)
            + ", "@ + name,
{
    assert(names.push(name).drop_last() =~= names);
}

/// An agent that has just been taken in is there under its id, warm and free,
/// and every other agent is as it was.
pub proof fn law_registering_adds_the_agent(
    agents: Seq<protocol::AgentModel>,
    id: Seq<char>,
    recipe: Seq<char>,
    pid: u32,
    k: int,
)
    requires
        forall|i: int| 0 <= i < agents.len() ==> (#[trigger] agents[i]).id != id,
    ensures
        ({
            let after = supervisor::registered(agents, supervisor::fresh_agent(id, recipe, pid));
            &&& after.len() == agents.len() + 1
            &&& after.last().id == id
            &&& after.last().recipe == recipe
            &&& after.last().pid == pid
            &&& after.last().liveness == Liveness::Warm
            &&& after.last().lease_holder is None
            &&& after.last().session_count == 0
            &&& 0 <= k < agents.len() ==> after[k] == agents[k]
        }),
{
    if supervisor::ids(agents).contains(id) {
        let i = supervisor::ids(agents).index_of(id);
        assert(agents[i].id == id);
    }
}

/// That a process has exited makes its agent dead and changes nothing else of
/// it, and nothing of any other.
pub proof fn law_exit_makes_that_agent_dead(
    agents: Seq<protocol::AgentModel>,
    id: Seq<char>,
    i: int,
)
    requires
        supervisor::ids(agents).no_duplicates(),
        0 <= i < agents.len(),
    ensures
        ({
            let after = supervisor::exited(agents, id);
            &&& after.len() == agents.len()
            &&& agents[i].id != id ==> after[i] == agents[i]
            &&& agents[i].id == id ==> after[i] == (protocol::AgentModel {
                liveness: Liveness::Dead,
                ..agents[i]
            })
        }),
{
    assert(supervisor::ids(agents)[i] == agents[i].id);
    if supervisor::ids(agents).contains(id) {
        let k = supervisor::ids(agents).index_of(id);
        assert(supervisor::ids(agents)[k] == id);
    }
}

/// A row shows who the agent is, the lease holder and session count as the
/// relay tells them now, and that it is dead if it is known to be or its
/// process has exited.
pub proof fn law_rows_show_what_holds_now(a: protocol::AgentModel, p: supervisor::Probe)
    ensures
        ({
            let r = supervisor::current_row(a, p);
            &&& r.id == a.id
            &&& r.recipe == a.recipe
            &&& r.pid == a.pid
            &&& p.lease_holder matches Some(h) ==> r.lease_holder == text::opt_text(h)
            &&& p.lease_holder is None ==> r.lease_holder == a.lease_holder
            &&& p.session_count matches Some(n) ==> r.session_count == n
            &&& p.session_count is None ==> r.session_count == a.session_count
            &&& r.liveness == Liveness::Dead <==> a.liveness == Liveness::Dead || p.exited
            &&& r.liveness != Liveness::Starting
        }),
{
}

/// A recipe that is named at the start is brought up to as many agents as it
/// wants warm, and never to none; an unknown name is told.
pub proof fn law_named_recipes_are_brought_up(s: supervisor::Surroundings, name: Seq<char>)
    ensures
        ({
            let known = recipe::builtin_recipe(
                s.tool@,
                name,
                text::opt_text(s.channels_bridge),
                text::opt_text(s.mock_agent),
            );
            let p = supervisor::prespawned(s, name);
            &&& known matches Some(r) ==> {
                &&& p is Start
                &&& p->recipe == r
                &&& p->count >= 1
                &&& p->count >= r.pool_size
                &&& p->count == 1 || p->count == r.pool_size
            }
            &&& known is None ==> p == (supervisor::PrespawnModel::Unknown { name })
        }),
{
}

/// Whether a name belongs to an agent other than the tool's own.
pub open spec fn is_other_agent(name: Seq<char>) -> bool {
    name == "gemini"@ || name == "acp-stdio"@ || name == "codex"@
}

/// Each name leads to its own recipe: which command is run, with which
/// argument, and which script an override replaces. The tool's own name leads
/// to its channels recipe. A name that is none of these is not known.
pub proof fn law_names_lead_to_their_recipes(
    tool: Seq<char>,
    name: Seq<char>,
    bridge: Option<Seq<char>>,
    mock: Option<Seq<char>>,
)
    ensures
        ({
            let known = recipe::builtin_recipe(tool, name, bridge, mock);
            let r = known->Some_0;
            let own = (name == tool || name == tool + "-channels"@) && !is_other_agent(name);
            &&& known is None <==> !is_other_agent(name) && !own && name != "mock"@
            &&& known is Some ==> r.args.len() == 1
            &&& name == "gemini"@ || name == "acp-stdio"@ ==> {
                &&& r.name == "gemini"@
                &&& r.kind == RecipeKind::AcpStdio
                &&& r.command == "gemini"@
                &&& r.args[0] == "--acp"@
            }
            &&& name == "codex"@ ==> {
                &&& r.name == "codex"@
                &&& r.kind == RecipeKind::AcpStdio
                &&& r.command == "codex"@
                &&& r.args[0] == "acp"@
            }
            &&& own ==> {
                &&& r.name == tool + "-channels"@
                &&& r.kind == RecipeKind::ClaudeChannels
                &&& r.command == "node"@
                &&& bridge matches Some(b) ==> r.args[0] == b
                &&& bridge is None ==> r.args[0] == "scripts/"@ + (tool + "-channels"@)
                    + "-bridge.mjs"@
            }
            &&& name == "mock"@ && !own ==> {
                &&& r.name == "mock"@
                &&& r.kind == RecipeKind::AcpStdio
                &&& r.command == "node"@
                &&& mock matches Some(x) ==> r.args[0] == x
                &&& mock is None ==> r.args[0] == "tests/support/mock-acp-agent.mjs"@
            }
        }),
{
    reveal_strlit("gemini");
    reveal_strlit("acp-stdio");
    reveal_strlit("codex");
    reveal_strlit("mock");
    assert("gemini"@.len() == 6 && "acp-stdio"@.len() == 9 && "codex"@.len() == 5 && "mock"@.len()
        == 4);
}

/// The table of agents has a row for each agent, in order, below one header,
/// and each row shows the agent's id, recipe, process, liveness, holder and
/// sessions; an empty pool is told as such.
pub proof fn law_table_has_a_row_for_each_agent(
    agents: Seq<protocol::AgentModel>,
    a: protocol::AgentModel,
)
    ensures
        control::list_text(Seq::empty()) == "(no agents)\n"@,
        control::list_text(seq![a]) == control::list_header() + control::list_row(a),
        agents.len() > 0 ==> control::list_text(agents.push(a)) == control::list_text(agents)
            + control::list_row(a),
        control::list_row(a) == text::padded(a.id, 16) + " "@ + text::padded(a.recipe, 16) + " "@
            + text::padded(text::decimal_text(a.pid as nat), 8) + " "@ + (match a.liveness {
            Liveness::Warm => "Warm"@,
            Liveness::Starting => "Starting"@,
            Liveness::Dead => "Dead"@,
        }) + " "@ + text::padded(
            match a.lease_holder {
                Some(h) => h,
                None => "-"@,
            },
            14,
        ) + " "@ + text::decimal_text(a.session_count as nat) + "\n"@,
{
    reveal_with_fuel(control::list_rows, 3);
    assert(seq![a].drop_last() =~= Seq::empty());
    assert(Seq::empty() + control::list_row(a) =~= control::list_row(a));
    assert(control::list_rows(seq![a]) =~= control::list_row(a));
    assert(agents.push(a).drop_last() =~= agents);
    if agents.len() > 0 {
        assert(control::list_text(agents.push(a)) =~= control::list_text(agents)
            + control::list_row(a));
    }
}

/// A reply that is not the one waited for is a refusal if it is an error, with
/// its message, and otherwise unexpected, as it came. `events` prints samples,
/// stops on errors, and complains about anything else.
pub proof fn law_replies_are_told_apart(resp: protocol::ControlResponse)
    ensures
        resp matches protocol::ControlResponse::Error { message } ==> {
            &&& control::misfit(resp) == control::ReplyError::Refused(message)
            &&& control::events_action(resp) == control::EventsStep::Fail(message)
        },
        !(resp is Error) ==> control::misfit(resp) == control::ReplyError::Unexpected(resp),
        resp matches protocol::ControlResponse::Telemetry(t) ==> control::events_action(resp)
            == control::EventsStep::Print(t),
        !(resp is Error) && !(resp is Telemetry) ==> control::events_action(resp)
            == control::EventsStep::Complain(resp),
{
}

/// Every id is made with the next number, and no id that was made before is
/// made again: two ids made one after the other differ, whatever the recipes.
pub proof fn law_ids_are_made_in_order(
    m: supervisor::PoolModel,
    a: Seq<char>,
    b: Seq<char>,
)
    requires
        m.next_seq < u64::MAX - 1,
    ensures
        ({
            let (first, x) = supervisor::minting(m, a);
            let (second, y) = supervisor::minting(first, b);
            &&& first.next_seq == m.next_seq + 1
            &&& second.next_seq == m.next_seq + 2
            &&& first.agents == m.agents
            &&& x == a + "-"@ + text::decimal_text((m.next_seq + 1) as nat)
            &&& x != y
        }),
{
    supervisor::law_minted_ids_are_distinct(
        a,
        (m.next_seq + 1) as u64,
        b,
        (m.next_seq + 2) as u64,
    );
}

/// A `#` before a name is optional: an agent answers to `#name` if it answers
/// to `name`, and besides only if its id ends in a dash and the name.
pub proof fn law_hash_is_optional(a: protocol::AgentModel, name: Seq<char>)
    requires
        name.len() > 0 ==> name[0] != '#',
    ensures
        supervisor::answers_to(a, seq!['#'] + name) <==> supervisor::answers_to(a, name)
            || supervisor::ends_in(a.id, "-"@ + name),
        supervisor::answers_to(a, name) <==> a.id == name || (a.recipe == name && a.liveness
            == Liveness::Warm),
{
    let target = seq!['#'] + name;
    assert(target.drop_first() =~= name);
    assert(text::without_leading(name, '#') == name);
    assert(text::without_leading(target, '#') == name);
}

/// An agent that is taken in under an id that is there already takes the place
/// of the one that had it.
pub proof fn law_registering_replaces_an_id(
    agents: Seq<protocol::AgentModel>,
    agent: protocol::AgentModel,
    i: int,
    k: int,
)
    requires
        supervisor::ids(agents).no_duplicates(),
        0 <= i < agents.len(),
        agents[i].id == agent.id,
    ensures
        ({
            let after = supervisor::registered(agents, agent);
            &&& after.len() == agents.len()
            &&& after[i] == agent
            &&& 0 <= k < agents.len() && k != i ==> after[k] == agents[k]
        }),
{
    assert(supervisor::ids(agents)[i] == agent.id);
    assert(supervisor::ids(agents).index_of(agent.id) == i);
}

/// Every agent of the pool is kept across restarts, whatever its state, with
/// its id, recipe and process, in order, and nothing else is.
pub proof fn law_every_agent_is_kept(agents: Seq<protocol::AgentModel>, i: int)
    ensures
        supervisor::kept_of(agents).len() == agents.len(),
        0 <= i < agents.len() ==> {
            &&& supervisor::kept_of(agents)[i].0 == agents[i].id
            &&& supervisor::kept_of(agents)[i].1 == agents[i].recipe
            &&& supervisor::kept_of(agents)[i].2 == agents[i].pid
        },
{
}

} // verus!

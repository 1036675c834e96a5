//! What is promised of how agents and background processes are started.

use crate::daemon;
use crate::names;
use crate::protocol;
use crate::supervisor;
use crate::text;
use vstd::prelude::*;

verus! {

/// How many arguments an optional flag with its value takes up.
pub open spec fn width(value: Option<Seq<char>>) -> int {
    if value is Some {
        2
    } else {
        0
    }
}

/// Where the arguments of the mode begin: behind those of the stream and the
/// model.
pub open spec fn mode_at(model: Option<Seq<char>>) -> int {
    6 + width(model)
}

proof fn lemma_flags()
    ensures
        "-p"@.len() == 2,
        "--verbose"@.len() == 9,
        "--input-format"@.len() == 14,
        "stream-json"@.len() == 11,
        "--output-format"@.len() == 15,
        "--model"@.len() == 7,
        "--append-system-prompt"@.len() == 22,
        "--system-prompt"@.len() == 15,
        "--tools"@.len() == 7,
        ""@.len() == 0,
        "--strict-mcp-config"@.len() == 19,
        "--setting-sources"@.len() == 17,
        "--exclude-dynamic-system-prompt-sections"@.len() == 40,
        "--permission-mode"@.len() == 17,
        "default"@.len() == 7,
        "--resume"@.len() == 8,
        "--system-prompt"@ != "--output-format"@,
        "--tools"@ != "--model"@,
        "--tools"@ != "default"@,
        "--model"@ != "default"@,
        "--setting-sources"@ != "--permission-mode"@,
        daemon::default_lean_system().len() > 100,
{
    reveal_strlit("-p");
    reveal_strlit("--verbose");
    reveal_strlit("--input-format");
    reveal_strlit("stream-json");
    reveal_strlit("--output-format");
    reveal_strlit("--model");
    reveal_strlit("--append-system-prompt");
    reveal_strlit("--system-prompt");
    reveal_strlit("--tools");
    reveal_strlit("");
    reveal_strlit("--strict-mcp-config");
    reveal_strlit("--setting-sources");
    reveal_strlit("--exclude-dynamic-system-prompt-sections");
    reveal_strlit("--permission-mode");
    reveal_strlit("default");
    reveal_strlit("--resume");
    reveal_strlit(
        "You are a fast assistant invoked over a pipe. Answer directly and concisely. Output only the answer — no preamble, no markdown fences, no commentary.",
    );
    assert("--system-prompt"@[2] == 's' && "--output-format"@[2] == 'o');
    assert("--tools"@[0] == '-' && "default"@[0] == 'd' && "--model"@[0] == '-');
    assert("--tools"@[2] == 't' && "--model"@[2] == 'm');
    assert("--setting-sources"@[2] == 's' && "--permission-mode"@[2] == 'p');
}

/// The agent is always started as a stream of JSON lines, and with the model
/// that is asked for.
pub proof fn law_agent_speaks_json_lines(
    model: Option<Seq<char>>,
    system: Option<Seq<char>>,
    resume: Option<Seq<char>>,
    full: bool,
)
    ensures
        ({
            let a = daemon::tool_arg_texts(model, system, resume, full);
            &&& a.len() == mode_at(model) + (if full {
                width(system)
            } else {
                10
            }) + width(resume)
            &&& a[0] == "-p"@
            &&& a[1] == "--verbose"@
            &&& a[2] == "--input-format"@
            &&& a[3] == "stream-json"@
            &&& a[4] == "--output-format"@
            &&& a[5] == "stream-json"@
            &&& model matches Some(m) ==> a[6] == "--model"@ && a[7] == m
            &&& resume matches Some(r) ==> a[a.len() - 2] == "--resume"@ && a[a.len() - 1] == r
        }),
{
}

/// Lean unless `full` is set, whatever the system prompt: the prompt given, or
/// the default one, replaces the agent's own, and tools, MCP servers and
/// settings are switched off.
pub proof fn law_lean_by_default(
    model: Option<Seq<char>>,
    system: Option<Seq<char>>,
    resume: Option<Seq<char>>,
)
    ensures
        ({
            let a = daemon::tool_arg_texts(model, system, resume, false);
            let k = mode_at(model);
            &&& a.len() == k + 10 + width(resume)
            &&& a[k] == "--system-prompt"@
            &&& system matches Some(s) ==> a[k + 1] == s
            &&& system is None ==> a[k + 1]
                == "You are a fast assistant invoked over a pipe. Answer directly and concisely. Output only the answer — no preamble, no markdown fences, no commentary."@
            &&& a[k + 2] == "--tools"@
            &&& a[k + 3] == ""@
            &&& a[k + 4] == "--strict-mcp-config"@
            &&& a[k + 5] == "--setting-sources"@
            &&& a[k + 6] == ""@
            &&& a[k + 7] == "--exclude-dynamic-system-prompt-sections"@
            &&& a[k + 8] == "--permission-mode"@
            &&& a[k + 9] == "default"@
        }),
{
}

/// Lean mode never appends to the agent's own prompt. (A value that spells the
/// flag is left out.)
pub proof fn law_lean_appends_no_prompt(
    model: Option<Seq<char>>,
    system: Option<Seq<char>>,
    resume: Option<Seq<char>>,
)
    requires
        model != Some("--append-system-prompt"@),
        system != Some("--append-system-prompt"@),
        resume != Some("--append-system-prompt"@),
    ensures
        !daemon::tool_arg_texts(model, system, resume, false).contains(
            "--append-system-prompt"@,
        ),
{
    lemma_flags();
    law_lean_by_default(model, system, resume);
    law_agent_speaks_json_lines(model, system, resume, false);
    let a = daemon::tool_arg_texts(model, system, resume, false);
    let k = mode_at(model);
    reveal_strlit(
        "You are a fast assistant invoked over a pipe. Answer directly and concisely. Output only the answer — no preamble, no markdown fences, no commentary.",
    );
    assert forall|i: int| 0 <= i < a.len() implies a[i] != "--append-system-prompt"@ by {
        if i < 6 {
            assert(i == 0 || i == 1 || i == 2 || i == 3 || i == 4 || i == 5);
        } else if i < k {
            assert(i == 6 || i == 7);
        } else if i < k + 10 {
            assert(i == k || i == k + 1 || i == k + 2 || i == k + 3 || i == k + 4 || i == k + 5 || i
                == k + 6 || i == k + 7 || i == k + 8 || i == k + 9);
        } else {
            assert(i == a.len() - 2 || i == a.len() - 1);
        }
    }
}

/// Whether a text is one of the flags that make the agent lean.
pub open spec fn is_lean_flag(s: Seq<char>) -> bool {
    ||| s == "--system-prompt"@
    ||| s == "--tools"@
    ||| s == "--strict-mcp-config"@
    ||| s == "--setting-sources"@
    ||| s == "--exclude-dynamic-system-prompt-sections"@
    ||| s == "--permission-mode"@
}

/// Full mode leaves the agent as it is: a prompt is appended if one is given,
/// and no flag of lean mode is passed. (Values that spell such a flag are left
/// out.)
pub proof fn law_full_keeps_the_loadout(
    model: Option<Seq<char>>,
    system: Option<Seq<char>>,
    resume: Option<Seq<char>>,
)
    requires
        model matches Some(m) ==> !is_lean_flag(m),
        system matches Some(s) ==> !is_lean_flag(s),
        resume matches Some(r) ==> !is_lean_flag(r),
    ensures
        ({
            let a = daemon::tool_arg_texts(model, system, resume, true);
            let k = mode_at(model);
            &&& a.len() == k + width(system) + width(resume)
            &&& system matches Some(s) ==> a[k] == "--append-system-prompt"@ && a[k + 1] == s
            &&& forall|i: int| 0 <= i < a.len() ==> !is_lean_flag(#[trigger] a[i])
        }),
{
    lemma_flags();
    law_agent_speaks_json_lines(model, system, resume, true);
    let a = daemon::tool_arg_texts(model, system, resume, true);
    let k = mode_at(model);
    assert forall|i: int| 0 <= i < a.len() implies !is_lean_flag(#[trigger] a[i]) by {
        if i < 6 {
            assert(i == 0 || i == 1 || i == 2 || i == 3 || i == 4 || i == 5);
        } else if i < k {
            assert(i == 6 || i == 7);
        } else if i < k + width(system) {
            assert(i == k || i == k + 1);
        } else {
            assert(i == a.len() - 2 || i == a.len() - 1);
        }
    }
}

/// The call in the background asks for what the call in the foreground asked
/// for: the session, and each option if and only if it was given, with its
/// value. It does not ask to detach again. (Values that spell that flag are
/// left out.)
pub proof fn law_background_call_is_the_same(
    session: Seq<char>,
    model: Option<Seq<char>>,
    system: Option<Seq<char>>,
    resume: Option<Seq<char>>,
    full: bool,
)
    ensures
        ({
            let a = daemon::background_args(session, model, system, resume, full);
            let s = 3 + width(model);
            let r = s + width(system);
            let f = r + width(resume);
            &&& a.len() == f + (if full {
                1int
            } else {
                0int
            })
            &&& a[0] == "up"@
            &&& a[1] == "--session"@
            &&& a[2] == session
            &&& model matches Some(v) ==> a[3] == "--model"@ && a[4] == v
            &&& system matches Some(v) ==> a[s] == "--system"@ && a[s + 1] == v
            &&& resume matches Some(v) ==> a[r] == "--resume"@ && a[r + 1] == v
            &&& full ==> a[f] == "--full"@
            &&& session != "--detach"@ && model != Some("--detach"@) && system != Some(
                "--detach"@,
            ) && resume != Some("--detach"@) ==> !a.contains("--detach"@)
        }),
{
    reveal_strlit("up");
    reveal_strlit("--session");
    reveal_strlit("--model");
    reveal_strlit("--system");
    reveal_strlit("--resume");
    reveal_strlit("--full");
    reveal_strlit("--detach");
    let a = daemon::background_args(session, model, system, resume, full);
    let s = 3 + width(model);
    let r = s + width(system);
    let f = r + width(resume);
    assert("--detach"@[2] == 'd' && "--system"@[2] == 's' && "--resume"@[2] == 'r');
    assert("up"@.len() == 2 && "--session"@.len() == 9 && "--model"@.len() == 7 && "--full"@.len()
        == 6 && "--detach"@.len() == 8);
    if session != "--detach"@ && model != Some("--detach"@) && system != Some("--detach"@)
        && resume != Some("--detach"@) {
        assert forall|i: int| 0 <= i < a.len() implies a[i] != "--detach"@ by {
            if i < 3 {
                assert(i == 0 || i == 1 || i == 2);
            } else if i < s {
                assert(i == 3 || i == 4);
            } else if i < r {
                assert(i == s || i == s + 1);
            } else if i < f {
                assert(i == r || i == r + 1);
            } else {
                assert(i == f);
            }
        }
    }
}

/// The supervisor in the background is asked for the same recipes, in the same
/// order, and for nothing else.
pub proof fn law_background_supervisor_is_the_same(prespawn: Seq<Seq<char>>)
    ensures
        ({
            let a = supervisor::background_serve_args(prespawn);
            &&& a.len() == 1 + 2 * prespawn.len()
            &&& a[0] == "serve"@
            &&& forall|i: int|
                0 <= i < prespawn.len() ==> (#[trigger] prespawn[i]) == a[2 + 2 * i] && a[1 + 2 * i]
                    == "--prespawn"@
        }),
    decreases prespawn.len(),
{
    if prespawn.len() > 0 {
        let before = prespawn.drop_last();
        law_background_supervisor_is_the_same(before);
        let b = supervisor::background_serve_args(before);
        let a = supervisor::background_serve_args(prespawn);
        assert forall|i: int| 0 <= i < prespawn.len() implies (#[trigger] prespawn[i]) == a[2 + 2
            * i] && a[1 + 2 * i] == "--prespawn"@ by {
            if i < before.len() {
                assert(before[i] == prespawn[i]);
                assert(a[1 + 2 * i] == b[1 + 2 * i]);
                assert(a[2 + 2 * i] == b[2 + 2 * i]);
            }
        }
    }
}

/// A socket is taken over only from a daemon that is gone: one that answers is
/// refused, one that does not is removed, and where there is none nothing is.
pub proof fn law_live_sockets_are_left_alone(present: bool, live: bool)
    ensures
        daemon::socket_claim(present, live) == daemon::SocketClaim::Refuse <==> present && live,
        daemon::socket_claim(present, live) == daemon::SocketClaim::RemoveStale <==> present
            && !live,
        daemon::socket_claim(present, live) == daemon::SocketClaim::Fresh <==> !present,
{
}

/// A start in the background is waited for until it accepts a connection, and
/// given up at the deadline and not before.
pub proof fn law_readiness_is_bounded(connected: bool, now: u64, deadline: u64)
    ensures
        daemon::readiness(connected, now, deadline) == daemon::Poll::Ready <==> connected,
        daemon::readiness(connected, now, deadline) == daemon::Poll::GaveUp <==> !connected && now
            >= deadline,
{
}

/// Saving a session id changes the id alone: the process and the model that
/// were on record stay. Where nothing was on record, the process is the one
/// that saves. A new session has its model and no id yet.
pub proof fn law_saved_id_leaves_the_rest(
    existing: Option<protocol::StateModel>,
    pid: u32,
    id: Seq<char>,
    model: Option<Seq<char>>,
)
    ensures
        ({
            let after = daemon::state_with_id(existing, pid, id);
            &&& after.session_id == Some(id)
            &&& existing matches Some(s) ==> after.pid == s.pid && after.model == s.model
            &&& existing is None ==> after.pid == pid && after.model is None
        }),
        daemon::state_at_start(pid, model).pid == pid,
        daemon::state_at_start(pid, model).model == model,
        daemon::state_at_start(pid, model).session_id is None,
{
}

/// The last id that was saved is the one on record.
pub proof fn law_last_id_is_on_record(
    existing: Option<protocol::StateModel>,
    pid: u32,
    a: Seq<char>,
    b: Seq<char>,
)
    ensures
        daemon::state_with_id(Some(daemon::state_with_id(existing, pid, a)), pid, b)
            == daemon::state_with_id(existing, pid, b),
{
}

/// The runtime directory stands below the one that the environment names; where
/// it names none, no two users share one.
pub proof fn law_runtime_directories(
    tool: Seq<char>,
    xdg: Option<Seq<char>>,
    dir: Seq<char>,
    u: u32,
    v: u32,
)
    requires
        tool.len() > 0 ==> tool[0] != '/',
    ensures
        xdg == Some(dir) && dir.len() > 0 ==> {
            let r = protocol::runtime_dir_of(tool, xdg, u);
            &&& r.len() >= dir.len()
            &&& r.take(dir.len() as int) == dir
            &&& r == protocol::runtime_dir_of(tool, xdg, v)
            &&& r.skip(r.len() - tool.len() - 5) == tool + "-pipe"@
        },
        (xdg is None || xdg == Some(Seq::<char>::empty())) && u != v ==> protocol::runtime_dir_of(
            tool,
            xdg,
            u,
        ) != protocol::runtime_dir_of(tool, xdg, v),
        xdg is None || xdg == Some(Seq::<char>::empty()) ==> protocol::runtime_dir_of(tool, xdg, u)
            == "/tmp/"@ + tool + "-pipe-"@ + text::decimal_text(u as nat),
{
    reveal_strlit("-pipe");
    reveal_strlit("-pipe-");
    reveal_strlit("-");
    let p = names::program(tool);
    if tool.len() > 0 {
        assert(p[0] == tool[0]);
    }
    assert(!text::is_absolute(p));
    if xdg == Some(dir) && dir.len() > 0 {
        let r = protocol::runtime_dir_of(tool, xdg, u);
        assert(r.take(dir.len() as int) =~= dir);
        assert(r.skip(r.len() - tool.len() - 5) =~= tool + "-pipe"@);
    }
    if xdg is None || xdg == Some(Seq::<char>::empty()) {
        let x = protocol::runtime_dir_of(tool, xdg, u);
        let y = protocol::runtime_dir_of(tool, xdg, v);
        let head = "/tmp/"@ + p + "-"@;
        assert(x == head + text::decimal_text(u as nat));
        assert(y == head + text::decimal_text(v as nat));
        assert(x =~= "/tmp/"@ + tool + "-pipe-"@ + text::decimal_text(u as nat));
        if u != v && x == y {
            assert(x.skip(head.len() as int) =~= text::decimal_text(u as nat));
            assert(y.skip(head.len() as int) =~= text::decimal_text(v as nat));
            text::lemma_decimal_injective(u as nat, v as nat);
        }
    }
}

/// Every file of the runtime directory is below it, and is named by its stem
/// and ending. (A stem that is an absolute path leaves the directory.)
pub proof fn law_runtime_files_are_below_the_directory(
    dir: Seq<char>,
    stem: Seq<char>,
    ending: Seq<char>,
)
    requires
        stem.len() > 0,
        stem[0] != '/',
    ensures
        ({
            let f = protocol::runtime_file(dir, stem, ending);
            let n = f.len() - stem.len() - ending.len();
            &&& n >= dir.len()
            &&& f.take(dir.len() as int) == dir
            &&& f.skip(n) == stem + ending
            &&& n <= dir.len() + 1
        }),
{
    assert((stem + ending)[0] == stem[0]);
    let f = protocol::runtime_file(dir, stem, ending);
    assert(f.take(dir.len() as int) =~= dir);
    assert(f.skip(f.len() - stem.len() - ending.len()) =~= stem + ending);
}

/// The files of the pipe go by their documented names.
pub proof fn law_files_go_by_their_names(dir: Seq<char>, name: Seq<char>)
    ensures
        protocol::session_socket(dir, name) == text::joined(dir, name + ".sock"@),
        protocol::session_state(dir, name) == text::joined(dir, name + ".state.json"@),
        protocol::agent_socket(dir, name) == text::joined(dir, name + ".acp.sock"@),
        protocol::control_socket(dir) == text::joined(dir, "control.sock"@),
        protocol::supervisor_state(dir) == text::joined(dir, "supervisor.state.json"@),
{
}

/// A relative name is joined to its directory with exactly one separator; an
/// absolute one stands for itself.
pub proof fn law_paths_are_joined_once(dir: Seq<char>, name: Seq<char>)
    ensures
        name.len() > 0 && name[0] == '/' ==> text::joined(dir, name) == name,
        dir.len() == 0 ==> text::joined(dir, name) == name,
        dir.len() > 0 && dir.last() == '/' && !(name.len() > 0 && name[0] == '/')
            ==> text::joined(dir, name) == dir + name,
        dir.len() > 0 && dir.last() != '/' && !(name.len() > 0 && name[0] == '/')
            ==> text::joined(dir, name) == dir + seq!['/'] + name,
{
    if dir.len() == 0 {
        assert(dir + name =~= name);
    }
}

} // verus!

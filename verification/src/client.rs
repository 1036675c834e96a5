//! The client side of the request/reply pipe: what is sent, and how replies,
//! shutdowns and status are reported.

use crate::names;
use crate::names::program_name;
use crate::protocol;
use crate::protocol::{Response, State};
use crate::text;
use crate::text::{decimal, strip_trailing};
use vstd::prelude::*;
use vstd::string::*;

verus! {

/// The message that standard input stands for.
pub open spec fn message_of(input: Seq<char>) -> Seq<char> {
    text::without_trailing(input, '\n')
}

/// The message that standard input stands for: all of it, but for the line
/// feeds at its end.
pub fn stdin_message(input: &str) -> (r: String)
    ensures
        r@ == message_of(input@),
{
    strip_trailing(input, '\n')
}

/// What a command prints, and its exit code.
pub struct Report {
    /// For standard output.
    pub out: String,
    /// For standard error.
    pub err: String,
    pub code: i32,
}

/// A [`Report`] as mathematical values.
pub struct ReportModel {
    pub out: Seq<char>,
    pub err: Seq<char>,
    pub code: i32,
}

impl View for Report {
    type V = ReportModel;

    open spec fn view(&self) -> ReportModel {
        ReportModel { out: self.out@, err: self.err@, code: self.code }
    }
}

/// Text that ends in a line feed: one is added where it does not.
pub open spec fn ended_line(s: Seq<char>) -> Seq<char> {
    if s.len() > 0 && s.last() == '\n' {
        s
    } else {
        s.push('\n')
    }
}

/// What `send` prints: the reply of a turn that went well, and otherwise the
/// error, with an exit code that tells the two apart.
pub open spec fn reply_report(tool: Seq<char>, resp: protocol::ResponseModel) -> ReportModel {
    if resp.ok {
        ReportModel { out: ended_line(resp.text), err: Seq::empty(), code: 0 }
    } else {
        ReportModel {
            out: Seq::empty(),
            err: names::program(tool) + ": "@ + (match resp.error {
                Some(e) => e,
                None => "unknown error"@,
            }) + "\n"@,
            code: 1,
        }
    }
}

/// What `send` prints for a reply.
pub fn report_reply(tool: &str, resp: &Response) -> (r: Report)
    ensures
        r@ == reply_report(tool@, resp@),
{
    proof {
        reveal_strlit("\n");
    }
    assert("\n"@ =~= seq!['\n']);
    if resp.ok {
        let mut out: String = resp.text.clone();
        let n: usize = out.as_str().unicode_len();
        let done: bool = n > 0 && out.as_str().get_char(n - 1) == '\n';
        if !done {
            out.append("\n");
        }
        assert(out@ =~= ended_line(resp.text@));
        Report { out, err: String::new(), code: 0 }
    } else {
        let mut err: String = program_name(tool);
        err.append(": ");
        match &resp.error {
            Some(e) => err.append(e.as_str()),
            None => err.append("unknown error"),
        }
        err.append("\n");
        Report { out: String::new(), err, code: 1 }
    }
}

/// Why a message could not be sent.
pub fn connect_error(tool: &str, session: &str, socket: &str) -> (r: String)
    ensures
        r@ == "connecting to session '"@ + session@ + "' at "@ + socket@
            + " (is the daemon up? `"@ + names::program(tool@) + " up`)"@,
{
    let mut out: String = "connecting to session '".to_owned();
    out.append(session);
    out.append("' at ");
    out.append(socket);
    out.append(" (is the daemon up? `");
    out.append(program_name(tool).as_str());
    out.append(" up`)");
    out
}

/// The process that `down` terminates, if there is one on record.
pub open spec fn down_target(state: Option<protocol::StateModel>) -> Option<u32> {
    match state {
        Some(s) => Some(s.pid),
        None => None,
    }
}

/// What `down` does: the process to terminate, or why there is none.
pub fn down_plan(session: &str, state: &Option<State>) -> (r: Result<u32, String>)
    ensures
        match r {
            Ok(pid) => down_target(
                match *state {
                    Some(s) => Some(s@),
                    None => None,
                },
            ) == Some(pid) && (state matches Some(s) && s.pid == pid),
            Err(e) => state is None && e@ == "no such session '"@ + session@
                + "' (no state file)"@,
        },
{
    match state {
        Some(s) => Ok(s.pid),
        None => {
            let mut out: String = "no such session '".to_owned();
            out.append(session);
            out.append("' (no state file)");
            Err(out)
        },
    }
}

/// What `down` prints.
pub open spec fn down_text(tool: Seq<char>, session: Seq<char>, pid: u32, signalled: bool) -> Seq<
    char,
> {
    if signalled {
        names::program(tool) + ": sent SIGTERM to session '"@ + session + "' (pid "@
            + text::decimal_text(pid as nat) + ")\n"@
    } else {
        names::program(tool) + ": session '"@ + session + "' was not running (cleaned up)\n"@
    }
}

/// What `down` prints, given whether the signal reached the process, and
/// whether the files of the session are left over and to be removed.
pub fn down_report(tool: &str, session: &str, pid: u32, signalled: bool) -> (r: (String, bool))
    ensures
        r.0@ == down_text(tool@, session@, pid, signalled),
        r.1 == !signalled,
{
    if signalled {
        let mut out: String = program_name(tool);
        out.append(": sent SIGTERM to session '");
        out.append(session);
        out.append("' (pid ");
        out.append(decimal(pid as u64).as_str());
        out.append(")\n");
        (out, false)
    } else {
        let mut out: String = program_name(tool);
        out.append(": session '");
        out.append(session);
        out.append("' was not running (cleaned up)\n");
        (out, true)
    }
}

/// The word for a truth value.
pub open spec fn bool_text(b: bool) -> Seq<char> {
    if b {
        "true"@
    } else {
        "false"@
    }
}

/// An optional text, or what stands in for it.
pub open spec fn shown(t: Option<Seq<char>>, other: Seq<char>) -> Seq<char> {
    match t {
        Some(s) => s,
        None => other,
    }
}

/// What `status` prints.
pub open spec fn status_text(
    session: Seq<char>,
    live: bool,
    state: Option<protocol::StateModel>,
    socket: Seq<char>,
) -> Seq<char> {
    "session:    "@ + session + "\n"@ + "live:       "@ + bool_text(live) + "\n"@ + (match state {
        Some(s) => "pid:        "@ + text::decimal_text(s.pid as nat) + "\n"@ + "session_id: "@
            + shown(s.session_id, "(pending)"@) + "\n"@ + "model:      "@ + shown(
            s.model,
            "(default)"@,
        ) + "\n"@ + "socket:     "@ + socket + "\n"@,
        None => "(no state file)\n"@,
    })
}

/// What `status` reports.
pub open spec fn status_model(
    session: Seq<char>,
    live: bool,
    state: Option<protocol::StateModel>,
    socket: Seq<char>,
) -> ReportModel {
    ReportModel {
        out: status_text(session, live, state, socket),
        err: Seq::empty(),
        code: if live {
            0
        } else {
            1
        },
    }
}

/// What `status` prints about a session. The exit code is 0 for a live session
/// and 1 for any other, so that the command can be used as a predicate.
pub fn status_report(session: &str, live: bool, state: &Option<State>, socket: &str) -> (r: Report)
    ensures
        r@ == status_model(
            session@,
            live,
            match *state {
                Some(s) => Some(s@),
                None => None,
            },
            socket@,
        ),
{
    let mut out: String = "session:    ".to_owned();
    out.append(session);
    out.append("\n");
    out.append("live:       ");
    out.append(if live {
        "true"
    } else {
        "false"
    });
    out.append("\n");
    let ghost head = out@;
    let mut rest: String = String::new();
    match state {
        Some(s) => {
            rest.append("pid:        ");
            rest.append(decimal(s.pid as u64).as_str());
            rest.append("\n");
            rest.append("session_id: ");
            match &s.session_id {
                Some(id) => rest.append(id.as_str()),
                None => rest.append("(pending)"),
            }
            rest.append("\n");
            rest.append("model:      ");
            match &s.model {
                Some(m) => rest.append(m.as_str()),
                None => rest.append("(default)"),
            }
            rest.append("\n");
            rest.append("socket:     ");
            rest.append(socket);
            rest.append("\n");
            assert(rest@ =~= "pid:        "@ + text::decimal_text(s.pid as nat) + "\n"@
                + "session_id: "@ + shown(s@.session_id, "(pending)"@) + "\n"@ + "model:      "@
                + shown(s@.model, "(default)"@) + "\n"@ + "socket:     "@ + socket@ + "\n"@);
        },
        None => {
            rest.append("(no state file)\n");
            assert(rest@ =~= "(no state file)\n"@);
        },
    }
    out.append(rest.as_str());
    Report {
        out,
        err: String::new(),
        code: if live {
            0
        } else {
            1
        },
    }
}

} // verus!

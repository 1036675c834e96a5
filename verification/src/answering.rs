//! What is promised of replies: what a result event is answered, how a turn
//! begins and ends, and what the client prints.

use crate::client;
use crate::control;
use crate::daemon;
use crate::json;
use crate::names;
use crate::protocol;
use crate::queue;
use crate::reading;
use crate::text;
use crate::worker;
use vstd::prelude::*;
use vstd::utf8::*;

verus! {

/// Whether an event says that its turn failed.
pub open spec fn says_failed(ev: json::JsonTree) -> bool {
    reading::has(ev, "is_error"@, json::JsonTree::Bool(true))
}

/// Whether an event does not say so: the member is missing, false, or no truth
/// value.
pub open spec fn says_no_failure(ev: json::JsonTree, v: json::JsonTree) -> bool {
    ||| reading::lacks(ev, "is_error"@)
    ||| reading::has(ev, "is_error"@, v) && v != json::JsonTree::Bool(true)
}

/// A result that does not say it failed is a success: the reply is ok, carries
/// no error, and its text is the one at `result`, or empty where there is none.
pub proof fn law_success_is_answered_with_its_text(
    tool: Seq<char>,
    session_id: Option<Seq<char>>,
    ev: json::JsonTree,
    v: json::JsonTree,
    w: json::JsonTree,
    x: Seq<char>,
    turn_ms: u64,
)
    requires
        says_no_failure(ev, v),
    ensures
        ({
            let r = worker::result_reply(tool, session_id, ev, turn_ms);
            &&& r.ok
            &&& r.error is None
            &&& r.turn_ms == turn_ms
            &&& reading::has(ev, "result"@, json::JsonTree::Str(x)) ==> r.text == x
            &&& reading::has(ev, "result"@, w) && !(w is Str) ==> r.text.len() == 0
            &&& reading::lacks(ev, "result"@) ==> r.text.len() == 0
        }),
{
    reading::law_members_are_found(ev, "is_error"@, v);
    reading::law_members_are_found(ev, "result"@, json::JsonTree::Str(x));
    reading::law_members_are_found(ev, "result"@, w);
}

/// A result that says it failed is an error: the reply is not ok, has no text,
/// and its error names the subtype of the event.
pub proof fn law_failure_is_answered_with_an_error(
    tool: Seq<char>,
    session_id: Option<Seq<char>>,
    ev: json::JsonTree,
    w: json::JsonTree,
    x: Seq<char>,
    turn_ms: u64,
)
    requires
        says_failed(ev),
    ensures
        ({
            let r = worker::result_reply(tool, session_id, ev, turn_ms);
            &&& !r.ok
            &&& r.text.len() == 0
            &&& r.turn_ms == turn_ms
            &&& reading::has(ev, "subtype"@, json::JsonTree::Str(x)) ==> r.error == Some(
                tool + " result error: "@ + x,
            )
            &&& reading::lacks(ev, "subtype"@) || (reading::has(ev, "subtype"@, w) && !(
            w is Str)) ==> r.error == Some(tool + " result error: "@ + "error"@)
        }),
{
    reading::law_members_are_found(ev, "is_error"@, json::JsonTree::Bool(true));
    reading::law_members_are_found(ev, "subtype"@, json::JsonTree::Str(x));
    reading::law_members_are_found(ev, "subtype"@, w);
}

/// What is known of the session id follows the events: an event that names one
/// makes it known, any other leaves it.
pub proof fn law_events_tell_the_session_id(
    known: Option<Seq<char>>,
    ev: json::JsonTree,
    v: json::JsonTree,
    x: Seq<char>,
)
    ensures
        reading::has(ev, "session_id"@, json::JsonTree::Str(x)) ==> worker::learned(known, ev)
            == Some(x),
        reading::lacks(ev, "session_id"@) ==> worker::learned(known, ev) == known,
        reading::has(ev, "session_id"@, v) && !(v is Str) ==> worker::learned(known, ev) == known,
{
    reading::law_members_are_found(ev, "session_id"@, json::JsonTree::Str(x));
    reading::law_members_are_found(ev, "session_id"@, v);
}

/// In a turn, an event of type `result` ends it with the reply of that very
/// event, timed from when the request came, under the session id that is then
/// known; the worker is free again and owes nothing.
pub proof fn law_result_ends_the_turn(
    m: worker::WorkerModel,
    job: worker::JobModel,
    ev: json::JsonTree,
    now: u64,
)
    requires
        m.phase == (worker::PhaseModel::Turn { job }),
        reading::has(ev, "type"@, json::JsonTree::Str("result"@)),
    ensures
        ({
            let (after, step) = worker::heard(m, ev, now);
            let id = worker::learned(m.session_id, ev);
            &&& after.phase == (worker::PhaseModel::Idle { owes: false })
            &&& after.tool == m.tool
            &&& after.session_id == id
            &&& step.action is Reply
            &&& step.action->Reply_response.turn_ms == (if now >= job.started {
                now - job.started
            } else {
                0
            })
            &&& step.action->Reply_response.session_id == (match id {
                Some(x) => x,
                None => Seq::empty(),
            })
            &&& step.action->Reply_response == worker::result_reply(
                m.tool,
                id,
                ev,
                step.action->Reply_response.turn_ms,
            )
        }),
{
    reading::law_members_are_found(ev, "type"@, json::JsonTree::Str("result"@));
}

/// A result that was owed by the turn before is thrown away, and the request
/// that waits for it is handed to the agent.
pub proof fn law_owed_result_is_thrown_away(
    m: worker::WorkerModel,
    job: worker::JobModel,
    ev: json::JsonTree,
    now: u64,
)
    requires
        m.phase == (worker::PhaseModel::Draining { job }),
        reading::has(ev, "type"@, json::JsonTree::Str("result"@)),
    ensures
        ({
            let (after, step) = worker::heard(m, ev, now);
            &&& after.phase == (worker::PhaseModel::Turn { job })
            &&& step.action is Write
            &&& step.action->line == daemon::envelope(job.text)
            &&& step.action->deadline_ms >= 1
            &&& job.timeout_ms >= 1 ==> step.action->deadline_ms == job.timeout_ms
        }),
{
    reading::law_members_are_found(ev, "type"@, json::JsonTree::Str("result"@));
}

/// No other event ends a turn: the worker reads on, in the same phase.
pub proof fn law_only_results_end_turns(
    m: worker::WorkerModel,
    ev: json::JsonTree,
    v: json::JsonTree,
    now: u64,
)
    requires
        reading::lacks(ev, "type"@) || (reading::has(ev, "type"@, v) && v != json::JsonTree::Str(
            "result"@,
        )),
    ensures
        worker::heard(m, ev, now).0.phase == m.phase,
        worker::heard(m, ev, now).1.action is Read,
{
    reading::law_members_are_found(ev, "type"@, v);
}

/// A line is read as the document that it spells out between its white space;
/// a blank line, and one that spells out none, changes nothing.
pub proof fn law_lines_are_read_as_documents(m: worker::WorkerModel, line: Seq<char>, now: u64)
    ensures
        ({
            let content = text::trimmed(line);
            let document = json::document(encode_utf8(content));
            let (after, step) = worker::heard_line(m, line, now);
            &&& content.len() == 0 || document is None ==> after == m && step.action is Read
                && step.persist is None
            &&& content.len() > 0 ==> (document matches Some(ev) ==> (after, step)
                == worker::heard(m, ev, now))
        }),
{
}

/// A request is handed to the agent at once where nothing is owed, with its own
/// text and its own timeout, which is never nothing; and otherwise waits.
pub proof fn law_request_is_handed_over(m: worker::WorkerModel, job: worker::JobModel)
    ensures
        ({
            let (after, action) = worker::submitted(m, job);
            &&& m.phase == (worker::PhaseModel::Idle { owes: false }) ==> {
                &&& after.phase == (worker::PhaseModel::Turn { job })
                &&& action is Write
                &&& action->line == daemon::envelope(job.text)
                &&& action->deadline_ms >= 1
                &&& job.timeout_ms >= 1 ==> action->deadline_ms == job.timeout_ms
            }
            &&& m.phase == (worker::PhaseModel::Idle { owes: true }) ==> {
                &&& after.phase == (worker::PhaseModel::Draining { job })
                &&& action is Drain
            }
            &&& after.session_id == m.session_id
            &&& after.tool == m.tool
        }),
{
}

/// A turn that ends without a result is answered with an error and no text,
/// timed from when the request came. Only a turn that ran out of time still
/// owes its result. A wait for an owed result that ends without one stops the
/// worker.
pub proof fn law_turn_without_result_is_an_error(
    m: worker::WorkerModel,
    job: worker::JobModel,
    end: worker::EndModel,
    now: u64,
)
    ensures
        ({
            let (after, action) = worker::ended(m, end, now);
            &&& after.session_id == m.session_id
            &&& after.tool == m.tool
            &&& m.phase == (worker::PhaseModel::Turn { job }) ==> {
                &&& after.phase == (worker::PhaseModel::Idle { owes: end is TimedOut })
                &&& action is Reply
                &&& !action->Reply_response.ok
                &&& action->Reply_response.text.len() == 0
                &&& action->Reply_response.session_id.len() == 0
                &&& action->Reply_response.error is Some
                &&& action->Reply_response.turn_ms == (if now >= job.started {
                    now - job.started
                } else {
                    0
                })
            }
            &&& m.phase == (worker::PhaseModel::Draining { job }) ==> {
                &&& after.phase is Stopped
                &&& action is Abort
                &&& !action->Abort_response.ok
                &&& action->Abort_response.text.len() == 0
                &&& action->Abort_response.error == Some(
                    m.tool + " stream desynced and could not recover (process died?)"@,
                )
            }
        }),
{
}

/// The error of a turn tells how it ended: a timeout names the time that was
/// given, and a failure of the stream carries what the system said.
pub proof fn law_errors_tell_how_a_turn_ended(tool: Seq<char>, e: Seq<char>, ms: u64)
    ensures
        worker::end_message(tool, worker::EndModel::TimedOut, ms) == "timeout after "@
            + text::decimal_text(ms as nat) + "ms waiting for "@ + tool + " result"@,
        worker::end_message(tool, worker::EndModel::Closed, ms) == "read error: "@ + tool
            + " stdout closed mid-turn (process died?)"@,
        worker::end_message(tool, worker::EndModel::ReadFailed { error: e }, ms)
            == "read error: reading "@ + tool + " stdout: "@ + e,
        worker::end_message(tool, worker::EndModel::WriteFailed { error: e }, ms)
            == "turn failed: writing to "@ + tool + " stdin: "@ + e,
        worker::end_message(tool, worker::EndModel::FlushFailed { error: e }, ms)
            == "turn failed: flushing "@ + tool + " stdin: "@ + e,
{
}

/// The line that hands a message over is a user message with that message as
/// its content, and two messages are never handed over as the same line.
pub proof fn law_envelopes_carry_their_message(a: Seq<char>, b: Seq<char>)
    ensures
        daemon::envelope(a)
            == "{\"type\":\"user\",\"message\":{\"role\":\"user\",\"content\":"@
            + json::json_string(a) + "}}\n"@,
        daemon::envelope(a) == daemon::envelope(b) ==> a == b,
{
    let head = "{\"type\":\"user\",\"message\":{\"role\":\"user\",\"content\":"@;
    let tail = "}}\n"@;
    if daemon::envelope(a) == daemon::envelope(b) {
        let x = json::json_string(a);
        let y = json::json_string(b);
        assert(daemon::envelope(a).len() == head.len() + x.len() + tail.len());
        assert(daemon::envelope(b).len() == head.len() + y.len() + tail.len());
        assert(daemon::envelope(a).subrange(head.len() as int, (head.len() + x.len()) as int) =~= x);
        assert(daemon::envelope(b).subrange(head.len() as int, (head.len() + y.len()) as int) =~= y);
        json::law_json_strings_are_distinct(a, b);
    }
}

/// A failure carries its message and nothing else.
pub proof fn law_failures_carry_their_message(msg: Seq<char>)
    ensures
        !protocol::failure(msg).ok,
        protocol::failure(msg).text.len() == 0,
        protocol::failure(msg).session_id.len() == 0,
        protocol::failure(msg).turn_ms == 0,
        protocol::failure(msg).error == Some(msg),
{
}

/// A client always gets a reply: the worker's own as it is, and otherwise an
/// error that says what went wrong.
pub proof fn law_clients_get_the_workers_reply(d: daemon::Dispatch)
    ensures
        d matches daemon::Dispatch::Replied(resp) ==> daemon::dispatch_reply(d) == resp@,
        !(d is Replied) ==> !daemon::dispatch_reply(d).ok && daemon::dispatch_reply(d).text.len()
            == 0 && daemon::dispatch_reply(d).error is Some,
        d matches daemon::Dispatch::BadRequest { error } ==> daemon::dispatch_reply(d).error
            == Some("bad request json: "@ + error@),
{
}

/// `send` prints the text of a reply that is ok, ended by one line feed at
/// least, and exits with 0; for any other it prints nothing but the error, and
/// exits with 1.
pub proof fn law_send_prints_the_reply(tool: Seq<char>, resp: protocol::ResponseModel)
    ensures
        ({
            let r = client::reply_report(tool, resp);
            &&& r.code == 0 <==> resp.ok
            &&& resp.ok ==> {
                &&& r.err.len() == 0
                &&& r.out.len() > 0 && r.out.last() == '\n'
                &&& r.out.take(resp.text.len() as int) == resp.text
                &&& r.out.len() == resp.text.len() <==> resp.text.len() > 0 && resp.text.last()
                    == '\n'
                &&& r.out.len() <= resp.text.len() + 1
            }
            &&& !resp.ok ==> {
                &&& r.code == 1
                &&& r.out.len() == 0
                &&& resp.error matches Some(e) ==> r.err == tool + "-pipe: "@ + e + "\n"@
                &&& resp.error is None ==> r.err == tool + "-pipe: unknown error\n"@
            }
        }),
{
    reveal_strlit("-pipe");
    reveal_strlit(": ");
    reveal_strlit("-pipe: ");
    reveal_strlit("\n");
    reveal_strlit("unknown error");
    reveal_strlit("-pipe: unknown error\n");
    let r = client::reply_report(tool, resp);
    assert("-pipe"@ + ": "@ =~= "-pipe: "@);
    if resp.ok {
        assert(r.out.take(resp.text.len() as int) =~= resp.text);
    } else if let Some(e) = resp.error {
        assert(r.err =~= tool + "-pipe: "@ + e + "\n"@);
    } else {
        assert(r.err =~= tool + "-pipe: unknown error\n"@);
    }
}

/// `status` is a predicate: it exits with 0 if and only if the session is live,
/// whatever else is known of it.
pub proof fn law_status_is_a_predicate(
    session: Seq<char>,
    live: bool,
    state: Option<protocol::StateModel>,
    socket: Seq<char>,
)
    ensures
        client::status_model(session, live, state, socket).code == 0 <==> live,
        client::status_model(session, live, state, socket).code == 1 <==> !live,
        client::status_model(session, live, state, socket).err.len() == 0,
{
}

/// `status` tells the session and whether it is live, line by line, and what is
/// on record of it, with stand-ins for what is not known yet.
pub proof fn law_status_tells_what_is_on_record(
    session: Seq<char>,
    live: bool,
    s: protocol::StateModel,
    socket: Seq<char>,
)
    ensures
        ({
            let head = "session:    "@ + session + "\n"@ + "live:       "@ + (if live {
                "true"@
            } else {
                "false"@
            }) + "\n"@;
            let id = match s.session_id {
                Some(x) => x,
                None => "(pending)"@,
            };
            let model = match s.model {
                Some(x) => x,
                None => "(default)"@,
            };
            &&& client::status_model(session, live, None, socket).out == head
                + "(no state file)\n"@
            &&& client::status_model(session, live, Some(s), socket).out == head + (
            "pid:        "@ + text::decimal_text(s.pid as nat) + "\n"@ + "session_id: "@ + id
                + "\n"@ + "model:      "@ + model + "\n"@ + "socket:     "@ + socket + "\n"@)
        }),
{
}

/// `down` tells which process was signalled in which session, or that none was
/// running.
pub proof fn law_down_tells_what_it_did(tool: Seq<char>, session: Seq<char>, pid: u32)
    ensures
        client::down_text(tool, session, pid, true) == tool + "-pipe"@
            + ": sent SIGTERM to session '"@ + session + "' (pid "@ + text::decimal_text(
            pid as nat,
        ) + ")\n"@,
        client::down_text(tool, session, pid, false) == tool + "-pipe"@ + ": session '"@ + session
            + "' was not running (cleaned up)\n"@,
{
}

/// A caller that gives a tag goes by it; callers that give none go by one tag
/// per parent process.
pub proof fn law_callers_keep_their_tag(holder: Option<Seq<char>>, p: i32, q: i32)
    ensures
        holder matches Some(h) ==> control::caller_tag(holder, p) == h,
        holder is None && p != q ==> control::caller_tag(holder, p) != control::caller_tag(
            holder,
            q,
        ),
        holder is None ==> control::caller_tag(holder, p) == "cli-"@ + text::integer_text(p as int),
{
    if holder is None && p != q {
        let x = control::caller_tag(holder, p);
        let y = control::caller_tag(holder, q);
        if x == y {
            let n = "cli-"@.len() as int;
            assert(x.skip(n) =~= text::integer_text(p as int));
            assert(y.skip(n) =~= text::integer_text(q as int));
            text::law_integers_carry_their_sign(p as int);
            text::law_integers_carry_their_sign(q as int);
            text::lemma_decimal_digits(p as nat);
            text::lemma_decimal_digits(q as nat);
            if p >= 0 && q < 0 {
                assert(text::integer_text(p as int)[0] >= '0');
            }
            if q >= 0 && p < 0 {
                assert(text::integer_text(q as int)[0] >= '0');
            }
        }
    }
}

/// How long something took is the difference of two times, and nothing where
/// the later one comes first.
pub proof fn law_elapsed_is_a_difference(then: u64, now: u64)
    ensures
        now >= then ==> queue::elapsed(then, now) == now - then,
        now < then ==> queue::elapsed(then, now) == 0,
{
}

/// The program and its tool name each other.
pub proof fn law_program_and_tool_name_each_other(a: Seq<char>, b: Seq<char>)
    ensures
        names::program(a) == names::program(b) ==> a == b,
        names::program(a) == a + "-pipe"@,
{
    if names::program(a) == names::program(b) {
        assert(names::program(a).take(a.len() as int) =~= a);
        assert(names::program(b).take(b.len() as int) =~= b);
        assert(names::program(a).len() == a.len() + "-pipe"@.len());
        assert(names::program(b).len() == b.len() + "-pipe"@.len());
    }
}

/// The message from standard input is the input up to the line feeds at its
/// end, which are all that is left out.
pub proof fn law_input_loses_its_last_line_feeds(input: Seq<char>)
    ensures
        ({
            let r = client::message_of(input);
            &&& r.len() <= input.len()
            &&& input.take(r.len() as int) == r
            &&& forall|i: int| r.len() <= i < input.len() ==> input[i] == '\n'
            &&& r.len() > 0 ==> r.last() != '\n'
        }),
{
    text::law_stripping_from_the_end(input, '\n');
}

/// Every event that names a session id that was not known gives it to be saved,
/// whatever else the event is.
pub proof fn law_new_ids_are_saved_whatever_the_event(
    m: worker::WorkerModel,
    ev: json::JsonTree,
    x: Seq<char>,
    now: u64,
)
    ensures
        ({
            let (after, step) = worker::heard(m, ev, now);
            &&& reading::has(ev, "session_id"@, json::JsonTree::Str(x)) ==> {
                &&& after.session_id == Some(x)
                &&& step.persist == (if m.session_id == Some(x) {
                    None
                } else {
                    Some(x)
                })
            }
            &&& reading::lacks(ev, "session_id"@) ==> after.session_id == m.session_id
                && step.persist is None
            &&& after.tool == m.tool
        }),
{
    reading::law_members_are_found(ev, "session_id"@, json::JsonTree::Str(x));
}

/// A result that is owed is waited for, for two minutes.
pub proof fn law_owed_results_are_waited_for(m: worker::WorkerModel, job: worker::JobModel)
    requires
        m.phase == (worker::PhaseModel::Idle { owes: true }),
    ensures
        worker::submitted(m, job).1 == (worker::ActionModel::Drain { cap_ms: 120_000 }),
{
}

/// `down` terminates the process on record, and there is one to terminate if
/// and only if there is a record.
pub proof fn law_down_terminates_the_process_on_record(state: Option<protocol::StateModel>)
    ensures
        client::down_target(state) is Some <==> state is Some,
        state matches Some(s) ==> client::down_target(state) == Some(s.pid),
{
}

} // verus!

use acp_pipe::client::{
    connect_error, down_plan, down_report, report_reply, status_report, stdin_message,
};
use acp_pipe::daemon::{
    already_running, claim_socket, tool_args, conn_response, detached_up_args, initial_state,
    merged_state, poll_ready, ready_deadline, user_envelope, Dispatch, Poll, SocketClaim,
};
use acp_pipe::json::Json;
use acp_pipe::names::{choose_tool, program_name, tool_of_program};
use acp_pipe::protocol::{
    agent_socket_path, control_socket_path, default_timeout_ms, runtime_dir, socket_path,
    state_path, supervisor_state_path, with_suffix, ControlResponse, Request, Response, State,
};
use acp_pipe::worker::{reply_of_result, Action, End, Worker, DRAIN_CAP_MS};

fn some(s: &str) -> Option<String> {
    Some(s.to_string())
}

fn request(text: &str, timeout_ms: u64) -> Request {
    Request { text: text.to_string(), timeout_ms }
}

fn reply(action: Action) -> Response {
    match action {
        Action::Reply { response } => response,
        _ => panic!("expected a reply"),
    }
}

#[test]
fn paths_stand_below_the_runtime_directory() {
    assert_eq!(runtime_dir("oracle", Some("/run/user/1000"), 1000), "/run/user/1000/oracle-pipe");
    assert_eq!(runtime_dir("oracle", Some("/run/user/1000/"), 1000), "/run/user/1000/oracle-pipe");
    assert_eq!(runtime_dir("oracle", Some(""), 1000), "/tmp/oracle-pipe-1000");
    assert_eq!(runtime_dir("oracle", None, 0), "/tmp/oracle-pipe-0");
    assert_eq!(socket_path("/d", "default"), "/d/default.sock");
    assert_eq!(state_path("/d", "default"), "/d/default.state.json");
    assert_eq!(agent_socket_path("/d", "gemini-1"), "/d/gemini-1.acp.sock");
    assert_eq!(control_socket_path("/d"), "/d/control.sock");
    assert_eq!(supervisor_state_path("/d"), "/d/supervisor.state.json");
    assert_eq!(socket_path("/d", "/abs"), "/abs.sock");
    assert_eq!(with_suffix("/d/x.json", ".tmp"), "/d/x.json.tmp");
}

#[test]
fn named_sessions_do_not_collide() {
    assert_ne!(socket_path("/d", "a"), socket_path("/d", "b"));
    assert_ne!(state_path("/d", "a"), state_path("/d", "b"));
    assert_ne!(agent_socket_path("/d", "control"), control_socket_path("/d"));
}

#[test]
fn errors_carry_their_message_and_nothing_else() {
    let r = Response::error("boom");
    assert!(!r.ok);
    assert_eq!((r.text.as_str(), r.session_id.as_str(), r.turn_ms), ("", "", 0));
    assert_eq!(r.error.as_deref(), Some("boom"));
    assert!(matches!(ControlResponse::err("no"), ControlResponse::Error { message } if message == "no"));
    assert_eq!(default_timeout_ms(), 60_000);
}

#[test]
fn lean_arguments_replace_the_prompt() {
    let v = tool_args(&some("m"), &None, &some("sid"), false);
    assert_eq!(
        v,
        [
            "-p",
            "--verbose",
            "--input-format",
            "stream-json",
            "--output-format",
            "stream-json",
            "--model",
            "m",
            "--system-prompt",
            "You are a fast assistant invoked over a pipe. Answer directly and concisely. Output only the answer — no preamble, no markdown fences, no commentary.",
            "--tools",
            "",
            "--strict-mcp-config",
            "--setting-sources",
            "",
            "--exclude-dynamic-system-prompt-sections",
            "--permission-mode",
            "default",
            "--resume",
            "sid",
        ]
    );
    assert_eq!(tool_args(&None, &some("terse"), &None, false)[7], "terse");
}

#[test]
fn full_arguments_append_the_prompt() {
    let v = tool_args(&None, &some("terse"), &None, true);
    assert_eq!(v[6..], ["--append-system-prompt", "terse"]);
    assert_eq!(tool_args(&None, &None, &None, true).len(), 6);
}

#[test]
fn the_background_call_is_the_same_without_detach() {
    assert_eq!(
        detached_up_args("s", &some("m"), &some("p"), &some("r"), true),
        ["up", "--session", "s", "--model", "m", "--system", "p", "--resume", "r", "--full"]
    );
    assert_eq!(detached_up_args("s", &None, &None, &None, false), ["up", "--session", "s"]);
}

#[test]
fn a_live_socket_is_not_clobbered() {
    assert_eq!(claim_socket(false, false), SocketClaim::Fresh);
    assert_eq!(claim_socket(true, true), SocketClaim::Refuse);
    assert_eq!(claim_socket(true, false), SocketClaim::RemoveStale);
    assert_eq!(
        already_running("s", "/d/s.sock"),
        "session 's' already running (socket /d/s.sock is live)"
    );
}

#[test]
fn the_session_id_is_merged_into_the_state() {
    let s = initial_state(7, &some("m"));
    assert_eq!((s.pid, s.session_id.as_deref(), s.model.as_deref()), (7, None, Some("m")));
    let s = merged_state(Some(s), 9, "sid");
    assert_eq!((s.pid, s.session_id.as_deref(), s.model.as_deref()), (7, Some("sid"), Some("m")));
    let s = merged_state(None, 9, "sid");
    assert_eq!((s.pid, s.session_id.as_deref(), s.model.as_deref()), (9, Some("sid"), None));
}

#[test]
fn a_message_is_handed_over_as_one_line() {
    let line = user_envelope("say \"hi\"\nand\\or\u{1}");
    assert_eq!(
        line,
        "{\"type\":\"user\",\"message\":{\"role\":\"user\",\"content\":\"say \\\"hi\\\"\\nand\\\\or\\u0001\"}}\n"
    );
    assert_eq!(line.matches('\n').count(), 1);
    let v = Json::parse(line.as_bytes()).unwrap();
    let content = v.get("message").unwrap().get_text("content").unwrap();
    assert_eq!(content, "say \"hi\"\nand\\or\u{1}");
}

#[test]
fn a_turn_is_answered_with_its_result() {
    let mut w = Worker::new("oracle");
    assert!(w.is_idle());
    match w.submit(request("hi", 0), 100) {
        Action::Write { line, deadline_ms } => {
            assert_eq!(line, user_envelope("hi"));
            assert_eq!(deadline_ms, 1);
        }
        _ => panic!("expected a write"),
    }
    let s = w.on_line("{\"type\":\"system\",\"session_id\":\"abc\"}\n", 150);
    assert_eq!(s.persist.as_deref(), Some("abc"));
    assert!(matches!(s.action, Action::Read));
    for noise in ["\n", "  \t\n", "not json\n", "[1]\n", "{\"type\":\"assistant\",\"session_id\":\"abc\"}\n"] {
        let s = w.on_line(noise, 160);
        assert!(s.persist.is_none());
        assert!(matches!(s.action, Action::Read));
    }
    let s = w.on_line(" {\"type\":\"result\",\"result\":\"hello\"} \r\n", 1_200);
    assert!(s.persist.is_none());
    let r = reply(s.action);
    assert!(r.ok);
    assert_eq!((r.text.as_str(), r.session_id.as_str(), r.turn_ms), ("hello", "abc", 1_100));
    assert!(r.error.is_none());
    assert!(w.is_idle());
}

#[test]
fn a_failed_result_is_an_error() {
    let ev = Json::parse(br#"{"type":"result","is_error":true,"subtype":"max_turns","result":"part"}"#).unwrap();
    let r = reply_of_result("oracle", &None, &ev, 3);
    assert!(!r.ok);
    assert_eq!((r.text.as_str(), r.session_id.as_str(), r.turn_ms), ("", "", 3));
    assert_eq!(r.error.as_deref(), Some("oracle result error: max_turns"));
    let ev = Json::parse(br#"{"type":"result","is_error":true}"#).unwrap();
    assert_eq!(reply_of_result("oracle", &None, &ev, 0).error.as_deref(), Some("oracle result error: error"));
    let ev = Json::parse(br#"{"type":"result","is_error":"yes","result":5}"#).unwrap();
    let r = reply_of_result("oracle", &some("s"), &ev, 0);
    assert!(r.ok);
    assert_eq!((r.text.as_str(), r.session_id.as_str()), ("", "s"));
}

#[test]
fn a_result_can_bring_the_session_id() {
    let mut w = Worker::new("oracle");
    w.submit(request("x", 5), 0);
    let s = w.on_line("{\"type\":\"result\",\"session_id\":\"n\",\"result\":\"\"}", 1);
    assert_eq!(s.persist.as_deref(), Some("n"));
    assert_eq!(reply(s.action).session_id, "n");
}

#[test]
fn replies_stay_aligned_after_a_timeout() {
    let mut w = Worker::new("oracle");
    w.submit(request("first", 50), 0);
    let r = reply(w.on_end(&End::TimedOut, 51));
    assert_eq!(r.error.as_deref(), Some("timeout after 50ms waiting for oracle result"));
    assert_eq!((r.ok, r.text.as_str(), r.turn_ms), (false, "", 51));

    match w.submit(request("second", 50), 60) {
        Action::Drain { cap_ms } => assert_eq!(cap_ms, DRAIN_CAP_MS),
        _ => panic!("expected a drain"),
    }
    let s = w.on_line("{\"type\":\"result\",\"result\":\"to the first\"}", 70);
    match s.action {
        Action::Write { line, deadline_ms } => {
            assert_eq!(line, user_envelope("second"));
            assert_eq!(deadline_ms, 50);
        }
        _ => panic!("expected a write"),
    }
    let s = w.on_line("{\"type\":\"result\",\"result\":\"to the second\"}", 80);
    let r = reply(s.action);
    assert_eq!((r.text.as_str(), r.turn_ms), ("to the second", 20));
    assert!(matches!(w.submit(request("third", 50), 90), Action::Write { .. }));
}

#[test]
fn a_stream_that_cannot_be_realigned_stops_the_worker() {
    for end in [End::Closed, End::TimedOut, End::ReadFailed { error: "io".to_string() }] {
        let mut w = Worker::new("oracle");
        w.submit(request("first", 50), 0);
        w.on_end(&End::TimedOut, 51);
        w.submit(request("second", 50), 60);
        match w.on_end(&end, 99) {
            Action::Abort { response } => {
                assert_eq!(
                    response.error.as_deref(),
                    Some("oracle stream desynced and could not recover (process died?)")
                );
                assert_eq!(response.turn_ms, 0);
            }
            _ => panic!("expected the end"),
        }
        assert!(!w.is_idle());
    }
}

#[test]
fn every_failure_of_a_turn_is_told() {
    let cases = [
        (End::Closed, "read error: oracle stdout closed mid-turn (process died?)"),
        (End::ReadFailed { error: "x".to_string() }, "read error: reading oracle stdout: x"),
        (End::WriteFailed { error: "x".to_string() }, "turn failed: writing to oracle stdin: x"),
        (End::FlushFailed { error: "x".to_string() }, "turn failed: flushing oracle stdin: x"),
    ];
    for (end, msg) in cases {
        let mut w = Worker::new("oracle");
        w.submit(request("m", 50), 10);
        let r = reply(w.on_end(&end, 14));
        assert_eq!(r.error.as_deref(), Some(msg));
        assert_eq!(r.turn_ms, 4);
        assert!(matches!(w.submit(request("n", 50), 20), Action::Write { .. }));
    }
}

#[test]
fn a_client_always_gets_a_reply() {
    assert!(conn_response(Dispatch::Replied(Response::error("e"))).error.as_deref() == Some("e"));
    assert_eq!(
        conn_response(Dispatch::BadRequest { error: "eof".to_string() }).error.as_deref(),
        Some("bad request json: eof")
    );
    assert_eq!(conn_response(Dispatch::WorkerGone).error.as_deref(), Some("daemon worker is gone"));
    assert_eq!(conn_response(Dispatch::ReplyDropped).error.as_deref(), Some("worker dropped reply"));
}

#[test]
fn standard_input_loses_its_last_line_feeds() {
    assert_eq!(stdin_message("a\nb\n\n"), "a\nb");
    assert_eq!(stdin_message("\n"), "");
    assert_eq!(stdin_message("a \r\n"), "a \r");
}

#[test]
fn replies_are_printed_as_lines() {
    let mut r = Response::error("bad");
    let out = report_reply("oracle", &r);
    assert_eq!((out.out.as_str(), out.err.as_str(), out.code), ("", "oracle-pipe: bad\n", 1));
    r.error = None;
    assert_eq!(report_reply("oracle", &r).err, "oracle-pipe: unknown error\n");
    r.ok = true;
    assert_eq!(report_reply("oracle", &r).out, "\n");
    r.text = "yes".to_string();
    let out = report_reply("oracle", &r);
    assert_eq!((out.out.as_str(), out.err.as_str(), out.code), ("yes\n", "", 0));
    r.text = "yes\n".to_string();
    assert_eq!(report_reply("oracle", &r).out, "yes\n");
}

#[test]
fn shutting_down_is_reported() {
    let state = Some(State { pid: 42, session_id: None, model: None });
    assert_eq!(down_plan("s", &state), Ok(42));
    assert_eq!(down_plan("s", &None), Err("no such session 's' (no state file)".to_string()));
    assert_eq!(
        down_report("oracle", "s", 42, true),
        ("oracle-pipe: sent SIGTERM to session 's' (pid 42)\n".to_string(), false)
    );
    assert_eq!(
        down_report("oracle", "s", 42, false),
        ("oracle-pipe: session 's' was not running (cleaned up)\n".to_string(), true)
    );
    assert_eq!(
        connect_error("oracle", "s", "/d/s.sock"),
        "connecting to session 's' at /d/s.sock (is the daemon up? `oracle-pipe up`)"
    );
}

#[test]
fn status_is_usable_as_a_predicate() {
    let r = status_report("s", false, &None, "/d/s.sock");
    assert_eq!(r.out, "session:    s\nlive:       false\n(no state file)\n");
    assert_eq!(r.code, 1);
    let state = Some(State { pid: 42, session_id: some("abc"), model: None });
    let r = status_report("s", true, &state, "/d/s.sock");
    assert_eq!(
        r.out,
        "session:    s\nlive:       true\npid:        42\nsession_id: abc\nmodel:      (default)\nsocket:     /d/s.sock\n"
    );
    assert_eq!((r.err.as_str(), r.code), ("", 0));
    let state = Some(State { pid: 42, session_id: None, model: some("m") });
    let r = status_report("s", false, &state, "/d/s.sock");
    assert!(r.out.contains("session_id: (pending)\nmodel:      m\n"));
    assert_eq!(r.code, 1);
}

#[test]
fn the_pipe_is_named_after_its_tool() {
    assert_eq!(program_name("oracle"), "oracle-pipe");
    assert_eq!(tool_of_program("oracle-pipe").as_deref(), Some("oracle"));
    assert_eq!(tool_of_program("a-pipe-pipe").as_deref(), Some("a-pipe"));
    assert_eq!(tool_of_program("-pipe"), None);
    assert_eq!(tool_of_program("pipe"), None);
    assert_eq!(tool_of_program("oracle-pipes"), None);
}

#[test]
fn the_package_alone_names_no_tool() {
    assert_eq!(choose_tool(None, "oracle-pipe").as_deref(), Some("oracle"));
    assert_eq!(choose_tool(Some(""), "oracle-pipe").as_deref(), Some("oracle"));
    assert_eq!(choose_tool(Some("seer"), "oracle-pipe").as_deref(), Some("seer"));
    assert_eq!(choose_tool(None, "acp-pipe"), None);
    assert_eq!(choose_tool(Some("seer"), "acp-pipe").as_deref(), Some("seer"));
    assert_eq!(choose_tool(None, "pipe"), None);
}

#[test]
fn a_background_start_is_waited_for() {
    let deadline = ready_deadline(1_000);
    assert_eq!(deadline, 16_000);
    assert_eq!(poll_ready(true, 20_000, deadline), Poll::Ready);
    assert_eq!(poll_ready(false, 15_999, deadline), Poll::Wait(100));
    assert_eq!(poll_ready(false, 16_000, deadline), Poll::GaveUp);
}

#[test]
fn an_absolute_session_name_leaves_the_directory() {
    assert_ne!(socket_path("/d", "/a"), socket_path("/d", "a"));
    assert_eq!(socket_path("/d", "/d/a"), socket_path("/d", "a"));
}

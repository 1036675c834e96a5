use acp_pipe::acp::{inspect, RpcId};
use acp_pipe::drain::{drain_round_robin, Forward, BATCH_FRAMES};
use acp_pipe::lease::{AttachStep, LeaseDesk};
use acp_pipe::queue::{sample, SessionQueue, HARD_BOUND_BYTES, SOFT_BOUND_FRAMES};
use acp_pipe::relay::{
    keeps_subscriber, steal_deadline, Boundary, Notice, RelayState, SendOutcome,
    CALLBACK_STEAL_TTL_MS, STEAL_WAIT_MS,
};

fn st_with(sessions: &[(&str, usize, bool)]) -> RelayState {
    let mut st = RelayState::new();
    for (name, count, pressured) in sessions {
        let mut q = SessionQueue::new();
        for i in 0..*count {
            q.push(format!("{name}-{i}\n").into_bytes(), 0);
        }
        q.pressured = *pressured;
        st.queues.insert((*name).to_string(), q);
    }
    st
}

fn lines(out: &[Vec<u8>]) -> Vec<String> {
    out.iter()
        .map(|f| String::from_utf8(f.clone()).unwrap().trim_end().to_string())
        .collect()
}

fn depth(st: &RelayState, session: &str) -> usize {
    st.queues.get(&session.to_string()).unwrap().frames.len()
}

#[test]
fn round_robin_is_fair_across_sessions() {
    let mut st = st_with(&[("a", 3, false), ("b", 3, false)]);
    let out = drain_round_robin(&mut st, 6);
    assert_eq!(out.len(), 6);
    let from_a = out.iter().filter(|f| f.starts_with(b"a-")).count();
    let from_b = out.iter().filter(|f| f.starts_with(b"b-")).count();
    assert_eq!(from_a, 3);
    assert_eq!(from_b, 3);
}

#[test]
fn round_robin_skips_pressured_but_drains_eligible() {
    let mut st = st_with(&[("a", 100, true), ("b", 2, false)]);
    let out = drain_round_robin(&mut st, 64);
    assert_eq!(out.len(), 2);
    assert!(out.iter().all(|f| f.starts_with(b"b-")));
    assert_eq!(st.queues.get(&"a".to_string()).unwrap().frames.len(), 100);
}

#[test]
fn round_robin_empty_when_all_pressured() {
    let mut st = st_with(&[("a", 10, true), ("b", 10, true)]);
    let out = drain_round_robin(&mut st, 64);
    assert!(out.is_empty());
}

#[test]
fn steal_unsafe_tracks_turns_and_callbacks() {
    let mut st = RelayState::new();
    assert!(!st.steal_unsafe());
    st.open_turns.insert(RpcId::Num(1), "s".into());
    assert!(st.steal_unsafe());
    st.open_turns.clear();
    assert!(!st.steal_unsafe());
    st.open_callbacks.insert(RpcId::Num(99), ("s".into(), 0));
    assert!(st.steal_unsafe());
}

#[test]
fn steal_wait_ages_out_a_never_answered_callback() {
    let mut st = RelayState::new();
    let ttl = 50;
    let now = 1_000;

    st.open_callbacks.insert(RpcId::Num(1), ("s".into(), now));
    assert!(st.steal_unsafe());
    assert!(st.steal_unsafe_excluding_expired(now, ttl));

    let old = now - 100;
    st.open_callbacks.insert(RpcId::Num(1), ("s".into(), old));
    assert!(
        st.steal_unsafe(),
        "strict predicate still counts the id (no orphan)"
    );
    assert!(
        !st.steal_unsafe_excluding_expired(now, ttl),
        "aged-out callback must not block the steal-wait"
    );
    assert!(st.open_callbacks.contains_key(&RpcId::Num(1)));

    st.open_turns.insert(RpcId::Num(2), "s".into());
    assert!(st.steal_unsafe_excluding_expired(now, ttl));
}

#[test]
fn a_callback_stops_blocking_exactly_at_its_ttl() {
    let mut st = RelayState::new();
    st.open_callbacks.insert(RpcId::Num(1), ("s".into(), 1_000));
    assert!(st.steal_unsafe_excluding_expired(1_049, 50));
    assert!(!st.steal_unsafe_excluding_expired(1_050, 50));
    assert!(st.steal_unsafe_excluding_expired(10, 50));
}

#[test]
fn sessions_take_turns_in_the_order_they_came() {
    let mut st = st_with(&[("a", 3, false), ("b", 1, false), ("c", 2, false)]);
    let out = drain_round_robin(&mut st, 100);
    assert_eq!(lines(&out), ["a-0", "b-0", "c-0", "a-1", "c-1", "a-2"]);
    assert!(drain_round_robin(&mut st, 100).is_empty());
}

#[test]
fn the_next_batch_goes_on_behind_the_last_session() {
    let mut st = st_with(&[("a", 4, false), ("b", 4, false), ("c", 4, false)]);
    assert_eq!(lines(&drain_round_robin(&mut st, 2)), ["a-0", "b-0"]);
    assert_eq!(lines(&drain_round_robin(&mut st, 2)), ["c-0", "a-1"]);
    assert_eq!(lines(&drain_round_robin(&mut st, 3)), ["b-1", "c-1", "a-2"]);
    assert!(drain_round_robin(&mut st, 0).is_empty());
    assert_eq!(lines(&drain_round_robin(&mut st, 1)), ["b-2"]);
}

#[test]
fn a_new_session_joins_at_the_end_of_the_order() {
    let mut st = st_with(&[("a", 3, false), ("b", 3, false)]);
    assert_eq!(lines(&drain_round_robin(&mut st, 1)), ["a-0"]);
    let mut q = SessionQueue::new();
    q.push(b"c-0\n".to_vec(), 0);
    st.queues.insert("c".to_string(), q);
    assert_eq!(lines(&drain_round_robin(&mut st, 4)), ["b-0", "a-1", "c-0", "b-1"]);
}

#[test]
fn a_batch_as_long_as_the_sessions_serves_everyone() {
    let mut st = st_with(&[("p", 9, true), ("a", 9, false), ("b", 1, false), ("c", 9, false)]);
    let out = drain_round_robin(&mut st, 4);
    assert_eq!(lines(&out), ["a-0", "b-0", "c-0", "a-1"]);
    assert_eq!(depth(&st, "p"), 9);
}

#[test]
fn a_queue_counts_its_bytes() {
    let mut q = SessionQueue::new();
    q.push(b"abc\n".to_vec(), 5);
    q.push(b"\n".to_vec(), 9);
    assert_eq!(q.bytes, 5);
    assert_eq!(q.oldest_age_ms(12), 7);
    assert_eq!(q.oldest_age_ms(1), 0);
    let s = sample("s", &q, 12, "flowing");
    assert_eq!((s.session.as_str(), s.queue_depth, s.oldest_unread_ms), ("s", 2, 7));
    assert_eq!(q.pop().unwrap(), b"abc\n");
    assert_eq!(q.bytes, 1);
    assert_eq!(q.oldest_age_ms(12), 3);
    q.clear();
    assert_eq!((q.bytes, q.oldest_age_ms(12)), (0, 0));
    assert!(q.pop().is_none());
}

#[test]
fn agent_frames_are_routed_by_session() {
    let mut st = RelayState::new();
    let mut buf = Vec::new();
    let a = br#"{"method":"session/update","params":{"sessionId":"a"}}"#;
    let b = br#"{"method":"session/update","params":{"sessionId":"b"}}"#;
    let mut bytes = Vec::new();
    for f in [&a[..], b, a] {
        bytes.extend_from_slice(f);
        bytes.push(b'\n');
    }
    bytes.extend_from_slice(b"{\"part");
    let r = st.ingest_agent_bytes(&mut buf, &bytes, 100);
    assert_eq!(buf, b"{\"part");
    assert!(!r.closed);
    assert!(r.notices.is_empty());
    assert_eq!(st.session_count(), 2);
    assert_eq!((depth(&st, "a"), depth(&st, "b")), (2, 1));
    let words: Vec<(&str, &str)> =
        r.samples.iter().map(|s| (s.session.as_str(), s.lifecycle.as_str())).collect();
    assert_eq!(words, [("a", "flowing"), ("b", "flowing")]);
    let out = drain_round_robin(&mut st, 9);
    let mut first = a.to_vec();
    first.push(b'\n');
    assert_eq!(out[0], first);
    assert_eq!(out.len(), 3);
}

#[test]
fn noise_goes_to_the_common_lane() {
    let mut st = RelayState::new();
    let mut buf = Vec::new();
    st.ingest_agent_bytes(&mut buf, b"noise\n{\"id\":7,\"result\":{}}\n", 0);
    assert_eq!(depth(&st, "-"), 2);
}

#[test]
fn a_stop_reason_is_queued_behind_its_session_and_closes_the_turn() {
    let mut st = RelayState::new();
    let mut from_client = Vec::new();
    let prompt = b"{\"id\":1,\"method\":\"session/prompt\",\"params\":{\"sessionId\":\"s\"}}\n";
    let (frames, answered) = st.ingest_client_bytes(&mut from_client, prompt);
    assert_eq!(frames, [prompt.to_vec()]);
    assert!(!answered);
    assert!(st.steal_unsafe());

    let mut from_agent = Vec::new();
    let update = b"{\"method\":\"session/update\",\"params\":{\"sessionId\":\"s\"}}\n";
    let r = st.ingest_agent_bytes(&mut from_agent, update, 0);
    assert!(!r.closed);
    let stop = b"{\"id\":1,\"result\":{\"stopReason\":\"end_turn\"}}\n";
    let r = st.ingest_agent_bytes(&mut from_agent, stop, 0);
    assert!(r.closed);
    assert!(!st.steal_unsafe());
    let out = drain_round_robin(&mut st, 9);
    assert_eq!(out, [update.to_vec(), stop.to_vec()]);
    assert_eq!(st.session_count(), 1);
}

#[test]
fn a_callback_is_open_until_it_is_answered() {
    let mut st = RelayState::new();
    let mut from_agent = Vec::new();
    let ask = b"{\"id\":\"q\",\"method\":\"fs/read_text_file\",\"params\":{\"sessionId\":\"s\"}}\n";
    st.ingest_agent_bytes(&mut from_agent, ask, 1_000);
    assert!(st.steal_unsafe());
    assert_eq!(st.boundary(1_000, 2_000), Boundary::Wait(1_000));
    assert_eq!(st.boundary(2_000, 2_000), Boundary::Refuse);
    let aged = 1_000 + CALLBACK_STEAL_TTL_MS;
    assert_eq!(st.boundary(aged, 2_000), Boundary::Proceed);

    let mut from_client = Vec::new();
    let (_, answered) = st.ingest_client_bytes(&mut from_client, b"{\"id\":\"q\",\"result\":{}}\n");
    assert!(answered);
    assert!(!st.steal_unsafe());
    let (_, again) = st.ingest_client_bytes(&mut from_client, b"{\"id\":\"q\",\"result\":{}}\n");
    assert!(!again);
}

#[test]
fn a_response_to_a_callback_id_follows_its_session() {
    let mut st = RelayState::new();
    st.open_callbacks.insert(RpcId::Num(4), ("s".to_string(), 0));
    let info = inspect(b"{\"id\":4,\"error\":{}}");
    st.route_frame(b"x\n".to_vec(), &info, 0);
    assert_eq!(depth(&st, "s"), 1);
}

#[test]
fn a_dead_agent_unblocks_a_handoff_and_drains() {
    let mut st = st_with(&[("a", 1, false)]);
    st.open_turns.insert(RpcId::Num(1), "a".to_string());
    assert_eq!(st.boundary(0, 10), Boundary::Wait(10));
    let t = st.mark_dead();
    assert_eq!((t.session.as_str(), t.lifecycle.as_str()), ("-", "agent_dead"));
    assert_eq!((t.queue_depth, t.oldest_unread_ms), (0, 0));
    assert_eq!(st.boundary(0, 10), Boundary::Proceed);
    match st.next_forward() {
        Forward::Batch(b) => assert_eq!(lines(&b), ["a-0"]),
        _ => panic!("expected a batch"),
    }
    assert!(matches!(st.next_forward(), Forward::Drained));
}

#[test]
fn the_forwarder_idles_and_batches() {
    let mut st = RelayState::new();
    assert!(matches!(st.next_forward(), Forward::Idle));
    let mut st = st_with(&[("a", 100, false)]);
    match st.next_forward() {
        Forward::Batch(b) => assert_eq!(b.len(), BATCH_FRAMES),
        _ => panic!("expected a batch"),
    }
    assert_eq!(depth(&st, "a"), 36);
    st.torn = true;
    assert!(matches!(st.next_forward(), Forward::Torn));
    assert_eq!(depth(&st, "a"), 36);
}

#[test]
fn the_soft_bound_presses_and_keeps_telling() {
    let mut st = RelayState::new();
    let info = inspect(b"{\"params\":{\"sessionId\":\"s\"}}");
    for i in 0..SOFT_BOUND_FRAMES - 1 {
        let r = st.route_frame(b"x\n".to_vec(), &info, i as u64);
        assert_eq!(r.samples.len(), if i == 0 { 1 } else { 0 });
    }
    assert!(!st.queues.get(&"s".to_string()).unwrap().pressured);
    let r = st.route_frame(b"x\n".to_vec(), &info, 5_000);
    assert_eq!(r.samples.len(), 1);
    assert_eq!(r.samples[0].lifecycle, "pressured");
    assert_eq!(r.samples[0].queue_depth, SOFT_BOUND_FRAMES);
    assert_eq!(r.samples[0].oldest_unread_ms, 5_000);
    assert_eq!(r.notices.len(), 1);
    assert_eq!(
        r.notices[0].line("oracle", "g-1"),
        "oracle-pipe: agent 'g-1' session 's' hit soft bound (1024 frames) — pressured, surfacing on telemetry"
    );
    let r = st.route_frame(b"x\n".to_vec(), &info, 5_001);
    assert_eq!(r.samples[0].lifecycle, "pressured");
    assert!(r.notices.is_empty());
    assert!(drain_round_robin(&mut st, 64).is_empty());
    assert!(!st.torn);
}

fn press(st: &mut RelayState, session: &str) {
    st.queues.get_mut(&session.to_string()).unwrap().pressured = true;
}

#[test]
fn the_hard_bound_tears_a_pressured_session_and_tells_what_is_lost() {
    let mut st = RelayState::new();
    let info = inspect(b"{\"params\":{\"sessionId\":\"s\"}}");
    st.route_frame(vec![0; HARD_BOUND_BYTES], &info, 10);
    press(&mut st, "s");
    assert!(!st.torn);
    let r = st.route_frame(b"\n".to_vec(), &info, 25);
    assert!(st.torn);
    let last = r.samples.last().unwrap();
    assert_eq!((last.lifecycle.as_str(), last.queue_depth, last.oldest_unread_ms), ("torn", 2, 15));
    assert!(matches!(&r.notices[0], Notice::HardBound { bytes, .. } if *bytes == 67_108_865));
    assert_eq!(
        r.notices[0].line("oracle", "g-1"),
        "oracle-pipe: agent 'g-1' session 's' exceeded hard bound (67108865 bytes > 67108864) — tearing lease (never-silent)"
    );
    let q = st.queues.get(&"s".to_string()).unwrap();
    assert_eq!((q.frames.len(), q.bytes), (0, 0));
    assert!(matches!(st.next_forward(), Forward::Torn));
}

#[test]
fn a_session_that_is_not_pressured_is_never_torn() {
    let mut st = RelayState::new();
    let info = inspect(b"{\"params\":{\"sessionId\":\"s\"}}");
    let r = st.route_frame(vec![0; HARD_BOUND_BYTES + 1], &info, 1);
    assert!(!st.torn);
    assert!(r.notices.is_empty());
    assert_eq!(r.samples.len(), 1);
    assert_eq!(r.samples[0].lifecycle, "flowing");
    assert_eq!(st.queues.get(&"s".to_string()).unwrap().bytes, 67_108_865);
    match st.next_forward() {
        Forward::Batch(b) => assert_eq!(b[0].len(), HARD_BOUND_BYTES + 1),
        _ => panic!("expected a batch"),
    }
}

#[test]
fn crossing_the_soft_bound_over_the_hard_bound_tears() {
    let mut st = RelayState::new();
    let info = inspect(b"{\"params\":{\"sessionId\":\"s\"}}");
    st.route_frame(vec![0; HARD_BOUND_BYTES], &info, 0);
    for _ in 0..SOFT_BOUND_FRAMES - 2 {
        st.route_frame(b"x\n".to_vec(), &info, 0);
    }
    assert!(!st.torn);
    let r = st.route_frame(b"x\n".to_vec(), &info, 0);
    assert!(st.torn);
    assert_eq!(r.samples.len(), 2);
    assert_eq!(r.notices.len(), 2);
    assert_eq!(depth(&st, "s"), 0);
}

#[test]
fn slow_subscribers_are_kept_and_gone_ones_are_not() {
    assert!(keeps_subscriber(SendOutcome::Sent));
    assert!(keeps_subscriber(SendOutcome::Full));
    assert!(!keeps_subscriber(SendOutcome::Closed));
}

#[test]
fn a_handoff_waits_half_a_minute() {
    assert_eq!(STEAL_WAIT_MS, 30_000);
    assert_eq!(CALLBACK_STEAL_TTL_MS, 45_000);
    assert_eq!(steal_deadline(12), 30_012);
}

#[test]
fn a_lease_changes_hands_at_a_boundary_only() {
    let mut desk = LeaseDesk::new();
    let mut st = RelayState::new();
    st.open_turns.insert(RpcId::Num(1), "s".to_string());
    assert!(!desk.is_held());
    assert!(matches!(desk.attach(&mut st, 0, 100, "one"), AttachStep::Granted { stops: false }));
    assert_eq!(desk.lease_holder().as_deref(), Some("one"));
    assert!(matches!(desk.attach(&mut st, 40, 100, "two"), AttachStep::Wait { ms: 60 }));
    match desk.attach(&mut st, 100, 100, "two") {
        AttachStep::Refused { message } => assert_eq!(
            message,
            "steal refused: agent stayed mid-turn/awaiting-callback past the handoff wait window"
        ),
        _ => panic!("not refused"),
    }
    assert_eq!(desk.lease_holder().as_deref(), Some("one"));
    st.open_turns.clear();
    assert!(matches!(desk.attach(&mut st, 50, 100, "two"), AttachStep::Granted { stops: true }));
    assert_eq!(desk.lease_holder().as_deref(), Some("two"));
}

#[test]
fn only_the_holder_releases_a_lease() {
    let mut desk = LeaseDesk::new();
    assert_eq!(desk.detach("one"), Err("no lease to detach".to_string()));
    desk.attach(&mut RelayState::new(), 0, 0, "one");
    assert_eq!(desk.detach("two"), Err("lease held by 'one', not 'two'".to_string()));
    assert!(desk.is_held());
    assert_eq!(desk.detach("one"), Ok(()));
    assert!(!desk.is_held());
}

#[test]
fn an_announced_tag_serves_one_connection() {
    let mut desk = LeaseDesk::new();
    assert_eq!(desk.resolve_holder("data-socket".to_string()), "data-socket");
    desk.set_intended_holder("cli-9".to_string());
    assert_eq!(desk.resolve_holder("other".to_string()), "other");
    assert_eq!(desk.resolve_holder("data-socket".to_string()), "cli-9");
    assert_eq!(desk.resolve_holder("data-socket".to_string()), "data-socket");
}

#[test]
fn what_a_stop_reason_says_makes_no_difference() {
    let mut lanes = Vec::new();
    for reason in ["end_turn", "refusal", ""] {
        let mut st = RelayState::new();
        st.open_turns.insert(RpcId::Num(1), "s".to_string());
        let line = format!("{{\"id\":1,\"result\":{{\"stopReason\":\"{reason}\"}}}}");
        let r = st.route_frame(b"x\n".to_vec(), &inspect(line.as_bytes()), 3);
        assert!(r.closed);
        lanes.push((depth(&st, "s"), st.steal_unsafe(), r.samples.len()));
    }
    assert_eq!(lanes, [(1, false, 1), (1, false, 1), (1, false, 1)]);
}

#[test]
fn the_relay_does_not_depend_on_how_output_is_cut_into_reads() {
    let stream = b"{\"method\":\"u\",\"params\":{\"sessionId\":\"a\"}}\nnoise\n{\"id\":5,\"method\":\"fs/x\",\"params\":{\"sessionId\":\"b\"}}\n{\"params\":{\"sessionId\":\"a\"}}\nrest";
    let mut whole = RelayState::new();
    let mut buf = Vec::new();
    let r = whole.ingest_agent_bytes(&mut buf, stream, 7);
    assert_eq!(r.samples.len(), 3);
    let expected = drain_round_robin(&mut whole, 99);
    for cut in 0..stream.len() {
        let mut st = RelayState::new();
        let mut buf = Vec::new();
        let one = st.ingest_agent_bytes(&mut buf, &stream[..cut], 7);
        let two = st.ingest_agent_bytes(&mut buf, &stream[cut..], 7);
        assert_eq!(one.samples.len() + two.samples.len(), 3);
        assert_eq!(buf, b"rest");
        assert!(st.open_callbacks.contains_key(&RpcId::Num(5)));
        assert_eq!(drain_round_robin(&mut st, 99), expected);
    }
}

#[test]
fn the_client_does_not_touch_what_waits_for_it() {
    let mut st = st_with(&[("a", 2, false), ("b", 1, true)]);
    let mut buf = Vec::new();
    let (frames, _) = st.ingest_client_bytes(
        &mut buf,
        b"{\"id\":1,\"method\":\"session/prompt\",\"params\":{\"sessionId\":\"a\"}}\n{\"id\":1}\npart",
    );
    assert_eq!(frames.len(), 2);
    assert_eq!(buf, b"part");
    assert_eq!((depth(&st, "a"), depth(&st, "b"), st.session_count()), (2, 1, 2));
    assert!(st.open_turns.contains_key(&RpcId::Num(1)));
}

#[test]
fn what_is_forwarded_and_what_waits_make_up_the_session() {
    let mut st = st_with(&[("a", 5, false), ("b", 2, false)]);
    let mut got = drain_round_robin(&mut st, 3);
    got.extend(drain_round_robin(&mut st, 2));
    let mut a: Vec<String> = lines(&got).into_iter().filter(|l| l.starts_with("a-")).collect();
    while let Some(f) = st.queues.get_mut(&"a".to_string()).unwrap().pop() {
        a.extend(lines(&[f]));
    }
    assert_eq!(a, ["a-0", "a-1", "a-2", "a-3", "a-4"]);
}

#[test]
fn what_the_agent_sends_takes_no_tear_back() {
    let mut st = RelayState::new();
    st.torn = true;
    let mut buf = Vec::new();
    st.ingest_agent_bytes(&mut buf, b"{\"params\":{\"sessionId\":\"a\"}}\n", 0);
    assert!(st.torn);
    assert!(matches!(st.next_forward(), Forward::Torn));
    assert_eq!(depth(&st, "a"), 1);
}

#[test]
fn a_lane_over_the_hard_bound_is_dropped_whole_and_the_others_stay() {
    let mut st = st_with(&[("a", 3, false), ("s", 2, true)]);
    let info = inspect(b"{\"params\":{\"sessionId\":\"s\"}}");
    let r = st.route_frame(vec![0; HARD_BOUND_BYTES], &info, 1);
    assert_eq!(r.samples.len(), 2);
    assert_eq!(r.samples[1].queue_depth, 3);
    assert_eq!((depth(&st, "s"), depth(&st, "a")), (0, 3));
}

#[test]
fn the_common_lane_is_no_session() {
    let mut st = RelayState::new();
    let mut buf = Vec::new();
    st.ingest_agent_bytes(&mut buf, b"noise\n", 0);
    assert_eq!(st.session_count(), 0);
    st.ingest_agent_bytes(&mut buf, b"{\"params\":{\"sessionId\":\"a\"}}\nnoise\n", 0);
    assert_eq!(st.session_count(), 1);
    assert_eq!(depth(&st, "-"), 2);
}

#[test]
fn short_batches_come_round_to_everyone() {
    let mut st = st_with(&[("a", 9, false), ("b", 9, false), ("c", 9, false), ("p", 9, true)]);
    let mut served = Vec::new();
    for round in 0..4 {
        let mut q = SessionQueue::new();
        q.push(b"new-0\n".to_vec(), 0);
        st.queues.insert(format!("new{round}"), q);
        served.extend(lines(&drain_round_robin(&mut st, 1)));
    }
    assert_eq!(served[..3], ["a-0", "b-0", "c-0"]);
    assert_eq!(depth(&st, "p"), 9);
}

#[test]
fn when_bytes_come_does_not_change_what_is_queued() {
    let stream = b"{\"id\":1,\"method\":\"fs/x\",\"params\":{\"sessionId\":\"a\"}}\nnoise\nrest";
    let mut at_once = RelayState::new();
    let mut buf = Vec::new();
    at_once.ingest_agent_bytes(&mut buf, stream, 5);
    let expected = drain_round_robin(&mut at_once, 99);
    let mut st = RelayState::new();
    let mut buf = Vec::new();
    st.ingest_agent_bytes(&mut buf, &stream[..20], 100);
    st.ingest_agent_bytes(&mut buf, &stream[20..], 9_000);
    assert_eq!(buf, b"rest");
    assert_eq!(st.open_callbacks.get(&RpcId::Num(1)), Some(&("a".to_string(), 9_000)));
    assert_eq!(drain_round_robin(&mut st, 99), expected);
}

#[test]
fn a_session_named_like_the_common_lane_is_counted() {
    let mut st = RelayState::new();
    let mut buf = Vec::new();
    st.ingest_agent_bytes(&mut buf, b"noise\n", 0);
    assert_eq!(st.session_count(), 0);
    st.ingest_agent_bytes(&mut buf, b"{\"params\":{\"sessionId\":\"-\"}}\n", 0);
    assert_eq!(st.session_count(), 1);

    let mut st = RelayState::new();
    let prompt = b"{\"id\":1,\"method\":\"session/prompt\",\"params\":{\"sessionId\":\"-\"}}\n";
    st.ingest_client_bytes(&mut buf, prompt);
    assert_eq!(st.session_count(), 0);
    st.ingest_agent_bytes(&mut buf, b"{\"id\":1,\"result\":{}}\n", 0);
    assert_eq!(st.session_count(), 1);
}

#[test]
fn a_successor_gets_a_relay_that_is_not_torn() {
    let mut desk = LeaseDesk::new();
    let mut st = st_with(&[("a", 2, false)]);
    desk.attach(&mut st, 0, 0, "one");
    st.torn = true;
    assert!(matches!(st.next_forward(), Forward::Torn));
    st.open_turns.insert(RpcId::Num(1), "a".to_string());
    assert!(matches!(desk.attach(&mut st, 5, 5, "two"), AttachStep::Refused { .. }));
    assert!(st.torn);
    st.open_turns.clear();
    assert!(matches!(desk.attach(&mut st, 5, 5, "two"), AttachStep::Granted { stops: true }));
    assert!(!st.torn);
    match st.next_forward() {
        Forward::Batch(b) => assert_eq!(lines(&b), ["a-0", "a-1"]),
        _ => panic!("expected a batch"),
    }
}

use acp_pipe::control::{
    default_holder, events_step, expect_ack, expect_agents, expect_attached, expect_spawned,
    holder_tag, render_list, spawned_line, EventsStep, ReplyError,
};
use acp_pipe::protocol::{AgentInfo, ControlRequest, ControlResponse, Liveness, Telemetry};
use acp_pipe::recipe::{Recipe, RecipeKind};
use acp_pipe::supervisor::{
    already_running, bad_request, detached_serve_args, list_row, plan_spawn, prespawn_count,
    prespawn_plan, spawn_response, ControlStep, DetachWalk, Pool, Prespawn, Probe, Surroundings,
    WalkStep,
};
use acp_pipe::text::{decimal, join_path, pad_right, same_text, signed_decimal, strip_leading, trim};

fn pool_of(recipes: &[&str]) -> Pool {
    let mut pool = Pool::new();
    for (i, r) in recipes.iter().enumerate() {
        let id = pool.mint_id(r);
        pool.register(&id, r, 100 + i as u32);
    }
    pool
}

fn agent(id: &str, lease: Option<&str>) -> AgentInfo {
    AgentInfo {
        id: id.to_string(),
        recipe: "gemini".to_string(),
        pid: 12,
        liveness: Liveness::Warm,
        lease_holder: lease.map(|s| s.to_string()),
        session_count: 3,
    }
}

fn message(r: &ControlResponse) -> &str {
    match r {
        ControlResponse::Ack { message } => message,
        ControlResponse::Error { message } => message,
        _ => panic!("no message"),
    }
}

#[test]
fn ids_are_minted_in_order() {
    let pool = pool_of(&["gemini", "codex", "gemini"]);
    assert_eq!(pool.len(), 3);
    assert_eq!(pool.last_seq(), 3);
    assert_eq!(pool.agent_at(0).id, "gemini-1");
    assert_eq!(pool.agent_at(1).id, "codex-2");
    assert_eq!(pool.agent_at(2).id, "gemini-3");
    let a = pool.get("codex-2").unwrap();
    assert_eq!((a.recipe.as_str(), a.pid, a.liveness), ("codex", 101, Liveness::Warm));
    assert!(a.lease_holder.is_none());
    assert!(pool.get("codex").is_none());
}

#[test]
fn targets_resolve_by_id_recipe_and_number() {
    let mut pool = pool_of(&["gemini", "codex", "gemini"]);
    assert_eq!(pool.resolve_target("gemini-3").as_deref(), Some("gemini-3"));
    assert_eq!(pool.resolve_target("gemini").as_deref(), Some("gemini-1"));
    assert_eq!(pool.resolve_target("#2").as_deref(), Some("codex-2"));
    assert_eq!(pool.resolve_target("#codex").as_deref(), Some("codex-2"));
    assert_eq!(pool.resolve_target("#gemini-3").as_deref(), Some("gemini-3"));
    assert_eq!(pool.resolve_target("2"), None);
    assert_eq!(pool.resolve_target("#9"), None);
    assert_eq!(pool.resolve_target("#"), None);
    assert_eq!(pool.resolve_target(""), None);
    pool.mark_exited("gemini-1");
    assert_eq!(pool.resolve_target("gemini").as_deref(), Some("gemini-3"));
    assert_eq!(pool.resolve_target("#1").as_deref(), Some("gemini-1"));
    assert_eq!(pool.resolve_target("gemini-1").as_deref(), Some("gemini-1"));
}

#[test]
fn numbers_do_not_match_longer_numbers() {
    let mut pool = Pool::new();
    for _ in 0..11 {
        let id = pool.mint_id("mock");
        pool.register(&id, "mock", 1);
    }
    assert_eq!(pool.resolve_target("#1").as_deref(), Some("mock-1"));
    assert_eq!(pool.resolve_target("#11").as_deref(), Some("mock-11"));
}

#[test]
fn an_exact_id_wins_over_a_recipe() {
    let mut pool = pool_of(&["gemini"]);
    pool.register("gemini", "mock", 5);
    assert_eq!(pool.resolve_target("gemini").as_deref(), Some("gemini"));
}

#[test]
fn a_second_agent_under_an_id_takes_its_place() {
    let mut pool = pool_of(&["gemini", "codex"]);
    pool.register("gemini-1", "mock", 9);
    assert_eq!(pool.len(), 2);
    assert_eq!(pool.agent_at(0).recipe, "mock");
}

#[test]
fn attach_gives_the_data_socket() {
    let pool = pool_of(&["gemini"]);
    let plan = pool.attach("gemini", "cli-1", "/d");
    assert_eq!(plan.agent.as_deref(), Some("gemini-1"));
    match plan.reply {
        ControlResponse::Attached { socket, agent } => {
            assert_eq!(socket, "/d/gemini-1.acp.sock");
            assert_eq!(agent.lease_holder.as_deref(), Some("cli-1"));
            assert_eq!(agent.id, "gemini-1");
        }
        _ => panic!("not attached"),
    }
    let plan = pool.attach("nope", "cli-1", "/d");
    assert!(plan.agent.is_none());
    assert_eq!(message(&plan.reply), "no agent matching 'nope'");
}

#[test]
fn kill_takes_the_agent_out() {
    let mut pool = pool_of(&["gemini", "codex"]);
    let (found, reply) = pool.kill("gemini-1");
    assert!(found);
    assert_eq!(message(&reply), "killed agent 'gemini-1'");
    assert_eq!(pool.len(), 1);
    assert!(pool.get("gemini-1").is_none());
    let (found, reply) = pool.kill("gemini-1");
    assert!(!found);
    assert!(matches!(reply, ControlResponse::Error { .. }));
    assert_eq!(message(&reply), "no agent 'gemini-1'");
    let id = pool.mint_id("gemini");
    assert_eq!(id, "gemini-3");
}

#[test]
fn detach_walks_until_a_release() {
    let pool = pool_of(&["a", "b", "c"]);
    let mut walk = DetachWalk::begin("h", pool.detach_targets(None));
    assert!(matches!(walk.step(false), WalkStep::Ask(id) if id == "a-1"));
    assert!(matches!(walk.step(false), WalkStep::Ask(id) if id == "b-2"));
    match walk.step(true) {
        WalkStep::Done(r) => assert_eq!(message(&r), "detached 'h' from 'b-2'"),
        _ => panic!("not done"),
    }
    let mut walk = DetachWalk::begin("h", pool.detach_targets(Some("c-3")));
    assert!(matches!(walk.step(false), WalkStep::Ask(id) if id == "c-3"));
    match walk.step(false) {
        WalkStep::Done(r) => assert_eq!(message(&r), "no matching lease for 'h'"),
        _ => panic!("not done"),
    }
    let mut walk = DetachWalk::begin("h", pool.detach_targets(Some("zz")));
    assert!(matches!(walk.step(true), WalkStep::Done(_)));
}

#[test]
fn events_need_an_agent() {
    let pool = pool_of(&["gemini"]);
    assert!(matches!(pool.events_target("#1"), Ok(id) if id == "gemini-1"));
    match pool.events_target("x") {
        Err(r) => assert_eq!(message(&r), "no agent 'x'"),
        Ok(_) => panic!("found"),
    }
}

#[test]
fn a_snapshot_keeps_who_the_agents_are() {
    let pool = pool_of(&["gemini", "codex"]);
    let s = pool.snapshot();
    assert_eq!(s.next_seq, 2);
    assert_eq!(s.agents.len(), 2);
    assert_eq!((s.agents[1].id.as_str(), s.agents[1].recipe.as_str(), s.agents[1].pid), ("codex-2", "codex", 101));
}

#[test]
fn list_rows_show_what_holds_now() {
    let a = agent("gemini-1", Some("old"));
    let p = Probe { lease_holder: Some(None), session_count: Some(5), exited: false };
    let r = list_row(&a, &p);
    assert_eq!((r.lease_holder, r.session_count, r.liveness), (None, 5, Liveness::Warm));
    let p = Probe { lease_holder: None, session_count: None, exited: true };
    let r = list_row(&a, &p);
    assert_eq!((r.lease_holder.as_deref(), r.session_count, r.liveness), (Some("old"), 3, Liveness::Dead));
    let dead = AgentInfo { liveness: Liveness::Dead, ..agent("g", None) };
    let p = Probe { lease_holder: Some(Some("h".to_string())), session_count: None, exited: false };
    let r = list_row(&dead, &p);
    assert_eq!((r.lease_holder.as_deref(), r.liveness), (Some("h"), Liveness::Dead));
    let starting = AgentInfo { liveness: Liveness::Starting, ..agent("g", None) };
    assert_eq!(list_row(&starting, &p).liveness, Liveness::Warm);
}

#[test]
fn spawn_requests_are_planned() {
    assert_eq!(plan_spawn("oracle", "codex", None, None).ok().unwrap().command, "codex");
    match plan_spawn("oracle", "nope", None, None) {
        Err(r) => assert_eq!(
            message(&r),
            "unknown recipe 'nope' (known: gemini, codex, oracle-channels, mock)"
        ),
        Ok(_) => panic!("known"),
    }
    assert_eq!(message(&spawn_response(Err("no exec".to_string()))), "spawn failed: no exec");
    assert!(matches!(spawn_response(Ok(agent("g-1", None))), ControlResponse::Spawned { agent } if agent.id == "g-1"));
    assert_eq!(message(&bad_request("eof")), "bad control request: eof");
    assert_eq!(
        already_running("/d/control.sock"),
        "supervisor already running (control socket /d/control.sock is live)"
    );
}

#[test]
fn recipes_are_built_in() {
    assert_eq!(Recipe::builtin_names("oracle"), ["gemini", "codex", "oracle-channels", "mock"]);
    for name in Recipe::builtin_names("oracle") {
        let r = Recipe::builtin("oracle", &name, None, None).unwrap();
        assert_eq!((r.name, r.pool_size), (name, 1));
    }
    let g = Recipe::builtin("oracle", "acp-stdio", None, None).unwrap();
    assert_eq!((g.name.as_str(), g.command.as_str(), g.pool_size), ("gemini", "gemini", 1));
    assert_eq!(g.args, ["--acp"]);
    assert_eq!(g.kind, RecipeKind::AcpStdio);
    assert!(g.env.is_empty());
    let c = Recipe::builtin("oracle", "oracle", Some("/b.mjs".to_string()), None).unwrap();
    assert_eq!((c.name.as_str(), c.command.as_str(), c.kind), ("oracle-channels", "node", RecipeKind::ClaudeChannels));
    assert_eq!(c.args, ["/b.mjs"]);
    assert_eq!(c.env, [("ANTHROPIC_API_KEY".to_string(), None)]);
    let c = Recipe::builtin("oracle", "oracle-channels", None, None).unwrap();
    assert_eq!(c.args, ["scripts/oracle-channels-bridge.mjs"]);
    let m = Recipe::builtin("oracle", "mock", None, None).unwrap();
    assert_eq!(m.args, ["tests/support/mock-acp-agent.mjs"]);
    assert_eq!(Recipe::builtin("oracle", "mock", None, Some("/m".to_string())).unwrap().args, ["/m"]);
    assert_eq!(Recipe::builtin("oracle", "codex", None, None).unwrap().args, ["acp"]);
    for alias in ["acp-stdio", "oracle"] {
        assert_eq!(Recipe::builtin("oracle", alias, None, None).unwrap().pool_size, 1);
    }
    assert!(Recipe::builtin("oracle", "", None, None).is_none());
}

#[test]
fn a_named_recipe_is_brought_up_at_least_once() {
    let mut r = Recipe::builtin("oracle", "codex", None, None).unwrap();
    assert_eq!(prespawn_count(&r), 1);
    r.pool_size = 4;
    assert_eq!(prespawn_count(&r), 4);
    assert_eq!(
        detached_serve_args(&vec!["gemini".to_string(), "codex".to_string()]),
        ["serve", "--prespawn", "gemini", "--prespawn", "codex"]
    );
    assert_eq!(detached_serve_args(&vec![]), ["serve"]);
}

#[test]
fn callers_are_tagged_by_their_shell() {
    assert_eq!(default_holder(77), "cli-77");
    assert_eq!(default_holder(-1), "cli--1");
    assert_eq!(holder_tag(Some("me".to_string()), 77), "me");
    assert_eq!(holder_tag(None, 77), "cli-77");
}

#[test]
fn the_agent_table_is_aligned() {
    assert_eq!(render_list(&vec![]), "(no agents)\n");
    let text = render_list(&vec![agent("gemini-1", None), agent("a-very-long-agent-identifier", Some("cli-9"))]);
    assert_eq!(
        text,
        format!(
            "{:<16} {:<16} {:<8} {:<10} {:<14} SESSIONS\n{:<16} {:<16} {:<8} Warm {:<14} 3\n{:<16} {:<16} {:<8} Warm {:<14} 3\n",
            "ID", "RECIPE", "PID", "LIVENESS", "LEASE", "gemini-1", "gemini", 12, "-", "a-very-long-agent-identifier", "gemini", 12, "cli-9"
        )
    );
    assert_eq!(
        text.lines().nth(1).unwrap(),
        format!("{:<16} {:<16} {:<8} {:<10?} {:<14} {}", "gemini-1", "gemini", 12, Liveness::Warm, "-", 3)
    );
    assert_eq!(spawned_line(&agent("gemini-1", None)), "spawned gemini-1 (recipe gemini, pid 12)\n");
}

#[test]
fn replies_are_told_apart() {
    assert_eq!(expect_ack(ControlResponse::Ack { message: "m".to_string() }).ok().unwrap(), "m");
    assert!(matches!(expect_ack(ControlResponse::err("e")), Err(ReplyError::Refused(m)) if m == "e"));
    assert!(matches!(
        expect_ack(ControlResponse::Agents { agents: vec![] }),
        Err(ReplyError::Unexpected(ControlResponse::Agents { .. }))
    ));
    assert_eq!(expect_agents(ControlResponse::Agents { agents: vec![agent("a", None)] }).ok().unwrap().len(), 1);
    assert!(expect_agents(ControlResponse::err("e")).is_err());
    assert_eq!(expect_spawned(ControlResponse::Spawned { agent: agent("a", None) }).ok().unwrap().id, "a");
    assert!(expect_spawned(ControlResponse::err("e")).is_err());
    let attached = ControlResponse::Attached { socket: "/s".to_string(), agent: agent("a", None) };
    assert_eq!(expect_attached(attached).ok().unwrap().0, "/s");
    assert!(expect_attached(ControlResponse::err("e")).is_err());
}

#[test]
fn events_print_samples_and_stop_on_errors() {
    let t = Telemetry {
        session: "s".to_string(),
        queue_depth: 1,
        oldest_unread_ms: 2,
        lifecycle: "flowing".to_string(),
    };
    assert!(matches!(events_step(ControlResponse::Telemetry(t)), EventsStep::Print(t) if t.session == "s"));
    assert!(matches!(events_step(ControlResponse::err("e")), EventsStep::Fail(m) if m == "e"));
    assert!(matches!(
        events_step(ControlResponse::Agents { agents: vec![] }),
        EventsStep::Complain(ControlResponse::Agents { .. })
    ));
}

#[test]
fn text_helpers_agree_with_std() {
    for n in [0u64, 7, 10, 99, 100, 4_294_967_295, u64::MAX] {
        assert_eq!(decimal(n), n.to_string());
    }
    for n in [0i64, -1, 5, i64::MIN, i64::MAX] {
        assert_eq!(signed_decimal(n), n.to_string());
    }
    for s in ["", "  ", "\u{a0}x y\u{3000}\n", "\t\r\n a", "é ", "\u{200b}z\u{200b}"] {
        assert_eq!(trim(s), s.trim());
    }
    assert_eq!(pad_right("日本", 4), format!("{:<4}", "日本"));
    assert_eq!(pad_right("abcdef", 4), "abcdef");
    assert_eq!(strip_leading("##a#", '#'), "a#");
    assert!(same_text("é", "é"));
    assert!(!same_text("a", "ab"));
    assert!(!same_text("ab", "aB"));
    for (d, n) in [("/a", "b"), ("/a/", "b"), ("", "b"), ("/a", "/b"), ("a", "")] {
        let joined = std::path::Path::new(d).join(n);
        assert_eq!(join_path(d, n), joined.to_str().unwrap());
    }
}

fn around() -> Surroundings {
    Surroundings {
        tool: "oracle".to_string(),
        dir: "/d".to_string(),
        channels_bridge: None,
        mock_agent: Some("/m".to_string()),
    }
}

#[test]
fn control_requests_are_planned() {
    let mut pool = pool_of(&["gemini", "codex"]);
    let s = around();
    assert!(matches!(pool.plan(&s, ControlRequest::List), ControlStep::Collect));
    match pool.plan(&s, ControlRequest::Spawn { recipe: "mock".to_string() }) {
        ControlStep::Start(r) => assert_eq!(r.args, ["/m"]),
        _ => panic!("not started"),
    }
    match pool.plan(&s, ControlRequest::Spawn { recipe: "zz".to_string() }) {
        ControlStep::Reply(r) => assert!(message(&r).starts_with("unknown recipe 'zz'")),
        _ => panic!("started"),
    }
    let attach = |target: &str| ControlRequest::Attach {
        target: target.to_string(),
        holder: "h".to_string(),
    };
    match pool.plan(&s, attach("codex")) {
        ControlStep::Announce { agent, holder, reply } => {
            assert_eq!((agent.as_str(), holder.as_str()), ("codex-2", "h"));
            assert!(matches!(reply, ControlResponse::Attached { socket, .. } if socket == "/d/codex-2.acp.sock"));
        }
        _ => panic!("not announced"),
    }
    assert!(matches!(pool.plan(&s, attach("zz")), ControlStep::Reply(_)));
    let detach = ControlRequest::Detach { id: None, holder: "h".to_string() };
    match pool.plan(&s, detach) {
        ControlStep::Release(mut walk) => {
            assert_eq!(walk.holder(), "h");
            assert!(matches!(walk.step(false), WalkStep::Ask(id) if id == "gemini-1"));
        }
        _ => panic!("no walk"),
    }
    assert!(matches!(
        pool.plan(&s, ControlRequest::Events { agent: "#2".to_string() }),
        ControlStep::Stream(id) if id == "codex-2"
    ));
    assert!(matches!(
        pool.plan(&s, ControlRequest::Events { agent: "#3".to_string() }),
        ControlStep::Reply(_)
    ));
    assert_eq!(pool.len(), 2);
    match pool.plan(&s, ControlRequest::Kill { id: "gemini-1".to_string() }) {
        ControlStep::Terminate { id, reply } => {
            assert_eq!(id, "gemini-1");
            assert_eq!(message(&reply), "killed agent 'gemini-1'");
        }
        _ => panic!("not killed"),
    }
    assert_eq!(pool.len(), 1);
    match pool.plan(&s, ControlRequest::Kill { id: "gemini-1".to_string() }) {
        ControlStep::Reply(r) => assert_eq!(message(&r), "no agent 'gemini-1'"),
        _ => panic!("killed twice"),
    }
}

#[test]
fn named_recipes_are_brought_up_in_order() {
    let names = vec!["acp-stdio".to_string(), "zz".to_string(), "codex".to_string()];
    let plan = prespawn_plan(&around(), &names);
    assert_eq!(plan.len(), 3);
    assert!(matches!(&plan[0], Prespawn::Start { recipe, count: 1 } if recipe.name == "gemini"));
    assert!(matches!(&plan[1], Prespawn::Unknown { name } if name == "zz"));
    assert!(matches!(&plan[2], Prespawn::Start { recipe, count: 1 } if recipe.name == "codex"));
}

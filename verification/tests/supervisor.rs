use cucina::model::{Group, Origin, Server, State, Status};
use cucina::supervisor::{
    child_env, exit_message, gave_up_message, gone_message, get, groups, is_live, ready_check,
    remove_runtime, remove_server, restart_delay_ms, restart_message, runtime_index, runtime_slot,
    set_group_icon, shutdown, spawn_banner, start, statuses, stop, switch_dir, upsert, wrap,
    ExitOutcome, Readiness, Runtime, StopRequest, RESTART_LIMIT,
};

fn server(name: &str, command: &str) -> Server {
    Server {
        id: String::new(),
        name: name.into(),
        dir: "/tmp".into(),
        command: command.into(),
        group: String::new(),
        tile: 0,
        env: Vec::new(),
        auto_restart: false,
        auto_start: false,
        created_at: 0,
    }
}

fn grouped(id: &str, group: &str) -> Server {
    let mut s = server(id, "true");
    s.id = id.into();
    s.group = group.into();
    s
}

#[test]
fn refuses_a_server_it_could_not_run() {
    let mut servers = Vec::new();
    assert!(
        upsert(&mut servers, server("", "sleep 1"), "/tmp".into(), true, 1).is_err(),
        "name is required"
    );
    assert!(
        upsert(&mut servers, server("no-command", "  "), "/tmp".into(), true, 1).is_err(),
        "command is required"
    );
    let mut bad = server("nowhere", "sleep 1");
    bad.dir = "/definitely/not/a/directory".into();
    assert!(
        upsert(&mut servers, bad, "/definitely/not/a/directory".into(), false, 1).is_err(),
        "directory must exist"
    );
    assert!(servers.is_empty());
}

#[test]
fn gives_servers_distinct_ids() {
    let mut servers = Vec::new();
    let a = upsert(&mut servers, server("Same Name", "sleep 1"), "/tmp".into(), true, 1).expect("first");
    let b = upsert(&mut servers, server("Same Name", "sleep 1"), "/tmp".into(), true, 2).expect("second");
    assert_eq!(a.id, "same-name");
    assert_ne!(a.id, b.id);

    remove_server(&mut servers, &a.id);
    remove_server(&mut servers, &b.id);
    assert!(get(&servers, &a.id).is_none());
}

#[test]
fn refusals_say_why() {
    let mut servers = Vec::new();
    assert_eq!(
        upsert(&mut servers, server("", "x"), "/tmp".into(), true, 1).unwrap_err(),
        "A name is required."
    );
    assert_eq!(
        upsert(&mut servers, server("api", " "), "/tmp".into(), true, 1).unwrap_err(),
        "A command is required."
    );
    assert_eq!(
        upsert(&mut servers, server("api", "x"), "/nope".into(), false, 1).unwrap_err(),
        "/nope is not a directory."
    );
    let mut ghost = server("api", "x");
    ghost.id = "ghost".into();
    assert_eq!(
        upsert(&mut servers, ghost, "/tmp".into(), true, 1).unwrap_err(),
        "No server called ghost."
    );
}

#[test]
fn a_new_server_is_stamped_and_an_update_keeps_its_birth() {
    let mut servers = Vec::new();
    let a = upsert(&mut servers, server("API", "npm run dev"), "/srv/api".into(), true, 100).unwrap();
    assert_eq!(a.id, "api");
    assert_eq!(a.created_at, 100);
    assert_eq!(a.dir, "/srv/api");
    let c = upsert(&mut servers, server("API", "x"), "/tmp".into(), true, 101).unwrap();
    assert_eq!(c.id, "api-2");

    let mut edit = server("API v2", "npm start");
    edit.id = "api".into();
    let b = upsert(&mut servers, edit, "/srv/api2".into(), true, 999).unwrap();
    assert_eq!(b.created_at, 100);
    assert_eq!(servers.len(), 2);
    assert_eq!(servers[0].name, "API v2");
    assert_eq!(servers[0].dir, "/srv/api2");
}

#[test]
fn switching_directory_reports_whether_it_moved() {
    let mut servers = vec![grouped("api", "")];
    assert_eq!(switch_dir(&mut servers, "api", "/tmp"), Ok(false));
    assert_eq!(switch_dir(&mut servers, "api", "/srv/other"), Ok(true));
    assert_eq!(servers[0].dir, "/srv/other");
    assert_eq!(switch_dir(&mut servers, "nope", "/tmp"), Err("No server called nope.".to_string()));
}

#[test]
fn projects_come_in_first_appearance_order_with_their_icons() {
    let servers = vec![
        grouped("a", "acme"),
        grouped("b", ""),
        grouped("c", "beta"),
        grouped("d", "acme"),
    ];
    let stored = vec![Group { name: "beta".into(), icon: "🍋".into() }];
    let out = groups(&servers, &stored);
    assert_eq!(out.len(), 2);
    assert_eq!(out[0].name, "acme");
    assert_eq!(out[0].icon, "");
    assert_eq!(out[1].name, "beta");
    assert_eq!(out[1].icon, "🍋");
}

#[test]
fn an_icon_set_is_read_back() {
    let mut stored = vec![Group { name: "acme".into(), icon: "a".into() }];
    set_group_icon(&mut stored, "acme", "b");
    set_group_icon(&mut stored, "new", "c");
    assert_eq!(stored.len(), 2);
    assert_eq!(stored[0].icon, "b");
    assert_eq!(stored[1].name, "new");
    let servers = vec![grouped("x", "acme"), grouped("y", "new")];
    let out = groups(&servers, &stored);
    assert_eq!(out[0].icon, "b");
    assert_eq!(out[1].icon, "c");
}

#[test]
fn a_run_starts_then_runs_on_first_output() {
    let mut rt = Runtime::new("api");
    let generation = rt.begin(4242, Origin::User, 0, 10);
    assert_eq!(generation, 1);
    assert_eq!(rt.status.state, State::Starting);
    assert_eq!(rt.pgid, Some(4242));
    assert_eq!(rt.restart_window_start, 10);
    assert_eq!(rt.on_output(generation, None), Some(true));
    assert_eq!(rt.status.state, State::Running);
    assert_eq!(rt.on_output(generation, Some(5173)), Some(true));
    assert_eq!(rt.status.port, Some(5173));
    assert_eq!(rt.on_output(generation, Some(3000)), Some(false));
    assert_eq!(rt.status.port, Some(5173));
    assert_eq!(rt.on_output(generation + 1, None), None);
    assert!(!rt.probing(generation));
    assert!(!rt.on_port(generation, 8080));
}

#[test]
fn a_deliberate_stop_is_never_restarted() {
    let mut rt = Runtime::new("api");
    let g = rt.begin(1, Origin::User, 0, 0);
    assert_eq!(rt.request_stop(), StopRequest::Signal(Some(1)));
    let out = rt.on_exit(g, Some(1), true, 5);
    assert_eq!(out, ExitOutcome::Settled { restart: None, gave_up: true });
    assert_eq!(rt.status.state, State::Stopped);
    assert_eq!(rt.status.restarts, 0);
    assert_eq!(rt.request_stop(), StopRequest::NotRunning);
}

#[test]
fn a_crash_loop_gives_up_after_the_limit() {
    let mut rt = Runtime::new("api");
    let mut g = rt.begin(1, Origin::User, 0, 0);
    for attempt in 1..=RESTART_LIMIT {
        let out = rt.on_exit(g, Some(1), true, 100);
        assert_eq!(out, ExitOutcome::Settled { restart: Some(attempt), gave_up: false });
        assert_eq!(rt.status.state, State::Crashed);
        g = rt.begin(2, Origin::User, attempt, 100);
    }
    let out = rt.on_exit(g, Some(1), true, 200);
    assert_eq!(out, ExitOutcome::Settled { restart: None, gave_up: true });
    // A crash after the window has passed starts counting again.
    let g = rt.begin(3, Origin::User, RESTART_LIMIT, 200);
    let out = rt.on_exit(g, Some(1), true, 100_000);
    assert_eq!(out, ExitOutcome::Settled { restart: Some(1), gave_up: false });
}

#[test]
fn a_clean_exit_settles_as_stopped_and_an_old_run_changes_nothing() {
    let mut rt = Runtime::new("api");
    let g = rt.begin(1, Origin::User, 0, 0);
    assert_eq!(rt.on_exit(g + 7, Some(1), true, 1), ExitOutcome::Superseded);
    assert_eq!(rt.status.state, State::Starting);
    let out = rt.on_exit(g, Some(0), true, 1);
    assert_eq!(out, ExitOutcome::Settled { restart: None, gave_up: false });
    assert_eq!(rt.status.state, State::Stopped);
    assert_eq!(rt.status.exit_code, Some(0));
    assert!(rt.status.started_at.is_none());
}

#[test]
fn exit_and_restart_messages() {
    assert_eq!(exit_message(Some(0)), "Finished cleanly.");
    assert_eq!(exit_message(Some(2)), "Exited with code 2.");
    assert_eq!(exit_message(Some(-1)), "Exited with code -1.");
    assert_eq!(exit_message(None), "Stopped.");
    assert_eq!(restart_delay_ms(1), 500);
    assert_eq!(restart_delay_ms(9), 3000);
    assert_eq!(restart_message(3), "Restarting in 1.5s (attempt 3 of 5).");
    assert_eq!(restart_message(2), "Restarting in 1.0s (attempt 2 of 5).");
    assert_eq!(spawn_banner("npm run dev", "~/code/api"), "$ npm run dev — in ~/code/api");
    assert_eq!(gone_message("/x"), "/x no longer exists.");
    assert!(gave_up_message().starts_with("Gave up restarting"));
}

#[test]
fn the_wrapper_carries_the_command_and_its_watchdog() {
    let w = wrap("npm run dev");
    assert!(w.starts_with("{ read -r _ <&3; kill -TERM -$$"));
    assert!(w.contains("\nnpm run dev\n"));
    assert!(w.ends_with("exit $__cucina_status\n"));
}

#[test]
fn starting_needs_a_known_idle_server() {
    let servers = vec![grouped("api", "")];
    let mut rts = vec![Runtime::new("api")];
    assert_eq!(start(&servers, &rts, "nope").unwrap_err(), "No server called nope.");
    assert!(start(&servers, &rts, "api").is_ok());
    rts[0].begin(9, Origin::User, 0, 0);
    assert!(is_live(&rts, "api"));
    assert_eq!(start(&servers, &rts, "api").unwrap_err(), "api is already running.");
    assert_eq!(stop(&mut rts, "api"), Ok(StopRequest::Signal(Some(9))));
    assert!(rts[0].stopping);
    assert_eq!(stop(&mut rts, "ghost"), Err("No server called ghost.".to_string()));
}

#[test]
fn shutdown_takes_every_running_server_with_it() {
    let mut rts = vec![Runtime::new("a"), Runtime::new("b"), Runtime::new("c")];
    rts[0].begin(10, Origin::User, 0, 0);
    rts[2].begin(30, Origin::User, 0, 0);
    let groups = shutdown(&mut rts);
    assert_eq!(groups, vec![10, 30]);
    assert!(rts.iter().all(|r| r.stopping && r.pgid.is_none()));
}

#[test]
fn statuses_follow_the_servers() {
    let servers = vec![grouped("a", ""), grouped("b", "")];
    let mut rts = vec![Runtime::new("b")];
    rts[0].begin(5, Origin::User, 0, 0);
    let st = statuses(&servers, &rts);
    assert_eq!(st.len(), 2);
    assert_eq!(st[0].id, "a");
    assert_eq!(st[0].state, State::Stopped);
    assert_eq!(st[1].state, State::Starting);
    assert_eq!(runtime_index(&rts, "b"), Some(0));
    let k = runtime_slot(&mut rts, "a");
    assert_eq!(k, 1);
    assert_eq!(runtime_slot(&mut rts, "b"), 0);
    remove_runtime(&mut rts, "b");
    assert_eq!(rts.len(), 1);
    assert_eq!(rts[0].status.id, "a");
}

#[test]
fn waiting_for_a_port() {
    let mut s = Status::stopped("api");
    s.state = State::Starting;
    assert!(matches!(ready_check(&[s.clone()], "api"), Readiness::Waiting));
    s.port = Some(3000);
    assert!(matches!(ready_check(&[s.clone()], "api"), Readiness::Ready));
    s.port = None;
    s.state = State::Crashed;
    s.exit_code = Some(1);
    match ready_check(&[s.clone()], "api") {
        Readiness::Failed(m) => assert_eq!(m, "api exited with code 1 while starting."),
        _ => panic!("expected a failure"),
    }
    s.state = State::Stopped;
    match ready_check(&[s], "api") {
        Readiness::Failed(m) => assert_eq!(m, "api stopped before it was ready."),
        _ => panic!("expected a failure"),
    }
    assert!(matches!(ready_check(&[], "api"), Readiness::Waiting));
}

#[test]
fn a_run_gets_the_login_path_its_own_variables_and_the_markers() {
    let env = vec![("NODE_ENV".to_string(), "development".to_string())];
    let out = child_env(Some("/usr/bin".into()), &env);
    assert_eq!(out.len(), 4);
    assert_eq!(out[0], ("PATH".to_string(), "/usr/bin".to_string()));
    assert_eq!(out[1].0, "NODE_ENV");
    assert_eq!(out[2], ("CUCINA".to_string(), "1".to_string()));
    assert_eq!(out[3], ("FORCE_COLOR".to_string(), "0".to_string()));
    assert_eq!(child_env(None, &Vec::new()).len(), 2);
}

#[test]
fn nothing_comes_back_after_shutdown() {
    let mut rts = vec![Runtime::new("api")];
    let g = rts[0].begin(7, Origin::User, 0, 0);
    assert_eq!(shutdown(&mut rts), vec![7]);
    let out = rts[0].on_exit(g, Some(137), true, 1);
    assert_eq!(out, ExitOutcome::Settled { restart: None, gave_up: true });
    assert_eq!(rts[0].status.state, State::Stopped);
}

#[test]
fn a_live_server_is_started_again_after_a_switch() {
    let p = cucina::supervisor::after_switch(true, false);
    assert!(p.start_again && !p.save && !p.announce);
    let q = cucina::supervisor::after_switch(false, true);
    assert!(!q.start_again && q.save && q.announce);
}

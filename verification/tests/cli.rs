use cucina::cli::{
    build_server, env_insert, error_line, find_exact, find_view, help, need_id, open_url, origin, resolve,
    resolve_worktree, started_line, strip_ansi, switch_target, unknown_command, worktree_line, Args, Command,
    DEFAULT_WAIT_MS,
};
use cucina::git::Worktree;
use cucina::model::{Origin, Server, Status};
use cucina::proto::ServerView;
use cucina::ui::Paint;

fn args(raw: &[&str]) -> Args {
    Args::parse(raw.iter().map(|s| s.to_string()).collect())
}

fn view(id: &str, name: &str, group: &str) -> ServerView {
    ServerView {
        server: Server {
            id: id.into(),
            name: name.into(),
            dir: "/tmp".into(),
            command: "true".into(),
            group: group.into(),
            tile: 0,
            env: Vec::new(),
            auto_restart: false,
            auto_start: false,
            created_at: 0,
        },
        status: Status::stopped(id),
    }
}

fn tree(path: &str, branch: &str) -> Worktree {
    Worktree { path: path.into(), branch: branch.into(), is_main: false, is_current: false }
}

#[test]
fn flags_take_values_with_equals_or_a_space() {
    let a = args(&["api", "--name=API", "--dir", ".", "--json", "--env", "A=1", "--env=B=2", "extra"]);
    assert_eq!(a.positional, vec!["api".to_string(), "extra".to_string()]);
    assert_eq!(a.get("name"), Some("API".to_string()));
    assert_eq!(a.get("dir"), Some(".".to_string()));
    assert!(a.has("json"));
    assert_eq!(a.get("json"), None);
    assert_eq!(a.all("env"), vec!["A=1".to_string(), "B=2".to_string()]);
    assert!(!a.has("wait"));
}

#[test]
fn a_value_flag_at_the_end_is_bare() {
    let a = args(&["--name"]);
    assert!(a.has("name"));
    assert_eq!(a.get("name"), None);
    let b = args(&["--wait", "api"]);
    assert_eq!(b.positional, vec!["api".to_string()]);
}

#[test]
fn wait_and_tail_have_defaults() {
    assert_eq!(args(&[]).wait_ms(), None);
    assert_eq!(args(&["--wait"]).wait_ms(), Some(DEFAULT_WAIT_MS));
    assert_eq!(args(&["--wait=5000"]).wait_ms(), Some(5000));
    assert_eq!(args(&["--wait=soon"]).wait_ms(), Some(45_000));
    assert_eq!(args(&[]).tail(), 200);
    assert_eq!(args(&["--tail", "20"]).tail(), 20);
    assert_eq!(args(&["--tail", "x"]).tail(), 200);
    assert_eq!(args(&[]).dir(), ".");
}

#[test]
fn need_id_and_switch_target_explain_themselves() {
    assert_eq!(need_id(&args(&[])).unwrap_err(), "Which server? e.g. `cucina up api`");
    assert_eq!(need_id(&args(&["api"])), Ok("api".to_string()));
    assert_eq!(switch_target(&args(&["api", "feat"])), Ok("feat".to_string()));
    assert!(switch_target(&args(&["api"])).unwrap_err().starts_with("Which worktree?"));
}

#[test]
fn a_name_picks_one_server_or_a_whole_project() {
    let views = vec![view("api", "API", "acme"), view("web", "Web", "acme"), view("docs", "Docs", "")];
    assert_eq!(resolve(&views, "API"), Ok(vec!["api".to_string()]));
    assert_eq!(resolve(&views, "web"), Ok(vec!["web".to_string()]));
    assert_eq!(resolve(&views, "ACME"), Ok(vec!["api".to_string(), "web".to_string()]));
    assert_eq!(resolve(&views, "Nope"), Err("No server or group called nope.".to_string()));
}

#[test]
fn finding_one_view() {
    let views = vec![view("api", "My API", ""), view("web", "Web", "")];
    assert_eq!(find_view(&views, "my api"), Ok(0));
    assert_eq!(find_view(&views, "web"), Ok(1));
    assert_eq!(find_view(&views, "x"), Err("No server called x.".to_string()));
    assert_eq!(find_exact(&views, "My API"), Ok(0));
    assert!(find_exact(&views, "my api").is_err());
    assert_eq!(open_url(&views[0], "api"), Err("api isn't listening on a port.".to_string()));
    let mut v = view("api", "API", "");
    v.status.port = Some(5173);
    assert_eq!(open_url(&v, "api"), Ok("http://localhost:5173".to_string()));
}

#[test]
fn worktrees_resolve_by_branch_then_by_path() {
    let trees = vec![tree("/repo", "main"), tree("/repo/.wt/feat-64", "feat-64"), tree("/repo/.wt/Other", "x")];
    assert_eq!(resolve_worktree(&trees, "/repo", "MAIN").unwrap().path, "/repo");
    assert_eq!(resolve_worktree(&trees, "/repo", "wt/other").unwrap().branch, "x");
    assert_eq!(
        resolve_worktree(&trees, "/repo", "zzz").unwrap_err(),
        "No worktree matching `zzz`. Available:\n  main\n  feat-64\n  x"
    );
    assert_eq!(resolve_worktree(&[], "/tmp", "main").unwrap_err(), "/tmp isn't a git worktree.");
}

#[test]
fn escapes_come_out() {
    assert_eq!(strip_ansi("\x1b[1mcucina up\x1b[0m \x1b[2m<id>\x1b[0m"), "cucina up <id>");
    assert_eq!(strip_ansi("plain"), "plain");
    assert_eq!(strip_ansi("cut \x1b[3"), "cut ");
}

#[test]
fn help_pads_on_the_visible_width() {
    let on = help(&Paint::detect(false, true));
    let off = help(&Paint::detect(true, false));
    assert_eq!(strip_ansi(&on), off);
    let row = off.lines().find(|l| l.starts_with("  cucina up")).unwrap();
    assert_eq!(row, format!("  cucina up <id>{}start one, --wait until it's listening", " ".repeat(34 - 14)));
    assert!(off.starts_with("cucina  — keep your local servers on the heat\n\n"));
    assert!(off.ends_with("  --auto-restart    bring it back if it crashes\n"));
}

#[test]
fn add_builds_a_server_from_flags() {
    let a = args(&["--name", "API", "--cmd", "npm run dev", "--env", "B=2", "--env", "A=1", "--auto-restart", "--group=acme"]);
    let s = build_server(&a, Some("/srv/api".into())).unwrap();
    assert_eq!(s.name, "API");
    assert_eq!(s.command, "npm run dev");
    assert_eq!(s.dir, "/srv/api");
    assert_eq!(s.group, "acme");
    assert_eq!(s.env, vec![("A".to_string(), "1".to_string()), ("B".to_string(), "2".to_string())]);
    assert!(s.auto_restart && !s.auto_start);
    assert!(s.id.is_empty());

    assert_eq!(build_server(&args(&[]), None).unwrap_err(), "A --name is required, e.g. --name api");
    assert_eq!(
        build_server(&args(&["--name", "a"]), None).unwrap_err(),
        "A --command is required, e.g. --command \"npm run dev\""
    );
    assert_eq!(
        build_server(&args(&["--name", "a", "--command", "x", "--dir", "nowhere"]), None).unwrap_err(),
        "Can't find the directory nowhere."
    );
    assert_eq!(
        build_server(&args(&["--name", "a", "--command", "x", "--env", "oops"]), Some("/".into())).unwrap_err(),
        "--env wants KEY=VALUE, got `oops`"
    );
}

#[test]
fn a_later_env_value_wins_and_keys_stay_sorted() {
    let mut env = Vec::new();
    env_insert(&mut env, "PORT".into(), "1".into());
    env_insert(&mut env, "A".into(), "x".into());
    env_insert(&mut env, "PORT".into(), "2".into());
    env_insert(&mut env, "Z".into(), "z".into());
    let keys: Vec<&str> = env.iter().map(|(k, _)| k.as_str()).collect();
    assert_eq!(keys, vec!["A", "PORT", "Z"]);
    assert_eq!(env[1].1, "2");
}

#[test]
fn who_is_driving() {
    let user = origin(&args(&[]), None, true);
    assert!(matches!(user, Origin::User));
    match origin(&args(&["--agent", "codex"]), Some("x".into()), false) {
        Origin::Agent { client, .. } => assert_eq!(client, "codex"),
        _ => panic!(),
    }
    match origin(&args(&["--agent"]), None, true) {
        Origin::Agent { client, .. } => assert_eq!(client, "agent"),
        _ => panic!(),
    }
    match origin(&args(&[]), Some("wrapper".into()), true) {
        Origin::Agent { client, .. } => assert_eq!(client, "wrapper"),
        _ => panic!(),
    }
    match origin(&args(&[]), None, false) {
        Origin::Agent { client, session } => {
            assert_eq!(client, "agent");
            assert_eq!(session, "");
        }
        _ => panic!(),
    }
}

#[test]
fn commands_have_their_aliases() {
    assert_eq!(Command::of(None), Command::List);
    assert_eq!(Command::of(Some("ls")), Command::List);
    assert_eq!(Command::of(Some("up")), Command::Start);
    assert_eq!(Command::of(Some("restart")), Command::Restart);
    assert_eq!(Command::of(Some("down")), Command::Stop);
    assert_eq!(Command::of(Some("wt")), Command::Worktrees);
    assert_eq!(Command::of(Some("--help")), Command::Help);
    assert_eq!(Command::of(Some("-v")), Command::Version);
    assert_eq!(Command::of(Some("rm")), Command::Remove);
    assert_eq!(Command::of(Some("mcp")), Command::Mcp);
    assert_eq!(Command::of(Some("cook")), Command::Unknown);
    assert_eq!(unknown_command("cook"), "Don't know how to `cook`. Try `cucina help`.");
}

#[test]
fn what_the_commands_print() {
    let off = Paint::detect(true, false);
    assert_eq!(started_line("api", Some(3000), &off), "  ● api ready on http://localhost:3000");
    assert_eq!(started_line("api", None, &off), "  ● api started");
    let mut t = tree("/repo", "main");
    t.is_main = true;
    t.is_current = true;
    assert_eq!(worktree_line(&t, &off), "  ●  main  base");
    assert_eq!(error_line("boom", &off), "✕ boom");
}

#[test]
fn plain_arguments_stay_positional() {
    let a = args(&["api", "web", "-x"]);
    assert_eq!(a.positional, vec!["api".to_string(), "web".to_string(), "-x".to_string()]);
    assert!(a.flags.is_empty());
}

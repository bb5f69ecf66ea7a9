use cucina::model::{Origin, Server, State, Status};
use cucina::proto::ServerView;
use cucina::tray::{
    build_menu, group_ids, label_at, mark, menu_action, stop_all_ids, toggle_stops, tray_active, tray_title, uptime,
    Entry, MenuAction,
};

fn view(id: &str, group: &str, state: State) -> ServerView {
    let mut status = Status::stopped(id);
    status.state = state;
    ServerView {
        server: Server {
            id: id.into(),
            name: id.into(),
            dir: "/tmp".into(),
            command: "true".into(),
            group: group.into(),
            tile: 0,
            env: Vec::new(),
            auto_restart: false,
            auto_start: false,
            created_at: 0,
        },
        status,
    }
}

#[test]
fn uptime_is_terse() {
    assert_eq!(uptime(5_000), "5s");
    assert_eq!(uptime(12 * 60_000), "12m");
    assert_eq!(uptime(3 * 3_600_000 + 5 * 60_000), "3h05");
    assert_eq!(uptime(26 * 3_600_000 + 45 * 60_000), "26h45");
    assert_eq!(mark(State::Starting), "◐");
}

/// The documented example: "● api · :3000 · 12m".
#[test]
fn a_running_server_reads_mark_name_port_uptime() {
    let mut v = view("api", "", State::Running);
    v.status.port = Some(3000);
    v.status.started_at = Some(1_000);
    assert_eq!(label_at(&v, 721_000), "● api · :3000 · 12m");
}

#[test]
fn a_line_says_what_matters_for_its_state() {
    let mut v = view("api", "", State::Running);
    v.status.port = Some(3000);
    v.status.started_at = Some(1_000);
    v.status.origin = Some(Origin::agent("", "x"));
    assert_eq!(label_at(&v, 721_000), "● api · :3000 · 12m · ⌁ agent");
    let mut c = view("api", "", State::Crashed);
    c.status.exit_code = Some(2);
    assert_eq!(label_at(&c, 0), "✕ api · exit 2");
    let c2 = view("api", "", State::Crashed);
    assert_eq!(label_at(&c2, 0), "✕ api · crashed");
    assert_eq!(label_at(&view("api", "", State::Stopped), 0), "○ api");
}

#[test]
fn the_menu_groups_projects_into_submenus() {
    let views = vec![
        view("docs", "", State::Stopped),
        view("api", "acme", State::Running),
        view("web", "acme", State::Stopped),
    ];
    let menu = build_menu(&views, 0);
    // docs, acme, separator, stop-all, open, separator, quit
    assert_eq!(menu.len(), 7);
    match &menu[0] {
        Entry::Item(i) => assert_eq!(i.id, "toggle:docs"),
        _ => panic!("a top-level server"),
    }
    match &menu[1] {
        Entry::Submenu(s) => {
            assert_eq!(s.id, "group:acme");
            assert_eq!(s.heading, "acme   1/2 on");
            assert_eq!(s.items.len(), 2);
            assert!(s.start_all.enabled);
            assert!(s.stop_all.enabled);
            assert_eq!(s.start_all.text, "Start all of acme");
        }
        _ => panic!("a project"),
    }
    assert!(matches!(menu[2], Entry::Separator));
    match &menu[3] {
        Entry::Item(i) => assert_eq!(i.text, "Stop everything"),
        _ => panic!(),
    }
    match &menu[6] {
        Entry::Item(i) => assert_eq!(i.accelerator, Some("Cmd+Q".to_string())),
        _ => panic!(),
    }
}

#[test]
fn an_empty_menu_says_so() {
    let menu = build_menu(&[], 0);
    assert_eq!(menu.len(), 5);
    match &menu[0] {
        Entry::Item(i) => {
            assert_eq!(i.text, "Nothing in the kitchen yet");
            assert!(!i.enabled);
        }
        _ => panic!(),
    }
}

#[test]
fn clicks_are_read_from_item_ids() {
    assert!(matches!(menu_action("quit"), MenuAction::Quit));
    assert!(matches!(menu_action("open"), MenuAction::Open));
    assert!(matches!(menu_action("stop-all"), MenuAction::StopAll));
    match menu_action("toggle:api") {
        MenuAction::Toggle(id) => assert_eq!(id, "api"),
        _ => panic!(),
    }
    match menu_action("group-stop:acme") {
        MenuAction::GroupStop(g) => assert_eq!(g, "acme"),
        _ => panic!(),
    }
    match menu_action("group-start:acme") {
        MenuAction::GroupStart(g) => assert_eq!(g, "acme"),
        _ => panic!(),
    }
    assert!(matches!(menu_action("noop"), MenuAction::Nothing));
}

#[test]
fn clicks_pick_their_servers() {
    let views = vec![
        view("a", "acme", State::Running),
        view("b", "acme", State::Stopped),
        view("c", "", State::Starting),
    ];
    assert_eq!(stop_all_ids(&views), vec!["a".to_string(), "c".to_string()]);
    assert_eq!(group_ids(&views, "acme", false), vec!["b".to_string()]);
    assert_eq!(group_ids(&views, "acme", true), vec!["a".to_string()]);
    let statuses: Vec<Status> = views.iter().map(|v| v.status.clone()).collect();
    assert!(toggle_stops(&statuses, "a"));
    assert!(!toggle_stops(&statuses, "b"));
    assert!(!toggle_stops(&statuses, "zzz"));
    assert_eq!(tray_title(&views), "2");
    assert!(tray_active(&views));
    let idle = vec![view("b", "", State::Crashed)];
    assert_eq!(tray_title(&idle), "");
    assert!(!tray_active(&idle));
}

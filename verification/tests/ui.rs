use cucina::model::{Origin, Server, State, Status};
use cucina::proto::ServerView;
use cucina::ui::{duration, mark, table_at, word, Paint};

fn view(name: &str, state: State) -> ServerView {
    let mut status = Status::stopped(name);
    status.state = state;
    ServerView {
        server: Server {
            id: name.into(),
            name: name.into(),
            dir: "/Users/me/code/api".into(),
            command: "npm run dev".into(),
            group: String::new(),
            tile: 0,
            env: Vec::new(),
            auto_restart: false,
            auto_start: false,
            created_at: 0,
        },
        status,
    }
}

#[test]
fn paint_wraps_only_when_on() {
    let on = Paint::detect(false, true);
    let off = Paint::detect(false, false);
    let no_color = Paint::detect(true, true);
    assert_eq!(on.green("x"), "\x1b[32mx\x1b[0m");
    assert_eq!(on.terracotta("x"), "\x1b[38;5;208mx\x1b[0m");
    assert_eq!(on.dim("x"), "\x1b[2mx\x1b[0m");
    assert_eq!(on.bold("x"), "\x1b[1mx\x1b[0m");
    assert_eq!(on.red("x"), "\x1b[31mx\x1b[0m");
    assert_eq!(off.green("x"), "x");
    assert_eq!(no_color.green("x"), "x");
}

#[test]
fn durations_coarsen_to_the_unit_that_matters() {
    assert_eq!(duration(42_000), "42s");
    assert_eq!(duration(999), "0s");
    assert_eq!(duration(7 * 60_000), "7m");
    assert_eq!(duration(3 * 3_600_000 + 12 * 60_000), "3h 12m");
    assert_eq!(duration(2 * 86_400_000 + 5), "2d");
}

#[test]
fn states_read_as_marks_and_words() {
    let off = Paint::detect(true, false);
    assert_eq!(mark(State::Running, &off), "●");
    assert_eq!(mark(State::Crashed, &off), "✕");
    assert_eq!(word(State::Starting), "starting");
    assert_eq!(word(State::Stopped), "stopped");
}

#[test]
fn an_empty_kitchen_says_how_to_add_one() {
    let off = Paint::detect(true, false);
    assert_eq!(
        table_at(&[], &off, 0, "/Users/me"),
        "Nothing in the kitchen yet.\n  cucina add --name api --dir . --command \"npm run dev\"\n"
    );
}

#[test]
fn the_table_pads_columns_and_shows_what_matters() {
    let off = Paint::detect(true, false);
    let mut a = view("api", State::Running);
    a.status.port = Some(5173);
    a.status.started_at = Some(0);
    a.status.origin = Some(Origin::agent("codex", "fix login"));
    let mut b = view("worker", State::Crashed);
    b.status.exit_code = Some(1);
    let out = table_at(&[a, b], &off, 125_000, "/Users/me");
    let lines: Vec<&str> = out.lines().collect();
    assert_eq!(lines.len(), 2);
    assert_eq!(lines[0], "  ●  api     running    :5173      2m  ~/code/api  ⌁ codex · fix login");
    assert_eq!(lines[1], "  ✕  worker  crashed                   exit 1");
}

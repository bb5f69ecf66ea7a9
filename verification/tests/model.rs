use cucina::model::{slugify, Origin, State, Task, COMMAND_MAX, SESSION_MAX};

#[test]
fn slugs_are_stable_and_cli_friendly() {
    assert_eq!(slugify("My API"), "my-api");
    assert_eq!(slugify("Acme Data Service"), "acme-data-service");
    assert_eq!(slugify("api"), "api");
}

#[test]
fn slugs_collapse_punctuation_and_trim_dashes() {
    assert_eq!(slugify("  API (v2)!  "), "api-v2");
    assert_eq!(slugify("a---b"), "a-b");
    assert_eq!(slugify("web_app"), "web-app");
}

/// A name with nothing usable in it still has to produce an id.
#[test]
fn slugs_never_come_back_empty() {
    assert_eq!(slugify(""), "server");
    assert_eq!(slugify("!!!"), "server");
    assert_eq!(slugify("日本語"), "server");
}

#[test]
fn a_session_name_is_trimmed_and_clamped() {
    let session = |s: &str| match Origin::agent("cli-agent", s) {
        Origin::Agent { session, .. } => session,
        Origin::User => unreachable!(),
    };

    assert_eq!(
        session("  Chemical patents analysis tool  "),
        "Chemical patents analysis tool"
    );
    assert_eq!(session(""), "");

    let long = session(&"a".repeat(SESSION_MAX + 10));
    assert_eq!(long.chars().count(), SESSION_MAX + 1);
    assert!(long.ends_with('…'));

    let jp = session(&"日本語".repeat(40));
    assert_eq!(jp.chars().count(), SESSION_MAX + 1);
}

#[test]
fn task_ids_read_like_the_command_they_came_from() {
    assert_eq!(Task::slug("bin/rails db:migrate"), "bin-rails-db-migrate");
    assert_eq!(Task::slug("npm run dev"), "npm-run-dev");
}

#[test]
fn colliding_task_ids_are_settled_against_the_list() {
    let first = Task::new("rake db:migrate");
    let second = Task::new("rake db_migrate").with_unique_id(std::slice::from_ref(&first));

    assert_eq!(first.id, "rake-db-migrate");
    assert_eq!(second.id, "rake-db-migrate-2");

    let third = Task::new("rake db.migrate").with_unique_id(&[first, second]);
    assert_eq!(third.id, "rake-db-migrate-3");
}

#[test]
fn task_ids_are_never_empty_or_unbounded() {
    assert_eq!(Task::slug(""), "task");
    assert_eq!(Task::slug("!!!"), "task");
    assert_eq!(Task::slug("日本語"), "task");
    assert!(Task::slug(&"a".repeat(500)).chars().count() <= 64);
}

#[test]
fn a_new_task_is_trimmed_clamped_and_unrun() {
    let task = Task::new("  bin/rails db:seed  ");
    assert_eq!(task.command, "bin/rails db:seed");
    assert_eq!(task.id, "bin-rails-db-seed");
    assert!(task.last_run_at.is_none());
    assert!(task.last_exit.is_none());

    let long = Task::new(&"x".repeat(COMMAND_MAX + 100));
    assert_eq!(long.command.chars().count(), COMMAND_MAX);
}

#[test]
fn only_starting_and_running_count_as_live() {
    assert!(State::Running.is_live());
    assert!(State::Starting.is_live());
    assert!(!State::Stopped.is_live());
    assert!(!State::Crashed.is_live());
}

#[test]
fn a_slug_is_lowercase_letters_digits_and_single_dashes() {
    let s = slugify("--Hello,  World!! 2024--");
    assert_eq!(s, "hello-world-2024");
    assert!(!s.contains("--"));
}

#[test]
fn origins_are_labelled_for_people() {
    assert_eq!(Origin::User.label(), "you");
    assert_eq!(Origin::agent("", "x").label(), "an agent");
    assert_eq!(Origin::agent("codex", "x").label(), "codex");
    assert!(matches!(Origin::user(), Origin::User));
}

#[test]
fn a_session_cut_at_a_space_loses_the_space() {
    // 47 letters, a space, then more: the cut falls right after the space.
    let input = format!("{} {}", "b".repeat(47), "c".repeat(20));
    let s = match Origin::agent("a", &input) {
        Origin::Agent { session, .. } => session,
        Origin::User => unreachable!(),
    };
    assert_eq!(s, format!("{}…", "b".repeat(47)));
}

#[test]
fn a_free_id_is_kept_and_the_settled_suffix_counts_past_nine() {
    let mut existing = vec![Task::new("go")];
    for n in 2..=10 {
        let mut t = Task::new("go");
        t.id = format!("go-{n}");
        existing.push(t);
    }
    assert_eq!(Task::new("other").with_unique_id(&existing).id, "other");
    assert_eq!(Task::new("go").with_unique_id(&existing).id, "go-11");
}

#[test]
fn a_stopped_status_carries_nothing_but_its_id() {
    let s = cucina::model::Status::stopped("api");
    assert_eq!(s.id, "api");
    assert_eq!(s.state, State::Stopped);
    assert!(s.pid.is_none() && s.port.is_none() && s.exit_code.is_none());
    assert_eq!(s.restarts, 0);
}

#[test]
fn a_slug_is_its_own_slug() {
    for name in ["My API", "  API (v2)!  ", "!!!", "web_app", "a---b"] {
        let once = slugify(name);
        assert_eq!(slugify(&once), once);
    }
}

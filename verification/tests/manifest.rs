use cucina::manifest::{found, make_targets, rake_tasks, suggest, toml_table_keys, ProjectFiles, MAX};

fn nothing() -> ProjectFiles {
    ProjectFiles {
        package_json: None,
        pnpm_lock: false,
        yarn_lock: false,
        gemfile: None,
        bin_rails: false,
        rakefile: None,
        manage_py: false,
        alembic_ini: false,
        pyproject: None,
        makefile: None,
        cargo_toml: false,
        go_mod: false,
        composer_json: None,
    }
}

#[test]
fn reads_makefile_targets_and_skips_what_is_not_one() {
    let targets = make_targets(
        "\
.PHONY: start test\n\
CFLAGS := -O2\n\
start:\n\
\tgo run .\n\
test: start\n\
\tgo test ./...\n\
%.o: %.c\n\
\tcc -c $<\n",
    );
    assert_eq!(targets, vec!["start", "test"]);
}

#[test]
fn reads_one_toml_table_without_bleeding_into_the_next() {
    let text = "\
[project]\n\
name = \"app\"\n\
\n\
[project.scripts]\n\
serve = \"app:main\"\n\
worker = \"app:worker\"\n\
\n\
[tool.ruff]\n\
line-length = 100\n";
    assert_eq!(
        toml_table_keys(text, "project.scripts"),
        vec!["serve", "worker"]
    );
    assert!(toml_table_keys(text, "tool.poetry.scripts").is_empty());
}

#[test]
fn rake_tasks_are_parsed_rather_than_run() {
    let tasks = rake_tasks(
        "desc 'seed'\ntask :seed do\nend\ntask 'db:reset' => :environment do\nend\n",
    );
    assert_eq!(tasks, vec!["seed", "db:reset"]);
}

#[test]
fn reads_npm_scripts_and_picks_the_prefix_from_the_lockfile() {
    let mut p = nothing();
    p.package_json = Some(r#"{"scripts":{"dev":"vite","seed":"node seed.js"}}"#.into());
    assert_eq!(found(&p).commands, vec!["npm run dev", "npm run seed"], "no lockfile means npm");
    p.pnpm_lock = true;
    assert_eq!(found(&p).commands[0], "pnpm dev");
}

#[test]
fn npm_scripts_keep_the_order_the_file_lists_them() {
    let mut p = nothing();
    p.package_json = Some(r#"{"scripts":{"zeta":"a","alpha":"b"}}"#.into());
    p.yarn_lock = true;
    assert_eq!(found(&p).commands, vec!["yarn zeta", "yarn alpha"]);
}

#[test]
fn rails_commands_come_from_the_gemfile() {
    let mut p = nothing();
    p.gemfile = Some("gem 'rails'\ngem 'rspec-rails'".into());
    p.bin_rails = true;
    let s = found(&p);
    assert_eq!(s.source, "Gemfile");
    assert!(s.commands.contains(&"bin/rails db:migrate".to_string()));
    assert!(s.commands.contains(&"bundle exec rspec".to_string()));
}

#[test]
fn without_rails_a_gemfile_offers_its_rake_tasks() {
    let mut p = nothing();
    p.gemfile = Some("gem 'rake'".into());
    p.rakefile = Some("task :build do\nend\n".into());
    let s = found(&p);
    assert_eq!(s.source, "Gemfile");
    assert_eq!(s.commands, vec!["bundle exec rake build"]);
}

#[test]
fn drops_the_start_command_and_anything_already_kept() {
    let mut p = nothing();
    p.package_json = Some(r#"{"scripts":{"dev":"vite","seed":"x","lint":"y"}}"#.into());
    let kept = vec!["npm run lint".to_string()];
    let s = suggest(&p, "npm run dev", &kept);
    assert_eq!(s.commands, vec!["npm run seed"]);
}

#[test]
fn never_offers_more_than_a_short_list() {
    let mut p = nothing();
    let scripts: Vec<String> = (0..20).map(|i| format!("\"s{i}\":\"x\"")).collect();
    p.package_json = Some(format!("{{\"scripts\":{{{}}}}}", scripts.join(",")));
    assert_eq!(suggest(&p, "", &[]).commands.len(), MAX);
}

#[test]
fn an_unrecognised_project_offers_nothing() {
    let s = suggest(&nothing(), "", &[]);
    assert!(s.commands.is_empty());
    assert!(s.source.is_empty());
}

#[test]
fn the_first_manifest_that_yields_anything_wins() {
    let mut p = nothing();
    p.package_json = Some("not json".into());
    p.manage_py = true;
    p.cargo_toml = true;
    let s = found(&p);
    assert_eq!(s.source, "manage.py");
    assert_eq!(s.commands.len(), 3);

    let mut p = nothing();
    p.pyproject = Some("[tool.poetry.scripts]\nrun = \"x\"\n".into());
    assert_eq!(found(&p).commands, vec!["run"]);

    let mut p = nothing();
    p.makefile = Some("build:\n".into());
    p.go_mod = true;
    assert_eq!(found(&p).commands, vec!["make build"]);

    let mut p = nothing();
    p.go_mod = true;
    assert_eq!(found(&p).commands, vec!["go test ./..."]);

    let mut p = nothing();
    p.composer_json = Some(r#"{"scripts":{"test":"phpunit"}}"#.into());
    assert_eq!(found(&p).commands, vec!["composer run test"]);
}

#[test]
fn a_start_command_is_matched_after_trimming() {
    let mut p = nothing();
    p.cargo_toml = true;
    let s = suggest(&p, "  cargo test ", &[]);
    assert_eq!(s.source, "Cargo.toml");
    assert_eq!(s.commands, vec!["cargo check"]);
}

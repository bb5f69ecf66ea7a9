use cucina::strays::{
    ages_fit_in, did_not_stop, etime_fits, stop_target, Target,
    assemble_strays, is_dev_process, keep_listeners, owner_label, parse_dirs, parse_etime,
    parse_listeners, parse_procs, rest_after, stray_pids, trimmed_stderr, Proc, Stray,
};

#[test]
fn keeps_dev_processes_and_drops_the_machine_furniture() {
    assert!(is_dev_process("/opt/homebrew/bin/node"));
    assert!(is_dev_process("/Users/me/.rbenv/shims/ruby"));
    assert!(is_dev_process("python3"));
    assert!(is_dev_process(
        "/Users/me/Library/Application Support/Zed/node/node-v24/bin/node"
    ));

    assert!(!is_dev_process("/usr/libexec/rapportd"));
    assert!(!is_dev_process(
        "/System/Library/CoreServices/ControlCenter.app/Contents/MacOS/ControlCenter"
    ));
    assert!(!is_dev_process(
        "/Applications/Docker.app/Contents/MacOS/com.docker.backend"
    ));
    assert!(!is_dev_process(
        "/Users/me/Library/Application Support/Figma/FigmaAgent.app/Contents/MacOS/figma_agent"
    ));
}

#[test]
fn reads_the_clock_ps_prints() {
    assert_eq!(parse_etime("05:31"), 331);
    assert_eq!(parse_etime("02:40:20"), 9620);
    assert_eq!(parse_etime("28-04:15:42"), 28 * 86_400 + 15_342);
    assert_eq!(parse_etime("nonsense"), 0);
}

#[test]
fn takes_the_command_as_the_rest_of_the_ps_line() {
    let line = "  455 47991 34770 ??          02:40:20 /usr/bin/node --inspect 455 server.js";
    assert_eq!(
        rest_after(line, 5),
        "/usr/bin/node --inspect 455 server.js",
        "the pid appearing again inside the command must not truncate it"
    );
    assert_eq!(rest_after("1 2 3", 5), "");
}

#[test]
fn names_the_terminal_behind_a_process() {
    let shell = Proc {
        ppid: 1,
        pgid: 900,
        tty: "s004".into(),
        age: 10,
        exe: "-zsh".into(),
        command: "-zsh".into(),
    };
    assert_eq!(owner_label(Some(&shell), "s004"), Some("ZSH S004".into()));
    assert_eq!(owner_label(Some(&shell), "??"), None);
    assert_eq!(owner_label(None, "s001"), Some("SHELL S001".into()));
}

#[test]
fn pairs_every_socket_with_the_process_holding_it() {
    let out = "p455\nn*:5173\nn127.0.0.1:5173\np456\nn*:3000\nn*:80\n";
    assert_eq!(
        parse_listeners(out),
        vec![(455, 5173), (456, 3000)],
        "duplicates collapse and port 80 is out of range"
    );
}

#[test]
fn takes_the_first_directory_lsof_gives_for_a_process() {
    let out = "p455\nn/Users/me/code/web\np456\nn/\n";
    let dirs = parse_dirs(out);
    assert_eq!(
        dirs.get(&455).map(String::as_str),
        Some("/Users/me/code/web")
    );
    assert_eq!(
        dirs.get(&456),
        None,
        "root is not a directory worth adopting"
    );
}

#[test]
fn an_orphan_is_one_with_nothing_behind_it() {
    let loose = Stray {
        port: 5173,
        pid: 1,
        command: "node vite".into(),
        dir: None,
        age: 60,
        owner: None,
    };
    assert!(loose.is_orphan());
    assert!(!Stray {
        owner: Some("ZSH S004".into()),
        ..loose
    }
    .is_orphan());
}

const PS: &str = "\
  900     1   900 s004     1-00:00:00 -zsh
  455   900   455 s004       02:40:20 /usr/bin/node --inspect 455 server.js
  456     1   456 ??            10:00 node vite --port 3000
  457     1   700 ??            00:05 /usr/libexec/rapportd
  458     1   458 ??            00:01 node ours.js
";

const COMM: &str = "\
  900 -zsh
  455 /usr/bin/node
  456 /opt/homebrew/bin/node
  457 /usr/libexec/rapportd
  458 /opt/homebrew/bin/node
";

#[test]
fn reads_the_process_table_and_its_executables() {
    let procs = parse_procs(PS, COMM);
    assert_eq!(procs.len(), 5);
    let node = &procs[&455];
    assert_eq!(node.ppid, 900);
    assert_eq!(node.pgid, 455);
    assert_eq!(node.tty, "s004");
    assert_eq!(node.age, 9620);
    assert_eq!(node.exe, "/usr/bin/node");
    assert_eq!(node.command, "/usr/bin/node --inspect 455 server.js");
    assert_eq!(procs[&900].age, 86_400);
}

#[test]
fn a_scan_keeps_loose_dev_servers_orphans_first() {
    let procs = parse_procs(PS, COMM);
    let listeners = parse_listeners("p455\nn*:5173\np456\nn*:3000\np457\nn*:5000\np458\nn*:4000\n");
    let keep = keep_listeners(&listeners, &procs, &[458]);
    assert_eq!(keep, vec![(455, 5173), (456, 3000)]);
    assert_eq!(stray_pids(&keep), vec![455, 456]);
    let dirs = parse_dirs("p455\nn/Users/me/web\n");
    let strays = assemble_strays(&keep, &procs, &dirs);
    assert_eq!(strays.len(), 2);
    assert_eq!(strays[0].pid, 456, "the orphan comes first");
    assert_eq!(strays[0].owner, None);
    assert_eq!(strays[1].owner.as_deref(), Some("ZSH S004"));
    assert_eq!(strays[1].dir.as_deref(), Some("/Users/me/web"));
    assert_eq!(strays[1].command, "/usr/bin/node --inspect 455 server.js");
}

#[test]
fn among_orphans_the_oldest_leads_and_then_the_lowest_port() {
    let procs = parse_procs(
        "  1 0 1 ?? 00:10 a\n  2 0 2 ?? 05:00 b\n",
        "  1 /bin/a\n  2 /bin/b\n",
    );
    let keep = vec![(1, 4000), (2, 5000), (1, 3000)];
    let strays = assemble_strays(&keep, &procs, &Default::default());
    let order: Vec<(u32, u16)> = strays.iter().map(|s| (s.pid, s.port)).collect();
    assert_eq!(order, vec![(2, 5000), (1, 3000), (1, 4000)]);
    assert_eq!(stray_pids(&keep), vec![1, 2]);
}

#[test]
fn says_why_a_probe_failed() {
    assert_eq!(trimmed_stderr("ps", b"", Some(1)), "ps: exited 1");
    assert_eq!(
        trimmed_stderr("lsof", b"\n  \nlsof: bad option\nmore", Some(2)),
        "lsof: exited 2 — lsof: bad option"
    );
    assert_eq!(trimmed_stderr("ps", b"killed", None), "ps: killed");
}

#[test]
fn stopping_goes_to_the_group_only_when_the_stray_leads_it() {
    let procs = parse_procs(PS, COMM);
    assert_eq!(stop_target(&procs, 456), Ok(Target::Group(456)));
    assert_eq!(stop_target(&procs, 457), Ok(Target::Process(457)));
    assert_eq!(stop_target(&procs, 1234), Err("Nothing is running as pid 1234 any more.".to_string()));
    assert_eq!(did_not_stop(456), "pid 456 did not stop.");
}

#[test]
fn elapsed_times_are_checked_before_they_are_counted() {
    assert!(etime_fits("28-04:15:42"));
    assert!(etime_fits("nonsense"));
    assert!(!etime_fits("213503982334602-00:00:00"));
    assert!(ages_fit_in(PS));
    assert!(!ages_fit_in("  1 1 1 ?? 213503982334602-00:00:00 x\n"));
}

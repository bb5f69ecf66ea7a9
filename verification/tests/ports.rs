use cucina::ports::{plausible, scan_line};

#[test]
fn reads_ports_out_of_dev_server_banners() {
    assert_eq!(scan_line("  ➜  Local:   http://localhost:5173/"), Some(5173));
    assert_eq!(scan_line("Listening on http://127.0.0.1:3000"), Some(3000));
    assert_eq!(scan_line("server started on :8080"), Some(8080));
}

#[test]
fn ignores_things_that_are_not_ports() {
    assert_eq!(scan_line("compiled in 1.2s"), None);
    assert_eq!(scan_line("12:34:56 ready"), None);
    assert_eq!(scan_line("error at file.ts:10:5"), None);
}

#[test]
fn takes_the_first_plausible_port_and_needs_a_clean_end() {
    assert_eq!(scan_line("at :80 then :4000 then :5000"), Some(4000));
    assert_eq!(scan_line("host:3000abc"), None);
    assert_eq!(scan_line("big :123456"), None);
    assert_eq!(scan_line(":59999"), Some(59999));
    assert_eq!(scan_line(":60000"), None);
}

#[test]
fn only_ports_between_1024_and_60000_are_plausible() {
    assert!(!plausible(1024));
    assert!(plausible(1025));
    assert!(plausible(59_999));
    assert!(!plausible(60_000));
}

#[test]
fn a_process_group_is_read_off_ps() {
    let ps = b"  455   455\n  456   455\n  457     1\n junk line\n  458 455\n";
    assert_eq!(cucina::ports::group_pids(ps, 455), vec![455, 456, 458]);
    assert_eq!(cucina::ports::group_pids(ps, 9), Vec::<u32>::new());
    assert_eq!(cucina::ports::pid_list(&[455, 456, 458]), "455,456,458");
    assert_eq!(cucina::ports::pid_list(&[]), "");
}

#[test]
fn the_lowest_listening_port_wins() {
    let lsof = b"p455\nn*:5173\nn127.0.0.1:3000\nn[::1]:80\np456\nn*:8080\n";
    assert_eq!(cucina::ports::lowest_listening_port(lsof), Some(3000));
    assert_eq!(cucina::ports::lowest_listening_port(b"p455\nn*:80\n"), None);
    assert_eq!(cucina::ports::lowest_listening_port(b""), None);
}

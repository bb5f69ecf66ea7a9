use cucina::paths::{contract_tilde, data_dir, expand_tilde, home, join, login_shell, servers_file, socket_path};

#[test]
fn joins_like_a_path() {
    assert_eq!(join("/Users/me", "code"), "/Users/me/code");
    assert_eq!(join("/Users/me/", "code"), "/Users/me/code");
    assert_eq!(join("", "code"), "code");
    assert_eq!(join("/Users/me", "/etc"), "/etc");
}

#[test]
fn files_live_under_application_support() {
    assert_eq!(data_dir("/Users/me"), "/Users/me/Library/Application Support/Cucina");
    assert_eq!(servers_file("/Users/me"), "/Users/me/Library/Application Support/Cucina/servers.json");
    assert_eq!(socket_path("/Users/me"), "/Users/me/Library/Application Support/Cucina/cucina.sock");
    assert_eq!(home(None), "/");
    assert_eq!(home(Some("/Users/me".into())), "/Users/me");
}

#[test]
fn a_leading_tilde_is_expanded_and_contracted() {
    assert_eq!(expand_tilde("~", "/Users/me"), "/Users/me");
    assert_eq!(expand_tilde("~/code/api", "/Users/me"), "/Users/me/code/api");
    assert_eq!(expand_tilde("/srv/api", "/Users/me"), "/srv/api");
    assert_eq!(expand_tilde("~bob/x", "/Users/me"), "~bob/x");
    assert_eq!(contract_tilde("/Users/me/code/api", "/Users/me"), "~/code/api");
    assert_eq!(contract_tilde("/Users/me", "/Users/me"), "~");
    assert_eq!(contract_tilde("/Users/meh/x", "/Users/me"), "/Users/meh/x");
    assert_eq!(contract_tilde("/srv/api", "/Users/me"), "/srv/api");
}

#[test]
fn only_posix_shells_run_the_wrapper() {
    assert_eq!(login_shell(Some("/bin/bash".into())), "/bin/bash");
    assert_eq!(login_shell(Some("/opt/homebrew/bin/fish".into())), "/bin/zsh");
    assert_eq!(login_shell(None), "/bin/zsh");
    assert_eq!(login_shell(Some("/usr/local/bin/dash".into())), "/usr/local/bin/dash");
}

#[test]
fn the_tilde_form_reads_back() {
    for p in ["/Users/me/code/api", "/Users/me", "/srv/api", "relative/dir"] {
        let shown = contract_tilde(p, "/Users/me");
        assert_eq!(expand_tilde(&shown, "/Users/me"), p);
    }
}

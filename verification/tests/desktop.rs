use cucina::desktop::{check_web_address, group_icon, install_message, mcp_command, on_path};

#[test]
fn an_icon_keeps_two_glyphs() {
    assert_eq!(group_icon("🍅🧄🧅"), "🍅🧄");
    assert_eq!(group_icon("a"), "a");
}

#[test]
fn only_web_addresses_reach_the_browser() {
    assert!(check_web_address("http://localhost:3000").is_ok());
    assert!(check_web_address("https://example.com").is_ok());
    assert_eq!(check_web_address("file:///etc/passwd"), Err("Not a web address.".to_string()));
}

#[test]
fn installing_says_where_and_what_next() {
    assert!(on_path("/usr/bin:/Users/me/.local/bin", "/Users/me/.local/bin"));
    assert!(on_path("/usr/bin:/Users/me/.local/bin/", "/Users/me/.local/bin"));
    assert!(!on_path("/usr/bin", "/Users/me/.local/bin"));
    assert_eq!(
        install_message(true, "/Users/me/.local/bin/cucina"),
        "Installed. Try `cucina` in a new terminal.\n/Users/me/.local/bin/cucina"
    );
    assert!(install_message(false, "/x").starts_with("Installed to /x.\nAdd it to your PATH:"));
    assert_eq!(mcp_command(None, None), "cucina");
    assert_eq!(mcp_command(None, Some("/b".into())), "/b");
    assert_eq!(mcp_command(Some("/a".into()), Some("/b".into())), "/a");
}

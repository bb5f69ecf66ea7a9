use cucina::mcp::{
    arg_id, arg_session, arg_str, arg_tail, client_from, join_strings, method_of, missing, one_server, resolve,
    start_failed, tool_arguments, tool_name, tool_of, unknown_method, wait_ms, Method, Missing, Session, Tool,
    LATEST_PROTOCOL, WAIT_MS,
};
use cucina::model::{Server, Status};
use cucina::proto::ServerView;

fn view(id: &str, group: &str) -> ServerView {
    ServerView {
        server: Server {
            id: id.into(),
            name: id.into(),
            dir: "/tmp".into(),
            command: "true".into(),
            group: group.into(),
            tile: 0,
            env: Vec::new(),
            auto_restart: false,
            auto_start: false,
            created_at: 0,
        },
        status: Status::stopped(id),
    }
}

/// The whole attribution rests on this one handshake field.
#[test]
fn a_client_is_read_from_the_handshake() {
    assert_eq!(
        client_from(r#"{ "clientInfo": { "name": "cli-agent", "version": "2.0.1" } }"#),
        Some("cli-agent".to_string())
    );
    assert_eq!(client_from(r#"{ "clientInfo": { "name": " codex " } }"#), Some("codex".to_string()));
}

/// A client that sends no clientInfo, or a blank name, leaves the anonymous
/// label in place.
#[test]
fn a_nameless_client_is_left_anonymous() {
    assert_eq!(client_from("{}"), None);
    assert_eq!(client_from(r#"{ "clientInfo": {} }"#), None);
    assert_eq!(client_from(r#"{ "clientInfo": { "name": "  " } }"#), None);
    assert_eq!(client_from(r#"{ "clientInfo": { "name": 7 } }"#), None);
}

/// One process serves one client for its whole life.
#[test]
fn the_first_handshake_wins() {
    let mut session = Session::new();
    session.initialize(r#"{ "clientInfo": { "name": "cli-agent" } }"#);
    session.initialize(r#"{ "clientInfo": { "name": "cursor-vscode" } }"#);
    assert_eq!(session.client().as_deref(), Some("cli-agent"));
}

#[test]
fn the_protocol_version_is_echoed() {
    let mut session = Session::new();
    assert_eq!(session.initialize(r#"{"protocolVersion":"2024-11-05"}"#), "2024-11-05");
    assert_eq!(session.initialize("{}"), LATEST_PROTOCOL);
    assert_eq!(session.client(), None);
    assert_eq!(session.client_name(None), "an agent");
    assert_eq!(session.client_name(Some("wrapper".into())), "wrapper");
}

#[test]
fn methods_and_tools_are_named() {
    assert_eq!(method_of("initialize"), Method::Initialize);
    assert_eq!(method_of("tools/call"), Method::ToolsCall);
    assert_eq!(method_of("nope"), Method::Unknown);
    assert_eq!(unknown_method("nope"), (-32601, "Unknown method: nope".to_string()));
    assert_eq!(tool_name(r#"{"name":"cucina_list"}"#), Ok("cucina_list".to_string()));
    assert_eq!(tool_name("{}"), Err((-32602, "Missing tool name.".to_string())));
    assert_eq!(tool_arguments("{}"), "{}");
    assert_eq!(tool_arguments(r#"{"arguments":{"id":"api"}}"#), r#"{"id":"api"}"#);
    assert_eq!(tool_of("cucina_run_command"), Tool::RunCommand);
    assert_eq!(tool_of("cucina_run"), Tool::Run);
    assert_eq!(tool_of("cucina_cook"), Tool::Unknown);
}

#[test]
fn tool_arguments_are_read() {
    let args = r#"{"id":"api","session":"fix login","taskId":"  seed ","wait":false,"tail":20}"#;
    assert_eq!(arg_id(args), Ok("api".to_string()));
    assert_eq!(arg_id("{}"), Err("An id is required. Call cucina_list to see them.".to_string()));
    assert_eq!(arg_session(args), "fix login");
    assert_eq!(arg_session("{}"), "");
    assert_eq!(arg_str(args, "taskId"), Some("seed".to_string()));
    assert_eq!(arg_str(r#"{"taskId":"  "}"#, "taskId"), None);
    assert_eq!(wait_ms(args), None);
    assert_eq!(wait_ms("{}"), Some(WAIT_MS));
    assert_eq!(arg_tail(args), 20);
    assert_eq!(arg_tail(r#"{"tail":"x"}"#), 200);
}

#[test]
fn an_agent_names_servers_or_projects() {
    let views = vec![view("api", "acme"), view("web", "acme")];
    assert_eq!(resolve(&views, "acme"), Ok(vec!["api".to_string(), "web".to_string()]));
    assert_eq!(resolve(&views, "Nope"), Err("No server or group called Nope. Known ids: api, web".to_string()));
    assert_eq!(one_server("api", vec!["api".to_string()]), Ok("api".to_string()));
    assert_eq!(
        one_server("acme", vec!["api".to_string(), "web".to_string()]),
        Err("acme is a project of 2 servers. A task runs in one directory, so name the server: api, web".to_string())
    );
    assert_eq!(join_strings(&vec![], ", "), "");
}

#[test]
fn replies_say_what_happened() {
    assert_eq!(start_failed("api", "boom \"x\""), r#"{"id": "api", "error": "boom \"x\""}"#);
    assert_eq!(missing(Missing::RunId), "A runId is required.");
}

#[test]
fn every_listed_tool_name_reaches_its_tool() {
    let all = [
        Tool::List, Tool::Start, Tool::Restart, Tool::Stop, Tool::Worktrees, Tool::Switch, Tool::Logs,
        Tool::Tasks, Tool::RunTask, Tool::RunCommand, Tool::Run, Tool::StopRun, Tool::DeleteTask,
        Tool::SuggestTasks,
    ];
    for t in all {
        assert_eq!(tool_of(t.name()), t);
    }
    assert_eq!(Tool::Run.name(), "cucina_run");
}

use cucina::model::{Group, Server, Task};
use cucina::store::{document, prune_groups, prune_tasks, Document};

fn server(id: &str, group: &str) -> Server {
    Server {
        id: id.into(),
        name: id.into(),
        dir: "/tmp".into(),
        command: "true".into(),
        group: group.into(),
        tile: 0,
        env: Vec::new(),
        auto_restart: false,
        auto_start: false,
        created_at: 0,
    }
}

#[test]
fn forgets_tasks_whose_server_is_gone() {
    let servers = vec![server("api", "")];
    // Kept in ascending key order, as the document keeps them.
    let tasks = vec![
        ("api".to_string(), vec![Task::new("npm run seed")]),
        // A server that has no tasks left should not leave an empty list in a
        // file the user is invited to hand-edit.
        ("api-2".to_string(), Vec::new()),
        ("deleted".to_string(), vec![Task::new("npm run seed")]),
    ];

    let kept = prune_tasks(&servers, &tasks);
    assert_eq!(kept.len(), 1);
    assert!(kept.iter().any(|(id, _)| id == "api"));
}

#[test]
fn forgets_groups_that_have_no_members_left() {
    let servers = vec![server("api", "acme"), server("docs", "")];
    let groups = vec![
        Group { name: "acme".into(), icon: String::new() },
        Group { name: "gone".into(), icon: String::new() },
    ];
    let kept = prune_groups(&servers, &groups);
    assert_eq!(kept.len(), 1);
    assert_eq!(kept[0].name, "acme");
}

#[test]
fn the_written_document_keeps_servers_and_drops_the_orphans() {
    let servers = vec![server("api", "acme")];
    let groups = vec![
        Group { name: "acme".into(), icon: "🍅".into() },
        Group { name: "old".into(), icon: String::new() },
    ];
    let tasks = vec![("gone".to_string(), vec![Task::new("make")])];
    let doc = document(&servers, &groups, &tasks);
    assert_eq!(doc.servers.len(), 1);
    assert_eq!(doc.servers[0].id, "api");
    assert_eq!(doc.groups.len(), 1);
    assert_eq!(doc.groups[0].icon, "🍅");
    assert!(doc.tasks.is_empty());
    let empty = Document::default();
    assert!(empty.servers.is_empty() && empty.groups.is_empty() && empty.tasks.is_empty());
}

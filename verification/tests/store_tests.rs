use agent_hub::session::{RecentlyClosedRow, SessionRow};
use agent_hub::store::{Store, StoreError};

fn row(id: &str, sort: i32, created: &str) -> SessionRow {
    SessionRow {
        id: id.to_string(),
        name: format!("session {id}"),
        agent_type: "pty-agent".to_string(),
        command: "agent --dangerously-skip-permissions".to_string(),
        working_dir: "~/proj".to_string(),
        created_at: created.to_string(),
        foreign_session_id: None,
        sort_order: sort,
        folder_id: None,
        running_pid: None,
    }
}

fn rc(id: &str, closed: &str) -> RecentlyClosedRow {
    RecentlyClosedRow {
        id: id.to_string(),
        name: format!("closed {id}"),
        agent_type: "pty-agent".to_string(),
        command: "pty-agent".to_string(),
        working_dir: "~".to_string(),
        foreign_session_id: None,
        closed_at: closed.to_string(),
    }
}

#[test]
fn load_sessions_orders_by_sort_then_created_desc() {
    let mut store = Store::new();
    store.save_session(row("a", 2, "2024-01-01T00:00:00Z"));
    store.save_session(row("b", 1, "2024-01-02T00:00:00Z"));
    store.save_session(row("c", 1, "2024-01-03T00:00:00Z"));
    let listed = store.load_sessions();
    let ids: Vec<&str> = listed.iter().map(|r| r.id.as_str()).collect();
    // sort order 1 first; within it the newer creation time first.
    assert_eq!(ids, vec!["c", "b", "a"]);
}

#[test]
fn save_session_upserts_by_id() {
    let mut store = Store::new();
    assert!(store.save_session(row("a", 0, "t1")));
    let mut updated = row("a", 5, "t1");
    updated.name = "renamed".to_string();
    assert!(!store.save_session(updated));
    assert_eq!(store.sessions.len(), 1);
    assert_eq!(store.sessions[0].name, "renamed");
    assert_eq!(store.sessions[0].sort_order, 5);
}

#[test]
fn recently_closed_capped_at_ten() {
    let mut store = Store::new();
    for i in 0..12 {
        store.save_recently_closed(rc(&format!("s{i}"), &format!("2024-01-{:02}", i + 1)));
        assert!(store.recently_closed.len() <= 10);
    }
    assert_eq!(store.recently_closed.len(), 10);
    // The most recent close is first; the two oldest fell off.
    assert_eq!(store.recently_closed[0].id, "s11");
    assert!(store.recently_closed.iter().all(|r| r.id != "s0" && r.id != "s1"));
}

#[test]
fn recently_closed_replaces_same_id() {
    let mut store = Store::new();
    store.save_recently_closed(rc("dup", "2024-01-01"));
    store.save_recently_closed(rc("dup", "2024-01-05"));
    assert_eq!(store.recently_closed.len(), 1);
    assert_eq!(store.recently_closed[0].closed_at, "2024-01-05");
}

#[test]
fn buffer_round_trip() {
    let mut store = Store::new();
    store.save_session(row("s", 0, "t"));
    let content = "hello\r\nworld \x1b[1mbold\x1b[0m";
    store
        .save_terminal_buffer("s", content, "now".to_string())
        .unwrap();
    let loaded = store.load_terminal_buffer("s").unwrap();
    assert_eq!(loaded.as_deref(), Some(content));
}

#[test]
fn buffer_round_trip_all_byte_values() {
    // Every scalar value 0x00..=0xFF as characters of one string:
    // compression and encoding are transparent.
    let mut store = Store::new();
    store.save_session(row("s", 0, "t"));
    let content: String = (0u32..=0xFF).map(|c| char::from_u32(c).unwrap()).collect();
    store
        .save_terminal_buffer("s", &content, "now".to_string())
        .unwrap();
    let loaded = store.load_terminal_buffer("s").unwrap();
    assert_eq!(loaded, Some(content));
}

#[test]
fn buffer_save_load_save_same_stored_bytes() {
    let mut store = Store::new();
    store.save_session(row("s", 0, "t"));
    let content = "scrollback with repetition repetition repetition";
    store
        .save_terminal_buffer("s", content, "t1".to_string())
        .unwrap();
    let first = store.buffers.entries[0].1.data.clone();
    let loaded = store.load_terminal_buffer("s").unwrap().unwrap();
    store
        .save_terminal_buffer("s", &loaded, "t2".to_string())
        .unwrap();
    let second = store.buffers.entries[0].1.data.clone();
    assert_eq!(first, second);
}

#[test]
fn buffer_needs_existing_session() {
    let mut store = Store::new();
    let err = store
        .save_terminal_buffer("ghost", "data", "now".to_string())
        .unwrap_err();
    assert_eq!(err, StoreError::NotFound);
    assert_eq!(store.load_terminal_buffer("ghost"), Ok(None));
}

#[test]
fn delete_session_cascades_to_buffer() {
    let mut store = Store::new();
    store.save_session(row("s", 0, "t"));
    store
        .save_terminal_buffer("s", "content", "now".to_string())
        .unwrap();
    store.delete_session("s");
    assert!(store.sessions.is_empty());
    assert_eq!(store.load_terminal_buffer("s"), Ok(None));
}

#[test]
fn update_session_orders_idempotent() {
    let mut store = Store::new();
    store.save_session(row("a", 0, "t1"));
    store.save_session(row("b", 1, "t2"));
    store.save_session(row("c", 2, "t3"));
    let orders = vec![
        ("a".to_string(), 7),
        ("c".to_string(), -2),
        ("a".to_string(), 4),
    ];
    store.update_session_orders(&orders);
    let once = store.sessions.clone();
    store.update_session_orders(&orders);
    assert_eq!(store.sessions, once);
    // The last assignment for a session wins.
    assert_eq!(store.sessions.iter().find(|r| r.id == "a").unwrap().sort_order, 4);
    assert_eq!(store.sessions.iter().find(|r| r.id == "b").unwrap().sort_order, 1);
    assert_eq!(store.sessions.iter().find(|r| r.id == "c").unwrap().sort_order, -2);
}

#[test]
fn orphan_recovery_clears_every_pid() {
    let mut store = Store::new();
    let mut with_pid = row("a", 0, "t1");
    with_pid.running_pid = Some(4242);
    store.save_session(with_pid);
    store.save_session(row("b", 1, "t2"));
    let mut also = row("c", 2, "t3");
    also.running_pid = Some(77);
    store.save_session(also);

    let orphans = store.take_orphan_pids();
    assert_eq!(
        orphans,
        vec![("a".to_string(), 4242i64), ("c".to_string(), 77i64)]
    );
    assert!(store.sessions.iter().all(|r| r.running_pid.is_none()));
}

#[test]
fn save_session_pid_sets_and_clears() {
    let mut store = Store::new();
    store.save_session(row("a", 0, "t1"));
    store.save_session_pid("a", Some(900));
    assert_eq!(store.sessions[0].running_pid, Some(900));
    store.save_session_pid("a", None);
    assert_eq!(store.sessions[0].running_pid, None);
}

#[test]
fn folders_and_reparenting() {
    let mut store = Store::new();
    let mut in_folder = row("a", 0, "t1");
    in_folder.folder_id = Some("f1".to_string());
    store.save_session(in_folder);
    store.save_folder(agent_hub::session::FolderRow {
        id: "f1".to_string(),
        name: "work".to_string(),
        sort_order: 3,
        collapsed: false,
    });
    store.save_folder(agent_hub::session::FolderRow {
        id: "f2".to_string(),
        name: "play".to_string(),
        sort_order: 1,
        collapsed: false,
    });
    let listed = store.load_folders();
    assert_eq!(listed[0].id, "f2");
    assert_eq!(listed[1].id, "f1");

    store.toggle_folder_collapsed("f1", true);
    assert!(store.folders.iter().find(|f| f.id == "f1").unwrap().collapsed);

    store.delete_folder("f1");
    assert_eq!(store.sessions[0].folder_id, None);
    assert!(store.folders.iter().all(|f| f.id != "f1"));
}

#[test]
fn update_folder_orders_applies_last() {
    let mut store = Store::new();
    store.save_folder(agent_hub::session::FolderRow {
        id: "f1".to_string(),
        name: "one".to_string(),
        sort_order: 0,
        collapsed: false,
    });
    store.update_folder_orders(&vec![("f1".to_string(), 9), ("f1".to_string(), 2)]);
    assert_eq!(store.folders[0].sort_order, 2);
}

#[test]
fn update_session_foreign_id_records_foreign_id() {
    let mut store = Store::new();
    store.save_session(row("a", 0, "t"));
    store.update_session_foreign_id("a", "123e4567-e89b-12d3-a456-426614174000".to_string());
    assert_eq!(
        store.sessions[0].foreign_session_id.as_deref(),
        Some("123e4567-e89b-12d3-a456-426614174000")
    );
}

#[test]
fn delete_recently_closed_removes_entry() {
    let mut store = Store::new();
    store.save_recently_closed(rc("x", "2024-01-01"));
    store.save_recently_closed(rc("y", "2024-01-02"));
    store.delete_recently_closed("x");
    let remaining = store.get_recently_closed();
    assert_eq!(remaining.len(), 1);
    assert_eq!(remaining[0].id, "y");
}

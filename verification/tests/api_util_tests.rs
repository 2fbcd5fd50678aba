use agent_hub::api::{
    api_create_session, api_list_sessions, collect_local_ips, port_candidates, start_decision,
    IpInfo, StartDecision,
};
use agent_hub::bus::Channel;
use agent_hub::detect::{detect_foreign_session_id, is_uuid_like, project_folder_name,
    select_agent_sessions, FileEntry};
use agent_hub::mcp::{resolve_mcp_request, McpPending, McpResults};
use agent_hub::registry::Registry;
use agent_hub::session::{auto_session_name, command_for_agent_type};
use agent_hub::settings::{default_renderer, default_true, get_app_data_dir_name, pin_configured,
    AppSettings};
use agent_hub::store::Store;
use agent_hub::strutil::{expand_tilde, split_lines, str_le, str_replace, u64_to_dec};
use agent_hub::supervisor::{register_json_spawn, GlobalEvent};

#[test]
fn commands_follow_agent_kind() {
    assert_eq!(
        command_for_agent_type("pty-agent", None, "/bin/bash"),
        "agent --dangerously-skip-permissions"
    );
    assert_eq!(
        command_for_agent_type("json-agent", None, "/bin/bash"),
        "agent --print --verbose --input-format stream-json --output-format stream-json --dangerously-skip-permissions"
    );
    assert_eq!(command_for_agent_type("aider", None, "/bin/bash"), "aider");
    assert_eq!(command_for_agent_type("shell", None, "/bin/bash"), "/bin/bash");
    assert_eq!(
        command_for_agent_type("custom", Some("htop".to_string()), "/bin/bash"),
        "htop"
    );
    assert_eq!(command_for_agent_type("custom", None, "/bin/bash"), "/bin/zsh");
    assert_eq!(
        command_for_agent_type("weird", None, "/bin/bash"),
        "agent --dangerously-skip-permissions"
    );
}

#[test]
fn auto_names_count_up() {
    assert_eq!(auto_session_name("pty-agent", 0), "Agent 1");
    assert_eq!(auto_session_name("json-agent", 2), "Agent Chat 3");
    assert_eq!(auto_session_name("weird", 9), "Session 10");
}

#[test]
fn create_session_fills_row_and_sorts_on_top() {
    let mut store = Store::new();
    let mut status: Channel<GlobalEvent> = Channel::new(64);
    let first = api_create_session(
        &mut store,
        &mut status,
        None,
        "json-agent".to_string(),
        None,
        Some("~/proj".to_string()),
        None,
        "/bin/zsh",
        "2024-05-01T00:00:00Z".to_string(),
    );
    assert_eq!(first.name, "Agent Chat 1");
    assert_eq!(first.working_dir, "~/proj");
    assert_eq!(first.sort_order, -1);
    assert!(first.foreign_session_id.is_none());

    let second = api_create_session(
        &mut store,
        &mut status,
        Some("named".to_string()),
        "shell".to_string(),
        None,
        None,
        None,
        "/bin/zsh",
        "2024-05-02T00:00:00Z".to_string(),
    );
    assert_eq!(second.name, "named");
    assert_eq!(second.working_dir, "~/dev/pplsi");
    assert_eq!(second.command, "/bin/zsh");
    // New sessions go above every existing one.
    assert_eq!(second.sort_order, -2);
    let (rows, _) = api_list_sessions(&store, &Registry::new());
    assert_eq!(rows[0].id, second.id);
}

#[test]
fn start_twice_reports_already_running() {
    let mut store = Store::new();
    let mut status: Channel<GlobalEvent> = Channel::new(64);
    let mut reg = Registry::new();
    let row = api_create_session(
        &mut store,
        &mut status,
        None,
        "json-agent".to_string(),
        None,
        None,
        None,
        "/bin/zsh",
        "t".to_string(),
    );

    match start_decision(&reg, &store, row.id.as_str()) {
        StartDecision::StartJson { session, resume } => {
            assert_eq!(session.id, row.id);
            assert!(!resume);
        }
        _ => panic!("expected a structured start"),
    }
    register_json_spawn(&mut reg, &mut status, row.id.as_str(), 77);
    // A repeated start spawns nothing: the decision is final and the
    // registry is untouched.
    assert!(matches!(
        start_decision(&reg, &store, row.id.as_str()),
        StartDecision::AlreadyRunning
    ));
    assert!(matches!(
        start_decision(&reg, &store, "missing"),
        StartDecision::NotFound
    ));
}

#[test]
fn list_sessions_joins_live_status() {
    let mut store = Store::new();
    let mut status: Channel<GlobalEvent> = Channel::new(64);
    let mut reg = Registry::new();
    let a = api_create_session(
        &mut store, &mut status, Some("a".to_string()), "json-agent".to_string(),
        None, None, None, "/bin/zsh", "t1".to_string(),
    );
    let _b = api_create_session(
        &mut store, &mut status, Some("b".to_string()), "shell".to_string(),
        None, None, None, "/bin/zsh", "t2".to_string(),
    );
    register_json_spawn(&mut reg, &mut status, a.id.as_str(), 5);
    let (rows, flags) = api_list_sessions(&store, &reg);
    assert_eq!(rows.len(), 2);
    for (row, running) in rows.iter().zip(flags.iter()) {
        assert_eq!(*running, row.id == a.id);
    }
}

#[test]
fn local_ip_list_dedups_and_filters() {
    let ifaces = vec![
        IpInfo { text: "127.0.0.1".to_string(), loopback: true, v6_link_local: false },
        IpInfo { text: "192.168.1.4".to_string(), loopback: false, v6_link_local: false },
        IpInfo { text: "fe80::1".to_string(), loopback: false, v6_link_local: true },
        IpInfo { text: "192.168.1.4".to_string(), loopback: false, v6_link_local: false },
        IpInfo { text: "10.0.0.7".to_string(), loopback: false, v6_link_local: false },
    ];
    let ips = collect_local_ips(Some("192.168.1.4".to_string()), &ifaces);
    assert_eq!(
        ips,
        vec!["192.168.1.4".to_string(), "10.0.0.7".to_string()]
    );
}

#[test]
fn port_probe_range() {
    assert_eq!(port_candidates(3857, 10), (3857..3867).collect::<Vec<u16>>());
    assert_eq!(port_candidates(3847, 1), vec![3847]);
}

#[test]
fn project_folder_mapping() {
    assert_eq!(project_folder_name("/Users/foo/bar"), "-Users-foo-bar");
    assert_eq!(project_folder_name("relative/path"), "-relative-path");
}

#[test]
fn uuid_like_stems() {
    assert!(is_uuid_like("123e4567-e89b-12d3-a456-426614174000"));
    assert!(!is_uuid_like("123e4567e89b12d3a456426614174000"));
    assert!(!is_uuid_like("short-name"));
}

fn entry(stem: &str, mtime: u64) -> FileEntry {
    FileEntry {
        stem: stem.to_string(),
        is_dir: false,
        is_jsonl: true,
        mtime,
    }
}

#[test]
fn detector_picks_newest_record_after_spawn() {
    let uuid_a = "123e4567-e89b-12d3-a456-426614174000";
    let uuid_b = "223e4567-e89b-12d3-a456-426614174000";
    let entries = vec![
        entry(uuid_a, 50),   // too old: at or before the spawn time
        entry("notes", 200), // not a record identifier
        entry(uuid_b, 150),
        entry(uuid_a, 120),
    ];
    assert_eq!(detect_foreign_session_id(&entries, 100).as_deref(), Some(uuid_b));
    assert_eq!(detect_foreign_session_id(&entries, 150), None);

    let listed = select_agent_sessions(&entries, 0);
    assert_eq!(listed.len(), 3);
    assert!(listed.windows(2).all(|w| w[0].mtime >= w[1].mtime));
}

#[test]
fn mcp_pending_resolution() {
    let mut pending = McpPending::new();
    pending.register("req-1".to_string());
    assert_eq!(
        resolve_mcp_request(&mut pending, "req-1".to_string(), "42".to_string()),
        Some("42".to_string())
    );
    // A second result for the same request is dropped.
    assert_eq!(
        resolve_mcp_request(&mut pending, "req-1".to_string(), "43".to_string()),
        None
    );

    let mut results = McpResults::new();
    results.open_slot("r".to_string());
    assert_eq!(results.take("r"), None);
    assert!(results.deliver("r", "out".to_string()));
    assert_eq!(results.take("r"), Some("out".to_string()));
    assert_eq!(results.take("r"), None);
    assert!(!results.deliver("ghost", "x".to_string()));
}

#[test]
fn settings_defaults() {
    let s = AppSettings::default();
    assert_eq!(s.font_size, 13);
    assert_eq!(s.theme, "dark");
    assert_eq!(s.renderer, default_renderer());
    assert!(default_true());
    assert!(!pin_configured(&s));
    let mut with_pin = s.clone();
    with_pin.remote_pin = Some("1234".to_string());
    assert!(pin_configured(&with_pin));
    assert_eq!(get_app_data_dir_name(true), "agent-hub-dev");
    assert_eq!(get_app_data_dir_name(false), "agent-hub");
}

#[test]
fn string_utilities() {
    assert!(str_le("abc", "abd"));
    assert!(str_le("abc", "abc"));
    assert!(!str_le("b", "a"));
    assert!(str_le("ab", "abc"));
    assert_eq!(str_replace("a/b/c", "/", "-"), "a-b-c");
    assert_eq!(str_replace("agent run", "agent ", "agent --resume X "),
        "agent --resume X run");
    assert_eq!(split_lines("a\nb\n\nc"), vec!["a".to_string(), "b".to_string(), String::new(), "c".to_string()]);
    assert_eq!(split_lines(""), vec![String::new()]);
    assert_eq!(u64_to_dec(0), "0");
    assert_eq!(u64_to_dec(905), "905");
    assert_eq!(u64_to_dec(u64::MAX), u64::MAX.to_string());
    assert_eq!(expand_tilde("~/x", "/home/u"), "/home/u/x");
    assert_eq!(expand_tilde("~", "/home/u"), "/home/u");
    assert_eq!(expand_tilde("/abs", "/home/u"), "/abs");
}

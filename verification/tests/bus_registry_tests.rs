use agent_hub::bus::{Channel, RecvStep};
use agent_hub::registry::{JsonLive, PtyLive, Registry, WriteError};
use agent_hub::supervisor::{
    build_json_command, build_pty_invocation, detection_delays, enhanced_path, handle_json_line,
    interrupt_action, kill_json_plan, on_json_exit, on_pty_eof, processing_change,
    register_json_spawn, register_pty_spawn, resolve_working_dir, validate_command,
    GlobalEvent, InterruptAction, SpawnError,
};

#[test]
fn channel_drops_oldest_on_overflow() {
    let mut ch: Channel<String> = Channel::new(2);
    // A subscriber that joined at the start lags once the ring wraps.
    let mut lagger = ch.subscribe();
    ch.send("one".to_string());
    ch.send("two".to_string());
    ch.send("three".to_string());
    // Capacity two: "one" was dropped, the two newest remain.
    assert_eq!(ch.items.len(), 2);
    assert_eq!(ch.get(0).as_str(), "two");
    assert_eq!(ch.get(1).as_str(), "three");
    assert_eq!(ch.recv(&mut lagger), RecvStep::Lagged);
    assert_eq!(ch.recv(&mut lagger), RecvStep::Ready(0));
    assert_eq!(ch.get(0).as_str(), "two");
}

#[test]
fn late_subscriber_gets_no_replay() {
    let mut ch: Channel<String> = Channel::new(16);
    ch.send("before-1".to_string());
    ch.send("before-2".to_string());
    let mut sub = ch.subscribe();
    // Nothing produced before the subscription is delivered.
    assert_eq!(ch.recv(&mut sub), RecvStep::Empty);
    ch.send("after".to_string());
    match ch.recv(&mut sub) {
        RecvStep::Ready(i) => assert_eq!(ch.get(i).as_str(), "after"),
        other => panic!("expected an item, got {other:?}"),
    }
    assert_eq!(ch.recv(&mut sub), RecvStep::Empty);
}

#[test]
fn registry_tables_stay_in_sync() {
    let mut reg = Registry::new();
    register_helper(&mut reg, "pty-1");
    reg.install_json(
        "json-1".to_string(),
        JsonLive { child_id: 42, stdin: Vec::new(), processing: false },
    );
    assert!(reg.live("pty-1") && reg.live("json-1"));
    assert!(reg.pty_chans.contains("pty-1") && reg.json_chans.contains("json-1"));

    reg.remove_pty("pty-1");
    reg.remove_json("json-1");
    assert!(!reg.live("pty-1") && !reg.live("json-1"));
    assert!(!reg.pty_chans.contains("pty-1") && !reg.json_chans.contains("json-1"));
}

fn register_helper(reg: &mut Registry, id: &str) {
    reg.install_pty(id.to_string(), PtyLive { cols: 80, rows: 24 });
}

#[test]
fn stdin_queue_bounded_drops_when_full() {
    let mut reg = Registry::new();
    reg.install_json(
        "s".to_string(),
        JsonLive { child_id: 7, stdin: Vec::new(), processing: false },
    );
    for i in 0..100 {
        assert_eq!(reg.write_json_stdin("s", format!("line {i}")), Ok(()));
    }
    assert_eq!(
        reg.write_json_stdin("s", "overflow".to_string()),
        Err(WriteError::Full)
    );
    assert_eq!(
        reg.write_json_stdin("ghost", "x".to_string()),
        Err(WriteError::NotFound)
    );
    assert_eq!(reg.pop_json_stdin("s").as_deref(), Some("line 0"));
    assert_eq!(reg.write_json_stdin("s", "fits again".to_string()), Ok(()));
}

#[test]
fn json_spawn_status_precedes_output() {
    let mut reg = Registry::new();
    let mut status: Channel<GlobalEvent> = Channel::new(64);
    let mut watcher = status.subscribe();

    register_json_spawn(&mut reg, &mut status, "s", 4242);
    // The very first event after the spawn is running=true …
    match status.recv(&mut watcher) {
        RecvStep::Ready(i) => match status.get(i) {
            GlobalEvent::SessionStatus { session_id, running } => {
                assert_eq!(session_id, "s");
                assert!(*running);
            }
            _ => panic!("expected a session status event"),
        },
        other => panic!("expected an event, got {other:?}"),
    }
    // … and a subscriber to the session channel sees no earlier output.
    let mut sub = reg.subscribe_json("s").unwrap();
    let chan_empty = {
        let chan_len = reg
            .json_chans
            .get("s")
            .map(|c| c.items.len())
            .unwrap_or(usize::MAX);
        chan_len == 0
    };
    assert!(chan_empty);

    // Output produced after the spawn reaches the subscriber in order.
    handle_json_line(&mut reg, &mut status, "s", "{\"type\":\"system\"}".to_string(), Some("system"));
    handle_json_line(&mut reg, &mut status, "s", "{\"type\":\"assistant\"}".to_string(), Some("assistant"));
    let chan = reg.json_chans.get("s").unwrap();
    let mut seen = Vec::new();
    loop {
        match chan.recv(&mut sub) {
            RecvStep::Ready(i) => seen.push(chan.get(i).clone()),
            RecvStep::Empty => break,
            RecvStep::Lagged => panic!("no lag expected"),
        }
    }
    assert_eq!(seen, vec!["{\"type\":\"system\"}".to_string(), "{\"type\":\"assistant\"}".to_string()]);
}

#[test]
fn processing_transitions_follow_message_types() {
    assert_eq!(processing_change(Some("assistant")), Some(true));
    assert_eq!(processing_change(Some("result")), Some(false));
    assert_eq!(processing_change(Some("system")), None);
    assert_eq!(processing_change(None), None);
}

#[test]
fn assistant_then_result_broadcasts_processing_states() {
    let mut reg = Registry::new();
    let mut status: Channel<GlobalEvent> = Channel::new(64);
    register_json_spawn(&mut reg, &mut status, "s", 1);
    let mut watcher = status.subscribe();

    handle_json_line(&mut reg, &mut status, "s", "a".to_string(), Some("assistant"));
    handle_json_line(&mut reg, &mut status, "s", "r".to_string(), Some("result"));

    let mut states = Vec::new();
    loop {
        match status.recv(&mut watcher) {
            RecvStep::Ready(i) => {
                if let GlobalEvent::ProcessingStatus { processing, .. } = status.get(i) {
                    states.push(*processing);
                }
            }
            _ => break,
        }
    }
    assert_eq!(states, vec![true, false]);
}

#[test]
fn exit_purges_both_tables_and_announces_stop() {
    let mut reg = Registry::new();
    let mut status: Channel<GlobalEvent> = Channel::new(64);
    register_json_spawn(&mut reg, &mut status, "s", 1);
    let mut watcher = status.subscribe();
    on_json_exit(&mut reg, &mut status, "s");
    assert!(!reg.live("s"));
    assert!(!reg.json_chans.contains("s"));
    match status.recv(&mut watcher) {
        RecvStep::Ready(i) => match status.get(i) {
            GlobalEvent::SessionStatus { session_id, running } => {
                assert_eq!(session_id, "s");
                assert!(!*running);
            }
            _ => panic!("expected a status event"),
        },
        other => panic!("expected an event, got {other:?}"),
    }

    register_pty_spawn(&mut reg, &mut status, "p", 120, 30);
    on_pty_eof(&mut reg, &mut status, "p");
    assert!(!reg.live("p"));
}

#[test]
fn interrupt_pty_writes_exactly_one_etx_byte() {
    let mut reg = Registry::new();
    let mut status: Channel<GlobalEvent> = Channel::new(64);
    register_pty_spawn(&mut reg, &mut status, "p", 120, 30);
    match interrupt_action(&reg, "p") {
        InterruptAction::WriteBytes { bytes } => assert_eq!(bytes, vec![0x03u8]),
        _ => panic!("expected a byte write"),
    }
}

#[test]
fn interrupt_json_signals_child_pid() {
    let mut reg = Registry::new();
    let mut status: Channel<GlobalEvent> = Channel::new(64);
    register_json_spawn(&mut reg, &mut status, "s", 31337);
    match interrupt_action(&reg, "s") {
        InterruptAction::SigInt { pid } => assert_eq!(pid, 31337),
        _ => panic!("expected a signal"),
    }
    assert!(matches!(
        interrupt_action(&reg, "nope"),
        InterruptAction::NotFound
    ));
}

#[test]
fn kill_plan_has_half_second_grace() {
    let mut reg = Registry::new();
    let mut status: Channel<GlobalEvent> = Channel::new(64);
    register_json_spawn(&mut reg, &mut status, "s", 9);
    let plan = kill_json_plan(&reg, "s").unwrap();
    assert_eq!(plan.pid, 9);
    assert_eq!(plan.grace_ms, 500);
    assert!(kill_json_plan(&reg, "other").is_none());
}

#[test]
fn pty_invocation_resumes_with_recorded_id() {
    let inv = build_pty_invocation(
        "agent --dangerously-skip-permissions",
        Some("abc-123"),
        true,
    );
    assert_eq!(inv.cmd, "agent --resume abc-123 --dangerously-skip-permissions");
    assert!(inv.use_login_shell);

    let plain = build_pty_invocation("/bin/zsh", None, false);
    assert_eq!(plain.cmd, "/bin/zsh");
    assert!(!plain.use_login_shell);

    let fresh = build_pty_invocation("pty-agent", Some("abc"), false);
    assert_eq!(fresh.cmd, "pty-agent");
}

#[test]
fn json_command_inserts_resume_flag() {
    let cmd = build_json_command("agent --print --verbose", Some("xyz"), true);
    assert_eq!(cmd, "agent --resume xyz --print --verbose");
    // Already resuming: left alone.
    let cmd = build_json_command("agent --resume xyz --print", Some("xyz"), true);
    assert_eq!(cmd, "agent --resume xyz --print");
    let cmd = build_json_command("agent --print", Some("xyz"), false);
    assert_eq!(cmd, "agent --print");
}

#[test]
fn helper_builders() {
    assert_eq!(
        enhanced_path("/home/u", "/usr/bin"),
        "/home/u/.local/bin:/home/u/.nvm/versions/node/v24.10.0/bin:/home/u/.cargo/bin:/opt/homebrew/bin:/opt/homebrew/sbin:/usr/local/bin:/usr/bin"
    );
    assert_eq!(
        resolve_working_dir(Some("~/proj"), Some("/home/u")).as_deref(),
        Some("/home/u/proj")
    );
    assert_eq!(
        resolve_working_dir(None, Some("/home/u")).as_deref(),
        Some("/home/u")
    );
    assert_eq!(resolve_working_dir(None, None), None);
    assert_eq!(validate_command("  \t "), Err(SpawnError::EmptyCommand));
    assert_eq!(validate_command("pty-agent"), Ok(()));
    assert_eq!(detection_delays(), vec![500, 1000, 2000, 3000, 5000]);
}


#[test]
fn resize_updates_recorded_terminal_size() {
    let mut reg = Registry::new();
    let mut status: Channel<GlobalEvent> = Channel::new(64);
    register_pty_spawn(&mut reg, &mut status, "p", 120, 30);
    assert!(reg.set_pty_size("p", 100, 40));
    let live = reg.pty_live.get("p").unwrap();
    assert_eq!((live.cols, live.rows), (100, 40));
    assert!(!reg.set_pty_size("ghost", 1, 1));
}

use agent_hub::auth::PairedDevice;
use agent_hub::jsonio::{
    agent_line_parses, agent_type_of_line, history_messages, mobile_frame_of_text,
    strip_json_prefix, ws_control_of_text, WsInbound,
};
use agent_hub::protocol::{
    handle_mobile_frame, subscribers_of, MobileAction, MobileClientState, MobileFrame,
    OutboundMsg,
};
use agent_hub::registry::{JsonLive, Registry};
use agent_hub::table::Table;

fn no_devices() -> Table<PairedDevice> {
    Table::new()
}

fn one_device(token: &str) -> Table<PairedDevice> {
    let mut t = Table::new();
    t.upsert(
        token.to_string(),
        PairedDevice {
            id: "d".to_string(),
            name: "phone".to_string(),
            paired_at: "t".to_string(),
            last_seen: "t".to_string(),
        },
    );
    t
}

#[test]
fn auth_success_pushes_session_list() {
    let mut state = MobileClientState::new();
    let devices = one_device("tok");
    let reg = Registry::new();
    let actions = handle_mobile_frame(
        &mut state,
        MobileFrame::Auth { token: Some("tok".to_string()) },
        &devices,
        &reg,
    );
    assert!(state.authenticated);
    assert!(matches!(
        actions[0],
        MobileAction::SendToClient(OutboundMsg::AuthSuccess)
    ));
    assert!(matches!(
        actions[1],
        MobileAction::SendToClient(OutboundMsg::SessionList)
    ));
}

#[test]
fn auth_fails_with_wrong_token() {
    let mut state = MobileClientState::new();
    let devices = one_device("tok");
    let reg = Registry::new();
    let actions = handle_mobile_frame(
        &mut state,
        MobileFrame::Auth { token: Some("bad".to_string()) },
        &devices,
        &reg,
    );
    assert!(!state.authenticated);
    assert_eq!(actions.len(), 1);
    assert!(matches!(
        actions[0],
        MobileAction::SendToClient(OutboundMsg::AuthError)
    ));
}

#[test]
fn auth_open_with_no_paired_devices() {
    let mut state = MobileClientState::new();
    let devices = no_devices();
    let reg = Registry::new();
    let actions = handle_mobile_frame(
        &mut state,
        MobileFrame::Auth { token: None },
        &devices,
        &reg,
    );
    assert!(state.authenticated);
    assert_eq!(actions.len(), 2);
}

#[test]
fn subscribe_requires_auth_and_replies_with_history_and_status() {
    let mut state = MobileClientState::new();
    let devices = no_devices();
    let mut reg = Registry::new();
    reg.install_json("s".to_string(), JsonLive { child_id: 5, stdin: Vec::new(), processing: false });

    let actions = handle_mobile_frame(
        &mut state,
        MobileFrame::Subscribe { session_id: Some("s".to_string()) },
        &devices,
        &reg,
    );
    assert!(matches!(
        actions[0],
        MobileAction::SendToClient(OutboundMsg::ErrorMsg { .. })
    ));

    handle_mobile_frame(&mut state, MobileFrame::Auth { token: None }, &devices, &reg);
    let actions = handle_mobile_frame(
        &mut state,
        MobileFrame::Subscribe { session_id: Some("s".to_string()) },
        &devices,
        &reg,
    );
    assert_eq!(actions.len(), 2);
    match &actions[0] {
        MobileAction::SendToClient(OutboundMsg::ChatHistory { session_id }) => {
            assert_eq!(session_id, "s")
        }
        other => panic!("expected a history reply, got another action: {:?}", discr(other)),
    }
    match &actions[1] {
        MobileAction::SendToClient(OutboundMsg::SessionStatus {
            session_id,
            running,
            processing,
        }) => {
            assert_eq!(session_id, "s");
            assert!(*running);
            assert!(!*processing);
        }
        other => panic!("expected a status reply, got another action: {:?}", discr(other)),
    }
    assert_eq!(state.subscriptions.len(), 1);

    // Subscribing twice keeps the set free of duplicates.
    handle_mobile_frame(
        &mut state,
        MobileFrame::Subscribe { session_id: Some("s".to_string()) },
        &devices,
        &reg,
    );
    assert_eq!(state.subscriptions.len(), 1);

    // Unsubscribe removes it.
    handle_mobile_frame(
        &mut state,
        MobileFrame::Unsubscribe { session_id: Some("s".to_string()) },
        &devices,
        &reg,
    );
    assert!(state.subscriptions.is_empty());
}

fn discr(a: &MobileAction) -> &'static str {
    match a {
        MobileAction::SendToClient(_) => "send",
        MobileAction::WriteToSession { .. } => "write",
        MobileAction::EchoToSession { .. } => "echo",
        MobileAction::EmitUiInput { .. } => "emit",
        MobileAction::InterruptSession { .. } => "interrupt",
    }
}

#[test]
fn send_message_mirrors_to_every_observer() {
    let mut state = MobileClientState::new();
    let devices = no_devices();
    let reg = Registry::new();
    handle_mobile_frame(&mut state, MobileFrame::Auth { token: None }, &devices, &reg);
    let actions = handle_mobile_frame(
        &mut state,
        MobileFrame::SendMessage {
            session_id: Some("s".to_string()),
            content: Some("hello".to_string()),
        },
        &devices,
        &reg,
    );
    assert_eq!(actions.len(), 3);
    assert!(matches!(&actions[0], MobileAction::WriteToSession { session_id, content }
        if session_id == "s" && content == "hello"));
    assert!(matches!(&actions[1], MobileAction::EchoToSession { session_id, content }
        if session_id == "s" && content == "hello"));
    assert!(matches!(&actions[2], MobileAction::EmitUiInput { session_id, content }
        if session_id == "s" && content == "hello"));
}

#[test]
fn interrupt_frame_maps_to_interrupt_action() {
    let mut state = MobileClientState::new();
    let devices = no_devices();
    let reg = Registry::new();
    handle_mobile_frame(&mut state, MobileFrame::Auth { token: None }, &devices, &reg);
    let actions = handle_mobile_frame(
        &mut state,
        MobileFrame::Interrupt { session_id: Some("s".to_string()) },
        &devices,
        &reg,
    );
    assert_eq!(actions.len(), 1);
    assert!(matches!(&actions[0], MobileAction::InterruptSession { session_id }
        if session_id == "s"));
}

#[test]
fn unknown_frame_reports_error() {
    let mut state = MobileClientState::new();
    let devices = no_devices();
    let reg = Registry::new();
    let actions = handle_mobile_frame(
        &mut state,
        MobileFrame::Unknown { msg_type: "ping".to_string() },
        &devices,
        &reg,
    );
    assert!(matches!(&actions[0],
        MobileAction::SendToClient(OutboundMsg::ErrorMsg { message })
        if message == "Unknown message type: ping"));
}

#[test]
fn mobile_frames_parse_from_json_text() {
    assert!(matches!(
        mobile_frame_of_text(r#"{"type":"auth","token":"abc"}"#),
        MobileFrame::Auth { token: Some(t) } if t == "abc"
    ));
    assert!(matches!(
        mobile_frame_of_text(r#"{"type":"subscribe","sessionId":"S"}"#),
        MobileFrame::Subscribe { session_id: Some(s) } if s == "S"
    ));
    assert!(matches!(
        mobile_frame_of_text(r#"{"type":"send_message","sessionId":"S","content":"hello"}"#),
        MobileFrame::SendMessage { session_id: Some(s), content: Some(c) }
            if s == "S" && c == "hello"
    ));
    // Structured content is re-rendered to JSON text.
    assert!(matches!(
        mobile_frame_of_text(r#"{"type":"send_message","sessionId":"S","content":{"a":1}}"#),
        MobileFrame::SendMessage { content: Some(c), .. } if c == r#"{"a":1}"#
    ));
    assert!(matches!(
        mobile_frame_of_text(r#"{"type":"interrupt","sessionId":"S"}"#),
        MobileFrame::Interrupt { session_id: Some(s) } if s == "S"
    ));
    assert!(matches!(
        mobile_frame_of_text("not json at all"),
        MobileFrame::Invalid
    ));
    assert!(matches!(
        mobile_frame_of_text(r#"{"type":"dance"}"#),
        MobileFrame::Unknown { msg_type } if msg_type == "dance"
    ));
}

#[test]
fn agent_lines_classified_through_escape_prefixes() {
    assert_eq!(
        agent_type_of_line(r#"{"type":"assistant","message":{}}"#).as_deref(),
        Some("assistant")
    );
    // A terminal escape prefix before the JSON is stripped.
    assert_eq!(
        agent_type_of_line("\u{1b}]1337;RemoteHost=x\u{7}{\"type\":\"result\"}").as_deref(),
        Some("result")
    );
    assert_eq!(agent_type_of_line("plain text"), None);
    assert_eq!(strip_json_prefix("abc{\"a\":1}"), "{\"a\":1}");
    assert_eq!(strip_json_prefix("no brace"), "no brace");
    // A line parses as a message exactly when its brace suffix is JSON.
    assert!(agent_line_parses("prefix{\"type\":\"result\"}"));
    assert!(!agent_line_parses("prefix{not json"));
    assert!(!agent_line_parses("no brace here"));
}

#[test]
fn resize_control_frames() {
    assert!(matches!(
        ws_control_of_text(r#"{"type":"resize","cols":100,"rows":40}"#),
        WsInbound::Resize { cols: 100, rows: 40 }
    ));
    assert!(matches!(
        ws_control_of_text("plain keyboard input"),
        WsInbound::Input
    ));
    assert!(matches!(
        ws_control_of_text(r#"{"type":"resize","cols":"x"}"#),
        WsInbound::Input
    ));
}

#[test]
fn history_parses_array_and_ndjson() {
    let arr = history_messages(r#"[{"type":"user"},{"type":"assistant"}]"#).unwrap();
    assert_eq!(arr.len(), 2);
    assert_eq!(arr[0], r#"{"type":"user"}"#);

    let nd = history_messages("{\"a\":1}\n\n{\"b\":2}\nnot json\n").unwrap();
    assert_eq!(nd.len(), 2);
    assert_eq!(nd, vec!["{\"a\":1}".to_string(), "{\"b\":2}".to_string()]);

    assert!(history_messages("").is_none());
    assert!(history_messages("[]").is_none());
}

#[test]
fn broadcast_targets_are_the_subscribed_clients() {
    let mut clients: Table<MobileClientState> = Table::new();
    let mut a = MobileClientState::new();
    a.authenticated = true;
    a.subscriptions.push("s1".to_string());
    let mut b = MobileClientState::new();
    b.authenticated = true;
    let mut c = MobileClientState::new();
    c.authenticated = true;
    c.subscriptions.push("s1".to_string());
    c.subscriptions.push("s2".to_string());
    clients.upsert("client-a".to_string(), a);
    clients.upsert("client-b".to_string(), b);
    clients.upsert("client-c".to_string(), c);

    let targets = subscribers_of(&clients, "s1");
    assert_eq!(targets, vec!["client-a".to_string(), "client-c".to_string()]);
    let targets = subscribers_of(&clients, "s2");
    assert_eq!(targets, vec!["client-c".to_string()]);
    assert!(subscribers_of(&clients, "s3").is_empty());
}

#[test]
fn dialog_filter_keeps_user_and_assistant_lines() {
    let lines = vec![
        r#"{"type":"user","message":{"content":"hi"}}"#.to_string(),
        r#"{"type":"system"}"#.to_string(),
        r#"{"type":"assistant","message":{}}"#.to_string(),
        "not json".to_string(),
    ];
    let kept = agent_hub::jsonio::dialog_messages(&lines);
    assert_eq!(kept.len(), 2);
    assert_eq!(kept[0], lines[0]);
    assert_eq!(kept[1], lines[2]);
}

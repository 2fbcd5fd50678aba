//! End-to-end scenarios over the verified model: the same sequences a
//! remote client drives over the wire, with the host's I/O replaced by
//! direct calls.

use agent_hub::api::{api_create_session, api_delete_session, start_decision, StartDecision};
use agent_hub::auth::PairedDevice;
use agent_hub::bus::{Channel, RecvStep};
use agent_hub::protocol::{
    handle_mobile_frame, subscribers_of, MobileAction, MobileClientState, MobileFrame,
};
use agent_hub::registry::Registry;
use agent_hub::store::Store;
use agent_hub::supervisor::{
    handle_json_line, interrupt_action, register_json_spawn, GlobalEvent, InterruptAction,
};
use agent_hub::table::Table;

#[test]
fn create_start_and_mirror() {
    let mut store = Store::new();
    let mut reg = Registry::new();
    let mut status: Channel<GlobalEvent> = Channel::new(64);
    let devices: Table<PairedDevice> = Table::new();
    let mut clients: Table<MobileClientState> = Table::new();

    // Create a structured session over the REST surface.
    let session = api_create_session(
        &mut store,
        &mut status,
        None,
        "json-agent".to_string(),
        None,
        Some("~/proj".to_string()),
        None,
        "/bin/zsh",
        "2024-06-01T00:00:00Z".to_string(),
    );
    let sid = session.id.clone();

    // Start it; the decision asks for the structured variant.
    match start_decision(&reg, &store, &sid) {
        StartDecision::StartJson { resume, .. } => assert!(!resume),
        _ => panic!("expected a structured start"),
    }
    register_json_spawn(&mut reg, &mut status, &sid, 555);

    // Two mobile clients authenticate and subscribe.
    let mut a = MobileClientState::new();
    let mut b = MobileClientState::new();
    handle_mobile_frame(&mut a, MobileFrame::Auth { token: None }, &devices, &reg);
    handle_mobile_frame(&mut b, MobileFrame::Auth { token: None }, &devices, &reg);
    handle_mobile_frame(
        &mut a,
        MobileFrame::Subscribe { session_id: Some(sid.clone()) },
        &devices,
        &reg,
    );
    handle_mobile_frame(
        &mut b,
        MobileFrame::Subscribe { session_id: Some(sid.clone()) },
        &devices,
        &reg,
    );
    clients.upsert("client-a".to_string(), a);
    clients.upsert("client-b".to_string(), b);

    // B watches the session channel as the host's fan-out would.
    let mut b_sub = reg.subscribe_json(&sid).unwrap();

    // A sends a message; the handler orders a write, an echo, and a
    // desktop event, and the echo reaches every observer.
    let mut a_state = clients.get("client-a").unwrap().clone();
    let actions = handle_mobile_frame(
        &mut a_state,
        MobileFrame::SendMessage {
            session_id: Some(sid.clone()),
            content: Some("hello".to_string()),
        },
        &devices,
        &reg,
    );
    for action in actions {
        match action {
            MobileAction::WriteToSession { session_id, content } => {
                assert_eq!(reg.write_json_stdin(&session_id, content), Ok(()));
            }
            MobileAction::EchoToSession { session_id, content } => {
                assert!(reg.send_json_output(&session_id, content));
            }
            MobileAction::EmitUiInput { .. } => {}
            other => panic!("unexpected action kind {}", kind(&other)),
        }
    }
    // Both subscribed clients are fan-out targets.
    let targets = subscribers_of(&clients, &sid);
    assert!(targets.contains(&"client-a".to_string()));
    assert!(targets.contains(&"client-b".to_string()));
    // B's cursor sees the echoed input.
    let chan = reg.json_chans.get(&sid).unwrap();
    match chan.recv(&mut b_sub) {
        RecvStep::Ready(i) => assert_eq!(chan.get(i).as_str(), "hello"),
        other => panic!("expected the echoed input, got {other:?}"),
    }

    // The agent answers and finishes; processing goes true then false.
    let mut watcher = status.subscribe();
    handle_json_line(&mut reg, &mut status, &sid, "{\"type\":\"assistant\"}".to_string(), Some("assistant"));
    handle_json_line(&mut reg, &mut status, &sid, "{\"type\":\"result\"}".to_string(), Some("result"));
    let mut processing = Vec::new();
    loop {
        match status.recv(&mut watcher) {
            RecvStep::Ready(i) => {
                if let GlobalEvent::ProcessingStatus { processing: p, .. } = status.get(i) {
                    processing.push(*p);
                }
            }
            _ => break,
        }
    }
    assert_eq!(processing, vec![true, false]);

    // An interrupt during a turn is a signal to the recorded child.
    match interrupt_action(&reg, &sid) {
        InterruptAction::SigInt { pid } => assert_eq!(pid, 555),
        _ => panic!("expected a signal plan"),
    }
}

fn kind(a: &MobileAction) -> &'static str {
    match a {
        MobileAction::SendToClient(_) => "send",
        MobileAction::WriteToSession { .. } => "write",
        MobileAction::EchoToSession { .. } => "echo",
        MobileAction::EmitUiInput { .. } => "emit",
        MobileAction::InterruptSession { .. } => "interrupt",
    }
}

#[test]
fn subscribe_before_output_sees_status_first() {
    // A structured subscriber that joins right after the spawn observes
    // running=true before any message of that spawn.
    let mut reg = Registry::new();
    let mut status: Channel<GlobalEvent> = Channel::new(64);
    let mut status_sub = status.subscribe();
    register_json_spawn(&mut reg, &mut status, "s", 9);
    let mut out_sub = reg.subscribe_json("s").unwrap();

    // The status event is already there…
    let first = match status.recv(&mut status_sub) {
        RecvStep::Ready(i) => matches!(
            status.get(i),
            GlobalEvent::SessionStatus { running: true, .. }
        ),
        _ => false,
    };
    assert!(first);
    // …while the session's channel has produced nothing yet.
    let chan = reg.json_chans.get("s").unwrap();
    assert_eq!(chan.recv(&mut out_sub), RecvStep::Empty);

    handle_json_line(&mut reg, &mut status, "s", "m".to_string(), Some("assistant"));
    assert!(matches!(chan_recv(&reg, "s", &mut out_sub), Some(m) if m == "m"));
}

fn chan_recv(
    reg: &Registry,
    id: &str,
    sub: &mut agent_hub::bus::Subscriber,
) -> Option<String> {
    let chan = reg.json_chans.get(id)?;
    match chan.recv(sub) {
        RecvStep::Ready(i) => Some(chan.get(i).clone()),
        _ => None,
    }
}

#[test]
fn delete_session_event_and_recently_closed() {
    // Closing a session records it for undo and prunes to ten entries.
    let mut store = Store::new();
    let mut status: Channel<GlobalEvent> = Channel::new(64);
    for i in 0..12 {
        let row = api_create_session(
            &mut store,
            &mut status,
            Some(format!("s{i}")),
            "pty-agent".to_string(),
            None,
            None,
            None,
            "/bin/zsh",
            format!("2024-06-{:02}T00:00:00Z", i + 1),
        );
        store.save_recently_closed(agent_hub::session::RecentlyClosedRow {
            id: row.id.clone(),
            name: row.name.clone(),
            agent_type: row.agent_type.clone(),
            command: row.command.clone(),
            working_dir: row.working_dir.clone(),
            foreign_session_id: None,
            closed_at: row.created_at.clone(),
        });
        store.delete_session(&row.id);
    }
    assert!(store.sessions.is_empty());
    assert_eq!(store.recently_closed.len(), 10);
}


#[test]
fn create_and_delete_broadcast_their_events() {
    let mut store = Store::new();
    let mut status: Channel<GlobalEvent> = Channel::new(64);
    let mut watcher = status.subscribe();
    let row = api_create_session(
        &mut store,
        &mut status,
        Some("ev".to_string()),
        "pty-agent".to_string(),
        None,
        None,
        None,
        "/bin/zsh",
        "t".to_string(),
    );
    match status.recv(&mut watcher) {
        RecvStep::Ready(i) => match status.get(i) {
            GlobalEvent::SessionCreated { session } => assert_eq!(session.id, row.id),
            _ => panic!("expected a created event"),
        },
        other => panic!("expected an event, got {other:?}"),
    }
    api_delete_session(&mut store, &mut status, &row.id);
    assert!(store.sessions.is_empty());
    match status.recv(&mut watcher) {
        RecvStep::Ready(i) => match status.get(i) {
            GlobalEvent::SessionDeleted { session_id } => assert_eq!(*session_id, row.id),
            _ => panic!("expected a deleted event"),
        },
        other => panic!("expected an event, got {other:?}"),
    }
}

#[test]
fn subscribe_reports_current_processing_state() {
    let mut reg = Registry::new();
    let mut status: Channel<GlobalEvent> = Channel::new(64);
    let devices: Table<PairedDevice> = Table::new();
    register_json_spawn(&mut reg, &mut status, "s", 1);
    handle_json_line(&mut reg, &mut status, "s", "a".to_string(), Some("assistant"));

    let mut client = MobileClientState::new();
    handle_mobile_frame(&mut client, MobileFrame::Auth { token: None }, &devices, &reg);
    let actions = handle_mobile_frame(
        &mut client,
        MobileFrame::Subscribe { session_id: Some("s".to_string()) },
        &devices,
        &reg,
    );
    let got = match &actions[1] {
        MobileAction::SendToClient(
            agent_hub::protocol::OutboundMsg::SessionStatus { processing, running, .. },
        ) => (*running, *processing),
        _ => panic!("expected a status reply"),
    };
    assert_eq!(got, (true, true));

    handle_json_line(&mut reg, &mut status, "s", "r".to_string(), Some("result"));
    let actions = handle_mobile_frame(
        &mut client,
        MobileFrame::Subscribe { session_id: Some("s".to_string()) },
        &devices,
        &reg,
    );
    match &actions[1] {
        MobileAction::SendToClient(
            agent_hub::protocol::OutboundMsg::SessionStatus { processing, .. },
        ) => assert!(!*processing),
        _ => panic!("expected a status reply"),
    }
}

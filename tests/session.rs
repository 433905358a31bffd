use logrelay::message::{Application, DataMessage, Message, SystemMessage, SystemMessages, Timestamp};
use logrelay::session::{
    inbound_action, CancelSlot, FrameKind, InboundAction, Outbound, OutboundGate, SessionAction, TaskEnd,
    RECONNECT_BACKOFF_SECS,
};

fn command(kind: SystemMessages) -> Message {
    Message::System(SystemMessage::new(Application::new("svc1".to_string()), kind, Timestamp { seconds: 1, nanos: 0 }))
}

fn data(row: &str) -> Message {
    Message::Data(DataMessage::new(row.to_string(), Application::new("svc1".to_string()), false, Timestamp { seconds: 1, nanos: 0 }))
}

#[test]
fn nothing_written_before_start() {
    let mut g = OutboundGate::new();
    assert!(!g.is_open_for_data());
    assert!(matches!(g.on_queued(data("x")), Outbound::Hold(_)));
    assert_eq!(g.on_command(&command(SystemMessages::TailingStarted)), SessionAction::Continue);
    assert!(matches!(g.on_queued(data("y")), Outbound::Hold(_)));
    assert_eq!(g.on_command(&command(SystemMessages::Start)), SessionAction::Continue);
    assert!(g.is_open_for_data());
    match g.on_queued(data("z")) {
        Outbound::Write(Message::Data(d)) => assert_eq!(d.row(), "z"),
        _ => panic!("expected a write"),
    }
}

#[test]
fn pause_and_resume() {
    let mut g = OutboundGate::new();
    g.on_command(&command(SystemMessages::Start));
    g.on_command(&command(SystemMessages::Pause));
    assert!(!g.is_open_for_data());
    assert!(matches!(g.on_queued(data("x")), Outbound::Hold(_)));
    g.on_command(&command(SystemMessages::Resume));
    assert!(matches!(g.on_queued(data("x")), Outbound::Write(_)));
}

#[test]
fn stop_ends_session() {
    let mut g = OutboundGate::new();
    g.on_command(&command(SystemMessages::Start));
    assert_eq!(g.on_command(&command(SystemMessages::Stop)), SessionAction::Close);
    assert!(g.is_stopped());
    assert_eq!(g.on_command(&command(SystemMessages::Resume)), SessionAction::Close);
    assert!(!g.is_open_for_data());
    assert!(matches!(g.on_queued(data("x")), Outbound::Hold(_)));
    assert_eq!(RECONNECT_BACKOFF_SECS, 20);
}

#[test]
fn cancel_slot_signals_once() {
    let mut s = CancelSlot::new();
    assert!(s.on_task_end(TaskEnd::OnItsOwn));
    assert!(!s.on_task_end(TaskEnd::OnItsOwn));
    let mut t = CancelSlot::new();
    assert!(!t.on_task_end(TaskEnd::CancelledByPeer));
}

#[test]
fn inbound_frames() {
    assert_eq!(inbound_action(FrameKind::Text), InboundAction::Forward);
    assert_eq!(inbound_action(FrameKind::Close), InboundAction::End);
    assert_eq!(inbound_action(FrameKind::Error), InboundAction::End);
    assert_eq!(inbound_action(FrameKind::Ping), InboundAction::Ignore);
    assert_eq!(inbound_action(FrameKind::Binary), InboundAction::Ignore);
}

use logrelay::hub::{
    error_event, event_frame, relay_action, subscriber_step, Attached, FlowControl, HubError, Registry,
    RelayAction, RelayFrame, StreamStep,
};
use logrelay::message::{Application, Message, SystemMessages, Timestamp};

fn app(name: &str) -> Application {
    Application::new(name.to_string())
}

#[test]
fn registry_attach_subscribe_detach() {
    let mut r = Registry::new();
    assert_eq!(r.attach_producer(&app("svc1")), Ok(Attached { channel: 0, replaced: None }));
    assert_eq!(r.attach_producer(&app("svc2")), Ok(Attached { channel: 1, replaced: None }));
    assert_eq!(r.len(), 2);
    assert_eq!(r.subscribe("svc1"), Ok(0));
    assert_eq!(r.subscribe("svc2"), Ok(1));
    assert_eq!(r.subscribe("svc3"), Err(HubError::NoSuchApplication));
    assert_eq!(r.len(), 2);
    assert!(!r.detach("svc1", 1));
    assert!(r.detach("svc1", 0));
    assert_eq!(r.subscribe("svc1"), Err(HubError::NoSuchApplication));
    assert_eq!(r.len(), 1);
}

#[test]
fn last_producer_wins() {
    let mut r = Registry::new();
    r.attach_producer(&app("svc1")).unwrap();
    assert_eq!(r.attach_producer(&app("svc1")), Ok(Attached { channel: 1, replaced: Some(0) }));
    assert_eq!(r.len(), 1);
    assert_eq!(r.subscribe("svc1"), Ok(1));
    assert!(!r.detach("svc1", 0));
    assert_eq!(r.subscribe("svc1"), Ok(1));
}

#[test]
fn pause_once_then_resume_once() {
    let mut f = FlowControl::new();
    let d = f.on_frame(1);
    assert_eq!((d.signal, d.forward), (None, true));
    let d = f.on_frame(0);
    assert_eq!((d.signal, d.forward), (Some(SystemMessages::Pause), false));
    assert!(f.paused());
    assert_eq!(f.on_tick(0), None);
    let d = f.on_frame(0);
    assert_eq!((d.signal, d.forward), (None, false));
    let d = f.on_frame(2);
    assert_eq!((d.signal, d.forward), (Some(SystemMessages::Resume), true));
    let d = f.on_frame(2);
    assert_eq!((d.signal, d.forward), (None, true));
}

#[test]
fn tick_resumes_when_subscriber_arrives() {
    let mut f = FlowControl::new();
    assert_eq!(f.on_tick(0), Some(SystemMessages::Pause));
    assert_eq!(f.on_tick(1), Some(SystemMessages::Resume));
    assert!(!f.paused());
}

#[test]
fn event_framing() {
    assert_eq!(event_frame("{\"a\":1}"), "data: {\"a\":1}\n\n");
    assert_eq!(error_event("lagged"), "data: Error: lagged\n\n");
}

#[test]
fn disconnect_ends_stream() {
    match subscriber_step(&Message::ClientDisconnect, "\"ClientDisconnect\"") {
        StreamStep::EmitAndEnd(e) => assert_eq!(e, "data: \"ClientDisconnect\"\n\n"),
        _ => panic!("the stream must end"),
    }
}

#[test]
fn relay_frames() {
    assert_eq!(relay_action(RelayFrame::Text), RelayAction::Publish);
    assert_eq!(relay_action(RelayFrame::Binary), RelayAction::Echo);
    assert_eq!(relay_action(RelayFrame::Ping), RelayAction::Pong);
    assert_eq!(relay_action(RelayFrame::Close), RelayAction::Close);
    assert_eq!(relay_action(RelayFrame::Pong), RelayAction::Ignore);
}

fn data_json(row: &str, application: &str) -> String {
    let mut application_obj = serde_json::Map::new();
    application_obj.insert("name".to_string(), serde_json::Value::String(application.to_string()));
    let mut data = serde_json::Map::new();
    data.insert("type".to_string(), serde_json::Value::String("Data".to_string()));
    data.insert("row".to_string(), serde_json::Value::String(row.to_string()));
    data.insert("application".to_string(), serde_json::Value::Object(application_obj));
    data.insert("replace_last_row".to_string(), serde_json::Value::Bool(false));
    serde_json::Value::Object(data).to_string()
}

#[test]
fn end_to_end_routing() {
    let mut r = Registry::new();
    r.attach_producer(&app("svc1")).unwrap();
    r.attach_producer(&app("svc2")).unwrap();
    let mut flow = FlowControl::new();
    let message = Message::Data(logrelay::message::DataMessage::new("hello".to_string(), app("svc1"), false, Timestamp { seconds: 1, nanos: 0 }));
    let channel = r.subscribe("svc1").unwrap();
    assert_eq!(channel, 0);
    assert_ne!(r.subscribe("svc2").unwrap(), channel);
    assert_eq!(r.subscribe("svc3"), Err(HubError::NoSuchApplication));
    let decision = flow.on_frame(1);
    assert!(decision.forward);
    let encoded = data_json(message.data().unwrap().row(), message.data().unwrap().application().name());
    let event = match subscriber_step(&message, &encoded) {
        StreamStep::Emit(e) => e,
        _ => panic!("a data message does not end the stream"),
    };
    let payload = event.strip_prefix("data: ").unwrap().strip_suffix("\n\n").unwrap();
    let value: serde_json::Value = serde_json::from_str(payload).unwrap();
    assert_eq!(value["type"], serde_json::Value::String("Data".to_string()));
    assert_eq!(value["row"], serde_json::Value::String("hello".to_string()));
}

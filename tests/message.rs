use logrelay::configuration::{to_decimal, ClientConfiguration, LogConfiguration};
use logrelay::message::{Application, DataMessage, Message, SystemMessage, SystemMessages, Timestamp};

#[test]
fn data_message_fields() {
    let ts = Timestamp { seconds: 1_700_000_000, nanos: 3 };
    let d = DataMessage::new("row".to_string(), Application::new("svc1".to_string()), true, ts);
    assert_eq!(d.row(), "row");
    assert_eq!(d.application().name(), "svc1");
    assert!(d.replace_last_row());
    assert_eq!(d.timestamp(), ts);
    let m = Message::Data(d);
    assert!(m.data().is_some());
    assert!(m.system().is_none());
}

#[test]
fn system_message_fields() {
    let ts = Timestamp { seconds: 5, nanos: 6 };
    let s = SystemMessage::new(Application::new("a".to_string()), SystemMessages::Pause, ts);
    assert_eq!(*s.message(), SystemMessages::Pause);
    assert_eq!(s.timestamp(), ts);
    let m = Message::System(s.clone());
    assert_eq!(*m.system().unwrap().message(), SystemMessages::Pause);
    assert!(m.data().is_none());
    assert!(Message::ClientDisconnect.data().is_none());
}

#[test]
fn configuration_getters() {
    let c = LogConfiguration::new(
        "svc1".to_string(),
        "/var/log".to_string(),
        "^app.*".to_string(),
        "localhost".to_string(),
        8080,
        "ws".to_string(),
        16,
    );
    assert_eq!(c.get_application(), "svc1");
    assert_eq!(c.get_log_file_dir(), "/var/log");
    assert_eq!(c.get_log_file_name_regex(), "^app.*");
    assert_eq!(c.get_server_host(), "localhost");
    assert_eq!(c.get_server_port(), 8080);
    assert_eq!(c.get_server_path(), "ws");
    assert_eq!(c.get_channel_buffer(), 16);
    assert_eq!(c.server_authority(), "localhost:8080");
    assert_eq!(c.server_uri(), "ws://localhost:8080/ws");
    let all = ClientConfiguration::new(vec![c.clone()]).get_configurations();
    assert_eq!(all.len(), 1);
    assert_eq!(all[0].get_application(), "svc1");
}

#[test]
fn decimal_numbers() {
    assert_eq!(to_decimal(0), "0");
    assert_eq!(to_decimal(7), "7");
    assert_eq!(to_decimal(10), "10");
    assert_eq!(to_decimal(32767), "32767");
    assert_eq!(to_decimal(-32768), "-32768");
    assert_eq!(to_decimal(-5), "-5");
}

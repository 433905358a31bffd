use logrelay::message::{Application, Message, SystemMessages, Timestamp};
use logrelay::tracker::{locate, FileProbe, FileTime, LogSourceTracker, PatternError};

fn names(v: &[&str]) -> Vec<String> {
    v.iter().map(|s| s.to_string()).collect()
}

fn kinds(out: &[Message]) -> Vec<String> {
    out.iter()
        .map(|m| match m {
            Message::Data(d) => format!("data:{}:{}", d.row(), d.replace_last_row()),
            Message::System(s) => format!("system:{:?}", s.message()),
            Message::ClientDisconnect => "disconnect".to_string(),
        })
        .collect()
}

fn tracker() -> LogSourceTracker {
    LogSourceTracker::new(Application::new("svc1".to_string()), ".".to_string(), r"^log.*\.txt$".to_string())
}

const T1: FileTime = FileTime { seconds: 100, nanos: 5 };
const T2: FileTime = FileTime { seconds: 200, nanos: 0 };
const NOW: Timestamp = Timestamp { seconds: 1_700_000_000, nanos: 7 };

#[test]
fn locate_first_match() {
    let listing = names(&["readme.md", "log-1.txt", "log-2.txt"]);
    assert_eq!(locate(&listing, r"^log.*\.txt$"), Ok(Some(1)));
}

#[test]
fn locate_no_match() {
    let listing = names(&["readme.md", "notes.txt"]);
    assert_eq!(locate(&listing, r"^log.*\.txt$"), Ok(None));
    assert_eq!(locate(&Vec::new(), r"^log"), Ok(None));
}

#[test]
fn locate_invalid_pattern() {
    let listing = names(&["log.txt"]);
    assert_eq!(locate(&listing, "log(("), Err(PatternError::InvalidPattern));
}

#[test]
fn select_file_uses_tracker_pattern() {
    let t = tracker();
    assert_eq!(t.select_file(&names(&["a.log", "log7.txt"])), Ok(Some(1)));
    assert_eq!(t.pattern(), r"^log.*\.txt$");
    assert_eq!(t.directory(), ".");
}

#[test]
fn first_open_starts_tailing() {
    let mut t = tracker();
    assert!(!t.is_reading());
    let out = t.on_file_opened("log1.txt".to_string(), T1, NOW);
    assert_eq!(kinds(&out), vec!["system:TailingStarted"]);
    assert!(t.is_reading());
    assert_eq!(t.current_path(), Some("log1.txt"));
    match &out[0] {
        Message::System(s) => assert_eq!(s.application().name(), "svc1"),
        _ => panic!("expected a system message"),
    }
}

#[test]
fn chunks_become_data_messages() {
    let mut t = tracker();
    t.on_file_opened("log1.txt".to_string(), T1, NOW);
    let out = t.on_chunk("ab", NOW);
    assert_eq!(kinds(&out), vec!["data:ab:false"]);
    let out = t.on_chunk("cd\n", NOW);
    assert_eq!(kinds(&out), vec!["data:abcd:true"]);
    match &out[0] {
        Message::Data(d) => assert_eq!(d.application().name(), "svc1"),
        _ => panic!("expected a data message"),
    }
}

#[test]
fn slow_writer_changes_nothing() {
    let mut t = tracker();
    t.on_file_opened("log1.txt".to_string(), T1, NOW);
    assert!(t.on_end_of_file(FileProbe::Present(T1), NOW).is_empty());
    assert!(t.is_reading());
}

#[test]
fn rotation_removes_once_then_finds_new_file() {
    let mut t = tracker();
    t.on_file_opened("log1.txt".to_string(), T1, NOW);
    t.on_chunk("half", NOW);
    let out = t.on_end_of_file(FileProbe::Missing, NOW);
    assert_eq!(kinds(&out), vec!["system:FileRemoved"]);
    assert!(!t.is_reading());
    assert!(t.on_end_of_file(FileProbe::Missing, NOW).is_empty());
    assert!(t.on_chunk("stray", NOW).is_empty());
    let out = t.on_file_opened("log2.txt".to_string(), T2, NOW);
    assert_eq!(kinds(&out), vec!["system:NewFileFound"]);
    let out = t.on_chunk("fresh\n", NOW);
    assert_eq!(kinds(&out), vec!["data:fresh:false"]);
}

#[test]
fn replaced_file_counts_as_removed() {
    let mut t = tracker();
    t.on_file_opened("log1.txt".to_string(), T1, NOW);
    let out = t.on_end_of_file(FileProbe::Present(T2), NOW);
    assert_eq!(kinds(&out), vec!["system:FileRemoved"]);
    assert_eq!(t.current_path(), None);
}

#[test]
fn system_kinds_are_distinct() {
    assert_ne!(SystemMessages::FileFound, SystemMessages::FileRemoved);
}

#[test]
fn open_while_reading_changes_nothing() {
    let mut t = tracker();
    t.on_file_opened("log1.txt".to_string(), T1, NOW);
    assert!(t.on_file_opened("log2.txt".to_string(), T2, NOW).is_empty());
    assert_eq!(t.current_path(), Some("log1.txt"));
}

#[test]
fn messages_carry_the_given_time() {
    let mut t = tracker();
    let out = t.on_file_opened("log1.txt".to_string(), T1, NOW);
    match &out[0] {
        Message::System(s) => assert_eq!(s.timestamp(), NOW),
        _ => panic!("expected a system message"),
    }
    let out = t.on_chunk("x\n", NOW);
    match &out[0] {
        Message::Data(d) => assert_eq!(d.timestamp(), NOW),
        _ => panic!("expected a data message"),
    }
}

#[test]
fn rotation_drops_an_unfinished_row() {
    let mut t = tracker();
    t.on_file_opened("log1.txt".to_string(), T1, NOW);
    assert_eq!(kinds(&t.on_chunk("unfinished", NOW)), vec!["data:unfinished:false"]);
    t.on_end_of_file(FileProbe::Missing, NOW);
    t.on_file_opened("log2.txt".to_string(), T2, NOW);
    assert_eq!(kinds(&t.on_chunk("new", NOW)), vec!["data:new:false"]);
}

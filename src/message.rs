//! The messages exchanged between producer, relay and subscribers.

use vstd::prelude::*;

verus! {

/// Identity used to route one producer's rows to its subscribers.
pub struct Application {
    pub name: String,
}

impl Application {
    pub fn new(name: String) -> (r: Application)
        ensures
            r.name@ == name@,
    {
        Application { name }
    }

    pub fn name(&self) -> (r: &str)
        ensures
            r@ == self.name@,
    {
        self.name.as_str()
    }
}

impl Clone for Application {
    fn clone(&self) -> (r: Application)
        ensures
            r.name@ == self.name@,
    {
        Application { name: self.name.clone() }
    }
}

/// The control and status signals carried by a `System` message.
#[derive(Clone, Copy, Debug, PartialEq, Eq, Structural)]
pub enum SystemMessages {
    FileFound,
    FileRemoved,
    NewFileFound,
    TailingStarted,
    Start,
    Stop,
    Pause,
    Resume,
}

/// A UTC instant: whole seconds since the Unix epoch and the nanoseconds past
/// that second.
#[derive(Clone, Copy, Debug, PartialEq, Eq, Structural)]
pub struct Timestamp {
    pub seconds: i64,
    pub nanos: u32,
}

/// One logical log row; `replace_last_row` asks the viewer to overwrite the
/// row it rendered last instead of appending.
pub struct DataMessage {
    row: String,
    application: Application,
    replace_last_row: bool,
    timestamp: Timestamp,
}

/// A control or status signal for one application.
pub struct SystemMessage {
    application: Application,
    message: SystemMessages,
    timestamp: Timestamp,
}

/// What a message says, without the instant at which it was made.
pub enum MessageView {
    Data { row: Seq<char>, application: Seq<char>, replace_last_row: bool },
    System { application: Seq<char>, kind: SystemMessages },
    ClientDisconnect,
}

impl DataMessage {
    pub closed spec fn spec_row(&self) -> Seq<char> {
        self.row@
    }

    pub closed spec fn spec_application(&self) -> Seq<char> {
        self.application.name@
    }

    pub closed spec fn spec_replace_last_row(&self) -> bool {
        self.replace_last_row
    }

    pub closed spec fn spec_timestamp(&self) -> Timestamp {
        self.timestamp
    }

    /// A row made at `timestamp`.
    pub fn new(
        row: String,
        application: Application,
        replace_last_row: bool,
        timestamp: Timestamp,
    ) -> (r: DataMessage)
        ensures
            r.spec_row() == row@,
            r.spec_application() == application.name@,
            r.spec_replace_last_row() == replace_last_row,
            r.spec_timestamp() == timestamp,
    {
        DataMessage { row, application, replace_last_row, timestamp }
    }

    pub fn row(&self) -> (r: &str)
        ensures
            r@ == self.spec_row(),
    {
        self.row.as_str()
    }

    pub fn application(&self) -> (r: &Application)
        ensures
            r.name@ == self.spec_application(),
    {
        &self.application
    }

    pub fn replace_last_row(&self) -> (r: bool)
        ensures
            r == self.spec_replace_last_row(),
    {
        self.replace_last_row
    }

    pub fn timestamp(&self) -> (r: Timestamp)
        ensures
            r == self.spec_timestamp(),
    {
        self.timestamp
    }
}

impl Clone for DataMessage {
    fn clone(&self) -> (r: DataMessage)
        ensures
            r.spec_row() == self.spec_row(),
            r.spec_application() == self.spec_application(),
            r.spec_replace_last_row() == self.spec_replace_last_row(),
            r.spec_timestamp() == self.spec_timestamp(),
    {
        DataMessage {
            row: self.row.clone(),
            application: self.application.clone(),
            replace_last_row: self.replace_last_row,
            timestamp: self.timestamp,
        }
    }
}

impl SystemMessage {
    pub closed spec fn spec_application(&self) -> Seq<char> {
        self.application.name@
    }

    pub closed spec fn spec_message(&self) -> SystemMessages {
        self.message
    }

    pub closed spec fn spec_timestamp(&self) -> Timestamp {
        self.timestamp
    }

    /// A signal made at `timestamp`.
    pub fn new(application: Application, message: SystemMessages, timestamp: Timestamp) -> (r: SystemMessage)
        ensures
            r.spec_application() == application.name@,
            r.spec_message() == message,
            r.spec_timestamp() == timestamp,
    {
        SystemMessage { application, message, timestamp }
    }

    pub fn message(&self) -> (r: &SystemMessages)
        ensures
            *r == self.spec_message(),
    {
        &self.message
    }

    pub fn application(&self) -> (r: &Application)
        ensures
            r.name@ == self.spec_application(),
    {
        &self.application
    }

    pub fn timestamp(&self) -> (r: Timestamp)
        ensures
            r == self.spec_timestamp(),
    {
        self.timestamp
    }
}

impl Clone for SystemMessage {
    fn clone(&self) -> (r: SystemMessage)
        ensures
            r.spec_application() == self.spec_application(),
            r.spec_message() == self.spec_message(),
            r.spec_timestamp() == self.spec_timestamp(),
    {
        SystemMessage {
            application: self.application.clone(),
            message: self.message,
            timestamp: self.timestamp,
        }
    }
}

/// A message on the wire: a row, a signal, or the relay's end-of-stream
/// sentinel.
pub enum Message {
    Data(DataMessage),
    System(SystemMessage),
    ClientDisconnect,
}

impl View for Message {
    type V = MessageView;

    open spec fn view(&self) -> MessageView {
        match self {
            Message::Data(d) => MessageView::Data {
                row: d.spec_row(),
                application: d.spec_application(),
                replace_last_row: d.spec_replace_last_row(),
            },
            Message::System(s) => MessageView::System {
                application: s.spec_application(),
                kind: s.spec_message(),
            },
            Message::ClientDisconnect => MessageView::ClientDisconnect,
        }
    }
}

impl Message {
    /// When the message was made; the sentinel carries no time.
    pub open spec fn stamp(&self) -> Option<Timestamp> {
        match self {
            Message::Data(d) => Some(d.spec_timestamp()),
            Message::System(s) => Some(s.spec_timestamp()),
            Message::ClientDisconnect => None,
        }
    }

    pub fn data(&self) -> (r: Option<&DataMessage>)
        ensures
            match self {
                Message::Data(d) => r == Some(d),
                _ => r is None,
            },
    {
        match self {
            Message::Data(data) => Some(data),
            _ => None,
        }
    }

    pub fn system(&self) -> (r: Option<&SystemMessage>)
        ensures
            match self {
                Message::System(s) => r == Some(s),
                _ => r is None,
            },
    {
        match self {
            Message::System(system) => Some(system),
            _ => None,
        }
    }
}

impl Clone for Message {
    fn clone(&self) -> (r: Message)
        ensures
            r@ == self@,
            r.stamp() == self.stamp(),
    {
        match self {
            Message::Data(d) => Message::Data(d.clone()),
            Message::System(s) => Message::System(s.clone()),
            Message::ClientDisconnect => Message::ClientDisconnect,
        }
    }
}

} // verus!

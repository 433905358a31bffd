//! The decisions of a producer's session with the relay.
//!
//! The caller runs the connection, the two tasks and the reconnect loop. The
//! outbound gate decides, from the commands the relay sent, whether queued
//! messages may be taken and written to the wire, and when the session ends.

use vstd::prelude::*;
use crate::message::{Message, MessageView, SystemMessages};

verus! {

/// Seconds to wait after a session ends or fails before connecting again.
pub const RECONNECT_BACKOFF_SECS: u64 = 20;

/// The outbound state: whether queued messages may go out, and whether the
/// relay ended the session.
pub struct GateView {
    pub sending: bool,
    pub stopped: bool,
}

/// What reaches the session's outbound task.
pub enum SessionInput {
    /// A message that the relay sent.
    Command(MessageView),
    /// A message taken from the shared outbound queue.
    Queued(MessageView),
}

pub open spec fn initial_gate() -> GateView {
    GateView { sending: false, stopped: false }
}

/// Whether queued messages may be taken and written.
pub open spec fn open_for_data(g: GateView) -> bool {
    g.sending && !g.stopped
}

/// One outbound step, with the messages that go out on the wire.
pub open spec fn gate_next(g: GateView, input: SessionInput) -> (GateView, Seq<MessageView>) {
    if g.stopped {
        (g, Seq::empty())
    } else {
        match input {
            SessionInput::Command(MessageView::System { kind, .. }) => {
                if kind == SystemMessages::Start || kind == SystemMessages::Resume {
                    (GateView { sending: true, ..g }, Seq::empty())
                } else if kind == SystemMessages::Pause {
                    (GateView { sending: false, ..g }, Seq::empty())
                } else if kind == SystemMessages::Stop {
                    (GateView { stopped: true, ..g }, Seq::empty())
                } else {
                    (g, Seq::empty())
                }
            },
            SessionInput::Command(_) => (g, Seq::empty()),
            SessionInput::Queued(m) => if g.sending {
                (g, seq![m])
            } else {
                (g, Seq::empty())
            },
        }
    }
}

/// The state after a sequence of inputs, and everything written on the way.
pub open spec fn gate_run(g: GateView, inputs: Seq<SessionInput>) -> (GateView, Seq<MessageView>)
    decreases inputs.len(),
{
    if inputs.len() == 0 {
        (g, Seq::empty())
    } else {
        let (h, before) = gate_run(g, inputs.drop_last());
        let (k, last) = gate_next(h, inputs.last());
        (k, before + last)
    }
}

/// Whether an input is a relay command that authorizes writing.
pub open spec fn is_authorization(input: SessionInput) -> bool {
    match input {
        SessionInput::Command(MessageView::System { kind, .. }) => kind == SystemMessages::Start
            || kind == SystemMessages::Resume,
        _ => false,
    }
}

/// Whether an input is the relay's command to end the session.
pub open spec fn is_stop(input: SessionInput) -> bool {
    match input {
        SessionInput::Command(MessageView::System { kind, .. }) => kind == SystemMessages::Stop,
        _ => false,
    }
}

/// What the outbound task does after a relay command.
#[derive(Clone, Copy, Debug, PartialEq, Eq, Structural)]
pub enum SessionAction {
    Continue,
    /// Close the connection; the caller reconnects after the backoff.
    Close,
}

/// What becomes of a message taken from the shared queue.
pub enum Outbound {
    Write(Message),
    /// Writing is not authorized: the message stays with the caller.
    Hold(Message),
}

/// The outbound task's flow-control flag and end-of-session mark.
pub struct OutboundGate {
    sending: bool,
    stopped: bool,
}

impl View for OutboundGate {
    type V = GateView;

    closed spec fn view(&self) -> GateView {
        GateView { sending: self.sending, stopped: self.stopped }
    }
}

impl OutboundGate {
    /// A fresh session: nothing is written before the relay says `Start`.
    pub fn new() -> (r: OutboundGate)
        ensures
            r@ == initial_gate(),
    {
        OutboundGate { sending: false, stopped: false }
    }

    /// Whether the caller may take messages from the shared queue.
    pub fn is_open_for_data(&self) -> (r: bool)
        ensures
            r == open_for_data(self@),
    {
        self.sending && !self.stopped
    }

    /// Whether the relay ended the session.
    pub fn is_stopped(&self) -> (r: bool)
        ensures
            r == self@.stopped,
    {
        self.stopped
    }

    /// Applies a message that the relay sent.
    pub fn on_command(&mut self, command: &Message) -> (r: SessionAction)
        ensures
            (final(self)@, Seq::<MessageView>::empty()) == gate_next(old(self)@, SessionInput::Command(command@)),
            r == (if final(self)@.stopped { SessionAction::Close } else { SessionAction::Continue }),
    {
        if !self.stopped {
            if let Message::System(s) = command {
                match s.message() {
                    SystemMessages::Start | SystemMessages::Resume => {
                        self.sending = true;
                    },
                    SystemMessages::Pause => {
                        self.sending = false;
                    },
                    SystemMessages::Stop => {
                        self.stopped = true;
                    },
                    _ => {},
                }
            }
        }
        if self.stopped {
            SessionAction::Close
        } else {
            SessionAction::Continue
        }
    }

    /// Decides on a message taken from the shared queue: it is written only
    /// while writing is authorized.
    pub fn on_queued(&self, message: Message) -> (r: Outbound)
        ensures
            gate_next(self@, SessionInput::Queued(message@)).0 == self@,
            match r {
                Outbound::Write(m) => m@ == message@ && gate_next(self@, SessionInput::Queued(message@)).1
                    == seq![message@],
                Outbound::Hold(m) => m@ == message@ && gate_next(self@, SessionInput::Queued(message@)).1
                    == Seq::<MessageView>::empty(),
            },
    {
        if self.sending && !self.stopped {
            Outbound::Write(message)
        } else {
            Outbound::Hold(message)
        }
    }
}

/// Gating: from a fresh session, as long as the relay has sent neither
/// `Start` nor `Resume`, nothing at all is written, whatever was queued.
pub proof fn lemma_nothing_written_before_start(inputs: Seq<SessionInput>)
    requires
        forall|k: int| 0 <= k < inputs.len() ==> !is_authorization(#[trigger] inputs[k]),
    ensures
        gate_run(initial_gate(), inputs).1 == Seq::<MessageView>::empty(),
        !gate_run(initial_gate(), inputs).0.sending,
    decreases inputs.len(),
{
    if inputs.len() > 0 {
        let shorter = inputs.drop_last();
        assert forall|k: int| 0 <= k < shorter.len() implies !is_authorization(#[trigger] shorter[k]) by {
            assert(shorter[k] == inputs[k]);
        }
        lemma_nothing_written_before_start(shorter);
        assert(!is_authorization(inputs[inputs.len() - 1]));
        let h = gate_run(initial_gate(), shorter).0;
        assert(!gate_next(h, inputs.last()).0.sending && gate_next(h, inputs.last()).1 == Seq::<MessageView>::empty()) by {
            match inputs.last() {
                SessionInput::Command(MessageView::System { kind, .. }) => {},
                _ => {},
            }
        }
        assert(Seq::<MessageView>::empty() + Seq::<MessageView>::empty() =~= Seq::<MessageView>::empty());
    }
}

/// After `Stop` the session is over: it stays stopped and writes nothing
/// more, whatever follows.
pub proof fn lemma_stop_ends_session(g: GateView, stop: SessionInput, after: Seq<SessionInput>)
    requires
        is_stop(stop),
    ensures
        gate_next(g, stop).0.stopped,
        gate_run(gate_next(g, stop).0, after).0.stopped,
        gate_run(gate_next(g, stop).0, after).1 == Seq::<MessageView>::empty(),
    decreases after.len(),
{
    if after.len() > 0 {
        lemma_stop_ends_session(g, stop, after.drop_last());
        assert(Seq::<MessageView>::empty() + Seq::<MessageView>::empty() =~= Seq::<MessageView>::empty());
    }
}

/// How a session task ended.
#[derive(Clone, Copy, Debug, PartialEq, Eq, Structural)]
pub enum TaskEnd {
    /// The other task asked this one to stop.
    CancelledByPeer,
    /// The connection closed or failed, or the relay said `Stop`.
    OnItsOwn,
}

/// A one-shot cancellation slot: signalling it a second time is a no-op.
pub struct CancelSlot {
    signalled: bool,
}

impl CancelSlot {
    pub closed spec fn is_signalled(&self) -> bool {
        self.signalled
    }

    pub fn new() -> (r: CancelSlot)
        ensures
            !r.is_signalled(),
    {
        CancelSlot { signalled: false }
    }

    /// Called when the owning task ends; returns whether to signal the
    /// other task to stop: only when the owner was not cancelled by the
    /// other, and at most once.
    pub fn on_task_end(&mut self, how: TaskEnd) -> (r: bool)
        ensures
            r == (how == TaskEnd::OnItsOwn && !old(self).is_signalled()),
            final(self).is_signalled() == (old(self).is_signalled() || how == TaskEnd::OnItsOwn),
    {
        let signal = how == TaskEnd::OnItsOwn && !self.signalled;
        if how == TaskEnd::OnItsOwn {
            self.signalled = true;
        }
        signal
    }
}

/// A frame that arrived from the relay, by kind.
#[derive(Clone, Copy, Debug, PartialEq, Eq, Structural)]
pub enum FrameKind {
    Text,
    Binary,
    Ping,
    Pong,
    Close,
    RawFrame,
    Error,
}

/// What the inbound task does with a frame.
#[derive(Clone, Copy, Debug, PartialEq, Eq, Structural)]
pub enum InboundAction {
    /// Decode the text as a message and hand it to the outbound task.
    Forward,
    /// Nothing to do.
    Ignore,
    /// The connection is over: end the task.
    End,
}

/// Text frames carry commands; a close frame or a transport error ends the
/// inbound task; anything else is only noted.
pub fn inbound_action(frame: FrameKind) -> (r: InboundAction)
    ensures
        r == (match frame {
            FrameKind::Text => InboundAction::Forward,
            FrameKind::Close | FrameKind::Error => InboundAction::End,
            _ => InboundAction::Ignore,
        }),
{
    match frame {
        FrameKind::Text => InboundAction::Forward,
        FrameKind::Close | FrameKind::Error => InboundAction::End,
        _ => InboundAction::Ignore,
    }
}

} // verus!

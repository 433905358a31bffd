//! The log source tracker: which file is being tailed, what its reads emit,
//! and when it has been rotated away.
//!
//! The caller owns the file handle and the directory listing. It reports
//! what it observed (a chunk read, the end of the file with a fresh look at
//! the path, a newly opened file), and the tracker answers with the messages
//! to queue, in order.

use vstd::prelude::*;
use crate::assembler::{
    feed, feed_all, initial_pending, lemma_first_row_fresh, updates_view, LineAssembler, LineUpdate,
    PendingView, UpdateView,
};
use crate::message::{
    Application, DataMessage, Message, MessageView, SystemMessage, SystemMessages, Timestamp,
};

verus! {

/// Whether the regular expression `pattern` compiles.
pub uninterp spec fn pattern_is_valid(pattern: Seq<char>) -> bool;

/// Whether the compiled `pattern` matches somewhere in `name`.
pub uninterp spec fn pattern_matches(pattern: Seq<char>, name: Seq<char>) -> bool;

/// Relies on regex::Regex::new, which fails exactly on patterns it cannot
/// compile, and on regex::Regex::is_match, which tests a file name against
/// the compiled pattern.
#[verifier::external_body]
fn match_file_name(file_name: &str, pattern: &str) -> (r: Option<bool>)
    ensures
        r == (if pattern_is_valid(pattern@) {
            Some(pattern_matches(pattern@, file_name@))
        } else {
            None
        }),
{
    match regex::Regex::new(pattern) {
        Ok(re) => Some(re.is_match(file_name)),
        Err(_) => None,
    }
}

/// The file-name pattern does not compile.
#[derive(Clone, Copy, Debug, PartialEq, Eq, Structural)]
pub enum PatternError {
    InvalidPattern,
}

/// Finds the first name in a directory listing that the pattern matches.
/// An empty listing has no match, whatever the pattern.
pub fn locate(names: &Vec<String>, pattern: &str) -> (r: Result<Option<usize>, PatternError>)
    ensures
        match r {
            Ok(Some(i)) => {
                &&& pattern_is_valid(pattern@)
                &&& i < names@.len()
                &&& pattern_matches(pattern@, names@[i as int]@)
                &&& forall|j: int| 0 <= j < i ==> !pattern_matches(pattern@, #[trigger] names@[j]@)
            },
            Ok(None) => names@.len() == 0 || {
                &&& pattern_is_valid(pattern@)
                &&& forall|j: int| 0 <= j < names@.len() ==> !pattern_matches(pattern@, #[trigger] names@[j]@)
            },
            Err(_) => !pattern_is_valid(pattern@) && names@.len() > 0,
        },
{
    let mut i: usize = 0;
    while i < names.len()
        invariant
            i <= names@.len(),
            i > 0 ==> pattern_is_valid(pattern@),
            forall|j: int| 0 <= j < i ==> !pattern_matches(pattern@, #[trigger] names@[j]@),
        decreases names@.len() - i,
    {
        match match_file_name(names[i].as_str(), pattern) {
            None => {
                return Err(PatternError::InvalidPattern);
            },
            Some(true) => {
                return Ok(Some(i));
            },
            Some(false) => {},
        }
        i = i + 1;
    }
    Ok(None)
}

/// A file's creation time: seconds since the Unix epoch and the nanoseconds
/// past that second.
#[derive(Clone, Copy, Debug, PartialEq, Eq, Structural)]
pub struct FileTime {
    pub seconds: u64,
    pub nanos: u32,
}

/// What a fresh look at the tailed path found once a read returned nothing.
#[derive(Clone, Copy, Debug, PartialEq, Eq, Structural)]
pub enum FileProbe {
    Missing,
    Present(FileTime),
}

/// What the tracker is told.
pub enum TrackerInput {
    /// A file was opened: its path and its creation time.
    Opened(Seq<char>, FileTime),
    /// A read returned this non-empty text.
    Chunk(Seq<char>),
    /// A read returned nothing, and the path was looked at again.
    EndOfFile(FileProbe),
}

/// The tracker's state.
pub struct TrackerView {
    pub application: Seq<char>,
    /// The file being read, with its creation time; none while rediscovering.
    pub source: Option<(Seq<char>, FileTime)>,
    /// Whether a file was ever opened.
    pub started: bool,
    pub pending: PendingView,
}

/// The messages that carry a chunk's rows.
pub open spec fn rows_as_messages(application: Seq<char>, updates: Seq<UpdateView>) -> Seq<MessageView> {
    updates.map_values(
        |u: UpdateView| MessageView::Data { row: u.0, application, replace_last_row: u.1 },
    )
}

pub open spec fn signal(application: Seq<char>, kind: SystemMessages) -> MessageView {
    MessageView::System { application, kind }
}

/// Whether a look at the path shows that the file read so far is gone: it was
/// deleted, or another file with another creation time stands in its place.
pub open spec fn is_rotated(created: FileTime, probe: FileProbe) -> bool {
    match probe {
        FileProbe::Missing => true,
        FileProbe::Present(now) => now != created,
    }
}

/// One transition of the tracker, with the messages it queues.
pub open spec fn next(t: TrackerView, input: TrackerInput) -> (TrackerView, Seq<MessageView>) {
    match input {
        TrackerInput::Opened(path, created) => if t.source is Some {
            (t, Seq::empty())
        } else {
            let kind = if t.started {
                SystemMessages::NewFileFound
            } else {
                SystemMessages::TailingStarted
            };
            (
                TrackerView {
                    source: Some((path, created)),
                    started: true,
                    pending: initial_pending(),
                    ..t
                },
                seq![signal(t.application, kind)],
            )
        },
        TrackerInput::Chunk(text) => match t.source {
            Some(_) => {
                let (p, updates) = feed(t.pending, text);
                (TrackerView { pending: p, ..t }, rows_as_messages(t.application, updates))
            },
            None => (t, Seq::empty()),
        },
        TrackerInput::EndOfFile(probe) => match t.source {
            Some((_, created)) => if is_rotated(created, probe) {
                (
                    TrackerView { source: None, pending: initial_pending(), ..t },
                    seq![signal(t.application, SystemMessages::FileRemoved)],
                )
            } else {
                (t, Seq::empty())
            },
            None => (t, Seq::empty()),
        },
    }
}

/// The state after a sequence of inputs, and every message queued on the way.
pub open spec fn run(t: TrackerView, inputs: Seq<TrackerInput>) -> (TrackerView, Seq<MessageView>)
    decreases inputs.len(),
{
    if inputs.len() == 0 {
        (t, Seq::empty())
    } else {
        let (u, before) = run(t, inputs.drop_last());
        let (v, last) = next(u, inputs.last());
        (v, before + last)
    }
}

pub open spec fn messages_view(v: Seq<Message>) -> Seq<MessageView> {
    v.map_values(|m: Message| m@)
}

/// Every message was made at `now`.
pub open spec fn stamped(v: Seq<Message>, now: Timestamp) -> bool {
    forall|i: int| 0 <= i < v.len() ==> (#[trigger] v[i]).stamp() == Some(now)
}

struct SourceFingerprint {
    path: String,
    created: FileTime,
}

/// Follows one application's log file across rotations.
pub struct LogSourceTracker {
    application: Application,
    directory: String,
    pattern: String,
    source: Option<SourceFingerprint>,
    started: bool,
    assembler: LineAssembler,
}

impl View for LogSourceTracker {
    type V = TrackerView;

    closed spec fn view(&self) -> TrackerView {
        TrackerView {
            application: self.application.name@,
            source: match self.source {
                Some(f) => Some((f.path@, f.created)),
                None => None,
            },
            started: self.started,
            pending: self.assembler@,
        }
    }
}

impl LogSourceTracker {
    pub closed spec fn spec_directory(&self) -> Seq<char> {
        self.directory@
    }

    pub closed spec fn spec_pattern(&self) -> Seq<char> {
        self.pattern@
    }

    /// A tracker that has no file open yet.
    pub fn new(application: Application, directory: String, pattern: String) -> (r: LogSourceTracker)
        ensures
            r@ == (TrackerView {
                application: application.name@,
                source: None,
                started: false,
                pending: initial_pending(),
            }),
            r.spec_directory() == directory@,
            r.spec_pattern() == pattern@,
    {
        LogSourceTracker {
            application,
            directory,
            pattern,
            source: None,
            started: false,
            assembler: LineAssembler::new(),
        }
    }

    pub fn directory(&self) -> (r: &str)
        ensures
            r@ == self.spec_directory(),
    {
        self.directory.as_str()
    }

    pub fn pattern(&self) -> (r: &str)
        ensures
            r@ == self.spec_pattern(),
    {
        self.pattern.as_str()
    }

    /// Whether a file is open; otherwise the caller should poll the directory.
    pub fn is_reading(&self) -> (r: bool)
        ensures
            r == self@.source is Some,
    {
        self.source.is_some()
    }

    /// The path of the file being read.
    pub fn current_path(&self) -> (r: Option<&str>)
        ensures
            match self@.source {
                Some((path, _)) => r is Some && r->0@ == path,
                None => r is None,
            },
    {
        match &self.source {
            Some(f) => Some(f.path.as_str()),
            None => None,
        }
    }

    /// Picks the file to open from a directory listing: the first name that
    /// the tracker's pattern matches.
    pub fn select_file(&self, names: &Vec<String>) -> (r: Result<Option<usize>, PatternError>)
        ensures
            match r {
                Ok(Some(i)) => {
                    &&& pattern_is_valid(self.spec_pattern())
                    &&& i < names@.len()
                    &&& pattern_matches(self.spec_pattern(), names@[i as int]@)
                    &&& forall|j: int| 0 <= j < i ==> !pattern_matches(self.spec_pattern(), #[trigger] names@[j]@)
                },
                Ok(None) => names@.len() == 0 || {
                    &&& pattern_is_valid(self.spec_pattern())
                    &&& forall|j: int| 0 <= j < names@.len() ==> !pattern_matches(self.spec_pattern(), #[trigger] names@[j]@)
                },
                Err(_) => !pattern_is_valid(self.spec_pattern()) && names@.len() > 0,
            },
    {
        locate(names, self.pattern.as_str())
    }

    fn system(&self, kind: SystemMessages, now: Timestamp) -> (r: Message)
        ensures
            r@ == signal(self@.application, kind),
            r.stamp() == Some(now),
    {
        Message::System(SystemMessage::new(self.application.clone(), kind, now))
    }

    /// A file was opened at `now`: tailing starts on it with a fresh
    /// assembler. While a file is being read, an open changes nothing.
    pub fn on_file_opened(&mut self, path: String, created: FileTime, now: Timestamp) -> (r: Vec<Message>)
        ensures
            (final(self)@, messages_view(r@)) == next(old(self)@, TrackerInput::Opened(path@, created)),
            stamped(r@, now),
    {
        if self.source.is_some() {
            let out: Vec<Message> = Vec::new();
            assert(messages_view(out@) =~= Seq::<MessageView>::empty());
            return out;
        }
        let kind = if self.started {
            SystemMessages::NewFileFound
        } else {
            SystemMessages::TailingStarted
        };
        let m = self.system(kind, now);
        self.source = Some(SourceFingerprint { path, created });
        self.started = true;
        self.assembler = LineAssembler::new();
        let mut out: Vec<Message> = Vec::new();
        out.push(m);
        assert(messages_view(out@) =~= seq![signal(self@.application, kind)]);
        out
    }

    /// A read at `now` returned `chunk`: its rows, as data messages.
    pub fn on_chunk(&mut self, chunk: &str, now: Timestamp) -> (r: Vec<Message>)
        ensures
            (final(self)@, messages_view(r@)) == next(old(self)@, TrackerInput::Chunk(chunk@)),
            stamped(r@, now),
    {
        let mut out: Vec<Message> = Vec::new();
        if self.source.is_none() {
            assert(messages_view(out@) =~= Seq::<MessageView>::empty());
            return out;
        }
        let updates = self.assembler.push_chunk(chunk);
        let ghost app = self@.application;
        let mut i: usize = 0;
        while i < updates.len()
            invariant
                i <= updates@.len(),
                app == self.application.name@,
                messages_view(out@) == rows_as_messages(app, updates_view(updates@.subrange(0, i as int))),
                stamped(out@, now),
            decreases updates@.len() - i,
        {
            let u: &LineUpdate = &updates[i];
            let m = Message::Data(DataMessage::new(u.row.clone(), self.application.clone(), u.replace_last_row, now));
            let ghost before = out@;
            out.push(m);
            assert(updates@.subrange(0, i + 1) =~= updates@.subrange(0, i as int).push(updates@[i as int]));
            assert(messages_view(out@) =~= messages_view(before).push(m@));
            assert(updates_view(updates@.subrange(0, i + 1)) =~= updates_view(updates@.subrange(0, i as int)).push(updates@[i as int]@));
            assert(rows_as_messages(app, updates_view(updates@.subrange(0, i + 1))) =~= rows_as_messages(app, updates_view(updates@.subrange(0, i as int))).push(m@));
            i = i + 1;
        }
        assert(updates@.subrange(0, updates@.len() as int) =~= updates@);
        out
    }

    /// A read returned nothing and the path was looked at again at `now`. If the file
    /// was deleted or replaced, the tracker drops it and announces the
    /// removal; otherwise the writer is only slow and nothing changes.
    pub fn on_end_of_file(&mut self, probe: FileProbe, now: Timestamp) -> (r: Vec<Message>)
        ensures
            (final(self)@, messages_view(r@)) == next(old(self)@, TrackerInput::EndOfFile(probe)),
            stamped(r@, now),
    {
        let mut out: Vec<Message> = Vec::new();
        let rotated = match &self.source {
            Some(f) => match probe {
                FileProbe::Missing => true,
                FileProbe::Present(now) => now != f.created,
            },
            None => false,
        };
        if rotated {
            let m = self.system(SystemMessages::FileRemoved, now);
            self.source = None;
            self.assembler = LineAssembler::new();
            out.push(m);
            assert(messages_view(out@) =~= seq![signal(self@.application, SystemMessages::FileRemoved)]);
        } else {
            assert(messages_view(out@) =~= Seq::<MessageView>::empty());
        }
        out
    }
}

/// Whether the tracker is reading a file that `probe` shows to be gone.
pub open spec fn is_removal(t: TrackerView, probe: FileProbe) -> bool {
    match t.source {
        Some((_, created)) => is_rotated(created, probe),
        None => false,
    }
}

/// Whether an input opens a file.
pub open spec fn is_open(input: TrackerInput) -> bool {
    input is Opened
}

/// Rotation: once the file being read is deleted or replaced, exactly one
/// `FileRemoved` is queued, nothing at all while no file is open, and exactly
/// one `NewFileFound` when the replacement is opened; the replacement is
/// then read from a fresh assembler, so nothing read from the old file is
/// emitted again.
pub proof fn lemma_rotation(
    t: TrackerView,
    probe: FileProbe,
    waiting: Seq<TrackerInput>,
    path: Seq<char>,
    created: FileTime,
)
    requires
        t.started,
        is_removal(t, probe),
        forall|k: int| 0 <= k < waiting.len() ==> !is_open(#[trigger] waiting[k]),
    ensures
        ({
            let inputs = seq![TrackerInput::EndOfFile(probe)] + waiting + seq![TrackerInput::Opened(path, created)];
            let (u, out) = run(t, inputs);
            &&& out == seq![
                signal(t.application, SystemMessages::FileRemoved),
                signal(t.application, SystemMessages::NewFileFound),
            ]
            &&& u.source == Some((path, created))
            &&& u.pending == initial_pending()
            &&& u.application == t.application
        }),
{
    lemma_waiting(t, probe, waiting);
    let inputs = seq![TrackerInput::EndOfFile(probe)] + waiting + seq![TrackerInput::Opened(path, created)];
    assert(inputs.drop_last() =~= seq![TrackerInput::EndOfFile(probe)] + waiting);
}

/// While no file is open, nothing but opening a file changes the tracker or
/// queues a message.
proof fn lemma_waiting(t: TrackerView, probe: FileProbe, waiting: Seq<TrackerInput>)
    requires
        is_removal(t, probe),
        forall|k: int| 0 <= k < waiting.len() ==> !is_open(#[trigger] waiting[k]),
    ensures
        run(t, seq![TrackerInput::EndOfFile(probe)] + waiting) == (
            TrackerView { source: None, pending: initial_pending(), ..t },
            seq![signal(t.application, SystemMessages::FileRemoved)],
        ),
    decreases waiting.len(),
{
    let inputs = seq![TrackerInput::EndOfFile(probe)] + waiting;
    if waiting.len() == 0 {
        assert(inputs =~= seq![TrackerInput::EndOfFile(probe)]);
        assert(inputs.drop_last() =~= Seq::<TrackerInput>::empty());
        assert(run(t, inputs.drop_last()) == (t, Seq::<MessageView>::empty()));
        assert(seq![signal(t.application, SystemMessages::FileRemoved)] =~= Seq::<MessageView>::empty() + seq![signal(t.application, SystemMessages::FileRemoved)]);
    } else {
        let shorter = waiting.drop_last();
        assert forall|k: int| 0 <= k < shorter.len() implies !is_open(#[trigger] shorter[k]) by {
            assert(shorter[k] == waiting[k]);
        }
        lemma_waiting(t, probe, shorter);
        assert(inputs.drop_last() =~= seq![TrackerInput::EndOfFile(probe)] + shorter);
        assert(!is_open(waiting[waiting.len() - 1]));
        assert(inputs.last() == waiting.last());
        let out = seq![signal(t.application, SystemMessages::FileRemoved)];
        let removed = TrackerView { source: None, pending: initial_pending(), ..t };
        assert(next(removed, waiting.last()) == (removed, Seq::<MessageView>::empty())) by {
            match waiting.last() {
                TrackerInput::Opened(..) => {},
                TrackerInput::Chunk(_) => {},
                TrackerInput::EndOfFile(_) => {},
            }
        }
        assert(out + Seq::<MessageView>::empty() =~= out);
    }
}

/// The state after a sequence of inputs is the state after its parts in turn.
pub proof fn lemma_run_append(t: TrackerView, a: Seq<TrackerInput>, b: Seq<TrackerInput>)
    ensures
        run(t, a + b) == (run(run(t, a).0, b).0, run(t, a).1 + run(run(t, a).0, b).1),
    decreases b.len(),
{
    if b.len() == 0 {
        assert(a + b =~= a);
        assert(run(t, a).1 + Seq::<MessageView>::empty() =~= run(t, a).1);
    } else {
        lemma_run_append(t, a, b.drop_last());
        assert((a + b).drop_last() =~= a + b.drop_last());
        assert((a + b).last() == b.last());
        let mid = run(t, a);
        let rest = run(mid.0, b.drop_last());
        let last = next(rest.0, b.last());
        assert(mid.1 + rest.1 + last.1 =~= mid.1 + (rest.1 + last.1));
    }
}

/// The inputs that report each of `chunks` as read, in order.
pub open spec fn chunk_inputs(chunks: Seq<Seq<char>>) -> Seq<TrackerInput> {
    chunks.map_values(|c: Seq<char>| TrackerInput::Chunk(c))
}

/// While a file is read, its chunks emit exactly the assembler's rows.
pub proof fn lemma_reading(t: TrackerView, chunks: Seq<Seq<char>>)
    requires
        t.source is Some,
    ensures
        run(t, chunk_inputs(chunks)) == (
            TrackerView { pending: feed_all(t.pending, chunks).0, ..t },
            rows_as_messages(t.application, feed_all(t.pending, chunks).1),
        ),
    decreases chunks.len(),
{
    if chunks.len() == 0 {
        assert(chunk_inputs(chunks) =~= Seq::<TrackerInput>::empty());
        assert(rows_as_messages(t.application, Seq::<UpdateView>::empty()) =~= Seq::<MessageView>::empty());
        assert(TrackerView { pending: t.pending, ..t } == t);
    } else {
        lemma_reading(t, chunks.drop_last());
        assert(chunk_inputs(chunks).drop_last() =~= chunk_inputs(chunks.drop_last()));
        assert(chunk_inputs(chunks).last() == TrackerInput::Chunk(chunks.last()));
        let (q, before) = feed_all(t.pending, chunks.drop_last());
        let (r, last) = feed(q, chunks.last());
        assert(rows_as_messages(t.application, before + last) =~= rows_as_messages(t.application, before)
            + rows_as_messages(t.application, last));
    }
}

/// Rotation, and what follows: once the file being read is deleted or
/// replaced, exactly one `FileRemoved` is queued, nothing while no file is
/// open, exactly one `NewFileFound` when the replacement is opened, and then
/// exactly the rows that a fresh assembler makes of the replacement's chunks,
/// the first of which is a fresh row. Nothing of the old file is emitted
/// again.
pub proof fn lemma_rotation_then_rows(
    t: TrackerView,
    probe: FileProbe,
    waiting: Seq<TrackerInput>,
    path: Seq<char>,
    created: FileTime,
    chunks: Seq<Seq<char>>,
)
    requires
        t.started,
        is_removal(t, probe),
        forall|k: int| 0 <= k < waiting.len() ==> !is_open(#[trigger] waiting[k]),
    ensures
        ({
            let rotation = seq![TrackerInput::EndOfFile(probe)] + waiting + seq![TrackerInput::Opened(path, created)];
            let rows = rows_as_messages(t.application, feed_all(initial_pending(), chunks).1);
            &&& run(t, rotation + chunk_inputs(chunks)).1 == seq![
                signal(t.application, SystemMessages::FileRemoved),
                signal(t.application, SystemMessages::NewFileFound),
            ] + rows
            &&& rows.len() > 0 ==> rows[0] matches MessageView::Data { replace_last_row: false, .. }
        }),
{
    let rotation = seq![TrackerInput::EndOfFile(probe)] + waiting + seq![TrackerInput::Opened(path, created)];
    lemma_rotation(t, probe, waiting, path, created);
    lemma_run_append(t, rotation, chunk_inputs(chunks));
    let u = run(t, rotation).0;
    lemma_reading(u, chunks);
    lemma_first_row_fresh(initial_pending(), chunks);
}

/// The kinds of the signals among `out`, in order.
pub open spec fn signal_kinds(out: Seq<MessageView>) -> Seq<SystemMessages>
    decreases out.len(),
{
    if out.len() == 0 {
        Seq::empty()
    } else {
        let before = signal_kinds(out.drop_last());
        match out.last() {
            MessageView::System { kind, .. } => before.push(kind),
            _ => before,
        }
    }
}

proof fn lemma_signal_kinds_append(a: Seq<MessageView>, b: Seq<MessageView>)
    ensures
        signal_kinds(a + b) == signal_kinds(a) + signal_kinds(b),
    decreases b.len(),
{
    if b.len() == 0 {
        assert(a + b =~= a);
        assert(signal_kinds(a) + Seq::<SystemMessages>::empty() =~= signal_kinds(a));
    } else {
        lemma_signal_kinds_append(a, b.drop_last());
        assert((a + b).drop_last() =~= a + b.drop_last());
        assert((a + b).last() == b.last());
        let x = signal_kinds(a);
        let y = signal_kinds(b.drop_last());
        match b.last() {
            MessageView::System { kind, .. } => {
                assert((x + y).push(kind) =~= x + y.push(kind));
            },
            _ => {},
        }
    }
}

proof fn lemma_rows_carry_no_signal(application: Seq<char>, updates: Seq<UpdateView>)
    ensures
        signal_kinds(rows_as_messages(application, updates)) == Seq::<SystemMessages>::empty(),
    decreases updates.len(),
{
    if updates.len() > 0 {
        lemma_rows_carry_no_signal(application, updates.drop_last());
        assert(rows_as_messages(application, updates).drop_last() =~= rows_as_messages(
            application,
            updates.drop_last(),
        ));
    }
}

/// The `i`-th signal that a tracker queues: tailing starts, then removals
/// and new files alternate.
pub open spec fn protocol_kind(i: int) -> SystemMessages {
    if i == 0 {
        SystemMessages::TailingStarted
    } else if i % 2 == 1 {
        SystemMessages::FileRemoved
    } else {
        SystemMessages::NewFileFound
    }
}

/// Whatever it is told, a fresh tracker's signals read `TailingStarted`,
/// then `FileRemoved` and `NewFileFound` in turn: never two removals without
/// a new file between them. A file is open exactly when the number of
/// signals so far is odd.
pub proof fn lemma_signal_alternation(t: TrackerView, inputs: Seq<TrackerInput>)
    requires
        !t.started,
        t.source is None,
    ensures
        ({
            let (u, out) = run(t, inputs);
            let kinds = signal_kinds(out);
            &&& forall|i: int| 0 <= i < kinds.len() ==> #[trigger] kinds[i] == protocol_kind(i)
            &&& (u.source is Some <==> kinds.len() % 2 == 1)
            &&& (u.started <==> kinds.len() > 0)
            &&& u.application == t.application
        }),
    decreases inputs.len(),
{
    if inputs.len() == 0 {
        assert(signal_kinds(Seq::<MessageView>::empty()) =~= Seq::<SystemMessages>::empty());
    } else {
        lemma_signal_alternation(t, inputs.drop_last());
        let (u, before) = run(t, inputs.drop_last());
        let (v, last) = next(u, inputs.last());
        let k0 = signal_kinds(before);
        lemma_signal_kinds_append(before, last);
        match inputs.last() {
            TrackerInput::Opened(path, created) => {
                if u.source is None {
                    let kind = if u.started {
                        SystemMessages::NewFileFound
                    } else {
                        SystemMessages::TailingStarted
                    };
                    assert(last == seq![signal(t.application, kind)]);
                    assert(last.drop_last() =~= Seq::<MessageView>::empty());
                    assert(signal_kinds(last.drop_last()) == Seq::<SystemMessages>::empty());
                    assert(last.last() == signal(t.application, kind));
                    assert(signal_kinds(last) =~= seq![kind]);
                    assert(protocol_kind(k0.len() as int) == kind);
                } else {
                    assert(signal_kinds(last) =~= Seq::<SystemMessages>::empty());
                }
            },
            TrackerInput::Chunk(text) => {
                if u.source is Some {
                    lemma_rows_carry_no_signal(u.application, feed(u.pending, text).1);
                } else {
                    assert(signal_kinds(last) =~= Seq::<SystemMessages>::empty());
                }
            },
            TrackerInput::EndOfFile(probe) => {
                if is_removal(u, probe) {
                    assert(last == seq![signal(t.application, SystemMessages::FileRemoved)]);
                    assert(last.drop_last() =~= Seq::<MessageView>::empty());
                    assert(signal_kinds(last.drop_last()) == Seq::<SystemMessages>::empty());
                    assert(last.last() == signal(t.application, SystemMessages::FileRemoved));
                    assert(signal_kinds(last) =~= seq![SystemMessages::FileRemoved]);
                } else {
                    assert(signal_kinds(last) =~= Seq::<SystemMessages>::empty());
                }
            },
        }
        let kinds = signal_kinds(before + last);
        assert forall|i: int| 0 <= i < kinds.len() implies #[trigger] kinds[i] == protocol_kind(i) by {
            if i < k0.len() {
                assert(kinds[i] == k0[i]);
            }
        }
    }
}

} // verus!

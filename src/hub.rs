//! The relay's broadcast hub: which producer's fan-out channel serves each
//! application, when a producer must pause or resume, and how a subscriber's
//! stream is framed.
//!
//! Channels themselves live with the caller; the registry knows each by the
//! identifier the caller gave it.

use vstd::prelude::*;
use crate::message::{Application, Message, SystemMessages};

verus! {

/// The channel registered under `name`, in a list of entries where a later
/// entry shadows an earlier one.
pub open spec fn lookup(entries: Seq<(Seq<char>, u64)>, name: Seq<char>) -> Option<u64>
    decreases entries.len(),
{
    if entries.len() == 0 {
        None
    } else if entries.last().0 == name {
        Some(entries.last().1)
    } else {
        lookup(entries.drop_last(), name)
    }
}

/// No two entries share a name.
pub open spec fn names_unique(entries: Seq<(Seq<char>, u64)>) -> bool {
    forall|i: int, j: int|
        0 <= i < j < entries.len() ==> #[trigger] entries[i].0 != #[trigger] entries[j].0
}

pub open spec fn as_map(entries: Seq<(Seq<char>, u64)>) -> Map<Seq<char>, u64> {
    Map::new(|name: Seq<char>| lookup(entries, name) is Some, |name: Seq<char>| lookup(entries, name)->0)
}

proof fn lemma_lookup_absent(entries: Seq<(Seq<char>, u64)>, name: Seq<char>)
    requires
        forall|i: int| 0 <= i < entries.len() ==> #[trigger] entries[i].0 != name,
    ensures
        lookup(entries, name) is None,
    decreases entries.len(),
{
    if entries.len() > 0 {
        let shorter = entries.drop_last();
        assert forall|i: int| 0 <= i < shorter.len() implies #[trigger] shorter[i].0 != name by {
            assert(shorter[i] == entries[i]);
        }
        lemma_lookup_absent(shorter, name);
    }
}

proof fn lemma_lookup_below(entries: Seq<(Seq<char>, u64)>, name: Seq<char>, bound: u64)
    requires
        forall|i: int| 0 <= i < entries.len() ==> #[trigger] entries[i].1 < bound,
    ensures
        lookup(entries, name) matches Some(c) ==> c < bound,
    decreases entries.len(),
{
    if entries.len() > 0 {
        let shorter = entries.drop_last();
        assert forall|i: int| 0 <= i < shorter.len() implies #[trigger] shorter[i].1 < bound by {
            assert(shorter[i] == entries[i]);
        }
        lemma_lookup_below(shorter, name, bound);
    }
}

proof fn lemma_lookup_at(entries: Seq<(Seq<char>, u64)>, i: int)
    requires
        names_unique(entries),
        0 <= i < entries.len(),
    ensures
        lookup(entries, entries[i].0) == Some(entries[i].1),
    decreases entries.len(),
{
    if i < entries.len() - 1 {
        let shorter = entries.drop_last();
        assert(entries[i].0 != entries[entries.len() - 1].0);
        assert(shorter[i] == entries[i]);
        lemma_lookup_at(shorter, i);
    }
}

proof fn lemma_lookup_update(entries: Seq<(Seq<char>, u64)>, i: int, channel: u64, name: Seq<char>)
    requires
        names_unique(entries),
        0 <= i < entries.len(),
    ensures
        lookup(entries.update(i, (entries[i].0, channel)), name) == (if name == entries[i].0 {
            Some(channel)
        } else {
            lookup(entries, name)
        }),
    decreases entries.len(),
{
    let updated = entries.update(i, (entries[i].0, channel));
    if i < entries.len() - 1 {
        let shorter = entries.drop_last();
        assert(updated.drop_last() =~= shorter.update(i, (entries[i].0, channel)));
        assert(shorter[i] == entries[i]);
        assert(entries[i].0 != entries[entries.len() - 1].0);
        lemma_lookup_update(shorter, i, channel, name);
    } else {
        assert(updated.drop_last() =~= entries.drop_last());
    }
}

proof fn lemma_lookup_remove(entries: Seq<(Seq<char>, u64)>, i: int, name: Seq<char>)
    requires
        names_unique(entries),
        0 <= i < entries.len(),
    ensures
        lookup(entries.remove(i), name) == (if name == entries[i].0 {
            None
        } else {
            lookup(entries, name)
        }),
    decreases entries.len(),
{
    let removed = entries.remove(i);
    if i < entries.len() - 1 {
        let shorter = entries.drop_last();
        assert(removed.drop_last() =~= shorter.remove(i));
        assert(removed.last() == entries.last());
        assert(shorter[i] == entries[i]);
        assert(entries[i].0 != entries[entries.len() - 1].0);
        lemma_lookup_remove(shorter, i, name);
    } else {
        assert(removed =~= entries.drop_last());
        if name == entries[i].0 {
            assert forall|j: int| 0 <= j < removed.len() implies #[trigger] removed[j].0 != name by {
                assert(removed[j] == entries[j]);
            }
            lemma_lookup_absent(removed, name);
        }
    }
}

struct RegistryEntry {
    name: String,
    channel: u64,
}

/// The failures of the hub.
#[derive(Clone, Copy, Debug, PartialEq, Eq, Structural)]
pub enum HubError {
    /// No producer is registered for the application.
    NoSuchApplication,
    /// Every channel identifier has been handed out.
    ChannelsExhausted,
}

/// A producer's registration: its fresh channel, and the channel of the
/// producer it displaced, if any.
#[derive(Clone, Copy, Debug, PartialEq, Eq, Structural)]
pub struct Attached {
    pub channel: u64,
    pub replaced: Option<u64>,
}

/// Application name to the identifier of its producer's fan-out channel.
/// One entry per application: a producer that attaches for an application
/// already present takes its entry over.
pub struct Registry {
    entries: Vec<RegistryEntry>,
    next_channel: u64,
}

impl View for Registry {
    type V = Map<Seq<char>, u64>;

    closed spec fn view(&self) -> Map<Seq<char>, u64> {
        as_map(self.entry_seq())
    }
}

impl Registry {
    closed spec fn entry_seq(&self) -> Seq<(Seq<char>, u64)> {
        self.entries@.map_values(|e: RegistryEntry| (e.name@, e.channel))
    }

    /// The identifier that the next producer gets.
    pub closed spec fn spec_next_channel(&self) -> u64 {
        self.next_channel
    }

    /// No application has two entries, and every registered channel was
    /// handed out before the next one.
    pub closed spec fn wf(&self) -> bool {
        &&& names_unique(self.entry_seq())
        &&& forall|i: int| 0 <= i < self.entries@.len() ==> #[trigger] self.entries@[i].channel < self.next_channel
    }

    fn find(&self, name: &str) -> (r: Option<usize>)
        requires
            self.wf(),
        ensures
            match r {
                Some(i) => i < self.entries@.len() && self.entry_seq()[i as int].0 == name@,
                None => forall|i: int| 0 <= i < self.entries@.len() ==> #[trigger] self.entry_seq()[i].0 != name@,
            },
    {
        let key = String::from_str(name);
        let mut i: usize = 0;
        while i < self.entries.len()
            invariant
                i <= self.entries@.len(),
                key@ == name@,
                forall|j: int| 0 <= j < i ==> #[trigger] self.entry_seq()[j].0 != name@,
            decreases self.entries@.len() - i,
        {
            if self.entries[i].name == key {
                return Some(i);
            }
            i = i + 1;
        }
        None
    }

    pub fn new() -> (r: Registry)
        ensures
            r.wf(),
            r@ == Map::<Seq<char>, u64>::empty(),
            r.spec_next_channel() == 0,
    {
        let r = Registry { entries: Vec::new(), next_channel: 0 };
        assert(r@ =~= Map::<Seq<char>, u64>::empty());
        r
    }

    /// Number of registered applications.
    pub fn len(&self) -> (r: usize)
        requires
            self.wf(),
        ensures
            r == self@.len(),
    {
        proof {
            self.lemma_domain();
        }
        self.entries.len()
    }

    proof fn lemma_domain(&self)
        requires
            self.wf(),
        ensures
            self@.dom().len() == self.entries@.len(),
            self@.dom() == self.entry_seq().map_values(|e: (Seq<char>, u64)| e.0).to_set(),
    {
        let s = self.entry_seq();
        let names = s.map_values(|e: (Seq<char>, u64)| e.0);
        assert forall|k: Seq<char>| #[trigger] self@.dom().contains(k) <==> names.to_set().contains(k) by {
            if names.to_set().contains(k) {
                let i = choose|i: int| 0 <= i < names.len() && names[i] == k;
                lemma_lookup_at(s, i);
            }
            if !names.to_set().contains(k) {
                assert forall|i: int| 0 <= i < s.len() implies #[trigger] s[i].0 != k by {
                    assert(names[i] == s[i].0);
                }
                lemma_lookup_absent(s, k);
            }
        }
        assert(self@.dom() =~= names.to_set());
        assert(names.no_duplicates()) by {
            assert forall|i: int, j: int| 0 <= i < names.len() && 0 <= j < names.len() && i != j
                implies names[i] != names[j] by {
                if i < j {
                    assert(s[i].0 != s[j].0);
                } else {
                    assert(s[j].0 != s[i].0);
                }
            }
        }
        names.unique_seq_to_set();
    }

    /// Inserts the entry of `application`, or overwrites it if one was there.
    /// Returns the channel it replaced.
    fn attach(&mut self, application: &Application, channel: u64) -> (r: Option<u64>)
        requires
            old(self).wf(),
            channel < old(self).next_channel,
        ensures
            final(self).wf(),
            final(self).next_channel == old(self).next_channel,
            final(self)@ == old(self)@.insert(application.name@, channel),
            r == (if old(self)@.contains_key(application.name@) {
                Some(old(self)@[application.name@])
            } else {
                None
            }),
    {
        let ghost name = application.name@;
        let ghost before = self.entry_seq();
        match self.find(application.name()) {
            Some(i) => {
                let previous = self.entries[i].channel;
                proof {
                    lemma_lookup_at(before, i as int);
                }
                let entry = RegistryEntry { name: application.name.clone(), channel };
                self.entries.set(i, entry);
                assert(self.entry_seq() =~= before.update(i as int, (before[i as int].0, channel)));
                assert forall|k: Seq<char>| true implies lookup(self.entry_seq(), k) == (if k == name {
                    Some(channel)
                } else {
                    lookup(before, k)
                }) by {
                    lemma_lookup_update(before, i as int, channel, k);
                }
                assert(self@ =~= as_map(before).insert(name, channel));
                Some(previous)
            },
            None => {
                proof {
                    lemma_lookup_absent(before, name);
                }
                self.entries.push(RegistryEntry { name: application.name.clone(), channel });
                assert(self.entry_seq() =~= before.push((name, channel)));
                assert(self.entry_seq().drop_last() =~= before);
                assert(self@ =~= as_map(before).insert(name, channel));
                None
            },
        }
    }

    /// A producer attached for `application`: it gets a channel identifier
    /// that no registered producer holds, and its entry is inserted, or takes
    /// over the one that was there.
    pub fn attach_producer(&mut self, application: &Application) -> (r: Result<Attached, HubError>)
        requires
            old(self).wf(),
        ensures
            final(self).wf(),
            match r {
                Ok(a) => {
                    &&& old(self).spec_next_channel() < u64::MAX
                    &&& a.channel == old(self).spec_next_channel()
                    &&& final(self).spec_next_channel() == a.channel + 1
                    &&& forall|k: Seq<char>| #[trigger] old(self)@.contains_key(k) ==> old(self)@[k] != a.channel
                    &&& final(self)@ == old(self)@.insert(application.name@, a.channel)
                    &&& a.replaced == (if old(self)@.contains_key(application.name@) {
                        Some(old(self)@[application.name@])
                    } else {
                        None
                    })
                },
                Err(e) => {
                    &&& old(self).spec_next_channel() == u64::MAX
                    &&& e == HubError::ChannelsExhausted
                    &&& *final(self) == *old(self)
                },
            },
    {
        if self.next_channel == u64::MAX {
            return Err(HubError::ChannelsExhausted);
        }
        let channel = self.next_channel;
        proof {
            assert forall|k: Seq<char>| #[trigger] self@.contains_key(k) implies self@[k] != channel by {
                assert forall|i: int| 0 <= i < self.entry_seq().len() implies #[trigger] self.entry_seq()[i].1
                    < channel by {
                    assert(self.entries@[i].channel < self.next_channel);
                }
                lemma_lookup_below(self.entry_seq(), k, channel);
            }
        }
        self.next_channel = channel + 1;
        let replaced = self.attach(application, channel);
        Ok(Attached { channel, replaced })
    }

    /// A subscriber asks for `application`: the channel to receive from, or
    /// an error if no producer is registered for it. Nothing is created.
    pub fn subscribe(&self, application: &str) -> (r: Result<u64, HubError>)
        requires
            self.wf(),
        ensures
            r == (if self@.contains_key(application@) {
                Ok(self@[application@])
            } else {
                Err(HubError::NoSuchApplication)
            }),
    {
        match self.find(application) {
            Some(i) => {
                proof {
                    lemma_lookup_at(self.entry_seq(), i as int);
                }
                Ok(self.entries[i].channel)
            },
            None => {
                proof {
                    lemma_lookup_absent(self.entry_seq(), application@);
                }
                Err(HubError::NoSuchApplication)
            },
        }
    }

    /// The producer that owns `channel` died: its entry is removed if it
    /// still holds that channel. An entry that a newer producer took over is
    /// left alone. Returns whether an entry was removed.
    pub fn detach(&mut self, application: &str, channel: u64) -> (r: bool)
        requires
            old(self).wf(),
        ensures
            final(self).wf(),
            r == (old(self)@.contains_key(application@) && old(self)@[application@] == channel),
            final(self)@ == (if r {
                old(self)@.remove(application@)
            } else {
                old(self)@
            }),
    {
        let ghost before = self.entry_seq();
        match self.find(application) {
            Some(i) => {
                proof {
                    lemma_lookup_at(before, i as int);
                }
                if self.entries[i].channel == channel {
                    self.entries.remove(i);
                    assert(self.entry_seq() =~= before.remove(i as int));
                    assert forall|k: Seq<char>| true implies lookup(self.entry_seq(), k) == (if k
                        == application@ {
                        None
                    } else {
                        lookup(before, k)
                    }) by {
                        lemma_lookup_remove(before, i as int, k);
                    }
                    assert(self@ =~= as_map(before).remove(application@));
                    true
                } else {
                    false
                }
            },
            None => {
                proof {
                    lemma_lookup_absent(before, application@);
                }
                false
            },
        }
    }
}


/// What a producer connection's flow control sees: a frame arriving, or the
/// timer that rechecks the subscriber count; each with the live subscriber
/// count at that moment. A frame carries an identifier of the caller's.
pub enum FlowInput {
    Frame(nat, nat),
    Tick(nat),
}

/// What flow control does: send a signal to the producer, or forward a frame
/// to the subscribers.
pub enum FlowOutput {
    Signal(SystemMessages),
    Forward(nat),
}

pub open spec fn subscribers_of(input: FlowInput) -> nat {
    match input {
        FlowInput::Frame(count, _) => count,
        FlowInput::Tick(count) => count,
    }
}

/// One step, from whether the producer is paused.
pub open spec fn flow_next(paused: bool, input: FlowInput) -> (bool, Seq<FlowOutput>) {
    let count = subscribers_of(input);
    let signal = if count == 0 && !paused {
        seq![FlowOutput::Signal(SystemMessages::Pause)]
    } else if count > 0 && paused {
        seq![FlowOutput::Signal(SystemMessages::Resume)]
    } else {
        Seq::empty()
    };
    let forward = match input {
        FlowInput::Frame(_, id) => if count > 0 {
            seq![FlowOutput::Forward(id)]
        } else {
            Seq::empty()
        },
        FlowInput::Tick(_) => Seq::empty(),
    };
    (count == 0, signal + forward)
}

pub open spec fn flow_run(paused: bool, inputs: Seq<FlowInput>) -> (bool, Seq<FlowOutput>)
    decreases inputs.len(),
{
    if inputs.len() == 0 {
        (paused, Seq::empty())
    } else {
        let (p, before) = flow_run(paused, inputs.drop_last());
        let (q, last) = flow_next(p, inputs.last());
        (q, before + last)
    }
}

proof fn lemma_flow_run_append(paused: bool, a: Seq<FlowInput>, b: Seq<FlowInput>)
    ensures
        flow_run(paused, a + b) == (
            flow_run(flow_run(paused, a).0, b).0,
            flow_run(paused, a).1 + flow_run(flow_run(paused, a).0, b).1,
        ),
    decreases b.len(),
{
    if b.len() == 0 {
        assert(a + b =~= a);
        assert(flow_run(paused, a).1 + Seq::<FlowOutput>::empty() =~= flow_run(paused, a).1);
    } else {
        lemma_flow_run_append(paused, a, b.drop_last());
        assert((a + b).drop_last() =~= a + b.drop_last());
        assert((a + b).last() == b.last());
        let mid = flow_run(paused, a);
        let rest = flow_run(mid.0, b.drop_last());
        let last = flow_next(rest.0, b.last());
        assert(mid.1 + rest.1 + last.1 =~= mid.1 + (rest.1 + last.1));
    }
}

/// A quiet window: however long nobody subscribes and however many frames
/// arrive, a producer that was forwarding is sent `Pause` exactly once, on
/// entry, and one already paused is sent nothing; no `Resume` is sent and no
/// frame is forwarded.
pub proof fn lemma_quiet_window(paused: bool, inputs: Seq<FlowInput>)
    requires
        inputs.len() > 0,
        forall|k: int| 0 <= k < inputs.len() ==> subscribers_of(#[trigger] inputs[k]) == 0,
    ensures
        flow_run(paused, inputs).0,
        flow_run(paused, inputs).1 == (if paused {
            Seq::<FlowOutput>::empty()
        } else {
            seq![FlowOutput::Signal(SystemMessages::Pause)]
        }),
    decreases inputs.len(),
{
    let shorter = inputs.drop_last();
    assert(subscribers_of(inputs[inputs.len() - 1]) == 0);
    assert(flow_next(true, inputs.last()).1 =~= Seq::<FlowOutput>::empty());
    if shorter.len() > 0 {
        assert forall|k: int| 0 <= k < shorter.len() implies subscribers_of(#[trigger] shorter[k]) == 0 by {
            assert(shorter[k] == inputs[k]);
        }
        lemma_quiet_window(paused, shorter);
        let before = flow_run(paused, shorter).1;
        assert(before + Seq::<FlowOutput>::empty() =~= before);
    } else {
        assert(flow_next(paused, inputs.last()).1 =~= flow_run(paused, inputs).1);
    }
}

/// While somebody subscribes, no signal is sent after the first step, and
/// every frame is forwarded.
proof fn lemma_busy_window(paused: bool, inputs: Seq<FlowInput>)
    requires
        forall|k: int| 0 <= k < inputs.len() ==> subscribers_of(#[trigger] inputs[k]) > 0,
    ensures
        !paused && inputs.len() > 0 ==> !flow_run(paused, inputs).0,
        !paused ==> flow_run(paused, inputs).1 == forwarded(inputs),
    decreases inputs.len(),
{
    if inputs.len() > 0 {
        let shorter = inputs.drop_last();
        assert forall|k: int| 0 <= k < shorter.len() implies subscribers_of(#[trigger] shorter[k]) > 0 by {
            assert(shorter[k] == inputs[k]);
        }
        lemma_busy_window(paused, shorter);
        assert(subscribers_of(inputs[inputs.len() - 1]) > 0);
        if !paused {
            assert(!flow_run(paused, shorter).0);
            let last = inputs.last();
            assert(flow_next(false, last).1 =~= forward_of(last)) by {
                match last {
                    FlowInput::Frame(_, _) => {},
                    FlowInput::Tick(_) => {},
                }
            }
        }
    }
}

/// The forwards that a frame input makes while a subscriber listens.
pub open spec fn forward_of(input: FlowInput) -> Seq<FlowOutput> {
    match input {
        FlowInput::Frame(_, id) => seq![FlowOutput::Forward(id)],
        FlowInput::Tick(_) => Seq::empty(),
    }
}

/// Every frame of `inputs`, forwarded in order.
pub open spec fn forwarded(inputs: Seq<FlowInput>) -> Seq<FlowOutput>
    decreases inputs.len(),
{
    if inputs.len() == 0 {
        Seq::empty()
    } else {
        forwarded(inputs.drop_last()) + forward_of(inputs.last())
    }
}

/// Flow control: a forwarding producer whose subscribers all leave is told
/// `Pause` exactly once however long nobody listens, and `Resume` exactly
/// once when a subscriber arrives; the frames that came while nobody
/// listened are never forwarded, the ones after are, in order.
pub proof fn lemma_pause_then_resume(quiet: Seq<FlowInput>, busy: Seq<FlowInput>)
    requires
        quiet.len() > 0,
        busy.len() > 0,
        forall|k: int| 0 <= k < quiet.len() ==> subscribers_of(#[trigger] quiet[k]) == 0,
        forall|k: int| 0 <= k < busy.len() ==> subscribers_of(#[trigger] busy[k]) > 0,
    ensures
        flow_run(false, quiet + busy).1 == seq![
            FlowOutput::Signal(SystemMessages::Pause),
            FlowOutput::Signal(SystemMessages::Resume),
        ] + forwarded(busy),
        !flow_run(false, quiet + busy).0,
{
    lemma_quiet_window(false, quiet);
    lemma_flow_run_append(false, quiet, busy);
    let first = seq![busy[0]];
    let rest = busy.subrange(1, busy.len() as int);
    assert(busy =~= first + rest);
    lemma_flow_run_append(true, first, rest);
    assert(first.drop_last() =~= Seq::<FlowInput>::empty());
    assert(subscribers_of(busy[0]) > 0);
    assert forall|k: int| 0 <= k < rest.len() implies subscribers_of(#[trigger] rest[k]) > 0 by {
        assert(rest[k] == busy[k + 1]);
    }
    lemma_busy_window(false, rest);
    lemma_forwarded_append(first, rest);
    assert(forwarded(first) =~= forward_of(busy[0])) by {
        assert(forwarded(first.drop_last()) =~= Seq::<FlowOutput>::empty());
    }
    assert(flow_next(true, busy[0]).1 =~= seq![FlowOutput::Signal(SystemMessages::Resume)] + forward_of(busy[0])) by {
        match busy[0] {
            FlowInput::Frame(_, _) => {},
            FlowInput::Tick(_) => {},
        }
    }
    assert(first.last() == busy[0]);
    assert(flow_run(true, first.drop_last()) == (true, Seq::<FlowOutput>::empty()));
    assert(flow_run(true, first).1 =~= Seq::<FlowOutput>::empty() + flow_next(true, busy[0]).1);
    assert(!flow_run(true, first).0);
    if rest.len() == 0 {
        assert(flow_run(false, rest).1 =~= Seq::<FlowOutput>::empty());
    }
    assert(flow_run(false, quiet + busy).1 =~= seq![
        FlowOutput::Signal(SystemMessages::Pause),
        FlowOutput::Signal(SystemMessages::Resume),
    ] + forwarded(busy));
}

proof fn lemma_forwarded_append(a: Seq<FlowInput>, b: Seq<FlowInput>)
    ensures
        forwarded(a + b) == forwarded(a) + forwarded(b),
    decreases b.len(),
{
    if b.len() == 0 {
        assert(a + b =~= a);
        assert(forwarded(a) + Seq::<FlowOutput>::empty() =~= forwarded(a));
    } else {
        lemma_forwarded_append(a, b.drop_last());
        assert((a + b).drop_last() =~= a + b.drop_last());
        assert((a + b).last() == b.last());
        assert(forwarded(a) + forwarded(b.drop_last()) + forward_of(b.last()) =~= forwarded(a) + (
        forwarded(b.drop_last()) + forward_of(b.last())));
    }
}

/// What to do with one frame from the producer.
pub struct FrameDecision {
    /// A signal to send to the producer first, if any.
    pub signal: Option<SystemMessages>,
    /// Whether to forward the frame to the subscribers.
    pub forward: bool,
}

/// Per-producer flow control: active (forwarding) or paused (discarding).
pub struct FlowControl {
    paused: bool,
}

impl FlowControl {
    pub closed spec fn is_paused(&self) -> bool {
        self.paused
    }

    /// A producer that was just told `Start`.
    pub fn new() -> (r: FlowControl)
        ensures
            !r.is_paused(),
    {
        FlowControl { paused: false }
    }

    pub fn paused(&self) -> (r: bool)
        ensures
            r == self.is_paused(),
    {
        self.paused
    }

    fn observe(&mut self, subscribers: u64) -> (r: Option<SystemMessages>)
        ensures
            final(self).is_paused() == (subscribers == 0),
            r == (if subscribers == 0 && !old(self).is_paused() {
                Some(SystemMessages::Pause)
            } else if subscribers > 0 && old(self).is_paused() {
                Some(SystemMessages::Resume)
            } else {
                None
            }),
    {
        let r = if subscribers == 0 && !self.paused {
            Some(SystemMessages::Pause)
        } else if subscribers > 0 && self.paused {
            Some(SystemMessages::Resume)
        } else {
            None
        };
        self.paused = subscribers == 0;
        r
    }

    /// The recheck timer fired with `subscribers` listening: a signal to send,
    /// if the producer must change state.
    pub fn on_tick(&mut self, subscribers: u64) -> (r: Option<SystemMessages>)
        ensures
            final(self).is_paused() == (subscribers == 0),
            r == (if subscribers == 0 && !old(self).is_paused() {
                Some(SystemMessages::Pause)
            } else if subscribers > 0 && old(self).is_paused() {
                Some(SystemMessages::Resume)
            } else {
                None
            }),
            (final(self).is_paused(), signals_of(r)) == flow_next(old(self).is_paused(), FlowInput::Tick(subscribers as nat)),
    {
        let r = self.observe(subscribers);
        assert(signals_of(r) =~= flow_next(old(self).is_paused(), FlowInput::Tick(subscribers as nat)).1);
        r
    }

    /// A frame arrived with `subscribers` listening.
    pub fn on_frame(&mut self, subscribers: u64) -> (r: FrameDecision)
        ensures
            final(self).is_paused() == (subscribers == 0),
            r.signal == (if subscribers == 0 && !old(self).is_paused() {
                Some(SystemMessages::Pause)
            } else if subscribers > 0 && old(self).is_paused() {
                Some(SystemMessages::Resume)
            } else {
                None
            }),
            r.forward == (subscribers > 0),
            forall|id: nat| (final(self).is_paused(), #[trigger] decision_outputs(r, id)) == flow_next(
                old(self).is_paused(),
                FlowInput::Frame(subscribers as nat, id),
            ),
    {
        let signal = self.observe(subscribers);
        let r = FrameDecision { signal, forward: subscribers > 0 };
        assert forall|id: nat| #[trigger] decision_outputs(r, id) == flow_next(
            old(self).is_paused(),
            FlowInput::Frame(subscribers as nat, id),
        ).1 by {
            assert(decision_outputs(r, id) =~= flow_next(
                old(self).is_paused(),
                FlowInput::Frame(subscribers as nat, id),
            ).1);
        }
        r
    }
}

pub open spec fn signals_of(s: Option<SystemMessages>) -> Seq<FlowOutput> {
    match s {
        Some(k) => seq![FlowOutput::Signal(k)],
        None => Seq::empty(),
    }
}

pub open spec fn decision_outputs(d: FrameDecision, id: nat) -> Seq<FlowOutput> {
    signals_of(d.signal) + if d.forward {
        seq![FlowOutput::Forward(id)]
    } else {
        Seq::<FlowOutput>::empty()
    }
}

/// The text of one subscriber event carrying `payload`.
pub open spec fn event_text(payload: Seq<char>) -> Seq<char> {
    "data: "@ + payload + "\n\n"@
}

/// Frames `payload` as one subscriber event: `data: <payload>` and a blank
/// line.
pub fn event_frame(payload: &str) -> (r: String)
    ensures
        r@ == event_text(payload@),
{
    String::from_str("data: ").concat(payload).concat("\n\n")
}

/// The event that reports a channel error to a subscriber.
pub fn error_event(error: &str) -> (r: String)
    ensures
        r@ == event_text("Error: "@ + error@),
{
    let payload = String::from_str("Error: ").concat(error);
    event_frame(payload.as_str())
}

/// What a subscriber's stream does with one message from the channel.
pub enum StreamStep {
    /// Send this event and go on.
    Emit(String),
    /// Send this event, then end the stream.
    EmitAndEnd(String),
}

/// Turns one message, whose wire encoding is `encoded`, into the subscriber's
/// next event; the relay's `ClientDisconnect` sentinel is the stream's last.
pub fn subscriber_step(message: &Message, encoded: &str) -> (r: StreamStep)
    ensures
        match r {
            StreamStep::Emit(e) => !(message is ClientDisconnect) && e@ == event_text(encoded@),
            StreamStep::EmitAndEnd(e) => message is ClientDisconnect && e@ == event_text(encoded@),
        },
{
    let event = event_frame(encoded);
    match message {
        Message::ClientDisconnect => StreamStep::EmitAndEnd(event),
        _ => StreamStep::Emit(event),
    }
}

/// A frame that a producer sent to the relay, by kind.
#[derive(Clone, Copy, Debug, PartialEq, Eq, Structural)]
pub enum RelayFrame {
    Text,
    Binary,
    Ping,
    Pong,
    Close,
    ProtocolError,
}

/// What the relay does with a producer's frame.
#[derive(Clone, Copy, Debug, PartialEq, Eq, Structural)]
pub enum RelayAction {
    /// Decode the text as a message and publish it on the fan-out channel;
    /// text that does not decode is dropped.
    Publish,
    /// Send the binary payload back.
    Echo,
    /// Answer with a pong.
    Pong,
    /// The producer closed the connection.
    Close,
    Ignore,
}

pub fn relay_action(frame: RelayFrame) -> (r: RelayAction)
    ensures
        r == (match frame {
            RelayFrame::Text => RelayAction::Publish,
            RelayFrame::Binary => RelayAction::Echo,
            RelayFrame::Ping => RelayAction::Pong,
            RelayFrame::Close => RelayAction::Close,
            _ => RelayAction::Ignore,
        }),
{
    match frame {
        RelayFrame::Text => RelayAction::Publish,
        RelayFrame::Binary => RelayAction::Echo,
        RelayFrame::Ping => RelayAction::Pong,
        RelayFrame::Close => RelayAction::Close,
        _ => RelayAction::Ignore,
    }
}

} // verus!

//! Turns raw text chunks into logical rows with replace/append semantics.
//!
//! A chunk is scanned for line terminators. Each stretch of text that ends at
//! a terminator is emitted, even an empty one (a blank line, or the
//! terminator that completes a row already shown); the stretch after the
//! last terminator is emitted when it is not empty. A stretch is emitted as
//! a fresh row when the previous emission ended at a terminator, otherwise as
//! the previous row extended by it, which replaces that row in place.

use vstd::prelude::*;

verus! {

/// The state between chunks: the row emitted last, and whether it ended at a
/// line terminator.
pub struct PendingView {
    pub content: Seq<char>,
    pub terminated: bool,
}

/// One emission: the row text and whether it replaces the row emitted last.
pub type UpdateView = (Seq<char>, bool);

/// The state in which nothing has been read yet.
pub open spec fn initial_pending() -> PendingView {
    PendingView { content: Seq::empty(), terminated: true }
}

/// Emits one terminator-free stretch of text.
pub open spec fn feed_segment(p: PendingView, seg: Seq<char>) -> (PendingView, Seq<UpdateView>) {
    if p.terminated {
        (PendingView { content: seg, terminated: false }, seq![(seg, false)])
    } else {
        let joined = p.content + seg;
        (PendingView { content: joined, terminated: false }, seq![(joined, true)])
    }
}

/// Scans `s` from state `p`, where `seg` is the part of the current stretch
/// that was seen before `s`.
pub open spec fn scan(p: PendingView, seg: Seq<char>, s: Seq<char>) -> (PendingView, Seq<UpdateView>)
    decreases s.len(),
{
    if s.len() == 0 {
        if seg.len() == 0 {
            (p, Seq::empty())
        } else {
            feed_segment(p, seg)
        }
    } else if s[0] == '\n' {
        let (q, first) = feed_segment(p, seg);
        let (r, rest) = scan(
            PendingView { content: q.content, terminated: true },
            Seq::empty(),
            s.drop_first(),
        );
        (r, first + rest)
    } else {
        scan(p, seg.push(s[0]), s.drop_first())
    }
}

/// The state after a chunk, and the rows it emits.
pub open spec fn feed(p: PendingView, chunk: Seq<char>) -> (PendingView, Seq<UpdateView>) {
    scan(p, Seq::empty(), chunk)
}

/// One emitted row.
pub struct LineUpdate {
    pub row: String,
    pub replace_last_row: bool,
}

impl View for LineUpdate {
    type V = UpdateView;

    open spec fn view(&self) -> UpdateView {
        (self.row@, self.replace_last_row)
    }
}

pub open spec fn updates_view(v: Seq<LineUpdate>) -> Seq<UpdateView> {
    v.map_values(|u: LineUpdate| u@)
}

/// The incremental line assembler.
pub struct LineAssembler {
    content: String,
    terminated: bool,
}

impl View for LineAssembler {
    type V = PendingView;

    closed spec fn view(&self) -> PendingView {
        PendingView { content: self.content@, terminated: self.terminated }
    }
}

impl LineAssembler {
    pub fn new() -> (r: LineAssembler)
        ensures
            r@ == initial_pending(),
    {
        LineAssembler { content: String::new(), terminated: true }
    }

    /// Whether the row emitted last ended at a line terminator.
    pub fn is_terminated(&self) -> (r: bool)
        ensures
            r == self@.terminated,
    {
        self.terminated
    }

    /// Emits one terminator-free stretch.
    fn emit_segment(&mut self, seg: String, out: &mut Vec<LineUpdate>)
        ensures
            final(self)@ == feed_segment(old(self)@, seg@).0,
            updates_view(final(out)@) == updates_view(old(out)@) + feed_segment(old(self)@, seg@).1,
    {
        let ghost before = out@;
        if self.terminated {
            let row = seg.clone();
            self.content = seg;
            self.terminated = false;
            out.push(LineUpdate { row, replace_last_row: false });
        } else {
            let joined = self.content.clone().concat(seg.as_str());
            self.content = joined.clone();
            out.push(LineUpdate { row: joined, replace_last_row: true });
        }
        assert(updates_view(out@) =~= updates_view(before) + feed_segment(old(self)@, seg@).1);
    }

    /// Feeds one chunk; returns the rows it emits, in order.
    pub fn push_chunk(&mut self, chunk: &str) -> (r: Vec<LineUpdate>)
        ensures
            final(self)@ == feed(old(self)@, chunk@).0,
            updates_view(r@) == feed(old(self)@, chunk@).1,
    {
        let n = chunk.unicode_len();
        let mut out: Vec<LineUpdate> = Vec::new();
        let mut start: usize = 0;
        let mut i: usize = 0;
        let ghost total = feed(self@, chunk@);
        assert(chunk@.subrange(0, 0) =~= Seq::<char>::empty());
        assert(chunk@.subrange(0, n as int) =~= chunk@);
        while i < n
            invariant
                n == chunk@.len(),
                start <= i <= n,
                total.0 == scan(self@, chunk@.subrange(start as int, i as int), chunk@.subrange(i as int, n as int)).0,
                total.1 == updates_view(out@) + scan(self@, chunk@.subrange(start as int, i as int), chunk@.subrange(i as int, n as int)).1,
            decreases n - i,
        {
            let c = chunk.get_char(i);
            let ghost seg = chunk@.subrange(start as int, i as int);
            let ghost rest = chunk@.subrange(i as int, n as int);
            assert(rest[0] == c);
            assert(rest.drop_first() =~= chunk@.subrange(i + 1, n as int));
            if c == '\n' {
                let seg_str = String::from_str(chunk.substring_char(start, i));
                self.emit_segment(seg_str, &mut out);
                self.terminated = true;
                assert(chunk@.subrange(i + 1, i + 1) =~= Seq::<char>::empty());
                start = i + 1;
            } else {
                assert(seg.push(c) =~= chunk@.subrange(start as int, i + 1));
            }
            i = i + 1;
        }
        assert(chunk@.subrange(i as int, n as int) =~= Seq::<char>::empty());
        if start < n {
            let seg_str = String::from_str(chunk.substring_char(start, n));
            self.emit_segment(seg_str, &mut out);
        }
        assert(updates_view(out@) =~= total.1);
        out
    }
}

/// The text of a chunk up to its first line terminator.
pub open spec fn first_piece(s: Seq<char>) -> Seq<char>
    decreases s.len(),
{
    if s.len() == 0 || s[0] == '\n' {
        Seq::empty()
    } else {
        seq![s[0]] + first_piece(s.drop_first())
    }
}

/// After a line terminator the assembler starts over: whatever row came
/// before, the next chunk emits the same rows; a non-empty chunk emits at
/// least one, and the first is a fresh row holding the chunk's text up to its
/// first terminator, never a replacement.
pub proof fn lemma_restart_after_terminator(p: PendingView, q: PendingView, chunk: Seq<char>)
    requires
        p.terminated,
        q.terminated,
    ensures
        feed(p, chunk).1 == feed(q, chunk).1,
        chunk.len() > 0 ==> feed(p, chunk).1.len() > 0 && feed(p, chunk).1[0] == (first_piece(chunk), false),
        chunk.len() == 0 ==> feed(p, chunk) == (p, Seq::<UpdateView>::empty()),
{
    lemma_scan_restart(p, q, Seq::empty(), chunk);
    if chunk.len() > 0 {
        lemma_scan_first(p, Seq::empty(), chunk);
        assert(Seq::<char>::empty() + first_piece(chunk) =~= first_piece(chunk));
    }
}

proof fn lemma_scan_restart(p: PendingView, q: PendingView, seg: Seq<char>, s: Seq<char>)
    requires
        p.terminated,
        q.terminated,
    ensures
        scan(p, seg, s).1 == scan(q, seg, s).1,
        scan(p, seg, s).0.terminated == scan(q, seg, s).0.terminated,
        scan(p, seg, s).0.terminated || scan(p, seg, s).0 == scan(q, seg, s).0,
    decreases s.len(),
{
    if s.len() == 0 {
    } else if s[0] == '\n' {
        let p2 = PendingView { content: feed_segment(p, seg).0.content, terminated: true };
        let q2 = PendingView { content: feed_segment(q, seg).0.content, terminated: true };
        lemma_scan_restart(p2, q2, Seq::empty(), s.drop_first());
    } else {
        lemma_scan_restart(p, q, seg.push(s[0]), s.drop_first());
    }
}

proof fn lemma_scan_first(p: PendingView, seg: Seq<char>, s: Seq<char>)
    requires
        p.terminated,
        seg.len() + s.len() > 0,
    ensures
        scan(p, seg, s).1.len() > 0,
        scan(p, seg, s).1[0] == (seg + first_piece(s), false),
    decreases s.len(),
{
    if s.len() == 0 {
        assert(seg + first_piece(s) =~= seg);
    } else if s[0] == '\n' {
        assert(seg + first_piece(s) =~= seg);
    } else {
        lemma_scan_first(p, seg.push(s[0]), s.drop_first());
        assert(seg.push(s[0]) + first_piece(s.drop_first()) =~= seg + first_piece(s));
    }
}

/// A chunk emits nothing only when it is empty, and then changes nothing.
pub proof fn lemma_silent_chunk(p: PendingView, chunk: Seq<char>)
    ensures
        feed(p, chunk).1.len() == 0 <==> chunk.len() == 0,
        chunk.len() == 0 ==> feed(p, chunk).0 == p,
{
    if chunk.len() > 0 {
        lemma_scan_emits(p, Seq::empty(), chunk);
    }
}

proof fn lemma_scan_emits(p: PendingView, seg: Seq<char>, s: Seq<char>)
    requires
        seg.len() + s.len() > 0,
    ensures
        scan(p, seg, s).1.len() > 0,
    decreases s.len(),
{
    if s.len() > 0 && s[0] != '\n' {
        lemma_scan_emits(p, seg.push(s[0]), s.drop_first());
    }
}

/// The state after a sequence of chunks, and every row they emit.
pub open spec fn feed_all(p: PendingView, chunks: Seq<Seq<char>>) -> (PendingView, Seq<UpdateView>)
    decreases chunks.len(),
{
    if chunks.len() == 0 {
        (p, Seq::empty())
    } else {
        let (q, before) = feed_all(p, chunks.drop_last());
        let (r, last) = feed(q, chunks.last());
        (r, before + last)
    }
}

/// From a state after a terminator, the first row that any sequence of
/// chunks emits is fresh; until a row is emitted the state does not change.
pub proof fn lemma_first_row_fresh(p: PendingView, chunks: Seq<Seq<char>>)
    requires
        p.terminated,
    ensures
        feed_all(p, chunks).1.len() == 0 ==> feed_all(p, chunks).0 == p,
        feed_all(p, chunks).1.len() > 0 ==> !feed_all(p, chunks).1[0].1,
    decreases chunks.len(),
{
    if chunks.len() > 0 {
        lemma_first_row_fresh(p, chunks.drop_last());
        let (q, before) = feed_all(p, chunks.drop_last());
        lemma_silent_chunk(q, chunks.last());
        if before.len() == 0 {
            lemma_restart_after_terminator(q, q, chunks.last());
            assert(before + feed(q, chunks.last()).1 =~= feed(q, chunks.last()).1);
        } else {
            assert((before + feed(q, chunks.last()).1)[0] == before[0]);
        }
    }
}

} // verus!

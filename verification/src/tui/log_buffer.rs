//! Recording formatted log lines into a bounded ring buffer for the TUI's log
//! pane.
//!
//! Under `--ui` the stderr layer is suppressed (it would corrupt the rendered
//! interface); the buffer captures the same events the mux already emits and
//! the interface renders them. The buffer is bounded so a long-running session
//! cannot grow it without limit — older lines are dropped (fail-visibly,
//! oldest-first; we do not try to persist the full history here).

use std::collections::VecDeque;

use vstd::prelude::*;
use vstd::string::*;

use crate::level::Level;

verus! {

/// One captured event: its level (so the operator view can filter by verbosity),
/// its target (so adapter stderr can be shown distinctly from the mux's own
/// logs), and the rendered text (message plus appended `key=value` fields).
#[derive(Debug)]
pub struct LogLine {
    pub level: Level,
    pub target: String,
    pub text: String,
}

/// What a [`LogLine`] says.
#[verifier::ext_equal]
pub struct LineView {
    pub level: Level,
    pub target: Seq<char>,
    pub text: Seq<char>,
}

impl View for LogLine {
    type V = LineView;

    open spec fn view(&self) -> LineView {
        LineView { level: self.level, target: self.target@, text: self.text@ }
    }
}

impl Clone for LogLine {
    fn clone(&self) -> (res: Self)
        ensures
            res@ == self@,
    {
        LogLine { level: self.level, target: self.target.clone(), text: self.text.clone() }
    }
}

/// What a sequence of lines says.
pub open spec fn lines_view(lines: Seq<LogLine>) -> Seq<LineView> {
    lines.map_values(|line: LogLine| line@)
}

/// The last `count` items, or all where there are no more.
pub open spec fn most_recent<A>(items: Seq<A>, count: nat) -> Seq<A> {
    if items.len() <= count {
        items
    } else {
        items.skip(items.len() - count)
    }
}

/// A bounded buffer of captured log lines.
#[derive(Debug)]
pub struct LogBuffer {
    lines: VecDeque<LogLine>,
    capacity: usize,
}

impl View for LogBuffer {
    type V = Seq<LineView>;

    closed spec fn view(&self) -> Seq<LineView> {
        lines_view(self.lines@)
    }
}

impl LogBuffer {
    /// How many lines the buffer retains at most.
    pub closed spec fn limit(&self) -> nat {
        self.capacity as nat
    }

    /// Create a buffer retaining at most `capacity` most-recent lines.
    pub fn new(capacity: usize) -> (res: Self)
        ensures
            res@ == Seq::<LineView>::empty(),
            res.limit() == capacity,
    {
        let res = LogBuffer { lines: VecDeque::new(), capacity };
        assert(res@ =~= Seq::empty());
        res
    }

    /// Add a line; the oldest lines leave where there are too many.
    pub fn push(&mut self, line: LogLine)
        ensures
            final(self)@ == most_recent(old(self)@.push(line@), old(self).limit()),
            final(self)@.len() <= final(self).limit(),
            final(self).limit() == old(self).limit(),
    {
        self.lines.push_back(line);
        let ghost all = self@;
        let ghost mut gone: int = 0;
        assert(all =~= old(self)@.push(line@));
        assert(all.skip(0) =~= all);
        while self.lines.len() > self.capacity
            invariant
                self.capacity == old(self).capacity,
                0 <= gone <= all.len(),
                gone > 0 ==> all.len() - gone >= self.capacity,
                self@ == all.skip(gone),
            decreases self.lines@.len(),
        {
            let ghost before = self@;
            let _ = self.lines.pop_front();
            proof {
                assert(self@ =~= before.skip(1));
                gone = gone + 1;
                assert(self@ =~= all.skip(gone));
            }
        }
        assert(self@.len() == self.lines@.len());
    }

    /// Snapshot of the retained lines, oldest first.
    pub fn lines(&self) -> (res: Vec<LogLine>)
        ensures
            lines_view(res@) == self@,
    {
        let mut res: Vec<LogLine> = Vec::new();
        let mut i: usize = 0;
        while i < self.lines.len()
            invariant
                i <= self.lines@.len(),
                res@.len() == i,
                forall|j: int| 0 <= j < i ==> (#[trigger] res@[j])@ == self.lines@[j]@,
            decreases self.lines@.len() - i,
        {
            res.push(self.lines[i].clone());
            i += 1;
        }
        assert(lines_view(res@) =~= self@);
        res
    }

    /// Number of retained lines.
    pub fn len(&self) -> (res: usize)
        ensures
            res == self@.len(),
    {
        self.lines.len()
    }

    /// Whether the buffer holds no lines.
    pub fn is_empty(&self) -> (res: bool)
        ensures
            res == (self@.len() == 0),
    {
        self.lines.len() == 0
    }
}

/// Renders an event into a `message` plus appended `key=value` fields.
#[derive(Debug)]
pub struct LineVisitor {
    message: String,
    fields: String,
}

/// What a [`LineVisitor`] has rendered.
#[verifier::ext_equal]
pub struct VisitorView {
    pub message: Seq<char>,
    pub fields: Seq<char>,
}

impl VisitorView {
    /// With one more field rendered: the message takes the place of an earlier
    /// one, any other field is appended.
    pub open spec fn recorded(self, name: Seq<char>, value: Seq<char>) -> VisitorView {
        if name == "message"@ {
            VisitorView { message: value, ..self }
        } else {
            VisitorView { fields: self.fields + " "@ + name + "="@ + value, ..self }
        }
    }
}

impl View for LineVisitor {
    type V = VisitorView;

    closed spec fn view(&self) -> VisitorView {
        VisitorView { message: self.message@, fields: self.fields@ }
    }
}

impl Default for LineVisitor {
    fn default() -> (res: Self)
        ensures
            res@ == (VisitorView { message: Seq::empty(), fields: Seq::empty() }),
    {
        LineVisitor { message: String::new(), fields: String::new() }
    }
}

impl LineVisitor {
    /// Record a field whose value is a text.
    pub fn record_str(&mut self, name: &str, value: &str)
        ensures
            final(self)@ == old(self)@.recorded(name@, value@),
    {
        if name.eq("message") {
            self.message = value.to_owned();
        } else {
            self.fields.append(" ");
            self.fields.append(name);
            self.fields.append("=");
            self.fields.append(value);
        }
    }

    /// Record a field of any other type, given its value as it is formatted for
    /// debugging.
    pub fn record_debug(&mut self, name: &str, formatted: &str)
        ensures
            final(self)@ == old(self)@.recorded(name@, formatted@),
    {
        self.record_str(name, formatted);
    }
}

/// Formats each event into a [`LogBuffer`].
#[derive(Debug)]
pub struct LogBufferLayer {
    buffer: LogBuffer,
}

impl View for LogBufferLayer {
    type V = LogBuffer;

    closed spec fn view(&self) -> LogBuffer {
        self.buffer
    }
}

impl LogBufferLayer {
    pub fn new(buffer: LogBuffer) -> (res: Self)
        ensures
            res@ == buffer,
    {
        LogBufferLayer { buffer }
    }

    /// Capture an event, given its level, its target and its rendered fields.
    pub fn on_event(&mut self, level: Level, target: &str, visitor: LineVisitor)
        ensures
            final(self)@@ == most_recent(
                old(self)@@.push(
                    LineView { level, target: target@, text: visitor@.message + visitor@.fields },
                ),
                old(self)@.limit(),
            ),
            final(self)@.limit() == old(self)@.limit(),
    {
        let mut text = visitor.message;
        text.append(visitor.fields.as_str());
        self.buffer.push(LogLine { level, target: target.to_owned(), text });
    }

    /// The buffer that events are captured in.
    pub fn buffer(&self) -> (res: &LogBuffer)
        ensures
            *res == self@,
    {
        &self.buffer
    }
}

// ---------------------------------------------------------------------------
// Laws
// ---------------------------------------------------------------------------

/// What a buffer of `capacity` that holds `held` holds after `items` are added,
/// one at a time.
pub open spec fn after_adding<A>(held: Seq<A>, items: Seq<A>, capacity: nat) -> Seq<A>
    decreases items.len(),
{
    if items.len() == 0 {
        held
    } else {
        most_recent(after_adding(held, items.drop_last(), capacity).push(items.last()), capacity)
    }
}

/// Adding one line drops nothing while there is room, and the oldest line and
/// no other once the buffer is full; a buffer without capacity holds nothing.
pub proof fn lemma_only_the_oldest_is_dropped<A>(held: Seq<A>, item: A, capacity: nat)
    requires
        held.len() <= capacity,
    ensures
        held.len() < capacity ==> most_recent(held.push(item), capacity) == held.push(item),
        held.len() == capacity && capacity > 0 ==> most_recent(held.push(item), capacity)
            == held.skip(1).push(item),
        capacity == 0 ==> most_recent(held.push(item), capacity) == Seq::<A>::empty(),
{
    let kept = most_recent(held.push(item), capacity);
    if held.len() == capacity && capacity > 0 {
        assert(kept =~= held.skip(1).push(item));
    }
    if capacity == 0 {
        assert(kept =~= Seq::<A>::empty());
    }
}

/// However many lines are added, the buffer retains the most recent of all the
/// lines it ever held, in order, and as many of them as it has capacity for.
pub proof fn lemma_most_recent_of_all_is_retained<A>(held: Seq<A>, items: Seq<A>, capacity: nat)
    requires
        held.len() <= capacity,
    ensures
        after_adding(held, items, capacity) == most_recent(held + items, capacity),
        after_adding(held, items, capacity).len() == (if held.len() + items.len() <= capacity {
            held.len() + items.len()
        } else {
            capacity
        }),
    decreases items.len(),
{
    if items.len() == 0 {
        assert(held + items =~= held);
    } else {
        let earlier = items.drop_last();
        lemma_most_recent_of_all_is_retained(held, earlier, capacity);
        assert((held + earlier).push(items.last()) =~= held + items);
        let before = most_recent(held + earlier, capacity);
        assert(most_recent(before.push(items.last()), capacity) =~= most_recent(
            held + items,
            capacity,
        ));
    }
}

/// Keeping the most recent items leaves out the first ones, and no others: as
/// many as there are too many.
pub proof fn lemma_most_recent<A>(items: Seq<A>, count: nat)
    ensures
        items.len() <= count ==> most_recent(items, count) == items,
        items.len() > count ==> most_recent(items, count).len() == count,
        items.len() > count ==> items.take(items.len() - count) + most_recent(items, count)
            == items,
{
    if items.len() > count {
        assert(items.take(items.len() - count) + most_recent(items, count) =~= items);
    }
}

/// The message of an event is the latest one recorded, and every other field is
/// added to the end as a space, its name, an equals sign and its value; neither
/// touches the other.
pub proof fn lemma_fields_are_rendered(visitor: VisitorView, name: Seq<char>, value: Seq<char>)
    ensures
        visitor.recorded("message"@, value) == (VisitorView {
            message: value,
            fields: visitor.fields,
        }),
        name != "message"@ ==> visitor.recorded(name, value) == (VisitorView {
            message: visitor.message,
            fields: visitor.fields + (seq![' '] + name + seq!['='] + value),
        }),
{
    reveal_strlit(" ");
    reveal_strlit("=");
    assert(visitor.fields + " "@ + name + "="@ + value =~= visitor.fields + (seq![' '] + name + seq![
        '=',
    ] + value));
}

/// What a sequence of log lines says, line by line.
pub proof fn lemma_lines_view(lines: Seq<LogLine>, i: int)
    requires
        0 <= i < lines.len(),
    ensures
        lines_view(lines).len() == lines.len(),
        lines_view(lines)[i].level == lines[i].level,
        lines_view(lines)[i].target == lines[i].target@,
        lines_view(lines)[i].text == lines[i].text@,
{
}

} // verus!

//! The bounded message log that the presentation layer reads.

use vstd::prelude::*;
use crate::color::Color;

verus! {

/// Number of lines the log keeps when built with `MessageLog::standard`.
pub const MSG_HEIGHT: usize = 6;

/// One logged line as the contracts see it.
pub struct Line {
    pub text: Seq<char>,
    pub color: Color,
}

/// The log as the contracts see it: the lines, oldest first, and the bound.
pub struct LogView {
    pub lines: Seq<Line>,
    pub capacity: nat,
}

impl LogView {
    /// The log after one more line: the oldest line leaves when the log is
    /// full.
    pub open spec fn logged(self, text: Seq<char>, color: Color) -> LogView {
        let line = Line { text, color };
        if self.lines.len() >= self.capacity {
            LogView { lines: self.lines.skip(1).push(line), capacity: self.capacity }
        } else {
            LogView { lines: self.lines.push(line), capacity: self.capacity }
        }
    }

    /// The log holds at least one line and no more than its capacity.
    pub open spec fn wf(self) -> bool {
        1 <= self.capacity && self.lines.len() <= self.capacity
    }
}

/// A first-in first-out log of coloured lines with a fixed capacity.
#[derive(Debug)]
pub struct MessageLog {
    entries: Vec<(String, Color)>,
    capacity: usize,
}

impl View for MessageLog {
    type V = LogView;

    closed spec fn view(&self) -> LogView {
        LogView {
            lines: Seq::new(
                self.entries@.len(),
                |i: int| Line { text: self.entries@[i].0@, color: self.entries@[i].1 },
            ),
            capacity: self.capacity as nat,
        }
    }
}

impl MessageLog {
    /// The capacity is at least one and is never exceeded.
    pub open spec fn wf(&self) -> bool {
        self@.wf()
    }

    /// An empty log that keeps `capacity` lines.
    pub fn new(capacity: usize) -> (log: MessageLog)
        requires
            capacity >= 1,
        ensures
            log@.lines.len() == 0,
            log@.capacity == capacity,
            log.wf(),
    {
        MessageLog { entries: Vec::new(), capacity }
    }

    /// An empty log of `MSG_HEIGHT` lines.
    pub fn standard() -> (log: MessageLog)
        ensures
            log@.lines.len() == 0,
            log@.capacity == MSG_HEIGHT,
            log.wf(),
    {
        MessageLog::new(MSG_HEIGHT)
    }

    /// Number of lines in the log.
    pub fn len(&self) -> (n: usize)
        ensures
            n == self@.lines.len(),
    {
        self.entries.len()
    }

    /// Number of lines the log keeps at most.
    pub fn capacity(&self) -> (n: usize)
        ensures
            n == self@.capacity,
    {
        self.capacity
    }

    /// Text of line `i`, counted from the oldest.
    pub fn text(&self, i: usize) -> (s: String)
        requires
            i < self@.lines.len(),
        ensures
            s@ == self@.lines[i as int].text,
    {
        self.entries[i].0.clone()
    }

    /// Colour of line `i`, counted from the oldest.
    pub fn color(&self, i: usize) -> (c: Color)
        requires
            i < self@.lines.len(),
        ensures
            c == self@.lines[i as int].color,
    {
        self.entries[i].1
    }

    /// Appends a line, dropping the oldest one first when the log is full.
    pub fn push(&mut self, text: String, color: Color)
        requires
            old(self).wf(),
        ensures
            final(self)@ == old(self)@.logged(text@, color),
            final(self).wf(),
    {
        if self.entries.len() >= self.capacity {
            self.entries.remove(0);
        }
        self.entries.push((text, color));
        assert(self@.lines =~= old(self)@.logged(text@, color).lines);
    }
}

/// Appends `text` in `color` to `messages`; a full log loses its oldest
/// line.
pub fn message(messages: &mut MessageLog, text: String, color: Color)
    requires
        old(messages).wf(),
    ensures
        final(messages)@ == old(messages)@.logged(text@, color),
        final(messages).wf(),
{
    messages.push(text, color);
}

} // verus!

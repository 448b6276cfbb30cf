//! A one-line text input buffer with a character cursor, as the cell editor
//! uses it. The buffer is held as characters; movement is by one character,
//! or to the ends of the line.
use vstd::prelude::*;

use crate::text::{chars_to_string, spec_display_width, str_to_chars, str_width};

verus! {

/// An editable line of text and the cursor in it. The cursor counts
/// characters, except that jumping to the end of the line sets it to the
/// line's displayed width, the convention the original editor renders with.
#[derive(Debug)]
pub struct TextInput {
    pub buffer: Vec<char>,
    pub cursor: usize,
}

impl TextInput {
    /// The cursor points into or just past the buffer.
    pub open spec fn wf(self) -> bool {
        self.cursor <= self.buffer@.len()
    }

    /// An empty input.
    pub fn new() -> (r: TextInput)
        ensures
            r.buffer@ == Seq::<char>::empty(),
            r.cursor == 0,
            r.wf(),
    {
        TextInput { buffer: Vec::new(), cursor: 0 }
    }

    /// The buffer as text.
    pub fn text(&self) -> (r: String)
        ensures
            r@ == self.buffer@,
    {
        chars_to_string(self.buffer.as_slice())
    }

    /// Inserts a character at the cursor and steps past it.
    pub fn insert_char(&mut self, ch: char)
        requires
            old(self).wf(),
        ensures
            final (self).wf(),
            final (self).buffer@ == old(self).buffer@.insert(old(self).cursor as int, ch),
            final (self).cursor == old(self).cursor + 1,
    {
        self.buffer.insert(self.cursor, ch);
        let n = self.buffer.len();
        self.cursor = self.cursor + 1;
    }

    /// Removes the character before the cursor, when there is one.
    pub fn backspace(&mut self)
        requires
            old(self).wf(),
        ensures
            final (self).wf(),
            old(self).cursor == 0 ==> *final (self) == *old(self),
            old(self).cursor > 0 ==> final (self).buffer@ == old(self).buffer@.remove(
                old(self).cursor - 1,
            ) && final (self).cursor == old(self).cursor - 1,
    {
        if self.cursor == 0 {
            return ;
        }
        self.cursor = self.cursor - 1;
        let _ = self.buffer.remove(self.cursor);
    }

    /// Removes the character under the cursor, when there is one.
    pub fn delete(&mut self)
        requires
            old(self).wf(),
        ensures
            final (self).wf(),
            old(self).cursor == old(self).buffer@.len() ==> *final (self) == *old(self),
            old(self).cursor < old(self).buffer@.len() ==> final (self).buffer@ == old(
                self,
            ).buffer@.remove(old(self).cursor as int) && final (self).cursor == old(self).cursor,
    {
        if self.cursor == self.buffer.len() {
            return ;
        }
        let _ = self.buffer.remove(self.cursor);
    }

    /// Steps the cursor one character left; at the start it stays.
    pub fn left(&mut self)
        requires
            old(self).wf(),
        ensures
            final (self).wf(),
            final (self).buffer@ == old(self).buffer@,
            final (self).cursor == if old(self).cursor > 0 {
                old(self).cursor - 1
            } else {
                0int
            },
    {
        if self.cursor > 0 {
            self.cursor = self.cursor - 1;
        }
    }

    /// Steps the cursor one character right; at the end it stays.
    pub fn right(&mut self)
        requires
            old(self).wf(),
        ensures
            final (self).wf(),
            final (self).buffer@ == old(self).buffer@,
            final (self).cursor == if old(self).cursor < old(self).buffer@.len() {
                old(self).cursor + 1
            } else {
                old(self).cursor as int
            },
    {
        if self.cursor < self.buffer.len() {
            self.cursor = self.cursor + 1;
        }
    }

    /// Jumps to the start of the line.
    pub fn up(&mut self)
        ensures
            final (self).wf(),
            final (self).buffer@ == old(self).buffer@,
            final (self).cursor == 0,
    {
        self.cursor = 0;
    }

    /// Jumps past the end of the line: the cursor takes the buffer's
    /// displayed width, the convention the renderer positions with.
    pub fn down(&mut self)
        ensures
            final (self).buffer@ == old(self).buffer@,
            final (self).cursor == spec_display_width(old(self).buffer@),
    {
        let text = chars_to_string(self.buffer.as_slice());
        self.cursor = str_width(text.as_str());
    }

    /// Empties the buffer and rests the cursor at the start.
    pub fn clear(&mut self)
        ensures
            final (self).wf(),
            final (self).buffer@ == Seq::<char>::empty(),
            final (self).cursor == 0,
    {
        self.cursor = 0;
        self.buffer.clear();
    }

    /// Replaces the buffer with the given text, the cursor taking the
    /// text's displayed width, as jumping to the end does.
    pub fn set(&mut self, arg: &str)
        ensures
            final (self).buffer@ == arg@,
            final (self).cursor == spec_display_width(arg@),
    {
        self.buffer = str_to_chars(arg);
        self.cursor = str_width(arg);
    }

    /// The cursor's position.
    pub fn cursor(&self) -> (r: usize)
        ensures
            r == self.cursor,
    {
        self.cursor
    }

    /// Places the cursor on a character of the buffer.
    pub fn set_cursor(&mut self, cursor: usize)
        requires
            cursor < old(self).buffer@.len(),
        ensures
            final (self).wf(),
            final (self).buffer@ == old(self).buffer@,
            final (self).cursor == cursor,
    {
        self.cursor = cursor;
    }
}

} // verus!

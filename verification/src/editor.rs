//! An editing session: one buffer, the first line that is visible of it, and
//! the state machine that turns key events into changes of both.

use vstd::prelude::*;
use crate::buffer::Buffer;
use crate::grid::{cell_map, grid_cells, open_line_len, CellGrid};
use crate::text::{without_last, NEWLINE};

verus! {

/// A key event, as far as a session tells events apart.
#[derive(Clone, Copy, Debug, PartialEq, Eq, Structural)]
pub enum KeyInput {
    /// A printable character.
    Char(char),
    /// The line break key.
    Enter,
    /// The exit key.
    Esc,
    /// The delete key.
    Backspace,
    /// Move up.
    Up,
    /// Move down.
    Down,
    /// A character typed with the control modifier held.
    Ctrl(char),
    /// Any other event.
    Other,
}

/// What the host of a session has to do after an event.
#[derive(Clone, Copy, Debug, PartialEq, Eq, Structural)]
pub enum Action {
    /// Nothing: the session stays active.
    Continue,
    /// Call the persistence hook; the session stays active.
    Save,
    /// Leave the modal loop: the session has terminated.
    Exit,
}

/// What a session hands out after each event.
pub struct Update {
    /// What the host has to do.
    pub action: Action,
    /// The text of the buffer, drawn on a fresh grid.
    pub cells: CellGrid,
}

/// Where the open line of `s` starts: the position after its last line
/// terminator, 0 where `s` holds none.
pub open spec fn line_start(s: Seq<char>) -> int {
    s.len() - open_line_len(s)
}

/// `s` without its open line and without the line terminator before it.
pub open spec fn clear_line(s: Seq<char>) -> Seq<char> {
    if line_start(s) == 0 {
        Seq::empty()
    } else {
        s.take(line_start(s) - 1)
    }
}

/// The text after an event.
pub open spec fn text_after(text: Seq<char>, event: KeyInput) -> Seq<char> {
    match event {
        KeyInput::Char(c) => text.push(c),
        KeyInput::Enter => text.push(NEWLINE),
        KeyInput::Backspace => without_last(text),
        KeyInput::Ctrl(c) => if c == 'f' {
            clear_line(text)
        } else {
            text
        },
        _ => text,
    }
}

/// The scroll offset after an event.
pub open spec fn scroll_after(offset: int, event: KeyInput) -> int {
    match event {
        KeyInput::Up => if offset > 0 {
            offset - 1
        } else {
            0
        },
        KeyInput::Down => offset + 1,
        _ => offset,
    }
}

/// What the host has to do after an event.
pub open spec fn action_of(event: KeyInput) -> Action {
    match event {
        KeyInput::Esc => Action::Exit,
        KeyInput::Ctrl(c) => if c == 's' {
            Action::Save
        } else {
            Action::Continue
        },
        _ => Action::Continue,
    }
}

/// The open line lies within the text and holds no line terminator, and a
/// line terminator stands before it unless it starts the text.
pub proof fn lemma_line_start(s: Seq<char>)
    ensures
        0 <= line_start(s) <= s.len(),
        forall|j: int| line_start(s) <= j < s.len() ==> s[j] != NEWLINE,
        line_start(s) > 0 ==> s[line_start(s) - 1] == NEWLINE,
    decreases s.len(),
{
    if s.len() == 0 || s.last() == NEWLINE {
    } else {
        let t = s.drop_last();
        lemma_line_start(t);
        assert forall|j: int| line_start(s) <= j < s.len() implies s[j] != NEWLINE by {
            if j < t.len() {
                assert(s[j] == t[j]);
            }
        }
        if line_start(s) > 0 {
            assert(s[line_start(s) - 1] == t[line_start(t) - 1]);
        }
    }
}

/// An editing session on one buffer.
pub struct BufferEditor {
    buffer: Buffer,
    scroll_offset: u32,
}

impl BufferEditor {
    /// The text of the session's buffer.
    pub closed spec fn text(&self) -> Seq<char> {
        self.buffer@
    }

    /// The identifier of the storage that backs the buffer, if any.
    pub closed spec fn storage_id(&self) -> Option<String> {
        self.buffer.storage_id()
    }

    /// The first visible line.
    pub closed spec fn scroll(&self) -> int {
        self.scroll_offset as int
    }

    /// A session on `buffer`, scrolled to the top.
    pub fn new(buffer: Buffer) -> (editor: BufferEditor)
        ensures
            editor.text() == buffer@,
            editor.storage_id() == buffer.storage_id(),
            editor.scroll() == 0,
    {
        BufferEditor { buffer, scroll_offset: 0 }
    }

    /// The buffer.
    pub fn buffer(&self) -> (buffer: &Buffer)
        ensures
            buffer@ == self.text(),
            buffer.storage_id() == self.storage_id(),
    {
        &self.buffer
    }

    /// The first visible line.
    pub fn scroll_offset(&self) -> (offset: u32)
        ensures
            offset == self.scroll(),
    {
        self.scroll_offset
    }

    /// Shows one line more above: the offset goes down by one, and stays at
    /// 0 where it is 0.
    pub fn scroll_up(&mut self)
        ensures
            final(self).scroll() == (if old(self).scroll() == 0 { 0 } else { old(self).scroll() - 1 }),
            final(self).text() == old(self).text(),
            final(self).storage_id() == old(self).storage_id(),
    {
        if self.scroll_offset > 0 {
            self.scroll_offset = self.scroll_offset - 1;
        }
    }

    /// Shows one line more below: the offset goes up by one, whatever the
    /// length of the text.
    pub fn scroll_down(&mut self)
        requires
            old(self).scroll() < u32::MAX,
        ensures
            final(self).scroll() == old(self).scroll() + 1,
            final(self).text() == old(self).text(),
            final(self).storage_id() == old(self).storage_id(),
    {
        self.scroll_offset = self.scroll_offset + 1;
    }

    /// Removes the open line of the text and the line terminator before it.
    pub fn clear_line(&mut self)
        ensures
            final(self).text() == clear_line(old(self).text()),
            final(self).text().len() <= old(self).text().len(),
            final(self).scroll() == old(self).scroll(),
            final(self).storage_id() == old(self).storage_id(),
    {
        let ghost text = self.buffer@;
        proof {
            lemma_line_start(text);
            assert(text.take(text.len() as int) =~= text);
        }
        loop
            invariant_except_break
                self.buffer@ == text.take(self.buffer@.len() as int),
                line_start(text) <= self.buffer@.len() <= text.len(),
            invariant
                self.scroll_offset == old(self).scroll_offset,
                self.buffer.storage_id() == old(self).buffer.storage_id(),
                0 <= line_start(text) <= text.len(),
                forall|j: int| line_start(text) <= j < text.len() ==> text[j] != NEWLINE,
                line_start(text) > 0 ==> text[line_start(text) - 1] == NEWLINE,
            ensures
                self.buffer@ == clear_line(text),
            decreases self.buffer@.len(),
        {
            let ghost n = self.buffer@.len() as int;
            match self.buffer.pop_char() {
                Some(c) => {
                    assert(c == text[n - 1]);
                    assert(self.buffer@ =~= text.take(n - 1));
                    if c == NEWLINE {
                        break ;
                    }
                },
                None => {
                    assert(self.buffer@ =~= Seq::<char>::empty());
                    break ;
                },
            }
        }
    }

    /// The hook that the host calls once before the first event of a modal
    /// loop. It changes nothing.
    pub fn on_start(&mut self)
        ensures
            *final(self) == *old(self),
    {
    }

    /// The hook that the host calls at each tick. It changes nothing.
    pub fn on_tick(&mut self)
        ensures
            *final(self) == *old(self),
    {
    }

    /// Handles one event: changes text and scroll offset as the event asks,
    /// says what the host has to do, and draws the text afresh, whether or
    /// not the event changed anything.
    pub fn on_event(&mut self, event: KeyInput) -> (update: Update)
        requires
            old(self).text().len() < i32::MAX,
            event == KeyInput::Down ==> old(self).scroll() < u32::MAX,
        ensures
            final(self).text() == text_after(old(self).text(), event),
            final(self).scroll() == scroll_after(old(self).scroll(), event),
            final(self).storage_id() == old(self).storage_id(),
            update.action == action_of(event),
            grid_cells(update.cells) == cell_map(final(self).text()),
    {
        let mut action = Action::Continue;
        match event {
            KeyInput::Char(c) => self.buffer.push_char(c),
            KeyInput::Enter => self.buffer.push_char(NEWLINE),
            KeyInput::Esc => {
                action = Action::Exit;
            },
            KeyInput::Up => self.scroll_up(),
            KeyInput::Down => self.scroll_down(),
            KeyInput::Ctrl(c) => {
                if c == 's' {
                    action = Action::Save;
                } else if c == 'f' {
                    self.clear_line();
                }
            },
            KeyInput::Backspace => {
                self.buffer.pop_char();
            },
            KeyInput::Other => {},
        }
        let mut cells = CellGrid::new();
        self.buffer.chunkmap_from_textarea(&mut cells);
        assert(grid_cells(cells) =~= cell_map(self.buffer@));
        Update { action, cells }
    }
}

} // verus!

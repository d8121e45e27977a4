//! A text buffer: one piece of text and, where it has one, the identifier of
//! the storage that backs it.

use vstd::prelude::*;
use crate::grid::{cell_map, grid_cells, grid_insert, lemma_open_line_bound, open_line_len, CellGrid};
use crate::text::{count_of, last_char, lemma_count_of_bound, without_last, NEWLINE};

verus! {

/// `String::push` appends the given character to the end of the string.
pub assume_specification[ String::push ](s: &mut String, c: char)
    ensures
        final(s)@ == old(s)@.push(c),
;

/// `String::pop` removes the last character of the string and returns it;
/// on an empty string it returns `None` and leaves the string empty.
pub assume_specification[ String::pop ](s: &mut String) -> (r: Option<char>)
    ensures
        r == (if old(s)@.len() == 0 { None } else { Some(old(s)@.last()) }),
        final(s)@ == (if old(s)@.len() == 0 { old(s)@ } else { old(s)@.drop_last() }),
;

/// Removing after appending undoes the append: it gives back the character
/// that was appended last, and the text as it was before.
pub proof fn lemma_pop_undoes_push(text: Seq<char>, c: char)
    ensures
        last_char(text.push(c)) == Some(c),
        without_last(text.push(c)) == text,
{
    assert(text.push(c).drop_last() =~= text);
}

/// The text after `n` removals.
pub open spec fn after_pops(text: Seq<char>, n: nat) -> Seq<char>
    decreases n,
{
    if n == 0 {
        text
    } else {
        after_pops(without_last(text), (n - 1) as nat)
    }
}

/// After `added` was appended, `k` removals leave the text with all but
/// the last `k` characters of `added`.
proof fn lemma_after_pops(text: Seq<char>, added: Seq<char>, k: nat)
    requires
        k <= added.len(),
    ensures
        after_pops(text + added, k) == text + added.take(added.len() - k),
    decreases k,
{
    if k == 0 {
        assert(added.take(added.len() as int) =~= added);
    } else {
        let shorter = added.drop_last();
        assert(without_last(text + added) =~= text + shorter);
        lemma_after_pops(text, shorter, (k - 1) as nat);
        assert(shorter.take(shorter.len() - (k - 1)) =~= added.take(added.len() - k));
    }
}

/// Removals undo appends, last in, first out: after any characters were
/// appended, each removal gives back the last of them that is left, and as
/// many removals as there were appends give back the text as it was.
pub proof fn lemma_pops_undo_pushes(text: Seq<char>, added: Seq<char>)
    ensures
        after_pops(text + added, added.len()) == text,
        forall|k: nat|
            k < added.len() ==> last_char(#[trigger] after_pops(text + added, k)) == Some(
                added[added.len() - 1 - k],
            ),
{
    lemma_after_pops(text, added, added.len());
    assert(text + added.take(0) =~= text);
    assert forall|k: nat| k < added.len() implies last_char(
        #[trigger] after_pops(text + added, k),
    ) == Some(added[added.len() - 1 - k]) by {
        lemma_after_pops(text, added, k);
    }
}

/// One piece of text. Its view is the text as a sequence of characters.
pub struct Buffer {
    text: String,
    file: Option<String>,
}

impl View for Buffer {
    type V = Seq<char>;

    closed spec fn view(&self) -> Seq<char> {
        self.text@
    }
}

impl Buffer {
    /// The identifier of the backing storage, if the buffer has one.
    pub closed spec fn storage_id(&self) -> Option<String> {
        self.file
    }

    /// An empty buffer, backed by `file` where one is given.
    pub fn new(file: Option<String>) -> (buffer: Buffer)
        ensures
            buffer@ == Seq::<char>::empty(),
            buffer.storage_id() == file,
    {
        Buffer { text: String::new(), file }
    }

    /// The text.
    pub fn text(&self) -> (text: &str)
        ensures
            text@ == self@,
    {
        self.text.as_str()
    }

    /// The identifier of the backing storage, if the buffer has one.
    pub fn file(&self) -> (file: &Option<String>)
        ensures
            *file == self.storage_id(),
    {
        &self.file
    }

    /// Adds `c` to the end of the text.
    pub fn push_char(&mut self, c: char)
        ensures
            final(self)@ == old(self)@.push(c),
            final(self).storage_id() == old(self).storage_id(),
    {
        self.text.push(c);
    }

    /// Removes the last character of the text and returns it; `None`, and no
    /// change, where the text is empty.
    pub fn pop_char(&mut self) -> (removed: Option<char>)
        ensures
            removed == last_char(old(self)@),
            final(self)@ == without_last(old(self)@),
            final(self).storage_id() == old(self).storage_id(),
    {
        self.text.pop()
    }

    /// Draws the text onto `map` from the top left corner: every character,
    /// line terminators included, at the cursor of the text before it. A
    /// cell that the text does not reach keeps what it held. Coordinates
    /// are `i32`, which bounds the length of a text that can be drawn.
    pub fn chunkmap_from_textarea(&mut self, map: &mut CellGrid)
        requires
            old(self)@.len() <= i32::MAX,
        ensures
            *final(self) == *old(self),
            grid_cells(*final(map)) == grid_cells(*old(map)).union_prefer_right(cell_map(old(self)@)),
    {
        let mut line: i32 = 0;
        let mut col: i32 = 0;
        let ghost text = self@;
        assert(grid_cells(*map) =~= grid_cells(*old(map)).union_prefer_right(
            cell_map(text.take(0)),
        ));
        for c in it: self.text.as_str().chars()
            invariant
                it.seq() == text,
                text.len() <= i32::MAX,
                col == open_line_len(text.take(it.index())),
                line == count_of(text.take(it.index()), NEWLINE),
                grid_cells(*map) == grid_cells(*old(map)).union_prefer_right(
                    cell_map(text.take(it.index())),
                ),
        {
            let ghost before = text.take(it.index());
            let ghost after = text.take(it.index() + 1);
            proof {
                assert(after.drop_last() =~= before);
                assert(after.last() == c);
                lemma_open_line_bound(before);
                lemma_count_of_bound(before, NEWLINE);
            }
            grid_insert(map, col, line, c);
            col = col + 1;
            if c == NEWLINE {
                line = line + 1;
                col = 0;
            }
            assert(grid_cells(*map) =~= grid_cells(*old(map)).union_prefer_right(
                cell_map(after),
            ));
        }
        assert(text.take(text.len() as int) =~= text);
    }
}

} // verus!

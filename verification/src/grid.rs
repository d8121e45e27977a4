//! The character grid that a renderer paints, and the projection of a text
//! onto it.

use vstd::prelude::*;
use crate::text::{count_of, NEWLINE};

verus! {

/// A sparse grid of display characters, addressed by column and row. It
/// holds a `termgame::CharChunkMap`, whose element type cannot be named
/// from outside that crate; so the map is kept whole in `cells`, hidden
/// from the verifier, and known to it only through `grid_cells`. The field
/// is public so that a renderer can hand the map to `termgame`.
#[verifier::external_body]
pub struct CellGrid {
    pub cells: termgame::CharChunkMap,
}

/// The characters that a grid holds, by `(column, row)`: for each slot of
/// the `termgame::ChunkMap` that is filled, the character of what fills it.
pub uninterp spec fn grid_cells(grid: CellGrid) -> Map<(int, int), char>;

/// The grid without any cell.
pub open spec fn no_cells() -> Map<(int, int), char> {
    Map::empty()
}

/// `termgame::ChunkMap::new`: a map without chunks, so that no slot is
/// filled.
#[verifier::external_body]
pub(crate) fn grid_new() -> (grid: CellGrid)
    ensures
        grid_cells(grid) == no_cells(),
{
    CellGrid { cells: termgame::CharChunkMap::new() }
}

/// `termgame::ChunkMap::insert` of an unstyled character: the slot at
/// `(x, y)` then holds `c`, whatever it held before, and every other slot
/// is as it was. The map takes every pair of `i32` coordinates.
#[verifier::external_body]
pub(crate) fn grid_insert(grid: &mut CellGrid, x: i32, y: i32, c: char)
    ensures
        grid_cells(*final(grid)) == grid_cells(*old(grid)).insert((x as int, y as int), c),
{
    grid.cells.insert(x, y, c.into())
}

/// The length of the last, unterminated line of `s`: the number of
/// characters after its last line terminator.
pub open spec fn open_line_len(s: Seq<char>) -> nat
    decreases s.len(),
{
    if s.len() == 0 || s.last() == NEWLINE {
        0
    } else {
        open_line_len(s.drop_last()) + 1
    }
}

/// Where the character that follows `s` is drawn, as `(column, row)`: the
/// row is the number of line terminators in `s`, the column the length of
/// its open line.
pub open spec fn cursor(s: Seq<char>) -> (int, int) {
    (open_line_len(s) as int, count_of(s, NEWLINE) as int)
}

/// The cells of a text: each character, line terminators included, at the
/// cursor of the text before it.
pub open spec fn cell_map(s: Seq<char>) -> Map<(int, int), char>
    decreases s.len(),
{
    if s.len() == 0 {
        no_cells()
    } else {
        cell_map(s.drop_last()).insert(cursor(s.drop_last()), s.last())
    }
}

/// The open line is no longer than the text.
pub proof fn lemma_open_line_bound(s: Seq<char>)
    ensures
        open_line_len(s) <= s.len(),
    decreases s.len(),
{
    if s.len() > 0 && s.last() != NEWLINE {
        lemma_open_line_bound(s.drop_last());
    }
}

/// Some cell of row `r` is filled.
pub open spec fn row_occupied(cells: Map<(int, int), char>, r: int) -> bool {
    exists|c: int| cells.dom().contains((c, r))
}

/// The number of rows that a text reaches: one for each line terminator,
/// and one for its open line unless that is empty.
pub open spec fn row_count(s: Seq<char>) -> nat {
    count_of(s, NEWLINE) + if open_line_len(s) > 0 { 1nat } else { 0nat }
}

/// `a` comes before `b` in reading order.
pub open spec fn reads_before(a: (int, int), b: (int, int)) -> bool {
    a.1 < b.1 || (a.1 == b.1 && a.0 < b.0)
}

/// An empty text fills no cell.
pub proof fn lemma_empty_text_no_cells()
    ensures
        cell_map(Seq::empty()) == no_cells(),
        cell_map(Seq::empty()).dom() == Set::<(int, int)>::empty(),
{
    assert(no_cells().dom() =~= Set::<(int, int)>::empty());
}

/// The cursor moves forward in reading order as the text grows.
pub proof fn lemma_cursor_advances(s: Seq<char>, i: int, j: int)
    requires
        0 <= i < j <= s.len(),
    ensures
        reads_before(cursor(s.take(i)), cursor(s.take(j))),
    decreases j,
{
    assert(s.take(j).drop_last() =~= s.take(j - 1));
    if i < j - 1 {
        lemma_cursor_advances(s, i, j - 1);
    }
}

/// `p` is where some character of `s` is drawn: the cursor of a proper
/// prefix of `s`.
pub open spec fn is_drawn_at(s: Seq<char>, p: (int, int)) -> bool {
    exists|i: int| 0 <= i < s.len() && cursor(#[trigger] s.take(i)) == p
}

/// A cell is filled just where a character is drawn.
pub proof fn lemma_cells_are_cursors(s: Seq<char>)
    ensures
        forall|p: (int, int)| cell_map(s).dom().contains(p) <==> is_drawn_at(s, p),
    decreases s.len(),
{
    if s.len() == 0 {
        assert forall|p: (int, int)| !is_drawn_at(s, p) by {}
    } else {
        let t = s.drop_last();
        lemma_cells_are_cursors(t);
        assert(s.take(t.len() as int) =~= t);
        assert forall|p: (int, int)| cell_map(s).dom().contains(p) <==> is_drawn_at(s, p) by {
            if cell_map(s).dom().contains(p) {
                if p == cursor(t) {
                    assert(cursor(s.take(t.len() as int)) == p);
                } else {
                    assert(cell_map(t).dom().contains(p));
                    assert(is_drawn_at(t, p));
                    let i = choose|i: int| 0 <= i < t.len() && cursor(#[trigger] t.take(i)) == p;
                    assert(s.take(i) =~= t.take(i));
                }
            }
            if is_drawn_at(s, p) {
                let i = choose|i: int| 0 <= i < s.len() && cursor(#[trigger] s.take(i)) == p;
                if i < t.len() {
                    assert(s.take(i) =~= t.take(i));
                    assert(is_drawn_at(t, p));
                    assert(cell_map(t).dom().contains(p));
                }
            }
        }
    }
}

/// Every character of a text stands in the grid, at the cursor of the text
/// before it: no character is drawn over another.
pub proof fn lemma_cell_of_char(s: Seq<char>, i: int)
    requires
        0 <= i < s.len(),
    ensures
        cell_map(s).dom().contains(cursor(s.take(i))),
        cell_map(s)[cursor(s.take(i))] == s[i],
    decreases s.len(),
{
    let t = s.drop_last();
    assert(s.take(t.len() as int) =~= t);
    if i < t.len() {
        assert(s.take(i) =~= t.take(i));
        lemma_cell_of_char(t, i);
        lemma_cursor_advances(s, i, t.len() as int);
    }
}

/// The rows that a text fills are the first `row_count` rows.
pub proof fn lemma_rows_of_cell_map(s: Seq<char>)
    ensures
        forall|r: int| row_occupied(cell_map(s), r) <==> 0 <= r < row_count(s),
    decreases s.len(),
{
    if s.len() == 0 {
        assert forall|r: int| !row_occupied(cell_map(s), r) by {
            if row_occupied(cell_map(s), r) {
                let c = choose|c: int| cell_map(s).dom().contains((c, r));
                assert(cell_map(s).dom().contains((c, r)));
            }
        }
    } else {
        let t = s.drop_last();
        let at = cursor(t);
        lemma_rows_of_cell_map(t);
        assert(row_count(s) == at.1 + 1);
        assert forall|r: int| row_occupied(cell_map(s), r) <==> 0 <= r < row_count(s) by {
            if row_occupied(cell_map(s), r) {
                let c = choose|c: int| cell_map(s).dom().contains((c, r));
                if (c, r) != at {
                    assert(cell_map(t).dom().contains((c, r)));
                    assert(row_occupied(cell_map(t), r));
                }
            }
            if 0 <= r < row_count(s) {
                if r == at.1 {
                    assert(cell_map(s).dom().contains((at.0, r)));
                } else {
                    assert(row_occupied(cell_map(t), r));
                    let c = choose|c: int| cell_map(t).dom().contains((c, r));
                    assert(cell_map(s).dom().contains((c, r)));
                }
            }
        }
    }
}

/// A text that does not end in a line terminator and holds `k` of them
/// fills the rows 0 to `k`, and no other.
pub proof fn lemma_rows_span_terminators(s: Seq<char>)
    requires
        s.len() > 0,
        s.last() != NEWLINE,
    ensures
        forall|r: int| row_occupied(cell_map(s), r) <==> 0 <= r <= count_of(s, NEWLINE),
{
    lemma_rows_of_cell_map(s);
}

impl CellGrid {
    /// A grid without any cell.
    pub fn new() -> (grid: CellGrid)
        ensures
            grid_cells(grid) == no_cells(),
    {
        grid_new()
    }
}

} // verus!

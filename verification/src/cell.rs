//! One character of a line together with its colour.

use vstd::prelude::*;

verus! {

/// Colour given to characters that no style classifier has coloured.
pub const DEFAULT_COLOR: u8 = 1;

/// A character and the palette index of its foreground colour.
#[derive(Clone, Copy, Debug, PartialEq, Eq, Structural)]
pub struct Cell {
    pub ch: char,
    pub fg: u8,
}

impl Cell {
    /// The cell that shows `ch` in colour `fg`.
    pub fn new(ch: char, fg: u8) -> (cell: Cell)
        ensures
            cell == self::cell(ch, fg),
    {
        Cell { ch, fg }
    }
}

/// The characters of a row of cells.
pub open spec fn text_of(cells: Seq<Cell>) -> Seq<char> {
    cells.map_values(|cell: Cell| cell.ch)
}

/// The cell that shows `ch` in colour `fg`.
pub open spec fn cell(ch: char, fg: u8) -> Cell {
    Cell { ch, fg }
}

/// The cells of `text`, every one in colour `fg`.
pub open spec fn cells_of(text: Seq<char>, fg: u8) -> Seq<Cell> {
    text.map_values(|ch: char| cell(ch, fg))
}

/// The characters of every row.
pub open spec fn text_of_rows(rows: Seq<Seq<Cell>>) -> Seq<Seq<char>> {
    rows.map_values(|row: Seq<Cell>| text_of(row))
}

/// Appends the cells of `text`, in colour `fg`, to `row`.
pub fn push_text(row: &mut Vec<Cell>, text: &Vec<char>, fg: u8)
    ensures
        final(row)@ == old(row)@ + cells_of(text@, fg),
{
    let ghost before = row@;
    let mut i: usize = 0;
    while i < text.len()
        invariant
            i <= text.len(),
            row@.len() == before.len() + i,
            forall|j: int| 0 <= j < before.len() ==> #[trigger] row@[j] == before[j],
            forall|j: int|
                before.len() <= j < row@.len() ==> #[trigger] row@[j] == (Cell {
                    ch: text@[j - before.len()],
                    fg,
                }),
        decreases text.len() - i,
    {
        row.push(Cell::new(text[i], fg));
        i += 1;
    }
    assert(row@ =~= before + cells_of(text@, fg));
}

/// Appends the cells of `source` from `from` up to `to` to `row`.
pub fn push_cells(row: &mut Vec<Cell>, source: &Vec<Cell>, from: usize, to: usize)
    requires
        from <= to <= source.len(),
    ensures
        final(row)@ == old(row)@ + source@.subrange(from as int, to as int),
{
    let mut i: usize = from;
    while i < to
        invariant
            from <= i <= to <= source.len(),
            row@ == old(row)@ + source@.subrange(from as int, i as int),
        decreases to - i,
    {
        row.push(source[i]);
        proof {
            assert(source@.subrange(from as int, i + 1) == source@.subrange(
                from as int,
                i as int,
            ).push(source@[i as int]));
        }
        i += 1;
    }
}

} // verus!

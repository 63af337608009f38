//! The thirteen-by-thirteen grid of starting hands: pairs on the diagonal,
//! suited hands above it, offsuit hands below.

use vstd::prelude::*;

verus! {

/// Number of ranks, and of rows and columns of the grid.
pub const RANKS: u8 = 13;

/// A cell of the grid: a kind of starting hand, by the ranks of its cards.
#[derive(Clone, Copy, Debug, PartialEq, Eq, Structural)]
pub enum GridCell {
    Pair(u8),
    Suited(u8, u8),
    Offsuit(u8, u8),
}

/// The cell of a row and a column whose ranks are `rank1` and `rank2`. Ranks
/// fall as rows and columns rise, so the higher rank first means above the
/// diagonal.
pub open spec fn cell_of_ranks(rank1: u8, rank2: u8) -> GridCell {
    if rank1 == rank2 {
        GridCell::Pair(rank1)
    } else if rank1 > rank2 {
        GridCell::Suited(rank1, rank2)
    } else {
        GridCell::Offsuit(rank1, rank2)
    }
}

/// The cell that an edit at `row` and `col` changes, rows and columns
/// counted from 1: the ranks are 13 less the row and 13 less the column.
pub fn range_update(row: u8, col: u8) -> (cell: GridCell)
    requires
        row <= RANKS,
        col <= RANKS,
    ensures
        cell == cell_of_ranks((RANKS - row) as u8, (RANKS - col) as u8),
{
    let rank1 = RANKS - row;
    let rank2 = RANKS - col;
    if row == col {
        GridCell::Pair(rank1)
    } else if row < col {
        GridCell::Suited(rank1, rank2)
    } else {
        GridCell::Offsuit(rank1, rank2)
    }
}

/// The cells of the whole grid, row after row, rows and columns counted from
/// 0: the ranks are 12 less the row and 12 less the column.
pub fn range_get_weights() -> (cells: Vec<GridCell>)
    ensures
        cells@.len() == 169,
        forall|row: int, col: int|
            0 <= row < 13 && 0 <= col < 13 ==> #[trigger] cells@[row * 13 + col] == cell_of_ranks(
                (12 - row) as u8,
                (12 - col) as u8,
            ),
{
    let mut cells: Vec<GridCell> = Vec::new();
    let mut row: u8 = 0;
    while row < 13
        invariant
            row <= 13,
            cells@.len() == row * 13,
            forall|r: int, c: int|
                0 <= r < row && 0 <= c < 13 ==> #[trigger] cells@[r * 13 + c] == cell_of_ranks(
                    (12 - r) as u8,
                    (12 - c) as u8,
                ),
        decreases 13 - row,
    {
        let mut col: u8 = 0;
        while col < 13
            invariant
                row < 13,
                col <= 13,
                cells@.len() == row * 13 + col,
                forall|r: int, c: int|
                    (0 <= r < row && 0 <= c < 13) || (r == row && 0 <= c < col)
                        ==> #[trigger] cells@[r * 13 + c] == cell_of_ranks(
                        (12 - r) as u8,
                        (12 - c) as u8,
                    ),
            decreases 13 - col,
        {
            let rank1 = 12 - row;
            let rank2 = 12 - col;
            let cell = if row == col {
                GridCell::Pair(rank1)
            } else if row < col {
                GridCell::Suited(rank1, rank2)
            } else {
                GridCell::Offsuit(rank1, rank2)
            };
            cells.push(cell);
            col += 1;
        }
        row += 1;
    }
    cells
}

} // verus!

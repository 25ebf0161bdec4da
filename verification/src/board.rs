//! Rows of the board, and what settling, flagging and collapsing do to them.

use vstd::prelude::*;
use crate::pieces::PieceView;

verus! {

/// One row of the board: a cell is either empty or holds the marker of the
/// block that settled there. `full` is a cached flag that the engine refreshes
/// once per tick.
#[derive(Debug)]
pub struct BoardRow<T> {
    full: bool,
    row: Vec<Option<T>>,
}

/// The mathematical value of a `BoardRow`.
pub struct RowView<T> {
    pub full: bool,
    pub cells: Seq<Option<T>>,
}

impl<T> RowView<T> {
    /// A row of `width` empty cells, not flagged.
    pub open spec fn empty(width: nat) -> RowView<T> {
        RowView { full: false, cells: Seq::new(width, |x: int| None::<T>) }
    }

    /// Every cell of the row is occupied.
    pub open spec fn is_complete(self) -> bool {
        forall|x: int| 0 <= x < self.cells.len() ==> (#[trigger] self.cells[x]) is Some
    }

    /// The row with its flag brought up to date.
    pub open spec fn flagged(self) -> RowView<T> {
        RowView { full: self.is_complete(), ..self }
    }

    /// A row that is not flagged as full outlasts a collapse.
    pub open spec fn survives(self) -> bool {
        !self.full
    }
}

/// The rows of a board, bottom row first.
pub open spec fn rows_view<T>(rows: Seq<BoardRow<T>>) -> Seq<RowView<T>> {
    rows.map_values(|row: BoardRow<T>| row@)
}

/// Whether one of the first `n` blocks of `piece` lies in the cell at column
/// `x` of row `y`.
pub open spec fn covers_among<T>(piece: PieceView<T>, n: int, x: int, y: int) -> bool {
    exists|i: int|
        0 <= i < n && (#[trigger] piece.block(i)).x / 2 == x && piece.block(i).y / 2 == y
}

/// Whether some block of `piece` lies in the cell at column `x` of row `y`.
pub open spec fn covers<T>(piece: PieceView<T>, x: int, y: int) -> bool {
    covers_among(piece, piece.offsets.len() as int, x, y)
}

/// The board after the first `n` blocks of `piece` have been written into it.
pub open spec fn settled_among<T>(board: Seq<RowView<T>>, piece: PieceView<T>, n: int) -> Seq<
    RowView<T>,
> {
    Seq::new(
        board.len(),
        |y: int|
            RowView {
                full: board[y].full,
                cells: Seq::new(
                    board[y].cells.len(),
                    |x: int|
                        if covers_among(piece, n, x, y) {
                            Some(piece.texture)
                        } else {
                            board[y].cells[x]
                        },
                ),
            },
    )
}

/// The board after `piece` has been written into it: every cell that the
/// piece covers holds the piece's marker, every other cell is as before.
/// Blocks that lie outside the board leave no trace.
pub open spec fn settled<T>(board: Seq<RowView<T>>, piece: PieceView<T>) -> Seq<RowView<T>> {
    settled_among(board, piece, piece.offsets.len() as int)
}

/// The board with the flag of every row brought up to date.
pub open spec fn flagged<T>(board: Seq<RowView<T>>) -> Seq<RowView<T>> {
    board.map_values(|row: RowView<T>| row.flagged())
}

/// Whether some row of the board has every cell occupied.
pub open spec fn has_complete_row<T>(board: Seq<RowView<T>>) -> bool {
    exists|y: int| 0 <= y < board.len() && (#[trigger] board[y]).is_complete()
}

/// The rows that outlast a collapse, in their order.
pub open spec fn surviving<T>(board: Seq<RowView<T>>) -> Seq<RowView<T>> {
    board.filter(|row: RowView<T>| row.survives())
}

/// The number of rows below row `y` that a collapse removes.
pub open spec fn removed_below<T>(board: Seq<RowView<T>>, y: int) -> int {
    board.take(y).filter(|row: RowView<T>| row.full).len() as int
}

/// The board after the collapse: the surviving rows move down, keeping their
/// order, and as many empty rows as were removed fill the top.
pub open spec fn collapsed<T>(board: Seq<RowView<T>>, width: nat) -> Seq<RowView<T>> {
    let kept = surviving(board);
    kept + Seq::new((board.len() - kept.len()) as nat, |y: int| RowView::<T>::empty(width))
}

impl<T> View for BoardRow<T> {
    type V = RowView<T>;

    closed spec fn view(&self) -> RowView<T> {
        RowView { full: self.full, cells: self.row@ }
    }
}

impl<T: Copy> Clone for BoardRow<T> {
    fn clone(&self) -> (copy: Self)
        ensures
            copy@ == self@,
    {
        let mut row: Vec<Option<T>> = Vec::new();
        let mut x: usize = 0;
        while x < self.row.len()
            invariant
                x <= self.row.len(),
                row@ == self.row@.take(x as int),
            decreases self.row.len() - x,
        {
            row.push(self.row[x]);
            assert(row@ =~= self.row@.take(x + 1));
            x += 1;
        }
        assert(row@ =~= self.row@);
        BoardRow { full: self.full, row }
    }
}

impl<T: Copy> BoardRow<T> {
    /// A fresh row of `width` empty cells.
    pub fn new(width: usize) -> (row: Self)
        ensures
            row@ == RowView::<T>::empty(width as nat),
    {
        let mut cells: Vec<Option<T>> = Vec::new();
        let mut x: usize = 0;
        while x < width
            invariant
                x <= width,
                cells@.len() == x,
                forall|j: int| 0 <= j < x ==> (#[trigger] cells@[j]) is None,
            decreases width - x,
        {
            cells.push(None);
            x += 1;
        }
        assert(cells@ =~= RowView::<T>::empty(width as nat).cells);
        BoardRow { full: false, row: cells }
    }

    /// The cached flag. It is as fresh as the last tick of the engine.
    pub fn is_full(&self) -> (full: bool)
        ensures
            full == self@.full,
    {
        self.full
    }

    /// The cells of the row, leftmost first.
    pub fn get_row(&self) -> (cells: &Vec<Option<T>>)
        ensures
            cells@ == self@.cells,
    {
        &self.row
    }

    /// Writes `marker` into the cell at column `x`.
    pub fn put(&mut self, x: usize, marker: T)
        requires
            x < old(self)@.cells.len(),
        ensures
            final(self)@ == (RowView {
                cells: old(self)@.cells.update(x as int, Some(marker)),
                ..old(self)@
            }),
    {
        self.row[x] = Some(marker);
    }

    /// Brings the flag up to date and returns it.
    pub fn refresh(&mut self) -> (full: bool)
        ensures
            final(self)@ == old(self)@.flagged(),
            full == old(self)@.is_complete(),
    {
        let mut complete = true;
        let mut x: usize = 0;
        while x < self.row.len()
            invariant
                x <= self.row.len(),
                *self == *old(self),
                complete == forall|j: int| 0 <= j < x ==> (#[trigger] self.row@[j]) is Some,
            decreases self.row.len() - x,
        {
            if self.row[x].is_none() {
                complete = false;
            }
            x += 1;
        }
        self.full = complete;
        complete
    }
}

/// Removes the rows that are flagged as full: the other rows move down in
/// their order, and empty rows of `width` cells fill the top.
pub fn collapse<T: Copy>(rows: &Vec<BoardRow<T>>, width: usize) -> (result: Vec<BoardRow<T>>)
    ensures
        rows_view(result@) == collapsed(rows_view(rows@), width as nat),
{
    let ghost board = rows_view(rows@);
    let mut result: Vec<BoardRow<T>> = Vec::new();
    let mut y: usize = 0;
    while y < rows.len()
        invariant
            y <= rows.len(),
            board == rows_view(rows@),
            result@.len() <= y,
            rows_view(result@) == surviving(board.take(y as int)),
        decreases rows.len() - y,
    {
        proof {
            reveal(Seq::filter);
            assert(board.take(y + 1).drop_last() =~= board.take(y as int));
            assert(board.take(y + 1).last() == rows@[y as int]@);
        }
        if !rows[y].is_full() {
            result.push(rows[y].clone());
            assert(rows_view(result@) =~= surviving(board.take(y + 1)));
        }
        y += 1;
    }
    assert(board.take(rows@.len() as int) =~= board);
    let ghost kept = rows_view(result@);
    while result.len() < rows.len()
        invariant
            board == rows_view(rows@),
            kept == surviving(board),
            kept.len() <= result@.len() <= rows@.len(),
            rows_view(result@) == kept + Seq::new(
                (result@.len() - kept.len()) as nat,
                |y: int| RowView::<T>::empty(width as nat),
            ),
        decreases rows.len() - result.len(),
    {
        let ghost before = rows_view(result@);
        result.push(BoardRow::new(width));
        assert(rows_view(result@) =~= before.push(RowView::<T>::empty(width as nat)));
        assert(rows_view(result@) =~= kept + Seq::new(
            (result@.len() - kept.len()) as nat,
            |y: int| RowView::<T>::empty(width as nat),
        ));
    }
    result
}

} // verus!

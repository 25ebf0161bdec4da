//! What the rules of the game entail, proved from the definitions of the
//! board and of a tick.

use vstd::prelude::*;
use crate::board::{
    collapsed, covers, flagged, has_complete_row, removed_below, settled, surviving, RowView,
};
use crate::game_state::{step, Axis, GameView, BREAK_FRAMES};
use crate::pieces::PieceView;

verus! {

/// A piece with a block to the left of the board, to its right, below it or
/// above it intersects, whatever the board holds.
pub proof fn lemma_piece_off_board_intersects<T>(state: GameView<T>, piece: PieceView<T>, i: int)
    requires
        0 <= i < piece.offsets.len(),
        piece.block(i).x < 0 || piece.block(i).x >= 2 * state.width || piece.block(i).y < 0
            || piece.block(i).y >= 2 * state.height,
    ensures
        state.intersects(piece),
{
    assert(state.blocked(piece.block(i)));
}

/// A piece that lies within the board does not intersect while no cell of
/// the board is taken.
pub proof fn lemma_piece_on_empty_board_is_free<T>(state: GameView<T>, piece: PieceView<T>)
    requires
        forall|i: int| 0 <= i < piece.offsets.len() ==> state.in_bounds(#[trigger] piece.block(i)),
        forall|x: int, y: int|
            0 <= x < state.width && 0 <= y < state.height ==> (#[trigger] state.board[y].cells[x])
                is None,
    ensures
        !state.intersects(piece),
{
    assert forall|i: int| 0 <= i < piece.offsets.len() implies !state.blocked(
        #[trigger] piece.block(i),
    ) by {
        let p = piece.block(i);
        assert(state.in_bounds(p));
        assert(state.board[p.y / 2].cells[p.x / 2] is None);
    }
}

/// On a tick where gravity is due and the piece in play cannot descend, the
/// piece settles: each of its blocks on the board is found in its cell, every
/// other cell is as before, and the piece that stood by is in play.
pub proof fn lemma_resting_piece_settles<T>(state: GameView<T>, spawn: PieceView<T>)
    requires
        state.well_formed(),
        state.break_frame is None,
        state.gravity_due(),
        state.intersects(state.current_piece.shifted(step(Axis::Y, -1))),
    ensures
        state.tick(spawn).current_piece == spawn,
        forall|i: int|
            0 <= i < state.current_piece.offsets.len() && state.in_bounds(
                #[trigger] state.current_piece.block(i),
            ) ==> state.tick(spawn).board[state.current_piece.block(i).y / 2].cells[state.current_piece.block(
                i,
            ).x / 2] == Some(state.current_piece.texture),
        forall|x: int, y: int|
            0 <= x < state.width && 0 <= y < state.height && !covers(state.current_piece, x, y)
                ==> (#[trigger] state.tick(spawn).board[y].cells[x]) == state.board[y].cells[x],
{
    let piece = state.current_piece;
    let after = state.tick(spawn);
    assert(after.board == flagged(settled(state.board, piece)));
    assert forall|i: int| 0 <= i < piece.offsets.len() && state.in_bounds(
        #[trigger] piece.block(i),
    ) implies after.board[piece.block(i).y / 2].cells[piece.block(i).x / 2] == Some(
        piece.texture,
    ) by {
        let p = piece.block(i);
        assert(covers(piece, p.x / 2, p.y / 2));
        assert(state.board[p.y / 2].cells.len() == state.width);
    }
}

/// A tick outside the clear sequence that finds a row with every cell
/// occupied flags that row and starts the countdown at its full length.
pub proof fn lemma_complete_row_starts_countdown<T>(
    state: GameView<T>,
    spawn: PieceView<T>,
    y: int,
)
    requires
        state.well_formed(),
        state.break_frame is None,
        0 <= y < state.height,
        state.board[y].is_complete(),
    ensures
        state.tick(spawn).board[y].full,
        state.tick(spawn).break_frame == Some(BREAK_FRAMES as nat),
{
    let moved = state.after_gravity(spawn);
    assert(moved.board.len() == state.board.len());
    assert(moved.board[y].is_complete()) by {
        if moved.board != state.board {
            assert(moved.board == settled(state.board, state.current_piece));
        }
    }
    assert(has_complete_row(moved.board));
}

/// While the clear sequence runs, a tick changes nothing but the countdown,
/// whatever command came before it; the tick that uses up the countdown
/// removes the full rows. So a countdown of `left` ticks ends after exactly
/// `left` ticks, with the board collapsed once.
pub proof fn lemma_countdown_runs_out<T>(state: GameView<T>, left: nat, spawns: Seq<PieceView<T>>)
    requires
        state.break_frame == Some(left),
        1 <= left,
        spawns.len() <= left,
    ensures
        spawns.len() < left ==> state.ticks(spawns) == (GameView {
            break_frame: Some((left - spawns.len()) as nat),
            ..state
        }),
        spawns.len() == left ==> state.ticks(spawns) == (GameView {
            break_frame: None,
            board: collapsed(state.board, state.width),
            ..state
        }),
    decreases spawns.len(),
{
    if spawns.len() > 0 {
        lemma_countdown_runs_out(state, left, spawns.drop_last());
    }
}

/// A run of ticks is the first tick followed by the run of the others.
pub proof fn lemma_ticks_unfold_first<T>(state: GameView<T>, spawns: Seq<PieceView<T>>)
    requires
        spawns.len() > 0,
    ensures
        state.ticks(spawns) == state.tick(spawns.first()).ticks(spawns.drop_first()),
    decreases spawns.len(),
{
    let after = state.tick(spawns.first());
    if spawns.len() == 1 {
        assert(state.ticks(spawns.drop_last()) == state);
        assert(after.ticks(spawns.drop_first()) == after);
    } else {
        let front = spawns.drop_last();
        lemma_ticks_unfold_first(state, front);
        assert(front.first() == spawns.first());
        assert(front.drop_first() =~= spawns.drop_first().drop_last());
        assert(spawns.drop_first().last() == spawns.last());
    }
}

/// Clearing a line from end to end: the tick that finds a row with every
/// cell occupied flags it and starts the countdown; the countdown's ticks
/// later, and no sooner, the flagged rows are gone from the board, the rows
/// above them have moved down, and nothing else has changed.
pub proof fn lemma_line_clears_after_countdown<T>(
    state: GameView<T>,
    spawns: Seq<PieceView<T>>,
    y: int,
)
    requires
        state.well_formed(),
        state.break_frame is None,
        0 <= y < state.height,
        state.board[y].is_complete(),
        spawns.len() == 1 + BREAK_FRAMES,
    ensures
        state.tick(spawns.first()).board[y].full,
        state.tick(spawns.first()).break_frame == Some(BREAK_FRAMES as nat),
        state.ticks(spawns.drop_last()) == (GameView {
            break_frame: Some(1nat),
            ..state.tick(spawns.first())
        }),
        state.ticks(spawns) == (GameView {
            break_frame: None,
            board: collapsed(state.tick(spawns.first()).board, state.width),
            ..state.tick(spawns.first())
        }),
{
    let found = state.tick(spawns.first());
    lemma_complete_row_starts_countdown(state, spawns.first(), y);
    lemma_ticks_unfold_first(state, spawns);
    lemma_countdown_runs_out(found, BREAK_FRAMES as nat, spawns.drop_first());
    lemma_ticks_unfold_first(state, spawns.drop_last());
    assert(spawns.drop_last().first() == spawns.first());
    lemma_countdown_runs_out(found, BREAK_FRAMES as nat, spawns.drop_last().drop_first());
}

/// The rows that survive, counted with the rows that are removed, are all
/// the rows.
pub proof fn lemma_rows_survive_or_go<T>(board: Seq<RowView<T>>)
    ensures
        surviving(board).len() + removed_below(board, board.len() as int) == board.len(),
    decreases board.len(),
{
    reveal(Seq::filter);
    assert(board.take(board.len() as int) =~= board);
    if board.len() > 0 {
        let rest = board.drop_last();
        lemma_rows_survive_or_go(rest);
        assert(rest.take(rest.len() as int) =~= rest);
    }
}

/// The rows that survive among the first `y` lead the rows that survive in
/// all, and a surviving row `y` comes right after them.
pub proof fn lemma_surviving_prefix<T>(board: Seq<RowView<T>>, y: int)
    requires
        0 <= y <= board.len(),
    ensures
        surviving(board.take(y)).len() <= surviving(board).len(),
        surviving(board.take(y)) == surviving(board).take(surviving(board.take(y)).len() as int),
        y < board.len() && !board[y].full ==> surviving(board.take(y)).len() < surviving(
            board,
        ).len() && surviving(board)[surviving(board.take(y)).len() as int] == board[y],
    decreases board.len() - y,
{
    reveal(Seq::filter);
    if y == board.len() {
        assert(board.take(y) =~= board);
        assert(surviving(board).take(surviving(board).len() as int) =~= surviving(board));
    } else {
        lemma_surviving_prefix(board, y + 1);
        let longer = board.take(y + 1);
        assert(longer.drop_last() =~= board.take(y));
        assert(longer.last() == board[y]);
        let short = surviving(board.take(y));
        let long = surviving(longer);
        let all = surviving(board);
        assert(long == all.take(long.len() as int));
        if board[y].full {
            assert(short == long);
        } else {
            assert(long == short.push(board[y]));
            assert(short =~= all.take(short.len() as int));
            assert(all[short.len() as int] == long[short.len() as int]);
        }
    }
}

/// A collapse is stable: a row that is not full moves down by the number of
/// full rows below it, and arrives as it was.
pub proof fn lemma_collapse_is_stable<T>(board: Seq<RowView<T>>, width: nat, y: int)
    requires
        0 <= y < board.len(),
        !board[y].full,
    ensures
        0 <= y - removed_below(board, y) < surviving(board).len(),
        collapsed(board, width)[y - removed_below(board, y)] == board[y],
{
    let below = board.take(y);
    lemma_rows_survive_or_go(below);
    assert(below.take(below.len() as int) =~= below);
    assert(below.take(y) =~= below);
    lemma_surviving_prefix(board, y);
}

/// A collapse keeps the order of the rows that are not full.
pub proof fn lemma_collapse_keeps_order<T>(board: Seq<RowView<T>>, lower: int, upper: int)
    requires
        0 <= lower < upper < board.len(),
        !board[lower].full,
        !board[upper].full,
    ensures
        lower - removed_below(board, lower) < upper - removed_below(board, upper),
{
    let below_upper = board.take(upper);
    lemma_rows_survive_or_go(below_upper);
    assert(below_upper.take(upper) =~= below_upper);
    let below_lower = board.take(lower);
    lemma_rows_survive_or_go(below_lower);
    assert(below_lower.take(lower) =~= below_lower);
    assert(below_upper.take(lower) =~= below_lower);
    lemma_surviving_prefix(below_upper, lower);
}

/// After a collapse, the rows above the surviving ones are empty and not
/// flagged, and the board has as many rows as before.
pub proof fn lemma_collapse_empties_top<T>(board: Seq<RowView<T>>, width: nat, y: int)
    requires
        board.len() - removed_below(board, board.len() as int) <= y < board.len(),
    ensures
        collapsed(board, width).len() == board.len(),
        collapsed(board, width)[y] == RowView::<T>::empty(width),
{
    lemma_rows_survive_or_go(board);
}

/// When a single row is full, the collapse takes that row out, moves every
/// row above it down by one, and puts an empty row on top.
pub proof fn lemma_single_full_row_collapse<T>(board: Seq<RowView<T>>, width: nat, full: int)
    requires
        0 <= full < board.len(),
        board[full].full,
        forall|y: int| 0 <= y < board.len() && y != full ==> !(#[trigger] board[y]).full,
    ensures
        collapsed(board, width) == board.remove(full).push(RowView::<T>::empty(width)),
{
    lemma_only_full_row_removed(board, full, board.len() as int);
    assert(board.take(board.len() as int) =~= board);
    assert(collapsed(board, width) =~= board.remove(full).push(RowView::<T>::empty(width)));
}

/// When row `full` is the only full row, the rows that survive among the
/// first `n` are those rows without row `full`.
pub proof fn lemma_only_full_row_removed<T>(board: Seq<RowView<T>>, full: int, n: int)
    requires
        0 <= full < board.len(),
        0 <= n <= board.len(),
        board[full].full,
        forall|y: int| 0 <= y < board.len() && y != full ==> !(#[trigger] board[y]).full,
    ensures
        n <= full ==> surviving(board.take(n)) == board.take(n),
        n > full ==> surviving(board.take(n)) == board.take(n).remove(full),
    decreases n,
{
    reveal(Seq::filter);
    if n > 0 {
        lemma_only_full_row_removed(board, full, n - 1);
        let longer = board.take(n);
        assert(longer.drop_last() =~= board.take(n - 1));
        assert(longer.last() == board[n - 1]);
        if n <= full {
            assert(surviving(longer) =~= longer);
        } else if n - 1 == full {
            assert(surviving(longer) =~= longer.remove(full));
        } else {
            assert(surviving(longer) =~= longer.remove(full));
        }
    } else {
        assert(surviving(board.take(0)) =~= board.take(0));
    }
}

} // verus!

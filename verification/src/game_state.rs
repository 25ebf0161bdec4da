//! The engine: the board, the piece in play, gravity and the clear sequence.

use vstd::prelude::*;
use crate::board::{
    collapse, collapsed, covers_among, flagged, has_complete_row, rows_view, settled,
    settled_among, surviving, BoardRow, RowView,
};
use crate::pieces::{standard_piece, Direction, Piece, PieceView, Textures};
use crate::point::Position;
use nannou::rand::seq::SliceRandom;
use nannou::rand::thread_rng;

verus! {

/// The axis of a move.
#[derive(Clone, Copy, Debug, PartialEq, Eq, Structural)]
pub enum Axis {
    X,
    Y,
}

/// Ticks between two descents of the piece in play.
pub const GAME_SPEED: u64 = 22;

/// Ticks that full rows stay on the board before they are removed.
pub const BREAK_FRAMES: u32 = 30;

/// No centre of a piece in play lies further than this from the origin, in
/// half cells: the widest board spans less.
pub const REACH: i64 = 0x2_0000_0010;

/// Why a game could not be set up, or a tick not be taken.
#[derive(Clone, Copy, Debug, PartialEq, Eq, Structural)]
pub enum EngineError {
    /// The board has no columns or no rows.
    EmptyBoard,
    /// The catalogue holds no piece of that index.
    UnknownPiece,
}

/// The state of a game.
#[derive(Debug)]
pub struct GameState<T> {
    width: u32,
    height: u32,
    time: u64,
    game_speed: u64,
    pieces: Vec<Piece<T>>,
    current_piece: Piece<T>,
    board: Vec<BoardRow<T>>,
    break_frame: Option<u32>,
}

/// The mathematical value of a `GameState`.
pub struct GameView<T> {
    pub width: nat,
    pub height: nat,
    pub time: nat,
    pub game_speed: nat,
    pub pieces: Seq<PieceView<T>>,
    pub current_piece: PieceView<T>,
    pub board: Seq<RowView<T>>,
    pub break_frame: Option<nat>,
}

/// The translation of `amount` cells along `axis`, in half cells.
pub open spec fn step(axis: Axis, amount: int) -> Position {
    match axis {
        Axis::X => Position { x: 2 * amount, y: 0 },
        Axis::Y => Position { x: 0, y: 2 * amount },
    }
}

/// The markers that a catalogue of seven pieces carries, shape by shape.
pub open spec fn markers<T>(pieces: Seq<PieceView<T>>) -> Textures<T> {
    Textures {
        yellow: pieces[0].texture,
        light_blue: pieces[1].texture,
        blue: pieces[2].texture,
        orange: pieces[3].texture,
        green: pieces[4].texture,
        red: pieces[5].texture,
        purple: pieces[6].texture,
    }
}

/// `pieces` is the standard catalogue, under some choice of markers.
pub open spec fn is_catalogue<T>(pieces: Seq<PieceView<T>>) -> bool {
    &&& pieces.len() == 7
    &&& forall|i: int| 0 <= i < 7 ==> #[trigger] pieces[i] == standard_piece(i, markers(pieces))
}

impl<T> GameView<T> {
    /// The position lies on the board.
    pub open spec fn in_bounds(self, p: Position) -> bool {
        &&& 0 <= p.x < 2 * self.width
        &&& 0 <= p.y < 2 * self.height
    }

    /// A block may not be at `p`: the position is off the board, or the cell
    /// there is taken.
    pub open spec fn blocked(self, p: Position) -> bool {
        !self.in_bounds(p) || self.board[p.y / 2].cells[p.x / 2] is Some
    }

    /// Some block of `piece` is off the board or on a taken cell.
    pub open spec fn intersects(self, piece: PieceView<T>) -> bool {
        exists|i: int| 0 <= i < piece.offsets.len() && self.blocked(#[trigger] piece.block(i))
    }

    /// The state after `candidate` has been tried as the piece in play: it
    /// takes the place of the current piece unless it intersects.
    pub open spec fn try_piece(self, candidate: PieceView<T>) -> GameView<T> {
        if self.intersects(candidate) {
            self
        } else {
            GameView { current_piece: candidate, ..self }
        }
    }

    /// The state after one tick of the clear sequence: the countdown loses a
    /// tick, and when none is left the full rows are removed.
    pub open spec fn after_countdown(self) -> GameView<T> {
        match self.break_frame {
            Some(left) => if left <= 1 {
                GameView {
                    break_frame: None,
                    board: collapsed(self.board, self.width),
                    ..self
                }
            } else {
                GameView { break_frame: Some((left - 1) as nat), ..self }
            },
            None => self,
        }
    }

    /// Whether the piece in play descends on this tick.
    pub open spec fn gravity_due(self) -> bool {
        self.time % self.game_speed == 0
    }

    /// The state after the piece in play has been written into the board and
    /// `spawn` has taken its place.
    pub open spec fn after_settling(self, spawn: PieceView<T>) -> GameView<T> {
        GameView {
            board: settled(self.board, self.current_piece),
            current_piece: spawn,
            ..self
        }
    }

    /// The state after gravity has had its turn: on a tick where it is due
    /// the piece descends by one cell, or settles where it cannot.
    pub open spec fn after_gravity(self, spawn: PieceView<T>) -> GameView<T> {
        let target = self.current_piece.shifted(step(Axis::Y, -1));
        if !self.gravity_due() {
            self
        } else if !self.intersects(target) {
            GameView { current_piece: target, ..self }
        } else {
            self.after_settling(spawn)
        }
    }

    /// The state after the flags of all rows have been brought up to date:
    /// a complete row starts the countdown, and the clock moves on.
    pub open spec fn after_flags(self) -> GameView<T> {
        GameView {
            board: flagged(self.board),
            break_frame: if has_complete_row(self.board) {
                Some(BREAK_FRAMES as nat)
            } else {
                self.break_frame
            },
            time: self.time + 1,
            ..self
        }
    }

    /// The state after one tick, where `spawn` is the piece that enters if
    /// the piece in play settles on this tick.
    pub open spec fn tick(self, spawn: PieceView<T>) -> GameView<T> {
        if self.break_frame is Some {
            self.after_countdown()
        } else {
            self.after_gravity(spawn).after_flags()
        }
    }

    /// The state after one tick for each piece of `spawns`, the first of
    /// them standing by on the first tick.
    pub open spec fn ticks(self, spawns: Seq<PieceView<T>>) -> GameView<T>
        decreases spawns.len(),
    {
        if spawns.len() == 0 {
            self
        } else {
            self.ticks(spawns.drop_last()).tick(spawns.last())
        }
    }

    /// A piece that may enter play: a tetromino whose centre is within reach.
    pub open spec fn admits(self, piece: PieceView<T>) -> bool {
        &&& piece.is_tetromino()
        &&& -REACH <= piece.center.x <= REACH
        &&& -REACH <= piece.center.y <= REACH
    }

    /// The state of a new game on a board of the given size, with shape
    /// `first` of the catalogue in play.
    pub open spec fn initial(width: nat, height: nat, textures: Textures<T>, first: int) -> GameView<
        T,
    > {
        GameView {
            width,
            height,
            time: 0,
            game_speed: GAME_SPEED as nat,
            pieces: Seq::new(7, |i: int| standard_piece(i, textures)),
            current_piece: standard_piece(first, textures),
            board: Seq::new(height, |y: int| RowView::<T>::empty(width)),
            break_frame: None,
        }
    }

    /// What holds of every state of a game.
    pub open spec fn well_formed(self) -> bool {
        &&& 0 < self.width <= u32::MAX
        &&& 0 < self.height <= u32::MAX
        &&& self.time <= u64::MAX
        &&& self.game_speed == GAME_SPEED
        &&& is_catalogue(self.pieces)
        &&& self.current_piece.is_tetromino()
        &&& -REACH <= self.current_piece.center.x <= REACH
        &&& -REACH <= self.current_piece.center.y <= REACH
        &&& self.board.len() == self.height
        &&& forall|y: int| 0 <= y < self.height ==> (#[trigger] self.board[y]).cells.len() == self.width
        &&& match self.break_frame {
            Some(left) => 1 <= left <= BREAK_FRAMES,
            None => true,
        }
    }
}

impl<T> View for GameState<T> {
    type V = GameView<T>;

    closed spec fn view(&self) -> GameView<T> {
        GameView {
            width: self.width as nat,
            height: self.height as nat,
            time: self.time as nat,
            game_speed: self.game_speed as nat,
            pieces: self.pieces@.map_values(|piece: Piece<T>| piece@),
            current_piece: self.current_piece@,
            board: rows_view(self.board@),
            break_frame: match self.break_frame {
                Some(left) => Some(left as nat),
                None => None,
            },
        }
    }
}

/// A new game is well formed.
pub proof fn lemma_initial_well_formed<T>(width: nat, height: nat, textures: Textures<T>, first: int)
    requires
        0 < width <= u32::MAX,
        0 < height <= u32::MAX,
        0 <= first < 7,
    ensures
        GameView::initial(width, height, textures, first).well_formed(),
{
    let state = GameView::initial(width, height, textures, first);
    assert(markers(state.pieces) == textures);
    assert(state.current_piece.is_tetromino());
}

/// Writing no block of a piece leaves the board as it was.
pub proof fn lemma_settled_none<T>(board: Seq<RowView<T>>, piece: PieceView<T>)
    ensures
        settled_among(board, piece, 0) == board,
{
    let same = settled_among(board, piece, 0);
    assert forall|y: int| 0 <= y < board.len() implies same[y] == board[y] by {
        assert(same[y].cells =~= board[y].cells);
    }
    assert(same =~= board);
}

/// Every piece of the catalogue may enter play.
pub proof fn lemma_catalogue_admitted<T>(state: GameView<T>, i: int)
    requires
        state.well_formed(),
        0 <= i < 7,
    ensures
        state.admits(state.pieces[i]),
{
    assert(state.pieces[i] == standard_piece(i, markers(state.pieces)));
}

/// A collapse keeps the number of rows, and the width of each when the rows
/// above the removed ones are as wide as the fresh ones.
pub proof fn lemma_collapsed_shape<T>(board: Seq<RowView<T>>, width: nat)
    requires
        forall|y: int| 0 <= y < board.len() ==> (#[trigger] board[y]).cells.len() == width,
    ensures
        collapsed(board, width).len() == board.len(),
        forall|y: int|
            0 <= y < board.len() ==> (#[trigger] collapsed(board, width)[y]).cells.len() == width,
{
    let kept = surviving(board);
    let keep = |row: RowView<T>| row.survives();
    board.lemma_filter_len(keep);
    assert forall|y: int| 0 <= y < board.len() implies (#[trigger] collapsed(
        board,
        width,
    )[y]).cells.len() == width by {
        if y < kept.len() {
            board.lemma_filter_contains_rev(keep, kept[y]);
            assert(kept.contains(kept[y]));
        }
    }
}

/// A tetromino that does not intersect lies on the board, so trying one
/// keeps the state well formed.
pub proof fn lemma_try_piece_well_formed<T>(state: GameView<T>, candidate: PieceView<T>)
    requires
        state.well_formed(),
        candidate.is_tetromino(),
    ensures
        state.try_piece(candidate).well_formed(),
{
    if !state.intersects(candidate) {
        assert(!state.blocked(candidate.block(0)));
    }
}

/// Picks one piece of `pieces` at random, with
/// `rand::seq::SliceRandom::choose` on the generator of the calling thread
/// (`rand::thread_rng`), both reached through `nannou::rand`. An empty slice
/// gives `None`; otherwise the result is a reference to one of the elements,
/// and nothing is said of which. The generator is seeded from the operating
/// system on its first use in a thread and panics if that source fails.
#[verifier::external_body]
fn choose_piece<T>(pieces: &Vec<Piece<T>>) -> (chosen: Option<&Piece<T>>)
    ensures
        chosen is None <==> pieces@.len() == 0,
        chosen is Some ==> exists|i: int| 0 <= i < pieces@.len() && *chosen->0 == pieces@[i],
{
    pieces.choose(&mut thread_rng())
}

impl<T: Copy> GameState<T> {
    /// The invariant of the engine; every operation keeps it.
    pub open spec fn inv(&self) -> bool {
        self@.well_formed()
    }

    /// Puts a game together from its parts.
    fn assemble(width: u32, height: u32, pieces: Vec<Piece<T>>, current_piece: Piece<T>) -> (state:
        Self)
        ensures
            state@ == (GameView {
                width: width as nat,
                height: height as nat,
                time: 0,
                game_speed: GAME_SPEED as nat,
                pieces: pieces@.map_values(|piece: Piece<T>| piece@),
                current_piece: current_piece@,
                board: Seq::new(height as nat, |y: int| RowView::<T>::empty(width as nat)),
                break_frame: None,
            }),
    {
        let mut board: Vec<BoardRow<T>> = Vec::new();
        let mut y: u32 = 0;
        while y < height
            invariant
                y <= height,
                board@.len() == y,
                forall|j: int| 0 <= j < y ==> (#[trigger] board@[j])@ == RowView::<T>::empty(width as nat),
            decreases height - y,
        {
            board.push(BoardRow::new(width as usize));
            y += 1;
        }
        assert(rows_view(board@) =~= Seq::new(
            height as nat,
            |y: int| RowView::<T>::empty(width as nat),
        ));
        GameState {
            width,
            height,
            time: 0u64,
            game_speed: GAME_SPEED,
            pieces,
            current_piece,
            board,
            break_frame: None,
        }
    }

    /// Starts a game on an empty board of `width` by `height` cells, with a
    /// piece of the standard catalogue, drawn at random, in play. A board
    /// without columns or rows is refused.
    pub fn new(width: u32, height: u32, textures: Textures<T>) -> (made: Result<Self, EngineError>)
        ensures
            width == 0 || height == 0 <==> made == Err::<Self, EngineError>(EngineError::EmptyBoard),
            made is Err <==> width == 0 || height == 0,
            made is Ok ==> made->Ok_0.inv() && exists|first: int|
                0 <= first < 7 && made->Ok_0@ == #[trigger] GameView::initial(
                    width as nat,
                    height as nat,
                    textures,
                    first,
                ),
    {
        if width == 0 || height == 0 {
            return Err(EngineError::EmptyBoard);
        }
        let pieces = Piece::get_standard_pieces(textures);
        let current_piece = Self::get_random_piece(&pieces);
        let ghost first = choose|i: int| 0 <= i < 7 && current_piece@ == pieces@[i]@;
        let state = Self::assemble(width, height, pieces, current_piece);
        proof {
            lemma_initial_well_formed(width as nat, height as nat, textures, first);
            assert(state@.pieces =~= GameView::initial(
                width as nat,
                height as nat,
                textures,
                first,
            ).pieces);
        }
        Ok(state)
    }

    /// Starts a game as `new` does, with shape `first` of the catalogue in
    /// play. An index beyond the catalogue is refused.
    pub fn new_with(width: u32, height: u32, textures: Textures<T>, first: usize) -> (made: Result<
        Self,
        EngineError,
    >)
        ensures
            width == 0 || height == 0 <==> made == Err::<Self, EngineError>(EngineError::EmptyBoard),
            width > 0 && height > 0 && first >= 7 <==> made == Err::<Self, EngineError>(
                EngineError::UnknownPiece,
            ),
            made is Ok <==> width > 0 && height > 0 && first < 7,
            made is Ok ==> made->Ok_0.inv() && made->Ok_0@ == GameView::initial(
                width as nat,
                height as nat,
                textures,
                first as int,
            ),
    {
        if width == 0 || height == 0 {
            return Err(EngineError::EmptyBoard);
        }
        let pieces = Piece::get_standard_pieces(textures);
        if first >= pieces.len() {
            return Err(EngineError::UnknownPiece);
        }
        let current_piece = pieces[first].clone();
        let state = Self::assemble(width, height, pieces, current_piece);
        proof {
            lemma_initial_well_formed(width as nat, height as nat, textures, first as int);
            assert(state@.pieces =~= GameView::initial(
                width as nat,
                height as nat,
                textures,
                first as int,
            ).pieces);
        }
        Ok(state)
    }

    /// A copy of one piece of `pieces`, drawn at random.
    pub fn get_random_piece(pieces: &Vec<Piece<T>>) -> (piece: Piece<T>)
        requires
            pieces@.len() > 0,
        ensures
            exists|i: int| 0 <= i < pieces@.len() && piece@ == (#[trigger] pieces@[i])@,
    {
        match choose_piece(pieces) {
            Some(chosen) => chosen.clone(),
            None => pieces[0].clone(),
        }
    }

    /// Tells whether some block of `piece` lies off the board or on a cell
    /// that is already taken.
    pub fn does_intersect(&self, piece: &Piece<T>) -> (hit: bool)
        requires
            self.inv(),
        ensures
            hit == self@.intersects(piece@),
    {
        let mut i: usize = 0;
        while i < piece.offsets.len()
            invariant
                self.inv(),
                i <= piece.offsets.len(),
                forall|j: int| 0 <= j < i ==> !self@.blocked(#[trigger] piece@.block(j)),
            decreases piece.offsets.len() - i,
        {
            let offset = piece.offsets[i];
            let x: i128 = piece.center.x as i128 + offset.x as i128;
            let y: i128 = piece.center.y as i128 + offset.y as i128;
            assert(piece@.block(i as int) == (Position { x: x as int, y: y as int }));
            if x < 0 || x >= 2 * (self.width as i128) || y < 0 || y >= 2 * (self.height as i128) {
                assert(self@.blocked(piece@.block(i as int)));
                return true;
            }
            let column: usize = (x / 2) as usize;
            let row: usize = (y / 2) as usize;
            assert(self@.board[row as int] == self.board@[row as int]@);
            if self.board[row].get_row()[column].is_some() {
                assert(self@.blocked(piece@.block(i as int)));
                return true;
            }
            i += 1;
        }
        false
    }

    /// Moves the clock on by one tick.
    pub fn inc_time(&mut self)
        requires
            old(self).inv(),
            old(self)@.time < u64::MAX,
        ensures
            final(self).inv(),
            final(self)@ == (GameView { time: old(self)@.time + 1, ..old(self)@ }),
    {
        self.time += 1
    }

    /// The piece in play.
    pub fn get_current_piece(&self) -> (piece: &Piece<T>)
        ensures
            piece@ == self@.current_piece,
    {
        &self.current_piece
    }

    /// The rows of the board, bottom row first.
    pub fn get_board(&self) -> (board: &Vec<BoardRow<T>>)
        ensures
            rows_view(board@) == self@.board,
    {
        &self.board
    }

    /// The ticks that the clear sequence has left to run, if it is running.
    pub fn get_break_frame(&self) -> (left: &Option<u32>)
        ensures
            left is Some <==> self@.break_frame is Some,
            left is Some ==> self@.break_frame == Some(left->0 as nat),
    {
        &self.break_frame
    }

    /// The ticks taken since the game began, those of the clear sequence
    /// left out.
    pub fn get_time(&self) -> (time: u64)
        ensures
            time == self@.time,
    {
        self.time
    }

    /// Writes the piece in play into the board and puts `next` into play.
    /// Blocks that lie outside the board are dropped.
    fn settle(&mut self, next: Piece<T>)
        requires
            old(self).inv(),
            old(self)@.admits(next@),
        ensures
            final(self).inv(),
            final(self)@ == old(self)@.after_settling(next@),
    {
        let ghost before = self@;
        let ghost piece = self@.current_piece;
        let marker = self.current_piece.texture;
        proof {
            lemma_settled_none(before.board, piece);
            assert forall|r: int| 0 <= r < self.height implies (#[trigger] self.board@[r])@.cells.len()
                == self.width by {
                assert(before.board[r] == self.board@[r]@);
            }
        }
        let mut i: usize = 0;
        while i < self.current_piece.offsets.len()
            invariant
                i <= self.current_piece.offsets.len(),
                before == old(self)@,
                before.well_formed(),
                piece == before.current_piece,
                marker == piece.texture,
                self.board@.len() == self.height,
                forall|r: int|
                    0 <= r < self.height ==> (#[trigger] self.board@[r])@.cells.len() == self.width,
                self@ == (GameView { board: settled_among(before.board, piece, i as int), ..before }),
            decreases self.current_piece.offsets.len() - i,
        {
            let offset = self.current_piece.offsets[i];
            assert(piece.offsets[i as int] == offset@);
            let x: i64 = self.current_piece.center.x + offset.x;
            let y: i64 = self.current_piece.center.y + offset.y;
            assert(piece.block(i as int) == (Position { x: x as int, y: y as int }));
            let ghost earlier = self@.board;
            if 0 <= x && x < 2 * (self.width as i64) && 0 <= y && y < 2 * (self.height as i64) {
                let column: usize = (x / 2) as usize;
                let row: usize = (y / 2) as usize;
                assert(earlier[row as int] == self.board@[row as int]@);
                self.board[row].put(column, marker);
                assert(rows_view(self.board@) =~= earlier.update(
                    row as int,
                    RowView {
                        cells: earlier[row as int].cells.update(column as int, Some(marker)),
                        ..earlier[row as int]
                    },
                ));
            }
            proof {
                let later = rows_view(self.board@);
                let goal = settled_among(before.board, piece, i + 1);
                assert(later.len() == goal.len());
                assert forall|r: int| 0 <= r < later.len() implies later[r] == goal[r] by {
                    assert(later[r].cells.len() == goal[r].cells.len());
                    assert forall|c: int| 0 <= c < later[r].cells.len() implies later[r].cells[c]
                        == goal[r].cells[c] by {
                        let here = piece.block(i as int).x / 2 == c && piece.block(i as int).y / 2
                            == r;
                        if covers_among(piece, i + 1, c, r) {
                            let k = choose|k: int|
                                0 <= k < i + 1 && (#[trigger] piece.block(k)).x / 2 == c
                                    && piece.block(k).y / 2 == r;
                            if k < i {
                                assert(covers_among(piece, i as int, c, r));
                            }
                        }
                        if covers_among(piece, i as int, c, r) {
                            let k = choose|k: int|
                                0 <= k < i && (#[trigger] piece.block(k)).x / 2 == c
                                    && piece.block(k).y / 2 == r;
                            assert(covers_among(piece, i + 1, c, r));
                        }
                        if here {
                            assert(covers_among(piece, i + 1, c, r));
                        }
                    }
                    assert(later[r].cells =~= goal[r].cells);
                }
                assert(later =~= goal);
            }
            i += 1;
        }
        self.current_piece = next;
    }

    /// Brings the flag of every row up to date, and tells whether some row
    /// is full.
    pub fn check_full_rows(&mut self) -> (found: bool)
        requires
            old(self).inv(),
        ensures
            final(self).inv(),
            found == has_complete_row(old(self)@.board),
            final(self)@ == (GameView { board: flagged(old(self)@.board), ..old(self)@ }),
    {
        let ghost before = self@;
        let mut found = false;
        let mut y: usize = 0;
        while y < self.board.len()
            invariant
                y <= self.board@.len(),
                before == old(self)@,
                before.well_formed(),
                self@ == (GameView { board: rows_view(self.board@), ..before }),
                self.board@.len() == before.board.len(),
                forall|j: int| 0 <= j < y ==> (#[trigger] self.board@[j])@ == before.board[j].flagged(),
                forall|j: int|
                    y <= j < self.board@.len() ==> (#[trigger] self.board@[j])@ == before.board[j],
                found == exists|j: int| 0 <= j < y && (#[trigger] before.board[j]).is_complete(),
            decreases self.board@.len() - y,
        {
            let full = self.board[y].refresh();
            found = found || full;
            y += 1;
        }
        assert(rows_view(self.board@) =~= flagged(before.board));
        found
    }

    /// Removes the rows that are flagged as full. The rows above them move
    /// down, keeping their order, and empty rows fill the top.
    pub fn break_rows(&mut self)
        requires
            old(self).inv(),
        ensures
            final(self).inv(),
            final(self)@ == (GameView {
                board: collapsed(old(self)@.board, old(self)@.width),
                ..old(self)@
            }),
    {
        proof {
            lemma_collapsed_shape(self@.board, self@.width);
        }
        self.board = collapse(&self.board, self.width as usize);
    }

    /// One tick of the clear sequence, if it is running. Returns whether it
    /// was.
    fn count_down(&mut self) -> (clearing: bool)
        requires
            old(self).inv(),
        ensures
            final(self).inv(),
            clearing == old(self)@.break_frame is Some,
            final(self)@ == old(self)@.after_countdown(),
    {
        match self.break_frame {
            Some(left) => {
                if left <= 1 {
                    self.break_frame = None;
                    self.break_rows();
                } else {
                    self.break_frame = Some(left - 1);
                }
                true
            },
            None => false,
        }
    }

    /// The end of a tick on which gravity had its turn: flags the rows,
    /// starts the clear sequence if one is full, and moves the clock on.
    fn close_tick(&mut self)
        requires
            old(self).inv(),
            old(self)@.time < u64::MAX,
        ensures
            final(self).inv(),
            final(self)@ == old(self)@.after_flags(),
    {
        if self.check_full_rows() {
            self.break_frame = Some(BREAK_FRAMES);
        }
        self.inc_time();
    }

    /// Advances the game by one tick. While the clear sequence runs, the
    /// tick only counts it down and, at its end, removes the full rows.
    /// Otherwise the piece in play descends if gravity is due, and settles
    /// where it cannot; a piece drawn at random then enters. Last, the rows
    /// are flagged and the clock moves on.
    pub fn next_frame(&mut self)
        requires
            old(self).inv(),
            old(self)@.break_frame is None ==> old(self)@.time < u64::MAX,
        ensures
            final(self).inv(),
            exists|i: int|
                0 <= i < 7 && final(self)@ == old(self)@.tick(#[trigger] old(self)@.pieces[i]),
    {
        let ghost before = self@;
        if self.count_down() {
            assert(self@ == before.tick(before.pieces[0]));
            return ;
        }
        if self.time % self.game_speed == 0 {
            if !self.move_current_piece(Axis::Y, -1) {
                let next = Self::get_random_piece(&self.pieces);
                let ghost i = choose|i: int| 0 <= i < 7 && next@ == self.pieces@[i]@;
                assert(next@ == before.pieces[i]);
                proof {
                    lemma_catalogue_admitted(before, i);
                }
                self.settle(next);
                self.close_tick();
                assert(self@ == before.tick(before.pieces[i]));
                return ;
            }
        }
        self.close_tick();
        assert(self@ == before.tick(before.pieces[0]));
    }

    /// Advances the game by one tick as `next_frame` does, with shape
    /// `spawn` of the catalogue as the piece that enters if the piece in
    /// play settles. An index beyond the catalogue is refused, and the game
    /// stays as it was.
    pub fn next_frame_with(&mut self, spawn: usize) -> (done: Result<(), EngineError>)
        requires
            old(self).inv(),
            old(self)@.break_frame is None ==> old(self)@.time < u64::MAX,
        ensures
            final(self).inv(),
            spawn < 7 <==> done is Ok,
            spawn >= 7 <==> done == Err::<(), EngineError>(EngineError::UnknownPiece),
            done is Ok ==> final(self)@ == old(self)@.tick(old(self)@.pieces[spawn as int]),
            done is Err ==> final(self)@ == old(self)@,
    {
        if spawn >= self.pieces.len() {
            return Err(EngineError::UnknownPiece);
        }
        if self.count_down() {
            return Ok(());
        }
        if self.time % self.game_speed == 0 {
            if !self.move_current_piece(Axis::Y, -1) {
                let next = self.pieces[spawn].clone();
                proof {
                    lemma_catalogue_admitted(self@, spawn as int);
                }
                self.settle(next);
            }
        }
        self.close_tick();
        Ok(())
    }

    /// Moves the piece in play by `amount` cells along `axis`, unless it
    /// would intersect there. Returns whether the piece moved.
    pub fn move_current_piece(&mut self, axis: Axis, amount: i32) -> (moved: bool)
        requires
            old(self).inv(),
        ensures
            final(self).inv(),
            moved == !old(self)@.intersects(
                old(self)@.current_piece.shifted(step(axis, amount as int)),
            ),
            final(self)@ == old(self)@.try_piece(
                old(self)@.current_piece.shifted(step(axis, amount as int)),
            ),
    {
        let mut new_piece = self.current_piece.clone();
        let by: i64 = 2 * (amount as i64);
        match axis {
            Axis::X => {
                new_piece.center.x = new_piece.center.x + by;
            },
            Axis::Y => {
                new_piece.center.y = new_piece.center.y + by;
            },
        }
        proof {
            let target = self@.current_piece.shifted(step(axis, amount as int));
            assert(new_piece@.offsets =~= target.offsets);
            assert(new_piece@ == target);
            assert(target.is_tetromino());
            lemma_try_piece_well_formed(self@, target);
        }
        let did_intersect = self.does_intersect(&new_piece);
        if !did_intersect {
            self.current_piece = new_piece;
        }
        !did_intersect
    }

    /// Turns the piece in play by a quarter turn, unless it would intersect
    /// then. A turn that is refused leaves no trace.
    pub fn rotate_current_piece(&mut self, direction: Direction)
        requires
            old(self).inv(),
        ensures
            final(self).inv(),
            final(self)@ == old(self)@.try_piece(old(self)@.current_piece.rotated(direction)),
    {
        let mut new_piece = self.current_piece.clone();
        proof {
            assert forall|i: int| 0 <= i < new_piece.offsets@.len() implies {
                &&& (#[trigger] new_piece.offsets@[i]).x > i64::MIN
                &&& new_piece.offsets@[i].y > i64::MIN
            } by {
                assert(new_piece@.offsets[i] == new_piece.offsets@[i]@);
            }
        }
        new_piece.rotate(direction);
        proof {
            let target = self@.current_piece.rotated(direction);
            assert(new_piece@ == target);
            assert(target.is_tetromino());
            lemma_try_piece_well_formed(self@, target);
        }
        if !self.does_intersect(&new_piece) {
            self.current_piece = new_piece;
        }
    }
}

} // verus!

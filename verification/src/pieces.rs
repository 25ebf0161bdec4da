//! Pieces: a rotation centre, four offsets from it, and a visual marker.

use vstd::prelude::*;
use crate::point::{Point, Position};

verus! {

/// The sense of a quarter turn.
#[derive(Clone, Copy, Debug, PartialEq, Eq, Structural)]
pub enum Direction {
    Clockwise,
    AntiClockwise,
}

/// The visual markers of the seven standard pieces, one per shape.
pub struct Textures<T> {
    pub yellow: T,
    pub light_blue: T,
    pub blue: T,
    pub orange: T,
    pub green: T,
    pub red: T,
    pub purple: T,
}

/// A named shape: the blocks of the piece lie at `center + offset` for each
/// offset. The marker is carried along and never inspected.
#[derive(Debug)]
pub struct Piece<T> {
    pub name: String,
    /// Rotation centre of the piece.
    pub center: Point,
    /// Offset of each block from the rotation centre.
    pub offsets: Vec<Point>,
    pub texture: T,
}

/// The mathematical value of a `Piece`.
pub struct PieceView<T> {
    pub name: Seq<char>,
    pub center: Position,
    pub offsets: Seq<Position>,
    pub texture: T,
}

/// A quarter turn of one offset about the origin: clockwise sends `(x, y)` to
/// `(y, -x)`, anticlockwise sends it to `(-y, x)`.
pub open spec fn turn(p: Position, direction: Direction) -> Position {
    match direction {
        Direction::Clockwise => Position { x: p.y, y: -p.x },
        Direction::AntiClockwise => Position { x: -p.y, y: p.x },
    }
}

impl<T> PieceView<T> {
    /// The absolute position of block `i`.
    pub open spec fn block(self, i: int) -> Position {
        self.center.plus(self.offsets[i])
    }

    /// The absolute positions of all blocks, in the order of the offsets.
    pub open spec fn blocks(self) -> Seq<Position> {
        Seq::new(self.offsets.len(), |i: int| self.block(i))
    }

    /// The piece after a quarter turn about its centre.
    pub open spec fn rotated(self, direction: Direction) -> PieceView<T> {
        PieceView {
            offsets: self.offsets.map_values(|p: Position| turn(p, direction)),
            ..self
        }
    }

    /// The piece with its centre translated by `by`.
    pub open spec fn shifted(self, by: Position) -> PieceView<T> {
        PieceView { center: self.center.plus(by), ..self }
    }

    /// Every block lies on a whole cell: the coordinates of the centre and of
    /// all offsets are either all even or all odd.
    pub open spec fn on_grid(self) -> bool {
        &&& self.center.y % 2 == self.center.x % 2
        &&& forall|i: int|
            0 <= i < self.offsets.len() ==> {
                &&& (#[trigger] self.offsets[i]).x % 2 == self.center.x % 2
                &&& self.offsets[i].y % 2 == self.center.x % 2
            }
    }

    /// Four blocks on whole cells, none further than a cell and a half from
    /// the centre along either axis.
    pub open spec fn is_tetromino(self) -> bool {
        &&& self.offsets.len() == 4
        &&& self.on_grid()
        &&& forall|i: int|
            0 <= i < self.offsets.len() ==> {
                &&& -3 <= (#[trigger] self.offsets[i]).x <= 3
                &&& -3 <= self.offsets[i].y <= 3
            }
    }
}

impl<T> View for Piece<T> {
    type V = PieceView<T>;

    open spec fn view(&self) -> PieceView<T> {
        PieceView {
            name: self.name@,
            center: self.center@,
            offsets: self.offsets@.map_values(|p: Point| p@),
            texture: self.texture,
        }
    }
}

/// Shape `i` of the standard catalogue, by name, centre and offsets.
pub open spec fn standard_piece<T>(i: int, textures: Textures<T>) -> PieceView<T> {
    if i == 0 {
        PieceView {
            name: "Square"@,
            center: Position { x: 9, y: 41 },
            offsets: seq![
                Position { x: -1, y: 1 },
                Position { x: 1, y: 1 },
                Position { x: -1, y: -1 },
                Position { x: 1, y: -1 },
            ],
            texture: textures.yellow,
        }
    } else if i == 1 {
        PieceView {
            name: "Straight"@,
            center: Position { x: 9, y: 41 },
            offsets: seq![
                Position { x: -3, y: -1 },
                Position { x: -1, y: -1 },
                Position { x: 1, y: -1 },
                Position { x: 3, y: -1 },
            ],
            texture: textures.light_blue,
        }
    } else if i == 2 {
        PieceView {
            name: "L"@,
            center: Position { x: 8, y: 40 },
            offsets: seq![
                Position { x: -2, y: 0 },
                Position { x: 0, y: 0 },
                Position { x: 2, y: 0 },
                Position { x: 2, y: 2 },
            ],
            texture: textures.blue,
        }
    } else if i == 3 {
        PieceView {
            name: "Backwarsds L"@,
            center: Position { x: 8, y: 40 },
            offsets: seq![
                Position { x: -2, y: 0 },
                Position { x: 0, y: 0 },
                Position { x: 2, y: 0 },
                Position { x: -2, y: 2 },
            ],
            texture: textures.orange,
        }
    } else if i == 4 {
        PieceView {
            name: "S"@,
            center: Position { x: 8, y: 40 },
            offsets: seq![
                Position { x: -2, y: 0 },
                Position { x: 0, y: 0 },
                Position { x: 0, y: 2 },
                Position { x: 2, y: 2 },
            ],
            texture: textures.green,
        }
    } else if i == 5 {
        PieceView {
            name: "Z"@,
            center: Position { x: 8, y: 40 },
            offsets: seq![
                Position { x: 2, y: 0 },
                Position { x: 0, y: 0 },
                Position { x: 0, y: 2 },
                Position { x: -2, y: 2 },
            ],
            texture: textures.red,
        }
    } else {
        PieceView {
            name: "T"@,
            center: Position { x: 8, y: 40 },
            offsets: seq![
                Position { x: 0, y: 0 },
                Position { x: -2, y: 0 },
                Position { x: 2, y: 0 },
                Position { x: 0, y: 2 },
            ],
            texture: textures.purple,
        }
    }
}

/// Builds one piece of four blocks.
fn shape<T>(name: &str, center: Point, a: Point, b: Point, c: Point, d: Point, texture: T) -> (piece:
    Piece<T>)
    ensures
        piece@ == (PieceView {
            name: name@,
            center: center@,
            offsets: seq![a@, b@, c@, d@],
            texture,
        }),
{
    let mut offsets: Vec<Point> = Vec::new();
    offsets.push(a);
    offsets.push(b);
    offsets.push(c);
    offsets.push(d);
    let piece = Piece { name: name.to_owned(), center, offsets, texture };
    assert(piece@.offsets =~= seq![a@, b@, c@, d@]);
    piece
}

impl<T: Copy> Clone for Piece<T> {
    fn clone(&self) -> (copy: Self)
        ensures
            copy@ == self@,
    {
        let mut offsets: Vec<Point> = Vec::new();
        let mut i: usize = 0;
        while i < self.offsets.len()
            invariant
                i <= self.offsets.len(),
                offsets@ == self.offsets@.take(i as int),
            decreases self.offsets.len() - i,
        {
            offsets.push(self.offsets[i]);
            assert(offsets@ =~= self.offsets@.take(i + 1));
            i += 1;
        }
        assert(offsets@ =~= self.offsets@);
        Piece { name: self.name.clone(), center: self.center, offsets, texture: self.texture }
    }
}

impl<T: Copy> Piece<T> {
    /// The standard pieces: square, straight, L, mirrored L, S, Z and T, each
    /// placed where it enters a board ten cells wide.
    pub fn get_standard_pieces(textures: Textures<T>) -> (pieces: Vec<Piece<T>>)
        ensures
            pieces@.len() == 7,
            forall|i: int| 0 <= i < 7 ==> (#[trigger] pieces@[i])@ == standard_piece(i, textures),
    {
        let mut pieces: Vec<Piece<T>> = Vec::new();
        pieces.push(
            shape(
                "Square",
                Point::new(9, 41),
                Point::new(-1, 1),
                Point::new(1, 1),
                Point::new(-1, -1),
                Point::new(1, -1),
                textures.yellow,
            ),
        );
        pieces.push(
            shape(
                "Straight",
                Point::new(9, 41),
                Point::new(-3, -1),
                Point::new(-1, -1),
                Point::new(1, -1),
                Point::new(3, -1),
                textures.light_blue,
            ),
        );
        pieces.push(
            shape(
                "L",
                Point::new(8, 40),
                Point::new(-2, 0),
                Point::new(0, 0),
                Point::new(2, 0),
                Point::new(2, 2),
                textures.blue,
            ),
        );
        pieces.push(
            shape(
                "Backwarsds L",
                Point::new(8, 40),
                Point::new(-2, 0),
                Point::new(0, 0),
                Point::new(2, 0),
                Point::new(-2, 2),
                textures.orange,
            ),
        );
        pieces.push(
            shape(
                "S",
                Point::new(8, 40),
                Point::new(-2, 0),
                Point::new(0, 0),
                Point::new(0, 2),
                Point::new(2, 2),
                textures.green,
            ),
        );
        pieces.push(
            shape(
                "Z",
                Point::new(8, 40),
                Point::new(2, 0),
                Point::new(0, 0),
                Point::new(0, 2),
                Point::new(-2, 2),
                textures.red,
            ),
        );
        pieces.push(
            shape(
                "T",
                Point::new(8, 40),
                Point::new(0, 0),
                Point::new(-2, 0),
                Point::new(2, 0),
                Point::new(0, 2),
                textures.purple,
            ),
        );
        proof {
            assert forall|i: int| 0 <= i < 7 implies (#[trigger] pieces@[i])@ == standard_piece(
                i,
                textures,
            ) by {
                assert(pieces@[i]@.offsets =~= standard_piece(i, textures).offsets);
            }
        }
        pieces
    }

    /// Turns every offset by a quarter turn about the centre. Whether the
    /// turned piece fits anywhere is for the caller to decide.
    pub fn rotate(&mut self, direction: Direction)
        requires
            forall|i: int|
                0 <= i < old(self).offsets@.len() ==> {
                    &&& (#[trigger] old(self).offsets@[i]).x > i64::MIN
                    &&& old(self).offsets@[i].y > i64::MIN
                },
        ensures
            final(self)@ == old(self)@.rotated(direction),
    {
        let mut turned: Vec<Point> = Vec::new();
        let mut i: usize = 0;
        while i < self.offsets.len()
            invariant
                i <= self.offsets.len(),
                *self == *old(self),
                forall|j: int|
                    0 <= j < self.offsets@.len() ==> {
                        &&& (#[trigger] self.offsets@[j]).x > i64::MIN
                        &&& self.offsets@[j].y > i64::MIN
                    },
                turned@.len() == i,
                forall|j: int| 0 <= j < i ==> (#[trigger] turned@[j])@ == turn(self.offsets@[j]@, direction),
            decreases self.offsets.len() - i,
        {
            let offset = self.offsets[i];
            let p = match direction {
                Direction::Clockwise => Point::new(offset.y, -offset.x),
                Direction::AntiClockwise => Point::new(-offset.y, offset.x),
            };
            turned.push(p);
            i += 1;
        }
        self.offsets = turned;
        assert(self@.offsets =~= old(self)@.rotated(direction).offsets);
    }

    /// The absolute position of every block, in the order of the offsets.
    pub fn get_block_positions(&self) -> (positions: Vec<Point>)
        requires
            forall|i: int| 0 <= i < self@.offsets.len() ==> (#[trigger] self@.block(i)).representable(),
        ensures
            positions@.len() == self@.offsets.len(),
            forall|i: int|
                0 <= i < positions@.len() ==> (#[trigger] positions@[i])@ == self@.block(i),
    {
        let mut positions: Vec<Point> = Vec::new();
        let mut i: usize = 0;
        while i < self.offsets.len()
            invariant
                i <= self.offsets.len(),
                positions@.len() == i,
                forall|j: int| 0 <= j < self@.offsets.len() ==> (#[trigger] self@.block(j)).representable(),
                forall|j: int| 0 <= j < i ==> (#[trigger] positions@[j])@ == self@.block(j),
            decreases self.offsets.len() - i,
        {
            assert(self@.block(i as int).representable());
            positions.push(self.offsets[i].add(self.center));
            i += 1;
        }
        positions
    }
}

/// Four quarter turns in the same sense bring a piece back to where it was.
pub proof fn lemma_four_turns_restore<T>(piece: PieceView<T>, direction: Direction)
    ensures
        piece.rotated(direction).rotated(direction).rotated(direction).rotated(direction) == piece,
{
    let last = piece.rotated(direction).rotated(direction).rotated(direction).rotated(direction);
    assert(last.offsets =~= piece.offsets);
}

/// Every shape of the standard catalogue is a tetromino, so it resolves to
/// exactly four block positions.
pub proof fn lemma_standard_pieces_have_four_blocks<T>(i: int, textures: Textures<T>)
    requires
        0 <= i < 7,
    ensures
        standard_piece(i, textures).is_tetromino(),
        standard_piece(i, textures).blocks().len() == 4,
{
}

} // verus!

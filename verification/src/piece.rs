//! Piece kinds, rotation states and the cell-offset tables.

use vstd::prelude::*;

verus! {

/// A cell kind: the seven tetrominoes, gray garbage (`G`), deep gray (`D`)
/// and the empty marker (`E`).
#[derive(Clone, Copy, Debug, PartialEq, Eq, Hash, Structural)]
pub enum Piece {
    I,
    J,
    O,
    L,
    Z,
    S,
    T,
    G,
    D,
    E,
}

/// One of the four rotation states of a piece.
#[derive(Clone, Copy, Debug, PartialEq, Eq, Hash, Structural)]
pub enum Rotation {
    North,
    East,
    South,
    West,
}

impl Piece {
    /// Whether the cell holds anything at all (everything but `E`).
    pub fn is_filled(self) -> (r: bool)
        ensures
            r == (self != Piece::E),
    {
        !matches!(self, Piece::E)
    }

    /// Whether the cell holds a placeable tetromino (not `E`, `G` or `D`).
    pub fn is_filled_with_piece(self) -> (r: bool)
        ensures
            r == self.is_tetromino(),
    {
        !matches!(self, Piece::E | Piece::G | Piece::D)
    }

    /// The seven placeable tetromino kinds.
    pub open spec fn is_tetromino(self) -> bool {
        self != Piece::E && self != Piece::G && self != Piece::D
    }
}

/// The four cells occupied by a piece in a given rotation, as offsets
/// (dx, dy) from the rotation center.
pub open spec fn piece_offsets(p: Piece, r: Rotation) -> Seq<(int, int)> {
    match (p, r) {
        (Piece::I, Rotation::North) => seq![(0, 0), (-1, 0), (1, 0), (2, 0)],
        (Piece::I, Rotation::East) => seq![(0, 0), (0, 1), (0, -1), (0, -2)],
        (Piece::I, Rotation::South) => seq![(0, 0), (-2, 0), (-1, 0), (1, 0)],
        (Piece::I, Rotation::West) => seq![(0, 0), (0, 2), (0, 1), (0, -1)],
        (Piece::J, Rotation::North) => seq![(0, 0), (-1, 1), (-1, 0), (1, 0)],
        (Piece::J, Rotation::East) => seq![(0, 0), (1, 1), (0, 1), (0, -1)],
        (Piece::J, Rotation::South) => seq![(0, 0), (-1, 0), (1, 0), (1, -1)],
        (Piece::J, Rotation::West) => seq![(0, 0), (0, 1), (0, -1), (-1, -1)],
        (Piece::O, Rotation::North) => seq![(0, 0), (0, 1), (1, 0), (1, 1)],
        (Piece::O, Rotation::East) => seq![(0, 0), (0, -1), (1, 0), (1, -1)],
        (Piece::O, Rotation::South) => seq![(0, 0), (0, -1), (-1, 0), (-1, -1)],
        (Piece::O, Rotation::West) => seq![(0, 0), (0, 1), (-1, 0), (-1, 1)],
        (Piece::L, Rotation::North) => seq![(0, 0), (-1, 0), (1, 0), (1, 1)],
        (Piece::L, Rotation::East) => seq![(0, 0), (0, 1), (0, -1), (1, -1)],
        (Piece::L, Rotation::South) => seq![(0, 0), (1, 0), (-1, 0), (-1, -1)],
        (Piece::L, Rotation::West) => seq![(0, 0), (-1, 1), (0, 1), (0, -1)],
        (Piece::Z, Rotation::North) => seq![(0, 0), (-1, 1), (0, 1), (1, 0)],
        (Piece::Z, Rotation::East) => seq![(0, 0), (1, 1), (1, 0), (0, -1)],
        (Piece::Z, Rotation::South) => seq![(0, 0), (-1, 0), (0, -1), (1, -1)],
        (Piece::Z, Rotation::West) => seq![(0, 0), (-1, 0), (-1, -1), (0, 1)],
        (Piece::S, Rotation::North) => seq![(0, 0), (0, 1), (1, 1), (-1, 0)],
        (Piece::S, Rotation::East) => seq![(0, 0), (0, 1), (1, 0), (1, -1)],
        (Piece::S, Rotation::South) => seq![(0, 0), (1, 0), (0, -1), (-1, -1)],
        (Piece::S, Rotation::West) => seq![(0, 0), (-1, 1), (-1, 0), (0, -1)],
        (Piece::T, Rotation::North) => seq![(0, 0), (0, 1), (-1, 0), (1, 0)],
        (Piece::T, Rotation::East) => seq![(0, 0), (1, 0), (0, -1), (0, 1)],
        (Piece::T, Rotation::South) => seq![(0, 0), (0, -1), (-1, 0), (1, 0)],
        (Piece::T, Rotation::West) => seq![(0, 0), (-1, 0), (0, -1), (0, 1)],
        _ => seq![(0, 0), (0, 0), (0, 0), (0, 0)],
    }
}

impl Piece {
    /// The offset table entry for this piece and rotation.
    pub fn offsets(self, rotation: Rotation) -> (r: Vec<(isize, isize)>)
        requires
            self.is_tetromino(),
        ensures
            r@.len() == 4,
            forall|i: int|
                0 <= i < 4 ==> (#[trigger] r@[i].0 as int, r@[i].1 as int)
                    == piece_offsets(self, rotation)[i],
    {
        let v: Vec<(isize, isize)> = match (self, rotation) {
            (Piece::I, Rotation::North) => vec![(0, 0), (-1, 0), (1, 0), (2, 0)],
            (Piece::I, Rotation::East) => vec![(0, 0), (0, 1), (0, -1), (0, -2)],
            (Piece::I, Rotation::South) => vec![(0, 0), (-2, 0), (-1, 0), (1, 0)],
            (Piece::I, Rotation::West) => vec![(0, 0), (0, 2), (0, 1), (0, -1)],
            (Piece::J, Rotation::North) => vec![(0, 0), (-1, 1), (-1, 0), (1, 0)],
            (Piece::J, Rotation::East) => vec![(0, 0), (1, 1), (0, 1), (0, -1)],
            (Piece::J, Rotation::South) => vec![(0, 0), (-1, 0), (1, 0), (1, -1)],
            (Piece::J, Rotation::West) => vec![(0, 0), (0, 1), (0, -1), (-1, -1)],
            (Piece::O, Rotation::North) => vec![(0, 0), (0, 1), (1, 0), (1, 1)],
            (Piece::O, Rotation::East) => vec![(0, 0), (0, -1), (1, 0), (1, -1)],
            (Piece::O, Rotation::South) => vec![(0, 0), (0, -1), (-1, 0), (-1, -1)],
            (Piece::O, Rotation::West) => vec![(0, 0), (0, 1), (-1, 0), (-1, 1)],
            (Piece::L, Rotation::North) => vec![(0, 0), (-1, 0), (1, 0), (1, 1)],
            (Piece::L, Rotation::East) => vec![(0, 0), (0, 1), (0, -1), (1, -1)],
            (Piece::L, Rotation::South) => vec![(0, 0), (1, 0), (-1, 0), (-1, -1)],
            (Piece::L, Rotation::West) => vec![(0, 0), (-1, 1), (0, 1), (0, -1)],
            (Piece::Z, Rotation::North) => vec![(0, 0), (-1, 1), (0, 1), (1, 0)],
            (Piece::Z, Rotation::East) => vec![(0, 0), (1, 1), (1, 0), (0, -1)],
            (Piece::Z, Rotation::South) => vec![(0, 0), (-1, 0), (0, -1), (1, -1)],
            (Piece::Z, Rotation::West) => vec![(0, 0), (-1, 0), (-1, -1), (0, 1)],
            (Piece::S, Rotation::North) => vec![(0, 0), (0, 1), (1, 1), (-1, 0)],
            (Piece::S, Rotation::East) => vec![(0, 0), (0, 1), (1, 0), (1, -1)],
            (Piece::S, Rotation::South) => vec![(0, 0), (1, 0), (0, -1), (-1, -1)],
            (Piece::S, Rotation::West) => vec![(0, 0), (-1, 1), (-1, 0), (0, -1)],
            (Piece::T, Rotation::North) => vec![(0, 0), (0, 1), (-1, 0), (1, 0)],
            (Piece::T, Rotation::East) => vec![(0, 0), (1, 0), (0, -1), (0, 1)],
            (Piece::T, Rotation::South) => vec![(0, 0), (0, -1), (-1, 0), (1, 0)],
            (Piece::T, Rotation::West) => vec![(0, 0), (-1, 0), (0, -1), (0, 1)],
            _ => vec![(0, 0), (0, 0), (0, 0), (0, 0)],
        };
        v
    }
}

impl Rotation {
    /// The next rotation state clockwise.
    pub fn cw(self) -> (r: Rotation)
        ensures
            r == self.spec_cw(),
    {
        match self {
            Rotation::North => Rotation::East,
            Rotation::East => Rotation::South,
            Rotation::South => Rotation::West,
            Rotation::West => Rotation::North,
        }
    }

    /// The next rotation state counter-clockwise.
    pub fn ccw(self) -> (r: Rotation)
        ensures
            r == self.spec_ccw(),
    {
        match self {
            Rotation::East => Rotation::North,
            Rotation::South => Rotation::East,
            Rotation::West => Rotation::South,
            Rotation::North => Rotation::West,
        }
    }

    /// The rotation state after a 180-degree turn.
    pub fn flip(self) -> (r: Rotation)
        ensures
            r == self.spec_flip(),
    {
        match self {
            Rotation::North => Rotation::South,
            Rotation::South => Rotation::North,
            Rotation::East => Rotation::West,
            Rotation::West => Rotation::East,
        }
    }

    pub open spec fn spec_cw(self) -> Rotation {
        match self {
            Rotation::North => Rotation::East,
            Rotation::East => Rotation::South,
            Rotation::South => Rotation::West,
            Rotation::West => Rotation::North,
        }
    }

    pub open spec fn spec_ccw(self) -> Rotation {
        match self {
            Rotation::East => Rotation::North,
            Rotation::South => Rotation::East,
            Rotation::West => Rotation::South,
            Rotation::North => Rotation::West,
        }
    }

    pub open spec fn spec_flip(self) -> Rotation {
        match self {
            Rotation::North => Rotation::South,
            Rotation::South => Rotation::North,
            Rotation::East => Rotation::West,
            Rotation::West => Rotation::East,
        }
    }
}

/// Composing a clockwise turn after a counter-clockwise one returns to the
/// original state, and the other way round.
pub proof fn lemma_cw_ccw_id(r: Rotation)
    ensures
        r.spec_ccw().spec_cw() == r,
        r.spec_cw().spec_ccw() == r,
{
}

/// A 180-degree turn is an involution.
pub proof fn lemma_flip_flip_id(r: Rotation)
    ensures
        r.spec_flip().spec_flip() == r,
{
}

/// Four clockwise turns are the identity.
pub proof fn lemma_cw_four_id(r: Rotation)
    ensures
        r.spec_cw().spec_cw().spec_cw().spec_cw() == r,
{
}

} // verus!

//! Placements: a piece at a position in a rotation, and its occupied cells.

use vstd::prelude::*;

use crate::piece::{piece_offsets, Piece, Rotation};

verus! {

/// Whether `v` fits in a `usize`.
pub open spec fn fits_usize(v: int) -> bool {
    0 <= v <= usize::MAX
}

/// Whether all four cells of the piece, centered at (x, y), have
/// machine-representable coordinates.
pub open spec fn cells_ok(p: Piece, rotation: Rotation, x: int, y: int) -> bool {
    forall|i: int|
        0 <= i < 4 ==> fits_usize(x + (#[trigger] piece_offsets(p, rotation)[i]).0)
            && fits_usize(y + piece_offsets(p, rotation)[i].1)
}

/// The i-th cell occupied by the piece centered at (x, y).
pub open spec fn spec_cell(p: Piece, rotation: Rotation, x: int, y: int, i: int) -> (int, int) {
    (x + piece_offsets(p, rotation)[i].0, y + piece_offsets(p, rotation)[i].1)
}

impl Piece {
    /// The four cells occupied by this piece centered at (x, y), or `None`
    /// when an offset would push a coordinate outside the `usize` range.
    pub fn cells(self, x: usize, y: usize, rotation: Rotation) -> (r: Option<
        Vec<(usize, usize)>,
    >)
        requires
            self.is_tetromino(),
        ensures
            r is Some <==> cells_ok(self, rotation, x as int, y as int),
            r is Some ==> {
                &&& r->Some_0@.len() == 4
                &&& forall|i: int|
                    0 <= i < 4 ==> ((#[trigger] r->Some_0@[i]).0 as int,
                    r->Some_0@[i].1 as int) == spec_cell(self, rotation, x as int, y as int, i)
            },
    {
        let offs = self.offsets(rotation);
        let mut a: Vec<(usize, usize)> = Vec::new();
        let mut i: usize = 0;
        while i < 4
            invariant
                self.is_tetromino(),
                0 <= i <= 4,
                offs@.len() == 4,
                forall|j: int|
                    0 <= j < 4 ==> (#[trigger] offs@[j].0 as int, offs@[j].1 as int)
                        == piece_offsets(self, rotation)[j],
                a@.len() == i,
                forall|j: int|
                    0 <= j < i ==> fits_usize(
                        x + (#[trigger] piece_offsets(self, rotation)[j]).0,
                    ) && fits_usize(y + piece_offsets(self, rotation)[j].1),
                forall|j: int|
                    0 <= j < i ==> ((#[trigger] a@[j]).0 as int, a@[j].1 as int) == spec_cell(
                        self,
                        rotation,
                        x as int,
                        y as int,
                        j,
                    ),
            decreases 4 - i,
        {
            let (ox, oy) = offs[i];
            let dx = match x.checked_add_signed(ox) {
                Some(v) => v,
                None => {
                    return None;
                },
            };
            let dy = match y.checked_add_signed(oy) {
                Some(v) => v,
                None => {
                    return None;
                },
            };
            a.push((dx, dy));
            i = i + 1;
        }
        Some(a)
    }
}

/// A piece resting at a rotation center (x, y) in a rotation state.
#[derive(Clone, Copy, Debug, PartialEq, Eq, Hash, Structural)]
pub struct Placement(pub Piece, pub usize, pub usize, pub Rotation);

impl Placement {
    /// Build a placement from its four components.
    pub fn new(piece: Piece, x: usize, y: usize, rotation: Rotation) -> (r: Placement)
        ensures
            r == Placement(piece, x, y, rotation),
    {
        Placement(piece, x, y, rotation)
    }

    /// The piece kind.
    pub fn piece(&self) -> (r: Piece)
        ensures
            r == self.0,
    {
        self.0
    }

    /// The x coordinate of the rotation center.
    pub fn x(&self) -> (r: usize)
        ensures
            r == self.1,
    {
        self.1
    }

    /// The y coordinate of the rotation center.
    pub fn y(&self) -> (r: usize)
        ensures
            r == self.2,
    {
        self.2
    }

    /// The rotation center as a pair.
    pub fn location(&self) -> (r: (usize, usize))
        ensures
            r == (self.1, self.2),
    {
        (self.1, self.2)
    }

    /// The rotation state.
    pub fn rotation(&self) -> (r: Rotation)
        ensures
            r == self.3,
    {
        self.3
    }

    /// This placement moved to another center.
    pub fn at(self, to: (usize, usize)) -> (r: Placement)
        ensures
            r == Placement(self.0, to.0, to.1, self.3),
    {
        let mut s = self;
        s.move_to(to);
        s
    }

    /// Move the rotation center.
    pub fn move_to(&mut self, to: (usize, usize))
        ensures
            *final(self) == Placement(old(self).0, to.0, to.1, old(self).3),
    {
        self.1 = to.0;
        self.2 = to.1;
    }

    /// Replace the rotation state.
    pub fn set_rotation(&mut self, rotation: Rotation)
        ensures
            *final(self) == Placement(old(self).0, old(self).1, old(self).2, rotation),
    {
        self.3 = rotation;
    }

    /// Replace the x coordinate.
    pub fn set_x(&mut self, x: usize)
        ensures
            *final(self) == Placement(old(self).0, x, old(self).2, old(self).3),
    {
        self.1 = x;
    }

    /// Replace the y coordinate.
    pub fn set_y(&mut self, y: usize)
        ensures
            *final(self) == Placement(old(self).0, old(self).1, y, old(self).3),
    {
        self.2 = y;
    }

    /// The four cells this placement occupies, when representable.
    pub fn cells(&self) -> (r: Option<Vec<(usize, usize)>>)
        requires
            self.0.is_tetromino(),
        ensures
            r is Some <==> cells_ok(self.0, self.3, self.1 as int, self.2 as int),
            r is Some ==> {
                &&& r->Some_0@.len() == 4
                &&& forall|i: int|
                    0 <= i < 4 ==> ((#[trigger] r->Some_0@[i]).0 as int,
                    r->Some_0@[i].1 as int) == spec_cell(
                        self.0,
                        self.3,
                        self.1 as int,
                        self.2 as int,
                        i,
                    )
            },
    {
        self.0.cells(self.1, self.2, self.3)
    }
}

/// Whether two placements are the same.
pub fn placement_eq(a: Placement, b: Placement) -> (r: bool)
    ensures
        r == (a == b),
{
    crate::kick::piece_eq(a.0, b.0) && a.1 == b.1 && a.2 == b.2 && crate::kick::rot_eq(a.3, b.3)
}

} // verus!

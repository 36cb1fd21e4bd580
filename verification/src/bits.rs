//! The bit form of a board: occupancy only, as a flat row-major bit vector.
//! Shifts saturate with ones, which turns "all four piece cells are in
//! bounds and empty" into a bitwise expression.

use vstd::prelude::*;

use crate::board::Board;
use crate::piece::{piece_offsets, Piece, Rotation};
use crate::placement::Placement;

verus! {

/// An occupancy grid: `bits[y * width + x]` is true when the cell at
/// (x, y) is filled. Row 0 is the bottom row.
#[derive(Debug)]
pub struct Bits {
    pub width: usize,
    pub height: usize,
    pub bits: Vec<bool>,
}

/// The flat bit vector of a grid, cut into rows.
pub open spec fn bit_rows(bits: Seq<bool>, w: nat, h: nat) -> Seq<Seq<bool>> {
    Seq::new(h as int as nat, |y: int| Seq::new(w, |x: int| bits[y * w + x]))
}

/// The views of a vector of bit rows.
pub open spec fn bool_views_of(data: Seq<Vec<bool>>) -> Seq<Seq<bool>> {
    data.map_values(|r: Vec<bool>| r@)
}

impl Bits {
    /// The bit vector holds exactly width times height bits.
    pub open spec fn wf(&self) -> bool {
        self.bits@.len() == self.width * self.height
    }

    /// The grid as a sequence of rows of bits.
    pub open spec fn rows(&self) -> Seq<Seq<bool>> {
        bit_rows(self.bits@, self.width as nat, self.height as nat)
    }

    /// The bit at (x, y); false outside the grid.
    pub open spec fn spec_get(&self, x: int, y: int) -> bool {
        0 <= x < self.width && 0 <= y < self.height && self.rows()[y][x]
    }

    /// Width and height.
    pub fn dimensions(&self) -> (r: (usize, usize))
        ensures
            r == (self.width, self.height),
    {
        (self.width, self.height)
    }

    /// Whether (x, y) lies inside the grid.
    pub fn has(&self, x: usize, y: usize) -> (r: bool)
        ensures
            r == (x < self.width && y < self.height),
    {
        x < self.width && y < self.height
    }

    /// The flat index of (x, y).
    pub fn index(&self, x: usize, y: usize) -> (r: usize)
        requires
            x < self.width,
            y < self.height,
            self.wf(),
        ensures
            r == y * self.width + x,
            r < self.bits@.len(),
    {
        let n = self.bits.len();
        proof {
            lemma_rowmajor_bound(x as int, y as int, self.width as int, self.height as int);
            assert(n == self.bits@.len());
        }
        y * self.width + x
    }

    /// The bit at (x, y); false outside the grid.
    pub fn get(&self, x: usize, y: usize) -> (r: bool)
        requires
            self.wf(),
        ensures
            r == self.spec_get(x as int, y as int),
    {
        if x < self.width && y < self.height {
            let i = self.index(x, y);
            self.bits[i]
        } else {
            false
        }
    }

    /// Overwrite the bit at (x, y).
    pub fn set(&mut self, x: usize, y: usize, b: bool)
        requires
            old(self).wf(),
            x < old(self).width,
            y < old(self).height,
        ensures
            final(self).wf(),
            final(self).width == old(self).width,
            final(self).height == old(self).height,
            final(self).bits@ == old(self).bits@.update(y * old(self).width + x, b),
            forall|xx: int, yy: int|
                !(xx == x && yy == y) ==> final(self).spec_get(xx, yy) == old(self).spec_get(
                    xx,
                    yy,
                ),
            final(self).spec_get(x as int, y as int) == b,
    {
        let i = self.index(x, y);
        self.bits.set(i, b);
        proof {
            lemma_rowmajor_bound(x as int, y as int, self.width as int, self.height as int);
            assert forall|xx: int, yy: int| !(xx == x && yy == y) implies final(self).spec_get(
                xx,
                yy,
            ) == old(self).spec_get(xx, yy) by {
                if 0 <= xx < self.width && 0 <= yy < self.height {
                    lemma_rowmajor_bound(xx, yy, self.width as int, self.height as int);
                    lemma_rowmajor_distinct(
                        xx,
                        yy,
                        x as int,
                        y as int,
                        self.width as int,
                    );
                }
            }
        }
    }

    /// The pointwise complement.
    pub fn not(&self) -> (r: Bits)
        ensures
            r.width == self.width,
            r.height == self.height,
            r.bits@.len() == self.bits@.len(),
            forall|i: int| 0 <= i < self.bits@.len() ==> r.bits@[i] == !self.bits@[i],
    {
        let mut bits: Vec<bool> = Vec::new();
        let mut i: usize = 0;
        while i < self.bits.len()
            invariant
                i <= self.bits@.len(),
                bits@.len() == i,
                forall|j: int| 0 <= j < i ==> bits@[j] == !self.bits@[j],
            decreases self.bits@.len() - i,
        {
            bits.push(!self.bits[i]);
            i = i + 1;
        }
        Bits { width: self.width, height: self.height, bits }
    }

    /// The pointwise conjunction of two grids of equal dimensions.
    pub fn and(&self, rhs: &Bits) -> (r: Bits)
        requires
            self.width == rhs.width,
            self.height == rhs.height,
            self.bits@.len() == rhs.bits@.len(),
        ensures
            r.width == self.width,
            r.height == self.height,
            r.bits@.len() == self.bits@.len(),
            forall|i: int|
                0 <= i < self.bits@.len() ==> r.bits@[i] == (self.bits@[i] && rhs.bits@[i]),
    {
        let mut bits: Vec<bool> = Vec::new();
        let mut i: usize = 0;
        while i < self.bits.len()
            invariant
                i <= self.bits@.len(),
                self.bits@.len() == rhs.bits@.len(),
                bits@.len() == i,
                forall|j: int| 0 <= j < i ==> bits@[j] == (self.bits@[j] && rhs.bits@[j]),
            decreases self.bits@.len() - i,
        {
            bits.push(self.bits[i] && rhs.bits[i]);
            i = i + 1;
        }
        Bits { width: self.width, height: self.height, bits }
    }

    /// The pointwise disjunction of two grids of equal dimensions.
    pub fn or(&self, rhs: &Bits) -> (r: Bits)
        requires
            self.width == rhs.width,
            self.height == rhs.height,
            self.bits@.len() == rhs.bits@.len(),
        ensures
            r.width == self.width,
            r.height == self.height,
            r.bits@.len() == self.bits@.len(),
            forall|i: int|
                0 <= i < self.bits@.len() ==> r.bits@[i] == (self.bits@[i] || rhs.bits@[i]),
    {
        let mut bits: Vec<bool> = Vec::new();
        let mut i: usize = 0;
        while i < self.bits.len()
            invariant
                i <= self.bits@.len(),
                self.bits@.len() == rhs.bits@.len(),
                bits@.len() == i,
                forall|j: int| 0 <= j < i ==> bits@[j] == (self.bits@[j] || rhs.bits@[j]),
            decreases self.bits@.len() - i,
        {
            bits.push(self.bits[i] || rhs.bits[i]);
            i = i + 1;
        }
        Bits { width: self.width, height: self.height, bits }
    }

    /// The grid cut into rows, bottom row first.
    pub fn to_rows(&self) -> (r: Vec<Vec<bool>>)
        requires
            self.wf(),
        ensures
            bool_views_of(r@) == self.rows(),
            r@.len() == self.height,
            forall|y: int| 0 <= y < self.height ==> (#[trigger] r@[y]@).len() == self.width,
    {
        let mut out: Vec<Vec<bool>> = Vec::new();
        let mut y: usize = 0;
        while y < self.height
            invariant
                y <= self.height,
                self.wf(),
                out@.len() == y,
                forall|j: int| 0 <= j < y ==> #[trigger] out@[j]@ == self.rows()[j],
            decreases self.height - y,
        {
            let mut row: Vec<bool> = Vec::new();
            let mut x: usize = 0;
            while x < self.width
                invariant
                    x <= self.width,
                    y < self.height,
                    self.wf(),
                    row@.len() == x,
                    forall|j: int| 0 <= j < x ==> row@[j] == self.bits@[y * self.width + j],
                decreases self.width - x,
            {
                let i = self.index(x, y);
                row.push(self.bits[i]);
                x = x + 1;
            }
            proof {
                assert(row@ =~= self.rows()[y as int]);
            }
            out.push(row);
            y = y + 1;
        }
        proof {
            assert(bool_views_of(out@) =~= self.rows());
        }
        out
    }
}

/// A grid rebuilt from rows of equal width.
pub fn bits_from_rows(rows: &Vec<Vec<bool>>, width: usize) -> (r: Bits)
    requires
        forall|y: int| 0 <= y < rows@.len() ==> (#[trigger] rows@[y]@).len() == width,
        rows@.len() * width <= usize::MAX,
    ensures
        r.wf(),
        r.width == width,
        r.height == rows@.len(),
        r.rows() == bool_views_of(rows@),
{
    let height = rows.len();
    let mut bits: Vec<bool> = Vec::new();
    let mut y: usize = 0;
    while y < height
        invariant
            y <= height,
            height == rows@.len(),
            forall|j: int| 0 <= j < rows@.len() ==> (#[trigger] rows@[j]@).len() == width,
            rows@.len() * width <= usize::MAX,
            bits@.len() == y * width,
            forall|j: int, x: int|
                0 <= j < y && 0 <= x < width ==> bits@[j * width + x] == #[trigger] rows@[j]@[x],
        decreases height - y,
    {
        proof {
            lemma_mul_mono(y as int, height as int, width as int);
            lemma_mul_mono(y + 1, height as int, width as int);
            assert((y + 1) * width == y * width + width) by (nonlinear_arith);
        }
        let row = &rows[y];
        let mut x: usize = 0;
        while x < width
            invariant
                x <= width,
                y < height,
                height == rows@.len(),
                row@ == rows@[y as int]@,
                row@.len() == width,
                rows@.len() * width <= usize::MAX,
                (y + 1) * width == y * width + width,
                y * width + width <= usize::MAX,
                bits@.len() == y * width + x,
                forall|j: int, xx: int|
                    0 <= j < y && 0 <= xx < width ==> bits@[j * width + xx] == #[trigger] rows@[j]@[xx],
                forall|xx: int| 0 <= xx < x ==> bits@[y * width + xx] == row@[xx],
            decreases width - x,
        {
            let ghost prev = bits@;
            bits.push(row[x]);
            proof {
                assert(bits@ == prev.push(row@[x as int]));
                assert forall|j: int, xx: int| 0 <= j < y && 0 <= xx < width implies bits@[j
                    * width + xx] == #[trigger] rows@[j]@[xx] by {
                    lemma_rowmajor_bound(xx, j, width as int, y as int);
                    assert(j * width + xx < width * y);
                    assert(width * y == y * width) by (nonlinear_arith);
                    assert(j * width + xx < prev.len());
                    assert(bits@[j * width + xx] == prev[j * width + xx]);
                    assert(prev[j * width + xx] == rows@[j]@[xx]);
                }
            }
            x = x + 1;
        }
        y = y + 1;
    }
    let r = Bits { width, height, bits };
    proof {
        assert(r.bits@.len() == height * width);
        assert(width * height == height * width) by (nonlinear_arith);
        assert(r.rows() =~~= bool_views_of(rows@)) by {
            assert forall|j: int, xx: int| 0 <= j < height && 0 <= xx < width implies r.rows()[j][xx]
                == rows@[j]@[xx] by {
                lemma_rowmajor_bound(xx, j, width as int, height as int);
            }
        }
    }
    r
}

impl Clone for Bits {
    /// A clone carries the same dimensions and bits.
    fn clone(&self) -> (r: Self)
        ensures
            r.width == self.width,
            r.height == self.height,
            r.bits@ == self.bits@,
    {
        let mut bits: Vec<bool> = Vec::new();
        let mut i: usize = 0;
        while i < self.bits.len()
            invariant
                i <= self.bits@.len(),
                bits@ == self.bits@.take(i as int),
            decreases self.bits@.len() - i,
        {
            bits.push(self.bits[i]);
            proof {
                assert(self.bits@.take(i + 1) =~= self.bits@.take(i as int).push(
                    self.bits@[i as int],
                ));
            }
            i = i + 1;
        }
        proof {
            assert(self.bits@.take(self.bits@.len() as int) =~= self.bits@);
        }
        Bits { width: self.width, height: self.height, bits }
    }
}

/// The grid shifted by (dx, dy): the bit at (x, y) comes from
/// (x + dx, y + dy), and cells whose source falls outside the grid are
/// filled with ones.
pub open spec fn shift_view(rows: Seq<Seq<bool>>, w: nat, dx: int, dy: int) -> Seq<Seq<bool>> {
    Seq::new(
        rows.len(),
        |y: int|
            Seq::new(
                w,
                |x: int|
                    if 0 <= x + dx < w && 0 <= y + dy < rows.len() {
                        rows[y + dy][x + dx]
                    } else {
                        true
                    },
            ),
    )
}

impl Bits {
    /// The grid shifted by (dx, dy), vacated cells filled with ones.
    /// A positive dx moves content left; a positive dy moves it down.
    pub fn shift_for(&self, dx: isize, dy: isize) -> (r: Bits)
        requires
            self.wf(),
        ensures
            r.wf(),
            r.width == self.width,
            r.height == self.height,
            r.rows() == shift_view(self.rows(), self.width as nat, dx as int, dy as int),
    {
        let mut out: Vec<Vec<bool>> = Vec::new();
        let ghost target = shift_view(self.rows(), self.width as nat, dx as int, dy as int);
        let mut y: usize = 0;
        while y < self.height
            invariant
                y <= self.height,
                self.wf(),
                target == shift_view(self.rows(), self.width as nat, dx as int, dy as int),
                out@.len() == y,
                forall|j: int| 0 <= j < y ==> #[trigger] out@[j]@ == target[j],
                forall|j: int| 0 <= j < y ==> (#[trigger] out@[j]@).len() == self.width,
            decreases self.height - y,
        {
            let mut row: Vec<bool> = Vec::new();
            let mut x: usize = 0;
            while x < self.width
                invariant
                    x <= self.width,
                    y < self.height,
                    self.wf(),
                    target == shift_view(self.rows(), self.width as nat, dx as int, dy as int),
                    row@.len() == x,
                    forall|j: int| 0 <= j < x ==> row@[j] == target[y as int][j],
                decreases self.width - x,
            {
                let sx = x.checked_add_signed(dx);
                let sy = y.checked_add_signed(dy);
                let v: bool = match (sx, sy) {
                    (Some(px), Some(py)) => {
                        if px < self.width && py < self.height {
                            self.get(px, py)
                        } else {
                            true
                        }
                    },
                    _ => true,
                };
                proof {
                    assert(target[y as int][x as int] == (if 0 <= x + dx < self.width && 0 <= y
                        + dy < self.height {
                        self.rows()[y + dy][x + dx]
                    } else {
                        true
                    }));
                }
                row.push(v);
                x = x + 1;
            }
            proof {
                assert(row@ =~= target[y as int]);
            }
            out.push(row);
            y = y + 1;
        }
        let n = self.bits.len();
        proof {
            assert(n == self.width * self.height);
            assert(self.height * self.width == self.width * self.height) by (nonlinear_arith);
        }
        let r = bits_from_rows(&out, self.width);
        proof {
            assert(r.rows() =~~= target);
        }
        r
    }

    /// The grid shifted one column: content moves left, the right edge
    /// fills with ones.
    pub fn shift_left(&self) -> (r: Bits)
        requires
            self.wf(),
        ensures
            r.wf(),
            r.width == self.width,
            r.height == self.height,
            r.rows() == shift_view(self.rows(), self.width as nat, 1, 0),
    {
        self.shift_for(1, 0)
    }

    /// The grid shifted one column: content moves right, the left edge
    /// fills with ones.
    pub fn shift_right(&self) -> (r: Bits)
        requires
            self.wf(),
        ensures
            r.wf(),
            r.width == self.width,
            r.height == self.height,
            r.rows() == shift_view(self.rows(), self.width as nat, -1, 0),
    {
        self.shift_for(-1, 0)
    }

    /// The grid shifted one row: content moves up, the bottom row fills
    /// with ones.
    pub fn shift_up(&self) -> (r: Bits)
        requires
            self.wf(),
        ensures
            r.wf(),
            r.width == self.width,
            r.height == self.height,
            r.rows() == shift_view(self.rows(), self.width as nat, 0, -1),
    {
        self.shift_for(0, -1)
    }

    /// The grid shifted one row: content moves down, the top row fills
    /// with ones.
    pub fn shift_down(&self) -> (r: Bits)
        requires
            self.wf(),
        ensures
            r.wf(),
            r.width == self.width,
            r.height == self.height,
            r.rows() == shift_view(self.rows(), self.width as nat, 0, 1),
    {
        self.shift_for(0, 1)
    }

    /// The coordinates of the filled cells.
    pub fn filled_cells(&self) -> (r: Vec<(usize, usize)>)
        requires
            self.wf(),
        ensures
            forall|i: int|
                0 <= i < r@.len() ==> self.spec_get(
                    (#[trigger] r@[i]).0 as int,
                    r@[i].1 as int,
                ),
            forall|x: usize, y: usize|
                x < self.width && y < self.height && self.spec_get(x as int, y as int)
                    ==> #[trigger] r@.contains((x, y)),
            forall|i: int, j: int| 0 <= i < j < r@.len() ==> r@[i] != r@[j],
    {
        let mut out: Vec<(usize, usize)> = Vec::new();
        let mut y: usize = 0;
        while y < self.height
            invariant
                y <= self.height,
                self.wf(),
                forall|i: int|
                    0 <= i < out@.len() ==> self.spec_get(
                        (#[trigger] out@[i]).0 as int,
                        out@[i].1 as int,
                    ),
                forall|xx: usize, yy: usize|
                    xx < self.width && yy < y && self.spec_get(xx as int, yy as int)
                        ==> #[trigger] out@.contains((xx, yy)),
                forall|i: int, j: int| 0 <= i < j < out@.len() ==> out@[i] != out@[j],
                forall|i: int| 0 <= i < out@.len() ==> (#[trigger] out@[i]).1 < y,
            decreases self.height - y,
        {
            let mut x: usize = 0;
            while x < self.width
                invariant
                    x <= self.width,
                    y < self.height,
                    self.wf(),
                    forall|i: int|
                        0 <= i < out@.len() ==> self.spec_get(
                            (#[trigger] out@[i]).0 as int,
                            out@[i].1 as int,
                        ),
                    forall|xx: usize, yy: usize|
                        xx < self.width && yy < y && self.spec_get(xx as int, yy as int)
                            ==> #[trigger] out@.contains((xx, yy)),
                    forall|xx: usize|
                        xx < x && self.spec_get(xx as int, y as int) ==> #[trigger] out@.contains(
                            (xx, y),
                        ),
                    forall|i: int, j: int| 0 <= i < j < out@.len() ==> out@[i] != out@[j],
                    forall|i: int|
                        0 <= i < out@.len() ==> ((#[trigger] out@[i]).1 < y || (out@[i].1 == y
                            && out@[i].0 < x)),
                decreases self.width - x,
            {
                if self.get(x, y) {
                    let ghost prev = out@;
                    out.push((x, y));
                    proof {
                        assert(out@[prev.len() as int] == (x, y));
                        assert forall|xx: usize, yy: usize|
                            prev.contains((xx, yy)) implies #[trigger] out@.contains((xx, yy)) by {
                            let i = choose|i: int|
                                0 <= i < prev.len() && #[trigger] prev[i] == (xx, yy);
                            assert(out@[i] == (xx, yy));
                        }
                    }
                }
                x = x + 1;
            }
            y = y + 1;
        }
        out
    }

    /// The coordinates of the empty cells.
    pub fn empty_cells(&self) -> (r: Vec<(usize, usize)>)
        requires
            self.wf(),
        ensures
            forall|i: int|
                0 <= i < r@.len() ==> ((#[trigger] r@[i]).0 < self.width && r@[i].1 < self.height
                    && !self.spec_get(r@[i].0 as int, r@[i].1 as int)),
            forall|x: usize, y: usize|
                x < self.width && y < self.height && !self.spec_get(x as int, y as int)
                    ==> #[trigger] r@.contains((x, y)),
            forall|i: int, j: int| 0 <= i < j < r@.len() ==> r@[i] != r@[j],
    {
        let mut out: Vec<(usize, usize)> = Vec::new();
        let mut y: usize = 0;
        while y < self.height
            invariant
                y <= self.height,
                self.wf(),
                forall|i: int|
                    0 <= i < out@.len() ==> ((#[trigger] out@[i]).0 < self.width && out@[i].1
                        < self.height && !self.spec_get(out@[i].0 as int, out@[i].1 as int)),
                forall|xx: usize, yy: usize|
                    xx < self.width && yy < y && !self.spec_get(xx as int, yy as int)
                        ==> #[trigger] out@.contains((xx, yy)),
                forall|i: int, j: int| 0 <= i < j < out@.len() ==> out@[i] != out@[j],
                forall|i: int| 0 <= i < out@.len() ==> (#[trigger] out@[i]).1 < y,
            decreases self.height - y,
        {
            let mut x: usize = 0;
            while x < self.width
                invariant
                    x <= self.width,
                    y < self.height,
                    self.wf(),
                    forall|i: int|
                        0 <= i < out@.len() ==> ((#[trigger] out@[i]).0 < self.width && out@[i].1
                            < self.height && !self.spec_get(out@[i].0 as int, out@[i].1 as int)),
                    forall|xx: usize, yy: usize|
                        xx < self.width && yy < y && !self.spec_get(xx as int, yy as int)
                            ==> #[trigger] out@.contains((xx, yy)),
                    forall|xx: usize|
                        xx < x && !self.spec_get(xx as int, y as int) ==> #[trigger] out@.contains(
                            (xx, y),
                        ),
                    forall|i: int, j: int| 0 <= i < j < out@.len() ==> out@[i] != out@[j],
                    forall|i: int|
                        0 <= i < out@.len() ==> ((#[trigger] out@[i]).1 < y || (out@[i].1 == y
                            && out@[i].0 < x)),
                decreases self.width - x,
            {
                if !self.get(x, y) {
                    let ghost prev = out@;
                    out.push((x, y));
                    proof {
                        assert(out@[prev.len() as int] == (x, y));
                        assert forall|xx: usize, yy: usize|
                            prev.contains((xx, yy)) implies #[trigger] out@.contains((xx, yy)) by {
                            let i = choose|i: int|
                                0 <= i < prev.len() && #[trigger] prev[i] == (xx, yy);
                            assert(out@[i] == (xx, yy));
                        }
                    }
                }
                x = x + 1;
            }
            y = y + 1;
        }
        out
    }
}

/// A row of bits with no empty cell.
pub open spec fn bit_row_full(row: Seq<bool>) -> bool {
    !row.contains(false)
}

/// Whether row y of a bit grid is completely filled.
pub open spec fn bit_row_cleared(rows: Seq<Seq<bool>>, y: int) -> bool {
    0 <= y < rows.len() && bit_row_full(rows[y])
}

impl Bits {
    /// Whether a stored row is completely filled.
    fn row_full_at(&self, y: usize) -> (r: bool)
        requires
            self.wf(),
            y < self.height,
        ensures
            r == bit_row_full(self.rows()[y as int]),
    {
        let mut x: usize = 0;
        while x < self.width
            invariant
                x <= self.width,
                y < self.height,
                self.wf(),
                forall|j: int| 0 <= j < x ==> self.rows()[y as int][j] != false,
            decreases self.width - x,
        {
            if !self.get(x, y) {
                assert(self.rows()[y as int].contains(false)) by {
                    assert(self.rows()[y as int][x as int] == false);
                }
                return false;
            }
            x = x + 1;
        }
        assert(!self.rows()[y as int].contains(false)) by {
            if self.rows()[y as int].contains(false) {
                let j = choose|j: int|
                    0 <= j < self.rows()[y as int].len() && self.rows()[y as int][j] == false;
            }
        }
        true
    }

    /// The indices of the completely filled rows, in ascending order.
    pub fn removed_lines(&self) -> (r: Vec<usize>)
        requires
            self.wf(),
        ensures
            forall|i: int, j: int| 0 <= i < j < r@.len() ==> r@[i] < r@[j],
            forall|z: usize| #[trigger] r@.contains(z) <==> bit_row_cleared(self.rows(), z as int),
            forall|i: int| 0 <= i < r@.len() ==> bit_row_cleared(self.rows(), #[trigger] r@[i] as int),
            forall|z: int|
                0 <= z <= self.height ==> count_lt(r@, z) == full_rows_below(self.rows(), z),
    {
        let mut out: Vec<usize> = Vec::new();
        let mut y: usize = 0;
        while y < self.height
            invariant
                y <= self.height,
                self.wf(),
                forall|i: int, j: int| 0 <= i < j < out@.len() ==> out@[i] < out@[j],
                forall|i: int| 0 <= i < out@.len() ==> out@[i] < y,
                forall|z: usize| #[trigger] out@.contains(z) <==> (z < y && bit_row_cleared(
                    self.rows(),
                    z as int,
                )),
                forall|z: int|
                    0 <= z <= y ==> count_lt(out@, z) == full_rows_below(self.rows(), z),
            decreases self.height - y,
        {
            let ghost prev = out@;
            if self.row_full_at(y) {
                out.push(y);
                proof {
                    assert forall|z: int| 0 <= z <= y + 1 implies count_lt(out@, z)
                        == full_rows_below(self.rows(), z) by {
                        lemma_count_lt_push(prev, y, z);
                        if z == y + 1 {
                            lemma_count_lt_split(prev, prev.len() as int, z - 1);
                            lemma_count_lt_split(prev, prev.len() as int, z);
                        }
                    }
                    assert forall|z: usize| #[trigger] out@.contains(z) implies (z < y + 1
                        && bit_row_cleared(self.rows(), z as int)) by {
                        let i = choose|i: int| 0 <= i < out@.len() && out@[i] == z;
                        if i < prev.len() {
                            assert(prev[i] == z);
                            assert(prev.contains(z));
                        } else {
                            assert(z == y);
                        }
                    }
                    assert forall|z: usize| (z < y + 1 && bit_row_cleared(self.rows(), z as int))
                        implies #[trigger] out@.contains(z) by {
                        if z < y {
                            assert(prev.contains(z));
                            let i = choose|i: int| 0 <= i < prev.len() && prev[i] == z;
                            assert(out@[i] == z);
                        } else {
                            assert(out@[prev.len() as int] == y);
                        }
                    }
                }
            } else {
                proof {
                    assert forall|z: usize| (z < y + 1 && bit_row_cleared(self.rows(), z as int))
                        implies #[trigger] out@.contains(z) by {
                        assert(z != y);
                    }
                    assert forall|z: int| 0 <= z <= y + 1 implies count_lt(out@, z)
                        == full_rows_below(self.rows(), z) by {
                        if z == y + 1 {
                            lemma_count_lt_split(out@, out@.len() as int, z - 1);
                            lemma_count_lt_split(out@, out@.len() as int, z);
                        }
                    }
                }
            }
            y = y + 1;
        }
        proof {
            assert forall|z: usize| #[trigger] out@.contains(z) implies bit_row_cleared(
                self.rows(),
                z as int,
            ) by {}
            assert forall|z: usize| bit_row_cleared(self.rows(), z as int)
                implies #[trigger] out@.contains(z) by {
                assert(z < self.height);
            }
            assert forall|i: int| 0 <= i < out@.len() implies bit_row_cleared(
                self.rows(),
                #[trigger] out@[i] as int,
            ) by {
                assert(out@.contains(out@[i]));
            }
        }
        out
    }
}

/// A row of `w` copies of one bit.
pub open spec fn uniform_row(w: nat, a: bool) -> Seq<bool> {
    Seq::new(w, |x: int| a)
}

/// How many of the given indices lie strictly below `y`.
pub open spec fn count_lt(idxs: Seq<usize>, y: int) -> nat
    decreases idxs.len(),
{
    if idxs.len() == 0 {
        0
    } else {
        (if idxs[0] < y {
            1nat
        } else {
            0nat
        }) + count_lt(idxs.drop_first(), y)
    }
}

/// When the first `k` indices lie below `y` and the rest do not, exactly
/// `k` indices lie below `y`.
pub proof fn lemma_count_lt_split(idxs: Seq<usize>, k: int, y: int)
    requires
        0 <= k <= idxs.len(),
        forall|j: int| 0 <= j < k ==> idxs[j] < y,
        forall|j: int| k <= j < idxs.len() ==> idxs[j] >= y,
    ensures
        count_lt(idxs, y) == k,
    decreases idxs.len(),
{
    if idxs.len() > 0 {
        let rest = idxs.drop_first();
        assert(forall|j: int| 0 <= j < rest.len() ==> rest[j] == idxs[j + 1]);
        if k == 0 {
            lemma_count_lt_split(rest, 0, y);
        } else {
            lemma_count_lt_split(rest, k - 1, y);
        }
    }
}

/// Appending an index adds one to the count exactly when it lies below `y`.
pub proof fn lemma_count_lt_push(s: Seq<usize>, v: usize, z: int)
    ensures
        count_lt(s.push(v), z) == count_lt(s, z) + (if v < z {
            1nat
        } else {
            0nat
        }),
    decreases s.len(),
{
    let p = s.push(v);
    assert(p.len() == s.len() + 1);
    assert(count_lt(p, z) == (if p[0] < z {
        1nat
    } else {
        0nat
    }) + count_lt(p.drop_first(), z));
    if s.len() == 0 {
        assert(p[0] == v);
        assert(p.drop_first() =~= Seq::<usize>::empty());
        assert(count_lt(p.drop_first(), z) == 0);
    } else {
        assert(p.drop_first() =~= s.drop_first().push(v));
        lemma_count_lt_push(s.drop_first(), v, z);
        assert(p[0] == s[0]);
        assert(count_lt(s, z) == (if s[0] < z {
            1nat
        } else {
            0nat
        }) + count_lt(s.drop_first(), z));
    }
}

/// The number of full rows among the rows strictly below `y`.
pub open spec fn full_rows_below(rows: Seq<Seq<bool>>, y: int) -> nat
    decreases y,
{
    if y <= 0 {
        0
    } else {
        full_rows_below(rows, y - 1) + if bit_row_cleared(rows, y - 1) {
            1nat
        } else {
            0nat
        }
    }
}

/// A strictly ascending index sequence grows at least by one per step.
pub proof fn lemma_ascending_gap(idxs: Seq<usize>, i: int, j: int)
    requires
        forall|a: int, b: int| 0 <= a < b < idxs.len() ==> idxs[a] < idxs[b],
        0 <= i <= j < idxs.len(),
    ensures
        idxs[j] >= idxs[i] + (j - i),
    decreases j - i,
{
    if i < j {
        lemma_ascending_gap(idxs, i, j - 1);
    }
}

/// The rows of a bit grid that remain after removing every completely
/// filled row.
pub open spec fn drop_full_bit_rows(rows: Seq<Seq<bool>>) -> Seq<Seq<bool>>
    decreases rows.len(),
{
    if rows.len() == 0 {
        Seq::empty()
    } else {
        drop_full_bit_rows(rows.drop_last()) + if bit_row_full(rows.last()) {
            Seq::<Seq<bool>>::empty()
        } else {
            seq![rows.last()]
        }
    }
}

/// A copy of a row of bits.
pub fn copy_bool_row(src: &Vec<bool>) -> (r: Vec<bool>)
    ensures
        r@ == src@,
{
    let mut row: Vec<bool> = Vec::new();
    let mut x: usize = 0;
    while x < src.len()
        invariant
            x <= src@.len(),
            row@ == src@.take(x as int),
        decreases src@.len() - x,
    {
        row.push(src[x]);
        proof {
            assert(src@.take(x + 1) =~= src@.take(x as int).push(src@[x as int]));
        }
        x = x + 1;
    }
    proof {
        assert(src@.take(src@.len() as int) =~= src@);
    }
    row
}

impl Bits {
    /// Remove every completely filled row, compacting the grid downward;
    /// the height shrinks by the number of removed rows.
    pub fn skim(&mut self)
        requires
            old(self).wf(),
        ensures
            final(self).wf(),
            final(self).width == old(self).width,
            final(self).height == old(self).height - full_rows_below(
                old(self).rows(),
                old(self).height as int,
            ),
            final(self).rows() == drop_full_bit_rows(old(self).rows()),
    {
        let ghost rows = self.rows();
        let src = self.to_rows();
        let mut kept: Vec<Vec<bool>> = Vec::new();
        let mut y: usize = 0;
        while y < self.height
            invariant
                y <= self.height,
                self.wf(),
                rows == self.rows(),
                src@.len() == self.height,
                bool_views_of(src@) == rows,
                forall|j: int| 0 <= j < self.height ==> (#[trigger] src@[j]@).len() == self.width,
                kept@.len() == y - full_rows_below(rows, y as int),
                full_rows_below(rows, y as int) <= y,
                bool_views_of(kept@) == drop_full_bit_rows(rows.take(y as int)),
                forall|j: int| 0 <= j < kept@.len() ==> (#[trigger] kept@[j]@).len() == self.width,
            decreases self.height - y,
        {
            proof {
                assert(rows.take(y + 1).drop_last() =~= rows.take(y as int));
                assert(rows.take(y + 1).last() == rows[y as int]);
                assert(src@[y as int]@ == rows[y as int]);
            }
            if !self.row_full_at(y) {
                kept.push(copy_bool_row(&src[y]));
                proof {
                    assert(bool_views_of(kept@) =~= drop_full_bit_rows(rows.take(y + 1)));
                }
            } else {
                proof {
                    assert(bool_views_of(kept@) =~= drop_full_bit_rows(rows.take(y + 1)));
                }
            }
            y = y + 1;
        }
        let nb = self.bits.len();
        proof {
            assert(rows.take(self.height as int) =~= rows);
            lemma_mul_mono(kept@.len() as int, self.height as int, self.width as int);
            assert(self.height * self.width == self.width * self.height) by (nonlinear_arith);
            assert(nb == self.width * self.height);
        }
        let w = self.width;
        *self = bits_from_rows(&kept, w);
    }

    /// Insert rows filled with the bit `a` at the given ascending indices,
    /// restoring the height by the number of inserted rows. Every other row
    /// keeps its order.
    pub fn add_back(&mut self, l: &Vec<usize>, a: bool)
        requires
            old(self).wf(),
            forall|i: int, j: int| 0 <= i < j < l@.len() ==> l@[i] < l@[j],
            forall|k: int| 0 <= k < l@.len() ==> (#[trigger] l@[k] as int) < old(self).height + l@.len(),
            old(self).height + l@.len() <= usize::MAX,
            (old(self).height + l@.len()) * old(self).width <= usize::MAX,
        ensures
            final(self).wf(),
            final(self).width == old(self).width,
            final(self).height == old(self).height + l@.len(),
            forall|y: int|
                0 <= y < old(self).height + l@.len() ==> #[trigger] final(self).rows()[y] == (
                if l@.contains(y as usize) {
                    uniform_row(old(self).width as nat, a)
                } else {
                    old(self).rows()[y - count_lt(l@, y)]
                }),
            forall|y: int|
                0 <= y < old(self).height + l@.len() && !(#[trigger] l@.contains(y as usize))
                    ==> 0 <= y - count_lt(l@, y) < old(self).height,
    {
        let ghost rows = self.rows();
        let ghost n = l@.len();
        let src = self.to_rows();
        let filler: Vec<bool> = vec![a; self.width];
        proof {
            assert(filler@ =~= uniform_row(self.width as nat, a));
        }
        let total = self.height + l.len();
        let mut out: Vec<Vec<bool>> = Vec::new();
        let mut k: usize = 0;
        let mut y: usize = 0;
        while y < total
            invariant
                y <= total,
                total == self.height + n,
                n == l@.len(),
                self.wf(),
                rows == self.rows(),
                src@.len() == self.height,
                bool_views_of(src@) == rows,
                forall|j: int| 0 <= j < self.height ==> (#[trigger] src@[j]@).len() == self.width,
                filler@ == uniform_row(self.width as nat, a),
                forall|i: int, j: int| 0 <= i < j < n ==> l@[i] < l@[j],
                forall|j: int| 0 <= j < n ==> (#[trigger] l@[j] as int) < self.height + n,
                k <= n,
                k <= y,
                y - k <= self.height,
                forall|j: int| 0 <= j < k ==> l@[j] < y,
                k < n ==> l@[k as int] >= y,
                out@.len() == y,
                forall|j: int| 0 <= j < y ==> (#[trigger] out@[j]@).len() == self.width,
                forall|yy: int|
                    0 <= yy < y ==> #[trigger] out@[yy]@ == (if l@.contains(yy as usize) {
                        uniform_row(self.width as nat, a)
                    } else {
                        rows[yy - count_lt(l@, yy)]
                    }),
                forall|yy: int|
                    0 <= yy < y && !(#[trigger] l@.contains(yy as usize)) ==> 0 <= yy - count_lt(
                        l@,
                        yy,
                    ) < self.height,
            decreases total - y,
        {
            proof {
                lemma_count_lt_split(l@, k as int, y as int);
            }
            if k < l.len() && l[k] == y {
                out.push(copy_bool_row(&filler));
                proof {
                    assert(l@.contains(y as usize)) by {
                        assert(l@[k as int] == y as usize);
                    }
                }
                k = k + 1;
            } else {
                proof {
                    // the next source row exists: were it exhausted, the
                    // remaining insertion indices could not all fit below
                    // the final height
                    if y - k >= self.height {
                        assert(k < n);
                        assert(l@[k as int] != y);
                        assert(l@[k as int] as int >= y + 1);
                        lemma_ascending_gap(l@, k as int, n as int - 1);
                        assert(l@[n as int - 1] as int >= y + 1 + (n - 1 - k));
                        assert(false);
                    }
                    assert(!l@.contains(y as usize)) by {
                        if l@.contains(y as usize) {
                            let j = choose|j: int| 0 <= j < n && l@[j] == y as usize;
                            if j < k {
                                assert(l@[j] < y);
                            } else {
                                assert(l@[j] >= l@[k as int]) by {
                                    if j > k {
                                        assert(l@[k as int] < l@[j]);
                                    }
                                }
                            }
                        }
                    }
                }
                out.push(copy_bool_row(&src[y - k]));
            }
            y = y + 1;
        }
        proof {
            assert((self.height + n) * self.width == total * self.width);
        }
        let w = self.width;
        let ghost old_height = self.height;
        *self = bits_from_rows(&out, w);
        proof {
            assert forall|yy: int| 0 <= yy < old_height + n implies #[trigger] self.rows()[yy]
                == (if l@.contains(yy as usize) {
                uniform_row(old(self).width as nat, a)
            } else {
                old(self).rows()[yy - count_lt(l@, yy)]
            }) by {
                assert(self.rows()[yy] == out@[yy]@);
            }
        }
    }
}

/// Whether the piece cell for offset `i` is blocked at center (x, y):
/// out of bounds or resting on a filled cell.
pub open spec fn offset_blocked(
    sk: Seq<Seq<bool>>,
    w: nat,
    p: Piece,
    rot: Rotation,
    x: int,
    y: int,
    i: int,
) -> bool {
    let o = piece_offsets(p, rot)[i];
    !(0 <= x + o.0 < w && 0 <= y + o.1 < sk.len() && !sk[y + o.1][x + o.0])
}

/// Whether the piece fits with its center at (x, y): all four cells are in
/// bounds and empty.
pub open spec fn fit_at(sk: Seq<Seq<bool>>, w: nat, p: Piece, rot: Rotation, x: int, y: int) -> bool {
    forall|i: int| 0 <= i < 4 ==> !offset_blocked(sk, w, p, rot, x, y, i)
}

/// Whether some piece cell rests on the floor or on a filled cell.
pub open spec fn supported_at(
    sk: Seq<Seq<bool>>,
    w: nat,
    p: Piece,
    rot: Rotation,
    x: int,
    y: int,
) -> bool {
    exists|i: int|
        0 <= i < 4 && {
            let o = #[trigger] piece_offsets(p, rot)[i];
            y + o.1 == 0 || (0 <= y + o.1 - 1 < sk.len() && 0 <= x + o.0 < w && sk[y + o.1 - 1][x
                + o.0])
        }
}

/// The support test exactly as the mask pruning evaluates it for one
/// offset: a cell below the floor counts as support, a cell out of the
/// grid on the right or above counts as support too.
pub open spec fn raw_support_at(
    sk: Seq<Seq<bool>>,
    w: nat,
    p: Piece,
    rot: Rotation,
    x: int,
    y: int,
    i: int,
) -> bool {
    let o = piece_offsets(p, rot)[i];
    let zx = x + o.0;
    let zy = y + o.1 - 1;
    if zy < 0 {
        true
    } else if zx < 0 {
        false
    } else {
        !(zx < w && zy < sk.len()) || sk[zy][zx]
    }
}

/// Whether the pruning pass keeps the center (x, y).
pub open spec fn raw_supported(
    sk: Seq<Seq<bool>>,
    w: nat,
    p: Piece,
    rot: Rotation,
    x: int,
    y: int,
) -> bool {
    exists|i: int| 0 <= i < 4 && #[trigger] raw_support_at(sk, w, p, rot, x, y, i)
}

/// A legal landing cell of the skimmed grid: the piece fits and rests on
/// support.
pub open spec fn valid_locked_bits(
    sk: Seq<Seq<bool>>,
    w: nat,
    p: Piece,
    rot: Rotation,
    x: int,
    y: int,
) -> bool {
    fit_at(sk, w, p, rot, x, y) && supported_at(sk, w, p, rot, x, y)
}

/// The landing mask of a grid: the bit at (x, y) says that row y is not
/// currently filled and that, on the grid with filled rows removed, the
/// piece centered at the corresponding compacted row fits and is
/// supported.
pub open spec fn spec_landing(
    rows: Seq<Seq<bool>>,
    w: nat,
    p: Piece,
    rot: Rotation,
    x: int,
    y: int,
) -> bool {
    let sk = drop_full_bit_rows(rows);
    let yc = y - full_rows_below(rows, y);
    &&& !bit_row_cleared(rows, y)
    &&& valid_locked_bits(sk, w, p, rot, x, yc)
}

/// The first entry of every offset table is the rotation center itself.
pub proof fn lemma_offset_zero(p: Piece, rot: Rotation)
    ensures
        piece_offsets(p, rot)[0] == (0int, 0int),
{
}

/// When the piece fits, the pruning test agrees with the support
/// predicate.
pub proof fn lemma_support_equiv(
    sk: Seq<Seq<bool>>,
    w: nat,
    p: Piece,
    rot: Rotation,
    x: int,
    y: int,
)
    requires
        fit_at(sk, w, p, rot, x, y),
    ensures
        raw_supported(sk, w, p, rot, x, y) == supported_at(sk, w, p, rot, x, y),
{
    assert forall|i: int| 0 <= i < 4 implies (raw_support_at(sk, w, p, rot, x, y, i) == {
        let o = piece_offsets(p, rot)[i];
        y + o.1 == 0 || (0 <= y + o.1 - 1 < sk.len() && 0 <= x + o.0 < w && sk[y + o.1 - 1][x
            + o.0])
    }) by {
        let o = piece_offsets(p, rot)[i];
        assert(!offset_blocked(sk, w, p, rot, x, y, i));
        assert(0 <= x + o.0 < w && 0 <= y + o.1 < sk.len());
    }
    if raw_supported(sk, w, p, rot, x, y) {
        let i = choose|i: int| 0 <= i < 4 && #[trigger] raw_support_at(sk, w, p, rot, x, y, i);
        assert(supported_at(sk, w, p, rot, x, y)) by {
            let o = piece_offsets(p, rot)[i];
            assert(0 <= i < 4 && (y + o.1 == 0 || (0 <= y + o.1 - 1 < sk.len() && 0 <= x + o.0 < w
                && sk[y + o.1 - 1][x + o.0])));
        }
    }
    if supported_at(sk, w, p, rot, x, y) {
        let i = choose|i: int|
            0 <= i < 4 && {
                let o = #[trigger] piece_offsets(p, rot)[i];
                y + o.1 == 0 || (0 <= y + o.1 - 1 < sk.len() && 0 <= x + o.0 < w && sk[y + o.1
                    - 1][x + o.0])
            };
        assert(raw_support_at(sk, w, p, rot, x, y, i));
    }
}

/// The complement of a flat bit vector, read through the row view.
pub proof fn lemma_not_rows(b1: Seq<bool>, b2: Seq<bool>, w: nat, h: nat)
    requires
        b1.len() == w * h,
        b2.len() == b1.len(),
        forall|i: int| 0 <= i < b1.len() ==> b2[i] == !b1[i],
    ensures
        forall|x: int, y: int|
            0 <= x < w && 0 <= y < h ==> #[trigger] bit_rows(b2, w, h)[y][x] == !bit_rows(
                b1,
                w,
                h,
            )[y][x],
{
    assert forall|x: int, y: int| 0 <= x < w && 0 <= y < h implies #[trigger] bit_rows(
        b2,
        w,
        h,
    )[y][x] == !bit_rows(b1, w, h)[y][x] by {
        lemma_rowmajor_bound(x, y, w as int, h as int);
    }
}

/// The disjunction of two flat bit vectors, read through the row view.
pub proof fn lemma_or_rows(b1: Seq<bool>, b2: Seq<bool>, b3: Seq<bool>, w: nat, h: nat)
    requires
        b1.len() == w * h,
        b2.len() == b1.len(),
        b3.len() == b1.len(),
        forall|i: int| 0 <= i < b1.len() ==> b3[i] == (b1[i] || b2[i]),
    ensures
        forall|x: int, y: int|
            0 <= x < w && 0 <= y < h ==> #[trigger] bit_rows(b3, w, h)[y][x] == (bit_rows(
                b1,
                w,
                h,
            )[y][x] || bit_rows(b2, w, h)[y][x]),
{
    assert forall|x: int, y: int| 0 <= x < w && 0 <= y < h implies #[trigger] bit_rows(
        b3,
        w,
        h,
    )[y][x] == (bit_rows(b1, w, h)[y][x] || bit_rows(b2, w, h)[y][x]) by {
        lemma_rowmajor_bound(x, y, w as int, h as int);
    }
}

impl Bits {
    /// The mask of centers where the piece fits: the grid, shifted by each
    /// of the four offsets, disjoined and complemented.
    fn fit_mask(&self, piece: Piece, rotation: Rotation) -> (r: Bits)
        requires
            self.wf(),
            piece.is_tetromino(),
        ensures
            r.wf(),
            r.width == self.width,
            r.height == self.height,
            forall|x: int, y: int|
                0 <= x < self.width && 0 <= y < self.height ==> #[trigger] r.rows()[y][x] == fit_at(
                    self.rows(),
                    self.width as nat,
                    piece,
                    rotation,
                    x,
                    y,
                ),
    {
        let ghost w = self.width as nat;
        let ghost h = self.height as nat;
        let offs = piece.offsets(rotation);
        let mut acc = self.clone();
        let mut i: usize = 0;
        while i < 4
            invariant
                i <= 4,
                self.wf(),
                piece.is_tetromino(),
                w == self.width as nat,
                h == self.height as nat,
                offs@.len() == 4,
                forall|j: int|
                    0 <= j < 4 ==> (#[trigger] offs@[j].0 as int, offs@[j].1 as int)
                        == piece_offsets(piece, rotation)[j],
                acc.wf(),
                acc.width == self.width,
                acc.height == self.height,
                forall|x: int, y: int|
                    0 <= x < w && 0 <= y < h ==> #[trigger] acc.rows()[y][x] == (self.rows()[y][x]
                        || exists|j: int|
                        0 <= j < i && #[trigger] offset_blocked(
                            self.rows(),
                            w,
                            piece,
                            rotation,
                            x,
                            y,
                            j,
                        )),
            decreases 4 - i,
        {
            let (ox, oy) = offs[i];
            let sh = self.shift_for(ox, oy);
            let ghost prev = acc;
            let na = acc.or(&sh);
            proof {
                lemma_or_rows(prev.bits@, sh.bits@, na.bits@, w, h);
                assert forall|x: int, y: int| 0 <= x < w && 0 <= y < h implies #[trigger] na.rows()[y][x]
                    == (self.rows()[y][x] || exists|j: int|
                    0 <= j < i + 1 && #[trigger] offset_blocked(
                        self.rows(),
                        w,
                        piece,
                        rotation,
                        x,
                        y,
                        j,
                    )) by {
                    assert(na.rows()[y][x] == (prev.rows()[y][x] || sh.rows()[y][x]));
                    assert(sh.rows()[y][x] == offset_blocked(
                        self.rows(),
                        w,
                        piece,
                        rotation,
                        x,
                        y,
                        i as int,
                    )) by {
                        assert(sh.rows()[y][x] == (if 0 <= x + ox < w && 0 <= y + oy < h {
                            self.rows()[y + oy][x + ox]
                        } else {
                            true
                        }));
                    }
                    if na.rows()[y][x] {
                        if prev.rows()[y][x] {
                            if !self.rows()[y][x] {
                                let j = choose|j: int|
                                    0 <= j < i && #[trigger] offset_blocked(
                                        self.rows(),
                                        w,
                                        piece,
                                        rotation,
                                        x,
                                        y,
                                        j,
                                    );
                                assert(offset_blocked(self.rows(), w, piece, rotation, x, y, j));
                            }
                        } else {
                            assert(offset_blocked(
                                self.rows(),
                                w,
                                piece,
                                rotation,
                                x,
                                y,
                                i as int,
                            ));
                        }
                    }
                }
            }
            acc = na;
            i = i + 1;
        }
        let m = acc.not();
        proof {
            lemma_not_rows(acc.bits@, m.bits@, w, h);
            lemma_offset_zero(piece, rotation);
            assert forall|x: int, y: int| 0 <= x < w && 0 <= y < h implies #[trigger] m.rows()[y][x]
                == fit_at(self.rows(), w, piece, rotation, x, y) by {
                assert(m.rows()[y][x] == !acc.rows()[y][x]);
                assert(acc.rows()[y][x] == (self.rows()[y][x] || exists|j: int|
                    0 <= j < 4 && #[trigger] offset_blocked(
                        self.rows(),
                        w,
                        piece,
                        rotation,
                        x,
                        y,
                        j,
                    )));
                if m.rows()[y][x] {
                    assert forall|j: int| 0 <= j < 4 implies !offset_blocked(
                        self.rows(),
                        w,
                        piece,
                        rotation,
                        x,
                        y,
                        j,
                    ) by {}
                } else {
                    if fit_at(self.rows(), w, piece, rotation, x, y) {
                        assert(!offset_blocked(self.rows(), w, piece, rotation, x, y, 0));
                        assert(!self.rows()[y][x]);
                        if acc.rows()[y][x] {
                            let j = choose|j: int|
                                0 <= j < 4 && #[trigger] offset_blocked(
                                    self.rows(),
                                    w,
                                    piece,
                                    rotation,
                                    x,
                                    y,
                                    j,
                                );
                            assert(!offset_blocked(self.rows(), w, piece, rotation, x, y, j));
                        }
                    }
                }
            }
        }
        m
    }

    /// One raw support test of the pruning pass.
    fn raw_support_test(&self, x: usize, y: usize, ox: isize, oy: isize, Ghost(i): Ghost<int>)
        -> (r: bool)
        requires
            self.wf(),
            self.width <= usize::MAX - 2,
            x < self.width,
            0 <= i < 4,
            -3 <= ox <= 3,
            -3 <= oy <= 3,
            y + 3 <= usize::MAX,
        ensures
            ({
                let o = (ox as int, oy as int);
                let zx = x + o.0;
                let zy = y + o.1 - 1;
                r == (if zy < 0 {
                    true
                } else if zx < 0 {
                    false
                } else {
                    !(zx < self.width && zy < self.rows().len()) || self.rows()[zy][zx]
                })
            }),
    {
        let cy = match y.checked_add_signed(oy) {
            Some(v) => v,
            None => {
                return true;
            },
        };
        if cy == 0 {
            return true;
        }
        let zy = cy - 1;
        let zx = match x.checked_add_signed(ox) {
            Some(v) => v,
            None => {
                return false;
            },
        };
        if !(zx < self.width && zy < self.height) {
            return true;
        }
        self.get(zx, zy)
    }

    /// The landing mask for one piece and rotation: a bit is set exactly
    /// where the piece's rotation center may come to rest. The computation
    /// removes the currently filled rows, masks the shifted grids, prunes
    /// unsupported centers, and restores the removed rows as zero rows.
    pub fn possible_placements(&self, piece: Piece, rotation: Rotation) -> (r: Bits)
        requires
            self.wf(),
            piece.is_tetromino(),
            self.width <= usize::MAX - 2,
            self.height <= usize::MAX - 3,
        ensures
            r.wf(),
            r.width == self.width,
            r.height == self.height,
            forall|x: int, y: int|
                0 <= x < self.width && 0 <= y < self.height ==> #[trigger] r.rows()[y][x]
                    == spec_landing(self.rows(), self.width as nat, piece, rotation, x, y),
    {
        let ghost rows = self.rows();
        let ghost w = self.width as nat;
        let rm = self.removed_lines();
        let mut s = self.clone();
        proof {
            assert(s.rows() == rows);
        }
        s.skim();
        let ghost sk = s.rows();
        proof {
            assert(sk == drop_full_bit_rows(rows));
        }
        let mut m = s.fit_mask(piece, rotation);
        let offs = piece.offsets(rotation);
        let mut y: usize = 0;
        while y < s.height
            invariant
                y <= s.height,
                s.wf(),
                piece.is_tetromino(),
                s.width == self.width,
                self.width <= usize::MAX - 2,
                s.height <= usize::MAX - 3,
                w == self.width as nat,
                sk == s.rows(),
                offs@.len() == 4,
                forall|j: int|
                    0 <= j < 4 ==> (#[trigger] offs@[j].0 as int, offs@[j].1 as int)
                        == piece_offsets(piece, rotation)[j],
                forall|j: int|
                    0 <= j < 4 ==> -3 <= (#[trigger] offs@[j]).0 <= 3 && -3 <= offs@[j].1 <= 3,
                m.wf(),
                m.width == s.width,
                m.height == s.height,
                forall|xx: int, yy: int|
                    0 <= xx < w && 0 <= yy < y ==> #[trigger] m.rows()[yy][xx] == (fit_at(
                        sk,
                        w,
                        piece,
                        rotation,
                        xx,
                        yy,
                    ) && raw_supported(sk, w, piece, rotation, xx, yy)),
                forall|xx: int, yy: int|
                    0 <= xx < w && y <= yy < s.height ==> #[trigger] m.rows()[yy][xx] == fit_at(
                        sk,
                        w,
                        piece,
                        rotation,
                        xx,
                        yy,
                    ),
            decreases s.height - y,
        {
            let mut x: usize = 0;
            while x < s.width
                invariant
                    x <= s.width,
                    y < s.height,
                    s.wf(),
                    piece.is_tetromino(),
                    s.width == self.width,
                    self.width <= usize::MAX - 2,
                    s.height <= usize::MAX - 3,
                    w == self.width as nat,
                    sk == s.rows(),
                    offs@.len() == 4,
                    forall|j: int|
                        0 <= j < 4 ==> (#[trigger] offs@[j].0 as int, offs@[j].1 as int)
                            == piece_offsets(piece, rotation)[j],
                    forall|j: int|
                        0 <= j < 4 ==> -3 <= (#[trigger] offs@[j]).0 <= 3 && -3 <= offs@[j].1
                            <= 3,
                    m.wf(),
                    m.width == s.width,
                    m.height == s.height,
                    forall|xx: int, yy: int|
                        0 <= xx < w && 0 <= yy < y ==> #[trigger] m.rows()[yy][xx] == (fit_at(
                            sk,
                            w,
                            piece,
                            rotation,
                            xx,
                            yy,
                        ) && raw_supported(sk, w, piece, rotation, xx, yy)),
                    forall|xx: int|
                        0 <= xx < x ==> #[trigger] m.rows()[y as int][xx] == (fit_at(
                            sk,
                            w,
                            piece,
                            rotation,
                            xx,
                            y as int,
                        ) && raw_supported(sk, w, piece, rotation, xx, y as int)),
                    forall|xx: int|
                        x <= xx < w ==> #[trigger] m.rows()[y as int][xx] == fit_at(
                            sk,
                            w,
                            piece,
                            rotation,
                            xx,
                            y as int,
                        ),
                    forall|xx: int, yy: int|
                        0 <= xx < w && y < yy < s.height ==> #[trigger] m.rows()[yy][xx] == fit_at(
                            sk,
                            w,
                            piece,
                            rotation,
                            xx,
                            yy,
                        ),
                decreases s.width - x,
            {
                let mut found = false;
                let mut i: usize = 0;
                while i < 4
                    invariant
                        i <= 4,
                        s.wf(),
                        s.width == self.width,
                        self.width <= usize::MAX - 2,
                        s.height <= usize::MAX - 3,
                        w == self.width as nat,
                        sk == s.rows(),
                        x < s.width,
                        y < s.height,
                        offs@.len() == 4,
                        forall|j: int|
                            0 <= j < 4 ==> (#[trigger] offs@[j].0 as int, offs@[j].1 as int)
                                == piece_offsets(piece, rotation)[j],
                        forall|j: int|
                            0 <= j < 4 ==> -3 <= (#[trigger] offs@[j]).0 <= 3 && -3 <= offs@[j].1
                                <= 3,
                        found == exists|j: int|
                            0 <= j < i && #[trigger] raw_support_at(
                                sk,
                                w,
                                piece,
                                rotation,
                                x as int,
                                y as int,
                                j,
                            ),
                    decreases 4 - i,
                {
                    let (ox, oy) = offs[i];
                    let t = s.raw_support_test(x, y, ox, oy, Ghost(i as int));
                    proof {
                        assert(t == raw_support_at(
                            sk,
                            w,
                            piece,
                            rotation,
                            x as int,
                            y as int,
                            i as int,
                        ));
                        if found || t {
                            if t {
                                assert(raw_support_at(
                                    sk,
                                    w,
                                    piece,
                                    rotation,
                                    x as int,
                                    y as int,
                                    i as int,
                                ));
                            } else {
                                let j = choose|j: int|
                                    0 <= j < i && #[trigger] raw_support_at(
                                        sk,
                                        w,
                                        piece,
                                        rotation,
                                        x as int,
                                        y as int,
                                        j,
                                    );
                                assert(raw_support_at(sk, w, piece, rotation, x as int, y as int, j));
                            }
                        }
                    }
                    found = found || t;
                    i = i + 1;
                }
                let ghost prevm = m;
                if !found {
                    m.set(x, y, false);
                    proof {
                        assert forall|xx: int, yy: int|
                            0 <= xx < w && 0 <= yy < s.height && !(xx == x && yy == y)
                            implies #[trigger] m.rows()[yy][xx] == prevm.rows()[yy][xx] by {
                            assert(m.spec_get(xx, yy) == prevm.spec_get(xx, yy));
                        }
                        assert(m.spec_get(x as int, y as int) == false);
                        assert(m.rows()[y as int][x as int] == false);
                        assert(!raw_supported(sk, w, piece, rotation, x as int, y as int));
                        assert(m.rows()[y as int][x as int] == (fit_at(
                            sk,
                            w,
                            piece,
                            rotation,
                            x as int,
                            y as int,
                        ) && raw_supported(sk, w, piece, rotation, x as int, y as int)));
                    }
                } else {
                    proof {
                        assert(raw_supported(sk, w, piece, rotation, x as int, y as int));
                        assert(m.rows()[y as int][x as int] == fit_at(
                            sk,
                            w,
                            piece,
                            rotation,
                            x as int,
                            y as int,
                        ));
                        assert(m.rows()[y as int][x as int] == (fit_at(
                            sk,
                            w,
                            piece,
                            rotation,
                            x as int,
                            y as int,
                        ) && raw_supported(sk, w, piece, rotation, x as int, y as int)));
                    }
                }
                x = x + 1;
            }
            y = y + 1;
        }
        proof {
            assert(rm@.len() == count_lt(rm@, self.height as int)) by {
                lemma_count_lt_split(rm@, rm@.len() as int, self.height as int);
            }
            assert(rm@.len() == full_rows_below(rows, self.height as int));
            assert forall|k: int| 0 <= k < rm@.len() implies (#[trigger] rm@[k] as int) < m.height
                + rm@.len() by {
                assert(rm@.contains(rm@[k]));
            }
            assert((m.height + rm@.len()) * m.width == self.width * self.height)
                by (nonlinear_arith)
                requires
                    m.height + rm@.len() == self.height,
                    m.width == self.width,
            {}
        }
        let nb = self.bits.len();
        proof {
            assert(nb == self.bits@.len());
        }
        m.add_back(&rm, false);
        proof {
            assert forall|x: int, y: int| 0 <= x < self.width && 0 <= y < self.height
                implies #[trigger] m.rows()[y][x] == spec_landing(rows, w, piece, rotation, x, y) by {
                if rm@.contains(y as usize) {
                    assert(bit_row_cleared(rows, y));
                    assert(m.rows()[y] == uniform_row(w, false));
                    assert(m.rows()[y][x] == false);
                } else {
                    assert(!bit_row_cleared(rows, y));
                    assert(count_lt(rm@, y) == full_rows_below(rows, y));
                    let yc = y - full_rows_below(rows, y);
                    assert(m.rows()[y][x] == (fit_at(sk, w, piece, rotation, x, yc)
                        && raw_supported(sk, w, piece, rotation, x, yc)));
                    if fit_at(sk, w, piece, rotation, x, yc) {
                        lemma_support_equiv(sk, w, piece, rotation, x, yc);
                    }
                }
            }
        }
        m
    }
}

impl Bits {
    /// Every legal landing placement of a piece here, over all four
    /// rotations.
    pub fn all_placements_of_piece(&self, piece: Piece) -> (r: Vec<Placement>)
        requires
            self.wf(),
            piece.is_tetromino(),
            self.width <= usize::MAX - 2,
            self.height <= usize::MAX - 3,
        ensures
            forall|i: int|
                0 <= i < r@.len() ==> ((#[trigger] r@[i]).0 == piece && r@[i].1 < self.width
                    && r@[i].2 < self.height && spec_landing(
                    self.rows(),
                    self.width as nat,
                    piece,
                    r@[i].3,
                    r@[i].1 as int,
                    r@[i].2 as int,
                )),
            forall|rot: Rotation, x: usize, y: usize|
                x < self.width && y < self.height && spec_landing(
                    self.rows(),
                    self.width as nat,
                    piece,
                    rot,
                    x as int,
                    y as int,
                ) ==> #[trigger] r@.contains(Placement(piece, x, y, rot)),
    {
        let rotations: Vec<Rotation> = vec![
            Rotation::North,
            Rotation::East,
            Rotation::South,
            Rotation::West,
        ];
        let ghost w = self.width as nat;
        let mut out: Vec<Placement> = Vec::new();
        let mut ri: usize = 0;
        while ri < rotations.len()
            invariant
                ri <= rotations@.len(),
                rotations@.len() == 4,
                rotations@[0] == Rotation::North,
                rotations@[1] == Rotation::East,
                rotations@[2] == Rotation::South,
                rotations@[3] == Rotation::West,
                self.wf(),
                piece.is_tetromino(),
                self.width <= usize::MAX - 2,
                self.height <= usize::MAX - 3,
                w == self.width as nat,
                forall|i: int|
                    0 <= i < out@.len() ==> ((#[trigger] out@[i]).0 == piece && out@[i].1
                        < self.width && out@[i].2 < self.height && spec_landing(
                        self.rows(),
                        w,
                        piece,
                        out@[i].3,
                        out@[i].1 as int,
                        out@[i].2 as int,
                    )),
                forall|j: int, x: usize, y: usize|
                    0 <= j < ri && x < self.width && y < self.height && spec_landing(
                        self.rows(),
                        w,
                        piece,
                        #[trigger] rotations@[j],
                        x as int,
                        y as int,
                    ) ==> #[trigger] out@.contains(Placement(piece, x, y, rotations@[j])),
            decreases rotations@.len() - ri,
        {
            let rot = rotations[ri];
            let mask = self.possible_placements(piece, rot);
            let cells = mask.filled_cells();
            let mut ci: usize = 0;
            while ci < cells.len()
                invariant
                    ci <= cells@.len(),
                    self.wf(),
                    piece.is_tetromino(),
                    w == self.width as nat,
                    mask.wf(),
                    mask.width == self.width,
                    mask.height == self.height,
                    forall|x: int, y: int|
                        0 <= x < self.width && 0 <= y < self.height ==> #[trigger] mask.rows()[y][x]
                            == spec_landing(self.rows(), w, piece, rot, x, y),
                    forall|i: int|
                        0 <= i < cells@.len() ==> mask.spec_get(
                            (#[trigger] cells@[i]).0 as int,
                            cells@[i].1 as int,
                        ),
                    forall|x: usize, y: usize|
                        x < mask.width && y < mask.height && mask.spec_get(x as int, y as int)
                            ==> #[trigger] cells@.contains((x, y)),
                    forall|i: int|
                        0 <= i < out@.len() ==> ((#[trigger] out@[i]).0 == piece && out@[i].1
                            < self.width && out@[i].2 < self.height && spec_landing(
                            self.rows(),
                            w,
                            piece,
                            out@[i].3,
                            out@[i].1 as int,
                            out@[i].2 as int,
                        )),
                    forall|j: int, x: usize, y: usize|
                        0 <= j < ri && x < self.width && y < self.height && spec_landing(
                            self.rows(),
                            w,
                            piece,
                            #[trigger] rotations@[j],
                            x as int,
                            y as int,
                        ) ==> #[trigger] out@.contains(Placement(piece, x, y, rotations@[j])),
                    forall|i: int|
                        0 <= i < ci ==> #[trigger] out@.contains(
                            Placement(piece, cells@[i].0, cells@[i].1, rot),
                        ),
                decreases cells@.len() - ci,
            {
                let (x, y) = cells[ci];
                let ghost prev = out@;
                out.push(Placement::new(piece, x, y, rot));
                proof {
                    assert(out@[prev.len() as int] == Placement(piece, x, y, rot));
                    assert(mask.spec_get(x as int, y as int));
                    assert(mask.rows()[y as int][x as int]);
                    assert forall|j: int, xx: usize, yy: usize|
                        0 <= j < ri && xx < self.width && yy < self.height && spec_landing(
                            self.rows(),
                            w,
                            piece,
                            #[trigger] rotations@[j],
                            xx as int,
                            yy as int,
                        ) implies #[trigger] out@.contains(
                        Placement(piece, xx, yy, rotations@[j]),
                    ) by {
                        assert(prev.contains(Placement(piece, xx, yy, rotations@[j])));
                        let i = choose|i: int|
                            0 <= i < prev.len() && prev[i] == Placement(
                                piece,
                                xx,
                                yy,
                                rotations@[j],
                            );
                        assert(out@[i] == Placement(piece, xx, yy, rotations@[j]));
                    }
                    assert forall|i: int| 0 <= i < ci + 1 implies #[trigger] out@.contains(
                        Placement(piece, cells@[i].0, cells@[i].1, rot),
                    ) by {
                        if i < ci {
                            assert(prev.contains(Placement(piece, cells@[i].0, cells@[i].1, rot)));
                            let k = choose|k: int|
                                0 <= k < prev.len() && prev[k] == Placement(
                                    piece,
                                    cells@[i].0,
                                    cells@[i].1,
                                    rot,
                                );
                            assert(out@[k] == Placement(piece, cells@[i].0, cells@[i].1, rot));
                        } else {
                            assert(out@[prev.len() as int] == Placement(
                                piece,
                                cells@[i].0,
                                cells@[i].1,
                                rot,
                            ));
                        }
                    }
                }
                ci = ci + 1;
            }
            proof {
                assert forall|x: usize, y: usize|
                    x < self.width && y < self.height && spec_landing(
                        self.rows(),
                        w,
                        piece,
                        rot,
                        x as int,
                        y as int,
                    ) implies #[trigger] out@.contains(Placement(piece, x, y, rot)) by {
                    assert(mask.rows()[y as int][x as int]);
                    assert(mask.spec_get(x as int, y as int));
                    assert(cells@.contains((x, y)));
                    let i = choose|i: int| 0 <= i < cells@.len() && cells@[i] == (x, y);
                    assert(out@.contains(Placement(piece, cells@[i].0, cells@[i].1, rot)));
                }
            }
            ri = ri + 1;
        }
        proof {
            assert forall|rot: Rotation, x: usize, y: usize|
                x < self.width && y < self.height && spec_landing(
                    self.rows(),
                    w,
                    piece,
                    rot,
                    x as int,
                    y as int,
                ) implies #[trigger] out@.contains(Placement(piece, x, y, rot)) by {
                let j: int = match rot {
                    Rotation::North => 0,
                    Rotation::East => 1,
                    Rotation::South => 2,
                    Rotation::West => 3,
                };
                assert(rotations@[j] == rot);
            }
        }
        out
    }

    /// A colored board whose filled cells carry the given piece kind.
    pub fn tint(&self, piece: Piece) -> (r: Board)
        requires
            self.wf(),
        ensures
            r.margin == 0,
            r.comment is None,
            r.rows_view().len() == self.height,
            forall|y: int|
                0 <= y < self.height ==> (#[trigger] r.rows_view()[y]).len() == self.width,
            forall|x: int, y: int|
                0 <= x < self.width && 0 <= y < self.height ==> #[trigger] r.rows_view()[y][x] == (
                if self.rows()[y][x] {
                    piece
                } else {
                    Piece::E
                }),
    {
        let mut data: Vec<Vec<Piece>> = Vec::new();
        let mut y: usize = 0;
        while y < self.height
            invariant
                y <= self.height,
                self.wf(),
                data@.len() == y,
                forall|j: int| 0 <= j < y ==> (#[trigger] data@[j]@).len() == self.width,
                forall|x: int, j: int|
                    0 <= x < self.width && 0 <= j < y ==> #[trigger] data@[j]@[x] == (
                    if self.rows()[j][x] {
                        piece
                    } else {
                        Piece::E
                    }),
            decreases self.height - y,
        {
            let mut row: Vec<Piece> = Vec::new();
            let mut x: usize = 0;
            while x < self.width
                invariant
                    x <= self.width,
                    y < self.height,
                    self.wf(),
                    row@.len() == x,
                    forall|j: int|
                        0 <= j < x ==> #[trigger] row@[j] == (if self.rows()[y as int][j] {
                            piece
                        } else {
                            Piece::E
                        }),
                decreases self.width - x,
            {
                row.push(
                    if self.get(x, y) {
                        piece
                    } else {
                        Piece::E
                    },
                );
                x = x + 1;
            }
            data.push(row);
            y = y + 1;
        }
        Board { data, comment: None, margin: 0 }
    }

    /// A colored board whose filled cells are gray.
    pub fn board(&self) -> (r: Board)
        requires
            self.wf(),
        ensures
            r.margin == 0,
            r.comment is None,
            r.rows_view().len() == self.height,
            forall|y: int|
                0 <= y < self.height ==> (#[trigger] r.rows_view()[y]).len() == self.width,
            forall|x: int, y: int|
                0 <= x < self.width && 0 <= y < self.height ==> #[trigger] r.rows_view()[y][x] == (
                if self.rows()[y][x] {
                    Piece::G
                } else {
                    Piece::E
                }),
    {
        self.tint(Piece::G)
    }
}

impl Board {
    /// The bit form of the visible area: a bit is set exactly where a cell
    /// holds a filled piece kind. The margin rows are not part of it.
    pub fn fast(&self) -> (r: Bits)
        requires
            self.wf(),
            self.spec_width() * self.spec_height() <= usize::MAX,
        ensures
            r.wf(),
            r.width == self.spec_width(),
            r.height == self.spec_height(),
            forall|x: int, y: int|
                0 <= x < r.width && 0 <= y < r.height ==> #[trigger] r.rows()[y][x] == (
                self.spec_get(x, y) != Piece::E),
    {
        let w = self.width();
        let h = self.height();
        let mut rows: Vec<Vec<bool>> = Vec::new();
        let mut y: usize = 0;
        while y < h
            invariant
                y <= h,
                self.wf(),
                w == self.spec_width(),
                h == self.spec_height(),
                rows@.len() == y,
                forall|j: int| 0 <= j < y ==> (#[trigger] rows@[j]@).len() == w,
                forall|x: int, j: int|
                    0 <= x < w && 0 <= j < y ==> #[trigger] rows@[j]@[x] == (self.spec_get(x, j)
                        != Piece::E),
            decreases h - y,
        {
            let mut row: Vec<bool> = Vec::new();
            let mut x: usize = 0;
            while x < w
                invariant
                    x <= w,
                    y < h,
                    self.wf(),
                    w == self.spec_width(),
                    h == self.spec_height(),
                    row@.len() == x,
                    forall|j: int|
                        0 <= j < x ==> #[trigger] row@[j] == (self.spec_get(j, y as int)
                            != Piece::E),
                decreases w - x,
            {
                row.push(self.get(x, y).is_filled());
                x = x + 1;
            }
            rows.push(row);
            y = y + 1;
        }
        proof {
            assert(rows@.len() * w == self.spec_height() * self.spec_width());
            assert(self.spec_height() * self.spec_width() == self.spec_width()
                * self.spec_height()) by (nonlinear_arith);
        }
        let r = bits_from_rows(&rows, w);
        proof {
            assert forall|x: int, y: int| 0 <= x < r.width && 0 <= y < r.height
                implies #[trigger] r.rows()[y][x] == (self.spec_get(x, y) != Piece::E) by {
                assert(r.rows()[y][x] == rows@[y]@[x]);
            }
        }
        r
    }
}

/// Every bit of the landing mask names a placement that is valid-locked on
/// the skimmed grid: the piece fits there and rests on support.
pub proof fn lemma_landing_valid_locked(
    rows: Seq<Seq<bool>>,
    w: nat,
    p: Piece,
    rot: Rotation,
    x: int,
    y: int,
)
    requires
        spec_landing(rows, w, p, rot, x, y),
    ensures
        valid_locked_bits(drop_full_bit_rows(rows), w, p, rot, x, y - full_rows_below(rows, y)),
{
}

/// Filling more cells can only shrink the fit mask, the stage of the
/// landing computation before support pruning.
pub proof fn lemma_fit_mask_antitone(
    r1: Seq<Seq<bool>>,
    r2: Seq<Seq<bool>>,
    w: nat,
    p: Piece,
    rot: Rotation,
    x: int,
    y: int,
)
    requires
        r1.len() == r2.len(),
        forall|yy: int| 0 <= yy < r1.len() ==> (#[trigger] r1[yy]).len() == w,
        forall|yy: int| 0 <= yy < r2.len() ==> (#[trigger] r2[yy]).len() == w,
        forall|xx: int, yy: int|
            0 <= yy < r1.len() && 0 <= xx < w && #[trigger] r1[yy][xx] ==> #[trigger] r2[yy][xx],
    ensures
        fit_at(r2, w, p, rot, x, y) ==> fit_at(r1, w, p, rot, x, y),
{
    if fit_at(r2, w, p, rot, x, y) {
        assert forall|i: int| 0 <= i < 4 implies !offset_blocked(r1, w, p, rot, x, y, i) by {
            assert(!offset_blocked(r2, w, p, rot, x, y, i));
            let o = piece_offsets(p, rot)[i];
            assert(0 <= x + o.0 < w && 0 <= y + o.1 < r2.len() && !r2[y + o.1][x + o.0]);
            assert(!r1[y + o.1][x + o.0]);
        }
    }
}

/// Shifting an all-zero grid one column leftward leaves exactly one
/// column of ones, on the right edge.
pub proof fn lemma_shift_left_zeros(rows: Seq<Seq<bool>>, w: nat)
    requires
        forall|y: int, x: int|
            0 <= y < rows.len() && 0 <= x < w ==> !(#[trigger] rows[y][x]),
        forall|y: int| 0 <= y < rows.len() ==> (#[trigger] rows[y]).len() == w,
    ensures
        forall|y: int, x: int|
            0 <= y < rows.len() && 0 <= x < w ==> #[trigger] shift_view(rows, w, 1, 0)[y][x] == (x
                == w - 1),
{
    assert forall|y: int, x: int| 0 <= y < rows.len() && 0 <= x < w implies #[trigger] shift_view(
        rows,
        w,
        1,
        0,
    )[y][x] == (x == w - 1) by {
        if x + 1 < w {
            assert(shift_view(rows, w, 1, 0)[y][x] == rows[y][x + 1]);
        }
    }
}

/// In a row-major layout, an index derived from in-range coordinates stays
/// inside the grid.
pub proof fn lemma_rowmajor_bound(x: int, y: int, w: int, h: int)
    requires
        0 <= x < w,
        0 <= y < h,
    ensures
        0 <= y * w + x < w * h,
        y * w >= 0,
{
    assert(0 <= y * w + x < w * h && y * w >= 0) by (nonlinear_arith)
        requires
            0 <= x < w,
            0 <= y < h,
    {}
}

/// Distinct in-range coordinates give distinct row-major indices.
pub proof fn lemma_rowmajor_distinct(x1: int, y1: int, x2: int, y2: int, w: int)
    requires
        0 <= x1 < w,
        0 <= x2 < w,
        0 <= y1,
        0 <= y2,
        !(x1 == x2 && y1 == y2),
    ensures
        y1 * w + x1 != y2 * w + x2,
{
    assert(y1 * w + x1 != y2 * w + x2) by (nonlinear_arith)
        requires
            0 <= x1 < w,
            0 <= x2 < w,
            0 <= y1,
            0 <= y2,
            !(x1 == x2 && y1 == y2),
    {}
}

/// Multiplication preserves order on the left.
pub proof fn lemma_mul_mono(a: int, b: int, c: int)
    requires
        0 <= a <= b,
        0 <= c,
    ensures
        a * c <= b * c,
        (a + 1) * c == a * c + c,
{
    assert(a * c <= b * c && (a + 1) * c == a * c + c) by (nonlinear_arith)
        requires
            0 <= a <= b,
            0 <= c,
    {}
}

/// Taking the complement twice gives back the original bit vector.
pub proof fn lemma_not_not(bits: Seq<bool>)
    ensures
        bits.map_values(|b: bool| !b).map_values(|b: bool| !b) == bits,
{
    assert(bits.map_values(|b: bool| !b).map_values(|b: bool| !b) =~= bits);
}

/// Conjoining a bit vector with itself changes nothing.
pub proof fn lemma_and_self(bits: Seq<bool>)
    ensures
        Seq::new(bits.len(), |i: int| bits[i] && bits[i]) == bits,
{
    assert(Seq::new(bits.len(), |i: int| bits[i] && bits[i]) =~= bits);
}

/// Disjoining a bit vector with its complement fills the grid with ones.
pub proof fn lemma_or_not_all_ones(bits: Seq<bool>)
    ensures
        Seq::new(bits.len(), |i: int| bits[i] || !bits[i]) == Seq::new(
            bits.len(),
            |i: int| true,
        ),
{
    assert(Seq::new(bits.len(), |i: int| bits[i] || !bits[i]) =~= Seq::new(
        bits.len(),
        |i: int| true,
    ));
}

} // verus!

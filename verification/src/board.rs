//! The colored board: a rectangular field of piece kinds with a margin of
//! spawn rows above the visible area.

use vstd::prelude::*;

use crate::piece::Piece;
use crate::placement::{cells_ok, spec_cell, Placement};

verus! {

/// A colored field. Row 0 is the bottom row; rows grow upward. The top
/// `margin` rows are spawn space above the visible playing area.
#[derive(Debug)]
pub struct Board {
    pub data: Vec<Vec<Piece>>,
    pub comment: Option<String>,
    pub margin: usize,
}

impl Clone for Board {
    /// A clone carries the same rows, comment and margin.
    fn clone(&self) -> (r: Self)
        ensures
            r.rows_view() == self.rows_view(),
            r.comment == self.comment,
            r.margin == self.margin,
    {
        let mut data: Vec<Vec<Piece>> = Vec::new();
        let mut y: usize = 0;
        while y < self.data.len()
            invariant
                y <= self.data@.len(),
                data@.len() == y,
                forall|j: int| 0 <= j < y ==> #[trigger] data@[j]@ == self.rows_view()[j],
            decreases self.data@.len() - y,
        {
            let src = &self.data[y];
            let mut row: Vec<Piece> = Vec::new();
            let mut x: usize = 0;
            while x < src.len()
                invariant
                    x <= src@.len(),
                    row@ == src@.take(x as int),
                decreases src@.len() - x,
            {
                row.push(src[x]);
                proof {
                    assert(src@.take(x + 1) =~= src@.take(x as int).push(src@[x as int]));
                }
                x = x + 1;
            }
            proof {
                assert(src@.take(src@.len() as int) =~= src@);
            }
            data.push(row);
            y = y + 1;
        }
        let comment = match &self.comment {
            Some(s) => Some(s.clone()),
            None => None,
        };
        let r = Board { data, comment, margin: self.margin };
        proof {
            assert(r.rows_view() =~= self.rows_view());
        }
        r
    }
}

/// The rows of a vector of rows, as mathematical sequences.
pub open spec fn views_of(data: Seq<Vec<Piece>>) -> Seq<Seq<Piece>> {
    data.map_values(|r: Vec<Piece>| r@)
}

/// A row is completely filled when it holds no empty cell.
pub open spec fn row_full(row: Seq<Piece>) -> bool {
    !row.contains(Piece::E)
}

/// The greatest row length in a stack of rows.
pub open spec fn max_row_len(rows: Seq<Seq<Piece>>) -> nat
    decreases rows.len(),
{
    if rows.len() == 0 {
        0
    } else {
        let m = max_row_len(rows.drop_last());
        if rows.last().len() > m {
            rows.last().len()
        } else {
            m
        }
    }
}

/// Every row is at most as long as the maximum, and some row reaches it.
pub proof fn lemma_max_row_len(rows: Seq<Seq<Piece>>)
    ensures
        forall|y: int| 0 <= y < rows.len() ==> (#[trigger] rows[y]).len() <= max_row_len(rows),
        rows.len() > 0 ==> exists|y: int|
            0 <= y < rows.len() && (#[trigger] rows[y]).len() == max_row_len(rows),
    decreases rows.len(),
{
    if rows.len() > 0 {
        lemma_max_row_len(rows.drop_last());
        assert(forall|y: int|
            0 <= y < rows.len() - 1 ==> rows[y] == #[trigger] rows.drop_last()[y]);
        assert(rows.last() == rows[rows.len() - 1]);
        let m = max_row_len(rows.drop_last());
        assert forall|y: int| 0 <= y < rows.len() implies (#[trigger] rows[y]).len()
            <= max_row_len(rows) by {
            if y < rows.len() - 1 {
                assert(rows[y] == rows.drop_last()[y]);
                assert(rows.drop_last()[y].len() <= m);
            }
        }
        if rows.last().len() > m {
            assert(rows[rows.len() - 1].len() == max_row_len(rows));
        } else if rows.len() == 1 {
            assert(max_row_len(rows.drop_last()) == 0);
            assert(rows[0].len() == max_row_len(rows));
        } else {
            let w = choose|y: int|
                0 <= y < rows.drop_last().len() && (#[trigger] rows.drop_last()[y]).len()
                    == max_row_len(rows.drop_last());
            assert(rows[w].len() == max_row_len(rows));
        }
    }
}

/// The number of completely filled rows.
pub open spec fn count_full(rows: Seq<Seq<Piece>>) -> nat
    decreases rows.len(),
{
    if rows.len() == 0 {
        0
    } else {
        count_full(rows.drop_last()) + if row_full(rows.last()) {
            1nat
        } else {
            0nat
        }
    }
}

impl Board {
    /// The rows as mathematical sequences.
    pub open spec fn rows_view(&self) -> Seq<Seq<Piece>> {
        views_of(self.data@)
    }

    /// The margin never exceeds the number of rows.
    pub open spec fn wf(&self) -> bool {
        self.margin <= self.data@.len()
    }

    /// The cell at (x, y); empty outside the stored data.
    pub open spec fn spec_get(&self, x: int, y: int) -> Piece {
        if 0 <= y < self.rows_view().len() && 0 <= x < self.rows_view()[y].len() {
            self.rows_view()[y][x]
        } else {
            Piece::E
        }
    }

    /// The board width: the longest stored row.
    pub open spec fn spec_width(&self) -> nat {
        max_row_len(self.rows_view())
    }

    /// The visible height: stored rows minus the margin.
    pub open spec fn spec_height(&self) -> int {
        self.rows_view().len() - self.margin
    }

    /// Whether row y is completely filled.
    pub open spec fn spec_cleared(&self, y: int) -> bool {
        0 <= y < self.rows_view().len() && row_full(self.rows_view()[y])
    }

    /// A blank board of the given dimensions.
    pub fn empty(width: usize, height: usize, margin: usize) -> (r: Board)
        requires
            height + margin <= usize::MAX,
        ensures
            r.rows_view().len() == height + margin,
            forall|y: int|
                0 <= y < height + margin ==> #[trigger] r.rows_view()[y] == Seq::new(
                    width as nat,
                    |x: int| Piece::E,
                ),
            r.comment is None,
            r.margin == margin,
    {
        let row: Vec<Piece> = vec![Piece::E; width];
        assert(row@ =~= Seq::new(width as nat, |x: int| Piece::E));
        let n: usize = height + margin;
        let mut data: Vec<Vec<Piece>> = Vec::new();
        let mut i: usize = 0;
        while i < n
            invariant
                i <= n,
                row@ == Seq::new(width as nat, |x: int| Piece::E),
                data@.len() == i,
                forall|y: int| 0 <= y < i ==> #[trigger] data@[y]@ == row@,
            decreases n - i,
        {
            data.push(row.clone());
            i = i + 1;
        }
        Board { data, comment: None, margin }
    }

    /// The cell at (x, y), or empty outside the board.
    pub fn get(&self, x: usize, y: usize) -> (r: Piece)
        ensures
            r == self.spec_get(x as int, y as int),
    {
        if y < self.data.len() && x < self.data[y].len() {
            self.data[y][x]
        } else {
            Piece::E
        }
    }

    /// Overwrite the cell at (x, y).
    pub fn set(&mut self, x: usize, y: usize, p: Piece)
        requires
            y < old(self).rows_view().len(),
            x < old(self).rows_view()[y as int].len(),
        ensures
            final(self).rows_view() == old(self).rows_view().update(
                y as int,
                old(self).rows_view()[y as int].update(x as int, p),
            ),
            final(self).comment == old(self).comment,
            final(self).margin == old(self).margin,
    {
        let row: &mut Vec<Piece> = &mut self.data[y];
        row.set(x, p);
        assert(final(self).rows_view() =~= old(self).rows_view().update(
            y as int,
            old(self).rows_view()[y as int].update(x as int, p),
        ));
    }

    /// The stored rows.
    pub fn rows(&self) -> (r: &Vec<Vec<Piece>>)
        ensures
            r == &self.data,
    {
        &self.data
    }

    /// The board width: the longest stored row.
    pub fn width(&self) -> (r: usize)
        ensures
            r == self.spec_width(),
    {
        let mut m: usize = 0;
        let mut y: usize = 0;
        while y < self.data.len()
            invariant
                y <= self.data@.len(),
                m == max_row_len(self.rows_view().take(y as int)),
            decreases self.data@.len() - y,
        {
            proof {
                assert(self.rows_view().take(y + 1).drop_last() =~= self.rows_view().take(
                    y as int,
                ));
                assert(self.rows_view().take(y + 1).last() == self.rows_view()[y as int]);
            }
            let l = self.data[y].len();
            if l > m {
                m = l;
            }
            y = y + 1;
        }
        proof {
            assert(self.rows_view().take(self.data@.len() as int) =~= self.rows_view());
        }
        m
    }

    /// The visible height (stored rows minus the margin).
    pub fn height(&self) -> (r: usize)
        requires
            self.wf(),
        ensures
            r == self.spec_height(),
    {
        self.data.len() - self.margin
    }

    /// The total number of stored rows, margin included.
    pub fn total_height(&self) -> (r: usize)
        ensures
            r == self.rows_view().len(),
    {
        self.data.len()
    }

    /// Width and visible height.
    pub fn dimensions(&self) -> (r: (usize, usize))
        requires
            self.wf(),
        ensures
            r.0 == self.spec_width(),
            r.1 == self.spec_height(),
    {
        (self.width(), self.height())
    }

    /// Whether (x, y) lies inside the stored field, margin included.
    pub fn is_in_bounds(&self, x: usize, y: usize) -> (r: bool)
        ensures
            r == (x < self.spec_width() && y < self.rows_view().len()),
    {
        x < self.width() && y < self.total_height()
    }

    /// Whether (x, y) lies strictly above the visible area.
    pub fn is_in_margin(&self, x: usize, y: usize) -> (r: bool)
        requires
            self.wf(),
        ensures
            r == (x < self.spec_width() && y >= self.spec_height() + 1),
    {
        x < self.width() && y > self.height()
    }

    /// The default spawn column, one left of the middle.
    pub fn spawn_x(&self) -> (r: usize)
        requires
            self.spec_width() >= 2,
        ensures
            r == self.spec_width() / 2 - 1,
    {
        self.width() / 2 - 1
    }

    /// The default spawn row: the first margin row.
    pub fn spawn_y(&self) -> (r: usize)
        requires
            self.wf(),
        ensures
            r == self.spec_height(),
    {
        self.total_height() - self.margin
    }

    /// The default spawn location for a new piece.
    pub fn spawn(&self) -> (r: (usize, usize))
        requires
            self.wf(),
            self.spec_width() >= 2,
        ensures
            r == (
                (self.spec_width() / 2 - 1) as usize,
                self.spec_height() as usize,
            ),
    {
        (self.spawn_x(), self.spawn_y())
    }

    /// The stored comment.
    pub fn comment(&self) -> (r: &Option<String>)
        ensures
            r == &self.comment,
    {
        &self.comment
    }

    /// Replace the comment.
    pub fn set_comment(&mut self, comment: &str)
        ensures
            final(self).comment matches Some(c) && c@ == comment@,
            final(self).data == old(self).data,
            final(self).margin == old(self).margin,
    {
        self.comment = Some(comment.to_owned());
    }

    /// This board with the comment replaced.
    pub fn with_comment(self, comment: &str) -> (r: Board)
        ensures
            r.comment matches Some(c) && c@ == comment@,
            r.data == self.data,
            r.margin == self.margin,
    {
        let mut s = self;
        s.set_comment(comment);
        s
    }

    /// Every cell kept but colored gray when filled.
    pub fn to_gray(self) -> (r: Board)
        ensures
            r.rows_view().len() == self.rows_view().len(),
            forall|y: int|
                0 <= y < self.rows_view().len() ==> (#[trigger] r.rows_view()[y]).len()
                    == self.rows_view()[y].len(),
            forall|x: int, y: int|
                0 <= y < self.rows_view().len() && 0 <= x < self.rows_view()[y].len()
                    ==> #[trigger] r.rows_view()[y][x] == (if self.rows_view()[y][x] == Piece::E {
                    Piece::E
                } else {
                    Piece::G
                }),
            r.comment == self.comment,
            r.margin == self.margin,
    {
        let mut data: Vec<Vec<Piece>> = Vec::new();
        let mut y: usize = 0;
        while y < self.data.len()
            invariant
                y <= self.data@.len(),
                data@.len() == y,
                forall|j: int|
                    0 <= j < y ==> (#[trigger] data@[j]@).len() == self.rows_view()[j].len(),
                forall|j: int, x: int|
                    0 <= j < y && 0 <= x < self.rows_view()[j].len() ==> #[trigger] data@[j]@[x]
                        == (if self.rows_view()[j][x] == Piece::E {
                        Piece::E
                    } else {
                        Piece::G
                    }),
            decreases self.data@.len() - y,
        {
            let src = &self.data[y];
            let mut row: Vec<Piece> = Vec::new();
            let mut x: usize = 0;
            while x < src.len()
                invariant
                    x <= src@.len(),
                    row@.len() == x,
                    forall|i: int|
                        0 <= i < x ==> #[trigger] row@[i] == (if src@[i] == Piece::E {
                            Piece::E
                        } else {
                            Piece::G
                        }),
                decreases src@.len() - x,
            {
                let c = src[x];
                row.push(if matches!(c, Piece::E) {
                    Piece::E
                } else {
                    Piece::G
                });
                x = x + 1;
            }
            data.push(row);
            y = y + 1;
        }
        Board { data, comment: self.comment, margin: self.margin }
    }

    /// Only the gray cells kept; every other cell becomes empty.
    pub fn only_gray(self) -> (r: Board)
        ensures
            r.rows_view().len() == self.rows_view().len(),
            forall|y: int|
                0 <= y < self.rows_view().len() ==> (#[trigger] r.rows_view()[y]).len()
                    == self.rows_view()[y].len(),
            forall|x: int, y: int|
                0 <= y < self.rows_view().len() && 0 <= x < self.rows_view()[y].len()
                    ==> #[trigger] r.rows_view()[y][x] == (if self.rows_view()[y][x] == Piece::G
                    || self.rows_view()[y][x] == Piece::D {
                    self.rows_view()[y][x]
                } else {
                    Piece::E
                }),
            r.comment == self.comment,
            r.margin == self.margin,
    {
        let mut data: Vec<Vec<Piece>> = Vec::new();
        let mut y: usize = 0;
        while y < self.data.len()
            invariant
                y <= self.data@.len(),
                data@.len() == y,
                forall|j: int|
                    0 <= j < y ==> (#[trigger] data@[j]@).len() == self.rows_view()[j].len(),
                forall|j: int, x: int|
                    0 <= j < y && 0 <= x < self.rows_view()[j].len() ==> #[trigger] data@[j]@[x]
                        == (if self.rows_view()[j][x] == Piece::G || self.rows_view()[j][x]
                        == Piece::D {
                        self.rows_view()[j][x]
                    } else {
                        Piece::E
                    }),
            decreases self.data@.len() - y,
        {
            let src = &self.data[y];
            let mut row: Vec<Piece> = Vec::new();
            let mut x: usize = 0;
            while x < src.len()
                invariant
                    x <= src@.len(),
                    row@.len() == x,
                    forall|i: int|
                        0 <= i < x ==> #[trigger] row@[i] == (if src@[i] == Piece::G || src@[i]
                            == Piece::D {
                            src@[i]
                        } else {
                            Piece::E
                        }),
                decreases src@.len() - x,
            {
                let c = src[x];
                row.push(
                    if matches!(c, Piece::G | Piece::D) {
                        c
                    } else {
                        Piece::E
                    },
                );
                x = x + 1;
            }
            data.push(row);
            y = y + 1;
        }
        Board { data, comment: self.comment, margin: self.margin }
    }

    /// The number of completely filled rows.
    pub fn line_clears(&self) -> (r: usize)
        ensures
            r == count_full(self.rows_view()),
    {
        let mut n: usize = 0;
        let mut y: usize = 0;
        while y < self.data.len()
            invariant
                y <= self.data@.len(),
                n == count_full(self.rows_view().take(y as int)),
                n <= y,
            decreases self.data@.len() - y,
        {
            proof {
                assert(self.rows_view().take(y + 1).drop_last() =~= self.rows_view().take(
                    y as int,
                ));
                assert(self.rows_view().take(y + 1).last() == self.rows_view()[y as int]);
            }
            if row_is_full(&self.data[y]) {
                n = n + 1;
            }
            y = y + 1;
        }
        proof {
            assert(self.rows_view().take(self.data@.len() as int) =~= self.rows_view());
        }
        n
    }

    /// Whether row y is completely filled.
    pub fn is_cleared(&self, y: usize) -> (r: bool)
        ensures
            r == self.spec_cleared(y as int),
    {
        if y < self.data.len() {
            row_is_full(&self.data[y])
        } else {
            false
        }
    }

    /// The indices of the completely filled rows, in ascending order.
    pub fn removed_lines(&self) -> (r: Vec<usize>)
        ensures
            forall|i: int, j: int| 0 <= i < j < r@.len() ==> r@[i] < r@[j],
            forall|z: usize| #[trigger] r@.contains(z) <==> self.spec_cleared(z as int),
            forall|i: int| 0 <= i < r@.len() ==> self.spec_cleared(#[trigger] r@[i] as int),
    {
        let mut out: Vec<usize> = Vec::new();
        let mut y: usize = 0;
        while y < self.data.len()
            invariant
                y <= self.data@.len(),
                forall|i: int, j: int| 0 <= i < j < out@.len() ==> out@[i] < out@[j],
                forall|i: int| 0 <= i < out@.len() ==> out@[i] < y,
                forall|z: usize| #[trigger] out@.contains(z) <==> (z < y && self.spec_cleared(
                    z as int,
                )),
            decreases self.data@.len() - y,
        {
            let ghost prev = out@;
            if row_is_full(&self.data[y]) {
                out.push(y);
                proof {
                    assert forall|z: usize| #[trigger] out@.contains(z) implies (z < y + 1
                        && self.spec_cleared(z as int)) by {
                        let i = choose|i: int| 0 <= i < out@.len() && out@[i] == z;
                        if i < prev.len() {
                            assert(prev[i] == z);
                            assert(prev.contains(z));
                        } else {
                            assert(z == y);
                        }
                    }
                    assert forall|z: usize| (z < y + 1 && self.spec_cleared(z as int))
                        implies #[trigger] out@.contains(z) by {
                        if z < y {
                            assert(prev.contains(z));
                            let i = choose|i: int| 0 <= i < prev.len() && prev[i] == z;
                            assert(out@[i] == z);
                        } else {
                            assert(out@[prev.len() as int] == y);
                        }
                    }
                }
            } else {
                proof {
                    assert forall|z: usize| #[trigger] out@.contains(z) implies (z < y + 1
                        && self.spec_cleared(z as int)) by {}
                    assert forall|z: usize| (z < y + 1 && self.spec_cleared(z as int))
                        implies #[trigger] out@.contains(z) by {
                        assert(z != y);
                    }
                }
            }
            y = y + 1;
        }
        proof {
            assert forall|z: usize| #[trigger] out@.contains(z) implies self.spec_cleared(
                z as int,
            ) by {}
            assert forall|z: usize| self.spec_cleared(z as int) implies #[trigger] out@.contains(
                z,
            ) by {
                assert(z < self.data@.len());
            }
            assert forall|i: int| 0 <= i < out@.len() implies self.spec_cleared(
                #[trigger] out@[i] as int,
            ) by {
                assert(out@.contains(out@[i]));
            }
        }
        out
    }

    /// Whether any margin row holds a filled cell.
    pub fn intersects_margin(&self) -> (r: bool)
        requires
            self.wf(),
        ensures
            r == exists|x: int, y: int|
                self.spec_height() <= y < self.rows_view().len() && 0 <= x
                    && #[trigger] self.spec_get(x, y) != Piece::E,
    {
        let mut y: usize = self.data.len() - self.margin;
        let ghost h = self.spec_height();
        while y < self.data.len()
            invariant
                self.wf(),
                h == self.spec_height(),
                h <= y <= self.rows_view().len(),
                forall|x: int, j: int|
                    h <= j < y && 0 <= x ==> #[trigger] self.spec_get(x, j) == Piece::E,
            decreases self.data@.len() - y,
        {
            let row = &self.data[y];
            let mut x: usize = 0;
            while x < row.len()
                invariant
                    h == self.spec_height(),
                    h <= y < self.rows_view().len(),
                    row@ == self.rows_view()[y as int],
                    x <= row@.len(),
                    forall|i: int| 0 <= i < x ==> #[trigger] row@[i] == Piece::E,
                decreases row@.len() - x,
            {
                if !matches!(row[x], Piece::E) {
                    assert(self.spec_get(x as int, y as int) != Piece::E);
                    return true;
                }
                x = x + 1;
            }
            proof {
                assert forall|x: int| 0 <= x implies #[trigger] self.spec_get(x, y as int)
                    == Piece::E by {
                    if x < self.rows_view()[y as int].len() {
                        assert(self.rows_view()[y as int][x] == Piece::E);
                    }
                }
            }
            y = y + 1;
        }
        false
    }
}
/// A row of `w` empty cells.
pub open spec fn empty_row_seq(w: nat) -> Seq<Piece> {
    Seq::new(w, |x: int| Piece::E)
}

/// `n` empty rows of width `w`.
pub open spec fn padding_rows(n: nat, w: nat) -> Seq<Seq<Piece>> {
    Seq::new(n, |i: int| empty_row_seq(w))
}

/// The cell at (x, y) of a stack of rows; empty outside the stored data.
pub open spec fn cell_at(rows: Seq<Seq<Piece>>, x: int, y: int) -> Piece {
    if 0 <= y < rows.len() && 0 <= x < rows[y].len() {
        rows[y][x]
    } else {
        Piece::E
    }
}

/// Whether row y of a stack is completely filled.
pub open spec fn row_cleared(rows: Seq<Seq<Piece>>, y: int) -> bool {
    0 <= y < rows.len() && row_full(rows[y])
}

/// Walking upward, the first row index at or above y that is not completely
/// filled.
pub open spec fn walk_up(rows: Seq<Seq<Piece>>, y: int) -> int
    decreases rows.len() - y,
{
    if row_cleared(rows, y) {
        walk_up(rows, y + 1)
    } else {
        y
    }
}

/// Walking downward, the first row index at or below y that is not
/// completely filled, stopping at the bottom row.
pub open spec fn walk_down(rows: Seq<Seq<Piece>>, y: int) -> int
    decreases y,
{
    if row_cleared(rows, y) {
        if y == 0 {
            0
        } else {
            walk_down(rows, y - 1)
        }
    } else {
        y
    }
}

/// Where a piece cell at row y comes to sit when rows currently filled are
/// skipped: cells at or above the center row py move up, cells below move
/// down.
pub open spec fn adjust_cell_y(rows: Seq<Seq<Piece>>, py: int, y: int) -> int {
    if y >= py {
        walk_up(rows, y)
    } else {
        walk_down(rows, y)
    }
}

/// The four cells of a placement before any line-clear adjustment.
pub open spec fn raw_cells(p: Placement) -> Seq<(int, int)> {
    Seq::new(4, |i: int| spec_cell(p.0, p.3, p.1 as int, p.2 as int, i))
}

/// The four cells of a placement after walking each cell out of the
/// currently filled rows.
pub open spec fn adjusted_cells(rows: Seq<Seq<Piece>>, p: Placement) -> Seq<(int, int)> {
    Seq::new(
        4,
        |i: int|
            {
                let c = spec_cell(p.0, p.3, p.1 as int, p.2 as int, i);
                (c.0, adjust_cell_y(rows, p.2 as int, c.1))
            },
    )
}

/// Whether the line-clear-aware cells of a placement are defined: the
/// rotation center rests on an empty cell and every coordinate is
/// machine-representable.
pub open spec fn adjusted_ok(rows: Seq<Seq<Piece>>, p: Placement) -> bool {
    &&& cell_at(rows, p.1 as int, p.2 as int) == Piece::E
    &&& cells_ok(p.0, p.3, p.1 as int, p.2 as int)
}

/// The rows with the given cells stamped with a piece kind; positions
/// outside the stored rows are ignored.
pub open spec fn stamp_rows(rows: Seq<Seq<Piece>>, kind: Piece, cells: Seq<(int, int)>) -> Seq<
    Seq<Piece>,
> {
    Seq::new(
        rows.len(),
        |y: int|
            Seq::new(
                rows[y].len(),
                |x: int|
                    if cells.contains((x, y)) {
                        kind
                    } else {
                        rows[y][x]
                    },
            ),
    )
}

/// The rows that remain after removing every completely filled row.
pub open spec fn drop_full_rows(rows: Seq<Seq<Piece>>) -> Seq<Seq<Piece>>
    decreases rows.len(),
{
    if rows.len() == 0 {
        Seq::empty()
    } else {
        drop_full_rows(rows.drop_last()) + if row_full(rows.last()) {
            Seq::<Seq<Piece>>::empty()
        } else {
            seq![rows.last()]
        }
    }
}

impl Board {
    /// The row a piece cell at `y` settles in once filled rows are skipped,
    /// moving away from the center row `py`.
    pub fn adjust_cell(&self, py: usize, y: usize) -> (r: usize)
        ensures
            r == adjust_cell_y(self.rows_view(), py as int, y as int),
    {
        let ghost rows = self.rows_view();
        let n = self.data.len();
        let mut cur: usize = y;
        if y >= py {
            while self.is_cleared(cur)
                invariant
                    n == rows.len(),
                    rows == self.rows_view(),
                    walk_up(rows, cur as int) == walk_up(rows, y as int),
                decreases rows.len() - cur,
            {
                proof {
                    assert(cur < rows.len());
                }
                cur = cur + 1;
            }
            proof {
                assert(walk_up(rows, cur as int) == cur);
            }
        } else {
            while self.is_cleared(cur)
                invariant
                    rows == self.rows_view(),
                    y < py,
                    walk_down(rows, cur as int) == walk_down(rows, y as int),
                decreases cur,
            {
                if cur == 0 {
                    proof {
                        assert(walk_down(rows, 0) == 0);
                        assert(adjust_cell_y(rows, py as int, y as int) == walk_down(
                            rows,
                            y as int,
                        ));
                    }
                    return 0;
                }
                cur = cur - 1;
            }
            proof {
                assert(walk_down(rows, cur as int) == cur);
            }
        }
        cur
    }

    /// The first not-completely-filled row at or above y (walking up) or at
    /// or below it (walking down).
    pub fn walk_row(&self, up: bool, y: usize) -> (r: usize)
        ensures
            r == if up {
                walk_up(self.rows_view(), y as int)
            } else {
                walk_down(self.rows_view(), y as int)
            },
    {
        let ghost rows = self.rows_view();
        let n = self.data.len();
        let mut cur: usize = y;
        if up {
            while self.is_cleared(cur)
                invariant
                    rows == self.rows_view(),
                    n == rows.len(),
                    walk_up(rows, cur as int) == walk_up(rows, y as int),
                decreases rows.len() - cur,
            {
                proof {
                    assert(cur < rows.len());
                }
                cur = cur + 1;
            }
            proof {
                assert(walk_up(rows, cur as int) == cur);
            }
        } else {
            while self.is_cleared(cur)
                invariant
                    rows == self.rows_view(),
                    !up,
                    walk_down(rows, cur as int) == walk_down(rows, y as int),
                decreases cur,
            {
                if cur == 0 {
                    proof {
                        assert(walk_down(rows, 0) == 0);
                    }
                    return 0;
                }
                cur = cur - 1;
            }
            proof {
                assert(walk_down(rows, cur as int) == cur);
            }
        }
        cur
    }

    /// The cells a placement occupies once each cell is walked out of the
    /// currently filled rows, or `None` when the rotation center is not on
    /// an empty cell or a coordinate is unrepresentable.
    pub fn adjusted_piece_offsets(&self, placement: Placement) -> (r: Option<
        Vec<(usize, usize)>,
    >)
        requires
            placement.0.is_tetromino(),
        ensures
            r is Some <==> adjusted_ok(self.rows_view(), placement),
            r is Some ==> {
                &&& r->Some_0@.len() == 4
                &&& forall|i: int|
                    0 <= i < 4 ==> ((#[trigger] r->Some_0@[i]).0 as int, r->Some_0@[i].1 as int)
                        == adjusted_cells(self.rows_view(), placement)[i]
            },
    {
        if !matches!(self.get(placement.x(), placement.y()), Piece::E) {
            return None;
        }
        let cells = match placement.cells() {
            Some(c) => c,
            None => {
                return None;
            },
        };
        let mut out: Vec<(usize, usize)> = Vec::new();
        let mut i: usize = 0;
        while i < 4
            invariant
                i <= 4,
                cells@.len() == 4,
                placement.0.is_tetromino(),
                cells_ok(placement.0, placement.3, placement.1 as int, placement.2 as int),
                forall|j: int|
                    0 <= j < 4 ==> ((#[trigger] cells@[j]).0 as int, cells@[j].1 as int)
                        == spec_cell(
                        placement.0,
                        placement.3,
                        placement.1 as int,
                        placement.2 as int,
                        j,
                    ),
                out@.len() == i,
                forall|j: int|
                    0 <= j < i ==> ((#[trigger] out@[j]).0 as int, out@[j].1 as int)
                        == adjusted_cells(self.rows_view(), placement)[j],
            decreases 4 - i,
        {
            let (cx, cy) = cells[i];
            let ny = self.adjust_cell(placement.y(), cy);
            out.push((cx, ny));
            i = i + 1;
        }
        Some(out)
    }

    /// Stamp the placement's raw cells into the board, ignoring cells that
    /// fall outside the stored rows.
    pub fn place(&mut self, placement: Placement)
        requires
            placement.0.is_tetromino(),
            cells_ok(placement.0, placement.3, placement.1 as int, placement.2 as int),
        ensures
            final(self).rows_view() == stamp_rows(
                old(self).rows_view(),
                placement.0,
                raw_cells(placement),
            ),
            final(self).comment == old(self).comment,
            final(self).margin == old(self).margin,
    {
        let cells = placement.cells().unwrap();
        let ghost sc = raw_cells(placement);
        self.stamp(placement.0, &cells, Ghost(sc));
    }

    /// Stamp the placement's line-clear-aware cells into the board.
    pub fn skim_place(&mut self, placement: Placement)
        requires
            placement.0.is_tetromino(),
            adjusted_ok(old(self).rows_view(), placement),
        ensures
            final(self).rows_view() == stamp_rows(
                old(self).rows_view(),
                placement.0,
                adjusted_cells(old(self).rows_view(), placement),
            ),
            final(self).comment == old(self).comment,
            final(self).margin == old(self).margin,
    {
        let cells = self.adjusted_piece_offsets(placement).unwrap();
        let ghost sc = adjusted_cells(self.rows_view(), placement);
        self.stamp(placement.0, &cells, Ghost(sc));
    }

    /// Stamp a list of cells with a piece kind; cells outside the stored
    /// rows are ignored.
    fn stamp(&mut self, kind: Piece, cells: &Vec<(usize, usize)>, Ghost(spec_cells): Ghost<
        Seq<(int, int)>,
    >)
        requires
            spec_cells.len() == cells@.len(),
            forall|j: int|
                0 <= j < cells@.len() ==> ((#[trigger] cells@[j]).0 as int, cells@[j].1 as int)
                    == spec_cells[j],
        ensures
            final(self).rows_view() == stamp_rows(old(self).rows_view(), kind, spec_cells),
            final(self).comment == old(self).comment,
            final(self).margin == old(self).margin,
    {
        let ghost orig = self.rows_view();
        proof {
            assert(self.rows_view() =~~= stamp_rows(orig, kind, spec_cells.take(0)));
        }
        let mut i: usize = 0;
        while i < cells.len()
            invariant
                i <= cells@.len(),
                spec_cells.len() == cells@.len(),
                forall|j: int|
                    0 <= j < cells@.len() ==> ((#[trigger] cells@[j]).0 as int,
                    cells@[j].1 as int) == spec_cells[j],
                self.rows_view() == stamp_rows(orig, kind, spec_cells.take(i as int)),
                self.comment == old(self).comment,
                self.margin == old(self).margin,
            decreases cells@.len() - i,
        {
            let (x, y) = cells[i];
            if y < self.data.len() {
                let row_len = self.data[y].len();
                if x < row_len {
                    self.set(x, y, kind);
                }
            }
            proof {
                assert(spec_cells.take(i + 1).drop_last() =~= spec_cells.take(i as int));
                assert(spec_cells.take(i + 1).last() == spec_cells[i as int]);
                assert forall|c: (int, int)| #[trigger] spec_cells.take(i + 1).contains(c) implies (
                spec_cells.take(i as int).contains(c) || c == spec_cells[i as int]) by {
                    let k = choose|k: int|
                        0 <= k < i + 1 && #[trigger] spec_cells.take(i + 1)[k] == c;
                    if k < i {
                        assert(spec_cells.take(i as int)[k] == c);
                    }
                }
                assert forall|c: (int, int)| spec_cells.take(i as int).contains(c)
                    implies #[trigger] spec_cells.take(i + 1).contains(c) by {
                    let k = choose|k: int|
                        0 <= k < i && #[trigger] spec_cells.take(i as int)[k] == c;
                    assert(spec_cells.take(i + 1)[k] == c);
                }
                assert(spec_cells.take(i + 1).contains(spec_cells[i as int])) by {
                    assert(spec_cells.take(i + 1)[i as int] == spec_cells[i as int]);
                }
                assert(self.rows_view() =~~= stamp_rows(orig, kind, spec_cells.take(i + 1)));
            }
            i = i + 1;
        }
        proof {
            assert(spec_cells.take(spec_cells.len() as int) =~= spec_cells);
        }
    }

    /// This board with the placement stamped, line-clear aware.
    pub fn with_placement(&self, placement: Placement) -> (r: Board)
        requires
            placement.0.is_tetromino(),
            adjusted_ok(self.rows_view(), placement),
        ensures
            r.rows_view() == stamp_rows(
                self.rows_view(),
                placement.0,
                adjusted_cells(self.rows_view(), placement),
            ),
            r.comment == self.comment,
            r.margin == self.margin,
    {
        let mut c = self.clone();
        c.skim_place(placement);
        c
    }

    /// Whether a placement is valid here: its line-clear-aware cells exist,
    /// are in bounds and empty; unless floating is allowed, at least one
    /// cell rests on the floor or on a filled cell, and no cell stays in
    /// the margin.
    pub fn is_valid_placement(&self, placement: Placement, float: bool) -> (r: bool)
        requires
            placement.0.is_tetromino(),
            self.wf(),
        ensures
            r == spec_is_valid_placement(self.rows_view(), self.margin as int, placement, float),
    {
        let ghost rows = self.rows_view();
        let apo = self.adjusted_piece_offsets(placement);
        let cells = match apo {
            Some(c) => c,
            None => {
                return false;
            },
        };
        let w = self.width();
        let th = self.total_height();
        let h = self.height();
        let mut i: usize = 0;
        while i < cells.len()
            invariant
                i <= cells@.len(),
                cells@.len() == 4,
                rows == self.rows_view(),
                w == max_row_len(rows),
                th == rows.len(),
                h == rows.len() - self.margin,
                self.wf(),
                placement.0.is_tetromino(),
                adjusted_ok(rows, placement),
                forall|j: int|
                    0 <= j < cells@.len() ==> ((#[trigger] cells@[j]).0 as int,
                    cells@[j].1 as int) == adjusted_cells(rows, placement)[j],
                forall|j: int| 0 <= j < i ==> cell_free(rows, #[trigger] adjusted_cells(rows, placement)[j]),
                !float ==> forall|j: int|
                    0 <= j < i ==> (#[trigger] adjusted_cells(rows, placement)[j]).1 < rows.len()
                        - self.margin,
            decreases cells@.len() - i,
        {
            let (x, y) = cells[i];
            if !(x < w && y < th) {
                return false;
            }
            if !matches!(self.get(x, y), Piece::E) {
                return false;
            }
            if !float && y >= h {
                return false;
            }
            i = i + 1;
        }
        if float {
            return true;
        }
        let mut j: usize = 0;
        while j < cells.len()
            invariant
                j <= cells@.len(),
                cells@.len() == 4,
                rows == self.rows_view(),
                !float,
                placement.0.is_tetromino(),
                adjusted_ok(rows, placement),
                forall|k: int|
                    0 <= k < cells@.len() ==> ((#[trigger] cells@[k]).0 as int,
                    cells@[k].1 as int) == adjusted_cells(rows, placement)[k],
                forall|k: int|
                    0 <= k < cells@.len() ==> cell_free(
                        rows,
                        #[trigger] adjusted_cells(rows, placement)[k],
                    ),
                forall|k: int|
                    0 <= k < cells@.len() ==> (#[trigger] adjusted_cells(rows, placement)[k]).1
                        < rows.len() - self.margin,
                forall|k: int|
                    0 <= k < j ==> !cell_supported(
                        rows,
                        #[trigger] adjusted_cells(rows, placement)[k],
                    ),
            decreases cells@.len() - j,
        {
            let (x, y) = cells[j];
            if y == 0 {
                proof {
                    assert(cell_supported(rows, adjusted_cells(rows, placement)[j as int]));
                }
                return true;
            }
            if !matches!(self.get(x, y - 1), Piece::E) {
                proof {
                    assert(cell_supported(rows, adjusted_cells(rows, placement)[j as int]));
                }
                return true;
            }
            j = j + 1;
        }
        false
    }

    /// Remove every completely filled row and append the same number of
    /// empty rows at the top; the margin is unchanged.
    pub fn skim(&self) -> (r: Board)
        ensures
            r.rows_view() == drop_full_rows(self.rows_view()) + padding_rows(
                count_full(self.rows_view()),
                self.spec_width(),
            ),
            r.comment == self.comment,
            r.margin == self.margin,
    {
        let w = self.width();
        let mut data: Vec<Vec<Piece>> = Vec::new();
        let mut removed: usize = 0;
        let mut y: usize = 0;
        while y < self.data.len()
            invariant
                y <= self.data@.len(),
                removed == count_full(self.rows_view().take(y as int)),
                removed <= y,
                views_of(data@) == drop_full_rows(
                    self.rows_view().take(y as int),
                ),
            decreases self.data@.len() - y,
        {
            proof {
                assert(self.rows_view().take(y + 1).drop_last() =~= self.rows_view().take(
                    y as int,
                ));
                assert(self.rows_view().take(y + 1).last() == self.rows_view()[y as int]);
            }
            if !row_is_full(&self.data[y]) {
                data.push(copy_row(&self.data[y]));
                proof {
                    assert(views_of(data@) =~= drop_full_rows(
                        self.rows_view().take(y + 1),
                    ));
                }
            } else {
                removed = removed + 1;
                proof {
                    assert(views_of(data@) =~= drop_full_rows(
                        self.rows_view().take(y + 1),
                    ));
                }
            }
            y = y + 1;
        }
        proof {
            assert(self.rows_view().take(self.data@.len() as int) =~= self.rows_view());
        }
        let empty_row: Vec<Piece> = vec![Piece::E; w];
        assert(empty_row@ =~= empty_row_seq(self.spec_width()));
        let ghost base = views_of(data@);
        let mut k: usize = 0;
        while k < removed
            invariant
                k <= removed,
                empty_row@ == empty_row_seq(self.spec_width()),
                views_of(data@) == base + padding_rows(
                    k as nat,
                    self.spec_width(),
                ),
            decreases removed - k,
        {
            let nr = copy_row(&empty_row);
            assert(nr@ == empty_row_seq(self.spec_width()));
            let ghost before_push = data@;
            data.push(nr);
            proof {
                assert(data@ == before_push.push(nr));
                assert(views_of(data@).len() == before_push.len() + 1);
                assert(views_of(before_push) == base + padding_rows(k as nat, self.spec_width()));
                assert(views_of(before_push).len() == before_push.len());
                assert(padding_rows(k as nat, self.spec_width()).len() == k);
                assert((base + padding_rows(k as nat, self.spec_width())).len() == base.len()
                    + k);
                assert(before_push.len() == base.len() + k);
                assert forall|i: int| 0 <= i < views_of(data@).len() implies views_of(data@)[i]
                    == (base + padding_rows((k + 1) as nat, self.spec_width()))[i] by {
                    if i < before_push.len() {
                        assert(data@[i] == before_push[i]);
                        assert(views_of(data@)[i] == views_of(before_push)[i]);
                        if i < base.len() {
                        } else {
                            assert(views_of(before_push)[i] == empty_row_seq(self.spec_width()));
                        }
                    } else {
                        assert(data@[i] == nr);
                        assert(views_of(data@)[i] == nr@);
                    }
                }
                assert(views_of(data@) =~= base + padding_rows(
                    (k + 1) as nat,
                    self.spec_width(),
                ));
            }
            k = k + 1;
        }
        let r = Board { data, comment: clone_comment(&self.comment), margin: self.margin };
        proof {
            assert(r.rows_view() =~~= drop_full_rows(self.rows_view()) + padding_rows(
                count_full(self.rows_view()),
                self.spec_width(),
            ));
        }
        r
    }
}

/// The boards produced by skim-placing each placement in order.
pub open spec fn many_placed(rows: Seq<Seq<Piece>>, ps: Seq<Placement>, i: int) -> Seq<Seq<Piece>>
    decreases ps.len() - i,
{
    if i < 0 || i >= ps.len() {
        rows
    } else {
        many_placed(stamp_rows(rows, ps[i].0, adjusted_cells(rows, ps[i])), ps, i + 1)
    }
}

/// Whether each placement in the sequence is defined on the board it
/// meets: a tetromino whose line-clear-aware cells exist there.
pub open spec fn many_ok(rows: Seq<Seq<Piece>>, ps: Seq<Placement>, i: int) -> bool
    decreases ps.len() - i,
{
    if i < 0 || i >= ps.len() {
        true
    } else {
        &&& ps[i].0.is_tetromino()
        &&& adjusted_ok(rows, ps[i])
        &&& many_ok(stamp_rows(rows, ps[i].0, adjusted_cells(rows, ps[i])), ps, i + 1)
    }
}

impl Board {
    /// This board with every placement stamped in order, line-clear aware.
    pub fn with_many_placements(&self, placement: &Vec<Placement>) -> (r: Board)
        requires
            many_ok(self.rows_view(), placement@, 0),
        ensures
            r.rows_view() == many_placed(self.rows_view(), placement@, 0),
            r.comment == self.comment,
            r.margin == self.margin,
    {
        let mut c = self.clone();
        let mut i: usize = 0;
        while i < placement.len()
            invariant
                i <= placement@.len(),
                many_ok(c.rows_view(), placement@, i as int),
                many_placed(self.rows_view(), placement@, 0) == many_placed(
                    c.rows_view(),
                    placement@,
                    i as int,
                ),
                c.comment == self.comment,
                c.margin == self.margin,
            decreases placement@.len() - i,
        {
            c.skim_place(placement[i]);
            i = i + 1;
        }
        c
    }

    /// This board with the filled cells of another of the same visible
    /// dimensions stamped over it.
    pub fn or(&self, rhs: &Board) -> (r: Board)
        requires
            self.wf(),
            rhs.wf(),
            self.spec_width() == rhs.spec_width(),
            self.spec_height() == rhs.spec_height(),
            forall|y: int|
                0 <= y < self.spec_height() ==> (#[trigger] self.rows_view()[y]).len()
                    == self.spec_width(),
        ensures
            r.rows_view().len() == self.rows_view().len(),
            forall|y: int|
                0 <= y < self.rows_view().len() ==> (#[trigger] r.rows_view()[y]).len()
                    == self.rows_view()[y].len(),
            forall|x: int, y: int|
                0 <= y < self.rows_view().len() && 0 <= x < self.rows_view()[y].len()
                    ==> #[trigger] r.rows_view()[y][x] == (if 0 <= y < self.spec_height()
                    && rhs.spec_get(x, y) != Piece::E {
                    rhs.spec_get(x, y)
                } else {
                    self.rows_view()[y][x]
                }),
            r.comment == self.comment,
            r.margin == self.margin,
    {
        let mut m = self.clone();
        let w = self.width();
        let h = self.height();
        let mut y: usize = 0;
        while y < h
            invariant
                y <= h,
                w == self.spec_width(),
                h == self.spec_height(),
                rhs.wf(),
                m.margin == self.margin,
                m.comment == self.comment,
                m.rows_view().len() == self.rows_view().len(),
                forall|yy: int|
                    0 <= yy < self.rows_view().len() ==> (#[trigger] m.rows_view()[yy]).len()
                        == self.rows_view()[yy].len(),
                forall|yy: int|
                    0 <= yy < h ==> (#[trigger] self.rows_view()[yy]).len() == w,
                forall|xx: int, yy: int|
                    0 <= yy < self.rows_view().len() && 0 <= xx < self.rows_view()[yy].len()
                        ==> #[trigger] m.rows_view()[yy][xx] == (if 0 <= yy < y && rhs.spec_get(
                        xx,
                        yy,
                    ) != Piece::E {
                        rhs.spec_get(xx, yy)
                    } else {
                        self.rows_view()[yy][xx]
                    }),
            decreases h - y,
        {
            let mut x: usize = 0;
            while x < w
                invariant
                    x <= w,
                    y < h,
                    w == self.spec_width(),
                    h == self.spec_height(),
                    rhs.wf(),
                    m.margin == self.margin,
                    m.comment == self.comment,
                    m.rows_view().len() == self.rows_view().len(),
                    forall|yy: int|
                        0 <= yy < self.rows_view().len() ==> (#[trigger] m.rows_view()[yy]).len()
                            == self.rows_view()[yy].len(),
                    forall|yy: int|
                        0 <= yy < h ==> (#[trigger] self.rows_view()[yy]).len() == w,
                    forall|xx: int, yy: int|
                        0 <= yy < self.rows_view().len() && 0 <= xx < self.rows_view()[yy].len()
                            ==> #[trigger] m.rows_view()[yy][xx] == (if (0 <= yy < y || (yy == y
                            && xx < x)) && rhs.spec_get(xx, yy) != Piece::E {
                            rhs.spec_get(xx, yy)
                        } else {
                            self.rows_view()[yy][xx]
                        }),
                decreases w - x,
            {
                let p = rhs.get(x, y);
                if p.is_filled() {
                    m.set(x, y, p);
                }
                x = x + 1;
            }
            y = y + 1;
        }
        m
    }
}

impl Board {
    /// Resize every row to the width, truncating or padding with empty
    /// cells on the right.
    pub fn set_width(&mut self, width: usize)
        ensures
            final(self).rows_view().len() == old(self).rows_view().len(),
            forall|y: int|
                0 <= y < old(self).rows_view().len() ==> (#[trigger] final(self).rows_view()[y])
                    =~= Seq::new(
                    width as nat,
                    |x: int|
                        if 0 <= x < old(self).rows_view()[y].len() {
                            old(self).rows_view()[y][x]
                        } else {
                            Piece::E
                        },
                ),
            final(self).comment == old(self).comment,
            final(self).margin == old(self).margin,
    {
        let n = self.data.len();
        let mut y: usize = 0;
        while y < n
            invariant
                y <= n,
                n == self.data@.len(),
                self.data@.len() == old(self).data@.len(),
                self.comment == old(self).comment,
                self.margin == old(self).margin,
                forall|j: int|
                    y <= j < n ==> #[trigger] self.rows_view()[j] == old(self).rows_view()[j],
                forall|j: int|
                    0 <= j < y ==> (#[trigger] self.rows_view()[j]) =~= Seq::new(
                        width as nat,
                        |x: int|
                            if 0 <= x < old(self).rows_view()[j].len() {
                                old(self).rows_view()[j][x]
                            } else {
                                Piece::E
                            },
                    ),
            decreases n - y,
        {
            let src = &self.data[y];
            let mut nr: Vec<Piece> = Vec::new();
            let mut x: usize = 0;
            while x < width
                invariant
                    x <= width,
                    y < self.data@.len(),
                    src@ == self.rows_view()[y as int],
                    nr@.len() == x,
                    forall|t: int|
                        0 <= t < x ==> #[trigger] nr@[t] == (if 0 <= t < src@.len() {
                            src@[t]
                        } else {
                            Piece::E
                        }),
                decreases width - x,
            {
                if x < src.len() {
                    let c = src[x];
                    nr.push(c);
                } else {
                    nr.push(Piece::E);
                }
                x = x + 1;
            }
            let ghost prevrows = self.rows_view();
            self.data.set(y, nr);
            proof {
                assert(forall|j: int|
                    0 <= j < n && j != y ==> #[trigger] self.rows_view()[j] == prevrows[j]);
                assert(self.rows_view()[y as int] =~= Seq::new(
                    width as nat,
                    |x: int|
                        if 0 <= x < old(self).rows_view()[y as int].len() {
                            old(self).rows_view()[y as int][x]
                        } else {
                            Piece::E
                        },
                ));
            }
            y = y + 1;
        }
    }

    /// Pad every row with empty cells to the full board width.
    pub fn deoptimize(&mut self)
        ensures
            final(self).rows_view().len() == old(self).rows_view().len(),
            forall|y: int|
                0 <= y < old(self).rows_view().len() ==> (#[trigger] final(self).rows_view()[y])
                    =~= Seq::new(
                    old(self).spec_width(),
                    |x: int|
                        if 0 <= x < old(self).rows_view()[y].len() {
                            old(self).rows_view()[y][x]
                        } else {
                            Piece::E
                        },
                ),
            final(self).comment == old(self).comment,
            final(self).margin == old(self).margin,
    {
        let w = self.width();
        self.set_width(w);
    }

    /// This board with every row padded to the full width.
    pub fn as_deoptimized(self) -> (r: Board)
        ensures
            r.rows_view().len() == self.rows_view().len(),
            forall|y: int|
                0 <= y < self.rows_view().len() ==> (#[trigger] r.rows_view()[y]) =~= Seq::new(
                    self.spec_width(),
                    |x: int|
                        if 0 <= x < self.rows_view()[y].len() {
                            self.rows_view()[y][x]
                        } else {
                            Piece::E
                        },
                ),
            r.comment == self.comment,
            r.margin == self.margin,
    {
        let mut s = self;
        s.deoptimize();
        s
    }

    /// The stored rows, for mutation.
    pub fn rows_mut(&mut self) -> (r: &mut Vec<Vec<Piece>>)
        ensures
            *r == old(self).data,
            final(self).data == *final(r),
            final(self).comment == old(self).comment,
            final(self).margin == old(self).margin,
    {
        &mut self.data
    }

    /// Change the visible height: rows leave or empty rows of the current
    /// width enter just below the margin block.
    pub fn set_height(&mut self, height: usize)
        requires
            old(self).wf(),
            height + old(self).margin <= usize::MAX,
        ensures
            final(self).wf(),
            final(self).margin == old(self).margin,
            final(self).comment == old(self).comment,
            final(self).spec_height() == height,
            forall|y: int|
                0 <= y < height && y < old(self).spec_height()
                    ==> #[trigger] final(self).rows_view()[y] == old(self).rows_view()[y],
            forall|y: int|
                old(self).spec_height() <= y < height ==> #[trigger] final(self).rows_view()[y]
                    == empty_row_seq(old(self).spec_width()),
    {
        let w = self.width();
        while self.height() > height
            invariant
                self.wf(),
                self.margin == old(self).margin,
                self.comment == old(self).comment,
                old(self).spec_height() >= self.spec_height(),
                self.spec_height() >= height || self.spec_height() == old(self).spec_height(),
                forall|y: int|
                    0 <= y < self.spec_height() && y < old(self).spec_height()
                        ==> #[trigger] self.rows_view()[y] == old(self).rows_view()[y],
            decreases self.rows_view().len(),
        {
            let h = self.height();
            let ghost prevrows = self.rows_view();
            self.data.remove(h - 1);
            proof {
                assert forall|y: int| 0 <= y < self.spec_height() && y < old(self).spec_height()
                    implies #[trigger] self.rows_view()[y] == old(self).rows_view()[y] by {
                    assert(self.rows_view()[y] == prevrows[y]);
                }
            }
        }
        let row: Vec<Piece> = vec![Piece::E; w];
        proof {
            assert(row@ =~= empty_row_seq(old(self).spec_width()));
        }
        while self.height() < height
            invariant
                self.wf(),
                self.margin == old(self).margin,
                self.comment == old(self).comment,
                self.spec_height() <= height,
                height + self.margin <= usize::MAX,
                self.spec_height() < height ==> old(self).spec_height() <= self.spec_height(),
                0 <= old(self).spec_height(),
                row@ == empty_row_seq(old(self).spec_width()),
                forall|y: int|
                    0 <= y < self.spec_height() && y < old(self).spec_height()
                        ==> #[trigger] self.rows_view()[y] == old(self).rows_view()[y],
                forall|y: int|
                    old(self).spec_height() <= y < self.spec_height()
                        ==> #[trigger] self.rows_view()[y] == empty_row_seq(
                        old(self).spec_width(),
                    ),
            decreases height - self.spec_height(),
        {
            let h = self.height();
            let ghost prevrows = self.rows_view();
            self.data.insert(h, row.clone());
            proof {
                assert forall|y: int| 0 <= y < self.spec_height() && y < old(self).spec_height()
                    implies #[trigger] self.rows_view()[y] == old(self).rows_view()[y] by {
                    if y < h {
                        assert(self.rows_view()[y] == prevrows[y]);
                    } else {
                        assert(old(self).spec_height() <= h);
                        assert(false);
                    }
                }
                assert forall|y: int| old(self).spec_height() <= y < self.spec_height()
                    implies #[trigger] self.rows_view()[y] == empty_row_seq(
                    old(self).spec_width(),
                ) by {
                    if y < h {
                        assert(self.rows_view()[y] == prevrows[y]);
                    } else if y == h {
                        assert(self.rows_view()[y] == row@);
                    } else {
                        assert(false);
                    }
                }
            }
        }
    }

    /// Change the margin: spawn rows leave or empty rows of the current
    /// width enter at the very top.
    pub fn set_margin(&mut self, margin: usize)
        requires
            old(self).wf(),
            old(self).rows_view().len() + margin <= usize::MAX,
        ensures
            final(self).wf(),
            final(self).margin == margin,
            final(self).comment == old(self).comment,
            final(self).spec_height() == old(self).spec_height(),
            forall|y: int|
                0 <= y < old(self).spec_height() ==> #[trigger] final(self).rows_view()[y] == old(
                    self,
                ).rows_view()[y],
    {
        let w = self.width();
        while self.margin > margin
            invariant
                self.wf(),
                self.comment == old(self).comment,
                self.spec_height() == old(self).spec_height(),
                forall|y: int|
                    0 <= y < old(self).spec_height() ==> #[trigger] self.rows_view()[y] == old(
                        self,
                    ).rows_view()[y],
            decreases self.margin,
        {
            let ghost prevrows = self.rows_view();
            self.data.pop();
            self.margin = self.margin - 1;
            proof {
                assert forall|y: int| 0 <= y < old(self).spec_height()
                    implies #[trigger] self.rows_view()[y] == old(self).rows_view()[y] by {
                    assert(self.rows_view()[y] == prevrows[y]);
                }
            }
        }
        let row: Vec<Piece> = vec![Piece::E; w];
        while self.margin < margin
            invariant
                self.wf(),
                self.comment == old(self).comment,
                self.margin <= margin,
                self.rows_view().len() + (margin - self.margin) <= usize::MAX,
                self.spec_height() == old(self).spec_height(),
                forall|y: int|
                    0 <= y < old(self).spec_height() ==> #[trigger] self.rows_view()[y] == old(
                        self,
                    ).rows_view()[y],
            decreases margin - self.margin,
        {
            let ghost prevrows = self.rows_view();
            self.data.push(row.clone());
            self.margin = self.margin + 1;
            proof {
                assert forall|y: int| 0 <= y < old(self).spec_height()
                    implies #[trigger] self.rows_view()[y] == old(self).rows_view()[y] by {
                    assert(self.rows_view()[y] == prevrows[y]);
                }
            }
        }
    }
}

/// Whether a cell position is inside the field and empty.
pub open spec fn cell_free(rows: Seq<Seq<Piece>>, c: (int, int)) -> bool {
    &&& 0 <= c.0 < max_row_len(rows)
    &&& 0 <= c.1 < rows.len()
    &&& cell_at(rows, c.0, c.1) == Piece::E
}

/// Whether a cell position rests on the floor or on a filled cell.
pub open spec fn cell_supported(rows: Seq<Seq<Piece>>, c: (int, int)) -> bool {
    c.1 == 0 || cell_at(rows, c.0, c.1 - 1) != Piece::E
}

/// The placement predicate: the line-clear-aware cells exist, are in
/// bounds and empty; unless floating is allowed, some cell is supported
/// and no cell stays in the margin (the rows above `rows.len() - margin`).
pub open spec fn spec_is_valid_placement(
    rows: Seq<Seq<Piece>>,
    margin: int,
    p: Placement,
    float: bool,
) -> bool {
    &&& adjusted_ok(rows, p)
    &&& forall|i: int| 0 <= i < 4 ==> cell_free(rows, #[trigger] adjusted_cells(rows, p)[i])
    &&& (float || exists|i: int|
        0 <= i < 4 && cell_supported(rows, #[trigger] adjusted_cells(rows, p)[i]))
    &&& (float || forall|i: int|
        0 <= i < 4 ==> (#[trigger] adjusted_cells(rows, p)[i]).1 < rows.len() - margin)
}

/// A copy of a row of cells.
pub fn copy_row(src: &Vec<Piece>) -> (r: Vec<Piece>)
    ensures
        r@ == src@,
{
    let mut row: Vec<Piece> = Vec::new();
    let mut x: usize = 0;
    while x < src.len()
        invariant
            x <= src@.len(),
            row@ == src@.take(x as int),
        decreases src@.len() - x,
    {
        row.push(src[x]);
        proof {
            assert(src@.take(x + 1) =~= src@.take(x as int).push(src@[x as int]));
        }
        x = x + 1;
    }
    proof {
        assert(src@.take(src@.len() as int) =~= src@);
    }
    row
}

/// A copy of an optional comment.
pub fn clone_comment(c: &Option<String>) -> (r: Option<String>)
    ensures
        r == c,
{
    match c {
        Some(s) => Some(s.clone()),
        None => None,
    }
}

/// When no row is completely filled, placing and skim-placing stamp the
/// same cells: the line-clear adjustment moves nothing.
pub proof fn lemma_place_eq_skim_place(rows: Seq<Seq<Piece>>, p: Placement)
    requires
        forall|y: int| !row_cleared(rows, y),
    ensures
        adjusted_cells(rows, p) == raw_cells(p),
        stamp_rows(rows, p.0, adjusted_cells(rows, p)) == stamp_rows(rows, p.0, raw_cells(p)),
{
    assert forall|i: int| 0 <= i < 4 implies adjusted_cells(rows, p)[i] == raw_cells(p)[i] by {
        let c = spec_cell(p.0, p.3, p.1 as int, p.2 as int, i);
        assert(walk_up(rows, c.1) == c.1);
        assert(walk_down(rows, c.1) == c.1);
    }
    assert(adjusted_cells(rows, p) =~= raw_cells(p));
}

/// Skimming leaves no completely filled row behind.
pub proof fn lemma_skim_no_clears(rows: Seq<Seq<Piece>>, width: nat)
    requires
        width >= 1,
    ensures
        count_full(drop_full_rows(rows) + padding_rows(count_full(rows), width)) == 0,
{
    let dropped = drop_full_rows(rows);
    let added = padding_rows(count_full(rows), width);
    lemma_drop_full_rows_not_full(rows);
    assert forall|i: int| 0 <= i < added.len() implies !row_full(#[trigger] added[i]) by {
        assert(added[i][0] == Piece::E);
        assert(added[i].contains(Piece::E));
    }
    assert forall|i: int| 0 <= i < (dropped + added).len() implies !row_full(
        #[trigger] (dropped + added)[i],
    ) by {
        if i < dropped.len() {
            assert((dropped + added)[i] == dropped[i]);
        } else {
            assert((dropped + added)[i] == added[i - dropped.len()]);
        }
    }
    lemma_count_full_none(dropped + added);
}

/// Every row that survives `drop_full_rows` is not completely filled.
pub proof fn lemma_drop_full_rows_not_full(rows: Seq<Seq<Piece>>)
    ensures
        forall|i: int|
            0 <= i < drop_full_rows(rows).len() ==> !row_full(#[trigger] drop_full_rows(rows)[i]),
    decreases rows.len(),
{
    if rows.len() > 0 {
        lemma_drop_full_rows_not_full(rows.drop_last());
        let d = drop_full_rows(rows.drop_last());
        if row_full(rows.last()) {
            assert(drop_full_rows(rows) =~= d);
        } else {
            assert forall|i: int| 0 <= i < drop_full_rows(rows).len() implies !row_full(
                #[trigger] drop_full_rows(rows)[i],
            ) by {
                if i < d.len() {
                    assert(drop_full_rows(rows)[i] == d[i]);
                } else {
                    assert(drop_full_rows(rows)[i] == rows.last());
                }
            }
        }
    }
}

/// A stack in which no row is completely filled counts zero filled rows.
pub proof fn lemma_count_full_none(rows: Seq<Seq<Piece>>)
    requires
        forall|i: int| 0 <= i < rows.len() ==> !row_full(#[trigger] rows[i]),
    ensures
        count_full(rows) == 0,
    decreases rows.len(),
{
    if rows.len() > 0 {
        assert(forall|i: int|
            0 <= i < rows.len() - 1 ==> rows.drop_last()[i] == #[trigger] rows[i]);
        lemma_count_full_none(rows.drop_last());
    }
}

/// Whether a row holds no empty cell.
pub fn row_is_full(row: &Vec<Piece>) -> (r: bool)
    ensures
        r == row_full(row@),
{
    let mut x: usize = 0;
    while x < row.len()
        invariant
            x <= row@.len(),
            forall|i: int| 0 <= i < x ==> #[trigger] row@[i] != Piece::E,
        decreases row@.len() - x,
    {
        if matches!(row[x], Piece::E) {
            assert(row@.contains(Piece::E));
            return false;
        }
        x = x + 1;
    }
    assert(!row@.contains(Piece::E)) by {
        if row@.contains(Piece::E) {
            let i = choose|i: int| 0 <= i < row@.len() && row@[i] == Piece::E;
        }
    }
    true
}

} // verus!

//! A grid: a sequence of board pages, as the codec shares them.

use vstd::prelude::*;

use crate::board::Board;
use crate::piece::Piece;

verus! {

/// A sequence of board snapshots ("pages").
#[derive(Debug)]
pub struct Grid(pub Vec<Board>);

/// The pages of a grid as row stacks.
pub open spec fn pages_view(pages: Seq<Board>) -> Seq<Seq<Seq<Piece>>> {
    pages.map_values(|b: Board| b.rows_view())
}

impl Clone for Grid {
    /// A clone carries the same pages.
    fn clone(&self) -> (r: Self)
        ensures
            r.0@.len() == self.0@.len(),
            forall|i: int|
                0 <= i < self.0@.len() ==> (#[trigger] r.0@[i]).rows_view()
                    == self.0@[i].rows_view() && r.0@[i].comment == self.0@[i].comment
                    && r.0@[i].margin == self.0@[i].margin,
    {
        let mut pages: Vec<Board> = Vec::new();
        let mut i: usize = 0;
        while i < self.0.len()
            invariant
                i <= self.0@.len(),
                pages@.len() == i,
                forall|j: int|
                    0 <= j < i ==> (#[trigger] pages@[j]).rows_view() == self.0@[j].rows_view()
                        && pages@[j].comment == self.0@[j].comment && pages@[j].margin
                        == self.0@[j].margin,
            decreases self.0@.len() - i,
        {
            pages.push(self.0[i].clone());
            i = i + 1;
        }
        Grid(pages)
    }
}

impl Grid {
    /// A grid of the given pages.
    pub fn from_pages(pages: Vec<Board>) -> (r: Grid)
        ensures
            r.0 == pages,
    {
        Grid(pages)
    }

    /// A single blank page.
    pub fn empty(width: usize, height: usize) -> (r: Grid)
        requires
            height <= usize::MAX,
        ensures
            r.0@.len() == 1,
            r.0@[0].rows_view().len() == height,
            r.0@[0].margin == 0,
    {
        let mut pages: Vec<Board> = Vec::new();
        pages.push(Board::empty(width, height, 0));
        Grid(pages)
    }

    /// The pages.
    pub fn pages(&self) -> (r: &Vec<Board>)
        ensures
            r == &self.0,
    {
        &self.0
    }

    /// The first page, when there is one.
    pub fn page(&self) -> (r: Option<&Board>)
        ensures
            r is Some <==> self.0@.len() > 0,
            r is Some ==> r->Some_0 == &self.0@[0],
    {
        if self.0.len() > 0 {
            Some(&self.0[0])
        } else {
            None
        }
    }

    /// Append a page.
    pub fn add_page(&mut self, page: Board)
        ensures
            final(self).0@ == old(self).0@.push(page),
    {
        self.0.push(page);
    }

    /// The greatest page width.
    pub fn width(&self) -> (r: usize)
        ensures
            r as nat == grid_width(pages_view(self.0@)),
    {
        let mut m: usize = 0;
        let mut i: usize = 0;
        while i < self.0.len()
            invariant
                i <= self.0@.len(),
                m as nat == grid_width(pages_view(self.0@).take(i as int)),
            decreases self.0@.len() - i,
        {
            proof {
                assert(pages_view(self.0@).take(i + 1).drop_last() =~= pages_view(
                    self.0@,
                ).take(i as int));
                assert(pages_view(self.0@).take(i + 1).last() == self.0@[i as int].rows_view());
            }
            let w = self.0[i].width();
            if w > m {
                m = w;
            }
            i = i + 1;
        }
        proof {
            assert(pages_view(self.0@).take(self.0@.len() as int) =~= pages_view(self.0@));
        }
        m
    }

    /// The greatest visible page height.
    pub fn height(&self) -> (r: usize)
        requires
            forall|i: int| 0 <= i < self.0@.len() ==> (#[trigger] self.0@[i]).wf(),
        ensures
            r as nat == grid_height(self.0@),
    {
        let mut m: usize = 0;
        let mut i: usize = 0;
        while i < self.0.len()
            invariant
                i <= self.0@.len(),
                forall|j: int| 0 <= j < self.0@.len() ==> (#[trigger] self.0@[j]).wf(),
                m as nat == grid_height(self.0@.take(i as int)),
            decreases self.0@.len() - i,
        {
            proof {
                assert(self.0@.take(i + 1).drop_last() =~= self.0@.take(i as int));
                assert(self.0@.take(i + 1).last() == self.0@[i as int]);
            }
            let h = self.0[i].height();
            if h > m {
                m = h;
            }
            i = i + 1;
        }
        proof {
            assert(self.0@.take(self.0@.len() as int) =~= self.0@);
        }
        m
    }
}

/// The greatest width over a sequence of page row stacks.
pub open spec fn grid_width(pages: Seq<Seq<Seq<Piece>>>) -> nat
    decreases pages.len(),
{
    if pages.len() == 0 {
        0
    } else {
        let m = grid_width(pages.drop_last());
        if crate::board::max_row_len(pages.last()) > m {
            crate::board::max_row_len(pages.last())
        } else {
            m
        }
    }
}

/// The greatest visible height over a sequence of pages.
pub open spec fn grid_height(pages: Seq<Board>) -> nat
    decreases pages.len(),
{
    if pages.len() == 0 {
        0
    } else {
        let m = grid_height(pages.drop_last());
        if pages.last().spec_height() > m {
            pages.last().spec_height() as nat
        } else {
            m
        }
    }
}

} // verus!

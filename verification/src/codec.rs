//! The shared-field codec boundary: pages go out through the community
//! field-string encoder; decoded pages come back in as plain cell codes.

use vstd::prelude::*;

use crate::board::Board;
use crate::grid::Grid;
use crate::piece::Piece;

verus! {

#[verifier::external_type_specification]
#[verifier::external_body]
pub struct ExCellColor(fumen::CellColor);

#[verifier::external_type_specification]
#[verifier::external_body]
pub struct ExPieceType(fumen::PieceType);

impl Piece {
    /// Relies on fumen's `CellColor`: the cell color that stands for this
    /// piece kind in the codec; gray and deep gray share the gray color.
    #[verifier::external_body]
    pub fn cell_color(self) -> fumen::CellColor {
        match self {
            Piece::D | Piece::G => fumen::CellColor::Grey,
            Piece::E => fumen::CellColor::Empty,
            Piece::I => fumen::CellColor::I,
            Piece::J => fumen::CellColor::J,
            Piece::O => fumen::CellColor::O,
            Piece::L => fumen::CellColor::L,
            Piece::Z => fumen::CellColor::Z,
            Piece::S => fumen::CellColor::S,
            Piece::T => fumen::CellColor::T,
        }
    }

    /// Relies on fumen's `PieceType`: the codec piece kind for a placeable
    /// tetromino.
    #[verifier::external_body]
    pub fn fum(self) -> fumen::PieceType
        requires
            self.is_tetromino(),
    {
        match self {
            Piece::I => fumen::PieceType::I,
            Piece::J => fumen::PieceType::J,
            Piece::O => fumen::PieceType::O,
            Piece::L => fumen::PieceType::L,
            Piece::Z => fumen::PieceType::Z,
            Piece::S => fumen::PieceType::S,
            Piece::T => fumen::PieceType::T,
            _ => fumen::PieceType::I,
        }
    }
}

/// A page as the codec sees it: the rows of cells and the comment.
pub open spec fn codec_view(pages: Seq<Board>) -> Seq<(Seq<Seq<Piece>>, Option<Seq<char>>)> {
    pages.map_values(
        |b: Board|
            (
                b.rows_view(),
                match b.comment {
                    Option::None => Option::<Seq<char>>::None,
                    Option::Some(c) => Option::Some(c@),
                },
            ),
    )
}

pub uninterp spec fn encoded_of(pages: Seq<(Seq<Seq<Piece>>, Option<Seq<char>>)>) -> Seq<char>;

/// Relies on fumen's `Fumen::encode`: the data string is a function of the
/// pages alone (the field cells, bottom row first, and the per-page
/// comments), is ASCII, and starts with its five-character version tag.
#[verifier::external_body]
pub fn encode_grid(g: &Grid) -> (r: String)
    ensures
        r@ == encoded_of(codec_view(g.0@)),
        r@.len() >= 5,
        crate::codec::ascii_string(&r),
{
    let mut f = fumen::Fumen::default();
    for b in &g.0 {
        let p = f.add_page();
        p.field = [[fumen::CellColor::Empty; 10]; 23];
        for (y, row) in b.data.iter().take(23).enumerate() {
            for (x, c) in row.iter().take(10).enumerate() {
                p.field[y][x] = c.cell_color();
            }
        }
        p.comment = b.comment.clone();
    }
    f.encode()
}

/// Whether every character of the string is ASCII.
pub open spec fn ascii_string(s: &String) -> bool {
    vstd::string::string_is_ascii(s)
}

/// One decoded page: rows of cell color codes, bottom row first, and the
/// page comment.
#[derive(Debug)]
pub struct DecodedPage {
    pub field: Vec<Vec<u8>>,
    pub comment: Option<String>,
}

/// The piece kind a decoded cell color code stands for.
pub open spec fn piece_of_code(c: u8) -> Piece {
    if c == 1 {
        Piece::I
    } else if c == 2 {
        Piece::L
    } else if c == 3 {
        Piece::O
    } else if c == 4 {
        Piece::Z
    } else if c == 5 {
        Piece::T
    } else if c == 6 {
        Piece::J
    } else if c == 7 {
        Piece::S
    } else if c == 8 {
        Piece::G
    } else {
        Piece::E
    }
}

/// The decoded pages as a grid of colored boards with no margin.
pub fn fumen_to_grid(pages: &Vec<DecodedPage>) -> (r: Grid)
    ensures
        r.0@.len() == pages@.len(),
        forall|p: int, y: int, x: int|
            0 <= p < pages@.len() && 0 <= y < pages@[p].field@.len() && 0 <= x
                < pages@[p].field@[y]@.len() ==> {
                &&& (#[trigger] r.0@[p].rows_view()[y][x]) == piece_of_code(
                    pages@[p].field@[y]@[x],
                )
            },
        forall|p: int|
            0 <= p < pages@.len() ==> (#[trigger] r.0@[p]).rows_view().len()
                == pages@[p].field@.len() && r.0@[p].margin == 0 && r.0@[p].comment
                == pages@[p].comment && (forall|y: int|
                0 <= y < pages@[p].field@.len() ==> (#[trigger] r.0@[p].rows_view()[y]).len()
                    == pages@[p].field@[y]@.len()),
{
    let mut out: Vec<Board> = Vec::new();
    let mut p: usize = 0;
    while p < pages.len()
        invariant
            p <= pages@.len(),
            out@.len() == p,
            forall|t: int, y: int, x: int|
                0 <= t < p && 0 <= y < pages@[t].field@.len() && 0 <= x
                    < pages@[t].field@[y]@.len() ==> {
                    &&& (#[trigger] out@[t].rows_view()[y][x]) == piece_of_code(
                        pages@[t].field@[y]@[x],
                    )
                },
            forall|t: int|
                0 <= t < p ==> (#[trigger] out@[t]).rows_view().len() == pages@[t].field@.len()
                    && out@[t].margin == 0 && out@[t].comment == pages@[t].comment && (forall|
                    y: int,
                |
                    0 <= y < pages@[t].field@.len() ==> (#[trigger] out@[t].rows_view()[y]).len()
                        == pages@[t].field@[y]@.len()),
        decreases pages@.len() - p,
    {
        let page = &pages[p];
        let mut data: Vec<Vec<Piece>> = Vec::new();
        let mut y: usize = 0;
        while y < page.field.len()
            invariant
                y <= page.field@.len(),
                data@.len() == y,
                forall|t: int|
                    0 <= t < y ==> (#[trigger] data@[t]@).len() == page.field@[t]@.len(),
                forall|t: int, x: int|
                    0 <= t < y && 0 <= x < page.field@[t]@.len() ==> #[trigger] data@[t]@[x]
                        == piece_of_code(page.field@[t]@[x]),
            decreases page.field@.len() - y,
        {
            let src = &page.field[y];
            let mut row: Vec<Piece> = Vec::new();
            let mut x: usize = 0;
            while x < src.len()
                invariant
                    x <= src@.len(),
                    row@.len() == x,
                    forall|t: int|
                        0 <= t < x ==> #[trigger] row@[t] == piece_of_code(src@[t]),
                decreases src@.len() - x,
            {
                let c = src[x];
                let piece = if c == 1 {
                    Piece::I
                } else if c == 2 {
                    Piece::L
                } else if c == 3 {
                    Piece::O
                } else if c == 4 {
                    Piece::Z
                } else if c == 5 {
                    Piece::T
                } else if c == 6 {
                    Piece::J
                } else if c == 7 {
                    Piece::S
                } else if c == 8 {
                    Piece::G
                } else {
                    Piece::E
                };
                row.push(piece);
                x = x + 1;
            }
            data.push(row);
            y = y + 1;
        }
        let comment = crate::board::clone_comment(&page.comment);
        out.push(Board { data, comment, margin: 0 });
        p = p + 1;
    }
    Grid(out)
}

} // verus!

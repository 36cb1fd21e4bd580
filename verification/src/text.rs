//! The board-string surface syntax: one letter per cell, rows joined by
//! bars from the top down, with groups and repeat counts on input.

use vstd::prelude::*;

use crate::board::Board;
use crate::piece::Piece;

verus! {

/// The letter a cell kind prints as.
pub open spec fn piece_char(p: Piece) -> char {
    match p {
        Piece::I => 'I',
        Piece::J => 'J',
        Piece::O => 'O',
        Piece::L => 'L',
        Piece::Z => 'Z',
        Piece::S => 'S',
        Piece::T => 'T',
        Piece::G => 'G',
        Piece::D => 'D',
        Piece::E => 'E',
    }
}

/// The cell kind a letter names, case-insensitively.
pub open spec fn char_piece(c: char) -> Option<Piece> {
    if c == 'I' || c == 'i' {
        Option::Some(Piece::I)
    } else if c == 'J' || c == 'j' {
        Option::Some(Piece::J)
    } else if c == 'O' || c == 'o' {
        Option::Some(Piece::O)
    } else if c == 'L' || c == 'l' {
        Option::Some(Piece::L)
    } else if c == 'Z' || c == 'z' {
        Option::Some(Piece::Z)
    } else if c == 'S' || c == 's' {
        Option::Some(Piece::S)
    } else if c == 'T' || c == 't' {
        Option::Some(Piece::T)
    } else if c == 'G' || c == 'g' {
        Option::Some(Piece::G)
    } else if c == 'D' || c == 'd' {
        Option::Some(Piece::D)
    } else if c == 'E' || c == 'e' {
        Option::Some(Piece::E)
    } else {
        Option::None
    }
}

impl Piece {
    /// The letter this cell kind prints as.
    pub fn letter(self) -> (c: char)
        ensures
            c == piece_char(self),
    {
        match self {
            Piece::I => 'I',
            Piece::J => 'J',
            Piece::O => 'O',
            Piece::L => 'L',
            Piece::Z => 'Z',
            Piece::S => 'S',
            Piece::T => 'T',
            Piece::G => 'G',
            Piece::D => 'D',
            Piece::E => 'E',
        }
    }

    /// The cell kind a letter names, case-insensitively.
    pub fn from_char(c: char) -> (r: Option<Piece>)
        ensures
            r == char_piece(c),
    {
        if c == 'I' || c == 'i' {
            Some(Piece::I)
        } else if c == 'J' || c == 'j' {
            Some(Piece::J)
        } else if c == 'O' || c == 'o' {
            Some(Piece::O)
        } else if c == 'L' || c == 'l' {
            Some(Piece::L)
        } else if c == 'Z' || c == 'z' {
            Some(Piece::Z)
        } else if c == 'S' || c == 's' {
            Some(Piece::S)
        } else if c == 'T' || c == 't' {
            Some(Piece::T)
        } else if c == 'G' || c == 'g' {
            Some(Piece::G)
        } else if c == 'D' || c == 'd' {
            Some(Piece::D)
        } else if c == 'E' || c == 'e' {
            Some(Piece::E)
        } else {
            None
        }
    }
}

/// Relies on `Iterator::collect` for `String`: the string holds exactly
/// the given characters in order.
#[verifier::external_body]
pub fn chars_to_string(v: &Vec<char>) -> (r: String)
    ensures
        r@ == v@,
{
    v.iter().collect()
}

/// Relies on `str::chars` and `Iterator::collect`: the characters of the
/// string, in order.
#[verifier::external_body]
pub fn string_chars(s: &str) -> (r: Vec<char>)
    ensures
        r@ == s@,
{
    s.chars().collect()
}

/// The characters of one printed row.
pub open spec fn row_chars(row: Seq<Piece>) -> Seq<char> {
    row.map_values(|p: Piece| piece_char(p))
}

/// The printed form of a stack of rows: the top row first, rows joined
/// by bars.
pub open spec fn render_rows(rows: Seq<Seq<Piece>>) -> Seq<char>
    decreases rows.len(),
{
    if rows.len() == 0 {
        Seq::empty()
    } else if rows.len() == 1 {
        row_chars(rows.last())
    } else {
        row_chars(rows.last()) + seq!['|'] + render_rows(rows.drop_last())
    }
}

impl Board {
    /// The printed form of the board: one letter per cell, the top row
    /// first, rows joined by bars.
    pub fn render(&self) -> (r: String)
        ensures
            r@ == render_rows(self.rows_view()),
    {
        let ghost rows = self.rows_view();
        let mut v: Vec<char> = Vec::new();
        let n = self.data.len();
        let mut done: usize = 0;
        while done < n
            invariant
                done <= n,
                rows == self.rows_view(),
                n == rows.len(),
                v@ =~= render_upto(rows, done as int),
            decreases n - done,
        {
            let y = n - 1 - done;
            let row = &self.data[y];
            let mut x: usize = 0;
            let ghost before = v@;
            while x < row.len()
                invariant
                    x <= row@.len(),
                    y < self.rows_view().len(),
                    row@ == self.rows_view()[y as int],
                    v@ =~= before + row_chars(row@).take(x as int),
                decreases row@.len() - x,
            {
                v.push(row[x].letter());
                proof {
                    assert(v@ =~= before + row_chars(row@).take(x + 1));
                }
                x = x + 1;
            }
            proof {
                assert(row_chars(row@).take(row_chars(row@).len() as int) =~= row_chars(row@));
            }
            if done + 1 < n {
                v.push('|');
            }
            proof {
                lemma_render_cons_bottom(rows[y as int], rows.skip(y + 1));
                assert(seq![rows[y as int]] + rows.skip(y + 1) =~= rows.skip(y as int));
                if done == 0 {
                    assert(rows.skip(y + 1).len() == 0);
                    assert(v@ =~= render_upto(rows, done + 1));
                } else {
                    assert(v@ =~= render_upto(rows, done + 1));
                }
            }
            done = done + 1;
        }
        proof {
            if n == 0 {
                assert(v@ =~= render_rows(rows));
            } else {
                assert(rows.skip(0) =~= rows);
                assert(v@ =~= render_rows(rows));
            }
        }
        chars_to_string(&v)
    }
}

/// The printed form of the top `done` rows: the rendering of the rows
/// from position `len - done` upward, with a trailing bar unless the
/// bottom row is among them.
pub open spec fn render_upto(rows: Seq<Seq<Piece>>, done: int) -> Seq<char> {
    if done <= 0 {
        Seq::empty()
    } else {
        render_rows(rows.skip(rows.len() - done)) + (if rows.len() - done > 0 {
            seq!['|']
        } else {
            Seq::<char>::empty()
        })
    }
}

/// Whether a character is a decimal digit.
pub open spec fn is_digit(c: char) -> bool {
    '0' <= c && c <= '9'
}

/// The sequence repeated `n` times.
pub open spec fn repeat_seq(s: Seq<Piece>, n: nat) -> Seq<Piece>
    decreases n,
{
    if n == 0 {
        Seq::empty()
    } else {
        repeat_seq(s, (n - 1) as nat) + s
    }
}

/// A decimal count at `pos`: its value and the position after it. A count
/// that does not fit the machine word is rejected.
pub open spec fn sp_uint(v: Seq<char>, pos: int, acc: usize) -> Option<(usize, int)>
    decreases v.len() - pos,
{
    if pos < 0 || pos >= v.len() || !is_digit(v[pos]) {
        Option::Some((acc, pos))
    } else {
        let d = v[pos] as int - '0' as int;
        if acc > (usize::MAX - d) / 10 {
            Option::None
        } else {
            sp_uint(v, pos + 1, (acc * 10 + d) as usize)
        }
    }
}

/// One part at `pos`: a piece letter or a bracketed group, optionally
/// followed by a repeat count; the pieces it expands to and the position
/// after it.
pub open spec fn sp_part(v: Seq<char>, pos: int) -> Option<(Seq<Piece>, int)>
    decreases v.len() - pos, 1int,
{
    if pos < 0 || pos >= v.len() {
        Option::None
    } else {
        let base = if v[pos] == '[' {
            sp_group_parts(v, pos + 1)
        } else {
            match char_piece(v[pos]) {
                Option::Some(p) => Option::Some((seq![p], pos + 1)),
                Option::None => Option::None,
            }
        };
        match base {
            Option::None => Option::None,
            Option::Some((ps, np)) => {
                if 0 <= np < v.len() && is_digit(v[np]) {
                    match sp_uint(v, np, 0) {
                        Option::None => Option::None,
                        Option::Some((n, np2)) => Option::Some((repeat_seq(ps, n as nat), np2)),
                    }
                } else {
                    Option::Some((ps, np))
                }
            },
        }
    }
}

/// The parts of a group after its opening bracket, up to and including
/// the closing bracket; at least one part is required.
pub open spec fn sp_group_parts(v: Seq<char>, pos: int) -> Option<(Seq<Piece>, int)>
    decreases v.len() - pos, 2int,
{
    match sp_part(v, pos) {
        Option::None => Option::None,
        Option::Some((ps, np)) => {
            if np <= pos || np > v.len() {
                Option::None
            } else if np < v.len() && v[np] == ']' {
                Option::Some((ps, np + 1))
            } else {
                match sp_group_parts(v, np) {
                    Option::None => Option::None,
                    Option::Some((rest, e)) => Option::Some((ps + rest, e)),
                }
            }
        },
    }
}

/// One row at `pos`: parts until a bar or the end of the input.
pub open spec fn sp_row(v: Seq<char>, pos: int) -> Option<(Seq<Piece>, int)>
    decreases v.len() - pos, 2int,
{
    if pos < 0 || pos >= v.len() || v[pos] == '|' {
        Option::Some((Seq::empty(), pos))
    } else {
        match sp_part(v, pos) {
            Option::None => Option::None,
            Option::Some((ps, np)) => {
                if np <= pos || np > v.len() {
                    Option::None
                } else {
                    match sp_row(v, np) {
                        Option::None => Option::None,
                        Option::Some((rest, e)) => Option::Some((ps + rest, e)),
                    }
                }
            },
        }
    }
}

/// The rows from `pos` on, top row first, separated by bars.
pub open spec fn sp_board(v: Seq<char>, pos: int) -> Option<(Seq<Seq<Piece>>, int)>
    decreases v.len() - pos, 3int,
{
    match sp_row(v, pos) {
        Option::None => Option::None,
        Option::Some((row, np)) => {
            if np < pos {
                Option::None
            } else if 0 <= np < v.len() && v[np] == '|' {
                match sp_board(v, np + 1) {
                    Option::None => Option::None,
                    Option::Some((rest, e)) => Option::Some((seq![row] + rest, e)),
                }
            } else {
                Option::Some((seq![row], np))
            }
        },
    }
}

/// The rows a board string parses to, bottom row first; `None` when the
/// string does not follow the grammar or holds trailing text.
pub open spec fn spec_parse_board(v: Seq<char>) -> Option<Seq<Seq<Piece>>> {
    match sp_board(v, 0) {
        Option::None => Option::None,
        Option::Some((rows, e)) => if e == v.len() {
            Option::Some(rows.reverse())
        } else {
            Option::None
        },
    }
}

impl Board {
    /// The board a string parses to, bottom row first, with no margin;
    /// `None` when the string does not follow the grammar.
    pub fn parse(s: &str) -> (r: Option<Board>)
        ensures
            match r {
                Option::Some(b) => spec_parse_board(s@) == Option::Some(b.rows_view())
                    && b.margin == 0 && b.comment is None,
                Option::None => spec_parse_board(s@) is None,
            },
    {
        let v = string_chars(s);
        let parsed = parse_board_chars(&v, 0);
        match parsed {
            None => None,
            Some((rows, e)) => {
                if e != v.len() {
                    return None;
                }
                let mut data: Vec<Vec<Piece>> = Vec::new();
                let mut i: usize = rows.len();
                while i > 0
                    invariant
                        i <= rows@.len(),
                        data@.len() == rows@.len() - i,
                        forall|t: int|
                            0 <= t < data@.len() ==> #[trigger] data@[t]@ == rows@[rows@.len() - 1
                                - t]@,
                    decreases i,
                {
                    i = i - 1;
                    data.push(crate::board::copy_row(&rows[i]));
                }
                let b = Board { data, comment: None, margin: 0 };
                proof {
                    let sv = sp_board(s@, 0)->Some_0.0;
                    assert(crate::board::views_of(rows@).len() == sv.len());
                    assert(b.rows_view() =~~= sv.reverse()) by {
                        assert forall|t: int| 0 <= t < b.rows_view().len()
                            implies b.rows_view()[t] == sv.reverse()[t] by {
                            assert(b.rows_view()[t] == rows@[rows@.len() - 1 - t]@);
                        }
                    }
                }
                Some(b)
            },
        }
    }
}

/// The rows a character vector parses to, top row first, with the end
/// position.
fn parse_board_chars(v: &Vec<char>, pos: usize) -> (r: Option<(Vec<Vec<Piece>>, usize)>)
    requires
        pos <= v@.len(),
    ensures
        match r {
            Option::Some((rows, e)) => sp_board(v@, pos as int) == Option::Some(
                (crate::board::views_of(rows@), e as int),
            ) && e <= v@.len(),
            Option::None => sp_board(v@, pos as int) is None,
        },
    decreases v@.len() - pos, 3int,
{
    let row = parse_row_chars(v, pos)?;
    let (rowv, np) = row;
    if np < v.len() && v[np] == '|' {
        match parse_board_chars(v, np + 1) {
            None => None,
            Some((rest, e)) => {
                let mut rows: Vec<Vec<Piece>> = Vec::new();
                rows.push(rowv);
                proof {
                    assert(crate::board::views_of(rows@) =~= seq![
                        sp_row(v@, pos as int)->Some_0.0,
                    ]);
                }
                let mut i: usize = 0;
                let ghost restv = crate::board::views_of(rest@);
                while i < rest.len()
                    invariant
                        i <= rest@.len(),
                        restv == crate::board::views_of(rest@),
                        crate::board::views_of(rows@) =~= seq![
                            sp_row(v@, pos as int)->Some_0.0,
                        ] + restv.take(i as int),
                    decreases rest@.len() - i,
                {
                    let ghost prevr = rows@;
                    rows.push(crate::board::copy_row(&rest[i]));
                    proof {
                        let hd = seq![sp_row(v@, pos as int)->Some_0.0];
                        assert(restv.len() == rest@.len());
                        assert(restv.take(i as int).len() == i);
                        assert(restv.take(i + 1).len() == i + 1);
                        assert(crate::board::views_of(prevr) == hd + restv.take(i as int));
                        assert(crate::board::views_of(prevr).len() == prevr.len());
                        assert(rows@[rows@.len() - 1]@ == restv[i as int]);
                        assert forall|t: int| 0 <= t < rows@.len()
                            implies crate::board::views_of(rows@)[t] == (hd + restv.take(
                            i + 1,
                        ))[t] by {
                            if t < prevr.len() {
                                assert(rows@[t] == prevr[t]);
                                assert(crate::board::views_of(rows@)[t]
                                    == crate::board::views_of(prevr)[t]);
                                assert(crate::board::views_of(prevr)[t] == (hd + restv.take(
                                    i as int,
                                ))[t]);
                                if t >= 1 {
                                    assert((hd + restv.take(i as int))[t] == restv[t - 1]);
                                    assert((hd + restv.take(i + 1))[t] == restv[t - 1]);
                                }
                            } else {
                                assert(crate::board::views_of(rows@)[t] == restv[i as int]);
                                assert(prevr.len() == 1 + i);
                                assert((hd + restv.take(i + 1))[t] == restv[i as int]);
                            }
                        }
                        assert(crate::board::views_of(rows@) =~= hd + restv.take(i + 1));
                    }
                    i = i + 1;
                }
                proof {
                    assert(restv.take(restv.len() as int) =~= restv);
                }
                Some((rows, e))
            },
        }
    } else {
        let mut rows: Vec<Vec<Piece>> = Vec::new();
        rows.push(rowv);
        proof {
            assert(crate::board::views_of(rows@) =~= seq![sp_row(v@, pos as int)->Some_0.0]);
        }
        Some((rows, np))
    }
}

/// One row of parts at `pos`.
fn parse_row_chars(v: &Vec<char>, pos: usize) -> (r: Option<(Vec<Piece>, usize)>)
    requires
        pos <= v@.len(),
    ensures
        match r {
            Option::Some((row, e)) => sp_row(v@, pos as int) == Option::Some((row@, e as int))
                && pos <= e <= v@.len(),
            Option::None => sp_row(v@, pos as int) is None,
        },
    decreases v@.len() - pos, 2int,
{
    if pos >= v.len() || v[pos] == '|' {
        return Some((Vec::new(), pos));
    }
    let part = parse_part_chars(v, pos)?;
    let (ps, np) = part;
    if np <= pos {
        return None;
    }
    match parse_row_chars(v, np) {
        None => None,
        Some((rest, e)) => {
            let mut out = ps;
            let ghost psv = out@;
            let mut i: usize = 0;
            while i < rest.len()
                invariant
                    i <= rest@.len(),
                    out@ =~= psv + rest@.take(i as int),
                decreases rest@.len() - i,
            {
                out.push(rest[i]);
                proof {
                    assert(out@ =~= psv + rest@.take(i + 1));
                }
                i = i + 1;
            }
            proof {
                assert(rest@.take(rest@.len() as int) =~= rest@);
            }
            Some((out, e))
        },
    }
}

/// One part at `pos`: a piece letter or a group, with an optional repeat
/// count.
fn parse_part_chars(v: &Vec<char>, pos: usize) -> (r: Option<(Vec<Piece>, usize)>)
    requires
        pos <= v@.len(),
    ensures
        match r {
            Option::Some((ps, e)) => sp_part(v@, pos as int) == Option::Some((ps@, e as int))
                && e <= v@.len(),
            Option::None => sp_part(v@, pos as int) is None,
        },
    decreases v@.len() - pos, 1int,
{
    if pos >= v.len() {
        return None;
    }
    let base: Option<(Vec<Piece>, usize)> = if v[pos] == '[' {
        parse_group_chars(v, pos + 1)
    } else {
        match Piece::from_char(v[pos]) {
            Some(p) => {
                let mut one: Vec<Piece> = Vec::new();
                one.push(p);
                proof {
                    assert(one@ =~= seq![char_piece(v@[pos as int])->Some_0]);
                }
                Some((one, pos + 1))
            },
            None => None,
        }
    };
    let (ps, np) = base?;
    if np < v.len() && is_digit_char(v[np]) {
        match parse_uint_chars(v, np, 0) {
            None => None,
            Some((n, np2)) => {
                let ghost psv = ps@;
                let mut rep: Vec<Piece> = Vec::new();
                let mut k: usize = 0;
                while k < n
                    invariant
                        k <= n,
                        rep@ =~= repeat_seq(psv, k as nat),
                        psv == ps@,
                    decreases n - k,
                {
                    let mut i: usize = 0;
                    let ghost before = rep@;
                    while i < ps.len()
                        invariant
                            i <= ps@.len(),
                            psv == ps@,
                            rep@ =~= before + ps@.take(i as int),
                        decreases ps@.len() - i,
                    {
                        rep.push(ps[i]);
                        proof {
                            assert(rep@ =~= before + ps@.take(i + 1));
                        }
                        i = i + 1;
                    }
                    proof {
                        assert(ps@.take(ps@.len() as int) =~= ps@);
                        assert(rep@ =~= repeat_seq(psv, (k + 1) as nat));
                    }
                    k = k + 1;
                }
                Some((rep, np2))
            },
        }
    } else {
        Some((ps, np))
    }
}

/// The parts of a group after its opening bracket, through the closing
/// bracket.
fn parse_group_chars(v: &Vec<char>, pos: usize) -> (r: Option<(Vec<Piece>, usize)>)
    requires
        pos <= v@.len(),
    ensures
        match r {
            Option::Some((ps, e)) => sp_group_parts(v@, pos as int) == Option::Some(
                (ps@, e as int),
            ) && e <= v@.len(),
            Option::None => sp_group_parts(v@, pos as int) is None,
        },
    decreases v@.len() - pos, 2int,
{
    let part = parse_part_chars(v, pos)?;
    let (ps, np) = part;
    if np <= pos {
        return None;
    }
    if np < v.len() && v[np] == ']' {
        return Some((ps, np + 1));
    }
    match parse_group_chars(v, np) {
        None => None,
        Some((rest, e)) => {
            let mut out = ps;
            let ghost psv = out@;
            let mut i: usize = 0;
            while i < rest.len()
                invariant
                    i <= rest@.len(),
                    out@ =~= psv + rest@.take(i as int),
                decreases rest@.len() - i,
            {
                out.push(rest[i]);
                proof {
                    assert(out@ =~= psv + rest@.take(i + 1));
                }
                i = i + 1;
            }
            proof {
                assert(rest@.take(rest@.len() as int) =~= rest@);
            }
            Some((out, e))
        },
    }
}

/// One decimal count at `pos`.
pub fn parse_uint_chars(v: &Vec<char>, pos: usize, acc: usize) -> (r: Option<(usize, usize)>)
    requires
        pos <= v@.len(),
    ensures
        match r {
            Option::Some((n, e)) => sp_uint(v@, pos as int, acc) == Option::Some((n, e as int))
                && e <= v@.len(),
            Option::None => sp_uint(v@, pos as int, acc) is None,
        },
    decreases v@.len() - pos,
{
    if pos >= v.len() || !is_digit_char(v[pos]) {
        return Some((acc, pos));
    }
    let c = v[pos];
    let d = (c as u32 - '0' as u32) as usize;
    if acc > (usize::MAX - d) / 10 {
        return None;
    }
    parse_uint_chars(v, pos + 1, acc * 10 + d)
}

/// Whether a character is a decimal digit.
pub fn is_digit_char(c: char) -> (r: bool)
    ensures
        r == is_digit(c),
{
    c >= '0' && c <= '9'
}

/// A piece letter prints as itself: parsing it back yields the piece, and
/// it is no digit, bracket or bar.
pub proof fn lemma_piece_char_inverse(p: Piece)
    ensures
        char_piece(piece_char(p)) == Option::Some(p),
        !is_digit(piece_char(p)),
        piece_char(p) != '[',
        piece_char(p) != ']',
        piece_char(p) != '|',
{
}

/// A printed row of letters parses as that row, stopping at the bar or
/// the end of the input.
pub proof fn lemma_sp_row_letters(v: Seq<char>, pos: int, row: Seq<Piece>)
    requires
        0 <= pos,
        pos + row.len() <= v.len(),
        forall|i: int| 0 <= i < row.len() ==> v[pos + i] == piece_char(#[trigger] row[i]),
        pos + row.len() == v.len() || v[pos + row.len()] == '|',
    ensures
        sp_row(v, pos) == Option::Some((row, pos + row.len())),
    decreases row.len(),
{
    if row.len() == 0 {
        assert(sp_row(v, pos) == Option::Some((Seq::<Piece>::empty(), pos)));
        assert(row =~= Seq::<Piece>::empty());
    } else {
        lemma_piece_char_inverse(row[0]);
        assert(v[pos] == piece_char(row[0]));
        assert(char_piece(v[pos]) == Option::Some(row[0]));
        if pos + 1 < v.len() && is_digit(v[pos + 1]) {
            if row.len() > 1 {
                lemma_piece_char_inverse(row[1]);
                assert(v[pos + 1] == piece_char(row[1]));
                assert(false);
            } else {
                assert(v[pos + 1] == '|' || pos + 1 == v.len());
                assert(false);
            }
        }
        assert(sp_part(v, pos) == Option::Some((seq![row[0]], pos + 1)));
        assert forall|i: int| 0 <= i < row.drop_first().len() implies v[pos + 1 + i]
            == piece_char(#[trigger] row.drop_first()[i]) by {
            assert(row.drop_first()[i] == row[i + 1]);
        }
        lemma_sp_row_letters(v, pos + 1, row.drop_first());
        assert(seq![row[0]] + row.drop_first() =~= row);
    }
}

/// A printed board parses back to its rows, top row first.
pub proof fn lemma_sp_board_render(v: Seq<char>, pos: int, rows: Seq<Seq<Piece>>)
    requires
        rows.len() >= 1,
        0 <= pos <= v.len(),
        v.subrange(pos, v.len() as int) == render_rows(rows),
    ensures
        sp_board(v, pos) == Option::Some((rows.reverse(), v.len() as int)),
    decreases rows.len(),
{
    let suffix = v.subrange(pos, v.len() as int);
    let top = rows.last();
    assert(forall|i: int| 0 <= i < suffix.len() ==> v[pos + i] == #[trigger] suffix[i]);
    if rows.len() == 1 {
        assert(suffix == row_chars(top));
        assert(row_chars(top).len() == top.len());
        assert forall|i: int| 0 <= i < top.len() implies v[pos + i] == piece_char(
            #[trigger] top[i],
        ) by {
            assert(suffix[i] == row_chars(top)[i]);
        }
        lemma_sp_row_letters(v, pos, top);
        assert(sp_board(v, pos) == Option::Some((seq![top], v.len() as int)));
        assert(rows.reverse() =~= seq![top]);
    } else {
        let rest = rows.drop_last();
        assert(suffix == row_chars(top) + seq!['|'] + render_rows(rest));
        let rl = top.len() as int;
        assert(row_chars(top).len() == rl);
        assert forall|i: int| 0 <= i < top.len() implies v[pos + i] == piece_char(
            #[trigger] top[i],
        ) by {
            assert(suffix[i] == row_chars(top)[i]);
        }
        assert(v[pos + rl] == '|') by {
            assert(suffix[rl] == '|');
        }
        lemma_sp_row_letters(v, pos, top);
        assert(v.subrange(pos + rl + 1, v.len() as int) =~= render_rows(rest)) by {
            assert forall|i: int| 0 <= i < v.len() - pos - rl - 1 implies v.subrange(
                pos + rl + 1,
                v.len() as int,
            )[i] == render_rows(rest)[i] by {
                assert(suffix[rl + 1 + i] == (row_chars(top) + seq!['|'] + render_rows(rest))[rl
                    + 1 + i]);
            }
        }
        lemma_sp_board_render(v, pos + rl + 1, rest);
        assert(sp_board(v, pos) == Option::Some(
            (seq![top] + rest.reverse(), v.len() as int),
        ));
        assert(rows.reverse() =~= seq![top] + rest.reverse());
    }
}

/// Parsing a printed board gives back exactly its rows: the round trip
/// through the surface syntax is the identity on boards with at least one
/// row.
pub proof fn lemma_parse_render_roundtrip(rows: Seq<Seq<Piece>>)
    requires
        rows.len() >= 1,
    ensures
        spec_parse_board(render_rows(rows)) == Option::Some(rows),
{
    let v = render_rows(rows);
    assert(v.subrange(0, v.len() as int) =~= v);
    lemma_sp_board_render(v, 0, rows);
    assert(rows.reverse().reverse() =~= rows);
}

/// Extending a stack below its bottom row appends the new bottom row to
/// the printed form.
pub proof fn lemma_render_cons_bottom(row: Seq<Piece>, s: Seq<Seq<Piece>>)
    ensures
        render_rows(seq![row] + s) == if s.len() == 0 {
            row_chars(row)
        } else {
            render_rows(s) + seq!['|'] + row_chars(row)
        },
    decreases s.len(),
{
    let w = seq![row] + s;
    if s.len() == 0 {
        assert(w.len() == 1);
        assert(w.last() == row);
        assert(render_rows(w) =~= row_chars(row));
    } else {
        assert(w.last() == s.last());
        assert(w.drop_last() =~= seq![row] + s.drop_last());
        lemma_render_cons_bottom(row, s.drop_last());
        if s.len() == 1 {
            assert(render_rows(w) =~= row_chars(s.last()) + seq!['|'] + row_chars(row));
            assert(render_rows(s) =~= row_chars(s.last()));
            assert(render_rows(w) =~= render_rows(s) + seq!['|'] + row_chars(row));
        } else {
            assert(render_rows(w) =~= row_chars(s.last()) + seq!['|'] + (render_rows(
                s.drop_last(),
            ) + seq!['|'] + row_chars(row)));
            assert(render_rows(s) =~= row_chars(s.last()) + seq!['|'] + render_rows(
                s.drop_last(),
            ));
            assert(render_rows(w) =~= render_rows(s) + seq!['|'] + row_chars(row));
        }
    }
}

} // verus!

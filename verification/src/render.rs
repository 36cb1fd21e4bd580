//! The output drivers: board resizing, field-string rendering with link
//! types, and the move command.

use vstd::prelude::*;

use crate::board::{many_ok, Board};
use crate::codec::{codec_view, encode_grid, encoded_of};
use crate::grid::Grid;
use crate::pattern::Pattern;
use crate::piece::Piece;
use crate::placement::Placement;
use crate::program::Sfce;
use crate::ranged::Ranged;


verus! {

/// The rows of one page printed top-first with a custom row separator.
pub open spec fn render_rows_sep(rows: Seq<Seq<Piece>>, sep: Seq<char>) -> Seq<char>
    decreases rows.len(),
{
    if rows.len() == 0 {
        Seq::empty()
    } else if rows.len() == 1 {
        crate::text::row_chars(rows.last())
    } else {
        crate::text::row_chars(rows.last()) + sep + render_rows_sep(rows.drop_last(), sep)
    }
}

/// The pages from position `i` on, joined by the page separator.
pub open spec fn render_pages_from(
    pages: Seq<Seq<Seq<Piece>>>,
    rsep: Seq<char>,
    psep: Seq<char>,
    i: int,
) -> Seq<char>
    decreases pages.len() - i,
{
    if i < 0 || i >= pages.len() {
        Seq::empty()
    } else if i == pages.len() - 1 {
        render_rows_sep(pages[i], rsep)
    } else {
        render_rows_sep(pages[i], rsep) + psep + render_pages_from(pages, rsep, psep, i + 1)
    }
}

/// The pages printed in order, joined by the page separator.
pub open spec fn render_pages_sep(
    pages: Seq<Seq<Seq<Piece>>>,
    rsep: Seq<char>,
    psep: Seq<char>,
) -> Seq<char> {
    render_pages_from(pages, rsep, psep, 0)
}

/// Extending a page below its bottom row appends that row to the
/// printed form.
pub proof fn lemma_render_sep_cons_bottom(row: Seq<Piece>, s: Seq<Seq<Piece>>, sep: Seq<char>)
    ensures
        render_rows_sep(seq![row] + s, sep) == if s.len() == 0 {
            crate::text::row_chars(row)
        } else {
            render_rows_sep(s, sep) + sep + crate::text::row_chars(row)
        },
    decreases s.len(),
{
    let w = seq![row] + s;
    if s.len() == 0 {
        assert(w.len() == 1);
        assert(w.last() == row);
        assert(render_rows_sep(w, sep) =~= crate::text::row_chars(row));
    } else {
        assert(w.last() == s.last());
        assert(w.drop_last() =~= seq![row] + s.drop_last());
        lemma_render_sep_cons_bottom(row, s.drop_last(), sep);
        if s.len() == 1 {
            assert(render_rows_sep(w, sep) =~= crate::text::row_chars(s.last()) + sep
                + crate::text::row_chars(row));
            assert(render_rows_sep(s, sep) =~= crate::text::row_chars(s.last()));
            assert(render_rows_sep(w, sep) =~= render_rows_sep(s, sep) + sep
                + crate::text::row_chars(row));
        } else {
            assert(render_rows_sep(w, sep) =~= crate::text::row_chars(s.last()) + sep + (
            render_rows_sep(s.drop_last(), sep) + sep + crate::text::row_chars(row)));
            assert(render_rows_sep(s, sep) =~= crate::text::row_chars(s.last()) + sep
                + render_rows_sep(s.drop_last(), sep));
            assert(render_rows_sep(w, sep) =~= render_rows_sep(s, sep) + sep
                + crate::text::row_chars(row));
        }
    }
}

/// One page printed top-first with a custom row separator.
fn render_page_sep(b: &Board, rsep: &Vec<char>) -> (r: Vec<char>)
    ensures
        r@ == render_rows_sep(b.rows_view(), rsep@),
{
    let ghost rows = b.rows_view();
    let mut v: Vec<char> = Vec::new();
    let n = b.data.len();
    let mut done: usize = 0;
    while done < n
        invariant
            done <= n,
            rows == b.rows_view(),
            n == rows.len(),
            v@ =~= render_upto_sep(rows, rsep@, done as int),
        decreases n - done,
    {
        let y = n - 1 - done;
        let row = &b.data[y];
        let mut x: usize = 0;
        let ghost before = v@;
        while x < row.len()
            invariant
                x <= row@.len(),
                y < b.rows_view().len(),
                row@ == b.rows_view()[y as int],
                v@ =~= before + crate::text::row_chars(row@).take(x as int),
            decreases row@.len() - x,
        {
            v.push(row[x].letter());
            proof {
                assert(v@ =~= before + crate::text::row_chars(row@).take(x + 1));
            }
            x = x + 1;
        }
        proof {
            assert(crate::text::row_chars(row@).take(crate::text::row_chars(row@).len() as int)
                =~= crate::text::row_chars(row@));
        }
        if done + 1 < n {
            let mut si: usize = 0;
            let ghost mid = v@;
            while si < rsep.len()
                invariant
                    si <= rsep@.len(),
                    v@ =~= mid + rsep@.take(si as int),
                decreases rsep@.len() - si,
            {
                v.push(rsep[si]);
                proof {
                    assert(v@ =~= mid + rsep@.take(si + 1));
                }
                si = si + 1;
            }
            proof {
                assert(rsep@.take(rsep@.len() as int) =~= rsep@);
            }
        }
        proof {
            lemma_render_sep_cons_bottom(rows[y as int], rows.skip(y + 1), rsep@);
            assert(seq![rows[y as int]] + rows.skip(y + 1) =~= rows.skip(y as int));
            assert(v@ =~= render_upto_sep(rows, rsep@, done + 1));
        }
        done = done + 1;
    }
    proof {
        if n == 0 {
            assert(v@ =~= render_rows_sep(rows, rsep@));
        } else {
            assert(rows.skip(0) =~= rows);
            assert(v@ =~= render_rows_sep(rows, rsep@));
        }
    }
    v
}

/// The printed form of the top `done` rows with a custom separator.
pub open spec fn render_upto_sep(rows: Seq<Seq<Piece>>, sep: Seq<char>, done: int) -> Seq<char> {
    if done <= 0 {
        Seq::empty()
    } else {
        render_rows_sep(rows.skip(rows.len() - done), sep) + (if rows.len() - done > 0 {
            sep
        } else {
            Seq::<char>::empty()
        })
    }
}

/// The raw rendering of a grid: its pages' views.
pub open spec fn grid_pages_rows(pages: Seq<Board>) -> Seq<Seq<Seq<Piece>>> {
    pages.map_values(|b: Board| b.rows_view())
}

/// The visible height a page has after the overrides: the configured
/// height where it is set and fits beside the page's margin, else the
/// page's own height.
pub open spec fn resize_height(args: &crate::program::Options, b: Board) -> int {
    match args.board_height {
        Option::Some(hv) => if hv + b.margin <= usize::MAX {
            hv as int
        } else {
            b.spec_height()
        },
        Option::None => b.spec_height(),
    }
}

/// The margin a page has after the overrides: the configured margin where
/// it fits beside the resized rows, else the page's own margin.
pub open spec fn resize_margin(args: &crate::program::Options, b: Board) -> int {
    if resize_height(args, b) + b.margin + args.board_margin <= usize::MAX {
        args.board_margin as int
    } else {
        b.margin as int
    }
}

/// The width the rows a page gains during a resize have: the configured
/// width where it is set and the page has any row, else the page's own
/// widest row.
pub open spec fn resize_row_width(args: &crate::program::Options, b: Board) -> nat {
    match args.board_width {
        Option::Some(wv) => if b.rows_view().len() > 0 {
            wv as nat
        } else {
            0
        },
        Option::None => b.spec_width(),
    }
}

/// A row after the width override: cut or padded with empty cells to the
/// configured width where it is set, else kept as it is.
pub open spec fn resize_row(args: &crate::program::Options, row: Seq<Piece>) -> Seq<Piece> {
    match args.board_width {
        Option::Some(wv) => Seq::new(
            wv as nat,
            |x: int|
                if 0 <= x < row.len() {
                    row[x]
                } else {
                    Piece::E
                },
        ),
        Option::None => row,
    }
}

/// How a resized page relates to the page it came from: the comment is
/// kept, the height and margin follow the overrides, a visible cell that
/// existed keeps its kind, and every other visible cell is empty.
pub open spec fn resized_page(args: &crate::program::Options, b: Board, p: Board) -> bool {
    let h = resize_height(args, b);
    &&& p.wf()
    &&& p.comment == b.comment
    &&& p.margin == resize_margin(args, b)
    &&& p.spec_height() == h
    &&& (forall|y: int|
        0 <= y < h && y < b.spec_height() ==> (#[trigger] p.rows_view()[y]) == resize_row(
            args,
            b.rows_view()[y],
        ))
    &&& (forall|y: int|
        b.spec_height() <= y < h ==> (#[trigger] p.rows_view()[y])
            == crate::board::empty_row_seq(resize_row_width(args, b)))
}

impl Sfce {
    /// Resize a grid to the configured width, height and margin: each
    /// override applies to every page. An override that would not fit the
    /// machine word is skipped.
    pub fn resize(&self, f: Grid) -> (r: Grid)
        requires
            forall|i: int| 0 <= i < f.0@.len() ==> (#[trigger] f.0@[i]).wf(),
        ensures
            r.0@.len() == f.0@.len(),
            forall|i: int| 0 <= i < r.0@.len() ==> (#[trigger] r.0@[i]).wf(),
            forall|i: int|
                0 <= i < r.0@.len() ==> resized_page(
                    &self.program.args,
                    f.0@[i],
                    #[trigger] r.0@[i],
                ),
    {
        let mut out: Vec<Board> = Vec::new();
        let mut i: usize = 0;
        let margin = self.program.args.board_margin;
        while i < f.0.len()
            invariant
                i <= f.0@.len(),
                margin == self.program.args.board_margin,
                forall|t: int| 0 <= t < f.0@.len() ==> (#[trigger] f.0@[t]).wf(),
                out@.len() == i,
                forall|t: int| 0 <= t < i ==> (#[trigger] out@[t]).wf(),
                forall|t: int|
                    0 <= t < i ==> resized_page(
                        &self.program.args,
                        f.0@[t],
                        #[trigger] out@[t],
                    ),
            decreases f.0@.len() - i,
        {
            let ghost orig = f.0@[i as int];
            let mut b = f.0[i].clone();
            proof {
                assert(b.rows_view().len() == b.data@.len());
                assert(orig.rows_view().len() == orig.data@.len());
                assert(b.wf());
            }
            if let Some(w) = self.program.args.board_width {
                b.set_width(w);
            }
            let ghost mid = b;
            proof {
                assert(mid.wf());
                assert(mid.rows_view().len() == mid.data@.len());
                assert(mid.spec_height() == orig.spec_height());
                assert(mid.spec_width() == resize_row_width(&self.program.args, orig)) by {
                    match self.program.args.board_width {
                        Option::Some(wv) => {
                            if orig.rows_view().len() > 0 {
                                crate::board::lemma_max_row_len(mid.rows_view());
                                let yw = choose|yw: int|
                                    0 <= yw < mid.rows_view().len() && (
                                    #[trigger] mid.rows_view()[yw]).len()
                                        == crate::board::max_row_len(mid.rows_view());
                                assert(mid.rows_view()[yw].len() == wv);
                            } else {
                                assert(mid.rows_view().len() == 0);
                            }
                        },
                        Option::None => {
                            assert(mid.rows_view() == orig.rows_view());
                        },
                    }
                }
                assert forall|y: int| 0 <= y < orig.spec_height() implies (
                #[trigger] mid.rows_view()[y]) == resize_row(
                    &self.program.args,
                    orig.rows_view()[y],
                ) by {
                    match self.program.args.board_width {
                        Option::Some(wv) => {
                            assert(mid.rows_view()[y] =~= resize_row(
                                &self.program.args,
                                orig.rows_view()[y],
                            ));
                        },
                        Option::None => {},
                    }
                }
            }
            if let Some(h) = self.program.args.board_height {
                if h <= usize::MAX - b.margin {
                    b.set_height(h);
                }
            }
            let ghost hb = b;
            proof {
                assert(hb.wf());
                assert(hb.margin == orig.margin);
                assert(hb.spec_height() == resize_height(&self.program.args, orig));
                assert(hb.rows_view().len() == hb.data@.len());
            }
            if b.data.len() <= usize::MAX - margin {
                b.set_margin(margin);
            }
            proof {
                let ghost args = &self.program.args;
                let h = resize_height(args, orig);
                assert(b.margin == resize_margin(args, orig)) by {
                    assert(hb.rows_view().len() == h + orig.margin);
                }
                assert(b.spec_height() == h);
                assert forall|y: int| 0 <= y < h && y < orig.spec_height() implies (
                #[trigger] b.rows_view()[y]) == resize_row(args, orig.rows_view()[y]) by {
                    assert(b.rows_view()[y] == hb.rows_view()[y]);
                    assert(hb.rows_view()[y] == mid.rows_view()[y]);
                }
                assert forall|y: int| orig.spec_height() <= y < h implies (
                #[trigger] b.rows_view()[y]) == crate::board::empty_row_seq(
                    resize_row_width(args, orig),
                ) by {
                    assert(b.rows_view()[y] == hb.rows_view()[y]);
                    assert(hb.rows_view()[y] == crate::board::empty_row_seq(mid.spec_width()));
                }
                assert(resized_page(args, orig, b));
            }
            out.push(b);
            i = i + 1;
        }
        Grid(out)
    }

}

/// The rendered output for a list of pages under the given options: the
/// raw page text when no link type is set, else the encoded field string
/// behind the configured link prefix.
pub open spec fn spec_tetfu(args: &crate::program::Options, pages: Seq<Board>) -> Seq<char> {
    let shown = if args.no_comments {
        strip_comments_view(pages)
    } else {
        pages
    };
    match args.link_type {
        Option::None => render_pages_sep(
            grid_pages_rows(pages),
            args.row_sep@,
            args.page_sep@,
        ),
        Option::Some(t) => {
            let enc = encoded_of(codec_view(shown));
            if 'a' <= t && t <= 'z' {
                seq![t] + enc.skip(1)
            } else if t == 'Q' || t == 'T' {
                "https://qv.rqft.workers.dev/view?"@ + enc
            } else if t == 'D' {
                "https://fumen.zui.jp/?D"@ + enc.skip(1)
            } else {
                "https://harddrop.com/fumen?"@ + seq![ascii_lower(t)] + enc.skip(1)
            }
        },
    }
}

impl Sfce {
    /// The grid rendered for output: the raw page text when no link type
    /// is set, else the encoded field string behind the configured link
    /// prefix. Comments are dropped first when so configured.
    pub fn tetfu(&self, f: &Grid) -> (r: String)
        ensures
            r@ == spec_tetfu(&self.program.args, f.0@),
    {
        let shown = if self.program.args.no_comments {
            strip_comments(f)
        } else {
            f.clone()
        };
        proof {
            if !self.program.args.no_comments {
                assert(codec_view(shown.0@) =~~= codec_view(f.0@));
            }
        }
        match self.program.args.link_type {
            None => {
                let mut v: Vec<char> = Vec::new();
                let rsep = crate::text::string_chars(self.program.args.row_sep.as_str());
                let psep = crate::text::string_chars(self.program.args.page_sep.as_str());
                let ghost pv = grid_pages_rows(f.0@);
                let ghost full = render_pages_sep(pv, rsep@, psep@);
                let mut i: usize = 0;
                while i < f.0.len()
                    invariant
                        i <= f.0@.len(),
                        pv == grid_pages_rows(f.0@),
                        rsep@ == self.program.args.row_sep@,
                        psep@ == self.program.args.page_sep@,
                        full == render_pages_sep(pv, rsep@, psep@),
                        i < f.0@.len() ==> full =~= v@ + render_pages_from(
                            pv,
                            rsep@,
                            psep@,
                            i as int,
                        ),
                        i == f.0@.len() ==> full =~= v@,
                    decreases f.0@.len() - i,
                {
                    let page = render_page_sep(&f.0[i], &rsep);
                    proof {
                        assert(page@ == render_rows_sep(pv[i as int], rsep@));
                    }
                    let mut t: usize = 0;
                    let ghost base = v@;
                    while t < page.len()
                        invariant
                            t <= page@.len(),
                            v@ =~= base + page@.take(t as int),
                        decreases page@.len() - t,
                    {
                        v.push(page[t]);
                        proof {
                            assert(v@ =~= base + page@.take(t + 1));
                        }
                        t = t + 1;
                    }
                    proof {
                        assert(page@.take(page@.len() as int) =~= page@);
                    }
                    if i + 1 < f.0.len() {
                        let mut si: usize = 0;
                        let ghost mid = v@;
                        while si < psep.len()
                            invariant
                                si <= psep@.len(),
                                v@ =~= mid + psep@.take(si as int),
                            decreases psep@.len() - si,
                        {
                            v.push(psep[si]);
                            proof {
                                assert(v@ =~= mid + psep@.take(si + 1));
                            }
                            si = si + 1;
                        }
                        proof {
                            assert(psep@.take(psep@.len() as int) =~= psep@);
                        }
                    }
                    proof {
                        if i + 1 < f.0@.len() {
                            assert(full =~= v@ + render_pages_from(pv, rsep@, psep@, i + 1));
                        } else {
                            assert(full =~= v@);
                        }
                    }
                    i = i + 1;
                }
                proof {
                    if f.0@.len() == 0 {
                        assert(full =~= v@);
                    }
                }
                crate::text::chars_to_string(&v)
            },
            Some(t) => {
                let enc = encode_grid(&shown);
                if t >= 'a' && t <= 'z' {
                    let mut v: Vec<char> = Vec::new();
                    v.push(t);
                    let rest = enc.as_str().substring_char(1, enc.as_str().unicode_len());
                    let tail = crate::text::string_chars(rest);
                    let mut k: usize = 0;
                    let ghost base = v@;
                    while k < tail.len()
                        invariant
                            k <= tail@.len(),
                            v@ =~= base + tail@.take(k as int),
                        decreases tail@.len() - k,
                    {
                        v.push(tail[k]);
                        proof {
                            assert(v@ =~= base + tail@.take(k + 1));
                        }
                        k = k + 1;
                    }
                    proof {
                        assert(tail@.take(tail@.len() as int) =~= tail@);
                        assert(v@ =~= seq![t] + encoded_of(codec_view(shown.0@)).skip(1));
                    }
                    crate::text::chars_to_string(&v)
                } else if t == 'Q' || t == 'T' {
                    let mut out = String::new();
                    out.append("https://qv.rqft.workers.dev/view?");
                    out.append(enc.as_str());
                    proof {
                        assert(out@ =~= "https://qv.rqft.workers.dev/view?"@ + encoded_of(
                            codec_view(shown.0@),
                        ));
                    }
                    out
                } else if t == 'D' {
                    let mut out = String::new();
                    out.append("https://fumen.zui.jp/?D");
                    let rest = enc.as_str().substring_char(1, enc.as_str().unicode_len());
                    out.append(rest);
                    proof {
                        assert(out@ =~= "https://fumen.zui.jp/?D"@ + encoded_of(
                            codec_view(shown.0@),
                        ).skip(1));
                    }
                    out
                } else {
                    let mut out = String::new();
                    out.append("https://harddrop.com/fumen?");
                    let low = ascii_lower_exec(t);
                    let mut lv: Vec<char> = Vec::new();
                    lv.push(low);
                    out.append(crate::text::chars_to_string(&lv).as_str());
                    let rest = enc.as_str().substring_char(1, enc.as_str().unicode_len());
                    out.append(rest);
                    proof {
                        assert(out@ =~= "https://harddrop.com/fumen?"@ + seq![ascii_lower(t)]
                            + encoded_of(codec_view(shown.0@)).skip(1));
                    }
                    out
                }
            },
        }
    }
}

/// One satisfying result of the move command: an allowed, reachable
/// placement sequence whose final board clears a total in range.
pub open spec fn good_result(
    board: &Board,
    h: &crate::input::Handling,
    total: Ranged,
    ps: Seq<Placement>,
    b: Board,
) -> bool {
    &&& many_ok(board.rows_view(), ps, 0)
    &&& b.rows_view() == crate::board::many_placed(board.rows_view(), ps, 0)
    &&& total.spec_contains(
        crate::board::count_full(crate::board::many_placed(board.rows_view(), ps, 0)) as int,
    )
    &&& crate::composer::spec_many_doable(board.rows_view(), board.margin as int, h, ps, 0)
}

/// Whether some allowed, reachable placement sequence explains the
/// board as a result of the move command.
pub open spec fn result_explained(
    board: &Board,
    h: &crate::input::Handling,
    total: Ranged,
    b: Board,
) -> bool {
    exists|ps: Seq<Placement>| good_result(board, h, total, ps, b)
}

/// Whether a queue made of placeable tetrominoes only.
pub open spec fn all_tetrominoes(q: Seq<Piece>) -> bool {
    forall|t: int| 0 <= t < q.len() ==> (#[trigger] q[t]).is_tetromino()
}

/// Whether the hold setting links a pattern queue to the queue actually
/// played: the queue itself when hold is off, else any hold variant.
pub open spec fn hold_link(no_hold: bool, qv: Seq<Piece>, hq: Seq<Piece>) -> bool {
    if no_hold {
        hq == qv
    } else {
        crate::pattern::hold_plays(qv, Option::None, false).contains(hq)
    }
}

/// A placement sequence the move command owes a result for: it realizes
/// a played queue of the pattern, clears a total in range, and is
/// reachable piece by piece.
pub open spec fn move_wanted(
    rows: Seq<Seq<Piece>>,
    margin: int,
    h: &crate::input::Handling,
    no_hold: bool,
    queues: Seq<Seq<Piece>>,
    total: Ranged,
    cont: Ranged,
    ps: Seq<Placement>,
) -> bool {
    exists|qv: Seq<Piece>, hq: Seq<Piece>|
        {
            &&& #[trigger] queues.contains(qv)
            &&& all_tetrominoes(qv)
            &&& #[trigger] hold_link(no_hold, qv, hq)
            &&& ps.len() == hq.len()
            &&& crate::composer::seq_allowed(rows, margin, hq, cont, ps, 0)
            &&& total.spec_contains(
                crate::board::count_full(crate::board::many_placed(rows, ps, 0)) as int,
            )
            &&& crate::composer::spec_many_doable(rows, margin, h, ps, 0)
        }
}

/// Whether the result list holds a board with these rows.
pub open spec fn board_in(r: Seq<Board>, rows2: Seq<Seq<Piece>>) -> bool {
    exists|t: int| 0 <= t < r.len() && (#[trigger] r[t]).rows_view() == rows2
}

/// A board present among fewer results is present among more.
pub proof fn lemma_board_in_grow(prev: Seq<Board>, cur: Seq<Board>)
    requires
        prev.len() <= cur.len(),
        forall|t: int| 0 <= t < prev.len() ==> cur[t] == prev[t],
    ensures
        forall|x: Seq<Seq<Piece>>| #[trigger] board_in(prev, x) ==> board_in(cur, x),
{
    assert forall|x: Seq<Seq<Piece>>| #[trigger] board_in(prev, x) implies board_in(cur, x) by {
        let t = choose|t: int| 0 <= t < prev.len() && (#[trigger] prev[t]).rows_view() == x;
        assert(cur[t].rows_view() == x);
    }
}

/// Every piece of a well-defined placement chain is a tetromino.
pub proof fn lemma_chain_pieces(rows: Seq<Seq<Piece>>, ps: Seq<Placement>, i: int, j: int)
    requires
        many_ok(rows, ps, i),
        0 <= i <= j < ps.len(),
    ensures
        ps[j].0.is_tetromino(),
    decreases ps.len() - i,
{
    if i < j {
        lemma_chain_pieces(
            crate::board::stamp_rows(
                rows,
                ps[i].0,
                crate::board::adjusted_cells(rows, ps[i]),
            ),
            ps,
            i + 1,
            j,
        );
    }
}

/// A hold variant of an all-tetromino queue is all-tetromino: it plays
/// the same multiset of pieces.
pub proof fn lemma_hold_all_tetrominoes(q: Seq<Piece>, hq: Seq<Piece>)
    requires
        all_tetrominoes(q),
        crate::pattern::hold_plays(q, Option::None, false).contains(hq),
    ensures
        all_tetrominoes(hq),
{
    broadcast use vstd::seq_lib::group_to_multiset_ensures;

    crate::pattern::lemma_hold_plays_multiset(q, Option::None, false, hq);
    assert(hq.to_multiset() =~= q.to_multiset());
    assert forall|t: int| 0 <= t < hq.len() implies (#[trigger] hq[t]).is_tetromino() by {
        assert(hq.contains(hq[t]));
        assert(hq.to_multiset().count(hq[t]) > 0);
        assert(q.to_multiset().count(hq[t]) > 0);
        assert(q.contains(hq[t]));
        let u = choose|u: int| 0 <= u < q.len() && q[u] == hq[t];
    }
}

impl Sfce {
    /// The boards the move command renders: for every queue of the
    /// pattern and every hold variant, every allowed placement sequence
    /// that keeps the per-piece line-clear growth in range, clears a total
    /// in range, and is reachable piece by piece. Every such sequence
    /// contributes its board.
    pub fn move_boards(
        &self,
        board: &Board,
        pattern: &Pattern,
        total_line_clears: Ranged,
        continuous_line_clears: Ranged,
    ) -> (r: Vec<Board>)
        requires
            pattern.spec_counts_ok(),
            board.wf(),
            board.spec_width() >= 2,
            board.spec_width() * board.spec_height() <= usize::MAX,
            board.spec_width() <= usize::MAX - 2,
            board.spec_height() <= usize::MAX - 3,
            self.program.args.handling.max < usize::MAX,
        ensures
            forall|i: int|
                0 <= i < r@.len() ==> result_explained(
                    board,
                    &self.program.args.handling,
                    total_line_clears,
                    #[trigger] r@[i],
                ),
            forall|ps: Seq<Placement>| #[trigger]
                move_wanted(
                    board.rows_view(),
                    board.margin as int,
                    &self.program.args.handling,
                    self.program.args.no_hold,
                    pattern.spec_queues(),
                    total_line_clears,
                    continuous_line_clears,
                    ps,
                ) ==> board_in(r@, crate::board::many_placed(board.rows_view(), ps, 0)),
    {
        let ghost rows = board.rows_view();
        let ghost margin = board.margin as int;
        let ghost no_hold = self.program.args.no_hold;
        let queues = pattern.queues();
        let mut out: Vec<Board> = Vec::new();
        let ghost mut wits: Seq<Seq<Placement>> = Seq::empty();
        let mut qi: usize = 0;
        while qi < queues.len()
            invariant
                qi <= queues@.len(),
                board.wf(),
                rows == board.rows_view(),
                margin == board.margin as int,
                no_hold == self.program.args.no_hold,
                board.spec_width() >= 2,
                board.spec_width() * board.spec_height() <= usize::MAX,
                board.spec_width() <= usize::MAX - 2,
                board.spec_height() <= usize::MAX - 3,
                self.program.args.handling.max < usize::MAX,
                crate::pattern::queues_view(queues@) == pattern.spec_queues(),
                wits.len() == out@.len(),
                forall|i: int|
                    0 <= i < out@.len() ==> good_result(
                        board,
                        &self.program.args.handling,
                        total_line_clears,
                        #[trigger] wits[i],
                        out@[i],
                    ),
                forall|u: int, hq: Seq<Piece>, ps: Seq<Placement>|
                    #![trigger hold_link(no_hold, queues@[u]@, hq), crate::composer::seq_allowed(rows, margin, hq, continuous_line_clears, ps, 0)]
                    (0 <= u < qi && all_tetrominoes(queues@[u]@) && hold_link(
                        no_hold,
                        queues@[u]@,
                        hq,
                    ) && ps.len() == hq.len() && crate::composer::seq_allowed(
                        rows,
                        margin,
                        hq,
                        continuous_line_clears,
                        ps,
                        0,
                    ) && total_line_clears.spec_contains(
                        crate::board::count_full(
                            crate::board::many_placed(rows, ps, 0),
                        ) as int,
                    ) && crate::composer::spec_many_doable(
                        rows,
                        margin,
                        &self.program.args.handling,
                        ps,
                        0,
                    )) ==> board_in(
                        out@,
                        crate::board::many_placed(rows, ps, 0),
                    ),
            decreases queues@.len() - qi,
        {
            let ghost qhead = out@;
            let mut tetros = true;
            let q = &queues[qi];
            let mut t: usize = 0;
            while t < q.0.len()
                invariant
                    t <= q@.len(),
                    tetros == forall|j: int| 0 <= j < t ==> (#[trigger] q@[j]).is_tetromino(),
                decreases q@.len() - t,
            {
                if !q.0[t].is_filled_with_piece() {
                    proof {
                        assert(!q@[t as int].is_tetromino());
                    }
                    tetros = false;
                }
                t = t + 1;
            }
            if tetros {
                let holds = self.hold_queues(q);
                let mut hi: usize = 0;
                while hi < holds.len()
                    invariant
                        hi <= holds@.len(),
                        board.wf(),
                        rows == board.rows_view(),
                        margin == board.margin as int,
                        no_hold == self.program.args.no_hold,
                        qhead.len() <= out@.len(),
                        forall|t: int| 0 <= t < qhead.len() ==> out@[t] == qhead[t],
                        board.spec_width() >= 2,
                        board.spec_width() * board.spec_height() <= usize::MAX,
                        board.spec_width() <= usize::MAX - 2,
                        board.spec_height() <= usize::MAX - 3,
                        self.program.args.handling.max < usize::MAX,
                        qi < queues@.len(),
                        q == &queues@[qi as int],
                        all_tetrominoes(q@),
                        no_hold ==> holds@.len() == 1 && holds@[0]@ == q@,
                        !no_hold ==> (forall|u: int|
                            0 <= u < holds@.len() ==> crate::pattern::hold_plays(
                                q@,
                                Option::None,
                                false,
                            ).contains((#[trigger] holds@[u])@)),
                        !no_hold ==> (forall|s2: Seq<Piece>|
                            crate::pattern::hold_plays(q@, Option::None, false).contains(s2)
                                ==> exists|u: int|
                                0 <= u < holds@.len() && (#[trigger] holds@[u])@ == s2),
                        wits.len() == out@.len(),
                        forall|i: int|
                            0 <= i < out@.len() ==> good_result(
                                board,
                                &self.program.args.handling,
                                total_line_clears,
                                #[trigger] wits[i],
                                out@[i],
                            ),
                        forall|u: int, hq: Seq<Piece>, ps: Seq<Placement>|
                            #![trigger hold_link(no_hold, queues@[u]@, hq), crate::composer::seq_allowed(rows, margin, hq, continuous_line_clears, ps, 0)]
                            (0 <= u < qi && all_tetrominoes(queues@[u]@) && hold_link(
                                no_hold,
                                queues@[u]@,
                                hq,
                            ) && ps.len() == hq.len() && crate::composer::seq_allowed(
                                rows,
                                margin,
                                hq,
                                continuous_line_clears,
                                ps,
                                0,
                            ) && total_line_clears.spec_contains(
                                crate::board::count_full(
                                    crate::board::many_placed(rows, ps, 0),
                                ) as int,
                            ) && crate::composer::spec_many_doable(
                                rows,
                                margin,
                                &self.program.args.handling,
                                ps,
                                0,
                            )) ==> board_in(
                                out@,
                                crate::board::many_placed(rows, ps, 0),
                            ),
                        forall|u: int, ps: Seq<Placement>|
                            #![trigger holds@[u], crate::composer::seq_allowed(rows, margin, holds@[u]@, continuous_line_clears, ps, 0)]
                            (0 <= u < hi && all_tetrominoes(holds@[u]@) && ps.len()
                                == holds@[u]@.len() && crate::composer::seq_allowed(
                                rows,
                                margin,
                                holds@[u]@,
                                continuous_line_clears,
                                ps,
                                0,
                            ) && total_line_clears.spec_contains(
                                crate::board::count_full(
                                    crate::board::many_placed(rows, ps, 0),
                                ) as int,
                            ) && crate::composer::spec_many_doable(
                                rows,
                                margin,
                                &self.program.args.handling,
                                ps,
                                0,
                            )) ==> board_in(
                                out@,
                                crate::board::many_placed(rows, ps, 0),
                            ),
                    decreases holds@.len() - hi,
                {
                    let ghost hhead = out@;
                    let h = &holds[hi];
                    let mut htet = true;
                    let mut t2: usize = 0;
                    while t2 < h.0.len()
                        invariant
                            t2 <= h@.len(),
                            htet == forall|j: int|
                                0 <= j < t2 ==> (#[trigger] h@[j]).is_tetromino(),
                        decreases h@.len() - t2,
                    {
                        if !h.0[t2].is_filled_with_piece() {
                            proof {
                                assert(!h@[t2 as int].is_tetromino());
                            }
                            htet = false;
                        }
                        t2 = t2 + 1;
                    }
                    if htet {
                        let seqs = self.all_placements_of_queue(
                            board,
                            h.pieces(),
                            continuous_line_clears,
                        );
                        let mut si: usize = 0;
                        while si < seqs.len()
                            invariant
                                si <= seqs@.len(),
                                board.wf(),
                                rows == board.rows_view(),
                                margin == board.margin as int,
                                board.spec_width() >= 2,
                                self.program.args.handling.max < usize::MAX,
                                hhead.len() <= out@.len(),
                                forall|t: int| 0 <= t < hhead.len() ==> out@[t] == hhead[t],
                                hi < holds@.len(),
                                h == &holds@[hi as int],
                                all_tetrominoes(h@),
                                forall|j: int|
                                    0 <= j < seqs@.len() ==> many_ok(
                                        rows,
                                        (#[trigger] seqs@[j])@,
                                        0,
                                    ) && seqs@[j]@.len() == h@.len(),
                                forall|ps: Seq<Placement>| #[trigger]
                                    crate::composer::in_result(seqs@, ps) <==> (ps.len()
                                        == h@.len() && crate::composer::seq_allowed(
                                        rows,
                                        margin,
                                        h@,
                                        continuous_line_clears,
                                        ps,
                                        0,
                                    )),
                                wits.len() == out@.len(),
                                forall|i: int|
                                    0 <= i < out@.len() ==> good_result(
                                        board,
                                        &self.program.args.handling,
                                        total_line_clears,
                                        #[trigger] wits[i],
                                        out@[i],
                                    ),
                                forall|v: int|
                                    #![trigger seqs@[v]]
                                    (0 <= v < si && total_line_clears.spec_contains(
                                        crate::board::count_full(
                                            crate::board::many_placed(rows, seqs@[v]@, 0),
                                        ) as int,
                                    ) && crate::composer::spec_many_doable(
                                        rows,
                                        margin,
                                        &self.program.args.handling,
                                        seqs@[v]@,
                                        0,
                                    )) ==> board_in(
                                        out@,
                                        crate::board::many_placed(rows, seqs@[v]@, 0),
                                    ),
                            decreases seqs@.len() - si,
                        {
                            let ps = &seqs[si];
                            let ghost psv = ps@;
                            let ghost prevall = out@;
                            proof {
                                assert(many_ok(rows, psv, 0)) by {
                                    assert(seqs@[si as int]@ == psv);
                                }
                            }
                            let mut ptet = true;
                            let mut t3: usize = 0;
                            while t3 < ps.len()
                                invariant
                                    t3 <= ps@.len(),
                                    psv == ps@,
                                    ptet == forall|j: int|
                                        0 <= j < t3 ==> (#[trigger] ps@[j]).0.is_tetromino(),
                                decreases ps@.len() - t3,
                            {
                                if !ps[t3].piece().is_filled_with_piece() {
                                    proof {
                                        assert(!ps@[t3 as int].0.is_tetromino());
                                    }
                                    ptet = false;
                                }
                                t3 = t3 + 1;
                            }
                            proof {
                                assert(ptet) by {
                                    assert forall|j: int| 0 <= j < psv.len()
                                        implies (#[trigger] psv[j]).0.is_tetromino() by {
                                        lemma_chain_pieces(rows, psv, 0, j);
                                    }
                                }
                            }
                            if ptet {
                                let mv = board.with_many_placements(ps);
                                let clears = mv.line_clears();
                                if total_line_clears.contains(clears) && self.is_many_doable(
                                    board,
                                    ps,
                                ) {
                                    out.push(mv);
                                    proof {
                                        wits = wits.push(psv);
                                        assert(out@[out@.len() - 1].rows_view()
                                            == crate::board::many_placed(rows, psv, 0));
                                        assert(good_result(
                                            board,
                                            &self.program.args.handling,
                                            total_line_clears,
                                            psv,
                                            out@[out@.len() - 1],
                                        ));
                                        assert forall|i: int| 0 <= i < out@.len()
                                            implies good_result(
                                            board,
                                            &self.program.args.handling,
                                            total_line_clears,
                                            #[trigger] wits[i],
                                            out@[i],
                                        ) by {
                                            if i < prevall.len() {
                                                assert(wits[i] == wits.drop_last()[i]);
                                            }
                                        }
                                        assert(board_in(
                                            out@,
                                            crate::board::many_placed(rows, psv, 0),
                                        )) by {
                                            assert(out@[out@.len() - 1].rows_view()
                                                == crate::board::many_placed(rows, psv, 0));
                                        }
                                    }
                                }
                            }
                            proof {
                                lemma_board_in_grow(prevall, out@);
                                assert forall|v: int|
                                    (0 <= v < si + 1 && total_line_clears.spec_contains(
                                        crate::board::count_full(
                                            crate::board::many_placed(
                                                rows,
                                                (#[trigger] seqs@[v])@,
                                                0,
                                            ),
                                        ) as int,
                                    ) && crate::composer::spec_many_doable(
                                        rows,
                                        margin,
                                        &self.program.args.handling,
                                        seqs@[v]@,
                                        0,
                                    )) implies board_in(
                                    out@,
                                    crate::board::many_placed(rows, seqs@[v]@, 0),
                                ) by {
                                    if v == si {
                                        assert(seqs@[v]@ == psv);
                                    }
                                }
                            }
                            si = si + 1;
                        }
                        proof {
                            lemma_board_in_grow(hhead, out@);
                            assert forall|u: int, ps: Seq<Placement>|
                                (0 <= u < hi + 1 && all_tetrominoes((#[trigger] holds@[u])@)
                                    && ps.len() == holds@[u]@.len()
                                    && #[trigger] crate::composer::seq_allowed(
                                    rows,
                                    margin,
                                    holds@[u]@,
                                    continuous_line_clears,
                                    ps,
                                    0,
                                ) && total_line_clears.spec_contains(
                                    crate::board::count_full(
                                        crate::board::many_placed(rows, ps, 0),
                                    ) as int,
                                ) && crate::composer::spec_many_doable(
                                    rows,
                                    margin,
                                    &self.program.args.handling,
                                    ps,
                                    0,
                                )) implies board_in(
                                out@,
                                crate::board::many_placed(rows, ps, 0),
                            ) by {
                                if u == hi {
                                    assert(crate::composer::in_result(seqs@, ps)) by {
                                        assert(crate::composer::seq_allowed(
                                            rows,
                                            margin,
                                            h@,
                                            continuous_line_clears,
                                            ps,
                                            0,
                                        ));
                                    }
                                    let v = choose|v: int|
                                        0 <= v < seqs@.len() && (#[trigger] seqs@[v])@ == ps;
                                    assert(seqs@[v]@ == ps);
                                }
                            }
                        }
                    } else {
                        proof {
                            let j = choose|j: int|
                                0 <= j < h@.len() && !(#[trigger] h@[j]).is_tetromino();
                            assert(all_tetrominoes(h@)) by {
                                if no_hold {
                                    assert(h@ == q@);
                                } else {
                                    assert(crate::pattern::hold_plays(
                                        q@,
                                        Option::None,
                                        false,
                                    ).contains(h@));
                                    lemma_hold_all_tetrominoes(q@, h@);
                                }
                            }
                            assert(false);
                        }
                    }
                    proof {
                        lemma_board_in_grow(hhead, out@);
                    }
                    hi = hi + 1;
                }
                proof {
                    assert forall|u: int, hq: Seq<Piece>, ps: Seq<Placement>|
                        (0 <= u < qi + 1 && all_tetrominoes(queues@[u]@)
                            && #[trigger] hold_link(no_hold, queues@[u]@, hq) && ps.len()
                            == hq.len() && #[trigger] crate::composer::seq_allowed(
                            rows,
                            margin,
                            hq,
                            continuous_line_clears,
                            ps,
                            0,
                        ) && total_line_clears.spec_contains(
                            crate::board::count_full(
                                crate::board::many_placed(rows, ps, 0),
                            ) as int,
                        ) && crate::composer::spec_many_doable(
                            rows,
                            margin,
                            &self.program.args.handling,
                            ps,
                            0,
                        )) implies board_in(
                        out@,
                        crate::board::many_placed(rows, ps, 0),
                    ) by {
                        if u == qi {
                            assert(queues@[u]@ == q@);
                            let hu = if no_hold {
                                0int
                            } else {
                                choose|hu: int|
                                    0 <= hu < holds@.len() && (#[trigger] holds@[hu])@ == hq
                            };
                            assert(holds@[hu]@ == hq);
                            assert(all_tetrominoes(holds@[hu]@)) by {
                                if !no_hold {
                                    lemma_hold_all_tetrominoes(q@, hq);
                                }
                            }
                        }
                    }
                }
            } else {
                proof {
                    lemma_board_in_grow(qhead, out@);
                    assert forall|u: int, hq: Seq<Piece>, ps: Seq<Placement>|
                        (0 <= u < qi + 1 && all_tetrominoes(queues@[u]@)
                            && #[trigger] hold_link(no_hold, queues@[u]@, hq) && ps.len()
                            == hq.len() && #[trigger] crate::composer::seq_allowed(
                            rows,
                            margin,
                            hq,
                            continuous_line_clears,
                            ps,
                            0,
                        ) && total_line_clears.spec_contains(
                            crate::board::count_full(
                                crate::board::many_placed(rows, ps, 0),
                            ) as int,
                        ) && crate::composer::spec_many_doable(
                            rows,
                            margin,
                            &self.program.args.handling,
                            ps,
                            0,
                        )) implies board_in(
                        out@,
                        crate::board::many_placed(rows, ps, 0),
                    ) by {
                        if u == qi {
                            let j = choose|j: int|
                                0 <= j < q@.len() && !(#[trigger] q@[j]).is_tetromino();
                            assert(!all_tetrominoes(queues@[u]@)) by {
                                assert(queues@[u]@[j] == q@[j]);
                            }
                        }
                    }
                }
            }
            qi = qi + 1;
        }
        proof {
            assert forall|i: int| 0 <= i < out@.len() implies result_explained(
                board,
                &self.program.args.handling,
                total_line_clears,
                #[trigger] out@[i],
            ) by {
                let w = wits[i];
                assert(good_result(
                    board,
                    &self.program.args.handling,
                    total_line_clears,
                    w,
                    out@[i],
                ));
            }
            assert forall|ps: Seq<Placement>| #[trigger]
                move_wanted(
                    rows,
                    margin,
                    &self.program.args.handling,
                    no_hold,
                    pattern.spec_queues(),
                    total_line_clears,
                    continuous_line_clears,
                    ps,
                ) implies board_in(out@, crate::board::many_placed(rows, ps, 0)) by {
                let (qv, hq) = choose|qv: Seq<Piece>, hq: Seq<Piece>|
                    {
                        &&& #[trigger] pattern.spec_queues().contains(qv)
                        &&& all_tetrominoes(qv)
                        &&& #[trigger] hold_link(no_hold, qv, hq)
                        &&& ps.len() == hq.len()
                        &&& crate::composer::seq_allowed(
                            rows,
                            margin,
                            hq,
                            continuous_line_clears,
                            ps,
                            0,
                        )
                        &&& total_line_clears.spec_contains(
                            crate::board::count_full(
                                crate::board::many_placed(rows, ps, 0),
                            ) as int,
                        )
                        &&& crate::composer::spec_many_doable(
                            rows,
                            margin,
                            &self.program.args.handling,
                            ps,
                            0,
                        )
                    };
                let u = choose|u: int|
                    0 <= u < crate::pattern::queues_view(queues@).len()
                        && #[trigger] crate::pattern::queues_view(queues@)[u] == qv;
                assert(queues@[u]@ == qv);
                assert(board_in(out@, crate::board::many_placed(rows, ps, 0)));
            }
        }
        out
    }

    /// Run the move command: collect the satisfying boards into the
    /// output buffer. With no satisfying sequence the command still
    /// succeeds and reports an informational message, as the error design
    /// asks.
    pub fn move_command(
        &mut self,
        tetfu: &Grid,
        pattern: &Pattern,
        total_line_clears: Ranged,
        continuous_line_clears: Ranged,
    ) -> (found: bool)
        requires
            pattern.spec_counts_ok(),
            tetfu.0@.len() > 0,
            tetfu.0@[0].wf(),
            tetfu.0@[0].spec_width() >= 2,
            tetfu.0@[0].spec_width() * tetfu.0@[0].spec_height() <= usize::MAX,
            tetfu.0@[0].spec_width() <= usize::MAX - 2,
            tetfu.0@[0].spec_height() <= usize::MAX - 3,
            old(self).program.args.handling.max < usize::MAX,
        ensures
            final(self).program == old(self).program,
            final(self).caches == old(self).caches,
            ({
                let b = &tetfu.0@[0];
                &&& (!found ==> (forall|ps: Seq<Placement>|
                    !(#[trigger] move_wanted(
                        b.rows_view(),
                        b.margin as int,
                        &old(self).program.args.handling,
                        old(self).program.args.no_hold,
                        pattern.spec_queues(),
                        total_line_clears,
                        continuous_line_clears,
                        ps,
                    ))) && final(self).buf@ == old(self).buf@ + "no placements found"@)
                &&& (found ==> exists|bs: Seq<Board>|
                    {
                        &&& bs.len() > 0
                        &&& (forall|i: int|
                            0 <= i < bs.len() ==> result_explained(
                                b,
                                &old(self).program.args.handling,
                                total_line_clears,
                                #[trigger] bs[i],
                            ))
                        &&& #[trigger] final(self).buf@ == old(self).buf@ + spec_tetfu(
                            &old(self).program.args,
                            bs,
                        )
                    })
            }),
    {
        let b = &tetfu.0[0];
        let results = self.move_boards(b, pattern, total_line_clears, continuous_line_clears);
        if results.len() == 0 {
            proof {
                assert forall|ps: Seq<Placement>|
                    !(#[trigger] move_wanted(
                        b.rows_view(),
                        b.margin as int,
                        &self.program.args.handling,
                        self.program.args.no_hold,
                        pattern.spec_queues(),
                        total_line_clears,
                        continuous_line_clears,
                        ps,
                    )) by {
                    if move_wanted(
                        b.rows_view(),
                        b.margin as int,
                        &self.program.args.handling,
                        self.program.args.no_hold,
                        pattern.spec_queues(),
                        total_line_clears,
                        continuous_line_clears,
                        ps,
                    ) {
                        assert(board_in(
                            results@,
                            crate::board::many_placed(b.rows_view(), ps, 0),
                        ));
                        let t = choose|t: int|
                            0 <= t < results@.len() && (#[trigger] results@[t]).rows_view()
                                == crate::board::many_placed(b.rows_view(), ps, 0);
                    }
                }
            }
            self.buf.append("no placements found");
            return false;
        }
        let ghost bs = results@;
        let g = Grid(results);
        let rendered = self.tetfu(&g);
        self.buf.append(rendered.as_str());
        true
    }

    /// The four landing-mask pages for one piece: the board grayed, with
    /// the piece's legal rest positions tinted in, one page per rotation.
    pub fn possible_pages(&self, board: &Board, piece: Piece) -> (r: Vec<Board>)
        requires
            piece.is_tetromino(),
            board.wf(),
            board.spec_width() >= 2,
            board.spec_width() * board.spec_height() <= usize::MAX,
            board.spec_width() <= usize::MAX - 2,
            board.spec_height() <= usize::MAX - 3,
        ensures
            r@.len() == 4,
            forall|i: int|
                0 <= i < 4 ==> landing_page(
                    board.rows_view(),
                    board.margin as int,
                    piece,
                    rotation_at(i),
                    #[trigger] r@[i],
                ),
    {
        let ghost rows = board.rows_view();
        let ghost margin = board.margin as int;
        let f = board.fast();
        proof {
            assert(f.rows() =~~= crate::composer::visible_bit_rows(rows, margin)) by {
                assert forall|x: int, y: int|
                    0 <= x < board.spec_width() && 0 <= y < board.spec_height()
                    implies #[trigger] f.rows()[y][x] == crate::composer::visible_bit_rows(
                    rows,
                    margin,
                )[y][x] by {
                    assert(f.rows()[y][x] == (board.spec_get(x, y) != Piece::E));
                }
            }
        }
        let rotations: Vec<crate::piece::Rotation> = vec![
            crate::piece::Rotation::North,
            crate::piece::Rotation::East,
            crate::piece::Rotation::South,
            crate::piece::Rotation::West,
        ];
        let mut out: Vec<Board> = Vec::new();
        let mut i: usize = 0;
        while i < rotations.len()
            invariant
                i <= rotations@.len(),
                rotations@.len() == 4,
                board.wf(),
                piece.is_tetromino(),
                rows == board.rows_view(),
                margin == board.margin as int,
                f.wf(),
                f.rows() == crate::composer::visible_bit_rows(rows, margin),
                f.width == board.spec_width(),
                f.height == board.spec_height(),
                f.width <= usize::MAX - 2,
                f.height <= usize::MAX - 3,
                forall|t: int| 0 <= t < 4 ==> #[trigger] rotations@[t] == rotation_at(t),
                out@.len() == i,
                forall|t: int|
                    0 <= t < i ==> landing_page(
                        rows,
                        margin,
                        piece,
                        rotation_at(t),
                        #[trigger] out@[t],
                    ),
            decreases rotations@.len() - i,
        {
            let mask = f.possible_placements(piece, rotations[i]);
            let tinted = mask.tint(piece);
            proof {
                assert(landing_page(rows, margin, piece, rotation_at(i as int), tinted)) by {
                    assert(rotations@[i as int] == rotation_at(i as int));
                    let bits = crate::composer::visible_bit_rows(rows, margin);
                    let w = crate::board::max_row_len(rows);
                    assert forall|x: int, y: int|
                        0 <= x < w && 0 <= y < rows.len() - margin
                        implies #[trigger] tinted.rows_view()[y][x] == (
                    if crate::bits::spec_landing(bits, w, piece, rotation_at(i as int), x, y) {
                        piece
                    } else {
                        Piece::E
                    }) by {
                        assert(mask.rows()[y][x] == crate::bits::spec_landing(
                            bits,
                            w,
                            piece,
                            rotation_at(i as int),
                            x,
                            y,
                        ));
                    }
                }
            }
            out.push(tinted);
            i = i + 1;
        }
        out
    }
}

/// The rotation at one index of the rotation cycle, north first.
pub open spec fn rotation_at(i: int) -> crate::piece::Rotation {
    if i == 0 {
        crate::piece::Rotation::North
    } else if i == 1 {
        crate::piece::Rotation::East
    } else if i == 2 {
        crate::piece::Rotation::South
    } else {
        crate::piece::Rotation::West
    }
}

/// A page that shows one rotation's landing mask: the cells where the
/// piece's rotation center may come to rest carry the piece kind, every
/// other cell is empty, and the page has no margin and no comment.
pub open spec fn landing_page(
    rows: Seq<Seq<Piece>>,
    margin: int,
    piece: Piece,
    rot: crate::piece::Rotation,
    p: Board,
) -> bool {
    let bits = crate::composer::visible_bit_rows(rows, margin);
    let w = crate::board::max_row_len(rows);
    let h = rows.len() - margin;
    &&& p.margin == 0
    &&& p.comment is None
    &&& p.rows_view().len() == h
    &&& (forall|y: int| 0 <= y < h ==> (#[trigger] p.rows_view()[y]).len() == w)
    &&& (forall|x: int, y: int|
        0 <= x < w && 0 <= y < h ==> #[trigger] p.rows_view()[y][x] == (
        if crate::bits::spec_landing(bits, w, piece, rot, x, y) {
            piece
        } else {
            Piece::E
        }))
}

/// The pages with their comments removed.
pub open spec fn strip_comments_view(pages: Seq<Board>) -> Seq<Board> {
    pages.map_values(
        |b: Board| Board { data: b.data, comment: Option::None, margin: b.margin },
    )
}

/// The grid with every page's comment removed.
fn strip_comments(f: &Grid) -> (r: Grid)
    ensures
        codec_view(r.0@) == codec_view(strip_comments_view(f.0@)),
        r.0@.len() == f.0@.len(),
{
    let mut out: Vec<Board> = Vec::new();
    let mut i: usize = 0;
    while i < f.0.len()
        invariant
            i <= f.0@.len(),
            out@.len() == i,
            forall|t: int|
                0 <= t < i ==> (#[trigger] out@[t]).rows_view() == f.0@[t].rows_view()
                    && out@[t].comment is None,
        decreases f.0@.len() - i,
    {
        let mut b = f.0[i].clone();
        b.comment = None;
        out.push(b);
        i = i + 1;
    }
    let r = Grid(out);
    proof {
        assert(codec_view(r.0@) =~~= codec_view(strip_comments_view(f.0@)));
    }
    r
}

/// The lower-case form of an upper-case ASCII letter; other characters
/// stay as they are.
pub open spec fn ascii_lower(c: char) -> char {
    if 'A' <= c && c <= 'Z' {
        ((c as int) + 32) as char
    } else {
        c
    }
}

/// The lower-case form of an upper-case ASCII letter.
fn ascii_lower_exec(c: char) -> (r: char)
    ensures
        r == ascii_lower(c),
{
    if c >= 'A' && c <= 'Z' {
        let b = (c as u8) + 32;
        proof {
            assert('A' as int == 65 && 'Z' as int == 90);
        }
        b as char
    } else {
        c
    }
}

} // verus!

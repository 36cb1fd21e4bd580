//! The placement composer: every placement sequence a queue allows on a
//! board, with line-clear filters, and the congruence variant that
//! confines placements to a template region.

use vstd::prelude::*;

use crate::board::{
    adjusted_cells, adjusted_ok, count_full, many_ok, many_placed, stamp_rows, Board,
};
use crate::piece::Piece;
use crate::pattern::Pattern;
use crate::placement::Placement;
use crate::program::{feasible, Sfce};
use crate::ranged::Ranged;

verus! {

/// Stamping cells with a tetromino never unfills a row: the count of
/// completely filled rows cannot drop.
pub proof fn lemma_stamp_count_mono(
    rows: Seq<Seq<Piece>>,
    kind: Piece,
    cells: Seq<(int, int)>,
)
    requires
        kind != Piece::E,
    ensures
        count_full(rows) <= count_full(stamp_rows(rows, kind, cells)),
        stamp_rows(rows, kind, cells).len() == rows.len(),
    decreases rows.len(),
{
    if rows.len() > 0 {
        lemma_stamp_count_mono(rows.drop_last(), kind, cells)
        ;
        let st = stamp_rows(rows, kind, cells);
        assert(st.drop_last() =~~= stamp_rows(rows.drop_last(), kind, cells));
        if crate::board::row_full(rows.last()) {
            assert(crate::board::row_full(st.last())) by {
                if st.last().contains(Piece::E) {
                    let x = choose|x: int|
                        0 <= x < st.last().len() && st.last()[x] == Piece::E;
                    assert(rows.last()[x] == Piece::E);
                    assert(rows.last().contains(Piece::E));
                }
            }
        }
    }
}

/// Whether this placement, stamped on the board, keeps the growth in
/// completely filled rows inside the range.
pub open spec fn clear_delta_ok(rows: Seq<Seq<Piece>>, p: Placement, cls: Ranged) -> bool {
    cls.spec_contains(
        count_full(stamp_rows(rows, p.0, adjusted_cells(rows, p))) - count_full(rows),
    )
}

/// The bit form of the visible rows: a set bit exactly where a cell
/// holds a filled piece kind.
pub open spec fn visible_bit_rows(rows: Seq<Seq<Piece>>, margin: int) -> Seq<Seq<bool>> {
    Seq::new(
        (rows.len() - margin) as nat,
        |y: int|
            Seq::new(
                crate::board::max_row_len(rows),
                |x: int| crate::board::cell_at(rows, x, y) != Piece::E,
            ),
    )
}

/// A placement the composer allows for one piece: a landing position of
/// the board's bit form whose line-clear-aware cells exist on the colored
/// board and whose line-clear growth lies in the range.
pub open spec fn piece_allowed(
    rows: Seq<Seq<Piece>>,
    margin: int,
    piece: Piece,
    p: Placement,
    cls: Ranged,
) -> bool {
    &&& p.0 == piece
    &&& (p.1 as int) < crate::board::max_row_len(rows)
    &&& (p.2 as int) < rows.len() - margin
    &&& crate::bits::spec_landing(
        visible_bit_rows(rows, margin),
        crate::board::max_row_len(rows),
        piece,
        p.3,
        p.1 as int,
        p.2 as int,
    )
    &&& adjusted_ok(rows, p)
    &&& clear_delta_ok(rows, p, cls)
}

impl Sfce {
    /// Every allowed placement of one piece: a landing position whose
    /// line-clear growth lies in the range and whose line-clear-aware
    /// cells exist on the colored board.
    pub fn all_placements_of_piece(
        &self,
        board: &Board,
        piece: Piece,
        continuous_line_clears: Ranged,
    ) -> (r: Vec<Placement>)
        requires
            piece.is_tetromino(),
            board.wf(),
            board.spec_width() * board.spec_height() <= usize::MAX,
            board.spec_width() <= usize::MAX - 2,
            board.spec_height() <= usize::MAX - 3,
        ensures
            forall|p: Placement| #[trigger]
                r@.contains(p) <==> piece_allowed(
                    board.rows_view(),
                    board.margin as int,
                    piece,
                    p,
                    continuous_line_clears,
                ),
            forall|i: int, j: int| 0 <= i < j < r@.len() ==> r@[i] != r@[j],
    {
        let ghost rows = board.rows_view();
        let ghost margin = board.margin as int;
        let f = board.fast();
        proof {
            assert(f.rows() =~~= visible_bit_rows(rows, margin)) by {
                assert forall|x: int, y: int|
                    0 <= x < board.spec_width() && 0 <= y < board.spec_height()
                    implies #[trigger] f.rows()[y][x] == visible_bit_rows(rows, margin)[y][x] by {
                    assert(f.rows()[y][x] == (board.spec_get(x, y) != Piece::E));
                }
            }
        }
        let cands = f.all_placements_of_piece(piece);
        let base = board.line_clears();
        let mut out: Vec<Placement> = Vec::new();
        let mut i: usize = 0;
        while i < cands.len()
            invariant
                i <= cands@.len(),
                piece.is_tetromino(),
                board.wf(),
                rows == board.rows_view(),
                margin == board.margin as int,
                f.rows() == visible_bit_rows(rows, margin),
                f.width == board.spec_width(),
                f.height == board.spec_height(),
                forall|t: int|
                    0 <= t < cands@.len() ==> ((#[trigger] cands@[t]).0 == piece && cands@[t].1
                        < f.width && cands@[t].2 < f.height && crate::bits::spec_landing(
                        f.rows(),
                        f.width as nat,
                        piece,
                        cands@[t].3,
                        cands@[t].1 as int,
                        cands@[t].2 as int,
                    )),
                forall|rot: crate::piece::Rotation, x: usize, y: usize|
                    x < f.width && y < f.height && crate::bits::spec_landing(
                        f.rows(),
                        f.width as nat,
                        piece,
                        rot,
                        x as int,
                        y as int,
                    ) ==> #[trigger] cands@.contains(Placement(piece, x, y, rot)),
                base == count_full(rows),
                forall|t: int, u: int| 0 <= t < u < out@.len() ==> out@[t] != out@[u],
                forall|p: Placement| #[trigger]
                    out@.contains(p) <==> ((exists|t: int| 0 <= t < i && cands@[t] == p)
                        && adjusted_ok(rows, p) && clear_delta_ok(
                        rows,
                        p,
                        continuous_line_clears,
                    )),
            decreases cands@.len() - i,
        {
            let p = cands[i];
            let ghost prev = out@;
            let mut kept = false;
            if board.adjusted_piece_offsets(p).is_some() {
                let placed = board.with_placement(p);
                let clears = placed.line_clears();
                proof {
                    lemma_stamp_count_mono(rows, p.0, adjusted_cells(rows, p));
                }
                if continuous_line_clears.contains(clears - base) {
                    let mut dup = false;
                    let mut j: usize = 0;
                    while j < out.len()
                        invariant
                            j <= out@.len(),
                            dup == exists|t: int| 0 <= t < j && out@[t] == p,
                        decreases out@.len() - j,
                    {
                        if crate::placement::placement_eq(out[j], p) {
                            proof {
                                assert(out@[j as int] == p);
                            }
                            dup = true;
                        }
                        j = j + 1;
                    }
                    if !dup {
                        out.push(p);
                    }
                    kept = true;
                    proof {
                        if dup {
                            let t = choose|t: int| 0 <= t < prev.len() && prev[t] == p;
                            assert(out@.contains(p)) by {
                                assert(out@[t] == p);
                            }
                        } else {
                            assert(out@.contains(p)) by {
                                assert(out@[prev.len() as int] == p);
                            }
                        }
                    }
                }
            }
            proof {
                assert forall|q: Placement| #[trigger] out@.contains(q) implies ((exists|t: int|
                    0 <= t < i + 1 && cands@[t] == q) && adjusted_ok(rows, q) && clear_delta_ok(
                    rows,
                    q,
                    continuous_line_clears,
                )) by {
                    if prev.contains(q) {
                        assert(exists|t: int| 0 <= t < i && cands@[t] == q);
                        let t = choose|t: int| 0 <= t < i && cands@[t] == q;
                        assert(cands@[t] == q);
                    } else {
                        let t = choose|t: int| 0 <= t < out@.len() && out@[t] == q;
                        assert(t == prev.len());
                        assert(q == p);
                        assert(cands@[i as int] == q);
                    }
                }
                assert forall|q: Placement|
                    ((exists|t: int| 0 <= t < i + 1 && cands@[t] == q) && adjusted_ok(rows, q)
                        && clear_delta_ok(rows, q, continuous_line_clears))
                    implies #[trigger] out@.contains(q) by {
                    let t = choose|t: int| 0 <= t < i + 1 && cands@[t] == q;
                    if t < i {
                        assert(prev.contains(q));
                        let u = choose|u: int| 0 <= u < prev.len() && prev[u] == q;
                        assert(out@[u] == q);
                    } else {
                        assert(q == p);
                        assert(kept);
                    }
                }
            }
            i = i + 1;
        }
        proof {
            assert forall|p: Placement| #[trigger] out@.contains(p) implies piece_allowed(
                rows,
                margin,
                piece,
                p,
                continuous_line_clears,
            ) by {
                let t = choose|t: int| 0 <= t < cands@.len() && cands@[t] == p;
            }
            assert forall|p: Placement|
                piece_allowed(rows, margin, piece, p, continuous_line_clears)
                implies #[trigger] out@.contains(p) by {
                assert(cands@.contains(Placement(piece, p.1, p.2, p.3)));
                assert(Placement(piece, p.1, p.2, p.3) == p);
                let t = choose|t: int| 0 <= t < cands@.len() && cands@[t] == p;
            }
        }
        out
    }

}

/// Whether a placement list is in the result: some entry views to it.
pub open spec fn in_result(r: Seq<Vec<Placement>>, ps: Seq<Placement>) -> bool {
    exists|t: int| 0 <= t < r.len() && (#[trigger] r[t])@ == ps
}

/// Whether a placement sequence realizes the queue from position `i` on:
/// each placement, in order, is allowed for its piece on the board the
/// earlier ones produce.
pub open spec fn seq_allowed(
    rows: Seq<Seq<Piece>>,
    margin: int,
    queue: Seq<Piece>,
    cls: Ranged,
    ps: Seq<Placement>,
    i: int,
) -> bool
    decreases queue.len() - i,
{
    if i < 0 || i >= queue.len() {
        true
    } else {
        &&& piece_allowed(rows, margin, queue[i], ps[i], cls)
        &&& seq_allowed(
            stamp_rows(rows, ps[i].0, adjusted_cells(rows, ps[i])),
            margin,
            queue,
            cls,
            ps,
            i + 1,
        )
    }
}

/// Realizing the tail of a queue is realizing the shortened queue.
pub proof fn lemma_seq_allowed_shift(
    rows: Seq<Seq<Piece>>,
    margin: int,
    queue: Seq<Piece>,
    cls: Ranged,
    ps: Seq<Placement>,
    i: int,
)
    requires
        0 <= i,
        queue.len() >= 1,
        ps.len() == queue.len(),
    ensures
        seq_allowed(rows, margin, queue, cls, ps, i + 1) == seq_allowed(
            rows,
            margin,
            queue.drop_first(),
            cls,
            ps.drop_first(),
            i,
        ),
    decreases queue.len() - i,
{
    if i + 1 < queue.len() {
        assert(queue.drop_first()[i] == queue[i + 1]);
        assert(ps.drop_first()[i] == ps[i + 1]);
        lemma_seq_allowed_shift(
            stamp_rows(rows, ps[i + 1].0, adjusted_cells(rows, ps[i + 1])),
            margin,
            queue,
            cls,
            ps,
            i + 1,
        );
    }
}

/// A realized sequence is a well-defined placement chain.
pub proof fn lemma_seq_allowed_many_ok(
    rows: Seq<Seq<Piece>>,
    margin: int,
    queue: Seq<Piece>,
    cls: Ranged,
    ps: Seq<Placement>,
    i: int,
)
    requires
        ps.len() == queue.len(),
        forall|t: int| 0 <= t < queue.len() ==> (#[trigger] queue[t]).is_tetromino(),
        seq_allowed(rows, margin, queue, cls, ps, i),
        0 <= i,
    ensures
        many_ok(rows, ps, i),
    decreases queue.len() - i,
{
    if i < queue.len() {
        lemma_seq_allowed_many_ok(
            stamp_rows(rows, ps[i].0, adjusted_cells(rows, ps[i])),
            margin,
            queue,
            cls,
            ps,
            i + 1,
        );
    }
}

impl Sfce {
    /// Every allowed placement sequence for the queue: each placement is
    /// itself allowed on the board produced by the ones before it, and
    /// every such sequence appears.
    pub fn all_placements_of_queue(
        &self,
        board: &Board,
        queue: &Vec<Piece>,
        cls: Ranged,
    ) -> (r: Vec<Vec<Placement>>)
        requires
            board.wf(),
            board.spec_width() * board.spec_height() <= usize::MAX,
            board.spec_width() <= usize::MAX - 2,
            board.spec_height() <= usize::MAX - 3,
            forall|i: int| 0 <= i < queue@.len() ==> (#[trigger] queue@[i]).is_tetromino(),
        ensures
            forall|i: int|
                0 <= i < r@.len() ==> (#[trigger] r@[i])@.len() == queue@.len() && many_ok(
                    board.rows_view(),
                    r@[i]@,
                    0,
                ),
            forall|ps: Seq<Placement>| #[trigger]
                in_result(r@, ps) <==> (ps.len() == queue@.len() && seq_allowed(
                    board.rows_view(),
                    board.margin as int,
                    queue@,
                    cls,
                    ps,
                    0,
                )),
        decreases queue@.len(),
    {
        let ghost rows = board.rows_view();
        let ghost margin = board.margin as int;
        let mut out: Vec<Vec<Placement>> = Vec::new();
        if queue.len() == 0 {
            out.push(Vec::new());
            proof {
                assert(out@[0]@ =~= Seq::<Placement>::empty());
                assert forall|ps: Seq<Placement>| #[trigger] in_result(out@, ps) implies (ps.len()
                    == queue@.len() && seq_allowed(rows, margin, queue@, cls, ps, 0)) by {
                    let t = choose|t: int| 0 <= t < out@.len() && (#[trigger] out@[t])@ == ps;
                    assert(ps =~= Seq::<Placement>::empty());
                }
                assert forall|ps: Seq<Placement>|
                    ps.len() == queue@.len() && seq_allowed(rows, margin, queue@, cls, ps, 0)
                    implies #[trigger] in_result(out@, ps) by {
                    assert(out@[0]@ =~= ps);
                }
            }
            return out;
        }
        let piece = queue[0];
        let rest = crate::pattern::tail_pieces(queue);
        let firsts = self.all_placements_of_piece(board, piece, cls);
        proof {
            assert forall|t: int| 0 <= t < firsts@.len() implies ((#[trigger] firsts@[t]).0
                == piece && firsts@[t].0.is_tetromino() && adjusted_ok(
                board.rows_view(),
                firsts@[t],
            )) by {
                assert(firsts@.contains(firsts@[t]));
            }
        }
        let mut i: usize = 0;
        while i < firsts.len()
            invariant
                i <= firsts@.len(),
                board.wf(),
                rows == board.rows_view(),
                margin == board.margin as int,
                board.spec_width() * board.spec_height() <= usize::MAX,
                board.spec_width() <= usize::MAX - 2,
                board.spec_height() <= usize::MAX - 3,
                queue@.len() > 0,
                piece == queue@[0],
                rest@ == queue@.drop_first(),
                forall|t: int| 0 <= t < queue@.len() ==> (#[trigger] queue@[t]).is_tetromino(),
                forall|t: int|
                    0 <= t < firsts@.len() ==> ((#[trigger] firsts@[t]).0 == piece
                        && firsts@[t].0.is_tetromino() && adjusted_ok(rows, firsts@[t])),
                forall|p: Placement| #[trigger]
                    firsts@.contains(p) <==> piece_allowed(rows, margin, piece, p, cls),
                forall|t: int, u: int| 0 <= t < u < firsts@.len() ==> firsts@[t] != firsts@[u],
                forall|t: int|
                    0 <= t < out@.len() ==> (#[trigger] out@[t])@.len() == queue@.len() && many_ok(
                        rows,
                        out@[t]@,
                        0,
                    ),
                forall|ps: Seq<Placement>| #[trigger]
                    in_result(out@, ps) <==> (ps.len() == queue@.len() && seq_allowed(
                        rows,
                        margin,
                        queue@,
                        cls,
                        ps,
                        0,
                    ) && (exists|u: int| 0 <= u < i && firsts@[u] == ps[0])),
            decreases firsts@.len() - i,
        {
            let p = firsts[i];
            let placed = board.with_placement(p);
            proof {
                assert(placed.spec_width() == board.spec_width() && placed.spec_height()
                    == board.spec_height()) by {
                    assert(placed.rows_view().len() == board.rows_view().len());
                    lemma_stamp_width(rows, p.0, adjusted_cells(rows, p));
                }
            }
            let subs = self.all_placements_of_queue(&placed, &rest, cls);
            let mut j: usize = 0;
            while j < subs.len()
                invariant
                    j <= subs@.len(),
                    board.wf(),
                    rows == board.rows_view(),
                    margin == board.margin as int,
                    queue@.len() > 0,
                    piece == queue@[0],
                    rest@ == queue@.drop_first(),
                    forall|t: int| 0 <= t < queue@.len() ==> (#[trigger] queue@[t]).is_tetromino(),
                    i < firsts@.len(),
                    p == firsts@[i as int],
                    p.0 == piece,
                    p.0.is_tetromino(),
                    adjusted_ok(rows, p),
                    firsts@.contains(p),
                    forall|q: Placement| #[trigger]
                        firsts@.contains(q) <==> piece_allowed(rows, margin, piece, q, cls),
                    placed.margin == board.margin,
                    placed.rows_view() == stamp_rows(rows, p.0, adjusted_cells(rows, p)),
                    forall|t: int|
                        0 <= t < subs@.len() ==> (#[trigger] subs@[t])@.len() == rest@.len()
                            && many_ok(placed.rows_view(), subs@[t]@, 0),
                    forall|tail: Seq<Placement>| #[trigger]
                        in_result(subs@, tail) <==> (tail.len() == rest@.len() && seq_allowed(
                            placed.rows_view(),
                            margin,
                            rest@,
                            cls,
                            tail,
                            0,
                        )),
                    forall|t: int|
                        0 <= t < out@.len() ==> (#[trigger] out@[t])@.len() == queue@.len()
                            && many_ok(rows, out@[t]@, 0),
                    forall|ps: Seq<Placement>| #[trigger]
                        in_result(out@, ps) <==> (ps.len() == queue@.len() && seq_allowed(
                            rows,
                            margin,
                            queue@,
                            cls,
                            ps,
                            0,
                        ) && ((exists|u: int| 0 <= u < i && firsts@[u] == ps[0]) || (ps[0] == p
                            && (exists|v: int|
                            0 <= v < j && (#[trigger] subs@[v])@ == ps.drop_first())))),
                decreases subs@.len() - j,
            {
                let mut seqv: Vec<Placement> = Vec::new();
                seqv.push(p);
                let src = &subs[j];
                let mut t: usize = 0;
                while t < src.len()
                    invariant
                        t <= src@.len(),
                        seqv@ =~= seq![p] + src@.take(t as int),
                    decreases src@.len() - t,
                {
                    seqv.push(src[t]);
                    proof {
                        assert(seqv@ =~= seq![p] + src@.take(t + 1));
                    }
                    t = t + 1;
                }
                proof {
                    assert(src@.take(src@.len() as int) =~= src@);
                    assert(seqv@ == seq![p] + subs@[j as int]@);
                }
                let ghost prevout = out@;
                out.push(seqv);
                proof {
                    let whole = seq![p] + subs@[j as int]@;
                    let tail = subs@[j as int]@;
                    assert(out@[prevout.len() as int]@ == whole);
                    assert(whole.drop_first() =~= tail);
                    assert(whole[0] == p);
                    // the pushed sequence realizes the queue
                    assert(in_result(subs@, tail)) by {
                        assert(subs@[j as int]@ == tail);
                    }
                    assert(seq_allowed(placed.rows_view(), margin, rest@, cls, tail, 0));
                    lemma_seq_allowed_shift(placed.rows_view(), margin, queue@, cls, whole, 0);
                    assert(seq_allowed(rows, margin, queue@, cls, whole, 0)) by {
                        assert(piece_allowed(rows, margin, queue@[0], whole[0], cls));
                        assert(stamp_rows(rows, whole[0].0, adjusted_cells(rows, whole[0]))
                            == placed.rows_view());
                        assert(seq_allowed(placed.rows_view(), margin, queue@, cls, whole, 1));
                    }
                    lemma_seq_allowed_many_ok(rows, margin, queue@, cls, whole, 0);
                    assert forall|ps: Seq<Placement>| #[trigger] in_result(out@, ps) implies (
                    ps.len() == queue@.len() && seq_allowed(rows, margin, queue@, cls, ps, 0) && ((
                    exists|u: int| 0 <= u < i && firsts@[u] == ps[0]) || (ps[0] == p && (exists|
                        v: int,
                    |
                        0 <= v < j + 1 && (#[trigger] subs@[v])@ == ps.drop_first())))) by {
                        let t2 = choose|t2: int|
                            0 <= t2 < out@.len() && (#[trigger] out@[t2])@ == ps;
                        if t2 < prevout.len() {
                            assert(prevout[t2]@ == ps);
                            assert(in_result(prevout, ps)) by {
                                assert(prevout[t2]@ == ps);
                            }
                        } else {
                            assert(ps == whole);
                            assert(subs@[j as int]@ == ps.drop_first());
                        }
                    }
                    assert forall|ps: Seq<Placement>|
                        (ps.len() == queue@.len() && seq_allowed(rows, margin, queue@, cls, ps, 0)
                            && ((exists|u: int| 0 <= u < i && firsts@[u] == ps[0]) || (ps[0] == p
                            && (exists|v: int|
                            0 <= v < j + 1 && (#[trigger] subs@[v])@ == ps.drop_first()))))
                        implies #[trigger] in_result(out@, ps) by {
                        if (exists|u: int| 0 <= u < i && firsts@[u] == ps[0]) || (ps[0] == p && (
                        exists|v: int| 0 <= v < j && (#[trigger] subs@[v])@ == ps.drop_first())) {
                            assert(in_result(prevout, ps));
                            let t2 = choose|t2: int|
                                0 <= t2 < prevout.len() && (#[trigger] prevout[t2])@ == ps;
                            assert(out@[t2]@ == ps);
                        } else {
                            let v = choose|v: int|
                                0 <= v < j + 1 && (#[trigger] subs@[v])@ == ps.drop_first();
                            assert(v == j);
                            assert(ps =~= whole);
                            assert(out@[prevout.len() as int]@ == ps);
                        }
                    }
                }
                j = j + 1;
            }
            proof {
                assert forall|ps: Seq<Placement>| #[trigger] in_result(out@, ps) implies (ps.len()
                    == queue@.len() && seq_allowed(rows, margin, queue@, cls, ps, 0) && (exists|
                    u: int,
                |
                    0 <= u < i + 1 && firsts@[u] == ps[0])) by {
                    if ps[0] == p {
                        assert(firsts@[i as int] == ps[0]);
                    }
                }
                assert forall|ps: Seq<Placement>|
                    (ps.len() == queue@.len() && seq_allowed(rows, margin, queue@, cls, ps, 0) && (
                    exists|u: int| 0 <= u < i + 1 && firsts@[u] == ps[0]))
                    implies #[trigger] in_result(out@, ps) by {
                    let u = choose|u: int| 0 <= u < i + 1 && firsts@[u] == ps[0];
                    if u < i {
                    } else {
                        assert(ps[0] == p);
                        let tail = ps.drop_first();
                        assert(ps.len() >= 1);
                        assert(stamp_rows(rows, ps[0].0, adjusted_cells(rows, ps[0]))
                            == placed.rows_view());
                        assert(seq_allowed(placed.rows_view(), margin, queue@, cls, ps, 1));
                        lemma_seq_allowed_shift(placed.rows_view(), margin, queue@, cls, ps, 0);
                        assert(seq_allowed(placed.rows_view(), margin, rest@, cls, tail, 0));
                        assert(tail.len() == rest@.len());
                        assert(in_result(subs@, tail));
                        let v = choose|v: int|
                            0 <= v < subs@.len() && (#[trigger] subs@[v])@ == tail;
                        assert(seq![p] + tail =~= ps);
                    }
                }
            }
            i = i + 1;
        }
        proof {
            assert forall|ps: Seq<Placement>|
                (ps.len() == queue@.len() && seq_allowed(rows, margin, queue@, cls, ps, 0))
                implies #[trigger] in_result(out@, ps) by {
                assert(piece_allowed(rows, margin, queue@[0], ps[0], cls));
                assert(firsts@.contains(ps[0]));
                let u = choose|u: int| 0 <= u < firsts@.len() && (#[trigger] firsts@[u]) == ps[0];
            }
        }
        out
    }

    /// Whether every placement in the sequence is reachable on the board
    /// as it stands just before that placement.
    pub fn is_many_doable(&self, board: &Board, placements: &Vec<Placement>) -> (r: bool)
        requires
            board.wf(),
            board.spec_width() >= 2,
            many_ok(board.rows_view(), placements@, 0),
            self.program.args.handling.max < usize::MAX,
            forall|i: int| 0 <= i < placements@.len() ==> (#[trigger] placements@[i]).0.is_tetromino(),
        ensures
            r == spec_many_doable(
                board.rows_view(),
                board.margin as int,
                &self.program.args.handling,
                placements@,
                0,
            ),
    {
        let mut c = board.clone();
        let mut i: usize = 0;
        while i < placements.len()
            invariant
                i <= placements@.len(),
                board.wf(),
                c.wf(),
                c.margin == board.margin,
                c.spec_width() == board.spec_width(),
                board.spec_width() >= 2,
                self.program.args.handling.max < usize::MAX,
                c.rows_view().len() == board.rows_view().len(),
                many_ok(c.rows_view(), placements@, i as int),
                forall|t: int|
                    0 <= t < placements@.len() ==> (#[trigger] placements@[t]).0.is_tetromino(),
                spec_many_doable(
                    board.rows_view(),
                    board.margin as int,
                    &self.program.args.handling,
                    placements@,
                    0,
                ) == (spec_many_doable(
                    c.rows_view(),
                    board.margin as int,
                    &self.program.args.handling,
                    placements@,
                    i as int,
                )),
            decreases placements@.len() - i,
        {
            let p = placements[i];
            let spawn = c.spawn();
            if !p.is_doable(&c, spawn, self.handling()) {
                return false;
            }
            proof {
                lemma_stamp_width(c.rows_view(), p.0, adjusted_cells(c.rows_view(), p));
            }
            c.skim_place(p);
            i = i + 1;
        }
        true
    }

    /// Whether every successive placement keeps the growth in completely
    /// filled rows inside the range.
    pub fn keeps_continuous_clears(
        &self,
        board: &Board,
        placements: &Vec<Placement>,
        continuous_line_clears: Ranged,
    ) -> (r: bool)
        requires
            board.wf(),
            many_ok(board.rows_view(), placements@, 0),
            forall|i: int| 0 <= i < placements@.len() ==> (#[trigger] placements@[i]).0.is_tetromino(),
        ensures
            r == spec_keeps_clears(board.rows_view(), placements@, continuous_line_clears, 0),
    {
        let mut c = board.clone();
        let mut fulfilled = c.line_clears();
        let mut i: usize = 0;
        while i < placements.len()
            invariant
                i <= placements@.len(),
                c.wf(),
                c.margin == board.margin,
                fulfilled == count_full(c.rows_view()),
                many_ok(c.rows_view(), placements@, i as int),
                forall|t: int|
                    0 <= t < placements@.len() ==> (#[trigger] placements@[t]).0.is_tetromino(),
                spec_keeps_clears(board.rows_view(), placements@, continuous_line_clears, 0) == (
                spec_keeps_clears(c.rows_view(), placements@, continuous_line_clears, i as int)),
            decreases placements@.len() - i,
        {
            let p = placements[i];
            proof {
                lemma_stamp_count_mono(c.rows_view(), p.0, adjusted_cells(c.rows_view(), p));
            }
            c.skim_place(p);
            let clears = c.line_clears();
            let diff = clears - fulfilled;
            if !continuous_line_clears.contains(diff) {
                return false;
            }
            fulfilled = clears;
            i = i + 1;
        }
        true
    }
}

/// Whether every line-clear-aware cell of the placement lies in the
/// template spots.
pub open spec fn cells_in_template(
    rows: Seq<Seq<Piece>>,
    p: Placement,
    spots: Seq<(usize, usize)>,
) -> bool {
    forall|i: int|
        0 <= i < 4 ==> exists|j: int|
            0 <= j < spots.len() && ((#[trigger] spots[j]).0 as int, spots[j].1 as int) == (
            #[trigger] adjusted_cells(rows, p)[i])
}

impl Sfce {
    /// Every allowed placement of the piece whose cells all lie in the
    /// template spots.
    pub fn congruent_single(
        &self,
        board: &Board,
        cspots: &Vec<(usize, usize)>,
        piece: Piece,
    ) -> (r: Vec<Placement>)
        requires
            piece.is_tetromino(),
            board.wf(),
            board.spec_width() * board.spec_height() <= usize::MAX,
            board.spec_width() <= usize::MAX - 2,
            board.spec_height() <= usize::MAX - 3,
        ensures
            forall|p: Placement| #[trigger]
                r@.contains(p) <==> (piece_allowed(
                    board.rows_view(),
                    board.margin as int,
                    piece,
                    p,
                    Ranged { lo: None, hi: None },
                ) && cells_in_template(board.rows_view(), p, cspots@)),
            forall|i: int, j: int| 0 <= i < j < r@.len() ==> r@[i] != r@[j],
    {
        let ghost rows = board.rows_view();
        let ghost margin = board.margin as int;
        let wide = Ranged { lo: None, hi: None };
        let cands = self.all_placements_of_piece(board, piece, wide);
        proof {
            assert forall|t: int| 0 <= t < cands@.len() implies ((#[trigger] cands@[t]).0 == piece
                && cands@[t].0.is_tetromino() && adjusted_ok(board.rows_view(), cands@[t])) by {
                assert(cands@.contains(cands@[t]));
            }
        }
        let mut out: Vec<Placement> = Vec::new();
        let mut i: usize = 0;
        while i < cands.len()
            invariant
                i <= cands@.len(),
                piece.is_tetromino(),
                board.wf(),
                rows == board.rows_view(),
                margin == board.margin as int,
                wide == (Ranged { lo: None, hi: None }),
                forall|t: int|
                    0 <= t < cands@.len() ==> ((#[trigger] cands@[t]).0 == piece
                        && cands@[t].0.is_tetromino() && adjusted_ok(rows, cands@[t])),
                forall|q: Placement| #[trigger]
                    cands@.contains(q) <==> piece_allowed(rows, margin, piece, q, wide),
                forall|t: int, u: int| 0 <= t < u < cands@.len() ==> cands@[t] != cands@[u],
                forall|t: int, u: int| 0 <= t < u < out@.len() ==> out@[t] != out@[u],
                forall|q: Placement| #[trigger]
                    out@.contains(q) <==> ((exists|t: int| 0 <= t < i && cands@[t] == q)
                        && cells_in_template(rows, q, cspots@)),
            decreases cands@.len() - i,
        {
            let p = cands[i];
            let ghost prev = out@;
            let cells = board.adjusted_piece_offsets(p).unwrap();
            let mut all_in = true;
            let mut ci: usize = 0;
            while ci < cells.len()
                invariant
                    ci <= cells@.len(),
                    cells@.len() == 4,
                    rows == board.rows_view(),
                    forall|t: int|
                        0 <= t < 4 ==> ((#[trigger] cells@[t]).0 as int, cells@[t].1 as int)
                            == adjusted_cells(rows, p)[t],
                    all_in == forall|t: int|
                        0 <= t < ci ==> exists|j: int|
                            0 <= j < cspots@.len() && ((#[trigger] cspots@[j]).0 as int,
                            cspots@[j].1 as int) == (#[trigger] adjusted_cells(rows, p)[t]),
                decreases cells@.len() - ci,
            {
                let (cx, cy) = cells[ci];
                let mut found = false;
                let mut j: usize = 0;
                while j < cspots.len()
                    invariant
                        j <= cspots@.len(),
                        found == exists|t: int|
                            0 <= t < j && (#[trigger] cspots@[t]) == (cx, cy),
                    decreases cspots@.len() - j,
                {
                    let sp = cspots[j];
                    if sp.0 == cx && sp.1 == cy {
                        proof {
                            assert(cspots@[j as int] == (cx, cy));
                        }
                        found = true;
                    }
                    j = j + 1;
                }
                proof {
                    if found {
                        let t = choose|t: int|
                            0 <= t < cspots@.len() && (#[trigger] cspots@[t]) == (cx, cy);
                        assert(((cspots@[t]).0 as int, cspots@[t].1 as int) == adjusted_cells(
                            rows,
                            p,
                        )[ci as int]);
                    } else {
                        if exists|j2: int|
                            0 <= j2 < cspots@.len() && ((#[trigger] cspots@[j2]).0 as int,
                            cspots@[j2].1 as int) == adjusted_cells(rows, p)[ci as int] {
                            let j2 = choose|j2: int|
                                0 <= j2 < cspots@.len() && ((#[trigger] cspots@[j2]).0 as int,
                                cspots@[j2].1 as int) == adjusted_cells(rows, p)[ci as int];
                            assert(cspots@[j2] == (cx, cy));
                        }
                    }
                }
                if !found {
                    all_in = false;
                }
                ci = ci + 1;
            }
            proof {
                if all_in {
                    assert forall|t: int| 0 <= t < 4 implies exists|j: int|
                        0 <= j < cspots@.len() && ((#[trigger] cspots@[j]).0 as int,
                        cspots@[j].1 as int) == (#[trigger] adjusted_cells(rows, p)[t]) by {
                        let c = adjusted_cells(rows, p)[t];
                        assert(exists|j: int|
                            0 <= j < cspots@.len() && ((#[trigger] cspots@[j]).0 as int,
                            cspots@[j].1 as int) == c);
                    }
                    let c0 = adjusted_cells(rows, p)[0];
                    let c1 = adjusted_cells(rows, p)[1];
                    let c2 = adjusted_cells(rows, p)[2];
                    let c3 = adjusted_cells(rows, p)[3];
                    assert(cells_in_template(rows, p, cspots@));
                } else {
                    assert(!cells_in_template(rows, p, cspots@)) by {
                        if cells_in_template(rows, p, cspots@) {
                            assert forall|t: int| 0 <= t < 4 implies exists|j: int|
                                0 <= j < cspots@.len() && ((#[trigger] cspots@[j]).0 as int,
                                cspots@[j].1 as int) == (#[trigger] adjusted_cells(
                                rows,
                                p,
                            )[t]) by {
                                let c = adjusted_cells(rows, p)[t];
                                assert(exists|j: int|
                                    0 <= j < cspots@.len() && ((#[trigger] cspots@[j]).0 as int,
                                    cspots@[j].1 as int) == c);
                            }
                            assert(all_in);
                        }
                    }
                }
            }
            if all_in {
                proof {
                    assert(!prev.contains(p)) by {
                        if prev.contains(p) {
                            let t = choose|t: int| 0 <= t < i && cands@[t] == p;
                            assert(cands@[t] == cands@[i as int]);
                        }
                    }
                }
                out.push(p);
            }
            proof {
                assert forall|q: Placement| #[trigger] out@.contains(q) implies ((exists|t: int|
                    0 <= t < i + 1 && cands@[t] == q) && cells_in_template(rows, q, cspots@)) by {
                    if prev.contains(q) {
                        let t = choose|t: int| 0 <= t < i && cands@[t] == q;
                        assert(cands@[t] == q);
                    } else {
                        let t2 = choose|t2: int| 0 <= t2 < out@.len() && out@[t2] == q;
                        assert(q == p);
                        assert(cands@[i as int] == q);
                    }
                }
                assert forall|q: Placement|
                    ((exists|t: int| 0 <= t < i + 1 && cands@[t] == q) && cells_in_template(
                        rows,
                        q,
                        cspots@,
                    )) implies #[trigger] out@.contains(q) by {
                    let t = choose|t: int| 0 <= t < i + 1 && cands@[t] == q;
                    if t < i {
                        assert(prev.contains(q));
                        let u = choose|u: int| 0 <= u < prev.len() && prev[u] == q;
                        assert(out@[u] == q);
                    } else {
                        assert(q == p);
                        assert(all_in);
                        assert(out@[prev.len() as int] == q);
                    }
                }
            }
            i = i + 1;
        }
        proof {
            assert forall|q: Placement| #[trigger] out@.contains(q) implies (piece_allowed(
                rows,
                margin,
                piece,
                q,
                wide,
            ) && cells_in_template(rows, q, cspots@)) by {
                let t = choose|t: int| 0 <= t < cands@.len() && cands@[t] == q;
                assert(cands@.contains(q)) by {
                    assert(cands@[t] == q);
                }
            }
            assert forall|q: Placement|
                (piece_allowed(rows, margin, piece, q, wide) && cells_in_template(
                    rows,
                    q,
                    cspots@,
                )) implies #[trigger] out@.contains(q) by {
                assert(cands@.contains(q));
                let t = choose|t: int| 0 <= t < cands@.len() && (#[trigger] cands@[t]) == q;
            }
        }
        out
    }

    /// Every placement sequence of the queue whose cells all lie inside
    /// the template, each placement on the board produced by the ones
    /// before it; the spots a placement covers are withdrawn for the rest
    /// of the queue. Every such sequence appears.
    pub fn congruent_many(
        &self,
        board: &Board,
        cspots: &Vec<(usize, usize)>,
        queue: &Vec<Piece>,
    ) -> (r: Vec<Vec<Placement>>)
        requires
            board.wf(),
            board.spec_width() * board.spec_height() <= usize::MAX,
            board.spec_width() <= usize::MAX - 2,
            board.spec_height() <= usize::MAX - 3,
            forall|i: int| 0 <= i < queue@.len() ==> (#[trigger] queue@[i]).is_tetromino(),
        ensures
            forall|i: int|
                0 <= i < r@.len() ==> (#[trigger] r@[i])@.len() == queue@.len() && many_ok(
                    board.rows_view(),
                    r@[i]@,
                    0,
                ),
            forall|ps: Seq<Placement>| #[trigger]
                in_result(r@, ps) <==> (ps.len() == queue@.len() && congruent_allowed(
                    board.rows_view(),
                    board.margin as int,
                    cspots@,
                    queue@,
                    ps,
                    0,
                )),
        decreases queue@.len(),
    {
        let ghost rows = board.rows_view();
        let ghost margin = board.margin as int;
        let mut out: Vec<Vec<Placement>> = Vec::new();
        if queue.len() == 0 {
            out.push(Vec::new());
            proof {
                assert(out@[0]@ =~= Seq::<Placement>::empty());
                assert forall|ps: Seq<Placement>| #[trigger] in_result(out@, ps) implies (ps.len()
                    == queue@.len() && congruent_allowed(rows, margin, cspots@, queue@, ps, 0)) by {
                    let t = choose|t: int| 0 <= t < out@.len() && (#[trigger] out@[t])@ == ps;
                    assert(ps =~= Seq::<Placement>::empty());
                }
                assert forall|ps: Seq<Placement>|
                    ps.len() == queue@.len() && congruent_allowed(
                        rows,
                        margin,
                        cspots@,
                        queue@,
                        ps,
                        0,
                    ) implies #[trigger] in_result(out@, ps) by {
                    assert(out@[0]@ =~= ps);
                }
            }
            return out;
        }
        let piece = queue[0];
        let rest = crate::pattern::tail_pieces(queue);
        let firsts = self.congruent_single(board, cspots, piece);
        proof {
            assert forall|t: int| 0 <= t < firsts@.len() implies ((#[trigger] firsts@[t]).0
                == piece && firsts@[t].0.is_tetromino() && adjusted_ok(
                board.rows_view(),
                firsts@[t],
            )) by {
                assert(firsts@.contains(firsts@[t]));
            }
        }
        let mut i: usize = 0;
        while i < firsts.len()
            invariant
                i <= firsts@.len(),
                board.wf(),
                rows == board.rows_view(),
                margin == board.margin as int,
                board.spec_width() * board.spec_height() <= usize::MAX,
                board.spec_width() <= usize::MAX - 2,
                board.spec_height() <= usize::MAX - 3,
                queue@.len() > 0,
                piece == queue@[0],
                rest@ == queue@.drop_first(),
                forall|t: int| 0 <= t < queue@.len() ==> (#[trigger] queue@[t]).is_tetromino(),
                forall|t: int|
                    0 <= t < firsts@.len() ==> ((#[trigger] firsts@[t]).0 == piece
                        && firsts@[t].0.is_tetromino() && adjusted_ok(rows, firsts@[t])),
                forall|q: Placement| #[trigger]
                    firsts@.contains(q) <==> (piece_allowed(
                        rows,
                        margin,
                        piece,
                        q,
                        Ranged { lo: None, hi: None },
                    ) && cells_in_template(rows, q, cspots@)),
                forall|t: int, u: int| 0 <= t < u < firsts@.len() ==> firsts@[t] != firsts@[u],
                forall|t: int|
                    0 <= t < out@.len() ==> (#[trigger] out@[t])@.len() == queue@.len() && many_ok(
                        rows,
                        out@[t]@,
                        0,
                    ),
                forall|ps: Seq<Placement>| #[trigger]
                    in_result(out@, ps) <==> (ps.len() == queue@.len() && congruent_allowed(
                        rows,
                        margin,
                        cspots@,
                        queue@,
                        ps,
                        0,
                    ) && (exists|u: int| 0 <= u < i && firsts@[u] == ps[0])),
            decreases firsts@.len() - i,
        {
            let p = firsts[i];
            let placed = board.with_placement(p);
            let pcells = board.adjusted_piece_offsets(p).unwrap();
            let mut nc: Vec<(usize, usize)> = Vec::new();
            let mut si: usize = 0;
            while si < cspots.len()
                invariant
                    si <= cspots@.len(),
                    rows == board.rows_view(),
                    pcells@.len() == 4,
                    forall|t: int|
                        0 <= t < 4 ==> ((#[trigger] pcells@[t]).0 as int, pcells@[t].1 as int)
                            == adjusted_cells(rows, p)[t],
                    nc@ =~= spots_minus(cspots@.take(si as int), adjusted_cells(rows, p)),
                decreases cspots@.len() - si,
            {
                proof {
                    assert(cspots@.take(si + 1).drop_last() =~= cspots@.take(si as int));
                    assert(cspots@.take(si + 1).last() == cspots@[si as int]);
                }
                let sp = cspots[si];
                let mut covered = false;
                let mut t: usize = 0;
                while t < pcells.len()
                    invariant
                        t <= pcells@.len(),
                        rows == board.rows_view(),
                        pcells@.len() == 4,
                        forall|u: int|
                            0 <= u < 4 ==> ((#[trigger] pcells@[u]).0 as int,
                            pcells@[u].1 as int) == adjusted_cells(rows, p)[u],
                        covered == exists|u: int|
                            0 <= u < t && (sp.0 as int, sp.1 as int) == (
                            #[trigger] adjusted_cells(rows, p)[u]),
                    decreases pcells@.len() - t,
                {
                    let c = pcells[t];
                    if c.0 == sp.0 && c.1 == sp.1 {
                        proof {
                            assert((sp.0 as int, sp.1 as int) == adjusted_cells(rows, p)[t as int]);
                        }
                        covered = true;
                    }
                    t = t + 1;
                }
                proof {
                    assert(covered == spot_covered(cspots@[si as int], adjusted_cells(rows, p)));
                }
                if !covered {
                    nc.push(sp);
                }
                proof {
                    assert(nc@ =~= spots_minus(cspots@.take(si + 1), adjusted_cells(rows, p)));
                }
                si = si + 1;
            }
            proof {
                assert(cspots@.take(cspots@.len() as int) =~= cspots@);
                assert(nc@ == spots_minus(cspots@, adjusted_cells(rows, p)));
                assert(placed.spec_width() == board.spec_width() && placed.spec_height()
                    == board.spec_height()) by {
                    assert(placed.rows_view().len() == board.rows_view().len());
                    lemma_stamp_width(rows, p.0, adjusted_cells(rows, p));
                }
            }
            let subs = self.congruent_many(&placed, &nc, &rest);
            let mut j: usize = 0;
            while j < subs.len()
                invariant
                    j <= subs@.len(),
                    board.wf(),
                    rows == board.rows_view(),
                    margin == board.margin as int,
                    queue@.len() > 0,
                    piece == queue@[0],
                    rest@ == queue@.drop_first(),
                    forall|t: int| 0 <= t < queue@.len() ==> (#[trigger] queue@[t]).is_tetromino(),
                    i < firsts@.len(),
                    p == firsts@[i as int],
                    p.0 == piece,
                    p.0.is_tetromino(),
                    adjusted_ok(rows, p),
                    firsts@.contains(p),
                    forall|q: Placement| #[trigger]
                        firsts@.contains(q) <==> (piece_allowed(
                            rows,
                            margin,
                            piece,
                            q,
                            Ranged { lo: None, hi: None },
                        ) && cells_in_template(rows, q, cspots@)),
                    placed.margin == board.margin,
                    placed.rows_view() == stamp_rows(rows, p.0, adjusted_cells(rows, p)),
                    nc@ == spots_minus(cspots@, adjusted_cells(rows, p)),
                    forall|t: int|
                        0 <= t < subs@.len() ==> (#[trigger] subs@[t])@.len() == rest@.len()
                            && many_ok(placed.rows_view(), subs@[t]@, 0),
                    forall|tail: Seq<Placement>| #[trigger]
                        in_result(subs@, tail) <==> (tail.len() == rest@.len()
                            && congruent_allowed(
                            placed.rows_view(),
                            margin,
                            nc@,
                            rest@,
                            tail,
                            0,
                        )),
                    forall|t: int|
                        0 <= t < out@.len() ==> (#[trigger] out@[t])@.len() == queue@.len()
                            && many_ok(rows, out@[t]@, 0),
                    forall|ps: Seq<Placement>| #[trigger]
                        in_result(out@, ps) <==> (ps.len() == queue@.len() && congruent_allowed(
                            rows,
                            margin,
                            cspots@,
                            queue@,
                            ps,
                            0,
                        ) && ((exists|u: int| 0 <= u < i && firsts@[u] == ps[0]) || (ps[0] == p
                            && (exists|v: int|
                            0 <= v < j && (#[trigger] subs@[v])@ == ps.drop_first())))),
                decreases subs@.len() - j,
            {
                let mut seqv: Vec<Placement> = Vec::new();
                seqv.push(p);
                let src = &subs[j];
                let mut t: usize = 0;
                while t < src.len()
                    invariant
                        t <= src@.len(),
                        seqv@ =~= seq![p] + src@.take(t as int),
                    decreases src@.len() - t,
                {
                    seqv.push(src[t]);
                    proof {
                        assert(seqv@ =~= seq![p] + src@.take(t + 1));
                    }
                    t = t + 1;
                }
                proof {
                    assert(src@.take(src@.len() as int) =~= src@);
                    assert(seqv@ == seq![p] + subs@[j as int]@);
                }
                let ghost prevout = out@;
                out.push(seqv);
                proof {
                    let whole = seq![p] + subs@[j as int]@;
                    let tail = subs@[j as int]@;
                    assert(out@[prevout.len() as int]@ == whole);
                    assert(whole.drop_first() =~= tail);
                    assert(whole[0] == p);
                    assert(in_result(subs@, tail)) by {
                        assert(subs@[j as int]@ == tail);
                    }
                    assert(congruent_allowed(placed.rows_view(), margin, nc@, rest@, tail, 0));
                    lemma_congruent_allowed_shift(
                        placed.rows_view(),
                        margin,
                        nc@,
                        queue@,
                        cspots@,
                        whole,
                        0,
                    );
                    assert(congruent_allowed(rows, margin, cspots@, queue@, whole, 0)) by {
                        assert(piece_allowed(
                            rows,
                            margin,
                            queue@[0],
                            whole[0],
                            Ranged { lo: None, hi: None },
                        ));
                        assert(cells_in_template(rows, whole[0], cspots@));
                        assert(stamp_rows(rows, whole[0].0, adjusted_cells(rows, whole[0]))
                            == placed.rows_view());
                        assert(spots_minus(cspots@, adjusted_cells(rows, whole[0])) == nc@);
                        assert(congruent_allowed(placed.rows_view(), margin, nc@, queue@, whole, 1));
                    }
                    lemma_congruent_allowed_many_ok(rows, margin, cspots@, queue@, whole, 0);
                    assert forall|ps: Seq<Placement>| #[trigger] in_result(out@, ps) implies (
                    ps.len() == queue@.len() && congruent_allowed(
                        rows,
                        margin,
                        cspots@,
                        queue@,
                        ps,
                        0,
                    ) && ((exists|u: int| 0 <= u < i && firsts@[u] == ps[0]) || (ps[0] == p && (
                    exists|v: int|
                        0 <= v < j + 1 && (#[trigger] subs@[v])@ == ps.drop_first())))) by {
                        let t2 = choose|t2: int|
                            0 <= t2 < out@.len() && (#[trigger] out@[t2])@ == ps;
                        if t2 < prevout.len() {
                            assert(prevout[t2]@ == ps);
                            assert(in_result(prevout, ps)) by {
                                assert(prevout[t2]@ == ps);
                            }
                        } else {
                            assert(ps == whole);
                            assert(subs@[j as int]@ == ps.drop_first());
                        }
                    }
                    assert forall|ps: Seq<Placement>|
                        (ps.len() == queue@.len() && congruent_allowed(
                            rows,
                            margin,
                            cspots@,
                            queue@,
                            ps,
                            0,
                        ) && ((exists|u: int| 0 <= u < i && firsts@[u] == ps[0]) || (ps[0] == p
                            && (exists|v: int|
                            0 <= v < j + 1 && (#[trigger] subs@[v])@ == ps.drop_first()))))
                        implies #[trigger] in_result(out@, ps) by {
                        if (exists|u: int| 0 <= u < i && firsts@[u] == ps[0]) || (ps[0] == p && (
                        exists|v: int| 0 <= v < j && (#[trigger] subs@[v])@ == ps.drop_first())) {
                            assert(in_result(prevout, ps));
                            let t2 = choose|t2: int|
                                0 <= t2 < prevout.len() && (#[trigger] prevout[t2])@ == ps;
                            assert(out@[t2]@ == ps);
                        } else {
                            let v = choose|v: int|
                                0 <= v < j + 1 && (#[trigger] subs@[v])@ == ps.drop_first();
                            assert(v == j);
                            assert(ps =~= whole);
                            assert(out@[prevout.len() as int]@ == ps);
                        }
                    }
                }
                j = j + 1;
            }
            proof {
                assert forall|ps: Seq<Placement>| #[trigger] in_result(out@, ps) implies (ps.len()
                    == queue@.len() && congruent_allowed(rows, margin, cspots@, queue@, ps, 0) && (
                exists|u: int| 0 <= u < i + 1 && firsts@[u] == ps[0])) by {
                    if ps[0] == p {
                        assert(firsts@[i as int] == ps[0]);
                    }
                }
                assert forall|ps: Seq<Placement>|
                    (ps.len() == queue@.len() && congruent_allowed(
                        rows,
                        margin,
                        cspots@,
                        queue@,
                        ps,
                        0,
                    ) && (exists|u: int| 0 <= u < i + 1 && firsts@[u] == ps[0]))
                    implies #[trigger] in_result(out@, ps) by {
                    let u = choose|u: int| 0 <= u < i + 1 && firsts@[u] == ps[0];
                    if u < i {
                    } else {
                        assert(ps[0] == p);
                        let tail = ps.drop_first();
                        assert(ps.len() >= 1);
                        assert(stamp_rows(rows, ps[0].0, adjusted_cells(rows, ps[0]))
                            == placed.rows_view());
                        assert(spots_minus(cspots@, adjusted_cells(rows, ps[0])) == nc@);
                        assert(congruent_allowed(placed.rows_view(), margin, nc@, queue@, ps, 1));
                        lemma_congruent_allowed_shift(
                            placed.rows_view(),
                            margin,
                            nc@,
                            queue@,
                            cspots@,
                            ps,
                            0,
                        );
                        assert(congruent_allowed(placed.rows_view(), margin, nc@, rest@, tail, 0));
                        assert(tail.len() == rest@.len());
                        assert(in_result(subs@, tail));
                        let v = choose|v: int|
                            0 <= v < subs@.len() && (#[trigger] subs@[v])@ == tail;
                        assert(seq![p] + tail =~= ps);
                    }
                }
            }
            i = i + 1;
        }
        proof {
            assert forall|ps: Seq<Placement>|
                (ps.len() == queue@.len() && congruent_allowed(
                    rows,
                    margin,
                    cspots@,
                    queue@,
                    ps,
                    0,
                )) implies #[trigger] in_result(out@, ps) by {
                assert(piece_allowed(
                    rows,
                    margin,
                    queue@[0],
                    ps[0],
                    Ranged { lo: None, hi: None },
                ));
                assert(cells_in_template(rows, ps[0], cspots@));
                assert(firsts@.contains(ps[0]));
                let u = choose|u: int| 0 <= u < firsts@.len() && (#[trigger] firsts@[u]) == ps[0];
            }
        }
        out
    }
}

/// Whether a template spot is one of the placement's cells.
pub open spec fn spot_covered(s: (usize, usize), cells: Seq<(int, int)>) -> bool {
    exists|u: int| 0 <= u < 4 && (s.0 as int, s.1 as int) == (#[trigger] cells[u])
}

/// The template spots that are not covered by the placement's cells, in
/// order.
pub open spec fn spots_minus(spots: Seq<(usize, usize)>, cells: Seq<(int, int)>) -> Seq<
    (usize, usize),
>
    decreases spots.len(),
{
    if spots.len() == 0 {
        Seq::empty()
    } else {
        spots_minus(spots.drop_last(), cells) + if spot_covered(spots.last(), cells) {
            Seq::<(usize, usize)>::empty()
        } else {
            seq![spots.last()]
        }
    }
}

/// Whether a placement sequence realizes the queue inside the template
/// from position `i` on: each placement is allowed, its cells lie in the
/// remaining spots, and the spots it covers are withdrawn for the rest.
pub open spec fn congruent_allowed(
    rows: Seq<Seq<Piece>>,
    margin: int,
    spots: Seq<(usize, usize)>,
    queue: Seq<Piece>,
    ps: Seq<Placement>,
    i: int,
) -> bool
    decreases queue.len() - i,
{
    if i < 0 || i >= queue.len() {
        true
    } else {
        &&& piece_allowed(rows, margin, queue[i], ps[i], Ranged { lo: None, hi: None })
        &&& cells_in_template(rows, ps[i], spots)
        &&& congruent_allowed(
            stamp_rows(rows, ps[i].0, adjusted_cells(rows, ps[i])),
            margin,
            spots_minus(spots, adjusted_cells(rows, ps[i])),
            queue,
            ps,
            i + 1,
        )
    }
}

/// Realizing the tail of a queue inside the template is realizing the
/// shortened queue.
pub proof fn lemma_congruent_allowed_shift(
    rows: Seq<Seq<Piece>>,
    margin: int,
    spots: Seq<(usize, usize)>,
    queue: Seq<Piece>,
    orig_spots: Seq<(usize, usize)>,
    ps: Seq<Placement>,
    i: int,
)
    requires
        0 <= i,
        queue.len() >= 1,
        ps.len() == queue.len(),
    ensures
        congruent_allowed(rows, margin, spots, queue, ps, i + 1) == congruent_allowed(
            rows,
            margin,
            spots,
            queue.drop_first(),
            ps.drop_first(),
            i,
        ),
    decreases queue.len() - i,
{
    if i + 1 < queue.len() {
        assert(queue.drop_first()[i] == queue[i + 1]);
        assert(ps.drop_first()[i] == ps[i + 1]);
        lemma_congruent_allowed_shift(
            stamp_rows(rows, ps[i + 1].0, adjusted_cells(rows, ps[i + 1])),
            margin,
            spots_minus(spots, adjusted_cells(rows, ps[i + 1])),
            queue,
            orig_spots,
            ps,
            i + 1,
        );
    }
}

/// A realized template sequence is a well-defined placement chain.
pub proof fn lemma_congruent_allowed_many_ok(
    rows: Seq<Seq<Piece>>,
    margin: int,
    spots: Seq<(usize, usize)>,
    queue: Seq<Piece>,
    ps: Seq<Placement>,
    i: int,
)
    requires
        ps.len() == queue.len(),
        forall|t: int| 0 <= t < queue.len() ==> (#[trigger] queue[t]).is_tetromino(),
        congruent_allowed(rows, margin, spots, queue, ps, i),
        0 <= i,
    ensures
        many_ok(rows, ps, i),
    decreases queue.len() - i,
{
    if i < queue.len() {
        lemma_congruent_allowed_many_ok(
            stamp_rows(rows, ps[i].0, adjusted_cells(rows, ps[i])),
            margin,
            spots_minus(spots, adjusted_cells(rows, ps[i])),
            queue,
            ps,
            i + 1,
        );
    }
}

/// Placing a chain of pieces changes no row length and no row count.
pub proof fn lemma_many_placed_dims(rows: Seq<Seq<Piece>>, ps: Seq<Placement>, i: int)
    ensures
        many_placed(rows, ps, i).len() == rows.len(),
        crate::board::max_row_len(many_placed(rows, ps, i)) == crate::board::max_row_len(rows),
        forall|y: int|
            0 <= y < rows.len() ==> (#[trigger] many_placed(rows, ps, i)[y]).len()
                == rows[y].len(),
    decreases ps.len() - i,
{
    if 0 <= i < ps.len() {
        let st = stamp_rows(rows, ps[i].0, adjusted_cells(rows, ps[i]));
        lemma_stamp_width(rows, ps[i].0, adjusted_cells(rows, ps[i]));
        lemma_many_placed_dims(st, ps, i + 1);
    }
}

impl Board {
    /// The visible cells that hold the given color, in scan order.
    pub fn spots_of_color(&self, color: Piece) -> (r: Vec<(usize, usize)>)
        requires
            self.wf(),
        ensures
            forall|i: int|
                0 <= i < r@.len() ==> self.spec_get(
                    (#[trigger] r@[i]).0 as int,
                    r@[i].1 as int,
                ) == color && r@[i].1 < self.spec_height() && r@[i].0 < self.spec_width(),
            forall|x: usize, y: usize|
                x < self.spec_width() && y < self.spec_height() && self.spec_get(
                    x as int,
                    y as int,
                ) == color ==> #[trigger] r@.contains((x, y)),
            forall|i: int, j: int| 0 <= i < j < r@.len() ==> r@[i] != r@[j],
    {
        let w = self.width();
        let h = self.height();
        let mut out: Vec<(usize, usize)> = Vec::new();
        let mut y: usize = 0;
        while y < h
            invariant
                y <= h,
                self.wf(),
                w == self.spec_width(),
                h == self.spec_height(),
                forall|i: int|
                    0 <= i < out@.len() ==> self.spec_get(
                        (#[trigger] out@[i]).0 as int,
                        out@[i].1 as int,
                    ) == color && out@[i].1 < self.spec_height() && out@[i].0
                        < self.spec_width(),
                forall|xx: usize, yy: usize|
                    xx < w && yy < y && self.spec_get(xx as int, yy as int) == color
                        ==> #[trigger] out@.contains((xx, yy)),
                forall|i: int, j: int| 0 <= i < j < out@.len() ==> out@[i] != out@[j],
                forall|i: int| 0 <= i < out@.len() ==> (#[trigger] out@[i]).1 < y,
            decreases h - y,
        {
            let mut x: usize = 0;
            while x < w
                invariant
                    x <= w,
                    y < h,
                    self.wf(),
                    w == self.spec_width(),
                    h == self.spec_height(),
                    forall|i: int|
                        0 <= i < out@.len() ==> self.spec_get(
                            (#[trigger] out@[i]).0 as int,
                            out@[i].1 as int,
                        ) == color && out@[i].1 < self.spec_height() && out@[i].0
                            < self.spec_width(),
                    forall|xx: usize, yy: usize|
                        xx < w && yy < y && self.spec_get(xx as int, yy as int) == color
                            ==> #[trigger] out@.contains((xx, yy)),
                    forall|xx: usize|
                        xx < x && self.spec_get(xx as int, y as int) == color
                            ==> #[trigger] out@.contains((xx, y)),
                    forall|i: int, j: int| 0 <= i < j < out@.len() ==> out@[i] != out@[j],
                    forall|i: int|
                        0 <= i < out@.len() ==> ((#[trigger] out@[i]).1 < y || (out@[i].1 == y
                            && out@[i].0 < x)),
                decreases w - x,
            {
                if crate::kick::piece_eq(self.get(x, y), color) {
                    let ghost prev = out@;
                    out.push((x, y));
                    proof {
                        assert(out@[prev.len() as int] == (x, y));
                        assert forall|xx: usize, yy: usize|
                            prev.contains((xx, yy)) implies #[trigger] out@.contains((xx, yy)) by {
                            let i = choose|i: int|
                                0 <= i < prev.len() && #[trigger] prev[i] == (xx, yy);
                            assert(out@[i] == (xx, yy));
                        }
                    }
                }
                x = x + 1;
            }
            y = y + 1;
        }
        out
    }

    /// The board with every cell of the given color emptied.
    pub fn without_color(&self, color: Piece) -> (r: Board)
        ensures
            r.rows_view().len() == self.rows_view().len(),
            forall|y: int|
                0 <= y < self.rows_view().len() ==> (#[trigger] r.rows_view()[y]).len()
                    == self.rows_view()[y].len(),
            forall|x: int, y: int|
                0 <= y < self.rows_view().len() && 0 <= x < self.rows_view()[y].len()
                    ==> #[trigger] r.rows_view()[y][x] == (if self.rows_view()[y][x] == color {
                    Piece::E
                } else {
                    self.rows_view()[y][x]
                }),
            r.comment == self.comment,
            r.margin == self.margin,
    {
        let mut data: Vec<Vec<Piece>> = Vec::new();
        let mut y: usize = 0;
        while y < self.data.len()
            invariant
                y <= self.data@.len(),
                data@.len() == y,
                forall|j: int|
                    0 <= j < y ==> (#[trigger] data@[j]@).len() == self.rows_view()[j].len(),
                forall|j: int, x: int|
                    0 <= j < y && 0 <= x < self.rows_view()[j].len() ==> #[trigger] data@[j]@[x]
                        == (if self.rows_view()[j][x] == color {
                        Piece::E
                    } else {
                        self.rows_view()[j][x]
                    }),
            decreases self.data@.len() - y,
        {
            let src = &self.data[y];
            let mut row: Vec<Piece> = Vec::new();
            let mut x: usize = 0;
            while x < src.len()
                invariant
                    x <= src@.len(),
                    row@.len() == x,
                    forall|i: int|
                        0 <= i < x ==> #[trigger] row@[i] == (if src@[i] == color {
                            Piece::E
                        } else {
                            src@[i]
                        }),
                decreases src@.len() - x,
            {
                let c = src[x];
                if crate::kick::piece_eq(c, color) {
                    row.push(Piece::E);
                } else {
                    row.push(c);
                }
                x = x + 1;
            }
            data.push(row);
            y = y + 1;
        }
        Board { data, comment: crate::board::clone_comment(&self.comment), margin: self.margin }
    }
}

/// The rows with every cell of the given color emptied.
pub open spec fn uncolored(rows: Seq<Seq<Piece>>, color: Piece) -> Seq<Seq<Piece>> {
    Seq::new(
        rows.len(),
        |y: int|
            Seq::new(
                rows[y].len(),
                |x: int|
                    if rows[y][x] == color {
                        Piece::E
                    } else {
                        rows[y][x]
                    },
            ),
    )
}

/// Whether a spots list holds exactly the visible cells of the color:
/// each entry is such a cell, and every such cell appears.
pub open spec fn spots_of(b: Board, color: Piece, spots: Seq<(usize, usize)>) -> bool {
    &&& (forall|i: int|
        0 <= i < spots.len() ==> b.spec_get((#[trigger] spots[i]).0 as int, spots[i].1 as int)
            == color && spots[i].1 < b.spec_height() && spots[i].0 < b.spec_width())
    &&& (forall|x: usize, y: usize|
        x < b.spec_width() && y < b.spec_height() && b.spec_get(x as int, y as int) == color
            ==> #[trigger] spots.contains((x, y)))
}

/// A placement sequence the congruence command owes a page for: it
/// realizes a played queue of the pattern inside the template spots and
/// is reachable piece by piece.
pub open spec fn congruent_wanted(
    rows: Seq<Seq<Piece>>,
    margin: int,
    h: &crate::input::Handling,
    no_hold: bool,
    queues: Seq<Seq<Piece>>,
    spots: Seq<(usize, usize)>,
    ps: Seq<Placement>,
) -> bool {
    exists|qv: Seq<Piece>, hq: Seq<Piece>|
        {
            &&& #[trigger] queues.contains(qv)
            &&& crate::render::all_tetrominoes(qv)
            &&& #[trigger] crate::render::hold_link(no_hold, qv, hq)
            &&& ps.len() == hq.len()
            &&& congruent_allowed(rows, margin, spots, hq, ps, 0)
            &&& spec_many_doable(rows, margin, h, ps, 0)
        }
}

/// Whether one page is the board some wanted sequence leaves behind.
pub open spec fn page_explained(
    pages: Seq<Board>,
    i: int,
    rows: Seq<Seq<Piece>>,
    margin: int,
    h: &crate::input::Handling,
    no_hold: bool,
    queues: Seq<Seq<Piece>>,
    spots: Seq<(usize, usize)>,
) -> bool {
    exists|ps: Seq<Placement>|
        congruent_wanted(rows, margin, h, no_hold, queues, spots, ps) && pages[i].rows_view()
            == crate::board::many_placed(rows, ps, 0)
}

/// Whether the pages are exactly the boards of the wanted sequences for
/// one spots list: each page realizes a wanted sequence, and every wanted
/// sequence has its board among the pages.
pub open spec fn congruent_pages_ok(
    pages: Seq<Board>,
    rows: Seq<Seq<Piece>>,
    margin: int,
    h: &crate::input::Handling,
    no_hold: bool,
    queues: Seq<Seq<Piece>>,
    spots: Seq<(usize, usize)>,
) -> bool {
    &&& (forall|i: int|
        0 <= i < pages.len() ==> #[trigger] page_explained(
            pages,
            i,
            rows,
            margin,
            h,
            no_hold,
            queues,
            spots,
        ))
    &&& (forall|ps: Seq<Placement>| #[trigger]
        congruent_wanted(rows, margin, h, no_hold, queues, spots, ps)
            ==> crate::render::board_in(pages, crate::board::many_placed(rows, ps, 0)))
}

impl Sfce {
    /// Run the congruence command: for each queue and hold variant, every
    /// reachable placement sequence confined to the template cells of the
    /// given color contributes the board it leaves behind, and nothing
    /// else does.
    pub fn congruent_command(
        &mut self,
        tetfu: &crate::grid::Grid,
        pattern: &Pattern,
        color: Piece,
    ) -> (pages: Vec<Board>)
        requires
            pattern.spec_counts_ok(),
            tetfu.0@.len() > 0,
            tetfu.0@[0].wf(),
            tetfu.0@[0].spec_width() >= 2,
            tetfu.0@[0].spec_width() * tetfu.0@[0].spec_height() <= usize::MAX,
            tetfu.0@[0].spec_width() <= usize::MAX - 2,
            tetfu.0@[0].spec_height() <= usize::MAX - 3,
            old(self).program.args.handling.max < usize::MAX,
        ensures
            final(self).program == old(self).program,
            final(self).buf == old(self).buf,
            final(self).caches == old(self).caches,
            exists|spots: Seq<(usize, usize)>|
                #[trigger] spots_of(tetfu.0@[0], color, spots) && congruent_pages_ok(
                    pages@,
                    uncolored(tetfu.0@[0].rows_view(), color),
                    tetfu.0@[0].margin as int,
                    &old(self).program.args.handling,
                    old(self).program.args.no_hold,
                    pattern.spec_queues(),
                    spots,
                ),
    {
        let z = &tetfu.0[0];
        let cspots = z.spots_of_color(color);
        let base = z.without_color(color);
        proof {
            assert(base.wf());
            lemma_without_color_width(z.rows_view(), base.rows_view());
            assert(base.rows_view() =~~= uncolored(z.rows_view(), color)) by {
                assert forall|y: int| 0 <= y < z.rows_view().len() implies base.rows_view()[y]
                    =~= uncolored(z.rows_view(), color)[y] by {
                    assert forall|x: int| 0 <= x < z.rows_view()[y].len()
                        implies base.rows_view()[y][x] == uncolored(z.rows_view(), color)[y][x] by {
                        assert(base.rows_view()[y][x] == (if z.rows_view()[y][x] == color {
                            Piece::E
                        } else {
                            z.rows_view()[y][x]
                        }));
                    }
                }
            }
        }
        let ghost rows = base.rows_view();
        let ghost margin = base.margin as int;
        let ghost no_hold = self.program.args.no_hold;
        let ghost spots = cspots@;
        let queues = pattern.queues();
        let ghost qview = crate::pattern::queues_view(queues@);
        let mut pages: Vec<Board> = Vec::new();
        let ghost mut wits: Seq<Seq<Placement>> = Seq::empty();
        let mut qi: usize = 0;
        while qi < queues.len()
            invariant
                qi <= queues@.len(),
                base.wf(),
                rows == base.rows_view(),
                margin == base.margin as int,
                no_hold == self.program.args.no_hold,
                spots == cspots@,
                base.spec_width() >= 2,
                base.spec_width() * base.spec_height() <= usize::MAX,
                base.spec_width() <= usize::MAX - 2,
                base.spec_height() <= usize::MAX - 3,
                self.program.args.handling.max < usize::MAX,
                qview == crate::pattern::queues_view(queues@),
                qview == pattern.spec_queues(),
                wits.len() == pages@.len(),
                forall|i: int|
                    0 <= i < pages@.len() ==> congruent_wanted(
                        rows,
                        margin,
                        &self.program.args.handling,
                        no_hold,
                        qview,
                        spots,
                        #[trigger] wits[i],
                    ) && pages@[i].rows_view() == crate::board::many_placed(rows, wits[i], 0),
                forall|u: int, hq: Seq<Piece>, ps: Seq<Placement>|
                    #![trigger crate::render::hold_link(no_hold, queues@[u]@, hq), congruent_allowed(rows, margin, spots, hq, ps, 0)]
                    (0 <= u < qi && crate::render::all_tetrominoes(queues@[u]@)
                        && crate::render::hold_link(no_hold, queues@[u]@, hq) && ps.len()
                        == hq.len() && congruent_allowed(rows, margin, spots, hq, ps, 0)
                        && spec_many_doable(
                        rows,
                        margin,
                        &self.program.args.handling,
                        ps,
                        0,
                    )) ==> crate::render::board_in(
                        pages@,
                        crate::board::many_placed(rows, ps, 0),
                    ),
            decreases queues@.len() - qi,
        {
            let ghost qhead = pages@;
            let q = &queues[qi];
            let mut tetros = true;
            let mut t: usize = 0;
            while t < q.0.len()
                invariant
                    t <= q@.len(),
                    tetros == forall|j: int| 0 <= j < t ==> (#[trigger] q@[j]).is_tetromino(),
                decreases q@.len() - t,
            {
                if !q.0[t].is_filled_with_piece() {
                    proof {
                        assert(!q@[t as int].is_tetromino());
                    }
                    tetros = false;
                }
                t = t + 1;
            }
            if tetros {
                let holds = self.hold_queues(q);
                let mut hi: usize = 0;
                while hi < holds.len()
                    invariant
                        hi <= holds@.len(),
                        base.wf(),
                        rows == base.rows_view(),
                        margin == base.margin as int,
                        no_hold == self.program.args.no_hold,
                        spots == cspots@,
                        qhead.len() <= pages@.len(),
                        forall|t2: int| 0 <= t2 < qhead.len() ==> pages@[t2] == qhead[t2],
                        base.spec_width() >= 2,
                        base.spec_width() * base.spec_height() <= usize::MAX,
                        base.spec_width() <= usize::MAX - 2,
                        base.spec_height() <= usize::MAX - 3,
                        self.program.args.handling.max < usize::MAX,
                        qi < queues@.len(),
                        q == &queues@[qi as int],
                        crate::render::all_tetrominoes(q@),
                        no_hold ==> holds@.len() == 1 && holds@[0]@ == q@,
                        !no_hold ==> (forall|u: int|
                            0 <= u < holds@.len() ==> crate::pattern::hold_plays(
                                q@,
                                Option::None,
                                false,
                            ).contains((#[trigger] holds@[u])@)),
                        !no_hold ==> (forall|s2: Seq<Piece>|
                            crate::pattern::hold_plays(q@, Option::None, false).contains(s2)
                                ==> exists|u: int|
                                0 <= u < holds@.len() && (#[trigger] holds@[u])@ == s2),
                        qview == crate::pattern::queues_view(queues@),
                        wits.len() == pages@.len(),
                        forall|i: int|
                            0 <= i < pages@.len() ==> congruent_wanted(
                                rows,
                                margin,
                                &self.program.args.handling,
                                no_hold,
                                qview,
                                spots,
                                #[trigger] wits[i],
                            ) && pages@[i].rows_view() == crate::board::many_placed(
                                rows,
                                wits[i],
                                0,
                            ),
                        forall|u: int, hq: Seq<Piece>, ps: Seq<Placement>|
                            #![trigger crate::render::hold_link(no_hold, queues@[u]@, hq), congruent_allowed(rows, margin, spots, hq, ps, 0)]
                            (0 <= u < qi && crate::render::all_tetrominoes(queues@[u]@)
                                && crate::render::hold_link(no_hold, queues@[u]@, hq) && ps.len()
                                == hq.len() && congruent_allowed(rows, margin, spots, hq, ps, 0)
                                && spec_many_doable(
                                rows,
                                margin,
                                &self.program.args.handling,
                                ps,
                                0,
                            )) ==> crate::render::board_in(
                                pages@,
                                crate::board::many_placed(rows, ps, 0),
                            ),
                        forall|u: int, ps: Seq<Placement>|
                            #![trigger holds@[u], congruent_allowed(rows, margin, spots, holds@[u]@, ps, 0)]
                            (0 <= u < hi && crate::render::all_tetrominoes(holds@[u]@) && ps.len()
                                == holds@[u]@.len() && congruent_allowed(
                                rows,
                                margin,
                                spots,
                                holds@[u]@,
                                ps,
                                0,
                            ) && spec_many_doable(
                                rows,
                                margin,
                                &self.program.args.handling,
                                ps,
                                0,
                            )) ==> crate::render::board_in(
                                pages@,
                                crate::board::many_placed(rows, ps, 0),
                            ),
                    decreases holds@.len() - hi,
                {
                    let ghost hhead = pages@;
                    let h = &holds[hi];
                    let mut htet = true;
                    let mut t2: usize = 0;
                    while t2 < h.0.len()
                        invariant
                            t2 <= h@.len(),
                            htet == forall|j: int|
                                0 <= j < t2 ==> (#[trigger] h@[j]).is_tetromino(),
                        decreases h@.len() - t2,
                    {
                        if !h.0[t2].is_filled_with_piece() {
                            proof {
                                assert(!h@[t2 as int].is_tetromino());
                            }
                            htet = false;
                        }
                        t2 = t2 + 1;
                    }
                    if htet {
                        let pms = self.congruent_many(&base, &cspots, h.pieces());
                        let mut pi: usize = 0;
                        while pi < pms.len()
                            invariant
                                pi <= pms@.len(),
                                base.wf(),
                                rows == base.rows_view(),
                                margin == base.margin as int,
                                no_hold == self.program.args.no_hold,
                                spots == cspots@,
                                base.spec_width() >= 2,
                                self.program.args.handling.max < usize::MAX,
                                hhead.len() <= pages@.len(),
                                forall|t3: int| 0 <= t3 < hhead.len() ==> pages@[t3] == hhead[t3],
                                hi < holds@.len(),
                                h == &holds@[hi as int],
                                crate::render::all_tetrominoes(h@),
                                qi < queues@.len(),
                                q == &queues@[qi as int],
                                crate::render::all_tetrominoes(q@),
                                qview == crate::pattern::queues_view(queues@),
                                no_hold ==> holds@.len() == 1 && holds@[0]@ == q@,
                                !no_hold ==> (forall|u: int|
                                    0 <= u < holds@.len() ==> crate::pattern::hold_plays(
                                        q@,
                                        Option::None,
                                        false,
                                    ).contains((#[trigger] holds@[u])@)),
                                forall|j: int|
                                    0 <= j < pms@.len() ==> (#[trigger] pms@[j])@.len() == h@.len()
                                        && many_ok(rows, pms@[j]@, 0),
                                forall|ps2: Seq<Placement>| #[trigger]
                                    in_result(pms@, ps2) <==> (ps2.len() == h@.len()
                                        && congruent_allowed(rows, margin, spots, h@, ps2, 0)),
                                wits.len() == pages@.len(),
                                forall|i: int|
                                    0 <= i < pages@.len() ==> congruent_wanted(
                                        rows,
                                        margin,
                                        &self.program.args.handling,
                                        no_hold,
                                        qview,
                                        spots,
                                        #[trigger] wits[i],
                                    ) && pages@[i].rows_view() == crate::board::many_placed(
                                        rows,
                                        wits[i],
                                        0,
                                    ),
                                forall|v: int|
                                    #![trigger pms@[v]]
                                    (0 <= v < pi && spec_many_doable(
                                        rows,
                                        margin,
                                        &self.program.args.handling,
                                        pms@[v]@,
                                        0,
                                    )) ==> crate::render::board_in(
                                        pages@,
                                        crate::board::many_placed(rows, pms@[v]@, 0),
                                    ),
                            decreases pms@.len() - pi,
                        {
                            let pm = &pms[pi];
                            let ghost psv = pm@;
                            let ghost prevall = pages@;
                            proof {
                                assert(many_ok(rows, psv, 0) && psv.len() == h@.len()) by {
                                    assert(pms@[pi as int]@ == psv);
                                }
                                assert forall|j: int| 0 <= j < psv.len() implies (
                                #[trigger] psv[j]).0.is_tetromino() by {
                                    crate::render::lemma_chain_pieces(rows, psv, 0, j);
                                }
                            }
                            if self.is_many_doable(&base, pm) {
                                let placed = base.with_many_placements(pm);
                                pages.push(placed);
                                proof {
                                    wits = wits.push(psv);
                                    assert(pages@[pages@.len() - 1].rows_view()
                                        == crate::board::many_placed(rows, psv, 0));
                                    assert(congruent_wanted(
                                        rows,
                                        margin,
                                        &self.program.args.handling,
                                        no_hold,
                                        qview,
                                        spots,
                                        psv,
                                    )) by {
                                        assert(qview.contains(q@)) by {
                                            assert(crate::pattern::queues_view(
                                                queues@,
                                            )[qi as int] == q@);
                                        }
                                        assert(crate::render::hold_link(no_hold, q@, h@)) by {
                                            if no_hold {
                                                assert(holds@[hi as int]@ == holds@[0]@);
                                            }
                                        }
                                        assert(congruent_allowed(
                                            rows,
                                            margin,
                                            spots,
                                            h@,
                                            psv,
                                            0,
                                        )) by {
                                            assert(in_result(pms@, psv)) by {
                                                assert(pms@[pi as int]@ == psv);
                                            }
                                        }
                                    }
                                    assert forall|i: int| 0 <= i < pages@.len()
                                        implies congruent_wanted(
                                        rows,
                                        margin,
                                        &self.program.args.handling,
                                        no_hold,
                                        qview,
                                        spots,
                                        #[trigger] wits[i],
                                    ) && pages@[i].rows_view() == crate::board::many_placed(
                                        rows,
                                        wits[i],
                                        0,
                                    ) by {
                                        if i < prevall.len() {
                                            assert(wits[i] == wits.drop_last()[i]);
                                        }
                                    }
                                }
                            }
                            proof {
                                crate::render::lemma_board_in_grow(prevall, pages@);
                                assert forall|v: int|
                                    (0 <= v < pi + 1 && spec_many_doable(
                                        rows,
                                        margin,
                                        &self.program.args.handling,
                                        (#[trigger] pms@[v])@,
                                        0,
                                    )) implies crate::render::board_in(
                                    pages@,
                                    crate::board::many_placed(rows, pms@[v]@, 0),
                                ) by {
                                    if v == pi {
                                        assert(pms@[v]@ == psv);
                                    }
                                }
                            }
                            pi = pi + 1;
                        }
                        proof {
                            crate::render::lemma_board_in_grow(hhead, pages@);
                            assert forall|u: int, ps2: Seq<Placement>|
                                (0 <= u < hi + 1 && crate::render::all_tetrominoes((
                                #[trigger] holds@[u])@) && ps2.len() == holds@[u]@.len()
                                    && #[trigger] congruent_allowed(
                                    rows,
                                    margin,
                                    spots,
                                    holds@[u]@,
                                    ps2,
                                    0,
                                ) && spec_many_doable(
                                    rows,
                                    margin,
                                    &self.program.args.handling,
                                    ps2,
                                    0,
                                )) implies crate::render::board_in(
                                pages@,
                                crate::board::many_placed(rows, ps2, 0),
                            ) by {
                                if u == hi {
                                    assert(in_result(pms@, ps2)) by {
                                        assert(congruent_allowed(
                                            rows,
                                            margin,
                                            spots,
                                            h@,
                                            ps2,
                                            0,
                                        ));
                                    }
                                    let v = choose|v: int|
                                        0 <= v < pms@.len() && (#[trigger] pms@[v])@ == ps2;
                                    assert(pms@[v]@ == ps2);
                                }
                            }
                        }
                    } else {
                        proof {
                            let j = choose|j: int|
                                0 <= j < h@.len() && !(#[trigger] h@[j]).is_tetromino();
                            assert(crate::render::all_tetrominoes(h@)) by {
                                if no_hold {
                                    assert(h@ == q@);
                                } else {
                                    assert(crate::pattern::hold_plays(
                                        q@,
                                        Option::None,
                                        false,
                                    ).contains(h@));
                                    crate::render::lemma_hold_all_tetrominoes(q@, h@);
                                }
                            }
                            assert(false);
                        }
                    }
                    proof {
                        crate::render::lemma_board_in_grow(hhead, pages@);
                    }
                    hi = hi + 1;
                }
                proof {
                    assert forall|u: int, hq: Seq<Piece>, ps2: Seq<Placement>|
                        (0 <= u < qi + 1 && crate::render::all_tetrominoes(queues@[u]@)
                            && #[trigger] crate::render::hold_link(no_hold, queues@[u]@, hq)
                            && ps2.len() == hq.len() && #[trigger] congruent_allowed(
                            rows,
                            margin,
                            spots,
                            hq,
                            ps2,
                            0,
                        ) && spec_many_doable(
                            rows,
                            margin,
                            &self.program.args.handling,
                            ps2,
                            0,
                        )) implies crate::render::board_in(
                        pages@,
                        crate::board::many_placed(rows, ps2, 0),
                    ) by {
                        if u == qi {
                            assert(queues@[u]@ == q@);
                            let hu = if no_hold {
                                0int
                            } else {
                                choose|hu: int|
                                    0 <= hu < holds@.len() && (#[trigger] holds@[hu])@ == hq
                            };
                            assert(holds@[hu]@ == hq);
                            assert(crate::render::all_tetrominoes(holds@[hu]@)) by {
                                if !no_hold {
                                    crate::render::lemma_hold_all_tetrominoes(q@, hq);
                                }
                            }
                        }
                    }
                }
            } else {
                proof {
                    crate::render::lemma_board_in_grow(qhead, pages@);
                    assert forall|u: int, hq: Seq<Piece>, ps2: Seq<Placement>|
                        (0 <= u < qi + 1 && crate::render::all_tetrominoes(queues@[u]@)
                            && #[trigger] crate::render::hold_link(no_hold, queues@[u]@, hq)
                            && ps2.len() == hq.len() && #[trigger] congruent_allowed(
                            rows,
                            margin,
                            spots,
                            hq,
                            ps2,
                            0,
                        ) && spec_many_doable(
                            rows,
                            margin,
                            &self.program.args.handling,
                            ps2,
                            0,
                        )) implies crate::render::board_in(
                        pages@,
                        crate::board::many_placed(rows, ps2, 0),
                    ) by {
                        if u == qi {
                            let j = choose|j: int|
                                0 <= j < q@.len() && !(#[trigger] q@[j]).is_tetromino();
                            assert(!crate::render::all_tetrominoes(queues@[u]@)) by {
                                assert(queues@[u]@[j] == q@[j]);
                            }
                        }
                    }
                }
            }
            qi = qi + 1;
        }
        proof {
            assert(spots_of(tetfu.0@[0], color, cspots@));
            let urows = uncolored(tetfu.0@[0].rows_view(), color);
            let um = tetfu.0@[0].margin as int;
            assert(rows == urows);
            assert(margin == um);
            assert(congruent_pages_ok(
                pages@,
                urows,
                um,
                &self.program.args.handling,
                no_hold,
                pattern.spec_queues(),
                cspots@,
            )) by {
                assert forall|i: int| 0 <= i < pages@.len() implies #[trigger] page_explained(
                    pages@,
                    i,
                    urows,
                    um,
                    &self.program.args.handling,
                    no_hold,
                    pattern.spec_queues(),
                    cspots@,
                ) by {
                    assert(congruent_wanted(
                        urows,
                        um,
                        &self.program.args.handling,
                        no_hold,
                        pattern.spec_queues(),
                        cspots@,
                        wits[i],
                    )) by {
                        assert(congruent_wanted(
                            rows,
                            margin,
                            &self.program.args.handling,
                            no_hold,
                            qview,
                            cspots@,
                            wits[i],
                        ));
                    }
                    assert(pages@[i].rows_view() == crate::board::many_placed(
                        urows,
                        wits[i],
                        0,
                    ));
                }
                assert forall|ps: Seq<Placement>| #[trigger]
                    congruent_wanted(
                        urows,
                        um,
                        &self.program.args.handling,
                        no_hold,
                        pattern.spec_queues(),
                        cspots@,
                        ps,
                    ) implies crate::render::board_in(
                    pages@,
                    crate::board::many_placed(urows, ps, 0),
                ) by {
                    let (qv, hq) = choose|qv: Seq<Piece>, hq: Seq<Piece>|
                        {
                            &&& #[trigger] pattern.spec_queues().contains(qv)
                            &&& crate::render::all_tetrominoes(qv)
                            &&& #[trigger] crate::render::hold_link(no_hold, qv, hq)
                            &&& ps.len() == hq.len()
                            &&& congruent_allowed(rows, margin, cspots@, hq, ps, 0)
                            &&& spec_many_doable(
                                rows,
                                margin,
                                &self.program.args.handling,
                                ps,
                                0,
                            )
                        };
                    let u = choose|u: int|
                        0 <= u < crate::pattern::queues_view(queues@).len()
                            && #[trigger] crate::pattern::queues_view(queues@)[u] == qv;
                    assert(queues@[u]@ == qv);
                    assert(crate::render::board_in(
                        pages@,
                        crate::board::many_placed(rows, ps, 0),
                    ));
                }
            }
        }
        pages
    }
}

/// Emptying one color changes no row length, so the width is unchanged.
pub proof fn lemma_without_color_width(orig: Seq<Seq<Piece>>, out: Seq<Seq<Piece>>)
    requires
        out.len() == orig.len(),
        forall|y: int| 0 <= y < orig.len() ==> (#[trigger] out[y]).len() == orig[y].len(),
    ensures
        crate::board::max_row_len(out) == crate::board::max_row_len(orig),
    decreases orig.len(),
{
    if orig.len() > 0 {
        assert(forall|y: int|
            0 <= y < orig.len() - 1 ==> (#[trigger] out.drop_last()[y]).len()
                == orig.drop_last()[y].len());
        lemma_without_color_width(orig.drop_last(), out.drop_last());
        assert(out.last().len() == orig.last().len());
    }
}

/// Whether every placement, in order, is reachable on the board as it
/// stands when its turn comes.
pub open spec fn spec_many_doable(
    rows: Seq<Seq<Piece>>,
    margin: int,
    h: &crate::input::Handling,
    ps: Seq<Placement>,
    i: int,
) -> bool
    decreases ps.len() - i,
{
    if i < 0 || i >= ps.len() {
        true
    } else {
        let w = crate::board::max_row_len(rows);
        let spawn = ((w / 2 - 1) as usize, (rows.len() - margin) as usize);
        &&& feasible(rows, margin, h, spawn, ps[i])
        &&& spec_many_doable(
            stamp_rows(rows, ps[i].0, adjusted_cells(rows, ps[i])),
            margin,
            h,
            ps,
            i + 1,
        )
    }
}

/// Whether every successive placement keeps the growth in completely
/// filled rows inside the range.
pub open spec fn spec_keeps_clears(
    rows: Seq<Seq<Piece>>,
    ps: Seq<Placement>,
    cls: Ranged,
    i: int,
) -> bool
    decreases ps.len() - i,
{
    if i < 0 || i >= ps.len() {
        true
    } else {
        let placed = stamp_rows(rows, ps[i].0, adjusted_cells(rows, ps[i]));
        &&& cls.spec_contains(count_full(placed) - count_full(rows))
        &&& spec_keeps_clears(placed, ps, cls, i + 1)
    }
}

/// Stamping changes no row length, so the width is unchanged too.
pub proof fn lemma_stamp_width(rows: Seq<Seq<Piece>>, kind: Piece, cells: Seq<(int, int)>)
    ensures
        crate::board::max_row_len(stamp_rows(rows, kind, cells)) == crate::board::max_row_len(
            rows,
        ),
        stamp_rows(rows, kind, cells).len() == rows.len(),
    decreases rows.len(),
{
    let st = stamp_rows(rows, kind, cells);
    if rows.len() > 0 {
        lemma_stamp_width(rows.drop_last(), kind, cells);
        assert(st.drop_last() =~~= stamp_rows(rows.drop_last(), kind, cells));
        assert(st.last().len() == rows.last().len());
    }
}

/// Prepending an allowed placement to an allowed tail keeps the chain
/// allowed.
pub proof fn lemma_many_ok_prepend(
    rows: Seq<Seq<Piece>>,
    p: Placement,
    tail: Seq<Placement>,
    whole: Seq<Placement>,
)
    requires
        whole == seq![p] + tail,
        p.0.is_tetromino(),
        adjusted_ok(rows, p),
        many_ok(stamp_rows(rows, p.0, adjusted_cells(rows, p)), tail, 0),
    ensures
        many_ok(rows, whole, 0),
{
    let placed = stamp_rows(rows, p.0, adjusted_cells(rows, p));
    lemma_many_ok_shift(placed, tail, whole, 0);
    assert(whole[0] == p);
}

/// A chain allowed from the start of the tail is allowed from position
/// one of the prepended sequence.
pub proof fn lemma_many_ok_shift(
    rows: Seq<Seq<Piece>>,
    tail: Seq<Placement>,
    whole: Seq<Placement>,
    i: int,
)
    requires
        0 <= i <= tail.len(),
        whole.len() == tail.len() + 1,
        forall|t: int| 0 <= t < tail.len() ==> whole[t + 1] == tail[t],
        many_ok(rows, tail, i),
    ensures
        many_ok(rows, whole, i + 1),
    decreases tail.len() - i,
{
    if i < tail.len() {
        assert(whole[i + 1] == tail[i]);
        lemma_many_ok_shift(
            stamp_rows(rows, tail[i].0, adjusted_cells(rows, tail[i])),
            tail,
            whole,
            i + 1,
        );
    }
}

} // verus!

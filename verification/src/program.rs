//! The engine state: options, the memoization store, and the output
//! buffer the command drivers write into.

use vstd::prelude::*;

use crate::bits::Bits;
use crate::board::Board;
use crate::input::{spec_possible_moves, Handling, Key};
use crate::pattern::Queue;
use crate::piece::Piece;
use crate::placement::Placement;
use crate::search::{keys_from, reaches};

verus! {

/// The engine options: output shaping, board overrides and the handling
/// profile.
#[derive(Debug)]
pub struct Options {
    pub output: Option<String>,
    pub link_type: Option<char>,
    pub board_width: Option<usize>,
    pub board_height: Option<usize>,
    pub stopwatch: bool,
    pub handling: Handling,
    pub board_margin: usize,
    pub no_cache: bool,
    pub pw: usize,
    pub no_hold: bool,
    pub no_comments: bool,
    pub page_sep: String,
    pub row_sep: String,
    pub raw: bool,
}

/// The parsed program: its options.
#[derive(Debug)]
pub struct Program {
    pub args: Options,
}

/// The memoization store: feasibility decisions and shortest key
/// sequences, keyed by the board's bit form and the placement.
#[derive(Debug)]
pub struct Caches {
    pub possible: Vec<(Bits, Placement, bool)>,
    pub finesse_seqs: Vec<(Placement, Bits, Vec<Key>)>,
}

/// Whether two bit grids hold the same dimensions and bits.
pub open spec fn bits_key_eq(a: Bits, b: Bits) -> bool {
    a.width == b.width && a.height == b.height && a.bits@ == b.bits@
}

/// The first stored feasibility decision for a key, if any.
pub open spec fn lookup_possible(
    es: Seq<(Bits, Placement, bool)>,
    key: Bits,
    p: Placement,
) -> Option<bool>
    decreases es.len(),
{
    if es.len() == 0 {
        Option::None
    } else if bits_key_eq(es[0].0, key) && es[0].1 == p {
        Option::Some(es[0].2)
    } else {
        lookup_possible(es.drop_first(), key, p)
    }
}

/// The first stored key sequence for a key, if any.
pub open spec fn lookup_finesse(
    es: Seq<(Placement, Bits, Vec<Key>)>,
    p: Placement,
    key: Bits,
) -> Option<Seq<Key>>
    decreases es.len(),
{
    if es.len() == 0 {
        Option::None
    } else if es[0].0 == p && bits_key_eq(es[0].1, key) {
        Option::Some(es[0].2@)
    } else {
        lookup_finesse(es.drop_first(), p, key)
    }
}

/// Whether two bit grids hold the same dimensions and bits.
pub fn bits_eq(a: &Bits, b: &Bits) -> (r: bool)
    ensures
        r == bits_key_eq(*a, *b),
{
    if a.width != b.width || a.height != b.height || a.bits.len() != b.bits.len() {
        return false;
    }
    let mut i: usize = 0;
    while i < a.bits.len()
        invariant
            i <= a.bits@.len(),
            a.bits@.len() == b.bits@.len(),
            a.width == b.width,
            a.height == b.height,
            forall|j: int| 0 <= j < i ==> a.bits@[j] == b.bits@[j],
        decreases a.bits@.len() - i,
    {
        if a.bits[i] != b.bits[i] {
            return false;
        }
        i = i + 1;
    }
    proof {
        assert(a.bits@ =~= b.bits@);
    }
    true
}

impl Caches {
    /// An empty store.
    pub fn new() -> (r: Caches)
        ensures
            r.possible@.len() == 0,
            r.finesse_seqs@.len() == 0,
    {
        Caches { possible: Vec::new(), finesse_seqs: Vec::new() }
    }

    /// The stored feasibility decision for this key, if any.
    pub fn get_possible(&self, key: &Bits, p: Placement) -> (r: Option<bool>)
        ensures
            r == lookup_possible(self.possible@, *key, p),
    {
        proof {
            assert(self.possible@.skip(0) =~= self.possible@);
        }
        let mut i: usize = 0;
        while i < self.possible.len()
            invariant
                i <= self.possible@.len(),
                lookup_possible(self.possible@, *key, p) == lookup_possible(
                    self.possible@.skip(i as int),
                    *key,
                    p,
                ),
            decreases self.possible@.len() - i,
        {
            proof {
                assert(self.possible@.skip(i as int)[0] == self.possible@[i as int]);
                assert(self.possible@.skip(i as int).drop_first() =~= self.possible@.skip(i + 1));
            }
            let e = &self.possible[i];
            if bits_eq(&e.0, key) && crate::placement::placement_eq(e.1, p) {
                return Some(e.2);
            }
            i = i + 1;
        }
        proof {
            assert(self.possible@.skip(self.possible@.len() as int) =~= Seq::<(
                Bits,
                Placement,
                bool,
            )>::empty());
        }
        None
    }

    /// The stored key sequence for this key, if any.
    pub fn get_finesse(&self, p: Placement, key: &Bits) -> (r: Option<Vec<Key>>)
        ensures
            match r {
                Option::Some(v) => lookup_finesse(self.finesse_seqs@, p, *key) == Option::Some(
                    v@,
                ),
                Option::None => lookup_finesse(self.finesse_seqs@, p, *key) is None,
            },
    {
        proof {
            assert(self.finesse_seqs@.skip(0) =~= self.finesse_seqs@);
        }
        let mut i: usize = 0;
        while i < self.finesse_seqs.len()
            invariant
                i <= self.finesse_seqs@.len(),
                lookup_finesse(self.finesse_seqs@, p, *key) == lookup_finesse(
                    self.finesse_seqs@.skip(i as int),
                    p,
                    *key,
                ),
            decreases self.finesse_seqs@.len() - i,
        {
            proof {
                assert(self.finesse_seqs@.skip(i as int)[0] == self.finesse_seqs@[i as int]);
                assert(self.finesse_seqs@.skip(i as int).drop_first()
                    =~= self.finesse_seqs@.skip(i + 1));
            }
            let e = &self.finesse_seqs[i];
            if crate::placement::placement_eq(e.0, p) && bits_eq(&e.1, key) {
                return Some(crate::search::copy_keys(&e.2));
            }
            i = i + 1;
        }
        proof {
            assert(self.finesse_seqs@.skip(self.finesse_seqs@.len() as int) =~= Seq::<(
                Placement,
                Bits,
                Vec<Key>,
            )>::empty());
        }
        None
    }
}

/// The engine: the parsed program, the memoization store and the output
/// buffer.
#[derive(Debug)]
pub struct Sfce {
    pub program: Program,
    pub caches: Caches,
    pub buf: String,
}

/// Whether a stored key is the bit form of the board: same dimensions,
/// and a set bit exactly where the board holds a filled cell.
pub open spec fn fast_key_of(b: Bits, board: &Board) -> bool {
    &&& b.wf()
    &&& b.width == board.spec_width()
    &&& b.height == board.spec_height()
    &&& forall|x: int, y: int|
        0 <= x < b.width && 0 <= y < b.height ==> #[trigger] b.rows()[y][x] == (board.spec_get(
            x,
            y,
        ) != Piece::E)
}

/// Whether some key sequence within the handling's input budget carries
/// the piece from the spawn state to the placement.
pub open spec fn feasible(
    rows: Seq<Seq<Piece>>,
    margin: int,
    h: &Handling,
    spawn: (usize, usize),
    p: Placement,
) -> bool {
    exists|s: Seq<Key>|
        1 <= s.len() <= h.max && keys_from(
            s,
            spec_possible_moves(h.das, h.use_180, h.drop_type),
        ) && #[trigger] reaches(rows, margin, h.kickset.entries(), p, spawn, s)
}

impl Sfce {
    /// A fresh engine over a parsed program.
    pub fn new(program: Program) -> (r: Sfce)
        ensures
            r.program == program,
            r.caches.possible@.len() == 0,
            r.caches.finesse_seqs@.len() == 0,
            r.buf@.len() == 0,
    {
        Sfce { program, caches: Caches::new(), buf: String::new() }
    }

    /// The handling profile in force.
    pub fn handling(&self) -> (r: Handling)
        ensures
            r.kickset.entries() == self.program.args.handling.kickset.entries(),
            r.use_180 == self.program.args.handling.use_180,
            r.drop_type == self.program.args.handling.drop_type,
            r.max == self.program.args.handling.max,
            r.das == self.program.args.handling.das,
            r.finesse == self.program.args.handling.finesse,
            r.ignore == self.program.args.handling.ignore,
    {
        self.program.args.handling.clone()
    }

    /// The hold variants of a queue, or the queue alone when hold is
    /// disabled.
    pub fn hold_queues(&self, queue: &Queue) -> (r: Vec<Queue>)
        ensures
            self.program.args.no_hold ==> r@.len() == 1 && r@[0]@ == queue@,
            !self.program.args.no_hold ==> {
                &&& forall|i: int|
                    0 <= i < r@.len() ==> crate::pattern::hold_plays(
                        queue@,
                        Option::None,
                        false,
                    ).contains((#[trigger] r@[i])@)
                &&& forall|s: Seq<Piece>|
                    crate::pattern::hold_plays(queue@, Option::None, false).contains(s)
                        ==> exists|i: int| 0 <= i < r@.len() && (#[trigger] r@[i])@ == s
                &&& forall|i: int, j: int| 0 <= i < j < r@.len() ==> r@[i]@ != r@[j]@
            },
    {
        if self.program.args.no_hold {
            let mut out: Vec<Queue> = Vec::new();
            out.push(queue.clone());
            out
        } else {
            queue.hold_queues()
        }
    }

    /// Whether the placement is valid on the board; the feasibility store
    /// plays no part here.
    pub fn is_valid_placement(&mut self, board: &Board, placement: Placement, allow_floating: bool)
        -> (r: bool)
        requires
            placement.0.is_tetromino(),
            board.wf(),
        ensures
            r == crate::board::spec_is_valid_placement(
                board.rows_view(),
                board.margin as int,
                placement,
                allow_floating,
            ),
            *final(self) == *old(self),
    {
        board.is_valid_placement(placement, allow_floating)
    }

    /// Whether the placement can be reached and locked: the placement is
    /// validated and, unless the handling ignores inputs, the input search
    /// decides; the outcome is recorded in the feasibility store.
    pub fn is_placement_possible(&mut self, board: &Board, placement: Placement) -> (r: bool)
        requires
            placement.0.is_tetromino(),
            board.wf(),
            board.spec_width() >= 2,
            board.spec_width() * board.spec_height() <= usize::MAX,
            old(self).program.args.handling.max < usize::MAX,
        ensures
            final(self).program == old(self).program,
            final(self).buf == old(self).buf,
            final(self).caches.finesse_seqs == old(self).caches.finesse_seqs,
            ({
                let rows = board.rows_view();
                let margin = board.margin as int;
                let h = &old(self).program.args.handling;
                let spawn = (
                    (board.spec_width() / 2 - 1) as usize,
                    board.spec_height() as usize,
                );
                let valid = crate::board::spec_is_valid_placement(rows, margin, placement, false);
                &&& r == (valid && (h.ignore || feasible(rows, margin, h, spawn, placement)))
                &&& if valid && !h.ignore {
                    let entries = final(self).caches.possible@;
                    &&& entries.len() == old(self).caches.possible@.len() + 1
                    &&& entries.drop_last() == old(self).caches.possible@
                    &&& entries.last().1 == placement
                    &&& entries.last().2 == r
                    &&& fast_key_of(entries.last().0, board)
                } else {
                    final(self).caches.possible == old(self).caches.possible
                }
            }),
    {
        let f = board.fast();
        if board.is_valid_placement(placement, false) {
            if self.program.args.handling.ignore {
                return true;
            }
            let spawn = board.spawn();
            let possible = placement.is_doable(board, spawn, self.handling());
            self.caches.possible.push((f, placement, possible));
            proof {
                assert(self.caches.possible@.drop_last() =~= old(self).caches.possible@);
            }
            possible
        } else {
            false
        }
    }

    /// The shortest key sequence reaching the placement from the spawn
    /// state, recorded in both stores; `None` when no sequence within the
    /// input budget reaches it.
    pub fn finesse(&mut self, placement: Placement, board: &Board) -> (r: Option<Vec<Key>>)
        requires
            placement.0.is_tetromino(),
            board.wf(),
            board.spec_width() >= 2,
            board.spec_width() * board.spec_height() <= usize::MAX,
            old(self).program.args.handling.max < usize::MAX,
        ensures
            final(self).program == old(self).program,
            final(self).buf == old(self).buf,
            ({
                let rows = board.rows_view();
                let margin = board.margin as int;
                let h = &old(self).program.args.handling;
                let spawn = (
                    (board.spec_width() / 2 - 1) as usize,
                    board.spec_height() as usize,
                );
                &&& (r is Some) == feasible(rows, margin, h, spawn, placement)
                &&& (r matches Some(v) ==> reaches(
                    rows,
                    margin,
                    h.kickset.entries(),
                    placement,
                    spawn,
                    v@,
                ))
                &&& ({
                    let entries = final(self).caches.possible@;
                    &&& entries.len() == old(self).caches.possible@.len() + 1
                    &&& entries.drop_last() == old(self).caches.possible@
                    &&& entries.last().1 == placement
                    &&& entries.last().2 == (r is Some)
                    &&& fast_key_of(entries.last().0, board)
                })
                &&& match r {
                    Option::Some(v) => {
                        let seqs = final(self).caches.finesse_seqs@;
                        &&& seqs.len() == old(self).caches.finesse_seqs@.len() + 1
                        &&& seqs.drop_last() == old(self).caches.finesse_seqs@
                        &&& seqs.last().0 == placement
                        &&& seqs.last().2@ == v@
                        &&& fast_key_of(seqs.last().1, board)
                    },
                    Option::None => final(self).caches.finesse_seqs == old(
                        self,
                    ).caches.finesse_seqs,
                }
            }),
    {
        let f = board.fast();
        let spawn = board.spawn();
        let inputs = placement.inputs(board, spawn, self.handling());
        match inputs {
            Some(i) => {
                let fk = f.clone();
                proof {
                    assert(fk.rows() =~~= f.rows());
                }
                self.caches.possible.push((fk, placement, true));
                let stored = crate::search::copy_keys(&i);
                self.caches.finesse_seqs.push((placement, f, stored));
                proof {
                    assert(self.caches.possible@.drop_last() =~= old(self).caches.possible@);
                    assert(self.caches.finesse_seqs@.drop_last() =~= old(
                        self,
                    ).caches.finesse_seqs@);
                }
                Some(i)
            },
            None => {
                self.caches.possible.push((f, placement, false));
                proof {
                    assert(self.caches.possible@.drop_last() =~= old(self).caches.possible@);
                }
                None
            },
        }
    }
}

} // verus!

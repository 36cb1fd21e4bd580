//! The input search: whether a bounded key sequence carries a piece from
//! its spawn state to a target placement, and the shortest such sequence.

use vstd::prelude::*;

use crate::board::Board;
use crate::input::{
    sim_send_keys, spec_possible_moves, spec_send, Handling, Input, Key,
};
use crate::piece::{Piece, Rotation};
use crate::placement::Placement;

verus! {

/// Whether a key sequence carries the piece from the spawn state to the
/// target placement: the rotations the keys name compose to the target
/// rotation, and simulating the keys ends exactly on the target.
pub open spec fn reaches(
    rows: Seq<Seq<Piece>>,
    margin: int,
    ks: Seq<(Piece, Rotation, Rotation, Seq<(int, int)>)>,
    target: Placement,
    spawn: (usize, usize),
    keys: Seq<Key>,
) -> bool {
    &&& spec_send(Rotation::North, keys) == target.3
    &&& sim_send_keys(rows, margin, ks, target.0, spawn.0, spawn.1, Rotation::North, keys) == (
    target.1,
    target.2,
    target.3,
    )
}

/// Whether every key of a sequence is drawn from the given set.
pub open spec fn keys_from(s: Seq<Key>, keys: Seq<Key>) -> bool {
    forall|j: int| 0 <= j < s.len() ==> keys.contains(#[trigger] s[j])
}

/// Every sequence of length `n` drawn from `keys`.
fn seqs_of_len(keys: &Vec<Key>, n: usize) -> (r: Vec<Vec<Key>>)
    ensures
        forall|i: int|
            0 <= i < r@.len() ==> (#[trigger] r@[i])@.len() == n && keys_from(r@[i]@, keys@),
        forall|s: Seq<Key>|
            s.len() == n && keys_from(s, keys@) ==> exists|i: int|
                0 <= i < r@.len() && (#[trigger] r@[i])@ == s,
{
    let mut cur: Vec<Vec<Key>> = Vec::new();
    cur.push(Vec::new());
    proof {
        assert(cur@[0]@ =~= Seq::<Key>::empty());
        assert forall|s: Seq<Key>| s.len() == 0 && keys_from(s, keys@) implies exists|i: int|
            0 <= i < cur@.len() && (#[trigger] cur@[i])@ == s by {
            assert(cur@[0]@ =~= s);
        }
    }
    let mut step: usize = 0;
    while step < n
        invariant
            step <= n,
            forall|i: int|
                0 <= i < cur@.len() ==> (#[trigger] cur@[i])@.len() == step && keys_from(
                    cur@[i]@,
                    keys@,
                ),
            forall|s: Seq<Key>|
                s.len() == step && keys_from(s, keys@) ==> exists|i: int|
                    0 <= i < cur@.len() && (#[trigger] cur@[i])@ == s,
        decreases n - step,
    {
        let klen = keys.len();
        let mut next: Vec<Vec<Key>> = Vec::new();
        let mut ci: usize = 0;
        while ci < cur.len()
            invariant
                ci <= cur@.len(),
                klen == keys@.len(),
                forall|i: int|
                    0 <= i < cur@.len() ==> (#[trigger] cur@[i])@.len() == step && keys_from(
                        cur@[i]@,
                        keys@,
                    ),
                forall|i: int|
                    0 <= i < next@.len() ==> (#[trigger] next@[i])@.len() == step + 1 && keys_from(
                        next@[i]@,
                        keys@,
                    ),
                next@.len() == ci * keys@.len(),
                forall|i: int, j: int|
                    #![trigger cur@[i]@.push(keys@[j])]
                    0 <= i < ci && 0 <= j < keys@.len() ==> next@[i * keys@.len() + j]@
                        == cur@[i]@.push(keys@[j]),
            decreases cur@.len() - ci,
        {
            proof {
                crate::bits::lemma_mul_mono(ci as int, cur@.len() as int, klen as int);
                assert((ci + 1) * klen == ci * klen + klen) by (nonlinear_arith);
            }
            let mut kj: usize = 0;
            while kj < klen
                invariant
                    kj <= klen,
                    ci < cur@.len(),
                    klen == keys@.len(),
                    forall|i: int|
                        0 <= i < cur@.len() ==> (#[trigger] cur@[i])@.len() == step && keys_from(
                            cur@[i]@,
                            keys@,
                        ),
                    forall|i: int|
                        0 <= i < next@.len() ==> (#[trigger] next@[i])@.len() == step + 1
                            && keys_from(next@[i]@, keys@),
                    next@.len() == ci * keys@.len() + kj,
                    forall|i: int, j: int|
                        #![trigger cur@[i]@.push(keys@[j])]
                        0 <= i < ci && 0 <= j < keys@.len() ==> next@[i * keys@.len() + j]@
                            == cur@[i]@.push(keys@[j]),
                    forall|j: int|
                        0 <= j < kj ==> next@[ci * keys@.len() + j]@ == cur@[ci as int]@.push(
                            #[trigger] keys@[j],
                        ),
                decreases klen - kj,
            {
                let mut ext = copy_keys(&cur[ci]);
                ext.push(keys[kj]);
                let ghost prev = next@;
                next.push(ext);
                proof {
                    assert(next@[prev.len() as int]@ == cur@[ci as int]@.push(keys@[kj as int]));
                    assert(keys_from(next@[prev.len() as int]@, keys@)) by {
                        let e = next@[prev.len() as int]@;
                        assert forall|j: int| 0 <= j < e.len() implies keys@.contains(
                            #[trigger] e[j],
                        ) by {
                            if j < e.len() - 1 {
                                assert(e[j] == cur@[ci as int]@[j]);
                            } else {
                                assert(e[j] == keys@[kj as int]);
                            }
                        }
                    }
                    assert forall|i: int, j: int|
                        #![trigger cur@[i]@.push(keys@[j])]
                        0 <= i < ci && 0 <= j < keys@.len() implies next@[i * keys@.len() + j]@
                        == cur@[i]@.push(keys@[j]) by {
                        crate::bits::lemma_rowmajor_bound(j, i, klen as int, ci as int);
                        assert(i * klen + j < ci * klen + kj) by (nonlinear_arith)
                            requires
                                0 <= i < ci,
                                0 <= j < klen,
                                0 <= kj,
                        {}
                        assert(i * klen + j < prev.len());
                        assert(next@[i * keys@.len() + j] == prev[i * keys@.len() + j]);
                    }
                }
                kj = kj + 1;
            }
            ci = ci + 1;
        }
        proof {
            assert forall|s: Seq<Key>| s.len() == step + 1 && keys_from(s, keys@) implies exists|
                i: int,
            |
                0 <= i < next@.len() && (#[trigger] next@[i])@ == s by {
                let head = s.drop_last();
                assert(head.len() == step);
                assert(keys_from(head, keys@)) by {
                    assert forall|j: int| 0 <= j < head.len() implies keys@.contains(
                        #[trigger] head[j],
                    ) by {
                        assert(head[j] == s[j]);
                    }
                }
                let i = choose|i: int| 0 <= i < cur@.len() && (#[trigger] cur@[i])@ == head;
                assert(keys@.contains(s[s.len() - 1]));
                let j = choose|j: int| 0 <= j < keys@.len() && keys@[j] == s[s.len() - 1];
                assert(next@[i * keys@.len() + j]@ == cur@[i]@.push(keys@[j]));
                crate::bits::lemma_rowmajor_bound(j, i, keys@.len() as int, cur@.len() as int);
                assert(cur@.len() * keys@.len() == next@.len()) by (nonlinear_arith)
                    requires
                        next@.len() == cur@.len() * keys@.len(),
                {}
                assert(next@[i * keys@.len() + j]@ =~= s);
            }
        }
        cur = next;
        step = step + 1;
    }
    cur
}

/// A copy of a key sequence.
pub fn copy_keys(src: &Vec<Key>) -> (r: Vec<Key>)
    ensures
        r@ == src@,
{
    let mut out: Vec<Key> = Vec::new();
    let mut i: usize = 0;
    while i < src.len()
        invariant
            i <= src@.len(),
            out@ == src@.take(i as int),
        decreases src@.len() - i,
    {
        out.push(src[i]);
        proof {
            assert(src@.take(i + 1) =~= src@.take(i as int).push(src@[i as int]));
        }
        i = i + 1;
    }
    proof {
        assert(src@.take(src@.len() as int) =~= src@);
    }
    out
}

impl Placement {
    /// Whether this key sequence, simulated from the spawn state, lands
    /// exactly on this placement and names its rotation.
    pub fn check_inputs(
        self,
        board: &Board,
        keys: &Vec<Key>,
        spawn: (usize, usize),
        handling: Handling,
    ) -> (r: bool)
        requires
            self.0.is_tetromino(),
            board.wf(),
        ensures
            r == reaches(
                board.rows_view(),
                board.margin as int,
                handling.kickset.entries(),
                self,
                spawn,
                keys@,
            ),
    {
        let named = Rotation::North.send(keys);
        if !crate::kick::rot_eq(named, self.rotation()) {
            return false;
        }
        let mut input = Input::new(board, self.piece(), spawn, Rotation::North, handling);
        input.send_keys(keys);
        let e = input.placement();
        crate::kick::piece_eq(e.0, self.0) && e.1 == self.1 && e.2 == self.2 && crate::kick::rot_eq(
            e.3,
            self.3,
        )
    }

    /// The shortest key sequence, within the handling's input budget, that
    /// carries the piece from the spawn state to this placement; `None`
    /// when no sequence of at most that length reaches it.
    pub fn inputs(
        self,
        board: &Board,
        spawn: (usize, usize),
        handling: Handling,
    ) -> (r: Option<Vec<Key>>)
        requires
            self.0.is_tetromino(),
            board.wf(),
            handling.max < usize::MAX,
        ensures
            ({
                let rows = board.rows_view();
                let margin = board.margin as int;
                let ks = handling.kickset.entries();
                let legal = spec_possible_moves(handling.das, handling.use_180, handling.drop_type);
                match r {
                    Some(found) => {
                        &&& 1 <= found@.len() <= handling.max
                        &&& keys_from(found@, legal)
                        &&& reaches(rows, margin, ks, self, spawn, found@)
                        &&& forall|s: Seq<Key>|
                            1 <= s.len() < found@.len() && keys_from(s, legal) ==> !reaches(
                                rows,
                                margin,
                                ks,
                                self,
                                spawn,
                                s,
                            )
                    },
                    None => forall|s: Seq<Key>|
                        1 <= s.len() <= handling.max && keys_from(s, legal) ==> !reaches(
                            rows,
                            margin,
                            ks,
                            self,
                            spawn,
                            s,
                        ),
                }
            }),
    {
        let ghost rows = board.rows_view();
        let ghost margin = board.margin as int;
        let ghost ks = handling.kickset.entries();
        let ghost legal = spec_possible_moves(handling.das, handling.use_180, handling.drop_type);
        let valid_keys = handling.possible_moves();
        let mut n: usize = 1;
        while n <= handling.max
            invariant
                1 <= n,
                n <= handling.max + 1,
                handling.max < usize::MAX,
                board.wf(),
                self.0.is_tetromino(),
                rows == board.rows_view(),
                margin == board.margin as int,
                ks == handling.kickset.entries(),
                legal == spec_possible_moves(handling.das, handling.use_180, handling.drop_type),
                valid_keys@ == legal,
                forall|s: Seq<Key>|
                    1 <= s.len() < n && keys_from(s, legal) ==> !reaches(
                        rows,
                        margin,
                        ks,
                        self,
                        spawn,
                        s,
                    ),
            decreases handling.max + 1 - n,
        {
            let cands = seqs_of_len(&valid_keys, n);
            let mut i: usize = 0;
            while i < cands.len()
                invariant
                    i <= cands@.len(),
                    1 <= n,
                    n <= handling.max,
                    board.wf(),
                    self.0.is_tetromino(),
                    rows == board.rows_view(),
                    margin == board.margin as int,
                    ks == handling.kickset.entries(),
                    legal == spec_possible_moves(
                        handling.das,
                        handling.use_180,
                        handling.drop_type,
                    ),
                    forall|t: int|
                        0 <= t < cands@.len() ==> (#[trigger] cands@[t])@.len() == n && keys_from(
                            cands@[t]@,
                            valid_keys@,
                        ),
                    valid_keys@ == legal,
                    forall|s: Seq<Key>|
                        s.len() == n && keys_from(s, legal) ==> exists|t: int|
                            0 <= t < cands@.len() && (#[trigger] cands@[t])@ == s,
                    forall|s: Seq<Key>|
                        1 <= s.len() < n && keys_from(s, legal) ==> !reaches(
                            rows,
                            margin,
                            ks,
                            self,
                            spawn,
                            s,
                        ),
                    forall|t: int|
                        0 <= t < i ==> !reaches(
                            rows,
                            margin,
                            ks,
                            self,
                            spawn,
                            (#[trigger] cands@[t])@,
                        ),
                decreases cands@.len() - i,
            {
                let c = self.check_inputs(board, &cands[i], spawn, handling.clone());
                if c {
                    let found = copy_keys(&cands[i]);
                    proof {
                        assert(reaches(rows, margin, ks, self, spawn, found@));
                        assert(keys_from(found@, legal));
                        assert(found@.len() == n);
                        assert(1 <= n <= handling.max);
                    }
                    return Some(found);
                }
                i = i + 1;
            }
            proof {
                assert forall|s: Seq<Key>| 1 <= s.len() < n + 1 && keys_from(s, legal)
                    implies !reaches(rows, margin, ks, self, spawn, s) by {
                    if s.len() == n {
                        let t = choose|t: int|
                            0 <= t < cands@.len() && (#[trigger] cands@[t])@ == s;
                        assert(!reaches(rows, margin, ks, self, spawn, cands@[t]@));
                    }
                }
            }
            n = n + 1;
        }
        None
    }

    /// Whether some key sequence within the input budget reaches this
    /// placement: every feasible placement comes with such a witness.
    pub fn is_doable(&self, board: &Board, spawn: (usize, usize), handling: Handling) -> (r: bool)
        requires
            self.0.is_tetromino(),
            board.wf(),
            handling.max < usize::MAX,
        ensures
            r == exists|s: Seq<Key>|
                1 <= s.len() <= handling.max && keys_from(
                    s,
                    spec_possible_moves(handling.das, handling.use_180, handling.drop_type),
                ) && #[trigger] reaches(
                    board.rows_view(),
                    board.margin as int,
                    handling.kickset.entries(),
                    *self,
                    spawn,
                    s,
                ),
    {
        let ghost orig = handling;
        let mut h = handling;
        h.finesse = false;
        proof {
            assert(h.kickset == orig.kickset);
            assert(h.kickset.entries() == orig.kickset.entries());
            assert(h.max == orig.max && h.das == orig.das && h.use_180 == orig.use_180
                && h.drop_type == orig.drop_type);
        }
        let r = self.inputs(board, spawn, h);
        proof {
            if r is Some {
                let found = r->Some_0;
                assert(reaches(
                    board.rows_view(),
                    board.margin as int,
                    handling.kickset.entries(),
                    *self,
                    spawn,
                    found@,
                ));
            }
        }
        r.is_some()
    }

    /// The shortest key sequence reaching this placement, searched in
    /// finesse mode.
    pub fn finesse(
        self,
        board: &Board,
        spawn: (usize, usize),
        handling: Handling,
    ) -> (r: Option<Vec<Key>>)
        requires
            self.0.is_tetromino(),
            board.wf(),
            handling.max < usize::MAX,
        ensures
            ({
                let rows = board.rows_view();
                let margin = board.margin as int;
                let ks = handling.kickset.entries();
                let legal = spec_possible_moves(handling.das, handling.use_180, handling.drop_type);
                match r {
                    Some(found) => {
                        &&& 1 <= found@.len() <= handling.max
                        &&& keys_from(found@, legal)
                        &&& reaches(rows, margin, ks, self, spawn, found@)
                        &&& forall|s: Seq<Key>|
                            1 <= s.len() < found@.len() && keys_from(s, legal) ==> !reaches(
                                rows,
                                margin,
                                ks,
                                self,
                                spawn,
                                s,
                            )
                    },
                    None => forall|s: Seq<Key>|
                        1 <= s.len() <= handling.max && keys_from(s, legal) ==> !reaches(
                            rows,
                            margin,
                            ks,
                            self,
                            spawn,
                            s,
                        ),
                }
            }),
    {
        let ghost orig = handling;
        let mut h = handling;
        h.finesse = true;
        proof {
            assert(h.kickset == orig.kickset);
            assert(h.kickset.entries() == orig.kickset.entries());
            assert(h.max == orig.max && h.das == orig.das && h.use_180 == orig.use_180
                && h.drop_type == orig.drop_type);
        }
        self.inputs(board, spawn, h)
    }

    /// Whether appending one key to a prefix would still change the
    /// simulated state.
    pub fn is_input_useful(
        self,
        board: &Board,
        orig_keys: &Vec<Key>,
        key: Key,
        spawn: (usize, usize),
        handling: Handling,
    ) -> (r: bool)
        requires
            self.0.is_tetromino(),
            board.wf(),
        ensures
            ({
                let s = sim_send_keys(
                    board.rows_view(),
                    board.margin as int,
                    handling.kickset.entries(),
                    self.0,
                    spawn.0,
                    spawn.1,
                    Rotation::North,
                    orig_keys@,
                );
                r == (crate::input::sim_send_key(
                    board.rows_view(),
                    board.margin as int,
                    handling.kickset.entries(),
                    self.0,
                    s.0,
                    s.1,
                    s.2,
                    key,
                ) != s)
            }),
    {
        let mut i = Input::new(board, self.piece(), spawn, Rotation::North, handling);
        i.send_keys(orig_keys);
        i.can(key)
    }
}

} // verus!

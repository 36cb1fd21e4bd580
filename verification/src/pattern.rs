//! The queue and pattern engine: pattern expressions expand to concrete
//! piece queues, and a single-slot hold buffer reorders queues.

use vstd::prelude::*;
use vstd::multiset::Multiset;
use vstd::seq_lib::group_to_multiset_ensures;

use crate::kick::piece_eq;
use crate::piece::Piece;

verus! {

/// An ordered sequence of pieces to play.
#[derive(Debug)]
pub struct Queue(pub Vec<Piece>);

impl View for Queue {
    type V = Seq<Piece>;

    open spec fn view(&self) -> Seq<Piece> {
        self.0@
    }
}

impl Clone for Queue {
    /// A clone carries the same pieces.
    fn clone(&self) -> (r: Self)
        ensures
            r@ == self@,
    {
        Queue(copy_pieces(&self.0))
    }
}

impl Queue {
    /// The empty queue.
    pub fn empty() -> (r: Queue)
        ensures
            r@ =~= Seq::<Piece>::empty(),
    {
        Queue(Vec::new())
    }

    /// The pieces in order.
    pub fn pieces(&self) -> (r: &Vec<Piece>)
        ensures
            r == &self.0,
    {
        &self.0
    }

    /// The number of pieces.
    pub fn len(&self) -> (r: usize)
        ensures
            r == self@.len(),
    {
        self.0.len()
    }

    /// Whether the queue holds no piece.
    pub fn is_empty(&self) -> (r: bool)
        ensures
            r == (self@.len() == 0),
    {
        self.0.len() == 0
    }
}

/// A copy of a piece list.
pub fn copy_pieces(src: &Vec<Piece>) -> (r: Vec<Piece>)
    ensures
        r@ == src@,
{
    let mut out: Vec<Piece> = Vec::new();
    let mut i: usize = 0;
    while i < src.len()
        invariant
            i <= src@.len(),
            out@ == src@.take(i as int),
        decreases src@.len() - i,
    {
        out.push(src[i]);
        proof {
            assert(src@.take(i + 1) =~= src@.take(i as int).push(src@[i as int]));
        }
        i = i + 1;
    }
    proof {
        assert(src@.take(src@.len() as int) =~= src@);
    }
    out
}

/// Whether two queues hold the same pieces in the same order.
pub fn queue_eq(a: &Queue, b: &Queue) -> (r: bool)
    ensures
        r == (a@ == b@),
{
    if a.0.len() != b.0.len() {
        proof {
            assert(a@ != b@);
        }
        return false;
    }
    let mut i: usize = 0;
    while i < a.0.len()
        invariant
            i <= a@.len(),
            a@.len() == b@.len(),
            forall|j: int| 0 <= j < i ==> a@[j] == b@[j],
        decreases a@.len() - i,
    {
        if !piece_eq(a.0[i], b.0[i]) {
            proof {
                assert(a@[i as int] != b@[i as int]);
            }
            return false;
        }
        i = i + 1;
    }
    proof {
        assert(a@ =~= b@);
    }
    true
}

/// The multiset a hold slot contributes: empty, or one piece.
pub open spec fn hold_multiset(hold: Option<Piece>) -> Multiset<Piece> {
    match hold {
        Option::None => Multiset::empty(),
        Option::Some(h) => Multiset::empty().insert(h),
    }
}

/// Every sequence of the set with one piece prepended.
pub open spec fn prepend_all(p: Piece, s: Set<Seq<Piece>>) -> Set<Seq<Piece>> {
    Set::new(|w: Seq<Piece>| w.len() > 0 && w[0] == p && s.contains(w.drop_first()))
}

/// Every play order a single-slot hold buffer can produce from the queue
/// and the held piece. At each step the player either plays the front of
/// the queue or swaps it with the hold slot; two swaps in a row with a
/// full slot undo each other, so they are not explored.
pub open spec fn hold_plays(q: Seq<Piece>, hold: Option<Piece>, swapped: bool) -> Set<Seq<Piece>>
    decreases q.len(), (if swapped {
        0int
    } else {
        1int
    }),
{
    if q.len() == 0 {
        match hold {
            Option::None => set![Seq::<Piece>::empty()],
            Option::Some(h) => set![seq![h]],
        }
    } else {
        let play = prepend_all(q[0], hold_plays(q.drop_first(), hold, false));
        let swap = match hold {
            Option::None => hold_plays(q.drop_first(), Some(q[0]), false),
            Option::Some(h) => if !swapped {
                hold_plays(seq![h] + q.drop_first(), Some(q[0]), true)
            } else {
                Set::empty()
            },
        };
        play.union(swap)
    }
}

/// Playing the queue in order, never using the hold slot, is always among
/// the hold variants.
pub proof fn lemma_hold_plays_contains_self(q: Seq<Piece>, swapped: bool)
    ensures
        hold_plays(q, Option::None, swapped).contains(q),
    decreases q.len(),
{
    if q.len() == 0 {
        assert(q =~= Seq::<Piece>::empty());
    } else {
        lemma_hold_plays_contains_self(q.drop_first(), false);
        let play = prepend_all(q[0], hold_plays(q.drop_first(), Option::<Piece>::None, false));
        assert(play.contains(seq![q[0]] + q.drop_first())) by {
            let w = seq![q[0]] + q.drop_first();
            assert(w[0] == q[0]);
            assert(w.drop_first() =~= q.drop_first());
            assert(hold_plays(q.drop_first(), Option::<Piece>::None, false).contains(
                w.drop_first(),
            ));
        }
        assert(seq![q[0]] + q.drop_first() =~= q);
    }
}

/// Every hold variant plays exactly the pieces of the queue plus the held
/// piece: the multiset of pieces is preserved.
pub proof fn lemma_hold_plays_multiset(
    q: Seq<Piece>,
    hold: Option<Piece>,
    swapped: bool,
    s: Seq<Piece>,
)
    requires
        hold_plays(q, hold, swapped).contains(s),
    ensures
        s.to_multiset() == q.to_multiset().add(hold_multiset(hold)),
    decreases q.len(), (if swapped {
        0int
    } else {
        1int
    }),
{
    broadcast use group_to_multiset_ensures;

    if q.len() == 0 {
        match hold {
            Option::None => {
                assert(s =~= Seq::<Piece>::empty());
                assert(s.to_multiset() =~= q.to_multiset().add(hold_multiset(hold)));
            },
            Option::Some(h) => {
                assert(s =~= seq![h]);
                lemma_singleton_multiset(h);
                assert(q.to_multiset() =~= Multiset::<Piece>::empty());
                assert(s.to_multiset() =~= q.to_multiset().add(hold_multiset(hold)));
            },
        }
    } else {
        let play = prepend_all(q[0], hold_plays(q.drop_first(), hold, false));
        if play.contains(s) {
            let s2 = s.drop_first();
            assert(s =~= seq![q[0]] + s2);
            lemma_hold_plays_multiset(q.drop_first(), hold, false, s2);
            lemma_prepend_multiset(q[0], s2);
            lemma_prepend_multiset(q[0], q.drop_first());
            assert(seq![q[0]] + q.drop_first() =~= q);
            assert(s.to_multiset() =~= q.to_multiset().add(hold_multiset(hold)));
        } else {
            match hold {
                Option::None => {
                    lemma_hold_plays_multiset(q.drop_first(), Some(q[0]), false, s);
                    lemma_singleton_multiset(q[0]);
                    lemma_prepend_multiset(q[0], q.drop_first());
                    assert(seq![q[0]] + q.drop_first() =~= q);
                    assert(s.to_multiset() =~= q.to_multiset().add(hold_multiset(hold)));
                },
                Option::Some(h) => {
                    assert(!swapped);
                    lemma_hold_plays_multiset(seq![h] + q.drop_first(), Some(q[0]), true, s);
                    lemma_prepend_multiset(h, q.drop_first());
                    lemma_prepend_multiset(q[0], q.drop_first());
                    lemma_singleton_multiset(h);
                    lemma_singleton_multiset(q[0]);
                    assert(seq![q[0]] + q.drop_first() =~= q);
                    assert(s.to_multiset() =~= q.to_multiset().add(hold_multiset(hold)));
                },
            }
        }
    }
}

/// The multiset of a one-piece sequence.
pub proof fn lemma_singleton_multiset(p: Piece)
    ensures
        seq![p].to_multiset() == Multiset::<Piece>::empty().insert(p),
{
    broadcast use group_to_multiset_ensures;

    assert(seq![p] =~= Seq::<Piece>::empty().push(p));
    assert(Seq::<Piece>::empty().push(p).to_multiset() =~= Seq::<Piece>::empty()
        .to_multiset().insert(p));
    assert(seq![p].to_multiset() =~= Multiset::<Piece>::empty().insert(p));
}

/// Prepending a piece inserts it into the multiset.
pub proof fn lemma_prepend_multiset(p: Piece, s: Seq<Piece>)
    ensures
        (seq![p] + s).to_multiset() == s.to_multiset().insert(p),
{
    broadcast use group_to_multiset_ensures;

    let w = seq![p] + s;
    assert(w.remove(0) =~= s);
    assert(w.remove(0).to_multiset() =~= w.to_multiset().remove(w[0]));
    assert(w[0] == p);
    assert(w.to_multiset().contains(p)) by {
        assert(w.contains(p)) by {
            assert(w[0] == p);
        }
    }
    assert(w.to_multiset() =~= s.to_multiset().insert(p)) by {
        assert(s.to_multiset() == w.to_multiset().remove(p));
        assert forall|x: Piece| w.to_multiset().count(x) == s.to_multiset().insert(p).count(
            x,
        ) by {
            if x == p {
                assert(w.to_multiset().count(p) >= 1);
            }
        }
    }
}

impl Queue {
    /// Every queue a single-slot hold buffer can produce from this one,
    /// without duplicates.
    pub fn hold_queues(&self) -> (r: Vec<Queue>)
        ensures
            forall|i: int|
                0 <= i < r@.len() ==> hold_plays(self@, Option::None, false).contains(
                    (#[trigger] r@[i])@,
                ),
            forall|s: Seq<Piece>|
                hold_plays(self@, Option::None, false).contains(s) ==> exists|i: int|
                    0 <= i < r@.len() && (#[trigger] r@[i])@ == s,
            forall|i: int, j: int| 0 <= i < j < r@.len() ==> r@[i]@ != r@[j]@,
    {
        let all = hold_plays_exec(&self.0, None, false);
        let mut out: Vec<Queue> = Vec::new();
        let mut i: usize = 0;
        while i < all.len()
            invariant
                i <= all@.len(),
                forall|t: int|
                    0 <= t < all@.len() ==> hold_plays(self@, Option::None, false).contains(
                        (#[trigger] all@[t])@,
                    ),
                forall|t: int|
                    0 <= t < out@.len() ==> hold_plays(self@, Option::None, false).contains(
                        (#[trigger] out@[t])@,
                    ),
                forall|t: int, u: int| 0 <= t < u < out@.len() ==> out@[t]@ != out@[u]@,
                forall|t: int|
                    0 <= t < i ==> exists|u: int|
                        0 <= u < out@.len() && (#[trigger] out@[u])@ == (#[trigger] all@[t])@,
            decreases all@.len() - i,
        {
            let mut seen = false;
            let mut j: usize = 0;
            while j < out.len()
                invariant
                    j <= out@.len(),
                    i < all@.len(),
                    seen == exists|u: int| 0 <= u < j && (#[trigger] out@[u])@ == all@[i as int]@,
                decreases out@.len() - j,
            {
                if queue_eq(&out[j], &all[i]) {
                    proof {
                        assert(out@[j as int]@ == all@[i as int]@);
                    }
                    seen = true;
                }
                j = j + 1;
            }
            let ghost prev = out@;
            if !seen {
                out.push(all[i].clone());
                proof {
                    assert(out@[out@.len() - 1]@ == all@[i as int]@);
                }
            }
            proof {
                assert forall|t: int| 0 <= t < i + 1 implies exists|u: int|
                    0 <= u < out@.len() && (#[trigger] out@[u])@ == (#[trigger] all@[t])@ by {
                    if t < i {
                        let u = choose|u: int|
                            0 <= u < prev.len() && (#[trigger] prev[u])@ == all@[t]@;
                        assert(out@[u]@ == all@[t]@);
                    } else {
                        if seen {
                            let u = choose|u: int|
                                0 <= u < prev.len() && (#[trigger] prev[u])@ == all@[i as int]@;
                            assert(out@[u]@ == all@[i as int]@);
                        } else {
                            assert(out@[prev.len() as int]@ == all@[i as int]@);
                        }
                    }
                }
            }
            i = i + 1;
        }
        proof {
            assert forall|s: Seq<Piece>| hold_plays(self@, Option::None, false).contains(s)
                implies exists|i0: int| 0 <= i0 < out@.len() && (#[trigger] out@[i0])@ == s by {
                let t = choose|t: int| 0 <= t < all@.len() && (#[trigger] all@[t])@ == s;
                let u = choose|u: int|
                    0 <= u < out@.len() && (#[trigger] out@[u])@ == all@[t]@;
                assert(out@[u]@ == s);
            }
        }
        out
    }

    /// Whether the other queue is reachable from this one through the hold
    /// buffer.
    pub fn translatable(&self, b: &Queue) -> (r: bool)
        ensures
            r == hold_plays(self@, Option::None, false).contains(b@),
    {
        let hq = self.hold_queues();
        let mut i: usize = 0;
        while i < hq.len()
            invariant
                i <= hq@.len(),
                forall|t: int|
                    0 <= t < hq@.len() ==> hold_plays(self@, Option::None, false).contains(
                        (#[trigger] hq@[t])@,
                    ),
                forall|s: Seq<Piece>|
                    hold_plays(self@, Option::None, false).contains(s) ==> exists|t: int|
                        0 <= t < hq@.len() && (#[trigger] hq@[t])@ == s,
                forall|t: int| 0 <= t < i ==> (#[trigger] hq@[t])@ != b@,
            decreases hq@.len() - i,
        {
            if queue_eq(&hq[i], b) {
                return true;
            }
            i = i + 1;
        }
        proof {
            if hold_plays(self@, Option::None, false).contains(b@) {
                let t = choose|t: int| 0 <= t < hq@.len() && (#[trigger] hq@[t])@ == b@;
            }
        }
        false
    }
}

/// Every play order the hold buffer can produce, possibly with repeats.
fn hold_plays_exec(queue: &Vec<Piece>, hold: Option<Piece>, swapped: bool) -> (r: Vec<Queue>)
    ensures
        forall|i: int|
            0 <= i < r@.len() ==> hold_plays(queue@, hold, swapped).contains((#[trigger] r@[i])@),
        forall|s: Seq<Piece>|
            hold_plays(queue@, hold, swapped).contains(s) ==> exists|i: int|
                0 <= i < r@.len() && (#[trigger] r@[i])@ == s,
    decreases queue@.len(), (if swapped {
        0int
    } else {
        1int
    }),
{
    let ghost target = hold_plays(queue@, hold, swapped);
    if queue.len() == 0 {
        let mut out: Vec<Queue> = Vec::new();
        match hold {
            None => {
                out.push(Queue::empty());
                proof {
                    assert(out@[0]@ =~= Seq::<Piece>::empty());
                    assert forall|s: Seq<Piece>| target.contains(s) implies exists|i: int|
                        0 <= i < out@.len() && (#[trigger] out@[i])@ == s by {
                        assert(s == Seq::<Piece>::empty());
                        assert(out@[0]@ == s);
                    }
                }
            },
            Some(h) => {
                let mut v: Vec<Piece> = Vec::new();
                v.push(h);
                out.push(Queue(v));
                proof {
                    assert(out@[0]@ =~= seq![h]);
                    assert forall|s: Seq<Piece>| target.contains(s) implies exists|i: int|
                        0 <= i < out@.len() && (#[trigger] out@[i])@ == s by {
                        assert(s == seq![h]);
                        assert(out@[0]@ == s);
                    }
                }
            },
        }
        return out;
    }
    let front = queue[0];
    let rest = tail_pieces(queue);
    let ghost play_set = prepend_all(queue@[0], hold_plays(queue@.drop_first(), hold, false));
    // play the front of the queue
    let sub_play = hold_plays_exec(&rest, hold, false);
    let mut out: Vec<Queue> = Vec::new();
    let mut i: usize = 0;
    while i < sub_play.len()
        invariant
            i <= sub_play@.len(),
            rest@ == queue@.drop_first(),
            queue@.len() > 0,
            front == queue@[0],
            play_set == prepend_all(queue@[0], hold_plays(queue@.drop_first(), hold, false)),
            forall|t: int|
                0 <= t < sub_play@.len() ==> hold_plays(queue@.drop_first(), hold, false).contains(
                    (#[trigger] sub_play@[t])@,
                ),
            forall|s: Seq<Piece>|
                hold_plays(queue@.drop_first(), hold, false).contains(s) ==> exists|t: int|
                    0 <= t < sub_play@.len() && (#[trigger] sub_play@[t])@ == s,
            out@.len() == i,
            forall|t: int| 0 <= t < i ==> (#[trigger] out@[t])@ == seq![queue@[0]] + sub_play@[t]@,
            forall|t: int| 0 <= t < i ==> play_set.contains((#[trigger] out@[t])@),
        decreases sub_play@.len() - i,
    {
        let mut v: Vec<Piece> = Vec::new();
        v.push(front);
        let mut rest_copy = copy_pieces(sub_play[i].pieces());
        let mut k: usize = 0;
        while k < rest_copy.len()
            invariant
                k <= rest_copy@.len(),
                rest_copy@ == sub_play@[i as int]@,
                v@ == seq![queue@[0]] + rest_copy@.take(k as int),
                i < sub_play@.len(),
                front == queue@[0],
            decreases rest_copy@.len() - k,
        {
            v.push(rest_copy[k]);
            proof {
                assert(v@ =~= seq![queue@[0]] + rest_copy@.take(k + 1));
            }
            k = k + 1;
        }
        proof {
            assert(rest_copy@.take(rest_copy@.len() as int) =~= rest_copy@);
            assert(v@ == seq![queue@[0]] + sub_play@[i as int]@);
        }
        out.push(Queue(v));
        proof {
            assert(play_set.contains(out@[out@.len() - 1]@)) by {
                let w = out@[out@.len() - 1]@;
                assert(w == seq![queue@[0]] + sub_play@[i as int]@);
                assert(w[0] == queue@[0]);
                assert(w.drop_first() =~= sub_play@[i as int]@);
                assert(hold_plays(queue@.drop_first(), hold, false).contains(w.drop_first()));
            }
        }
        i = i + 1;
    }
    let ghost play_len = out@.len();
    // swap the front with the hold slot
    match hold {
        None => {
            let sub_swap = hold_plays_exec(&rest, Some(front), false);
            let mut j: usize = 0;
            while j < sub_swap.len()
                invariant
                    j <= sub_swap@.len(),
                    rest@ == queue@.drop_first(),
                    queue@.len() > 0,
                    front == queue@[0],
                    hold is None,
                    play_set == prepend_all(
                        queue@[0],
                        hold_plays(queue@.drop_first(), hold, false),
                    ),
                    forall|t: int|
                        0 <= t < sub_swap@.len() ==> hold_plays(
                            queue@.drop_first(),
                            Some(queue@[0]),
                            false,
                        ).contains((#[trigger] sub_swap@[t])@),
                    forall|s: Seq<Piece>|
                        hold_plays(queue@.drop_first(), Some(queue@[0]), false).contains(s)
                            ==> exists|t: int|
                            0 <= t < sub_swap@.len() && (#[trigger] sub_swap@[t])@ == s,
                    out@.len() == play_len + j,
                    play_len == sub_play@.len(),
                    forall|t: int| 0 <= t < play_len ==> play_set.contains((#[trigger] out@[t])@),
                    forall|t: int|
                        0 <= t < play_len ==> (#[trigger] out@[t])@ == seq![queue@[0]]
                            + sub_play@[t]@,
                    forall|s: Seq<Piece>|
                        hold_plays(queue@.drop_first(), hold, false).contains(s) ==> exists|t: int|
                            0 <= t < sub_play@.len() && (#[trigger] sub_play@[t])@ == s,
                    forall|t: int|
                        play_len <= t < out@.len() ==> (#[trigger] out@[t])@ == sub_swap@[t
                            - play_len]@,
                decreases sub_swap@.len() - j,
            {
                out.push(sub_swap[j].clone());
                j = j + 1;
            }
            proof {
                assert forall|t: int| 0 <= t < out@.len() implies target.contains(
                    (#[trigger] out@[t])@,
                ) by {
                    if t < play_len {
                        assert(play_set.contains(out@[t]@));
                    } else {
                        assert(hold_plays(queue@.drop_first(), Some(queue@[0]), false).contains(
                            out@[t]@,
                        ));
                    }
                }
                assert(target == prepend_all(
                    queue@[0],
                    hold_plays(queue@.drop_first(), hold, false),
                ).union(hold_plays(queue@.drop_first(), Some(queue@[0]), false)));
                assert forall|s: Seq<Piece>| target.contains(s) implies exists|i0: int|
                    0 <= i0 < out@.len() && (#[trigger] out@[i0])@ == s by {
                    if play_set.contains(s) {
                        let s2 = s.drop_first();
                        assert(s =~= seq![queue@[0]] + s2);
                        assert(hold_plays(queue@.drop_first(), hold, false).contains(s2));
                        let t = choose|t: int|
                            0 <= t < sub_play@.len() && (#[trigger] sub_play@[t])@ == s2;
                        assert(out@[t]@ == s);
                    } else {
                        assert(hold_plays(queue@.drop_first(), Some(queue@[0]), false).contains(
                            s,
                        ));
                        let t = choose|t: int|
                            0 <= t < sub_swap@.len() && (#[trigger] sub_swap@[t])@ == s;
                        assert(out@[play_len + t]@ == s);
                    }
                }
            }
        },
        Some(h) => {
            if !swapped {
                let mut swq: Vec<Piece> = Vec::new();
                swq.push(h);
                let mut k: usize = 0;
                while k < rest.len()
                    invariant
                        k <= rest@.len(),
                        swq@ == seq![h] + rest@.take(k as int),
                    decreases rest@.len() - k,
                {
                    swq.push(rest[k]);
                    proof {
                        assert(swq@ =~= seq![h] + rest@.take(k + 1));
                    }
                    k = k + 1;
                }
                proof {
                    assert(rest@.take(rest@.len() as int) =~= rest@);
                    assert(swq@ == seq![h] + queue@.drop_first());
                }
                let sub_swap = hold_plays_exec(&swq, Some(front), true);
                let mut j: usize = 0;
                while j < sub_swap.len()
                    invariant
                        j <= sub_swap@.len(),
                        queue@.len() > 0,
                        front == queue@[0],
                        hold == Some(h),
                        !swapped,
                        swq@ == seq![h] + queue@.drop_first(),
                        play_set == prepend_all(
                            queue@[0],
                            hold_plays(queue@.drop_first(), hold, false),
                        ),
                        forall|t: int|
                            0 <= t < sub_swap@.len() ==> hold_plays(
                                seq![h] + queue@.drop_first(),
                                Some(queue@[0]),
                                true,
                            ).contains((#[trigger] sub_swap@[t])@),
                        forall|s: Seq<Piece>|
                            hold_plays(seq![h] + queue@.drop_first(), Some(queue@[0]), true)
                                .contains(s) ==> exists|t: int|
                                0 <= t < sub_swap@.len() && (#[trigger] sub_swap@[t])@ == s,
                        out@.len() == play_len + j,
                        play_len == sub_play@.len(),
                        forall|t: int|
                            0 <= t < play_len ==> play_set.contains((#[trigger] out@[t])@),
                        forall|t: int|
                            0 <= t < play_len ==> (#[trigger] out@[t])@ == seq![queue@[0]]
                                + sub_play@[t]@,
                        forall|s: Seq<Piece>|
                            hold_plays(queue@.drop_first(), hold, false).contains(s) ==> exists|
                                t: int,
                            |
                                0 <= t < sub_play@.len() && (#[trigger] sub_play@[t])@ == s,
                        forall|t: int|
                            play_len <= t < out@.len() ==> (#[trigger] out@[t])@ == sub_swap@[t
                                - play_len]@,
                    decreases sub_swap@.len() - j,
                {
                    out.push(sub_swap[j].clone());
                    j = j + 1;
                }
                proof {
                    assert forall|t: int| 0 <= t < out@.len() implies target.contains(
                        (#[trigger] out@[t])@,
                    ) by {
                        if t < play_len {
                            assert(play_set.contains(out@[t]@));
                        } else {
                            assert(hold_plays(
                                seq![h] + queue@.drop_first(),
                                Some(queue@[0]),
                                true,
                            ).contains(out@[t]@));
                        }
                    }
                    assert(target == prepend_all(
                        queue@[0],
                        hold_plays(queue@.drop_first(), hold, false),
                    ).union(hold_plays(seq![h] + queue@.drop_first(), Some(queue@[0]), true)));
                    assert forall|s: Seq<Piece>| target.contains(s) implies exists|i0: int|
                        0 <= i0 < out@.len() && (#[trigger] out@[i0])@ == s by {
                        if play_set.contains(s) {
                            let s2 = s.drop_first();
                            assert(s =~= seq![queue@[0]] + s2);
                            assert(hold_plays(queue@.drop_first(), hold, false).contains(s2));
                            let t = choose|t: int|
                                0 <= t < sub_play@.len() && (#[trigger] sub_play@[t])@ == s2;
                            assert(out@[t]@ == s);
                        } else {
                            assert(hold_plays(
                                seq![h] + queue@.drop_first(),
                                Some(queue@[0]),
                                true,
                            ).contains(s));
                            let t = choose|t: int|
                                0 <= t < sub_swap@.len() && (#[trigger] sub_swap@[t])@ == s;
                            assert(out@[play_len + t]@ == s);
                        }
                    }
                }
            } else {
                proof {
                    assert forall|t: int| 0 <= t < out@.len() implies target.contains(
                        (#[trigger] out@[t])@,
                    ) by {
                        assert(play_set.contains(out@[t]@));
                    }
                    assert forall|s: Seq<Piece>| target.contains(s) implies exists|i0: int|
                        0 <= i0 < out@.len() && (#[trigger] out@[i0])@ == s by {
                        assert(play_set.contains(s));
                        let s2 = s.drop_first();
                        assert(s =~= seq![queue@[0]] + s2);
                        let t = choose|t: int|
                            0 <= t < sub_play@.len() && (#[trigger] sub_play@[t])@ == s2;
                        assert(out@[t]@ == s);
                    }
                }
            }
        },
    }
    out
}

/// One element of a pattern expression.
#[derive(Debug)]
pub enum Part {
    All(Box<Part>),
    Count(Box<Part>, usize),
    Single(Piece),
    Bag(Vec<Part>),
    Except(Vec<Part>),
    Wildcard,
}

/// A pattern expression: its parts expand in order, by cross product.
#[derive(Debug)]
pub struct Pattern {
    pub parts: Vec<Part>,
}

/// The seven tetromino kinds a wildcard stands for.
pub open spec fn wildcard_pieces() -> Seq<Piece> {
    seq![Piece::I, Piece::J, Piece::O, Piece::L, Piece::Z, Piece::S, Piece::T]
}

/// The views of a vector of queues.
pub open spec fn queues_view(s: Seq<Queue>) -> Seq<Seq<Piece>> {
    s.map_values(|q: Queue| q@)
}

/// The views of a vector of piece lists.
pub open spec fn plists_view(s: Seq<Vec<Piece>>) -> Seq<Seq<Piece>> {
    s.map_values(|v: Vec<Piece>| v@)
}

/// The views of a vector of queue lists.
pub open spec fn qlists_view(s: Seq<Vec<Queue>>) -> Seq<Seq<Seq<Piece>>> {
    s.map_values(|v: Vec<Queue>| queues_view(v@))
}

/// Every permutation of the set, each with `x` prepended.
pub open spec fn prepend_each<T>(x: T, ps: Seq<Seq<T>>) -> Seq<Seq<T>> {
    ps.map_values(|p: Seq<T>| seq![x] + p)
}

/// All ordered arrangements of `k` distinct positions of the items.
pub open spec fn spec_permutations<T>(items: Seq<T>, k: nat) -> Seq<Seq<T>>
    decreases k, items.len() + 1,
{
    if k == 0 {
        seq![Seq::<T>::empty()]
    } else {
        perms_at(items, k, 0)
    }
}

/// The arrangements whose first element is taken at position `i` or later.
pub open spec fn perms_at<T>(items: Seq<T>, k: nat, i: int) -> Seq<Seq<T>>
    decreases k, items.len() - i,
{
    if k == 0 || i < 0 || i >= items.len() {
        Seq::empty()
    } else {
        prepend_each(items[i], spec_permutations(items.remove(i), (k - 1) as nat)) + perms_at(
            items,
            k,
            i + 1,
        )
    }
}

/// The expansion of one pattern part: the list of queues it can produce.
pub open spec fn spec_expand_part(p: Part) -> Seq<Seq<Piece>>
    decreases p, 0int,
{
    match p {
        Part::Single(t) => seq![seq![t]],
        Part::Wildcard => wildcard_singletons_at(0),
        Part::Bag(parts) => expand_list(parts, 0),
        Part::Except(ex) => except_at(ex@, 0),
        Part::Count(sub, k) => count_expansion(spec_expand_part(*sub), k as nat),
        Part::All(sub) => {
            let e = spec_expand_part(*sub);
            if e.len() == 0 {
                Seq::empty()
            } else {
                spec_permutations(e.flatten(), e.flatten().len())
            }
        },
    }
}

/// The expansions of the parts of a bag, concatenated in order.
pub open spec fn expand_list(parts: Vec<Part>, i: int) -> Seq<Seq<Piece>>
    decreases parts, parts@.len() - i, 1int,
{
    if i < 0 || i >= parts@.len() {
        Seq::empty()
    } else {
        spec_expand_part(parts@[i]) + expand_list(parts, i + 1)
    }
}

/// The singleton queues for the wildcard pieces from position `i` on.
pub open spec fn wildcard_singletons_at(i: int) -> Seq<Seq<Piece>>
    decreases wildcard_pieces().len() - i,
{
    if i < 0 || i >= wildcard_pieces().len() {
        Seq::empty()
    } else {
        seq![seq![wildcard_pieces()[i]]] + wildcard_singletons_at(i + 1)
    }
}

/// The singleton queues for the wildcard pieces not named by the
/// exclusion list.
pub open spec fn except_at(ex: Seq<Part>, i: int) -> Seq<Seq<Piece>>
    decreases wildcard_pieces().len() - i,
{
    if i < 0 || i >= wildcard_pieces().len() {
        Seq::empty()
    } else {
        (if ex.contains(Part::Single(wildcard_pieces()[i])) {
            Seq::<Seq<Piece>>::empty()
        } else {
            seq![seq![wildcard_pieces()[i]]]
        }) + except_at(ex, i + 1)
    }
}

/// The expansion of a counted part: each arrangement of `k` of its
/// queues, flattened.
pub open spec fn count_expansion(exps: Seq<Seq<Piece>>, k: nat) -> Seq<Seq<Piece>> {
    spec_permutations(exps, k).map_values(|p: Seq<Seq<Piece>>| p.flatten())
}

/// Whether every counted part asks for at most as many queues as its
/// sub-expression expands to; the expansion would otherwise be undefined.
pub open spec fn counts_ok(p: Part) -> bool
    decreases p, 0int,
{
    match p {
        Part::Single(_) => true,
        Part::Wildcard => true,
        Part::Bag(parts) => counts_ok_list(parts, 0),
        Part::Except(_) => true,
        Part::Count(sub, k) => counts_ok(*sub) && k <= spec_expand_part(*sub).len(),
        Part::All(sub) => counts_ok(*sub),
    }
}

/// Whether every part of a list satisfies `counts_ok`.
pub open spec fn counts_ok_list(parts: Vec<Part>, i: int) -> bool
    decreases parts, parts@.len() - i, 1int,
{
    if i < 0 || i >= parts@.len() {
        true
    } else {
        counts_ok(parts@[i]) && counts_ok_list(parts, i + 1)
    }
}

/// The list without its element at `i`.
fn remove_at_pieces(items: &Vec<Piece>, i: usize) -> (r: Vec<Piece>)
    requires
        i < items@.len(),
    ensures
        r@ == items@.remove(i as int),
{
    let mut out: Vec<Piece> = Vec::new();
    let mut j: usize = 0;
    while j < items.len()
        invariant
            j <= items@.len(),
            i < items@.len(),
            out@ =~= if j <= i {
                items@.take(j as int)
            } else {
                items@.remove(i as int).take(j - 1)
            },
        decreases items@.len() - j,
    {
        if j != i {
            out.push(items[j]);
        }
        proof {
            if j + 1 <= i {
                assert(items@.take(j + 1) =~= items@.take(j as int).push(items@[j as int]));
            } else if j == i {
                assert(items@.remove(i as int).take(j as int) =~= items@.take(j as int));
            } else {
                assert(items@.remove(i as int).take(j as int) =~= items@.remove(i as int).take(
                    (j - 1) as int,
                ).push(items@[j as int]));
            }
        }
        j = j + 1;
    }
    proof {
        assert(items@.remove(i as int).take(items@.len() - 1) =~= items@.remove(i as int));
    }
    out
}

/// The list without its element at `i`.
fn remove_at_queues(items: &Vec<Queue>, i: usize) -> (r: Vec<Queue>)
    requires
        i < items@.len(),
    ensures
        queues_view(r@) == queues_view(items@).remove(i as int),
{
    let mut out: Vec<Queue> = Vec::new();
    let mut j: usize = 0;
    while j < items.len()
        invariant
            j <= items@.len(),
            i < items@.len(),
            out@.len() == if j <= i {
                j as int
            } else {
                j - 1
            },
            forall|t: int|
                0 <= t < out@.len() ==> (#[trigger] out@[t])@ == (if t < i {
                    items@[t]@
                } else {
                    items@[t + 1]@
                }),
        decreases items@.len() - j,
    {
        if j != i {
            out.push(items[j].clone());
            proof {
                assert(out@[out@.len() - 1]@ == items@[j as int]@);
            }
        }
        j = j + 1;
    }
    proof {
        let iv = queues_view(items@);
        assert forall|t: int| 0 <= t < out@.len() implies queues_view(out@)[t] == iv.remove(
            i as int,
        )[t] by {
            if t < i {
                assert(out@[t]@ == items@[t]@);
            } else {
                assert(out@[t]@ == items@[t + 1]@);
            }
        }
        assert(queues_view(out@) =~= iv.remove(i as int));
    }
    out
}

/// All ordered arrangements of `k` distinct positions of the pieces.
fn perms_pieces(items: &Vec<Piece>, k: usize) -> (r: Vec<Vec<Piece>>)
    ensures
        plists_view(r@) == spec_permutations(items@, k as nat),
    decreases k,
{
    let ghost full = spec_permutations(items@, k as nat);
    let mut out: Vec<Vec<Piece>> = Vec::new();
    if k == 0 {
        out.push(Vec::new());
        proof {
            assert(plists_view(out@) =~= full);
        }
        return out;
    }
    let mut i: usize = 0;
    while i < items.len()
        invariant
            i <= items@.len(),
            k >= 1,
            full == spec_permutations(items@, k as nat),
            full =~= plists_view(out@) + perms_at(items@, k as nat, i as int),
        decreases items@.len() - i,
    {
        let rest = remove_at_pieces(items, i);
        let sub = perms_pieces(&rest, k - 1);
        let ghost before = plists_view(out@);
        let mut j: usize = 0;
        while j < sub.len()
            invariant
                j <= sub@.len(),
                i < items@.len(),
                k >= 1,
                rest@ == items@.remove(i as int),
                plists_view(sub@) == spec_permutations(
                    items@.remove(i as int),
                    (k - 1) as nat,
                ),
                full == spec_permutations(items@, k as nat),
                full =~= before + perms_at(items@, k as nat, i as int),
                plists_view(out@) =~= before + prepend_each(
                    items@[i as int],
                    plists_view(sub@),
                ).take(j as int),
            decreases sub@.len() - j,
        {
            let mut ext: Vec<Piece> = Vec::new();
            ext.push(items[i]);
            let src = &sub[j];
            let mut t: usize = 0;
            while t < src.len()
                invariant
                    t <= src@.len(),
                    i < items@.len(),
                    ext@ == seq![items@[i as int]] + src@.take(t as int),
                decreases src@.len() - t,
            {
                ext.push(src[t]);
                proof {
                    assert(ext@ =~= seq![items@[i as int]] + src@.take(t + 1));
                }
                t = t + 1;
            }
            proof {
                assert(src@.take(src@.len() as int) =~= src@);
            }
            let ghost prevout = out@;
            out.push(ext);
            proof {
                let pe = prepend_each(items@[i as int], plists_view(sub@));
                assert(plists_view(sub@).len() == sub@.len());
                assert(pe.len() == sub@.len());
                assert(j < pe.len());
                assert(pe.take(j as int).len() == j);
                assert(pe[j as int] == seq![items@[i as int]] + sub@[j as int]@);
                assert(plists_view(prevout) == before + pe.take(j as int));
                assert(plists_view(prevout).len() == prevout.len());
                assert(prevout.len() == before.len() + j);
                assert forall|t: int| 0 <= t < plists_view(out@).len() implies plists_view(
                    out@,
                )[t] == (before + pe.take(j + 1))[t] by {
                    if t < prevout.len() {
                        assert(out@[t] == prevout[t]);
                        assert(plists_view(out@)[t] == plists_view(prevout)[t]);
                        assert(plists_view(prevout)[t] == (before + pe.take(j as int))[t]);
                        if t < before.len() {
                        } else {
                            assert((before + pe.take(j as int))[t] == pe[t - before.len()]);
                            assert((before + pe.take(j + 1))[t] == pe[t - before.len()]);
                        }
                    } else {
                        assert(plists_view(out@)[t] == ext@);
                        assert(prevout.len() == before.len() + j);
                        assert((before + pe.take(j + 1))[t] == pe[j as int]);
                    }
                }
                assert(plists_view(out@) =~= before + pe.take(j + 1));
            }
            j = j + 1;
        }
        proof {
            let pe = prepend_each(items@[i as int], plists_view(sub@));
            assert(pe.take(pe.len() as int) =~= pe);
            assert(perms_at(items@, k as nat, i as int) =~= pe + perms_at(
                items@,
                k as nat,
                i + 1,
            ));
            assert(plists_view(out@) + perms_at(items@, k as nat, i + 1) =~= (
            before + pe) + perms_at(items@, k as nat, i + 1));
            assert((before + pe) + perms_at(items@, k as nat, i + 1) =~= before + (pe + perms_at(
                items@,
                k as nat,
                i + 1,
            )));
            assert(full =~= plists_view(out@) + perms_at(
                items@,
                k as nat,
                i + 1,
            ));
        }
        i = i + 1;
    }
    proof {
        assert(perms_at(items@, k as nat, items@.len() as int) =~= Seq::<Seq<Piece>>::empty());
        assert(plists_view(out@) =~= full);
    }
    out
}

/// All ordered arrangements of `k` distinct positions of the queues.
fn perms_queues(items: &Vec<Queue>, k: usize) -> (r: Vec<Vec<Queue>>)
    ensures
        qlists_view(r@) == spec_permutations(
            queues_view(items@),
            k as nat,
        ),
    decreases k,
{
    let ghost iv = queues_view(items@);
    let ghost full = spec_permutations(iv, k as nat);
    let mut out: Vec<Vec<Queue>> = Vec::new();
    if k == 0 {
        out.push(Vec::new());
        proof {
            assert(queues_view(out@[0]@) =~= Seq::<Seq<Piece>>::empty());
            assert(qlists_view(out@) =~= full);
        }
        return out;
    }
    let mut i: usize = 0;
    while i < items.len()
        invariant
            i <= items@.len(),
            k >= 1,
            iv == queues_view(items@),
            full == spec_permutations(iv, k as nat),
            full =~= qlists_view(out@) + perms_at(
                iv,
                k as nat,
                i as int,
            ),
        decreases items@.len() - i,
    {
        let rest = remove_at_queues(items, i);
        let sub = perms_queues(&rest, k - 1);
        let ghost before = qlists_view(out@);
        let mut j: usize = 0;
        while j < sub.len()
            invariant
                j <= sub@.len(),
                i < items@.len(),
                k >= 1,
                iv == queues_view(items@),
                queues_view(rest@) == iv.remove(i as int),
                qlists_view(sub@) == spec_permutations(
                    iv.remove(i as int),
                    (k - 1) as nat,
                ),
                full == spec_permutations(iv, k as nat),
                full =~= before + perms_at(iv, k as nat, i as int),
                qlists_view(out@) =~= before + prepend_each(
                    iv[i as int],
                    qlists_view(sub@),
                ).take(j as int),
            decreases sub@.len() - j,
        {
            let mut ext: Vec<Queue> = Vec::new();
            ext.push(items[i].clone());
            let src = &sub[j];
            let mut t: usize = 0;
            while t < src.len()
                invariant
                    t <= src@.len(),
                    i < items@.len(),
                    iv == queues_view(items@),
                    queues_view(ext@) =~= seq![iv[i as int]] + queues_view(src@).take(t as int),
                decreases src@.len() - t,
            {
                let ghost preve = ext@;
                ext.push(src[t].clone());
                proof {
                    assert(ext@[ext@.len() - 1]@ == src@[t as int]@);
                    assert(queues_view(preve).len() == preve.len());
                    assert(queues_view(src@).len() == src@.len());
                    assert(t < src@.len());
                    assert(queues_view(src@).take(t as int).len() == t);
                    assert(queues_view(preve) == seq![iv[i as int]] + queues_view(src@).take(
                        t as int,
                    ));
                    assert(preve.len() == 1 + t);
                    assert forall|u: int| 0 <= u < queues_view(ext@).len() implies queues_view(
                        ext@,
                    )[u] == (seq![iv[i as int]] + queues_view(src@).take(t + 1))[u] by {
                        if u < preve.len() {
                            assert(ext@[u] == preve[u]);
                            assert(queues_view(ext@)[u] == queues_view(preve)[u]);
                            assert(queues_view(preve)[u] == (seq![iv[i as int]] + queues_view(
                                src@,
                            ).take(t as int))[u]);
                            if u >= 1 {
                                assert((seq![iv[i as int]] + queues_view(src@).take(t as int))[u]
                                    == queues_view(src@)[u - 1]);
                                assert((seq![iv[i as int]] + queues_view(src@).take(t + 1))[u]
                                    == queues_view(src@)[u - 1]);
                            }
                        } else {
                            assert(queues_view(ext@)[u] == src@[t as int]@);
                            assert(queues_view(src@)[t as int] == src@[t as int]@);
                            assert((seq![iv[i as int]] + queues_view(src@).take(t + 1))[u]
                                == queues_view(src@)[t as int]);
                        }
                    }
                    assert(queues_view(ext@) =~= seq![iv[i as int]] + queues_view(src@).take(
                        t + 1,
                    ));
                }
                t = t + 1;
            }
            proof {
                assert(queues_view(src@).take(queues_view(src@).len() as int) =~= queues_view(
                    src@,
                ));
            }
            let ghost prevout = out@;
            out.push(ext);
            proof {
                let pe = prepend_each(iv[i as int], qlists_view(sub@));
                assert(qlists_view(sub@).len() == sub@.len());
                assert(pe.len() == sub@.len());
                assert(j < pe.len());
                assert(pe.take(j as int).len() == j);
                assert(pe[j as int] == seq![iv[i as int]] + queues_view(sub@[j as int]@));
                assert(qlists_view(prevout) == before + pe.take(j as int));
                assert(qlists_view(prevout).len() == prevout.len());
                assert(prevout.len() == before.len() + j);
                assert forall|t2: int| 0 <= t2 < qlists_view(out@).len() implies qlists_view(
                    out@,
                )[t2] == (before + pe.take(j + 1))[t2] by {
                    if t2 < prevout.len() {
                        assert(out@[t2] == prevout[t2]);
                        assert(qlists_view(out@)[t2] == qlists_view(prevout)[t2]);
                        assert(qlists_view(prevout)[t2] == (before + pe.take(j as int))[t2]);
                        if t2 < before.len() {
                        } else {
                            assert((before + pe.take(j as int))[t2] == pe[t2 - before.len()]);
                            assert((before + pe.take(j + 1))[t2] == pe[t2 - before.len()]);
                        }
                    } else {
                        assert(qlists_view(out@)[t2] == queues_view(ext@));
                        assert(prevout.len() == before.len() + j);
                        assert((before + pe.take(j + 1))[t2] == pe[j as int]);
                    }
                }
                assert(qlists_view(out@) =~= before + pe.take(j + 1));
            }
            j = j + 1;
        }
        proof {
            let pe = prepend_each(
                iv[i as int],
                qlists_view(sub@),
            );
            assert(pe.take(pe.len() as int) =~= pe);
            assert(perms_at(iv, k as nat, i as int) =~= pe + perms_at(iv, k as nat, i + 1));
            assert(qlists_view(out@) + perms_at(
                iv,
                k as nat,
                i + 1,
            ) =~= (before + pe) + perms_at(iv, k as nat, i + 1));
            assert((before + pe) + perms_at(iv, k as nat, i + 1) =~= before + (pe + perms_at(
                iv,
                k as nat,
                i + 1,
            )));
            assert(full =~= qlists_view(out@) + perms_at(
                iv,
                k as nat,
                i + 1,
            ));
        }
        i = i + 1;
    }
    proof {
        assert(perms_at(iv, k as nat, items@.len() as int) =~= Seq::<Seq<Seq<Piece>>>::empty());
        assert(qlists_view(out@) =~= full);
    }
    out
}

impl Part {
    /// The queues this part expands to, in expansion order.
    pub fn expand(&self) -> (r: Vec<Queue>)
        requires
            counts_ok(*self),
        ensures
            queues_view(r@) == spec_expand_part(*self),
        decreases *self, 0int,
    {
        match self {
            Part::Single(t) => {
                let mut v: Vec<Piece> = Vec::new();
                v.push(*t);
                let mut out: Vec<Queue> = Vec::new();
                out.push(Queue(v));
                proof {
                    assert(out@[0]@ =~= seq![*t]);
                    assert(queues_view(out@) =~= spec_expand_part(*self));
                }
                out
            },
            Part::Wildcard => {
                let pieces: Vec<Piece> = vec![
                    Piece::I,
                    Piece::J,
                    Piece::O,
                    Piece::L,
                    Piece::Z,
                    Piece::S,
                    Piece::T,
                ];
                let mut out: Vec<Queue> = Vec::new();
                let mut i: usize = 0;
                while i < pieces.len()
                    invariant
                        i <= pieces@.len(),
                        pieces@ == wildcard_pieces(),
                        out@.len() == i,
                        forall|t: int|
                            0 <= t < i ==> (#[trigger] out@[t])@ == seq![wildcard_pieces()[t]],
                    decreases pieces@.len() - i,
                {
                    let mut v: Vec<Piece> = Vec::new();
                    v.push(pieces[i]);
                    out.push(Queue(v));
                    proof {
                        assert(out@[i as int]@ =~= seq![wildcard_pieces()[i as int]]);
                    }
                    i = i + 1;
                }
                proof {
                    lemma_wildcard_singletons(0);
                    assert(queues_view(out@) =~= wildcard_singletons_at(0));
                }
                out
            },
            Part::Bag(parts) => {
                proof {
                    assert(counts_ok(*self) == counts_ok_list(*parts, 0));
                    assert(spec_expand_part(*self) == expand_list(*parts, 0));
                }
                expand_bag(parts)
            },
            Part::Except(ex) => {
                let pieces: Vec<Piece> = vec![
                    Piece::I,
                    Piece::J,
                    Piece::O,
                    Piece::L,
                    Piece::Z,
                    Piece::S,
                    Piece::T,
                ];
                let mut out: Vec<Queue> = Vec::new();
                let mut i: usize = 0;
                while i < pieces.len()
                    invariant
                        i <= pieces@.len(),
                        pieces@ == wildcard_pieces(),
                        except_at(ex@, 0) =~= queues_view(out@) + except_at(ex@, i as int),
                    decreases pieces@.len() - i,
                {
                    let p = pieces[i];
                    let mut excluded = false;
                    let mut j: usize = 0;
                    while j < ex.len()
                        invariant
                            j <= ex@.len(),
                            i < wildcard_pieces().len(),
                            p == wildcard_pieces()[i as int],
                            excluded == exists|t: int|
                                0 <= t < j && ex@[t] == Part::Single(wildcard_pieces()[i as int]),
                        decreases ex@.len() - j,
                    {
                        match &ex[j] {
                            Part::Single(t) => {
                                if piece_eq(*t, p) {
                                    proof {
                                        assert(ex@[j as int] == Part::Single(
                                            wildcard_pieces()[i as int],
                                        ));
                                    }
                                    excluded = true;
                                }
                            },
                            _ => {},
                        }
                        j = j + 1;
                    }
                    proof {
                        if excluded {
                            let t = choose|t: int|
                                0 <= t < ex@.len() && ex@[t] == Part::Single(
                                    wildcard_pieces()[i as int],
                                );
                            assert(ex@.contains(Part::Single(wildcard_pieces()[i as int])));
                        } else {
                            if ex@.contains(Part::Single(wildcard_pieces()[i as int])) {
                                let t = choose|t: int|
                                    0 <= t < ex@.len() && ex@[t] == Part::Single(
                                        wildcard_pieces()[i as int],
                                    );
                            }
                        }
                        assert(excluded == ex@.contains(Part::Single(
                            wildcard_pieces()[i as int],
                        )));
                    }
                    if !excluded {
                        let mut v: Vec<Piece> = Vec::new();
                        v.push(p);
                        out.push(Queue(v));
                        proof {
                            assert(out@[out@.len() - 1]@ =~= seq![wildcard_pieces()[i as int]]);
                        }
                    }
                    proof {
                        assert(except_at(ex@, i as int) =~= (if ex@.contains(Part::Single(
                            wildcard_pieces()[i as int],
                        )) {
                            Seq::<Seq<Piece>>::empty()
                        } else {
                            seq![seq![wildcard_pieces()[i as int]]]
                        }) + except_at(ex@, i + 1));
                        assert(except_at(ex@, 0) =~= queues_view(out@) + except_at(ex@, i + 1));
                    }
                    i = i + 1;
                }
                proof {
                    assert(except_at(ex@, wildcard_pieces().len() as int)
                        =~= Seq::<Seq<Piece>>::empty());
                    assert(queues_view(out@) =~= except_at(ex@, 0));
                }
                out
            },
            Part::Count(sub, k) => {
                let subexp = sub.expand();
                let per = perms_queues(&subexp, *k);
                let ghost exps = spec_expand_part(**sub);
                let ghost target = count_expansion(exps, *k as nat);
                let mut out: Vec<Queue> = Vec::new();
                let mut i: usize = 0;
                while i < per.len()
                    invariant
                        i <= per@.len(),
                        queues_view(subexp@) == exps,
                        qlists_view(per@) == spec_permutations(exps, *k as nat),
                        target == count_expansion(exps, *k as nat),
                        out@.len() == i,
                        forall|t: int|
                            0 <= t < i ==> (#[trigger] out@[t])@ == qlists_view(per@)[t].flatten(),
                    decreases per@.len() - i,
                {
                    let row = &per[i];
                    let mut v: Vec<Piece> = Vec::new();
                    let mut j: usize = 0;
                    while j < row.len()
                        invariant
                            j <= row@.len(),
                            i < per@.len(),
                            row@ == per@[i as int]@,
                            v@ =~= queues_view(row@).take(j as int).flatten(),
                        decreases row@.len() - j,
                    {
                        let q = &row[j];
                        let mut t: usize = 0;
                        while t < q.0.len()
                            invariant
                                t <= q@.len(),
                                q@ == row@[j as int]@,
                                j < row@.len(),
                                v@ =~= queues_view(row@).take(j as int).flatten() + q@.take(
                                    t as int,
                                ),
                            decreases q@.len() - t,
                        {
                            v.push(q.0[t]);
                            proof {
                                assert(v@ =~= queues_view(row@).take(j as int).flatten()
                                    + q@.take(t + 1));
                            }
                            t = t + 1;
                        }
                        proof {
                            assert(q@.take(q@.len() as int) =~= q@);
                            let qv = queues_view(row@);
                            assert(qv.take(j + 1) =~= qv.take(j as int).push(qv[j as int]));
                            qv.take(j as int).lemma_flatten_push(qv[j as int]);
                            assert(v@ =~= qv.take(j + 1).flatten());
                        }
                        j = j + 1;
                    }
                    proof {
                        let qv = queues_view(row@);
                        assert(qv.take(qv.len() as int) =~= qv);
                        assert(qv == qlists_view(per@)[i as int]);
                    }
                    out.push(Queue(v));
                    i = i + 1;
                }
                proof {
                    assert forall|t: int| 0 <= t < out@.len() implies queues_view(out@)[t]
                        == target[t] by {
                        assert(target[t] == spec_permutations(exps, *k as nat)[t].flatten());
                    }
                    assert(queues_view(out@) =~= target);
                }
                out
            },
            Part::All(sub) => {
                let subexp = sub.expand();
                let ghost e = spec_expand_part(**sub);
                if subexp.len() == 0 {
                    let out: Vec<Queue> = Vec::new();
                    proof {
                        assert(queues_view(out@) =~= spec_expand_part(*self));
                    }
                    return out;
                }
                let mut flat: Vec<Piece> = Vec::new();
                let mut i: usize = 0;
                while i < subexp.len()
                    invariant
                        i <= subexp@.len(),
                        queues_view(subexp@) == e,
                        flat@ =~= e.take(i as int).flatten(),
                    decreases subexp@.len() - i,
                {
                    let q = &subexp[i];
                    let mut t: usize = 0;
                    while t < q.0.len()
                        invariant
                            t <= q@.len(),
                            i < subexp@.len(),
                            queues_view(subexp@) == e,
                            q@ == e[i as int],
                            flat@ =~= e.take(i as int).flatten() + q@.take(t as int),
                        decreases q@.len() - t,
                    {
                        flat.push(q.0[t]);
                        proof {
                            assert(flat@ =~= e.take(i as int).flatten() + q@.take(t + 1));
                        }
                        t = t + 1;
                    }
                    proof {
                        assert(q@.take(q@.len() as int) =~= q@);
                        assert(e.take(i + 1) =~= e.take(i as int).push(e[i as int]));
                        e.take(i as int).lemma_flatten_push(e[i as int]);
                        assert(flat@ =~= e.take(i + 1).flatten());
                    }
                    i = i + 1;
                }
                proof {
                    assert(e.take(e.len() as int) =~= e);
                    assert(flat@ == e.flatten());
                }
                let n = flat.len();
                let per = perms_pieces(&flat, n);
                let mut out: Vec<Queue> = Vec::new();
                let mut j: usize = 0;
                while j < per.len()
                    invariant
                        j <= per@.len(),
                        plists_view(per@) == spec_permutations(e.flatten(), e.flatten().len()),
                        e == spec_expand_part(**sub),
                        e.len() > 0,
                        out@.len() == j,
                        forall|t: int|
                            0 <= t < j ==> (#[trigger] out@[t])@ == plists_view(per@)[t],
                    decreases per@.len() - j,
                {
                    out.push(Queue(copy_pieces(&per[j])));
                    proof {
                        assert(out@[j as int]@ == plists_view(per@)[j as int]);
                    }
                    j = j + 1;
                }
                proof {
                    assert(queues_view(out@) =~= spec_expand_part(*self));
                }
                out
            },
        }
    }

    /// Whether every counted sub-part asks for no more queues than its
    /// expansion offers.
    pub fn check_counts(&self) -> (r: bool)
        ensures
            r == counts_ok(*self),
        decreases *self, 0int,
    {
        match self {
            Part::Single(_) => true,
            Part::Wildcard => true,
            Part::Except(_) => true,
            Part::Bag(parts) => {
                proof {
                    assert(counts_ok(*self) == counts_ok_list(*parts, 0));
                }
                check_counts_list(parts)
            },
            Part::Count(sub, k) => {
                if !sub.check_counts() {
                    return false;
                }
                let subexp = sub.expand();
                *k <= subexp.len()
            },
            Part::All(sub) => sub.check_counts(),
        }
    }
}

/// The queues the parts of a bag expand to, concatenated in order.
fn expand_bag(parts: &Vec<Part>) -> (r: Vec<Queue>)
    requires
        counts_ok_list(*parts, 0),
    ensures
        queues_view(r@) == expand_list(*parts, 0),
    decreases *parts, 1int,
{
    let mut out: Vec<Queue> = Vec::new();
    let mut i: usize = 0;
    while i < parts.len()
        invariant
            i <= parts@.len(),
            counts_ok_list(*parts, i as int),
            expand_list(*parts, 0) =~= queues_view(out@) + expand_list(*parts, i as int),
        decreases parts@.len() - i,
    {
        let sub = parts[i].expand();
        let ghost before = queues_view(out@);
        let mut j: usize = 0;
        while j < sub.len()
            invariant
                j <= sub@.len(),
                i < parts@.len(),
                queues_view(sub@) == spec_expand_part(parts@[i as int]),
                queues_view(out@) =~= before + queues_view(sub@).take(j as int),
            decreases sub@.len() - j,
        {
            let ghost prevo = out@;
            out.push(sub[j].clone());
            proof {
                assert(out@[out@.len() - 1]@ == sub@[j as int]@);
                assert(queues_view(prevo).len() == prevo.len());
                assert(queues_view(sub@).take(j as int).len() == j);
                assert(prevo.len() == before.len() + j);
                assert forall|t: int| 0 <= t < queues_view(out@).len() implies queues_view(
                    out@,
                )[t] == (before + queues_view(sub@).take(j + 1))[t] by {
                    if t < prevo.len() {
                        assert(out@[t] == prevo[t]);
                        assert(queues_view(out@)[t] == queues_view(prevo)[t]);
                        assert(queues_view(prevo)[t] == (before + queues_view(sub@).take(
                            j as int,
                        ))[t]);
                        if t >= before.len() {
                            assert((before + queues_view(sub@).take(j as int))[t]
                                == queues_view(sub@)[t - before.len()]);
                            assert((before + queues_view(sub@).take(j + 1))[t] == queues_view(
                                sub@,
                            )[t - before.len()]);
                        }
                    } else {
                        assert(queues_view(out@)[t] == sub@[j as int]@);
                        assert((before + queues_view(sub@).take(j + 1))[t] == queues_view(
                            sub@,
                        )[j as int]);
                    }
                }
                assert(queues_view(out@) =~= before + queues_view(sub@).take(j + 1));
            }
            j = j + 1;
        }
        proof {
            assert(queues_view(sub@).take(queues_view(sub@).len() as int) =~= queues_view(sub@));
            assert(expand_list(*parts, i as int) =~= spec_expand_part(parts@[i as int])
                + expand_list(*parts, i + 1));
            assert(expand_list(*parts, 0) =~= queues_view(out@) + expand_list(*parts, i + 1));
        }
        i = i + 1;
    }
    proof {
        assert(expand_list(*parts, parts@.len() as int) =~= Seq::<Seq<Piece>>::empty());
        assert(queues_view(out@) =~= expand_list(*parts, 0));
    }
    out
}

/// Whether every part of a list satisfies the count check.
fn check_counts_list(parts: &Vec<Part>) -> (r: bool)
    ensures
        r == counts_ok_list(*parts, 0),
    decreases *parts, 1int,
{
    let mut i: usize = 0;
    while i < parts.len()
        invariant
            i <= parts@.len(),
            counts_ok_list(*parts, 0) == counts_ok_list(*parts, i as int),
        decreases parts@.len() - i,
    {
        if !parts[i].check_counts() {
            proof {
                assert(!counts_ok_list(*parts, i as int));
            }
            return false;
        }
        i = i + 1;
    }
    proof {
        assert(counts_ok_list(*parts, parts@.len() as int));
    }
    true
}

/// The wildcard singletons from position `i` on, spelled out.
pub proof fn lemma_wildcard_singletons(i: int)
    requires
        0 <= i <= wildcard_pieces().len(),
    ensures
        wildcard_singletons_at(i).len() == wildcard_pieces().len() - i,
        forall|t: int|
            0 <= t < wildcard_pieces().len() - i ==> #[trigger] wildcard_singletons_at(i)[t]
                == seq![wildcard_pieces()[i + t]],
    decreases wildcard_pieces().len() - i,
{
    if i < wildcard_pieces().len() {
        lemma_wildcard_singletons(i + 1);
    }
}

/// Every queue of `b` appended to the queue `q`.
pub open spec fn append_each(q: Seq<Piece>, b: Seq<Seq<Piece>>) -> Seq<Seq<Piece>> {
    b.map_values(|e: Seq<Piece>| q + e)
}

/// The cross product of two queue lists from position `i` of the first:
/// every first-list queue extended by every second-list queue, first-list
/// major.
pub open spec fn cross_at(a: Seq<Seq<Piece>>, b: Seq<Seq<Piece>>, i: int) -> Seq<Seq<Piece>>
    decreases a.len() - i,
{
    if i < 0 || i >= a.len() {
        Seq::empty()
    } else {
        append_each(a[i], b) + cross_at(a, b, i + 1)
    }
}

/// The queues a pattern expands to: the cross product of its parts'
/// expansions, in order.
pub open spec fn spec_queues_from(parts: Vec<Part>, i: int, acc: Seq<Seq<Piece>>) -> Seq<
    Seq<Piece>,
>
    decreases parts@.len() - i,
{
    if i < 0 || i >= parts@.len() {
        acc
    } else {
        spec_queues_from(parts, i + 1, cross_at(acc, spec_expand_part(parts@[i]), 0))
    }
}

impl Pattern {
    /// The queues this pattern expands to.
    pub open spec fn spec_queues(&self) -> Seq<Seq<Piece>> {
        spec_queues_from(self.parts, 0, seq![Seq::<Piece>::empty()])
    }

    /// Whether every counted part of the pattern is satisfiable.
    pub open spec fn spec_counts_ok(&self) -> bool {
        counts_ok_list(self.parts, 0)
    }

    /// Whether every counted part asks for no more queues than its
    /// sub-expression expands to.
    pub fn check_counts(&self) -> (r: bool)
        ensures
            r == self.spec_counts_ok(),
    {
        check_counts_list(&self.parts)
    }

    /// Every concrete queue this pattern stands for, in expansion order.
    pub fn queues(&self) -> (r: Vec<Queue>)
        requires
            self.spec_counts_ok(),
        ensures
            queues_view(r@) == self.spec_queues(),
    {
        let mut cur: Vec<Queue> = Vec::new();
        cur.push(Queue::empty());
        proof {
            assert(queues_view(cur@) =~= seq![Seq::<Piece>::empty()]);
        }
        let mut i: usize = 0;
        while i < self.parts.len()
            invariant
                i <= self.parts@.len(),
                counts_ok_list(self.parts, i as int),
                self.spec_queues() == spec_queues_from(self.parts, i as int, queues_view(cur@)),
            decreases self.parts@.len() - i,
        {
            let exp = self.parts[i].expand();
            let next = cross_queues(&cur, &exp);
            proof {
                assert(spec_queues_from(self.parts, i as int, queues_view(cur@))
                    == spec_queues_from(
                    self.parts,
                    i + 1,
                    cross_at(queues_view(cur@), spec_expand_part(self.parts@[i as int]), 0),
                ));
            }
            cur = next;
            i = i + 1;
        }
        cur
    }

    /// The queues of the pattern with hold-equivalent duplicates removed:
    /// a queue is dropped when an already kept queue is one of its hold
    /// variants.
    pub fn queues_with_hold(&self) -> (r: Vec<Queue>)
        requires
            self.spec_counts_ok(),
        ensures
            queues_view(r@) == dedup_hold(self.spec_queues(), 0, Seq::empty()),
    {
        let qs = self.queues();
        dedup_hold_exec(&qs)
    }

    /// The hold-deduplicated queues, under the name the expansion iterator
    /// carried.
    pub fn into_iter_with_hold(&self) -> (r: Vec<Queue>)
        requires
            self.spec_counts_ok(),
        ensures
            queues_view(r@) == dedup_hold(self.spec_queues(), 0, Seq::empty()),
    {
        self.queues_with_hold()
    }
}

/// The queues that survive hold deduplication: one is dropped when a
/// kept queue is among its hold variants.
pub open spec fn dedup_hold(qs: Seq<Seq<Piece>>, i: int, kept: Seq<Seq<Piece>>) -> Seq<
    Seq<Piece>,
>
    decreases qs.len() - i,
{
    if i < 0 || i >= qs.len() {
        kept
    } else {
        let dup = exists|j: int|
            0 <= j < kept.len() && hold_plays(qs[i], Option::None, false).contains(
                #[trigger] kept[j],
            );
        if dup {
            dedup_hold(qs, i + 1, kept)
        } else {
            dedup_hold(qs, i + 1, kept.push(qs[i]))
        }
    }
}

/// The hold deduplication, executed.
fn dedup_hold_exec(qs: &Vec<Queue>) -> (r: Vec<Queue>)
    ensures
        queues_view(r@) == dedup_hold(queues_view(qs@), 0, Seq::empty()),
{
    let ghost qsv = queues_view(qs@);
    let mut kept: Vec<Queue> = Vec::new();
    proof {
        assert(queues_view(kept@) =~= Seq::<Seq<Piece>>::empty());
    }
    let mut i: usize = 0;
    while i < qs.len()
        invariant
            i <= qs@.len(),
            qsv == queues_view(qs@),
            dedup_hold(qsv, 0, Seq::empty()) == dedup_hold(qsv, i as int, queues_view(kept@)),
        decreases qs@.len() - i,
    {
        let mut dup = false;
        let mut j: usize = 0;
        while j < kept.len()
            invariant
                j <= kept@.len(),
                i < qs@.len(),
                qsv == queues_view(qs@),
                dup == exists|t: int|
                    0 <= t < j && hold_plays(qsv[i as int], Option::None, false).contains(
                        #[trigger] queues_view(kept@)[t],
                    ),
            decreases kept@.len() - j,
        {
            if qs[i].translatable(&kept[j]) {
                proof {
                    assert(hold_plays(qsv[i as int], Option::None, false).contains(
                        queues_view(kept@)[j as int],
                    ));
                }
                dup = true;
            }
            j = j + 1;
        }
        proof {
            if dup {
                let t = choose|t: int|
                    0 <= t < kept@.len() && hold_plays(qsv[i as int], Option::None, false).contains(
                        #[trigger] queues_view(kept@)[t],
                    );
            } else {
                if exists|t: int|
                    0 <= t < queues_view(kept@).len() && hold_plays(
                        qsv[i as int],
                        Option::None,
                        false,
                    ).contains(#[trigger] queues_view(kept@)[t]) {
                    let t = choose|t: int|
                        0 <= t < queues_view(kept@).len() && hold_plays(
                            qsv[i as int],
                            Option::None,
                            false,
                        ).contains(#[trigger] queues_view(kept@)[t]);
                }
            }
        }
        if !dup {
            let ghost prevk = kept@;
            kept.push(qs[i].clone());
            proof {
                assert(queues_view(kept@) =~= queues_view(prevk).push(qsv[i as int]));
            }
        }
        i = i + 1;
    }
    kept
}

/// The cross product of two queue lists, executed.
fn cross_queues(a: &Vec<Queue>, b: &Vec<Queue>) -> (r: Vec<Queue>)
    ensures
        queues_view(r@) == cross_at(queues_view(a@), queues_view(b@), 0),
{
    let ghost av = queues_view(a@);
    let ghost bv = queues_view(b@);
    let mut out: Vec<Queue> = Vec::new();
    let mut i: usize = 0;
    while i < a.len()
        invariant
            i <= a@.len(),
            av == queues_view(a@),
            bv == queues_view(b@),
            cross_at(av, bv, 0) =~= queues_view(out@) + cross_at(av, bv, i as int),
        decreases a@.len() - i,
    {
        let ghost before = queues_view(out@);
        let mut j: usize = 0;
        while j < b.len()
            invariant
                j <= b@.len(),
                i < a@.len(),
                av == queues_view(a@),
                bv == queues_view(b@),
                queues_view(out@) =~= before + append_each(av[i as int], bv).take(j as int),
            decreases b@.len() - j,
        {
            let mut v = copy_pieces(a[i].pieces());
            let qb = &b[j];
            let mut t: usize = 0;
            while t < qb.0.len()
                invariant
                    t <= qb@.len(),
                    i < a@.len(),
                    j < b@.len(),
                    av == queues_view(a@),
                    bv == queues_view(b@),
                    qb@ == bv[j as int],
                    v@ =~= av[i as int] + qb@.take(t as int),
                decreases qb@.len() - t,
            {
                v.push(qb.0[t]);
                proof {
                    assert(v@ =~= av[i as int] + qb@.take(t + 1));
                }
                t = t + 1;
            }
            proof {
                assert(qb@.take(qb@.len() as int) =~= qb@);
            }
            let ghost prevo = out@;
            out.push(Queue(v));
            proof {
                let ae = append_each(av[i as int], bv);
                assert(ae[j as int] == av[i as int] + bv[j as int]);
                assert(queues_view(prevo).len() == prevo.len());
                assert(ae.take(j as int).len() == j);
                assert(prevo.len() == before.len() + j);
                assert forall|u: int| 0 <= u < queues_view(out@).len() implies queues_view(
                    out@,
                )[u] == (before + ae.take(j + 1))[u] by {
                    if u < prevo.len() {
                        assert(out@[u] == prevo[u]);
                        assert(queues_view(out@)[u] == queues_view(prevo)[u]);
                        assert(queues_view(prevo)[u] == (before + ae.take(j as int))[u]);
                        if u >= before.len() {
                            assert((before + ae.take(j as int))[u] == ae[u - before.len()]);
                            assert((before + ae.take(j + 1))[u] == ae[u - before.len()]);
                        }
                    } else {
                        assert(queues_view(out@)[u] == av[i as int] + bv[j as int]);
                        assert((before + ae.take(j + 1))[u] == ae[j as int]);
                    }
                }
                assert(queues_view(out@) =~= before + ae.take(j + 1));
            }
            j = j + 1;
        }
        proof {
            let ae = append_each(av[i as int], bv);
            assert(ae.take(ae.len() as int) =~= ae);
            assert(cross_at(av, bv, i as int) =~= ae + cross_at(av, bv, i + 1));
            assert(cross_at(av, bv, 0) =~= queues_view(out@) + cross_at(av, bv, i + 1));
        }
        i = i + 1;
    }
    proof {
        assert(cross_at(av, bv, a@.len() as int) =~= Seq::<Seq<Piece>>::empty());
        assert(queues_view(out@) =~= cross_at(av, bv, 0));
    }
    out
}

/// The queue without its front piece.
pub fn tail_pieces(src: &Vec<Piece>) -> (r: Vec<Piece>)
    requires
        src@.len() > 0,
    ensures
        r@ == src@.drop_first(),
{
    let mut out: Vec<Piece> = Vec::new();
    let mut i: usize = 1;
    while i < src.len()
        invariant
            1 <= i <= src@.len(),
            out@ =~= src@.subrange(1, i as int),
        decreases src@.len() - i,
    {
        out.push(src[i]);
        proof {
            assert(src@.subrange(1, i + 1) =~= src@.subrange(1, i as int).push(src@[i as int]));
        }
        i = i + 1;
    }
    proof {
        assert(src@.subrange(1, src@.len() as int) =~= src@.drop_first());
    }
    out
}

} // verus!

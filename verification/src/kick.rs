//! Kick tables: the ordered translation tests tried after a rotation.

use vstd::prelude::*;

use crate::piece::{Piece, Rotation};

verus! {

/// A kick table: for each (piece, from, to) transition, the ordered list
/// of translation tests. A missing transition means the single test (0, 0).
#[derive(Debug)]
pub struct Kickset {
    kick: Vec<(Piece, Rotation, Rotation, Vec<(isize, isize)>)>,
}

/// The entries of a kick table as mathematical values.
pub open spec fn kick_entries(
    data: Seq<(Piece, Rotation, Rotation, Vec<(isize, isize)>)>,
) -> Seq<(Piece, Rotation, Rotation, Seq<(int, int)>)> {
    data.map_values(
        |e: (Piece, Rotation, Rotation, Vec<(isize, isize)>)|
            (e.0, e.1, e.2, e.3@.map_values(|q: (isize, isize)| (q.0 as int, q.1 as int))),
    )
}

/// The tests for a transition: the first matching entry, or the single
/// identity test when no entry matches.
pub open spec fn kick_lookup(
    entries: Seq<(Piece, Rotation, Rotation, Seq<(int, int)>)>,
    p: Piece,
    from: Rotation,
    to: Rotation,
) -> Seq<(int, int)>
    decreases entries.len(),
{
    if entries.len() == 0 {
        seq![(0int, 0int)]
    } else if entries[0].0 == p && entries[0].1 == from && entries[0].2 == to {
        entries[0].3
    } else {
        kick_lookup(entries.drop_first(), p, from, to)
    }
}

/// The standard rotation-system kick table: eight transitions for the
/// I piece and eight shared by J, L, S, T and Z; the O piece and the
/// 180-degree turns fall back to the identity test.
pub open spec fn srs_entries() -> Seq<(Piece, Rotation, Rotation, Seq<(int, int)>)> {
    seq![
        (Piece::I, Rotation::North, Rotation::East, seq![(0int, 0int), (-2int, 0int), (1int, 0int), (-2int, -1int), (1int, 2int)]),
        (Piece::I, Rotation::East, Rotation::North, seq![(0int, 0int), (2int, 0int), (-1int, 0int), (2int, 1int), (-1int, -2int)]),
        (Piece::I, Rotation::East, Rotation::South, seq![(0int, 0int), (-1int, 0int), (2int, 0int), (-1int, 2int), (2int, -1int)]),
        (Piece::I, Rotation::South, Rotation::East, seq![(0int, 0int), (1int, 0int), (-2int, 0int), (1int, -2int), (-2int, 1int)]),
        (Piece::I, Rotation::South, Rotation::West, seq![(0int, 0int), (2int, 0int), (-1int, 0int), (2int, 1int), (-1int, -2int)]),
        (Piece::I, Rotation::West, Rotation::South, seq![(0int, 0int), (-2int, 0int), (1int, 0int), (-2int, -1int), (1int, 2int)]),
        (Piece::I, Rotation::West, Rotation::North, seq![(0int, 0int), (1int, 0int), (-2int, 0int), (1int, -2int), (-2int, 1int)]),
        (Piece::I, Rotation::North, Rotation::West, seq![(0int, 0int), (-1int, 0int), (2int, 0int), (-1int, 2int), (2int, -1int)]),
        (Piece::J, Rotation::North, Rotation::East, seq![(0int, 0int), (-1int, 0int), (-1int, 1int), (0int, -2int), (-1int, -2int)]),
        (Piece::J, Rotation::East, Rotation::North, seq![(0int, 0int), (1int, 0int), (1int, -1int), (0int, 2int), (1int, 2int)]),
        (Piece::J, Rotation::East, Rotation::South, seq![(0int, 0int), (1int, 0int), (1int, -1int), (0int, 2int), (1int, 2int)]),
        (Piece::J, Rotation::South, Rotation::East, seq![(0int, 0int), (-1int, 0int), (-1int, 1int), (0int, -2int), (-1int, -2int)]),
        (Piece::J, Rotation::South, Rotation::West, seq![(0int, 0int), (1int, 0int), (1int, 1int), (0int, -2int), (1int, -2int)]),
        (Piece::J, Rotation::West, Rotation::South, seq![(0int, 0int), (-1int, 0int), (-1int, -1int), (0int, 2int), (-1int, 2int)]),
        (Piece::J, Rotation::West, Rotation::North, seq![(0int, 0int), (-1int, 0int), (-1int, -1int), (0int, 2int), (-1int, 2int)]),
        (Piece::J, Rotation::North, Rotation::West, seq![(0int, 0int), (1int, 0int), (1int, 1int), (0int, -2int), (1int, -2int)]),
        (Piece::L, Rotation::North, Rotation::East, seq![(0int, 0int), (-1int, 0int), (-1int, 1int), (0int, -2int), (-1int, -2int)]),
        (Piece::L, Rotation::East, Rotation::North, seq![(0int, 0int), (1int, 0int), (1int, -1int), (0int, 2int), (1int, 2int)]),
        (Piece::L, Rotation::East, Rotation::South, seq![(0int, 0int), (1int, 0int), (1int, -1int), (0int, 2int), (1int, 2int)]),
        (Piece::L, Rotation::South, Rotation::East, seq![(0int, 0int), (-1int, 0int), (-1int, 1int), (0int, -2int), (-1int, -2int)]),
        (Piece::L, Rotation::South, Rotation::West, seq![(0int, 0int), (1int, 0int), (1int, 1int), (0int, -2int), (1int, -2int)]),
        (Piece::L, Rotation::West, Rotation::South, seq![(0int, 0int), (-1int, 0int), (-1int, -1int), (0int, 2int), (-1int, 2int)]),
        (Piece::L, Rotation::West, Rotation::North, seq![(0int, 0int), (-1int, 0int), (-1int, -1int), (0int, 2int), (-1int, 2int)]),
        (Piece::L, Rotation::North, Rotation::West, seq![(0int, 0int), (1int, 0int), (1int, 1int), (0int, -2int), (1int, -2int)]),
        (Piece::S, Rotation::North, Rotation::East, seq![(0int, 0int), (-1int, 0int), (-1int, 1int), (0int, -2int), (-1int, -2int)]),
        (Piece::S, Rotation::East, Rotation::North, seq![(0int, 0int), (1int, 0int), (1int, -1int), (0int, 2int), (1int, 2int)]),
        (Piece::S, Rotation::East, Rotation::South, seq![(0int, 0int), (1int, 0int), (1int, -1int), (0int, 2int), (1int, 2int)]),
        (Piece::S, Rotation::South, Rotation::East, seq![(0int, 0int), (-1int, 0int), (-1int, 1int), (0int, -2int), (-1int, -2int)]),
        (Piece::S, Rotation::South, Rotation::West, seq![(0int, 0int), (1int, 0int), (1int, 1int), (0int, -2int), (1int, -2int)]),
        (Piece::S, Rotation::West, Rotation::South, seq![(0int, 0int), (-1int, 0int), (-1int, -1int), (0int, 2int), (-1int, 2int)]),
        (Piece::S, Rotation::West, Rotation::North, seq![(0int, 0int), (-1int, 0int), (-1int, -1int), (0int, 2int), (-1int, 2int)]),
        (Piece::S, Rotation::North, Rotation::West, seq![(0int, 0int), (1int, 0int), (1int, 1int), (0int, -2int), (1int, -2int)]),
        (Piece::T, Rotation::North, Rotation::East, seq![(0int, 0int), (-1int, 0int), (-1int, 1int), (0int, -2int), (-1int, -2int)]),
        (Piece::T, Rotation::East, Rotation::North, seq![(0int, 0int), (1int, 0int), (1int, -1int), (0int, 2int), (1int, 2int)]),
        (Piece::T, Rotation::East, Rotation::South, seq![(0int, 0int), (1int, 0int), (1int, -1int), (0int, 2int), (1int, 2int)]),
        (Piece::T, Rotation::South, Rotation::East, seq![(0int, 0int), (-1int, 0int), (-1int, 1int), (0int, -2int), (-1int, -2int)]),
        (Piece::T, Rotation::South, Rotation::West, seq![(0int, 0int), (1int, 0int), (1int, 1int), (0int, -2int), (1int, -2int)]),
        (Piece::T, Rotation::West, Rotation::South, seq![(0int, 0int), (-1int, 0int), (-1int, -1int), (0int, 2int), (-1int, 2int)]),
        (Piece::T, Rotation::West, Rotation::North, seq![(0int, 0int), (-1int, 0int), (-1int, -1int), (0int, 2int), (-1int, 2int)]),
        (Piece::T, Rotation::North, Rotation::West, seq![(0int, 0int), (1int, 0int), (1int, 1int), (0int, -2int), (1int, -2int)]),
        (Piece::Z, Rotation::North, Rotation::East, seq![(0int, 0int), (-1int, 0int), (-1int, 1int), (0int, -2int), (-1int, -2int)]),
        (Piece::Z, Rotation::East, Rotation::North, seq![(0int, 0int), (1int, 0int), (1int, -1int), (0int, 2int), (1int, 2int)]),
        (Piece::Z, Rotation::East, Rotation::South, seq![(0int, 0int), (1int, 0int), (1int, -1int), (0int, 2int), (1int, 2int)]),
        (Piece::Z, Rotation::South, Rotation::East, seq![(0int, 0int), (-1int, 0int), (-1int, 1int), (0int, -2int), (-1int, -2int)]),
        (Piece::Z, Rotation::South, Rotation::West, seq![(0int, 0int), (1int, 0int), (1int, 1int), (0int, -2int), (1int, -2int)]),
        (Piece::Z, Rotation::West, Rotation::South, seq![(0int, 0int), (-1int, 0int), (-1int, -1int), (0int, 2int), (-1int, 2int)]),
        (Piece::Z, Rotation::West, Rotation::North, seq![(0int, 0int), (-1int, 0int), (-1int, -1int), (0int, 2int), (-1int, 2int)]),
        (Piece::Z, Rotation::North, Rotation::West, seq![(0int, 0int), (1int, 0int), (1int, 1int), (0int, -2int), (1int, -2int)]),
    ]
}

impl Kickset {
    /// The entries as mathematical values.
    pub closed spec fn entries(&self) -> Seq<(Piece, Rotation, Rotation, Seq<(int, int)>)> {
        kick_entries(self.kick@)
    }

    /// The standard rotation-system kick table.
    pub fn srs() -> (r: Kickset)
        ensures
            r.entries() == srs_entries(),
    {
        let mut kick: Vec<(Piece, Rotation, Rotation, Vec<(isize, isize)>)> = Vec::new();
    let e0: Vec<(isize, isize)> = vec![(0isize, 0isize), (-2isize, 0isize), (1isize, 0isize), (-2isize, -1isize), (1isize, 2isize)];
    kick.push((Piece::I, Rotation::North, Rotation::East, e0));
    let e1: Vec<(isize, isize)> = vec![(0isize, 0isize), (2isize, 0isize), (-1isize, 0isize), (2isize, 1isize), (-1isize, -2isize)];
    kick.push((Piece::I, Rotation::East, Rotation::North, e1));
    let e2: Vec<(isize, isize)> = vec![(0isize, 0isize), (-1isize, 0isize), (2isize, 0isize), (-1isize, 2isize), (2isize, -1isize)];
    kick.push((Piece::I, Rotation::East, Rotation::South, e2));
    let e3: Vec<(isize, isize)> = vec![(0isize, 0isize), (1isize, 0isize), (-2isize, 0isize), (1isize, -2isize), (-2isize, 1isize)];
    kick.push((Piece::I, Rotation::South, Rotation::East, e3));
    let e4: Vec<(isize, isize)> = vec![(0isize, 0isize), (2isize, 0isize), (-1isize, 0isize), (2isize, 1isize), (-1isize, -2isize)];
    kick.push((Piece::I, Rotation::South, Rotation::West, e4));
    let e5: Vec<(isize, isize)> = vec![(0isize, 0isize), (-2isize, 0isize), (1isize, 0isize), (-2isize, -1isize), (1isize, 2isize)];
    kick.push((Piece::I, Rotation::West, Rotation::South, e5));
    let e6: Vec<(isize, isize)> = vec![(0isize, 0isize), (1isize, 0isize), (-2isize, 0isize), (1isize, -2isize), (-2isize, 1isize)];
    kick.push((Piece::I, Rotation::West, Rotation::North, e6));
    let e7: Vec<(isize, isize)> = vec![(0isize, 0isize), (-1isize, 0isize), (2isize, 0isize), (-1isize, 2isize), (2isize, -1isize)];
    kick.push((Piece::I, Rotation::North, Rotation::West, e7));
    let e8: Vec<(isize, isize)> = vec![(0isize, 0isize), (-1isize, 0isize), (-1isize, 1isize), (0isize, -2isize), (-1isize, -2isize)];
    kick.push((Piece::J, Rotation::North, Rotation::East, e8));
    let e9: Vec<(isize, isize)> = vec![(0isize, 0isize), (1isize, 0isize), (1isize, -1isize), (0isize, 2isize), (1isize, 2isize)];
    kick.push((Piece::J, Rotation::East, Rotation::North, e9));
    let e10: Vec<(isize, isize)> = vec![(0isize, 0isize), (1isize, 0isize), (1isize, -1isize), (0isize, 2isize), (1isize, 2isize)];
    kick.push((Piece::J, Rotation::East, Rotation::South, e10));
    let e11: Vec<(isize, isize)> = vec![(0isize, 0isize), (-1isize, 0isize), (-1isize, 1isize), (0isize, -2isize), (-1isize, -2isize)];
    kick.push((Piece::J, Rotation::South, Rotation::East, e11));
    let e12: Vec<(isize, isize)> = vec![(0isize, 0isize), (1isize, 0isize), (1isize, 1isize), (0isize, -2isize), (1isize, -2isize)];
    kick.push((Piece::J, Rotation::South, Rotation::West, e12));
    let e13: Vec<(isize, isize)> = vec![(0isize, 0isize), (-1isize, 0isize), (-1isize, -1isize), (0isize, 2isize), (-1isize, 2isize)];
    kick.push((Piece::J, Rotation::West, Rotation::South, e13));
    let e14: Vec<(isize, isize)> = vec![(0isize, 0isize), (-1isize, 0isize), (-1isize, -1isize), (0isize, 2isize), (-1isize, 2isize)];
    kick.push((Piece::J, Rotation::West, Rotation::North, e14));
    let e15: Vec<(isize, isize)> = vec![(0isize, 0isize), (1isize, 0isize), (1isize, 1isize), (0isize, -2isize), (1isize, -2isize)];
    kick.push((Piece::J, Rotation::North, Rotation::West, e15));
    let e16: Vec<(isize, isize)> = vec![(0isize, 0isize), (-1isize, 0isize), (-1isize, 1isize), (0isize, -2isize), (-1isize, -2isize)];
    kick.push((Piece::L, Rotation::North, Rotation::East, e16));
    let e17: Vec<(isize, isize)> = vec![(0isize, 0isize), (1isize, 0isize), (1isize, -1isize), (0isize, 2isize), (1isize, 2isize)];
    kick.push((Piece::L, Rotation::East, Rotation::North, e17));
    let e18: Vec<(isize, isize)> = vec![(0isize, 0isize), (1isize, 0isize), (1isize, -1isize), (0isize, 2isize), (1isize, 2isize)];
    kick.push((Piece::L, Rotation::East, Rotation::South, e18));
    let e19: Vec<(isize, isize)> = vec![(0isize, 0isize), (-1isize, 0isize), (-1isize, 1isize), (0isize, -2isize), (-1isize, -2isize)];
    kick.push((Piece::L, Rotation::South, Rotation::East, e19));
    let e20: Vec<(isize, isize)> = vec![(0isize, 0isize), (1isize, 0isize), (1isize, 1isize), (0isize, -2isize), (1isize, -2isize)];
    kick.push((Piece::L, Rotation::South, Rotation::West, e20));
    let e21: Vec<(isize, isize)> = vec![(0isize, 0isize), (-1isize, 0isize), (-1isize, -1isize), (0isize, 2isize), (-1isize, 2isize)];
    kick.push((Piece::L, Rotation::West, Rotation::South, e21));
    let e22: Vec<(isize, isize)> = vec![(0isize, 0isize), (-1isize, 0isize), (-1isize, -1isize), (0isize, 2isize), (-1isize, 2isize)];
    kick.push((Piece::L, Rotation::West, Rotation::North, e22));
    let e23: Vec<(isize, isize)> = vec![(0isize, 0isize), (1isize, 0isize), (1isize, 1isize), (0isize, -2isize), (1isize, -2isize)];
    kick.push((Piece::L, Rotation::North, Rotation::West, e23));
    let e24: Vec<(isize, isize)> = vec![(0isize, 0isize), (-1isize, 0isize), (-1isize, 1isize), (0isize, -2isize), (-1isize, -2isize)];
    kick.push((Piece::S, Rotation::North, Rotation::East, e24));
    let e25: Vec<(isize, isize)> = vec![(0isize, 0isize), (1isize, 0isize), (1isize, -1isize), (0isize, 2isize), (1isize, 2isize)];
    kick.push((Piece::S, Rotation::East, Rotation::North, e25));
    let e26: Vec<(isize, isize)> = vec![(0isize, 0isize), (1isize, 0isize), (1isize, -1isize), (0isize, 2isize), (1isize, 2isize)];
    kick.push((Piece::S, Rotation::East, Rotation::South, e26));
    let e27: Vec<(isize, isize)> = vec![(0isize, 0isize), (-1isize, 0isize), (-1isize, 1isize), (0isize, -2isize), (-1isize, -2isize)];
    kick.push((Piece::S, Rotation::South, Rotation::East, e27));
    let e28: Vec<(isize, isize)> = vec![(0isize, 0isize), (1isize, 0isize), (1isize, 1isize), (0isize, -2isize), (1isize, -2isize)];
    kick.push((Piece::S, Rotation::South, Rotation::West, e28));
    let e29: Vec<(isize, isize)> = vec![(0isize, 0isize), (-1isize, 0isize), (-1isize, -1isize), (0isize, 2isize), (-1isize, 2isize)];
    kick.push((Piece::S, Rotation::West, Rotation::South, e29));
    let e30: Vec<(isize, isize)> = vec![(0isize, 0isize), (-1isize, 0isize), (-1isize, -1isize), (0isize, 2isize), (-1isize, 2isize)];
    kick.push((Piece::S, Rotation::West, Rotation::North, e30));
    let e31: Vec<(isize, isize)> = vec![(0isize, 0isize), (1isize, 0isize), (1isize, 1isize), (0isize, -2isize), (1isize, -2isize)];
    kick.push((Piece::S, Rotation::North, Rotation::West, e31));
    let e32: Vec<(isize, isize)> = vec![(0isize, 0isize), (-1isize, 0isize), (-1isize, 1isize), (0isize, -2isize), (-1isize, -2isize)];
    kick.push((Piece::T, Rotation::North, Rotation::East, e32));
    let e33: Vec<(isize, isize)> = vec![(0isize, 0isize), (1isize, 0isize), (1isize, -1isize), (0isize, 2isize), (1isize, 2isize)];
    kick.push((Piece::T, Rotation::East, Rotation::North, e33));
    let e34: Vec<(isize, isize)> = vec![(0isize, 0isize), (1isize, 0isize), (1isize, -1isize), (0isize, 2isize), (1isize, 2isize)];
    kick.push((Piece::T, Rotation::East, Rotation::South, e34));
    let e35: Vec<(isize, isize)> = vec![(0isize, 0isize), (-1isize, 0isize), (-1isize, 1isize), (0isize, -2isize), (-1isize, -2isize)];
    kick.push((Piece::T, Rotation::South, Rotation::East, e35));
    let e36: Vec<(isize, isize)> = vec![(0isize, 0isize), (1isize, 0isize), (1isize, 1isize), (0isize, -2isize), (1isize, -2isize)];
    kick.push((Piece::T, Rotation::South, Rotation::West, e36));
    let e37: Vec<(isize, isize)> = vec![(0isize, 0isize), (-1isize, 0isize), (-1isize, -1isize), (0isize, 2isize), (-1isize, 2isize)];
    kick.push((Piece::T, Rotation::West, Rotation::South, e37));
    let e38: Vec<(isize, isize)> = vec![(0isize, 0isize), (-1isize, 0isize), (-1isize, -1isize), (0isize, 2isize), (-1isize, 2isize)];
    kick.push((Piece::T, Rotation::West, Rotation::North, e38));
    let e39: Vec<(isize, isize)> = vec![(0isize, 0isize), (1isize, 0isize), (1isize, 1isize), (0isize, -2isize), (1isize, -2isize)];
    kick.push((Piece::T, Rotation::North, Rotation::West, e39));
    let e40: Vec<(isize, isize)> = vec![(0isize, 0isize), (-1isize, 0isize), (-1isize, 1isize), (0isize, -2isize), (-1isize, -2isize)];
    kick.push((Piece::Z, Rotation::North, Rotation::East, e40));
    let e41: Vec<(isize, isize)> = vec![(0isize, 0isize), (1isize, 0isize), (1isize, -1isize), (0isize, 2isize), (1isize, 2isize)];
    kick.push((Piece::Z, Rotation::East, Rotation::North, e41));
    let e42: Vec<(isize, isize)> = vec![(0isize, 0isize), (1isize, 0isize), (1isize, -1isize), (0isize, 2isize), (1isize, 2isize)];
    kick.push((Piece::Z, Rotation::East, Rotation::South, e42));
    let e43: Vec<(isize, isize)> = vec![(0isize, 0isize), (-1isize, 0isize), (-1isize, 1isize), (0isize, -2isize), (-1isize, -2isize)];
    kick.push((Piece::Z, Rotation::South, Rotation::East, e43));
    let e44: Vec<(isize, isize)> = vec![(0isize, 0isize), (1isize, 0isize), (1isize, 1isize), (0isize, -2isize), (1isize, -2isize)];
    kick.push((Piece::Z, Rotation::South, Rotation::West, e44));
    let e45: Vec<(isize, isize)> = vec![(0isize, 0isize), (-1isize, 0isize), (-1isize, -1isize), (0isize, 2isize), (-1isize, 2isize)];
    kick.push((Piece::Z, Rotation::West, Rotation::South, e45));
    let e46: Vec<(isize, isize)> = vec![(0isize, 0isize), (-1isize, 0isize), (-1isize, -1isize), (0isize, 2isize), (-1isize, 2isize)];
    kick.push((Piece::Z, Rotation::West, Rotation::North, e46));
    let e47: Vec<(isize, isize)> = vec![(0isize, 0isize), (1isize, 0isize), (1isize, 1isize), (0isize, -2isize), (1isize, -2isize)];
    kick.push((Piece::Z, Rotation::North, Rotation::West, e47));
        let ks = Kickset { kick };
        proof {
        assert(ks.entries()[0].3 =~= srs_entries()[0].3);
        assert(ks.entries()[0] == srs_entries()[0]);
        assert(ks.entries()[1].3 =~= srs_entries()[1].3);
        assert(ks.entries()[1] == srs_entries()[1]);
        assert(ks.entries()[2].3 =~= srs_entries()[2].3);
        assert(ks.entries()[2] == srs_entries()[2]);
        assert(ks.entries()[3].3 =~= srs_entries()[3].3);
        assert(ks.entries()[3] == srs_entries()[3]);
        assert(ks.entries()[4].3 =~= srs_entries()[4].3);
        assert(ks.entries()[4] == srs_entries()[4]);
        assert(ks.entries()[5].3 =~= srs_entries()[5].3);
        assert(ks.entries()[5] == srs_entries()[5]);
        assert(ks.entries()[6].3 =~= srs_entries()[6].3);
        assert(ks.entries()[6] == srs_entries()[6]);
        assert(ks.entries()[7].3 =~= srs_entries()[7].3);
        assert(ks.entries()[7] == srs_entries()[7]);
        assert(ks.entries()[8].3 =~= srs_entries()[8].3);
        assert(ks.entries()[8] == srs_entries()[8]);
        assert(ks.entries()[9].3 =~= srs_entries()[9].3);
        assert(ks.entries()[9] == srs_entries()[9]);
        assert(ks.entries()[10].3 =~= srs_entries()[10].3);
        assert(ks.entries()[10] == srs_entries()[10]);
        assert(ks.entries()[11].3 =~= srs_entries()[11].3);
        assert(ks.entries()[11] == srs_entries()[11]);
        assert(ks.entries()[12].3 =~= srs_entries()[12].3);
        assert(ks.entries()[12] == srs_entries()[12]);
        assert(ks.entries()[13].3 =~= srs_entries()[13].3);
        assert(ks.entries()[13] == srs_entries()[13]);
        assert(ks.entries()[14].3 =~= srs_entries()[14].3);
        assert(ks.entries()[14] == srs_entries()[14]);
        assert(ks.entries()[15].3 =~= srs_entries()[15].3);
        assert(ks.entries()[15] == srs_entries()[15]);
        assert(ks.entries()[16].3 =~= srs_entries()[16].3);
        assert(ks.entries()[16] == srs_entries()[16]);
        assert(ks.entries()[17].3 =~= srs_entries()[17].3);
        assert(ks.entries()[17] == srs_entries()[17]);
        assert(ks.entries()[18].3 =~= srs_entries()[18].3);
        assert(ks.entries()[18] == srs_entries()[18]);
        assert(ks.entries()[19].3 =~= srs_entries()[19].3);
        assert(ks.entries()[19] == srs_entries()[19]);
        assert(ks.entries()[20].3 =~= srs_entries()[20].3);
        assert(ks.entries()[20] == srs_entries()[20]);
        assert(ks.entries()[21].3 =~= srs_entries()[21].3);
        assert(ks.entries()[21] == srs_entries()[21]);
        assert(ks.entries()[22].3 =~= srs_entries()[22].3);
        assert(ks.entries()[22] == srs_entries()[22]);
        assert(ks.entries()[23].3 =~= srs_entries()[23].3);
        assert(ks.entries()[23] == srs_entries()[23]);
        assert(ks.entries()[24].3 =~= srs_entries()[24].3);
        assert(ks.entries()[24] == srs_entries()[24]);
        assert(ks.entries()[25].3 =~= srs_entries()[25].3);
        assert(ks.entries()[25] == srs_entries()[25]);
        assert(ks.entries()[26].3 =~= srs_entries()[26].3);
        assert(ks.entries()[26] == srs_entries()[26]);
        assert(ks.entries()[27].3 =~= srs_entries()[27].3);
        assert(ks.entries()[27] == srs_entries()[27]);
        assert(ks.entries()[28].3 =~= srs_entries()[28].3);
        assert(ks.entries()[28] == srs_entries()[28]);
        assert(ks.entries()[29].3 =~= srs_entries()[29].3);
        assert(ks.entries()[29] == srs_entries()[29]);
        assert(ks.entries()[30].3 =~= srs_entries()[30].3);
        assert(ks.entries()[30] == srs_entries()[30]);
        assert(ks.entries()[31].3 =~= srs_entries()[31].3);
        assert(ks.entries()[31] == srs_entries()[31]);
        assert(ks.entries()[32].3 =~= srs_entries()[32].3);
        assert(ks.entries()[32] == srs_entries()[32]);
        assert(ks.entries()[33].3 =~= srs_entries()[33].3);
        assert(ks.entries()[33] == srs_entries()[33]);
        assert(ks.entries()[34].3 =~= srs_entries()[34].3);
        assert(ks.entries()[34] == srs_entries()[34]);
        assert(ks.entries()[35].3 =~= srs_entries()[35].3);
        assert(ks.entries()[35] == srs_entries()[35]);
        assert(ks.entries()[36].3 =~= srs_entries()[36].3);
        assert(ks.entries()[36] == srs_entries()[36]);
        assert(ks.entries()[37].3 =~= srs_entries()[37].3);
        assert(ks.entries()[37] == srs_entries()[37]);
        assert(ks.entries()[38].3 =~= srs_entries()[38].3);
        assert(ks.entries()[38] == srs_entries()[38]);
        assert(ks.entries()[39].3 =~= srs_entries()[39].3);
        assert(ks.entries()[39] == srs_entries()[39]);
        assert(ks.entries()[40].3 =~= srs_entries()[40].3);
        assert(ks.entries()[40] == srs_entries()[40]);
        assert(ks.entries()[41].3 =~= srs_entries()[41].3);
        assert(ks.entries()[41] == srs_entries()[41]);
        assert(ks.entries()[42].3 =~= srs_entries()[42].3);
        assert(ks.entries()[42] == srs_entries()[42]);
        assert(ks.entries()[43].3 =~= srs_entries()[43].3);
        assert(ks.entries()[43] == srs_entries()[43]);
        assert(ks.entries()[44].3 =~= srs_entries()[44].3);
        assert(ks.entries()[44] == srs_entries()[44]);
        assert(ks.entries()[45].3 =~= srs_entries()[45].3);
        assert(ks.entries()[45] == srs_entries()[45]);
        assert(ks.entries()[46].3 =~= srs_entries()[46].3);
        assert(ks.entries()[46] == srs_entries()[46]);
        assert(ks.entries()[47].3 =~= srs_entries()[47].3);
        assert(ks.entries()[47] == srs_entries()[47]);
        assert(ks.entries() =~= srs_entries());
        }
        ks
    }

    /// The ordered translation tests for one transition.
    pub fn get(&self, piece: Piece, initial_rotation: Rotation, final_rotation: Rotation) -> (r:
        Vec<(isize, isize)>)
        ensures
            r@.map_values(|q: (isize, isize)| (q.0 as int, q.1 as int)) == kick_lookup(
                self.entries(),
                piece,
                initial_rotation,
                final_rotation,
            ),
    {
        proof {
            assert(self.entries().skip(0) =~= self.entries());
        }
        let mut i: usize = 0;
        while i < self.kick.len()
            invariant
                i <= self.kick@.len(),
                kick_lookup(self.entries(), piece, initial_rotation, final_rotation)
                    == kick_lookup(
                    self.entries().skip(i as int),
                    piece,
                    initial_rotation,
                    final_rotation,
                ),
            decreases self.kick@.len() - i,
        {
            proof {
                assert(self.entries().skip(i as int)[0] == self.entries()[i as int]);
                assert(self.entries().skip(i as int).drop_first() =~= self.entries().skip(
                    i + 1,
                ));
            }
            let e = &self.kick[i];
            if piece_eq(e.0, piece) && rot_eq(e.1, initial_rotation) && rot_eq(
                e.2,
                final_rotation,
            ) {
                let r = copy_tests(&e.3);
                proof {
                    assert(r@.map_values(|q: (isize, isize)| (q.0 as int, q.1 as int))
                        == self.entries()[i as int].3);
                }
                return r;
            }
            i = i + 1;
        }
        proof {
            assert(self.entries().skip(self.kick@.len() as int) =~= Seq::<(
                Piece,
                Rotation,
                Rotation,
                Seq<(int, int)>,
            )>::empty());
        }
        let mut d: Vec<(isize, isize)> = Vec::new();
        d.push((0, 0));
        proof {
            assert(d@.map_values(|q: (isize, isize)| (q.0 as int, q.1 as int)) =~= seq![
                (0int, 0int),
            ]);
        }
        d
    }
}

impl Clone for Kickset {
    /// A clone carries the same entries.
    fn clone(&self) -> (r: Self)
        ensures
            r.entries() == self.entries(),
    {
        let mut kick: Vec<(Piece, Rotation, Rotation, Vec<(isize, isize)>)> = Vec::new();
        let mut i: usize = 0;
        while i < self.kick.len()
            invariant
                i <= self.kick@.len(),
                kick@.len() == i,
                forall|j: int|
                    0 <= j < i ==> (#[trigger] kick@[j]).0 == self.kick@[j].0 && kick@[j].1
                        == self.kick@[j].1 && kick@[j].2 == self.kick@[j].2 && kick@[j].3@
                        == self.kick@[j].3@,
            decreases self.kick@.len() - i,
        {
            let e = &self.kick[i];
            kick.push((e.0, e.1, e.2, copy_tests(&e.3)));
            i = i + 1;
        }
        let r = Kickset { kick };
        proof {
            assert forall|j: int| 0 <= j < r.entries().len() implies r.entries()[j]
                == self.entries()[j] by {
                assert(r.kick@[j].3@.map_values(|q: (isize, isize)| (q.0 as int, q.1 as int))
                    =~= self.kick@[j].3@.map_values(
                    |q: (isize, isize)| (q.0 as int, q.1 as int),
                ));
            }
            assert(r.entries() =~= self.entries());
        }
        r
    }
}

/// Whether two piece kinds are the same.
pub fn piece_eq(a: Piece, b: Piece) -> (r: bool)
    ensures
        r == (a == b),
{
    matches!(
        (a, b),
        (Piece::I, Piece::I) | (Piece::J, Piece::J) | (Piece::O, Piece::O) | (Piece::L, Piece::L)
            | (Piece::Z, Piece::Z) | (Piece::S, Piece::S) | (Piece::T, Piece::T)
            | (Piece::G, Piece::G) | (Piece::D, Piece::D) | (Piece::E, Piece::E)
    )
}

/// Whether two rotation states are the same.
pub fn rot_eq(a: Rotation, b: Rotation) -> (r: bool)
    ensures
        r == (a == b),
{
    matches!(
        (a, b),
        (Rotation::North, Rotation::North) | (Rotation::East, Rotation::East)
            | (Rotation::South, Rotation::South) | (Rotation::West, Rotation::West)
    )
}

/// A copy of a list of translation tests.
pub fn copy_tests(src: &Vec<(isize, isize)>) -> (r: Vec<(isize, isize)>)
    ensures
        r@ == src@,
{
    let mut out: Vec<(isize, isize)> = Vec::new();
    let mut i: usize = 0;
    while i < src.len()
        invariant
            i <= src@.len(),
            out@ == src@.take(i as int),
        decreases src@.len() - i,
    {
        out.push(src[i]);
        proof {
            assert(src@.take(i + 1) =~= src@.take(i as int).push(src@[i as int]));
        }
        i = i + 1;
    }
    proof {
        assert(src@.take(src@.len() as int) =~= src@);
    }
    out
}

} // verus!

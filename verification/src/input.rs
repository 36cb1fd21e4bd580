//! The input simulator: a piece in flight over a board, moved and rotated
//! by keys, honoring a kick table.

use vstd::prelude::*;

use crate::board::{spec_is_valid_placement, walk_down, walk_up, Board};
use crate::kick::{kick_lookup, Kickset};
use crate::piece::{Piece, Rotation};
use crate::placement::Placement;

verus! {

/// A key event.
#[derive(Clone, Copy, Debug, Hash, PartialEq, Eq, Structural)]
pub enum Key {
    MoveLeft,
    MoveRight,
    DasLeft,
    DasRight,
    CW,
    CCW,
    Flip,
    SoftDrop,
    HardDrop,
    SonicDrop,
}

/// Which drop keys the search may use.
#[derive(Clone, Copy, Debug, Hash, PartialEq, Eq, Structural)]
pub enum DropType {
    Sonic,
    Soft,
    NoDrop,
}

/// The handling profile: which keys are legal and how far the input
/// search may look.
#[derive(Debug)]
pub struct Handling {
    pub kickset: Kickset,
    pub use_180: bool,
    pub drop_type: DropType,
    pub max: usize,
    pub das: bool,
    pub finesse: bool,
    pub ignore: bool,
}

impl Clone for Handling {
    /// A clone carries the same kick entries and flags.
    fn clone(&self) -> (r: Self)
        ensures
            r.kickset.entries() == self.kickset.entries(),
            r.use_180 == self.use_180,
            r.drop_type == self.drop_type,
            r.max == self.max,
            r.das == self.das,
            r.finesse == self.finesse,
            r.ignore == self.ignore,
    {
        Handling {
            kickset: self.kickset.clone(),
            use_180: self.use_180,
            drop_type: self.drop_type,
            max: self.max,
            das: self.das,
            finesse: self.finesse,
            ignore: self.ignore,
        }
    }
}

/// The keys the input search may try under a handling profile, in the
/// order the search tries them.
pub open spec fn spec_possible_moves(das: bool, use_180: bool, drop_type: DropType) -> Seq<Key> {
    let base = if das {
        seq![Key::DasLeft, Key::DasRight, Key::MoveLeft, Key::MoveRight, Key::CW, Key::CCW]
    } else {
        seq![Key::MoveLeft, Key::MoveRight, Key::CW, Key::CCW]
    };
    let with_flip = if use_180 {
        base.push(Key::Flip)
    } else {
        base
    };
    let with_sonic = if drop_type == DropType::Sonic || drop_type == DropType::Soft {
        with_flip.push(Key::SonicDrop)
    } else {
        with_flip
    };
    if drop_type == DropType::Soft {
        with_sonic.push(Key::SoftDrop)
    } else {
        with_sonic
    }
}

impl Handling {
    /// The keys the input search may try: horizontal moves and turns, the
    /// charged moves when DAS is on, the 180-degree turn when allowed, and
    /// the drops the drop type allows.
    pub fn possible_moves(&self) -> (r: Vec<Key>)
        ensures
            r@ == spec_possible_moves(self.das, self.use_180, self.drop_type),
    {
        let mut moves: Vec<Key> = Vec::new();
        if self.das {
            moves.push(Key::DasLeft);
            moves.push(Key::DasRight);
        }
        moves.push(Key::MoveLeft);
        moves.push(Key::MoveRight);
        moves.push(Key::CW);
        moves.push(Key::CCW);
        if self.use_180 {
            moves.push(Key::Flip);
        }
        if matches!(self.drop_type, DropType::Sonic | DropType::Soft) {
            moves.push(Key::SonicDrop);
        }
        if matches!(self.drop_type, DropType::Soft) {
            moves.push(Key::SoftDrop);
        }
        proof {
            assert(moves@ =~= spec_possible_moves(self.das, self.use_180, self.drop_type));
        }
        moves
    }
}

impl Rotation {
    /// The rotation that one key event produces; movement keys leave it
    /// unchanged.
    pub fn send_one(self, keys: Key) -> (r: Rotation)
        ensures
            r == spec_send_one(self, keys),
    {
        match keys {
            Key::CCW => self.ccw(),
            Key::CW => self.cw(),
            Key::Flip => self.flip(),
            _ => self,
        }
    }

    /// The rotation that a key sequence produces.
    pub fn send(self, keys: &Vec<Key>) -> (r: Rotation)
        ensures
            r == spec_send(self, keys@),
    {
        proof {
            assert(keys@.skip(0) =~= keys@);
        }
        let mut cur = self;
        let mut i: usize = 0;
        while i < keys.len()
            invariant
                i <= keys@.len(),
                spec_send(cur, keys@.skip(i as int)) == spec_send(self, keys@),
            decreases keys@.len() - i,
        {
            proof {
                assert(keys@.skip(i as int)[0] == keys@[i as int]);
                assert(keys@.skip(i as int).drop_first() =~= keys@.skip(i + 1));
            }
            cur = cur.send_one(keys[i]);
            i = i + 1;
        }
        proof {
            assert(keys@.skip(keys@.len() as int) =~= Seq::<Key>::empty());
        }
        cur
    }
}

/// The rotation one key event produces.
pub open spec fn spec_send_one(r: Rotation, k: Key) -> Rotation {
    match k {
        Key::CCW => r.spec_ccw(),
        Key::CW => r.spec_cw(),
        Key::Flip => r.spec_flip(),
        _ => r,
    }
}

/// The rotation a key sequence produces, ignoring the board.
pub open spec fn spec_send(r: Rotation, keys: Seq<Key>) -> Rotation
    decreases keys.len(),
{
    if keys.len() == 0 {
        r
    } else {
        spec_send(spec_send_one(r, keys[0]), keys.drop_first())
    }
}

/// Whether the piece may hover at this position: all cells in bounds and
/// empty, floating allowed.
pub open spec fn sim_valid(
    rows: Seq<Seq<Piece>>,
    margin: int,
    piece: Piece,
    rot: Rotation,
    x: usize,
    y: usize,
) -> bool {
    spec_is_valid_placement(rows, margin, Placement(piece, x, y, rot), true)
}

/// The column after one step leftward, when that position is free.
pub open spec fn sim_left(
    rows: Seq<Seq<Piece>>,
    margin: int,
    piece: Piece,
    rot: Rotation,
    x: usize,
    y: usize,
) -> usize {
    if x > 0 && sim_valid(rows, margin, piece, rot, (x - 1) as usize, y) {
        (x - 1) as usize
    } else {
        x
    }
}

/// The column after one step rightward, when that position is free.
pub open spec fn sim_right(
    rows: Seq<Seq<Piece>>,
    margin: int,
    piece: Piece,
    rot: Rotation,
    x: usize,
    y: usize,
) -> usize {
    if x < usize::MAX && sim_valid(rows, margin, piece, rot, (x + 1) as usize, y) {
        (x + 1) as usize
    } else {
        x
    }
}

/// The row after one step downward, when that position is free.
pub open spec fn sim_soft(
    rows: Seq<Seq<Piece>>,
    margin: int,
    piece: Piece,
    rot: Rotation,
    x: usize,
    y: usize,
) -> usize {
    if y > 0 && sim_valid(rows, margin, piece, rot, x, (y - 1) as usize) {
        (y - 1) as usize
    } else {
        y
    }
}

/// The row after one step upward, when that position is free.
pub open spec fn sim_fly(
    rows: Seq<Seq<Piece>>,
    margin: int,
    piece: Piece,
    rot: Rotation,
    x: usize,
    y: usize,
) -> usize {
    if y < usize::MAX && sim_valid(rows, margin, piece, rot, x, (y + 1) as usize) {
        (y + 1) as usize
    } else {
        y
    }
}

/// The column a charged move leftward reaches: step left until blocked.
pub open spec fn sim_das_left(
    rows: Seq<Seq<Piece>>,
    margin: int,
    piece: Piece,
    rot: Rotation,
    x: usize,
    y: usize,
) -> usize
    decreases x,
{
    if x > 0 && sim_valid(rows, margin, piece, rot, (x - 1) as usize, y) {
        sim_das_left(rows, margin, piece, rot, (x - 1) as usize, y)
    } else {
        x
    }
}

/// The column a charged move rightward reaches: step right until blocked.
pub open spec fn sim_das_right(
    rows: Seq<Seq<Piece>>,
    margin: int,
    piece: Piece,
    rot: Rotation,
    x: usize,
    y: usize,
) -> usize
    decreases crate::board::max_row_len(rows) - x via sim_das_right_decreases
{
    if x < usize::MAX && sim_valid(rows, margin, piece, rot, (x + 1) as usize, y) {
        sim_das_right(rows, margin, piece, rot, (x + 1) as usize, y)
    } else {
        x
    }
}

#[via_fn]
proof fn sim_das_right_decreases(
    rows: Seq<Seq<Piece>>,
    margin: int,
    piece: Piece,
    rot: Rotation,
    x: usize,
    y: usize,
) {
    if x < usize::MAX && sim_valid(rows, margin, piece, rot, (x + 1) as usize, y) {
        lemma_valid_x_bound(rows, margin, piece, rot, (x + 1) as usize, y);
    }
}

/// A hovering piece keeps its center column inside the board width.
pub proof fn lemma_valid_x_bound(
    rows: Seq<Seq<Piece>>,
    margin: int,
    piece: Piece,
    rot: Rotation,
    x: usize,
    y: usize,
)
    requires
        sim_valid(rows, margin, piece, rot, x, y),
    ensures
        (x as int) < crate::board::max_row_len(rows),
{
    crate::bits::lemma_offset_zero(piece, rot);
    let p = Placement(piece, x, y, rot);
    assert(crate::board::cell_free(rows, crate::board::adjusted_cells(rows, p)[0]));
    assert(crate::board::adjusted_cells(rows, p)[0].0 == x as int);
}

/// The row a sonic or hard drop reaches: step down until blocked.
pub open spec fn sim_sonic(
    rows: Seq<Seq<Piece>>,
    margin: int,
    piece: Piece,
    rot: Rotation,
    x: usize,
    y: usize,
) -> usize
    decreases y,
{
    if y > 0 && sim_valid(rows, margin, piece, rot, x, (y - 1) as usize) {
        sim_sonic(rows, margin, piece, rot, x, (y - 1) as usize)
    } else {
        y
    }
}

/// The outcome of trying the kick tests from index `k` on: the first test
/// whose translated, line-clear-walked position is free wins; if none
/// fits, the state is unchanged.
pub open spec fn sim_kick(
    rows: Seq<Seq<Piece>>,
    margin: int,
    tests: Seq<(int, int)>,
    piece: Piece,
    x: usize,
    y: usize,
    rot: Rotation,
    rn: Rotation,
    k: int,
) -> (usize, usize, Rotation)
    decreases tests.len() - k,
{
    if k < 0 || k >= tests.len() {
        (x, y, rot)
    } else {
        let t = tests[k];
        if 0 <= x + t.0 <= usize::MAX && 0 <= y + t.1 <= usize::MAX {
            let dy0 = y + t.1;
            let dy = if t.1 > 0 {
                walk_up(rows, dy0)
            } else {
                walk_down(rows, dy0)
            };
            if 0 <= dy <= usize::MAX && sim_valid(
                rows,
                margin,
                piece,
                rn,
                (x + t.0) as usize,
                dy as usize,
            ) {
                ((x + t.0) as usize, dy as usize, rn)
            } else {
                sim_kick(rows, margin, tests, piece, x, y, rot, rn, k + 1)
            }
        } else {
            sim_kick(rows, margin, tests, piece, x, y, rot, rn, k + 1)
        }
    }
}

/// The state one key event produces.
pub open spec fn sim_send_key(
    rows: Seq<Seq<Piece>>,
    margin: int,
    ks: Seq<(Piece, Rotation, Rotation, Seq<(int, int)>)>,
    piece: Piece,
    x: usize,
    y: usize,
    rot: Rotation,
    key: Key,
) -> (usize, usize, Rotation) {
    match key {
        Key::MoveLeft => (sim_left(rows, margin, piece, rot, x, y), y, rot),
        Key::MoveRight => (sim_right(rows, margin, piece, rot, x, y), y, rot),
        Key::DasLeft => (sim_das_left(rows, margin, piece, rot, x, y), y, rot),
        Key::DasRight => (sim_das_right(rows, margin, piece, rot, x, y), y, rot),
        Key::SoftDrop => (x, sim_soft(rows, margin, piece, rot, x, y), rot),
        Key::HardDrop | Key::SonicDrop => (x, sim_sonic(rows, margin, piece, rot, x, y), rot),
        Key::CW => sim_kick(
            rows,
            margin,
            kick_lookup(ks, piece, rot, rot.spec_cw()),
            piece,
            x,
            y,
            rot,
            rot.spec_cw(),
            0,
        ),
        Key::CCW => sim_kick(
            rows,
            margin,
            kick_lookup(ks, piece, rot, rot.spec_ccw()),
            piece,
            x,
            y,
            rot,
            rot.spec_ccw(),
            0,
        ),
        Key::Flip => sim_kick(
            rows,
            margin,
            kick_lookup(ks, piece, rot, rot.spec_flip()),
            piece,
            x,
            y,
            rot,
            rot.spec_flip(),
            0,
        ),
    }
}

/// The state a key sequence produces.
pub open spec fn sim_send_keys(
    rows: Seq<Seq<Piece>>,
    margin: int,
    ks: Seq<(Piece, Rotation, Rotation, Seq<(int, int)>)>,
    piece: Piece,
    x: usize,
    y: usize,
    rot: Rotation,
    keys: Seq<Key>,
) -> (usize, usize, Rotation)
    decreases keys.len(),
{
    if keys.len() == 0 {
        (x, y, rot)
    } else {
        let s = sim_send_key(rows, margin, ks, piece, x, y, rot, keys[0]);
        sim_send_keys(rows, margin, ks, piece, s.0, s.1, s.2, keys.drop_first())
    }
}

/// Walking upward from a row stops at the grid top at the latest.
pub proof fn lemma_walk_up_bound(rows: Seq<Seq<Piece>>, y: int)
    requires
        0 <= y,
    ensures
        y <= walk_up(rows, y),
        walk_up(rows, y) <= if y > rows.len() {
            y
        } else {
            rows.len() as int
        },
    decreases rows.len() - y,
{
    if crate::board::row_cleared(rows, y) {
        lemma_walk_up_bound(rows, y + 1);
    }
}

/// A piece in flight: its kind, position and rotation over a board, under
/// a handling profile.
#[derive(Debug)]
pub struct Input<'a> {
    pub piece: Piece,
    pub board: &'a Board,
    pub location: (usize, usize),
    pub rotation: Rotation,
    pub handling: Handling,
}

impl<'a> Clone for Input<'a> {
    /// A clone shares the board and carries the same state; the handling
    /// keeps its kick entries and flags.
    fn clone(&self) -> (r: Self)
        ensures
            r.piece == self.piece,
            r.board == self.board,
            r.location == self.location,
            r.rotation == self.rotation,
            r.handling.kickset.entries() == self.handling.kickset.entries(),
            r.handling.use_180 == self.handling.use_180,
            r.handling.drop_type == self.handling.drop_type,
            r.handling.max == self.handling.max,
            r.handling.das == self.handling.das,
            r.handling.finesse == self.handling.finesse,
            r.handling.ignore == self.handling.ignore,
    {
        Input {
            piece: self.piece,
            board: self.board,
            location: self.location,
            rotation: self.rotation,
            handling: self.handling.clone(),
        }
    }
}

impl<'a> Input<'a> {
    /// The simulator is over a well-formed board with a real tetromino.
    pub open spec fn inv(&self) -> bool {
        &&& self.piece.is_tetromino()
        &&& self.board.wf()
    }

    /// The board rows.
    pub open spec fn rows(&self) -> Seq<Seq<Piece>> {
        self.board.rows_view()
    }

    /// The kick entries in force.
    pub open spec fn ks(&self) -> Seq<(Piece, Rotation, Rotation, Seq<(int, int)>)> {
        self.handling.kickset.entries()
    }

    /// The state after one key, as a triple.
    pub open spec fn next_state(&self, key: Key) -> (usize, usize, Rotation) {
        sim_send_key(
            self.rows(),
            self.board.margin as int,
            self.ks(),
            self.piece,
            self.location.0,
            self.location.1,
            self.rotation,
            key,
        )
    }

    /// A new simulator state.
    pub fn new(
        board: &'a Board,
        piece: Piece,
        location: (usize, usize),
        rotation: Rotation,
        handling: Handling,
    ) -> (r: Input<'a>)
        ensures
            r.piece == piece,
            r.board == board,
            r.location == location,
            r.rotation == rotation,
            r.handling == handling,
    {
        Input { piece, board, location, rotation, handling }
    }

    /// The current state as a placement.
    pub fn placement(&self) -> (r: Placement)
        ensures
            r == Placement(self.piece, self.location.0, self.location.1, self.rotation),
    {
        Placement::new(self.piece, self.location.0, self.location.1, self.rotation)
    }

    /// Whether the piece may hover at a placement: floating is allowed.
    pub fn is_valid(&self, placement: Placement) -> (r: bool)
        requires
            placement.0.is_tetromino(),
            self.board.wf(),
        ensures
            r == spec_is_valid_placement(
                self.rows(),
                self.board.margin as int,
                placement,
                true,
            ),
    {
        self.board.is_valid_placement(placement, true)
    }

    /// Step one column leftward when the target is free.
    pub fn move_left(&mut self)
        requires
            old(self).inv(),
        ensures
            *final(self) == (Input {
                location: (
                    sim_left(
                        old(self).rows(),
                        old(self).board.margin as int,
                        old(self).piece,
                        old(self).rotation,
                        old(self).location.0,
                        old(self).location.1,
                    ),
                    old(self).location.1,
                ),
                ..*old(self)
            }),
    {
        let mut np = self.placement();
        if let Some(t) = np.x().checked_sub(1) {
            np.set_x(t);
            if self.is_valid(np) {
                self.location.0 = t;
            }
        }
    }

    /// Step one column rightward when the target is free.
    pub fn move_right(&mut self)
        requires
            old(self).inv(),
        ensures
            *final(self) == (Input {
                location: (
                    sim_right(
                        old(self).rows(),
                        old(self).board.margin as int,
                        old(self).piece,
                        old(self).rotation,
                        old(self).location.0,
                        old(self).location.1,
                    ),
                    old(self).location.1,
                ),
                ..*old(self)
            }),
    {
        let mut np = self.placement();
        if let Some(t) = np.x().checked_add(1) {
            np.set_x(t);
            if self.is_valid(np) {
                self.location.0 = t;
            }
        }
    }

    /// Step one row downward when the target is free.
    pub fn soft_drop(&mut self)
        requires
            old(self).inv(),
        ensures
            *final(self) == (Input {
                location: (
                    old(self).location.0,
                    sim_soft(
                        old(self).rows(),
                        old(self).board.margin as int,
                        old(self).piece,
                        old(self).rotation,
                        old(self).location.0,
                        old(self).location.1,
                    ),
                ),
                ..*old(self)
            }),
    {
        let mut np = self.placement();
        if let Some(t) = np.y().checked_sub(1) {
            np.set_y(t);
            if self.is_valid(np) {
                self.location.1 = t;
            }
        }
    }

    /// Step one row upward when the target is free.
    pub fn fly(&mut self)
        requires
            old(self).inv(),
        ensures
            *final(self) == (Input {
                location: (
                    old(self).location.0,
                    sim_fly(
                        old(self).rows(),
                        old(self).board.margin as int,
                        old(self).piece,
                        old(self).rotation,
                        old(self).location.0,
                        old(self).location.1,
                    ),
                ),
                ..*old(self)
            }),
    {
        let mut np = self.placement();
        if let Some(t) = np.y().checked_add(1) {
            np.set_y(t);
            if self.is_valid(np) {
                self.location.1 = t;
            }
        }
    }

    /// Step all the way leftward.
    pub fn das_left(&mut self)
        requires
            old(self).inv(),
        ensures
            *final(self) == (Input {
                location: (
                    sim_das_left(
                        old(self).rows(),
                        old(self).board.margin as int,
                        old(self).piece,
                        old(self).rotation,
                        old(self).location.0,
                        old(self).location.1,
                    ),
                    old(self).location.1,
                ),
                ..*old(self)
            }),
    {
        let ghost orig = *self;
        loop
            invariant
                self.inv(),
                self.piece == orig.piece,
                self.board == orig.board,
                self.rotation == orig.rotation,
                self.handling == orig.handling,
                self.location.1 == orig.location.1,
                sim_das_left(
                    self.rows(),
                    self.board.margin as int,
                    self.piece,
                    self.rotation,
                    self.location.0,
                    self.location.1,
                ) == sim_das_left(
                    orig.rows(),
                    orig.board.margin as int,
                    orig.piece,
                    orig.rotation,
                    orig.location.0,
                    orig.location.1,
                ),
            ensures
                *self == (Input {
                    location: (
                        sim_das_left(
                            orig.rows(),
                            orig.board.margin as int,
                            orig.piece,
                            orig.rotation,
                            orig.location.0,
                            orig.location.1,
                        ),
                        orig.location.1,
                    ),
                    ..orig
                }),
            decreases self.location.0,
        {
            let before = self.location.0;
            self.move_left();
            if self.location.0 == before {
                break ;
            }
        }
    }

    /// Step all the way rightward.
    pub fn das_right(&mut self)
        requires
            old(self).inv(),
        ensures
            *final(self) == (Input {
                location: (
                    sim_das_right(
                        old(self).rows(),
                        old(self).board.margin as int,
                        old(self).piece,
                        old(self).rotation,
                        old(self).location.0,
                        old(self).location.1,
                    ),
                    old(self).location.1,
                ),
                ..*old(self)
            }),
    {
        let ghost orig = *self;
        loop
            invariant
                self.inv(),
                self.piece == orig.piece,
                self.board == orig.board,
                self.rotation == orig.rotation,
                self.handling == orig.handling,
                self.location.1 == orig.location.1,
                sim_das_right(
                    self.rows(),
                    self.board.margin as int,
                    self.piece,
                    self.rotation,
                    self.location.0,
                    self.location.1,
                ) == sim_das_right(
                    orig.rows(),
                    orig.board.margin as int,
                    orig.piece,
                    orig.rotation,
                    orig.location.0,
                    orig.location.1,
                ),
            ensures
                *self == (Input {
                    location: (
                        sim_das_right(
                            orig.rows(),
                            orig.board.margin as int,
                            orig.piece,
                            orig.rotation,
                            orig.location.0,
                            orig.location.1,
                        ),
                        orig.location.1,
                    ),
                    ..orig
                }),
            decreases crate::board::max_row_len(self.rows()) - self.location.0,
        {
            let before = self.location.0;
            let ghost prev = *self;
            self.move_right();
            proof {
                if self.location.0 != before {
                    lemma_valid_x_bound(
                        self.rows(),
                        self.board.margin as int,
                        self.piece,
                        self.rotation,
                        self.location.0,
                        self.location.1,
                    );
                }
            }
            if self.location.0 == before {
                break ;
            }
        }
    }

    /// Rotate toward `rn`, trying the kick tests in order; the first test
    /// whose translated, line-clear-walked position is free wins, and the
    /// state is unchanged when none fits.
    fn rotate_to(&mut self, rn: Rotation)
        requires
            old(self).inv(),
        ensures
            ({
                let s = sim_kick(
                    old(self).rows(),
                    old(self).board.margin as int,
                    kick_lookup(old(self).ks(), old(self).piece, old(self).rotation, rn),
                    old(self).piece,
                    old(self).location.0,
                    old(self).location.1,
                    old(self).rotation,
                    rn,
                    0,
                );
                *final(self) == (Input { location: (s.0, s.1), rotation: s.2, ..*old(self) })
            }),
    {
        let ghost rows = self.rows();
        let ghost margin = self.board.margin as int;
        let tests = self.handling.kickset.get(self.piece, self.rotation, rn);
        let ghost stests = kick_lookup(self.ks(), self.piece, self.rotation, rn);
        proof {
            assert(stests.len() == tests@.len());
            assert(forall|j: int|
                0 <= j < tests@.len() ==> ((#[trigger] tests@[j]).0 as int, tests@[j].1 as int)
                    == stests[j]);
        }
        let x = self.location.0;
        let y = self.location.1;
        let rot = self.rotation;
        let pc = self.piece;
        let mut i: usize = 0;
        while i < tests.len()
            invariant
                i <= tests@.len(),
                self.inv(),
                *self == *old(self),
                pc == self.piece,
                rows == self.rows(),
                margin == self.board.margin as int,
                x == self.location.0,
                y == self.location.1,
                rot == self.rotation,
                stests == kick_lookup(self.ks(), pc, rot, rn),
                stests.len() == tests@.len(),
                forall|j: int|
                    0 <= j < tests@.len() ==> ((#[trigger] tests@[j]).0 as int,
                    tests@[j].1 as int) == stests[j],
                sim_kick(rows, margin, stests, self.piece, x, y, rot, rn, 0) == sim_kick(
                    rows,
                    margin,
                    stests,
                    self.piece,
                    x,
                    y,
                    rot,
                    rn,
                    i as int,
                ),
            decreases tests@.len() - i,
        {
            let (tx, ty) = tests[i];
            if let Some(dx) = x.checked_add_signed(tx) {
                if let Some(dy0) = y.checked_add_signed(ty) {
                    let dy = self.board.walk_row(ty > 0, dy0);
                    proof {
                        if ty > 0 {
                            lemma_walk_up_bound(rows, dy0 as int);
                        } else {
                            assert(walk_down(rows, dy0 as int) == dy);
                        }
                    }
                    let np = Placement::new(self.piece, dx, dy, rn);
                    if self.is_valid(np) {
                        proof {
                            let t = stests[i as int];
                            assert((tx as int, ty as int) == t);
                            assert(0 <= x + t.0 <= usize::MAX);
                            assert(0 <= y + t.1 <= usize::MAX);
                            assert(dy0 == y + t.1);
                            assert(dy as int == if t.1 > 0 {
                                walk_up(rows, y + t.1)
                            } else {
                                walk_down(rows, y + t.1)
                            });
                            assert(sim_valid(rows, margin, pc, rn, dx, dy));
                            assert(sim_kick(rows, margin, stests, pc, x, y, rot, rn, i as int)
                                == ((x + t.0) as usize, dy as usize, rn));
                            assert((x + t.0) as usize == dx);
                        }
                        self.location.0 = dx;
                        self.location.1 = dy;
                        self.rotation = rn;
                        proof {
                            assert(sim_kick(rows, margin, stests, pc, x, y, rot, rn, 0) == (
                            dx,
                            dy,
                            rn,
                            ));
                            assert(rows == old(self).rows());
                            assert(margin == old(self).board.margin as int);
                            assert(stests == kick_lookup(
                                old(self).ks(),
                                old(self).piece,
                                old(self).rotation,
                                rn,
                            ));
                            assert(pc == old(self).piece && x == old(self).location.0 && y == old(
                                self,
                            ).location.1 && rot == old(self).rotation);
                            assert(self.location.0 == dx && self.location.1 == dy && self.rotation
                                == rn);
                        }
                        return ;
                    }
                }
            }
            i = i + 1;
        }
        proof {
            assert(sim_kick(rows, margin, stests, self.piece, x, y, rot, rn, tests@.len() as int)
                == (x, y, rot));
        }
    }

    /// Rotate clockwise, honoring the kick table.
    pub fn cw(&mut self)
        requires
            old(self).inv(),
        ensures
            ({
                let s = old(self).next_state(Key::CW);
                *final(self) == (Input { location: (s.0, s.1), rotation: s.2, ..*old(self) })
            }),
    {
        let rn = self.rotation.cw();
        self.rotate_to(rn);
    }

    /// Rotate counter-clockwise, honoring the kick table.
    pub fn ccw(&mut self)
        requires
            old(self).inv(),
        ensures
            ({
                let s = old(self).next_state(Key::CCW);
                *final(self) == (Input { location: (s.0, s.1), rotation: s.2, ..*old(self) })
            }),
    {
        let rn = self.rotation.ccw();
        self.rotate_to(rn);
    }

    /// Turn 180 degrees, honoring the kick table.
    pub fn flip(&mut self)
        requires
            old(self).inv(),
        ensures
            ({
                let s = old(self).next_state(Key::Flip);
                *final(self) == (Input { location: (s.0, s.1), rotation: s.2, ..*old(self) })
            }),
    {
        let rn = self.rotation.flip();
        self.rotate_to(rn);
    }

    /// Apply one key event.
    pub fn send_key(&mut self, key: Key)
        requires
            old(self).inv(),
        ensures
            ({
                let s = old(self).next_state(key);
                *final(self) == (Input { location: (s.0, s.1), rotation: s.2, ..*old(self) })
            }),
    {
        match key {
            Key::MoveLeft => self.move_left(),
            Key::MoveRight => self.move_right(),
            Key::DasLeft => self.das_left(),
            Key::DasRight => self.das_right(),
            Key::CW => self.cw(),
            Key::CCW => self.ccw(),
            Key::Flip => self.flip(),
            Key::SoftDrop => self.soft_drop(),
            Key::HardDrop | Key::SonicDrop => self.sonic_drop(),
        }
    }

    /// Apply a key sequence in order.
    pub fn send_keys(&mut self, keys: &Vec<Key>)
        requires
            old(self).inv(),
        ensures
            ({
                let s = sim_send_keys(
                    old(self).rows(),
                    old(self).board.margin as int,
                    old(self).ks(),
                    old(self).piece,
                    old(self).location.0,
                    old(self).location.1,
                    old(self).rotation,
                    keys@,
                );
                *final(self) == (Input { location: (s.0, s.1), rotation: s.2, ..*old(self) })
            }),
    {
        let ghost rows = self.rows();
        let ghost margin = self.board.margin as int;
        let ghost ks = self.ks();
        let ghost target = sim_send_keys(
            rows,
            margin,
            ks,
            self.piece,
            self.location.0,
            self.location.1,
            self.rotation,
            keys@,
        );
        proof {
            assert(keys@.skip(0) =~= keys@);
        }
        let mut i: usize = 0;
        while i < keys.len()
            invariant
                i <= keys@.len(),
                self.inv(),
                self.piece == old(self).piece,
                self.board == old(self).board,
                self.handling == old(self).handling,
                rows == self.rows(),
                margin == self.board.margin as int,
                ks == self.ks(),
                target == sim_send_keys(
                    rows,
                    margin,
                    ks,
                    self.piece,
                    self.location.0,
                    self.location.1,
                    self.rotation,
                    keys@.skip(i as int),
                ),
            decreases keys@.len() - i,
        {
            proof {
                assert(keys@.skip(i as int)[0] == keys@[i as int]);
                assert(keys@.skip(i as int).drop_first() =~= keys@.skip(i + 1));
            }
            self.send_key(keys[i]);
            i = i + 1;
        }
        proof {
            assert(keys@.skip(keys@.len() as int) =~= Seq::<Key>::empty());
        }
    }

    /// Whether applying the key would change the state.
    pub fn can(&self, key: Key) -> (r: bool)
        requires
            self.inv(),
        ensures
            r == (self.next_state(key) != (self.location.0, self.location.1, self.rotation)),
    {
        let mut c = self.clone();
        c.send_key(key);
        !(c.location.0 == self.location.0 && c.location.1 == self.location.1 && crate::kick::rot_eq(
            c.rotation,
            self.rotation,
        ))
    }

    /// Whether a move in the given direction would change the state:
    /// north flies, south drops, east and west step sideways.
    pub fn can_move(&self, direction: Rotation) -> (r: bool)
        requires
            self.inv(),
        ensures
            r == match direction {
                Rotation::North => sim_fly(
                    self.rows(),
                    self.board.margin as int,
                    self.piece,
                    self.rotation,
                    self.location.0,
                    self.location.1,
                ) != self.location.1,
                Rotation::East => sim_right(
                    self.rows(),
                    self.board.margin as int,
                    self.piece,
                    self.rotation,
                    self.location.0,
                    self.location.1,
                ) != self.location.0,
                Rotation::South => sim_soft(
                    self.rows(),
                    self.board.margin as int,
                    self.piece,
                    self.rotation,
                    self.location.0,
                    self.location.1,
                ) != self.location.1,
                Rotation::West => sim_left(
                    self.rows(),
                    self.board.margin as int,
                    self.piece,
                    self.rotation,
                    self.location.0,
                    self.location.1,
                ) != self.location.0,
            },
    {
        let mut z = self.clone();
        match direction {
            Rotation::North => {
                let before = z.location.1;
                z.fly();
                before != z.location.1
            },
            Rotation::East => {
                let before = z.location.0;
                z.move_right();
                before != z.location.0
            },
            Rotation::South => {
                let before = z.location.1;
                z.soft_drop();
                before != z.location.1
            },
            Rotation::West => {
                let before = z.location.0;
                z.move_left();
                before != z.location.0
            },
        }
    }

    /// Whether applying a key sequence would change the state.
    pub fn is_useful(&self, keys: &Vec<Key>) -> (r: bool)
        requires
            self.inv(),
        ensures
            r == (sim_send_keys(
                self.rows(),
                self.board.margin as int,
                self.ks(),
                self.piece,
                self.location.0,
                self.location.1,
                self.rotation,
                keys@,
            ) != (self.location.0, self.location.1, self.rotation)),
    {
        let mut c = self.clone();
        c.send_keys(keys);
        !(c.location.0 == self.location.0 && c.location.1 == self.location.1 && crate::kick::rot_eq(
            c.rotation,
            self.rotation,
        ))
    }

    /// The board with the current placement stamped.
    pub fn place(&self) -> (r: Board)
        requires
            self.inv(),
            crate::board::adjusted_ok(self.rows(), Placement(
                self.piece,
                self.location.0,
                self.location.1,
                self.rotation,
            )),
        ensures
            r.rows_view() == crate::board::stamp_rows(
                self.rows(),
                self.piece,
                crate::board::adjusted_cells(self.rows(), Placement(
                    self.piece,
                    self.location.0,
                    self.location.1,
                    self.rotation,
                )),
            ),
    {
        self.board.with_placement(self.placement())
    }

    /// Drop all the way down.
    pub fn sonic_drop(&mut self)
        requires
            old(self).inv(),
        ensures
            *final(self) == (Input {
                location: (
                    old(self).location.0,
                    sim_sonic(
                        old(self).rows(),
                        old(self).board.margin as int,
                        old(self).piece,
                        old(self).rotation,
                        old(self).location.0,
                        old(self).location.1,
                    ),
                ),
                ..*old(self)
            }),
    {
        let ghost orig = *self;
        loop
            invariant
                self.inv(),
                self.piece == orig.piece,
                self.board == orig.board,
                self.rotation == orig.rotation,
                self.handling == orig.handling,
                self.location.0 == orig.location.0,
                sim_sonic(
                    self.rows(),
                    self.board.margin as int,
                    self.piece,
                    self.rotation,
                    self.location.0,
                    self.location.1,
                ) == sim_sonic(
                    orig.rows(),
                    orig.board.margin as int,
                    orig.piece,
                    orig.rotation,
                    orig.location.0,
                    orig.location.1,
                ),
            ensures
                *self == (Input {
                    location: (
                        orig.location.0,
                        sim_sonic(
                            orig.rows(),
                            orig.board.margin as int,
                            orig.piece,
                            orig.rotation,
                            orig.location.0,
                            orig.location.1,
                        ),
                    ),
                    ..orig
                }),
            decreases self.location.1,
        {
            let before = self.location.1;
            self.soft_drop();
            if self.location.1 == before {
                break ;
            }
        }
    }
}

} // verus!

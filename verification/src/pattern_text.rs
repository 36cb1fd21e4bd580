//! The pattern surface syntax: single letters, wildcards, bags and
//! exception bags, with count and permute-all suffixes.

use vstd::prelude::*;

use crate::pattern::{Part, Pattern};
use crate::piece::Piece;
use crate::text::{is_digit, sp_uint};

verus! {

/// A pattern part with boxes and vectors abstracted away, so parsed
/// parts can be stated as mathematical values.
pub enum PartShape {
    All(Box<PartShape>),
    Count(Box<PartShape>, usize),
    Single(Piece),
    Bag(Seq<PartShape>),
    Except(Seq<PartShape>),
    Wildcard,
}

/// The shape of a part: its structure with vectors read as sequences.
pub open spec fn part_shape(p: Part) -> PartShape
    decreases p, 0int,
{
    match p {
        Part::Single(t) => PartShape::Single(t),
        Part::Wildcard => PartShape::Wildcard,
        Part::All(sub) => PartShape::All(Box::new(part_shape(*sub))),
        Part::Count(sub, k) => PartShape::Count(Box::new(part_shape(*sub)), k),
        Part::Bag(parts) => PartShape::Bag(shapes_list(parts, 0)),
        Part::Except(parts) => PartShape::Except(shapes_list(parts, 0)),
    }
}

/// The shapes of the parts from position `i` on.
pub open spec fn shapes_list(parts: Vec<Part>, i: int) -> Seq<PartShape>
    decreases parts, parts@.len() - i, 1int,
{
    if i < 0 || i >= parts@.len() {
        Seq::empty()
    } else {
        seq![part_shape(parts@[i])] + shapes_list(parts, i + 1)
    }
}

/// Appending a part appends its shape.
pub proof fn lemma_shapes_push(parts: Vec<Part>, x: Part, pushed: Vec<Part>, i: int)
    requires
        pushed@ == parts@.push(x),
        0 <= i <= parts@.len(),
    ensures
        shapes_list(pushed, i) == shapes_list(parts, i) + seq![part_shape(x)],
    decreases parts@.len() - i,
{
    if i < parts@.len() {
        lemma_shapes_push(parts, x, pushed, i + 1);
        assert(pushed@[i] == parts@[i]);
        assert(shapes_list(pushed, i) =~= shapes_list(parts, i) + seq![part_shape(x)]);
    } else {
        assert(pushed@[i] == x);
        assert(shapes_list(pushed, i + 1) =~= Seq::<PartShape>::empty());
        assert(shapes_list(pushed, i) =~= seq![part_shape(x)]);
        assert(shapes_list(parts, i) =~= Seq::<PartShape>::empty());
    }
}

/// The tetromino a pattern letter names.
pub open spec fn pattern_piece(c: char) -> Option<Piece> {
    if c == 'I' || c == 'i' {
        Option::Some(Piece::I)
    } else if c == 'J' || c == 'j' {
        Option::Some(Piece::J)
    } else if c == 'O' || c == 'o' {
        Option::Some(Piece::O)
    } else if c == 'L' || c == 'l' {
        Option::Some(Piece::L)
    } else if c == 'Z' || c == 'z' {
        Option::Some(Piece::Z)
    } else if c == 'S' || c == 's' {
        Option::Some(Piece::S)
    } else if c == 'T' || c == 't' {
        Option::Some(Piece::T)
    } else {
        Option::None
    }
}

/// The single-letter parts of a bag body, through the closing bracket.
pub open spec fn pp_singles(v: Seq<char>, pos: int) -> Option<(Seq<PartShape>, int)>
    decreases v.len() - pos,
{
    if pos < 0 || pos >= v.len() {
        Option::None
    } else if v[pos] == ']' {
        Option::Some((Seq::empty(), pos + 1))
    } else {
        match pattern_piece(v[pos]) {
            Option::None => Option::None,
            Option::Some(p) => match pp_singles(v, pos + 1) {
                Option::None => Option::None,
                Option::Some((rest, e)) => Option::Some(
                    (seq![PartShape::Single(p)] + rest, e),
                ),
            },
        }
    }
}

/// One repeatable element: a bag, an exception bag, a wildcard or a
/// single letter; bags must hold at least one letter.
pub open spec fn pp_repeatable(v: Seq<char>, pos: int) -> Option<(PartShape, int)> {
    if pos < 0 || pos >= v.len() {
        Option::None
    } else if v[pos] == '[' {
        if pos + 1 < v.len() && v[pos + 1] == '^' {
            match pp_singles(v, pos + 2) {
                Option::None => Option::None,
                Option::Some((ps, e)) => if ps.len() >= 1 {
                    Option::Some((PartShape::Except(ps), e))
                } else {
                    Option::None
                },
            }
        } else {
            match pp_singles(v, pos + 1) {
                Option::None => Option::None,
                Option::Some((ps, e)) => if ps.len() >= 1 {
                    Option::Some((PartShape::Bag(ps), e))
                } else {
                    Option::None
                },
            }
        }
    } else if v[pos] == '*' {
        Option::Some((PartShape::Wildcard, pos + 1))
    } else {
        match pattern_piece(v[pos]) {
            Option::None => Option::None,
            Option::Some(p) => Option::Some((PartShape::Single(p), pos + 1)),
        }
    }
}

/// One pattern part: a repeatable element with an optional permute-all
/// mark or count.
pub open spec fn pp_part(v: Seq<char>, pos: int) -> Option<(PartShape, int)> {
    match pp_repeatable(v, pos) {
        Option::None => Option::None,
        Option::Some((p, np)) => if 0 <= np < v.len() && v[np] == '!' {
            Option::Some((PartShape::All(Box::new(p)), np + 1))
        } else if 0 <= np < v.len() && is_digit(v[np]) {
            match sp_uint(v, np, 0) {
                Option::None => Option::None,
                Option::Some((n, np2)) => Option::Some((PartShape::Count(Box::new(p), n), np2)),
            }
        } else {
            Option::Some((p, np))
        },
    }
}

/// The parts of a pattern from `pos` on; commas between parts are
/// skipped.
pub open spec fn pp_pattern(v: Seq<char>, pos: int) -> Option<Seq<PartShape>>
    decreases v.len() - pos,
{
    if pos < 0 || pos > v.len() {
        Option::None
    } else if pos == v.len() {
        Option::Some(Seq::empty())
    } else if v[pos] == ',' {
        pp_pattern(v, pos + 1)
    } else {
        match pp_part(v, pos) {
            Option::None => Option::None,
            Option::Some((p, np)) => if np <= pos || np > v.len() {
                Option::None
            } else {
                match pp_pattern(v, np) {
                    Option::None => Option::None,
                    Option::Some(rest) => Option::Some(seq![p] + rest),
                }
            },
        }
    }
}

/// The single-letter parts of a bag body, executed.
fn parse_singles(v: &Vec<char>, pos: usize) -> (r: Option<(Vec<Part>, usize)>)
    requires
        pos <= v@.len(),
    ensures
        match r {
            Option::Some((ps, e)) => pp_singles(v@, pos as int) == Option::Some(
                (shapes_list(ps, 0), e as int),
            ) && e <= v@.len(),
            Option::None => pp_singles(v@, pos as int) is None,
        },
    decreases v@.len() - pos,
{
    if pos >= v.len() {
        return None;
    }
    if v[pos] == ']' {
        let out: Vec<Part> = Vec::new();
        proof {
            assert(shapes_list(out, 0) =~= Seq::<PartShape>::empty());
        }
        return Some((out, pos + 1));
    }
    let p = match Piece::from_char(v[pos]) {
        Some(p) => {
            if matches!(p, Piece::E | Piece::G | Piece::D) {
                return None;
            }
            p
        },
        None => {
            return None;
        },
    };
    match parse_singles(v, pos + 1) {
        None => None,
        Some((rest, e)) => {
            let mut out: Vec<Part> = Vec::new();
            out.push(Part::Single(p));
            let mut i: usize = 0;
            let ghost restsh = shapes_list(rest, 0);
            proof {
                lemma_shapes_index(rest, 0);
                assert(out@.len() == 1);
                assert(out@[0] == Part::Single(p));
                assert(shapes_list(out, 1) =~= Seq::<PartShape>::empty());
                assert(part_shape(Part::Single(p)) == PartShape::Single(p));
                assert(shapes_list(out, 0) =~= seq![PartShape::Single(p)] + restsh.take(0));
            }
            while i < rest.len()
                invariant
                    i <= rest@.len(),
                    restsh == shapes_list(rest, 0),
                    out@.len() == 1 + i,
                    shapes_list(out, 0) =~= seq![PartShape::Single(p)] + restsh.take(i as int),
                    restsh.len() == rest@.len(),
                decreases rest@.len() - i,
            {
                let ghost prevout = out;
                let item = clone_part(&rest[i]);
                proof {
                    lemma_shapes_index(rest, 0);
                }
                out.push(item);
                proof {
                    lemma_shapes_push(prevout, out@[out@.len() - 1], out, 0);
                    assert(part_shape(out@[out@.len() - 1]) == restsh[i as int]);
                    assert(shapes_list(out, 0) =~= seq![PartShape::Single(p)] + restsh.take(
                        i + 1,
                    ));
                }
                i = i + 1;
            }
            proof {
                assert(restsh.take(restsh.len() as int) =~= restsh);
            }
            Some((out, e))
        },
    }
}

/// The shape at each position is the shape of the part there.
pub proof fn lemma_shapes_index(parts: Vec<Part>, i: int)
    requires
        0 <= i <= parts@.len(),
    ensures
        shapes_list(parts, i).len() == parts@.len() - i,
        forall|j: int|
            i <= j < parts@.len() ==> shapes_list(parts, i)[j - i] == part_shape(
                #[trigger] parts@[j],
            ),
    decreases parts@.len() - i,
{
    if i < parts@.len() {
        lemma_shapes_index(parts, i + 1);
        assert forall|j: int| i <= j < parts@.len() implies shapes_list(parts, i)[j - i]
            == part_shape(#[trigger] parts@[j]) by {
            if j > i {
                assert(shapes_list(parts, i + 1)[j - i - 1] == part_shape(parts@[j]));
            }
        }
    }
}

/// A structural copy of a part.
fn clone_part(p: &Part) -> (r: Part)
    ensures
        part_shape(r) == part_shape(*p),
    decreases *p, 0int,
{
    match p {
        Part::Single(t) => Part::Single(*t),
        Part::Wildcard => Part::Wildcard,
        Part::All(sub) => Part::All(Box::new(clone_part(sub))),
        Part::Count(sub, k) => Part::Count(Box::new(clone_part(sub)), *k),
        Part::Bag(parts) => Part::Bag(clone_parts(parts)),
        Part::Except(parts) => Part::Except(clone_parts(parts)),
    }
}

/// A structural copy of a list of parts.
fn clone_parts(parts: &Vec<Part>) -> (r: Vec<Part>)
    ensures
        shapes_list(r, 0) == shapes_list(*parts, 0),
        r@.len() == parts@.len(),
    decreases *parts, 1int,
{
    let mut out: Vec<Part> = Vec::new();
    let mut i: usize = 0;
    let ghost target = shapes_list(*parts, 0);
    proof {
        lemma_shapes_index(*parts, 0);
    }
    while i < parts.len()
        invariant
            i <= parts@.len(),
            target == shapes_list(*parts, 0),
            target.len() == parts@.len(),
            forall|j: int|
                0 <= j < parts@.len() ==> target[j] == part_shape(#[trigger] parts@[j]),
            out@.len() == i,
            shapes_list(out, 0) =~= target.take(i as int),
        decreases parts@.len() - i,
    {
        let ghost prevout = out;
        let item = clone_part(&parts[i]);
        out.push(item);
        proof {
            lemma_shapes_push(prevout, out@[out@.len() - 1], out, 0);
            assert(shapes_list(out, 0) =~= target.take(i + 1));
        }
        i = i + 1;
    }
    proof {
        assert(target.take(target.len() as int) =~= target);
    }
    out
}

/// One repeatable element, executed.
fn parse_repeatable(v: &Vec<char>, pos: usize) -> (r: Option<(Part, usize)>)
    requires
        pos <= v@.len(),
    ensures
        match r {
            Option::Some((p, e)) => pp_repeatable(v@, pos as int) == Option::Some(
                (part_shape(p), e as int),
            ) && e <= v@.len(),
            Option::None => pp_repeatable(v@, pos as int) is None,
        },
{
    if pos >= v.len() {
        return None;
    }
    if v[pos] == '[' {
        if pos + 1 < v.len() && v[pos + 1] == '^' {
            match parse_singles(v, pos + 2) {
                None => None,
                Some((ps, e)) => {
                    if ps.len() >= 1 {
                        proof {
                            lemma_shapes_index(ps, 0);
                        }
                        Some((Part::Except(ps), e))
                    } else {
                        proof {
                            lemma_shapes_index(ps, 0);
                        }
                        None
                    }
                },
            }
        } else {
            match parse_singles(v, pos + 1) {
                None => None,
                Some((ps, e)) => {
                    if ps.len() >= 1 {
                        proof {
                            lemma_shapes_index(ps, 0);
                        }
                        Some((Part::Bag(ps), e))
                    } else {
                        proof {
                            lemma_shapes_index(ps, 0);
                        }
                        None
                    }
                },
            }
        }
    } else if v[pos] == '*' {
        Some((Part::Wildcard, pos + 1))
    } else {
        match Piece::from_char(v[pos]) {
            Some(p) => {
                if matches!(p, Piece::E | Piece::G | Piece::D) {
                    return None;
                }
                Some((Part::Single(p), pos + 1))
            },
            None => None,
        }
    }
}

/// One pattern part, executed.
fn parse_pattern_part(v: &Vec<char>, pos: usize) -> (r: Option<(Part, usize)>)
    requires
        pos <= v@.len(),
    ensures
        match r {
            Option::Some((p, e)) => pp_part(v@, pos as int) == Option::Some(
                (part_shape(p), e as int),
            ) && e <= v@.len(),
            Option::None => pp_part(v@, pos as int) is None,
        },
{
    let rep = parse_repeatable(v, pos)?;
    let (p, np) = rep;
    if np < v.len() && v[np] == '!' {
        Some((Part::All(Box::new(p)), np + 1))
    } else if np < v.len() && crate::text::is_digit_char(v[np]) {
        match crate::text::parse_uint_chars(v, np, 0) {
            None => None,
            Some((n, np2)) => Some((Part::Count(Box::new(p), n), np2)),
        }
    } else {
        Some((p, np))
    }
}

impl Pattern {
    /// The pattern a string parses to; `None` when the string does not
    /// follow the grammar.
    pub fn parse(s: &str) -> (r: Option<Pattern>)
        ensures
            match r {
                Option::Some(p) => pp_pattern(s@, 0) == Option::Some(shapes_list(p.parts, 0)),
                Option::None => pp_pattern(s@, 0) is None,
            },
    {
        let v = crate::text::string_chars(s);
        match parse_pattern_parts(&v, 0) {
            None => None,
            Some(parts) => Some(Pattern { parts }),
        }
    }
}

/// The parts of a pattern from `pos` on, executed.
fn parse_pattern_parts(v: &Vec<char>, pos: usize) -> (r: Option<Vec<Part>>)
    requires
        pos <= v@.len(),
    ensures
        match r {
            Option::Some(parts) => pp_pattern(v@, pos as int) == Option::Some(
                shapes_list(parts, 0),
            ),
            Option::None => pp_pattern(v@, pos as int) is None,
        },
    decreases v@.len() - pos,
{
    if pos == v.len() {
        let out: Vec<Part> = Vec::new();
        proof {
            assert(shapes_list(out, 0) =~= Seq::<PartShape>::empty());
        }
        return Some(out);
    }
    if v[pos] == ',' {
        return parse_pattern_parts(v, pos + 1);
    }
    let part = parse_pattern_part(v, pos)?;
    let (p, np) = part;
    if np <= pos {
        return None;
    }
    match parse_pattern_parts(v, np) {
        None => None,
        Some(rest) => {
            let ghost psh = part_shape(p);
            let ghost restsh = shapes_list(rest, 0);
            let mut out: Vec<Part> = Vec::new();
            out.push(p);
            let mut i: usize = 0;
            proof {
                lemma_shapes_index(rest, 0);
                assert(out@.len() == 1);
                assert(out@[0] == p);
                assert(shapes_list(out, 1) =~= Seq::<PartShape>::empty());
                assert(shapes_list(out, 0) =~= seq![psh] + restsh.take(0));
            }
            while i < rest.len()
                invariant
                    i <= rest@.len(),
                    restsh == shapes_list(rest, 0),
                    restsh.len() == rest@.len(),
                    forall|j: int|
                        0 <= j < rest@.len() ==> restsh[j] == part_shape(#[trigger] rest@[j]),
                    out@.len() == 1 + i,
                    shapes_list(out, 0) =~= seq![psh] + restsh.take(i as int),
                decreases rest@.len() - i,
            {
                let ghost prevout = out;
                let item = clone_part(&rest[i]);
                out.push(item);
                proof {
                    lemma_shapes_push(prevout, out@[out@.len() - 1], out, 0);
                    assert(shapes_list(out, 0) =~= seq![psh] + restsh.take(i + 1));
                }
                i = i + 1;
            }
            proof {
                assert(restsh.take(restsh.len() as int) =~= restsh);
            }
            Some(out)
        },
    }
}

} // verus!

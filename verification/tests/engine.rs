use sfce::bits::Bits;
use sfce::board::Board;
use sfce::input::{DropType, Handling, Input, Key};
use sfce::kick::Kickset;
use sfce::pattern::{Part, Pattern, Queue};
use sfce::piece::{Piece, Rotation};
use sfce::placement::Placement;
use sfce::program::{Caches, Options, Program, Sfce};
use sfce::ranged::Ranged;

fn handling() -> Handling {
    Handling {
        kickset: Kickset::srs(),
        use_180: false,
        drop_type: DropType::Soft,
        max: 4,
        das: false,
        finesse: false,
        ignore: false,
    }
}

fn board(s: &str) -> Board {
    Board::parse(s).expect("board string should parse")
}

fn sorted_queues(qs: &[Queue]) -> Vec<String> {
    let mut v: Vec<String> = qs
        .iter()
        .map(|q| {
            q.pieces()
                .iter()
                .map(|p| p.letter())
                .collect::<String>()
        })
        .collect();
    v.sort();
    v
}

#[test]
fn rotation_group_laws() {
    for r in [Rotation::North, Rotation::East, Rotation::South, Rotation::West] {
        assert_eq!(r.ccw().cw(), r);
        assert_eq!(r.cw().ccw(), r);
        assert_eq!(r.flip().flip(), r);
        assert_eq!(r.cw().cw().cw().cw(), r);
    }
}

#[test]
fn board_parse_and_render() {
    let b = board("G3E6G");
    assert_eq!(b.get(0, 0), Piece::G);
    assert_eq!(b.get(3, 0), Piece::E);
    assert_eq!(b.get(9, 0), Piece::G);
    assert_eq!(b.render(), "GGGEEEEEEG");
}

#[test]
fn board_roundtrip_through_text() {
    let b = board("E10|G3E6G|G2T3I4G|G10");
    let s = b.render();
    let again = Board::parse(&s).expect("printed board should parse");
    assert_eq!(again.rows(), b.rows());
}

#[test]
fn board_parse_groups_and_repeats() {
    let b = board("[GE]2G2");
    assert_eq!(b.render(), "GEGEGG");
    assert!(Board::parse("Q").is_none());
    assert!(Board::parse("[GE").is_none());
}

#[test]
fn bit_ops_respect_boolean_algebra() {
    let b = board("G3E6G|E4G6").fast();
    let double = b.not().not();
    assert_eq!(double.bits, b.bits);
    let same = b.and(&b);
    assert_eq!(same.bits, b.bits);
    let ones = b.or(&b.not());
    assert!(ones.bits.iter().all(|&x| x));
}

#[test]
fn shift_left_fills_right_edge_with_ones() {
    let zeros = Board::empty(4, 3, 0).fast();
    let shifted = zeros.shift_left();
    for y in 0..3 {
        for x in 0..4 {
            assert_eq!(shifted.get(x, y), x == 3, "cell ({x},{y})");
        }
    }
}

#[test]
fn possible_placements_of_i_on_empty_board() {
    let b = Board::empty(10, 4, 0);
    let mask = b.fast().possible_placements(Piece::I, Rotation::North);
    // the center is the second cell of the piece, so it can sit at
    // columns one through seven on a ten-wide floor
    for y in 0..4 {
        for x in 0..10 {
            let expected = y == 0 && (1..=7).contains(&x);
            assert_eq!(mask.get(x, y), expected, "cell ({x},{y})");
        }
    }
}

#[test]
fn skim_leaves_no_full_rows() {
    let b = board("G4|G4|GEG2|G4");
    assert_eq!(b.line_clears(), 3);
    let skimmed = b.skim();
    assert_eq!(skimmed.line_clears(), 0);
}

#[test]
fn place_equals_skim_place_without_clears() {
    let b = board("E4|E4|GEG2|GEGE");
    assert_eq!(b.line_clears(), 0);
    let p = Placement::new(Piece::O, 1, 0, Rotation::North);
    let mut direct = b.clone();
    direct.place(p);
    let mut skimmed = b.clone();
    skimmed.skim_place(p);
    assert_eq!(direct.rows(), skimmed.rows());
}

#[test]
fn skim_place_walks_cells_out_of_full_rows() {
    // rows 0, 1 and 3 are full; an O dropped with its center in row 2
    // walks its upper cells past the full third row into the margin
    let mut b = board("G4|GEG2|G4|G4");
    b.set_margin(2);
    b.skim_place(Placement::new(Piece::O, 1, 2, Rotation::North));
    // the bottom half of the O completes the one unfilled row, so the
    // skim removes it too and only the walked upper half remains
    let skimmed = b.skim();
    assert_eq!(skimmed.get(0, 0), Piece::E);
    assert_eq!(skimmed.get(1, 0), Piece::O);
    assert_eq!(skimmed.get(2, 0), Piece::O);
    assert_eq!(skimmed.get(3, 0), Piece::E);
    assert_eq!(skimmed.get(1, 1), Piece::E);
}

#[test]
fn pattern_expansion_of_bag_squared() {
    let pattern = Pattern {
        parts: vec![Part::Count(
            Box::new(Part::Bag(vec![
                Part::Single(Piece::I),
                Part::Single(Piece::J),
            ])),
            2,
        )],
    };
    assert!(pattern.check_counts());
    let queues = pattern.queues();
    assert_eq!(queues.len(), 2);
    // the counted bag draws two distinct entries of the expansion
    let names = sorted_queues(&queues);
    assert_eq!(names, vec!["IJ".to_string(), "JI".to_string()]);
}

#[test]
fn pattern_cross_product_of_singles() {
    let pattern = Pattern {
        parts: vec![
            Part::Bag(vec![Part::Single(Piece::I), Part::Single(Piece::J)]),
            Part::Bag(vec![Part::Single(Piece::I), Part::Single(Piece::J)]),
        ],
    };
    assert!(pattern.check_counts());
    let names = sorted_queues(&pattern.queues());
    assert_eq!(
        names,
        vec![
            "II".to_string(),
            "IJ".to_string(),
            "JI".to_string(),
            "JJ".to_string()
        ]
    );
}

#[test]
fn wildcard_expands_to_seven_pieces() {
    let pattern = Pattern { parts: vec![Part::Wildcard] };
    assert_eq!(pattern.queues().len(), 7);
    let except = Pattern {
        parts: vec![Part::Except(vec![Part::Single(Piece::T), Part::Single(Piece::I)])],
    };
    assert_eq!(except.queues().len(), 5);
}

#[test]
fn hold_queues_contain_all_reorderings_of_ijl() {
    let q = Queue(vec![Piece::I, Piece::J, Piece::L]);
    let hq = q.hold_queues();
    let names = sorted_queues(&hq);
    // playing in order is always possible, and so is every order a
    // single hold slot can produce; the first played piece can only be
    // one of the first two of the queue
    for want in ["IJL", "ILJ", "JIL", "JLI"] {
        assert!(names.contains(&want.to_string()), "missing {want}");
    }
    for name in &names {
        let mut cs: Vec<char> = name.chars().collect();
        cs.sort();
        assert_eq!(cs, vec!['I', 'J', 'L']);
        assert!(!name.starts_with('L'));
    }
}

#[test]
fn translatable_matches_hold_membership() {
    let q = Queue(vec![Piece::I, Piece::J, Piece::L]);
    let hq = q.hold_queues();
    let yes = Queue(vec![Piece::J, Piece::I, Piece::L]);
    let no = Queue(vec![Piece::L, Piece::L, Piece::L]);
    assert!(q.translatable(&yes));
    assert!(!q.translatable(&no));
    assert!(hq
        .iter()
        .any(|h| h.pieces() == yes.pieces()));
    assert!(!hq
        .iter()
        .any(|h| h.pieces() == no.pieces()));
}

#[test]
fn srs_kick_table_lookup() {
    let ks = Kickset::srs();
    let tests = ks.get(Piece::I, Rotation::North, Rotation::East);
    assert_eq!(tests, vec![(0, 0), (-2, 0), (1, 0), (-2, -1), (1, 2)]);
    let jl = ks.get(Piece::T, Rotation::North, Rotation::East);
    assert_eq!(jl, vec![(0, 0), (-1, 0), (-1, 1), (0, -2), (-1, -2)]);
    // a missing transition falls back to the identity test
    assert_eq!(ks.get(Piece::O, Rotation::North, Rotation::East), vec![(0, 0)]);
    assert_eq!(ks.get(Piece::T, Rotation::North, Rotation::South), vec![(0, 0)]);
}

#[test]
fn simulator_moves_and_drops() {
    let mut b = board("E10|E10|E10|E10");
    b.set_margin(2);
    let mut input = Input::new(&b, Piece::T, (4, 3), Rotation::North, handling());
    input.send_keys(&vec![Key::MoveLeft, Key::MoveLeft, Key::SonicDrop]);
    let p = input.placement();
    assert_eq!(p.x(), 2);
    assert_eq!(p.y(), 0);
    assert_eq!(p.rotation(), Rotation::North);
}

#[test]
fn inputs_search_finds_a_shortest_sequence() {
    let mut b = board("TE9");
    b.set_margin(2);
    let target = Placement::new(Piece::T, 1, 0, Rotation::North);
    // strip the locked piece: search on the empty field
    let empty = board("E10");
    let mut field = empty.clone();
    field.set_margin(2);
    let keys = target.finesse(&field, field.spawn(), handling());
    let keys = keys.expect("the placement should be reachable");
    assert!(keys.len() <= 4);
    assert!(target.check_inputs(&field, &keys, field.spawn(), handling()));
    assert!(b.get(0, 0) == Piece::T);
}

#[test]
fn unreachable_placement_reports_none() {
    // a cell fully fenced in cannot be reached within the input budget
    let b = {
        let mut x = board("GEG7|G10|E10");
        x.set_margin(2);
        x
    };
    let target = Placement::new(Piece::I, 2, 0, Rotation::North);
    assert!(target.inputs(&b, b.spawn(), handling()).is_none());
}

#[test]
fn move_boards_finds_line_clear_with_single_i() {
    let opts = Options {
        output: None,
        link_type: None,
        board_width: None,
        board_height: None,
        stopwatch: false,
        handling: handling(),
        board_margin: 2,
        no_cache: true,
        pw: 7,
        no_hold: false,
        no_comments: false,
        page_sep: ";".to_string(),
        row_sep: "|".to_string(),
        raw: false,
    };
    let sfce = Sfce::new(Program { args: opts });
    let mut base = Board::empty(4, 4, 0);
    base.set_margin(2);
    let pattern = Pattern { parts: vec![Part::Single(Piece::I)] };
    let total = Ranged::new(Some(1), None);
    let cont = Ranged::new(None, None);
    let results = sfce.move_boards(&base, &pattern, total, cont);
    assert!(!results.is_empty());
    for b in &results {
        assert!(b.line_clears() >= 1);
    }
}

#[test]
fn move_command_reports_empty_results() {
    let opts = Options {
        output: None,
        link_type: None,
        board_width: None,
        board_height: None,
        stopwatch: false,
        handling: handling(),
        board_margin: 2,
        no_cache: true,
        pw: 7,
        no_hold: true,
        no_comments: false,
        page_sep: ";".to_string(),
        row_sep: "|".to_string(),
        raw: false,
    };
    let mut sfce = Sfce::new(Program { args: opts });
    let mut base = Board::empty(4, 4, 0);
    base.set_margin(2);
    // an O piece can never clear a line on an empty four-wide board
    let pattern = Pattern { parts: vec![Part::Single(Piece::O)] };
    let total = Ranged::new(Some(1), None);
    let cont = Ranged::new(None, None);
    let g = sfce::grid::Grid(vec![base]);
    let found = sfce.move_command(&g, &pattern, total, cont);
    assert!(!found);
    assert_eq!(sfce.buf.as_str(), "no placements found");
}

#[test]
fn feasibility_store_records_outcomes() {
    let opts = Options {
        output: None,
        link_type: None,
        board_width: None,
        board_height: None,
        stopwatch: false,
        handling: handling(),
        board_margin: 2,
        no_cache: true,
        pw: 7,
        no_hold: false,
        no_comments: false,
        page_sep: ";".to_string(),
        row_sep: "|".to_string(),
        raw: false,
    };
    let mut sfce = Sfce::new(Program { args: opts });
    let mut base = Board::empty(10, 4, 0);
    base.set_margin(2);
    let p = Placement::new(Piece::T, 4, 0, Rotation::North);
    assert!(sfce.is_placement_possible(&base, p));
    let key = base.fast();
    assert_eq!(sfce.caches.get_possible(&key, p), Some(true));
    let ks = sfce.finesse(p, &base);
    assert!(ks.is_some());
    assert!(sfce.caches.get_finesse(p, &key).is_some());
    let _ = Caches::new();
}

#[test]
fn congruent_single_confines_cells_to_template() {
    let opts = Options {
        output: None,
        link_type: None,
        board_width: None,
        board_height: None,
        stopwatch: false,
        handling: handling(),
        board_margin: 2,
        no_cache: true,
        pw: 7,
        no_hold: false,
        no_comments: false,
        page_sep: ";".to_string(),
        row_sep: "|".to_string(),
        raw: false,
    };
    let sfce = Sfce::new(Program { args: opts });
    let mut base = Board::empty(10, 4, 0);
    base.set_margin(2);
    // template: the four cells an O fills at the left wall
    let spots = vec![(0usize, 0usize), (1, 0), (0, 1), (1, 1)];
    let found = sfce.congruent_single(&base, &spots, Piece::O);
    assert!(!found.is_empty());
    for p in &found {
        let cells = base.adjusted_piece_offsets(*p).unwrap();
        for c in cells {
            assert!(spots.contains(&c));
        }
    }
}

#[test]
fn codec_roundtrip_modulo_margin() {
    let b = board("G3E6G|T2E8|E10");
    let g = sfce::grid::Grid(vec![b.clone()]);
    let enc = sfce::codec::encode_grid(&g);
    assert!(enc.starts_with("v115@"));
    let dec = fumen::Fumen::decode(&enc).expect("an encoded grid should decode");
    let pages: Vec<sfce::codec::DecodedPage> = dec
        .pages
        .iter()
        .map(|p| sfce::codec::DecodedPage {
            field: p.field.iter().map(|row| row.iter().map(|c| *c as u8).collect()).collect(),
            comment: p.comment.clone(),
        })
        .collect();
    let back = sfce::codec::fumen_to_grid(&pages);
    let first = &back.0[0];
    for y in 0..3 {
        for x in 0..10 {
            let mut want = b.get(x, y);
            if want == Piece::D {
                want = Piece::G;
            }
            assert_eq!(first.get(x, y), want, "cell ({x},{y})");
        }
    }
    // rows above the original height decode as empty margin
    for y in 3..23 {
        for x in 0..10 {
            assert_eq!(first.get(x, y), Piece::E);
        }
    }
}

#[test]
fn possible_pages_tint_mask_cells() {
    let opts = Options {
        output: None,
        link_type: None,
        board_width: None,
        board_height: None,
        stopwatch: false,
        handling: handling(),
        board_margin: 2,
        no_cache: true,
        pw: 7,
        no_hold: false,
        no_comments: false,
        page_sep: ";".to_string(),
        row_sep: "|".to_string(),
        raw: false,
    };
    let sfce = Sfce::new(Program { args: opts });
    let mut base = Board::empty(10, 4, 0);
    base.set_margin(2);
    let pages = sfce.possible_pages(&base, Piece::I);
    assert_eq!(pages.len(), 4);
    // the north page tints exactly the landing cells of the I piece
    assert_eq!(pages[0].get(1, 0), Piece::I);
    assert_eq!(pages[0].get(0, 0), Piece::E);
}

#[test]
fn ranged_bounds() {
    let r = Ranged::new(Some(1), Some(3));
    assert!(!r.contains(0));
    assert!(r.contains(1));
    assert!(r.contains(3));
    assert!(!r.contains(4));
    let open = Ranged::new(None, None);
    assert!(open.contains(0));
    assert!(open.contains(usize::MAX));
}

#[test]
fn bits_cells_and_removed_lines() {
    let b = board("G4|GEG2|G4").fast();
    assert_eq!(b.removed_lines(), vec![0, 2]);
    let filled = b.filled_cells();
    assert!(filled.contains(&(0, 0)));
    assert!(!filled.contains(&(1, 1)));
    let empty = b.empty_cells();
    assert!(empty.contains(&(1, 1)));
    let tinted = Bits { width: 2, height: 1, bits: vec![true, false] }.tint(Piece::T);
    assert_eq!(tinted.get(0, 0), Piece::T);
    assert_eq!(tinted.get(1, 0), Piece::E);
}

#[test]
fn pattern_string_parses() {
    let p = Pattern::parse("[IJ],T").expect("pattern should parse");
    assert!(p.check_counts());
    let names = sorted_queues(&p.queues());
    assert_eq!(names, vec!["IT".to_string(), "JT".to_string()]);
    assert!(Pattern::parse("[").is_none());
    assert!(Pattern::parse("x").is_none());
    let wild = Pattern::parse("*").expect("wildcard should parse");
    assert_eq!(wild.queues().len(), 7);
    // a counted part draws that many distinct entries of its bag
    let counted = Pattern::parse("[IJLS]2").expect("counted bag should parse");
    assert!(counted.check_counts());
    assert_eq!(counted.queues().len(), 12);
    // a count larger than the bag cannot be satisfied
    let over = Pattern::parse("T2").expect("the string itself parses");
    assert!(!over.check_counts());
}

#[test]
fn queues_with_hold_drops_hold_duplicates() {
    let p = Pattern {
        parts: vec![
            Part::Bag(vec![Part::Single(Piece::I), Part::Single(Piece::J)]),
            Part::Bag(vec![Part::Single(Piece::I), Part::Single(Piece::J)]),
        ],
    };
    let all = p.queues();
    let deduped = p.queues_with_hold();
    assert!(deduped.len() < all.len());
    // the first queue always survives
    assert_eq!(deduped[0].pieces(), all[0].pieces());
}

#[test]
fn landing_mask_bits_are_valid_locked() {
    // every set bit of the landing mask names a placement that locks
    // legally on the board once its filled rows are removed
    let b = board("G4E5G|G6E3G|E10");
    let skimmed = b.skim();
    for piece in [Piece::T, Piece::L, Piece::S] {
        let mask = b.fast().possible_placements(piece, Rotation::North);
        for y in 0..3 {
            for x in 0..10 {
                if mask.get(x, y) {
                    let p = Placement::new(piece, x, y, Rotation::North);
                    assert!(
                        skimmed.is_valid_placement(p, false),
                        "{piece:?} at ({x},{y}) should be valid-locked"
                    );
                }
            }
        }
    }
}

#[test]
fn resize_applies_overrides() {
    let opts = Options {
        output: None,
        link_type: None,
        board_width: Some(6),
        board_height: Some(3),
        stopwatch: false,
        handling: handling(),
        board_margin: 1,
        no_cache: true,
        pw: 7,
        no_hold: false,
        no_comments: false,
        page_sep: ";".to_string(),
        row_sep: "|".to_string(),
        raw: false,
    };
    let sfce = Sfce::new(Program { args: opts });
    let mut b = Board::empty(4, 2, 0);
    b.set(1, 1, Piece::T);
    let out = sfce.resize(sfce::grid::Grid(vec![b]));
    assert_eq!(out.0.len(), 1);
    let page = &out.0[0];
    assert_eq!(page.width(), 6);
    assert_eq!(page.height(), 3);
    assert_eq!(page.get(1, 1), Piece::T);
    // widened and heightened cells come in empty
    assert_eq!(page.get(5, 0), Piece::E);
    assert_eq!(page.get(0, 2), Piece::E);
}

#[test]
fn congruent_command_fills_template_exactly() {
    let opts = Options {
        output: None,
        link_type: None,
        board_width: None,
        board_height: None,
        stopwatch: false,
        handling: handling(),
        board_margin: 2,
        no_cache: true,
        pw: 7,
        no_hold: true,
        no_comments: false,
        page_sep: ";".to_string(),
        row_sep: "|".to_string(),
        raw: false,
    };
    let mut sfce = Sfce::new(Program { args: opts });
    let mut b = Board::empty(4, 4, 0);
    b.set_margin(2);
    // template: an O-colored square at the left wall
    b.set(0, 0, Piece::O);
    b.set(1, 0, Piece::O);
    b.set(0, 1, Piece::O);
    b.set(1, 1, Piece::O);
    let pattern = Pattern { parts: vec![Part::Single(Piece::O)] };
    let g = sfce::grid::Grid(vec![b]);
    let pages = sfce.congruent_command(&g, &pattern, Piece::O);
    assert!(!pages.is_empty());
    for page in &pages {
        assert_eq!(page.get(0, 0), Piece::O);
        assert_eq!(page.get(1, 0), Piece::O);
        assert_eq!(page.get(0, 1), Piece::O);
        assert_eq!(page.get(1, 1), Piece::O);
        assert_eq!(page.get(2, 0), Piece::E);
        assert_eq!(page.get(3, 1), Piece::E);
    }
}

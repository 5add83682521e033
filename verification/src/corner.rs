use crate::common::{draws_below, drawn_sum, Corner, CornerPiece, CubeFace, Move};
use crate::index::{
    arranged, bubbled, digit_at, factoradic_digits, index_rest, lemma_small_factorials,
    permutation_index, permutation_rank, positional_index, positional_value, power, swapped,
};
use vstd::prelude::*;

verus! {

/// Position from which a clockwise quarter turn of `face` brings the corner that ends at `pos`.
#[verifier::opaque]
pub open spec fn quarter_corner_source(face: CubeFace, pos: int) -> int {
    match face {
        CubeFace::Top => if pos == 0 {
            3
        } else if pos == 1 {
            0
        } else if pos == 2 {
            1
        } else if pos == 3 {
            2
        } else {
            pos
        },
        CubeFace::Front => if pos == 0 {
            1
        } else if pos == 1 {
            5
        } else if pos == 4 {
            0
        } else if pos == 5 {
            4
        } else {
            pos
        },
        CubeFace::Right => if pos == 0 {
            4
        } else if pos == 3 {
            0
        } else if pos == 4 {
            7
        } else if pos == 7 {
            3
        } else {
            pos
        },
        CubeFace::Back => if pos == 2 {
            3
        } else if pos == 3 {
            7
        } else if pos == 6 {
            2
        } else if pos == 7 {
            6
        } else {
            pos
        },
        CubeFace::Left => if pos == 1 {
            2
        } else if pos == 2 {
            6
        } else if pos == 5 {
            1
        } else if pos == 6 {
            5
        } else {
            pos
        },
        CubeFace::Bottom => if pos == 4 {
            5
        } else if pos == 5 {
            6
        } else if pos == 6 {
            7
        } else if pos == 7 {
            4
        } else {
            pos
        },
    }
}

/// Twist that a clockwise quarter turn of `face` adds to the corner that ends at `pos`.
#[verifier::opaque]
pub open spec fn quarter_corner_twist(face: CubeFace, pos: int) -> int {
    match face {
        CubeFace::Top => 0,
        CubeFace::Front => if pos == 0 {
            1
        } else if pos == 1 {
            2
        } else if pos == 4 {
            2
        } else if pos == 5 {
            1
        } else {
            0
        },
        CubeFace::Right => if pos == 0 {
            2
        } else if pos == 3 {
            1
        } else if pos == 4 {
            1
        } else if pos == 7 {
            2
        } else {
            0
        },
        CubeFace::Back => if pos == 2 {
            1
        } else if pos == 3 {
            2
        } else if pos == 6 {
            2
        } else if pos == 7 {
            1
        } else {
            0
        },
        CubeFace::Left => if pos == 1 {
            1
        } else if pos == 2 {
            2
        } else if pos == 5 {
            2
        } else if pos == 6 {
            1
        } else {
            0
        },
        CubeFace::Bottom => 0,
    }
}

/// The four corner positions around `face`, in the order in which a clockwise
/// quarter turn hands the pieces on.
#[verifier::opaque]
pub open spec fn face_corner(face: CubeFace, slot: int) -> int {
    match face {
        CubeFace::Top => if slot == 0 {
            0
        } else if slot == 1 {
            1
        } else if slot == 2 {
            2
        } else {
            3
        },
        CubeFace::Front => if slot == 0 {
            0
        } else if slot == 1 {
            4
        } else if slot == 2 {
            5
        } else {
            1
        },
        CubeFace::Right => if slot == 0 {
            0
        } else if slot == 1 {
            3
        } else if slot == 2 {
            7
        } else {
            4
        },
        CubeFace::Back => if slot == 0 {
            2
        } else if slot == 1 {
            6
        } else if slot == 2 {
            7
        } else {
            3
        },
        CubeFace::Left => if slot == 0 {
            1
        } else if slot == 1 {
            5
        } else if slot == 2 {
            6
        } else {
            2
        },
        CubeFace::Bottom => if slot == 0 {
            4
        } else if slot == 1 {
            7
        } else if slot == 2 {
            6
        } else {
            5
        },
    }
}

/// The four corner positions away from `face`, in ascending order.
#[verifier::opaque]
pub open spec fn far_corner(face: CubeFace, slot: int) -> int {
    match face {
        CubeFace::Top => 4 + slot,
        CubeFace::Front => if slot == 0 {
            2
        } else if slot == 1 {
            3
        } else if slot == 2 {
            6
        } else {
            7
        },
        CubeFace::Right => if slot == 0 {
            1
        } else if slot == 1 {
            2
        } else if slot == 2 {
            5
        } else {
            6
        },
        CubeFace::Back => if slot == 0 {
            0
        } else if slot == 1 {
            1
        } else if slot == 2 {
            4
        } else {
            5
        },
        CubeFace::Left => if slot == 0 {
            0
        } else if slot == 1 {
            3
        } else if slot == 2 {
            4
        } else {
            7
        },
        CubeFace::Bottom => slot,
    }
}

/// Whether `pos` is one of the four corner positions around `face`.
pub open spec fn corner_on_face(face: CubeFace, pos: int) -> bool {
    pos == face_corner(face, 0) || pos == face_corner(face, 1) || pos == face_corner(face, 2)
        || pos == face_corner(face, 3)
}

/// The corners after one clockwise quarter turn of `face`.
pub open spec fn corners_quarter_turned(cs: Seq<CornerPiece>, face: CubeFace) -> Seq<CornerPiece> {
    Seq::new(
        8,
        |pos: int|
            if corner_on_face(face, pos) {
                CornerPiece {
                    piece: cs[quarter_corner_source(face, pos)].piece,
                    orientation: ((cs[quarter_corner_source(face, pos)].orientation
                        + quarter_corner_twist(face, pos)) % 3) as u8,
                }
            } else {
                cs[pos]
            },
    )
}

/// The corners after `quarters` clockwise quarter turns of `face`.
pub open spec fn corners_turned(cs: Seq<CornerPiece>, face: CubeFace, quarters: nat) -> Seq<
    CornerPiece,
>
    decreases quarters,
{
    if quarters == 0 {
        cs
    } else {
        corners_quarter_turned(corners_turned(cs, face, (quarters - 1) as nat), face)
    }
}

/// The corners after a move.
pub open spec fn corners_moved(cs: Seq<CornerPiece>, mv: Move) -> Seq<CornerPiece> {
    corners_turned(cs, mv.spec_face(), mv.quarter_turns())
}

/// The corners after a sequence of moves, applied from the first to the last.
pub open spec fn corners_after(cs: Seq<CornerPiece>, moves: Seq<Move>) -> Seq<CornerPiece>
    decreases moves.len(),
{
    if moves.len() == 0 {
        cs
    } else {
        corners_moved(corners_after(cs, moves.drop_last()), moves.last())
    }
}

/// Position from which a move brings the corner that ends at `pos`.
pub open spec fn move_corner_source(mv: Move, pos: int) -> int {
    let face = mv.spec_face();
    let once = quarter_corner_source(face, pos);
    if mv.quarter_turns() == 1 {
        once
    } else if mv.quarter_turns() == 2 {
        quarter_corner_source(face, once)
    } else {
        quarter_corner_source(face, quarter_corner_source(face, once))
    }
}

/// Twist, modulo 3, that a move adds to the corner that ends at `pos`.
pub open spec fn move_corner_twist(mv: Move, pos: int) -> int {
    let face = mv.spec_face();
    let once = quarter_corner_source(face, pos);
    let twice = quarter_corner_source(face, once);
    if mv.quarter_turns() == 1 {
        quarter_corner_twist(face, pos)
    } else if mv.quarter_turns() == 2 {
        (quarter_corner_twist(face, pos) + quarter_corner_twist(face, once)) % 3
    } else {
        (quarter_corner_twist(face, pos) + quarter_corner_twist(face, once) + quarter_corner_twist(
            face,
            twice,
        )) % 3
    }
}

/// The solved arrangement: every corner at home and untwisted.
pub open spec fn solved_corners() -> Seq<CornerPiece> {
    Seq::new(8, |i: int| CornerPiece { piece: Corner::at(i), orientation: 0 })
}

/// Eight corners, each with a twist below 3.
pub open spec fn corners_wf(cs: Seq<CornerPiece>) -> bool {
    &&& cs.len() == 8
    &&& forall|i: int| 0 <= i < 8 ==> (#[trigger] cs[i]).orientation < 3
}

/// Sum of the twists of all corners.
pub open spec fn corner_twist_sum(cs: Seq<CornerPiece>) -> int {
    cs[0].orientation + cs[1].orientation + cs[2].orientation + cs[3].orientation
        + cs[4].orientation + cs[5].orientation + cs[6].orientation + cs[7].orientation
}

/// Whether position `i` holds the corner `c`.
pub open spec fn holds_corner(cs: Seq<CornerPiece>, i: int, c: Corner) -> bool {
    0 <= i < 8 && cs[i].piece == c
}

/// Whether some position holds the corner `c`.
pub open spec fn corner_present(cs: Seq<CornerPiece>, c: Corner) -> bool {
    exists|i: int| #[trigger] holds_corner(cs, i, c)
}

/// No corner occupies two positions and every corner occupies one.
pub open spec fn corners_bijective(cs: Seq<CornerPiece>) -> bool {
    &&& forall|i: int, j: int| 0 <= i < j < 8 ==> (#[trigger] cs[i]).piece != (#[trigger] cs[j]).piece
    &&& forall|c: Corner| #[trigger] corner_present(cs, c)
}

/// What holds of the corners of every state that legal moves reach from the solved one.
pub open spec fn corners_valid(cs: Seq<CornerPiece>) -> bool {
    &&& corners_wf(cs)
    &&& corner_twist_sum(cs) % 3 == 0
    &&& corners_bijective(cs)
}

/// One row of the move table: the corner at `source` goes to `dest` and gains `twist`.
#[derive(Clone, Copy, Debug)]
pub struct CornerTurn {
    pub dest: usize,
    pub source: usize,
    pub twist: u8,
}

/// The move table for corners: row `slot` of the four rows of `mv`.
pub fn corner_turn(mv: Move, slot: usize) -> (r: CornerTurn)
    requires
        slot < 4,
    ensures
        r.dest == face_corner(mv.spec_face(), slot as int),
        r.source == move_corner_source(mv, r.dest as int),
        r.twist == move_corner_twist(mv, r.dest as int),
        r.dest < 8,
        r.source < 8,
        r.twist < 3,
{
    proof {
        reveal(quarter_corner_source);
        reveal(quarter_corner_twist);
        reveal(face_corner);
    }
    match mv {
        Move::U => match slot {
            0 => CornerTurn { dest: 0, source: 3, twist: 0 },
            1 => CornerTurn { dest: 1, source: 0, twist: 0 },
            2 => CornerTurn { dest: 2, source: 1, twist: 0 },
            _ => CornerTurn { dest: 3, source: 2, twist: 0 },
        },
        Move::Up => match slot {
            0 => CornerTurn { dest: 0, source: 1, twist: 0 },
            1 => CornerTurn { dest: 1, source: 2, twist: 0 },
            2 => CornerTurn { dest: 2, source: 3, twist: 0 },
            _ => CornerTurn { dest: 3, source: 0, twist: 0 },
        },
        Move::U2 => match slot {
            0 => CornerTurn { dest: 0, source: 2, twist: 0 },
            1 => CornerTurn { dest: 1, source: 3, twist: 0 },
            2 => CornerTurn { dest: 2, source: 0, twist: 0 },
            _ => CornerTurn { dest: 3, source: 1, twist: 0 },
        },
        Move::F => match slot {
            0 => CornerTurn { dest: 0, source: 1, twist: 1 },
            1 => CornerTurn { dest: 4, source: 0, twist: 2 },
            2 => CornerTurn { dest: 5, source: 4, twist: 1 },
            _ => CornerTurn { dest: 1, source: 5, twist: 2 },
        },
        Move::Fp => match slot {
            0 => CornerTurn { dest: 0, source: 4, twist: 1 },
            1 => CornerTurn { dest: 4, source: 5, twist: 2 },
            2 => CornerTurn { dest: 5, source: 1, twist: 1 },
            _ => CornerTurn { dest: 1, source: 0, twist: 2 },
        },
        Move::F2 => match slot {
            0 => CornerTurn { dest: 0, source: 5, twist: 0 },
            1 => CornerTurn { dest: 4, source: 1, twist: 0 },
            2 => CornerTurn { dest: 5, source: 0, twist: 0 },
            _ => CornerTurn { dest: 1, source: 4, twist: 0 },
        },
        Move::R => match slot {
            0 => CornerTurn { dest: 0, source: 4, twist: 2 },
            1 => CornerTurn { dest: 3, source: 0, twist: 1 },
            2 => CornerTurn { dest: 7, source: 3, twist: 2 },
            _ => CornerTurn { dest: 4, source: 7, twist: 1 },
        },
        Move::Rp => match slot {
            0 => CornerTurn { dest: 0, source: 3, twist: 2 },
            1 => CornerTurn { dest: 3, source: 7, twist: 1 },
            2 => CornerTurn { dest: 7, source: 4, twist: 2 },
            _ => CornerTurn { dest: 4, source: 0, twist: 1 },
        },
        Move::R2 => match slot {
            0 => CornerTurn { dest: 0, source: 7, twist: 0 },
            1 => CornerTurn { dest: 3, source: 4, twist: 0 },
            2 => CornerTurn { dest: 7, source: 0, twist: 0 },
            _ => CornerTurn { dest: 4, source: 3, twist: 0 },
        },
        Move::B => match slot {
            0 => CornerTurn { dest: 2, source: 3, twist: 1 },
            1 => CornerTurn { dest: 6, source: 2, twist: 2 },
            2 => CornerTurn { dest: 7, source: 6, twist: 1 },
            _ => CornerTurn { dest: 3, source: 7, twist: 2 },
        },
        Move::Bp => match slot {
            0 => CornerTurn { dest: 2, source: 6, twist: 1 },
            1 => CornerTurn { dest: 6, source: 7, twist: 2 },
            2 => CornerTurn { dest: 7, source: 3, twist: 1 },
            _ => CornerTurn { dest: 3, source: 2, twist: 2 },
        },
        Move::B2 => match slot {
            0 => CornerTurn { dest: 2, source: 7, twist: 0 },
            1 => CornerTurn { dest: 6, source: 3, twist: 0 },
            2 => CornerTurn { dest: 7, source: 2, twist: 0 },
            _ => CornerTurn { dest: 3, source: 6, twist: 0 },
        },
        Move::L => match slot {
            0 => CornerTurn { dest: 1, source: 2, twist: 1 },
            1 => CornerTurn { dest: 5, source: 1, twist: 2 },
            2 => CornerTurn { dest: 6, source: 5, twist: 1 },
            _ => CornerTurn { dest: 2, source: 6, twist: 2 },
        },
        Move::Lp => match slot {
            0 => CornerTurn { dest: 1, source: 5, twist: 1 },
            1 => CornerTurn { dest: 5, source: 6, twist: 2 },
            2 => CornerTurn { dest: 6, source: 2, twist: 1 },
            _ => CornerTurn { dest: 2, source: 1, twist: 2 },
        },
        Move::L2 => match slot {
            0 => CornerTurn { dest: 1, source: 6, twist: 0 },
            1 => CornerTurn { dest: 5, source: 2, twist: 0 },
            2 => CornerTurn { dest: 6, source: 1, twist: 0 },
            _ => CornerTurn { dest: 2, source: 5, twist: 0 },
        },
        Move::D => match slot {
            0 => CornerTurn { dest: 4, source: 5, twist: 0 },
            1 => CornerTurn { dest: 7, source: 4, twist: 0 },
            2 => CornerTurn { dest: 6, source: 7, twist: 0 },
            _ => CornerTurn { dest: 5, source: 6, twist: 0 },
        },
        Move::Dp => match slot {
            0 => CornerTurn { dest: 4, source: 7, twist: 0 },
            1 => CornerTurn { dest: 7, source: 6, twist: 0 },
            2 => CornerTurn { dest: 6, source: 5, twist: 0 },
            _ => CornerTurn { dest: 5, source: 4, twist: 0 },
        },
        Move::D2 => match slot {
            0 => CornerTurn { dest: 4, source: 6, twist: 0 },
            1 => CornerTurn { dest: 7, source: 5, twist: 0 },
            2 => CornerTurn { dest: 6, source: 4, twist: 0 },
            _ => CornerTurn { dest: 5, source: 7, twist: 0 },
        },
    }
}

/// Turning no times changes nothing, and one more turn is a quarter turn of the result.
pub proof fn lemma_corners_turned_unfold(cs: Seq<CornerPiece>, face: CubeFace, quarters: nat)
    ensures
        corners_turned(cs, face, 0) == cs,
        corners_turned(cs, face, quarters + 1) == corners_quarter_turned(
            corners_turned(cs, face, quarters),
            face,
        ),
{
    reveal_with_fuel(corners_turned, 2);
}

/// A quarter turn carries corners of the turned face to corners of the turned face.
pub proof fn lemma_corner_source_on_face(face: CubeFace, pos: int)
    requires
        0 <= pos < 8,
    ensures
        0 <= quarter_corner_source(face, pos) < 8,
        0 <= quarter_corner_twist(face, pos) < 3,
        corner_on_face(face, pos) ==> corner_on_face(face, quarter_corner_source(face, pos)),
        !corner_on_face(face, pos) ==> quarter_corner_source(face, pos) == pos && quarter_corner_twist(
            face,
            pos,
        ) == 0,
{
    reveal(quarter_corner_source);
    reveal(quarter_corner_twist);
    reveal(face_corner);
}

/// Twists add up modulo 3.
pub proof fn lemma_twist_twice(o: int, s: int, t: int)
    requires
        0 <= o,
        0 <= s,
        0 <= t,
    ensures
        ((o + s) % 3 + t) % 3 == (o + (s + t) % 3) % 3,
        ((o + s) % 3 + t) % 3 == (o + s + t) % 3,
{
}

/// The corner that a move leaves at `pos`, read off the composed table.
pub proof fn lemma_corner_after_move(cs: Seq<CornerPiece>, mv: Move, pos: int)
    requires
        cs.len() == 8,
        0 <= pos < 8,
    ensures
        corners_moved(cs, mv).len() == 8,
        0 <= move_corner_source(mv, pos) < 8,
        0 <= move_corner_twist(mv, pos) < 3,
        corner_on_face(mv.spec_face(), pos) ==> corners_moved(cs, mv)[pos] == (CornerPiece {
            piece: cs[move_corner_source(mv, pos)].piece,
            orientation: ((cs[move_corner_source(mv, pos)].orientation + move_corner_twist(
                mv,
                pos,
            )) % 3) as u8,
        }),
        !corner_on_face(mv.spec_face(), pos) ==> corners_moved(cs, mv)[pos] == cs[pos],
{
    let face = mv.spec_face();
    let a = corners_turned(cs, face, 1);
    let b = corners_turned(cs, face, 2);
    let c = corners_turned(cs, face, 3);
    let once = quarter_corner_source(face, pos);
    let twice = quarter_corner_source(face, once);
    let thrice = quarter_corner_source(face, twice);
    let t0 = quarter_corner_twist(face, pos);
    let t1 = quarter_corner_twist(face, once);
    let t2 = quarter_corner_twist(face, twice);
    lemma_corners_turned_unfold(cs, face, 0);
    lemma_corners_turned_unfold(cs, face, 1);
    lemma_corners_turned_unfold(cs, face, 2);
    lemma_corner_source_on_face(face, pos);
    lemma_corner_source_on_face(face, once);
    lemma_corner_source_on_face(face, twice);
    assert(a.len() == 8 && b.len() == 8 && c.len() == 8);
    if corner_on_face(face, pos) {
        assert(a[pos].piece == cs[once].piece);
        assert(a[pos].orientation == (cs[once].orientation + t0) % 3);
        assert(a[once].piece == cs[twice].piece);
        assert(a[once].orientation == (cs[twice].orientation + t1) % 3);
        assert(a[twice].piece == cs[thrice].piece);
        assert(a[twice].orientation == (cs[thrice].orientation + t2) % 3);
        assert(b[pos].piece == a[once].piece);
        assert(b[pos].orientation == (a[once].orientation + t0) % 3);
        assert(b[once].piece == a[twice].piece);
        assert(b[once].orientation == (a[twice].orientation + t1) % 3);
        assert(c[pos].piece == b[once].piece);
        assert(c[pos].orientation == (b[once].orientation + t0) % 3);
        lemma_twist_twice(cs[twice].orientation as int, t1, t0);
        lemma_twist_twice(cs[thrice].orientation as int, t2, t1);
        lemma_twist_twice(cs[thrice].orientation as int + t2, t1, t0);
        lemma_twist_twice(cs[thrice].orientation as int, t2 + t1, t0);
        lemma_twist_twice(cs[thrice].orientation as int, (t0 + t1 + t2) % 3, 0);
        lemma_twist_twice(cs[thrice].orientation as int, t0 + t1 + t2, 0);
    } else {
        assert(a[pos] == cs[pos]);
        assert(b[pos] == a[pos]);
        assert(c[pos] == b[pos]);
    }
}

/// Applies a move to an array of corners.
pub fn turn_corners(corners: &mut [CornerPiece; 8], mv: Move)
    ensures
        final(corners)@ == corners_moved(old(corners)@, mv),
{
    let before = *corners;
    let ghost face = mv.spec_face();
    let ghost after = corners_moved(before@, mv);
    let ghost f0 = face_corner(face, 0);
    let ghost f1 = face_corner(face, 1);
    let ghost f2 = face_corner(face, 2);
    let ghost f3 = face_corner(face, 3);
    proof {
        lemma_face_corners(face);
        assert(0 <= f0 < 8 && 0 <= f1 < 8 && 0 <= f2 < 8 && 0 <= f3 < 8);
        assert(f0 != f1 && f0 != f2 && f0 != f3 && f1 != f2 && f1 != f3 && f2 != f3);
    }
    let mut slot: usize = 0;
    while slot < 4
        invariant
            slot <= 4,
            face == mv.spec_face(),
            after == corners_moved(before@, mv),
            f0 == face_corner(face, 0),
            f1 == face_corner(face, 1),
            f2 == face_corner(face, 2),
            f3 == face_corner(face, 3),
            0 <= f0 < 8 && 0 <= f1 < 8 && 0 <= f2 < 8 && 0 <= f3 < 8,
            f0 != f1 && f0 != f2 && f0 != f3 && f1 != f2 && f1 != f3 && f2 != f3,
            forall|p: int|
                0 <= p < 8 && p != f0 && p != f1 && p != f2 && p != f3 ==> corners@[p]
                    == before@[p],
            slot > 0 ==> corners@[f0] == after[f0],
            slot > 1 ==> corners@[f1] == after[f1],
            slot > 2 ==> corners@[f2] == after[f2],
            slot > 3 ==> corners@[f3] == after[f3],
        decreases 4 - slot,
    {
        let turn = corner_turn(mv, slot);
        let from = before[turn.source];
        proof {
            lemma_corner_after_move(before@, mv, turn.dest as int);
            lemma_twist_twice(0, from.orientation as int, turn.twist as int);
        }
        corners[turn.dest] = CornerPiece {
            piece: from.piece,
            orientation: (from.orientation % 3 + turn.twist) % 3,
        };
        slot += 1;
    }
    proof {
        assert forall|p: int| 0 <= p < 8 implies corners@[p] == after[p] by {
            lemma_corner_after_move(before@, mv, p);
        }
        assert(corners@ =~= after);
    }
}

/// Four quarter turns bring every position back to itself, and the twists met on
/// the way add up to a multiple of 3.
pub proof fn lemma_corner_quarter_cycle(face: CubeFace, pos: int)
    requires
        0 <= pos < 8,
    ensures
        quarter_corner_source(
            face,
            quarter_corner_source(face, quarter_corner_source(face, quarter_corner_source(face, pos))),
        ) == pos,
        (quarter_corner_twist(face, pos) + quarter_corner_twist(
            face,
            quarter_corner_source(face, pos),
        ) + quarter_corner_twist(face, quarter_corner_source(face, quarter_corner_source(face, pos)))
            + quarter_corner_twist(
            face,
            quarter_corner_source(face, quarter_corner_source(face, quarter_corner_source(face, pos))),
        )) % 3 == 0,
{
    reveal(quarter_corner_source);
    reveal(quarter_corner_twist);
}

/// The positions around a face and away from it are the eight positions, each once,
/// and a clockwise quarter turn hands each corner of the face to the next slot.
pub proof fn lemma_face_corners(face: CubeFace)
    ensures
        forall|s: int| 0 <= s < 4 ==> 0 <= #[trigger] face_corner(face, s) < 8,
        forall|s: int, t: int|
            0 <= s < t < 4 ==> #[trigger] face_corner(face, s) != #[trigger] face_corner(face, t),
        forall|s: int| 0 <= s < 4 ==> 0 <= #[trigger] far_corner(face, s) < 8,
        forall|s: int| 0 <= s < 4 ==> !corner_on_face(face, #[trigger] far_corner(face, s)),
        forall|s: int|
            0 <= s < 4 ==> quarter_corner_source(face, #[trigger] face_corner(face, s))
                == face_corner(face, (s + 3) % 4),
        (quarter_corner_twist(face, face_corner(face, 0)) + quarter_corner_twist(
            face,
            face_corner(face, 1),
        ) + quarter_corner_twist(face, face_corner(face, 2)) + quarter_corner_twist(
            face,
            face_corner(face, 3),
        )) % 3 == 0,
        forall|cs: Seq<CornerPiece>| #[trigger]
            corner_twist_sum(cs) == cs[face_corner(face, 0)].orientation + cs[face_corner(
                face,
                1,
            )].orientation + cs[face_corner(face, 2)].orientation + cs[face_corner(
                face,
                3,
            )].orientation + cs[far_corner(face, 0)].orientation + cs[far_corner(
                face,
                1,
            )].orientation + cs[far_corner(face, 2)].orientation + cs[far_corner(
                face,
                3,
            )].orientation,
{
    reveal(quarter_corner_source);
    reveal(quarter_corner_twist);
    reveal(face_corner);
    reveal(far_corner);
}

/// A quarter turn keeps eight corners with twists below 3.
pub proof fn lemma_corners_quarter_turn_wf(cs: Seq<CornerPiece>, face: CubeFace)
    requires
        corners_wf(cs),
    ensures
        corners_wf(corners_quarter_turned(cs, face)),
{
    let after = corners_quarter_turned(cs, face);
    assert forall|i: int| 0 <= i < 8 implies (#[trigger] after[i]).orientation < 3 by {
        lemma_corner_source_on_face(face, i);
    }
}

/// Any number of quarter turns keeps eight corners with twists below 3.
pub proof fn lemma_corners_turned_wf(cs: Seq<CornerPiece>, face: CubeFace, quarters: nat)
    requires
        corners_wf(cs),
    ensures
        corners_wf(corners_turned(cs, face, quarters)),
    decreases quarters,
{
    if quarters > 0 {
        lemma_corners_turned_wf(cs, face, (quarters - 1) as nat);
        lemma_corners_turned_unfold(cs, face, (quarters - 1) as nat);
        lemma_corners_quarter_turn_wf(corners_turned(cs, face, (quarters - 1) as nat), face);
    }
}

/// Adding a multiple of 3 to a twist below 3 and reducing gives the twist back.
proof fn lemma_twist_full_circle(o: int, t: int)
    requires
        0 <= o < 3,
        0 <= t,
        t % 3 == 0,
    ensures
        (o + t) % 3 == o,
{
}

/// The corner that a clockwise quarter turn leaves at `pos`.
pub proof fn lemma_corner_quarter_turned_at(cs: Seq<CornerPiece>, face: CubeFace, pos: int)
    requires
        cs.len() == 8,
        0 <= pos < 8,
    ensures
        corners_quarter_turned(cs, face).len() == 8,
        corner_on_face(face, pos) ==> corners_quarter_turned(cs, face)[pos].piece
            == cs[quarter_corner_source(face, pos)].piece,
        corner_on_face(face, pos) ==> corners_quarter_turned(cs, face)[pos].orientation == (
        cs[quarter_corner_source(face, pos)].orientation + quarter_corner_twist(face, pos)) % 3,
        !corner_on_face(face, pos) ==> corners_quarter_turned(cs, face)[pos] == cs[pos],
{
    lemma_corner_source_on_face(face, pos);
}

/// Four clockwise quarter turns of one face restore the corner at `pos`.
proof fn lemma_corner_four_quarter_turns_at(cs: Seq<CornerPiece>, face: CubeFace, pos: int)
    requires
        corners_wf(cs),
        0 <= pos < 8,
    ensures
        corners_turned(cs, face, 4).len() == 8,
        corners_turned(cs, face, 4)[pos] == cs[pos],
{
    let a = corners_turned(cs, face, 1);
    let b = corners_turned(cs, face, 2);
    let c = corners_turned(cs, face, 3);
    let d = corners_turned(cs, face, 4);
    lemma_corners_turned_unfold(cs, face, 0);
    lemma_corners_turned_unfold(cs, face, 1);
    lemma_corners_turned_unfold(cs, face, 2);
    lemma_corners_turned_unfold(cs, face, 3);
    let p1 = quarter_corner_source(face, pos);
    let p2 = quarter_corner_source(face, p1);
    let p3 = quarter_corner_source(face, p2);
    let t0 = quarter_corner_twist(face, pos);
    let t1 = quarter_corner_twist(face, p1);
    let t2 = quarter_corner_twist(face, p2);
    let t3 = quarter_corner_twist(face, p3);
    lemma_corner_source_on_face(face, pos);
    lemma_corner_source_on_face(face, p1);
    lemma_corner_source_on_face(face, p2);
    lemma_corner_source_on_face(face, p3);
    lemma_corner_quarter_cycle(face, pos);
    lemma_corner_quarter_turned_at(cs, face, p3);
    lemma_corner_quarter_turned_at(a, face, p2);
    lemma_corner_quarter_turned_at(b, face, p1);
    lemma_corner_quarter_turned_at(c, face, pos);
    if corner_on_face(face, pos) {
        let o = cs[pos].orientation as int;
        assert(a[p3].orientation == (o + t3) % 3);
        assert(b[p2].orientation == (a[p3].orientation + t2) % 3);
        assert(c[p1].orientation == (b[p2].orientation + t1) % 3);
        assert(d[pos].orientation == (c[p1].orientation + t0) % 3);
        lemma_twist_twice(o, t3, t2);
        lemma_twist_twice(o + t3, t2, t1);
        lemma_twist_twice(o + t3 + t2, t1, t0);
        lemma_twist_full_circle(o, t3 + t2 + t1 + t0);
        assert(d[pos].orientation == cs[pos].orientation);
        assert(d[pos].piece == cs[pos].piece);
    }
}

/// Four clockwise quarter turns of one face restore the corners.
pub proof fn lemma_corners_four_quarter_turns(cs: Seq<CornerPiece>, face: CubeFace)
    requires
        corners_wf(cs),
    ensures
        corners_turned(cs, face, 4) == cs,
{
    let d = corners_turned(cs, face, 4);
    assert forall|pos: int| 0 <= pos < 8 implies d[pos] == cs[pos] by {
        lemma_corner_four_quarter_turns_at(cs, face, pos);
    }
    lemma_corner_four_quarter_turns_at(cs, face, 0);
    assert(d =~= cs);
}

/// Turning `a` times and then `b` times is turning `a + b` times.
pub proof fn lemma_corners_turned_add(cs: Seq<CornerPiece>, face: CubeFace, a: nat, b: nat)
    ensures
        corners_turned(corners_turned(cs, face, a), face, b) == corners_turned(cs, face, a + b),
    decreases b,
{
    if b == 0 {
        lemma_corners_turned_unfold(corners_turned(cs, face, a), face, 0);
    } else {
        lemma_corners_turned_add(cs, face, a, (b - 1) as nat);
        lemma_corners_turned_unfold(corners_turned(cs, face, a), face, (b - 1) as nat);
        lemma_corners_turned_unfold(cs, face, (a + b - 1) as nat);
    }
}

/// A move followed by its inverse restores the corners.
pub proof fn lemma_corners_move_inverse(cs: Seq<CornerPiece>, mv: Move)
    requires
        corners_wf(cs),
    ensures
        corners_moved(corners_moved(cs, mv), mv.spec_inverse()) == cs,
{
    lemma_corners_turned_add(cs, mv.spec_face(), mv.quarter_turns(), mv.spec_inverse().quarter_turns());
    lemma_corners_four_quarter_turns(cs, mv.spec_face());
}

/// A quarter turn keeps what holds of the corners of every reachable state.
pub proof fn lemma_corners_quarter_turn_valid(cs: Seq<CornerPiece>, face: CubeFace)
    requires
        corners_valid(cs),
    ensures
        corners_valid(corners_quarter_turned(cs, face)),
{
    let after = corners_quarter_turned(cs, face);
    lemma_corners_quarter_turn_wf(cs, face);
    assert forall|i: int| 0 <= i < 8 implies 0 <= quarter_corner_source(face, i) < 8 && (corner_on_face(
        face,
        i,
    ) ==> (#[trigger] after[i]).orientation == (cs[quarter_corner_source(face, i)].orientation
        + quarter_corner_twist(face, i)) % 3) && (!corner_on_face(face, i) ==> after[i] == cs[i]) by {
        lemma_corner_source_on_face(face, i);
    }
    assert(corner_twist_sum(after) % 3 == 0) by {
        lemma_twist_sum_turned(cs, after, face);
    }
    assert forall|i: int, j: int| 0 <= i < j < 8 implies (#[trigger] after[i]).piece != (
    #[trigger] after[j]).piece by {
        lemma_corner_source_on_face(face, i);
        lemma_corner_source_on_face(face, j);
        let si = quarter_corner_source(face, i);
        let sj = quarter_corner_source(face, j);
        lemma_corner_quarter_cycle(face, i);
        lemma_corner_quarter_cycle(face, j);
        assert(si != sj);
        assert(after[i].piece == cs[si].piece);
        assert(after[j].piece == cs[sj].piece);
        if si < sj {
            assert(cs[si].piece != cs[sj].piece);
        } else {
            assert(cs[sj].piece != cs[si].piece);
        }
    }
    assert forall|c: Corner| #[trigger] corner_present(after, c) by {
        assert(corner_present(cs, c));
        let i = choose|i: int| holds_corner(cs, i, c);
        let p1 = quarter_corner_source(face, i);
        let p2 = quarter_corner_source(face, p1);
        let p3 = quarter_corner_source(face, p2);
        lemma_corner_source_on_face(face, i);
        lemma_corner_source_on_face(face, p1);
        lemma_corner_source_on_face(face, p2);
        lemma_corner_source_on_face(face, p3);
        lemma_corner_quarter_cycle(face, i);
        assert(after[p3].piece == cs[i].piece);
        assert(holds_corner(after, p3, c));
    }
}

/// Four twists that add up to a multiple of 3 leave a sum's remainder as it was.
proof fn lemma_sum_of_twisted(
    x0: int,
    x1: int,
    x2: int,
    x3: int,
    t0: int,
    t1: int,
    t2: int,
    t3: int,
    rest: int,
)
    requires
        x0 >= 0 && x1 >= 0 && x2 >= 0 && x3 >= 0 && rest >= 0,
        t0 >= 0 && t1 >= 0 && t2 >= 0 && t3 >= 0,
        (t0 + t1 + t2 + t3) % 3 == 0,
    ensures
        ((x0 + t0) % 3 + (x1 + t1) % 3 + (x2 + t2) % 3 + (x3 + t3) % 3 + rest) % 3 == (x0 + x1
            + x2 + x3 + rest) % 3,
{
}

/// The twist sum stays a multiple of 3 when every corner of the turned face takes
/// the twist of its source plus the table's twist.
proof fn lemma_twist_sum_turned(cs: Seq<CornerPiece>, after: Seq<CornerPiece>, face: CubeFace)
    requires
        corners_wf(cs),
        after.len() == 8,
        corner_twist_sum(cs) % 3 == 0,
        forall|i: int|
            0 <= i < 8 ==> (corner_on_face(face, i) ==> (#[trigger] after[i]).orientation == (
            cs[quarter_corner_source(face, i)].orientation + quarter_corner_twist(face, i)) % 3)
                && (!corner_on_face(face, i) ==> after[i] == cs[i]),
    ensures
        corner_twist_sum(after) % 3 == 0,
{
    lemma_face_corners(face);
    let f0 = face_corner(face, 0);
    let f1 = face_corner(face, 1);
    let f2 = face_corner(face, 2);
    let f3 = face_corner(face, 3);
    let g0 = far_corner(face, 0);
    let g1 = far_corner(face, 1);
    let g2 = far_corner(face, 2);
    let g3 = far_corner(face, 3);
    lemma_corner_source_on_face(face, f0);
    lemma_corner_source_on_face(face, f1);
    lemma_corner_source_on_face(face, f2);
    lemma_corner_source_on_face(face, f3);
    assert(after[f0].orientation == (cs[f3].orientation + quarter_corner_twist(face, f0)) % 3);
    assert(after[f1].orientation == (cs[f0].orientation + quarter_corner_twist(face, f1)) % 3);
    assert(after[f2].orientation == (cs[f1].orientation + quarter_corner_twist(face, f2)) % 3);
    assert(after[f3].orientation == (cs[f2].orientation + quarter_corner_twist(face, f3)) % 3);
    assert(after[g0] == cs[g0] && after[g1] == cs[g1] && after[g2] == cs[g2] && after[g3]
        == cs[g3]);
    let rest = cs[g0].orientation + cs[g1].orientation + cs[g2].orientation + cs[g3].orientation;
    lemma_sum_of_twisted(
        cs[f3].orientation as int,
        cs[f0].orientation as int,
        cs[f1].orientation as int,
        cs[f2].orientation as int,
        quarter_corner_twist(face, f0),
        quarter_corner_twist(face, f1),
        quarter_corner_twist(face, f2),
        quarter_corner_twist(face, f3),
        rest,
    );
    assert(corner_twist_sum(after) == after[f0].orientation + after[f1].orientation
        + after[f2].orientation + after[f3].orientation + rest);
    assert(corner_twist_sum(cs) == cs[f3].orientation + cs[f0].orientation + cs[f1].orientation
        + cs[f2].orientation + rest);
}

/// Any number of quarter turns keeps what holds of the corners of every reachable state.
pub proof fn lemma_corners_turned_valid(cs: Seq<CornerPiece>, face: CubeFace, quarters: nat)
    requires
        corners_valid(cs),
    ensures
        corners_valid(corners_turned(cs, face, quarters)),
    decreases quarters,
{
    if quarters > 0 {
        lemma_corners_turned_valid(cs, face, (quarters - 1) as nat);
        lemma_corners_turned_unfold(cs, face, (quarters - 1) as nat);
        lemma_corners_quarter_turn_valid(corners_turned(cs, face, (quarters - 1) as nat), face);
    }
}

/// The solved corners are a valid arrangement.
pub proof fn lemma_solved_corners_valid()
    ensures
        corners_valid(solved_corners()),
{
    let cs = solved_corners();
    assert forall|c: Corner| #[trigger] corner_present(cs, c) by {
        assert(holds_corner(cs, c.spec_index(), c));
    }
}

/// Every sequence of moves keeps what holds of the corners of every reachable state.
pub proof fn lemma_corners_after_valid(cs: Seq<CornerPiece>, moves: Seq<Move>)
    requires
        corners_valid(cs),
    ensures
        corners_valid(corners_after(cs, moves)),
    decreases moves.len(),
{
    if moves.len() > 0 {
        lemma_corners_after_valid(cs, moves.drop_last());
        lemma_corners_turned_valid(
            corners_after(cs, moves.drop_last()),
            moves.last().spec_face(),
            moves.last().quarter_turns(),
        );
    }
}

/// The twists of the first seven corners. The twist of the eighth follows from them.
pub open spec fn corner_twists(cs: Seq<CornerPiece>) -> Seq<int> {
    Seq::new(7, |i: int| cs[i].orientation as int)
}

/// The home positions of the corners, by the position that each occupies.
pub open spec fn corner_ids(cs: Seq<CornerPiece>) -> Seq<int> {
    Seq::new(8, |i: int| cs[i].piece.spec_index())
}

/// The twists of the first seven corners read as a number in base 3.
pub open spec fn corner_orientation_index(cs: Seq<CornerPiece>) -> int {
    positional_value(corner_twists(cs), 3)
}

/// Rank of the arrangement of the corners in the factorial number system.
pub open spec fn corner_permutation_index(cs: Seq<CornerPiece>) -> int {
    permutation_rank(corner_ids(cs))
}

/// Computes the orientation index of an array of corners.
pub fn corners_orientation_index(corners: &[CornerPiece; 8]) -> (r: u16)
    requires
        forall|i: int| 0 <= i < 7 ==> (#[trigger] corners@[i]).orientation < 3,
    ensures
        r == corner_orientation_index(corners@),
        r < 2187,
{
    let mut digits: [u8; 7] = [0u8; 7];
    let mut i: usize = 0;
    while i < 7
        invariant
            i <= 7,
            forall|k: int| 0 <= k < i ==> digits@[k] == corners@[k].orientation,
        decreases 7 - i,
    {
        digits[i] = corners[i].orientation;
        i += 1;
    }
    proof {
        assert(power(3, 7) == 2187) by {
            reveal_with_fuel(power, 8);
        }
        assert(digits@.map_values(|x: u8| x as int) =~= corner_twists(corners@));
    }
    positional_index(digits.as_slice(), 3)
}

/// Computes the permutation index of an array of corners.
pub fn corners_permutation_index(corners: &[CornerPiece; 8]) -> (r: u16)
    ensures
        r == corner_permutation_index(corners@),
        r < 40320,
{
    let mut ids: [u8; 8] = [0u8; 8];
    let mut i: usize = 0;
    while i < 8
        invariant
            i <= 8,
            forall|k: int| 0 <= k < i ==> digits_match(ids@[k], corners@[k].piece),
        decreases 8 - i,
    {
        ids[i] = corners[i].piece.index() as u8;
        i += 1;
    }
    proof {
        lemma_small_factorials();
        assert(ids@.map_values(|x: u8| x as int) =~= corner_ids(corners@));
    }
    permutation_index(ids.as_slice())
}

/// Whether a byte is the home position of a corner.
pub open spec fn digits_match(id: u8, corner: Corner) -> bool {
    id as int == corner.spec_index()
}

/// Whether an array of corners is the solved arrangement.
pub fn corners_solved(corners: &[CornerPiece; 8]) -> (r: bool)
    ensures
        r == (corners@ == solved_corners()),
{
    let mut i: usize = 0;
    while i < 8
        invariant
            i <= 8,
            forall|k: int| 0 <= k < i ==> corners@[k] == solved_corners()[k],
        decreases 8 - i,
    {
        let piece = corners[i];
        if piece.piece.index() != i || piece.orientation != 0 {
            assert(corners@[i as int] != solved_corners()[i as int]);
            return false;
        }
        i += 1;
    }
    assert(corners@ =~= solved_corners());
    true
}

/// The corners of a solved cube.
pub fn new_corners() -> (r: [CornerPiece; 8])
    ensures
        r@ == solved_corners(),
{
    let r = [
        CornerPiece { piece: Corner::URF, orientation: 0 },
        CornerPiece { piece: Corner::UFL, orientation: 0 },
        CornerPiece { piece: Corner::ULB, orientation: 0 },
        CornerPiece { piece: Corner::UBR, orientation: 0 },
        CornerPiece { piece: Corner::DFR, orientation: 0 },
        CornerPiece { piece: Corner::DLF, orientation: 0 },
        CornerPiece { piece: Corner::DBL, orientation: 0 },
        CornerPiece { piece: Corner::DRB, orientation: 0 },
    ];
    assert(r@ =~= solved_corners());
    r
}

/// The corners with the pieces at positions `a` and `b` exchanged.
pub open spec fn corners_swapped(cs: Seq<CornerPiece>, a: int, b: int) -> Seq<CornerPiece> {
    cs.update(a, cs[b]).update(b, cs[a])
}

/// Exchanging two pieces keeps every corner at exactly one position.
pub proof fn lemma_corner_swap_bijective(cs: Seq<CornerPiece>, a: int, b: int)
    requires
        cs.len() == 8,
        0 <= a < 8,
        0 <= b < 8,
        corners_bijective(cs),
    ensures
        corners_bijective(corners_swapped(cs, a, b)),
{
    let after = corners_swapped(cs, a, b);
    assert forall|i: int, j: int| 0 <= i < j < 8 implies (#[trigger] after[i]).piece != (
    #[trigger] after[j]).piece by {
        let si = if i == a {
            b
        } else if i == b {
            a
        } else {
            i
        };
        let sj = if j == a {
            b
        } else if j == b {
            a
        } else {
            j
        };
        assert(after[i] == cs[si] && after[j] == cs[sj]);
        if si < sj {
            assert(cs[si].piece != cs[sj].piece);
        } else {
            assert(cs[sj].piece != cs[si].piece);
        }
    }
    assert forall|c: Corner| #[trigger] corner_present(after, c) by {
        assert(corner_present(cs, c));
        let i = choose|i: int| holds_corner(cs, i, c);
        let j = if i == a {
            b
        } else if i == b {
            a
        } else {
            i
        };
        assert(after[j] == cs[i]);
        assert(holds_corner(after, j, c));
    }
}

/// Changing twists keeps every corner at exactly one position.
pub proof fn lemma_corner_pieces_bijective(cs: Seq<CornerPiece>, after: Seq<CornerPiece>)
    requires
        cs.len() == 8,
        after.len() == 8,
        corners_bijective(cs),
        forall|i: int| 0 <= i < 8 ==> (#[trigger] after[i]).piece == cs[i].piece,
    ensures
        corners_bijective(after),
{
    assert forall|i: int, j: int| 0 <= i < j < 8 implies (#[trigger] after[i]).piece != (
    #[trigger] after[j]).piece by {
        assert(cs[i].piece != cs[j].piece);
    }
    assert forall|c: Corner| #[trigger] corner_present(after, c) by {
        assert(corner_present(cs, c));
        let i = choose|i: int| holds_corner(cs, i, c);
        assert(holds_corner(after, i, c));
    }
}

/// Exchanges the pieces at two positions.
pub fn swap_corners(corners: &mut [CornerPiece; 8], a: usize, b: usize)
    requires
        a < 8,
        b < 8,
    ensures
        final(corners)@ == corners_swapped(old(corners)@, a as int, b as int),
{
    let first = corners[a];
    let second = corners[b];
    corners[a] = second;
    corners[b] = first;
    assert(corners@ =~= corners_swapped(old(corners)@, a as int, b as int));
}

/// The corners after the first `n` exchanges that were drawn: the corner at the
/// place of an exchange changes places with the corner at the place drawn for it,
/// unless that is the same place, and the last two corners change places with it,
/// so that pieces are exchanged two pairs at a time.
pub open spec fn corners_shuffled(cs: Seq<CornerPiece>, places: Seq<u32>, n: nat) -> Seq<CornerPiece>
    decreases n,
{
    if n == 0 {
        cs
    } else {
        let before = corners_shuffled(cs, places, (n - 1) as nat);
        if places[n - 1] != n - 1 {
            corners_swapped(corners_swapped(before, n - 1, places[n - 1] as int), 6, 7)
        } else {
            before
        }
    }
}

/// The corners with the twists that were drawn: the first seven have their twists,
/// and the twist of the last makes the sum of the twists a multiple of 3.
pub open spec fn corners_twisted(cs: Seq<CornerPiece>, twists: Seq<u32>) -> Seq<CornerPiece> {
    Seq::new(
        8,
        |k: int|
            CornerPiece {
                piece: cs[k].piece,
                orientation: if k < 7 {
                    twists[k] as u8
                } else {
                    ((3 - drawn_sum(twists, 7) % 3) % 3) as u8
                },
            },
    )
}

/// The arrangement of the corners that numbers drawn lead to: the solved corners,
/// exchanged as the places drawn say, with the twists drawn.
pub open spec fn corners_drawn(places: Seq<u32>, twists: Seq<u32>) -> Seq<CornerPiece> {
    corners_twisted(corners_shuffled(solved_corners(), places, 7), twists)
}

/// Builds the arrangement of the corners that numbers drawn lead to. It is one that
/// has what every reachable arrangement has.
pub fn corners_from_draws(places: &Vec<u32>, twists: &Vec<u32>) -> (r: [CornerPiece; 8])
    requires
        draws_below(places@, 7, 8),
        draws_below(twists@, 7, 3),
    ensures
        r@ == corners_drawn(places@, twists@),
        corners_valid(r@),
{
    let mut corners = new_corners();
    proof {
        lemma_solved_corners_valid();
    }
    let mut i: usize = 0;
    while i < 7
        invariant
            i <= 7,
            draws_below(places@, 7, 8),
            corners_bijective(corners@),
            forall|k: int| 0 <= k < 8 ==> (#[trigger] corners@[k]).orientation == 0,
            corners@ == corners_shuffled(solved_corners(), places@, i as nat),
        decreases 7 - i,
    {
        let n = places[i] as usize;
        if i != n {
            proof {
                lemma_corner_swap_bijective(corners@, i as int, n as int);
                lemma_corner_swap_bijective(corners_swapped(corners@, i as int, n as int), 6, 7);
            }
            swap_corners(&mut corners, i, n);
            swap_corners(&mut corners, 6, 7);
        }
        i += 1;
    }
    let ghost placed = corners@;
    let mut sum: u8 = 0;
    let mut i: usize = 0;
    while i < 7
        invariant
            i <= 7,
            draws_below(twists@, 7, 3),
            corners_bijective(placed),
            placed.len() == 8,
            forall|k: int| 0 <= k < 8 ==> (#[trigger] corners@[k]).piece == placed[k].piece,
            forall|k: int| 0 <= k < i ==> (#[trigger] corners@[k]).orientation == twists@[k],
            forall|k: int| i <= k < 8 ==> (#[trigger] corners@[k]).orientation == 0,
            sum <= 2 * i,
            sum == corner_twist_sum(corners@),
            sum == drawn_sum(twists@, i as nat),
        decreases 7 - i,
    {
        let twist = twists[i] as u8;
        let ghost before = corners@;
        let piece = corners[i].piece;
        corners[i] = CornerPiece { piece, orientation: twist };
        proof {
            assert(forall|k: int| 0 <= k < 8 && k != i ==> corners@[k] == before[k]);
            assert(corner_twist_sum(corners@) == corner_twist_sum(before) + twist);
        }
        sum += twist;
        i += 1;
    }
    let ghost before = corners@;
    let piece = corners[7].piece;
    corners[7] = CornerPiece { piece, orientation: (3 - (sum % 3)) % 3 };
    proof {
        assert(forall|k: int| 0 <= k < 7 ==> corners@[k] == before[k]);
        assert(corner_twist_sum(corners@) == sum + (3 - (sum % 3)) % 3);
        lemma_corner_pieces_bijective(placed, corners@);
        assert(corners@ =~= corners_twisted(placed, twists@));
    }
    corners
}

/// Whether an array of corners has what every reachable arrangement has.
pub fn corners_are_valid(corners: &[CornerPiece; 8]) -> (r: bool)
    ensures
        r == corners_valid(corners@),
{
    let mut seen: [bool; 8] = [false;8];
    let mut sum: u8 = 0;
    let mut i: usize = 0;
    while i < 8
        invariant
            i <= 8,
            sum <= 2 * i,
            forall|k: int| 0 <= k < i ==> (#[trigger] corners@[k]).orientation < 3,
            forall|a: int, b: int|
                0 <= a < b < i ==> (#[trigger] corners@[a]).piece != (#[trigger] corners@[b]).piece,
            forall|c: Corner| #[trigger]
                seen@[c.spec_index()] <==> exists|k: int|
                    0 <= k < i && #[trigger] holds_corner(corners@, k, c),
            sum == partial_twist_sum(corners@, i as int),
        decreases 8 - i,
    {
        let piece = corners[i];
        if piece.orientation >= 3 {
            return false;
        }
        let id = piece.piece.index();
        if seen[id] {
            proof {
                let k = choose|k: int| 0 <= k < i && holds_corner(corners@, k, piece.piece);
                assert(corners@[k].piece == corners@[i as int].piece);
            }
            return false;
        }
        let ghost before = seen@;
        seen[id] = true;
        proof {
            assert forall|a: int, b: int| 0 <= a < b < i + 1 implies (#[trigger] corners@[a]).piece
                != (#[trigger] corners@[b]).piece by {
                if b == i {
                    assert(!before[piece.piece.spec_index()]);
                    assert(!holds_corner(corners@, a, piece.piece));
                }
            }
            assert forall|c: Corner| #[trigger]
                seen@[c.spec_index()] <==> exists|k: int|
                    0 <= k < i + 1 && #[trigger] holds_corner(corners@, k, c) by {
                if c == piece.piece {
                    assert(holds_corner(corners@, i as int, c));
                } else {
                    assert(seen@[c.spec_index()] == before[c.spec_index()]);
                    if before[c.spec_index()] {
                        let k = choose|k: int| 0 <= k < i && holds_corner(corners@, k, c);
                        assert(holds_corner(corners@, k, c));
                    }
                }
            }
            reveal_with_fuel(partial_twist_sum, 2);
        }
        sum += piece.orientation;
        i += 1;
    }
    proof {
        reveal_with_fuel(partial_twist_sum, 9);
        assert(sum == corner_twist_sum(corners@));
    }
    let mut c: usize = 0;
    while c < 8
        invariant
            c <= 8,
            forall|x: Corner| #[trigger]
                seen@[x.spec_index()] <==> exists|k: int|
                    0 <= k < 8 && #[trigger] holds_corner(corners@, k, x),
            forall|x: Corner| x.spec_index() < c ==> #[trigger] corner_present(corners@, x),
        decreases 8 - c,
    {
        if !seen[c] {
            proof {
                let x = Corner::at(c as int);
                assert(x.spec_index() == c);
                assert(!seen@[x.spec_index()]);
                assert(!corner_present(corners@, x));
            }
            return false;
        }
        proof {
            assert forall|x: Corner| x.spec_index() < c + 1 implies #[trigger] corner_present(
                corners@,
                x,
            ) by {
                if x.spec_index() == c {
                    assert(seen@[x.spec_index()]);
                    let k = choose|k: int| 0 <= k < 8 && holds_corner(corners@, k, x);
                    assert(holds_corner(corners@, k, x));
                }
            }
        }
        c += 1;
    }
    sum % 3 == 0
}

/// Sum of the twists of the first `count` corners.
pub open spec fn partial_twist_sum(cs: Seq<CornerPiece>, count: int) -> int
    decreases count,
{
    if count <= 0 {
        0
    } else {
        partial_twist_sum(cs, count - 1) + cs[count - 1].orientation
    }
}

/// Sum of the lowest `places` digits of `idx` in base 3.
pub open spec fn twist_digit_sum(idx: int, places: nat) -> int
    decreases places,
{
    if places == 0 {
        0
    } else {
        twist_digit_sum(idx, (places - 1) as nat) + digit_at(idx, 3, (places - 1) as nat)
    }
}

/// The corners at home, twisted as an orientation index says: the digits of the
/// index are the twists of the first seven corners, and the eighth twist makes the
/// sum a multiple of 3.
pub open spec fn oriented_corners(idx: int) -> Seq<CornerPiece> {
    Seq::new(
        8,
        |i: int|
            CornerPiece {
                piece: Corner::at(i),
                orientation: (if i < 7 {
                    digit_at(idx, 3, (6 - i) as nat)
                } else {
                    (3 - twist_digit_sum(idx, 7) % 3) % 3
                }) as u8,
            },
    )
}

/// The corners, untwisted, in the arrangement that a permutation index names.
pub open spec fn permuted_corners(idx: int) -> Seq<CornerPiece> {
    arranged(solved_corners(), 0, 8, idx, 0)
}

/// Builds the corners that an orientation index stands for.
pub fn corners_of_orientation_index(idx: u16) -> (r: [CornerPiece; 8])
    ensures
        r@ == oriented_corners(idx as int),
        corners_valid(r@),
{
    let mut corners = new_corners();
    proof {
        lemma_solved_corners_valid();
    }
    let ghost placed = corners@;
    let mut rest: u16 = idx;
    let mut sum: u8 = 0;
    let mut place: usize = 0;
    while place < 7
        invariant
            place <= 7,
            placed == solved_corners(),
            rest == index_rest(idx as int, 3, place as nat),
            sum == twist_digit_sum(idx as int, place as nat),
            sum <= 2 * place,
            sum == corner_twist_sum(corners@),
            forall|k: int| 0 <= k < 8 ==> (#[trigger] corners@[k]).piece == placed[k].piece,
            forall|k: int|
                7 - place <= k < 7 ==> (#[trigger] corners@[k]).orientation == digit_at(
                    idx as int,
                    3,
                    (6 - k) as nat,
                ),
            forall|k: int| 0 <= k < 7 - place ==> (#[trigger] corners@[k]).orientation == 0,
            corners@[7].orientation == 0,
        decreases 7 - place,
    {
        let digit = (rest % 3) as u8;
        let ghost before = corners@;
        let piece = corners[6 - place].piece;
        corners[6 - place] = CornerPiece { piece, orientation: digit };
        proof {
            assert(forall|k: int| 0 <= k < 8 && k != 6 - place ==> corners@[k] == before[k]);
            assert(corner_twist_sum(corners@) == corner_twist_sum(before) + digit);
        }
        sum += digit;
        rest = rest / 3;
        place += 1;
    }
    let ghost before = corners@;
    let piece = corners[7].piece;
    corners[7] = CornerPiece { piece, orientation: (3 - (sum % 3)) % 3 };
    proof {
        assert(forall|k: int| 0 <= k < 7 ==> corners@[k] == before[k]);
        assert(corner_twist_sum(corners@) == sum + (3 - (sum % 3)) % 3);
        lemma_corner_pieces_bijective(placed, corners@);
        assert(corners@ =~= oriented_corners(idx as int));
    }
    corners
}

/// Moves the piece at `from` down to `to`, each piece between them one place up.
pub fn bubble_corner(corners: &mut [CornerPiece; 8], from: usize, to: usize)
    requires
        to <= from < 8,
        corners_bijective(old(corners)@),
        forall|k: int| 0 <= k < 8 ==> (#[trigger] old(corners)@[k]).orientation == 0,
    ensures
        final(corners)@ == bubbled(old(corners)@, from as int, to as int),
        corners_bijective(final(corners)@),
        forall|k: int| 0 <= k < 8 ==> (#[trigger] final(corners)@[k]).orientation == 0,
{
    let mut j: usize = from;
    while j > to
        invariant
            to <= j <= from,
            from < 8,
            corners_bijective(corners@),
            forall|k: int| 0 <= k < 8 ==> (#[trigger] corners@[k]).orientation == 0,
            bubbled(corners@, j as int, to as int) == bubbled(old(corners)@, from as int, to as int),
        decreases j,
    {
        proof {
            lemma_corner_swap_bijective(corners@, j as int, j - 1);
            assert(corners_swapped(corners@, j as int, j - 1) =~= swapped(corners@, j as int, j - 1));
        }
        swap_corners(corners, j, j - 1);
        j -= 1;
    }
}

/// Builds the corners that a permutation index stands for.
pub fn corners_of_permutation_index(idx: u16) -> (r: [CornerPiece; 8])
    ensures
        r@ == permuted_corners(idx as int),
        corners_valid(r@),
{
    let mut corners = new_corners();
    proof {
        lemma_solved_corners_valid();
    }
    let digits = factoradic_digits(idx, 8);
    let mut i: usize = 0;
    while i < 7
        invariant
            i <= 7,
            corners_bijective(corners@),
            forall|k: int| 0 <= k < 8 ==> (#[trigger] corners@[k]).orientation == 0,
            forall|k: int|
                0 <= k < 8 ==> #[trigger] digits@[k] == crate::index::factoradic_digit(
                    idx as int,
                    (7 - k) as nat,
                ),
            forall|k: int| 0 <= k < 8 ==> #[trigger] digits@[k] <= 7 - k,
            arranged(corners@, 0, 8, idx as int, i as int) == permuted_corners(idx as int),
        decreases 7 - i,
    {
        let from = i + digits[i] as usize;
        bubble_corner(&mut corners, from, i);
        i += 1;
    }
    proof {
        assert(corner_twist_sum(corners@) == 0);
    }
    corners
}

/// Sums of corner twists around a face that cancel.
proof fn lemma_corner_twist_cancel(t0: int, t1: int, t2: int, t3: int)
    requires
        0 <= t0 < 3,
        0 <= t1 < 3,
        0 <= t2 < 3,
        0 <= t3 < 3,
        (t0 + t1 + t2 + t3) % 3 == 0,
    ensures
        ((t0 + t1 + t2) % 3 + t3) % 3 == 0,
        ((t0 + t1) % 3 + (t2 + t3) % 3) % 3 == 0,
        (t0 + (t1 + t2 + t3) % 3) % 3 == 0,
{
}

/// A move brings to a position what its inverse took from there, with twists that
/// cancel.
pub proof fn lemma_corner_source_inverse(mv: Move, pos: int)
    requires
        0 <= pos < 8,
    ensures
        0 <= move_corner_source(mv.spec_inverse(), pos) < 8,
        corner_on_face(mv.spec_face(), pos) ==> corner_on_face(
            mv.spec_face(),
            move_corner_source(mv.spec_inverse(), pos),
        ),
        move_corner_source(mv, move_corner_source(mv.spec_inverse(), pos)) == pos,
        (move_corner_twist(mv.spec_inverse(), pos) + move_corner_twist(
            mv,
            move_corner_source(mv.spec_inverse(), pos),
        )) % 3 == 0,
        0 <= move_corner_twist(mv.spec_inverse(), pos) < 3,
        0 <= move_corner_twist(mv, move_corner_source(mv.spec_inverse(), pos)) < 3,
{
    let face = mv.spec_face();
    let inv = mv.spec_inverse();
    assert(inv.spec_face() == face);
    let p1 = quarter_corner_source(face, pos);
    let p2 = quarter_corner_source(face, p1);
    let p3 = quarter_corner_source(face, p2);
    let t0 = quarter_corner_twist(face, pos);
    let t1 = quarter_corner_twist(face, p1);
    let t2 = quarter_corner_twist(face, p2);
    let t3 = quarter_corner_twist(face, p3);
    lemma_corner_source_on_face(face, pos);
    lemma_corner_source_on_face(face, p1);
    lemma_corner_source_on_face(face, p2);
    lemma_corner_source_on_face(face, p3);
    lemma_corner_quarter_cycle(face, pos);
    assert(quarter_corner_source(face, p3) == pos);
    lemma_corner_twist_cancel(t0, t1, t2, t3);
    if mv.quarter_turns() == 1 {
        assert(inv.quarter_turns() == 3);
        assert(move_corner_source(inv, pos) == p3);
        assert(move_corner_source(mv, p3) == pos);
        assert(move_corner_twist(inv, pos) == (t0 + t1 + t2) % 3);
        assert(move_corner_twist(mv, p3) == t3);
    } else if mv.quarter_turns() == 2 {
        assert(inv.quarter_turns() == 2);
        assert(move_corner_source(inv, pos) == p2);
        assert(move_corner_source(mv, p2) == pos);
        assert(move_corner_twist(inv, pos) == (t0 + t1) % 3);
        assert(move_corner_twist(mv, p2) == (t2 + t3) % 3);
    } else {
        assert(mv.quarter_turns() == 3);
        assert(inv.quarter_turns() == 1);
        assert(move_corner_source(inv, pos) == p1);
        assert(move_corner_source(mv, p1) == pos);
        assert(move_corner_twist(inv, pos) == t0);
        assert(move_corner_twist(mv, p1) == (t1 + t2 + t3) % 3);
    }
}

/// Sums of corner twists around a face, reduced.
proof fn lemma_corner_twist_rounds(t0: int, t1: int, t2: int, t3: int)
    requires
        0 <= t0 < 3,
        0 <= t1 < 3,
        0 <= t2 < 3,
        0 <= t3 < 3,
        (t0 + t1 + t2 + t3) % 3 == 0,
    ensures
        ((t0 + t1 + t2) % 3 + (t3 + t0 + t1) % 3) % 3 == (t0 + t1) % 3,
{
}

/// A quarter turn made twice brings to a position what the half turn of the same
/// face brings there, with the same twist.
pub proof fn lemma_corner_source_twice(mv: Move, pos: int)
    requires
        0 <= pos < 8,
        mv.spec_rotation() != 2,
    ensures
        0 <= move_corner_source(mv, pos) < 8,
        corner_on_face(mv.spec_face(), pos) ==> corner_on_face(
            mv.spec_face(),
            move_corner_source(mv, pos),
        ),
        move_corner_source(mv, move_corner_source(mv, pos)) == move_corner_source(
            Move::of(mv.spec_face(), 2),
            pos,
        ),
        (move_corner_twist(mv, pos) + move_corner_twist(mv, move_corner_source(mv, pos))) % 3
            == move_corner_twist(Move::of(mv.spec_face(), 2), pos),
        0 <= move_corner_twist(mv, pos) < 3,
        0 <= move_corner_twist(mv, move_corner_source(mv, pos)) < 3,
{
    let face = mv.spec_face();
    let half = Move::of(face, 2);
    assert(half.spec_face() == face && half.quarter_turns() == 2);
    let p1 = quarter_corner_source(face, pos);
    let p2 = quarter_corner_source(face, p1);
    let p3 = quarter_corner_source(face, p2);
    let t0 = quarter_corner_twist(face, pos);
    let t1 = quarter_corner_twist(face, p1);
    let t2 = quarter_corner_twist(face, p2);
    let t3 = quarter_corner_twist(face, p3);
    lemma_corner_source_on_face(face, pos);
    lemma_corner_source_on_face(face, p1);
    lemma_corner_source_on_face(face, p2);
    lemma_corner_source_on_face(face, p3);
    lemma_corner_quarter_cycle(face, pos);
    assert(quarter_corner_source(face, p3) == pos);
    assert(move_corner_source(half, pos) == p2);
    assert(move_corner_twist(half, pos) == (t0 + t1) % 3);
    if mv.quarter_turns() == 1 {
        assert(move_corner_source(mv, pos) == p1);
        assert(move_corner_source(mv, p1) == p2);
        assert(move_corner_twist(mv, pos) == t0);
        assert(move_corner_twist(mv, p1) == t1);
    } else {
        assert(mv.quarter_turns() == 3);
        assert(move_corner_source(mv, pos) == p3);
        assert(move_corner_source(mv, p3) == p2);
        assert(move_corner_twist(mv, pos) == (t0 + t1 + t2) % 3);
        assert(move_corner_twist(mv, p3) == (t3 + t0 + t1) % 3);
        lemma_corner_twist_rounds(t0, t1, t2, t3);
    }
}

/// A turn of the top or bottom face, and a half turn of any face, twists no corner.
pub proof fn lemma_phase_2_corner_twist(mv: Move, pos: int)
    requires
        crate::prune::spec_is_phase_2_move(mv),
        0 <= pos < 8,
    ensures
        move_corner_twist(mv, pos) == 0,
{
    let face = mv.spec_face();
    let once = quarter_corner_source(face, pos);
    let twice = quarter_corner_source(face, once);
    lemma_corner_source_on_face(face, pos);
    lemma_corner_source_on_face(face, once);
    lemma_corner_source_on_face(face, twice);
    lemma_quarter_twists_pair(face, pos);
    lemma_quarter_twists_pair(face, once);
    lemma_quarter_twists_pair(face, twice);
}

/// The quarter turns of the top and the bottom face twist no corner, and the twists
/// that two quarter turns of any face give to a corner cancel.
proof fn lemma_quarter_twists_pair(face: CubeFace, pos: int)
    requires
        0 <= pos < 8,
    ensures
        (face == CubeFace::Top || face == CubeFace::Bottom) ==> quarter_corner_twist(face, pos)
            == 0,
        (quarter_corner_twist(face, pos) + quarter_corner_twist(
            face,
            quarter_corner_source(face, pos),
        )) % 3 == 0,
{
    reveal(quarter_corner_source);
    reveal(quarter_corner_twist);
}

/// A corner position is not around two opposite faces.
pub proof fn lemma_opposite_faces_apart(face: CubeFace, pos: int)
    requires
        0 <= pos < 8,
        corner_on_face(face, pos),
    ensures
        !corner_on_face(face.spec_opposite(), pos),
{
    reveal(face_corner);
}

/// Two moves of opposite faces can be made in either order.
pub proof fn lemma_corners_opposite_commute(cs: Seq<CornerPiece>, a: Move, b: Move)
    requires
        cs.len() == 8,
        b.spec_face() == a.spec_face().spec_opposite(),
    ensures
        corners_moved(corners_moved(cs, a), b) == corners_moved(corners_moved(cs, b), a),
{
    let ab = corners_moved(corners_moved(cs, a), b);
    let ba = corners_moved(corners_moved(cs, b), a);
    lemma_corner_after_move(cs, a, 0);
    lemma_corner_after_move(cs, b, 0);
    lemma_corner_after_move(corners_moved(cs, a), b, 0);
    lemma_corner_after_move(corners_moved(cs, b), a, 0);
    assert forall|pos: int| 0 <= pos < 8 implies ab[pos] == ba[pos] by {
        lemma_corner_after_move(cs, a, pos);
        lemma_corner_after_move(cs, b, pos);
        lemma_corner_after_move(corners_moved(cs, a), b, pos);
        lemma_corner_after_move(corners_moved(cs, b), a, pos);
        if corner_on_face(a.spec_face(), pos) {
            lemma_opposite_faces_apart(a.spec_face(), pos);
            let source = move_corner_source(a, pos);
            lemma_corner_move_source_on_face(a, pos);
            lemma_opposite_faces_apart(a.spec_face(), source);
            lemma_corner_after_move(cs, b, source);
        } else if corner_on_face(b.spec_face(), pos) {
            lemma_opposite_faces_apart(b.spec_face(), pos);
            let source = move_corner_source(b, pos);
            lemma_corner_move_source_on_face(b, pos);
            lemma_opposite_faces_apart(b.spec_face(), source);
            lemma_corner_after_move(cs, a, source);
        }
    }
    assert(ab =~= ba);
}

/// A move brings to a corner of its face a corner of its face.
pub proof fn lemma_corner_move_source_on_face(mv: Move, pos: int)
    requires
        0 <= pos < 8,
        corner_on_face(mv.spec_face(), pos),
    ensures
        0 <= move_corner_source(mv, pos) < 8,
        corner_on_face(mv.spec_face(), move_corner_source(mv, pos)),
{
    let face = mv.spec_face();
    let once = quarter_corner_source(face, pos);
    let twice = quarter_corner_source(face, once);
    lemma_corner_source_on_face(face, pos);
    lemma_corner_source_on_face(face, once);
    lemma_corner_source_on_face(face, twice);
}

/// Four more quarter turns change nothing.
pub proof fn lemma_corners_turned_round(cs: Seq<CornerPiece>, face: CubeFace, quarters: nat)
    requires
        corners_wf(cs),
    ensures
        corners_turned(cs, face, quarters + 4) == corners_turned(cs, face, quarters),
{
    lemma_corners_four_quarter_turns(cs, face);
    lemma_corners_turned_add(cs, face, 4, quarters);
}

/// Two moves of the same face are one move of that face, or none: the quarter turns
/// add up.
pub proof fn lemma_corners_same_face(cs: Seq<CornerPiece>, a: Move, b: Move)
    requires
        corners_wf(cs),
        a.spec_face() == b.spec_face(),
    ensures
        (a.quarter_turns() + b.quarter_turns()) % 4 == 0 ==> corners_moved(
            corners_moved(cs, a),
            b,
        ) == cs,
        (a.quarter_turns() + b.quarter_turns()) % 4 != 0 ==> corners_moved(
            corners_moved(cs, a),
            b,
        ) == corners_moved(cs, merged_move(a, b)),
{
    let face = a.spec_face();
    let total = a.quarter_turns() + b.quarter_turns();
    lemma_corners_turned_add(cs, face, a.quarter_turns(), b.quarter_turns());
    if total >= 4 {
        lemma_corners_turned_round(cs, face, (total - 4) as nat);
    }
    lemma_corners_turned_unfold(cs, face, 0);
}

/// The one move that two moves of the same face amount to, where they do not
/// cancel.
pub open spec fn merged_move(a: Move, b: Move) -> Move {
    let total = (a.quarter_turns() + b.quarter_turns()) % 4;
    Move::of(
        a.spec_face(),
        if total == 1 {
            1
        } else if total == 2 {
            2
        } else {
            -1
        },
    )
}

} // verus!

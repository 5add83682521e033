use crate::common::{inverse_moves, inverse_sequence, CornerPiece, CubeFace, Move};
use crate::corner::{
    corner_orientation_index, corner_permutation_index, corners_after, corners_moved,
    corners_valid, corners_wf, lemma_corners_after_valid, solved_corners,
};
use crate::cube3x3x3::Pieces3x3x3;
use crate::edge::{lemma_solved_edges_valid, solved_edges};
use crate::tracking::{
    lemma_corners_goal, lemma_prune_admissible, lemma_solved_indices, lemma_table_follows,
};
use crate::common::Color;
use crate::cube2x2x2::{small_decodes_to, Cube2x2x2, Cube2x2x2Faces};
use crate::laws::{lemma_small_decoding_unique, lemma_small_shown_everywhere};
use crate::tables::CornerTables;
use vstd::prelude::*;

verus! {

/// Largest number of moves of a solution of the 2x2x2 cube that the solver looks
/// for.
pub const MAX_SOLUTION_MOVES_2X2X2: usize = 14;

/// Whether it is of use to make the move `mv` right after the move `prev`: not a
/// second turn of the same face, and of two turns of opposite faces, which can be
/// made in either order, only the one order.
pub open spec fn spec_follows(prev: Move, mv: Move) -> bool {
    &&& mv.spec_face() != prev.spec_face()
    &&& !(mv.spec_face() == prev.spec_face().spec_opposite() && mv.spec_face().spec_index()
        < prev.spec_face().spec_index())
}

/// Whether it is of use to make the move `mv` right after the move `prev`.
#[verifier::when_used_as_spec(spec_follows)]
pub fn follows(prev: Move, mv: Move) -> (r: bool)
    ensures
        r == spec_follows(prev, mv),
{
    let face = mv.face();
    let before = prev.face();
    if face == before {
        false
    } else if face == before.opposite() && face.index() < before.index() {
        false
    } else {
        true
    }
}

/// Whether it is of use to make the move `mv` after the moves made so far.
pub open spec fn may_follow(moves: Seq<Move>, mv: Move) -> bool {
    moves.len() == 0 || spec_follows(moves.last(), mv)
}

/// Copies a sequence of moves.
pub fn copy_moves(moves: &Vec<Move>) -> (r: Vec<Move>)
    ensures
        r@ == moves@,
{
    let mut out: Vec<Move> = Vec::new();
    let mut i: usize = 0;
    while i < moves.len()
        invariant
            i <= moves.len(),
            out@ == moves@.take(i as int),
        decreases moves.len() - i,
    {
        out.push(moves[i]);
        proof {
            assert(moves@.take(i + 1) =~= moves@.take(i as int).push(moves@[i as int]));
        }
        i += 1;
    }
    proof {
        assert(moves@.take(moves.len() as int) =~= moves@);
    }
    out
}

/// Whether no move of a sequence is wasted: every move is of use right after the
/// move before it.
pub open spec fn useful_sequence(ms: Seq<Move>) -> bool {
    forall|i: int| 0 <= i && i + 1 < ms.len() ==> spec_follows(#[trigger] ms[i], ms[i + 1])
}

/// Whether the moves `ms` solve the corners `cs` in at most `depth` moves, none of
/// them wasted, the first being of use after the moves `made`.
pub open spec fn solves_usefully(
    cs: Seq<CornerPiece>,
    made: Seq<Move>,
    ms: Seq<Move>,
    depth: int,
) -> bool {
    &&& 1 <= ms.len() <= depth
    &&& useful_sequence(ms)
    &&& may_follow(made, ms[0])
    &&& corners_after(cs, ms) == solved_corners()
}

/// Whether some sequence of at most `depth` moves, none of them wasted, solves the
/// corners `cs` after the moves `made`.
pub open spec fn solvable_within(cs: Seq<CornerPiece>, made: Seq<Move>, depth: int) -> bool {
    exists|ms: Seq<Move>| #[trigger] solves_usefully(cs, made, ms, depth)
}

/// Whether the search comes to the moves `a` before the moves `b`: at the first place
/// where they differ, `a` has ended or has the move with the smaller number.
pub open spec fn precedes(a: Seq<Move>, b: Seq<Move>) -> bool
    decreases a.len(),
{
    if b.len() == 0 {
        false
    } else if a.len() == 0 {
        true
    } else if a[0] != b[0] {
        a[0].spec_index() < b[0].spec_index()
    } else {
        precedes(a.skip(1), b.skip(1))
    }
}

/// Whether the moves `ms` are the first to which the search comes of those that
/// solve the corners `cs` in at most `depth` moves after the moves `made`.
pub open spec fn first_solution(
    cs: Seq<CornerPiece>,
    made: Seq<Move>,
    ms: Seq<Move>,
    depth: int,
) -> bool {
    &&& solves_usefully(cs, made, ms, depth)
    &&& forall|other: Seq<Move>| #[trigger]
        solves_usefully(cs, made, other, depth) ==> !precedes(other, ms)
}

/// Of two different sequences of as many moves, the search comes to one before the
/// other.
pub proof fn lemma_precedes_total(a: Seq<Move>, b: Seq<Move>)
    requires
        a.len() == b.len(),
        a != b,
    ensures
        precedes(a, b) || precedes(b, a),
    decreases a.len(),
{
    if a.len() == 0 {
        assert(a =~= b);
    } else if a[0] != b[0] {
        crate::common::lemma_move_index_round_trip(a[0]);
        crate::common::lemma_move_index_round_trip(b[0]);
    } else {
        if a.skip(1) == b.skip(1) {
            assert forall|i: int| 0 <= i < a.len() implies a[i] == b[i] by {
                if i > 0 {
                    assert(a[i] == a.skip(1)[i - 1]);
                    assert(b[i] == b.skip(1)[i - 1]);
                }
            }
            assert(a =~= b);
        }
        lemma_precedes_total(a.skip(1), b.skip(1));
    }
}

/// A move that solves the corners is the first solution where no solution begins
/// with a move of a smaller number.
pub proof fn lemma_first_single(cs: Seq<CornerPiece>, made: Seq<Move>, mv: Move, depth: int)
    requires
        solves_usefully(cs, made, seq![mv], depth),
        forall|ms: Seq<Move>| #[trigger]
            solves_usefully(cs, made, ms, depth) ==> ms[0].spec_index() >= mv.spec_index(),
    ensures
        first_solution(cs, made, seq![mv], depth),
{
    let found = seq![mv];
    assert forall|other: Seq<Move>| #[trigger]
        solves_usefully(cs, made, other, depth) implies !precedes(other, found) by {
        assert(other[0].spec_index() >= mv.spec_index());
        assert(found[0] == mv);
        assert(found.skip(1).len() == 0);
        assert(!precedes(other.skip(1), found.skip(1)));
    }
}

/// A move, and after it the first solution of the corners after the move, are the
/// first solution where no solution begins with a move of a smaller number and the
/// move alone does not solve the corners.
pub proof fn lemma_first_with_first(
    cs: Seq<CornerPiece>,
    made: Seq<Move>,
    mv: Move,
    tail: Seq<Move>,
    depth: int,
)
    requires
        may_follow(made, mv),
        corners_moved(cs, mv) != solved_corners(),
        first_solution(corners_moved(cs, mv), made.push(mv), tail, depth - 1),
        forall|ms: Seq<Move>| #[trigger]
            solves_usefully(cs, made, ms, depth) ==> ms[0].spec_index() >= mv.spec_index(),
    ensures
        first_solution(cs, made, seq![mv] + tail, depth),
{
    let found = seq![mv] + tail;
    lemma_solves_with_first(cs, made, mv, tail, depth);
    assert(found.skip(1) =~= tail);
    assert forall|other: Seq<Move>| #[trigger]
        solves_usefully(cs, made, other, depth) implies !precedes(other, found) by {
        assert(other[0].spec_index() >= mv.spec_index());
        if other[0] == mv {
            if other.len() == 1 {
                assert(other =~= seq![mv]);
                lemma_corners_after_single(cs, mv);
            } else {
                lemma_solves_without_first(cs, made, other, depth);
                assert(other.skip(1) =~= other.subrange(1, other.len() as int));
            }
        }
    }
}

/// What holds of the answer of the solver to a cube. A solution solves the cube
/// with no wasted move, within the limit of moves, and no sequence of fewer moves
/// solves it; of the solutions with as many moves and no wasted move it is the one
/// to which the search comes first, in the order of the moves. The solved cube has
/// the empty solution. There is no solution where no
/// legal moves reach the state, or where no sequence of moves solves it within the
/// limit.
pub open spec fn answers_2x2x2(cube: Seq<CornerPiece>, r: Option<Vec<Move>>) -> bool {
    match r {
        Some(solution) => {
            &&& corners_valid(cube)
            &&& corners_after(cube, solution@) == solved_corners()
            &&& solution@.len() <= MAX_SOLUTION_MOVES_2X2X2
            &&& useful_sequence(solution@)
            &&& forall|ms: Seq<Move>| #[trigger]
                corners_after(cube, ms) == solved_corners() ==> solution@.len() <= ms.len()
            &&& forall|other: Seq<Move>|
                useful_sequence(other) && #[trigger] corners_after(cube, other)
                    == solved_corners() && other.len() == solution@.len() ==> !precedes(
                    other,
                    solution@,
                )
        },
        None => cube != solved_corners() && (!corners_valid(cube) || forall|ms: Seq<Move>|
            ms.len() <= MAX_SOLUTION_MOVES_2X2X2 ==> #[trigger] corners_after(cube, ms)
                != solved_corners()),
    }
}

/// The corners after a sequence of one move.
pub proof fn lemma_corners_after_single(cs: Seq<CornerPiece>, mv: Move)
    ensures
        corners_after(cs, seq![mv]) == corners_moved(cs, mv),
{
    reveal_with_fuel(corners_after, 2);
    assert(seq![mv].drop_last() =~= Seq::<Move>::empty());
}

/// The corners after a move and a sequence of moves.
pub proof fn lemma_corners_after_prepend(cs: Seq<CornerPiece>, mv: Move, tail: Seq<Move>)
    ensures
        corners_after(cs, seq![mv] + tail) == corners_after(corners_moved(cs, mv), tail),
    decreases tail.len(),
{
    let ms = seq![mv] + tail;
    if tail.len() == 0 {
        assert(ms.drop_last() =~= Seq::<Move>::empty());
        assert(corners_after(cs, ms.drop_last()) == cs);
        assert(ms.last() == mv);
    } else {
        lemma_corners_after_prepend(cs, mv, tail.drop_last());
        assert(ms.drop_last() =~= seq![mv] + tail.drop_last());
        assert(ms.last() == tail.last());
    }
}

/// A sequence that solves with at least two moves solves, without its first move,
/// the corners after that move.
pub proof fn lemma_solves_without_first(
    cs: Seq<CornerPiece>,
    made: Seq<Move>,
    ms: Seq<Move>,
    depth: int,
)
    requires
        solves_usefully(cs, made, ms, depth),
        ms.len() >= 2,
    ensures
        solves_usefully(
            corners_moved(cs, ms[0]),
            made.push(ms[0]),
            ms.subrange(1, ms.len() as int),
            depth - 1,
        ),
{
    let tail = ms.subrange(1, ms.len() as int);
    assert(ms =~= seq![ms[0]] + tail);
    lemma_corners_after_prepend(cs, ms[0], tail);
    assert forall|i: int| 0 <= i && i + 1 < tail.len() implies spec_follows(
        #[trigger] tail[i],
        tail[i + 1],
    ) by {
        assert(spec_follows(ms[i + 1], ms[i + 2]));
    }
    assert(spec_follows(ms[0], ms[1]));
    assert(made.push(ms[0]).last() == ms[0]);
}

/// A move that is of use, followed by a sequence that solves the corners after it,
/// solves the corners.
pub proof fn lemma_solves_with_first(
    cs: Seq<CornerPiece>,
    made: Seq<Move>,
    mv: Move,
    tail: Seq<Move>,
    depth: int,
)
    requires
        may_follow(made, mv),
        solves_usefully(corners_moved(cs, mv), made.push(mv), tail, depth - 1),
    ensures
        solves_usefully(cs, made, seq![mv] + tail, depth),
{
    let ms = seq![mv] + tail;
    lemma_corners_after_prepend(cs, mv, tail);
    assert(made.push(mv).last() == mv);
    assert forall|i: int| 0 <= i && i + 1 < ms.len() implies spec_follows(
        #[trigger] ms[i],
        ms[i + 1],
    ) by {
        if i > 0 {
            assert(spec_follows(tail[i - 1], tail[i]));
        }
    }
}

/// The prune tables of the corners never overestimate: a sequence that solves the
/// corners has at least as many moves as each table says.
pub proof fn lemma_corner_bounds(tables: &CornerTables, cs: Seq<CornerPiece>, ms: Seq<Move>)
    requires
        tables.wf(),
        corners_valid(cs),
        corners_after(cs, ms) == solved_corners(),
    ensures
        0 <= corner_orientation_index(cs) < 2187,
        0 <= corner_permutation_index(cs) < 40320,
        tables.orientation_prune.entry(corner_orientation_index(cs)) <= ms.len(),
        tables.permutation_prune.entry(corner_permutation_index(cs)) <= ms.len(),
{
    let p = Pieces3x3x3 { corners: cs, edges: solved_edges() };
    lemma_solved_edges_valid();
    lemma_solved_indices();
    assert(p.after(ms).corners == solved_corners());
    lemma_prune_admissible(
        &tables.orientation_prune,
        &tables.orientation_move,
        None,
        false,
        p,
        ms,
    );
    lemma_prune_admissible(
        &tables.permutation_prune,
        &tables.permutation_move,
        None,
        false,
        p,
        ms,
    );
    assert(corner_orientation_index(cs) * 1 + 0 == corner_orientation_index(cs));
    assert(corner_permutation_index(cs) * 1 + 0 == corner_permutation_index(cs));
}

/// Every sequence of moves keeps eight corners with twists below 3.
pub proof fn lemma_corners_after_wf(cs: Seq<CornerPiece>, moves: Seq<Move>)
    requires
        corners_wf(cs),
    ensures
        corners_wf(corners_after(cs, moves)),
    decreases moves.len(),
{
    if moves.len() > 0 {
        lemma_corners_after_wf(cs, moves.drop_last());
        crate::corner::lemma_corners_turned_wf(
            corners_after(cs, moves.drop_last()),
            moves.last().spec_face(),
            moves.last().quarter_turns(),
        );
    }
}

/// A sequence without wasted moves stays one when its last move is replaced by a
/// move of the same face, and when a move follows that is of use after the last.
proof fn lemma_useful_push(s: Seq<Move>, x: Move)
    requires
        useful_sequence(s),
        s.len() == 0 || spec_follows(s.last(), x),
    ensures
        useful_sequence(s.push(x)),
{
    let r = s.push(x);
    assert forall|i: int| 0 <= i && i + 1 < r.len() implies spec_follows(#[trigger] r[i], r[i + 1]) by {
        if i + 1 < s.len() {
            assert(spec_follows(s[i], s[i + 1]));
        }
    }
}

/// A sequence without wasted moves stays one without its last move.
proof fn lemma_useful_drop_last(s: Seq<Move>)
    requires
        useful_sequence(s),
        s.len() > 0,
    ensures
        useful_sequence(s.drop_last()),
        s.len() >= 2 ==> spec_follows(s.drop_last().last(), s.last()),
{
    let r = s.drop_last();
    assert forall|i: int| 0 <= i && i + 1 < r.len() implies spec_follows(#[trigger] r[i], r[i + 1]) by {
        assert(spec_follows(s[i], s[i + 1]));
    }
    if s.len() >= 2 {
        assert(spec_follows(s[s.len() - 2], s[s.len() - 1]));
    }
}

/// Adds a move to a sequence without wasted moves whose last move is of the same
/// face or lets the move follow: the result has no wasted move and the same effect.
/// It is the sequence with the move added; or, where the last move is of the same
/// face, the sequence with the last move merged with the move, or without the last
/// move where the two cancel.
proof fn lemma_append_simple(cs: Seq<CornerPiece>, s: Seq<Move>, x: Move) -> (r: Seq<Move>)
    requires
        corners_wf(cs),
        useful_sequence(s),
        s.len() == 0 || s.last().spec_face() == x.spec_face() || spec_follows(s.last(), x),
    ensures
        useful_sequence(r),
        r.len() <= s.len() + 1,
        corners_after(cs, r) == corners_moved(corners_after(cs, s), x),
        (r.len() > 0 && r.last().spec_face() == x.spec_face()) || (s.len() > 0 && r
            == s.drop_last()),
{
    if s.len() == 0 || s.last().spec_face() != x.spec_face() {
        lemma_useful_push(s, x);
        lemma_corners_after_push(cs, s, x);
        s.push(x)
    } else {
        let l = s.last();
        let head = s.drop_last();
        let before = corners_after(cs, head);
        lemma_corners_after_wf(cs, head);
        lemma_useful_drop_last(s);
        crate::corner::lemma_corners_same_face(before, l, x);
        assert(corners_after(cs, s) == corners_moved(before, l));
        if (l.quarter_turns() + x.quarter_turns()) % 4 == 0 {
            head
        } else {
            let merged = crate::corner::merged_move(l, x);
            assert(merged.spec_face() == x.spec_face());
            if head.len() > 0 {
                assert(spec_follows(head.last(), l));
            }
            lemma_useful_push(head, merged);
            lemma_corners_after_push(cs, head, merged);
            head.push(merged)
        }
    }
}

/// Adds a move to a sequence without wasted moves: the result has no wasted move,
/// the same effect, and at most one move more.
proof fn lemma_append_useful(cs: Seq<CornerPiece>, s: Seq<Move>, x: Move) -> (r: Seq<Move>)
    requires
        corners_wf(cs),
        useful_sequence(s),
    ensures
        useful_sequence(r),
        r.len() <= s.len() + 1,
        corners_after(cs, r) == corners_moved(corners_after(cs, s), x),
    decreases s.len(),
{
    if s.len() == 0 || s.last().spec_face() == x.spec_face() || spec_follows(s.last(), x) {
        lemma_append_simple(cs, s, x)
    } else {
        let l = s.last();
        let head = s.drop_last();
        lemma_useful_drop_last(s);
        if head.len() > 0 {
            assert(spec_follows(head.last(), l));
        }
        let g = lemma_append_simple(cs, head, x);
        let before = corners_after(cs, head);
        lemma_corners_after_wf(cs, head);
        crate::corner::lemma_corners_opposite_commute(before, x, l);
        assert(corners_after(cs, s) == corners_moved(before, l));
        if g.len() > 0 && g.last().spec_face() == x.spec_face() {
            lemma_useful_push(g, l);
            lemma_corners_after_push(cs, g, l);
            g.push(l)
        } else {
            lemma_append_useful(cs, g, l)
        }
    }
}

/// Every sequence of moves has a sequence without wasted moves that has the same
/// effect and is not longer.
pub proof fn lemma_make_useful(cs: Seq<CornerPiece>, ms: Seq<Move>) -> (r: Seq<Move>)
    requires
        corners_wf(cs),
    ensures
        useful_sequence(r),
        r.len() <= ms.len(),
        corners_after(cs, r) == corners_after(cs, ms),
    decreases ms.len(),
{
    if ms.len() == 0 {
        ms
    } else {
        let head = lemma_make_useful(cs, ms.drop_last());
        lemma_append_useful(cs, head, ms.last())
    }
}

/// Wasted moves do not help: where a sequence of at most `depth` moves solves
/// corners that are not solved, a sequence without wasted moves of at most `depth`
/// moves solves them.
pub proof fn lemma_useful_suffices(cs: Seq<CornerPiece>, ms: Seq<Move>, depth: int)
    requires
        corners_wf(cs),
        cs != solved_corners(),
        ms.len() <= depth,
        corners_after(cs, ms) == solved_corners(),
    ensures
        solvable_within(cs, Seq::empty(), depth),
{
    let r = lemma_make_useful(cs, ms);
    assert(r.len() > 0) by {
        if r.len() == 0 {
            assert(corners_after(cs, r) == cs);
        }
    }
    assert(solves_usefully(cs, Seq::empty(), r, depth));
}

/// A 2x2x2 cube as the two indices in which the solver searches.
#[derive(Clone, Copy, Debug, PartialEq, Eq, Structural)]
pub struct IndexCube {
    pub corner_orientation: u16,
    pub corner_permutation: u16,
}

impl IndexCube {
    /// Both indices are indices of their coordinates.
    pub open spec fn in_range(self) -> bool {
        self.corner_orientation < 2187 && self.corner_permutation < 40320
    }

    /// The indices of an arrangement of corners.
    pub open spec fn of(cs: Seq<CornerPiece>) -> IndexCube {
        IndexCube {
            corner_orientation: corner_orientation_index(cs) as u16,
            corner_permutation: corner_permutation_index(cs) as u16,
        }
    }

    /// The indices after a move, by the move tables.
    pub open spec fn moved(self, tables: &CornerTables, mv: Move) -> IndexCube {
        IndexCube {
            corner_orientation: tables.orientation_move.entry(self.corner_orientation as int, mv) as u16,
            corner_permutation: tables.permutation_move.entry(self.corner_permutation as int, mv) as u16,
        }
    }

    /// The indices of a cube.
    pub fn new(pieces: &Cube2x2x2) -> (r: Self)
        requires
            corners_valid(pieces@),
        ensures
            r == IndexCube::of(pieces@),
            r.in_range(),
    {
        IndexCube {
            corner_orientation: pieces.corner_orientation_index(),
            corner_permutation: pieces.corner_permutation_index(),
        }
    }

    /// Looks up the indices after a move.
    pub fn do_move(&self, tables: &CornerTables, mv: Move) -> (r: Self)
        requires
            tables.wf(),
            self.in_range(),
        ensures
            r == self.moved(tables, mv),
            r.in_range(),
    {
        IndexCube {
            corner_orientation: tables.orientation_move.get(self.corner_orientation, mv),
            corner_permutation: tables.permutation_move.get(self.corner_permutation, mv),
        }
    }

    /// Whether both indices are zero.
    pub fn is_solved(&self) -> (r: bool)
        ensures
            r == (self.corner_orientation == 0 && self.corner_permutation == 0),
    {
        self.corner_orientation == 0 && self.corner_permutation == 0
    }
}

/// The indices after a move are the indices of the corners after the move.
pub proof fn lemma_index_cube_step(tables: &CornerTables, cs: Seq<CornerPiece>, mv: Move)
    requires
        tables.wf(),
        corners_valid(cs),
    ensures
        IndexCube::of(cs).in_range(),
        IndexCube::of(cs).moved(tables, mv) == IndexCube::of(corners_moved(cs, mv)),
        IndexCube::of(corners_moved(cs, mv)).corner_orientation == corner_orientation_index(
            corners_moved(cs, mv),
        ),
        IndexCube::of(corners_moved(cs, mv)).corner_permutation == corner_permutation_index(
            corners_moved(cs, mv),
        ),
        corners_valid(corners_moved(cs, mv)),
{
    let p = Pieces3x3x3 { corners: cs, edges: solved_edges() };
    lemma_solved_edges_valid();
    lemma_table_follows(&tables.orientation_move, p, mv);
    lemma_table_follows(&tables.permutation_move, p, mv);
    crate::corner::lemma_corners_turned_valid(cs, mv.spec_face(), mv.quarter_turns());
}

/// The corners after a sequence of moves and one more move.
pub proof fn lemma_corners_after_push(cs: Seq<CornerPiece>, moves: Seq<Move>, mv: Move)
    ensures
        corners_after(cs, moves.push(mv)) == corners_moved(corners_after(cs, moves), mv),
{
    assert(moves.push(mv).drop_last() =~= moves);
}

/// The state of a search for a solution of a 2x2x2 cube.
pub struct Solver<'a> {
    pub tables: &'a CornerTables,
    pub initial_state: Cube2x2x2,
    pub moves: Vec<Move>,
    pub max_moves: usize,
    pub solution: Option<Vec<Move>>,
}

impl<'a> Solver<'a> {
    /// The corners after the moves made so far.
    pub open spec fn now(&self) -> Seq<CornerPiece> {
        corners_after(self.initial_state@, self.moves@)
    }

    /// The tables are well formed, the cube is one that legal moves reach, the moves
    /// made are within the limit and none of them is wasted, and what has been
    /// found solves the cube within the limit with no wasted move.
    pub open spec fn wf(&self) -> bool {
        &&& self.tables.wf()
        &&& corners_valid(self.initial_state@)
        &&& self.max_moves == MAX_SOLUTION_MOVES_2X2X2
        &&& self.moves@.len() <= self.max_moves
        &&& useful_sequence(self.moves@)
        &&& match self.solution {
            Some(solution) => corners_after(self.initial_state@, solution@) == solved_corners()
                && solution@.len() <= self.max_moves && useful_sequence(solution@),
            None => true,
        }
    }

    pub fn new(cube: &Cube2x2x2, tables: &'a CornerTables) -> (r: Self)
        ensures
            r.initial_state@ == cube@,
            r.tables == tables,
            r.moves@.len() == 0,
            r.solution is None,
            r.max_moves == MAX_SOLUTION_MOVES_2X2X2,
    {
        Solver {
            tables,
            initial_state: *cube,
            moves: Vec::new(),
            max_moves: MAX_SOLUTION_MOVES_2X2X2,
            solution: None,
        }
    }

    /// Tries every sequence of up to `depth` moves without wasted moves that
    /// continues the moves made so far from the state `cube`, and stops at the first
    /// that brings both indices to zero, which solves the cube. A solution is found
    /// exactly where such a sequence solves the cube. The moves made so far are the
    /// same when it returns.
    pub fn search(&mut self, cube: IndexCube, depth: usize)
        requires
            old(self).wf(),
            cube == IndexCube::of(old(self).now()),
            1 <= depth,
            old(self).moves@.len() + depth <= old(self).max_moves,
            old(self).solution is None,
        ensures
            final(self).wf(),
            final(self).moves@ == old(self).moves@,
            final(self).initial_state == old(self).initial_state,
            final(self).tables == old(self).tables,
            final(self).solution is Some <==> solvable_within(
                old(self).now(),
                old(self).moves@,
                depth as int,
            ),
            final(self).solution matches Some(solution) ==> solution@.len() <= old(self).moves@.len()
                + depth,
            final(self).solution matches Some(solution) ==> exists|ms: Seq<Move>|
                solution@ == old(self).moves@ + ms && #[trigger] first_solution(
                    old(self).now(),
                    old(self).moves@,
                    ms,
                    depth as int,
                ),
        decreases depth,
    {
        proof {
            lemma_corners_after_valid(self.initial_state@, self.moves@);
            lemma_solved_indices();
        }
        let ghost now = self.now();
        let ghost made = self.moves@;
        let mut m: usize = 0;
        while m < 18 && self.solution.is_none()
            invariant
                m <= 18,
                self.wf(),
                now == self.now(),
                made == self.moves@,
                cube == IndexCube::of(now),
                corners_valid(now),
                1 <= depth,
                made.len() + depth <= self.max_moves,
                self.moves@ == old(self).moves@,
                self.initial_state == old(self).initial_state,
                self.tables == old(self).tables,
                self.solution is None ==> forall|ms: Seq<Move>| #[trigger]
                    solves_usefully(now, made, ms, depth as int) ==> ms[0].spec_index() >= m,
                self.solution is Some ==> solvable_within(now, made, depth as int),
                self.solution matches Some(solution) ==> solution@.len() <= made.len() + depth,
                self.solution matches Some(solution) ==> exists|ms: Seq<Move>|
                    solution@ == made + ms && #[trigger] first_solution(
                        now,
                        made,
                        ms,
                        depth as int,
                    ),
            decreases 18 - m,
        {
            let mv = match Move::from_index(m) {
                Some(mv) => mv,
                None => Move::U,
            };
            proof {
                crate::common::lemma_move_at_index(m as int);
                assert(forall|ms: Seq<Move>| #[trigger]
                    solves_usefully(now, made, ms, depth as int) ==> ms[0].spec_index()
                        >= mv.spec_index());
            }
            let useful = if self.moves.len() == 0 {
                true
            } else {
                follows(self.moves[self.moves.len() - 1], mv)
            };
            let ghost after = corners_moved(now, mv);
            let ghost mut tried = false;
            if useful {
                proof {
                    lemma_index_cube_step(self.tables, now, mv);
                    lemma_corners_after_push(self.initial_state@, made, mv);
                }
                let new_cube = cube.do_move(self.tables, mv);
                if new_cube.is_solved() {
                    let mut candidate = copy_moves(&self.moves);
                    candidate.push(mv);
                    proof {
                        lemma_corners_goal(after);
                        assert(useful_sequence(candidate@)) by {
                            assert forall|i: int|
                                0 <= i && i + 1 < candidate@.len() implies spec_follows(
                                #[trigger] candidate@[i],
                                candidate@[i + 1],
                            ) by {
                                if i + 1 < made.len() {
                                    assert(spec_follows(made[i], made[i + 1]));
                                }
                            }
                        }
                        let single = seq![mv];
                        lemma_corners_after_single(now, mv);
                        assert(solves_usefully(now, made, single, depth as int));
                        lemma_first_single(now, made, mv, depth as int);
                        assert(candidate@ =~= made + single);
                    }
                    self.solution = Some(candidate);
                } else if depth > 1 && self.tables.orientation_prune.get(
                    new_cube.corner_orientation,
                    0,
                ) < depth && self.tables.permutation_prune.get(new_cube.corner_permutation, 0)
                    < depth {
                    proof {
                        assert(useful_sequence(made.push(mv))) by {
                            assert forall|i: int|
                                0 <= i && i + 1 < made.push(mv).len() implies spec_follows(
                                #[trigger] made.push(mv)[i],
                                made.push(mv)[i + 1],
                            ) by {
                                if i + 1 < made.len() {
                                    assert(spec_follows(made[i], made[i + 1]));
                                }
                            }
                        }
                    }
                    self.moves.push(mv);
                    self.search(new_cube, depth - 1);
                    self.moves.pop();
                    assert(self.moves@ =~= made);
                    proof {
                        tried = true;
                        if self.solution is Some {
                            let solution = self.solution->Some_0@;
                            let tail = choose|tail: Seq<Move>|
                                solution == made.push(mv) + tail && #[trigger] first_solution(
                                    after,
                                    made.push(mv),
                                    tail,
                                    depth - 1,
                                );
                            lemma_solves_with_first(now, made, mv, tail, depth as int);
                            lemma_solved_indices();
                            lemma_first_with_first(now, made, mv, tail, depth as int);
                            assert(solution =~= made + (seq![mv] + tail));
                        }
                    }
                }
            }
            proof {
                if self.solution is None {
                    assert forall|ms: Seq<Move>| #[trigger]
                        solves_usefully(now, made, ms, depth as int) implies ms[0].spec_index()
                        >= m + 1 by {
                        if ms[0].spec_index() == m {
                            crate::common::lemma_move_index_round_trip(ms[0]);
                            assert(ms[0] == mv);
                            assert(useful);
                            if ms.len() == 1 {
                                assert(ms =~= seq![mv]);
                                lemma_corners_after_single(now, mv);
                                lemma_solved_indices();
                                lemma_index_cube_step(self.tables, now, mv);
                                assert(false);
                            } else {
                                let tail = ms.subrange(1, ms.len() as int);
                                lemma_solves_without_first(now, made, ms, depth as int);
                                if tried {
                                    assert(solvable_within(after, made.push(mv), depth - 1));
                                    assert(false);
                                } else {
                                    lemma_corner_bounds(self.tables, after, tail);
                                    assert(false);
                                }
                            }
                        }
                    }
                }
            }
            m += 1;
        }
    }

    /// Searches with growing depth until a solution is found or the limit is
    /// reached.
    pub fn solve(self) -> (r: Option<Vec<Move>>)
        requires
            self.tables.wf(),
            self.moves@.len() == 0,
            self.solution is None,
            self.max_moves == MAX_SOLUTION_MOVES_2X2X2,
        ensures
            answers_2x2x2(self.initial_state@, r),
    {
        let mut solver = self;
        if !solver.initial_state.is_valid() {
            proof {
                crate::corner::lemma_solved_corners_valid();
            }
            return None;
        }
        if solver.initial_state.is_solved() {
            let empty: Vec<Move> = Vec::new();
            assert(corners_after(solver.initial_state@, empty@) == solved_corners());
            return Some(empty);
        }
        let cube = IndexCube::new(&solver.initial_state);
        assert(solver.now() == solver.initial_state@);
        assert(solver.moves@ =~= Seq::<Move>::empty());
        let mut depth: usize = 1;
        while depth <= solver.max_moves && solver.solution.is_none()
            invariant
                1 <= depth <= MAX_SOLUTION_MOVES_2X2X2 + 1,
                solver.wf(),
                cube == IndexCube::of(solver.now()),
                solver.now() == self.initial_state@,
                solver.moves@ == Seq::<Move>::empty(),
                solver.initial_state == self.initial_state,
                solver.solution is None ==> !solvable_within(
                    self.initial_state@,
                    Seq::empty(),
                    depth - 1,
                ),
                solver.solution matches Some(solution) ==> solution@.len() <= depth - 1
                    && !solvable_within(self.initial_state@, Seq::empty(), depth - 2),
                solver.solution matches Some(solution) ==> first_solution(
                    self.initial_state@,
                    Seq::empty(),
                    solution@,
                    depth - 1,
                ),
            decreases MAX_SOLUTION_MOVES_2X2X2 + 1 - depth,
        {
            solver.search(cube, depth);
            proof {
                if solver.solution is Some {
                    let solution = solver.solution->Some_0@;
                    let ms = choose|ms: Seq<Move>|
                        solution == Seq::<Move>::empty() + ms && #[trigger] first_solution(
                            self.initial_state@,
                            Seq::empty(),
                            ms,
                            depth as int,
                        );
                    assert(Seq::<Move>::empty() + ms =~= ms);
                }
            }
            depth += 1;
        }
        proof {
            let cs = self.initial_state@;
            if solver.solution is Some {
                let solution = solver.solution->Some_0;
                assert forall|ms: Seq<Move>| #[trigger]
                    corners_after(cs, ms) == solved_corners() implies solution@.len()
                    <= ms.len() by {
                    if ms.len() < solution@.len() {
                        lemma_useful_suffices(cs, ms, solution@.len() - 1);
                        lemma_solvable_grows(cs, Seq::empty(), solution@.len() - 1, depth - 2);
                    }
                }
                assert forall|other: Seq<Move>|
                    useful_sequence(other) && #[trigger] corners_after(cs, other)
                        == solved_corners() && other.len() == solution@.len() implies !precedes(
                    other,
                    solution@,
                ) by {
                    assert(solves_usefully(cs, Seq::empty(), other, depth - 1));
                }
            } else {
                assert forall|ms: Seq<Move>|
                    ms.len() <= MAX_SOLUTION_MOVES_2X2X2 implies #[trigger] corners_after(cs, ms)
                    != solved_corners() by {
                    if corners_after(cs, ms) == solved_corners() {
                        lemma_useful_suffices(cs, ms, MAX_SOLUTION_MOVES_2X2X2 as int);
                    }
                }
            }
        }
        solver.solution
    }
}

/// What a smaller number of moves can solve, a larger number can.
pub proof fn lemma_solvable_grows(cs: Seq<CornerPiece>, made: Seq<Move>, small: int, large: int)
    requires
        small <= large,
        solvable_within(cs, made, small),
    ensures
        solvable_within(cs, made, large),
{
    let ms = choose|ms: Seq<Move>| #[trigger] solves_usefully(cs, made, ms, small);
    assert(solves_usefully(cs, made, ms, large));
}

impl Cube2x2x2 {
    /// Finds a shortest sequence of moves that solves the cube, with tables that
    /// the caller keeps. A cube that no legal moves reach has no solution.
    pub fn solve_with(&self, tables: &CornerTables) -> (r: Option<Vec<Move>>)
        requires
            tables.wf(),
        ensures
            answers_2x2x2(self@, r),
    {
        Solver::new(self, tables).solve()
    }

    /// Finds a shortest sequence of moves that solves the cube.
    pub fn solve(&self) -> (r: Option<Vec<Move>>)
        ensures
            answers_2x2x2(self@, r),
    {
        let tables = CornerTables::new();
        self.solve_with(&tables)
    }

    /// Finds a sequence of moves that solves the cube. For the 2x2x2 cube the
    /// search is small enough for this to be the search for a shortest one.
    pub fn solve_fast(&self) -> (r: Option<Vec<Move>>)
        ensures
            answers_2x2x2(self@, r),
    {
        let tables = CornerTables::new();
        self.solve_with(&tables)
    }
}

/// Generates a random scramble: the inverse of the answer of the solver to a random
/// state. The scramble is empty where the solver finds no solution.
pub fn scramble_2x2x2() -> (r: Vec<Move>)
    ensures
        r@.len() <= MAX_SOLUTION_MOVES_2X2X2,
        exists|state: Seq<CornerPiece>| #[trigger]
            corners_valid(state) && corners_after(state, inverse_sequence(r@))
                == solved_corners(),
        exists|state: Seq<CornerPiece>, solution: Option<Vec<Move>>|
            corners_valid(state) && #[trigger] answers_2x2x2(state, solution) && (match solution {
                Some(solution) => r@ == inverse_sequence(solution@),
                None => r@.len() == 0,
            }),
{
    let state = Cube2x2x2::random();
    let answer = state.solve();
    let scramble = match &answer {
        Some(solution) => {
            let scramble = inverse_moves(solution);
            proof {
                assert(inverse_sequence(scramble@) =~= solution@) by {
                    crate::common::lemma_inverse_sequence_twice(solution@);
                }
                assert(corners_valid(state@) && corners_after(state@, inverse_sequence(scramble@))
                    == solved_corners());
            }
            scramble
        },
        None => {
            let scramble: Vec<Move> = Vec::new();
            proof {
                crate::corner::lemma_solved_corners_valid();
                assert(inverse_sequence(scramble@) =~= Seq::<Move>::empty());
                assert(corners_valid(solved_corners()) && corners_after(
                    solved_corners(),
                    inverse_sequence(scramble@),
                ) == solved_corners());
            }
            scramble
        },
    };
    proof {
        assert(corners_valid(state@) && answers_2x2x2(state@, answer) && (match answer {
            Some(solution) => scramble@ == inverse_sequence(solution@),
            None => scramble@.len() == 0,
        }));
    }
    scramble
}

/// What holds of the answer of the solver to the colors of a cube: a solution is a
/// solution of the corners that the colors show, and there is none where the colors
/// show no corners or the solver has none for the corners.
pub open spec fn answers_2x2x2_faces(f: Seq<Color>, r: Option<Vec<Move>>) -> bool {
    match r {
        Some(_) => exists|cs: Seq<CornerPiece>| #[trigger]
            small_decodes_to(f, cs) && answers_2x2x2(cs, r),
        None => forall|cs: Seq<CornerPiece>| #[trigger]
            small_decodes_to(f, cs) ==> answers_2x2x2(cs, r),
    }
}

impl Cube2x2x2Faces {
    /// Finds a shortest solution of the corners that the colors show, with tables
    /// that the caller keeps. Colors that show no corners have no solution.
    pub fn solve_with(&self, tables: &CornerTables) -> (r: Option<Vec<Move>>)
        requires
            tables.wf(),
        ensures
            answers_2x2x2_faces(self@, r),
    {
        match self.as_pieces() {
            Ok(pieces) => {
                let r = pieces.solve_with(tables);
                proof {
                    assert(small_decodes_to(self@, pieces@) && answers_2x2x2(pieces@, r));
                    assert forall|cs: Seq<CornerPiece>| #[trigger]
                        small_decodes_to(self@, cs) implies cs == pieces@ by {
                        lemma_small_decoding_unique(self@, cs, pieces@);
                    }
                }
                r
            },
            Err(_) => {
                proof {
                    assert forall|cs: Seq<CornerPiece>| !#[trigger] small_decodes_to(
                        self@,
                        cs,
                    ) by {
                        if small_decodes_to(self@, cs) {
                            lemma_small_shown_everywhere(self@, cs);
                        }
                    }
                }
                None
            },
        }
    }

    /// Finds a shortest solution of the corners that the colors show.
    pub fn solve(&self) -> (r: Option<Vec<Move>>)
        ensures
            answers_2x2x2_faces(self@, r),
    {
        let tables = CornerTables::new();
        self.solve_with(&tables)
    }

    /// Finds a shortest solution of the corners that the colors show.
    pub fn solve_fast(&self) -> (r: Option<Vec<Move>>)
        ensures
            answers_2x2x2_faces(self@, r),
    {
        let tables = CornerTables::new();
        self.solve_with(&tables)
    }
}

} // verus!

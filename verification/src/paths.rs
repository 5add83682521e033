use crate::common::Move;
use crate::corner::{corner_orientation_index, corner_permutation_index};
use crate::cube3x3x3::Pieces3x3x3;
use crate::edge::{
    edge_orientation_index, equatorial_edge_slice_index, phase_2_edge_permutation_index,
    phase_2_equatorial_edge_permutation_index,
};
use crate::prune::spec_is_phase_2_move;
use crate::solver2x2x2::{may_follow, precedes, spec_follows, useful_sequence};
use crate::tables::Tables3x3x3;
use crate::tracking::{
    in_subgroup, lemma_coordinate_follows, lemma_phase_1_goal, lemma_prune_admissible,
    lemma_solved_indices, lemma_subgroup_move,
};
use vstd::prelude::*;

verus! {

/// Largest number of moves of a solution that the two-phase search looks for.
pub open spec fn move_limit() -> int {
    30
}

/// Whether every move of a sequence is a move of the second phase.
pub open spec fn phase_2_sequence(qs: Seq<Move>) -> bool {
    forall|i: int| 0 <= i < qs.len() ==> spec_is_phase_2_move(#[trigger] qs[i])
}

/// Whether a state is in the goal of the first phase: its corner orientation index,
/// edge orientation index and slice index are zero.
pub open spec fn reaches_goal(p: Pieces3x3x3) -> bool {
    &&& corner_orientation_index(p.corners) == 0
    &&& edge_orientation_index(p.edges) == 0
    &&& equatorial_edge_slice_index(p.edges) == 0
}

/// Whether the moves `qs` finish the second phase from the state `p`: they are at
/// most `depth` moves of the second phase, none of them wasted, the first being of
/// use after the moves `made`, and they solve the state.
pub open spec fn finishes(p: Pieces3x3x3, made: Seq<Move>, qs: Seq<Move>, depth: int) -> bool {
    &&& qs.len() <= depth
    &&& useful_sequence(qs)
    &&& phase_2_sequence(qs)
    &&& qs.len() > 0 ==> may_follow(made, qs[0])
    &&& p.after(qs) == Pieces3x3x3::solved()
}

/// Whether some moves finish the second phase from the state `p` within `depth`
/// moves.
pub open spec fn finishable_within(p: Pieces3x3x3, made: Seq<Move>, depth: int) -> bool {
    exists|qs: Seq<Move>| #[trigger] finishes(p, made, qs, depth)
}

/// Whether the moves `ps` are a path of the first phase from the state `p`: none of
/// them is wasted, the first is of use after the moves `made`, they lead into the
/// goal of the first phase, and the last move is no move of the second phase. No
/// moves are such a path where `p` is in the goal.
pub open spec fn reduces(p: Pieces3x3x3, made: Seq<Move>, ps: Seq<Move>) -> bool {
    &&& useful_sequence(ps)
    &&& ps.len() > 0 ==> may_follow(made, ps[0]) && !spec_is_phase_2_move(ps.last())
    &&& reaches_goal(p.after(ps))
}

/// Whether the moves `ps` and then the moves `qs` are a two-phase path from the
/// state `p`: a path of the first phase and moves that finish the second phase from
/// where it ends.
pub open spec fn two_phase(p: Pieces3x3x3, made: Seq<Move>, ps: Seq<Move>, qs: Seq<Move>) -> bool {
    reduces(p, made, ps) && finishes(p.after(ps), made + ps, qs, move_limit())
}

/// Whether the two-phase search can solve a state: a two-phase path does whose
/// first phase has at most 12 moves and which is within the limit.
pub open spec fn two_phase_solvable(p: Pieces3x3x3) -> bool {
    exists|ps: Seq<Move>, qs: Seq<Move>| #[trigger]
        two_phase(p, Seq::empty(), ps, qs) && ps.len() <= 12 && ps.len() + qs.len()
            <= move_limit()
}

/// The state after a sequence of one move.
pub proof fn lemma_after_single(p: Pieces3x3x3, mv: Move)
    ensures
        p.after(seq![mv]) == p.moved(mv),
{
    reveal_with_fuel(crate::corner::corners_after, 2);
    reveal_with_fuel(crate::edge::edges_after, 2);
    assert(seq![mv].drop_last() =~= Seq::<Move>::empty());
}

/// The state after no move.
pub proof fn lemma_after_none(p: Pieces3x3x3)
    ensures
        p.after(Seq::empty()) == p,
{
}

/// The state after a move and a sequence of moves.
pub proof fn lemma_after_prepend(p: Pieces3x3x3, mv: Move, tail: Seq<Move>)
    ensures
        p.after(seq![mv] + tail) == p.moved(mv).after(tail),
    decreases tail.len(),
{
    let ms = seq![mv] + tail;
    if tail.len() == 0 {
        assert(ms =~= seq![mv]);
        lemma_after_single(p, mv);
    } else {
        lemma_after_prepend(p, mv, tail.drop_last());
        assert(ms.drop_last() =~= seq![mv] + tail.drop_last());
        assert(ms.last() == tail.last());
    }
}

/// A sequence without wasted moves stays one without its first move.
pub proof fn lemma_useful_tail(ms: Seq<Move>)
    requires
        useful_sequence(ms),
        ms.len() >= 1,
    ensures
        useful_sequence(ms.subrange(1, ms.len() as int)),
        ms.len() >= 2 ==> spec_follows(ms[0], ms[1]),
{
    let tail = ms.subrange(1, ms.len() as int);
    assert forall|i: int| 0 <= i && i + 1 < tail.len() implies spec_follows(
        #[trigger] tail[i],
        tail[i + 1],
    ) by {
        assert(spec_follows(ms[i + 1], ms[i + 2]));
    }
    if ms.len() >= 2 {
        assert(spec_follows(ms[0], ms[1]));
    }
}

/// A move that lets a sequence without wasted moves follow makes, put in front, a
/// sequence without wasted moves.
pub proof fn lemma_useful_prepend(mv: Move, tail: Seq<Move>)
    requires
        useful_sequence(tail),
        tail.len() > 0 ==> spec_follows(mv, tail[0]),
    ensures
        useful_sequence(seq![mv] + tail),
{
    let ms = seq![mv] + tail;
    assert forall|i: int| 0 <= i && i + 1 < ms.len() implies spec_follows(
        #[trigger] ms[i],
        ms[i + 1],
    ) by {
        if i > 0 {
            assert(spec_follows(tail[i - 1], tail[i]));
        }
    }
}

/// Moves that finish with at least one move finish, without the first move, from the
/// state after that move.
pub proof fn lemma_finishes_without_first(
    p: Pieces3x3x3,
    made: Seq<Move>,
    qs: Seq<Move>,
    depth: int,
)
    requires
        finishes(p, made, qs, depth),
        qs.len() >= 1,
    ensures
        spec_is_phase_2_move(qs[0]),
        may_follow(made, qs[0]),
        finishes(p.moved(qs[0]), made.push(qs[0]), qs.subrange(1, qs.len() as int), depth - 1),
{
    let tail = qs.subrange(1, qs.len() as int);
    assert(qs =~= seq![qs[0]] + tail);
    lemma_after_prepend(p, qs[0], tail);
    lemma_useful_tail(qs);
    assert(made.push(qs[0]).last() == qs[0]);
    assert forall|i: int| 0 <= i < tail.len() implies spec_is_phase_2_move(#[trigger] tail[i]) by {
        assert(spec_is_phase_2_move(qs[i + 1]));
    }
}

/// A move of the second phase that is of use, followed by moves that finish from the
/// state after it, finishes.
pub proof fn lemma_finishes_with_first(
    p: Pieces3x3x3,
    made: Seq<Move>,
    mv: Move,
    tail: Seq<Move>,
    depth: int,
)
    requires
        may_follow(made, mv),
        spec_is_phase_2_move(mv),
        finishes(p.moved(mv), made.push(mv), tail, depth - 1),
    ensures
        finishes(p, made, seq![mv] + tail, depth),
{
    let qs = seq![mv] + tail;
    lemma_after_prepend(p, mv, tail);
    assert(made.push(mv).last() == mv);
    lemma_useful_prepend(mv, tail);
    assert forall|i: int| 0 <= i < qs.len() implies spec_is_phase_2_move(#[trigger] qs[i]) by {
        if i > 0 {
            assert(spec_is_phase_2_move(tail[i - 1]));
        }
    }
}

/// Whether the moves `qs` are the first to which the search comes of those that
/// finish the second phase from the state `p` within `depth` moves.
#[verifier::opaque]
pub open spec fn first_finish(p: Pieces3x3x3, made: Seq<Move>, qs: Seq<Move>, depth: int) -> bool {
    &&& finishes(p, made, qs, depth)
    &&& forall|other: Seq<Move>| #[trigger] finishes(p, made, other, depth) ==> !precedes(other, qs)
}

/// Whether the moves `qs` finish the second phase from the state `p` with the fewest
/// moves, and are of the moves that do so the first to which the search comes.
#[verifier::opaque]
pub open spec fn first_shortest_finish(p: Pieces3x3x3, made: Seq<Move>, qs: Seq<Move>) -> bool {
    &&& finishes(p, made, qs, move_limit())
    &&& forall|other: Seq<Move>| #[trigger]
        finishes(p, made, other, move_limit()) ==> qs.len() < other.len() || (qs.len()
            == other.len() && !precedes(other, qs))
}

/// Whether all moves that finish the second phase from the state `p` within `depth`
/// moves begin with a move of no smaller number than `mv`.
#[verifier::opaque]
pub open spec fn none_finish_before(
    p: Pieces3x3x3,
    made: Seq<Move>,
    depth: int,
    mv: Move,
) -> bool {
    forall|qs: Seq<Move>| #[trigger]
        finishes(p, made, qs, depth) ==> qs.len() >= 1 && qs[0].spec_index() >= mv.spec_index()
}

/// The first of the moves that finish with the fewest moves finish.
pub proof fn lemma_first_shortest_finishes(p: Pieces3x3x3, made: Seq<Move>, qs: Seq<Move>)
    requires
        first_shortest_finish(p, made, qs),
    ensures
        finishes(p, made, qs, move_limit()),
{
    reveal(first_shortest_finish);
}

/// No moves are the first to finish from the solved state.
pub proof fn lemma_first_finish_none(p: Pieces3x3x3, made: Seq<Move>, depth: int)
    requires
        finishes(p, made, Seq::empty(), depth),
    ensures
        first_finish(p, made, Seq::empty(), depth),
{
    reveal(first_finish);
}

/// A move, and after it the first moves to finish from the state after the move, are
/// the first to finish where no moves that finish begin with a move of a smaller
/// number and none are no moves at all.
pub proof fn lemma_first_finish_with_first(
    p: Pieces3x3x3,
    made: Seq<Move>,
    mv: Move,
    tail: Seq<Move>,
    depth: int,
)
    requires
        may_follow(made, mv),
        spec_is_phase_2_move(mv),
        first_finish(p.moved(mv), made.push(mv), tail, depth - 1),
        none_finish_before(p, made, depth, mv),
    ensures
        first_finish(p, made, seq![mv] + tail, depth),
{
    reveal(first_finish);
    reveal(none_finish_before);
    let found = seq![mv] + tail;
    lemma_finishes_with_first(p, made, mv, tail, depth);
    assert(found.skip(1) =~= tail);
    assert(found[0] == mv);
    assert forall|other: Seq<Move>| #[trigger] finishes(p, made, other, depth) implies !precedes(
        other,
        found,
    ) by {
        assert(other.len() >= 1 && other[0].spec_index() >= mv.spec_index());
        if other[0] == mv {
            lemma_finishes_without_first(p, made, other, depth);
            assert(other.skip(1) =~= other.subrange(1, other.len() as int));
            assert(!precedes(other.skip(1), tail));
        }
    }
}

/// The first moves to finish within a depth within which no fewer moves finish are
/// the first of the moves that finish with the fewest moves.
pub proof fn lemma_first_shortest_finish(p: Pieces3x3x3, made: Seq<Move>, qs: Seq<Move>, depth: int)
    requires
        first_finish(p, made, qs, depth),
        !finishable_within(p, made, depth - 1),
        depth <= move_limit(),
    ensures
        first_shortest_finish(p, made, qs),
        qs.len() == depth,
{
    reveal(first_finish);
    reveal(first_shortest_finish);
    if qs.len() < depth {
        assert(finishes(p, made, qs, depth - 1));
    }
    assert forall|other: Seq<Move>| #[trigger] finishes(p, made, other, move_limit()) implies qs.len()
        < other.len() || (qs.len() == other.len() && !precedes(other, qs)) by {
        if other.len() < depth {
            assert(finishes(p, made, other, depth - 1));
        }
        if other.len() == depth {
            assert(finishes(p, made, other, depth));
        }
    }
}

/// A two-phase path whose first phase has at least two moves is, without its first
/// move, a two-phase path from the state after that move.
pub proof fn lemma_two_phase_without_first(
    p: Pieces3x3x3,
    made: Seq<Move>,
    ps: Seq<Move>,
    qs: Seq<Move>,
)
    requires
        two_phase(p, made, ps, qs),
        ps.len() >= 2,
    ensures
        may_follow(made, ps[0]),
        two_phase(p.moved(ps[0]), made.push(ps[0]), ps.subrange(1, ps.len() as int), qs),
{
    let mv = ps[0];
    let tail = ps.subrange(1, ps.len() as int);
    assert(ps =~= seq![mv] + tail);
    lemma_after_prepend(p, mv, tail);
    lemma_useful_tail(ps);
    assert(made.push(mv).last() == mv);
    assert(tail.last() == ps.last());
    assert(made + ps =~= made.push(mv) + tail);
}

/// The two-phase path of one move: the move is of use and no move of the second
/// phase, and the state after it is in the goal of the first phase.
pub proof fn lemma_two_phase_single(p: Pieces3x3x3, made: Seq<Move>, ps: Seq<Move>, qs: Seq<Move>)
    requires
        two_phase(p, made, ps, qs),
        ps.len() == 1,
    ensures
        may_follow(made, ps[0]),
        !spec_is_phase_2_move(ps[0]),
        reaches_goal(p.moved(ps[0])),
        finishes(p.moved(ps[0]), made.push(ps[0]), qs, move_limit()),
{
    assert(ps =~= seq![ps[0]]);
    lemma_after_single(p, ps[0]);
    assert(made + ps =~= made.push(ps[0]));
}

/// The prune tables of the second phase never overestimate: moves of the second
/// phase that solve a state of the phase are at least as many as each table says.
pub proof fn lemma_phase_2_bounds(tables: &Tables3x3x3, p: Pieces3x3x3, qs: Seq<Move>)
    requires
        tables.wf(),
        in_subgroup(p),
        phase_2_sequence(qs),
        p.after(qs) == Pieces3x3x3::solved(),
    ensures
        tables.corner_edge_permutation_prune.entry(
            corner_permutation_index(p.corners) * 24 + phase_2_equatorial_edge_permutation_index(
                p.edges,
            ),
        ) <= qs.len(),
        tables.phase_2_edge_permutation_prune.entry(
            phase_2_edge_permutation_index(p.edges) * 24
                + phase_2_equatorial_edge_permutation_index(p.edges),
        ) <= qs.len(),
{
    lemma_solved_indices();
    lemma_prune_admissible(
        &tables.corner_edge_permutation_prune,
        &tables.corners.permutation_move,
        Some(&tables.phase_2_equatorial_edge_permutation_move),
        true,
        p,
        qs,
    );
    lemma_prune_admissible(
        &tables.phase_2_edge_permutation_prune,
        &tables.phase_2_edge_permutation_move,
        Some(&tables.phase_2_equatorial_edge_permutation_move),
        true,
        p,
        qs,
    );
}

/// The prune tables of the first phase never overestimate: moves that bring a state
/// to the goal of the first phase are at least as many as each table says.
pub proof fn lemma_phase_1_bounds(tables: &Tables3x3x3, p: Pieces3x3x3, ms: Seq<Move>)
    requires
        tables.wf(),
        p.valid(),
        reaches_goal(p.after(ms)),
    ensures
        tables.combined_orientation_prune.entry(
            corner_orientation_index(p.corners) * 2048 + edge_orientation_index(p.edges),
        ) <= ms.len(),
        tables.corner_orientation_edge_slice_prune.entry(
            corner_orientation_index(p.corners) * 495 + equatorial_edge_slice_index(p.edges),
        ) <= ms.len(),
        tables.edge_orientation_prune.entry(
            edge_orientation_index(p.edges) * 495 + equatorial_edge_slice_index(p.edges),
        ) <= ms.len(),
{
    lemma_prune_admissible(
        &tables.combined_orientation_prune,
        &tables.corners.orientation_move,
        Some(&tables.edge_orientation_move),
        false,
        p,
        ms,
    );
    lemma_prune_admissible(
        &tables.corner_orientation_edge_slice_prune,
        &tables.corners.orientation_move,
        Some(&tables.equatorial_edge_slice_move),
        false,
        p,
        ms,
    );
    lemma_prune_admissible(
        &tables.edge_orientation_prune,
        &tables.edge_orientation_move,
        Some(&tables.equatorial_edge_slice_move),
        false,
        p,
        ms,
    );
}

/// The prune table of the corner permutation never overestimates: moves that solve a
/// state are at least as many as the table says.
pub proof fn lemma_corner_permutation_bound(tables: &Tables3x3x3, p: Pieces3x3x3, ms: Seq<Move>)
    requires
        tables.wf(),
        p.valid(),
        p.after(ms) == Pieces3x3x3::solved(),
    ensures
        tables.corners.permutation_prune.entry(corner_permutation_index(p.corners)) <= ms.len(),
{
    lemma_solved_indices();
    lemma_prune_admissible(
        &tables.corners.permutation_prune,
        &tables.corners.permutation_move,
        None,
        false,
        p,
        ms,
    );
    assert(corner_permutation_index(p.corners) * 1 + 0 == corner_permutation_index(p.corners));
}

/// The state after two sequences of moves, one after the other.
pub proof fn lemma_after_concat(p: Pieces3x3x3, first: Seq<Move>, second: Seq<Move>)
    ensures
        p.after(first + second) == p.after(first).after(second),
    decreases second.len(),
{
    if second.len() == 0 {
        assert(first + second =~= first);
    } else {
        lemma_after_concat(p, first, second.drop_last());
        assert((first + second).drop_last() =~= first + second.drop_last());
        assert((first + second).last() == second.last());
    }
}

/// Whether a two-phase path within the limit of moves has, after the moves `made`,
/// the first phase `ps`.
pub open spec fn opens(p: Pieces3x3x3, made: Seq<Move>, ps: Seq<Move>) -> bool {
    exists|qs: Seq<Move>| #[trigger]
        two_phase(p, made, ps, qs) && made.len() + ps.len() + qs.len() <= move_limit()
}

/// Whether the moves `ps` are, of the first phases of `depth` moves that two-phase
/// paths within the limit have after the moves `made`, the first to which the
/// search comes.
#[verifier::opaque]
pub open spec fn first_opening(p: Pieces3x3x3, made: Seq<Move>, ps: Seq<Move>, depth: int) -> bool {
    &&& ps.len() == depth
    &&& opens(p, made, ps)
    &&& forall|other: Seq<Move>|
        other.len() == depth && #[trigger] opens(p, made, other) ==> !precedes(other, ps)
}

/// Whether no first phase of `depth` moves that a two-phase path within the limit
/// has after the moves `made` begins with a move of a smaller number than `mv`.
#[verifier::opaque]
pub open spec fn none_before(p: Pieces3x3x3, made: Seq<Move>, depth: int, mv: Move) -> bool {
    forall|other: Seq<Move>|
        other.len() == depth && #[trigger] opens(p, made, other) ==> other[0].spec_index()
            >= mv.spec_index()
}

/// No moves are the first opening from a state in the goal of the first phase from
/// which moves finish within the limit.
pub proof fn lemma_first_opening_none(p: Pieces3x3x3, qs: Seq<Move>)
    requires
        reaches_goal(p),
        finishes(p, Seq::empty(), qs, move_limit()),
    ensures
        first_opening(p, Seq::empty(), Seq::empty(), 0),
{
    reveal(first_opening);
    let none = Seq::<Move>::empty();
    lemma_after_none(p);
    assert(none + none =~= none);
    assert(two_phase(p, none, none, qs) && none.len() + none.len() + qs.len() <= move_limit());
}

/// The search comes to no sequence of moves before itself.
pub proof fn lemma_precedes_not_itself(a: Seq<Move>)
    ensures
        !precedes(a, a),
    decreases a.len(),
{
    if a.len() > 0 {
        lemma_precedes_not_itself(a.skip(1));
    }
}

/// The first phase of one move after which moves finish within the limit is the
/// first opening where no first phase of one move with a smaller number is one.
pub proof fn lemma_first_opening_single(
    p: Pieces3x3x3,
    made: Seq<Move>,
    mv: Move,
    qs: Seq<Move>,
)
    requires
        may_follow(made, mv),
        !spec_is_phase_2_move(mv),
        reaches_goal(p.moved(mv)),
        finishes(p.moved(mv), made.push(mv), qs, move_limit()),
        made.len() + 1 + qs.len() <= move_limit(),
        none_before(p, made, 1, mv),
    ensures
        first_opening(p, made, seq![mv], 1),
{
    reveal(first_opening);
    reveal(none_before);
    let ps = seq![mv];
    lemma_after_single(p, mv);
    assert(made + ps =~= made.push(mv));
    assert(two_phase(p, made, ps, qs) && made.len() + ps.len() + qs.len() <= move_limit());
    assert forall|other: Seq<Move>|
        other.len() == 1 && #[trigger] opens(p, made, other) implies !precedes(other, ps) by {
        if other[0] == mv {
            assert(other =~= ps);
            lemma_precedes_not_itself(ps);
        }
    }
}

/// A move, and after it the first opening from the state after the move, are the
/// first opening where no first phase of as many moves that begins with a move of a
/// smaller number is one.
pub proof fn lemma_first_opening_with_first(
    p: Pieces3x3x3,
    made: Seq<Move>,
    mv: Move,
    tail: Seq<Move>,
    depth: int,
)
    requires
        depth >= 2,
        may_follow(made, mv),
        first_opening(p.moved(mv), made.push(mv), tail, depth - 1),
        none_before(p, made, depth, mv),
    ensures
        first_opening(p, made, seq![mv] + tail, depth),
{
    reveal(first_opening);
    reveal(none_before);
    let ps = seq![mv] + tail;
    let qs = choose|qs: Seq<Move>| #[trigger]
        two_phase(p.moved(mv), made.push(mv), tail, qs) && made.push(mv).len() + tail.len()
            + qs.len() <= move_limit();
    lemma_after_prepend(p, mv, tail);
    assert(made.push(mv).last() == mv);
    lemma_useful_prepend(mv, tail);
    assert(ps.last() == tail.last());
    assert(made + ps =~= made.push(mv) + tail);
    assert(two_phase(p, made, ps, qs) && made.len() + ps.len() + qs.len() <= move_limit());
    assert(ps.skip(1) =~= tail);
    assert forall|other: Seq<Move>|
        other.len() == depth && #[trigger] opens(p, made, other) implies !precedes(other, ps) by {
        assert(other[0].spec_index() >= mv.spec_index());
        if other[0] == mv {
            let oqs = choose|oqs: Seq<Move>| #[trigger]
                two_phase(p, made, other, oqs) && made.len() + other.len() + oqs.len()
                    <= move_limit();
            lemma_two_phase_without_first(p, made, other, oqs);
            assert(other.skip(1) =~= other.subrange(1, other.len() as int));
            assert(two_phase(p.moved(mv), made.push(mv), other.skip(1), oqs) && made.push(mv).len()
                + other.skip(1).len() + oqs.len() <= move_limit());
            assert(opens(p.moved(mv), made.push(mv), other.skip(1)));
            assert(!precedes(other.skip(1), tail));
        }
    }
}

/// Whether no two-phase path from the state `p` begins with the move `mv` and has a
/// first phase of `depth` moves.
pub open spec fn no_path_through(p: Pieces3x3x3, made: Seq<Move>, mv: Move, depth: int) -> bool {
    forall|ps: Seq<Move>, qs: Seq<Move>| #[trigger]
        two_phase(p, made, ps, qs) && ps.len() == depth ==> ps[0] != mv
}

/// No two-phase path begins with a move that is of no use after the moves made, nor
/// consists of one move of the second phase.
pub proof fn lemma_no_path_through_useless(
    p: Pieces3x3x3,
    made: Seq<Move>,
    mv: Move,
    depth: int,
)
    requires
        depth >= 1,
        !may_follow(made, mv) || (depth == 1 && spec_is_phase_2_move(mv)),
    ensures
        no_path_through(p, made, mv, depth),
{
    assert forall|ps: Seq<Move>, qs: Seq<Move>| #[trigger]
        two_phase(p, made, ps, qs) && ps.len() == depth implies ps[0] != mv by {
        if ps[0] == mv && depth == 1 {
            lemma_two_phase_single(p, made, ps, qs);
        }
    }
}

/// No two-phase path with a first phase of one move consists of a move that does not
/// lead into the goal of the first phase.
pub proof fn lemma_no_path_through_goal(p: Pieces3x3x3, made: Seq<Move>, mv: Move)
    requires
        !reaches_goal(p.moved(mv)),
    ensures
        no_path_through(p, made, mv, 1),
{
    assert forall|ps: Seq<Move>, qs: Seq<Move>| #[trigger]
        two_phase(p, made, ps, qs) && ps.len() == 1 implies ps[0] != mv by {
        if ps[0] == mv {
            lemma_two_phase_single(p, made, ps, qs);
        }
    }
}

/// No two-phase path with a first phase of `depth` moves begins with a move after
/// which a prune table of the first phase asks for `depth` moves or more.
pub proof fn lemma_no_path_through_far(
    tables: &Tables3x3x3,
    p: Pieces3x3x3,
    made: Seq<Move>,
    mv: Move,
    depth: int,
)
    requires
        tables.wf(),
        p.moved(mv).valid(),
        depth > 1,
        tables.combined_orientation_prune.entry(
            corner_orientation_index(p.moved(mv).corners) * 2048 + edge_orientation_index(
                p.moved(mv).edges,
            ),
        ) >= depth || tables.corner_orientation_edge_slice_prune.entry(
            corner_orientation_index(p.moved(mv).corners) * 495 + equatorial_edge_slice_index(
                p.moved(mv).edges,
            ),
        ) >= depth || tables.edge_orientation_prune.entry(
            edge_orientation_index(p.moved(mv).edges) * 495 + equatorial_edge_slice_index(
                p.moved(mv).edges,
            ),
        ) >= depth,
    ensures
        no_path_through(p, made, mv, depth),
{
    assert forall|ps: Seq<Move>, qs: Seq<Move>| #[trigger]
        two_phase(p, made, ps, qs) && ps.len() == depth implies ps[0] != mv by {
        if ps[0] == mv {
            lemma_two_phase_without_first(p, made, ps, qs);
            lemma_phase_1_bounds(tables, p.moved(mv), ps.subrange(1, ps.len() as int));
        }
    }
}

/// Every two-phase path that begins with the move `mv` has at least one move more,
/// counted with the moves made, than the moves made and what the prune table of the
/// corner permutation asks for after the move.
pub proof fn lemma_paths_through_long(
    tables: &Tables3x3x3,
    p: Pieces3x3x3,
    made: Seq<Move>,
    mv: Move,
    depth: int,
)
    requires
        tables.wf(),
        p.moved(mv).valid(),
        depth > 1,
    ensures
        forall|ps: Seq<Move>, qs: Seq<Move>| #[trigger]
            two_phase(p, made, ps, qs) && ps.len() == depth && ps[0] == mv ==> made.len()
                + ps.len() + qs.len() >= made.len() + 1
                + tables.corners.permutation_prune.entry(
                corner_permutation_index(p.moved(mv).corners),
            ),
{
    assert forall|ps: Seq<Move>, qs: Seq<Move>| #[trigger]
        two_phase(p, made, ps, qs) && ps.len() == depth && ps[0] == mv implies made.len()
        + ps.len() + qs.len() >= made.len() + 1 + tables.corners.permutation_prune.entry(
        corner_permutation_index(p.moved(mv).corners),
    ) by {
        lemma_two_phase_without_first(p, made, ps, qs);
        let tail = ps.subrange(1, ps.len() as int);
        lemma_after_concat(p.moved(mv), tail, qs);
        lemma_corner_permutation_bound(tables, p.moved(mv), tail + qs);
    }
}

/// The two-phase paths that begin with the move `mv`, without that move: the
/// two-phase paths from the state after it, where the first phase has two moves or
/// more; and the moves that finish from the state after it, where it has one.
pub proof fn lemma_paths_through(p: Pieces3x3x3, made: Seq<Move>, mv: Move, depth: int)
    requires
        depth >= 1,
    ensures
        forall|ps: Seq<Move>, qs: Seq<Move>| #[trigger]
            two_phase(p, made, ps, qs) && ps.len() == depth && ps[0] == mv ==> if depth == 1 {
                finishes(p.moved(mv), made.push(mv), qs, move_limit())
            } else {
                two_phase(p.moved(mv), made.push(mv), ps.subrange(1, ps.len() as int), qs)
            },
{
    assert forall|ps: Seq<Move>, qs: Seq<Move>| #[trigger]
        two_phase(p, made, ps, qs) && ps.len() == depth && ps[0] == mv implies if depth == 1 {
        finishes(p.moved(mv), made.push(mv), qs, move_limit())
    } else {
        two_phase(p.moved(mv), made.push(mv), ps.subrange(1, ps.len() as int), qs)
    } by {
        if depth == 1 {
            lemma_two_phase_single(p, made, ps, qs);
        } else {
            lemma_two_phase_without_first(p, made, ps, qs);
        }
    }
}

/// Whether the moves `s` are a solution as the two-phase search finds it: a
/// two-phase path within the limit whose first phase has at most 12 moves.
pub open spec fn two_phase_solution(p: Pieces3x3x3, s: Seq<Move>) -> bool {
    exists|ps: Seq<Move>, qs: Seq<Move>| #[trigger]
        two_phase(p, Seq::empty(), ps, qs) && ps.len() <= 12 && ps.len() + qs.len()
            <= move_limit() && s == ps + qs
}

/// A state that has a solution as the two-phase search finds it can be solved by the
/// two-phase search.
pub proof fn lemma_solution_shows_solvable(p: Pieces3x3x3, s: Seq<Move>)
    requires
        two_phase_solution(p, s),
    ensures
        two_phase_solvable(p),
{
    let (ps, qs) = choose|ps: Seq<Move>, qs: Seq<Move>| #[trigger]
        two_phase(p, Seq::empty(), ps, qs) && ps.len() <= 12 && ps.len() + qs.len()
            <= move_limit() && s == ps + qs;
    assert(two_phase(p, Seq::empty(), ps, qs) && ps.len() <= 12 && ps.len() + qs.len()
        <= move_limit());
}

/// Whether the moves `made` can be the beginning of a path of the first phase: none
/// of them is wasted.
pub open spec fn on_the_way(p: Pieces3x3x3, made: Seq<Move>) -> bool {
    useful_sequence(made)
}

/// Whether the first `split` of the moves `made` are a path of the first phase from
/// the state `p`, and the moves after these are moves of the second phase, with no
/// wasted move.
pub open spec fn in_second_phase(p: Pieces3x3x3, made: Seq<Move>, split: int) -> bool {
    &&& 0 <= split <= made.len()
    &&& split <= 12
    &&& useful_sequence(made)
    &&& phase_2_sequence(made.subrange(split, made.len() as int))
    &&& reduces(p, Seq::empty(), made.take(split))
}

/// One more move of use leaves the moves made the beginning of a path of the first
/// phase.
pub proof fn lemma_on_the_way_push(p: Pieces3x3x3, made: Seq<Move>, mv: Move)
    requires
        on_the_way(p, made),
        may_follow(made, mv),
    ensures
        on_the_way(p, made.push(mv)),
{
    let next = made.push(mv);
    assert forall|i: int| 0 <= i && i + 1 < next.len() implies spec_follows(
        #[trigger] next[i],
        next[i + 1],
    ) by {
        if i + 1 < made.len() {
            assert(spec_follows(made[i], made[i + 1]));
        }
    }
}

/// No moves are a path of the first phase from a state in its goal, at which the
/// second phase begins.
pub proof fn lemma_begin_in_second_phase(p: Pieces3x3x3)
    requires
        reaches_goal(p),
    ensures
        in_second_phase(p, Seq::empty(), 0),
{
    let none = Seq::<Move>::empty();
    assert(none.take(0) =~= none);
    assert(none.subrange(0, 0) =~= none);
    lemma_after_none(p);
}

/// One more move, not of the second phase, that reaches the goal of the first phase
/// makes the moves made a path of the first phase, at which the second phase begins.
pub proof fn lemma_enter_second_phase(p: Pieces3x3x3, made: Seq<Move>, mv: Move)
    requires
        on_the_way(p, made),
        made.len() < 12,
        may_follow(made, mv),
        !spec_is_phase_2_move(mv),
        reaches_goal(p.after(made).moved(mv)),
    ensures
        in_second_phase(p, made.push(mv), made.len() as int + 1),
{
    let next = made.push(mv);
    lemma_on_the_way_push(p, made, mv);
    assert(next.take(next.len() as int) =~= next);
    assert(next.drop_last() =~= made);
    assert(next.subrange(next.len() as int, next.len() as int) =~= Seq::<Move>::empty());
}

/// One more move of the second phase leaves the moves made in the second phase.
pub proof fn lemma_second_phase_push(p: Pieces3x3x3, made: Seq<Move>, split: int, mv: Move)
    requires
        in_second_phase(p, made, split),
        may_follow(made, mv),
        spec_is_phase_2_move(mv),
    ensures
        in_second_phase(p, made.push(mv), split),
{
    let next = made.push(mv);
    assert forall|i: int| 0 <= i && i + 1 < next.len() implies spec_follows(
        #[trigger] next[i],
        next[i + 1],
    ) by {
        if i + 1 < made.len() {
            assert(spec_follows(made[i], made[i + 1]));
        }
    }
    let tail = next.subrange(split, next.len() as int);
    let before = made.subrange(split, made.len() as int);
    assert forall|i: int| 0 <= i < tail.len() implies spec_is_phase_2_move(#[trigger] tail[i]) by {
        if i < before.len() {
            assert(spec_is_phase_2_move(before[i]));
        }
    }
    assert(next.take(split) =~= made.take(split));
}

/// Moves in the second phase that solve the state are a solution as the two-phase
/// search finds it.
pub proof fn lemma_second_phase_solution(p: Pieces3x3x3, made: Seq<Move>, split: int)
    requires
        in_second_phase(p, made, split),
        made.len() <= move_limit(),
        p.after(made) == Pieces3x3x3::solved(),
    ensures
        two_phase_solution(p, made),
{
    let ps = made.take(split);
    let qs = made.subrange(split, made.len() as int);
    assert(made =~= ps + qs);
    assert forall|i: int| 0 <= i && i + 1 < qs.len() implies spec_follows(
        #[trigger] qs[i],
        qs[i + 1],
    ) by {
        assert(spec_follows(made[split + i], made[split + i + 1]));
    }
    lemma_after_concat(p, ps, qs);
    if qs.len() > 0 && split > 0 {
        assert(spec_follows(made[split - 1], made[split]));
        assert(ps.last() == made[split - 1]);
        assert((Seq::<Move>::empty() + ps).last() == ps.last());
    }
    assert(Seq::<Move>::empty() + ps =~= ps);
    assert(two_phase(p, Seq::empty(), ps, qs) && ps.len() <= 12 && ps.len() + qs.len()
        <= move_limit() && made == ps + qs);
}

} // verus!

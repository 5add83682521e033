use crate::common::{inverse_moves, inverse_sequence, Move};
use crate::coordinate::Coordinate;
use crate::corner::corner_permutation_index;
use crate::corner::lemma_corners_after_valid;
use crate::common::Color;
use crate::cube3x3x3::{decodes_to, Cube3x3x3, Cube3x3x3Faces, Pieces3x3x3};
use crate::edge::lemma_edges_after_valid;
use crate::laws::{lemma_decoding_unique, lemma_shown_everywhere};
use crate::prune::{is_phase_2_move, spec_is_phase_2_move};
use crate::solver2x2x2::{copy_moves, follows};
use crate::paths::{
    finishable_within, finishes, first_finish, first_opening, first_shortest_finish,
    in_second_phase, lemma_first_opening_none, lemma_first_opening_single,
    lemma_first_opening_with_first, lemma_first_shortest_finishes, none_before,
    none_finish_before, opens,
    lemma_first_finish_none, lemma_first_finish_with_first, lemma_first_shortest_finish, lemma_after_none, lemma_enter_second_phase,
    lemma_begin_in_second_phase, lemma_finishes_with_first, lemma_finishes_without_first, lemma_no_path_through_far,
    lemma_no_path_through_goal, lemma_no_path_through_useless, lemma_on_the_way_push,
    lemma_paths_through, lemma_paths_through_long, lemma_phase_2_bounds,
    lemma_second_phase_push, lemma_second_phase_solution, move_limit, on_the_way,
    reaches_goal, two_phase, two_phase_solution, two_phase_solvable,
};
use crate::tables::Tables3x3x3;
use crate::tracking::{
    in_subgroup, lemma_coordinate_follows, lemma_phase_1_goal, lemma_phase_2_goal,
    lemma_solved_indices, lemma_subgroup_move, lemma_table_follows,
};
use vstd::prelude::*;

verus! {

/// Largest number of moves of the first phase.
pub const MAX_PHASE_1_MOVES: usize = 12;

/// Largest number of moves of the second phase.
pub const MAX_PHASE_2_MOVES: usize = 18;

/// Largest number of moves of a solution of the 3x3x3 cube that the solver looks
/// for.
pub const MAX_SOLUTION_MOVES_3X3X3: usize = 30;

/// What holds of the answer of the solver to a cube, in either mode. A solution
/// solves the cube within the limit of moves; the solved cube has the empty
/// solution, and the solution of any other is a two-phase path. There is no
/// solution where no legal moves reach the state, or where no two-phase path within
/// the limits solves it.
pub open spec fn answers_3x3x3(cube: Pieces3x3x3, r: Option<Vec<Move>>) -> bool {
    match r {
        Some(solution) => {
            &&& cube.valid()
            &&& cube.after(solution@) == Pieces3x3x3::solved()
            &&& solution@.len() <= MAX_SOLUTION_MOVES_3X3X3
            &&& if cube == Pieces3x3x3::solved() {
                solution@.len() == 0
            } else {
                two_phase_solution(cube, solution@)
            }
        },
        None => cube != Pieces3x3x3::solved() && (!cube.valid() || !two_phase_solvable(cube)),
    }
}

/// What holds of the answer of the search for a shortest solution: no two-phase
/// path whose first phase has at most 12 moves has fewer moves than the solution.
pub open spec fn shortest_two_phase(cube: Pieces3x3x3, r: Option<Vec<Move>>) -> bool {
    r matches Some(solution) ==> forall|ps: Seq<Move>, qs: Seq<Move>| #[trigger]
        two_phase(cube, Seq::empty(), ps, qs) && ps.len() <= MAX_PHASE_1_MOVES
            ==> solution@.len() <= ps.len() + qs.len()
}

/// What holds besides of the answer of the search for a shortest solution: wherever
/// some sequence of at most 12 moves solves the cube, no sequence of moves that
/// solves it, whatever its moves, has fewer moves than the solution.
pub open spec fn shortest_of_all(cube: Pieces3x3x3, r: Option<Vec<Move>>) -> bool {
    r matches Some(solution) ==> forall|short: Seq<Move>, t: Seq<Move>|
        #![trigger cube.after(short), cube.after(t)]
        cube.after(short) == Pieces3x3x3::solved() && short.len() <= 12 && cube.after(t)
            == Pieces3x3x3::solved() ==> solution@.len() <= t.len()
}

/// The answer of the search for a shortest solution is shortest of all wherever at
/// most 12 moves solve the cube.
pub proof fn lemma_shortest_of_all(cube: Pieces3x3x3, r: Option<Vec<Move>>)
    requires
        answers_3x3x3(cube, r),
        shortest_two_phase(cube, r),
    ensures
        shortest_of_all(cube, r),
{
    if let Some(solution) = r {
        assert forall|short: Seq<Move>, t: Seq<Move>|
            #![trigger cube.after(short), cube.after(t)]
            cube.after(short) == Pieces3x3x3::solved() && short.len() <= 12 && cube.after(t)
                == Pieces3x3x3::solved() implies solution@.len() <= t.len() by {
            crate::laws::lemma_globally_shortest_within_12(cube, solution, short, t);
        }
    }
}

/// Whether no two-phase path within the limit of moves has a first phase of fewer
/// than `split` moves.
pub open spec fn least_first_phase(cube: Pieces3x3x3, split: int) -> bool {
    forall|ps: Seq<Move>, qs: Seq<Move>| #[trigger]
        two_phase(cube, Seq::empty(), ps, qs) && ps.len() + qs.len() <= move_limit() ==> split
            <= ps.len()
}

/// Whether no moves of the second phase finish after the moves `first` with fewer
/// than `total` moves in all.
pub open spec fn shortest_finish(p: Pieces3x3x3, first: Seq<Move>, total: int) -> bool {
    forall|qs: Seq<Move>| #[trigger]
        finishes(p.after(first), first, qs, move_limit()) ==> total <= first.len() + qs.len()
}

/// What holds of the answer of the fast search, which ends with its first
/// solution. The first phase of the solution has the fewest moves of the first
/// phases of all two-phase paths within the limit, and is of those with as many
/// moves the first to which the search comes, in the order of the moves. The second
/// phase has the fewest moves that finish after that first phase, and is of those
/// the first to which the search comes.
pub open spec fn first_two_phase(cube: Pieces3x3x3, r: Option<Vec<Move>>) -> bool {
    r matches Some(solution) ==> solution@.len() > 0 ==> exists|ps: Seq<Move>, qs: Seq<Move>|
        {
            &&& solution@ == ps + qs
            &&& first_opening(cube, Seq::empty(), ps, ps.len() as int)
            &&& least_first_phase(cube, ps.len() as int)
            &&& #[trigger] first_shortest_finish(cube.after(ps), ps, qs)
        }
}

/// Every sequence of moves keeps what holds of every reachable state.
pub proof fn lemma_after_valid(p: Pieces3x3x3, moves: Seq<Move>)
    requires
        p.valid(),
    ensures
        p.after(moves).valid(),
{
    lemma_corners_after_valid(p.corners, moves);
    lemma_edges_after_valid(p.edges, moves);
}

/// A 3x3x3 cube as the indices in which the first phase searches.
#[derive(Clone, Copy, Debug, PartialEq, Eq, Structural)]
pub struct Phase1IndexCube {
    pub corner_orientation: u16,
    pub corner_permutation: u16,
    pub edge_orientation: u16,
    pub equatorial_edge_slice: u16,
}

/// A 3x3x3 cube as the indices in which the second phase searches.
#[derive(Clone, Copy, Debug, PartialEq, Eq, Structural)]
pub struct Phase2IndexCube {
    pub corner_permutation: u16,
    pub edge_permutation: u16,
    pub equatorial_edge_permutation: u16,
}

impl Phase1IndexCube {
    /// Every index is an index of its coordinate.
    pub open spec fn in_range(self) -> bool {
        &&& self.corner_orientation < 2187
        &&& self.corner_permutation < 40320
        &&& self.edge_orientation < 2048
        &&& self.equatorial_edge_slice < 495
    }

    /// The indices of a state.
    pub open spec fn of(p: Pieces3x3x3) -> Phase1IndexCube {
        Phase1IndexCube {
            corner_orientation: Coordinate::CornerOrientation.index_of(p) as u16,
            corner_permutation: Coordinate::CornerPermutation.index_of(p) as u16,
            edge_orientation: Coordinate::EdgeOrientation.index_of(p) as u16,
            equatorial_edge_slice: Coordinate::EquatorialEdgeSlice.index_of(p) as u16,
        }
    }

    /// The indices after a move, by the move tables.
    pub open spec fn moved(self, tables: &Tables3x3x3, mv: Move) -> Phase1IndexCube {
        Phase1IndexCube {
            corner_orientation: tables.corners.orientation_move.entry(
                self.corner_orientation as int,
                mv,
            ) as u16,
            corner_permutation: tables.corners.permutation_move.entry(
                self.corner_permutation as int,
                mv,
            ) as u16,
            edge_orientation: tables.edge_orientation_move.entry(self.edge_orientation as int, mv) as u16,
            equatorial_edge_slice: tables.equatorial_edge_slice_move.entry(
                self.equatorial_edge_slice as int,
                mv,
            ) as u16,
        }
    }

    /// Whether the goal of the first phase is reached: no corner is twisted, no
    /// edge is flipped, and the equatorial edges are in their slice.
    pub open spec fn spec_is_phase_solved(&self) -> bool {
        self.corner_orientation == 0 && self.edge_orientation == 0 && self.equatorial_edge_slice
            == 0
    }

    /// Computes the indices of a cube.
    pub fn new(pieces: &Cube3x3x3) -> (r: Self)
        requires
            pieces@.valid(),
        ensures
            r == Phase1IndexCube::of(pieces@),
            r.in_range(),
    {
        Phase1IndexCube {
            corner_orientation: Coordinate::CornerOrientation.index(pieces),
            corner_permutation: Coordinate::CornerPermutation.index(pieces),
            edge_orientation: Coordinate::EdgeOrientation.index(pieces),
            equatorial_edge_slice: Coordinate::EquatorialEdgeSlice.index(pieces),
        }
    }

    /// Looks up the indices after a move.
    pub fn do_move(&self, tables: &Tables3x3x3, mv: Move) -> (r: Self)
        requires
            tables.wf(),
            self.in_range(),
        ensures
            r == self.moved(tables, mv),
            r.in_range(),
    {
        Phase1IndexCube {
            corner_orientation: tables.corners.orientation_move.get(self.corner_orientation, mv),
            corner_permutation: tables.corners.permutation_move.get(self.corner_permutation, mv),
            edge_orientation: tables.edge_orientation_move.get(self.edge_orientation, mv),
            equatorial_edge_slice: tables.equatorial_edge_slice_move.get(
                self.equatorial_edge_slice,
                mv,
            ),
        }
    }

    #[verifier::when_used_as_spec(spec_is_phase_solved)]
    pub fn is_phase_solved(&self) -> (r: bool)
        ensures
            r == self.spec_is_phase_solved(),
    {
        self.corner_orientation == 0 && self.edge_orientation == 0 && self.equatorial_edge_slice
            == 0
    }
}

impl Phase2IndexCube {
    /// Every index is an index of its coordinate.
    pub open spec fn in_range(self) -> bool {
        &&& self.corner_permutation < 40320
        &&& self.edge_permutation < 40320
        &&& self.equatorial_edge_permutation < 24
    }

    /// The indices after a move, by the move tables.
    pub open spec fn moved(self, tables: &Tables3x3x3, mv: Move) -> Phase2IndexCube {
        Phase2IndexCube {
            corner_permutation: tables.corners.permutation_move.entry(
                self.corner_permutation as int,
                mv,
            ) as u16,
            edge_permutation: tables.phase_2_edge_permutation_move.entry(
                self.edge_permutation as int,
                mv,
            ) as u16,
            equatorial_edge_permutation: tables.phase_2_equatorial_edge_permutation_move.entry(
                self.equatorial_edge_permutation as int,
                mv,
            ) as u16,
        }
    }

    /// The indices of a state.
    pub open spec fn of(p: Pieces3x3x3) -> Phase2IndexCube {
        Phase2IndexCube {
            corner_permutation: Coordinate::CornerPermutation.index_of(p) as u16,
            edge_permutation: Coordinate::Phase2EdgePermutation.index_of(p) as u16,
            equatorial_edge_permutation: Coordinate::Phase2EquatorialEdgePermutation.index_of(
                p,
            ) as u16,
        }
    }

    /// Whether the goal of the second phase is reached: every index is zero.
    pub open spec fn spec_is_phase_solved(&self) -> bool {
        self.corner_permutation == 0 && self.edge_permutation == 0
            && self.equatorial_edge_permutation == 0
    }

    /// Computes the indices of a cube at the end of the first phase. The corner
    /// permutation is taken over from the first phase.
    pub fn new(phase_1: &Phase1IndexCube, pieces: &Cube3x3x3) -> (r: Self)
        requires
            phase_1.in_range(),
        ensures
            r.corner_permutation == phase_1.corner_permutation,
            r.edge_permutation == Coordinate::Phase2EdgePermutation.index_of(pieces@),
            r.equatorial_edge_permutation == Coordinate::Phase2EquatorialEdgePermutation.index_of(
                pieces@,
            ),
            r.in_range(),
    {
        Phase2IndexCube {
            corner_permutation: phase_1.corner_permutation,
            edge_permutation: pieces.phase_2_edge_permutation_index(),
            equatorial_edge_permutation: pieces.phase_2_equatorial_edge_permutation_index(),
        }
    }

    /// Looks up the indices after a move.
    pub fn do_move(&self, tables: &Tables3x3x3, mv: Move) -> (r: Self)
        requires
            tables.wf(),
            self.in_range(),
        ensures
            r == self.moved(tables, mv),
            r.in_range(),
    {
        Phase2IndexCube {
            corner_permutation: tables.corners.permutation_move.get(self.corner_permutation, mv),
            edge_permutation: tables.phase_2_edge_permutation_move.get(self.edge_permutation, mv),
            equatorial_edge_permutation: tables.phase_2_equatorial_edge_permutation_move.get(
                self.equatorial_edge_permutation,
                mv,
            ),
        }
    }

    #[verifier::when_used_as_spec(spec_is_phase_solved)]
    pub fn is_phase_solved(&self) -> (r: bool)
        ensures
            r == self.spec_is_phase_solved(),
    {
        self.corner_permutation == 0 && self.edge_permutation == 0
            && self.equatorial_edge_permutation == 0
    }
}

/// The indices of the first phase after a move are the indices of the state after
/// the move.
pub proof fn lemma_phase_1_step(tables: &Tables3x3x3, p: Pieces3x3x3, mv: Move)
    requires
        tables.wf(),
        p.valid(),
    ensures
        Phase1IndexCube::of(p).in_range(),
        Phase1IndexCube::of(p).moved(tables, mv) == Phase1IndexCube::of(p.moved(mv)),
        p.moved(mv).valid(),
{
    lemma_table_follows(&tables.corners.orientation_move, p, mv);
    lemma_table_follows(&tables.corners.permutation_move, p, mv);
    lemma_table_follows(&tables.edge_orientation_move, p, mv);
    lemma_table_follows(&tables.equatorial_edge_slice_move, p, mv);
    crate::coordinate::lemma_moved_valid(p, mv);
}

/// The indices of the first phase are the indices of the four coordinates.
pub proof fn lemma_phase_1_indices(p: Pieces3x3x3)
    requires
        p.valid(),
    ensures
        Phase1IndexCube::of(p).in_range(),
        Phase1IndexCube::of(p).corner_orientation == Coordinate::CornerOrientation.index_of(p),
        Phase1IndexCube::of(p).corner_permutation == Coordinate::CornerPermutation.index_of(p),
        Phase1IndexCube::of(p).edge_orientation == Coordinate::EdgeOrientation.index_of(p),
        Phase1IndexCube::of(p).equatorial_edge_slice == Coordinate::EquatorialEdgeSlice.index_of(
            p,
        ),
{
    lemma_coordinate_follows(Coordinate::CornerOrientation, p, Move::U);
    lemma_coordinate_follows(Coordinate::CornerPermutation, p, Move::U);
    lemma_coordinate_follows(Coordinate::EdgeOrientation, p, Move::U);
    lemma_coordinate_follows(Coordinate::EquatorialEdgeSlice, p, Move::U);
}

/// The indices of the second phase after a move of the phase are the indices of the
/// state after the move, which is a state of the phase.
pub proof fn lemma_phase_2_step(tables: &Tables3x3x3, p: Pieces3x3x3, mv: Move)
    requires
        tables.wf(),
        in_subgroup(p),
        crate::prune::spec_is_phase_2_move(mv),
    ensures
        Phase2IndexCube::of(p).in_range(),
        Phase2IndexCube::of(p).moved(tables, mv) == Phase2IndexCube::of(p.moved(mv)),
        in_subgroup(p.moved(mv)),
{
    lemma_table_follows(&tables.corners.permutation_move, p, mv);
    lemma_table_follows(&tables.phase_2_edge_permutation_move, p, mv);
    lemma_table_follows(&tables.phase_2_equatorial_edge_permutation_move, p, mv);
    lemma_subgroup_move(p, mv);
}

/// The indices of the second phase are the indices of the three coordinates.
pub proof fn lemma_phase_2_indices(p: Pieces3x3x3)
    requires
        in_subgroup(p),
    ensures
        Phase2IndexCube::of(p).in_range(),
        Phase2IndexCube::of(p).corner_permutation == Coordinate::CornerPermutation.index_of(p),
        Phase2IndexCube::of(p).edge_permutation == Coordinate::Phase2EdgePermutation.index_of(p),
        Phase2IndexCube::of(p).equatorial_edge_permutation
            == Coordinate::Phase2EquatorialEdgePermutation.index_of(p),
{
    lemma_coordinate_follows(Coordinate::CornerPermutation, p, Move::U);
    lemma_coordinate_follows(Coordinate::Phase2EdgePermutation, p, Move::U);
    lemma_coordinate_follows(Coordinate::Phase2EquatorialEdgePermutation, p, Move::U);
}

/// The state after a sequence of moves and one more move.
pub proof fn lemma_after_push(p: Pieces3x3x3, moves: Seq<Move>, mv: Move)
    ensures
        p.after(moves.push(mv)) == p.after(moves).moved(mv),
{
    assert(moves.push(mv).drop_last() =~= moves);
}

/// The state of a two-phase search for a solution of a 3x3x3 cube.
pub struct Solver<'a> {
    pub tables: &'a Tables3x3x3,
    pub initial_state: Cube3x3x3,
    pub moves: Vec<Move>,
    pub optimal: bool,
    pub max_moves: usize,
    pub best_solution: Option<Vec<Move>>,
    /// Number of the moves made that belong to the first phase, while the second
    /// phase is searched.
    pub split: Ghost<nat>,
    /// Number of the moves of the best solution that belong to the first phase.
    pub best_split: Ghost<nat>,
    /// The first phase of the best solution.
    pub best_first: Ghost<Seq<Move>>,
    /// The second phase of the best solution.
    pub best_second: Ghost<Seq<Move>>,
    /// The moves of the solution that was found last, after the moves made so far.
    pub found_rest: Ghost<Seq<Move>>,
    /// The moves of the first phase of the solution that was found last, after the
    /// moves made so far.
    pub found_first: Ghost<Seq<Move>>,
}

/// Whether the search has dealt with a two-phase path of `total` moves: where the
/// path is within the budget that the search began with, a solution has been found;
/// and where the search is for a shortest solution, the budget is below the moves of
/// the path.
pub open spec fn covered(
    max_moves: int,
    found: bool,
    optimal: bool,
    budget: int,
    total: nat,
) -> bool {
    &&& total <= budget ==> found
    &&& optimal ==> max_moves < total
}

/// Whether the moves `first` are the first phase of a solution, and the first
/// `split` of its moves.
#[verifier::opaque]
pub open spec fn splits_at(
    p: Pieces3x3x3,
    solution: Seq<Move>,
    split: int,
    first: Seq<Move>,
) -> bool {
    in_second_phase(p, solution, split) && first == solution.take(split)
}

/// Whether the moves `first` and `second` are the first and the second phase of a
/// solution, the first phase has `split` moves, and the second phase is, of the
/// moves that finish from where the first phase ends with the fewest moves, the
/// first to which the search comes.
#[verifier::opaque]
pub open spec fn kept(
    initial: Pieces3x3x3,
    solution: Seq<Move>,
    split: int,
    first: Seq<Move>,
    second: Seq<Move>,
) -> bool {
    &&& first.len() == split
    &&& splits_at(initial, solution, split, first)
    &&& shortest_finish(initial, first, solution.len() as int)
    &&& solution == first + second
    &&& first_shortest_finish(initial.after(first), first, second)
}

/// The first moves to finish within a depth within which no fewer moves finish are,
/// with the moves made before them, a solution with its first and second phase.
pub proof fn lemma_kept(
    initial: Pieces3x3x3,
    solution: Seq<Move>,
    made: Seq<Move>,
    first: Seq<Move>,
    rest: Seq<Move>,
    depth: int,
)
    requires
        first == made.take(made.len() as int),
        splits_at(initial, solution, made.len() as int, first),
        solution == made + rest,
        first_finish(initial.after(made), made, rest, depth),
        !finishable_within(initial.after(made), made, depth - 1),
        depth <= move_limit(),
    ensures
        first == made,
        kept(initial, solution, made.len() as int, made, rest),
{
    reveal(kept);
    assert(made.take(made.len() as int) =~= made);
    lemma_first_shortest_finish(initial.after(made), made, rest, depth);
    assert forall|qs: Seq<Move>| #[trigger]
        finishes(initial.after(made), made, qs, move_limit()) implies solution.len() <= made.len()
        + qs.len() by {
        if qs.len() < depth {
            assert(finishes(initial.after(made), made, qs, depth - 1));
        }
    }
}

impl<'a> Solver<'a> {
    /// The state after the moves made so far.
    pub open spec fn now(&self) -> Pieces3x3x3 {
        self.initial_state@.after(self.moves@)
    }

    /// The tables are well formed; the cube is one that legal moves reach and is
    /// not solved; the moves made are within the limit; the best solution found
    /// solves the cube within the limit; and the budget is one less than its
    /// length, or the limit where none was found.
    pub open spec fn wf(&self) -> bool {
        &&& self.tables.wf()
        &&& self.initial_state@.valid()
        &&& self.initial_state@ != Pieces3x3x3::solved()
        &&& self.moves@.len() <= MAX_SOLUTION_MOVES_3X3X3
        &&& match self.best_solution {
            Some(solution) => {
                &&& self.initial_state@.after(solution@) == Pieces3x3x3::solved()
                &&& 1 <= solution@.len() <= MAX_SOLUTION_MOVES_3X3X3
                &&& self.max_moves == solution@.len() - 1
                &&& two_phase_solution(self.initial_state@, solution@)
            },
            None => self.max_moves == MAX_SOLUTION_MOVES_3X3X3,
        }
    }

    /// Whether a later state of the same search: the same cube, tables and mode,
    /// the same moves made, a budget that has not grown, and a solution where there
    /// was one; the best solution is the same unless the budget has shrunk, which it
    /// does only for a solution with fewer moves.
    pub open spec fn continues(&self, earlier: &Solver<'a>) -> bool {
        &&& self.tables == earlier.tables
        &&& self.initial_state == earlier.initial_state
        &&& self.optimal == earlier.optimal
        &&& self.moves@ == earlier.moves@
        &&& self.max_moves <= earlier.max_moves
        &&& earlier.best_solution is Some ==> self.best_solution is Some
        &&& self.max_moves == earlier.max_moves ==> self.best_solution == earlier.best_solution
    }

    /// Whether the search has dealt with a two-phase path of `total` moves, where
    /// it began with the budget `budget`.
    pub open spec fn covers(&self, budget: int, total: nat) -> bool {
        covered(self.max_moves as int, self.best_solution is Some, self.optimal, budget, total)
    }

    /// Whether there is a best solution whose first and second phase are those kept
    /// with it, and its second phase is, of the moves that finish from where its first
    /// phase ends with the fewest moves, the first to which the search comes.
    pub open spec fn first_kept(&self) -> bool {
        &&& self.best_solution matches Some(solution)
        &&& kept(
            self.initial_state@,
            solution@,
            self.best_split@ as int,
            self.best_first@,
            self.best_second@,
        )
    }

    /// Whether the best solution is the first that the search has come to below the
    /// moves `made`, which led to the state `now`, with `depth` moves more in the
    /// first phase: its first phase is the first opening of that many moves.
    pub open spec fn found_below(&self, now: Pieces3x3x3, made: Seq<Move>, depth: int) -> bool {
        &&& self.first_kept()
        &&& self.best_split@ == made.len() + depth
        &&& self.best_first@ == made + self.found_first@
        &&& first_opening(now, made, self.found_first@, depth)
    }

    /// Whether the fast search has found its solution since `earlier`, when it had
    /// none.
    pub open spec fn has_found_since(&self, earlier: &Solver<'a>) -> bool {
        !self.optimal && earlier.best_solution is None && self.best_solution is Some
    }

    pub fn new(cube: &Cube3x3x3, tables: &'a Tables3x3x3, optimal: bool) -> (r: Self)
        ensures
            r.initial_state@ == cube@,
            r.tables == tables,
            r.optimal == optimal,
            r.moves@.len() == 0,
            r.best_solution is None,
            r.max_moves == MAX_SOLUTION_MOVES_3X3X3,
    {
        Solver {
            tables,
            initial_state: *cube,
            moves: Vec::new(),
            optimal,
            max_moves: MAX_SOLUTION_MOVES_3X3X3,
            best_solution: None,
            split: Ghost(0),
            best_split: Ghost(0),
            best_first: Ghost(Seq::empty()),
            best_second: Ghost(Seq::empty()),
            found_rest: Ghost(Seq::empty()),
            found_first: Ghost(Seq::empty()),
        }
    }

    /// Whether it is of use to make a move after the moves made so far.
    fn useful(&self, mv: Move) -> (r: bool)
        ensures
            r == crate::solver2x2x2::may_follow(self.moves@, mv),
    {
        if self.moves.len() == 0 {
            true
        } else {
            follows(self.moves[self.moves.len() - 1], mv)
        }
    }

    /// Makes the move `mv` in the second phase, where it is a move of the phase and
    /// of use after the moves made, and searches on to a depth of one move less.
    /// Returns whether the goal was reached, which it is exactly where the move can be
    /// made and moves of the phase finish after it within that depth. The moves made
    /// so far are the same when it returns.
    fn try_phase_2_move(&mut self, cube: Phase2IndexCube, depth: usize, mv: Move) -> (found: bool)
        requires
            old(self).wf(),
            in_subgroup(old(self).now()),
            in_second_phase(old(self).initial_state@, old(self).moves@, old(self).split@ as int),
            cube == Phase2IndexCube::of(old(self).now()),
            cube.in_range(),
            depth >= 1,
            old(self).now() != Pieces3x3x3::solved(),
            old(self).moves@.len() + depth <= MAX_SOLUTION_MOVES_3X3X3,
            none_finish_before(old(self).now(), old(self).moves@, depth as int, mv),
        ensures
            final(self).wf(),
            final(self).continues(old(self)),
            final(self).split == old(self).split,
            found <==> spec_is_phase_2_move(mv) && crate::solver2x2x2::may_follow(
                old(self).moves@,
                mv,
            ) && finishable_within(
                old(self).now().moved(mv),
                old(self).moves@.push(mv),
                depth - 1,
            ),
            found ==> final(self).best_solution is Some && final(self).max_moves < old(self).moves@.len() + depth,
            !found ==> final(self).best_solution == old(self).best_solution && final(self).max_moves == old(self).max_moves,
            found && old(self).best_solution is None ==> final(self).best_split == old(self).split
                && final(self).best_first@ == old(self).moves@.take(old(self).split@ as int)
                && splits_at(
                final(self).initial_state@,
                final(self).best_solution->Some_0@,
                old(self).split@ as int,
                final(self).best_first@,
            ),
            found && old(self).best_solution is None ==> final(self).best_solution->Some_0@
                == old(self).moves@ + final(self).found_rest@ && first_finish(
                old(self).now(),
                old(self).moves@,
                final(self).found_rest@,
                depth as int,
            ),
        decreases depth, 0int,
    {
        let ghost now = self.now();
        let ghost made = self.moves@;
        if !(is_phase_2_move(mv) && self.useful(mv)) {
            return false;
        }
        proof {
            lemma_phase_2_step(self.tables, now, mv);
            lemma_after_push(self.initial_state@, made, mv);
            lemma_second_phase_push(self.initial_state@, made, self.split@ as int, mv);
        }
        self.moves.push(mv);
        let new_cube = cube.do_move(self.tables, mv);
        let found = self.search_phase_2(new_cube, depth - 1);
        let ghost rest = self.found_rest@;
        self.found_rest = Ghost(seq![mv] + rest);
        proof {
            assert(made.push(mv).take(self.split@ as int) =~= made.take(self.split@ as int));
            if found && old(self).best_solution is None {
                lemma_first_finish_with_first(now, made, mv, rest, depth as int);
                assert(made.push(mv) + rest =~= made + (seq![mv] + rest));
            }
        }
        self.moves.pop();
        assert(self.moves@ =~= made);
        found
    }

    /// Searches the second phase to a depth of `depth` moves from the state `cube`,
    /// which the moves made so far have reached. Where the goal of the phase is
    /// reached the cube is solved: the moves made are kept as the best solution if
    /// they are fewer than those of the best so far, and the budget is set to one
    /// move less. Returns whether the goal was reached, which it is exactly where
    /// moves of the phase finish within the depth; where it was, the budget is below
    /// the moves made and the depth, and where it was not, nothing has changed. The
    /// moves made so far are the same when it returns.
    pub fn search_phase_2(&mut self, cube: Phase2IndexCube, depth: usize) -> (found: bool)
        requires
            old(self).wf(),
            in_subgroup(old(self).now()),
            in_second_phase(old(self).initial_state@, old(self).moves@, old(self).split@ as int),
            cube == Phase2IndexCube::of(old(self).now()),
            old(self).moves@.len() + depth <= MAX_SOLUTION_MOVES_3X3X3,
        ensures
            final(self).wf(),
            final(self).continues(old(self)),
            final(self).split == old(self).split,
            found <==> finishable_within(old(self).now(), old(self).moves@, depth as int),
            found ==> final(self).best_solution is Some && final(self).max_moves < old(self).moves@.len() + depth,
            !found ==> final(self).best_solution == old(self).best_solution && final(self).max_moves == old(self).max_moves,
            found && old(self).best_solution is None ==> final(self).best_split == old(self).split
                && final(self).best_first@ == old(self).moves@.take(old(self).split@ as int)
                && splits_at(
                final(self).initial_state@,
                final(self).best_solution->Some_0@,
                old(self).split@ as int,
                final(self).best_first@,
            ),
            found && old(self).best_solution is None ==> final(self).best_solution->Some_0@
                == old(self).moves@ + final(self).found_rest@ && first_finish(
                old(self).now(),
                old(self).moves@,
                final(self).found_rest@,
                depth as int,
            ),
        decreases depth, 1int,
    {
        let ghost now = self.now();
        let ghost made = self.moves@;
        proof {
            lemma_phase_2_indices(now);
            lemma_solved_indices();
        }
        if cube.is_phase_solved() {
            proof {
                lemma_phase_2_goal(now);
                lemma_after_none(now);
                assert(finishes(now, made, Seq::empty(), depth as int));
            }
            let better = match &self.best_solution {
                Some(best) => self.moves.len() < best.len(),
                None => true,
            };
            if better {
                assert(self.moves@.len() > 0) by {
                    if self.moves@.len() == 0 {
                        assert(self.initial_state@.after(self.moves@) =~= self.initial_state@);
                    }
                }
                proof {
                    lemma_second_phase_solution(self.initial_state@, made, self.split@ as int);
                }
                self.best_solution = Some(copy_moves(&self.moves));
                self.max_moves = self.moves.len() - 1;
                self.best_split = self.split;
                self.best_first = Ghost(made.take(self.split@ as int));
                self.found_rest = Ghost(Seq::empty());
                proof {
                    reveal(splits_at);
                    assert(made + Seq::<Move>::empty() =~= made);
                    lemma_first_finish_none(now, made, depth as int);
                }
            }
            return true;
        } else if depth == 0 {
            proof {
                assert forall|qs: Seq<Move>| !#[trigger] finishes(now, made, qs, 0) by {
                    if finishes(now, made, qs, 0) {
                        assert(qs =~= Seq::<Move>::empty());
                        lemma_after_none(now);
                    }
                }
            }
            return false;
        }
        let first_bound = self.tables.corner_edge_permutation_prune.get(
            cube.corner_permutation,
            cube.equatorial_edge_permutation,
        );
        let second_bound = self.tables.phase_2_edge_permutation_prune.get(
            cube.edge_permutation,
            cube.equatorial_edge_permutation,
        );
        if first_bound > depth || second_bound > depth {
            proof {
                assert forall|qs: Seq<Move>| !#[trigger] finishes(now, made, qs, depth as int) by {
                    if finishes(now, made, qs, depth as int) {
                        lemma_phase_2_bounds(self.tables, now, qs);
                    }
                }
            }
            return false;
        }
        let mut found = false;
        let mut m: usize = 0;
        while m < 18 && !found
            invariant
                m <= 18,
                self.wf(),
                self.continues(old(self)),
                now == self.now(),
                made == self.moves@,
                self.split == old(self).split,
                in_second_phase(self.initial_state@, made, self.split@ as int),
                now != Pieces3x3x3::solved(),
                in_subgroup(now),
                cube == Phase2IndexCube::of(now),
                cube.in_range(),
                depth >= 1,
                made.len() + depth <= MAX_SOLUTION_MOVES_3X3X3,
                !found ==> self.best_solution == old(self).best_solution && self.max_moves == old(self).max_moves,
                !found ==> forall|qs: Seq<Move>| #[trigger]
                    finishes(now, made, qs, depth as int) ==> qs.len() >= 1 && qs[0].spec_index()
                        >= m,
                found ==> finishable_within(now, made, depth as int),
                found ==> self.best_solution is Some && self.max_moves < made.len() + depth,
                found && old(self).best_solution is None ==> self.best_split == self.split
                    && self.best_first@ == made.take(self.split@ as int) && splits_at(
                    self.initial_state@,
                    self.best_solution->Some_0@,
                    self.split@ as int,
                    self.best_first@,
                ),
                found && old(self).best_solution is None ==> self.best_solution->Some_0@ == made
                    + self.found_rest@ && first_finish(now, made, self.found_rest@, depth as int),
            decreases 18 - m,
        {
            let mv = match Move::from_index(m) {
                Some(mv) => mv,
                None => Move::U,
            };
            proof {
                crate::common::lemma_move_at_index(m as int);
                assert(none_finish_before(now, made, depth as int, mv)) by {
                    reveal(none_finish_before);
                }
            }
            found = self.try_phase_2_move(cube, depth, mv);
            proof {
                if found {
                    let tail = choose|tail: Seq<Move>| #[trigger]
                        finishes(now.moved(mv), made.push(mv), tail, depth - 1);
                    lemma_finishes_with_first(now, made, mv, tail, depth as int);
                } else {
                    assert forall|qs: Seq<Move>| #[trigger]
                        finishes(now, made, qs, depth as int) implies qs.len() >= 1
                        && qs[0].spec_index() >= m + 1 by {
                        if qs.len() == 0 {
                            lemma_after_none(now);
                        }
                        if qs[0].spec_index() == m {
                            crate::common::lemma_move_index_round_trip(qs[0]);
                            assert(qs[0] == mv);
                            lemma_finishes_without_first(now, made, qs, depth as int);
                            assert(finishable_within(now.moved(mv), made.push(mv), depth - 1));
                        }
                    }
                }
            }
            m += 1;
        }
        found
    }

    /// Searches the second phase from the state that the moves made so far lead to,
    /// which is in the goal of the first phase, with growing depth, as far as the
    /// budget allows. Where moves of the phase finish within the budget, a solution
    /// is found and the budget is set below the moves made and the fewest such
    /// moves.
    fn finish_from(&mut self, phase_1: &Phase1IndexCube)
        requires
            old(self).wf(),
            in_second_phase(
                old(self).initial_state@,
                old(self).moves@,
                old(self).moves@.len() as int,
            ),
            *phase_1 == Phase1IndexCube::of(old(self).now()),
            phase_1.spec_is_phase_solved(),
        ensures
            final(self).wf(),
            final(self).continues(old(self)),
            forall|qs: Seq<Move>| #[trigger]
                finishes(old(self).now(), old(self).moves@, qs, move_limit()) && old(self).moves@.len() + qs.len() <= old(self).max_moves ==> final(self).best_solution
                    is Some && final(self).max_moves < old(self).moves@.len() + qs.len(),
            old(self).best_solution is None && final(self).best_solution is Some
                ==> final(self).first_kept() && final(self).best_split@ == old(self).moves@.len()
                && final(self).best_first@ == old(self).moves@,
    {
        let ghost now = self.now();
        let ghost made = self.moves@;
        proof {
            lemma_after_valid(self.initial_state@, self.moves@);
            lemma_phase_1_indices(now);
            lemma_phase_1_goal(now);
            lemma_phase_2_indices(now);
        }
        let mut pieces = self.initial_state;
        pieces.do_moves(self.moves.as_slice());
        let cube = Phase2IndexCube::new(phase_1, &pieces);
        self.split = Ghost(self.moves@.len());
        let mut depth: usize = 0;
        let mut found = false;
        while !found && self.moves.len() + depth <= self.max_moves
            invariant
                self.wf(),
                self.continues(old(self)),
                now == self.now(),
                made == self.moves@,
                in_second_phase(self.initial_state@, made, self.split@ as int),
                in_subgroup(now),
                cube == Phase2IndexCube::of(now),
                made.len() + depth <= MAX_SOLUTION_MOVES_3X3X3 + 1,
                !found ==> self.best_solution == old(self).best_solution && self.max_moves == old(self).max_moves,
                !found ==> !finishable_within(now, made, depth - 1),
                found ==> self.best_solution is Some && forall|qs: Seq<Move>| #[trigger]
                    finishes(now, made, qs, move_limit()) ==> self.max_moves < made.len()
                        + qs.len(),
                found && old(self).best_solution is None ==> self.first_kept() && self.best_split@
                    == made.len() && self.best_first@ == made,
                self.split@ == made.len(),
            decreases MAX_SOLUTION_MOVES_3X3X3 + 1 - depth,
                if found {
                    0int
                } else {
                    1int
                },
        {
            if self.search_phase_2(cube, depth) {
                found = true;
                self.best_second = self.found_rest;
                proof {
                    assert forall|qs: Seq<Move>| #[trigger]
                        finishes(now, made, qs, move_limit()) implies self.max_moves < made.len()
                        + qs.len() by {
                        if qs.len() < depth {
                            assert(finishes(now, made, qs, depth - 1));
                        }
                    }
                    if old(self).best_solution is None {
                        lemma_kept(
                            self.initial_state@,
                            self.best_solution->Some_0@,
                            made,
                            self.best_first@,
                            self.found_rest@,
                            depth as int,
                        );
                    }
                }
            } else {
                depth += 1;
            }
        }
        proof {
            if !found {
                assert forall|qs: Seq<Move>| #[trigger]
                    finishes(now, made, qs, move_limit()) && made.len() + qs.len() <= old(self).max_moves implies false by {
                    assert(finishes(now, made, qs, depth - 1));
                }
            }
        }
    }

    /// Tries the sequences of `depth` moves that continue the moves made so far with
    /// the move `mv`. Returns whether the search of the moves after `mv` is to be
    /// left out: in the fast search because a solution has been found, or because
    /// the budget leaves nothing to find. Every two-phase path whose first phase is
    /// such a sequence has been dealt with when it returns.
    fn try_phase_1_move(&mut self, cube: Phase1IndexCube, depth: usize, mv: Move) -> (stop: bool)
        requires
            old(self).wf(),
            on_the_way(old(self).initial_state@, old(self).moves@),
            cube == Phase1IndexCube::of(old(self).now()),
            1 <= depth,
            old(self).moves@.len() + depth <= MAX_PHASE_1_MOVES,
            old(self).best_solution is None ==> none_before(
                old(self).now(),
                old(self).moves@,
                depth as int,
                mv,
            ),
        ensures
            final(self).wf(),
            final(self).continues(old(self)),
            forall|ps: Seq<Move>, qs: Seq<Move>| #[trigger]
                two_phase(old(self).now(), old(self).moves@, ps, qs) && ps.len() == depth
                    && ps[0] == mv ==> final(self).covers(
                    old(self).max_moves as int,
                    old(self).moves@.len() + ps.len() + qs.len(),
                ),
            stop ==> (!final(self).optimal && final(self).best_solution is Some) || (depth >= 2
                && final(self).moves@.len() + 1 >= final(self).max_moves),
            final(self).has_found_since(old(self)) ==> stop && final(self).found_below(
                old(self).now(),
                old(self).moves@,
                depth as int,
            ),
        decreases depth, 1int,
    {
        let ghost now = self.now();
        let ghost made = self.moves@;
        let ghost after = now.moved(mv);
        proof {
            lemma_after_valid(self.initial_state@, self.moves@);
            lemma_phase_1_indices(now);
            lemma_paths_through(now, made, mv, depth as int);
        }
        if !((depth > 1 || !is_phase_2_move(mv)) && self.useful(mv)) {
            proof {
                lemma_no_path_through_useless(now, made, mv, depth as int);
            }
            return false;
        }
        proof {
            lemma_phase_1_step(self.tables, now, mv);
            lemma_after_push(self.initial_state@, made, mv);
            lemma_phase_1_indices(after);
        }
        let new_cube = cube.do_move(self.tables, mv);
        if depth == 1 {
            if !new_cube.is_phase_solved() {
                proof {
                    lemma_no_path_through_goal(now, made, mv);
                }
                return false;
            }
            let ghost budget = self.max_moves as int;
            proof {
                lemma_enter_second_phase(self.initial_state@, made, mv);
            }
            self.moves.push(mv);
            assert(self.moves@ == made.push(mv));
            assert(self.now() == after);
            self.finish_from(&new_cube);
            let ghost single = seq![mv];
            self.found_first = Ghost(single);
            proof {
                if self.has_found_since(old(self)) {
                    reveal(kept);
                    assert(made.push(mv) =~= made + seq![mv]);
                    lemma_first_shortest_finishes(after, made.push(mv), self.best_second@);
                    lemma_first_opening_single(now, made, mv, self.best_second@);
                }
                assert forall|ps: Seq<Move>, qs: Seq<Move>| #[trigger]
                    two_phase(now, made, ps, qs) && ps.len() == depth && ps[0]
                        == mv implies self.covers(budget, made.len() + ps.len() + qs.len()) by {
                    assert(finishes(after, made.push(mv), qs, move_limit()));
                    let total = made.len() + ps.len() + qs.len();
                    assert(made.push(mv).len() + qs.len() == total);
                    if total <= budget {
                        assert(self.best_solution is Some);
                        assert(self.max_moves < total);
                    } else {
                        assert(self.max_moves <= budget);
                    }
                }
            }
            self.moves.pop();
            assert(self.moves@ =~= made);
            return !self.optimal && self.best_solution.is_some();
        }
        if self.far_from_goal(&new_cube, depth) {
            proof {
                lemma_no_path_through_far(self.tables, now, made, mv, depth as int);
            }
            return false;
        }
        self.descend_phase_1(new_cube, depth, mv)
    }

    /// Goes on with the first phase after the move `mv`, which has led to the state
    /// `new_cube`, unless the prune table of the corner permutation shows that the
    /// budget does not suffice. Returns whether the search of the moves after `mv`
    /// is to be left out. Every two-phase path that begins with `mv` and whose first
    /// phase has `depth` moves has been dealt with when it returns.
    fn descend_phase_1(&mut self, new_cube: Phase1IndexCube, depth: usize, mv: Move) -> (stop:
        bool)
        requires
            old(self).wf(),
            on_the_way(old(self).initial_state@, old(self).moves@),
            crate::solver2x2x2::may_follow(old(self).moves@, mv),
            old(self).best_solution is None ==> none_before(
                old(self).now(),
                old(self).moves@,
                depth as int,
                mv,
            ),
            2 <= depth,
            old(self).moves@.len() + depth <= MAX_PHASE_1_MOVES,
            old(self).now().moved(mv).valid(),
            new_cube == Phase1IndexCube::of(old(self).now().moved(mv)),
            new_cube.in_range(),
            new_cube.corner_permutation == corner_permutation_index(
                old(self).now().moved(mv).corners,
            ),
        ensures
            final(self).wf(),
            final(self).continues(old(self)),
            forall|ps: Seq<Move>, qs: Seq<Move>| #[trigger]
                two_phase(old(self).now(), old(self).moves@, ps, qs) && ps.len() == depth
                    && ps[0] == mv ==> final(self).covers(
                    old(self).max_moves as int,
                    old(self).moves@.len() + ps.len() + qs.len(),
                ),
            stop ==> (!final(self).optimal && final(self).best_solution is Some) || (depth >= 2
                && final(self).moves@.len() + 1 >= final(self).max_moves),
            final(self).has_found_since(old(self)) ==> stop && final(self).found_below(
                old(self).now(),
                old(self).moves@,
                depth as int,
            ),
        decreases depth, 0int,
    {
        let ghost now = self.now();
        let ghost made = self.moves@;
        let ghost after = now.moved(mv);
        let ghost budget = self.max_moves as int;
        let whole = self.whole_bound(&new_cube);
        if self.moves.len() + whole >= self.max_moves {
            proof {
                lemma_paths_through_long(self.tables, now, made, mv, depth as int);
                assert forall|ps: Seq<Move>, qs: Seq<Move>| #[trigger]
                    two_phase(now, made, ps, qs) && ps.len() == depth && ps[0]
                        == mv implies self.covers(budget, made.len() + ps.len() + qs.len()) by {
                    let total = made.len() + ps.len() + qs.len();
                    assert(total >= made.len() + 1 + whole);
                }
            }
            return false;
        }
        proof {
            lemma_after_push(self.initial_state@, made, mv);
            lemma_paths_through(now, made, mv, depth as int);
            lemma_on_the_way_push(self.initial_state@, made, mv);
        }
        self.moves.push(mv);
        assert(self.moves@ == made.push(mv));
        assert(self.now() == after);
        self.search_phase_1(new_cube, depth - 1);
        let ghost rest = self.found_first@;
        self.found_first = Ghost(seq![mv] + rest);
        proof {
            if self.has_found_since(old(self)) {
                lemma_first_opening_with_first(now, made, mv, rest, depth as int);
                assert(made.push(mv) + rest =~= made + (seq![mv] + rest));
            }
            assert forall|ps: Seq<Move>, qs: Seq<Move>| #[trigger]
                two_phase(now, made, ps, qs) && ps.len() == depth && ps[0]
                    == mv implies self.covers(budget, made.len() + ps.len() + qs.len()) by {
                let tail = ps.subrange(1, ps.len() as int);
                assert(two_phase(after, made.push(mv), tail, qs));
                let total = made.len() + ps.len() + qs.len();
                assert(made.push(mv).len() + tail.len() + qs.len() == total);
                assert(self.covers(budget, made.push(mv).len() + tail.len() + qs.len()));
            }
        }
        self.moves.pop();
        assert(self.moves@ =~= made);
        (!self.optimal && self.best_solution.is_some()) || self.moves.len() + 1 >= self.max_moves
    }

    /// What the prune table of the corner permutation asks for from the state
    /// `cube`.
    fn whole_bound(&self, cube: &Phase1IndexCube) -> (r: usize)
        requires
            self.tables.wf(),
            cube.in_range(),
        ensures
            r == self.tables.corners.permutation_prune.entry(cube.corner_permutation as int),
            r <= crate::prune::UNREACHED,
    {
        assert(cube.corner_permutation * 1 + 0 == cube.corner_permutation);
        self.tables.corners.permutation_prune.get(cube.corner_permutation, 0)
    }

    /// Whether one of the prune tables of the first phase asks for `depth` moves or
    /// more from the state `cube`.
    fn far_from_goal(&self, cube: &Phase1IndexCube, depth: usize) -> (r: bool)
        requires
            self.tables.wf(),
            cube.in_range(),
        ensures
            r == (self.tables.combined_orientation_prune.entry(
                cube.corner_orientation * 2048 + cube.edge_orientation,
            ) >= depth || self.tables.corner_orientation_edge_slice_prune.entry(
                cube.corner_orientation * 495 + cube.equatorial_edge_slice,
            ) >= depth || self.tables.edge_orientation_prune.entry(
                cube.edge_orientation * 495 + cube.equatorial_edge_slice,
            ) >= depth),
    {
        self.tables.combined_orientation_prune.get(cube.corner_orientation, cube.edge_orientation)
            >= depth || self.tables.corner_orientation_edge_slice_prune.get(
            cube.corner_orientation,
            cube.equatorial_edge_slice,
        ) >= depth || self.tables.edge_orientation_prune.get(
            cube.edge_orientation,
            cube.equatorial_edge_slice,
        ) >= depth
    }

    /// Tries every sequence of `depth` moves that continues the moves made so far
    /// from the state `cube`, which they have reached. Where a sequence reaches the
    /// goal of the first phase with its last move, the second phase is searched from
    /// there. Every two-phase path whose first phase is such a sequence has been
    /// dealt with when it returns. The moves made so far are the same then.
    pub fn search_phase_1(&mut self, cube: Phase1IndexCube, depth: usize)
        requires
            old(self).wf(),
            on_the_way(old(self).initial_state@, old(self).moves@),
            cube == Phase1IndexCube::of(old(self).now()),
            1 <= depth,
            old(self).moves@.len() + depth <= MAX_PHASE_1_MOVES,
        ensures
            final(self).wf(),
            final(self).continues(old(self)),
            forall|ps: Seq<Move>, qs: Seq<Move>| #[trigger]
                two_phase(old(self).now(), old(self).moves@, ps, qs) && ps.len() == depth
                    ==> final(self).covers(
                    old(self).max_moves as int,
                    old(self).moves@.len() + ps.len() + qs.len(),
                ),
            final(self).has_found_since(old(self)) ==> final(self).found_below(
                old(self).now(),
                old(self).moves@,
                depth as int,
            ),
        decreases depth, 2int,
    {
        let ghost now = self.now();
        let ghost made = self.moves@;
        let ghost budget = self.max_moves as int;
        let mut stop = false;
        let mut m: usize = 0;
        while m < 18 && !stop
            invariant
                m <= 18,
                self.wf(),
                self.continues(old(self)),
                now == self.now(),
                made == self.moves@,
                budget == old(self).max_moves,
                old(self).wf(),
                on_the_way(self.initial_state@, made),
                cube == Phase1IndexCube::of(now),
                1 <= depth,
                made.len() + depth <= MAX_PHASE_1_MOVES,
                stop ==> (!self.optimal && self.best_solution is Some) || (depth >= 2
                    && made.len() + 1 >= self.max_moves),
                self.has_found_since(old(self)) ==> stop && self.found_below(
                    now,
                    made,
                    depth as int,
                ),
                forall|ps: Seq<Move>, qs: Seq<Move>| #[trigger]
                    two_phase(now, made, ps, qs) && ps.len() == depth && ps[0].spec_index() < m
                        ==> self.covers(budget, made.len() + ps.len() + qs.len()),
            decreases 18 - m,
        {
            let mv = match Move::from_index(m) {
                Some(mv) => mv,
                None => Move::U,
            };
            proof {
                crate::common::lemma_move_at_index(m as int);
            }
            let ghost entering_max = self.max_moves as int;
            let ghost entering_found = self.best_solution is Some;
            proof {
                if self.best_solution is None {
                    reveal(none_before);
                    assert forall|other: Seq<Move>|
                        other.len() == depth && #[trigger] opens(
                            now,
                            made,
                            other,
                        ) implies other[0].spec_index() >= mv.spec_index() by {
                        let qs = choose|qs: Seq<Move>| #[trigger]
                            two_phase(now, made, other, qs) && made.len() + other.len() + qs.len()
                                <= move_limit();
                        if other[0].spec_index() < m {
                            assert(self.covers(budget, made.len() + other.len() + qs.len()));
                        }
                    }
                }
            }
            stop = self.try_phase_1_move(cube, depth, mv);
            proof {
                assert forall|ps: Seq<Move>, qs: Seq<Move>| #[trigger]
                    two_phase(now, made, ps, qs) && ps.len() == depth && ps[0].spec_index() < m
                        + 1 implies self.covers(budget, made.len() + ps.len() + qs.len()) by {
                    let total = made.len() + ps.len() + qs.len();
                    if ps[0].spec_index() < m {
                        assert(covered(entering_max, entering_found, self.optimal, budget, total));
                    } else {
                        crate::common::lemma_move_index_round_trip(ps[0]);
                        assert(ps[0] == mv);
                        assert(covered(
                            self.max_moves as int,
                            self.best_solution is Some,
                            self.optimal,
                            entering_max,
                            total,
                        ));
                    }
                }
            }
            m += 1;
        }
        proof {
            assert forall|ps: Seq<Move>, qs: Seq<Move>| #[trigger]
                two_phase(now, made, ps, qs) && ps.len() == depth implies self.covers(
                budget,
                made.len() + ps.len() + qs.len(),
            ) by {
                crate::common::lemma_move_index_round_trip(ps[0]);
            }
        }
    }

    /// Runs the search. From a cube that is in the goal of the first phase the
    /// second phase is searched first; then the first phase is searched with growing
    /// depth, also through states in its goal. The fast search ends with the first
    /// solution; the search for a shortest solution goes on with a budget of one move
    /// less than the best solution so far, until no two-phase path is within the
    /// budget.
    pub fn solve(self) -> (r: Option<Vec<Move>>)
        requires
            self.tables.wf(),
            self.moves@.len() == 0,
            self.best_solution is None,
            self.max_moves == MAX_SOLUTION_MOVES_3X3X3,
        ensures
            answers_3x3x3(self.initial_state@, r),
            self.optimal ==> shortest_two_phase(self.initial_state@, r),
            !self.optimal ==> first_two_phase(self.initial_state@, r),
    {
        let mut solver = self;
        let ghost start = self.initial_state@;
        if !solver.initial_state.is_valid() {
            proof {
                crate::corner::lemma_solved_corners_valid();
                crate::edge::lemma_solved_edges_valid();
            }
            return None;
        }
        if solver.initial_state.is_solved() {
            let empty: Vec<Move> = Vec::new();
            assert(solver.initial_state@.after(empty@) =~= solver.initial_state@);
            return Some(empty);
        }
        let cube = Phase1IndexCube::new(&solver.initial_state);
        assert(solver.now() =~= start);
        assert(solver.moves@ =~= Seq::<Move>::empty());
        proof {
            lemma_phase_1_indices(start);
            lemma_after_none(start);
        }
        let mut done = false;
        if cube.is_phase_solved() {
            proof {
                lemma_begin_in_second_phase(start);
            }
            solver.finish_from(&cube);
            done = !solver.optimal && solver.best_solution.is_some();
            proof {
                if done {
                    reveal(kept);
                    lemma_first_shortest_finishes(start, Seq::empty(), solver.best_second@);
                    lemma_first_opening_none(start, solver.best_second@);
                }
            }
        }
        proof {
            assert forall|ps: Seq<Move>, qs: Seq<Move>| #[trigger]
                two_phase(start, Seq::empty(), ps, qs) && ps.len() < 1 implies solver.covers(
                move_limit(),
                ps.len() + qs.len(),
            ) by {
                assert(ps =~= Seq::<Move>::empty());
                assert(Seq::<Move>::empty() + ps =~= Seq::<Move>::empty());
                assert(finishes(start, Seq::empty(), qs, move_limit()));
            }
            if done {
                assert(least_first_phase(start, 0));
            }
        }
        let mut depth: usize = 1;
        while !done && depth <= MAX_PHASE_1_MOVES && depth <= solver.max_moves
            invariant
                done ==> !solver.optimal && solver.best_solution is Some,
                done ==> solver.first_kept() && least_first_phase(start, solver.best_split@ as int),
                done ==> first_opening(
                    start,
                    Seq::empty(),
                    solver.best_first@,
                    solver.best_split@ as int,
                ),
                !solver.optimal && !done ==> solver.best_solution is None,
                solver.wf(),
                solver.continues(&self),
                solver.moves@ == Seq::<Move>::empty(),
                on_the_way(start, Seq::empty()),
                solver.now() == start,
                cube == Phase1IndexCube::of(start),
                1 <= depth <= MAX_PHASE_1_MOVES + 1,
                forall|ps: Seq<Move>, qs: Seq<Move>| #[trigger]
                    two_phase(start, Seq::empty(), ps, qs) && ps.len() < depth ==> solver.covers(
                        move_limit(),
                        ps.len() + qs.len(),
                    ),
            decreases MAX_PHASE_1_MOVES + 1 - depth,
        {
            let ghost entering_max = solver.max_moves as int;
            let ghost entering_found = solver.best_solution is Some;
            let ghost entering = solver;
            solver.search_phase_1(cube, depth);
            proof {
                if solver.has_found_since(&entering) {
                    assert(Seq::<Move>::empty() + solver.found_first@ =~= solver.found_first@);
                    assert forall|ps: Seq<Move>, qs: Seq<Move>| #[trigger]
                        two_phase(start, Seq::empty(), ps, qs) && ps.len() + qs.len()
                            <= move_limit() implies depth <= ps.len() by {
                        if ps.len() < depth {
                            assert(entering.covers(move_limit(), ps.len() + qs.len()));
                        }
                    }
                }
            }
            proof {
                assert forall|ps: Seq<Move>, qs: Seq<Move>| #[trigger]
                    two_phase(start, Seq::empty(), ps, qs) && ps.len() < depth
                        + 1 implies solver.covers(move_limit(), ps.len() + qs.len()) by {
                    let total = ps.len() + qs.len();
                    if ps.len() < depth {
                        assert(covered(
                            entering_max,
                            entering_found,
                            solver.optimal,
                            move_limit(),
                            total,
                        ));
                    } else {
                        assert(solver.covers(entering_max, total));
                        assert(Seq::<Move>::empty().len() + ps.len() + qs.len() == total);
                    }
                }
            }
            done = !solver.optimal && solver.best_solution.is_some();
            depth += 1;
        }
        proof {
            assert forall|ps: Seq<Move>, qs: Seq<Move>| #[trigger]
                two_phase(start, Seq::empty(), ps, qs) && ps.len()
                    <= MAX_PHASE_1_MOVES implies solver.covers(
                move_limit(),
                ps.len() + qs.len(),
            ) by {}
        }
        proof {
            if !solver.optimal && solver.best_solution is Some {
                reveal(kept);
                let solution = solver.best_solution->Some_0@;
                let ps = solver.best_first@;
                let qs = solver.best_second@;
                assert(solution == ps + qs && first_opening(start, Seq::empty(), ps, ps.len() as int)
                    && least_first_phase(start, ps.len() as int) && first_shortest_finish(
                    start.after(ps),
                    ps,
                    qs,
                ));
            }
        }
        solver.best_solution
    }
}

impl Cube3x3x3 {
    /// Searches for a shortest sequence of moves that solves the cube, with tables
    /// that the caller keeps: the search goes on after the first solution, with the
    /// budget of moves one below the best found.
    pub fn solve_with(&self, tables: &Tables3x3x3) -> (r: Option<Vec<Move>>)
        requires
            tables.wf(),
        ensures
            answers_3x3x3(self@, r),
            shortest_two_phase(self@, r),
            shortest_of_all(self@, r),
    {
        let r = Solver::new(self, tables, true).solve();
        proof {
            lemma_shortest_of_all(self@, r);
        }
        r
    }

    /// Searches for a sequence of moves that solves the cube, with tables that the
    /// caller keeps: the search ends with the first branch of the first phase that
    /// the second phase completes.
    pub fn solve_fast_with(&self, tables: &Tables3x3x3) -> (r: Option<Vec<Move>>)
        requires
            tables.wf(),
        ensures
            answers_3x3x3(self@, r),
            first_two_phase(self@, r),
    {
        Solver::new(self, tables, false).solve()
    }

    /// Searches for a shortest sequence of moves that solves the cube: the answer is a
    /// shortest two-phase path, and shortest of all wherever at most 12 moves solve
    /// the cube.
    pub fn solve(&self) -> (r: Option<Vec<Move>>)
        ensures
            answers_3x3x3(self@, r),
            shortest_two_phase(self@, r),
            shortest_of_all(self@, r),
    {
        let tables = Tables3x3x3::new();
        self.solve_with(&tables)
    }

    /// Searches for a sequence of moves that solves the cube, not always a
    /// shortest one: the search ends with its first solution.
    pub fn solve_fast(&self) -> (r: Option<Vec<Move>>)
        ensures
            answers_3x3x3(self@, r),
            first_two_phase(self@, r),
    {
        let tables = Tables3x3x3::new();
        self.solve_fast_with(&tables)
    }
}

/// Whether moves are the scramble that comes of an answer of the solver: the
/// inverse of the solution, or no moves where there is no solution.
pub open spec fn scramble_of(solution: Option<Vec<Move>>, moves: Seq<Move>) -> bool {
    match solution {
        Some(solution) => moves == inverse_sequence(solution@),
        None => moves.len() == 0,
    }
}

/// Generates a random scramble: the inverse of the answer of the search for a
/// shortest solution to a random state. The scramble is empty where the solver
/// finds no solution.
pub fn scramble_3x3x3() -> (r: Vec<Move>)
    ensures
        scrambles_3x3x3(r@),
        exists|state: Pieces3x3x3, solution: Option<Vec<Move>>|
            state.valid() && #[trigger] answers_3x3x3(state, solution) && shortest_two_phase(
                state,
                solution,
            ) && scramble_of(solution, r@),
{
    let state = Cube3x3x3::random();
    let solution = state.solve();
    let scramble = scramble_from(&state, solution);
    proof {
        assert(state@.valid() && answers_3x3x3(state@, solution) && shortest_two_phase(
            state@,
            solution,
        ) && scramble_of(solution, scramble@));
    }
    scramble
}

/// Generates a random scramble very fast, but with more moves than needed: the
/// inverse of the answer of the fast search to a random state.
pub fn scramble_3x3x3_fast() -> (r: Vec<Move>)
    ensures
        scrambles_3x3x3(r@),
        exists|state: Pieces3x3x3, solution: Option<Vec<Move>>|
            state.valid() && #[trigger] answers_3x3x3(state, solution) && first_two_phase(
                state,
                solution,
            ) && scramble_of(solution, r@),
{
    let state = Cube3x3x3::random();
    let solution = state.solve_fast();
    let scramble = scramble_from(&state, solution);
    proof {
        assert(state@.valid() && answers_3x3x3(state@, solution) && first_two_phase(
            state@,
            solution,
        ) && scramble_of(solution, scramble@));
    }
    scramble
}

/// What holds of a scramble: it is within the limit of moves, and its inverse
/// solves a state that legal moves reach.
pub open spec fn scrambles_3x3x3(moves: Seq<Move>) -> bool {
    &&& moves.len() <= MAX_SOLUTION_MOVES_3X3X3
    &&& exists|state: Pieces3x3x3| #[trigger]
        state.valid() && state.after(inverse_sequence(moves)) == Pieces3x3x3::solved()
}

/// Turns the answer of the solver to a state into a scramble: the inverse of the
/// solution, or the empty scramble where there is none.
pub fn scramble_from(state: &Cube3x3x3, solution: Option<Vec<Move>>) -> (r: Vec<Move>)
    requires
        answers_3x3x3(state@, solution),
    ensures
        scrambles_3x3x3(r@),
        match solution {
            Some(moves) => r@ == inverse_sequence(moves@),
            None => r@.len() == 0,
        },
{
    match solution {
        Some(moves) => {
            let scramble = inverse_moves(&moves);
            proof {
                crate::common::lemma_inverse_sequence_twice(moves@);
                assert(state@.valid() && state@.after(inverse_sequence(scramble@))
                    == Pieces3x3x3::solved());
            }
            scramble
        },
        None => {
            let scramble: Vec<Move> = Vec::new();
            proof {
                crate::corner::lemma_solved_corners_valid();
                crate::edge::lemma_solved_edges_valid();
                let solved = Pieces3x3x3::solved();
                assert(inverse_sequence(scramble@) =~= Seq::<Move>::empty());
                assert(solved.valid() && solved.after(inverse_sequence(scramble@)) == solved);
            }
            scramble
        },
    }
}

/// What holds of the answer of the solver to the colors of a cube: a solution is a
/// solution of the pieces that the colors show, and there is none where the colors
/// show no pieces or the solver has none for the pieces.
pub open spec fn answers_3x3x3_faces(f: Seq<Color>, r: Option<Vec<Move>>) -> bool {
    match r {
        Some(_) => exists|p: Pieces3x3x3| #[trigger] decodes_to(f, p) && answers_3x3x3(p, r),
        None => forall|p: Pieces3x3x3| #[trigger] decodes_to(f, p) ==> answers_3x3x3(p, r),
    }
}

/// What holds of the answer of the search for a shortest solution to the colors of a
/// cube: what holds of its answer to the pieces that the colors show.
pub open spec fn shortest_two_phase_faces(f: Seq<Color>, r: Option<Vec<Move>>) -> bool {
    forall|p: Pieces3x3x3| #[trigger]
        decodes_to(f, p) ==> shortest_two_phase(p, r) && shortest_of_all(p, r)
}

/// What holds of the answer of the fast search to the colors of a cube: what holds
/// of its answer to the pieces that the colors show.
pub open spec fn first_two_phase_faces(f: Seq<Color>, r: Option<Vec<Move>>) -> bool {
    forall|p: Pieces3x3x3| #[trigger] decodes_to(f, p) ==> first_two_phase(p, r)
}

impl Cube3x3x3Faces {
    /// The pieces that the colors show and the answer of the solver to them, or no
    /// answer where the colors show no pieces.
    fn solve_pieces_with(&self, tables: &Tables3x3x3, optimal: bool) -> (r: Option<Vec<Move>>)
        requires
            tables.wf(),
        ensures
            answers_3x3x3_faces(self@, r),
            optimal ==> shortest_two_phase_faces(self@, r),
            !optimal ==> first_two_phase_faces(self@, r),
    {
        match self.as_pieces() {
            Ok(pieces) => {
                let r = Solver::new(&pieces, tables, optimal).solve();
                proof {
                    if optimal {
                        lemma_shortest_of_all(pieces@, r);
                    }
                    assert(decodes_to(self@, pieces@) && answers_3x3x3(pieces@, r));
                    assert forall|p: Pieces3x3x3| #[trigger] decodes_to(self@, p) implies p
                        == pieces@ by {
                        lemma_decoding_unique(self@, p, pieces@);
                    }
                }
                r
            },
            Err(_) => {
                proof {
                    assert forall|p: Pieces3x3x3| !#[trigger] decodes_to(self@, p) by {
                        if decodes_to(self@, p) {
                            lemma_shown_everywhere(self@, p);
                        }
                    }
                }
                None
            },
        }
    }

    /// Searches for a shortest solution of the pieces that the colors show, with
    /// tables that the caller keeps. Colors that show no pieces have no solution.
    pub fn solve_with(&self, tables: &Tables3x3x3) -> (r: Option<Vec<Move>>)
        requires
            tables.wf(),
        ensures
            answers_3x3x3_faces(self@, r),
            shortest_two_phase_faces(self@, r),
    {
        self.solve_pieces_with(tables, true)
    }

    /// Searches for a solution of the pieces that the colors show, with tables that
    /// the caller keeps. Colors that show no pieces have no solution.
    pub fn solve_fast_with(&self, tables: &Tables3x3x3) -> (r: Option<Vec<Move>>)
        requires
            tables.wf(),
        ensures
            answers_3x3x3_faces(self@, r),
            first_two_phase_faces(self@, r),
    {
        self.solve_pieces_with(tables, false)
    }

    /// Searches for a shortest solution of the pieces that the colors show: the
    /// answer is a shortest two-phase path.
    pub fn solve(&self) -> (r: Option<Vec<Move>>)
        ensures
            answers_3x3x3_faces(self@, r),
            shortest_two_phase_faces(self@, r),
    {
        let tables = Tables3x3x3::new();
        self.solve_with(&tables)
    }

    /// Searches for a solution of the pieces that the colors show: the search ends
    /// with its first solution.
    pub fn solve_fast(&self) -> (r: Option<Vec<Move>>)
        ensures
            answers_3x3x3_faces(self@, r),
            first_two_phase_faces(self@, r),
    {
        let tables = Tables3x3x3::new();
        self.solve_fast_with(&tables)
    }
}

} // verus!

use crate::common::Move;
use crate::corner::{
    corner_orientation_index, corner_permutation_index, corners_of_orientation_index,
    corners_of_permutation_index, lemma_corners_turned_valid, lemma_solved_corners_valid,
    new_corners, oriented_corners, permuted_corners, solved_corners,
};
use crate::cube3x3x3::{Cube3x3x3, Pieces3x3x3};
use crate::edge::{
    edge_orientation_index, edges_of_orientation_index, edges_of_permutation_index,
    edges_of_slice_index, equatorial_edge_slice_index, lemma_bijective_equatorial_count,
    lemma_edges_turned_valid, lemma_solved_edges_valid, new_edges, oriented_edges,
    permuted_edges, phase_2_edge_permutation_index, phase_2_equatorial_edge_permutation_index,
    sliced_edges, solved_edges,
};
use vstd::prelude::*;

verus! {

/// The index spaces in which the solvers search. Each maps a cube state to a small
/// number that is zero for the solved cube.
#[derive(Clone, Copy, Debug, PartialEq, Eq, Structural)]
pub enum Coordinate {
    CornerOrientation,
    CornerPermutation,
    EdgeOrientation,
    EquatorialEdgeSlice,
    Phase2EdgePermutation,
    Phase2EquatorialEdgePermutation,
}

/// A move keeps what holds of every reachable state.
pub proof fn lemma_moved_valid(p: Pieces3x3x3, mv: Move)
    requires
        p.valid(),
    ensures
        p.moved(mv).valid(),
{
    lemma_corners_turned_valid(p.corners, mv.spec_face(), mv.quarter_turns());
    lemma_edges_turned_valid(p.edges, mv.spec_face(), mv.quarter_turns());
}

impl Coordinate {
    /// Number of different indices of the coordinate.
    pub open spec fn spec_count(self) -> int {
        match self {
            Coordinate::CornerOrientation => 2187,
            Coordinate::CornerPermutation => 40320,
            Coordinate::EdgeOrientation => 2048,
            Coordinate::EquatorialEdgeSlice => 495,
            Coordinate::Phase2EdgePermutation => 40320,
            Coordinate::Phase2EquatorialEdgePermutation => 24,
        }
    }

    /// The index of a state.
    pub open spec fn index_of(self, p: Pieces3x3x3) -> int {
        match self {
            Coordinate::CornerOrientation => corner_orientation_index(p.corners),
            Coordinate::CornerPermutation => corner_permutation_index(p.corners),
            Coordinate::EdgeOrientation => edge_orientation_index(p.edges),
            Coordinate::EquatorialEdgeSlice => equatorial_edge_slice_index(p.edges),
            Coordinate::Phase2EdgePermutation => phase_2_edge_permutation_index(p.edges),
            Coordinate::Phase2EquatorialEdgePermutation => phase_2_equatorial_edge_permutation_index(
                p.edges,
            ),
        }
    }

    /// The state that stands for an index when the move tables are built. It is
    /// solved but for what the coordinate reads.
    pub open spec fn representative(self, idx: int) -> Pieces3x3x3 {
        match self {
            Coordinate::CornerOrientation => Pieces3x3x3 {
                corners: oriented_corners(idx),
                edges: solved_edges(),
            },
            Coordinate::CornerPermutation => Pieces3x3x3 {
                corners: permuted_corners(idx),
                edges: solved_edges(),
            },
            Coordinate::EdgeOrientation => Pieces3x3x3 {
                corners: solved_corners(),
                edges: oriented_edges(idx),
            },
            Coordinate::EquatorialEdgeSlice => Pieces3x3x3 {
                corners: solved_corners(),
                edges: sliced_edges(idx),
            },
            Coordinate::Phase2EdgePermutation => Pieces3x3x3 {
                corners: solved_corners(),
                edges: permuted_edges(0, 8, idx),
            },
            Coordinate::Phase2EquatorialEdgePermutation => Pieces3x3x3 {
                corners: solved_corners(),
                edges: permuted_edges(8, 4, idx),
            },
        }
    }

    /// Index that the move table holds for an index and a move: that of the
    /// representative state after the move.
    pub open spec fn moved_index(self, idx: int, mv: Move) -> int {
        self.index_of(self.representative(idx).moved(mv))
    }

    #[verifier::when_used_as_spec(spec_count_usize)]
    pub fn count(self) -> (r: usize)
        ensures
            r == self.spec_count(),
    {
        match self {
            Coordinate::CornerOrientation => 2187,
            Coordinate::CornerPermutation => 40320,
            Coordinate::EdgeOrientation => 2048,
            Coordinate::EquatorialEdgeSlice => 495,
            Coordinate::Phase2EdgePermutation => 40320,
            Coordinate::Phase2EquatorialEdgePermutation => 24,
        }
    }

    /// Number of different indices of the coordinate, as a machine number.
    pub open spec fn spec_count_usize(self) -> usize {
        self.spec_count() as usize
    }

    /// Computes the index of a state.
    pub fn index(self, cube: &Cube3x3x3) -> (r: u16)
        requires
            cube@.valid(),
        ensures
            r == self.index_of(cube@),
            r < self.spec_count(),
    {
        match self {
            Coordinate::CornerOrientation => cube.corner_orientation_index(),
            Coordinate::CornerPermutation => cube.corner_permutation_index(),
            Coordinate::EdgeOrientation => cube.edge_orientation_index(),
            Coordinate::EquatorialEdgeSlice => {
                proof {
                    lemma_bijective_equatorial_count(cube@.edges);
                }
                cube.equatorial_edge_slice_index()
            },
            Coordinate::Phase2EdgePermutation => cube.phase_2_edge_permutation_index(),
            Coordinate::Phase2EquatorialEdgePermutation => cube.phase_2_equatorial_edge_permutation_index(),
        }
    }

    /// Builds the state that stands for an index.
    pub fn state(self, idx: u16) -> (r: Cube3x3x3)
        ensures
            r@ == self.representative(idx as int),
            r@.valid(),
    {
        proof {
            lemma_solved_corners_valid();
            lemma_solved_edges_valid();
        }
        match self {
            Coordinate::CornerOrientation => Cube3x3x3::from_corners_and_edges(
                corners_of_orientation_index(idx),
                new_edges(),
            ),
            Coordinate::CornerPermutation => Cube3x3x3::from_corners_and_edges(
                corners_of_permutation_index(idx),
                new_edges(),
            ),
            Coordinate::EdgeOrientation => Cube3x3x3::from_corners_and_edges(
                new_corners(),
                edges_of_orientation_index(idx),
            ),
            Coordinate::EquatorialEdgeSlice => Cube3x3x3::from_corners_and_edges(
                new_corners(),
                edges_of_slice_index(idx),
            ),
            Coordinate::Phase2EdgePermutation => Cube3x3x3::from_corners_and_edges(
                new_corners(),
                edges_of_permutation_index(0, 8, idx),
            ),
            Coordinate::Phase2EquatorialEdgePermutation => Cube3x3x3::from_corners_and_edges(
                new_corners(),
                edges_of_permutation_index(8, 4, idx),
            ),
        }
    }
}

/// For one coordinate, the index after each move from each index.
pub struct MoveTable {
    coordinate: Coordinate,
    entries: Vec<u16>,
}

impl MoveTable {
    /// The coordinate that the table is for.
    pub closed spec fn coordinate(&self) -> Coordinate {
        self.coordinate
    }

    /// The entry for an index and a move.
    pub closed spec fn entry(&self, idx: int, mv: Move) -> int {
        self.entries@[idx * 18 + mv.spec_index()] as int
    }

    /// The table holds, for every index of its coordinate and every move, the index
    /// of the representative state after the move.
    pub closed spec fn wf(&self) -> bool {
        &&& self.entries@.len() == self.coordinate.spec_count() * 18
        &&& forall|i: int|
            0 <= i < self.entries@.len() ==> #[trigger] self.entries@[i]
                == self.coordinate.moved_index(i / 18, Move::at(i % 18))
        &&& forall|i: int|
            0 <= i < self.entries@.len() ==> #[trigger] self.entries@[i]
                < self.coordinate.spec_count()
    }

    /// What a well-formed table holds.
    pub proof fn lemma_entry(&self, idx: int, mv: Move)
        requires
            self.wf(),
            0 <= idx < self.coordinate().spec_count(),
        ensures
            self.entry(idx, mv) == self.coordinate().moved_index(idx, mv),
            0 <= self.entry(idx, mv) < self.coordinate().spec_count(),
    {
        let i = idx * 18 + mv.spec_index();
        assert(i / 18 == idx && i % 18 == mv.spec_index());
        crate::common::lemma_move_index_round_trip(mv);
        assert(self.entries@[i] == self.coordinate.moved_index(i / 18, Move::at(i % 18)));
    }

    /// Builds the table of a coordinate: for every index, the representative state
    /// is built, every move is applied to it, and the index of the result is kept.
    pub fn new(coordinate: Coordinate) -> (r: Self)
        ensures
            r.wf(),
            r.coordinate() == coordinate,
    {
        let count = coordinate.count();
        let mut entries: Vec<u16> = Vec::new();
        let mut idx: usize = 0;
        while idx < count
            invariant
                idx <= count,
                count == coordinate.spec_count(),
                entries@.len() == idx * 18,
                forall|i: int|
                    0 <= i < entries@.len() ==> #[trigger] entries@[i] == coordinate.moved_index(
                        i / 18,
                        Move::at(i % 18),
                    ),
                forall|i: int|
                    0 <= i < entries@.len() ==> #[trigger] entries@[i] < coordinate.spec_count(),
            decreases count - idx,
        {
            let state = coordinate.state(idx as u16);
            let mut m: usize = 0;
            while m < 18
                invariant
                    m <= 18,
                    idx < count,
                    count == coordinate.spec_count(),
                    state@ == coordinate.representative(idx as int),
                    state@.valid(),
                    entries@.len() == idx * 18 + m,
                    forall|i: int|
                        0 <= i < entries@.len() ==> #[trigger] entries@[i]
                            == coordinate.moved_index(i / 18, Move::at(i % 18)),
                    forall|i: int|
                        0 <= i < entries@.len() ==> #[trigger] entries@[i]
                            < coordinate.spec_count(),
                decreases 18 - m,
            {
                let mv = match Move::from_index(m) {
                    Some(mv) => mv,
                    None => Move::U,
                };
                let mut cube = state;
                cube.do_move(mv);
                proof {
                    lemma_moved_valid(state@, mv);
                    let i = idx * 18 + m;
                    assert(i / 18 == idx && i % 18 == m);
                }
                let next = coordinate.index(&cube);
                entries.push(next);
                m += 1;
            }
            idx += 1;
        }
        MoveTable { coordinate, entries }
    }

    /// The coordinate that the table is for.
    pub fn coordinate_of(&self) -> (r: Coordinate)
        ensures
            r == self.coordinate(),
    {
        self.coordinate
    }

    /// Looks up the index after a move.
    pub fn get(&self, idx: u16, mv: Move) -> (r: u16)
        requires
            self.wf(),
            idx < self.coordinate().spec_count(),
        ensures
            r == self.entry(idx as int, mv),
            r == self.coordinate().moved_index(idx as int, mv),
            r < self.coordinate().spec_count(),
    {
        proof {
            self.lemma_entry(idx as int, mv);
        }
        self.entries[idx as usize * 18 + mv.index()]
    }
}

} // verus!

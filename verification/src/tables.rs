use crate::coordinate::{Coordinate, MoveTable};
use crate::prune::PruneTable;
use vstd::prelude::*;

verus! {

/// The move and prune tables of the corners. The 2x2x2 solver needs no others, and
/// the 3x3x3 solver shares them.
pub struct CornerTables {
    pub orientation_move: MoveTable,
    pub permutation_move: MoveTable,
    pub orientation_prune: PruneTable,
    pub permutation_prune: PruneTable,
}

/// The move and prune tables of the two-phase solver of the 3x3x3 cube.
pub struct Tables3x3x3 {
    pub corners: CornerTables,
    pub edge_orientation_move: MoveTable,
    pub equatorial_edge_slice_move: MoveTable,
    pub phase_2_edge_permutation_move: MoveTable,
    pub phase_2_equatorial_edge_permutation_move: MoveTable,
    pub combined_orientation_prune: PruneTable,
    pub corner_orientation_edge_slice_prune: PruneTable,
    pub edge_orientation_prune: PruneTable,
    pub corner_edge_permutation_prune: PruneTable,
    pub phase_2_edge_permutation_prune: PruneTable,
}

impl CornerTables {
    /// Every table is the table of its coordinates, built with all moves.
    pub open spec fn wf(&self) -> bool {
        &&& self.orientation_move.wf()
        &&& self.orientation_move.coordinate() == Coordinate::CornerOrientation
        &&& self.permutation_move.wf()
        &&& self.permutation_move.coordinate() == Coordinate::CornerPermutation
        &&& self.orientation_prune.wf(&self.orientation_move, None, false)
        &&& self.permutation_prune.wf(&self.permutation_move, None, false)
    }

    /// Builds the tables.
    pub fn new() -> (r: Self)
        ensures
            r.wf(),
    {
        let orientation_move = MoveTable::new(Coordinate::CornerOrientation);
        let permutation_move = MoveTable::new(Coordinate::CornerPermutation);
        let orientation_prune = PruneTable::new(&orientation_move, None, false);
        let permutation_prune = PruneTable::new(&permutation_move, None, false);
        CornerTables { orientation_move, permutation_move, orientation_prune, permutation_prune }
    }
}

impl Tables3x3x3 {
    /// Every table is the table of its coordinates: those of the first phase built
    /// with all moves, those of the second phase with the moves of that phase.
    pub open spec fn wf(&self) -> bool {
        &&& self.corners.wf()
        &&& self.edge_orientation_move.wf()
        &&& self.edge_orientation_move.coordinate() == Coordinate::EdgeOrientation
        &&& self.equatorial_edge_slice_move.wf()
        &&& self.equatorial_edge_slice_move.coordinate() == Coordinate::EquatorialEdgeSlice
        &&& self.phase_2_edge_permutation_move.wf()
        &&& self.phase_2_edge_permutation_move.coordinate() == Coordinate::Phase2EdgePermutation
        &&& self.phase_2_equatorial_edge_permutation_move.wf()
        &&& self.phase_2_equatorial_edge_permutation_move.coordinate()
            == Coordinate::Phase2EquatorialEdgePermutation
        &&& self.combined_orientation_prune.wf(
            &self.corners.orientation_move,
            Some(&self.edge_orientation_move),
            false,
        )
        &&& self.corner_orientation_edge_slice_prune.wf(
            &self.corners.orientation_move,
            Some(&self.equatorial_edge_slice_move),
            false,
        )
        &&& self.edge_orientation_prune.wf(
            &self.edge_orientation_move,
            Some(&self.equatorial_edge_slice_move),
            false,
        )
        &&& self.corner_edge_permutation_prune.wf(
            &self.corners.permutation_move,
            Some(&self.phase_2_equatorial_edge_permutation_move),
            true,
        )
        &&& self.phase_2_edge_permutation_prune.wf(
            &self.phase_2_edge_permutation_move,
            Some(&self.phase_2_equatorial_edge_permutation_move),
            true,
        )
    }

    /// Builds the tables.
    pub fn new() -> (r: Self)
        ensures
            r.wf(),
    {
        let corners = CornerTables::new();
        let edge_orientation_move = MoveTable::new(Coordinate::EdgeOrientation);
        let equatorial_edge_slice_move = MoveTable::new(Coordinate::EquatorialEdgeSlice);
        let phase_2_edge_permutation_move = MoveTable::new(Coordinate::Phase2EdgePermutation);
        let phase_2_equatorial_edge_permutation_move = MoveTable::new(
            Coordinate::Phase2EquatorialEdgePermutation,
        );
        let combined_orientation_prune = PruneTable::new(
            &corners.orientation_move,
            Some(&edge_orientation_move),
            false,
        );
        let corner_orientation_edge_slice_prune = PruneTable::new(
            &corners.orientation_move,
            Some(&equatorial_edge_slice_move),
            false,
        );
        let edge_orientation_prune = PruneTable::new(
            &edge_orientation_move,
            Some(&equatorial_edge_slice_move),
            false,
        );
        let corner_edge_permutation_prune = PruneTable::new(
            &corners.permutation_move,
            Some(&phase_2_equatorial_edge_permutation_move),
            true,
        );
        let phase_2_edge_permutation_prune = PruneTable::new(
            &phase_2_edge_permutation_move,
            Some(&phase_2_equatorial_edge_permutation_move),
            true,
        );
        Tables3x3x3 {
            corners,
            edge_orientation_move,
            equatorial_edge_slice_move,
            phase_2_edge_permutation_move,
            phase_2_equatorial_edge_permutation_move,
            combined_orientation_prune,
            corner_orientation_edge_slice_prune,
            edge_orientation_prune,
            corner_edge_permutation_prune,
            phase_2_edge_permutation_prune,
        }
    }
}

} // verus!

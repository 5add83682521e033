use tpscube_core::common::{Corner, CornerPiece, Move, SimpleSeededRandomSource};
use tpscube_core::coordinate::{Coordinate, MoveTable};
use tpscube_core::cube2x2x2::Cube2x2x2;
use tpscube_core::cube3x3x3::{Cube3x3x3, Cube3x3x3Faces};
use tpscube_core::prune::{is_phase_2_move, PruneTable};
use tpscube_core::solver2x2x2::{follows, scramble_2x2x2};
use tpscube_core::solver3x3x3::{scramble_3x3x3, scramble_3x3x3_fast};
use tpscube_core::tables::{CornerTables, Tables3x3x3};

#[test]
fn searches_of_random_states() {
    let tables = Tables3x3x3::new();
    let mut rng = SimpleSeededRandomSource::new();
    for _ in 0..5 {
        let cube = Cube3x3x3::sourced_random(&mut rng);
        let best = cube.solve_with(&tables).unwrap();
        let fast = cube.solve_fast_with(&tables).unwrap();
        assert!(best.len() <= fast.len());
        assert!(fast.len() <= 30);
        let mut replay = cube;
        replay.do_moves(&best);
        assert!(replay.is_solved());
        let mut replay = cube;
        replay.do_moves(&fast);
        assert!(replay.is_solved());
        let faces = cube.as_faces();
        let mut replay = faces;
        replay.do_moves(&faces.solve_fast_with(&tables).unwrap());
        assert!(replay.is_solved());
    }
}

#[test]
fn the_solved_cube_has_the_empty_solution() {
    let tables = Tables3x3x3::new();
    assert_eq!(Cube3x3x3::new().solve_with(&tables), Some(Vec::new()));
    assert_eq!(Cube3x3x3::new().solve_fast_with(&tables), Some(Vec::new()));
    assert_eq!(
        Cube3x3x3Faces::new().solve_with(&tables),
        Some(Vec::new())
    );
    assert_eq!(
        Cube2x2x2::new().solve_with(&tables.corners),
        Some(Vec::new())
    );
}

#[test]
fn short_scrambles_have_short_solutions() {
    let tables = Tables3x3x3::new();
    let mut cube = Cube3x3x3::new();
    cube.do_move(Move::R);
    assert_eq!(cube.solve_with(&tables), Some(vec![Move::Rp]));
    let fast = cube.solve_fast_with(&tables).unwrap();
    assert_eq!(fast[0], Move::R);
    let mut replay = cube;
    replay.do_moves(&fast);
    assert!(replay.is_solved());
    let mut cube = Cube3x3x3::new();
    cube.do_move(Move::U2);
    assert_eq!(cube.solve_with(&tables), Some(vec![Move::U2]));
    let mut cube = Cube3x3x3::new();
    cube.do_moves(&[Move::R, Move::U, Move::F]);
    assert_eq!(
        cube.solve_with(&tables),
        Some(vec![Move::Fp, Move::Up, Move::Rp])
    );
    let mut cube = Cube3x3x3::new();
    cube.do_moves(&[Move::U, Move::D2, Move::R2, Move::F2]);
    let solution = cube.solve_with(&tables).unwrap();
    assert_eq!(solution.len(), 4);
    let mut small = Cube2x2x2::new();
    small.do_moves(&[Move::R, Move::U]);
    assert_eq!(
        small.solve_with(&tables.corners),
        Some(vec![Move::Up, Move::Rp])
    );
}

#[test]
fn a_state_that_no_moves_reach_has_no_solution() {
    let tables = Tables3x3x3::new();
    let mut corners = [CornerPiece {
        piece: Corner::URF,
        orientation: 0,
    }; 8];
    for i in 0..8 {
        corners[i].piece = Corner::from_index(i).unwrap();
    }
    corners[2].orientation = 2;
    assert_eq!(
        Cube2x2x2::from_corners(corners).solve_with(&tables.corners),
        None
    );
    let solved = Cube3x3x3::new();
    let mut edges = [solved.edge_piece(tpscube_core::cube3x3x3::Edge3x3x3::UR); 12];
    for i in 0..12 {
        edges[i] = solved.edge_piece(tpscube_core::cube3x3x3::Edge3x3x3::from_index(i).unwrap());
    }
    assert_eq!(
        Cube3x3x3::from_corners_and_edges(corners, edges).solve_with(&tables),
        None
    );
    corners[2].orientation = 0;
    edges[4].orientation = 1;
    assert_eq!(
        Cube3x3x3::from_corners_and_edges(corners, edges).solve_fast_with(&tables),
        None
    );
}

#[test]
fn two_by_two_solutions_are_short() {
    let tables = CornerTables::new();
    let mut rng = SimpleSeededRandomSource::new();
    for _ in 0..10 {
        let cube = Cube2x2x2::sourced_random(&mut rng);
        let solution = cube.solve_with(&tables).unwrap();
        assert!(solution.len() <= 11);
        let mut replay = cube;
        replay.do_moves(&solution);
        assert!(replay.is_solved());
        let faces = cube.as_faces();
        let mut replay = faces;
        replay.do_moves(&faces.solve_with(&tables).unwrap());
        assert!(replay.is_solved());
    }
}

#[test]
fn move_tables_follow_the_moves() {
    let coordinates = [
        Coordinate::CornerOrientation,
        Coordinate::CornerPermutation,
        Coordinate::EdgeOrientation,
        Coordinate::EquatorialEdgeSlice,
    ];
    let mut rng = SimpleSeededRandomSource::new();
    for coordinate in coordinates {
        let table = MoveTable::new(coordinate);
        assert_eq!(table.coordinate_of(), coordinate);
        for idx in [0u16, 1, 7, 23] {
            assert_eq!(coordinate.index(&coordinate.state(idx)), idx);
        }
        let last = (coordinate.count() - 1) as u16;
        assert_eq!(coordinate.index(&coordinate.state(last)), last);
        let mut cube = Cube3x3x3::new();
        for _ in 0..200 {
            let mv = Move::sourced_random_3x3x3(&mut rng);
            let before = coordinate.index(&cube);
            cube.do_move(mv);
            assert_eq!(table.get(before, mv), coordinate.index(&cube));
        }
    }
    for coordinate in [
        Coordinate::Phase2EdgePermutation,
        Coordinate::Phase2EquatorialEdgePermutation,
    ] {
        let table = MoveTable::new(coordinate);
        let last = (coordinate.count() - 1) as u16;
        assert_eq!(coordinate.index(&coordinate.state(last)), last);
        assert_eq!(coordinate.index(&coordinate.state(5)), 5);
        let mut cube = Cube3x3x3::new();
        for _ in 0..200 {
            let mv = Move::sourced_random_3x3x3(&mut rng);
            if is_phase_2_move(mv) {
                let before = coordinate.index(&cube);
                cube.do_move(mv);
                assert_eq!(table.get(before, mv), coordinate.index(&cube));
            }
        }
    }
}

#[test]
fn prune_tables_hold_distances() {
    let orientation = MoveTable::new(Coordinate::CornerOrientation);
    let slice = MoveTable::new(Coordinate::EquatorialEdgeSlice);
    let single = PruneTable::new(&orientation, None, false);
    let pair = PruneTable::new(&orientation, Some(&slice), false);
    assert_eq!(single.get(0, 0), 0);
    assert_eq!(pair.get(0, 0), 0);
    let mut cube = Cube3x3x3::new();
    cube.do_move(Move::R);
    let a = Coordinate::CornerOrientation.index(&cube);
    let b = Coordinate::EquatorialEdgeSlice.index(&cube);
    assert_eq!(single.get(a, 0), 1);
    assert_eq!(pair.get(a, b), 1);
    cube.do_move(Move::F);
    let a = Coordinate::CornerOrientation.index(&cube);
    let b = Coordinate::EquatorialEdgeSlice.index(&cube);
    assert_eq!(pair.get(a, b), 2);
    cube.do_moves(&[Move::Fp, Move::Rp]);
    assert_eq!(Coordinate::CornerOrientation.index(&cube), 0);
    assert_ne!(a, 0);
    let mut deepest = 0;
    for idx in 0..2187u16 {
        let depth = single.get(idx, 0);
        assert!(depth <= 6);
        deepest = deepest.max(depth);
        for mv in [Move::U, Move::R, Move::Fp, Move::L2] {
            assert!(single.get(orientation.get(idx, mv), 0) <= depth + 1);
        }
    }
    assert_eq!(deepest, 6);
    let permutation = MoveTable::new(Coordinate::Phase2EquatorialEdgePermutation);
    let second = PruneTable::new(&permutation, None, true);
    for idx in 0..24u16 {
        assert!(second.get(idx, 0) <= 4);
    }
}

#[test]
fn useless_moves_are_left_out() {
    assert!(!follows(Move::U, Move::U2));
    assert!(!follows(Move::R, Move::Rp));
    assert!(follows(Move::U, Move::D));
    assert!(!follows(Move::D, Move::U));
    assert!(follows(Move::F, Move::B2));
    assert!(!follows(Move::B2, Move::F));
    assert!(follows(Move::R, Move::L));
    assert!(!follows(Move::L, Move::R));
    assert!(follows(Move::U, Move::R));
    assert!(follows(Move::R, Move::U));
    let phase_2: Vec<Move> = (0..18)
        .map(|i| Move::from_index(i).unwrap())
        .filter(|mv| is_phase_2_move(*mv))
        .collect();
    assert_eq!(
        phase_2,
        vec![
            Move::U,
            Move::Up,
            Move::U2,
            Move::F2,
            Move::R2,
            Move::B2,
            Move::L2,
            Move::D,
            Move::Dp,
            Move::D2
        ]
    );
}

#[test]
fn scrambles_lead_to_valid_states() {
    let scramble = scramble_2x2x2();
    assert!(scramble.len() <= 14);
    let mut cube = Cube2x2x2::new();
    cube.do_moves(&scramble);
    assert!(cube.is_valid());
    let fast = scramble_3x3x3_fast();
    assert!(fast.len() <= 30);
    assert!(!fast.is_empty());
    let mut cube = Cube3x3x3::new();
    cube.do_moves(&fast);
    assert!(cube.is_valid());
    assert!(!cube.is_solved());
    let best = scramble_3x3x3();
    assert!(best.len() <= 30);
    assert!(!best.is_empty());
}

/// The first branch of the first phase that the second phase completes need not
/// lead to a shortest solution: the search for a shortest solution goes on.
#[test]
fn a_deeper_first_phase_can_give_a_shorter_solution() {
    let mut cube = Cube3x3x3::new();
    cube.do_moves(&[Move::D2, Move::U2, Move::Bp, Move::F2]);
    assert_eq!(cube.corner_piece(Corner::URF).piece, Corner::DRB);
    assert_eq!(cube.corner_piece(Corner::ULB), CornerPiece { piece: Corner::DFR, orientation: 1 });
    assert!(cube.is_valid());
    let tables = Tables3x3x3::new();
    let best = cube.solve_with(&tables).unwrap();
    let fast = cube.solve_fast_with(&tables).unwrap();
    let mut replay = cube;
    replay.do_moves(&best);
    assert!(replay.is_solved());
    let mut replay = cube;
    replay.do_moves(&fast);
    assert!(replay.is_solved());
    assert_eq!(best, vec![Move::F2, Move::B, Move::U2, Move::D2]);
    assert_eq!(
        fast,
        vec![Move::B, Move::U, Move::F2, Move::U2, Move::D2, Move::B2, Move::Up, Move::B2]
    );
}

/// A cube in the goal of the first phase is not held to the moves of the second
/// phase: the search for a shortest solution also leaves the goal and comes back.
#[test]
fn a_cube_in_the_goal_of_the_first_phase_may_leave_it() {
    let mut cube = Cube3x3x3::new();
    cube.do_moves(&[Move::F, Move::B, Move::U2, Move::F, Move::B]);
    assert_eq!(cube.corner_orientation_index(), 0);
    assert_eq!(cube.edge_orientation_index(), 0);
    assert_eq!(cube.equatorial_edge_slice_index(), 0);
    let tables = Tables3x3x3::new();
    let best = cube.solve_with(&tables).unwrap();
    assert_eq!(best, vec![Move::Fp, Move::Bp, Move::U2, Move::Fp, Move::Bp]);
    let fast = cube.solve_fast_with(&tables).unwrap();
    assert!(fast.iter().all(|mv| is_phase_2_move(*mv)));
    assert!(fast.len() >= 9, "{:?}", fast);
    let mut replay = cube;
    replay.do_moves(&fast);
    assert!(replay.is_solved());
}

/// Short scrambles are solved with the fewest moves of all.
#[test]
fn short_scrambles_are_solved_with_the_fewest_moves() {
    let tables = Tables3x3x3::new();
    let scrambles: [&[Move]; 4] = [
        &[Move::R],
        &[Move::U, Move::R2],
        &[Move::F, Move::U, Move::Rp],
        &[Move::L2, Move::D, Move::B, Move::U2],
    ];
    for scramble in scrambles {
        let mut cube = Cube3x3x3::new();
        cube.do_moves(scramble);
        let best = cube.solve_with(&tables).unwrap();
        assert_eq!(best.len(), scramble.len());
        let mut replay = cube;
        replay.do_moves(&best);
        assert!(replay.is_solved());
    }
}

/// Both searches of the 2x2x2 cube give the same moves: of the shortest solutions
/// the one that comes first in the order of the moves.
#[test]
fn two_by_two_searches_give_the_same_moves() {
    let tables = CornerTables::new();
    let mut rng = SimpleSeededRandomSource::new();
    for _ in 0..5 {
        let cube = Cube2x2x2::sourced_random(&mut rng);
        let best = cube.solve_with(&tables).unwrap();
        assert_eq!(cube.solve(), Some(best.clone()));
        assert_eq!(cube.solve_fast(), Some(best.clone()));
        assert_eq!(cube.as_faces().solve_fast(), Some(best));
    }
    // R2 and its like undo a half turn in one move; of U' and the longer ways
    // round, the single move is found.
    let mut cube = Cube2x2x2::new();
    cube.do_move(Move::U);
    assert_eq!(cube.solve(), Some(vec![Move::Up]));
    // Two ways with two moves undo U D: the moves of the top face come first.
    let mut cube = Cube2x2x2::new();
    cube.do_moves(&[Move::U, Move::D]);
    let solution = cube.solve().unwrap();
    assert_eq!(solution.len(), 2);
    assert_eq!(solution[0], Move::Up);
}

/// The fast search gives the same moves whenever it is asked.
#[test]
fn the_fast_search_repeats_itself() {
    let tables = Tables3x3x3::new();
    let mut rng = SimpleSeededRandomSource::new();
    for _ in 0..3 {
        let cube = Cube3x3x3::sourced_random(&mut rng);
        let fast = cube.solve_fast_with(&tables).unwrap();
        assert_eq!(cube.solve_fast_with(&tables), Some(fast.clone()));
        assert_eq!(cube.as_faces().solve_fast_with(&tables), Some(fast));
    }
    // One move from the goal of the first phase, the first phase is that move: of
    // F and F', which both lead into the goal, the one with the smaller number.
    let mut cube = Cube3x3x3::new();
    cube.do_moves(&[Move::U, Move::F2, Move::R2, Move::F]);
    let fast = cube.solve_fast_with(&tables).unwrap();
    assert_eq!(fast[0], Move::F);
    let mut replay = cube;
    replay.do_moves(&fast);
    assert!(replay.is_solved());
}

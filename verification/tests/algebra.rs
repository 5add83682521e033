use tpscube_core::index::n_choose_k;
use tpscube_core::common::{
    inverse_moves, Color, Corner, CornerPiece, CubeFace, Move, RandomSource, RotationDirection,
    SimpleSeededRandomSource, StandardRandomSource,
};
use tpscube_core::cube2x2x2::{Cube2x2x2, Cube2x2x2Faces};
use tpscube_core::cube3x3x3::{Cube3x3x3, Cube3x3x3Faces, Edge3x3x3, EdgePiece3x3x3};
use tpscube_core::facelet::InvalidCubeState;

const ALL_MOVES: [Move; 18] = [
    Move::U,
    Move::Up,
    Move::U2,
    Move::F,
    Move::Fp,
    Move::F2,
    Move::R,
    Move::Rp,
    Move::R2,
    Move::B,
    Move::Bp,
    Move::B2,
    Move::L,
    Move::Lp,
    Move::L2,
    Move::D,
    Move::Dp,
    Move::D2,
];

fn moves_of(text: &str) -> Vec<Move> {
    text.split_whitespace()
        .map(|word| Move::from_notation(word).unwrap())
        .collect()
}

fn scrambled_3x3x3(count: usize) -> (Cube3x3x3, Cube3x3x3Faces) {
    let mut pieces = Cube3x3x3::new();
    let mut faces = Cube3x3x3Faces::new();
    let mut rng = SimpleSeededRandomSource::new();
    for _ in 0..count {
        let mv = Move::sourced_random_3x3x3(&mut rng);
        pieces.do_move(mv);
        faces.do_move(mv);
    }
    (pieces, faces)
}

fn scrambled_2x2x2(count: usize) -> (Cube2x2x2, Cube2x2x2Faces) {
    let mut pieces = Cube2x2x2::new();
    let mut faces = Cube2x2x2Faces::new();
    let mut rng = SimpleSeededRandomSource::new();
    for _ in 0..count {
        let mv = Move::sourced_random_2x2x2(&mut rng);
        pieces.do_move(mv);
        faces.do_move(mv);
    }
    (pieces, faces)
}

#[test]
fn legal_moves_keep_the_state_valid() {
    let mut cube = Cube3x3x3::new();
    let mut small = Cube2x2x2::new();
    assert!(cube.is_valid());
    assert!(small.is_valid());
    let mut rng = SimpleSeededRandomSource::new();
    for _ in 0..200 {
        let mv = Move::sourced_random_3x3x3(&mut rng);
        cube.do_move(mv);
        small.do_move(mv);
        assert!(cube.is_valid());
        assert!(small.is_valid());
        let twists: u32 = (0..8)
            .map(|i| cube.corner_piece(Corner::from_index(i).unwrap()).orientation as u32)
            .sum();
        let flips: u32 = (0..12)
            .map(|i| cube.edge_piece(Edge3x3x3::from_index(i).unwrap()).orientation as u32)
            .sum();
        assert_eq!(twists % 3, 0);
        assert_eq!(flips % 2, 0);
    }
}

#[test]
fn a_single_twisted_corner_is_not_valid() {
    let mut corners = [CornerPiece {
        piece: Corner::URF,
        orientation: 0,
    }; 8];
    for i in 0..8 {
        corners[i].piece = Corner::from_index(i).unwrap();
    }
    corners[0].orientation = 1;
    assert!(!Cube2x2x2::from_corners(corners).is_valid());
    corners[0].orientation = 0;
    corners[1].piece = Corner::URF;
    assert!(!Cube2x2x2::from_corners(corners).is_valid());
    corners[1].piece = Corner::UFL;
    assert!(Cube2x2x2::from_corners(corners).is_valid());
    corners[3].orientation = 3;
    assert!(!Cube2x2x2::from_corners(corners).is_valid());
}

#[test]
fn round_trip_between_the_formats() {
    for count in [0usize, 1, 7, 100] {
        let (pieces, faces) = scrambled_3x3x3(count);
        assert_eq!(pieces.as_faces().as_pieces(), Ok(pieces));
        assert_eq!(faces.as_pieces().unwrap().as_faces(), faces);
        let (pieces, faces) = scrambled_2x2x2(count);
        assert_eq!(pieces.as_faces().as_pieces(), Ok(pieces));
        assert_eq!(faces.as_pieces().unwrap().as_faces(), faces);
    }
}

#[test]
fn a_move_and_its_inverse_cancel() {
    let (pieces, faces) = scrambled_3x3x3(40);
    let (small_pieces, small_faces) = scrambled_2x2x2(40);
    for mv in ALL_MOVES {
        let mut cube = pieces;
        cube.do_move(mv);
        assert_ne!(cube, pieces);
        cube.do_move(mv.inverse());
        assert_eq!(cube, pieces);
        let mut cube = faces;
        cube.do_move(mv);
        assert_ne!(cube, faces);
        cube.do_move(mv.inverse());
        assert_eq!(cube, faces);
        let mut cube = small_pieces;
        cube.do_move(mv);
        cube.do_move(mv.inverse());
        assert_eq!(cube, small_pieces);
        let mut cube = small_faces;
        cube.do_move(mv);
        cube.do_move(mv.inverse());
        assert_eq!(cube, small_faces);
    }
}

#[test]
fn quarter_turns_have_order_four_and_half_turns_order_two() {
    let (pieces, faces) = scrambled_3x3x3(25);
    let (small_pieces, small_faces) = scrambled_2x2x2(25);
    for mv in ALL_MOVES {
        let times = if mv.rotation() == 2 { 2 } else { 4 };
        let mut a = pieces;
        let mut b = faces;
        let mut c = small_pieces;
        let mut d = small_faces;
        for step in 1..=times {
            a.do_move(mv);
            b.do_move(mv);
            c.do_move(mv);
            d.do_move(mv);
            if step < times {
                assert_ne!(a, pieces);
                assert_ne!(b, faces);
            }
        }
        assert_eq!(a, pieces);
        assert_eq!(b, faces);
        assert_eq!(c, small_pieces);
        assert_eq!(d, small_faces);
    }
    let mut cube = Cube3x3x3::new();
    for _ in 0..4 {
        cube.do_move(Move::U);
    }
    assert!(cube.is_solved());
}

#[test]
fn a_half_turn_is_two_quarter_turns() {
    let (pieces, faces) = scrambled_3x3x3(30);
    for face in 0..6 {
        let face = CubeFace::from_index(face).unwrap();
        let quarter = Move::from_face_and_rotation(face, 1).unwrap();
        let back = Move::from_face_and_rotation(face, -1).unwrap();
        let half = Move::from_face_and_rotation(face, 2).unwrap();
        let mut a = pieces;
        a.do_move(quarter);
        a.do_move(quarter);
        let mut b = pieces;
        b.do_move(half);
        assert_eq!(a, b);
        let mut c = pieces;
        c.do_move(back);
        c.do_move(back);
        assert_eq!(c, b);
        let mut d = faces;
        d.rotate(face, RotationDirection::CW);
        d.rotate(face, RotationDirection::CW);
        let mut e = faces;
        e.do_move(half);
        assert_eq!(d, e);
        let mut f = pieces;
        f.rotate(face, RotationDirection::CCW);
        let mut g = pieces;
        g.do_move(back);
        assert_eq!(f, g);
    }
}

#[test]
fn a_move_touches_only_the_pieces_of_its_face() {
    let mut cube = Cube3x3x3::new();
    cube.do_move(Move::R);
    let expected_corners = [
        (Corner::DFR, 2),
        (Corner::UFL, 0),
        (Corner::ULB, 0),
        (Corner::URF, 1),
        (Corner::DRB, 1),
        (Corner::DLF, 0),
        (Corner::DBL, 0),
        (Corner::UBR, 2),
    ];
    for (i, (piece, orientation)) in expected_corners.iter().enumerate() {
        assert_eq!(
            cube.corner_piece(Corner::from_index(i).unwrap()),
            CornerPiece {
                piece: *piece,
                orientation: *orientation
            }
        );
    }
    let expected_edges = [
        Edge3x3x3::FR,
        Edge3x3x3::UF,
        Edge3x3x3::UL,
        Edge3x3x3::UB,
        Edge3x3x3::BR,
        Edge3x3x3::DF,
        Edge3x3x3::DL,
        Edge3x3x3::DB,
        Edge3x3x3::DR,
        Edge3x3x3::FL,
        Edge3x3x3::BL,
        Edge3x3x3::UR,
    ];
    for (i, piece) in expected_edges.iter().enumerate() {
        assert_eq!(
            cube.edge_piece(Edge3x3x3::from_index(i).unwrap()),
            EdgePiece3x3x3 {
                piece: *piece,
                orientation: 0
            }
        );
    }
    let mut cube = Cube3x3x3::new();
    cube.do_move(Move::F);
    assert_eq!(cube.edge_piece(Edge3x3x3::UF).orientation, 1);
    assert_eq!(cube.edge_piece(Edge3x3x3::UF).piece, Edge3x3x3::FL);
    assert_eq!(cube.edge_piece(Edge3x3x3::UR).orientation, 0);
}

#[test]
fn colors_after_a_right_turn() {
    let mut faces = Cube3x3x3Faces::new();
    faces.do_move(Move::R);
    let expected: [usize; 54] = [
        0, 0, 1, 0, 0, 1, 0, 0, 1, 1, 1, 5, 1, 1, 5, 1, 1, 5, 2, 2, 2, 2, 2, 2, 2, 2, 2, 0, 3, 3,
        0, 3, 3, 0, 3, 3, 4, 4, 4, 4, 4, 4, 4, 4, 4, 5, 5, 3, 5, 5, 3, 5, 5, 3,
    ];
    for (k, face) in expected.iter().enumerate() {
        assert_eq!(
            faces.color_by_idx(k),
            CubeFace::from_index(*face).unwrap().color(),
            "sticker {}",
            k
        );
    }
    assert_eq!(faces.color(CubeFace::Top, 0, 2), Color::Green);
    assert_eq!(faces.color(CubeFace::Front, 2, 2), Color::Yellow);
    assert_eq!(faces.corner_color(Corner::URF, 0), Color::Green);
    assert_eq!(faces.corner_color(Corner::URF, 1), Color::Red);
    assert_eq!(faces.corner_color(Corner::URF, 2), Color::Yellow);
    assert_eq!(faces.edge_color(Edge3x3x3::UR, 0), Color::Green);
    assert_eq!(faces.edge_color(Edge3x3x3::UR, 1), Color::Red);
    assert!(!faces.is_solved());
}

#[test]
fn sticker_indices() {
    assert_eq!(Cube3x3x3Faces::face_start(CubeFace::Back), 27);
    assert_eq!(Cube3x3x3Faces::face_offset(2, 1), 7);
    assert_eq!(Cube3x3x3Faces::idx(CubeFace::Left, 1, 2), 41);
    assert_eq!(Cube3x3x3Faces::face_for_idx(53), CubeFace::Bottom);
    assert_eq!(Cube3x3x3Faces::face_for_idx(9), CubeFace::Front);
    assert_eq!(Cube2x2x2Faces::face_start(CubeFace::Right), 8);
    assert_eq!(Cube2x2x2Faces::face_offset(1, 1), 3);
    assert_eq!(Cube2x2x2Faces::idx(CubeFace::Bottom, 1, 0), 22);
    assert_eq!(Cube2x2x2Faces::face_for_idx(7), CubeFace::Front);
    let small = Cube2x2x2Faces::new();
    assert_eq!(small.color(CubeFace::Left, 1, 1), Color::Orange);
    assert_eq!(small.corner_color(Corner::DBL, 0), Color::Yellow);
    assert_eq!(small.corner_color(Corner::DBL, 1), Color::Blue);
    assert_eq!(small.corner_color(Corner::DBL, 2), Color::Orange);
}

#[test]
fn sune_with_a_half_turn_has_order_six() {
    let sequence = moves_of("R U R' U R U2 R' U2 R U R' U R U2 R'");
    let mut cube = Cube3x3x3::new();
    let mut faces = Cube3x3x3Faces::new();
    for round in 1..=6 {
        cube.do_moves(&sequence);
        faces.do_moves(&sequence);
        assert_eq!(cube.is_solved(), round == 6, "round {}", round);
        assert_eq!(faces.is_solved(), round == 6, "round {}", round);
    }
}

#[test]
fn t_permutation_twice_is_the_identity() {
    let sequence = moves_of("R U R' U' R' F R2 U' R' U' R U R' F'");
    assert_eq!(sequence.len(), 14);
    let mut cube = Cube3x3x3::new();
    cube.do_moves(&sequence);
    assert!(!cube.is_solved());
    cube.do_moves(&sequence);
    assert!(cube.is_solved());
}

#[test]
fn six_rounds_of_four_moves_and_the_indices_of_the_solved_cube() {
    let mut cube = Cube3x3x3::new();
    assert_eq!(cube.corner_orientation_index(), 0);
    assert_eq!(cube.corner_permutation_index(), 0);
    assert_eq!(cube.edge_orientation_index(), 0);
    assert_eq!(cube.equatorial_edge_slice_index(), 0);
    assert_eq!(cube.phase_2_edge_permutation_index(), 0);
    assert_eq!(cube.phase_2_equatorial_edge_permutation_index(), 0);
    let round = moves_of("U R U' R'");
    for i in 1..=6 {
        cube.do_moves(&round);
        assert_eq!(cube.is_solved(), i == 6);
    }
    let mut cube = Cube3x3x3::new();
    cube.do_move(Move::U);
    assert_ne!(cube.corner_permutation_index(), 0);
    assert_eq!(cube.corner_orientation_index(), 0);
    let mut cube = Cube3x3x3::new();
    cube.do_move(Move::R);
    assert_ne!(cube.corner_permutation_index(), 0);
    assert_ne!(cube.corner_orientation_index(), 0);
    let mut small = Cube2x2x2::new();
    assert_eq!(small.corner_orientation_index(), 0);
    assert_eq!(small.corner_permutation_index(), 0);
    for _ in 0..6 {
        small.do_moves(&round);
    }
    assert!(small.is_solved());
}

#[test]
fn index_values() {
    let cases: [(&str, [u16; 6]); 7] = [
        ("U", [0, 15120, 0, 0, 15120, 0]),
        ("R", [1494, 21021, 0, 76, 30258, 9]),
        ("F", [1236, 8064, 550, 141, 4324, 0]),
        ("R U F", [492, 23189, 550, 81, 13698, 15]),
        (
            "D2 R2 B2 L U2 R D2 L' B2 R2 D2 F' L' D L R2 D B U L2",
            [373, 36914, 539, 195, 3857, 2],
        ),
        ("U2", [0, 11520, 0, 0, 11520, 0]),
        ("R2 U D' F2", [0, 15138, 0, 0, 15138, 11]),
    ];
    for (text, expected) in cases {
        let mut cube = Cube3x3x3::new();
        cube.do_moves(&moves_of(text));
        assert_eq!(cube.corner_orientation_index(), expected[0], "{}", text);
        assert_eq!(cube.corner_permutation_index(), expected[1], "{}", text);
        assert_eq!(cube.edge_orientation_index(), expected[2], "{}", text);
        assert_eq!(cube.equatorial_edge_slice_index(), expected[3], "{}", text);
        assert_eq!(cube.phase_2_edge_permutation_index(), expected[4], "{}", text);
        assert_eq!(
            cube.phase_2_equatorial_edge_permutation_index(),
            expected[5],
            "{}",
            text
        );
        let mut small = Cube2x2x2::new();
        small.do_moves(&moves_of(text));
        assert_eq!(small.corner_orientation_index(), expected[0], "{}", text);
        assert_eq!(small.corner_permutation_index(), expected[1], "{}", text);
    }
}

#[test]
fn indices_stay_in_range() {
    let mut cube = Cube3x3x3::new();
    let mut rng = SimpleSeededRandomSource::new();
    for _ in 0..300 {
        cube.do_move(Move::sourced_random_3x3x3(&mut rng));
        assert!(cube.corner_orientation_index() < 2187);
        assert!(cube.corner_permutation_index() < 40320);
        assert!(cube.edge_orientation_index() < 2048);
        assert!(cube.equatorial_edge_slice_index() < 495);
        assert!(cube.phase_2_edge_permutation_index() < 40320);
        assert!(cube.phase_2_equatorial_edge_permutation_index() < 24);
    }
}

#[test]
fn colors_that_show_no_piece_are_refused() {
    let mut colors = [Color::White; 54];
    for k in 0..54 {
        colors[k] = CubeFace::from_index(k / 9).unwrap().color();
    }
    assert!(Cube3x3x3Faces::from_colors(colors).as_pieces().is_ok());
    let mut wrong = colors;
    wrong[8] = Color::Yellow;
    assert_eq!(
        Cube3x3x3Faces::from_colors(wrong).as_pieces(),
        Err(InvalidCubeState::UnknownCorner(Corner::URF))
    );
    let mut wrong = colors;
    wrong[53] = Color::White;
    assert_eq!(
        Cube3x3x3Faces::from_colors(wrong).as_pieces(),
        Err(InvalidCubeState::UnknownCorner(Corner::DRB))
    );
    let mut wrong = colors;
    wrong[19] = Color::White;
    assert_eq!(
        Cube3x3x3Faces::from_colors(wrong).as_pieces(),
        Err(InvalidCubeState::UnknownEdge(Edge3x3x3::UR))
    );
    let mut wrong = colors;
    wrong[50] = Color::Orange;
    wrong[19] = Color::White;
    assert_eq!(
        Cube3x3x3Faces::from_colors(wrong).as_pieces(),
        Err(InvalidCubeState::UnknownEdge(Edge3x3x3::UR))
    );
    let mut wrong = colors;
    wrong[50] = Color::Orange;
    assert_eq!(
        Cube3x3x3Faces::from_colors(wrong).as_pieces(),
        Err(InvalidCubeState::UnknownEdge(Edge3x3x3::DR))
    );
    let mut wrong = colors;
    wrong[19] = Color::White;
    wrong[0] = Color::Yellow;
    assert_eq!(
        Cube3x3x3Faces::from_colors(wrong).as_pieces(),
        Err(InvalidCubeState::UnknownCorner(Corner::ULB))
    );
    let mut small = [Color::White; 24];
    for k in 0..24 {
        small[k] = CubeFace::from_index(k / 4).unwrap().color();
    }
    assert_eq!(
        Cube2x2x2Faces::from_colors(small).as_pieces(),
        Ok(Cube2x2x2::new())
    );
    small[3] = Color::Blue;
    assert_eq!(
        Cube2x2x2Faces::from_colors(small).as_pieces(),
        Err(InvalidCubeState::UnknownCorner(Corner::URF))
    );
    assert_eq!(Cube2x2x2Faces::from_colors(small).solve(), None);
}

#[test]
fn a_twisted_corner_decodes_with_its_twist() {
    let mut colors = [Color::White; 54];
    for k in 0..54 {
        colors[k] = CubeFace::from_index(k / 9).unwrap().color();
    }
    colors[8] = Color::Green;
    colors[18] = Color::White;
    colors[11] = Color::Red;
    let pieces = Cube3x3x3Faces::from_colors(colors).as_pieces().unwrap();
    assert_eq!(
        pieces.corner_piece(Corner::URF),
        CornerPiece {
            piece: Corner::URF,
            orientation: 1
        }
    );
    assert!(!pieces.is_valid());
    assert_eq!(pieces.as_faces(), Cube3x3x3Faces::from_colors(colors));
}

#[test]
fn reset_and_size() {
    let (mut pieces, mut faces) = scrambled_3x3x3(10);
    assert_eq!(pieces.size(), 3);
    assert_eq!(faces.size(), 3);
    pieces.reset();
    faces.reset();
    assert!(pieces.is_solved());
    assert!(faces.is_solved());
    let (mut pieces, mut faces) = scrambled_2x2x2(10);
    assert_eq!(pieces.size(), 2);
    assert_eq!(faces.size(), 2);
    pieces.reset();
    faces.reset();
    assert_eq!(pieces, Cube2x2x2::new());
    assert_eq!(faces, Cube2x2x2Faces::new());
}

#[test]
fn moves_and_their_parts() {
    for (i, mv) in ALL_MOVES.iter().enumerate() {
        assert_eq!(mv.index(), i);
        assert_eq!(Move::from_index(i), Some(*mv));
        assert_eq!(
            Move::from_face_and_rotation(mv.face(), mv.rotation()),
            Some(*mv)
        );
        assert_eq!(mv.inverse().inverse(), *mv);
        assert_eq!(mv.inverse().face(), mv.face());
    }
    assert_eq!(Move::from_index(18), None);
    assert_eq!(Move::from_face_and_rotation(CubeFace::Top, 3), None);
    assert_eq!(Move::from_face_and_rotation(CubeFace::Top, 0), None);
    assert_eq!(Move::U.inverse(), Move::Up);
    assert_eq!(Move::R2.inverse(), Move::R2);
    assert_eq!(Move::Lp.inverse(), Move::L);
    assert_eq!(Move::count_3x3x3(), 18);
    assert_eq!(Move::count_2x2x2(), 18);
    assert_eq!(CubeFace::Top.opposite(), CubeFace::Bottom);
    assert_eq!(CubeFace::Left.opposite(), CubeFace::Right);
    assert_eq!(CubeFace::Back.opposite(), CubeFace::Front);
    assert_eq!(CubeFace::from_index(6), None);
    assert_eq!(Corner::from_index(8), None);
    assert_eq!(Edge3x3x3::from_index(12), None);
    assert!(Edge3x3x3::BL.is_equatorial());
    assert!(!Edge3x3x3::DB.is_equatorial());
    assert_eq!(
        inverse_moves(&vec![Move::U, Move::R2, Move::Fp]),
        vec![Move::F, Move::R2, Move::Up]
    );
    assert_eq!(inverse_moves(&Vec::new()), Vec::<Move>::new());
}

#[test]
fn the_seeded_source_repeats_itself() {
    let mut rng = SimpleSeededRandomSource::new();
    let drawn: Vec<u32> = [18u32, 8, 3, 12, 2]
        .iter()
        .map(|range| rng.next(*range))
        .collect();
    assert_eq!(drawn, vec![0, 4, 0, 9, 0]);
    let mut a = SimpleSeededRandomSource::new();
    let mut b = SimpleSeededRandomSource::new();
    for _ in 0..50 {
        assert_eq!(a.next(1000), b.next(1000));
    }
}

#[test]
fn the_standard_source_stays_below_the_range() {
    let mut rng = StandardRandomSource;
    for range in 1..40u32 {
        for _ in 0..20 {
            assert!(rng.next(range) < range);
        }
    }
    assert_eq!(rng.next(1), 0);
    let mut seen = [false; 6];
    for _ in 0..2000 {
        seen[rng.next(6) as usize] = true;
    }
    assert!(seen.iter().all(|hit| *hit));
}

#[test]
fn random_states_are_valid() {
    let mut rng = SimpleSeededRandomSource::new();
    for _ in 0..50 {
        assert!(Cube3x3x3::sourced_random(&mut rng).is_valid());
        assert!(Cube2x2x2::sourced_random(&mut rng).is_valid());
        let faces = Cube3x3x3Faces::sourced_random(&mut rng);
        assert!(faces.as_pieces().unwrap().is_valid());
        let faces = Cube2x2x2Faces::sourced_random(&mut rng);
        assert!(faces.as_pieces().unwrap().is_valid());
    }
    assert!(Cube3x3x3::random().is_valid());
    assert!(Cube2x2x2::random().is_valid());
}

#[test]
fn ways_to_choose() {
    assert_eq!(n_choose_k(12, 4), 495);
    assert_eq!(n_choose_k(11, 4), 330);
    assert_eq!(n_choose_k(12, 8), 495);
    assert_eq!(n_choose_k(4, 0), 1);
    assert_eq!(n_choose_k(0, 0), 1);
    assert_eq!(n_choose_k(7, 7), 1);
    assert_eq!(n_choose_k(3, 4), 0);
    assert_eq!(n_choose_k(5, 2), 10);
    assert_eq!(n_choose_k(52, 5), 2598960);
    assert_eq!(n_choose_k(40, 20), 137846528820);
}

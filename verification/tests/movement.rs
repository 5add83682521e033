use tpscube_core::common::{
    inverse_moves, CubeFace, Move, RotationDirection, SimpleSeededRandomSource,
};
use tpscube_core::cube2x2x2::{Cube2x2x2, Cube2x2x2Faces};
use tpscube_core::cube3x3x3::{Cube3x3x3, Cube3x3x3Faces, FaceRowOrColumn};

trait TestCube {
    fn solved() -> Self;
    fn solved_now(&self) -> bool;
    fn apply(&mut self, mv: Move);
    fn apply_all(&mut self, moves: &[Move]);
}

impl TestCube for Cube2x2x2 {
    fn solved() -> Self {
        Cube2x2x2::new()
    }
    fn solved_now(&self) -> bool {
        self.is_solved()
    }
    fn apply(&mut self, mv: Move) {
        self.do_move(mv)
    }
    fn apply_all(&mut self, moves: &[Move]) {
        self.do_moves(moves)
    }
}

impl TestCube for Cube2x2x2Faces {
    fn solved() -> Self {
        Cube2x2x2Faces::new()
    }
    fn solved_now(&self) -> bool {
        self.is_solved()
    }
    fn apply(&mut self, mv: Move) {
        self.do_move(mv)
    }
    fn apply_all(&mut self, moves: &[Move]) {
        self.do_moves(moves)
    }
}

impl TestCube for Cube3x3x3 {
    fn solved() -> Self {
        Cube3x3x3::new()
    }
    fn solved_now(&self) -> bool {
        self.is_solved()
    }
    fn apply(&mut self, mv: Move) {
        self.do_move(mv)
    }
    fn apply_all(&mut self, moves: &[Move]) {
        self.do_moves(moves)
    }
}

impl TestCube for Cube3x3x3Faces {
    fn solved() -> Self {
        Cube3x3x3Faces::new()
    }
    fn solved_now(&self) -> bool {
        self.is_solved()
    }
    fn apply(&mut self, mv: Move) {
        self.do_move(mv)
    }
    fn apply_all(&mut self, moves: &[Move]) {
        self.do_moves(moves)
    }
}

fn basic_small_cube_movement<T: TestCube + std::fmt::Debug>() {
    let mut cube = T::solved();
    assert!(cube.solved_now(), "initial state is not solved\n{:?}", cube);
    cube.apply(Move::U);
    assert!(!cube.solved_now(), "not unsolved after U\n{:?}", cube);
    cube.apply(Move::Up);
    assert!(cube.solved_now(), "not solved after U U'\n{:?}", cube);

    let y_perm: &'static [Move] = &[
        Move::F,
        Move::R,
        Move::Up,
        Move::Rp,
        Move::Up,
        Move::R,
        Move::U,
        Move::Rp,
        Move::Fp,
        Move::R,
        Move::U,
        Move::Rp,
        Move::Up,
        Move::Rp,
        Move::F,
        Move::R,
        Move::Fp,
    ];
    for _ in 0..2 {
        cube.apply_all(y_perm);
    }
    assert!(cube.solved_now(), "not solved after 2x Y perm\n{:?}", cube);

    let scramble: &'static [Move] = &[
        Move::D2,
        Move::R2,
        Move::B2,
        Move::L,
        Move::U2,
        Move::R,
        Move::D2,
        Move::Lp,
        Move::B2,
        Move::R2,
        Move::D2,
        Move::Fp,
        Move::Lp,
        Move::D,
        Move::L,
        Move::R2,
        Move::D,
        Move::B,
        Move::U,
        Move::L2,
    ];
    let inv_scramble = inverse_moves(&scramble.to_vec());
    cube.apply_all(scramble);
    cube.apply_all(&inv_scramble);
    assert!(
        cube.solved_now(),
        "not solved after static scramble and inverse\n{:?}",
        cube
    );
}

#[test]
fn basic_2x2x2_face_movement() {
    basic_small_cube_movement::<Cube2x2x2Faces>();
}

#[test]
fn basic_2x2x2_piece_movement() {
    basic_small_cube_movement::<Cube2x2x2>();
}

#[test]
fn basic_3x3x3_face_movement() {
    basic_small_cube_movement::<Cube3x3x3Faces>();
}

#[test]
fn basic_3x3x3_piece_movement() {
    basic_small_cube_movement::<Cube3x3x3>();
}

#[test]
fn matching_2x2x2_formats() {
    for mv in &[Move::U, Move::L, Move::R, Move::D, Move::F, Move::B] {
        let mut pieces = Cube2x2x2::new();
        let mut faces = Cube2x2x2Faces::new();
        pieces.do_move(*mv);
        faces.do_move(*mv);
        let pieces_conv = faces.as_pieces().unwrap();
        let faces_conv = pieces.as_faces();
        assert_eq!(
            pieces, pieces_conv,
            "face format incorrectly converted to piece format\n\
            Face format:\n{:?}\
            Piece format:\n{:?}",
            faces, pieces_conv
        );
        assert_eq!(
            faces, faces_conv,
            "piece format incorrectly converted to face format\n\
            Piece format:\n{:?}\
            Face format:\n{:?}",
            pieces, faces_conv
        );
    }

    let mut pieces = Cube2x2x2::new();
    let mut faces = Cube2x2x2Faces::new();
    let mut rng = SimpleSeededRandomSource::new();
    for _ in 0..100 {
        let mv = Move::sourced_random_2x2x2(&mut rng);
        pieces.do_move(mv);
        faces.do_move(mv);
    }

    let pieces_conv = faces.as_pieces().unwrap();
    let faces_conv = pieces.as_faces();
    assert_eq!(
        pieces, pieces_conv,
        "face format incorrectly converted to piece format\n\
        Face format:\n{:?}\
        Piece format:\n{:?}",
        faces, pieces_conv
    );
    assert_eq!(
        faces, faces_conv,
        "piece format incorrectly converted to face format\n\
        Piece format:\n{:?}\
        Face format:\n{:?}",
        pieces, faces_conv
    );
}

#[test]
fn matching_3x3x3_formats() {
    for mv in 0..Move::count_3x3x3() {
        let mv = Move::from_index(mv).unwrap();
        let mut pieces = Cube3x3x3::new();
        let mut faces = Cube3x3x3Faces::new();
        pieces.do_move(mv);
        faces.do_move(mv);
        let pieces_conv = faces.as_pieces().unwrap();
        let faces_conv = pieces.as_faces();
        assert_eq!(
            pieces, pieces_conv,
            "face format incorrectly converted to piece format\n\
            Face format:\n{:?}\
            Piece format:\n{:?}",
            faces, pieces_conv
        );
        assert_eq!(
            faces, faces_conv,
            "piece format incorrectly converted to face format\n\
            Piece format:\n{:?}\
            Face format:\n{:?}",
            pieces, faces_conv
        );
    }

    let mut pieces = Cube3x3x3::new();
    let mut faces = Cube3x3x3Faces::new();
    let mut rng = SimpleSeededRandomSource::new();
    for _ in 0..100 {
        let mv = Move::sourced_random_3x3x3(&mut rng);
        pieces.do_move(mv);
        faces.do_move(mv);
    }

    let pieces_conv = faces.as_pieces().unwrap();
    let faces_conv = pieces.as_faces();
    assert_eq!(
        pieces, pieces_conv,
        "face format incorrectly converted to piece format\n\
        Face format:\n{:?}\
        Piece format:\n{:?}",
        faces, pieces_conv
    );
    assert_eq!(
        faces, faces_conv,
        "piece format incorrectly converted to face format\n\
        Piece format:\n{:?}\
        Face format:\n{:?}",
        pieces, faces_conv
    );
}

#[test]
fn a_turn_of_any_width_is_the_turn_of_the_face() {
    let mut wide = Cube3x3x3::new();
    wide.rotate_wide(CubeFace::Right, RotationDirection::CW, 2);
    let mut plain = Cube3x3x3::new();
    plain.do_move(Move::R);
    assert_eq!(wide, plain);
    let mut wide = Cube3x3x3Faces::new();
    wide.rotate_wide(CubeFace::Front, RotationDirection::CCW, 1);
    let mut plain = Cube3x3x3Faces::new();
    plain.do_move(Move::Fp);
    assert_eq!(wide, plain);
    let mut wide = Cube2x2x2::new();
    wide.rotate_wide(CubeFace::Top, RotationDirection::CW, 1);
    let mut plain = Cube2x2x2::new();
    plain.do_move(Move::U);
    assert_eq!(wide, plain);
    let mut wide = Cube2x2x2Faces::new();
    wide.rotate_wide(CubeFace::Bottom, RotationDirection::CCW, 3);
    let mut plain = Cube2x2x2Faces::new();
    plain.do_move(Move::Dp);
    assert_eq!(wide, plain);
}

#[test]
fn rows_and_columns_of_a_face() {
    let row = FaceRowOrColumn::RowLeftToRight(CubeFace::Front, 1);
    assert_eq!([row.idx(0), row.idx(1), row.idx(2)], [12, 13, 14]);
    let row = FaceRowOrColumn::RowRightToLeft(CubeFace::Front, 1);
    assert_eq!([row.idx(0), row.idx(1), row.idx(2)], [14, 13, 12]);
    let column = FaceRowOrColumn::ColumnTopDown(CubeFace::Bottom, 2);
    assert_eq!([column.idx(0), column.idx(1), column.idx(2)], [47, 50, 53]);
    let column = FaceRowOrColumn::ColumnBottomUp(CubeFace::Top, 0);
    assert_eq!([column.idx(0), column.idx(1), column.idx(2)], [6, 3, 0]);
}

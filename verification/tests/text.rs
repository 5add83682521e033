use tpscube_core::common::Move;
use tpscube_core::cube2x2x2::{Cube2x2x2, Cube2x2x2Faces};
use tpscube_core::cube3x3x3::{Cube3x3x3, Cube3x3x3Faces};
use tpscube_core::notation::moves_to_string;
use tpscube_core::timer::TimerState;
use tpscube_core::timing::{
    scramble_lines, solve_time_short_string, solve_time_string,
    solve_time_string_ms,
};
use tpscube_core::{Color, CubeFace};

#[test]
fn notation_of_moves() {
    assert_eq!(Move::U.to_string(), "U");
    assert_eq!(Move::Up.to_string(), "U'");
    assert_eq!(Move::U2.to_string(), "U2");
    assert_eq!(Move::Fp.to_string(), "F'");
    assert_eq!(Move::R2.to_string(), "R2");
    assert_eq!(Move::B.to_string(), "B");
    assert_eq!(Move::Lp.to_string(), "L'");
    assert_eq!(Move::D2.to_string(), "D2");
    for i in 0..18 {
        let mv = Move::from_index(i).unwrap();
        assert_eq!(Move::from_notation(&mv.to_string()), Some(mv));
    }
    assert_eq!(Move::from_notation("R"), Some(Move::R));
    assert_eq!(Move::from_notation("L2"), Some(Move::L2));
    assert_eq!(Move::from_notation("D'"), Some(Move::Dp));
    assert_eq!(Move::from_notation(""), None);
    assert_eq!(Move::from_notation("X"), None);
    assert_eq!(Move::from_notation("u"), None);
    assert_eq!(Move::from_notation("U3"), None);
    assert_eq!(Move::from_notation("U2'"), None);
    assert_eq!(Move::from_notation("'"), None);
    assert_eq!(Move::from_notation(" U"), None);
    assert_eq!(
        moves_to_string(&vec![Move::R, Move::U, Move::Rp, Move::U2]),
        "R U R' U2"
    );
    assert_eq!(moves_to_string(&vec![Move::F2]), "F2");
    assert_eq!(moves_to_string(&Vec::new()), "");
}

#[test]
fn times_as_text() {
    assert_eq!(solve_time_string(0), "0.00");
    assert_eq!(solve_time_string(4), "0.00");
    assert_eq!(solve_time_string(5), "0.01");
    assert_eq!(solve_time_string(12345), "12.35");
    assert_eq!(solve_time_string(59994), "59.99");
    assert_eq!(solve_time_string(60000), "60.00");
    assert_eq!(solve_time_string(60010), "1:00.01");
    assert_eq!(solve_time_string(61234), "1:01.23");
    assert_eq!(solve_time_string(3_723_456), "62:03.46");
    assert_eq!(solve_time_string_ms(0), "0.000");
    assert_eq!(solve_time_string_ms(12345), "12.345");
    assert_eq!(solve_time_string_ms(60000), "60.000");
    assert_eq!(solve_time_string_ms(60001), "1:00.001");
    assert_eq!(solve_time_string_ms(61234), "1:01.234");
    assert_eq!(solve_time_string_ms(u32::MAX), "71582:47.295");
    assert_eq!(solve_time_short_string(0), "0.0");
    assert_eq!(solve_time_short_string(99), "0.0");
    assert_eq!(solve_time_short_string(12345), "12.3");
    assert_eq!(solve_time_short_string(60000), "60.0");
    assert_eq!(solve_time_short_string(60100), "1:00.1");
    assert_eq!(solve_time_short_string(61234), "1:01.2");
}

#[test]
fn typed_digits_as_time() {
    assert_eq!(TimerState::digits_to_time(0), 0);
    assert_eq!(TimerState::digits_to_time(999), 999);
    assert_eq!(TimerState::digits_to_time(1000), 1000);
    assert_eq!(TimerState::digits_to_time(12345), 12345);
    assert_eq!(TimerState::digits_to_time(112345), 72345);
    assert_eq!(TimerState::digits_to_time(12345678), 1425678);
    assert_eq!(TimerState::digits_to_time(9999999), 99 * 60000 + 99 * 1000 + 999);
}

#[test]
fn scrambles_broken_into_lines() {
    let scramble = vec![
        Move::R,
        Move::U,
        Move::Rp,
        Move::U2,
        Move::F,
        Move::D2,
        Move::L,
    ];
    assert_eq!(
        scramble_lines(&scramble, 2),
        vec![
            vec![Move::R, Move::U, Move::Rp, Move::U2],
            vec![Move::F, Move::D2, Move::L]
        ]
    );
    assert_eq!(
        scramble_lines(&scramble, 3),
        vec![
            vec![Move::R, Move::U, Move::Rp],
            vec![Move::U2, Move::F, Move::D2],
            vec![Move::L]
        ]
    );
    assert_eq!(scramble_lines(&scramble, 1), vec![scramble.clone()]);
    assert_eq!(scramble_lines(&scramble, 7).len(), 7);
    assert_eq!(scramble_lines(&scramble, 20).len(), 7);
    assert_eq!(scramble_lines(&scramble, 4).len(), 4);
    assert_eq!(scramble_lines(&scramble[..6], 4).len(), 3);
}

#[test]
fn pictures_of_cubes() {
    assert_eq!(
        Cube2x2x2Faces::new().to_string(),
        "  WW     \n  WW     \nOOGGRRBB \nOOGGRRBB \n  YY     \n  YY     \n"
    );
    assert_eq!(Cube2x2x2::new().to_string(), Cube2x2x2Faces::new().to_string());
    let mut cube = Cube3x3x3Faces::new();
    cube.do_move(Move::R);
    assert_eq!(
        cube.to_string(),
        "   WWG       \n   WWG       \n   WWG       \n\
         OOOGGYRRRWBB \nOOOGGYRRRWBB \nOOOGGYRRRWBB \n\
         \x20  YYB       \n   YYB       \n   YYB       \n"
    );
    let mut pieces = Cube3x3x3::new();
    pieces.do_move(Move::R);
    assert_eq!(pieces.to_string(), cube.to_string());
    let colors = cube.colors();
    assert_eq!(colors.len(), 6);
    assert_eq!(colors[0].len(), 3);
    assert_eq!(colors[0][0], vec![Color::White, Color::White, Color::Green]);
    assert_eq!(colors[3][2], vec![Color::White, Color::Blue, Color::Blue]);
    assert_eq!(pieces.colors(), colors);
    let small = Cube2x2x2Faces::new().colors();
    assert_eq!(small.len(), 6);
    for face in 0..6 {
        let color = CubeFace::from_index(face).unwrap().color();
        assert_eq!(small[face], vec![vec![color, color], vec![color, color]]);
    }
    assert_eq!(Cube2x2x2::new().colors(), small);
}

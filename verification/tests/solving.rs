use tpscube_core::common::SimpleSeededRandomSource;
use tpscube_core::cube2x2x2::Cube2x2x2;
use tpscube_core::cube3x3x3::Cube3x3x3;

#[test]
fn solve_2x2x2() {
    let mut rng = SimpleSeededRandomSource::new();
    for _ in 0..10 {
        let mut cube = Cube2x2x2::sourced_random(&mut rng);
        let solution = cube.solve().unwrap();
        let initial = cube.clone();
        for mv in &solution {
            cube.do_move(*mv);
        }
        assert!(
            cube.is_solved(),
            "cube solution invalid\n\
            Initial state:\n{:?}\
            Solution:\n{:?}\
            Final state:\n{:?}",
            initial,
            solution,
            cube
        );
    }

    for _ in 0..10 {
        let mut cube = Cube3x3x3::sourced_random(&mut rng);
        let solution = cube.solve_fast().unwrap();
        let initial = cube.clone();
        cube.do_moves(&solution);
        assert!(
            cube.is_solved(),
            "cube solution invalid\n\
            Initial state:\n{:?}\
            Solution:\n{:?}\
            Final state:\n{:?}",
            initial,
            solution,
            cube
        );
    }
}

#[test]
fn solve_3x3x3() {
    let mut rng = SimpleSeededRandomSource::new();
    for _ in 0..10 {
        let mut cube = Cube3x3x3::sourced_random(&mut rng);
        let solution = cube.solve().unwrap();
        let initial = cube.clone();
        for mv in &solution {
            cube.do_move(*mv);
        }
        assert!(
            cube.is_solved(),
            "cube solution invalid\n\
            Initial state:\n{:?}\
            Solution:\n{:?}\
            Final state:\n{:?}",
            initial,
            solution,
            cube
        );
    }

    for _ in 0..10 {
        let mut cube = Cube3x3x3::sourced_random(&mut rng);
        let solution = cube.solve_fast().unwrap();
        let initial = cube.clone();
        cube.do_moves(&solution);
        assert!(
            cube.is_solved(),
            "cube solution invalid\n\
            Initial state:\n{:?}\
            Solution:\n{:?}\
            Final state:\n{:?}",
            initial,
            solution,
            cube
        );
    }
}

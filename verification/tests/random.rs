use tpscube_core::common::{
    draw, Corner, CornerPiece, Move, RandomSource, SimpleSeededRandomSource,
};
use tpscube_core::cube2x2x2::{Cube2x2x2, Cube2x2x2Faces};
use tpscube_core::cube3x3x3::{Cube3x3x3, Cube3x3x3Faces, Edge3x3x3, EdgePiece3x3x3};

/// A source that hands out the numbers of a list, and records what was asked.
struct Scripted {
    numbers: Vec<u32>,
    asked: Vec<u32>,
}

impl Scripted {
    fn new(numbers: &[u32]) -> Self {
        Scripted { numbers: numbers.to_vec(), asked: Vec::new() }
    }
}

impl RandomSource for Scripted {
    fn next(&mut self, range: u32) -> u32 {
        let number = self.numbers[self.asked.len()];
        self.asked.push(range);
        assert!(number < range);
        number
    }
}

fn corner(piece: Corner, orientation: u8) -> CornerPiece {
    CornerPiece { piece, orientation }
}

fn edge(piece: Edge3x3x3, orientation: u8) -> EdgePiece3x3x3 {
    EdgePiece3x3x3 { piece, orientation }
}

#[test]
fn draws_that_change_nothing_give_the_solved_cube() {
    let corner_places = vec![0, 1, 2, 3, 4, 5, 6];
    let edge_places = vec![0, 1, 2, 3, 4, 5, 6, 7, 8, 9, 10];
    let cube = Cube3x3x3::from_draws(&corner_places, &edge_places, &vec![0; 7], &vec![0; 11]);
    assert_eq!(cube, Cube3x3x3::new());
    assert_eq!(Cube2x2x2::from_draws(&corner_places, &vec![0; 7]), Cube2x2x2::new());
}

#[test]
fn pieces_are_exchanged_two_pairs_at_a_time() {
    let cube = Cube2x2x2::from_draws(&vec![1, 1, 2, 3, 4, 5, 6], &vec![0; 7]);
    let expected = [
        Corner::UFL,
        Corner::URF,
        Corner::ULB,
        Corner::UBR,
        Corner::DFR,
        Corner::DLF,
        Corner::DRB,
        Corner::DBL,
    ];
    for i in 0..8 {
        assert_eq!(cube.corner_piece(Corner::from_index(i).unwrap()), corner(expected[i], 0));
    }
    // Two exchanges with the last pair leave the last pair where it was.
    let cube = Cube2x2x2::from_draws(&vec![1, 0, 2, 3, 4, 5, 6], &vec![0; 7]);
    assert_eq!(cube, Cube2x2x2::new());
    // An exchange with the last place but one, and then the last pair: the three
    // pieces go round.
    let cube = Cube2x2x2::from_draws(&vec![6, 1, 2, 3, 4, 5, 6], &vec![0; 7]);
    assert_eq!(cube.corner_piece(Corner::URF).piece, Corner::DBL);
    assert_eq!(cube.corner_piece(Corner::DBL).piece, Corner::DRB);
    assert_eq!(cube.corner_piece(Corner::DRB).piece, Corner::URF);
    assert!(cube.is_valid());
}

#[test]
fn the_last_twist_and_the_last_flip_are_made_to_fit() {
    let corner_places = vec![0, 1, 2, 3, 4, 5, 6];
    let edge_places = vec![0, 1, 2, 3, 4, 5, 6, 7, 8, 9, 10];
    let cube = Cube3x3x3::from_draws(
        &corner_places,
        &edge_places,
        &vec![1, 0, 2, 2, 0, 0, 0],
        &vec![1, 0, 0, 0, 1, 0, 0, 0, 0, 0, 1],
    );
    assert_eq!(cube.corner_piece(Corner::URF), corner(Corner::URF, 1));
    assert_eq!(cube.corner_piece(Corner::ULB), corner(Corner::ULB, 2));
    assert_eq!(cube.corner_piece(Corner::UBR), corner(Corner::UBR, 2));
    // The twists add up to 5: the last corner gets 1.
    assert_eq!(cube.corner_piece(Corner::DRB), corner(Corner::DRB, 1));
    assert_eq!(cube.edge_piece(Edge3x3x3::UR), edge(Edge3x3x3::UR, 1));
    assert_eq!(cube.edge_piece(Edge3x3x3::BL), edge(Edge3x3x3::BL, 1));
    // Three flips: the last edge is flipped too.
    assert_eq!(cube.edge_piece(Edge3x3x3::BR), edge(Edge3x3x3::BR, 1));
    assert!(cube.is_valid());
    let even = Cube3x3x3::from_draws(
        &corner_places,
        &edge_places,
        &vec![1, 2, 0, 0, 0, 0, 0],
        &vec![1, 1, 0, 0, 0, 0, 0, 0, 0, 0, 0],
    );
    assert_eq!(even.corner_piece(Corner::DRB), corner(Corner::DRB, 0));
    assert_eq!(even.edge_piece(Edge3x3x3::BR), edge(Edge3x3x3::BR, 0));
}

#[test]
fn a_random_state_is_the_state_of_its_draws() {
    let numbers: Vec<u32> = vec![
        3, 7, 2, 0, 5, 5, 1, // places of corners
        11, 4, 2, 9, 0, 5, 7, 7, 10, 1, 3, // places of edges
        2, 1, 0, 2, 2, 1, 0, // twists
        1, 0, 1, 1, 0, 0, 1, 0, 1, 1, 0, // flips
    ];
    let mut source = Scripted::new(&numbers);
    let cube = Cube3x3x3::sourced_random(&mut source);
    let mut ranges = vec![8; 7];
    ranges.extend(vec![12; 11]);
    ranges.extend(vec![3; 7]);
    ranges.extend(vec![2; 11]);
    assert_eq!(source.asked, ranges);
    let expected = Cube3x3x3::from_draws(
        &numbers[..7].to_vec(),
        &numbers[7..18].to_vec(),
        &numbers[18..25].to_vec(),
        &numbers[25..].to_vec(),
    );
    assert_eq!(cube, expected);
    assert!(cube.is_valid());
    assert_ne!(cube, Cube3x3x3::new());
    let mut source = Scripted::new(&numbers);
    assert_eq!(Cube3x3x3Faces::sourced_random(&mut source), expected.as_faces());

    let small: Vec<u32> = vec![3, 7, 2, 0, 5, 5, 1, 2, 1, 0, 2, 2, 1, 0];
    let mut source = Scripted::new(&small);
    let cube = Cube2x2x2::sourced_random(&mut source);
    let mut ranges = vec![8; 7];
    ranges.extend(vec![3; 7]);
    assert_eq!(source.asked, ranges);
    let expected = Cube2x2x2::from_draws(&small[..7].to_vec(), &small[7..].to_vec());
    assert_eq!(cube, expected);
    let mut source = Scripted::new(&small);
    assert_eq!(Cube2x2x2Faces::sourced_random(&mut source), expected.as_faces());
}

#[test]
fn numbers_are_drawn_one_after_the_other() {
    let mut source = Scripted::new(&[4, 0, 3, 1]);
    assert_eq!(draw(&mut source, 5, 4), vec![4, 0, 3, 1]);
    assert_eq!(source.asked, vec![5, 5, 5, 5]);
    let mut seeded = SimpleSeededRandomSource::new();
    let mut again = SimpleSeededRandomSource::new();
    let drawn = draw(&mut seeded, 18, 10);
    for number in drawn {
        assert_eq!(number, again.next(18));
    }
    assert_eq!(draw(&mut seeded, 7, 0), Vec::<u32>::new());
}

#[test]
fn a_random_move_is_the_move_with_the_number_drawn() {
    let mut source = Scripted::new(&[0, 17, 5, 9]);
    assert_eq!(Move::sourced_random_3x3x3(&mut source), Move::U);
    assert_eq!(Move::sourced_random_3x3x3(&mut source), Move::D2);
    assert_eq!(Move::sourced_random_2x2x2(&mut source), Move::F2);
    assert_eq!(Move::sourced_random_2x2x2(&mut source), Move::B);
    assert_eq!(source.asked, vec![18, 18, 18, 18]);
    // The seeded source begins with the state 12345, whose high half is 0.
    let mut seeded = SimpleSeededRandomSource::new();
    assert_eq!(Move::sourced_random_3x3x3(&mut seeded), Move::U);
    let mut seeded = SimpleSeededRandomSource::new();
    let mut again = SimpleSeededRandomSource::new();
    for _ in 0..20 {
        let mv = Move::sourced_random_3x3x3(&mut seeded);
        assert_eq!(mv, Move::from_index(again.next(18) as usize).unwrap());
    }
}

use rand::Rng;
use vstd::prelude::*;

verus! {

/// The six sticker colors.
#[derive(Clone, Copy, Debug, PartialEq, Eq, Structural, PartialOrd, Ord, Hash)]
pub enum Color {
    White,
    Green,
    Red,
    Blue,
    Orange,
    Yellow,
}

/// One of the six faces of a cube, in the order used by the face-major color arrays.
#[derive(Clone, Copy, Debug, PartialEq, Eq, Structural, PartialOrd, Ord, Hash)]
pub enum CubeFace {
    Top,
    Front,
    Right,
    Back,
    Left,
    Bottom,
}

/// Direction of a quarter turn, as seen when looking at the turned face.
#[derive(Clone, Copy, Debug, PartialEq, Eq, Structural, PartialOrd, Ord, Hash)]
pub enum RotationDirection {
    CW,
    CCW,
}

/// Identity of a corner piece, named by the faces that meet at its home position.
#[derive(Clone, Copy, Debug, PartialEq, Eq, Structural, PartialOrd, Ord, Hash)]
pub enum Corner {
    URF,
    UFL,
    ULB,
    UBR,
    DFR,
    DLF,
    DBL,
    DRB,
}

/// A corner piece together with its twist relative to the solved state.
#[derive(Clone, Copy, Debug, PartialEq, Eq, Structural)]
pub struct CornerPiece {
    pub piece: Corner,
    pub orientation: u8,
}

/// An outer layer turn: a face and a quarter turn clockwise (`U`), a quarter turn
/// counter-clockwise (`Up`) or a half turn (`U2`).
#[derive(Clone, Copy, Debug, PartialEq, Eq, Structural, PartialOrd, Ord, Hash)]
pub enum Move {
    U,
    Up,
    U2,
    F,
    Fp,
    F2,
    R,
    Rp,
    R2,
    B,
    Bp,
    B2,
    L,
    Lp,
    L2,
    D,
    Dp,
    D2,
}

impl CubeFace {
    /// Position of the face in the face-major ordering.
    pub open spec fn spec_index(self) -> int {
        match self {
            CubeFace::Top => 0,
            CubeFace::Front => 1,
            CubeFace::Right => 2,
            CubeFace::Back => 3,
            CubeFace::Left => 4,
            CubeFace::Bottom => 5,
        }
    }

    /// The face at a position of the face-major ordering.
    pub open spec fn at(i: int) -> CubeFace {
        if i == 0 {
            CubeFace::Top
        } else if i == 1 {
            CubeFace::Front
        } else if i == 2 {
            CubeFace::Right
        } else if i == 3 {
            CubeFace::Back
        } else if i == 4 {
            CubeFace::Left
        } else {
            CubeFace::Bottom
        }
    }

    /// Color of the face on a solved cube.
    pub open spec fn spec_color(self) -> Color {
        match self {
            CubeFace::Top => Color::White,
            CubeFace::Front => Color::Green,
            CubeFace::Right => Color::Red,
            CubeFace::Back => Color::Blue,
            CubeFace::Left => Color::Orange,
            CubeFace::Bottom => Color::Yellow,
        }
    }

    /// The face on the other side of the cube.
    pub open spec fn spec_opposite(self) -> CubeFace {
        match self {
            CubeFace::Top => CubeFace::Bottom,
            CubeFace::Front => CubeFace::Back,
            CubeFace::Right => CubeFace::Left,
            CubeFace::Back => CubeFace::Front,
            CubeFace::Left => CubeFace::Right,
            CubeFace::Bottom => CubeFace::Top,
        }
    }

    pub fn index(self) -> (r: usize)
        ensures
            r == self.spec_index(),
            r < 6,
    {
        match self {
            CubeFace::Top => 0,
            CubeFace::Front => 1,
            CubeFace::Right => 2,
            CubeFace::Back => 3,
            CubeFace::Left => 4,
            CubeFace::Bottom => 5,
        }
    }

    pub fn from_index(i: usize) -> (r: Option<CubeFace>)
        ensures
            i < 6 ==> r == Some(CubeFace::at(i as int)),
            i >= 6 ==> r is None,
    {
        match i {
            0 => Some(CubeFace::Top),
            1 => Some(CubeFace::Front),
            2 => Some(CubeFace::Right),
            3 => Some(CubeFace::Back),
            4 => Some(CubeFace::Left),
            5 => Some(CubeFace::Bottom),
            _ => None,
        }
    }

    #[verifier::when_used_as_spec(spec_color)]
    pub fn color(self) -> (r: Color)
        ensures
            r == self.spec_color(),
    {
        match self {
            CubeFace::Top => Color::White,
            CubeFace::Front => Color::Green,
            CubeFace::Right => Color::Red,
            CubeFace::Back => Color::Blue,
            CubeFace::Left => Color::Orange,
            CubeFace::Bottom => Color::Yellow,
        }
    }

    #[verifier::when_used_as_spec(spec_opposite)]
    pub fn opposite(self) -> (r: CubeFace)
        ensures
            r == self.spec_opposite(),
    {
        match self {
            CubeFace::Top => CubeFace::Bottom,
            CubeFace::Front => CubeFace::Back,
            CubeFace::Right => CubeFace::Left,
            CubeFace::Back => CubeFace::Front,
            CubeFace::Left => CubeFace::Right,
            CubeFace::Bottom => CubeFace::Top,
        }
    }
}

impl Corner {
    /// Home position of the corner.
    pub open spec fn spec_index(self) -> int {
        match self {
            Corner::URF => 0,
            Corner::UFL => 1,
            Corner::ULB => 2,
            Corner::UBR => 3,
            Corner::DFR => 4,
            Corner::DLF => 5,
            Corner::DBL => 6,
            Corner::DRB => 7,
        }
    }

    /// The corner whose home is position `i`.
    pub open spec fn at(i: int) -> Corner {
        if i == 0 {
            Corner::URF
        } else if i == 1 {
            Corner::UFL
        } else if i == 2 {
            Corner::ULB
        } else if i == 3 {
            Corner::UBR
        } else if i == 4 {
            Corner::DFR
        } else if i == 5 {
            Corner::DLF
        } else if i == 6 {
            Corner::DBL
        } else {
            Corner::DRB
        }
    }

    pub fn index(self) -> (r: usize)
        ensures
            r == self.spec_index(),
            r < 8,
    {
        match self {
            Corner::URF => 0,
            Corner::UFL => 1,
            Corner::ULB => 2,
            Corner::UBR => 3,
            Corner::DFR => 4,
            Corner::DLF => 5,
            Corner::DBL => 6,
            Corner::DRB => 7,
        }
    }

    pub fn from_index(i: usize) -> (r: Option<Corner>)
        ensures
            i < 8 ==> r == Some(Corner::at(i as int)),
            i >= 8 ==> r is None,
    {
        match i {
            0 => Some(Corner::URF),
            1 => Some(Corner::UFL),
            2 => Some(Corner::ULB),
            3 => Some(Corner::UBR),
            4 => Some(Corner::DFR),
            5 => Some(Corner::DLF),
            6 => Some(Corner::DBL),
            7 => Some(Corner::DRB),
            _ => None,
        }
    }
}

impl Move {
    /// The face that the move turns.
    pub open spec fn spec_face(self) -> CubeFace {
        match self {
            Move::U | Move::Up | Move::U2 => CubeFace::Top,
            Move::F | Move::Fp | Move::F2 => CubeFace::Front,
            Move::R | Move::Rp | Move::R2 => CubeFace::Right,
            Move::B | Move::Bp | Move::B2 => CubeFace::Back,
            Move::L | Move::Lp | Move::L2 => CubeFace::Left,
            Move::D | Move::Dp | Move::D2 => CubeFace::Bottom,
        }
    }

    /// Signed magnitude of the move: 1 for a clockwise quarter turn, -1 for a
    /// counter-clockwise quarter turn, 2 for a half turn.
    pub open spec fn spec_rotation(self) -> int {
        match self {
            Move::U | Move::F | Move::R | Move::B | Move::L | Move::D => 1,
            Move::Up | Move::Fp | Move::Rp | Move::Bp | Move::Lp | Move::Dp => -1,
            Move::U2 | Move::F2 | Move::R2 | Move::B2 | Move::L2 | Move::D2 => 2,
        }
    }

    /// Number of clockwise quarter turns that have the same effect as the move.
    pub open spec fn quarter_turns(self) -> nat {
        if self.spec_rotation() == 1 {
            1
        } else if self.spec_rotation() == 2 {
            2
        } else {
            3
        }
    }

    /// The move with the given face and signed magnitude.
    pub open spec fn of(face: CubeFace, rotation: int) -> Move {
        match face {
            CubeFace::Top => if rotation == 1 {
                Move::U
            } else if rotation == 2 {
                Move::U2
            } else {
                Move::Up
            },
            CubeFace::Front => if rotation == 1 {
                Move::F
            } else if rotation == 2 {
                Move::F2
            } else {
                Move::Fp
            },
            CubeFace::Right => if rotation == 1 {
                Move::R
            } else if rotation == 2 {
                Move::R2
            } else {
                Move::Rp
            },
            CubeFace::Back => if rotation == 1 {
                Move::B
            } else if rotation == 2 {
                Move::B2
            } else {
                Move::Bp
            },
            CubeFace::Left => if rotation == 1 {
                Move::L
            } else if rotation == 2 {
                Move::L2
            } else {
                Move::Lp
            },
            CubeFace::Bottom => if rotation == 1 {
                Move::D
            } else if rotation == 2 {
                Move::D2
            } else {
                Move::Dp
            },
        }
    }

    /// The move that undoes this one.
    pub open spec fn spec_inverse(self) -> Move {
        Move::of(
            self.spec_face(),
            if self.spec_rotation() == 2 {
                2
            } else {
                -self.spec_rotation()
            },
        )
    }

    /// Position of the move in the enumeration of all moves.
    pub open spec fn spec_index(self) -> int {
        3 * self.spec_face().spec_index() + if self.spec_rotation() == 1 {
            0int
        } else if self.spec_rotation() == -1 {
            1int
        } else {
            2int
        }
    }

    /// The move at a position of the enumeration of all moves.
    pub open spec fn at(i: int) -> Move {
        Move::of(
            CubeFace::at(i / 3),
            if i % 3 == 0 {
                1
            } else if i % 3 == 1 {
                -1
            } else {
                2
            },
        )
    }

    /// Number of different moves of a 3x3x3 cube.
    pub fn count_3x3x3() -> (r: usize)
        ensures
            r == 18,
    {
        18
    }

    /// Number of different moves of a 2x2x2 cube.
    pub fn count_2x2x2() -> (r: usize)
        ensures
            r == 18,
    {
        18
    }

    #[verifier::when_used_as_spec(spec_face)]
    pub fn face(self) -> (r: CubeFace)
        ensures
            r == self.spec_face(),
    {
        match self {
            Move::U | Move::Up | Move::U2 => CubeFace::Top,
            Move::F | Move::Fp | Move::F2 => CubeFace::Front,
            Move::R | Move::Rp | Move::R2 => CubeFace::Right,
            Move::B | Move::Bp | Move::B2 => CubeFace::Back,
            Move::L | Move::Lp | Move::L2 => CubeFace::Left,
            Move::D | Move::Dp | Move::D2 => CubeFace::Bottom,
        }
    }

    pub fn rotation(self) -> (r: i32)
        ensures
            r == self.spec_rotation(),
    {
        match self {
            Move::U | Move::F | Move::R | Move::B | Move::L | Move::D => 1,
            Move::Up | Move::Fp | Move::Rp | Move::Bp | Move::Lp | Move::Dp => -1,
            Move::U2 | Move::F2 | Move::R2 | Move::B2 | Move::L2 | Move::D2 => 2,
        }
    }

    /// Builds a move from a face and a signed magnitude. Only the magnitudes 1, -1
    /// and 2 name a move.
    pub fn from_face_and_rotation(face: CubeFace, rotation: i32) -> (r: Option<Move>)
        ensures
            (rotation == 1 || rotation == -1 || rotation == 2) ==> r == Some(
                Move::of(face, rotation as int),
            ),
            !(rotation == 1 || rotation == -1 || rotation == 2) ==> r is None,
    {
        if rotation == 1 {
            Some(
                match face {
                    CubeFace::Top => Move::U,
                    CubeFace::Front => Move::F,
                    CubeFace::Right => Move::R,
                    CubeFace::Back => Move::B,
                    CubeFace::Left => Move::L,
                    CubeFace::Bottom => Move::D,
                },
            )
        } else if rotation == -1 {
            Some(
                match face {
                    CubeFace::Top => Move::Up,
                    CubeFace::Front => Move::Fp,
                    CubeFace::Right => Move::Rp,
                    CubeFace::Back => Move::Bp,
                    CubeFace::Left => Move::Lp,
                    CubeFace::Bottom => Move::Dp,
                },
            )
        } else if rotation == 2 {
            Some(
                match face {
                    CubeFace::Top => Move::U2,
                    CubeFace::Front => Move::F2,
                    CubeFace::Right => Move::R2,
                    CubeFace::Back => Move::B2,
                    CubeFace::Left => Move::L2,
                    CubeFace::Bottom => Move::D2,
                },
            )
        } else {
            None
        }
    }

    #[verifier::when_used_as_spec(spec_inverse)]
    pub fn inverse(self) -> (r: Move)
        ensures
            r == self.spec_inverse(),
    {
        match self {
            Move::U => Move::Up,
            Move::Up => Move::U,
            Move::U2 => Move::U2,
            Move::F => Move::Fp,
            Move::Fp => Move::F,
            Move::F2 => Move::F2,
            Move::R => Move::Rp,
            Move::Rp => Move::R,
            Move::R2 => Move::R2,
            Move::B => Move::Bp,
            Move::Bp => Move::B,
            Move::B2 => Move::B2,
            Move::L => Move::Lp,
            Move::Lp => Move::L,
            Move::L2 => Move::L2,
            Move::D => Move::Dp,
            Move::Dp => Move::D,
            Move::D2 => Move::D2,
        }
    }

    pub fn index(self) -> (r: usize)
        ensures
            r == self.spec_index(),
            r < 18,
    {
        match self {
            Move::U => 0,
            Move::Up => 1,
            Move::U2 => 2,
            Move::F => 3,
            Move::Fp => 4,
            Move::F2 => 5,
            Move::R => 6,
            Move::Rp => 7,
            Move::R2 => 8,
            Move::B => 9,
            Move::Bp => 10,
            Move::B2 => 11,
            Move::L => 12,
            Move::Lp => 13,
            Move::L2 => 14,
            Move::D => 15,
            Move::Dp => 16,
            Move::D2 => 17,
        }
    }

    pub fn from_index(i: usize) -> (r: Option<Move>)
        ensures
            i < 18 ==> r == Some(Move::at(i as int)),
            i >= 18 ==> r is None,
    {
        match i {
            0 => Some(Move::U),
            1 => Some(Move::Up),
            2 => Some(Move::U2),
            3 => Some(Move::F),
            4 => Some(Move::Fp),
            5 => Some(Move::F2),
            6 => Some(Move::R),
            7 => Some(Move::Rp),
            8 => Some(Move::R2),
            9 => Some(Move::B),
            10 => Some(Move::Bp),
            11 => Some(Move::B2),
            12 => Some(Move::L),
            13 => Some(Move::Lp),
            14 => Some(Move::L2),
            15 => Some(Move::D),
            16 => Some(Move::Dp),
            17 => Some(Move::D2),
            _ => None,
        }
    }
}

/// Enumeration and indexing of moves agree.
pub proof fn lemma_move_index_round_trip(mv: Move)
    ensures
        0 <= mv.spec_index() < 18,
        Move::at(mv.spec_index()) == mv,
{
}

/// Every position below 18 names a move with that position.
pub proof fn lemma_move_at_index(i: int)
    requires
        0 <= i < 18,
    ensures
        Move::at(i).spec_index() == i,
{
}

/// The inverse of a sequence of moves: the inverses of its moves in reverse order.
pub open spec fn inverse_sequence(moves: Seq<Move>) -> Seq<Move> {
    Seq::new(moves.len(), |i: int| moves[moves.len() - 1 - i].spec_inverse())
}

/// The inverse of the inverse of a move is the move.
pub proof fn lemma_inverse_twice(mv: Move)
    ensures
        mv.spec_inverse().spec_inverse() == mv,
{
}

/// The inverse of the inverse of a sequence of moves is the sequence.
pub proof fn lemma_inverse_sequence_twice(moves: Seq<Move>)
    ensures
        inverse_sequence(inverse_sequence(moves)) == moves,
{
    let twice = inverse_sequence(inverse_sequence(moves));
    assert forall|i: int| 0 <= i < moves.len() implies twice[i] == moves[i] by {
        lemma_inverse_twice(moves[i]);
    }
    assert(twice =~= moves);
}

/// Inverts a sequence of moves.
pub fn inverse_moves(moves: &Vec<Move>) -> (r: Vec<Move>)
    ensures
        r@ == inverse_sequence(moves@),
{
    let mut out: Vec<Move> = Vec::new();
    let n = moves.len();
    let mut i: usize = 0;
    while i < n
        invariant
            n == moves.len(),
            i <= n,
            out.len() == i,
            forall|k: int| 0 <= k < i ==> out[k] == moves[n - 1 - k].spec_inverse(),
        decreases n - i,
    {
        out.push(moves[n - 1 - i].inverse());
        i += 1;
    }
    assert(out@ =~= inverse_sequence(moves@));
    out
}

/// A source of uniformly distributed random numbers.
pub trait RandomSource {
    /// Whether the source, as it is, can give the number `r` when it is asked for a
    /// number below `range`, and is as `after` is once it has given it. A source
    /// that says no more of itself can give every number below the range.
    open spec fn gives(&self, range: u32, r: u32, after: &Self) -> bool {
        r < range
    }

    /// A number that is at least 0 and below `range`: one that the source can give,
    /// and the source is as that leaves it.
    fn next(&mut self, range: u32) -> (r: u32)
        requires
            range > 0,
        ensures
            r < range,
            old(self).gives(range, r, final(self)),
    ;
}

/// Whether `draws` are `count` numbers below `range`.
pub open spec fn draws_below(draws: Seq<u32>, count: int, range: int) -> bool {
    &&& draws.len() == count
    &&& forall|i: int| 0 <= i < count ==> #[trigger] draws[i] < range
}

/// Sum of the first `n` of the numbers drawn.
pub open spec fn drawn_sum(draws: Seq<u32>, n: nat) -> int
    decreases n,
{
    if n == 0 {
        0
    } else {
        drawn_sum(draws, (n - 1) as nat) + draws[n - 1]
    }
}

/// Whether a source that passes through the states `states` can give the numbers
/// `draws` on its way, each when it is asked for a number below `range`.
pub open spec fn passes<T: RandomSource>(states: Seq<T>, range: u32, draws: Seq<u32>) -> bool {
    &&& states.len() == draws.len() + 1
    &&& forall|i: int|
        0 <= i < draws.len() ==> states[i].gives(range, #[trigger] draws[i], &states[i + 1])
}

/// Whether the source `before` can give the numbers `draws`, one after the other,
/// when it is asked each time for a number below `range`, and is as `after` is once
/// it has given them.
pub open spec fn gives_all<T: RandomSource>(
    before: &T,
    range: u32,
    draws: Seq<u32>,
    after: &T,
) -> bool {
    exists|states: Seq<T>| #[trigger]
        passes(states, range, draws) && states.first() == *before && states.last() == *after
}

/// A source can give no numbers and stay as it is.
pub proof fn lemma_gives_none<T: RandomSource>(source: &T, range: u32)
    ensures
        gives_all(source, range, Seq::<u32>::empty(), source),
{
    let states = seq![*source];
    assert(passes(states, range, Seq::<u32>::empty()) && states.first() == *source
        && states.last() == *source);
}

/// A source that can give some numbers, and then one more, can give them all.
pub proof fn lemma_gives_one_more<T: RandomSource>(
    before: &T,
    range: u32,
    draws: Seq<u32>,
    mid: &T,
    n: u32,
    after: &T,
)
    requires
        gives_all(before, range, draws, mid),
        mid.gives(range, n, after),
    ensures
        gives_all(before, range, draws.push(n), after),
{
    let states = choose|states: Seq<T>| #[trigger]
        passes(states, range, draws) && states.first() == *before && states.last() == *mid;
    let longer = states.push(*after);
    let all = draws.push(n);
    assert forall|i: int| 0 <= i < all.len() implies longer[i].gives(
        range,
        #[trigger] all[i],
        &longer[i + 1],
    ) by {
        if i < draws.len() {
            assert(states[i].gives(range, draws[i], &states[i + 1]));
        }
    }
    assert(passes(longer, range, all) && longer.first() == *before && longer.last() == *after);
}

/// Draws `count` numbers below `range` from a source, one after the other: the
/// numbers are those that the source gave, in their order.
pub fn draw<T: RandomSource>(rng: &mut T, range: u32, count: usize) -> (r: Vec<u32>)
    requires
        range > 0,
    ensures
        draws_below(r@, count as int, range as int),
        gives_all(old(rng), range, r@, final(rng)),
{
    let mut draws: Vec<u32> = Vec::new();
    let mut i: usize = 0;
    proof {
        lemma_gives_none(rng, range);
    }
    while i < count
        invariant
            i <= count,
            range > 0,
            draws@.len() == i,
            forall|k: int| 0 <= k < i ==> #[trigger] draws@[k] < range,
            gives_all(old(rng), range, draws@, rng),
        decreases count - i,
    {
        let ghost mid = *rng;
        let ghost before = draws@;
        let n = rng.next(range);
        draws.push(n);
        proof {
            assert(draws@ =~= before.push(n));
            lemma_gives_one_more(old(rng), range, before, &mid, n, rng);
        }
        i += 1;
    }
    draws
}

/// A random source that yields the same numbers in every run: a linear
/// congruential generator that starts from a fixed seed.
#[derive(Clone, Copy, Debug)]
pub struct SimpleSeededRandomSource {
    seed: u32,
}

/// State of the generator after one step.
pub open spec fn next_seed(seed: u32) -> u32 {
    vstd::wrapping::u32_specs::wrapping_add(
        vstd::wrapping::u32_specs::wrapping_mul(seed, 1103515245),
        12345,
    )
}

impl SimpleSeededRandomSource {
    /// The state of the generator.
    pub closed spec fn state(&self) -> u32 {
        self.seed
    }

    pub fn new() -> (r: Self)
        ensures
            r.state() == 0,
    {
        SimpleSeededRandomSource { seed: 0 }
    }
}

impl RandomSource for SimpleSeededRandomSource {
    /// The generator makes one step, and gives the high half of its new state,
    /// reduced to the range.
    open spec fn gives(&self, range: u32, r: u32, after: &Self) -> bool {
        &&& range > 0
        &&& after.state() == next_seed(self.state())
        &&& r == (next_seed(self.state()) >> 16) % range
    }

    fn next(&mut self, range: u32) -> (r: u32)
        ensures
            final(self).state() == next_seed(old(self).state()),
            r == (next_seed(old(self).state()) >> 16) % range,
    {
        self.seed = self.seed.wrapping_mul(1103515245).wrapping_add(12345);
        (self.seed >> 16) % range
    }
}

/// A random source fed by the operating system.
#[derive(Clone, Copy, Debug)]
pub struct StandardRandomSource;

impl RandomSource for StandardRandomSource {
    fn next(&mut self, range: u32) -> (r: u32) {
        uniform_below(range)
    }
}

/// Calls `rand::Rng::gen_range` on the thread's generator with the range from 0 up
/// to, and without, `range`. The result lies in that range; `gen_range` panics on
/// an empty range, which the precondition excludes.
#[verifier::external_body]
fn uniform_below(range: u32) -> (r: u32)
    requires
        range > 0,
    ensures
        r < range,
{
    rand::thread_rng().gen_range(0..range)
}

impl Move {
    /// A random move of a 3x3x3 cube: the source is asked once, for a number below
    /// the count of the moves, and the move is the one with that number.
    pub fn sourced_random_3x3x3<T: RandomSource>(rng: &mut T) -> (r: Move)
        ensures
            old(rng).gives(18, r.spec_index() as u32, final(rng)),
    {
        let n = rng.next(18);
        proof {
            lemma_move_at_index(n as int);
        }
        match Move::from_index(n as usize) {
            Some(mv) => mv,
            None => Move::U,
        }
    }

    /// A random move of a 2x2x2 cube: the source is asked once, for a number below
    /// the count of the moves, and the move is the one with that number.
    pub fn sourced_random_2x2x2<T: RandomSource>(rng: &mut T) -> (r: Move)
        ensures
            old(rng).gives(18, r.spec_index() as u32, final(rng)),
    {
        let n = rng.next(18);
        proof {
            lemma_move_at_index(n as int);
        }
        match Move::from_index(n as usize) {
            Some(mv) => mv,
            None => Move::U,
        }
    }
}

/// A move with the time, in milliseconds, at which the cube reported it.
#[derive(Clone, Copy, Debug, PartialEq, Eq, Structural)]
pub struct TimedMove {
    pub mv: Move,
    pub time: u32,
}

impl TimedMove {
    pub fn new(mv: Move, time: u32) -> (r: Self)
        ensures
            r.mv == mv,
            r.time == time,
    {
        TimedMove { mv, time }
    }
}

} // verus!

use crate::common::{draws_below, drawn_sum, CubeFace, Move};
use crate::index::{
    arranged, binomial, bubbled, digit_at, factoradic_digits, index_rest, lemma_binomial_beyond,
    lemma_binomial_step, lemma_small_factorials, lemma_small_product, n_choose_k,
    permutation_index, permutation_rank,
    positional_index, positional_value, power, swapped,
};
use crate::rank::greedy_choice;
use vstd::prelude::*;

verus! {

/// Identity of an edge piece, named by the faces that meet at its home position.
#[derive(Clone, Copy, Debug, PartialEq, Eq, Structural, PartialOrd, Ord, Hash)]
pub enum Edge3x3x3 {
    UR,
    UF,
    UL,
    UB,
    DR,
    DF,
    DL,
    DB,
    FR,
    FL,
    BL,
    BR,
}

/// An edge piece together with its flip relative to the solved state.
#[derive(Clone, Copy, Debug, PartialEq, Eq, Structural)]
pub struct EdgePiece3x3x3 {
    pub piece: Edge3x3x3,
    pub orientation: u8,
}

impl Edge3x3x3 {
    /// Home position of the edge.
    pub open spec fn spec_index(self) -> int {
        match self {
            Edge3x3x3::UR => 0,
            Edge3x3x3::UF => 1,
            Edge3x3x3::UL => 2,
            Edge3x3x3::UB => 3,
            Edge3x3x3::DR => 4,
            Edge3x3x3::DF => 5,
            Edge3x3x3::DL => 6,
            Edge3x3x3::DB => 7,
            Edge3x3x3::FR => 8,
            Edge3x3x3::FL => 9,
            Edge3x3x3::BL => 10,
            Edge3x3x3::BR => 11,
        }
    }

    /// The edge whose home is position `i`.
    pub open spec fn at(i: int) -> Edge3x3x3 {
        if i == 0 {
            Edge3x3x3::UR
        } else if i == 1 {
            Edge3x3x3::UF
        } else if i == 2 {
            Edge3x3x3::UL
        } else if i == 3 {
            Edge3x3x3::UB
        } else if i == 4 {
            Edge3x3x3::DR
        } else if i == 5 {
            Edge3x3x3::DF
        } else if i == 6 {
            Edge3x3x3::DL
        } else if i == 7 {
            Edge3x3x3::DB
        } else if i == 8 {
            Edge3x3x3::FR
        } else if i == 9 {
            Edge3x3x3::FL
        } else if i == 10 {
            Edge3x3x3::BL
        } else {
            Edge3x3x3::BR
        }
    }

    /// Whether the edge belongs to the layer between the top and the bottom layer.
    pub open spec fn spec_is_equatorial(self) -> bool {
        self.spec_index() >= 8
    }

    pub fn index(self) -> (r: usize)
        ensures
            r == self.spec_index(),
            r < 12,
    {
        match self {
            Edge3x3x3::UR => 0,
            Edge3x3x3::UF => 1,
            Edge3x3x3::UL => 2,
            Edge3x3x3::UB => 3,
            Edge3x3x3::DR => 4,
            Edge3x3x3::DF => 5,
            Edge3x3x3::DL => 6,
            Edge3x3x3::DB => 7,
            Edge3x3x3::FR => 8,
            Edge3x3x3::FL => 9,
            Edge3x3x3::BL => 10,
            Edge3x3x3::BR => 11,
        }
    }

    pub fn from_index(i: usize) -> (r: Option<Edge3x3x3>)
        ensures
            i < 12 ==> r == Some(Edge3x3x3::at(i as int)),
            i >= 12 ==> r is None,
    {
        match i {
            0 => Some(Edge3x3x3::UR),
            1 => Some(Edge3x3x3::UF),
            2 => Some(Edge3x3x3::UL),
            3 => Some(Edge3x3x3::UB),
            4 => Some(Edge3x3x3::DR),
            5 => Some(Edge3x3x3::DF),
            6 => Some(Edge3x3x3::DL),
            7 => Some(Edge3x3x3::DB),
            8 => Some(Edge3x3x3::FR),
            9 => Some(Edge3x3x3::FL),
            10 => Some(Edge3x3x3::BL),
            11 => Some(Edge3x3x3::BR),
            _ => None,
        }
    }

    #[verifier::when_used_as_spec(spec_is_equatorial)]
    pub fn is_equatorial(self) -> (r: bool)
        ensures
            r == self.spec_is_equatorial(),
    {
        self.index() >= 8
    }
}

/// Position from which a clockwise quarter turn of `face` brings the edge that ends at `pos`.
#[verifier::opaque]
pub open spec fn quarter_edge_source(face: CubeFace, pos: int) -> int {
    match face {
        CubeFace::Top => if pos == 0 {
            3
        } else if pos == 1 {
            0
        } else if pos == 2 {
            1
        } else if pos == 3 {
            2
        } else {
            pos
        },
        CubeFace::Front => if pos == 1 {
            9
        } else if pos == 5 {
            8
        } else if pos == 8 {
            1
        } else if pos == 9 {
            5
        } else {
            pos
        },
        CubeFace::Right => if pos == 0 {
            8
        } else if pos == 4 {
            11
        } else if pos == 8 {
            4
        } else if pos == 11 {
            0
        } else {
            pos
        },
        CubeFace::Back => if pos == 3 {
            11
        } else if pos == 7 {
            10
        } else if pos == 10 {
            3
        } else if pos == 11 {
            7
        } else {
            pos
        },
        CubeFace::Left => if pos == 2 {
            10
        } else if pos == 6 {
            9
        } else if pos == 9 {
            2
        } else if pos == 10 {
            6
        } else {
            pos
        },
        CubeFace::Bottom => if pos == 4 {
            5
        } else if pos == 5 {
            6
        } else if pos == 6 {
            7
        } else if pos == 7 {
            4
        } else {
            pos
        },
    }
}

/// Flip that a clockwise quarter turn of `face` adds to the edge that ends at `pos`.
#[verifier::opaque]
pub open spec fn quarter_edge_flip(face: CubeFace, pos: int) -> int {
    match face {
        CubeFace::Top => 0,
        CubeFace::Front => if pos == 1 {
            1
        } else if pos == 5 {
            1
        } else if pos == 8 {
            1
        } else if pos == 9 {
            1
        } else {
            0
        },
        CubeFace::Right => 0,
        CubeFace::Back => if pos == 3 {
            1
        } else if pos == 7 {
            1
        } else if pos == 10 {
            1
        } else if pos == 11 {
            1
        } else {
            0
        },
        CubeFace::Left => 0,
        CubeFace::Bottom => 0,
    }
}

/// The four edge positions around `face`, in the order in which a clockwise
/// quarter turn hands the pieces on.
#[verifier::opaque]
pub open spec fn face_edge(face: CubeFace, slot: int) -> int {
    match face {
        CubeFace::Top => if slot == 0 {
            0
        } else if slot == 1 {
            1
        } else if slot == 2 {
            2
        } else {
            3
        },
        CubeFace::Front => if slot == 0 {
            1
        } else if slot == 1 {
            8
        } else if slot == 2 {
            5
        } else {
            9
        },
        CubeFace::Right => if slot == 0 {
            0
        } else if slot == 1 {
            11
        } else if slot == 2 {
            4
        } else {
            8
        },
        CubeFace::Back => if slot == 0 {
            3
        } else if slot == 1 {
            10
        } else if slot == 2 {
            7
        } else {
            11
        },
        CubeFace::Left => if slot == 0 {
            2
        } else if slot == 1 {
            9
        } else if slot == 2 {
            6
        } else {
            10
        },
        CubeFace::Bottom => if slot == 0 {
            4
        } else if slot == 1 {
            7
        } else if slot == 2 {
            6
        } else {
            5
        },
    }
}

/// The eight edge positions away from `face`, in ascending order.
#[verifier::opaque]
pub open spec fn far_edge(face: CubeFace, slot: int) -> int {
    match face {
        CubeFace::Top => if slot == 0 {
            4
        } else if slot == 1 {
            5
        } else if slot == 2 {
            6
        } else if slot == 3 {
            7
        } else if slot == 4 {
            8
        } else if slot == 5 {
            9
        } else if slot == 6 {
            10
        } else {
            11
        },
        CubeFace::Front => if slot == 0 {
            0
        } else if slot == 1 {
            2
        } else if slot == 2 {
            3
        } else if slot == 3 {
            4
        } else if slot == 4 {
            6
        } else if slot == 5 {
            7
        } else if slot == 6 {
            10
        } else {
            11
        },
        CubeFace::Right => if slot == 0 {
            1
        } else if slot == 1 {
            2
        } else if slot == 2 {
            3
        } else if slot == 3 {
            5
        } else if slot == 4 {
            6
        } else if slot == 5 {
            7
        } else if slot == 6 {
            9
        } else {
            10
        },
        CubeFace::Back => if slot == 0 {
            0
        } else if slot == 1 {
            1
        } else if slot == 2 {
            2
        } else if slot == 3 {
            4
        } else if slot == 4 {
            5
        } else if slot == 5 {
            6
        } else if slot == 6 {
            8
        } else {
            9
        },
        CubeFace::Left => if slot == 0 {
            0
        } else if slot == 1 {
            1
        } else if slot == 2 {
            3
        } else if slot == 3 {
            4
        } else if slot == 4 {
            5
        } else if slot == 5 {
            7
        } else if slot == 6 {
            8
        } else {
            11
        },
        CubeFace::Bottom => if slot == 0 {
            0
        } else if slot == 1 {
            1
        } else if slot == 2 {
            2
        } else if slot == 3 {
            3
        } else if slot == 4 {
            8
        } else if slot == 5 {
            9
        } else if slot == 6 {
            10
        } else {
            11
        },
    }
}

/// Sum of the flips of the edges away from `face`.
pub open spec fn far_flip_sum(cs: Seq<EdgePiece3x3x3>, face: CubeFace) -> int {
    cs[far_edge(face, 0)].orientation + cs[far_edge(face, 1)].orientation + cs[far_edge(
        face,
        2,
    )].orientation + cs[far_edge(face, 3)].orientation + cs[far_edge(face, 4)].orientation
        + cs[far_edge(face, 5)].orientation + cs[far_edge(face, 6)].orientation + cs[far_edge(
        face,
        7,
    )].orientation
}

/// Whether `pos` is one of the four edge positions around `face`.
pub open spec fn edge_on_face(face: CubeFace, pos: int) -> bool {
    pos == face_edge(face, 0) || pos == face_edge(face, 1) || pos == face_edge(face, 2)
        || pos == face_edge(face, 3)
}

/// The edges after one clockwise quarter turn of `face`.
pub open spec fn edges_quarter_turned(cs: Seq<EdgePiece3x3x3>, face: CubeFace) -> Seq<EdgePiece3x3x3> {
    Seq::new(
        12,
        |pos: int|
            if edge_on_face(face, pos) {
                EdgePiece3x3x3 {
                    piece: cs[quarter_edge_source(face, pos)].piece,
                    orientation: ((cs[quarter_edge_source(face, pos)].orientation
                        + quarter_edge_flip(face, pos)) % 2) as u8,
                }
            } else {
                cs[pos]
            },
    )
}

/// The edges after `quarters` clockwise quarter turns of `face`.
pub open spec fn edges_turned(cs: Seq<EdgePiece3x3x3>, face: CubeFace, quarters: nat) -> Seq<
    EdgePiece3x3x3,
>
    decreases quarters,
{
    if quarters == 0 {
        cs
    } else {
        edges_quarter_turned(edges_turned(cs, face, (quarters - 1) as nat), face)
    }
}

/// The edges after a move.
pub open spec fn edges_moved(cs: Seq<EdgePiece3x3x3>, mv: Move) -> Seq<EdgePiece3x3x3> {
    edges_turned(cs, mv.spec_face(), mv.quarter_turns())
}

/// The edges after a sequence of moves, applied from the first to the last.
pub open spec fn edges_after(cs: Seq<EdgePiece3x3x3>, moves: Seq<Move>) -> Seq<EdgePiece3x3x3>
    decreases moves.len(),
{
    if moves.len() == 0 {
        cs
    } else {
        edges_moved(edges_after(cs, moves.drop_last()), moves.last())
    }
}

/// Position from which a move brings the edge that ends at `pos`.
pub open spec fn move_edge_source(mv: Move, pos: int) -> int {
    let face = mv.spec_face();
    let once = quarter_edge_source(face, pos);
    if mv.quarter_turns() == 1 {
        once
    } else if mv.quarter_turns() == 2 {
        quarter_edge_source(face, once)
    } else {
        quarter_edge_source(face, quarter_edge_source(face, once))
    }
}

/// Flip, modulo 2, that a move adds to the edge that ends at `pos`.
pub open spec fn move_edge_flip(mv: Move, pos: int) -> int {
    let face = mv.spec_face();
    let once = quarter_edge_source(face, pos);
    let twice = quarter_edge_source(face, once);
    if mv.quarter_turns() == 1 {
        quarter_edge_flip(face, pos)
    } else if mv.quarter_turns() == 2 {
        (quarter_edge_flip(face, pos) + quarter_edge_flip(face, once)) % 2
    } else {
        (quarter_edge_flip(face, pos) + quarter_edge_flip(face, once) + quarter_edge_flip(
            face,
            twice,
        )) % 2
    }
}

/// The solved arrangement: every edge at home and unflipped.
pub open spec fn solved_edges() -> Seq<EdgePiece3x3x3> {
    Seq::new(12, |i: int| EdgePiece3x3x3 { piece: Edge3x3x3::at(i), orientation: 0 })
}

/// Twelve edges, each flipped or not: the flip is 0 or 1.
pub open spec fn edges_wf(cs: Seq<EdgePiece3x3x3>) -> bool {
    &&& cs.len() == 12
    &&& forall|i: int| 0 <= i < 12 ==> (#[trigger] cs[i]).orientation < 2
}

/// Sum of the flips of all edges.
pub open spec fn edge_flip_sum(cs: Seq<EdgePiece3x3x3>) -> int {
    cs[0].orientation + cs[1].orientation + cs[2].orientation + cs[3].orientation
        + cs[4].orientation + cs[5].orientation + cs[6].orientation + cs[7].orientation
        + cs[8].orientation + cs[9].orientation + cs[10].orientation + cs[11].orientation
}

/// Whether position `i` holds the edge `c`.
pub open spec fn holds_edge(cs: Seq<EdgePiece3x3x3>, i: int, c: Edge3x3x3) -> bool {
    0 <= i < 12 && cs[i].piece == c
}

/// Whether some position holds the edge `c`.
pub open spec fn edge_present(cs: Seq<EdgePiece3x3x3>, c: Edge3x3x3) -> bool {
    exists|i: int| #[trigger] holds_edge(cs, i, c)
}

/// No edge occupies two positions and every edge occupies one.
pub open spec fn edges_bijective(cs: Seq<EdgePiece3x3x3>) -> bool {
    &&& forall|i: int, j: int| 0 <= i < j < 12 ==> (#[trigger] cs[i]).piece != (#[trigger] cs[j]).piece
    &&& forall|c: Edge3x3x3| #[trigger] edge_present(cs, c)
}

/// What holds of the edges of every state that legal moves reach from the solved one.
pub open spec fn edges_valid(cs: Seq<EdgePiece3x3x3>) -> bool {
    &&& edges_wf(cs)
    &&& edge_flip_sum(cs) % 2 == 0
    &&& edges_bijective(cs)
}

/// One row of the move table: the edge at `source` goes to `dest` and gains `flip`.
#[derive(Clone, Copy, Debug)]
pub struct EdgeTurn {
    pub dest: usize,
    pub source: usize,
    pub flip: u8,
}

/// The move table for edges: row `slot` of the four rows of `mv`.
pub fn edge_turn(mv: Move, slot: usize) -> (r: EdgeTurn)
    requires
        slot < 4,
    ensures
        r.dest == face_edge(mv.spec_face(), slot as int),
        r.source == move_edge_source(mv, r.dest as int),
        r.flip == move_edge_flip(mv, r.dest as int),
        r.dest < 12,
        r.source < 12,
        r.flip < 2,
{
    proof {
        reveal(quarter_edge_source);
        reveal(quarter_edge_flip);
        reveal(face_edge);
    }
    match mv {
        Move::U => match slot {
            0 => EdgeTurn { dest: 0, source: 3, flip: 0 },
            1 => EdgeTurn { dest: 1, source: 0, flip: 0 },
            2 => EdgeTurn { dest: 2, source: 1, flip: 0 },
            _ => EdgeTurn { dest: 3, source: 2, flip: 0 },
        },
        Move::Up => match slot {
            0 => EdgeTurn { dest: 0, source: 1, flip: 0 },
            1 => EdgeTurn { dest: 1, source: 2, flip: 0 },
            2 => EdgeTurn { dest: 2, source: 3, flip: 0 },
            _ => EdgeTurn { dest: 3, source: 0, flip: 0 },
        },
        Move::U2 => match slot {
            0 => EdgeTurn { dest: 0, source: 2, flip: 0 },
            1 => EdgeTurn { dest: 1, source: 3, flip: 0 },
            2 => EdgeTurn { dest: 2, source: 0, flip: 0 },
            _ => EdgeTurn { dest: 3, source: 1, flip: 0 },
        },
        Move::F => match slot {
            0 => EdgeTurn { dest: 1, source: 9, flip: 1 },
            1 => EdgeTurn { dest: 8, source: 1, flip: 1 },
            2 => EdgeTurn { dest: 5, source: 8, flip: 1 },
            _ => EdgeTurn { dest: 9, source: 5, flip: 1 },
        },
        Move::Fp => match slot {
            0 => EdgeTurn { dest: 1, source: 8, flip: 1 },
            1 => EdgeTurn { dest: 8, source: 5, flip: 1 },
            2 => EdgeTurn { dest: 5, source: 9, flip: 1 },
            _ => EdgeTurn { dest: 9, source: 1, flip: 1 },
        },
        Move::F2 => match slot {
            0 => EdgeTurn { dest: 1, source: 5, flip: 0 },
            1 => EdgeTurn { dest: 8, source: 9, flip: 0 },
            2 => EdgeTurn { dest: 5, source: 1, flip: 0 },
            _ => EdgeTurn { dest: 9, source: 8, flip: 0 },
        },
        Move::R => match slot {
            0 => EdgeTurn { dest: 0, source: 8, flip: 0 },
            1 => EdgeTurn { dest: 11, source: 0, flip: 0 },
            2 => EdgeTurn { dest: 4, source: 11, flip: 0 },
            _ => EdgeTurn { dest: 8, source: 4, flip: 0 },
        },
        Move::Rp => match slot {
            0 => EdgeTurn { dest: 0, source: 11, flip: 0 },
            1 => EdgeTurn { dest: 11, source: 4, flip: 0 },
            2 => EdgeTurn { dest: 4, source: 8, flip: 0 },
            _ => EdgeTurn { dest: 8, source: 0, flip: 0 },
        },
        Move::R2 => match slot {
            0 => EdgeTurn { dest: 0, source: 4, flip: 0 },
            1 => EdgeTurn { dest: 11, source: 8, flip: 0 },
            2 => EdgeTurn { dest: 4, source: 0, flip: 0 },
            _ => EdgeTurn { dest: 8, source: 11, flip: 0 },
        },
        Move::B => match slot {
            0 => EdgeTurn { dest: 3, source: 11, flip: 1 },
            1 => EdgeTurn { dest: 10, source: 3, flip: 1 },
            2 => EdgeTurn { dest: 7, source: 10, flip: 1 },
            _ => EdgeTurn { dest: 11, source: 7, flip: 1 },
        },
        Move::Bp => match slot {
            0 => EdgeTurn { dest: 3, source: 10, flip: 1 },
            1 => EdgeTurn { dest: 10, source: 7, flip: 1 },
            2 => EdgeTurn { dest: 7, source: 11, flip: 1 },
            _ => EdgeTurn { dest: 11, source: 3, flip: 1 },
        },
        Move::B2 => match slot {
            0 => EdgeTurn { dest: 3, source: 7, flip: 0 },
            1 => EdgeTurn { dest: 10, source: 11, flip: 0 },
            2 => EdgeTurn { dest: 7, source: 3, flip: 0 },
            _ => EdgeTurn { dest: 11, source: 10, flip: 0 },
        },
        Move::L => match slot {
            0 => EdgeTurn { dest: 2, source: 10, flip: 0 },
            1 => EdgeTurn { dest: 9, source: 2, flip: 0 },
            2 => EdgeTurn { dest: 6, source: 9, flip: 0 },
            _ => EdgeTurn { dest: 10, source: 6, flip: 0 },
        },
        Move::Lp => match slot {
            0 => EdgeTurn { dest: 2, source: 9, flip: 0 },
            1 => EdgeTurn { dest: 9, source: 6, flip: 0 },
            2 => EdgeTurn { dest: 6, source: 10, flip: 0 },
            _ => EdgeTurn { dest: 10, source: 2, flip: 0 },
        },
        Move::L2 => match slot {
            0 => EdgeTurn { dest: 2, source: 6, flip: 0 },
            1 => EdgeTurn { dest: 9, source: 10, flip: 0 },
            2 => EdgeTurn { dest: 6, source: 2, flip: 0 },
            _ => EdgeTurn { dest: 10, source: 9, flip: 0 },
        },
        Move::D => match slot {
            0 => EdgeTurn { dest: 4, source: 5, flip: 0 },
            1 => EdgeTurn { dest: 7, source: 4, flip: 0 },
            2 => EdgeTurn { dest: 6, source: 7, flip: 0 },
            _ => EdgeTurn { dest: 5, source: 6, flip: 0 },
        },
        Move::Dp => match slot {
            0 => EdgeTurn { dest: 4, source: 7, flip: 0 },
            1 => EdgeTurn { dest: 7, source: 6, flip: 0 },
            2 => EdgeTurn { dest: 6, source: 5, flip: 0 },
            _ => EdgeTurn { dest: 5, source: 4, flip: 0 },
        },
        Move::D2 => match slot {
            0 => EdgeTurn { dest: 4, source: 6, flip: 0 },
            1 => EdgeTurn { dest: 7, source: 5, flip: 0 },
            2 => EdgeTurn { dest: 6, source: 4, flip: 0 },
            _ => EdgeTurn { dest: 5, source: 7, flip: 0 },
        },
    }
}

/// Turning no times changes nothing, and one more turn is a quarter turn of the result.
pub proof fn lemma_edges_turned_unfold(cs: Seq<EdgePiece3x3x3>, face: CubeFace, quarters: nat)
    ensures
        edges_turned(cs, face, 0) == cs,
        edges_turned(cs, face, quarters + 1) == edges_quarter_turned(
            edges_turned(cs, face, quarters),
            face,
        ),
{
    reveal_with_fuel(edges_turned, 2);
}

/// A quarter turn carries edges of the turned face to edges of the turned face.
pub proof fn lemma_edge_source_on_face(face: CubeFace, pos: int)
    requires
        0 <= pos < 12,
    ensures
        0 <= quarter_edge_source(face, pos) < 12,
        0 <= quarter_edge_flip(face, pos) < 2,
        edge_on_face(face, pos) ==> edge_on_face(face, quarter_edge_source(face, pos)),
        !edge_on_face(face, pos) ==> quarter_edge_source(face, pos) == pos && quarter_edge_flip(
            face,
            pos,
        ) == 0,
{
    reveal(quarter_edge_source);
    reveal(quarter_edge_flip);
    reveal(face_edge);
}

/// Flips add up modulo 2.
pub proof fn lemma_flip_twice(o: int, s: int, t: int)
    requires
        0 <= o,
        0 <= s,
        0 <= t,
    ensures
        ((o + s) % 2 + t) % 2 == (o + (s + t) % 2) % 2,
        ((o + s) % 2 + t) % 2 == (o + s + t) % 2,
{
}

/// The edge that a move leaves at `pos`, read off the composed table.
pub proof fn lemma_edge_after_move(cs: Seq<EdgePiece3x3x3>, mv: Move, pos: int)
    requires
        cs.len() == 12,
        0 <= pos < 12,
    ensures
        edges_moved(cs, mv).len() == 12,
        0 <= move_edge_source(mv, pos) < 12,
        0 <= move_edge_flip(mv, pos) < 2,
        edge_on_face(mv.spec_face(), pos) ==> edges_moved(cs, mv)[pos] == (EdgePiece3x3x3 {
            piece: cs[move_edge_source(mv, pos)].piece,
            orientation: ((cs[move_edge_source(mv, pos)].orientation + move_edge_flip(
                mv,
                pos,
            )) % 2) as u8,
        }),
        !edge_on_face(mv.spec_face(), pos) ==> edges_moved(cs, mv)[pos] == cs[pos],
{
    let face = mv.spec_face();
    let a = edges_turned(cs, face, 1);
    let b = edges_turned(cs, face, 2);
    let c = edges_turned(cs, face, 3);
    let once = quarter_edge_source(face, pos);
    let twice = quarter_edge_source(face, once);
    let thrice = quarter_edge_source(face, twice);
    let t0 = quarter_edge_flip(face, pos);
    let t1 = quarter_edge_flip(face, once);
    let t2 = quarter_edge_flip(face, twice);
    lemma_edges_turned_unfold(cs, face, 0);
    lemma_edges_turned_unfold(cs, face, 1);
    lemma_edges_turned_unfold(cs, face, 2);
    lemma_edge_source_on_face(face, pos);
    lemma_edge_source_on_face(face, once);
    lemma_edge_source_on_face(face, twice);
    assert(a.len() == 12 && b.len() == 12 && c.len() == 12);
    if edge_on_face(face, pos) {
        assert(a[pos].piece == cs[once].piece);
        assert(a[pos].orientation == (cs[once].orientation + t0) % 2);
        assert(a[once].piece == cs[twice].piece);
        assert(a[once].orientation == (cs[twice].orientation + t1) % 2);
        assert(a[twice].piece == cs[thrice].piece);
        assert(a[twice].orientation == (cs[thrice].orientation + t2) % 2);
        assert(b[pos].piece == a[once].piece);
        assert(b[pos].orientation == (a[once].orientation + t0) % 2);
        assert(b[once].piece == a[twice].piece);
        assert(b[once].orientation == (a[twice].orientation + t1) % 2);
        assert(c[pos].piece == b[once].piece);
        assert(c[pos].orientation == (b[once].orientation + t0) % 2);
        lemma_flip_twice(cs[twice].orientation as int, t1, t0);
        lemma_flip_twice(cs[thrice].orientation as int, t2, t1);
        lemma_flip_twice(cs[thrice].orientation as int + t2, t1, t0);
        lemma_flip_twice(cs[thrice].orientation as int, t2 + t1, t0);
        lemma_flip_twice(cs[thrice].orientation as int, (t0 + t1 + t2) % 2, 0);
        lemma_flip_twice(cs[thrice].orientation as int, t0 + t1 + t2, 0);
    } else {
        assert(a[pos] == cs[pos]);
        assert(b[pos] == a[pos]);
        assert(c[pos] == b[pos]);
    }
}

/// Applies a move to an array of edges.
pub fn turn_edges(edges: &mut [EdgePiece3x3x3; 12], mv: Move)
    ensures
        final(edges)@ == edges_moved(old(edges)@, mv),
{
    let before = *edges;
    let ghost face = mv.spec_face();
    let ghost after = edges_moved(before@, mv);
    let ghost f0 = face_edge(face, 0);
    let ghost f1 = face_edge(face, 1);
    let ghost f2 = face_edge(face, 2);
    let ghost f3 = face_edge(face, 3);
    proof {
        lemma_face_edges(face);
        assert(0 <= f0 < 12 && 0 <= f1 < 12 && 0 <= f2 < 12 && 0 <= f3 < 12);
        assert(f0 != f1 && f0 != f2 && f0 != f3 && f1 != f2 && f1 != f3 && f2 != f3);
    }
    let mut slot: usize = 0;
    while slot < 4
        invariant
            slot <= 4,
            face == mv.spec_face(),
            after == edges_moved(before@, mv),
            f0 == face_edge(face, 0),
            f1 == face_edge(face, 1),
            f2 == face_edge(face, 2),
            f3 == face_edge(face, 3),
            0 <= f0 < 12 && 0 <= f1 < 12 && 0 <= f2 < 12 && 0 <= f3 < 12,
            f0 != f1 && f0 != f2 && f0 != f3 && f1 != f2 && f1 != f3 && f2 != f3,
            forall|p: int|
                0 <= p < 12 && p != f0 && p != f1 && p != f2 && p != f3 ==> edges@[p]
                    == before@[p],
            slot > 0 ==> edges@[f0] == after[f0],
            slot > 1 ==> edges@[f1] == after[f1],
            slot > 2 ==> edges@[f2] == after[f2],
            slot > 3 ==> edges@[f3] == after[f3],
        decreases 4 - slot,
    {
        let turn = edge_turn(mv, slot);
        let from = before[turn.source];
        proof {
            lemma_edge_after_move(before@, mv, turn.dest as int);
            lemma_flip_twice(0, from.orientation as int, turn.flip as int);
        }
        edges[turn.dest] = EdgePiece3x3x3 {
            piece: from.piece,
            orientation: (from.orientation % 2 + turn.flip) % 2,
        };
        slot += 1;
    }
    proof {
        assert forall|p: int| 0 <= p < 12 implies edges@[p] == after[p] by {
            lemma_edge_after_move(before@, mv, p);
        }
        assert(edges@ =~= after);
    }
}

/// Four quarter turns bring every position back to itself, and the flips met on
/// the way add up to an even number.
pub proof fn lemma_edge_quarter_cycle(face: CubeFace, pos: int)
    requires
        0 <= pos < 12,
    ensures
        quarter_edge_source(
            face,
            quarter_edge_source(face, quarter_edge_source(face, quarter_edge_source(face, pos))),
        ) == pos,
        (quarter_edge_flip(face, pos) + quarter_edge_flip(
            face,
            quarter_edge_source(face, pos),
        ) + quarter_edge_flip(face, quarter_edge_source(face, quarter_edge_source(face, pos)))
            + quarter_edge_flip(
            face,
            quarter_edge_source(face, quarter_edge_source(face, quarter_edge_source(face, pos))),
        )) % 2 == 0,
{
    reveal(quarter_edge_source);
    reveal(quarter_edge_flip);
}

/// The positions around a face and away from it are the twelve positions, each once,
/// and a clockwise quarter turn hands each edge of the face to the next slot.
pub proof fn lemma_face_edges(face: CubeFace)
    ensures
        forall|s: int| 0 <= s < 4 ==> 0 <= #[trigger] face_edge(face, s) < 12,
        forall|s: int, t: int|
            0 <= s < t < 4 ==> #[trigger] face_edge(face, s) != #[trigger] face_edge(face, t),
        forall|s: int| 0 <= s < 8 ==> 0 <= #[trigger] far_edge(face, s) < 12,
        forall|s: int| 0 <= s < 8 ==> !edge_on_face(face, #[trigger] far_edge(face, s)),
        forall|s: int|
            0 <= s < 4 ==> quarter_edge_source(face, #[trigger] face_edge(face, s))
                == face_edge(face, (s + 3) % 4),
        (quarter_edge_flip(face, face_edge(face, 0)) + quarter_edge_flip(
            face,
            face_edge(face, 1),
        ) + quarter_edge_flip(face, face_edge(face, 2)) + quarter_edge_flip(
            face,
            face_edge(face, 3),
        )) % 2 == 0,
        forall|cs: Seq<EdgePiece3x3x3>| #[trigger]
            edge_flip_sum(cs) == cs[face_edge(face, 0)].orientation + cs[face_edge(
                face,
                1,
            )].orientation + cs[face_edge(face, 2)].orientation + cs[face_edge(
                face,
                3,
            )].orientation + far_flip_sum(cs, face),
{
    reveal(quarter_edge_source);
    reveal(quarter_edge_flip);
    reveal(face_edge);
    reveal(far_edge);
}

/// A quarter turn keeps twelve edges with flips of 0 or 1.
pub proof fn lemma_edges_quarter_turn_wf(cs: Seq<EdgePiece3x3x3>, face: CubeFace)
    requires
        edges_wf(cs),
    ensures
        edges_wf(edges_quarter_turned(cs, face)),
{
    let after = edges_quarter_turned(cs, face);
    assert forall|i: int| 0 <= i < 12 implies (#[trigger] after[i]).orientation < 2 by {
        lemma_edge_source_on_face(face, i);
    }
}

/// Any number of quarter turns keeps twelve edges with flips of 0 or 1.
pub proof fn lemma_edges_turned_wf(cs: Seq<EdgePiece3x3x3>, face: CubeFace, quarters: nat)
    requires
        edges_wf(cs),
    ensures
        edges_wf(edges_turned(cs, face, quarters)),
    decreases quarters,
{
    if quarters > 0 {
        lemma_edges_turned_wf(cs, face, (quarters - 1) as nat);
        lemma_edges_turned_unfold(cs, face, (quarters - 1) as nat);
        lemma_edges_quarter_turn_wf(edges_turned(cs, face, (quarters - 1) as nat), face);
    }
}

/// Adding an even number to a flip of 0 or 1 and reducing gives the flip back.
proof fn lemma_flip_full_circle(o: int, t: int)
    requires
        0 <= o < 2,
        0 <= t,
        t % 2 == 0,
    ensures
        (o + t) % 2 == o,
{
}

/// The edge that a clockwise quarter turn leaves at `pos`.
pub proof fn lemma_edge_quarter_turned_at(cs: Seq<EdgePiece3x3x3>, face: CubeFace, pos: int)
    requires
        cs.len() == 12,
        0 <= pos < 12,
    ensures
        edges_quarter_turned(cs, face).len() == 12,
        edge_on_face(face, pos) ==> edges_quarter_turned(cs, face)[pos].piece
            == cs[quarter_edge_source(face, pos)].piece,
        edge_on_face(face, pos) ==> edges_quarter_turned(cs, face)[pos].orientation == (
        cs[quarter_edge_source(face, pos)].orientation + quarter_edge_flip(face, pos)) % 2,
        !edge_on_face(face, pos) ==> edges_quarter_turned(cs, face)[pos] == cs[pos],
{
    lemma_edge_source_on_face(face, pos);
}

/// Four clockwise quarter turns of one face restore the edge at `pos`.
proof fn lemma_edge_four_quarter_turns_at(cs: Seq<EdgePiece3x3x3>, face: CubeFace, pos: int)
    requires
        edges_wf(cs),
        0 <= pos < 12,
    ensures
        edges_turned(cs, face, 4).len() == 12,
        edges_turned(cs, face, 4)[pos] == cs[pos],
{
    let a = edges_turned(cs, face, 1);
    let b = edges_turned(cs, face, 2);
    let c = edges_turned(cs, face, 3);
    let d = edges_turned(cs, face, 4);
    lemma_edges_turned_unfold(cs, face, 0);
    lemma_edges_turned_unfold(cs, face, 1);
    lemma_edges_turned_unfold(cs, face, 2);
    lemma_edges_turned_unfold(cs, face, 3);
    let p1 = quarter_edge_source(face, pos);
    let p2 = quarter_edge_source(face, p1);
    let p3 = quarter_edge_source(face, p2);
    let t0 = quarter_edge_flip(face, pos);
    let t1 = quarter_edge_flip(face, p1);
    let t2 = quarter_edge_flip(face, p2);
    let t3 = quarter_edge_flip(face, p3);
    lemma_edge_source_on_face(face, pos);
    lemma_edge_source_on_face(face, p1);
    lemma_edge_source_on_face(face, p2);
    lemma_edge_source_on_face(face, p3);
    lemma_edge_quarter_cycle(face, pos);
    lemma_edge_quarter_turned_at(cs, face, p3);
    lemma_edge_quarter_turned_at(a, face, p2);
    lemma_edge_quarter_turned_at(b, face, p1);
    lemma_edge_quarter_turned_at(c, face, pos);
    if edge_on_face(face, pos) {
        let o = cs[pos].orientation as int;
        assert(a[p3].orientation == (o + t3) % 2);
        assert(b[p2].orientation == (a[p3].orientation + t2) % 2);
        assert(c[p1].orientation == (b[p2].orientation + t1) % 2);
        assert(d[pos].orientation == (c[p1].orientation + t0) % 2);
        lemma_flip_twice(o, t3, t2);
        lemma_flip_twice(o + t3, t2, t1);
        lemma_flip_twice(o + t3 + t2, t1, t0);
        lemma_flip_full_circle(o, t3 + t2 + t1 + t0);
        assert(d[pos].orientation == cs[pos].orientation);
        assert(d[pos].piece == cs[pos].piece);
    }
}

/// Four clockwise quarter turns of one face restore the edges.
pub proof fn lemma_edges_four_quarter_turns(cs: Seq<EdgePiece3x3x3>, face: CubeFace)
    requires
        edges_wf(cs),
    ensures
        edges_turned(cs, face, 4) == cs,
{
    let d = edges_turned(cs, face, 4);
    assert forall|pos: int| 0 <= pos < 12 implies d[pos] == cs[pos] by {
        lemma_edge_four_quarter_turns_at(cs, face, pos);
    }
    lemma_edge_four_quarter_turns_at(cs, face, 0);
    assert(d =~= cs);
}

/// Turning `a` times and then `b` times is turning `a + b` times.
pub proof fn lemma_edges_turned_add(cs: Seq<EdgePiece3x3x3>, face: CubeFace, a: nat, b: nat)
    ensures
        edges_turned(edges_turned(cs, face, a), face, b) == edges_turned(cs, face, a + b),
    decreases b,
{
    if b == 0 {
        lemma_edges_turned_unfold(edges_turned(cs, face, a), face, 0);
    } else {
        lemma_edges_turned_add(cs, face, a, (b - 1) as nat);
        lemma_edges_turned_unfold(edges_turned(cs, face, a), face, (b - 1) as nat);
        lemma_edges_turned_unfold(cs, face, (a + b - 1) as nat);
    }
}

/// A move followed by its inverse restores the edges.
pub proof fn lemma_edges_move_inverse(cs: Seq<EdgePiece3x3x3>, mv: Move)
    requires
        edges_wf(cs),
    ensures
        edges_moved(edges_moved(cs, mv), mv.spec_inverse()) == cs,
{
    lemma_edges_turned_add(cs, mv.spec_face(), mv.quarter_turns(), mv.spec_inverse().quarter_turns());
    lemma_edges_four_quarter_turns(cs, mv.spec_face());
}

/// A quarter turn keeps what holds of the edges of every reachable state.
pub proof fn lemma_edges_quarter_turn_valid(cs: Seq<EdgePiece3x3x3>, face: CubeFace)
    requires
        edges_valid(cs),
    ensures
        edges_valid(edges_quarter_turned(cs, face)),
{
    let after = edges_quarter_turned(cs, face);
    lemma_edges_quarter_turn_wf(cs, face);
    assert forall|i: int| 0 <= i < 12 implies 0 <= quarter_edge_source(face, i) < 12 && (edge_on_face(
        face,
        i,
    ) ==> (#[trigger] after[i]).orientation == (cs[quarter_edge_source(face, i)].orientation
        + quarter_edge_flip(face, i)) % 2) && (!edge_on_face(face, i) ==> after[i] == cs[i]) by {
        lemma_edge_source_on_face(face, i);
    }
    assert(edge_flip_sum(after) % 2 == 0) by {
        lemma_flip_sum_turned(cs, after, face);
    }
    assert forall|i: int, j: int| 0 <= i < j < 12 implies (#[trigger] after[i]).piece != (
    #[trigger] after[j]).piece by {
        lemma_edge_source_on_face(face, i);
        lemma_edge_source_on_face(face, j);
        let si = quarter_edge_source(face, i);
        let sj = quarter_edge_source(face, j);
        lemma_edge_quarter_cycle(face, i);
        lemma_edge_quarter_cycle(face, j);
        assert(si != sj);
        assert(after[i].piece == cs[si].piece);
        assert(after[j].piece == cs[sj].piece);
        if si < sj {
            assert(cs[si].piece != cs[sj].piece);
        } else {
            assert(cs[sj].piece != cs[si].piece);
        }
    }
    assert forall|c: Edge3x3x3| #[trigger] edge_present(after, c) by {
        assert(edge_present(cs, c));
        let i = choose|i: int| holds_edge(cs, i, c);
        let p1 = quarter_edge_source(face, i);
        let p2 = quarter_edge_source(face, p1);
        let p3 = quarter_edge_source(face, p2);
        lemma_edge_source_on_face(face, i);
        lemma_edge_source_on_face(face, p1);
        lemma_edge_source_on_face(face, p2);
        lemma_edge_source_on_face(face, p3);
        lemma_edge_quarter_cycle(face, i);
        assert(after[p3].piece == cs[i].piece);
        assert(holds_edge(after, p3, c));
    }
}

/// Four flips that add up to an even number leave a sum's remainder as it was.
proof fn lemma_sum_of_flipped(
    x0: int,
    x1: int,
    x2: int,
    x3: int,
    t0: int,
    t1: int,
    t2: int,
    t3: int,
    rest: int,
)
    requires
        x0 >= 0 && x1 >= 0 && x2 >= 0 && x3 >= 0 && rest >= 0,
        t0 >= 0 && t1 >= 0 && t2 >= 0 && t3 >= 0,
        (t0 + t1 + t2 + t3) % 2 == 0,
    ensures
        ((x0 + t0) % 2 + (x1 + t1) % 2 + (x2 + t2) % 2 + (x3 + t3) % 2 + rest) % 2 == (x0 + x1
            + x2 + x3 + rest) % 2,
{
}

/// The flip sum stays even when every edge of the turned face takes
/// the flip of its source plus the table's flip.
proof fn lemma_flip_sum_turned(cs: Seq<EdgePiece3x3x3>, after: Seq<EdgePiece3x3x3>, face: CubeFace)
    requires
        edges_wf(cs),
        after.len() == 12,
        edge_flip_sum(cs) % 2 == 0,
        forall|i: int|
            0 <= i < 12 ==> (edge_on_face(face, i) ==> (#[trigger] after[i]).orientation == (
            cs[quarter_edge_source(face, i)].orientation + quarter_edge_flip(face, i)) % 2)
                && (!edge_on_face(face, i) ==> after[i] == cs[i]),
    ensures
        edge_flip_sum(after) % 2 == 0,
{
    lemma_face_edges(face);
    let f0 = face_edge(face, 0);
    let f1 = face_edge(face, 1);
    let f2 = face_edge(face, 2);
    let f3 = face_edge(face, 3);
    let g0 = far_edge(face, 0);
    let g1 = far_edge(face, 1);
    let g2 = far_edge(face, 2);
    let g3 = far_edge(face, 3);
    let g4 = far_edge(face, 4);
    let g5 = far_edge(face, 5);
    let g6 = far_edge(face, 6);
    let g7 = far_edge(face, 7);
    lemma_edge_source_on_face(face, f0);
    lemma_edge_source_on_face(face, f1);
    lemma_edge_source_on_face(face, f2);
    lemma_edge_source_on_face(face, f3);
    assert(after[f0].orientation == (cs[f3].orientation + quarter_edge_flip(face, f0)) % 2);
    assert(after[f1].orientation == (cs[f0].orientation + quarter_edge_flip(face, f1)) % 2);
    assert(after[f2].orientation == (cs[f1].orientation + quarter_edge_flip(face, f2)) % 2);
    assert(after[f3].orientation == (cs[f2].orientation + quarter_edge_flip(face, f3)) % 2);
    assert(after[g0] == cs[g0] && after[g1] == cs[g1] && after[g2] == cs[g2] && after[g3]
        == cs[g3]);
    assert(after[g4] == cs[g4] && after[g5] == cs[g5] && after[g6] == cs[g6] && after[g7]
        == cs[g7]);
    let rest = far_flip_sum(cs, face);
    assert(far_flip_sum(after, face) == rest);
    lemma_sum_of_flipped(
        cs[f3].orientation as int,
        cs[f0].orientation as int,
        cs[f1].orientation as int,
        cs[f2].orientation as int,
        quarter_edge_flip(face, f0),
        quarter_edge_flip(face, f1),
        quarter_edge_flip(face, f2),
        quarter_edge_flip(face, f3),
        rest,
    );
    assert(edge_flip_sum(after) == after[f0].orientation + after[f1].orientation
        + after[f2].orientation + after[f3].orientation + rest);
    assert(edge_flip_sum(cs) == cs[f3].orientation + cs[f0].orientation + cs[f1].orientation
        + cs[f2].orientation + rest);
}

/// Any number of quarter turns keeps what holds of the edges of every reachable state.
pub proof fn lemma_edges_turned_valid(cs: Seq<EdgePiece3x3x3>, face: CubeFace, quarters: nat)
    requires
        edges_valid(cs),
    ensures
        edges_valid(edges_turned(cs, face, quarters)),
    decreases quarters,
{
    if quarters > 0 {
        lemma_edges_turned_valid(cs, face, (quarters - 1) as nat);
        lemma_edges_turned_unfold(cs, face, (quarters - 1) as nat);
        lemma_edges_quarter_turn_valid(edges_turned(cs, face, (quarters - 1) as nat), face);
    }
}

/// The solved edges are a valid arrangement.
pub proof fn lemma_solved_edges_valid()
    ensures
        edges_valid(solved_edges()),
{
    let cs = solved_edges();
    assert forall|c: Edge3x3x3| #[trigger] edge_present(cs, c) by {
        assert(holds_edge(cs, c.spec_index(), c));
    }
}

/// Every sequence of moves keeps what holds of the edges of every reachable state.
pub proof fn lemma_edges_after_valid(cs: Seq<EdgePiece3x3x3>, moves: Seq<Move>)
    requires
        edges_valid(cs),
    ensures
        edges_valid(edges_after(cs, moves)),
    decreases moves.len(),
{
    if moves.len() > 0 {
        lemma_edges_after_valid(cs, moves.drop_last());
        lemma_edges_turned_valid(
            edges_after(cs, moves.drop_last()),
            moves.last().spec_face(),
            moves.last().quarter_turns(),
        );
    }
}

/// The flips of the first eleven edges. The flip of the twelfth follows from them.
pub open spec fn edge_flips(es: Seq<EdgePiece3x3x3>) -> Seq<int> {
    Seq::new(11, |i: int| es[i].orientation as int)
}

/// The home positions of the edges at the eight positions of the top and bottom layer.
pub open spec fn outer_edge_ids(es: Seq<EdgePiece3x3x3>) -> Seq<int> {
    Seq::new(8, |i: int| es[i].piece.spec_index())
}

/// The home positions of the edges at the four positions of the equatorial slice.
pub open spec fn slice_edge_ids(es: Seq<EdgePiece3x3x3>) -> Seq<int> {
    Seq::new(4, |i: int| es[i + 8].piece.spec_index())
}

/// The flips of the first eleven edges read as a number in base 2.
pub open spec fn edge_orientation_index(es: Seq<EdgePiece3x3x3>) -> int {
    positional_value(edge_flips(es), 2)
}

/// Rank of the arrangement of the edges of the top and bottom layer.
pub open spec fn phase_2_edge_permutation_index(es: Seq<EdgePiece3x3x3>) -> int {
    permutation_rank(outer_edge_ids(es))
}

/// Rank of the arrangement of the edges in the equatorial slice.
pub open spec fn phase_2_equatorial_edge_permutation_index(es: Seq<EdgePiece3x3x3>) -> int {
    permutation_rank(slice_edge_ids(es))
}

/// The edge position that slice coordinate `i` stands for. The coordinates are
/// chosen so that the four positions of the equatorial slice come first.
pub open spec fn slice_coordinate(i: int) -> int {
    (i + 8) % 12
}

/// Whether the edge at slice coordinate `i` belongs to the equatorial slice.
pub open spec fn equatorial_at(es: Seq<EdgePiece3x3x3>, i: int) -> bool {
    es[slice_coordinate(i)].piece.spec_is_equatorial()
}

/// Number of equatorial edges at the slice coordinates from `i` on.
pub open spec fn equatorial_count(es: Seq<EdgePiece3x3x3>, i: int) -> int
    decreases 12 - i,
{
    if i >= 12 {
        0
    } else {
        equatorial_count(es, i + 1) + if equatorial_at(es, i) {
            1int
        } else {
            0int
        }
    }
}

/// Rank, in the combinatorial number system, of the slice coordinates from `i` on
/// that hold equatorial edges, when `found` such coordinates lie before `i`: the
/// coordinate `c` that comes `k`-th in ascending order, counted from 1, adds the
/// number of ways to choose `k` out of `c`.
pub open spec fn slice_rank_from(es: Seq<EdgePiece3x3x3>, i: int, found: nat) -> int
    decreases 12 - i,
{
    if i >= 12 {
        0
    } else if equatorial_at(es, i) {
        binomial(i as nat, found + 1) + slice_rank_from(es, i + 1, found + 1)
    } else {
        slice_rank_from(es, i + 1, found)
    }
}

/// Rank of the set of positions that hold the four equatorial edges.
pub open spec fn equatorial_edge_slice_index(es: Seq<EdgePiece3x3x3>) -> int {
    slice_rank_from(es, 0, 0)
}

/// Largest rank that `found` coordinates can have reached when the rest of the four
/// is still to come.
pub open spec fn slice_rank_limit(found: int) -> int {
    if found <= 0 {
        0
    } else if found == 1 {
        8
    } else if found == 2 {
        44
    } else if found == 3 {
        164
    } else {
        494
    }
}

/// From one binomial coefficient to the next by the multiplicative rule.
proof fn lemma_binomial_next(n: nat, k: nat, current: int, next: int)
    requires
        binomial(n, k) == current,
        current * (n - k) == next * (k + 1),
    ensures
        binomial(n, k + 1) == next,
{
    lemma_binomial_step(n, k);
    let b = binomial(n, k + 1) as int;
    assert(b == next) by (nonlinear_arith)
        requires
            current * (n - k) == next * (k + 1),
            current * (n - k) == b * (k + 1),
            k + 1 > 0,
    ;
}

/// The binomial coefficients that bound the slice rank.
pub proof fn lemma_slice_binomials()
    ensures
        binomial(8, 1) == 8,
        binomial(9, 2) == 36,
        binomial(10, 3) == 120,
        binomial(11, 4) == 330,
{
    assert(binomial(8, 0) == 1 && binomial(9, 0) == 1 && binomial(10, 0) == 1 && binomial(11, 0)
        == 1);
    lemma_binomial_next(8, 0, 1, 8);
    lemma_binomial_next(9, 0, 1, 9);
    lemma_binomial_next(9, 1, 9, 36);
    lemma_binomial_next(10, 0, 1, 10);
    lemma_binomial_next(10, 1, 10, 45);
    lemma_binomial_next(10, 2, 45, 120);
    lemma_binomial_next(11, 0, 1, 11);
    lemma_binomial_next(11, 1, 11, 55);
    lemma_binomial_next(11, 2, 55, 165);
    lemma_binomial_next(11, 3, 165, 330);
}

/// There are at most as many equatorial edges from a coordinate on as coordinates.
pub proof fn lemma_equatorial_count_bound(es: Seq<EdgePiece3x3x3>, i: int)
    requires
        0 <= i <= 12,
    ensures
        0 <= equatorial_count(es, i) <= 12 - i,
    decreases 12 - i,
{
    if i < 12 {
        lemma_equatorial_count_bound(es, i + 1);
    }
}

/// Computes the orientation index of an array of edges.
pub fn edges_orientation_index(edges: &[EdgePiece3x3x3; 12]) -> (r: u16)
    requires
        forall|i: int| 0 <= i < 11 ==> (#[trigger] edges@[i]).orientation < 2,
    ensures
        r == edge_orientation_index(edges@),
        r < 2048,
{
    let mut digits: [u8; 11] = [0u8; 11];
    let mut i: usize = 0;
    while i < 11
        invariant
            i <= 11,
            forall|k: int| 0 <= k < i ==> digits@[k] == edges@[k].orientation,
        decreases 11 - i,
    {
        digits[i] = edges[i].orientation;
        i += 1;
    }
    proof {
        assert(power(2, 11) == 2048) by {
            reveal_with_fuel(power, 12);
        }
        assert(digits@.map_values(|x: u8| x as int) =~= edge_flips(edges@));
    }
    positional_index(digits.as_slice(), 2)
}

/// Computes the permutation index of the edges at the eight positions of the top
/// and bottom layer.
pub fn edges_phase_2_permutation_index(edges: &[EdgePiece3x3x3; 12]) -> (r: u16)
    ensures
        r == phase_2_edge_permutation_index(edges@),
        r < 40320,
{
    let mut ids: [u8; 8] = [0u8; 8];
    let mut i: usize = 0;
    while i < 8
        invariant
            i <= 8,
            forall|k: int| 0 <= k < i ==> ids@[k] as int == edges@[k].piece.spec_index(),
        decreases 8 - i,
    {
        ids[i] = edges[i].piece.index() as u8;
        i += 1;
    }
    proof {
        lemma_small_factorials();
        assert(ids@.map_values(|x: u8| x as int) =~= outer_edge_ids(edges@));
    }
    permutation_index(ids.as_slice())
}

/// Computes the permutation index of the edges at the four positions of the
/// equatorial slice.
pub fn edges_phase_2_equatorial_permutation_index(edges: &[EdgePiece3x3x3; 12]) -> (r: u16)
    ensures
        r == phase_2_equatorial_edge_permutation_index(edges@),
        r < 24,
{
    let mut ids: [u8; 4] = [0u8; 4];
    let mut i: usize = 0;
    while i < 4
        invariant
            i <= 4,
            forall|k: int| 0 <= k < i ==> ids@[k] as int == edges@[k + 8].piece.spec_index(),
        decreases 4 - i,
    {
        ids[i] = edges[i + 8].piece.index() as u8;
        i += 1;
    }
    proof {
        lemma_small_factorials();
        assert(ids@.map_values(|x: u8| x as int) =~= slice_edge_ids(edges@));
    }
    permutation_index(ids.as_slice())
}

/// Number of ways to choose `k` things out of `n`, which are at most 12.
fn ways_to_choose(n: usize, k: usize) -> (r: usize)
    requires
        n <= 12,
    ensures
        r == binomial(n as nat, k as nat),
{
    proof {
        lemma_small_product(n as nat, k as nat);
    }
    n_choose_k(n, k)
}

/// Computes the rank of the set of positions that hold the equatorial edges.
pub fn edges_equatorial_slice_index(edges: &[EdgePiece3x3x3; 12]) -> (r: u16)
    requires
        equatorial_count(edges@, 0) == 4,
    ensures
        r == equatorial_edge_slice_index(edges@),
        r < 495,
{
    let mut result: u16 = 0;
    let mut found: usize = 0;
    let mut i: usize = 0;
    while i < 12
        invariant
            i <= 12,
            found <= 4,
            found + equatorial_count(edges@, i as int) == 4,
            result <= slice_rank_limit(found as int),
            result + slice_rank_from(edges@, i as int, found as nat) == slice_rank_from(
                edges@,
                0,
                0,
            ),
        decreases 12 - i,
    {
        if edges[(i + 8) % 12].piece.is_equatorial() {
            proof {
                lemma_equatorial_count_bound(edges@, i + 1);
                lemma_slice_binomials();
                crate::rank::lemma_binomial_grows(i as nat, (8 + found) as nat, (found + 1) as nat);
            }
            let ways = ways_to_choose(i, found + 1);
            result = result + ways as u16;
            found += 1;
        }
        i += 1;
    }
    result
}

/// Whether an array of edges is the solved arrangement.
pub fn edges_solved(edges: &[EdgePiece3x3x3; 12]) -> (r: bool)
    ensures
        r == (edges@ == solved_edges()),
{
    let mut i: usize = 0;
    while i < 12
        invariant
            i <= 12,
            forall|k: int| 0 <= k < i ==> edges@[k] == solved_edges()[k],
        decreases 12 - i,
    {
        let piece = edges[i];
        if piece.piece.index() != i || piece.orientation != 0 {
            assert(edges@[i as int] != solved_edges()[i as int]);
            return false;
        }
        i += 1;
    }
    assert(edges@ =~= solved_edges());
    true
}

/// The edges of a solved cube.
pub fn new_edges() -> (r: [EdgePiece3x3x3; 12])
    ensures
        r@ == solved_edges(),
{
    let r = [
        EdgePiece3x3x3 { piece: Edge3x3x3::UR, orientation: 0 },
        EdgePiece3x3x3 { piece: Edge3x3x3::UF, orientation: 0 },
        EdgePiece3x3x3 { piece: Edge3x3x3::UL, orientation: 0 },
        EdgePiece3x3x3 { piece: Edge3x3x3::UB, orientation: 0 },
        EdgePiece3x3x3 { piece: Edge3x3x3::DR, orientation: 0 },
        EdgePiece3x3x3 { piece: Edge3x3x3::DF, orientation: 0 },
        EdgePiece3x3x3 { piece: Edge3x3x3::DL, orientation: 0 },
        EdgePiece3x3x3 { piece: Edge3x3x3::DB, orientation: 0 },
        EdgePiece3x3x3 { piece: Edge3x3x3::FR, orientation: 0 },
        EdgePiece3x3x3 { piece: Edge3x3x3::FL, orientation: 0 },
        EdgePiece3x3x3 { piece: Edge3x3x3::BL, orientation: 0 },
        EdgePiece3x3x3 { piece: Edge3x3x3::BR, orientation: 0 },
    ];
    assert(r@ =~= solved_edges());
    r
}

/// The edges with the pieces at positions `a` and `b` exchanged.
pub open spec fn edges_swapped(cs: Seq<EdgePiece3x3x3>, a: int, b: int) -> Seq<EdgePiece3x3x3> {
    cs.update(a, cs[b]).update(b, cs[a])
}

/// Exchanging two pieces keeps every edge at exactly one position.
pub proof fn lemma_edge_swap_bijective(cs: Seq<EdgePiece3x3x3>, a: int, b: int)
    requires
        cs.len() == 12,
        0 <= a < 12,
        0 <= b < 12,
        edges_bijective(cs),
    ensures
        edges_bijective(edges_swapped(cs, a, b)),
{
    let after = edges_swapped(cs, a, b);
    assert forall|i: int, j: int| 0 <= i < j < 12 implies (#[trigger] after[i]).piece != (
    #[trigger] after[j]).piece by {
        let si = if i == a {
            b
        } else if i == b {
            a
        } else {
            i
        };
        let sj = if j == a {
            b
        } else if j == b {
            a
        } else {
            j
        };
        assert(after[i] == cs[si] && after[j] == cs[sj]);
        if si < sj {
            assert(cs[si].piece != cs[sj].piece);
        } else {
            assert(cs[sj].piece != cs[si].piece);
        }
    }
    assert forall|c: Edge3x3x3| #[trigger] edge_present(after, c) by {
        assert(edge_present(cs, c));
        let i = choose|i: int| holds_edge(cs, i, c);
        let j = if i == a {
            b
        } else if i == b {
            a
        } else {
            i
        };
        assert(after[j] == cs[i]);
        assert(holds_edge(after, j, c));
    }
}

/// Changing flips keeps every edge at exactly one position.
pub proof fn lemma_edge_pieces_bijective(cs: Seq<EdgePiece3x3x3>, after: Seq<EdgePiece3x3x3>)
    requires
        cs.len() == 12,
        after.len() == 12,
        edges_bijective(cs),
        forall|i: int| 0 <= i < 12 ==> (#[trigger] after[i]).piece == cs[i].piece,
    ensures
        edges_bijective(after),
{
    assert forall|i: int, j: int| 0 <= i < j < 12 implies (#[trigger] after[i]).piece != (
    #[trigger] after[j]).piece by {
        assert(cs[i].piece != cs[j].piece);
    }
    assert forall|c: Edge3x3x3| #[trigger] edge_present(after, c) by {
        assert(edge_present(cs, c));
        let i = choose|i: int| holds_edge(cs, i, c);
        assert(holds_edge(after, i, c));
    }
}

/// Exchanges the pieces at two positions.
pub fn swap_edges(edges: &mut [EdgePiece3x3x3; 12], a: usize, b: usize)
    requires
        a < 12,
        b < 12,
    ensures
        final(edges)@ == edges_swapped(old(edges)@, a as int, b as int),
{
    let first = edges[a];
    let second = edges[b];
    edges[a] = second;
    edges[b] = first;
    assert(edges@ =~= edges_swapped(old(edges)@, a as int, b as int));
}

/// The edges after the first `n` exchanges that were drawn: the edge at the place
/// of an exchange changes places with the edge at the place drawn for it, unless
/// that is the same place, and the last two edges change places with it, so that
/// pieces are exchanged two pairs at a time.
pub open spec fn edges_shuffled(cs: Seq<EdgePiece3x3x3>, places: Seq<u32>, n: nat) -> Seq<EdgePiece3x3x3>
    decreases n,
{
    if n == 0 {
        cs
    } else {
        let before = edges_shuffled(cs, places, (n - 1) as nat);
        if places[n - 1] != n - 1 {
            edges_swapped(edges_swapped(before, n - 1, places[n - 1] as int), 10, 11)
        } else {
            before
        }
    }
}

/// The edges with the flips that were drawn: the first eleven have their flips, and
/// the flip of the last makes the sum of the flips even.
pub open spec fn edges_fliped(cs: Seq<EdgePiece3x3x3>, flips: Seq<u32>) -> Seq<EdgePiece3x3x3> {
    Seq::new(
        12,
        |k: int|
            EdgePiece3x3x3 {
                piece: cs[k].piece,
                orientation: if k < 11 {
                    flips[k] as u8
                } else {
                    (drawn_sum(flips, 11) % 2) as u8
                },
            },
    )
}

/// The arrangement of the edges that numbers drawn lead to: the solved edges,
/// exchanged as the places drawn say, with the flips drawn.
pub open spec fn edges_drawn(places: Seq<u32>, flips: Seq<u32>) -> Seq<EdgePiece3x3x3> {
    edges_fliped(edges_shuffled(solved_edges(), places, 11), flips)
}

/// Builds the arrangement of the edges that numbers drawn lead to. It is one that
/// has what every reachable arrangement has.
pub fn edges_from_draws(places: &Vec<u32>, flips: &Vec<u32>) -> (r: [EdgePiece3x3x3; 12])
    requires
        draws_below(places@, 11, 12),
        draws_below(flips@, 11, 2),
    ensures
        r@ == edges_drawn(places@, flips@),
        edges_valid(r@),
{
    let mut edges = new_edges();
    proof {
        lemma_solved_edges_valid();
    }
    let mut i: usize = 0;
    while i < 11
        invariant
            i <= 11,
            draws_below(places@, 11, 12),
            edges_bijective(edges@),
            forall|k: int| 0 <= k < 12 ==> (#[trigger] edges@[k]).orientation == 0,
            edges@ == edges_shuffled(solved_edges(), places@, i as nat),
        decreases 11 - i,
    {
        let n = places[i] as usize;
        if i != n {
            proof {
                lemma_edge_swap_bijective(edges@, i as int, n as int);
                lemma_edge_swap_bijective(edges_swapped(edges@, i as int, n as int), 10, 11);
            }
            swap_edges(&mut edges, i, n);
            swap_edges(&mut edges, 10, 11);
        }
        i += 1;
    }
    let ghost placed = edges@;
    let mut sum: u8 = 0;
    let mut i: usize = 0;
    while i < 11
        invariant
            i <= 11,
            draws_below(flips@, 11, 2),
            edges_bijective(placed),
            placed.len() == 12,
            forall|k: int| 0 <= k < 12 ==> (#[trigger] edges@[k]).piece == placed[k].piece,
            forall|k: int| 0 <= k < i ==> (#[trigger] edges@[k]).orientation == flips@[k],
            forall|k: int| i <= k < 12 ==> (#[trigger] edges@[k]).orientation == 0,
            sum <= i,
            sum == edge_flip_sum(edges@),
            sum == drawn_sum(flips@, i as nat),
        decreases 11 - i,
    {
        let flip = flips[i] as u8;
        let ghost before = edges@;
        let piece = edges[i].piece;
        edges[i] = EdgePiece3x3x3 { piece, orientation: flip };
        proof {
            assert(forall|k: int| 0 <= k < 12 && k != i ==> edges@[k] == before[k]);
            assert(edge_flip_sum(edges@) == edge_flip_sum(before) + flip);
        }
        sum += flip;
        i += 1;
    }
    let ghost before = edges@;
    let piece = edges[11].piece;
    edges[11] = EdgePiece3x3x3 { piece, orientation: sum % 2 };
    proof {
        assert(forall|k: int| 0 <= k < 11 ==> edges@[k] == before[k]);
        assert(edge_flip_sum(edges@) == sum + sum % 2);
        lemma_edge_pieces_bijective(placed, edges@);
        assert(edges@ =~= edges_fliped(placed, flips@));
    }
    edges
}

/// Whether an array of edges has what every reachable arrangement has.
pub fn edges_are_valid(edges: &[EdgePiece3x3x3; 12]) -> (r: bool)
    ensures
        r == edges_valid(edges@),
{
    let mut seen: [bool; 12] = [false;12];
    let mut sum: u8 = 0;
    let mut i: usize = 0;
    while i < 12
        invariant
            i <= 12,
            sum <= i,
            forall|k: int| 0 <= k < i ==> (#[trigger] edges@[k]).orientation < 2,
            forall|a: int, b: int|
                0 <= a < b < i ==> (#[trigger] edges@[a]).piece != (#[trigger] edges@[b]).piece,
            forall|c: Edge3x3x3| #[trigger]
                seen@[c.spec_index()] <==> exists|k: int|
                    0 <= k < i && #[trigger] holds_edge(edges@, k, c),
            sum == partial_flip_sum(edges@, i as int),
        decreases 12 - i,
    {
        let piece = edges[i];
        if piece.orientation >= 2 {
            return false;
        }
        let id = piece.piece.index();
        if seen[id] {
            proof {
                let k = choose|k: int| 0 <= k < i && holds_edge(edges@, k, piece.piece);
                assert(edges@[k].piece == edges@[i as int].piece);
            }
            return false;
        }
        let ghost before = seen@;
        seen[id] = true;
        proof {
            assert forall|a: int, b: int| 0 <= a < b < i + 1 implies (#[trigger] edges@[a]).piece
                != (#[trigger] edges@[b]).piece by {
                if b == i {
                    assert(!before[piece.piece.spec_index()]);
                    assert(!holds_edge(edges@, a, piece.piece));
                }
            }
            assert forall|c: Edge3x3x3| #[trigger]
                seen@[c.spec_index()] <==> exists|k: int|
                    0 <= k < i + 1 && #[trigger] holds_edge(edges@, k, c) by {
                if c == piece.piece {
                    assert(holds_edge(edges@, i as int, c));
                } else {
                    assert(seen@[c.spec_index()] == before[c.spec_index()]);
                    if before[c.spec_index()] {
                        let k = choose|k: int| 0 <= k < i && holds_edge(edges@, k, c);
                        assert(holds_edge(edges@, k, c));
                    }
                }
            }
            reveal_with_fuel(partial_flip_sum, 2);
        }
        sum += piece.orientation;
        i += 1;
    }
    proof {
        reveal_with_fuel(partial_flip_sum, 13);
        assert(sum == edge_flip_sum(edges@));
    }
    let mut c: usize = 0;
    while c < 12
        invariant
            c <= 12,
            forall|x: Edge3x3x3| #[trigger]
                seen@[x.spec_index()] <==> exists|k: int|
                    0 <= k < 12 && #[trigger] holds_edge(edges@, k, x),
            forall|x: Edge3x3x3| x.spec_index() < c ==> #[trigger] edge_present(edges@, x),
        decreases 12 - c,
    {
        if !seen[c] {
            proof {
                let x = Edge3x3x3::at(c as int);
                assert(x.spec_index() == c);
                assert(!seen@[x.spec_index()]);
                assert(!edge_present(edges@, x));
            }
            return false;
        }
        proof {
            assert forall|x: Edge3x3x3| x.spec_index() < c + 1 implies #[trigger] edge_present(
                edges@,
                x,
            ) by {
                if x.spec_index() == c {
                    assert(seen@[x.spec_index()]);
                    let k = choose|k: int| 0 <= k < 12 && holds_edge(edges@, k, x);
                    assert(holds_edge(edges@, k, x));
                }
            }
        }
        c += 1;
    }
    sum % 2 == 0
}

/// Sum of the flips of the first `count` edges.
pub open spec fn partial_flip_sum(cs: Seq<EdgePiece3x3x3>, count: int) -> int
    decreases count,
{
    if count <= 0 {
        0
    } else {
        partial_flip_sum(cs, count - 1) + cs[count - 1].orientation
    }
}

/// The slice coordinate that stands for an edge position.
pub open spec fn coordinate_of(pos: int) -> int {
    if pos >= 8 {
        pos - 8
    } else {
        pos + 4
    }
}

/// Whether `i` is one of four numbers.
pub open spec fn one_of_four(i: int, a: int, b: int, c: int, d: int) -> bool {
    i == a || i == b || i == c || i == d
}

/// Number of those of four slice coordinates that are at least `i`.
pub open spec fn members_from(i: int, a: int, b: int, c: int, d: int) -> int {
    (if a >= i {
        1int
    } else {
        0int
    }) + (if b >= i {
        1int
    } else {
        0int
    }) + (if c >= i {
        1int
    } else {
        0int
    }) + (if d >= i {
        1int
    } else {
        0int
    })
}

/// Slice coordinates and edge positions stand for each other.
pub proof fn lemma_slice_coordinates(i: int)
    requires
        0 <= i < 12,
    ensures
        0 <= slice_coordinate(i) < 12,
        0 <= coordinate_of(i) < 12,
        coordinate_of(slice_coordinate(i)) == i,
        slice_coordinate(coordinate_of(i)) == i,
{
}

/// Where the equatorial edges sit at four different coordinates and nowhere else,
/// the count from a coordinate on counts those of the four that lie there.
proof fn lemma_equatorial_count_members(es: Seq<EdgePiece3x3x3>, i: int, a: int, b: int, c: int, d: int)
    requires
        0 <= i <= 12,
        a != b && a != c && a != d && b != c && b != d && c != d,
        0 <= a < 12 && 0 <= b < 12 && 0 <= c < 12 && 0 <= d < 12,
        forall|k: int| 0 <= k < 12 ==> (#[trigger] equatorial_at(es, k) <==> one_of_four(k, a, b, c, d)),
    ensures
        equatorial_count(es, i) == members_from(i, a, b, c, d),
    decreases 12 - i,
{
    if i < 12 {
        lemma_equatorial_count_members(es, i + 1, a, b, c, d);
        assert(equatorial_at(es, i) <==> one_of_four(i, a, b, c, d));
    }
}

/// Where every edge occupies exactly one position, two positions that hold the same
/// edge are one position.
pub proof fn lemma_edge_holder_unique(es: Seq<EdgePiece3x3x3>, i: int, j: int)
    requires
        edges_bijective(es),
        0 <= i < 12,
        0 <= j < 12,
        es[i].piece == es[j].piece,
    ensures
        i == j,
{
    if i < j {
        assert(es[i].piece != es[j].piece);
    }
    if j < i {
        assert(es[j].piece != es[i].piece);
    }
}

/// A position that holds a given edge.
pub open spec fn edge_holder(es: Seq<EdgePiece3x3x3>, c: Edge3x3x3) -> int {
    choose|i: int| holds_edge(es, i, c)
}

/// Where every edge occupies exactly one position, the holder of an edge holds it.
pub proof fn lemma_edge_holder(es: Seq<EdgePiece3x3x3>, c: Edge3x3x3)
    requires
        edges_bijective(es),
    ensures
        0 <= edge_holder(es, c) < 12,
        es[edge_holder(es, c)].piece == c,
{
    assert(edge_present(es, c));
}

/// Where every edge occupies exactly one position, four positions hold equatorial
/// edges.
pub proof fn lemma_bijective_equatorial_count(es: Seq<EdgePiece3x3x3>)
    requires
        es.len() == 12,
        edges_bijective(es),
    ensures
        equatorial_count(es, 0) == 4,
{
    let p0 = edge_holder(es, Edge3x3x3::FR);
    let p1 = edge_holder(es, Edge3x3x3::FL);
    let p2 = edge_holder(es, Edge3x3x3::BL);
    let p3 = edge_holder(es, Edge3x3x3::BR);
    lemma_edge_holder(es, Edge3x3x3::FR);
    lemma_edge_holder(es, Edge3x3x3::FL);
    lemma_edge_holder(es, Edge3x3x3::BL);
    lemma_edge_holder(es, Edge3x3x3::BR);
    assert(p0 != p1 && p0 != p2 && p0 != p3 && p1 != p2 && p1 != p3 && p2 != p3);
    let a = coordinate_of(p0);
    let b = coordinate_of(p1);
    let c = coordinate_of(p2);
    let d = coordinate_of(p3);
    lemma_slice_coordinates(p0);
    lemma_slice_coordinates(p1);
    lemma_slice_coordinates(p2);
    lemma_slice_coordinates(p3);
    assert(a != b && a != c && a != d && b != c && b != d && c != d);
    assert forall|k: int| 0 <= k < 12 implies (#[trigger] equatorial_at(es, k) <==> one_of_four(
        k,
        a,
        b,
        c,
        d,
    )) by {
        lemma_equatorial_at(es, k, p0, p1, p2, p3);
    }
    lemma_equatorial_count_members(es, 0, a, b, c, d);
}

/// The edge at a slice coordinate is equatorial exactly where the coordinate stands
/// for the position of one of the four equatorial edges.
proof fn lemma_equatorial_at(es: Seq<EdgePiece3x3x3>, k: int, p0: int, p1: int, p2: int, p3: int)
    requires
        edges_bijective(es),
        0 <= k < 12,
        0 <= p0 < 12 && 0 <= p1 < 12 && 0 <= p2 < 12 && 0 <= p3 < 12,
        es[p0].piece == Edge3x3x3::FR,
        es[p1].piece == Edge3x3x3::FL,
        es[p2].piece == Edge3x3x3::BL,
        es[p3].piece == Edge3x3x3::BR,
    ensures
        equatorial_at(es, k) <==> one_of_four(
            k,
            coordinate_of(p0),
            coordinate_of(p1),
            coordinate_of(p2),
            coordinate_of(p3),
        ),
{
    let p = slice_coordinate(k);
    lemma_slice_coordinates(k);
    lemma_slice_coordinates(p0);
    lemma_slice_coordinates(p1);
    lemma_slice_coordinates(p2);
    lemma_slice_coordinates(p3);
    let piece = es[p].piece;
    if piece == Edge3x3x3::FR {
        lemma_edge_holder_unique(es, p, p0);
    } else if piece == Edge3x3x3::FL {
        lemma_edge_holder_unique(es, p, p1);
    } else if piece == Edge3x3x3::BL {
        lemma_edge_holder_unique(es, p, p2);
    } else if piece == Edge3x3x3::BR {
        lemma_edge_holder_unique(es, p, p3);
    } else {
        assert(!piece.spec_is_equatorial());
        assert(p != p0 && p != p1 && p != p2 && p != p3);
    }
}

/// Sum of the lowest `places` digits of `idx` in base 2.
pub open spec fn flip_digit_sum(idx: int, places: nat) -> int
    decreases places,
{
    if places == 0 {
        0
    } else {
        flip_digit_sum(idx, (places - 1) as nat) + digit_at(idx, 2, (places - 1) as nat)
    }
}

/// The edges at home, flipped as an orientation index says: the digits of the
/// index are the flips of the first eleven edges, and the twelfth flip makes the
/// sum even.
pub open spec fn oriented_edges(idx: int) -> Seq<EdgePiece3x3x3> {
    Seq::new(
        12,
        |i: int|
            EdgePiece3x3x3 {
                piece: Edge3x3x3::at(i),
                orientation: (if i < 11 {
                    digit_at(idx, 2, (10 - i) as nat)
                } else {
                    flip_digit_sum(idx, 11) % 2
                }) as u8,
            },
    )
}

/// The edges, unflipped, with the `n` edges from position `start` on in the
/// arrangement that a permutation index names.
pub open spec fn permuted_edges(start: int, n: int, idx: int) -> Seq<EdgePiece3x3x3> {
    arranged(solved_edges(), start, n, idx, 0)
}

/// The edges after the equatorial edges with the numbers `k` down to 1 have gone to
/// the slice coordinates that the combinatorial number system reads off `rest`.
pub open spec fn slice_arranged(es: Seq<EdgePiece3x3x3>, rest: int, k: int) -> Seq<EdgePiece3x3x3>
    decreases k,
{
    if k <= 0 {
        es
    } else {
        let p = greedy_choice(rest, k, 11);
        slice_arranged(
            swapped(es, slice_coordinate(k - 1), slice_coordinate(p)),
            rest - binomial(p as nat, k as nat),
            k - 1,
        )
    }
}

/// The edges, unflipped, with the equatorial edges at the positions that a slice
/// index names.
pub open spec fn sliced_edges(idx: int) -> Seq<EdgePiece3x3x3> {
    slice_arranged(solved_edges(), idx, 4)
}

/// Builds the edges that an orientation index stands for.
pub fn edges_of_orientation_index(idx: u16) -> (r: [EdgePiece3x3x3; 12])
    ensures
        r@ == oriented_edges(idx as int),
        edges_valid(r@),
{
    let mut edges = new_edges();
    proof {
        lemma_solved_edges_valid();
    }
    let ghost placed = edges@;
    let mut rest: u16 = idx;
    let mut sum: u8 = 0;
    let mut place: usize = 0;
    while place < 11
        invariant
            place <= 11,
            placed == solved_edges(),
            rest == index_rest(idx as int, 2, place as nat),
            sum == flip_digit_sum(idx as int, place as nat),
            sum <= place,
            sum == edge_flip_sum(edges@),
            forall|k: int| 0 <= k < 12 ==> (#[trigger] edges@[k]).piece == placed[k].piece,
            forall|k: int|
                11 - place <= k < 11 ==> (#[trigger] edges@[k]).orientation == digit_at(
                    idx as int,
                    2,
                    (10 - k) as nat,
                ),
            forall|k: int| 0 <= k < 11 - place ==> (#[trigger] edges@[k]).orientation == 0,
            edges@[11].orientation == 0,
        decreases 11 - place,
    {
        let digit = (rest % 2) as u8;
        let ghost before = edges@;
        let piece = edges[10 - place].piece;
        edges[10 - place] = EdgePiece3x3x3 { piece, orientation: digit };
        proof {
            assert(forall|k: int| 0 <= k < 12 && k != 10 - place ==> edges@[k] == before[k]);
            assert(edge_flip_sum(edges@) == edge_flip_sum(before) + digit);
        }
        sum += digit;
        rest = rest / 2;
        place += 1;
    }
    let ghost before = edges@;
    let piece = edges[11].piece;
    edges[11] = EdgePiece3x3x3 { piece, orientation: sum % 2 };
    proof {
        assert(forall|k: int| 0 <= k < 11 ==> edges@[k] == before[k]);
        assert(edge_flip_sum(edges@) == sum + sum % 2);
        lemma_edge_pieces_bijective(placed, edges@);
        assert(edges@ =~= oriented_edges(idx as int));
    }
    edges
}

/// Moves the piece at `from` down to `to`, each piece between them one place up.
pub fn bubble_edge(edges: &mut [EdgePiece3x3x3; 12], from: usize, to: usize)
    requires
        to <= from < 12,
        edges_bijective(old(edges)@),
        forall|k: int| 0 <= k < 12 ==> (#[trigger] old(edges)@[k]).orientation == 0,
    ensures
        final(edges)@ == bubbled(old(edges)@, from as int, to as int),
        edges_bijective(final(edges)@),
        forall|k: int| 0 <= k < 12 ==> (#[trigger] final(edges)@[k]).orientation == 0,
{
    let mut j: usize = from;
    while j > to
        invariant
            to <= j <= from,
            from < 12,
            edges_bijective(edges@),
            forall|k: int| 0 <= k < 12 ==> (#[trigger] edges@[k]).orientation == 0,
            bubbled(edges@, j as int, to as int) == bubbled(old(edges)@, from as int, to as int),
        decreases j,
    {
        proof {
            lemma_edge_swap_bijective(edges@, j as int, j - 1);
            assert(edges_swapped(edges@, j as int, j - 1) =~= swapped(edges@, j as int, j - 1));
        }
        swap_edges(edges, j, j - 1);
        j -= 1;
    }
}

/// Builds the edges in which the `n` edges from position `start` on are in the
/// arrangement that a permutation index names.
pub fn edges_of_permutation_index(start: usize, n: usize, idx: u16) -> (r: [EdgePiece3x3x3; 12])
    requires
        1 <= n <= 8,
        start + n <= 12,
    ensures
        r@ == permuted_edges(start as int, n as int, idx as int),
        edges_valid(r@),
{
    let mut edges = new_edges();
    proof {
        lemma_solved_edges_valid();
    }
    let digits = factoradic_digits(idx, n);
    let mut i: usize = 0;
    while i + 1 < n
        invariant
            1 <= n <= 8,
            start + n <= 12,
            i + 1 <= n,
            edges_bijective(edges@),
            forall|k: int| 0 <= k < 12 ==> (#[trigger] edges@[k]).orientation == 0,
            forall|k: int|
                0 <= k < n ==> #[trigger] digits@[k] == crate::index::factoradic_digit(
                    idx as int,
                    (n - 1 - k) as nat,
                ),
            forall|k: int| 0 <= k < n ==> #[trigger] digits@[k] <= n - 1 - k,
            arranged(edges@, start as int, n as int, idx as int, i as int) == permuted_edges(
                start as int,
                n as int,
                idx as int,
            ),
        decreases n - i,
    {
        let from = start + i + digits[i] as usize;
        bubble_edge(&mut edges, from, start + i);
        i += 1;
    }
    proof {
        assert(edge_flip_sum(edges@) == 0);
    }
    edges
}

/// Builds the edges that a slice index stands for.
pub fn edges_of_slice_index(idx: u16) -> (r: [EdgePiece3x3x3; 12])
    ensures
        r@ == sliced_edges(idx as int),
        edges_valid(r@),
{
    let mut edges = new_edges();
    proof {
        lemma_solved_edges_valid();
    }
    let mut rest: usize = idx as usize;
    let mut k: usize = 4;
    while k > 0
        invariant
            k <= 4,
            rest <= idx,
            edges_bijective(edges@),
            forall|j: int| 0 <= j < 12 ==> (#[trigger] edges@[j]).orientation == 0,
            slice_arranged(edges@, rest as int, k as int) == sliced_edges(idx as int),
        decreases k,
    {
        let mut p: usize = 11;
        while p > k - 1 && ways_to_choose(p, k) > rest
            invariant
                1 <= k <= 4,
                k - 1 <= p <= 11,
                greedy_choice(rest as int, k as int, p as int) == greedy_choice(
                    rest as int,
                    k as int,
                    11,
                ),
            decreases p,
        {
            p -= 1;
        }
        let ways = ways_to_choose(p, k);
        proof {
            if p == k - 1 {
                lemma_binomial_beyond(p as nat, k as nat);
            }
            assert(greedy_choice(rest as int, k as int, p as int) == p);
            lemma_edge_swap_bijective(edges@, (k - 1 + 8) % 12, ((p + 8) % 12) as int);
            assert(edges_swapped(edges@, (k - 1 + 8) % 12, ((p + 8) % 12) as int) =~= swapped(
                edges@,
                slice_coordinate(k - 1),
                slice_coordinate(p as int),
            ));
        }
        rest = rest - ways;
        swap_edges(&mut edges, (k - 1 + 8) % 12, (p + 8) % 12);
        k -= 1;
    }
    proof {
        assert(edge_flip_sum(edges@) == 0);
    }
    edges
}

/// Sums of edge flips around a face that cancel.
proof fn lemma_edge_flip_cancel(t0: int, t1: int, t2: int, t3: int)
    requires
        0 <= t0 < 2,
        0 <= t1 < 2,
        0 <= t2 < 2,
        0 <= t3 < 2,
        (t0 + t1 + t2 + t3) % 2 == 0,
    ensures
        ((t0 + t1 + t2) % 2 + t3) % 2 == 0,
        ((t0 + t1) % 2 + (t2 + t3) % 2) % 2 == 0,
        (t0 + (t1 + t2 + t3) % 2) % 2 == 0,
{
}

/// A move brings to a position what its inverse took from there, with flips that
/// cancel.
pub proof fn lemma_edge_source_inverse(mv: Move, pos: int)
    requires
        0 <= pos < 12,
    ensures
        0 <= move_edge_source(mv.spec_inverse(), pos) < 12,
        edge_on_face(mv.spec_face(), pos) ==> edge_on_face(
            mv.spec_face(),
            move_edge_source(mv.spec_inverse(), pos),
        ),
        move_edge_source(mv, move_edge_source(mv.spec_inverse(), pos)) == pos,
        (move_edge_flip(mv.spec_inverse(), pos) + move_edge_flip(
            mv,
            move_edge_source(mv.spec_inverse(), pos),
        )) % 2 == 0,
        0 <= move_edge_flip(mv.spec_inverse(), pos) < 2,
        0 <= move_edge_flip(mv, move_edge_source(mv.spec_inverse(), pos)) < 2,
{
    let face = mv.spec_face();
    let inv = mv.spec_inverse();
    assert(inv.spec_face() == face);
    let p1 = quarter_edge_source(face, pos);
    let p2 = quarter_edge_source(face, p1);
    let p3 = quarter_edge_source(face, p2);
    let t0 = quarter_edge_flip(face, pos);
    let t1 = quarter_edge_flip(face, p1);
    let t2 = quarter_edge_flip(face, p2);
    let t3 = quarter_edge_flip(face, p3);
    lemma_edge_source_on_face(face, pos);
    lemma_edge_source_on_face(face, p1);
    lemma_edge_source_on_face(face, p2);
    lemma_edge_source_on_face(face, p3);
    lemma_edge_quarter_cycle(face, pos);
    assert(quarter_edge_source(face, p3) == pos);
    lemma_edge_flip_cancel(t0, t1, t2, t3);
    if mv.quarter_turns() == 1 {
        assert(inv.quarter_turns() == 3);
        assert(move_edge_source(inv, pos) == p3);
        assert(move_edge_source(mv, p3) == pos);
        assert(move_edge_flip(inv, pos) == (t0 + t1 + t2) % 2);
        assert(move_edge_flip(mv, p3) == t3);
    } else if mv.quarter_turns() == 2 {
        assert(inv.quarter_turns() == 2);
        assert(move_edge_source(inv, pos) == p2);
        assert(move_edge_source(mv, p2) == pos);
        assert(move_edge_flip(inv, pos) == (t0 + t1) % 2);
        assert(move_edge_flip(mv, p2) == (t2 + t3) % 2);
    } else {
        assert(mv.quarter_turns() == 3);
        assert(inv.quarter_turns() == 1);
        assert(move_edge_source(inv, pos) == p1);
        assert(move_edge_source(mv, p1) == pos);
        assert(move_edge_flip(inv, pos) == t0);
        assert(move_edge_flip(mv, p1) == (t1 + t2 + t3) % 2);
    }
}

/// Sums of edge flips around a face, reduced.
proof fn lemma_edge_flip_rounds(t0: int, t1: int, t2: int, t3: int)
    requires
        0 <= t0 < 2,
        0 <= t1 < 2,
        0 <= t2 < 2,
        0 <= t3 < 2,
        (t0 + t1 + t2 + t3) % 2 == 0,
    ensures
        ((t0 + t1 + t2) % 2 + (t3 + t0 + t1) % 2) % 2 == (t0 + t1) % 2,
{
}

/// A quarter turn made twice brings to a position what the half turn of the same
/// face brings there, with the same flip.
pub proof fn lemma_edge_source_twice(mv: Move, pos: int)
    requires
        0 <= pos < 12,
        mv.spec_rotation() != 2,
    ensures
        0 <= move_edge_source(mv, pos) < 12,
        edge_on_face(mv.spec_face(), pos) ==> edge_on_face(
            mv.spec_face(),
            move_edge_source(mv, pos),
        ),
        move_edge_source(mv, move_edge_source(mv, pos)) == move_edge_source(
            Move::of(mv.spec_face(), 2),
            pos,
        ),
        (move_edge_flip(mv, pos) + move_edge_flip(mv, move_edge_source(mv, pos))) % 2
            == move_edge_flip(Move::of(mv.spec_face(), 2), pos),
        0 <= move_edge_flip(mv, pos) < 2,
        0 <= move_edge_flip(mv, move_edge_source(mv, pos)) < 2,
{
    let face = mv.spec_face();
    let half = Move::of(face, 2);
    assert(half.spec_face() == face && half.quarter_turns() == 2);
    let p1 = quarter_edge_source(face, pos);
    let p2 = quarter_edge_source(face, p1);
    let p3 = quarter_edge_source(face, p2);
    let t0 = quarter_edge_flip(face, pos);
    let t1 = quarter_edge_flip(face, p1);
    let t2 = quarter_edge_flip(face, p2);
    let t3 = quarter_edge_flip(face, p3);
    lemma_edge_source_on_face(face, pos);
    lemma_edge_source_on_face(face, p1);
    lemma_edge_source_on_face(face, p2);
    lemma_edge_source_on_face(face, p3);
    lemma_edge_quarter_cycle(face, pos);
    assert(quarter_edge_source(face, p3) == pos);
    assert(move_edge_source(half, pos) == p2);
    assert(move_edge_flip(half, pos) == (t0 + t1) % 2);
    if mv.quarter_turns() == 1 {
        assert(move_edge_source(mv, pos) == p1);
        assert(move_edge_source(mv, p1) == p2);
        assert(move_edge_flip(mv, pos) == t0);
        assert(move_edge_flip(mv, p1) == t1);
    } else {
        assert(mv.quarter_turns() == 3);
        assert(move_edge_source(mv, pos) == p3);
        assert(move_edge_source(mv, p3) == p2);
        assert(move_edge_flip(mv, pos) == (t0 + t1 + t2) % 2);
        assert(move_edge_flip(mv, p3) == (t3 + t0 + t1) % 2);
        lemma_edge_flip_rounds(t0, t1, t2, t3);
    }
}

/// A turn of the top or bottom face, and a half turn of any face, flips no edge and
/// keeps the edges of the equatorial slice in the slice and the others out of it.
pub proof fn lemma_phase_2_edge_move(mv: Move, pos: int)
    requires
        crate::prune::spec_is_phase_2_move(mv),
        0 <= pos < 12,
    ensures
        move_edge_flip(mv, pos) == 0,
        0 <= move_edge_source(mv, pos) < 12,
        pos < 8 <==> move_edge_source(mv, pos) < 8,
{
    let face = mv.spec_face();
    let once = quarter_edge_source(face, pos);
    let twice = quarter_edge_source(face, once);
    lemma_edge_source_on_face(face, pos);
    lemma_edge_source_on_face(face, once);
    lemma_edge_source_on_face(face, twice);
    lemma_quarter_flips_pair(face, pos);
    lemma_quarter_flips_pair(face, once);
    lemma_quarter_flips_pair(face, twice);
}

/// The quarter turns of the top and the bottom face flip no edge and keep every
/// edge in its layer; the flips that two quarter turns of any face give to an edge
/// cancel, and two quarter turns bring every edge back to the slice or out of it.
proof fn lemma_quarter_flips_pair(face: CubeFace, pos: int)
    requires
        0 <= pos < 12,
    ensures
        (face == CubeFace::Top || face == CubeFace::Bottom) ==> quarter_edge_flip(face, pos) == 0
            && (pos < 8 <==> quarter_edge_source(face, pos) < 8),
        (quarter_edge_flip(face, pos) + quarter_edge_flip(face, quarter_edge_source(face, pos)))
            % 2 == 0,
        pos < 8 <==> quarter_edge_source(face, quarter_edge_source(face, pos)) < 8,
{
    reveal(quarter_edge_source);
    reveal(quarter_edge_flip);
}

} // verus!

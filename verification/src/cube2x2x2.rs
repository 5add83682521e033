use crate::common::{
    draw, draws_below, gives_all, Color, Corner, CornerPiece, CubeFace, Move, RandomSource,
    RotationDirection, StandardRandomSource,
};
use crate::corner::{
    corner_orientation_index, corner_permutation_index, corner_turn, corners_after,
    corners_are_valid, corners_moved,
    corners_orientation_index, corners_permutation_index, corners_solved, corners_valid,
    corners_wf, face_corner, lemma_face_corners, new_corners, CornerTurn,
    corners_drawn, corners_from_draws, solved_corners, turn_corners,
};
use crate::facelet::{
    corner_decodable, corner_has_colors, corner_piece_color, corner_reference_color, corner_shows,
    find_corner, lemma_site_of_corner_facelet, lemma_small_facelet_of_site, small_corner_facelet,
    small_corner_facelet_index, small_facelet_site, small_facelet_source, small_faces_after,
    small_faces_moved, small_faces_of, small_solved_faces, InvalidCubeState, Site,
};
use vstd::prelude::*;

verus! {

/// A 2x2x2 cube in piece format: which corner occupies each position, and how it
/// is twisted.
#[derive(Clone, Copy, Debug, PartialEq, Eq)]
pub struct Cube2x2x2 {
    corners: [CornerPiece; 8],
}

/// A 2x2x2 cube in face color format: the colors of the 24 stickers, face by face
/// and row by row.
#[derive(Clone, Copy, Debug, PartialEq, Eq)]
pub struct Cube2x2x2Faces {
    state: [Color; 24],
}

impl View for Cube2x2x2 {
    type V = Seq<CornerPiece>;

    closed spec fn view(&self) -> Seq<CornerPiece> {
        self.corners@
    }
}

impl View for Cube2x2x2Faces {
    type V = Seq<Color>;

    closed spec fn view(&self) -> Seq<Color> {
        self.state@
    }
}

impl Cube2x2x2 {
    /// A state has 8 corners.
    pub proof fn lemma_view_length(&self)
        ensures
            self@.len() == 8,
    {
    }
}

impl Cube2x2x2Faces {
    /// A color array has 24 stickers.
    pub proof fn lemma_view_length(&self)
        ensures
            self@.len() == 24,
    {
    }
}

/// Whether the stickers of a 2x2x2 color array at every corner position are those
/// of the piece that `cs` has there.
pub open spec fn small_decodes_to(f: Seq<Color>, cs: Seq<CornerPiece>) -> bool {
    &&& cs.len() == 8
    &&& forall|pos: int| 0 <= pos < 8 ==> corner_shows(f, true, pos, #[trigger] cs[pos])
}

/// Whether a source can give the numbers from which the corners are made, in the
/// order in which they are drawn: the places and then the twists, passing through
/// the state `mid` between them.
pub open spec fn corner_draws_given<T: RandomSource>(
    before: &T,
    places: Seq<u32>,
    mid: &T,
    twists: Seq<u32>,
    after: &T,
) -> bool {
    &&& draws_below(places, 7, 8)
    &&& draws_below(twists, 7, 3)
    &&& gives_all(before, 8, places, mid)
    &&& gives_all(mid, 3, twists, after)
}

/// Whether `cs` are random corners as the source `before` makes them: the corners
/// that numbers lead to which the source can give, one after the other, and after
/// which it is as `after` is.
pub open spec fn corners_drawn_from<T: RandomSource>(
    before: &T,
    cs: Seq<CornerPiece>,
    after: &T,
) -> bool {
    exists|places: Seq<u32>, mid: T, twists: Seq<u32>| #[trigger]
        corner_draws_given(before, places, &mid, twists, after) && cs == corners_drawn(
            places,
            twists,
        )
}

impl Cube2x2x2 {
    /// The solved cube.
    pub fn new() -> (r: Self)
        ensures
            r@ == solved_corners(),
    {
        Cube2x2x2 { corners: new_corners() }
    }

    pub fn from_corners(corners: [CornerPiece; 8]) -> (r: Self)
        ensures
            r@ == corners@,
    {
        Cube2x2x2 { corners }
    }

    /// The corners that numbers drawn lead to: places for the exchanges and twists.
    /// They are such as legal moves can reach.
    pub fn from_draws(places: &Vec<u32>, twists: &Vec<u32>) -> (r: Self)
        requires
            draws_below(places@, 7, 8),
            draws_below(twists@, 7, 3),
        ensures
            r@ == corners_drawn(places@, twists@),
            corners_valid(r@),
    {
        Cube2x2x2 { corners: corners_from_draws(places, twists) }
    }

    /// A random state that keeps what legal moves keep. Seven places below 8 are
    /// drawn for the exchanges of the corners, then seven twists below 3, and the
    /// state is the one that these numbers, which the source gave, lead to.
    pub fn sourced_random<T: RandomSource>(rng: &mut T) -> (r: Self)
        ensures
            corners_valid(r@),
            corners_drawn_from(old(rng), r@, final(rng)),
    {
        let places = draw(rng, 8, 7);
        let ghost mid = *rng;
        let twists = draw(rng, 3, 7);
        let r = Self::from_draws(&places, &twists);
        proof {
            assert(corner_draws_given(old(rng), places@, &mid, twists@, rng) && r@
                == corners_drawn(places@, twists@));
        }
        r
    }

    /// A random state, from the random numbers of the operating system: the corners
    /// that the numbers drawn lead to.
    pub fn random() -> (r: Self)
        ensures
            corners_valid(r@),
            exists|places: Seq<u32>, twists: Seq<u32>|
                draws_below(places, 7, 8) && draws_below(twists, 7, 3) && r@
                    == #[trigger] corners_drawn(places, twists),
    {
        let mut rng = StandardRandomSource;
        let ghost before = rng;
        let r = Self::sourced_random(&mut rng);
        proof {
            let (places, mid, twists) = choose|
                places: Seq<u32>,
                mid: StandardRandomSource,
                twists: Seq<u32>,
            | #[trigger]
                corner_draws_given(&before, places, &mid, twists, &rng) && r@ == corners_drawn(
                    places,
                    twists,
                );
            assert(r@ == corners_drawn(places, twists));
        }
        r
    }

    /// Gets the piece at a given corner position.
    pub fn corner_piece(&self, corner: Corner) -> (r: CornerPiece)
        ensures
            r == self@[corner.spec_index()],
    {
        self.corners[corner.index()]
    }

    /// The twists of the first seven corners as a number in base 3. The solved cube
    /// has index zero.
    pub fn corner_orientation_index(&self) -> (r: u16)
        requires
            forall|i: int| 0 <= i < 7 ==> (#[trigger] self@[i]).orientation < 3,
        ensures
            r == corner_orientation_index(self@),
            r < 2187,
    {
        assert(self@ == self.corners@);
        corners_orientation_index(&self.corners)
    }

    /// The arrangement of the corners as a number in the factorial number system.
    /// The solved cube has index zero.
    pub fn corner_permutation_index(&self) -> (r: u16)
        ensures
            r == corner_permutation_index(self@),
            r < 40320,
    {
        corners_permutation_index(&self.corners)
    }

    /// Whether the state has what every state has that legal moves reach: twists
    /// below 3 that add up to a multiple of 3, and every corner at exactly one
    /// position.
    pub fn is_valid(&self) -> (r: bool)
        ensures
            r == corners_valid(self@),
    {
        corners_are_valid(&self.corners)
    }

    /// Whether every corner is at home and untwisted.
    pub fn is_solved(&self) -> (r: bool)
        ensures
            r == (self@ == solved_corners()),
    {
        corners_solved(&self.corners)
    }

    /// Applies one move.
    pub fn do_move(&mut self, mv: Move)
        ensures
            final(self)@ == corners_moved(old(self)@, mv),
    {
        turn_corners(&mut self.corners, mv);
    }

    /// Turns a face by a quarter turn in the given direction. On these cubes a turn
    /// of any width is the turn of the face.
    pub fn rotate_wide(&mut self, face: CubeFace, dir: RotationDirection, _width: usize)
        ensures
            final(self)@ == corners_moved(
                old(self)@,
                Move::of(
                    face,
                    if dir == RotationDirection::CW {
                        1
                    } else {
                        -1
                    },
                ),
            ),
    {
        self.rotate(face, dir);
    }

    /// Turns a face by a quarter turn in the given direction.
    pub fn rotate(&mut self, face: CubeFace, dir: RotationDirection)
        ensures
            final(self)@ == corners_moved(
                old(self)@,
                Move::of(
                    face,
                    if dir == RotationDirection::CW {
                        1
                    } else {
                        -1
                    },
                ),
            ),
    {
        let rotation: i32 = match dir {
            RotationDirection::CW => 1,
            RotationDirection::CCW => -1,
        };
        match Move::from_face_and_rotation(face, rotation) {
            Some(mv) => self.do_move(mv),
            None => {},
        }
    }

    /// Applies a sequence of moves, from the first to the last.
    pub fn do_moves(&mut self, moves: &[Move])
        ensures
            final(self)@ == corners_after(old(self)@, moves@),
    {
        let mut i: usize = 0;
        while i < moves.len()
            invariant
                i <= moves.len(),
                self@ == corners_after(old(self)@, moves@.take(i as int)),
            decreases moves.len() - i,
        {
            proof {
                assert(moves@.take(i + 1).drop_last() =~= moves@.take(i as int));
            }
            self.do_move(moves[i]);
            i += 1;
        }
        proof {
            assert(moves@.take(moves.len() as int) =~= moves@);
        }
    }

    /// Number of stickers along an edge of the cube.
    pub fn size(&self) -> (r: usize)
        ensures
            r == 2,
    {
        2
    }

    /// Puts the cube back into the solved state.
    pub fn reset(&mut self)
        ensures
            final(self)@ == solved_corners(),
    {
        self.corners = new_corners();
    }

    /// Gets this cube state in face color format.
    pub fn as_faces(&self) -> (r: Cube2x2x2Faces)
        requires
            corners_wf(self@),
        ensures
            r@ == small_faces_of(self@),
    {
        let mut faces = Cube2x2x2Faces::new();
        let mut corner_idx: usize = 0;
        proof {
            assert forall|k: int| 0 <= k < 24 implies small_facelet_site(k).corner_pos() >= 0 by {
                lemma_small_facelet_of_site(k);
            }
        }
        while corner_idx < 8
            invariant
                corner_idx <= 8,
                corners_wf(self@),
                forall|k: int|
                    0 <= k < 24 && small_facelet_site(k).corner_pos() < corner_idx
                        ==> #[trigger] faces@[k] == small_faces_of(self@)[k],
            decreases 8 - corner_idx,
        {
            let piece = self.corners[corner_idx];
            let ghost before = faces@;
            paint_small_corner(&mut faces.state, corner_idx, piece);
            proof {
                assert forall|k: int|
                    0 <= k < 24 && small_facelet_site(k).corner_pos() < corner_idx
                        + 1 implies #[trigger] faces@[k] == small_faces_of(self@)[k] by {
                    lemma_small_facelet_of_site(k);
                    if small_facelet_site(k).corner_pos() < corner_idx {
                        assert(faces@[k] == before[k]);
                    }
                }
            }
            corner_idx += 1;
        }
        proof {
            assert forall|k: int| 0 <= k < 24 implies faces@[k] == small_faces_of(self@)[k] by {
                lemma_small_facelet_of_site(k);
            }
            assert(faces@ =~= small_faces_of(self@));
        }
        faces
    }
}

/// Paints the three stickers of a corner position with the colors of a piece.
fn paint_small_corner(state: &mut [Color; 24], pos: usize, piece: CornerPiece)
    requires
        pos < 8,
        piece.orientation < 3,
    ensures
        forall|k: int|
            0 <= k < 24 ==> #[trigger] final(state)@[k] == (if small_facelet_site(k).corner_pos()
                == pos {
                corner_piece_color(piece, small_facelet_site(k).slot())
            } else {
                old(state)@[k]
            }),
{
    let mut i: usize = 0;
    proof {
        assert forall|k: int| 0 <= k < 24 implies small_facelet_site(k).slot() >= 0 by {
            lemma_small_facelet_of_site(k);
        }
    }
    while i < 3
        invariant
            i <= 3,
            pos < 8,
            piece.orientation < 3,
            forall|k: int|
                0 <= k < 24 ==> #[trigger] state@[k] == (if small_facelet_site(k).corner_pos()
                    == pos && small_facelet_site(k).slot() < i {
                    corner_piece_color(piece, small_facelet_site(k).slot())
                } else {
                    old(state)@[k]
                }),
        decreases 3 - i,
    {
        let dest = small_corner_facelet_index(pos, i);
        let color = corner_reference_color(piece.piece, (i + 3 - piece.orientation as usize) % 3);
        proof {
            lemma_site_of_corner_facelet(pos as int, i as int);
            assert forall|k: int| 0 <= k < 24 && k != dest implies small_facelet_site(k)
                != Site::Corner(pos as int, i as int) by {
                lemma_small_facelet_of_site(k);
            }
        }
        state[dest] = color;
        proof {
            assert forall|k: int| 0 <= k < 24 implies #[trigger] state@[k] == (
            if small_facelet_site(k).corner_pos() == pos && small_facelet_site(k).slot() < i + 1 {
                corner_piece_color(piece, small_facelet_site(k).slot())
            } else {
                old(state)@[k]
            }) by {
                lemma_small_facelet_of_site(k);
            }
        }
        i += 1;
    }
    proof {
        assert forall|k: int| 0 <= k < 24 implies #[trigger] state@[k] == (if small_facelet_site(
            k,
        ).corner_pos() == pos {
            corner_piece_color(piece, small_facelet_site(k).slot())
        } else {
            old(state)@[k]
        }) by {
            lemma_small_facelet_of_site(k);
        }
    }
}

/// Brings to the three stickers of one corner position the colors that a row of
/// the move table takes from `before`.
fn carry_small_corner(state: &mut [Color; 24], before: &[Color; 24], turn: CornerTurn)
    requires
        turn.dest < 8,
        turn.source < 8,
        turn.twist < 3,
    ensures
        forall|k: int|
            0 <= k < 24 ==> #[trigger] final(state)@[k] == (if small_facelet_site(k).corner_pos()
                == turn.dest {
                before@[small_corner_facelet(
                    turn.source as int,
                    (small_facelet_site(k).slot() + 3 - turn.twist) % 3,
                )]
            } else {
                old(state)@[k]
            }),
{
    let mut s: usize = 0;
    proof {
        assert forall|k: int| 0 <= k < 24 implies small_facelet_site(k).slot() >= 0 by {
            lemma_small_facelet_of_site(k);
        }
    }
    while s < 3
        invariant
            s <= 3,
            turn.dest < 8,
            turn.source < 8,
            turn.twist < 3,
            forall|k: int|
                0 <= k < 24 ==> #[trigger] state@[k] == (if small_facelet_site(k).corner_pos()
                    == turn.dest && small_facelet_site(k).slot() < s {
                    before@[small_corner_facelet(
                        turn.source as int,
                        (small_facelet_site(k).slot() + 3 - turn.twist) % 3,
                    )]
                } else {
                    old(state)@[k]
                }),
        decreases 3 - s,
    {
        let dest = small_corner_facelet_index(turn.dest, s);
        let source = small_corner_facelet_index(turn.source, (s + 3 - turn.twist as usize) % 3);
        proof {
            lemma_site_of_corner_facelet(turn.dest as int, s as int);
            assert forall|k: int| 0 <= k < 24 && k != dest implies small_facelet_site(k)
                != Site::Corner(turn.dest as int, s as int) by {
                lemma_small_facelet_of_site(k);
            }
        }
        state[dest] = before[source];
        proof {
            assert forall|k: int| 0 <= k < 24 implies #[trigger] state@[k] == (
            if small_facelet_site(k).corner_pos() == turn.dest && small_facelet_site(k).slot() < s
                + 1 {
                before@[small_corner_facelet(
                    turn.source as int,
                    (small_facelet_site(k).slot() + 3 - turn.twist) % 3,
                )]
            } else {
                old(state)@[k]
            }) by {
                lemma_small_facelet_of_site(k);
            }
        }
        s += 1;
    }
    proof {
        assert forall|k: int| 0 <= k < 24 implies #[trigger] state@[k] == (if small_facelet_site(
            k,
        ).corner_pos() == turn.dest {
            before@[small_corner_facelet(
                turn.source as int,
                (small_facelet_site(k).slot() + 3 - turn.twist) % 3,
            )]
        } else {
            old(state)@[k]
        }) by {
            lemma_small_facelet_of_site(k);
        }
    }
}

impl Cube2x2x2Faces {
    /// The solved cube.
    pub fn new() -> (r: Self)
        ensures
            r@ == small_solved_faces(),
    {
        let mut state = [Color::White;24];
        let mut i: usize = 0;
        while i < 4
            invariant
                i <= 4,
                forall|k: int| 0 <= k < 24 && k % 4 < i ==> state@[k] == small_solved_faces()[k],
            decreases 4 - i,
        {
            state[Self::face_start(CubeFace::Top) + i] = Color::White;
            state[Self::face_start(CubeFace::Front) + i] = Color::Green;
            state[Self::face_start(CubeFace::Right) + i] = Color::Red;
            state[Self::face_start(CubeFace::Back) + i] = Color::Blue;
            state[Self::face_start(CubeFace::Left) + i] = Color::Orange;
            state[Self::face_start(CubeFace::Bottom) + i] = Color::Yellow;
            i += 1;
        }
        assert(state@ =~= small_solved_faces());
        Cube2x2x2Faces { state }
    }

    /// Create a cube state from a color array. The array holds the faces in the
    /// order of `CubeFace`, four stickers per face, each face from top to bottom in
    /// row major order, with columns left to right.
    pub fn from_colors(state: [Color; 24]) -> (r: Self)
        ensures
            r@ == state@,
    {
        Cube2x2x2Faces { state }
    }

    /// The colors of the stickers, face by face and row by row.
    pub fn stickers(&self) -> (r: &[Color; 24])
        ensures
            r@ == self@,
    {
        &self.state
    }

    /// Index of the first sticker of a face.
    pub fn face_start(face: CubeFace) -> (r: usize)
        ensures
            r == face.spec_index() * 4,
    {
        face.index() * 4
    }

    /// Index of a sticker within its face.
    pub fn face_offset(row: usize, col: usize) -> (r: usize)
        requires
            row * 2 + col <= usize::MAX,
        ensures
            r == row * 2 + col,
    {
        (row * 2) + col
    }

    /// Index of a sticker in the color array.
    pub fn idx(face: CubeFace, row: usize, col: usize) -> (r: usize)
        requires
            face.spec_index() * 4 + row * 2 + col <= usize::MAX,
        ensures
            r == face.spec_index() * 4 + row * 2 + col,
    {
        Self::face_start(face) + Self::face_offset(row, col)
    }

    /// The face that a sticker of the color array belongs to.
    pub fn face_for_idx(idx: usize) -> (r: CubeFace)
        requires
            idx < 24,
        ensures
            r == CubeFace::at(idx as int / 4),
    {
        match CubeFace::from_index(idx / 4) {
            Some(face) => face,
            None => CubeFace::Top,
        }
    }

    /// Gets the color for a given place on the cube. For a given `face`, the `row`
    /// and `col` represent the zero-indexed position on the face to be accessed. The
    /// place must be within the color array.
    pub fn color(&self, face: CubeFace, row: usize, col: usize) -> (r: Color)
        requires
            face.spec_index() * 4 + row * 2 + col < 24,
        ensures
            r == self@[face.spec_index() * 4 + row * 2 + col],
    {
        self.state[Self::idx(face, row, col)]
    }

    /// Gets the color of one of the three stickers of a corner position.
    pub fn corner_color(&self, corner: Corner, idx: usize) -> (r: Color)
        requires
            idx < 3,
        ensures
            r == self@[small_corner_facelet(corner.spec_index(), idx as int)],
    {
        self.state[small_corner_facelet_index(corner.index(), idx)]
    }

    /// The colors of a random state that keeps what legal moves keep: the corners
    /// that the numbers lead to that are drawn as for the pieces.
    pub fn sourced_random<T: RandomSource>(rng: &mut T) -> (r: Self)
        ensures
            exists|cs: Seq<CornerPiece>| #[trigger]
                corners_valid(cs) && corners_drawn_from(old(rng), cs, final(rng)) && r@
                    == small_faces_of(cs),
    {
        let pieces = Cube2x2x2::sourced_random(rng);
        let r = pieces.as_faces();
        proof {
            assert(corners_valid(pieces@) && corners_drawn_from(old(rng), pieces@, rng) && r@
                == small_faces_of(pieces@));
        }
        r
    }

    /// Whether every sticker has the color of its face.
    pub fn is_solved(&self) -> (r: bool)
        ensures
            r == (self@ == small_solved_faces()),
    {
        let mut k: usize = 0;
        while k < 24
            invariant
                k <= 24,
                forall|j: int| 0 <= j < k ==> self@[j] == small_solved_faces()[j],
            decreases 24 - k,
        {
            if self.state[k] != Self::face_for_idx(k).color() {
                assert(self@[k as int] != small_solved_faces()[k as int]);
                return false;
            }
            k += 1;
        }
        assert(self@ =~= small_solved_faces());
        true
    }

    /// Applies one move: the stickers of the four corners around the turned face
    /// travel with their pieces.
    pub fn do_move(&mut self, mv: Move)
        ensures
            final(self)@ == small_faces_moved(old(self)@, mv),
    {
        let before = self.state;
        let ghost face = mv.spec_face();
        let ghost f0 = face_corner(face, 0);
        let ghost f1 = face_corner(face, 1);
        let ghost f2 = face_corner(face, 2);
        let ghost f3 = face_corner(face, 3);
        proof {
            lemma_face_corners(face);
            assert(0 <= f0 < 8 && 0 <= f1 < 8 && 0 <= f2 < 8 && 0 <= f3 < 8);
            assert(f0 != f1 && f0 != f2 && f0 != f3 && f1 != f2 && f1 != f3 && f2 != f3);
        }
        let mut slot: usize = 0;
        while slot < 4
            invariant
                slot <= 4,
                face == mv.spec_face(),
                before@ == old(self)@,
                f0 == face_corner(face, 0),
                f1 == face_corner(face, 1),
                f2 == face_corner(face, 2),
                f3 == face_corner(face, 3),
                0 <= f0 < 8 && 0 <= f1 < 8 && 0 <= f2 < 8 && 0 <= f3 < 8,
                f0 != f1 && f0 != f2 && f0 != f3 && f1 != f2 && f1 != f3 && f2 != f3,
                forall|k: int|
                    0 <= k < 24 ==> #[trigger] self@[k] == (if (slot > 0 && small_facelet_site(
                        k,
                    ).corner_pos() == f0) || (slot > 1 && small_facelet_site(k).corner_pos() == f1)
                        || (slot > 2 && small_facelet_site(k).corner_pos() == f2) || (slot > 3
                        && small_facelet_site(k).corner_pos() == f3) {
                        before@[small_facelet_source(mv, k)]
                    } else {
                        before@[k]
                    }),
            decreases 4 - slot,
        {
            let turn = corner_turn(mv, slot);
            let ghost entering = self@;
            carry_small_corner(&mut self.state, &before, turn);
            proof {
                assert forall|k: int| 0 <= k < 24 implies #[trigger] self@[k] == (if (slot + 1 > 0
                    && small_facelet_site(k).corner_pos() == f0) || (slot + 1 > 1
                    && small_facelet_site(k).corner_pos() == f1) || (slot + 1 > 2
                    && small_facelet_site(k).corner_pos() == f2) || (slot + 1 > 3
                    && small_facelet_site(k).corner_pos() == f3) {
                    before@[small_facelet_source(mv, k)]
                } else {
                    before@[k]
                }) by {
                    lemma_small_facelet_of_site(k);
                    assert(self@[k] == (if small_facelet_site(k).corner_pos() == turn.dest {
                        before@[small_corner_facelet(
                            turn.source as int,
                            (small_facelet_site(k).slot() + 3 - turn.twist) % 3,
                        )]
                    } else {
                        entering[k]
                    }));
                }
            }
            slot += 1;
        }
        proof {
            let after = small_faces_moved(before@, mv);
            assert forall|k: int| 0 <= k < 24 implies self@[k] == after[k] by {
                lemma_small_facelet_of_site(k);
            }
            assert(self@ =~= after);
        }
    }

    /// Turns a face by a quarter turn in the given direction. On these cubes a turn
    /// of any width is the turn of the face.
    pub fn rotate_wide(&mut self, face: CubeFace, dir: RotationDirection, _width: usize)
        ensures
            final(self)@ == small_faces_moved(
                old(self)@,
                Move::of(
                    face,
                    if dir == RotationDirection::CW {
                        1
                    } else {
                        -1
                    },
                ),
            ),
    {
        self.rotate(face, dir);
    }

    /// Turns a face by a quarter turn in the given direction.
    pub fn rotate(&mut self, face: CubeFace, dir: RotationDirection)
        ensures
            final(self)@ == small_faces_moved(
                old(self)@,
                Move::of(
                    face,
                    if dir == RotationDirection::CW {
                        1
                    } else {
                        -1
                    },
                ),
            ),
    {
        let rotation: i32 = match dir {
            RotationDirection::CW => 1,
            RotationDirection::CCW => -1,
        };
        match Move::from_face_and_rotation(face, rotation) {
            Some(mv) => self.do_move(mv),
            None => {},
        }
    }

    /// Applies a sequence of moves, from the first to the last.
    pub fn do_moves(&mut self, moves: &[Move])
        ensures
            final(self)@ == small_faces_after(old(self)@, moves@),
    {
        let mut i: usize = 0;
        while i < moves.len()
            invariant
                i <= moves.len(),
                self@ == small_faces_after(old(self)@, moves@.take(i as int)),
            decreases moves.len() - i,
        {
            proof {
                assert(moves@.take(i + 1).drop_last() =~= moves@.take(i as int));
            }
            self.do_move(moves[i]);
            i += 1;
        }
        proof {
            assert(moves@.take(moves.len() as int) =~= moves@);
        }
    }

    /// Number of stickers along an edge of the cube.
    pub fn size(&self) -> (r: usize)
        ensures
            r == 2,
    {
        2
    }

    /// Puts the cube back into the solved state.
    pub fn reset(&mut self)
        ensures
            final(self)@ == small_solved_faces(),
    {
        let solved = Self::new();
        self.state = solved.state;
    }

    /// Gets this cube state in piece format. Fails at the first corner position, in
    /// the order of the positions, whose three stickers match no corner piece under
    /// any twist.
    pub fn as_pieces(&self) -> (r: Result<Cube2x2x2, InvalidCubeState>)
        ensures
            match r {
                Ok(cube) => small_decodes_to(self@, cube@),
                Err(InvalidCubeState::UnknownCorner(corner)) => {
                    &&& !corner_decodable(self@, true, corner.spec_index())
                    &&& forall|pos: int|
                        0 <= pos < corner.spec_index() ==> #[trigger] corner_decodable(
                            self@,
                            true,
                            pos,
                        )
                },
                Err(InvalidCubeState::UnknownEdge(_)) => false,
            },
    {
        let mut corners = new_corners();
        let mut corner_idx: usize = 0;
        while corner_idx < 8
            invariant
                corner_idx <= 8,
                forall|pos: int|
                    0 <= pos < corner_idx ==> corner_shows(self@, true, pos, #[trigger] corners@[pos]),
            decreases 8 - corner_idx,
        {
            let corner = match Corner::from_index(corner_idx) {
                Some(corner) => corner,
                None => Corner::URF,
            };
            let c0 = self.corner_color(corner, 0);
            let c1 = self.corner_color(corner, 1);
            let c2 = self.corner_color(corner, 2);
            match find_corner(c0, c1, c2) {
                Some(piece) => {
                    corners[corner_idx] = piece;
                },
                None => {
                    proof {
                        assert forall|piece: CornerPiece| !#[trigger] corner_shows(
                            self@,
                            true,
                            corner_idx as int,
                            piece,
                        ) by {
                            assert(!corner_has_colors(piece, c0, c1, c2));
                        }
                        assert forall|pos: int| 0 <= pos < corner_idx implies #[trigger] corner_decodable(
                            self@,
                            true,
                            pos,
                        ) by {
                            assert(corner_shows(self@, true, pos, corners@[pos]));
                        }
                    }
                    return Err(InvalidCubeState::UnknownCorner(corner));
                },
            }
            corner_idx += 1;
        }
        Ok(Cube2x2x2 { corners })
    }
}

} // verus!

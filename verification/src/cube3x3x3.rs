use crate::common::{
    draw, draws_below, gives_all, Color, Corner, CornerPiece, CubeFace, Move, RandomSource,
    RotationDirection, StandardRandomSource,
};
use crate::corner::{
    corner_orientation_index, corner_permutation_index, corner_turn, corners_after,
    corners_are_valid, corners_moved,
    corners_orientation_index, corners_permutation_index, corners_solved, corners_valid,
    corners_wf, face_corner, lemma_face_corners, corners_drawn, corners_from_draws, new_corners, solved_corners,
    turn_corners, CornerTurn,
};
use crate::edge::{
    edge_orientation_index, edge_turn, edges_after, edges_are_valid,
    edges_equatorial_slice_index, edges_moved,
    edges_orientation_index, edges_phase_2_equatorial_permutation_index,
    edges_phase_2_permutation_index, edges_solved, edges_valid, edges_wf, equatorial_count,
    equatorial_edge_slice_index, face_edge, lemma_face_edges, new_edges,
    phase_2_edge_permutation_index, phase_2_equatorial_edge_permutation_index, edges_drawn, edges_from_draws,
    solved_edges, turn_edges, EdgeTurn,
};
pub use crate::edge::{Edge3x3x3, EdgePiece3x3x3};
use crate::facelet::{
    corner_decodable, corner_facelet, corner_facelet_index, corner_has_colors,
    corner_piece_color, corner_reference_color, corner_shows, edge_decodable, edge_facelet,
    edge_facelet_index, edge_has_colors, edge_piece_color, edge_reference_color, edge_shows,
    facelet_site, facelet_source, faces_after, faces_moved, faces_of, find_corner, find_edge,
    lemma_facelet_of_site, lemma_site_of_corner_facelet, lemma_site_of_edge_facelet,
    solved_faces, InvalidCubeState, Site,
};
use vstd::prelude::*;

verus! {

/// A 3x3x3 cube in piece format: which piece occupies each corner and edge
/// position, and how it is twisted or flipped.
#[derive(Clone, Copy, Debug, PartialEq, Eq)]
pub struct Cube3x3x3 {
    corners: [CornerPiece; 8],
    edges: [EdgePiece3x3x3; 12],
}

/// A 3x3x3 cube in face color format: the colors of the 54 stickers, face by face
/// and row by row.
#[derive(Clone, Copy, Debug, PartialEq, Eq)]
pub struct Cube3x3x3Faces {
    state: [Color; 54],
}

/// The pieces of a 3x3x3 cube, position by position.
pub ghost struct Pieces3x3x3 {
    pub corners: Seq<CornerPiece>,
    pub edges: Seq<EdgePiece3x3x3>,
}

impl Pieces3x3x3 {
    /// The state that numbers drawn lead to: the solved state with its corners and
    /// edges exchanged as the places drawn say, with the twists and flips drawn.
    pub open spec fn drawn(
        corner_places: Seq<u32>,
        edge_places: Seq<u32>,
        corner_twists: Seq<u32>,
        edge_flips: Seq<u32>,
    ) -> Pieces3x3x3 {
        Pieces3x3x3 {
            corners: corners_drawn(corner_places, corner_twists),
            edges: edges_drawn(edge_places, edge_flips),
        }
    }

    /// The solved cube.
    pub open spec fn solved() -> Pieces3x3x3 {
        Pieces3x3x3 { corners: solved_corners(), edges: solved_edges() }
    }

    /// The pieces after a move.
    pub open spec fn moved(self, mv: Move) -> Pieces3x3x3 {
        Pieces3x3x3 { corners: corners_moved(self.corners, mv), edges: edges_moved(self.edges, mv) }
    }

    /// The pieces after a sequence of moves, applied from the first to the last.
    pub open spec fn after(self, moves: Seq<Move>) -> Pieces3x3x3 {
        Pieces3x3x3 {
            corners: corners_after(self.corners, moves),
            edges: edges_after(self.edges, moves),
        }
    }

    /// Eight corners with twists below 3 and twelve edges with flips below 2.
    pub open spec fn wf(self) -> bool {
        corners_wf(self.corners) && edges_wf(self.edges)
    }

    /// What holds of every state that legal moves reach from the solved cube: the
    /// twists add up to a multiple of 3, the flips to an even number, and every
    /// piece occupies exactly one position.
    pub open spec fn valid(self) -> bool {
        corners_valid(self.corners) && edges_valid(self.edges)
    }

    /// The colors that the pieces show.
    pub open spec fn faces(self) -> Seq<Color> {
        faces_of(self.corners, self.edges)
    }
}

impl View for Cube3x3x3 {
    type V = Pieces3x3x3;

    closed spec fn view(&self) -> Pieces3x3x3 {
        Pieces3x3x3 { corners: self.corners@, edges: self.edges@ }
    }
}

impl View for Cube3x3x3Faces {
    type V = Seq<Color>;

    closed spec fn view(&self) -> Seq<Color> {
        self.state@
    }
}

impl Cube3x3x3 {
    /// A state has 8 corners and 12 edges.
    pub proof fn lemma_view_lengths(&self)
        ensures
            self@.corners.len() == 8,
            self@.edges.len() == 12,
    {
    }
}

impl Cube3x3x3Faces {
    /// A color array has 54 stickers.
    pub proof fn lemma_view_length(&self)
        ensures
            self@.len() == 54,
    {
    }
}

/// Whether the stickers of a 3x3x3 color array at every corner and edge position are
/// those of the piece that `p` has there.
pub open spec fn decodes_to(f: Seq<Color>, p: Pieces3x3x3) -> bool {
    &&& p.corners.len() == 8
    &&& p.edges.len() == 12
    &&& forall|pos: int| 0 <= pos < 8 ==> corner_shows(f, false, pos, #[trigger] p.corners[pos])
    &&& forall|pos: int| 0 <= pos < 12 ==> edge_shows(f, pos, #[trigger] p.edges[pos])
}

/// Whether the centers of a 3x3x3 color array have the colors of their faces.
pub open spec fn centers_at_home(f: Seq<Color>) -> bool {
    forall|face: int| 0 <= face < 6 ==> #[trigger] f[face * 9 + 4] == CubeFace::at(face).spec_color()
}

/// Whether every sticker of a 3x3x3 color array has the color of the center of its
/// face.
pub open spec fn faces_uniform(f: Seq<Color>) -> bool {
    forall|k: int| 0 <= k < 54 ==> #[trigger] f[k] == f[(k / 9) * 9 + 4]
}

/// Whether a source can give the numbers from which a state is made, in the order
/// in which they are drawn: the places of the corners, the places of the edges, the
/// twists and the flips, passing through the states `s1`, `s2` and `s3` between
/// them.
pub open spec fn draws_given<T: RandomSource>(
    before: &T,
    corner_places: Seq<u32>,
    s1: &T,
    edge_places: Seq<u32>,
    s2: &T,
    corner_twists: Seq<u32>,
    s3: &T,
    edge_flips: Seq<u32>,
    after: &T,
) -> bool {
    &&& draws_below(corner_places, 7, 8)
    &&& draws_below(edge_places, 11, 12)
    &&& draws_below(corner_twists, 7, 3)
    &&& draws_below(edge_flips, 11, 2)
    &&& gives_all(before, 8, corner_places, s1)
    &&& gives_all(s1, 12, edge_places, s2)
    &&& gives_all(s2, 3, corner_twists, s3)
    &&& gives_all(s3, 2, edge_flips, after)
}

/// Whether `p` is a random state as the source `before` makes it: the state that
/// numbers lead to which the source can give, one after the other, and after which
/// it is as `after` is.
pub open spec fn state_drawn<T: RandomSource>(before: &T, p: Pieces3x3x3, after: &T) -> bool {
    exists|
        corner_places: Seq<u32>,
        s1: T,
        edge_places: Seq<u32>,
        s2: T,
        corner_twists: Seq<u32>,
        s3: T,
        edge_flips: Seq<u32>,
    | #[trigger]
        draws_given(
            before,
            corner_places,
            &s1,
            edge_places,
            &s2,
            corner_twists,
            &s3,
            edge_flips,
            after,
        ) && p == Pieces3x3x3::drawn(corner_places, edge_places, corner_twists, edge_flips)
}

impl Cube3x3x3 {
    /// The solved cube.
    pub fn new() -> (r: Self)
        ensures
            r@ == Pieces3x3x3::solved(),
    {
        Cube3x3x3 { corners: new_corners(), edges: new_edges() }
    }

    pub fn from_corners_and_edges(corners: [CornerPiece; 8], edges: [EdgePiece3x3x3; 12]) -> (r:
        Self)
        ensures
            r@.corners == corners@,
            r@.edges == edges@,
    {
        Cube3x3x3 { corners, edges }
    }

    /// The state that numbers drawn lead to: places for the exchanges of the corners
    /// and of the edges, twists of the corners and flips of the edges. It is one that
    /// has what every state has that legal moves reach.
    pub fn from_draws(
        corner_places: &Vec<u32>,
        edge_places: &Vec<u32>,
        corner_twists: &Vec<u32>,
        edge_flips: &Vec<u32>,
    ) -> (r: Self)
        requires
            draws_below(corner_places@, 7, 8),
            draws_below(edge_places@, 11, 12),
            draws_below(corner_twists@, 7, 3),
            draws_below(edge_flips@, 11, 2),
        ensures
            r@ == Pieces3x3x3::drawn(
                corner_places@,
                edge_places@,
                corner_twists@,
                edge_flips@,
            ),
            r@.valid(),
    {
        Cube3x3x3 {
            corners: corners_from_draws(corner_places, corner_twists),
            edges: edges_from_draws(edge_places, edge_flips),
        }
    }

    /// A random state that keeps what legal moves keep. Seven places below 8 are
    /// drawn for the exchanges of the corners, eleven below 12 for those of the edges,
    /// seven twists below 3 and eleven flips below 2, in this order, and the state is
    /// the one that these numbers, which the source gave, lead to.
    pub fn sourced_random<T: RandomSource>(rng: &mut T) -> (r: Self)
        ensures
            r@.valid(),
            state_drawn(old(rng), r@, final(rng)),
    {
        let corner_places = draw(rng, 8, 7);
        let ghost s1 = *rng;
        let edge_places = draw(rng, 12, 11);
        let ghost s2 = *rng;
        let corner_twists = draw(rng, 3, 7);
        let ghost s3 = *rng;
        let edge_flips = draw(rng, 2, 11);
        let r = Self::from_draws(&corner_places, &edge_places, &corner_twists, &edge_flips);
        proof {
            assert(draws_given(
                old(rng),
                corner_places@,
                &s1,
                edge_places@,
                &s2,
                corner_twists@,
                &s3,
                edge_flips@,
                rng,
            ) && r@ == Pieces3x3x3::drawn(
                corner_places@,
                edge_places@,
                corner_twists@,
                edge_flips@,
            ));
        }
        r
    }

    /// A random state, from the random numbers of the operating system: the state
    /// that the numbers drawn lead to.
    pub fn random() -> (r: Self)
        ensures
            r@.valid(),
            exists|
                corner_places: Seq<u32>,
                edge_places: Seq<u32>,
                corner_twists: Seq<u32>,
                edge_flips: Seq<u32>,
            |
                draws_below(corner_places, 7, 8) && draws_below(edge_places, 11, 12)
                    && draws_below(corner_twists, 7, 3) && draws_below(edge_flips, 11, 2) && r@
                    == #[trigger] Pieces3x3x3::drawn(
                    corner_places,
                    edge_places,
                    corner_twists,
                    edge_flips,
                ),
    {
        let mut rng = StandardRandomSource;
        let ghost before = rng;
        let r = Self::sourced_random(&mut rng);
        proof {
            let (corner_places, s1, edge_places, s2, corner_twists, s3, edge_flips) = choose|
                corner_places: Seq<u32>,
                s1: StandardRandomSource,
                edge_places: Seq<u32>,
                s2: StandardRandomSource,
                corner_twists: Seq<u32>,
                s3: StandardRandomSource,
                edge_flips: Seq<u32>,
            | #[trigger]
                draws_given(
                    &before,
                    corner_places,
                    &s1,
                    edge_places,
                    &s2,
                    corner_twists,
                    &s3,
                    edge_flips,
                    &rng,
                ) && r@ == Pieces3x3x3::drawn(
                    corner_places,
                    edge_places,
                    corner_twists,
                    edge_flips,
                );
            assert(r@ == Pieces3x3x3::drawn(
                corner_places,
                edge_places,
                corner_twists,
                edge_flips,
            ));
        }
        r
    }

    /// Gets the piece at a given corner position.
    pub fn corner_piece(&self, corner: Corner) -> (r: CornerPiece)
        ensures
            r == self@.corners[corner.spec_index()],
    {
        self.corners[corner.index()]
    }

    /// Gets the piece at a given edge position.
    pub fn edge_piece(&self, edge: Edge3x3x3) -> (r: EdgePiece3x3x3)
        ensures
            r == self@.edges[edge.spec_index()],
    {
        self.edges[edge.index()]
    }

    /// The twists of the first seven corners as a number in base 3. The solved cube
    /// has index zero.
    pub fn corner_orientation_index(&self) -> (r: u16)
        requires
            forall|i: int| 0 <= i < 7 ==> (#[trigger] self@.corners[i]).orientation < 3,
        ensures
            r == corner_orientation_index(self@.corners),
            r < 2187,
    {
        assert(self@.corners == self.corners@);
        corners_orientation_index(&self.corners)
    }

    /// The arrangement of the corners as a number in the factorial number system.
    /// The solved cube has index zero.
    pub fn corner_permutation_index(&self) -> (r: u16)
        ensures
            r == corner_permutation_index(self@.corners),
            r < 40320,
    {
        corners_permutation_index(&self.corners)
    }

    /// The flips of the first eleven edges as a number in base 2. The solved cube
    /// has index zero.
    pub fn edge_orientation_index(&self) -> (r: u16)
        requires
            forall|i: int| 0 <= i < 11 ==> (#[trigger] self@.edges[i]).orientation < 2,
        ensures
            r == edge_orientation_index(self@.edges),
            r < 2048,
    {
        assert(self@.edges == self.edges@);
        edges_orientation_index(&self.edges)
    }

    /// The arrangement of the edges at the eight positions of the top and bottom
    /// layer as a number in the factorial number system.
    pub fn phase_2_edge_permutation_index(&self) -> (r: u16)
        ensures
            r == phase_2_edge_permutation_index(self@.edges),
            r < 40320,
    {
        edges_phase_2_permutation_index(&self.edges)
    }

    /// The set of positions that hold the four equatorial edges as a number in the
    /// combinatorial number system. It is zero when they are in the equatorial slice.
    pub fn equatorial_edge_slice_index(&self) -> (r: u16)
        requires
            equatorial_count(self@.edges, 0) == 4,
        ensures
            r == equatorial_edge_slice_index(self@.edges),
            r < 495,
    {
        assert(self@.edges == self.edges@);
        edges_equatorial_slice_index(&self.edges)
    }

    /// The arrangement of the edges at the four positions of the equatorial slice as
    /// a number in the factorial number system.
    pub fn phase_2_equatorial_edge_permutation_index(&self) -> (r: u16)
        ensures
            r == phase_2_equatorial_edge_permutation_index(self@.edges),
            r < 24,
    {
        edges_phase_2_equatorial_permutation_index(&self.edges)
    }

    /// Whether the state has what every state has that legal moves reach.
    pub fn is_valid(&self) -> (r: bool)
        ensures
            r == self@.valid(),
    {
        corners_are_valid(&self.corners) && edges_are_valid(&self.edges)
    }

    /// Whether every piece is at home, untwisted and unflipped.
    pub fn is_solved(&self) -> (r: bool)
        ensures
            r == (self@ == Pieces3x3x3::solved()),
    {
        corners_solved(&self.corners) && edges_solved(&self.edges)
    }

    /// Applies one move.
    pub fn do_move(&mut self, mv: Move)
        ensures
            final(self)@ == old(self)@.moved(mv),
    {
        turn_corners(&mut self.corners, mv);
        turn_edges(&mut self.edges, mv);
    }

    /// Turns a face by a quarter turn in the given direction. On these cubes a turn
    /// of any width is the turn of the face.
    pub fn rotate_wide(&mut self, face: CubeFace, dir: RotationDirection, _width: usize)
        ensures
            final(self)@ == old(self)@.moved(
                Move::of(
                    face,
                    if dir == RotationDirection::CW {
                        1
                    } else {
                        -1
                    },
                ),
            ),
    {
        self.rotate(face, dir);
    }

    /// Turns a face by a quarter turn in the given direction.
    pub fn rotate(&mut self, face: CubeFace, dir: RotationDirection)
        ensures
            final(self)@ == old(self)@.moved(
                Move::of(
                    face,
                    if dir == RotationDirection::CW {
                        1
                    } else {
                        -1
                    },
                ),
            ),
    {
        let rotation: i32 = match dir {
            RotationDirection::CW => 1,
            RotationDirection::CCW => -1,
        };
        match Move::from_face_and_rotation(face, rotation) {
            Some(mv) => self.do_move(mv),
            None => {},
        }
    }

    /// Applies a sequence of moves, from the first to the last.
    pub fn do_moves(&mut self, moves: &[Move])
        ensures
            final(self)@ == old(self)@.after(moves@),
    {
        let mut i: usize = 0;
        while i < moves.len()
            invariant
                i <= moves.len(),
                self@ == old(self)@.after(moves@.take(i as int)),
            decreases moves.len() - i,
        {
            proof {
                assert(moves@.take(i + 1).drop_last() =~= moves@.take(i as int));
            }
            self.do_move(moves[i]);
            i += 1;
        }
        proof {
            assert(moves@.take(moves.len() as int) =~= moves@);
        }
    }

    /// Number of stickers along an edge of the cube.
    pub fn size(&self) -> (r: usize)
        ensures
            r == 3,
    {
        3
    }

    /// Puts the cube back into the solved state.
    pub fn reset(&mut self)
        ensures
            final(self)@ == Pieces3x3x3::solved(),
    {
        self.corners = new_corners();
        self.edges = new_edges();
    }

    /// Gets this cube state in face color format.
    pub fn as_faces(&self) -> (r: Cube3x3x3Faces)
        requires
            self@.wf(),
        ensures
            r@ == self@.faces(),
    {
        let mut faces = Cube3x3x3Faces::new();
        let ghost target = self@.faces();
        proof {
            assert forall|k: int|
                0 <= k < 54 && (facelet_site(k) is Center || (facelet_site(k) is Corner
                    && facelet_site(k).corner_pos() < 0)) implies #[trigger] faces@[k]
                == target[k] by {
                lemma_facelet_of_site(k);
            }
        }
        let mut corner_idx: usize = 0;
        while corner_idx < 8
            invariant
                corner_idx <= 8,
                self@.wf(),
                target == self@.faces(),
                forall|k: int|
                    0 <= k < 54 && (facelet_site(k) is Center || (facelet_site(k) is Corner
                        && facelet_site(k).corner_pos() < corner_idx)) ==> #[trigger] faces@[k]
                        == target[k],
            decreases 8 - corner_idx,
        {
            let piece = self.corners[corner_idx];
            let ghost before = faces@;
            paint_corner(&mut faces.state, corner_idx, piece);
            proof {
                assert forall|k: int|
                    0 <= k < 54 && (facelet_site(k) is Center || (facelet_site(k) is Corner
                        && facelet_site(k).corner_pos() < corner_idx + 1)) implies #[trigger] faces@[k]
                    == target[k] by {
                    lemma_facelet_of_site(k);
                    if facelet_site(k).corner_pos() != corner_idx {
                        assert(faces@[k] == before[k]);
                    }
                }
            }
            corner_idx += 1;
        }
        let mut edge_idx: usize = 0;
        proof {
            assert forall|k: int|
                0 <= k < 54 && (facelet_site(k) is Center || facelet_site(k) is Corner || (
                facelet_site(k) is Edge && facelet_site(k).edge_pos() < 0)) implies #[trigger] faces@[k]
                == target[k] by {
                lemma_facelet_of_site(k);
            }
        }
        while edge_idx < 12
            invariant
                edge_idx <= 12,
                self@.wf(),
                target == self@.faces(),
                forall|k: int|
                    0 <= k < 54 && (facelet_site(k) is Center || facelet_site(k) is Corner || (
                    facelet_site(k) is Edge && facelet_site(k).edge_pos() < edge_idx))
                        ==> #[trigger] faces@[k] == target[k],
            decreases 12 - edge_idx,
        {
            let piece = self.edges[edge_idx];
            let ghost before = faces@;
            paint_edge(&mut faces.state, edge_idx, piece);
            proof {
                assert forall|k: int|
                    0 <= k < 54 && (facelet_site(k) is Center || facelet_site(k) is Corner || (
                    facelet_site(k) is Edge && facelet_site(k).edge_pos() < edge_idx
                        + 1)) implies #[trigger] faces@[k] == target[k] by {
                    lemma_facelet_of_site(k);
                    if facelet_site(k).edge_pos() != edge_idx {
                        assert(faces@[k] == before[k]);
                    }
                }
            }
            edge_idx += 1;
        }
        proof {
            assert forall|k: int| 0 <= k < 54 implies faces@[k] == target[k] by {
                lemma_facelet_of_site(k);
            }
            assert(faces@ =~= target);
        }
        faces
    }
}

/// Paints the three stickers of a corner position with the colors of a piece.
fn paint_corner(state: &mut [Color; 54], pos: usize, piece: CornerPiece)
    requires
        pos < 8,
        piece.orientation < 3,
    ensures
        forall|k: int|
            0 <= k < 54 ==> #[trigger] final(state)@[k] == (if facelet_site(k).corner_pos() == pos {
                corner_piece_color(piece, facelet_site(k).slot())
            } else {
                old(state)@[k]
            }),
{
    let mut i: usize = 0;
    proof {
        assert forall|k: int| 0 <= k < 54 implies facelet_site(k).slot() >= 0 by {
            lemma_facelet_of_site(k);
        }
    }
    while i < 3
        invariant
            i <= 3,
            pos < 8,
            piece.orientation < 3,
            forall|k: int|
                0 <= k < 54 ==> #[trigger] state@[k] == (if facelet_site(k).corner_pos() == pos
                    && facelet_site(k).slot() < i {
                    corner_piece_color(piece, facelet_site(k).slot())
                } else {
                    old(state)@[k]
                }),
        decreases 3 - i,
    {
        let dest = corner_facelet_index(pos, i);
        let color = corner_reference_color(piece.piece, (i + 3 - piece.orientation as usize) % 3);
        proof {
            lemma_site_of_corner_facelet(pos as int, i as int);
            assert forall|k: int| 0 <= k < 54 && k != dest implies facelet_site(k) != Site::Corner(
                pos as int,
                i as int,
            ) by {
                lemma_facelet_of_site(k);
            }
        }
        state[dest] = color;
        proof {
            assert forall|k: int| 0 <= k < 54 implies #[trigger] state@[k] == (if facelet_site(
                k,
            ).corner_pos() == pos && facelet_site(k).slot() < i + 1 {
                corner_piece_color(piece, facelet_site(k).slot())
            } else {
                old(state)@[k]
            }) by {
                lemma_facelet_of_site(k);
            }
        }
        i += 1;
    }
    proof {
        assert forall|k: int| 0 <= k < 54 implies #[trigger] state@[k] == (if facelet_site(
            k,
        ).corner_pos() == pos {
            corner_piece_color(piece, facelet_site(k).slot())
        } else {
            old(state)@[k]
        }) by {
            lemma_facelet_of_site(k);
        }
    }
}

/// Paints the two stickers of an edge position with the colors of a piece.
fn paint_edge(state: &mut [Color; 54], pos: usize, piece: EdgePiece3x3x3)
    requires
        pos < 12,
        piece.orientation < 2,
    ensures
        forall|k: int|
            0 <= k < 54 ==> #[trigger] final(state)@[k] == (if facelet_site(k).edge_pos() == pos {
                edge_piece_color(piece, facelet_site(k).slot())
            } else {
                old(state)@[k]
            }),
{
    let mut i: usize = 0;
    proof {
        assert forall|k: int| 0 <= k < 54 implies facelet_site(k).slot() >= 0 by {
            lemma_facelet_of_site(k);
        }
    }
    while i < 2
        invariant
            i <= 2,
            pos < 12,
            piece.orientation < 2,
            forall|k: int|
                0 <= k < 54 ==> #[trigger] state@[k] == (if facelet_site(k).edge_pos() == pos
                    && facelet_site(k).slot() < i {
                    edge_piece_color(piece, facelet_site(k).slot())
                } else {
                    old(state)@[k]
                }),
        decreases 2 - i,
    {
        let dest = edge_facelet_index(pos, i);
        let color = edge_reference_color(piece.piece, (i + piece.orientation as usize) % 2);
        proof {
            lemma_site_of_edge_facelet(pos as int, i as int);
            assert forall|k: int| 0 <= k < 54 && k != dest implies facelet_site(k) != Site::Edge(
                pos as int,
                i as int,
            ) by {
                lemma_facelet_of_site(k);
            }
        }
        state[dest] = color;
        proof {
            assert forall|k: int| 0 <= k < 54 implies #[trigger] state@[k] == (if facelet_site(
                k,
            ).edge_pos() == pos && facelet_site(k).slot() < i + 1 {
                edge_piece_color(piece, facelet_site(k).slot())
            } else {
                old(state)@[k]
            }) by {
                lemma_facelet_of_site(k);
            }
        }
        i += 1;
    }
    proof {
        assert forall|k: int| 0 <= k < 54 implies #[trigger] state@[k] == (if facelet_site(
            k,
        ).edge_pos() == pos {
            edge_piece_color(piece, facelet_site(k).slot())
        } else {
            old(state)@[k]
        }) by {
            lemma_facelet_of_site(k);
        }
    }
}

/// Brings to the three stickers of one corner position the colors that a row of
/// the move table takes from `before`.
fn carry_corner(state: &mut [Color; 54], before: &[Color; 54], turn: CornerTurn)
    requires
        turn.dest < 8,
        turn.source < 8,
        turn.twist < 3,
    ensures
        forall|k: int|
            0 <= k < 54 ==> #[trigger] final(state)@[k] == (if facelet_site(k).corner_pos()
                == turn.dest {
                before@[corner_facelet(
                    turn.source as int,
                    (facelet_site(k).slot() + 3 - turn.twist) % 3,
                )]
            } else {
                old(state)@[k]
            }),
{
    let mut s: usize = 0;
    proof {
        assert forall|k: int| 0 <= k < 54 implies facelet_site(k).slot() >= 0 by {
            lemma_facelet_of_site(k);
        }
    }
    while s < 3
        invariant
            s <= 3,
            turn.dest < 8,
            turn.source < 8,
            turn.twist < 3,
            forall|k: int|
                0 <= k < 54 ==> #[trigger] state@[k] == (if facelet_site(k).corner_pos()
                    == turn.dest && facelet_site(k).slot() < s {
                    before@[corner_facelet(
                        turn.source as int,
                        (facelet_site(k).slot() + 3 - turn.twist) % 3,
                    )]
                } else {
                    old(state)@[k]
                }),
        decreases 3 - s,
    {
        let dest = corner_facelet_index(turn.dest, s);
        let source = corner_facelet_index(turn.source, (s + 3 - turn.twist as usize) % 3);
        proof {
            lemma_site_of_corner_facelet(turn.dest as int, s as int);
            assert forall|k: int| 0 <= k < 54 && k != dest implies facelet_site(k) != Site::Corner(
                turn.dest as int,
                s as int,
            ) by {
                lemma_facelet_of_site(k);
            }
        }
        state[dest] = before[source];
        proof {
            assert forall|k: int| 0 <= k < 54 implies #[trigger] state@[k] == (if facelet_site(
                k,
            ).corner_pos() == turn.dest && facelet_site(k).slot() < s + 1 {
                before@[corner_facelet(
                    turn.source as int,
                    (facelet_site(k).slot() + 3 - turn.twist) % 3,
                )]
            } else {
                old(state)@[k]
            }) by {
                lemma_facelet_of_site(k);
            }
        }
        s += 1;
    }
    proof {
        assert forall|k: int| 0 <= k < 54 implies #[trigger] state@[k] == (if facelet_site(
            k,
        ).corner_pos() == turn.dest {
            before@[corner_facelet(
                turn.source as int,
                (facelet_site(k).slot() + 3 - turn.twist) % 3,
            )]
        } else {
            old(state)@[k]
        }) by {
            lemma_facelet_of_site(k);
        }
    }
}

/// Brings to the two stickers of one edge position the colors that a row of the
/// move table takes from `before`.
fn carry_edge(state: &mut [Color; 54], before: &[Color; 54], turn: EdgeTurn)
    requires
        turn.dest < 12,
        turn.source < 12,
        turn.flip < 2,
    ensures
        forall|k: int|
            0 <= k < 54 ==> #[trigger] final(state)@[k] == (if facelet_site(k).edge_pos()
                == turn.dest {
                before@[edge_facelet(turn.source as int, (facelet_site(k).slot() + turn.flip) % 2)]
            } else {
                old(state)@[k]
            }),
{
    let mut s: usize = 0;
    proof {
        assert forall|k: int| 0 <= k < 54 implies facelet_site(k).slot() >= 0 by {
            lemma_facelet_of_site(k);
        }
    }
    while s < 2
        invariant
            s <= 2,
            turn.dest < 12,
            turn.source < 12,
            turn.flip < 2,
            forall|k: int|
                0 <= k < 54 ==> #[trigger] state@[k] == (if facelet_site(k).edge_pos() == turn.dest
                    && facelet_site(k).slot() < s {
                    before@[edge_facelet(
                        turn.source as int,
                        (facelet_site(k).slot() + turn.flip) % 2,
                    )]
                } else {
                    old(state)@[k]
                }),
        decreases 2 - s,
    {
        let dest = edge_facelet_index(turn.dest, s);
        let source = edge_facelet_index(turn.source, (s + turn.flip as usize) % 2);
        proof {
            lemma_site_of_edge_facelet(turn.dest as int, s as int);
            assert forall|k: int| 0 <= k < 54 && k != dest implies facelet_site(k) != Site::Edge(
                turn.dest as int,
                s as int,
            ) by {
                lemma_facelet_of_site(k);
            }
        }
        state[dest] = before[source];
        proof {
            assert forall|k: int| 0 <= k < 54 implies #[trigger] state@[k] == (if facelet_site(
                k,
            ).edge_pos() == turn.dest && facelet_site(k).slot() < s + 1 {
                before@[edge_facelet(turn.source as int, (facelet_site(k).slot() + turn.flip) % 2)]
            } else {
                old(state)@[k]
            }) by {
                lemma_facelet_of_site(k);
            }
        }
        s += 1;
    }
    proof {
        assert forall|k: int| 0 <= k < 54 implies #[trigger] state@[k] == (if facelet_site(
            k,
        ).edge_pos() == turn.dest {
            before@[edge_facelet(turn.source as int, (facelet_site(k).slot() + turn.flip) % 2)]
        } else {
            old(state)@[k]
        }) by {
            lemma_facelet_of_site(k);
        }
    }
}

impl Cube3x3x3Faces {
    /// The solved cube.
    pub fn new() -> (r: Self)
        ensures
            r@ == solved_faces(),
    {
        let mut state = [Color::White;54];
        let mut i: usize = 0;
        while i < 9
            invariant
                i <= 9,
                forall|k: int| 0 <= k < 54 && k % 9 < i ==> state@[k] == solved_faces()[k],
            decreases 9 - i,
        {
            state[Self::face_start(CubeFace::Top) + i] = Color::White;
            state[Self::face_start(CubeFace::Front) + i] = Color::Green;
            state[Self::face_start(CubeFace::Right) + i] = Color::Red;
            state[Self::face_start(CubeFace::Back) + i] = Color::Blue;
            state[Self::face_start(CubeFace::Left) + i] = Color::Orange;
            state[Self::face_start(CubeFace::Bottom) + i] = Color::Yellow;
            i += 1;
        }
        assert(state@ =~= solved_faces());
        Cube3x3x3Faces { state }
    }

    /// Create a cube state from a color array. The array holds the faces in the
    /// order of `CubeFace`, nine stickers per face, each face from top to bottom in
    /// row major order, with columns left to right.
    pub fn from_colors(state: [Color; 54]) -> (r: Self)
        ensures
            r@ == state@,
    {
        Cube3x3x3Faces { state }
    }

    /// The colors of the stickers, face by face and row by row.
    pub fn stickers(&self) -> (r: &[Color; 54])
        ensures
            r@ == self@,
    {
        &self.state
    }

    /// Index of the first sticker of a face.
    pub fn face_start(face: CubeFace) -> (r: usize)
        ensures
            r == face.spec_index() * 9,
    {
        face.index() * 9
    }

    /// Index of a sticker within its face.
    pub fn face_offset(row: usize, col: usize) -> (r: usize)
        requires
            row * 3 + col <= usize::MAX,
        ensures
            r == row * 3 + col,
    {
        (row * 3) + col
    }

    /// Index of a sticker in the color array.
    pub fn idx(face: CubeFace, row: usize, col: usize) -> (r: usize)
        requires
            face.spec_index() * 9 + row * 3 + col <= usize::MAX,
        ensures
            r == face.spec_index() * 9 + row * 3 + col,
    {
        Self::face_start(face) + Self::face_offset(row, col)
    }

    /// The face that a sticker of the color array belongs to.
    pub fn face_for_idx(idx: usize) -> (r: CubeFace)
        requires
            idx < 54,
        ensures
            r == CubeFace::at(idx as int / 9),
    {
        match CubeFace::from_index(idx / 9) {
            Some(face) => face,
            None => CubeFace::Top,
        }
    }

    /// Gets the color for a given place on the cube. For a given `face`, the `row`
    /// and `col` represent the zero-indexed position on the face to be accessed. The
    /// place must be within the color array.
    pub fn color(&self, face: CubeFace, row: usize, col: usize) -> (r: Color)
        requires
            face.spec_index() * 9 + row * 3 + col < 54,
        ensures
            r == self@[face.spec_index() * 9 + row * 3 + col],
    {
        self.state[Self::idx(face, row, col)]
    }

    /// Gets the color of a sticker by its index in the color array.
    pub fn color_by_idx(&self, idx: usize) -> (r: Color)
        requires
            idx < 54,
        ensures
            r == self@[idx as int],
    {
        self.state[idx]
    }

    /// Gets the color of one of the three stickers of a corner position.
    pub fn corner_color(&self, corner: Corner, idx: usize) -> (r: Color)
        requires
            idx < 3,
        ensures
            r == self@[corner_facelet(corner.spec_index(), idx as int)],
    {
        self.state[corner_facelet_index(corner.index(), idx)]
    }

    /// Gets the color of one of the two stickers of an edge position.
    pub fn edge_color(&self, edge: Edge3x3x3, idx: usize) -> (r: Color)
        requires
            idx < 2,
        ensures
            r == self@[edge_facelet(edge.spec_index(), idx as int)],
    {
        self.state[edge_facelet_index(edge.index(), idx)]
    }

    /// The colors of a random state that keeps what legal moves keep: the state that
    /// the numbers lead to that are drawn as for the pieces.
    pub fn sourced_random<T: RandomSource>(rng: &mut T) -> (r: Self)
        ensures
            exists|p: Pieces3x3x3| #[trigger]
                p.valid() && state_drawn(old(rng), p, final(rng)) && r@ == p.faces(),
    {
        let pieces = Cube3x3x3::sourced_random(rng);
        let r = pieces.as_faces();
        proof {
            assert(pieces@.valid() && state_drawn(old(rng), pieces@, rng) && r@
                == pieces@.faces());
        }
        r
    }

    /// Whether every sticker has the color of the center of its face.
    pub fn is_solved(&self) -> (r: bool)
        ensures
            r == faces_uniform(self@),
    {
        let mut k: usize = 0;
        while k < 54
            invariant
                k <= 54,
                forall|j: int| 0 <= j < k ==> #[trigger] self@[j] == self@[(j / 9) * 9 + 4],
            decreases 54 - k,
        {
            if self.state[k] != self.state[(k / 9) * 9 + 4] {
                return false;
            }
            k += 1;
        }
        true
    }

    /// Applies one move: the stickers of the four corners and the four edges around
    /// the turned face travel with their pieces.
    pub fn do_move(&mut self, mv: Move)
        ensures
            final(self)@ == faces_moved(old(self)@, mv),
    {
        let before = self.state;
        let ghost face = mv.spec_face();
        let ghost f0 = face_corner(face, 0);
        let ghost f1 = face_corner(face, 1);
        let ghost f2 = face_corner(face, 2);
        let ghost f3 = face_corner(face, 3);
        let ghost e0 = face_edge(face, 0);
        let ghost e1 = face_edge(face, 1);
        let ghost e2 = face_edge(face, 2);
        let ghost e3 = face_edge(face, 3);
        proof {
            lemma_face_corners(face);
            lemma_face_edges(face);
            assert(0 <= f0 < 8 && 0 <= f1 < 8 && 0 <= f2 < 8 && 0 <= f3 < 8);
            assert(f0 != f1 && f0 != f2 && f0 != f3 && f1 != f2 && f1 != f3 && f2 != f3);
            assert(0 <= e0 < 12 && 0 <= e1 < 12 && 0 <= e2 < 12 && 0 <= e3 < 12);
            assert(e0 != e1 && e0 != e2 && e0 != e3 && e1 != e2 && e1 != e3 && e2 != e3);
        }
        let mut slot: usize = 0;
        while slot < 4
            invariant
                slot <= 4,
                face == mv.spec_face(),
                before@ == old(self)@,
                f0 == face_corner(face, 0),
                f1 == face_corner(face, 1),
                f2 == face_corner(face, 2),
                f3 == face_corner(face, 3),
                0 <= f0 < 8 && 0 <= f1 < 8 && 0 <= f2 < 8 && 0 <= f3 < 8,
                f0 != f1 && f0 != f2 && f0 != f3 && f1 != f2 && f1 != f3 && f2 != f3,
                forall|k: int|
                    0 <= k < 54 ==> #[trigger] self@[k] == (if (slot > 0 && facelet_site(
                        k,
                    ).corner_pos() == f0) || (slot > 1 && facelet_site(k).corner_pos() == f1) || (
                    slot > 2 && facelet_site(k).corner_pos() == f2) || (slot > 3 && facelet_site(
                        k,
                    ).corner_pos() == f3) {
                        before@[facelet_source(mv, k)]
                    } else {
                        before@[k]
                    }),
            decreases 4 - slot,
        {
            let turn = corner_turn(mv, slot);
            let ghost entering = self@;
            carry_corner(&mut self.state, &before, turn);
            proof {
                assert forall|k: int| 0 <= k < 54 implies #[trigger] self@[k] == (if (slot + 1 > 0
                    && facelet_site(k).corner_pos() == f0) || (slot + 1 > 1 && facelet_site(
                    k,
                ).corner_pos() == f1) || (slot + 1 > 2 && facelet_site(k).corner_pos() == f2) || (
                slot + 1 > 3 && facelet_site(k).corner_pos() == f3) {
                    before@[facelet_source(mv, k)]
                } else {
                    before@[k]
                }) by {
                    lemma_facelet_of_site(k);
                    assert(self@[k] == (if facelet_site(k).corner_pos() == turn.dest {
                        before@[corner_facelet(
                            turn.source as int,
                            (facelet_site(k).slot() + 3 - turn.twist) % 3,
                        )]
                    } else {
                        entering[k]
                    }));
                }
            }
            slot += 1;
        }
        let ghost cornered = self@;
        let mut slot: usize = 0;
        while slot < 4
            invariant
                slot <= 4,
                face == mv.spec_face(),
                before@ == old(self)@,
                e0 == face_edge(face, 0),
                e1 == face_edge(face, 1),
                e2 == face_edge(face, 2),
                e3 == face_edge(face, 3),
                0 <= e0 < 12 && 0 <= e1 < 12 && 0 <= e2 < 12 && 0 <= e3 < 12,
                e0 != e1 && e0 != e2 && e0 != e3 && e1 != e2 && e1 != e3 && e2 != e3,
                forall|k: int|
                    0 <= k < 54 ==> #[trigger] self@[k] == (if (slot > 0 && facelet_site(
                        k,
                    ).edge_pos() == e0) || (slot > 1 && facelet_site(k).edge_pos() == e1) || (slot
                        > 2 && facelet_site(k).edge_pos() == e2) || (slot > 3 && facelet_site(
                        k,
                    ).edge_pos() == e3) {
                        before@[facelet_source(mv, k)]
                    } else {
                        cornered[k]
                    }),
            decreases 4 - slot,
        {
            let turn = edge_turn(mv, slot);
            let ghost entering = self@;
            carry_edge(&mut self.state, &before, turn);
            proof {
                assert forall|k: int| 0 <= k < 54 implies #[trigger] self@[k] == (if (slot + 1 > 0
                    && facelet_site(k).edge_pos() == e0) || (slot + 1 > 1 && facelet_site(
                    k,
                ).edge_pos() == e1) || (slot + 1 > 2 && facelet_site(k).edge_pos() == e2) || (slot
                    + 1 > 3 && facelet_site(k).edge_pos() == e3) {
                    before@[facelet_source(mv, k)]
                } else {
                    cornered[k]
                }) by {
                    lemma_facelet_of_site(k);
                    assert(self@[k] == (if facelet_site(k).edge_pos() == turn.dest {
                        before@[edge_facelet(
                            turn.source as int,
                            (facelet_site(k).slot() + turn.flip) % 2,
                        )]
                    } else {
                        entering[k]
                    }));
                }
            }
            slot += 1;
        }
        proof {
            let after = faces_moved(before@, mv);
            assert forall|k: int| 0 <= k < 54 implies self@[k] == after[k] by {
                lemma_facelet_of_site(k);
            }
            assert(self@ =~= after);
        }
    }

    /// Turns a face by a quarter turn in the given direction. On these cubes a turn
    /// of any width is the turn of the face.
    pub fn rotate_wide(&mut self, face: CubeFace, dir: RotationDirection, _width: usize)
        ensures
            final(self)@ == faces_moved(
                old(self)@,
                Move::of(
                    face,
                    if dir == RotationDirection::CW {
                        1
                    } else {
                        -1
                    },
                ),
            ),
    {
        self.rotate(face, dir);
    }

    /// Turns a face by a quarter turn in the given direction.
    pub fn rotate(&mut self, face: CubeFace, dir: RotationDirection)
        ensures
            final(self)@ == faces_moved(
                old(self)@,
                Move::of(
                    face,
                    if dir == RotationDirection::CW {
                        1
                    } else {
                        -1
                    },
                ),
            ),
    {
        let rotation: i32 = match dir {
            RotationDirection::CW => 1,
            RotationDirection::CCW => -1,
        };
        match Move::from_face_and_rotation(face, rotation) {
            Some(mv) => self.do_move(mv),
            None => {},
        }
    }

    /// Applies a sequence of moves, from the first to the last.
    pub fn do_moves(&mut self, moves: &[Move])
        ensures
            final(self)@ == faces_after(old(self)@, moves@),
    {
        let mut i: usize = 0;
        while i < moves.len()
            invariant
                i <= moves.len(),
                self@ == faces_after(old(self)@, moves@.take(i as int)),
            decreases moves.len() - i,
        {
            proof {
                assert(moves@.take(i + 1).drop_last() =~= moves@.take(i as int));
            }
            self.do_move(moves[i]);
            i += 1;
        }
        proof {
            assert(moves@.take(moves.len() as int) =~= moves@);
        }
    }

    /// Number of stickers along an edge of the cube.
    pub fn size(&self) -> (r: usize)
        ensures
            r == 3,
    {
        3
    }

    /// Puts the cube back into the solved state.
    pub fn reset(&mut self)
        ensures
            final(self)@ == solved_faces(),
    {
        let solved = Self::new();
        self.state = solved.state;
    }

    /// Gets this cube state in piece format. Fails at the first corner position, or
    /// where every corner is known at the first edge position, in the order of the
    /// positions, whose stickers match no piece under any twist or flip.
    pub fn as_pieces(&self) -> (r: Result<Cube3x3x3, InvalidCubeState>)
        ensures
            match r {
                Ok(cube) => decodes_to(self@, cube@),
                Err(InvalidCubeState::UnknownCorner(corner)) => {
                    &&& !corner_decodable(self@, false, corner.spec_index())
                    &&& forall|pos: int|
                        0 <= pos < corner.spec_index() ==> #[trigger] corner_decodable(
                            self@,
                            false,
                            pos,
                        )
                },
                Err(InvalidCubeState::UnknownEdge(edge)) => {
                    &&& forall|pos: int| 0 <= pos < 8 ==> #[trigger] corner_decodable(self@, false, pos)
                    &&& !edge_decodable(self@, edge.spec_index())
                    &&& forall|pos: int|
                        0 <= pos < edge.spec_index() ==> #[trigger] edge_decodable(self@, pos)
                },
            },
    {
        let mut corners = new_corners();
        let mut corner_idx: usize = 0;
        while corner_idx < 8
            invariant
                corner_idx <= 8,
                forall|pos: int|
                    0 <= pos < corner_idx ==> corner_shows(self@, false, pos, #[trigger] corners@[pos]),
            decreases 8 - corner_idx,
        {
            let corner = match Corner::from_index(corner_idx) {
                Some(corner) => corner,
                None => Corner::URF,
            };
            let c0 = self.corner_color(corner, 0);
            let c1 = self.corner_color(corner, 1);
            let c2 = self.corner_color(corner, 2);
            match find_corner(c0, c1, c2) {
                Some(piece) => {
                    corners[corner_idx] = piece;
                },
                None => {
                    proof {
                        assert forall|piece: CornerPiece| !#[trigger] corner_shows(
                            self@,
                            false,
                            corner_idx as int,
                            piece,
                        ) by {
                            assert(!corner_has_colors(piece, c0, c1, c2));
                        }
                        assert forall|pos: int| 0 <= pos < corner_idx implies #[trigger] corner_decodable(
                            self@,
                            false,
                            pos,
                        ) by {
                            assert(corner_shows(self@, false, pos, corners@[pos]));
                        }
                    }
                    return Err(InvalidCubeState::UnknownCorner(corner));
                },
            }
            corner_idx += 1;
        }
        let mut edges = new_edges();
        let mut edge_idx: usize = 0;
        while edge_idx < 12
            invariant
                edge_idx <= 12,
                forall|pos: int|
                    0 <= pos < 8 ==> corner_shows(self@, false, pos, #[trigger] corners@[pos]),
                forall|pos: int|
                    0 <= pos < edge_idx ==> edge_shows(self@, pos, #[trigger] edges@[pos]),
            decreases 12 - edge_idx,
        {
            let edge = match Edge3x3x3::from_index(edge_idx) {
                Some(edge) => edge,
                None => Edge3x3x3::UR,
            };
            let c0 = self.edge_color(edge, 0);
            let c1 = self.edge_color(edge, 1);
            match find_edge(c0, c1) {
                Some(piece) => {
                    edges[edge_idx] = piece;
                },
                None => {
                    proof {
                        assert forall|piece: EdgePiece3x3x3| !#[trigger] edge_shows(
                            self@,
                            edge_idx as int,
                            piece,
                        ) by {
                            assert(!edge_has_colors(piece, c0, c1));
                        }
                        assert forall|pos: int| 0 <= pos < edge_idx implies #[trigger] edge_decodable(
                            self@,
                            pos,
                        ) by {
                            assert(edge_shows(self@, pos, edges@[pos]));
                        }
                        assert forall|pos: int| 0 <= pos < 8 implies #[trigger] corner_decodable(
                            self@,
                            false,
                            pos,
                        ) by {
                            assert(corner_shows(self@, false, pos, corners@[pos]));
                        }
                    }
                    return Err(InvalidCubeState::UnknownEdge(edge));
                },
            }
            edge_idx += 1;
        }
        Ok(Cube3x3x3 { corners, edges })
    }
}

/// A row or a column of a face, with the direction in which its stickers are
/// counted.
#[derive(Clone, Copy, Debug, PartialEq, Eq, Structural)]
pub enum FaceRowOrColumn {
    RowLeftToRight(CubeFace, usize),
    RowRightToLeft(CubeFace, usize),
    ColumnTopDown(CubeFace, usize),
    ColumnBottomUp(CubeFace, usize),
}

impl FaceRowOrColumn {
    /// The row and the column of the sticker with a given number in this row or
    /// column: a row from right to left and a column from the bottom up count from
    /// the far end.
    pub open spec fn place(self, idx: int) -> (int, int) {
        match self {
            FaceRowOrColumn::RowLeftToRight(_, row) => (row as int, idx),
            FaceRowOrColumn::RowRightToLeft(_, row) => (row as int, 2 - idx),
            FaceRowOrColumn::ColumnTopDown(_, col) => (idx, col as int),
            FaceRowOrColumn::ColumnBottomUp(_, col) => (2 - idx, col as int),
        }
    }

    /// The face of this row or column.
    pub open spec fn face(self) -> CubeFace {
        match self {
            FaceRowOrColumn::RowLeftToRight(face, _) => face,
            FaceRowOrColumn::RowRightToLeft(face, _) => face,
            FaceRowOrColumn::ColumnTopDown(face, _) => face,
            FaceRowOrColumn::ColumnBottomUp(face, _) => face,
        }
    }

    /// Index in the color array of the sticker with a given number in this row or
    /// column. The number counted from the far end must not be beyond the face, and
    /// the index must fit the machine's numbers.
    pub fn idx(&self, idx: usize) -> (r: usize)
        requires
            self.place(idx as int).0 >= 0,
            self.place(idx as int).1 >= 0,
            self.face().spec_index() * 9 + self.place(idx as int).0 * 3 + self.place(
                idx as int,
            ).1 <= usize::MAX,
        ensures
            r == self.face().spec_index() * 9 + self.place(idx as int).0 * 3 + self.place(
                idx as int,
            ).1,
    {
        match self {
            FaceRowOrColumn::RowLeftToRight(face, row) => Cube3x3x3Faces::idx(*face, *row, idx),
            FaceRowOrColumn::RowRightToLeft(face, row) => Cube3x3x3Faces::idx(
                *face,
                *row,
                2 - idx,
            ),
            FaceRowOrColumn::ColumnTopDown(face, col) => Cube3x3x3Faces::idx(*face, idx, *col),
            FaceRowOrColumn::ColumnBottomUp(face, col) => Cube3x3x3Faces::idx(
                *face,
                2 - idx,
                *col,
            ),
        }
    }
}

} // verus!

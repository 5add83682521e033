use crate::common::{Color, Corner, CornerPiece, CubeFace, Move};
use crate::corner::{corner_on_face, move_corner_source, move_corner_twist};
use crate::edge::{edge_on_face, move_edge_flip, move_edge_source};
use crate::edge::{Edge3x3x3, EdgePiece3x3x3};
use vstd::prelude::*;

verus! {

/// Where a sticker sits: on a center, or in a slot of a corner or edge position.
pub ghost enum Site {
    Center,
    Corner(int, int),
    Edge(int, int),
}

/// Index, in a 3x3x3 color array, of sticker `slot` of corner position `pos`. Slot 0 is the sticker on the top or bottom face, the others follow clockwise.
#[verifier::opaque]
pub open spec fn corner_facelet(pos: int, slot: int) -> int {
    if pos == 0 {
        if slot == 0 {
            8
        } else if slot == 1 {
            18
        } else {
            11
        }
    } else if pos == 1 {
        if slot == 0 {
            6
        } else if slot == 1 {
            9
        } else {
            38
        }
    } else if pos == 2 {
        if slot == 0 {
            0
        } else if slot == 1 {
            36
        } else {
            29
        }
    } else if pos == 3 {
        if slot == 0 {
            2
        } else if slot == 1 {
            27
        } else {
            20
        }
    } else if pos == 4 {
        if slot == 0 {
            47
        } else if slot == 1 {
            17
        } else {
            24
        }
    } else if pos == 5 {
        if slot == 0 {
            45
        } else if slot == 1 {
            44
        } else {
            15
        }
    } else if pos == 6 {
        if slot == 0 {
            51
        } else if slot == 1 {
            35
        } else {
            42
        }
    } else if pos == 7 {
        if slot == 0 {
            53
        } else if slot == 1 {
            26
        } else {
            33
        }
    } else {
        0
    }
}

/// Index, in a 3x3x3 color array, of sticker `slot` of edge position `pos`.
#[verifier::opaque]
pub open spec fn edge_facelet(pos: int, slot: int) -> int {
    if pos == 0 {
        if slot == 0 {
            5
        } else {
            19
        }
    } else if pos == 1 {
        if slot == 0 {
            7
        } else {
            10
        }
    } else if pos == 2 {
        if slot == 0 {
            3
        } else {
            37
        }
    } else if pos == 3 {
        if slot == 0 {
            1
        } else {
            28
        }
    } else if pos == 4 {
        if slot == 0 {
            50
        } else {
            25
        }
    } else if pos == 5 {
        if slot == 0 {
            46
        } else {
            16
        }
    } else if pos == 6 {
        if slot == 0 {
            48
        } else {
            43
        }
    } else if pos == 7 {
        if slot == 0 {
            52
        } else {
            34
        }
    } else if pos == 8 {
        if slot == 0 {
            14
        } else {
            21
        }
    } else if pos == 9 {
        if slot == 0 {
            12
        } else {
            41
        }
    } else if pos == 10 {
        if slot == 0 {
            32
        } else {
            39
        }
    } else if pos == 11 {
        if slot == 0 {
            30
        } else {
            23
        }
    } else {
        0
    }
}

/// Index, in a 2x2x2 color array, of sticker `slot` of corner position `pos`.
#[verifier::opaque]
pub open spec fn small_corner_facelet(pos: int, slot: int) -> int {
    if pos == 0 {
        if slot == 0 {
            3
        } else if slot == 1 {
            8
        } else {
            5
        }
    } else if pos == 1 {
        if slot == 0 {
            2
        } else if slot == 1 {
            4
        } else {
            17
        }
    } else if pos == 2 {
        if slot == 0 {
            0
        } else if slot == 1 {
            16
        } else {
            13
        }
    } else if pos == 3 {
        if slot == 0 {
            1
        } else if slot == 1 {
            12
        } else {
            9
        }
    } else if pos == 4 {
        if slot == 0 {
            21
        } else if slot == 1 {
            7
        } else {
            10
        }
    } else if pos == 5 {
        if slot == 0 {
            20
        } else if slot == 1 {
            19
        } else {
            6
        }
    } else if pos == 6 {
        if slot == 0 {
            22
        } else if slot == 1 {
            15
        } else {
            18
        }
    } else if pos == 7 {
        if slot == 0 {
            23
        } else if slot == 1 {
            11
        } else {
            14
        }
    } else {
        0
    }
}

/// The piece position and the slot to which sticker `k` of a 3x3x3 color array belongs.
#[verifier::opaque]
pub open spec fn facelet_site(k: int) -> Site {
    if k == 0 {
        Site::Corner(2, 0)
    } else if k == 1 {
        Site::Edge(3, 0)
    } else if k == 2 {
        Site::Corner(3, 0)
    } else if k == 3 {
        Site::Edge(2, 0)
    } else if k == 5 {
        Site::Edge(0, 0)
    } else if k == 6 {
        Site::Corner(1, 0)
    } else if k == 7 {
        Site::Edge(1, 0)
    } else if k == 8 {
        Site::Corner(0, 0)
    } else if k == 9 {
        Site::Corner(1, 1)
    } else if k == 10 {
        Site::Edge(1, 1)
    } else if k == 11 {
        Site::Corner(0, 2)
    } else if k == 12 {
        Site::Edge(9, 0)
    } else if k == 14 {
        Site::Edge(8, 0)
    } else if k == 15 {
        Site::Corner(5, 2)
    } else if k == 16 {
        Site::Edge(5, 1)
    } else if k == 17 {
        Site::Corner(4, 1)
    } else if k == 18 {
        Site::Corner(0, 1)
    } else if k == 19 {
        Site::Edge(0, 1)
    } else if k == 20 {
        Site::Corner(3, 2)
    } else if k == 21 {
        Site::Edge(8, 1)
    } else if k == 23 {
        Site::Edge(11, 1)
    } else if k == 24 {
        Site::Corner(4, 2)
    } else if k == 25 {
        Site::Edge(4, 1)
    } else if k == 26 {
        Site::Corner(7, 1)
    } else if k == 27 {
        Site::Corner(3, 1)
    } else if k == 28 {
        Site::Edge(3, 1)
    } else if k == 29 {
        Site::Corner(2, 2)
    } else if k == 30 {
        Site::Edge(11, 0)
    } else if k == 32 {
        Site::Edge(10, 0)
    } else if k == 33 {
        Site::Corner(7, 2)
    } else if k == 34 {
        Site::Edge(7, 1)
    } else if k == 35 {
        Site::Corner(6, 1)
    } else if k == 36 {
        Site::Corner(2, 1)
    } else if k == 37 {
        Site::Edge(2, 1)
    } else if k == 38 {
        Site::Corner(1, 2)
    } else if k == 39 {
        Site::Edge(10, 1)
    } else if k == 41 {
        Site::Edge(9, 1)
    } else if k == 42 {
        Site::Corner(6, 2)
    } else if k == 43 {
        Site::Edge(6, 1)
    } else if k == 44 {
        Site::Corner(5, 1)
    } else if k == 45 {
        Site::Corner(5, 0)
    } else if k == 46 {
        Site::Edge(5, 0)
    } else if k == 47 {
        Site::Corner(4, 0)
    } else if k == 48 {
        Site::Edge(6, 0)
    } else if k == 50 {
        Site::Edge(4, 0)
    } else if k == 51 {
        Site::Corner(6, 0)
    } else if k == 52 {
        Site::Edge(7, 0)
    } else if k == 53 {
        Site::Corner(7, 0)
    } else {
        Site::Center
    }
}

/// The corner position and the slot to which sticker `k` of a 2x2x2 color array belongs.
#[verifier::opaque]
pub open spec fn small_facelet_site(k: int) -> Site {
    if k == 0 {
        Site::Corner(2, 0)
    } else if k == 1 {
        Site::Corner(3, 0)
    } else if k == 2 {
        Site::Corner(1, 0)
    } else if k == 3 {
        Site::Corner(0, 0)
    } else if k == 4 {
        Site::Corner(1, 1)
    } else if k == 5 {
        Site::Corner(0, 2)
    } else if k == 6 {
        Site::Corner(5, 2)
    } else if k == 7 {
        Site::Corner(4, 1)
    } else if k == 8 {
        Site::Corner(0, 1)
    } else if k == 9 {
        Site::Corner(3, 2)
    } else if k == 10 {
        Site::Corner(4, 2)
    } else if k == 11 {
        Site::Corner(7, 1)
    } else if k == 12 {
        Site::Corner(3, 1)
    } else if k == 13 {
        Site::Corner(2, 2)
    } else if k == 14 {
        Site::Corner(7, 2)
    } else if k == 15 {
        Site::Corner(6, 1)
    } else if k == 16 {
        Site::Corner(2, 1)
    } else if k == 17 {
        Site::Corner(1, 2)
    } else if k == 18 {
        Site::Corner(6, 2)
    } else if k == 19 {
        Site::Corner(5, 1)
    } else if k == 20 {
        Site::Corner(5, 0)
    } else if k == 21 {
        Site::Corner(4, 0)
    } else if k == 22 {
        Site::Corner(6, 0)
    } else {
        Site::Corner(7, 0)
    }
}

impl Site {
    /// The corner position of a corner sticker, and -1 for another sticker.
    pub open spec fn corner_pos(self) -> int {
        match self {
            Site::Corner(pos, _) => pos,
            _ => -1,
        }
    }

    /// The edge position of an edge sticker, and -1 for another sticker.
    pub open spec fn edge_pos(self) -> int {
        match self {
            Site::Edge(pos, _) => pos,
            _ => -1,
        }
    }

    /// The slot of a corner or edge sticker, and 0 for a center.
    pub open spec fn slot(self) -> int {
        match self {
            Site::Corner(_, slot) => slot,
            Site::Edge(_, slot) => slot,
            Site::Center => 0,
        }
    }
}

/// Color, on a solved cube, of sticker `slot` of a corner.
pub open spec fn corner_color(corner: Corner, slot: int) -> Color {
    CubeFace::at(corner_facelet(corner.spec_index(), slot) / 9).spec_color()
}

/// Color, on a solved cube, of sticker `slot` of an edge.
pub open spec fn edge_color(edge: Edge3x3x3, slot: int) -> Color {
    CubeFace::at(edge_facelet(edge.spec_index(), slot) / 9).spec_color()
}

/// Color that a twisted corner piece shows in slot `slot` of the position it occupies.
pub open spec fn corner_piece_color(piece: CornerPiece, slot: int) -> Color {
    corner_color(piece.piece, (slot + 3 - piece.orientation) % 3)
}

/// Color that a flipped edge piece shows in slot `slot` of the position it occupies.
pub open spec fn edge_piece_color(piece: EdgePiece3x3x3, slot: int) -> Color {
    edge_color(piece.piece, (slot + piece.orientation) % 2)
}

/// The sticker table of the 3x3x3 corners.
pub fn corner_facelet_index(pos: usize, slot: usize) -> (r: usize)
    requires
        pos < 8,
        slot < 3,
    ensures
        r == corner_facelet(pos as int, slot as int),
        r < 54,
{
    proof {
        reveal(corner_facelet);
    }
    match pos {
        0 => match slot {
            0 => 8,
            1 => 18,
            _ => 11,
        },
        1 => match slot {
            0 => 6,
            1 => 9,
            _ => 38,
        },
        2 => match slot {
            0 => 0,
            1 => 36,
            _ => 29,
        },
        3 => match slot {
            0 => 2,
            1 => 27,
            _ => 20,
        },
        4 => match slot {
            0 => 47,
            1 => 17,
            _ => 24,
        },
        5 => match slot {
            0 => 45,
            1 => 44,
            _ => 15,
        },
        6 => match slot {
            0 => 51,
            1 => 35,
            _ => 42,
        },
        _ => match slot {
            0 => 53,
            1 => 26,
            _ => 33,
        },
    }
}

/// The sticker table of the 3x3x3 edges.
pub fn edge_facelet_index(pos: usize, slot: usize) -> (r: usize)
    requires
        pos < 12,
        slot < 2,
    ensures
        r == edge_facelet(pos as int, slot as int),
        r < 54,
{
    proof {
        reveal(edge_facelet);
    }
    match pos {
        0 => match slot {
            0 => 5,
            _ => 19,
        },
        1 => match slot {
            0 => 7,
            _ => 10,
        },
        2 => match slot {
            0 => 3,
            _ => 37,
        },
        3 => match slot {
            0 => 1,
            _ => 28,
        },
        4 => match slot {
            0 => 50,
            _ => 25,
        },
        5 => match slot {
            0 => 46,
            _ => 16,
        },
        6 => match slot {
            0 => 48,
            _ => 43,
        },
        7 => match slot {
            0 => 52,
            _ => 34,
        },
        8 => match slot {
            0 => 14,
            _ => 21,
        },
        9 => match slot {
            0 => 12,
            _ => 41,
        },
        10 => match slot {
            0 => 32,
            _ => 39,
        },
        _ => match slot {
            0 => 30,
            _ => 23,
        },
    }
}

/// The sticker table of the 2x2x2 corners.
pub fn small_corner_facelet_index(pos: usize, slot: usize) -> (r: usize)
    requires
        pos < 8,
        slot < 3,
    ensures
        r == small_corner_facelet(pos as int, slot as int),
        r < 24,
{
    proof {
        reveal(small_corner_facelet);
    }
    match pos {
        0 => match slot {
            0 => 3,
            1 => 8,
            _ => 5,
        },
        1 => match slot {
            0 => 2,
            1 => 4,
            _ => 17,
        },
        2 => match slot {
            0 => 0,
            1 => 16,
            _ => 13,
        },
        3 => match slot {
            0 => 1,
            1 => 12,
            _ => 9,
        },
        4 => match slot {
            0 => 21,
            1 => 7,
            _ => 10,
        },
        5 => match slot {
            0 => 20,
            1 => 19,
            _ => 6,
        },
        6 => match slot {
            0 => 22,
            1 => 15,
            _ => 18,
        },
        _ => match slot {
            0 => 23,
            1 => 11,
            _ => 14,
        },
    }
}

/// The reference colors of the corners.
pub fn corner_reference_color(corner: Corner, slot: usize) -> (r: Color)
    requires
        slot < 3,
    ensures
        r == corner_color(corner, slot as int),
{
    let k = corner_facelet_index(corner.index(), slot);
    match CubeFace::from_index(k / 9) {
        Some(face) => face.color(),
        None => Color::White,
    }
}

/// The reference colors of the edges.
pub fn edge_reference_color(edge: Edge3x3x3, slot: usize) -> (r: Color)
    requires
        slot < 2,
    ensures
        r == edge_color(edge, slot as int),
{
    let k = edge_facelet_index(edge.index(), slot);
    match CubeFace::from_index(k / 9) {
        Some(face) => face.color(),
        None => Color::White,
    }
}

/// A corner sticker's site is the position and slot that name it.
pub proof fn lemma_site_of_corner_facelet(pos: int, slot: int)
    requires
        0 <= pos < 8,
        0 <= slot < 3,
    ensures
        0 <= corner_facelet(pos, slot) < 54,
        facelet_site(corner_facelet(pos, slot)) == Site::Corner(pos, slot),
        0 <= small_corner_facelet(pos, slot) < 24,
        small_facelet_site(small_corner_facelet(pos, slot)) == Site::Corner(pos, slot),
        small_corner_facelet(pos, slot) / 4 == corner_facelet(pos, slot) / 9,
{
    reveal(corner_facelet);
    reveal(small_corner_facelet);
    reveal(facelet_site);
    reveal(small_facelet_site);
}

/// An edge sticker's site is the position and slot that name it.
pub proof fn lemma_site_of_edge_facelet(pos: int, slot: int)
    requires
        0 <= pos < 12,
        0 <= slot < 2,
    ensures
        0 <= edge_facelet(pos, slot) < 54,
        facelet_site(edge_facelet(pos, slot)) == Site::Edge(pos, slot),
{
    reveal(edge_facelet);
    reveal(facelet_site);
}

/// Every sticker of a 3x3x3 color array is a center or the sticker that its site names.
pub proof fn lemma_facelet_of_site(k: int)
    requires
        0 <= k < 54,
    ensures
        match facelet_site(k) {
            Site::Center => k % 9 == 4,
            Site::Corner(pos, slot) => 0 <= pos < 8 && 0 <= slot < 3 && corner_facelet(pos, slot)
                == k,
            Site::Edge(pos, slot) => 0 <= pos < 12 && 0 <= slot < 2 && edge_facelet(pos, slot)
                == k,
        },
{
    reveal(corner_facelet);
    reveal(edge_facelet);
    reveal(facelet_site);
}

/// Every sticker of a 2x2x2 color array is the corner sticker that its site names.
pub proof fn lemma_small_facelet_of_site(k: int)
    requires
        0 <= k < 24,
    ensures
        match small_facelet_site(k) {
            Site::Corner(pos, slot) => 0 <= pos < 8 && 0 <= slot < 3 && small_corner_facelet(
                pos,
                slot,
            ) == k,
            _ => false,
        },
{
    reveal(small_corner_facelet);
    reveal(small_facelet_site);
}

/// Two twisted corners that show the same three colors are the same corner with
/// the same twist.
pub proof fn lemma_corner_colors_distinct(a: CornerPiece, b: CornerPiece)
    requires
        a.orientation < 3,
        b.orientation < 3,
        corner_piece_color(a, 0) == corner_piece_color(b, 0),
        corner_piece_color(a, 1) == corner_piece_color(b, 1),
        corner_piece_color(a, 2) == corner_piece_color(b, 2),
    ensures
        a == b,
{
    reveal(corner_facelet);
}

/// Two flipped edges that show the same two colors are the same edge with the same
/// flip.
pub proof fn lemma_edge_colors_distinct(a: EdgePiece3x3x3, b: EdgePiece3x3x3)
    requires
        a.orientation < 2,
        b.orientation < 2,
        edge_piece_color(a, 0) == edge_piece_color(b, 0),
        edge_piece_color(a, 1) == edge_piece_color(b, 1),
    ensures
        a == b,
{
    reveal(edge_facelet);
}

/// Why a color array is not a cube state: the stickers at a corner or edge position
/// match no piece under any twist or flip.
#[derive(Clone, Copy, Debug, PartialEq, Eq, Structural)]
pub enum InvalidCubeState {
    UnknownCorner(Corner),
    UnknownEdge(Edge3x3x3),
}

/// Index of sticker `slot` of corner position `pos` in the color array of a 2x2x2
/// cube (`small`) or of a 3x3x3 cube.
pub open spec fn corner_sticker(small: bool, pos: int, slot: int) -> int {
    if small {
        small_corner_facelet(pos, slot)
    } else {
        corner_facelet(pos, slot)
    }
}

/// Whether the stickers at corner position `pos` are those of `piece`.
pub open spec fn corner_shows(f: Seq<Color>, small: bool, pos: int, piece: CornerPiece) -> bool {
    &&& piece.orientation < 3
    &&& f[corner_sticker(small, pos, 0)] == corner_piece_color(piece, 0)
    &&& f[corner_sticker(small, pos, 1)] == corner_piece_color(piece, 1)
    &&& f[corner_sticker(small, pos, 2)] == corner_piece_color(piece, 2)
}

/// Whether the stickers at edge position `pos` are those of `piece`.
pub open spec fn edge_shows(f: Seq<Color>, pos: int, piece: EdgePiece3x3x3) -> bool {
    &&& piece.orientation < 2
    &&& f[edge_facelet(pos, 0)] == edge_piece_color(piece, 0)
    &&& f[edge_facelet(pos, 1)] == edge_piece_color(piece, 1)
}

/// Whether the stickers at corner position `pos` are those of some corner piece.
pub open spec fn corner_decodable(f: Seq<Color>, small: bool, pos: int) -> bool {
    exists|piece: CornerPiece| #[trigger] corner_shows(f, small, pos, piece)
}

/// Whether the stickers at edge position `pos` are those of some edge piece.
pub open spec fn edge_decodable(f: Seq<Color>, pos: int) -> bool {
    exists|piece: EdgePiece3x3x3| #[trigger] edge_shows(f, pos, piece)
}

/// Whether three colors, in the order of the slots, are those of `piece`.
pub open spec fn corner_has_colors(piece: CornerPiece, c0: Color, c1: Color, c2: Color) -> bool {
    &&& piece.orientation < 3
    &&& c0 == corner_piece_color(piece, 0)
    &&& c1 == corner_piece_color(piece, 1)
    &&& c2 == corner_piece_color(piece, 2)
}

/// Whether two colors, in the order of the slots, are those of `piece`.
pub open spec fn edge_has_colors(piece: EdgePiece3x3x3, c0: Color, c1: Color) -> bool {
    &&& piece.orientation < 2
    &&& c0 == edge_piece_color(piece, 0)
    &&& c1 == edge_piece_color(piece, 1)
}

/// Finds the corner piece and the twist that show three given colors.
pub fn find_corner(c0: Color, c1: Color, c2: Color) -> (r: Option<CornerPiece>)
    ensures
        match r {
            Some(piece) => corner_has_colors(piece, c0, c1, c2),
            None => forall|piece: CornerPiece| !#[trigger] corner_has_colors(piece, c0, c1, c2),
        },
{
    let mut i: usize = 0;
    while i < 8
        invariant
            i <= 8,
            forall|piece: CornerPiece|
                piece.piece.spec_index() < i ==> !#[trigger] corner_has_colors(piece, c0, c1, c2),
        decreases 8 - i,
    {
        let corner = match Corner::from_index(i) {
            Some(corner) => corner,
            None => Corner::URF,
        };
        let r0 = corner_reference_color(corner, 0);
        let r1 = corner_reference_color(corner, 1);
        let r2 = corner_reference_color(corner, 2);
        if c0 == r0 && c1 == r1 && c2 == r2 {
            return Some(CornerPiece { piece: corner, orientation: 0 });
        } else if c1 == r0 && c2 == r1 && c0 == r2 {
            return Some(CornerPiece { piece: corner, orientation: 1 });
        } else if c2 == r0 && c0 == r1 && c1 == r2 {
            return Some(CornerPiece { piece: corner, orientation: 2 });
        }
        proof {
            assert forall|piece: CornerPiece| piece.piece.spec_index() < i + 1 implies !#[trigger] corner_has_colors(
                piece,
                c0,
                c1,
                c2,
            ) by {
                if piece.piece.spec_index() == i {
                    assert(piece.piece == corner);
                }
            }
        }
        i += 1;
    }
    None
}

/// Finds the edge piece and the flip that show two given colors.
pub fn find_edge(c0: Color, c1: Color) -> (r: Option<EdgePiece3x3x3>)
    ensures
        match r {
            Some(piece) => edge_has_colors(piece, c0, c1),
            None => forall|piece: EdgePiece3x3x3| !#[trigger] edge_has_colors(piece, c0, c1),
        },
{
    let mut i: usize = 0;
    while i < 12
        invariant
            i <= 12,
            forall|piece: EdgePiece3x3x3|
                piece.piece.spec_index() < i ==> !#[trigger] edge_has_colors(piece, c0, c1),
        decreases 12 - i,
    {
        let edge = match Edge3x3x3::from_index(i) {
            Some(edge) => edge,
            None => Edge3x3x3::UR,
        };
        let r0 = edge_reference_color(edge, 0);
        let r1 = edge_reference_color(edge, 1);
        if c0 == r0 && c1 == r1 {
            return Some(EdgePiece3x3x3 { piece: edge, orientation: 0 });
        } else if c1 == r0 && c0 == r1 {
            return Some(EdgePiece3x3x3 { piece: edge, orientation: 1 });
        }
        proof {
            assert forall|piece: EdgePiece3x3x3| piece.piece.spec_index() < i + 1 implies !#[trigger] edge_has_colors(
                piece,
                c0,
                c1,
            ) by {
                if piece.piece.spec_index() == i {
                    assert(piece.piece == edge);
                }
            }
        }
        i += 1;
    }
    None
}

/// The colors that the corners of a 2x2x2 cube show, sticker by sticker.
pub open spec fn small_faces_of(cs: Seq<CornerPiece>) -> Seq<Color> {
    Seq::new(
        24,
        |k: int|
            match small_facelet_site(k) {
                Site::Corner(pos, slot) => corner_piece_color(cs[pos], slot),
                _ => Color::White,
            },
    )
}

/// The colors that the pieces of a 3x3x3 cube show, sticker by sticker. The centers
/// show the colors of their faces.
pub open spec fn faces_of(cs: Seq<CornerPiece>, es: Seq<EdgePiece3x3x3>) -> Seq<Color> {
    Seq::new(
        54,
        |k: int|
            match facelet_site(k) {
                Site::Center => CubeFace::at(k / 9).spec_color(),
                Site::Corner(pos, slot) => corner_piece_color(cs[pos], slot),
                Site::Edge(pos, slot) => edge_piece_color(es[pos], slot),
            },
    )
}

/// The sticker of a 2x2x2 color array whose color a move brings to sticker `k`:
/// stickers travel with their pieces.
pub open spec fn small_facelet_source(mv: Move, k: int) -> int {
    match small_facelet_site(k) {
        Site::Corner(pos, slot) => if corner_on_face(mv.spec_face(), pos) {
            small_corner_facelet(
                move_corner_source(mv, pos),
                (slot + 3 - move_corner_twist(mv, pos)) % 3,
            )
        } else {
            k
        },
        _ => k,
    }
}

/// The sticker of a 3x3x3 color array whose color a move brings to sticker `k`:
/// stickers travel with their pieces.
pub open spec fn facelet_source(mv: Move, k: int) -> int {
    match facelet_site(k) {
        Site::Center => k,
        Site::Corner(pos, slot) => if corner_on_face(mv.spec_face(), pos) {
            corner_facelet(move_corner_source(mv, pos), (slot + 3 - move_corner_twist(mv, pos)) % 3)
        } else {
            k
        },
        Site::Edge(pos, slot) => if edge_on_face(mv.spec_face(), pos) {
            edge_facelet(move_edge_source(mv, pos), (slot + move_edge_flip(mv, pos)) % 2)
        } else {
            k
        },
    }
}

/// The colors of a 2x2x2 cube after a move.
pub open spec fn small_faces_moved(f: Seq<Color>, mv: Move) -> Seq<Color> {
    Seq::new(24, |k: int| f[small_facelet_source(mv, k)])
}

/// The colors of a 3x3x3 cube after a move.
pub open spec fn faces_moved(f: Seq<Color>, mv: Move) -> Seq<Color> {
    Seq::new(54, |k: int| f[facelet_source(mv, k)])
}

/// The colors of a 2x2x2 cube after a sequence of moves.
pub open spec fn small_faces_after(f: Seq<Color>, moves: Seq<Move>) -> Seq<Color>
    decreases moves.len(),
{
    if moves.len() == 0 {
        f
    } else {
        small_faces_moved(small_faces_after(f, moves.drop_last()), moves.last())
    }
}

/// The colors of a 3x3x3 cube after a sequence of moves.
pub open spec fn faces_after(f: Seq<Color>, moves: Seq<Move>) -> Seq<Color>
    decreases moves.len(),
{
    if moves.len() == 0 {
        f
    } else {
        faces_moved(faces_after(f, moves.drop_last()), moves.last())
    }
}

/// The colors of a solved 2x2x2 cube.
pub open spec fn small_solved_faces() -> Seq<Color> {
    Seq::new(24, |k: int| CubeFace::at(k / 4).spec_color())
}

/// The colors of a solved 3x3x3 cube.
pub open spec fn solved_faces() -> Seq<Color> {
    Seq::new(54, |k: int| CubeFace::at(k / 9).spec_color())
}

} // verus!

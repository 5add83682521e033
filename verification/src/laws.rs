use crate::common::{Color, CornerPiece, CubeFace, Move};
use crate::corner::{
    corner_on_face, corners_after, corners_moved, corners_turned, corners_valid, corners_wf,
    lemma_corner_after_move, lemma_corners_after_valid, lemma_corners_four_quarter_turns,
    lemma_corners_move_inverse, lemma_corners_turned_add, lemma_corners_turned_wf,
    lemma_solved_corners_valid, solved_corners,
};
use crate::cube2x2x2::small_decodes_to;
use crate::paths::{
    finishes, first_opening, first_shortest_finish, lemma_after_concat,
    lemma_solution_shows_solvable, move_limit, opens, two_phase,
};
use crate::order::lemma_make_useful_3x3x3;
use crate::prune::spec_is_phase_2_move;
use crate::solver2x2x2::{answers_2x2x2, lemma_precedes_total, spec_follows, useful_sequence};
use crate::solver3x3x3::{
    answers_3x3x3, answers_3x3x3_faces, first_two_phase, least_first_phase, shortest_two_phase,
    shortest_two_phase_faces,
};
use crate::coordinate::Coordinate;
use crate::tracking::{
    lemma_back_in_subgroup, lemma_oriented_corners_index, lemma_oriented_edges_index, lemma_permuted_corners_index,
    lemma_permuted_outer_edges, lemma_permuted_slice_edges, lemma_sliced_edges_index,
    lemma_solved_indices, lemma_subgroup_indices,
};
use crate::cube3x3x3::{centers_at_home, decodes_to, Pieces3x3x3};
use crate::facelet::{
    corner_decodable, corner_facelet, corner_piece_color, corner_shows, corner_sticker,
    edge_decodable, edge_facelet,
    edge_piece_color, edge_shows, facelet_site, facelet_source, faces_after, faces_moved,
    faces_of, lemma_corner_colors_distinct, lemma_edge_colors_distinct, lemma_facelet_of_site,
    lemma_site_of_corner_facelet, lemma_site_of_edge_facelet, lemma_small_facelet_of_site,
    small_corner_facelet, small_facelet_site, small_facelet_source, small_faces_after,
    small_faces_moved, small_faces_of, small_solved_faces, solved_faces, Site,
};
use crate::edge::{
    edge_on_face, edges_moved, edges_turned, edges_wf, lemma_edge_after_move,
    lemma_edges_after_valid, lemma_edges_four_quarter_turns, lemma_edges_move_inverse,
    lemma_edges_turned_add, lemma_edges_turned_wf, lemma_solved_edges_valid, EdgePiece3x3x3,
};
use vstd::prelude::*;

verus! {

/// Every state that a sequence of legal moves reaches from the solved 3x3x3 cube has
/// twists that add up to a multiple of 3, flips that add up to an even number, and
/// every corner and every edge at exactly one position.
pub proof fn lemma_reachable_valid_3x3x3(moves: Seq<Move>)
    ensures
        Pieces3x3x3::solved().after(moves).valid(),
{
    lemma_solved_corners_valid();
    lemma_solved_edges_valid();
    lemma_corners_after_valid(solved_corners(), moves);
    lemma_edges_after_valid(crate::edge::solved_edges(), moves);
}

/// Every state that a sequence of legal moves reaches from the solved 2x2x2 cube has
/// twists that add up to a multiple of 3 and every corner at exactly one position.
pub proof fn lemma_reachable_valid_2x2x2(moves: Seq<Move>)
    ensures
        corners_valid(corners_after(solved_corners(), moves)),
{
    lemma_solved_corners_valid();
    lemma_corners_after_valid(solved_corners(), moves);
}

/// A move followed by its inverse restores a 3x3x3 cube exactly.
pub proof fn lemma_move_inverse_3x3x3(p: Pieces3x3x3, mv: Move)
    requires
        p.wf(),
    ensures
        p.moved(mv).moved(mv.spec_inverse()) == p,
{
    lemma_corners_move_inverse(p.corners, mv);
    lemma_edges_move_inverse(p.edges, mv);
}

/// A move followed by its inverse restores a 2x2x2 cube exactly.
pub proof fn lemma_move_inverse_2x2x2(cs: Seq<CornerPiece>, mv: Move)
    requires
        corners_wf(cs),
    ensures
        corners_moved(corners_moved(cs, mv), mv.spec_inverse()) == cs,
{
    lemma_corners_move_inverse(cs, mv);
}

/// Number of times that a move has to be made to restore a cube: four times for a
/// quarter turn, twice for a half turn.
pub open spec fn move_order(mv: Move) -> nat {
    if mv.spec_rotation() == 2 {
        2
    } else {
        4
    }
}

/// The state after the same move has been made `times` times.
pub open spec fn repeated_3x3x3(p: Pieces3x3x3, mv: Move, times: nat) -> Pieces3x3x3
    decreases times,
{
    if times == 0 {
        p
    } else {
        repeated_3x3x3(p, mv, (times - 1) as nat).moved(mv)
    }
}

/// The corners after the same move has been made `times` times.
pub open spec fn repeated_2x2x2(cs: Seq<CornerPiece>, mv: Move, times: nat) -> Seq<CornerPiece>
    decreases times,
{
    if times == 0 {
        cs
    } else {
        corners_moved(repeated_2x2x2(cs, mv, (times - 1) as nat), mv)
    }
}

/// Making a move several times is turning its face by as many times its quarter
/// turns.
proof fn lemma_repeated_is_turned(p: Pieces3x3x3, mv: Move, times: nat)
    ensures
        repeated_3x3x3(p, mv, times).corners == corners_turned(
            p.corners,
            mv.spec_face(),
            times * mv.quarter_turns(),
        ),
        repeated_3x3x3(p, mv, times).edges == edges_turned(
            p.edges,
            mv.spec_face(),
            times * mv.quarter_turns(),
        ),
        repeated_2x2x2(p.corners, mv, times) == repeated_3x3x3(p, mv, times).corners,
    decreases times,
{
    if times > 0 {
        let before = (times - 1) as nat;
        lemma_repeated_is_turned(p, mv, before);
        lemma_corners_turned_add(
            p.corners,
            mv.spec_face(),
            before * mv.quarter_turns(),
            mv.quarter_turns(),
        );
        lemma_edges_turned_add(
            p.edges,
            mv.spec_face(),
            before * mv.quarter_turns(),
            mv.quarter_turns(),
        );
        assert(before * mv.quarter_turns() + mv.quarter_turns() == times * mv.quarter_turns())
            by (nonlinear_arith)
            requires
                before == times - 1,
        ;
    }
}

/// Turning a face by a multiple of four quarter turns restores the corners and the
/// edges.
proof fn lemma_full_turns(p: Pieces3x3x3, face: CubeFace, turns: nat)
    requires
        p.wf(),
    ensures
        corners_turned(p.corners, face, 4 * turns) == p.corners,
        edges_turned(p.edges, face, 4 * turns) == p.edges,
    decreases turns,
{
    if turns > 0 {
        let before = (turns - 1) as nat;
        lemma_full_turns(p, face, before);
        lemma_corners_turned_add(p.corners, face, 4 * before, 4);
        lemma_edges_turned_add(p.edges, face, 4 * before, 4);
        lemma_corners_four_quarter_turns(p.corners, face);
        lemma_edges_four_quarter_turns(p.edges, face);
    }
}

/// A quarter turn made four times, and a half turn made twice, restore a 3x3x3 cube
/// exactly.
pub proof fn lemma_move_order_3x3x3(p: Pieces3x3x3, mv: Move)
    requires
        p.wf(),
    ensures
        repeated_3x3x3(p, mv, move_order(mv)) == p,
{
    lemma_repeated_is_turned(p, mv, move_order(mv));
    if mv.spec_rotation() == 2 {
        lemma_full_turns(p, mv.spec_face(), 1);
    } else if mv.spec_rotation() == 1 {
        lemma_full_turns(p, mv.spec_face(), 1);
    } else {
        lemma_full_turns(p, mv.spec_face(), 3);
    }
}

/// A quarter turn made four times, and a half turn made twice, restore a 2x2x2 cube
/// exactly.
pub proof fn lemma_move_order_2x2x2(cs: Seq<CornerPiece>, mv: Move)
    requires
        corners_wf(cs),
    ensures
        repeated_2x2x2(cs, mv, move_order(mv)) == cs,
{
    let p = Pieces3x3x3 { corners: cs, edges: crate::edge::solved_edges() };
    lemma_solved_edges_valid();
    lemma_move_order_3x3x3(p, mv);
    lemma_repeated_is_turned(p, mv, move_order(mv));
}

/// The colors that the pieces of a 3x3x3 cube show are those of these pieces: the
/// conversion to pieces of the conversion to faces finds the pieces again.
pub proof fn lemma_faces_decode(p: Pieces3x3x3)
    requires
        p.wf(),
    ensures
        decodes_to(p.faces(), p),
{
    let f = p.faces();
    assert forall|pos: int| 0 <= pos < 8 implies corner_shows(f, false, pos, #[trigger] p.corners[pos]) by {
        lemma_site_of_corner_facelet(pos, 0);
        lemma_site_of_corner_facelet(pos, 1);
        lemma_site_of_corner_facelet(pos, 2);
    }
    assert forall|pos: int| 0 <= pos < 12 implies edge_shows(f, pos, #[trigger] p.edges[pos]) by {
        lemma_site_of_edge_facelet(pos, 0);
        lemma_site_of_edge_facelet(pos, 1);
    }
}

/// The colors that the corners of a 2x2x2 cube show are those of these corners.
pub proof fn lemma_small_faces_decode(cs: Seq<CornerPiece>)
    requires
        corners_wf(cs),
    ensures
        small_decodes_to(small_faces_of(cs), cs),
{
    let f = small_faces_of(cs);
    assert forall|pos: int| 0 <= pos < 8 implies corner_shows(f, true, pos, #[trigger] cs[pos]) by {
        lemma_site_of_corner_facelet(pos, 0);
        lemma_site_of_corner_facelet(pos, 1);
        lemma_site_of_corner_facelet(pos, 2);
    }
}

/// A 3x3x3 color array shows the pieces of at most one state.
pub proof fn lemma_decoding_unique(f: Seq<Color>, p: Pieces3x3x3, q: Pieces3x3x3)
    requires
        decodes_to(f, p),
        decodes_to(f, q),
    ensures
        p == q,
{
    assert forall|pos: int| 0 <= pos < 8 implies p.corners[pos] == q.corners[pos] by {
        assert(corner_shows(f, false, pos, p.corners[pos]));
        assert(corner_shows(f, false, pos, q.corners[pos]));
        lemma_corner_colors_distinct(p.corners[pos], q.corners[pos]);
    }
    assert forall|pos: int| 0 <= pos < 12 implies p.edges[pos] == q.edges[pos] by {
        assert(edge_shows(f, pos, p.edges[pos]));
        assert(edge_shows(f, pos, q.edges[pos]));
        lemma_edge_colors_distinct(p.edges[pos], q.edges[pos]);
    }
    assert(p.corners =~= q.corners);
    assert(p.edges =~= q.edges);
}

/// Colors that show a state show a piece at every corner and edge position.
pub proof fn lemma_shown_everywhere(f: Seq<Color>, p: Pieces3x3x3)
    requires
        decodes_to(f, p),
    ensures
        forall|pos: int| 0 <= pos < 8 ==> #[trigger] corner_decodable(f, false, pos),
        forall|pos: int| 0 <= pos < 12 ==> #[trigger] edge_decodable(f, pos),
{
    assert forall|pos: int| 0 <= pos < 8 implies #[trigger] corner_decodable(f, false, pos) by {
        assert(corner_shows(f, false, pos, p.corners[pos]));
    }
    assert forall|pos: int| 0 <= pos < 12 implies #[trigger] edge_decodable(f, pos) by {
        assert(edge_shows(f, pos, p.edges[pos]));
    }
}

/// Colors of a 2x2x2 cube that show corners show a piece at every corner position.
pub proof fn lemma_small_shown_everywhere(f: Seq<Color>, cs: Seq<CornerPiece>)
    requires
        small_decodes_to(f, cs),
    ensures
        forall|pos: int| 0 <= pos < 8 ==> #[trigger] corner_decodable(f, true, pos),
{
    assert forall|pos: int| 0 <= pos < 8 implies #[trigger] corner_decodable(f, true, pos) by {
        assert(corner_shows(f, true, pos, cs[pos]));
    }
}

/// A 2x2x2 color array shows the corners of at most one state.
pub proof fn lemma_small_decoding_unique(f: Seq<Color>, cs: Seq<CornerPiece>, ds: Seq<CornerPiece>)
    requires
        small_decodes_to(f, cs),
        small_decodes_to(f, ds),
    ensures
        cs == ds,
{
    assert forall|pos: int| 0 <= pos < 8 implies cs[pos] == ds[pos] by {
        assert(corner_shows(f, true, pos, cs[pos]));
        assert(corner_shows(f, true, pos, ds[pos]));
        lemma_corner_colors_distinct(cs[pos], ds[pos]);
    }
    assert(cs =~= ds);
}

/// Round trip from pieces: the only state that the colors of a 3x3x3 state show is
/// that state.
pub proof fn lemma_pieces_round_trip(p: Pieces3x3x3, q: Pieces3x3x3)
    requires
        p.wf(),
        decodes_to(p.faces(), q),
    ensures
        q == p,
{
    lemma_faces_decode(p);
    lemma_decoding_unique(p.faces(), p, q);
}

/// Round trip from pieces: the only corners that the colors of a 2x2x2 state show
/// are those of that state.
pub proof fn lemma_small_pieces_round_trip(cs: Seq<CornerPiece>, ds: Seq<CornerPiece>)
    requires
        corners_wf(cs),
        small_decodes_to(small_faces_of(cs), ds),
    ensures
        ds == cs,
{
    lemma_small_faces_decode(cs);
    lemma_small_decoding_unique(small_faces_of(cs), cs, ds);
}

/// Round trip from faces: a 3x3x3 color array whose centers are at home is the
/// colors of the state that it shows.
pub proof fn lemma_faces_round_trip(f: Seq<Color>, p: Pieces3x3x3)
    requires
        f.len() == 54,
        centers_at_home(f),
        decodes_to(f, p),
    ensures
        p.faces() == f,
{
    let g = p.faces();
    assert forall|k: int| 0 <= k < 54 implies g[k] == f[k] by {
        lemma_facelet_of_site(k);
        match facelet_site(k) {
            Site::Center => {
                assert(k == (k / 9) * 9 + 4);
                assert(f[(k / 9) * 9 + 4] == CubeFace::at(k / 9).spec_color());
            },
            Site::Corner(pos, slot) => {
                assert(corner_shows(f, false, pos, p.corners[pos]));
            },
            Site::Edge(pos, slot) => {
                assert(edge_shows(f, pos, p.edges[pos]));
            },
        }
    }
    assert(g =~= f);
}

/// Round trip from faces: a 2x2x2 color array is the colors of the corners that it
/// shows.
pub proof fn lemma_small_faces_round_trip(f: Seq<Color>, cs: Seq<CornerPiece>)
    requires
        f.len() == 24,
        small_decodes_to(f, cs),
    ensures
        small_faces_of(cs) == f,
{
    let g = small_faces_of(cs);
    assert forall|k: int| 0 <= k < 24 implies g[k] == f[k] by {
        lemma_small_facelet_of_site(k);
        match small_facelet_site(k) {
            Site::Corner(pos, slot) => {
                assert(corner_shows(f, true, pos, cs[pos]));
            },
            _ => {},
        }
    }
    assert(g =~= f);
}

/// The slot from which two twists in a row bring a sticker.
proof fn lemma_slot_twice(slot: int, first: int, second: int)
    requires
        0 <= slot < 3,
        0 <= first < 3,
        0 <= second < 3,
    ensures
        0 <= (slot + 3 - first) % 3 < 3,
        ((slot + 3 - first) % 3 + 3 - second) % 3 == (slot + 3 - (first + second) % 3) % 3,
        (first + second) % 3 == 0 ==> ((slot + 3 - first) % 3 + 3 - second) % 3 == slot,
{
}

/// The slot from which two flips in a row bring a sticker.
proof fn lemma_slot_flipped_twice(slot: int, first: int, second: int)
    requires
        0 <= slot < 2,
        0 <= first < 2,
        0 <= second < 2,
    ensures
        0 <= (slot + first) % 2 < 2,
        ((slot + first) % 2 + second) % 2 == (slot + (first + second) % 2) % 2,
        (first + second) % 2 == 0 ==> ((slot + first) % 2 + second) % 2 == slot,
{
}

/// The slot that a twisted piece shows after a further twist.
proof fn lemma_slot_after_twist(slot: int, o: int, t: int)
    requires
        0 <= slot < 3,
        0 <= o < 3,
        0 <= t < 3,
    ensures
        (slot + 3 - (o + t) % 3) % 3 == ((slot + 3 - t) % 3 + 3 - o) % 3,
        0 <= (slot + 3 - t) % 3 < 3,
{
}

/// The slot that a flipped piece shows after a further flip.
proof fn lemma_slot_after_flip(slot: int, o: int, t: int)
    requires
        0 <= slot < 2,
        0 <= o < 2,
        0 <= t < 2,
    ensures
        (slot + (o + t) % 2) % 2 == ((slot + t) % 2 + o) % 2,
        0 <= (slot + t) % 2 < 2,
{
}

/// The two formats of the 3x3x3 cube move alike: the colors of the state after a
/// move are the colors of the state, after the move.
pub proof fn lemma_faces_follow_pieces(p: Pieces3x3x3, mv: Move)
    requires
        p.wf(),
    ensures
        p.moved(mv).faces() == faces_moved(p.faces(), mv),
        p.moved(mv).wf(),
{
    let q = p.moved(mv);
    let f = p.faces();
    let g = faces_moved(f, mv);
    lemma_corners_turned_wf(p.corners, mv.spec_face(), mv.quarter_turns());
    lemma_edges_turned_wf(p.edges, mv.spec_face(), mv.quarter_turns());
    assert forall|k: int| 0 <= k < 54 implies q.faces()[k] == g[k] by {
        lemma_facelet_of_site(k);
        match facelet_site(k) {
            Site::Center => {},
            Site::Corner(pos, slot) => {
                lemma_corner_after_move(p.corners, mv, pos);
                if corner_on_face(mv.spec_face(), pos) {
                    let source = crate::corner::move_corner_source(mv, pos);
                    let twist = crate::corner::move_corner_twist(mv, pos);
                    let o = p.corners[source].orientation as int;
                    lemma_slot_after_twist(slot, o, twist);
                    lemma_site_of_corner_facelet(source, (slot + 3 - twist) % 3);
                    assert(q.corners[pos].orientation == (o + twist) % 3);
                }
            },
            Site::Edge(pos, slot) => {
                lemma_edge_after_move(p.edges, mv, pos);
                if edge_on_face(mv.spec_face(), pos) {
                    let source = crate::edge::move_edge_source(mv, pos);
                    let flip = crate::edge::move_edge_flip(mv, pos);
                    let o = p.edges[source].orientation as int;
                    lemma_slot_after_flip(slot, o, flip);
                    lemma_site_of_edge_facelet(source, (slot + flip) % 2);
                    assert(q.edges[pos].orientation == (o + flip) % 2);
                }
            },
        }
    }
    assert(q.faces() =~= g);
}

/// The two formats of the 2x2x2 cube move alike.
pub proof fn lemma_small_faces_follow_pieces(cs: Seq<CornerPiece>, mv: Move)
    requires
        corners_wf(cs),
    ensures
        small_faces_of(corners_moved(cs, mv)) == small_faces_moved(small_faces_of(cs), mv),
        corners_wf(corners_moved(cs, mv)),
{
    let q = corners_moved(cs, mv);
    let f = small_faces_of(cs);
    let g = small_faces_moved(f, mv);
    lemma_corners_turned_wf(cs, mv.spec_face(), mv.quarter_turns());
    assert forall|k: int| 0 <= k < 24 implies small_faces_of(q)[k] == g[k] by {
        lemma_small_facelet_of_site(k);
        match small_facelet_site(k) {
            Site::Corner(pos, slot) => {
                lemma_corner_after_move(cs, mv, pos);
                if corner_on_face(mv.spec_face(), pos) {
                    let source = crate::corner::move_corner_source(mv, pos);
                    let twist = crate::corner::move_corner_twist(mv, pos);
                    let o = cs[source].orientation as int;
                    lemma_slot_after_twist(slot, o, twist);
                    lemma_site_of_corner_facelet(source, (slot + 3 - twist) % 3);
                    assert(q[pos].orientation == (o + twist) % 3);
                }
            },
            _ => {},
        }
    }
    assert(small_faces_of(q) =~= g);
}

/// The colors of the solved pieces are the solved colors.
pub proof fn lemma_solved_faces()
    ensures
        Pieces3x3x3::solved().faces() == solved_faces(),
        small_faces_of(solved_corners()) == small_solved_faces(),
{
    let p = Pieces3x3x3::solved();
    assert forall|k: int| 0 <= k < 54 implies p.faces()[k] == solved_faces()[k] by {
        lemma_facelet_of_site(k);
    }
    assert(p.faces() =~= solved_faces());
    assert forall|k: int| 0 <= k < 24 implies small_faces_of(solved_corners())[k]
        == small_solved_faces()[k] by {
        lemma_small_facelet_of_site(k);
        match small_facelet_site(k) {
            Site::Corner(pos, slot) => {
                lemma_site_of_corner_facelet(pos, slot);
            },
            _ => {},
        }
    }
    assert(small_faces_of(solved_corners()) =~= small_solved_faces());
}

/// The colors that a sequence of moves reaches from the solved 3x3x3 colors are the
/// colors of the state that the sequence reaches from the solved pieces, and they
/// show that state and no other.
pub proof fn lemma_reachable_faces(moves: Seq<Move>)
    ensures
        faces_after(solved_faces(), moves) == Pieces3x3x3::solved().after(moves).faces(),
        decodes_to(faces_after(solved_faces(), moves), Pieces3x3x3::solved().after(moves)),
        Pieces3x3x3::solved().after(moves).wf(),
    decreases moves.len(),
{
    lemma_solved_faces();
    lemma_reachable_valid_3x3x3(moves);
    let p = Pieces3x3x3::solved();
    if moves.len() > 0 {
        lemma_reachable_faces(moves.drop_last());
        lemma_reachable_valid_3x3x3(moves.drop_last());
        let before = p.after(moves.drop_last());
        assert(p.after(moves) == before.moved(moves.last()));
        lemma_faces_follow_pieces(before, moves.last());
    }
    lemma_faces_decode(p.after(moves));
}

/// The colors that a sequence of moves reaches from the solved 2x2x2 colors are the
/// colors of the corners that the sequence reaches from the solved corners, and they
/// show these corners and no others.
pub proof fn lemma_small_reachable_faces(moves: Seq<Move>)
    ensures
        small_faces_after(small_solved_faces(), moves) == small_faces_of(
            corners_after(solved_corners(), moves),
        ),
        small_decodes_to(
            small_faces_after(small_solved_faces(), moves),
            corners_after(solved_corners(), moves),
        ),
        corners_wf(corners_after(solved_corners(), moves)),
    decreases moves.len(),
{
    lemma_solved_faces();
    lemma_reachable_valid_2x2x2(moves);
    if moves.len() > 0 {
        lemma_small_reachable_faces(moves.drop_last());
        lemma_reachable_valid_2x2x2(moves.drop_last());
        lemma_small_faces_follow_pieces(
            corners_after(solved_corners(), moves.drop_last()),
            moves.last(),
        );
    }
    lemma_small_faces_decode(corners_after(solved_corners(), moves));
}

/// A move brings to a sticker of the 3x3x3 cube the color that its inverse took
/// from there.
pub proof fn lemma_facelet_source_inverse(mv: Move, k: int)
    requires
        0 <= k < 54,
    ensures
        0 <= facelet_source(mv.spec_inverse(), k) < 54,
        facelet_source(mv, facelet_source(mv.spec_inverse(), k)) == k,
{
    let inv = mv.spec_inverse();
    assert(inv.spec_face() == mv.spec_face());
    lemma_facelet_of_site(k);
    match facelet_site(k) {
        Site::Center => {},
        Site::Corner(pos, slot) => {
            crate::corner::lemma_corner_source_inverse(mv, pos);
            if corner_on_face(mv.spec_face(), pos) {
                let p1 = crate::corner::move_corner_source(inv, pos);
                let t1 = crate::corner::move_corner_twist(inv, pos);
                let s1 = (slot + 3 - t1) % 3;
                let t2 = crate::corner::move_corner_twist(mv, p1);
                lemma_slot_twice(slot, t1, t2);
                lemma_site_of_corner_facelet(p1, s1);
            }
        },
        Site::Edge(pos, slot) => {
            crate::edge::lemma_edge_source_inverse(mv, pos);
            if edge_on_face(mv.spec_face(), pos) {
                let p1 = crate::edge::move_edge_source(inv, pos);
                let t1 = crate::edge::move_edge_flip(inv, pos);
                let s1 = (slot + t1) % 2;
                let t2 = crate::edge::move_edge_flip(mv, p1);
                lemma_slot_flipped_twice(slot, t1, t2);
                lemma_site_of_edge_facelet(p1, s1);
            }
        },
    }
}

/// A move brings to a sticker of the 2x2x2 cube the color that its inverse took
/// from there.
pub proof fn lemma_small_facelet_source_inverse(mv: Move, k: int)
    requires
        0 <= k < 24,
    ensures
        0 <= small_facelet_source(mv.spec_inverse(), k) < 24,
        small_facelet_source(mv, small_facelet_source(mv.spec_inverse(), k)) == k,
{
    let inv = mv.spec_inverse();
    assert(inv.spec_face() == mv.spec_face());
    lemma_small_facelet_of_site(k);
    match small_facelet_site(k) {
        Site::Corner(pos, slot) => {
            crate::corner::lemma_corner_source_inverse(mv, pos);
            if corner_on_face(mv.spec_face(), pos) {
                let p1 = crate::corner::move_corner_source(inv, pos);
                let t1 = crate::corner::move_corner_twist(inv, pos);
                let s1 = (slot + 3 - t1) % 3;
                let t2 = crate::corner::move_corner_twist(mv, p1);
                lemma_slot_twice(slot, t1, t2);
                lemma_site_of_corner_facelet(p1, s1);
            }
        },
        _ => {},
    }
}

/// A move followed by its inverse restores the colors of a 3x3x3 cube exactly,
/// whatever the colors are.
pub proof fn lemma_faces_move_inverse(f: Seq<Color>, mv: Move)
    requires
        f.len() == 54,
    ensures
        faces_moved(faces_moved(f, mv), mv.spec_inverse()) == f,
{
    let g = faces_moved(faces_moved(f, mv), mv.spec_inverse());
    assert forall|k: int| 0 <= k < 54 implies g[k] == f[k] by {
        lemma_facelet_source_inverse(mv, k);
    }
    assert(g =~= f);
}

/// A move followed by its inverse restores the colors of a 2x2x2 cube exactly,
/// whatever the colors are.
pub proof fn lemma_small_faces_move_inverse(f: Seq<Color>, mv: Move)
    requires
        f.len() == 24,
    ensures
        small_faces_moved(small_faces_moved(f, mv), mv.spec_inverse()) == f,
{
    let g = small_faces_moved(small_faces_moved(f, mv), mv.spec_inverse());
    assert forall|k: int| 0 <= k < 24 implies g[k] == f[k] by {
        lemma_small_facelet_source_inverse(mv, k);
    }
    assert(g =~= f);
}

/// The colors of a 3x3x3 cube after the same move has been made `times` times.
pub open spec fn repeated_faces(f: Seq<Color>, mv: Move, times: nat) -> Seq<Color>
    decreases times,
{
    if times == 0 {
        f
    } else {
        faces_moved(repeated_faces(f, mv, (times - 1) as nat), mv)
    }
}

/// The colors of a 2x2x2 cube after the same move has been made `times` times.
pub open spec fn repeated_small_faces(f: Seq<Color>, mv: Move, times: nat) -> Seq<Color>
    decreases times,
{
    if times == 0 {
        f
    } else {
        small_faces_moved(repeated_small_faces(f, mv, (times - 1) as nat), mv)
    }
}

/// A quarter turn made twice is the half turn of the same face, on the colors of a
/// 3x3x3 cube.
pub proof fn lemma_faces_quarter_twice(f: Seq<Color>, mv: Move)
    requires
        f.len() == 54,
        mv.spec_rotation() != 2,
    ensures
        faces_moved(faces_moved(f, mv), mv) == faces_moved(f, Move::of(mv.spec_face(), 2)),
{
    let half = Move::of(mv.spec_face(), 2);
    assert(half.spec_face() == mv.spec_face());
    let g = faces_moved(faces_moved(f, mv), mv);
    let h = faces_moved(f, half);
    assert forall|k: int| 0 <= k < 54 implies g[k] == h[k] by {
        lemma_facelet_of_site(k);
        match facelet_site(k) {
            Site::Center => {},
            Site::Corner(pos, slot) => {
                crate::corner::lemma_corner_source_twice(mv, pos);
                if corner_on_face(mv.spec_face(), pos) {
                    let p1 = crate::corner::move_corner_source(mv, pos);
                    let t1 = crate::corner::move_corner_twist(mv, pos);
                    let s1 = (slot + 3 - t1) % 3;
                    let t2 = crate::corner::move_corner_twist(mv, p1);
                    lemma_slot_twice(slot, t1, t2);
                    lemma_site_of_corner_facelet(p1, s1);
                }
            },
            Site::Edge(pos, slot) => {
                crate::edge::lemma_edge_source_twice(mv, pos);
                if edge_on_face(mv.spec_face(), pos) {
                    let p1 = crate::edge::move_edge_source(mv, pos);
                    let t1 = crate::edge::move_edge_flip(mv, pos);
                    let s1 = (slot + t1) % 2;
                    let t2 = crate::edge::move_edge_flip(mv, p1);
                    lemma_slot_flipped_twice(slot, t1, t2);
                    lemma_site_of_edge_facelet(p1, s1);
                }
            },
        }
    }
    assert(g =~= h);
}

/// A quarter turn made twice is the half turn of the same face, on the colors of a
/// 2x2x2 cube.
pub proof fn lemma_small_faces_quarter_twice(f: Seq<Color>, mv: Move)
    requires
        f.len() == 24,
        mv.spec_rotation() != 2,
    ensures
        small_faces_moved(small_faces_moved(f, mv), mv) == small_faces_moved(
            f,
            Move::of(mv.spec_face(), 2),
        ),
{
    let half = Move::of(mv.spec_face(), 2);
    assert(half.spec_face() == mv.spec_face());
    let g = small_faces_moved(small_faces_moved(f, mv), mv);
    let h = small_faces_moved(f, half);
    assert forall|k: int| 0 <= k < 24 implies g[k] == h[k] by {
        lemma_small_facelet_of_site(k);
        match small_facelet_site(k) {
            Site::Corner(pos, slot) => {
                crate::corner::lemma_corner_source_twice(mv, pos);
                if corner_on_face(mv.spec_face(), pos) {
                    let p1 = crate::corner::move_corner_source(mv, pos);
                    let t1 = crate::corner::move_corner_twist(mv, pos);
                    let s1 = (slot + 3 - t1) % 3;
                    let t2 = crate::corner::move_corner_twist(mv, p1);
                    lemma_slot_twice(slot, t1, t2);
                    lemma_site_of_corner_facelet(p1, s1);
                }
            },
            _ => {},
        }
    }
    assert(g =~= h);
}

/// A quarter turn made four times, and a half turn made twice, restore the colors
/// of a 3x3x3 cube exactly, whatever the colors are.
pub proof fn lemma_faces_move_order(f: Seq<Color>, mv: Move)
    requires
        f.len() == 54,
    ensures
        repeated_faces(f, mv, move_order(mv)) == f,
{
    reveal_with_fuel(repeated_faces, 5);
    if mv.spec_rotation() == 2 {
        assert(mv.spec_inverse() == mv);
        lemma_faces_move_inverse(f, mv);
    } else {
        let half = Move::of(mv.spec_face(), 2);
        assert(half.spec_inverse() == half);
        lemma_faces_quarter_twice(f, mv);
        lemma_faces_quarter_twice(faces_moved(f, half), mv);
        lemma_faces_move_inverse(f, half);
    }
}

/// A quarter turn made four times, and a half turn made twice, restore the colors
/// of a 2x2x2 cube exactly, whatever the colors are.
pub proof fn lemma_small_faces_move_order(f: Seq<Color>, mv: Move)
    requires
        f.len() == 24,
    ensures
        repeated_small_faces(f, mv, move_order(mv)) == f,
{
    reveal_with_fuel(repeated_small_faces, 5);
    if mv.spec_rotation() == 2 {
        assert(mv.spec_inverse() == mv);
        lemma_small_faces_move_inverse(f, mv);
    } else {
        let half = Move::of(mv.spec_face(), 2);
        assert(half.spec_inverse() == half);
        lemma_small_faces_quarter_twice(f, mv);
        lemma_small_faces_quarter_twice(small_faces_moved(f, half), mv);
        lemma_small_faces_move_inverse(f, half);
    }
}

/// The two formats of the 3x3x3 cube move alike through every sequence of moves.
pub proof fn lemma_faces_after_pieces(p: Pieces3x3x3, moves: Seq<Move>)
    requires
        p.wf(),
    ensures
        faces_after(p.faces(), moves) == p.after(moves).faces(),
        p.after(moves).wf(),
    decreases moves.len(),
{
    if moves.len() > 0 {
        lemma_faces_after_pieces(p, moves.drop_last());
        let before = p.after(moves.drop_last());
        assert(p.after(moves) == before.moved(moves.last()));
        lemma_faces_follow_pieces(before, moves.last());
    } else {
        assert(p.after(moves) == p);
    }
}

/// The two formats of the 2x2x2 cube move alike through every sequence of moves.
pub proof fn lemma_small_faces_after_pieces(cs: Seq<CornerPiece>, moves: Seq<Move>)
    requires
        corners_wf(cs),
    ensures
        small_faces_after(small_faces_of(cs), moves) == small_faces_of(corners_after(cs, moves)),
        corners_wf(corners_after(cs, moves)),
    decreases moves.len(),
{
    if moves.len() > 0 {
        lemma_small_faces_after_pieces(cs, moves.drop_last());
        lemma_small_faces_follow_pieces(corners_after(cs, moves.drop_last()), moves.last());
    }
}

/// A sequence of moves that solves the pieces which a 3x3x3 color array shows
/// brings the colors, where the centers are at home, to the solved colors.
pub proof fn lemma_solution_solves_faces(f: Seq<Color>, p: Pieces3x3x3, moves: Seq<Move>)
    requires
        f.len() == 54,
        centers_at_home(f),
        decodes_to(f, p),
        p.after(moves) == Pieces3x3x3::solved(),
    ensures
        faces_after(f, moves) == solved_faces(),
{
    lemma_faces_round_trip(f, p);
    assert(p.wf()) by {
        assert forall|i: int| 0 <= i < 8 implies (#[trigger] p.corners[i]).orientation < 3 by {
            assert(corner_shows(f, false, i, p.corners[i]));
        }
        assert forall|i: int| 0 <= i < 12 implies (#[trigger] p.edges[i]).orientation < 2 by {
            assert(edge_shows(f, i, p.edges[i]));
        }
    }
    lemma_faces_after_pieces(p, moves);
    lemma_solved_faces();
}

/// A sequence of moves that solves the corners which a 2x2x2 color array shows
/// brings the colors to the solved colors.
pub proof fn lemma_solution_solves_small_faces(
    f: Seq<Color>,
    cs: Seq<CornerPiece>,
    moves: Seq<Move>,
)
    requires
        f.len() == 24,
        small_decodes_to(f, cs),
        corners_after(cs, moves) == solved_corners(),
    ensures
        small_faces_after(f, moves) == small_solved_faces(),
{
    lemma_small_faces_round_trip(f, cs);
    assert(corners_wf(cs)) by {
        assert forall|i: int| 0 <= i < 8 implies (#[trigger] cs[i]).orientation < 3 by {
            assert(corner_shows(f, true, i, cs[i]));
        }
    }
    lemma_small_faces_after_pieces(cs, moves);
    lemma_solved_faces();
}

/// Two answers of the solver of the 2x2x2 cube to the same state are the same: both
/// are the same moves, the shortest solution to which the search comes first, or
/// both are none. So the fast search answers as the search for a shortest solution
/// does, move for move.
pub proof fn lemma_answers_agree_2x2x2(
    cs: Seq<CornerPiece>,
    first: Option<Vec<Move>>,
    second: Option<Vec<Move>>,
)
    requires
        answers_2x2x2(cs, first),
        answers_2x2x2(cs, second),
    ensures
        first is Some <==> second is Some,
        first matches Some(a) ==> second matches Some(b) && a@ == b@ && corners_after(cs, a@)
            == solved_corners(),
{
    match (first, second) {
        (Some(a), Some(b)) => {
            assert(corners_after(cs, a@) == solved_corners());
            assert(corners_after(cs, b@) == solved_corners());
            assert(a@.len() == b@.len());
            if a@ != b@ {
                lemma_precedes_total(a@, b@);
            }
        },
        (Some(a), None) => {
            assert(corners_after(cs, a@) == solved_corners());
        },
        (None, Some(b)) => {
            assert(corners_after(cs, b@) == solved_corners());
        },
        (None, None) => {},
    }
}

/// The search for a shortest solution of the 3x3x3 cube never answers with more
/// moves than the fast search: both find a solution or none does, each solution
/// solves the state, and the answer of the search for a shortest solution has no
/// more moves than that of the fast search.
pub proof fn lemma_optimal_and_fast_3x3x3(
    cube: Pieces3x3x3,
    best: Option<Vec<Move>>,
    fast: Option<Vec<Move>>,
)
    requires
        answers_3x3x3(cube, best),
        shortest_two_phase(cube, best),
        answers_3x3x3(cube, fast),
    ensures
        best is Some <==> fast is Some,
        best matches Some(a) ==> fast matches Some(b) && a@.len() <= b@.len() && cube.after(a@)
            == Pieces3x3x3::solved() && cube.after(b@) == Pieces3x3x3::solved(),
{
    match (best, fast) {
        (Some(a), Some(b)) => {
            if cube != Pieces3x3x3::solved() {
                let (ps, qs) = choose|ps: Seq<Move>, qs: Seq<Move>| #[trigger]
                    two_phase(cube, Seq::empty(), ps, qs) && ps.len() <= 12 && ps.len()
                        + qs.len() <= move_limit() && b@ == ps + qs;
                assert(two_phase(cube, Seq::empty(), ps, qs) && ps.len() <= 12);
            }
        },
        (Some(a), None) => {
            if cube != Pieces3x3x3::solved() {
                lemma_solution_shows_solvable(cube, a@);
            }
        },
        (None, Some(b)) => {
            if cube != Pieces3x3x3::solved() {
                lemma_solution_shows_solvable(cube, b@);
            }
        },
        (None, None) => {},
    }
}

/// The same of the answers to the colors of a cube: the search for a shortest
/// solution never answers with more moves than the fast search.
pub proof fn lemma_optimal_and_fast_faces(
    f: Seq<Color>,
    best: Option<Vec<Move>>,
    fast: Option<Vec<Move>>,
)
    requires
        answers_3x3x3_faces(f, best),
        shortest_two_phase_faces(f, best),
        answers_3x3x3_faces(f, fast),
    ensures
        best is Some <==> fast is Some,
        best matches Some(a) ==> fast matches Some(b) && a@.len() <= b@.len(),
{
    if best is Some {
        let p = choose|p: Pieces3x3x3| #[trigger] decodes_to(f, p) && answers_3x3x3(p, best);
        if fast is Some {
            let q = choose|q: Pieces3x3x3| #[trigger] decodes_to(f, q) && answers_3x3x3(q, fast);
            lemma_decoding_unique(f, p, q);
        }
        lemma_optimal_and_fast_3x3x3(p, best, fast);
    } else if fast is Some {
        let q = choose|q: Pieces3x3x3| #[trigger] decodes_to(f, q) && answers_3x3x3(q, fast);
        lemma_optimal_and_fast_3x3x3(q, best, fast);
    }
}

/// Number of the moves of a sequence up to the last that is no move of the second
/// phase: the moves that a two-phase path must make in its first phase.
pub open spec fn first_phase_length(t: Seq<Move>) -> int
    decreases t.len(),
{
    if t.len() == 0 {
        0
    } else if !spec_is_phase_2_move(t.last()) {
        t.len() as int
    } else {
        first_phase_length(t.drop_last())
    }
}

/// The moves after the first phase of a sequence are moves of the second phase, and
/// the last move of the first phase is none.
pub proof fn lemma_first_phase_length(t: Seq<Move>)
    ensures
        0 <= first_phase_length(t) <= t.len(),
        first_phase_length(t) > 0 ==> !spec_is_phase_2_move(t[first_phase_length(t) - 1]),
        forall|i: int| first_phase_length(t) <= i < t.len() ==> spec_is_phase_2_move(#[trigger] t[i]),
    decreases t.len(),
{
    if t.len() > 0 && spec_is_phase_2_move(t.last()) {
        let head = t.drop_last();
        lemma_first_phase_length(head);
        let k = first_phase_length(head);
        assert forall|i: int| k <= i < t.len() implies spec_is_phase_2_move(#[trigger] t[i]) by {
            if i < head.len() {
                assert(t[i] == head[i]);
            }
        }
        if k > 0 {
            assert(t[k - 1] == head[k - 1]);
        }
    }
}

/// A sequence without wasted moves that solves a state within the limit of moves is
/// a two-phase path: its first phase ends with its last move that is no move of the
/// second phase.
pub proof fn lemma_split_is_two_phase(cube: Pieces3x3x3, t: Seq<Move>)
    requires
        cube.valid(),
        useful_sequence(t),
        cube.after(t) == Pieces3x3x3::solved(),
        t.len() <= move_limit(),
    ensures
        two_phase(
            cube,
            Seq::empty(),
            t.take(first_phase_length(t)),
            t.skip(first_phase_length(t)),
        ),
{
    lemma_first_phase_length(t);
    let k = first_phase_length(t);
    let ps = t.take(k);
    let qs = t.skip(k);
    assert(t =~= ps + qs);
    lemma_after_concat(cube, ps, qs);
    let x = cube.after(ps);
    lemma_corners_after_valid(cube.corners, ps);
    lemma_edges_after_valid(cube.edges, ps);
    lemma_solved_indices();
    assert forall|i: int| 0 <= i < qs.len() implies spec_is_phase_2_move(#[trigger] qs[i]) by {
        assert(qs[i] == t[k + i]);
    }
    lemma_back_in_subgroup(x, qs);
    lemma_subgroup_indices(x);
    assert forall|i: int| 0 <= i && i + 1 < ps.len() implies spec_follows(
        #[trigger] ps[i],
        ps[i + 1],
    ) by {
        assert(spec_follows(t[i], t[i + 1]));
    }
    assert forall|i: int| 0 <= i && i + 1 < qs.len() implies spec_follows(
        #[trigger] qs[i],
        qs[i + 1],
    ) by {
        assert(spec_follows(t[k + i], t[k + i + 1]));
    }
    assert(Seq::<Move>::empty() + ps =~= ps);
    if qs.len() > 0 && ps.len() > 0 {
        assert(spec_follows(t[k - 1], t[k]));
        assert(ps.last() == t[k - 1]);
        assert(qs[0] == t[k]);
    }
    if ps.len() > 0 {
        assert(ps.last() == t[k - 1]);
    }
}

/// The solver has an answer wherever a sequence solves the state that has no wasted
/// move, is within the limit of moves and makes at most 12 moves up to its last
/// that is no move of the second phase.
pub proof fn lemma_answer_exists_3x3x3(cube: Pieces3x3x3, r: Option<Vec<Move>>, t: Seq<Move>)
    requires
        answers_3x3x3(cube, r),
        cube.valid(),
        useful_sequence(t),
        cube.after(t) == Pieces3x3x3::solved(),
        t.len() <= move_limit(),
        first_phase_length(t) <= 12,
    ensures
        r is Some,
{
    lemma_first_phase_length(t);
    lemma_split_is_two_phase(cube, t);
    let k = first_phase_length(t);
    assert(two_phase(cube, Seq::empty(), t.take(k), t.skip(k)) && t.take(k).len() <= 12
        && t.take(k).len() + t.skip(k).len() <= move_limit());
    if cube == Pieces3x3x3::solved() {
    }
}

/// The answer of the search for a shortest solution has no more moves than any
/// sequence that solves the state, has no wasted move and makes at most 12 moves up
/// to its last that is no move of the second phase.
pub proof fn lemma_shortest_without_wasted_moves(
    cube: Pieces3x3x3,
    best: Vec<Move>,
    t: Seq<Move>,
)
    requires
        answers_3x3x3(cube, Some(best)),
        shortest_two_phase(cube, Some(best)),
        useful_sequence(t),
        cube.after(t) == Pieces3x3x3::solved(),
        first_phase_length(t) <= 12,
    ensures
        best@.len() <= t.len(),
{
    if t.len() <= move_limit() {
        lemma_first_phase_length(t);
        lemma_split_is_two_phase(cube, t);
        let k = first_phase_length(t);
        assert(two_phase(cube, Seq::empty(), t.take(k), t.skip(k)) && t.take(k).len() <= 12);
    }
}

/// The solver, in either mode, has an answer for every state that legal moves can
/// reach and that some sequence of at most 12 moves solves.
pub proof fn lemma_answer_exists_within_12(
    cube: Pieces3x3x3,
    r: Option<Vec<Move>>,
    short: Seq<Move>,
)
    requires
        answers_3x3x3(cube, r),
        cube.valid(),
        cube.after(short) == Pieces3x3x3::solved(),
        short.len() <= 12,
    ensures
        r is Some,
{
    let useful = lemma_make_useful_3x3x3(cube, short);
    lemma_first_phase_length(useful);
    lemma_answer_exists_3x3x3(cube, r, useful);
}

/// Wherever some sequence of at most 12 moves solves a state, the answer of the
/// search for a shortest solution is shortest of all: no sequence of moves that
/// solves the state, whatever its moves, has fewer moves.
pub proof fn lemma_globally_shortest_within_12(
    cube: Pieces3x3x3,
    best: Vec<Move>,
    short: Seq<Move>,
    t: Seq<Move>,
)
    requires
        answers_3x3x3(cube, Some(best)),
        shortest_two_phase(cube, Some(best)),
        cube.after(short) == Pieces3x3x3::solved(),
        short.len() <= 12,
        cube.after(t) == Pieces3x3x3::solved(),
    ensures
        best@.len() <= t.len(),
{
    let useful = lemma_make_useful_3x3x3(cube, short);
    lemma_first_phase_length(useful);
    lemma_shortest_without_wasted_moves(cube, best, useful);
    if t.len() <= 12 {
        let other = lemma_make_useful_3x3x3(cube, t);
        lemma_first_phase_length(other);
        lemma_shortest_without_wasted_moves(cube, best, other);
    }
}

/// Two answers of the fast search for a solution of the 3x3x3 cube to the same
/// state are the same, move for move.
pub proof fn lemma_fast_answers_agree_3x3x3(cube: Pieces3x3x3, a: Vec<Move>, b: Vec<Move>)
    requires
        answers_3x3x3(cube, Some(a)),
        first_two_phase(cube, Some(a)),
        answers_3x3x3(cube, Some(b)),
        first_two_phase(cube, Some(b)),
    ensures
        a@ == b@,
{
    reveal(first_opening);
    reveal(first_shortest_finish);
    if cube == Pieces3x3x3::solved() {
        assert(a@ =~= b@);
    } else {
        assert(a@.len() > 0) by {
            if a@.len() == 0 {
                assert(cube.after(a@) == cube);
            }
        }
        assert(b@.len() > 0) by {
            if b@.len() == 0 {
                assert(cube.after(b@) == cube);
            }
        }
        let none = Seq::<Move>::empty();
        let (pa, qa) = choose|ps: Seq<Move>, qs: Seq<Move>|
            a@ == ps + qs && first_opening(cube, none, ps, ps.len() as int) && least_first_phase(
                cube,
                ps.len() as int,
            ) && #[trigger] first_shortest_finish(cube.after(ps), ps, qs);
        let (pb, qb) = choose|ps: Seq<Move>, qs: Seq<Move>|
            b@ == ps + qs && first_opening(cube, none, ps, ps.len() as int) && least_first_phase(
                cube,
                ps.len() as int,
            ) && #[trigger] first_shortest_finish(cube.after(ps), ps, qs);
        let wa = choose|qs: Seq<Move>| #[trigger]
            two_phase(cube, none, pa, qs) && none.len() + pa.len() + qs.len() <= move_limit();
        let wb = choose|qs: Seq<Move>| #[trigger]
            two_phase(cube, none, pb, qs) && none.len() + pb.len() + qs.len() <= move_limit();
        assert(two_phase(cube, none, pa, wa) && pa.len() + wa.len() <= move_limit());
        assert(two_phase(cube, none, pb, wb) && pb.len() + wb.len() <= move_limit());
        assert(pa.len() == pb.len());
        if pa != pb {
            lemma_precedes_total(pa, pb);
            assert(opens(cube, none, pa));
            assert(opens(cube, none, pb));
        }
        assert(finishes(cube.after(pa), pa, qa, move_limit()));
        assert(finishes(cube.after(pa), pa, qb, move_limit()));
        assert(qa.len() == qb.len());
        if qa != qb {
            lemma_precedes_total(qa, qb);
        }
    }
}

/// Every index below the count of a coordinate is the index of a state: the state
/// that the coordinate gives for it.
pub proof fn lemma_representative_index(coordinate: Coordinate, idx: int)
    requires
        0 <= idx < coordinate.spec_count(),
    ensures
        coordinate.index_of(coordinate.representative(idx)) == idx,
{
    match coordinate {
        Coordinate::CornerOrientation => {
            lemma_oriented_corners_index(idx);
        },
        Coordinate::CornerPermutation => {
            lemma_permuted_corners_index(idx);
        },
        Coordinate::EdgeOrientation => {
            lemma_oriented_edges_index(idx);
        },
        Coordinate::EquatorialEdgeSlice => {
            lemma_sliced_edges_index(idx);
        },
        Coordinate::Phase2EdgePermutation => {
            lemma_permuted_outer_edges(idx);
        },
        Coordinate::Phase2EquatorialEdgePermutation => {
            lemma_permuted_slice_edges(idx);
        },
    }
}

} // verus!

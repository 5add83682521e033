use crate::common::{CubeFace, Move};
use crate::corner::{
    lemma_corners_opposite_commute, lemma_corners_same_face, lemma_corners_turned_wf,
    merged_move,
};
use crate::cube3x3x3::Pieces3x3x3;
use crate::edge::{
    edge_on_face, edges_moved, edges_turned, edges_wf, face_edge, lemma_edge_after_move,
    lemma_edge_source_on_face, lemma_edges_four_quarter_turns, lemma_edges_turned_add,
    lemma_edges_turned_unfold, lemma_edges_turned_wf, move_edge_source, quarter_edge_source,
    EdgePiece3x3x3,
};
use crate::solver2x2x2::{spec_follows, useful_sequence};
use crate::solver3x3x3::lemma_after_push;
use vstd::prelude::*;

verus! {

/// An edge position is not around two opposite faces.
pub proof fn lemma_opposite_faces_apart_edges(face: CubeFace, pos: int)
    requires
        0 <= pos < 12,
        edge_on_face(face, pos),
    ensures
        !edge_on_face(face.spec_opposite(), pos),
{
    reveal(face_edge);
}

/// Two moves of opposite faces can be made in either order.
pub proof fn lemma_edges_opposite_commute(cs: Seq<EdgePiece3x3x3>, a: Move, b: Move)
    requires
        cs.len() == 12,
        b.spec_face() == a.spec_face().spec_opposite(),
    ensures
        edges_moved(edges_moved(cs, a), b) == edges_moved(edges_moved(cs, b), a),
{
    let ab = edges_moved(edges_moved(cs, a), b);
    let ba = edges_moved(edges_moved(cs, b), a);
    lemma_edge_after_move(cs, a, 0);
    lemma_edge_after_move(cs, b, 0);
    lemma_edge_after_move(edges_moved(cs, a), b, 0);
    lemma_edge_after_move(edges_moved(cs, b), a, 0);
    assert forall|pos: int| 0 <= pos < 12 implies ab[pos] == ba[pos] by {
        lemma_edge_after_move(cs, a, pos);
        lemma_edge_after_move(cs, b, pos);
        lemma_edge_after_move(edges_moved(cs, a), b, pos);
        lemma_edge_after_move(edges_moved(cs, b), a, pos);
        if edge_on_face(a.spec_face(), pos) {
            lemma_opposite_faces_apart_edges(a.spec_face(), pos);
            let source = move_edge_source(a, pos);
            lemma_edge_move_source_on_face(a, pos);
            lemma_opposite_faces_apart_edges(a.spec_face(), source);
            lemma_edge_after_move(cs, b, source);
        } else if edge_on_face(b.spec_face(), pos) {
            lemma_opposite_faces_apart_edges(b.spec_face(), pos);
            let source = move_edge_source(b, pos);
            lemma_edge_move_source_on_face(b, pos);
            lemma_opposite_faces_apart_edges(b.spec_face(), source);
            lemma_edge_after_move(cs, a, source);
        }
    }
    assert(ab =~= ba);
}

/// A move brings to an edge of its face an edge of its face.
pub proof fn lemma_edge_move_source_on_face(mv: Move, pos: int)
    requires
        0 <= pos < 12,
        edge_on_face(mv.spec_face(), pos),
    ensures
        0 <= move_edge_source(mv, pos) < 12,
        edge_on_face(mv.spec_face(), move_edge_source(mv, pos)),
{
    let face = mv.spec_face();
    let once = quarter_edge_source(face, pos);
    let twice = quarter_edge_source(face, once);
    lemma_edge_source_on_face(face, pos);
    lemma_edge_source_on_face(face, once);
    lemma_edge_source_on_face(face, twice);
}

/// Four more quarter turns change nothing.
pub proof fn lemma_edges_turned_round(cs: Seq<EdgePiece3x3x3>, face: CubeFace, quarters: nat)
    requires
        edges_wf(cs),
    ensures
        edges_turned(cs, face, quarters + 4) == edges_turned(cs, face, quarters),
{
    lemma_edges_four_quarter_turns(cs, face);
    lemma_edges_turned_add(cs, face, 4, quarters);
}

/// Two moves of the same face are one move of that face, or none: the quarter turns
/// add up.
pub proof fn lemma_edges_same_face(cs: Seq<EdgePiece3x3x3>, a: Move, b: Move)
    requires
        edges_wf(cs),
        a.spec_face() == b.spec_face(),
    ensures
        (a.quarter_turns() + b.quarter_turns()) % 4 == 0 ==> edges_moved(
            edges_moved(cs, a),
            b,
        ) == cs,
        (a.quarter_turns() + b.quarter_turns()) % 4 != 0 ==> edges_moved(
            edges_moved(cs, a),
            b,
        ) == edges_moved(cs, merged_move(a, b)),
{
    let face = a.spec_face();
    let total = a.quarter_turns() + b.quarter_turns();
    lemma_edges_turned_add(cs, face, a.quarter_turns(), b.quarter_turns());
    if total >= 4 {
        lemma_edges_turned_round(cs, face, (total - 4) as nat);
    }
    lemma_edges_turned_unfold(cs, face, 0);
}

/// Every sequence of moves keeps eight corners with twists below 3 and twelve edges
/// with flips below 2.
pub proof fn lemma_after_wf(p: Pieces3x3x3, moves: Seq<Move>)
    requires
        p.wf(),
    ensures
        p.after(moves).wf(),
    decreases moves.len(),
{
    if moves.len() > 0 {
        lemma_after_wf(p, moves.drop_last());
        let before = p.after(moves.drop_last());
        lemma_corners_turned_wf(
            before.corners,
            moves.last().spec_face(),
            moves.last().quarter_turns(),
        );
        lemma_edges_turned_wf(before.edges, moves.last().spec_face(), moves.last().quarter_turns());
    }
}

/// A sequence without wasted moves stays one when a move follows that is of use
/// after the last.
proof fn lemma_useful_push(s: Seq<Move>, x: Move)
    requires
        useful_sequence(s),
        s.len() == 0 || spec_follows(s.last(), x),
    ensures
        useful_sequence(s.push(x)),
{
    let r = s.push(x);
    assert forall|i: int| 0 <= i && i + 1 < r.len() implies spec_follows(#[trigger] r[i], r[i + 1]) by {
        if i + 1 < s.len() {
            assert(spec_follows(s[i], s[i + 1]));
        }
    }
}

/// A sequence without wasted moves stays one without its last move.
proof fn lemma_useful_drop_last(s: Seq<Move>)
    requires
        useful_sequence(s),
        s.len() > 0,
    ensures
        useful_sequence(s.drop_last()),
        s.len() >= 2 ==> spec_follows(s.drop_last().last(), s.last()),
{
    let r = s.drop_last();
    assert forall|i: int| 0 <= i && i + 1 < r.len() implies spec_follows(#[trigger] r[i], r[i + 1]) by {
        assert(spec_follows(s[i], s[i + 1]));
    }
    if s.len() >= 2 {
        assert(spec_follows(s[s.len() - 2], s[s.len() - 1]));
    }
}

/// Adds a move to a sequence without wasted moves whose last move is of the same
/// face or lets the move follow: the result has no wasted move and the same effect.
/// It is the sequence with the move added; or, where the last move is of the same
/// face, the sequence with the last move merged with the move, or without the last
/// move where the two cancel.
proof fn lemma_append_simple(p: Pieces3x3x3, s: Seq<Move>, x: Move) -> (r: Seq<Move>)
    requires
        p.wf(),
        useful_sequence(s),
        s.len() == 0 || s.last().spec_face() == x.spec_face() || spec_follows(s.last(), x),
    ensures
        useful_sequence(r),
        r.len() <= s.len() + 1,
        p.after(r) == p.after(s).moved(x),
        (r.len() > 0 && r.last().spec_face() == x.spec_face()) || (s.len() > 0 && r
            == s.drop_last()),
{
    if s.len() == 0 || s.last().spec_face() != x.spec_face() {
        lemma_useful_push(s, x);
        lemma_after_push(p, s, x);
        s.push(x)
    } else {
        let l = s.last();
        let head = s.drop_last();
        let before = p.after(head);
        lemma_after_wf(p, head);
        lemma_useful_drop_last(s);
        lemma_corners_same_face(before.corners, l, x);
        lemma_edges_same_face(before.edges, l, x);
        assert(p.after(s) == before.moved(l));
        if (l.quarter_turns() + x.quarter_turns()) % 4 == 0 {
            assert(before.moved(l).moved(x) == before);
            head
        } else {
            let merged = merged_move(l, x);
            assert(merged.spec_face() == x.spec_face());
            assert(before.moved(l).moved(x) == before.moved(merged));
            if head.len() > 0 {
                assert(spec_follows(head.last(), l));
            }
            lemma_useful_push(head, merged);
            lemma_after_push(p, head, merged);
            head.push(merged)
        }
    }
}

/// Adds a move to a sequence without wasted moves: the result has no wasted move,
/// the same effect, and at most one move more.
proof fn lemma_append_useful(p: Pieces3x3x3, s: Seq<Move>, x: Move) -> (r: Seq<Move>)
    requires
        p.wf(),
        useful_sequence(s),
    ensures
        useful_sequence(r),
        r.len() <= s.len() + 1,
        p.after(r) == p.after(s).moved(x),
    decreases s.len(),
{
    if s.len() == 0 || s.last().spec_face() == x.spec_face() || spec_follows(s.last(), x) {
        lemma_append_simple(p, s, x)
    } else {
        let l = s.last();
        let head = s.drop_last();
        lemma_useful_drop_last(s);
        if head.len() > 0 {
            assert(spec_follows(head.last(), l));
        }
        let g = lemma_append_simple(p, head, x);
        let before = p.after(head);
        lemma_after_wf(p, head);
        lemma_corners_opposite_commute(before.corners, x, l);
        lemma_edges_opposite_commute(before.edges, x, l);
        assert(p.after(s) == before.moved(l));
        assert(before.moved(l).moved(x) == before.moved(x).moved(l));
        if g.len() > 0 && g.last().spec_face() == x.spec_face() {
            lemma_useful_push(g, l);
            lemma_after_push(p, g, l);
            g.push(l)
        } else {
            lemma_append_useful(p, g, l)
        }
    }
}

/// Every sequence of moves has a sequence without wasted moves that has the same
/// effect on a 3x3x3 cube and is not longer.
pub proof fn lemma_make_useful_3x3x3(p: Pieces3x3x3, ms: Seq<Move>) -> (r: Seq<Move>)
    requires
        p.wf(),
    ensures
        useful_sequence(r),
        r.len() <= ms.len(),
        p.after(r) == p.after(ms),
    decreases ms.len(),
{
    if ms.len() == 0 {
        ms
    } else {
        let head = lemma_make_useful_3x3x3(p, ms.drop_last());
        lemma_append_useful(p, head, ms.last())
    }
}

} // verus!

use crate::common::{Corner, CornerPiece, Move};
use crate::coordinate::{Coordinate, MoveTable};
use crate::corner::{
    corner_ids, corner_orientation_index, corner_permutation_index, corner_present, corner_twists,
    corners_bijective, corners_moved, corners_valid, holds_corner, lemma_corner_after_move,
    lemma_corners_after_valid,
    corner_twist_sum, move_corner_source, oriented_corners, permuted_corners, solved_corners,
    twist_digit_sum,
};
use crate::edge::{
    edge_flip_sum, edge_flips, edge_orientation_index, edges_moved, edges_valid,
    equatorial_at, equatorial_count, equatorial_edge_slice_index, flip_digit_sum,
    lemma_edge_after_move, lemma_edges_after_valid, move_edge_source, oriented_edges, outer_edge_ids, permuted_edges,
    phase_2_edge_permutation_index, phase_2_equatorial_edge_permutation_index, slice_arranged,
    slice_coordinate, slice_edge_ids, slice_rank_from, sliced_edges, solved_edges, Edge3x3x3,
    EdgePiece3x3x3,
};
use crate::prune::{
    in_move_set, pair_after, pair_count, second_size, spec_is_phase_2_move, PruneTable,
    DEPTH_LIMIT,
};
use crate::cube3x3x3::Pieces3x3x3;
use crate::index::{
    arranged, binomial, bubbled, factoradic_digit, factorial, permutation_rank, power, swapped,
};
use crate::rank::{
    among_four, ascending_from, digits_in_base, digits_of, is_arrangement, lemma_arranged_rank,
    lemma_bubbled_at, lemma_digits_value, lemma_factoradic_digit_bound, lemma_greedy_members,
    lemma_positional_injective, lemma_prefix_of_members, lemma_prefix_rank_bound,
    lemma_prefix_rank_injective, lemma_rank_injective, lemma_swap_member,
    lemma_twelve_choose_four, occurs, prefix_count, prefix_rank,
};
use vstd::prelude::*;

verus! {

/// The numbers that a key gives to the `n` elements from position `start` on.
pub open spec fn window_ids<T>(s: Seq<T>, key: spec_fn(T) -> int, start: int, n: int) -> Seq<int> {
    Seq::new(n as nat, |k: int| key(s[start + k]))
}

/// Arranging the elements of a window arranges their numbers, and leaves the
/// elements outside the window where they are.
pub proof fn lemma_arranged_window<T>(
    s: Seq<T>,
    key: spec_fn(T) -> int,
    start: int,
    n: int,
    idx: int,
    i: int,
)
    requires
        0 <= start,
        1 <= n,
        start + n <= s.len(),
        0 <= i < n,
        0 <= idx,
    ensures
        arranged(s, start, n, idx, i).len() == s.len(),
        window_ids(arranged(s, start, n, idx, i), key, start, n) == arranged(
            window_ids(s, key, start, n),
            0,
            n,
            idx,
            i,
        ),
        forall|k: int|
            0 <= k < s.len() && !(start <= k < start + n) ==> #[trigger] arranged(
                s,
                start,
                n,
                idx,
                i,
            )[k] == s[k],
    decreases n - i,
{
    let ids = window_ids(s, key, start, n);
    if i + 1 < n {
        let d = factoradic_digit(idx, (n - 1 - i) as nat);
        lemma_factoradic_digit_bound(idx, (n - 1 - i) as nat);
        let t = bubbled(s, start + i + d, start + i);
        let u = bubbled(ids, i + d, i);
        lemma_bubbled_at(s, start + i + d, start + i, 0);
        lemma_bubbled_at(ids, i + d, i, 0);
        assert(window_ids(t, key, start, n) =~= u) by {
            assert forall|k: int| 0 <= k < n implies window_ids(t, key, start, n)[k] == u[k] by {
                lemma_bubbled_at(s, start + i + d, start + i, start + k);
                lemma_bubbled_at(ids, i + d, i, k);
            }
        }
        lemma_arranged_window(t, key, start, n, idx, i + 1);
        assert forall|k: int|
            0 <= k < s.len() && !(start <= k < start + n) implies #[trigger] arranged(
            s,
            start,
            n,
            idx,
            i,
        )[k] == s[k] by {
            lemma_bubbled_at(s, start + i + d, start + i, k);
            assert(arranged(t, start, n, idx, i + 1)[k] == t[k]);
        }
    } else {
        assert(arranged(ids, 0, n, idx, i) == ids);
    }
}

/// The key of corners: the home position of the piece.
pub open spec fn corner_key() -> spec_fn(CornerPiece) -> int {
    |piece: CornerPiece| piece.piece.spec_index()
}

/// The home positions of the corners of a valid state are an arrangement of the
/// eight corner positions.
pub proof fn lemma_corner_ids_arrangement(cs: Seq<CornerPiece>)
    requires
        cs.len() == 8,
        corners_bijective(cs),
    ensures
        is_arrangement(corner_ids(cs), 0),
        corner_ids(cs) == window_ids(cs, corner_key(), 0, 8),
{
    let ids = corner_ids(cs);
    assert(ids =~= window_ids(cs, corner_key(), 0, 8));
    assert forall|i: int, j: int| 0 <= i < j < ids.len() implies #[trigger] ids[i]
        != #[trigger] ids[j] by {
        assert(cs[i].piece != cs[j].piece);
    }
    assert forall|v: int| 0 <= v < 8 implies #[trigger] occurs(ids, v) by {
        let c = Corner::at(v);
        assert(corner_present(cs, c));
        let i = choose|i: int| holds_corner(cs, i, c);
        assert(ids[i] == v);
    }
}

/// Corners with the same home positions are the same but for their twists.
pub proof fn lemma_same_corner_ids(cs: Seq<CornerPiece>, ds: Seq<CornerPiece>, i: int)
    requires
        cs.len() == 8,
        ds.len() == 8,
        corner_ids(cs) == corner_ids(ds),
        0 <= i < 8,
    ensures
        cs[i].piece == ds[i].piece,
{
    assert(corner_ids(cs)[i] == cs[i].piece.spec_index());
    assert(corner_ids(ds)[i] == ds[i].piece.spec_index());
}

/// The corners that are built for a permutation index have that index.
pub proof fn lemma_permuted_corners_index(idx: int)
    requires
        0 <= idx < 40320,
    ensures
        corner_permutation_index(permuted_corners(idx)) == idx,
        permuted_corners(idx).len() == 8,
{
    let s = solved_corners();
    crate::corner::lemma_solved_corners_valid();
    lemma_corner_ids_arrangement(s);
    lemma_arranged_window(s, corner_key(), 0, 8, idx, 0);
    let ids = corner_ids(s);
    assert(ascending_from(ids, 0));
    crate::index::lemma_small_factorials();
    lemma_arranged_rank(ids, 0, idx);
    assert(corner_ids(permuted_corners(idx)) =~= window_ids(
        permuted_corners(idx),
        corner_key(),
        0,
        8,
    ));
}

/// The corner permutation index after a move follows from the index before it: it
/// is the index that the representative state of the index has after the move.
pub proof fn lemma_corner_permutation_follows(cs: Seq<CornerPiece>, mv: Move)
    requires
        corners_valid(cs),
    ensures
        0 <= corner_permutation_index(cs) < 40320,
        corner_permutation_index(corners_moved(permuted_corners(corner_permutation_index(cs)), mv))
            == corner_permutation_index(corners_moved(cs, mv)),
{
    let idx = corner_permutation_index(cs);
    crate::index::lemma_permutation_rank_bound(corner_ids(cs));
    crate::index::lemma_small_factorials();
    let rep = permuted_corners(idx);
    lemma_permuted_corners_index(idx);
    lemma_corner_ids_arrangement(cs);
    let s = solved_corners();
    crate::corner::lemma_solved_corners_valid();
    lemma_corner_ids_arrangement(s);
    lemma_arranged_window(s, corner_key(), 0, 8, idx, 0);
    assert(ascending_from(corner_ids(s), 0));
    lemma_arranged_rank(corner_ids(s), 0, idx);
    assert(corner_ids(rep) =~= window_ids(rep, corner_key(), 0, 8));
    lemma_rank_injective(corner_ids(cs), corner_ids(rep), 0);
    lemma_same_ids_after_move(cs, rep, mv);
}

/// Corners with the same home positions have the same home positions after a move.
pub proof fn lemma_same_ids_after_move(cs: Seq<CornerPiece>, ds: Seq<CornerPiece>, mv: Move)
    requires
        cs.len() == 8,
        ds.len() == 8,
        corner_ids(cs) == corner_ids(ds),
    ensures
        corner_ids(corners_moved(cs, mv)) == corner_ids(corners_moved(ds, mv)),
{
    let a = corner_ids(corners_moved(cs, mv));
    let b = corner_ids(corners_moved(ds, mv));
    assert forall|i: int| 0 <= i < 8 implies a[i] == b[i] by {
        lemma_corner_after_move(cs, mv, i);
        lemma_corner_after_move(ds, mv, i);
        lemma_same_corner_ids(cs, ds, move_corner_source(mv, i));
        lemma_same_corner_ids(cs, ds, i);
    }
    assert(a =~= b);
}

/// Two numbers below `m` that give the same remainder when added to the same
/// number are the same.
pub proof fn lemma_same_remainder(rest: int, a: int, b: int, m: int)
    requires
        m > 0,
        0 <= rest,
        0 <= a < m,
        0 <= b < m,
        (rest + a) % m == (rest + b) % m,
    ensures
        a == b,
{
    if a < b {
        assert((rest + b) % m != (rest + a) % m) by (nonlinear_arith)
            requires
                m > 0,
                0 <= rest,
                0 <= a < b < m,
        ;
    } else if b < a {
        assert((rest + b) % m != (rest + a) % m) by (nonlinear_arith)
            requires
                m > 0,
                0 <= rest,
                0 <= b < a < m,
        ;
    }
}

/// The corners that are built for an orientation index are a valid arrangement and
/// have that index.
pub proof fn lemma_oriented_corners_index(idx: int)
    requires
        0 <= idx < 2187,
    ensures
        corners_valid(oriented_corners(idx)),
        corner_orientation_index(oriented_corners(idx)) == idx,
{
    let cs = oriented_corners(idx);
    assert(power(3, 7) == 2187) by {
        reveal_with_fuel(power, 8);
    }
    lemma_digits_value(idx, 3, 7);
    let ds = digits_of(idx, 3, 7);
    assert forall|i: int| 0 <= i < 7 implies cs[i].orientation == ds[i] by {
        assert(0 <= ds[i] < 3);
    }
    assert(corner_twists(cs) =~= ds);
    let sum = twist_digit_sum(idx, 7);
    assert(sum == ds[6] + ds[5] + ds[4] + ds[3] + ds[2] + ds[1] + ds[0]) by {
        reveal_with_fuel(twist_digit_sum, 8);
    }
    assert(sum >= 0);
    assert(cs[7].orientation == (3 - sum % 3) % 3);
    crate::corner::lemma_solved_corners_valid();
    crate::corner::lemma_corner_pieces_bijective(solved_corners(), cs);
}

/// Valid corners with the same orientation index have the same twists.
pub proof fn lemma_same_corner_twists(cs: Seq<CornerPiece>, ds: Seq<CornerPiece>, i: int)
    requires
        corners_valid(cs),
        corners_valid(ds),
        corner_orientation_index(cs) == corner_orientation_index(ds),
        0 <= i < 8,
    ensures
        cs[i].orientation == ds[i].orientation,
{
    let a = corner_twists(cs);
    let b = corner_twists(ds);
    assert(digits_in_base(a, 3));
    assert(digits_in_base(b, 3));
    lemma_positional_injective(a, b, 3);
    assert forall|k: int| 0 <= k < 7 implies cs[k].orientation == ds[k].orientation by {
        assert(a[k] == cs[k].orientation);
        assert(b[k] == ds[k].orientation);
    }
    if i == 7 {
        let rest = cs[0].orientation + cs[1].orientation + cs[2].orientation + cs[3].orientation
            + cs[4].orientation + cs[5].orientation + cs[6].orientation;
        assert(corner_twist_sum(cs) == rest + cs[7].orientation);
        assert(corner_twist_sum(ds) == rest + ds[7].orientation);
        lemma_same_remainder(rest, cs[7].orientation as int, ds[7].orientation as int, 3);
    }
}

/// Corners with the same twists have the same twists after a move.
pub proof fn lemma_same_twists_after_move(cs: Seq<CornerPiece>, ds: Seq<CornerPiece>, mv: Move)
    requires
        cs.len() == 8,
        ds.len() == 8,
        forall|i: int| 0 <= i < 8 ==> (#[trigger] cs[i]).orientation == ds[i].orientation,
    ensures
        corner_orientation_index(corners_moved(cs, mv)) == corner_orientation_index(
            corners_moved(ds, mv),
        ),
        forall|i: int|
            0 <= i < 8 ==> (#[trigger] corners_moved(cs, mv)[i]).orientation == corners_moved(
                ds,
                mv,
            )[i].orientation,
{
    let a = corners_moved(cs, mv);
    let b = corners_moved(ds, mv);
    assert forall|i: int| 0 <= i < 8 implies (#[trigger] a[i]).orientation
        == b[i].orientation by {
        lemma_corner_after_move(cs, mv, i);
        lemma_corner_after_move(ds, mv, i);
        assert(cs[move_corner_source(mv, i)].orientation == ds[move_corner_source(
            mv,
            i,
        )].orientation);
        assert(cs[i].orientation == ds[i].orientation);
    }
    assert(corner_twists(a) =~= corner_twists(b));
}

/// The corner orientation index after a move follows from the index before it: it
/// is the index that the representative state of the index has after the move.
pub proof fn lemma_corner_orientation_follows(cs: Seq<CornerPiece>, mv: Move)
    requires
        corners_valid(cs),
    ensures
        0 <= corner_orientation_index(cs) < 2187,
        corner_orientation_index(corners_moved(oriented_corners(corner_orientation_index(cs)), mv))
            == corner_orientation_index(corners_moved(cs, mv)),
{
    let idx = corner_orientation_index(cs);
    assert(power(3, 7) == 2187) by {
        reveal_with_fuel(power, 8);
    }
    assert(digits_in_base(corner_twists(cs), 3));
    crate::index::lemma_positional_value_bound(corner_twists(cs), 3);
    let rep = oriented_corners(idx);
    lemma_oriented_corners_index(idx);
    assert forall|i: int| 0 <= i < 8 implies (#[trigger] cs[i]).orientation
        == rep[i].orientation by {
        lemma_same_corner_twists(cs, rep, i);
    }
    lemma_same_twists_after_move(cs, rep, mv);
}

/// The edges that are built for an orientation index are a valid arrangement and
/// have that index.
pub proof fn lemma_oriented_edges_index(idx: int)
    requires
        0 <= idx < 2048,
    ensures
        edges_valid(oriented_edges(idx)),
        edge_orientation_index(oriented_edges(idx)) == idx,
{
    let cs = oriented_edges(idx);
    assert(power(2, 11) == 2048) by {
        reveal_with_fuel(power, 12);
    }
    lemma_digits_value(idx, 2, 11);
    let ds = digits_of(idx, 2, 11);
    assert forall|i: int| 0 <= i < 11 implies cs[i].orientation == ds[i] by {
        assert(0 <= ds[i] < 2);
    }
    assert(edge_flips(cs) =~= ds);
    let sum = flip_digit_sum(idx, 11);
    assert(sum == ds[10] + ds[9] + ds[8] + ds[7] + ds[6] + ds[5] + ds[4] + ds[3] + ds[2] + ds[1]
        + ds[0]) by {
        reveal_with_fuel(flip_digit_sum, 12);
    }
    assert(sum >= 0);
    assert(cs[11].orientation == sum % 2);
    crate::edge::lemma_solved_edges_valid();
    crate::edge::lemma_edge_pieces_bijective(solved_edges(), cs);
}

/// Valid edges with the same orientation index have the same flips.
pub proof fn lemma_same_edge_flips(cs: Seq<EdgePiece3x3x3>, ds: Seq<EdgePiece3x3x3>, i: int)
    requires
        edges_valid(cs),
        edges_valid(ds),
        edge_orientation_index(cs) == edge_orientation_index(ds),
        0 <= i < 12,
    ensures
        cs[i].orientation == ds[i].orientation,
{
    let a = edge_flips(cs);
    let b = edge_flips(ds);
    assert(digits_in_base(a, 2));
    assert(digits_in_base(b, 2));
    lemma_positional_injective(a, b, 2);
    assert forall|k: int| 0 <= k < 11 implies cs[k].orientation == ds[k].orientation by {
        assert(a[k] == cs[k].orientation);
        assert(b[k] == ds[k].orientation);
    }
    if i == 11 {
        let rest = cs[0].orientation + cs[1].orientation + cs[2].orientation + cs[3].orientation
            + cs[4].orientation + cs[5].orientation + cs[6].orientation + cs[7].orientation
            + cs[8].orientation + cs[9].orientation + cs[10].orientation;
        assert(edge_flip_sum(cs) == rest + cs[11].orientation);
        assert(edge_flip_sum(ds) == rest + ds[11].orientation);
        lemma_same_remainder(rest, cs[11].orientation as int, ds[11].orientation as int, 2);
    }
}

/// Corners with the same flips have the same flips after a move.
pub proof fn lemma_same_flips_after_move(cs: Seq<EdgePiece3x3x3>, ds: Seq<EdgePiece3x3x3>, mv: Move)
    requires
        cs.len() == 12,
        ds.len() == 12,
        forall|i: int| 0 <= i < 12 ==> (#[trigger] cs[i]).orientation == ds[i].orientation,
    ensures
        edge_orientation_index(edges_moved(cs, mv)) == edge_orientation_index(
            edges_moved(ds, mv),
        ),
        forall|i: int|
            0 <= i < 12 ==> (#[trigger] edges_moved(cs, mv)[i]).orientation == edges_moved(
                ds,
                mv,
            )[i].orientation,
{
    let a = edges_moved(cs, mv);
    let b = edges_moved(ds, mv);
    assert forall|i: int| 0 <= i < 12 implies (#[trigger] a[i]).orientation
        == b[i].orientation by {
        lemma_edge_after_move(cs, mv, i);
        lemma_edge_after_move(ds, mv, i);
        assert(cs[move_edge_source(mv, i)].orientation == ds[move_edge_source(
            mv,
            i,
        )].orientation);
        assert(cs[i].orientation == ds[i].orientation);
    }
    assert(edge_flips(a) =~= edge_flips(b));
}

/// The edge orientation index after a move follows from the index before it: it
/// is the index that the representative state of the index has after the move.
pub proof fn lemma_edge_orientation_follows(cs: Seq<EdgePiece3x3x3>, mv: Move)
    requires
        edges_valid(cs),
    ensures
        0 <= edge_orientation_index(cs) < 2048,
        edge_orientation_index(edges_moved(oriented_edges(edge_orientation_index(cs)), mv))
            == edge_orientation_index(edges_moved(cs, mv)),
{
    let idx = edge_orientation_index(cs);
    assert(power(2, 11) == 2048) by {
        reveal_with_fuel(power, 12);
    }
    assert(digits_in_base(edge_flips(cs), 2));
    crate::index::lemma_positional_value_bound(edge_flips(cs), 2);
    let rep = oriented_edges(idx);
    lemma_oriented_edges_index(idx);
    assert forall|i: int| 0 <= i < 12 implies (#[trigger] cs[i]).orientation
        == rep[i].orientation by {
        lemma_same_edge_flips(cs, rep, i);
    }
    lemma_same_flips_after_move(cs, rep, mv);
}

/// For every slice coordinate, whether the edge there is equatorial.
pub open spec fn slice_members(es: Seq<EdgePiece3x3x3>) -> Seq<bool> {
    Seq::new(12, |c: int| equatorial_at(es, c))
}

/// The slice index counts from a coordinate on what the rank of the members counts
/// up to it.
pub proof fn lemma_slice_rank_split(es: Seq<EdgePiece3x3x3>, i: int)
    requires
        0 <= i <= 12,
    ensures
        slice_rank_from(es, i, prefix_count(slice_members(es), i) as nat) + prefix_rank(
            slice_members(es),
            i,
        ) == equatorial_edge_slice_index(es),
        equatorial_count(es, i) + prefix_count(slice_members(es), i) == equatorial_count(es, 0),
        prefix_count(slice_members(es), i) >= 0,
    decreases i,
{
    if i > 0 {
        lemma_slice_rank_split(es, i - 1);
        assert(slice_members(es)[i - 1] == equatorial_at(es, i - 1));
    }
}

/// The slice index is the rank of the set of slice coordinates that hold the
/// equatorial edges.
pub proof fn lemma_slice_index_is_rank(es: Seq<EdgePiece3x3x3>)
    ensures
        equatorial_edge_slice_index(es) == prefix_rank(slice_members(es), 12),
        equatorial_count(es, 0) == prefix_count(slice_members(es), 12),
{
    lemma_slice_rank_split(es, 12);
}

/// Exchanging the edges at two slice coordinates exchanges the members.
pub proof fn lemma_slice_members_swapped(es: Seq<EdgePiece3x3x3>, a: int, b: int)
    requires
        es.len() == 12,
        0 <= a < 12,
        0 <= b < 12,
    ensures
        slice_members(swapped(es, slice_coordinate(a), slice_coordinate(b))) == swapped(
            slice_members(es),
            a,
            b,
        ),
{
    let t = swapped(es, slice_coordinate(a), slice_coordinate(b));
    assert forall|c: int| 0 <= c < 12 implies slice_members(t)[c] == swapped(
        slice_members(es),
        a,
        b,
    )[c] by {
        crate::edge::lemma_slice_coordinates(a);
        crate::edge::lemma_slice_coordinates(b);
        crate::edge::lemma_slice_coordinates(c);
    }
    assert(slice_members(t) =~= swapped(slice_members(es), a, b));
}

/// The edges that are built for a slice index are a valid arrangement, are not
/// flipped, and have that index.
pub proof fn lemma_sliced_edges_index(idx: int)
    requires
        0 <= idx < 495,
    ensures
        edges_valid(sliced_edges(idx)),
        forall|i: int| 0 <= i < 12 ==> (#[trigger] sliced_edges(idx)[i]).orientation == 0,
        equatorial_edge_slice_index(sliced_edges(idx)) == idx,
{
    let (p1, p2, p3, p4) = lemma_greedy_members(idx);
    let e4 = solved_edges();
    let r3 = idx - binomial(p4 as nat, 4);
    let r2 = r3 - binomial(p3 as nat, 3);
    let r1 = r2 - binomial(p2 as nat, 2);
    let r0 = r1 - binomial(p1 as nat, 1);
    let e3 = swapped(e4, slice_coordinate(3), slice_coordinate(p4));
    let e2 = swapped(e3, slice_coordinate(2), slice_coordinate(p3));
    let e1 = swapped(e2, slice_coordinate(1), slice_coordinate(p2));
    let e0 = swapped(e1, slice_coordinate(0), slice_coordinate(p1));
    assert(sliced_edges(idx) == e0) by {
        reveal_with_fuel(slice_arranged, 5);
    }
    crate::edge::lemma_solved_edges_valid();
    crate::edge::lemma_slice_coordinates(0);
    crate::edge::lemma_slice_coordinates(1);
    crate::edge::lemma_slice_coordinates(2);
    crate::edge::lemma_slice_coordinates(3);
    crate::edge::lemma_slice_coordinates(p1);
    crate::edge::lemma_slice_coordinates(p2);
    crate::edge::lemma_slice_coordinates(p3);
    crate::edge::lemma_slice_coordinates(p4);
    lemma_swapped_edges(e4, slice_coordinate(3), slice_coordinate(p4));
    lemma_swapped_edges(e3, slice_coordinate(2), slice_coordinate(p3));
    lemma_swapped_edges(e2, slice_coordinate(1), slice_coordinate(p2));
    lemma_swapped_edges(e1, slice_coordinate(0), slice_coordinate(p1));
    assert(edge_flip_sum(e0) == 0);
    let b4 = slice_members(e4);
    assert forall|k: int| 0 <= k < 12 implies (#[trigger] b4[k] <==> among_four(k, 3, 0, 1, 2)) by {
        crate::edge::lemma_slice_coordinates(k);
    }
    lemma_slice_members_swapped(e4, 3, p4);
    lemma_swap_member(b4, 3, p4, 0, 1, 2);
    let b3 = slice_members(e3);
    assert forall|k: int| 0 <= k < 12 implies (#[trigger] b3[k] <==> among_four(k, 2, p4, 0, 1)) by {
        assert(b3[k] <==> among_four(k, p4, 0, 1, 2));
    }
    lemma_slice_members_swapped(e3, 2, p3);
    lemma_swap_member(b3, 2, p3, p4, 0, 1);
    let b2 = slice_members(e2);
    assert forall|k: int| 0 <= k < 12 implies (#[trigger] b2[k] <==> among_four(k, 1, p3, p4, 0)) by {
        assert(b2[k] <==> among_four(k, p3, p4, 0, 1));
    }
    lemma_slice_members_swapped(e2, 1, p2);
    lemma_swap_member(b2, 1, p2, p3, p4, 0);
    let b1 = slice_members(e1);
    assert forall|k: int| 0 <= k < 12 implies (#[trigger] b1[k] <==> among_four(k, 0, p2, p3, p4)) by {
        assert(b1[k] <==> among_four(k, p2, p3, p4, 0));
    }
    lemma_slice_members_swapped(e1, 0, p1);
    lemma_swap_member(b1, 0, p1, p2, p3, p4);
    let b0 = slice_members(e0);
    lemma_prefix_of_members(b0, 12, p1, p2, p3, p4);
    lemma_slice_index_is_rank(e0);
}

/// Exchanging two edges keeps every edge at exactly one position, and keeps edges
/// that are not flipped unflipped.
pub proof fn lemma_swapped_edges(es: Seq<EdgePiece3x3x3>, a: int, b: int)
    requires
        es.len() == 12,
        0 <= a < 12,
        0 <= b < 12,
        crate::edge::edges_bijective(es),
        forall|i: int| 0 <= i < 12 ==> (#[trigger] es[i]).orientation == 0,
    ensures
        swapped(es, a, b).len() == 12,
        crate::edge::edges_bijective(swapped(es, a, b)),
        forall|i: int| 0 <= i < 12 ==> (#[trigger] swapped(es, a, b)[i]).orientation == 0,
{
    crate::edge::lemma_edge_swap_bijective(es, a, b);
    assert(crate::edge::edges_swapped(es, a, b) =~= swapped(es, a, b));
}

/// Valid edges with the same slice index have the equatorial edges at the same
/// positions.
pub proof fn lemma_same_slice_members(es: Seq<EdgePiece3x3x3>, ds: Seq<EdgePiece3x3x3>)
    requires
        edges_valid(es),
        edges_valid(ds),
        equatorial_edge_slice_index(es) == equatorial_edge_slice_index(ds),
    ensures
        slice_members(es) == slice_members(ds),
{
    lemma_slice_index_is_rank(es);
    lemma_slice_index_is_rank(ds);
    crate::edge::lemma_bijective_equatorial_count(es);
    crate::edge::lemma_bijective_equatorial_count(ds);
    lemma_prefix_rank_injective(slice_members(es), slice_members(ds), 12);
    assert(slice_members(es) =~= slice_members(ds));
}

/// Edges with the equatorial edges at the same positions have them at the same
/// positions after a move.
pub proof fn lemma_same_members_after_move(
    es: Seq<EdgePiece3x3x3>,
    ds: Seq<EdgePiece3x3x3>,
    mv: Move,
)
    requires
        es.len() == 12,
        ds.len() == 12,
        slice_members(es) == slice_members(ds),
    ensures
        slice_members(edges_moved(es, mv)) == slice_members(edges_moved(ds, mv)),
        equatorial_edge_slice_index(edges_moved(es, mv)) == equatorial_edge_slice_index(
            edges_moved(ds, mv),
        ),
{
    let a = slice_members(edges_moved(es, mv));
    let b = slice_members(edges_moved(ds, mv));
    assert forall|c: int| 0 <= c < 12 implies a[c] == b[c] by {
        let pos = slice_coordinate(c);
        crate::edge::lemma_slice_coordinates(c);
        lemma_edge_after_move(es, mv, pos);
        lemma_edge_after_move(ds, mv, pos);
        let source = move_edge_source(mv, pos);
        crate::edge::lemma_slice_coordinates(source);
        let k = crate::edge::coordinate_of(source);
        assert(slice_members(es)[k] == es[source].piece.spec_is_equatorial());
        assert(slice_members(ds)[k] == ds[source].piece.spec_is_equatorial());
        assert(slice_members(es)[c] == es[pos].piece.spec_is_equatorial());
        assert(slice_members(ds)[c] == ds[pos].piece.spec_is_equatorial());
        assert(a[c] == edges_moved(es, mv)[pos].piece.spec_is_equatorial());
        assert(b[c] == edges_moved(ds, mv)[pos].piece.spec_is_equatorial());
        if crate::edge::edge_on_face(mv.spec_face(), pos) {
            assert(edges_moved(es, mv)[pos].piece == es[source].piece);
            assert(edges_moved(ds, mv)[pos].piece == ds[source].piece);
        }
    }
    assert(a =~= b);
    lemma_slice_index_is_rank(edges_moved(es, mv));
    lemma_slice_index_is_rank(edges_moved(ds, mv));
}

/// The slice index after a move follows from the index before it: it is the index
/// that the representative state of the index has after the move.
pub proof fn lemma_slice_follows(es: Seq<EdgePiece3x3x3>, mv: Move)
    requires
        edges_valid(es),
    ensures
        0 <= equatorial_edge_slice_index(es) < 495,
        equatorial_edge_slice_index(edges_moved(sliced_edges(equatorial_edge_slice_index(es)), mv))
            == equatorial_edge_slice_index(edges_moved(es, mv)),
{
    let idx = equatorial_edge_slice_index(es);
    lemma_slice_index_is_rank(es);
    crate::edge::lemma_bijective_equatorial_count(es);
    lemma_prefix_rank_bound(slice_members(es), 12);
    lemma_twelve_choose_four();
    lemma_sliced_edges_index(idx);
    lemma_same_slice_members(es, sliced_edges(idx));
    lemma_same_members_after_move(es, sliced_edges(idx), mv);
}

/// The states of the second phase: valid states in which no corner is twisted, no
/// edge is flipped, and the four positions of the equatorial slice hold the
/// equatorial edges.
pub open spec fn in_subgroup(p: Pieces3x3x3) -> bool {
    &&& p.valid()
    &&& forall|i: int| 0 <= i < 8 ==> (#[trigger] p.corners[i]).orientation == 0
    &&& forall|i: int| 0 <= i < 12 ==> (#[trigger] p.edges[i]).orientation == 0
    &&& forall|i: int| 8 <= i < 12 ==> (#[trigger] p.edges[i]).piece.spec_is_equatorial()
}

/// The moves of the second phase lead from states of the second phase to states of
/// the second phase.
pub proof fn lemma_subgroup_move(p: Pieces3x3x3, mv: Move)
    requires
        in_subgroup(p),
        spec_is_phase_2_move(mv),
    ensures
        in_subgroup(p.moved(mv)),
{
    let q = p.moved(mv);
    crate::coordinate::lemma_moved_valid(p, mv);
    assert forall|i: int| 0 <= i < 8 implies (#[trigger] q.corners[i]).orientation == 0 by {
        lemma_corner_after_move(p.corners, mv, i);
        crate::corner::lemma_phase_2_corner_twist(mv, i);
        assert(p.corners[move_corner_source(mv, i)].orientation == 0);
        assert(p.corners[i].orientation == 0);
    }
    assert forall|i: int| 0 <= i < 12 implies (#[trigger] q.edges[i]).orientation == 0 && (i >= 8
        ==> q.edges[i].piece.spec_is_equatorial()) by {
        lemma_edge_after_move(p.edges, mv, i);
        crate::edge::lemma_phase_2_edge_move(mv, i);
        let source = move_edge_source(mv, i);
        assert(p.edges[source].orientation == 0);
        assert(p.edges[i].orientation == 0);
        if i >= 8 {
            assert(p.edges[source].piece.spec_is_equatorial());
            assert(p.edges[i].piece.spec_is_equatorial());
        }
    }
}

/// The key of edges: the home position of the piece.
pub open spec fn edge_key() -> spec_fn(EdgePiece3x3x3) -> int {
    |piece: EdgePiece3x3x3| piece.piece.spec_index()
}

/// Where the positions of the equatorial slice hold equatorial edges, the other
/// positions hold the other edges: the home positions of the edges of the top and
/// bottom layer are an arrangement of their eight positions, and those of the edges
/// in the slice an arrangement of the four positions of the slice.
pub proof fn lemma_layers_are_arrangements(es: Seq<EdgePiece3x3x3>)
    requires
        es.len() == 12,
        crate::edge::edges_bijective(es),
        forall|i: int| 8 <= i < 12 ==> (#[trigger] es[i]).piece.spec_is_equatorial(),
    ensures
        forall|i: int| 0 <= i < 8 ==> !(#[trigger] es[i]).piece.spec_is_equatorial(),
        is_arrangement(outer_edge_ids(es), 0),
        is_arrangement(slice_edge_ids(es), 8),
        outer_edge_ids(es) == window_ids(es, edge_key(), 0, 8),
        slice_edge_ids(es) == window_ids(es, edge_key(), 8, 4),
{
    let outer = outer_edge_ids(es);
    let inner = slice_edge_ids(es);
    assert(outer =~= window_ids(es, edge_key(), 0, 8));
    assert(inner =~= window_ids(es, edge_key(), 8, 4));
    assert forall|e: Edge3x3x3| e.spec_is_equatorial() implies 8 <= #[trigger] crate::edge::edge_holder(
        es,
        e,
    ) < 12 by {
        crate::edge::lemma_edge_holder(es, e);
        let h = crate::edge::edge_holder(es, e);
        assert(es[8].piece.spec_is_equatorial() && es[9].piece.spec_is_equatorial()
            && es[10].piece.spec_is_equatorial() && es[11].piece.spec_is_equatorial());
        assert(es[8].piece != es[9].piece && es[8].piece != es[10].piece && es[8].piece
            != es[11].piece && es[9].piece != es[10].piece && es[9].piece != es[11].piece
            && es[10].piece != es[11].piece);
        let k = if es[8].piece == e {
            8
        } else if es[9].piece == e {
            9
        } else if es[10].piece == e {
            10
        } else {
            11int
        };
        assert(es[k].piece == e);
        crate::edge::lemma_edge_holder_unique(es, h, k);
    }
    assert forall|i: int| 0 <= i < 8 implies !(#[trigger] es[i]).piece.spec_is_equatorial() by {
        let e = es[i].piece;
        if e.spec_is_equatorial() {
            let h = crate::edge::edge_holder(es, e);
            crate::edge::lemma_edge_holder(es, e);
            crate::edge::lemma_edge_holder_unique(es, h, i);
        }
    }
    assert forall|i: int, j: int| 0 <= i < j < outer.len() implies #[trigger] outer[i]
        != #[trigger] outer[j] by {
        assert(es[i].piece != es[j].piece);
    }
    assert forall|v: int| 0 <= v < 8 implies #[trigger] occurs(outer, v) by {
        let e = Edge3x3x3::at(v);
        crate::edge::lemma_edge_holder(es, e);
        let h = crate::edge::edge_holder(es, e);
        if h >= 8 {
            assert(es[h].piece.spec_is_equatorial());
        }
        assert(outer[h] == v);
    }
    assert forall|i: int, j: int| 0 <= i < j < inner.len() implies #[trigger] inner[i]
        != #[trigger] inner[j] by {
        assert(es[i + 8].piece != es[j + 8].piece);
    }
    assert forall|i: int| 0 <= i < inner.len() implies 8 <= #[trigger] inner[i] < 8
        + inner.len() by {
        assert(es[i + 8].piece.spec_is_equatorial());
    }
    assert forall|v: int| 8 <= v < 12 implies #[trigger] occurs(inner, v) by {
        let e = Edge3x3x3::at(v);
        assert(e.spec_is_equatorial());
        let h = crate::edge::edge_holder(es, e);
        crate::edge::lemma_edge_holder(es, e);
        assert(8 <= h < 12);
        assert(inner[h - 8] == v);
    }
}

/// Bubbling keeps every edge at exactly one position, and keeps edges that are not
/// flipped unflipped.
pub proof fn lemma_bubbled_edges(es: Seq<EdgePiece3x3x3>, from: int, to: int)
    requires
        es.len() == 12,
        0 <= to <= from < 12,
        crate::edge::edges_bijective(es),
        forall|i: int| 0 <= i < 12 ==> (#[trigger] es[i]).orientation == 0,
    ensures
        bubbled(es, from, to).len() == 12,
        crate::edge::edges_bijective(bubbled(es, from, to)),
        forall|i: int| 0 <= i < 12 ==> (#[trigger] bubbled(es, from, to)[i]).orientation == 0,
    decreases from - to,
{
    if from > to {
        lemma_swapped_edges(es, from, from - 1);
        lemma_bubbled_edges(swapped(es, from, from - 1), from - 1, to);
    }
}

/// Arranging keeps every edge at exactly one position, and keeps edges that are not
/// flipped unflipped.
pub proof fn lemma_arranged_edges(es: Seq<EdgePiece3x3x3>, start: int, n: int, idx: int, i: int)
    requires
        es.len() == 12,
        0 <= start,
        1 <= n,
        start + n <= 12,
        0 <= i < n,
        0 <= idx,
        crate::edge::edges_bijective(es),
        forall|k: int| 0 <= k < 12 ==> (#[trigger] es[k]).orientation == 0,
    ensures
        arranged(es, start, n, idx, i).len() == 12,
        crate::edge::edges_bijective(arranged(es, start, n, idx, i)),
        forall|k: int| 0 <= k < 12 ==> (#[trigger] arranged(es, start, n, idx, i)[k]).orientation == 0,
    decreases n - i,
{
    if i + 1 < n {
        let d = factoradic_digit(idx, (n - 1 - i) as nat);
        lemma_factoradic_digit_bound(idx, (n - 1 - i) as nat);
        lemma_bubbled_edges(es, start + i + d, start + i);
        lemma_arranged_edges(bubbled(es, start + i + d, start + i), start, n, idx, i + 1);
    }
}

/// The edges that are built for a permutation index of the eight edges of the top
/// and bottom layer make a state of the second phase with that index.
pub proof fn lemma_permuted_outer_edges(idx: int)
    requires
        0 <= idx < 40320,
    ensures
        in_subgroup(Pieces3x3x3 { corners: solved_corners(), edges: permuted_edges(0, 8, idx) }),
        phase_2_edge_permutation_index(permuted_edges(0, 8, idx)) == idx,
{
    let s = solved_edges();
    let rep = permuted_edges(0, 8, idx);
    crate::edge::lemma_solved_edges_valid();
    crate::corner::lemma_solved_corners_valid();
    lemma_arranged_edges(s, 0, 8, idx, 0);
    lemma_arranged_window(s, edge_key(), 0, 8, idx, 0);
    assert(edge_flip_sum(rep) == 0);
    assert forall|i: int| 8 <= i < 12 implies (#[trigger] rep[i]).piece.spec_is_equatorial() by {
        assert(rep[i] == s[i]);
    }
    lemma_layers_are_arrangements(s);
    lemma_layers_are_arrangements(rep);
    let ids = outer_edge_ids(s);
    assert(ascending_from(ids, 0));
    crate::index::lemma_small_factorials();
    lemma_arranged_rank(ids, 0, idx);
}

/// The edges that are built for a permutation index of the four edges of the
/// equatorial slice make a state of the second phase with that index.
pub proof fn lemma_permuted_slice_edges(idx: int)
    requires
        0 <= idx < 24,
    ensures
        in_subgroup(Pieces3x3x3 { corners: solved_corners(), edges: permuted_edges(8, 4, idx) }),
        phase_2_equatorial_edge_permutation_index(permuted_edges(8, 4, idx)) == idx,
{
    let s = solved_edges();
    let rep = permuted_edges(8, 4, idx);
    crate::edge::lemma_solved_edges_valid();
    crate::corner::lemma_solved_corners_valid();
    lemma_arranged_edges(s, 8, 4, idx, 0);
    lemma_arranged_window(s, edge_key(), 8, 4, idx, 0);
    assert(edge_flip_sum(rep) == 0);
    lemma_layers_are_arrangements(s);
    let ids = slice_edge_ids(s);
    assert(ascending_from(ids, 0));
    crate::index::lemma_small_factorials();
    lemma_arranged_rank(ids, 8, idx);
    let arranged_ids = arranged(ids, 0, 4, idx, 0);
    assert(window_ids(rep, edge_key(), 8, 4) == arranged_ids);
    assert forall|i: int| 8 <= i < 12 implies (#[trigger] rep[i]).piece.spec_is_equatorial() by {
        assert(arranged_ids[i - 8] == rep[i].piece.spec_index());
        assert(8 <= arranged_ids[i - 8]);
    }
    assert(slice_edge_ids(rep) =~= window_ids(rep, edge_key(), 8, 4));
}

/// Edges with the same home positions in a layer have the same home positions in
/// that layer after a move of the second phase.
pub proof fn lemma_same_layer_after_move(
    es: Seq<EdgePiece3x3x3>,
    ds: Seq<EdgePiece3x3x3>,
    mv: Move,
    outer: bool,
)
    requires
        es.len() == 12,
        ds.len() == 12,
        spec_is_phase_2_move(mv),
        outer ==> outer_edge_ids(es) == outer_edge_ids(ds),
        !outer ==> slice_edge_ids(es) == slice_edge_ids(ds),
    ensures
        outer ==> outer_edge_ids(edges_moved(es, mv)) == outer_edge_ids(edges_moved(ds, mv)),
        !outer ==> slice_edge_ids(edges_moved(es, mv)) == slice_edge_ids(edges_moved(ds, mv)),
{
    let a = edges_moved(es, mv);
    let b = edges_moved(ds, mv);
    assert forall|i: int|
        0 <= i < 12 && (outer <==> i < 8) implies a[i].piece.spec_index()
        == b[i].piece.spec_index() by {
        lemma_edge_after_move(es, mv, i);
        lemma_edge_after_move(ds, mv, i);
        crate::edge::lemma_phase_2_edge_move(mv, i);
        let source = move_edge_source(mv, i);
        if outer {
            assert(outer_edge_ids(es)[source] == es[source].piece.spec_index());
            assert(outer_edge_ids(ds)[source] == ds[source].piece.spec_index());
            assert(outer_edge_ids(es)[i] == es[i].piece.spec_index());
            assert(outer_edge_ids(ds)[i] == ds[i].piece.spec_index());
        } else {
            assert(slice_edge_ids(es)[source - 8] == es[source].piece.spec_index());
            assert(slice_edge_ids(ds)[source - 8] == ds[source].piece.spec_index());
            assert(slice_edge_ids(es)[i - 8] == es[i].piece.spec_index());
            assert(slice_edge_ids(ds)[i - 8] == ds[i].piece.spec_index());
        }
    }
    if outer {
        assert(outer_edge_ids(a) =~= outer_edge_ids(b));
    } else {
        assert forall|k: int| 0 <= k < 4 implies slice_edge_ids(a)[k] == slice_edge_ids(b)[k] by {
            assert(a[k + 8].piece.spec_index() == b[k + 8].piece.spec_index());
        }
        assert(slice_edge_ids(a) =~= slice_edge_ids(b));
    }
}

/// In the second phase, the permutation index of the edges of the top and bottom
/// layer after a move of the phase follows from the index before it.
pub proof fn lemma_outer_edges_follow(p: Pieces3x3x3, mv: Move)
    requires
        in_subgroup(p),
        spec_is_phase_2_move(mv),
    ensures
        0 <= phase_2_edge_permutation_index(p.edges) < 40320,
        phase_2_edge_permutation_index(
            edges_moved(permuted_edges(0, 8, phase_2_edge_permutation_index(p.edges)), mv),
        ) == phase_2_edge_permutation_index(edges_moved(p.edges, mv)),
{
    let idx = phase_2_edge_permutation_index(p.edges);
    crate::index::lemma_permutation_rank_bound(outer_edge_ids(p.edges));
    crate::index::lemma_small_factorials();
    let rep = permuted_edges(0, 8, idx);
    lemma_permuted_outer_edges(idx);
    lemma_layers_are_arrangements(p.edges);
    lemma_layers_are_arrangements(rep);
    lemma_rank_injective(outer_edge_ids(p.edges), outer_edge_ids(rep), 0);
    lemma_same_layer_after_move(p.edges, rep, mv, true);
}

/// In the second phase, the permutation index of the edges in the equatorial slice
/// after a move of the phase follows from the index before it.
pub proof fn lemma_slice_edges_follow(p: Pieces3x3x3, mv: Move)
    requires
        in_subgroup(p),
        spec_is_phase_2_move(mv),
    ensures
        0 <= phase_2_equatorial_edge_permutation_index(p.edges) < 24,
        phase_2_equatorial_edge_permutation_index(
            edges_moved(
                permuted_edges(8, 4, phase_2_equatorial_edge_permutation_index(p.edges)),
                mv,
            ),
        ) == phase_2_equatorial_edge_permutation_index(edges_moved(p.edges, mv)),
{
    let idx = phase_2_equatorial_edge_permutation_index(p.edges);
    crate::index::lemma_permutation_rank_bound(slice_edge_ids(p.edges));
    crate::index::lemma_small_factorials();
    let rep = permuted_edges(8, 4, idx);
    lemma_permuted_slice_edges(idx);
    lemma_layers_are_arrangements(p.edges);
    lemma_layers_are_arrangements(rep);
    lemma_rank_injective(slice_edge_ids(p.edges), slice_edge_ids(rep), 8);
    lemma_same_layer_after_move(p.edges, rep, mv, false);
}

/// Numbers in ascending order have rank zero.
pub proof fn lemma_rank_of_ascending(ids: Seq<int>, count: nat)
    requires
        ascending_from(ids, 0),
        count < ids.len(),
    ensures
        crate::index::lehmer_rank(ids, count) == 0,
    decreases count,
{
    if count > 0 {
        lemma_rank_of_ascending(ids, (count - 1) as nat);
        lemma_no_smaller_after(ids, count - 1, ids.len() as int);
        let m = ids.len() - count;
        assert((0 + 0) * m == 0) by (nonlinear_arith);
    }
}

/// In ascending order no later position holds a smaller number.
pub proof fn lemma_no_smaller_after(ids: Seq<int>, i: int, end: int)
    requires
        ascending_from(ids, 0),
        0 <= i < end <= ids.len(),
    ensures
        crate::index::smaller_after(ids, i, end) == 0,
    decreases end - i,
{
    if end > i + 1 {
        lemma_no_smaller_after(ids, i, end - 1);
        assert(ids[i] < ids[end - 1]);
    }
}

/// Every index of the solved state is zero.
pub proof fn lemma_solved_indices()
    ensures
        corner_orientation_index(solved_corners()) == 0,
        corner_permutation_index(solved_corners()) == 0,
        edge_orientation_index(solved_edges()) == 0,
        equatorial_edge_slice_index(solved_edges()) == 0,
        phase_2_edge_permutation_index(solved_edges()) == 0,
        phase_2_equatorial_edge_permutation_index(solved_edges()) == 0,
        in_subgroup(Pieces3x3x3::solved()),
{
    crate::corner::lemma_solved_corners_valid();
    crate::edge::lemma_solved_edges_valid();
    crate::rank::lemma_positional_value_zeros(7, 3);
    assert(corner_twists(solved_corners()) =~= Seq::new(7, |i: int| 0int));
    crate::rank::lemma_positional_value_zeros(11, 2);
    assert(edge_flips(solved_edges()) =~= Seq::new(11, |i: int| 0int));
    assert(ascending_from(corner_ids(solved_corners()), 0));
    lemma_rank_of_ascending(corner_ids(solved_corners()), 7);
    assert(ascending_from(outer_edge_ids(solved_edges()), 0));
    lemma_rank_of_ascending(outer_edge_ids(solved_edges()), 7);
    assert(ascending_from(slice_edge_ids(solved_edges()), 0));
    lemma_rank_of_ascending(slice_edge_ids(solved_edges()), 3);
    let b = slice_members(solved_edges());
    assert forall|k: int| 0 <= k < 12 implies (#[trigger] b[k] <==> among_four(k, 0, 1, 2, 3)) by {
        crate::edge::lemma_slice_coordinates(k);
    }
    lemma_prefix_of_members(b, 12, 0, 1, 2, 3);
    lemma_slice_index_is_rank(solved_edges());
    crate::index::lemma_binomial_beyond(0, 1);
    crate::index::lemma_binomial_beyond(1, 2);
    crate::index::lemma_binomial_beyond(2, 3);
    crate::index::lemma_binomial_beyond(3, 4);
}

/// The rank of the slice depends only on which slice coordinates hold equatorial
/// edges.
pub proof fn lemma_same_slice_rank(
    a: Seq<EdgePiece3x3x3>,
    b: Seq<EdgePiece3x3x3>,
    i: int,
    found: nat,
)
    requires
        0 <= i <= 12,
        forall|j: int| i <= j < 12 ==> equatorial_at(a, j) == #[trigger] equatorial_at(b, j),
    ensures
        slice_rank_from(a, i, found) == slice_rank_from(b, i, found),
    decreases 12 - i,
{
    if i < 12 {
        assert(equatorial_at(a, i) == equatorial_at(b, i));
        if equatorial_at(a, i) {
            lemma_same_slice_rank(a, b, i + 1, found + 1);
        } else {
            lemma_same_slice_rank(a, b, i + 1, found);
        }
    }
}

/// A state of the second phase is in the goal of the first phase: its corner
/// orientation index, edge orientation index and slice index are zero.
pub proof fn lemma_subgroup_indices(p: Pieces3x3x3)
    requires
        in_subgroup(p),
    ensures
        corner_orientation_index(p.corners) == 0,
        edge_orientation_index(p.edges) == 0,
        equatorial_edge_slice_index(p.edges) == 0,
{
    lemma_solved_indices();
    assert(corner_twists(p.corners) =~= corner_twists(solved_corners()));
    assert(edge_flips(p.edges) =~= edge_flips(solved_edges()));
    let es = p.edges;
    let i8 = es[8].piece.spec_index();
    let i9 = es[9].piece.spec_index();
    let i10 = es[10].piece.spec_index();
    let i11 = es[11].piece.spec_index();
    assert(es[8].piece != es[9].piece && es[8].piece != es[10].piece && es[8].piece
        != es[11].piece && es[9].piece != es[10].piece && es[9].piece != es[11].piece
        && es[10].piece != es[11].piece);
    assert forall|pos: int| 0 <= pos < 8 implies !(#[trigger] es[pos]).piece.spec_is_equatorial() by {
        let e = es[pos].piece;
        assert(e != es[8].piece && e != es[9].piece && e != es[10].piece && e != es[11].piece);
        lemma_edge_index_distinct(e, es[8].piece);
        lemma_edge_index_distinct(e, es[9].piece);
        lemma_edge_index_distinct(e, es[10].piece);
        lemma_edge_index_distinct(e, es[11].piece);
        lemma_edge_index_distinct(es[8].piece, es[9].piece);
        lemma_edge_index_distinct(es[8].piece, es[10].piece);
        lemma_edge_index_distinct(es[8].piece, es[11].piece);
        lemma_edge_index_distinct(es[9].piece, es[10].piece);
        lemma_edge_index_distinct(es[9].piece, es[11].piece);
        lemma_edge_index_distinct(es[10].piece, es[11].piece);
    }
    assert forall|j: int| 0 <= j < 12 implies equatorial_at(es, j) == #[trigger] equatorial_at(
        solved_edges(),
        j,
    ) by {
        let pos = slice_coordinate(j);
        assert(0 <= pos < 12);
        if pos < 8 {
            assert(!es[pos].piece.spec_is_equatorial());
        } else {
            assert(es[pos].piece.spec_is_equatorial());
        }
        assert(solved_edges()[pos].piece.spec_index() == pos);
    }
    lemma_same_slice_rank(es, solved_edges(), 0, 0);
}

/// Different edges have different numbers, all below 12.
pub proof fn lemma_edge_index_distinct(a: Edge3x3x3, b: Edge3x3x3)
    ensures
        0 <= a.spec_index() < 12,
        a != b ==> a.spec_index() != b.spec_index(),
{
}

/// The inverse of a move of the second phase is a move of the second phase.
pub proof fn lemma_phase_2_inverse(mv: Move)
    requires
        spec_is_phase_2_move(mv),
    ensures
        spec_is_phase_2_move(mv.spec_inverse()),
{
}

/// Moves of the second phase lead into the states of the second phase only from
/// states of the second phase.
pub proof fn lemma_back_in_subgroup(p: Pieces3x3x3, qs: Seq<Move>)
    requires
        p.valid(),
        forall|i: int| 0 <= i < qs.len() ==> spec_is_phase_2_move(#[trigger] qs[i]),
        in_subgroup(p.after(qs)),
    ensures
        in_subgroup(p),
    decreases qs.len(),
{
    if qs.len() > 0 {
        let head = qs.drop_last();
        let x = p.after(head);
        lemma_corners_after_valid(p.corners, head);
        lemma_edges_after_valid(p.edges, head);
        assert(x.valid());
        assert(p.after(qs) == x.moved(qs.last()));
        lemma_phase_2_inverse(qs.last());
        lemma_subgroup_move(x.moved(qs.last()), qs.last().spec_inverse());
        crate::corner::lemma_corners_move_inverse(x.corners, qs.last());
        crate::edge::lemma_edges_move_inverse(x.edges, qs.last());
        assert(x.moved(qs.last()).moved(qs.last().spec_inverse()) == x);
        assert forall|i: int| 0 <= i < head.len() implies spec_is_phase_2_move(
            #[trigger] head[i],
        ) by {
            assert(head[i] == qs[i]);
        }
        lemma_back_in_subgroup(p, head);
    } else {
        assert(p.after(qs) == p);
    }
}

/// The goal of the first phase: a valid state whose corner orientation index, edge
/// orientation index and slice index are zero is a state of the second phase.
pub proof fn lemma_phase_1_goal(p: Pieces3x3x3)
    requires
        p.valid(),
        corner_orientation_index(p.corners) == 0,
        edge_orientation_index(p.edges) == 0,
        equatorial_edge_slice_index(p.edges) == 0,
    ensures
        in_subgroup(p),
{
    lemma_solved_indices();
    crate::corner::lemma_solved_corners_valid();
    crate::edge::lemma_solved_edges_valid();
    assert forall|i: int| 0 <= i < 8 implies (#[trigger] p.corners[i]).orientation == 0 by {
        lemma_same_corner_twists(p.corners, solved_corners(), i);
    }
    assert forall|i: int| 0 <= i < 12 implies (#[trigger] p.edges[i]).orientation == 0 by {
        lemma_same_edge_flips(p.edges, solved_edges(), i);
    }
    lemma_same_slice_members(p.edges, solved_edges());
    assert forall|i: int| 8 <= i < 12 implies (#[trigger] p.edges[i]).piece.spec_is_equatorial() by {
        crate::edge::lemma_slice_coordinates(i);
        let c = crate::edge::coordinate_of(i);
        assert(slice_members(p.edges)[c] == slice_members(solved_edges())[c]);
        assert(slice_members(p.edges)[c] == p.edges[i].piece.spec_is_equatorial());
        assert(slice_members(solved_edges())[c] == solved_edges()[i].piece.spec_is_equatorial());
    }
}

/// The goal of the second phase: a state of the second phase whose three
/// permutation indices are zero is the solved state.
pub proof fn lemma_phase_2_goal(p: Pieces3x3x3)
    requires
        in_subgroup(p),
        corner_permutation_index(p.corners) == 0,
        phase_2_edge_permutation_index(p.edges) == 0,
        phase_2_equatorial_edge_permutation_index(p.edges) == 0,
    ensures
        p == Pieces3x3x3::solved(),
{
    lemma_solved_indices();
    crate::corner::lemma_solved_corners_valid();
    crate::edge::lemma_solved_edges_valid();
    lemma_corner_ids_arrangement(p.corners);
    lemma_corner_ids_arrangement(solved_corners());
    lemma_rank_injective(corner_ids(p.corners), corner_ids(solved_corners()), 0);
    assert forall|i: int| 0 <= i < 8 implies p.corners[i] == solved_corners()[i] by {
        lemma_same_corner_ids(p.corners, solved_corners(), i);
        assert(p.corners[i].orientation == 0);
    }
    assert(p.corners =~= solved_corners());
    lemma_layers_are_arrangements(p.edges);
    lemma_layers_are_arrangements(solved_edges());
    lemma_rank_injective(outer_edge_ids(p.edges), outer_edge_ids(solved_edges()), 0);
    lemma_rank_injective(slice_edge_ids(p.edges), slice_edge_ids(solved_edges()), 8);
    assert forall|i: int| 0 <= i < 12 implies p.edges[i] == solved_edges()[i] by {
        assert(p.edges[i].orientation == 0);
        if i < 8 {
            assert(outer_edge_ids(p.edges)[i] == p.edges[i].piece.spec_index());
            assert(outer_edge_ids(solved_edges())[i] == solved_edges()[i].piece.spec_index());
        } else {
            assert(slice_edge_ids(p.edges)[i - 8] == p.edges[i].piece.spec_index());
            assert(slice_edge_ids(solved_edges())[i - 8] == solved_edges()[i].piece.spec_index());
        }
    }
    assert(p.edges =~= solved_edges());
}

/// The goal of the search for the 2x2x2 cube: valid corners whose orientation index
/// and permutation index are zero are the solved corners.
pub proof fn lemma_corners_goal(cs: Seq<CornerPiece>)
    requires
        corners_valid(cs),
        corner_orientation_index(cs) == 0,
        corner_permutation_index(cs) == 0,
    ensures
        cs == solved_corners(),
{
    lemma_solved_indices();
    crate::corner::lemma_solved_corners_valid();
    lemma_corner_ids_arrangement(cs);
    lemma_corner_ids_arrangement(solved_corners());
    lemma_rank_injective(corner_ids(cs), corner_ids(solved_corners()), 0);
    assert forall|i: int| 0 <= i < 8 implies cs[i] == solved_corners()[i] by {
        lemma_same_corner_ids(cs, solved_corners(), i);
        lemma_same_corner_twists(cs, solved_corners(), i);
    }
    assert(cs =~= solved_corners());
}

/// Whether the index of a coordinate after a move is to follow from the index
/// before it: for the coordinates of the second phase, in the states and with the
/// moves of that phase only.
pub open spec fn follows_in(coordinate: Coordinate, p: Pieces3x3x3, mv: Move) -> bool {
    &&& p.valid()
    &&& (coordinate == Coordinate::Phase2EdgePermutation || coordinate
        == Coordinate::Phase2EquatorialEdgePermutation) ==> in_subgroup(p)
        && spec_is_phase_2_move(mv)
}

/// The move tables are right for every state: the index of a coordinate after a
/// move is the index that the representative state of the index before it has
/// after the move, which is what a move table holds.
pub proof fn lemma_coordinate_follows(coordinate: Coordinate, p: Pieces3x3x3, mv: Move)
    requires
        follows_in(coordinate, p, mv),
    ensures
        0 <= coordinate.index_of(p) < coordinate.spec_count(),
        coordinate.moved_index(coordinate.index_of(p), mv) == coordinate.index_of(p.moved(mv)),
{
    match coordinate {
        Coordinate::CornerOrientation => {
            lemma_corner_orientation_follows(p.corners, mv);
        },
        Coordinate::CornerPermutation => {
            lemma_corner_permutation_follows(p.corners, mv);
        },
        Coordinate::EdgeOrientation => {
            lemma_edge_orientation_follows(p.edges, mv);
        },
        Coordinate::EquatorialEdgeSlice => {
            lemma_slice_follows(p.edges, mv);
        },
        Coordinate::Phase2EdgePermutation => {
            lemma_outer_edges_follow(p, mv);
        },
        Coordinate::Phase2EquatorialEdgePermutation => {
            lemma_slice_edges_follow(p, mv);
        },
    }
}

/// A well-formed move table follows the moves: for every state, the entry for the
/// index of the state and a move is the index of the state after the move.
pub proof fn lemma_table_follows(table: &MoveTable, p: Pieces3x3x3, mv: Move)
    requires
        table.wf(),
        follows_in(table.coordinate(), p, mv),
    ensures
        0 <= table.coordinate().index_of(p) < table.coordinate().spec_count(),
        table.entry(table.coordinate().index_of(p), mv) == table.coordinate().index_of(
            p.moved(mv),
        ),
        0 <= table.coordinate().index_of(p.moved(mv)) < table.coordinate().spec_count(),
{
    lemma_coordinate_follows(table.coordinate(), p, mv);
    table.lemma_entry(table.coordinate().index_of(p), mv);
}

/// The index pair of a state for one or two coordinates, as one number.
pub open spec fn pair_of(first: &MoveTable, second: Option<&MoveTable>, p: Pieces3x3x3) -> int {
    first.coordinate().index_of(p) * second_size(second) + match second {
        Some(table) => table.coordinate().index_of(p),
        None => 0,
    }
}

/// Whether the indices of the coordinates of one or two tables follow the moves of
/// a set from a state on.
pub open spec fn pair_follows_in(
    first: &MoveTable,
    second: Option<&MoveTable>,
    phase_2: bool,
    p: Pieces3x3x3,
) -> bool {
    &&& first.wf()
    &&& second matches Some(table) ==> table.wf()
    &&& if phase_2 {
        in_subgroup(p)
    } else {
        &&& p.valid()
        &&& first.coordinate() != Coordinate::Phase2EdgePermutation
        &&& first.coordinate() != Coordinate::Phase2EquatorialEdgePermutation
        &&& second matches Some(table) ==> table.coordinate() != Coordinate::Phase2EdgePermutation
            && table.coordinate() != Coordinate::Phase2EquatorialEdgePermutation
    }
}

/// The index pair after a move, by the move tables, is the index pair of the state
/// after the move.
pub proof fn lemma_pair_follows(
    first: &MoveTable,
    second: Option<&MoveTable>,
    phase_2: bool,
    p: Pieces3x3x3,
    mv: Move,
)
    requires
        pair_follows_in(first, second, phase_2, p),
        in_move_set(phase_2, mv),
    ensures
        0 <= pair_of(first, second, p) < pair_count(first, second),
        pair_after(first, second, pair_of(first, second, p), mv) == pair_of(
            first,
            second,
            p.moved(mv),
        ),
        pair_follows_in(first, second, phase_2, p.moved(mv)),
{
    let n1 = first.coordinate().spec_count();
    let n2 = second_size(second);
    let a = first.coordinate().index_of(p);
    let b = match second {
        Some(table) => table.coordinate().index_of(p),
        None => 0,
    };
    lemma_table_follows(first, p, mv);
    match second {
        Some(table) => {
            lemma_table_follows(table, p, mv);
        },
        None => {},
    }
    if phase_2 {
        lemma_subgroup_move(p, mv);
    } else {
        crate::coordinate::lemma_moved_valid(p, mv);
    }
    assert((a * n2 + b) / n2 == a && (a * n2 + b) % n2 == b && 0 <= a * n2 + b < n1 * n2)
        by (nonlinear_arith)
        requires
            0 <= b < n2,
            0 <= a < n1,
    ;
}

/// The state after a move and its inverse is the state before them.
pub proof fn lemma_back(p: Pieces3x3x3, mv: Move)
    requires
        p.valid(),
    ensures
        p.moved(mv).moved(mv.spec_inverse()) == p,
{
    crate::corner::lemma_corners_move_inverse(p.corners, mv);
    crate::edge::lemma_edges_move_inverse(p.edges, mv);
}

/// A prune table never overestimates: the bound for a state is at most the bound
/// for the state after a sequence of moves of the set of the table, plus the length
/// of the sequence. So the bound for a state is at most the number of moves of any
/// such sequence that brings both indices to zero.
pub proof fn lemma_prune_admissible(
    table: &PruneTable,
    first: &MoveTable,
    second: Option<&MoveTable>,
    phase_2: bool,
    p: Pieces3x3x3,
    moves: Seq<Move>,
)
    requires
        table.wf(first, second, phase_2),
        pair_follows_in(first, second, phase_2, p),
        forall|i: int| 0 <= i < moves.len() ==> in_move_set(phase_2, #[trigger] moves[i]),
    ensures
        0 <= pair_of(first, second, p) < table.len(),
        0 <= pair_of(first, second, p.after(moves)) < table.len(),
        table.entry(pair_of(first, second, p)) <= table.entry(
            pair_of(first, second, p.after(moves)),
        ) + moves.len(),
        pair_of(first, second, p.after(moves)) == 0 ==> table.entry(pair_of(first, second, p))
            <= moves.len(),
        pair_follows_in(first, second, phase_2, p.after(moves)),
    decreases moves.len(),
{
    lemma_pair_follows(first, second, phase_2, p, Move::U2);
    if moves.len() > 0 {
        let head = moves.drop_last();
        let mv = moves.last();
        lemma_prune_admissible(table, first, second, phase_2, p, head);
        let q = p.after(head);
        assert(p.after(moves) == q.moved(mv));
        lemma_pair_follows(first, second, phase_2, q, mv);
        let r = q.moved(mv);
        assert(in_move_set(phase_2, mv.spec_inverse()));
        lemma_pair_follows(first, second, phase_2, r, mv.spec_inverse());
        assert(q.valid());
        lemma_back(q, mv);
        table.lemma_bounded(pair_of(first, second, q));
        table.lemma_bounded(pair_of(first, second, r));
        if table.entry(pair_of(first, second, r)) < DEPTH_LIMIT {
            assert(table.entry(
                pair_after(first, second, pair_of(first, second, r), mv.spec_inverse()),
            ) <= table.entry(pair_of(first, second, r)) + 1);
        }
    } else {
        assert(p.after(moves) == p);
    }
}

} // verus!

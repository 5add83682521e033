use crate::index::{
    arranged, binomial, bubbled, digit_at, factoradic_digit, factoradic_rest, factorial,
    index_rest, lehmer_rank, lemma_positional_value_bound, lemma_smaller_after_bound,
    permutation_rank, positional_value, power, smaller_after, swapped,
};
use vstd::prelude::*;

verus! {

/// Whether `ids` holds each of the `ids.len()` numbers from `lo` on exactly once.
pub open spec fn is_arrangement(ids: Seq<int>, lo: int) -> bool {
    &&& forall|i: int| 0 <= i < ids.len() ==> lo <= #[trigger] ids[i] < lo + ids.len()
    &&& forall|i: int, j: int| 0 <= i < j < ids.len() ==> #[trigger] ids[i] != #[trigger] ids[j]
    &&& forall|v: int| lo <= v < lo + ids.len() ==> #[trigger] occurs(ids, v)
}

/// Whether some position holds `v`.
pub open spec fn occurs(ids: Seq<int>, v: int) -> bool {
    exists|i: int| 0 <= i < ids.len() && #[trigger] ids[i] == v
}

/// Number of the first `k` positions that hold a number below `x`.
pub open spec fn count_below(ids: Seq<int>, x: int, k: int) -> int
    decreases k,
{
    if k <= 0 {
        0
    } else {
        count_below(ids, x, k - 1) + if ids[k - 1] < x {
            1int
        } else {
            0int
        }
    }
}

/// Number of the first `k` positions that hold the number `v`.
pub open spec fn count_equal(ids: Seq<int>, v: int, k: int) -> int
    decreases k,
{
    if k <= 0 {
        0
    } else {
        count_equal(ids, v, k - 1) + if ids[k - 1] == v {
            1int
        } else {
            0int
        }
    }
}

/// The positions that hold a number below `x + 1` are those that hold a number
/// below `x` and those that hold `x`.
pub proof fn lemma_count_below_step(ids: Seq<int>, x: int, k: int)
    ensures
        count_below(ids, x + 1, k) == count_below(ids, x, k) + count_equal(ids, x, k),
        0 <= count_equal(ids, x, k),
        0 <= count_below(ids, x, k),
    decreases k,
{
    if k > 0 {
        lemma_count_below_step(ids, x, k - 1);
    }
}

/// Where no two positions hold the same number, the first `k` positions hold the
/// number at position `p` once if `p` is among them, and not at all if it is not.
pub proof fn lemma_count_equal_at(ids: Seq<int>, p: int, k: int)
    requires
        0 <= p < ids.len(),
        0 <= k <= ids.len(),
        forall|i: int, j: int| 0 <= i < j < ids.len() ==> #[trigger] ids[i] != #[trigger] ids[j],
    ensures
        count_equal(ids, ids[p], k) == if p < k {
            1int
        } else {
            0int
        },
    decreases k,
{
    if k > 0 {
        lemma_count_equal_at(ids, p, k - 1);
        if k - 1 != p {
            if k - 1 < p {
                assert(ids[k - 1] != ids[p]);
            } else {
                assert(ids[p] != ids[k - 1]);
            }
        }
    }
}

/// No position holds a number below the lowest.
pub proof fn lemma_count_below_lowest(ids: Seq<int>, lo: int, k: int)
    requires
        0 <= k <= ids.len(),
        forall|i: int| 0 <= i < ids.len() ==> lo <= #[trigger] ids[i],
    ensures
        count_below(ids, lo, k) == 0,
    decreases k,
{
    if k > 0 {
        lemma_count_below_lowest(ids, lo, k - 1);
    }
}

/// In an arrangement, as many positions hold a number below `x` as there are
/// numbers below `x`.
pub proof fn lemma_count_below_all(ids: Seq<int>, lo: int, x: int)
    requires
        is_arrangement(ids, lo),
        lo <= x <= lo + ids.len(),
    ensures
        count_below(ids, x, ids.len() as int) == x - lo,
    decreases x - lo,
{
    let n = ids.len() as int;
    if x == lo {
        lemma_count_below_lowest(ids, lo, n);
    } else {
        lemma_count_below_all(ids, lo, x - 1);
        lemma_count_below_step(ids, x - 1, n);
        assert(occurs(ids, x - 1));
        let p = choose|p: int| 0 <= p < ids.len() && #[trigger] ids[p] == x - 1;
        lemma_count_equal_at(ids, p, n);
    }
}

/// The later positions that hold a smaller number are all positions that do, less
/// those up to the position itself.
pub proof fn lemma_smaller_after_counts(ids: Seq<int>, i: int, end: int)
    requires
        0 <= i < end <= ids.len(),
    ensures
        smaller_after(ids, i, end) == count_below(ids, ids[i], end) - count_below(
            ids,
            ids[i],
            i + 1,
        ),
    decreases end - i,
{
    if end > i + 1 {
        lemma_smaller_after_counts(ids, i, end - 1);
    }
}

/// Where no two positions hold the same number, the first `k` positions hold at
/// most `b - a` numbers from `a` up to, and without, `b`, and one less where `a` is
/// held by a position that is not among them.
pub proof fn lemma_count_between(ids: Seq<int>, a: int, b: int, k: int, holder: int)
    requires
        0 <= k <= ids.len(),
        a < b,
        k <= holder < ids.len(),
        ids[holder] == a,
        forall|i: int, j: int| 0 <= i < j < ids.len() ==> #[trigger] ids[i] != #[trigger] ids[j],
    ensures
        count_below(ids, b, k) - count_below(ids, a, k) <= b - a - 1,
    decreases b - a,
{
    lemma_count_below_step(ids, b - 1, k);
    if b - 1 == a {
        lemma_count_equal_at(ids, holder, k);
    } else {
        lemma_count_between(ids, a, b - 1, k, holder);
        lemma_count_equal_bound(ids, b - 1, k);
    }
}

/// Where no two positions hold the same number, a number is held at most once.
pub proof fn lemma_count_equal_bound(ids: Seq<int>, v: int, k: int)
    requires
        0 <= k <= ids.len(),
        forall|i: int, j: int| 0 <= i < j < ids.len() ==> #[trigger] ids[i] != #[trigger] ids[j],
    ensures
        count_equal(ids, v, k) <= 1,
        count_equal(ids, v, k) == 1 ==> exists|p: int| 0 <= p < k && #[trigger] ids[p] == v,
    decreases k,
{
    if k > 0 {
        lemma_count_equal_bound(ids, v, k - 1);
        if ids[k - 1] == v {
            lemma_count_equal_at(ids, k - 1, k - 1);
        }
    }
}

/// Two sequences that agree on the first `k` positions have the same counts there.
pub proof fn lemma_count_below_same_prefix(ids: Seq<int>, other: Seq<int>, x: int, k: int)
    requires
        0 <= k <= ids.len(),
        k <= other.len(),
        forall|j: int| 0 <= j < k ==> ids[j] == other[j],
    ensures
        count_below(ids, x, k) == count_below(other, x, k),
    decreases k,
{
    if k > 0 {
        lemma_count_below_same_prefix(ids, other, x, k - 1);
    }
}

/// The digit of a position in the rank of an arrangement: the number of numbers
/// below its own that no earlier position holds.
pub proof fn lemma_digit_of_arrangement(ids: Seq<int>, lo: int, i: int)
    requires
        is_arrangement(ids, lo),
        0 <= i < ids.len(),
    ensures
        smaller_after(ids, i, ids.len() as int) == ids[i] - lo - count_below(ids, ids[i], i),
{
    let n = ids.len() as int;
    lemma_smaller_after_counts(ids, i, n);
    lemma_count_below_all(ids, lo, ids[i]);
}

/// Two arrangements of the same numbers that agree before position `i` and have
/// the same digit at position `i` agree at position `i`.
pub proof fn lemma_same_digit_same_number(ids: Seq<int>, other: Seq<int>, lo: int, i: int)
    requires
        is_arrangement(ids, lo),
        is_arrangement(other, lo),
        ids.len() == other.len(),
        0 <= i < ids.len(),
        forall|j: int| 0 <= j < i ==> ids[j] == other[j],
        smaller_after(ids, i, ids.len() as int) == smaller_after(other, i, other.len() as int),
    ensures
        ids[i] == other[i],
{
    let a = ids[i];
    let b = other[i];
    lemma_digit_of_arrangement(ids, lo, i);
    lemma_digit_of_arrangement(other, lo, i);
    lemma_count_below_same_prefix(ids, other, a, i);
    lemma_count_below_same_prefix(ids, other, b, i);
    if a < b {
        lemma_count_between(ids, a, b, i, i);
    } else if b < a {
        lemma_count_between(other, b, a, i, i);
    }
}

/// The rank built from the first `count` positions is a multiple of the weight of
/// the next.
pub proof fn lemma_lehmer_rank_multiple(ids: Seq<int>, count: nat)
    requires
        count < ids.len(),
    ensures
        lehmer_rank(ids, count) % (ids.len() - count) == 0,
        lehmer_rank(ids, count) >= 0,
{
    let n = ids.len() as int;
    if count > 0 {
        crate::index::lemma_lehmer_rank_bound(ids, count);
        let x = lehmer_rank(ids, (count - 1) as nat) + smaller_after(ids, count - 1, n);
        let m = n - count;
        assert((x * m) % m == 0) by (nonlinear_arith)
            requires
                m > 0,
        ;
    }
}

/// Two sequences of the same length whose ranks from the first `count` positions
/// are equal have equal digits at these positions.
pub proof fn lemma_equal_rank_equal_digits(ids: Seq<int>, other: Seq<int>, count: nat, i: int)
    requires
        ids.len() == other.len(),
        count < ids.len(),
        lehmer_rank(ids, count) == lehmer_rank(other, count),
        0 <= i < count,
    ensures
        smaller_after(ids, i, ids.len() as int) == smaller_after(other, i, other.len() as int),
    decreases count,
{
    let n = ids.len() as int;
    let prev = (count - 1) as nat;
    let m = n - count;
    let r1 = lehmer_rank(ids, prev);
    let r2 = lehmer_rank(other, prev);
    let d1 = smaller_after(ids, count - 1, n);
    let d2 = smaller_after(other, count - 1, n);
    lemma_smaller_after_bound(ids, count - 1, n);
    lemma_smaller_after_bound(other, count - 1, n);
    lemma_lehmer_rank_multiple(ids, prev);
    lemma_lehmer_rank_multiple(other, prev);
    assert(r1 + d1 == r2 + d2) by (nonlinear_arith)
        requires
            (r1 + d1) * m == (r2 + d2) * m,
            m > 0,
    ;
    lemma_split_multiple(r1, d1, r2, d2, m + 1);
    if i < count - 1 {
        lemma_equal_rank_equal_digits(ids, other, prev, i);
    }
}

/// A multiple of `m` plus a number below `m` is such a sum in one way only.
pub proof fn lemma_split_multiple(r1: int, d1: int, r2: int, d2: int, m: int)
    requires
        m > 0,
        r1 % m == 0,
        r2 % m == 0,
        0 <= d1 < m,
        0 <= d2 < m,
        r1 + d1 == r2 + d2,
    ensures
        r1 == r2,
        d1 == d2,
{
    assert((r1 + d1) % m == d1) by (nonlinear_arith)
        requires
            m > 0,
            r1 % m == 0,
            0 <= d1 < m,
    ;
    assert((r2 + d2) % m == d2) by (nonlinear_arith)
        requires
            m > 0,
            r2 % m == 0,
            0 <= d2 < m,
    ;
}

/// Two arrangements of the same numbers with the same rank agree up to position
/// `k`.
pub proof fn lemma_equal_rank_equal_prefix(ids: Seq<int>, other: Seq<int>, lo: int, k: int)
    requires
        is_arrangement(ids, lo),
        is_arrangement(other, lo),
        ids.len() == other.len(),
        ids.len() >= 1,
        permutation_rank(ids) == permutation_rank(other),
        0 <= k <= ids.len(),
    ensures
        forall|j: int| 0 <= j < k ==> ids[j] == other[j],
    decreases k,
{
    if k > 0 {
        lemma_equal_rank_equal_prefix(ids, other, lo, k - 1);
        let n = ids.len() as int;
        let i = k - 1;
        if i < n - 1 {
            lemma_equal_rank_equal_digits(ids, other, (n - 1) as nat, i);
        } else {
            assert(smaller_after(ids, i, n) == 0);
            assert(smaller_after(other, i, n) == 0);
        }
        lemma_same_digit_same_number(ids, other, lo, i);
    }
}

/// The rank tells arrangements apart: two arrangements of the same numbers with
/// the same rank are the same arrangement.
pub proof fn lemma_rank_injective(ids: Seq<int>, other: Seq<int>, lo: int)
    requires
        is_arrangement(ids, lo),
        is_arrangement(other, lo),
        ids.len() == other.len(),
        ids.len() >= 1,
        permutation_rank(ids) == permutation_rank(other),
    ensures
        ids == other,
{
    lemma_equal_rank_equal_prefix(ids, other, lo, ids.len() as int);
    assert(ids =~= other);
}

/// What bubbling leaves at a position: the element that moved down at its new
/// place, the elements that it passed one place up, and the others where they
/// were.
pub proof fn lemma_bubbled_at<T>(s: Seq<T>, from: int, to: int, k: int)
    requires
        0 <= to <= from < s.len(),
        0 <= k < s.len(),
    ensures
        bubbled(s, from, to).len() == s.len(),
        bubbled(s, from, to)[k] == if k == to {
            s[from]
        } else if to < k <= from {
            s[k - 1]
        } else {
            s[k]
        },
    decreases from - to,
{
    if from > to {
        lemma_bubbled_at(swapped(s, from, from - 1), from - 1, to, k);
    }
}

/// Exchanging two neighbors among the first `k` positions keeps the count.
pub proof fn lemma_count_below_neighbors(s: Seq<int>, b: int, x: int, k: int)
    requires
        0 <= b,
        b + 2 <= k <= s.len(),
    ensures
        count_below(swapped(s, b + 1, b), x, k) == count_below(s, x, k),
    decreases k,
{
    let t = swapped(s, b + 1, b);
    if k > b + 2 {
        lemma_count_below_neighbors(s, b, x, k - 1);
    } else {
        lemma_count_below_same_prefix(t, s, x, b);
        assert(count_below(t, x, b + 1) == count_below(t, x, b) + if t[b] < x {
            1int
        } else {
            0int
        });
        assert(count_below(s, x, b + 1) == count_below(s, x, b) + if s[b] < x {
            1int
        } else {
            0int
        });
    }
}

/// Bubbling among the first `k` positions keeps the count.
pub proof fn lemma_count_below_bubbled(s: Seq<int>, from: int, to: int, x: int, k: int)
    requires
        0 <= to <= from < k <= s.len(),
    ensures
        count_below(bubbled(s, from, to), x, k) == count_below(s, x, k),
    decreases from - to,
{
    if from > to {
        lemma_count_below_neighbors(s, from - 1, x, k);
        lemma_count_below_bubbled(swapped(s, from, from - 1), from - 1, to, x, k);
    }
}

/// Whether the numbers from position `i` on are in ascending order.
pub open spec fn ascending_from(s: Seq<int>, i: int) -> bool {
    forall|a: int, b: int| i <= a < b < s.len() ==> #[trigger] s[a] < #[trigger] s[b]
}

/// Where the numbers from position `i` on ascend, those of the positions from `i`
/// up to `e` that are below the number at position `p` are the positions before
/// `p`.
pub proof fn lemma_count_ascending(s: Seq<int>, i: int, p: int, e: int)
    requires
        0 <= i <= p < s.len(),
        i <= e <= s.len(),
        ascending_from(s, i),
    ensures
        count_below(s, s[p], e) - count_below(s, s[p], i) == if e <= p {
            e - i
        } else {
            p - i
        },
    decreases e - i,
{
    if e > i {
        lemma_count_ascending(s, i, p, e - 1);
        if e - 1 < p {
            assert(s[e - 1] < s[p]);
        } else if e - 1 > p {
            assert(s[p] < s[e - 1]);
        }
    }
}

/// Bubbling keeps an arrangement an arrangement.
pub proof fn lemma_bubbled_arrangement(s: Seq<int>, lo: int, from: int, to: int)
    requires
        is_arrangement(s, lo),
        0 <= to <= from < s.len(),
    ensures
        is_arrangement(bubbled(s, from, to), lo),
{
    let t = bubbled(s, from, to);
    lemma_bubbled_at(s, from, to, 0);
    assert forall|i: int| 0 <= i < t.len() implies lo <= #[trigger] t[i] < lo + t.len() by {
        lemma_bubbled_at(s, from, to, i);
    }
    assert forall|i: int, j: int| 0 <= i < j < t.len() implies #[trigger] t[i] != #[trigger] t[j] by {
        lemma_bubbled_at(s, from, to, i);
        lemma_bubbled_at(s, from, to, j);
        let a = if i == to {
            from
        } else if to < i <= from {
            i - 1
        } else {
            i
        };
        let b = if j == to {
            from
        } else if to < j <= from {
            j - 1
        } else {
            j
        };
        assert(a != b);
        if a < b {
            assert(s[a] != s[b]);
        } else {
            assert(s[b] != s[a]);
        }
    }
    assert forall|v: int| lo <= v < lo + t.len() implies #[trigger] occurs(t, v) by {
        assert(occurs(s, v));
        let p = choose|p: int| 0 <= p < s.len() && #[trigger] s[p] == v;
        let q = if p == from {
            to
        } else if to <= p < from {
            p + 1
        } else {
            p
        };
        lemma_bubbled_at(s, from, to, q);
        assert(t[q] == v);
    }
}

/// The arrangement with a given rank has the digits of the rank: at every position
/// from `i` on, as many later positions hold a smaller number as the digit says.
/// The positions before `i` keep their numbers and their digits.
pub proof fn lemma_arranged_digits(s: Seq<int>, lo: int, idx: int, i: int)
    requires
        is_arrangement(s, lo),
        0 <= i < s.len(),
        0 <= idx,
        ascending_from(s, i),
    ensures
        is_arrangement(arranged(s, 0, s.len() as int, idx, i), lo),
        arranged(s, 0, s.len() as int, idx, i).len() == s.len(),
        forall|j: int|
            i <= j < s.len() ==> #[trigger] smaller_after(
                arranged(s, 0, s.len() as int, idx, i),
                j,
                s.len() as int,
            ) == factoradic_digit(idx, (s.len() - 1 - j) as nat),
        forall|j: int| 0 <= j < i ==> #[trigger] arranged(s, 0, s.len() as int, idx, i)[j] == s[j],
        forall|j: int|
            0 <= j < i ==> #[trigger] smaller_after(
                arranged(s, 0, s.len() as int, idx, i),
                j,
                s.len() as int,
            ) == smaller_after(s, j, s.len() as int),
    decreases s.len() - i,
{
    let n = s.len() as int;
    let w = arranged(s, 0, n, idx, i);
    if i + 1 >= n {
        assert(w == s);
        assert(factoradic_digit(idx, 0) == 0);
        assert(smaller_after(s, n - 1, n) == 0);
    } else {
        let d = factoradic_digit(idx, (n - 1 - i) as nat);
        lemma_factoradic_digit_bound(idx, (n - 1 - i) as nat);
        let t = bubbled(s, i + d, i);
        lemma_bubbled_arrangement(s, lo, i + d, i);
        lemma_bubbled_at(s, i + d, i, 0);
        assert(ascending_from(t, i + 1)) by {
            assert forall|a: int, b: int| i + 1 <= a < b < t.len() implies #[trigger] t[a]
                < #[trigger] t[b] by {
                lemma_bubbled_at(s, i + d, i, a);
                lemma_bubbled_at(s, i + d, i, b);
                let pa = if a <= i + d {
                    a - 1
                } else {
                    a
                };
                let pb = if b <= i + d {
                    b - 1
                } else {
                    b
                };
                assert(s[pa] < s[pb]);
            }
        }
        lemma_arranged_digits(t, lo, idx, i + 1);
        assert(w == arranged(t, 0, n, idx, i + 1));
        assert forall|j: int| 0 <= j < i implies #[trigger] w[j] == s[j] by {
            lemma_bubbled_at(s, i + d, i, j);
            assert(w[j] == t[j]);
        }
        assert forall|j: int| 0 <= j <= i implies smaller_after(t, j, n) == if j == i {
            d
        } else {
            smaller_after(s, j, n)
        } by {
            lemma_smaller_after_counts(t, j, n);
            lemma_smaller_after_counts(s, j, n);
            lemma_bubbled_at(s, i + d, i, j);
            if j < i {
                lemma_count_below_bubbled(s, i + d, i, s[j], n);
                assert forall|k: int| 0 <= k < j + 1 implies t[k] == s[k] by {
                    lemma_bubbled_at(s, i + d, i, k);
                }
                lemma_count_below_same_prefix(t, s, s[j], j + 1);
            } else {
                let v = s[i + d];
                assert(t[i] == v);
                lemma_count_below_bubbled(s, i + d, i, v, n);
                assert forall|k: int| 0 <= k < i implies t[k] == s[k] by {
                    lemma_bubbled_at(s, i + d, i, k);
                }
                lemma_count_below_same_prefix(t, s, v, i);
                lemma_count_ascending(s, i, i + d, n);
                assert(count_below(t, v, i + 1) == count_below(t, v, i));
            }
        }
        assert forall|j: int| i <= j < n implies #[trigger] smaller_after(w, j, n)
            == factoradic_digit(idx, (n - 1 - j) as nat) by {
            if j == i {
                assert(smaller_after(w, i, n) == smaller_after(t, i, n));
            }
        }
        assert forall|j: int| 0 <= j < i implies #[trigger] smaller_after(w, j, n) == smaller_after(
            s,
            j,
            n,
        ) by {
            assert(smaller_after(w, j, n) == smaller_after(t, j, n));
        }
    }
}

/// A digit of the factorial number system is below its base.
pub proof fn lemma_factoradic_digit_bound(idx: int, place: nat)
    requires
        0 <= idx,
    ensures
        0 <= factoradic_digit(idx, place) <= place,
        0 <= factoradic_rest(idx, place),
    decreases place,
{
    if place > 0 {
        lemma_factoradic_digit_bound(idx, (place - 1) as nat);
    }
}

/// What is left of a number after `places` digits, times the weight of the next
/// digit, is at most the number.
pub proof fn lemma_factoradic_rest_bound(idx: int, places: nat)
    requires
        0 <= idx,
    ensures
        0 <= factoradic_rest(idx, places) * factorial(places) <= idx,
    decreases places,
{
    if places > 0 {
        let prev = (places - 1) as nat;
        lemma_factoradic_rest_bound(idx, prev);
        lemma_factoradic_digit_bound(idx, prev);
        crate::index::lemma_factorial_at_least(prev);
        let r = factoradic_rest(idx, prev);
        let f = factorial(prev);
        let q = r / (places as int);
        assert(q * (places * f) <= r * f && q * (places * f) >= 0) by (nonlinear_arith)
            requires
                q == r / (places as int),
                places > 0,
                r >= 0,
                f >= 1,
        ;
    } else {
        assert(factoradic_rest(idx, 0) * factorial(0) == idx) by (nonlinear_arith)
            requires
                factoradic_rest(idx, 0) == idx,
                factorial(0) == 1,
        ;
    }
}

/// A sequence whose digits are those of a number below `n!` has, from its first
/// `count` positions, the rank that these digits of the number give.
pub proof fn lemma_rank_of_digits(w: Seq<int>, idx: int, count: nat)
    requires
        w.len() >= 1,
        count < w.len(),
        0 <= idx < factorial(w.len()),
        forall|j: int|
            0 <= j < count ==> #[trigger] smaller_after(w, j, w.len() as int) == factoradic_digit(
                idx,
                (w.len() - 1 - j) as nat,
            ),
    ensures
        lehmer_rank(w, count) == factoradic_rest(idx, (w.len() - count) as nat) * (w.len() - count),
    decreases count,
{
    let n = w.len() as int;
    if count == 0 {
        lemma_factoradic_rest_bound(idx, n as nat);
        lemma_factoradic_digit_bound(idx, n as nat);
        let r = factoradic_rest(idx, n as nat);
        let f = factorial(n as nat);
        assert(r == 0) by (nonlinear_arith)
            requires
                0 <= r * f <= idx,
                idx < f,
                r >= 0,
        ;
        assert(lehmer_rank(w, 0) == 0);
        assert(r * (n - 0) == 0) by (nonlinear_arith)
            requires
                r == 0,
        ;
    } else {
        let prev = (count - 1) as nat;
        lemma_rank_of_digits(w, idx, prev);
        let m = n - prev;
        let r = factoradic_rest(idx, (n - count) as nat);
        let before = lehmer_rank(w, prev);
        let d = smaller_after(w, prev as int, n);
        lemma_factoradic_digit_bound(idx, (n - count) as nat);
        assert((n - prev) as nat == (n - count) as nat + 1);
        assert(factoradic_rest(idx, (n - prev) as nat) == r / m);
        assert(before == (r / m) * m);
        assert(d == factoradic_digit(idx, (n - 1 - prev) as nat));
        assert(d == r % m);
        assert((r / m) * m + r % m == r) by (nonlinear_arith)
            requires
                m > 0,
        ;
        assert(before + d == r);
        assert(lehmer_rank(w, count) == (before + d) * (n - count));
    }
}

/// The arrangement that is built for a rank has that rank.
pub proof fn lemma_arranged_rank(s: Seq<int>, lo: int, idx: int)
    requires
        is_arrangement(s, lo),
        s.len() >= 1,
        ascending_from(s, 0),
        0 <= idx < factorial(s.len()),
    ensures
        is_arrangement(arranged(s, 0, s.len() as int, idx, 0), lo),
        permutation_rank(arranged(s, 0, s.len() as int, idx, 0)) == idx,
{
    let n = s.len() as int;
    let w = arranged(s, 0, n, idx, 0);
    lemma_arranged_digits(s, lo, idx, 0);
    lemma_rank_of_digits(w, idx, (n - 1) as nat);
    assert(factoradic_rest(idx, 1) == factoradic_rest(idx, 0) / 1);
}

/// A multiple of a number leaves no remainder.
pub proof fn lemma_multiple_remainder(x: int, m: int)
    requires
        m > 0,
    ensures
        (x * m) % m == 0,
{
    assert((x * m) % m == 0) by (nonlinear_arith)
        requires
            m > 0,
    ;
}

/// Whether every digit is a digit in `base`.
pub open spec fn digits_in_base(digits: Seq<int>, base: int) -> bool {
    forall|i: int| 0 <= i < digits.len() ==> 0 <= #[trigger] digits[i] < base
}

/// The value tells numbers of the same length apart: two sequences of as many
/// digits with the same value are the same sequence.
pub proof fn lemma_positional_injective(a: Seq<int>, b: Seq<int>, base: int)
    requires
        base > 0,
        a.len() == b.len(),
        digits_in_base(a, base),
        digits_in_base(b, base),
        positional_value(a, base) == positional_value(b, base),
    ensures
        a == b,
    decreases a.len(),
{
    if a.len() > 0 {
        let x = positional_value(a.drop_last(), base);
        let y = positional_value(b.drop_last(), base);
        assert(digits_in_base(a.drop_last(), base)) by {
            assert forall|i: int| 0 <= i < a.drop_last().len() implies 0
                <= #[trigger] a.drop_last()[i] < base by {
                assert(a.drop_last()[i] == a[i]);
            }
        }
        assert(digits_in_base(b.drop_last(), base)) by {
            assert forall|i: int| 0 <= i < b.drop_last().len() implies 0
                <= #[trigger] b.drop_last()[i] < base by {
                assert(b.drop_last()[i] == b[i]);
            }
        }
        lemma_multiple_remainder(x, base);
        lemma_multiple_remainder(y, base);
        assert(0 <= a.last() < base && 0 <= b.last() < base);
        lemma_split_multiple(x * base, a.last(), y * base, b.last(), base);
        assert(x == y) by (nonlinear_arith)
            requires
                x * base == y * base,
                base > 0,
        ;
        lemma_positional_injective(a.drop_last(), b.drop_last(), base);
        assert(a =~= a.drop_last().push(a.last()));
        assert(b =~= b.drop_last().push(b.last()));
    } else {
        assert(a =~= b);
    }
}

/// The value of zeros is zero.
pub proof fn lemma_positional_value_zeros(n: nat, base: int)
    ensures
        positional_value(Seq::new(n, |i: int| 0int), base) == 0,
    decreases n,
{
    if n > 0 {
        lemma_positional_value_zeros((n - 1) as nat, base);
        assert(Seq::new(n, |i: int| 0int).drop_last() =~= Seq::new((n - 1) as nat, |i: int| 0int));
    }
}

/// The digits of a number, the first being the most significant.
pub open spec fn digits_of(idx: int, base: int, n: nat) -> Seq<int> {
    Seq::new(n, |i: int| digit_at(idx, base, (n - 1 - i) as nat))
}

/// Taking a digit off a number and then `places` more is taking `places + 1` off.
pub proof fn lemma_index_rest_shift(idx: int, base: int, places: nat)
    ensures
        index_rest(idx, base, places + 1) == index_rest(idx / base, base, places),
    decreases places,
{
    if places > 0 {
        lemma_index_rest_shift(idx, base, (places - 1) as nat);
    } else {
        assert(index_rest(idx, base, 1) == index_rest(idx, base, 0) / base);
    }
}

/// The digits of a number below `base` to the power of `n` have the number as
/// their value.
pub proof fn lemma_digits_value(idx: int, base: int, n: nat)
    requires
        base > 0,
        0 <= idx < power(base, n),
    ensures
        positional_value(digits_of(idx, base, n), base) == idx,
        digits_in_base(digits_of(idx, base, n), base),
    decreases n,
{
    let ds = digits_of(idx, base, n);
    assert forall|i: int| 0 <= i < ds.len() implies 0 <= #[trigger] ds[i] < base by {
        assert(ds[i] == index_rest(idx, base, (n - 1 - i) as nat) % base);
    }
    if n > 0 {
        let m = (n - 1) as nat;
        assert(0 <= idx / base < power(base, m)) by (nonlinear_arith)
            requires
                0 <= idx < base * power(base, m),
                base > 0,
        ;
        lemma_digits_value(idx / base, base, m);
        assert(ds.drop_last() =~= digits_of(idx / base, base, m)) by {
            assert forall|i: int| 0 <= i < m implies ds.drop_last()[i] == digits_of(
                idx / base,
                base,
                m,
            )[i] by {
                lemma_index_rest_shift(idx, base, (m - 1 - i) as nat);
            }
        }
        assert(ds.last() == idx % base);
        assert((idx / base) * base + idx % base == idx) by (nonlinear_arith)
            requires
                base > 0,
        ;
    }
}

/// Number of the first `i` places that are members of a set of places.
pub open spec fn prefix_count(b: Seq<bool>, i: int) -> int
    decreases i,
{
    if i <= 0 {
        0
    } else {
        prefix_count(b, i - 1) + if b[i - 1] {
            1int
        } else {
            0int
        }
    }
}

/// Rank, in the combinatorial number system, of the members among the first `i`
/// places: the member that comes `k`-th in ascending order, counted from 1, at
/// place `c` adds the number of ways to choose `k` out of `c`.
pub open spec fn prefix_rank(b: Seq<bool>, i: int) -> int
    decreases i,
{
    if i <= 0 {
        0
    } else {
        prefix_rank(b, i - 1) + if b[i - 1] {
            binomial((i - 1) as nat, (prefix_count(b, i - 1) + 1) as nat) as int
        } else {
            0int
        }
    }
}

/// Choosing out of one more adds the ways that take the new one.
pub proof fn lemma_pascal(n: nat, k: nat)
    ensures
        binomial(n + 1, k + 1) == binomial(n, k) + binomial(n, k + 1),
{
}

/// Choosing out of more gives at least as many ways.
pub proof fn lemma_binomial_grows(small: nat, large: nat, k: nat)
    requires
        small <= large,
    ensures
        binomial(small, k) <= binomial(large, k),
    decreases large,
{
    if small < large {
        lemma_binomial_grows(small, (large - 1) as nat, k);
    }
}

/// The rank of the members among the first `i` places is below the number of ways
/// to choose as many as they are out of `i`.
pub proof fn lemma_prefix_rank_bound(b: Seq<bool>, i: int)
    requires
        0 <= i,
    ensures
        0 <= prefix_count(b, i) <= i,
        0 <= prefix_rank(b, i) < binomial(i as nat, prefix_count(b, i) as nat),
    decreases i,
{
    if i > 0 {
        lemma_prefix_rank_bound(b, i - 1);
        let c = prefix_count(b, i - 1) as nat;
        if b[i - 1] {
            lemma_pascal((i - 1) as nat, c);
        } else {
            lemma_binomial_grows((i - 1) as nat, i as nat, c);
        }
    }
}

/// Two sets with as many members among the first `i` places, and with the same rank
/// there, have the same members there.
pub proof fn lemma_prefix_rank_injective(a: Seq<bool>, b: Seq<bool>, i: int)
    requires
        0 <= i,
        prefix_count(a, i) == prefix_count(b, i),
        prefix_rank(a, i) == prefix_rank(b, i),
    ensures
        forall|k: int| 0 <= k < i ==> a[k] == b[k],
    decreases i,
{
    if i > 0 {
        lemma_prefix_rank_bound(a, i - 1);
        lemma_prefix_rank_bound(b, i - 1);
        if a[i - 1] != b[i - 1] {
            assert(false);
        }
        lemma_prefix_rank_injective(a, b, i - 1);
    }
}

/// Whether `i` is one of four numbers.
pub open spec fn among_four(i: int, p1: int, p2: int, p3: int, p4: int) -> bool {
    i == p1 || i == p2 || i == p3 || i == p4
}

/// Rank of four members in ascending order, as far as they are below `i`.
pub open spec fn members_rank_below(i: int, p1: int, p2: int, p3: int, p4: int) -> int {
    (if p1 < i {
        binomial(p1 as nat, 1) as int
    } else {
        0int
    }) + (if p2 < i {
        binomial(p2 as nat, 2) as int
    } else {
        0int
    }) + (if p3 < i {
        binomial(p3 as nat, 3) as int
    } else {
        0int
    }) + (if p4 < i {
        binomial(p4 as nat, 4) as int
    } else {
        0int
    })
}

/// Number of those of four members that are below `i`.
pub open spec fn members_count_below(i: int, p1: int, p2: int, p3: int, p4: int) -> int {
    (if p1 < i {
        1int
    } else {
        0int
    }) + (if p2 < i {
        1int
    } else {
        0int
    }) + (if p3 < i {
        1int
    } else {
        0int
    }) + (if p4 < i {
        1int
    } else {
        0int
    })
}

/// The count and the rank of a set of four members in ascending order.
pub proof fn lemma_prefix_of_members(b: Seq<bool>, i: int, p1: int, p2: int, p3: int, p4: int)
    requires
        0 <= i <= b.len(),
        0 <= p1 < p2 < p3 < p4 < b.len(),
        forall|k: int| 0 <= k < b.len() ==> (#[trigger] b[k] <==> among_four(k, p1, p2, p3, p4)),
    ensures
        prefix_count(b, i) == members_count_below(i, p1, p2, p3, p4),
        prefix_rank(b, i) == members_rank_below(i, p1, p2, p3, p4),
    decreases i,
{
    if i > 0 {
        lemma_prefix_of_members(b, i - 1, p1, p2, p3, p4);
        assert(b[i - 1] <==> among_four(i - 1, p1, p2, p3, p4));
    }
}

/// The largest number from `p` down whose number of ways to choose `k` is at most
/// `rest`, and `k - 1` where there is none above it.
pub open spec fn greedy_choice(rest: int, k: int, p: int) -> int
    decreases p,
{
    if p <= k - 1 || p <= 0 {
        k - 1
    } else if binomial(p as nat, k as nat) <= rest {
        p
    } else {
        greedy_choice(rest, k, p - 1)
    }
}

/// What the greedy choice finds: a number whose ways to choose are at most `rest`,
/// while those of the next number, up to `top`, are more.
pub proof fn lemma_greedy_choice(rest: int, k: int, top: int)
    requires
        1 <= k,
        k - 1 <= top,
        0 <= rest,
    ensures
        k - 1 <= greedy_choice(rest, k, top) <= top,
        binomial(greedy_choice(rest, k, top) as nat, k as nat) <= rest,
        greedy_choice(rest, k, top) < top ==> binomial(
            (greedy_choice(rest, k, top) + 1) as nat,
            k as nat,
        ) > rest,
    decreases top,
{
    if top <= k - 1 || top <= 0 {
        crate::index::lemma_binomial_beyond((k - 1) as nat, k as nat);
    } else if binomial(top as nat, k as nat) <= rest {
    } else {
        lemma_greedy_choice(rest, k, top - 1);
    }
}

/// The four places that the greedy choices read off a rank below 495: they ascend,
/// and their rank is the rank that was read.
pub proof fn lemma_greedy_members(idx: int) -> (r: (int, int, int, int))
    requires
        0 <= idx < 495,
    ensures
        0 <= r.0 < r.1 < r.2 < r.3 < 12,
        r.3 == greedy_choice(idx, 4, 11),
        r.2 == greedy_choice(idx - binomial(r.3 as nat, 4), 3, 11),
        r.1 == greedy_choice(idx - binomial(r.3 as nat, 4) - binomial(r.2 as nat, 3), 2, 11),
        r.0 == greedy_choice(
            idx - binomial(r.3 as nat, 4) - binomial(r.2 as nat, 3) - binomial(r.1 as nat, 2),
            1,
            11,
        ),
        binomial(r.0 as nat, 1) + binomial(r.1 as nat, 2) + binomial(r.2 as nat, 3) + binomial(
            r.3 as nat,
            4,
        ) == idx,
        r.0 >= 0 && r.1 >= 1 && r.2 >= 2 && r.3 >= 3,
{
    let p4 = greedy_choice(idx, 4, 11);
    lemma_greedy_choice(idx, 4, 11);
    let r3 = idx - binomial(p4 as nat, 4);
    crate::edge::lemma_slice_binomials();
    lemma_pascal(11, 3);
    assert(binomial(12, 4) == 495) by {
        lemma_twelve_choose_four();
    }
    lemma_pascal(p4 as nat, 3);
    assert(r3 < binomial(p4 as nat, 3));
    let p3 = greedy_choice(r3, 3, 11);
    lemma_greedy_choice(r3, 3, 11);
    if p3 >= p4 {
        lemma_binomial_grows(p4 as nat, p3 as nat, 3);
    }
    let r2 = r3 - binomial(p3 as nat, 3);
    lemma_pascal(p3 as nat, 2);
    assert(r2 < binomial(p3 as nat, 2));
    let p2 = greedy_choice(r2, 2, 11);
    lemma_greedy_choice(r2, 2, 11);
    if p2 >= p3 {
        lemma_binomial_grows(p3 as nat, p2 as nat, 2);
    }
    let r1 = r2 - binomial(p2 as nat, 2);
    lemma_pascal(p2 as nat, 1);
    assert(r1 < binomial(p2 as nat, 1));
    let p1 = greedy_choice(r1, 1, 11);
    lemma_greedy_choice(r1, 1, 11);
    if p1 >= p2 {
        lemma_binomial_grows(p2 as nat, p1 as nat, 1);
    }
    lemma_choose_one(p1 as nat);
    lemma_choose_one((p1 + 1) as nat);
    assert(binomial((p1 + 1) as nat, 1) > r1);
    (p1, p2, p3, p4)
}

/// There are `n` ways to choose one out of `n`.
pub proof fn lemma_choose_one(n: nat)
    ensures
        binomial(n, 1) == n,
    decreases n,
{
    if n > 0 {
        lemma_choose_one((n - 1) as nat);
        assert(binomial((n - 1) as nat, 0) == 1);
    }
}

/// There are 495 ways to choose four out of twelve.
pub proof fn lemma_twelve_choose_four()
    ensures
        binomial(12, 4) == 495,
{
    crate::edge::lemma_slice_binomials();
    crate::index::lemma_binomial_step(11, 2);
    crate::index::lemma_binomial_step(11, 1);
    crate::index::lemma_binomial_step(11, 0);
    assert(binomial(11, 0) == 1);
    lemma_choose_one(11);
    let c2 = binomial(11, 2) as int;
    let c3 = binomial(11, 3) as int;
    assert(c2 == 55) by (nonlinear_arith)
        requires
            11 * (11 - 1) == c2 * (1 + 1),
    ;
    assert(c3 == 165) by (nonlinear_arith)
        requires
            c2 * (11 - 2) == c3 * (2 + 1),
            c2 == 55,
    ;
    lemma_pascal(11, 3);
}

/// Exchanging a member with a place that is none of the other members makes that
/// place a member in its stead.
pub proof fn lemma_swap_member(b: Seq<bool>, a: int, p: int, x: int, y: int, z: int)
    requires
        0 <= a < b.len(),
        0 <= p < b.len(),
        p != x && p != y && p != z,
        a != x && a != y && a != z,
        forall|k: int| 0 <= k < b.len() ==> (#[trigger] b[k] <==> among_four(k, a, x, y, z)),
    ensures
        forall|k: int|
            0 <= k < b.len() ==> (#[trigger] swapped(b, a, p)[k] <==> among_four(k, p, x, y, z)),
{
    assert(b[a]);
    assert(p != a ==> !b[p]);
}

} // verus!

use vstd::prelude::*;

verus! {

/// `base` to the power of `exp`.
pub open spec fn power(base: int, exp: nat) -> int
    decreases exp,
{
    if exp == 0 {
        1
    } else {
        base * power(base, (exp - 1) as nat)
    }
}

/// The product `n * (n - 1) * ... * 1`.
pub open spec fn factorial(n: nat) -> int
    decreases n,
{
    if n == 0 {
        1
    } else {
        n * factorial((n - 1) as nat)
    }
}

/// The product of the `count` integers from `n` downwards.
pub open spec fn falling_factorial(n: int, count: nat) -> int
    decreases count,
{
    if count == 0 {
        1
    } else {
        falling_factorial(n, (count - 1) as nat) * (n - (count - 1))
    }
}

/// Number of ways to choose `k` things out of `n`.
pub open spec fn binomial(n: nat, k: nat) -> nat
    decreases n,
{
    if k == 0 {
        1
    } else if n == 0 {
        0
    } else {
        binomial((n - 1) as nat, (k - 1) as nat) + binomial((n - 1) as nat, k)
    }
}

/// Value of a number written with the given digits, the first digit being the most
/// significant.
pub open spec fn positional_value(digits: Seq<int>, base: int) -> int
    decreases digits.len(),
{
    if digits.len() == 0 {
        0
    } else {
        positional_value(digits.drop_last(), base) * base + digits.last()
    }
}

/// Number of positions `k` with `i < k < end` that hold a smaller identity than
/// position `i`.
pub open spec fn smaller_after(ids: Seq<int>, i: int, end: int) -> int
    decreases end - i,
{
    if end <= i + 1 {
        0
    } else {
        smaller_after(ids, i, end - 1) + if ids[end - 1] < ids[i] {
            1int
        } else {
            0int
        }
    }
}

/// Rank of an arrangement in the factorial number system, built from the digits of
/// the first `count` positions: the digit of position `i` is the number of later
/// positions with a smaller identity, and its weight is `(len - 1 - i)!`, counted
/// relative to the weight of the last digit taken.
pub open spec fn lehmer_rank(ids: Seq<int>, count: nat) -> int
    decreases count,
{
    if count == 0 {
        0
    } else {
        (lehmer_rank(ids, (count - 1) as nat) + smaller_after(ids, count - 1, ids.len() as int))
            * (ids.len() - count)
    }
}

/// Rank of an arrangement of `ids.len()` identities among all arrangements.
pub open spec fn permutation_rank(ids: Seq<int>) -> int {
    lehmer_rank(ids, (ids.len() - 1) as nat)
}

/// The count of smaller later identities is at most the number of later positions.
pub proof fn lemma_smaller_after_bound(ids: Seq<int>, i: int, end: int)
    requires
        i < end,
    ensures
        0 <= smaller_after(ids, i, end) <= end - i - 1,
    decreases end - i,
{
    if end > i + 1 {
        lemma_smaller_after_bound(ids, i, end - 1);
    }
}

/// Powers of a positive base are positive.
pub proof fn lemma_power_positive(base: int, exp: nat)
    requires
        base > 0,
    ensures
        power(base, exp) > 0,
    decreases exp,
{
    if exp > 0 {
        lemma_power_positive(base, (exp - 1) as nat);
        assert(base * power(base, (exp - 1) as nat) > 0) by (nonlinear_arith)
            requires
                base > 0,
                power(base, (exp - 1) as nat) > 0,
        ;
    }
}

/// A number of `digits.len()` digits below `base` is below `base` to that power.
pub proof fn lemma_positional_value_bound(digits: Seq<int>, base: int)
    requires
        base > 0,
        forall|i: int| 0 <= i < digits.len() ==> 0 <= #[trigger] digits[i] < base,
    ensures
        0 <= positional_value(digits, base) < power(base, digits.len()),
    decreases digits.len(),
{
    if digits.len() > 0 {
        let head = digits.drop_last();
        lemma_positional_value_bound(head, base);
        let v = positional_value(head, base);
        let p = power(base, head.len());
        assert(v * base + digits.last() < base * p && v * base >= 0) by (nonlinear_arith)
            requires
                0 <= v < p,
                0 <= digits.last() < base,
        ;
    }
}

/// The falling factorial of `n` over `n` factors is the factorial of `n`.
pub proof fn lemma_falling_factorial_full(n: nat, count: nat)
    requires
        count <= n,
    ensures
        falling_factorial(n as int, count) * factorial((n - count) as nat) == factorial(n),
        falling_factorial(n as int, count) >= 1,
    decreases count,
{
    if count > 0 {
        lemma_falling_factorial_full(n, (count - 1) as nat);
        let f = falling_factorial(n as int, (count - 1) as nat);
        let m = (n - count) as nat;
        assert(factorial((m + 1) as nat) == (m + 1) * factorial(m));
        assert(f * (n - (count - 1)) * factorial(m) == f * ((m + 1) * factorial(m)))
            by (nonlinear_arith)
            requires
                n - (count - 1) == m + 1,
        ;
        assert(f * (n - (count - 1)) >= 1) by (nonlinear_arith)
            requires
                f >= 1,
                n - (count - 1) >= 1,
        ;
    }
}

/// The rank built from the first `count` positions stays below the number of ways
/// to fill them.
pub proof fn lemma_lehmer_rank_bound(ids: Seq<int>, count: nat)
    requires
        count < ids.len(),
    ensures
        0 <= lehmer_rank(ids, count),
        lehmer_rank(ids, count) <= (falling_factorial(ids.len() as int, count) - 1) * (ids.len()
            - count),
    decreases count,
{
    let n = ids.len() as int;
    if count > 0 {
        let prev = (count - 1) as nat;
        lemma_lehmer_rank_bound(ids, prev);
        lemma_smaller_after_bound(ids, prev as int, n);
        let v = lehmer_rank(ids, prev);
        let c = smaller_after(ids, prev as int, n);
        let f = falling_factorial(n, prev);
        let m = n - count;
        assert(falling_factorial(n, count) == f * (m + 1));
        assert(0 <= (v + c) * m <= (f * (m + 1) - 1) * m) by (nonlinear_arith)
            requires
                0 <= v <= (f - 1) * (m + 1),
                0 <= c <= m,
                m >= 0,
        ;
    }
}

/// The rank of an arrangement of `n` identities is below `n!`.
pub proof fn lemma_permutation_rank_bound(ids: Seq<int>)
    requires
        ids.len() >= 1,
    ensures
        0 <= permutation_rank(ids) < factorial(ids.len()),
{
    let n = ids.len();
    lemma_lehmer_rank_bound(ids, (n - 1) as nat);
    lemma_falling_factorial_full(n, (n - 1) as nat);
    assert(factorial(1) == 1) by {
        reveal_with_fuel(factorial, 2);
    }
    let f = falling_factorial(n as int, (n - 1) as nat);
    assert(f * factorial(1) == f) by (nonlinear_arith)
        requires
            factorial(1) == 1,
    ;
    assert((f - 1) * (n - (n - 1)) == f - 1) by (nonlinear_arith);
}

/// A factorial is at least its argument, and at least 1.
pub proof fn lemma_factorial_at_least(n: nat)
    ensures
        factorial(n) >= n,
        factorial(n) >= 1,
    decreases n,
{
    if n > 0 {
        lemma_factorial_at_least((n - 1) as nat);
        assert(n * factorial((n - 1) as nat) >= n) by (nonlinear_arith)
            requires
                n >= 1,
                factorial((n - 1) as nat) >= 1,
        ;
    }
}

/// The factorials up to 8.
pub proof fn lemma_small_factorials()
    ensures
        factorial(0) == 1,
        factorial(1) == 1,
        factorial(2) == 2,
        factorial(3) == 6,
        factorial(4) == 24,
        factorial(5) == 120,
        factorial(6) == 720,
        factorial(7) == 5040,
        factorial(8) == 40320,
{
    reveal_with_fuel(factorial, 9);
}

/// The factorial of a number up to 8 is at most 40320.
pub proof fn lemma_factorial_up_to_8(n: nat)
    requires
        n <= 8,
    ensures
        1 <= factorial(n) <= 40320,
{
    lemma_small_factorials();
    if n == 0 {
    } else if n == 1 {
    } else if n == 2 {
    } else if n == 3 {
    } else if n == 4 {
    } else if n == 5 {
    } else if n == 6 {
    } else if n == 7 {
    } else {
    }
}

/// Rank of an arrangement of at most eight identities.
pub fn permutation_index(ids: &[u8]) -> (r: u16)
    requires
        1 <= ids.len() <= 8,
    ensures
        r == permutation_rank(ids@.map_values(|x: u8| x as int)),
        r < factorial(ids@.len()),
{
    let n = ids.len();
    let ghost seq = ids@.map_values(|x: u8| x as int);
    proof {
        lemma_permutation_rank_bound(seq);
    }
    let mut result: u16 = 0;
    let mut i: usize = 0;
    while i + 1 < n
        invariant
            n == ids.len(),
            1 <= n <= 8,
            i + 1 <= n,
            seq == ids@.map_values(|x: u8| x as int),
            result == lehmer_rank(seq, i as nat),
        decreases n - i,
    {
        let mut cur: u16 = 0;
        let mut j: usize = i + 1;
        while j < n
            invariant
                n == ids.len(),
                n <= 8,
                i + 1 <= j <= n,
                seq == ids@.map_values(|x: u8| x as int),
                cur == smaller_after(seq, i as int, j as int),
                cur <= j - i - 1,
            decreases n - j,
        {
            if ids[i] > ids[j] {
                cur += 1;
            }
            j += 1;
        }
        proof {
            lemma_lehmer_rank_bound(seq, (i + 1) as nat);
            lemma_falling_factorial_full(n as nat, (i + 1) as nat);
            lemma_factorial_at_least((n - i - 1) as nat);
            let f = falling_factorial(n as int, (i + 1) as nat);
            let g = factorial((n - i - 1) as nat);
            let m = n - i - 1;
            let v = result + cur;
            lemma_factorial_up_to_8(n as nat);
            assert((f - 1) * m <= f * g) by (nonlinear_arith)
                requires
                    f >= 1,
                    1 <= m <= g,
            ;
            assert(v <= v * m) by (nonlinear_arith)
                requires
                    v >= 0,
                    m >= 1,
            ;
        }
        result = (result + cur) * ((n - 1 - i) as u16);
        i += 1;
    }
    result
}

/// Value of a number written with digits below `base`, the first digit being the
/// most significant.
pub fn positional_index(digits: &[u8], base: u16) -> (r: u16)
    requires
        base > 0,
        power(base as int, digits@.len()) <= 0x10000,
        forall|i: int| 0 <= i < digits@.len() ==> #[trigger] digits@[i] < base,
    ensures
        r == positional_value(digits@.map_values(|x: u8| x as int), base as int),
        r < power(base as int, digits@.len()),
{
    let n = digits.len();
    let ghost seq = digits@.map_values(|x: u8| x as int);
    let mut result: u16 = 0;
    let mut i: usize = 0;
    while i < n
        invariant
            n == digits.len(),
            i <= n,
            base > 0,
            seq == digits@.map_values(|x: u8| x as int),
            power(base as int, n as nat) <= 0x10000,
            forall|k: int| 0 <= k < digits@.len() ==> #[trigger] digits@[k] < base,
            result == positional_value(seq.take(i as int), base as int),
            result < power(base as int, i as nat),
        decreases n - i,
    {
        proof {
            let next = seq.take(i + 1);
            assert(next.drop_last() =~= seq.take(i as int));
            assert(next.last() == digits@[i as int]);
            lemma_positional_value_bound(next, base as int);
            lemma_power_monotonic(base as int, (i + 1) as nat, n as nat);
            assert(result * base <= result * base + digits@[i as int]);
        }
        result = result * base + digits[i] as u16;
        i += 1;
    }
    proof {
        assert(seq.take(n as int) =~= seq);
    }
    result
}

/// Powers of a positive base do not shrink as the exponent grows.
pub proof fn lemma_power_monotonic(base: int, small: nat, large: nat)
    requires
        base > 0,
        small <= large,
    ensures
        power(base, small) <= power(base, large),
    decreases large,
{
    if small < large {
        lemma_power_monotonic(base, small, (large - 1) as nat);
        lemma_power_positive(base, (large - 1) as nat);
        assert(base * power(base, (large - 1) as nat) >= power(base, (large - 1) as nat))
            by (nonlinear_arith)
            requires
                base >= 1,
                power(base, (large - 1) as nat) > 0,
        ;
    }
}

/// There is no way to choose more than there is.
pub proof fn lemma_binomial_beyond(n: nat, k: nat)
    requires
        k > n,
    ensures
        binomial(n, k) == 0,
    decreases n,
{
    if n > 0 {
        lemma_binomial_beyond((n - 1) as nat, (k - 1) as nat);
        lemma_binomial_beyond((n - 1) as nat, k);
    }
}

/// There is one way to choose everything.
pub proof fn lemma_binomial_all(n: nat)
    ensures
        binomial(n, n) == 1,
    decreases n,
{
    if n > 0 {
        lemma_binomial_all((n - 1) as nat);
        lemma_binomial_beyond((n - 1) as nat, n);
    }
}

/// Choosing `k` things to take is choosing `n - k` things to leave.
pub proof fn lemma_binomial_symmetric(n: nat, k: nat)
    requires
        k <= n,
    ensures
        binomial(n, k) == binomial(n, (n - k) as nat),
    decreases n,
{
    if k == 0 {
        lemma_binomial_all(n);
    } else if k == n {
        lemma_binomial_all(n);
    } else {
        lemma_binomial_symmetric((n - 1) as nat, (k - 1) as nat);
        lemma_binomial_symmetric((n - 1) as nat, k);
    }
}

/// The rule by which the multiplicative formula steps from `k` to `k + 1`.
pub proof fn lemma_binomial_step(n: nat, k: nat)
    ensures
        binomial(n, k) * (n - k) == binomial(n, k + 1) * (k + 1),
    decreases n,
{
    if n == 0 {
        lemma_binomial_beyond(0, k + 1);
        if k > 0 {
            lemma_binomial_beyond(0, k);
        }
        let x = binomial(0, k) as int;
        assert(x * (0 - k) == 0) by (nonlinear_arith)
            requires
                x == 0 || k == 0,
        ;
        assert(binomial(0, k + 1) * (k + 1) == 0) by (nonlinear_arith)
            requires
                binomial(0, k + 1) == 0,
        ;
    } else if k == 0 {
        lemma_binomial_step((n - 1) as nat, 0);
        let m = (n - 1) as nat;
        assert(binomial(m, 0) == 1);
        assert(binomial(n, 0) == 1);
        assert(binomial(n, 1) == binomial(m, 0) + binomial(m, 1));
        let y = binomial(m, 1) as int;
        assert(y == m) by (nonlinear_arith)
            requires
                1 * (m - 0) == y * (0 + 1),
        ;
        assert(binomial(n, 1) == n);
        assert(1 * (n - 0) == n * (0 + 1)) by (nonlinear_arith);
    } else {
        let m = (n - 1) as nat;
        let j = (k - 1) as nat;
        lemma_binomial_step(m, j);
        lemma_binomial_step(m, k);
        let a = binomial(m, j) as int;
        let b = binomial(m, k) as int;
        let c = binomial(m, k + 1) as int;
        assert(binomial(n, k) == a + b);
        assert(binomial(n, k + 1) == b + c);
        assert((a + b) * (n - k) == (b + c) * (k + 1)) by (nonlinear_arith)
            requires
                a * (m - j) == b * (j + 1),
                b * (m - k) == c * (k + 1),
                m == n - 1,
                j == k - 1,
        ;
    }
}

/// There are at most `2^n` ways to choose out of `n` things.
pub proof fn lemma_binomial_bound(n: nat, k: nat)
    ensures
        binomial(n, k) <= power(2, n),
    decreases n,
{
    lemma_power_positive(2, n);
    if k > 0 && n > 0 {
        lemma_binomial_bound((n - 1) as nat, (k - 1) as nat);
        lemma_binomial_bound((n - 1) as nat, k);
    }
}

/// Up to the middle, choosing more things can be done in more ways.
pub proof fn lemma_binomial_rises(n: nat, j: nat, k: nat)
    requires
        j <= k,
        2 * k <= n,
    ensures
        binomial(n, j) <= binomial(n, k),
    decreases k - j,
{
    if j < k {
        lemma_binomial_rises(n, j + 1, k);
        lemma_binomial_step(n, j);
        let a = binomial(n, j) as int;
        let b = binomial(n, j + 1) as int;
        let more = n - j;
        let fewer = j + 1;
        assert(a <= b) by (nonlinear_arith)
            requires
                a * more == b * fewer,
                more >= fewer,
                fewer > 0,
                a >= 0,
                b >= 0,
        ;
    }
}

/// The smaller of the number of things to take and the number of things to leave.
pub open spec fn fewer_of(n: nat, k: nat) -> nat {
    if k > n / 2 {
        (n - k) as nat
    } else {
        k
    }
}

/// The largest number that comes up while the multiplicative formula is worked out:
/// none where more things are asked for than there are.
pub open spec fn largest_product(n: nat, k: nat) -> nat {
    if n < k {
        0
    } else {
        binomial(n, fewer_of(n, k)) * fewer_of(n, k)
    }
}

/// Choosing out of at most 24 things stays far below the limit of the machine's
/// numbers.
pub proof fn lemma_small_product(n: nat, k: nat)
    requires
        n <= 24,
    ensures
        largest_product(n, k) <= 0x1000000 * 24,
{
    if k <= n {
        let few = fewer_of(n, k);
        lemma_binomial_bound(n, few);
        lemma_power_monotonic(2, n, 24);
        assert(power(2, 24) == 0x1000000) by {
            reveal_with_fuel(power, 25);
        }
        let ways = binomial(n, few) as int;
        assert(ways * few <= 0x1000000 * 24) by (nonlinear_arith)
            requires
                0 <= ways <= 0x1000000,
                0 <= few <= 24,
        ;
    }
}

/// Number of ways to choose `k` things out of `n`, by the multiplicative formula.
/// The largest product on the way must fit the machine's numbers.
pub fn n_choose_k(n: usize, k: usize) -> (r: usize)
    requires
        largest_product(n as nat, k as nat) <= usize::MAX,
    ensures
        r == binomial(n as nat, k as nat),
{
    if n < k {
        proof {
            lemma_binomial_beyond(n as nat, k as nat);
        }
        return 0;
    }
    let ghost asked = k;
    let k = if k > n / 2 {
        n - k
    } else {
        k
    };
    proof {
        lemma_binomial_symmetric(n as nat, asked as nat);
        assert(k == fewer_of(n as nat, asked as nat));
    }
    let mut result: usize = 1;
    let mut denom: usize = 1;
    let mut i: usize = n;
    while i > n - k
        invariant
            2 * k <= n,
            binomial(n as nat, k as nat) * k <= usize::MAX,
            n - k <= i <= n,
            denom == n - i + 1,
            result == binomial(n as nat, (n - i) as nat),
        decreases i,
    {
        proof {
            let t = (n - i) as nat;
            lemma_binomial_step(n as nat, t);
            lemma_binomial_rises(n as nat, t + 1, k as nat);
            let next = binomial(n as nat, t + 1) as int;
            let last = binomial(n as nat, k as nat) as int;
            assert(next * (t + 1) <= last * k) by (nonlinear_arith)
                requires
                    0 <= next <= last,
                    0 <= t + 1 <= k,
            ;
            assert((next * (t + 1)) / (t + 1) as int == next) by (nonlinear_arith)
                requires
                    t + 1 > 0,
            ;
        }
        result = result * i / denom;
        denom += 1;
        i -= 1;
    }
    result
}

/// What is left of `idx` after `places` digits in `base` have been taken off its
/// low end.
pub open spec fn index_rest(idx: int, base: int, places: nat) -> int
    decreases places,
{
    if places == 0 {
        idx
    } else {
        index_rest(idx, base, (places - 1) as nat) / base
    }
}

/// The digit of `idx` in `base` at `place`, place 0 being the least significant.
pub open spec fn digit_at(idx: int, base: int, place: nat) -> int {
    index_rest(idx, base, place) % base
}

/// What is left of `idx` after `places` digits of the factorial number system have
/// been taken off its low end. The digit at place `j` has base `j + 1`.
pub open spec fn factoradic_rest(idx: int, places: nat) -> int
    decreases places,
{
    if places == 0 {
        idx
    } else {
        factoradic_rest(idx, (places - 1) as nat) / (places as int)
    }
}

/// The digit of `idx` in the factorial number system at `place`.
pub open spec fn factoradic_digit(idx: int, place: nat) -> int {
    factoradic_rest(idx, place) % (place as int + 1)
}

/// The sequence with the elements at `a` and `b` exchanged.
pub open spec fn swapped<T>(s: Seq<T>, a: int, b: int) -> Seq<T> {
    s.update(a, s[b]).update(b, s[a])
}

/// The sequence after the element at `from` has moved down to `to`, each element
/// between them one place up.
pub open spec fn bubbled<T>(s: Seq<T>, from: int, to: int) -> Seq<T>
    decreases from - to,
{
    if from <= to {
        s
    } else {
        bubbled(swapped(s, from, from - 1), from - 1, to)
    }
}

/// The arrangement with a given rank of the `n` elements that start at `start`,
/// which are in ascending order in `s`: from position `i` on, each position takes,
/// of the elements not yet placed, the one that its digit counts.
pub open spec fn arranged<T>(s: Seq<T>, start: int, n: int, idx: int, i: int) -> Seq<T>
    decreases n - i,
{
    if i + 1 >= n {
        s
    } else {
        arranged(
            bubbled(s, start + i + factoradic_digit(idx, (n - 1 - i) as nat), start + i),
            start,
            n,
            idx,
            i + 1,
        )
    }
}

/// The digits of the factorial number system of a rank below `8!`, by position.
pub fn factoradic_digits(idx: u16, n: usize) -> (r: [u8; 8])
    requires
        1 <= n <= 8,
    ensures
        forall|i: int| 0 <= i < n ==> #[trigger] r@[i] == factoradic_digit(idx as int, (n - 1 - i) as nat),
        forall|i: int| 0 <= i < n ==> #[trigger] r@[i] <= n - 1 - i,
{
    let mut digits: [u8; 8] = [0u8;8];
    let mut rest: u16 = idx;
    let mut place: usize = 0;
    while place < n
        invariant
            1 <= n <= 8,
            place <= n,
            rest == factoradic_rest(idx as int, place as nat),
            forall|i: int|
                n - place <= i < n ==> #[trigger] digits@[i] == factoradic_digit(
                    idx as int,
                    (n - 1 - i) as nat,
                ),
            forall|i: int| n - place <= i < n ==> #[trigger] digits@[i] <= n - 1 - i,
        decreases n - place,
    {
        let base = (place + 1) as u16;
        digits[n - 1 - place] = (rest % base) as u8;
        rest = rest / base;
        place += 1;
    }
    digits
}

} // verus!

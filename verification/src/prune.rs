use crate::common::{lemma_move_at_index, Move};
use crate::coordinate::MoveTable;
use vstd::prelude::*;

verus! {

/// Whether a move keeps the equatorial edges in their slice and every piece
/// untwisted and unflipped: a turn of the top or bottom face, or a half turn.
pub open spec fn spec_is_phase_2_move(mv: Move) -> bool {
    mv.spec_face() == crate::common::CubeFace::Top || mv.spec_face()
        == crate::common::CubeFace::Bottom || mv.spec_rotation() == 2
}

/// Whether a move belongs to the moves of the second phase.
#[verifier::when_used_as_spec(spec_is_phase_2_move)]
pub fn is_phase_2_move(mv: Move) -> (r: bool)
    ensures
        r == spec_is_phase_2_move(mv),
{
    match mv {
        Move::U | Move::Up | Move::U2 | Move::D | Move::Dp | Move::D2 | Move::F2 | Move::R2
        | Move::B2 | Move::L2 => true,
        _ => false,
    }
}

/// Whether a move belongs to a set of moves: to all moves, or to those of the
/// second phase only.
pub open spec fn in_move_set(phase_2: bool, mv: Move) -> bool {
    !phase_2 || spec_is_phase_2_move(mv)
}

/// Value of an entry that the expansion has not reached.
pub const UNREACHED: u8 = 255;

/// Largest distance that a table can hold.
pub const DEPTH_LIMIT: u8 = 254;

/// For a pair of coordinates, or for one coordinate, a lower bound on the number of
/// moves that bring an index pair to zero.
pub struct PruneTable {
    entries: Vec<u8>,
    first_count: usize,
    second_count: usize,
}

/// Number of index pairs of one or two move tables.
pub open spec fn pair_count(first: &MoveTable, second: Option<&MoveTable>) -> int {
    first.coordinate().spec_count() * second_size(second)
}

/// Number of indices of the second coordinate, and 1 where there is none.
pub open spec fn second_size(second: Option<&MoveTable>) -> int {
    match second {
        Some(table) => table.coordinate().spec_count(),
        None => 1,
    }
}

/// The index pair, as one number, that a move leads to from an index pair.
pub open spec fn pair_after(
    first: &MoveTable,
    second: Option<&MoveTable>,
    pair: int,
    mv: Move,
) -> int {
    let n2 = second_size(second);
    first.entry(pair / n2, mv) * n2 + match second {
        Some(table) => table.entry(pair % n2, mv),
        None => 0,
    }
}

impl PruneTable {
    /// The entry of an index pair.
    pub closed spec fn entry(&self, pair: int) -> int {
        self.entries@[pair] as int
    }

    /// Number of entries.
    pub closed spec fn len(&self) -> int {
        self.entries@.len() as int
    }

    /// Number of indices of the second coordinate.
    pub closed spec fn stride(&self) -> int {
        self.second_count as int
    }

    /// Number of indices of the first coordinate.
    pub closed spec fn rows(&self) -> int {
        self.first_count as int
    }

    /// The table has an entry for every pair of a row and a place in the row.
    pub closed spec fn shaped(&self) -> bool {
        self.entries@.len() == self.first_count * self.second_count
    }

    /// What the expansion from the zero pair leaves in the table: the zero pair, and
    /// it alone, has distance 0; a move from a pair with a distance below the limit
    /// leads to a pair whose distance is at most one more; and every other reached
    /// pair has a pair one nearer from which a move leads to it.
    pub open spec fn wf(&self, first: &MoveTable, second: Option<&MoveTable>, phase_2: bool) -> bool {
        &&& self.shaped()
        &&& self.len() == pair_count(first, second)
        &&& self.rows() == first.coordinate().spec_count()
        &&& self.stride() == second_size(second)
        &&& self.entry(0) == 0
        &&& forall|i: int| 0 < i < self.len() ==> #[trigger] self.entry(i) != 0
        &&& forall|i: int, mv: Move|
            0 <= i < self.len() && self.entry(i) < DEPTH_LIMIT && in_move_set(phase_2, mv)
                ==> self.entry(#[trigger] pair_after(first, second, i, mv)) <= self.entry(i)
                + 1
        &&& forall|i: int|
            0 <= i < self.len() && 0 < self.entry(i) < UNREACHED ==> #[trigger] self.has_nearer(
                first,
                second,
                phase_2,
                i,
            )
    }

    /// Whether a move leads to pair `i` from a pair whose distance is one less.
    pub open spec fn has_nearer(
        &self,
        first: &MoveTable,
        second: Option<&MoveTable>,
        phase_2: bool,
        i: int,
    ) -> bool {
        exists|j: int, mv: Move|
            0 <= j < self.len() && in_move_set(phase_2, mv) && #[trigger] pair_after(
                first,
                second,
                j,
                mv,
            ) == i && self.entry(j) + 1 == self.entry(i)
    }

    /// An entry is at most the value of an unreached entry.
    pub proof fn lemma_bounded(&self, pair: int)
        requires
            0 <= pair < self.len(),
        ensures
            0 <= self.entry(pair) <= UNREACHED,
    {
    }

    /// Looks up the bound for an index pair.
    pub fn get(&self, first_idx: u16, second_idx: u16) -> (r: usize)
        requires
            self.shaped(),
            first_idx < self.rows(),
            second_idx < self.stride(),
        ensures
            r == self.entry(first_idx * self.stride() + second_idx),
            r <= UNREACHED,
    {
        proof {
            assert(0 <= first_idx as int * self.second_count as int + second_idx
                < self.first_count as int * self.second_count as int) by (nonlinear_arith)
                requires
                    0 <= first_idx < self.first_count,
                    0 <= second_idx < self.second_count,
            ;
            assert(0 <= first_idx as int * self.second_count as int <= self.first_count as int
                * self.second_count as int) by (nonlinear_arith)
                requires
                    0 <= first_idx < self.first_count,
                    0 <= self.second_count,
            ;
        }
        let n = self.entries.len();
        self.entries[first_idx as usize * self.second_count + second_idx as usize] as usize
    }
}

/// A move from a pair with a distance below `depth` leads to a pair whose distance
/// is at most one more.
pub open spec fn closed_below(
    e: Seq<u8>,
    first: &MoveTable,
    second: Option<&MoveTable>,
    phase_2: bool,
    depth: int,
) -> bool {
    forall|i: int, mv: Move|
        0 <= i < e.len() && e[i] < depth && in_move_set(phase_2, mv) ==> e[#[trigger] pair_after(
            first,
            second,
            i,
            mv,
        )] <= e[i] + 1
}

/// Whether a move leads to pair `i` from a pair whose distance is one less.
pub open spec fn nearer_exists(
    e: Seq<u8>,
    first: &MoveTable,
    second: Option<&MoveTable>,
    phase_2: bool,
    i: int,
) -> bool {
    exists|j: int, mv: Move|
        0 <= j < e.len() && in_move_set(phase_2, mv) && #[trigger] pair_after(first, second, j, mv)
            == i && e[j] + 1 == e[i]
}

/// Every reached pair but the zero pair has a pair one nearer from which a move
/// leads to it.
pub open spec fn all_witnessed(
    e: Seq<u8>,
    first: &MoveTable,
    second: Option<&MoveTable>,
    phase_2: bool,
) -> bool {
    forall|i: int|
        0 <= i < e.len() && 0 < e[i] < UNREACHED ==> #[trigger] nearer_exists(
            e,
            first,
            second,
            phase_2,
            i,
        )
}

/// Every entry is at most `depth` or unreached, and the zero pair alone has
/// distance 0.
pub open spec fn levels_up_to(e: Seq<u8>, depth: int) -> bool {
    &&& e.len() > 0
    &&& e[0] == 0
    &&& forall|i: int| 0 < i < e.len() ==> #[trigger] e[i] != 0
    &&& forall|i: int| 0 <= i < e.len() ==> #[trigger] e[i] <= depth || e[i] == UNREACHED
}

/// The moves from a pair lead to pairs of the table.
pub proof fn lemma_pair_after_in_range(
    first: &MoveTable,
    second: Option<&MoveTable>,
    pair: int,
    mv: Move,
)
    requires
        first.wf(),
        second matches Some(table) ==> table.wf(),
        0 <= pair < pair_count(first, second),
    ensures
        0 <= pair_after(first, second, pair, mv) < pair_count(first, second),
        0 <= pair / second_size(second) < first.coordinate().spec_count(),
        0 <= pair % second_size(second) < second_size(second),
{
    let n1 = first.coordinate().spec_count();
    let n2 = second_size(second);
    let a = pair / n2;
    let b = pair % n2;
    assert(0 <= a < n1 && 0 <= b < n2) by (nonlinear_arith)
        requires
            0 <= pair < n1 * n2,
            n2 > 0,
            a == pair / n2,
            b == pair % n2,
    ;
    first.lemma_entry(a, mv);
    let x = first.entry(a, mv);
    let y = match second {
        Some(table) => table.entry(b, mv),
        None => 0,
    };
    match second {
        Some(table) => {
            table.lemma_entry(b, mv);
        },
        None => {},
    }
    assert(0 <= x * n2 + y < n1 * n2) by (nonlinear_arith)
        requires
            0 <= x < n1,
            0 <= y < n2,
    ;
}

impl PruneTable {
    /// Builds the table by expanding outward from the zero pair, one distance at a
    /// time, with the moves of the set.
    pub fn new(first: &MoveTable, second: Option<&MoveTable>, phase_2: bool) -> (r: Self)
        requires
            first.wf(),
            second matches Some(table) ==> table.wf(),
        ensures
            r.wf(first, second, phase_2),
    {
        let n1 = first.coordinate_of().count();
        let n2 = match second {
            Some(table) => table.coordinate_of().count(),
            None => 1,
        };
        assert(n1 * n2 <= 40320 * 40320 && n1 * n2 > 0) by (nonlinear_arith)
            requires
                0 < n1 <= 40320,
                0 < n2 <= 40320,
        ;
        let n = n1 * n2;
        let mut entries: Vec<u8> = Vec::new();
        let mut k: usize = 0;
        while k < n
            invariant
                k <= n,
                entries@.len() == k,
                forall|i: int| 0 <= i < k ==> #[trigger] entries@[i] == UNREACHED,
            decreases n - k,
        {
            entries.push(UNREACHED);
            k += 1;
        }
        entries[0] = 0;
        let mut depth: u8 = 0;
        let mut changed = true;
        while changed && depth < DEPTH_LIMIT
            invariant
                first.wf(),
                second matches Some(table) ==> table.wf(),
                n1 == first.coordinate().spec_count(),
                n2 == second_size(second),
                n == n1 * n2,
                n == pair_count(first, second),
                entries@.len() == n,
                depth <= DEPTH_LIMIT,
                levels_up_to(entries@, depth as int),
                all_witnessed(entries@, first, second, phase_2),
                closed_below(entries@, first, second, phase_2, depth as int),
                !changed ==> closed_below(entries@, first, second, phase_2, UNREACHED as int),
            decreases DEPTH_LIMIT - depth,
        {
            changed = false;
            let mut i: usize = 0;
            while i < n
                invariant
                    first.wf(),
                    second matches Some(table) ==> table.wf(),
                    n1 == first.coordinate().spec_count(),
                    n2 == second_size(second),
                    n == n1 * n2,
                    n == pair_count(first, second),
                    entries@.len() == n,
                    i <= n,
                    depth < DEPTH_LIMIT,
                    levels_up_to(entries@, depth as int + 1),
                    all_witnessed(entries@, first, second, phase_2),
                    closed_below(entries@, first, second, phase_2, depth as int),
                    forall|j: int, mv: Move|
                        0 <= j < i && entries@[j] == depth && in_move_set(phase_2, mv)
                            ==> entries@[#[trigger] pair_after(first, second, j, mv)] <= depth
                            + 1,
                    !changed ==> forall|j: int|
                        0 <= j < n ==> #[trigger] entries@[j] != depth + 1,
                decreases n - i,
            {
                if entries[i] == depth {
                    let a = (i / n2) as u16;
                    let b = (i % n2) as u16;
                    proof {
                        lemma_pair_after_in_range(first, second, i as int, Move::U);
                    }
                    let mut m: usize = 0;
                    while m < 18
                        invariant
                            first.wf(),
                            second matches Some(table) ==> table.wf(),
                            n1 == first.coordinate().spec_count(),
                            n2 == second_size(second),
                            n == n1 * n2,
                            n == pair_count(first, second),
                            entries@.len() == n,
                            i < n,
                            m <= 18,
                            a == i / n2,
                            b == i % n2,
                            a < n1,
                            b < n2,
                            depth < DEPTH_LIMIT,
                            entries@[i as int] == depth,
                            levels_up_to(entries@, depth as int + 1),
                            all_witnessed(entries@, first, second, phase_2),
                            closed_below(entries@, first, second, phase_2, depth as int),
                            forall|j: int, mv: Move|
                                0 <= j < i && entries@[j] == depth && in_move_set(phase_2, mv)
                                    ==> entries@[#[trigger] pair_after(first, second, j, mv)]
                                    <= depth + 1,
                            forall|mv: Move|
                                mv.spec_index() < m && in_move_set(phase_2, mv)
                                    ==> entries@[#[trigger] pair_after(
                                    first,
                                    second,
                                    i as int,
                                    mv,
                                )] <= depth + 1,
                            !changed ==> forall|j: int|
                                0 <= j < n ==> #[trigger] entries@[j] != depth + 1,
                        decreases 18 - m,
                    {
                        let mv = match Move::from_index(m) {
                            Some(mv) => mv,
                            None => Move::U,
                        };
                        proof {
                            lemma_move_at_index(m as int);
                        }
                        if !phase_2 || is_phase_2_move(mv) {
                            proof {
                                lemma_pair_after_in_range(first, second, i as int, mv);
                            }
                            let x = first.get(a, mv) as usize;
                            let y = match second {
                                Some(table) => table.get(b, mv) as usize,
                                None => 0,
                            };
                            let j = x * n2 + y;
                            if entries[j] == UNREACHED {
                                let ghost before = entries@;
                                entries[j] = depth + 1;
                                changed = true;
                                proof {
                                    lemma_expansion_step(
                                        before,
                                        entries@,
                                        first,
                                        second,
                                        phase_2,
                                        depth as int,
                                        i as int,
                                        mv,
                                    );
                                }
                            }
                        }
                        proof {
                            assert forall|other: Move|
                                other.spec_index() < m + 1 && in_move_set(
                                    phase_2,
                                    other,
                                ) implies entries@[#[trigger] pair_after(
                                first,
                                second,
                                i as int,
                                other,
                            )] <= depth + 1 by {
                                if other.spec_index() == m {
                                    crate::common::lemma_move_index_round_trip(other);
                                    assert(other == mv);
                                }
                            }
                        }
                        m += 1;
                    }
                }
                i += 1;
            }
            proof {
                lemma_level_done(entries@, first, second, phase_2, depth as int, changed);
            }
            depth += 1;
        }
        let table = PruneTable { entries, first_count: n1, second_count: n2 };
        proof {
            assert(table.entry(0) == 0);
            assert forall|i: int| 0 < i < table.len() implies #[trigger] table.entry(i) != 0 by {
                assert(table.entries@[i] != 0);
            }
            assert forall|i: int, mv: Move|
                0 <= i < table.len() && table.entry(i) < DEPTH_LIMIT && in_move_set(
                    phase_2,
                    mv,
                ) implies table.entry(#[trigger] pair_after(first, second, i, mv)) <= table.entry(
                i,
            ) + 1 by {
                assert(table.entries@[i] < depth || !changed);
            }
            assert forall|i: int|
                0 <= i < table.len() && 0 < table.entry(i)
                    < UNREACHED implies #[trigger] table.has_nearer(first, second, phase_2, i) by {
                assert(nearer_exists(table.entries@, first, second, phase_2, i));
                let (j, mv) = choose|j: int, mv: Move|
                    0 <= j < table.entries@.len() && in_move_set(phase_2, mv) && #[trigger] pair_after(
                        first,
                        second,
                        j,
                        mv,
                    ) == i && table.entries@[j] + 1 == table.entries@[i];
                assert(pair_after(first, second, j, mv) == i && table.entry(j) + 1 == table.entry(
                    i,
                ));
            }
        }
        table
    }
}

/// Marking an unreached pair, to which a move leads from a pair at distance
/// `depth`, with the distance `depth + 1` keeps what the expansion maintains.
proof fn lemma_expansion_step(
    before: Seq<u8>,
    after: Seq<u8>,
    first: &MoveTable,
    second: Option<&MoveTable>,
    phase_2: bool,
    depth: int,
    from: int,
    mv: Move,
)
    requires
        first.wf(),
        second matches Some(table) ==> table.wf(),
        before.len() == pair_count(first, second),
        0 <= depth < DEPTH_LIMIT,
        0 <= from < before.len(),
        before[from] == depth,
        in_move_set(phase_2, mv),
        0 <= pair_after(first, second, from, mv) < before.len(),
        before[pair_after(first, second, from, mv)] == UNREACHED,
        after == before.update(pair_after(first, second, from, mv), (depth + 1) as u8),
        levels_up_to(before, depth + 1),
        all_witnessed(before, first, second, phase_2),
        closed_below(before, first, second, phase_2, depth),
    ensures
        levels_up_to(after, depth + 1),
        all_witnessed(after, first, second, phase_2),
        closed_below(after, first, second, phase_2, depth),
        forall|j: int, other: Move|
            0 <= j < before.len() && before[j] == depth && in_move_set(phase_2, other)
                && before[pair_after(first, second, j, other)] <= depth + 1
                ==> after[#[trigger] pair_after(first, second, j, other)] <= depth + 1,
        forall|j: int| 0 <= j < before.len() && before[j] == depth ==> after[j] == depth,
        after[pair_after(first, second, from, mv)] == depth + 1,
{
    let target = pair_after(first, second, from, mv);
    assert forall|i: int| 0 <= i < after.len() && 0 < after[i] < UNREACHED implies #[trigger] nearer_exists(
        after,
        first,
        second,
        phase_2,
        i,
    ) by {
        if i == target {
            assert(pair_after(first, second, from, mv) == i && after[from] + 1 == after[i]);
        } else {
            assert(nearer_exists(before, first, second, phase_2, i));
            let (j, other) = choose|j: int, other: Move|
                0 <= j < before.len() && in_move_set(phase_2, other) && #[trigger] pair_after(
                    first,
                    second,
                    j,
                    other,
                ) == i && before[j] + 1 == before[i];
            assert(pair_after(first, second, j, other) == i && after[j] + 1 == after[i]);
        }
    }
    assert forall|i: int, other: Move|
        0 <= i < after.len() && after[i] < depth && in_move_set(
            phase_2,
            other,
        ) implies after[#[trigger] pair_after(first, second, i, other)] <= after[i] + 1 by {
        lemma_pair_after_in_range(first, second, i, other);
        assert(before[i] < depth);
        assert(before[pair_after(first, second, i, other)] <= before[i] + 1);
    }
    assert forall|j: int, other: Move|
        0 <= j < before.len() && before[j] == depth && in_move_set(phase_2, other)
            && before[pair_after(first, second, j, other)] <= depth
            + 1 implies after[#[trigger] pair_after(first, second, j, other)] <= depth + 1 by {
        lemma_pair_after_in_range(first, second, j, other);
    }
}

/// When a distance has been expanded, the moves from every pair up to that distance
/// lead to pairs at most one further; and where nothing was marked, no pair is
/// further than that distance.
proof fn lemma_level_done(
    e: Seq<u8>,
    first: &MoveTable,
    second: Option<&MoveTable>,
    phase_2: bool,
    depth: int,
    changed: bool,
)
    requires
        first.wf(),
        second matches Some(table) ==> table.wf(),
        e.len() == pair_count(first, second),
        0 <= depth < DEPTH_LIMIT,
        levels_up_to(e, depth + 1),
        closed_below(e, first, second, phase_2, depth),
        forall|j: int, mv: Move|
            0 <= j < e.len() && e[j] == depth && in_move_set(phase_2, mv) ==> e[#[trigger] pair_after(
                first,
                second,
                j,
                mv,
            )] <= depth + 1,
        !changed ==> forall|j: int| 0 <= j < e.len() ==> #[trigger] e[j] != depth + 1,
    ensures
        closed_below(e, first, second, phase_2, depth + 1),
        !changed ==> closed_below(e, first, second, phase_2, UNREACHED as int),
{
    assert forall|i: int, mv: Move|
        0 <= i < e.len() && e[i] < depth + 1 && in_move_set(phase_2, mv) implies e[#[trigger] pair_after(
        first,
        second,
        i,
        mv,
    )] <= e[i] + 1 by {
        if e[i] < depth {
        } else {
            assert(e[i] == depth);
        }
    }
    if !changed {
        assert forall|i: int, mv: Move|
            0 <= i < e.len() && e[i] < UNREACHED && in_move_set(
                phase_2,
                mv,
            ) implies e[#[trigger] pair_after(first, second, i, mv)] <= e[i] + 1 by {
            assert(e[i] <= depth + 1 || e[i] == UNREACHED);
            assert(e[i] != depth + 1);
        }
    }
}

} // verus!

//! Decisions of the point-set registration: when the iteration stops, and
//! which source point is matched to which target point.
//!
//! The registration itself works on real matrices and lives with the caller.
//! It hands over the table of match probabilities, one row for each source
//! point and one column for each target point, each entry an integer that
//! stands for a probability: a larger integer is a higher probability.

use vstd::prelude::*;

verus! {

/// The table of probabilities as a sequence of rows of integers.
pub open spec fn probability_table(probabilities: Vec<Vec<i64>>) -> Seq<Seq<int>> {
    Seq::new(
        probabilities@.len(),
        |i: int| Seq::new(probabilities@[i]@.len(), |j: int| probabilities@[i]@[j] as int),
    )
}

/// A list of index pairs as pairs of integers.
pub open spec fn pairs(matching: Seq<(usize, usize)>) -> Seq<(int, int)> {
    Seq::new(matching.len(), |k: int| (matching[k].0 as int, matching[k].1 as int))
}

/// The table holds an entry in row `i` and column `j`.
pub open spec fn has_entry(table: Seq<Seq<int>>, i: int, j: int) -> bool {
    0 <= i < table.len() && 0 <= j < table[i].len()
}

/// Source point `i` is matched already.
pub open spec fn source_taken(matching: Seq<(int, int)>, i: int) -> bool {
    exists|k: int| 0 <= k < matching.len() && (#[trigger] matching[k]).0 == i
}

/// Target point `j` is matched already.
pub open spec fn target_taken(matching: Seq<(int, int)>, j: int) -> bool {
    exists|k: int| 0 <= k < matching.len() && (#[trigger] matching[k]).1 == j
}

/// The entry `(i, j)` can still be picked: neither its row nor its column has
/// been removed by an earlier match.
pub open spec fn is_available(table: Seq<Seq<int>>, matching: Seq<(int, int)>, i: int, j: int) -> bool {
    has_entry(table, i, j) && !source_taken(matching, i) && !target_taken(matching, j)
}

/// The entry `(i, j)` is picked no later than `(other_i, other_j)`: it is more
/// probable, or equally probable and not before it in the order of the table,
/// row by row.
pub open spec fn is_preferred(table: Seq<Seq<int>>, i: int, j: int, other_i: int, other_j: int) -> bool {
    table[i][j] > table[other_i][other_j] || (table[i][j] == table[other_i][other_j] && (i
        > other_i || (i == other_i && j >= other_j)))
}

/// The entry `(i, j)` is the one that is picked next: it is available and
/// preferred to every available entry.
pub open spec fn is_next_pick(table: Seq<Seq<int>>, matching: Seq<(int, int)>, i: int, j: int) -> bool {
    &&& is_available(table, matching, i, j)
    &&& forall|other_i: int, other_j: int| #[trigger]
        is_available(table, matching, other_i, other_j) ==> is_preferred(
            table,
            i,
            j,
            other_i,
            other_j,
        )
}

/// `matching` is the greedy matching of the table: each pair was the next
/// pick when the pairs before it had been made, and after the last pair no
/// entry is left to pick.
pub open spec fn is_greedy_matching(table: Seq<Seq<int>>, matching: Seq<(int, int)>) -> bool {
    &&& forall|k: int|
        0 <= k < matching.len() ==> is_next_pick(
            table,
            matching.take(k),
            (#[trigger] matching[k]).0,
            matching[k].1,
        )
    &&& forall|i: int, j: int| !#[trigger] is_available(table, matching, i, j)
}

/// The number of entries of a list of marks that are not set.
pub open spec fn count_free(used: Seq<bool>) -> nat
    decreases used.len(),
{
    if used.len() == 0 {
        0
    } else {
        count_free(used.drop_last()) + if used.last() {
            0nat
        } else {
            1nat
        }
    }
}

/// A list with an unset mark has a free entry; setting the mark leaves one
/// free entry less.
proof fn lemma_count_free_set(used: Seq<bool>, i: int)
    requires
        0 <= i < used.len(),
        !used[i],
    ensures
        count_free(used) >= 1,
        count_free(used.update(i, true)) == count_free(used) - 1,
    decreases used.len(),
{
    let marked = used.update(i, true);
    if i == used.len() - 1 {
        assert(marked.drop_last() =~= used.drop_last());
    } else {
        lemma_count_free_set(used.drop_last(), i);
        assert(marked.drop_last() =~= used.drop_last().update(i, true));
    }
}

/// The free entries of a list are at most its entries, and none where every
/// mark is set; a list of unset marks has all its entries free.
proof fn lemma_count_free_bounds(used: Seq<bool>)
    ensures
        count_free(used) <= used.len(),
        (forall|i: int| 0 <= i < used.len() ==> used[i]) ==> count_free(used) == 0,
        (forall|i: int| 0 <= i < used.len() ==> !used[i]) ==> count_free(used) == used.len(),
    decreases used.len(),
{
    if used.len() > 0 {
        lemma_count_free_bounds(used.drop_last());
    }
}

/// A new pair takes its own source and target and leaves the others as they
/// were.
proof fn lemma_taken_after_push(matching: Seq<(int, int)>, pair: (int, int))
    ensures
        forall|i: int|
            source_taken(matching.push(pair), i) <==> (source_taken(matching, i) || i == pair.0),
        forall|j: int|
            target_taken(matching.push(pair), j) <==> (target_taken(matching, j) || j == pair.1),
{
    let longer = matching.push(pair);
    assert forall|i: int| source_taken(longer, i) <==> (source_taken(matching, i) || i
        == pair.0) by {
        if source_taken(longer, i) {
            let k = choose|k: int| 0 <= k < longer.len() && (#[trigger] longer[k]).0 == i;
            if k < matching.len() {
                assert(matching[k].0 == i);
            }
        }
        if source_taken(matching, i) {
            let k = choose|k: int| 0 <= k < matching.len() && (#[trigger] matching[k]).0 == i;
            assert(longer[k].0 == i);
        }
        if i == pair.0 {
            assert(longer[matching.len() as int].0 == i);
        }
    }
    assert forall|j: int| target_taken(longer, j) <==> (target_taken(matching, j) || j
        == pair.1) by {
        if target_taken(longer, j) {
            let k = choose|k: int| 0 <= k < longer.len() && (#[trigger] longer[k]).1 == j;
            if k < matching.len() {
                assert(matching[k].1 == j);
            }
        }
        if target_taken(matching, j) {
            let k = choose|k: int| 0 <= k < matching.len() && (#[trigger] matching[k]).1 == j;
            assert(longer[k].1 == j);
        }
        if j == pair.1 {
            assert(longer[matching.len() as int].1 == j);
        }
    }
}

/// The entry `(i, j)` comes before the place `(row, col)` in the order of the
/// table, row by row.
pub open spec fn is_before(i: int, j: int, row: int, col: int) -> bool {
    i < row || (i == row && j < col)
}

/// Every row of the table has `width` entries.
pub open spec fn is_rectangular(table: Seq<Seq<int>>, width: int) -> bool {
    0 <= width && forall|i: int| 0 <= i < table.len() ==> (#[trigger] table[i]).len() == width
}

/// In a greedy matching no source point and no target point occurs twice, the
/// pairs are entries of the table, and their probabilities never rise from one
/// pair to the next.
pub proof fn lemma_greedy_matching_one_to_one(table: Seq<Seq<int>>, matching: Seq<(int, int)>)
    requires
        is_greedy_matching(table, matching),
    ensures
        forall|a: int, b: int|
            0 <= a < b < matching.len() ==> (#[trigger] matching[a]).0 != (#[trigger] matching[b]).0
                && matching[a].1 != matching[b].1,
        forall|k: int|
            0 <= k < matching.len() ==> has_entry(table, (#[trigger] matching[k]).0, matching[k].1),
        forall|a: int, b: int|
            0 <= a < b < matching.len() ==> table[(#[trigger] matching[a]).0][matching[a].1]
                >= table[(#[trigger] matching[b]).0][matching[b].1],
{
    assert forall|k: int| 0 <= k < matching.len() implies has_entry(
        table,
        (#[trigger] matching[k]).0,
        matching[k].1,
    ) by {
        assert(is_next_pick(table, matching.take(k), matching[k].0, matching[k].1));
    }
    assert forall|a: int, b: int| 0 <= a < b < matching.len() implies (#[trigger] matching[a]).0
        != (#[trigger] matching[b]).0 && matching[a].1 != matching[b].1 && table[matching[a].0][matching[a].1]
        >= table[matching[b].0][matching[b].1] by {
        let earlier = matching.take(a);
        let later = matching.take(b);
        assert(is_next_pick(table, later, matching[b].0, matching[b].1));
        assert(is_next_pick(table, earlier, matching[a].0, matching[a].1));
        assert(later[a] == matching[a]);
        if source_taken(earlier, matching[b].0) {
            let k = choose|k: int| 0 <= k < earlier.len() && (#[trigger] earlier[k]).0 == matching[b].0;
            assert(later[k].0 == matching[b].0);
        }
        if target_taken(earlier, matching[b].1) {
            let k = choose|k: int| 0 <= k < earlier.len() && (#[trigger] earlier[k]).1 == matching[b].1;
            assert(later[k].1 == matching[b].1);
        }
        assert(is_available(table, earlier, matching[b].0, matching[b].1));
    }
}

/// Of two different entries one is preferred to the other, never both: the
/// next pick is the only entry that is available and preferred to all
/// available entries.
pub proof fn lemma_next_pick_is_unique(
    table: Seq<Seq<int>>,
    matching: Seq<(int, int)>,
    first: (int, int),
    second: (int, int),
)
    requires
        is_next_pick(table, matching, first.0, first.1),
        is_next_pick(table, matching, second.0, second.1),
    ensures
        first == second,
{
    assert(is_available(table, matching, first.0, first.1));
    assert(is_available(table, matching, second.0, second.1));
    assert(is_preferred(table, first.0, first.1, second.0, second.1));
    assert(is_preferred(table, second.0, second.1, first.0, first.1));
}

/// A table has one greedy matching only: the rule of the next pick fixes
/// every pair and the length.
pub proof fn lemma_greedy_matching_is_unique(
    table: Seq<Seq<int>>,
    first: Seq<(int, int)>,
    second: Seq<(int, int)>,
)
    requires
        is_greedy_matching(table, first),
        is_greedy_matching(table, second),
    ensures
        first == second,
{
    let shorter = if first.len() <= second.len() {
        first.len() as int
    } else {
        second.len() as int
    };
    lemma_greedy_matchings_agree_up_to(table, first, second, shorter);
    assert(first.take(shorter) == second.take(shorter));
    if first.len() < second.len() {
        assert(first.take(shorter) =~= first);
        assert(is_next_pick(table, second.take(shorter), second[shorter].0, second[shorter].1));
        assert(is_available(table, first, second[shorter].0, second[shorter].1));
    } else if second.len() < first.len() {
        assert(second.take(shorter) =~= second);
        assert(is_next_pick(table, first.take(shorter), first[shorter].0, first[shorter].1));
        assert(is_available(table, second, first[shorter].0, first[shorter].1));
    } else {
        assert(first.take(shorter) =~= first);
        assert(second.take(shorter) =~= second);
    }
}

/// Two greedy matchings of a table agree on their first `count` pairs.
proof fn lemma_greedy_matchings_agree_up_to(
    table: Seq<Seq<int>>,
    first: Seq<(int, int)>,
    second: Seq<(int, int)>,
    count: int,
)
    requires
        is_greedy_matching(table, first),
        is_greedy_matching(table, second),
        0 <= count <= first.len(),
        count <= second.len(),
    ensures
        first.take(count) == second.take(count),
    decreases count,
{
    if count > 0 {
        lemma_greedy_matchings_agree_up_to(table, first, second, count - 1);
        let before = first.take(count - 1);
        assert(is_next_pick(table, before, first[count - 1].0, first[count - 1].1));
        assert(is_next_pick(
            table,
            second.take(count - 1),
            second[count - 1].0,
            second[count - 1].1,
        ));
        lemma_next_pick_is_unique(table, before, first[count - 1], second[count - 1]);
        assert(first.take(count) =~= first.take(count - 1).push(first[count - 1]));
        assert(second.take(count) =~= second.take(count - 1).push(second[count - 1]));
    } else {
        assert(first.take(count) =~= second.take(count));
    }
}

/// Looks for the entry to pick next: the most probable entry whose source and
/// target are both free, the last such entry where several are equally
/// probable. `None` when no entry is left.
fn find_next_pick(
    probabilities: &Vec<Vec<i64>>,
    used_sources: &Vec<bool>,
    used_targets: &Vec<bool>,
    Ghost(matching): Ghost<Seq<(int, int)>>,
) -> (pick: Option<(usize, usize)>)
    requires
        used_sources@.len() == probabilities@.len(),
        forall|i: int|
            0 <= i < probabilities@.len() ==> (#[trigger] probabilities@[i])@.len()
                <= used_targets@.len(),
        forall|i: int|
            0 <= i < used_sources@.len() ==> #[trigger] used_sources@[i] == source_taken(
                matching,
                i,
            ),
        forall|j: int|
            0 <= j < used_targets@.len() ==> #[trigger] used_targets@[j] == target_taken(
                matching,
                j,
            ),
    ensures
        match pick {
            Some((i, j)) => is_next_pick(
                probability_table(*probabilities),
                matching,
                i as int,
                j as int,
            ),
            None => forall|i: int, j: int|
                !#[trigger] is_available(probability_table(*probabilities), matching, i, j),
        },
{
    let ghost table = probability_table(*probabilities);
    let mut best: Option<(usize, usize)> = None;
    let mut best_value: i64 = 0;
    let mut row: usize = 0;
    while row < probabilities.len()
        invariant
            row <= probabilities@.len(),
            table == probability_table(*probabilities),
            used_sources@.len() == probabilities@.len(),
            forall|i: int|
                0 <= i < probabilities@.len() ==> (#[trigger] probabilities@[i])@.len()
                    <= used_targets@.len(),
            forall|i: int|
                0 <= i < used_sources@.len() ==> #[trigger] used_sources@[i] == source_taken(
                    matching,
                    i,
                ),
            forall|j: int|
                0 <= j < used_targets@.len() ==> #[trigger] used_targets@[j] == target_taken(
                    matching,
                    j,
                ),
            match best {
                Some((i, j)) => {
                    &&& is_available(table, matching, i as int, j as int)
                    &&& best_value == table[i as int][j as int]
                    &&& is_before(i as int, j as int, row as int, 0)
                    &&& forall|other_i: int, other_j: int| #[trigger]
                        is_available(table, matching, other_i, other_j) && is_before(
                            other_i,
                            other_j,
                            row as int,
                            0,
                        ) ==> is_preferred(table, i as int, j as int, other_i, other_j)
                },
                None => forall|other_i: int, other_j: int| #[trigger]
                    is_available(table, matching, other_i, other_j) ==> !is_before(
                        other_i,
                        other_j,
                        row as int,
                        0,
                    ),
            },
        decreases probabilities@.len() - row,
    {
        if !used_sources[row] {
            let entries = &probabilities[row];
            let mut col: usize = 0;
            while col < entries.len()
                invariant
                    row < probabilities@.len(),
                    entries == probabilities@[row as int],
                    col <= entries@.len(),
                    entries@.len() <= used_targets@.len(),
                    table == probability_table(*probabilities),
                    !source_taken(matching, row as int),
                    forall|j: int|
                        0 <= j < used_targets@.len() ==> #[trigger] used_targets@[j]
                            == target_taken(matching, j),
                    match best {
                        Some((i, j)) => {
                            &&& is_available(table, matching, i as int, j as int)
                            &&& best_value == table[i as int][j as int]
                            &&& is_before(i as int, j as int, row as int, col as int)
                            &&& forall|other_i: int, other_j: int| #[trigger]
                                is_available(table, matching, other_i, other_j) && is_before(
                                    other_i,
                                    other_j,
                                    row as int,
                                    col as int,
                                ) ==> is_preferred(table, i as int, j as int, other_i, other_j)
                        },
                        None => forall|other_i: int, other_j: int| #[trigger]
                            is_available(table, matching, other_i, other_j) ==> !is_before(
                                other_i,
                                other_j,
                                row as int,
                                col as int,
                            ),
                    },
                decreases entries@.len() - col,
            {
                if !used_targets[col] {
                    let value = entries[col];
                    assert(value == table[row as int][col as int]);
                    assert(is_available(table, matching, row as int, col as int));
                    let replace = match best {
                        Some(_) => value >= best_value,
                        None => true,
                    };
                    if replace {
                        best = Some((row, col));
                        best_value = value;
                    }
                }
                col += 1;
            }
        }
        row += 1;
    }
    best
}

/// The longest row of the table.
fn widest_row(probabilities: &Vec<Vec<i64>>) -> (width: usize)
    ensures
        forall|i: int|
            0 <= i < probabilities@.len() ==> (#[trigger] probabilities@[i])@.len() <= width,
        probabilities@.len() == 0 ==> width == 0,
        probabilities@.len() > 0 ==> exists|i: int|
            0 <= i < probabilities@.len() && (#[trigger] probabilities@[i])@.len() == width,
{
    let mut width: usize = 0;
    let mut row: usize = 0;
    while row < probabilities.len()
        invariant
            row <= probabilities@.len(),
            forall|i: int| 0 <= i < row ==> (#[trigger] probabilities@[i])@.len() <= width,
            row == 0 ==> width == 0,
            row > 0 ==> exists|i: int|
                0 <= i < row && (#[trigger] probabilities@[i])@.len() == width,
        decreases probabilities@.len() - row,
    {
        if probabilities[row].len() > width || row == 0 {
            width = probabilities[row].len();
        }
        row += 1;
    }
    width
}

/// Draws a one-to-one matching from the table of match probabilities, whose
/// entry in row `i` and column `j` stands for the probability that source
/// point `i` belongs to target point `j`.
///
/// Again and again the most probable remaining entry is picked (of equally
/// probable entries the last one, going through the table row by row), its
/// pair `(i, j)` is emitted, and row `i` and column `j` are removed. This ends
/// when no entry remains. The pairs come out with their probabilities never
/// rising.
pub fn generate_matching(probabilities: &Vec<Vec<i64>>) -> (matching: Vec<(usize, usize)>)
    ensures
        is_greedy_matching(probability_table(*probabilities), pairs(matching@)),
        forall|a: int, b: int|
            0 <= a < b < matching@.len() ==> (#[trigger] matching@[a]).0 != (#[trigger] matching@[b]).0
                && matching@[a].1 != matching@[b].1,
        forall|k: int|
            0 <= k < matching@.len() ==> has_entry(
                probability_table(*probabilities),
                (#[trigger] matching@[k]).0 as int,
                matching@[k].1 as int,
            ),
        forall|a: int, b: int|
            0 <= a < b < matching@.len() ==> probabilities@[(#[trigger] matching@[a]).0 as int]@[matching@[a].1 as int]
                >= probabilities@[(#[trigger] matching@[b]).0 as int]@[matching@[b].1 as int],
        forall|width: int|
            is_rectangular(probability_table(*probabilities), width) ==> matching@.len() == (
            if probabilities@.len() <= width {
                probabilities@.len() as int
            } else {
                width
            }),
{
    let ghost table = probability_table(*probabilities);
    let width = widest_row(probabilities);
    let mut matching: Vec<(usize, usize)> = Vec::new();
    let mut used_sources: Vec<bool> = vec![false; probabilities.len()];
    let mut used_targets: Vec<bool> = vec![false; width];
    proof {
        lemma_count_free_bounds(used_sources@);
        lemma_count_free_bounds(used_targets@);
    }
    loop
        invariant
            table == probability_table(*probabilities),
            used_sources@.len() == probabilities@.len(),
            used_targets@.len() == width,
            forall|i: int|
                0 <= i < probabilities@.len() ==> (#[trigger] probabilities@[i])@.len() <= width,
            forall|i: int|
                0 <= i < used_sources@.len() ==> #[trigger] used_sources@[i] == source_taken(
                    pairs(matching@),
                    i,
                ),
            forall|j: int|
                0 <= j < used_targets@.len() ==> #[trigger] used_targets@[j] == target_taken(
                    pairs(matching@),
                    j,
                ),
            forall|k: int|
                0 <= k < matching@.len() ==> is_next_pick(
                    table,
                    pairs(matching@).take(k),
                    (#[trigger] pairs(matching@)[k]).0,
                    pairs(matching@)[k].1,
                ),
            count_free(used_sources@) + matching@.len() == probabilities@.len(),
            count_free(used_targets@) + matching@.len() == width,
        ensures
            forall|i: int, j: int| !#[trigger] is_available(table, pairs(matching@), i, j),
        decreases count_free(used_sources@),
    {
        let pick = find_next_pick(
            probabilities,
            &used_sources,
            &used_targets,
            Ghost(pairs(matching@)),
        );
        match pick {
            None => {
                break ;
            },
            Some((i, j)) => {
                proof {
                    let before = pairs(matching@);
                    let after = pairs(matching@.push((i, j)));
                    assert(after =~= before.push((i as int, j as int)));
                    lemma_taken_after_push(before, (i as int, j as int));
                    lemma_count_free_set(used_sources@, i as int);
                    lemma_count_free_set(used_targets@, j as int);
                    assert(after.take(before.len() as int) =~= before);
                    assert forall|k: int| 0 <= k < before.len() implies after.take(k)
                        == before.take(k) by {
                        assert(after.take(k) =~= before.take(k));
                    }
                }
                matching.push((i, j));
                used_sources.set(i, true);
                used_targets.set(j, true);
            },
        }
    }
    proof {
        let greedy = pairs(matching@);
        assert(is_greedy_matching(table, greedy));
        lemma_greedy_matching_one_to_one(table, greedy);
        assert forall|a: int, b: int| 0 <= a < b < matching@.len() implies (#[trigger] matching@[a]).0
            != (#[trigger] matching@[b]).0 && matching@[a].1 != matching@[b].1 && probabilities@[matching@[a].0 as int]@[matching@[a].1 as int]
            >= probabilities@[matching@[b].0 as int]@[matching@[b].1 as int] by {
            assert(greedy[a].0 != greedy[b].0 && greedy[a].1 != greedy[b].1);
            assert(has_entry(table, greedy[a].0, greedy[a].1));
            assert(has_entry(table, greedy[b].0, greedy[b].1));
            assert(table[greedy[a].0][greedy[a].1] >= table[greedy[b].0][greedy[b].1]);
        }
        assert forall|k: int| 0 <= k < matching@.len() implies has_entry(
            table,
            (#[trigger] matching@[k]).0 as int,
            matching@[k].1 as int,
        ) by {
            assert(has_entry(table, greedy[k].0, greedy[k].1));
        }
        assert forall|wide: int| is_rectangular(table, wide) implies matching@.len() == (
        if probabilities@.len() <= wide {
            probabilities@.len() as int
        } else {
            wide
        }) by {
            lemma_count_free_bounds(used_sources@);
            lemma_count_free_bounds(used_targets@);
            if probabilities@.len() > 0 {
                let longest = choose|i: int|
                    0 <= i < probabilities@.len() && (#[trigger] probabilities@[i])@.len() == width;
                assert(table[longest].len() == wide);
                assert(width == wide);
                if exists|i: int| 0 <= i < used_sources@.len() && !used_sources@[i] {
                    let free = choose|i: int| 0 <= i < used_sources@.len() && !used_sources@[i];
                    assert forall|j: int| 0 <= j < used_targets@.len() implies used_targets@[j] by {
                        assert(table[free].len() == wide);
                        assert(!is_available(table, greedy, free, j));
                    }
                }
            }
        }
    }
    matching
}

/// The number of iterations after which registration stops when no limit is
/// given.
pub const DEFAULT_MAX_ITERATIONS: u32 = 100;

/// What the registration does next.
#[derive(Clone, Copy, Debug, PartialEq, Eq, Structural)]
pub enum RegistrationStep {
    /// Run one more expectation and maximization step.
    Iterate,
    /// The registration is over.
    Stop,
}

/// Counts the iterations of a registration and decides when it ends.
///
/// The caller runs the steps on its matrices. Before each step it reports
/// whether the variance still changed by more than the tolerance, and goes on
/// only when told to.
#[derive(Clone, Copy, Debug, PartialEq, Eq)]
pub struct IterationControl {
    iteration: u32,
    max_iterations: u32,
}

impl IterationControl {
    #[verifier::type_invariant]
    spec fn within_limit(self) -> bool {
        self.iteration <= self.max_iterations
    }

    /// The number of iterations granted so far.
    pub closed spec fn iterations_run(self) -> nat {
        self.iteration as nat
    }

    /// The limit on the number of iterations.
    pub closed spec fn iteration_limit(self) -> nat {
        self.max_iterations as nat
    }

    /// Starts a registration that runs at most `max_iterations` iterations,
    /// `DEFAULT_MAX_ITERATIONS` when none is given.
    pub fn new(max_iterations: Option<u32>) -> (control: IterationControl)
        ensures
            control.iterations_run() == 0,
            control.iteration_limit() == match max_iterations {
                Some(limit) => limit as nat,
                None => DEFAULT_MAX_ITERATIONS as nat,
            },
    {
        let max_iterations = match max_iterations {
            Some(limit) => limit,
            None => DEFAULT_MAX_ITERATIONS,
        };
        IterationControl { iteration: 0, max_iterations }
    }

    /// The number of iterations granted so far; never above the limit.
    pub fn iteration(&self) -> (iteration: u32)
        ensures
            iteration == self.iterations_run(),
            iteration <= self.iteration_limit(),
    {
        proof {
            use_type_invariant(self);
        }
        self.iteration
    }

    /// Decides whether another iteration runs: it does while the limit is not
    /// reached and the variance still changes by more than the tolerance. A
    /// granted iteration is counted.
    pub fn next_step(&mut self, change_exceeds_tolerance: bool) -> (step: RegistrationStep)
        ensures
            step == registration_step(
                old(self).iterations_run(),
                old(self).iteration_limit(),
                change_exceeds_tolerance,
            ),
            final(self).iteration_limit() == old(self).iteration_limit(),
            final(self).iterations_run() == old(self).iterations_run() + (if step
                == RegistrationStep::Iterate {
                1nat
            } else {
                0nat
            }),
            final(self).iterations_run() <= final(self).iteration_limit(),
    {
        proof {
            use_type_invariant(&*self);
        }
        if self.iteration < self.max_iterations && change_exceeds_tolerance {
            self.iteration = self.iteration + 1;
            RegistrationStep::Iterate
        } else {
            RegistrationStep::Stop
        }
    }
}

/// The decision before an iteration: go on while fewer than `limit` iterations
/// have run and the variance still changes by more than the tolerance.
pub open spec fn registration_step(iterations: nat, limit: nat, change_exceeds_tolerance: bool) -> RegistrationStep {
    if iterations < limit && change_exceeds_tolerance {
        RegistrationStep::Iterate
    } else {
        RegistrationStep::Stop
    }
}

/// The number of iterations that a registration runs from `iterations` on,
/// where `changes[k]` tells whether the variance changed by more than the
/// tolerance before the `k`-th decision from now.
pub open spec fn iterations_until_stop(iterations: nat, limit: nat, changes: Seq<bool>) -> nat
    decreases changes.len(),
{
    if changes.len() == 0 || registration_step(iterations, limit, changes[0])
        == RegistrationStep::Stop {
        iterations
    } else {
        iterations_until_stop(iterations + 1, limit, changes.drop_first())
    }
}

/// A registration never runs more iterations than its limit, whatever the
/// variance does: it stops at the limit at the latest.
pub proof fn lemma_registration_terminates(iterations: nat, limit: nat, changes: Seq<bool>)
    requires
        iterations <= limit,
    ensures
        iterations <= iterations_until_stop(iterations, limit, changes) <= limit,
        iterations_until_stop(iterations, limit, changes) <= iterations + changes.len(),
    decreases changes.len(),
{
    if changes.len() > 0 && registration_step(iterations, limit, changes[0])
        == RegistrationStep::Iterate {
        lemma_registration_terminates(iterations + 1, limit, changes.drop_first());
    }
}

} // verus!

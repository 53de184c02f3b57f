//! Non-maximum suppression: removing duplicate detections.
//!
//! Detections are ranked by confidence, the most confident first and, among
//! equally confident ones, in the order in which they were given. Going down
//! the ranking, a detection is dropped when a detection that was kept before it
//! has the same category and overlaps it too much. Which pairs overlap too much
//! is the caller's to say, in a table indexed like the list of detections.

use crate::annotations::bounding_box::BoundingBoxGeometry;
use crate::annotations::detection::{categories_of, confidences_of, Detection};
use crate::image_utils::tiling::{
    can_tile, tile_image, tiles_along, tiling_verdict, window_at, window_bounds,
    OverlapProportion, TileWindow, TilingError,
};
use crate::object_detection::object_detection_model::ObjectDetectionModel;
use vstd::prelude::*;

verus! {

/// Detection `i` is ranked before detection `j`: it is more confident, or
/// equally confident and earlier in the list.
pub open spec fn ranks_before(confidences: Seq<int>, i: int, j: int) -> bool {
    confidences[i] > confidences[j] || (confidences[i] == confidences[j] && i < j)
}

/// A ranking with detection `i` put in its place: behind every detection that
/// is at least as confident, before the others.
pub open spec fn insert_by_confidence(ranking: Seq<int>, confidences: Seq<int>, i: int) -> Seq<int>
    decreases ranking.len(),
{
    if ranking.len() == 0 {
        seq![i]
    } else if confidences[ranking.last()] >= confidences[i] {
        ranking.push(i)
    } else {
        insert_by_confidence(ranking.drop_last(), confidences, i).push(ranking.last())
    }
}

/// The ranking of the first `count` detections: their indices, the most
/// confident first, equally confident ones in the order of the list.
pub open spec fn confidence_order(confidences: Seq<int>, count: int) -> Seq<int>
    decreases count,
{
    if count <= 0 {
        Seq::empty()
    } else {
        insert_by_confidence(confidence_order(confidences, count - 1), confidences, count - 1)
    }
}

/// The table of overlaps as a sequence of rows.
pub open spec fn overlap_table(overlaps: Vec<Vec<bool>>) -> Seq<Seq<bool>> {
    Seq::new(overlaps@.len(), |i: int| overlaps@[i]@)
}

/// The table says that detections `i` and `j` overlap too much. A pair that
/// the table does not hold does not overlap.
pub open spec fn overlapping(table: Seq<Seq<bool>>, i: int, j: int) -> bool {
    0 <= i < table.len() && 0 <= j < table[i].len() && table[i][j]
}

/// Detection `i`, if kept, rules out detection `j`: they have the same
/// category and overlap too much.
pub open spec fn suppresses(categories: Seq<Seq<char>>, table: Seq<Seq<bool>>, i: int, j: int) -> bool {
    categories[i] == categories[j] && overlapping(table, i, j)
}

/// Among the first `limit` places of the ranking there is a detection that was
/// kept and rules out the detection at place `position`.
pub open spec fn suppressed_within(
    ranking: Seq<int>,
    categories: Seq<Seq<char>>,
    table: Seq<Seq<bool>>,
    position: int,
    limit: int,
) -> bool
    decreases position, limit,
{
    if limit <= 0 || limit > position {
        false
    } else {
        suppressed_within(ranking, categories, table, position, limit - 1) || (!suppressed_within(
            ranking,
            categories,
            table,
            limit - 1,
            limit - 1,
        ) && suppresses(categories, table, ranking[limit - 1], ranking[position]))
    }
}

/// The detection at place `position` of the ranking is dropped: a detection
/// kept before it rules it out.
pub open spec fn is_dropped(
    ranking: Seq<int>,
    categories: Seq<Seq<char>>,
    table: Seq<Seq<bool>>,
    position: int,
) -> bool {
    suppressed_within(ranking, categories, table, position, position)
}

/// The detections kept among the first `count` places of the ranking, in the
/// order of the ranking.
pub open spec fn survivors(
    ranking: Seq<int>,
    categories: Seq<Seq<char>>,
    table: Seq<Seq<bool>>,
    count: int,
) -> Seq<int>
    decreases count,
{
    if count <= 0 {
        Seq::empty()
    } else if is_dropped(ranking, categories, table, count - 1) {
        survivors(ranking, categories, table, count - 1)
    } else {
        survivors(ranking, categories, table, count - 1).push(ranking[count - 1])
    }
}

/// What suppression keeps: the indices of the surviving detections, the most
/// confident first.
pub open spec fn suppression_result(
    confidences: Seq<int>,
    categories: Seq<Seq<char>>,
    table: Seq<Seq<bool>>,
) -> Seq<int> {
    survivors(
        confidence_order(confidences, confidences.len() as int),
        categories,
        table,
        confidences.len() as int,
    )
}

/// A list of indices as a sequence of integers.
pub open spec fn indices(list: Seq<usize>) -> Seq<int> {
    Seq::new(list.len(), |i: int| list[i] as int)
}

/// Putting a detection in its place adds it to the ranking and keeps every
/// entry within the bounds that held before.
proof fn lemma_insert_bounds(ranking: Seq<int>, confidences: Seq<int>, i: int, bound: int)
    requires
        0 <= i < bound,
        forall|p: int| 0 <= p < ranking.len() ==> 0 <= #[trigger] ranking[p] < bound,
    ensures
        insert_by_confidence(ranking, confidences, i).len() == ranking.len() + 1,
        forall|p: int|
            0 <= p < ranking.len() + 1 ==> 0 <= #[trigger] insert_by_confidence(
                ranking,
                confidences,
                i,
            )[p] < bound,
    decreases ranking.len(),
{
    if ranking.len() == 0 {
    } else if confidences[ranking.last()] >= confidences[i] {
    } else {
        lemma_insert_bounds(ranking.drop_last(), confidences, i, bound);
    }
}

/// The ranking of `count` detections has `count` entries, each the index of
/// one of them.
proof fn lemma_confidence_order_bounds(confidences: Seq<int>, count: int)
    requires
        0 <= count,
    ensures
        confidence_order(confidences, count).len() == count,
        forall|p: int|
            0 <= p < count ==> 0 <= #[trigger] confidence_order(confidences, count)[p] < count,
    decreases count,
{
    if count > 0 {
        lemma_confidence_order_bounds(confidences, count - 1);
        lemma_insert_bounds(confidence_order(confidences, count - 1), confidences, count - 1, count);
    }
}

/// The place that insertion gives a detection: behind the entries that are at
/// least as confident, before the less confident ones.
proof fn lemma_insert_position(ranking: Seq<int>, confidences: Seq<int>, i: int, place: int)
    requires
        0 <= place <= ranking.len(),
        forall|q: int| place <= q < ranking.len() ==> confidences[#[trigger] ranking[q]] < confidences[i],
        place > 0 ==> confidences[ranking[place - 1]] >= confidences[i],
    ensures
        insert_by_confidence(ranking, confidences, i) == ranking.insert(place, i),
    decreases ranking.len(),
{
    if ranking.len() == 0 {
        assert(ranking.insert(place, i) =~= seq![i]);
    } else if confidences[ranking.last()] >= confidences[i] {
        assert(place == ranking.len()) by {
            if place < ranking.len() {
                assert(confidences[ranking[ranking.len() - 1]] < confidences[i]);
            }
        }
        assert(ranking.insert(place, i) =~= ranking.push(i));
    } else {
        assert(place < ranking.len());
        let shorter = ranking.drop_last();
        lemma_insert_position(shorter, confidences, i, place);
        assert(shorter.insert(place, i).push(ranking.last()) =~= ranking.insert(place, i));
    }
}

/// Ranks the detections: returns their indices, the most confident first and
/// equally confident ones in the order of the list.
pub fn rank_by_confidence<T: BoundingBoxGeometry>(detections: &Vec<Detection<T>>) -> (ranking: Vec<
    usize,
>)
    ensures
        indices(ranking@) == confidence_order(
            confidences_of(detections@),
            detections@.len() as int,
        ),
        ranking@.len() == detections@.len(),
        forall|p: int| 0 <= p < ranking@.len() ==> #[trigger] ranking@[p] < detections@.len(),
{
    let ghost confidences = confidences_of(detections@);
    let mut ranking: Vec<usize> = Vec::new();
    let mut next: usize = 0;
    while next < detections.len()
        invariant
            next <= detections@.len(),
            confidences == confidences_of(detections@),
            indices(ranking@) == confidence_order(confidences, next as int),
            ranking@.len() == next,
            forall|p: int| 0 <= p < ranking@.len() ==> #[trigger] ranking@[p] < next,
        decreases detections@.len() - next,
    {
        let confidence = detections[next].confidence;
        let mut place: usize = ranking.len();
        while place > 0 && detections[ranking[place - 1]].confidence < confidence
            invariant
                place <= ranking@.len(),
                ranking@.len() == next,
                next < detections@.len(),
                confidences == confidences_of(detections@),
                confidence == confidences[next as int],
                forall|p: int| 0 <= p < ranking@.len() ==> #[trigger] ranking@[p] < next,
                forall|q: int|
                    place <= q < ranking@.len() ==> confidences[#[trigger] indices(ranking@)[q]]
                        < confidence,
            decreases place,
        {
            place -= 1;
        }
        proof {
            let before = indices(ranking@);
            assert(place > 0 ==> confidences[before[place - 1]] >= confidences[next as int]);
            lemma_insert_position(before, confidences, next as int, place as int);
            assert(indices(ranking@.insert(place as int, next)) =~= before.insert(
                place as int,
                next as int,
            ));
        }
        ranking.insert(place, next);
        next += 1;
    }
    ranking
}

/// Looks a pair up in the table of overlaps; a pair that the table does not
/// hold does not overlap.
fn overlap_at(overlaps: &Vec<Vec<bool>>, i: usize, j: usize) -> (overlap: bool)
    ensures
        overlap == overlapping(overlap_table(*overlaps), i as int, j as int),
{
    if i < overlaps.len() {
        let row = &overlaps[i];
        if j < row.len() {
            row[j]
        } else {
            false
        }
    } else {
        false
    }
}

/// Tells whether detection `i`, if kept, rules out detection `j`.
fn rules_out<T: BoundingBoxGeometry>(
    detections: &Vec<Detection<T>>,
    overlaps: &Vec<Vec<bool>>,
    i: usize,
    j: usize,
) -> (ruled_out: bool)
    requires
        i < detections@.len(),
        j < detections@.len(),
    ensures
        ruled_out == suppresses(
            categories_of(detections@),
            overlap_table(*overlaps),
            i as int,
            j as int,
        ),
{
    let same_category = *detections[i].annotation.category() == *detections[j].annotation.category();
    same_category && overlap_at(overlaps, i, j)
}

/// Removes duplicate detections and returns the indices of those that stay,
/// the most confident first.
///
/// `overlaps[i][j]` tells whether detections `i` and `j` of the list overlap
/// too much, that is, whether the ratio of their intersection to their union
/// is above the threshold; a pair missing from the table counts as apart. The
/// detections are ranked by confidence, ties in the order of the list. Each
/// detection that is still kept when its turn comes drops every later one of
/// its category that overlaps it too much.
pub fn non_maximum_suppression<T: BoundingBoxGeometry>(
    detections: &Vec<Detection<T>>,
    overlaps: &Vec<Vec<bool>>,
) -> (kept: Vec<usize>)
    ensures
        indices(kept@) == suppression_result(
            confidences_of(detections@),
            categories_of(detections@),
            overlap_table(*overlaps),
        ),
        forall|k: int| 0 <= k < kept@.len() ==> #[trigger] kept@[k] < detections@.len(),
{
    let count = detections.len();
    let ranking = rank_by_confidence(detections);
    let ghost order = indices(ranking@);
    let ghost categories = categories_of(detections@);
    let ghost table = overlap_table(*overlaps);
    let mut detections_to_remove: Vec<bool> = vec![false; count];
    let mut current: usize = 0;
    while current < count
        invariant
            count == detections@.len(),
            current <= count,
            ranking@.len() == count,
            forall|p: int| 0 <= p < ranking@.len() ==> #[trigger] ranking@[p] < count,
            order == indices(ranking@),
            categories == categories_of(detections@),
            table == overlap_table(*overlaps),
            detections_to_remove@.len() == count,
            forall|j: int|
                0 <= j <= current && j < count ==> #[trigger] detections_to_remove@[j]
                    == is_dropped(order, categories, table, j),
            forall|j: int|
                current < j < count ==> #[trigger] detections_to_remove@[j] == suppressed_within(
                    order,
                    categories,
                    table,
                    j,
                    current as int,
                ),
        decreases count - current,
    {
        let current_is_kept = !detections_to_remove[current];
        let mut other: usize = current + 1;
        while other < count
            invariant
                count == detections@.len(),
                current < count,
                current < other <= count,
                ranking@.len() == count,
                forall|p: int| 0 <= p < ranking@.len() ==> #[trigger] ranking@[p] < count,
                order == indices(ranking@),
                categories == categories_of(detections@),
                table == overlap_table(*overlaps),
                detections_to_remove@.len() == count,
                current_is_kept == !is_dropped(order, categories, table, current as int),
                forall|j: int|
                    0 <= j <= current ==> #[trigger] detections_to_remove@[j] == is_dropped(
                        order,
                        categories,
                        table,
                        j,
                    ),
                forall|j: int|
                    current < j < other ==> #[trigger] detections_to_remove@[j]
                        == suppressed_within(order, categories, table, j, current + 1),
                forall|j: int|
                    other <= j < count ==> #[trigger] detections_to_remove@[j]
                        == suppressed_within(order, categories, table, j, current as int),
            decreases count - other,
        {
            proof {
                assert(order[current as int] == ranking@[current as int]);
                assert(order[other as int] == ranking@[other as int]);
            }
            if current_is_kept && !detections_to_remove[other] && rules_out(
                detections,
                overlaps,
                ranking[current],
                ranking[other],
            ) {
                detections_to_remove.set(other, true);
            }
            other += 1;
        }
        current += 1;
    }
    let mut kept: Vec<usize> = Vec::new();
    let mut position: usize = 0;
    while position < count
        invariant
            count == detections@.len(),
            position <= count,
            ranking@.len() == count,
            forall|p: int| 0 <= p < ranking@.len() ==> #[trigger] ranking@[p] < count,
            order == indices(ranking@),
            detections_to_remove@.len() == count,
            forall|j: int|
                0 <= j < count ==> #[trigger] detections_to_remove@[j] == is_dropped(
                    order,
                    categories,
                    table,
                    j,
                ),
            indices(kept@) == survivors(order, categories, table, position as int),
            forall|k: int| 0 <= k < kept@.len() ==> #[trigger] kept@[k] < count,
        decreases count - position,
    {
        if !detections_to_remove[position] {
            proof {
                assert(indices(kept@.push(ranking@[position as int])) =~= indices(kept@).push(
                    order[position as int],
                ));
            }
            kept.push(ranking[position]);
        }
        position += 1;
    }
    kept
}

/// The entries of the ranking are in rank order.
pub open spec fn is_ranked(ranking: Seq<int>, confidences: Seq<int>) -> bool {
    forall|p: int, q: int|
        0 <= p < q < ranking.len() ==> ranks_before(
            confidences,
            #[trigger] ranking[p],
            #[trigger] ranking[q],
        )
}

/// Putting a later detection in its place keeps a ranking in rank order, and
/// the new ranking holds the old entries and the new one.
proof fn lemma_insert_ranked(ranking: Seq<int>, confidences: Seq<int>, i: int)
    requires
        forall|p: int| 0 <= p < ranking.len() ==> 0 <= #[trigger] ranking[p] < i,
        is_ranked(ranking, confidences),
    ensures
        is_ranked(insert_by_confidence(ranking, confidences, i), confidences),
        insert_by_confidence(ranking, confidences, i).contains(i),
        forall|p: int|
            0 <= p < ranking.len() ==> insert_by_confidence(ranking, confidences, i).contains(
                #[trigger] ranking[p],
            ),
        forall|p: int|
            0 <= p < ranking.len() + 1 ==> {
                let entry = #[trigger] insert_by_confidence(ranking, confidences, i)[p];
                entry == i || ranking.contains(entry)
            },
        insert_by_confidence(ranking, confidences, i).len() == ranking.len() + 1,
    decreases ranking.len(),
{
    let result = insert_by_confidence(ranking, confidences, i);
    if ranking.len() == 0 {
        assert(result[0] == i);
    } else if confidences[ranking.last()] >= confidences[i] {
        let last = ranking.len() - 1;
        assert(result[ranking.len() as int] == i);
        assert forall|p: int, q: int| 0 <= p < q < result.len() implies ranks_before(
            confidences,
            #[trigger] result[p],
            #[trigger] result[q],
        ) by {
            if q == ranking.len() {
                assert(result[p] == ranking[p]);
                if p < last {
                    assert(ranks_before(confidences, ranking[p], ranking[last]));
                }
            } else {
                assert(result[p] == ranking[p] && result[q] == ranking[q]);
            }
        }
        assert forall|p: int| 0 <= p < ranking.len() implies result.contains(
            #[trigger] ranking[p],
        ) by {
            assert(result[p] == ranking[p]);
        }
        assert forall|p: int| 0 <= p < ranking.len() + 1 implies {
            let entry = #[trigger] result[p];
            entry == i || ranking.contains(entry)
        } by {
            if p < ranking.len() {
                assert(result[p] == ranking[p]);
            }
        }
    } else {
        let shorter = ranking.drop_last();
        let last = ranking.last();
        let inner = insert_by_confidence(shorter, confidences, i);
        assert forall|p: int, q: int| 0 <= p < q < shorter.len() implies ranks_before(
            confidences,
            #[trigger] shorter[p],
            #[trigger] shorter[q],
        ) by {
            assert(shorter[p] == ranking[p] && shorter[q] == ranking[q]);
        }
        assert forall|p: int| 0 <= p < shorter.len() implies 0 <= #[trigger] shorter[p] < i by {
            assert(shorter[p] == ranking[p]);
        }
        lemma_insert_ranked(shorter, confidences, i);
        assert(result == inner.push(last));
        assert forall|p: int, q: int| 0 <= p < q < result.len() implies ranks_before(
            confidences,
            #[trigger] result[p],
            #[trigger] result[q],
        ) by {
            if q == inner.len() {
                let entry = inner[p];
                assert(result[p] == entry);
                assert(result[q] == last);
                if entry != i {
                    assert(shorter.contains(entry));
                    let place = choose|place: int| 0 <= place < shorter.len() && shorter[place] == entry;
                    assert(ranking[place] == entry);
                    assert(ranks_before(confidences, ranking[place], ranking[ranking.len() - 1]));
                }
            } else {
                assert(result[p] == inner[p] && result[q] == inner[q]);
            }
        }
        assert(result[inner.len() as int] == last);
        assert(inner.contains(i));
        let place_of_i = choose|place: int| 0 <= place < inner.len() && inner[place] == i;
        assert(result[place_of_i] == i);
        assert forall|p: int| 0 <= p < ranking.len() implies result.contains(
            #[trigger] ranking[p],
        ) by {
            if p < shorter.len() {
                assert(shorter[p] == ranking[p]);
                assert(inner.contains(shorter[p]));
                let place = choose|place: int| 0 <= place < inner.len() && inner[place] == shorter[p];
                assert(result[place] == ranking[p]);
            }
        }
        assert forall|p: int| 0 <= p < ranking.len() + 1 implies {
            let entry = #[trigger] result[p];
            entry == i || ranking.contains(entry)
        } by {
            if p < inner.len() {
                let entry = inner[p];
                assert(result[p] == entry);
                if entry != i {
                    assert(shorter.contains(entry));
                    let place = choose|place: int| 0 <= place < shorter.len() && shorter[place] == entry;
                    assert(ranking[place] == entry);
                }
            } else {
                assert(ranking[ranking.len() - 1] == last);
            }
        }
    }
}

/// The ranking is a rearrangement of the detections' indices in rank order:
/// it has one entry for each detection, no index twice, a more confident
/// detection always before a less confident one, and equally confident ones
/// in the order of the list.
pub proof fn lemma_confidence_order_ranked(confidences: Seq<int>, count: int)
    requires
        0 <= count,
    ensures
        confidence_order(confidences, count).len() == count,
        is_ranked(confidence_order(confidences, count), confidences),
        forall|p: int|
            0 <= p < count ==> 0 <= #[trigger] confidence_order(confidences, count)[p] < count,
        forall|i: int| 0 <= i < count ==> confidence_order(confidences, count).contains(i),
        forall|p: int, q: int|
            0 <= p < q < count ==> confidence_order(confidences, count)[p] != confidence_order(
                confidences,
                count,
            )[q],
    decreases count,
{
    let ranking = confidence_order(confidences, count);
    if count > 0 {
        let earlier = confidence_order(confidences, count - 1);
        lemma_confidence_order_ranked(confidences, count - 1);
        lemma_confidence_order_bounds(confidences, count);
        lemma_insert_ranked(earlier, confidences, count - 1);
        assert forall|i: int| 0 <= i < count implies ranking.contains(i) by {
            if i < count - 1 {
                assert(earlier.contains(i));
                let place = choose|place: int| 0 <= place < earlier.len() && earlier[place] == i;
                assert(ranking.contains(earlier[place]));
            }
        }
    }
    assert forall|p: int, q: int| 0 <= p < q < count implies ranking[p] != ranking[q] by {
        assert(ranks_before(confidences, ranking[p], ranking[q]));
    }
}

/// `ranking` arranges the indices of `count` detections in rank order: it
/// holds each index once, a more confident detection before a less confident
/// one, and equally confident ones in the order of the list.
pub open spec fn is_ranking(ranking: Seq<int>, confidences: Seq<int>, count: int) -> bool {
    &&& ranking.len() == count
    &&& is_ranked(ranking, confidences)
    &&& forall|p: int| 0 <= p < ranking.len() ==> 0 <= #[trigger] ranking[p] < count
    &&& forall|i: int| 0 <= i < count ==> ranking.contains(i)
}

/// There is one ranking only: any two arrangements of the same detections in
/// rank order are equal, so the rank order fixes the result of ranking.
pub proof fn lemma_ranking_is_unique(
    first: Seq<int>,
    second: Seq<int>,
    confidences: Seq<int>,
    count: int,
)
    requires
        is_ranking(first, confidences, count),
        is_ranking(second, confidences, count),
    ensures
        first == second,
{
    assert forall|p: int| 0 <= p < count implies first[p] == second[p] by {
        lemma_rankings_agree_up_to(first, second, confidences, count, p);
    }
    assert(first =~= second);
}

/// Two rankings of the same detections agree at every place up to `place`.
proof fn lemma_rankings_agree_up_to(
    first: Seq<int>,
    second: Seq<int>,
    confidences: Seq<int>,
    count: int,
    place: int,
)
    requires
        is_ranking(first, confidences, count),
        is_ranking(second, confidences, count),
        0 <= place < count,
    ensures
        forall|p: int| 0 <= p <= place ==> first[p] == second[p],
    decreases place,
{
    if place > 0 {
        lemma_rankings_agree_up_to(first, second, confidences, count, place - 1);
    }
    let a = first[place];
    let b = second[place];
    if a != b {
        assert(second.contains(a));
        let in_second = choose|q: int| 0 <= q < second.len() && second[q] == a;
        assert(first.contains(b));
        let in_first = choose|q: int| 0 <= q < first.len() && first[q] == b;
        if in_second < place {
            assert(first[in_second] == a);
            assert(ranks_before(confidences, first[in_second], first[place]));
        } else if in_first < place {
            assert(second[in_first] == b);
            assert(ranks_before(confidences, second[in_first], second[place]));
        } else {
            assert(ranks_before(confidences, second[place], second[in_second]));
            assert(ranks_before(confidences, first[place], first[in_first]));
        }
    }
}

/// The ranking that `confidence_order` builds is the ranking of the
/// detections.
pub proof fn lemma_confidence_order_is_ranking(confidences: Seq<int>, count: int)
    requires
        0 <= count,
    ensures
        is_ranking(confidence_order(confidences, count), confidences, count),
{
    lemma_confidence_order_ranked(confidences, count);
}

/// A list that is already in rank order is its own ranking.
pub proof fn lemma_ranked_list_keeps_order(confidences: Seq<int>, count: int)
    requires
        0 <= count <= confidences.len(),
        forall|i: int, j: int|
            0 <= i < j < count ==> #[trigger] confidences[i] >= #[trigger] confidences[j],
    ensures
        confidence_order(confidences, count) == Seq::new(count as nat, |i: int| i),
    decreases count,
{
    if count > 0 {
        lemma_ranked_list_keeps_order(confidences, count - 1);
        let earlier = confidence_order(confidences, count - 1);
        assert(earlier == Seq::new((count - 1) as nat, |i: int| i));
        if count - 1 > 0 {
            assert(earlier.last() == count - 2);
            assert(confidences[count - 2] >= confidences[count - 1]);
        }
        assert(insert_by_confidence(earlier, confidences, count - 1) =~= Seq::new(
            count as nat,
            |i: int| i,
        ));
    } else {
        assert(confidence_order(confidences, count) =~= Seq::new(count as nat, |i: int| i));
    }
}

/// A detection is ruled out within the first `limit` places exactly when one
/// of those places holds a kept detection that rules it out.
pub proof fn lemma_suppressed_within_iff(
    ranking: Seq<int>,
    categories: Seq<Seq<char>>,
    table: Seq<Seq<bool>>,
    position: int,
    limit: int,
)
    requires
        0 <= limit <= position,
    ensures
        suppressed_within(ranking, categories, table, position, limit) <==> exists|place: int|
            0 <= place < limit && !#[trigger] is_dropped(ranking, categories, table, place)
                && suppresses(categories, table, ranking[place], ranking[position]),
    decreases limit,
{
    if limit > 0 {
        lemma_suppressed_within_iff(ranking, categories, table, position, limit - 1);
        if suppressed_within(ranking, categories, table, position, limit) {
            if suppressed_within(ranking, categories, table, position, limit - 1) {
                let place = choose|place: int|
                    0 <= place < limit - 1 && !#[trigger] is_dropped(
                        ranking,
                        categories,
                        table,
                        place,
                    ) && suppresses(categories, table, ranking[place], ranking[position]);
                assert(0 <= place < limit && !is_dropped(ranking, categories, table, place)
                    && suppresses(categories, table, ranking[place], ranking[position]));
            } else {
                assert(!is_dropped(ranking, categories, table, limit - 1) && suppresses(
                    categories,
                    table,
                    ranking[limit - 1],
                    ranking[position],
                ));
            }
        }
    }
}

/// The places of the ranking, among the first `count`, whose detections are
/// kept.
pub open spec fn kept_places(
    ranking: Seq<int>,
    categories: Seq<Seq<char>>,
    table: Seq<Seq<bool>>,
    count: int,
) -> Seq<int>
    decreases count,
{
    if count <= 0 {
        Seq::empty()
    } else if is_dropped(ranking, categories, table, count - 1) {
        kept_places(ranking, categories, table, count - 1)
    } else {
        kept_places(ranking, categories, table, count - 1).push(count - 1)
    }
}

/// The survivors are the entries of the ranking at the kept places, which go
/// upwards: suppression keeps the rank order.
pub proof fn lemma_survivors_keep_rank_order(
    ranking: Seq<int>,
    categories: Seq<Seq<char>>,
    table: Seq<Seq<bool>>,
    count: int,
)
    requires
        0 <= count,
    ensures
        ({
            let places = kept_places(ranking, categories, table, count);
            let kept = survivors(ranking, categories, table, count);
            &&& kept.len() == places.len()
            &&& kept.len() <= count
            &&& forall|a: int|
                0 <= a < places.len() ==> {
                    &&& 0 <= #[trigger] places[a] < count
                    &&& !is_dropped(ranking, categories, table, places[a])
                    &&& kept[a] == ranking[places[a]]
                }
            &&& forall|a: int, b: int|
                0 <= a < b < places.len() ==> #[trigger] places[a] < #[trigger] places[b]
        }),
    decreases count,
{
    if count > 0 {
        lemma_survivors_keep_rank_order(ranking, categories, table, count - 1);
    }
}

/// Suppression keeps the order of confidence: no detection is kept twice, and
/// of two kept detections the one that comes first is at least as confident
/// as the other, and comes before it in the list where they are equally
/// confident.
pub proof fn lemma_survivors_are_in_confidence_order(
    confidences: Seq<int>,
    categories: Seq<Seq<char>>,
    table: Seq<Seq<bool>>,
)
    ensures
        ({
            let kept = suppression_result(confidences, categories, table);
            &&& kept.len() <= confidences.len()
            &&& forall|a: int| 0 <= a < kept.len() ==> 0 <= #[trigger] kept[a] < confidences.len()
            &&& forall|a: int, b: int|
                0 <= a < b < kept.len() ==> ranks_before(
                    confidences,
                    #[trigger] kept[a],
                    #[trigger] kept[b],
                )
        }),
{
    let count = confidences.len() as int;
    let ranking = confidence_order(confidences, count);
    let kept = survivors(ranking, categories, table, count);
    let places = kept_places(ranking, categories, table, count);
    lemma_confidence_order_ranked(confidences, count);
    lemma_survivors_keep_rank_order(ranking, categories, table, count);
    assert forall|a: int| 0 <= a < kept.len() implies 0 <= #[trigger] kept[a] < count by {
        assert(kept[a] == ranking[places[a]]);
    }
    assert forall|a: int, b: int| 0 <= a < b < kept.len() implies ranks_before(
        confidences,
        #[trigger] kept[a],
        #[trigger] kept[b],
    ) by {
        assert(places[a] < places[b]);
        assert(ranks_before(confidences, ranking[places[a]], ranking[places[b]]));
    }
}

/// Where no detection is dropped, the survivors are the whole ranking.
proof fn lemma_survivors_without_drops(
    ranking: Seq<int>,
    categories: Seq<Seq<char>>,
    table: Seq<Seq<bool>>,
    count: int,
)
    requires
        0 <= count <= ranking.len(),
        forall|position: int|
            0 <= position < count ==> !#[trigger] is_dropped(ranking, categories, table, position),
    ensures
        survivors(ranking, categories, table, count) == ranking.take(count),
    decreases count,
{
    if count > 0 {
        lemma_survivors_without_drops(ranking, categories, table, count - 1);
        assert(ranking.take(count - 1).push(ranking[count - 1]) =~= ranking.take(count));
    } else {
        assert(ranking.take(count) =~= Seq::<int>::empty());
    }
}

/// Detections of different categories never rule each other out: where no two
/// detections share a category, suppression keeps them all, in rank order. A
/// list that is already in rank order comes back unchanged.
pub proof fn lemma_distinct_categories_all_kept(
    confidences: Seq<int>,
    categories: Seq<Seq<char>>,
    table: Seq<Seq<bool>>,
)
    requires
        categories.len() == confidences.len(),
        forall|i: int, j: int|
            0 <= i < j < categories.len() ==> #[trigger] categories[i] != #[trigger] categories[j],
    ensures
        suppression_result(confidences, categories, table) == confidence_order(
            confidences,
            confidences.len() as int,
        ),
        (forall|i: int, j: int|
            0 <= i < j < confidences.len() ==> #[trigger] confidences[i]
                >= #[trigger] confidences[j]) ==> suppression_result(
            confidences,
            categories,
            table,
        ) == Seq::new(confidences.len(), |i: int| i),
{
    let count = confidences.len() as int;
    let ranking = confidence_order(confidences, count);
    lemma_confidence_order_ranked(confidences, count);
    assert forall|position: int| 0 <= position < count implies !#[trigger] is_dropped(
        ranking,
        categories,
        table,
        position,
    ) by {
        lemma_suppressed_within_iff(ranking, categories, table, position, position);
        if is_dropped(ranking, categories, table, position) {
            let place = choose|place: int|
                0 <= place < position && !#[trigger] is_dropped(ranking, categories, table, place)
                    && suppresses(categories, table, ranking[place], ranking[position]);
            let i = ranking[place];
            let j = ranking[position];
            assert(i != j);
            if i < j {
                assert(categories[i] != categories[j]);
            } else {
                assert(categories[j] != categories[i]);
            }
        }
    }
    lemma_survivors_without_drops(ranking, categories, table, count);
    assert(ranking.take(count) =~= ranking);
    if forall|i: int, j: int|
        0 <= i < j < confidences.len() ==> #[trigger] confidences[i] >= #[trigger] confidences[j] {
        lemma_ranked_list_keeps_order(confidences, count);
    }
}

/// The entries of `values` at the kept indices, in the order of `kept`.
pub open spec fn pick<A>(values: Seq<A>, kept: Seq<int>) -> Seq<A> {
    Seq::new(kept.len(), |a: int| values[kept[a]])
}

/// The table of overlaps among the kept detections alone, indexed by their
/// places in `kept`.
pub open spec fn restricted_table(table: Seq<Seq<bool>>, kept: Seq<int>) -> Seq<Seq<bool>> {
    Seq::new(
        kept.len(),
        |a: int| Seq::new(kept.len(), |b: int| overlapping(table, kept[a], kept[b])),
    )
}

/// Suppressing twice changes nothing: applied to the detections that a first
/// suppression kept, with their confidences, categories and overlaps,
/// suppression keeps every one of them in the same order.
pub proof fn lemma_suppression_idempotent(
    confidences: Seq<int>,
    categories: Seq<Seq<char>>,
    table: Seq<Seq<bool>>,
)
    ensures
        ({
            let kept = suppression_result(confidences, categories, table);
            suppression_result(
                pick(confidences, kept),
                pick(categories, kept),
                restricted_table(table, kept),
            ) == Seq::new(kept.len(), |a: int| a)
        }),
{
    let count = confidences.len() as int;
    let ranking = confidence_order(confidences, count);
    let kept = survivors(ranking, categories, table, count);
    let places = kept_places(ranking, categories, table, count);
    lemma_confidence_order_ranked(confidences, count);
    lemma_survivors_keep_rank_order(ranking, categories, table, count);
    let confidences_again = pick(confidences, kept);
    let categories_again = pick(categories, kept);
    let table_again = restricted_table(table, kept);
    let size = kept.len() as int;
    let same = Seq::new(kept.len(), |a: int| a);
    assert forall|a: int, b: int| 0 <= a < b < size implies #[trigger] confidences_again[a]
        >= #[trigger] confidences_again[b] by {
        assert(places[a] < places[b]);
        assert(ranks_before(confidences, ranking[places[a]], ranking[places[b]]));
    }
    lemma_ranked_list_keeps_order(confidences_again, size);
    assert(confidence_order(confidences_again, size) == same);
    assert forall|position: int, limit: int| 0 <= limit <= position < size implies !#[trigger] suppressed_within(
        same,
        categories_again,
        table_again,
        position,
        limit,
    ) by {
        lemma_suppressed_within_iff(same, categories_again, table_again, position, limit);
        if suppressed_within(same, categories_again, table_again, position, limit) {
            let place = choose|place: int|
                0 <= place < limit && !#[trigger] is_dropped(
                    same,
                    categories_again,
                    table_again,
                    place,
                ) && suppresses(categories_again, table_again, same[place], same[position]);
            assert(places[place] < places[position]);
            assert(suppresses(categories, table, kept[place], kept[position]));
            lemma_suppressed_within_iff(
                ranking,
                categories,
                table,
                places[position],
                places[position],
            );
            assert(!is_dropped(ranking, categories, table, places[place]));
            assert(is_dropped(ranking, categories, table, places[position]));
        }
    }
    assert forall|position: int| 0 <= position < size implies !#[trigger] is_dropped(
        same,
        categories_again,
        table_again,
        position,
    ) by {
        assert(!suppressed_within(same, categories_again, table_again, position, position));
    }
    lemma_survivors_without_drops(same, categories_again, table_again, size);
    assert(same.take(size) =~= same);
}

/// What a model found in one tile, with the tile's window. The window's
/// `start_col` and `start_row` are what is added to the horizontal and the
/// vertical positions of the detections to place them in the whole image.
pub struct TileDetections<T: BoundingBoxGeometry> {
    pub window: TileWindow,
    pub detections: Vec<Detection<T>>,
}

/// Predicts on every tile of an image.
///
/// Lays out the tile grid, runs the model on each tile, row by row from the
/// top and in each row from the left, each time with the given confidence,
/// and returns the model's answers tile by tile, in the shape of the grid,
/// each with the window it was given for. Every window lies inside the image,
/// so a position
/// between zero and `tile_size` inside a tile, shifted by the window's origin,
/// lies inside the image too. Fails as `tile_image` does where the image
/// cannot be tiled; the model is then never run.
pub fn tile_and_predict<T: BoundingBoxGeometry, U: ObjectDetectionModel<T>>(
    model: &U,
    image_width: u32,
    image_height: u32,
    tile_size: u32,
    overlap_proportion: OverlapProportion,
    confidence: i64,
) -> (result: Result<Vec<Vec<TileDetections<T>>>, TilingError>)
    requires
        overlap_proportion.is_positive(),
        tile_size > 0,
    ensures
        result.is_ok() <==> can_tile(overlap_proportion, tile_size, image_width, image_height),
        match result {
            Ok(found) => {
                &&& found@.len() == tiles_along(image_height, tile_size, overlap_proportion)
                &&& forall|row: int|
                    0 <= row < found@.len() ==> (#[trigger] found@[row])@.len() == tiles_along(
                        image_width,
                        tile_size,
                        overlap_proportion,
                    )
                &&& forall|row: int, col: int|
                    0 <= row < found@.len() && 0 <= col < found@[row]@.len() ==> {
                        &&& window_bounds((#[trigger] found@[row]@[col]).window) == window_at(
                            row,
                            col,
                            tile_size,
                            overlap_proportion,
                        )
                        &&& found@[row]@[col].window.within(image_width, image_height)
                        &&& found@[row]@[col].window.start_col + tile_size <= image_width
                        &&& found@[row]@[col].window.start_row + tile_size <= image_height
                        &&& model.answers(
                            found@[row]@[col].window,
                            confidence,
                            found@[row]@[col].detections@,
                        )
                    }
            },
            Err(e) => tiling_verdict(overlap_proportion, tile_size, image_width, image_height)
                == Some(e),
        },
{
    let tiles = match tile_image(image_width, image_height, tile_size, overlap_proportion) {
        Ok(tiles) => tiles,
        Err(e) => {
            return Err(e);
        },
    };
    let mut found: Vec<Vec<TileDetections<T>>> = Vec::new();
    let mut row_ix: usize = 0;
    while row_ix < tiles.len()
        invariant
            row_ix <= tiles@.len(),
            found@.len() == row_ix,
            forall|row: int|
                0 <= row < found@.len() ==> (#[trigger] found@[row])@.len() == tiles@[row]@.len(),
            forall|row: int, col: int|
                0 <= row < found@.len() && 0 <= col < found@[row]@.len() ==> (
                #[trigger] found@[row]@[col]).window == tiles@[row]@[col] && model.answers(
                    found@[row]@[col].window,
                    confidence,
                    found@[row]@[col].detections@,
                ),
        decreases tiles@.len() - row_ix,
    {
        let row_of_tiles = &tiles[row_ix];
        let mut found_in_row: Vec<TileDetections<T>> = Vec::new();
        let mut col_ix: usize = 0;
        while col_ix < row_of_tiles.len()
            invariant
                col_ix <= row_of_tiles@.len(),
                found_in_row@.len() == col_ix,
                forall|col: int|
                    0 <= col < found_in_row@.len() ==> (#[trigger] found_in_row@[col]).window
                        == row_of_tiles@[col] && model.answers(
                        found_in_row@[col].window,
                        confidence,
                        found_in_row@[col].detections@,
                    ),
            decreases row_of_tiles@.len() - col_ix,
        {
            let window = row_of_tiles[col_ix];
            let detections = model.run_inference(&window, confidence);
            found_in_row.push(TileDetections { window, detections });
            col_ix += 1;
        }
        found.push(found_in_row);
        row_ix += 1;
    }
    proof {
        assert forall|row: int, col: int|
            0 <= row < found@.len() && 0 <= col < found@[row]@.len() implies {
            &&& window_bounds((#[trigger] found@[row]@[col]).window) == window_at(
                row,
                col,
                tile_size,
                overlap_proportion,
            )
            &&& found@[row]@[col].window.within(image_width, image_height)
            &&& found@[row]@[col].window.start_col + tile_size <= image_width
            &&& found@[row]@[col].window.start_row + tile_size <= image_height
            &&& model.answers(
                found@[row]@[col].window,
                confidence,
                found@[row]@[col].detections@,
            )
        } by {
            assert(found@[row]@[col].window == tiles@[row]@[col]);
            assert(tiles@[row]@[col].within(image_width, image_height));
        }
    }
    Ok(found)
}

} // verus!

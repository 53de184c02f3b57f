//! Routing checkbox detections to the nearest checkbox of the template.

use vstd::prelude::*;

verus! {

/// The distances as a sequence of integers.
pub open spec fn distances_of(distances: Seq<i64>) -> Seq<int> {
    Seq::new(distances.len(), |k: int| distances[k] as int)
}

/// Entry `key` is the nearest of the list: no entry is nearer, and every
/// entry before it is farther.
pub open spec fn is_nearest(distances: Seq<int>, key: int) -> bool {
    &&& 0 <= key < distances.len()
    &&& forall|k: int| 0 <= k < distances.len() ==> distances[key] <= #[trigger] distances[k]
    &&& forall|k: int| 0 <= k < key ==> distances[key] < #[trigger] distances[k]
}

/// Finds the template point nearest to a detection.
///
/// `distances[k]` stands for the distance from the detection to template point
/// `k`: a larger integer is a longer distance. Returns the index of the
/// nearest point, of equally near points the first, and `None` where the
/// template has no points.
pub fn find_min_distance_key(distances: &Vec<i64>) -> (nearest: Option<usize>)
    ensures
        nearest.is_some() <==> distances@.len() > 0,
        nearest matches Some(key) ==> is_nearest(distances_of(distances@), key as int),
{
    if distances.len() == 0 {
        return None;
    }
    let ghost all = distances_of(distances@);
    let mut min_key: usize = 0;
    let mut next: usize = 1;
    while next < distances.len()
        invariant
            0 <= min_key < next <= distances@.len(),
            all == distances_of(distances@),
            forall|k: int| 0 <= k < next ==> all[min_key as int] <= #[trigger] all[k],
            forall|k: int| 0 <= k < min_key ==> all[min_key as int] < #[trigger] all[k],
        decreases distances@.len() - next,
    {
        if distances[next] < distances[min_key] {
            min_key = next;
        }
        next += 1;
    }
    Some(min_key)
}

/// The nearest entry of a list is unique: two answers of
/// `find_min_distance_key` for the same distances are the same.
pub proof fn lemma_nearest_is_unique(distances: Seq<int>, first: int, second: int)
    requires
        is_nearest(distances, first),
        is_nearest(distances, second),
    ensures
        first == second,
{
    if first < second {
        assert(distances[second] < distances[first]);
        assert(distances[first] <= distances[second]);
    } else if second < first {
        assert(distances[first] < distances[second]);
        assert(distances[second] <= distances[first]);
    }
}

/// Routes each checkbox detection to a checkbox of the template.
///
/// `distance_table[d][k]` stands for the distance from detection `d` to
/// template checkbox `k`. The result names, for each detection in turn, the
/// nearest checkbox, or `None` where its row of the table is empty.
pub fn digitize_checkboxes(distance_table: &Vec<Vec<i64>>) -> (assigned: Vec<Option<usize>>)
    ensures
        assigned@.len() == distance_table@.len(),
        forall|d: int|
            0 <= d < assigned@.len() ==> {
                &&& (#[trigger] assigned@[d]).is_some() <==> distance_table@[d]@.len() > 0
                &&& assigned@[d] matches Some(key) ==> is_nearest(
                    distances_of(distance_table@[d]@),
                    key as int,
                )
            },
{
    let mut assigned: Vec<Option<usize>> = Vec::new();
    let mut detection: usize = 0;
    while detection < distance_table.len()
        invariant
            detection <= distance_table@.len(),
            assigned@.len() == detection,
            forall|d: int|
                0 <= d < assigned@.len() ==> {
                    &&& (#[trigger] assigned@[d]).is_some() <==> distance_table@[d]@.len() > 0
                    &&& assigned@[d] matches Some(key) ==> is_nearest(
                        distances_of(distance_table@[d]@),
                        key as int,
                    )
                },
        decreases distance_table@.len() - detection,
    {
        let nearest = find_min_distance_key(&distance_table[detection]);
        assigned.push(nearest);
        detection += 1;
    }
    assigned
}

} // verus!

//! Keeping the detections that registration confirms, and pairing detections
//! with template points by name.

use crate::annotations::bounding_box::BoundingBoxGeometry;
use crate::annotations::detection::{categories_of, Detection};
use vstd::prelude::*;

verus! {

/// The names of the template's points, as sequences of characters.
pub open spec fn names_of(names: Seq<String>) -> Seq<Seq<char>> {
    Seq::new(names.len(), |k: int| names[k]@)
}

/// A list of index pairs as pairs of integers.
pub open spec fn index_pairs(list: Seq<(usize, usize)>) -> Seq<(int, int)> {
    Seq::new(list.len(), |k: int| (list[k].0 as int, list[k].1 as int))
}

/// The match of detection `pair.0` with template point `pair.1` is confirmed:
/// both exist, and the detection's category is the template point's name.
pub open spec fn is_confirmed(categories: Seq<Seq<char>>, names: Seq<Seq<char>>, pair: (int, int)) -> bool {
    &&& 0 <= pair.0 < categories.len()
    &&& 0 <= pair.1 < names.len()
    &&& categories[pair.0] == names[pair.1]
}

/// The confirmed pairs among the first `count` pairs of a matching, in the
/// order of the matching.
pub open spec fn confirmed_pairs(
    categories: Seq<Seq<char>>,
    names: Seq<Seq<char>>,
    matching: Seq<(int, int)>,
    count: int,
) -> Seq<(int, int)>
    decreases count,
{
    if count <= 0 {
        Seq::empty()
    } else if is_confirmed(categories, names, matching[count - 1]) {
        confirmed_pairs(categories, names, matching, count - 1).push(matching[count - 1])
    } else {
        confirmed_pairs(categories, names, matching, count - 1)
    }
}

/// A pair is kept exactly when it is a confirmed pair of the matching: a
/// detection stays if and only if it is matched to a template point that
/// bears its category.
pub proof fn lemma_confirmed_pairs_are_the_confirmed(
    categories: Seq<Seq<char>>,
    names: Seq<Seq<char>>,
    matching: Seq<(int, int)>,
    count: int,
)
    requires
        0 <= count <= matching.len(),
    ensures
        forall|pair: (int, int)| #[trigger]
            confirmed_pairs(categories, names, matching, count).contains(pair) <==> (
            is_confirmed(categories, names, pair) && exists|k: int|
                0 <= k < count && (#[trigger] matching[k]) == pair),
        confirmed_pairs(categories, names, matching, count).len() <= count,
    decreases count,
{
    if count > 0 {
        lemma_confirmed_pairs_are_the_confirmed(categories, names, matching, count - 1);
        let earlier = confirmed_pairs(categories, names, matching, count - 1);
        let now = confirmed_pairs(categories, names, matching, count);
        let last = matching[count - 1];
        assert forall|pair: (int, int)| #[trigger] now.contains(pair) <==> (is_confirmed(
            categories,
            names,
            pair,
        ) && exists|k: int| 0 <= k < count && (#[trigger] matching[k]) == pair) by {
            if now.contains(pair) {
                let place = choose|place: int| 0 <= place < now.len() && now[place] == pair;
                if is_confirmed(categories, names, last) && place == earlier.len() {
                    assert(matching[count - 1] == pair);
                } else {
                    assert(earlier[place] == pair);
                    assert(earlier.contains(pair));
                    let k = choose|k: int| 0 <= k < count - 1 && (#[trigger] matching[k]) == pair;
                    assert(matching[k] == pair);
                }
            }
            if is_confirmed(categories, names, pair) && exists|k: int|
                0 <= k < count && (#[trigger] matching[k]) == pair {
                let k = choose|k: int| 0 <= k < count && (#[trigger] matching[k]) == pair;
                if k == count - 1 {
                    assert(now[earlier.len() as int] == pair);
                } else {
                    assert(earlier.contains(pair));
                    let place = choose|place: int| 0 <= place < earlier.len() && earlier[place] == pair;
                    assert(now[place] == pair);
                }
            }
        }
    }
}

/// Keeps the matches that registration confirms.
///
/// `matching` pairs the index of a detection with the index of a template
/// point, as `generate_matching` emits them for a table with one row for each
/// detection and one column for each template point. A pair stays when the
/// detection's category is the name of the template point; pairs that name no
/// detection or no template point are dropped. The pairs that stay keep the
/// order of the matching: their first parts are the detections to keep, and
/// the pairs are the correspondences from which a warp is fitted.
pub fn filter_detections_with_cpd<T: BoundingBoxGeometry>(
    detections: &Vec<Detection<T>>,
    centroid_names: &Vec<String>,
    matching: &Vec<(usize, usize)>,
) -> (kept: Vec<(usize, usize)>)
    ensures
        index_pairs(kept@) == confirmed_pairs(
            categories_of(detections@),
            names_of(centroid_names@),
            index_pairs(matching@),
            matching@.len() as int,
        ),
        forall|k: int|
            0 <= k < kept@.len() ==> (#[trigger] kept@[k]).0 < detections@.len() && kept@[k].1
                < centroid_names@.len(),
{
    let ghost categories = categories_of(detections@);
    let ghost names = names_of(centroid_names@);
    let ghost all = index_pairs(matching@);
    let mut filtered: Vec<(usize, usize)> = Vec::new();
    let mut next: usize = 0;
    while next < matching.len()
        invariant
            next <= matching@.len(),
            categories == categories_of(detections@),
            names == names_of(centroid_names@),
            all == index_pairs(matching@),
            index_pairs(filtered@) == confirmed_pairs(categories, names, all, next as int),
            forall|k: int|
                0 <= k < filtered@.len() ==> (#[trigger] filtered@[k]).0 < detections@.len()
                    && filtered@[k].1 < centroid_names@.len(),
        decreases matching@.len() - next,
    {
        let (src_ix, tar_ix) = matching[next];
        proof {
            assert(all[next as int] == (src_ix as int, tar_ix as int));
        }
        if src_ix < detections.len() && tar_ix < centroid_names.len() {
            if *detections[src_ix].annotation.category() == centroid_names[tar_ix] {
                proof {
                    assert(index_pairs(filtered@.push((src_ix, tar_ix))) =~= index_pairs(
                        filtered@,
                    ).push((src_ix as int, tar_ix as int)));
                }
                filtered.push((src_ix, tar_ix));
            }
        }
        next += 1;
    }
    filtered
}

/// The last of the first `count` detections whose category is `name`, if any.
pub open spec fn last_of_category(categories: Seq<Seq<char>>, name: Seq<char>, count: int) -> Option<int>
    decreases count,
{
    if count <= 0 {
        None
    } else if categories[count - 1] == name {
        Some(count - 1)
    } else {
        last_of_category(categories, name, count - 1)
    }
}

/// The pairs of a detection and a template point of the same name, for the
/// first `count` template points in their order: each point that some
/// detection is named after is paired with the last such detection.
pub open spec fn pairs_by_category(
    categories: Seq<Seq<char>>,
    names: Seq<Seq<char>>,
    count: int,
) -> Seq<(int, int)>
    decreases count,
{
    if count <= 0 {
        Seq::empty()
    } else {
        match last_of_category(categories, names[count - 1], categories.len() as int) {
            Some(source) => pairs_by_category(categories, names, count - 1).push(
                (source, count - 1),
            ),
            None => pairs_by_category(categories, names, count - 1),
        }
    }
}

/// Finds the last detection of the given category.
fn find_last_of_category<T: BoundingBoxGeometry>(detections: &Vec<Detection<T>>, name: &String) -> (found:
    Option<usize>)
    ensures
        match found {
            Some(source) => last_of_category(
                categories_of(detections@),
                name@,
                detections@.len() as int,
            ) == Some(source as int) && source < detections@.len(),
            None => last_of_category(categories_of(detections@), name@, detections@.len() as int)
                is None,
        },
{
    let ghost categories = categories_of(detections@);
    let mut found: Option<usize> = None;
    let mut next: usize = 0;
    while next < detections.len()
        invariant
            next <= detections@.len(),
            categories == categories_of(detections@),
            match found {
                Some(source) => last_of_category(categories, name@, next as int) == Some(
                    source as int,
                ) && source < next,
                None => last_of_category(categories, name@, next as int) is None,
            },
        decreases detections@.len() - next,
    {
        if *detections[next].annotation.category() == *name {
            found = Some(next);
        }
        next += 1;
    }
    found
}

/// The least number of pairs of points from which a warp can be fitted.
pub const MIN_CORRESPONDENCES: usize = 3;

/// All pairs of a detection and a template point of the same name.
fn pair_by_category<T: BoundingBoxGeometry>(
    source_detections: &Vec<Detection<T>>,
    target_names: &Vec<String>,
) -> (correspondences: Vec<(usize, usize)>)
    ensures
        index_pairs(correspondences@) == pairs_by_category(
            categories_of(source_detections@),
            names_of(target_names@),
            target_names@.len() as int,
        ),
        forall|k: int|
            0 <= k < correspondences@.len() ==> (#[trigger] correspondences@[k]).0
                < source_detections@.len() && correspondences@[k].1 < target_names@.len(),
{
    let ghost categories = categories_of(source_detections@);
    let ghost names = names_of(target_names@);
    let mut correspondences: Vec<(usize, usize)> = Vec::new();
    let mut target: usize = 0;
    while target < target_names.len()
        invariant
            target <= target_names@.len(),
            categories == categories_of(source_detections@),
            names == names_of(target_names@),
            index_pairs(correspondences@) == pairs_by_category(categories, names, target as int),
            forall|k: int|
                0 <= k < correspondences@.len() ==> (#[trigger] correspondences@[k]).0
                    < source_detections@.len() && correspondences@[k].1 < target_names@.len(),
        decreases target_names@.len() - target,
    {
        match find_last_of_category(source_detections, &target_names[target]) {
            Some(source) => {
                proof {
                    assert(index_pairs(correspondences@.push((source, target))) =~= index_pairs(
                        correspondences@,
                    ).push((source as int, target as int)));
                }
                correspondences.push((source, target));
            },
            None => {},
        }
        target += 1;
    }
    correspondences
}

/// Pairs detections with template points of the same name, to fit a warp from
/// detected positions to template positions. The template points are taken in
/// their order; a point without a detection of its name is left out, and of
/// several detections of one name the last counts. A warp needs at least
/// `MIN_CORRESPONDENCES` pairs: with fewer the answer is `None`.
pub fn create_tps_correspondences<T: BoundingBoxGeometry>(
    source_detections: &Vec<Detection<T>>,
    target_names: &Vec<String>,
) -> (correspondences: Option<Vec<(usize, usize)>>)
    ensures
        correspondences.is_some() <==> pairs_by_category(
            categories_of(source_detections@),
            names_of(target_names@),
            target_names@.len() as int,
        ).len() >= MIN_CORRESPONDENCES,
        correspondences matches Some(found) ==> {
            &&& index_pairs(found@) == pairs_by_category(
                categories_of(source_detections@),
                names_of(target_names@),
                target_names@.len() as int,
            )
            &&& forall|k: int|
                0 <= k < found@.len() ==> (#[trigger] found@[k]).0 < source_detections@.len()
                    && found@[k].1 < target_names@.len()
        },
{
    let found = pair_by_category(source_detections, target_names);
    if found.len() < MIN_CORRESPONDENCES {
        None
    } else {
        Some(found)
    }
}

} // verus!

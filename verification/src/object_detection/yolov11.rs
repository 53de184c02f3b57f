//! Reading one candidate of a detection model's output: which class it is,
//! and whether it is confident enough to count.

use crate::text::{decimal, decimal_string};
use vstd::prelude::*;

verus! {

/// The scores as a sequence of integers.
pub open spec fn scores_of(scores: Seq<i64>) -> Seq<int> {
    Seq::new(scores.len(), |k: int| scores[k] as int)
}

/// Class `id` has the best score: no class scores higher, and every class
/// before it scores lower.
pub open spec fn is_best_class(scores: Seq<int>, id: int) -> bool {
    &&& 0 <= id < scores.len()
    &&& forall|k: int| 0 <= k < scores.len() ==> #[trigger] scores[k] <= scores[id]
    &&& forall|k: int| 0 <= k < id ==> #[trigger] scores[k] < scores[id]
}

/// The label of a class: its name where the list of names holds one, else its
/// number written in decimal.
pub open spec fn label_of(class_names: Seq<String>, id: int) -> Seq<char> {
    if 0 <= id < class_names.len() {
        class_names[id]@
    } else {
        decimal(id as nat)
    }
}

/// Finds the class with the best score, the first of several equally good
/// ones, and its score; `None` where there is no class.
pub fn best_class(class_scores: &Vec<i64>) -> (best: Option<(usize, i64)>)
    ensures
        best.is_some() <==> class_scores@.len() > 0,
        best matches Some((id, score)) ==> is_best_class(scores_of(class_scores@), id as int)
            && score == class_scores@[id as int],
{
    if class_scores.len() == 0 {
        return None;
    }
    let ghost scores = scores_of(class_scores@);
    let mut class_id: usize = 0;
    let mut next: usize = 1;
    while next < class_scores.len()
        invariant
            0 <= class_id < next <= class_scores@.len(),
            scores == scores_of(class_scores@),
            forall|k: int| 0 <= k < next ==> #[trigger] scores[k] <= scores[class_id as int],
            forall|k: int| 0 <= k < class_id ==> #[trigger] scores[k] < scores[class_id as int],
        decreases class_scores@.len() - next,
    {
        if class_scores[next] > class_scores[class_id] {
            class_id = next;
        }
        next += 1;
    }
    Some((class_id, class_scores[class_id]))
}

/// Gives a class its label: its name from the list, or its number where the
/// list is too short.
pub fn class_label(class_names: &Vec<String>, class_id: usize) -> (label: String)
    ensures
        label@ == label_of(class_names@, class_id as int),
{
    if class_id < class_names.len() {
        class_names[class_id].clone()
    } else {
        decimal_string(class_id as u64)
    }
}

/// Reads one candidate: the label and score of its best class, or `None`
/// where that score is below the confidence asked for, or where there is no
/// class at all.
pub fn classify_candidate(class_scores: &Vec<i64>, confidence: i64, class_names: &Vec<String>) -> (
    reading: Option<(String, i64)>)
    ensures
        match reading {
            Some((label, score)) => exists|id: int|
                {
                    &&& is_best_class(scores_of(class_scores@), id)
                    &&& score == class_scores@[id]
                    &&& score >= confidence
                    &&& label@ == label_of(class_names@, id)
                },
            None => class_scores@.len() == 0 || exists|id: int|
                is_best_class(scores_of(class_scores@), id) && class_scores@[id] < confidence,
        },
{
    match best_class(class_scores) {
        None => None,
        Some((class_id, prob)) => {
            if prob < confidence {
                None
            } else {
                Some((class_label(class_names, class_id), prob))
            }
        },
    }
}

} // verus!

use chart_digitizer::annotations::bounding_box::BoundingBox;
use chart_digitizer::annotations::detection::Detection;
use chart_digitizer::object_detection::object_detection_utils::{
    non_maximum_suppression, rank_by_confidence,
};

/// A rectangle as this test measures it: `(left, top, right, bottom)`.
type Edges = (f32, f32, f32, f32);

fn area(b: Edges) -> f32 {
    (b.2 - b.0) * (b.3 - b.1)
}

fn intersection_over_union(a: Edges, b: Edges) -> f32 {
    let left = a.0.max(b.0);
    let top = a.1.max(b.1);
    let right = a.2.min(b.2);
    let bottom = a.3.min(b.3);
    let intersection_area = if left > right || top > bottom { 0.0 } else { area((left, top, right, bottom)) };
    let union_area = area(a) + area(b) - intersection_area;
    intersection_area / union_area
}

/// An integer that orders like the number. The numbers of these tests are not
/// negative, and such numbers order as their bit patterns do.
fn code(value: f32) -> i64 {
    assert!(value >= 0.0);
    value.to_bits() as i64
}

fn detection(edges: Edges, category: &str, confidence: f32) -> Detection<BoundingBox> {
    Detection {
        annotation: BoundingBox::new(
            code(edges.0),
            code(edges.1),
            code(edges.2),
            code(edges.3),
            category.to_string(),
        )
        .unwrap(),
        confidence: code(confidence),
    }
}

fn overlaps(boxes: &[Edges], iou_threshold: f32) -> Vec<Vec<bool>> {
    boxes
        .iter()
        .map(|a| boxes.iter().map(|b| intersection_over_union(*a, *b) > iou_threshold).collect())
        .collect()
}

/// Runs suppression on boxes given as `(edges, category, confidence)` and
/// returns the survivors in the same form.
fn suppress(dets: &[(Edges, &'static str, f32)], iou_threshold: f32) -> Vec<(Edges, &'static str, f32)> {
    let detections: Vec<Detection<BoundingBox>> =
        dets.iter().map(|d| detection(d.0, d.1, d.2)).collect();
    let boxes: Vec<Edges> = dets.iter().map(|d| d.0).collect();
    let kept = non_maximum_suppression(&detections, &overlaps(&boxes, iou_threshold));
    kept.into_iter().map(|i| dets[i]).collect()
}

#[test]
fn nms_no_overlap() {
    let dets = vec![
        ((0_f32, 0_f32, 1_f32, 1_f32), "test", 0.6_f32),
        ((2_f32, 2_f32, 3_f32, 3_f32), "test", 0.6_f32),
    ];
    let nms_result = suppress(&dets, 0.5_f32);
    let true_dets = vec![
        ((0_f32, 0_f32, 1_f32, 1_f32), "test", 0.6_f32),
        ((2_f32, 2_f32, 3_f32, 3_f32), "test", 0.6_f32),
    ];
    assert_eq!(true_dets, nms_result);
}

#[test]
fn nms_standard_usage() {
    let dets = vec![
        ((0_f32, 0_f32, 4_f32, 4_f32), "test", 0.6_f32),
        ((0_f32, 0_f32, 5_f32, 5_f32), "test", 0.55_f32),
        ((6_f32, 6_f32, 10_f32, 10_f32), "test", 0.75_f32),
    ];
    let nms_result = suppress(&dets, 0.5_f32);
    let true_dets = vec![
        ((6_f32, 6_f32, 10_f32, 10_f32), "test", 0.75_f32),
        ((0_f32, 0_f32, 4_f32, 4_f32), "test", 0.6_f32),
    ];
    assert_eq!(true_dets, nms_result);
}

#[test]
fn nms_overlap_but_different_classes() {
    let dets = vec![
        ((0_f32, 0_f32, 4.5_f32, 4.5_f32), "test", 0.6_f32),
        ((0_f32, 0_f32, 5_f32, 5_f32), "test_different_class", 0.55_f32),
        ((0.5_f32, 0.5_f32, 4_f32, 4_f32), "test", 0.8_f32),
        ((6_f32, 6_f32, 10_f32, 10_f32), "test", 0.75_f32),
    ];
    let nms_result = suppress(&dets, 0.5_f32);
    let true_dets = vec![
        ((0.5_f32, 0.5_f32, 4_f32, 4_f32), "test", 0.8_f32),
        ((6_f32, 6_f32, 10_f32, 10_f32), "test", 0.75_f32),
        ((0_f32, 0_f32, 5_f32, 5_f32), "test_different_class", 0.55_f32),
    ];
    assert_eq!(true_dets, nms_result);
}

fn plain(category: &str, confidence: i64) -> Detection<BoundingBox> {
    Detection {
        annotation: BoundingBox::new(0, 0, 1, 1, category.to_string()).unwrap(),
        confidence,
    }
}

#[test]
fn ranking_is_by_confidence_and_keeps_the_order_of_equals() {
    let detections =
        vec![plain("a", 5), plain("b", 9), plain("c", 5), plain("d", 7), plain("e", 9)];
    assert_eq!(rank_by_confidence(&detections), vec![1, 4, 3, 0, 2]);
    let none: Vec<Detection<BoundingBox>> = Vec::new();
    assert_eq!(rank_by_confidence(&none), Vec::<usize>::new());
}

#[test]
fn nms_of_nothing_is_nothing() {
    let none: Vec<Detection<BoundingBox>> = Vec::new();
    assert_eq!(non_maximum_suppression(&none, &Vec::new()), Vec::<usize>::new());
}

#[test]
fn nms_a_dropped_detection_drops_nothing() {
    // 0 rules out 1, and 1 would rule out 2; but 1 is dropped, so 2 stays.
    let detections = vec![plain("t", 9), plain("t", 8), plain("t", 7)];
    let table = vec![
        vec![false, true, false],
        vec![true, false, true],
        vec![false, true, false],
    ];
    assert_eq!(non_maximum_suppression(&detections, &table), vec![0, 2]);
}

#[test]
fn nms_reads_the_table_by_the_indices_of_the_list() {
    // Ranked: 2 (conf 9), 0 (conf 5), 1 (conf 1). Only the pair (2, 1) overlaps.
    let detections = vec![plain("t", 5), plain("t", 1), plain("t", 9)];
    let table = vec![
        vec![false, false, false],
        vec![false, false, true],
        vec![false, true, false],
    ];
    assert_eq!(non_maximum_suppression(&detections, &table), vec![2, 0]);
}

#[test]
fn nms_pairs_missing_from_the_table_do_not_overlap() {
    let detections = vec![plain("t", 3), plain("t", 2), plain("t", 1)];
    let table = vec![vec![false, true]];
    assert_eq!(non_maximum_suppression(&detections, &table), vec![0, 2]);
    assert_eq!(non_maximum_suppression(&detections, &Vec::new()), vec![0, 1, 2]);
}

#[test]
fn nms_twice_is_nms_once() {
    let dets = vec![
        ((0_f32, 0_f32, 4.5_f32, 4.5_f32), "test", 0.6_f32),
        ((0_f32, 0_f32, 5_f32, 5_f32), "test_different_class", 0.55_f32),
        ((0.5_f32, 0.5_f32, 4_f32, 4_f32), "test", 0.8_f32),
        ((6_f32, 6_f32, 10_f32, 10_f32), "test", 0.75_f32),
        ((6_f32, 6_f32, 9_f32, 10_f32), "test", 0.75_f32),
        ((1_f32, 0_f32, 5_f32, 5_f32), "test_different_class", 0.95_f32),
    ];
    let once = suppress(&dets, 0.5_f32);
    let twice = suppress(&once, 0.5_f32);
    assert_eq!(once.len(), 3);
    assert_eq!(once, twice);
}

#[test]
fn nms_keeps_detections_of_distinct_categories() {
    // All four overlap fully, but no two share a category.
    let dets = vec![
        ((0_f32, 0_f32, 4_f32, 4_f32), "a", 0.9_f32),
        ((0_f32, 0_f32, 4_f32, 4_f32), "b", 0.8_f32),
        ((0_f32, 0_f32, 4_f32, 4_f32), "c", 0.8_f32),
        ((0_f32, 0_f32, 4_f32, 4_f32), "d", 0.1_f32),
    ];
    assert_eq!(suppress(&dets, 0.5_f32), dets);
    // Out of rank order they all stay too, the most confident first.
    let shuffled = vec![dets[3], dets[1], dets[0], dets[2]];
    assert_eq!(suppress(&shuffled, 0.5_f32), vec![dets[0], dets[1], dets[2], dets[3]]);
}

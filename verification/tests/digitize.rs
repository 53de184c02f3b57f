use chart_digitizer::annotations::bounding_box::BoundingBox;
use chart_digitizer::annotations::detection::Detection;
use chart_digitizer::digitization::digitize::{create_tps_correspondences, filter_detections_with_cpd};
use chart_digitizer::digitization::digitize_checkboxes::{digitize_checkboxes, find_min_distance_key};
use chart_digitizer::registration::coherent_point_drift::generate_matching;

fn detection(category: &str) -> Detection<BoundingBox> {
    Detection {
        annotation: BoundingBox::new(0, 0, 1, 1, category.to_string()).unwrap(),
        confidence: 1,
    }
}

fn names(list: &[&str]) -> Vec<String> {
    list.iter().map(|s| s.to_string()).collect()
}

#[test]
fn filter_keeps_matches_whose_category_is_the_name() {
    let detections = vec![detection("systolic"), detection("heart_rate"), detection("systolic")];
    let centroids = names(&["heart_rate", "systolic", "diastolic"]);
    // 0 -> systolic (agrees), 1 -> diastolic (differs), 2 -> heart_rate (differs).
    let matching = vec![(1, 2), (0, 1), (2, 0)];
    assert_eq!(filter_detections_with_cpd(&detections, &centroids, &matching), vec![(0, 1)]);
    // 1 -> heart_rate and 2 -> systolic agree, in the order of the matching.
    let matching = vec![(2, 1), (0, 2), (1, 0)];
    assert_eq!(
        filter_detections_with_cpd(&detections, &centroids, &matching),
        vec![(2, 1), (1, 0)]
    );
}

#[test]
fn filter_drops_unmatched_detections_and_pairs_out_of_range() {
    let detections = vec![detection("a"), detection("b")];
    let centroids = names(&["a"]);
    assert_eq!(filter_detections_with_cpd(&detections, &centroids, &vec![(0, 0)]), vec![(0, 0)]);
    assert_eq!(
        filter_detections_with_cpd(&detections, &centroids, &vec![(1, 0)]),
        Vec::<(usize, usize)>::new()
    );
    assert_eq!(
        filter_detections_with_cpd(&detections, &centroids, &vec![(5, 0), (0, 3), (0, 0)]),
        vec![(0, 0)]
    );
    assert_eq!(
        filter_detections_with_cpd(&detections, &centroids, &Vec::new()),
        Vec::<(usize, usize)>::new()
    );
}

#[test]
fn filter_follows_a_generated_matching() {
    let detections = vec![detection("b"), detection("a"), detection("c")];
    let centroids = names(&["a", "b"]);
    // Rows are detections, columns are template points.
    let table = vec![vec![1, 90], vec![80, 2], vec![70, 60]];
    let matching = generate_matching(&table);
    assert_eq!(matching, vec![(0, 1), (1, 0)]);
    assert_eq!(filter_detections_with_cpd(&detections, &centroids, &matching), vec![(0, 1), (1, 0)]);
}

#[test]
fn correspondences_pair_each_name_with_its_last_detection() {
    let detections = vec![
        detection("a"),
        detection("b"),
        detection("a"),
        detection("z"),
        detection("c"),
    ];
    let targets = names(&["b", "missing", "a", "c"]);
    assert_eq!(
        create_tps_correspondences(&detections, &targets),
        Some(vec![(1, 0), (2, 2), (4, 3)])
    );
}

#[test]
fn correspondences_need_three_pairs() {
    let detections = vec![detection("a"), detection("b"), detection("a"), detection("z")];
    let targets = names(&["b", "missing", "a"]);
    assert_eq!(create_tps_correspondences(&detections, &targets), None);
    assert_eq!(create_tps_correspondences(&detections, &Vec::new()), None);
    let none: Vec<Detection<BoundingBox>> = Vec::new();
    assert_eq!(create_tps_correspondences(&none, &targets), None);
    let targets = names(&["b", "z", "a"]);
    assert_eq!(
        create_tps_correspondences(&detections, &targets),
        Some(vec![(1, 0), (3, 1), (2, 2)])
    );
}

#[test]
fn nearest_key_is_the_first_of_the_least_distances() {
    assert_eq!(find_min_distance_key(&vec![7, 3, 9, 3]), Some(1));
    assert_eq!(find_min_distance_key(&vec![4]), Some(0));
    assert_eq!(find_min_distance_key(&vec![5, 5, 5]), Some(0));
    assert_eq!(find_min_distance_key(&vec![2, 1, 0]), Some(2));
    assert_eq!(find_min_distance_key(&Vec::new()), None);
}

#[test]
fn nearest_key_orders_distances_given_as_bit_patterns() {
    // Distances are not negative, and such numbers order as their bit patterns do.
    let distances: Vec<i64> =
        [2.5_f32, 0.75, 1.0e-3, 1.0e3].iter().map(|d| d.to_bits() as i64).collect();
    assert_eq!(find_min_distance_key(&distances), Some(2));
}

#[test]
fn checkboxes_go_to_their_nearest_template_point() {
    let table = vec![vec![10, 2, 30], vec![1, 2, 3], vec![9, 9, 8], vec![]];
    assert_eq!(digitize_checkboxes(&table), vec![Some(1), Some(0), Some(2), None]);
    assert_eq!(digitize_checkboxes(&Vec::new()), Vec::<Option<usize>>::new());
}

use chart_digitizer::annotations::bounding_box::{BoundingBox, BoundingBoxGeometry};
use chart_digitizer::annotations::detection::Detection;
use chart_digitizer::image_utils::tiling::{OverlapProportion, TileWindow, TilingError};
use chart_digitizer::object_detection::object_detection_model::ObjectDetectionModel;
use chart_digitizer::object_detection::object_detection_utils::tile_and_predict;
use chart_digitizer::object_detection::yolov11::{best_class, class_label, classify_candidate};

const ONE_HALF: OverlapProportion = OverlapProportion { numerator: 1_u32, denominator: 2_u32 };

/// A model that reports one box for each tile: the tile's own window, with the
/// confidence it was asked for.
struct WindowEcho;

impl ObjectDetectionModel<BoundingBox> for WindowEcho {
    fn run_inference(&self, window: &TileWindow, confidence: i64) -> Vec<Detection<BoundingBox>> {
        vec![Detection {
            annotation: BoundingBox::new(
                window.start_col as i64,
                window.start_row as i64,
                window.end_col as i64,
                window.end_row as i64,
                String::from("tile"),
            )
            .unwrap(),
            confidence,
        }]
    }
}

#[test]
fn tile_and_predict_runs_the_model_on_every_tile_in_order() {
    let found = tile_and_predict(&WindowEcho, 6, 4, 2, ONE_HALF, 77).unwrap();
    assert_eq!(found.len(), 3);
    for (row_ix, row) in found.iter().enumerate() {
        assert_eq!(row.len(), 5);
        for (col_ix, tile) in row.iter().enumerate() {
            assert_eq!(tile.window.start_row as usize, row_ix);
            assert_eq!(tile.window.start_col as usize, col_ix);
            assert_eq!(tile.window.end_row as usize, row_ix + 2);
            assert_eq!(tile.window.end_col as usize, col_ix + 2);
            assert_eq!(tile.detections.len(), 1);
            assert_eq!(
                tile.detections[0].annotation.as_xyxy(),
                (col_ix as i64, row_ix as i64, col_ix as i64 + 2, row_ix as i64 + 2)
            );
            assert_eq!(tile.detections[0].confidence, 77);
        }
    }
}

#[test]
fn tile_and_predict_keeps_shifted_positions_inside_the_image() {
    let (width, height, tile_size) = (1250_u32, 750_u32, 500_u32);
    let found = tile_and_predict(&WindowEcho, width, height, tile_size, ONE_HALF, 0).unwrap();
    assert_eq!(found.len(), 2);
    assert_eq!(found[0].len(), 4);
    for row in found.iter() {
        for tile in row.iter() {
            assert!(tile.window.start_col + tile_size <= width);
            assert!(tile.window.start_row + tile_size <= height);
        }
    }
    assert_eq!(found[1][3].window.start_col, 750);
    assert_eq!(found[1][3].window.start_row, 250);
}

#[test]
fn tile_and_predict_passes_tiling_errors_on() {
    let result = tile_and_predict(&WindowEcho, 68, 68, 17, ONE_HALF, 0);
    assert_eq!(
        result.err(),
        Some(TilingError::IncompatibleProportionWithTileSize {
            tile_size: 17,
            overlap_proportion: ONE_HALF
        })
    );
    let result = tile_and_predict(&WindowEcho, 18, 20, 8, ONE_HALF, 0);
    assert_eq!(
        result.err(),
        Some(TilingError::UnevenImageDivision {
            image_width: 18,
            image_height: 20,
            tile_size: 8,
            overlap_proportion: ONE_HALF
        })
    );
}

#[test]
fn best_class_is_the_first_of_the_highest_scores() {
    assert_eq!(best_class(&vec![1, 7, 3, 7]), Some((1, 7)));
    assert_eq!(best_class(&vec![-4]), Some((0, -4)));
    assert_eq!(best_class(&vec![2, 2, 2]), Some((0, 2)));
    assert_eq!(best_class(&vec![1, 2, 3]), Some((2, 3)));
    assert_eq!(best_class(&Vec::new()), None);
}

#[test]
fn class_label_is_the_name_or_the_number() {
    let class_names = vec![String::from("person"), String::from("bicycle")];
    assert_eq!(class_label(&class_names, 0), "person");
    assert_eq!(class_label(&class_names, 1), "bicycle");
    assert_eq!(class_label(&class_names, 2), "2");
    assert_eq!(class_label(&class_names, 1234567890), "1234567890");
    assert_eq!(class_label(&Vec::new(), 0), "0");
}

#[test]
fn candidates_below_the_confidence_are_left_out() {
    let class_names = vec![String::from("person"), String::from("bicycle")];
    assert_eq!(
        classify_candidate(&vec![10, 60, 30], 50, &class_names),
        Some((String::from("bicycle"), 60))
    );
    assert_eq!(
        classify_candidate(&vec![10, 60, 30], 60, &class_names),
        Some((String::from("bicycle"), 60))
    );
    assert_eq!(classify_candidate(&vec![10, 60, 30], 61, &class_names), None);
    assert_eq!(classify_candidate(&vec![10, 20, 90], 50, &class_names), Some((String::from("2"), 90)));
    assert_eq!(classify_candidate(&Vec::new(), 0, &class_names), None);
}

use chart_digitizer::object_detection::class_names::parse_classes_txt;
use std::io::{BufRead, Cursor};

#[test]
fn class_names_are_read_line_by_line() {
    assert_eq!(parse_classes_txt("person\nbicycle\ncar\n"), vec!["person", "bicycle", "car"]);
    assert_eq!(parse_classes_txt("person\nbicycle\ncar"), vec!["person", "bicycle", "car"]);
    assert_eq!(parse_classes_txt("traffic light\r\nfire hydrant\r\n"), vec![
        "traffic light",
        "fire hydrant"
    ]);
    assert_eq!(parse_classes_txt(""), Vec::<String>::new());
    assert_eq!(parse_classes_txt("\n"), vec![""]);
    assert_eq!(parse_classes_txt("a\n\nb"), vec!["a", "", "b"]);
    assert_eq!(parse_classes_txt("  padded \t\n"), vec!["  padded \t"]);
    assert_eq!(parse_classes_txt("caf\u{e9}\n\u{4eba}\n"), vec!["caf\u{e9}", "\u{4eba}"]);
}

#[test]
fn class_names_keep_carriage_returns_that_end_no_line() {
    assert_eq!(parse_classes_txt("a\rb\n"), vec!["a\rb"]);
    assert_eq!(parse_classes_txt("a\r"), vec!["a\r"]);
    assert_eq!(parse_classes_txt("a\r\r\n"), vec!["a\r"]);
    assert_eq!(parse_classes_txt("\r\n"), vec![""]);
}

#[test]
fn class_names_are_the_lines_that_a_buffered_reader_gives() {
    for text in ["", "\n", "\n\n", "a", "a\n", "a\nb", "a\r\nb\r\n", "\r", "\r\n\r", "x\n\r\ny\n\n"] {
        let read: Vec<String> = Cursor::new(text).lines().map(|line| line.unwrap()).collect();
        assert_eq!(parse_classes_txt(text), read, "for {:?}", text);
    }
}

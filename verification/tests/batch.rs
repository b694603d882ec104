use image_index::batch::{collect_records, to_row, to_rows, Row};
use image_index::orientation::{Dimensions, Orientation};
use image_index::record::{ImageRecord, Outcome, QuarantineEvent};

fn record(index: u64, width: u32, height: u32) -> ImageRecord {
    ImageRecord {
        sequence_index: index,
        source_path: format!("c/{}.jpg", index),
        byte_size: 1000 + index,
        dimensions: Dimensions { width, height },
        orientation: Orientation::of(width, height),
        content: format!("content-{}", index),
    }
}

fn notice(name: &str) -> Outcome {
    Outcome::Quarantined(QuarantineEvent {
        source_path: format!("c/{}", name),
        file_name: name.to_string(),
    })
}

#[test]
fn records_are_kept_in_order_and_notices_dropped() {
    let outcomes = vec![
        notice("a.jpg"),
        Outcome::Indexed(record(2, 8, 6)),
        Outcome::Indexed(record(3, 6, 8)),
        notice("d.jpg"),
        Outcome::Indexed(record(5, 5, 5)),
    ];
    assert_eq!(collect_records(outcomes), vec![record(2, 8, 6), record(3, 6, 8), record(5, 5, 5)]);
}

#[test]
fn completion_order_is_kept_as_given() {
    let outcomes = vec![
        Outcome::Indexed(record(3, 1, 1)),
        Outcome::Indexed(record(1, 1, 1)),
        Outcome::Indexed(record(2, 1, 1)),
    ];
    let indices: Vec<u64> =
        collect_records(outcomes).iter().map(|r| r.sequence_index).collect();
    assert_eq!(indices, vec![3, 1, 2]);
}

#[test]
fn nothing_in_nothing_out() {
    assert!(collect_records(Vec::new()).is_empty());
    assert!(collect_records(vec![notice("x.jpg"), notice("y.jpg")]).is_empty());
    assert!(to_rows(Vec::new()).is_empty());
}

#[test]
fn a_row_carries_the_fields_of_its_record() {
    assert_eq!(
        to_row(record(12, 800, 600)),
        Row {
            idx: 12,
            img_path: "c/12.jpg".to_string(),
            size: 1012,
            orientation: "landscape".to_string(),
            content: "content-12".to_string(),
        }
    );
    assert_eq!(to_row(record(1, 600, 800)).orientation, "portrait");
    assert_eq!(to_row(record(1, 500, 500)).orientation, "square");
}

#[test]
fn rows_follow_their_records_one_for_one() {
    let rows = to_rows(vec![record(4, 2, 1), record(9, 1, 2), record(6, 3, 3)]);
    assert_eq!(rows.len(), 3);
    assert_eq!(rows.iter().map(|r| r.idx).collect::<Vec<u64>>(), vec![4, 9, 6]);
    assert_eq!(
        rows.iter().map(|r| r.orientation.as_str()).collect::<Vec<&str>>(),
        vec!["landscape", "portrait", "square"]
    );
    assert_eq!(rows[1], to_row(record(9, 1, 2)));
}

#[test]
fn copies_are_equal_to_what_they_copy() {
    let r = record(3, 4, 5);
    assert_eq!(r.clone(), r);
    let o = Outcome::Indexed(record(1, 2, 3));
    assert_eq!(o.clone(), o);
    let n = notice("n.jpg");
    assert_eq!(n.clone(), n);
    let row = to_row(record(8, 1, 1));
    assert_eq!(row.clone(), row);
}

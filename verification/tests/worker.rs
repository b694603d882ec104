use image_index::content::{digest_of, ContentStrategy};
use image_index::orientation::{Dimensions, Orientation};
use image_index::record::{ImageRecord, Outcome, QuarantineEvent};
use image_index::traversal::WorkUnit;
use image_index::worker::{complete, process, quarantine};
use std::io::Cursor;

fn unit(index: u64, name: &str) -> WorkUnit {
    WorkUnit {
        sequence_index: index,
        path: format!("corpus/{}", name),
        file_name: name.to_string(),
    }
}

fn jpeg(width: u32, height: u32) -> Vec<u8> {
    let mut bytes = Vec::new();
    image::RgbImage::new(width, height)
        .write_to(&mut Cursor::new(&mut bytes), image::ImageFormat::Jpeg)
        .unwrap();
    bytes
}

fn png(width: u32, height: u32) -> Vec<u8> {
    // A PNG signature followed by filler: an image, but not a JPEG.
    let mut bytes = vec![0x89, b'P', b'N', b'G', 0x0d, 0x0a, 0x1a, 0x0a];
    bytes.extend_from_slice(&width.to_be_bytes());
    bytes.extend_from_slice(&height.to_be_bytes());
    bytes
}

#[test]
fn a_decoded_file_gives_its_record() {
    let bytes = jpeg(800, 600);
    let outcome = process(unit(7, "wide.jpg"), Some(&bytes[..]), ContentStrategy::Digest);
    assert_eq!(
        outcome,
        Outcome::Indexed(ImageRecord {
            sequence_index: 7,
            source_path: "corpus/wide.jpg".to_string(),
            byte_size: bytes.len() as u64,
            dimensions: Dimensions { width: 800, height: 600 },
            orientation: Orientation::Landscape,
            content: digest_of(&bytes),
        })
    );
}

#[test]
fn decoding_reads_the_dimensions_from_the_bytes() {
    for (w, h, o) in [
        (800u32, 600u32, Orientation::Landscape),
        (600, 800, Orientation::Portrait),
        (500, 500, Orientation::Square),
        (1, 1, Orientation::Square),
        (3, 2, Orientation::Landscape),
    ] {
        let bytes = jpeg(w, h);
        match process(unit(1, "x.jpg"), Some(&bytes[..]), ContentStrategy::Digest) {
            Outcome::Indexed(record) => {
                assert_eq!(record.dimensions, Dimensions { width: w, height: h });
                assert_eq!(record.orientation, o);
                assert_eq!(record.pixel_count(), w as u64 * h as u64);
            }
            other => panic!("expected a record, got {:?}", other),
        }
    }
}

#[test]
fn inline_content_is_the_base64_of_the_file() {
    let bytes = jpeg(4, 4);
    match process(unit(2, "small.jpg"), Some(&bytes[..]), ContentStrategy::Inline) {
        Outcome::Indexed(record) => {
            assert_eq!(record.content.len(), (bytes.len() + 2) / 3 * 4);
            assert!(record.content.starts_with("/9j/"));
            assert_eq!(record.byte_size, bytes.len() as u64);
        }
        other => panic!("expected a record, got {:?}", other),
    }
}

#[test]
fn a_corrupt_file_is_quarantined_under_its_base_name() {
    let outcome = process(
        unit(3, "broken.jpg"),
        Some(&b"this is not an image"[..]),
        ContentStrategy::Inline,
    );
    assert_eq!(
        outcome,
        Outcome::Quarantined(QuarantineEvent {
            source_path: "corpus/broken.jpg".to_string(),
            file_name: "broken.jpg".to_string(),
        })
    );
}

#[test]
fn an_empty_file_is_quarantined() {
    let outcome = process(unit(1, "empty.jpg"), Some(&[][..]), ContentStrategy::Digest);
    assert!(matches!(outcome, Outcome::Quarantined(_)));
}

#[test]
fn a_truncated_jpeg_is_quarantined() {
    let bytes = jpeg(64, 64);
    let outcome = process(unit(1, "cut.jpg"), Some(&bytes[..20]), ContentStrategy::Digest);
    assert!(matches!(outcome, Outcome::Quarantined(_)));
}

#[test]
fn another_format_under_the_extension_is_quarantined() {
    let bytes = png(10, 10);
    let outcome = process(unit(1, "really_png.jpg"), Some(&bytes[..]), ContentStrategy::Digest);
    assert!(matches!(outcome, Outcome::Quarantined(_)));
}

#[test]
fn an_unreadable_file_is_quarantined() {
    let outcome = process(unit(9, "gone.jpg"), None, ContentStrategy::Inline);
    assert_eq!(
        outcome,
        Outcome::Quarantined(QuarantineEvent {
            source_path: "corpus/gone.jpg".to_string(),
            file_name: "gone.jpg".to_string(),
        })
    );
}

#[test]
fn completing_with_dimensions_builds_the_record() {
    let outcome = complete(unit(4, "tall.jpg"), Some((600, 800)), b"abc", ContentStrategy::Inline);
    assert_eq!(
        outcome,
        Outcome::Indexed(ImageRecord {
            sequence_index: 4,
            source_path: "corpus/tall.jpg".to_string(),
            byte_size: 3,
            dimensions: Dimensions { width: 600, height: 800 },
            orientation: Orientation::Portrait,
            content: "YWJj".to_string(),
        })
    );
}

#[test]
fn completing_without_dimensions_quarantines() {
    let outcome = complete(unit(4, "bad.jpg"), None, b"abc", ContentStrategy::Digest);
    assert_eq!(outcome, Outcome::Quarantined(quarantine(unit(4, "bad.jpg"))));
}

#[test]
fn outcomes_do_not_depend_on_each_other() {
    let good = jpeg(10, 20);
    let alone = process(unit(2, "g.jpg"), Some(&good[..]), ContentStrategy::Digest);
    let _ = process(unit(1, "b.jpg"), Some(&b"junk"[..]), ContentStrategy::Digest);
    let after = process(unit(2, "g.jpg"), Some(&good[..]), ContentStrategy::Digest);
    assert_eq!(alone, after);
}

use image_index::traversal::{has_target_extension, select_candidates, Entry, WorkUnit};
use std::path::Path;

fn entry(path: &str, file_name: &str) -> Entry {
    Entry { path: path.to_string(), file_name: file_name.to_string() }
}

#[test]
fn jpg_names_are_candidates() {
    assert!(has_target_extension("a.jpg"));
    assert!(has_target_extension("photo.of.me.jpg"));
    assert!(has_target_extension("..jpg"));
    assert!(has_target_extension(" .jpg"));
    assert!(has_target_extension("caf\u{e9}.jpg"));
    assert!(has_target_extension("\u{5199}\u{771f}.jpg"));
}

#[test]
fn other_names_are_not_candidates() {
    assert!(!has_target_extension(""));
    assert!(!has_target_extension("jpg"));
    assert!(!has_target_extension(".jpg"));
    assert!(!has_target_extension("a.JPG"));
    assert!(!has_target_extension("a.Jpg"));
    assert!(!has_target_extension("a.jpeg"));
    assert!(!has_target_extension("a.jpg.txt"));
    assert!(!has_target_extension("a.jpg."));
    assert!(!has_target_extension("a.jpg "));
    assert!(!has_target_extension("ajpg"));
    assert!(!has_target_extension("a.png"));
    assert!(!has_target_extension(".."));
    assert!(!has_target_extension("."));
    assert!(!has_target_extension("a.xjpg"));
    assert!(!has_target_extension("a.jp"));
}

#[test]
fn extension_rule_agrees_with_the_path_type() {
    let names = [
        "", ".", "..", "a", "a.", ".a", ".jpg", "a.jpg", "a.b.jpg", "..jpg", "a..jpg", "jpg",
        "a.jpg.txt", "a.JPG", "a.jpeg", ".a.jpg", "x.jpgg", "\u{e9}.jpg", "a.jpg\u{e9}",
        "...", ".. jpg", "a.j.p.g", "....jpg",
    ];
    for name in names.iter() {
        let by_path = Path::new(name).extension().and_then(|e| e.to_str()) == Some("jpg");
        assert_eq!(has_target_extension(name), by_path, "name {:?}", name);
    }
}

#[test]
fn candidates_are_numbered_from_one_in_enumeration_order() {
    let entries = vec![
        entry("root", "root"),
        entry("root/b.jpg", "b.jpg"),
        entry("root/notes.txt", "notes.txt"),
        entry("root/sub", "sub"),
        entry("root/sub/a.jpg", "a.jpg"),
        entry("root/sub/c.JPG", "c.JPG"),
        entry("root/z.jpg", "z.jpg"),
    ];
    let units = select_candidates(&entries);
    assert_eq!(
        units,
        vec![
            WorkUnit {
                sequence_index: 1,
                path: "root/b.jpg".to_string(),
                file_name: "b.jpg".to_string()
            },
            WorkUnit {
                sequence_index: 2,
                path: "root/sub/a.jpg".to_string(),
                file_name: "a.jpg".to_string()
            },
            WorkUnit {
                sequence_index: 3,
                path: "root/z.jpg".to_string(),
                file_name: "z.jpg".to_string()
            },
        ]
    );
}

#[test]
fn names_without_the_extension_are_never_selected() {
    let entries = vec![
        entry("d/a.png", "a.png"),
        entry("d/b.jpeg", "b.jpeg"),
        entry("d/.jpg", ".jpg"),
        entry("d/c.jpg.bak", "c.jpg.bak"),
        entry("d/jpg", "jpg"),
    ];
    assert!(select_candidates(&entries).is_empty());
    assert!(select_candidates(&Vec::new()).is_empty());
}

#[test]
fn the_file_name_decides_not_the_path() {
    let entries = vec![entry("album.jpg/readme", "readme"), entry("album.jpg/x.jpg", "x.jpg")];
    let units = select_candidates(&entries);
    assert_eq!(units.len(), 1);
    assert_eq!(units[0].path, "album.jpg/x.jpg");
    assert_eq!(units[0].sequence_index, 1);
}

#[test]
fn indices_are_one_to_the_number_of_candidates() {
    let mut entries = Vec::new();
    for i in 0..50 {
        entries.push(entry(&format!("d/{}.jpg", i), &format!("{}.jpg", i)));
        entries.push(entry(&format!("d/{}.txt", i), &format!("{}.txt", i)));
    }
    let units = select_candidates(&entries);
    assert_eq!(units.len(), 50);
    for (i, unit) in units.iter().enumerate() {
        assert_eq!(unit.sequence_index, i as u64 + 1);
        assert_eq!(unit.path, format!("d/{}.jpg", i));
        assert!(has_target_extension(&unit.file_name));
    }
}

#[test]
fn selecting_twice_gives_the_same_mapping() {
    let entries = vec![
        entry("p/3.jpg", "3.jpg"),
        entry("p/skip.gif", "skip.gif"),
        entry("p/1.jpg", "1.jpg"),
        entry("p/2.jpg", "2.jpg"),
    ];
    let first = select_candidates(&entries);
    let second = select_candidates(&entries.clone());
    assert_eq!(first, second);
    let mapping: Vec<(u64, String)> =
        first.iter().map(|u| (u.sequence_index, u.path.clone())).collect();
    assert_eq!(
        mapping,
        vec![
            (1, "p/3.jpg".to_string()),
            (2, "p/1.jpg".to_string()),
            (3, "p/2.jpg".to_string())
        ]
    );
}

use image_index::orientation::{get_orientation, Dimensions, Orientation};

#[test]
fn wider_than_tall_is_landscape() {
    assert_eq!(Orientation::of(800, 600), Orientation::Landscape);
    assert_eq!(get_orientation(&Dimensions { width: 800, height: 600 }), "landscape");
}

#[test]
fn taller_than_wide_is_portrait() {
    assert_eq!(Orientation::of(600, 800), Orientation::Portrait);
    assert_eq!(get_orientation(&Dimensions { width: 600, height: 800 }), "portrait");
}

#[test]
fn equal_sides_are_square() {
    assert_eq!(Orientation::of(500, 500), Orientation::Square);
    assert_eq!(get_orientation(&Dimensions { width: 500, height: 500 }), "square");
}

#[test]
fn one_pixel_decides() {
    assert_eq!(Orientation::of(501, 500), Orientation::Landscape);
    assert_eq!(Orientation::of(500, 501), Orientation::Portrait);
    assert_eq!(Orientation::of(0, 0), Orientation::Square);
    assert_eq!(Orientation::of(u32::MAX, u32::MAX), Orientation::Square);
    assert_eq!(Orientation::of(u32::MAX, u32::MAX - 1), Orientation::Landscape);
    assert_eq!(Orientation::of(0, u32::MAX), Orientation::Portrait);
}

#[test]
fn classes_are_exhaustive_and_exclusive() {
    let sides = [0u32, 1, 2, 499, 500, 501, 600, 800, u32::MAX];
    for &w in sides.iter() {
        for &h in sides.iter() {
            let o = Orientation::of(w, h);
            assert_eq!(o == Orientation::Landscape, w > h);
            assert_eq!(o == Orientation::Portrait, w < h);
            assert_eq!(o == Orientation::Square, w == h);
        }
    }
}

#[test]
fn names_are_the_stored_labels() {
    assert_eq!(Orientation::Landscape.name(), "landscape");
    assert_eq!(Orientation::Portrait.name(), "portrait");
    assert_eq!(Orientation::Square.name(), "square");
}

#[test]
fn names_tell_orientations_apart() {
    let all = [Orientation::Landscape, Orientation::Portrait, Orientation::Square];
    for a in all.iter() {
        for b in all.iter() {
            assert_eq!(a.name() == b.name(), a == b);
        }
    }
}

#[test]
fn pixel_count_is_the_product() {
    assert_eq!(Dimensions { width: 800, height: 600 }.pixel_count(), 480_000);
    assert_eq!(Dimensions { width: 0, height: 600 }.pixel_count(), 0);
    assert_eq!(
        Dimensions { width: u32::MAX, height: u32::MAX }.pixel_count(),
        18_446_744_065_119_617_025
    );
}

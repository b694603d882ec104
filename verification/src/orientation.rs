//! Orientation of an image, derived from its pixel dimensions alone.

use vstd::prelude::*;

verus! {

/// Pixel extent of a decoded image.
#[derive(Clone, Copy, Debug, PartialEq, Eq, Structural)]
pub struct Dimensions {
    pub width: u32,
    pub height: u32,
}

impl Dimensions {
    /// Number of pixels, `width * height`, as a mathematical integer.
    pub open spec fn spec_pixel_count(self) -> int {
        self.width as int * self.height as int
    }

    /// Number of pixels. The product of two `u32` values always fits in `u64`.
    pub fn pixel_count(&self) -> (count: u64)
        ensures
            count as int == self.spec_pixel_count(),
    {
        let w: u64 = self.width as u64;
        let h: u64 = self.height as u64;
        assert(w * h <= 0xffff_ffff * 0xffff_ffff) by (nonlinear_arith)
            requires
                0 <= w <= 0xffff_ffff,
                0 <= h <= 0xffff_ffff,
        ;
        w * h
    }
}

/// The three classes an image can fall into.
#[derive(Clone, Copy, Debug, PartialEq, Eq, Structural)]
pub enum Orientation {
    Landscape,
    Portrait,
    Square,
}

impl Orientation {
    /// Wider than tall is landscape, taller than wide is portrait, equal sides
    /// are square.
    pub open spec fn classify(width: int, height: int) -> Orientation {
        if width > height {
            Orientation::Landscape
        } else if width < height {
            Orientation::Portrait
        } else {
            Orientation::Square
        }
    }

    /// The lower-case name under which an orientation is stored.
    pub open spec fn label(self) -> Seq<char> {
        match self {
            Orientation::Landscape => "landscape"@,
            Orientation::Portrait => "portrait"@,
            Orientation::Square => "square"@,
        }
    }

    /// Classifies an image of the given width and height.
    pub fn of(width: u32, height: u32) -> (o: Orientation)
        ensures
            o == Self::classify(width as int, height as int),
            o == Orientation::Landscape <==> width > height,
            o == Orientation::Portrait <==> width < height,
            o == Orientation::Square <==> width == height,
    {
        if width > height {
            Orientation::Landscape
        } else if width < height {
            Orientation::Portrait
        } else {
            Orientation::Square
        }
    }

    /// The stored name of this orientation.
    pub fn name(&self) -> (s: &'static str)
        ensures
            s@ == self.label(),
    {
        match self {
            Orientation::Landscape => "landscape",
            Orientation::Portrait => "portrait",
            Orientation::Square => "square",
        }
    }
}

/// Distinct orientations have distinct names, so a stored name determines the
/// orientation it came from.
pub proof fn lemma_label_injective(a: Orientation, b: Orientation)
    ensures
        a.label() == b.label() <==> a == b,
        a.label().len() > 0,
{
    reveal_strlit("landscape");
    reveal_strlit("portrait");
    reveal_strlit("square");
    assert("landscape"@.len() == 9);
    assert("portrait"@.len() == 8);
    assert("square"@.len() == 6);
}

/// Every pair of dimensions falls into exactly one class: landscape exactly
/// when the width is larger, portrait exactly when the height is larger, and
/// square exactly when the two are equal.
pub proof fn lemma_classify_exhaustive_exclusive(width: int, height: int)
    ensures
        Orientation::classify(width, height) == Orientation::Landscape <==> width > height,
        Orientation::classify(width, height) == Orientation::Portrait <==> width < height,
        Orientation::classify(width, height) == Orientation::Square <==> width == height,
{
}

/// The stored orientation name of an image with the given dimensions.
pub fn get_orientation(img: &Dimensions) -> (label: String)
    ensures
        label@ == Orientation::classify(img.width as int, img.height as int).label(),
        label@ == "landscape"@ <==> img.width > img.height,
        label@ == "portrait"@ <==> img.width < img.height,
        label@ == "square"@ <==> img.width == img.height,
{
    let o = Orientation::of(img.width, img.height);
    proof {
        lemma_label_injective(o, Orientation::Landscape);
        lemma_label_injective(o, Orientation::Portrait);
        lemma_label_injective(o, Orientation::Square);
    }
    o.name().to_owned()
}

} // verus!

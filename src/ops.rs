//! The closed set of image operations and their parameters.
use vstd::prelude::*;

verus! {

/// Resampling kernel used by a normal resize.
#[derive(Clone, Copy, Debug, PartialEq, Eq, Structural)]
pub enum SampleFilter {
    Undefined,
    Nearest,
    Triangle,
    CatmullRom,
    Gaussian,
    Lanczos3,
}

/// How a resize reaches its target size.
#[derive(Clone, Copy, Debug, PartialEq, Eq, Structural)]
pub enum ResizeType {
    /// Resample the whole image to the target size.
    Normal,
    /// Remove low-energy seams until the image fits the target size.
    SeamCarve,
}

/// Named colour presets; `Unspecified` leaves the image as it is.
#[derive(Clone, Copy, Debug, PartialEq, Eq, Structural)]
pub enum Filter {
    Unspecified,
    Oceanic,
    Islands,
    Marine,
}

/// The preset name understood by the pixel library, if any.
pub open spec fn filter_name(f: Filter) -> Option<Seq<char>> {
    match f {
        Filter::Unspecified => None,
        Filter::Oceanic => Some("oceanic"@),
        Filter::Islands => Some("islands"@),
        Filter::Marine => Some("marine"@),
    }
}

impl Filter {
    /// Name of the preset, `None` for `Unspecified`.
    pub fn to_str(&self) -> (r: Option<&'static str>)
        ensures
            r.is_some() == filter_name(*self).is_some(),
            r.is_some() ==> r.unwrap()@ == filter_name(*self).unwrap(),
    {
        match self {
            Filter::Unspecified => None,
            Filter::Oceanic => Some("oceanic"),
            Filter::Islands => Some("islands"),
            Filter::Marine => Some("marine"),
        }
    }
}

#[derive(Clone, Copy, Debug, PartialEq, Eq, Structural)]
pub struct Resize {
    pub width: u32,
    pub height: u32,
    pub rtype: ResizeType,
    pub filter: SampleFilter,
}

/// Keep the rectangle `[x1, x2) x [y1, y2)`.
#[derive(Clone, Copy, Debug, PartialEq, Eq, Structural)]
pub struct Crop {
    pub x1: u32,
    pub y1: u32,
    pub x2: u32,
    pub y2: u32,
}

/// Contrast change; `bits` holds the IEEE-754 single-precision amount.
#[derive(Clone, Copy, Debug, PartialEq, Eq, Structural)]
pub struct Contrast {
    pub bits: u32,
}

/// Stamp the shared watermark with its top-left corner at `(x, y)`.
#[derive(Clone, Copy, Debug, PartialEq, Eq, Structural)]
pub struct Watermark {
    pub x: u32,
    pub y: u32,
}

/// One image operation.
#[derive(Clone, Copy, Debug, PartialEq, Eq, Structural)]
pub enum Spec {
    Resize(Resize),
    Crop(Crop),
    Flipv,
    Fliph,
    Contrast(Contrast),
    Filter(Filter),
    Watermark(Watermark),
}

/// An ordered chain of operations, applied first to last.
#[derive(Clone, Debug, PartialEq, Eq)]
pub struct ImageSpec {
    pub specs: Vec<Spec>,
}

impl ImageSpec {
    pub fn new(specs: Vec<Spec>) -> (r: Self)
        ensures
            r.specs@ == specs@,
    {
        ImageSpec { specs }
    }
}

impl Spec {
    pub fn new_resize(width: u32, height: u32, filter: SampleFilter) -> (r: Spec)
        ensures
            r == Spec::Resize(Resize { width, height, rtype: ResizeType::Normal, filter }),
    {
        Spec::Resize(Resize { width, height, rtype: ResizeType::Normal, filter })
    }

    pub fn new_seam_carve(width: u32, height: u32) -> (r: Spec)
        ensures
            r == Spec::Resize(
                Resize { width, height, rtype: ResizeType::SeamCarve, filter: SampleFilter::Undefined },
            ),
    {
        Spec::Resize(
            Resize { width, height, rtype: ResizeType::SeamCarve, filter: SampleFilter::Undefined },
        )
    }

    pub fn new_crop(x1: u32, y1: u32, x2: u32, y2: u32) -> (r: Spec)
        ensures
            r == Spec::Crop(Crop { x1, y1, x2, y2 }),
    {
        Spec::Crop(Crop { x1, y1, x2, y2 })
    }

    pub fn new_flipv() -> (r: Spec)
        ensures
            r == Spec::Flipv,
    {
        Spec::Flipv
    }

    pub fn new_fliph() -> (r: Spec)
        ensures
            r == Spec::Fliph,
    {
        Spec::Fliph
    }

    pub fn new_contrast(bits: u32) -> (r: Spec)
        ensures
            r == Spec::Contrast(Contrast { bits }),
    {
        Spec::Contrast(Contrast { bits })
    }

    pub fn new_filter(filter: Filter) -> (r: Spec)
        ensures
            r == Spec::Filter(filter),
    {
        Spec::Filter(filter)
    }

    pub fn new_watermark(x: u32, y: u32) -> (r: Spec)
        ensures
            r == Spec::Watermark(Watermark { x, y }),
    {
        Spec::Watermark(Watermark { x, y })
    }
}

} // verus!

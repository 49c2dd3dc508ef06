//! The transform engine: an RGBA pixel buffer that an operation chain
//! changes step by step and that is finally encoded as JPEG or PNG.
//!
//! The pixel work itself is done by the photon library; this module decides
//! which operations are allowed, in which order they run, and what size the
//! image has after each of them.
use vstd::prelude::*;
use photon_rs::transform::SamplingFilter;
use photon_rs::PhotonImage;
use crate::ops::{filter_name, Filter, ResizeType, SampleFilter, Spec};

verus! {

/// Why the engine refused an image or an operation chain.
#[derive(Clone, Copy, Debug, PartialEq, Eq, Structural)]
pub enum EngineError {
    /// The source bytes are not an image in a supported container.
    ImageDecode,
    /// The engine cannot perform the operation: a contrast change needs
    /// floating-point pixel arithmetic, which this engine does not carry.
    UnsupportedOperation,
    /// The image is too large for the requested output container.
    OutputTooLarge,
    /// The image has no pixels, which no output container holds.
    EmptyImage,
    /// An operation's parameters do not fit the image (crop rectangle
    /// outside the image or empty, zero-sized resize), or the operation
    /// needs pixels and the image has none (a preset filter, seam carving).
    ParameterRange,
}

/// Container of the generated output.
#[derive(Clone, Copy, Debug, PartialEq, Eq, Structural)]
pub enum OutputFormat {
    /// JPEG with the given quality (the encoder clamps it to 1..=100).
    Jpeg(u8),
    Png,
}

/// The bytes read back as an image of `w` by `h` pixels.
pub open spec fn decodes_at_size(b: Seq<u8>, w: u32, h: u32) -> bool {
    decoded_image(b) matches Some(m) && m.1 == w && m.2 == h
}

/// Decoded size, in RGBA bytes, up to which generated output is known to
/// read back: half the image decoder's default memory limit.
pub const DECODE_BUDGET: u64 = 268435456;

/// Largest width or height that the JPEG encoder takes.
pub const JPEG_MAX_SIDE: u32 = 65535;

/// Side length of the watermark stamp.
pub const STAMP_SIZE: u32 = 64;

/// Byte length of a `w` by `h` RGBA buffer.
pub open spec fn rgba_len(w: u32, h: u32) -> int {
    4 * (w as int) * (h as int)
}

pub open spec fn smaller(a: u32, b: u32) -> u32 {
    if a <= b {
        a
    } else {
        b
    }
}

/// Image model: RGBA pixels in row-major order, width and height.
pub type ImageModel = (Seq<u8>, u32, u32);

pub open spec fn is_image(m: ImageModel) -> bool {
    m.0.len() == rgba_len(m.1, m.2)
}

/// The rectangle `[x1, x2) x [y1, y2)` of an image `w` pixels wide.
pub open spec fn cropped(px: Seq<u8>, w: u32, x1: u32, y1: u32, x2: u32, y2: u32) -> Seq<u8> {
    let cw = (x2 - x1) as int;
    Seq::new(
        rgba_len((x2 - x1) as u32, (y2 - y1) as u32) as nat,
        |i: int| px[4 * ((y1 + (i / 4) / cw) * w + x1 + (i / 4) % cw) + i % 4],
    )
}

/// The image mirrored left to right.
pub open spec fn flipped_h(px: Seq<u8>, w: u32, h: u32) -> Seq<u8> {
    Seq::new(
        px.len(),
        |i: int| px[4 * (((i / 4) / (w as int)) * w + (w - 1 - (i / 4) % (w as int))) + i % 4],
    )
}

/// The image mirrored top to bottom.
pub open spec fn flipped_v(px: Seq<u8>, w: u32, h: u32) -> Seq<u8> {
    Seq::new(
        px.len(),
        |i: int| px[4 * ((h - 1 - (i / 4) / (w as int)) * w + (i / 4) % (w as int)) + i % 4],
    )
}

/// What photon's `open_image_from_bytes` reads from `b`.
pub uninterp spec fn decoded_image(b: Seq<u8>) -> Option<ImageModel>;

/// What photon's `resize` makes of an image.
pub uninterp spec fn resized(px: Seq<u8>, w: u32, h: u32, nw: u32, nh: u32, f: SampleFilter) -> Seq<u8>;

/// What photon's `seam_carve` makes of an image.
pub uninterp spec fn seam_carved(px: Seq<u8>, w: u32, h: u32, nw: u32, nh: u32) -> Seq<u8>;

/// What photon's `filter` makes of an image.
pub uninterp spec fn filtered(px: Seq<u8>, w: u32, h: u32, name: Seq<char>) -> Seq<u8>;

/// What photon's `watermark` makes of an image.
pub uninterp spec fn watermarked(
    px: Seq<u8>,
    w: u32,
    h: u32,
    mark: Seq<u8>,
    mw: u32,
    mh: u32,
    x: u32,
    y: u32,
) -> Seq<u8>;

/// What photon's `get_bytes_jpeg` writes for an image.
pub uninterp spec fn jpeg_bytes(px: Seq<u8>, w: u32, h: u32, quality: u8) -> Seq<u8>;

/// What photon's `get_bytes` (PNG) writes for an image.
pub uninterp spec fn png_bytes(px: Seq<u8>, w: u32, h: u32) -> Seq<u8>;

/// Relies on photon's `open_image_from_bytes`: it decodes with the image
/// crate and keeps the pixels as RGBA, four bytes per pixel.
#[verifier::external_body]
fn photon_open(b: &[u8]) -> (r: Option<(Vec<u8>, u32, u32)>)
    ensures
        r.is_some() == decoded_image(b@).is_some(),
        r matches Some(v) ==> decoded_image(b@) == Some((v.0@, v.1, v.2)),
        r matches Some(v) ==> v.0@.len() == rgba_len(v.1, v.2),
{
    match photon_rs::native::open_image_from_bytes(b) {
        Ok(img) => Some((img.get_raw_pixels(), img.get_width(), img.get_height())),
        Err(_) => None,
    }
}

/// Relies on photon's `transform::crop`: it copies the rectangle pixel by
/// pixel; a rectangle outside the image would make it panic.
#[verifier::external_body]
fn photon_crop(px: &[u8], w: u32, h: u32, x1: u32, y1: u32, x2: u32, y2: u32) -> (r: Vec<u8>)
    requires
        px@.len() == rgba_len(w, h),
        x1 < x2 <= w,
        y1 < y2 <= h,
    ensures
        r@ == cropped(px@, w, x1, y1, x2, y2),
{
    let img = PhotonImage::new(px.to_vec(), w, h);
    photon_rs::transform::crop(&img, x1, y1, x2, y2).get_raw_pixels()
}

/// Relies on photon's `transform::fliph`: pixel `(x, y)` moves to
/// `(w - 1 - x, y)`.
#[verifier::external_body]
fn photon_fliph(px: &[u8], w: u32, h: u32) -> (r: Vec<u8>)
    requires
        px@.len() == rgba_len(w, h),
    ensures
        r@ == flipped_h(px@, w, h),
{
    let mut img = PhotonImage::new(px.to_vec(), w, h);
    photon_rs::transform::fliph(&mut img);
    img.get_raw_pixels()
}

/// Relies on photon's `transform::flipv`: pixel `(x, y)` moves to
/// `(x, h - 1 - y)`.
#[verifier::external_body]
fn photon_flipv(px: &[u8], w: u32, h: u32) -> (r: Vec<u8>)
    requires
        px@.len() == rgba_len(w, h),
    ensures
        r@ == flipped_v(px@, w, h),
{
    let mut img = PhotonImage::new(px.to_vec(), w, h);
    photon_rs::transform::flipv(&mut img);
    img.get_raw_pixels()
}

/// Relies on photon's `transform::resize`: the result is `nw` by `nh`.
#[verifier::external_body]
fn photon_resize(px: &[u8], w: u32, h: u32, nw: u32, nh: u32, f: SampleFilter) -> (r: Vec<u8>)
    requires
        px@.len() == rgba_len(w, h),
        nw > 0,
        nh > 0,
        f != SampleFilter::Undefined,
    ensures
        r@ == resized(px@, w, h, nw, nh, f),
        r@.len() == rgba_len(nw, nh),
{
    let img = PhotonImage::new(px.to_vec(), w, h);
    let f = match f {
        SampleFilter::Undefined | SampleFilter::Nearest => SamplingFilter::Nearest,
        SampleFilter::Triangle => SamplingFilter::Triangle,
        SampleFilter::CatmullRom => SamplingFilter::CatmullRom,
        SampleFilter::Gaussian => SamplingFilter::Gaussian,
        SampleFilter::Lanczos3 => SamplingFilter::Lanczos3,
    };
    photon_rs::transform::resize(&img, nw, nh, f).get_raw_pixels()
}

/// Relies on photon's `transform::seam_carve`: it only shrinks, to
/// `min(w, nw)` by `min(h, nh)`.
#[verifier::external_body]
fn photon_seam_carve(px: &[u8], w: u32, h: u32, nw: u32, nh: u32) -> (r: Vec<u8>)
    requires
        px@.len() == rgba_len(w, h),
        w > 0,
        h > 0,
        nw > 0,
        nh > 0,
    ensures
        r@ == seam_carved(px@, w, h, nw, nh),
        r@.len() == rgba_len(smaller(w, nw), smaller(h, nh)),
{
    let img = PhotonImage::new(px.to_vec(), w, h);
    photon_rs::transform::seam_carve(&img, nw, nh).get_raw_pixels()
}

/// Relies on photon's `filters::filter`: a named preset that keeps the size.
/// Only the three presets of `Filter` are passed, on a non-empty image.
#[verifier::external_body]
fn photon_filter(px: &[u8], w: u32, h: u32, name: &str) -> (r: Vec<u8>)
    requires
        px@.len() == rgba_len(w, h),
        w > 0,
        h > 0,
        exists|f: Filter| filter_name(f) == Some(name@),
    ensures
        r@ == filtered(px@, w, h, name@),
        r@.len() == px@.len(),
{
    let mut img = PhotonImage::new(px.to_vec(), w, h);
    photon_rs::filters::filter(&mut img, name);
    img.get_raw_pixels()
}

/// Relies on photon's `multiple::watermark`: it overlays the stamp at
/// `(x, y)`, clipping what falls outside, and keeps the size.
#[verifier::external_body]
fn photon_watermark(
    px: &[u8],
    w: u32,
    h: u32,
    mark: &[u8],
    mw: u32,
    mh: u32,
    x: u32,
    y: u32,
) -> (r: Vec<u8>)
    requires
        px@.len() == rgba_len(w, h),
        mark@.len() == rgba_len(mw, mh),
    ensures
        r@ == watermarked(px@, w, h, mark@, mw, mh, x, y),
        r@.len() == px@.len(),
{
    let mut img = PhotonImage::new(px.to_vec(), w, h);
    let stamp = PhotonImage::new(mark.to_vec(), mw, mh);
    photon_rs::multiple::watermark(&mut img, &stamp, x as i64, y as i64);
    img.get_raw_pixels()
}

/// Relies on photon's `PhotonImage::get_bytes_jpeg`: a baseline JPEG of the
/// same size, which `open_image_from_bytes` reads back at that size where
/// the decoder's default memory limit (512 MiB) is not reached. The JPEG encoder
/// refuses a side over `JPEG_MAX_SIDE` and photon unwraps that error, so
/// larger images are never passed.
#[verifier::external_body]
fn photon_jpeg(px: Vec<u8>, w: u32, h: u32, quality: u8) -> (r: Vec<u8>)
    requires
        px@.len() == rgba_len(w, h),
        0 < w <= JPEG_MAX_SIDE,
        0 < h <= JPEG_MAX_SIDE,
    ensures
        r@ == jpeg_bytes(px@, w, h, quality),
        rgba_len(w, h) <= DECODE_BUDGET ==> decodes_at_size(r@, w, h),
{
    PhotonImage::new(px, w, h).get_bytes_jpeg(quality)
}

/// Relies on photon's `PhotonImage::get_bytes`, which writes the RGBA pixels
/// losslessly as PNG, so `open_image_from_bytes` reads them back unchanged
/// where the decoder's default memory limit (512 MiB) is not reached; the
/// PNG encoder refuses an empty image, so none is passed.
#[verifier::external_body]
fn photon_png(px: Vec<u8>, w: u32, h: u32) -> (r: Vec<u8>)
    requires
        px@.len() == rgba_len(w, h),
        w > 0,
        h > 0,
    ensures
        r@ == png_bytes(px@, w, h),
        rgba_len(w, h) <= DECODE_BUDGET ==> decoded_image(r@) == Some((px@, w, h)),
{
    PhotonImage::new(px, w, h).get_bytes()
}


/// The kernel a normal resize uses: `Undefined` falls back to `Nearest`.
pub open spec fn kernel(f: SampleFilter) -> SampleFilter {
    if f == SampleFilter::Undefined {
        SampleFilter::Nearest
    } else {
        f
    }
}

/// Size of a `w` by `h` image after `op`, or why `op` is refused.
pub open spec fn step_size(op: Spec, w: u32, h: u32) -> Result<(u32, u32), EngineError> {
    match op {
        Spec::Crop(c) => {
            if c.x1 < c.x2 <= w && c.y1 < c.y2 <= h {
                Ok(((c.x2 - c.x1) as u32, (c.y2 - c.y1) as u32))
            } else {
                Err(EngineError::ParameterRange)
            }
        },
        Spec::Resize(r) => {
            if r.width == 0 || r.height == 0 {
                Err(EngineError::ParameterRange)
            } else if r.rtype == ResizeType::Normal {
                Ok((r.width, r.height))
            } else if w == 0 || h == 0 {
                Err(EngineError::ParameterRange)
            } else {
                Ok((smaller(w, r.width), smaller(h, r.height)))
            }
        },
        Spec::Contrast(_) => Err(EngineError::UnsupportedOperation),
        Spec::Filter(f) => {
            if filter_name(f) is Some && (w == 0 || h == 0) {
                Err(EngineError::ParameterRange)
            } else {
                Ok((w, h))
            }
        },
        _ => Ok((w, h)),
    }
}

/// Pixels of image `m` after `op`, where `step_size` admits `op`.
pub open spec fn step_pixels(op: Spec, m: ImageModel, mark: ImageModel) -> Seq<u8> {
    let (px, w, h) = m;
    match op {
        Spec::Crop(c) => cropped(px, w, c.x1, c.y1, c.x2, c.y2),
        Spec::Resize(r) => if r.rtype == ResizeType::Normal {
            resized(px, w, h, r.width, r.height, kernel(r.filter))
        } else {
            seam_carved(px, w, h, r.width, r.height)
        },
        Spec::Flipv => flipped_v(px, w, h),
        Spec::Fliph => flipped_h(px, w, h),
        Spec::Filter(f) => match filter_name(f) {
            None => px,
            Some(name) => filtered(px, w, h, name),
        },
        Spec::Watermark(wm) => watermarked(px, w, h, mark.0, mark.1, mark.2, wm.x, wm.y),
        Spec::Contrast(_) => px,
    }
}

/// Image `m` after `op` (with `mark` as the watermark stamp).
pub open spec fn step(op: Spec, m: ImageModel, mark: ImageModel) -> Result<ImageModel, EngineError> {
    match step_size(op, m.1, m.2) {
        Err(e) => Err(e),
        Ok(size) => Ok((step_pixels(op, m, mark), size.0, size.1)),
    }
}

/// Image `m` after every operation of `ops`, first to last; the first
/// refused operation decides the error.
pub open spec fn run(ops: Seq<Spec>, m: ImageModel, mark: ImageModel) -> Result<ImageModel, EngineError>
    decreases ops.len(),
{
    if ops.len() == 0 {
        Ok(m)
    } else {
        match step(ops[0], m, mark) {
            Err(e) => Err(e),
            Ok(next) => run(ops.drop_first(), next, mark),
        }
    }
}

/// Only the sizes of `run`.
pub open spec fn run_size(ops: Seq<Spec>, w: u32, h: u32) -> Result<(u32, u32), EngineError>
    decreases ops.len(),
{
    if ops.len() == 0 {
        Ok((w, h))
    } else {
        match step_size(ops[0], w, h) {
            Err(e) => Err(e),
            Ok(size) => run_size(ops.drop_first(), size.0, size.1),
        }
    }
}

/// `run` fails exactly where `run_size` does, with the same error, and
/// otherwise ends at the size that `run_size` gives.
proof fn lemma_run_size(ops: Seq<Spec>, m: ImageModel, mark: ImageModel)
    ensures
        run(ops, m, mark) is Err <==> run_size(ops, m.1, m.2) is Err,
        run(ops, m, mark) is Err ==> run(ops, m, mark)->Err_0 == run_size(ops, m.1, m.2)->Err_0,
        run(ops, m, mark) is Ok ==> run(ops, m, mark)->Ok_0.1 == run_size(ops, m.1, m.2)->Ok_0.0
            && run(ops, m, mark)->Ok_0.2 == run_size(ops, m.1, m.2)->Ok_0.1,
    decreases ops.len(),
{
    if ops.len() > 0 {
        match step(ops[0], m, mark) {
            Err(_) => {},
            Ok(next) => lemma_run_size(ops.drop_first(), next, mark),
        }
    }
}

/// The stamp made of image `m`: scaled to `STAMP_SIZE` square with the
/// nearest-pixel kernel.
pub open spec fn stamp_of(m: ImageModel) -> ImageModel {
    (resized(m.0, m.1, m.2, STAMP_SIZE, STAMP_SIZE, SampleFilter::Nearest), STAMP_SIZE, STAMP_SIZE)
}

/// A decoded image held as RGBA pixels, with its size.
pub struct Photon {
    pixels: Vec<u8>,
    width: u32,
    height: u32,
}

/// The shared watermark stamp, decoded once and then only read.
pub struct Stamp {
    pixels: Vec<u8>,
    width: u32,
    height: u32,
}

impl Stamp {
    pub closed spec fn model(&self) -> ImageModel {
        (self.pixels@, self.width, self.height)
    }

    /// The buffer holds four bytes per pixel.
    pub open spec fn wf(&self) -> bool {
        is_image(self.model())
    }

    /// Decodes the stamp image and scales it to `STAMP_SIZE` square with the
    /// nearest-pixel kernel.
    pub fn from_bytes(data: &[u8]) -> (r: Result<Stamp, EngineError>)
        ensures
            decoded_image(data@) is Some ==> (r matches Ok(s) && s.wf() && s.model() == stamp_of(
                decoded_image(data@)->0,
            )),
            decoded_image(data@) is None ==> r == Err::<
                Stamp,
                EngineError,
            >(EngineError::ImageDecode),
    {
        match photon_open(data) {
            None => Err(EngineError::ImageDecode),
            Some((px, w, h)) => {
                let pixels = photon_resize(px.as_slice(), w, h, STAMP_SIZE, STAMP_SIZE, SampleFilter::Nearest);
                Ok(Stamp { pixels, width: STAMP_SIZE, height: STAMP_SIZE })
            },
        }
    }
}

impl Photon {
    pub closed spec fn model(&self) -> ImageModel {
        (self.pixels@, self.width, self.height)
    }

    /// The buffer holds four bytes per pixel.
    pub open spec fn wf(&self) -> bool {
        is_image(self.model())
    }

    /// Decodes a source image: `ImageDecode` exactly where the bytes are not
    /// an image in a supported container.
    pub fn try_from(data: &[u8]) -> (r: Result<Photon, EngineError>)
        ensures
            decoded_image(data@) is Some ==> (r matches Ok(p) && p.wf() && p.model()
                == decoded_image(data@)->0),
            decoded_image(data@) is None ==> r == Err::<
                Photon,
                EngineError,
            >(EngineError::ImageDecode),
    {
        match photon_open(data) {
            None => Err(EngineError::ImageDecode),
            Some((pixels, width, height)) => {
                Ok(Photon { pixels, width, height })
            },
        }
    }

    pub fn width(&self) -> (r: u32)
        ensures
            r == self.model().1,
    {
        self.width
    }

    pub fn height(&self) -> (r: u32)
        ensures
            r == self.model().2,
    {
        self.height
    }

    /// Checks a whole chain against the current size without touching the
    /// pixels.
    fn check(&self, specs: &[Spec]) -> (r: Result<(u32, u32), EngineError>)
        ensures
            r == run_size(specs@, self.width, self.height),
    {
        let mut w = self.width;
        let mut h = self.height;
        let mut i: usize = 0;
        assert(specs@.skip(0) =~= specs@);
        while i < specs.len()
            invariant
                0 <= i <= specs@.len(),
                run_size(specs@, self.width, self.height) == run_size(specs@.skip(i as int), w, h),
            decreases specs.len() - i,
        {
            assert(specs@.skip(i as int).drop_first() =~= specs@.skip(i + 1));
            let size = match specs[i] {
                Spec::Crop(c) => {
                    if c.x1 < c.x2 && c.x2 <= w && c.y1 < c.y2 && c.y2 <= h {
                        (c.x2 - c.x1, c.y2 - c.y1)
                    } else {
                        return Err(EngineError::ParameterRange);
                    }
                },
                Spec::Resize(r) => {
                    if r.width == 0 || r.height == 0 {
                        return Err(EngineError::ParameterRange);
                    } else if r.rtype == ResizeType::Normal {
                        (r.width, r.height)
                    } else if w == 0 || h == 0 {
                        return Err(EngineError::ParameterRange);
                    } else {
                        (
                            if w <= r.width { w } else { r.width },
                            if h <= r.height { h } else { r.height },
                        )
                    }
                },
                Spec::Contrast(_) => {
                    return Err(EngineError::UnsupportedOperation);
                },
                Spec::Filter(f) => {
                    if f != Filter::Unspecified && (w == 0 || h == 0) {
                        return Err(EngineError::ParameterRange);
                    }
                    (w, h)
                },
                _ => (w, h),
            };
            w = size.0;
            h = size.1;
            i = i + 1;
        }
        assert(specs@.skip(i as int) =~= Seq::<Spec>::empty());
        Ok((w, h))
    }

    /// Runs one operation that `step_size` admits.
    fn perform(&mut self, op: Spec, mark: &Stamp)
        requires
            old(self).wf(),
            mark.wf(),
            step_size(op, old(self).width, old(self).height) is Ok,
        ensures
            final(self).wf(),
            step(op, old(self).model(), mark.model()) == Ok::<ImageModel, EngineError>(
                final(self).model(),
            ),
    {
        let w = self.width;
        let h = self.height;
        match op {
            Spec::Crop(c) => {
                self.pixels = photon_crop(self.pixels.as_slice(), w, h, c.x1, c.y1, c.x2, c.y2);
                self.width = c.x2 - c.x1;
                self.height = c.y2 - c.y1;
                assert(self.pixels@.len() == rgba_len(self.width, self.height));
            },
            Spec::Resize(r) => {
                if r.rtype == ResizeType::Normal {
                    let f = if r.filter == SampleFilter::Undefined {
                        SampleFilter::Nearest
                    } else {
                        r.filter
                    };
                    self.pixels = photon_resize(self.pixels.as_slice(), w, h, r.width, r.height, f);
                    self.width = r.width;
                    self.height = r.height;
                } else {
                    self.pixels = photon_seam_carve(self.pixels.as_slice(), w, h, r.width, r.height);
                    self.width = if w <= r.width { w } else { r.width };
                    self.height = if h <= r.height { h } else { r.height };
                }
            },
            Spec::Flipv => {
                self.pixels = photon_flipv(self.pixels.as_slice(), w, h);
            },
            Spec::Fliph => {
                self.pixels = photon_fliph(self.pixels.as_slice(), w, h);
            },
            Spec::Filter(f) => {
                match f.to_str() {
                    None => {},
                    Some(name) => {
                        assert(filter_name(f) == Some(name@));
                        self.pixels = photon_filter(self.pixels.as_slice(), w, h, name);
                    },
                }
            },
            Spec::Watermark(wm) => {
                self.pixels = photon_watermark(
                    self.pixels.as_slice(),
                    w,
                    h,
                    mark.pixels.as_slice(),
                    mark.width,
                    mark.height,
                    wm.x,
                    wm.y,
                );
            },
            Spec::Contrast(_) => {},
        }
    }

    /// Applies the operations in order. Either every operation succeeds, or
    /// the first refused one decides the error and the image is left as it
    /// was.
    pub fn apply(&mut self, specs: &[Spec], mark: &Stamp) -> (r: Result<(), EngineError>)
        requires
            old(self).wf(),
            mark.wf(),
        ensures
            final(self).wf(),
            match run(specs@, old(self).model(), mark.model()) {
                Ok(m) => r is Ok && final(self).model() == m,
                Err(e) => r == Err::<(), EngineError>(e) && *final(self) == *old(self),
            },
    {
        proof {
            lemma_run_size(specs@, self.model(), mark.model());
        }
        match self.check(specs) {
            Err(e) => {
                return Err(e);
            },
            Ok(_) => {},
        }
        let ghost start = self.model();
        let mut i: usize = 0;
        assert(specs@.skip(0) =~= specs@);
        while i < specs.len()
            invariant
                0 <= i <= specs@.len(),
                self.wf(),
                mark.wf(),
                run(specs@, start, mark.model()) == run(specs@.skip(i as int), self.model(), mark.model()),
                run_size(specs@.skip(i as int), self.width, self.height) is Ok,
            decreases specs.len() - i,
        {
            assert(specs@.skip(i as int).drop_first() =~= specs@.skip(i + 1));
            assert(specs@.skip(i as int)[0] == specs@[i as int]);
            self.perform(specs[i], mark);
            i = i + 1;
        }
        assert(specs@.skip(i as int) =~= Seq::<Spec>::empty());
        Ok(())
    }

    /// Encodes the image; the engine is consumed. An empty image has no
    /// encoding, and JPEG takes at most `JPEG_MAX_SIDE` pixels a side.
    /// Within `DECODE_BUDGET`, PNG output reads back to the same pixels and
    /// size, and JPEG output to the same size.
    pub fn generate(self, format: OutputFormat) -> (r: Result<Vec<u8>, EngineError>)
        requires
            self.wf(),
        ensures
            self.model().1 == 0 || self.model().2 == 0 ==> r == Err::<Vec<u8>, EngineError>(
                EngineError::EmptyImage,
            ),
            self.model().1 > 0 && self.model().2 > 0 ==> match format {
                OutputFormat::Jpeg(q) => if self.model().1 <= JPEG_MAX_SIDE && self.model().2
                    <= JPEG_MAX_SIDE {
                    r matches Ok(v) && v@ == jpeg_bytes(
                        self.model().0,
                        self.model().1,
                        self.model().2,
                        q,
                    ) && (rgba_len(self.model().1, self.model().2) <= DECODE_BUDGET
                        ==> decodes_at_size(v@, self.model().1, self.model().2))
                } else {
                    r == Err::<Vec<u8>, EngineError>(EngineError::OutputTooLarge)
                },
                OutputFormat::Png => r matches Ok(v) && v@ == png_bytes(
                    self.model().0,
                    self.model().1,
                    self.model().2,
                ) && (rgba_len(self.model().1, self.model().2) <= DECODE_BUDGET ==> decoded_image(
                    v@,
                ) == Some(self.model())),
            },
    {
        if self.width == 0 || self.height == 0 {
            return Err(EngineError::EmptyImage);
        }
        match format {
            OutputFormat::Jpeg(q) => {
                if self.width > JPEG_MAX_SIDE || self.height > JPEG_MAX_SIDE {
                    return Err(EngineError::OutputTooLarge);
                }
                Ok(photon_jpeg(self.pixels, self.width, self.height, q))
            },
            OutputFormat::Png => Ok(photon_png(self.pixels, self.width, self.height)),
        }
    }
}

/// A chain that starts with a resize to zero width or height is refused with
/// `ParameterRange`, whatever the image and whatever follows.
pub proof fn lemma_zero_resize_refused(r: crate::ops::Resize, rest: Seq<Spec>, m: ImageModel, mark: ImageModel)
    requires
        r.width == 0 || r.height == 0,
    ensures
        run(seq![Spec::Resize(r)] + rest, m, mark) == Err::<ImageModel, EngineError>(
            EngineError::ParameterRange,
        ),
{
    assert((seq![Spec::Resize(r)] + rest)[0] == Spec::Resize(r));
}

} // verus!

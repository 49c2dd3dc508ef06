use std::io::Cursor;

use image::{DynamicImage, GenericImageView, ImageOutputFormat, Rgba, RgbaImage};
use thumbor::engine::{EngineError, OutputFormat, Photon, Stamp};
use thumbor::ops::{Filter, SampleFilter, Spec};

fn png_of(w: u32, h: u32) -> Vec<u8> {
    let img = RgbaImage::from_fn(w, h, |x, y| Rgba([(x * 10) as u8, (y * 10) as u8, 128, 255]));
    let mut buf = Vec::new();
    DynamicImage::ImageRgba8(img)
        .write_to(&mut Cursor::new(&mut buf), ImageOutputFormat::Png)
        .unwrap();
    buf
}

fn stamp() -> Stamp {
    Stamp::from_bytes(&png_of(8, 8)).unwrap()
}

#[test]
fn crop_then_jpeg_is_ten_by_ten() {
    let mut engine = Photon::try_from(&png_of(20, 20)).unwrap();
    engine.apply(&[Spec::new_crop(0, 0, 10, 10)], &stamp()).unwrap();
    assert_eq!((engine.width(), engine.height()), (10, 10));
    let out = engine.generate(OutputFormat::Jpeg(85)).unwrap();
    assert_eq!(image::guess_format(&out).unwrap(), image::ImageFormat::Jpeg);
    let decoded = image::load_from_memory(&out).unwrap();
    assert_eq!(decoded.dimensions(), (10, 10));
}

#[test]
fn zero_resize_is_refused_and_image_kept() {
    let mut engine = Photon::try_from(&png_of(20, 20)).unwrap();
    let r = engine.apply(&[Spec::new_resize(0, 0, SampleFilter::Nearest)], &stamp());
    assert_eq!(r, Err(EngineError::ParameterRange));
    assert_eq!((engine.width(), engine.height()), (20, 20));
    let out = engine.generate(OutputFormat::Png).unwrap();
    let decoded = image::load_from_memory(&out).unwrap();
    assert_eq!(decoded.dimensions(), (20, 20));
    assert_eq!(decoded.get_pixel(3, 4), Rgba([30, 40, 128, 255]));
}

#[test]
fn failing_chain_changes_nothing() {
    let mut engine = Photon::try_from(&png_of(20, 20)).unwrap();
    let r = engine.apply(
        &[Spec::new_crop(0, 0, 10, 10), Spec::new_crop(0, 0, 15, 15)],
        &stamp(),
    );
    assert_eq!(r, Err(EngineError::ParameterRange));
    assert_eq!((engine.width(), engine.height()), (20, 20));
}

#[test]
fn crop_outside_or_empty_is_refused() {
    let mut engine = Photon::try_from(&png_of(20, 20)).unwrap();
    let mark = stamp();
    assert_eq!(engine.apply(&[Spec::new_crop(0, 0, 21, 5)], &mark), Err(EngineError::ParameterRange));
    assert_eq!(engine.apply(&[Spec::new_crop(5, 5, 5, 9)], &mark), Err(EngineError::ParameterRange));
    assert_eq!(engine.apply(&[Spec::new_crop(6, 5, 5, 9)], &mark), Err(EngineError::ParameterRange));
}

#[test]
fn contrast_is_refused_explicitly() {
    let mut engine = Photon::try_from(&png_of(4, 4)).unwrap();
    let r = engine.apply(&[Spec::new_fliph(), Spec::new_contrast(0x4120_0000)], &stamp());
    assert_eq!(r, Err(EngineError::UnsupportedOperation));
}

#[test]
fn resize_and_seam_carve_sizes() {
    let mark = stamp();
    let mut engine = Photon::try_from(&png_of(20, 10)).unwrap();
    engine.apply(&[Spec::new_resize(30, 40, SampleFilter::Undefined)], &mark).unwrap();
    assert_eq!((engine.width(), engine.height()), (30, 40));
    engine.apply(&[Spec::new_seam_carve(28, 100)], &mark).unwrap();
    assert_eq!((engine.width(), engine.height()), (28, 40));
    let decoded = image::load_from_memory(&engine.generate(OutputFormat::Png).unwrap()).unwrap();
    assert_eq!(decoded.dimensions(), (28, 40));
}

#[test]
fn flips_move_pixels() {
    let mark = stamp();
    let mut engine = Photon::try_from(&png_of(5, 3)).unwrap();
    engine.apply(&[Spec::new_fliph(), Spec::new_flipv()], &mark).unwrap();
    let decoded = image::load_from_memory(&engine.generate(OutputFormat::Png).unwrap()).unwrap();
    assert_eq!(decoded.dimensions(), (5, 3));
    assert_eq!(decoded.get_pixel(0, 0), Rgba([40, 20, 128, 255]));
}

#[test]
fn filter_and_watermark_keep_size() {
    let mark = stamp();
    let mut engine = Photon::try_from(&png_of(100, 90)).unwrap();
    engine
        .apply(
            &[
                Spec::new_filter(Filter::Unspecified),
                Spec::new_filter(Filter::Oceanic),
                Spec::new_watermark(20, 20),
                Spec::new_watermark(95, 95),
            ],
            &mark,
        )
        .unwrap();
    assert_eq!((engine.width(), engine.height()), (100, 90));
    let before = image::load_from_memory(&png_of(100, 90)).unwrap();
    let after = image::load_from_memory(&engine.generate(OutputFormat::Png).unwrap()).unwrap();
    assert_ne!(before.get_pixel(30, 30), after.get_pixel(30, 30));
}

#[test]
fn unspecified_filter_changes_nothing() {
    let mut engine = Photon::try_from(&png_of(6, 6)).unwrap();
    engine.apply(&[Spec::new_filter(Filter::Unspecified)], &stamp()).unwrap();
    let after = image::load_from_memory(&engine.generate(OutputFormat::Png).unwrap()).unwrap();
    assert_eq!(after.get_pixel(2, 5), Rgba([20, 50, 128, 255]));
}

#[test]
fn jpeg_refuses_a_side_over_limit() {
    let mut engine = Photon::try_from(&png_of(2, 2)).unwrap();
    engine.apply(&[Spec::new_resize(65536, 1, SampleFilter::Nearest)], &stamp()).unwrap();
    assert_eq!(engine.generate(OutputFormat::Jpeg(85)), Err(EngineError::OutputTooLarge));
}

#[test]
fn garbage_is_not_an_image() {
    assert!(matches!(Photon::try_from(b"not an image"), Err(EngineError::ImageDecode)));
    assert!(matches!(Stamp::from_bytes(&[]), Err(EngineError::ImageDecode)));
}

#[test]
fn png_output_reads_back_unchanged() {
    let source = png_of(7, 5);
    let engine = Photon::try_from(&source).unwrap();
    let out = engine.generate(OutputFormat::Png).unwrap();
    let again = Photon::try_from(&out).unwrap();
    assert_eq!((again.width(), again.height()), (7, 5));
    let a = image::load_from_memory(&source).unwrap().to_rgba8();
    let b = image::load_from_memory(&out).unwrap().to_rgba8();
    assert_eq!(a.into_raw(), b.into_raw());
}

#[test]
fn empty_image_decodes_but_has_no_output() {
    let empty = b"P6\n0 0\n255\n".to_vec();
    let engine = Photon::try_from(&empty).unwrap();
    assert_eq!((engine.width(), engine.height()), (0, 0));
    assert_eq!(engine.generate(OutputFormat::Png), Err(EngineError::EmptyImage));
}

#[test]
fn empty_image_refuses_pixel_operations() {
    let empty = b"P6\n0 0\n255\n".to_vec();
    let mark = stamp();
    let mut engine = Photon::try_from(&empty).unwrap();
    assert_eq!(
        engine.apply(&[Spec::new_filter(Filter::Marine)], &mark),
        Err(EngineError::ParameterRange)
    );
    assert_eq!(engine.apply(&[Spec::new_seam_carve(4, 4)], &mark), Err(EngineError::ParameterRange));
    engine.apply(&[Spec::new_fliph(), Spec::new_resize(3, 2, SampleFilter::Nearest)], &mark).unwrap();
    assert_eq!((engine.width(), engine.height()), (3, 2));
}

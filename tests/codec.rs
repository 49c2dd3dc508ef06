use thumbor::codec::CodecError;
use thumbor::ops::{Filter, ImageSpec, ResizeType, SampleFilter, Spec};

fn every_kind() -> Vec<Spec> {
    vec![
        Spec::new_resize(500, 800, SampleFilter::CatmullRom),
        Spec::new_seam_carve(7, 9),
        Spec::new_crop(1, 2, 300, 400),
        Spec::new_flipv(),
        Spec::new_fliph(),
        Spec::new_contrast(0x4120_0000),
        Spec::new_filter(Filter::Islands),
        Spec::new_watermark(20, 20),
        Spec::new_crop(0, 0, u32::MAX, 0x0102_0304),
    ]
}

#[test]
fn round_trip_keeps_every_kind_in_order() {
    let spec = ImageSpec::new(every_kind());
    let token = spec.encode();
    let back = ImageSpec::try_from(&token).unwrap();
    assert_eq!(back.specs, every_kind());
}

#[test]
fn round_trip_of_bytes() {
    let spec = ImageSpec::new(every_kind());
    let back = ImageSpec::from_bytes(&spec.to_bytes()).unwrap();
    assert_eq!(back, spec);
}

#[test]
fn round_trip_keeps_order_of_repeated_kinds() {
    let specs = vec![Spec::new_fliph(), Spec::new_flipv(), Spec::new_fliph()];
    let back = ImageSpec::try_from(&ImageSpec::new(specs.clone()).encode()).unwrap();
    assert_eq!(back.specs, specs);
}

#[test]
fn empty_chain_round_trips() {
    let spec = ImageSpec::new(vec![]);
    assert_eq!(spec.to_bytes(), vec![0x0D, 0, 0, 0, 0]);
    assert_eq!(spec.encode(), "DQAAAAA");
    assert_eq!(ImageSpec::try_from("DQAAAAA").unwrap().specs, vec![]);
}

#[test]
fn end_to_end_token_keeps_three_operations() {
    let specs = vec![
        Spec::new_resize(500, 800, SampleFilter::CatmullRom),
        Spec::new_watermark(20, 20),
        Spec::new_filter(Filter::Marine),
    ];
    let token = ImageSpec::new(specs).encode();
    let back = ImageSpec::try_from(&token).unwrap();
    assert_eq!(back.specs.len(), 3);
    match back.specs[0] {
        Spec::Resize(r) => {
            assert_eq!(r.width, 500);
            assert_eq!(r.height, 800);
            assert_eq!(r.rtype, ResizeType::Normal);
            assert_eq!(r.filter, SampleFilter::CatmullRom);
        }
        other => panic!("unexpected {:?}", other),
    }
    match back.specs[1] {
        Spec::Watermark(w) => {
            assert_eq!(w.x, 20);
            assert_eq!(w.y, 20);
        }
        other => panic!("unexpected {:?}", other),
    }
    assert_eq!(back.specs[2], Spec::Filter(Filter::Marine));
}

#[test]
fn crop_record_bytes() {
    let bytes = ImageSpec::new(vec![Spec::new_crop(1, 2, 3, 4)]).to_bytes();
    assert_eq!(
        bytes,
        vec![
            0x0D, 1, 0, 0, 0, 0x12, 22, 0x12, 20, 0x0D, 1, 0, 0, 0, 0x15, 2, 0, 0, 0, 0x1D, 3, 0,
            0, 0, 0x25, 4, 0, 0, 0
        ]
    );
}

#[test]
fn token_is_base64_of_bytes() {
    assert_eq!(ImageSpec::new(vec![Spec::new_flipv()]).encode(), "DQEAAAASAhoA");
    assert_eq!(ImageSpec::new(vec![Spec::new_fliph()]).encode(), "DQEAAAASAiIA");
    assert_eq!(ImageSpec::try_from("DQEAAAASAiIA").unwrap().specs, vec![Spec::Fliph]);
}

#[test]
fn token_uses_url_safe_characters() {
    let token = ImageSpec::new(every_kind()).encode();
    assert!(token
        .chars()
        .all(|c| c.is_ascii_alphanumeric() || c == '-' || c == '_'));
    assert_ne!(token.len() % 4, 1);
}

#[test]
fn token_length_is_never_one_mod_four() {
    for n in 0..12 {
        let token = ImageSpec::new(vec![Spec::new_fliph(); n]).encode();
        assert_ne!(token.len() % 4, 1);
    }
}

#[test]
fn decode_rejects_truncated_base64() {
    let token = ImageSpec::new(every_kind()).encode();
    let cut = &token[..token.len() - 1];
    assert!(ImageSpec::try_from(cut).is_err());
    assert_eq!(ImageSpec::try_from("D").unwrap_err(), CodecError::InvalidBase64);
    assert_eq!(ImageSpec::try_from("DQAAAAA=").unwrap_err(), CodecError::InvalidBase64);
    assert_eq!(ImageSpec::try_from("DQ+a").unwrap_err(), CodecError::InvalidBase64);
}

#[test]
fn every_cut_of_a_token_is_refused() {
    let token = ImageSpec::new(every_kind()).encode();
    for k in 0..token.len() {
        assert!(ImageSpec::try_from(&token[..k]).is_err(), "cut at {}", k);
    }
}

#[test]
fn cut_on_record_boundary_is_truncated() {
    let two = ImageSpec::new(vec![Spec::new_flipv(), Spec::new_flipv()]).encode();
    assert_eq!(two, "DQIAAAASAhoAEgIaAA");
    assert_eq!(ImageSpec::try_from(&two[..12]).unwrap_err(), CodecError::Truncated);
}

#[test]
fn every_cut_of_the_bytes_is_truncated() {
    let bytes = ImageSpec::new(every_kind()).to_bytes();
    for k in 0..bytes.len() {
        assert_eq!(ImageSpec::from_bytes(&bytes[..k]).unwrap_err(), CodecError::Truncated);
    }
}

#[test]
fn empty_input_is_truncated() {
    assert_eq!(ImageSpec::try_from("").unwrap_err(), CodecError::Truncated);
    assert_eq!(ImageSpec::from_bytes(&[]).unwrap_err(), CodecError::Truncated);
}

#[test]
fn extra_bytes_after_the_records_are_refused() {
    let mut bytes = ImageSpec::new(vec![Spec::new_flipv()]).to_bytes();
    bytes.extend_from_slice(&[0x12, 2, 0x1A, 0]);
    assert_eq!(ImageSpec::from_bytes(&bytes).unwrap_err(), CodecError::TrailingBytes);
}

#[test]
fn joined_chains_keep_both_orders() {
    let a = vec![Spec::new_crop(1, 2, 3, 4), Spec::new_fliph()];
    let b = vec![Spec::new_filter(Filter::Oceanic), Spec::new_watermark(5, 6)];
    let joined: Vec<Spec> = a.iter().chain(b.iter()).copied().collect();
    let back = ImageSpec::try_from(&ImageSpec::new(joined.clone()).encode()).unwrap();
    assert_eq!(back.specs, joined);
}

const ONE: [u8; 5] = [0x0D, 1, 0, 0, 0];

fn with_header(records: &[u8]) -> Vec<u8> {
    let mut v = ONE.to_vec();
    v.extend_from_slice(records);
    v
}

#[test]
fn decode_rejects_bytes_shorter_than_header() {
    assert_eq!(ImageSpec::from_bytes(&[0x0D]).unwrap_err(), CodecError::Truncated);
    assert_eq!(ImageSpec::from_bytes(&[0x0D, 1, 0, 0]).unwrap_err(), CodecError::Truncated);
    assert_eq!(ImageSpec::from_bytes(&with_header(&[0x12])).unwrap_err(), CodecError::Truncated);
    assert_eq!(
        ImageSpec::from_bytes(&with_header(&[0x12, 4, 0x1A])).unwrap_err(),
        CodecError::Truncated
    );
    assert_eq!(
        ImageSpec::from_bytes(&with_header(&[0x12, 1, 0x1A])).unwrap_err(),
        CodecError::Truncated
    );
}

#[test]
fn decode_rejects_out_of_range_tag() {
    for key in [0x42u8, 0x02, 0x1B] {
        assert_eq!(
            ImageSpec::from_bytes(&with_header(&[0x12, 2, key, 0])).unwrap_err(),
            CodecError::UnknownTag
        );
    }
}

#[test]
fn decode_rejects_other_field_keys() {
    assert_eq!(
        ImageSpec::from_bytes(&with_header(&[0x0A, 2, 0x1A, 0])).unwrap_err(),
        CodecError::UnexpectedField
    );
    assert_eq!(ImageSpec::from_bytes(&[0x08, 1, 0, 0, 0]).unwrap_err(), CodecError::UnexpectedField);
}

#[test]
fn decode_rejects_mismatched_fields() {
    // filter record whose value is no known preset
    assert_eq!(
        ImageSpec::from_bytes(&with_header(&[0x12, 4, 0x32, 2, 0x08, 9])).unwrap_err(),
        CodecError::FieldMismatch
    );
    // flip with a payload byte
    assert_eq!(
        ImageSpec::from_bytes(&with_header(&[0x12, 3, 0x1A, 1, 0x08])).unwrap_err(),
        CodecError::FieldMismatch
    );
    // contrast field written as a varint
    assert_eq!(
        ImageSpec::from_bytes(&with_header(&[0x12, 7, 0x2A, 5, 0x08, 0, 0, 0, 0])).unwrap_err(),
        CodecError::FieldMismatch
    );
}

#[test]
fn first_bad_record_decides() {
    let mut bytes = ImageSpec::new(vec![Spec::new_flipv(), Spec::new_flipv()]).to_bytes();
    bytes[11] = 0x42;
    bytes.push(0x12);
    assert_eq!(ImageSpec::from_bytes(&bytes).unwrap_err(), CodecError::UnknownTag);
}

#[test]
fn filter_names() {
    assert_eq!(Filter::Unspecified.to_str(), None);
    assert_eq!(Filter::Oceanic.to_str(), Some("oceanic"));
    assert_eq!(Filter::Islands.to_str(), Some("islands"));
    assert_eq!(Filter::Marine.to_str(), Some("marine"));
}

#[test]
fn token_outside_alphabet_or_of_bad_length_is_refused() {
    assert_eq!(ImageSpec::try_from("DQAA/AA").unwrap_err(), CodecError::InvalidBase64);
    assert_eq!(ImageSpec::try_from("DQAA+AA").unwrap_err(), CodecError::InvalidBase64);
    assert_eq!(ImageSpec::try_from("DQAAA").unwrap_err(), CodecError::InvalidBase64);
}

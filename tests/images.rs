use comic_dl::{encode_payload, item_outcome, ItemErrorKind, ItemOutcome};

fn tiny_png() -> Vec<u8> {
    let img = image::RgbImage::from_pixel(2, 2, image::Rgb([200, 10, 10]));
    let mut out = std::io::Cursor::new(Vec::new());
    img.write_to(&mut out, image::ImageFormat::Png).unwrap();
    out.into_inner()
}

#[test]
fn payload_is_reencoded_as_jpeg() {
    let png = tiny_png();
    let jpeg = encode_payload(&png).unwrap();
    assert_ne!(jpeg, png);
    assert_eq!(&jpeg[..2], &[0xFF, 0xD8]);
    let back = image::load_from_memory(&jpeg).unwrap();
    assert_eq!(back.width(), 2);
}

#[test]
fn garbage_payload_is_a_decode_error() {
    assert_eq!(encode_payload(&b"not an image".to_vec()), Err(ItemErrorKind::Decode));
    assert_eq!(encode_payload(&Vec::new()), Err(ItemErrorKind::Decode));
}

#[test]
fn first_failing_step_decides() {
    assert_eq!(item_outcome(false, true, true), ItemOutcome::Failed(ItemErrorKind::Fetch));
    assert_eq!(item_outcome(true, false, true), ItemOutcome::Failed(ItemErrorKind::Decode));
    assert_eq!(item_outcome(true, true, false), ItemOutcome::Failed(ItemErrorKind::Write));
    assert_eq!(item_outcome(true, true, true), ItemOutcome::Done);
}

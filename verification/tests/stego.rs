use qcrypt::stego::{check_carrier_extension, extract_lsb_from_image, extract_lsb_from_memory, inject_lsb_image, is_lossless_extension, RgbaImage, StegoError};

fn carrier(w: u32, h: u32) -> RgbaImage {
    let mut pixels = Vec::new();
    for i in 0..(w * h * 4) {
        pixels.push((i * 37 % 251) as u8);
    }
    RgbaImage { width: w, height: h, pixels }
}

#[test]
fn inject_then_extract_gives_the_payload_back() {
    let img = carrier(40, 40);
    let payload = b"-----BEGIN SECRET-----\nhidden\n".to_vec();
    let out = inject_lsb_image(&img, &payload).unwrap();
    assert_eq!(out.width, 40);
    assert_eq!(out.height, 40);
    for (i, (a, b)) in img.pixels.iter().zip(out.pixels.iter()).enumerate() {
        if i % 4 == 3 {
            assert_eq!(a, b, "alpha changed");
        } else {
            assert!(a ^ b <= 1, "more than the low bit changed");
        }
    }
    assert_eq!(extract_lsb_from_image(&out).unwrap(), payload);
}

#[test]
fn carrier_size_limits() {
    assert_eq!(inject_lsb_image(&carrier(10, 10), b"x").err(), Some(StegoError::CarrierTooSmall));
    // 40x40 has 4800 channels, 3968 after the header: 496 bytes at most.
    assert!(inject_lsb_image(&carrier(40, 40), &vec![1u8; 496]).is_ok());
    assert_eq!(inject_lsb_image(&carrier(40, 40), &vec![1u8; 497]).err(), Some(StegoError::CapacityExceeded));
}

#[test]
fn extraction_errors() {
    assert_eq!(extract_lsb_from_image(&carrier(10, 10)), Err(StegoError::HeaderMissing));
    let blank = RgbaImage { width: 40, height: 40, pixels: vec![0u8; 40 * 40 * 4] };
    assert_eq!(extract_lsb_from_image(&blank), Err(StegoError::InvalidPayloadSize));
    assert_eq!(
        StegoError::InvalidPayloadSize.message(),
        "Stego extraction failed: Invalid payload size in header (corrupted or not a stego file)."
    );
}

#[test]
fn extraction_from_encoded_png() {
    let img = carrier(32, 32);
    let payload = b"key material".to_vec();
    let out = inject_lsb_image(&img, &payload).unwrap();
    let mut png = Vec::new();
    image::ImageEncoder::write_image(
        image::codecs::png::PngEncoder::new(&mut png),
        &out.pixels,
        out.width,
        out.height,
        image::ExtendedColorType::Rgba8,
    )
    .unwrap();
    assert_eq!(extract_lsb_from_memory(&png).unwrap(), payload);
    let err = extract_lsb_from_memory(b"not an image").unwrap_err();
    assert!(err.starts_with("Failed to decode stego carrier from memory: "), "{}", err);
}

#[test]
fn lossless_extensions() {
    assert!(is_lossless_extension(Some("png")));
    assert!(is_lossless_extension(Some("PnG")));
    assert!(is_lossless_extension(Some("BMP")));
    assert!(!is_lossless_extension(Some("jpg")));
    assert!(!is_lossless_extension(Some("pngx")));
    assert!(!is_lossless_extension(None));
    assert_eq!(check_carrier_extension(Some("jpeg")), Err(StegoError::LossyCarrier));
    assert_eq!(
        StegoError::LossyCarrier.message(),
        "Carrier must be a lossless format (.png or .bmp) to prevent key corruption."
    );
}

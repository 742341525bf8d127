use local_bite::products::certificate::{CertificateError, CertificateService};
use local_bite::products::images::{check_upload, is_allowed_mime, needs_resize, prepare_image, ImageError};
use local_bite::products::qr::{qr_png, trace_target_url, QrService};

#[test]
fn qr_codes_are_png_images() {
    let url = trace_target_url(None, 42);
    let png = qr_png(&url).unwrap();
    assert_eq!(&png[..8], &[0x89, b'P', b'N', b'G', 0x0d, 0x0a, 0x1a, 0x0a]);
    let decoded = image::load_from_memory(&png).unwrap();
    assert!(decoded.width() >= 300 && decoded.height() >= 300);
    let (path, same) = QrService::new("uploads".to_string()).generate(None, 42).unwrap();
    assert_eq!(same, png);
    assert!(path.starts_with("qr/00000000-0000-0000-0000-00000000002a-"));
    assert!(path.ends_with(".png"));
}

#[test]
fn uploads_are_checked_and_stored_as_jpeg() {
    assert!(is_allowed_mime("image/jpeg"));
    assert!(is_allowed_mime("image/png"));
    assert!(is_allowed_mime("image/webp"));
    assert!(!is_allowed_mime("image/gif"));
    assert_eq!(check_upload("text/plain", 10), Err(ImageError::UnsupportedType));
    assert_eq!(check_upload("image/png", 10 * 1024 * 1024 + 1), Err(ImageError::TooLarge));
    assert_eq!(check_upload("image/png", 10 * 1024 * 1024), Ok(()));
    assert!(needs_resize(801, 10));
    assert!(needs_resize(10, 801));
    assert!(!needs_resize(800, 800));

    let png = qr_png("https://localbite.rs/trace/x").unwrap();
    let jpeg = prepare_image(&png).unwrap();
    assert_eq!(&jpeg[..2], &[0xff, 0xd8]);
    let decoded = image::load_from_memory(&jpeg).unwrap();
    let source = image::load_from_memory(&png).unwrap();
    assert_eq!((decoded.width(), decoded.height()), (source.width(), source.height()));

    let tall = image::DynamicImage::new_luma8(300, 2400);
    let mut bytes = std::io::Cursor::new(Vec::new());
    tall.write_to(&mut bytes, image::ImageFormat::Png).unwrap();
    let jpeg = prepare_image(bytes.get_ref()).unwrap();
    let decoded = image::load_from_memory(&jpeg).unwrap();
    assert_eq!((decoded.width(), decoded.height()), (100, 800));

    let big = image::DynamicImage::new_rgb8(1600, 400);
    let mut bytes = std::io::Cursor::new(Vec::new());
    big.write_to(&mut bytes, image::ImageFormat::Png).unwrap();
    let jpeg = prepare_image(bytes.get_ref()).unwrap();
    let decoded = image::load_from_memory(&jpeg).unwrap();
    assert_eq!((decoded.width(), decoded.height()), (800, 200));

    assert_eq!(prepare_image(b"not an image"), Err(ImageError::DecodeFailed));
    assert_eq!(prepare_image(&vec![0u8; 10 * 1024 * 1024 + 1]), Err(ImageError::TooLarge));
}

#[test]
fn certificates_must_be_pdf() {
    let pdf = b"%PDF-1.7 ...".to_vec();
    assert_eq!(CertificateService::check_rendering(true, pdf.clone()), Ok(pdf.clone()));
    assert_eq!(CertificateService::check_rendering(false, pdf), Err(CertificateError::RendererFailed));
    assert_eq!(
        CertificateService::check_rendering(true, b"<html>".to_vec()),
        Err(CertificateError::RendererFailed)
    );
    assert_eq!(CertificateService::check_rendering(true, b"%PDF".to_vec()), Err(CertificateError::RendererFailed));
}

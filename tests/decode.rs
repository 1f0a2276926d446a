use fiv::config::QualityTier;
use fiv::decode::Decoder;
use std::io::Cursor;
use std::path::Path;

#[test]
fn test_supported_extensions() {
    let decoder = Decoder::new();

    assert!(decoder.is_supported(Path::new("test.jpg")));
    assert!(decoder.is_supported(Path::new("test.JPEG")));
    assert!(decoder.is_supported(Path::new("test.png")));
    assert!(!decoder.is_supported(Path::new("test.txt")));
    assert!(!decoder.is_supported(Path::new("test")));
}

#[test]
fn extension_checks() {
    let decoder = Decoder::default();
    assert_eq!(decoder.extensions(), &["jpg", "jpeg", "png", "gif", "bmp", "webp"]);
    assert!(decoder.is_supported_extension("WebP"));
    assert!(!decoder.is_supported_extension("tiff"));
    assert!(Decoder::is_jpeg(Path::new("dir/photo.JPG")));
    assert!(Decoder::is_jpeg(Path::new("photo.jpeg")));
    assert!(!Decoder::is_jpeg(Path::new("photo.png")));
    assert!(!Decoder::is_jpeg(Path::new("jpg")));
    assert!(Decoder::is_jpeg_extension("JpEg"));
    assert!(!Decoder::is_jpeg_extension("jp"));
}

#[test]
fn rgb_and_gray_to_rgba() {
    assert_eq!(
        Decoder::to_rgba(vec![1, 2, 3, 4, 5, 6, 7], 3),
        vec![1, 2, 3, 255, 4, 5, 6, 255]
    );
    assert_eq!(Decoder::to_rgba(vec![9, 8], 1), vec![9, 9, 9, 255, 8, 8, 8, 255]);
    assert_eq!(Decoder::to_rgba(vec![1, 2, 3, 4], 4), vec![1, 2, 3, 4]);
    assert_eq!(Decoder::to_rgba(vec![1, 2], 2), vec![1, 2]);
    assert_eq!(Decoder::to_rgba(vec![], 3), Vec::<u8>::new());
}

fn encoded(format: image::ImageFormat, w: u32, h: u32) -> Vec<u8> {
    let img = image::RgbImage::from_pixel(w, h, image::Rgb([200, 10, 10]));
    let mut out = Cursor::new(Vec::new());
    image::DynamicImage::ImageRgb8(img).write_to(&mut out, format).unwrap();
    out.into_inner()
}

#[test]
fn decode_png_bytes() {
    let bytes = encoded(image::ImageFormat::Png, 3, 2);
    let (pixels, w, h) = Decoder::decode_generic(&bytes).unwrap();
    assert_eq!((w, h), (3, 2));
    assert_eq!(pixels.len(), 3 * 2 * 4);
    assert_eq!(&pixels[0..4], &[200, 10, 10, 255]);
    // not a JPEG: the fallback decodes it
    let (pixels2, w2, h2) = Decoder::decode_jpeg(&bytes).unwrap();
    assert_eq!((w2, h2, pixels2), (w, h, pixels));
}

#[test]
fn decode_jpeg_bytes() {
    let bytes = encoded(image::ImageFormat::Jpeg, 8, 4);
    let (pixels, w, h) = Decoder::decode_jpeg(&bytes).unwrap();
    assert_eq!((w, h), (8, 4));
    assert_eq!(pixels.len(), 8 * 4 * 4);
    assert_eq!(pixels[3], 255);
    assert!(pixels[0] > 150 && pixels[1] < 60);
}

#[test]
fn decode_rejects_garbage() {
    assert!(Decoder::decode_generic(&[1, 2, 3, 4]).is_none());
    assert!(Decoder::decode_jpeg(&[0xFF, 0xD8, 0, 0]).is_none());
    let _ = QualityTier::Full;
}

use std::io::Cursor;

use chuda::{RenderError, SourceImage};

#[test]
fn raw_buffers_must_cover_every_pixel() {
    let image = SourceImage::from_raw(1, 1, vec![255; 4]).unwrap();
    assert_eq!((image.width(), image.height()), (1, 1));
    assert_eq!(image.rgba(), &[255; 4]);
    let err = SourceImage::from_raw(2, 1, vec![255; 7]).unwrap_err();
    assert_eq!(err, RenderError::BufferTooShort { width: 2, height: 1 });
    let longer = SourceImage::from_raw(1, 1, vec![1, 2, 3, 4, 5]).unwrap();
    assert_eq!(longer.rgba(), &[1, 2, 3, 4, 5]);
    assert!(SourceImage::from_raw(0, 0, vec![]).is_ok());
}

#[test]
fn png_bytes_decode_to_rgba() {
    let mut picture = image::RgbaImage::new(3, 2);
    picture.put_pixel(2, 1, image::Rgba([10, 20, 30, 40]));
    let mut bytes = Vec::new();
    picture.write_to(&mut Cursor::new(&mut bytes), image::ImageFormat::Png).unwrap();
    let decoded = SourceImage::from_png(&bytes).unwrap();
    assert_eq!((decoded.width(), decoded.height()), (3, 2));
    assert_eq!(decoded.rgba(), picture.as_raw().as_slice());
    match SourceImage::from_png(b"not a png") {
        Err(RenderError::Decode(text)) => assert!(!text.is_empty()),
        other => panic!("expected a decode error, got {other:?}"),
    }
}

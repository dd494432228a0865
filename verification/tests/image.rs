use std::rc::Rc;

use wat::image::{ImageSource, NoImageSource, RasterImage};

#[test]
fn rejects_mismatched_buffers() {
    assert!(RasterImage::new(2, 2, vec![0; 16]).is_some());
    assert!(RasterImage::new(2, 2, vec![0; 15]).is_none());
    assert!(RasterImage::new(0, 2, vec![]).is_none());
}

#[test]
fn solid_images_are_uniform() {
    let image = RasterImage::solid(3, 2, [1, 2, 3, 4]);
    assert_eq!(image.pixels.len(), 24);
    assert_eq!(&image.pixels[0..4], &[1, 2, 3, 4]);
    assert_eq!(&image.pixels[20..24], &[1, 2, 3, 4]);
    assert_eq!(image.width as f32 / image.height.max(1) as f32, 1.5);
}

#[test]
fn png_round_trip() {
    let original = RasterImage::solid(4, 3, [10, 20, 30, 255]);
    let mut png = std::io::Cursor::new(Vec::new());
    image::DynamicImage::ImageRgba8(
        image::RgbaImage::from_raw(4, 3, original.pixels.clone()).unwrap(),
    )
    .write_to(&mut png, image::ImageFormat::Png)
    .unwrap();

    let decoded = RasterImage::decode(&png.into_inner()).expect("decodable");
    assert_eq!(decoded.width, 4);
    assert_eq!(decoded.height, 3);
    assert_eq!(decoded.pixels, original.pixels);
}

#[test]
fn garbage_does_not_decode() {
    assert!(RasterImage::decode(b"not an image").is_none());
    assert!(RasterImage::decode(&[]).is_none());
}

#[test]
fn closures_can_be_image_sources() {
    let image = Rc::new(RasterImage::solid(1, 1, [0, 0, 0, 255]));
    let source = move |url: &str| (url == "a.png").then(|| image.clone());
    assert!(source.image("a.png").is_some());
    assert!(source.image("b.png").is_none());
    assert!(NoImageSource.image("a.png").is_none());
}

#[test]
fn huge_dimensions_are_rejected_not_overflowed() {
    assert!(RasterImage::new(u32::MAX, u32::MAX, vec![0; 4]).is_none());
    assert!(RasterImage::new(1, 1, vec![0; 4]).is_some());
}

#[test]
fn grey_pngs_decode_to_rgba() {
    let mut png = std::io::Cursor::new(Vec::new());
    image::DynamicImage::ImageLuma8(image::GrayImage::from_raw(2, 1, vec![7, 200]).unwrap())
        .write_to(&mut png, image::ImageFormat::Png)
        .unwrap();
    let decoded = RasterImage::decode(&png.into_inner()).expect("decodable");
    assert_eq!(decoded.pixels, vec![7, 7, 7, 255, 200, 200, 200, 255]);
}

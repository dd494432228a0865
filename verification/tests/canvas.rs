use wat::canvas::{Canvas, Color};

#[test]
fn argb_conversion_packs_channels() {
    let mut canvas = Canvas::new(1, 1);
    canvas.set_pixel(0, 0, Color::rgba(0x12, 0x34, 0x56, 0x78));
    assert_eq!(canvas.to_argb32(), vec![0x78_12_34_56]);
}

#[test]
fn a_new_canvas_is_transparent() {
    let canvas = Canvas::new(3, 2);
    assert_eq!(canvas.width(), 3);
    assert_eq!(canvas.height(), 2);
    assert_eq!(canvas.pixels().len(), 24);
    assert_eq!(canvas.pixel(2, 1), Color::transparent());
}

#[test]
fn pixels_read_back_what_was_written() {
    let mut canvas = Canvas::new(4, 4);
    canvas.set_pixel(3, 2, Color::rgb(1, 2, 3));
    assert_eq!(canvas.pixel(3, 2), Color::rgba(1, 2, 3, 255));
    assert_eq!(canvas.pixel(2, 3), Color::transparent());
    assert_eq!(canvas.index(3, 2), (2 * 4 + 3) * 4);
}

#[test]
fn points_off_the_canvas_are_ignored() {
    let mut canvas = Canvas::filled(2, 2, Color::rgb(9, 9, 9));
    canvas.set_pixel(2, 0, Color::rgb(1, 1, 1));
    canvas.set_pixel(0, 5, Color::rgb(1, 1, 1));
    assert_eq!(canvas.pixel(5, 5), Color::transparent());
    assert!(canvas.pixels().chunks(4).all(|p| p == [9, 9, 9, 255]));
}

#[test]
fn clearing_paints_everything() {
    let mut canvas = Canvas::new(2, 3);
    canvas.clear(Color::rgba(5, 6, 7, 8));
    assert!(canvas.pixels().chunks(4).all(|p| p == [5, 6, 7, 8]));
    assert_eq!(canvas.to_argb32(), vec![0x08_05_06_07; 6]);
}

#[test]
fn the_buffer_can_be_written_directly() {
    let mut canvas = Canvas::new(1, 2);
    canvas.pixels_mut()[4..8].copy_from_slice(&[1, 2, 3, 4]);
    assert_eq!(canvas.pixel(0, 1), Color::rgba(1, 2, 3, 4));
}

#[test]
fn png_encoding_round_trips_dimensions() {
    let canvas = Canvas::filled(8, 4, Color::rgb(1, 2, 3));
    let png = canvas.to_png().expect("encoding should succeed");
    assert_eq!(&png[1..4], b"PNG");
    let decoded = image::load_from_memory(&png).expect("decodable");
    assert_eq!(decoded.width(), 8);
    assert_eq!(decoded.height(), 4);
}

#[test]
fn png_encoding_keeps_the_pixels() {
    let mut canvas = Canvas::new(2, 1);
    canvas.set_pixel(1, 0, Color::rgba(9, 8, 7, 6));
    let png = canvas.to_png().expect("encoding should succeed");
    let decoded = wat::image::RasterImage::decode(&png).expect("decodable");
    assert_eq!(decoded.width, 2);
    assert_eq!(decoded.height, 1);
    assert_eq!(decoded.pixels, vec![0, 0, 0, 0, 9, 8, 7, 6]);
}

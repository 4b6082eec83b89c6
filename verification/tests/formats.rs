use raytracing::bitmap::BitmapImage;
use raytracing::camera::Camera;
use raytracing::color::Color;
use raytracing::fixed::{Fixed, SCALE};
use raytracing::image::Image;
use raytracing::pixmap::PixmapImage;
use raytracing::vec3::Vec3;

#[test]
fn color_rgb_keeps_channels() {
    let c = Color::rgb(10, 20, 30);
    assert_eq!((c.r, c.g, c.b), (10, 20, 30));
}

#[test]
fn color_normalization_scales_and_saturates() {
    let half = Fixed::from_ratio(1, 2);
    let one = Fixed::one();
    let c = Color::rgb_normalized(half, one, Fixed::zero());
    assert_eq!((c.r, c.g, c.b), (127, 255, 0));
    let clamped = Color::rgb_normalized(Fixed::from_int(2), Fixed::from_int(-1), one);
    assert_eq!((clamped.r, clamped.g, clamped.b), (255, 0, 255));
}

#[test]
fn camera_viewport_matches_aspect_ratio() {
    let position = Vec3::new(Fixed::zero(), Fixed::zero(), Fixed::one());
    let camera = Camera::new(position);
    assert_eq!(camera.position, position);
    assert_eq!(camera.focal_length.raw, SCALE);
    assert_eq!(camera.viewport_width.raw, 2 * SCALE);
    assert_eq!(camera.viewport_height.raw, 73728); // 1.125 == 2 / (16/9)
}

#[test]
fn image_blank_and_dimensions() {
    let img = Image::blank(4, 3);
    assert_eq!(img._dimensions(), (4, 3));
    assert_eq!(img.bytes.len(), 36);
    assert!(img.bytes.iter().all(|b| *b == 0));
}

#[test]
fn image_set_pixel_writes_three_bytes() {
    let mut img = Image::blank(2, 2);
    img.set_pixel(1, 0, Color::rgb(9, 8, 7));
    img.set_pixel(0, 1, Color::rgb(1, 2, 3));
    assert_eq!(&img.bytes[3..6], &[9, 8, 7]);
    assert_eq!(&img.bytes[6..9], &[1, 2, 3]);
    assert_eq!(&img.bytes[0..3], &[0, 0, 0]);
}

#[test]
fn image_ppm_encoding_is_exact() {
    let mut img = Image::blank(2, 1);
    img.set_pixel(0, 0, Color::rgb(255, 0, 128));
    let bytes = img.to_ppm_bytes();
    let mut expected: Vec<u8> = b"P6\n2 1\n255\n".to_vec();
    expected.extend_from_slice(&[255, 0, 128, 0, 0, 0]);
    assert_eq!(bytes, expected);
}

#[test]
fn bitmap_rows_align_to_four_bytes() {
    assert_eq!(BitmapImage::bytes_per_row(0), 0);
    assert_eq!(BitmapImage::bytes_per_row(1), 4);
    assert_eq!(BitmapImage::bytes_per_row(2), 8);
    assert_eq!(BitmapImage::bytes_per_row(3), 12);
    assert_eq!(BitmapImage::bytes_per_row(5), 16);
}

#[test]
fn bitmap_size_counts_headers() {
    let img = BitmapImage::blank(2, 2);
    assert_eq!(img.pixel_data.len(), 16);
    assert_eq!(img.size_bytes(), 42);
}

#[test]
fn bitmap_set_pixel_stores_blue_first() {
    let mut img = BitmapImage::blank(2, 2);
    img.set_pixel(1, 1, Color::rgb(10, 20, 30));
    // Row stride is 8; pixel (1,1) starts at byte 11.
    assert_eq!(&img.pixel_data[11..14], &[30, 20, 10]);
}

#[test]
fn bitmap_headers_are_exact() {
    let img = BitmapImage::blank(2, 2);
    let header = img.header_bytes();
    assert_eq!(header, vec![66, 77, 42, 0, 0, 0, 0, 0, 0, 0, 26, 0, 0, 0]);
    let dib = img.dib_header_bytes();
    assert_eq!(dib, vec![12, 0, 0, 0, 2, 0, 2, 0, 1, 0, 24, 0]);
    let file = img.to_bytes();
    assert_eq!(file.len(), 42);
    assert_eq!(&file[0..2], b"BM");
    assert_eq!(&file[26..], &img.pixel_data[..]);
}

#[test]
fn pixmap_set_pixel_stores_rgb() {
    let mut img = PixmapImage::blank(2, 2);
    img.set_pixel(0, 1, Color::rgb(1, 2, 3));
    assert_eq!(&img.pixel_data[6..9], &[1, 2, 3]);
}

#[test]
fn pixmap_text_encoding_is_exact() {
    let mut img = PixmapImage::blank(1, 1);
    img.set_pixel(0, 0, Color::rgb(255, 0, 10));
    let bytes = img.to_bytes();
    assert_eq!(bytes, b"P3\n1 1\n255\n255 0 10\n".to_vec());
}

#[test]
fn raster_bridges_carry_every_pixel() {
    let mut raster = Image::blank(2, 2);
    raster.set_pixel(0, 0, Color::rgb(1, 2, 3));
    raster.set_pixel(1, 0, Color::rgb(4, 5, 6));
    raster.set_pixel(0, 1, Color::rgb(7, 8, 9));
    raster.set_pixel(1, 1, Color::rgb(10, 11, 12));

    let pixmap = PixmapImage::from_raster(&raster);
    assert_eq!((pixmap.width, pixmap.height), (2, 2));
    assert_eq!(&pixmap.pixel_data[..], &raster.bytes[..]);

    let bitmap = BitmapImage::from_raster(&raster);
    assert_eq!((bitmap.width, bitmap.height), (2, 2));
    // Row stride is 8; channels are stored blue first.
    assert_eq!(&bitmap.pixel_data[0..3], &[3, 2, 1]);
    assert_eq!(&bitmap.pixel_data[3..6], &[6, 5, 4]);
    assert_eq!(&bitmap.pixel_data[8..11], &[9, 8, 7]);
    assert_eq!(&bitmap.pixel_data[11..14], &[12, 11, 10]);
}

fn encode_one_pixel_via_trait<I: raytracing::formats::Image>() -> Vec<u8> {
    let mut img = I::blank(1, 1);
    img.set_pixel(0, 0, Color::rgb(9, 8, 7));
    img.to_file_bytes()
}

#[test]
fn image_interface_unifies_the_formats() {
    let as_pixmap = encode_one_pixel_via_trait::<PixmapImage>();
    assert_eq!(as_pixmap, b"P3\n1 1\n255\n9 8 7\n".to_vec());
    let as_bitmap = encode_one_pixel_via_trait::<BitmapImage>();
    assert_eq!(as_bitmap.len(), 30);
    assert_eq!(&as_bitmap[0..2], b"BM");
    assert_eq!(&as_bitmap[26..29], &[7, 8, 9]);
}

#[test]
fn pixmap_encodes_pixels_in_order() {
    let mut img = PixmapImage::blank(2, 1);
    img.set_pixel(0, 0, Color::rgb(1, 2, 3));
    img.set_pixel(1, 0, Color::rgb(4, 5, 6));
    let bytes = img.to_bytes();
    assert_eq!(bytes, b"P3\n2 1\n255\n1 2 3\n4 5 6\n".to_vec());
}

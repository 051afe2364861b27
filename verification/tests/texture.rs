use rtw::texture::{Checker, Image};

fn two_by_three() -> Image {
    // Two columns and three rows; sample c of pixel (x, y) is 10 * (2 * y + x) + c.
    let data: Vec<u8> = (0..6u8).flat_map(|p| [10 * p, 10 * p + 1, 10 * p + 2]).collect();
    Image::new(2, 3, data).unwrap()
}

#[test]
fn checker_keeps_its_two_textures() {
    let checker = Checker::new(3u8, "even");
    assert_eq!(*checker.odd(), 3);
    assert_eq!(*checker.even(), "even");
}

#[test]
fn checker_may_hold_a_checker() {
    let inner = Checker::new(1i32, 2i32);
    let outer = Checker::new(inner, 3i32);
    assert_eq!(*outer.odd().odd(), 1);
    assert_eq!(*outer.odd().even(), 2);
    assert_eq!(*outer.even(), 3);
}

#[test]
fn image_has_its_size() {
    let image = two_by_three();
    assert_eq!(image.width(), 2);
    assert_eq!(image.height(), 3);
}

#[test]
fn texel_reads_the_pixel_at_column_and_row() {
    let image = two_by_three();
    assert_eq!(image.texel(0, 0), (0, 1, 2));
    assert_eq!(image.texel(1, 0), (10, 11, 12));
    assert_eq!(image.texel(0, 1), (20, 21, 22));
    assert_eq!(image.texel(1, 1), (30, 31, 32));
    assert_eq!(image.texel(0, 2), (40, 41, 42));
    assert_eq!(image.texel(1, 2), (50, 51, 52));
}

#[test]
fn texel_clamps_to_the_last_column_and_row() {
    let image = two_by_three();
    assert_eq!(image.texel(2, 0), (10, 11, 12));
    assert_eq!(image.texel(0, 3), (40, 41, 42));
    assert_eq!(image.texel(2, 3), (50, 51, 52));
    assert_eq!(image.texel(u32::MAX, u32::MAX), (50, 51, 52));
}

#[test]
fn image_of_one_pixel() {
    let image = Image::new(1, 1, vec![7, 8, 9]).unwrap();
    assert_eq!(image.texel(0, 0), (7, 8, 9));
    assert_eq!(image.texel(5, 5), (7, 8, 9));
}

#[test]
fn image_without_pixels_is_refused() {
    assert!(Image::new(0, 0, Vec::new()).is_none());
    assert!(Image::new(0, 3, vec![0; 9]).is_none());
    assert!(Image::new(3, 0, vec![0; 9]).is_none());
}

#[test]
fn image_with_a_short_buffer_is_refused() {
    assert!(Image::new(2, 3, vec![0; 17]).is_none());
    assert!(Image::new(2, 3, Vec::new()).is_none());
    assert!(Image::new(u32::MAX, u32::MAX, vec![0; 3]).is_none());
}

#[test]
fn image_with_a_long_buffer_ignores_the_rest() {
    let mut data: Vec<u8> = (0..18).collect();
    data.extend([99, 99, 99]);
    let image = Image::new(2, 3, data).unwrap();
    assert_eq!(image.texel(1, 2), (15, 16, 17));
    assert_eq!(image.texel(9, 9), (15, 16, 17));
}

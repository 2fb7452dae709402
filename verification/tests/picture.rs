use trmnl_display::bmp::encode_bmp_1bit;
use trmnl_display::dither::dither;
use trmnl_display::image::GrayImage;
use trmnl_display::month;

fn picture(width: u32, height: u32, pixels: Vec<u8>) -> GrayImage {
    assert_eq!(pixels.len(), (width * height) as usize);
    GrayImage { width, height, pixels }
}

fn le32(file: &[u8], at: usize) -> u32 {
    u32::from_le_bytes([file[at], file[at + 1], file[at + 2], file[at + 3]])
}

/// Reads a pixel by the fields of the file.
fn read_white(file: &[u8], x: usize, y: usize) -> bool {
    let start = le32(file, 10) as usize;
    let width = le32(file, 18) as usize;
    let height = le32(file, 22) as i32;
    let row = if height > 0 { height as usize - 1 - y } else { y };
    let row_bytes = width.div_ceil(32) * 4;
    file[start + row * row_bytes + x / 8] >> (7 - x % 8) & 1 == 1
}

#[test]
fn errors_pass_to_the_right() {
    assert_eq!(dither(&picture(2, 1, vec![100, 100])), vec![false, true]);
    assert_eq!(dither(&picture(2, 1, vec![100, 84])), vec![false, false]);
    assert_eq!(dither(&picture(2, 1, vec![100, 85])), vec![false, true]);
}

#[test]
fn shares_are_rounded_towards_zero() {
    assert_eq!(dither(&picture(2, 1, vec![200, 152])), vec![true, true]);
    assert_eq!(dither(&picture(2, 1, vec![200, 151])), vec![true, false]);
}

#[test]
fn errors_pass_downwards() {
    let shown = |low: u8| dither(&picture(2, 2, vec![100, 0, low, 0]));
    assert_eq!(shown(89)[..3], [false, false, true]);
    assert_eq!(shown(88)[..3], [false, false, false]);
}

#[test]
fn levels_are_clamped() {
    // The second pixel would reach 255 + 55 without the limit, and pass on an error.
    assert_eq!(dither(&picture(3, 1, vec![127, 255, 127])), vec![false, true, false]);
}

#[test]
fn black_and_white_is_kept() {
    let pixels: Vec<u8> = (0..70u32).map(|i| if i * i % 7 < 3 { 255 } else { 0 }).collect();
    let img = picture(10, 7, pixels.clone());
    let file = encode_bmp_1bit(&img);
    for y in 0..7 {
        for x in 0..10 {
            assert_eq!(read_white(&file, x, y), pixels[y * 10 + x] == 255);
        }
    }
}

#[test]
fn different_black_and_white_pictures_have_different_files() {
    let draw = |bits: u32| {
        let pixels = (0..6).map(|i| if bits >> i & 1 == 1 { 255 } else { 0 }).collect();
        encode_bmp_1bit(&picture(3, 2, pixels))
    };
    for a in 0..64 {
        for b in 0..a {
            assert_ne!(draw(a), draw(b));
        }
    }
}

#[test]
fn grey_keeps_its_mean() {
    let img = picture(64, 64, vec![64; 64 * 64]);
    let white = dither(&img).iter().filter(|w| **w).count();
    assert!((900..1100).contains(&white), "{white}");
}

#[test]
fn a_single_pixel_file_byte_by_byte() {
    let mut expected: Vec<u8> = b"BM".to_vec();
    expected.extend([66, 0, 0, 0, 0, 0, 0, 0, 62, 0, 0, 0, 40, 0, 0, 0]);
    expected.extend([1, 0, 0, 0, 1, 0, 0, 0, 1, 0, 1, 0, 0, 0, 0, 0, 4, 0, 0, 0]);
    expected.extend([0x13, 0x0b, 0, 0, 0x13, 0x0b, 0, 0, 2, 0, 0, 0, 0, 0, 0, 0]);
    expected.extend([0, 0, 0, 0, 255, 255, 255, 0]);
    expected.extend([0x80, 0, 0, 0]);
    assert_eq!(encode_bmp_1bit(&picture(1, 1, vec![255])), expected);
    expected[22..26].copy_from_slice(&(-1i32).to_le_bytes());
    assert_eq!(month::encode_bmp_1bit(&picture(1, 1, vec![128])), expected);
    expected[62] = 0;
    assert_eq!(month::encode_bmp_1bit(&picture(1, 1, vec![127])), expected);
}

#[test]
fn rows_run_from_the_bottom_up_or_from_the_top_down() {
    let img = picture(1, 2, vec![255, 0]);
    assert_eq!(encode_bmp_1bit(&img)[62..], [0, 0, 0, 0, 0x80, 0, 0, 0]);
    assert_eq!(month::encode_bmp_1bit(&img)[62..], [0x80, 0, 0, 0, 0, 0, 0, 0]);
}

#[test]
fn rows_take_multiples_of_four_bytes() {
    let white = |w: u32| encode_bmp_1bit(&picture(w, 1, vec![255; w as usize]));
    assert_eq!(white(9)[62..], [0xff, 0x80, 0, 0]);
    assert_eq!(white(32)[62..], [0xff; 4]);
    assert_eq!(white(33)[62..], [0xff, 0xff, 0xff, 0xff, 0x80, 0, 0, 0]);
    assert_eq!(encode_bmp_1bit(&picture(0, 3, vec![])).len(), 62);
}

#[test]
fn the_display_takes_48062_bytes() {
    let img = GrayImage::from_pixel(800, 480, 255);
    let file = encode_bmp_1bit(&img);
    assert_eq!(file.len(), 48062);
    assert_eq!(le32(&file, 2), 48062);
    assert_eq!((le32(&file, 18), le32(&file, 22)), (800, 480));
    let file = month::encode_bmp_1bit(&img);
    assert_eq!(file.len(), 48062);
    assert_eq!(le32(&file, 22) as i32, -480);
}

#[test]
fn the_month_picture_is_cut_at_half_brightness() {
    let pixels: Vec<u8> = (0..=255).collect();
    let file = month::encode_bmp_1bit(&picture(32, 8, pixels.clone()));
    for y in 0..8 {
        for x in 0..32 {
            assert_eq!(read_white(&file, x, y), pixels[y * 32 + x] >= 128);
        }
    }
}

#[test]
fn pictures_start_in_one_shade() {
    let img = GrayImage::from_pixel(3, 2, 7);
    assert_eq!((img.width, img.height), (3, 2));
    assert_eq!(img.pixels, vec![7; 6]);
}

#[test]
fn rectangles_are_filled() {
    let mut img = GrayImage::from_pixel(4, 3, 255);
    img.fill(1, 1, 2, 1, 9);
    assert_eq!(img.pixels, vec![255, 255, 255, 255, 255, 9, 9, 255, 255, 255, 255, 255]);
}

#[test]
fn rectangles_are_cut_at_the_edges() {
    let mut img = GrayImage::from_pixel(3, 3, 1);
    img.fill(-5, -5, 6, 6, 2);
    img.fill(2, 2, 100, 100, 3);
    img.fill(10, 0, 5, 5, 4);
    assert_eq!(img.pixels, vec![2, 1, 1, 1, 1, 1, 1, 1, 3]);
}

#[test]
fn png_files_hold_the_picture() {
    let pixels: Vec<u8> = (0..60).map(|i| (i * 37 % 256) as u8).collect();
    let file = picture(10, 6, pixels.clone()).encode_png().unwrap();
    assert_eq!(file[..8], [0x89, b'P', b'N', b'G', 0x0d, 0x0a, 0x1a, 0x0a]);
    let read = image::load_from_memory(&file).unwrap().to_luma8();
    assert_eq!(read.dimensions(), (10, 6));
    assert_eq!(read.into_raw(), pixels);
}

#[test]
fn a_picture_without_extent_has_no_png_file() {
    assert!(picture(0, 3, vec![]).encode_png().is_none());
}

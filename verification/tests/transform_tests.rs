//! The two image transforms, exercised through the real PNG codec.

use ptonlineres2prpr::codec::{get_image_dimensions, PackError};
use ptonlineres2prpr::transform::{combine_hold_images, hit_fx_convector};

fn encode_png(img: image::RgbaImage) -> Vec<u8> {
    let mut out = Vec::new();
    let enc = image::codecs::png::PngEncoder::new(&mut out);
    image::ImageEncoder::write_image(
        enc,
        img.as_raw(),
        img.width(),
        img.height(),
        image::ExtendedColorType::Rgba8,
    )
    .expect("png encoding");
    out
}

fn solid_png(w: u32, h: u32, rgba: [u8; 4]) -> Vec<u8> {
    let mut img = image::RgbaImage::new(w, h);
    for p in img.pixels_mut() {
        *p = image::Rgba(rgba);
    }
    encode_png(img)
}

/// A PNG whose pixel at `(x, y)` is `[x, y, x ^ y, 255]` (mod 256).
fn coord_png(w: u32, h: u32) -> Vec<u8> {
    let mut img = image::RgbaImage::new(w, h);
    for y in 0..h {
        for x in 0..w {
            img.put_pixel(x, y, image::Rgba([x as u8, y as u8, (x ^ y) as u8, 255]));
        }
    }
    encode_png(img)
}

#[test]
fn hit_fx_retile_dimensions_and_pixels() {
    let strip = coord_png(40, 90);
    let out = hit_fx_convector(&strip).expect("conversion succeeds");
    let img = image::load_from_memory(&out).expect("output decodes").to_rgba8();
    assert_eq!(img.width(), 200);
    assert_eq!(img.height(), 18);
    for i in 0u32..30 {
        for y in 0u32..3 {
            for x in 0u32..40 {
                let got = img.get_pixel((i % 5) * 40 + x, (i / 5) * 3 + y);
                let sy = i * 3 + y;
                let expected = image::Rgba([x as u8, sy as u8, (x ^ sy) as u8, 255]);
                assert_eq!(*got, expected, "frame {i} local ({x}, {y})");
            }
        }
    }
}

#[test]
fn hit_fx_truncates_partial_frame() {
    // 95 rows: frame height 3, the last 5 rows are dropped.
    let strip = coord_png(8, 95);
    let out = hit_fx_convector(&strip).expect("conversion succeeds");
    let img = image::load_from_memory(&out).expect("output decodes").to_rgba8();
    assert_eq!(img.width(), 40);
    assert_eq!(img.height(), 18);
    let got = img.get_pixel(4 * 8 + 2, 5 * 3 + 1);
    let sy = 29 * 3 + 1;
    assert_eq!(*got, image::Rgba([2, sy as u8, (2 ^ sy) as u8, 255]));
}

#[test]
fn hit_fx_rejects_undecodable_bytes() {
    assert_eq!(hit_fx_convector(b"not an image"), Err(PackError::Decode));
}

#[test]
fn hit_fx_rejects_strip_shorter_than_thirty_rows() {
    let strip = coord_png(16, 29);
    assert_eq!(hit_fx_convector(&strip), Err(PackError::Decode));
}

#[test]
fn combine_stacks_equal_width_pieces() {
    let end = solid_png(50, 10, [255, 0, 0, 255]);
    let body = solid_png(50, 20, [0, 255, 0, 255]);
    let head = solid_png(50, 15, [0, 0, 255, 255]);
    let out = combine_hold_images(&end, &body, &head).expect("combine succeeds");
    let img = image::load_from_memory(&out).expect("output decodes").to_rgba8();
    assert_eq!(img.width(), 50);
    assert_eq!(img.height(), 45);
    for y in 0..45u32 {
        let expected = if y < 10 {
            image::Rgba([255, 0, 0, 255])
        } else if y < 30 {
            image::Rgba([0, 255, 0, 255])
        } else {
            image::Rgba([0, 0, 255, 255])
        };
        for x in 0..50u32 {
            assert_eq!(*img.get_pixel(x, y), expected, "pixel ({x}, {y})");
        }
    }
}

#[test]
fn combine_centers_narrow_pieces() {
    let end = solid_png(10, 4, [255, 0, 0, 255]);
    let body = solid_png(20, 2, [0, 255, 0, 255]);
    let head = solid_png(14, 3, [0, 0, 255, 255]);
    let out = combine_hold_images(&end, &body, &head).expect("combine succeeds");
    let img = image::load_from_memory(&out).expect("output decodes").to_rgba8();
    assert_eq!(img.width(), 20);
    assert_eq!(img.height(), 9);
    let transparent = image::Rgba([0, 0, 0, 0]);
    for y in 0..9u32 {
        for x in 0..20u32 {
            let expected = if y < 4 {
                // end cap, width 10, offset (20 - 10) / 2 = 5
                if (5..15).contains(&x) {
                    image::Rgba([255, 0, 0, 255])
                } else {
                    transparent
                }
            } else if y < 6 {
                image::Rgba([0, 255, 0, 255])
            } else {
                // head cap, width 14, offset (20 - 14) / 2 = 3
                if (3..17).contains(&x) {
                    image::Rgba([0, 0, 255, 255])
                } else {
                    transparent
                }
            };
            assert_eq!(*img.get_pixel(x, y), expected, "pixel ({x}, {y})");
        }
    }
}

#[test]
fn combine_rejects_one_bad_piece() {
    let end = solid_png(8, 4, [1, 2, 3, 4]);
    let head = solid_png(8, 4, [1, 2, 3, 4]);
    assert_eq!(combine_hold_images(&end, b"garbage", &head), Err(PackError::Decode));
}

#[test]
fn image_dimensions_read_back() {
    let png = solid_png(33, 21, [9, 9, 9, 9]);
    assert_eq!(get_image_dimensions(&png), Ok((33, 21)));
    assert_eq!(get_image_dimensions(b"nope"), Err(PackError::Decode));
}

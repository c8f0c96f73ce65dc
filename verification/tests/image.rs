use terrain::image_writer::ImageWriter;
use terrain::image_writer::Rgba;

const BLACK: Rgba = Rgba { r: 0, g: 0, b: 0, a: 255 };
const RED: Rgba = Rgba { r: 255, g: 0, b: 0, a: 255 };

#[test]
fn new_fill_paints_every_pixel() {
    let img = ImageWriter::new_fill(4, 3, BLACK);
    assert_eq!(img.dimensions(), (4, 3));
    for x in 0..4 {
        for y in 0..3 {
            assert_eq!(img.get_pixel(x, y), Some(BLACK));
        }
    }
    assert_eq!(img.get_pixel(4, 0), None);
    assert_eq!(img.get_pixel(0, 3), None);
}

#[test]
fn put_pixel_writes_exactly_one_pixel() {
    let mut img = ImageWriter::new_fill(8, 8, BLACK);
    img.put_pixel(5, 2, RED);
    for x in 0..8 {
        for y in 0..8 {
            let expected = if (x, y) == (5, 2) { RED } else { BLACK };
            assert_eq!(img.get_pixel(x, y), Some(expected));
        }
    }
}

#[test]
fn put_pixel_out_of_bounds_is_ignored() {
    let mut img = ImageWriter::new_fill(4, 4, BLACK);
    img.put_pixel(4, 0, RED);
    img.put_pixel(0, 4, RED);
    img.put_pixel(1000, 1000, RED);
    for x in 0..4 {
        for y in 0..4 {
            assert_eq!(img.get_pixel(x, y), Some(BLACK));
        }
    }
}

#[test]
fn fill_bytes_resets_the_surface() {
    let mut img = ImageWriter::new_fill(4, 4, BLACK);
    img.put_pixel(2, 2, RED);
    img.fill_bytes(0xFF);
    let white = Rgba { r: 255, g: 255, b: 255, a: 255 };
    for x in 0..4 {
        for y in 0..4 {
            assert_eq!(img.get_pixel(x, y), Some(white));
        }
    }
}

#[test]
fn draw_mask_clears_then_draws_shifted_points() {
    let mut img = ImageWriter::new_fill(8, 8, RED);
    let pixels = vec![(0i32, 0i32), (-2, 1), (100, 100)];
    img.draw_mask(&pixels, 4, 4, 0x00, RED);
    let black = Rgba { r: 0, g: 0, b: 0, a: 0 };
    for x in 0..8 {
        for y in 0..8 {
            let expected = if (x, y) == (4, 4) || (x, y) == (2, 5) { RED } else { black };
            assert_eq!(img.get_pixel(x, y), Some(expected));
        }
    }
}

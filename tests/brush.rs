use trametes::math::SUB;
use trametes::pixel_buffer::PixelBuffer;
use trametes::tools::brush::{apply_brush, BrushSettings};
use trametes::tools::pencil::apply_hard_pixel;

fn pixel(b: &PixelBuffer, col: usize, row: usize) -> [u8; 4] {
    let i = b.pixel_index(col, row);
    [b.pixels[i], b.pixels[i + 1], b.pixels[i + 2], b.pixels[i + 3]]
}

#[test]
fn default_brush_is_twenty_pixels() {
    assert_eq!(BrushSettings::default().diameter, 20 * SUB);
}

#[test]
fn black_dab_on_white_buffer() {
    let mut b = PixelBuffer::default();
    let before = b.pixels.clone();
    let brush = BrushSettings { diameter: 20 * SUB };
    apply_brush(&mut b, &brush, (400 * SUB, 300 * SUB), &[0, 0, 0, 255]);
    // Inside the circle: black.
    assert_eq!(pixel(&b, 399, 299), [0, 0, 0, 255]);
    assert_eq!(pixel(&b, 405, 305), [0, 0, 0, 255]);
    assert_eq!(pixel(&b, 391, 300), [0, 0, 0, 255]);
    // On the rim: partly covered, blended.
    assert_eq!(pixel(&b, 390, 300), [6, 6, 6, 255]);
    assert_eq!(pixel(&b, 409, 300), [6, 6, 6, 255]);
    assert_eq!(pixel(&b, 400, 290), [6, 6, 6, 255]);
    // Corner of the box: outside the circle, untouched.
    assert_eq!(pixel(&b, 390, 290), [255, 255, 255, 255]);
    // Far column and row of the box: touched by a single sample, which
    // rounds back to white.
    assert_eq!(pixel(&b, 410, 300), [255, 255, 255, 255]);
    assert_eq!(pixel(&b, 400, 310), [255, 255, 255, 255]);
    // Nothing outside the brush's box changes; alpha never changes.
    for row in 0..600usize {
        for col in 0..800usize {
            let in_box = (390..=410).contains(&col) && (290..=310).contains(&row);
            let i = b.pixel_index(col, row);
            if !in_box {
                assert_eq!(&b.pixels[i..i + 4], &before[i..i + 4]);
            }
            assert_eq!(b.pixels[i + 3], 255);
        }
    }
}

#[test]
fn brush_outside_image_changes_nothing() {
    let mut b = PixelBuffer::default();
    let brush = BrushSettings { diameter: 20 * SUB };
    apply_brush(&mut b, &brush, (-100 * SUB, 300 * SUB), &[0, 0, 0, 255]);
    apply_brush(&mut b, &brush, (820 * SUB, 300 * SUB), &[0, 0, 0, 255]);
    apply_brush(&mut b, &brush, (400 * SUB, -11 * SUB), &[0, 0, 0, 255]);
    apply_brush(&mut b, &brush, (400 * SUB, 611 * SUB), &[0, 0, 0, 255]);
    assert!(b.pixels.iter().all(|&v| v == 255));
}

#[test]
fn brush_on_empty_image_changes_nothing() {
    let mut b = PixelBuffer::filled(0, 0, [0, 0, 0, 0]);
    apply_brush(&mut b, &BrushSettings::default(), (0, 0), &[0, 0, 0, 255]);
    assert!(b.pixels.is_empty());
}

#[test]
fn brush_blends_towards_color() {
    let mut b = PixelBuffer::filled(10, 10, [100, 100, 100, 7]);
    let brush = BrushSettings { diameter: 4 * SUB };
    apply_brush(&mut b, &brush, (5 * SUB, 5 * SUB), &[200, 0, 50, 255]);
    assert_eq!(pixel(&b, 4, 4), [200, 0, 50, 7]);
    assert_eq!(pixel(&b, 0, 0), [100, 100, 100, 7]);
}

#[test]
fn hard_pixel_sets_one_pixel() {
    let mut b = PixelBuffer::filled(4, 4, [255, 255, 255, 255]);
    apply_hard_pixel(&mut b, (2 * SUB + 10, SUB + 200), &[1, 2, 3, 255]);
    assert_eq!(pixel(&b, 2, 1), [1, 2, 3, 255]);
    assert_eq!(b.pixels.iter().filter(|&&v| v != 255).count(), 3);
    let before = b.pixels.clone();
    apply_hard_pixel(&mut b, (4 * SUB, 0), &[0, 0, 0, 255]);
    apply_hard_pixel(&mut b, (-1, 0), &[0, 0, 0, 255]);
    assert_eq!(b.pixels, before);
}

#[test]
fn brush_reaches_last_column_and_row() {
    let mut b = PixelBuffer::default();
    let brush = BrushSettings { diameter: 20 * SUB };
    apply_brush(&mut b, &brush, (799 * SUB + SUB / 2, 300 * SUB + SUB / 2), &[0, 0, 0, 255]);
    assert_eq!(pixel(&b, 799, 300), [0, 0, 0, 255]);
    apply_brush(&mut b, &brush, (400 * SUB + SUB / 2, 599 * SUB + SUB / 2), &[0, 0, 0, 255]);
    assert_eq!(pixel(&b, 400, 599), [0, 0, 0, 255]);
}

#[test]
fn tiny_brush_just_past_edge_may_reach_last_pixel() {
    // A dot far smaller than a pixel, a tenth of a pixel past the right edge:
    // the pixel's centre is within half a diagonal of it, which the first
    // coverage test counts as full.
    let mut b = PixelBuffer::filled(4, 4, [255, 255, 255, 255]);
    let brush = BrushSettings { diameter: 0 };
    apply_brush(&mut b, &brush, (4 * SUB + SUB / 10, 2 * SUB + SUB / 2), &[0, 0, 0, 255]);
    assert_eq!(pixel(&b, 3, 2), [0, 0, 0, 255]);
    // A quarter pixel further out it misses.
    let mut c = PixelBuffer::filled(4, 4, [255, 255, 255, 255]);
    apply_brush(&mut c, &brush, (4 * SUB + SUB / 4 + 1, 2 * SUB + SUB / 2), &[0, 0, 0, 255]);
    assert!(c.pixels.iter().all(|&v| v == 255));
}

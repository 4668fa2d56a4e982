use trametes::pixel_buffer::{PixelBuffer, DEFAULT_HEIGHT, DEFAULT_WIDTH};

#[test]
fn default_buffer_is_white_800_by_600() {
    let b = PixelBuffer::default();
    assert_eq!(b.width, DEFAULT_WIDTH);
    assert_eq!(b.height, DEFAULT_HEIGHT);
    assert_eq!(b.width, 800);
    assert_eq!(b.height, 600);
    assert_eq!(b.pixels.len(), 800 * 600 * 4);
    assert!(b.pixels.iter().all(|&v| v == 255));
}

#[test]
fn filled_repeats_the_color() {
    let b = PixelBuffer::filled(3, 2, [1, 2, 3, 4]);
    assert_eq!(b.pixels, vec![1, 2, 3, 4, 1, 2, 3, 4, 1, 2, 3, 4, 1, 2, 3, 4, 1, 2, 3, 4, 1, 2, 3, 4]);
}

#[test]
fn from_rgba_checks_length() {
    assert!(PixelBuffer::from_rgba(2, 2, vec![0; 16]).is_some());
    assert!(PixelBuffer::from_rgba(2, 2, vec![0; 15]).is_none());
    assert!(PixelBuffer::from_rgba(0, 5, vec![]).is_some());
    assert!(PixelBuffer::from_rgba(usize::MAX, 3, vec![]).is_none());
}

#[test]
fn pixel_index_is_row_major() {
    let b = PixelBuffer::filled(5, 4, [0, 0, 0, 0]);
    assert_eq!(b.pixel_index(0, 0), 0);
    assert_eq!(b.pixel_index(1, 0), 4);
    assert_eq!(b.pixel_index(0, 1), 20);
    assert_eq!(b.pixel_index(4, 3), 76);
}

#[test]
fn iter_block_mut_lists_block_row_by_row() {
    let b = PixelBuffer::filled(5, 4, [0, 0, 0, 0]);
    let v = b.iter_block_mut(1, 2, 2, 2);
    assert_eq!(v, vec![(1, 2), (2, 2), (1, 3), (2, 3)]);
}

#[test]
fn iter_block_mut_cuts_block_to_image() {
    let b = PixelBuffer::filled(5, 4, [0, 0, 0, 0]);
    assert_eq!(b.iter_block_mut(3, 3, 10, 10), vec![(3, 3), (4, 3)]);
    assert!(b.iter_block_mut(5, 0, 3, 3).is_empty());
    assert!(b.iter_block_mut(0, 0, 0, 3).is_empty());
}

#[test]
fn set_pixel_changes_one_pixel() {
    let mut b = PixelBuffer::filled(3, 3, [9, 9, 9, 9]);
    b.set_pixel(1, 2, [1, 2, 3, 4]);
    let i = b.pixel_index(1, 2);
    assert_eq!(&b.pixels[i..i + 4], &[1, 2, 3, 4]);
    let changed = b.pixels.iter().filter(|&&v| v != 9).count();
    assert_eq!(changed, 4);
}

use crate::document::{Document, PointerInput};
use crate::math::SUB;
use crate::pixel_buffer::{byte_channel, byte_col, byte_row, PixelBuffer};
use crate::tools::brush::MAX_IMAGE_DIM;
use crate::viewport::{fits_i64, screen_to_image_coords, to_image, ImageTransformations, Rect};
use vstd::prelude::*;

verus! {

/// Pixel under image position `pos` (sub-units), if it lies in an image
/// `width × height`.
pub open spec fn pixel_at(pos: (int, int), width: int, height: int) -> Option<(int, int)> {
    if 0 <= pos.0 < width * SUB && 0 <= pos.1 < height * SUB {
        Some((pos.0 / (SUB as int), pos.1 / (SUB as int)))
    } else {
        None
    }
}

/// `new` is `old` with the pixel under `pos`, if any, set to `color`.
pub open spec fn pixel_set(old: PixelBuffer, new: PixelBuffer, pos: (int, int), color: Seq<u8>) -> bool {
    let w = old.width as int;
    &&& new.width == old.width
    &&& new.height == old.height
    &&& new.pixels@.len() == old.pixels@.len()
    &&& forall|i: int|
        0 <= i < old.pixels@.len() ==> #[trigger] new.pixels@[i] == match pixel_at(
            pos,
            w,
            old.height as int,
        ) {
            Some(q) => if byte_col(w, i) == q.0 && byte_row(w, i) == q.1 {
                color[byte_channel(i)]
            } else {
                old.pixels@[i]
            },
            None => old.pixels@[i],
        }
}

/// The hard-pixel brush: sets the one pixel under `pos` (image sub-units) to
/// `color`, with no blending; a position off the image changes nothing.
pub fn apply_hard_pixel(pixels: &mut PixelBuffer, pos: (i64, i64), color: &[u8; 4])
    requires
        old(pixels).wf(),
        old(pixels).width <= MAX_IMAGE_DIM,
        old(pixels).height <= MAX_IMAGE_DIM,
    ensures
        final(pixels).wf(),
        final(pixels).width == old(pixels).width,
        final(pixels).height == old(pixels).height,
        final(pixels).pixels@.len() == old(pixels).pixels@.len(),
        pixel_set(*old(pixels), *final(pixels), (pos.0 as int, pos.1 as int), color@),
{
    let w = pixels.width as i64;
    let h = pixels.height as i64;
    if 0 <= pos.0 && pos.0 < w * SUB && 0 <= pos.1 && pos.1 < h * SUB {
        let col = (pos.0 / SUB) as usize;
        let row = (pos.1 / SUB) as usize;
        pixels.set_pixel(col, row, *color);
    }
}


/// Where in the image (sub-units) the pencil lands for `input`: the
/// pointer's screen position taken into image space, when a button is held.
pub open spec fn pencil_target(
    input: PointerInput,
    t: ImageTransformations,
    w: int,
    h: int,
    panel: Rect,
) -> Option<(int, int)> {
    match input.interact_pos {
        Some(pos) => {
            let ix = to_image(
                pos.x as int,
                t.x_translation as int,
                t.scale as int,
                w,
                panel.min_x as int,
                panel.width as int,
            );
            let iy = to_image(
                pos.y as int,
                t.y_translation as int,
                t.scale as int,
                h,
                panel.min_y as int,
                panel.height as int,
            );
            if input.any_down && w >= 1 && h >= 1 && fits_i64(ix) && fits_i64(iy) {
                Some((ix, iy))
            } else {
                None
            }
        },
        None => None,
    }
}

/// Lets the pencil act on one frame of input: while a button is held, the
/// pixel under the pointer takes the primary color.
pub fn handle_input(input: &PointerInput, doc: &mut Document, panel: Rect)
    requires
        old(doc).wf(),
    ensures
        final(doc).wf(),
        match pencil_target(
            *input,
            old(doc).image_relative_pos,
            old(doc).image.width as int,
            old(doc).image.height as int,
            panel,
        ) {
            Some(p) => pixel_set(old(doc).image, final(doc).image, p, old(doc).colors.primary@),
            None => final(doc).image == old(doc).image,
        },
        final(doc).image_relative_pos == old(doc).image_relative_pos,
        final(doc).tools == old(doc).tools,
        final(doc).colors == old(doc).colors,
        final(doc).windows == old(doc).windows,
{
    if let Some(pos) = input.interact_pos {
        if input.any_down {
            let size = (doc.image.width, doc.image.height);
            if let Some(p) = screen_to_image_coords(pos, &doc.image_relative_pos, size, panel) {
                apply_hard_pixel(&mut doc.image, (p.x, p.y), &doc.colors.primary);
            }
        }
    }
}

} // verus!

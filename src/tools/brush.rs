use crate::document::{Document, PointerInput};
use crate::math::{
    clamp_spec, coverage, lemma_coverage_clear, in_limit, lerp, lerp_spec, square_circle_intersection, GEOMETRY_LIMIT,
    SUB,
};
use crate::pixel_buffer::{
    byte_channel, byte_col, byte_row, lemma_byte_decompose, lemma_byte_position, PixelBuffer,
};
use crate::viewport::{screen_to_image_coords, to_image, ImageTransformations, Rect};
use vstd::arithmetic::div_mod::lemma_fundamental_div_mod_converse;
use vstd::prelude::*;

verus! {

/// Largest width or height, in pixels, of an image that the brush paints on.
pub const MAX_IMAGE_DIM: usize = 1048576;

/// The size of the brush.
#[derive(Debug, Clone, Copy)]
pub struct BrushSettings {
    /// The diameter of the brush, in sub-units.
    pub diameter: i64,
}

impl Default for BrushSettings {
    /// A brush 20 pixels across.
    fn default() -> (r: Self)
        ensures
            r.diameter == 20 * SUB,
    {
        BrushSettings { diameter: 20 * SUB }
    }
}

/// First pixel index of the brush's box along an axis of `n` pixels: the
/// lower edge `p − radius`, clamped into the image, rounded down.
pub open spec fn box_lo(p: int, radius: int, n: int) -> int {
    clamp_spec(p - radius, 0, (n - 1) * SUB) / (SUB as int)
}

/// Last pixel index (included) of the brush's box along an axis: the upper
/// edge `p + radius`, clamped into the image, rounded up.
pub open spec fn box_hi(p: int, radius: int, n: int) -> int {
    (clamp_spec(p + radius, 0, (n - 1) * SUB) + SUB - 1) / (SUB as int)
}

/// Pixel `(col, row)` lies in the box that the brush visits.
pub open spec fn in_brush_box(
    col: int,
    row: int,
    width: int,
    height: int,
    pos: (int, int),
    radius: int,
) -> bool {
    &&& width >= 1
    &&& height >= 1
    &&& box_lo(pos.0, radius, width) <= col <= box_hi(pos.0, radius, width)
    &&& box_lo(pos.1, radius, height) <= row <= box_hi(pos.1, radius, height)
}

/// Share of pixel `(col, row)`, a unit square centred half a pixel in from
/// its corner, that the brush's circle covers.
pub open spec fn pixel_coverage(col: int, row: int, pos: (int, int), radius: int) -> int {
    coverage(pos.0, pos.1, radius, col * SUB + SUB / 2, row * SUB + SUB / 2, SUB as int)
}

/// Byte `i` of an image `width × height` after one dab of the brush on
/// `old`: in the brush's box red, green and blue move towards `color` by the
/// pixel's coverage; everything else keeps its value.
pub open spec fn brushed(
    old: Seq<u8>,
    width: int,
    height: int,
    pos: (int, int),
    radius: int,
    color: Seq<u8>,
    i: int,
) -> int {
    let col = byte_col(width, i);
    let row = byte_row(width, i);
    let ch = byte_channel(i);
    if in_brush_box(col, row, width, height, pos, radius) && ch < 3 {
        lerp_spec(pixel_coverage(col, row, pos, radius), old[i] as int, color[ch] as int)
    } else {
        old[i] as int
    }
}

/// Gap that a brush of `radius` must leave beyond an edge to be sure of
/// missing the image: none for a radius of at least a ninth of a pixel, a
/// quarter pixel for a smaller one (a tiny circle next to a pixel passes the
/// square-inside test of `coverage`).
pub open spec fn clear_margin(radius: int) -> int {
    if 9 * radius >= SUB {
        0
    } else {
        SUB / 4
    }
}

/// The brush's circle lies wholly beyond one edge of the image, by at least
/// `clear_margin`.
pub open spec fn brush_outside(width: int, height: int, pos: (int, int), radius: int) -> bool {
    let m = clear_margin(radius);
    ||| pos.0 + radius + m < 0
    ||| pos.0 - radius - m > width * SUB
    ||| pos.1 + radius + m < 0
    ||| pos.1 - radius - m > height * SUB
}

/// The box along an axis of `n` pixels lies within the image and is never
/// empty; a circle beyond the far edge boxes only the last pixel, one
/// beyond the near edge only the first.
proof fn lemma_box_range(p: int, radius: int, n: int)
    requires
        n >= 1,
        radius >= 0,
    ensures
        0 <= box_lo(p, radius, n) <= box_hi(p, radius, n) <= n - 1,
        p - radius > (n - 1) * SUB ==> box_lo(p, radius, n) == n - 1,
        p + radius <= 0 ==> box_hi(p, radius, n) == 0,
{
    lemma_fundamental_div_mod_converse((n - 1) * SUB, SUB as int, n - 1, 0);
    lemma_fundamental_div_mod_converse((n - 1) * SUB + SUB - 1, SUB as int, n - 1, SUB - 1);
    let lo = clamp_spec(p - radius, 0, (n - 1) * SUB);
    let hi = clamp_spec(p + radius, 0, (n - 1) * SUB);
    assert(lo / (SUB as int) <= (hi + SUB - 1) / (SUB as int)) by (nonlinear_arith)
        requires
            0 <= lo <= hi,
    ;
    assert((hi + SUB - 1) / (SUB as int) <= ((n - 1) * SUB + SUB - 1) / (SUB as int))
        by (nonlinear_arith)
        requires
            hi <= (n - 1) * SUB,
    ;
}

fn clamp_coord(v: i64, lo: i64, hi: i64) -> (r: i64)
    requires
        lo <= hi,
    ensures
        r == clamp_spec(v as int, lo as int, hi as int),
{
    if v < lo {
        lo
    } else if v > hi {
        hi
    } else {
        v
    }
}

/// Paints one dab of a soft round brush of `brush.diameter` centred at `pos`
/// (image sub-units). Each pixel of the brush's box, clamped to the image,
/// has its red, green and blue moved towards `color` by the share of the
/// pixel that the circle covers, rounded; alpha is kept. A brush wholly
/// outside the image changes nothing.
pub fn apply_brush(pixels: &mut PixelBuffer, brush: &BrushSettings, pos: (i64, i64), color: &[u8; 4])
    requires
        old(pixels).wf(),
        old(pixels).width <= MAX_IMAGE_DIM,
        old(pixels).height <= MAX_IMAGE_DIM,
        0 <= brush.diameter <= GEOMETRY_LIMIT,
        in_limit(pos.0 as int),
        in_limit(pos.1 as int),
        color@[3] == 255,
    ensures
        final(pixels).wf(),
        final(pixels).width == old(pixels).width,
        final(pixels).height == old(pixels).height,
        final(pixels).pixels@.len() == old(pixels).pixels@.len(),
        forall|i: int|
            0 <= i < old(pixels).pixels@.len() ==> final(pixels).pixels@[i] as int == brushed(
                old(pixels).pixels@,
                old(pixels).width as int,
                old(pixels).height as int,
                (pos.0 as int, pos.1 as int),
                brush.diameter / 2,
                color@,
                i,
            ),
        brush_outside(
            old(pixels).width as int,
            old(pixels).height as int,
            (pos.0 as int, pos.1 as int),
            brush.diameter / 2,
        ) ==> final(pixels).pixels@ == old(pixels).pixels@,
{
    let ghost old_px = pixels.pixels@;
    let ghost w = pixels.width as int;
    let ghost h = pixels.height as int;
    let ghost p = (pos.0 as int, pos.1 as int);
    let radius = brush.diameter / 2;
    if pixels.width == 0 || pixels.height == 0 {
        assert forall|i: int| 0 <= i < old_px.len() implies pixels.pixels@[i] as int == brushed(
            old_px,
            w,
            h,
            p,
            radius as int,
            color@,
            i,
        ) by {}
        return ;
    }
    let x_max = (pixels.width as i64 - 1) * SUB;
    let y_max = (pixels.height as i64 - 1) * SUB;
    let x1 = (clamp_coord(pos.0 - radius, 0, x_max) / SUB) as usize;
    let y1 = (clamp_coord(pos.1 - radius, 0, y_max) / SUB) as usize;
    let x2 = ((clamp_coord(pos.0 + radius, 0, x_max) + SUB - 1) / SUB) as usize;
    let y2 = ((clamp_coord(pos.1 + radius, 0, y_max) + SUB - 1) / SUB) as usize;
    assert(x1 == box_lo(p.0, radius as int, w) && x2 == box_hi(p.0, radius as int, w));
    assert(y1 == box_lo(p.1, radius as int, h) && y2 == box_hi(p.1, radius as int, h));
    proof {
        lemma_box_range(p.0, radius as int, w);
        lemma_box_range(p.1, radius as int, h);
    }
    let mut row: usize = y1;
    while row <= y2
        invariant
            pixels.wf(),
            pixels.width == w,
            pixels.height == h,
            1 <= w <= MAX_IMAGE_DIM,
            1 <= h <= MAX_IMAGE_DIM,
            pixels.pixels@.len() == old_px.len(),
            x1 == box_lo(p.0, radius as int, w),
            x2 == box_hi(p.0, radius as int, w),
            y1 == box_lo(p.1, radius as int, h),
            y2 == box_hi(p.1, radius as int, h),
            x2 < w,
            y2 < h,
            y1 <= row <= y2 + 1,
            p == (pos.0 as int, pos.1 as int),
            in_limit(pos.0 as int),
            in_limit(pos.1 as int),
            0 <= radius <= GEOMETRY_LIMIT / 2,
            color@[3] == 255,
            forall|i: int|
                0 <= i < old_px.len() ==> #[trigger] pixels.pixels@[i] as int == if byte_row(w, i)
                    < row {
                    brushed(old_px, w, h, p, radius as int, color@, i)
                } else {
                    old_px[i] as int
                },
        decreases y2 + 1 - row,
    {
        let mut col: usize = x1;
        while col <= x2
            invariant
                pixels.wf(),
                pixels.width == w,
                pixels.height == h,
                1 <= w <= MAX_IMAGE_DIM,
                1 <= h <= MAX_IMAGE_DIM,
                pixels.pixels@.len() == old_px.len(),
                x1 == box_lo(p.0, radius as int, w),
                x2 == box_hi(p.0, radius as int, w),
                y1 == box_lo(p.1, radius as int, h),
                y2 == box_hi(p.1, radius as int, h),
                x2 < w,
                y2 < h,
                y1 <= row <= y2,
                x1 <= col <= x2 + 1,
                p == (pos.0 as int, pos.1 as int),
                in_limit(pos.0 as int),
                in_limit(pos.1 as int),
                0 <= radius <= GEOMETRY_LIMIT / 2,
                color@[3] == 255,
                forall|i: int|
                    0 <= i < old_px.len() ==> #[trigger] pixels.pixels@[i] as int == if byte_row(
                        w,
                        i,
                    ) < row || (byte_row(w, i) == row && byte_col(w, i) < col) {
                        brushed(old_px, w, h, p, radius as int, color@, i)
                    } else {
                        old_px[i] as int
                    },
            decreases x2 + 1 - col,
        {
            let cov = square_circle_intersection(
                pos,
                radius,
                (col as i64 * SUB + SUB / 2, row as i64 * SUB + SUB / 2),
                SUB,
            );
            let base = pixels.pixel_index(col, row);
            let ghost before = pixels.pixels@;
            proof {
                lemma_byte_position(w, col as int, row as int, 0);
                lemma_byte_position(w, col as int, row as int, 1);
                lemma_byte_position(w, col as int, row as int, 2);
            }
            let red = lerp(cov, pixels.pixels[base], color[0]);
            pixels.pixels.set(base, red);
            let green = lerp(cov, pixels.pixels[base + 1], color[1]);
            pixels.pixels.set(base + 1, green);
            let blue = lerp(cov, pixels.pixels[base + 2], color[2]);
            pixels.pixels.set(base + 2, blue);
            proof {
                assert forall|i: int| 0 <= i < old_px.len() implies #[trigger] pixels.pixels@[i]
                    as int == if byte_row(w, i) < row || (byte_row(w, i) == row && byte_col(w, i)
                    < col + 1) {
                    brushed(old_px, w, h, p, radius as int, color@, i)
                } else {
                    old_px[i] as int
                } by {
                    lemma_byte_decompose(w, i);
                    if i != base && i != base + 1 && i != base + 2 {
                        assert(pixels.pixels@[i] == before[i]);
                        if byte_row(w, i) == row && byte_col(w, i) == col {
                            assert(byte_channel(i) == 3);
                        }
                    }
                }
            }
            col = col + 1;
        }
        proof {
            assert forall|i: int| 0 <= i < old_px.len() implies #[trigger] pixels.pixels@[i] as int
                == if byte_row(w, i) < row + 1 {
                brushed(old_px, w, h, p, radius as int, color@, i)
            } else {
                old_px[i] as int
            } by {
                lemma_byte_decompose(w, i);
            }
        }
        row = row + 1;
    }
    proof {
        assert forall|i: int| 0 <= i < old_px.len() implies pixels.pixels@[i] as int == brushed(
            old_px,
            w,
            h,
            p,
            radius as int,
            color@,
            i,
        ) by {
            lemma_byte_decompose(w, i);
            assert(pixels.pixels@[i] as int == if byte_row(w, i) < row {
                brushed(old_px, w, h, p, radius as int, color@, i)
            } else {
                old_px[i] as int
            });
        }
        if brush_outside(w, h, p, radius as int) {
            let m = clear_margin(radius as int);
            assert forall|i: int| 0 <= i < old_px.len() implies pixels.pixels@[i] == old_px[i] by {
                lemma_byte_decompose(w, i);
                let col = byte_col(w, i);
                let row = byte_row(w, i);
                if in_brush_box(col, row, w, h, p, radius as int) && byte_channel(i) < 3 {
                    lemma_box_range(p.0, radius as int, w);
                    lemma_box_range(p.1, radius as int, h);
                    assert(2 * (p.0 - (col * SUB + SUB / 2)) > 2 * radius + SUB + 2 * m || 2 * ((
                    col * SUB + SUB / 2) - p.0) > 2 * radius + SUB + 2 * m || 2 * (p.1 - (row
                        * SUB + SUB / 2)) > 2 * radius + SUB + 2 * m || 2 * ((row * SUB + SUB
                        / 2) - p.1) > 2 * radius + SUB + 2 * m);
                    lemma_coverage_clear(
                        p.0,
                        p.1,
                        radius as int,
                        col * SUB + SUB / 2,
                        row * SUB + SUB / 2,
                        SUB as int,
                        m,
                    );
                    assert(pixel_coverage(col, row, p, radius as int) == 0);
                    let o = old_px[i] as int;
                    let c = color@[byte_channel(i)] as int;
                    assert(lerp_spec(0, o, c) == o) by (nonlinear_arith)
                        requires
                            0 <= o <= 255,
                    ;
                }
                assert(pixels.pixels@[i] as int == brushed(
                    old_px,
                    w,
                    h,
                    p,
                    radius as int,
                    color@,
                    i,
                ));
            }
            assert(pixels.pixels@ =~= old_px);
        }
    }
}

/// Where in the image (sub-units) the brush lands for `input`: the pointer's
/// screen position taken into image space, when a button is held and the
/// position lies within the brush's coordinate range.
pub open spec fn brush_target(
    input: PointerInput,
    t: ImageTransformations,
    w: int,
    h: int,
    panel: Rect,
) -> Option<(int, int)> {
    match input.interact_pos {
        Some(pos) => {
            let ix = to_image(
                pos.x as int,
                t.x_translation as int,
                t.scale as int,
                w,
                panel.min_x as int,
                panel.width as int,
            );
            let iy = to_image(
                pos.y as int,
                t.y_translation as int,
                t.scale as int,
                h,
                panel.min_y as int,
                panel.height as int,
            );
            if input.any_down && w >= 1 && h >= 1 && in_limit(ix) && in_limit(iy) {
                Some((ix, iy))
            } else {
                None
            }
        },
        None => None,
    }
}

/// `new` is `old` after one dab of the brush of `radius` at `pos` in `color`.
pub open spec fn painted(
    old: PixelBuffer,
    new: PixelBuffer,
    pos: (int, int),
    radius: int,
    color: Seq<u8>,
) -> bool {
    &&& new.width == old.width
    &&& new.height == old.height
    &&& new.pixels@.len() == old.pixels@.len()
    &&& forall|i: int|
        0 <= i < old.pixels@.len() ==> new.pixels@[i] as int == brushed(
            old.pixels@,
            old.width as int,
            old.height as int,
            pos,
            radius,
            color,
            i,
        )
}

/// Lets the brush act on one frame of input: while a button is held, one
/// dab in the primary color where the pointer is.
pub fn handle_input(input: &PointerInput, doc: &mut Document, panel: Rect)
    requires
        old(doc).wf(),
        old(doc).colors.primary@[3] == 255,
    ensures
        final(doc).wf(),
        match brush_target(
            *input,
            old(doc).image_relative_pos,
            old(doc).image.width as int,
            old(doc).image.height as int,
            panel,
        ) {
            Some(p) => painted(
                old(doc).image,
                final(doc).image,
                p,
                old(doc).tools.brush.diameter / 2,
                old(doc).colors.primary@,
            ),
            None => final(doc).image == old(doc).image,
        },
        final(doc).image_relative_pos == old(doc).image_relative_pos,
        final(doc).tools == old(doc).tools,
        final(doc).colors == old(doc).colors,
        final(doc).windows == old(doc).windows,
{
    if let Some(pos) = input.interact_pos {
        if input.any_down {
            let size = (doc.image.width, doc.image.height);
            if let Some(p) = screen_to_image_coords(pos, &doc.image_relative_pos, size, panel) {
                if -GEOMETRY_LIMIT <= p.x && p.x <= GEOMETRY_LIMIT && -GEOMETRY_LIMIT <= p.y && p.y
                    <= GEOMETRY_LIMIT {
                    apply_brush(&mut doc.image, &doc.tools.brush, (p.x, p.y), &doc.colors.primary);
                }
            }
        }
    }
}

} // verus!

use crate::math::{clamp_spec, SUB};
use vstd::arithmetic::div_mod::{
    lemma_div_is_ordered_by_denominator, lemma_fundamental_div_mod,
    lemma_fundamental_div_mod_converse,
};
use vstd::prelude::*;

verus! {

/// A zoom scale of one screen point per image pixel.
pub const SCALE_ONE: u64 = 65536;

/// Largest zoom scale that a transform may hold.
pub const MAX_SCALE: u64 = 1099511627776;

/// Largest width or height, in pixels, of an image that is placed on screen.
pub const MAX_IMAGE_SIDE: usize = 16777216;

/// Largest magnitude of a panel's corner and of its width and height.
pub const PANEL_LIMIT: i64 = 4294967296;

/// Longest frame, in milliseconds, after which a drag still pans the image;
/// a longer pause (say behind a file dialog) would hand over a spurious jump.
pub const PAN_MAX_FRAME_MS: u64 = 1000;

/// A point, in sub-units: of an image pixel in image space, of a screen point
/// in screen space.
#[derive(Debug, Clone, Copy, PartialEq, Eq, Structural)]
pub struct Pos {
    pub x: i64,
    pub y: i64,
}

/// An axis-aligned rectangle of the screen, in sub-units: its top-left corner
/// and its size.
#[derive(Debug, Clone, Copy, PartialEq, Eq, Structural)]
pub struct Rect {
    pub min_x: i64,
    pub min_y: i64,
    pub width: i64,
    pub height: i64,
}

/// How the image is placed on screen: the offset, in screen sub-units, of
/// its centre from the panel's centre, and its zoom in `SCALE_ONE`-ths of a
/// screen point per image pixel.
#[derive(Debug, Clone, Copy, PartialEq, Eq, Structural)]
pub struct ImageTransformations {
    pub x_translation: i64,
    pub y_translation: i64,
    pub scale: u64,
}

impl Rect {
    /// A rectangle with corner `(x, y)` and size `width × height`.
    pub fn new(x: i64, y: i64, width: i64, height: i64) -> (r: Rect)
        ensures
            r == (Rect { min_x: x, min_y: y, width, height }),
    {
        Rect { min_x: x, min_y: y, width, height }
    }

    /// `p` lies in the rectangle, edges included.
    pub open spec fn contains_spec(&self, p: Pos) -> bool {
        &&& self.min_x <= p.x <= self.min_x + self.width
        &&& self.min_y <= p.y <= self.min_y + self.height
    }

    /// Whether `p` lies in the rectangle, edges included.
    pub fn contains(&self, p: Pos) -> (r: bool)
        ensures
            r == self.contains_spec(p),
    {
        self.min_x <= p.x && p.x as i128 <= self.min_x as i128 + self.width as i128 && self.min_y
            <= p.y && p.y as i128 <= self.min_y as i128 + self.height as i128
    }

    /// The centre point, rounded down.
    pub fn center(&self) -> (r: Pos)
        requires
            self.wf(),
        ensures
            r.x == span_center(self.min_x as int, self.width as int),
            r.y == span_center(self.min_y as int, self.height as int),
    {
        Pos { x: self.min_x + self.width / 2, y: self.min_y + self.height / 2 }
    }

    /// Corner and size lie within `PANEL_LIMIT`, the size not negative.
    pub open spec fn wf(&self) -> bool {
        &&& -PANEL_LIMIT <= self.min_x <= PANEL_LIMIT
        &&& -PANEL_LIMIT <= self.min_y <= PANEL_LIMIT
        &&& 0 <= self.width <= PANEL_LIMIT
        &&& 0 <= self.height <= PANEL_LIMIT
    }
}

impl ImageTransformations {
    /// The scale is positive and at most `MAX_SCALE`.
    pub open spec fn wf(&self) -> bool {
        1 <= self.scale <= MAX_SCALE
    }
}

/// The image centred in the panel, one screen point per pixel.
pub open spec fn centered_transform() -> ImageTransformations {
    ImageTransformations { x_translation: 0, y_translation: 0, scale: SCALE_ONE }
}

impl Default for ImageTransformations {
    /// The image centred in the panel, one screen point per pixel.
    fn default() -> (r: Self)
        ensures
            r == centered_transform(),
    {
        ImageTransformations { x_translation: 0, y_translation: 0, scale: SCALE_ONE }
    }
}

pub open spec fn fits_i64(v: int) -> bool {
    i64::MIN <= v <= i64::MAX
}

/// `v` held to the range of `i64`.
pub open spec fn saturate(v: int) -> int {
    if v < i64::MIN {
        i64::MIN as int
    } else if v > i64::MAX {
        i64::MAX as int
    } else {
        v
    }
}

/// Centre of the span `[lo, lo + len]`, rounded down.
pub open spec fn span_center(lo: int, len: int) -> int {
    lo + len / 2
}

/// Screen offset, from the image's centre, of image coordinate `p` along an
/// axis of `n` pixels: `scale · (p − n/2)`, rounded down.
pub open spec fn screen_offset(p: int, n: int, scale: int) -> int {
    (scale * (2 * p - n * SUB)) / (2 * SCALE_ONE as int)
}

/// Screen coordinate of image coordinate `p` along one axis: the panel
/// `[lo, lo + len]` has its centre moved by `translation`, and the image,
/// `n` pixels long and zoomed by `scale`, is centred there.
pub open spec fn to_screen(p: int, translation: int, scale: int, n: int, lo: int, len: int) -> int {
    span_center(lo, len) + translation + screen_offset(p, n, scale)
}

/// Image coordinate under screen coordinate `s` along one axis, the inverse
/// of `to_screen`: `n/2 + (s − centre − translation) / scale`, rounded down.
pub open spec fn to_image(s: int, translation: int, scale: int, n: int, lo: int, len: int) -> int {
    (n * SUB * scale + 2 * SCALE_ONE * (s - span_center(lo, len) - translation)) / (2 * scale)
}

/// Least zoom scale for an image `w × h` in `panel`: half the scale at which
/// the image just fits, rounded down, and never below the smallest step.
pub open spec fn min_scale(w: int, h: int, panel: Rect) -> int {
    let fit_x = (SCALE_ONE * panel.width) / (2 * SUB * w);
    let fit_y = (SCALE_ONE * panel.height) / (2 * SUB * h);
    let m = if fit_x <= fit_y {
        fit_x
    } else {
        fit_y
    };
    if m < 1 {
        1
    } else {
        m
    }
}

/// Greatest zoom scale in `panel`: half its shorter side, in points, per
/// pixel.
pub open spec fn max_scale(panel: Rect) -> int {
    let side = if panel.width <= panel.height {
        panel.width as int
    } else {
        panel.height as int
    };
    (SCALE_ONE * side) / (2 * SUB)
}

/// Zooming has something to work on: a non-empty image in a non-empty panel.
pub open spec fn zoomable(w: int, h: int, panel: Rect) -> bool {
    w >= 1 && h >= 1 && panel.width >= 1 && panel.height >= 1
}

/// The translation after the scale goes from `s` to `s2` with the point
/// under screen coordinate `o` held still: `t − (o − centre − t)·(s2/s − 1)`,
/// rounded, and held to the range of `i64`.
pub open spec fn anchored_translation(t: int, o: int, s: int, s2: int, lo: int, len: int) -> int {
    saturate(t - ((o - span_center(lo, len) - t) * (s2 - s)) / s)
}

/// The transform after one zoom step by `zoom_delta` (`SCALE_ONE`-ths)
/// about screen point `origin`.
pub open spec fn zoomed(
    t: ImageTransformations,
    zoom_delta: int,
    origin: Pos,
    w: int,
    h: int,
    panel: Rect,
) -> ImageTransformations {
    if zoom_delta == SCALE_ONE || !zoomable(w, h, panel) {
        t
    } else {
        let s2 = clamp_spec(
            (t.scale * zoom_delta) / (SCALE_ONE as int),
            min_scale(w, h, panel),
            max_scale(panel),
        );
        ImageTransformations {
            x_translation: anchored_translation(
                t.x_translation as int,
                origin.x as int,
                t.scale as int,
                s2,
                panel.min_x as int,
                panel.width as int,
            ) as i64,
            y_translation: anchored_translation(
                t.y_translation as int,
                origin.y as int,
                t.scale as int,
                s2,
                panel.min_y as int,
                panel.height as int,
            ) as i64,
            scale: s2 as u64,
        }
    }
}

/// Least translation along an axis that keeps the image's far edge at or
/// beyond a quarter of the panel.
pub open spec fn min_translation(n: int, scale: int, lo: int, len: int) -> int {
    lo + len / 4 - span_center(lo, len) - screen_offset(n * SUB, n, scale)
}

/// Greatest translation along an axis that keeps the image's near edge at or
/// before three quarters of the panel.
pub open spec fn max_translation(n: int, scale: int, lo: int, len: int) -> int {
    lo + (3 * len) / 4 - span_center(lo, len) - screen_offset(0, n, scale)
}

/// The transform with both translations clamped so that the image keeps a
/// quarter of the panel in view.
pub open spec fn clamped(t: ImageTransformations, w: int, h: int, panel: Rect) -> ImageTransformations {
    ImageTransformations {
        x_translation: clamp_spec(
            t.x_translation as int,
            min_translation(w, t.scale as int, panel.min_x as int, panel.width as int),
            max_translation(w, t.scale as int, panel.min_x as int, panel.width as int),
        ) as i64,
        y_translation: clamp_spec(
            t.y_translation as int,
            min_translation(h, t.scale as int, panel.min_y as int, panel.height as int),
            max_translation(h, t.scale as int, panel.min_y as int, panel.height as int),
        ) as i64,
        scale: t.scale,
    }
}

/// `a / b` rounded down, for a positive `b`.
fn floor_div(a: i128, b: i128) -> (r: i128)
    requires
        0 < b <= 0x1000_0000_0000_0000_0000_0000_0000_0000,
        -0x1000_0000_0000_0000_0000_0000_0000_0000 <= a <= 0x1000_0000_0000_0000_0000_0000_0000_0000,
    ensures
        r == a / b,
{
    if a >= 0 {
        a / b
    } else {
        let m = -a + b - 1;
        let q = m / b;
        proof {
            let mi = m as int;
            let bi = b as int;
            lemma_fundamental_div_mod(mi, bi);
            let rem = mi % bi;
            assert(a == (-q) * bi + (bi - 1 - rem)) by (nonlinear_arith)
                requires
                    mi == bi * q + rem,
                    mi == -a + bi - 1,
            ;
            lemma_fundamental_div_mod_converse(a as int, bi, -q, bi - 1 - rem);
        }
        -q
    }
}

fn clamp_wide(v: i128, lo: i128, hi: i128) -> (r: i128)
    requires
        lo <= hi,
    ensures
        r == clamp_spec(v as int, lo as int, hi as int),
{
    if v < lo {
        lo
    } else if v > hi {
        hi
    } else {
        v
    }
}

fn saturate_i64(v: i128) -> (r: i64)
    ensures
        r == saturate(v as int),
{
    if v < i64::MIN as i128 {
        i64::MIN
    } else if v > i64::MAX as i128 {
        i64::MAX
    } else {
        v as i64
    }
}

fn axis_to_screen(p: i64, translation: i64, scale: u64, n: usize, lo: i64, len: i64) -> (r: i128)
    requires
        scale <= MAX_SCALE,
        n <= MAX_IMAGE_SIDE,
    ensures
        r == to_screen(p as int, translation as int, scale as int, n as int, lo as int, len as int),
{
    proof {
        assert(SUB == 256 && SCALE_ONE == 65536);
    }
    let nsub: i128 = (n as i128) * 256;
    let two_p_minus_n: i128 = 2 * (p as i128) - nsub;
    assert(-0x1000_0000_0000_0000_0000_0000_0000 <= (scale as i128) * two_p_minus_n
        <= 0x1000_0000_0000_0000_0000_0000_0000) by (nonlinear_arith)
        requires
            0 <= scale <= 0x100_0000_0000,
            -0x10_0000_0000_0000_0000 <= two_p_minus_n <= 0x10_0000_0000_0000_0000,
    ;
    let prod: i128 = (scale as i128) * two_p_minus_n;
    let offset = floor_div(prod, 131072);
    assert(-0x1000_0000_0000_0000_0000_0000_0000 <= offset <= 0x1000_0000_0000_0000_0000_0000_0000);
    let center = lo as i128 + floor_div(len as i128, 2);
    center + translation as i128 + offset
}

fn axis_to_image(s: i64, translation: i64, scale: u64, n: usize, lo: i64, len: i64) -> (r: i128)
    requires
        1 <= scale <= MAX_SCALE,
        n <= MAX_IMAGE_SIDE,
    ensures
        r == to_image(s as int, translation as int, scale as int, n as int, lo as int, len as int),
{
    proof {
        assert(SUB == 256 && SCALE_ONE == 65536);
    }
    let center = lo as i128 + floor_div(len as i128, 2);
    let rel: i128 = s as i128 - center - translation as i128;
    let nsub: i128 = (n as i128) * 256;
    assert(0 <= nsub * (scale as i128) <= 0x1_0000_0000_0000_0000_0000) by (nonlinear_arith)
        requires
            0 <= nsub <= 0x1_0000_0000,
            0 <= scale <= 0x100_0000_0000,
    ;
    let base: i128 = nsub * (scale as i128);
    let num: i128 = base + 131072 * rel;
    assert(n * SUB * scale == base) by (nonlinear_arith)
        requires
            nsub == n * 256,
            base == nsub * scale,
            SUB == 256,
    ;
    floor_div(num, 2 * (scale as i128))
}

/// Screen position of image position `image_pos` when the image, of
/// `image_size` pixels, is placed by `image_transformations` in the panel
/// `image_panel_bounds`. `None` for an image with no area, or a position off
/// the range of `i64`.
pub fn image_to_screen_coords(
    image_pos: Pos,
    image_transformations: &ImageTransformations,
    image_size: (usize, usize),
    image_panel_bounds: Rect,
) -> (r: Option<Pos>)
    requires
        image_transformations.scale <= MAX_SCALE,
        image_size.0 <= MAX_IMAGE_SIDE,
        image_size.1 <= MAX_IMAGE_SIDE,
    ensures
        ({
            let sx = to_screen(
                image_pos.x as int,
                image_transformations.x_translation as int,
                image_transformations.scale as int,
                image_size.0 as int,
                image_panel_bounds.min_x as int,
                image_panel_bounds.width as int,
            );
            let sy = to_screen(
                image_pos.y as int,
                image_transformations.y_translation as int,
                image_transformations.scale as int,
                image_size.1 as int,
                image_panel_bounds.min_y as int,
                image_panel_bounds.height as int,
            );
            &&& r.is_none() <==> (image_size.0 == 0 || image_size.1 == 0 || !fits_i64(sx)
                || !fits_i64(sy))
            &&& r matches Some(q) ==> q.x == sx && q.y == sy
        }),
{
    if image_size.0 == 0 || image_size.1 == 0 {
        return None;
    }
    let sx = axis_to_screen(
        image_pos.x,
        image_transformations.x_translation,
        image_transformations.scale,
        image_size.0,
        image_panel_bounds.min_x,
        image_panel_bounds.width,
    );
    let sy = axis_to_screen(
        image_pos.y,
        image_transformations.y_translation,
        image_transformations.scale,
        image_size.1,
        image_panel_bounds.min_y,
        image_panel_bounds.height,
    );
    if sx < i64::MIN as i128 || sx > i64::MAX as i128 || sy < i64::MIN as i128 || sy
        > i64::MAX as i128 {
        return None;
    }
    Some(Pos { x: sx as i64, y: sy as i64 })
}

/// Image position under screen position `screen_pos`, the inverse of
/// `image_to_screen_coords`. `None` for a zero scale, an image with no area,
/// or a position off the range of `i64`.
pub fn screen_to_image_coords(
    screen_pos: Pos,
    image_transformations: &ImageTransformations,
    image_size: (usize, usize),
    image_panel_bounds: Rect,
) -> (r: Option<Pos>)
    requires
        image_transformations.scale <= MAX_SCALE,
        image_size.0 <= MAX_IMAGE_SIDE,
        image_size.1 <= MAX_IMAGE_SIDE,
    ensures
        ({
            let ix = to_image(
                screen_pos.x as int,
                image_transformations.x_translation as int,
                image_transformations.scale as int,
                image_size.0 as int,
                image_panel_bounds.min_x as int,
                image_panel_bounds.width as int,
            );
            let iy = to_image(
                screen_pos.y as int,
                image_transformations.y_translation as int,
                image_transformations.scale as int,
                image_size.1 as int,
                image_panel_bounds.min_y as int,
                image_panel_bounds.height as int,
            );
            &&& r.is_none() <==> (image_transformations.scale == 0 || image_size.0 == 0
                || image_size.1 == 0 || !fits_i64(ix) || !fits_i64(iy))
            &&& r matches Some(q) ==> q.x == ix && q.y == iy
        }),
{
    if image_transformations.scale == 0 || image_size.0 == 0 || image_size.1 == 0 {
        return None;
    }
    let ix = axis_to_image(
        screen_pos.x,
        image_transformations.x_translation,
        image_transformations.scale,
        image_size.0,
        image_panel_bounds.min_x,
        image_panel_bounds.width,
    );
    let iy = axis_to_image(
        screen_pos.y,
        image_transformations.y_translation,
        image_transformations.scale,
        image_size.1,
        image_panel_bounds.min_y,
        image_panel_bounds.height,
    );
    if ix < i64::MIN as i128 || ix > i64::MAX as i128 || iy < i64::MIN as i128 || iy
        > i64::MAX as i128 {
        return None;
    }
    Some(Pos { x: ix as i64, y: iy as i64 })
}

/// The zoom range is not empty, and lies within what a transform may hold.
pub proof fn lemma_scale_range(w: int, h: int, panel: Rect)
    requires
        zoomable(w, h, panel),
        panel.wf(),
    ensures
        1 <= min_scale(w, h, panel) <= max_scale(panel) <= MAX_SCALE,
{
    let nx = SCALE_ONE * panel.width;
    let ny = SCALE_ONE * panel.height;
    assert(2 * SUB <= 2 * SUB * w) by (nonlinear_arith)
        requires
            w >= 1,
    ;
    assert(2 * SUB <= 2 * SUB * h) by (nonlinear_arith)
        requires
            h >= 1,
    ;
    lemma_div_is_ordered_by_denominator(nx, 2 * SUB as int, 2 * SUB * w);
    lemma_div_is_ordered_by_denominator(ny, 2 * SUB as int, 2 * SUB * h);
}

fn axis_anchor(t: i64, o: i64, s: i128, s2: i128, lo: i64, len: i64) -> (r: i64)
    requires
        1 <= s <= MAX_SCALE,
        1 <= s2 <= MAX_SCALE,
        0 <= len,
    ensures
        r == anchored_translation(t as int, o as int, s as int, s2 as int, lo as int, len as int),
{
    let center = lo as i128 + len as i128 / 2;
    let rel: i128 = o as i128 - center - t as i128;
    assert(-0x1000_0000_0000_0000_0000_0000_0000 <= rel * (s2 - s) <= 0x1000_0000_0000_0000_0000_0000_0000)
        by (nonlinear_arith)
        requires
            -0x10_0000_0000_0000_0000 <= rel <= 0x10_0000_0000_0000_0000,
            -0x100_0000_0000 <= s2 - s <= 0x100_0000_0000,
    ;
    let shift = floor_div(rel * (s2 - s), s);
    assert(-0x1000_0000_0000_0000_0000_0000_0000 <= shift <= 0x1000_0000_0000_0000_0000_0000_0000)
        by (nonlinear_arith)
        requires
            -0x1000_0000_0000_0000_0000_0000_0000 <= rel * (s2 - s) <= 0x1000_0000_0000_0000_0000_0000_0000,
            s >= 1,
            shift == (rel * (s2 - s)) / (s as int),
    ;
    saturate_i64(t as i128 - shift)
}

/// Zooms by `zoom_delta` (`SCALE_ONE`-ths; `SCALE_ONE` leaves all as it is)
/// about the screen point `zoom_origin`: the scale is multiplied by the
/// delta and clamped into `[min_scale, max_scale]`, and the translations
/// move so that the image point under `zoom_origin` stays under it. An empty
/// image or panel is left alone.
pub fn zoom_image(
    zoom_delta: u64,
    zoom_origin: Pos,
    transform: &mut ImageTransformations,
    image_size: (usize, usize),
    panel_rect: Rect,
)
    requires
        old(transform).wf(),
        panel_rect.wf(),
        image_size.0 <= MAX_IMAGE_SIDE,
        image_size.1 <= MAX_IMAGE_SIDE,
    ensures
        *final(transform) == zoomed(
            *old(transform),
            zoom_delta as int,
            zoom_origin,
            image_size.0 as int,
            image_size.1 as int,
            panel_rect,
        ),
        final(transform).wf(),
        zoom_delta != SCALE_ONE && zoomable(image_size.0 as int, image_size.1 as int, panel_rect)
            ==> min_scale(image_size.0 as int, image_size.1 as int, panel_rect)
            <= final(transform).scale <= max_scale(panel_rect),
{
    let (w, h) = image_size;
    if zoom_delta == SCALE_ONE || w == 0 || h == 0 || panel_rect.width < 1 || panel_rect.height
        < 1 {
        return ;
    }
    proof {
        lemma_scale_range(w as int, h as int, panel_rect);
    }
    proof {
        assert(SUB == 256 && SCALE_ONE == 65536 && MAX_SCALE == 0x100_0000_0000);
    }
    let s = transform.scale as i128;
    assert(0 <= s * zoom_delta as i128 <= 0x100_0000_0000 * 0x1_0000_0000_0000_0000)
        by (nonlinear_arith)
        requires
            1 <= s <= 0x100_0000_0000,
            0 <= zoom_delta <= 0xffff_ffff_ffff_ffff,
    ;
    let prod: i128 = s * zoom_delta as i128;
    let raw = prod / 65536;
    let dx: i128 = (w as i128) * 512;
    let dy: i128 = (h as i128) * 512;
    let fit_x = (65536 * panel_rect.width as i128) / dx;
    let fit_y = (65536 * panel_rect.height as i128) / dy;
    assert(2 * SUB * w == dx && 2 * SUB * h == dy) by (nonlinear_arith)
        requires
            SUB == 256,
            dx == w * 512,
            dy == h * 512,
    ;
    assert(fit_x == (SCALE_ONE * panel_rect.width) / (2 * SUB * w));
    assert(fit_y == (SCALE_ONE * panel_rect.height) / (2 * SUB * h));
    let fit = if fit_x <= fit_y {
        fit_x
    } else {
        fit_y
    };
    let lo = if fit < 1 {
        1
    } else {
        fit
    };
    let side = if panel_rect.width <= panel_rect.height {
        panel_rect.width
    } else {
        panel_rect.height
    };
    let hi = (65536 * side as i128) / 512;
    assert(lo == min_scale(w as int, h as int, panel_rect));
    assert(hi == max_scale(panel_rect));
    let s2 = clamp_wide(raw, lo, hi);
    assert(raw == (transform.scale * zoom_delta) / (SCALE_ONE as int));
    let tx = axis_anchor(
        transform.x_translation,
        zoom_origin.x,
        s,
        s2,
        panel_rect.min_x,
        panel_rect.width,
    );
    let ty = axis_anchor(
        transform.y_translation,
        zoom_origin.y,
        s,
        s2,
        panel_rect.min_y,
        panel_rect.height,
    );
    *transform = ImageTransformations { x_translation: tx, y_translation: ty, scale: s2 as u64 };
}

/// Both translation bounds lie well within `i64`, the lower below the upper.
proof fn lemma_translation_range(n: int, scale: int, lo: int, len: int)
    requires
        0 <= n <= MAX_IMAGE_SIDE,
        1 <= scale <= MAX_SCALE,
        -PANEL_LIMIT <= lo <= PANEL_LIMIT,
        0 <= len <= PANEL_LIMIT,
    ensures
        min_translation(n, scale, lo, len) <= max_translation(n, scale, lo, len),
        -0x100_0000_0000_0000 <= min_translation(n, scale, lo, len) <= 0x100_0000_0000_0000,
        -0x100_0000_0000_0000 <= max_translation(n, scale, lo, len) <= 0x100_0000_0000_0000,
        -0x100_0000_0000_0000 <= screen_offset(0, n, scale) <= 0,
        0 <= screen_offset(n * SUB, n, scale) <= 0x100_0000_0000_0000,
{
    assert(SUB == 256 && SCALE_ONE == 65536);
    assert(len / 4 <= (3 * len) / 4) by (nonlinear_arith)
        requires
            len >= 0,
    ;
    let e = scale * (n * SUB);
    assert(0 <= e <= 0x100_0000_0000 * 0x1_0000_0000) by (nonlinear_arith)
        requires
            0 <= n <= 0x100_0000,
            1 <= scale <= 0x100_0000_0000,
            e == scale * (n * SUB),
            SUB == 256,
    ;
    assert(scale * (2 * (n * SUB) - n * SUB) == e) by (nonlinear_arith)
        requires
            e == scale * (n * SUB),
    ;
    assert(scale * (2 * 0 - n * SUB) == -e) by (nonlinear_arith)
        requires
            e == scale * (n * SUB),
    ;
    let off_near = screen_offset(0, n, scale);
    let off_far = screen_offset(n * SUB, n, scale);
    assert(off_far == e / 131072);
    assert(off_near == (-e) / 131072);
    assert(0 <= e / 131072 <= 0x100_0000_0000_0000 && -0x100_0000_0000_0000 <= (-e) / 131072 <= 0)
        by (nonlinear_arith)
        requires
            0 <= e <= 0x100_0000_0000 * 0x1_0000_0000,
    ;
    assert(min_translation(n, scale, lo, len) == lo + len / 4 - span_center(lo, len) - off_far);
    assert(max_translation(n, scale, lo, len) == lo + (3 * len) / 4 - span_center(lo, len)
        - off_near);
}

/// Clamps both translations so that the image keeps at least a quarter of
/// the panel in view along each axis: its far edge at or beyond a quarter of
/// the panel, its near edge at or before three quarters. The scale is kept.
pub fn clamp_image_to_bounds(
    transform: &mut ImageTransformations,
    image_size: (usize, usize),
    panel_rect: Rect,
)
    requires
        old(transform).wf(),
        panel_rect.wf(),
        image_size.0 <= MAX_IMAGE_SIDE,
        image_size.1 <= MAX_IMAGE_SIDE,
    ensures
        *final(transform) == clamped(
            *old(transform),
            image_size.0 as int,
            image_size.1 as int,
            panel_rect,
        ),
        final(transform).wf(),
{
    let (w, h) = image_size;
    let scale = transform.scale;
    proof {
        lemma_translation_range(w as int, scale as int, panel_rect.min_x as int, panel_rect.width as int);
        lemma_translation_range(h as int, scale as int, panel_rect.min_y as int, panel_rect.height as int);
    }
    let min_x = axis_min_translation(w, scale, panel_rect.min_x, panel_rect.width);
    let max_x = axis_max_translation(w, scale, panel_rect.min_x, panel_rect.width);
    let min_y = axis_min_translation(h, scale, panel_rect.min_y, panel_rect.height);
    let max_y = axis_max_translation(h, scale, panel_rect.min_y, panel_rect.height);
    let tx = clamp_wide(transform.x_translation as i128, min_x, max_x);
    let ty = clamp_wide(transform.y_translation as i128, min_y, max_y);
    transform.x_translation = tx as i64;
    transform.y_translation = ty as i64;
}

fn axis_min_translation(n: usize, scale: u64, lo: i64, len: i64) -> (r: i128)
    requires
        n <= MAX_IMAGE_SIDE,
        1 <= scale <= MAX_SCALE,
        -PANEL_LIMIT <= lo <= PANEL_LIMIT,
        0 <= len <= PANEL_LIMIT,
    ensures
        r == min_translation(n as int, scale as int, lo as int, len as int),
{
    proof {
        lemma_translation_range(n as int, scale as int, lo as int, len as int);
    }
    let far = axis_to_screen((n as i64) * SUB, 0, scale, n, 0, 0);
    lo as i128 + len as i128 / 4 - (lo as i128 + len as i128 / 2) - far
}

fn axis_max_translation(n: usize, scale: u64, lo: i64, len: i64) -> (r: i128)
    requires
        n <= MAX_IMAGE_SIDE,
        1 <= scale <= MAX_SCALE,
        -PANEL_LIMIT <= lo <= PANEL_LIMIT,
        0 <= len <= PANEL_LIMIT,
    ensures
        r == max_translation(n as int, scale as int, lo as int, len as int),
{
    proof {
        lemma_translation_range(n as int, scale as int, lo as int, len as int);
    }
    let near = axis_to_screen(0, 0, scale, n, 0, 0);
    lo as i128 + (3 * len as i128) / 4 - (lo as i128 + len as i128 / 2) - near
}

/// The translations after a pan by `delta` screen sub-units, held to the
/// range of `i64`.
pub open spec fn panned(t: ImageTransformations, delta: Pos) -> ImageTransformations {
    ImageTransformations {
        x_translation: saturate(t.x_translation + delta.x) as i64,
        y_translation: saturate(t.y_translation + delta.y) as i64,
        scale: t.scale,
    }
}

/// Moves the image by `delta` screen sub-units.
pub fn apply_pan(transform: &mut ImageTransformations, delta: Pos)
    ensures
        *final(transform) == panned(*old(transform), delta),
{
    transform.x_translation = saturate_i64(transform.x_translation as i128 + delta.x as i128);
    transform.y_translation = saturate_i64(transform.y_translation as i128 + delta.y as i128);
}

/// Round trip: an image coordinate taken to the screen and back comes out at
/// or just below where it started, short of it by less than one screen
/// sub-unit's worth of image distance plus one: `(p − q)·scale < SCALE_ONE +
/// scale`. The loss is the rounding of the two integer divisions.
pub proof fn lemma_round_trip(p: int, translation: int, scale: int, n: int, lo: int, len: int)
    requires
        1 <= scale,
    ensures
        ({
            let q = to_image(
                to_screen(p, translation, scale, n, lo, len),
                translation,
                scale,
                n,
                lo,
                len,
            );
            q <= p && (p - q) * scale < SCALE_ONE + scale
        }),
{
    let one2 = 2 * SCALE_ONE as int;
    let x = scale * (2 * p - n * SUB);
    let u = screen_offset(p, n, scale);
    lemma_fundamental_div_mod(x, one2);
    assert(one2 * u <= x < one2 * u + one2);
    let s = to_screen(p, translation, scale, n, lo, len);
    assert(s - span_center(lo, len) - translation == u);
    let num = n * SUB * scale + one2 * u;
    let d = 2 * scale;
    assert(2 * p * scale - one2 < num <= 2 * p * scale) by (nonlinear_arith)
        requires
            one2 * u <= x < one2 * u + one2,
            x == scale * (2 * p - n * SUB),
            num == n * SUB * scale + one2 * u,
    ;
    let q = num / d;
    lemma_fundamental_div_mod(num, d);
    assert(d * q <= num < d * q + d);
    assert(q <= p && (p - q) * scale < SCALE_ONE + scale) by (nonlinear_arith)
        requires
            d * q <= num < d * q + d,
            2 * p * scale - one2 < num <= 2 * p * scale,
            d == 2 * scale,
            scale >= 1,
            one2 == 2 * SCALE_ONE,
    ;
}

/// The transform after each zoom step of `steps` in turn, a step being a
/// zoom delta and the screen point zoomed about.
pub open spec fn zoom_steps(
    t: ImageTransformations,
    steps: Seq<(u64, Pos)>,
    w: int,
    h: int,
    panel: Rect,
) -> ImageTransformations
    decreases steps.len(),
{
    if steps.len() == 0 {
        t
    } else {
        zoom_steps(zoomed(t, steps[0].0 as int, steps[0].1, w, h, panel), steps.drop_first(), w, h, panel)
    }
}

pub open spec fn scale_in_range(t: ImageTransformations, w: int, h: int, panel: Rect) -> bool {
    min_scale(w, h, panel) <= t.scale <= max_scale(panel)
}

/// The zoom range is an invariant: from a scale within
/// `[min_scale, max_scale]`, any sequence of zoom steps keeps it there.
pub proof fn lemma_zoom_keeps_scale_in_range(
    t: ImageTransformations,
    steps: Seq<(u64, Pos)>,
    w: int,
    h: int,
    panel: Rect,
)
    requires
        scale_in_range(t, w, h, panel),
        panel.wf(),
    ensures
        scale_in_range(zoom_steps(t, steps, w, h, panel), w, h, panel),
    decreases steps.len(),
{
    if steps.len() > 0 {
        let next = zoomed(t, steps[0].0 as int, steps[0].1, w, h, panel);
        if steps[0].0 != SCALE_ONE && zoomable(w, h, panel) {
            lemma_scale_range(w, h, panel);
        }
        lemma_zoom_keeps_scale_in_range(next, steps.drop_first(), w, h, panel);
    }
}

/// Length of the overlap of the spans `[a_lo, a_hi]` and `[b_lo, b_hi]`.
pub open spec fn overlap(a_lo: int, a_hi: int, b_lo: int, b_hi: int) -> int {
    let hi = if a_hi <= b_hi {
        a_hi
    } else {
        b_hi
    };
    let lo = if a_lo >= b_lo {
        a_lo
    } else {
        b_lo
    };
    hi - lo
}

pub open spec fn min_int(a: int, b: int) -> int {
    if a <= b {
        a
    } else {
        b
    }
}

proof fn lemma_axis_in_view(t: int, n: int, scale: int, lo: int, len: int)
    requires
        0 <= n <= MAX_IMAGE_SIDE,
        1 <= scale <= MAX_SCALE,
        -PANEL_LIMIT <= lo <= PANEL_LIMIT,
        0 <= len <= PANEL_LIMIT,
    ensures
        ({
            let c = clamp_spec(t, min_translation(n, scale, lo, len), max_translation(n, scale, lo, len));
            let near = to_screen(0, c, scale, n, lo, len);
            let far = to_screen(n * SUB, c, scale, n, lo, len);
            &&& near <= far
            &&& overlap(near, far, lo, lo + len) >= min_int(far - near, len / 4)
        }),
{
    lemma_translation_range(n, scale, lo, len);
    assert(len / 4 + (3 * len) / 4 <= len && (3 * len) / 4 <= len) by (nonlinear_arith)
        requires
            len >= 0,
    ;
}

/// Clamping keeps the image in view: along each axis the image's on-screen
/// span overlaps the panel by at least a quarter of the panel, or by the
/// whole image where it is shorter than that.
pub proof fn lemma_clamped_image_in_view(t: ImageTransformations, w: int, h: int, panel: Rect)
    requires
        t.wf(),
        panel.wf(),
        0 <= w <= MAX_IMAGE_SIDE,
        0 <= h <= MAX_IMAGE_SIDE,
    ensures
        ({
            let c = clamped(t, w, h, panel);
            let left = to_screen(0, c.x_translation as int, c.scale as int, w, panel.min_x as int, panel.width as int);
            let right = to_screen(w * SUB, c.x_translation as int, c.scale as int, w, panel.min_x as int, panel.width as int);
            let top = to_screen(0, c.y_translation as int, c.scale as int, h, panel.min_y as int, panel.height as int);
            let bottom = to_screen(h * SUB, c.y_translation as int, c.scale as int, h, panel.min_y as int, panel.height as int);
            &&& left <= right
            &&& overlap(left, right, panel.min_x as int, panel.min_x + panel.width)
                >= min_int(right - left, panel.width / 4)
            &&& top <= bottom
            &&& overlap(top, bottom, panel.min_y as int, panel.min_y + panel.height)
                >= min_int(bottom - top, panel.height / 4)
        }),
{
    lemma_translation_range(w, t.scale as int, panel.min_x as int, panel.width as int);
    lemma_translation_range(h, t.scale as int, panel.min_y as int, panel.height as int);
    lemma_axis_in_view(t.x_translation as int, w, t.scale as int, panel.min_x as int, panel.width as int);
    lemma_axis_in_view(t.y_translation as int, h, t.scale as int, panel.min_y as int, panel.height as int);
}

/// Round trip the other way: a screen coordinate taken into the image and
/// back comes out at or just before where it started, short by less than
/// one plus `scale / SCALE_ONE`: `(s − s2)·SCALE_ONE < SCALE_ONE + scale`.
pub proof fn lemma_screen_round_trip(s: int, translation: int, scale: int, n: int, lo: int, len: int)
    requires
        1 <= scale,
    ensures
        ({
            let s2 = to_screen(
                to_image(s, translation, scale, n, lo, len),
                translation,
                scale,
                n,
                lo,
                len,
            );
            s2 <= s && (s - s2) * SCALE_ONE < SCALE_ONE + scale
        }),
{
    let one2 = 2 * SCALE_ONE as int;
    let u = s - span_center(lo, len) - translation;
    let num = n * SUB * scale + one2 * u;
    let d = 2 * scale;
    let p = to_image(s, translation, scale, n, lo, len);
    assert(p == num / d);
    lemma_fundamental_div_mod(num, d);
    assert(d * p <= num < d * p + d);
    let x = scale * (2 * p - n * SUB);
    assert(one2 * u - 2 * scale < x <= one2 * u) by (nonlinear_arith)
        requires
            d * p <= num < d * p + d,
            num == n * SUB * scale + one2 * u,
            d == 2 * scale,
            x == scale * (2 * p - n * SUB),
    ;
    let off = screen_offset(p, n, scale);
    assert(off == x / one2);
    lemma_fundamental_div_mod(x, one2);
    assert(one2 * off <= x < one2 * off + one2);
    assert(off <= u && (u - off) * SCALE_ONE < SCALE_ONE + scale) by (nonlinear_arith)
        requires
            one2 * off <= x < one2 * off + one2,
            one2 * u - 2 * scale < x <= one2 * u,
            one2 == 2 * SCALE_ONE,
            scale >= 1,
    ;
}

proof fn lemma_anchor_axis(t: int, o: int, s: int, s2: int, n: int, lo: int, len: int)
    requires
        1 <= s,
        1 <= s2,
        fits_i64(t - ((o - span_center(lo, len) - t) * (s2 - s)) / s),
    ensures
        ({
            let q0 = to_image(o, t, s, n, lo, len);
            let q1 = to_image(o, anchored_translation(t, o, s, s2, lo, len), s2, n, lo, len);
            q1 <= q0 && (q0 - q1) * s2 < SCALE_ONE + s2
        }),
{
    let one2 = 2 * SCALE_ONE as int;
    let ns = n * SUB;
    let u = o - span_center(lo, len) - t;
    let k = (u * (s2 - s)) / s;
    lemma_fundamental_div_mod(u * (s2 - s), s);
    assert(s * k <= u * (s2 - s) < s * k + s);
    let t2 = anchored_translation(t, o, s, s2, lo, len);
    assert(t2 == t - k);
    let u2 = o - span_center(lo, len) - t2;
    assert(u2 == u + k);
    assert(s * u2 <= u * s2 < s * u2 + s) by (nonlinear_arith)
        requires
            s * k <= u * (s2 - s) < s * k + s,
            u2 == u + k,
    ;
    let n0 = ns * s + one2 * u;
    let q0 = n0 / (2 * s);
    lemma_fundamental_div_mod(n0, 2 * s);
    let n1 = ns * s2 + one2 * u2;
    let q1 = n1 / (2 * s2);
    lemma_fundamental_div_mod(n1, 2 * s2);
    assert(to_image(o, t, s, n, lo, len) == q0);
    assert(to_image(o, t2, s2, n, lo, len) == q1);
    assert(2 * s * q0 <= n0 < 2 * s * q0 + 2 * s);
    assert(2 * s2 * q1 <= n1 < 2 * s2 * q1 + 2 * s2);
    // Both sides over the common denominator 2·s·s2.
    assert(s * n1 <= s2 * n0 && s * n1 > s2 * n0 - one2 * s) by (nonlinear_arith)
        requires
            s * u2 <= u * s2 < s * u2 + s,
            n0 == ns * s + one2 * u,
            n1 == ns * s2 + one2 * u2,
            one2 > 0,
    ;
    assert(q1 <= q0) by (nonlinear_arith)
        requires
            2 * s2 * q1 <= n1,
            n0 < 2 * s * q0 + 2 * s,
            s * n1 <= s2 * n0,
            s >= 1,
            s2 >= 1,
    ;
    assert((q0 - q1) * s2 < SCALE_ONE + s2) by (nonlinear_arith)
        requires
            n1 < 2 * s2 * q1 + 2 * s2,
            2 * s * q0 <= n0,
            s * n1 > s2 * n0 - one2 * s,
            one2 == 2 * SCALE_ONE,
            s >= 1,
            s2 >= 1,
    ;
}

/// Zooming keeps the cursor anchored: the image point under the zoom origin
/// after a zoom step is the one under it before, up to the rounding of the
/// new scale, `(before − after)·scale < SCALE_ONE + scale`, on each axis
/// whose new translation is not held to the range of `i64`.
pub proof fn lemma_zoom_anchors_cursor(
    t: ImageTransformations,
    zoom_delta: int,
    origin: Pos,
    w: int,
    h: int,
    panel: Rect,
)
    requires
        t.wf(),
        panel.wf(),
        zoomable(w, h, panel),
        zoom_delta != SCALE_ONE,
        ({
            let s2 = zoomed(t, zoom_delta, origin, w, h, panel).scale as int;
            &&& fits_i64(t.x_translation - ((origin.x - span_center(panel.min_x as int, panel.width as int)
                - t.x_translation) * (s2 - t.scale)) / (t.scale as int))
            &&& fits_i64(t.y_translation - ((origin.y - span_center(panel.min_y as int, panel.height as int)
                - t.y_translation) * (s2 - t.scale)) / (t.scale as int))
        }),
    ensures
        ({
            let z = zoomed(t, zoom_delta, origin, w, h, panel);
            let bx = to_image(origin.x as int, t.x_translation as int, t.scale as int, w, panel.min_x as int, panel.width as int);
            let ax = to_image(origin.x as int, z.x_translation as int, z.scale as int, w, panel.min_x as int, panel.width as int);
            let by = to_image(origin.y as int, t.y_translation as int, t.scale as int, h, panel.min_y as int, panel.height as int);
            let ay = to_image(origin.y as int, z.y_translation as int, z.scale as int, h, panel.min_y as int, panel.height as int);
            &&& ax <= bx && (bx - ax) * z.scale < SCALE_ONE + z.scale
            &&& ay <= by && (by - ay) * z.scale < SCALE_ONE + z.scale
        }),
{
    lemma_scale_range(w, h, panel);
    let z = zoomed(t, zoom_delta, origin, w, h, panel);
    let s2 = z.scale as int;
    assert(1 <= s2 <= MAX_SCALE);
    lemma_anchor_axis(
        t.x_translation as int,
        origin.x as int,
        t.scale as int,
        s2,
        w,
        panel.min_x as int,
        panel.width as int,
    );
    lemma_anchor_axis(
        t.y_translation as int,
        origin.y as int,
        t.scale as int,
        s2,
        h,
        panel.min_y as int,
        panel.height as int,
    );
}

} // verus!

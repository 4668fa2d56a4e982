use crate::math::{GEOMETRY_LIMIT, SUB};
use crate::pixel_buffer::{PixelBuffer, DEFAULT_HEIGHT, DEFAULT_WIDTH};
use crate::tools::brush::MAX_IMAGE_DIM;
use crate::tools::{Tool, ToolState};
use crate::tools::brush::{brush_target, painted};
use crate::tools::pan::pan_result;
use crate::tools::pencil::{pencil_target, pixel_set};
use crate::viewport::{
    centered_transform, clamp_image_to_bounds, clamped, span_center, zoom_image, zoomed,
    ImageTransformations, Pos, Rect,
};
use vstd::prelude::*;

verus! {

/// Which of the draggable windows are shown.
#[derive(Debug, Clone, Copy, PartialEq, Eq, Structural)]
pub struct VisibleWindows {
    pub tools: bool,
    pub colors: bool,
    pub history: bool,
    pub layers: bool,
}

impl Default for VisibleWindows {
    /// All windows shown.
    fn default() -> (r: Self)
        ensures
            r == (VisibleWindows { tools: true, colors: true, history: true, layers: true }),
    {
        VisibleWindows { tools: true, colors: true, history: true, layers: true }
    }
}

/// The primary and secondary colors, RGBA.
#[derive(Debug, Clone, Copy)]
pub struct Colors {
    pub primary: [u8; 4],
    pub secondary: [u8; 4],
}

impl Default for Colors {
    /// Opaque black on opaque white.
    fn default() -> (r: Self)
        ensures
            r.primary@ == seq![0u8, 0u8, 0u8, 255u8],
            r.secondary@ == seq![255u8, 255u8, 255u8, 255u8],
    {
        let r = Colors { primary: [0u8, 0, 0, 255], secondary: [255u8, 255, 255, 255] };
        assert(r.primary@ =~= seq![0u8, 0u8, 0u8, 255u8]);
        assert(r.secondary@ =~= seq![255u8, 255u8, 255u8, 255u8]);
        r
    }
}

/// One frame's worth of pointer and scroll input, in screen sub-units.
#[derive(Debug, Clone, Copy)]
pub struct PointerInput {
    /// Where the pointer is, if it is over the window.
    pub interact_pos: Option<Pos>,
    /// A pointer button is held.
    pub any_down: bool,
    /// The pointer is being dragged, as opposed to clicked.
    pub dragging: bool,
    /// How far the pointer moved since the last frame.
    pub delta: Pos,
    /// Time since the last frame, in milliseconds.
    pub frame_time_ms: u64,
    /// Zoom asked for this frame, in `SCALE_ONE`-ths (`SCALE_ONE` for none).
    pub zoom_delta: u64,
}

/// The state of an open document: its pixels, where it sits on screen, and
/// the tool, brush and colors that input is applied with.
#[derive(Debug)]
pub struct Document {
    pub windows: VisibleWindows,
    pub image: PixelBuffer,
    pub image_relative_pos: ImageTransformations,
    pub tools: ToolState,
    pub colors: Colors,
}

impl Document {
    /// The image is well formed and of a size the brush and the transform
    /// take; the transform's scale is valid; the brush's diameter is in range.
    pub open spec fn wf(&self) -> bool {
        &&& self.image.wf()
        &&& self.image.width <= MAX_IMAGE_DIM
        &&& self.image.height <= MAX_IMAGE_DIM
        &&& self.image_relative_pos.wf()
        &&& 0 <= self.tools.brush.diameter <= GEOMETRY_LIMIT
    }

    /// A fresh document: a white image of the default size, centred at one
    /// point per pixel, with the default tools and colors.
    pub fn new() -> (r: Self)
        ensures
            r.wf(),
            r.image.width == DEFAULT_WIDTH,
            r.image.height == DEFAULT_HEIGHT,
            forall|i: int| 0 <= i < r.image.pixels@.len() ==> r.image.pixels@[i] == 255,
            r.image_relative_pos == centered_transform(),
            r.tools.current_tool == Tool::Pan,
            r.tools.brush.diameter == 20 * SUB,
            r.colors.primary@ == seq![0u8, 0u8, 0u8, 255u8],
            r.colors.secondary@ == seq![255u8, 255u8, 255u8, 255u8],
            r.windows == (VisibleWindows { tools: true, colors: true, history: true, layers: true }),
    {
        let tools = ToolState::default();
        Document {
            windows: VisibleWindows::default(),
            image: PixelBuffer::default(),
            image_relative_pos: ImageTransformations::default(),
            tools,
            colors: Colors::default(),
        }
    }

    /// Replaces the image by a new blank one of the default size and puts it
    /// back in the middle of the panel.
    pub fn new_image(&mut self)
        requires
            old(self).wf(),
        ensures
            final(self).wf(),
            final(self).image.width == DEFAULT_WIDTH,
            final(self).image.height == DEFAULT_HEIGHT,
            forall|i: int|
                0 <= i < final(self).image.pixels@.len() ==> final(self).image.pixels@[i] == 255,
            final(self).image_relative_pos == centered_transform(),
            final(self).tools == old(self).tools,
            final(self).colors == old(self).colors,
            final(self).windows == old(self).windows,
    {
        self.image = PixelBuffer::default();
        self.image_relative_pos = ImageTransformations::default();
    }

    /// Replaces the image wholesale (a file opened, a paste) and puts it back
    /// in the middle of the panel. An image whose bytes do not match its size,
    /// or larger than `MAX_IMAGE_DIM` either way, is refused and nothing
    /// changes.
    pub fn replace_image(&mut self, image: PixelBuffer) -> (accepted: bool)
        requires
            old(self).wf(),
        ensures
            accepted <==> (image.wf() && image.width <= MAX_IMAGE_DIM && image.height
                <= MAX_IMAGE_DIM),
            accepted ==> final(self).image == image && final(self).image_relative_pos
                == centered_transform(),
            !accepted ==> final(self).image == old(self).image && final(self).image_relative_pos
                == old(self).image_relative_pos,
            final(self).wf(),
            final(self).tools == old(self).tools,
            final(self).colors == old(self).colors,
            final(self).windows == old(self).windows,
    {
        if image.width > MAX_IMAGE_DIM || image.height > MAX_IMAGE_DIM {
            return false;
        }
        assert(image.width * image.height * 4 <= MAX_IMAGE_DIM * MAX_IMAGE_DIM * 4)
            by (nonlinear_arith)
            requires
                image.width <= MAX_IMAGE_DIM,
                image.height <= MAX_IMAGE_DIM,
        ;
        if image.pixels.len() as u64 != (image.width as u64) * (image.height as u64) * 4 {
            return false;
        }
        self.image = image;
        self.image_relative_pos = ImageTransformations::default();
        true
    }
}

/// The screen point a zoom is centred on: the pointer when it is over the
/// panel, the panel's centre otherwise.
pub open spec fn zoom_origin(input: PointerInput, panel: Rect) -> Pos {
    let center = Pos {
        x: span_center(panel.min_x as int, panel.width as int) as i64,
        y: span_center(panel.min_y as int, panel.height as int) as i64,
    };
    match input.interact_pos {
        Some(p) => if panel.contains_spec(p) {
            p
        } else {
            center
        },
        None => center,
    }
}

impl Document {
    /// Handles one frame of input over the panel: zoom about the pointer
    /// (or the panel's centre), then the current tool, then the image is
    /// clamped back into view.
    pub fn process_input(&mut self, input: &PointerInput, panel: Rect)
        requires
            old(self).wf(),
            panel.wf(),
            old(self).tools.current_tool == Tool::Brush ==> old(self).colors.primary@[3] == 255,
        ensures
            final(self).wf(),
            ({
                let w = old(self).image.width as int;
                let h = old(self).image.height as int;
                let t1 = zoomed(
                    old(self).image_relative_pos,
                    input.zoom_delta as int,
                    zoom_origin(*input, panel),
                    w,
                    h,
                    panel,
                );
                let tool = old(self).tools.current_tool;
                &&& final(self).image_relative_pos == clamped(
                    if tool == Tool::Pan {
                        pan_result(*input, t1)
                    } else {
                        t1
                    },
                    w,
                    h,
                    panel,
                )
                &&& tool == Tool::Pan ==> final(self).image == old(self).image
                &&& tool == Tool::Brush ==> match brush_target(*input, t1, w, h, panel) {
                    Some(p) => painted(
                        old(self).image,
                        final(self).image,
                        p,
                        old(self).tools.brush.diameter / 2,
                        old(self).colors.primary@,
                    ),
                    None => final(self).image == old(self).image,
                }
                &&& tool == Tool::Pencil ==> match pencil_target(*input, t1, w, h, panel) {
                    Some(p) => pixel_set(
                        old(self).image,
                        final(self).image,
                        p,
                        old(self).colors.primary@,
                    ),
                    None => final(self).image == old(self).image,
                }
            }),
            final(self).tools == old(self).tools,
            final(self).colors == old(self).colors,
            final(self).windows == old(self).windows,
    {
        let size = (self.image.width, self.image.height);
        let center = panel.center();
        let origin = match input.interact_pos {
            Some(p) => if panel.contains(p) {
                p
            } else {
                center
            },
            None => center,
        };
        zoom_image(input.zoom_delta, origin, &mut self.image_relative_pos, size, panel);
        let tool = self.tools.current_tool;
        tool.handle_input(input, self, panel);
        clamp_image_to_bounds(&mut self.image_relative_pos, size, panel);
    }
}

} // verus!

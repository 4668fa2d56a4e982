pub mod brush;
pub mod pan;
pub mod pencil;

use crate::document::{Document, PointerInput};
use crate::viewport::Rect;
use brush::{brush_target, painted, BrushSettings};
use pan::{pan_result, PanSettings};
use pencil::{pencil_target, pixel_set};
use vstd::prelude::*;

verus! {

/// A tool usable in the editor.
#[derive(Debug, Clone, Copy, PartialEq, Eq, Structural)]
pub enum Tool {
    /// Visually move the image around the window.
    Pan,
    /// Draw with a circular, soft-edged brush.
    Brush,
    /// Set single pixels to a solid color, with no blending.
    Pencil,
}

impl Tool {
    /// The tool's name as shown to the user.
    pub fn name(&self) -> (r: &'static str)
        ensures
            *self == Tool::Pan ==> r@ == "Pan"@,
            *self == Tool::Brush ==> r@ == "Brush"@,
            *self == Tool::Pencil ==> r@ == "Pencil"@,
    {
        match self {
            Tool::Pan => "Pan",
            Tool::Brush => "Brush",
            Tool::Pencil => "Pencil",
        }
    }

    /// Lets this tool act on one frame of input.
    pub fn handle_input(&self, input: &PointerInput, doc: &mut Document, panel: Rect)
        requires
            old(doc).wf(),
            *self == Tool::Brush ==> old(doc).colors.primary@[3] == 255,
        ensures
            final(doc).wf(),
            tool_applied(*self, *input, *old(doc), *final(doc), panel),
    {
        match self {
            Tool::Pan => pan::handle_input(input, doc),
            Tool::Brush => brush::handle_input(input, doc, panel),
            Tool::Pencil => pencil::handle_input(input, doc, panel),
        }
    }
}

/// `new` is `old` after `tool` acted on `input`: the pan tool moves the
/// image and leaves its pixels; the brush leaves the transform and paints
/// one dab where it lands, if it lands.
pub open spec fn tool_applied(
    tool: Tool,
    input: PointerInput,
    old: Document,
    new: Document,
    panel: Rect,
) -> bool {
    &&& new.tools == old.tools
    &&& new.colors == old.colors
    &&& new.windows == old.windows
    &&& match tool {
        Tool::Pan => {
            &&& new.image_relative_pos == pan_result(input, old.image_relative_pos)
            &&& new.image == old.image
        },
        Tool::Brush => {
            &&& new.image_relative_pos == old.image_relative_pos
            &&& match brush_target(
                input,
                old.image_relative_pos,
                old.image.width as int,
                old.image.height as int,
                panel,
            ) {
                Some(p) => painted(
                    old.image,
                    new.image,
                    p,
                    old.tools.brush.diameter / 2,
                    old.colors.primary@,
                ),
                None => new.image == old.image,
            }
        },
        Tool::Pencil => {
            &&& new.image_relative_pos == old.image_relative_pos
            &&& match pencil_target(
                input,
                old.image_relative_pos,
                old.image.width as int,
                old.image.height as int,
                panel,
            ) {
                Some(p) => pixel_set(old.image, new.image, p, old.colors.primary@),
                None => new.image == old.image,
            }
        },
    }
}

/// The active tool and each tool's settings.
#[derive(Debug, Clone, Copy)]
pub struct ToolState {
    pub current_tool: Tool,
    pub pan: PanSettings,
    pub brush: BrushSettings,
}

impl Default for ToolState {
    /// The pan tool, and a brush 20 pixels across.
    fn default() -> (r: Self)
        ensures
            r.current_tool == Tool::Pan,
            r.brush.diameter == 20 * crate::math::SUB,
    {
        ToolState { current_tool: Tool::Pan, pan: PanSettings {  }, brush: BrushSettings::default() }
    }
}

} // verus!

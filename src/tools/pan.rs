use crate::document::{Document, PointerInput};
use crate::viewport::{apply_pan, panned, ImageTransformations, PAN_MAX_FRAME_MS};
use vstd::prelude::*;

verus! {

/// Settings of the pan tool (it has none yet).
#[derive(Debug, Clone, Copy, PartialEq, Eq, Structural)]
pub struct PanSettings {}

/// The transform after the pan tool sees `input`: a drag moves the image by
/// the pointer's motion, unless the frame took so long that the motion is
/// not to be trusted.
pub open spec fn pan_result(input: PointerInput, t: ImageTransformations) -> ImageTransformations {
    if input.dragging && input.frame_time_ms < PAN_MAX_FRAME_MS {
        panned(t, input.delta)
    } else {
        t
    }
}

/// Lets the pan tool act on one frame of input.
pub fn handle_input(input: &PointerInput, doc: &mut Document)
    requires
        old(doc).wf(),
    ensures
        final(doc).wf(),
        final(doc).image_relative_pos == pan_result(*input, old(doc).image_relative_pos),
        final(doc).image == old(doc).image,
        final(doc).tools == old(doc).tools,
        final(doc).colors == old(doc).colors,
        final(doc).windows == old(doc).windows,
{
    if input.dragging && input.frame_time_ms < PAN_MAX_FRAME_MS {
        apply_pan(&mut doc.image_relative_pos, input.delta);
    }
}

} // verus!

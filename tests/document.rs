use trametes::document::{Colors, Document, PointerInput, VisibleWindows};
use trametes::math::SUB;
use trametes::pixel_buffer::PixelBuffer;
use trametes::tools::Tool;
use trametes::viewport::{ImageTransformations, Pos, Rect, SCALE_ONE};

fn panel() -> Rect {
    Rect::new(0, 0, 800 * SUB, 600 * SUB)
}

fn still(pos: Option<Pos>) -> PointerInput {
    PointerInput {
        interact_pos: pos,
        any_down: false,
        dragging: false,
        delta: Pos { x: 0, y: 0 },
        frame_time_ms: 16,
        zoom_delta: SCALE_ONE,
    }
}

#[test]
fn defaults() {
    let w = VisibleWindows::default();
    assert!(w.tools && w.colors && w.history && w.layers);
    let c = Colors::default();
    assert_eq!(c.primary, [0, 0, 0, 255]);
    assert_eq!(c.secondary, [255, 255, 255, 255]);
    let d = Document::new();
    assert_eq!(d.tools.current_tool, Tool::Pan);
    assert_eq!(d.image_relative_pos, ImageTransformations::default());
    assert_eq!(Tool::Pan.name(), "Pan");
    assert_eq!(Tool::Brush.name(), "Brush");
}

#[test]
fn drag_pans_then_clamps() {
    let mut d = Document::new();
    let mut input = still(Some(Pos { x: 10, y: 10 }));
    input.dragging = true;
    input.delta = Pos { x: 500, y: -700 };
    d.process_input(&input, panel());
    assert_eq!(d.image_relative_pos.x_translation, 500);
    assert_eq!(d.image_relative_pos.y_translation, -700);
    input.delta = Pos { x: 10_000_000, y: 0 };
    d.process_input(&input, panel());
    assert_eq!(d.image_relative_pos.x_translation, 153_600);
}

#[test]
fn slow_frame_does_not_pan() {
    let mut d = Document::new();
    let mut input = still(None);
    input.dragging = true;
    input.delta = Pos { x: 500, y: 500 };
    input.frame_time_ms = 1500;
    d.process_input(&input, panel());
    assert_eq!(d.image_relative_pos, ImageTransformations::default());
}

#[test]
fn brush_paints_under_pointer() {
    let mut d = Document::new();
    d.tools.current_tool = Tool::Brush;
    let mut input = still(Some(Pos { x: 400 * SUB, y: 300 * SUB }));
    d.process_input(&input, panel());
    assert!(d.image.pixels.iter().all(|&v| v == 255));
    input.any_down = true;
    d.process_input(&input, panel());
    let i = d.image.pixel_index(399, 299);
    assert_eq!(&d.image.pixels[i..i + 4], &[0, 0, 0, 255]);
}

#[test]
fn zoom_about_pointer_in_panel() {
    let mut d = Document::new();
    let mut input = still(Some(Pos { x: 100 * SUB, y: 100 * SUB }));
    input.zoom_delta = 2 * SCALE_ONE;
    d.process_input(&input, panel());
    assert_eq!(d.image_relative_pos.scale, 2 * SCALE_ONE);
    assert_eq!(d.image_relative_pos.x_translation, 300 * SUB);
    assert_eq!(d.image_relative_pos.y_translation, 200 * SUB);
}

#[test]
fn replace_image_checks_size() {
    let mut d = Document::new();
    let bad = PixelBuffer { pixels: vec![0; 3], width: 1, height: 1 };
    assert!(!d.replace_image(bad));
    assert_eq!(d.image.width, 800);
    let good = PixelBuffer::filled(2, 3, [1, 2, 3, 4]);
    assert!(d.replace_image(good));
    assert_eq!((d.image.width, d.image.height), (2, 3));
    d.new_image();
    assert_eq!((d.image.width, d.image.height), (800, 600));
}

#[test]
fn new_document_is_white_default_image() {
    let d = Document::new();
    assert_eq!((d.image.width, d.image.height), (800, 600));
    assert!(d.image.pixels.iter().all(|&v| v == 255));
    assert_eq!(d.tools.brush.diameter, 20 * SUB);
}

#[test]
fn pencil_sets_pixel_under_pointer() {
    let mut d = Document::new();
    d.tools.current_tool = Tool::Pencil;
    assert_eq!(Tool::Pencil.name(), "Pencil");
    let mut input = still(Some(Pos { x: 400 * SUB + 10, y: 300 * SUB + 10 }));
    input.any_down = true;
    d.process_input(&input, panel());
    let i = d.image.pixel_index(400, 300);
    assert_eq!(&d.image.pixels[i..i + 4], &[0, 0, 0, 255]);
    assert_eq!(d.image.pixels.iter().filter(|&&v| v != 255).count(), 3);
    assert_eq!(d.image_relative_pos, ImageTransformations::default());
}

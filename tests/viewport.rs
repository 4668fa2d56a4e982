use trametes::math::SUB;
use trametes::viewport::{
    apply_pan, clamp_image_to_bounds, image_to_screen_coords, screen_to_image_coords, zoom_image,
    ImageTransformations, Pos, Rect, SCALE_ONE,
};

fn panel() -> Rect {
    Rect::new(0, 0, 800 * SUB, 600 * SUB)
}

const SIZE: (usize, usize) = (800, 600);

#[test]
fn default_transform_fills_matching_panel() {
    let t = ImageTransformations::default();
    assert_eq!(t, ImageTransformations { x_translation: 0, y_translation: 0, scale: SCALE_ONE });
    assert_eq!(image_to_screen_coords(Pos { x: 0, y: 0 }, &t, SIZE, panel()), Some(Pos { x: 0, y: 0 }));
    assert_eq!(
        image_to_screen_coords(Pos { x: 800 * SUB, y: 600 * SUB }, &t, SIZE, panel()),
        Some(Pos { x: 800 * SUB, y: 600 * SUB })
    );
    let p = Pos { x: 100 * SUB, y: 100 * SUB };
    assert_eq!(screen_to_image_coords(p, &t, SIZE, panel()), Some(p));
}

#[test]
fn degenerate_transforms_give_none() {
    let t = ImageTransformations { x_translation: 0, y_translation: 0, scale: 0 };
    let p = Pos { x: 5, y: 5 };
    assert_eq!(screen_to_image_coords(p, &t, SIZE, panel()), None);
    let t = ImageTransformations::default();
    assert_eq!(screen_to_image_coords(p, &t, (0, 600), panel()), None);
    assert_eq!(image_to_screen_coords(p, &t, (800, 0), panel()), None);
}

#[test]
fn round_trip_lands_at_or_just_below_start() {
    let t = ImageTransformations { x_translation: 1234, y_translation: -50, scale: 98304 };
    let p = Pos { x: 12345, y: -777 };
    let s = image_to_screen_coords(p, &t, SIZE, panel()).unwrap();
    assert_eq!(s.x, -31449);
    let q = screen_to_image_coords(s, &t, SIZE, panel()).unwrap();
    assert_eq!(q.x, 12344);
    assert!(q.x <= p.x && (p.x - q.x) * (t.scale as i64) < SCALE_ONE as i64 + t.scale as i64);
    assert!(q.y <= p.y && (p.y - q.y) * (t.scale as i64) < SCALE_ONE as i64 + t.scale as i64);
}

#[test]
fn zoom_keeps_point_under_cursor() {
    let mut t = ImageTransformations::default();
    let origin = Pos { x: 100 * SUB, y: 100 * SUB };
    let before = screen_to_image_coords(origin, &t, SIZE, panel()).unwrap();
    zoom_image(2 * SCALE_ONE, origin, &mut t, SIZE, panel());
    assert_eq!(t.scale, 2 * SCALE_ONE);
    let after = screen_to_image_coords(origin, &t, SIZE, panel()).unwrap();
    assert_eq!(after, before);
    assert_eq!(after, Pos { x: 100 * SUB, y: 100 * SUB });
}

#[test]
fn zoom_by_one_changes_nothing() {
    let mut t = ImageTransformations { x_translation: 77, y_translation: -3, scale: 12345 };
    zoom_image(SCALE_ONE, Pos { x: 1, y: 2 }, &mut t, SIZE, panel());
    assert_eq!(t, ImageTransformations { x_translation: 77, y_translation: -3, scale: 12345 });
}

#[test]
fn zoom_scale_is_clamped() {
    let mut t = ImageTransformations::default();
    let c = Pos { x: 400 * SUB, y: 300 * SUB };
    zoom_image(u64::MAX, c, &mut t, SIZE, panel());
    // Half the shorter side, 300 points, per pixel.
    assert_eq!(t.scale, 300 * SCALE_ONE);
    for _ in 0..50 {
        zoom_image(SCALE_ONE / 2, c, &mut t, SIZE, panel());
    }
    // Half the scale at which the image just fits.
    assert_eq!(t.scale, SCALE_ONE / 2);
}

#[test]
fn panning_far_pins_translation_at_bound() {
    let mut t = ImageTransformations::default();
    for _ in 0..10 {
        apply_pan(&mut t, Pos { x: 100_000, y: 100_000 });
    }
    assert_eq!(t.x_translation, 1_000_000);
    clamp_image_to_bounds(&mut t, SIZE, panel());
    assert_eq!(t.x_translation, 153_600);
    assert_eq!(t.y_translation, 115_200);
    for _ in 0..10 {
        apply_pan(&mut t, Pos { x: -100_000, y: -100_000 });
    }
    clamp_image_to_bounds(&mut t, SIZE, panel());
    assert_eq!(t.x_translation, -153_600);
    assert_eq!(t.y_translation, -115_200);
}

#[test]
fn clamp_keeps_translation_in_range() {
    let mut t = ImageTransformations { x_translation: 1000, y_translation: -2000, scale: SCALE_ONE };
    clamp_image_to_bounds(&mut t, SIZE, panel());
    assert_eq!(t, ImageTransformations { x_translation: 1000, y_translation: -2000, scale: SCALE_ONE });
}

#[test]
fn clamped_image_keeps_a_quarter_in_view() {
    let mut t = ImageTransformations { x_translation: i64::MAX / 4, y_translation: 0, scale: SCALE_ONE };
    clamp_image_to_bounds(&mut t, SIZE, panel());
    let left = image_to_screen_coords(Pos { x: 0, y: 0 }, &t, SIZE, panel()).unwrap();
    // The image's left edge sits at three quarters of the panel.
    assert_eq!(left.x, 600 * SUB);
}

#[test]
fn rect_contains_and_center() {
    let r = Rect::new(10, 20, 100, 50);
    assert!(r.contains(Pos { x: 10, y: 20 }));
    assert!(r.contains(Pos { x: 110, y: 70 }));
    assert!(!r.contains(Pos { x: 111, y: 70 }));
    assert_eq!(r.center(), Pos { x: 60, y: 45 });
}

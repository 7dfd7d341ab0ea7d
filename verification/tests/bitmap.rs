use underkate::geometry::{Box2, OnScreen, Point2, TranslationContext};
use underkate::pass_map::Bitmap;

#[test]
fn dimensions_are_kept() {
    let bitmap = Bitmap::new(3, 2, &[1, 1, 1, 1, 1, 1]);
    assert_eq!(bitmap.width(), 3);
    assert_eq!(bitmap.height(), 2);
}

#[test]
fn a_zero_byte_marks_an_occupied_pixel() {
    // Row-major 3x3 grid with only the centre occupied.
    let bitmap = Bitmap::new(3, 3, &[1, 1, 1, 1, 0, 1, 1, 1, 1]);
    assert!(bitmap.pixel_occupied(1, 1));
    assert!(!bitmap.pixel_occupied(0, 0));
    assert!(!bitmap.pixel_occupied(2, 2));
}

#[test]
fn rect_occupied_scans_the_half_open_rectangle() {
    let bitmap = Bitmap::new(3, 3, &[1, 1, 1, 1, 0, 1, 1, 1, 1]);

    // Covers pixels (0..2) x (0..2), among them the occupied centre.
    let with_centre = Box2::new(Point2::new(0, 0), Point2::new(2, 2));
    assert!(bitmap.rect_occupied(&with_centre));

    // Covers only pixel (0, 0), which is passable.
    let corner = Box2::new(Point2::new(0, 0), Point2::new(1, 1));
    assert!(!bitmap.rect_occupied(&corner));

    // An empty rectangle covers no pixel at all.
    let empty = Box2::new(Point2::new(1, 1), Point2::new(1, 1));
    assert!(!bitmap.rect_occupied(&empty));
}

#[test]
fn overworld_points_translate_onto_the_screen() {
    let translation = TranslationContext;
    let point = Point2::new(7u32, 9u32);
    let on_screen = translation.to_screen(point);
    assert_eq!(on_screen.x, 7);
    assert_eq!(on_screen.y, 9);
    let raw: [u32; 2] = on_screen.on_screen();
    assert_eq!(raw, [7, 9]);
}

use rusty_sdfs::field::{Direction, PixelProperties, PixelPropertyCanvas, LIGHTNESS_ONE};
use rusty_sdfs::registry::Point;

fn lit_pixel(lightness: u32, angle: u16, depth: u32) -> PixelProperties {
    PixelProperties {
        lightness: Some(lightness),
        direction: Some(Direction { angle, ux: 16384, uy: 0 }),
        depth: Some(depth),
        bg_hsl: (10, 20, 30),
        is_shaded: true,
        is_hatched: false,
    }
}

#[test]
fn new_canvas_has_no_data() {
    let c = PixelPropertyCanvas::new(4, 3);
    assert_eq!((c.width(), c.height()), (4, 3));
    assert!(c.pixel_value(&Point { x: 0, y: 0 }).is_none());
}

#[test]
fn lookup_floors_to_the_pixel() {
    let mut c = PixelPropertyCanvas::new(4, 3);
    c.set_pixel(2, 1, lit_pixel(700, 0, 55));
    let v = c.pixel_value(&Point { x: 2 * 256 + 255, y: 256 }).unwrap();
    assert_eq!((v.lightness, v.depth, v.bg_hsl), (700, 55, (10, 20, 30)));
    assert!(c.pixel_value(&Point { x: 3 * 256, y: 256 }).is_none());
    assert!(c.pixel_value(&Point { x: 2 * 256 - 1, y: 256 }).is_none());
}

#[test]
fn lookup_outside_is_none() {
    let mut c = PixelPropertyCanvas::new(2, 2);
    c.set_pixel(0, 0, lit_pixel(1, 0, 1));
    assert!(c.pixel_value(&Point { x: -1, y: 0 }).is_some() == false);
    assert!(c.pixel_value(&Point { x: 0, y: 512 }).is_none());
    assert!(c.pixel_value(&Point { x: 0, y: 0 }).is_some());
}

#[test]
fn any_missing_scalar_means_no_data() {
    let mut c = PixelPropertyCanvas::new(3, 1);
    let mut p = lit_pixel(500, 0, 9);
    p.direction = None;
    c.set_pixel(0, 0, p);
    let mut q = lit_pixel(500, 0, 9);
    q.lightness = None;
    c.set_pixel(1, 0, q);
    let mut r = lit_pixel(500, 0, 9);
    r.depth = None;
    c.set_pixel(2, 0, r);
    for x in 0..3 {
        assert!(c.pixel_value(&Point { x: x * 256 + 10, y: 10 }).is_none());
    }
}

#[test]
fn from_pixels_checks_length_and_ranges() {
    assert!(PixelPropertyCanvas::from_pixels(2, 2, vec![PixelProperties::empty(); 3]).is_none());
    assert!(PixelPropertyCanvas::from_pixels(2, 2, vec![PixelProperties::empty(); 4]).is_some());
    let too_bright = lit_pixel(LIGHTNESS_ONE + 1, 0, 0);
    assert!(PixelPropertyCanvas::from_pixels(1, 1, vec![too_bright]).is_none());
    let mut bad_dir = lit_pixel(10, 0, 0);
    bad_dir.direction = Some(Direction { angle: 0, ux: 20000, uy: 0 });
    assert!(!bad_dir.is_valid());
    assert!(PixelPropertyCanvas::from_pixels(1, 1, vec![bad_dir]).is_none());
}

use rusty_sdfs::leaves::{FallingLeaves, Leaf, DISPLAY_SIZE};

#[test]
fn new_leaf_is_parked_below_the_display() {
    let leaf = Leaf::new();
    assert_eq!((leaf.x, leaf.y), (0, 0xFF));
    assert!(!leaf.is_active());
}

#[test]
fn init_places_leaf_at_the_top() {
    let mut leaf = Leaf::new();
    leaf.init(0x1234_5677);
    assert_eq!((leaf.x, leaf.y), (7, 0));
    assert!(leaf.is_active());
}

#[test]
fn step_drifts_and_wraps() {
    let expected = [1u8, 1, 1, 1, 1, 15, 0, 0];
    for r in 0..8u32 {
        let mut leaf = Leaf { x: 0, y: 3 };
        leaf.step(r + 8 * 1000);
        assert_eq!((leaf.x, leaf.y), (expected[r as usize], 4));
    }
    let mut leaf = Leaf { x: 15, y: 15 };
    leaf.step(0);
    assert_eq!((leaf.x, leaf.y), (0, 16));
    assert!(!leaf.is_active());
}

#[test]
fn frames_light_only_pixels_on_the_display() {
    let mut anim = FallingLeaves::new();
    let mut seen = 0;
    for _ in 0..200 {
        let lit = anim.advance();
        assert!(lit.len() <= 11);
        for (x, y) in lit {
            assert!(x < DISPLAY_SIZE && y <= DISPLAY_SIZE);
            seen += 1;
        }
    }
    assert!(seen > 0);
}

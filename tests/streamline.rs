use rusty_sdfs::field::{Direction, PixelProperties, PixelPropertyCanvas};
use rusty_sdfs::registry::{Point, StreamlineRegistry};
use rusty_sdfs::render::{on_grid, on_jittered_grid, place_streamlines, render_flow_field_streamlines};
use rusty_sdfs::streamline::{flow_field_streamline, streamline_d_sep_from_lightness, StreamlineParams};

use rand_xoshiro::rand_core::SeedableRng;
use rand_xoshiro::Xoshiro128StarStar;

fn uniform(width: u32, height: u32, lightness: u32, depth_at: impl Fn(u32) -> u32) -> PixelPropertyCanvas {
    let mut c = PixelPropertyCanvas::new(width, height);
    for y in 0..height {
        for x in 0..width {
            c.set_pixel(
                x,
                y,
                PixelProperties {
                    lightness: Some(lightness),
                    direction: Some(Direction { angle: 0, ux: 16384, uy: 0 }),
                    depth: Some(depth_at(x)),
                    bg_hsl: (0, 0, 0),
                    is_shaded: true,
                    is_hatched: true,
                },
            );
        }
    }
    c
}

fn params() -> StreamlineParams {
    StreamlineParams {
        d_sep_min: 256,
        d_sep_max: 2560,
        d_test_factor: 819,
        d_step: 128,
        max_depth_step: 50,
        max_accum_angle: 8192,
        max_steps: 40,
        min_steps: 5,
    }
}

#[test]
fn separation_follows_the_cube_of_lightness() {
    assert_eq!(streamline_d_sep_from_lightness(100, 900, 0), 100);
    assert_eq!(streamline_d_sep_from_lightness(100, 900, 1024), 900);
    assert_eq!(streamline_d_sep_from_lightness(100, 900, 512), 200);
    assert_eq!(streamline_d_sep_from_lightness(256, 2560, 512), 544);
    assert_eq!(streamline_d_sep_from_lightness(7, 7, 300), 7);
}

#[test]
fn streamline_grows_both_ways_through_a_uniform_field() {
    let canvas = uniform(40, 30, 512, |_| 100);
    let reg = StreamlineRegistry::new(40 * 256, 30 * 256, 1280);
    let seed = Point { x: 2688, y: 3968 };
    let line = flow_field_streamline(&canvas, &reg, 0, &seed, &params()).unwrap();
    assert_eq!(line.len(), 41);
    assert_eq!(line[20], seed);
    assert_eq!(line[0], Point { x: 128, y: 3968 });
    assert_eq!(line[40], Point { x: 2688 + 20 * 128, y: 3968 });
    for w in line.windows(2) {
        assert_eq!(w[1].x - w[0].x, 128);
    }
}

#[test]
fn depth_jump_stops_the_branch() {
    let canvas = uniform(40, 30, 512, |x| if x < 20 { 100 } else { 200 });
    let reg = StreamlineRegistry::new(40 * 256, 30 * 256, 1280);
    let seed = Point { x: 2688, y: 3968 };
    let line = flow_field_streamline(&canvas, &reg, 0, &seed, &params()).unwrap();
    assert_eq!(line.len(), 39);
    assert_eq!(line[38], Point { x: 4992, y: 3968 });
}

#[test]
fn short_growth_is_rejected_and_leaves_the_registry_alone() {
    let canvas = uniform(3, 3, 512, |_| 100);
    let mut reg = StreamlineRegistry::new(3 * 256, 3 * 256, 1280);
    let seed = Point { x: 384, y: 384 };
    assert!(flow_field_streamline(&canvas, &reg, 0, &seed, &params()).is_none());
    assert_eq!(reg.next_streamline_id(), 1);
    assert!(reg.is_point_allowed(&seed, 2560, 2560, 0));
    let mut longer = params();
    longer.min_steps = 4;
    let line = flow_field_streamline(&canvas, &reg, 0, &seed, &longer).unwrap();
    assert_eq!(line.len(), 6);
    assert_eq!(reg.add_streamline(&line), 1);
}

#[test]
fn seed_without_data_or_too_close_is_rejected() {
    let canvas = uniform(40, 30, 512, |_| 100);
    let mut reg = StreamlineRegistry::new(40 * 256, 30 * 256, 1280);
    assert!(flow_field_streamline(&canvas, &reg, 0, &Point { x: -1, y: 10 }, &params()).is_none());
    reg.add_streamline(&vec![Point { x: 2688, y: 4200 }]);
    let seed = Point { x: 2688, y: 3968 };
    assert!(flow_field_streamline(&canvas, &reg, 0, &seed, &params()).is_none());
    // the exempted streamline only needs the relaxed separation: 544 * 819 / 1024 = 435
    assert!(flow_field_streamline(&canvas, &reg, 1, &seed, &params()).is_none());
    let mut reg2 = StreamlineRegistry::new(40 * 256, 30 * 256, 1280);
    let id = reg2.add_streamline(&vec![Point { x: 2688, y: 3968 + 500 }]);
    assert!(flow_field_streamline(&canvas, &reg2, 0, &seed, &params()).is_none());
    assert!(flow_field_streamline(&canvas, &reg2, id, &seed, &params()).is_some());
}

#[test]
fn grids_cover_the_area_row_by_row() {
    let origins = on_grid(100, 60, 4, 3);
    assert_eq!(origins.len(), 12);
    assert_eq!(origins[0], Point { x: 0, y: 0 });
    assert_eq!(origins[5], Point { x: 25, y: 20 });
    assert_eq!(origins[11], Point { x: 75, y: 40 });
    let mut rng = Xoshiro128StarStar::seed_from_u64(7);
    let seeds = on_jittered_grid(100, 60, 4, 3, &mut rng);
    assert_eq!(seeds.len(), 12);
    for (i, s) in seeds.iter().enumerate() {
        let (ix, iy) = ((i % 4) as i32, (i / 4) as i32);
        assert!(ix * 25 <= s.x && s.x < ix * 25 + 25);
        assert!(iy * 20 <= s.y && s.y < iy * 20 + 20);
    }
    assert!(on_grid(100, 60, 0, 3).is_empty());
}

#[test]
fn placement_is_deterministic_for_a_seed() {
    let canvas = uniform(40, 30, 300, |_| 100);
    let mut rng_a = Xoshiro128StarStar::seed_from_u64(42);
    let mut rng_b = Xoshiro128StarStar::seed_from_u64(42);
    let a = render_flow_field_streamlines(&canvas, &mut rng_a, 10, &params());
    let b = render_flow_field_streamlines(&canvas, &mut rng_b, 10, &params());
    assert_eq!(a, b);
    assert!(!a.is_empty());
    for line in &a {
        assert!(line.len() > 6);
    }
}

#[test]
fn flat_plane_from_above_places_parallel_lines_or_none() {
    // a plane seen straight down under an overhead light: uniform lightness
    // and depth everywhere
    let canvas = uniform(40, 30, 700, |_| 100);
    let mut rng = Xoshiro128StarStar::seed_from_u64(3);
    let lines = render_flow_field_streamlines(&canvas, &mut rng, 10, &params());
    assert!(!lines.is_empty());
    for line in &lines {
        assert!(line.iter().all(|p| p.y == line[0].y));
    }
    // with the light along the normal there is no tangent direction at all
    let mut degenerate = PixelPropertyCanvas::new(40, 30);
    for y in 0..30 {
        for x in 0..40 {
            degenerate.set_pixel(
                x,
                y,
                PixelProperties {
                    lightness: Some(700),
                    direction: None,
                    depth: Some(100),
                    bg_hsl: (0, 0, 0),
                    is_shaded: true,
                    is_hatched: true,
                },
            );
        }
    }
    let mut rng = Xoshiro128StarStar::seed_from_u64(3);
    assert!(render_flow_field_streamlines(&degenerate, &mut rng, 10, &params()).is_empty());
}

#[test]
fn placement_from_fixed_seeds_registers_parallel_neighbours() {
    let canvas = uniform(40, 30, 300, |_| 100);
    let seeds = vec![Point { x: 20 * 256, y: 15 * 256 }];
    let a = place_streamlines(&canvas, &seeds, &params());
    let b = place_streamlines(&canvas, &seeds, &params());
    assert_eq!(a, b);
    // the seed line first, then lines offered beside it
    assert_eq!(a[0][20], seeds[0]);
    assert!(a.len() > 1);
    let d = streamline_d_sep_from_lightness(256, 2560, 300) as i64;
    let d_test = d * 819 / 1024;
    for line in &a[1..] {
        for p in line {
            for q in &a[0] {
                let (dx, dy) = ((p.x - q.x) as i64, (p.y - q.y) as i64);
                assert!(dx * dx + dy * dy >= d_test * d_test);
            }
        }
    }
    assert!(place_streamlines(&canvas, &vec![Point { x: -5, y: 0 }], &params()).is_empty());
}

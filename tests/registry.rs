use rusty_sdfs::registry::{Point, StreamlineRegistry};

fn pt(x: i32, y: i32) -> Point {
    Point { x, y }
}

fn brute_force(
    lines: &[(u32, Vec<Point>)],
    p: &Point,
    d_sep: u32,
    d_sep_relaxed: u32,
    relaxed_id: u32,
) -> bool {
    for (id, line) in lines {
        for q in line {
            let dx = (p.x - q.x) as i64;
            let dy = (p.y - q.y) as i64;
            let min_dist = if *id == relaxed_id { d_sep_relaxed } else { d_sep } as i64;
            if dx * dx + dy * dy < min_dist * min_dist {
                return false;
            }
        }
    }
    true
}

#[test]
fn identifiers_start_at_one_and_increase() {
    let mut reg = StreamlineRegistry::new(1000, 800, 50);
    assert_eq!(reg.next_streamline_id(), 1);
    let a = reg.add_streamline(&vec![pt(10, 10), pt(20, 10)]);
    let b = reg.add_streamline(&vec![pt(500, 500)]);
    let c = reg.add_streamline(&vec![]);
    assert_eq!((a, b, c), (1, 2, 3));
    assert_eq!(reg.next_streamline_id(), 4);
}

#[test]
fn point_closer_than_separation_is_rejected() {
    let mut reg = StreamlineRegistry::new(1000, 1000, 50);
    reg.add_streamline(&vec![pt(100, 100), pt(110, 100), pt(120, 100)]);
    assert!(!reg.is_point_allowed(&pt(120, 150), 60, 60, 0));
    assert!(reg.is_point_allowed(&pt(120, 160), 60, 60, 0));
    // exactly at the separation is allowed
    assert!(reg.is_point_allowed(&pt(180, 100), 60, 60, 0));
    assert!(!reg.is_point_allowed(&pt(179, 100), 60, 60, 0));
}

#[test]
fn exempted_streamline_uses_relaxed_separation() {
    let mut reg = StreamlineRegistry::new(1000, 1000, 50);
    let id = reg.add_streamline(&vec![pt(100, 100), pt(110, 100)]);
    assert!(!reg.is_point_allowed(&pt(110, 140), 60, 30, 0));
    assert!(reg.is_point_allowed(&pt(110, 140), 60, 30, id));
    assert!(!reg.is_point_allowed(&pt(110, 120), 60, 30, id));
}

#[test]
fn zero_separation_allows_everything() {
    let mut reg = StreamlineRegistry::new(100, 100, 10);
    reg.add_streamline(&vec![pt(5, 5)]);
    assert!(reg.is_point_allowed(&pt(5, 5), 0, 0, 0));
}

#[test]
fn query_outside_canvas_sees_points_near_the_edge() {
    let mut reg = StreamlineRegistry::new(100, 100, 10);
    reg.add_streamline(&vec![pt(0, 50), pt(99, 99)]);
    assert!(!reg.is_point_allowed(&pt(-5, 50), 10, 10, 0));
    assert!(reg.is_point_allowed(&pt(-10, 50), 10, 10, 0));
    assert!(!reg.is_point_allowed(&pt(104, 102), 10, 10, 0));
}

#[test]
fn grid_agrees_with_brute_force_search() {
    let (w, h) = (2000u32, 1500u32);
    let mut reg = StreamlineRegistry::new(w, h, 40);
    let mut lines: Vec<(u32, Vec<Point>)> = Vec::new();
    let mut state: u64 = 0x1234_5678;
    let mut next = || {
        state = state.wrapping_mul(6364136223846793005).wrapping_add(1442695040888963407);
        (state >> 33) as u32
    };
    for _ in 0..30 {
        let n = 1 + next() % 20;
        let line: Vec<Point> = (0..n)
            .map(|_| pt((next() % w) as i32, (next() % h) as i32))
            .collect();
        let id = reg.add_streamline(&line);
        lines.push((id, line));
    }
    for _ in 0..3000 {
        let p = pt((next() % (w + 200)) as i32 - 100, (next() % (h + 200)) as i32 - 100);
        let d_sep = next() % 200;
        let d_relaxed = next() % (d_sep + 1);
        let id = next() % 32;
        assert_eq!(
            reg.is_point_allowed(&p, d_sep, d_relaxed, id),
            brute_force(&lines, &p, d_sep, d_relaxed, id)
        );
    }
}

use buddhabrot::{escape_accepted, min_iters, HitGrid, Orbit};

fn run_orbit(w: u32, h: u32, max_iters: u32, pixels: &[(u32, u32)]) -> Orbit {
    let mut o = Orbit::new(w, h, max_iters);
    for &(x, y) in pixels {
        assert!(o.continues(true));
        o.visit(x, y);
    }
    o
}

#[test]
fn window_bounds() {
    assert_eq!(min_iters(50), 16);
    assert_eq!(min_iters(1000), 333);
    assert!(escape_accepted(16, 50));
    assert!(escape_accepted(49, 50));
    assert!(!escape_accepted(15, 50));
    assert!(!escape_accepted(50, 50));
}

#[test]
fn visit_skips_off_canvas_pixels() {
    let mut o = Orbit::new(4, 3, 10);
    assert!(o.visit(1, 2));
    assert!(!o.visit(4, 0));
    assert!(!o.visit(0, 3));
    assert!(o.visit(3, 0));
    assert_eq!(o.iters(), 4);
    assert_eq!(o.path_len(), 2);
    assert_eq!(o.point(0), (1, 2));
    assert_eq!(o.point(1), (3, 0));
}

#[test]
fn continues_stops_at_cap_or_escape() {
    let mut o = Orbit::new(4, 4, 2);
    assert!(!o.continues(false));
    assert!(o.continues(true));
    o.tick();
    o.tick();
    assert!(!o.continues(true));
    assert_eq!(o.path_len(), 0);
}

#[test]
fn commit_skips_first_pixel() {
    let mut g = HitGrid::new(5, 5);
    let o = run_orbit(5, 5, 6, &[(0, 0), (1, 1), (1, 1), (2, 3)]);
    assert!(o.accepted());
    assert!(g.commit(&o));
    assert_eq!(g.get(0, 0), 0);
    assert_eq!(g.get(1, 1), 2);
    assert_eq!(g.get(2, 3), 1);
    assert_eq!(g.max_hits(), 2);
}

#[test]
fn rejected_orbit_leaves_grid_unchanged() {
    let mut g = HitGrid::new(5, 5);
    // escape after one step: below the window of a cap of 6
    let o = run_orbit(5, 5, 6, &[(2, 2)]);
    assert!(!g.commit(&o));
    // never escaped: hit the cap
    let o = run_orbit(5, 5, 3, &[(2, 2), (3, 3), (4, 4)]);
    assert!(!g.commit(&o));
    // in the window but nothing recorded
    let o = run_orbit(5, 5, 6, &[(9, 9), (9, 9), (9, 9)]);
    assert!(!g.commit(&o));
    for x in 0..5 {
        for y in 0..5 {
            assert_eq!(g.get(x, y), 0);
        }
    }
    assert_eq!(g.max_hits(), 0);
}

#[test]
fn counts_never_decrease_and_max_tracks() {
    let mut g = HitGrid::new(6, 6);
    let runs: Vec<Vec<(u32, u32)>> = vec![
        vec![(0, 0), (1, 1), (2, 2)],
        vec![(5, 5), (2, 2), (2, 2), (3, 1)],
        vec![(4, 4)],
        vec![(1, 1), (0, 5), (0, 5), (0, 5), (2, 2)],
    ];
    let mut before = vec![0u32; 36];
    for r in &runs {
        let o = run_orbit(6, 6, 6, r);
        g.commit(&o);
        let mut top = 0;
        for x in 0..6u32 {
            for y in 0..6u32 {
                let c = g.get(x, y);
                assert!(c >= before[(x * 6 + y) as usize]);
                before[(x * 6 + y) as usize] = c;
                top = top.max(c);
            }
        }
        assert_eq!(g.max_hits(), top);
    }
    assert_eq!(g.get(2, 2), 4);
    assert_eq!(g.get(0, 5), 3);
}

#[test]
fn single_sample_scenario() {
    // 100 by 100 canvas, cap 50, window [16, 50)
    let accepted: Vec<(u32, u32)> = (0..20u32).map(|i| (40 + i, 50 + i / 2)).collect();
    let mut g = HitGrid::new(100, 100);
    let o = run_orbit(100, 100, 50, &accepted);
    assert!(g.commit(&o));
    let nonzero = (0..100u32)
        .flat_map(|x| (0..100u32).map(move |y| (x, y)))
        .filter(|&(x, y)| g.get(x, y) > 0)
        .count();
    assert!(nonzero > 0);
    assert_eq!(g.get(40, 50), 0);
    assert_eq!(g.get(41, 50), 1);

    let mut g2 = HitGrid::new(100, 100);
    let o2 = run_orbit(100, 100, 50, &accepted[..5]);
    assert!(!g2.commit(&o2));
    for x in 0..100 {
        for y in 0..100 {
            assert_eq!(g2.get(x, y), 0);
        }
    }
}

#[test]
fn intensities_row_major() {
    let mut g = HitGrid::new(3, 2);
    let o = {
        let mut o = Orbit::new(3, 2, 12);
        for &(x, y) in &[(0, 0), (2, 1), (2, 1), (2, 1), (2, 1), (2, 1), (2, 1), (2, 1), (2, 1), (1, 0)] {
            o.visit(x, y);
        }
        o
    };
    assert!(g.commit(&o));
    let img = g.intensities();
    assert_eq!(img.len(), 6);
    // (2, 1) holds 8 hits, the maximum; (1, 0) holds 1 of 8
    assert_eq!(img[1 * 3 + 2], 255);
    assert_eq!(img[0 * 3 + 1], 128);
    assert_eq!(img[0], 0);
}

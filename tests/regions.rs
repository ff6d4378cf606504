use buddhabrot::{pick_region, redraw, ImportanceGrid, PixelRect, Redraws, REGION_REDRAWS};

fn grid_with(res: usize, iters: impl Fn(usize, usize) -> u32) -> ImportanceGrid {
    let mut g = ImportanceGrid::new(res, 10, 10);
    for x in 0..res {
        for y in 0..res {
            g.mark(x, y, iters(x, y), 30);
        }
    }
    g
}

#[test]
fn every_probe_kept_gives_every_window() {
    let g = grid_with(6, |_, _| 20);
    assert_eq!(g.regions().len(), 25);
}

#[test]
fn no_probe_kept_gives_no_window() {
    // too fast, or never escaped
    let g = grid_with(6, |x, _| if x % 2 == 0 { 3 } else { 30 });
    assert!(g.regions().is_empty());
}

#[test]
fn one_mark_touches_its_windows() {
    let g = grid_with(4, |x, y| if (x, y) == (1, 2) { 10 } else { 0 });
    assert_eq!(g.weight(1, 2), 1);
    assert_eq!(g.weight(2, 1), 0);
    let r = g.regions();
    assert_eq!(
        r,
        vec![
            PixelRect { lx: 0, ux: 20, ly: 10, uy: 30 },
            PixelRect { lx: 0, ux: 20, ly: 20, uy: 40 },
            PixelRect { lx: 10, ux: 30, ly: 10, uy: 30 },
            PixelRect { lx: 10, ux: 30, ly: 20, uy: 40 },
        ]
    );
}

#[test]
fn tiny_grids_have_no_windows() {
    assert!(grid_with(1, |_, _| 20).regions().is_empty());
    assert!(ImportanceGrid::new(0, 10, 10).regions().is_empty());
}

#[test]
fn probe_pixels_are_cell_corners() {
    let g = ImportanceGrid::new(100, 10, 7);
    assert_eq!(g.probe_pixel(0, 0), (0, 0));
    assert_eq!(g.probe_pixel(3, 5), (30, 35));
    assert_eq!(g.probe_pixel(99, 99), (990, 693));
}

#[test]
fn pick_region_from_list() {
    let mut rng = rand::thread_rng();
    assert_eq!(pick_region(&mut rng, &Vec::new()), None);
    let list = vec![
        PixelRect { lx: 0, ux: 2, ly: 0, uy: 2 },
        PixelRect { lx: 5, ux: 7, ly: 1, uy: 3 },
    ];
    for _ in 0..50 {
        let r = pick_region(&mut rng, &list).unwrap();
        assert!(list.contains(&r));
    }
}

#[test]
fn limited_redraws_run_out() {
    let mut b = Redraws::Limited(REGION_REDRAWS);
    for _ in 0..5 {
        assert!(redraw(&mut b, true));
    }
    assert_eq!(b, Redraws::Limited(0));
    assert!(!redraw(&mut b, true));
    assert_eq!(b, Redraws::Limited(0));
}

#[test]
fn redraw_only_when_cullable() {
    let mut b = Redraws::Limited(2);
    assert!(!redraw(&mut b, false));
    assert_eq!(b, Redraws::Limited(2));
    let mut u = Redraws::Unlimited;
    for _ in 0..100 {
        assert!(redraw(&mut u, true));
    }
    assert!(!redraw(&mut u, false));
    assert_eq!(u, Redraws::Unlimited);
}

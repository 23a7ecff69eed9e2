use wad_viewer::frame::render_frame;
use wad_viewer::overview::render_linedef;
use wad_viewer::raster::{Screen, BACKGROUND, WHITE};
use wad_viewer::view::{
    clip_segment, div_toward_zero, perspective_render, project, view_point, Projection, Viewer, ONE,
};
use wad_viewer::wad::{LineDef, Vertex};

fn lit(buf: &[u32], w: usize) -> Vec<(usize, usize)> {
    let mut v = Vec::new();
    for (i, c) in buf.iter().enumerate() {
        if *c != BACKGROUND {
            v.push((i % w, i / w));
        }
    }
    v
}

fn facing_north() -> Viewer {
    Viewer { x: 0, y: 0, cos: ONE, sin: 0 }
}

#[test]
fn truncating_division() {
    assert_eq!(div_toward_zero(-7, 2), -3);
    assert_eq!(div_toward_zero(7, -2), -3);
    assert_eq!(div_toward_zero(-7, -2), 3);
    assert_eq!(div_toward_zero(6, 3), 2);
    assert_eq!(div_toward_zero(0, -5), 0);
}

#[test]
fn view_transform_translates_scales_rotates() {
    let p = Projection { scale: 2, near: 1, focal: 10, wall: 10 };
    let v = Viewer { x: 10, y: 20, cos: 0, sin: ONE };
    assert_eq!(view_point(p, v, Vertex { x: 11, y: 20 }), (0, 131072));
    assert_eq!(view_point(p, v, Vertex { x: 10, y: 23 }), (-393216, 0));
    let q = Projection { scale: 1, ..p };
    assert_eq!(view_point(q, facing_north(), Vertex { x: -4, y: 9 }), (-4 * 65536, 9 * 65536));
}

#[test]
fn clip_at_plane_is_identity() {
    let a = (0i64, 65536i64);
    let b = (0i64, 6553600i64);
    assert_eq!(clip_segment(65536, a, b), Some((a, b)));
    assert_eq!(clip_segment(65536, b, a), Some((b, a)));
}

#[test]
fn clip_moves_back_end_to_plane() {
    assert_eq!(clip_segment(100, (-100, 0), (100, 200)), Some(((0, 100), (100, 200))));
    assert_eq!(clip_segment(100, (100, 200), (-100, 0)), Some(((100, 200), (0, 100))));
    assert_eq!(clip_segment(10, (0, 0), (7, 30)), Some(((2, 10), (7, 30))));
}

#[test]
fn clip_culls_hidden_segment() {
    assert_eq!(clip_segment(100, (-5, 100), (5, -20)), None);
    assert_eq!(clip_segment(100, (1, 100), (2, 100)), None);
}

#[test]
fn projection_of_points() {
    let p = Projection { scale: 1, near: 1, focal: 100, wall: 10 };
    let s = Screen::new(64, 48);
    assert_eq!(project(p, s, (50, 100)), (82, 2));
    assert_eq!(project(p, s, (-50, 100)), (-18, 2));
    assert_eq!(project(p, s, (-1, 300)), (32, 0));
}

#[test]
fn wall_on_near_plane_fills_one_column() {
    let s = Screen::new(64, 48);
    let p = Projection { scale: 1, near: 65536, focal: 32, wall: 65536 };
    let vs = vec![Vertex { x: 0, y: 1 }, Vertex { x: 0, y: 100 }];
    let mut b = vec![0x55u32; 64 * 48];
    perspective_render(s, &mut b, p, facing_north(), &vs, vec![LineDef { start_vertex: 0, end_vertex: 1 }]);
    let px = lit(&b, 64);
    assert_eq!(px.len(), 48);
    assert!(px.iter().all(|&(x, _)| x == 32));
    assert!(b.iter().all(|c| *c == WHITE || *c == BACKGROUND));
}

#[test]
fn wall_behind_viewer_draws_nothing() {
    let s = Screen::new(32, 24);
    let p = Projection { scale: 1, near: 65536, focal: 16, wall: 65536 };
    let vs = vec![Vertex { x: -5, y: -3 }, Vertex { x: 5, y: -3 }, Vertex { x: 5, y: 1 }];
    let mut b = vec![0x77u32; 32 * 24];
    perspective_render(
        s,
        &mut b,
        p,
        facing_north(),
        &vs,
        vec![LineDef { start_vertex: 0, end_vertex: 1 }, LineDef { start_vertex: 1, end_vertex: 2 }],
    );
    assert!(b.iter().all(|c| *c == BACKGROUND));
}

#[test]
fn wall_ahead_is_drawn_between_its_columns() {
    let s = Screen::new(32, 24);
    let p = Projection { scale: 1, near: 65536, focal: 16, wall: 65536 };
    let vs = vec![Vertex { x: -4, y: 8 }, Vertex { x: 4, y: 8 }];
    let mut b = vec![BACKGROUND; 32 * 24];
    perspective_render(s, &mut b, p, facing_north(), &vs, vec![LineDef { start_vertex: 0, end_vertex: 1 }]);
    let px = lit(&b, 32);
    // columns 16 - 8 = 8 through 16 + 8 = 24; half-height 12 / 8 = 1, rows 11..=13
    assert_eq!(px.len(), 17 * 3);
    assert!(px.iter().all(|&(x, y)| (8..=24).contains(&x) && (11..=13).contains(&y)));
}

#[test]
fn reversed_wall_fills_the_same_columns() {
    let s = Screen::new(32, 24);
    let p = Projection { scale: 1, near: 65536, focal: 16, wall: 65536 };
    let vs = vec![Vertex { x: -4, y: 8 }, Vertex { x: 4, y: 8 }];
    let mut fwd = vec![BACKGROUND; 32 * 24];
    perspective_render(s, &mut fwd, p, facing_north(), &vs, vec![LineDef { start_vertex: 0, end_vertex: 1 }]);
    let mut rev = vec![BACKGROUND; 32 * 24];
    perspective_render(s, &mut rev, p, facing_north(), &vs, vec![LineDef { start_vertex: 1, end_vertex: 0 }]);
    assert_eq!(lit(&rev, 32).len(), 17 * 3);
    assert_eq!(lit(&rev, 32), lit(&fwd, 32));
}

#[test]
fn near_plane_wall_running_right_to_left() {
    let s = Screen::new(32, 24);
    let p = Projection { scale: 1, near: 65536, focal: 16, wall: 65536 };
    // the first end lies exactly on the near plane and projects to column 32,
    // the second far ahead projects to column 16
    let vs = vec![Vertex { x: 1, y: 1 }, Vertex { x: -1, y: 100 }];
    let mut b = vec![BACKGROUND; 32 * 24];
    perspective_render(s, &mut b, p, facing_north(), &vs, vec![LineDef { start_vertex: 0, end_vertex: 1 }]);
    let px = lit(&b, 32);
    let mut cols: Vec<usize> = px.iter().map(|&(x, _)| x).collect();
    cols.sort();
    cols.dedup();
    assert_eq!(cols, (16..=31).collect::<Vec<usize>>());
    // half-height 12 at the near end, shrinking toward the far end
    assert_eq!(px.iter().filter(|&&(x, _)| x == 31).count(), 24);
    assert_eq!(px.iter().filter(|&&(x, _)| x == 16).count(), 1);
    assert!(px.iter().any(|&(x, y)| x == 16 && y == 12));
}

#[test]
fn bad_indices_are_skipped() {
    let s = Screen::new(16, 16);
    let p = Projection { scale: 1, near: 65536, focal: 8, wall: 65536 };
    let vs = vec![Vertex { x: -4, y: 8 }];
    let mut b = vec![BACKGROUND; 256];
    perspective_render(s, &mut b, p, facing_north(), &vs, vec![LineDef { start_vertex: 0, end_vertex: 3 }]);
    assert!(lit(&b, 16).is_empty());
}

struct Lcg(u64);

impl Lcg {
    fn next(&mut self) -> u64 {
        self.0 = self.0.wrapping_mul(6364136223846793005).wrapping_add(1442695040888963407);
        self.0 >> 33
    }
    fn range(&mut self, lo: i64, hi: i64) -> i64 {
        lo + (self.next() % ((hi - lo + 1) as u64)) as i64
    }
}

#[test]
fn random_geometry_stays_in_bounds() {
    let mut r = Lcg(12345);
    for _ in 0..150 {
        let w = r.range(1, 40) as usize;
        let h = r.range(1, 40) as usize;
        let s = Screen::new(w, h);
        let p = Projection {
            scale: r.range(1, 256),
            near: r.range(1, 1 << 20),
            focal: r.range(0, 65536),
            wall: r.range(0, 1 << 30),
        };
        let v = Viewer {
            x: r.range(-32768, 32767) as i16,
            y: r.range(-32768, 32767) as i16,
            cos: r.range(-65536, 65536) as i32,
            sin: r.range(-65536, 65536) as i32,
        };
        let n = r.range(0, 8) as usize;
        let mut vs = Vec::new();
        for _ in 0..n {
            vs.push(Vertex { x: r.range(-32768, 32767) as i16, y: r.range(-32768, 32767) as i16 });
        }
        let mut ls = Vec::new();
        for _ in 0..r.range(0, 10) {
            ls.push(LineDef { start_vertex: r.range(0, 9) as u16, end_vertex: r.range(0, 9) as u16 });
        }
        let mut b = vec![0x42u32; w * h];
        perspective_render(s, &mut b, p, v, &vs, ls.clone());
        assert_eq!(b.len(), w * h);
        assert!(b.iter().all(|c| *c == WHITE || *c == BACKGROUND));
        let mut c = vec![0x42u32; w * h];
        render_linedef(s, &mut c, &vs, ls);
        assert_eq!(c.len(), w * h);
        assert!(c.iter().all(|x| *x == WHITE || *x == BACKGROUND));
    }
}

#[test]
fn frame_follows_the_mode() {
    let s = Screen::new(32, 24);
    let p = Projection { scale: 1, near: 65536, focal: 16, wall: 65536 };
    let vs = vec![Vertex { x: -4, y: 8 }, Vertex { x: 4, y: 8 }];
    let ls = vec![LineDef { start_vertex: 0, end_vertex: 1 }];
    let mut a = vec![9u32; 32 * 24];
    let mut b = vec![9u32; 32 * 24];
    render_frame(s, &mut a, p, facing_north(), &vs, ls.clone(), true);
    render_linedef(s, &mut b, &vs, ls.clone());
    assert_eq!(a, b);
    render_frame(s, &mut a, p, facing_north(), &vs, ls.clone(), false);
    perspective_render(s, &mut b, p, facing_north(), &vs, ls);
    assert_eq!(a, b);
    assert_eq!(lit(&a, 32).len(), 17 * 3);
}

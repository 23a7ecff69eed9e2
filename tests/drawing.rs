use wad_viewer::overview::{fit_vertices, render_linedef, Fit};
use wad_viewer::raster::{clear_buffer, draw_line, pixel, render, Screen, BACKGROUND, WHITE};
use wad_viewer::wad::{DoomEngine, LineDef, Vertex, WadData};

fn lit(buf: &[u32], w: usize) -> Vec<(usize, usize)> {
    let mut v = Vec::new();
    for (i, c) in buf.iter().enumerate() {
        if *c != BACKGROUND {
            v.push((i % w, i / w));
        }
    }
    v
}

#[test]
fn pixel_writes_palette_colours() {
    let s = Screen::new(4, 3);
    let mut b = vec![7u32; 12];
    pixel(s, 1, 2, 0, &mut b);
    pixel(s, 3, 0, 1, &mut b);
    pixel(s, 0, 0, 42, &mut b);
    assert_eq!(b[9], 0x000000);
    assert_eq!(b[3], 0xFFFFFF);
    assert_eq!(b[0], 0xFF0000);
    assert_eq!(b.iter().filter(|c| **c == 7).count(), 9);
}

#[test]
fn pixel_addresses_by_buffer_index() {
    let s = Screen::new(4, 3);
    let mut b = vec![7u32; 12];
    pixel(s, 5, 1, 1, &mut b);
    assert_eq!(b[9], 0xFFFFFF);
    assert_eq!(b.iter().filter(|c| **c == 7).count(), 11);
}

#[test]
fn steep_line_has_one_point_per_row() {
    let s = Screen::new(10, 10);
    let mut b = vec![BACKGROUND; 100];
    draw_line(s, &mut b, 1, 0, 4, 9, WHITE);
    let px = lit(&b, 10);
    assert_eq!(px.len(), 10);
    for (k, &(x, y)) in px.iter().enumerate() {
        assert_eq!(y, k);
        if k > 0 {
            assert!(x == px[k - 1].0 || x == px[k - 1].0 + 1);
        }
    }
    assert_eq!(px[0], (1, 0));
    assert_eq!(px[9], (4, 9));
}

#[test]
fn render_fills_test_pattern() {
    let s = Screen::new(120, 5);
    let mut b = vec![0u32; 600];
    render(s, &mut b);
    assert_eq!(b[0], 0x000000);
    assert_eq!(b[1], 0xFFFFFF);
    assert_eq!(b[2], 0xFF0000);
    assert_eq!(b[120], 0xFFFFFF);
    assert_eq!(b[99], 0xFF0000);
    assert_eq!(b[100], 0x000000);
    assert_eq!(b[120 + 99], 0x000000);
    assert_eq!(b[120 + 100], 0xFFFFFF);
}

#[test]
fn clear_overwrites_everything() {
    let mut b = vec![1u32, 2, 3, 4];
    clear_buffer(&mut b, 0xff000000);
    assert_eq!(b, vec![0xff000000; 4]);
    let mut e: Vec<u32> = Vec::new();
    clear_buffer(&mut e, 5);
    assert!(e.is_empty());
}

#[test]
fn horizontal_line() {
    let s = Screen::new(10, 4);
    let mut b = vec![BACKGROUND; 40];
    draw_line(s, &mut b, 2, 1, 6, 1, WHITE);
    assert_eq!(lit(&b, 10), vec![(2, 1), (3, 1), (4, 1), (5, 1), (6, 1)]);
}

#[test]
fn reversed_diagonal_line() {
    let s = Screen::new(5, 5);
    let mut b = vec![BACKGROUND; 25];
    draw_line(s, &mut b, 4, 4, 0, 0, WHITE);
    assert_eq!(lit(&b, 5), vec![(0, 0), (1, 1), (2, 2), (3, 3), (4, 4)]);
}

#[test]
fn shallow_line_steps_minor_axis_by_error() {
    let s = Screen::new(8, 3);
    let mut b = vec![BACKGROUND; 24];
    draw_line(s, &mut b, 0, 0, 6, 2, WHITE);
    assert_eq!(
        lit(&b, 8),
        vec![(0, 0), (1, 0), (2, 1), (3, 1), (4, 1), (5, 2), (6, 2)]
    );
}

#[test]
fn single_point_line() {
    let s = Screen::new(3, 3);
    let mut b = vec![BACKGROUND; 9];
    draw_line(s, &mut b, 1, 2, 1, 2, 0x123456);
    assert_eq!(b[7], 0x123456);
    assert_eq!(lit(&b, 3).len(), 1);
}

#[test]
fn line_off_screen_is_clipped() {
    let s = Screen::new(4, 4);
    let mut b = vec![BACKGROUND; 16];
    draw_line(s, &mut b, -3, 1, 10, 1, WHITE);
    assert_eq!(lit(&b, 4), vec![(0, 1), (1, 1), (2, 1), (3, 1)]);
    let mut c = vec![BACKGROUND; 16];
    draw_line(s, &mut c, -100, -100, -50, -3, WHITE);
    assert!(lit(&c, 4).is_empty());
}

#[test]
fn extreme_line_endpoints_do_not_overflow() {
    let s = Screen::new(2, 2);
    let mut b = vec![BACKGROUND; 4];
    draw_line(s, &mut b, i32::MIN, 0, i32::MIN + 3, 1, WHITE);
    assert!(lit(&b, 2).is_empty());
    draw_line(s, &mut b, 1, 0, 1, 40, WHITE);
    assert_eq!(lit(&b, 2), vec![(1, 0), (1, 1)]);
}

#[test]
fn fit_centres_picture() {
    let s = Screen::new(100, 100);
    let vs = vec![Vertex { x: 0, y: 0 }, Vertex { x: 10, y: 0 }, Vertex { x: 0, y: 10 }];
    let f = fit_vertices(s, &vs);
    assert_eq!(f, Fit { min_x: 0, min_y: 0, num: 900, den: 100, off_x: 5, off_y: 5 });
}

#[test]
fn fit_uses_smaller_axis_scale() {
    let s = Screen::new(200, 100);
    let vs = vec![Vertex { x: -10, y: -10 }, Vertex { x: 10, y: 10 }];
    let f = fit_vertices(s, &vs);
    assert_eq!((f.num, f.den), (900, 200));
    assert_eq!((f.off_x, f.off_y), (55, 5));
}

fn push_i32(out: &mut Vec<u8>, v: i32) {
    out.extend_from_slice(&v.to_le_bytes());
}

#[test]
fn end_to_end_overview() {
    let mut verts = Vec::new();
    for (x, y) in [(0i16, 0i16), (10, 0), (0, 10)] {
        verts.extend_from_slice(&x.to_le_bytes());
        verts.extend_from_slice(&y.to_le_bytes());
    }
    let mut lines = Vec::new();
    for (a, b) in [(0u16, 1u16), (1, 2)] {
        lines.extend_from_slice(&a.to_le_bytes());
        lines.extend_from_slice(&b.to_le_bytes());
        lines.extend_from_slice(&[0; 10]);
    }
    let mut data = Vec::new();
    data.extend_from_slice(b"TEST");
    push_i32(&mut data, 2);
    push_i32(&mut data, (12 + verts.len() + lines.len()) as i32);
    data.extend_from_slice(&verts);
    data.extend_from_slice(&lines);
    push_i32(&mut data, 12);
    push_i32(&mut data, verts.len() as i32);
    data.extend_from_slice(b"VERTEXES");
    push_i32(&mut data, 12 + verts.len() as i32);
    push_i32(&mut data, lines.len() as i32);
    data.extend_from_slice(b"LINEDEFS");

    let mut engine = DoomEngine::new("test.wad");
    assert_eq!(engine.load_wad(data, *b"TEST"), Ok(()));
    let level = WadData::new(engine);
    let vs = level.read_vertexes().unwrap();
    let ls = level.read_linedefs().unwrap();
    assert_eq!(vs.len(), 3);
    assert_eq!(ls.len(), 2);

    let s = Screen::new(100, 100);
    let mut b = vec![0xABCDEFu32; 100 * 100];
    render_linedef(s, &mut b, &vs, ls);
    assert_eq!(b.len(), 10000);
    assert!(b.iter().all(|c| *c == WHITE || *c == BACKGROUND));
    let mut expected = Vec::new();
    for x in 5..=95 {
        expected.push((x, 5));
    }
    for k in 0..=90 {
        expected.push((95 - k, 5 + k));
    }
    expected.sort_by_key(|&(x, y)| (y, x));
    expected.dedup();
    assert_eq!(expected.len(), 181);
    assert_eq!(lit(&b, 100), expected);
}

#[test]
fn overview_skips_bad_indices_and_empty_levels() {
    let s = Screen::new(20, 20);
    let vs = vec![Vertex { x: 0, y: 0 }, Vertex { x: 4, y: 4 }];
    let mut b = vec![7u32; 400];
    render_linedef(s, &mut b, &vs, vec![LineDef { start_vertex: 0, end_vertex: 9 }]);
    assert_eq!(lit(&b, 20).len(), 2);
    let mut c = vec![7u32; 400];
    render_linedef(s, &mut c, &Vec::new(), vec![LineDef { start_vertex: 0, end_vertex: 1 }]);
    assert!(c.iter().all(|p| *p == BACKGROUND));
}

#[test]
fn overview_single_vertex() {
    let s = Screen::new(10, 10);
    let vs = vec![Vertex { x: -7, y: 3 }];
    let mut b = vec![BACKGROUND; 100];
    render_linedef(s, &mut b, &vs, vec![LineDef { start_vertex: 0, end_vertex: 0 }]);
    assert_eq!(lit(&b, 10), vec![(5, 5)]);
}

//! The top-down overview: the level's vertices fitted into the screen with a
//! uniform scale, drawn as single pixels, and its wall lines drawn between them.

use vstd::prelude::*;
use crate::raster::{
    clear_buffer, covered, draw_line, lemma_plot_extends, line_points, painted, plot, Screen,
    BACKGROUND, WHITE,
};
use crate::wad::{LineDef, Vertex};

verus! {

/// The least element of a non-empty sequence.
pub open spec fn seq_min(s: Seq<int>) -> int
    decreases s.len(),
{
    if s.len() <= 1 {
        s[0]
    } else {
        let m = seq_min(s.drop_last());
        if s.last() < m {
            s.last()
        } else {
            m
        }
    }
}

/// The greatest element of a non-empty sequence.
pub open spec fn seq_max(s: Seq<int>) -> int
    decreases s.len(),
{
    if s.len() <= 1 {
        s[0]
    } else {
        let m = seq_max(s.drop_last());
        if s.last() > m {
            s.last()
        } else {
            m
        }
    }
}

/// The x coordinates of the vertices.
pub open spec fn xs(vs: Seq<Vertex>) -> Seq<int> {
    vs.map_values(|v: Vertex| v.x as int)
}

/// The y coordinates of the vertices.
pub open spec fn ys(vs: Seq<Vertex>) -> Seq<int> {
    vs.map_values(|v: Vertex| v.y as int)
}

/// The extent of the range from `lo` to `hi`, at least one.
pub open spec fn extent(lo: int, hi: int) -> int {
    if hi - lo >= 1 {
        hi - lo
    } else {
        1
    }
}

/// How the level's bounding box is fitted into the screen: a point at `(x, y)`
/// goes to `((x - min_x) * num / den + off_x, (y - min_y) * num / den + off_y)`.
#[derive(Debug, Clone, Copy, PartialEq, Eq, Structural)]
pub struct Fit {
    pub min_x: i64,
    pub min_y: i64,
    pub num: i64,
    pub den: i64,
    pub off_x: i64,
    pub off_y: i64,
}

/// The fit of the non-empty vertex set `vs` into screen `s`: the scale is nine
/// tenths of the smaller of the two axis scales, and the picture is centred.
pub open spec fn fit_of(s: Screen, vs: Seq<Vertex>) -> Fit {
    let lx = seq_min(xs(vs));
    let hx = seq_max(xs(vs));
    let ly = seq_min(ys(vs));
    let hy = seq_max(ys(vs));
    let ex = extent(lx, hx);
    let ey = extent(ly, hy);
    let by_width = s.width * ey <= s.height * ex;
    let num = 9 * (if by_width { s.width as int } else { s.height as int });
    let den = 10 * (if by_width { ex } else { ey });
    Fit {
        min_x: lx as i64,
        min_y: ly as i64,
        num: num as i64,
        den: den as i64,
        off_x: ((s.width * den - num * (hx - lx)) / (2 * den)) as i64,
        off_y: ((s.height * den - num * (hy - ly)) / (2 * den)) as i64,
    }
}

/// Where the fit puts vertex `v` on the screen.
pub open spec fn place(f: Fit, v: Vertex) -> (int, int) {
    (
        (v.x - f.min_x) * f.num / (f.den as int) + f.off_x,
        (v.y - f.min_y) * f.num / (f.den as int) + f.off_y,
    )
}

/// Whether `i` is a valid index into `vs`.
pub open spec fn has_vertex(vs: Seq<Vertex>, i: int) -> bool {
    0 <= i < vs.len()
}

/// Whether some vertex of `vs` is placed on the pixel stored at `i`.
pub open spec fn placed(s: Screen, vs: Seq<Vertex>, n: int, i: int) -> bool {
    exists|k: int| 0 <= k < n && #[trigger] place(fit_of(s, vs), vs[k]) == (s.col(i), s.row(i))
}

/// Whether both endpoints of `l` are vertices of `vs`.
pub open spec fn line_ok(vs: Seq<Vertex>, l: LineDef) -> bool {
    has_vertex(vs, l.start_vertex as int) && has_vertex(vs, l.end_vertex as int)
}

/// The points of the wall line `l` as the overview draws it.
pub open spec fn line_trace(s: Screen, vs: Seq<Vertex>, l: LineDef) -> Seq<(int, int)> {
    let f = fit_of(s, vs);
    let a = place(f, vs[l.start_vertex as int]);
    let b = place(f, vs[l.end_vertex as int]);
    line_points(a.0, a.1, b.0, b.1)
}

/// Whether one of the first `n` wall lines of `ls` passes through the pixel stored at `i`.
pub open spec fn traced(s: Screen, vs: Seq<Vertex>, ls: Seq<LineDef>, n: int, i: int) -> bool {
    exists|k: int|
        0 <= k < n && line_ok(vs, #[trigger] ls[k]) && covered(s, line_trace(s, vs, ls[k]), i)
}

/// Whether the overview of `vs` and `ls` lights the pixel stored at `i`: a
/// vertex is placed on it, or a wall line whose endpoints both exist passes
/// through it.
pub open spec fn overview_lit(s: Screen, vs: Seq<Vertex>, ls: Seq<LineDef>, i: int) -> bool {
    placed(s, vs, vs.len() as int, i) || traced(s, vs, ls, ls.len() as int, i)
}

/// The minimum of a non-empty sequence is at most each element, and the maximum
/// at least.
pub proof fn lemma_min_max_bound(s: Seq<int>, k: int)
    requires
        0 <= k < s.len(),
    ensures
        seq_min(s) <= s[k] <= seq_max(s),
    decreases s.len(),
{
    if s.len() > 1 && k < s.len() - 1 {
        lemma_min_max_bound(s.drop_last(), k);
    }
}

/// A prefix of one element more has its minimum and maximum updated by that element.
proof fn lemma_take_step(s: Seq<int>, i: int)
    requires
        0 < i < s.len(),
    ensures
        s.take(i + 1).drop_last() == s.take(i),
        s.take(i + 1).last() == s[i],
{
    assert(s.take(i + 1).drop_last() =~= s.take(i));
}

/// Computes the fit of the non-empty vertex set `vs` into `screen`.
pub fn fit_vertices(screen: Screen, vs: &Vec<Vertex>) -> (f: Fit)
    requires
        screen.wf(),
        vs@.len() > 0,
    ensures
        f == fit_of(screen, vs@),
        f.min_x == seq_min(xs(vs@)),
        f.min_y == seq_min(ys(vs@)),
        -32768 <= f.min_x <= 32767,
        -32768 <= f.min_y <= 32767,
        0 < f.num <= 9 * MAX_SCALE_DIM,
        10 <= f.den,
        0 <= f.off_x <= screen.width,
        0 <= f.off_y <= screen.height,
{
    let ghost sx = xs(vs@);
    let ghost sy = ys(vs@);
    let mut lx: i64 = vs[0].x as i64;
    let mut hx: i64 = vs[0].x as i64;
    let mut ly: i64 = vs[0].y as i64;
    let mut hy: i64 = vs[0].y as i64;
    assert(sx.take(1).len() == 1 && sx.take(1)[0] == sx[0]);
    assert(sy.take(1).len() == 1 && sy.take(1)[0] == sy[0]);
    let mut i: usize = 1;
    while i < vs.len()
        invariant
            1 <= i <= vs@.len(),
            sx == xs(vs@),
            sy == ys(vs@),
            lx == seq_min(sx.take(i as int)),
            hx == seq_max(sx.take(i as int)),
            ly == seq_min(sy.take(i as int)),
            hy == seq_max(sy.take(i as int)),
            -32768 <= lx <= hx <= 32767,
            -32768 <= ly <= hy <= 32767,
        decreases vs@.len() - i,
    {
        proof {
            lemma_take_step(sx, i as int);
            lemma_take_step(sy, i as int);
        }
        let v = vs[i];
        if (v.x as i64) < lx {
            lx = v.x as i64;
        }
        if (v.x as i64) > hx {
            hx = v.x as i64;
        }
        if (v.y as i64) < ly {
            ly = v.y as i64;
        }
        if (v.y as i64) > hy {
            hy = v.y as i64;
        }
        i = i + 1;
    }
    assert(sx.take(i as int) =~= sx);
    assert(sy.take(i as int) =~= sy);
    let ex: i64 = if hx - lx >= 1 { hx - lx } else { 1 };
    let ey: i64 = if hy - ly >= 1 { hy - ly } else { 1 };
    let w = screen.width as i64;
    let h = screen.height as i64;
    assert(0 < w * ey <= 16384 * 65535) by (nonlinear_arith)
        requires 0 < w <= 16384, 1 <= ey <= 65535;
    assert(0 < h * ex <= 16384 * 65535) by (nonlinear_arith)
        requires 0 < h <= 16384, 1 <= ex <= 65535;
    let by_width = w * ey <= h * ex;
    let num: i64 = 9 * (if by_width { w } else { h });
    let den: i64 = 10 * (if by_width { ex } else { ey });
    proof {
        lemma_margins(w as int, h as int, ex as int, ey as int, (hx - lx) as int, (hy - ly) as int);
    }
    let off_x = (w * den - num * (hx - lx)) / (2 * den);
    let off_y = (h * den - num * (hy - ly)) / (2 * den);
    proof {
        vstd::arithmetic::div_mod::lemma_div_is_ordered(w * den - num * (hx - lx), w * den, 2 * den);
        vstd::arithmetic::div_mod::lemma_div_is_ordered(h * den - num * (hy - ly), h * den, 2 * den);
        vstd::arithmetic::div_mod::lemma_div_pos_is_pos(w * den - num * (hx - lx), 2 * den);
        vstd::arithmetic::div_mod::lemma_div_pos_is_pos(h * den - num * (hy - ly), 2 * den);
        assert((w * den) / (2 * den) <= w) by {
            assert(w * den <= w * (2 * den)) by (nonlinear_arith)
                requires w > 0, den > 0;
            vstd::arithmetic::div_mod::lemma_div_is_ordered(w * den, w * (2 * den), 2 * den);
            vstd::arithmetic::div_mod::lemma_div_by_multiple(w as int, 2 * den);
        }
        assert((h * den) / (2 * den) <= h) by {
            assert(h * den <= h * (2 * den)) by (nonlinear_arith)
                requires h > 0, den > 0;
            vstd::arithmetic::div_mod::lemma_div_is_ordered(h * den, h * (2 * den), 2 * den);
            vstd::arithmetic::div_mod::lemma_div_by_multiple(h as int, 2 * den);
        }
    }
    Fit { min_x: lx, min_y: ly, num, den, off_x, off_y }
}

/// The largest screen dimension, as a bound on the scale numerator.
pub const MAX_SCALE_DIM: i64 = 16384;

/// The centring margins are never negative: the scaled picture fits the screen.
proof fn lemma_margins(w: int, h: int, ex: int, ey: int, spx: int, spy: int)
    requires
        0 < w <= 16384,
        0 < h <= 16384,
        0 <= spx <= ex,
        0 <= spy <= ey,
        1 <= ex <= 65535,
        1 <= ey <= 65535,
    ensures
        ({
            let by_width = w * ey <= h * ex;
            let num = 9 * (if by_width { w } else { h });
            let den = 10 * (if by_width { ex } else { ey });
            &&& w * den - num * spx >= 0
            &&& h * den - num * spy >= 0
            &&& w * den <= 16384 * 655350
            &&& h * den <= 16384 * 655350
            &&& num * spx <= 9 * 16384 * 65535
            &&& num * spy <= 9 * 16384 * 65535
        }),
{
    if w * ey <= h * ex {
        assert(w * (10 * ex) - 9 * w * spx >= 0) by (nonlinear_arith)
            requires 0 < w, 0 <= spx <= ex;
        assert(h * (10 * ex) - 9 * w * spy >= 0) by (nonlinear_arith)
            requires 0 < w, 0 < h, 0 <= spy <= ey, w * ey <= h * ex, 1 <= ex;
        assert(w * (10 * ex) <= 16384 * 655350) by (nonlinear_arith)
            requires 0 < w <= 16384, 1 <= ex <= 65535;
        assert(h * (10 * ex) <= 16384 * 655350) by (nonlinear_arith)
            requires 0 < h <= 16384, 1 <= ex <= 65535;
        assert(9 * w * spx <= 9 * 16384 * 65535) by (nonlinear_arith)
            requires 0 < w <= 16384, 0 <= spx <= 65535;
        assert(9 * w * spy <= 9 * 16384 * 65535) by (nonlinear_arith)
            requires 0 < w <= 16384, 0 <= spy <= 65535;
    } else {
        assert(w * (10 * ey) - 9 * h * spx >= 0) by (nonlinear_arith)
            requires 0 < w, 0 < h, 0 <= spx <= ex, w * ey > h * ex, 1 <= ey;
        assert(h * (10 * ey) - 9 * h * spy >= 0) by (nonlinear_arith)
            requires 0 < h, 0 <= spy <= ey;
        assert(w * (10 * ey) <= 16384 * 655350) by (nonlinear_arith)
            requires 0 < w <= 16384, 1 <= ey <= 65535;
        assert(h * (10 * ey) <= 16384 * 655350) by (nonlinear_arith)
            requires 0 < h <= 16384, 1 <= ey <= 65535;
        assert(9 * h * spx <= 9 * 16384 * 65535) by (nonlinear_arith)
            requires 0 < h <= 16384, 0 <= spx <= 65535;
        assert(9 * h * spy <= 9 * 16384 * 65535) by (nonlinear_arith)
            requires 0 < h <= 16384, 0 <= spy <= 65535;
    }
}


/// Draws the top-down overview of the level: the buffer is cleared, each vertex
/// is drawn as one white pixel where the fit places it, and each wall line whose
/// endpoint indices are both valid is drawn between its placed endpoints. Lines
/// with an invalid index are skipped.
pub fn render_linedef(
    screen: Screen,
    buffer: &mut Vec<u32>,
    world_objects: &Vec<Vertex>,
    linedefs: Vec<LineDef>,
)
    requires
        screen.wf(),
        old(buffer)@.len() == screen.size(),
    ensures
        final(buffer)@.len() == screen.size(),
        forall|i: int|
            0 <= i < screen.size() ==> final(buffer)@[i] == if overview_lit(
                screen,
                world_objects@,
                linedefs@,
                i,
            ) {
                WHITE
            } else {
                BACKGROUND
            },
{
    clear_buffer(buffer, BACKGROUND);
    let ghost vs = world_objects@;
    let ghost ls = linedefs@;
    let ghost blank = buffer@;
    let n = world_objects.len();
    if n == 0 {
        return;
    }
    let f = fit_vertices(screen, world_objects);
    let mut pts: Vec<(i32, i32)> = Vec::with_capacity(n);
    let mut k: usize = 0;
    proof {
        assert(painted(screen, buffer@, blank, Seq::empty(), WHITE));
    }
    while k < n
        invariant
            screen.wf(),
            n == vs.len(),
            vs == world_objects@,
            f == fit_of(screen, vs),
            k <= n,
            -32768 <= f.min_x <= 32767,
            -32768 <= f.min_y <= 32767,
            0 < f.num <= 9 * MAX_SCALE_DIM,
            10 <= f.den,
            0 <= f.off_x <= screen.width,
            0 <= f.off_y <= screen.height,
            f.min_x == seq_min(xs(vs)),
            f.min_y == seq_min(ys(vs)),
            blank.len() == screen.size(),
            forall|j: int| 0 <= j < blank.len() ==> blank[j] == BACKGROUND,
            pts@.len() == k,
            forall|j: int|
                0 <= j < k ==> pts@[j].0 as int == place(f, vs[j]).0 && pts@[j].1 as int == place(
                    f,
                    vs[j],
                ).1,
            painted(screen, buffer@, blank, Seq::new(k as nat, |j: int| place(f, vs[j])), WHITE),
        decreases n - k,
    {
        let v = world_objects[k];
        proof {
            assert(xs(vs)[k as int] == v.x);
            assert(ys(vs)[k as int] == v.y);
            lemma_min_max_bound(xs(vs), k as int);
            lemma_min_max_bound(ys(vs), k as int);
        }
        let rx = v.x as i64 - f.min_x;
        let ry = v.y as i64 - f.min_y;
        proof {
            assert(0 <= rx * f.num <= 65535 * (9 * MAX_SCALE_DIM)) by (nonlinear_arith)
                requires 0 <= rx <= 65535, 0 < f.num <= 9 * MAX_SCALE_DIM;
            assert(0 <= ry * f.num <= 65535 * (9 * MAX_SCALE_DIM)) by (nonlinear_arith)
                requires 0 <= ry <= 65535, 0 < f.num <= 9 * MAX_SCALE_DIM;
            vstd::arithmetic::div_mod::lemma_div_is_ordered_by_denominator(rx * f.num, 10, f.den as int);
            vstd::arithmetic::div_mod::lemma_div_is_ordered_by_denominator(ry * f.num, 10, f.den as int);
            vstd::arithmetic::div_mod::lemma_div_is_ordered(rx * f.num, 65535 * (9 * MAX_SCALE_DIM), 10);
            vstd::arithmetic::div_mod::lemma_div_is_ordered(ry * f.num, 65535 * (9 * MAX_SCALE_DIM), 10);
            vstd::arithmetic::div_mod::lemma_div_pos_is_pos(rx * f.num, f.den as int);
            vstd::arithmetic::div_mod::lemma_div_pos_is_pos(ry * f.num, f.den as int);
        }
        let px = rx * f.num / f.den + f.off_x;
        let py = ry * f.num / f.den + f.off_y;
        let ghost before = buffer@;
        let ghost prev = Seq::new(k as nat, |j: int| place(f, vs[j]));
        plot(screen, buffer, px, py, WHITE);
        proof {
            lemma_plot_extends(screen, before, buffer@, blank, prev, px as int, py as int, WHITE);
            assert(prev.push((px as int, py as int)) =~= Seq::new((k + 1) as nat, |j: int| place(f, vs[j])));
        }
        pts.push((px as i32, py as i32));
        k = k + 1;
    }
    proof {
        let all = Seq::new(n as nat, |j: int| place(f, vs[j]));
        assert forall|i: int| 0 <= i < screen.size() implies covered(screen, all, i) == placed(screen, vs, n as int, i) by {
            if covered(screen, all, i) {
                let j = choose|j: int| 0 <= j < all.len() && all[j] == (screen.col(i), screen.row(i));
                assert(place(fit_of(screen, vs), vs[j]) == (screen.col(i), screen.row(i)));
            }
            if placed(screen, vs, n as int, i) {
                let j = choose|j: int| 0 <= j < n && #[trigger] place(fit_of(screen, vs), vs[j]) == (screen.col(i), screen.row(i));
                assert(all[j] == (screen.col(i), screen.row(i)));
            }
        }
    }
    let mut m: usize = 0;
    while m < linedefs.len()
        invariant
            screen.wf(),
            n == vs.len(),
            vs == world_objects@,
            ls == linedefs@,
            f == fit_of(screen, vs),
            m <= ls.len(),
            pts@.len() == n,
            forall|j: int|
                0 <= j < n ==> pts@[j].0 as int == place(f, vs[j]).0 && pts@[j].1 as int == place(
                    f,
                    vs[j],
                ).1,
            buffer@.len() == screen.size(),
            forall|i: int|
                0 <= i < screen.size() ==> buffer@[i] == if placed(screen, vs, n as int, i) || traced(
                    screen,
                    vs,
                    ls,
                    m as int,
                    i,
                ) {
                    WHITE
                } else {
                    BACKGROUND
                },
        decreases ls.len() - m,
    {
        let l = linedefs[m];
        let ghost before = buffer@;
        if (l.start_vertex as usize) < n && (l.end_vertex as usize) < n {
            let a = pts[l.start_vertex as usize];
            let b = pts[l.end_vertex as usize];
            draw_line(screen, buffer, a.0, a.1, b.0, b.1, WHITE);
            proof {
                assert(line_trace(screen, vs, l) == line_points(a.0 as int, a.1 as int, b.0 as int, b.1 as int));
            }
        }
        proof {
            assert forall|i: int| 0 <= i < screen.size() implies buffer@[i] == if placed(screen, vs, n as int, i) || traced(
                screen,
                vs,
                ls,
                m + 1,
                i,
            ) {
                WHITE
            } else {
                BACKGROUND
            } by {
                if traced(screen, vs, ls, m + 1, i) && !traced(screen, vs, ls, m as int, i) {
                    let k = choose|k: int| 0 <= k < m + 1 && line_ok(vs, #[trigger] ls[k]) && covered(screen, line_trace(screen, vs, ls[k]), i);
                    assert(k == m);
                }
                if line_ok(vs, l) && covered(screen, line_trace(screen, vs, l), i) {
                    assert(ls[m as int] == l);
                }
            }
        }
        m = m + 1;
    }
}

} // verus!

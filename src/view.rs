//! The first-person view: level-space wall lines are moved into view space,
//! clipped against the near plane, projected onto screen columns and filled
//! as vertical spans. All arithmetic is exact integer arithmetic: the facing
//! direction is given as cosine and sine scaled by `ONE`.

use vstd::prelude::*;
use crate::raster::{abs, lemma_coords, lemma_index, lemma_size_bound, Screen, BACKGROUND, WHITE};
use crate::wad::{LineDef, Vertex};
use crate::overview::line_ok;
use crate::raster::clear_buffer;

verus! {

/// The fixed-point unit of the facing direction's cosine and sine.
pub const ONE: i32 = 65536;

/// The largest world-to-view scale factor.
pub const MAX_SCALE: i64 = 256;

/// The largest near-plane depth, in view units.
pub const MAX_NEAR: i64 = 0x200_0000_0000;

/// The largest focal length, in pixels.
pub const MAX_FOCAL: i64 = 65536;

/// The largest wall-height constant.
pub const MAX_WALL: i64 = 0x100_0000_0000;

/// Where the viewer stands, in level units, and which way it faces: the
/// rotation taking level offsets into view space has cosine `cos / ONE` and
/// sine `sin / ONE`.
#[derive(Debug, Clone, Copy, PartialEq, Eq, Structural)]
pub struct Viewer {
    pub x: i16,
    pub y: i16,
    pub cos: i32,
    pub sin: i32,
}

impl Viewer {
    /// Whether the cosine and sine are within one unit.
    pub open spec fn wf(self) -> bool {
        -ONE <= self.cos <= ONE && -ONE <= self.sin <= ONE
    }
}

/// The constants of the projection. View space is level space scaled by
/// `scale` and then by `ONE` through the rotation; `near` is the least visible
/// depth in those units; `focal` is half the screen width over the tangent of
/// half the field of view; a wall at depth `z` is `wall * (height / 2) / z`
/// pixels tall on each side of the horizon.
#[derive(Debug, Clone, Copy, PartialEq, Eq, Structural)]
pub struct Projection {
    pub scale: i64,
    pub near: i64,
    pub focal: i64,
    pub wall: i64,
}

impl Projection {
    /// Whether every constant is positive (the focal length and wall height may
    /// be zero) and within its bound.
    pub open spec fn wf(self) -> bool {
        &&& 1 <= self.scale <= MAX_SCALE
        &&& 1 <= self.near <= MAX_NEAR
        &&& 0 <= self.focal <= MAX_FOCAL
        &&& 0 <= self.wall <= MAX_WALL
    }
}

/// Integer division rounded toward zero, as Rust's `/` does.
pub open spec fn div_trunc(a: int, b: int) -> int {
    let q = abs(a) / abs(b);
    if (a < 0) != (b < 0) && q != 0 {
        -q
    } else {
        q
    }
}

/// `a / b` rounded toward zero.
pub fn div_toward_zero(a: i128, b: i128) -> (r: i128)
    requires
        b != 0,
        -0x4000_0000_0000_0000_0000_0000_0000_0000 <= a <= 0x4000_0000_0000_0000_0000_0000_0000_0000,
        -0x4000_0000_0000_0000_0000_0000_0000_0000 <= b <= 0x4000_0000_0000_0000_0000_0000_0000_0000,
    ensures
        r == div_trunc(a as int, b as int),
        abs(r as int) <= abs(a as int),
{
    let ua: i128 = if a < 0 { -a } else { a };
    let ub: i128 = if b < 0 { -b } else { b };
    let q: i128 = ua / ub;
    proof {
        vstd::arithmetic::div_mod::lemma_div_is_ordered_by_denominator(ua as int, 1, ub as int);
        vstd::arithmetic::div_mod::lemma_div_pos_is_pos(ua as int, ub as int);
    }
    if (a < 0) != (b < 0) && q != 0 {
        -q
    } else {
        q
    }
}


/// The largest magnitude of a view-space coordinate.
pub const VIEW_BOUND: i64 = 0x200_0000_0000;

/// A view-space point, as mathematical integers: across, then depth.
pub open spec fn pt(p: (i64, i64)) -> (int, int) {
    (p.0 as int, p.1 as int)
}

/// Whether both coordinates of `p` are within `VIEW_BOUND`.
pub open spec fn in_view(p: (int, int)) -> bool {
    -VIEW_BOUND <= p.0 <= VIEW_BOUND && -VIEW_BOUND <= p.1 <= VIEW_BOUND
}

/// The view-space position of vertex `w`: its offset from the viewer, scaled,
/// then rotated.
pub open spec fn view_of(p: Projection, v: Viewer, w: Vertex) -> (int, int) {
    let dx = (w.x - v.x) * p.scale;
    let dy = (w.y - v.y) * p.scale;
    (dx * v.cos - dy * v.sin, dx * v.sin + dy * v.cos)
}

/// Moves the vertex `w` into view space.
pub fn view_point(p: Projection, v: Viewer, w: Vertex) -> (r: (i64, i64))
    requires
        p.wf(),
        v.wf(),
    ensures
        pt(r) == view_of(p, v, w),
        in_view(pt(r)),
{
    proof {
        let ex = w.x - v.x;
        let ey = w.y - v.y;
        assert(-16776960 <= ex * p.scale <= 16776960) by (nonlinear_arith)
            requires 1 <= p.scale <= 256, -65535 <= ex <= 65535;
        assert(-16776960 <= ey * p.scale <= 16776960) by (nonlinear_arith)
            requires 1 <= p.scale <= 256, -65535 <= ey <= 65535;
    }
    let dx: i64 = (w.x as i64 - v.x as i64) * p.scale;
    let dy: i64 = (w.y as i64 - v.y as i64) * p.scale;
    proof {
        assert(-16776960 * 65536 <= dx * v.cos <= 16776960 * 65536) by (nonlinear_arith)
            requires -16776960 <= dx <= 16776960, -65536 <= v.cos <= 65536;
        assert(-16776960 * 65536 <= dy * v.sin <= 16776960 * 65536) by (nonlinear_arith)
            requires -16776960 <= dy <= 16776960, -65536 <= v.sin <= 65536;
        assert(-16776960 * 65536 <= dx * v.sin <= 16776960 * 65536) by (nonlinear_arith)
            requires -16776960 <= dx <= 16776960, -65536 <= v.sin <= 65536;
        assert(-16776960 * 65536 <= dy * v.cos <= 16776960 * 65536) by (nonlinear_arith)
            requires -16776960 <= dy <= 16776960, -65536 <= v.cos <= 65536;
    }
    (dx * v.cos as i64 - dy * v.sin as i64, dx * v.sin as i64 + dy * v.cos as i64)
}

/// The point where the segment from `back` (at or behind the near plane) to
/// `front` (in front of it) crosses the near plane: `back` moved toward
/// `front` by the fraction `(near - back depth) / (front depth - back depth)`.
pub open spec fn clip_toward(near: int, back: (int, int), front: (int, int)) -> (int, int) {
    (back.0 + div_trunc((near - back.1) * (front.0 - back.0), front.1 - back.1), near)
}

/// The segment from `a` to `b` cut to the part in front of the near plane;
/// `None` when both ends are at or behind it.
pub open spec fn clipped(near: int, a: (int, int), b: (int, int)) -> Option<((int, int), (int, int))> {
    if a.1 <= near && b.1 <= near {
        None
    } else {
        Some(
            (
                if a.1 <= near {
                    clip_toward(near, a, b)
                } else {
                    a
                },
                if b.1 <= near {
                    clip_toward(near, b, a)
                } else {
                    b
                },
            ),
        )
    }
}

/// Computes `clip_toward` for points within the view bounds; the result lies
/// between the two points.
fn clip_point(near: i64, back: (i64, i64), front: (i64, i64)) -> (r: (i64, i64))
    requires
        1 <= near <= MAX_NEAR,
        in_view(pt(back)),
        in_view(pt(front)),
        back.1 <= near < front.1,
    ensures
        pt(r) == clip_toward(near as int, pt(back), pt(front)),
        in_view(pt(r)),
{
    let t_num: i128 = near as i128 - back.1 as i128;
    let dx: i128 = front.0 as i128 - back.0 as i128;
    let den: i128 = front.1 as i128 - back.1 as i128;
    proof {
        assert(-0x1000_0000_0000_0000_0000_0000 <= t_num * dx <= 0x1000_0000_0000_0000_0000_0000) by (nonlinear_arith)
            requires 0 <= t_num <= 0x400_0000_0000, -0x400_0000_0000 <= dx <= 0x400_0000_0000;
        if dx >= 0 {
            assert(0 <= t_num * dx <= den * dx) by (nonlinear_arith)
                requires 0 <= t_num <= den, dx >= 0;
        } else {
            assert(0 <= t_num * (-dx) <= den * (-dx)) by (nonlinear_arith)
                requires 0 <= t_num <= den, dx < 0;
            assert(t_num * (-dx) == -(t_num * dx)) by (nonlinear_arith);
        }
        assert(abs(t_num * dx) <= den * abs(dx as int));
    }
    let q = div_toward_zero(t_num * dx, den);
    proof {
        let n = abs(t_num * dx);
        vstd::arithmetic::div_mod::lemma_div_is_ordered(n, den * abs(dx as int), den as int);
        assert(den * abs(dx as int) == abs(dx as int) * den) by (nonlinear_arith);
        vstd::arithmetic::div_mod::lemma_div_by_multiple(abs(dx as int), den as int);
        assert(abs(q as int) <= abs(dx as int));
        if dx >= 0 {
            assert(t_num * dx >= 0) by (nonlinear_arith)
                requires t_num >= 0, dx >= 0;
        } else {
            assert(t_num * dx <= 0) by (nonlinear_arith)
                requires t_num >= 0, dx < 0;
        }
    }
    ((back.0 as i128 + q) as i64, near)
}

/// Cuts the segment from `a` to `b` to the part in front of the near plane.
pub fn clip_segment(near: i64, a: (i64, i64), b: (i64, i64)) -> (r: Option<((i64, i64), (i64, i64))>)
    requires
        1 <= near <= MAX_NEAR,
        in_view(pt(a)),
        in_view(pt(b)),
    ensures
        match clipped(near as int, pt(a), pt(b)) {
            None => r is None,
            Some(c) => r is Some && pt(r->Some_0.0) == c.0 && pt(r->Some_0.1) == c.1 && in_view(c.0)
                && in_view(c.1),
        },
{
    if a.1 <= near && b.1 <= near {
        return None;
    }
    let c = if a.1 <= near {
        clip_point(near, a, b)
    } else {
        a
    };
    let d = if b.1 <= near {
        clip_point(near, b, a)
    } else {
        b
    };
    Some((c, d))
}

/// The screen column of the view-space point `q`, which lies in front of the
/// near plane.
pub open spec fn screen_x(p: Projection, s: Screen, q: (int, int)) -> int {
    s.width / 2 + div_trunc(q.0 * p.focal, q.1)
}

/// The half-height in pixels of a wall at the depth of `q`.
pub open spec fn wall_height(p: Projection, s: Screen, q: (int, int)) -> int {
    div_trunc(p.wall * (s.height / 2), q.1)
}

/// The largest magnitude of a projected column or height.
pub const SCREEN_BOUND: i128 = 0x1000_0000_0000_0000;

/// Projects the view-space point `q` onto the screen: its column and its
/// wall half-height.
pub fn project(p: Projection, s: Screen, q: (i64, i64)) -> (r: (i128, i128))
    requires
        p.wf(),
        s.wf(),
        in_view(pt(q)),
        q.1 >= p.near,
    ensures
        r.0 == screen_x(p, s, pt(q)),
        r.1 == wall_height(p, s, pt(q)),
        -SCREEN_BOUND <= r.0 <= SCREEN_BOUND,
        0 <= r.1 <= SCREEN_BOUND,
{
    let hh: i128 = (s.height / 2) as i128;
    proof {
        assert(-0x200_0000_0000 * 65536 <= q.0 * p.focal <= 0x200_0000_0000 * 65536) by (nonlinear_arith)
            requires -0x200_0000_0000 <= q.0 <= 0x200_0000_0000, 0 <= p.focal <= 65536;
        assert(0 <= p.wall * hh <= 0x100_0000_0000 * 8192) by (nonlinear_arith)
            requires 0 <= p.wall <= 0x100_0000_0000, 0 <= hh <= 8192;
    }
    let a: i128 = q.0 as i128 * p.focal as i128;
    let b: i128 = p.wall as i128 * hh;
    let x = div_toward_zero(a, q.1 as i128);
    let h = div_toward_zero(b, q.1 as i128);
    (((s.width / 2) as i128 + x), h)
}

/// In front of the near plane a point moved onto the plane already is left
/// where it is: clipping a segment whose near end lies exactly on the plane
/// changes neither end.
pub proof fn lemma_clip_on_plane(near: int, a: (int, int), b: (int, int))
    requires
        a.1 == near < b.1,
    ensures
        clipped(near, a, b) == Some((a, b)),
{
    assert(div_trunc((near - a.1) * (b.0 - a.0), b.1 - a.1) == 0);
}

/// A segment whose two ends are at or behind the near plane is culled.
pub proof fn lemma_clip_culls(near: int, a: (int, int), b: (int, int))
    requires
        a.1 <= near,
        b.1 <= near,
    ensures
        clipped(near, a, b) is None,
{
}


/// `v` brought into the range from `lo` to `hi`.
pub open spec fn clamp(v: int, lo: int, hi: int) -> int {
    if v < lo {
        lo
    } else if v > hi {
        hi
    } else {
        v
    }
}

/// A wall on the screen: the columns of its two ends and their half-heights.
pub ghost struct SpanView {
    pub sx1: int,
    pub sx2: int,
    pub h1: int,
    pub h2: int,
}

/// The screen span of the wall from vertex `a` to vertex `b`; `None` when the
/// wall lies wholly behind the near plane, or wholly off one side of the screen.
pub open spec fn span_of(p: Projection, s: Screen, v: Viewer, a: Vertex, b: Vertex) -> Option<SpanView> {
    match clipped(p.near as int, view_of(p, v, a), view_of(p, v, b)) {
        None => None,
        Some(c) => {
            let sx1 = screen_x(p, s, c.0);
            let sx2 = screen_x(p, s, c.1);
            if (sx1 < 0 && sx2 < 0) || (sx1 >= s.width && sx2 >= s.width) {
                None
            } else {
                Some(
                    SpanView {
                        sx1,
                        sx2,
                        h1: wall_height(p, s, c.0),
                        h2: wall_height(p, s, c.1),
                    },
                )
            }
        },
    }
}

/// The half-height of the span at column `x`, interpolated linearly between
/// its ends.
pub open spec fn height_at(sp: SpanView, x: int) -> int {
    if sp.sx2 != sp.sx1 {
        sp.h1 + div_trunc((x - sp.sx1) * (sp.h2 - sp.h1), sp.sx2 - sp.sx1)
    } else {
        sp.h1
    }
}

/// The leftmost screen column of the span: the lesser of its ends' columns,
/// each brought onto the screen.
pub open spec fn span_left(s: Screen, sp: SpanView) -> int {
    let a = clamp(sp.sx1, 0, s.width - 1);
    let b = clamp(sp.sx2, 0, s.width - 1);
    if a <= b {
        a
    } else {
        b
    }
}

/// The rightmost screen column of the span: the greater of its ends' columns,
/// each brought onto the screen.
pub open spec fn span_right(s: Screen, sp: SpanView) -> int {
    let a = clamp(sp.sx1, 0, s.width - 1);
    let b = clamp(sp.sx2, 0, s.width - 1);
    if a <= b {
        b
    } else {
        a
    }
}

/// Whether the span fills the pixel `(px, py)`: its column lies between the
/// ends' columns, whichever end is on the left, and its row within the
/// interpolated half-height of the horizon.
pub open spec fn span_covers(s: Screen, sp: SpanView, px: int, py: int) -> bool {
    &&& span_left(s, sp) <= px <= span_right(s, sp)
    &&& s.height / 2 - height_at(sp, px) <= py <= s.height / 2 + height_at(sp, px)
}

/// Fills the span `(sx1, sx2, h1, h2)` in white, column by column.
fn draw_span(s: Screen, buffer: &mut Vec<u32>, sx1: i128, sx2: i128, h1: i128, h2: i128)
    requires
        s.wf(),
        old(buffer)@.len() == s.size(),
        -SCREEN_BOUND <= sx1 <= SCREEN_BOUND,
        -SCREEN_BOUND <= sx2 <= SCREEN_BOUND,
        0 <= h1 <= SCREEN_BOUND,
        0 <= h2 <= SCREEN_BOUND,
    ensures
        final(buffer)@.len() == s.size(),
        forall|i: int|
            0 <= i < s.size() ==> final(buffer)@[i] == if span_covers(
                s,
                SpanView { sx1: sx1 as int, sx2: sx2 as int, h1: h1 as int, h2: h2 as int },
                s.col(i),
                s.row(i),
            ) {
                WHITE
            } else {
                old(buffer)@[i]
            },
{
    let ghost sp = SpanView { sx1: sx1 as int, sx2: sx2 as int, h1: h1 as int, h2: h2 as int };
    let ghost orig = buffer@;
    let w = s.width as i128;
    let hgt = s.height as i128;
    let cy = hgt / 2;
    let c1: i128 = if sx1 < 0 { 0 } else if sx1 > w - 1 { w - 1 } else { sx1 };
    let c2: i128 = if sx2 < 0 { 0 } else if sx2 > w - 1 { w - 1 } else { sx2 };
    let lo: i128 = if c1 <= c2 { c1 } else { c2 };
    let hi: i128 = if c1 <= c2 { c2 } else { c1 };
    proof {
        lemma_size_bound(s);
    }
    let mut x: i128 = lo;
    while x <= hi
        invariant
            s.wf(),
            buffer@.len() == s.size(),
            orig.len() == s.size(),
            w == s.width,
            hgt == s.height,
            cy == s.height / 2,
            lo == span_left(s, sp),
            hi == span_right(s, sp),
            lo <= x <= w,
            sp == (SpanView { sx1: sx1 as int, sx2: sx2 as int, h1: h1 as int, h2: h2 as int }),
            -SCREEN_BOUND <= sx1 <= SCREEN_BOUND,
            -SCREEN_BOUND <= sx2 <= SCREEN_BOUND,
            0 <= h1 <= SCREEN_BOUND,
            0 <= h2 <= SCREEN_BOUND,
            forall|i: int|
                0 <= i < s.size() ==> buffer@[i] == if span_covers(s, sp, s.col(i), s.row(i)) && s.col(i)
                    < x {
                    WHITE
                } else {
                    orig[i]
                },
        decreases w - x,
    {
        proof {
            assert(-0x400_0000_0000_0000_0000_0000_0000_0000 <= (x - sx1) * (h2 - h1)
                <= 0x400_0000_0000_0000_0000_0000_0000_0000) by (nonlinear_arith)
                requires
                    -0x2000_0000_0000_0000 <= x - sx1 <= 0x2000_0000_0000_0000,
                    -0x1000_0000_0000_0000 <= h2 - h1 <= 0x1000_0000_0000_0000;
        }
        let h: i128 = if sx2 != sx1 {
            h1 + div_toward_zero((x - sx1) * (h2 - h1), sx2 - sx1)
        } else {
            h1
        };
        assert(h == height_at(sp, x as int));
        let top = cy - h;
        let bottom = cy + h;
        let ylo: i128 = if top < 0 { 0 } else { top };
        let yhi: i128 = if bottom > hgt - 1 { hgt - 1 } else { bottom };
        let mut y: i128 = ylo;
        while y <= yhi
            invariant
                s.wf(),
                buffer@.len() == s.size(),
                orig.len() == s.size(),
                w == s.width,
                hgt == s.height,
                0 <= x < w,
                0 <= ylo <= y,
                yhi <= hgt - 1,
                y <= yhi + 1 || y == ylo,
                lo <= x <= hi,
                h == height_at(sp, x as int),
                ylo == (if cy - h < 0 { 0 } else { cy - h }),
                yhi == (if cy + h > hgt - 1 { hgt - 1 } else { cy + h }),
                cy == s.height / 2,
                lo == span_left(s, sp),
                hi == span_right(s, sp),
                forall|i: int|
                    0 <= i < s.size() ==> buffer@[i] == if (span_covers(s, sp, s.col(i), s.row(i))
                        && s.col(i) < x) || (s.col(i) == x && ylo <= s.row(i) < y) {
                        WHITE
                    } else {
                        orig[i]
                    },
            decreases hgt - y,
        {
            proof {
                lemma_index(s, x as int, y as int);
                lemma_size_bound(s);
            }
            let ghost k = y * w + x;
            buffer.set((y as usize) * s.width + x as usize, WHITE);
            proof {
                assert forall|i: int|
                    0 <= i < s.size() implies buffer@[i] == if (span_covers(s, sp, s.col(i), s.row(i))
                        && s.col(i) < x) || (s.col(i) == x && ylo <= s.row(i) < y + 1) {
                        WHITE
                    } else {
                        orig[i]
                    } by {
                    lemma_coords(s, i);
                    if i != k {
                        assert(s.col(i) != x || s.row(i) != y);
                    }
                }
            }
            y = y + 1;
        }
        proof {
            assert forall|i: int|
                0 <= i < s.size() implies buffer@[i] == if span_covers(s, sp, s.col(i), s.row(i)) && s.col(
                    i,
                ) < x + 1 {
                    WHITE
                } else {
                    orig[i]
                } by {
                lemma_coords(s, i);
            }
        }
        x = x + 1;
    }
    proof {
        assert forall|i: int|
            0 <= i < s.size() implies buffer@[i] == if span_covers(s, sp, s.col(i), s.row(i)) {
                WHITE
            } else {
                orig[i]
            } by {
            lemma_coords(s, i);
        }
    }
}


/// Whether the wall line `l` of the level fills the pixel stored at `i`.
pub open spec fn wall_covers(p: Projection, s: Screen, v: Viewer, vs: Seq<Vertex>, l: LineDef, i: int) -> bool {
    line_ok(vs, l) && match span_of(p, s, v, vs[l.start_vertex as int], vs[l.end_vertex as int]) {
        Some(sp) => span_covers(s, sp, s.col(i), s.row(i)),
        None => false,
    }
}

/// Whether one of the first `n` wall lines of `ls` fills the pixel stored at `i`.
pub open spec fn walls_lit(p: Projection, s: Screen, v: Viewer, vs: Seq<Vertex>, ls: Seq<LineDef>, n: int, i: int) -> bool {
    exists|k: int| 0 <= k < n && #[trigger] wall_covers(p, s, v, vs, ls[k], i)
}

/// Computes the screen span of the wall from `a` to `b`, if it shows.
fn wall_span(p: Projection, s: Screen, v: Viewer, a: Vertex, b: Vertex) -> (r: Option<(i128, i128, i128, i128)>)
    requires
        p.wf(),
        s.wf(),
        v.wf(),
    ensures
        match span_of(p, s, v, a, b) {
            None => r is None,
            Some(sp) => r is Some && r->Some_0.0 == sp.sx1 && r->Some_0.1 == sp.sx2 && r->Some_0.2
                == sp.h1 && r->Some_0.3 == sp.h2,
        },
        r is Some ==> -SCREEN_BOUND <= r->Some_0.0 <= SCREEN_BOUND && -SCREEN_BOUND <= r->Some_0.1
            <= SCREEN_BOUND && 0 <= r->Some_0.2 <= SCREEN_BOUND && 0 <= r->Some_0.3 <= SCREEN_BOUND,
{
    let va = view_point(p, v, a);
    let vb = view_point(p, v, b);
    match clip_segment(p.near, va, vb) {
        None => None,
        Some((c, d)) => {
            let (sx1, h1) = project(p, s, c);
            let (sx2, h2) = project(p, s, d);
            let w = s.width as i128;
            if (sx1 < 0 && sx2 < 0) || (sx1 >= w && sx2 >= w) {
                None
            } else {
                Some((sx1, sx2, h1, h2))
            }
        },
    }
}

/// Renders the first-person view: the buffer is cleared, then each wall line
/// whose endpoint indices are both valid is moved into view space, clipped to
/// the near plane, projected, and filled in white. Lines with an invalid index,
/// lines wholly behind the near plane and lines wholly off one side of the
/// screen are skipped. There is no depth test: a pixel is white exactly when
/// some wall fills it.
pub fn perspective_render(
    screen: Screen,
    buffer: &mut Vec<u32>,
    proj: Projection,
    viewer: Viewer,
    vertices: &Vec<Vertex>,
    linedefs: Vec<LineDef>,
)
    requires
        screen.wf(),
        proj.wf(),
        viewer.wf(),
        old(buffer)@.len() == screen.size(),
    ensures
        final(buffer)@.len() == screen.size(),
        forall|i: int|
            0 <= i < screen.size() ==> final(buffer)@[i] == if walls_lit(
                proj,
                screen,
                viewer,
                vertices@,
                linedefs@,
                linedefs@.len() as int,
                i,
            ) {
                WHITE
            } else {
                BACKGROUND
            },
{
    clear_buffer(buffer, BACKGROUND);
    let ghost vs = vertices@;
    let ghost ls = linedefs@;
    let n = vertices.len();
    let mut m: usize = 0;
    while m < linedefs.len()
        invariant
            screen.wf(),
            proj.wf(),
            viewer.wf(),
            n == vs.len(),
            vs == vertices@,
            ls == linedefs@,
            m <= ls.len(),
            buffer@.len() == screen.size(),
            forall|i: int|
                0 <= i < screen.size() ==> buffer@[i] == if walls_lit(proj, screen, viewer, vs, ls, m as int, i) {
                    WHITE
                } else {
                    BACKGROUND
                },
        decreases ls.len() - m,
    {
        let l = linedefs[m];
        let ghost before = buffer@;
        if (l.start_vertex as usize) < n && (l.end_vertex as usize) < n {
            let a = vertices[l.start_vertex as usize];
            let b = vertices[l.end_vertex as usize];
            match wall_span(proj, screen, viewer, a, b) {
                None => {},
                Some((sx1, sx2, h1, h2)) => {
                    draw_span(screen, buffer, sx1, sx2, h1, h2);
                },
            }
        }
        proof {
            assert forall|i: int| 0 <= i < screen.size() implies buffer@[i] == if walls_lit(
                proj,
                screen,
                viewer,
                vs,
                ls,
                m + 1,
                i,
            ) {
                WHITE
            } else {
                BACKGROUND
            } by {
                assert(ls[m as int] == l);
                if walls_lit(proj, screen, viewer, vs, ls, m + 1, i) && !walls_lit(proj, screen, viewer, vs, ls, m as int, i) {
                    let k = choose|k: int| 0 <= k < m + 1 && #[trigger] wall_covers(proj, screen, viewer, vs, ls[k], i);
                    assert(k == m);
                }
                if wall_covers(proj, screen, viewer, vs, l, i) {
                    assert(wall_covers(proj, screen, viewer, vs, ls[m as int], i));
                }
            }
        }
        m = m + 1;
    }
}

/// Swapping the ends of a wall keeps whether it shows and which columns it
/// spans.
pub proof fn lemma_span_reversed(p: Projection, s: Screen, v: Viewer, a: Vertex, b: Vertex)
    ensures
        span_of(p, s, v, a, b) is Some <==> span_of(p, s, v, b, a) is Some,
        span_of(p, s, v, a, b) is Some ==> span_left(s, span_of(p, s, v, a, b)->Some_0) == span_left(
            s,
            span_of(p, s, v, b, a)->Some_0,
        ) && span_right(s, span_of(p, s, v, a, b)->Some_0) == span_right(
            s,
            span_of(p, s, v, b, a)->Some_0,
        ),
{
}

/// A wall line whose two ends are at or behind the near plane fills no pixel.
pub proof fn lemma_hidden_wall_draws_nothing(p: Projection, s: Screen, v: Viewer, vs: Seq<Vertex>, l: LineDef, i: int)
    requires
        line_ok(vs, l),
        view_of(p, v, vs[l.start_vertex as int]).1 <= p.near,
        view_of(p, v, vs[l.end_vertex as int]).1 <= p.near,
    ensures
        !wall_covers(p, s, v, vs, l, i),
{
}

/// When every wall line is wholly behind the near plane, or has an invalid
/// index, the whole frame stays the background.
pub proof fn lemma_all_hidden_blank(p: Projection, s: Screen, v: Viewer, vs: Seq<Vertex>, ls: Seq<LineDef>, i: int)
    requires
        forall|k: int|
            0 <= k < ls.len() && line_ok(vs, #[trigger] ls[k]) ==> view_of(p, v, vs[ls[k].start_vertex as int]).1
                <= p.near && view_of(p, v, vs[ls[k].end_vertex as int]).1 <= p.near,
    ensures
        !walls_lit(p, s, v, vs, ls, ls.len() as int, i),
{
    if walls_lit(p, s, v, vs, ls, ls.len() as int, i) {
        let k = choose|k: int| 0 <= k < ls.len() && #[trigger] wall_covers(p, s, v, vs, ls[k], i);
        lemma_hidden_wall_draws_nothing(p, s, v, vs, ls[k], i);
    }
}

} // verus!

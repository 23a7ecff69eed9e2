//! The frame buffer: a flat, row-major sequence of colours, and the primitive
//! ways of writing into it.

use vstd::prelude::*;

verus! {

/// The largest width or height a screen may have.
pub const MAX_DIM: usize = 16384;

/// Colour of the cleared frame.
pub const BACKGROUND: u32 = 0x000000;

/// Colour of walls, vertices and lines.
pub const WHITE: u32 = 0xFFFFFF;

/// The dimensions of a frame buffer.
#[derive(Debug, Clone, Copy, PartialEq, Eq, Structural)]
pub struct Screen {
    pub width: usize,
    pub height: usize,
}

impl Screen {
    /// Whether both dimensions are positive and at most `MAX_DIM`.
    pub open spec fn wf(self) -> bool {
        0 < self.width <= MAX_DIM && 0 < self.height <= MAX_DIM
    }

    /// Number of pixels of a buffer for this screen.
    pub open spec fn size(self) -> int {
        self.width * self.height
    }

    /// Column of the pixel stored at index `i`.
    pub open spec fn col(self, i: int) -> int {
        i % (self.width as int)
    }

    /// Row of the pixel stored at index `i`.
    pub open spec fn row(self, i: int) -> int {
        i / (self.width as int)
    }

    /// Whether `(x, y)` is a pixel of this screen.
    pub open spec fn inside(self, x: int, y: int) -> bool {
        0 <= x < self.width && 0 <= y < self.height
    }

    /// A screen of the given dimensions.
    pub fn new(width: usize, height: usize) -> (s: Screen)
        ensures
            s.width == width,
            s.height == height,
    {
        Screen { width, height }
    }

    /// Number of pixels of a buffer for this screen.
    pub fn pixel_count(&self) -> (n: usize)
        requires
            self.wf(),
        ensures
            n == self.size(),
    {
        proof {
            lemma_size_bound(*self);
        }
        self.width * self.height
    }
}

/// A screen's pixel count fits comfortably in a machine word.
pub proof fn lemma_size_bound(s: Screen)
    requires
        s.wf(),
    ensures
        0 < s.size() <= MAX_DIM * MAX_DIM,
{
    assert(0 < s.width * s.height <= 16384 * 16384) by (nonlinear_arith)
        requires 0 < s.width <= 16384, 0 < s.height <= 16384;
}

/// The pixel `(x, y)` is stored at index `y * width + x`, and nowhere else.
pub proof fn lemma_index(s: Screen, x: int, y: int)
    requires
        s.wf(),
        s.inside(x, y),
    ensures
        0 <= y * s.width + x < s.size(),
        s.col(y * s.width + x) == x,
        s.row(y * s.width + x) == y,
{
    let w = s.width as int;
    assert(0 <= y * w + x < w * s.height) by (nonlinear_arith)
        requires 0 <= x < w, 0 <= y < s.height;
    vstd::arithmetic::div_mod::lemma_fundamental_div_mod_converse(y * w + x, w, y, x);
}

/// Every index of a buffer holds a pixel of the screen, at its column and row.
pub proof fn lemma_coords(s: Screen, i: int)
    requires
        s.wf(),
        0 <= i < s.size(),
    ensures
        s.inside(s.col(i), s.row(i)),
        i == s.row(i) * s.width + s.col(i),
{
    let w = s.width as int;
    vstd::arithmetic::div_mod::lemma_fundamental_div_mod(i, w);
    vstd::arithmetic::div_mod::lemma_mod_bound(i, w);
    assert(0 <= i / w < s.height) by (nonlinear_arith)
        requires 0 <= i < w * s.height, w > 0, i == w * (i / w) + i % w, 0 <= i % w < w;
    assert(i == (i / w) * w + i % w) by (nonlinear_arith)
        requires i == w * (i / w) + i % w;
}

/// The colour that a palette code stands for.
pub open spec fn palette(c: usize) -> u32 {
    if c == 0 {
        0x000000
    } else if c == 1 {
        0xFFFFFF
    } else {
        0xFF0000
    }
}

/// The test pattern: the palette colour of `(x + y) % 100` at `(x, y)`.
pub open spec fn pattern_at(s: Screen, i: int) -> u32 {
    palette(((s.col(i) + s.row(i)) % 100) as usize)
}

/// Writes the palette colour of code `c` at `(x, y)`, that is at index
/// `y * width + x`, which must lie inside the buffer.
pub fn pixel(screen: Screen, x: usize, y: usize, c: usize, buffer: &mut Vec<u32>)
    requires
        y * screen.width + x < old(buffer)@.len(),
    ensures
        final(buffer)@ == old(buffer)@.update(y * screen.width + x, palette(c)),
{
    let temp: u32 = if c == 0 {
        0x000000
    } else if c == 1 {
        0xFFFFFF
    } else {
        0xFF0000
    };
    let n = buffer.len();
    proof {
        assert(0 <= y * screen.width) by (nonlinear_arith);
        assert(y * screen.width + x < n);
    }
    buffer.set(y * screen.width + x, temp);
}

/// Fills the whole buffer with the test pattern.
pub fn render(screen: Screen, buffer: &mut Vec<u32>)
    requires
        screen.wf(),
        old(buffer)@.len() == screen.size(),
    ensures
        final(buffer)@.len() == screen.size(),
        forall|i: int| 0 <= i < screen.size() ==> final(buffer)@[i] == pattern_at(screen, i),
{
    let mut y: usize = 0;
    while y < screen.height
        invariant
            screen.wf(),
            y <= screen.height,
            buffer@.len() == screen.size(),
            forall|i: int|
                0 <= i < screen.size() && screen.row(i) < y ==> buffer@[i] == pattern_at(screen, i),
        decreases screen.height - y,
    {
        let mut x: usize = 0;
        while x < screen.width
            invariant
                screen.wf(),
                x <= screen.width,
                y < screen.height,
                buffer@.len() == screen.size(),
                forall|i: int|
                    0 <= i < screen.size() && (screen.row(i) < y || (screen.row(i) == y
                        && screen.col(i) < x)) ==> buffer@[i] == pattern_at(screen, i),
            decreases screen.width - x,
        {
            proof {
                lemma_index(screen, x as int, y as int);
            }
            let ghost k = y * screen.width + x;
            proof {
                lemma_size_bound(screen);
            }
            pixel(screen, x, y, (x + y) % 100, buffer);
            assert forall|i: int|
                0 <= i < screen.size() && (screen.row(i) < y || (screen.row(i) == y && screen.col(i)
                    < x + 1)) implies buffer@[i] == pattern_at(screen, i) by {
                lemma_coords(screen, i);
                if i == k {
                } else {
                    assert(screen.row(i) < y || screen.col(i) < x);
                }
            }
            x = x + 1;
        }
        assert forall|i: int|
            0 <= i < screen.size() && screen.row(i) < y + 1 implies buffer@[i] == pattern_at(
                screen,
                i,
            ) by {
            lemma_coords(screen, i);
        }
        y = y + 1;
    }
    assert forall|i: int| 0 <= i < screen.size() implies buffer@[i] == pattern_at(screen, i) by {
        lemma_coords(screen, i);
    }
}

/// Overwrites every pixel with `color`.
pub fn clear_buffer(buffer: &mut Vec<u32>, color: u32)
    ensures
        final(buffer)@.len() == old(buffer)@.len(),
        forall|i: int| 0 <= i < final(buffer)@.len() ==> final(buffer)@[i] == color,
{
    let n = buffer.len();
    let mut i: usize = 0;
    while i < n
        invariant
            i <= n == buffer@.len(),
            forall|j: int| 0 <= j < i ==> buffer@[j] == color,
        decreases n - i,
    {
        buffer.set(i, color);
        i = i + 1;
    }
}


/// The absolute value of `v`.
pub open spec fn abs(v: int) -> int {
    if v < 0 {
        -v
    } else {
        v
    }
}

/// The points visited by the integer line walk from `(x, y)` with error term
/// `err` toward `(x2, y2)`, for at most `fuel` steps: each step moves one unit
/// along the axis whose error allows it, or along both.
pub open spec fn walk_from(
    x: int,
    y: int,
    err: int,
    x2: int,
    y2: int,
    dx: int,
    dy: int,
    sx: int,
    sy: int,
    fuel: nat,
) -> Seq<(int, int)>
    decreases fuel,
{
    if fuel == 0 || (x == x2 && y == y2) {
        seq![(x, y)]
    } else {
        let e2 = 2 * err;
        let nx = if e2 > -dy { x + sx } else { x };
        let err1 = if e2 > -dy { err - dy } else { err };
        let ny = if e2 < dx { y + sy } else { y };
        let err2 = if e2 < dx { err1 + dx } else { err1 };
        seq![(x, y)] + walk_from(nx, ny, err2, x2, y2, dx, dy, sx, sy, (fuel - 1) as nat)
    }
}

/// The step direction from `a` toward `b` along one axis.
pub open spec fn step_dir(a: int, b: int) -> int {
    if a < b {
        1
    } else {
        -1
    }
}

/// The points of the line from `(x1, y1)` to `(x2, y2)`, in the order drawn.
pub open spec fn line_points(x1: int, y1: int, x2: int, y2: int) -> Seq<(int, int)> {
    let dx = abs(x2 - x1);
    let dy = abs(y2 - y1);
    walk_from(
        x1,
        y1,
        dx - dy,
        x2,
        y2,
        dx,
        dy,
        step_dir(x1, x2),
        step_dir(y1, y2),
        (dx + dy) as nat,
    )
}

/// What holds at each point of the walk, after `a` steps along x and `b` along y.
pub open spec fn walk_inv(x1: int, y1: int, x2: int, y2: int, x: int, y: int, err: int, a: int, b: int) -> bool {
    let dx = abs(x2 - x1);
    let dy = abs(y2 - y1);
    &&& 0 <= a <= dx
    &&& 0 <= b <= dy
    &&& x == (if x1 < x2 { x1 + a } else { x1 - a })
    &&& y == (if y1 < y2 { y1 + b } else { y1 - b })
    &&& err == dx * (b + 1) - dy * (a + 1)
    &&& -2 * dy <= err <= 2 * dx
}

/// One step of the walk keeps the invariant and brings the point closer to the
/// target.
pub proof fn lemma_walk_step(x1: int, y1: int, x2: int, y2: int, x: int, y: int, err: int, a: int, b: int)
    requires
        walk_inv(x1, y1, x2, y2, x, y, err, a, b),
        !(x == x2 && y == y2),
    ensures
        ({
            let dx = abs(x2 - x1);
            let dy = abs(y2 - y1);
            let e2 = 2 * err;
            let nx = if e2 > -dy { x + step_dir(x1, x2) } else { x };
            let na = if e2 > -dy { a + 1 } else { a };
            let err1 = if e2 > -dy { err - dy } else { err };
            let ny = if e2 < dx { y + step_dir(y1, y2) } else { y };
            let nb = if e2 < dx { b + 1 } else { b };
            let err2 = if e2 < dx { err1 + dx } else { err1 };
            walk_inv(x1, y1, x2, y2, nx, ny, err2, na, nb) && na + nb > a + b
        }),
{
    let dx = abs(x2 - x1);
    let dy = abs(y2 - y1);
    assert(a == dx && b < dy ==> err <= -dy) by (nonlinear_arith)
        requires err == dx * (b + 1) - dy * (a + 1), dx >= 0, dy >= 0;
    assert(b == dy && a < dx ==> err >= dx) by (nonlinear_arith)
        requires err == dx * (b + 1) - dy * (a + 1), dx >= 0, dy >= 0;
    assert(dx * (b + 2) == dx * (b + 1) + dx) by (nonlinear_arith);
    assert(dy * (a + 2) == dy * (a + 1) + dy) by (nonlinear_arith);
    if a == dx && b == dy {
        assert(x == x2 && y == y2);
    }
}

/// The walk from any point that keeps the invariant, given enough fuel, begins
/// at that point and ends at the target.
pub proof fn lemma_walk_reaches(x1: int, y1: int, x2: int, y2: int, x: int, y: int, err: int, a: int, b: int, fuel: nat)
    requires
        walk_inv(x1, y1, x2, y2, x, y, err, a, b),
        fuel >= abs(x2 - x1) - a + abs(y2 - y1) - b,
    ensures
        ({
            let w = walk_from(
                x,
                y,
                err,
                x2,
                y2,
                abs(x2 - x1),
                abs(y2 - y1),
                step_dir(x1, x2),
                step_dir(y1, y2),
                fuel,
            );
            w.len() >= 1 && w[0] == (x, y) && w.last() == (x2, y2)
        }),
    decreases fuel,
{
    let dx = abs(x2 - x1);
    let dy = abs(y2 - y1);
    if x == x2 && y == y2 {
    } else {
        lemma_walk_step(x1, y1, x2, y2, x, y, err, a, b);
        if a == dx && b == dy {
            assert(false);
        }
        let e2 = 2 * err;
        let nx = if e2 > -dy { x + step_dir(x1, x2) } else { x };
        let na = if e2 > -dy { a + 1 } else { a };
        let err1 = if e2 > -dy { err - dy } else { err };
        let ny = if e2 < dx { y + step_dir(y1, y2) } else { y };
        let nb = if e2 < dx { b + 1 } else { b };
        let err2 = if e2 < dx { err1 + dx } else { err1 };
        lemma_walk_reaches(x1, y1, x2, y2, nx, ny, err2, na, nb, (fuel - 1) as nat);
    }
}

/// The line from `(x1, y1)` to `(x2, y2)` starts at the first point and stops
/// exactly at the second.
pub proof fn lemma_line_endpoints(x1: int, y1: int, x2: int, y2: int)
    ensures
        line_points(x1, y1, x2, y2).len() >= 1,
        line_points(x1, y1, x2, y2)[0] == (x1, y1),
        line_points(x1, y1, x2, y2).last() == (x2, y2),
{
    let dx = abs(x2 - x1);
    let dy = abs(y2 - y1);
    assert(dx - dy == dx * (0 + 1) - dy * (0 + 1)) by (nonlinear_arith);
    lemma_walk_reaches(x1, y1, x2, y2, x1, y1, dx - dy, 0, 0, (dx + dy) as nat);
}

/// Whether `q` follows `p` by one step of a line whose extents are `dx` and
/// `dy`: one unit along the dominant axis (x on a tie), and none or one unit
/// along the other, each in the line's direction.
pub open spec fn unit_step(p: (int, int), q: (int, int), dx: int, dy: int, sx: int, sy: int) -> bool {
    if dx >= dy {
        q.0 == p.0 + sx && (q.1 == p.1 || q.1 == p.1 + sy)
    } else {
        q.1 == p.1 + sy && (q.0 == p.0 || q.0 == p.0 + sx)
    }
}

/// The range that the error term keeps along the walk, which makes the
/// dominant axis step every time.
pub open spec fn err_band(dx: int, dy: int, err: int) -> bool {
    if dx > dy {
        -dy < 2 * err < 3 * dx - 2 * dy
    } else if dx == dy {
        err == 0
    } else {
        2 * dx - 3 * dy < 2 * err < dx
    }
}

/// From any point of the walk, the rest of the line has one point per unit
/// left along the dominant axis, and consecutive points are unit steps.
proof fn lemma_walk_shape(x1: int, y1: int, x2: int, y2: int, x: int, y: int, err: int, a: int, b: int, fuel: nat)
    requires
        walk_inv(x1, y1, x2, y2, x, y, err, a, b),
        err_band(abs(x2 - x1), abs(y2 - y1), err),
        fuel >= abs(x2 - x1) - a + abs(y2 - y1) - b,
    ensures
        ({
            let dx = abs(x2 - x1);
            let dy = abs(y2 - y1);
            let w = walk_from(x, y, err, x2, y2, dx, dy, step_dir(x1, x2), step_dir(y1, y2), fuel);
            &&& w.len() == (if dx >= dy { dx - a } else { dy - b }) + 1
            &&& w[0] == (x, y)
            &&& forall|k: int|
                0 <= k < w.len() - 1 ==> #[trigger] unit_step(w[k], w[k + 1], dx, dy, step_dir(x1, x2), step_dir(y1, y2))
        }),
    decreases fuel,
{
    let dx = abs(x2 - x1);
    let dy = abs(y2 - y1);
    let sx = step_dir(x1, x2);
    let sy = step_dir(y1, y2);
    let w = walk_from(x, y, err, x2, y2, dx, dy, sx, sy, fuel);
    if x == x2 && y == y2 {
        assert(a == dx && b == dy);
    } else {
        lemma_walk_step(x1, y1, x2, y2, x, y, err, a, b);
        if a == dx && b == dy {
            assert(false);
        }
        let e2 = 2 * err;
        let nx = if e2 > -dy { x + sx } else { x };
        let na = if e2 > -dy { a + 1 } else { a };
        let err1 = if e2 > -dy { err - dy } else { err };
        let ny = if e2 < dx { y + sy } else { y };
        let nb = if e2 < dx { b + 1 } else { b };
        let err2 = if e2 < dx { err1 + dx } else { err1 };
        if dx >= dy {
            assert(e2 > -dy);
        } else {
            assert(e2 < dx);
        }
        assert(err_band(dx, dy, err2));
        lemma_walk_shape(x1, y1, x2, y2, nx, ny, err2, na, nb, (fuel - 1) as nat);
        let rest = walk_from(nx, ny, err2, x2, y2, dx, dy, sx, sy, (fuel - 1) as nat);
        assert(w == seq![(x, y)] + rest);
        assert forall|k: int| 0 <= k < w.len() - 1 implies #[trigger] unit_step(w[k], w[k + 1], dx, dy, sx, sy) by {
            if k == 0 {
                assert(w[1] == rest[0]);
            } else {
                assert(w[k] == rest[k - 1]);
                assert(w[k + 1] == rest[k]);
                assert(unit_step(rest[k - 1], rest[(k - 1) + 1], dx, dy, sx, sy));
            }
        }
    }
}

/// The line from `(x1, y1)` to `(x2, y2)` has one point more than its extent
/// along the dominant axis, and each point follows the one before it by one
/// unit along that axis and at most one unit along the other.
pub proof fn lemma_line_shape(x1: int, y1: int, x2: int, y2: int)
    ensures
        ({
            let dx = abs(x2 - x1);
            let dy = abs(y2 - y1);
            let l = line_points(x1, y1, x2, y2);
            &&& l.len() == (if dx >= dy { dx } else { dy }) + 1
            &&& forall|k: int|
                0 <= k < l.len() - 1 ==> #[trigger] unit_step(l[k], l[k + 1], dx, dy, step_dir(x1, x2), step_dir(y1, y2))
        }),
{
    let dx = abs(x2 - x1);
    let dy = abs(y2 - y1);
    assert(dx - dy == dx * (0 + 1) - dy * (0 + 1)) by (nonlinear_arith);
    lemma_walk_shape(x1, y1, x2, y2, x1, y1, dx - dy, 0, 0, (dx + dy) as nat);
}

/// Writes `color` at `(x, y)` when that is a pixel of the screen; does nothing
/// otherwise.
pub fn plot(screen: Screen, buffer: &mut Vec<u32>, x: i64, y: i64, color: u32)
    requires
        screen.wf(),
        old(buffer)@.len() == screen.size(),
    ensures
        final(buffer)@.len() == old(buffer)@.len(),
        screen.inside(x as int, y as int) ==> final(buffer)@ == old(buffer)@.update(
            y * screen.width + x,
            color,
        ),
        !screen.inside(x as int, y as int) ==> final(buffer)@ == old(buffer)@,
{
    if x >= 0 && x < screen.width as i64 && y >= 0 && y < screen.height as i64 {
        proof {
            lemma_index(screen, x as int, y as int);
            lemma_size_bound(screen);
        }
        buffer.set(y as usize * screen.width + x as usize, color);
    }
}

/// Whether the pixel stored at `i` lies on one of the points `pts`.
pub open spec fn covered(s: Screen, pts: Seq<(int, int)>, i: int) -> bool {
    pts.contains((s.col(i), s.row(i)))
}

/// Whether `buf` holds `color` on the pixels of `pts` and `orig` elsewhere.
pub open spec fn painted(s: Screen, buf: Seq<u32>, orig: Seq<u32>, pts: Seq<(int, int)>, color: u32) -> bool {
    &&& buf.len() == s.size()
    &&& forall|i: int|
        0 <= i < s.size() ==> buf[i] == if covered(s, pts, i) {
            color
        } else {
            orig[i]
        }
}

/// Plotting one more point extends the painted set by that point.
pub proof fn lemma_plot_extends(
    s: Screen,
    before: Seq<u32>,
    after: Seq<u32>,
    orig: Seq<u32>,
    pts: Seq<(int, int)>,
    x: int,
    y: int,
    color: u32,
)
    requires
        s.wf(),
        painted(s, before, orig, pts, color),
        s.inside(x, y) ==> after == before.update(y * s.width + x, color),
        !s.inside(x, y) ==> after == before,
    ensures
        painted(s, after, orig, pts.push((x, y)), color),
{
    let drawn = pts.push((x, y));
    if s.inside(x, y) {
        lemma_index(s, x, y);
    }
    assert forall|i: int| 0 <= i < s.size() implies after[i] == if covered(s, drawn, i) {
        color
    } else {
        orig[i]
    } by {
        lemma_coords(s, i);
        let p = (s.col(i), s.row(i));
        if p == (x, y) {
            assert(drawn[drawn.len() - 1] == p);
        } else {
            if pts.contains(p) {
                let k = choose|k: int| 0 <= k < pts.len() && pts[k] == p;
                assert(drawn[k] == p);
            }
            if drawn.contains(p) {
                let k = choose|k: int| 0 <= k < drawn.len() && drawn[k] == p;
                assert(k < pts.len());
                assert(pts[k] == p);
            }
        }
    }
}

/// Draws the line from `(x1, y1)` to `(x2, y2)` in `color`, by integer steps:
/// one unit along the dominant axis each step, and along the other axis when
/// the accumulated error calls for it, until the target point is reached.
/// Points outside the screen are skipped.
pub fn draw_line(screen: Screen, buffer: &mut Vec<u32>, x1: i32, y1: i32, x2: i32, y2: i32, color: u32)
    requires
        screen.wf(),
        old(buffer)@.len() == screen.size(),
    ensures
        final(buffer)@.len() == screen.size(),
        forall|i: int|
            0 <= i < screen.size() ==> final(buffer)@[i] == if covered(
                screen,
                line_points(x1 as int, y1 as int, x2 as int, y2 as int),
                i,
            ) {
                color
            } else {
                old(buffer)@[i]
            },
{
    let xa = x1 as i64;
    let ya = y1 as i64;
    let xb = x2 as i64;
    let yb = y2 as i64;
    let dx: i64 = if xb >= xa { xb - xa } else { xa - xb };
    let dy: i64 = if yb >= ya { yb - ya } else { ya - yb };
    let sx: i64 = if xa < xb { 1 } else { -1 };
    let sy: i64 = if ya < yb { 1 } else { -1 };
    let mut err: i64 = dx - dy;
    let mut x: i64 = xa;
    let mut y: i64 = ya;
    let ghost full = line_points(x1 as int, y1 as int, x2 as int, y2 as int);
    let ghost orig = buffer@;
    let ghost mut a: int = 0;
    let ghost mut b: int = 0;
    let ghost mut fuel: nat = (dx + dy) as nat;
    proof {
        assert(dx - dy == dx * (0 + 1) - dy * (0 + 1)) by (nonlinear_arith);
        lemma_walk_reaches(x1 as int, y1 as int, x2 as int, y2 as int, x as int, y as int, err as int, 0, 0, fuel);
    }
    let ghost pre = buffer@;
    plot(screen, buffer, x, y, color);
    let ghost mut drawn: Seq<(int, int)> = seq![(x as int, y as int)];
    proof {
        assert(painted(screen, orig, orig, Seq::empty(), color));
        lemma_plot_extends(screen, pre, buffer@, orig, Seq::empty(), x as int, y as int, color);
        assert(Seq::<(int, int)>::empty().push((x as int, y as int)) =~= drawn);
        assert(full =~= drawn + walk_from(x as int, y as int, err as int, x2 as int, y2 as int, dx as int, dy as int, sx as int, sy as int, fuel).drop_first());
    }
    while !(x == xb && y == yb)
        invariant
            screen.wf(),
            buffer@.len() == screen.size(),
            dx == abs(x2 - x1),
            dy == abs(y2 - y1),
            sx == step_dir(x1 as int, x2 as int),
            sy == step_dir(y1 as int, y2 as int),
            xb == x2,
            yb == y2,
            walk_inv(x1 as int, y1 as int, x2 as int, y2 as int, x as int, y as int, err as int, a, b),
            fuel >= dx - a + dy - b,
            full == drawn + walk_from(x as int, y as int, err as int, x2 as int, y2 as int, dx as int, dy as int, sx as int, sy as int, fuel).drop_first(),
            painted(screen, buffer@, orig, drawn, color),
        decreases dx - a + dy - b,
    {
        proof {
            lemma_walk_step(x1 as int, y1 as int, x2 as int, y2 as int, x as int, y as int, err as int, a, b);
        }
        let ghost cur = walk_from(x as int, y as int, err as int, x2 as int, y2 as int, dx as int, dy as int, sx as int, sy as int, fuel);
        let e2 = 2 * err;
        if e2 > -dy {
            err = err - dy;
            x = x + sx;
            proof { a = a + 1; }
        }
        if e2 < dx {
            err = err + dx;
            y = y + sy;
            proof { b = b + 1; }
        }
        proof {
            fuel = (fuel - 1) as nat;
            let nxt = walk_from(x as int, y as int, err as int, x2 as int, y2 as int, dx as int, dy as int, sx as int, sy as int, fuel);
            assert(cur.drop_first() == nxt);
            assert(nxt[0] == (x as int, y as int));
        }
        let ghost before = buffer@;
        plot(screen, buffer, x, y, color);
        proof {
            let nxt = walk_from(x as int, y as int, err as int, x2 as int, y2 as int, dx as int, dy as int, sx as int, sy as int, fuel);
            let old_drawn = drawn;
            drawn = drawn.push((x as int, y as int));
            assert(full =~= drawn + nxt.drop_first());
            lemma_plot_extends(screen, before, buffer@, orig, old_drawn, x as int, y as int, color);
        }
    }
    proof {
        let rest = walk_from(x as int, y as int, err as int, x2 as int, y2 as int, dx as int, dy as int, sx as int, sy as int, fuel);
        assert(rest.drop_first() =~= Seq::<(int, int)>::empty());
        assert(full =~= drawn);
    }
}

} // verus!

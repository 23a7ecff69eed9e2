//! One displayed frame: the first-person view, or the top-down overview when
//! that mode is on.

use vstd::prelude::*;
use crate::overview::{overview_lit, render_linedef};
use crate::raster::{Screen, BACKGROUND, WHITE};
use crate::view::{perspective_render, walls_lit, Projection, Viewer};
use crate::wad::{LineDef, Vertex};

verus! {

/// Whether the frame lights the pixel stored at `i`: by the overview when
/// `overview` is on, by the first-person view otherwise.
pub open spec fn frame_lit(
    s: Screen,
    p: Projection,
    v: Viewer,
    vs: Seq<Vertex>,
    ls: Seq<LineDef>,
    overview: bool,
    i: int,
) -> bool {
    if overview {
        overview_lit(s, vs, ls, i)
    } else {
        walls_lit(p, s, v, vs, ls, ls.len() as int, i)
    }
}

/// Renders one whole frame of the level seen by `viewer`, as the overview
/// when `overview` is on and as the first-person view otherwise. Every pixel
/// is overwritten.
pub fn render_frame(
    screen: Screen,
    buffer: &mut Vec<u32>,
    proj: Projection,
    viewer: Viewer,
    vertices: &Vec<Vertex>,
    linedefs: Vec<LineDef>,
    overview: bool,
)
    requires
        screen.wf(),
        proj.wf(),
        viewer.wf(),
        old(buffer)@.len() == screen.size(),
    ensures
        final(buffer)@.len() == screen.size(),
        forall|i: int|
            0 <= i < screen.size() ==> final(buffer)@[i] == if frame_lit(
                screen,
                proj,
                viewer,
                vertices@,
                linedefs@,
                overview,
                i,
            ) {
                WHITE
            } else {
                BACKGROUND
            },
{
    if overview {
        render_linedef(screen, buffer, vertices, linedefs);
    } else {
        perspective_render(screen, buffer, proj, viewer, vertices, linedefs);
    }
}

} // verus!

//! Tick drawing: one slope segment per sample point, optionally with a
//! chevron arrowhead.
//!
//! A tick's direction follows the field's slope at its grid point:
//! angle `atan(m)` for slope m, half-length along it, and two short
//! arms at 135 degrees to either side for the arrowhead.  That
//! trigonometry is real arithmetic, so the unverified front end derives
//! the pixel offsets (truncating towards zero, with offsets that
//! truncate from non-finite values landing out of range and clipped by
//! the rasterizer) and hands them over as a [`TickOffsets`]; this
//! module then draws the segments and proves exactly which pixels they
//! touch.

use vstd::prelude::*;

use crate::grid_to_pixel_space;
use crate::raster::draw_line;
use crate::raster::frame_len;
use crate::raster::iabs;
use crate::raster::lemma_paint_points_app;
use crate::raster::lemma_paint_points_len;
use crate::raster::paint_points;
use crate::raster::spec_line_points;
use crate::spec_grid_to_pixel;
use crate::HALF_HEIGHT;
use crate::HALF_WIDTH;

verus! {

/// Pixel offsets of one tick, derived from the slope at its grid
/// point: (dx, dy) reaches from the centre to the leading endpoint,
/// and (dx2, dy2), (dx3, dy3) reach from the leading endpoint to the
/// free ends of the two arrowhead arms.
#[derive(Clone, Copy, PartialEq, Eq, Structural, Debug)]
pub struct TickOffsets {
    pub dx: i32,
    pub dy: i32,
    pub dx2: i32,
    pub dy2: i32,
    pub dx3: i32,
    pub dy3: i32,
}

/// Does a value fit the pixel coordinate type?
pub open spec fn fits_i32(v: int) -> bool {
    i32::MIN <= v <= i32::MAX
}

/// The machine limit on one tick: every endpoint sum the draw forms
/// must fit the pixel coordinate type.
pub open spec fn tick_fits(gx: int, gy: int, t: TickOffsets) -> bool {
    let (px, py) = spec_grid_to_pixel(gx, gy);
    &&& fits_i32(px)
    &&& fits_i32(py)
    &&& fits_i32(px + t.dx)
    &&& fits_i32(px - t.dx)
    &&& fits_i32(py + t.dy)
    &&& fits_i32(py - t.dy)
    &&& fits_i32(px + t.dx + t.dx2)
    &&& fits_i32(py + t.dy + t.dy2)
    &&& fits_i32(px + t.dx + t.dx3)
    &&& fits_i32(py + t.dy + t.dy3)
}

/// The pixels one tick paints, in drawing order: the main segment
/// between centre plus and centre minus the half-length offset, then -
/// with an arrowhead - the two chevron arms out of the leading
/// endpoint.
pub open spec fn spec_tick_points(gx: int, gy: int, t: TickOffsets, arrow: bool) -> Seq<
    (int, int),
> {
    let (px, py) = spec_grid_to_pixel(gx, gy);
    let main = spec_line_points(px + t.dx, py + t.dy, px - t.dx, py - t.dy);
    if arrow {
        main + spec_line_points(
            px + t.dx,
            py + t.dy,
            px + t.dx + t.dx2,
            py + t.dy + t.dy2,
        ) + spec_line_points(px + t.dx, py + t.dy, px + t.dx + t.dx3, py + t.dy + t.dy3)
    } else {
        main
    }
}

/// Draw one slope tick at a grid point (in subunits): the main segment
/// through the point's pixel, and with `draw_arrow` the two arrowhead
/// arms from its leading endpoint.
pub fn draw_slope_line(frame: &mut Vec<u8>, x: i32, y: i32, t: &TickOffsets, draw_arrow: bool)
    requires
        old(frame)@.len() == frame_len(),
        tick_fits(x as int, y as int, *t),
    ensures
        final(frame)@ == paint_points(
            old(frame)@,
            spec_tick_points(x as int, y as int, *t, draw_arrow),
        ),
        final(frame)@.len() == old(frame)@.len(),
{
    let (px, py) = grid_to_pixel_space(x, y);
    let ghost buf0 = frame@;
    let ghost main = spec_line_points(
        px as int + t.dx as int,
        py as int + t.dy as int,
        px as int - t.dx as int,
        py as int - t.dy as int,
    );
    draw_line(frame, px + t.dx, py + t.dy, px - t.dx, py - t.dy);
    proof {
        lemma_paint_points_len(buf0, main);
    }
    if draw_arrow {
        let ghost arm2 = spec_line_points(
            px as int + t.dx as int,
            py as int + t.dy as int,
            px as int + t.dx as int + t.dx2 as int,
            py as int + t.dy as int + t.dy2 as int,
        );
        let ghost arm3 = spec_line_points(
            px as int + t.dx as int,
            py as int + t.dy as int,
            px as int + t.dx as int + t.dx3 as int,
            py as int + t.dy as int + t.dy3 as int,
        );
        draw_line(frame, px + t.dx, py + t.dy, px + t.dx + t.dx2, py + t.dy + t.dy2);
        proof {
            lemma_paint_points_len(paint_points(buf0, main), arm2);
        }
        draw_line(frame, px + t.dx, py + t.dy, px + t.dx + t.dx3, py + t.dy + t.dy3);
        proof {
            lemma_paint_points_app(buf0, main, arm2);
            lemma_paint_points_app(buf0, main + arm2, arm3);
            lemma_paint_points_len(paint_points(buf0, main + arm2), arm3);
            lemma_paint_points_len(buf0, main + arm2);
        }
    }
}

/// Runtime guard for the machine limit in [`draw_slope_line`]'s
/// precondition: the unverified front end derives offsets in real
/// arithmetic, so it tests them with this before asking for a draw.
pub fn tick_offsets_fit(x: i32, y: i32, t: &TickOffsets) -> (b: bool)
    ensures
        b == tick_fits(x as int, y as int, *t),
{
    let px: i64 = x as i64 + HALF_WIDTH as i64;
    let py: i64 = HALF_HEIGHT as i64 - y as i64;
    fits(px) && fits(py) && fits(px + t.dx as i64) && fits(px - t.dx as i64) && fits(
        py + t.dy as i64,
    ) && fits(py - t.dy as i64) && fits(px + t.dx as i64 + t.dx2 as i64) && fits(
        py + t.dy as i64 + t.dy2 as i64,
    ) && fits(px + t.dx as i64 + t.dx3 as i64) && fits(py + t.dy as i64 + t.dy3 as i64)
}

fn fits(v: i64) -> (b: bool)
    ensures
        b == fits_i32(v as int),
{
    i32::MIN as i64 <= v && v <= i32::MAX as i64
}

/// A level field draws level ticks: when the slope at a tick's grid
/// point is zero the front end derives a vertical offset of zero, and
/// the tick's main segment then lies entirely on its own pixel row,
/// one pixel per column across its full length.
pub proof fn lemma_level_tick_horizontal(gx: int, gy: int, t: TickOffsets)
    requires
        t.dy == 0,
    ensures
        spec_tick_points(gx, gy, t, false).len() == 2 * iabs(t.dx as int) + 1,
        forall |j: int|
            0 <= j < spec_tick_points(gx, gy, t, false).len() ==> (#[trigger] spec_tick_points(
                gx,
                gy,
                t,
                false,
            )[j]).1 == spec_grid_to_pixel(gx, gy).1,
{
    let (px, py) = spec_grid_to_pixel(gx, gy);
    crate::raster::lemma_horizontal_line_points(px + t.dx as int, py, px - t.dx as int);
    assert(iabs((px - t.dx as int) - (px + t.dx as int)) == 2 * iabs(t.dx as int));
}

} // verus!

//! Verified core of a slope-field renderer.
//!
//! For a first-order differential equation dy/dx = f(x, y) the renderer
//! colours every pixel of a fixed 1000 x 1000 raster by the sign and
//! magnitude of f at that point and overlays a lattice of short line
//! segments ("slope ticks") whose angle follows the field, plus one tick
//! that tracks the pointer.
//!
//! This crate holds the integer core of that pipeline: the affine map
//! between pixel space and grid space, the line rasterizer, the tick
//! drawing pass, the level-to-colour shading pass and the per-frame
//! orchestration, all with proved contracts.  Evaluating the field
//! function and turning slopes into pixel offsets is real arithmetic;
//! the unverified front end does that and hands this crate plain
//! integers (shading levels and tick offsets), so every decision about
//! which byte of the frame holds which value is made - and proved -
//! here.
//!
//! Grid coordinates are held in fixed point: [`SUBUNITS`] subunits make
//! one grid unit, so one pixel is exactly one subunit and the visible
//! range of [-10, 10] units spans [-500, 500] subunits on each axis.

use vstd::prelude::*;

pub mod raster;
pub mod shade;
pub mod tick;
pub mod world;

verus! {

/// Raster width in pixels.
pub const WIDTH: u32 = 1000;

/// Raster height in pixels.
pub const HEIGHT: u32 = 1000;

/// Half the raster width, the pixel x of the grid origin.
pub const HALF_WIDTH: i32 = 500;

/// Half the raster height, the pixel y of the grid origin.
pub const HALF_HEIGHT: i32 = 500;

/// The grid half-range: the visible plane spans [-10, 10] units on each axis.
pub const GRID_RANGE: i32 = 10;

/// Fixed-point scale of grid coordinates: subunits per grid unit,
/// `HALF_WIDTH / GRID_RANGE`, chosen so that one pixel spans exactly one
/// subunit.
pub const SUBUNITS: i32 = 50;

/// The pixel-to-grid map `gx = ((px - W/2) / (W/2)) * R`,
/// `gy = (-(py - H/2) / (H/2)) * R`, expressed in grid subunits, where it
/// is exact: scaling by `SUBUNITS = (W/2) / R` leaves `gx = px - W/2` and
/// `gy = H/2 - py`.  The y axis flips between the two spaces.
pub open spec fn spec_pixel_to_grid(px: int, py: int) -> (int, int) {
    (px - HALF_WIDTH as int, HALF_HEIGHT as int - py)
}

/// The inverse affine map, from grid subunits to pixel coordinates.
pub open spec fn spec_grid_to_pixel(gx: int, gy: int) -> (int, int) {
    (gx + HALF_WIDTH as int, HALF_HEIGHT as int - gy)
}

/// Convert pixel coordinates (origin top-left, y down) to grid
/// coordinates (origin centre, y up), returned in grid subunits.
pub fn pixel_to_grid_space(x: i32, y: i32) -> (g: (i32, i32))
    requires
        x >= i32::MIN + HALF_WIDTH as int,
        y >= i32::MIN + HALF_HEIGHT as int + 1,
    ensures
        (g.0 as int, g.1 as int) == spec_pixel_to_grid(x as int, y as int),
{
    (x - HALF_WIDTH, HALF_HEIGHT - y)
}

/// Convert grid coordinates in subunits to pixel coordinates.  On
/// subunit-integral grid points the map is exact, so the truncating
/// float-to-pixel conversion has nothing to truncate.
pub fn grid_to_pixel_space(x: i32, y: i32) -> (p: (i32, i32))
    requires
        x <= i32::MAX - HALF_WIDTH as int,
        y >= i32::MIN + HALF_HEIGHT as int + 1,
    ensures
        (p.0 as int, p.1 as int) == spec_grid_to_pixel(x as int, y as int),
{
    (x + HALF_WIDTH, HALF_HEIGHT - y)
}

/// Round-trip law: mapping a pixel into grid space and back reproduces
/// the pixel exactly, and mapping a grid point into pixel space and back
/// reproduces the grid point exactly.  In the fixed-point representation
/// the two maps are mutually inverse bijections, so the round trip is
/// not merely within one pixel of quantization error but exact.
pub proof fn lemma_grid_pixel_round_trip(px: int, py: int, gx: int, gy: int)
    ensures
        ({
            let (ggx, ggy) = spec_pixel_to_grid(px, py);
            spec_grid_to_pixel(ggx, ggy) == (px, py)
        }),
        ({
            let (ppx, ppy) = spec_grid_to_pixel(gx, gy);
            spec_pixel_to_grid(ppx, ppy) == (gx, gy)
        }),
{
}

} // verus!

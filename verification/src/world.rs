//! Per-frame orchestration: the cached shading pass, the parallel copy
//! of the cache into the frame, the fixed tick lattice and the
//! pointer tick.
//!
//! A draw request repaints everything: the background (computed once
//! per field function and cached), then a 19 x 19 lattice of ticks at
//! the integer grid points from -9 to 9 on both axes, then one tick at
//! the pointer's grid position, always last so it overlays the
//! lattice.  The shading levels and tick offsets depend on the field
//! function, which is real-valued; the unverified front end evaluates
//! it and passes them in as plain integers, one level per pixel and
//! one offset record per tick.

use vstd::prelude::*;

use rayon::iter::IndexedParallelIterator;
use rayon::iter::ParallelIterator;
use rayon::slice::ParallelSlice;
use rayon::slice::ParallelSliceMut;

use crate::pixel_to_grid_space;
use crate::raster::frame_len;
use crate::raster::lemma_paint_points_len;
use crate::raster::paint_points;
use crate::shade::color_bytes;
use crate::shade::shade;
use crate::shade::spec_shade;
use crate::spec_pixel_to_grid;
use crate::tick::draw_slope_line;
use crate::tick::spec_tick_points;
use crate::tick::tick_fits;
use crate::tick::TickOffsets;
use crate::HALF_HEIGHT;
use crate::HALF_WIDTH;
use crate::HEIGHT;
use crate::SUBUNITS;
use crate::WIDTH;

verus! {

/// Ticks per lattice axis: integer grid coordinates -9 to 9.
pub const LATTICE_DIM: usize = 19;

/// Ticks in the whole lattice.
pub const LATTICE_TICKS: usize = 361;

/// Grid x of the k-th lattice tick, in subunits: the lattice walks
/// x outermost, y innermost, over the integer grid points.
pub open spec fn lattice_gx(k: int) -> int {
    (SUBUNITS as int) * (k / (LATTICE_DIM as int) - 9)
}

/// Grid y of the k-th lattice tick, in subunits.
pub open spec fn lattice_gy(k: int) -> int {
    (SUBUNITS as int) * (k % (LATTICE_DIM as int) - 9)
}

/// The background bytes of a run of shading levels: four bytes per
/// level, in level order.
pub open spec fn spec_background(levels: Seq<i32>) -> Seq<u8>
    decreases levels.len(),
{
    if levels.len() == 0 {
        Seq::empty()
    } else {
        spec_background(levels.drop_last()) + color_bytes(spec_shade(levels.last() as int))
    }
}

/// The background holds four bytes per level.
pub proof fn lemma_background_len(levels: Seq<i32>)
    ensures
        spec_background(levels).len() == 4 * levels.len(),
    decreases levels.len(),
{
    if levels.len() > 0 {
        lemma_background_len(levels.drop_last());
    }
}

/// The buffer after the first n lattice ticks are painted over it, in
/// lattice order.
pub open spec fn spec_lattice(buf: Seq<u8>, ticks: Seq<TickOffsets>, n: int) -> Seq<u8>
    decreases n,
{
    if n <= 0 {
        buf
    } else {
        paint_points(
            spec_lattice(buf, ticks, n - 1),
            spec_tick_points(lattice_gx(n - 1), lattice_gy(n - 1), ticks[n - 1], true),
        )
    }
}

/// The cache a draw leaves behind: computed from the levels when it
/// was still empty, untouched otherwise.
pub open spec fn spec_cache_after(cache: Seq<u8>, levels: Seq<i32>) -> Seq<u8> {
    if cache.len() == 0 {
        spec_background(levels)
    } else {
        cache
    }
}

/// The frame a draw produces from a full cache: the whole lattice
/// painted over the background, then the pointer tick painted last.
pub open spec fn spec_frame(
    cache: Seq<u8>,
    ticks: Seq<TickOffsets>,
    mouse_t: TickOffsets,
    mouse: (i32, i32),
) -> Seq<u8> {
    let lat = spec_lattice(cache, ticks, LATTICE_TICKS as int);
    let (gx, gy) = spec_pixel_to_grid(mouse.0 as int, mouse.1 as int);
    paint_points(lat, spec_tick_points(gx, gy, mouse_t, true))
}

/// The renderer's state: the last pointer position the input
/// collaborator reported, and the background cache, empty until the
/// first draw for the bound field function.  Swapping the field
/// function means clearing the cache, which a fresh `World` models.
pub struct World {
    /// Last pointer position, in pixel coordinates.
    pub mouse_pos: (i32, i32),
    field: Vec<u8>,
}

impl World {
    /// The cached background bytes.
    pub closed spec fn cache(&self) -> Seq<u8> {
        self.field@
    }

    /// The last pointer position, as the contracts see it.
    pub closed spec fn pointer(&self) -> (i32, i32) {
        self.mouse_pos
    }

    /// Well-formed: the cache is still uncomputed, or holds exactly
    /// one frame of background bytes.
    pub open spec fn wf(&self) -> bool {
        self.cache().len() == 0 || self.cache().len() == frame_len()
    }

    /// A fresh renderer: pointer at the origin, cache uncomputed.
    pub fn new() -> (w: World)
        ensures
            w.pointer() == (0i32, 0i32),
            w.cache().len() == 0,
            w.wf(),
    {
        World { mouse_pos: (0, 0), field: Vec::new() }
    }

    /// The shading pass: shade every pixel's level into the cache.
    /// Each pixel is independent of every other, so the pass could run
    /// as parallel units partitioned by pixel index; it is written as
    /// one walk over the levels.
    fn draw_field(&mut self, levels: &Vec<i32>)
        requires
            levels@.len() == (WIDTH as int) * (HEIGHT as int),
        ensures
            final(self).cache() == spec_background(levels@),
            final(self).pointer() == old(self).pointer(),
    {
        self.field.clear();
        let n = levels.len();
        let mut i: usize = 0;
        while i < n
            invariant
                i <= n,
                n == levels@.len(),
                self.field@ == spec_background(levels@.subrange(0, i as int)),
                self.mouse_pos == old(self).mouse_pos,
            decreases n - i,
        {
            let ghost prefix = levels@.subrange(0, i as int);
            let c = shade(levels[i]);
            self.field.push(c.r);
            self.field.push(c.g);
            self.field.push(c.b);
            self.field.push(c.a);
            proof {
                let longer = levels@.subrange(0, i + 1);
                assert(longer.drop_last() =~= prefix);
                assert(longer.last() == levels@[i as int]);
                assert(self.field@ =~= spec_background(prefix) + color_bytes(
                    spec_shade(levels@[i as int] as int),
                ));
            }
            i = i + 1;
        }
        proof {
            assert(levels@.subrange(0, n as int) =~= levels@);
        }
    }

    /// One draw request: compute the background cache if it is still
    /// empty, copy it into the frame, draw the tick lattice, then the
    /// pointer tick.  The contract pins every byte of the frame as a
    /// function of the levels, the offsets, the pointer and the old
    /// cache, so a draw is deterministic in its inputs.
    pub fn draw(
        &mut self,
        frame: &mut Vec<u8>,
        levels: &Vec<i32>,
        ticks: &Vec<TickOffsets>,
        mouse_t: &TickOffsets,
    )
        requires
            old(self).wf(),
            old(frame)@.len() == frame_len(),
            levels@.len() == (WIDTH as int) * (HEIGHT as int),
            ticks@.len() == LATTICE_TICKS as int,
            forall |k: int|
                0 <= k < LATTICE_TICKS as int ==> tick_fits(
                    lattice_gx(k),
                    lattice_gy(k),
                    #[trigger] ticks@[k],
                ),
            old(self).pointer().0 >= i32::MIN + HALF_WIDTH as int,
            old(self).pointer().1 >= i32::MIN + HALF_HEIGHT as int + 1,
            tick_fits(
                spec_pixel_to_grid(old(self).pointer().0 as int, old(self).pointer().1 as int).0,
                spec_pixel_to_grid(old(self).pointer().0 as int, old(self).pointer().1 as int).1,
                *mouse_t,
            ),
        ensures
            final(self).wf(),
            final(self).pointer() == old(self).pointer(),
            final(self).cache() == spec_cache_after(old(self).cache(), levels@),
            final(frame)@ == spec_frame(
                spec_cache_after(old(self).cache(), levels@),
                ticks@,
                *mouse_t,
                old(self).pointer(),
            ),
            final(frame)@.len() == old(frame)@.len(),
    {
        if self.field.len() == 0 {
            self.draw_field(levels);
            proof {
                lemma_background_len(levels@);
            }
        }
        let ghost cache = self.field@;
        assert(cache == spec_cache_after(old(self).cache(), levels@));
        assert(cache.len() == frame_len());

        copy_field_parallel(frame, &self.field);

        let mut i: usize = 0;
        while i < LATTICE_DIM
            invariant
                i <= LATTICE_DIM,
                frame@.len() == frame_len(),
                frame@ == spec_lattice(cache, ticks@, (LATTICE_DIM as int) * i),
                ticks@.len() == LATTICE_TICKS as int,
                forall |k: int|
                    0 <= k < LATTICE_TICKS as int ==> tick_fits(
                        lattice_gx(k),
                        lattice_gy(k),
                        #[trigger] ticks@[k],
                    ),
            decreases LATTICE_DIM - i,
        {
            let mut j: usize = 0;
            while j < LATTICE_DIM
                invariant
                    i < LATTICE_DIM,
                    j <= LATTICE_DIM,
                    frame@.len() == frame_len(),
                    frame@ == spec_lattice(cache, ticks@, (LATTICE_DIM as int) * i + j),
                    ticks@.len() == LATTICE_TICKS as int,
                    forall |k: int|
                        0 <= k < LATTICE_TICKS as int ==> tick_fits(
                            lattice_gx(k),
                            lattice_gy(k),
                            #[trigger] ticks@[k],
                        ),
                decreases LATTICE_DIM - j,
            {
                let gx: i32 = SUBUNITS * (i as i32 - 9);
                let gy: i32 = SUBUNITS * (j as i32 - 9);
                let k: usize = LATTICE_DIM * i + j;
                proof {
                    assert((k as int) / (LATTICE_DIM as int) == i as int);
                    assert((k as int) % (LATTICE_DIM as int) == j as int);
                    assert(lattice_gx(k as int) == gx as int);
                    assert(lattice_gy(k as int) == gy as int);
                }
                let ghost pre = frame@;
                draw_slope_line(frame, gx, gy, &ticks[k], true);
                proof {
                    lemma_paint_points_len(
                        pre,
                        spec_tick_points(gx as int, gy as int, ticks@[k as int], true),
                    );
                    assert(frame@ == spec_lattice(cache, ticks@, k as int + 1));
                }
                j = j + 1;
            }
            i = i + 1;
        }
        assert(frame@ == spec_lattice(cache, ticks@, LATTICE_TICKS as int));

        let (gx, gy) = pixel_to_grid_space(self.mouse_pos.0, self.mouse_pos.1);
        draw_slope_line(frame, gx, gy, mouse_t, true);
    }
}

/// Relies on rayon's `par_chunks_exact_mut`, `par_chunks_exact`, `zip`
/// and `for_each`: the frame and the cache split into the same number
/// of disjoint four-byte chunks, `zip` pairs the chunks of equal
/// index, and each task overwrites its frame chunk with its cache
/// chunk, so after the joining `for_each` the frame holds exactly the
/// cache's bytes.
#[verifier::external_body]
fn copy_field_parallel(frame: &mut Vec<u8>, field: &Vec<u8>)
    requires
        old(frame)@.len() == field@.len(),
        field@.len() % 4 == 0,
    ensures
        final(frame)@ == field@,
{
    frame.par_chunks_exact_mut(4).zip(field.par_chunks_exact(4)).for_each(
        |(dst, src): (&mut [u8], &[u8])| dst.copy_from_slice(src),
    );
}

/// Determinism of a redraw: two successive draws with the same levels,
/// the same tick offsets and the same pointer position produce
/// byte-identical frames.  The first draw fills the empty cache from
/// the levels and paints from it; the second starts from the cache the
/// first left behind, which holds exactly the background of those same
/// levels, and so paints the same bytes again.
pub proof fn lemma_redraw_identical(
    levels: Seq<i32>,
    ticks: Seq<TickOffsets>,
    mouse_t: TickOffsets,
    mouse: (i32, i32),
)
    ensures
        ({
            let first_cache = spec_cache_after(Seq::<u8>::empty(), levels);
            let second_cache = spec_cache_after(first_cache, levels);
            spec_frame(second_cache, ticks, mouse_t, mouse) == spec_frame(
                first_cache,
                ticks,
                mouse_t,
                mouse,
            )
        }),
{
}

/// A constant-zero field shades a pure-black background: with every
/// level zero, every pixel's four bytes are 0, 0, 0 and the opaque
/// alpha.
pub proof fn lemma_zero_levels_black(levels: Seq<i32>)
    requires
        forall |i: int| 0 <= i < levels.len() ==> levels[i] == 0,
    ensures
        spec_background(levels).len() == 4 * levels.len(),
        forall |k: int|
            0 <= k < 4 * levels.len() ==> spec_background(levels)[k] == (if k % 4 == 3 {
                255u8
            } else {
                0u8
            }),
    decreases levels.len(),
{
    lemma_background_len(levels);
    if levels.len() > 0 {
        let shorter = levels.drop_last();
        lemma_zero_levels_black(shorter);
        lemma_background_len(shorter);
        assert(spec_shade(levels.last() as int) == spec_shade(0));
        assert forall |k: int| 0 <= k < 4 * levels.len() implies spec_background(levels)[k] == (
        if k % 4 == 3 {
            255u8
        } else {
            0u8
        }) by {
            if k < 4 * shorter.len() {
                assert(spec_background(levels)[k] == spec_background(shorter)[k]);
            } else {
                assert(spec_background(levels)[k] == color_bytes(spec_shade(0))[k - 4 * shorter.len()]);
            }
        }
    }
}

} // verus!

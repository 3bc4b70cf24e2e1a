//! Discrete line drawing: an integer-error Bresenham walk generalized to
//! arbitrary slope, writing the fixed "on" colour to every pixel of the
//! ideal segment that lies inside the raster.

use vstd::prelude::*;

use crate::HEIGHT;
use crate::WIDTH;

verus! {

/// The channel value of the "on" colour: lines are drawn fully white.
pub const ON_BYTE: u8 = 255;

/// Byte length of one frame: four channels per pixel, row-major.
pub open spec fn frame_len() -> int {
    4 * (WIDTH as int) * (HEIGHT as int)
}

/// Absolute value of a mathematical integer.
pub open spec fn iabs(a: int) -> int {
    if a >= 0 {
        a
    } else {
        -a
    }
}

/// Direction of one walk axis: towards the target, defaulting to -1
/// when source and target coincide (the direction is then never used to
/// step, as the terminal check on that axis fires first).
pub open spec fn step_dir(from: int, to: int) -> int {
    if from < to {
        1
    } else {
        -1
    }
}

/// Does a pixel lie inside the raster?
pub open spec fn in_bounds(x: int, y: int) -> bool {
    0 <= x < WIDTH as int && 0 <= y < HEIGHT as int
}

/// First byte of the pixel at (x, y) in the flat row-major frame.
pub open spec fn byte_index(x: int, y: int) -> int {
    4 * (y * (WIDTH as int) + x)
}

/// The walk state is well formed: the error increments have their fixed
/// signs, the axis directions are unit steps, and each direction points
/// from the current point towards its target.  The walk starts well
/// formed and stays so.
pub open spec fn walk_ok(
    x: int,
    y: int,
    xt: int,
    yt: int,
    dx: int,
    dy: int,
    sx: int,
    sy: int,
) -> bool {
    &&& dx >= 0
    &&& dy <= 0
    &&& (sx == 1 || sx == -1)
    &&& (sy == 1 || sy == -1)
    &&& (sx == 1 ==> x <= xt)
    &&& (sx == -1 ==> x >= xt)
    &&& (sy == 1 ==> y <= yt)
    &&& (sy == -1 ==> y >= yt)
}

/// The pixels the error-accumulator walk visits, in order, from the
/// current state (x, y, err) until it reaches the target (xt, yt) or
/// exhausts an axis: the current pixel always, then - unless a terminal
/// check fires - x advances when `2 err >= dy` and y advances when
/// `2 err <= dx`, the error gaining dy or dx respectively.  Each axis
/// has its own terminal check before it would move past its target, so
/// a diagonal can end in a single step without overshoot.
pub open spec fn walk_points(
    x: int,
    y: int,
    err: int,
    xt: int,
    yt: int,
    dx: int,
    dy: int,
    sx: int,
    sy: int,
) -> Seq<(int, int)>
    decreases iabs(xt - x) + iabs(yt - y),
        when walk_ok(x, y, xt, yt, dx, dy, sx, sy)
{
    let first = seq![(x, y)];
    if x == xt && y == yt {
        first
    } else {
        let e2 = 2 * err;
        if e2 >= dy && x == xt {
            first
        } else if e2 <= dx && y == yt {
            first
        } else {
            let xn = if e2 >= dy {
                x + sx
            } else {
                x
            };
            let en = if e2 >= dy {
                err + dy
            } else {
                err
            };
            let yn = if e2 <= dx {
                y + sy
            } else {
                y
            };
            let enn = if e2 <= dx {
                en + dx
            } else {
                en
            };
            first + walk_points(xn, yn, enn, xt, yt, dx, dy, sx, sy)
        }
    }
}

/// The pixels an ideal line from (x1, y1) to (x2, y2) passes through,
/// as the walk visits them: the walk starts at the first endpoint with
/// error `dx + dy`, for `dx = |x2 - x1|` and `dy = -|y2 - y1|`.
pub open spec fn spec_line_points(x1: int, y1: int, x2: int, y2: int) -> Seq<(int, int)> {
    walk_points(
        x1,
        y1,
        iabs(x2 - x1) + (-iabs(y2 - y1)),
        x2,
        y2,
        iabs(x2 - x1),
        -iabs(y2 - y1),
        step_dir(x1, x2),
        step_dir(y1, y2),
    )
}

/// One plot: the four bytes of the pixel turn to the "on" colour if the
/// pixel is inside the raster; a pixel outside is skipped and the
/// buffer is left as it was.  Painting is only meaningful on a buffer
/// of the frame's exact length, so anything else is also left as it is.
pub open spec fn paint_pixel(buf: Seq<u8>, x: int, y: int) -> Seq<u8> {
    if in_bounds(x, y) && buf.len() == frame_len() {
        let i = byte_index(x, y);
        buf.update(i, ON_BYTE).update(i + 1, ON_BYTE).update(i + 2, ON_BYTE).update(
            i + 3,
            ON_BYTE,
        )
    } else {
        buf
    }
}

/// Plot a sequence of pixels in order, each clipped to the raster.
pub open spec fn paint_points(buf: Seq<u8>, pts: Seq<(int, int)>) -> Seq<u8>
    decreases pts.len(),
{
    if pts.len() == 0 {
        buf
    } else {
        paint_points(paint_pixel(buf, pts[0].0, pts[0].1), pts.drop_first())
    }
}

proof fn lemma_paint_one(buf: Seq<u8>, p: (int, int))
    ensures
        paint_points(buf, seq![p]) == paint_pixel(buf, p.0, p.1),
{
    assert(seq![p][0] == p);
    assert(seq![p].drop_first() =~= Seq::<(int, int)>::empty());
    assert(paint_points(paint_pixel(buf, p.0, p.1), Seq::<(int, int)>::empty()) == paint_pixel(
        buf,
        p.0,
        p.1,
    ));
}

proof fn lemma_paint_cons(buf: Seq<u8>, p: (int, int), rest: Seq<(int, int)>)
    ensures
        paint_points(buf, seq![p] + rest) == paint_points(paint_pixel(buf, p.0, p.1), rest),
{
    assert((seq![p] + rest)[0] == p);
    assert((seq![p] + rest).drop_first() =~= rest);
}

/// Painting never changes the length of the buffer.
pub proof fn lemma_paint_points_len(buf: Seq<u8>, pts: Seq<(int, int)>)
    ensures
        paint_points(buf, pts).len() == buf.len(),
    decreases pts.len(),
{
    if pts.len() > 0 {
        assert(paint_pixel(buf, pts[0].0, pts[0].1).len() == buf.len());
        lemma_paint_points_len(paint_pixel(buf, pts[0].0, pts[0].1), pts.drop_first());
    }
}

/// Painting a concatenation paints the first part, then the second.
pub proof fn lemma_paint_points_app(buf: Seq<u8>, a: Seq<(int, int)>, b: Seq<(int, int)>)
    ensures
        paint_points(buf, a + b) == paint_points(paint_points(buf, a), b),
    decreases a.len(),
{
    if a.len() == 0 {
        assert(a + b =~= b);
    } else {
        assert((a + b)[0] == a[0]);
        assert((a + b).drop_first() =~= a.drop_first() + b);
        lemma_paint_points_app(paint_pixel(buf, a[0].0, a[0].1), a.drop_first(), b);
    }
}

/// Does the byte at offset k belong to some in-bounds pixel of the
/// point list?  Only such bytes can be touched by painting the list.
pub open spec fn covers(pts: Seq<(int, int)>, k: int) -> bool {
    exists |j: int|
        0 <= j < pts.len() && in_bounds((#[trigger] pts[j]).0, pts[j].1) && byte_index(
            pts[j].0,
            pts[j].1,
        ) <= k < byte_index(pts[j].0, pts[j].1) + 4
}

/// What painting a point list does to each byte: a byte of an in-bounds
/// painted pixel turns to the "on" colour, and every other byte keeps
/// its old value.
pub proof fn lemma_paint_points_char(buf: Seq<u8>, pts: Seq<(int, int)>, k: int)
    requires
        buf.len() == frame_len(),
        0 <= k < buf.len(),
    ensures
        covers(pts, k) ==> paint_points(buf, pts)[k] == ON_BYTE,
        !covers(pts, k) ==> paint_points(buf, pts)[k] == buf[k],
    decreases pts.len(),
{
    if pts.len() == 0 {
        assert(!covers(pts, k));
    } else {
        let p = pts[0];
        let b1 = paint_pixel(buf, p.0, p.1);
        let rest = pts.drop_first();
        assert(b1.len() == buf.len());
        lemma_paint_points_char(b1, rest, k);
        if covers(rest, k) {
            let j = choose |j: int|
                0 <= j < rest.len() && in_bounds((#[trigger] rest[j]).0, rest[j].1) && byte_index(
                    rest[j].0,
                    rest[j].1,
                ) <= k < byte_index(rest[j].0, rest[j].1) + 4;
            assert(pts[j + 1] == rest[j]);
            assert(covers(pts, k));
        } else {
            assert(paint_points(buf, pts)[k] == b1[k]);
            if in_bounds(p.0, p.1) && byte_index(p.0, p.1) <= k < byte_index(p.0, p.1) + 4 {
                assert(b1[k] == ON_BYTE);
                assert(covers(pts, k));
            } else {
                assert(b1[k] == buf[k]);
                if covers(pts, k) {
                    let j = choose |j: int|
                        0 <= j < pts.len() && in_bounds((#[trigger] pts[j]).0, pts[j].1)
                            && byte_index(pts[j].0, pts[j].1) <= k < byte_index(
                            pts[j].0,
                            pts[j].1,
                        ) + 4;
                    assert(j > 0);
                    assert(rest[j - 1] == pts[j]);
                    assert(covers(rest, k));
                    assert(false);
                }
            }
        }
    }
}

/// Clipping law: however far outside the raster the endpoints lie, a
/// line draw stays inside it.  The frame keeps its length, every byte
/// that does not belong to an in-bounds pixel of the line's walk keeps
/// its old value, and a byte the draw does change only turns to the
/// "on" colour - so endpoints beyond the buffer bounds cannot make the
/// rasterizer write out of range.
pub proof fn lemma_rasterizer_clips(buf: Seq<u8>, x1: int, y1: int, x2: int, y2: int, k: int)
    requires
        buf.len() == frame_len(),
        0 <= k < buf.len(),
    ensures
        paint_points(buf, spec_line_points(x1, y1, x2, y2)).len() == buf.len(),
        paint_points(buf, spec_line_points(x1, y1, x2, y2))[k] != buf[k] ==> covers(
            spec_line_points(x1, y1, x2, y2),
            k,
        ) && paint_points(buf, spec_line_points(x1, y1, x2, y2))[k] == ON_BYTE,
{
    lemma_paint_points_len(buf, spec_line_points(x1, y1, x2, y2));
    lemma_paint_points_char(buf, spec_line_points(x1, y1, x2, y2), k);
}

/// Painting the same points a second time changes nothing: every
/// touched byte already holds the "on" colour, so the rasterizer is
/// idempotent on identical arguments.
pub proof fn lemma_paint_points_idempotent(buf: Seq<u8>, pts: Seq<(int, int)>)
    requires
        buf.len() == frame_len(),
    ensures
        paint_points(paint_points(buf, pts), pts) == paint_points(buf, pts),
{
    let once = paint_points(buf, pts);
    let twice = paint_points(once, pts);
    lemma_paint_points_len(buf, pts);
    lemma_paint_points_len(once, pts);
    assert forall |k: int| 0 <= k < once.len() implies twice[k] == once[k] by {
        lemma_paint_points_char(buf, pts, k);
        lemma_paint_points_char(once, pts, k);
    };
    assert(twice =~= once);
}

proof fn lemma_walk_horizontal(x: int, y: int, xt: int, dx: int, sx: int)
    requires
        dx >= 1,
        sx == 1 || sx == -1,
        sx == 1 ==> x <= xt,
        sx == -1 ==> x >= xt,
    ensures
        walk_points(x, y, dx, xt, y, dx, 0, sx, -1) == Seq::new(
            (iabs(xt - x) + 1) as nat,
            |i: int| (x + sx * i, y),
        ),
    decreases iabs(xt - x),
{
    let pts = walk_points(x, y, dx, xt, y, dx, 0, sx, -1);
    if x == xt {
        assert(pts =~= Seq::new((iabs(xt - x) + 1) as nat, |i: int| (x + sx * i, y)));
    } else {
        lemma_walk_horizontal(x + sx, y, xt, dx, sx);
        let tail = walk_points(x + sx, y, dx, xt, y, dx, 0, sx, -1);
        assert(pts == seq![(x, y)] + tail);
        if sx == 1 {
            assert(pts =~= Seq::new((iabs(xt - x) + 1) as nat, |i: int| (x + sx * i, y)));
        } else {
            assert(pts =~= Seq::new((iabs(xt - x) + 1) as nat, |i: int| (x + sx * i, y)));
        }
    }
}

/// A horizontal line covers exactly the pixels of its own row between
/// its endpoints, one pixel per column, walked from the first endpoint
/// towards the second; in particular a line from a point to itself
/// covers exactly that point.
pub proof fn lemma_horizontal_line_points(x1: int, y: int, x2: int)
    ensures
        spec_line_points(x1, y, x2, y) == Seq::new(
            (iabs(x2 - x1) + 1) as nat,
            |i: int| (x1 + step_dir(x1, x2) * i, y),
        ),
{
    if x1 == x2 {
        assert(spec_line_points(x1, y, x2, y) =~= Seq::new(
            (iabs(x2 - x1) + 1) as nat,
            |i: int| (x1 + step_dir(x1, x2) * i, y),
        ));
    } else {
        lemma_walk_horizontal(x1, y, x2, iabs(x2 - x1), step_dir(x1, x2));
    }
}

/// Draw a line between two pixel points, writing the "on" colour to
/// every pixel of the walk that lies inside the raster and skipping the
/// rest.  Coinciding endpoints draw a single pixel.  Drawing the same
/// line twice leaves the same bytes: pixels already on stay on.
pub fn draw_line(frame: &mut Vec<u8>, x1: i32, y1: i32, x2: i32, y2: i32)
    requires
        old(frame)@.len() == frame_len(),
    ensures
        final(frame)@ == paint_points(
            old(frame)@,
            spec_line_points(x1 as int, y1 as int, x2 as int, y2 as int),
        ),
{
    let mut x: i64 = x1 as i64;
    let mut y: i64 = y1 as i64;
    let xt: i64 = x2 as i64;
    let yt: i64 = y2 as i64;

    let dx: i64 = if xt >= x {
        xt - x
    } else {
        x - xt
    };
    let dy: i64 = if yt >= y {
        y - yt
    } else {
        yt - y
    };
    let sx: i64 = if x < xt {
        1
    } else {
        -1
    };
    let sy: i64 = if y < yt {
        1
    } else {
        -1
    };
    let mut err: i64 = dx + dy;

    let ghost buf0: Seq<u8> = frame@;
    let ghost target: Seq<u8> = paint_points(
        buf0,
        spec_line_points(x1 as int, y1 as int, x2 as int, y2 as int),
    );

    loop
        invariant_except_break
            frame@.len() == frame_len(),
            dx == iabs(x2 as int - x1 as int),
            dy == -iabs(y2 as int - y1 as int),
            sx == step_dir(x1 as int, x2 as int),
            sy == step_dir(y1 as int, y2 as int),
            xt == x2 as int,
            yt == y2 as int,
            walk_ok(
                x as int,
                y as int,
                xt as int,
                yt as int,
                dx as int,
                dy as int,
                sx as int,
                sy as int,
            ),
            2 * (dy as int) <= err as int <= 2 * (dx as int),
            paint_points(
                frame@,
                walk_points(
                    x as int,
                    y as int,
                    err as int,
                    xt as int,
                    yt as int,
                    dx as int,
                    dy as int,
                    sx as int,
                    sy as int,
                ),
            ) == target,
        ensures
            frame@ == target,
        decreases iabs(xt as int - x as int) + iabs(yt as int - y as int),
    {
        let ghost pre = frame@;
        let ghost x0: int = x as int;
        let ghost y0: int = y as int;
        let ghost p: (int, int) = (x0, y0);
        let ghost rest = walk_points(
            x0,
            y0,
            err as int,
            xt as int,
            yt as int,
            dx as int,
            dy as int,
            sx as int,
            sy as int,
        );

        if 0 <= x && x < WIDTH as i64 && 0 <= y && y < HEIGHT as i64 {
            let i: usize = (y as usize) * (WIDTH as usize) + (x as usize);
            frame[4 * i] = ON_BYTE;
            frame[4 * i + 1] = ON_BYTE;
            frame[4 * i + 2] = ON_BYTE;
            frame[4 * i + 3] = ON_BYTE;
            proof {
                assert(frame@ =~= paint_pixel(pre, x0, y0));
            }
        } else {
            proof {
                assert(frame@ =~= paint_pixel(pre, x0, y0));
            }
        }

        if x == xt && y == yt {
            proof {
                assert(rest == seq![p]);
                lemma_paint_one(pre, p);
            }
            break;
        }
        let e2: i64 = 2 * err;
        if e2 >= dy {
            if x == xt {
                proof {
                    assert(rest == seq![p]);
                    lemma_paint_one(pre, p);
                }
                break;
            }
            err = err + dy;
            x = x + sx;
        }
        if e2 <= dx {
            if y == yt {
                proof {
                    assert(rest == seq![p]);
                    lemma_paint_one(pre, p);
                }
                break;
            }
            err = err + dx;
            y = y + sy;
        }
        proof {
            let after = walk_points(
                x as int,
                y as int,
                err as int,
                xt as int,
                yt as int,
                dx as int,
                dy as int,
                sx as int,
                sy as int,
            );
            assert(rest == seq![p] + after);
            lemma_paint_cons(pre, p, after);
        }
    }
}

} // verus!

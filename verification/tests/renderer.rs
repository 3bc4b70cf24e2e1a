use slope_fields::grid_to_pixel_space;
use slope_fields::pixel_to_grid_space;
use slope_fields::raster::draw_line;
use slope_fields::shade::shade;
use slope_fields::shade::Color;
use slope_fields::tick::draw_slope_line;
use slope_fields::tick::tick_offsets_fit;
use slope_fields::tick::TickOffsets;
use slope_fields::world::World;
use slope_fields::HEIGHT;
use slope_fields::WIDTH;

const W: usize = WIDTH as usize;
const H: usize = HEIGHT as usize;

fn empty_frame() -> Vec<u8> {
    vec![0u8; W * H * 4]
}

fn pixel(frame: &[u8], x: usize, y: usize) -> [u8; 4] {
    let i = 4 * (y * W + x);
    [frame[i], frame[i + 1], frame[i + 2], frame[i + 3]]
}

const WHITE: [u8; 4] = [255, 255, 255, 255];
const ZERO: [u8; 4] = [0, 0, 0, 0];

fn zero_offsets() -> TickOffsets {
    TickOffsets { dx: 0, dy: 0, dx2: 0, dy2: 0, dx3: 0, dy3: 0 }
}

#[test]
fn center_pixel_maps_to_grid_origin() {
    assert_eq!(pixel_to_grid_space(500, 500), (0, 0));
}

#[test]
fn top_left_pixel_maps_to_upper_left_grid_corner() {
    // -10 and +10 grid units, in subunits of 1/50 unit.
    assert_eq!(pixel_to_grid_space(0, 0), (-500, 500));
}

#[test]
fn grid_origin_maps_to_center_pixel() {
    assert_eq!(grid_to_pixel_space(0, 0), (500, 500));
}

#[test]
fn pixel_grid_round_trip_is_exact() {
    for &(x, y) in &[(0, 0), (500, 500), (999, 999), (123, 871), (1, 998)] {
        let (gx, gy) = pixel_to_grid_space(x, y);
        assert_eq!(grid_to_pixel_space(gx, gy), (x, y));
    }
}

#[test]
fn grid_pixel_round_trip_is_exact() {
    for &(gx, gy) in &[(0, 0), (-500, 500), (450, -450), (37, -411)] {
        let (px, py) = grid_to_pixel_space(gx, gy);
        assert_eq!(pixel_to_grid_space(px, py), (gx, gy));
    }
}

#[test]
fn horizontal_line_plots_exactly_its_row_segment() {
    let mut frame = empty_frame();
    draw_line(&mut frame, 10, 10, 20, 10);
    for y in 0..H {
        for x in 0..W {
            if y == 10 && (10..=20).contains(&x) {
                assert_eq!(pixel(&frame, x, y), WHITE);
            } else {
                assert_eq!(pixel(&frame, x, y), ZERO);
            }
        }
    }
}

#[test]
fn point_to_itself_plots_one_pixel() {
    let mut frame = empty_frame();
    draw_line(&mut frame, 77, 33, 77, 33);
    for y in 0..H {
        for x in 0..W {
            if (x, y) == (77, 33) {
                assert_eq!(pixel(&frame, x, y), WHITE);
            } else {
                assert_eq!(pixel(&frame, x, y), ZERO);
            }
        }
    }
}

#[test]
fn out_of_bounds_endpoints_are_clipped() {
    // A diagonal far past the raster on both sides: only the in-bounds
    // part of the diagonal may be touched.
    let mut frame = empty_frame();
    draw_line(&mut frame, -50, -50, 2000, 2000);
    for y in 0..H {
        for x in 0..W {
            if x == y {
                assert_eq!(pixel(&frame, x, y), WHITE);
            } else {
                assert_eq!(pixel(&frame, x, y), ZERO);
            }
        }
    }
}

#[test]
fn entirely_outside_line_leaves_frame_untouched() {
    let mut frame = empty_frame();
    draw_line(&mut frame, -100, -5, 3000, -5);
    assert!(frame.iter().all(|&b| b == 0));
}

#[test]
fn redrawing_a_line_is_idempotent() {
    let mut once = empty_frame();
    draw_line(&mut once, 3, 900, 512, 17);
    let mut twice = once.clone();
    draw_line(&mut twice, 3, 900, 512, 17);
    assert_eq!(once, twice);
}

#[test]
fn steep_line_plots_one_pixel_per_row() {
    let mut frame = empty_frame();
    draw_line(&mut frame, 100, 10, 102, 90);
    for y in 10..=90 {
        let lit: Vec<usize> = (0..W).filter(|&x| pixel(&frame, x, y) == WHITE).collect();
        assert_eq!(lit.len(), 1, "row {} should hold exactly one lit pixel", y);
        assert!((100..=102).contains(&lit[0]));
    }
}

#[test]
fn shade_of_zero_is_pure_black() {
    assert_eq!(shade(0), Color { r: 0, g: 0, b: 0, a: 255 });
}

#[test]
fn shade_of_large_levels_saturates() {
    assert_eq!(shade(255), Color { r: 255, g: 0, b: 0, a: 255 });
    assert_eq!(shade(1000), Color { r: 255, g: 0, b: 0, a: 255 });
    assert_eq!(shade(-255), Color { r: 0, g: 0, b: 255, a: 255 });
    assert_eq!(shade(i32::MIN), Color { r: 0, g: 0, b: 255, a: 255 });
}

#[test]
fn shade_sign_picks_the_channel() {
    assert_eq!(shade(120), Color { r: 120, g: 0, b: 0, a: 255 });
    assert_eq!(shade(-64), Color { r: 0, g: 0, b: 64, a: 255 });
}

#[test]
fn shade_is_monotone_in_the_level() {
    let mut last = shade(-300);
    for level in -300..=300 {
        let c = shade(level);
        assert!(c.r >= last.r && c.b <= last.b);
        assert_eq!((c.g, c.a), (0, 255));
        last = c;
    }
}

#[test]
fn level_tick_is_a_horizontal_segment() {
    // A zero slope gives a tick with no vertical offset: the main
    // segment stays on the centre row of its grid point.
    let mut frame = empty_frame();
    let t = TickOffsets { dx: 2, dy: 0, dx2: 0, dy2: 0, dx3: 0, dy3: 0 };
    draw_slope_line(&mut frame, 0, 0, &t, false);
    for y in 0..H {
        for x in 0..W {
            if y == 500 && (498..=502).contains(&x) {
                assert_eq!(pixel(&frame, x, y), WHITE);
            } else {
                assert_eq!(pixel(&frame, x, y), ZERO);
            }
        }
    }
}

#[test]
fn arrowhead_arms_start_at_the_leading_endpoint() {
    let mut frame = empty_frame();
    let t = TickOffsets { dx: 0, dy: 0, dx2: 1, dy2: 0, dx3: 0, dy3: 1 };
    draw_slope_line(&mut frame, 0, 0, &t, true);
    let lit: Vec<(usize, usize)> = (0..H)
        .flat_map(|y| (0..W).map(move |x| (x, y)))
        .filter(|&(x, y)| pixel(&frame, x, y) == WHITE)
        .collect();
    assert_eq!(lit, vec![(500, 500), (501, 500), (500, 501)]);
}

#[test]
fn tick_fit_guard_accepts_small_and_rejects_huge_offsets() {
    let small = TickOffsets { dx: 20, dy: -20, dx2: 5, dy2: 5, dx3: -5, dy3: -5 };
    assert!(tick_offsets_fit(0, 0, &small));
    let huge = TickOffsets { dx: i32::MAX, dy: 0, dx2: 0, dy2: 0, dx3: 0, dy3: 0 };
    assert!(!tick_offsets_fit(0, 0, &huge));
}

#[test]
fn new_world_starts_uncomputed_at_the_origin() {
    let w = World::new();
    assert_eq!(w.mouse_pos, (0, 0));
}

#[test]
fn zero_field_draw_shades_black_and_marks_lattice_points() {
    let mut w = World::new();
    let mut frame = empty_frame();
    let levels = vec![0i32; W * H];
    let ticks = vec![zero_offsets(); 361];
    w.mouse_pos = (500, 500);
    w.draw(&mut frame, &levels, &ticks, &zero_offsets());
    // Every lattice point's pixel is lit by its zero-length tick.
    for i in 0..19i32 {
        for j in 0..19i32 {
            let (px, py) = grid_to_pixel_space(50 * (i - 9), 50 * (j - 9));
            assert_eq!(pixel(&frame, px as usize, py as usize), WHITE);
        }
    }
    // Away from the lattice the background is pure black.
    assert_eq!(pixel(&frame, 5, 5), [0, 0, 0, 255]);
    assert_eq!(pixel(&frame, 123, 871), [0, 0, 0, 255]);
    assert_eq!(pixel(&frame, 501, 500), [0, 0, 0, 255]);
}

#[test]
fn varied_field_draw_shades_by_level() {
    let mut w = World::new();
    let mut frame = empty_frame();
    let levels: Vec<i32> = (0..W * H).map(|i| (i % 511) as i32 - 255).collect();
    let ticks = vec![zero_offsets(); 361];
    w.draw(&mut frame, &levels, &ticks, &zero_offsets());
    // Pixel (701, 301) touches no lattice tick (those sit on multiples
    // of 50) and not the pointer tick; its bytes come from its own
    // level.
    let i = 301 * W + 701;
    let level = (i % 511) as i32 - 255;
    let c = shade(level);
    assert_eq!(pixel(&frame, 701, 301), [c.r, c.g, c.b, c.a]);
}

#[test]
fn redrawing_an_unchanged_scene_is_byte_identical() {
    let mut w = World::new();
    let levels: Vec<i32> = (0..W * H).map(|i| (i % 97) as i32 - 48).collect();
    let ticks: Vec<TickOffsets> = (0..361)
        .map(|k| TickOffsets {
            dx: (k % 21) as i32 - 10,
            dy: (k % 13) as i32 - 6,
            dx2: 3,
            dy2: -3,
            dx3: -3,
            dy3: 3,
        })
        .collect();
    let mouse_t = TickOffsets { dx: 30, dy: 14, dx2: 5, dy2: 5, dx3: -5, dy3: -5 };
    w.mouse_pos = (321, 654);

    let mut first = empty_frame();
    w.draw(&mut first, &levels, &ticks, &mouse_t);
    let mut second = empty_frame();
    w.draw(&mut second, &levels, &ticks, &mouse_t);
    assert_eq!(first, second);
}

#[test]
fn pointer_tick_is_drawn_at_the_pointer() {
    let mut w = World::new();
    let mut frame = empty_frame();
    let levels = vec![0i32; W * H];
    let ticks = vec![zero_offsets(); 361];
    w.mouse_pos = (123, 77);
    w.draw(&mut frame, &levels, &ticks, &zero_offsets());
    assert_eq!(pixel(&frame, 123, 77), WHITE);
}

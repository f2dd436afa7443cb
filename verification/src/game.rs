//! Pixel compositing into an RGBA frame buffer, and score rendering.

use crate::glyphs::{
    digits, glyph_lit, glyph_lit_at, lemma_digits_len_bound, pow10, to_digits,
};
use crate::resource::{square_points_ok, GameWorld, MAX_WINDOW_DIM};
use vstd::arithmetic::div_mod::lemma_fundamental_div_mod;
use vstd::prelude::*;

verus! {

/// Byte offset of pixel `(x, y)` in an RGBA buffer of row stride `width`.
pub open spec fn pixel_offset(x: u32, y: u32, width: u32) -> int {
    ((y as int) * (width as int) + x as int) * 4
}

/// The frame after alpha-blending `color` onto pixel `(x, y)`: the three
/// color channels are blended and the alpha byte is forced to fully
/// opaque. A pixel whose four bytes do not fit in the buffer leaves it
/// unchanged.
pub open spec fn composited(frame: Seq<u8>, x: u32, y: u32, color: [u8; 4], width: u32) -> Seq<
    u8,
> {
    let i = pixel_offset(x, y, width);
    if i + 3 < frame.len() {
        frame.update(i, blend_channel(color[0], frame[i], color[3])).update(
            i + 1,
            blend_channel(color[1], frame[i + 1], color[3]),
        ).update(i + 2, blend_channel(color[2], frame[i + 2], color[3])).update(i + 3, 255u8)
    } else {
        frame
    }
}

/// The frame after overwriting pixel `(x, y)` with opaque white, the
/// degenerate blend at alpha one; out-of-bounds pixels leave it
/// unchanged.
pub open spec fn white_at(frame: Seq<u8>, x: u32, y: u32, width: u32) -> Seq<u8> {
    let i = pixel_offset(x, y, width);
    if i + 3 < frame.len() {
        frame.update(i, 255u8).update(i + 1, 255u8).update(i + 2, 255u8).update(i + 3, 255u8)
    } else {
        frame
    }
}

/// Opaque white, the fixed draw color.
pub open spec fn is_white(color: [u8; 4]) -> bool {
    color[0] == 255 && color[1] == 255 && color[2] == 255 && color[3] == 255
}

/// Blending opaque white onto any pixel overwrites it with
/// `[255, 255, 255, 255]`, and an out-of-bounds coordinate leaves the
/// whole buffer unmodified.
pub proof fn lemma_opaque_white_overwrites(
    frame: Seq<u8>,
    x: u32,
    y: u32,
    color: [u8; 4],
    width: u32,
)
    requires
        is_white(color),
    ensures
        composited(frame, x, y, color, width) == white_at(frame, x, y, width),
        pixel_offset(x, y, width) + 3 >= frame.len() ==> composited(frame, x, y, color, width)
            == frame,
{
    let i = pixel_offset(x, y, width);
    if i + 3 < frame.len() {
        assert(blend_channel(color[0], frame[i], color[3]) == 255);
        assert(blend_channel(color[1], frame[i + 1], color[3]) == 255);
        assert(blend_channel(color[2], frame[i + 2], color[3]) == 255);
    }
}

/// One alpha-blended color channel: `src*alpha + dst*(1-alpha)` with the
/// alpha weight carried as a byte, so `out = (src*a + dst*(255-a)) / 255`.
pub open spec fn blend_channel(src: u8, dst: u8, a: u8) -> u8 {
    (((src as int) * (a as int) + (dst as int) * (255 - a as int)) / 255) as u8
}

/// Relies on std::time::SystemTime::now, SystemTime::duration_since and
/// Duration::subsec_nanos: the sub-second part of the current time, which
/// is documented to be below one billion. Falls back to zero should the
/// clock read as earlier than the epoch.
#[verifier::external_body]
fn subsec_nanos() -> (n: u32)
    ensures
        n < 1_000_000_000,
{
    std::time::SystemTime::now()
        .duration_since(std::time::UNIX_EPOCH)
        .map(|d| d.subsec_nanos())
        .unwrap_or(0)
}

/// A time-derived pseudo-random number below `limit`: approximately
/// uniform, and nothing more is claimed of it.
pub fn random(limit: u32) -> (r: u32)
    requires
        limit >= 1,
    ensures
        r < limit,
{
    subsec_nanos() % limit
}

/// Draws a single pixel at `(x, y)` with alpha blending, silently
/// skipping coordinates whose bytes fall outside the buffer.
pub fn draw_on_point(x: u32, y: u32, color: [u8; 4], frame: &mut Vec<u8>, width: u32)
    ensures
        final(frame)@ == composited(old(frame)@, x, y, color, width),
{
    proof {
        assert(0 <= (y as int) * (width as int) <= 0xFFFF_FFFFint * 0xFFFF_FFFF)
            by (nonlinear_arith)
            requires
                0 <= y <= 0xFFFF_FFFFint,
                0 <= width <= 0xFFFF_FFFFint,
        ;
    }
    let q: u64 = (y as u64) * (width as u64) + (x as u64);
    let bound: u64 = (frame.len() as u64) / 4;
    proof {
        let l = frame.len() as int;
        lemma_fundamental_div_mod(l, 4);
        assert(l == 4 * (l / 4) + l % 4);
        assert((q as int) < l / 4 <==> 4 * (q as int) + 3 < l);
        assert(pixel_offset(x, y, width) == 4 * (q as int));
    }
    if q < bound {
        let i: usize = (q as usize) * 4;
        let a: u32 = color[3] as u32;
        let inv_a: u32 = 255 - a;

        proof {
            lemma_blend_fits(color@[0] as int, frame@[i as int] as int, a as int);
            lemma_blend_fits(color@[1] as int, frame@[i as int + 1] as int, a as int);
            lemma_blend_fits(color@[2] as int, frame@[i as int + 2] as int, a as int);
        }
        let c0: u32 = ((color[0] as u32) * a + (frame[i] as u32) * inv_a) / 255;
        let c1: u32 = ((color[1] as u32) * a + (frame[i + 1] as u32) * inv_a) / 255;
        let c2: u32 = ((color[2] as u32) * a + (frame[i + 2] as u32) * inv_a) / 255;
        frame[i] = c0 as u8;
        frame[i + 1] = c1 as u8;
        frame[i + 2] = c2 as u8;
        frame[i + 3] = 255;
    }
}

/// A blended channel value stays within one byte.
proof fn lemma_blend_fits(src: int, dst: int, a: int)
    requires
        0 <= src <= 255,
        0 <= dst <= 255,
        0 <= a <= 255,
    ensures
        0 <= src * a + dst * (255 - a) <= 255 * 255,
        0 <= (src * a + dst * (255 - a)) / 255 <= 255,
{
    assert(0 <= src * a + dst * (255 - a) <= 255 * 255) by (nonlinear_arith)
        requires
            0 <= src <= 255,
            0 <= dst <= 255,
            0 <= a <= 255,
    ;
    assert(0 <= (src * a + dst * (255 - a)) / 255 <= 255) by (nonlinear_arith)
        requires
            0 <= src * a + dst * (255 - a) <= 255 * 255,
    ;
}

/// The frame after overwriting each listed pixel, in order, with opaque
/// white.
pub open spec fn painted_white(frame: Seq<u8>, points: Seq<(u32, u32)>, width: u32) -> Seq<u8>
    decreases points.len(),
{
    if points.len() == 0 {
        frame
    } else {
        painted_white(white_at(frame, points[0].0, points[0].1, width), points.drop_first(), width)
    }
}

/// The pixel pairs of a cell's square block, as the square rasterizer
/// orders them.
pub open spec fn square_cell_points(grid_x: int, grid_y: int, size: int) -> Seq<(u32, u32)> {
    Seq::new(
        (size * size) as nat,
        |k: int| (((grid_x * size + k / size) as u32), ((grid_y * size + k % size) as u32)),
    )
}

/// Draws every listed pixel in opaque white, the fixed draw color.
pub fn draw_object(points: &Vec<[u32; 2]>, frame: &mut Vec<u8>, width: u32)
    ensures
        final(frame)@ == painted_white(
            old(frame)@,
            points@.map_values(|p: [u32; 2]| (p@[0], p@[1])),
            width,
        ),
{
    let ghost f0 = frame@;
    let ghost pts = points@.map_values(|p: [u32; 2]| (p@[0], p@[1]));
    let mut i: usize = 0;
    proof {
        assert(pts.skip(0) =~= pts);
    }
    while i < points.len()
        invariant
            i <= points@.len(),
            pts == points@.map_values(|p: [u32; 2]| (p@[0], p@[1])),
            painted_white(frame@, pts.skip(i as int), width) == painted_white(f0, pts, width),
        decreases points@.len() - i,
    {
        let ghost frame_prev = frame@;
        let color: [u8; 4] = [255u8, 255u8, 255u8, 255u8];
        let point = &points[i];
        draw_on_point(point[0], point[1], color, frame, width);
        proof {
            lemma_opaque_white_overwrites(frame_prev, point@[0], point@[1], color, width);
            assert(pts.skip(i as int)[0] == (point@[0], point@[1]));
            assert(pts.skip(i as int).drop_first() =~= pts.skip(i as int + 1));
        }
        i = i + 1;
    }
    proof {
        assert(pts.skip(pts.len() as int) =~= Seq::<(u32, u32)>::empty());
    }
}

/// The cells lit by row `i` of digit `d`'s glyph, drawn with its left
/// column at grid column `gx` and its top row at grid row `gy`.
pub open spec fn glyph_row_cells(d: u32, gx: int, gy: int, i: int) -> Seq<(u32, u32)> {
    (if glyph_lit(d as int, i, 0) {
        seq![((gx as u32), ((gy + i) as u32))]
    } else {
        Seq::<(u32, u32)>::empty()
    }) + (if glyph_lit(d as int, i, 1) {
        seq![(((gx + 1) as u32), ((gy + i) as u32))]
    } else {
        Seq::<(u32, u32)>::empty()
    }) + (if glyph_lit(d as int, i, 2) {
        seq![(((gx + 2) as u32), ((gy + i) as u32))]
    } else {
        Seq::<(u32, u32)>::empty()
    })
}

/// The cells lit by digit `d`'s glyph from row `i` downwards.
pub open spec fn glyph_cells_from(d: u32, gx: int, gy: int, i: int) -> Seq<(u32, u32)>
    decreases 5 - i,
{
    if i < 0 || i >= 5 {
        Seq::<(u32, u32)>::empty()
    } else {
        glyph_row_cells(d, gx, gy, i) + glyph_cells_from(d, gx, gy, i + 1)
    }
}

/// The cells lit by the digits `ds[k..]`, rendered left to right in
/// 5-cell-wide slots starting one cell right of `x`.
pub open spec fn number_cells_from(ds: Seq<u32>, x: int, y: int, k: int) -> Seq<(u32, u32)>
    decreases ds.len() - k,
{
    if k < 0 || k >= ds.len() {
        Seq::<(u32, u32)>::empty()
    } else {
        glyph_cells_from(ds[k], x + 5 * k + 1, y, 0) + number_cells_from(ds, x, y, k + 1)
    }
}

/// The frame after drawing each listed cell, in order, as an opaque
/// white square of `size` pixels on a side.
pub open spec fn draw_cells_white(
    frame: Seq<u8>,
    cells: Seq<(u32, u32)>,
    size: u32,
    width: u32,
) -> Seq<u8>
    decreases cells.len(),
{
    if cells.len() == 0 {
        frame
    } else {
        draw_cells_white(
            painted_white(
                frame,
                square_cell_points(cells[0].0 as int, cells[0].1 as int, size as int),
                width,
            ),
            cells.drop_first(),
            size,
            width,
        )
    }
}

/// A pixel list meeting the square rasterizer's contract is, as pairs,
/// exactly the cell's block point sequence.
pub proof fn lemma_square_points_view(points: Seq<[u32; 2]>, gx: int, gy: int, size: int)
    requires
        square_points_ok(points, gx, gy, size),
    ensures
        points.map_values(|p: [u32; 2]| (p@[0], p@[1])) == square_cell_points(gx, gy, size),
{
    let m = points.map_values(|p: [u32; 2]| (p@[0], p@[1]));
    let s = square_cell_points(gx, gy, size);
    assert forall|k: int| 0 <= k < m.len() implies m[k] == s[k] by {
        assert(points[k]@ == crate::resource::square_point(gx, gy, size, k));
    }
    assert(m =~= s);
}

/// Drawing a concatenation of cell lists draws the first list, then the
/// second.
pub proof fn lemma_draw_cells_append(
    frame: Seq<u8>,
    a: Seq<(u32, u32)>,
    b: Seq<(u32, u32)>,
    size: u32,
    width: u32,
)
    ensures
        draw_cells_white(frame, a + b, size, width) == draw_cells_white(
            draw_cells_white(frame, a, size, width),
            b,
            size,
            width,
        ),
    decreases a.len(),
{
    if a.len() == 0 {
        assert(a + b =~= b);
    } else {
        assert((a + b)[0] == a[0]);
        assert((a + b).drop_first() =~= a.drop_first() + b);
        lemma_draw_cells_append(
            painted_white(frame, square_cell_points(a[0].0 as int, a[0].1 as int, size as int), width),
            a.drop_first(),
            b,
            size,
            width,
        );
    }
}

/// Drawing a single-cell list paints just that cell's square.
proof fn lemma_draw_single(frame: Seq<u8>, c: (u32, u32), size: u32, width: u32)
    ensures
        draw_cells_white(frame, seq![c], size, width) == painted_white(
            frame,
            square_cell_points(c.0 as int, c.1 as int, size as int),
            width,
        ),
{
    let s = seq![c];
    let painted = painted_white(frame, square_cell_points(c.0 as int, c.1 as int, size as int), width);
    assert(s.drop_first() =~= Seq::<(u32, u32)>::empty());
    assert(draw_cells_white(painted, s.drop_first(), size, width) == painted);
}

/// Draws one cell of the grid as an opaque white square.
fn draw_cell(cx: u32, cy: u32, frame: &mut Vec<u8>, width: u32, game_world: &mut GameWorld)
    requires
        ((cx + 1) as int) * (old(game_world).grid.size as int) <= u32::MAX,
        ((cy + 1) as int) * (old(game_world).grid.size as int) <= u32::MAX,
    ensures
        *final(game_world) == *old(game_world),
        final(frame)@ == painted_white(
            old(frame)@,
            square_cell_points(cx as int, cy as int, old(game_world).grid.size as int),
            width,
        ),
{
    let square = game_world.add_square(cx, cy);
    draw_object(&square.points, frame, width);
    proof {
        lemma_square_points_view(
            square.points@,
            cx as int,
            cy as int,
            game_world.grid.size as int,
        );
    }
}

/// Draws row `i` of digit `d`'s glyph, its left column at grid column
/// `gx`, its top row at grid row `gy`.
fn draw_glyph_row(
    d: u32,
    gx: u32,
    gy: u32,
    i: u32,
    frame: &mut Vec<u8>,
    width: u32,
    game_world: &mut GameWorld,
)
    requires
        d < 10,
        i < 5,
        old(game_world).grid.wf(),
        ((gx + 3) as int) * (old(game_world).grid.size as int) <= u32::MAX,
        ((gy as int) + i + 1) * (old(game_world).grid.size as int) <= u32::MAX,
    ensures
        *final(game_world) == *old(game_world),
        final(frame)@ == draw_cells_white(
            old(frame)@,
            glyph_row_cells(d, gx as int, gy as int, i as int),
            old(game_world).grid.size,
            width,
        ),
{
    let ghost f0 = frame@;
    let ghost size = game_world.grid.size;
    let ghost gxi = gx as int;
    let ghost gyi = gy as int;
    let ghost ii = i as int;
    proof {
        assert(((gx + 1) as int) * (size as int) <= ((gx + 3) as int) * (size as int)
            && ((gx + 2) as int) * (size as int) <= ((gx + 3) as int) * (size as int) && (
        gx as int + 3) <= ((gx + 3) as int) * (size as int) && ((gy as int) + i + 1) <= ((
        gy as int) + i + 1) * (size as int)) by (nonlinear_arith)
            requires
                1 <= size,
                0 <= gx,
                0 <= gy,
                0 <= i,
        ;
    }
    let row_y: u32 = gy + i;
    let ghost c0 = if glyph_lit(d as int, ii, 0) {
        seq![(gx, row_y)]
    } else {
        Seq::<(u32, u32)>::empty()
    };
    let ghost c1 = if glyph_lit(d as int, ii, 1) {
        seq![((gx + 1) as u32, row_y)]
    } else {
        Seq::<(u32, u32)>::empty()
    };
    let ghost c2 = if glyph_lit(d as int, ii, 2) {
        seq![((gx + 2) as u32, row_y)]
    } else {
        Seq::<(u32, u32)>::empty()
    };

    if glyph_lit_at(d, i, 0) {
        draw_cell(gx, row_y, frame, width, game_world);
        proof {
            lemma_draw_single(f0, (gx, row_y), size, width);
        }
    }
    let ghost f1 = frame@;
    assert(f1 == draw_cells_white(f0, c0, size, width));

    if glyph_lit_at(d, i, 1) {
        draw_cell(gx + 1, row_y, frame, width, game_world);
        proof {
            lemma_draw_single(f1, ((gx + 1) as u32, row_y), size, width);
        }
    }
    let ghost f2 = frame@;
    assert(f2 == draw_cells_white(f1, c1, size, width));

    if glyph_lit_at(d, i, 2) {
        draw_cell(gx + 2, row_y, frame, width, game_world);
        proof {
            lemma_draw_single(f2, ((gx + 2) as u32, row_y), size, width);
        }
    }
    proof {
        assert(frame@ == draw_cells_white(f2, c2, size, width));
        lemma_draw_cells_append(f0, c0, c1, size, width);
        lemma_draw_cells_append(f0, c0 + c1, c2, size, width);
        assert(glyph_row_cells(d, gxi, gyi, ii) == (c0 + c1) + c2);
    }
}

/// Draws digit `d`'s whole glyph at grid column `gx`, top row `gy`.
fn draw_glyph(d: u32, gx: u32, gy: u32, frame: &mut Vec<u8>, width: u32, game_world: &mut GameWorld)
    requires
        d < 10,
        old(game_world).grid.wf(),
        ((gx + 3) as int) * (old(game_world).grid.size as int) <= u32::MAX,
        ((gy as int) + 5) * (old(game_world).grid.size as int) <= u32::MAX,
    ensures
        *final(game_world) == *old(game_world),
        final(frame)@ == draw_cells_white(
            old(frame)@,
            glyph_cells_from(d, gx as int, gy as int, 0),
            old(game_world).grid.size,
            width,
        ),
{
    let ghost f0 = frame@;
    let ghost gw0 = *game_world;
    let ghost size = game_world.grid.size;
    let mut i: u32 = 0;
    while i < 5
        invariant
            i <= 5,
            d < 10,
            *game_world == gw0,
            gw0.grid.wf(),
            size == gw0.grid.size,
            ((gx + 3) as int) * (size as int) <= u32::MAX,
            ((gy as int) + 5) * (size as int) <= u32::MAX,
            draw_cells_white(frame@, glyph_cells_from(d, gx as int, gy as int, i as int), size, width)
                == draw_cells_white(f0, glyph_cells_from(d, gx as int, gy as int, 0), size, width),
        decreases 5 - i,
    {
        let ghost frame_prev = frame@;
        proof {
            assert(((gy as int) + i + 1) * (size as int) <= ((gy as int) + 5) * (size as int))
                by (nonlinear_arith)
                requires
                    0 <= i < 5,
                    1 <= size,
                    0 <= gy,
            ;
        }
        draw_glyph_row(d, gx, gy, i, frame, width, game_world);
        proof {
            lemma_draw_cells_append(
                frame_prev,
                glyph_row_cells(d, gx as int, gy as int, i as int),
                glyph_cells_from(d, gx as int, gy as int, i as int + 1),
                size,
                width,
            );
        }
        i = i + 1;
    }
}

/// Renders `number` in decimal as a row of 5-cell-wide digit glyphs, one
/// cell right and level with `(x, y)`, each lit glyph cell drawn as an
/// opaque white square.
pub fn draw_number(
    number: u32,
    x: u32,
    y: u32,
    frame: &mut Vec<u8>,
    width: u32,
    game_world: &mut GameWorld,
)
    requires
        old(game_world).grid.wf(),
        ((x as int) + 49) * (old(game_world).grid.size as int) <= u32::MAX,
        ((y as int) + 5) * (old(game_world).grid.size as int) <= u32::MAX,
    ensures
        *final(game_world) == *old(game_world),
        final(frame)@ == draw_cells_white(
            old(frame)@,
            number_cells_from(digits(number as nat), x as int, y as int, 0),
            old(game_world).grid.size,
            width,
        ),
{
    let ds = to_digits(number);
    let ghost dsv = ds@;
    let ghost f0 = frame@;
    let ghost gw0 = *game_world;
    let ghost size = game_world.grid.size;
    proof {
        reveal_with_fuel(pow10, 11);
        assert(pow10(10) == 10_000_000_000);
        lemma_digits_len_bound(number as nat, 10);
        assert((x as int) + 49 <= ((x as int) + 49) * (size as int)) by (nonlinear_arith)
            requires
                1 <= size,
                0 <= x,
        ;
    }
    let mut k: usize = 0;
    while k < ds.len()
        invariant
            k <= dsv.len(),
            dsv.len() <= 10,
            ds@ == dsv,
            forall|j: int| 0 <= j < dsv.len() ==> dsv[j] < 10,
            *game_world == gw0,
            gw0.grid.wf(),
            size == gw0.grid.size,
            ((x as int) + 49) * (size as int) <= u32::MAX,
            ((y as int) + 5) * (size as int) <= u32::MAX,
            (x as int) + 49 <= u32::MAX,
            draw_cells_white(frame@, number_cells_from(dsv, x as int, y as int, k as int), size, width)
                == draw_cells_white(f0, number_cells_from(dsv, x as int, y as int, 0), size, width),
        decreases dsv.len() - k,
    {
        let ghost frame_prev = frame@;
        let d = ds[k];
        let gx: u32 = x + 5 * (k as u32) + 1;
        proof {
            assert(((gx + 3) as int) * (size as int) <= ((x as int) + 49) * (size as int))
                by (nonlinear_arith)
                requires
                    1 <= size,
                    0 <= x,
                    gx as int == x as int + 5 * (k as int) + 1,
                    0 <= k < 10,
            ;
        }
        draw_glyph(d, gx, y, frame, width, game_world);
        proof {
            lemma_draw_cells_append(
                frame_prev,
                glyph_cells_from(dsv[k as int], x as int + 5 * (k as int) + 1, y as int, 0),
                number_cells_from(dsv, x as int, y as int, k as int + 1),
                size,
                width,
            );
        }
        k = k + 1;
    }
}

/// The built-in cell size of a freshly initialized game.
pub const CELL_SIZE: u32 = 15;

/// Builds the game world for a window of the given pixel dimensions with
/// the built-in cell size.
pub fn init(width: u32, height: u32) -> (r: GameWorld)
    requires
        CELL_SIZE <= width <= MAX_WINDOW_DIM,
        CELL_SIZE <= height <= MAX_WINDOW_DIM,
    ensures
        r.grid.width == width,
        r.grid.height == height,
        r.grid.size == CELL_SIZE,
        r.wf_sim(),
        r.score == 0,
        r.snake_fps == crate::resource::tick_rate(0),
        r.snake_body@.len() == 2,
        r.direction is Down,
{
    GameWorld::new(width, height, CELL_SIZE)
}

} // verus!

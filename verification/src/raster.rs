//! The rasterizer: the written generation as age-shaded marks, and patterns
//! as overlays in one colour.

use vstd::arithmetic::div_mod::{
    lemma_fundamental_div_mod, lemma_fundamental_div_mod_converse, lemma_mod_pos_bound,
};
use vstd::prelude::*;
use crate::canvas::{
    draw_cell, draw_mark, in_mark, lemma_paint_mark, lemma_repaints_same, Canvas, Color,
    ImageBuffer,
};
use crate::grid::{lemma_index_in_range, GameState, StateView};
use crate::pattern::{place, Pattern, Shape};

verus! {

/// Brightness of a dead cell.
pub const DEAD_SHADE: u8 = 24;

/// Brightness of a cell in the frame of its birth.
pub const NEWBORN_SHADE: u8 = 255;

/// The age from which a cell fades no further.
pub const OLDEST_AGE: u32 = 208;

/// Brightness of a cell with birth frame `value` (`0`: dead) in frame `frame`:
/// full at birth, one step darker with each frame, down to a floor.
pub open spec fn shade_of(value: u32, frame: u32) -> u8 {
    if value == 0 {
        DEAD_SHADE
    } else if frame - value >= OLDEST_AGE {
        (NEWBORN_SHADE - OLDEST_AGE) as u8
    } else {
        (NEWBORN_SHADE - (frame - value)) as u8
    }
}

/// Computes the brightness of a cell. A live cell was born in `frame` or
/// before it.
pub fn shade(value: u32, frame: u32) -> (s: u8)
    requires
        value <= frame,
    ensures
        s == shade_of(value, frame),
        value > 0 ==> 47 <= s,
        value > 0 && value == frame ==> s == 255,
{
    if value > 0 {
        let age: u32 = frame - value;
        let faded: u32 = if age < OLDEST_AGE {
            age
        } else {
            OLDEST_AGE
        };
        NEWBORN_SHADE - faded as u8
    } else {
        DEAD_SHADE
    }
}

/// A live cell is brightest in the frame of its birth, never gets brighter
/// again, and never gets darker than the floor.
pub proof fn lemma_shade_fades(birth: u32, earlier: u32, later: u32)
    requires
        0 < birth <= earlier <= later,
    ensures
        shade_of(birth, later) <= shade_of(birth, earlier),
        shade_of(birth, earlier) >= 47,
        shade_of(birth, birth) == 255,
        later - birth >= 208 ==> shade_of(birth, later) == 47,
{
}

impl Shape {
    /// The mark of point `k` covers the pixel at `(x, y)`, when the pattern is
    /// placed at cell `(cell_x, cell_y)` of a grid of squares of `cell_size`
    /// pixels. A point that lands left of or above the first cell has no
    /// mark.
    pub open spec fn marks(
        self,
        k: int,
        cell_x: int,
        cell_y: int,
        cell_size: int,
        rotation: (i32, i32),
        x: int,
        y: int,
    ) -> bool {
        let t = self.target(k, cell_x, cell_y, rotation);
        t.0 >= 0 && t.1 >= 0 && in_mark(t.0 * cell_size, t.1 * cell_size, x, y)
    }

    /// The mark of one of the first `n` points covers the pixel at `(x, y)`.
    pub open spec fn marks_within(
        self,
        n: int,
        cell_x: int,
        cell_y: int,
        cell_size: int,
        rotation: (i32, i32),
        x: int,
        y: int,
    ) -> bool {
        exists|k: int|
            0 <= k < n && #[trigger] self.marks(k, cell_x, cell_y, cell_size, rotation, x, y)
    }

    /// What drawing the first `n` points paints: `color` on every pixel that
    /// one of their marks covers.
    pub open spec fn overlay(
        self,
        n: int,
        cell_x: int,
        cell_y: int,
        cell_size: int,
        rotation: (i32, i32),
        color: Color,
    ) -> spec_fn(int, int) -> Option<Color> {
        |x: int, y: int|
            if self.marks_within(n, cell_x, cell_y, cell_size, rotation, x, y) {
                Some(color)
            } else {
                None
            }
    }
}

/// Draws `pattern` over the buffer in one colour: placed at cell
/// `(cell_x, cell_y)` with `rotation`, every point becomes the mark of the
/// cell it lands on. Points that land left of or above the first cell are
/// dropped, marks are clipped at the buffer's edges, and nothing else in the
/// buffer changes.
pub fn draw_pattern(
    buffer: &mut ImageBuffer,
    cell_x: u32,
    cell_y: u32,
    cell_size: u32,
    pattern: &Pattern,
    rotation: (i32, i32),
    color: Color,
)
    requires
        old(buffer).wf(),
    ensures
        final(buffer).wf(),
        final(buffer)@.repaints(
            old(buffer)@,
            pattern@.overlay(
                pattern@.points.len() as int,
                cell_x as int,
                cell_y as int,
                cell_size as int,
                rotation,
                color,
            ),
        ),
{
    let ghost before = buffer@;
    let ghost shape = pattern@;
    let (rx, ry) = rotation;
    let count: usize = pattern.points.len();
    let mut k: usize = 0;
    proof {
        let none = shape.overlay(0, cell_x as int, cell_y as int, cell_size as int, rotation, color);
        assert(buffer@.repaints(before, none));
    }
    while k < count
        invariant
            before.wf(),
            buffer.wf(),
            shape == pattern@,
            count == shape.points.len(),
            k <= count,
            rotation == (rx, ry),
            buffer@.repaints(
                before,
                shape.overlay(
                    k as int,
                    cell_x as int,
                    cell_y as int,
                    cell_size as int,
                    rotation,
                    color,
                ),
            ),
        decreases count - k,
    {
        let (x, y) = pattern.points[k];
        let point_cell_x: i128 = place(cell_x, rx, x, pattern.origin_x);
        let point_cell_y: i128 = place(cell_y, ry, y, pattern.origin_y);
        let ghost mid = buffer@;
        let ghost paint_mid = shape.overlay(
            k as int,
            cell_x as int,
            cell_y as int,
            cell_size as int,
            rotation,
            color,
        );
        let ghost paint_after = shape.overlay(
            k + 1,
            cell_x as int,
            cell_y as int,
            cell_size as int,
            rotation,
            color,
        );
        if point_cell_x < 0 || point_cell_y < 0 {
            proof {
                assert forall|px: int, py: int| #[trigger] paint_after(px, py) == paint_mid(px, py) by {
                    assert(!shape.marks(
                        k as int,
                        cell_x as int,
                        cell_y as int,
                        cell_size as int,
                        rotation,
                        px,
                        py,
                    ));
                }
                lemma_repaints_same(before, mid, paint_mid, paint_after);
            }
        } else {
            assert(0 <= point_cell_x * cell_size <= 0x1_0000_0000_0000_0000 * 0xffff_ffff)
                by (nonlinear_arith)
                requires
                    0 <= point_cell_x <= 0x1_0000_0000_0000_0000,
                    0 <= cell_size <= 0xffff_ffff,
            ;
            assert(0 <= point_cell_y * cell_size <= 0x1_0000_0000_0000_0000 * 0xffff_ffff)
                by (nonlinear_arith)
                requires
                    0 <= point_cell_y <= 0x1_0000_0000_0000_0000,
                    0 <= cell_size <= 0xffff_ffff,
            ;
            let x0: u128 = point_cell_x as u128 * cell_size as u128;
            let y0: u128 = point_cell_y as u128 * cell_size as u128;
            draw_mark(buffer, x0, y0, color);
            proof {
                assert forall|px: int, py: int| before.has_pixel(px, py) implies #[trigger] paint_after(
                    px,
                    py,
                ) == (if in_mark(x0 as int, y0 as int, px, py) {
                    Some(color)
                } else {
                    paint_mid(px, py)
                }) by {
                    if in_mark(x0 as int, y0 as int, px, py) {
                        assert(shape.marks(
                            k as int,
                            cell_x as int,
                            cell_y as int,
                            cell_size as int,
                            rotation,
                            px,
                            py,
                        ));
                    } else {
                        assert(!shape.marks(
                            k as int,
                            cell_x as int,
                            cell_y as int,
                            cell_size as int,
                            rotation,
                            px,
                            py,
                        ));
                    }
                }
                lemma_paint_mark(before, mid, paint_mid, paint_after, x0 as int, y0 as int, color);
            }
        }
        k = k + 1;
    }
}

/// The mark of column (or row) `c` covers pixel coordinate `p`, in a grid of
/// squares of `cell_size` pixels.
pub open spec fn mark_covers(c: int, cell_size: int, p: int) -> bool {
    c * cell_size <= p <= c * cell_size + 1
}

/// The last column (or row) below `limit` whose mark covers pixel coordinate
/// `p`, or `-1` where there is none. With squares of two or more pixels the
/// marks lie apart and only column `p / cell_size` can cover `p`; with
/// squares of one pixel the mark of a column reaches into the next column.
pub open spec fn last_marking(p: int, cell_size: int, limit: int) -> int {
    let c = p / cell_size;
    if p % cell_size <= 1 && c < limit {
        c
    } else if cell_size == 1 && c == limit && limit >= 1 {
        c - 1
    } else {
        -1
    }
}

/// `last_marking` is what its name says.
pub proof fn lemma_last_marking(p: int, cell_size: int, limit: int)
    requires
        0 <= p,
        0 < cell_size,
        0 <= limit,
    ensures
        -1 <= last_marking(p, cell_size, limit) < limit,
        last_marking(p, cell_size, limit) >= 0 ==> mark_covers(
            last_marking(p, cell_size, limit),
            cell_size,
            p,
        ),
        forall|c: int|
            last_marking(p, cell_size, limit) < c < limit ==> !#[trigger] mark_covers(
                c,
                cell_size,
                p,
            ),
{
    let q = p / cell_size;
    let r = p % cell_size;
    lemma_fundamental_div_mod(p, cell_size);
    lemma_mod_pos_bound(p, cell_size);
    assert(cell_size * q == q * cell_size) by (nonlinear_arith);
    assert(0 <= q) by (nonlinear_arith)
        requires
            q * cell_size + r == p,
            0 <= p,
            0 <= r < cell_size,
    {
        if q < 0 {
            assert(q * cell_size <= -cell_size);
        }
    }
    assert forall|c: int| last_marking(p, cell_size, limit) < c < limit implies !#[trigger] mark_covers(
        c,
        cell_size,
        p,
    ) by {
        if mark_covers(c, cell_size, p) {
            lemma_mark_covers(c, cell_size, p);
        }
    }
}

/// What it means for pixel coordinate `p` that the mark of `c` covers it.
pub proof fn lemma_mark_covers(c: int, cell_size: int, p: int)
    requires
        0 <= p,
        0 < cell_size,
        mark_covers(c, cell_size, p),
    ensures
        cell_size >= 2 ==> p / cell_size == c && p % cell_size == p - c * cell_size,
        cell_size == 1 ==> p / cell_size == p && p % cell_size == 0 && (c == p || c == p - 1),
{
    if cell_size >= 2 {
        lemma_fundamental_div_mod_converse(p, cell_size, c, p - c * cell_size);
    } else {
        lemma_fundamental_div_mod_converse(p, cell_size, p, 0);
        assert(c * 1 == c);
    }
}

/// Raising the limit by one column changes `last_marking` exactly for the
/// pixels that the mark of that column covers.
pub proof fn lemma_last_marking_step(p: int, cell_size: int, limit: int)
    requires
        0 <= p,
        0 < cell_size,
        0 <= limit,
    ensures
        last_marking(p, cell_size, limit + 1) == (if mark_covers(limit, cell_size, p) {
            limit
        } else {
            last_marking(p, cell_size, limit)
        }),
        last_marking(p, cell_size, 0) == -1,
{
    let q = p / cell_size;
    let r = p % cell_size;
    lemma_fundamental_div_mod(p, cell_size);
    lemma_mod_pos_bound(p, cell_size);
    assert(cell_size * q == q * cell_size) by (nonlinear_arith);
    lemma_last_marking(p, cell_size, 0);
    if mark_covers(limit, cell_size, p) {
        lemma_mark_covers(limit, cell_size, p);
    } else {
        if cell_size == 1 {
            lemma_fundamental_div_mod_converse(p, cell_size, p, 0);
            assert(limit * 1 == limit);
        }
    }
}

impl StateView {
    /// The cell whose mark is seen at the pixel `(x, y)` once the whole
    /// generation has been drawn row by row: where marks overlap, the one
    /// drawn last.
    pub open spec fn shown_cell(self, x: int, y: int) -> Option<(int, int)> {
        let cx = last_marking(x, self.cell_size as int, self.width as int);
        let cy = last_marking(y, self.cell_size as int, self.height as int);
        if cx >= 0 && cy >= 0 {
            Some((cx, cy))
        } else {
            None
        }
    }

    /// The cell whose mark is seen at the pixel `(x, y)` when the rows above
    /// `row` and the cells of `row` left of `column` have been drawn.
    spec fn shown_cell_until(self, column: int, row: int, x: int, y: int) -> Option<
        (int, int),
    > {
        let cs = self.cell_size as int;
        if mark_covers(row, cs, y) && last_marking(x, cs, column) >= 0 {
            Some((last_marking(x, cs, column), row))
        } else if last_marking(x, cs, self.width as int) >= 0 && last_marking(y, cs, row) >= 0 {
            Some((last_marking(x, cs, self.width as int), last_marking(y, cs, row)))
        } else {
            None
        }
    }

    /// The grey in which the cell at `(x, y)` of the written generation is
    /// drawn in frame `frame`.
    pub open spec fn cell_color(self, frame: u32, x: int, y: int) -> Color {
        Color::gray(shade_of(self.write_at(x, y), frame))
    }

    /// What drawing the generation paints in frame `frame`.
    pub open spec fn generation_paint(self, frame: u32) -> spec_fn(int, int) -> Option<Color> {
        |x: int, y: int|
            match self.shown_cell(x, y) {
                Some(cell) => Some(self.cell_color(frame, cell.0, cell.1)),
                None => None,
            }
    }

    /// What has been painted when the rows above `row` and the cells of `row`
    /// left of `column` have been drawn.
    spec fn generation_paint_until(self, frame: u32, column: int, row: int) -> spec_fn(
        int,
        int,
    ) -> Option<Color> {
        |x: int, y: int|
            match self.shown_cell_until(column, row, x, y) {
                Some(cell) => Some(self.cell_color(frame, cell.0, cell.1)),
                None => None,
            }
    }
}

/// Drawing the cell at `(column, row)` changes what is seen exactly at the
/// pixels of its mark.
proof fn lemma_shown_cell_step(s: StateView, column: int, row: int, x: int, y: int)
    requires
        s.cell_size > 0,
        0 <= column,
        0 <= row,
        0 <= x,
        0 <= y,
    ensures
        s.shown_cell_until(column + 1, row, x, y) == (if in_mark(
            column * s.cell_size,
            row * s.cell_size,
            x,
            y,
        ) {
            Some((column, row))
        } else {
            s.shown_cell_until(column, row, x, y)
        }),
{
    lemma_last_marking_step(x, s.cell_size as int, column);
}

/// A finished row counts as a row above the next one, and nothing is seen
/// before the first cell has been drawn.
proof fn lemma_shown_cell_row(s: StateView, row: int, x: int, y: int)
    requires
        s.cell_size > 0,
        0 <= row,
        0 <= x,
        0 <= y,
    ensures
        s.shown_cell_until(0, row + 1, x, y) == s.shown_cell_until(s.width as int, row, x, y),
        s.shown_cell_until(0, 0, x, y) == None::<(int, int)>,
        s.shown_cell_until(0, s.height as int, x, y) == s.shown_cell(x, y),
{
    let cs = s.cell_size as int;
    lemma_last_marking_step(y, cs, row);
    lemma_last_marking_step(x, cs, 0);
    lemma_last_marking_step(y, cs, 0);
}

/// Draws the generation that is written to: every cell as a grey mark, a
/// live cell the darker the older it is, a dead cell in the background shade.
/// Cells are drawn row by row, so where marks overlap the later cell is seen.
/// Marks are clipped at the buffer's edges and nothing else in the buffer
/// changes. No cell of that generation was born after `frame`, so that
/// every live cell has an age.
pub fn draw_generation(buffer: &mut ImageBuffer, frame: u32, state: &GameState)
    requires
        old(buffer).wf(),
        state.wf(),
        state@.written_by(frame),
    ensures
        final(buffer).wf(),
        final(buffer)@.repaints(old(buffer)@, state@.generation_paint(frame)),
{
    let ghost before = buffer@;
    let ghost sv = state@;
    let width: u32 = state.width();
    let height: u32 = state.height();
    let cell_size: u32 = state.cell_size();
    proof {
        assert forall|px: int, py: int| before.has_pixel(px, py) implies #[trigger] sv.generation_paint_until(
            frame,
            0,
            0,
        )(px, py) == None::<Color> by {
            lemma_shown_cell_row(sv, 0, px, py);
        }
        assert(buffer@.repaints(before, sv.generation_paint_until(frame, 0, 0)));
    }
    let mut y: u32 = 0;
    while y < height
        invariant
            before.wf(),
            buffer.wf(),
            state.wf(),
            sv == state@,
            sv.written_by(frame),
            width == sv.width,
            height == sv.height,
            cell_size == sv.cell_size,
            y <= height,
            buffer@.repaints(before, sv.generation_paint_until(frame, 0, y as int)),
        decreases height - y,
    {
        let mut x: u32 = 0;
        while x < width
            invariant
                before.wf(),
                buffer.wf(),
                state.wf(),
                sv == state@,
                sv.written_by(frame),
                width == sv.width,
                height == sv.height,
                cell_size == sv.cell_size,
                y < height,
                x <= width,
                buffer@.repaints(before, sv.generation_paint_until(frame, x as int, y as int)),
            decreases width - x,
        {
            let value: u32 = state.written_cell(x, y);
            proof {
                lemma_index_in_range(width as int, height as int, x as int, y as int);
                assert(value == sv.write[y * width + x]);
            }
            let brightness: u8 = shade(value, frame);
            let color = Color::rgb(brightness, brightness, brightness);
            let ghost mid = buffer@;
            draw_cell(buffer, x, y, cell_size, color);
            proof {
                let paint_mid = sv.generation_paint_until(frame, x as int, y as int);
                let paint_after = sv.generation_paint_until(frame, x + 1, y as int);
                assert forall|px: int, py: int| before.has_pixel(px, py) implies #[trigger] paint_after(
                    px,
                    py,
                ) == (if in_mark(x * cell_size, y * cell_size, px, py) {
                    Some(color)
                } else {
                    paint_mid(px, py)
                }) by {
                    lemma_shown_cell_step(sv, x as int, y as int, px, py);
                }
                lemma_paint_mark(
                    before,
                    mid,
                    paint_mid,
                    paint_after,
                    x * cell_size,
                    y * cell_size,
                    color,
                );
            }
            x = x + 1;
        }
        proof {
            let done = sv.generation_paint_until(frame, width as int, y as int);
            let next = sv.generation_paint_until(frame, 0, y + 1);
            assert forall|px: int, py: int| before.has_pixel(px, py) implies #[trigger] next(px, py)
                == done(px, py) by {
                lemma_shown_cell_row(sv, y as int, px, py);
            }
            lemma_repaints_same(before, buffer@, done, next);
        }
        y = y + 1;
    }
    proof {
        let done = sv.generation_paint_until(frame, 0, height as int);
        let all = sv.generation_paint(frame);
        assert forall|px: int, py: int| before.has_pixel(px, py) implies #[trigger] all(px, py)
            == done(px, py) by {
            lemma_shown_cell_row(sv, 0, px, py);
        }
        lemma_repaints_same(before, buffer@, done, all);
    }
}

} // verus!

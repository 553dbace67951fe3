//! The output buffer: a caller-owned array of 3-byte pixels, and the marks
//! that are drawn into it.
//!
//! A cell is drawn as a mark of 2 by 2 pixels at the top-left corner of its
//! square, whatever the size of the square. Whatever falls outside the buffer
//! is clipped.

use vstd::arithmetic::div_mod::lemma_fundamental_div_mod_converse;
use vstd::prelude::*;

verus! {

/// A colour as its red, green and blue parts.
#[derive(Clone, Copy, Debug)]
pub struct Color {
    pub r: u8,
    pub g: u8,
    pub b: u8,
}

impl Color {
    /// The colour with the given parts.
    pub fn rgb(r: u8, g: u8, b: u8) -> (c: Color)
        ensures
            c == (Color { r, g, b }),
    {
        Color { r, g, b }
    }

    /// The grey of the given brightness.
    pub open spec fn gray(shade: u8) -> Color {
        Color { r: shade, g: shade, b: shade }
    }
}

/// A pixel buffer that its caller owns: `height` rows of `width` pixels of
/// three bytes, each row `pitch` bytes after the one before.
pub struct ImageBuffer<'a> {
    pub width: usize,
    pub height: usize,
    pub pitch: usize,
    pub pixels: &'a mut [u8],
}

/// Mathematical model of an [`ImageBuffer`].
pub struct Canvas {
    pub width: int,
    pub height: int,
    pub pitch: int,
    pub bytes: Seq<u8>,
}

impl Canvas {
    /// Rows do not overlap and all of them lie inside the bytes.
    pub open spec fn wf(self) -> bool {
        &&& 0 <= self.width
        &&& 0 <= self.height
        &&& 3 * self.width <= self.pitch
        &&& self.pitch * self.height <= self.bytes.len()
    }

    /// The canvas has a pixel at `(x, y)`.
    pub open spec fn has_pixel(self, x: int, y: int) -> bool {
        0 <= x < self.width && 0 <= y < self.height
    }

    /// Index of the first byte of the pixel at `(x, y)`.
    pub open spec fn offset(self, x: int, y: int) -> int {
        y * self.pitch + x * 3
    }

    /// The colour of the pixel at `(x, y)`.
    pub open spec fn pixel(self, x: int, y: int) -> Color {
        Color {
            r: self.bytes[self.offset(x, y)],
            g: self.bytes[self.offset(x, y) + 1],
            b: self.bytes[self.offset(x, y) + 2],
        }
    }

    /// Byte `i` belongs to no pixel: it lies between the rows or behind the
    /// last one.
    pub open spec fn is_padding(self, i: int) -> bool {
        self.pitch == 0 || !self.has_pixel((i % self.pitch) / 3, i / self.pitch)
    }

    /// The canvas after the pixel at `(x, y)` has been set to `color`; the
    /// canvas itself where it has no such pixel.
    pub open spec fn with_pixel(self, x: int, y: int, color: Color) -> Canvas {
        if self.has_pixel(x, y) {
            Canvas {
                bytes: self.bytes.update(self.offset(x, y), color.r).update(
                    self.offset(x, y) + 1,
                    color.g,
                ).update(self.offset(x, y) + 2, color.b),
                ..self
            }
        } else {
            self
        }
    }

    /// `self` has the shape of `before`, shows `paint(x, y)` at every pixel
    /// for which `paint` gives a colour and the colour of `before` at every
    /// other pixel, and agrees with `before` on every byte outside the pixels.
    pub open spec fn repaints(self, before: Canvas, paint: spec_fn(int, int) -> Option<Color>)
        -> bool {
        &&& self.width == before.width
        &&& self.height == before.height
        &&& self.pitch == before.pitch
        &&& self.bytes.len() == before.bytes.len()
        &&& forall|x: int, y: int|
            before.has_pixel(x, y) ==> #[trigger] self.pixel(x, y) == (match paint(x, y) {
                Some(color) => color,
                None => before.pixel(x, y),
            })
        &&& forall|i: int|
            0 <= i < before.bytes.len() && before.is_padding(i) ==> #[trigger] self.bytes[i]
                == before.bytes[i]
    }
}

impl<'a> View for ImageBuffer<'a> {
    type V = Canvas;

    open spec fn view(&self) -> Canvas {
        Canvas {
            width: self.width as int,
            height: self.height as int,
            pitch: self.pitch as int,
            bytes: self.pixels@,
        }
    }
}

impl<'a> ImageBuffer<'a> {
    /// What every drawing function asks of a buffer.
    pub open spec fn wf(&self) -> bool {
        self@.wf()
    }

    /// Tells whether the buffer is well formed: whether a row has room for
    /// its pixels and the bytes have room for the rows.
    pub fn is_valid(&self) -> (valid: bool)
        ensures
            valid == self.wf(),
    {
        let len: usize = self.pixels.len();
        let row: Option<usize> = self.width.checked_mul(3);
        let all: Option<usize> = self.pitch.checked_mul(self.height);
        match (row, all) {
            (Some(row_bytes), Some(all_bytes)) => row_bytes <= self.pitch && all_bytes <= len,
            _ => false,
        }
    }
}

/// The bytes of a pixel lie inside the buffer, in the pixel's own row.
pub proof fn lemma_pixel_in_bytes(c: Canvas, x: int, y: int)
    requires
        c.wf(),
        c.has_pixel(x, y),
    ensures
        0 <= y * c.pitch,
        0 <= c.offset(x, y),
        c.offset(x, y) + 2 < c.bytes.len(),
        c.offset(x, y) + 2 < (y + 1) * c.pitch,
{
    let p = c.pitch;
    let h = c.height;
    assert(0 <= y * p && (y + 1) * p <= p * h && (y + 1) * p == y * p + p) by (nonlinear_arith)
        requires
            0 <= y < h,
            0 <= p,
    ;
}

/// Byte `ch` of the pixel at `(x, y)` is no padding, and row, column and
/// part can be read off its index: no two pixels share a byte.
pub proof fn lemma_pixel_of_byte(c: Canvas, x: int, y: int, ch: int)
    requires
        c.wf(),
        c.has_pixel(x, y),
        0 <= ch < 3,
    ensures
        c.pitch > 0,
        (c.offset(x, y) + ch) / c.pitch == y,
        ((c.offset(x, y) + ch) % c.pitch) / 3 == x,
        ((c.offset(x, y) + ch) % c.pitch) % 3 == ch,
        !c.is_padding(c.offset(x, y) + ch),
{
    let i = c.offset(x, y) + ch;
    lemma_fundamental_div_mod_converse(i, c.pitch, y, 3 * x + ch);
}

/// Setting one pixel repaints that pixel and nothing else.
pub proof fn lemma_with_pixel(c: Canvas, x: int, y: int, color: Color)
    requires
        c.wf(),
    ensures
        c.with_pixel(x, y, color).wf(),
        c.with_pixel(x, y, color).repaints(
            c,
            |px: int, py: int|
                if px == x && py == y {
                    Some(color)
                } else {
                    None
                },
        ),
{
    let d = c.with_pixel(x, y, color);
    let paint = |px: int, py: int|
        if px == x && py == y {
            Some(color)
        } else {
            None
        };
    if c.has_pixel(x, y) {
        lemma_pixel_in_bytes(c, x, y);
        let o = c.offset(x, y);
        assert forall|px: int, py: int| c.has_pixel(px, py) implies #[trigger] d.pixel(px, py) == (
        match paint(px, py) {
            Some(color) => color,
            None => c.pixel(px, py),
        }) by {
            lemma_pixel_in_bytes(c, px, py);
            if px == x && py == y {
            } else {
                let q = c.offset(px, py);
                lemma_pixel_of_byte(c, x, y, 0);
                lemma_pixel_of_byte(c, x, y, 1);
                lemma_pixel_of_byte(c, x, y, 2);
                lemma_pixel_of_byte(c, px, py, 0);
                lemma_pixel_of_byte(c, px, py, 1);
                lemma_pixel_of_byte(c, px, py, 2);
                assert(q != o && q != o + 1 && q != o + 2);
                assert(q + 1 != o && q + 1 != o + 1 && q + 1 != o + 2);
                assert(q + 2 != o && q + 2 != o + 1 && q + 2 != o + 2);
            }
        }
        assert forall|i: int| 0 <= i < c.bytes.len() && c.is_padding(i) implies #[trigger] d.bytes[i]
            == c.bytes[i] by {
            lemma_pixel_of_byte(c, x, y, 0);
            lemma_pixel_of_byte(c, x, y, 1);
            lemma_pixel_of_byte(c, x, y, 2);
        }
    }
}

/// Sets the pixel at `(x, y)` to `color`: three bytes, red first. Does
/// nothing where the buffer has no such pixel.
pub fn draw_point(buffer: &mut ImageBuffer, x: usize, y: usize, color: Color)
    requires
        old(buffer).wf(),
    ensures
        final(buffer).wf(),
        final(buffer)@ == old(buffer)@.with_pixel(x as int, y as int, color),
{
    if x >= buffer.width || y >= buffer.height {
        return ;
    }
    proof {
        lemma_pixel_in_bytes(buffer@, x as int, y as int);
        assert(y * buffer.pitch + x * 3 + 2 < buffer.pixels.len());
    }
    let offset: usize = y * buffer.pitch + x * 3;
    buffer.pixels[offset] = color.r;
    buffer.pixels[offset + 1] = color.g;
    buffer.pixels[offset + 2] = color.b;
}

/// The pixel at `(x, y)` belongs to the mark whose top-left pixel is
/// `(x0, y0)`.
pub open spec fn in_mark(x0: int, y0: int, x: int, y: int) -> bool {
    x0 <= x <= x0 + 1 && y0 <= y <= y0 + 1
}

impl Canvas {
    /// The canvas after the four pixels of the mark at `(x0, y0)` have been
    /// set to `color`, as far as the canvas has them.
    pub open spec fn with_mark(self, x0: int, y0: int, color: Color) -> Canvas {
        self.with_pixel(x0, y0, color).with_pixel(x0 + 1, y0, color).with_pixel(
            x0,
            y0 + 1,
            color,
        ).with_pixel(x0 + 1, y0 + 1, color)
    }
}

/// Repainting what has been repainted is one repainting, in which the later
/// colour wins.
pub proof fn lemma_repaints_twice(
    before: Canvas,
    mid: Canvas,
    after: Canvas,
    first: spec_fn(int, int) -> Option<Color>,
    second: spec_fn(int, int) -> Option<Color>,
    both: spec_fn(int, int) -> Option<Color>,
)
    requires
        mid.repaints(before, first),
        after.repaints(mid, second),
        forall|x: int, y: int|
            before.has_pixel(x, y) ==> #[trigger] both(x, y) == (match second(x, y) {
                Some(color) => Some(color),
                None => first(x, y),
            }),
    ensures
        after.repaints(before, both),
{
    assert forall|x: int, y: int| before.has_pixel(x, y) implies #[trigger] after.pixel(x, y) == (
    match both(x, y) {
        Some(color) => color,
        None => before.pixel(x, y),
    }) by {
        assert(mid.has_pixel(x, y));
        assert(after.pixel(x, y) == (match second(x, y) {
            Some(color) => color,
            None => mid.pixel(x, y),
        }));
    }
    assert forall|i: int| 0 <= i < before.bytes.len() && before.is_padding(i) implies #[trigger] after.bytes[i]
        == before.bytes[i] by {
        assert(mid.is_padding(i));
        assert(mid.bytes[i] == before.bytes[i]);
    }
}

/// A repainting can be described by any paint that gives the same colours
/// on the pixels of the canvas.
pub proof fn lemma_repaints_same(
    before: Canvas,
    after: Canvas,
    paint: spec_fn(int, int) -> Option<Color>,
    same: spec_fn(int, int) -> Option<Color>,
)
    requires
        after.repaints(before, paint),
        forall|x: int, y: int| before.has_pixel(x, y) ==> #[trigger] same(x, y) == paint(x, y),
    ensures
        after.repaints(before, same),
{
    assert forall|x: int, y: int| before.has_pixel(x, y) implies #[trigger] after.pixel(x, y) == (
    match same(x, y) {
        Some(color) => color,
        None => before.pixel(x, y),
    }) by {
        assert(same(x, y) == paint(x, y));
    }
}

/// Drawing a mark repaints the pixels of the mark and nothing else.
pub proof fn lemma_with_mark(c: Canvas, x0: int, y0: int, color: Color)
    requires
        c.wf(),
    ensures
        c.with_mark(x0, y0, color).wf(),
        c.with_mark(x0, y0, color).repaints(
            c,
            |x: int, y: int|
                if in_mark(x0, y0, x, y) {
                    Some(color)
                } else {
                    None
                },
        ),
{
    let c1 = c.with_pixel(x0, y0, color);
    let c2 = c1.with_pixel(x0 + 1, y0, color);
    let c3 = c2.with_pixel(x0, y0 + 1, color);
    let c4 = c3.with_pixel(x0 + 1, y0 + 1, color);
    let p1 = |x: int, y: int| if x == x0 && y == y0 { Some(color) } else { None };
    let p2 = |x: int, y: int| if x == x0 + 1 && y == y0 { Some(color) } else { None };
    let p3 = |x: int, y: int| if x == x0 && y == y0 + 1 { Some(color) } else { None };
    let p4 = |x: int, y: int| if x == x0 + 1 && y == y0 + 1 { Some(color) } else { None };
    let p12 = |x: int, y: int| if x0 <= x <= x0 + 1 && y == y0 { Some(color) } else { None };
    let p123 = |x: int, y: int|
        if (x0 <= x <= x0 + 1 && y == y0) || (x == x0 && y == y0 + 1) {
            Some(color)
        } else {
            None
        };
    let all = |x: int, y: int| if in_mark(x0, y0, x, y) { Some(color) } else { None };
    lemma_with_pixel(c, x0, y0, color);
    lemma_with_pixel(c1, x0 + 1, y0, color);
    lemma_with_pixel(c2, x0, y0 + 1, color);
    lemma_with_pixel(c3, x0 + 1, y0 + 1, color);
    lemma_repaints_twice(c, c1, c2, p1, p2, p12);
    lemma_repaints_twice(c, c2, c3, p12, p3, p123);
    lemma_repaints_twice(c, c3, c4, p123, p4, all);
}

/// Drawing a mark on a repainted canvas: the mark's pixels take its colour,
/// the others keep what the repainting gave them.
pub proof fn lemma_paint_mark(
    before: Canvas,
    mid: Canvas,
    paint_mid: spec_fn(int, int) -> Option<Color>,
    paint_after: spec_fn(int, int) -> Option<Color>,
    x0: int,
    y0: int,
    color: Color,
)
    requires
        before.wf(),
        mid.repaints(before, paint_mid),
        forall|x: int, y: int|
            before.has_pixel(x, y) ==> #[trigger] paint_after(x, y) == (if in_mark(x0, y0, x, y) {
                Some(color)
            } else {
                paint_mid(x, y)
            }),
    ensures
        mid.wf(),
        mid.with_mark(x0, y0, color).wf(),
        mid.with_mark(x0, y0, color).repaints(before, paint_after),
{
    lemma_with_mark(mid, x0, y0, color);
    lemma_repaints_twice(
        before,
        mid,
        mid.with_mark(x0, y0, color),
        paint_mid,
        |x: int, y: int|
            if in_mark(x0, y0, x, y) {
                Some(color)
            } else {
                None
            },
        paint_after,
    );
}

/// Sets the pixel at `(x, y)` to `color`, for coordinates of any size.
fn draw_far_point(buffer: &mut ImageBuffer, x: u128, y: u128, color: Color)
    requires
        old(buffer).wf(),
    ensures
        final(buffer).wf(),
        final(buffer)@ == old(buffer)@.with_pixel(x as int, y as int, color),
{
    if x < buffer.width as u128 && y < buffer.height as u128 {
        draw_point(buffer, x as usize, y as usize, color);
    }
}

/// Draws the mark of 2 by 2 pixels whose top-left pixel is `(x0, y0)`.
pub fn draw_mark(buffer: &mut ImageBuffer, x0: u128, y0: u128, color: Color)
    requires
        old(buffer).wf(),
    ensures
        final(buffer).wf(),
        final(buffer)@ == old(buffer)@.with_mark(x0 as int, y0 as int, color),
{
    // No buffer is as wide or as high as `u128::MAX`, so where the sum does
    // not fit, the pixel that is drawn instead lies outside the buffer too.
    let x1: u128 = x0.saturating_add(1);
    let y1: u128 = y0.saturating_add(1);
    draw_far_point(buffer, x0, y0, color);
    draw_far_point(buffer, x1, y0, color);
    draw_far_point(buffer, x0, y1, color);
    draw_far_point(buffer, x1, y1, color);
}

/// Draws the cell at `(cell_x, cell_y)` of a grid of squares of `cell_size`
/// pixels: a mark at the top-left corner of the square.
pub fn draw_cell(buffer: &mut ImageBuffer, cell_x: u32, cell_y: u32, cell_size: u32, color: Color)
    requires
        old(buffer).wf(),
    ensures
        final(buffer).wf(),
        final(buffer)@ == old(buffer)@.with_mark(cell_x * cell_size, cell_y * cell_size, color),
{
    assert(0 <= cell_x * cell_size <= 0xffff_ffff * 0xffff_ffff) by (nonlinear_arith)
        requires
            0 <= cell_x <= 0xffff_ffff,
            0 <= cell_size <= 0xffff_ffff,
    ;
    assert(0 <= cell_y * cell_size <= 0xffff_ffff * 0xffff_ffff) by (nonlinear_arith)
        requires
            0 <= cell_y <= 0xffff_ffff,
            0 <= cell_size <= 0xffff_ffff,
    ;
    draw_mark(buffer, cell_x as u128 * cell_size as u128, cell_y as u128 * cell_size as u128, color);
}

} // verus!

//! Rectangle-cutting layout, hit testing, and surface operations over a
//! pixel buffer.

use crate::font::Font;
use crate::pixel::Color;
use crate::pixel::PixBuf;
use crate::pixel::lemma_index_in_bounds;
use vstd::prelude::*;

verus! {

/// Which axis sequential `cut` calls consume.
#[derive(Clone, Copy, Debug, PartialEq, Eq, Structural)]
pub enum CutDir {
    Horizontal,
    Vertical,
}

/// An axis-aligned rectangle. Width and height may go negative during
/// intermediate layout arithmetic; such a rectangle is treated as empty by
/// fills and hit tests.
#[derive(Clone, Copy, Debug, PartialEq, Eq, Structural)]
pub struct Rect {
    pub x: i32,
    pub y: i32,
    pub width: i32,
    pub height: i32,
}

impl Rect {
    pub open spec fn spec_contains(self, x: int, y: int) -> bool {
        &&& x >= self.x
        &&& y >= self.y
        &&& x < self.x + self.width
        &&& y < self.y + self.height
    }

    /// Point-in-rectangle test; a rectangle of non-positive width or height
    /// contains nothing.
    pub fn contains(&self, x: i32, y: i32) -> (r: bool)
        ensures
            r == self.spec_contains(x as int, y as int),
    {
        x >= self.x && y >= self.y && (x as i64) < (self.x as i64) + (self.width as i64) && (
        y as i64) < (self.y as i64) + (self.height as i64)
    }
}

/// Layout arithmetic saturates at the `i32` range instead of wrapping, so a
/// degenerate chain of cuts yields degenerate (empty) rectangles, never a
/// fault.
pub open spec fn clamp_i32(v: int) -> int {
    if v < i32::MIN {
        i32::MIN as int
    } else if v > i32::MAX {
        i32::MAX as int
    } else {
        v
    }
}

pub fn clamp_to_i32(v: i64) -> (r: i32)
    ensures
        r as int == clamp_i32(v as int),
{
    if v < i32::MIN as i64 {
        i32::MIN
    } else if v > i32::MAX as i64 {
        i32::MAX
    } else {
        v as i32
    }
}

pub fn add_clamped(a: i32, b: i32) -> (r: i32)
    ensures
        r as int == clamp_i32(a + b),
{
    clamp_to_i32((a as i64) + (b as i64))
}

pub fn sub_clamped(a: i32, b: i32) -> (r: i32)
    ensures
        r as int == clamp_i32(a - b),
{
    clamp_to_i32((a as i64) - (b as i64))
}

/// Truncating halving, the rounding the centering formula uses.
pub open spec fn spec_half(v: int) -> int {
    if v >= 0 {
        v / 2
    } else {
        -((-v) / 2)
    }
}

pub fn half(v: i32) -> (h: i32)
    ensures
        h as int == spec_half(v as int),
{
    if v >= 0 {
        ((v as u32) / 2) as i32
    } else {
        let m: u64 = ((-(v as i64)) as u64) / 2;
        -(m as i32)
    }
}

/// Per-frame input snapshot: three button states and an optional cursor
/// position in destination-buffer pixel space.
pub struct Events {
    pub mouse_left: bool,
    pub mouse_middle: bool,
    pub mouse_right: bool,
    pub cursor: Option<(i32, i32)>,
}

/// The visual style a region draws with: the active font, the text scale,
/// the cut direction, and the current color. Region entry saves a copy,
/// region exit restores it.
#[derive(Clone, Copy)]
pub struct Visuals<'a> {
    pub font: &'a Font,
    pub text_size: i32,
    pub dir: CutDir,
    pub color: Color,
}

impl<'a> Visuals<'a> {
    pub open spec fn wf(self) -> bool {
        &&& self.font.wf()
        &&& 1 <= self.text_size
    }

    /// The vertical advance of one text line: the font's cell height at the
    /// current text scale, saturated to the `i32` range.
    pub fn font_height(&self) -> (h: i32)
        ensures
            h as int == clamp_i32(self.font.height * self.text_size),
    {
        proof {
            crate::pixel::lemma_i32_mul_fits_i64(self.font.height as int, self.text_size as int);
        }
        let p: i64 = (self.font.height as i64) * (self.text_size as i64);
        if p > i32::MAX as i64 {
            i32::MAX
        } else if p < i32::MIN as i64 {
            i32::MIN
        } else {
            p as i32
        }
    }

    /// The horizontal advance of one layout cell: the font's cell width at
    /// the current text scale, saturated to the `i32` range.
    pub fn font_width(&self) -> (w: i32)
        ensures
            w as int == clamp_i32(self.font.width * self.text_size),
    {
        proof {
            crate::pixel::lemma_i32_mul_fits_i64(self.font.width as int, self.text_size as int);
        }
        let p: i64 = (self.font.width as i64) * (self.text_size as i64);
        if p > i32::MAX as i64 {
            i32::MAX
        } else if p < i32::MIN as i64 {
            i32::MIN
        } else {
            p as i32
        }
    }
}

/// The buffer after filling a rectangle: cell `i` stands for destination
/// coordinate `(i % width, i / width)` and takes `color` exactly when the
/// rectangle contains that coordinate.
pub open spec fn spec_fill_rect(buf: Seq<Color>, width: int, r: Rect, color: Color) -> Seq<Color> {
    Seq::new(
        buf.len(),
        |i: int|
            if width >= 1 && r.spec_contains(i % width, i / width) {
                color
            } else {
                buf[i]
            },
    )
}

/// The buffer after one text run at the top-left of `r`, the baseline one
/// line height below its top.
pub open spec fn spec_text_buf<'a>(
    v: Visuals<'a>,
    r: Rect,
    s: Seq<char>,
    buf: Seq<Color>,
    bw: int,
) -> Seq<Color> {
    v.font.raster_text_from(
        buf,
        bw,
        s,
        0,
        r.x as int,
        r.y + v.font.height * v.text_size,
        v.color,
        v.text_size as int,
    )
}

/// The rectangle left after one text run: the measured extent cut along the
/// active direction.
pub open spec fn spec_text_rect<'a>(v: Visuals<'a>, r: Rect, s: Seq<char>) -> Rect {
    Canvas::spec_cut_rest(
        r,
        v.dir,
        clamp_i32(v.font.spec_measure(s, 0) * v.font.width * v.text_size) as i32,
        clamp_i32(v.font.height * v.text_size) as i32,
    )
}

/// The machine limits under which one text run's pixels are pinned: the
/// cell count fits an `i32` and the pen stays in its integer type.
pub open spec fn spec_text_fits<'a>(v: Visuals<'a>, r: Rect, s: Seq<char>) -> bool {
    s.len() <= i32::MAX && v.font.text_fits(s, r.x as int, v.text_size as int)
}

/// The buffer after a run of texts, each cutting the rectangle it was drawn
/// in before the next.
pub open spec fn spec_texts_buf<'a>(
    v: Visuals<'a>,
    r: Rect,
    texts: Seq<Seq<char>>,
    buf: Seq<Color>,
    bw: int,
    i: int,
) -> Seq<Color>
    decreases texts.len() - i,
{
    if i < 0 || i >= texts.len() {
        buf
    } else {
        spec_texts_buf(
            v,
            spec_text_rect(v, r, texts[i]),
            texts,
            spec_text_buf(v, r, texts[i], buf, bw),
            bw,
            i + 1,
        )
    }
}

/// The rectangle left after a run of texts.
pub open spec fn spec_texts_rect<'a>(v: Visuals<'a>, r: Rect, texts: Seq<Seq<char>>, i: int) -> Rect
    decreases texts.len() - i,
{
    if i < 0 || i >= texts.len() {
        r
    } else {
        spec_texts_rect(v, spec_text_rect(v, r, texts[i]), texts, i + 1)
    }
}

/// Every text of the run stays within the machine limits at its own
/// rectangle.
pub open spec fn spec_texts_fits<'a>(v: Visuals<'a>, r: Rect, texts: Seq<Seq<char>>, i: int) -> bool
    decreases texts.len() - i,
{
    if i < 0 || i >= texts.len() {
        true
    } else {
        spec_text_fits(v, r, texts[i]) && spec_texts_fits(
            v,
            spec_text_rect(v, r, texts[i]),
            texts,
            i + 1,
        )
    }
}

/// The rectangle and visuals saved on region entry; handing it back to
/// `restore` is region exit.
pub struct Scope<'a> {
    pub rect: Rect,
    pub visuals: Visuals<'a>,
}

/// The drawing context of one frame: the destination buffer, the current
/// layout rectangle, the current visuals, and the frame's input snapshot.
pub struct Canvas<'a> {
    pub pix: PixBuf,
    pub rect: Rect,
    pub visuals: Visuals<'a>,
    pub events: Events,
}

impl<'a> Canvas<'a> {
    pub open spec fn wf(self) -> bool {
        &&& self.pix.wf()
        &&& self.visuals.wf()
    }

    /// The cursor exists and lies inside the current rectangle.
    pub open spec fn spec_hover(self) -> bool {
        match self.events.cursor {
            Some(c) => self.rect.spec_contains(c.0 as int, c.1 as int),
            None => false,
        }
    }

    pub fn hover(&self) -> (r: bool)
        ensures
            r == self.spec_hover(),
    {
        match self.events.cursor {
            Some(c) => self.rect.contains(c.0, c.1),
            None => false,
        }
    }

    pub fn mouse_left(&self) -> (r: bool)
        ensures
            r == (self.spec_hover() && self.events.mouse_left),
    {
        self.hover() && self.events.mouse_left
    }

    pub fn mouse_middle(&self) -> (r: bool)
        ensures
            r == (self.spec_hover() && self.events.mouse_middle),
    {
        self.hover() && self.events.mouse_middle
    }

    pub fn mouse_right(&self) -> (r: bool)
        ensures
            r == (self.spec_hover() && self.events.mouse_right),
    {
        self.hover() && self.events.mouse_right
    }

    /// The canvas as it stands after a scope is restored: the saved
    /// rectangle and visuals come back, buffer and input stay.
    pub open spec fn spec_restored(self, scope: Scope<'a>) -> Canvas<'a> {
        Canvas { rect: scope.rect, visuals: scope.visuals, ..self }
    }

    /// Region entry: saves the current rectangle and visuals and makes
    /// `rect` current. The matching `restore` call is region exit.
    pub fn with_rect(&mut self, rect: Rect) -> (scope: Scope<'a>)
        ensures
            scope.rect == old(self).rect,
            scope.visuals == old(self).visuals,
            *final(self) == (Canvas { rect, ..*old(self) }),
    {
        let scope = Scope { rect: self.rect, visuals: self.visuals };
        self.rect = rect;
        scope
    }

    /// Region exit: restores the rectangle and visuals saved at region
    /// entry, whatever the region's body did to them in between.
    pub fn restore(&mut self, scope: Scope<'a>)
        ensures
            *final(self) == old(self).spec_restored(scope),
    {
        self.rect = scope.rect;
        self.visuals = scope.visuals;
    }

    /// The rectangle of the given size centered in `r`.
    pub open spec fn spec_centered(r: Rect, width: i32, height: i32) -> Rect {
        Rect {
            x: clamp_i32(r.x + spec_half(r.width as int) - spec_half(width as int)) as i32,
            y: clamp_i32(r.y + spec_half(r.height as int) - spec_half(height as int)) as i32,
            width,
            height,
        }
    }

    /// Enters a region of the given size centered in the current rectangle.
    /// Non-consuming: the current rectangle is saved unchanged, so sibling
    /// regions may overlap the centered one.
    pub fn center(&mut self, width: i32, height: i32) -> (scope: Scope<'a>)
        ensures
            scope.rect == old(self).rect,
            scope.visuals == old(self).visuals,
            *final(self) == (Canvas {
                rect: Canvas::spec_centered(old(self).rect, width, height),
                ..*old(self)
            }),
    {
        let hx = half(self.rect.width);
        let hw = half(width);
        let hy = half(self.rect.height);
        let hh = half(height);
        let cx = clamp_to_i32((self.rect.x as i64) + (hx as i64) - (hw as i64));
        let cy = clamp_to_i32((self.rect.y as i64) + (hy as i64) - (hh as i64));
        let rect = Rect { x: cx, y: cy, width, height };
        self.with_rect(rect)
    }

    /// The remainder after a top cut: the origin moves down by `height` and
    /// the height shrinks by it.
    pub open spec fn spec_cut_top_rest(r: Rect, height: i32) -> Rect {
        Rect {
            x: r.x,
            y: clamp_i32(r.y + height) as i32,
            width: r.width,
            height: clamp_i32(r.height - height) as i32,
        }
    }

    /// Carves a strip of the full current width and the given height from
    /// the top of the current rectangle and enters it; the saved rectangle
    /// is the shrunk remainder, so siblings continue below the strip.
    pub fn cut_top(&mut self, height: i32) -> (scope: Scope<'a>)
        ensures
            scope.rect == Canvas::spec_cut_top_rest(old(self).rect, height),
            scope.visuals == old(self).visuals,
            *final(self) == (Canvas {
                rect: Rect {
                    x: old(self).rect.x,
                    y: old(self).rect.y,
                    width: old(self).rect.width,
                    height,
                },
                ..*old(self)
            }),
    {
        let carved = Rect { x: self.rect.x, y: self.rect.y, width: self.rect.width, height };
        self.rect.y = add_clamped(self.rect.y, height);
        self.rect.height = sub_clamped(self.rect.height, height);
        self.with_rect(carved)
    }

    /// The remainder after a directed cut: the origin advances along the
    /// active direction, and both extents shrink by the carved amounts.
    pub open spec fn spec_cut_rest(r: Rect, dir: CutDir, width: i32, height: i32) -> Rect {
        Rect {
            x: if dir == CutDir::Horizontal {
                clamp_i32(r.x + width) as i32
            } else {
                r.x
            },
            y: if dir == CutDir::Vertical {
                clamp_i32(r.y + height) as i32
            } else {
                r.y
            },
            width: clamp_i32(r.width - width) as i32,
            height: clamp_i32(r.height - height) as i32,
        }
    }

    /// Carves a `width x height` rectangle from the leading edge of the
    /// active cut direction and enters it; the saved rectangle is the
    /// shrunk remainder.
    pub fn cut(&mut self, width: i32, height: i32) -> (scope: Scope<'a>)
        ensures
            scope.rect == Canvas::spec_cut_rest(old(self).rect, old(self).visuals.dir, width, height),
            scope.visuals == old(self).visuals,
            *final(self) == (Canvas {
                rect: Rect { x: old(self).rect.x, y: old(self).rect.y, width, height },
                ..*old(self)
            }),
    {
        let carved = Rect { x: self.rect.x, y: self.rect.y, width, height };
        match self.visuals.dir {
            CutDir::Horizontal => {
                self.rect.x = add_clamped(self.rect.x, width);
            },
            CutDir::Vertical => {
                self.rect.y = add_clamped(self.rect.y, height);
            },
        }
        self.rect.width = sub_clamped(self.rect.width, width);
        self.rect.height = sub_clamped(self.rect.height, height);
        self.with_rect(carved)
    }

    /// Fills the whole destination buffer with transparent black.
    pub fn clear(&mut self)
        requires
            old(self).wf(),
        ensures
            final(self).wf(),
            final(self).pix.same_shape(old(self).pix),
            final(self).rect == old(self).rect,
            final(self).visuals == old(self).visuals,
            final(self).events == old(self).events,
            forall|px: int, py: int|
                old(self).pix.in_bounds(px, py) ==> final(self).pix.pixel(px, py)
                    == Color::spec_transparent(),
    {
        let n = self.pix.buf.len();
        let mut i: usize = 0;
        while i < n
            invariant
                self.wf(),
                self.pix.buf@.len() == n,
                i <= n,
                self.pix.same_shape(old(self).pix),
                self.rect == old(self).rect,
                self.visuals == old(self).visuals,
                self.events == old(self).events,
                forall|j: int| 0 <= j < i ==> self.pix.buf@[j] == Color::spec_transparent(),
            decreases n - i,
        {
            self.pix.buf[i] = Color::transparent();
            i = i + 1;
        }
        proof {
            assert forall|px: int, py: int| old(self).pix.in_bounds(px, py) implies self.pix.pixel(
                px,
                py,
            ) == Color::spec_transparent() by {
                lemma_index_in_bounds(self.pix.width as int, self.pix.height as int, px, py);
            }
        }
    }

    /// Fills every buffer pixel inside the current rectangle with `color`;
    /// the out-of-bounds part of the rectangle, or all of a degenerate one,
    /// is skipped.
    pub fn fill(&mut self, color: Color)
        requires
            old(self).wf(),
        ensures
            final(self).wf(),
            final(self).pix.same_shape(old(self).pix),
            final(self).rect == old(self).rect,
            final(self).visuals == old(self).visuals,
            final(self).events == old(self).events,
            forall|px: int, py: int|
                old(self).pix.in_bounds(px, py) ==> final(self).pix.pixel(px, py) == (if old(
                    self,
                ).rect.spec_contains(px, py) {
                    color
                } else {
                    old(self).pix.pixel(px, py)
                }),
            final(self).pix.buf@ == spec_fill_rect(
                old(self).pix.buf@,
                old(self).pix.width as int,
                old(self).rect,
                color,
            ),
    {
        let x_end: i64 = (self.rect.x as i64) + (self.rect.width as i64);
        let y_end: i64 = (self.rect.y as i64) + (self.rect.height as i64);
        let mut y: i64 = if self.rect.y < 0 {
            0
        } else {
            self.rect.y as i64
        };
        while y < y_end && y < self.pix.height as i64
            invariant
                self.wf(),
                self.pix.same_shape(old(self).pix),
                self.rect == old(self).rect,
                self.visuals == old(self).visuals,
                self.events == old(self).events,
                x_end == self.rect.x + self.rect.width,
                y_end == self.rect.y + self.rect.height,
                0 <= y,
                self.rect.y <= y,
                forall|px: int, py: int|
                    old(self).pix.in_bounds(px, py) ==> self.pix.pixel(px, py) == (if old(
                        self,
                    ).rect.spec_contains(px, py) && py < y {
                        color
                    } else {
                        old(self).pix.pixel(px, py)
                    }),
            decreases y_end - y,
        {
            let mut x: i64 = if self.rect.x < 0 {
                0
            } else {
                self.rect.x as i64
            };
            while x < x_end && x < self.pix.width as i64
                invariant
                    self.wf(),
                    self.pix.same_shape(old(self).pix),
                    self.rect == old(self).rect,
                    self.visuals == old(self).visuals,
                    self.events == old(self).events,
                    x_end == self.rect.x + self.rect.width,
                    y_end == self.rect.y + self.rect.height,
                    0 <= y < self.pix.height,
                    self.rect.y <= y < y_end,
                    0 <= x,
                    self.rect.x <= x,
                    forall|px: int, py: int|
                        old(self).pix.in_bounds(px, py) ==> self.pix.pixel(px, py) == (if (old(
                            self,
                        ).rect.spec_contains(px, py) && py < y) || (old(self).rect.spec_contains(
                            px,
                            py,
                        ) && py == y && px < x) {
                            color
                        } else {
                            old(self).pix.pixel(px, py)
                        }),
                decreases x_end - x,
            {
                self.pix.set_pixel(x as i32, y as i32, color);
                x = x + 1;
            }
            y = y + 1;
        }
        proof {
            let target = spec_fill_rect(
                old(self).pix.buf@,
                old(self).pix.width as int,
                old(self).rect,
                color,
            );
            let w = self.pix.width as int;
            let hgt = self.pix.height as int;
            if w >= 1 {
                assert forall|i: int| 0 <= i < self.pix.buf@.len() implies self.pix.buf@[i]
                    == target[i] by {
                    crate::pixel::lemma_index_coords(w, hgt, i);
                    let px = i % w;
                    let py = i / w;
                    assert(old(self).pix.in_bounds(px, py));
                    assert(self.pix.pixel(px, py) == (if old(self).rect.spec_contains(px, py) {
                        color
                    } else {
                        old(self).pix.pixel(px, py)
                    }));
                    assert(self.pix.buf@[i] == self.pix.pixel(px, py));
                    assert(old(self).pix.buf@[i] == old(self).pix.pixel(px, py));
                }
                assert(self.pix.buf@ =~= target);
            } else {
                vstd::arithmetic::mul::lemma_mul_basics(hgt);
                assert(self.pix.buf@.len() == 0);
                assert(self.pix.buf@ =~= target);
            }
        }
    }
}

pub fn clamp128_to_i32(v: i128) -> (r: i32)
    ensures
        r as int == clamp_i32(v as int),
{
    if v < i32::MIN as i128 {
        i32::MIN
    } else if v > i32::MAX as i128 {
        i32::MAX
    } else {
        v as i32
    }
}

/// Truncating division of a layout extent among `b` parts.
pub fn div_trunc32(a: i32, b: i32) -> (q: i32)
    requires
        1 <= b,
    ensures
        q as int == crate::font::spec_div_trunc(a as int, b as int),
{
    let q = crate::font::div_trunc(a as i64, b);
    q as i32
}

impl<'a> Canvas<'a> {
    /// Draws a text at the top-left of the current rectangle, the baseline
    /// one line height below its top, then cuts the consumed extent from
    /// the current rectangle so sequential texts do not overlap.
    pub fn text(&mut self, s: &Vec<char>)
        requires
            old(self).wf(),
            s@.len() <= i32::MAX,
        ensures
            final(self).wf(),
            final(self).pix.same_shape(old(self).pix),
            final(self).visuals == old(self).visuals,
            final(self).events == old(self).events,
            final(self).rect == spec_text_rect(old(self).visuals, old(self).rect, s@),
            spec_text_fits(old(self).visuals, old(self).rect, s@) ==> final(self).pix.buf@
                == spec_text_buf(
                old(self).visuals,
                old(self).rect,
                s@,
                old(self).pix.buf@,
                old(self).pix.width as int,
            ),
    {
        let font = self.visuals.font;
        let ts = self.visuals.text_size;
        proof {
            crate::pixel::lemma_i32_mul_fits_i64(font.height as int, ts as int);
        }
        let py: i64 = (self.rect.y as i64) + (font.height as i64) * (ts as i64);
        let cells = font.draw(&mut self.pix, s, (self.rect.x as i64, py), self.visuals.color, ts);
        proof {
            crate::pixel::lemma_i32_mul3_fits_i128(cells as int, font.width as int, ts as int);
        }
        let cw = clamp128_to_i32((cells as i128) * (font.width as i128) * (ts as i128));
        let ch = clamp_to_i32((font.height as i64) * (ts as i64));
        let scope = self.cut(cw, ch);
        self.restore(scope);
    }
}

/// A widget: something that draws itself into the canvas's current
/// rectangle, leaving the buffer geometry intact.
pub trait Widget {
    fn draw(&mut self, canvas: &mut Canvas)
        requires
            old(canvas).wf(),
        ensures
            final(canvas).wf(),
            final(canvas).pix.same_shape(old(canvas).pix),
            final(canvas).events == old(canvas).events,
    ;
}

/// A text run with its own scale and color.
pub struct Text {
    pub text: Vec<char>,
    pub scale: i32,
    pub color: Color,
}

impl Text {
    pub fn new(text: Vec<char>, scale: i32, color: Color) -> (t: Text)
        ensures
            t.text == text,
            t.scale == scale,
            t.color == color,
    {
        Text { text, scale, color }
    }
}

impl Widget for Text {
    /// Draws the run with its own scale and color in place of the current
    /// visuals, consuming the measured extent from the current rectangle; a
    /// degenerate scale or an oversized text draws nothing.
    fn draw(&mut self, canvas: &mut Canvas)
        ensures
            *final(self) == *old(self),
            final(canvas).visuals == old(canvas).visuals,
            (old(self).scale < 1 || old(self).text@.len() > i32::MAX) ==> *final(canvas) == *old(
                canvas,
            ),
            (old(self).scale >= 1 && old(self).text@.len() <= i32::MAX) ==> final(canvas).rect
                == Canvas::spec_cut_rest(
                old(canvas).rect,
                old(canvas).visuals.dir,
                clamp_i32(
                    old(canvas).visuals.font.spec_measure(old(self).text@, 0) * old(
                        canvas,
                    ).visuals.font.width * old(self).scale,
                ) as i32,
                clamp_i32(old(canvas).visuals.font.height * old(self).scale) as i32,
            ),
            (old(self).scale >= 1 && old(self).text@.len() <= i32::MAX && old(
                canvas,
            ).visuals.font.text_fits(
                old(self).text@,
                old(canvas).rect.x as int,
                old(self).scale as int,
            )) ==> final(canvas).pix.buf@ == old(canvas).visuals.font.raster_text_from(
                old(canvas).pix.buf@,
                old(canvas).pix.width as int,
                old(self).text@,
                0,
                old(canvas).rect.x as int,
                old(canvas).rect.y + old(canvas).visuals.font.height * old(self).scale,
                old(self).color,
                old(self).scale as int,
            ),
    {
        if self.scale < 1 || self.text.len() > 0x7FFF_FFFF {
            return ;
        }
        let saved_size = canvas.visuals.text_size;
        let saved_color = canvas.visuals.color;
        canvas.visuals.text_size = self.scale;
        canvas.visuals.color = self.color;
        canvas.text(&self.text);
        canvas.visuals.text_size = saved_size;
        canvas.visuals.color = saved_color;
    }
}

/// The rectangle a tab's name is centered into: the measured name width by
/// one line height plus a margin of four scale units.
pub open spec fn spec_label_rect<'a>(v: Visuals<'a>, r: Rect, name: Seq<char>) -> Rect {
    Canvas::spec_centered(
        r,
        clamp_i32(v.font.spec_measure(name, 0) * clamp_i32(v.font.width * v.text_size)) as i32,
        clamp_i32(clamp_i32(v.font.height * v.text_size) + v.text_size * 4) as i32,
    )
}

/// The buffer after drawing a tab's name centered in `r`.
pub open spec fn spec_label_buf<'a>(
    v: Visuals<'a>,
    r: Rect,
    name: Seq<char>,
    buf: Seq<Color>,
    bw: int,
) -> Seq<Color> {
    spec_text_buf(v, spec_label_rect(v, r, name), name, buf, bw)
}

pub open spec fn spec_label_fits<'a>(v: Visuals<'a>, r: Rect, name: Seq<char>) -> bool {
    spec_text_fits(v, spec_label_rect(v, r, name), name)
}

/// The label geometry and its machine limits read only the font and the
/// text scale, never the color.
pub proof fn lemma_label_color_blind<'a>(v1: Visuals<'a>, v2: Visuals<'a>, r: Rect, name: Seq<char>)
    requires
        v1.font == v2.font,
        v1.text_size == v2.text_size,
    ensures
        spec_label_rect(v1, r, name) == spec_label_rect(v2, r, name),
        spec_label_fits(v1, r, name) == spec_label_fits(v2, r, name),
{
}

/// One tab of a tabbed panel: an enumerable value with a display name.
pub trait Tab: Sized + Copy {
    /// All tabs, in display order.
    spec fn spec_variants() -> Seq<Self>;

    /// All tabs, in display order; a tab strip has at least one tab.
    fn variants() -> (v: Vec<Self>)
        ensures
            v@ == Self::spec_variants(),
            1 <= v@.len() <= 0x7FFF_FFFF,
    ;

    /// The tab's display name.
    spec fn spec_name(&self) -> Seq<char>;

    fn name(&self) -> (n: Vec<char>)
        ensures
            n@ == self.spec_name(),
    ;

    fn same(&self, other: &Self) -> (r: bool)
        ensures
            r == (*self == *other),
    ;

    /// Draws the tab's name centered in the current rectangle.
    fn draw(&self, canvas: &mut Canvas)
        requires
            old(canvas).wf(),
        ensures
            final(canvas).wf(),
            final(canvas).pix.same_shape(old(canvas).pix),
            final(canvas).rect == old(canvas).rect,
            final(canvas).visuals == old(canvas).visuals,
            final(canvas).events == old(canvas).events,
            spec_label_fits(old(canvas).visuals, old(canvas).rect, self.spec_name())
                ==> final(canvas).pix.buf@ == spec_label_buf(
                old(canvas).visuals,
                old(canvas).rect,
                self.spec_name(),
                old(canvas).pix.buf@,
                old(canvas).pix.width as int,
            ),
    {
        let name = self.name();
        if name.len() > 0x7FFF_FFFF {
            return ;
        }
        let cells = canvas.visuals.font.len(&name);
        let fw = canvas.visuals.font_width();
        let fh = canvas.visuals.font_height();
        proof {
            crate::pixel::lemma_i32_mul_fits_i64(cells as int, fw as int);
        }
        let w = clamp_to_i32((cells as i64) * (fw as i64));
        let h = clamp_to_i32((fh as i64) + (canvas.visuals.text_size as i64) * 4);
        let scope = canvas.center(w, h);
        canvas.text(&name);
        canvas.restore(scope);
    }
}

/// The one-frame highlight rule of a tab: a tab renders highlighted when it
/// is the selected one and either no tab in the strip is being clicked or
/// this very tab is the one being clicked.
pub fn tab_highlight(is_selected: bool, selecting: bool, clicked: bool) -> (r: bool)
    ensures
        r == (is_selected && (!selecting || clicked)),
{
    is_selected && (!selecting || clicked)
}

/// The cursor exists and lies inside `r`.
pub open spec fn spec_cursor_in(cursor: Option<(i32, i32)>, r: Rect) -> bool {
    match cursor {
        Some(c) => r.spec_contains(c.0 as int, c.1 as int),
        None => false,
    }
}

impl<'a> Canvas<'a> {
    /// The remaining rectangle after `i` equal cuts of `w x h` along `dir`.
    pub open spec fn spec_rem(r0: Rect, dir: CutDir, w: i32, h: i32, i: int) -> Rect
        decreases i,
    {
        if i <= 0 {
            r0
        } else {
            Canvas::spec_cut_rest(Canvas::spec_rem(r0, dir, w, h, i - 1), dir, w, h)
        }
    }

    /// The rectangle the tab at position `i` of the strip is drawn into.
    pub open spec fn spec_tab_rect(r0: Rect, dir: CutDir, w: i32, h: i32, i: int) -> Rect {
        Rect {
            x: Canvas::spec_rem(r0, dir, w, h, i).x,
            y: Canvas::spec_rem(r0, dir, w, h, i).y,
            width: w,
            height: h,
        }
    }

    /// The selection after one frame of the tab strip: walking the tabs in
    /// order, a tab under the cursor while the left button is held becomes
    /// the selection.
    pub open spec fn spec_tabs_select<T>(
        tabs: Seq<T>,
        r0: Rect,
        dir: CutDir,
        w: i32,
        h: i32,
        cursor: Option<(i32, i32)>,
        left: bool,
        sel: T,
        i: int,
    ) -> T
        decreases tabs.len() - i,
    {
        if i < 0 || i >= tabs.len() {
            sel
        } else {
            let hit = left && spec_cursor_in(cursor, Canvas::spec_tab_rect(r0, dir, w, h, i));
            let sel1 = if hit {
                tabs[i]
            } else {
                sel
            };
            Canvas::spec_tabs_select(tabs, r0, dir, w, h, cursor, left, sel1, i + 1)
        }
    }

    /// The size of one tab's rectangle: the current rectangle divided
    /// evenly among the tabs along the cut direction.
    pub open spec fn spec_tab_size(r0: Rect, dir: CutDir, n: int) -> (i32, i32) {
        if dir == CutDir::Horizontal {
            (clamp_i32(crate::font::spec_div_trunc(r0.width as int, n)) as i32, r0.height)
        } else {
            (r0.width, clamp_i32(crate::font::spec_div_trunc(r0.height as int, n)) as i32)
        }
    }

    /// One frame of the tab strip from tab `i` on, carrying the running
    /// selection and buffer: the selection moves to a tab under a held left
    /// click; a tab that the highlight rule picks has its rectangle filled
    /// with the visuals color and its name drawn in the inverted color; any
    /// other tab's name is drawn in the visuals color.
    pub open spec fn spec_tabs_pass<T: Tab>(
        v: Visuals<'a>,
        tabs: Seq<T>,
        r0: Rect,
        w: i32,
        h: i32,
        cursor: Option<(i32, i32)>,
        left: bool,
        selecting: bool,
        sel: T,
        buf: Seq<Color>,
        bw: int,
        i: int,
    ) -> (T, Seq<Color>)
        decreases tabs.len() - i,
    {
        if i < 0 || i >= tabs.len() {
            (sel, buf)
        } else {
            let rect = Canvas::spec_tab_rect(r0, v.dir, w, h, i);
            let hit = left && spec_cursor_in(cursor, rect);
            let sel1 = if hit {
                tabs[i]
            } else {
                sel
            };
            let hl = tabs[i] == sel1 && (!selecting || hit);
            let buf1 = if hl {
                spec_label_buf(
                    Visuals { color: crate::pixel::spec_invert(v.color), ..v },
                    rect,
                    tabs[i].spec_name(),
                    spec_fill_rect(buf, bw, rect, v.color),
                    bw,
                )
            } else {
                spec_label_buf(v, rect, tabs[i].spec_name(), buf, bw)
            };
            Canvas::spec_tabs_pass(v, tabs, r0, w, h, cursor, left, selecting, sel1, buf1, bw, i + 1)
        }
    }

    /// Every tab label from `i` on stays within the machine limits at its
    /// own sub-rectangle.
    pub open spec fn spec_tabs_fits<T: Tab>(
        v: Visuals<'a>,
        tabs: Seq<T>,
        r0: Rect,
        w: i32,
        h: i32,
        i: int,
    ) -> bool
        decreases tabs.len() - i,
    {
        if i < 0 || i >= tabs.len() {
            true
        } else {
            spec_label_fits(v, Canvas::spec_tab_rect(r0, v.dir, w, h, i), tabs[i].spec_name())
                && Canvas::spec_tabs_fits(v, tabs, r0, w, h, i + 1)
        }
    }

    /// Draws a tab strip over the current rectangle, divided evenly among
    /// the tabs, and moves the caller-owned selection to the tab under a
    /// held left click.
    pub fn tabs<T: Tab>(&mut self, selected: &mut T)
        requires
            old(self).wf(),
        ensures
            final(self).wf(),
            final(self).pix.same_shape(old(self).pix),
            final(self).visuals == old(self).visuals,
            final(self).events == old(self).events,
            final(self).rect == Canvas::spec_rem(
                old(self).rect,
                old(self).visuals.dir,
                Canvas::spec_tab_size(
                    old(self).rect,
                    old(self).visuals.dir,
                    T::spec_variants().len() as int,
                ).0,
                Canvas::spec_tab_size(
                    old(self).rect,
                    old(self).visuals.dir,
                    T::spec_variants().len() as int,
                ).1,
                T::spec_variants().len() as int,
            ),
            *final(selected) == Canvas::spec_tabs_select(
                T::spec_variants(),
                old(self).rect,
                old(self).visuals.dir,
                Canvas::spec_tab_size(
                    old(self).rect,
                    old(self).visuals.dir,
                    T::spec_variants().len() as int,
                ).0,
                Canvas::spec_tab_size(
                    old(self).rect,
                    old(self).visuals.dir,
                    T::spec_variants().len() as int,
                ).1,
                old(self).events.cursor,
                old(self).events.mouse_left,
                *old(selected),
                0,
            ),
            ({
                let wh = Canvas::spec_tab_size(
                    old(self).rect,
                    old(self).visuals.dir,
                    T::spec_variants().len() as int,
                );
                Canvas::spec_tabs_fits(
                    old(self).visuals,
                    T::spec_variants(),
                    old(self).rect,
                    wh.0,
                    wh.1,
                    0,
                ) ==> final(self).pix.buf@ == Canvas::spec_tabs_pass(
                    old(self).visuals,
                    T::spec_variants(),
                    old(self).rect,
                    wh.0,
                    wh.1,
                    old(self).events.cursor,
                    old(self).events.mouse_left,
                    old(self).spec_hover() && old(self).events.mouse_left,
                    *old(selected),
                    old(self).pix.buf@,
                    old(self).pix.width as int,
                    0,
                ).1
            }),
    {
        let ghost r0 = self.rect;
        let ghost dir0 = self.visuals.dir;
        let ghost sel_target = Canvas::spec_tabs_select(
            T::spec_variants(),
            old(self).rect,
            old(self).visuals.dir,
            Canvas::spec_tab_size(old(self).rect, old(self).visuals.dir, T::spec_variants().len() as int).0,
            Canvas::spec_tab_size(old(self).rect, old(self).visuals.dir, T::spec_variants().len() as int).1,
            old(self).events.cursor,
            old(self).events.mouse_left,
            *old(selected),
            0,
        );
        let ghost v0 = self.visuals;
        let ghost cursor0 = self.events.cursor;
        let ghost left0 = self.events.mouse_left;
        let ghost sel0 = *selected;
        let ghost buf0 = self.pix.buf@;
        let ghost bw = self.pix.width as int;
        let tabs = T::variants();
        let n = tabs.len();
        let (w, h) = match self.visuals.dir {
            CutDir::Horizontal => (div_trunc32(self.rect.width, n as i32), self.rect.height),
            CutDir::Vertical => (self.rect.width, div_trunc32(self.rect.height, n as i32)),
        };
        let selecting = self.mouse_left();
        let ghost fits0 = Canvas::spec_tabs_fits(v0, T::spec_variants(), r0, w, h, 0);
        let ghost pass_target = Canvas::spec_tabs_pass(
            v0,
            T::spec_variants(),
            r0,
            w,
            h,
            cursor0,
            left0,
            selecting,
            sel0,
            buf0,
            bw,
            0,
        );
        let mut i: usize = 0;
        while i < n
            invariant
                self.wf(),
                self.pix.same_shape(old(self).pix),
                self.visuals == old(self).visuals,
                self.events == old(self).events,
                i <= n,
                n == T::spec_variants().len(),
                tabs@ == T::spec_variants(),
                r0 == old(self).rect,
                dir0 == old(self).visuals.dir,
                (w, h) == Canvas::spec_tab_size(r0, dir0, n as int),
                self.rect == Canvas::spec_rem(r0, dir0, w, h, i as int),
                sel_target == Canvas::spec_tabs_select(
                    T::spec_variants(),
                    r0,
                    dir0,
                    w,
                    h,
                    old(self).events.cursor,
                    old(self).events.mouse_left,
                    *selected,
                    i as int,
                ),
                v0 == old(self).visuals,
                dir0 == v0.dir,
                cursor0 == old(self).events.cursor,
                left0 == old(self).events.mouse_left,
                bw == self.pix.width as int,
                selecting == (old(self).spec_hover() && old(self).events.mouse_left),
                fits0 == Canvas::spec_tabs_fits(v0, T::spec_variants(), r0, w, h, 0),
                pass_target == Canvas::spec_tabs_pass(
                    v0,
                    T::spec_variants(),
                    r0,
                    w,
                    h,
                    cursor0,
                    left0,
                    selecting,
                    sel0,
                    buf0,
                    bw,
                    0,
                ),
                fits0 ==> Canvas::spec_tabs_fits(v0, tabs@, r0, w, h, i as int),
                fits0 ==> pass_target == Canvas::spec_tabs_pass(
                    v0,
                    tabs@,
                    r0,
                    w,
                    h,
                    cursor0,
                    left0,
                    selecting,
                    *selected,
                    self.pix.buf@,
                    bw,
                    i as int,
                ),
            decreases n - i,
        {
            let ghost pre_buf = self.pix.buf@;
            let ghost sel_pre = *selected;
            let ghost carved = Canvas::spec_tab_rect(r0, v0.dir, w, h, i as int);
            let scope = self.cut(w, h);
            proof {
                assert(self.rect == carved);
            }
            let hit = self.mouse_left();
            if hit {
                *selected = tabs[i];
            }
            let is_sel = tabs[i].same(selected);
            let clicked = self.mouse_left();
            if tab_highlight(is_sel, selecting, clicked) {
                let fg = self.visuals.color;
                self.fill(fg);
                self.visuals.color = crate::pixel::invert(fg);
                let ghost vinv = self.visuals;
                proof {
                    if fits0 {
                        lemma_label_color_blind(v0, vinv, carved, tabs@[i as int].spec_name());
                    }
                }
                tabs[i].draw(self);
                self.visuals.color = fg;
            } else {
                tabs[i].draw(self);
            }
            self.restore(scope);
            proof {
                if fits0 {
                    assert(spec_label_fits(v0, carved, tabs@[i as int].spec_name()));
                    assert(Canvas::spec_tabs_pass(
                        v0,
                        tabs@,
                        r0,
                        w,
                        h,
                        cursor0,
                        left0,
                        selecting,
                        sel_pre,
                        pre_buf,
                        bw,
                        i as int,
                    ) == Canvas::spec_tabs_pass(
                        v0,
                        tabs@,
                        r0,
                        w,
                        h,
                        cursor0,
                        left0,
                        selecting,
                        *selected,
                        self.pix.buf@,
                        bw,
                        i as int + 1,
                    ));
                }
            }
            i = i + 1;
        }
    }
}

/// A tabbed strip bound to a selection value.
pub struct Tabs<T: Tab> {
    pub selected: T,
}

impl<T: Tab> Tabs<T> {
    pub fn new(selected: T) -> (t: Tabs<T>)
        ensures
            t.selected == selected,
    {
        Tabs { selected }
    }
}

impl<T: Tab> Widget for Tabs<T> {
    /// Draws the strip and moves the bound selection to the tab under a
    /// held left click, exactly as `Canvas::tabs` does.
    fn draw(&mut self, canvas: &mut Canvas)
        ensures
            final(self).selected == Canvas::spec_tabs_select(
                T::spec_variants(),
                old(canvas).rect,
                old(canvas).visuals.dir,
                Canvas::spec_tab_size(
                    old(canvas).rect,
                    old(canvas).visuals.dir,
                    T::spec_variants().len() as int,
                ).0,
                Canvas::spec_tab_size(
                    old(canvas).rect,
                    old(canvas).visuals.dir,
                    T::spec_variants().len() as int,
                ).1,
                old(canvas).events.cursor,
                old(canvas).events.mouse_left,
                old(self).selected,
                0,
            ),
            final(canvas).rect == Canvas::spec_rem(
                old(canvas).rect,
                old(canvas).visuals.dir,
                Canvas::spec_tab_size(
                    old(canvas).rect,
                    old(canvas).visuals.dir,
                    T::spec_variants().len() as int,
                ).0,
                Canvas::spec_tab_size(
                    old(canvas).rect,
                    old(canvas).visuals.dir,
                    T::spec_variants().len() as int,
                ).1,
                T::spec_variants().len() as int,
            ),
            final(canvas).visuals == old(canvas).visuals,
            ({
                let wh = Canvas::spec_tab_size(
                    old(canvas).rect,
                    old(canvas).visuals.dir,
                    T::spec_variants().len() as int,
                );
                Canvas::spec_tabs_fits(
                    old(canvas).visuals,
                    T::spec_variants(),
                    old(canvas).rect,
                    wh.0,
                    wh.1,
                    0,
                ) ==> final(canvas).pix.buf@ == Canvas::spec_tabs_pass(
                    old(canvas).visuals,
                    T::spec_variants(),
                    old(canvas).rect,
                    wh.0,
                    wh.1,
                    old(canvas).events.cursor,
                    old(canvas).events.mouse_left,
                    old(canvas).spec_hover() && old(canvas).events.mouse_left,
                    old(self).selected,
                    old(canvas).pix.buf@,
                    old(canvas).pix.width as int,
                    0,
                ).1
            }),
    {
        let mut sel = self.selected;
        canvas.tabs(&mut sel);
        self.selected = sel;
    }
}

/// Law of the scoped-region discipline: whatever a nested body does to the
/// current rectangle and visuals, handing the scope saved at region entry
/// back to `restore` yields exactly the rectangle and visuals of the parent
/// region, at any nesting depth.
pub proof fn lemma_scope_round_trip<'a>(parent: Canvas<'a>, nested: Canvas<'a>, scope: Scope<'a>)
    requires
        scope.rect == parent.rect,
        scope.visuals == parent.visuals,
    ensures
        nested.spec_restored(scope).rect == parent.rect,
        nested.spec_restored(scope).visuals == parent.visuals,
        nested.spec_restored(scope).pix == nested.pix,
{
}

} // verus!

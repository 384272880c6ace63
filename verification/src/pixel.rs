//! RGBA colors and the destination pixel buffer.

use vstd::prelude::*;

verus! {

/// One RGBA pixel, one byte per channel.
#[derive(Clone, Copy, Debug, PartialEq, Eq, Structural)]
pub struct Color {
    pub r: u8,
    pub g: u8,
    pub b: u8,
    pub a: u8,
}

impl Color {
    pub fn new(r: u8, g: u8, b: u8, a: u8) -> (c: Color)
        ensures
            c == (Color { r, g, b, a }),
    {
        Color { r, g, b, a }
    }

    /// Transparent black, the cleared state of the buffer.
    pub open spec fn spec_transparent() -> Color {
        Color { r: 0, g: 0, b: 0, a: 0 }
    }

    pub fn transparent() -> (c: Color)
        ensures
            c == Color::spec_transparent(),
    {
        Color { r: 0, g: 0, b: 0, a: 0 }
    }
}

/// Channel-wise inversion, used to swap foreground and background on a
/// selected tab.
pub open spec fn spec_invert(c: Color) -> Color {
    Color {
        r: (255 - c.r) as u8,
        g: (255 - c.g) as u8,
        b: (255 - c.b) as u8,
        a: (255 - c.a) as u8,
    }
}

pub fn invert(c: Color) -> (o: Color)
    ensures
        o == spec_invert(c),
{
    Color { r: 255 - c.r, g: 255 - c.g, b: 255 - c.b, a: 255 - c.a }
}

/// A `scale x scale` block of destination pixels stands for the logical
/// pixel `(x, y)`; `(px, py)` is a destination coordinate inside that block.
pub open spec fn block_covers(x: int, y: int, scale: int, px: int, py: int) -> bool {
    &&& x * scale <= px < x * scale + scale
    &&& y * scale <= py < y * scale + scale
}

/// The buffer after painting the `scale x scale` block of logical pixel
/// `(x, y)`: buffer cell `i` stands for destination coordinate
/// `(i % width, i / width)` and takes `color` exactly when the block covers
/// that coordinate.
pub open spec fn spec_paint_block(
    buf: Seq<Color>,
    width: int,
    x: int,
    y: int,
    scale: int,
    color: Color,
) -> Seq<Color> {
    Seq::new(
        buf.len(),
        |i: int|
            if width >= 1 && block_covers(x, y, scale, i % width, i / width) {
                color
            } else {
                buf[i]
            },
    )
}

/// A flat, row-major RGBA pixel buffer of `width * height` pixels.
/// Writes outside the bounds are dropped, never indexed.
pub struct PixBuf {
    pub buf: Vec<Color>,
    pub width: i32,
    pub height: i32,
}

impl PixBuf {
    /// The buffer holds exactly one color per coordinate of the
    /// `width x height` grid.
    pub open spec fn wf(self) -> bool {
        &&& 0 <= self.width
        &&& 0 <= self.height
        &&& self.buf@.len() == self.width * self.height
    }

    pub open spec fn in_bounds(self, x: int, y: int) -> bool {
        0 <= x < self.width && 0 <= y < self.height
    }

    /// The color stored for coordinate `(x, y)`.
    pub open spec fn pixel(self, x: int, y: int) -> Color {
        self.buf@[y * self.width + x]
    }

    /// Both buffers have the same geometry.
    pub open spec fn same_shape(self, other: PixBuf) -> bool {
        &&& self.width == other.width
        &&& self.height == other.height
        &&& self.buf@.len() == other.buf@.len()
    }

    pub fn new(width: i32, height: i32) -> (p: PixBuf)
        requires
            0 <= width,
            0 <= height,
            width * height <= usize::MAX,
        ensures
            p.wf(),
            p.width == width,
            p.height == height,
            forall|x: int, y: int|
                p.in_bounds(x, y) ==> p.pixel(x, y) == Color::spec_transparent(),
    {
        let n = (width as usize) * (height as usize);
        let mut buf: Vec<Color> = Vec::new();
        let mut i: usize = 0;
        while i < n
            invariant
                i <= n,
                buf@.len() == i,
                forall|j: int| 0 <= j < i ==> buf@[j] == Color::spec_transparent(),
            decreases n - i,
        {
            buf.push(Color::transparent());
            i = i + 1;
        }
        let p = PixBuf { buf, width, height };
        proof {
            assert forall|x: int, y: int| p.in_bounds(x, y) implies p.pixel(x, y)
                == Color::spec_transparent() by {
                lemma_index_in_bounds(width as int, height as int, x, y);
            }
        }
        p
    }

    /// Writes `color` at `(x, y)`; a coordinate outside the buffer is
    /// silently dropped.
    pub fn set_pixel(&mut self, x: i32, y: i32, color: Color)
        requires
            old(self).wf(),
        ensures
            final(self).wf(),
            final(self).same_shape(*old(self)),
            forall|px: int, py: int|
                old(self).in_bounds(px, py) ==> final(self).pixel(px, py) == (if px == x && py
                    == y {
                    color
                } else {
                    old(self).pixel(px, py)
                }),
    {
        if x >= 0 && y >= 0 && x < self.width && y < self.height {
            let len = self.buf.len();
            proof {
                lemma_index_in_bounds(self.width as int, self.height as int, x as int, y as int);
            }
            let idx = (x as usize) + (y as usize) * (self.width as usize);
            self.buf[idx] = color;
            proof {
                assert forall|px: int, py: int|
                    old(self).in_bounds(px, py) && !(px == x && py == y) implies self.pixel(px, py)
                    == old(self).pixel(px, py) by {
                    lemma_index_injective(
                        self.width as int,
                        self.height as int,
                        px,
                        py,
                        x as int,
                        y as int,
                    );
                    lemma_index_in_bounds(self.width as int, self.height as int, px, py);
                }
            }
        }
    }

    /// Paints the `scale x scale` destination block of logical pixel
    /// `(x, y)`, clipping every out-of-bounds coordinate.
    #[verifier::rlimit(30)]
    pub fn set_scaled_pixel(&mut self, x: i32, y: i32, scale: i32, color: Color)
        requires
            old(self).wf(),
            1 <= scale,
        ensures
            final(self).wf(),
            final(self).same_shape(*old(self)),
            forall|px: int, py: int|
                old(self).in_bounds(px, py) ==> final(self).pixel(px, py) == (if block_covers(
                    x as int,
                    y as int,
                    scale as int,
                    px,
                    py,
                ) {
                    color
                } else {
                    old(self).pixel(px, py)
                }),
            final(self).buf@ == spec_paint_block(
                old(self).buf@,
                old(self).width as int,
                x as int,
                y as int,
                scale as int,
                color,
            ),
    {
        proof {
            lemma_i32_mul_fits_i64(x as int, scale as int);
            lemma_i32_mul_fits_i64(y as int, scale as int);
        }
        let x0: i64 = (x as i64) * (scale as i64);
        let y0: i64 = (y as i64) * (scale as i64);
        let mut dy: i64 = 0;
        while dy < scale as i64
            invariant
                self.wf(),
                self.same_shape(*old(self)),
                0 <= dy <= scale,
                1 <= scale,
                x0 == x * scale,
                y0 == y * scale,
                -0x4000_0000_0000_0000 <= x0 <= 0x4000_0000_0000_0000,
                -0x4000_0000_0000_0000 <= y0 <= 0x4000_0000_0000_0000,
                forall|px: int, py: int|
                    old(self).in_bounds(px, py) ==> self.pixel(px, py) == (if (x * scale <= px < x
                        * scale + scale) && (y * scale <= py < y * scale + dy) {
                        color
                    } else {
                        old(self).pixel(px, py)
                    }),
            decreases scale - dy,
        {
            let mut dx: i64 = 0;
            while dx < scale as i64
                invariant
                    self.wf(),
                    self.same_shape(*old(self)),
                    0 <= dx <= scale,
                    0 <= dy < scale,
                    1 <= scale,
                    x0 == x * scale,
                    y0 == y * scale,
                    -0x4000_0000_0000_0000 <= x0 <= 0x4000_0000_0000_0000,
                    -0x4000_0000_0000_0000 <= y0 <= 0x4000_0000_0000_0000,
                    forall|px: int, py: int|
                        old(self).in_bounds(px, py) ==> self.pixel(px, py) == (if ((x * scale <= px
                            < x * scale + scale) && (y * scale <= py < y * scale + dy)) || ((x
                            * scale <= px < x * scale + dx) && py == y * scale + dy) {
                            color
                        } else {
                            old(self).pixel(px, py)
                        }),
                decreases scale - dx,
            {
                let px: i64 = x0 + dx;
                let py: i64 = y0 + dy;
                if px >= 0 && py >= 0 && px < self.width as i64 && py < self.height as i64 {
                    self.set_pixel(px as i32, py as i32, color);
                }
                dx = dx + 1;
            }
            dy = dy + 1;
        }
        proof {
            let target = spec_paint_block(
                old(self).buf@,
                old(self).width as int,
                x as int,
                y as int,
                scale as int,
                color,
            );
            let w = self.width as int;
            let h = self.height as int;
            if w >= 1 {
                assert forall|i: int| 0 <= i < self.buf@.len() implies self.buf@[i] == target[i] by {
                    lemma_index_coords(w, h, i);
                    let px = i % w;
                    let py = i / w;
                    assert(old(self).in_bounds(px, py));
                    assert(self.pixel(px, py) == (if block_covers(
                        x as int,
                        y as int,
                        scale as int,
                        px,
                        py,
                    ) {
                        color
                    } else {
                        old(self).pixel(px, py)
                    }));
                    assert(self.buf@[i] == self.pixel(px, py));
                    assert(old(self).buf@[i] == old(self).pixel(px, py));
                }
                assert(self.buf@ =~= target);
            } else {
                vstd::arithmetic::mul::lemma_mul_basics(self.height as int);
                assert(self.buf@.len() == 0);
                assert(self.buf@ =~= target);
            }
        }
    }
}

/// A flat index of a `width x height` grid decomposes into the coordinate
/// `(i % width, i / width)` inside the grid.
#[verifier::nonlinear]
pub proof fn lemma_index_coords(width: int, height: int, i: int)
    requires
        1 <= width,
        0 <= i < width * height,
    ensures
        0 <= i % width < width,
        0 <= i / width < height,
        i == (i / width) * width + (i % width),
{
}

/// Painting a block whose logical pixel lies fully outside the grid leaves
/// the buffer untouched.
pub proof fn lemma_paint_block_offscreen(
    buf: Seq<Color>,
    width: int,
    height: int,
    x: int,
    y: int,
    scale: int,
    color: Color,
)
    requires
        buf.len() == width * height,
        0 <= width,
        0 <= height,
        1 <= scale,
        x >= width || x < 0 || y >= height || y < 0,
    ensures
        spec_paint_block(buf, width, x, y, scale, color) == buf,
{
    let target = spec_paint_block(buf, width, x, y, scale, color);
    if width >= 1 {
        assert forall|i: int| 0 <= i < buf.len() implies target[i] == buf[i] by {
            lemma_index_coords(width, height, i);
            let px = i % width;
            let py = i / width;
            lemma_block_misses(width, height, x, y, scale, px, py);
        }
        assert(target =~= buf);
    } else {
        assert(target =~= buf);
    }
}

/// A block of an off-grid logical pixel covers no coordinate of the grid.
#[verifier::nonlinear]
proof fn lemma_block_misses(width: int, height: int, x: int, y: int, scale: int, px: int, py: int)
    requires
        1 <= scale,
        x >= width || x < 0 || y >= height || y < 0,
        0 <= px < width,
        0 <= py < height,
    ensures
        !block_covers(x, y, scale, px, py),
{
}

/// Inside a `width x height` grid the flat index `y * width + x` is a valid
/// position in a buffer of `width * height` cells.
#[verifier::nonlinear]
pub proof fn lemma_index_in_bounds(width: int, height: int, x: int, y: int)
    requires
        0 <= x < width,
        0 <= y < height,
    ensures
        0 <= y * width + x < width * height,
        y * width + x == x + y * width,
{
}

/// The product of two values in the range of `i32` fits comfortably in `i64`.
#[verifier::nonlinear]
pub proof fn lemma_i32_mul_fits_i64(a: int, b: int)
    requires
        -0x8000_0000 <= a < 0x8000_0000,
        -0x8000_0000 <= b < 0x8000_0000,
    ensures
        -0x4000_0000_0000_0000 <= a * b <= 0x4000_0000_0000_0000,
{
}

/// The product of three values in the range of `i32` fits comfortably in
/// `i128`.
#[verifier::nonlinear]
pub proof fn lemma_i32_mul3_fits_i128(a: int, b: int, c: int)
    requires
        -0x8000_0000 <= a < 0x8000_0000,
        -0x8000_0000 <= b < 0x8000_0000,
        -0x8000_0000 <= c < 0x8000_0000,
    ensures
        -0x4000_0000_0000_0000 <= a * b <= 0x4000_0000_0000_0000,
        -0x2000_0000_0000_0000_0000_0000 <= (a * b) * c <= 0x2000_0000_0000_0000_0000_0000,
{
}

/// Distinct in-bounds coordinates have distinct flat indices.
#[verifier::nonlinear]
pub proof fn lemma_index_injective(width: int, height: int, x1: int, y1: int, x2: int, y2: int)
    requires
        0 <= x1 < width,
        0 <= y1 < height,
        0 <= x2 < width,
        0 <= y2 < height,
        !(x1 == x2 && y1 == y2),
    ensures
        y1 * width + x1 != y2 * width + x2,
{
}

} // verus!

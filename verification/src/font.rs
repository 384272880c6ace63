//! Bitmap-font glyph store, font-description parsing, and text shaping.

use crate::pixel::Color;
use crate::pixel::PixBuf;
use vstd::hash_map::HashMapWithView;
use vstd::prelude::*;

verus! {

/// Number of bytes that one bitmap row of a `width`-pixel-wide glyph
/// occupies: each byte holds eight pixels, the last byte padded.
pub open spec fn row_bytes(width: int) -> int {
    (width + 7) / 8
}

/// One renderable glyph: a bit-packed bitmap plus placement offsets.
/// `width` and `height` are the bitmap's own dimensions; they are
/// independent of the font's fixed cell advance.
#[derive(Clone, Debug, PartialEq, Eq)]
pub struct CharData {
    pub width: i32,
    pub height: i32,
    pub xo: i32,
    pub yo: i32,
    pub data: Vec<u8>,
}

impl CharData {
    /// The bitmap holds exactly `height` rows of `ceil(width / 8)` bytes.
    pub open spec fn wf(self) -> bool {
        &&& 0 <= self.width
        &&& 0 <= self.height
        &&& self.data@.len() == self.height * row_bytes(self.width as int)
    }
}

/// The key under which the glyph for the two-codepoint sequence `(a, b)` is
/// stored: the first codepoint in the upper half, the second in the lower.
pub open spec fn lig_key(a: u32, b: u32) -> u64 {
    ((a as u64) << 32u64) | (b as u64)
}

/// Distinct codepoint pairs are stored under distinct ligature keys, so the
/// key encoding loses nothing of the pair-keyed map.
pub proof fn lemma_lig_key_injective(a1: u32, b1: u32, a2: u32, b2: u32)
    requires
        lig_key(a1, b1) == lig_key(a2, b2),
    ensures
        a1 == a2 && b1 == b2,
{
    let x1 = a1 as u64;
    let y1 = b1 as u64;
    let x2 = a2 as u64;
    let y2 = b2 as u64;
    assert((x1 << 32u64 | y1) == (x2 << 32u64 | y2) && x1 < 0x1_0000_0000 && y1 < 0x1_0000_0000
        && x2 < 0x1_0000_0000 && y2 < 0x1_0000_0000 ==> x1 == x2 && y1 == y2) by (bit_vector);
}

/// A parsed font: a fixed cell advance and the glyph and ligature stores.
/// Ligature lookup is greedy over the current codepoint and the next.
pub struct Font {
    pub width: i32,
    pub height: i32,
    pub chars: HashMapWithView<u32, CharData>,
    pub ligatures: HashMapWithView<u64, CharData>,
}

impl Font {
    /// The cell metrics are sizes and every stored glyph is well-formed.
    pub open spec fn wf(self) -> bool {
        &&& 0 <= self.width
        &&& 0 <= self.height
        &&& forall|k: u32| self.chars@.contains_key(k) ==> (#[trigger] self.chars@[k]).wf()
        &&& forall|k: u64| self.ligatures@.contains_key(k) ==> (#[trigger] self.ligatures@[k]).wf()
    }

    /// An empty font with the given cell metrics.
    pub fn new(width: i32, height: i32) -> (f: Font)
        requires
            0 <= width,
            0 <= height,
        ensures
            f.wf(),
            f.width == width,
            f.height == height,
            f.chars@ == Map::<u32, CharData>::empty(),
            f.ligatures@ == Map::<u64, CharData>::empty(),
    {
        Font {
            width,
            height,
            chars: HashMapWithView::new(),
            ligatures: HashMapWithView::new(),
        }
    }

    /// Stores a glyph for a codepoint; a glyph stored earlier under the same
    /// codepoint is overwritten.
    pub fn insert_char(&mut self, codepoint: u32, glyph: CharData)
        requires
            old(self).wf(),
            glyph.wf(),
        ensures
            final(self).wf(),
            final(self).chars@ == old(self).chars@.insert(codepoint, glyph),
            final(self).ligatures@ == old(self).ligatures@,
            final(self).width == old(self).width,
            final(self).height == old(self).height,
    {
        self.chars.insert(codepoint, glyph);
    }

    /// Stores a ligature glyph for a two-codepoint sequence; an earlier
    /// ligature for the same pair is overwritten.
    pub fn insert_ligature(&mut self, first: u32, second: u32, glyph: CharData)
        requires
            old(self).wf(),
            glyph.wf(),
        ensures
            final(self).wf(),
            final(self).ligatures@ == old(self).ligatures@.insert(lig_key(first, second), glyph),
            final(self).chars@ == old(self).chars@,
            final(self).width == old(self).width,
            final(self).height == old(self).height,
    {
        let key: u64 = ((first as u64) << 32u64) | (second as u64);
        self.ligatures.insert(key, glyph);
    }

    /// Looks up the glyph stored for a codepoint.
    pub fn get_char(&self, codepoint: u32) -> (g: Option<&CharData>)
        ensures
            match g {
                Some(v) => self.chars@.contains_key(codepoint) && *v == self.chars@[codepoint],
                None => !self.chars@.contains_key(codepoint),
            },
    {
        self.chars.get(&codepoint)
    }

    /// Looks up the ligature glyph stored for a two-codepoint sequence.
    pub fn get_ligature(&self, first: u32, second: u32) -> (g: Option<&CharData>)
        ensures
            match g {
                Some(v) => self.ligatures@.contains_key(lig_key(first, second)) && *v
                    == self.ligatures@[lig_key(first, second)],
                None => !self.ligatures@.contains_key(lig_key(first, second)),
            },
    {
        let key: u64 = ((first as u64) << 32u64) | (second as u64);
        self.ligatures.get(&key)
    }

    /// The ligature store holds a glyph for the pair of codepoints at
    /// position `i` of the text.
    pub open spec fn lig_at(self, s: Seq<char>, i: int) -> bool {
        &&& i + 1 < s.len()
        &&& self.ligatures@.contains_key(lig_key(s[i] as u32, s[i + 1] as u32))
    }

    /// Number of layout cells the text from position `i` on occupies: a
    /// ligature pair takes one cell, every other codepoint takes one cell
    /// whether or not it has a glyph.
    pub open spec fn spec_measure(self, s: Seq<char>, i: int) -> int
        decreases s.len() - i,
    {
        if i < 0 || i >= s.len() {
            0
        } else if self.lig_at(s, i) {
            1 + self.spec_measure(s, i + 2)
        } else {
            1 + self.spec_measure(s, i + 1)
        }
    }

    /// Measures a text in layout cells without rasterizing: the exact cell
    /// count that `draw` advances over for the same text.
    pub fn len(&self, s: &Vec<char>) -> (cells: i32)
        requires
            s@.len() <= i32::MAX,
        ensures
            cells == self.spec_measure(s@, 0),
    {
        let n = s.len();
        let mut cells: i32 = 0;
        let mut i: usize = 0;
        while i < n
            invariant
                n == s@.len(),
                n <= i32::MAX,
                0 <= cells <= i,
                i <= n,
                self.spec_measure(s@, 0) == cells + self.spec_measure(s@, i as int),
            decreases n - i,
        {
            if i + 1 < n {
                let a = s[i];
                let b = s[i + 1];
                if self.get_ligature(a as u32, b as u32).is_some() {
                    i = i + 2;
                } else {
                    i = i + 1;
                }
            } else {
                i = i + 1;
            }
            cells = cells + 1;
        }
        cells
    }
}

/// Truncating division, the rounding used to map a scaled pen position
/// back to logical pixels.
pub open spec fn spec_div_trunc(a: int, b: int) -> int {
    if a >= 0 {
        a / b
    } else {
        -((-a) / b)
    }
}

/// Dividing a non-negative value by a positive one neither grows it nor
/// drops it below zero.
#[verifier::nonlinear]
proof fn lemma_div_le(a: int, b: int)
    requires
        0 <= a,
        1 <= b,
    ensures
        0 <= a / b <= a,
{
}

pub fn div_trunc(a: i64, b: i32) -> (q: i64)
    requires
        1 <= b,
    ensures
        q as int == spec_div_trunc(a as int, b as int),
{
    if a >= 0 {
        proof {
            lemma_div_le(a as int, b as int);
        }
        ((a as u64) / (b as u64)) as i64
    } else {
        let m: u64 = (-(a as i128)) as u64;
        proof {
            lemma_div_le(m as int, b as int);
        }
        let q = m / (b as u64);
        (-(q as i128)) as i64
    }
}

/// Pixel `k` of the eight-pixel group of one byte: bit 7 is the leftmost
/// pixel, bits are read high to low.
pub open spec fn byte_bit(b: u8, k: int) -> bool {
    (b >> ((7 - k) as u8)) & 1 == 1
}

/// The bitmap bit of glyph row `row` at column `col`: bytes left to right,
/// within a byte high to low.
pub open spec fn glyph_bit(data: Seq<u8>, width: int, row: int, col: int) -> bool {
    byte_bit(data[row * row_bytes(width) + col / 8], col % 8)
}

/// The pixels of one bitmap row, leftmost first.
pub open spec fn unpack_row(bytes: Seq<u8>) -> Seq<bool> {
    Seq::new(8 * bytes.len(), |i: int| byte_bit(bytes[i / 8], i % 8))
}

/// The byte whose eight pixels are `bits[8j] .. bits[8j + 7]`, leftmost
/// pixel in the highest bit.
pub open spec fn pack_byte(bits: Seq<bool>, j: int) -> u8 {
    ((if bits[8 * j] { 128int } else { 0int }) + (if bits[8 * j + 1] { 64int } else { 0int })
        + (if bits[8 * j + 2] { 32int } else { 0int }) + (if bits[8 * j + 3] { 16int } else { 0int })
        + (if bits[8 * j + 4] { 8int } else { 0int }) + (if bits[8 * j + 5] { 4int } else { 0int })
        + (if bits[8 * j + 6] { 2int } else { 0int }) + (if bits[8 * j + 7] { 1int } else { 0int })) as u8
}

/// The bytes of one bitmap row, re-packed from its pixels.
pub open spec fn pack_row(bits: Seq<bool>) -> Seq<u8> {
    Seq::new(bits.len() / 8, |j: int| pack_byte(bits, j))
}

/// One byte is the sum of its eight bits in place.
proof fn lemma_byte_of_bits(b: u8)
    ensures
        ((if byte_bit(b, 0) { 128int } else { 0int }) + (if byte_bit(b, 1) { 64int } else { 0int })
            + (if byte_bit(b, 2) { 32int } else { 0int }) + (if byte_bit(b, 3) { 16int } else { 0int })
            + (if byte_bit(b, 4) { 8int } else { 0int }) + (if byte_bit(b, 5) { 4int } else { 0int })
            + (if byte_bit(b, 6) { 2int } else { 0int }) + (if byte_bit(b, 7) { 1int } else { 0int }))
            == b,
{
    assert(((b >> 7u8) & 1) * 128 + ((b >> 6u8) & 1) * 64 + ((b >> 5u8) & 1) * 32 + ((b >> 4u8) & 1)
        * 16 + ((b >> 3u8) & 1) * 8 + ((b >> 2u8) & 1) * 4 + ((b >> 1u8) & 1) * 2 + ((b >> 0u8) & 1)
        == b) by (bit_vector);
    assert(forall|k: u8| ((b >> k) & 1) == 0 || ((b >> k) & 1) == 1) by (bit_vector);
}

/// Law of the bit order: unpacking a bitmap row into its pixels and packing
/// the pixels back yields the byte sequence the row started from.
pub proof fn lemma_row_round_trip(bytes: Seq<u8>)
    ensures
        pack_row(unpack_row(bytes)) == bytes,
{
    let bits = unpack_row(bytes);
    assert(bits.len() / 8 == bytes.len()) by {
        lemma_mul_div_8(bytes.len() as int);
    }
    assert forall|j: int| 0 <= j < bytes.len() implies pack_row(bits)[j] == bytes[j] by {
        assert forall|k: int| 0 <= k < 8 implies bits[8 * j + k] == byte_bit(bytes[j], k) by {
            lemma_div_mod_8(j, k);
        }
        lemma_byte_of_bits(bytes[j]);
        assert(pack_byte(bits, j) == bytes[j]);
    }
    assert(pack_row(bits) =~= bytes);
}

#[verifier::nonlinear]
proof fn lemma_mul_div_8(n: int)
    requires
        0 <= n,
    ensures
        (8 * n) / 8 == n,
{
}

#[verifier::nonlinear]
proof fn lemma_div_mod_8(j: int, k: int)
    requires
        0 <= j,
        0 <= k < 8,
    ensures
        (8 * j + k) / 8 == j,
        (8 * j + k) % 8 == k,
{
}

/// The bit the rasterizer reads at row `row`, column `col` is pixel `col`
/// of that row's unpacked byte slice: the raster and the row round trip
/// agree on the bit order.
pub proof fn lemma_glyph_bit_is_row_pixel(data: Seq<u8>, width: int, row: int, col: int)
    requires
        0 <= row,
        0 <= col < 8 * row_bytes(width),
        (row + 1) * row_bytes(width) <= data.len(),
    ensures
        glyph_bit(data, width, row, col) == unpack_row(
            data.subrange(row * row_bytes(width), (row + 1) * row_bytes(width)),
        )[col],
{
    let rb = row_bytes(width);
    let sub = data.subrange(row * rb, (row + 1) * rb);
    assert(0 <= col / 8 < rb && 0 <= col % 8 < 8 && col == 8 * (col / 8) + col % 8 && 8 * rb >= 0)
        by (nonlinear_arith)
        requires
            0 <= col < 8 * rb,
    ;
    assert((row + 1) * rb == row * rb + rb) by (nonlinear_arith);
    assert(row * rb >= 0) by (nonlinear_arith)
        requires
            0 <= row && 0 <= rb,
    ;
    assert(sub[col / 8] == data[row * rb + col / 8]);
}

/// One bit of the glyph raster: a set bit paints the block of logical
/// pixel `(x0 + col, y0 + row)`, a clear bit changes nothing.
pub open spec fn raster_bit(
    buf: Seq<Color>,
    bw: int,
    g: GlyphModel,
    x0: int,
    y0: int,
    scale: int,
    color: Color,
    row: int,
    col: int,
) -> Seq<Color> {
    if glyph_bit(g.data, g.width, row, col) {
        crate::pixel::spec_paint_block(buf, bw, x0 + col, y0 + row, scale, color)
    } else {
        buf
    }
}

/// The glyph raster of one row from bit column `col` on.
pub open spec fn raster_row_from(
    buf: Seq<Color>,
    bw: int,
    g: GlyphModel,
    x0: int,
    y0: int,
    scale: int,
    color: Color,
    row: int,
    col: int,
) -> Seq<Color>
    decreases 8 * row_bytes(g.width) - col,
{
    if col < 0 || col >= 8 * row_bytes(g.width) {
        buf
    } else {
        raster_row_from(
            raster_bit(buf, bw, g, x0, y0, scale, color, row, col),
            bw,
            g,
            x0,
            y0,
            scale,
            color,
            row,
            col + 1,
        )
    }
}

/// The glyph raster from row `row` on.
pub open spec fn raster_rows_from(
    buf: Seq<Color>,
    bw: int,
    g: GlyphModel,
    x0: int,
    y0: int,
    scale: int,
    color: Color,
    row: int,
) -> Seq<Color>
    decreases g.height - row,
{
    if row < 0 || row >= g.height {
        buf
    } else {
        raster_rows_from(
            raster_row_from(buf, bw, g, x0, y0, scale, color, row, 0),
            bw,
            g,
            x0,
            y0,
            scale,
            color,
            row + 1,
        )
    }
}

/// The buffer after drawing one glyph: every set bitmap bit paints its
/// scaled block, anchored so that the glyph's bottom-left sits at the pen
/// position (divided back to logical pixels) shifted by the offsets.
pub open spec fn spec_raster_glyph(
    buf: Seq<Color>,
    bw: int,
    g: GlyphModel,
    pos_x: int,
    pos_y: int,
    color: Color,
    scale: int,
) -> Seq<Color> {
    raster_rows_from(
        buf,
        bw,
        g,
        spec_div_trunc(pos_x, scale) + g.xo,
        spec_div_trunc(pos_y, scale) - g.height - g.yo,
        scale,
        color,
        0,
    )
}

impl CharData {
    /// Draws this glyph's bitmap into the buffer at the pen position `pos`,
    /// painting a `scale x scale` block per set bit and clipping silently
    /// at the buffer's edges.
    pub fn draw(&self, buf: &mut PixBuf, pos: (i64, i64), color: Color, scale: i32)
        requires
            self.wf(),
            old(buf).wf(),
            1 <= scale,
        ensures
            final(buf).wf(),
            final(buf).same_shape(*old(buf)),
            final(buf).buf@ == spec_raster_glyph(
                old(buf).buf@,
                old(buf).width as int,
                self@,
                pos.0 as int,
                pos.1 as int,
                color,
                scale as int,
            ),
    {
        let ghost g = self@;
        let ghost bw = old(buf).width as int;
        let ghost x0g = spec_div_trunc(pos.0 as int, scale as int) + g.xo;
        let ghost y0g = spec_div_trunc(pos.1 as int, scale as int) - g.height - g.yo;
        let ghost target = spec_raster_glyph(
            old(buf).buf@,
            bw,
            g,
            pos.0 as int,
            pos.1 as int,
            color,
            scale as int,
        );
        let qx = div_trunc(pos.0, scale);
        let qy = div_trunc(pos.1, scale);
        let x0: i128 = (qx as i128) + (self.xo as i128);
        let y0: i128 = (qy as i128) - (self.height as i128) - (self.yo as i128);
        let rb: usize = (((self.width as u64) + 7) / 8) as usize;
        let cols: usize = 8 * rb;
        let h: usize = self.height as usize;
        let mut r: usize = 0;
        while r < h
            invariant
                self.wf(),
                buf.wf(),
                buf.same_shape(*old(buf)),
                1 <= scale,
                g == self@,
                bw == buf.width as int,
                r <= h,
                h == g.height,
                rb as int == row_bytes(g.width),
                cols == 8 * rb,
                x0 as int == x0g,
                y0 as int == y0g,
                -0x8000_0000_0000_0000 - 0x8000_0000 <= x0g <= 0x8000_0000_0000_0000
                    + 0x8000_0000,
                -0x8000_0000_0000_0000 - 0x1_0000_0000 <= y0g <= 0x8000_0000_0000_0000
                    + 0x1_0000_0000,
                target == raster_rows_from(buf.buf@, bw, g, x0g, y0g, scale as int, color, r as int),
            decreases h - r,
        {
            let mut c: usize = 0;
            proof {
                assert(raster_rows_from(buf.buf@, bw, g, x0g, y0g, scale as int, color, r as int)
                    == raster_rows_from(
                    raster_row_from(buf.buf@, bw, g, x0g, y0g, scale as int, color, r as int, 0),
                    bw,
                    g,
                    x0g,
                    y0g,
                    scale as int,
                    color,
                    r as int + 1,
                ));
            }
            while c < cols
                invariant
                    self.wf(),
                    buf.wf(),
                    buf.same_shape(*old(buf)),
                    1 <= scale,
                    g == self@,
                    bw == buf.width as int,
                    r < h,
                    c <= cols,
                    h == g.height,
                    rb as int == row_bytes(g.width),
                    cols == 8 * rb,
                    x0 as int == x0g,
                    y0 as int == y0g,
                    -0x8000_0000_0000_0000 - 0x8000_0000 <= x0g <= 0x8000_0000_0000_0000
                        + 0x8000_0000,
                    -0x8000_0000_0000_0000 - 0x1_0000_0000 <= y0g <= 0x8000_0000_0000_0000
                        + 0x1_0000_0000,
                    target == raster_rows_from(
                        raster_row_from(
                            buf.buf@,
                            bw,
                            g,
                            x0g,
                            y0g,
                            scale as int,
                            color,
                            r as int,
                            c as int,
                        ),
                        bw,
                        g,
                        x0g,
                        y0g,
                        scale as int,
                        color,
                        r as int + 1,
                    ),
                decreases cols - c,
            {
                let ghost pre = buf.buf@;
                proof {
                    assert(c as int / 8 < rb as int && 0 <= c as int % 8 < 8) by (nonlinear_arith)
                        requires
                            0 <= c < cols,
                            cols == 8 * (rb as int),
                    ;
                    crate::pixel::lemma_index_in_bounds(
                        rb as int,
                        h as int,
                        c as int / 8,
                        r as int,
                    );
                    assert((rb as int) * (h as int) == (h as int) * (rb as int)) by (nonlinear_arith);
                }
                let dlen = self.data.len();
                proof {
                    assert((r as int) * (rb as int) + (c as int) / 8 < dlen as int);
                }
                let byte = self.data[r * rb + c / 8];
                let k: usize = c % 8;
                let bit = (byte >> ((7 - k) as u8)) & 1 == 1;
                proof {
                    assert(bit == glyph_bit(g.data, g.width, r as int, c as int));
                }
                if bit {
                    let xl: i128 = x0 + (c as i128);
                    let yl: i128 = y0 + (r as i128);
                    if xl >= i32::MIN as i128 && xl <= i32::MAX as i128 && yl >= i32::MIN as i128
                        && yl <= i32::MAX as i128 {
                        buf.set_scaled_pixel(xl as i32, yl as i32, scale, color);
                    } else {
                        proof {
                            crate::pixel::lemma_paint_block_offscreen(
                                pre,
                                bw,
                                buf.height as int,
                                x0g + c as int,
                                y0g + r as int,
                                scale as int,
                                color,
                            );
                        }
                    }
                }
                proof {
                    assert(raster_row_from(
                        pre,
                        bw,
                        g,
                        x0g,
                        y0g,
                        scale as int,
                        color,
                        r as int,
                        c as int,
                    ) == raster_row_from(
                        raster_bit(pre, bw, g, x0g, y0g, scale as int, color, r as int, c as int),
                        bw,
                        g,
                        x0g,
                        y0g,
                        scale as int,
                        color,
                        r as int,
                        c as int + 1,
                    ));
                    assert(buf.buf@ == raster_bit(
                        pre,
                        bw,
                        g,
                        x0g,
                        y0g,
                        scale as int,
                        color,
                        r as int,
                        c as int,
                    ));
                }
                c = c + 1;
            }
            r = r + 1;
        }
        proof {
            assert(raster_rows_from(buf.buf@, bw, g, x0g, y0g, scale as int, color, h as int)
                == buf.buf@);
        }
    }
}

/// ASCII blank: the separators between the fields of a record line.
pub open spec fn is_blank(c: u8) -> bool {
    c == 32 || c == 9
}

pub open spec fn is_digit(c: u8) -> bool {
    48 <= c <= 57
}

/// A carriage return just before the line feed belongs to the line ending,
/// not to the line.
pub open spec fn strip_cr(l: Seq<u8>) -> Seq<u8> {
    if l.len() > 0 && l.last() == 13 {
        l.drop_last()
    } else {
        l
    }
}

/// The lines of a byte stream: split at every line feed, with a carriage
/// return before the line feed dropped; a non-empty trailing fragment is a
/// line of its own.
pub open spec fn spec_lines_acc(s: Seq<u8>, i: int, cur: Seq<u8>, acc: Seq<Seq<u8>>) -> Seq<
    Seq<u8>,
>
    decreases s.len() - i,
{
    if i < 0 || i >= s.len() {
        if cur.len() > 0 {
            acc.push(cur)
        } else {
            acc
        }
    } else if s[i] == 10 {
        spec_lines_acc(s, i + 1, seq![], acc.push(strip_cr(cur)))
    } else {
        spec_lines_acc(s, i + 1, cur.push(s[i]), acc)
    }
}

pub open spec fn spec_lines(s: Seq<u8>) -> Seq<Seq<u8>> {
    spec_lines_acc(s, 0, seq![], seq![])
}

/// Splits a font-description stream into its lines.
pub fn split_lines(s: &[u8]) -> (lines: Vec<Vec<u8>>)
    ensures
        lines.deep_view() == spec_lines(s@),
{
    let n = s.len();
    let mut lines: Vec<Vec<u8>> = Vec::new();
    let mut cur: Vec<u8> = Vec::new();
    let mut i: usize = 0;
    proof {
        assert(lines.deep_view() =~~= Seq::<Seq<u8>>::empty());
    }
    while i < n
        invariant
            n == s@.len(),
            i <= n,
            spec_lines(s@) == spec_lines_acc(s@, i as int, cur@, lines.deep_view()),
        decreases n - i,
    {
        let c = s[i];
        if c == 10 {
            if cur.len() > 0 && cur[cur.len() - 1] == 13 {
                cur.pop();
            }
            let ghost prev = lines.deep_view();
            let ghost curv = cur@;
            lines.push(cur);
            proof {
                assert(lines.deep_view() =~~= prev.push(curv));
            }
            cur = Vec::new();
        } else {
            cur.push(c);
        }
        i = i + 1;
    }
    if cur.len() > 0 {
        let ghost prev = lines.deep_view();
        let ghost curv = cur@;
        lines.push(cur);
        proof {
            assert(lines.deep_view() =~~= prev.push(curv));
        }
    }
    lines
}

/// The whitespace-separated fields of a record line.
pub open spec fn spec_fields_acc(l: Seq<u8>, i: int, cur: Seq<u8>, acc: Seq<Seq<u8>>) -> Seq<
    Seq<u8>,
>
    decreases l.len() - i,
{
    if i < 0 || i >= l.len() {
        if cur.len() > 0 {
            acc.push(cur)
        } else {
            acc
        }
    } else if is_blank(l[i]) {
        if cur.len() > 0 {
            spec_fields_acc(l, i + 1, seq![], acc.push(cur))
        } else {
            spec_fields_acc(l, i + 1, seq![], acc)
        }
    } else {
        spec_fields_acc(l, i + 1, cur.push(l[i]), acc)
    }
}

pub open spec fn spec_fields(l: Seq<u8>) -> Seq<Seq<u8>> {
    spec_fields_acc(l, 0, seq![], seq![])
}

/// Splits a record line into its whitespace-separated fields.
pub fn fields(l: &Vec<u8>) -> (fs: Vec<Vec<u8>>)
    ensures
        fs.deep_view() == spec_fields(l@),
{
    let n = l.len();
    let mut fs: Vec<Vec<u8>> = Vec::new();
    let mut cur: Vec<u8> = Vec::new();
    let mut i: usize = 0;
    proof {
        assert(fs.deep_view() =~~= Seq::<Seq<u8>>::empty());
    }
    while i < n
        invariant
            n == l@.len(),
            i <= n,
            spec_fields(l@) == spec_fields_acc(l@, i as int, cur@, fs.deep_view()),
        decreases n - i,
    {
        let c = l[i];
        if c == 32 || c == 9 {
            if cur.len() > 0 {
                let ghost prev = fs.deep_view();
                let ghost curv = cur@;
                fs.push(cur);
                proof {
                    assert(fs.deep_view() =~~= prev.push(curv));
                }
                cur = Vec::new();
            } else {
                proof {
                    assert(cur@ =~= Seq::<u8>::empty());
                }
            }
        } else {
            cur.push(c);
        }
        i = i + 1;
    }
    if cur.len() > 0 {
        let ghost prev = fs.deep_view();
        let ghost curv = cur@;
        fs.push(cur);
        proof {
            assert(fs.deep_view() =~~= prev.push(curv));
        }
    }
    fs
}

/// The value of a run of decimal digits, refused as soon as it passes
/// `bound` or when a non-digit appears.
pub open spec fn spec_dec_acc(t: Seq<u8>, i: int, acc: int, bound: int) -> Option<int>
    decreases t.len() - i,
{
    if i < 0 || i >= t.len() {
        Some(acc)
    } else if !is_digit(t[i]) {
        None
    } else {
        let a2 = acc * 10 + (t[i] - 48);
        if a2 > bound {
            None
        } else {
            spec_dec_acc(t, i + 1, a2, bound)
        }
    }
}

/// A decimal unsigned field: one or more digits, value at most `bound`.
pub open spec fn spec_parse_dec(t: Seq<u8>, bound: int) -> Option<int> {
    if t.len() == 0 {
        None
    } else {
        spec_dec_acc(t, 0, 0, bound)
    }
}

/// A decimal signed field as the bounding-box lines carry it: an optional
/// sign, then digits, value in the range of `i32`.
pub open spec fn spec_parse_i32(t: Seq<u8>) -> Option<int> {
    if t.len() >= 1 && t[0] == 45 {
        match spec_parse_dec(t.skip(1), 0x8000_0000) {
            Some(v) => Some(-v),
            None => None,
        }
    } else if t.len() >= 1 && t[0] == 43 {
        spec_parse_dec(t.skip(1), 0x7FFF_FFFF)
    } else {
        spec_parse_dec(t, 0x7FFF_FFFF)
    }
}

/// Parses a decimal unsigned field of at most `bound`.
pub fn parse_dec(t: &Vec<u8>, bound: u32) -> (r: Option<u32>)
    ensures
        match r {
            Some(v) => spec_parse_dec(t@, bound as int) == Some(v as int) && v <= bound,
            None => spec_parse_dec(t@, bound as int) is None,
        },
{
    let n = t.len();
    if n == 0 {
        return None;
    }
    let mut acc: u32 = 0;
    let mut i: usize = 0;
    while i < n
        invariant
            n == t@.len(),
            i <= n,
            spec_parse_dec(t@, bound as int) == spec_dec_acc(t@, i as int, acc as int, bound as int),
            acc <= bound,
        decreases n - i,
    {
        let c = t[i];
        if !(48 <= c && c <= 57) {
            return None;
        }
        let a2: u64 = (acc as u64) * 10 + ((c - 48) as u64);
        if a2 > bound as u64 {
            return None;
        }
        acc = a2 as u32;
        i = i + 1;
    }
    Some(acc)
}

/// Parses a decimal signed field into the range of `i32`.
pub fn parse_i32(t: &Vec<u8>) -> (r: Option<i32>)
    ensures
        match r {
            Some(v) => spec_parse_i32(t@) == Some(v as int),
            None => spec_parse_i32(t@) is None,
        },
{
    let n = t.len();
    if n >= 1 && t[0] == 45 {
        let rest = slice_from(t, 1);
        match parse_dec(&rest, 0x8000_0000) {
            Some(v) => {
                let r: i64 = -(v as i64);
                Some(r as i32)
            },
            None => None,
        }
    } else if n >= 1 && t[0] == 43 {
        let rest = slice_from(t, 1);
        match parse_dec(&rest, 0x7FFF_FFFF) {
            Some(v) => Some(v as i32),
            None => None,
        }
    } else {
        match parse_dec(t, 0x7FFF_FFFF) {
            Some(v) => Some(v as i32),
            None => None,
        }
    }
}

/// Copies the tail of a byte field from position `from` on.
pub fn slice_from(t: &Vec<u8>, from: usize) -> (r: Vec<u8>)
    requires
        from <= t@.len(),
    ensures
        r@ == t@.skip(from as int),
{
    let mut r: Vec<u8> = Vec::new();
    let mut i: usize = from;
    let n = t.len();
    while i < n
        invariant
            from <= i <= n,
            n == t@.len(),
            r@ == t@.subrange(from as int, i as int),
        decreases n - i,
    {
        let ghost prev = r@;
        r.push(t[i]);
        proof {
            assert(r@ =~= t@.subrange(from as int, i as int + 1));
        }
        i = i + 1;
    }
    proof {
        assert(t@.subrange(from as int, n as int) =~= t@.skip(from as int));
    }
    r
}

/// The value of one hexadecimal digit, upper or lower case.
pub open spec fn spec_hex_val(c: u8) -> Option<int> {
    if 48 <= c <= 57 {
        Some(c - 48)
    } else if 97 <= c <= 102 {
        Some(c - 97 + 10)
    } else if 65 <= c <= 70 {
        Some(c - 65 + 10)
    } else {
        None
    }
}

/// A bitmap row as hexadecimal text: two digits per byte, high nibble
/// first; a trailing unpaired digit is dropped.
pub open spec fn spec_hex_row_acc(l: Seq<u8>, i: int, acc: Seq<u8>) -> Option<Seq<u8>>
    decreases l.len() - i,
{
    if i < 0 || i + 1 >= l.len() {
        Some(acc)
    } else {
        match (spec_hex_val(l[i]), spec_hex_val(l[i + 1])) {
            (Some(hi), Some(lo)) => spec_hex_row_acc(l, i + 2, acc.push((hi * 16 + lo) as u8)),
            _ => None,
        }
    }
}

pub open spec fn spec_hex_row(l: Seq<u8>) -> Option<Seq<u8>> {
    spec_hex_row_acc(l, 0, seq![])
}

fn hex_val(c: u8) -> (r: Option<u8>)
    ensures
        match r {
            Some(v) => spec_hex_val(c) == Some(v as int),
            None => spec_hex_val(c) is None,
        },
{
    if 48 <= c && c <= 57 {
        Some(c - 48)
    } else if 97 <= c && c <= 102 {
        Some(c - 97 + 10)
    } else if 65 <= c && c <= 70 {
        Some(c - 65 + 10)
    } else {
        None
    }
}

/// Decodes one hexadecimal bitmap row into its bytes.
pub fn decode_hex_row(l: &Vec<u8>) -> (r: Option<Vec<u8>>)
    ensures
        match r {
            Some(v) => spec_hex_row(l@) == Some(v@),
            None => spec_hex_row(l@) is None,
        },
{
    let n = l.len();
    let mut acc: Vec<u8> = Vec::new();
    let mut i: usize = 0;
    while n >= 2 && i < n - 1
        invariant
            n == l@.len(),
            i <= n,
            spec_hex_row(l@) == spec_hex_row_acc(l@, i as int, acc@),
        decreases n - i,
    {
        let hi = hex_val(l[i]);
        let lo = hex_val(l[i + 1]);
        match (hi, lo) {
            (Some(h), Some(o)) => {
                acc.push(h * 16 + o);
            },
            _ => {
                return None;
            },
        }
        i = i + 2;
    }
    Some(acc)
}

/// The mathematical content of one glyph entry.
pub struct GlyphModel {
    pub width: int,
    pub height: int,
    pub xo: int,
    pub yo: int,
    pub data: Seq<u8>,
}

impl View for CharData {
    type V = GlyphModel;

    open spec fn view(&self) -> GlyphModel {
        GlyphModel {
            width: self.width as int,
            height: self.height as int,
            xo: self.xo as int,
            yo: self.yo as int,
            data: self.data@,
        }
    }
}

/// A scalar value that denotes a Unicode codepoint: not a surrogate and not
/// past the last plane.
pub open spec fn is_valid_codepoint(cp: int) -> bool {
    (0 <= cp < 0xD800) || (0xE000 <= cp <= 0x10FFFF)
}

pub open spec fn spec_is_encoding(l: Seq<u8>) -> bool {
    l.len() >= 8 && l[0] == 69 && l[1] == 78 && l[2] == 67 && l[3] == 79 && l[4] == 68 && l[5]
        == 73 && l[6] == 78 && l[7] == 71
}

pub open spec fn spec_is_bbx(l: Seq<u8>) -> bool {
    l.len() >= 3 && l[0] == 66 && l[1] == 66 && l[2] == 88
}

pub open spec fn spec_is_bitmap(l: Seq<u8>) -> bool {
    l.len() >= 6 && l[0] == 66 && l[1] == 73 && l[2] == 84 && l[3] == 77 && l[4] == 65 && l[5]
        == 80
}

/// The codepoint of a glyph record's opening line: its second field as a
/// decimal number that denotes a valid codepoint.
pub open spec fn spec_encoding_cp(l: Seq<u8>) -> Option<int> {
    let fs = spec_fields(l);
    if fs.len() < 2 {
        None
    } else {
        match spec_parse_dec(fs[1], 0xFFFF_FFFF) {
            Some(cp) => if is_valid_codepoint(cp) {
                Some(cp)
            } else {
                None
            },
            None => None,
        }
    }
}

/// The four numbers of a bounding-box line: bitmap width and height, then
/// the two signed placement offsets.
pub open spec fn spec_bbx(l: Seq<u8>) -> Option<(int, int, int, int)> {
    let fs = spec_fields(l);
    if fs.len() < 5 {
        None
    } else {
        match (spec_parse_i32(fs[1]), spec_parse_i32(fs[2]), spec_parse_i32(fs[3]), spec_parse_i32(
            fs[4],
        )) {
            (Some(w), Some(h), Some(xo), Some(yo)) => Some((w, h, xo, yo)),
            _ => None,
        }
    }
}

/// The concatenated bytes of `h` bitmap rows starting at line `j`, each row
/// exactly `rb` bytes once hex-decoded; anything else refuses the record.
pub open spec fn spec_rows(lines: Seq<Seq<u8>>, j: int, h: int, rb: int) -> Option<Seq<u8>>
    decreases h,
{
    if h <= 0 {
        Some(seq![])
    } else if j < 0 || j >= lines.len() {
        None
    } else {
        match spec_hex_row(lines[j]) {
            Some(row) => if row.len() != rb {
                None
            } else {
                match spec_rows(lines, j + 1, h - 1, rb) {
                    Some(rest) => Some(row + rest),
                    None => None,
                }
            },
            None => None,
        }
    }
}

/// The glyph map a well-formed font stream denotes, scanning for the next
/// record's opening line from line `j` with the glyphs read so far in
/// `acc`. Reaching the end of the stream here is the normal termination.
pub open spec fn spec_parse(lines: Seq<Seq<u8>>, j: int, acc: Map<u32, GlyphModel>) -> Option<
    Map<u32, GlyphModel>,
>
    decreases lines.len() - j, 2int,
{
    if j < 0 || j >= lines.len() {
        Some(acc)
    } else if spec_is_encoding(lines[j]) {
        match spec_encoding_cp(lines[j]) {
            Some(cp) => spec_scan_bbx(lines, j + 1, acc, cp as u32),
            None => None,
        }
    } else {
        spec_parse(lines, j + 1, acc)
    }
}

/// Scans for the record's bounding-box line; the stream ending first, or a
/// malformed bounding box, refuses the whole parse.
pub open spec fn spec_scan_bbx(lines: Seq<Seq<u8>>, j: int, acc: Map<u32, GlyphModel>, cp: u32) -> Option<
    Map<u32, GlyphModel>,
>
    decreases lines.len() - j, 1int,
{
    if j < 0 || j >= lines.len() {
        None
    } else if spec_is_bbx(lines[j]) {
        match spec_bbx(lines[j]) {
            Some((w, h, xo, yo)) => if w < 0 || h < 0 {
                None
            } else {
                spec_scan_bitmap(lines, j + 1, acc, cp, w, h, xo, yo)
            },
            None => None,
        }
    } else {
        spec_scan_bbx(lines, j + 1, acc, cp)
    }
}

/// Scans for the record's bitmap marker, then takes the record's rows and
/// goes back to scanning for the next record with the glyph stored.
pub open spec fn spec_scan_bitmap(
    lines: Seq<Seq<u8>>,
    j: int,
    acc: Map<u32, GlyphModel>,
    cp: u32,
    w: int,
    h: int,
    xo: int,
    yo: int,
) -> Option<Map<u32, GlyphModel>>
    decreases lines.len() - j, 0int,
{
    if j < 0 || j >= lines.len() || w < 0 || h < 0 {
        None
    } else if spec_is_bitmap(lines[j]) {
        match spec_rows(lines, j + 1, h, row_bytes(w)) {
            Some(data) => {
                let g = GlyphModel { width: w, height: h, xo, yo, data };
                let jn = if j + 1 + h <= lines.len() {
                    j + 1 + h
                } else {
                    lines.len() as int
                };
                spec_parse(lines, jn, acc.insert(cp, g))
            },
            None => None,
        }
    } else {
        spec_scan_bitmap(lines, j + 1, acc, cp, w, h, xo, yo)
    }
}

/// The codepoints of the glyph records of a well-formed stream, scanning
/// from line `j` for the next record. On a stream the parse refuses, the
/// value carries no meaning.
pub open spec fn spec_record_cps(lines: Seq<Seq<u8>>, j: int) -> Set<u32>
    decreases lines.len() - j, 2int,
{
    if j < 0 || j >= lines.len() {
        Set::empty()
    } else if spec_is_encoding(lines[j]) {
        match spec_encoding_cp(lines[j]) {
            Some(cp) => spec_record_cps_bbx(lines, j + 1, cp as u32),
            None => Set::empty(),
        }
    } else {
        spec_record_cps(lines, j + 1)
    }
}

pub open spec fn spec_record_cps_bbx(lines: Seq<Seq<u8>>, j: int, cp: u32) -> Set<u32>
    decreases lines.len() - j, 1int,
{
    if j < 0 || j >= lines.len() {
        Set::empty()
    } else if spec_is_bbx(lines[j]) {
        match spec_bbx(lines[j]) {
            Some((w, h, xo, yo)) => if w < 0 || h < 0 {
                Set::empty()
            } else {
                spec_record_cps_bitmap(lines, j + 1, cp, w, h)
            },
            None => Set::empty(),
        }
    } else {
        spec_record_cps_bbx(lines, j + 1, cp)
    }
}

pub open spec fn spec_record_cps_bitmap(lines: Seq<Seq<u8>>, j: int, cp: u32, w: int, h: int) -> Set<
    u32,
>
    decreases lines.len() - j, 0int,
{
    if j < 0 || j >= lines.len() || w < 0 || h < 0 {
        Set::empty()
    } else if spec_is_bitmap(lines[j]) {
        match spec_rows(lines, j + 1, h, row_bytes(w)) {
            Some(data) => {
                let jn = if j + 1 + h <= lines.len() {
                    j + 1 + h
                } else {
                    lines.len() as int
                };
                spec_record_cps(lines, jn).insert(cp)
            },
            None => Set::empty(),
        }
    } else {
        spec_record_cps_bitmap(lines, j + 1, cp, w, h)
    }
}

/// The glyph of the last record for codepoint `cp` in stream order,
/// scanning from line `j` for the next record; `None` when no record from
/// `j` on carries `cp`. On a stream the parse refuses, the value carries no
/// meaning.
pub open spec fn spec_last_glyph(lines: Seq<Seq<u8>>, j: int, cp: u32) -> Option<GlyphModel>
    decreases lines.len() - j, 2int,
{
    if j < 0 || j >= lines.len() {
        None
    } else if spec_is_encoding(lines[j]) {
        match spec_encoding_cp(lines[j]) {
            Some(c2) => spec_last_glyph_bbx(lines, j + 1, cp, c2 as u32),
            None => None,
        }
    } else {
        spec_last_glyph(lines, j + 1, cp)
    }
}

pub open spec fn spec_last_glyph_bbx(lines: Seq<Seq<u8>>, j: int, cp: u32, c2: u32) -> Option<
    GlyphModel,
>
    decreases lines.len() - j, 1int,
{
    if j < 0 || j >= lines.len() {
        None
    } else if spec_is_bbx(lines[j]) {
        match spec_bbx(lines[j]) {
            Some((w, h, xo, yo)) => if w < 0 || h < 0 {
                None
            } else {
                spec_last_glyph_bitmap(lines, j + 1, cp, c2, w, h, xo, yo)
            },
            None => None,
        }
    } else {
        spec_last_glyph_bbx(lines, j + 1, cp, c2)
    }
}

pub open spec fn spec_last_glyph_bitmap(
    lines: Seq<Seq<u8>>,
    j: int,
    cp: u32,
    c2: u32,
    w: int,
    h: int,
    xo: int,
    yo: int,
) -> Option<GlyphModel>
    decreases lines.len() - j, 0int,
{
    if j < 0 || j >= lines.len() || w < 0 || h < 0 {
        None
    } else if spec_is_bitmap(lines[j]) {
        match spec_rows(lines, j + 1, h, row_bytes(w)) {
            Some(data) => {
                let jn = if j + 1 + h <= lines.len() {
                    j + 1 + h
                } else {
                    lines.len() as int
                };
                match spec_last_glyph(lines, jn, cp) {
                    Some(g) => Some(g),
                    None => if c2 == cp {
                        Some(GlyphModel { width: w, height: h, xo, yo, data })
                    } else {
                        None
                    },
                }
            },
            None => None,
        }
    } else {
        spec_last_glyph_bitmap(lines, j + 1, cp, c2, w, h, xo, yo)
    }
}

/// On a stream the parse accepts, the glyph held for `cp` is the glyph of
/// the last record for `cp`, or what was already gathered when no record
/// from `j` on carries `cp`.
proof fn lemma_parse_last(
    lines: Seq<Seq<u8>>,
    j: int,
    acc: Map<u32, GlyphModel>,
    m: Map<u32, GlyphModel>,
    cp: u32,
)
    requires
        spec_parse(lines, j, acc) == Some(m),
    ensures
        m.contains_key(cp) == (acc.contains_key(cp) || spec_last_glyph(lines, j, cp) is Some),
        m.contains_key(cp) ==> m[cp] == (match spec_last_glyph(lines, j, cp) {
            Some(g) => g,
            None => acc[cp],
        }),
    decreases lines.len() - j, 2int,
{
    if j < 0 || j >= lines.len() {
    } else if spec_is_encoding(lines[j]) {
        match spec_encoding_cp(lines[j]) {
            Some(c2) => {
                lemma_scan_bbx_last(lines, j + 1, acc, c2 as u32, m, cp);
            },
            None => {},
        }
    } else {
        lemma_parse_last(lines, j + 1, acc, m, cp);
    }
}

proof fn lemma_scan_bbx_last(
    lines: Seq<Seq<u8>>,
    j: int,
    acc: Map<u32, GlyphModel>,
    c2: u32,
    m: Map<u32, GlyphModel>,
    cp: u32,
)
    requires
        spec_scan_bbx(lines, j, acc, c2) == Some(m),
    ensures
        m.contains_key(cp) == (acc.contains_key(cp) || spec_last_glyph_bbx(lines, j, cp, c2)
            is Some),
        m.contains_key(cp) ==> m[cp] == (match spec_last_glyph_bbx(lines, j, cp, c2) {
            Some(g) => g,
            None => acc[cp],
        }),
    decreases lines.len() - j, 1int,
{
    if j < 0 || j >= lines.len() {
    } else if spec_is_bbx(lines[j]) {
        match spec_bbx(lines[j]) {
            Some((w, h, xo, yo)) => {
                if !(w < 0 || h < 0) {
                    lemma_scan_bitmap_last(lines, j + 1, acc, c2, w, h, xo, yo, m, cp);
                }
            },
            None => {},
        }
    } else {
        lemma_scan_bbx_last(lines, j + 1, acc, c2, m, cp);
    }
}

proof fn lemma_scan_bitmap_last(
    lines: Seq<Seq<u8>>,
    j: int,
    acc: Map<u32, GlyphModel>,
    c2: u32,
    w: int,
    h: int,
    xo: int,
    yo: int,
    m: Map<u32, GlyphModel>,
    cp: u32,
)
    requires
        spec_scan_bitmap(lines, j, acc, c2, w, h, xo, yo) == Some(m),
    ensures
        m.contains_key(cp) == (acc.contains_key(cp) || spec_last_glyph_bitmap(
            lines,
            j,
            cp,
            c2,
            w,
            h,
            xo,
            yo,
        ) is Some),
        m.contains_key(cp) ==> m[cp] == (match spec_last_glyph_bitmap(lines, j, cp, c2, w, h, xo, yo) {
            Some(g) => g,
            None => acc[cp],
        }),
    decreases lines.len() - j, 0int,
{
    if j < 0 || j >= lines.len() || w < 0 || h < 0 {
    } else if spec_is_bitmap(lines[j]) {
        match spec_rows(lines, j + 1, h, row_bytes(w)) {
            Some(data) => {
                let g = GlyphModel { width: w, height: h, xo, yo, data };
                let jn = if j + 1 + h <= lines.len() {
                    j + 1 + h
                } else {
                    lines.len() as int
                };
                lemma_parse_last(lines, jn, acc.insert(c2, g), m, cp);
            },
            None => {},
        }
    } else {
        lemma_scan_bitmap_last(lines, j + 1, acc, c2, w, h, xo, yo, m, cp);
    }
}

/// Law of overwriting: on a stream the parse accepts, the store holds a
/// glyph for a codepoint exactly when some record carries it, and that
/// glyph is the one of the last such record in stream order.
pub proof fn lemma_parse_last_record_wins(
    lines: Seq<Seq<u8>>,
    m: Map<u32, GlyphModel>,
    cp: u32,
)
    requires
        spec_parse(lines, 0, Map::empty()) == Some(m),
    ensures
        m.contains_key(cp) == (spec_last_glyph(lines, 0, cp) is Some),
        m.contains_key(cp) ==> Some(m[cp]) == spec_last_glyph(lines, 0, cp),
{
    lemma_parse_last(lines, 0, Map::empty(), m, cp);
}

/// On a stream the parse accepts, the parsed glyph map holds exactly the
/// glyphs already gathered plus one per record codepoint.
proof fn lemma_parse_dom(lines: Seq<Seq<u8>>, j: int, acc: Map<u32, GlyphModel>, m: Map<u32, GlyphModel>)
    requires
        spec_parse(lines, j, acc) == Some(m),
    ensures
        m.dom() == acc.dom() + spec_record_cps(lines, j),
    decreases lines.len() - j, 2int,
{
    if j < 0 || j >= lines.len() {
        assert(m.dom() =~= acc.dom() + spec_record_cps(lines, j));
    } else if spec_is_encoding(lines[j]) {
        match spec_encoding_cp(lines[j]) {
            Some(cp) => {
                lemma_scan_bbx_dom(lines, j + 1, acc, cp as u32, m);
            },
            None => {},
        }
    } else {
        lemma_parse_dom(lines, j + 1, acc, m);
    }
}

proof fn lemma_scan_bbx_dom(
    lines: Seq<Seq<u8>>,
    j: int,
    acc: Map<u32, GlyphModel>,
    cp: u32,
    m: Map<u32, GlyphModel>,
)
    requires
        spec_scan_bbx(lines, j, acc, cp) == Some(m),
    ensures
        m.dom() == acc.dom() + spec_record_cps_bbx(lines, j, cp),
    decreases lines.len() - j, 1int,
{
    if j < 0 || j >= lines.len() {
    } else if spec_is_bbx(lines[j]) {
        match spec_bbx(lines[j]) {
            Some((w, h, xo, yo)) => {
                if !(w < 0 || h < 0) {
                    lemma_scan_bitmap_dom(lines, j + 1, acc, cp, w, h, xo, yo, m);
                }
            },
            None => {},
        }
    } else {
        lemma_scan_bbx_dom(lines, j + 1, acc, cp, m);
    }
}

proof fn lemma_scan_bitmap_dom(
    lines: Seq<Seq<u8>>,
    j: int,
    acc: Map<u32, GlyphModel>,
    cp: u32,
    w: int,
    h: int,
    xo: int,
    yo: int,
    m: Map<u32, GlyphModel>,
)
    requires
        spec_scan_bitmap(lines, j, acc, cp, w, h, xo, yo) == Some(m),
    ensures
        m.dom() == acc.dom() + spec_record_cps_bitmap(lines, j, cp, w, h),
    decreases lines.len() - j, 0int,
{
    if j < 0 || j >= lines.len() || w < 0 || h < 0 {
    } else if spec_is_bitmap(lines[j]) {
        match spec_rows(lines, j + 1, h, row_bytes(w)) {
            Some(data) => {
                let g = GlyphModel { width: w, height: h, xo, yo, data };
                let jn = if j + 1 + h <= lines.len() {
                    j + 1 + h
                } else {
                    lines.len() as int
                };
                lemma_parse_dom(lines, jn, acc.insert(cp, g), m);
                assert(acc.insert(cp, g).dom() =~= acc.dom().insert(cp));
                assert((acc.dom().insert(cp)) + spec_record_cps(lines, jn) =~= acc.dom() + (
                spec_record_cps(lines, jn).insert(cp)));
            },
            None => {},
        }
    } else {
        lemma_scan_bitmap_dom(lines, j + 1, acc, cp, w, h, xo, yo, m);
    }
}

/// Law of the record count: a glyph store parsed from a well-formed stream
/// holds exactly one glyph per distinct codepoint among the stream's
/// records; a later record for a codepoint seen before overwrites the
/// earlier glyph rather than adding one.
pub proof fn lemma_parse_glyph_count(lines: Seq<Seq<u8>>, m: Map<u32, GlyphModel>)
    requires
        spec_parse(lines, 0, Map::empty()) == Some(m),
    ensures
        m.dom() == spec_record_cps(lines, 0),
{
    lemma_parse_dom(lines, 0, Map::empty(), m);
    assert(Map::<u32, GlyphModel>::empty().dom() + spec_record_cps(lines, 0) =~= spec_record_cps(
        lines,
        0,
    ));
}

fn is_encoding(l: &Vec<u8>) -> (r: bool)
    ensures
        r == spec_is_encoding(l@),
{
    l.len() >= 8 && l[0] == 69 && l[1] == 78 && l[2] == 67 && l[3] == 79 && l[4] == 68 && l[5]
        == 73 && l[6] == 78 && l[7] == 71
}

fn is_bbx(l: &Vec<u8>) -> (r: bool)
    ensures
        r == spec_is_bbx(l@),
{
    l.len() >= 3 && l[0] == 66 && l[1] == 66 && l[2] == 88
}

fn is_bitmap(l: &Vec<u8>) -> (r: bool)
    ensures
        r == spec_is_bitmap(l@),
{
    l.len() >= 6 && l[0] == 66 && l[1] == 73 && l[2] == 84 && l[3] == 77 && l[4] == 65 && l[5]
        == 80
}

/// Reads the codepoint field of a record's opening line.
fn encoding_cp(l: &Vec<u8>) -> (r: Option<u32>)
    ensures
        match r {
            Some(cp) => spec_encoding_cp(l@) == Some(cp as int),
            None => spec_encoding_cp(l@) is None,
        },
{
    let fs = fields(l);
    if fs.len() < 2 {
        return None;
    }
    proof {
        assert(fs.deep_view()[1] =~= fs@[1]@);
    }
    match parse_dec(&fs[1], 0xFFFF_FFFF) {
        Some(cp) => {
            if cp < 0xD800 || (0xE000 <= cp && cp <= 0x10FFFF) {
                Some(cp)
            } else {
                None
            }
        },
        None => None,
    }
}

/// Reads the four numbers of a bounding-box line.
fn bbx_fields(l: &Vec<u8>) -> (r: Option<(i32, i32, i32, i32)>)
    ensures
        match r {
            Some(v) => spec_bbx(l@) == Some(
                (v.0 as int, v.1 as int, v.2 as int, v.3 as int),
            ),
            None => spec_bbx(l@) is None,
        },
{
    let fs = fields(l);
    if fs.len() < 5 {
        return None;
    }
    proof {
        assert(fs.deep_view()[1] =~= fs@[1]@);
        assert(fs.deep_view()[2] =~= fs@[2]@);
        assert(fs.deep_view()[3] =~= fs@[3]@);
        assert(fs.deep_view()[4] =~= fs@[4]@);
    }
    let w = parse_i32(&fs[1]);
    let h = parse_i32(&fs[2]);
    let xo = parse_i32(&fs[3]);
    let yo = parse_i32(&fs[4]);
    match (w, h, xo, yo) {
        (Some(w), Some(h), Some(xo), Some(yo)) => Some((w, h, xo, yo)),
        _ => None,
    }
}

/// Inserting a glyph and then taking the font's mathematical model is the
/// same as inserting the glyph's model into the model.
proof fn lemma_model_insert(m: Map<u32, CharData>, k: u32, v: CharData)
    ensures
        m.insert(k, v).map_values(|g: CharData| g@) == m.map_values(|g: CharData| g@).insert(
            k,
            v@,
        ),
{
    assert(m.insert(k, v).map_values(|g: CharData| g@) =~= m.map_values(
        |g: CharData| g@,
    ).insert(k, v@));
}

impl Font {
    /// The mathematical model of the glyph store.
    pub open spec fn chars_model(self) -> Map<u32, GlyphModel> {
        self.chars@.map_values(|g: CharData| g@)
    }

    /// Parses a font-description stream, already split into lines, into a
    /// glyph store with the given cell metrics. A malformed record refuses
    /// the whole stream; running out of lines while looking for the next
    /// record is the normal end. Ligatures are left for the caller to add.
    pub fn parse_bdf_lines(lines: &Vec<Vec<u8>>, width: i32, height: i32) -> (r: Option<Font>)
        requires
            0 <= width,
            0 <= height,
        ensures
            match r {
                Some(f) => {
                    &&& spec_parse(lines.deep_view(), 0, Map::empty()) == Some(f.chars_model())
                    &&& f.wf()
                    &&& f.width == width
                    &&& f.height == height
                    &&& f.ligatures@ == Map::<u64, CharData>::empty()
                },
                None => spec_parse(lines.deep_view(), 0, Map::empty()) is None,
            },
    {
        let ghost ll = lines.deep_view();
        let ghost target = spec_parse(ll, 0, Map::<u32, GlyphModel>::empty());
        let mut font = Font::new(width, height);
        let n = lines.len();
        let mut j: usize = 0;
        proof {
            assert(Map::<u32, CharData>::empty().map_values(|g: CharData| g@) =~= Map::<
                u32,
                GlyphModel,
            >::empty());
        }
        while j < n
            invariant
                0 <= width,
                0 <= height,
                font.wf(),
                font.width == width,
                font.height == height,
                font.ligatures@ == Map::<u64, CharData>::empty(),
                n == ll.len(),
                ll == lines.deep_view(),
                j <= n,
                target == spec_parse(ll, 0, Map::<u32, GlyphModel>::empty()),
                target == spec_parse(ll, j as int, font.chars_model()),
            decreases n - j,
        {
            proof {
                assert(ll[j as int] =~= lines@[j as int]@);
            }
            if !is_encoding(&lines[j]) {
                j = j + 1;
                continue ;
            }
            let cp = match encoding_cp(&lines[j]) {
                Some(cp) => cp,
                None => {
                    return None;
                },
            };
            let ghost acc = font.chars_model();
            // scan for the bounding-box line
            let mut k: usize = j + 1;
            while k < n && !is_bbx(&lines[k])
                invariant
                    n == ll.len(),
                    ll == lines.deep_view(),
                    j < k <= n,
                    target == spec_scan_bbx(ll, k as int, acc, cp),
                decreases n - k,
            {
                proof {
                    assert(ll[k as int] =~= lines@[k as int]@);
                }
                k = k + 1;
            }
            if k == n {
                return None;
            }
            proof {
                assert(ll[k as int] =~= lines@[k as int]@);
            }
            let (w, h, xo, yo) = match bbx_fields(&lines[k]) {
                Some(v) => v,
                None => {
                    return None;
                },
            };
            if w < 0 || h < 0 {
                return None;
            }
            // scan for the bitmap marker
            let mut m: usize = k + 1;
            while m < n && !is_bitmap(&lines[m])
                invariant
                    n == ll.len(),
                    ll == lines.deep_view(),
                    k < m <= n,
                    target == spec_scan_bitmap(ll, m as int, acc, cp, w as int, h as int, xo as int, yo as int),
                decreases n - m,
            {
                proof {
                    assert(ll[m as int] =~= lines@[m as int]@);
                }
                m = m + 1;
            }
            if m == n {
                return None;
            }
            proof {
                assert(ll[m as int] =~= lines@[m as int]@);
            }
            // take the record's bitmap rows
            let rbu: u64 = ((w as u64) + 7) / 8;
            let ghost rb = row_bytes(w as int);
            proof {
                assert(rbu as int == rb);
            }
            let mut data: Vec<u8> = Vec::new();
            let mut row: usize = 0;
            let hu = h as usize;
            let mut jr: usize = m + 1;
            proof {
                assert(data@ =~= Seq::<u8>::empty());
                match spec_rows(ll, m as int + 1, h as int, rb) {
                    Some(rest) => {
                        assert(data@ + rest =~= rest);
                    },
                    None => {},
                }
            }
            while row < hu
                invariant
                    n == ll.len(),
                    ll == lines.deep_view(),
                    m < jr <= n,
                    row <= hu,
                    hu == h,
                    0 <= h,
                    0 <= w,
                    rb == row_bytes(w as int),
                    rbu as int == rb,
                    jr == m + 1 + row,
                    data@.len() == row * rb,
                    spec_is_bitmap(ll[m as int]),
                    target == spec_parse(ll, 0, Map::<u32, GlyphModel>::empty()),
                    target == spec_scan_bitmap(ll, m as int, acc, cp, w as int, h as int, xo as int, yo as int),
                    spec_rows(ll, m as int + 1, h as int, rb) == (match spec_rows(
                        ll,
                        jr as int,
                        h - row,
                        rb,
                    ) {
                        Some(rest) => Some(data@ + rest),
                        None => None::<Seq<u8>>,
                    }),
                decreases hu - row,
            {
                if jr >= n {
                    proof {
                        assert(spec_rows(ll, jr as int, h - row, rb) is None);
                        assert(spec_rows(ll, m as int + 1, h as int, rb) is None);
                        assert(target is None);
                    }
                    return None;
                }
                proof {
                    assert(ll[jr as int] =~= lines@[jr as int]@);
                }
                let decoded = match decode_hex_row(&lines[jr]) {
                    Some(v) => v,
                    None => {
                        proof {
                            assert(spec_rows(ll, jr as int, h - row, rb) is None);
                            assert(spec_rows(ll, m as int + 1, h as int, rb) is None);
                            assert(target is None);
                        }
                        return None;
                    },
                };
                if decoded.len() as u64 != rbu {
                    proof {
                        assert(spec_rows(ll, jr as int, h - row, rb) is None);
                        assert(spec_rows(ll, m as int + 1, h as int, rb) is None);
                        assert(target is None);
                    }
                    return None;
                }
                let ghost old_data = data@;
                let ghost dec = decoded@;
                data = concat_bytes(data, &decoded);
                proof {
                    assert(data@ == old_data + dec);
                    assert((row as int + 1) * rb == row as int * rb + rb) by (nonlinear_arith);
                    assert forall|rest: Seq<u8>| true implies (old_data + (dec + rest)) =~= (
                    old_data + dec) + rest by {}
                }
                row = row + 1;
                jr = jr + 1;
            }
            // store the glyph and go back to scanning for the next record
            let glyph = CharData { width: w, height: h, xo, yo, data };
            proof {
                assert(spec_rows(ll, jr as int, 0, rb) == Some(Seq::<u8>::empty()));
                assert(glyph@.data + Seq::<u8>::empty() =~= glyph@.data);
                lemma_model_insert(font.chars@, cp, glyph);
            }
            font.insert_char(cp, glyph);
            j = jr;
        }
        Some(font)
    }

    /// Parses a font-description byte stream into a glyph store with the
    /// given cell metrics.
    pub fn parse_bdf(bdf: &[u8], width: i32, height: i32) -> (r: Option<Font>)
        requires
            0 <= width,
            0 <= height,
        ensures
            match r {
                Some(f) => {
                    &&& spec_parse(spec_lines(bdf@), 0, Map::empty()) == Some(f.chars_model())
                    &&& f.wf()
                    &&& f.width == width
                    &&& f.height == height
                    &&& f.ligatures@ == Map::<u64, CharData>::empty()
                },
                None => spec_parse(spec_lines(bdf@), 0, Map::empty()) is None,
            },
    {
        let lines = split_lines(bdf);
        Font::parse_bdf_lines(&lines, width, height)
    }
}

/// Appends the bytes of one decoded row to the glyph data gathered so far.
fn concat_bytes(data: Vec<u8>, more: &Vec<u8>) -> (r: Vec<u8>)
    ensures
        r@ == data@ + more@,
{
    let ghost d0 = data@;
    let mut out = data;
    let mut i: usize = 0;
    let n = more.len();
    proof {
        assert(out@ =~= d0 + more@.subrange(0, 0));
    }
    while i < n
        invariant
            i <= n,
            n == more@.len(),
            out@ == d0 + more@.subrange(0, i as int),
        decreases n - i,
    {
        out.push(more[i]);
        proof {
            assert(d0 + more@.subrange(0, i as int + 1) =~= (d0 + more@.subrange(
                0,
                i as int,
            )).push(more@[i as int]));
        }
        i = i + 1;
    }
    proof {
        assert(more@.subrange(0, n as int) =~= more@);
    }
    out
}

impl Font {
    /// The buffer after drawing the text from position `i` on: at each cell
    /// the ligature glyph for the pair at hand, else the glyph of the
    /// single codepoint, else nothing, and the pen advances one cell width
    /// per cell either way.
    pub open spec fn raster_text_from(
        self,
        buf: Seq<Color>,
        bw: int,
        s: Seq<char>,
        i: int,
        px: int,
        py: int,
        color: Color,
        scale: int,
    ) -> Seq<Color>
        decreases s.len() - i,
    {
        if i < 0 || i >= s.len() {
            buf
        } else if self.lig_at(s, i) {
            let g = self.ligatures@[lig_key(s[i] as u32, s[i + 1] as u32)]@;
            self.raster_text_from(
                spec_raster_glyph(buf, bw, g, px, py, color, scale),
                bw,
                s,
                i + 2,
                px + self.width * scale,
                py,
                color,
                scale,
            )
        } else if self.chars@.contains_key(s[i] as u32) {
            let g = self.chars@[s[i] as u32]@;
            self.raster_text_from(
                spec_raster_glyph(buf, bw, g, px, py, color, scale),
                bw,
                s,
                i + 1,
                px + self.width * scale,
                py,
                color,
                scale,
            )
        } else {
            self.raster_text_from(buf, bw, s, i + 1, px + self.width * scale, py, color, scale)
        }
    }

    /// The pen never leaves the range of its integer type while drawing
    /// this text from this start position.
    pub open spec fn text_fits(self, s: Seq<char>, pos_x: int, scale: int) -> bool {
        pos_x + self.width * scale * self.spec_measure(s, 0) <= i64::MAX
    }

    /// Draws a text at the pen position, resolving a ligature pair to one
    /// glyph and one cell, skipping codepoints without a glyph, and
    /// advancing one cell width per cell. Returns the exact cell count that
    /// `len` measures for the same text.
    pub fn draw(&self, buf: &mut PixBuf, s: &Vec<char>, pos: (i64, i64), color: Color, scale: i32) -> (cells:
        i32)
        requires
            self.wf(),
            old(buf).wf(),
            1 <= scale,
            s@.len() <= i32::MAX,
        ensures
            final(buf).wf(),
            final(buf).same_shape(*old(buf)),
            cells == self.spec_measure(s@, 0),
            self.text_fits(s@, pos.0 as int, scale as int) ==> final(buf).buf@
                == self.raster_text_from(
                old(buf).buf@,
                old(buf).width as int,
                s@,
                0,
                pos.0 as int,
                pos.1 as int,
                color,
                scale as int,
            ),
    {
        let ghost bw = old(buf).width as int;
        let ghost total = self.spec_measure(s@, 0);
        let ghost fits = self.text_fits(s@, pos.0 as int, scale as int);
        let ghost target = self.raster_text_from(
            old(buf).buf@,
            bw,
            s@,
            0,
            pos.0 as int,
            pos.1 as int,
            color,
            scale as int,
        );
        proof {
            crate::pixel::lemma_i32_mul_fits_i64(self.width as int, scale as int);
            lemma_measure_bounds(*self, s@, 0);
        }
        let advance: i64 = (self.width as i64) * (scale as i64);
        let n = s.len();
        let mut i: usize = 0;
        let mut cells: i32 = 0;
        let mut px: i64 = pos.0;
        while i < n
            invariant
                self.wf(),
                buf.wf(),
                buf.same_shape(*old(buf)),
                1 <= scale,
                n == s@.len(),
                n <= i32::MAX,
                0 <= cells <= i,
                i <= n,
                bw == buf.width as int,
                advance == self.width * scale,
                0 <= advance,
                total == self.spec_measure(s@, 0),
                total == cells + self.spec_measure(s@, i as int),
                fits == self.text_fits(s@, pos.0 as int, scale as int),
                target == self.raster_text_from(
                    old(buf).buf@,
                    bw,
                    s@,
                    0,
                    pos.0 as int,
                    pos.1 as int,
                    color,
                    scale as int,
                ),
                fits ==> px as int == pos.0 + advance * cells,
                fits ==> target == self.raster_text_from(
                    buf.buf@,
                    bw,
                    s@,
                    i as int,
                    px as int,
                    pos.1 as int,
                    color,
                    scale as int,
                ),
            decreases n - i,
        {
            proof {
                lemma_measure_bounds(*self, s@, i as int);
                lemma_measure_bounds(*self, s@, i as int + 1);
                if i as int + 2 <= n {
                    lemma_measure_bounds(*self, s@, i as int + 2);
                }
                if fits {
                    vstd::arithmetic::mul::lemma_mul_inequality(
                        cells as int + 1,
                        total,
                        advance as int,
                    );
                    vstd::arithmetic::mul::lemma_mul_is_distributive_add(
                        advance as int,
                        cells as int,
                        1,
                    );
                }
            }
            let a = s[i];
            let mut drew_lig = false;
            if i + 1 < n {
                let b = s[i + 1];
                match self.get_ligature(a as u32, b as u32) {
                    Some(glyph) => {
                        glyph.draw(buf, (px, pos.1), color, scale);
                        drew_lig = true;
                        i = i + 2;
                    },
                    None => {},
                }
            }
            if !drew_lig {
                match self.get_char(a as u32) {
                    Some(glyph) => {
                        glyph.draw(buf, (px, pos.1), color, scale);
                    },
                    None => {},
                }
                i = i + 1;
            }
            cells = cells + 1;
            if px <= i64::MAX - advance {
                px = px + advance;
            } else {
                px = i64::MAX;
            }
        }
        cells
    }
}

/// The cell count of a text is never negative and never exceeds the number
/// of codepoints left.
pub proof fn lemma_measure_bounds(f: Font, s: Seq<char>, i: int)
    requires
        0 <= i <= s.len(),
    ensures
        0 <= f.spec_measure(s, i) <= s.len() - i,
    decreases s.len() - i,
{
    if i < s.len() {
        if f.lig_at(s, i) {
            lemma_measure_bounds(f, s, i + 2);
        } else {
            lemma_measure_bounds(f, s, i + 1);
        }
    }
}

/// A ligature pair at the front of a text is counted as exactly one cell:
/// measuring the whole text gives one more cell than measuring the text
/// with both codepoints of the pair removed.
pub proof fn lemma_ligature_one_cell(f: Font, s: Seq<char>)
    requires
        s.len() >= 2,
        f.ligatures@.contains_key(lig_key(s[0] as u32, s[1] as u32)),
    ensures
        f.spec_measure(s, 0) == 1 + f.spec_measure(s, 2),
{
}

} // verus!

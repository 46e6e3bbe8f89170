//! A text console drawn with an 8x8 font into a linear framebuffer.
use vstd::prelude::*;

verus! {

/// The order of the colour bytes of a pixel.
#[derive(Debug, Copy, Clone, PartialEq, Eq, Structural)]
pub enum EarlyFramebufferFormat {
    Rgb,
    Bgr,
}

/// A framebuffer with a text cursor at (`x`, `y`) in pixels.
pub struct EarlyFramebuffer {
    pub framebuffer: Vec<u8>,
    pub pixel_format: EarlyFramebufferFormat,
    pub width: usize,
    pub height: usize,
    pub stride: usize,
    pub bytes_per_pixel: usize,
    pub x: usize,
    pub y: usize,
}

/// The text state of a console: its bytes and cursor.
pub struct Console {
    pub bytes: Seq<u8>,
    pub x: int,
    pub y: int,
}

/// The byte offset of colour byte `c` of pixel (`px`, `py`).
pub open spec fn pixel_offset(px: int, py: int, c: int, stride: int, bpp: int) -> int {
    (px + py * stride) * bpp + c
}

/// Decoding of a byte offset into (column, row, colour byte).
pub open spec fn col_of(k: int, stride: int, bpp: int) -> int {
    (k / bpp) % stride
}

pub open spec fn row_of(k: int, stride: int, bpp: int) -> int {
    (k / bpp) / stride
}

pub open spec fn comp_of(k: int, bpp: int) -> int {
    k % bpp
}

/// Whether bit `xx` of a font row is set.
pub open spec fn glyph_bit(row: u8, xx: int) -> bool {
    row & (1u8 << (xx as u8)) == (1u8 << (xx as u8))
}

/// Encoding and decoding of pixel offsets agree.
proof fn lemma_pixel_offset(px: int, py: int, c: int, stride: int, bpp: int, h: int)
    requires
        0 <= px < stride,
        0 <= py < h,
        0 <= c < bpp,
    ensures
        0 <= pixel_offset(px, py, c, stride, bpp) < h * stride * bpp,
        col_of(pixel_offset(px, py, c, stride, bpp), stride, bpp) == px,
        row_of(pixel_offset(px, py, c, stride, bpp), stride, bpp) == py,
        comp_of(pixel_offset(px, py, c, stride, bpp), bpp) == c,
{
    let pix = px + py * stride;
    let k = pixel_offset(px, py, c, stride, bpp);
    assert(0 <= pix < h * stride) by (nonlinear_arith)
        requires 0 <= px < stride, 0 <= py < h, pix == px + py * stride;
    assert(0 <= k < h * stride * bpp) by (nonlinear_arith)
        requires 0 <= pix < h * stride, 0 <= c < bpp, k == pix * bpp + c;
    vstd::arithmetic::div_mod::lemma_fundamental_div_mod_converse(k, bpp, pix, c);
    vstd::arithmetic::div_mod::lemma_fundamental_div_mod_converse(pix, stride, py, px);
}

/// A byte offset is determined by its decoding.
proof fn lemma_offset_of_decoding(k: int, stride: int, bpp: int)
    requires
        k >= 0,
        stride > 0,
        bpp > 0,
    ensures
        k == pixel_offset(col_of(k, stride, bpp), row_of(k, stride, bpp), comp_of(k, bpp), stride, bpp),
{
    vstd::arithmetic::div_mod::lemma_fundamental_div_mod(k, bpp);
    vstd::arithmetic::div_mod::lemma_fundamental_div_mod(k / bpp, stride);
    vstd::arithmetic::div_mod::lemma_div_pos_is_pos(k, bpp);
    assert(k == (col_of(k, stride, bpp) + row_of(k, stride, bpp) * stride) * bpp + comp_of(k, bpp)) by (nonlinear_arith)
        requires
            k == bpp * (k / bpp) + k % bpp,
            k / bpp == stride * ((k / bpp) / stride) + (k / bpp) % stride,
            col_of(k, stride, bpp) == (k / bpp) % stride,
            row_of(k, stride, bpp) == (k / bpp) / stride,
            comp_of(k, bpp) == k % bpp,
    ;
}

impl EarlyFramebuffer {
    /// The buffer is large enough for every pixel of the screen.
    pub open spec fn geometry_ok(&self) -> bool {
        &&& self.bytes_per_pixel >= 3
        &&& self.stride >= self.width
        &&& self.height * self.stride * self.bytes_per_pixel <= self.framebuffer.len()
    }

    /// The offset of the last character cell that starts before `n`.
    pub open spec fn last_cell(n: usize) -> int {
        ((n - 1) / 8) * 8
    }

    /// Every character cell that starts on the screen fits in the buffer:
    /// the last cell of a row within the stride, the last row of cells
    /// within the buffer; the screen is at least one cell high, and the
    /// cursor is at the start of a cell on the screen.
    pub open spec fn wf(&self) -> bool {
        &&& self.geometry_ok()
        &&& self.width >= 1
        &&& self.height >= 8
        &&& Self::last_cell(self.width) + 8 <= self.stride
        &&& (Self::last_cell(self.height) + 8) * self.stride * self.bytes_per_pixel <= self.framebuffer.len()
        &&& self.x % 8 == 0
        &&& self.x < self.width
        &&& self.y % 8 == 0
        &&& self.y < self.height
    }

    /// Whether byte `k` is one of the three colour bytes of a visible pixel.
    pub open spec fn is_pixel_byte(&self, k: int) -> bool {
        &&& comp_of(k, self.bytes_per_pixel as int) < 3
        &&& 0 <= col_of(k, self.stride as int, self.bytes_per_pixel as int) < self.width
        &&& 0 <= row_of(k, self.stride as int, self.bytes_per_pixel as int) < self.height
    }

    /// `bytes` with the colour bytes of every visible pixel set to zero.
    pub open spec fn cleared(&self, bytes: Seq<u8>) -> Seq<u8> {
        Seq::new(bytes.len(), |k: int| if self.is_pixel_byte(k) { 0u8 } else { bytes[k] })
    }

    /// Whether byte `k` belongs to the character cell at (`x`, `y`).
    pub open spec fn in_cell(&self, k: int, x: int, y: int) -> bool {
        let col = col_of(k, self.stride as int, self.bytes_per_pixel as int);
        let row = row_of(k, self.stride as int, self.bytes_per_pixel as int);
        &&& comp_of(k, self.bytes_per_pixel as int) < 3
        &&& x <= col < x + 8
        &&& y <= row < y + 8
    }

    /// `bytes` with `glyph` drawn white on black in the cell at (`x`, `y`).
    pub open spec fn drawn(&self, bytes: Seq<u8>, x: int, y: int, glyph: [u8; 8]) -> Seq<u8> {
        Seq::new(bytes.len(), |k: int|
            if self.in_cell(k, x, y) {
                let col = col_of(k, self.stride as int, self.bytes_per_pixel as int);
                let row = row_of(k, self.stride as int, self.bytes_per_pixel as int);
                if glyph_bit(glyph[row - y], col - x) { 0xffu8 } else { 0u8 }
            } else {
                bytes[k]
            })
    }

    /// `bytes` moved up by one text line, with the last line blank.
    pub open spec fn scrolled(&self, bytes: Seq<u8>) -> Seq<u8> {
        let lb = (self.stride * self.bytes_per_pixel) as int;
        Seq::new(bytes.len(), |k: int|
            if k < (self.height - 8) * lb {
                bytes[k + 8 * lb]
            } else if k < self.height * lb {
                0u8
            } else {
                bytes[k]
            })
    }

    /// The console after one character: a newline moves to the next line,
    /// any other character is drawn at the cursor; the cursor wraps at the
    /// right edge and the screen scrolls at the bottom.
    pub open spec fn put_char(&self, st: Console, c: char, font: Seq<[u8; 8]>) -> Console {
        let (bytes, x, y) = if c == '\n' {
            (st.bytes, 0int, st.y + 8)
        } else {
            (self.drawn(st.bytes, st.x, st.y, font[c as int]), st.x + 8, st.y)
        };
        let (x2, y2) = if x >= self.width { (0int, y + 8) } else { (x, y) };
        if y2 >= self.height {
            Console { bytes: self.scrolled(bytes), x: x2, y: y2 - 8 }
        } else {
            Console { bytes, x: x2, y: y2 }
        }
    }

    /// The console after printing `chars`.
    pub open spec fn put_str(&self, st: Console, chars: Seq<char>, font: Seq<[u8; 8]>) -> Console
        decreases chars.len(),
    {
        if chars.len() == 0 {
            st
        } else {
            self.put_char(self.put_str(st, chars.drop_last(), font), chars.last(), font)
        }
    }

    /// Law: a newline returns the cursor to the left edge and moves it one
    /// text line down, scrolling the screen when that line would be off the
    /// bottom; it draws nothing.
    pub proof fn lemma_newline(&self, st: Console, font: Seq<[u8; 8]>)
        requires
            self.width >= 1,
        ensures
            self.put_char(st, '\n', font).x == 0,
            st.y + 8 < self.height ==> self.put_char(st, '\n', font).y == st.y + 8
                && self.put_char(st, '\n', font).bytes == st.bytes,
            st.y + 8 >= self.height ==> self.put_char(st, '\n', font).y == st.y
                && self.put_char(st, '\n', font).bytes == self.scrolled(st.bytes),
    {
    }

    /// Law: any other character moves the cursor one cell right, or to the
    /// start of the next line when no cell is left on this one.
    pub proof fn lemma_advance(&self, st: Console, c: char, font: Seq<[u8; 8]>)
        requires
            c != '\n',
            self.width >= 1,
            st.y < self.height,
        ensures
            st.x + 8 < self.width ==> self.put_char(st, c, font).x == st.x + 8 && self.put_char(st, c, font).y == st.y,
            st.x + 8 >= self.width ==> self.put_char(st, c, font).x == 0,
            st.x + 8 >= self.width && st.y + 8 < self.height ==> self.put_char(st, c, font).y == st.y + 8,
    {
    }

    /// Law: after printing text that ends in a newline the cursor is at the
    /// left edge.
    pub proof fn lemma_ends_at_left_edge(&self, st: Console, chars: Seq<char>, font: Seq<[u8; 8]>)
        requires
            self.width >= 1,
            chars.len() > 0,
            chars.last() == '\n',
        ensures
            self.put_str(st, chars, font).x == 0,
    {
        self.lemma_newline(self.put_str(st, chars.drop_last(), font), font);
    }

    /// The console state of this framebuffer.
    pub open spec fn console(&self) -> Console {
        Console { bytes: self.framebuffer@, x: self.x as int, y: self.y as int }
    }

    /// Sets the colour bytes of pixel (`x`, `y`) to `v`.
    fn set_pixel(&mut self, x: usize, y: usize, v: u8)
        requires
            old(self).bytes_per_pixel >= 3,
            x < old(self).stride,
            (y + 1) * old(self).stride * old(self).bytes_per_pixel <= old(self).framebuffer.len(),
        ensures
            final(self).width == old(self).width,
            final(self).height == old(self).height,
            final(self).stride == old(self).stride,
            final(self).bytes_per_pixel == old(self).bytes_per_pixel,
            final(self).x == old(self).x,
            final(self).y == old(self).y,
            final(self).pixel_format == old(self).pixel_format,
            final(self).framebuffer@.len() == old(self).framebuffer@.len(),
            forall|k: int| 0 <= k < old(self).framebuffer@.len() ==> #[trigger] final(self).framebuffer@[k] == {
                let s = old(self).stride as int;
                let b = old(self).bytes_per_pixel as int;
                if col_of(k, s, b) == x && row_of(k, s, b) == y && comp_of(k, b) < 3 {
                    v
                } else {
                    old(self).framebuffer@[k]
                }
            },
    {
        let ghost s = self.stride as int;
        let ghost b = self.bytes_per_pixel as int;
        let ghost h = y + 1;
        proof {
            lemma_pixel_offset(x as int, y as int, 2, s, b, h);
            lemma_pixel_offset(x as int, y as int, 1, s, b, h);
            lemma_pixel_offset(x as int, y as int, 0, s, b, h);
            assert(0 <= y * s <= x + y * s <= (x + y * s) * b) by (nonlinear_arith)
                requires 0 <= x, 0 <= y, 0 <= s, b >= 3;
        }
        let off = (x + y * self.stride) * self.bytes_per_pixel;
        self.framebuffer.set(off, v);
        self.framebuffer.set(off + 1, v);
        self.framebuffer.set(off + 2, v);
        proof {
            assert forall|k: int| 0 <= k < old(self).framebuffer@.len() implies #[trigger] self.framebuffer@[k] == {
                if col_of(k, s, b) == x && row_of(k, s, b) == y && comp_of(k, b) < 3 {
                    v
                } else {
                    old(self).framebuffer@[k]
                }
            } by {
                lemma_offset_of_decoding(k, s, b);
                vstd::arithmetic::div_mod::lemma_mod_pos_bound(k, b);
            }
        }
    }

    /// Blanks every visible pixel.
    pub fn clear(&mut self)
        requires
            old(self).geometry_ok(),
        ensures
            final(self).framebuffer@ == old(self).cleared(old(self).framebuffer@),
            final(self).width == old(self).width,
            final(self).height == old(self).height,
            final(self).stride == old(self).stride,
            final(self).bytes_per_pixel == old(self).bytes_per_pixel,
            final(self).x == old(self).x,
            final(self).y == old(self).y,
            final(self).pixel_format == old(self).pixel_format,
    {
        let ghost orig = self.framebuffer@;
        let ghost s = self.stride as int;
        let ghost b = self.bytes_per_pixel as int;
        let mut y: usize = 0;
        while y < self.height
            invariant
                0 <= y <= self.height,
                self.width == old(self).width,
                self.height == old(self).height,
                self.stride == old(self).stride,
                self.bytes_per_pixel == old(self).bytes_per_pixel,
                self.x == old(self).x,
                self.y == old(self).y,
                self.pixel_format == old(self).pixel_format,
                s == self.stride as int,
                b == self.bytes_per_pixel as int,
                orig == old(self).framebuffer@,
                self.geometry_ok(),
                self.framebuffer@.len() == orig.len(),
                forall|k: int| 0 <= k < orig.len() ==> #[trigger] self.framebuffer@[k] ==
                    if old(self).is_pixel_byte(k) && row_of(k, s, b) < y as int { 0u8 } else { orig[k] },
            decreases self.height - y,
        {
            let mut x: usize = 0;
            while x < self.width
                invariant
                    0 <= x <= self.width,
                    0 <= y < self.height,
                    self.width == old(self).width,
                    self.height == old(self).height,
                    self.stride == old(self).stride,
                    self.bytes_per_pixel == old(self).bytes_per_pixel,
                    self.x == old(self).x,
                    self.y == old(self).y,
                    self.pixel_format == old(self).pixel_format,
                    s == self.stride as int,
                    b == self.bytes_per_pixel as int,
                    orig == old(self).framebuffer@,
                    self.geometry_ok(),
                    self.framebuffer@.len() == orig.len(),
                    forall|k: int| 0 <= k < orig.len() ==> #[trigger] self.framebuffer@[k] ==
                        if old(self).is_pixel_byte(k) && (row_of(k, s, b) < y
                            || (row_of(k, s, b) == y && col_of(k, s, b) < x)) { 0u8 } else { orig[k] },
                decreases self.width - x,
            {
                proof {
                    let (h, st, bb) = (self.height as int, self.stride as int, self.bytes_per_pixel as int);
                    assert((y + 1) * st * bb <= h * st * bb) by (nonlinear_arith)
                        requires y + 1 <= h, st >= 0, bb >= 0;
                }
                self.set_pixel(x, y, 0);
                x = x + 1;
            }
            y = y + 1;
        }
        assert(self.framebuffer@ =~= old(self).cleared(orig));
    }

    /// Moves the screen up by one text line and blanks the last line.
    pub fn scroll(&mut self)
        requires
            old(self).geometry_ok(),
            old(self).height >= 8,
            old(self).y >= 8,
        ensures
            final(self).framebuffer@ == old(self).scrolled(old(self).framebuffer@),
            final(self).y == old(self).y - 8,
            final(self).width == old(self).width,
            final(self).height == old(self).height,
            final(self).stride == old(self).stride,
            final(self).bytes_per_pixel == old(self).bytes_per_pixel,
            final(self).x == old(self).x,
            final(self).pixel_format == old(self).pixel_format,
    {
        let ghost orig = self.framebuffer@;
        proof {
            let (h, st, b) = (self.height as int, self.stride as int, self.bytes_per_pixel as int);
            assert(0 <= st * b && 8 * (st * b) <= h * (st * b) && h * (st * b) == h * st * b) by (nonlinear_arith)
                requires h >= 8, st >= 0, b >= 0;
        }
        let line_bytes = self.stride * self.bytes_per_pixel;
        let start = 8 * line_bytes;
        let end = self.height * line_bytes;
        let mut k: usize = 0;
        while k < end - start
            invariant
                self.width == old(self).width,
                self.height == old(self).height,
                self.stride == old(self).stride,
                self.bytes_per_pixel == old(self).bytes_per_pixel,
                self.x == old(self).x,
                self.y == old(self).y,
                self.pixel_format == old(self).pixel_format,
                orig == old(self).framebuffer@,
                line_bytes == self.stride * self.bytes_per_pixel,
                start == 8 * line_bytes,
                end == self.height * line_bytes,
                start <= end <= orig.len(),
                0 <= k <= end - start,
                self.framebuffer@.len() == orig.len(),
                forall|j: int| 0 <= j < orig.len() ==> #[trigger] self.framebuffer@[j] ==
                    if j < k { orig[j + start] } else { orig[j] },
            decreases end - start - k,
        {
            let v = self.framebuffer[k + start];
            self.framebuffer.set(k, v);
            k = k + 1;
        }
        let mut k: usize = end - start;
        while k < end
            invariant
                self.width == old(self).width,
                self.height == old(self).height,
                self.stride == old(self).stride,
                self.bytes_per_pixel == old(self).bytes_per_pixel,
                self.x == old(self).x,
                self.y == old(self).y,
                self.pixel_format == old(self).pixel_format,
                orig == old(self).framebuffer@,
                line_bytes == self.stride * self.bytes_per_pixel,
                start == 8 * line_bytes,
                end == self.height * line_bytes,
                start <= end <= orig.len(),
                end - start <= k <= end,
                self.framebuffer@.len() == orig.len(),
                forall|j: int| 0 <= j < orig.len() ==> #[trigger] self.framebuffer@[j] ==
                    if j < end - start { orig[j + start] } else if j < k { 0u8 } else { orig[j] },
            decreases end - k,
        {
            self.framebuffer.set(k, 0);
            k = k + 1;
        }
        proof {
            let (h, lb) = (self.height as int, line_bytes as int);
            assert((h - 8) * lb == end - start) by (nonlinear_arith)
                requires end == h * lb, start == 8 * lb;
        }
        assert(self.framebuffer@ =~= old(self).scrolled(orig));
        self.y = self.y - 8;
    }

    /// Draws `glyph` in the character cell at the cursor.
    fn draw_glyph(&mut self, glyph: [u8; 8])
        requires
            old(self).wf(),
        ensures
            final(self).framebuffer@ == old(self).drawn(old(self).framebuffer@, old(self).x as int, old(self).y as int, glyph),
            final(self).width == old(self).width,
            final(self).height == old(self).height,
            final(self).stride == old(self).stride,
            final(self).bytes_per_pixel == old(self).bytes_per_pixel,
            final(self).x == old(self).x,
            final(self).y == old(self).y,
            final(self).pixel_format == old(self).pixel_format,
    {
        let ghost orig = self.framebuffer@;
        let ghost s = self.stride as int;
        let ghost b = self.bytes_per_pixel as int;
        let ghost (x0, y0) = (self.x as int, self.y as int);
        proof {
            let (st, bb) = (self.stride as int, self.bytes_per_pixel as int);
            let ly = Self::last_cell(self.height);
            assert(self.x + 8 <= self.stride);
            assert(self.y <= ly);
            assert((self.y + 8) * st * bb <= (ly + 8) * st * bb) by (nonlinear_arith)
                requires self.y <= ly, st >= 0, bb >= 0;
        }
        let mut yy: usize = 0;
        while yy < 8
            invariant
                0 <= yy <= 8,
                self.width == old(self).width,
                self.height == old(self).height,
                self.stride == old(self).stride,
                self.bytes_per_pixel == old(self).bytes_per_pixel,
                self.x == old(self).x,
                self.y == old(self).y,
                self.pixel_format == old(self).pixel_format,
                s == self.stride as int,
                b == self.bytes_per_pixel as int,
                x0 == self.x as int,
                y0 == self.y as int,
                orig == old(self).framebuffer@,
                self.wf(),
                self.framebuffer@.len() == orig.len(),
                forall|k: int| 0 <= k < orig.len() ==> #[trigger] self.framebuffer@[k] ==
                    if old(self).in_cell(k, x0, y0) && row_of(k, s, b) - y0 < yy {
                        if glyph_bit(glyph[row_of(k, s, b) - y0], col_of(k, s, b) - x0) { 0xffu8 } else { 0u8 }
                    } else {
                        orig[k]
                    },
            decreases 8 - yy,
        {
            let mut xx: usize = 0;
            while xx < 8
                invariant
                    0 <= xx <= 8,
                    0 <= yy < 8,
                    self.width == old(self).width,
                    self.height == old(self).height,
                    self.stride == old(self).stride,
                    self.bytes_per_pixel == old(self).bytes_per_pixel,
                    self.x == old(self).x,
                    self.y == old(self).y,
                    self.pixel_format == old(self).pixel_format,
                    s == self.stride as int,
                    b == self.bytes_per_pixel as int,
                    x0 == self.x as int,
                    y0 == self.y as int,
                    orig == old(self).framebuffer@,
                    self.wf(),
                    self.framebuffer@.len() == orig.len(),
                    forall|k: int| 0 <= k < orig.len() ==> #[trigger] self.framebuffer@[k] ==
                        if old(self).in_cell(k, x0, y0) && (row_of(k, s, b) - y0 < yy
                            || (row_of(k, s, b) - y0 == yy && col_of(k, s, b) - x0 < xx)) {
                            if glyph_bit(glyph[row_of(k, s, b) - y0], col_of(k, s, b) - x0) { 0xffu8 } else { 0u8 }
                        } else {
                            orig[k]
                        },
                decreases 8 - xx,
            {
                let bit: u8 = 1u8 << (xx as u8);
                let on = (glyph[yy] & bit) == bit;
                let v: u8 = if on { 0xff } else { 0 };
                proof {
                    let (st, bb) = (self.stride as int, self.bytes_per_pixel as int);
                    let ly = Self::last_cell(self.height);
                    let row = self.y + yy + 1;
                    assert(self.y <= ly);
                    assert(row * st * bb <= (ly + 8) * st * bb) by (nonlinear_arith)
                        requires row <= ly + 8, st >= 0, bb >= 0;
                }
                self.set_pixel(self.x + xx, self.y + yy, v);
                xx = xx + 1;
            }
            yy = yy + 1;
        }
        assert(self.framebuffer@ =~= old(self).drawn(orig, x0, y0, glyph));
    }

    /// Prints `s` at the cursor with the 8x8 `font`, indexed by character code.
    pub fn print(&mut self, s: &str, font: &[[u8; 8]])
        requires
            old(self).wf(),
            forall|i: int| 0 <= i < s@.len() ==> (#[trigger] s@[i] as int) < font@.len(),
        ensures
            final(self).console() == old(self).put_str(old(self).console(), s@, font@),
            final(self).wf(),
            final(self).width == old(self).width,
            final(self).height == old(self).height,
            final(self).stride == old(self).stride,
            final(self).bytes_per_pixel == old(self).bytes_per_pixel,
            final(self).pixel_format == old(self).pixel_format,
    {
        let n = s.unicode_len();
        let mut i: usize = 0;
        while i < n
            invariant
                0 <= i <= n,
                n == s@.len(),
                self.width == old(self).width,
                self.height == old(self).height,
                self.stride == old(self).stride,
                self.bytes_per_pixel == old(self).bytes_per_pixel,
                self.pixel_format == old(self).pixel_format,
                self.wf(),
                forall|j: int| 0 <= j < s@.len() ==> (#[trigger] s@[j] as int) < font@.len(),
                self.console() == old(self).put_str(old(self).console(), s@.take(i as int), font@),
            decreases n - i,
        {
            let c = s.get_char(i);
            let ghost before = self.console();
            proof {
                let (st, bb) = (self.stride as int, self.bytes_per_pixel as int);
                let ly = Self::last_cell(self.height);
                assert(self.y <= ly);
                assert(ly + 8 <= (ly + 8) * st * bb) by (nonlinear_arith)
                    requires ly + 8 >= 0, st >= 1, bb >= 1;
            }
            if c == '\n' {
                self.x = 0;
                self.y = self.y + 8;
            } else {
                assert(s@[i as int] == c);
                let glyph = font[c as usize];
                self.draw_glyph(glyph);
                assert(self.framebuffer@ == old(self).drawn(before.bytes, before.x, before.y, font@[c as int]));
                self.x = self.x + 8;
            }
            let ghost mid = self.console();
            if self.x >= self.width {
                self.x = 0;
                self.y = self.y + 8;
            }
            let ghost mid2 = self.console();
            if self.y >= self.height {
                self.scroll();
                assert(self.framebuffer@ == old(self).scrolled(mid2.bytes));
            }
            assert(self.console() == old(self).put_char(before, c, font@));
            assert(s@.take(i as int + 1).drop_last() =~= s@.take(i as int));
            assert(s@.take(i as int + 1).last() == c);
            i = i + 1;
        }
        assert(s@.take(n as int) =~= s@);
    }
}

} // verus!

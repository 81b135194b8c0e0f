use vstd::prelude::*;
use crate::graphics::{PixelColor, PixelWriter, PixelFormat, channel_byte};
use vstd::std_specs::iter::IteratorSpec;

verus! {

/// Height of a glyph, in pixels.
pub const GLYPH_HEIGHT: usize = 16;

/// Width of a glyph, in pixels.
pub const GLYPH_WIDTH: usize = 8;

/// Size of a font table: 256 glyphs of 16 rows, one byte per row,
/// most significant bit leftmost.
pub const FONT_LEN: usize = 4096;

/// The glyph used for `c`: its code point, or 0 outside U+0000..U+00FF.
pub open spec fn glyph_code(c: char) -> int {
    if (c as u32) < 256 {
        c as u32 as int
    } else {
        0
    }
}

/// Whether pixel (dx, dy) of glyph `code` is foreground.
pub open spec fn glyph_bit(font: Seq<u8>, code: int, dx: int, dy: int) -> bool {
    (font[16 * code + dy] >> ((7 - dx) as u8)) & 1u8 == 1u8
}

/// Whether pixel `p` lies in the 8x16 cell at (x, y), and among the first
/// `k` pixels of the cell in row-major order.
pub open spec fn in_cell_upto(p: int, stride: int, x: int, y: int, k: int) -> bool {
    &&& y <= p / stride < y + 16
    &&& x <= p % stride < x + 8
    &&& (p / stride - y) * 8 + (p % stride - x) < k
}

/// `fb` after the foreground pixels among the first `k` of glyph `code`'s
/// cell at (x, y) are painted `color`.
pub open spec fn glyph_painted_upto(
    fb: Seq<u8>,
    stride: int,
    format: PixelFormat,
    font: Seq<u8>,
    x: int,
    y: int,
    code: int,
    color: PixelColor,
    k: int,
) -> Seq<u8> {
    Seq::new(
        fb.len(),
        |i: int|
            if i % 4 < 3 && in_cell_upto(i / 4, stride, x, y, k) && glyph_bit(
                font,
                code,
                (i / 4) % stride - x,
                (i / 4) / stride - y,
            ) {
                channel_byte(format, color, i % 4)
            } else {
                fb[i]
            },
    )
}

/// `fb` with glyph `code` drawn at (x, y): foreground pixels painted,
/// every other byte kept.
pub open spec fn glyph_painted(
    fb: Seq<u8>,
    stride: int,
    format: PixelFormat,
    font: Seq<u8>,
    x: int,
    y: int,
    code: int,
    color: PixelColor,
) -> Seq<u8> {
    glyph_painted_upto(fb, stride, format, font, x, y, code, color, 128)
}

/// `fb` with the characters `cs` drawn left to right from (x, y), 8 pixels apart.
pub open spec fn text_painted(
    fb: Seq<u8>,
    stride: int,
    format: PixelFormat,
    font: Seq<u8>,
    x: int,
    y: int,
    cs: Seq<char>,
    color: PixelColor,
) -> Seq<u8>
    decreases cs.len(),
{
    if cs.len() == 0 {
        fb
    } else {
        glyph_painted(
            text_painted(fb, stride, format, font, x, y, cs.drop_last(), color),
            stride,
            format,
            font,
            x + 8 * (cs.len() - 1),
            y,
            glyph_code(cs.last()),
            color,
        )
    }
}

proof fn lemma_cell_step(stride: int, x: int, y: int, k: int, p: int)
    requires
        0 <= k < 128,
        stride > 0,
        x >= 0,
        y >= 0,
        x + 8 <= stride,
        p >= 0,
    ensures
        (p == stride * (y + k / 8) + x + k % 8) <==> (p / stride == y + k / 8 && p % stride == x + k
            % 8),
        in_cell_upto(p, stride, x, y, k + 1) <==> (in_cell_upto(p, stride, x, y, k) || p == stride
            * (y + k / 8) + x + k % 8),
{
    let r = y + k / 8;
    let c = x + k % 8;
    if p == stride * r + c {
        vstd::arithmetic::div_mod::lemma_fundamental_div_mod_converse(p, stride, r, c);
    }
    if p / stride == r && p % stride == c {
        vstd::arithmetic::div_mod::lemma_fundamental_div_mod(p, stride);
    }
    let a = p / stride - y;
    let b = p % stride - x;
    if 0 <= a < 16 && 0 <= b < 8 && a * 8 + b == k {
        assert(a == k / 8 && b == k % 8);
    }
}

/// `fb` with the first and third byte of every pixel exchanged: the same
/// image stored in the other colour layout.
pub open spec fn swap_red_blue(fb: Seq<u8>) -> Seq<u8> {
    Seq::new(
        fb.len(),
        |i: int|
            if i % 4 == 0 && i + 2 < fb.len() {
                fb[i + 2]
            } else if i % 4 == 2 {
                fb[i - 2]
            } else {
                fb[i]
            },
    )
}

/// Drawing a glyph on a BGR8 framebuffer gives the same image as drawing it
/// on the RGB8 framebuffer that holds the same picture: glyph and
/// background colours do not depend on the layout.
pub proof fn bgr_glyph_matches_rgb(
    fb: Seq<u8>,
    stride: int,
    font: Seq<u8>,
    x: int,
    y: int,
    code: int,
    color: PixelColor,
)
    requires
        fb.len() % 4 == 0,
        stride > 0,
    ensures
        glyph_painted(swap_red_blue(fb), stride, PixelFormat::Bgr, font, x, y, code, color)
            == swap_red_blue(glyph_painted(fb, stride, PixelFormat::Rgb, font, x, y, code, color)),
{
    let lhs = glyph_painted(swap_red_blue(fb), stride, PixelFormat::Bgr, font, x, y, code, color);
    let g = glyph_painted(fb, stride, PixelFormat::Rgb, font, x, y, code, color);
    let rhs = swap_red_blue(g);
    assert forall|i: int| 0 <= i < fb.len() implies lhs[i] == rhs[i] by {
        if i % 4 == 0 {
            assert(i + 2 < fb.len());
            assert((i + 2) / 4 == i / 4 && (i + 2) % 4 == 2);
        } else if i % 4 == 2 {
            assert((i - 2) / 4 == i / 4 && (i - 2) % 4 == 0);
        }
    }
    assert(lhs =~= rhs);
}

pub trait Ascii {
    /// Whether glyphs can be drawn at (x, y) on a framebuffer of `fb_len` bytes
    /// with a font table of `font_len` bytes.
    spec fn cell_fits(&self, fb_len: int, font_len: int, x: int, y: int) -> bool;

    /// The framebuffer after glyph `code` is drawn at (x, y).
    spec fn glyph_drawn(&self, fb: Seq<u8>, font: Seq<u8>, x: int, y: int, code: int, color: PixelColor) -> Seq<u8>;

    /// Whether `n` glyphs fit side by side from (x, y).
    spec fn line_fits(&self, fb_len: int, font_len: int, x: int, y: int, n: int) -> bool;

    /// The framebuffer after the characters `cs` are drawn from (x, y).
    spec fn text_drawn(&self, fb: Seq<u8>, font: Seq<u8>, x: int, y: int, cs: Seq<char>, color: PixelColor) -> Seq<u8>;

    /// Draws the foreground pixels of `c`'s glyph with its top-left corner at (x, y).
    fn write_ascii(&self, fb: &mut [u8], font: &[u8], x: usize, y: usize, c: char, color: &PixelColor)
        requires
            self.cell_fits(old(fb)@.len() as int, font@.len() as int, x as int, y as int),
        ensures
            final(fb)@ == self.glyph_drawn(old(fb)@, font@, x as int, y as int, glyph_code(c), *color),
    ;

    /// Draws the characters of `s` from (x, y), advancing 8 pixels per character.
    fn write_str(&self, fb: &mut [u8], font: &[u8], x: usize, y: usize, s: &str, color: &PixelColor)
        requires
            self.line_fits(old(fb)@.len() as int, font@.len() as int, x as int, y as int, s@.len() as int),
        ensures
            final(fb)@ == self.text_drawn(old(fb)@, font@, x as int, y as int, s@, *color),
    ;
}

impl<'a> Ascii for PixelWriter<'a> {
    open spec fn cell_fits(&self, fb_len: int, font_len: int, x: int, y: int) -> bool {
        &&& font_len == FONT_LEN
        &&& x + 8 <= self.config.stride
        &&& 4 * (self.config.stride * (y + 16)) <= fb_len
    }

    open spec fn glyph_drawn(&self, fb: Seq<u8>, font: Seq<u8>, x: int, y: int, code: int, color: PixelColor) -> Seq<u8> {
        glyph_painted(fb, self.config.stride as int, self.config.pixel_format, font, x, y, code, color)
    }

    open spec fn line_fits(&self, fb_len: int, font_len: int, x: int, y: int, n: int) -> bool {
        &&& font_len == FONT_LEN
        &&& x + 8 * n <= self.config.stride
        &&& 4 * (self.config.stride * (y + 16)) <= fb_len
    }

    open spec fn text_drawn(&self, fb: Seq<u8>, font: Seq<u8>, x: int, y: int, cs: Seq<char>, color: PixelColor) -> Seq<u8> {
        text_painted(fb, self.config.stride as int, self.config.pixel_format, font, x, y, cs, color)
    }

    fn write_ascii(&self, fb: &mut [u8], font: &[u8], x: usize, y: usize, c: char, color: &PixelColor) {
        let code: usize = if (c as u32) < 256 { c as u32 as usize } else { 0 };
        let stride = self.config.stride;
        let ghost fb0 = fb@;
        let ghost format = self.config.pixel_format;
        let n = fb.len();
        assert(y + 16 <= stride * (y + 16)) by (nonlinear_arith)
            requires x + 8 <= stride;
        let mut k: usize = 0;
        assert(fb@ =~= glyph_painted_upto(fb0, stride as int, format, font@, x as int, y as int, code as int, *color, 0));
        while k < 128
            invariant
                k <= 128,
                y + 16 <= n,
                n == fb@.len(),
                code < 256,
                code as int == glyph_code(c),
                stride == self.config.stride,
                format == self.config.pixel_format,
                font@.len() == FONT_LEN,
                x + 8 <= stride,
                4 * (stride * (y + 16)) <= fb@.len(),
                fb@.len() == fb0.len(),
                fb@ == glyph_painted_upto(fb0, stride as int, format, font@, x as int, y as int, code as int, *color, k as int),
            decreases 128 - k,
        {
            let dy = k / 8;
            let dx = k % 8;
            let row = font[code * 16 + dy];
            let ghost before = fb@;
            proof {
                assert(stride * (y + dy) + x + dx < stride * (y + 16)) by (nonlinear_arith)
                    requires dy < 16, dx < 8, x + 8 <= stride;
                assert(stride * (y + dy) <= stride * (y + 16)) by (nonlinear_arith)
                    requires dy < 16;
            }
            let bit = (row >> ((7 - dx) as u8)) & 1 == 1;
            if bit {
                self.write(fb, x + dx, y + dy, color);
            }
            proof {
                let q = stride * (y + dy) + x + dx;
                let next = glyph_painted_upto(fb0, stride as int, format, font@, x as int, y as int, code as int, *color, k + 1);
                assert forall|i: int| 0 <= i < fb@.len() implies fb@[i] == next[i] by {
                    lemma_cell_step(stride as int, x as int, y as int, k as int, i / 4);
                }
                assert(fb@ =~= next);
            }
            k = k + 1;
        }
    }

    fn write_str(&self, fb: &mut [u8], font: &[u8], x: usize, y: usize, s: &str, color: &PixelColor) {
        broadcast use vstd::string::axiom_spec_iter, vstd::string::next_postcondition;
        let ghost fb0 = fb@;
        let mut it = s.chars();
        let mut i: usize = 0;
        assert(s@.subrange(0, 0) =~= Seq::<char>::empty());
        loop
            invariant
                i <= s@.len(),
                it.obeys_prophetic_iter_laws(),
                it.remaining() == s@.subrange(i as int, s@.len() as int),
                x + 8 * s@.len() <= self.config.stride,
                font@.len() == FONT_LEN,
                4 * (self.config.stride * (y + 16)) <= fb@.len(),
                fb@ == text_painted(fb0, self.config.stride as int, self.config.pixel_format, font@, x as int, y as int, s@.subrange(0, i as int), *color),
            ensures
                fb@ == text_painted(fb0, self.config.stride as int, self.config.pixel_format, font@, x as int, y as int, s@, *color),
            decreases s@.len() - i,
        {
            match it.next() {
                Some(c) => {
                    assert(c == s@[i as int]);
                    assert(s@.subrange(0, i + 1).drop_last() =~= s@.subrange(0, i as int));
                    self.write_ascii(fb, font, x + 8 * i, y, c, color);
                    i = i + 1;
                },
                None => {
                    assert(s@.subrange(0, i as int) =~= s@);
                    break;
                },
            }
        }
    }
}

} // verus!

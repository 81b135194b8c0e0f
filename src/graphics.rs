use vstd::prelude::*;

verus! {

/// Layout of the three colour bytes within a 4-byte pixel.
#[derive(Clone, Copy, PartialEq, Eq, Debug, Structural)]
pub enum PixelFormat {
    Rgb,
    Bgr,
}

/// A linear framebuffer's geometry: resolution, pixels per scanline and
/// pixel layout. Each pixel occupies 4 bytes.
#[derive(Clone, Copy, PartialEq, Eq, Debug, Structural)]
pub struct FrameBufferConfig {
    pub horizontal_resolution: usize,
    pub vertical_resolution: usize,
    pub stride: usize,
    pub pixel_format: PixelFormat,
}

impl FrameBufferConfig {
    /// The stride covers a scanline.
    pub open spec fn wf(&self) -> bool {
        self.horizontal_resolution <= self.stride
    }

    /// Number of bytes the framebuffer spans.
    pub open spec fn byte_len(&self) -> int {
        4 * (self.stride * self.vertical_resolution)
    }
}

#[derive(Clone, Copy, PartialEq, Eq, Debug, Structural)]
pub struct PixelColor {
    pub r: u8,
    pub g: u8,
    pub b: u8,
}

impl PixelColor {
    pub fn new(r: u8, g: u8, b: u8) -> (res: PixelColor)
        ensures
            res == (PixelColor { r, g, b }),
    {
        PixelColor { r, g, b }
    }
}

/// Byte `ch` (0, 1 or 2) of a pixel of colour `color` in layout `format`.
pub open spec fn channel_byte(format: PixelFormat, color: PixelColor, ch: int) -> u8 {
    match format {
        PixelFormat::Rgb => if ch == 0 {
            color.r
        } else if ch == 1 {
            color.g
        } else {
            color.b
        },
        PixelFormat::Bgr => if ch == 0 {
            color.b
        } else if ch == 1 {
            color.g
        } else {
            color.r
        },
    }
}

/// `fb` with pixel number `p` set to `color`; the fourth byte is kept.
pub open spec fn pixel_written(fb: Seq<u8>, p: int, format: PixelFormat, color: PixelColor) -> Seq<u8> {
    Seq::new(
        fb.len(),
        |i: int|
            if i / 4 == p && i % 4 < 3 {
                channel_byte(format, color, i % 4)
            } else {
                fb[i]
            },
    )
}

/// `fb` with the pixels of the `w`-wide, `h`-high rectangle at (x, y) that
/// come first in row-major order, `k` of them, set to `color`.
pub open spec fn rect_filled_upto(
    fb: Seq<u8>,
    stride: int,
    format: PixelFormat,
    x: int,
    y: int,
    w: int,
    k: int,
    color: PixelColor,
) -> Seq<u8> {
    Seq::new(
        fb.len(),
        |i: int|
            {
                let p = i / 4;
                if i % 4 < 3 && y <= p / stride && x <= p % stride < x + w && (p / stride - y) * w
                    + (p % stride - x) < k {
                    channel_byte(format, color, i % 4)
                } else {
                    fb[i]
                }
            },
    )
}

pub(crate) proof fn lemma_rect_step(stride: int, x: int, y: int, w: int, k: int, p: int)
    requires
        0 <= k,
        w > 0,
        stride > 0,
        x >= 0,
        y >= 0,
        x + w <= stride,
        p >= 0,
    ensures
        (p == stride * (y + k / w) + x + k % w) <==> (p / stride == y + k / w && p % stride == x + k
            % w),
        ({
            let a = p / stride - y;
            let b = p % stride - x;
            (y <= p / stride && x <= p % stride < x + w && a * w + b < k + 1) <==> ((y <= p / stride
                && x <= p % stride < x + w && a * w + b < k) || p == stride * (y + k / w) + x + k
                % w)
        }),
{
    let r = y + k / w;
    let c = x + k % w;
    vstd::arithmetic::div_mod::lemma_fundamental_div_mod(k, w);
    vstd::arithmetic::div_mod::lemma_fundamental_div_mod(p, stride);
    assert(0 <= k % w < w);
    assert(k / w >= 0) by (nonlinear_arith) requires k >= 0, w > 0;
    assert((k / w) * w + k % w == k) by (nonlinear_arith)
        requires k == w * (k / w) + k % w;
    if p == stride * r + c {
        vstd::arithmetic::div_mod::lemma_fundamental_div_mod_converse(p, stride, r, c);
    }
    let a = p / stride - y;
    let b = p % stride - x;
    if 0 <= a && 0 <= b < w && a * w + b == k {
        vstd::arithmetic::div_mod::lemma_fundamental_div_mod_converse(k, w, a, b);
    }
}

/// Writes pixels of one framebuffer layout.
#[derive(Clone, Copy)]
pub struct PixelWriter<'a> {
    pub config: &'a FrameBufferConfig,
}

impl<'a> PixelWriter<'a> {
    pub fn new(config: &'a FrameBufferConfig) -> (r: PixelWriter<'a>)
        ensures
            *r.config == *config,
    {
        PixelWriter { config }
    }

    /// Byte offset of pixel (x, y).
    pub fn pixel_at(&self, x: usize, y: usize) -> (r: usize)
        requires
            4 * (self.config.stride * y + x) + 4 <= usize::MAX,
        ensures
            r == 4 * (self.config.stride * y + x),
    {
        proof {
            assert(self.config.stride * y <= usize::MAX) by (nonlinear_arith)
                requires
                    4 * (self.config.stride * y + x) + 4 <= usize::MAX,
                    x >= 0,
            ;
        }
        4 * (self.config.stride * y + x)
    }

    /// Sets pixel (x, y) to `color` in the configured layout.
    pub fn write(&self, fb: &mut [u8], x: usize, y: usize, color: &PixelColor)
        requires
            4 * (self.config.stride * y + x) + 4 <= old(fb)@.len(),
        ensures
            final(fb)@ == pixel_written(
                old(fb)@,
                self.config.stride * y + x,
                self.config.pixel_format,
                *color,
            ),
    {
        let n = fb.len();
        let off = self.pixel_at(x, y);
        match self.config.pixel_format {
            PixelFormat::Rgb => {
                fb[off] = color.r;
                fb[off + 1] = color.g;
                fb[off + 2] = color.b;
            },
            PixelFormat::Bgr => {
                fb[off] = color.b;
                fb[off + 1] = color.g;
                fb[off + 2] = color.r;
            },
        }
        assert(fb@ =~= pixel_written(
            old(fb)@,
            self.config.stride * y + x,
            self.config.pixel_format,
            *color,
        ));
    }

    /// Paints every pixel of the visible screen `color`.
    pub fn fill_screen(&self, fb: &mut [u8], color: &PixelColor)
        requires
            self.config.wf(),
            old(fb)@.len() >= self.config.byte_len(),
        ensures
            final(fb)@ == rect_filled_upto(
                old(fb)@,
                self.config.stride as int,
                self.config.pixel_format,
                0,
                0,
                self.config.horizontal_resolution as int,
                self.config.horizontal_resolution * self.config.vertical_resolution,
                *color,
            ),
    {
        let w = self.config.horizontal_resolution;
        let v = self.config.vertical_resolution;
        let stride = self.config.stride;
        let ghost fb0 = fb@;
        let ghost format = self.config.pixel_format;
        if w == 0 {
            assert(fb@ =~= rect_filled_upto(fb0, stride as int, format, 0, 0, 0, 0, *color));
            return ;
        }
        let n = fb.len();
        proof {
            assert(w * v <= stride * v) by (nonlinear_arith)
                requires w <= stride;
            assert(v <= stride * v) by (nonlinear_arith)
                requires 1 <= w <= stride;
        }
        let total = w * v;
        let mut k: usize = 0;
        assert(fb@ =~= rect_filled_upto(fb0, stride as int, format, 0, 0, w as int, 0, *color));
        while k < total
            invariant
                k <= total,
                total == w * v,
                w > 0,
                w <= stride,
                v <= n,
                stride == self.config.stride,
                format == self.config.pixel_format,
                4 * (stride * v) <= fb@.len(),
                n == fb@.len(),
                fb@.len() == fb0.len(),
                fb@ == rect_filled_upto(fb0, stride as int, format, 0, 0, w as int, k as int, *color),
            decreases total - k,
        {
            let dy = k / w;
            let dx = k % w;
            proof {
                vstd::arithmetic::div_mod::lemma_fundamental_div_mod(k as int, w as int);
                assert(dy < v) by (nonlinear_arith)
                    requires dy * w + dx == k, k < w * v, dx >= 0, w > 0;
                assert(stride * dy + dx < stride * v) by (nonlinear_arith)
                    requires dy < v, dx < w, w <= stride;
            }
            self.write(fb, dx, dy, color);
            proof {
                let next = rect_filled_upto(fb0, stride as int, format, 0, 0, w as int, k + 1, *color);
                assert forall|j: int| 0 <= j < fb@.len() implies fb@[j] == next[j] by {
                    lemma_rect_step(stride as int, 0, 0, w as int, k as int, j / 4);
                }
                assert(fb@ =~= next);
            }
            k = k + 1;
        }
    }
}

} // verus!

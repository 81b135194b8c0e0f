use vstd::prelude::*;
use vstd::std_specs::iter::IteratorSpec;
use crate::graphics::{PixelColor, PixelWriter, FrameBufferConfig, rect_filled_upto, lemma_rect_step};
use crate::font::{Ascii, GLYPH_HEIGHT, GLYPH_WIDTH, FONT_LEN, glyph_code, glyph_painted};

verus! {

/// `fb` with its first `n` bytes taken from `shift` bytes further on.
pub open spec fn shifted(fb: Seq<u8>, shift: int, n: int) -> Seq<u8> {
    Seq::new(
        fb.len(),
        |i: int|
            if i < n {
                fb[i + shift]
            } else {
                fb[i]
            },
    )
}

/// A scrolling text console drawn on a framebuffer in 8x16 cells.
pub struct Console<'a> {
    writer: &'a PixelWriter<'a>,
    cursor_col: usize,
    cursor_row: usize,
    max_cols: usize,
    max_rows: usize,
    fg_color: PixelColor,
    bg_color: PixelColor,
}

impl<'a> Console<'a> {
    pub closed spec fn config(&self) -> FrameBufferConfig {
        *self.writer.config
    }

    pub closed spec fn col(&self) -> int {
        self.cursor_col as int
    }

    pub closed spec fn row(&self) -> int {
        self.cursor_row as int
    }

    pub closed spec fn cols(&self) -> int {
        self.max_cols as int
    }

    pub closed spec fn rows(&self) -> int {
        self.max_rows as int
    }

    pub closed spec fn fg(&self) -> PixelColor {
        self.fg_color
    }

    pub closed spec fn bg(&self) -> PixelColor {
        self.bg_color
    }

    pub closed spec fn wf(&self) -> bool {
        &&& self.config().wf()
        &&& self.max_cols == self.config().horizontal_resolution / GLYPH_WIDTH
        &&& self.max_rows == self.config().vertical_resolution / GLYPH_HEIGHT
        &&& self.max_cols >= 2
        &&& self.max_rows >= 1
        &&& self.cursor_col < self.max_cols
        &&& self.cursor_row < self.max_rows
        &&& self.config().byte_len() <= usize::MAX
    }

    /// Number of bytes of one text row.
    pub open spec fn row_bytes(&self) -> int {
        4 * (self.config().stride * 16)
    }

    /// The framebuffer after the text rows move up by one and the bottom
    /// text row is cleared to the background colour.
    pub open spec fn scrolled(&self, fb: Seq<u8>) -> Seq<u8> {
        let region = self.row_bytes() * self.rows();
        rect_filled_upto(
            shifted(fb, self.row_bytes(), region - self.row_bytes()),
            self.config().stride as int,
            self.config().pixel_format,
            0,
            (self.rows() - 1) * 16,
            self.cols() * 8,
            16 * (self.cols() * 8),
            self.bg(),
        )
    }

    /// Cursor and framebuffer after a line feed at (col, row).
    pub open spec fn newline_spec(&self, col: int, row: int, fb: Seq<u8>) -> (int, int, Seq<u8>) {
        if row < self.rows() - 1 {
            (0, row + 1, fb)
        } else {
            (0, row, self.scrolled(fb))
        }
    }

    /// Cursor and framebuffer after character `c` is written at (col, row).
    pub open spec fn put_spec(&self, col: int, row: int, fb: Seq<u8>, font: Seq<u8>, c: char) -> (int, int, Seq<u8>) {
        if c == '\n' {
            self.newline_spec(col, row, fb)
        } else {
            let s = if col == self.cols() - 1 {
                self.newline_spec(col, row, fb)
            } else {
                (col, row, fb)
            };
            (
                s.0 + 1,
                s.1,
                glyph_painted(
                    s.2,
                    self.config().stride as int,
                    self.config().pixel_format,
                    font,
                    s.0 * 8,
                    s.1 * 16,
                    glyph_code(c),
                    self.fg(),
                ),
            )
        }
    }

    /// Cursor and framebuffer after the characters `cs` are written from (col, row).
    pub open spec fn write_spec(&self, col: int, row: int, fb: Seq<u8>, font: Seq<u8>, cs: Seq<char>) -> (int, int, Seq<u8>)
        decreases cs.len(),
    {
        if cs.len() == 0 {
            (col, row, fb)
        } else {
            let s = self.write_spec(col, row, fb, font, cs.drop_last());
            self.put_spec(s.0, s.1, s.2, font, cs.last())
        }
    }

    /// A console with the cursor at the top left, sized to the resolution.
    pub fn new(writer: &'a PixelWriter<'a>, fg_color: PixelColor, bg_color: PixelColor) -> (r: Console<'a>)
        requires
            writer.config.wf(),
            writer.config.horizontal_resolution >= 16,
            writer.config.vertical_resolution >= 16,
            writer.config.byte_len() <= usize::MAX,
        ensures
            r.wf(),
            r.config() == *writer.config,
            r.col() == 0,
            r.row() == 0,
            r.cols() == writer.config.horizontal_resolution / 8,
            r.rows() == writer.config.vertical_resolution / 16,
            r.fg() == fg_color,
            r.bg() == bg_color,
    {
        let h = writer.config.horizontal_resolution;
        let v = writer.config.vertical_resolution;
        Console {
            writer,
            fg_color,
            bg_color,
            cursor_col: 0,
            cursor_row: 0,
            max_cols: h / GLYPH_WIDTH,
            max_rows: v / GLYPH_HEIGHT,
        }
    }

    pub fn cursor(&self) -> (r: (usize, usize))
        ensures
            r.0 == self.col(),
            r.1 == self.row(),
    {
        (self.cursor_col, self.cursor_row)
    }

    pub fn max_cols(&self) -> (r: usize)
        ensures
            r == self.cols(),
    {
        self.max_cols
    }

    pub fn max_rows(&self) -> (r: usize)
        ensures
            r == self.rows(),
    {
        self.max_rows
    }

    /// Moves the cursor to the start of the next line, scrolling the
    /// screen up by one text row when it is on the last one.
    pub fn new_line(&mut self, fb: &mut [u8])
        requires
            old(self).wf(),
            old(fb)@.len() >= old(self).config().byte_len(),
        ensures
            final(self).wf(),
            final(self).config() == old(self).config(),
            final(self).cols() == old(self).cols(),
            final(self).rows() == old(self).rows(),
            final(self).fg() == old(self).fg(),
            final(self).bg() == old(self).bg(),
            (final(self).col(), final(self).row(), final(fb)@) == old(self).newline_spec(
                old(self).col(),
                old(self).row(),
                old(fb)@,
            ),
    {
        self.cursor_col = 0;
        if self.cursor_row < self.max_rows - 1 {
            self.cursor_row = self.cursor_row + 1;
            return ;
        }
        let stride = self.writer.config.stride;
        let ghost fb0 = fb@;
        proof {
            let v = self.config().vertical_resolution;
            assert(16 * self.max_rows <= v);
            assert(stride * (16 * self.max_rows) <= stride * v) by (nonlinear_arith)
                requires 16 * self.max_rows <= v;
            assert(4 * (stride * 16) * self.max_rows == 4 * (stride * (16 * self.max_rows))) by (nonlinear_arith);
            assert(4 * (stride * 16) <= 4 * (stride * 16) * self.max_rows) by (nonlinear_arith)
                requires self.max_rows >= 1;
        }
        let shift = 4 * (stride * GLYPH_HEIGHT);
        let region = shift * self.max_rows;
        let n = region - shift;
        let mut i: usize = 0;
        assert(fb@ =~= shifted(fb0, shift as int, 0));
        while i < n
            invariant
                i <= n,
                n + shift == region,
                region <= fb@.len(),
                fb@.len() == fb0.len(),
                fb@ == Seq::new(fb0.len(), |j: int| if j < i { fb0[j + shift] } else { fb0[j] }),
            decreases n - i,
        {
            let b = fb[i + shift];
            fb[i] = b;
            i = i + 1;
        }
        assert(fb@ =~= shifted(fb0, shift as int, n as int));
        let ghost moved = fb@;
        let y0 = (self.max_rows - 1) * GLYPH_HEIGHT;
        let w = self.max_cols * GLYPH_WIDTH;
        proof {
            let h = self.config().horizontal_resolution;
            assert(8 * (h / 8) <= h);
            assert(y0 + 16 == 16 * self.max_rows);
            assert(stride * (y0 + 16) == stride * (16 * self.max_rows));
        }
        let total = GLYPH_HEIGHT * w;
        let mut k: usize = 0;
        let ghost format = self.config().pixel_format;
        let ghost bg = self.bg_color;
        assert(fb@ =~= rect_filled_upto(moved, stride as int, format, 0, y0 as int, w as int, 0, bg));
        while k < total
            invariant
                k <= total,
                total == 16 * w,
                w > 0,
                w <= stride,
                stride == self.writer.config.stride,
                format == self.writer.config.pixel_format,
                bg == self.bg_color,
                4 * (stride * (y0 + 16)) <= fb@.len(),
                y0 + 16 <= self.writer.config.vertical_resolution,
                fb@.len() == moved.len(),
                fb@ == rect_filled_upto(moved, stride as int, format, 0, y0 as int, w as int, k as int, bg),
            decreases total - k,
        {
            let dy = k / w;
            let dx = k % w;
            proof {
                vstd::arithmetic::div_mod::lemma_fundamental_div_mod(k as int, w as int);
                assert(dy < 16) by (nonlinear_arith)
                    requires dy * w + dx == k, k < 16 * w, dx >= 0, w > 0;
                assert(stride * (y0 + dy) + dx < stride * (y0 + 16)) by (nonlinear_arith)
                    requires dy < 16, dx < w, w <= stride;
            }
            let bgc = self.bg_color;
            self.writer.write(fb, dx, y0 + dy, &bgc);
            proof {
                let next = rect_filled_upto(moved, stride as int, format, 0, y0 as int, w as int, k + 1, bg);
                assert forall|j: int| 0 <= j < fb@.len() implies fb@[j] == next[j] by {
                    lemma_rect_step(stride as int, 0, y0 as int, w as int, k as int, j / 4);
                }
                assert(fb@ =~= next);
            }
            k = k + 1;
        }
    }

    /// Writes `s`: a line feed moves to the next line; any other character
    /// is drawn at the cursor in the foreground colour, after moving to the
    /// next line when the cursor is on the last column.
    pub fn write_str(&mut self, fb: &mut [u8], font: &[u8], s: &str)
        requires
            old(self).wf(),
            old(fb)@.len() >= old(self).config().byte_len(),
            font@.len() == FONT_LEN,
        ensures
            final(self).wf(),
            final(self).config() == old(self).config(),
            final(self).cols() == old(self).cols(),
            final(self).rows() == old(self).rows(),
            final(self).fg() == old(self).fg(),
            final(self).bg() == old(self).bg(),
            (final(self).col(), final(self).row(), final(fb)@) == old(self).write_spec(
                old(self).col(),
                old(self).row(),
                old(fb)@,
                font@,
                s@,
            ),
    {
        broadcast use vstd::string::axiom_spec_iter, vstd::string::next_postcondition;

        let ghost fb0 = fb@;
        let ghost s0 = *self;
        let mut it = s.chars();
        let ghost mut i: int = 0;
        assert(s@.subrange(0, 0) =~= Seq::<char>::empty());
        loop
            invariant
                0 <= i <= s@.len(),
                it.obeys_prophetic_iter_laws(),
                it.remaining() == s@.subrange(i, s@.len() as int),
                self.wf(),
                font@.len() == FONT_LEN,
                fb@.len() == fb0.len(),
                fb0.len() >= s0.config().byte_len(),
                self.config() == s0.config(),
                self.cols() == s0.cols(),
                self.rows() == s0.rows(),
                self.fg() == s0.fg(),
                self.bg() == s0.bg(),
                (self.col(), self.row(), fb@) == s0.write_spec(s0.col(), s0.row(), fb0, font@, s@.subrange(0, i)),
            ensures
                (self.col(), self.row(), fb@) == s0.write_spec(s0.col(), s0.row(), fb0, font@, s@),
            decreases s@.len() - i,
        {
            match it.next() {
                Some(c) => {
                    assert(c == s@[i]);
                    assert(s@.subrange(0, i + 1).drop_last() =~= s@.subrange(0, i));
                    if c == '\n' {
                        self.new_line(fb);
                    } else {
                        if self.cursor_col == self.max_cols - 1 {
                            self.new_line(fb);
                        }
                        proof {
                            let cfg = self.config();
                            let h = cfg.horizontal_resolution;
                            let v = cfg.vertical_resolution;
                            let stride = cfg.stride;
                            assert(8 * (h / 8) <= h);
                            assert(16 * (v / 16) <= v);
                            assert(self.cursor_col * 8 + 8 <= self.max_cols * 8) by (nonlinear_arith)
                                requires self.cursor_col < self.max_cols;
                            assert(self.cursor_row * 16 + 16 <= self.max_rows * 16) by (nonlinear_arith)
                                requires self.cursor_row < self.max_rows;
                            assert(stride * (self.cursor_row * 16 + 16) <= stride * v) by (nonlinear_arith)
                                requires self.cursor_row * 16 + 16 <= v;
                        }
                        let fg = self.fg_color;
                        self.writer.write_ascii(
                            fb,
                            font,
                            self.cursor_col * GLYPH_WIDTH,
                            self.cursor_row * GLYPH_HEIGHT,
                            c,
                            &fg,
                        );
                        self.cursor_col = self.cursor_col + 1;
                    }
                    proof {
                        i = i + 1;
                    }
                },
                None => {
                    assert(s@.subrange(0, i) =~= s@);
                    break;
                },
            }
        }
    }
}

proof fn lemma_partial_line(con: Console, row: int, fb: Seq<u8>, font: Seq<u8>, cs: Seq<char>, k: int)
    requires
        con.wf(),
        0 <= row < con.rows(),
        0 <= k < con.cols(),
        k <= cs.len(),
        forall|i: int| 0 <= i < cs.len() ==> cs[i] != '\n',
    ensures
        con.write_spec(0, row, fb, font, cs.take(k)).0 == k,
        con.write_spec(0, row, fb, font, cs.take(k)).1 == row,
    decreases k,
{
    if k > 0 {
        lemma_partial_line(con, row, fb, font, cs, k - 1);
        assert(cs.take(k).drop_last() =~= cs.take(k - 1));
    }
}

/// From column 0 of any row, as many printable characters as there are
/// columns end with the cursor at column 1 of the next row (or of the same,
/// last, row after a scroll): the last column is never written, the final
/// character wraps.
pub proof fn wrap_after_full_line(con: Console, row: int, fb: Seq<u8>, font: Seq<u8>, cs: Seq<char>)
    requires
        con.wf(),
        0 <= row < con.rows(),
        cs.len() == con.cols(),
        forall|i: int| 0 <= i < cs.len() ==> cs[i] != '\n',
    ensures
        con.write_spec(0, row, fb, font, cs).0 == 1,
        con.write_spec(0, row, fb, font, cs).1 == if row < con.rows() - 1 {
            row + 1
        } else {
            row
        },
        forall|k: int|
            0 <= k < con.cols() ==> con.write_spec(0, row, fb, font, #[trigger] cs.take(k)).0 == k
                && con.write_spec(0, row, fb, font, cs.take(k)).1 == row,
{
    assert forall|k: int| 0 <= k < con.cols() implies con.write_spec(0, row, fb, font, #[trigger] cs.take(k)).0 == k
        && con.write_spec(0, row, fb, font, cs.take(k)).1 == row by {
        lemma_partial_line(con, row, fb, font, cs, k);
    }
    let n = con.cols();
    lemma_partial_line(con, row, fb, font, cs, n - 1);
    assert(cs.drop_last() =~= cs.take(n - 1));
}

/// A scroll moves every text row but the first up by one, byte for byte:
/// each byte above the bottom text row takes the value that was one text
/// row below it.
pub proof fn scroll_moves_rows_up(con: Console, fb: Seq<u8>, i: int)
    requires
        con.wf(),
        fb.len() >= con.config().byte_len(),
        0 <= i < con.row_bytes() * (con.rows() - 1),
    ensures
        con.scrolled(fb)[i] == fb[i + con.row_bytes()],
{
    let stride = con.config().stride as int;
    let rows = con.rows();
    let v = con.config().vertical_resolution as int;
    assert(16 * rows <= v);
    assert(con.row_bytes() * rows == 4 * (stride * (16 * rows))) by (nonlinear_arith)
        requires con.row_bytes() == 4 * (stride * 16);
    assert(stride * (16 * rows) <= stride * v) by (nonlinear_arith)
        requires 16 * rows <= v, stride >= 0;
    assert(con.row_bytes() * (rows - 1) <= con.row_bytes() * rows) by (nonlinear_arith)
        requires con.row_bytes() >= 0;
    let p = i / 4;
    assert(stride > 0) by (nonlinear_arith)
        requires con.row_bytes() * (rows - 1) > i, i >= 0, con.row_bytes() == 4 * (stride * 16), stride >= 0;
    vstd::arithmetic::div_mod::lemma_fundamental_div_mod(p, stride);
    assert(p < stride * ((rows - 1) * 16)) by (nonlinear_arith)
        requires p == i / 4, i < con.row_bytes() * (rows - 1), con.row_bytes() == 4 * (stride * 16), i >= 0;
    if p / stride >= (rows - 1) * 16 {
        assert(stride * (p / stride) >= stride * ((rows - 1) * 16)) by (nonlinear_arith)
            requires p / stride >= (rows - 1) * 16, stride > 0;
        assert(p % stride >= 0);
    }
    assert(p / stride < (rows - 1) * 16);
    assert(con.row_bytes() * rows - con.row_bytes() == con.row_bytes() * (rows - 1)) by (nonlinear_arith);
    let n = con.row_bytes() * rows - con.row_bytes();
    let sh = shifted(fb, con.row_bytes(), n);
    assert(sh[i] == fb[i + con.row_bytes()]);
}

proof fn lemma_above_bottom_row(con: Console, i: int)
    requires
        con.wf(),
        0 <= i < con.row_bytes() * (con.rows() - 1),
    ensures
        con.config().stride > 0,
        (i / 4) / (con.config().stride as int) < (con.rows() - 1) * 16,
        i / 4 >= 0,
{
    let stride = con.config().stride as int;
    let rows = con.rows();
    let p = i / 4;
    assert(stride > 0) by (nonlinear_arith)
        requires con.row_bytes() * (rows - 1) > i, i >= 0, con.row_bytes() == 4 * (stride * 16), stride >= 0;
    vstd::arithmetic::div_mod::lemma_fundamental_div_mod(p, stride);
    assert(p < stride * ((rows - 1) * 16)) by (nonlinear_arith)
        requires p == i / 4, i < con.row_bytes() * (rows - 1), con.row_bytes() == 4 * (stride * 16), i >= 0;
    if p / stride >= (rows - 1) * 16 {
        assert(stride * (p / stride) >= stride * ((rows - 1) * 16)) by (nonlinear_arith)
            requires p / stride >= (rows - 1) * 16, stride > 0;
        assert(p % stride >= 0);
    }
}

/// When the cursor is on the last column of the last row, the next
/// printable character scrolls the screen: every byte above the bottom text
/// row takes the value one text row below it, and the character goes to
/// column 0 of the last row.
pub proof fn wrap_on_last_row_scrolls(con: Console, fb: Seq<u8>, font: Seq<u8>, c: char)
    requires
        con.wf(),
        con.rows() >= 2,
        fb.len() >= con.config().byte_len(),
        c != '\n',
    ensures
        ({
            let s = con.put_spec(con.cols() - 1, con.rows() - 1, fb, font, c);
            &&& s.0 == 1
            &&& s.1 == con.rows() - 1
            &&& forall|i: int|
                0 <= i < con.row_bytes() * (con.rows() - 1) ==> #[trigger] s.2[i] == fb[i + con.row_bytes()]
        }),
{
    let s = con.put_spec(con.cols() - 1, con.rows() - 1, fb, font, c);
    let sc = con.scrolled(fb);
    let stride = con.config().stride as int;
    let rows = con.rows();
    let v = con.config().vertical_resolution as int;
    assert(16 * rows <= v);
    assert(con.row_bytes() * (rows - 1) <= 4 * (stride * v)) by (nonlinear_arith)
        requires con.row_bytes() == 4 * (stride * 16), 16 * rows <= v, stride >= 0, rows >= 1;
    assert(s.2 == glyph_painted(sc, stride, con.config().pixel_format, font, 0, (rows - 1) * 16, glyph_code(c), con.fg()));
    assert forall|i: int| 0 <= i < con.row_bytes() * (con.rows() - 1) implies #[trigger] s.2[i] == fb[i
        + con.row_bytes()] by {
        scroll_moves_rows_up(con, fb, i);
        lemma_above_bottom_row(con, i);
    }
}

proof fn lemma_text_position(con: Console, fb: Seq<u8>, font: Seq<u8>, cs: Seq<char>, k: int)
    requires
        con.wf(),
        1 <= k <= cs.len(),
        forall|i: int| 0 <= i < cs.len() ==> cs[i] != '\n',
    ensures
        con.write_spec(0, 0, fb, font, cs.take(k)).0 == (k - 1) % (con.cols() - 1) + 1,
        con.write_spec(0, 0, fb, font, cs.take(k)).1 == if (k - 1) / (con.cols() - 1) < con.rows() - 1 {
            (k - 1) / (con.cols() - 1)
        } else {
            con.rows() - 1
        },
    decreases k,
{
    let d = con.cols() - 1;
    if k == 1 {
        assert(cs.take(1).drop_last() =~= Seq::<char>::empty());
        assert(con.write_spec(0, 0, fb, font, Seq::<char>::empty()) == (0int, 0int, fb));
        assert(cs.take(1).last() == cs[0]);
        assert(cs[0] != '\n');
        assert(con.write_spec(0, 0, fb, font, cs.take(1)) == con.put_spec(0, 0, fb, font, cs[0]));
        assert(0int % d == 0 && 0int / d == 0) by (nonlinear_arith)
            requires d >= 1;
    } else {
        lemma_text_position(con, fb, font, cs, k - 1);
        assert(cs.take(k).drop_last() =~= cs.take(k - 1));
        let w = (k - 2) / d;
        let r = (k - 2) % d;
        assert(cs.take(k).last() == cs[k - 1]);
        assert(cs[k - 1] != '\n');
        let prev = con.write_spec(0, 0, fb, font, cs.take(k - 1));
        assert(con.write_spec(0, 0, fb, font, cs.take(k)) == con.put_spec(prev.0, prev.1, prev.2, font, cs[k - 1]));
        vstd::arithmetic::div_mod::lemma_fundamental_div_mod(k - 2, d);
        if r + 1 < d {
            assert(k - 1 == w * d + (r + 1)) by (nonlinear_arith)
                requires k - 2 == d * w + r;
            vstd::arithmetic::div_mod::lemma_fundamental_div_mod_converse(k - 1, d, w, r + 1);
        } else {
            assert(k - 1 == (w + 1) * d + 0) by (nonlinear_arith)
                requires k - 2 == d * w + r, r + 1 == d;
            vstd::arithmetic::div_mod::lemma_fundamental_div_mod_converse(k - 1, d, w + 1, 0);
        }
    }
}

/// From a fresh cursor, `rows * cols` printable characters leave the cursor
/// on the last row: every line after the first takes one character fewer
/// than there are columns, so the text needs at least `rows - 1` line feeds.
pub proof fn full_screen_ends_on_last_row(con: Console, fb: Seq<u8>, font: Seq<u8>, cs: Seq<char>)
    requires
        con.wf(),
        cs.len() == con.rows() * con.cols(),
        forall|i: int| 0 <= i < cs.len() ==> cs[i] != '\n',
    ensures
        con.write_spec(0, 0, fb, font, cs).1 == con.rows() - 1,
{
    let n = cs.len() as int;
    let d = con.cols() - 1;
    let rows = con.rows();
    assert(n >= 1) by (nonlinear_arith)
        requires n == rows * con.cols(), rows >= 1, con.cols() >= 2;
    lemma_text_position(con, fb, font, cs, n);
    assert(cs.take(n) =~= cs);
    vstd::arithmetic::div_mod::lemma_fundamental_div_mod(n - 1, d);
    let w = (n - 1) / d;
    if w < rows - 1 {
        assert(false) by (nonlinear_arith)
            requires
                n - 1 == d * w + (n - 1) % d,
                (n - 1) % d < d,
                w < rows - 1,
                n == rows * (d + 1),
                d >= 1,
                rows >= 1,
        ;
    }
}

} // verus!

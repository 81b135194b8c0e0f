use nucleus::console::Console;
use nucleus::font::{Ascii, FONT_LEN};
use nucleus::graphics::{FrameBufferConfig, PixelColor, PixelFormat, PixelWriter};

fn config(h: usize, v: usize, stride: usize, pixel_format: PixelFormat) -> FrameBufferConfig {
    FrameBufferConfig { horizontal_resolution: h, vertical_resolution: v, stride, pixel_format }
}

#[test]
fn pixel_rgb() {
    let cfg = config(10, 5, 12, PixelFormat::Rgb);
    let writer = PixelWriter::new(&cfg);
    let mut fb = vec![0xaau8; 4 * 12 * 5];
    writer.write(&mut fb, 3, 2, &PixelColor::new(1, 2, 3));
    let off = 4 * (12 * 2 + 3);
    assert_eq!(writer.pixel_at(3, 2), off);
    assert_eq!(&fb[off..off + 4], &[1, 2, 3, 0xaa]);
    let changed = fb.iter().filter(|b| **b != 0xaa).count();
    assert_eq!(changed, 3);
}

#[test]
fn pixel_bgr() {
    let cfg = config(10, 5, 12, PixelFormat::Bgr);
    let writer = PixelWriter::new(&cfg);
    let mut fb = vec![0u8; 4 * 12 * 5];
    writer.write(&mut fb, 9, 4, &PixelColor::new(1, 2, 3));
    let off = 4 * (12 * 4 + 9);
    assert_eq!(&fb[off..off + 4], &[3, 2, 1, 0]);
}

fn test_font() -> Vec<u8> {
    let mut font = vec![0u8; FONT_LEN];
    for code in 0..256usize {
        for row in 0..16usize {
            font[code * 16 + row] = (code as u8) ^ (row as u8 * 17);
        }
    }
    // 'A': a vertical bar in the leftmost column only.
    for row in 0..16 {
        font[0x41 * 16 + row] = 0x80;
    }
    font
}

fn pixel(fb: &[u8], stride: usize, x: usize, y: usize) -> [u8; 4] {
    let o = 4 * (stride * y + x);
    [fb[o], fb[o + 1], fb[o + 2], fb[o + 3]]
}

#[test]
fn glyph_draws_foreground_only() {
    let cfg = config(16, 16, 16, PixelFormat::Rgb);
    let writer = PixelWriter::new(&cfg);
    let font = test_font();
    let mut fb = vec![9u8; 4 * 16 * 16];
    writer.write_ascii(&mut fb, &font, 8, 0, 'A', &PixelColor::new(1, 2, 3));
    for y in 0..16 {
        assert_eq!(pixel(&fb, 16, 8, y), [1, 2, 3, 9]);
        for x in 0..16 {
            if x != 8 {
                assert_eq!(pixel(&fb, 16, x, y), [9, 9, 9, 9]);
            }
        }
    }
}

#[test]
fn glyph_outside_latin1_uses_code_zero() {
    let cfg = config(16, 16, 16, PixelFormat::Rgb);
    let writer = PixelWriter::new(&cfg);
    let font = test_font();
    let mut a = vec![0u8; 4 * 16 * 16];
    let mut b = vec![0u8; 4 * 16 * 16];
    writer.write_ascii(&mut a, &font, 0, 0, '\u{3042}', &PixelColor::new(5, 5, 5));
    writer.write_ascii(&mut b, &font, 0, 0, '\u{0}', &PixelColor::new(5, 5, 5));
    assert_eq!(a, b);
    // Row 1 of glyph 0 is 0x11: pixels 3 and 7 are set.
    assert_eq!(pixel(&a, 16, 3, 1), [5, 5, 5, 0]);
    assert_eq!(pixel(&a, 16, 7, 1), [5, 5, 5, 0]);
    assert_eq!(pixel(&a, 16, 2, 1), [0, 0, 0, 0]);
}

#[test]
fn write_str_advances_eight_pixels() {
    let cfg = config(24, 16, 24, PixelFormat::Bgr);
    let writer = PixelWriter::new(&cfg);
    let font = test_font();
    let mut fb = vec![0u8; 4 * 24 * 16];
    Ascii::write_str(&writer, &mut fb, &font, 0, 0, "AAA", &PixelColor::new(1, 2, 3));
    for y in 0..16 {
        for x in 0..24 {
            let expected = if x % 8 == 0 { [3, 2, 1, 0] } else { [0, 0, 0, 0] };
            assert_eq!(pixel(&fb, 24, x, y), expected);
        }
    }
}

#[test]
fn console_wraps_before_last_column() {
    // 32x48 pixels: 4 columns, 3 rows.
    let cfg = config(32, 48, 32, PixelFormat::Rgb);
    let writer = PixelWriter::new(&cfg);
    let font = test_font();
    let mut fb = vec![0u8; 4 * 32 * 48];
    let mut console = Console::new(&writer, PixelColor::new(0, 0, 0), PixelColor::new(255, 255, 255));
    assert_eq!((console.max_cols(), console.max_rows()), (4, 3));
    console.write_str(&mut fb, &font, "AAA");
    assert_eq!(console.cursor(), (3, 0));
    console.write_str(&mut fb, &font, "A");
    assert_eq!(console.cursor(), (1, 1));
    console.write_str(&mut fb, &font, "\n");
    assert_eq!(console.cursor(), (0, 2));
}

#[test]
fn console_scrolls_up_one_text_row() {
    let cfg = config(32, 48, 40, PixelFormat::Rgb);
    let writer = PixelWriter::new(&cfg);
    let font = test_font();
    let mut fb = vec![0u8; 4 * 40 * 48];
    let fg = PixelColor::new(1, 2, 3);
    let bg = PixelColor::new(200, 201, 202);
    let mut console = Console::new(&writer, fg, bg);
    console.write_str(&mut fb, &font, "abc\ndef\nghi");
    assert_eq!(console.cursor(), (3, 2));
    let row_bytes = 4 * 40 * 16;
    let before = fb.clone();
    console.write_str(&mut fb, &font, "\n");
    assert_eq!(console.cursor(), (0, 2));
    // The top text row now holds what the second one held, byte for byte.
    assert_eq!(&fb[0..row_bytes], &before[row_bytes..2 * row_bytes]);
    assert_eq!(&fb[row_bytes..2 * row_bytes], &before[2 * row_bytes..3 * row_bytes]);
    // The bottom text row is cleared to the background within the columns.
    for y in 32..48 {
        for x in 0..32 {
            assert_eq!(pixel(&fb, 40, x, y), [200, 201, 202, before[4 * (40 * y + x) + 3]]);
        }
    }
}

#[test]
fn console_full_screen_leaves_cursor_on_last_row() {
    let cfg = config(32, 48, 32, PixelFormat::Rgb);
    let writer = PixelWriter::new(&cfg);
    let font = test_font();
    let mut fb = vec![0u8; 4 * 32 * 48];
    let mut console = Console::new(&writer, PixelColor::new(1, 1, 1), PixelColor::new(0, 0, 0));
    let text: String = std::iter::repeat('x').take(3 * 4).collect();
    console.write_str(&mut fb, &font, &text);
    assert_eq!(console.cursor().1, 2);
}

#[test]
fn fill_screen_paints_visible_pixels_only() {
    let cfg = config(3, 2, 5, PixelFormat::Bgr);
    let writer = PixelWriter::new(&cfg);
    let mut fb = vec![7u8; 4 * 5 * 2];
    writer.fill_screen(&mut fb, &PixelColor::new(10, 20, 30));
    for y in 0..2 {
        for x in 0..5 {
            let expected = if x < 3 { [30, 20, 10, 7] } else { [7, 7, 7, 7] };
            assert_eq!(pixel(&fb, 5, x, y), expected);
        }
    }
}

#[test]
fn bgr_text_reads_like_rgb_text() {
    let rgb = config(16, 16, 16, PixelFormat::Rgb);
    let bgr = config(16, 16, 16, PixelFormat::Bgr);
    let font = test_font();
    let mut a = vec![0u8; 4 * 16 * 16];
    let mut b = vec![0u8; 4 * 16 * 16];
    let color = PixelColor::new(1, 2, 3);
    PixelWriter::new(&rgb).write_ascii(&mut a, &font, 8, 0, 'k', &color);
    PixelWriter::new(&bgr).write_ascii(&mut b, &font, 8, 0, 'k', &color);
    for i in (0..a.len()).step_by(4) {
        assert_eq!([a[i], a[i + 1], a[i + 2]], [b[i + 2], b[i + 1], b[i]]);
    }
}

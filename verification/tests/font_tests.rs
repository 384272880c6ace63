use pixelui::font::{CharData, Font};
use pixelui::pixel::{Color, PixBuf};

fn glyph(width: i32, height: i32, xo: i32, yo: i32, data: Vec<u8>) -> CharData {
    CharData { width, height, xo, yo, data }
}

#[test]
fn parse_single_record_full_block() {
    // One record: ENCODING 65, BBX 8 8 0 0, BITMAP, eight rows of "FF".
    let bdf = b"STARTFONT 2.1\nENCODING 65\nBBX 8 8 0 0\nBITMAP\nFF\nFF\nFF\nFF\nFF\nFF\nFF\nFF\nENDCHAR\n";
    let font = Font::parse_bdf(bdf, 6, 13).expect("well-formed stream");
    assert_eq!(font.width, 6);
    assert_eq!(font.height, 13);
    let g = font.get_char(65).expect("glyph for codepoint 65");
    assert_eq!(g.width, 8);
    assert_eq!(g.height, 8);
    assert_eq!(g.xo, 0);
    assert_eq!(g.yo, 0);
    assert_eq!(g.data, vec![0xFF; 8]);
    assert!(font.get_char(66).is_none());
}

#[test]
fn parse_empty_stream_yields_empty_font() {
    let font = Font::parse_bdf(b"COMMENT nothing here\n", 6, 13).expect("no records is fine");
    assert!(font.get_char(65).is_none());
}

#[test]
fn parse_skips_unrecognized_lines_between_records() {
    let bdf = b"FOO\nENCODING 33\nSWIDTH 1 2\nBBX 1 1 0 0\nJUNK\nBITMAP\n80\nENDCHAR\n";
    let font = Font::parse_bdf(bdf, 6, 13).expect("record with noise around it");
    let g = font.get_char(33).expect("glyph for codepoint 33");
    assert_eq!(g.data, vec![0x80]);
}

#[test]
fn parse_duplicate_encoding_overwrites() {
    let bdf = b"ENCODING 65\nBBX 1 1 0 0\nBITMAP\n80\nENCODING 65\nBBX 1 1 0 0\nBITMAP\n40\n";
    let font = Font::parse_bdf(bdf, 6, 13).expect("two records, one codepoint");
    let g = font.get_char(65).expect("the later record's glyph");
    assert_eq!(g.data, vec![0x40]);
}

#[test]
fn parse_missing_bbx_fails_whole_parse() {
    assert!(Font::parse_bdf(b"ENCODING 65\nBITMAP\nFF\n", 6, 13).is_none());
}

#[test]
fn parse_truncated_bitmap_fails() {
    assert!(Font::parse_bdf(b"ENCODING 65\nBBX 8 8 0 0\nBITMAP\nFF\nFF\n", 6, 13).is_none());
}

#[test]
fn parse_bad_hex_row_fails() {
    assert!(Font::parse_bdf(b"ENCODING 65\nBBX 8 1 0 0\nBITMAP\nZZ\n", 6, 13).is_none());
}

#[test]
fn parse_wrong_row_length_fails() {
    // BBX width 16 asks for two bytes per row; the row has one.
    assert!(Font::parse_bdf(b"ENCODING 65\nBBX 16 1 0 0\nBITMAP\nFF\n", 6, 13).is_none());
}

#[test]
fn parse_bad_codepoint_field_fails() {
    assert!(Font::parse_bdf(b"ENCODING x\nBBX 1 1 0 0\nBITMAP\n80\n", 6, 13).is_none());
    assert!(Font::parse_bdf(b"ENCODING\nBBX 1 1 0 0\nBITMAP\n80\n", 6, 13).is_none());
    // A surrogate is not a valid codepoint.
    assert!(Font::parse_bdf(b"ENCODING 55296\nBBX 1 1 0 0\nBITMAP\n80\n", 6, 13).is_none());
}

#[test]
fn parse_negative_bbx_dimension_fails() {
    assert!(Font::parse_bdf(b"ENCODING 65\nBBX -1 1 0 0\nBITMAP\n80\n", 6, 13).is_none());
}

#[test]
fn parse_signed_offsets() {
    let font = Font::parse_bdf(b"ENCODING 65\nBBX 1 1 -2 -3\nBITMAP\n80\n", 6, 13).unwrap();
    let g = font.get_char(65).unwrap();
    assert_eq!(g.xo, -2);
    assert_eq!(g.yo, -3);
}

#[test]
fn parse_crlf_lines() {
    let font = Font::parse_bdf(b"ENCODING 65\r\nBBX 1 1 0 0\r\nBITMAP\r\n80\r\n", 6, 13).unwrap();
    assert_eq!(font.get_char(65).unwrap().data, vec![0x80]);
}

#[test]
fn measure_counts_ligature_pair_as_one_cell() {
    let mut font = Font::new(4, 6);
    font.insert_char('a' as u32, glyph(4, 1, 0, 0, vec![0xF0]));
    font.insert_char('b' as u32, glyph(4, 1, 0, 0, vec![0xF0]));
    font.insert_ligature('a' as u32, 'b' as u32, glyph(4, 1, 0, 0, vec![0xF0]));
    let ab: Vec<char> = "ab".chars().collect();
    assert_eq!(font.len(&ab), 1);
    let ba: Vec<char> = "ba".chars().collect();
    assert_eq!(font.len(&ba), 2);
    let aab: Vec<char> = "aab".chars().collect();
    assert_eq!(font.len(&aab), 2);
    let empty: Vec<char> = Vec::new();
    assert_eq!(font.len(&empty), 0);
}

#[test]
fn measure_counts_unknown_codepoints() {
    let font = Font::new(4, 6);
    let text: Vec<char> = "xyz".chars().collect();
    assert_eq!(font.len(&text), 3);
}

#[test]
fn draw_and_measure_agree_on_cells() {
    let mut font = Font::new(4, 6);
    font.insert_char('a' as u32, glyph(1, 1, 0, 0, vec![0x80]));
    font.insert_ligature('a' as u32, 'b' as u32, glyph(1, 1, 0, 0, vec![0x80]));
    let text: Vec<char> = "abaq".chars().collect();
    let mut buf = PixBuf::new(32, 32);
    let cells = font.draw(&mut buf, &text, (0, 6), Color::new(255, 255, 255, 255), 1);
    assert_eq!(cells, font.len(&text));
    assert_eq!(cells, 3);
}

#[test]
fn glyph_draw_paints_set_bits_at_offsets() {
    // Two rows: bit 7 of row zero, bit 6 of row one.
    let g = glyph(2, 2, 0, 0, vec![0x80, 0x40]);
    let mut buf = PixBuf::new(4, 4);
    let red = Color::new(255, 0, 0, 255);
    // The glyph's bottom-left lands at the pen, so rows sit at y 0 and 1.
    g.draw(&mut buf, (0, 2), red, 1);
    for y in 0..4 {
        for x in 0..4 {
            let expect = (x == 0 && y == 0) || (x == 1 && y == 1);
            let c = buf.buf[(y * 4 + x) as usize];
            assert_eq!(c == red, expect, "pixel ({x},{y})");
        }
    }
}

#[test]
fn glyph_draw_scales_blocks() {
    let g = glyph(1, 1, 0, 0, vec![0x80]);
    let mut buf = PixBuf::new(4, 4);
    let red = Color::new(255, 0, 0, 255);
    // Pen (0, 2) at scale 2: the single bit covers the 2x2 block at (0, 2).
    g.draw(&mut buf, (0, 4), red, 2);
    for y in 0..4 {
        for x in 0..4 {
            let expect = x < 2 && y >= 2;
            let c = buf.buf[(y * 4 + x) as usize];
            assert_eq!(c == red, expect, "pixel ({x},{y})");
        }
    }
}

#[test]
fn glyph_draw_clips_offscreen() {
    let g = glyph(8, 8, 0, 0, vec![0xFF; 8]);
    let mut buf = PixBuf::new(2, 2);
    let red = Color::new(255, 0, 0, 255);
    g.draw(&mut buf, (-100, -100), red, 1);
    g.draw(&mut buf, (100, 100), red, 1);
    for i in 0..4 {
        assert_eq!(buf.buf[i], Color::new(0, 0, 0, 0));
    }
}

#[test]
fn draw_skips_unknown_glyphs_but_advances() {
    let mut font = Font::new(2, 2);
    font.insert_char('b' as u32, glyph(1, 1, 0, 0, vec![0x80]));
    let mut buf = PixBuf::new(8, 4);
    let red = Color::new(255, 0, 0, 255);
    let text: Vec<char> = "ab".chars().collect();
    // 'a' has no glyph: one blank cell, then 'b' paints at x = 2.
    let cells = font.draw(&mut buf, &text, (0, 2), red, 1);
    assert_eq!(cells, 2);
    assert_eq!(buf.buf[1 * 8 + 2], red);
    assert_eq!(buf.buf[1 * 8 + 0], Color::new(0, 0, 0, 0));
}

#[test]
fn parse_two_records_yields_two_glyphs() {
    let bdf = b"ENCODING 65\nBBX 1 1 0 0\nBITMAP\n80\nENCODING 66\nBBX 1 2 0 0\nBITMAP\n80\n40\n";
    let font = Font::parse_bdf(bdf, 6, 13).expect("two records");
    assert_eq!(font.get_char(65).unwrap().data, vec![0x80]);
    assert_eq!(font.get_char(66).unwrap().data, vec![0x80, 0x40]);
}

#[test]
fn ligature_draws_one_glyph_in_one_cell() {
    let mut font = Font::new(2, 2);
    font.insert_char('a' as u32, glyph(1, 1, 0, 0, vec![0x80]));
    font.insert_char('b' as u32, glyph(1, 1, 0, 0, vec![0x80]));
    font.insert_ligature('a' as u32, 'b' as u32, glyph(1, 1, 0, 0, vec![0x80]));
    let mut buf = PixBuf::new(8, 4);
    let red = Color::new(255, 0, 0, 255);
    let text: Vec<char> = "abb".chars().collect();
    // The pair (a, b) is one cell; the trailing b starts at the next cell.
    let cells = font.draw(&mut buf, &text, (0, 2), red, 1);
    assert_eq!(cells, 2);
    assert_eq!(buf.buf[1 * 8 + 0], red);
    assert_eq!(buf.buf[1 * 8 + 2], red);
    assert_eq!(buf.buf[1 * 8 + 1], Color::new(0, 0, 0, 0));
    assert_eq!(buf.buf[1 * 8 + 4], Color::new(0, 0, 0, 0));
}

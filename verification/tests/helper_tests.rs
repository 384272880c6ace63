use pixelui::explorer::MainTabs;
use pixelui::font::{decode_hex_row, fields, parse_dec, parse_i32, split_lines, Font};
use pixelui::pixel::{Color, PixBuf};
use pixelui::widget::{Canvas, CutDir, Events, Rect, Tabs, Text, Visuals, Widget};

#[test]
fn split_lines_handles_line_endings() {
    let lines = split_lines(b"ab\ncd\r\n\nef");
    let got: Vec<&[u8]> = lines.iter().map(|l| l.as_slice()).collect();
    assert_eq!(got, vec![b"ab" as &[u8], b"cd", b"", b"ef"]);
    assert!(split_lines(b"").is_empty());
    assert_eq!(split_lines(b"x\n").len(), 1);
}

#[test]
fn fields_split_on_blanks() {
    let fs = fields(&b"BBX  8\t8 0 -1".to_vec());
    let got: Vec<&[u8]> = fs.iter().map(|l| l.as_slice()).collect();
    assert_eq!(got, vec![b"BBX" as &[u8], b"8", b"8", b"0", b"-1"]);
    assert!(fields(&b"   ".to_vec()).is_empty());
}

#[test]
fn parse_dec_rejects_junk_and_overflow() {
    assert_eq!(parse_dec(&b"65".to_vec(), u32::MAX), Some(65));
    assert_eq!(parse_dec(&b"0".to_vec(), u32::MAX), Some(0));
    assert_eq!(parse_dec(&b"".to_vec(), u32::MAX), None);
    assert_eq!(parse_dec(&b"6a".to_vec(), u32::MAX), None);
    assert_eq!(parse_dec(&b"4294967295".to_vec(), u32::MAX), Some(u32::MAX));
    assert_eq!(parse_dec(&b"4294967296".to_vec(), u32::MAX), None);
    assert_eq!(parse_dec(&b"10".to_vec(), 9), None);
}

#[test]
fn parse_i32_signs_and_range() {
    assert_eq!(parse_i32(&b"-3".to_vec()), Some(-3));
    assert_eq!(parse_i32(&b"+3".to_vec()), Some(3));
    assert_eq!(parse_i32(&b"3".to_vec()), Some(3));
    assert_eq!(parse_i32(&b"-2147483648".to_vec()), Some(i32::MIN));
    assert_eq!(parse_i32(&b"2147483647".to_vec()), Some(i32::MAX));
    assert_eq!(parse_i32(&b"2147483648".to_vec()), None);
    assert_eq!(parse_i32(&b"-2147483649".to_vec()), None);
    assert_eq!(parse_i32(&b"-".to_vec()), None);
    assert_eq!(parse_i32(&b"".to_vec()), None);
}

#[test]
fn decode_hex_rows() {
    assert_eq!(decode_hex_row(&b"FF00aB".to_vec()), Some(vec![0xFF, 0x00, 0xAB]));
    // A trailing unpaired digit is dropped.
    assert_eq!(decode_hex_row(&b"FFA".to_vec()), Some(vec![0xFF]));
    assert_eq!(decode_hex_row(&b"".to_vec()), Some(vec![]));
    assert_eq!(decode_hex_row(&b"G0".to_vec()), None);
}

#[test]
fn text_widget_draws_with_its_own_style() {
    let mut font = Font::new(2, 2);
    font.insert_char(
        'a' as u32,
        pixelui::font::CharData { width: 1, height: 1, xo: 0, yo: 0, data: vec![0x80] },
    );
    let mut c = Canvas {
        pix: PixBuf::new(8, 8),
        rect: Rect { x: 0, y: 0, width: 8, height: 8 },
        visuals: Visuals { font: &font, text_size: 1, dir: CutDir::Vertical, color: Color::new(9, 9, 9, 9) },
        events: Events { mouse_left: false, mouse_middle: false, mouse_right: false, cursor: None },
    };
    let red = Color::new(255, 0, 0, 255);
    let mut t = Text::new("a".chars().collect(), 1, red);
    t.draw(&mut c);
    // The glyph's single bit lands one cell height above the baseline.
    assert_eq!(c.pix.buf[(1 * 8 + 0) as usize], red);
    // The widget restored the canvas's own style.
    assert_eq!(c.visuals.color, Color::new(9, 9, 9, 9));
    assert_eq!(c.visuals.text_size, 1);
}

#[test]
fn tabs_widget_carries_selection() {
    let font = Font::new(6, 13);
    let mut c = Canvas {
        pix: PixBuf::new(100, 10),
        rect: Rect { x: 0, y: 0, width: 100, height: 10 },
        visuals: Visuals {
            font: &font,
            text_size: 1,
            dir: CutDir::Horizontal,
            color: Color::new(255, 255, 255, 255),
        },
        events: Events {
            mouse_left: true,
            mouse_middle: false,
            mouse_right: false,
            cursor: Some((75, 5)),
        },
    };
    let mut tabs = Tabs::new(MainTabs::Explore);
    tabs.draw(&mut c);
    assert!(tabs.selected == MainTabs::Tuning);
}

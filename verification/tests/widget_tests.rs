use pixelui::explorer::{Main, MainTabs};
use pixelui::font::Font;
use pixelui::pixel::{invert, Color, PixBuf};
use pixelui::widget::{tab_highlight, Canvas, CutDir, Events, Rect, Tab, Visuals};

fn canvas<'a>(
    font: &'a Font,
    width: i32,
    height: i32,
    cursor: Option<(i32, i32)>,
    left: bool,
) -> Canvas<'a> {
    Canvas {
        pix: PixBuf::new(width, height),
        rect: Rect { x: 0, y: 0, width, height },
        visuals: Visuals {
            font,
            text_size: 1,
            dir: CutDir::Vertical,
            color: Color::new(255, 255, 255, 255),
        },
        events: Events {
            mouse_left: left,
            mouse_middle: false,
            mouse_right: false,
            cursor,
        },
    }
}

#[test]
fn rect_contains_edges() {
    let r = Rect { x: 2, y: 3, width: 4, height: 5 };
    assert!(r.contains(2, 3));
    assert!(r.contains(5, 7));
    assert!(!r.contains(6, 3));
    assert!(!r.contains(2, 8));
    assert!(!r.contains(1, 3));
}

#[test]
fn rect_degenerate_contains_nothing() {
    let r = Rect { x: 0, y: 0, width: 0, height: 5 };
    assert!(!r.contains(0, 0));
    let r = Rect { x: 0, y: 0, width: -3, height: 5 };
    assert!(!r.contains(-1, 1));
}

#[test]
fn invert_flips_every_channel() {
    let c = invert(Color::new(255, 0, 10, 255));
    assert_eq!(c, Color::new(0, 255, 245, 0));
}

#[test]
fn center_of_square() {
    // A 50x50 region centered in a 100x100 rectangle sits at (25, 25).
    let font = Font::new(6, 13);
    let mut c = canvas(&font, 100, 100, None, false);
    let scope = c.center(50, 50);
    assert_eq!(c.rect, Rect { x: 25, y: 25, width: 50, height: 50 });
    c.restore(scope);
    assert_eq!(c.rect, Rect { x: 0, y: 0, width: 100, height: 100 });
}

#[test]
fn center_does_not_consume_parent() {
    let font = Font::new(6, 13);
    let mut c = canvas(&font, 100, 100, None, false);
    let s1 = c.center(10, 10);
    c.restore(s1);
    let s2 = c.center(10, 10);
    assert_eq!(c.rect, Rect { x: 45, y: 45, width: 10, height: 10 });
    c.restore(s2);
}

#[test]
fn scope_restores_parent_geometry_at_any_depth() {
    let font = Font::new(6, 13);
    let mut c = canvas(&font, 100, 100, None, false);
    let before = c.rect;
    let outer = c.with_rect(Rect { x: 1, y: 2, width: 3, height: 4 });
    let inner = c.cut(2, 2);
    let deepest = c.center(1, 1);
    c.visuals.dir = CutDir::Horizontal;
    c.restore(deepest);
    c.restore(inner);
    c.restore(outer);
    assert_eq!(c.rect, before);
    assert!(c.visuals.dir == CutDir::Vertical);
}

#[test]
fn cut_vertical_consumes_top() {
    let font = Font::new(6, 13);
    let mut c = canvas(&font, 100, 100, None, false);
    let scope = c.cut(30, 20);
    assert_eq!(c.rect, Rect { x: 0, y: 0, width: 30, height: 20 });
    // The saved remainder advanced along y and shrank on both axes.
    assert_eq!(scope.rect, Rect { x: 0, y: 20, width: 70, height: 80 });
    c.restore(scope);
    assert_eq!(c.rect, Rect { x: 0, y: 20, width: 70, height: 80 });
}

#[test]
fn cut_horizontal_consumes_left() {
    let font = Font::new(6, 13);
    let mut c = canvas(&font, 100, 100, None, false);
    c.visuals.dir = CutDir::Horizontal;
    let scope = c.cut(30, 20);
    assert_eq!(c.rect, Rect { x: 0, y: 0, width: 30, height: 20 });
    assert_eq!(scope.rect, Rect { x: 30, y: 0, width: 70, height: 80 });
    c.restore(scope);
}

#[test]
fn cut_top_carves_full_width_strip() {
    let font = Font::new(6, 13);
    let mut c = canvas(&font, 100, 100, None, false);
    let scope = c.cut_top(13);
    assert_eq!(c.rect, Rect { x: 0, y: 0, width: 100, height: 13 });
    assert_eq!(scope.rect, Rect { x: 0, y: 13, width: 100, height: 87 });
    c.restore(scope);
}

#[test]
fn fill_paints_exactly_the_rect() {
    // Filling (0,0,2,2) red on a cleared 4x4 buffer paints four pixels.
    let font = Font::new(6, 13);
    let mut c = canvas(&font, 4, 4, None, false);
    c.clear();
    let red = Color::new(255, 0, 0, 255);
    let scope = c.with_rect(Rect { x: 0, y: 0, width: 2, height: 2 });
    c.fill(red);
    c.restore(scope);
    for y in 0..4 {
        for x in 0..4 {
            let expect = x < 2 && y < 2;
            let got = c.pix.buf[(y * 4 + x) as usize];
            if expect {
                assert_eq!(got, red, "pixel ({x},{y})");
            } else {
                assert_eq!(got, Color::new(0, 0, 0, 0), "pixel ({x},{y})");
            }
        }
    }
}

#[test]
fn fill_clips_and_tolerates_degenerate_rects() {
    let font = Font::new(6, 13);
    let mut c = canvas(&font, 4, 4, None, false);
    c.clear();
    let red = Color::new(255, 0, 0, 255);
    let s = c.with_rect(Rect { x: -1, y: -1, width: 3, height: 3 });
    c.fill(red);
    c.restore(s);
    assert_eq!(c.pix.buf[0], red);
    assert_eq!(c.pix.buf[2 * 4 + 2], Color::new(0, 0, 0, 0));
    let s = c.with_rect(Rect { x: 1, y: 1, width: -5, height: 2 });
    c.fill(red);
    c.restore(s);
    // The degenerate fill painted nothing: what was red stays red and
    // what was clear stays clear.
    assert_eq!(c.pix.buf[1 * 4 + 1], red);
    assert_eq!(c.pix.buf[2 * 4 + 1], Color::new(0, 0, 0, 0));
}

#[test]
fn set_pixel_drops_out_of_bounds() {
    let mut p = PixBuf::new(2, 2);
    p.set_pixel(-1, 0, Color::new(1, 2, 3, 4));
    p.set_pixel(0, 2, Color::new(1, 2, 3, 4));
    p.set_pixel(1, 1, Color::new(1, 2, 3, 4));
    assert_eq!(p.buf[3], Color::new(1, 2, 3, 4));
    assert_eq!(p.buf[0], Color::new(0, 0, 0, 0));
}

#[test]
fn hover_and_buttons_follow_cursor() {
    let font = Font::new(6, 13);
    let c = canvas(&font, 10, 10, Some((5, 5)), true);
    assert!(c.hover());
    assert!(c.mouse_left());
    assert!(!c.mouse_middle());
    assert!(!c.mouse_right());
    let c = canvas(&font, 10, 10, Some((15, 5)), true);
    assert!(!c.hover());
    assert!(!c.mouse_left());
    let c = canvas(&font, 10, 10, None, true);
    assert!(!c.hover());
}

#[test]
fn text_advances_layout_by_measured_cells() {
    let mut font = Font::new(2, 3);
    font.insert_char(
        'a' as u32,
        pixelui::font::CharData { width: 1, height: 1, xo: 0, yo: 0, data: vec![0x80] },
    );
    let mut c = canvas(&font, 20, 20, None, false);
    let text: Vec<char> = "aa".chars().collect();
    c.text(&text);
    // Two cells of width 2 and one line of height 3, cut vertically.
    assert_eq!(c.rect, Rect { x: 0, y: 3, width: 16, height: 17 });
}

#[test]
fn tab_highlight_rule() {
    // Highlight: selected, and no click anywhere in the strip or the click
    // is on this very tab.
    assert!(tab_highlight(true, false, false));
    assert!(tab_highlight(true, true, true));
    assert!(!tab_highlight(true, true, false));
    assert!(!tab_highlight(false, false, false));
    assert!(!tab_highlight(false, true, true));
}

#[test]
fn tabs_click_moves_selection() {
    // Two tabs across 100 pixels: the second tab owns x in 50..100.
    let font = Font::new(6, 13);
    let mut c = canvas(&font, 100, 10, Some((75, 5)), true);
    c.visuals.dir = CutDir::Horizontal;
    let mut sel = MainTabs::Explore;
    c.tabs(&mut sel);
    assert!(sel == MainTabs::Tuning);
}

#[test]
fn tabs_without_click_keep_selection() {
    let font = Font::new(6, 13);
    let mut c = canvas(&font, 100, 10, Some((75, 5)), false);
    c.visuals.dir = CutDir::Horizontal;
    let mut sel = MainTabs::Explore;
    c.tabs(&mut sel);
    assert!(sel == MainTabs::Explore);
}

#[test]
fn tabs_render_selected_tab_highlighted() {
    // Frame one: the click moves the selection to the second tab. Frame
    // two, same input: the second tab renders highlighted (filled with the
    // visual color).
    let font = Font::new(6, 13);
    let mut sel = MainTabs::Explore;
    let mut c = canvas(&font, 100, 10, Some((75, 5)), true);
    c.visuals.dir = CutDir::Horizontal;
    c.clear();
    c.tabs(&mut sel);
    assert!(sel == MainTabs::Tuning);
    let mut c = canvas(&font, 100, 10, Some((75, 5)), true);
    c.visuals.dir = CutDir::Horizontal;
    c.clear();
    c.tabs(&mut sel);
    let white = Color::new(255, 255, 255, 255);
    assert_eq!(c.pix.buf[(5 * 100 + 75) as usize], white);
    // The first tab is not highlighted.
    assert_eq!(c.pix.buf[(5 * 100 + 25) as usize], Color::new(0, 0, 0, 0));
}

#[test]
fn main_panel_click_switches_tab() {
    let font = Font::new(6, 13);
    // Text scale two: the tab strip is the top 26 rows; the second tab
    // owns x in 160..320.
    let mut c = Canvas {
        pix: PixBuf::new(320, 240),
        rect: Rect { x: 0, y: 0, width: 320, height: 240 },
        visuals: Visuals {
            font: &font,
            text_size: 2,
            dir: CutDir::Vertical,
            color: Color::new(255, 255, 255, 255),
        },
        events: Events {
            mouse_left: true,
            mouse_middle: false,
            mouse_right: false,
            cursor: Some((200, 10)),
        },
    };
    let mut main = Main::default();
    c.clear();
    main.draw(&mut c);
    assert!(main.tab == MainTabs::Tuning);
    // A click below the strip moves nothing.
    let mut c2 = canvas(&font, 320, 240, Some((200, 100)), true);
    c2.visuals.text_size = 2;
    main.draw(&mut c2);
    assert!(main.tab == MainTabs::Tuning);
}

#[test]
fn tab_names() {
    assert_eq!(
        MainTabs::Explore.name().into_iter().collect::<String>(),
        "Explore"
    );
    assert_eq!(
        MainTabs::Tuning.name().into_iter().collect::<String>(),
        "Tuning"
    );
    assert_eq!(MainTabs::variants().len(), 2);
}

#[test]
fn visuals_metrics_scale() {
    let font = Font::new(6, 13);
    let v = Visuals { font: &font, text_size: 2, dir: CutDir::Vertical, color: Color::new(0, 0, 0, 0) };
    assert_eq!(v.font_width(), 12);
    assert_eq!(v.font_height(), 26);
}

#[test]
fn tabs_highlight_fills_and_inverts_the_name() {
    // A font with a glyph only for 'T': the highlighted second tab is
    // filled with the visuals color and the 'T' of "Tuning" lands in the
    // inverted color at the centered label position.
    let mut font = Font::new(6, 13);
    font.insert_char(
        'T' as u32,
        pixelui::font::CharData { width: 1, height: 1, xo: 0, yo: 0, data: vec![0x80] },
    );
    let fg = Color::new(200, 10, 30, 255);
    let mut c = Canvas {
        pix: PixBuf::new(100, 10),
        rect: Rect { x: 0, y: 0, width: 100, height: 10 },
        visuals: Visuals { font: &font, text_size: 1, dir: CutDir::Horizontal, color: fg },
        events: Events {
            mouse_left: true,
            mouse_middle: false,
            mouse_right: false,
            cursor: Some((75, 5)),
        },
    };
    c.clear();
    let mut sel = MainTabs::Explore;
    c.tabs(&mut sel);
    assert!(sel == MainTabs::Tuning);
    // The label is 36x17 centered in the tab's (50,0,50,10): its top-left
    // is (57,-3), the baseline one line height below, so the 'T' glyph's
    // single bit lands at (57,9).
    assert_eq!(c.pix.buf[(9 * 100 + 57) as usize], invert(fg));
    // A highlighted pixel away from the glyph carries the fill color.
    assert_eq!(c.pix.buf[(5 * 100 + 75) as usize], fg);
    // The unselected first tab stays unfilled and glyphless.
    assert_eq!(c.pix.buf[(5 * 100 + 25) as usize], Color::new(0, 0, 0, 0));
}

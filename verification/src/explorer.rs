//! The demo panel: a tab strip over an accidentals table and a tuning
//! table, composed from the widget set.

use crate::pixel::Color;
use crate::widget::Canvas;
use crate::widget::CutDir;
use crate::widget::Rect;
use crate::widget::Tab;
use crate::widget::Visuals;
use crate::widget::Widget;
use crate::widget::clamp_i32;
use crate::widget::clamp_to_i32;
use crate::widget::spec_cursor_in;
use crate::widget::spec_text_fits;
use crate::widget::spec_texts_buf;
use crate::widget::spec_texts_fits;
use crate::widget::spec_texts_rect;
use vstd::prelude::*;

verus! {

/// The two panels of the demo.
#[derive(Clone, Copy, Debug, Default, PartialEq, Eq, Structural)]
pub enum MainTabs {
    #[default]
    Explore,
    Tuning,
}

impl Tab for MainTabs {
    open spec fn spec_variants() -> Seq<MainTabs> {
        seq![MainTabs::Explore, MainTabs::Tuning]
    }

    fn variants() -> (v: Vec<MainTabs>) {
        let mut v: Vec<MainTabs> = Vec::new();
        v.push(MainTabs::Explore);
        v.push(MainTabs::Tuning);
        proof {
            assert(v@ =~= Self::spec_variants());
        }
        v
    }

    open spec fn spec_name(&self) -> Seq<char> {
        match *self {
            MainTabs::Explore => seq!['E', 'x', 'p', 'l', 'o', 'r', 'e'],
            MainTabs::Tuning => seq!['T', 'u', 'n', 'i', 'n', 'g'],
        }
    }

    fn name(&self) -> (n: Vec<char>) {
        let mut n: Vec<char> = Vec::new();
        match self {
            MainTabs::Explore => {
                n.push('E');
                n.push('x');
                n.push('p');
                n.push('l');
                n.push('o');
                n.push('r');
                n.push('e');
                proof {
                    assert(n@ =~= self.spec_name());
                }
            },
            MainTabs::Tuning => {
                n.push('T');
                n.push('u');
                n.push('n');
                n.push('i');
                n.push('n');
                n.push('g');
                proof {
                    assert(n@ =~= self.spec_name());
                }
            },
        }
        n
    }

    fn same(&self, other: &Self) -> (r: bool) {
        match (self, other) {
            (MainTabs::Explore, MainTabs::Explore) => true,
            (MainTabs::Tuning, MainTabs::Tuning) => true,
            _ => false,
        }
    }
}

/// Root chords over every accidental, half sharps and flats included.
pub open spec fn spec_explore_roots() -> Seq<char> {
    seq!['C', ' ', ' ', 'C', '\u{266F}', ' ', ' ', 'C', '\u{266D}', ' ', ' ', 'C', '\u{266E}', ' ', ' ', 'C', '\u{1D12A}', ' ', ' ', 'C', '\u{1D12B}', ' ', ' ', 'C', '\u{1D132}', ' ', ' ', 'C', '\u{1D133}', ' ', ' ', 'C', '\u{1D132}', '\u{266F}', ' ', ' ', 'C', '\u{1D133}', '\u{266D}', ' ']
}

fn explore_roots() -> (t: Vec<char>)
    ensures
        t@ == spec_explore_roots(),
        t@.len() == 40,
{
    let mut t: Vec<char> = Vec::new();
    t.push('C');
    t.push(' ');
    t.push(' ');
    t.push('C');
    t.push('\u{266F}');
    t.push(' ');
    t.push(' ');
    t.push('C');
    t.push('\u{266D}');
    t.push(' ');
    t.push(' ');
    t.push('C');
    t.push('\u{266E}');
    t.push(' ');
    t.push(' ');
    t.push('C');
    t.push('\u{1D12A}');
    t.push(' ');
    t.push(' ');
    t.push('C');
    t.push('\u{1D12B}');
    t.push(' ');
    t.push(' ');
    t.push('C');
    t.push('\u{1D132}');
    t.push(' ');
    t.push(' ');
    t.push('C');
    t.push('\u{1D133}');
    t.push(' ');
    t.push(' ');
    t.push('C');
    t.push('\u{1D132}');
    t.push('\u{266F}');
    t.push(' ');
    t.push(' ');
    t.push('C');
    t.push('\u{1D133}');
    t.push('\u{266D}');
    t.push(' ');
    proof {
        assert(t@ =~= spec_explore_roots());
    }
    t
}

/// Seventh chords over every accidental.
pub open spec fn spec_explore_sevenths() -> Seq<char> {
    seq!['C', '7', ' ', 'C', '\u{266F}', '7', ' ', 'C', '\u{266D}', '7', ' ', 'C', '\u{266E}', '7', ' ', 'C', '\u{1D12A}', '7', ' ', 'C', '\u{1D12B}', '7', ' ', 'C', '\u{1D132}', '7', ' ', 'C', '\u{1D133}', '7', ' ', 'C', '\u{1D132}', '\u{266F}', '7', ' ', 'C', '\u{1D133}', '\u{266D}', '7']
}

fn explore_sevenths() -> (t: Vec<char>)
    ensures
        t@ == spec_explore_sevenths(),
        t@.len() == 40,
{
    let mut t: Vec<char> = Vec::new();
    t.push('C');
    t.push('7');
    t.push(' ');
    t.push('C');
    t.push('\u{266F}');
    t.push('7');
    t.push(' ');
    t.push('C');
    t.push('\u{266D}');
    t.push('7');
    t.push(' ');
    t.push('C');
    t.push('\u{266E}');
    t.push('7');
    t.push(' ');
    t.push('C');
    t.push('\u{1D12A}');
    t.push('7');
    t.push(' ');
    t.push('C');
    t.push('\u{1D12B}');
    t.push('7');
    t.push(' ');
    t.push('C');
    t.push('\u{1D132}');
    t.push('7');
    t.push(' ');
    t.push('C');
    t.push('\u{1D133}');
    t.push('7');
    t.push(' ');
    t.push('C');
    t.push('\u{1D132}');
    t.push('\u{266F}');
    t.push('7');
    t.push(' ');
    t.push('C');
    t.push('\u{1D133}');
    t.push('\u{266D}');
    t.push('7');
    proof {
        assert(t@ =~= spec_explore_sevenths());
    }
    t
}

/// Minor chords over every accidental.
pub open spec fn spec_explore_minors() -> Seq<char> {
    seq!['C', 'm', ' ', 'C', '\u{266F}', 'm', ' ', 'C', '\u{266D}', 'm', ' ', 'C', '\u{266E}', 'm', ' ', 'C', '\u{1D12A}', 'm', ' ', 'C', '\u{1D12B}', 'm', ' ', 'C', '\u{1D132}', 'm', ' ', 'C', '\u{1D133}', 'm', ' ', 'C', '\u{1D132}', '\u{266F}', 'm', ' ', 'C', '\u{1D133}', '\u{266D}', 'm']
}

fn explore_minors() -> (t: Vec<char>)
    ensures
        t@ == spec_explore_minors(),
        t@.len() == 40,
{
    let mut t: Vec<char> = Vec::new();
    t.push('C');
    t.push('m');
    t.push(' ');
    t.push('C');
    t.push('\u{266F}');
    t.push('m');
    t.push(' ');
    t.push('C');
    t.push('\u{266D}');
    t.push('m');
    t.push(' ');
    t.push('C');
    t.push('\u{266E}');
    t.push('m');
    t.push(' ');
    t.push('C');
    t.push('\u{1D12A}');
    t.push('m');
    t.push(' ');
    t.push('C');
    t.push('\u{1D12B}');
    t.push('m');
    t.push(' ');
    t.push('C');
    t.push('\u{1D132}');
    t.push('m');
    t.push(' ');
    t.push('C');
    t.push('\u{1D133}');
    t.push('m');
    t.push(' ');
    t.push('C');
    t.push('\u{1D132}');
    t.push('\u{266F}');
    t.push('m');
    t.push(' ');
    t.push('C');
    t.push('\u{1D133}');
    t.push('\u{266D}');
    t.push('m');
    proof {
        assert(t@ =~= spec_explore_minors());
    }
    t
}

/// One row of the tuning table.
pub open spec fn spec_tuning_c() -> Seq<char> {
    seq!['C', ' ', ' ', '3', '0', '0']
}

fn tuning_c() -> (t: Vec<char>)
    ensures
        t@ == spec_tuning_c(),
        t@.len() == 6,
{
    let mut t: Vec<char> = Vec::new();
    t.push('C');
    t.push(' ');
    t.push(' ');
    t.push('3');
    t.push('0');
    t.push('0');
    proof {
        assert(t@ =~= spec_tuning_c());
    }
    t
}

/// One row of the tuning table.
pub open spec fn spec_tuning_d() -> Seq<char> {
    seq!['D', ' ', ' ', '5', '0', '0']
}

fn tuning_d() -> (t: Vec<char>)
    ensures
        t@ == spec_tuning_d(),
        t@.len() == 6,
{
    let mut t: Vec<char> = Vec::new();
    t.push('D');
    t.push(' ');
    t.push(' ');
    t.push('5');
    t.push('0');
    t.push('0');
    proof {
        assert(t@ =~= spec_tuning_d());
    }
    t
}

/// One row of the tuning table.
pub open spec fn spec_tuning_e() -> Seq<char> {
    seq!['E', ' ', ' ', '7', '0', '0']
}

fn tuning_e() -> (t: Vec<char>)
    ensures
        t@ == spec_tuning_e(),
        t@.len() == 6,
{
    let mut t: Vec<char> = Vec::new();
    t.push('E');
    t.push(' ');
    t.push(' ');
    t.push('7');
    t.push('0');
    t.push('0');
    proof {
        assert(t@ =~= spec_tuning_e());
    }
    t
}

/// One row of the tuning table.
pub open spec fn spec_tuning_f() -> Seq<char> {
    seq!['F', ' ', ' ', '8', '0', '0']
}

fn tuning_f() -> (t: Vec<char>)
    ensures
        t@ == spec_tuning_f(),
        t@.len() == 6,
{
    let mut t: Vec<char> = Vec::new();
    t.push('F');
    t.push(' ');
    t.push(' ');
    t.push('8');
    t.push('0');
    t.push('0');
    proof {
        assert(t@ =~= spec_tuning_f());
    }
    t
}

/// One row of the tuning table.
pub open spec fn spec_tuning_g() -> Seq<char> {
    seq!['G', ' ', '1', '0', '0', '0']
}

fn tuning_g() -> (t: Vec<char>)
    ensures
        t@ == spec_tuning_g(),
        t@.len() == 6,
{
    let mut t: Vec<char> = Vec::new();
    t.push('G');
    t.push(' ');
    t.push('1');
    t.push('0');
    t.push('0');
    t.push('0');
    proof {
        assert(t@ =~= spec_tuning_g());
    }
    t
}

/// One row of the tuning table.
pub open spec fn spec_tuning_a() -> Seq<char> {
    seq!['A', ' ', '1', '2', '0', '0']
}

fn tuning_a() -> (t: Vec<char>)
    ensures
        t@ == spec_tuning_a(),
        t@.len() == 6,
{
    let mut t: Vec<char> = Vec::new();
    t.push('A');
    t.push(' ');
    t.push('1');
    t.push('2');
    t.push('0');
    t.push('0');
    proof {
        assert(t@ =~= spec_tuning_a());
    }
    t
}

/// One row of the tuning table.
pub open spec fn spec_tuning_b() -> Seq<char> {
    seq!['B', ' ', '1', '4', '0', '0']
}

fn tuning_b() -> (t: Vec<char>)
    ensures
        t@ == spec_tuning_b(),
        t@.len() == 6,
{
    let mut t: Vec<char> = Vec::new();
    t.push('B');
    t.push(' ');
    t.push('1');
    t.push('4');
    t.push('0');
    t.push('0');
    proof {
        assert(t@ =~= spec_tuning_b());
    }
    t
}

/// The demo's root widget: the tab strip across the top, then the panel
/// the selection names.
#[derive(Default)]
pub struct Main {
    pub tab: MainTabs,
}

/// The strip the tab row occupies: the full width of `rect`, one line
/// height tall, carved off its top.
pub open spec fn spec_tab_strip<'a>(rect: Rect, v: Visuals<'a>) -> Rect {
    Rect {
        x: rect.x,
        y: rect.y,
        width: rect.width,
        height: clamp_i32(v.font.height * v.text_size) as i32,
    }
}

/// The selection after one frame of the demo panel: the tab strip is
/// divided between the two tabs and a held left click over one moves the
/// selection there.
pub open spec fn spec_main_select<'a>(
    rect: Rect,
    v: Visuals<'a>,
    cursor: Option<(i32, i32)>,
    left: bool,
    sel: MainTabs,
) -> MainTabs {
    Canvas::spec_tabs_select(
        MainTabs::spec_variants(),
        spec_tab_strip(rect, v),
        CutDir::Horizontal,
        Canvas::spec_tab_size(spec_tab_strip(rect, v), CutDir::Horizontal, 2).0,
        Canvas::spec_tab_size(spec_tab_strip(rect, v), CutDir::Horizontal, 2).1,
        cursor,
        left,
        sel,
        0,
    )
}

/// The three accidentals-table rows, top to bottom.
pub open spec fn spec_explore_texts() -> Seq<Seq<char>> {
    seq![spec_explore_roots(), spec_explore_sevenths(), spec_explore_minors()]
}

/// The seven tuning-table rows, top to bottom.
pub open spec fn spec_tuning_texts() -> Seq<Seq<char>> {
    seq![
        spec_tuning_c(),
        spec_tuning_d(),
        spec_tuning_e(),
        spec_tuning_f(),
        spec_tuning_g(),
        spec_tuning_a(),
        spec_tuning_b(),
    ]
}

/// The rows the selected panel shows.
pub open spec fn spec_panel_texts(sel: MainTabs) -> Seq<Seq<char>> {
    match sel {
        MainTabs::Explore => spec_explore_texts(),
        MainTabs::Tuning => spec_tuning_texts(),
    }
}

/// The rectangle left below the tab strip.
pub open spec fn spec_main_rest<'a>(rect: Rect, v: Visuals<'a>) -> Rect {
    Canvas::spec_cut_top_rest(rect, clamp_i32(v.font.height * v.text_size) as i32)
}

/// The rectangle the accidentals table is centered into: thirty-eight
/// cells wide, three lines tall, centered below the strip.
pub open spec fn spec_explore_inner<'a>(rect: Rect, v: Visuals<'a>) -> Rect {
    Canvas::spec_centered(
        spec_main_rest(rect, v),
        clamp_i32(38 * clamp_i32(v.font.width * v.text_size)) as i32,
        clamp_i32(clamp_i32(v.font.height * v.text_size) * 3) as i32,
    )
}

/// The rectangle the selected panel's first row starts in.
pub open spec fn spec_panel_rect<'a>(rect: Rect, v: Visuals<'a>, sel: MainTabs) -> Rect {
    match sel {
        MainTabs::Explore => spec_explore_inner(rect, v),
        MainTabs::Tuning => spec_main_rest(rect, v),
    }
}

/// The machine limits under which a frame's pixels are pinned: every tab
/// label and every panel row stays within the integer bounds at its own
/// rectangle.
pub open spec fn spec_main_fits<'a>(
    v: Visuals<'a>,
    rect: Rect,
    cursor: Option<(i32, i32)>,
    left: bool,
    sel: MainTabs,
) -> bool {
    let strip = spec_tab_strip(rect, v);
    let wh = Canvas::spec_tab_size(strip, CutDir::Horizontal, 2);
    let sel1 = spec_main_select(rect, v, cursor, left, sel);
    Canvas::spec_tabs_fits(
        (Visuals { dir: CutDir::Horizontal, ..v }),
        MainTabs::spec_variants(),
        strip,
        wh.0,
        wh.1,
        0,
    ) && spec_texts_fits(
        (Visuals { dir: CutDir::Vertical, ..v }),
        spec_panel_rect(rect, v, sel1),
        spec_panel_texts(sel1),
        0,
    )
}

/// The buffer after one frame of the demo panel: the tab strip rendered
/// over the top strip, then the selected panel's rows rendered below.
pub open spec fn spec_main_buf<'a>(
    v: Visuals<'a>,
    rect: Rect,
    cursor: Option<(i32, i32)>,
    left: bool,
    sel: MainTabs,
    buf: Seq<Color>,
    bw: int,
) -> Seq<Color> {
    let strip = spec_tab_strip(rect, v);
    let wh = Canvas::spec_tab_size(strip, CutDir::Horizontal, 2);
    let after_strip = Canvas::spec_tabs_pass(
        (Visuals { dir: CutDir::Horizontal, ..v }),
        MainTabs::spec_variants(),
        strip,
        wh.0,
        wh.1,
        cursor,
        left,
        left && spec_cursor_in(cursor, strip),
        sel,
        buf,
        bw,
        0,
    ).1;
    let sel1 = spec_main_select(rect, v, cursor, left, sel);
    spec_texts_buf(
        (Visuals { dir: CutDir::Vertical, ..v }),
        spec_panel_rect(rect, v, sel1),
        spec_panel_texts(sel1),
        after_strip,
        bw,
        0,
    )
}

/// The current rectangle after one frame of the demo panel.
pub open spec fn spec_main_rect<'a>(
    v: Visuals<'a>,
    rect: Rect,
    cursor: Option<(i32, i32)>,
    left: bool,
    sel: MainTabs,
) -> Rect {
    let sel1 = spec_main_select(rect, v, cursor, left, sel);
    match sel1 {
        MainTabs::Explore => spec_main_rest(rect, v),
        MainTabs::Tuning => spec_texts_rect(
            (Visuals { dir: CutDir::Vertical, ..v }),
            spec_main_rest(rect, v),
            spec_tuning_texts(),
            0,
        ),
    }
}

impl Main {
    /// Draws one frame: the strip of the full width and one line height is
    /// carved off the top and divided between the two tabs; a held left
    /// click over a tab's sub-rectangle moves the selection there; the
    /// selected panel fills the rest.
    pub fn draw(&mut self, canvas: &mut Canvas)
        requires
            old(canvas).wf(),
        ensures
            final(canvas).wf(),
            final(canvas).pix.same_shape(old(canvas).pix),
            final(canvas).events == old(canvas).events,
            final(canvas).visuals == (Visuals {
                dir: CutDir::Vertical,
                ..old(canvas).visuals
            }),
            final(self).tab == spec_main_select(
                old(canvas).rect,
                old(canvas).visuals,
                old(canvas).events.cursor,
                old(canvas).events.mouse_left,
                old(self).tab,
            ),
            final(canvas).rect == spec_main_rect(
                old(canvas).visuals,
                old(canvas).rect,
                old(canvas).events.cursor,
                old(canvas).events.mouse_left,
                old(self).tab,
            ),
            spec_main_fits(
                old(canvas).visuals,
                old(canvas).rect,
                old(canvas).events.cursor,
                old(canvas).events.mouse_left,
                old(self).tab,
            ) ==> final(canvas).pix.buf@ == spec_main_buf(
                old(canvas).visuals,
                old(canvas).rect,
                old(canvas).events.cursor,
                old(canvas).events.mouse_left,
                old(self).tab,
                old(canvas).pix.buf@,
                old(canvas).pix.width as int,
            ),
    {
        let ghost v0 = canvas.visuals;
        let ghost rect0 = canvas.rect;
        let ghost cursor0 = canvas.events.cursor;
        let ghost left0 = canvas.events.mouse_left;
        let ghost tab0 = self.tab;
        let ghost bin = canvas.pix.buf@;
        let ghost bw = canvas.pix.width as int;
        let ghost mfits = spec_main_fits(v0, rect0, cursor0, left0, tab0);
        canvas.visuals.dir = CutDir::Vertical;
        let fh = canvas.visuals.font_height();
        let scope = canvas.cut_top(fh);
        proof {
            assert(canvas.rect == spec_tab_strip(rect0, v0));
            assert(scope.rect == spec_main_rest(rect0, v0));
        }
        canvas.visuals.dir = CutDir::Horizontal;
        canvas.tabs(&mut self.tab);
        let ghost bstrip = canvas.pix.buf@;
        let ghost sel1 = spec_main_select(rect0, v0, cursor0, left0, tab0);
        proof {
            assert(self.tab == sel1);
            if mfits {
                assert(bstrip == Canvas::spec_tabs_pass(
                    (Visuals { dir: CutDir::Horizontal, ..v0 }),
                    MainTabs::spec_variants(),
                    spec_tab_strip(rect0, v0),
                    Canvas::spec_tab_size(spec_tab_strip(rect0, v0), CutDir::Horizontal, 2).0,
                    Canvas::spec_tab_size(spec_tab_strip(rect0, v0), CutDir::Horizontal, 2).1,
                    cursor0,
                    left0,
                    left0 && spec_cursor_in(cursor0, spec_tab_strip(rect0, v0)),
                    tab0,
                    bin,
                    bw,
                    0,
                ).1);
            }
        }
        canvas.restore(scope);
        let ghost vv = canvas.visuals;
        proof {
            assert(vv == (Visuals { dir: CutDir::Vertical, ..v0 }));
            assert(canvas.rect == spec_main_rest(rect0, v0));
        }
        match self.tab {
            MainTabs::Explore => {
                let ghost texts = spec_explore_texts();
                let fw = canvas.visuals.font_width();
                let fh2 = canvas.visuals.font_height();
                let w = clamp_to_i32(38 * (fw as i64));
                let h = clamp_to_i32((fh2 as i64) * 3);
                let inner = canvas.center(w, h);
                proof {
                    assert(canvas.rect == spec_explore_inner(rect0, v0));
                    assert(canvas.rect == spec_panel_rect(rect0, v0, sel1));
                }
                let ghost r0g = canvas.rect;
                let ghost b0g = canvas.pix.buf@;
                let t0 = explore_roots();
                canvas.text(&t0);
                let ghost r1g = canvas.rect;
                let ghost b1g = canvas.pix.buf@;
                let t1 = explore_sevenths();
                canvas.text(&t1);
                let ghost r2g = canvas.rect;
                let ghost b2g = canvas.pix.buf@;
                let t2 = explore_minors();
                canvas.text(&t2);
                proof {
                    assert(texts[0] == t0@ && texts[1] == t1@ && texts[2] == t2@);
                    if mfits {
                        assert(spec_texts_fits(vv, r0g, texts, 0));
                        assert(spec_text_fits(vv, r0g, texts[0]));
                        assert(spec_texts_fits(vv, r1g, texts, 1));
                        assert(spec_texts_buf(vv, r0g, texts, b0g, bw, 0) == spec_texts_buf(vv, r1g, texts, b1g, bw, 1));
                        assert(spec_text_fits(vv, r1g, texts[1]));
                        assert(spec_texts_fits(vv, r2g, texts, 2));
                        assert(spec_texts_buf(vv, r1g, texts, b1g, bw, 1) == spec_texts_buf(vv, r2g, texts, b2g, bw, 2));
                        assert(spec_text_fits(vv, r2g, texts[2]));
                        assert(spec_texts_buf(vv, r2g, texts, b2g, bw, 2) == spec_texts_buf(vv, canvas.rect, texts, canvas.pix.buf@, bw, 3));
                        assert(canvas.pix.buf@ == spec_main_buf(v0, rect0, cursor0, left0, tab0, bin, bw));
                    }
                }
                canvas.restore(inner);
                proof {
                    assert(canvas.rect == spec_main_rect(v0, rect0, cursor0, left0, tab0));
                }
            },
            MainTabs::Tuning => {
                let ghost texts = spec_tuning_texts();
                proof {
                    assert(canvas.rect == spec_panel_rect(rect0, v0, sel1));
                }
                let ghost r0g = canvas.rect;
                let ghost b0g = canvas.pix.buf@;
                let t0 = tuning_c();
                canvas.text(&t0);
                let ghost r1g = canvas.rect;
                let ghost b1g = canvas.pix.buf@;
                let t1 = tuning_d();
                canvas.text(&t1);
                let ghost r2g = canvas.rect;
                let ghost b2g = canvas.pix.buf@;
                let t2 = tuning_e();
                canvas.text(&t2);
                let ghost r3g = canvas.rect;
                let ghost b3g = canvas.pix.buf@;
                let t3 = tuning_f();
                canvas.text(&t3);
                let ghost r4g = canvas.rect;
                let ghost b4g = canvas.pix.buf@;
                let t4 = tuning_g();
                canvas.text(&t4);
                let ghost r5g = canvas.rect;
                let ghost b5g = canvas.pix.buf@;
                let t5 = tuning_a();
                canvas.text(&t5);
                let ghost r6g = canvas.rect;
                let ghost b6g = canvas.pix.buf@;
                let t6 = tuning_b();
                canvas.text(&t6);
                proof {
                    assert(texts[0] == t0@ && texts[1] == t1@ && texts[2] == t2@ && texts[3] == t3@ && texts[4] == t4@ && texts[5] == t5@ && texts[6] == t6@);
                    assert(spec_texts_rect(vv, r0g, texts, 0) == spec_texts_rect(vv, r1g, texts, 1));
                    assert(spec_texts_rect(vv, r1g, texts, 1) == spec_texts_rect(vv, r2g, texts, 2));
                    assert(spec_texts_rect(vv, r2g, texts, 2) == spec_texts_rect(vv, r3g, texts, 3));
                    assert(spec_texts_rect(vv, r3g, texts, 3) == spec_texts_rect(vv, r4g, texts, 4));
                    assert(spec_texts_rect(vv, r4g, texts, 4) == spec_texts_rect(vv, r5g, texts, 5));
                    assert(spec_texts_rect(vv, r5g, texts, 5) == spec_texts_rect(vv, r6g, texts, 6));
                    assert(spec_texts_rect(vv, r6g, texts, 6) == spec_texts_rect(vv, canvas.rect, texts, 7));
                    assert(canvas.rect == spec_main_rect(v0, rect0, cursor0, left0, tab0));
                    if mfits {
                        assert(spec_texts_fits(vv, r0g, texts, 0));
                        assert(spec_text_fits(vv, r0g, texts[0]));
                        assert(spec_texts_fits(vv, r1g, texts, 1));
                        assert(spec_texts_buf(vv, r0g, texts, b0g, bw, 0) == spec_texts_buf(vv, r1g, texts, b1g, bw, 1));
                        assert(spec_text_fits(vv, r1g, texts[1]));
                        assert(spec_texts_fits(vv, r2g, texts, 2));
                        assert(spec_texts_buf(vv, r1g, texts, b1g, bw, 1) == spec_texts_buf(vv, r2g, texts, b2g, bw, 2));
                        assert(spec_text_fits(vv, r2g, texts[2]));
                        assert(spec_texts_fits(vv, r3g, texts, 3));
                        assert(spec_texts_buf(vv, r2g, texts, b2g, bw, 2) == spec_texts_buf(vv, r3g, texts, b3g, bw, 3));
                        assert(spec_text_fits(vv, r3g, texts[3]));
                        assert(spec_texts_fits(vv, r4g, texts, 4));
                        assert(spec_texts_buf(vv, r3g, texts, b3g, bw, 3) == spec_texts_buf(vv, r4g, texts, b4g, bw, 4));
                        assert(spec_text_fits(vv, r4g, texts[4]));
                        assert(spec_texts_fits(vv, r5g, texts, 5));
                        assert(spec_texts_buf(vv, r4g, texts, b4g, bw, 4) == spec_texts_buf(vv, r5g, texts, b5g, bw, 5));
                        assert(spec_text_fits(vv, r5g, texts[5]));
                        assert(spec_texts_fits(vv, r6g, texts, 6));
                        assert(spec_texts_buf(vv, r5g, texts, b5g, bw, 5) == spec_texts_buf(vv, r6g, texts, b6g, bw, 6));
                        assert(spec_text_fits(vv, r6g, texts[6]));
                        assert(spec_texts_fits(vv, canvas.rect, texts, 7));
                        assert(spec_texts_buf(vv, r6g, texts, b6g, bw, 6) == spec_texts_buf(vv, canvas.rect, texts, canvas.pix.buf@, bw, 7));
                        assert(canvas.pix.buf@ == spec_main_buf(v0, rect0, cursor0, left0, tab0, bin, bw));
                    }
                }
            },
        }
    }
}

impl Widget for Main {
    /// Draws one frame of the demo panel, moving the tab selection exactly
    /// as the inherent `Main::draw` states.
    fn draw(&mut self, canvas: &mut Canvas)
        ensures
            final(canvas).visuals == (Visuals { dir: CutDir::Vertical, ..old(canvas).visuals }),
            final(self).tab == spec_main_select(
                old(canvas).rect,
                old(canvas).visuals,
                old(canvas).events.cursor,
                old(canvas).events.mouse_left,
                old(self).tab,
            ),
            final(canvas).rect == spec_main_rect(
                old(canvas).visuals,
                old(canvas).rect,
                old(canvas).events.cursor,
                old(canvas).events.mouse_left,
                old(self).tab,
            ),
            spec_main_fits(
                old(canvas).visuals,
                old(canvas).rect,
                old(canvas).events.cursor,
                old(canvas).events.mouse_left,
                old(self).tab,
            ) ==> final(canvas).pix.buf@ == spec_main_buf(
                old(canvas).visuals,
                old(canvas).rect,
                old(canvas).events.cursor,
                old(canvas).events.mouse_left,
                old(self).tab,
                old(canvas).pix.buf@,
                old(canvas).pix.width as int,
            ),
    {
        Main::draw(self, canvas)
    }
}

} // verus!

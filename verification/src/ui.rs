//! The dialog renderer and interaction engine.
//!
//! `Ui` is pure and connection-agnostic: it computes the layout (icon
//! placement, wrapped text, button geometry) from its inputs, owns the pixel
//! canvas, tracks hover/press state, turns input events into an optional
//! final [`Answer`], and repaints on demand. Identical inputs always produce
//! the identical layout: every layout quantity is a specification function
//! of the inputs alone.

use crate::canvas::{all_premul, blitted, is_premul, lemma_opaque_premul, painted, Canvas, Rect};
use crate::wrap::{views_of, wrap_spec, wrap_text};
use crate::{Answer, MouseButton, Theme, WindowEvent};
use vstd::prelude::*;

verus! {

/// Width of one rendered glyph cell, in pixels.
pub const GLYPH_W: u32 = 8;

/// Height of one rendered text line, in pixels.
pub const GLYPH_H: u32 = 16;

/// Outer margin around the dialog content.
pub const MARGIN: u32 = 16;

/// Gap between the icon and the text block.
pub const ICON_GAP: u32 = 12;

/// Height of a button.
pub const BTN_H: u32 = 24;

/// Horizontal padding inside a button, each side.
pub const BTN_PAD: u32 = 12;

/// Gap between two buttons.
pub const BTN_GAP: u32 = 8;

/// Gap between the content area and the button row.
pub const ROW_GAP: u32 = 16;

/// Maximum text columns a line is wrapped to.
pub const MAX_COLS: usize = 60;

/// At most this many wrapped lines are drawn.
pub const MAX_SHOWN_LINES: u32 = 64;

/// At most this many columns of one line are drawn.
pub const MAX_LINE_COLS: u32 = 120;

/// A decoded, premultiplied-ARGB icon bitmap, row-major.
pub struct Bitmap {
    pub width: u32,
    pub height: u32,
    pub data: Vec<u32>,
}

impl Bitmap {
    /// Well-formed: dimensions are small and positive and the pixel data is
    /// complete and premultiplied.
    pub open spec fn wf(self) -> bool {
        &&& self.data@.len() == self.width as int * self.height as int
        &&& 1 <= self.width <= 512
        &&& 1 <= self.height <= 512
        &&& all_premul(self.data@)
    }
}

/// One dialog button: its rectangle and its label bytes.
pub struct Button {
    pub rect: Rect,
    pub label: Vec<u8>,
}

/// The number of drawn lines: all of them, capped.
pub open spec fn shown_lines(lines: Seq<Seq<u8>>) -> int {
    if lines.len() <= MAX_SHOWN_LINES {
        lines.len() as int
    } else {
        MAX_SHOWN_LINES as int
    }
}

/// The number of drawn columns of one line: its length, capped.
pub open spec fn line_cols(l: Seq<u8>) -> int {
    if l.len() <= MAX_LINE_COLS {
        l.len() as int
    } else {
        MAX_LINE_COLS as int
    }
}

/// The widest drawn line among the first `n`.
pub open spec fn max_cols_upto(lines: Seq<Seq<u8>>, n: int) -> int
    decreases n,
{
    if n <= 0 {
        0
    } else {
        let rest = max_cols_upto(lines, n - 1);
        if line_cols(lines[n - 1]) > rest {
            line_cols(lines[n - 1])
        } else {
            rest
        }
    }
}

pub proof fn lemma_max_cols_bounds(lines: Seq<Seq<u8>>, n: int)
    ensures
        0 <= max_cols_upto(lines, n) <= MAX_LINE_COLS,
        forall|t: int| 0 <= t < n ==> line_cols(lines[t]) <= max_cols_upto(lines, n),
    decreases n,
{
    if n > 0 {
        lemma_max_cols_bounds(lines, n - 1);
    }
}

/// Pixel width of the text block.
pub open spec fn text_w(lines: Seq<Seq<u8>>) -> int {
    max_cols_upto(lines, shown_lines(lines)) * GLYPH_W as int
}

/// Pixel height of the text block.
pub open spec fn text_h(lines: Seq<Seq<u8>>) -> int {
    shown_lines(lines) * GLYPH_H as int
}

/// Pixel width of a button with the given label.
pub open spec fn btn_w(label: Seq<u8>) -> int {
    label.len() * GLYPH_W as int + 2 * BTN_PAD as int
}

/// Horizontal offset of button `i` from the start of the button row.
pub open spec fn btn_off(labels: Seq<Seq<u8>>, i: int) -> int
    decreases i,
{
    if i <= 0 {
        0
    } else {
        btn_off(labels, i - 1) + btn_w(labels[i - 1]) + BTN_GAP as int
    }
}

/// Pixel width of the whole button row.
pub open spec fn btns_w(labels: Seq<Seq<u8>>) -> int {
    if labels.len() == 0 {
        0
    } else {
        btn_off(labels, labels.len() as int) - BTN_GAP as int
    }
}

pub proof fn lemma_btn_off_mono(labels: Seq<Seq<u8>>, i: int, j: int)
    requires
        0 <= i <= j,
    ensures
        btn_off(labels, i) <= btn_off(labels, j),
    decreases j - i,
{
    if i < j {
        lemma_btn_off_mono(labels, i, j - 1);
    }
}

pub proof fn lemma_btn_off_bounds(labels: Seq<Seq<u8>>, i: int)
    requires
        0 <= i <= labels.len(),
        forall|j: int| 0 <= j < labels.len() ==> labels[j].len() <= 64,
    ensures
        0 <= btn_off(labels, i) <= i * 544,
    decreases i,
{
    if i > 0 {
        lemma_btn_off_bounds(labels, i - 1);
        assert((i - 1) * 544 + 544 == i * 544) by (nonlinear_arith);
    }
}

/// Pixel width of the content row (icon beside text).
pub open spec fn content_w(icon_w: int, lines: Seq<Seq<u8>>) -> int {
    icon_w + ICON_GAP as int + text_w(lines)
}

/// Pixel height of the content row.
pub open spec fn content_h(icon_h: int, lines: Seq<Seq<u8>>) -> int {
    if icon_h >= text_h(lines) {
        icon_h
    } else {
        text_h(lines)
    }
}

/// Pixel width of the whole dialog canvas.
pub open spec fn dlg_w(icon_w: int, lines: Seq<Seq<u8>>, labels: Seq<Seq<u8>>) -> int {
    MARGIN as int + (if content_w(icon_w, lines) >= btns_w(labels) {
        content_w(icon_w, lines)
    } else {
        btns_w(labels)
    }) + MARGIN as int
}

/// Pixel height of the whole dialog canvas.
pub open spec fn dlg_h(icon_h: int, lines: Seq<Seq<u8>>) -> int {
    MARGIN as int + content_h(icon_h, lines) + ROW_GAP as int + BTN_H as int + MARGIN as int
}

/// The y coordinate of the button row.
pub open spec fn btn_row_y(icon_h: int, lines: Seq<Seq<u8>>) -> int {
    MARGIN as int + content_h(icon_h, lines) + ROW_GAP as int
}

/// The rectangle of button `i`.
pub open spec fn btn_rect(
    icon_w: int,
    icon_h: int,
    lines: Seq<Seq<u8>>,
    labels: Seq<Seq<u8>>,
    i: int,
) -> Rect {
    Rect {
        x: (dlg_w(icon_w, lines, labels) - MARGIN as int - btns_w(labels) + btn_off(
            labels,
            i,
        )) as u32,
        y: btn_row_y(icon_h, lines) as u32,
        w: btn_w(labels[i]) as u32,
        h: BTN_H,
    }
}

/// The first button rectangle (in index order) that contains `(x, y)`.
pub open spec fn hit_from(bs: Seq<Button>, i: int, x: int, y: int) -> Option<usize>
    decreases bs.len() - i,
{
    if i < 0 || i >= bs.len() {
        None
    } else if bs[i].rect.spec_contains(x, y) {
        Some(i as usize)
    } else {
        hit_from(bs, i + 1, x, y)
    }
}

/// The button under `(x, y)`, if any.
pub open spec fn spec_hit(bs: Seq<Button>, x: int, y: int) -> Option<usize> {
    hit_from(bs, 0, x, y)
}

/// Button rectangles are laid out strictly left to right with a gap.
pub open spec fn buttons_ordered(bs: Seq<Button>) -> bool {
    forall|i: int|
        0 <= i && i + 1 < bs.len() ==> #[trigger] bs[i].rect.x + bs[i].rect.w < bs[i + 1].rect.x
}

/// Every button rect lies inside a `w` × `h` canvas.
pub open spec fn buttons_inside(bs: Seq<Button>, w: int, h: int) -> bool {
    forall|i: int|
        0 <= i < bs.len() ==> (#[trigger] bs[i].rect.x + bs[i].rect.w <= w && bs[i].rect.y
            + bs[i].rect.h <= h && bs[i].label@.len() <= 64 && bs[i].rect.w == btn_w(bs[i].label@)
            && bs[i].rect.h == BTN_H)
}

/// Distinct button rectangles never overlap: at most one contains any point.
pub proof fn lemma_hit_exclusive(bs: Seq<Button>, i: int, j: int, x: int, y: int)
    requires
        buttons_ordered(bs),
        0 <= i < j < bs.len(),
        bs[i].rect.spec_contains(x, y),
    ensures
        !bs[j].rect.spec_contains(x, y),
{
    lemma_hit_found(bs, i, j, x, y);
}

/// Helper: the rect order makes x coordinates increase with the index.
proof fn lemma_hit_found(bs: Seq<Button>, i: int, j: int, x: int, y: int)
    requires
        buttons_ordered(bs),
        0 <= i < j < bs.len(),
    ensures
        bs[i].rect.x + bs[i].rect.w <= bs[j].rect.x,
    decreases j - i,
{
    if i + 1 < j {
        lemma_hit_found(bs, i + 1, j, x, y);
    }
}

/// The dialog background color.
pub open spec fn bg_color(theme: Theme) -> u32 {
    match theme {
        Theme::Light => 0xFFF2F2F2u32,
        Theme::Dark => 0xFF202020u32,
    }
}

/// The text color.
pub open spec fn text_color(theme: Theme) -> u32 {
    match theme {
        Theme::Light => 0xFF101010u32,
        Theme::Dark => 0xFFE6E6E6u32,
    }
}

/// The fill color of button `i`, distinguishing pressed and hovered buttons.
pub open spec fn button_fill(
    theme: Theme,
    hovered: Option<usize>,
    pressed: Option<usize>,
    i: int,
) -> u32 {
    if pressed == Some(i as usize) {
        match theme {
            Theme::Light => 0xFFAAAACCu32,
            Theme::Dark => 0xFF5A5A6Eu32,
        }
    } else if hovered == Some(i as usize) {
        match theme {
            Theme::Light => 0xFFC8C8DCu32,
            Theme::Dark => 0xFF4A4A5Au32,
        }
    } else {
        match theme {
            Theme::Light => 0xFFDDDDDDu32,
            Theme::Dark => 0xFF3A3A3Au32,
        }
    }
}

/// Every palette color is fully opaque, hence premultiplied.
pub proof fn lemma_palette_premul(theme: Theme, hovered: Option<usize>, pressed: Option<usize>, i: int)
    ensures
        is_premul(bg_color(theme)),
        is_premul(text_color(theme)),
        is_premul(button_fill(theme, hovered, pressed, i)),
{
    assert(0xFFF2F2F2u32 >> 24 == 0xffu32) by (bit_vector);
    assert(0xFF202020u32 >> 24 == 0xffu32) by (bit_vector);
    assert(0xFF101010u32 >> 24 == 0xffu32) by (bit_vector);
    assert(0xFFE6E6E6u32 >> 24 == 0xffu32) by (bit_vector);
    assert(0xFFAAAACCu32 >> 24 == 0xffu32) by (bit_vector);
    assert(0xFF5A5A6Eu32 >> 24 == 0xffu32) by (bit_vector);
    assert(0xFFC8C8DCu32 >> 24 == 0xffu32) by (bit_vector);
    assert(0xFF4A4A5Au32 >> 24 == 0xffu32) by (bit_vector);
    assert(0xFFDDDDDDu32 >> 24 == 0xffu32) by (bit_vector);
    assert(0xFF3A3A3Au32 >> 24 == 0xffu32) by (bit_vector);
    lemma_opaque_premul(bg_color(theme));
    lemma_opaque_premul(text_color(theme));
    lemma_opaque_premul(button_fill(theme, hovered, pressed, i));
}

/// Where the icon is placed.
pub open spec fn icon_rect(icon: Bitmap) -> Rect {
    Rect { x: MARGIN, y: MARGIN, w: icon.width, h: icon.height }
}

/// The x coordinate of the text block.
pub open spec fn text_x(icon: Bitmap) -> int {
    MARGIN as int + icon.width + ICON_GAP as int
}

/// The rectangle in which line `t` is drawn.
pub open spec fn line_rect(icon: Bitmap, l: Seq<u8>, t: int) -> Rect {
    Rect {
        x: text_x(icon) as u32,
        y: (MARGIN as int + t * GLYPH_H as int + 2) as u32,
        w: (line_cols(l) * GLYPH_W as int) as u32,
        h: (GLYPH_H - 4) as u32,
    }
}

/// The rectangle in which a button's label block is drawn.
pub open spec fn label_rect(b: Button) -> Rect {
    Rect {
        x: (b.rect.x + BTN_PAD) as u32,
        y: (b.rect.y + 6) as u32,
        w: (b.label@.len() * GLYPH_W as int) as u32,
        h: 12u32,
    }
}

/// The base buffer with the first `n` text lines drawn.
pub open spec fn lines_drawn(
    base: Seq<u32>,
    w: int,
    icon: Bitmap,
    lines: Seq<Seq<u8>>,
    n: int,
    theme: Theme,
) -> Seq<u32>
    decreases n,
{
    if n <= 0 {
        base
    } else {
        painted(
            lines_drawn(base, w, icon, lines, n - 1, theme),
            w,
            line_rect(icon, lines[n - 1], n - 1),
            text_color(theme),
        )
    }
}

/// The base buffer with the first `n` buttons drawn.
pub open spec fn buttons_drawn(
    base: Seq<u32>,
    w: int,
    bs: Seq<Button>,
    n: int,
    theme: Theme,
    hovered: Option<usize>,
    pressed: Option<usize>,
) -> Seq<u32>
    decreases n,
{
    if n <= 0 {
        base
    } else {
        painted(
            painted(
                buttons_drawn(base, w, bs, n - 1, theme, hovered, pressed),
                w,
                bs[n - 1].rect,
                button_fill(theme, hovered, pressed, n - 1),
            ),
            w,
            label_rect(bs[n - 1]),
            text_color(theme),
        )
    }
}

/// The fully rendered pixel buffer for the given dialog state.
pub open spec fn render_pixels(
    w: int,
    h: int,
    theme: Theme,
    icon: Bitmap,
    lines: Seq<Seq<u8>>,
    bs: Seq<Button>,
    hovered: Option<usize>,
    pressed: Option<usize>,
) -> Seq<u32> {
    let bg = Seq::new((w * h) as nat, |k: int| bg_color(theme));
    let with_icon = blitted(bg, w, icon_rect(icon), icon.data@);
    let with_text = lines_drawn(with_icon, w, icon, lines, shown_lines(lines), theme);
    buttons_drawn(with_text, w, bs, bs.len() as int, theme, hovered, pressed)
}

/// The geometric constraints painting needs: everything drawn lies inside
/// the `w` × `h` canvas.
pub open spec fn geom_ok(w: int, h: int, icon: Bitmap, lines: Seq<Seq<u8>>, bs: Seq<Button>) -> bool {
    &&& 1 <= w <= 32768
    &&& 1 <= h <= 32768
    &&& icon.wf()
    &&& MARGIN as int + icon.width <= w
    &&& MARGIN as int + icon.height <= h
    &&& text_x(icon) + text_w(lines) <= w
    &&& MARGIN as int + text_h(lines) <= h
    &&& buttons_ordered(bs)
    &&& buttons_inside(bs, w, h)
}

/// A hit found by `hit_from` is a real button index whose rect contains the
/// point.
pub proof fn lemma_hit_in_range(bs: Seq<Button>, i: int, x: int, y: int)
    requires
        bs.len() <= usize::MAX,
    ensures
        match hit_from(bs, i, x, y) {
            Some(j) => i <= j < bs.len() && bs[j as int].rect.spec_contains(x, y),
            None => true,
        },
    decreases bs.len() - i,
{
    if 0 <= i < bs.len() && !bs[i].rect.spec_contains(x, y) {
        lemma_hit_in_range(bs, i + 1, x, y);
    }
}

/// When some button contains the point, `spec_hit` finds exactly it.
pub proof fn lemma_hit_complete(bs: Seq<Button>, i: int, x: int, y: int)
    requires
        buttons_ordered(bs),
        0 <= i < bs.len(),
        bs[i].rect.spec_contains(x, y),
    ensures
        spec_hit(bs, x, y) == Some(i as usize),
{
    lemma_hit_complete_from(bs, 0, i, x, y);
}

proof fn lemma_hit_complete_from(bs: Seq<Button>, k: int, i: int, x: int, y: int)
    requires
        buttons_ordered(bs),
        0 <= k <= i < bs.len(),
        bs[i].rect.spec_contains(x, y),
    ensures
        hit_from(bs, k, x, y) == Some(i as usize),
    decreases i - k,
{
    if k < i {
        if bs[k].rect.spec_contains(x, y) {
            lemma_hit_exclusive(bs, k, i, x, y);
            assert(false);
        }
        lemma_hit_complete_from(bs, k + 1, i, x, y);
    }
}

/// Paints the full dialog into a fresh canvas.
fn render_canvas(
    w: u32,
    h: u32,
    theme: Theme,
    icon: &Bitmap,
    lines: &Vec<Vec<u8>>,
    buttons: &Vec<Button>,
    hovered: Option<usize>,
    pressed: Option<usize>,
) -> (c: Canvas)
    requires
        geom_ok(w as int, h as int, *icon, views_of(lines@), buttons@),
    ensures
        c.wf(),
        c.spec_width() == w,
        c.spec_height() == h,
        c.pixels() == render_pixels(
            w as int,
            h as int,
            theme,
            *icon,
            views_of(lines@),
            buttons@,
            hovered,
            pressed,
        ),
{
    let ghost lviews = views_of(lines@);
    proof {
        lemma_palette_premul(theme, hovered, pressed, 0);
    }
    let bgc = match theme {
        Theme::Light => 0xFFF2F2F2u32,
        Theme::Dark => 0xFF202020u32,
    };
    let txc = match theme {
        Theme::Light => 0xFF101010u32,
        Theme::Dark => 0xFFE6E6E6u32,
    };
    let mut c = Canvas::new(w, h, bgc);
    c.blit(Rect { x: MARGIN, y: MARGIN, w: icon.width, h: icon.height }, &icon.data);
    let ghost with_icon = c.pixels();
    let tx = MARGIN + icon.width + ICON_GAP;
    let shown: usize = if lines.len() <= MAX_SHOWN_LINES as usize {
        lines.len()
    } else {
        MAX_SHOWN_LINES as usize
    };
    let mut t: usize = 0;
    while t < shown
        invariant
            0 <= t <= shown,
            shown == shown_lines(lviews),
            lviews == views_of(lines@),
            geom_ok(w as int, h as int, *icon, lviews, buttons@),
            tx == text_x(*icon),
            txc == text_color(theme),
            c.wf(),
            c.spec_width() == w,
            c.spec_height() == h,
            c.pixels() == lines_drawn(with_icon, w as int, *icon, lviews, t as int, theme),
        decreases shown - t,
    {
        let l = &lines[t];
        let cols: u32 = if l.len() <= MAX_LINE_COLS as usize {
            l.len() as u32
        } else {
            MAX_LINE_COLS
        };
        proof {
            lemma_palette_premul(theme, hovered, pressed, 0);
            lemma_max_cols_bounds(lviews, shown as int);
            assert(lviews[t as int] == lines@[t as int]@);
            assert(line_cols(lviews[t as int]) <= max_cols_upto(lviews, shown as int));
            assert(line_cols(lviews[t as int]) * GLYPH_W as int <= max_cols_upto(
                lviews,
                shown as int,
            ) * GLYPH_W as int) by (nonlinear_arith)
                requires
                    line_cols(lviews[t as int]) <= max_cols_upto(lviews, shown as int),
            ;
            assert((t as int) * GLYPH_H as int + GLYPH_H as int <= shown as int
                * GLYPH_H as int) by (nonlinear_arith)
                requires
                    (t as int) < shown as int,
            ;
        }
        let rect = Rect { x: tx, y: MARGIN + (t as u32) * GLYPH_H + 2, w: cols * GLYPH_W, h: GLYPH_H
            - 4 };
        assert(rect == line_rect(*icon, lviews[t as int], t as int));
        c.fill_rect(rect, txc);
        t += 1;
    }
    let ghost with_text = c.pixels();
    let mut i: usize = 0;
    while i < buttons.len()
        invariant
            0 <= i <= buttons@.len(),
            lviews == views_of(lines@),
            geom_ok(w as int, h as int, *icon, lviews, buttons@),
            txc == text_color(theme),
            c.wf(),
            c.spec_width() == w,
            c.spec_height() == h,
            with_text == lines_drawn(
                with_icon,
                w as int,
                *icon,
                lviews,
                shown_lines(lviews),
                theme,
            ),
            c.pixels() == buttons_drawn(
                with_text,
                w as int,
                buttons@,
                i as int,
                theme,
                hovered,
                pressed,
            ),
        decreases buttons@.len() - i,
    {
        proof {
            lemma_palette_premul(theme, hovered, pressed, i as int);
        }
        let b = &buttons[i];
        let same_h = match hovered {
            Some(j) => j == i,
            None => false,
        };
        let same_p = match pressed {
            Some(j) => j == i,
            None => false,
        };
        let fill = if same_p {
            match theme {
                Theme::Light => 0xFFAAAACCu32,
                Theme::Dark => 0xFF5A5A6Eu32,
            }
        } else if same_h {
            match theme {
                Theme::Light => 0xFFC8C8DCu32,
                Theme::Dark => 0xFF4A4A5Au32,
            }
        } else {
            match theme {
                Theme::Light => 0xFFDDDDDDu32,
                Theme::Dark => 0xFF3A3A3Au32,
            }
        };
        assert(fill == button_fill(theme, hovered, pressed, i as int));
        c.fill_rect(b.rect, fill);
        let lrect = Rect {
            x: b.rect.x + BTN_PAD,
            y: b.rect.y + 6,
            w: (b.label.len() as u32) * GLYPH_W,
            h: 12,
        };
        assert(lrect == label_rect(buttons@[i as int]));
        c.fill_rect(lrect, txc);
        i += 1;
    }
    c
}

/// The dialog renderer and interaction engine.
pub struct Ui {
    pub canvas: Canvas,
    pub icon: Bitmap,
    pub theme: Theme,
    pub lines: Vec<Vec<u8>>,
    pub buttons: Vec<Button>,
    pub hovered: Option<usize>,
    pub pressed: Option<usize>,
    pub dirty: bool,
}

impl Ui {
    /// Lays out a dialog: wraps `message` to at most [`MAX_COLS`] columns,
    /// places the icon beside the text, sizes the canvas to the larger of
    /// the content row and the button row plus fixed margins, lays the
    /// buttons out left to right in label order, and paints the initial
    /// canvas. Identical inputs give identical layouts: every quantity below
    /// is a specification function of the inputs.
    #[verifier::rlimit(100)]
    pub fn new(icon: Bitmap, theme: Theme, message: &[u8], labels: Vec<Vec<u8>>) -> (r: Ui)
        requires
            icon.wf(),
            message@.len() <= 65536,
            labels@.len() <= 16,
            forall|k: int| 0 <= k < labels@.len() ==> labels@[k]@.len() <= 64,
        ensures
            r.wf(),
            r.icon == icon,
            r.theme == theme,
            views_of(r.lines@) == wrap_spec(message@, MAX_COLS as int),
            r.canvas.spec_width() == dlg_w(
                icon.width as int,
                wrap_spec(message@, MAX_COLS as int),
                views_of(labels@),
            ),
            r.canvas.spec_height() == dlg_h(icon.height as int, wrap_spec(message@, MAX_COLS as int)),
            r.buttons@.len() == labels@.len(),
            forall|i: int|
                0 <= i < labels@.len() ==> (#[trigger] r.buttons@[i]).rect == btn_rect(
                    icon.width as int,
                    icon.height as int,
                    wrap_spec(message@, MAX_COLS as int),
                    views_of(labels@),
                    i,
                ) && r.buttons@[i].label@ == labels@[i]@,
            r.hovered is None,
            r.pressed is None,
            !r.dirty,
    {
        let ghost lbls = views_of(labels@);
        let lines = wrap_text(message, MAX_COLS);
        let ghost lviews = views_of(lines@);
        let shown: usize = if lines.len() <= MAX_SHOWN_LINES as usize {
            lines.len()
        } else {
            MAX_SHOWN_LINES as usize
        };
        assert(shown == shown_lines(lviews));
        let mut mc: u32 = 0;
        let mut t: usize = 0;
        while t < shown
            invariant
                0 <= t <= shown <= lines@.len(),
                lviews == views_of(lines@),
                mc as int == max_cols_upto(lviews, t as int),
                mc <= MAX_LINE_COLS,
            decreases shown - t,
        {
            let l = &lines[t];
            let cols: u32 = if l.len() <= MAX_LINE_COLS as usize {
                l.len() as u32
            } else {
                MAX_LINE_COLS
            };
            assert(cols as int == line_cols(lviews[t as int]));
            if cols > mc {
                mc = cols;
            }
            t += 1;
        }
        let tw: u32 = mc * GLYPH_W;
        let th: u32 = (shown as u32) * GLYPH_H;
        assert(tw as int == text_w(lviews));
        assert(th as int == text_h(lviews));
        let mut off: u32 = 0;
        let mut k: usize = 0;
        while k < labels.len()
            invariant
                0 <= k <= labels@.len() <= 16,
                lbls == views_of(labels@),
                forall|j: int| 0 <= j < labels@.len() ==> labels@[j]@.len() <= 64,
                off as int == btn_off(lbls, k as int),
                off <= k * 544,
            decreases labels@.len() - k,
        {
            assert(labels@[k as int]@.len() <= 64);
            let bw: u32 = (labels[k].len() as u32) * GLYPH_W + 2 * BTN_PAD;
            assert(bw as int == btn_w(lbls[k as int]));
            proof {
                lemma_btn_off_bounds(lbls, k as int + 1);
            }
            off = off + bw + BTN_GAP;
            k += 1;
        }
        proof {
            if lbls.len() > 0 {
                lemma_btn_off_bounds(lbls, lbls.len() as int - 1);
                assert(btn_off(lbls, lbls.len() as int) == btn_off(lbls, lbls.len() - 1) + btn_w(
                    lbls[lbls.len() - 1],
                ) + BTN_GAP as int);
            }
        }
        let btw: u32 = if labels.len() == 0 {
            0
        } else {
            off - BTN_GAP
        };
        assert(btw as int == btns_w(lbls));
        assert(btw <= 16 * 544);
        let cw: u32 = icon.width + ICON_GAP + tw;
        let ch: u32 = if icon.height >= th {
            icon.height
        } else {
            th
        };
        assert(cw as int == content_w(icon.width as int, lviews));
        assert(ch as int == content_h(icon.height as int, lviews));
        let dw: u32 = MARGIN + (if cw >= btw {
            cw
        } else {
            btw
        }) + MARGIN;
        let dh: u32 = MARGIN + ch + ROW_GAP + BTN_H + MARGIN;
        assert(dw as int == dlg_w(icon.width as int, lviews, lbls));
        assert(dh as int == dlg_h(icon.height as int, lviews));
        let row_y: u32 = MARGIN + ch + ROW_GAP;
        let x0: u32 = dw - MARGIN - btw;
        let mut buttons: Vec<Button> = Vec::new();
        let mut off2: u32 = 0;
        let mut k2: usize = 0;
        while k2 < labels.len()
            invariant
                0 <= k2 <= labels@.len() <= 16,
                lbls == views_of(labels@),
                forall|j: int| 0 <= j < labels@.len() ==> labels@[j]@.len() <= 64,
                off2 as int == btn_off(lbls, k2 as int),
                off2 <= k2 * 544,
                buttons@.len() == k2,
                x0 as int == dlg_w(icon.width as int, lviews, lbls) - MARGIN - btns_w(lbls),
                row_y as int == btn_row_y(icon.height as int, lviews),
                x0 + 544 * 16 + 544 <= 0x10000,
                forall|i: int|
                    0 <= i < k2 ==> (#[trigger] buttons@[i]).rect == btn_rect(
                        icon.width as int,
                        icon.height as int,
                        lviews,
                        lbls,
                        i,
                    ) && buttons@[i].label@ == lbls[i],
            decreases labels@.len() - k2,
        {
            proof {
                lemma_btn_off_bounds(lbls, k2 as int);
            }
            assert(labels@[k2 as int]@.len() <= 64);
            let bw: u32 = (labels[k2].len() as u32) * GLYPH_W + 2 * BTN_PAD;
            let rect = Rect { x: x0 + off2, y: row_y, w: bw, h: BTN_H };
            let label = crate::wrap::copy_bytes(&labels[k2]);
            assert(rect == btn_rect(icon.width as int, icon.height as int, lviews, lbls, k2 as int));
            buttons.push(Button { rect, label });
            off2 = off2 + bw + BTN_GAP;
            k2 += 1;
        }
        proof {
            assert forall|i: int| 0 <= i && i + 1 < buttons@.len() implies #[trigger] buttons@[i].rect.x
                + buttons@[i].rect.w < buttons@[i + 1].rect.x by {
                lemma_btn_off_bounds(lbls, i);
                lemma_btn_off_bounds(lbls, i + 1);
            }
            assert forall|i: int| 0 <= i < buttons@.len() implies (#[trigger] buttons@[i].rect.x
                + buttons@[i].rect.w <= dw && buttons@[i].rect.y + buttons@[i].rect.h <= dh
                && buttons@[i].label@.len() <= 64 && buttons@[i].rect.w == btn_w(buttons@[i].label@)
                && buttons@[i].rect.h == BTN_H) by {
                lemma_btn_off_bounds(lbls, i);
                lemma_btn_off_mono(lbls, i + 1, lbls.len() as int);
                assert(btn_off(lbls, i) + btn_w(lbls[i]) + BTN_GAP == btn_off(lbls, i + 1));
            }
            assert(geom_ok(dw as int, dh as int, icon, lviews, buttons@));
        }
        let canvas = render_canvas(dw, dh, theme, &icon, &lines, &buttons, None, None);
        Ui {
            canvas,
            icon,
            theme,
            lines,
            buttons,
            hovered: None,
            pressed: None,
            dirty: false,
        }
    }

    /// The canvas pixels this state renders to.
    pub open spec fn spec_render(self) -> Seq<u32> {
        render_pixels(
            self.canvas.spec_width() as int,
            self.canvas.spec_height() as int,
            self.theme,
            self.icon,
            views_of(self.lines@),
            self.buttons@,
            self.hovered,
            self.pressed,
        )
    }

    /// Everything the interaction and painting contracts rest on: the canvas
    /// is intact, all drawn geometry lies inside it, button rectangles are
    /// disjoint and left-to-right in label order, hover/press indices refer
    /// to real buttons, and a clean canvas shows exactly the current state.
    pub open spec fn wf(self) -> bool {
        &&& self.canvas.wf()
        &&& geom_ok(
            self.canvas.spec_width() as int,
            self.canvas.spec_height() as int,
            self.icon,
            views_of(self.lines@),
            self.buttons@,
        )
        &&& match self.hovered {
            Some(i) => i < self.buttons@.len(),
            None => true,
        }
        &&& match self.pressed {
            Some(i) => i < self.buttons@.len(),
            None => true,
        }
        &&& !self.dirty ==> self.canvas.pixels() == self.spec_render()
    }

    /// The button under the cursor position, if any: the first (and, the
    /// rectangles being disjoint, the only) button rect containing it.
    pub fn hit_test(&self, px: i16, py: i16) -> (r: Option<usize>)
        ensures
            r == spec_hit(self.buttons@, px as int, py as int),
    {
        let mut i: usize = 0;
        while i < self.buttons.len()
            invariant
                0 <= i <= self.buttons@.len(),
                spec_hit(self.buttons@, px as int, py as int) == hit_from(
                    self.buttons@,
                    i as int,
                    px as int,
                    py as int,
                ),
            decreases self.buttons@.len() - i,
        {
            if self.buttons[i].rect.contains_pos(px, py) {
                return Some(i);
            }
            i += 1;
        }
        None
    }

    /// Repaints the canvas from the current state, only if it is dirty, and
    /// clears the dirty flag. Redrawing twice with unchanged state produces
    /// byte-identical canvases.
    pub fn redraw(&mut self)
        requires
            old(self).wf(),
        ensures
            final(self).wf(),
            !final(self).dirty,
            final(self).canvas.pixels() == old(self).spec_render(),
            final(self).canvas.spec_width() == old(self).canvas.spec_width(),
            final(self).canvas.spec_height() == old(self).canvas.spec_height(),
            final(self).icon == old(self).icon,
            final(self).theme == old(self).theme,
            final(self).lines == old(self).lines,
            final(self).buttons == old(self).buttons,
            final(self).hovered == old(self).hovered,
            final(self).pressed == old(self).pressed,
    {
        if self.dirty {
            let c = render_canvas(
                self.canvas.width(),
                self.canvas.height(),
                self.theme,
                &self.icon,
                &self.lines,
                &self.buttons,
                self.hovered,
                self.pressed,
            );
            self.canvas = c;
            self.dirty = false;
        }
    }

    /// Feeds one event to the dialog.
    ///
    /// Close requests always answer `Closed`, whatever the press state.
    /// Cursor events update the hovered button; a left press on a hovered
    /// button arms it; a left release on the still-hovered armed button
    /// answers with that button's index, and any other release disarms
    /// without an answer. The dirty flag is set whenever the visible state
    /// changed (and on every explicit redraw request).
    pub fn process_event(&mut self, event: WindowEvent) -> (r: Option<Answer>)
        requires
            old(self).wf(),
        ensures
            final(self).wf(),
            final(self).canvas == old(self).canvas,
            final(self).icon == old(self).icon,
            final(self).theme == old(self).theme,
            final(self).lines == old(self).lines,
            final(self).buttons == old(self).buttons,
            r == event_answer(*old(self), event),
            final(self).hovered == hovered_after(*old(self), event),
            final(self).pressed == pressed_after(*old(self), event),
            final(self).dirty == dirty_after(*old(self), event),
            *final(self) == ui_after(*old(self), event),
    {
        match event {
            WindowEvent::CloseRequested => Some(Answer::Closed),
            WindowEvent::RedrawRequested => {
                self.dirty = true;
                None
            },
            WindowEvent::CursorEnter(p) | WindowEvent::CursorMove(p) => {
                let nb = self.buttons.len();
                let h = self.hit_test(p.x, p.y);
                proof {
                    assert(self.buttons@.len() == nb);
                    lemma_hit_in_range(self.buttons@, 0, p.x as int, p.y as int);
                }
                let changed = match (h, self.hovered) {
                    (Some(a), Some(b)) => a != b,
                    (None, None) => false,
                    _ => true,
                };
                if changed {
                    self.hovered = h;
                    self.dirty = true;
                }
                None
            },
            WindowEvent::CursorLeave => {
                if self.hovered.is_some() {
                    self.hovered = None;
                    self.dirty = true;
                }
                None
            },
            WindowEvent::ButtonPress(MouseButton::Left) => {
                match self.hovered {
                    Some(i) => {
                        let changed = match self.pressed {
                            Some(j) => j != i,
                            None => true,
                        };
                        if changed {
                            self.pressed = Some(i);
                            self.dirty = true;
                        }
                    },
                    None => {},
                }
                None
            },
            WindowEvent::ButtonRelease(MouseButton::Left) => {
                let armed = match (self.pressed, self.hovered) {
                    (Some(i), Some(j)) => if i == j {
                        Some(i)
                    } else {
                        None
                    },
                    _ => None,
                };
                match armed {
                    Some(i) => Some(Answer::Button(i)),
                    None => {
                        if self.pressed.is_some() {
                            self.pressed = None;
                            self.dirty = true;
                        }
                        None
                    },
                }
            },
            _ => None,
        }
    }
}

/// The answer `process_event` returns for this state and event.
pub open spec fn event_answer(ui: Ui, event: WindowEvent) -> Option<Answer> {
    match event {
        WindowEvent::CloseRequested => Some(Answer::Closed),
        WindowEvent::ButtonRelease(MouseButton::Left) => match (ui.pressed, ui.hovered) {
            (Some(i), Some(j)) => if i == j {
                Some(Answer::Button(i))
            } else {
                None
            },
            _ => None,
        },
        _ => None,
    }
}

/// The hovered button after `process_event`.
pub open spec fn hovered_after(ui: Ui, event: WindowEvent) -> Option<usize> {
    match event {
        WindowEvent::CursorEnter(p) => spec_hit(ui.buttons@, p.x as int, p.y as int),
        WindowEvent::CursorMove(p) => spec_hit(ui.buttons@, p.x as int, p.y as int),
        WindowEvent::CursorLeave => None,
        _ => ui.hovered,
    }
}

/// The pressed button after `process_event`.
pub open spec fn pressed_after(ui: Ui, event: WindowEvent) -> Option<usize> {
    match event {
        WindowEvent::ButtonPress(MouseButton::Left) => match ui.hovered {
            Some(i) => Some(i),
            None => ui.pressed,
        },
        WindowEvent::ButtonRelease(MouseButton::Left) => match (ui.pressed, ui.hovered) {
            (Some(i), Some(j)) => if i == j {
                Some(i)
            } else {
                None
            },
            _ => None,
        },
        _ => ui.pressed,
    }
}

/// The dirty flag after `process_event`: set exactly when the visible state
/// changed or a redraw was requested.
pub open spec fn dirty_after(ui: Ui, event: WindowEvent) -> bool {
    ui.dirty || match event {
        WindowEvent::RedrawRequested => true,
        _ => hovered_after(ui, event) != ui.hovered || pressed_after(ui, event) != ui.pressed,
    }
}

/// The whole Ui state after `process_event`: only the hover, press and dirty
/// fields ever change.
pub open spec fn ui_after(ui: Ui, event: WindowEvent) -> Ui {
    Ui {
        hovered: hovered_after(ui, event),
        pressed: pressed_after(ui, event),
        dirty: dirty_after(ui, event),
        ..ui
    }
}

/// The Ui state after a whole run of events.
pub open spec fn ui_after_seq(ui: Ui, es: Seq<WindowEvent>) -> Ui
    decreases es.len(),
{
    if es.len() == 0 {
        ui
    } else {
        ui_after_seq(ui_after(ui, es[0]), es.skip(1))
    }
}

/// `u` is the dialog laid out from the given icon, message bytes and label
/// bytes: exactly what [`Ui::new`] builds.
pub open spec fn laid_out(u: Ui, icon: Bitmap, msg: Seq<u8>, labels: Seq<Seq<u8>>) -> bool {
    &&& u.icon == icon
    &&& views_of(u.lines@) == wrap_spec(msg, MAX_COLS as int)
    &&& u.canvas.spec_width() == dlg_w(icon.width as int, wrap_spec(msg, MAX_COLS as int), labels)
    &&& u.canvas.spec_height() == dlg_h(icon.height as int, wrap_spec(msg, MAX_COLS as int))
    &&& u.buttons@.len() == labels.len()
    &&& forall|i: int|
        0 <= i < labels.len() ==> (#[trigger] u.buttons@[i]).rect == btn_rect(
            icon.width as int,
            icon.height as int,
            wrap_spec(msg, MAX_COLS as int),
            labels,
            i,
        ) && u.buttons@[i].label@ == labels[i]
}

/// Layout determinism: two dialogs laid out from identical icon, message and
/// button labels have the identical canvas size and the identical button
/// rectangles.
pub proof fn lemma_layout_deterministic(
    a: Ui,
    b: Ui,
    icon: Bitmap,
    msg: Seq<u8>,
    labels: Seq<Seq<u8>>,
)
    requires
        laid_out(a, icon, msg, labels),
        laid_out(b, icon, msg, labels),
    ensures
        a.canvas.spec_width() == b.canvas.spec_width(),
        a.canvas.spec_height() == b.canvas.spec_height(),
        a.buttons@.len() == b.buttons@.len(),
        forall|i: int|
            0 <= i < a.buttons@.len() ==> (#[trigger] a.buttons@[i]).rect == b.buttons@[i].rect,
{
}

/// Premultiplication invariant: in any well-formed dialog state, every pixel
/// of the canvas has each of its red, green and blue channels at most its
/// alpha channel.
pub proof fn lemma_canvas_premul(ui: Ui)
    requires
        ui.wf(),
    ensures
        all_premul(ui.canvas.pixels()),
{
}

/// Hit-test exclusivity: for any cursor position, at most one button
/// rectangle contains it.
pub proof fn lemma_hit_test_exclusive(ui: Ui, x: int, y: int, i: int, j: int)
    requires
        ui.wf(),
        0 <= i < ui.buttons@.len(),
        0 <= j < ui.buttons@.len(),
        i != j,
        ui.buttons@[i].rect.spec_contains(x, y),
    ensures
        !ui.buttons@[j].rect.spec_contains(x, y),
{
    if i < j {
        lemma_hit_exclusive(ui.buttons@, i, j, x, y);
    } else {
        if ui.buttons@[j].rect.spec_contains(x, y) {
            lemma_hit_exclusive(ui.buttons@, j, i, x, y);
        }
    }
}

/// Pressing and releasing the left button with the cursor inside button `i`
/// answers `Button(i)`, with `i` the button's position in the label order.
pub proof fn lemma_press_release_answers(ui: Ui, p: crate::CursorPos, i: int)
    requires
        ui.wf(),
        ui.buttons@.len() <= usize::MAX,
        0 <= i < ui.buttons@.len(),
        ui.buttons@[i].rect.spec_contains(p.x as int, p.y as int),
    ensures
        ({
            let moved = ui_after(ui, WindowEvent::CursorMove(p));
            let pressed = ui_after(moved, WindowEvent::ButtonPress(MouseButton::Left));
            event_answer(pressed, WindowEvent::ButtonRelease(MouseButton::Left)) == Some(
                Answer::Button(i as usize),
            )
        }),
{
    lemma_hit_complete(ui.buttons@, i, p.x as int, p.y as int);
}

/// Redraw coalescing: what the canvas shows after a batch of events and one
/// repaint depends only on the events, not on how many repaints happened in
/// between — repainting mid-batch (which only replaces the canvas) cannot
/// change the final picture.
pub proof fn lemma_redraw_coalesces(u1: Ui, u2: Ui, es: Seq<WindowEvent>)
    requires
        u1.icon == u2.icon,
        u1.theme == u2.theme,
        u1.lines == u2.lines,
        u1.buttons == u2.buttons,
        u1.hovered == u2.hovered,
        u1.pressed == u2.pressed,
        u1.canvas.spec_width() == u2.canvas.spec_width(),
        u1.canvas.spec_height() == u2.canvas.spec_height(),
    ensures
        ui_after_seq(u1, es).spec_render() == ui_after_seq(u2, es).spec_render(),
    decreases es.len(),
{
    if es.len() == 0 {
    } else {
        lemma_redraw_coalesces(ui_after(u1, es[0]), ui_after(u2, es[0]), es.skip(1));
    }
}

} // verus!

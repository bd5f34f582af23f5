//! What the screens show: the decisions behind each panel, and the panels
//! drawn cell by cell.

use vstd::prelude::*;

use ratatui::buffer::Buffer;

use crate::animations::{anim_fg, anim_name, anim_tagline, metas, COUNT};
use crate::runner::{LogKind, PHASE_COUNT};
use crate::state::{toggled, App, InstallStatus, Options, OPTION_ROWS};
use crate::text::{chars_of, concat, prefix_chars, push_char};
use crate::theme::{
    buffer_area, buffer_cells, buffer_ok, cell_index, lemma_cell_index, painted, put, put_target,
    set_string,
    string_cell, fill, Palette, Rect, Rgb,
};

verus! {

// ---------------------------------------------------------------------------
// Phase list
// ---------------------------------------------------------------------------

/// The phases listed in a panel `rows` lines high: a window of at most
/// `rows` phases that keeps the current one (the clamped `phase_idx`) in its
/// upper half where possible. Returns `(start, end)`.
pub fn phase_window(phase_idx: usize, rows: usize) -> (r: (usize, usize))
    ensures
        ({
            let current = if phase_idx < PHASE_COUNT - 1 {
                phase_idx as int
            } else {
                PHASE_COUNT - 1
            };
            let start = if current >= rows / 2 {
                current - rows / 2
            } else {
                0
            };
            let end = if start + rows < PHASE_COUNT {
                start + rows
            } else {
                PHASE_COUNT as int
            };
            r.0 == start && r.1 == end
        }),
        r.0 <= r.1 <= PHASE_COUNT,
{
    let total = PHASE_COUNT;
    let current = if phase_idx < total - 1 {
        phase_idx
    } else {
        total - 1
    };
    let half = rows / 2;
    let start = if current >= half {
        current - half
    } else {
        0
    };
    let end = if rows < total - start {
        start + rows
    } else {
        total
    };
    (start, end)
}

/// How a phase is marked in the list: its symbol, colour and whether bold.
#[derive(Clone, Copy, Debug, PartialEq, Eq, Structural)]
pub struct PhaseMark {
    pub symbol: char,
    pub color: Palette,
    pub bold: bool,
}

/// The mark of phase `i` when `current` is the current phase: done phases
/// are ticked, the current one shows how the installation stands, later ones
/// are dimmed.
pub open spec fn phase_mark_spec(i: usize, current: usize, status: InstallStatus) -> PhaseMark {
    if i < current {
        PhaseMark { symbol: '✓', color: Palette::Green, bold: false }
    } else if i == current {
        if status == InstallStatus::Running {
            PhaseMark { symbol: '▶', color: Palette::Yellow, bold: true }
        } else if status == InstallStatus::Success {
            PhaseMark { symbol: '✓', color: Palette::Green, bold: true }
        } else {
            PhaseMark { symbol: '✘', color: Palette::Red, bold: true }
        }
    } else {
        PhaseMark { symbol: '·', color: Palette::TextDim, bold: false }
    }
}

/// The mark of phase `i` when `current` is the current phase.
pub fn phase_mark(i: usize, current: usize, status: InstallStatus) -> (m: PhaseMark)
    ensures
        m == phase_mark_spec(i, current, status),
{
    if i < current {
        PhaseMark { symbol: '✓', color: Palette::Green, bold: false }
    } else if i == current {
        if status == InstallStatus::Running {
            PhaseMark { symbol: '▶', color: Palette::Yellow, bold: true }
        } else if status == InstallStatus::Success {
            PhaseMark { symbol: '✓', color: Palette::Green, bold: true }
        } else {
            PhaseMark { symbol: '✘', color: Palette::Red, bold: true }
        }
    } else {
        PhaseMark { symbol: '·', color: Palette::TextDim, bold: false }
    }
}

// ---------------------------------------------------------------------------
// Output log
// ---------------------------------------------------------------------------

/// The first of the `len` log entries that fit in a panel `rows` lines high
/// (the newest entries are shown).
pub fn log_window(len: usize, rows: usize) -> (start: usize)
    ensures
        start == (if len > rows {
            len - rows
        } else {
            0
        }),
{
    if len > rows {
        len - rows
    } else {
        0
    }
}

/// The colour of a log line of kind `kind`, and whether it is bold.
pub open spec fn log_style_spec(kind: LogKind) -> (Palette, bool) {
    match kind {
        LogKind::Step => (Palette::Cyan, true),
        LogKind::Okay => (Palette::Green, false),
        LogKind::Warn => (Palette::Yellow, false),
        LogKind::Error => (Palette::Red, true),
        LogKind::Info => (Palette::TextDim, false),
    }
}

/// The colour of a log line of kind `kind`, and whether it is bold.
pub fn log_style(kind: LogKind) -> (s: (Palette, bool))
    ensures
        s == log_style_spec(kind),
{
    match kind {
        LogKind::Step => (Palette::Cyan, true),
        LogKind::Okay => (Palette::Green, false),
        LogKind::Warn => (Palette::Yellow, false),
        LogKind::Error => (Palette::Red, true),
        LogKind::Info => (Palette::TextDim, false),
    }
}

// ---------------------------------------------------------------------------
// Current step
// ---------------------------------------------------------------------------

/// The line that says how the installation stands, with `spinner` as the
/// waiting sign.
pub open spec fn step_line_spec(
    status: InstallStatus,
    current_step: Seq<char>,
    detail_line: Seq<char>,
    spinner: char,
) -> Seq<char> {
    match status {
        InstallStatus::Success => "  ✔  "@ + current_step,
        InstallStatus::Failed => if detail_line.len() == 0 {
            "  ✘  "@ + current_step
        } else {
            "  ✘  "@ + detail_line
        },
        _ => seq![' ', ' ', spinner, ' ', ' '] + current_step,
    }
}

/// The colour of the line that says how the installation stands.
pub open spec fn step_color_spec(status: InstallStatus) -> Palette {
    match status {
        InstallStatus::Success => Palette::Green,
        InstallStatus::Failed => Palette::Red,
        _ => Palette::Yellow,
    }
}

impl App {
    /// The line that says how the installation stands, with `spinner` as
    /// the waiting sign.
    pub fn step_line(&self, spinner: char) -> (s: String)
        ensures
            s@ == step_line_spec(self.status, self.current_step@, self.detail_line@, spinner),
    {
        match self.status {
            InstallStatus::Success => concat("  ✔  ", self.current_step.as_str()),
            InstallStatus::Failed => {
                if self.detail_line.as_str().is_empty() {
                    concat("  ✘  ", self.current_step.as_str())
                } else {
                    concat("  ✘  ", self.detail_line.as_str())
                }
            },
            _ => {
                let mut s = String::new();
                push_char(&mut s, ' ');
                push_char(&mut s, ' ');
                push_char(&mut s, spinner);
                push_char(&mut s, ' ');
                push_char(&mut s, ' ');
                let r = concat(s.as_str(), self.current_step.as_str());
                assert(s@ == seq![' ', ' ', spinner, ' ', ' ']);
                r
            },
        }
    }

    /// The colour of the line that says how the installation stands.
    pub fn step_color(&self) -> (c: Palette)
        ensures
            c == step_color_spec(self.status),
    {
        match self.status {
            InstallStatus::Success => Palette::Green,
            InstallStatus::Failed => Palette::Red,
            _ => Palette::Yellow,
        }
    }
}

/// The password line of the sudo prompt: one bullet per typed character,
/// then a space and the cursor (`_`) when it is shown.
pub open spec fn password_line_spec(typed: nat, cursor_on: bool) -> Seq<char> {
    "  Contraseña: "@ + Seq::new(typed, |_i: int| '•') + seq![' ', if cursor_on { '_' } else { ' ' }]
}

impl App {
    /// The password line of the sudo prompt; the typed characters are
    /// never shown, only counted.
    pub fn password_line(&self, cursor_on: bool) -> (s: String)
        ensures
            s@ == password_line_spec(self.sudo.password@.len(), cursor_on),
    {
        let mut s = concat("  Contraseña: ", "");
        proof {
            reveal_strlit("");
        }
        let ghost head = s@;
        let n = self.sudo.password.len();
        for i in 0..n
            invariant
                n == self.sudo.password@.len(),
                s@ == head + Seq::new(i as nat, |_i: int| '•'),
        {
            push_char(&mut s, '•');
            assert(head + Seq::new((i + 1) as nat, |_i: int| '•') == (head + Seq::new(i as nat, |_i: int| '•')).push('•'));
        }
        push_char(&mut s, ' ');
        push_char(&mut s, if cursor_on { '_' } else { ' ' });
        assert(head == "  Contraseña: "@);
        s
    }
}

/// The accent colour and title of the final screen.
pub fn finished_banner(success: bool) -> (r: (Palette, &'static str))
    ensures
        r.0 == (if success {
            Palette::Green
        } else {
            Palette::Red
        }),
        r.1@ == (if success {
            "INSTALACIÓN COMPLETADA"@
        } else {
            "ERROR EN LA INSTALACIÓN"@
        }),
{
    if success {
        (Palette::Green, "INSTALACIÓN COMPLETADA")
    } else {
        (Palette::Red, "ERROR EN LA INSTALACIÓN")
    }
}

// ---------------------------------------------------------------------------
// Progress bar
// ---------------------------------------------------------------------------

/// The partial blocks, from one eighth to a full cell.
pub open spec fn eighth_blocks() -> Seq<char> {
    seq!['▏', '▎', '▍', '▌', '▋', '▊', '▉', '█']
}

/// What column `c` of a progress bar filled to `total` eighths of a cell
/// shows.
pub open spec fn bar_cell(c: int, total: int) -> (Seq<char>, Option<Rgb>, Option<Rgb>) {
    let full = total / 8;
    let rem = total % 8;
    if c < full {
        painted('█', Palette::Red.color(), Rgb { r: 60, g: 18, b: 26 })
    } else if c == full && rem > 0 {
        painted(eighth_blocks()[rem - 1], Palette::Red.color(), Rgb { r: 60, g: 18, b: 26 })
    } else {
        painted('░', Rgb { r: 140, g: 60, b: 75 }, Rgb { r: 28, g: 10, b: 16 })
    }
}

/// Draws a progress bar on the first row of `inner`, filled to `total`
/// eighths of a cell: full blocks, then a partial block, then the empty
/// track.
pub fn draw_bar_cells(buf: &mut Buffer, inner: Rect, total: u16)
    requires
        buffer_ok(*old(buf)),
    ensures
        buffer_area(*final(buf)) == buffer_area(*old(buf)),
        buffer_ok(*final(buf)),
        forall|px: int, py: int|
            0 <= px < buffer_area(*old(buf)).width && 0 <= py < buffer_area(*old(buf)).height
                ==> #[trigger] buffer_cells(*final(buf))[cell_index(buffer_area(*old(buf)).width as int, px, py)]
                == if 0 <= px - inner.x < inner.width && put_target(
                inner,
                px - inner.x,
                0,
                buffer_area(*old(buf)).width as int,
                buffer_area(*old(buf)).height as int,
            ) == Some((px, py)) {
                bar_cell(px - inner.x, total as int)
            } else {
                buffer_cells(*old(buf))[cell_index(buffer_area(*old(buf)).width as int, px, py)]
            },
{
    let ghost old_cells = buffer_cells(*buf);
    let ghost wb = buffer_area(*buf).width as int;
    let ghost hb = buffer_area(*buf).height as int;
    let blocks: [char; 8] = ['▏', '▎', '▍', '▌', '▋', '▊', '▉', '█'];
    assert(blocks@ == eighth_blocks());
    let w = inner.width;
    if w == 0 {
        return;
    }
    let full = total / 8;
    let rem = total % 8;
    let bar_bg = Rgb { r: 60, g: 18, b: 26 };
    let red = Palette::Red.rgb();
    let first_end = if full < w {
        full
    } else {
        w
    };
    let rest_start_raw: u16 = full + if rem > 0 {
        1
    } else {
        0
    };
    let rest_start = if rest_start_raw < w {
        rest_start_raw
    } else {
        w
    };
    let mut x: u16 = 0;
    // Columns 0 .. first_end: full blocks.
    while x < first_end
        invariant
            x <= first_end <= w,
            first_end == (if full < w { full } else { w }),
            full == total / 8,
            rem == total % 8,
            w == inner.width,
            bar_bg == (Rgb { r: 60, g: 18, b: 26 }),
            red == Palette::Red.color(),
            wb == buffer_area(*buf).width,
            hb == buffer_area(*buf).height,
            buffer_ok(*buf),
            buffer_cells(*buf).len() == old_cells.len(),
            forall|px: int, py: int|
                0 <= px < wb && 0 <= py < hb ==> #[trigger] buffer_cells(*buf)[cell_index(wb, px, py)]
                    == if 0 <= px - inner.x < x && put_target(inner, px - inner.x, 0, wb, hb) == Some((px, py)) {
                    bar_cell(px - inner.x, total as int)
                } else {
                    old_cells[cell_index(wb, px, py)]
                },
        decreases first_end - x,
    {
        let ghost before = buffer_cells(*buf);
        put(buf, inner, x as i32, 0, '█', red, bar_bg);
        proof {
            lemma_put_column(before, *buf, old_cells, inner, x as int, wb, hb, bar_cell(x as int, total as int), total as int);
        }
        x = x + 1;
    }
    // Column `full`: a partial block.
    if full < w && rem > 0 {
        let ghost before = buffer_cells(*buf);
        put(buf, inner, full as i32, 0, blocks[(rem - 1) as usize], red, bar_bg);
        proof {
            lemma_put_column(before, *buf, old_cells, inner, full as int, wb, hb, bar_cell(full as int, total as int), total as int);
        }
        x = full + 1;
    }
    assert(x == rest_start);
    // Columns rest_start .. w: the empty track.
    while x < w
        invariant
            rest_start <= x <= w,
            w == inner.width,
            full == total / 8,
            rem == total % 8,
            rest_start == (if (full + (if rem > 0 { 1int } else { 0 })) < w { (full + (if rem > 0 { 1int } else { 0 })) } else { w as int }),
            wb == buffer_area(*buf).width,
            hb == buffer_area(*buf).height,
            buffer_ok(*buf),
            buffer_cells(*buf).len() == old_cells.len(),
            forall|px: int, py: int|
                0 <= px < wb && 0 <= py < hb ==> #[trigger] buffer_cells(*buf)[cell_index(wb, px, py)]
                    == if 0 <= px - inner.x < x && put_target(inner, px - inner.x, 0, wb, hb) == Some((px, py)) {
                    bar_cell(px - inner.x, total as int)
                } else {
                    old_cells[cell_index(wb, px, py)]
                },
        decreases w - x,
    {
        let ghost before = buffer_cells(*buf);
        put(buf, inner, x as i32, 0, '░', Rgb { r: 140, g: 60, b: 75 }, Rgb { r: 28, g: 10, b: 16 });
        proof {
            lemma_put_column(before, *buf, old_cells, inner, x as int, wb, hb, bar_cell(x as int, total as int), total as int);
        }
        x = x + 1;
    }
}

/// After drawing the bar's column `x`, the cells drawn so far are columns
/// `0 ..= x`.
proof fn lemma_put_column(
    before: Seq<(Seq<char>, Option<Rgb>, Option<Rgb>)>,
    buf: Buffer,
    old_cells: Seq<(Seq<char>, Option<Rgb>, Option<Rgb>)>,
    inner: Rect,
    x: int,
    wb: int,
    hb: int,
    shown: (Seq<char>, Option<Rgb>, Option<Rgb>),
    total: int,
)
    requires
        0 <= x,
        shown == bar_cell(x, total),
        wb == buffer_area(buf).width,
        hb == buffer_area(buf).height,
        before.len() == wb * hb,
        buffer_cells(buf) == put_cells_at(before, wb, hb, inner, x, shown),
        forall|px: int, py: int|
            0 <= px < wb && 0 <= py < hb ==> #[trigger] before[cell_index(wb, px, py)] == if 0 <= px
                - inner.x < x && put_target(inner, px - inner.x, 0, wb, hb) == Some((px, py)) {
                bar_cell(px - inner.x, total)
            } else {
                old_cells[cell_index(wb, px, py)]
            },
    ensures
        forall|px: int, py: int|
            0 <= px < wb && 0 <= py < hb ==> #[trigger] buffer_cells(buf)[cell_index(wb, px, py)]
                == if 0 <= px - inner.x < x + 1 && put_target(inner, px - inner.x, 0, wb, hb) == Some(
                (px, py),
            ) {
                bar_cell(px - inner.x, total)
            } else {
                old_cells[cell_index(wb, px, py)]
            },
{
    assert forall|px: int, py: int|
        0 <= px < wb && 0 <= py < hb implies #[trigger] buffer_cells(buf)[cell_index(wb, px, py)]
            == if 0 <= px - inner.x < x + 1 && put_target(inner, px - inner.x, 0, wb, hb) == Some(
            (px, py),
        ) {
            bar_cell(px - inner.x, total)
        } else {
            old_cells[cell_index(wb, px, py)]
        } by {
        lemma_cell_index(wb, hb, px, py);
        match put_target(inner, x, 0, wb, hb) {
            Some(p) => {
                lemma_cell_index(wb, hb, p.0, p.1);
            },
            None => {},
        }
    }
}

/// `cells` once `shown` is drawn at column `x` of the first row of `inner`.
pub open spec fn put_cells_at(
    cells: Seq<(Seq<char>, Option<Rgb>, Option<Rgb>)>,
    wb: int,
    hb: int,
    inner: Rect,
    x: int,
    shown: (Seq<char>, Option<Rgb>, Option<Rgb>),
) -> Seq<(Seq<char>, Option<Rgb>, Option<Rgb>)> {
    crate::theme::put_cells(cells, wb, hb, inner, x, 0, shown)
}

// ---------------------------------------------------------------------------
// Title bar
// ---------------------------------------------------------------------------

/// The left part of the title bar: the spinner and the title, padded.
pub open spec fn title_left(spinner: char, title: Seq<char>) -> Seq<char> {
    seq![' ', spinner, ' '] + title + seq![' ']
}

/// Columns available for text in a title bar `width` cells wide.
pub open spec fn title_avail(width: int) -> int {
    if width >= 2 {
        width - 2
    } else {
        0
    }
}

/// How many characters of the right-hand text (of `right_len` characters)
/// the title bar shows: at most half of the available columns.
pub open spec fn title_right_cap(width: int, right_len: int) -> int {
    if title_avail(width) / 2 < right_len {
        title_avail(width) / 2
    } else {
        right_len
    }
}

/// How many characters of the left-hand text the title bar shows: what the
/// right-hand text and one separating column leave.
pub open spec fn title_left_cap(width: int, right_len: int) -> int {
    if title_avail(width) >= title_right_cap(width, right_len) + 1 {
        title_avail(width) - title_right_cap(width, right_len) - 1
    } else {
        0
    }
}

/// `s` cut to at most `k` characters.
pub open spec fn cut(s: Seq<char>, k: int) -> Seq<char> {
    s.take(if k < s.len() { k } else { s.len() as int })
}

/// What the absolute cell `(px, py)` shows once the title bar is drawn over
/// `area`, where it showed `before`: the area filled in the accent colour on
/// the background, the left text from column 1 and the right text ending one
/// column before the right edge, and the first row's background reset.
pub open spec fn title_cell(
    before: (Seq<char>, Option<Rgb>, Option<Rgb>),
    area: Rect,
    spinner: char,
    title: Seq<char>,
    right: Seq<char>,
    accent: Rgb,
    px: int,
    py: int,
) -> (Seq<char>, Option<Rgb>, Option<Rgb>) {
    let bg = Palette::Bg.color();
    let text = Palette::Text.color();
    let filled = if crate::theme::in_rect(area, px, py) {
        painted(' ', accent, bg)
    } else {
        before
    };
    let rc = title_right_cap(area.width as int, right.len() as int);
    let lc = title_left_cap(area.width as int, right.len() as int);
    let with_left = string_cell(filled, area, 1, 0, cut(title_left(spinner, title), lc), text, bg, px, py);
    let with_right = string_cell(with_left, area, area.width - rc - 1, 0, right.take(rc), text, bg, px, py);
    if py == area.y && area.x <= px < area.x + area.width {
        (with_right.0, with_right.1, Some(bg))
    } else {
        with_right
    }
}

/// Draws the title bar over `area`: the spinner frame and the title on the
/// left, `right` on the right (each cut to fit), in the text colour on the
/// background, the rest in `accent`.
pub fn title_bar(buf: &mut Buffer, area: Rect, spinner: char, title: &str, right: &str, accent: Rgb)
    requires
        buffer_ok(*old(buf)),
        area.width == 0 || (area.x + area.width <= buffer_area(*old(buf)).width && area.y
            < buffer_area(*old(buf)).height),
    ensures
        buffer_area(*final(buf)) == buffer_area(*old(buf)),
        buffer_ok(*final(buf)),
        forall|px: int, py: int|
            0 <= px < buffer_area(*old(buf)).width && 0 <= py < buffer_area(*old(buf)).height
                ==> #[trigger] buffer_cells(*final(buf))[cell_index(buffer_area(*old(buf)).width as int, px, py)]
                == title_cell(
                buffer_cells(*old(buf))[cell_index(buffer_area(*old(buf)).width as int, px, py)],
                area,
                spinner,
                title@,
                right@,
                accent,
                px,
                py,
            ),
{
    let ghost old_cells = buffer_cells(*buf);
    let ghost wb = buffer_area(*buf).width as int;
    let ghost hb = buffer_area(*buf).height as int;
    let bg = Palette::Bg.rgb();
    let text = Palette::Text.rgb();
    fill(buf, area, ' ', accent, bg);
    let ghost c1 = buffer_cells(*buf);
    let mut head = String::new();
    push_char(&mut head, ' ');
    push_char(&mut head, spinner);
    push_char(&mut head, ' ');
    let mut left = concat(head.as_str(), title);
    push_char(&mut left, ' ');
    assert(left@ == title_left(spinner, title@));
    let avail: usize = if area.width >= 2 {
        (area.width - 2) as usize
    } else {
        0
    };
    let rcount = chars_of(right).len();
    let right_cap = if avail / 2 < rcount {
        avail / 2
    } else {
        rcount
    };
    let right_vis = prefix_chars(right, right_cap);
    let left_cap = if avail >= right_cap + 1 {
        avail - (right_cap + 1)
    } else {
        0
    };
    let left_vis = prefix_chars(left.as_str(), left_cap);
    set_string(buf, area, 1, 0, left_vis.as_str(), text, bg);
    let ghost c2 = buffer_cells(*buf);
    let rx = area.width as i32 - right_cap as i32 - 1;
    set_string(buf, area, rx, 0, right_vis.as_str(), text, bg);
    let ghost c3 = buffer_cells(*buf);
    assert forall|px: int, py: int| 0 <= px < wb && 0 <= py < hb implies #[trigger] c3[cell_index(wb, px, py)]
        == string_cell(
        string_cell(
            if crate::theme::in_rect(area, px, py) {
                painted(' ', accent, bg)
            } else {
                old_cells[cell_index(wb, px, py)]
            },
            area,
            1,
            0,
            cut(title_left(spinner, title@), title_left_cap(area.width as int, right@.len() as int)),
            text,
            bg,
            px,
            py,
        ),
        area,
        area.width - title_right_cap(area.width as int, right@.len() as int) - 1,
        0,
        right@.take(title_right_cap(area.width as int, right@.len() as int)),
        text,
        bg,
        px,
        py,
    ) by {
        assert(c2[cell_index(wb, px, py)] == string_cell(c1[cell_index(wb, px, py)], area, 1, 0, left_vis@, text, bg, px, py));
    }
    let mut x: u16 = 0;
    while x < area.width
        invariant
            x <= area.width,
            area.width == 0 || (area.x + area.width <= wb && area.y < hb),
            wb == buffer_area(*buf).width,
            hb == buffer_area(*buf).height,
            bg == Palette::Bg.color(),
            buffer_ok(*buf),
            buffer_cells(*buf).len() == old_cells.len(),
            forall|px: int, py: int|
                0 <= px < wb && 0 <= py < hb ==> #[trigger] buffer_cells(*buf)[cell_index(wb, px, py)]
                    == if py == area.y && area.x <= px < area.x + x {
                    (c3[cell_index(wb, px, py)].0, c3[cell_index(wb, px, py)].1, Some(bg))
                } else {
                    c3[cell_index(wb, px, py)]
                },
        decreases area.width - x,
    {
        let ghost before = buffer_cells(*buf);
        proof {
            lemma_cell_index(wb, hb, area.x + x, area.y as int);
        }
        let cell = crate::theme::cell_at(buf, area.x + x, area.y);
        crate::theme::set_cell_bg(cell, bg);
        assert forall|px: int, py: int|
            0 <= px < wb && 0 <= py < hb implies #[trigger] buffer_cells(*buf)[cell_index(wb, px, py)]
                == if py == area.y && area.x <= px < area.x + x + 1 {
                (c3[cell_index(wb, px, py)].0, c3[cell_index(wb, px, py)].1, Some(bg))
            } else {
                c3[cell_index(wb, px, py)]
            } by {
            lemma_cell_index(wb, hb, px, py);
            lemma_cell_index(wb, hb, area.x + x, area.y as int);
        }
        x = x + 1;
    }
}

// ---------------------------------------------------------------------------
// Setup options
// ---------------------------------------------------------------------------

/// How a piece of text looks: its colour, its background where it has one,
/// and whether it is bold or dimmed.
#[derive(Clone, Copy, Debug, PartialEq, Eq, Structural)]
pub struct TextStyle {
    pub fg: Palette,
    pub bg: Option<Palette>,
    pub bold: bool,
    pub dim: bool,
}

/// Plain text in colour `fg`.
pub open spec fn tinted(fg: Palette) -> TextStyle {
    TextStyle { fg, bg: None, bold: false, dim: false }
}

/// Bold text in colour `fg`.
pub open spec fn strong(fg: Palette) -> TextStyle {
    TextStyle { fg, bg: None, bold: true, dim: false }
}

/// The label of option row `i`.
pub open spec fn option_label_spec(i: int) -> Seq<char> {
    if i == 0 {
        "Paquetes dnf + Flatpak (requiere sudo)"@
    } else if i == 1 {
        "Iconos Tela (descarga ~150 MB)"@
    } else if i == 2 {
        "Configuración de pantallas (hardware)"@
    } else {
        "Reiniciar Plasma al terminar"@
    }
}

/// Whether the switch shown on option row `i` is on.
pub open spec fn option_on(o: Options, i: int) -> bool {
    if i == 0 {
        o.packages
    } else if i == 1 {
        o.themes
    } else if i == 2 {
        o.display
    } else if i == 3 {
        o.restart
    } else {
        false
    }
}

/// Space on a row flips the switch shown on that row and no other: after
/// toggling at `focus`, row `i` shows the opposite of what it showed when
/// `i` is the focused row, and the same otherwise.
pub proof fn law_toggle_flips_the_focused_row_only(o: Options, focus: usize, i: int)
    requires
        0 <= i < OPTION_ROWS - 1,
    ensures
        option_on(toggled(o, focus), i) == (if i == focus {
            !option_on(o, i)
        } else {
            option_on(o, i)
        }),
{
}

/// One option row of the setup screen, piece by piece: the focus pointer,
/// the tick between brackets, the label, and the word that says whether the
/// switch is on.
#[derive(Clone, Copy, Debug)]
pub struct OptionRow {
    pub pointer: &'static str,
    pub pointer_style: TextStyle,
    pub bracket_style: TextStyle,
    pub mark: &'static str,
    pub mark_style: TextStyle,
    pub label: &'static str,
    pub label_style: TextStyle,
    pub state: &'static str,
    pub state_style: TextStyle,
}

impl App {
    /// Whether the switch shown on option row `i` is on.
    pub fn option_switch(&self, i: usize) -> (on: bool)
        ensures
            on == option_on(self.options, i as int),
    {
        match i {
            0 => self.options.packages,
            1 => self.options.themes,
            2 => self.options.display,
            3 => self.options.restart,
            _ => false,
        }
    }

    /// Option row `i` of the setup screen: the pointer and a bold label on
    /// the focused row, a green tick and the word "activo" where the switch
    /// is on, the word "desactivado" in red where it is off.
    pub fn option_row(&self, i: usize) -> (r: OptionRow)
        requires
            i < OPTION_ROWS - 1,
        ensures
            ({
                let on = option_on(self.options, i as int);
                let focused = self.option_focus == i;
                &&& r.pointer@ == (if focused {
                    "▶ "@
                } else {
                    "  "@
                })
                &&& r.pointer_style == (if focused {
                    strong(Palette::Yellow)
                } else {
                    tinted(Palette::TextDim)
                })
                &&& r.bracket_style == tinted(Palette::Border)
                &&& r.mark@ == (if on {
                    "✔"@
                } else {
                    " "@
                })
                &&& r.mark_style == (if on {
                    strong(Palette::Green)
                } else {
                    tinted(Palette::TextDim)
                })
                &&& r.label@ == option_label_spec(i as int)
                &&& r.label_style == (if focused {
                    strong(Palette::Text)
                } else if on {
                    tinted(Palette::Green)
                } else {
                    tinted(Palette::TextDim)
                })
                &&& r.state@ == (if on {
                    "  activo"@
                } else {
                    "  desactivado"@
                })
                &&& r.state_style == (TextStyle {
                    fg: if on {
                        Palette::Green
                    } else {
                        Palette::Red
                    },
                    bg: None,
                    bold: false,
                    dim: true,
                })
            }),
    {
        let on = self.option_switch(i);
        let focused = self.option_focus == i;
        let label = if i == 0 {
            "Paquetes dnf + Flatpak (requiere sudo)"
        } else if i == 1 {
            "Iconos Tela (descarga ~150 MB)"
        } else if i == 2 {
            "Configuración de pantallas (hardware)"
        } else {
            "Reiniciar Plasma al terminar"
        };
        let plain_dim = TextStyle { fg: Palette::TextDim, bg: None, bold: false, dim: false };
        OptionRow {
            pointer: if focused {
                "▶ "
            } else {
                "  "
            },
            pointer_style: if focused {
                TextStyle { fg: Palette::Yellow, bg: None, bold: true, dim: false }
            } else {
                plain_dim
            },
            bracket_style: TextStyle { fg: Palette::Border, bg: None, bold: false, dim: false },
            mark: if on {
                "✔"
            } else {
                " "
            },
            mark_style: if on {
                TextStyle { fg: Palette::Green, bg: None, bold: true, dim: false }
            } else {
                plain_dim
            },
            label,
            label_style: if focused {
                TextStyle { fg: Palette::Text, bg: None, bold: true, dim: false }
            } else if on {
                TextStyle { fg: Palette::Green, bg: None, bold: false, dim: false }
            } else {
                plain_dim
            },
            state: if on {
                "  activo"
            } else {
                "  desactivado"
            },
            state_style: TextStyle {
                fg: if on {
                    Palette::Green
                } else {
                    Palette::Red
                },
                bg: None,
                bold: false,
                dim: true,
            },
        }
    }

    /// The last row of the options panel, which starts the installation:
    /// black on red with a pointer when focused, bold green otherwise.
    pub fn start_row(&self) -> (r: (&'static str, TextStyle))
        ensures
            r.0@ == (if self.option_focus == OPTION_ROWS - 1 {
                "   ▶  INICIAR INSTALACIÓN"@
            } else {
                "      INICIAR INSTALACIÓN"@
            }),
            r.1 == (if self.option_focus == OPTION_ROWS - 1 {
                TextStyle { fg: Palette::Black, bg: Some(Palette::Red), bold: true, dim: false }
            } else {
                strong(Palette::Green)
            }),
    {
        if self.option_focus == OPTION_ROWS - 1 {
            (
                "   ▶  INICIAR INSTALACIÓN",
                TextStyle { fg: Palette::Black, bg: Some(Palette::Red), bold: true, dim: false },
            )
        } else {
            ("      INICIAR INSTALACIÓN", TextStyle { fg: Palette::Green, bg: None, bold: true, dim: false })
        }
    }
}

// ---------------------------------------------------------------------------
// Animation carousel
// ---------------------------------------------------------------------------

/// The line under the animation panel: the name and the tagline of
/// animation `i` between arrow heads.
pub open spec fn carousel_text(i: int) -> Seq<char> {
    "◀   "@ + anim_name(i) + "   ·   "@ + anim_tagline(i) + "   ▶"@
}

/// The column where a text of `len` characters starts when centred in
/// `width` columns: half the difference, rounded toward zero.
pub open spec fn centred_x(width: int, len: int) -> int {
    if width >= len {
        (width - len) / 2
    } else {
        -((len - width) / 2)
    }
}

/// `v`, or 0 where `v` is negative.
pub open spec fn at_least_zero(v: int) -> int {
    if v < 0 {
        0
    } else {
        v
    }
}

/// What the absolute cell `(px, py)` shows once the carousel line of
/// animation `i` is drawn on row `row` of `area`, where it showed `before`:
/// the line centred in the animation's colour, a left arrow one column
/// before it and a right arrow one column after it.
pub open spec fn carousel_cell(
    before: (Seq<char>, Option<Rgb>, Option<Rgb>),
    area: Rect,
    row: int,
    i: int,
    px: int,
    py: int,
) -> (Seq<char>, Option<Rgb>, Option<Rgb>) {
    let t = carousel_text(i);
    let cx = centred_x(area.width as int, t.len() as int);
    let bg = Palette::Bg.color();
    let arrow = Palette::BorderBright.color();
    let with_text = string_cell(before, area, at_least_zero(cx), row, t, anim_fg(i), bg, px, py);
    let with_left = string_cell(with_text, area, at_least_zero(cx - 1), row, "←"@, arrow, bg, px, py);
    string_cell(with_left, area, cx + t.len() + 1, row, "→"@, arrow, bg, px, py)
}

/// The carousel lines are short.
proof fn lemma_carousel_short(i: int)
    ensures
        carousel_text(i).len() < 100,
{
    reveal_strlit("◀   ");
    reveal_strlit("   ·   ");
    reveal_strlit("   ▶");
    reveal_strlit("Spider-Man");
    reveal_strlit("Matrix");
    reveal_strlit("Synthwave");
    reveal_strlit("Neón Cibernético");
    reveal_strlit("Aurora Boreal");
    reveal_strlit("Tu instalación, tu responsabilidad");
    reveal_strlit("Sigue al conejo blanco");
    reveal_strlit("Noche ochentera de neón");
    reveal_strlit("Protocolo de despliegue activo");
    reveal_strlit("Luz del norte sobre tu escritorio");
}

/// Draws the carousel line of animation `anim_idx` on row `row` of `area`.
pub fn draw_carousel(buf: &mut Buffer, area: Rect, row: i32, anim_idx: usize)
    requires
        buffer_ok(*old(buf)),
        anim_idx < COUNT,
    ensures
        buffer_area(*final(buf)) == buffer_area(*old(buf)),
        buffer_ok(*final(buf)),
        forall|px: int, py: int|
            0 <= px < buffer_area(*old(buf)).width && 0 <= py < buffer_area(*old(buf)).height
                ==> #[trigger] buffer_cells(*final(buf))[cell_index(buffer_area(*old(buf)).width as int, px, py)]
                == carousel_cell(
                buffer_cells(*old(buf))[cell_index(buffer_area(*old(buf)).width as int, px, py)],
                area,
                row as int,
                anim_idx as int,
                px,
                py,
            ),
{
    let ghost old_cells = buffer_cells(*buf);
    let ghost wb = buffer_area(*buf).width as int;
    let ghost hb = buffer_area(*buf).height as int;
    let all = metas();
    let meta = all[anim_idx];
    let t1 = concat("◀   ", meta.name);
    let t2 = concat(t1.as_str(), "   ·   ");
    let t3 = concat(t2.as_str(), meta.tagline);
    let text = concat(t3.as_str(), "   ▶");
    assert(text@ == carousel_text(anim_idx as int));
    proof {
        lemma_carousel_short(anim_idx as int);
    }
    let clen_u = chars_of(text.as_str()).len();
    let w = area.width as usize;
    let cx: i32 = if w >= clen_u {
        ((w - clen_u) / 2) as i32
    } else {
        0 - ((clen_u - w) / 2) as i32
    };
    let clen = clen_u as i32;
    let bg = Palette::Bg.rgb();
    let arrow = Palette::BorderBright.rgb();
    set_string(
        buf,
        area,
        if cx < 0 {
            0
        } else {
            cx
        },
        row,
        text.as_str(),
        meta.fg,
        bg,
    );
    let ghost c1 = buffer_cells(*buf);
    set_string(
        buf,
        area,
        if cx - 1 < 0 {
            0
        } else {
            cx - 1
        },
        row,
        "←",
        arrow,
        bg,
    );
    let ghost c2 = buffer_cells(*buf);
    set_string(buf, area, cx + clen + 1, row, "→", arrow, bg);
    assert forall|px: int, py: int| 0 <= px < wb && 0 <= py < hb implies #[trigger] buffer_cells(
        *buf,
    )[cell_index(wb, px, py)] == carousel_cell(old_cells[cell_index(wb, px, py)], area, row as int, anim_idx as int, px, py) by {
        assert(c2[cell_index(wb, px, py)] == string_cell(c1[cell_index(wb, px, py)], area, at_least_zero(cx - 1), row as int, "←"@, arrow, bg, px, py));
        assert(c1[cell_index(wb, px, py)] == string_cell(old_cells[cell_index(wb, px, py)], area, at_least_zero(cx as int), row as int, text@, meta.fg, bg, px, py));
    }
}

// ---------------------------------------------------------------------------
// Welcome menu
// ---------------------------------------------------------------------------

/// The label of entry `i` of the welcome menu.
pub open spec fn menu_label(i: int) -> Seq<char> {
    if i == 0 {
        "INSTALAR"@
    } else {
        "SALIR"@
    }
}

/// The line of entry `i` of the welcome menu: an arrow before the selected
/// entry.
pub open spec fn menu_line(i: int, selected: bool) -> Seq<char> {
    seq![if selected { '▶' } else { ' ' }, ' '] + menu_label(i)
}

/// What the absolute cell `(px, py)` shows once the two menu entries are
/// written on rows 1 and 2 of `inner` from column 1 (the selected one in
/// black on red, the other in the text colour on the background), where it
/// showed `before`.
pub open spec fn menu_cell(
    before: (Seq<char>, Option<Rgb>, Option<Rgb>),
    inner: Rect,
    menu_idx: usize,
    px: int,
    py: int,
) -> (Seq<char>, Option<Rgb>, Option<Rgb>) {
    let fg0 = if menu_idx == 0 { Palette::Black.color() } else { Palette::Text.color() };
    let bg0 = if menu_idx == 0 { Palette::Red.color() } else { Palette::Bg.color() };
    let fg1 = if menu_idx == 1 { Palette::Black.color() } else { Palette::Text.color() };
    let bg1 = if menu_idx == 1 { Palette::Red.color() } else { Palette::Bg.color() };
    let first = string_cell(before, inner, 1, 1, menu_line(0, menu_idx == 0), fg0, bg0, px, py);
    string_cell(first, inner, 1, 2, menu_line(1, menu_idx == 1), fg1, bg1, px, py)
}

/// Writes the entries of the welcome menu in `inner`, marking entry
/// `menu_idx`.
pub fn draw_menu(buf: &mut Buffer, inner: Rect, menu_idx: usize)
    requires
        buffer_ok(*old(buf)),
    ensures
        buffer_area(*final(buf)) == buffer_area(*old(buf)),
        buffer_ok(*final(buf)),
        forall|px: int, py: int|
            0 <= px < buffer_area(*old(buf)).width && 0 <= py < buffer_area(*old(buf)).height
                ==> #[trigger] buffer_cells(*final(buf))[cell_index(buffer_area(*old(buf)).width as int, px, py)]
                == menu_cell(
                buffer_cells(*old(buf))[cell_index(buffer_area(*old(buf)).width as int, px, py)],
                inner,
                menu_idx,
                px,
                py,
            ),
{
    let ghost old_cells = buffer_cells(*buf);
    let ghost wb = buffer_area(*buf).width as int;
    let ghost hb = buffer_area(*buf).height as int;
    let mut i: usize = 0;
    while i < 2
        invariant
            i <= 2,
            wb == buffer_area(*buf).width,
            hb == buffer_area(*buf).height,
            buffer_ok(*buf),
            buffer_cells(*buf).len() == old_cells.len(),
            forall|px: int, py: int|
                0 <= px < wb && 0 <= py < hb ==> #[trigger] buffer_cells(*buf)[cell_index(wb, px, py)]
                    == if i == 0 {
                    old_cells[cell_index(wb, px, py)]
                } else if i == 1 {
                    string_cell(
                        old_cells[cell_index(wb, px, py)],
                        inner,
                        1,
                        1,
                        menu_line(0, menu_idx == 0),
                        if menu_idx == 0 { Palette::Black.color() } else { Palette::Text.color() },
                        if menu_idx == 0 { Palette::Red.color() } else { Palette::Bg.color() },
                        px,
                        py,
                    )
                } else {
                    menu_cell(old_cells[cell_index(wb, px, py)], inner, menu_idx, px, py)
                },
        decreases 2 - i,
    {
        let label = if i == 0 {
            "INSTALAR"
        } else {
            "SALIR"
        };
        let selected = menu_idx == i;
        let mut line = String::new();
        push_char(&mut line, if selected { '▶' } else { ' ' });
        push_char(&mut line, ' ');
        let line = concat(line.as_str(), label);
        let row = 1 + i as i32;
        if selected {
            set_string(buf, inner, 1, row, line.as_str(), Palette::Black.rgb(), Palette::Red.rgb());
        } else {
            set_string(buf, inner, 1, row, line.as_str(), Palette::Text.rgb(), Palette::Bg.rgb());
        }
        i = i + 1;
    }
}

/// Only the selected entry of the welcome menu is marked: the line of entry
/// `i`, from column 1 of row `1 + i`, shows the arrow and the label in black
/// on red when `i` is `menu_idx`, and a blank and the label in the text
/// colour on the background otherwise.
pub proof fn law_menu_marks_only_the_selected_entry(
    before: (Seq<char>, Option<Rgb>, Option<Rgb>),
    inner: Rect,
    menu_idx: usize,
    i: int,
    j: int,
)
    requires
        0 <= i < 2,
        inner.height >= 3,
        0 <= j < 2 + menu_label(i).len(),
        j + 1 < inner.width,
    ensures
        menu_cell(before, inner, menu_idx, inner.x + 1 + j, inner.y + 1 + i) == painted(
            (seq![if i == menu_idx { '▶' } else { ' ' }, ' '] + menu_label(i))[j],
            if i == menu_idx {
                Palette::Black.color()
            } else {
                Palette::Text.color()
            },
            if i == menu_idx {
                Palette::Red.color()
            } else {
                Palette::Bg.color()
            },
        ),
{
}

/// The marks of the phase list follow the progress: phases before the
/// current one are ticked in green, phases after it are a dimmed dot (never
/// ticked), and only the current one is bold; a tick means the phase is
/// done, which the current one is only once the installation succeeded.
pub proof fn law_phase_marks_follow_progress(i: usize, current: usize, status: InstallStatus)
    ensures
        i < current ==> phase_mark_spec(i, current, status) == (PhaseMark {
            symbol: '✓',
            color: Palette::Green,
            bold: false,
        }),
        i > current ==> phase_mark_spec(i, current, status) == (PhaseMark {
            symbol: '·',
            color: Palette::TextDim,
            bold: false,
        }),
        (phase_mark_spec(i, current, status).symbol == '✓') <==> (i < current || (i == current
            && status == InstallStatus::Success)),
        phase_mark_spec(i, current, status).bold <==> i == current,
{
}

} // verus!

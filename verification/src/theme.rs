//! Palette, the cell-level drawing primitives on a terminal buffer, the
//! 3x5 pixel font, and the small pure helpers the animations share.

use vstd::prelude::*;

use ratatui::buffer::{Buffer, Cell};
use ratatui::style::Color;

use crate::text::chars_of;

verus! {

// ---------------------------------------------------------------------------
// Colours and rectangles
// ---------------------------------------------------------------------------

/// A 24-bit colour.
#[derive(Clone, Copy, Debug, PartialEq, Eq, Structural)]
pub struct Rgb {
    pub r: u8,
    pub g: u8,
    pub b: u8,
}

/// A rectangle of terminal cells.
#[derive(Clone, Copy, Debug, PartialEq, Eq, Structural)]
pub struct Rect {
    pub x: u16,
    pub y: u16,
    pub width: u16,
    pub height: u16,
}

// ---------------------------------------------------------------------------
// The terminal buffer
// ---------------------------------------------------------------------------

#[verifier::external_type_specification]
#[verifier::external_body]
pub struct ExBuffer(Buffer);

#[verifier::external_type_specification]
#[verifier::external_body]
pub struct ExCell(Cell);

/// What the cells of `b` show, row after row: each cell's symbol, and its
/// foreground and background colours (`Some` for an RGB colour, `None` for
/// any other kind of colour).
pub uninterp spec fn buffer_cells(b: Buffer) -> Seq<(Seq<char>, Option<Rgb>, Option<Rgb>)>;

/// The area that `b` covers.
pub uninterp spec fn buffer_area(b: Buffer) -> Rect;

/// What the cell `c` shows: its symbol, and its foreground and background
/// colours (`Some` for an RGB colour, `None` for any other kind of colour).
pub uninterp spec fn cell_shown(c: Cell) -> (Seq<char>, Option<Rgb>, Option<Rgb>);

/// A buffer whose area starts at the origin and whose cells fill that area.
pub open spec fn buffer_ok(b: Buffer) -> bool {
    &&& buffer_area(b).x == 0
    &&& buffer_area(b).y == 0
    &&& buffer_cells(b).len() == buffer_area(b).width * buffer_area(b).height
}

/// The position of cell `(x, y)` in the cells of a buffer `w` cells wide
/// whose area starts at the origin.
pub open spec fn cell_index(w: int, x: int, y: int) -> int {
    y * w + x
}

/// Each cell of a `w` by `h` area has its own position in `0 .. w * h`.
pub proof fn lemma_cell_index(w: int, h: int, x: int, y: int)
    requires
        0 <= x < w,
        0 <= y < h,
    ensures
        0 <= cell_index(w, x, y) < w * h,
        forall|x2: int, y2: int|
            0 <= x2 < w && 0 <= y2 < h && cell_index(w, x2, y2) == cell_index(w, x, y) ==> x2 == x
                && y2 == y,
{
    assert(0 <= y * w + x < w * h) by (nonlinear_arith)
        requires
            0 <= x < w,
            0 <= y < h,
    ;
    assert forall|x2: int, y2: int|
        0 <= x2 < w && 0 <= y2 < h && cell_index(w, x2, y2) == cell_index(w, x, y) implies x2 == x
        && y2 == y by {
        assert(x2 == x && y2 == y) by (nonlinear_arith)
            requires
                0 <= x < w,
                0 <= y < h,
                0 <= x2 < w,
                0 <= y2 < h,
                y2 * w + x2 == y * w + x,
        ;
    }
}

/// What a cell shows once `ch` is drawn in it in the colours `fg` on `bg`.
pub open spec fn painted(ch: char, fg: Rgb, bg: Rgb) -> (Seq<char>, Option<Rgb>, Option<Rgb>) {
    (seq![ch], Some(fg), Some(bg))
}

/// The area of `buf`.
///
/// Trusted: reads the public field `Buffer::area`; its value is named by
/// [`buffer_area`].
#[verifier::external_body]
fn area_of(buf: &Buffer) -> (r: Rect)
    ensures
        r == buffer_area(*buf),
{
    Rect { x: buf.area.x, y: buf.area.y, width: buf.area.width, height: buf.area.height }
}

/// The number of cells that `buf` holds.
///
/// Trusted: reads the length of the public field `Buffer::content`, whose
/// entries [`buffer_cells`] names.
#[verifier::external_body]
fn cell_count(buf: &Buffer) -> (n: usize)
    ensures
        n == buffer_cells(*buf).len(),
{
    buf.content.len()
}

/// The area that `buf` covers.
pub fn buffer_size(buf: &Buffer) -> (r: Rect)
    ensures
        r == buffer_area(*buf),
{
    area_of(buf)
}

/// Whether the drawing functions of this module can work on `buf`: its area
/// starts at the origin and its cells fill that area (a frame's buffer
/// does).
pub fn buffer_ready(buf: &Buffer) -> (r: bool)
    ensures
        r == buffer_ok(*buf),
{
    let a = area_of(buf);
    let w = a.width as u64;
    let h = a.height as u64;
    assert(w * h <= 0xffff * 0xffff) by (nonlinear_arith)
        requires
            w <= 0xffff,
            h <= 0xffff,
    ;
    a.x == 0 && a.y == 0 && cell_count(buf) as u64 == w * h
}

/// The cell at the absolute position `(x, y)` of `buf`.
///
/// Trusted: calls `<Buffer as IndexMut<(u16, u16)>>::index_mut`, which the
/// ratatui source computes as `content[(y - area.y) * area.width + (x -
/// area.x)]` and which panics outside the area. The claim: the returned cell
/// shows what that position showed, the area stays, and afterwards the
/// position shows whatever the cell is left showing.
#[verifier::external_body]
pub(crate) fn cell_at(buf: &mut Buffer, x: u16, y: u16) -> (c: &mut Cell)
    requires
        buffer_ok(*old(buf)),
        x < buffer_area(*old(buf)).width,
        y < buffer_area(*old(buf)).height,
    ensures
        cell_shown(*c) == buffer_cells(*old(buf))[cell_index(buffer_area(*old(buf)).width as int, x as int, y as int)],
        buffer_area(*final(buf)) == buffer_area(*old(buf)),
        buffer_cells(*final(buf)) == buffer_cells(*old(buf)).update(
            cell_index(buffer_area(*old(buf)).width as int, x as int, y as int),
            cell_shown(*final(c)),
        ),
{
    &mut buf[(x, y)]
}

/// Sets the symbol of `c` to the single character `ch`.
///
/// Trusted: calls `Cell::set_char`, which the ratatui source shows storing
/// the UTF-8 encoding of `ch` as the symbol and touching nothing else.
#[verifier::external_body]
fn set_cell_char(c: &mut Cell, ch: char)
    ensures
        cell_shown(*final(c)) == (seq![ch], cell_shown(*old(c)).1, cell_shown(*old(c)).2),
{
    c.set_char(ch);
}

/// Sets the foreground colour of `c`.
///
/// Trusted: calls `Cell::set_fg` with `Color::Rgb`; the ratatui source shows
/// it assigning the field `fg` and nothing else.
#[verifier::external_body]
fn set_cell_fg(c: &mut Cell, fg: Rgb)
    ensures
        cell_shown(*final(c)) == (cell_shown(*old(c)).0, Some(fg), cell_shown(*old(c)).2),
{
    c.set_fg(Color::Rgb(fg.r, fg.g, fg.b));
}

/// Sets the background colour of `c`.
///
/// Trusted: calls `Cell::set_bg` with `Color::Rgb`; the ratatui source shows
/// it assigning the field `bg` and nothing else.
#[verifier::external_body]
pub(crate) fn set_cell_bg(c: &mut Cell, bg: Rgb)
    ensures
        cell_shown(*final(c)) == (cell_shown(*old(c)).0, cell_shown(*old(c)).1, Some(bg)),
{
    c.set_bg(Color::Rgb(bg.r, bg.g, bg.b));
}

/// Draws `ch` at the absolute position `(x, y)`.
fn paint(buf: &mut Buffer, x: u16, y: u16, ch: char, fg: Rgb, bg: Rgb)
    requires
        buffer_ok(*old(buf)),
        x < buffer_area(*old(buf)).width,
        y < buffer_area(*old(buf)).height,
    ensures
        buffer_area(*final(buf)) == buffer_area(*old(buf)),
        buffer_ok(*final(buf)),
        buffer_cells(*final(buf)) == buffer_cells(*old(buf)).update(
            cell_index(buffer_area(*old(buf)).width as int, x as int, y as int),
            painted(ch, fg, bg),
        ),
{
    proof {
        lemma_cell_index(buffer_area(*buf).width as int, buffer_area(*buf).height as int, x as int, y as int);
    }
    let cell = cell_at(buf, x, y);
    set_cell_char(cell, ch);
    set_cell_fg(cell, fg);
    set_cell_bg(cell, bg);
}

// ---------------------------------------------------------------------------
// Drawing, in coordinates relative to an area, clipped to the area and to
// the buffer
// ---------------------------------------------------------------------------

/// The absolute cell that drawing at `(x, y)` relative to `area` reaches in a
/// `w` by `h` buffer at the origin, if it reaches one: only points inside
/// the area, and inside the buffer, are drawn.
pub open spec fn put_target(area: Rect, x: int, y: int, w: int, h: int) -> Option<(int, int)> {
    if x < 0 || y < 0 || x >= area.width || y >= area.height {
        None
    } else if area.x + x >= w || area.y + y >= h {
        None
    } else {
        Some((area.x + x, area.y + y))
    }
}

/// `cells` of a `w` by `h` buffer once `shown` is drawn at `(x, y)` relative
/// to `area`.
pub open spec fn put_cells(
    cells: Seq<(Seq<char>, Option<Rgb>, Option<Rgb>)>,
    w: int,
    h: int,
    area: Rect,
    x: int,
    y: int,
    shown: (Seq<char>, Option<Rgb>, Option<Rgb>),
) -> Seq<(Seq<char>, Option<Rgb>, Option<Rgb>)> {
    match put_target(area, x, y, w, h) {
        Some(p) => cells.update(cell_index(w, p.0, p.1), shown),
        None => cells,
    }
}

/// Draws `ch` at `(x, y)` relative to `area`; nothing happens where that
/// falls outside the area or outside the buffer.
pub fn put(buf: &mut Buffer, area: Rect, x: i32, y: i32, ch: char, fg: Rgb, bg: Rgb)
    requires
        buffer_ok(*old(buf)),
    ensures
        buffer_area(*final(buf)) == buffer_area(*old(buf)),
        buffer_ok(*final(buf)),
        buffer_cells(*final(buf)) == put_cells(
            buffer_cells(*old(buf)),
            buffer_area(*old(buf)).width as int,
            buffer_area(*old(buf)).height as int,
            area,
            x as int,
            y as int,
            painted(ch, fg, bg),
        ),
{
    if x < 0 || y < 0 || x >= area.width as i32 || y >= area.height as i32 {
        return;
    }
    let ax = area.x as i32 + x;
    let ay = area.y as i32 + y;
    let b = area_of(buf);
    if ax >= b.width as i32 || ay >= b.height as i32 {
        return;
    }
    paint(buf, ax as u16, ay as u16, ch, fg, bg);
}

/// `(x, y)` lies in `area`.
pub open spec fn in_rect(area: Rect, x: int, y: int) -> bool {
    area.x <= x < area.x + area.width && area.y <= y < area.y + area.height
}

/// Draws `ch` on every cell of `area` that lies in the buffer.
pub fn fill(buf: &mut Buffer, area: Rect, ch: char, fg: Rgb, bg: Rgb)
    requires
        buffer_ok(*old(buf)),
    ensures
        buffer_area(*final(buf)) == buffer_area(*old(buf)),
        buffer_ok(*final(buf)),
        forall|px: int, py: int|
            0 <= px < buffer_area(*old(buf)).width && 0 <= py < buffer_area(*old(buf)).height
                ==> #[trigger] buffer_cells(*final(buf))[cell_index(buffer_area(*old(buf)).width as int, px, py)]
                == if in_rect(area, px, py) {
                painted(ch, fg, bg)
            } else {
                buffer_cells(*old(buf))[cell_index(buffer_area(*old(buf)).width as int, px, py)]
            },
{
    let ghost old_cells = buffer_cells(*buf);
    let b = area_of(buf);
    let ghost w = b.width as int;
    let ghost h = b.height as int;
    let y_end = area.y.saturating_add(area.height);
    let x_end = area.x.saturating_add(area.width);
    let mut y = area.y;
    while y < y_end
        invariant
            area.y <= y,
            y_end as int == if area.y + area.height > u16::MAX {
                u16::MAX as int
            } else {
                area.y + area.height
            },
            x_end as int == if area.x + area.width > u16::MAX {
                u16::MAX as int
            } else {
                area.x + area.width
            },
            b == buffer_area(*buf),
            w == b.width,
            h == b.height,
            buffer_ok(*buf),
            buffer_cells(*buf).len() == old_cells.len(),
            forall|px: int, py: int|
                0 <= px < w && 0 <= py < h ==> #[trigger] buffer_cells(*buf)[cell_index(w, px, py)]
                    == if in_rect(area, px, py) && py < y {
                    painted(ch, fg, bg)
                } else {
                    old_cells[cell_index(w, px, py)]
                },
        decreases y_end - y,
    {
        let mut x = area.x;
        while x < x_end
            invariant
                area.y <= y < y_end,
                area.x <= x,
                y_end as int == if area.y + area.height > u16::MAX {
                    u16::MAX as int
                } else {
                    area.y + area.height
                },
                x_end as int == if area.x + area.width > u16::MAX {
                    u16::MAX as int
                } else {
                    area.x + area.width
                },
                b == buffer_area(*buf),
                w == b.width,
                h == b.height,
                buffer_ok(*buf),
                buffer_cells(*buf).len() == old_cells.len(),
                forall|px: int, py: int|
                    0 <= px < w && 0 <= py < h ==> #[trigger] buffer_cells(*buf)[cell_index(w, px, py)]
                        == if in_rect(area, px, py) && (py < y || (py == y && px < x)) {
                        painted(ch, fg, bg)
                    } else {
                        old_cells[cell_index(w, px, py)]
                    },
            decreases x_end - x,
        {
            if !(x >= b.width || y >= b.height) {
                let ghost before = buffer_cells(*buf);
                proof {
                    lemma_cell_index(w, h, x as int, y as int);
                }
                paint(buf, x, y, ch, fg, bg);
                assert forall|px: int, py: int|
                    0 <= px < w && 0 <= py < h implies #[trigger] buffer_cells(*buf)[cell_index(w, px, py)]
                        == if in_rect(area, px, py) && (py < y || (py == y && px < x + 1)) {
                        painted(ch, fg, bg)
                    } else {
                        old_cells[cell_index(w, px, py)]
                    } by {
                    lemma_cell_index(w, h, px, py);
                    if px == x && py == y {
                    } else {
                        assert(cell_index(w, px, py) != cell_index(w, x as int, y as int));
                        assert(buffer_cells(*buf)[cell_index(w, px, py)] == before[cell_index(w, px, py)]);
                    }
                }
            }
            x = x + 1;
        }
        y = y + 1;
    }
}

/// What the cell at absolute `(px, py)` shows once the characters `s` are
/// written from `(x, y)` relative to `area`, one cell to the right per
/// character, on a row of `area` and cut at its edges; `before` is what it
/// showed.
pub open spec fn string_cell(
    before: (Seq<char>, Option<Rgb>, Option<Rgb>),
    area: Rect,
    x: int,
    y: int,
    s: Seq<char>,
    fg: Rgb,
    bg: Rgb,
    px: int,
    py: int,
) -> (Seq<char>, Option<Rgb>, Option<Rgb>) {
    let i = px - area.x - x;
    if 0 <= y < area.height && py == area.y + y && 0 <= i < s.len() && i < area.width - x && x + i >= 0 {
        painted(s[i], fg, bg)
    } else {
        before
    }
}

/// Writes `s` from `(x, y)` relative to `area`, one character per cell,
/// stopping at the right edge of `area`; cells outside the area or outside
/// the buffer are skipped.
pub fn set_string(buf: &mut Buffer, area: Rect, x: i32, y: i32, s: &str, fg: Rgb, bg: Rgb)
    requires
        buffer_ok(*old(buf)),
        area.width - x <= i32::MAX,
    ensures
        buffer_area(*final(buf)) == buffer_area(*old(buf)),
        buffer_ok(*final(buf)),
        forall|px: int, py: int|
            0 <= px < buffer_area(*old(buf)).width && 0 <= py < buffer_area(*old(buf)).height
                ==> #[trigger] buffer_cells(*final(buf))[cell_index(buffer_area(*old(buf)).width as int, px, py)]
                == string_cell(
                buffer_cells(*old(buf))[cell_index(buffer_area(*old(buf)).width as int, px, py)],
                area,
                x as int,
                y as int,
                s@,
                fg,
                bg,
                px,
                py,
            ),
{
    let ghost old_cells = buffer_cells(*buf);
    let ghost w = buffer_area(*buf).width as int;
    let ghost h = buffer_area(*buf).height as int;
    let max = area.width as i32 - x;
    if max <= 0 {
        return;
    }
    let chars = chars_of(s);
    let n = chars.len();
    let mut i: usize = 0;
    while i < n
        invariant
            0 < max,
            max == area.width - x,
            i <= n,
            i <= max,
            n == chars@.len(),
            chars@ == s@,
            w == buffer_area(*buf).width,
            h == buffer_area(*buf).height,
            buffer_ok(*buf),
            buffer_cells(*buf).len() == old_cells.len(),
            forall|px: int, py: int|
                0 <= px < w && 0 <= py < h ==> #[trigger] buffer_cells(*buf)[cell_index(w, px, py)]
                    == if px - area.x - x < i {
                    string_cell(old_cells[cell_index(w, px, py)], area, x as int, y as int, s@, fg, bg, px, py)
                } else {
                    old_cells[cell_index(w, px, py)]
                },
        ensures
            i == n || i >= max,
        decreases n - i,
    {
        if i as i32 >= max {
            break;
        }
        let ghost before = buffer_cells(*buf);
        put(buf, area, x + i as i32, y, chars[i], fg, bg);
        assert forall|px: int, py: int|
            0 <= px < w && 0 <= py < h implies #[trigger] buffer_cells(*buf)[cell_index(w, px, py)]
                == if px - area.x - x < i + 1 {
                string_cell(old_cells[cell_index(w, px, py)], area, x as int, y as int, s@, fg, bg, px, py)
            } else {
                old_cells[cell_index(w, px, py)]
            } by {
            lemma_cell_index(w, h, px, py);
            match put_target(area, x + i, y as int, w, h) {
                Some(p) => {
                    lemma_cell_index(w, h, p.0, p.1);
                    if px == p.0 && py == p.1 {
                    } else {
                        assert(buffer_cells(*buf)[cell_index(w, px, py)] == before[cell_index(w, px, py)]);
                    }
                },
                None => {},
            }
        }
        i = i + 1;
    }
    assert forall|px: int, py: int|
        0 <= px < w && 0 <= py < h implies #[trigger] buffer_cells(*buf)[cell_index(w, px, py)]
            == string_cell(old_cells[cell_index(w, px, py)], area, x as int, y as int, s@, fg, bg, px, py) by {
    }
}

/// The walk of Bresenham's algorithm from `(x, y)` towards `(x1, y1)`, with
/// error term `err`, extents `dx` (not negative) and `dy` (not positive), and
/// steps `sx`, `sy`; at most `fuel` steps are taken.
pub open spec fn line_walk(
    x: int,
    y: int,
    x1: int,
    y1: int,
    err: int,
    dx: int,
    dy: int,
    sx: int,
    sy: int,
    fuel: nat,
) -> Seq<(int, int)>
    decreases fuel,
{
    if (x == x1 && y == y1) || fuel == 0 {
        seq![(x, y)]
    } else {
        let e2 = 2 * err;
        let err1 = if e2 >= dy {
            err + dy
        } else {
            err
        };
        let nx = if e2 >= dy {
            x + sx
        } else {
            x
        };
        let err2 = if e2 <= dx {
            err1 + dx
        } else {
            err1
        };
        let ny = if e2 <= dx {
            y + sy
        } else {
            y
        };
        seq![(x, y)] + line_walk(nx, ny, x1, y1, err2, dx, dy, sx, sy, (fuel - 1) as nat)
    }
}

/// `|v|`.
pub open spec fn abs(v: int) -> int {
    if v < 0 {
        -v
    } else {
        v
    }
}

/// The points, in order, of the line from `(x0, y0)` to `(x1, y1)` as
/// Bresenham's algorithm draws it (every octant).
pub open spec fn line_points(x0: int, y0: int, x1: int, y1: int) -> Seq<(int, int)> {
    let dx = abs(x1 - x0);
    let dy = -abs(y1 - y0);
    let sx = if x0 < x1 {
        1int
    } else {
        -1int
    };
    let sy = if y0 < y1 {
        1int
    } else {
        -1int
    };
    line_walk(x0, y0, x1, y1, dx + dy, dx, dy, sx, sy, (dx - dy) as nat)
}

/// Drawing the points `pts` relative to `area` reaches the absolute cell
/// `(px, py)` of a `w` by `h` buffer.
pub open spec fn points_reach(pts: Seq<(int, int)>, area: Rect, w: int, h: int, px: int, py: int) -> bool {
    exists|k: int| 0 <= k < pts.len() && #[trigger] put_target(area, pts[k].0, pts[k].1, w, h) == Some((px, py))
}

/// Consecutive points differ by at most one in each coordinate.
pub open spec fn connected(pts: Seq<(int, int)>) -> bool {
    forall|k: int|
        1 <= k < pts.len() ==> abs(#[trigger] pts[k].0 - pts[k - 1].0) <= 1 && abs(
            pts[k].1 - pts[k - 1].1,
        ) <= 1
}

/// From any point of the walk, with the error term that Bresenham's
/// algorithm keeps, the walk reaches `(x1, y1)` in unit steps.
#[verifier::spinoff_prover]
proof fn lemma_walk_reaches_end(
    x: int,
    y: int,
    x1: int,
    y1: int,
    err: int,
    dx: int,
    big_dy: int,
    sx: int,
    sy: int,
    fuel: nat,
    rx: int,
    ry: int,
)
    requires
        0 <= dx,
        0 <= big_dy,
        sx == 1 || sx == -1,
        sy == 1 || sy == -1,
        rx == (x1 - x) * sx,
        ry == (y1 - y) * sy,
        0 <= rx <= dx,
        0 <= ry <= big_dy,
        err == dx - big_dy + big_dy * rx - dx * ry,
        rx + ry <= fuel,
    ensures
        line_walk(x, y, x1, y1, err, dx, -big_dy, sx, sy, fuel).len() >= 1,
        line_walk(x, y, x1, y1, err, dx, -big_dy, sx, sy, fuel)[0] == (x, y),
        line_walk(x, y, x1, y1, err, dx, -big_dy, sx, sy, fuel).last() == (x1, y1),
        connected(line_walk(x, y, x1, y1, err, dx, -big_dy, sx, sy, fuel)),
    decreases fuel,
{
    let dy = -big_dy;
    if rx == 0 {
        assert(x == x1) by (nonlinear_arith)
            requires
                rx == (x1 - x) * sx,
                rx == 0,
                sx == 1 || sx == -1,
        ;
    }
    if ry == 0 {
        assert(y == y1) by (nonlinear_arith)
            requires
                ry == (y1 - y) * sy,
                ry == 0,
                sy == 1 || sy == -1,
        ;
    }
    if x == x1 && y == y1 {
        return;
    }
    assert(rx > 0 || ry > 0);
    let e2 = 2 * err;
    if rx == 0 {
        assert(dx * ry >= dx) by (nonlinear_arith)
            requires
                ry >= 1,
                dx >= 0,
        ;
        assert(big_dy * rx == 0) by (nonlinear_arith)
            requires
                rx == 0,
        ;
        assert(e2 < dy);
    }
    if ry == 0 {
        assert(big_dy * rx >= big_dy) by (nonlinear_arith)
            requires
                rx >= 1,
                big_dy >= 0,
        ;
        assert(dx * ry == 0) by (nonlinear_arith)
            requires
                ry == 0,
        ;
        assert(e2 > dx);
    }
    let step_x = e2 >= dy;
    let step_y = e2 <= dx;
    let err1 = if step_x { err + dy } else { err };
    let nx = if step_x { x + sx } else { x };
    let err2 = if step_y { err1 + dx } else { err1 };
    let ny = if step_y { y + sy } else { y };
    let rx2 = if step_x { rx - 1 } else { rx };
    let ry2 = if step_y { ry - 1 } else { ry };
    assert(rx2 == (x1 - nx) * sx) by (nonlinear_arith)
        requires
            rx == (x1 - x) * sx,
            rx2 == (if step_x { rx - 1 } else { rx }),
            nx == (if step_x { x + sx } else { x }),
            sx == 1 || sx == -1,
    ;
    assert(ry2 == (y1 - ny) * sy) by (nonlinear_arith)
        requires
            ry == (y1 - y) * sy,
            ry2 == (if step_y { ry - 1 } else { ry }),
            ny == (if step_y { y + sy } else { y }),
            sy == 1 || sy == -1,
    ;
    assert(err2 == dx - big_dy + big_dy * rx2 - dx * ry2) by (nonlinear_arith)
        requires
            err == dx - big_dy + big_dy * rx - dx * ry,
            err1 == (if step_x { err - big_dy } else { err }),
            err2 == (if step_y { err1 + dx } else { err1 }),
            rx2 == (if step_x { rx - 1 } else { rx }),
            ry2 == (if step_y { ry - 1 } else { ry }),
    ;
    assert(step_x || step_y);
    lemma_walk_reaches_end(nx, ny, x1, y1, err2, dx, big_dy, sx, sy, (fuel - 1) as nat, rx2, ry2);
    let rest = line_walk(nx, ny, x1, y1, err2, dx, dy, sx, sy, (fuel - 1) as nat);
    let w = line_walk(x, y, x1, y1, err, dx, dy, sx, sy, fuel);
    assert(w == seq![(x, y)] + rest);
    assert forall|k: int| 1 <= k < w.len() implies abs(#[trigger] w[k].0 - w[k - 1].0) <= 1
        && abs(w[k].1 - w[k - 1].1) <= 1 by {
        if k > 1 {
            assert(w[k] == rest[k - 1]);
            assert(w[k - 1] == rest[k - 2]);
        } else {
            assert(w[1] == rest[0]);
            assert(w[0] == (x, y));
        }
    }
}

/// The line from `(x0, y0)` to `(x1, y1)` starts at `(x0, y0)`, ends at
/// `(x1, y1)`, and moves at most one cell in each direction per step.
pub proof fn law_line_joins_its_endpoints(x0: int, y0: int, x1: int, y1: int)
    ensures
        line_points(x0, y0, x1, y1).len() >= 1,
        line_points(x0, y0, x1, y1)[0] == (x0, y0),
        line_points(x0, y0, x1, y1).last() == (x1, y1),
        connected(line_points(x0, y0, x1, y1)),
{
    let dx = abs(x1 - x0);
    let big_dy = abs(y1 - y0);
    let sx = if x0 < x1 { 1int } else { -1int };
    let sy = if y0 < y1 { 1int } else { -1int };
    assert(dx == (x1 - x0) * sx) by (nonlinear_arith)
        requires
            dx == abs(x1 - x0),
            sx == (if x0 < x1 { 1int } else { -1int }),
    ;
    assert(big_dy == (y1 - y0) * sy) by (nonlinear_arith)
        requires
            big_dy == abs(y1 - y0),
            sy == (if y0 < y1 { 1int } else { -1int }),
    ;
    assert(dx - big_dy == dx - big_dy + big_dy * dx - dx * big_dy) by (nonlinear_arith);
    assert(line_points(x0, y0, x1, y1) == line_walk(x0, y0, x1, y1, dx - big_dy, dx, -big_dy, sx, sy, (dx + big_dy) as nat));
    lemma_walk_reaches_end(x0, y0, x1, y1, dx - big_dy, dx, big_dy, sx, sy, (dx + big_dy) as nat, dx, big_dy);
}

/// Every step of `pts` moves exactly one cell along the x axis (`along_x`)
/// or along the y axis.
pub open spec fn full_steps(pts: Seq<(int, int)>, along_x: bool) -> bool {
    forall|k: int|
        #![trigger pts[k]]
        1 <= k < pts.len() ==> (if along_x {
            abs(pts[k].0 - pts[k - 1].0)
        } else {
            abs(pts[k].1 - pts[k - 1].1)
        }) == 1
}

/// Along the major axis of the line, Bresenham's walk advances on every
/// step: with the error term in the range the algorithm keeps for that axis,
/// the walk has one point per remaining cell along it, plus the last.
#[verifier::spinoff_prover]
proof fn lemma_walk_major(
    x: int,
    y: int,
    x1: int,
    y1: int,
    err: int,
    dx: int,
    big_dy: int,
    sx: int,
    sy: int,
    fuel: nat,
    rx: int,
    ry: int,
    along_x: bool,
)
    requires
        0 <= dx,
        0 <= big_dy,
        sx == 1 || sx == -1,
        sy == 1 || sy == -1,
        rx == (x1 - x) * sx,
        ry == (y1 - y) * sy,
        0 <= rx <= dx,
        0 <= ry <= big_dy,
        err == dx - big_dy + big_dy * rx - dx * ry,
        rx + ry <= fuel,
        along_x ==> big_dy <= dx && 2 * err > dx - 2 * big_dy,
        !along_x ==> dx < big_dy && 2 * err <= dx,
    ensures
        line_walk(x, y, x1, y1, err, dx, -big_dy, sx, sy, fuel).len() == (if along_x {
            rx
        } else {
            ry
        }) + 1,
        full_steps(line_walk(x, y, x1, y1, err, dx, -big_dy, sx, sy, fuel), along_x),
    decreases fuel,
{
    let dy = -big_dy;
    if rx == 0 {
        assert(x == x1) by (nonlinear_arith)
            requires
                rx == (x1 - x) * sx,
                rx == 0,
                sx == 1 || sx == -1,
        ;
    }
    if ry == 0 {
        assert(y == y1) by (nonlinear_arith)
            requires
                ry == (y1 - y) * sy,
                ry == 0,
                sy == 1 || sy == -1,
        ;
    }
    if x == x1 && y == y1 {
        assert(rx == 0 && ry == 0) by (nonlinear_arith)
            requires
                rx == (x1 - x) * sx,
                ry == (y1 - y) * sy,
                x == x1,
                y == y1,
        ;
        return;
    }
    let e2 = 2 * err;
    if rx == 0 {
        assert(dx * ry >= dx) by (nonlinear_arith)
            requires
                ry >= 1,
                dx >= 0,
        ;
        assert(big_dy * rx == 0) by (nonlinear_arith)
            requires
                rx == 0,
        ;
        assert(e2 < dy);
    }
    if ry == 0 {
        assert(big_dy * rx >= big_dy) by (nonlinear_arith)
            requires
                rx >= 1,
                big_dy >= 0,
        ;
        assert(dx * ry == 0) by (nonlinear_arith)
            requires
                ry == 0,
        ;
        assert(e2 > dx);
    }
    let step_x = e2 >= dy;
    let step_y = e2 <= dx;
    assert(along_x ==> step_x && rx >= 1);
    assert(!along_x ==> step_y && ry >= 1);
    let err1 = if step_x { err + dy } else { err };
    let nx = if step_x { x + sx } else { x };
    let err2 = if step_y { err1 + dx } else { err1 };
    let ny = if step_y { y + sy } else { y };
    let rx2 = if step_x { rx - 1 } else { rx };
    let ry2 = if step_y { ry - 1 } else { ry };
    assert(rx2 == (x1 - nx) * sx) by (nonlinear_arith)
        requires
            rx == (x1 - x) * sx,
            rx2 == (if step_x { rx - 1 } else { rx }),
            nx == (if step_x { x + sx } else { x }),
            sx == 1 || sx == -1,
    ;
    assert(ry2 == (y1 - ny) * sy) by (nonlinear_arith)
        requires
            ry == (y1 - y) * sy,
            ry2 == (if step_y { ry - 1 } else { ry }),
            ny == (if step_y { y + sy } else { y }),
            sy == 1 || sy == -1,
    ;
    assert(err2 == dx - big_dy + big_dy * rx2 - dx * ry2) by (nonlinear_arith)
        requires
            err == dx - big_dy + big_dy * rx - dx * ry,
            err1 == (if step_x { err - big_dy } else { err }),
            err2 == (if step_y { err1 + dx } else { err1 }),
            rx2 == (if step_x { rx - 1 } else { rx }),
            ry2 == (if step_y { ry - 1 } else { ry }),
    ;
    lemma_walk_major(nx, ny, x1, y1, err2, dx, big_dy, sx, sy, (fuel - 1) as nat, rx2, ry2, along_x);
    let rest = line_walk(nx, ny, x1, y1, err2, dx, dy, sx, sy, (fuel - 1) as nat);
    let w = line_walk(x, y, x1, y1, err, dx, dy, sx, sy, fuel);
    assert(w == seq![(x, y)] + rest);
    assert(rest[0] == (nx, ny)) by {
        lemma_walk_reaches_end(nx, ny, x1, y1, err2, dx, big_dy, sx, sy, (fuel - 1) as nat, rx2, ry2);
    }
    assert forall|k: int| #![trigger w[k]] 1 <= k < w.len() implies (if along_x {
        abs(w[k].0 - w[k - 1].0)
    } else {
        abs(w[k].1 - w[k - 1].1)
    }) == 1 by {
        if k > 1 {
            assert(w[k] == rest[k - 1]);
            assert(w[k - 1] == rest[k - 2]);
        } else {
            assert(w[1] == rest[0]);
            assert(w[0] == (x, y));
        }
    }
}

/// The line from `(x0, y0)` to `(x1, y1)` has one point per cell along its
/// major axis, plus the last: `max(|x1 - x0|, |y1 - y0|) + 1` points, and
/// each step moves exactly one cell along that axis.
pub proof fn law_line_steps_along_its_major_axis(x0: int, y0: int, x1: int, y1: int)
    ensures
        line_points(x0, y0, x1, y1).len() == (if abs(x1 - x0) >= abs(y1 - y0) {
            abs(x1 - x0)
        } else {
            abs(y1 - y0)
        }) + 1,
        full_steps(line_points(x0, y0, x1, y1), abs(x1 - x0) >= abs(y1 - y0)),
{
    let dx = abs(x1 - x0);
    let big_dy = abs(y1 - y0);
    let sx = if x0 < x1 { 1int } else { -1int };
    let sy = if y0 < y1 { 1int } else { -1int };
    assert(dx == (x1 - x0) * sx) by (nonlinear_arith)
        requires
            dx == abs(x1 - x0),
            sx == (if x0 < x1 { 1int } else { -1int }),
    ;
    assert(big_dy == (y1 - y0) * sy) by (nonlinear_arith)
        requires
            big_dy == abs(y1 - y0),
            sy == (if y0 < y1 { 1int } else { -1int }),
    ;
    assert(dx - big_dy == dx - big_dy + big_dy * dx - dx * big_dy) by (nonlinear_arith);
    let pts = line_points(x0, y0, x1, y1);
    assert(pts == line_walk(x0, y0, x1, y1, dx - big_dy, dx, -big_dy, sx, sy, (dx + big_dy) as nat));
    if dx == 0 && big_dy == 0 {
        assert(x0 == x1 && y0 == y1);
        assert(pts == seq![(x0, y0)]);
    } else {
        lemma_walk_major(
            x0,
            y0,
            x1,
            y1,
            dx - big_dy,
            dx,
            big_dy,
            sx,
            sy,
            (dx + big_dy) as nat,
            dx,
            big_dy,
            dx >= big_dy,
        );
    }
}

/// Largest extent of a line whose arithmetic stays within `i32`.
pub const LINE_SPAN_MAX: i32 = 0x2AAA_AAAA;

/// Draws the line from `(x0, y0)` to `(x1, y1)` relative to `area` with
/// Bresenham's algorithm, `ch` on every point that lies in the area and in the buffer.
pub fn line(
    buf: &mut Buffer,
    area: Rect,
    x0: i32,
    y0: i32,
    x1: i32,
    y1: i32,
    ch: char,
    fg: Rgb,
    bg: Rgb,
)
    requires
        buffer_ok(*old(buf)),
        -LINE_SPAN_MAX <= x1 - x0 <= LINE_SPAN_MAX,
        -LINE_SPAN_MAX <= y1 - y0 <= LINE_SPAN_MAX,
    ensures
        buffer_area(*final(buf)) == buffer_area(*old(buf)),
        buffer_ok(*final(buf)),
        forall|px: int, py: int|
            0 <= px < buffer_area(*old(buf)).width && 0 <= py < buffer_area(*old(buf)).height
                ==> #[trigger] buffer_cells(*final(buf))[cell_index(buffer_area(*old(buf)).width as int, px, py)]
                == if points_reach(
                line_points(x0 as int, y0 as int, x1 as int, y1 as int),
                area,
                buffer_area(*old(buf)).width as int,
                buffer_area(*old(buf)).height as int,
                px,
                py,
            ) {
                painted(ch, fg, bg)
            } else {
                buffer_cells(*old(buf))[cell_index(buffer_area(*old(buf)).width as int, px, py)]
            },
{
    let ghost old_cells = buffer_cells(*buf);
    let ghost w = buffer_area(*buf).width as int;
    let ghost h = buffer_area(*buf).height as int;
    let ghost pts = line_points(x0 as int, y0 as int, x1 as int, y1 as int);
    let mut x0 = x0;
    let mut y0 = y0;
    let ddx = x1 - x0;
    let dx = if ddx < 0 {
        -ddx
    } else {
        ddx
    };
    let sx: i32 = if x0 < x1 {
        1
    } else {
        -1
    };
    let ddy = y1 - y0;
    let dy = -(if ddy < 0 {
        -ddy
    } else {
        ddy
    });
    let sy: i32 = if y0 < y1 {
        1
    } else {
        -1
    };
    let mut err = dx + dy;
    let ghost big_dy = -dy;
    let ghost mut rx: int = dx as int;
    let ghost mut ry: int = big_dy;
    let ghost mut fuel: nat = (dx - dy) as nat;
    let ghost mut done: Seq<(int, int)> = Seq::empty();
    let ghost start_x = x0 as int;
    let ghost start_y = y0 as int;
    assert(rx == (x1 - x0) * sx) by (nonlinear_arith)
        requires
            rx == dx,
            dx == abs(x1 - x0),
            sx == (if x0 < x1 { 1int } else { -1int }),
    ;
    assert(ry == (y1 - y0) * sy) by (nonlinear_arith)
        requires
            ry == big_dy,
            big_dy == abs(y1 - y0),
            sy == (if y0 < y1 { 1int } else { -1int }),
    ;
    assert(err == dx - big_dy + big_dy * rx - dx * ry) by (nonlinear_arith)
        requires
            rx == dx,
            ry == big_dy,
            err == dx - big_dy,
    ;
    loop
        invariant_except_break
            buffer_ok(*buf),
            w == buffer_area(*buf).width,
            h == buffer_area(*buf).height,
            buffer_cells(*buf).len() == old_cells.len(),
            0 <= dx <= LINE_SPAN_MAX,
            0 <= big_dy <= LINE_SPAN_MAX,
            dy == -big_dy,
            sx == 1 || sx == -1,
            sy == 1 || sy == -1,
            0 <= rx <= dx,
            0 <= ry <= big_dy,
            rx == (x1 - x0) * sx,
            ry == (y1 - y0) * sy,
            err == dx - big_dy + big_dy * rx - dx * ry,
            -3 * big_dy <= 2 * err <= 3 * dx,
            rx + ry <= fuel,
            done + line_walk(x0 as int, y0 as int, x1 as int, y1 as int, err as int, dx as int, dy as int, sx as int, sy as int, fuel) == pts,
            forall|px: int, py: int|
                0 <= px < w && 0 <= py < h ==> #[trigger] buffer_cells(*buf)[cell_index(w, px, py)]
                    == if points_reach(done, area, w, h, px, py) {
                    painted(ch, fg, bg)
                } else {
                    old_cells[cell_index(w, px, py)]
                },
        ensures
            buffer_ok(*buf),
            w == buffer_area(*buf).width,
            h == buffer_area(*buf).height,
            forall|px: int, py: int|
                0 <= px < w && 0 <= py < h ==> #[trigger] buffer_cells(*buf)[cell_index(w, px, py)]
                    == if points_reach(pts, area, w, h, px, py) {
                    painted(ch, fg, bg)
                } else {
                    old_cells[cell_index(w, px, py)]
                },
        decreases rx + ry,
    {
        let ghost before = buffer_cells(*buf);
        let ghost cur = (x0 as int, y0 as int);
        put(buf, area, x0, y0, ch, fg, bg);
        let ghost done1 = done.push(cur);
        assert forall|px: int, py: int|
            0 <= px < w && 0 <= py < h implies #[trigger] buffer_cells(*buf)[cell_index(w, px, py)]
                == if points_reach(done1, area, w, h, px, py) {
                painted(ch, fg, bg)
            } else {
                old_cells[cell_index(w, px, py)]
            } by {
            lemma_cell_index(w, h, px, py);
            let k_new = done.len() as int;
            assert(done1[k_new] == cur);
            if points_reach(done, area, w, h, px, py) {
                let k = choose|k: int| 0 <= k < done.len() && #[trigger] put_target(area, done[k].0, done[k].1, w, h) == Some((px, py));
                assert(done1[k] == done[k]);
            }
            match put_target(area, cur.0, cur.1, w, h) {
                Some(p) => {
                    lemma_cell_index(w, h, p.0, p.1);
                    if px == p.0 && py == p.1 {
                    } else {
                        assert(buffer_cells(*buf)[cell_index(w, px, py)] == before[cell_index(w, px, py)]);
                        if points_reach(done1, area, w, h, px, py) {
                            let k = choose|k: int| 0 <= k < done1.len() && #[trigger] put_target(area, done1[k].0, done1[k].1, w, h) == Some((px, py));
                            assert(k != k_new);
                            assert(done1[k] == done[k]);
                        }
                    }
                },
                None => {
                    if points_reach(done1, area, w, h, px, py) {
                        let k = choose|k: int| 0 <= k < done1.len() && #[trigger] put_target(area, done1[k].0, done1[k].1, w, h) == Some((px, py));
                        assert(k != k_new);
                        assert(done1[k] == done[k]);
                    }
                },
            }
        }
        if x0 == x1 && y0 == y1 {
            assert(done1 == pts);
            break;
        }
        proof {
            if rx == 0 {
                assert(x0 == x1) by (nonlinear_arith)
                    requires
                        rx == (x1 - x0) * sx,
                        rx == 0,
                        sx == 1 || sx == -1,
                ;
            }
            if ry == 0 {
                assert(y0 == y1) by (nonlinear_arith)
                    requires
                        ry == (y1 - y0) * sy,
                        ry == 0,
                        sy == 1 || sy == -1,
                ;
            }
            assert(rx + ry > 0);
            assert(fuel > 0);
        }
        let e2 = 2 * err;
        let ghost err0 = err as int;
        let ghost rx0 = rx;
        let ghost ry0 = ry;
        let ghost x_before = x0 as int;
        let ghost y_before = y0 as int;
        proof {
            if rx0 == 0 {
                assert(ry0 >= 1);
                assert(dx * ry0 >= dx) by (nonlinear_arith)
                    requires
                        ry0 >= 1,
                        dx >= 0,
                ;
                assert(big_dy >= ry0);
                assert(big_dy * rx0 == 0) by (nonlinear_arith)
                    requires
                        rx0 == 0,
                ;
                assert(e2 < dy);
            }
            if ry0 == 0 {
                assert(rx0 >= 1);
                assert(big_dy * rx0 >= big_dy) by (nonlinear_arith)
                    requires
                        rx0 >= 1,
                        big_dy >= 0,
                ;
                assert(dx * ry0 == 0) by (nonlinear_arith)
                    requires
                        ry0 == 0,
                ;
                assert(dx >= rx0);
                assert(e2 > dx);
            }
        }
        if e2 >= dy {
            err += dy;
            x0 += sx;
            proof {
                rx = rx - 1;
                assert(rx == (x1 - x0) * sx) by (nonlinear_arith)
                    requires
                        rx == (x1 - x_before) * sx - 1,
                        x0 == x_before + sx,
                        sx == 1 || sx == -1,
                ;
                assert(big_dy * rx == big_dy * rx0 - big_dy) by (nonlinear_arith)
                    requires
                        rx == rx0 - 1,
                ;
            }
        }
        if e2 <= dx {
            err += dx;
            y0 += sy;
            proof {
                ry = ry - 1;
                assert(ry == (y1 - y0) * sy) by (nonlinear_arith)
                    requires
                        ry == (y1 - y_before) * sy - 1,
                        y0 == y_before + sy,
                        sy == 1 || sy == -1,
                ;
                assert(dx * ry == dx * ry0 - dx) by (nonlinear_arith)
                    requires
                        ry == ry0 - 1,
                ;
            }
        }
        proof {
            assert(done1 + line_walk(x0 as int, y0 as int, x1 as int, y1 as int, err as int, dx as int, dy as int, sx as int, sy as int, (fuel - 1) as nat) == pts) by {
                assert(line_walk(x_before, y_before, x1 as int, y1 as int, err0, dx as int, dy as int, sx as int, sy as int, fuel)
                    == seq![cur] + line_walk(x0 as int, y0 as int, x1 as int, y1 as int, err as int, dx as int, dy as int, sx as int, sy as int, (fuel - 1) as nat));
                assert(done1 == done + seq![cur]);
            }
            fuel = (fuel - 1) as nat;
            done = done1;
        }
    }
}

// ---------------------------------------------------------------------------
// Palette
// ---------------------------------------------------------------------------

/// The named colours of the interface.
#[derive(Clone, Copy, Debug, PartialEq, Eq, Structural)]
pub enum Palette {
    Bg,
    Border,
    BorderBright,
    Text,
    TextDim,
    Red,
    Blue,
    Cyan,
    Magenta,
    Purple,
    Green,
    GreenMatrix,
    Yellow,
    White,
    Web,
    Black,
}

impl Palette {
    /// The colour this name stands for.
    pub open spec fn color(self) -> Rgb {
        match self {
            Palette::Bg => Rgb { r: 9, g: 7, b: 18 },
            Palette::Border => Rgb { r: 80, g: 68, b: 130 },
            Palette::BorderBright => Rgb { r: 140, g: 120, b: 210 },
            Palette::Text => Rgb { r: 225, g: 222, b: 238 },
            Palette::TextDim => Rgb { r: 140, g: 134, b: 168 },
            Palette::Red => Rgb { r: 229, g: 46, b: 58 },
            Palette::Blue => Rgb { r: 48, g: 120, b: 250 },
            Palette::Cyan => Rgb { r: 70, g: 222, b: 250 },
            Palette::Magenta => Rgb { r: 255, g: 70, b: 170 },
            Palette::Purple => Rgb { r: 170, g: 90, b: 255 },
            Palette::Green => Rgb { r: 70, g: 240, b: 150 },
            Palette::GreenMatrix => Rgb { r: 20, g: 220, b: 120 },
            Palette::Yellow => Rgb { r: 252, g: 200, b: 70 },
            Palette::White => Rgb { r: 238, g: 238, b: 248 },
            Palette::Web => Rgb { r: 226, g: 224, b: 232 },
            Palette::Black => Rgb { r: 8, g: 8, b: 14 },
        }
    }

    /// The colour this name stands for.
    pub fn rgb(self) -> (c: Rgb)
        ensures
            c == self.color(),
    {
        match self {
            Palette::Bg => Rgb { r: 9, g: 7, b: 18 },
            Palette::Border => Rgb { r: 80, g: 68, b: 130 },
            Palette::BorderBright => Rgb { r: 140, g: 120, b: 210 },
            Palette::Text => Rgb { r: 225, g: 222, b: 238 },
            Palette::TextDim => Rgb { r: 140, g: 134, b: 168 },
            Palette::Red => Rgb { r: 229, g: 46, b: 58 },
            Palette::Blue => Rgb { r: 48, g: 120, b: 250 },
            Palette::Cyan => Rgb { r: 70, g: 222, b: 250 },
            Palette::Magenta => Rgb { r: 255, g: 70, b: 170 },
            Palette::Purple => Rgb { r: 170, g: 90, b: 255 },
            Palette::Green => Rgb { r: 70, g: 240, b: 150 },
            Palette::GreenMatrix => Rgb { r: 20, g: 220, b: 120 },
            Palette::Yellow => Rgb { r: 252, g: 200, b: 70 },
            Palette::White => Rgb { r: 238, g: 238, b: 248 },
            Palette::Web => Rgb { r: 226, g: 224, b: 232 },
            Palette::Black => Rgb { r: 8, g: 8, b: 14 },
        }
    }
}

// ---------------------------------------------------------------------------
// Deterministic hash for the animations
// ---------------------------------------------------------------------------

/// `v` reduced modulo 2^64.
pub open spec fn mod64(v: int) -> u64 {
    (v % 0x1_0000_0000_0000_0000) as u64
}

/// Where the mixer of [`hash_spec`] starts for `a` and `b`: a weighted sum,
/// modulo 2^64.
pub open spec fn hash_seed(a: u64, b: u64) -> u64 {
    mod64(a * 0x9E37_79B9_7F4A_7C15 + b * 0xC2B2_AE3D_27D4_EB4F)
}

/// The mixer: xorshifts and multiplications by odd constants, all modulo
/// 2^64.
pub open spec fn hash_mix(x0: u64) -> u64 {
    let x1 = x0 ^ (x0 >> 30u64);
    let x2 = mod64(x1 * 0xBF58_476D_1CE4_E5B9);
    let x3 = x2 ^ (x2 >> 27u64);
    let x4 = mod64(x3 * 0x94D0_49BB_1331_11EB);
    x4 ^ (x4 >> 31u64)
}

/// The mixing function of the animations: a multiply-xorshift mix of `a`
/// and `b`, all arithmetic modulo 2^64.
pub open spec fn hash_spec(a: u64, b: u64) -> u64 {
    hash_mix(hash_seed(a, b))
}

/// Deterministic hash used to scatter stars, glyphs and flicker.
pub fn hash(a: u64, b: u64) -> (r: u64)
    ensures
        r == hash_spec(a, b),
{
    let p = a.wrapping_mul(0x9E37_79B9_7F4A_7C15);
    let q = b.wrapping_mul(0xC2B2_AE3D_27D4_EB4F);
    let mut x = p.wrapping_add(q);
    proof {
        let m: int = 0x1_0000_0000_0000_0000;
        vstd::arithmetic::div_mod::lemma_add_mod_noop(
            a * 0x9E37_79B9_7F4A_7C15,
            b * 0xC2B2_AE3D_27D4_EB4F,
            m,
        );
        assert(x == mod64(a * 0x9E37_79B9_7F4A_7C15 + b * 0xC2B2_AE3D_27D4_EB4F));
    }
    x ^= x >> 30;
    x = x.wrapping_mul(0xBF58_476D_1CE4_E5B9);
    x ^= x >> 27;
    x = x.wrapping_mul(0x94D0_49BB_1331_11EB);
    x ^= x >> 31;
    x
}

/// `x ^ (x >> 30)` tells 64-bit values apart.
proof fn lemma_xorshift30_injective(x: u64, z: u64)
    by (bit_vector)
    requires
        x ^ (x >> 30u64) == z ^ (z >> 30u64),
    ensures
        x == z,
{
}

/// `x ^ (x >> 27)` tells 64-bit values apart.
proof fn lemma_xorshift27_injective(x: u64, z: u64)
    by (bit_vector)
    requires
        x ^ (x >> 27u64) == z ^ (z >> 27u64),
    ensures
        x == z,
{
}

/// `x ^ (x >> 31)` tells 64-bit values apart.
proof fn lemma_xorshift31_injective(x: u64, z: u64)
    by (bit_vector)
    requires
        x ^ (x >> 31u64) == z ^ (z >> 31u64),
    ensures
        x == z,
{
}

/// When `k` has the inverse `kinv` modulo 2^64, `d * k` is a multiple of 2^64
/// only if `d` is.
proof fn lemma_cancel_unit(d: int, k: int, kinv: int, q: int)
    requires
        k * kinv == 1 + 0x1_0000_0000_0000_0000 * q,
        (d * k) % 0x1_0000_0000_0000_0000 == 0,
    ensures
        d % 0x1_0000_0000_0000_0000 == 0,
{
    let m: int = 0x1_0000_0000_0000_0000;
    vstd::arithmetic::div_mod::lemma_fundamental_div_mod(d * k, m);
    let t = (d * k) / m;
    assert((d * k) * kinv == (t * kinv) * m) by (nonlinear_arith)
        requires
            d * k == m * t,
    ;
    assert((d * k) * kinv == m * (d * q) + d) by (nonlinear_arith)
        requires
            k * kinv == 1 + m * q,
    ;
    vstd::arithmetic::div_mod::lemma_mod_multiples_basic(t * kinv, m);
    vstd::arithmetic::div_mod::lemma_mod_multiples_vanish(d * q, d, m);
}

/// `x * k + off` modulo 2^64 tells 64-bit values `x` apart when `k` has the
/// inverse `kinv` modulo 2^64.
proof fn lemma_affine64_injective(x: u64, z: u64, k: int, kinv: int, q: int, off: int)
    requires
        k * kinv == 1 + 0x1_0000_0000_0000_0000 * q,
        mod64(x * k + off) == mod64(z * k + off),
    ensures
        x == z,
{
    let m: int = 0x1_0000_0000_0000_0000;
    let u = x * k + off;
    let v = z * k + off;
    assert(0 <= u % m < m && 0 <= v % m < m) by {
        vstd::arithmetic::div_mod::lemma_mod_bound(u, m);
        vstd::arithmetic::div_mod::lemma_mod_bound(v, m);
    }
    assert(u % m == v % m);
    vstd::arithmetic::div_mod::lemma_sub_mod_noop(u, v, m);
    assert(u - v == (x - z) * k) by (nonlinear_arith)
        requires
            u == x * k + off,
            v == z * k + off,
    ;
    lemma_cancel_unit(x - z, k, kinv, q);
    vstd::arithmetic::div_mod::lemma_fundamental_div_mod(x - z, m);
    let w = (x - z) / m;
    assert(w == 0) by (nonlinear_arith)
        requires
            x - z == m * w,
            -m < x - z < m,
            m > 0,
    ;
}

/// The mixer tells its starting values apart.
proof fn lemma_hash_mix_injective(x: u64, z: u64)
    requires
        hash_mix(x) == hash_mix(z),
    ensures
        x == z,
{
    let x1 = x ^ (x >> 30u64);
    let x2 = mod64(x1 * 0xBF58_476D_1CE4_E5B9);
    let x3 = x2 ^ (x2 >> 27u64);
    let x4 = mod64(x3 * 0x94D0_49BB_1331_11EB);
    let z1 = z ^ (z >> 30u64);
    let z2 = mod64(z1 * 0xBF58_476D_1CE4_E5B9);
    let z3 = z2 ^ (z2 >> 27u64);
    let z4 = mod64(z3 * 0x94D0_49BB_1331_11EB);
    lemma_xorshift31_injective(x4, z4);
    lemma_affine64_injective(x3, z3, 0x94D0_49BB_1331_11EB, 0x3196_42B2_D24D_8EC3, 2077064247507883091, 0);
    lemma_xorshift27_injective(x2, z2);
    lemma_affine64_injective(x1, z1, 0xBF58_476D_1CE4_E5B9, 0x96DE_1B17_3F11_9089, 8125545580553827436, 0);
    lemma_xorshift30_injective(x, z);
}

/// The hash loses nothing of where its mixer starts: two pairs hash alike
/// exactly when their weighted sums agree modulo 2^64, so changing only the
/// first argument, or only the second, always changes the hash.
pub proof fn law_hash_separates_arguments(a: u64, b: u64, c: u64, d: u64)
    ensures
        hash_spec(a, b) == hash_spec(c, d) <==> hash_seed(a, b) == hash_seed(c, d),
        a != c ==> hash_spec(a, b) != hash_spec(c, b),
        b != d ==> hash_spec(a, b) != hash_spec(a, d),
{
    if hash_spec(a, b) == hash_spec(c, d) {
        lemma_hash_mix_injective(hash_seed(a, b), hash_seed(c, d));
    }
    if hash_spec(a, b) == hash_spec(c, b) {
        lemma_hash_mix_injective(hash_seed(a, b), hash_seed(c, b));
        lemma_affine64_injective(
            a,
            c,
            0x9E37_79B9_7F4A_7C15,
            0xF1DE_83E1_9937_733D,
            10771413168148108919,
            b * 0xC2B2_AE3D_27D4_EB4F,
        );
    }
    if hash_spec(a, b) == hash_spec(a, d) {
        lemma_hash_mix_injective(hash_seed(a, b), hash_seed(a, d));
        lemma_affine64_injective(
            b,
            d,
            0xC2B2_AE3D_27D4_EB4F,
            0x0BA7_9078_168D_4BAF,
            638699622168397319,
            a * 0x9E37_79B9_7F4A_7C15,
        );
    }
}

// ---------------------------------------------------------------------------
// Spinner
// ---------------------------------------------------------------------------

/// The frames of the waiting spinner.
pub open spec fn spinner_frames() -> Seq<char> {
    seq!['⠋', '⠙', '⠹', '⠸', '⠼', '⠴', '⠦', '⠧', '⠇', '⠏']
}

/// Frame `step` of the waiting spinner (the frames repeat).
pub fn spinner_frame(step: usize) -> (c: char)
    ensures
        c == spinner_frames()[(step % 10) as int],
{
    let frames: [char; 10] = ['⠋', '⠙', '⠹', '⠸', '⠼', '⠴', '⠦', '⠧', '⠇', '⠏'];
    assert(frames@ == spinner_frames());
    frames[step % 10]
}

// ---------------------------------------------------------------------------
// Pixel font
// ---------------------------------------------------------------------------

/// The 3x5 pixel font: for each character it knows, five rows of three
/// pixels, `1` for a lit pixel.
pub open spec fn glyph_spec(c: char) -> Option<Seq<Seq<char>>> {
    if c == 'A' {
        Some(seq!["111"@, "101"@, "111"@, "101"@, "101"@])
    } else if c == 'B' {
        Some(seq!["110"@, "101"@, "110"@, "101"@, "110"@])
    } else if c == 'C' {
        Some(seq!["111"@, "100"@, "100"@, "100"@, "111"@])
    } else if c == 'D' {
        Some(seq!["110"@, "101"@, "101"@, "101"@, "110"@])
    } else if c == 'E' {
        Some(seq!["111"@, "100"@, "110"@, "100"@, "111"@])
    } else if c == 'F' {
        Some(seq!["111"@, "100"@, "110"@, "100"@, "100"@])
    } else if c == 'G' {
        Some(seq!["111"@, "100"@, "101"@, "101"@, "111"@])
    } else if c == 'H' {
        Some(seq!["101"@, "101"@, "111"@, "101"@, "101"@])
    } else if c == 'I' {
        Some(seq!["111"@, "010"@, "010"@, "010"@, "111"@])
    } else if c == 'J' {
        Some(seq!["001"@, "001"@, "001"@, "101"@, "111"@])
    } else if c == 'K' {
        Some(seq!["101"@, "101"@, "100"@, "101"@, "101"@])
    } else if c == 'L' {
        Some(seq!["100"@, "100"@, "100"@, "100"@, "111"@])
    } else if c == 'M' {
        Some(seq!["101"@, "111"@, "111"@, "101"@, "101"@])
    } else if c == 'N' {
        Some(seq!["101"@, "111"@, "101"@, "101"@, "101"@])
    } else if c == 'O' {
        Some(seq!["111"@, "101"@, "101"@, "101"@, "111"@])
    } else if c == 'P' {
        Some(seq!["111"@, "101"@, "111"@, "100"@, "100"@])
    } else if c == 'Q' {
        Some(seq!["111"@, "101"@, "111"@, "011"@, "111"@])
    } else if c == 'R' {
        Some(seq!["111"@, "101"@, "110"@, "101"@, "101"@])
    } else if c == 'S' {
        Some(seq!["111"@, "100"@, "111"@, "001"@, "111"@])
    } else if c == 'T' {
        Some(seq!["111"@, "010"@, "010"@, "010"@, "010"@])
    } else if c == 'U' {
        Some(seq!["101"@, "101"@, "101"@, "101"@, "111"@])
    } else if c == 'V' {
        Some(seq!["101"@, "101"@, "101"@, "101"@, "010"@])
    } else if c == 'W' {
        Some(seq!["101"@, "101"@, "111"@, "111"@, "101"@])
    } else if c == 'X' {
        Some(seq!["101"@, "101"@, "010"@, "101"@, "101"@])
    } else if c == 'Y' {
        Some(seq!["101"@, "101"@, "010"@, "010"@, "010"@])
    } else if c == 'Z' {
        Some(seq!["111"@, "001"@, "010"@, "100"@, "111"@])
    } else if c == '0' {
        Some(seq!["111"@, "101"@, "111"@, "101"@, "111"@])
    } else if c == '1' {
        Some(seq!["010"@, "110"@, "010"@, "010"@, "111"@])
    } else if c == '2' {
        Some(seq!["111"@, "001"@, "111"@, "100"@, "111"@])
    } else if c == '3' {
        Some(seq!["111"@, "001"@, "111"@, "001"@, "111"@])
    } else if c == '4' {
        Some(seq!["101"@, "101"@, "111"@, "001"@, "001"@])
    } else if c == '5' {
        Some(seq!["111"@, "100"@, "111"@, "001"@, "111"@])
    } else if c == '6' {
        Some(seq!["111"@, "100"@, "111"@, "101"@, "111"@])
    } else if c == '7' {
        Some(seq!["111"@, "001"@, "010"@, "010"@, "010"@])
    } else if c == '8' {
        Some(seq!["111"@, "101"@, "111"@, "101"@, "111"@])
    } else if c == '9' {
        Some(seq!["111"@, "101"@, "111"@, "001"@, "111"@])
    } else if c == '.' {
        Some(seq!["000"@, "000"@, "000"@, "000"@, "010"@])
    } else if c == '!' {
        Some(seq!["010"@, "010"@, "010"@, "000"@, "010"@])
    } else if c == '-' {
        Some(seq!["000"@, "000"@, "111"@, "000"@, "000"@])
    } else if c == ':' {
        Some(seq!["000"@, "010"@, "000"@, "010"@, "000"@])
    } else if c == '?' {
        Some(seq!["111"@, "001"@, "010"@, "000"@, "010"@])
    } else if c == '_' {
        Some(seq!["000"@, "000"@, "000"@, "000"@, "111"@])
    } else if c == '·' {
        Some(seq!["000"@, "000"@, "000"@, "000"@, "000"@])
    } else if c == ' ' {
        Some(seq!["000"@, "000"@, "000"@, "000"@, "000"@])
    } else {
        None
    }
}

/// The rows of the glyph of `c` in the pixel font, if the font has one.
pub fn glyph(c: char) -> (g: Option<[&'static str; 5]>)
    ensures
        match glyph_spec(c) {
            Some(rows) => g is Some && rows.len() == 5 && forall|r: int|
                0 <= r < 5 ==> (#[trigger] g->0@[r])@ == rows[r] && rows[r].len() == 3,
            None => g is None,
        },
{
    proof {
        reveal_strlit("000");
        reveal_strlit("001");
        reveal_strlit("010");
        reveal_strlit("011");
        reveal_strlit("100");
        reveal_strlit("101");
        reveal_strlit("110");
        reveal_strlit("111");
    }
    match c {
        'A' => Some(["111", "101", "111", "101", "101"]),
        'B' => Some(["110", "101", "110", "101", "110"]),
        'C' => Some(["111", "100", "100", "100", "111"]),
        'D' => Some(["110", "101", "101", "101", "110"]),
        'E' => Some(["111", "100", "110", "100", "111"]),
        'F' => Some(["111", "100", "110", "100", "100"]),
        'G' => Some(["111", "100", "101", "101", "111"]),
        'H' => Some(["101", "101", "111", "101", "101"]),
        'I' => Some(["111", "010", "010", "010", "111"]),
        'J' => Some(["001", "001", "001", "101", "111"]),
        'K' => Some(["101", "101", "100", "101", "101"]),
        'L' => Some(["100", "100", "100", "100", "111"]),
        'M' => Some(["101", "111", "111", "101", "101"]),
        'N' => Some(["101", "111", "101", "101", "101"]),
        'O' => Some(["111", "101", "101", "101", "111"]),
        'P' => Some(["111", "101", "111", "100", "100"]),
        'Q' => Some(["111", "101", "111", "011", "111"]),
        'R' => Some(["111", "101", "110", "101", "101"]),
        'S' => Some(["111", "100", "111", "001", "111"]),
        'T' => Some(["111", "010", "010", "010", "010"]),
        'U' => Some(["101", "101", "101", "101", "111"]),
        'V' => Some(["101", "101", "101", "101", "010"]),
        'W' => Some(["101", "101", "111", "111", "101"]),
        'X' => Some(["101", "101", "010", "101", "101"]),
        'Y' => Some(["101", "101", "010", "010", "010"]),
        'Z' => Some(["111", "001", "010", "100", "111"]),
        '0' => Some(["111", "101", "111", "101", "111"]),
        '1' => Some(["010", "110", "010", "010", "111"]),
        '2' => Some(["111", "001", "111", "100", "111"]),
        '3' => Some(["111", "001", "111", "001", "111"]),
        '4' => Some(["101", "101", "111", "001", "001"]),
        '5' => Some(["111", "100", "111", "001", "111"]),
        '6' => Some(["111", "100", "111", "101", "111"]),
        '7' => Some(["111", "001", "010", "010", "010"]),
        '8' => Some(["111", "101", "111", "101", "111"]),
        '9' => Some(["111", "101", "111", "001", "111"]),
        '.' => Some(["000", "000", "000", "000", "010"]),
        '!' => Some(["010", "010", "010", "000", "010"]),
        '-' => Some(["000", "000", "111", "000", "000"]),
        ':' => Some(["000", "010", "000", "010", "000"]),
        '?' => Some(["111", "001", "010", "000", "010"]),
        '_' => Some(["000", "000", "000", "000", "111"]),
        '·' => Some(["000", "000", "000", "000", "000"]),
        ' ' => Some(["000", "000", "000", "000", "000"]),
        _ => None,
    }
}


/// Drawing the font row `row` from `(cx, cy)` relative to `area` lights the
/// absolute cell `(px, py)` of a `w` by `h` buffer.
pub open spec fn row_lights(
    row: Seq<char>,
    area: Rect,
    cx: int,
    cy: int,
    w: int,
    h: int,
    px: int,
    py: int,
) -> bool {
    exists|col: int|
        #![trigger row[col]]
        0 <= col < row.len() && row[col] == '1' && put_target(area, cx + col, cy, w, h) == Some(
            (px, py),
        )
}

/// Drawing the glyph `rows` from `(cx, cy)` relative to `area` lights the
/// absolute cell `(px, py)` of a `w` by `h` buffer.
pub open spec fn glyph_lights(
    rows: Seq<Seq<char>>,
    area: Rect,
    cx: int,
    cy: int,
    w: int,
    h: int,
    px: int,
    py: int,
) -> bool {
    exists|r: int| #![trigger rows[r]] 0 <= r < rows.len() && row_lights(rows[r], area, cx, cy + r, w, h, px, py)
}

/// Drawing `text` with the pixel font from `(x, y)` relative to `area`, with
/// `gap` columns between letters (each letter advances `3 + gap` columns,
/// known or not), lights the absolute cell `(px, py)` of a `w` by `h` buffer.
pub open spec fn text_lights(
    text: Seq<char>,
    area: Rect,
    x: int,
    y: int,
    gap: int,
    w: int,
    h: int,
    px: int,
    py: int,
) -> bool {
    exists|k: int|
        #![trigger text[k]]
        0 <= k < text.len() && glyph_spec(text[k]) is Some && glyph_lights(
            glyph_spec(text[k])->0,
            area,
            x + k * (3 + gap),
            y,
            w,
            h,
            px,
            py,
        )
}

/// Draws the lit pixels of one font row.
fn draw_row(buf: &mut Buffer, area: Rect, cx: i32, cy: i32, row: &str, fg: Rgb, bg: Rgb)
    requires
        buffer_ok(*old(buf)),
        row@.len() <= 3,
        cx + 2 <= i32::MAX,
    ensures
        buffer_area(*final(buf)) == buffer_area(*old(buf)),
        buffer_ok(*final(buf)),
        forall|px: int, py: int|
            0 <= px < buffer_area(*old(buf)).width && 0 <= py < buffer_area(*old(buf)).height
                ==> #[trigger] buffer_cells(*final(buf))[cell_index(buffer_area(*old(buf)).width as int, px, py)]
                == if row_lights(
                row@,
                area,
                cx as int,
                cy as int,
                buffer_area(*old(buf)).width as int,
                buffer_area(*old(buf)).height as int,
                px,
                py,
            ) {
                painted('█', fg, bg)
            } else {
                buffer_cells(*old(buf))[cell_index(buffer_area(*old(buf)).width as int, px, py)]
            },
{
    let ghost old_cells = buffer_cells(*buf);
    let ghost w = buffer_area(*buf).width as int;
    let ghost h = buffer_area(*buf).height as int;
    let chars = chars_of(row);
    let n = chars.len();
    for col in 0..n
        invariant
            n == row@.len(),
            chars@ == row@,
            n <= 3,
            cx + 2 <= i32::MAX,
            w == buffer_area(*buf).width,
            h == buffer_area(*buf).height,
            buffer_ok(*buf),
            buffer_cells(*buf).len() == old_cells.len(),
            forall|px: int, py: int|
                0 <= px < w && 0 <= py < h ==> #[trigger] buffer_cells(*buf)[cell_index(w, px, py)]
                    == if exists|c: int|
                    #![trigger row@[c]]
                    0 <= c < col && row@[c] == '1' && put_target(area, cx + c, cy as int, w, h) == Some(
                        (px, py),
                    ) {
                    painted('█', fg, bg)
                } else {
                    old_cells[cell_index(w, px, py)]
                },
    {
        if chars[col] == '1' {
            let ghost before = buffer_cells(*buf);
            put(buf, area, cx + col as i32, cy, '█', fg, bg);
            assert forall|px: int, py: int|
                0 <= px < w && 0 <= py < h implies #[trigger] buffer_cells(*buf)[cell_index(w, px, py)]
                    == if exists|c: int|
                    #![trigger row@[c]]
                    0 <= c < col + 1 && row@[c] == '1' && put_target(area, cx + c, cy as int, w, h)
                        == Some((px, py)) {
                    painted('█', fg, bg)
                } else {
                    old_cells[cell_index(w, px, py)]
                } by {
                lemma_cell_index(w, h, px, py);
                let hit = put_target(area, cx + col, cy as int, w, h) == Some((px, py));
                assert(row@[col as int] == '1');
                if hit {
                } else {
                    match put_target(area, cx + col, cy as int, w, h) {
                        Some(p) => {
                            lemma_cell_index(w, h, p.0, p.1);
                        },
                        None => {},
                    }
                    assert(buffer_cells(*buf)[cell_index(w, px, py)] == before[cell_index(w, px, py)]);
                    if exists|c: int|
                        #![trigger row@[c]]
                        0 <= c < col + 1 && row@[c] == '1' && put_target(area, cx + c, cy as int, w, h)
                            == Some((px, py)) {
                        let c = choose|c: int|
                            #![trigger row@[c]]
                            0 <= c < col + 1 && row@[c] == '1' && put_target(area, cx + c, cy as int, w, h)
                                == Some((px, py));
                        assert(c != col);
                    }
                }
            }
        } else {
            assert forall|px: int, py: int|
                0 <= px < w && 0 <= py < h implies #[trigger] buffer_cells(*buf)[cell_index(w, px, py)]
                    == if exists|c: int|
                    #![trigger row@[c]]
                    0 <= c < col + 1 && row@[c] == '1' && put_target(area, cx + c, cy as int, w, h)
                        == Some((px, py)) {
                    painted('█', fg, bg)
                } else {
                    old_cells[cell_index(w, px, py)]
                } by {
                if exists|c: int|
                    #![trigger row@[c]]
                    0 <= c < col + 1 && row@[c] == '1' && put_target(area, cx + c, cy as int, w, h)
                        == Some((px, py)) {
                    let c = choose|c: int|
                        #![trigger row@[c]]
                        0 <= c < col + 1 && row@[c] == '1' && put_target(area, cx + c, cy as int, w, h)
                            == Some((px, py));
                    assert(c != col);
                }
            }
        }
    }
}

/// Draws the glyph of `c` (nothing for a character the font lacks).
fn draw_glyph(buf: &mut Buffer, area: Rect, cx: i32, cy: i32, c: char, fg: Rgb, bg: Rgb)
    requires
        buffer_ok(*old(buf)),
        cx + 2 <= i32::MAX,
        cy + 4 <= i32::MAX,
    ensures
        buffer_area(*final(buf)) == buffer_area(*old(buf)),
        buffer_ok(*final(buf)),
        forall|px: int, py: int|
            0 <= px < buffer_area(*old(buf)).width && 0 <= py < buffer_area(*old(buf)).height
                ==> #[trigger] buffer_cells(*final(buf))[cell_index(buffer_area(*old(buf)).width as int, px, py)]
                == if glyph_spec(c) is Some && glyph_lights(
                glyph_spec(c)->0,
                area,
                cx as int,
                cy as int,
                buffer_area(*old(buf)).width as int,
                buffer_area(*old(buf)).height as int,
                px,
                py,
            ) {
                painted('█', fg, bg)
            } else {
                buffer_cells(*old(buf))[cell_index(buffer_area(*old(buf)).width as int, px, py)]
            },
{
    let ghost old_cells = buffer_cells(*buf);
    let ghost w = buffer_area(*buf).width as int;
    let ghost h = buffer_area(*buf).height as int;
    match glyph(c) {
        None => {},
        Some(rows) => {
            let ghost g = glyph_spec(c)->0;
            for r in 0..5usize
                invariant
                    glyph_spec(c) is Some,
                    g == glyph_spec(c)->0,
                    g.len() == 5,
                    forall|i: int| 0 <= i < 5 ==> (#[trigger] rows@[i])@ == g[i] && g[i].len() == 3,
                    cx + 2 <= i32::MAX,
                    cy + 4 <= i32::MAX,
                    w == buffer_area(*buf).width,
                    h == buffer_area(*buf).height,
                    buffer_ok(*buf),
                    buffer_cells(*buf).len() == old_cells.len(),
                    forall|px: int, py: int|
                        0 <= px < w && 0 <= py < h ==> #[trigger] buffer_cells(*buf)[cell_index(w, px, py)]
                            == if exists|i: int|
                            #![trigger g[i]]
                            0 <= i < r && row_lights(g[i], area, cx as int, cy + i, w, h, px, py) {
                            painted('█', fg, bg)
                        } else {
                            old_cells[cell_index(w, px, py)]
                        },
            {
                let ghost before = buffer_cells(*buf);
                let row = rows[r];
                assert(rows@[r as int] == row);
                draw_row(buf, area, cx, cy + r as i32, row, fg, bg);
                assert forall|px: int, py: int|
                    0 <= px < w && 0 <= py < h implies #[trigger] buffer_cells(*buf)[cell_index(w, px, py)]
                        == if exists|i: int|
                        #![trigger g[i]]
                        0 <= i < r + 1 && row_lights(g[i], area, cx as int, cy + i, w, h, px, py) {
                        painted('█', fg, bg)
                    } else {
                        old_cells[cell_index(w, px, py)]
                    } by {
                    assert(g[r as int] == row@);
                    if exists|i: int|
                        #![trigger g[i]]
                        0 <= i < r + 1 && row_lights(g[i], area, cx as int, cy + i, w, h, px, py) {
                        let i = choose|i: int|
                            #![trigger g[i]]
                            0 <= i < r + 1 && row_lights(g[i], area, cx as int, cy + i, w, h, px, py);
                        if i < r {
                        }
                    }
                }
            }
            assert forall|px: int, py: int|
                0 <= px < w && 0 <= py < h implies #[trigger] buffer_cells(*buf)[cell_index(w, px, py)]
                    == if glyph_lights(g, area, cx as int, cy as int, w, h, px, py) {
                    painted('█', fg, bg)
                } else {
                    old_cells[cell_index(w, px, py)]
                } by {
                if glyph_lights(g, area, cx as int, cy as int, w, h, px, py) {
                    let i = choose|i: int| #![trigger g[i]] 0 <= i < g.len() && row_lights(g[i], area, cx as int, cy + i, w, h, px, py);
                }
            }
        },
    }
}

/// `x + k * step` lies between its values at `k = 0` and `k = n`.
proof fn lemma_between(x: int, step: int, k: int, n: int)
    requires
        0 <= k <= n,
    ensures
        (x <= x + k * step <= x + n * step) || (x + n * step <= x + k * step <= x),
{
    assert((step >= 0 ==> k * step <= n * step && k * step >= 0) && (step < 0 ==> k * step >= n
        * step && k * step <= 0)) by (nonlinear_arith)
        requires
            0 <= k <= n,
    ;
}

/// Draws `text` with the 3x5 pixel font from `(x, y)` relative to `area`:
/// each letter advances `3 + gap` columns (characters the font lacks leave a
/// blank), and each lit pixel is drawn as a full block.
pub fn pixel_text(
    buf: &mut Buffer,
    area: Rect,
    x: i32,
    y: i32,
    text: &str,
    fg: Rgb,
    bg: Rgb,
    gap: i32,
)
    requires
        buffer_ok(*old(buf)),
        gap <= i32::MAX - 3,
        i32::MIN <= x + text@.len() * (3 + gap),
        x + text@.len() * (3 + gap) + 2 <= i32::MAX,
        x + 2 <= i32::MAX,
        y + 4 <= i32::MAX,
    ensures
        buffer_area(*final(buf)) == buffer_area(*old(buf)),
        buffer_ok(*final(buf)),
        forall|px: int, py: int|
            0 <= px < buffer_area(*old(buf)).width && 0 <= py < buffer_area(*old(buf)).height
                ==> #[trigger] buffer_cells(*final(buf))[cell_index(buffer_area(*old(buf)).width as int, px, py)]
                == if text_lights(
                text@,
                area,
                x as int,
                y as int,
                gap as int,
                buffer_area(*old(buf)).width as int,
                buffer_area(*old(buf)).height as int,
                px,
                py,
            ) {
                painted('█', fg, bg)
            } else {
                buffer_cells(*old(buf))[cell_index(buffer_area(*old(buf)).width as int, px, py)]
            },
{
    let ghost old_cells = buffer_cells(*buf);
    let ghost w = buffer_area(*buf).width as int;
    let ghost h = buffer_area(*buf).height as int;
    let ghost t = text@;
    let chars = chars_of(text);
    let n = chars.len();
    let mut cx = x;
    assert(x + 0 * (3 + gap) == x) by (nonlinear_arith);
    for k in 0..n
        invariant
            n == t.len(),
            chars@ == t,
            t == text@,
            gap <= i32::MAX - 3,
            i32::MIN <= x + n * (3 + gap),
            x + n * (3 + gap) + 2 <= i32::MAX,
            x + 2 <= i32::MAX,
            y + 4 <= i32::MAX,
            cx == x + k * (3 + gap),
            w == buffer_area(*buf).width,
            h == buffer_area(*buf).height,
            buffer_ok(*buf),
            buffer_cells(*buf).len() == old_cells.len(),
            forall|px: int, py: int|
                0 <= px < w && 0 <= py < h ==> #[trigger] buffer_cells(*buf)[cell_index(w, px, py)]
                    == if exists|j: int|
                    #![trigger t[j]]
                    0 <= j < k && glyph_spec(t[j]) is Some && glyph_lights(
                        glyph_spec(t[j])->0,
                        area,
                        x + j * (3 + gap),
                        y as int,
                        w,
                        h,
                        px,
                        py,
                    ) {
                    painted('█', fg, bg)
                } else {
                    old_cells[cell_index(w, px, py)]
                },
    {
        proof {
            lemma_between(x as int, 3 + gap, k as int, n as int);
            lemma_between(x as int, 3 + gap, k + 1, n as int);
        }
        let c = chars[k];
        assert(t[k as int] == c);
        draw_glyph(buf, area, cx, y, c, fg, bg);
        assert forall|px: int, py: int|
            0 <= px < w && 0 <= py < h implies #[trigger] buffer_cells(*buf)[cell_index(w, px, py)]
                == if exists|j: int|
                #![trigger t[j]]
                0 <= j < k + 1 && glyph_spec(t[j]) is Some && glyph_lights(
                    glyph_spec(t[j])->0,
                    area,
                    x + j * (3 + gap),
                    y as int,
                    w,
                    h,
                    px,
                    py,
                ) {
                painted('█', fg, bg)
            } else {
                old_cells[cell_index(w, px, py)]
            } by {
            if exists|j: int|
                #![trigger t[j]]
                0 <= j < k + 1 && glyph_spec(t[j]) is Some && glyph_lights(
                    glyph_spec(t[j])->0,
                    area,
                    x + j * (3 + gap),
                    y as int,
                    w,
                    h,
                    px,
                    py,
                ) {
                let j = choose|j: int|
                    #![trigger t[j]]
                    0 <= j < k + 1 && glyph_spec(t[j]) is Some && glyph_lights(
                        glyph_spec(t[j])->0,
                        area,
                        x + j * (3 + gap),
                        y as int,
                        w,
                        h,
                        px,
                        py,
                    );
                if j < k {
                }
            }
        }
        assert(x + k * (3 + gap) + (3 + gap) == x + (k + 1) * (3 + gap)) by (nonlinear_arith);
        cx = cx + (3 + gap);
    }
}

/// Every glyph of the pixel font has five rows of three pixels.
pub proof fn lemma_glyph_shape(c: char)
    requires
        glyph_spec(c) is Some,
    ensures
        glyph_spec(c)->0.len() == 5,
        forall|r: int| 0 <= r < 5 ==> (#[trigger] glyph_spec(c)->0[r]).len() == 3,
{
    reveal_strlit("000");
    reveal_strlit("001");
    reveal_strlit("010");
    reveal_strlit("011");
    reveal_strlit("100");
    reveal_strlit("101");
    reveal_strlit("110");
    reveal_strlit("111");
}

/// What the pixel font draws of `text` with one column between letters
/// lies within the box that [`pixel_width`] measures: `4 * len - 1` columns
/// wide and five rows high, from `(x, y)` relative to `area`.
pub proof fn law_pixel_text_fits_pixel_width(
    text: Seq<char>,
    area: Rect,
    x: int,
    y: int,
    w: int,
    h: int,
    px: int,
    py: int,
)
    requires
        text_lights(text, area, x, y, 1, w, h, px, py),
    ensures
        area.x + x <= px < area.x + x + 4 * text.len() - 1,
        area.y + y <= py < area.y + y + 5,
{
    let k = choose|k: int|
        #![trigger text[k]]
        0 <= k < text.len() && glyph_spec(text[k]) is Some && glyph_lights(
            glyph_spec(text[k])->0,
            area,
            x + k * (3 + 1),
            y,
            w,
            h,
            px,
            py,
        );
    let g = glyph_spec(text[k])->0;
    lemma_glyph_shape(text[k]);
    let r = choose|r: int| #![trigger g[r]] 0 <= r < g.len() && row_lights(g[r], area, x + k * 4, y + r, w, h, px, py);
    let row = g[r];
    let col = choose|col: int|
        #![trigger row[col]]
        0 <= col < row.len() && row[col] == '1' && put_target(area, x + k * 4 + col, y + r, w, h) == Some((px, py));
    assert(k * 4 <= (text.len() - 1) * 4) by (nonlinear_arith)
        requires
            0 <= k < text.len(),
    ;
}

/// Width in cells of `text` in the pixel font with one column between
/// letters.
pub fn pixel_width(text: &str) -> (w: i32)
    requires
        4 * text@.len() <= i32::MAX,
    ensures
        w == 4 * text@.len() - 1,
{
    let chars = chars_of(text);
    let n = chars.len();
    let mut w: i32 = 0;
    for i in 0..n
        invariant
            n == text@.len(),
            chars@ == text@,
            4 * n <= i32::MAX,
            w == 4 * i,
    {
        if glyph(chars[i]).is_some() {
            w += 3;
        } else {
            w += 3;
        }
        w += 1;
    }
    w - 1
}

} // verus!

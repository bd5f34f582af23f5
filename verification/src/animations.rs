//! The catalogue of background animations and the choice of which one to
//! draw.

use vstd::prelude::*;

use ratatui::buffer::Buffer;

use crate::theme::{
    buffer_area, buffer_cells, buffer_ok, painted, put, put_cells, Palette, Rect, Rgb,
};

verus! {

/// Number of animations that can be chosen.
pub const COUNT: usize = 5;

/// What the interface shows of an animation: its name, its tagline, and its
/// main and accent colours.
#[derive(Clone, Copy, Debug, PartialEq, Eq)]
pub struct AnimMeta {
    pub name: &'static str,
    pub tagline: &'static str,
    pub fg: Rgb,
    pub accent: Rgb,
}

/// The name of animation `i`.
pub open spec fn anim_name(i: int) -> Seq<char> {
    if i == 0 {
        "Spider-Man"@
    } else if i == 1 {
        "Matrix"@
    } else if i == 2 {
        "Synthwave"@
    } else if i == 3 {
        "Neón Cibernético"@
    } else {
        "Aurora Boreal"@
    }
}

/// The tagline of animation `i`.
pub open spec fn anim_tagline(i: int) -> Seq<char> {
    if i == 0 {
        "Tu instalación, tu responsabilidad"@
    } else if i == 1 {
        "Sigue al conejo blanco"@
    } else if i == 2 {
        "Noche ochentera de neón"@
    } else if i == 3 {
        "Protocolo de despliegue activo"@
    } else {
        "Luz del norte sobre tu escritorio"@
    }
}

/// The main colour of animation `i`.
pub open spec fn anim_fg(i: int) -> Rgb {
    if i == 0 {
        Palette::Red.color()
    } else if i == 1 {
        Palette::GreenMatrix.color()
    } else if i == 2 {
        Palette::Magenta.color()
    } else if i == 3 {
        Palette::Cyan.color()
    } else {
        Rgb { r: 120, g: 255, b: 190 }
    }
}

/// The accent colour of animation `i`.
pub open spec fn anim_accent(i: int) -> Rgb {
    if i == 0 {
        Palette::Blue.color()
    } else if i == 1 {
        Palette::White.color()
    } else if i == 2 {
        Palette::Cyan.color()
    } else if i == 3 {
        Palette::Magenta.color()
    } else {
        Palette::Purple.color()
    }
}

/// The catalogue of animations, in the order they are cycled through.
pub fn metas() -> (m: [AnimMeta; COUNT])
    ensures
        forall|i: int|
            0 <= i < COUNT ==> (#[trigger] m@[i]).name@ == anim_name(i) && m@[i].tagline@
                == anim_tagline(i) && m@[i].fg == anim_fg(i) && m@[i].accent == anim_accent(i),
{
    [
        AnimMeta {
            name: "Spider-Man",
            tagline: "Tu instalación, tu responsabilidad",
            fg: Palette::Red.rgb(),
            accent: Palette::Blue.rgb(),
        },
        AnimMeta {
            name: "Matrix",
            tagline: "Sigue al conejo blanco",
            fg: Palette::GreenMatrix.rgb(),
            accent: Palette::White.rgb(),
        },
        AnimMeta {
            name: "Synthwave",
            tagline: "Noche ochentera de neón",
            fg: Palette::Magenta.rgb(),
            accent: Palette::Cyan.rgb(),
        },
        AnimMeta {
            name: "Neón Cibernético",
            tagline: "Protocolo de despliegue activo",
            fg: Palette::Cyan.rgb(),
            accent: Palette::Magenta.rgb(),
        },
        AnimMeta {
            name: "Aurora Boreal",
            tagline: "Luz del norte sobre tu escritorio",
            fg: Rgb { r: 120, g: 255, b: 190 },
            accent: Palette::Purple.rgb(),
        },
    ]
}

/// The animations.
#[derive(Clone, Copy, Debug, PartialEq, Eq, Structural)]
pub enum Animation {
    Spider,
    Matrix,
    Synthwave,
    Cyber,
    Aurora,
}

/// Which animation to draw for index `idx` in an area of the given size:
/// none in an area narrower or lower than 4 cells, the last one for any
/// index past the others.
pub fn animation_for(idx: usize, width: u16, height: u16) -> (a: Option<Animation>)
    ensures
        a == (if width < 4 || height < 4 {
            None
        } else if idx == 0 {
            Some(Animation::Spider)
        } else if idx == 1 {
            Some(Animation::Matrix)
        } else if idx == 2 {
            Some(Animation::Synthwave)
        } else if idx == 3 {
            Some(Animation::Cyber)
        } else {
            Some(Animation::Aurora)
        }),
{
    if width < 4 || height < 4 {
        return None;
    }
    Some(
        match idx {
            0 => Animation::Spider,
            1 => Animation::Matrix,
            2 => Animation::Synthwave,
            3 => Animation::Cyber,
            _ => Animation::Aurora,
        },
    )
}

/// `cells` of a `w` by `h` buffer once the little spider centred on `(x, y)`
/// relative to `area` is drawn: legs in the web colour, body and head in
/// red, on the background.
pub open spec fn spider_cells(
    cells: Seq<(Seq<char>, Option<Rgb>, Option<Rgb>)>,
    w: int,
    h: int,
    area: Rect,
    x: int,
    y: int,
) -> Seq<(Seq<char>, Option<Rgb>, Option<Rgb>)> {
    let bg = Palette::Bg.color();
    let web = Palette::Web.color();
    let red = Palette::Red.color();
    let c1 = put_cells(cells, w, h, area, x - 1, y - 1, painted('\\', web, bg));
    let c2 = put_cells(c1, w, h, area, x + 1, y - 1, painted('/', web, bg));
    let c3 = put_cells(c2, w, h, area, x - 1, y, painted('(', red, bg));
    let c4 = put_cells(c3, w, h, area, x, y, painted('o', red, bg));
    let c5 = put_cells(c4, w, h, area, x + 1, y, painted(')', red, bg));
    let c6 = put_cells(c5, w, h, area, x - 1, y + 1, painted('/', web, bg));
    let c7 = put_cells(c6, w, h, area, x + 1, y + 1, painted('\\', web, bg));
    put_cells(c7, w, h, area, x, y - 2, painted('o', red, bg))
}

/// Draws the little spider centred on `(x, y)` relative to `area`.
pub fn draw_spider(buf: &mut Buffer, area: Rect, x: i32, y: i32)
    requires
        buffer_ok(*old(buf)),
        i32::MIN + 2 <= x,
        i32::MIN + 2 <= y,
        x < i32::MAX,
        y < i32::MAX,
    ensures
        buffer_area(*final(buf)) == buffer_area(*old(buf)),
        buffer_ok(*final(buf)),
        buffer_cells(*final(buf)) == spider_cells(
            buffer_cells(*old(buf)),
            buffer_area(*old(buf)).width as int,
            buffer_area(*old(buf)).height as int,
            area,
            x as int,
            y as int,
        ),
{
    let bg = Palette::Bg.rgb();
    let web = Palette::Web.rgb();
    let red = Palette::Red.rgb();
    put(buf, area, x - 1, y - 1, '\\', web, bg);
    put(buf, area, x + 1, y - 1, '/', web, bg);
    put(buf, area, x - 1, y, '(', red, bg);
    put(buf, area, x, y, 'o', red, bg);
    put(buf, area, x + 1, y, ')', red, bg);
    put(buf, area, x - 1, y + 1, '/', web, bg);
    put(buf, area, x + 1, y + 1, '\\', web, bg);
    put(buf, area, x, y - 2, 'o', red, bg);
}

} // verus!

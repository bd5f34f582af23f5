use ratatui::buffer::Buffer;
use ratatui::layout::Rect as TuiRect;
use ratatui::style::Color;

use spider_installer::animations::{animation_for, draw_spider, metas, Animation, COUNT};
use spider_installer::theme::{
    fill, glyph, hash, pixel_text, pixel_width, put, set_string, spinner_frame, Palette,
    Rect, Rgb,
};

fn buffer(w: u16, h: u16) -> Buffer {
    Buffer::empty(TuiRect::new(0, 0, w, h))
}

fn sym(buf: &Buffer, x: u16, y: u16) -> String {
    buf[(x, y)].symbol().to_string()
}

fn row(buf: &Buffer, y: u16) -> String {
    (0..buf.area.width).map(|x| sym(buf, x, y)).collect()
}

const FG: Rgb = Rgb { r: 1, g: 2, b: 3 };
const BGC: Rgb = Rgb { r: 4, g: 5, b: 6 };

#[test]
fn buffer_ready_checks_origin_and_size() {
    assert!(spider_installer::theme::buffer_ready(&buffer(3, 2)));
    assert!(!spider_installer::theme::buffer_ready(&Buffer::empty(TuiRect::new(1, 0, 3, 2))));
    let mut odd = buffer(3, 2);
    odd.content.pop();
    assert!(!spider_installer::theme::buffer_ready(&odd));
}

#[test]
fn hash_exact_values() {
    assert_eq!(hash(0, 0), 0);
    assert_eq!(hash(1, 2), 10111300219251959524);
    assert_eq!(hash(7, 3), 8498896999313644954);
    assert_eq!(hash(1, 2), hash(1, 2));
}

#[test]
fn pixel_width_is_four_per_char_minus_one() {
    assert_eq!(pixel_width("SPIDER"), 23);
    assert_eq!(pixel_width("MAN"), 11);
    assert_eq!(pixel_width("ñ"), 3);
    assert_eq!(pixel_width(""), -1);
}

#[test]
fn put_draws_and_clips() {
    let mut buf = buffer(4, 3);
    let area = Rect { x: 1, y: 1, width: 2, height: 2 };
    put(&mut buf, area, 0, 0, 'a', FG, BGC);
    assert_eq!(sym(&buf, 1, 1), "a");
    assert_eq!(buf[(1, 1)].fg, Color::Rgb(1, 2, 3));
    assert_eq!(buf[(1, 1)].bg, Color::Rgb(4, 5, 6));
    // Outside the buffer or at a negative offset: nothing happens.
    put(&mut buf, area, 5, 0, 'b', FG, BGC);
    put(&mut buf, area, -1, 0, 'c', FG, BGC);
    put(&mut buf, area, 0, 2, 'd', FG, BGC);
    assert_eq!(row(&buf, 0), "    ");
    assert_eq!(row(&buf, 1), " a  ");
    assert_eq!(row(&buf, 2), "    ");
    // Beyond the area, even inside the buffer: nothing happens.
    put(&mut buf, area, 2, 1, 'e', FG, BGC);
    put(&mut buf, area, 1, 2, 'f', FG, BGC);
    assert_eq!(row(&buf, 1), " a  ");
    assert_eq!(row(&buf, 2), "    ");
    put(&mut buf, area, 1, 1, 'g', FG, BGC);
    assert_eq!(row(&buf, 2), "  g ");
}

#[test]
fn put_right_of_the_area_leaves_the_buffer_unchanged() {
    let mut buf = buffer(10, 10);
    let before = buf.clone();
    put(&mut buf, Rect { x: 0, y: 0, width: 5, height: 5 }, 6, 1, 'x', FG, BGC);
    assert_eq!(buf, before);
}

#[test]
fn fill_covers_area_clipped() {
    let mut buf = buffer(5, 3);
    fill(&mut buf, Rect { x: 3, y: 1, width: 9, height: 1 }, '#', FG, BGC);
    assert_eq!(row(&buf, 0), "     ");
    assert_eq!(row(&buf, 1), "   ##");
    assert_eq!(row(&buf, 2), "     ");
}

#[test]
fn set_string_stops_at_area_edge() {
    let mut buf = buffer(8, 2);
    let area = Rect { x: 1, y: 0, width: 4, height: 2 };
    set_string(&mut buf, area, 1, 1, "hola mundo", FG, BGC);
    assert_eq!(row(&buf, 1), "  hol   ");
    set_string(&mut buf, area, -2, 0, "abcdef", FG, BGC);
    assert_eq!(row(&buf, 0), " cdef   ");
    set_string(&mut buf, area, 4, 0, "zz", FG, BGC);
    assert_eq!(row(&buf, 0), " cdef   ");
}

#[test]
fn line_follows_bresenham() {
    let mut buf = buffer(6, 3);
    let area = Rect { x: 0, y: 0, width: 6, height: 3 };
    spider_installer::theme::line(&mut buf, area, 0, 0, 5, 2, '*', FG, BGC);
    assert_eq!(row(&buf, 0), "**    ");
    assert_eq!(row(&buf, 1), "  **  ");
    assert_eq!(row(&buf, 2), "    **");

    // Points past the area's right edge are not drawn.
    let mut buf = buffer(6, 3);
    let narrow = Rect { x: 0, y: 0, width: 3, height: 3 };
    spider_installer::theme::line(&mut buf, narrow, 0, 0, 5, 2, '*', FG, BGC);
    assert_eq!(row(&buf, 0), "**    ");
    assert_eq!(row(&buf, 1), "  *   ");
    assert_eq!(row(&buf, 2), "      ");

    let mut buf = buffer(4, 5);
    let tall = Rect { x: 0, y: 0, width: 4, height: 5 };
    spider_installer::theme::line(&mut buf, tall, 2, 4, 2, 1, '|', FG, BGC);
    assert_eq!(row(&buf, 0), "    ");
    assert_eq!(row(&buf, 1), "  | ");
    assert_eq!(row(&buf, 4), "  | ");

    let mut buf = buffer(4, 4);
    spider_installer::theme::line(&mut buf, tall, 3, 3, 0, 0, '\\', FG, BGC);
    for i in 0..4 {
        assert_eq!(sym(&buf, i, i), "\\");
    }
    let mut buf = buffer(3, 3);
    spider_installer::theme::line(&mut buf, area, 1, 1, 1, 1, 'o', FG, BGC);
    assert_eq!(row(&buf, 1), " o ");
}

#[test]
fn pixel_text_draws_glyphs() {
    let mut buf = buffer(8, 5);
    let area = Rect { x: 0, y: 0, width: 8, height: 5 };
    pixel_text(&mut buf, area, 0, 0, "T1", FG, BGC, 1);
    assert_eq!(row(&buf, 0), "███  █  ");
    assert_eq!(row(&buf, 1), " █  ██  ");
    assert_eq!(row(&buf, 4), " █  ███ ");
    assert!(glyph('a').is_none());
    assert_eq!(glyph('A').unwrap()[0], "111");
}

#[test]
fn pixel_text_stays_within_pixel_width() {
    let mut buf = buffer(14, 6);
    let area = Rect { x: 0, y: 0, width: 14, height: 6 };
    pixel_text(&mut buf, area, 1, 0, "MAN", FG, BGC, 1);
    let w = pixel_width("MAN") as u16;
    for y in 0..6 {
        assert_eq!(sym(&buf, 0, y), " ");
        for x in (1 + w)..14 {
            assert_eq!(sym(&buf, x, y), " ");
        }
    }
    assert_eq!(row(&buf, 5), "              ");
    assert_eq!(sym(&buf, 1, 0), "█");
    assert_eq!(sym(&buf, w, 4), "█");
}

#[test]
fn spinner_cycles_through_ten_frames() {
    assert_eq!(spinner_frame(0), '⠋');
    assert_eq!(spinner_frame(9), '⠏');
    assert_eq!(spinner_frame(10), '⠋');
    assert_eq!(spinner_frame(23), '⠸');
}

#[test]
fn palette_values() {
    assert_eq!(Palette::Bg.rgb(), Rgb { r: 9, g: 7, b: 18 });
    assert_eq!(Palette::Red.rgb(), Rgb { r: 229, g: 46, b: 58 });
}

#[test]
fn animation_catalogue() {
    let m = metas();
    assert_eq!(m.len(), COUNT);
    assert_eq!(m[0].name, "Spider-Man");
    assert_eq!(m[3].name, "Neón Cibernético");
    assert_eq!(m[4].fg, Rgb { r: 120, g: 255, b: 190 });
    assert_eq!(m[4].accent, Palette::Purple.rgb());
    assert_eq!(animation_for(0, 10, 10), Some(Animation::Spider));
    assert_eq!(animation_for(3, 10, 10), Some(Animation::Cyber));
    assert_eq!(animation_for(9, 10, 10), Some(Animation::Aurora));
    assert_eq!(animation_for(1, 3, 10), None);
}

#[test]
fn spider_is_drawn_around_its_centre() {
    let mut buf = buffer(3, 4);
    draw_spider(&mut buf, Rect { x: 0, y: 0, width: 3, height: 4 }, 1, 2);
    assert_eq!(row(&buf, 0), " o ");
    assert_eq!(row(&buf, 1), "\\ /");
    assert_eq!(row(&buf, 2), "(o)");
    assert_eq!(row(&buf, 3), "/ \\");
}

#[test]
fn hash_changes_with_either_argument() {
    for a in 0..20u64 {
        for c in 0..20u64 {
            if a != c {
                assert_ne!(hash(a, 7), hash(c, 7));
                assert_ne!(hash(7, a), hash(7, c));
            }
        }
    }
    assert_ne!(hash(u64::MAX, 3), hash(0, 3));
}

#[test]
fn line_has_one_point_per_major_step() {
    let area = Rect { x: 0, y: 0, width: 12, height: 12 };
    let mut buf = buffer(12, 12);
    spider_installer::theme::line(&mut buf, area, 1, 2, 10, 6, '*', FG, BGC);
    let drawn: Vec<(u16, u16)> = (0..12u16)
        .flat_map(|y| (0..12u16).map(move |x| (x, y)))
        .filter(|&(x, y)| sym(&buf, x, y) == "*")
        .collect();
    // |dx| = 9 >= |dy| = 4: ten points, one in each column from 1 to 10.
    assert_eq!(drawn.len(), 10);
    for x in 1..=10u16 {
        assert_eq!(drawn.iter().filter(|p| p.0 == x).count(), 1);
    }
    let mut buf = buffer(12, 12);
    spider_installer::theme::line(&mut buf, area, 5, 0, 2, 9, '*', FG, BGC);
    for y in 0..=9u16 {
        assert_eq!((0..12u16).filter(|&x| sym(&buf, x, y) == "*").count(), 1);
    }
}

#[test]
fn buffer_size_reads_the_area() {
    let b = buffer(7, 3);
    assert_eq!(spider_installer::theme::buffer_size(&b), Rect { x: 0, y: 0, width: 7, height: 3 });
}

use ratatui::buffer::Buffer;
use ratatui::layout::Rect as TuiRect;
use ratatui::style::Color;

use spider_installer::runner::LogKind;
use spider_installer::state::{App, InstallStatus};
use spider_installer::theme::{Palette, Rect};
use spider_installer::view::{
    draw_bar_cells, draw_carousel, draw_menu, finished_banner, log_style, log_window, phase_mark,
    phase_window, title_bar, PhaseMark, TextStyle,
};

fn row(buf: &Buffer, y: u16) -> String {
    (0..buf.area.width).map(|x| buf[(x, y)].symbol().to_string()).collect()
}

#[test]
fn phase_window_keeps_current_in_view() {
    assert_eq!(phase_window(0, 6), (0, 6));
    assert_eq!(phase_window(7, 6), (4, 10));
    assert_eq!(phase_window(14, 6), (11, 15));
    assert_eq!(phase_window(99, 4), (12, 15));
    assert_eq!(phase_window(3, 40), (0, 15));
}

#[test]
fn phase_marks() {
    assert_eq!(
        phase_mark(1, 3, InstallStatus::Running),
        PhaseMark { symbol: '✓', color: Palette::Green, bold: false }
    );
    assert_eq!(
        phase_mark(3, 3, InstallStatus::Running),
        PhaseMark { symbol: '▶', color: Palette::Yellow, bold: true }
    );
    assert_eq!(phase_mark(3, 3, InstallStatus::Failed).symbol, '✘');
    assert_eq!(phase_mark(3, 3, InstallStatus::Success).color, Palette::Green);
    assert_eq!(phase_mark(4, 3, InstallStatus::Running).color, Palette::TextDim);
}

#[test]
fn log_view_helpers() {
    assert_eq!(log_window(10, 4), 6);
    assert_eq!(log_window(3, 4), 0);
    assert_eq!(log_style(LogKind::Step), (Palette::Cyan, true));
    assert_eq!(log_style(LogKind::Error), (Palette::Red, true));
    assert_eq!(log_style(LogKind::Info), (Palette::TextDim, false));
}

#[test]
fn step_line_by_status() {
    let mut a = App::new();
    a.status = InstallStatus::Running;
    a.current_step = "Paso".to_string();
    assert_eq!(a.step_line('x'), "  x  Paso");
    assert_eq!(a.step_color(), Palette::Yellow);
    a.status = InstallStatus::Success;
    assert_eq!(a.step_line('x'), "  ✔  Paso");
    a.status = InstallStatus::Failed;
    assert_eq!(a.step_line('x'), "  ✘  Paso");
    a.detail_line = "fallo".to_string();
    assert_eq!(a.step_line('x'), "  ✘  fallo");
    assert_eq!(a.step_color(), Palette::Red);
}

#[test]
fn finished_banner_titles() {
    assert_eq!(finished_banner(true), (Palette::Green, "INSTALACIÓN COMPLETADA"));
    assert_eq!(finished_banner(false), (Palette::Red, "ERROR EN LA INSTALACIÓN"));
}

#[test]
fn progress_bar_cells() {
    let mut buf = Buffer::empty(TuiRect::new(0, 0, 5, 1));
    draw_bar_cells(&mut buf, Rect { x: 0, y: 0, width: 5, height: 1 }, 19);
    assert_eq!(row(&buf, 0), "██▍░░");
    let mut buf = Buffer::empty(TuiRect::new(0, 0, 3, 1));
    draw_bar_cells(&mut buf, Rect { x: 0, y: 0, width: 3, height: 1 }, 24);
    assert_eq!(row(&buf, 0), "███");
    let mut buf = Buffer::empty(TuiRect::new(0, 0, 3, 1));
    draw_bar_cells(&mut buf, Rect { x: 0, y: 0, width: 3, height: 1 }, 0);
    assert_eq!(row(&buf, 0), "░░░");
}

#[test]
fn title_bar_fits_both_texts() {
    let mut buf = Buffer::empty(TuiRect::new(0, 0, 20, 2));
    let area = Rect { x: 0, y: 0, width: 20, height: 1 };
    title_bar(&mut buf, area, '*', "TITULO LARGO", "derecha", Palette::Red.rgb());
    assert_eq!(row(&buf, 0), "  * TITULO  derecha ");
    assert_eq!(buf[(0, 0)].bg, Color::Rgb(9, 7, 18));
    assert_eq!(row(&buf, 1), "                    ");
    let mut buf = Buffer::empty(TuiRect::new(0, 0, 12, 1));
    title_bar(&mut buf, Rect { x: 0, y: 0, width: 12, height: 1 }, '*', "AB", "xyzxyzxyz", Palette::Red.rgb());
    assert_eq!(row(&buf, 0), "  * A xyzxy ");
}

#[test]
fn menu_marks_selected_entry() {
    let mut buf = Buffer::empty(TuiRect::new(0, 0, 12, 4));
    draw_menu(&mut buf, Rect { x: 0, y: 0, width: 12, height: 4 }, 1);
    assert_eq!(row(&buf, 1), "   INSTALAR ");
    assert_eq!(row(&buf, 2), " ▶ SALIR    ");
    assert_eq!(buf[(1, 2)].bg, Color::Rgb(229, 46, 58));
}

#[test]
fn option_rows_follow_switches_and_focus() {
    let mut a = App::new();
    a.option_focus = 0;
    let r = a.option_row(0);
    assert_eq!(r.pointer, "▶ ");
    assert_eq!(r.pointer_style, TextStyle { fg: Palette::Yellow, bg: None, bold: true, dim: false });
    assert_eq!(r.mark, "✔");
    assert_eq!(r.mark_style, TextStyle { fg: Palette::Green, bg: None, bold: true, dim: false });
    assert_eq!(r.label, "Paquetes dnf + Flatpak (requiere sudo)");
    assert_eq!(r.label_style, TextStyle { fg: Palette::Text, bg: None, bold: true, dim: false });
    assert_eq!(r.state, "  activo");
    assert_eq!(r.state_style, TextStyle { fg: Palette::Green, bg: None, bold: false, dim: true });
    // The display switch starts off.
    let r = a.option_row(2);
    assert_eq!(r.pointer, "  ");
    assert_eq!(r.mark, " ");
    assert_eq!(r.label, "Configuración de pantallas (hardware)");
    assert_eq!(r.label_style, TextStyle { fg: Palette::TextDim, bg: None, bold: false, dim: false });
    assert_eq!(r.state, "  desactivado");
    assert_eq!(r.state_style.fg, Palette::Red);
    assert_eq!(a.option_row(3).label_style.fg, Palette::Green);
    assert!(!a.option_switch(2));
    assert!(a.option_switch(3));
    assert!(!a.option_switch(7));
}

#[test]
fn start_row_highlights_when_focused() {
    let mut a = App::new();
    a.option_focus = 4;
    assert_eq!(
        a.start_row(),
        ("   ▶  INICIAR INSTALACIÓN", TextStyle { fg: Palette::Black, bg: Some(Palette::Red), bold: true, dim: false })
    );
    a.option_focus = 1;
    assert_eq!(
        a.start_row(),
        ("      INICIAR INSTALACIÓN", TextStyle { fg: Palette::Green, bg: None, bold: true, dim: false })
    );
}

#[test]
fn carousel_is_centred_between_arrows() {
    let mut buf = Buffer::empty(TuiRect::new(0, 0, 51, 3));
    draw_carousel(&mut buf, Rect { x: 0, y: 0, width: 51, height: 3 }, 1, 1);
    assert_eq!(row(&buf, 1), "   ←◀   Matrix   ·   Sigue al conejo blanco   ▶ →  ");
    assert_eq!(buf[(10, 1)].fg, Color::Rgb(20, 220, 120));
    assert_eq!(row(&buf, 0), " ".repeat(51));
    // Narrower than the line: it starts at the left edge, cut at the right.
    let mut buf = Buffer::empty(TuiRect::new(0, 0, 40, 1));
    draw_carousel(&mut buf, Rect { x: 0, y: 0, width: 40, height: 1 }, 0, 1);
    assert_eq!(row(&buf, 0), "←   Matrix   ·   Sigue al conejo blanco ");
}

#[test]
fn toggling_flips_only_the_focused_row() {
    let mut a = App::new();
    a.option_focus = 1;
    let before: Vec<bool> = (0..4).map(|i| a.option_switch(i)).collect();
    a.toggle_option();
    for i in 0..4 {
        assert_eq!(a.option_switch(i), if i == 1 { !before[i] } else { before[i] });
    }
}

#[test]
fn password_line_masks_every_character() {
    let mut a = App::new();
    assert_eq!(a.password_line(true), "  Contraseña:  _");
    a.sudo.password = vec!['a', 'ñ', '1'];
    assert_eq!(a.password_line(true), "  Contraseña: ••• _");
    assert_eq!(a.password_line(false), "  Contraseña: •••  ");
}

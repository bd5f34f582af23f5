//! Parsing of the installer's output: log lines, their kinds, and the phases
//! of an installation.

use vstd::prelude::*;

pub use crate::text::strip_ansi;

use crate::state::Options;
use crate::text::{
    chars_of, contains_chars, has_infix, has_prefix, lowercase, range_has_prefix,
    stripped, to_lowercase, trim, trim_bounds,
};

verus! {

// ---------------------------------------------------------------------------
// Phases of an installation
// ---------------------------------------------------------------------------

/// Number of installation phases.
pub const PHASE_COUNT: usize = 15;

/// The text (in lower case) that marks the start of phase `i` in the
/// installer's output.
pub open spec fn phase_matcher_spec(i: int) -> Seq<char> {
    if i == 0 {
        "sistema detectado"@
    } else if i == 1 {
        "instalando paquetes dnf"@
    } else if i == 2 {
        "anadiendo remoto flathub"@
    } else if i == 3 {
        "instalando aplicaciones flatpak"@
    } else if i == 4 {
        "tela-circle"@
    } else if i == 5 {
        "instalacion limpia"@
    } else if i == 6 {
        "dotfiles de"@
    } else if i == 7 {
        "configuraciones"@
    } else if i == 8 {
        "temas y datos de aplicaciones"@
    } else if i == 9 {
        "wallpapers y recursos"@
    } else if i == 10 {
        "actualizando caches"@
    } else if i == 11 {
        "aplicando ajustes kde"@
    } else if i == 12 {
        "pantallas"@
    } else if i == 13 {
        "recargando la sesion plasma"@
    } else {
        "instalacion completada"@
    }
}

/// The label shown for phase `i`.
pub open spec fn phase_label_spec(i: int) -> Seq<char> {
    if i == 0 {
        "Detección del sistema"@
    } else if i == 1 {
        "Paquetes del sistema (dnf)"@
    } else if i == 2 {
        "Añadiendo remoto Flathub"@
    } else if i == 3 {
        "Aplicaciones Flatpak"@
    } else if i == 4 {
        "Iconos Tela (descarga)"@
    } else if i == 5 {
        "Instalación limpia (backup)"@
    } else if i == 6 {
        "Dotfiles de $HOME"@
    } else if i == 7 {
        "Configuraciones (→ ~/.config)"@
    } else if i == 8 {
        "Temas y datos (→ ~/.local/share)"@
    } else if i == 9 {
        "Wallpapers y recursos gráficos"@
    } else if i == 10 {
        "Actualizando caches"@
    } else if i == 11 {
        "Aplicando ajustes KDE"@
    } else if i == 12 {
        "Configuración de pantallas"@
    } else if i == 13 {
        "Recargando la sesión Plasma"@
    } else {
        "Instalación completada"@
    }
}

/// The marker text of phase `i`.
pub fn phase_matcher(i: usize) -> (m: &'static str)
    requires
        i < PHASE_COUNT,
    ensures
        m@ == phase_matcher_spec(i as int),
{
    match i {
        0 => "sistema detectado",
        1 => "instalando paquetes dnf",
        2 => "anadiendo remoto flathub",
        3 => "instalando aplicaciones flatpak",
        4 => "tela-circle",
        5 => "instalacion limpia",
        6 => "dotfiles de",
        7 => "configuraciones",
        8 => "temas y datos de aplicaciones",
        9 => "wallpapers y recursos",
        10 => "actualizando caches",
        11 => "aplicando ajustes kde",
        12 => "pantallas",
        13 => "recargando la sesion plasma",
        _ => "instalacion completada",
    }
}

/// The label of phase `i`.
pub fn phase_label(i: usize) -> (l: &'static str)
    requires
        i < PHASE_COUNT,
    ensures
        l@ == phase_label_spec(i as int),
{
    match i {
        0 => "Detección del sistema",
        1 => "Paquetes del sistema (dnf)",
        2 => "Añadiendo remoto Flathub",
        3 => "Aplicaciones Flatpak",
        4 => "Iconos Tela (descarga)",
        5 => "Instalación limpia (backup)",
        6 => "Dotfiles de $HOME",
        7 => "Configuraciones (→ ~/.config)",
        8 => "Temas y datos (→ ~/.local/share)",
        9 => "Wallpapers y recursos gráficos",
        10 => "Actualizando caches",
        11 => "Aplicando ajustes KDE",
        12 => "Configuración de pantallas",
        13 => "Recargando la sesión Plasma",
        _ => "Instalación completada",
    }
}

/// The first phase at or after `start` whose marker occurs in `lower`.
pub open spec fn first_phase_from(lower: Seq<char>, start: int) -> Option<int>
    decreases PHASE_COUNT - start,
{
    if start < 0 || start >= PHASE_COUNT {
        None
    } else if has_infix(lower, phase_matcher_spec(start)) {
        Some(start)
    } else {
        first_phase_from(lower, start + 1)
    }
}

/// Finds the first phase at or after `start` whose marker occurs in the
/// (already lower-cased) line `lower`.
pub fn match_phase_from(lower: &Vec<char>, start: usize) -> (r: Option<usize>)
    ensures
        r == (match first_phase_from(lower@, start as int) {
            Some(i) => Some(i as usize),
            None => None,
        }),
{
    let mut i = start;
    while i < PHASE_COUNT
        invariant
            start <= i,
            first_phase_from(lower@, start as int) == first_phase_from(lower@, i as int),
        decreases PHASE_COUNT - i,
    {
        let m = chars_of(phase_matcher(i));
        if contains_chars(lower, &m) {
            return Some(i);
        }
        i = i + 1;
    }
    None
}

/// The phase that a line of output announces: the first phase whose marker
/// occurs in the line, compared in lower case.
pub fn match_phase(line: &str) -> (r: Option<usize>)
    ensures
        r == (match first_phase_from(lowercase(line@), 0) {
            Some(i) => Some(i as usize),
            None => None,
        }),
{
    let lower = to_lowercase(line);
    let lv = chars_of(lower.as_str());
    match_phase_from(&lv, 0)
}

/// What [`first_phase_from`] finds, said without recursion.
pub proof fn lemma_first_phase_from(lower: Seq<char>, start: int)
    requires
        0 <= start,
    ensures
        match first_phase_from(lower, start) {
            Some(i) => start <= i < PHASE_COUNT && has_infix(lower, phase_matcher_spec(i))
                && forall|j: int| start <= j < i ==> !has_infix(lower, phase_matcher_spec(j)),
            None => forall|j: int|
                start <= j < PHASE_COUNT ==> !has_infix(lower, phase_matcher_spec(j)),
        },
    decreases PHASE_COUNT - start,
{
    if start < PHASE_COUNT && !has_infix(lower, phase_matcher_spec(start)) {
        lemma_first_phase_from(lower, start + 1);
    }
}

// ---------------------------------------------------------------------------
// Log lines
// ---------------------------------------------------------------------------

/// The kind of a line of installer output.
#[derive(Clone, Copy, Debug, PartialEq, Eq, Structural)]
pub enum LogKind {
    Step,
    Okay,
    Warn,
    Error,
    Info,
}

/// A line of installer output, as it is kept and shown.
pub struct LogLine {
    pub kind: LogKind,
    pub text: String,
}

impl View for LogLine {
    type V = (LogKind, Seq<char>);

    open spec fn view(&self) -> (LogKind, Seq<char>) {
        (self.kind, self.text@)
    }
}

/// The kind of a line whose trimmed, escape-free text is `t`.
pub open spec fn kind_of(t: Seq<char>) -> LogKind {
    if has_prefix(t, "==>"@) {
        LogKind::Step
    } else if has_prefix(t, "[ ok ]"@) {
        LogKind::Okay
    } else if has_prefix(t, "[warn]"@) {
        LogKind::Warn
    } else if has_prefix(t, "[err ]"@) || has_prefix(t, "[err]"@) {
        LogKind::Error
    } else {
        LogKind::Info
    }
}

/// Classifies a raw line of output and returns it with its escape sequences
/// removed.
pub fn classify_line(raw: &str) -> (r: (LogKind, String))
    ensures
        r.1@ == stripped(raw@),
        r.0 == kind_of(trim(stripped(raw@))),
{
    let clean = strip_ansi(raw);
    let cv = chars_of(clean.as_str());
    let (lo, hi) = trim_bounds(&cv);
    let kind = if range_has_prefix(&cv, lo, hi, "==>") {
        LogKind::Step
    } else if range_has_prefix(&cv, lo, hi, "[ ok ]") {
        LogKind::Okay
    } else if range_has_prefix(&cv, lo, hi, "[warn]") {
        LogKind::Warn
    } else if range_has_prefix(&cv, lo, hi, "[err ]") || range_has_prefix(&cv, lo, hi, "[err]") {
        LogKind::Error
    } else if range_has_prefix(&cv, lo, hi, "[dotfiles]") || range_has_prefix(
        &cv,
        lo,
        hi,
        "[bootstrap]",
    ) {
        LogKind::Info
    } else {
        LogKind::Info
    };
    (kind, clean)
}

// ---------------------------------------------------------------------------
// The installer's command line
// ---------------------------------------------------------------------------

/// The arguments handed to `bash` to run the installer with `o`.
pub open spec fn installer_args_spec(o: Options) -> Seq<Seq<char>> {
    seq![
        "install.sh"@,
        "--yes"@,
        if o.packages {
            "--with-packages"@
        } else {
            "--no-packages"@
        },
        if o.themes {
            "--with-themes"@
        } else {
            "--no-themes"@
        },
    ] + (if o.display {
        seq!["--with-display-config"@]
    } else {
        Seq::empty()
    }) + (if !o.restart {
        seq!["--no-restart"@]
    } else {
        Seq::empty()
    })
}

/// The arguments handed to `bash` to run the installer with the options `o`
/// (unattended, packages and themes switched on or off explicitly).
pub fn installer_args(o: Options) -> (args: Vec<&'static str>)
    ensures
        args@.map_values(|a: &'static str| a@) == installer_args_spec(o),
{
    let mut args: Vec<&'static str> = Vec::new();
    args.push("install.sh");
    args.push("--yes");
    if o.packages {
        args.push("--with-packages");
    } else {
        args.push("--no-packages");
    }
    if o.themes {
        args.push("--with-themes");
    } else {
        args.push("--no-themes");
    }
    if o.display {
        args.push("--with-display-config");
    }
    if !o.restart {
        args.push("--no-restart");
    }
    assert(args@.map_values(|a: &'static str| a@) =~= installer_args_spec(o));
    args
}

/// The installer always runs unattended, and the packages and themes
/// switches always say explicitly whether to install them.
pub proof fn law_installer_runs_unattended(o: Options)
    ensures
        installer_args_spec(o)[0] == "install.sh"@,
        installer_args_spec(o)[1] == "--yes"@,
        installer_args_spec(o)[2] == (if o.packages {
            "--with-packages"@
        } else {
            "--no-packages"@
        }),
        installer_args_spec(o)[3] == (if o.themes {
            "--with-themes"@
        } else {
            "--no-themes"@
        }),
        installer_args_spec(o).len() == 4 + (if o.display {
            1int
        } else {
            0
        }) + (if o.restart {
            0int
        } else {
            1
        }),
{
}

/// Each switch is on the installer's command line exactly when its option
/// asks for it: packages and themes say on or off as their options are, the
/// display configuration is applied only when `display` is on, and
/// `--no-restart` is passed only when `restart` is off.
pub proof fn law_each_switch_follows_its_option(o: Options)
    ensures
        installer_args_spec(o).contains("--with-packages"@) <==> o.packages,
        installer_args_spec(o).contains("--no-packages"@) <==> !o.packages,
        installer_args_spec(o).contains("--with-themes"@) <==> o.themes,
        installer_args_spec(o).contains("--no-themes"@) <==> !o.themes,
        installer_args_spec(o).contains("--with-display-config"@) <==> o.display,
        installer_args_spec(o).contains("--no-restart"@) <==> !o.restart,
        installer_args_spec(o).len() == 4 + (if o.display {
            1int
        } else {
            0
        }) + (if o.restart {
            0int
        } else {
            1
        }),
{
    reveal_strlit("install.sh");
    reveal_strlit("--yes");
    reveal_strlit("--with-packages");
    reveal_strlit("--no-packages");
    reveal_strlit("--with-themes");
    reveal_strlit("--no-themes");
    reveal_strlit("--with-display-config");
    reveal_strlit("--no-restart");
    let a = installer_args_spec(o);
    assert(a[2] == (if o.packages { "--with-packages"@ } else { "--no-packages"@ }));
    assert(a[3] == (if o.themes { "--with-themes"@ } else { "--no-themes"@ }));
    if o.display {
        assert(a[4] == "--with-display-config"@);
    }
    if !o.restart {
        assert(a[a.len() - 1] == "--no-restart"@);
    }
    assert("--no-packages"@[2] != "--with-themes"@[2]);
    assert("install.sh"@.len() == 10 && "--yes"@.len() == 5 && "--with-packages"@.len() == 15
        && "--no-packages"@.len() == 13 && "--with-themes"@.len() == 13 && "--no-themes"@.len()
        == 11 && "--with-display-config"@.len() == 21 && "--no-restart"@.len() == 12);
    assert forall|k: int| 0 <= k < a.len() implies (#[trigger] a[k] == "--with-display-config"@ ==> (
        o.display && k == 4)) && (a[k] == "--no-restart"@ ==> !o.restart) && (a[k]
        == "--with-packages"@ ==> o.packages) && (a[k] == "--no-packages"@ ==> !o.packages) && (a[k]
        == "--with-themes"@ ==> o.themes) && (a[k] == "--no-themes"@ ==> !o.themes) by {
        if k == 0 {
            assert(a[k] == "install.sh"@);
        } else if k == 1 {
            assert(a[k] == "--yes"@);
        } else if k == 2 {
        } else if k == 3 {
            if !o.themes {
                assert(a[k].len() != "--with-packages"@.len());
            }
        } else if k == 4 && o.display {
        } else {
            assert(a[k] == "--no-restart"@);
        }
    }
}

} // verus!

use spider_installer::runner::{
    classify_line, installer_args, match_phase, phase_label, phase_matcher, strip_ansi, LogKind,
    PHASE_COUNT,
};
use spider_installer::state::Options;

#[test]
fn strip_ansi_removes_codes() {
    assert_eq!(strip_ansi("\u{1b}[31m[ ok ]\u{1b}[0m  x"), "[ ok ]  x");
    assert_eq!(strip_ansi("hola"), "hola");
}

#[test]
fn classify_kinds() {
    assert_eq!(classify_line("==> Sistema detectado").0, LogKind::Step);
    assert_eq!(classify_line("[ ok ] copiado").0, LogKind::Okay);
    assert_eq!(classify_line("[warn] sin sudo").0, LogKind::Warn);
    assert_eq!(classify_line("[err ] fallo").0, LogKind::Error);
    assert_eq!(classify_line("[dotfiles] backup").0, LogKind::Info);
    assert_eq!(classify_line("salida de dnf").0, LogKind::Info);
}

#[test]
fn phases_advance_in_order() {
    let steps = [
        "==> Sistema detectado",
        "==> Instalando paquetes dnf (3)",
        "==> Anadiendo remoto Flathub",
        "==> Instalando aplicaciones Flatpak (2)",
        "==> Descargando Tela-circle-icon-theme (master)",
        "==> Instalacion limpia (se elimina lo desplegado anteriormente, con backup)",
        "==> Dotfiles de /home/lownoise",
        "==> Configuraciones (-> ~/.config)",
        "==> Temas y datos de aplicaciones (-> ~/.local/share)",
        "==> Wallpapers y recursos graficos",
        "==> Actualizando caches",
        "==> Aplicando ajustes KDE (herramientas oficiales de Plasma)",
        "==> Aplicando configuracion de pantallas (kwinoutputconfig.json)",
        "==> Recargando la sesion Plasma",
        "==> Instalacion completada.",
    ];
    let mut prev = 0usize;
    for (i, s) in steps.iter().enumerate() {
        let idx = match_phase(s).expect("fase no encontrada");
        assert!(idx >= prev, "fase fuera de orden en el paso {i}: {s}");
        assert_eq!(idx, i, "orden de fases incorrecto en: {s}");
        prev = idx;
    }
}

#[test]
fn strip_ansi_drops_unterminated_sequence() {
    assert_eq!(strip_ansi("ok\u{1b}[31"), "ok");
    assert_eq!(strip_ansi("\u{1b}m\u{1b}[1;32mverde\u{1b}[0m!"), "verde!");
    assert_eq!(strip_ansi(""), "");
}

#[test]
fn strip_ansi_twice_is_once() {
    let raw = "\u{1b}[33m[warn]\u{1b}[0m aviso \u{1b}[1m";
    let once = strip_ansi(raw);
    assert_eq!(strip_ansi(&once), once);
    assert!(!once.contains('\u{1b}'));
}

#[test]
fn classify_keeps_clean_text_and_trims_for_kind() {
    let (kind, text) = classify_line("   \u{1b}[32m[ ok ]\u{1b}[0m listo  ");
    assert_eq!(kind, LogKind::Okay);
    assert_eq!(text, "   [ ok ] listo  ");
    assert_eq!(classify_line("\t[err] roto").0, LogKind::Error);
    assert_eq!(classify_line("[bootstrap] inicio").0, LogKind::Info);
    assert_eq!(classify_line("x ==> no").0, LogKind::Info);
    assert_eq!(classify_line("").0, LogKind::Info);
}

#[test]
fn match_phase_is_case_insensitive_and_first_wins() {
    assert_eq!(match_phase("ACTUALIZANDO CACHES"), Some(10));
    assert_eq!(match_phase("nada que ver"), None);
    // "pantallas" and "configuraciones" both occur: the earlier phase wins.
    assert_eq!(match_phase("configuraciones de pantallas"), Some(7));
}

#[test]
fn phase_tables_have_fifteen_entries() {
    assert_eq!(PHASE_COUNT, 15);
    assert_eq!(phase_matcher(0), "sistema detectado");
    assert_eq!(phase_label(0), "Detección del sistema");
    assert_eq!(phase_label(14), "Instalación completada");
}

#[test]
fn installer_args_follow_options() {
    let o = Options { packages: true, themes: true, display: false, restart: true };
    assert_eq!(installer_args(o), vec!["install.sh", "--yes", "--with-packages", "--with-themes"]);
    let o = Options { packages: false, themes: false, display: true, restart: false };
    assert_eq!(
        installer_args(o),
        vec![
            "install.sh",
            "--yes",
            "--no-packages",
            "--no-themes",
            "--with-display-config",
            "--no-restart"
        ]
    );
}

#[test]
fn strip_ansi_only_deletes_characters() {
    let raw = "a\u{1b}[1mb\u{1b}[0mc\u{1b}[31";
    let out = strip_ansi(raw);
    assert_eq!(out, "abc");
    let mut rest = raw.chars();
    for c in out.chars() {
        assert!(rest.any(|r| r == c));
    }
    assert!(out.chars().count() <= raw.chars().count());
}

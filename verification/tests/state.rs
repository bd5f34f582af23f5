use spider_installer::animations::COUNT;
use spider_installer::runner::{LogKind, PHASE_COUNT};
use spider_installer::state::{
    App, ArgOutcome, AuthOutcome, InstallStatus, Key, KeyAction, KeyPress, Options, Screen,
    LOG_CAPACITY,
};

fn key(code: Key) -> KeyPress {
    KeyPress { code, ctrl: false }
}

fn ch(c: char) -> KeyPress {
    key(Key::Char(c))
}

#[test]
fn new_app_starts_on_welcome() {
    let a = App::new();
    assert_eq!(a.screen, Screen::Welcome);
    assert_eq!(a.status, InstallStatus::Ready);
    assert_eq!(a.options, Options { packages: true, themes: true, display: false, restart: true });
    assert_eq!(a.current_step, "Detección del sistema");
    assert!(a.log.is_empty());
    assert_eq!(Options::default(), a.options);
}

#[test]
fn welcome_menu_wraps_and_chooses() {
    let mut a = App::new();
    assert_eq!(a.handle_key(key(Key::Down)), KeyAction::Continue);
    assert_eq!(a.menu_idx, 1);
    assert_eq!(a.handle_key(ch('k')), KeyAction::Continue);
    assert_eq!(a.menu_idx, 0);
    a.handle_key(ch('j'));
    assert_eq!(a.handle_key(key(Key::Enter)), KeyAction::Quit);
    a.handle_key(key(Key::Up));
    assert_eq!(a.handle_key(key(Key::Enter)), KeyAction::Continue);
    assert_eq!(a.screen, Screen::Setup);
}

#[test]
fn welcome_quits_on_q_and_esc() {
    let mut a = App::new();
    assert_eq!(a.handle_key(ch('q')), KeyAction::Quit);
    assert_eq!(a.handle_key(key(Key::Esc)), KeyAction::Quit);
    assert_eq!(a.handle_key(ch('x')), KeyAction::Continue);
}

#[test]
fn setup_cycles_animations_and_focus() {
    let mut a = App::new();
    a.screen = Screen::Setup;
    a.handle_key(key(Key::Left));
    assert_eq!(a.anim_idx, COUNT - 1);
    a.handle_key(key(Key::Right));
    assert_eq!(a.anim_idx, 0);
    a.handle_key(key(Key::Up));
    assert_eq!(a.option_focus, 4);
    a.handle_key(key(Key::Down));
    assert_eq!(a.option_focus, 0);
}

#[test]
fn setup_space_toggles_or_starts() {
    let mut a = App::new();
    a.screen = Screen::Setup;
    assert_eq!(a.handle_key(ch(' ')), KeyAction::Continue);
    assert!(!a.options.packages);
    assert_eq!(a.handle_key(ch(' ')), KeyAction::Continue);
    assert!(a.options.packages);
    a.option_focus = 2;
    a.handle_key(ch(' '));
    assert!(a.options.display);
    a.option_focus = 4;
    assert_eq!(a.handle_key(ch(' ')), KeyAction::StartInstall);
    assert_eq!(a.handle_key(key(Key::Enter)), KeyAction::StartInstall);
    assert_eq!(a.handle_key(key(Key::Esc)), KeyAction::Quit);
}

#[test]
fn toggle_option_flips_each_switch() {
    let mut a = App::new();
    for focus in 0..4 {
        a.option_focus = focus;
        a.toggle_option();
    }
    assert_eq!(a.options, Options { packages: false, themes: false, display: true, restart: false });
    a.option_focus = 4;
    a.toggle_option();
    assert_eq!(a.options, Options { packages: false, themes: false, display: true, restart: false });
}

#[test]
fn start_install_asks_sudo_only_for_packages() {
    let mut a = App::new();
    a.screen = Screen::Setup;
    a.sudo.error = "viejo".to_string();
    assert!(!a.start_install(false));
    assert_eq!(a.screen, Screen::Auth);
    assert!(a.sudo.needed);
    assert!(a.sudo.error.is_empty());

    let mut b = App::new();
    b.screen = Screen::Setup;
    assert!(b.start_install(true));
    assert_eq!(b.screen, Screen::Setup);

    let mut c = App::new();
    c.options.packages = false;
    assert!(c.start_install(false));
}

#[test]
fn auth_screen_edits_password() {
    let mut a = App::new();
    a.screen = Screen::Auth;
    a.handle_key(ch('a'));
    a.handle_key(ch('b'));
    a.handle_key(KeyPress { code: Key::Char('c'), ctrl: true });
    assert_eq!(a.sudo.password, vec!['a', 'b']);
    a.handle_key(key(Key::Backspace));
    assert_eq!(a.sudo.password, vec!['a']);
    a.handle_key(key(Key::Backspace));
    a.handle_key(key(Key::Backspace));
    assert!(a.sudo.password.is_empty());
    a.handle_key(ch('z'));
    assert_eq!(a.handle_key(key(Key::Enter)), KeyAction::Authenticate);
    a.sudo.error = "x".to_string();
    a.handle_key(key(Key::Esc));
    assert_eq!(a.screen, Screen::Setup);
    assert!(a.sudo.password.is_empty());
    assert!(a.sudo.error.is_empty());
    assert!(!a.sudo.needed);
}

#[test]
fn finish_auth_outcomes() {
    let mut a = App::new();
    a.screen = Screen::Auth;
    a.sudo.password = vec!['s', 'e'];
    a.sudo.needed = true;
    assert!(!a.finish_auth(AuthOutcome::Rejected));
    assert_eq!(a.sudo.error, "Contrasena incorrecta o usuario sin permisos sudo.");
    assert!(!a.finish_auth(AuthOutcome::SpawnFailed("no existe".to_string())));
    assert_eq!(a.sudo.error, "No se pudo lanzar sudo: no existe");
    assert!(!a.finish_auth(AuthOutcome::WaitFailed("roto".to_string())));
    assert_eq!(a.sudo.error, "sudo fallo: roto");
    assert!(a.finish_auth(AuthOutcome::Accepted));
    assert!(a.sudo.password.is_empty());
    assert!(!a.sudo.needed);
}

#[test]
fn begin_install_success_and_failure() {
    let mut a = App::new();
    a.phase_idx = 5;
    a.ingest_line("hola");
    a.begin_install(Ok(()));
    assert_eq!(a.status, InstallStatus::Running);
    assert_eq!(a.screen, Screen::Install);
    assert_eq!(a.phase_idx, 0);
    assert!(a.log.is_empty());

    let mut b = App::new();
    b.begin_install(Err("sin install.sh".to_string()));
    assert_eq!(b.status, InstallStatus::Failed);
    assert_eq!(b.screen, Screen::Install);
    assert_eq!(b.detail_line, "No se pudo lanzar install.sh: sin install.sh");
}

#[test]
fn ingest_advances_phases_forward_only() {
    let mut a = App::new();
    a.begin_install(Ok(()));
    a.ingest_line("\u{1b}[1m==> Actualizando caches\u{1b}[0m");
    assert_eq!(a.phase_idx, 10);
    assert_eq!(a.current_step, "Actualizando caches");
    assert_eq!(a.log.len(), 1);
    assert_eq!(a.log[0].kind, LogKind::Step);
    assert_eq!(a.log[0].text, "==> Actualizando caches");
    // An earlier phase does not move the progress back.
    a.ingest_line("==> Sistema detectado");
    assert_eq!(a.phase_idx, 10);
    // A non-step line mentioning a phase does not move it either.
    a.ingest_line("[ ok ] recargando la sesion plasma");
    assert_eq!(a.phase_idx, 10);
    assert_eq!(a.log.len(), 3);
    a.advance_phase("RECARGANDO LA SESION PLASMA");
    assert_eq!(a.phase_idx, 13);
}

#[test]
fn log_keeps_last_four_hundred_lines() {
    let mut a = App::new();
    for i in 0..(LOG_CAPACITY + 5) {
        a.ingest_line(&format!("linea {i}"));
    }
    assert_eq!(a.log.len(), LOG_CAPACITY);
    assert_eq!(a.log[0].text, "linea 5");
    assert_eq!(a.log[LOG_CAPACITY - 1].text, format!("linea {}", LOG_CAPACITY + 4));
}

#[test]
fn install_exit_and_progress() {
    let mut a = App::new();
    a.begin_install(Ok(()));
    a.phase_idx = 7;
    assert_eq!(a.progress_ratio(), (7, PHASE_COUNT - 1));
    a.install_exited(true);
    assert_eq!(a.status, InstallStatus::Success);
    assert_eq!(a.screen, Screen::Finished);
    assert_eq!(a.phase_idx, PHASE_COUNT - 1);
    assert_eq!(a.current_step, "Instalación completada");
    assert_eq!(a.progress_ratio(), (14, 14));

    let mut b = App::new();
    b.begin_install(Ok(()));
    b.phase_idx = 3;
    b.install_exited(false);
    assert_eq!(b.status, InstallStatus::Failed);
    assert_eq!(b.phase_idx, 3);
}

#[test]
fn running_install_needs_confirmation_to_cancel() {
    let mut a = App::new();
    a.begin_install(Ok(()));
    assert_eq!(a.handle_key(ch('q')), KeyAction::Continue);
    assert!(a.cancel_prompt);
    assert_eq!(a.handle_key(ch('n')), KeyAction::Continue);
    assert!(!a.cancel_prompt);
    a.handle_key(key(Key::Esc));
    assert!(a.cancel_prompt);
    assert_eq!(a.handle_key(key(Key::Left)), KeyAction::Continue);
    assert_eq!(a.anim_idx, 0);
    assert_eq!(a.handle_key(ch('S')), KeyAction::CancelInstall);
    assert_eq!(a.handle_key(key(Key::Enter)), KeyAction::CancelInstall);
}

#[test]
fn install_screen_when_not_running() {
    let mut a = App::new();
    a.begin_install(Err("x".to_string()));
    a.handle_key(key(Key::Right));
    assert_eq!(a.anim_idx, 1);
    assert_eq!(a.handle_key(ch('q')), KeyAction::Quit);
    a.handle_key(key(Key::Esc));
    assert_eq!(a.screen, Screen::Welcome);
}

#[test]
fn finished_screen_keys() {
    let mut a = App::new();
    a.begin_install(Ok(()));
    a.install_exited(true);
    assert_eq!(a.handle_key(key(Key::Enter)), KeyAction::Quit);

    let mut b = App::new();
    b.begin_install(Ok(()));
    b.install_exited(false);
    assert_eq!(b.handle_key(ch('r')), KeyAction::Continue);
    assert_eq!(b.screen, Screen::Setup);
    b.screen = Screen::Finished;
    assert_eq!(b.handle_key(ch('q')), KeyAction::Continue);
    assert_eq!(b.screen, Screen::Welcome);
}

#[test]
fn arguments_set_options_and_animation() {
    let mut a = App::new();
    assert_eq!(a.apply_arg("--no-packages"), ArgOutcome::Continue);
    assert_eq!(a.apply_arg("--no-themes"), ArgOutcome::Continue);
    assert_eq!(a.apply_arg("--with-display-config"), ArgOutcome::Continue);
    assert_eq!(a.apply_arg("--no-restart"), ArgOutcome::Continue);
    assert_eq!(a.options, Options { packages: false, themes: false, display: true, restart: false });
    a.apply_arg("--with-packages");
    a.apply_arg("--with-themes");
    assert!(a.options.packages && a.options.themes);
    a.apply_arg("--animation=3");
    assert_eq!(a.anim_idx, 3);
    a.apply_arg("--animation=99");
    assert_eq!(a.anim_idx, COUNT - 1);
    a.apply_arg("--animation=+1");
    assert_eq!(a.anim_idx, 1);
    a.apply_arg("--animation=x");
    assert_eq!(a.anim_idx, 1);
    a.apply_arg("--animation=");
    assert_eq!(a.anim_idx, 1);
    a.apply_arg("--animation=--animation=2");
    assert_eq!(a.anim_idx, 2);
    a.apply_arg("--animation=99999999999999999999999");
    assert_eq!(a.anim_idx, 2);
    assert_eq!(a.apply_arg("--help"), ArgOutcome::Help);
    assert_eq!(a.apply_arg("-h"), ArgOutcome::Help);
    assert_eq!(a.apply_arg("--otro"), ArgOutcome::Continue);
}

#[test]
fn ingest_lines_takes_each_line_in_order() {
    let mut a = App::new();
    a.begin_install(Ok(()));
    let lines = vec![
        "==> Actualizando caches".to_string(),
        "\u{1b}[33m[warn] sin red\u{1b}[0m".to_string(),
        "==> Recargando la sesion Plasma".to_string(),
    ];
    a.ingest_lines(&lines);
    assert_eq!(a.phase_idx, 13);
    assert_eq!(a.log.len(), 3);
    assert_eq!(a.log[1].kind, LogKind::Warn);
    assert_eq!(a.log[1].text, "[warn] sin red");
    a.ingest_lines(&Vec::new());
    assert_eq!(a.log.len(), 3);
}

#[test]
fn progress_in_percent_and_eighths() {
    let mut a = App::new();
    a.begin_install(Ok(()));
    a.phase_idx = 3;
    assert_eq!(a.progress_percent(), 21);
    assert_eq!(a.bar_eighths(10), 17);
    a.phase_idx = 7;
    assert_eq!(a.progress_percent(), 50);
    assert_eq!(a.bar_eighths(10), 40);
    a.phase_idx = 0;
    assert_eq!(a.progress_percent(), 0);
    assert_eq!(a.bar_eighths(10), 0);
    a.install_exited(true);
    assert_eq!(a.progress_percent(), 100);
    assert_eq!(a.bar_eighths(10), 80);
    // The length saturates on a very wide track.
    assert_eq!(a.bar_eighths(u16::MAX), u16::MAX);
}

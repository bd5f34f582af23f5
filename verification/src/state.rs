//! The installer's screens and the decisions taken on keys, command-line
//! arguments and installer output.

use vstd::prelude::*;

use crate::animations::COUNT;
use crate::runner::{
    classify_line, first_phase_from, kind_of, lemma_first_phase_from, match_phase_from, phase_label, phase_label_spec,
    LogKind, LogLine, PHASE_COUNT,
};
use crate::text::{
    chars_of, concat, has_prefix, lowercase, parse_usize, parse_usize_spec, range_has_prefix,
    same_chars, stripped, to_lowercase, trim,
};

verus! {

/// Entries of the welcome menu.
pub const MENU_ITEMS: usize = 2;

/// Rows of the option panel: four switches and the start button.
pub const OPTION_ROWS: usize = 5;

/// Most lines of output kept in the log.
pub const LOG_CAPACITY: usize = 400;

/// The screen on show.
#[derive(Clone, Copy, Debug, PartialEq, Eq, Structural)]
pub enum Screen {
    Welcome,
    Setup,
    Auth,
    Install,
    Finished,
}

/// Where the installation stands.
#[derive(Clone, Copy, Debug, PartialEq, Eq, Structural)]
pub enum InstallStatus {
    Ready,
    Running,
    Success,
    Failed,
}

/// The switches handed to the installer.
#[derive(Clone, Copy, Debug, PartialEq, Eq, Structural)]
pub struct Options {
    pub packages: bool,
    pub themes: bool,
    pub display: bool,
    pub restart: bool,
}

impl Default for Options {
    fn default() -> (o: Self)
        ensures
            o == (Options { packages: true, themes: true, display: false, restart: true }),
    {
        Options { packages: true, themes: true, display: false, restart: true }
    }
}

/// State of the sudo prompt.
pub struct SudoState {
    pub needed: bool,
    pub password: Vec<char>,
    pub error: String,
}

impl Default for SudoState {
    fn default() -> (s: Self)
        ensures
            !s.needed,
            s.password@ == Seq::<char>::empty(),
            s.error@ == Seq::<char>::empty(),
    {
        SudoState { needed: false, password: Vec::new(), error: String::new() }
    }
}

/// A key as the state machine sees it.
#[derive(Clone, Copy, Debug, PartialEq, Eq, Structural)]
pub enum Key {
    Char(char),
    Enter,
    Esc,
    Up,
    Down,
    Left,
    Right,
    Backspace,
    Other,
}

/// A key press: the key and whether Control was held.
#[derive(Clone, Copy, Debug, PartialEq, Eq, Structural)]
pub struct KeyPress {
    pub code: Key,
    pub ctrl: bool,
}

/// What the caller has to do after a key press.
#[derive(Clone, Copy, Debug, PartialEq, Eq, Structural)]
pub enum KeyAction {
    /// Nothing more: draw the next frame.
    Continue,
    /// Leave the program.
    Quit,
    /// Stop the running installer, then leave the program.
    CancelInstall,
    /// Start the installation (see [`App::start_install`]).
    StartInstall,
    /// Try the typed password with sudo (see [`App::finish_auth`]).
    Authenticate,
}

/// How an attempt to authenticate with sudo ended.
#[derive(Debug, PartialEq, Eq)]
pub enum AuthOutcome {
    /// sudo could not be started; the text says why.
    SpawnFailed(String),
    /// sudo accepted the password.
    Accepted,
    /// sudo refused the password.
    Rejected,
    /// Waiting for sudo failed; the text says why.
    WaitFailed(String),
}

/// What a command-line argument asks for.
#[derive(Clone, Copy, Debug, PartialEq, Eq, Structural)]
pub enum ArgOutcome {
    /// The argument was taken into account or ignored.
    Continue,
    /// The usage text is to be shown and the program left.
    Help,
}

/// The whole state of the front end, apart from the clock and the process.
pub struct App {
    pub screen: Screen,
    pub anim_idx: usize,
    pub menu_idx: usize,
    pub options: Options,
    pub option_focus: usize,
    pub sudo: SudoState,
    pub log: Vec<LogLine>,
    pub phase_idx: usize,
    pub current_step: String,
    pub status: InstallStatus,
    pub cancel_prompt: bool,
    pub detail_line: String,
}

/// The mathematical model of [`App`].
pub struct AppView {
    pub screen: Screen,
    pub anim_idx: usize,
    pub menu_idx: usize,
    pub options: Options,
    pub option_focus: usize,
    pub sudo_needed: bool,
    pub password: Seq<char>,
    pub sudo_error: Seq<char>,
    pub log: Seq<(LogKind, Seq<char>)>,
    pub phase_idx: usize,
    pub current_step: Seq<char>,
    pub status: InstallStatus,
    pub cancel_prompt: bool,
    pub detail_line: Seq<char>,
}

impl View for App {
    type V = AppView;

    open spec fn view(&self) -> AppView {
        AppView {
            screen: self.screen,
            anim_idx: self.anim_idx,
            menu_idx: self.menu_idx,
            options: self.options,
            option_focus: self.option_focus,
            sudo_needed: self.sudo.needed,
            password: self.sudo.password@,
            sudo_error: self.sudo.error@,
            log: self.log@.map_values(|l: LogLine| l@),
            phase_idx: self.phase_idx,
            current_step: self.current_step@,
            status: self.status,
            cancel_prompt: self.cancel_prompt,
            detail_line: self.detail_line@,
        }
    }
}

impl AppView {
    /// Every index stays within what it indexes, and the log within its
    /// capacity.
    pub open spec fn well_formed(self) -> bool {
        &&& self.anim_idx < COUNT
        &&& self.menu_idx < MENU_ITEMS
        &&& self.option_focus < OPTION_ROWS
        &&& self.phase_idx < PHASE_COUNT
        &&& self.log.len() <= LOG_CAPACITY
    }
}

// ---------------------------------------------------------------------------
// The model of each transition
// ---------------------------------------------------------------------------

/// The previous of `n` positions in a ring.
pub open spec fn ring_prev(i: usize, n: usize) -> usize {
    ((i + n - 1) % (n as int)) as usize
}

/// The next of `n` positions in a ring.
pub open spec fn ring_next(i: usize, n: usize) -> usize {
    ((i + 1) % (n as int)) as usize
}

/// The options with the switch at `focus` flipped (rows past the switches
/// change nothing).
pub open spec fn toggled(o: Options, focus: usize) -> Options {
    if focus == 0 {
        Options { packages: !o.packages, ..o }
    } else if focus == 1 {
        Options { themes: !o.themes, ..o }
    } else if focus == 2 {
        Options { display: !o.display, ..o }
    } else if focus == 3 {
        Options { restart: !o.restart, ..o }
    } else {
        o
    }
}

/// Keys on the prompt that asks whether to cancel a running installation.
pub open spec fn cancel_prompt_step(v: AppView, k: Key) -> (AppView, KeyAction) {
    match k {
        Key::Enter | Key::Char('s') | Key::Char('S') | Key::Char('y') | Key::Char('Y') => (
            v,
            KeyAction::CancelInstall,
        ),
        Key::Esc | Key::Char('n') | Key::Char('N') => (
            AppView { cancel_prompt: false, ..v },
            KeyAction::Continue,
        ),
        _ => (v, KeyAction::Continue),
    }
}

/// Keys on the welcome menu.
pub open spec fn welcome_step(v: AppView, k: Key) -> (AppView, KeyAction) {
    match k {
        Key::Up | Key::Char('k') | Key::Down | Key::Char('j') => (
            AppView { menu_idx: ring_next(v.menu_idx, MENU_ITEMS), ..v },
            KeyAction::Continue,
        ),
        Key::Enter => if v.menu_idx == 0 {
            (AppView { screen: Screen::Setup, ..v }, KeyAction::Continue)
        } else {
            (v, KeyAction::Quit)
        },
        Key::Char('q') | Key::Esc => (v, KeyAction::Quit),
        _ => (v, KeyAction::Continue),
    }
}

/// Keys on the set-up screen.
pub open spec fn setup_step(v: AppView, k: Key) -> (AppView, KeyAction) {
    match k {
        Key::Left => (AppView { anim_idx: ring_prev(v.anim_idx, COUNT), ..v }, KeyAction::Continue),
        Key::Right => (
            AppView { anim_idx: ring_next(v.anim_idx, COUNT), ..v },
            KeyAction::Continue,
        ),
        Key::Up | Key::Char('k') => (
            AppView { option_focus: ring_prev(v.option_focus, OPTION_ROWS), ..v },
            KeyAction::Continue,
        ),
        Key::Down | Key::Char('j') => (
            AppView { option_focus: ring_next(v.option_focus, OPTION_ROWS), ..v },
            KeyAction::Continue,
        ),
        Key::Char(' ') => if v.option_focus < 4 {
            (AppView { options: toggled(v.options, v.option_focus), ..v }, KeyAction::Continue)
        } else {
            (v, KeyAction::StartInstall)
        },
        Key::Enter => (v, KeyAction::StartInstall),
        Key::Char('q') | Key::Esc => (v, KeyAction::Quit),
        _ => (v, KeyAction::Continue),
    }
}

/// Keys on the sudo prompt.
pub open spec fn auth_step(v: AppView, k: KeyPress) -> (AppView, KeyAction) {
    match k.code {
        Key::Char(c) => if !k.ctrl {
            (AppView { password: v.password.push(c), ..v }, KeyAction::Continue)
        } else {
            (v, KeyAction::Continue)
        },
        Key::Backspace => if v.password.len() > 0 {
            (AppView { password: v.password.drop_last(), ..v }, KeyAction::Continue)
        } else {
            (v, KeyAction::Continue)
        },
        Key::Enter => (v, KeyAction::Authenticate),
        Key::Esc => (
            AppView {
                sudo_needed: false,
                password: Seq::empty(),
                sudo_error: Seq::empty(),
                screen: Screen::Setup,
                ..v
            },
            KeyAction::Continue,
        ),
        _ => (v, KeyAction::Continue),
    }
}

/// Keys on the installation screen.
pub open spec fn install_step(v: AppView, k: Key) -> (AppView, KeyAction) {
    match k {
        Key::Left => (AppView { anim_idx: ring_prev(v.anim_idx, COUNT), ..v }, KeyAction::Continue),
        Key::Right => (
            AppView { anim_idx: ring_next(v.anim_idx, COUNT), ..v },
            KeyAction::Continue,
        ),
        Key::Esc => if v.status == InstallStatus::Running {
            (AppView { cancel_prompt: true, ..v }, KeyAction::Continue)
        } else {
            (AppView { screen: Screen::Welcome, ..v }, KeyAction::Continue)
        },
        Key::Char('q') => if v.status == InstallStatus::Running {
            (AppView { cancel_prompt: true, ..v }, KeyAction::Continue)
        } else {
            (v, KeyAction::Quit)
        },
        _ => (v, KeyAction::Continue),
    }
}

/// Keys on the final screen.
pub open spec fn finished_step(v: AppView, k: Key) -> (AppView, KeyAction) {
    match k {
        Key::Enter | Key::Esc | Key::Char('q') => if v.status == InstallStatus::Success {
            (v, KeyAction::Quit)
        } else {
            (AppView { screen: Screen::Welcome, ..v }, KeyAction::Continue)
        },
        Key::Char('r') | Key::Char('R') => if v.status == InstallStatus::Failed {
            (AppView { screen: Screen::Setup, ..v }, KeyAction::Continue)
        } else {
            (v, KeyAction::Continue)
        },
        _ => (v, KeyAction::Continue),
    }
}

/// The state after a key press, and what the caller has to do next.
pub open spec fn key_step(v: AppView, k: KeyPress) -> (AppView, KeyAction) {
    if v.screen == Screen::Install && v.status == InstallStatus::Running && v.cancel_prompt {
        cancel_prompt_step(v, k.code)
    } else {
        match v.screen {
            Screen::Welcome => welcome_step(v, k.code),
            Screen::Setup => setup_step(v, k.code),
            Screen::Auth => auth_step(v, k),
            Screen::Install => install_step(v, k.code),
            Screen::Finished => finished_step(v, k.code),
        }
    }
}

impl App {
    /// The state is well formed.
    pub open spec fn wf(&self) -> bool {
        self@.well_formed()
    }

    /// Handles a key press.
    pub fn handle_key(&mut self, key: KeyPress) -> (action: KeyAction)
        requires
            old(self).wf(),
        ensures
            final(self).wf(),
            (final(self)@, action) == key_step(old(self)@, key),
    {
        if self.screen == Screen::Install && self.status == InstallStatus::Running
            && self.cancel_prompt {
            match key.code {
                Key::Enter | Key::Char('s') | Key::Char('S') | Key::Char('y') | Key::Char('Y') => {
                    return KeyAction::CancelInstall;
                },
                Key::Esc | Key::Char('n') | Key::Char('N') => {
                    self.cancel_prompt = false;
                },
                _ => {},
            }
            return KeyAction::Continue;
        }
        match self.screen {
            Screen::Welcome => match key.code {
                Key::Up | Key::Char('k') => self.menu_idx = (self.menu_idx + 1) % MENU_ITEMS,
                Key::Down | Key::Char('j') => self.menu_idx = (self.menu_idx + 1) % MENU_ITEMS,
                Key::Enter => {
                    if self.menu_idx == 0 {
                        self.screen = Screen::Setup;
                    } else {
                        return KeyAction::Quit;
                    }
                },
                Key::Char('q') | Key::Esc => return KeyAction::Quit,
                _ => {},
            },
            Screen::Setup => match key.code {
                Key::Left => self.anim_idx = (self.anim_idx + COUNT - 1) % COUNT,
                Key::Right => self.anim_idx = (self.anim_idx + 1) % COUNT,
                Key::Up | Key::Char('k') => self.option_focus = (self.option_focus + 4) % OPTION_ROWS,
                Key::Down | Key::Char('j') => self.option_focus = (self.option_focus + 1)
                    % OPTION_ROWS,
                Key::Char(' ') => {
                    if self.option_focus < 4 {
                        self.toggle_option();
                    } else {
                        return KeyAction::StartInstall;
                    }
                },
                Key::Enter => return KeyAction::StartInstall,
                Key::Char('q') | Key::Esc => return KeyAction::Quit,
                _ => {},
            },
            Screen::Auth => match key.code {
                Key::Char(c) => {
                    if !key.ctrl {
                        self.sudo.password.push(c);
                    }
                },
                Key::Backspace => {
                    self.sudo.password.pop();
                },
                Key::Enter => return KeyAction::Authenticate,
                Key::Esc => {
                    self.sudo.needed = false;
                    self.sudo.password.clear();
                    self.sudo.error = String::new();
                    self.screen = Screen::Setup;
                },
                _ => {},
            },
            Screen::Install => match key.code {
                Key::Left => self.anim_idx = (self.anim_idx + COUNT - 1) % COUNT,
                Key::Right => self.anim_idx = (self.anim_idx + 1) % COUNT,
                Key::Esc => {
                    if self.status == InstallStatus::Running {
                        self.cancel_prompt = true;
                    } else {
                        self.screen = Screen::Welcome;
                    }
                },
                Key::Char('q') => {
                    if self.status == InstallStatus::Running {
                        self.cancel_prompt = true;
                    } else {
                        return KeyAction::Quit;
                    }
                },
                _ => {},
            },
            Screen::Finished => match key.code {
                Key::Enter | Key::Esc | Key::Char('q') => {
                    if self.status == InstallStatus::Success {
                        return KeyAction::Quit;
                    }
                    self.screen = Screen::Welcome;
                },
                Key::Char('r') | Key::Char('R') => {
                    if self.status == InstallStatus::Failed {
                        self.screen = Screen::Setup;
                    }
                },
                _ => {},
            },
        }
        KeyAction::Continue
    }

    /// Flips the switch under the focus (rows past the switches change
    /// nothing).
    pub fn toggle_option(&mut self)
        requires
            old(self).wf(),
        ensures
            final(self).wf(),
            final(self)@ == (AppView { options: toggled(old(self)@.options, old(self)@.option_focus), ..old(self)@ }),
    {
        match self.option_focus {
            0 => self.options.packages = !self.options.packages,
            1 => self.options.themes = !self.options.themes,
            2 => self.options.display = !self.options.display,
            3 => self.options.restart = !self.options.restart,
            _ => {},
        }
    }
}

/// The state the front end starts in.
pub open spec fn initial_view() -> AppView {
    AppView {
        screen: Screen::Welcome,
        anim_idx: 0,
        menu_idx: 0,
        options: Options { packages: true, themes: true, display: false, restart: true },
        option_focus: 0,
        sudo_needed: false,
        password: Seq::empty(),
        sudo_error: Seq::empty(),
        log: Seq::empty(),
        phase_idx: 0,
        current_step: phase_label_spec(0),
        status: InstallStatus::Ready,
        cancel_prompt: false,
        detail_line: Seq::empty(),
    }
}

/// `v` with the progress of an installation forgotten.
pub open spec fn reset_view(v: AppView) -> AppView {
    AppView {
        log: Seq::empty(),
        phase_idx: 0,
        current_step: phase_label_spec(0),
        status: InstallStatus::Ready,
        cancel_prompt: false,
        detail_line: Seq::empty(),
        ..v
    }
}

/// Asking to install: the sudo error is cleared; when packages are wanted
/// and sudo holds no cached credentials, the sudo prompt is shown. The flag
/// says whether the installer is to be launched now.
pub open spec fn start_step(v: AppView, sudo_cached: bool) -> (AppView, bool) {
    let cleared = AppView { sudo_error: Seq::empty(), ..v };
    if v.options.packages && !sudo_cached {
        (
            AppView {
                sudo_needed: true,
                password: Seq::empty(),
                screen: Screen::Auth,
                ..cleared
            },
            false,
        )
    } else {
        (cleared, true)
    }
}

/// The state once launching the installer succeeded (`None`) or failed with
/// the given reason.
pub open spec fn begin_step(v: AppView, failure: Option<Seq<char>>) -> AppView {
    match failure {
        None => AppView {
            status: InstallStatus::Running,
            screen: Screen::Install,
            ..reset_view(v)
        },
        Some(e) => AppView {
            status: InstallStatus::Failed,
            detail_line: "No se pudo lanzar install.sh: "@ + e,
            screen: Screen::Install,
            ..v
        },
    }
}

/// The state once sudo answered, and whether the installer is to be launched.
pub open spec fn auth_finish_step(v: AppView, outcome: AuthOutcome) -> (AppView, bool) {
    match outcome {
        AuthOutcome::SpawnFailed(e) => (
            AppView { sudo_error: "No se pudo lanzar sudo: "@ + e@, ..v },
            false,
        ),
        AuthOutcome::Accepted => (
            AppView { password: Seq::empty(), sudo_needed: false, ..v },
            true,
        ),
        AuthOutcome::Rejected => (
            AppView { sudo_error: "Contrasena incorrecta o usuario sin permisos sudo."@, ..v },
            false,
        ),
        AuthOutcome::WaitFailed(e) => (AppView { sudo_error: "sudo fallo: "@ + e@, ..v }, false),
    }
}

/// The state once a step line whose lower-case text is `lower` was seen: the
/// first phase at or after the current one whose marker occurs in the line
/// becomes current.
pub open spec fn advance_view(v: AppView, lower: Seq<char>) -> AppView {
    match first_phase_from(lower, v.phase_idx as int) {
        Some(i) => AppView { phase_idx: i as usize, current_step: phase_label_spec(i), ..v },
        None => v,
    }
}

/// `log` with `entry` appended, keeping only the last [`LOG_CAPACITY`] entries.
pub open spec fn push_capped(
    log: Seq<(LogKind, Seq<char>)>,
    entry: (LogKind, Seq<char>),
) -> Seq<(LogKind, Seq<char>)> {
    let l = log.push(entry);
    if l.len() > LOG_CAPACITY {
        l.subrange(l.len() - LOG_CAPACITY, l.len() as int)
    } else {
        l
    }
}

/// The state once the raw output line `raw` was read.
pub open spec fn ingest_view(v: AppView, raw: Seq<char>) -> AppView {
    let text = stripped(raw);
    let kind = kind_of(trim(text));
    let moved = if kind == LogKind::Step {
        advance_view(v, lowercase(text))
    } else {
        v
    };
    AppView { log: push_capped(moved.log, (kind, text)), ..moved }
}

/// The state once the raw output lines `lines` were read, in order.
pub open spec fn ingest_all(v: AppView, lines: Seq<Seq<char>>) -> AppView
    decreases lines.len(),
{
    if lines.len() == 0 {
        v
    } else {
        ingest_view(ingest_all(v, lines.drop_last()), lines.last())
    }
}

/// How many phases are done, for the progress shown: all of them once the
/// installation succeeded, else those before the current one.
pub open spec fn progress_done(v: AppView) -> int {
    if v.status == InstallStatus::Success {
        PHASE_COUNT - 1
    } else {
        v.phase_idx as int
    }
}

/// The state once the installer exited, successfully or not.
pub open spec fn exit_view(v: AppView, success: bool) -> AppView {
    if success {
        AppView {
            phase_idx: (PHASE_COUNT - 1) as usize,
            current_step: phase_label_spec(PHASE_COUNT - 1),
            status: InstallStatus::Success,
            screen: Screen::Finished,
            ..v
        }
    } else {
        AppView { status: InstallStatus::Failed, screen: Screen::Finished, ..v }
    }
}

/// `s` with every leading copy of `p` removed, as `str::trim_start_matches`
/// does for a non-empty pattern.
pub open spec fn strip_prefixes(s: Seq<char>, p: Seq<char>) -> Seq<char>
    decreases s.len(),
{
    if p.len() > 0 && has_prefix(s, p) {
        strip_prefixes(s.skip(p.len() as int), p)
    } else {
        s
    }
}

/// The effect of one command-line argument.
pub open spec fn arg_step(v: AppView, a: Seq<char>) -> (AppView, ArgOutcome) {
    let o = v.options;
    if a == "--with-packages"@ {
        (AppView { options: Options { packages: true, ..o }, ..v }, ArgOutcome::Continue)
    } else if a == "--no-packages"@ {
        (AppView { options: Options { packages: false, ..o }, ..v }, ArgOutcome::Continue)
    } else if a == "--with-themes"@ {
        (AppView { options: Options { themes: true, ..o }, ..v }, ArgOutcome::Continue)
    } else if a == "--no-themes"@ {
        (AppView { options: Options { themes: false, ..o }, ..v }, ArgOutcome::Continue)
    } else if a == "--with-display-config"@ {
        (AppView { options: Options { display: true, ..o }, ..v }, ArgOutcome::Continue)
    } else if a == "--no-restart"@ {
        (AppView { options: Options { restart: false, ..o }, ..v }, ArgOutcome::Continue)
    } else if a == "-h"@ || a == "--help"@ {
        (v, ArgOutcome::Help)
    } else if has_prefix(a, "--animation="@) {
        match parse_usize_spec(strip_prefixes(a, "--animation="@)) {
            Some(n) => (
                AppView { anim_idx: if n < COUNT - 1 { n } else { (COUNT - 1) as usize }, ..v },
                ArgOutcome::Continue,
            ),
            None => (v, ArgOutcome::Continue),
        }
    } else {
        (v, ArgOutcome::Continue)
    }
}

impl App {
    /// The state the front end starts in.
    pub fn new() -> (a: App)
        ensures
            a.wf(),
            a@ == initial_view(),
    {
        let a = App {
            screen: Screen::Welcome,
            anim_idx: 0,
            menu_idx: 0,
            options: Options::default(),
            option_focus: 0,
            sudo: SudoState::default(),
            log: Vec::new(),
            phase_idx: 0,
            current_step: phase_label(0).to_owned(),
            status: InstallStatus::Ready,
            cancel_prompt: false,
            detail_line: String::new(),
        };
        assert(a@.log =~= Seq::<(LogKind, Seq<char>)>::empty());
        a
    }

    /// Forgets the progress of an earlier installation.
    pub fn reset_install(&mut self)
        requires
            old(self).wf(),
        ensures
            final(self).wf(),
            final(self)@ == reset_view(old(self)@),
    {
        self.log.clear();
        self.phase_idx = 0;
        self.current_step = phase_label(0).to_owned();
        self.status = InstallStatus::Ready;
        self.cancel_prompt = false;
        self.detail_line = String::new();
        assert(self@.log =~= Seq::<(LogKind, Seq<char>)>::empty());
    }

    /// Decides how an installation starts, given whether sudo holds cached
    /// credentials; returns whether the installer is to be launched now.
    /// (The caller asks sudo only when packages are wanted.)
    pub fn start_install(&mut self, sudo_cached: bool) -> (launch: bool)
        requires
            old(self).wf(),
        ensures
            final(self).wf(),
            (final(self)@, launch) == start_step(old(self)@, sudo_cached),
    {
        self.sudo.error = String::new();
        if self.options.packages && !sudo_cached {
            self.sudo.needed = true;
            self.sudo.password.clear();
            self.screen = Screen::Auth;
            return false;
        }
        true
    }

    /// Takes note of the attempt to launch the installer: `Ok` once it runs,
    /// `Err` with the reason when it could not be started.
    pub fn begin_install(&mut self, launched: Result<(), String>)
        requires
            old(self).wf(),
        ensures
            final(self).wf(),
            final(self)@ == begin_step(
                old(self)@,
                match launched {
                    Ok(_) => None,
                    Err(e) => Some(e@),
                },
            ),
    {
        match launched {
            Ok(()) => {
                self.reset_install();
                self.status = InstallStatus::Running;
                self.screen = Screen::Install;
            },
            Err(e) => {
                self.status = InstallStatus::Failed;
                self.detail_line = concat("No se pudo lanzar install.sh: ", e.as_str());
                self.screen = Screen::Install;
            },
        }
    }

    /// Takes note of sudo's answer; returns whether the installer is to be
    /// launched now.
    pub fn finish_auth(&mut self, outcome: AuthOutcome) -> (launch: bool)
        requires
            old(self).wf(),
        ensures
            final(self).wf(),
            (final(self)@, launch) == auth_finish_step(old(self)@, outcome),
    {
        match outcome {
            AuthOutcome::SpawnFailed(e) => {
                self.sudo.error = concat("No se pudo lanzar sudo: ", e.as_str());
                false
            },
            AuthOutcome::Accepted => {
                self.sudo.password.clear();
                self.sudo.needed = false;
                true
            },
            AuthOutcome::Rejected => {
                self.sudo.error = "Contrasena incorrecta o usuario sin permisos sudo.".to_owned();
                false
            },
            AuthOutcome::WaitFailed(e) => {
                self.sudo.error = concat("sudo fallo: ", e.as_str());
                false
            },
        }
    }

    /// Moves to the phase that the lower-cased step line `lower` announces,
    /// if it is the current phase or a later one.
    pub fn advance_phase_lowered(&mut self, lower: &str)
        requires
            old(self).wf(),
        ensures
            final(self).wf(),
            final(self)@ == advance_view(old(self)@, lower@),
    {
        let lv = chars_of(lower);
        proof {
            lemma_first_phase_from(lower@, self.phase_idx as int);
        }
        match match_phase_from(&lv, self.phase_idx) {
            Some(i) => {
                self.phase_idx = i;
                self.current_step = phase_label(i).to_owned();
            },
            None => {},
        }
    }

    /// Moves to the phase that the step line `line` announces, compared in
    /// lower case, if it is the current phase or a later one.
    pub fn advance_phase(&mut self, line: &str)
        requires
            old(self).wf(),
        ensures
            final(self).wf(),
            final(self)@ == advance_view(old(self)@, lowercase(line@)),
    {
        let lower = to_lowercase(line);
        self.advance_phase_lowered(lower.as_str());
    }

    /// Appends a line to the log, dropping the oldest beyond the capacity.
    fn push_log(&mut self, line: LogLine)
        requires
            old(self).wf(),
        ensures
            final(self).wf(),
            final(self)@ == (AppView { log: push_capped(old(self)@.log, line@), ..old(self)@ }),
    {
        let ghost before = self.log@;
        if self.log.len() >= LOG_CAPACITY {
            self.log.remove(0);
        }
        self.log.push(line);
        proof {
            let l = before.map_values(|x: LogLine| x@).push(line@);
            if l.len() > LOG_CAPACITY {
                assert(self.log@.map_values(|x: LogLine| x@) =~= l.subrange(
                    l.len() - LOG_CAPACITY,
                    l.len() as int,
                ));
            } else {
                assert(self.log@.map_values(|x: LogLine| x@) =~= l);
            }
        }
    }

    /// Takes in one raw line of installer output: it is classified, a step
    /// line may advance the phase, and the cleaned line joins the log.
    pub fn ingest_line(&mut self, raw: &str)
        requires
            old(self).wf(),
        ensures
            final(self).wf(),
            final(self)@ == ingest_view(old(self)@, raw@),
    {
        let (kind, text) = classify_line(raw);
        if kind == LogKind::Step {
            self.advance_phase(text.as_str());
        }
        self.push_log(LogLine { kind, text });
    }

    /// Takes in the lines of installer output received since the last look,
    /// in order.
    pub fn ingest_lines(&mut self, lines: &Vec<String>)
        requires
            old(self).wf(),
        ensures
            final(self).wf(),
            final(self)@ == ingest_all(old(self)@, lines@.map_values(|l: String| l@)),
    {
        let ghost start = self@;
        let ghost all = lines@.map_values(|l: String| l@);
        let n = lines.len();
        for i in 0..n
            invariant
                n == lines@.len(),
                all == lines@.map_values(|l: String| l@),
                self.wf(),
                self@ == ingest_all(start, all.take(i as int)),
        {
            self.ingest_line(lines[i].as_str());
            assert(all.take(i + 1).drop_last() == all.take(i as int));
            assert(all.take(i + 1).last() == lines@[i as int]@);
        }
        assert(all.take(n as int) == all);
    }

    /// Takes note that the installer exited, successfully or not.
    pub fn install_exited(&mut self, success: bool)
        requires
            old(self).wf(),
        ensures
            final(self).wf(),
            final(self)@ == exit_view(old(self)@, success),
    {
        if success {
            self.phase_idx = PHASE_COUNT - 1;
            self.current_step = phase_label(PHASE_COUNT - 1).to_owned();
            self.status = InstallStatus::Success;
            self.screen = Screen::Finished;
        } else {
            self.status = InstallStatus::Failed;
            self.screen = Screen::Finished;
        }
    }

    /// Progress as a fraction `done / total`: complete once the installation
    /// succeeded, else the current phase out of the last one.
    pub fn progress_ratio(&self) -> (r: (usize, usize))
        requires
            self.wf(),
        ensures
            r == (if self.status == InstallStatus::Success {
                ((PHASE_COUNT - 1) as usize, (PHASE_COUNT - 1) as usize)
            } else {
                (self.phase_idx, (PHASE_COUNT - 1) as usize)
            }),
            r.0 <= r.1,
            r.1 > 0,
    {
        if self.status == InstallStatus::Success {
            (PHASE_COUNT - 1, PHASE_COUNT - 1)
        } else {
            (self.phase_idx, PHASE_COUNT - 1)
        }
    }

    /// The progress in whole percent, rounded down.
    pub fn progress_percent(&self) -> (p: u16)
        requires
            self.wf(),
        ensures
            p == 100 * progress_done(self@) / (PHASE_COUNT - 1),
    {
        let (done, total) = self.progress_ratio();
        assert(100 * done <= 100 * total) by (nonlinear_arith)
            requires
                done <= total,
        ;
        ((100 * done) / total) as u16
    }

    /// The length of the progress bar on a track `width` cells wide, in
    /// eighths of a cell: the nearest whole eighth (halves rounded up), at
    /// most `u16::MAX`.
    pub fn bar_eighths(&self, width: u16) -> (e: u16)
        requires
            self.wf(),
        ensures
            e == (if (16 * width * progress_done(self@) + (PHASE_COUNT - 1)) / (2 * (PHASE_COUNT - 1))
                > u16::MAX {
                u16::MAX as int
            } else {
                (16 * width * progress_done(self@) + (PHASE_COUNT - 1)) / (2 * (PHASE_COUNT - 1))
            }),
    {
        let (done, total) = self.progress_ratio();
        let w = width as u64;
        let d = done as u64;
        let t = total as u64;
        assert(16 * w * d <= 16 * 0xffff * 14) by (nonlinear_arith)
            requires
                w <= 0xffff,
                d <= 14,
        ;
        let e = (16 * w * d + t) / (2 * t);
        if e > u16::MAX as u64 {
            u16::MAX
        } else {
            e as u16
        }
    }

    /// Applies one command-line argument (the installer's own switches, and
    /// `--animation=N` for the first animation).
    pub fn apply_arg(&mut self, arg: &str) -> (r: ArgOutcome)
        requires
            old(self).wf(),
        ensures
            final(self).wf(),
            (final(self)@, r) == arg_step(old(self)@, arg@),
    {
        let a = chars_of(arg);
        if same_chars(&a, "--with-packages") {
            self.options.packages = true;
        } else if same_chars(&a, "--no-packages") {
            self.options.packages = false;
        } else if same_chars(&a, "--with-themes") {
            self.options.themes = true;
        } else if same_chars(&a, "--no-themes") {
            self.options.themes = false;
        } else if same_chars(&a, "--with-display-config") {
            self.options.display = true;
        } else if same_chars(&a, "--no-restart") {
            self.options.restart = false;
        } else if same_chars(&a, "-h") || same_chars(&a, "--help") {
            return ArgOutcome::Help;
        } else if range_has_prefix(&a, 0, a.len(), "--animation=") {
            assert(a@.subrange(0, a@.len() as int) == a@);
            let rest = strip_all_prefixes(&a, "--animation=");
            match parse_usize(&rest) {
                Some(n) => {
                    self.anim_idx = if n < COUNT - 1 {
                        n
                    } else {
                        COUNT - 1
                    };
                },
                None => {},
            }
        } else {
            assert(a@.subrange(0, a@.len() as int) == a@);
        }
        ArgOutcome::Continue
    }
}

/// `s` with every leading copy of `p` removed.
pub fn strip_all_prefixes(s: &Vec<char>, p: &str) -> (r: Vec<char>)
    ensures
        r@ == strip_prefixes(s@, p@),
{
    let pv = chars_of(p);
    let n = s.len();
    let m = pv.len();
    let mut i: usize = 0;
    assert(s@.skip(0) == s@);
    if m > 0 {
        while m <= n - i && range_has_prefix(s, i, n, p)
            invariant
                n == s@.len(),
                m == pv@.len(),
                pv@ == p@,
                m > 0,
                i <= n,
                strip_prefixes(s@, p@) == strip_prefixes(s@.skip(i as int), p@),
            decreases n - i,
        {
            assert(s@.subrange(i as int, n as int) == s@.skip(i as int));
            assert(s@.skip(i as int).skip(m as int) == s@.skip(i + m));
            i = i + m;
        }
        assert(s@.subrange(i as int, n as int) == s@.skip(i as int));
    }
    let mut r: Vec<char> = Vec::new();
    let mut k = i;
    while k < n
        invariant
            n == s@.len(),
            i <= k <= n,
            r@ == s@.subrange(i as int, k as int),
        decreases n - k,
    {
        r.push(s[k]);
        assert(s@.subrange(i as int, k + 1) == s@.subrange(i as int, k as int).push(s@[k as int]));
        k = k + 1;
    }
    assert(s@.subrange(i as int, n as int) == s@.skip(i as int));
    r
}

// ---------------------------------------------------------------------------
// Laws
// ---------------------------------------------------------------------------

/// Every transition keeps a well-formed state well formed: keys, starting
/// an installation, launching it, sudo's answer, output lines, the
/// installer's exit and command-line arguments.
pub proof fn law_transitions_keep_well_formed(
    v: AppView,
    key: KeyPress,
    sudo_cached: bool,
    failure: Option<Seq<char>>,
    outcome: AuthOutcome,
    raw: Seq<char>,
    success: bool,
    arg: Seq<char>,
)
    requires
        v.well_formed(),
    ensures
        key_step(v, key).0.well_formed(),
        start_step(v, sudo_cached).0.well_formed(),
        begin_step(v, failure).well_formed(),
        auth_finish_step(v, outcome).0.well_formed(),
        ingest_view(v, raw).well_formed(),
        exit_view(v, success).well_formed(),
        arg_step(v, arg).0.well_formed(),
{
    lemma_first_phase_from(lowercase(stripped(raw)), v.phase_idx as int);
}

/// The initial state is well formed.
pub proof fn law_initial_state_is_well_formed()
    ensures
        initial_view().well_formed(),
{
}

/// Where the arrows choose the animation, one step left and one step right
/// undo each other.
pub proof fn law_animation_arrows_undo_each_other(v: AppView)
    requires
        v.well_formed(),
        v.screen == Screen::Setup || (v.screen == Screen::Install && !(v.status
            == InstallStatus::Running && v.cancel_prompt)),
    ensures
        key_step(key_step(v, KeyPress { code: Key::Left, ctrl: false }).0, KeyPress { code: Key::Right, ctrl: false }).0 == v,
        key_step(key_step(v, KeyPress { code: Key::Right, ctrl: false }).0, KeyPress { code: Key::Left, ctrl: false }).0 == v,
{
}

/// Flipping the same switch twice leaves the options as they were.
pub proof fn law_toggle_twice_is_identity(o: Options, focus: usize)
    ensures
        toggled(toggled(o, focus), focus) == o,
{
}

/// The installation's phase never moves backwards while output comes in, and
/// reaches the last phase when the installer succeeds.
pub proof fn law_phase_never_goes_back(v: AppView, raw: Seq<char>, success: bool)
    requires
        v.well_formed(),
    ensures
        ingest_view(v, raw).phase_idx >= v.phase_idx,
        exit_view(v, success).phase_idx >= v.phase_idx,
        success ==> exit_view(v, success).phase_idx == PHASE_COUNT - 1,
{
    lemma_first_phase_from(lowercase(stripped(raw)), v.phase_idx as int);
}

/// Each line of output ends up as the newest entry of the log, cleaned of
/// escape sequences, and the log never holds more than its capacity.
pub proof fn law_log_keeps_newest_line(v: AppView, raw: Seq<char>)
    requires
        v.well_formed(),
    ensures
        ingest_view(v, raw).log.len() <= LOG_CAPACITY,
        ingest_view(v, raw).log.last() == (kind_of(trim(stripped(raw))), stripped(raw)),
        v.log.len() < LOG_CAPACITY ==> ingest_view(v, raw).log.len() == v.log.len() + 1,
{
    lemma_first_phase_from(lowercase(stripped(raw)), v.phase_idx as int);
}

/// While the installer runs, no key leaves the program without first going
/// through the cancel prompt, and on that prompt leaving always stops the
/// installer.
pub proof fn law_running_install_is_never_abandoned(v: AppView, key: KeyPress)
    requires
        v.screen == Screen::Install,
        v.status == InstallStatus::Running,
    ensures
        key_step(v, key).1 != KeyAction::Quit,
        key_step(v, key).1 == KeyAction::CancelInstall ==> v.cancel_prompt,
{
}

/// The typed password is forgotten once sudo accepts it and when the prompt
/// is left with Esc.
pub proof fn law_password_is_forgotten(v: AppView)
    requires
        v.screen == Screen::Auth,
    ensures
        auth_finish_step(v, AuthOutcome::Accepted).0.password.len() == 0,
        key_step(v, KeyPress { code: Key::Esc, ctrl: false }).0.password.len() == 0,
        key_step(v, KeyPress { code: Key::Esc, ctrl: false }).0.screen == Screen::Setup,
{
}

/// The installer is launched at once exactly when no packages are wanted or
/// sudo already holds credentials; otherwise the sudo prompt comes first.
pub proof fn law_sudo_is_asked_only_for_packages(v: AppView, sudo_cached: bool)
    ensures
        start_step(v, sudo_cached).1 == (!v.options.packages || sudo_cached),
        !start_step(v, sudo_cached).1 ==> start_step(v, sudo_cached).0.screen == Screen::Auth,
{
}

/// On the prompt that asks whether to cancel a running installation, only a
/// yes (Enter, `s`, `S`, `y`, `Y`) cancels it, leaving the state as it is;
/// Esc, `n` and `N` close the prompt and the installation goes on; any other
/// key changes nothing.
pub proof fn law_cancel_prompt_answers(v: AppView, k: KeyPress)
    requires
        v.screen == Screen::Install,
        v.status == InstallStatus::Running,
        v.cancel_prompt,
    ensures
        (key_step(v, k).1 == KeyAction::CancelInstall) <==> (k.code == Key::Enter || k.code
            == Key::Char('s') || k.code == Key::Char('S') || k.code == Key::Char('y') || k.code
            == Key::Char('Y')),
        key_step(v, k).1 == KeyAction::CancelInstall ==> key_step(v, k).0 == v,
        key_step(v, k).1 == KeyAction::CancelInstall || key_step(v, k).1 == KeyAction::Continue,
        (k.code == Key::Esc || k.code == Key::Char('n') || k.code == Key::Char('N')) ==> key_step(
            v,
            k,
        ) == (AppView { cancel_prompt: false, ..v }, KeyAction::Continue),
        !(k.code == Key::Enter || k.code == Key::Char('s') || k.code == Key::Char('S') || k.code
            == Key::Char('y') || k.code == Key::Char('Y') || k.code == Key::Esc || k.code
            == Key::Char('n') || k.code == Key::Char('N')) ==> key_step(v, k) == (
            v,
            KeyAction::Continue,
        ),
{
}

/// Taking in a batch of output lines is taking in each line in the order
/// received: an empty batch changes nothing, and a batch with one more line
/// at its end is that line taken in after the rest of the batch.
pub proof fn law_batch_is_its_lines_in_order(v: AppView, lines: Seq<Seq<char>>, l: Seq<char>)
    ensures
        ingest_all(v, Seq::empty()) == v,
        ingest_all(v, lines.push(l)) == ingest_view(ingest_all(v, lines), l),
{
    assert(lines.push(l).drop_last() == lines);
}

/// While the log has room, a batch of output lines adds, at the end of the
/// log and in the order received, each line's text without escape sequences
/// together with its kind.
pub proof fn law_batch_appends_its_lines_to_the_log(v: AppView, lines: Seq<Seq<char>>)
    requires
        v.log.len() + lines.len() <= LOG_CAPACITY,
    ensures
        ingest_all(v, lines).log == v.log + lines.map_values(
            |l: Seq<char>| (kind_of(trim(stripped(l))), stripped(l)),
        ),
    decreases lines.len(),
{
    let f = |l: Seq<char>| (kind_of(trim(stripped(l))), stripped(l));
    if lines.len() == 0 {
        assert(v.log + lines.map_values(f) =~= v.log);
    } else {
        let init = lines.drop_last();
        law_batch_appends_its_lines_to_the_log(v, init);
        let before = ingest_all(v, init);
        let text = stripped(lines.last());
        let kind = kind_of(trim(text));
        let moved = if kind == LogKind::Step {
            advance_view(before, lowercase(text))
        } else {
            before
        };
        assert(moved.log == before.log);
        assert(ingest_all(v, lines).log == before.log.push((kind, text)));
        assert(before.log + seq![(kind, text)] =~= before.log.push((kind, text)));
        assert(v.log + lines.map_values(f) =~= (v.log + init.map_values(f)).push((kind, text)));
    }
}

} // verus!

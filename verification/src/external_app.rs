//! Commands that open a directory in a terminal or a file in an editor.
//!
//! Only a fixed set of programs is ever launched; a path reaches them as a
//! separate argument or through the `CDT_TARGET_PATH` environment variable,
//! never spliced into a shell command string.

use vstd::prelude::*;

use crate::decimal::{dec_nat, push_decimal_u64};
use crate::error::{ApiError, ApiErrorCode};
use crate::paths::{cmd_unsafe_message, first_cmd_unsafe, parent_dir, path_parent, reject_cmd_unsafe_path};
use crate::text::{push_char, strs_view};

verus! {

/// Operating-system family a command is planned for.
#[derive(Debug, Clone, Copy, PartialEq, Eq, Structural)]
pub enum TargetOs {
    MacOs,
    Windows,
    /// Linux and the other Unix-like systems.
    Linux,
}

/// Terminal application preference.
#[derive(Debug, Clone, Copy, PartialEq, Eq, Structural)]
pub enum TerminalApp {
    Terminal,
    ITerm,
    Warp,
    WindowsTerminal,
    PowerShell,
    Cmd,
    XTerminalEmulator,
    GnomeTerminal,
    Konsole,
    Alacritty,
}

/// External editor preference.
#[derive(Debug, Clone, Copy, PartialEq, Eq, Structural)]
pub enum ExternalEditor {
    System,
    VsCode,
    Cursor,
    Zed,
    Sublime,
}

/// The terminals offered on `os`, in display order.
pub open spec fn terminals_for(os: TargetOs) -> Seq<TerminalApp> {
    match os {
        TargetOs::MacOs => seq![TerminalApp::Terminal, TerminalApp::ITerm, TerminalApp::Warp],
        TargetOs::Windows => seq![TerminalApp::WindowsTerminal, TerminalApp::Cmd, TerminalApp::PowerShell],
        TargetOs::Linux => seq![
            TerminalApp::XTerminalEmulator,
            TerminalApp::GnomeTerminal,
            TerminalApp::Konsole,
            TerminalApp::Alacritty,
        ],
    }
}

/// The snake_case name of a terminal, as the settings store it.
pub open spec fn terminal_name(app: TerminalApp) -> Seq<char> {
    match app {
        TerminalApp::Terminal => "terminal"@,
        TerminalApp::ITerm => "i_term"@,
        TerminalApp::Warp => "warp"@,
        TerminalApp::WindowsTerminal => "windows_terminal"@,
        TerminalApp::PowerShell => "power_shell"@,
        TerminalApp::Cmd => "cmd"@,
        TerminalApp::XTerminalEmulator => "x_terminal_emulator"@,
        TerminalApp::GnomeTerminal => "gnome_terminal"@,
        TerminalApp::Konsole => "konsole"@,
        TerminalApp::Alacritty => "alacritty"@,
    }
}

impl TerminalApp {
    /// The terminals offered on `os`, in display order.
    pub fn available_for(os: TargetOs) -> (r: Vec<TerminalApp>)
        ensures
            r@ == terminals_for(os),
    {
        match os {
            TargetOs::MacOs => vec![TerminalApp::Terminal, TerminalApp::ITerm, TerminalApp::Warp],
            TargetOs::Windows => vec![TerminalApp::WindowsTerminal, TerminalApp::Cmd, TerminalApp::PowerShell],
            TargetOs::Linux => vec![
                TerminalApp::XTerminalEmulator,
                TerminalApp::GnomeTerminal,
                TerminalApp::Konsole,
                TerminalApp::Alacritty,
            ],
        }
    }

    /// Whether this terminal is offered on `os`.
    pub fn is_available_on(self, os: TargetOs) -> (r: bool)
        ensures
            r == terminals_for(os).contains(self),
    {
        let all = TerminalApp::available_for(os);
        let mut i: usize = 0;
        while i < all.len()
            invariant
                i <= all@.len(),
                all@ == terminals_for(os),
                forall|j: int| 0 <= j < i ==> all@[j] != self,
            decreases all@.len() - i,
        {
            if all[i] == self {
                assert(all@[i as int] == self);
                return true;
            }
            i = i + 1;
        }
        false
    }

    /// The terminal used on `os` when the preference is not offered there:
    /// the first one offered.
    pub fn platform_default(os: TargetOs) -> (r: TerminalApp)
        ensures
            r == terminals_for(os)[0],
    {
        match os {
            TargetOs::MacOs => TerminalApp::Terminal,
            TargetOs::Windows => TerminalApp::WindowsTerminal,
            TargetOs::Linux => TerminalApp::XTerminalEmulator,
        }
    }

    /// The snake_case name of this terminal.
    pub fn snake_case_name(self) -> (r: String)
        ensures
            r@ == terminal_name(self),
    {
        let s = match self {
            TerminalApp::Terminal => "terminal",
            TerminalApp::ITerm => "i_term",
            TerminalApp::Warp => "warp",
            TerminalApp::WindowsTerminal => "windows_terminal",
            TerminalApp::PowerShell => "power_shell",
            TerminalApp::Cmd => "cmd",
            TerminalApp::XTerminalEmulator => "x_terminal_emulator",
            TerminalApp::GnomeTerminal => "gnome_terminal",
            TerminalApp::Konsole => "konsole",
            TerminalApp::Alacritty => "alacritty",
        };
        String::from_str(s)
    }
}

/// The names of the terminals offered on `os`, in display order.
pub fn list_available_terminals(os: TargetOs) -> (r: Vec<String>)
    ensures
        strs_view(r@) == terminals_for(os).map_values(|a: TerminalApp| terminal_name(a)),
{
    let all = TerminalApp::available_for(os);
    let mut out: Vec<String> = Vec::new();
    let mut i: usize = 0;
    while i < all.len()
        invariant
            i <= all@.len(),
            all@ == terminals_for(os),
            strs_view(out@) == all@.take(i as int).map_values(|a: TerminalApp| terminal_name(a)),
        decreases all@.len() - i,
    {
        let name = all[i].snake_case_name();
        let ghost prev = strs_view(out@);
        out.push(name);
        assert(strs_view(out@) =~= prev.push(terminal_name(all@[i as int])));
        assert(all@.take(i + 1) =~= all@.take(i as int).push(all@[i as int]));
        i = i + 1;
        assert(strs_view(out@) =~= all@.take(i as int).map_values(|a: TerminalApp| terminal_name(a)));
    }
    assert(all@.take(i as int) =~= all@);
    out
}

/// The terminal actually used: the preference when it is offered on `os`,
/// else the platform default.
pub fn choose_terminal(configured: TerminalApp, os: TargetOs) -> (r: TerminalApp)
    ensures
        r == if terminals_for(os).contains(configured) {
            configured
        } else {
            terminals_for(os)[0]
        },
{
    if configured.is_available_on(os) {
        configured
    } else {
        TerminalApp::platform_default(os)
    }
}

/// A process to launch: the program (looked up on the search path first
/// when `resolve` is set), its arguments and extra environment variables.
#[derive(Debug)]
pub struct CommandSpec {
    pub program: String,
    pub resolve: bool,
    pub args: Vec<String>,
    pub env: Vec<(String, String)>,
}

/// Mathematical reading of a [`CommandSpec`].
pub struct CommandView {
    pub program: Seq<char>,
    pub resolve: bool,
    pub args: Seq<Seq<char>>,
    pub env: Seq<(Seq<char>, Seq<char>)>,
}

/// Readings of environment pairs.
pub open spec fn env_view(v: Seq<(String, String)>) -> Seq<(Seq<char>, Seq<char>)> {
    v.map_values(|p: (String, String)| (p.0@, p.1@))
}

impl View for CommandSpec {
    type V = CommandView;

    open spec fn view(&self) -> CommandView {
        CommandView { program: self.program@, resolve: self.resolve, args: strs_view(self.args@), env: env_view(self.env@) }
    }
}

/// A command with its arguments and no extra environment.
pub open spec fn plain(program: Seq<char>, resolve: bool, args: Seq<Seq<char>>) -> CommandView {
    CommandView { program, resolve, args, env: Seq::empty() }
}

/// Name of the variable that carries the target path.
pub open spec fn target_var() -> Seq<char> {
    "CDT_TARGET_PATH"@
}

/// The command that opens a terminal of kind `app` in `dir`.
pub open spec fn terminal_command(app: TerminalApp, dir: Seq<char>) -> CommandView {
    match app {
        TerminalApp::Terminal => plain("open"@, false, seq!["-a"@, "Terminal"@, dir]),
        TerminalApp::ITerm => plain("open"@, false, seq!["-a"@, "iTerm"@, dir]),
        TerminalApp::Warp => plain("open"@, false, seq!["-a"@, "Warp"@, dir]),
        TerminalApp::WindowsTerminal => plain("wt.exe"@, false, seq!["-d"@, dir]),
        TerminalApp::PowerShell => CommandView {
            program: "powershell.exe"@,
            resolve: false,
            args: seq!["-NoExit"@, "-Command"@, "Set-Location -LiteralPath $env:CDT_TARGET_PATH"@],
            env: seq![(target_var(), dir)],
        },
        TerminalApp::Cmd => CommandView {
            program: "cmd.exe"@,
            resolve: false,
            args: seq!["/K"@, "cd /d \"%CDT_TARGET_PATH%\""@],
            env: seq![(target_var(), dir)],
        },
        TerminalApp::XTerminalEmulator => plain("x-terminal-emulator"@, true, seq!["--working-directory"@, dir]),
        TerminalApp::GnomeTerminal => plain("gnome-terminal"@, true, seq!["--working-directory="@ + dir]),
        TerminalApp::Konsole => plain("konsole"@, true, seq!["--workdir"@, dir]),
        TerminalApp::Alacritty => plain("alacritty"@, true, seq!["--working-directory"@, dir]),
    }
}

fn new_command(program: &str, resolve: bool) -> (r: CommandSpec)
    ensures
        r@ == plain(program@, resolve, Seq::empty()),
{
    let r = CommandSpec { program: String::from_str(program), resolve, args: Vec::new(), env: Vec::new() };
    assert(r@.args =~= Seq::<Seq<char>>::empty());
    assert(r@.env =~= Seq::<(Seq<char>, Seq<char>)>::empty());
    r
}

fn push_arg(c: &mut CommandSpec, a: &str)
    ensures
        final(c)@ == (CommandView { args: old(c)@.args.push(a@), ..old(c)@ }),
{
    c.args.push(String::from_str(a));
    assert(c@.args =~= old(c)@.args.push(a@));
}

fn push_env(c: &mut CommandSpec, k: &str, v: &str)
    ensures
        final(c)@ == (CommandView { env: old(c)@.env.push((k@, v@)), ..old(c)@ }),
{
    c.env.push((String::from_str(k), String::from_str(v)));
    assert(c@.env =~= old(c)@.env.push((k@, v@)));
}

/// Builds the command that opens a terminal of kind `app` in `dir`; `cmd`
/// refuses a directory holding a character it would re-interpret.
pub fn build_terminal_command(app: TerminalApp, dir: &str) -> (r: Result<CommandSpec, ApiError>)
    ensures
        app == TerminalApp::Cmd && first_cmd_unsafe(dir@) is Some ==> (r matches Err(e)
            && e.code == ApiErrorCode::ValidationError && e.message@ == cmd_unsafe_message(
            first_cmd_unsafe(dir@)->0,
        )),
        !(app == TerminalApp::Cmd && first_cmd_unsafe(dir@) is Some) ==> (r matches Ok(c) && c@
            == terminal_command(app, dir@)),
{
    let mut c = match app {
        TerminalApp::Terminal | TerminalApp::ITerm | TerminalApp::Warp => {
            let name = match app {
                TerminalApp::Terminal => "Terminal",
                TerminalApp::ITerm => "iTerm",
                _ => "Warp",
            };
            let mut c = new_command("open", false);
            push_arg(&mut c, "-a");
            push_arg(&mut c, name);
            push_arg(&mut c, dir);
            c
        },
        TerminalApp::WindowsTerminal => {
            let mut c = new_command("wt.exe", false);
            push_arg(&mut c, "-d");
            push_arg(&mut c, dir);
            c
        },
        TerminalApp::PowerShell => {
            let mut c = new_command("powershell.exe", false);
            push_arg(&mut c, "-NoExit");
            push_arg(&mut c, "-Command");
            push_arg(&mut c, "Set-Location -LiteralPath $env:CDT_TARGET_PATH");
            push_env(&mut c, "CDT_TARGET_PATH", dir);
            c
        },
        TerminalApp::Cmd => {
            match reject_cmd_unsafe_path(dir) {
                Err(e) => return Err(e),
                Ok(()) => {},
            }
            let mut c = new_command("cmd.exe", false);
            push_arg(&mut c, "/K");
            push_arg(&mut c, "cd /d \"%CDT_TARGET_PATH%\"");
            push_env(&mut c, "CDT_TARGET_PATH", dir);
            c
        },
        TerminalApp::XTerminalEmulator => {
            let mut c = new_command("x-terminal-emulator", true);
            push_arg(&mut c, "--working-directory");
            push_arg(&mut c, dir);
            c
        },
        TerminalApp::GnomeTerminal => {
            let mut c = new_command("gnome-terminal", true);
            let mut a = String::from_str("--working-directory=");
            a.append(dir);
            push_arg(&mut c, a.as_str());
            c
        },
        TerminalApp::Konsole => {
            let mut c = new_command("konsole", true);
            push_arg(&mut c, "--workdir");
            push_arg(&mut c, dir);
            c
        },
        TerminalApp::Alacritty => {
            let mut c = new_command("alacritty", true);
            push_arg(&mut c, "--working-directory");
            push_arg(&mut c, dir);
            c
        },
    };
    assert(c@.args =~= terminal_command(app, dir@).args);
    assert(c@.env =~= terminal_command(app, dir@).env);
    Ok(c)
}

/// `path:line` or `path:line:column`.
pub open spec fn goto_target(path: Seq<char>, line: u32, column: Option<u32>) -> Seq<char> {
    path + seq![':'] + dec_nat(line as nat) + match column {
        Some(c) => seq![':'] + dec_nat(c as nat),
        None => Seq::empty(),
    }
}

/// The `path:line[:column]` target handed to an editor.
pub fn format_goto_target(path: &str, line: u32, column: Option<u32>) -> (r: String)
    ensures
        r@ == goto_target(path@, line, column),
{
    let mut s = String::from_str(path);
    push_char(&mut s, ':');
    push_decimal_u64(&mut s, line as u64);
    match column {
        Some(c) => {
            push_char(&mut s, ':');
            push_decimal_u64(&mut s, c as u64);
        },
        None => {},
    }
    assert(s@ =~= goto_target(path@, line, column));
    s
}

/// `program --goto path:line[:col]`, or `program path` without a line.
pub open spec fn goto_view(program: Seq<char>, path: Seq<char>, line: Option<u32>, column: Option<u32>) -> CommandView {
    match line {
        Some(l) => plain(program, true, seq!["--goto"@, goto_target(path, l, column)]),
        None => plain(program, true, seq![path]),
    }
}

/// `program path:line[:col]`, or `program path` without a line.
pub open spec fn path_with_loc_view(program: Seq<char>, path: Seq<char>, line: Option<u32>, column: Option<u32>) -> CommandView {
    match line {
        Some(l) => plain(program, true, seq![goto_target(path, l, column)]),
        None => plain(program, true, seq![path]),
    }
}

/// The `--goto` form used by VS Code and Cursor.
pub fn goto_command(program: &str, path: &str, line: Option<u32>, column: Option<u32>) -> (r: CommandSpec)
    ensures
        r@ == goto_view(program@, path@, line, column),
{
    let mut c = new_command(program, true);
    match line {
        Some(l) => {
            push_arg(&mut c, "--goto");
            let t = format_goto_target(path, l, column);
            push_arg(&mut c, t.as_str());
        },
        None => push_arg(&mut c, path),
    }
    assert(c@.args =~= goto_view(program@, path@, line, column).args);
    c
}

/// The bare `path:line[:col]` form used by Zed and Sublime Text.
pub fn path_with_loc_command(program: &str, path: &str, line: Option<u32>, column: Option<u32>) -> (r: CommandSpec)
    ensures
        r@ == path_with_loc_view(program@, path@, line, column),
{
    let mut c = new_command(program, true);
    match line {
        Some(l) => {
            let t = format_goto_target(path, l, column);
            push_arg(&mut c, t.as_str());
        },
        None => push_arg(&mut c, path),
    }
    assert(c@.args =~= path_with_loc_view(program@, path@, line, column).args);
    c
}

/// The command that opens `path` with the application the system
/// associates with it (line and column are not used).
pub open spec fn system_open_view(path: Seq<char>, os: TargetOs) -> CommandView {
    match os {
        TargetOs::MacOs => plain("open"@, false, seq![path]),
        TargetOs::Windows => CommandView {
            program: "powershell.exe"@,
            resolve: false,
            args: seq!["-NoProfile"@, "-Command"@, "Invoke-Item -LiteralPath $env:CDT_TARGET_PATH"@],
            env: seq![(target_var(), path)],
        },
        TargetOs::Linux => plain("xdg-open"@, false, seq![path]),
    }
}

/// Opens `path` with the system's default application.
pub fn build_system_open_command(path: &str, os: TargetOs) -> (r: CommandSpec)
    ensures
        r@ == system_open_view(path@, os),
{
    let c = match os {
        TargetOs::MacOs => {
            let mut c = new_command("open", false);
            push_arg(&mut c, path);
            c
        },
        TargetOs::Windows => {
            let mut c = new_command("powershell.exe", false);
            push_arg(&mut c, "-NoProfile");
            push_arg(&mut c, "-Command");
            push_arg(&mut c, "Invoke-Item -LiteralPath $env:CDT_TARGET_PATH");
            push_env(&mut c, "CDT_TARGET_PATH", path);
            c
        },
        TargetOs::Linux => {
            let mut c = new_command("xdg-open", false);
            push_arg(&mut c, path);
            c
        },
    };
    assert(c@.args =~= system_open_view(path@, os).args);
    assert(c@.env =~= system_open_view(path@, os).env);
    c
}

/// The command that opens `path` in `editor`.
pub open spec fn editor_command(editor: ExternalEditor, path: Seq<char>, line: Option<u32>, column: Option<u32>, os: TargetOs) -> CommandView {
    match editor {
        ExternalEditor::System => system_open_view(path, os),
        ExternalEditor::VsCode => goto_view("code"@, path, line, column),
        ExternalEditor::Cursor => goto_view("cursor"@, path, line, column),
        ExternalEditor::Zed => path_with_loc_view("zed"@, path, line, column),
        ExternalEditor::Sublime => path_with_loc_view("subl"@, path, line, column),
    }
}

/// Builds the command that opens `path` (at `line` and `column` where the
/// editor takes them) in `editor`.
pub fn build_editor_command(editor: ExternalEditor, path: &str, line: Option<u32>, column: Option<u32>, os: TargetOs) -> (r: CommandSpec)
    ensures
        r@ == editor_command(editor, path@, line, column, os),
{
    match editor {
        ExternalEditor::System => build_system_open_command(path, os),
        ExternalEditor::VsCode => goto_command("code", path, line, column),
        ExternalEditor::Cursor => goto_command("cursor", path, line, column),
        ExternalEditor::Zed => path_with_loc_command("zed", path, line, column),
        ExternalEditor::Sublime => path_with_loc_command("subl", path, line, column),
    }
}

/// The directory a terminal opens in for `path`: the path itself when it
/// is a directory, else its parent.
pub fn terminal_directory(path: &str, is_dir: bool) -> (r: Result<String, ApiError>)
    ensures
        is_dir ==> (r matches Ok(d) && d@ == path@),
        !is_dir ==> match parent_dir(path@) {
            Some(p) => r matches Ok(d) && d@ == p,
            None => r matches Err(e) && e.code == ApiErrorCode::ValidationError,
        },
{
    if is_dir {
        Ok(String::from_str(path))
    } else {
        match path_parent(path) {
            Some(p) => Ok(p),
            None => Err(ApiError::validation(String::from_str("file path has no parent directory"))),
        }
    }
}

/// The error for a program that could not be launched: a missing program
/// and any other failure get different wording, both naming the kind of
/// application and the program.
pub open spec fn spawn_failure_message(kind: Seq<char>, program: Seq<char>, not_found: bool, detail: Seq<char>) -> Seq<char> {
    if not_found {
        kind + " CLI '"@ + program + "' not found; install or change Settings ("@ + detail + ")"@
    } else {
        "failed to launch "@ + kind + " '"@ + program + "': "@ + detail
    }
}

/// The `ExternalApp` error reported when launching `program` failed.
pub fn spawn_failure_error(kind: &str, program: &str, not_found: bool, detail: &str) -> (r: ApiError)
    ensures
        r.code == ApiErrorCode::ExternalApp,
        r.message@ == spawn_failure_message(kind@, program@, not_found, detail@),
{
    let mut m: String;
    if not_found {
        m = String::from_str(kind);
        m.append(" CLI '");
        m.append(program);
        m.append("' not found; install or change Settings (");
        m.append(detail);
        m.append(")");
    } else {
        m = String::from_str("failed to launch ");
        m.append(kind);
        m.append(" '");
        m.append(program);
        m.append("': ");
        m.append(detail);
    }
    ApiError::external_app(m)
}

/// A path that is absolute on some platform: it starts with `/` or `\`,
/// or with a drive letter, a colon and a separator.
pub open spec fn looks_like_absolute_path(p: Seq<char>) -> bool {
    ||| p.len() >= 1 && (p[0] == '/' || p[0] == '\\')
    ||| p.len() >= 3 && (('a' <= p[0] && p[0] <= 'z') || ('A' <= p[0] && p[0] <= 'Z')) && p[1] == ':'
        && (p[2] == '\\' || p[2] == '/')
}

/// Refuses a relative path with a validation error.
pub fn require_absolute_path(path: &str) -> (r: Result<(), ApiError>)
    ensures
        looks_like_absolute_path(path@) ==> r is Ok,
        !looks_like_absolute_path(path@) ==> (r matches Err(e) && e.code == ApiErrorCode::ValidationError
            && e.message@ == "path must be absolute"@),
{
    let cs = crate::text::chars_of(path);
    let n = cs.len();
    let absolute = (n >= 1 && (cs[0] == '/' || cs[0] == '\\')) || (n >= 3 && (('a' <= cs[0] && cs[0] <= 'z') || (
    'A' <= cs[0] && cs[0] <= 'Z')) && cs[1] == ':' && (cs[2] == '\\' || cs[2] == '/'));
    if absolute {
        Ok(())
    } else {
        Err(ApiError::validation(String::from_str("path must be absolute")))
    }
}

/// Why resolving a path on the file system failed.
#[derive(Debug, Clone, Copy, PartialEq, Eq, Structural)]
pub enum PathErrorKind {
    NotFound,
    PermissionDenied,
    Other,
}

/// Code and message of the error for a path that could not be resolved;
/// `detail` is the file system's own description of the failure.
pub open spec fn canonicalize_error_of(kind: PathErrorKind, path: Seq<char>, detail: Seq<char>) -> (
    ApiErrorCode,
    Seq<char>,
) {
    match kind {
        PathErrorKind::NotFound => (ApiErrorCode::NotFound, "path does not exist: "@ + path + " ("@ + detail + ")"@),
        PathErrorKind::PermissionDenied => (
            ApiErrorCode::ExternalApp,
            "permission denied accessing path: "@ + path + " ("@ + detail + ")"@,
        ),
        PathErrorKind::Other => (ApiErrorCode::ExternalApp, "failed to resolve path: "@ + path + " ("@ + detail + ")"@),
    }
}

/// The error for an absolute path the file system could not resolve: a
/// missing path is not-found, anything else (permissions included) an
/// external-app failure.
pub fn canonicalize_error(kind: PathErrorKind, path: &str, detail: &str) -> (r: ApiError)
    ensures
        (r.code, r.message@) == canonicalize_error_of(kind, path@, detail@),
{
    let mut m = match kind {
        PathErrorKind::NotFound => String::from_str("path does not exist: "),
        PathErrorKind::PermissionDenied => String::from_str("permission denied accessing path: "),
        PathErrorKind::Other => String::from_str("failed to resolve path: "),
    };
    m.append(path);
    m.append(" (");
    m.append(detail);
    m.append(")");
    match kind {
        PathErrorKind::NotFound => ApiError::not_found(m),
        _ => ApiError::external_app(m),
    }
}

/// What resolving a requested path gives: a relative path is refused before
/// the file system is asked; otherwise the resolved path, or the error for
/// the failure (see [`canonicalize_error`]). `resolved` is what the file
/// system answered for the path.
pub fn canonical_path_outcome(path: &str, resolved: Result<String, (PathErrorKind, String)>) -> (r: Result<
    String,
    ApiError,
>)
    ensures
        !looks_like_absolute_path(path@) ==> (r matches Err(e) && e.code == ApiErrorCode::ValidationError
            && e.message@ == "path must be absolute"@),
        looks_like_absolute_path(path@) ==> match resolved {
            Ok(p) => (r matches Ok(q) && q@ == p@),
            Err((k, d)) => (r matches Err(e) && (e.code, e.message@) == canonicalize_error_of(k, path@, d@)),
        },
{
    match require_absolute_path(path) {
        Err(e) => Err(e),
        Ok(()) => match resolved {
            Ok(p) => Ok(p),
            Err((k, d)) => Err(canonicalize_error(k, path, d.as_str())),
        },
    }
}

} // verus!

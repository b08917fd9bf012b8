use cdt_api::error::ApiErrorCode;
use cdt_api::external_app::{
    build_editor_command, build_system_open_command, build_terminal_command, choose_terminal, format_goto_target,
    list_available_terminals, require_absolute_path, spawn_failure_error, terminal_directory, CommandSpec, ExternalEditor,
    TargetOs, TerminalApp,
};

fn env_var(cmd: &CommandSpec, key: &str) -> Option<String> {
    cmd.env.iter().find(|(k, _)| k == key).map(|(_, v)| v.clone())
}

#[test]
fn list_available_terminals_per_platform() {
    assert_eq!(list_available_terminals(TargetOs::MacOs), vec!["terminal", "i_term", "warp"]);
    assert_eq!(list_available_terminals(TargetOs::Windows), vec!["windows_terminal", "cmd", "power_shell"]);
    assert_eq!(
        list_available_terminals(TargetOs::Linux),
        vec!["x_terminal_emulator", "gnome_terminal", "konsole", "alacritty"]
    );
}

#[test]
fn list_available_terminals_iterm_serializes_as_i_term() {
    let list = list_available_terminals(TargetOs::MacOs);
    assert!(list.contains(&"i_term".to_string()), "got: {list:?}");
    assert!(!list.contains(&"iterm".to_string()), "got: {list:?}");
}

#[test]
fn unavailable_terminal_falls_back_to_platform_default() {
    assert_eq!(choose_terminal(TerminalApp::ITerm, TargetOs::MacOs), TerminalApp::ITerm);
    assert_eq!(choose_terminal(TerminalApp::ITerm, TargetOs::Linux), TerminalApp::XTerminalEmulator);
    assert_eq!(choose_terminal(TerminalApp::Konsole, TargetOs::Windows), TerminalApp::WindowsTerminal);
}

#[test]
fn build_terminal_macos_terminal_uses_open_a() {
    let cmd = build_terminal_command(TerminalApp::Terminal, "/Users/foo/project").unwrap();
    assert_eq!(cmd.program, "open");
    assert!(!cmd.resolve);
    assert_eq!(cmd.args, vec!["-a", "Terminal", "/Users/foo/project"]);
}

#[test]
fn build_terminal_macos_iterm_uses_iterm_app_name() {
    let cmd = build_terminal_command(TerminalApp::ITerm, "/Users/foo/project").unwrap();
    assert_eq!(cmd.args, vec!["-a", "iTerm", "/Users/foo/project"]);
}

#[test]
fn build_terminal_windows_terminal_uses_wt_d() {
    let cmd = build_terminal_command(TerminalApp::WindowsTerminal, "C:\\Users\\foo").unwrap();
    assert_eq!(cmd.program, "wt.exe");
    assert_eq!(cmd.args, vec!["-d", "C:\\Users\\foo"]);
}

#[test]
fn build_terminal_powershell_passes_path_via_env_var_not_argv() {
    let dir = "C:\\path with spaces & special'chars";
    let cmd = build_terminal_command(TerminalApp::PowerShell, dir).unwrap();
    assert_eq!(cmd.program, "powershell.exe");
    assert_eq!(cmd.args, vec!["-NoExit", "-Command", "Set-Location -LiteralPath $env:CDT_TARGET_PATH"]);
    assert_eq!(env_var(&cmd, "CDT_TARGET_PATH").as_deref(), Some(dir));
}

#[test]
fn build_terminal_cmd_safe_path_uses_env_var() {
    let cmd = build_terminal_command(TerminalApp::Cmd, "C:\\Users\\foo").unwrap();
    assert_eq!(cmd.program, "cmd.exe");
    assert_eq!(cmd.args, vec!["/K", "cd /d \"%CDT_TARGET_PATH%\""]);
    assert_eq!(env_var(&cmd, "CDT_TARGET_PATH").as_deref(), Some("C:\\Users\\foo"));
}

#[test]
fn build_terminal_cmd_rejects_metachar_ampersand() {
    let err = build_terminal_command(TerminalApp::Cmd, "C:\\foo&bar").unwrap_err();
    assert_eq!(err.code, ApiErrorCode::ValidationError);
    assert!(err.message.contains("unsafe"));
    assert!(err.message.contains('&'));
}

#[test]
fn build_terminal_cmd_rejects_metachar_pipe() {
    let err = build_terminal_command(TerminalApp::Cmd, "C:\\foo|bar").unwrap_err();
    assert!(err.message.contains('|'));
}

#[test]
fn build_terminal_cmd_rejects_metachar_caret() {
    let err = build_terminal_command(TerminalApp::Cmd, "C:\\foo^bar").unwrap_err();
    assert!(err.message.contains('^'));
}

#[test]
fn build_terminal_cmd_rejects_metachar_percent() {
    let err = build_terminal_command(TerminalApp::Cmd, "C:\\foo%bar%").unwrap_err();
    assert!(err.message.contains('%'));
}

#[test]
fn build_terminal_cmd_rejects_metachar_quote() {
    let err = build_terminal_command(TerminalApp::Cmd, "C:\\foo\"bar").unwrap_err();
    assert!(err.message.contains('"'));
}

#[test]
fn build_terminal_cmd_rejects_newline() {
    let err = build_terminal_command(TerminalApp::Cmd, "C:\\foo\nbar").unwrap_err();
    assert!(err.message.contains("unsafe"));
}

#[test]
fn build_terminal_cmd_error_message_names_first_unsafe_char() {
    let err = build_terminal_command(TerminalApp::Cmd, "C:\\a(b&c").unwrap_err();
    assert_eq!(
        err.message,
        "path contains characters unsafe for Windows cmd shell: '('. Rename the directory or switch to PowerShell / Windows Terminal."
    );
}

#[test]
fn build_terminal_powershell_accepts_metachars_in_env_var() {
    let cmd = build_terminal_command(TerminalApp::PowerShell, "/path with & | special chars").unwrap();
    assert_eq!(env_var(&cmd, "CDT_TARGET_PATH").as_deref(), Some("/path with & | special chars"));
}

#[test]
fn build_terminal_linux_x_terminal_emulator_argv() {
    let cmd = build_terminal_command(TerminalApp::XTerminalEmulator, "/home/foo").unwrap();
    assert!(cmd.program.ends_with("x-terminal-emulator"));
    assert!(cmd.resolve);
    assert_eq!(cmd.args, vec!["--working-directory", "/home/foo"]);
}

#[test]
fn build_terminal_linux_gnome_terminal_uses_equals_form() {
    let cmd = build_terminal_command(TerminalApp::GnomeTerminal, "/home/foo").unwrap();
    assert!(cmd.program.ends_with("gnome-terminal"));
    assert_eq!(cmd.args, vec!["--working-directory=/home/foo"]);
}

#[test]
fn build_terminal_linux_konsole_uses_workdir_flag() {
    let cmd = build_terminal_command(TerminalApp::Konsole, "/home/foo").unwrap();
    assert!(cmd.program.ends_with("konsole"));
    assert_eq!(cmd.args, vec!["--workdir", "/home/foo"]);
}

#[test]
fn build_terminal_linux_alacritty() {
    let cmd = build_terminal_command(TerminalApp::Alacritty, "/home/foo").unwrap();
    assert!(cmd.program.ends_with("alacritty"));
    assert_eq!(cmd.args, vec!["--working-directory", "/home/foo"]);
}

#[test]
fn build_editor_vs_code_with_line_col() {
    let cmd = build_editor_command(ExternalEditor::VsCode, "/foo/bar.rs", Some(42), Some(8), TargetOs::Linux);
    assert!(cmd.program.ends_with("code"));
    assert!(cmd.resolve);
    assert_eq!(cmd.args, vec!["--goto", "/foo/bar.rs:42:8"]);
}

#[test]
fn build_editor_vs_code_line_only() {
    let cmd = build_editor_command(ExternalEditor::VsCode, "/foo/bar.rs", Some(42), None, TargetOs::Linux);
    assert_eq!(cmd.args, vec!["--goto", "/foo/bar.rs:42"]);
}

#[test]
fn build_editor_vs_code_no_line_omits_goto() {
    let cmd = build_editor_command(ExternalEditor::VsCode, "/foo/bar.rs", None, None, TargetOs::Linux);
    assert_eq!(cmd.args, vec!["/foo/bar.rs"]);
}

#[test]
fn build_editor_vs_code_no_line_with_column_still_omits_goto() {
    let cmd = build_editor_command(ExternalEditor::VsCode, "/foo/bar.rs", None, Some(8), TargetOs::Linux);
    assert_eq!(cmd.args, vec!["/foo/bar.rs"]);
}

#[test]
fn build_editor_cursor_uses_cursor_cli() {
    let cmd = build_editor_command(ExternalEditor::Cursor, "/foo/bar.rs", Some(10), Some(5), TargetOs::Linux);
    assert!(cmd.program.ends_with("cursor"));
    assert_eq!(cmd.args, vec!["--goto", "/foo/bar.rs:10:5"]);
}

#[test]
fn build_editor_zed_no_goto_flag() {
    let cmd = build_editor_command(ExternalEditor::Zed, "/foo/bar.rs", Some(10), Some(5), TargetOs::Linux);
    assert!(cmd.program.ends_with("zed"));
    assert_eq!(cmd.args, vec!["/foo/bar.rs:10:5"]);
}

#[test]
fn build_editor_sublime_no_goto_flag() {
    let cmd = build_editor_command(ExternalEditor::Sublime, "/foo/bar.rs", Some(10), None, TargetOs::Linux);
    assert!(cmd.program.ends_with("subl"));
    assert_eq!(cmd.args, vec!["/foo/bar.rs:10"]);
}

#[test]
fn build_editor_vs_code_windows_drive_letter_path_keeps_colon() {
    let cmd = build_editor_command(ExternalEditor::VsCode, "C:\\foo\\bar.rs", Some(42), Some(8), TargetOs::Windows);
    assert!(cmd.program.ends_with("code"));
    assert_eq!(cmd.args, vec!["--goto", "C:\\foo\\bar.rs:42:8"]);
}

#[test]
fn build_editor_vs_code_windows_drive_letter_path_line_only() {
    let cmd = build_editor_command(ExternalEditor::VsCode, "C:\\Program Files\\test.rs", Some(7), None, TargetOs::Windows);
    assert_eq!(cmd.args, vec!["--goto", "C:\\Program Files\\test.rs:7"]);
}

#[test]
fn build_editor_system_macos_uses_open() {
    let cmd = build_editor_command(ExternalEditor::System, "/foo/bar.rs", Some(42), Some(8), TargetOs::MacOs);
    assert_eq!(cmd.program, "open");
    assert_eq!(cmd.args, vec!["/foo/bar.rs"]);
}

#[test]
fn build_editor_system_linux_uses_xdg_open() {
    let cmd = build_editor_command(ExternalEditor::System, "/foo/bar.rs", None, None, TargetOs::Linux);
    assert_eq!(cmd.program, "xdg-open");
    assert_eq!(cmd.args, vec!["/foo/bar.rs"]);
}

#[test]
fn build_editor_system_windows_uses_powershell_with_env_var() {
    let path = "C:\\path with spaces & special'chars\\foo.txt";
    let cmd = build_editor_command(ExternalEditor::System, path, Some(42), Some(8), TargetOs::Windows);
    assert_eq!(cmd.program, "powershell.exe");
    assert_eq!(cmd.args, vec!["-NoProfile", "-Command", "Invoke-Item -LiteralPath $env:CDT_TARGET_PATH"]);
    assert_eq!(env_var(&cmd, "CDT_TARGET_PATH").as_deref(), Some(path));
    let direct = build_system_open_command(path, TargetOs::Windows);
    assert_eq!(direct.args, cmd.args);
}

#[test]
fn format_goto_target_path_only_with_line() {
    assert_eq!(format_goto_target("/foo/bar.rs", 42, None), "/foo/bar.rs:42");
}

#[test]
fn format_goto_target_path_with_line_and_col() {
    assert_eq!(format_goto_target("/foo/bar.rs", 42, Some(8)), "/foo/bar.rs:42:8");
}

#[test]
fn open_in_terminal_rejects_relative_path() {
    let err = require_absolute_path("relative/path").unwrap_err();
    assert_eq!(err.code, ApiErrorCode::ValidationError);
    assert!(err.message.contains("absolute"));
    assert!(require_absolute_path("/abs/path").is_ok());
    assert!(require_absolute_path("C:\\abs").is_ok());
    assert!(require_absolute_path("C:rel").is_err());
}

#[test]
fn ensure_directory_falls_back_to_parent_for_file() {
    assert_eq!(terminal_directory("/tmp/dir", true).unwrap(), "/tmp/dir");
    assert_eq!(terminal_directory("/tmp/dir/test.txt", false).unwrap(), "/tmp/dir");
    let err = terminal_directory("/", false).unwrap_err();
    assert_eq!(err.code, ApiErrorCode::ValidationError);
}

#[test]
fn spawn_command_missing_cli_returns_external_app_error_with_bare_name() {
    const MISSING: &str = "cdt_nonexistent_cli_xyz_abc_999";
    let err = spawn_failure_error("editor", MISSING, true, "No such file or directory (os error 2)");
    assert_eq!(err.code, ApiErrorCode::ExternalApp);
    assert!(err.message.contains(MISSING), "error message SHALL carry bare CLI name, got: {}", err.message);
    assert_eq!(
        err.message,
        "editor CLI 'cdt_nonexistent_cli_xyz_abc_999' not found; install or change Settings (No such file or directory (os error 2))"
    );
    let other = spawn_failure_error("terminal", "wt.exe", false, "denied");
    assert_eq!(other.message, "failed to launch terminal 'wt.exe': denied");
}

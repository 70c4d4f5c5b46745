use herdr_palette::shell::{
    inject_focus_for_herdr_create, login_shell_command_spec, shell_command_spec_for, shell_label,
    ShellCommandStyle, ShellEvent, ShellLine, ShellPanel, ShellStream,
};

fn panel() -> ShellPanel {
    ShellPanel::new("/work".to_string(), Some("/bin/zsh"))
}

fn line(stream: ShellStream, text: &str) -> ShellLine {
    ShellLine { stream, text: text.to_string() }
}

#[test]
fn shell_empty_enter_closes_only_when_idle() {
    let mut shell = panel();

    assert!(shell.closes_on_empty_enter());

    shell.input = "echo ok".into();
    assert!(!shell.closes_on_empty_enter());

    shell.input.clear();
    shell.running = true;
    assert!(!shell.closes_on_empty_enter());

    shell.running = false;
    shell.command = Some("echo ok".into());
    assert!(shell.closes_on_empty_enter());
}

#[test]
fn shell_clear_removes_input_command_and_output() {
    let mut shell = panel();
    shell.input = "echo nope".into();
    shell.command = Some("echo old".into());
    shell.lines.push(ShellLine {
        stream: ShellStream::Stdout,
        text: "old".into(),
    });

    shell.clear();

    assert!(shell.input.is_empty());
    assert_eq!(shell.command, None);
    assert!(shell.lines.is_empty());
    assert!(!shell.running);
}

#[test]
fn shell_command_spec_uses_nushell_login_command_mode() {
    let spec = shell_command_spec_for("/opt/homebrew/bin/nu");

    assert_eq!(spec.program, "/opt/homebrew/bin/nu");
    assert_eq!(spec.label, "nu");
    assert_eq!(
        spec.args_for("pwd"),
        vec!["--login".to_string(), "-c".to_string(), "pwd".to_string()]
    );
}

#[test]
fn shell_command_spec_uses_dash_lc_for_posix_shells() {
    let spec = shell_command_spec_for("/bin/zsh");

    assert_eq!(spec.label, "zsh");
    assert_eq!(
        spec.args_for("pwd"),
        vec!["-lc".to_string(), "pwd".to_string()]
    );
}

#[test]
fn shell_styles_go_by_the_label() {
    for name in ["nu", "nushell", "fish", "/usr/bin/fish", "-fish"] {
        assert_eq!(shell_command_spec_for(name).style, ShellCommandStyle::LongLoginCommand);
    }
    for name in ["pwsh", "/opt/powershell"] {
        let spec = shell_command_spec_for(name);
        assert_eq!(spec.style, ShellCommandStyle::PowerShellLoginCommand);
        assert_eq!(spec.args_for("ls"), vec!["-Login", "-Command", "ls"]);
    }
    for name in ["bash", "sh", "", "fish/..", "Fish"] {
        assert_eq!(shell_command_spec_for(name).style, ShellCommandStyle::DashLoginCommand);
    }
}

#[test]
fn shell_labels_are_base_names_without_dashes() {
    assert_eq!(shell_label("/bin/bash"), "bash");
    assert_eq!(shell_label("--zsh"), "zsh");
    assert_eq!(shell_label("/bin/-zsh/"), "zsh");
    assert_eq!(shell_label("/"), "/");
    assert_eq!(shell_label(""), "");
    assert_eq!(shell_label("a/.."), "a/..");
    for program in ["/bin/bash", "a/./b", "a/b/.", "..", ".", "a//b//", "/a/../b"] {
        let want = std::path::Path::new(program)
            .file_name()
            .and_then(|name| name.to_str())
            .unwrap_or(program)
            .trim_start_matches('-');
        assert_eq!(shell_label(program), want, "{program}");
    }
}

#[test]
fn login_shell_defaults_to_bash() {
    assert_eq!(login_shell_command_spec(None).program, "bash");
    assert_eq!(login_shell_command_spec(Some("/bin/sh")).label, "sh");
}

#[test]
fn inject_focus_adds_flag_to_herdr_creates() {
    assert_eq!(
        inject_focus_for_herdr_create("herdr workspace create Foo"),
        "herdr workspace create Foo --focus"
    );
    assert_eq!(
        inject_focus_for_herdr_create("herdr tab create Bar"),
        "herdr tab create Bar --focus"
    );
    assert_eq!(
        inject_focus_for_herdr_create("herdr pane split --direction right"),
        "herdr pane split --direction right --focus"
    );
    assert_eq!(
        inject_focus_for_herdr_create("herdr pane create"),
        "herdr pane create --focus"
    );
}

#[test]
fn inject_focus_respects_existing_flag() {
    assert_eq!(
        inject_focus_for_herdr_create("herdr workspace create Foo --focus"),
        "herdr workspace create Foo --focus"
    );
    assert_eq!(
        inject_focus_for_herdr_create("herdr tab create --focus Bar"),
        "herdr tab create --focus Bar"
    );
}

#[test]
fn inject_focus_skips_non_herdr_and_compound_commands() {
    assert_eq!(
        inject_focus_for_herdr_create("ls -la"),
        "ls -la"
    );
    assert_eq!(
        inject_focus_for_herdr_create("herdr workspace create Foo; echo done"),
        "herdr workspace create Foo; echo done"
    );
    assert_eq!(
        inject_focus_for_herdr_create("herdr workspace create Foo && herdr tab create Bar"),
        "herdr workspace create Foo && herdr tab create Bar"
    );
    assert_eq!(
        inject_focus_for_herdr_create("cd /tmp && herdr workspace create Foo"),
        "cd /tmp && herdr workspace create Foo"
    );
}

#[test]
fn inject_focus_preserves_whitespace_and_quotes() {
    assert_eq!(
        inject_focus_for_herdr_create("  herdr workspace create \"Foo Bar\"  "),
        "herdr workspace create \"Foo Bar\" --focus"
    );
}

#[test]
fn inject_focus_twice_is_injecting_it_once() {
    for command in ["herdr tab create", "/opt/herdr  pane\tsplit x", "ls", "", "herdr tab"] {
        let once = inject_focus_for_herdr_create(command);
        assert_eq!(inject_focus_for_herdr_create(&once), once);
        assert!(once.starts_with(command.trim()));
    }
    assert_eq!(
        inject_focus_for_herdr_create("/opt/herdr  pane\tsplit x"),
        "/opt/herdr  pane\tsplit x --focus"
    );
    assert_eq!(inject_focus_for_herdr_create("herdr worktree create"), "herdr worktree create");
}

#[test]
fn start_launches_the_typed_command_in_the_panel_cwd() {
    let mut shell = panel();
    shell.input = "  herdr tab create ".to_string();
    shell.lines.push(line(ShellStream::Stdout, "old"));
    let launch = shell.start(Some("/usr/bin/fish")).unwrap();
    assert_eq!(launch.program, "/usr/bin/fish");
    assert_eq!(launch.args, vec!["--login", "-c", "herdr tab create --focus"]);
    assert_eq!(launch.cwd, "/work");
    assert_eq!(shell.command.as_deref(), Some("herdr tab create --focus"));
    assert_eq!(shell.shell_label, "fish");
    assert!(shell.running && shell.listening && shell.lines.is_empty() && shell.input.is_empty());

    shell.input = "ls".to_string();
    assert!(shell.start(None).is_none());
    assert_eq!(shell.input, "ls");
}

#[test]
fn start_wants_a_command() {
    let mut shell = panel();
    shell.input = " \t ".to_string();
    assert!(shell.start(None).is_none());
    assert!(!shell.running);
}

#[test]
fn reports_fill_the_panel_and_end_the_command() {
    let mut shell = panel();
    shell.input = "ls".to_string();
    shell.start(None);
    shell.drain_events(vec![
        ShellEvent::read(ShellStream::Stdout, Ok("a".to_string())),
        ShellEvent::read(ShellStream::Stderr, Ok("b".to_string())),
    ]);
    assert!(shell.running && shell.listening);
    shell.drain_events(vec![
        ShellEvent::exited(Some(-3)),
        ShellEvent::read(ShellStream::Stdout, Err("broken".to_string())),
        ShellEvent::read(ShellStream::Stderr, Err("pipe".to_string())),
    ]);
    assert!(!shell.running && !shell.listening);
    assert_eq!(
        shell.lines,
        vec![
            line(ShellStream::Stdout, "a"),
            line(ShellStream::Stderr, "b"),
            line(ShellStream::Status, "exit -3"),
            line(ShellStream::Stdout, "read stdout failed: broken"),
            line(ShellStream::Stderr, "read stderr failed: pipe"),
        ]
    );
    shell.drain_events(vec![ShellEvent::exited(Some(0))]);
    assert_eq!(shell.lines.len(), 5);
}

#[test]
fn a_command_that_does_not_start_is_reported() {
    let mut shell = panel();
    shell.input = "ls".to_string();
    shell.start(None);
    shell.drain_events(vec![ShellEvent::SpawnError("no such file".to_string())]);
    assert_eq!(shell.lines, vec![line(ShellStream::Status, "spawn failed: no such file")]);
    assert!(!shell.running);
}

#[test]
fn an_exit_without_a_code_counts_as_one() {
    let mut shell = panel();
    shell.input = "ls".to_string();
    shell.start(None);
    shell.drain_events(vec![ShellEvent::exited(None)]);
    assert_eq!(shell.lines, vec![line(ShellStream::Status, "exit 1")]);
}

#[test]
fn a_cleared_panel_ignores_reports() {
    let mut shell = panel();
    shell.input = "ls".to_string();
    shell.start(None);
    shell.clear();
    shell.drain_events(vec![ShellEvent::exited(Some(0))]);
    assert!(shell.lines.is_empty());
    assert_eq!(shell.shell_label, "bash");
}

#[test]
fn entering_drops_the_input_only() {
    let mut shell = panel();
    shell.input = "ls".to_string();
    shell.command = Some("pwd".to_string());
    shell.enter();
    assert!(shell.input.is_empty());
    assert_eq!(shell.command.as_deref(), Some("pwd"));
}

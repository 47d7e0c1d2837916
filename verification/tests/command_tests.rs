//! Command building, shell selection, and executable resolution tests.

use remote_agents::command::{CommandBuildError, CommandBuilder};
use remote_agents::shell::{
    get_shell_command, merge_paths, resolve_executable_path, resolve_executable_path_blocking,
    resolve_in_view, FsView, UnixShell,
};
use remote_agents::tui::{key_to_bytes, Key};

#[test]
fn build_splits_base_and_appends() {
    let b = CommandBuilder::new(String::from("agent --verbose 'two words'"))
        .params(vec![String::from("-p")]);
    let parts = b.build_initial().unwrap();
    assert_eq!(parts.program, "agent");
    assert_eq!(parts.args, vec![
        String::from("--verbose"),
        String::from("two words"),
        String::from("-p")
    ]);
}

#[test]
fn build_follow_up_appends_extra_args() {
    let b = CommandBuilder::new(String::from("agent"));
    let parts = b
        .build_follow_up(&vec![String::from("--resume"), String::from("sid")])
        .unwrap();
    assert_eq!(parts.program, "agent");
    assert_eq!(parts.args, vec![String::from("--resume"), String::from("sid")]);
}

#[test]
fn build_empty_command_is_rejected() {
    let b = CommandBuilder::new(String::from(""));
    assert!(matches!(b.build_initial(), Err(CommandBuildError::EmptyCommand)));
}

#[test]
fn build_unparsable_base_is_rejected() {
    let b = CommandBuilder::new(String::from("agent 'unclosed"));
    match b.build_initial() {
        Err(CommandBuildError::InvalidBase(s)) => assert_eq!(s, "agent 'unclosed"),
        _ => panic!("expected InvalidBase"),
    }
}

#[test]
fn extend_params_and_override_base() {
    let b = CommandBuilder::new(String::from("one"))
        .params(vec![String::from("a")])
        .extend_params(vec![String::from("b")])
        .override_base(String::from("two"));
    assert_eq!(b.base, "two");
    let parts = b.build_initial().unwrap();
    assert_eq!(parts.program, "two");
    assert_eq!(parts.args, vec![String::from("a"), String::from("b")]);
}

#[test]
fn merge_paths_dedups_and_keeps_order() {
    let merged = merge_paths(
        &vec![String::from("/a"), String::from(""), String::from("/b")],
        &vec![String::from("/b"), String::from("/c"), String::from("/a")],
    );
    assert_eq!(merged, vec![String::from("/a"), String::from("/b"), String::from("/c")]);
}

#[test]
fn shell_command_defaults_to_sh() {
    let (prog, flag) = get_shell_command(None);
    assert_eq!(prog, "/bin/sh");
    assert_eq!(flag, "-c");
    let sh = UnixShell::current_shell(None);
    assert_eq!(sh.path(), "/bin/sh");
    assert!(!sh.login());
    // a relative SHELL value falls back to /bin/sh too
    let sh = UnixShell::current_shell(Some("bash"));
    assert_eq!(sh.path(), "/bin/sh");
    let (prog, _) = get_shell_command(Some("not/absolute"));
    assert_eq!(prog, "/bin/sh");
}

#[test]
fn shell_classification_by_file_name() {
    // /bin/sh exists on this platform and is classified by its file name
    let sh = UnixShell::from_path("/bin/sh").unwrap();
    assert!(matches!(sh, UnixShell::Sh(_)));
    assert!(UnixShell::from_path("relative/sh").is_none());
}

#[test]
fn resolution_is_idempotent_on_a_fixed_view() {
    let fs = FsView {
        files: vec![String::from("/usr/bin/agent"), String::from("/bin/tool")],
        path_dirs: vec![String::from("/usr/bin"), String::from("/bin")],
    };
    let first = resolve_in_view("agent", &fs).unwrap();
    assert_eq!(first, "/usr/bin/agent");
    let second = resolve_in_view(&first, &fs).unwrap();
    assert_eq!(second, first);
    assert!(resolve_in_view("missing", &fs).is_none());
    assert!(resolve_in_view("", &fs).is_none());
}

#[test]
fn resolve_executable_path_behaviour() {
    assert!(resolve_executable_path("").is_none());
    assert!(resolve_executable_path("  \t").is_none());
    assert_eq!(
        resolve_executable_path("/bin/sh"),
        Some(String::from("/bin/sh"))
    );
    assert_eq!(
        resolve_executable_path_blocking("/bin/sh"),
        Some(String::from("/bin/sh"))
    );
}

#[test]
fn key_encoding_matches_terminal_conventions() {
    assert_eq!(key_to_bytes(&Key::Char('a'), true), Some(vec![1]));
    assert_eq!(key_to_bytes(&Key::Char('z'), true), Some(vec![26]));
    assert_eq!(key_to_bytes(&Key::Char('A'), false), Some(vec![b'A']));
    assert_eq!(key_to_bytes(&Key::Char('\u{e9}'), false), Some(vec![0xc3, 0xa9]));
    assert_eq!(key_to_bytes(&Key::Enter, false), Some(vec![b'\r']));
    assert_eq!(key_to_bytes(&Key::Backspace, false), Some(vec![0x7f]));
    assert_eq!(key_to_bytes(&Key::Tab, false), Some(vec![b'\t']));
    assert_eq!(key_to_bytes(&Key::Esc, false), Some(vec![0x1b]));
    assert_eq!(key_to_bytes(&Key::Up, false), Some(b"\x1b[A".to_vec()));
    assert_eq!(key_to_bytes(&Key::Home, false), Some(b"\x1b[H".to_vec()));
    assert_eq!(key_to_bytes(&Key::PageDown, false), Some(b"\x1b[6~".to_vec()));
    assert_eq!(key_to_bytes(&Key::Delete, false), Some(b"\x1b[3~".to_vec()));
    assert_eq!(key_to_bytes(&Key::F(1), false), Some(b"\x1bOP".to_vec()));
    assert_eq!(key_to_bytes(&Key::F(5), false), Some(b"\x1b[15~".to_vec()));
    assert_eq!(key_to_bytes(&Key::F(12), false), Some(b"\x1b[24~".to_vec()));
    assert_eq!(key_to_bytes(&Key::F(13), false), None);
}

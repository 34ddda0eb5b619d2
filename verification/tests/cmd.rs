use sshr::cmd::{build_shpool_cmd, shell_escape};

#[test]
fn test_default_shell() {
    let cmd = build_shpool_cmd("s0", None, None);
    assert!(cmd.contains("attach -f s0"));
    assert!(cmd.contains("-c $HOME/.local/share/sshr/init/launch.sh"));
    assert!(!cmd.contains("-d "));
}

#[test]
fn test_shell_override_with_cwd() {
    let cmd = build_shpool_cmd("s0", Some("/bin/zsh"), Some("~/projects"));
    assert!(cmd.contains("attach -f s0"));
    assert!(cmd.contains(r#"-c "$HOME/.local/share/sshr/init/launch.sh /bin/zsh""#));
    assert!(cmd.contains("-d ~/projects"));
}

#[test]
fn full_command_is_exact() {
    let cmd = build_shpool_cmd("host-s1", Some("fish"), Some("my dir"));
    assert_eq!(
        cmd,
        "$HOME/.local/share/sshr/bin/shpool --socket $HOME/.local/run/sshr/shpool.socket attach -f host-s1 -c \"$HOME/.local/share/sshr/init/launch.sh fish\" -d 'my dir'"
    );
}

#[test]
fn shell_escape_leaves_plain_words() {
    assert_eq!(shell_escape("~/projects"), "~/projects");
    assert_eq!(shell_escape(""), "");
}

#[test]
fn shell_escape_quotes_special_words() {
    assert_eq!(shell_escape("a b"), "'a b'");
    assert_eq!(shell_escape("it's"), "'it'\\''s'");
    assert_eq!(shell_escape("a\"b"), "'a\"b'");
    assert_eq!(shell_escape("a\\b"), "'a\\b'");
    assert_eq!(shell_escape("tab\there"), "'tab\there'");
}

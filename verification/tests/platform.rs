use sshr::cli::{effective_setting, parse_subcommand, Subcommand};
use sshr::config::{EnvDirective, HostConfig};
use sshr::copy::{
    copy_accepts, copy_directives_step, glob_match_simple, is_excluded, join_path, plan_copy, resolve_sources,
    run_copy_directives, CopyAction, CopyEvent, CopyStep, Sources,
};
use sshr::kitty::{set_user_var, user_var_sequence};
use sshr::ssh::{translate_for_scp, SshContext};
use sshr::text::{decimal_string, parse_usize, replace_all, trim, words_of};
use sshr::upload::{
    build_env_exports, detect_remote_platform, ensure_accepts, ensure_shpool, ensure_shpool_step, has_sshr_shpool,
    init_files_script, EnsureAction, EnsureEvent, EnsureState, INIT_SCRIPT_HEAD, INIT_SCRIPT_TAIL,
};
use sshr::config::CopyDirective;

fn strings(v: &[&str]) -> Vec<String> {
    v.iter().map(|s| s.to_string()).collect()
}

#[test]
fn platform_detection() {
    let p = detect_remote_platform("Linux x86_64\n");
    assert_eq!((p.os.as_str(), p.arch.as_str()), ("linux", "x86_64"));
    assert_eq!(p.binary_name(), "shpool-linux-x86_64");
    let p = detect_remote_platform("Darwin arm64");
    assert_eq!(p.binary_name(), "shpool-darwin-aarch64");
    let p = detect_remote_platform("FreeBSD amd64");
    assert_eq!(p.arch, "x86_64");
    let p = detect_remote_platform("");
    assert_eq!(p.binary_name(), "shpool-unknown-unknown");
}

#[test]
fn installed_check() {
    assert!(has_sshr_shpool("yes\n"));
    assert!(!has_sshr_shpool("no\n"));
    assert!(!has_sshr_shpool(""));
}

fn assign(k: &str, v: &str) -> EnvDirective {
    EnvDirective::Assign(k.to_string(), v.to_string())
}

#[test]
fn env_exports_escape_values() {
    let env = vec![assign("A", "x\"y"), assign("B", "c:\\d")];
    assert_eq!(build_env_exports(&env), "export A=\"x\\\"y\"\nexport B=\"c:\\\\d\"");
    assert_eq!(build_env_exports(&Vec::new()), "");
}

#[test]
fn init_script_holds_exports() {
    let mut cfg = HostConfig::default();
    assert_eq!(init_files_script(&cfg), format!("{INIT_SCRIPT_HEAD}{INIT_SCRIPT_TAIL}"));
    cfg.env.push(assign("EDITOR", "vim"));
    let script = init_files_script(&cfg);
    assert!(script.contains("export SSH_CONNECTION=\"${SSH_CONNECTION:-sshr}\"\nexport EDITOR=\"vim\"\nlogin_shell="));
    assert!(script.starts_with("mkdir -p $HOME/.local/share/sshr/init/zsh"));
}

fn run_of(a: &EnsureAction) -> &str {
    match a {
        EnsureAction::Run(c) => c.as_str(),
        other => panic!("expected a remote command, got {other:?}"),
    }
}

#[test]
fn ensure_shpool_steps() {
    let cfg = HostConfig::default();
    let (s, a) = ensure_shpool(false);
    assert_eq!(run_of(&a), "test -x ~/.local/share/sshr/bin/shpool && echo yes || echo no");
    let (s2, a) = ensure_shpool_step(s, EnsureEvent::Output("yes\n".to_string()), &cfg);
    assert_eq!(run_of(&a), "mkdir -p ~/.local/run/sshr");
    let (s3, a) = ensure_shpool_step(s2, EnsureEvent::Output(String::new()), &cfg);
    assert_eq!(run_of(&a), init_files_script(&cfg));
    let (_, a) = ensure_shpool_step(s3, EnsureEvent::Output(String::new()), &cfg);
    assert!(matches!(a, EnsureAction::Finish));
}

#[test]
fn ensure_shpool_uploads_when_missing() {
    let cfg = HostConfig::default();
    let (s, _) = ensure_shpool(false);
    let (s, a) = ensure_shpool_step(s, EnsureEvent::Output("no\n".to_string()), &cfg);
    assert!(matches!(s, EnsureState::Detecting));
    assert_eq!(run_of(&a), "uname -sm");
    let (s, a) = ensure_shpool_step(s, EnsureEvent::Output("Linux x86_64\n".to_string()), &cfg);
    match &a {
        EnsureAction::Locate(n) => assert_eq!(n, "shpool-linux-x86_64"),
        other => panic!("expected a lookup, got {other:?}"),
    }
    let found = Some("/opt/shpool/bin/shpool-linux-x86_64".to_string());
    let (s, a) = ensure_shpool_step(s, EnsureEvent::Located(found), &cfg);
    assert_eq!(run_of(&a), "mkdir -p ~/.local/share/sshr/bin");
    let (s, a) = ensure_shpool_step(s, EnsureEvent::Output(String::new()), &cfg);
    match &a {
        EnsureAction::Upload { local, target } => {
            assert_eq!(local, "/opt/shpool/bin/shpool-linux-x86_64");
            assert_eq!(target, "~/.local/share/sshr/bin/shpool");
        }
        other => panic!("expected an upload, got {other:?}"),
    }
    let (s, a) = ensure_shpool_step(s, EnsureEvent::Uploaded, &cfg);
    assert_eq!(run_of(&a), "chmod +x ~/.local/share/sshr/bin/shpool");
    let (s, a) = ensure_shpool_step(s, EnsureEvent::Output(String::new()), &cfg);
    assert_eq!(run_of(&a), "mkdir -p ~/.local/run/sshr");
    assert!(matches!(s, EnsureState::PreparingSocket));
}

#[test]
fn ensure_shpool_fails_without_binary() {
    let cfg = HostConfig::default();
    let (s, a) = ensure_shpool(true);
    assert!(matches!(s, EnsureState::Detecting));
    assert_eq!(run_of(&a), "uname -sm");
    let (s, _) = ensure_shpool_step(s, EnsureEvent::Output("Darwin arm64".to_string()), &cfg);
    let (s, a) = ensure_shpool_step(s, EnsureEvent::Located(None), &cfg);
    assert!(matches!(a, EnsureAction::Fail));
    assert!(matches!(s, EnsureState::Finished));
    assert!(!ensure_accepts(&s, &EnsureEvent::Uploaded));
}

#[test]
fn ssh_arguments() {
    let ctx = SshContext::with_control_dir("ssh", "/home/u/.ssh/sshr-sockets");
    assert_eq!(ctx.control_path, "/home/u/.ssh/sshr-sockets/%r@%h:%p");
    assert_eq!(
        ctx.mux_args(),
        strings(&["-o", "ControlMaster=auto", "-o", "ControlPath=/home/u/.ssh/sshr-sockets/%r@%h:%p", "-o", "ControlPersist=10m"])
    );
    let args = ctx.control_args("check", "fermat", &strings(&["-p", "22"]));
    assert_eq!(args, strings(&["-O", "check", "-o", "ControlPath=/home/u/.ssh/sshr-sockets/%r@%h:%p", "fermat", "-p", "22"]));
    let args = ctx.interactive_args("h", &Vec::new(), Some("shpool attach foo"));
    assert_eq!(&args[6..], &strings(&["h", "-t", "shpool attach foo"])[..]);
    let args = ctx.interactive_args("h", &Vec::new(), None);
    assert_eq!(&args[6..], &strings(&["h"])[..]);
    let args = ctx.capture_args("h", &strings(&["-v"]), "uname -sm");
    assert_eq!(&args[6..], &strings(&["h", "-v", "uname -sm"])[..]);
    let args = ctx.scp_args("h", &strings(&["-p", "2222"]), "/tmp/f", "~/f");
    assert_eq!(args, strings(&["-o", "ControlPath=/home/u/.ssh/sshr-sockets/%r@%h:%p", "-P", "2222", "/tmp/f", "h:~/f"]));
    assert_eq!(ctx.clean_stale_master("fermat", true), None);
    assert_eq!(ctx.clean_stale_master("fermat", false).as_deref(), Some("/home/u/.ssh/sshr-sockets/*@fermat:*"));
    assert_eq!(translate_for_scp(&strings(&["-p", "-pp", "x"])), strings(&["-P", "-pp", "x"]));
}

#[test]
fn user_var_escape() {
    assert_eq!(set_user_var("sshr_host", "fermat"), "\x1b]1337;SetUserVar=sshr_host=ZmVybWF0\x07");
    assert_eq!(set_user_var("sshr_host", ""), "\x1b]1337;SetUserVar=sshr_host=\x07");
    assert_eq!(user_var_sequence("k", "dg=="), "\x1b]1337;SetUserVar=k=dg==\x07");
}

#[test]
fn subcommands() {
    assert!(matches!(parse_subcommand(&strings(&["ls"])), Subcommand::List));
    assert!(matches!(parse_subcommand(&strings(&["list", "x"])), Subcommand::List));
    assert!(matches!(parse_subcommand(&strings(&["clean"])), Subcommand::Clean));
    match parse_subcommand(&strings(&["attach", "-p", "22"])) {
        Subcommand::Attach(a) => assert_eq!(a, strings(&["-p", "22"])),
        _ => panic!("expected attach"),
    }
    match parse_subcommand(&strings(&["kill"])) {
        Subcommand::Kill(a) => assert!(a.is_empty()),
        _ => panic!("expected kill"),
    }
    match parse_subcommand(&strings(&["-v", "x"])) {
        Subcommand::Connect(a) => assert_eq!(a, strings(&["-v", "x"])),
        _ => panic!("expected connect"),
    }
    assert!(matches!(parse_subcommand(&Vec::new()), Subcommand::Connect(a) if a.is_empty()));
    assert_eq!(effective_setting(&Some("a".to_string()), &Some("b".to_string())), Some("a".to_string()));
    assert_eq!(effective_setting(&None, &Some("b".to_string())), Some("b".to_string()));
}

fn directive(src: &str, dest: Option<&str>, glob: bool, excludes: &[&str]) -> CopyDirective {
    CopyDirective { src: src.to_string(), dest: dest.map(String::from), glob, excludes: strings(excludes) }
}

#[test]
fn copy_sources_and_steps() {
    match resolve_sources("/home/u", &directive(".vimrc  /etc/hosts", None, false, &[])) {
        Sources::Paths(p) => assert_eq!(p, strings(&["/home/u/.vimrc", "/etc/hosts"])),
        _ => panic!("expected paths"),
    }
    match resolve_sources("/home/u/", &directive("images/*", None, true, &[])) {
        Sources::Patterns(p) => assert_eq!(p, strings(&["/home/u//images/*"])),
        _ => panic!("expected patterns"),
    }
    assert_eq!(join_path("/home/u/", "a"), "/home/u/a");
    assert_eq!(join_path("", "a"), "a");
    let d = directive("images/*", None, true, &["*.jpg"]);
    assert!(matches!(plan_copy(&d, "/home/u", "/home/u/images/a.jpg", true, false), CopyStep::Excluded));
    assert!(matches!(plan_copy(&d, "/home/u", "/home/u/images/a.png", false, false), CopyStep::Missing));
    match plan_copy(&d, "/home/u", "/home/u/images/a.png", true, false) {
        CopyStep::File { mkdir, target } => {
            assert_eq!(mkdir.as_deref(), Some("mkdir -p ~/images"));
            assert_eq!(target, "~/images/a.png");
        }
        _ => panic!("expected a file"),
    }
    match plan_copy(&directive(".vimrc", None, false, &[]), "/home/u", "/home/u/.vimrc", true, false) {
        CopyStep::File { mkdir, target } => {
            assert_eq!(mkdir, None);
            assert_eq!(target, "~/.vimrc");
        }
        _ => panic!("expected a file"),
    }
    match plan_copy(&directive(".config/nvim", Some("nv"), false, &[]), "/home/u", "/home/u/.config/nvim", true, true) {
        CopyStep::Directory { remote } => assert_eq!(remote, "nv"),
        _ => panic!("expected a directory"),
    }
    assert!(is_excluded(&strings(&["*.bmp", "*.jpg"]), "x.jpg"));
    assert!(!is_excluded(&strings(&["*.bmp"]), "x.jpg"));
    assert!(glob_match_simple("?.txt", "a.txt"));
}

#[test]
fn text_helpers() {
    assert_eq!(decimal_string(0), "0");
    assert_eq!(decimal_string(1207), "1207");
    assert_eq!(parse_usize("+42"), Some(42));
    assert_eq!(parse_usize("18446744073709551615"), Some(usize::MAX));
    assert_eq!(parse_usize("18446744073709551616"), None);
    assert_eq!(parse_usize("-1"), None);
    assert_eq!(parse_usize("+"), None);
    assert_eq!(replace_all("aaa", "aa", "b"), "ba");
    assert_eq!(replace_all("$A $AB", "$A", "x"), "x xB");
    assert_eq!(trim("\u{3000} a b \t"), "a b");
    assert_eq!(words_of("  a  bb\tc \n"), strings(&["a", "bb", "c"]));
    assert_eq!(sshr::session::prefix_from_hostname("ÄB.x"), "äb");
}

#[test]
fn copy_run_visits_each_path_in_order() {
    let copies = vec![
        directive("", None, false, &[]),
        directive(".vimrc .zshrc", None, false, &["*.bak"]),
        directive("pics/*", Some("p"), true, &[]),
    ];
    let home = "/home/u";
    let (s, a) = run_copy_directives(&copies, home);
    match &a {
        CopyAction::Inspect(l) => assert_eq!(l, "/home/u/.vimrc"),
        _ => panic!("expected the first path of the second directive"),
    }
    assert_eq!(s.directive, 1);
    let ev = CopyEvent::Inspected { exists: true, is_dir: false };
    assert!(copy_accepts(&copies, &s, &ev));
    let (s, a) = copy_directives_step(&copies, home, s, ev);
    match a {
        CopyAction::Handle { local, step: CopyStep::File { mkdir, target } } => {
            assert_eq!(local, "/home/u/.vimrc");
            assert_eq!(mkdir, None);
            assert_eq!(target, "~/.vimrc");
        }
        _ => panic!("expected a file copy"),
    }
    assert!(!copy_accepts(&copies, &s, &CopyEvent::Expanded(Vec::new())));
    let (s, a) = copy_directives_step(&copies, home, s, CopyEvent::Handled);
    assert!(matches!(&a, CopyAction::Inspect(l) if l == "/home/u/.zshrc"));
    let (s, a) = copy_directives_step(&copies, home, s, CopyEvent::Inspected { exists: false, is_dir: false });
    assert!(matches!(a, CopyAction::Handle { step: CopyStep::Missing, .. }));
    let (s, a) = copy_directives_step(&copies, home, s, CopyEvent::Handled);
    match &a {
        CopyAction::Expand(p) => assert_eq!(p, &strings(&["/home/u/pics/*"])),
        _ => panic!("expected the patterns of the third directive"),
    }
    let found = strings(&["/home/u/pics/a.png"]);
    let (s, a) = copy_directives_step(&copies, home, s, CopyEvent::Expanded(found));
    assert!(matches!(&a, CopyAction::Inspect(l) if l == "/home/u/pics/a.png"));
    let (s, a) = copy_directives_step(&copies, home, s, CopyEvent::Inspected { exists: true, is_dir: true });
    match a {
        CopyAction::Handle { step: CopyStep::Directory { remote }, .. } => assert_eq!(remote, "p"),
        _ => panic!("expected a directory copy"),
    }
    let (s, a) = copy_directives_step(&copies, home, s, CopyEvent::Handled);
    assert!(matches!(a, CopyAction::Finish));
    assert_eq!(s.directive, 3);
    assert!(!copy_accepts(&copies, &s, &CopyEvent::Handled));
    let (_, a) = run_copy_directives(&Vec::new(), home);
    assert!(matches!(a, CopyAction::Finish));
}

#[test]
fn copy_decision_from_path_facts() {
    let d = directive(".vimrc", None, false, &["*.bak"]);
    let name = Some("x.bak".to_string());
    assert!(matches!(sshr::copy::decide_copy(&d, "/h/x.bak", true, false, &name, &None, &None), CopyStep::Excluded));
    assert!(matches!(sshr::copy::decide_copy(&d, "/h/x.bak", false, false, &name, &None, &None), CopyStep::Missing));
    let name = Some("init.lua".to_string());
    let rel = Some(".config/nvim/init.lua".to_string());
    let parent = Some(".config/nvim".to_string());
    match sshr::copy::decide_copy(&d, "/h/.config/nvim/init.lua", true, false, &name, &rel, &parent) {
        CopyStep::File { mkdir, target } => {
            assert_eq!(mkdir.as_deref(), Some("mkdir -p ~/.config/nvim"));
            assert_eq!(target, "~/.config/nvim/init.lua");
        }
        _ => panic!("expected a file copy"),
    }
    match sshr::copy::decide_copy(&d, "/opt/x", true, false, &Some("x".to_string()), &None, &Some(String::new())) {
        CopyStep::File { mkdir, target } => {
            assert_eq!(mkdir, None);
            assert_eq!(target, "~//opt/x");
        }
        _ => panic!("expected a file copy"),
    }
    assert_eq!(sshr::copy::remote_path(&Some("d".to_string()), &rel, "/x"), "d");
    assert_eq!(sshr::copy::remote_path(&None, &None, "/x"), "/x");
}

#[test]
fn shpool_directory_candidates() {
    let anc = strings(&["/nix/store/abc/bin", "/"]);
    assert_eq!(
        sshr::upload::shpool_dirs(&Some("/custom".to_string()), &anc),
        strings(&[
            "/custom",
            "/nix/store/abc/bin/shpool/bin",
            "/nix/store/abc/bin/share/sshr/shpool/bin",
            "/shpool/bin",
            "/share/sshr/shpool/bin",
        ])
    );
    assert!(sshr::upload::shpool_dirs(&None, &Vec::new()).is_empty());
}

#[test]
fn base64_padding_forms() {
    assert_eq!(set_user_var("k", "a"), "\x1b]1337;SetUserVar=k=YQ==\x07");
    assert_eq!(set_user_var("k", "ab"), "\x1b]1337;SetUserVar=k=YWI=\x07");
    assert_eq!(set_user_var("k", "é"), "\x1b]1337;SetUserVar=k=w6k=\x07");
}

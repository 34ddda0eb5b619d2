use sshr::config::{
    convert_toml, env_is_ordered, expand_env_vars, glob_match, host_matches, raw_config_is_ordered,
    resolve_env, text_is_before, Config, EnvDirective, HostConfig, LocalEnv, RawConfig, RawCopy,
    RawSection,
};

fn text(v: &toml::Value) -> String {
    v.as_str().expect("a string").to_string()
}

fn section(t: &toml::Table) -> RawSection {
    RawSection {
        shell: t.get("shell").map(text),
        cwd: t.get("cwd").map(text),
        delegate: t.get("delegate").map(text),
        remote_dir: t.get("remote_dir").map(text),
        shell_integration: t.get("shell_integration").map(|v| v.as_bool().expect("a bool")),
        env: t.get("env").map(|v| {
            v.as_table()
                .expect("a table")
                .iter()
                .map(|(k, v)| (k.clone(), text(v)))
                .collect()
        }),
        copy: t.get("copy").map(|v| {
            v.as_array()
                .expect("an array")
                .iter()
                .map(|c| match c.as_table() {
                    None => RawCopy::Simple(text(c)),
                    Some(d) => RawCopy::Detailed {
                        src: text(&d["src"]),
                        dest: d.get("dest").map(text),
                        glob: d.get("glob").map(|g| g.as_bool().expect("a bool")),
                        exclude: d
                            .get("exclude")
                            .map(|e| e.as_array().expect("an array").iter().map(text).collect()),
                    },
                })
                .collect()
        }),
    }
}

fn no_env() -> LocalEnv {
    LocalEnv::new(Vec::new())
}

fn raw_of(t: &toml::Table) -> RawConfig {
    RawConfig {
        top: section(&t),
        hosts: t.get("hosts").map(|h| {
            h.as_table()
                .expect("a table")
                .iter()
                .map(|(k, v)| (k.clone(), section(v.as_table().expect("a table"))))
                .collect()
        }),
    }
}

fn parse(s: &str) -> Config {
    let t: toml::Table = s.parse().unwrap();
    let raw = raw_of(&t);
    assert!(raw_config_is_ordered(&raw));
    convert_toml(&raw, &no_env())
}

#[test]
fn test_global_shell() {
    let cfg = parse(r#"shell = "fish""#);
    assert_eq!(cfg.defaults.shell.as_deref(), Some("fish"));
}

#[test]
fn test_env_set() {
    let cfg = parse(
        r#"
[env]
FOO = "bar"
BAZ = ""
"#,
    );
    assert_eq!(cfg.defaults.env.len(), 2);
    let EnvDirective::Assign(k, v) = &cfg.defaults.env[0];
    assert_eq!(k, "BAZ"); // BTreeMap sorts alphabetically
    assert_eq!(v, "");
    let EnvDirective::Assign(k, v) = &cfg.defaults.env[1];
    assert_eq!(k, "FOO");
    assert_eq!(v, "bar");
}

#[test]
fn test_hostname_section() {
    let cfg = parse(
        r#"
shell = "bash"

[hosts."myserver-*"]
shell = "/bin/zsh"

[hosts."myserver-*".env]
EDITOR = "vim"
"#,
    );
    assert_eq!(cfg.defaults.shell.as_deref(), Some("bash"));
    assert_eq!(cfg.hosts.len(), 1);
    assert_eq!(cfg.hosts[0].1.shell.as_deref(), Some("/bin/zsh"));
}

#[test]
fn test_for_host_matching() {
    let cfg = parse(
        r#"
shell = "bash"

[hosts."myserver-*"]
shell = "/bin/zsh"
"#,
    );
    let host_cfg = cfg.for_host("myserver-prod");
    assert_eq!(host_cfg.shell.as_deref(), Some("/bin/zsh"));

    let other_cfg = cfg.for_host("otherhost");
    assert_eq!(other_cfg.shell.as_deref(), Some("bash"));
}

#[test]
fn test_for_host_user_at_host() {
    let cfg = parse(
        r#"
[hosts."admin@server"]
shell = "/bin/zsh"
"#,
    );
    assert!(cfg.for_host("admin@server").shell.is_some());
    assert!(cfg.for_host("other@server").shell.is_none());
    assert!(cfg.for_host("server").shell.is_none());
}

#[test]
fn test_delegate() {
    let cfg = parse(
        r#"
[hosts."legacy-*"]
delegate = "ssh"
"#,
    );
    let host_cfg = cfg.for_host("legacy-box");
    assert_eq!(host_cfg.delegate.as_deref(), Some("ssh"));
}

#[test]
fn test_copy_simple() {
    let cfg = parse(
        r#"
copy = [".vimrc", ".zshrc"]
"#,
    );
    assert_eq!(cfg.defaults.copy.len(), 2);
    assert_eq!(cfg.defaults.copy[0].src, ".vimrc");
    assert_eq!(cfg.defaults.copy[1].src, ".zshrc");
}

#[test]
fn test_copy_detailed() {
    let cfg = parse(
        r#"
[[copy]]
src = ".vimrc"
dest = "my-conf/vim/vimrc"

[[copy]]
src = "images/*"
glob = true
exclude = ["*.jpg", "*.bmp"]
"#,
    );
    assert_eq!(cfg.defaults.copy.len(), 2);
    assert_eq!(cfg.defaults.copy[0].dest.as_deref(), Some("my-conf/vim/vimrc"));
    assert!(cfg.defaults.copy[1].glob);
    assert_eq!(cfg.defaults.copy[1].excludes, vec!["*.jpg", "*.bmp"]);
}

#[test]
fn test_merge_env_accumulates() {
    let cfg = parse(
        r#"
[env]
A = "1"

[hosts.server]
[hosts.server.env]
B = "2"
"#,
    );
    let host_cfg = cfg.for_host("server");
    assert_eq!(host_cfg.env.len(), 2);
}

#[test]
fn test_glob_match() {
    assert!(glob_match("*", "anything"));
    assert!(glob_match("server-*", "server-prod"));
    assert!(!glob_match("server-*", "other"));
    assert!(glob_match("s?rver", "server"));
    assert!(!glob_match("s?rver", "sserver"));
}

#[test]
fn test_shell_integration() {
    let cfg = parse(
        r#"
[hosts.server]
shell_integration = false
"#,
    );
    let host_cfg = cfg.for_host("server");
    assert_eq!(host_cfg.shell_integration, Some(false));
}

#[test]
fn test_empty_config() {
    let cfg = parse("");
    assert!(cfg.defaults.shell.is_none());
    assert!(cfg.hosts.is_empty());
}

#[test]
fn empty_config_sets_nothing() {
    let cfg = Config::empty();
    let h = cfg.for_host("any");
    assert!(h.shell.is_none() && h.cwd.is_none() && h.delegate.is_none());
    assert!(h.env.is_empty() && h.copy.is_empty());
    let d = HostConfig::default();
    assert!(d.remote_dir.is_none() && d.shell_integration.is_none());
}

#[test]
fn later_matching_section_wins() {
    let cfg = parse(
        r#"
shell = "bash"
cwd = "~"

[hosts."a*"]
shell = "zsh"
cwd = "/srv"

[hosts."ab*"]
shell = "fish"
"#,
    );
    let h = cfg.for_host("abc");
    assert_eq!(h.shell.as_deref(), Some("fish"));
    assert_eq!(h.cwd.as_deref(), Some("/srv"));
    let h = cfg.for_host("ax");
    assert_eq!(h.shell.as_deref(), Some("zsh"));
}

#[test]
fn env_accumulates_in_order_over_sections() {
    let cfg = parse(
        r#"
[env]
A = "1"

[hosts."s*"]
env = { B = "2" }

[hosts."se*"]
env = { C = "3" }

[hosts.other]
env = { D = "4" }
"#,
    );
    let h = cfg.for_host("server");
    let names: Vec<&str> = h.env.iter().map(|EnvDirective::Assign(k, _)| k.as_str()).collect();
    assert_eq!(names, vec!["A", "B", "C"]);
}

#[test]
fn copy_marker_takes_local_value() {
    let t: toml::Table = "[env]\nTERM_PROGRAM = \"_kitty_copy_env_var_\"\nMISSING = \"_kitty_copy_env_var_\"".parse().unwrap();
    let raw = RawConfig { top: section(&t), hosts: None };
    let local = LocalEnv::new(vec![("TERM_PROGRAM".to_string(), "kitty".to_string())]);
    let cfg = convert_toml(&raw, &local);
    let EnvDirective::Assign(k, v) = &cfg.defaults.env[0];
    assert_eq!((k.as_str(), v.as_str()), ("MISSING", ""));
    let EnvDirective::Assign(k, v) = &cfg.defaults.env[1];
    assert_eq!((k.as_str(), v.as_str()), ("TERM_PROGRAM", "kitty"));
}

#[test]
fn host_matching_with_users() {
    assert!(host_matches("admin@prod-*", "admin@prod-1"));
    assert!(!host_matches("admin@prod-*", "prod-1"));
    assert!(host_matches("prod-*", "admin@prod-1"));
    assert!(host_matches("a?min@*", "admin@x"));
    assert!(!host_matches("admin@*", "root@x"));
}

#[test]
fn glob_literal_star_in_text() {
    // A pattern star meeting a star in the text is consumed as a literal first.
    assert!(!glob_match("*a", "*ba"));
    assert!(glob_match("*a", "xba"));
    assert!(!glob_match("*", "**"));
    assert!(glob_match("a*b*c", "aXXbYYc"));
    assert!(!glob_match("a*b*c", "aXXbYY"));
}

fn env_of(pairs: &[(&str, &str)]) -> LocalEnv {
    LocalEnv::new(pairs.iter().map(|(k, v)| (k.to_string(), v.to_string())).collect())
}

#[test]
fn expand_env_vars_forms() {
    let env = env_of(&[("HOME", "/home/u"), ("A_1", "x")]);
    assert_eq!(expand_env_vars("${HOME}/bin", &env), "/home/u/bin");
    assert_eq!(expand_env_vars("$A_1", &env), "x");
    assert_eq!(expand_env_vars("${NOPE}", &env), "${NOPE}");
    assert_eq!(expand_env_vars("$NOPE", &env), "$NOPE");
    assert_eq!(expand_env_vars("cost $", &env), "cost $");
    assert_eq!(expand_env_vars("${NOPE", &env), "${NOPE}");
    assert_eq!(expand_env_vars("${HOME", &env), "/home/u");
    assert_eq!(expand_env_vars("plain", &env), "plain");
}

#[test]
fn expand_env_vars_keeps_name_terminator() {
    let env = env_of(&[("HOME", "/home/u"), ("PATH", "/bin")]);
    // The character that ends a bare `$NAME` stays in the text.
    assert_eq!(expand_env_vars("$HOME/bin", &env), "/home/u/bin");
    assert_eq!(expand_env_vars("$PATH:$HOME/.nix-profile/bin", &env), "/bin:/home/u/.nix-profile/bin");
    assert_eq!(expand_env_vars("$ x", &env), "$ x");
}

#[test]
fn for_host_keeps_env_values_for_the_remote_shell() {
    let cfg = parse(
        r#"
[env]
PATH = "$PATH:$HOME/.nix-profile/bin"

[hosts."myserver-*".env]
EDITOR = "vim"
"#,
    );
    for host in ["myserver-1", "other"] {
        let h = cfg.for_host(host);
        let EnvDirective::Assign(k, v) = &h.env[0];
        assert_eq!((k.as_str(), v.as_str()), ("PATH", "$PATH:$HOME/.nix-profile/bin"));
    }
    assert_eq!(cfg.for_host("myserver-1").env.len(), 2);
    assert_eq!(cfg.for_host("other").env.len(), 1);
}

#[test]
fn tables_as_read_are_in_key_order() {
    assert!(text_is_before("A", "B"));
    assert!(text_is_before("A", "AB"));
    assert!(!text_is_before("AB", "A"));
    assert!(!text_is_before("A", "A"));
    assert!(text_is_before("Z", "a"));
    let sorted = RawSection {
        shell: None,
        cwd: None,
        delegate: None,
        remote_dir: None,
        shell_integration: None,
        env: Some(vec![("A".to_string(), "1".to_string()), ("B".to_string(), "2".to_string())]),
        copy: None,
    };
    assert!(env_is_ordered(&sorted.env));
    assert!(!env_is_ordered(&Some(vec![("B".to_string(), "1".to_string()), ("A".to_string(), "2".to_string())])));
    assert!(!env_is_ordered(&Some(vec![("A".to_string(), "1".to_string()), ("A".to_string(), "2".to_string())])));
    let t: toml::Table = "[hosts.b]\nshell = \"x\"\n[hosts.a]\nshell = \"y\"\n".parse().unwrap();
    assert!(raw_config_is_ordered(&raw_of(&t)));
    let swapped = RawConfig { top: sorted, hosts: Some(vec![("b".to_string(), section(&t)), ("a".to_string(), section(&t))]) };
    assert!(!raw_config_is_ordered(&swapped));
}

#[test]
fn resolve_env_uses_earlier_values() {
    let mut env = vec![
        EnvDirective::Assign("A".to_string(), "one".to_string()),
        EnvDirective::Assign("B".to_string(), "${A}-two".to_string()),
        EnvDirective::Assign("C".to_string(), "[${B}]".to_string()),
    ];
    resolve_env(&mut env, &no_env());
    let values: Vec<&str> = env.iter().map(|EnvDirective::Assign(_, v)| v.as_str()).collect();
    assert_eq!(values, vec!["one", "one-two", "[one-two]"]);
}

#[test]
fn resolve_env_stops_after_ten_rounds() {
    // `$X` expands to a longer text that holds `$X` again, round after round.
    let local = env_of(&[("X", "a$X")]);
    let mut env = vec![EnvDirective::Assign("V".to_string(), "$X".to_string())];
    resolve_env(&mut env, &local);
    let EnvDirective::Assign(_, v) = &env[0];
    assert_eq!(v, &format!("{}$X", "a".repeat(10)));
}

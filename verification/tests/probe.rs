use sshr::probe::{probe_remote, PROBE_SCRIPT};

#[test]
fn test_parse_fish_found() {
    // Simulate probe output
    let output = "/home/user/.nix-profile/bin/fish\n";
    let fish_path = probe_remote(output);
    assert_eq!(fish_path.as_deref(), Some("/home/user/.nix-profile/bin/fish"));
}

#[test]
fn test_parse_no_fish() {
    let output = "none\n";
    let fish_path = probe_remote(output);
    assert_eq!(fish_path, None);
}

#[test]
fn probe_reads_first_line_trimmed() {
    assert_eq!(probe_remote("  /usr/bin/fish \r\nmore\n").as_deref(), Some("/usr/bin/fish"));
    assert_eq!(probe_remote(""), None);
    assert_eq!(probe_remote("  none  \n"), None);
}

#[test]
fn probe_script_looks_for_fish() {
    assert!(PROBE_SCRIPT.contains("find_cmd fish"));
    assert!(PROBE_SCRIPT.contains("echo none"));
}

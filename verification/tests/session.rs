use sshr::session::{
    clean_detached, client_sessions, kill_sessions, list_sessions, new_session_name,
    parse_session_list, prefix_from_hostname, select_session, session_prefix, SelectError, SessionEntry,
};

#[test]
fn test_parse_session_list() {
    let output = "NAME    STARTED_AT      STATUS\n\
                   s0    2026-05-22T18:02:29.300+00:00   attached\n\
                   s1    2026-05-22T18:03:00.000+00:00   detached\n";
    let sessions = parse_session_list(output);
    assert_eq!(sessions.len(), 2);
    assert_eq!(sessions[0].name, "s0");
    assert_eq!(sessions[1].name, "s1");
}

#[test]
fn test_parse_empty_session_list() {
    let output = "NAME    STARTED_AT      STATUS\n";
    let sessions = parse_session_list(output);
    assert!(sessions.is_empty());
}

fn entry(name: &str, line: &str) -> SessionEntry {
    SessionEntry { name: name.to_string(), raw_line: line.to_string() }
}

#[test]
fn parse_session_list_skips_blank_lines_and_keeps_raw_line() {
    let sessions = parse_session_list("HEADER\n\n   \nbox-s0  x  attached\r\n");
    assert_eq!(sessions.len(), 1);
    assert_eq!(sessions[0].name, "box-s0");
    assert_eq!(sessions[0].raw_line, "box-s0  x  attached");
    assert!(parse_session_list("").is_empty());
}

#[test]
fn new_session_name_takes_first_free_index() {
    let sessions = vec![entry("box-s0", "box-s0 attached"), entry("box-s2", "box-s2 attached")];
    assert_eq!(new_session_name("box", &sessions), "box-s1");
    assert_eq!(new_session_name("box", &Vec::new()), "box-s0");
    let many: Vec<SessionEntry> = (0..12).map(|i| entry(&format!("box-s{i}"), "")).collect();
    assert_eq!(new_session_name("box", &many), "box-s12");
    assert_eq!(new_session_name("other", &many), "other-s0");
}

#[test]
fn session_commands() {
    assert_eq!(
        list_sessions(),
        "$HOME/.local/share/sshr/bin/shpool --socket $HOME/.local/run/sshr/shpool.socket list 2>/dev/null"
    );
    assert_eq!(
        kill_sessions(&vec!["a-s0".to_string(), "a-s1".to_string()]),
        "$HOME/.local/share/sshr/bin/shpool --socket $HOME/.local/run/sshr/shpool.socket kill a-s0 a-s1"
    );
}

#[test]
fn client_filter_and_detached() {
    let sessions = vec![
        entry("box-s0", "box-s0 t attached"),
        entry("box-s1", "box-s1 t detached"),
        entry("other-s0", "other-s0 t detached"),
        entry("boxer-s0", "boxer-s0 t detached"),
    ];
    let mine = client_sessions(&sessions, "box", false);
    assert_eq!(mine.len(), 2);
    assert_eq!(client_sessions(&sessions, "box", true).len(), 4);
    assert_eq!(clean_detached(&sessions, "box", false), vec!["box-s1".to_string()]);
    assert_eq!(
        clean_detached(&sessions, "box", true),
        vec!["box-s1".to_string(), "other-s0".to_string(), "boxer-s0".to_string()]
    );
}

#[test]
fn selection_by_number() {
    let sessions = vec![entry("a", "a"), entry("b", "b")];
    assert_eq!(select_session(&sessions, " 2\n"), Ok("b".to_string()));
    assert_eq!(select_session(&sessions, "+1"), Ok("a".to_string()));
    assert_eq!(select_session(&sessions, "0"), Err(SelectError::OutOfRange));
    assert_eq!(select_session(&sessions, "3"), Err(SelectError::OutOfRange));
    assert_eq!(select_session(&sessions, "x"), Err(SelectError::InvalidSelection));
    assert_eq!(select_session(&sessions, ""), Err(SelectError::InvalidSelection));
    assert_eq!(select_session(&sessions, "99999999999999999999999"), Err(SelectError::InvalidSelection));
}

#[test]
fn host_prefix_from_name() {
    assert_eq!(prefix_from_hostname("MacBook Pro.local"), "macbook-pro");
    assert_eq!(prefix_from_hostname("box"), "box");
    assert_eq!(prefix_from_hostname(""), "");
    assert_eq!(session_prefix(&Some("Work Box.lan".to_string())), "work-box");
    assert_eq!(session_prefix(&None), "unknown");
}

#[test]
fn kill_reaches_host_unless_ssh_fails() {
    assert!(sshr::session::kill_went_through(Some(0)));
    assert!(sshr::session::kill_went_through(Some(1)));
    assert!(!sshr::session::kill_went_through(Some(255)));
    assert!(!sshr::session::kill_went_through(None));
}

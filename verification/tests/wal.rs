use sshr::wal::{entry_line, read_entries, record_close, remove_entry, replay, write_entries, WalEntry};

fn e(host: &str, session: &str) -> WalEntry {
    WalEntry { host: host.to_string(), session: session.to_string() }
}

fn pairs(es: &[WalEntry]) -> Vec<(String, String)> {
    es.iter().map(|x| (x.host.clone(), x.session.clone())).collect()
}

#[test]
fn read_gives_back_written_entries() {
    let es = vec![e("fermat", "mac-s0"), e("user@gauss", "mac-s1:x"), e("fermat", "")];
    let text = write_entries(&es);
    assert_eq!(text, "fermat:mac-s0\nuser@gauss:mac-s1:x\nfermat:\n");
    assert_eq!(pairs(&read_entries(&text)), pairs(&es));
    assert_eq!(write_entries(&Vec::new()), "");
}

#[test]
fn read_skips_lines_without_colon() {
    let es = read_entries("junk\nh:s\r\n\nh2:s2");
    assert_eq!(pairs(&es), vec![("h".to_string(), "s".to_string()), ("h2".to_string(), "s2".to_string())]);
}

#[test]
fn record_then_remove() {
    let text = record_close("a:1\n", "b", "2");
    assert_eq!(text, "a:1\nb:2\n");
    assert_eq!(remove_entry(&text, "b", "2"), "a:1\n");
    assert_eq!(remove_entry(&text, "b", "3"), "a:1\nb:2\n");
}

#[test]
fn replay_takes_host_entries() {
    assert!(replay("a:1\nb:2\n", "c").is_none());
    let plan = replay("a:1\nb:2\na:3\n", "a").unwrap();
    assert_eq!(plan.sessions, vec!["1".to_string(), "3".to_string()]);
    assert_eq!(plan.remaining, "b:2\n");
}

#[test]
fn signal_entry_line() {
    assert_eq!(entry_line("h", "s"), "h:s\n");
}

#[test]
fn recorded_close_is_replayed_on_next_connect() {
    let text = record_close("a:1\nb:2\n", "a", "mac-s4");
    let plan = replay(&text, "a").unwrap();
    assert_eq!(plan.sessions, vec!["1".to_string(), "mac-s4".to_string()]);
    assert_eq!(plan.remaining, "b:2\n");
    assert!(replay(&plan.remaining, "a").is_none());
    assert_eq!(remove_entry(&record_close("b:2\n", "a", "s"), "a", "s"), "b:2\n");
}

#[test]
fn settled_close_keeps_entry_when_kill_fails() {
    let text = record_close("b:2\n", "a", "s");
    assert_eq!(sshr::wal::settle_close(&text, "a", "s", true).as_deref(), Some("b:2\n"));
    assert_eq!(sshr::wal::settle_close(&text, "a", "s", false), None);
}

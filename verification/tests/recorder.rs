use mashless::recorder::{classify, is_arrow, keep_text, Config, Kind, Session, Timestamp};

const START: Timestamp = Timestamp { secs: 1_700_000_000, nanos: 0 };

#[test]
fn arrows_and_kept_tokens() {
    assert!(is_arrow("<Up>") && is_arrow("<Down>") && is_arrow("<Left>") && is_arrow("<Right>"));
    assert!(!is_arrow("j") && !is_arrow("<up>"));
    for t in ["l", "h", "<Right>", "<Left>", "w", "b", "e", "W", "B", "E"] {
        assert!(keep_text(t), "{t}");
    }
    assert!(!keep_text("j") && !keep_text("x") && !keep_text(""));
}

#[test]
fn classify_by_first_char() {
    assert_eq!(classify("n"), Kind::Normal);
    assert_eq!(classify("no"), Kind::Normal);
    for m in ["v", "V", "\u{16}", "s", "S", "\u{13}"] {
        assert_eq!(classify(m), Kind::Visual);
    }
    assert_eq!(classify("i"), Kind::Insert);
    assert_eq!(classify("c"), Kind::Other);
    assert_eq!(classify(""), Kind::Other);
}

#[test]
fn default_config() {
    let c = Config::default();
    assert_eq!(c.output_dir, ".");
    assert_eq!((c.min_keys, c.vmin, c.hmin, c.xmin), (20, 3, 5, 3));
}

#[test]
fn new_session_is_empty() {
    let s = Session::new(START);
    assert!(s.keylog.is_empty());
    assert_eq!((s.total_keys, s.insert_arrows), (0, 0));
    assert!(s.files.is_empty());
    assert_eq!(s.last_pos, (1, 0));
    assert_eq!(s.start, START);
}

#[test]
fn record_key_by_mode() {
    let mut s = Session::new(START);
    s.record_key("<Left>".to_string(), "i", 3, 4, None);
    assert_eq!(s.insert_arrows, 1);
    assert_eq!(s.total_keys, 0);
    s.record_key("a".to_string(), "i", 3, 4, None);
    assert_eq!(s.insert_arrows, 1);
    s.record_key("l".to_string(), "n", 3, 4, Some("hello".to_string()));
    s.record_key("j".to_string(), "v", 4, 0, Some("hello".to_string()));
    s.record_key("w".to_string(), "n", 5, 0, Some(String::new()));
    s.record_key(":".to_string(), "c", 5, 0, None);
    assert_eq!(s.total_keys, 3);
    assert_eq!(s.keylog.len(), 3);
    assert_eq!(s.keylog[0].tok, "l");
    assert_eq!(s.keylog[0].text.as_deref(), Some("hello"));
    assert_eq!((s.keylog[0].line, s.keylog[0].col), (3, 4));
    assert_eq!(s.keylog[1].text, None);
    assert_eq!(s.keylog[2].text, None);
}

#[test]
fn visited_files_sorted_once() {
    let mut s = Session::new(START);
    s.visit_file("/b.rs".to_string());
    s.visit_file("/a.rs".to_string());
    s.visit_file("".to_string());
    s.visit_file("/b.rs".to_string());
    s.visit_file("/c.rs".to_string());
    assert_eq!(s.files, vec!["/a.rs".to_string(), "/b.rs".to_string(), "/c.rs".to_string()]);
}

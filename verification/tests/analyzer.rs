use mashless::analyzer::{analyze, find_runs};
use mashless::recorder::{Config, KeyEntry, Session, Timestamp};

const START: Timestamp = Timestamp { secs: 1_700_000_000, nanos: 0 };

/// The score the program reports: `(1 - wasted / count) * 100`, rounded
/// half up in double precision.
fn percent(wasted: i64, count: i64) -> i64 {
    ((1.0 - wasted as f64 / count as f64) * 100.0 + 0.5).floor() as i64
}

fn sess(toks: &[&str]) -> Session {
    let mut s = Session::new(START);
    for t in toks {
        s.total_keys += 1;
        s.keylog.push(KeyEntry { tok: t.to_string(), line: 1, col: 0, text: None });
    }
    s
}

#[test]
fn x_run_flagged() {
    let s = sess(&["x", "x", "x", "x", "x"]);
    let a = analyze(&s, &Config::default(), percent);
    assert_eq!(a.x_runs.len(), 1, "expected one x run");
    assert_eq!(a.x_runs[0].count, 5);
}

#[test]
fn mixed_runs() {
    let toks = ["j", "j", "j", "j", "l", "l", "l", "l", "l", "x", "x", "x", "w", "w", "w", "w", "w"];
    let s = sess(&toks);
    let a = analyze(&s, &Config::default(), percent);
    assert_eq!(a.vertical.len(), 1);
    assert_eq!(a.horizontal.len(), 1);
    assert_eq!(a.x_runs.len(), 1);
    assert_eq!(a.word_runs.len(), 1);
}

#[test]
fn runs_partition_the_log() {
    let s = sess(&["j", "j", "x", "j", "d", "d", "d"]);
    let runs = find_runs(&s.keylog);
    let got: Vec<(String, i64, usize, usize)> =
        runs.iter().map(|r| (r.tok.clone(), r.count, r.s, r.e)).collect();
    assert_eq!(
        got,
        vec![
            ("j".to_string(), 2, 0, 1),
            ("x".to_string(), 1, 2, 2),
            ("j".to_string(), 1, 3, 3),
            ("d".to_string(), 3, 4, 6)
        ]
    );
    assert!(find_runs(&Vec::new()).is_empty());
}

#[test]
fn empty_session_is_fully_efficient() {
    let s = Session::new(START);
    let a = analyze(&s, &Config::default(), percent);
    assert_eq!(a.wasted, 0);
    assert_eq!(a.efficiency, 100);
    assert_eq!(a.total_keys, 0);
    assert!(a.vertical.is_empty() && a.horizontal.is_empty());
}

#[test]
fn vertical_run_distance_and_waste() {
    let mut s = Session::new(START);
    for i in 0..10 {
        s.total_keys += 1;
        s.keylog.push(KeyEntry { tok: "j".to_string(), line: 1 + i, col: 0, text: None });
    }
    s.last_pos = (11, 0);
    let a = analyze(&s, &Config::default(), percent);
    assert_eq!(a.vertical.len(), 1);
    assert_eq!(a.vertical[0].tok, "j");
    assert_eq!(a.vertical[0].count, 10);
    assert_eq!(a.vertical[0].dist, 10);
    // 10 presses where ~3 would do.
    assert_eq!(a.wasted, 7);
    // round(100 * (1 - 7/10)) = 30
    assert_eq!(a.efficiency, 30);
}

#[test]
fn vertical_distance_uses_next_keystroke() {
    let mut s = Session::new(START);
    for i in 0..4 {
        s.total_keys += 1;
        s.keylog.push(KeyEntry { tok: "k".to_string(), line: 20 - i, col: 0, text: None });
    }
    s.total_keys += 1;
    s.keylog.push(KeyEntry { tok: "x".to_string(), line: 16, col: 3, text: None });
    let a = analyze(&s, &Config::default(), percent);
    assert_eq!(a.vertical[0].dist, 4);
}

#[test]
fn horizontal_run_lands_on_char() {
    let mut s = Session::new(START);
    let text = Some("let value = 42;".to_string());
    for i in 0..6 {
        s.total_keys += 1;
        s.keylog.push(KeyEntry { tok: "l".to_string(), line: 1, col: i, text: text.clone() });
    }
    s.last_pos = (1, 6);
    let a = analyze(&s, &Config::default(), percent);
    assert_eq!(a.horizontal.len(), 1);
    assert_eq!(a.horizontal[0].count, 6);
    assert_eq!(a.horizontal[0].ch, Some('l'));
    assert_eq!(a.wasted, 4);
}

#[test]
fn horizontal_landing_space_or_outside_is_none() {
    let mut s = Session::new(START);
    for i in 0..5 {
        s.total_keys += 1;
        s.keylog.push(KeyEntry { tok: "h".to_string(), line: 1, col: 9 - i, text: Some("a b".to_string()) });
    }
    s.last_pos = (1, 1);
    let a = analyze(&s, &Config::default(), percent);
    assert_eq!(a.horizontal[0].ch, None);
    s.last_pos = (1, 30);
    let a = analyze(&s, &Config::default(), percent);
    assert_eq!(a.horizontal[0].ch, None);
    s.last_pos = (1, -1);
    let a = analyze(&s, &Config::default(), percent);
    assert_eq!(a.horizontal[0].ch, None);
}

#[test]
fn landing_char_counts_bytes() {
    // "é" takes two bytes: byte 2 starts 'x', byte 1 is inside 'é'.
    let mut s = Session::new(START);
    for i in 0..5 {
        s.total_keys += 1;
        s.keylog.push(KeyEntry { tok: "l".to_string(), line: 1, col: i, text: Some("éxy".to_string()) });
    }
    s.last_pos = (1, 2);
    assert_eq!(analyze(&s, &Config::default(), percent).horizontal[0].ch, Some('x'));
    s.last_pos = (1, 1);
    assert_eq!(analyze(&s, &Config::default(), percent).horizontal[0].ch, None);
}

#[test]
fn dd_bursts_and_undo_streaks() {
    let s = sess(&["d", "d", "d", "d", "d", "d", "u", "u", "u", "u"]);
    let a = analyze(&s, &Config::default(), percent);
    assert_eq!(a.dd_runs.len(), 1);
    assert_eq!(a.dd_runs[0].count, 3);
    assert_eq!(a.undo_runs.len(), 1);
    assert_eq!(a.undo_runs[0].count, 4);
    assert_eq!(a.wasted, 2);
    let s = sess(&["d", "d", "d", "u", "u", "u"]);
    let a = analyze(&s, &Config::default(), percent);
    assert!(a.dd_runs.is_empty());
    assert!(a.undo_runs.is_empty());
}

#[test]
fn arrow_keys_counted_in_normal_mode() {
    let s = sess(&["<Up>", "<Up>", "j", "<Left>", "x", "<Right>"]);
    let a = analyze(&s, &Config::default(), percent);
    assert_eq!(a.normal_arrows, 4);
}

#[test]
fn thresholds_follow_config() {
    let s = sess(&["j", "j"]);
    let mut cfg = Config::default();
    assert!(analyze(&s, &cfg, percent).vertical.is_empty());
    cfg.vmin = 2;
    assert_eq!(analyze(&s, &cfg, percent).vertical.len(), 1);
}

#[test]
fn efficiency_is_clamped() {
    let mut s = sess(&["w", "w", "w", "w", "w", "w", "w", "w"]);
    s.total_keys = 1;
    let a = analyze(&s, &Config::default(), percent);
    assert_eq!(a.wasted, 5);
    assert_eq!(a.efficiency, 0);
}

#[test]
fn efficiency_takes_the_given_percentage_clamped() {
    let s = sess(&["x", "x", "x", "x", "x", "x"]);
    let a = analyze(&s, &Config::default(), |w, d| {
        assert_eq!((w, d), (4, 6));
        42
    });
    assert_eq!(a.efficiency, 42);
    assert_eq!(analyze(&s, &Config::default(), |_, _| 250).efficiency, 100);
    assert_eq!(analyze(&s, &Config::default(), |_, _| -7).efficiency, 0);
    let empty = Session::new(START);
    let a = analyze(&empty, &Config::default(), |w, d| {
        assert_eq!((w, d), (0, 1));
        100
    });
    assert_eq!(a.efficiency, 100);
}

#[test]
fn efficiency_rounds_in_double_precision() {
    assert_eq!(percent(17, 40), 57);
    assert_eq!(percent(1, 3), 67);
    assert_eq!(percent(0, 1), 100);
}

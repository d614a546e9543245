use mashless::files::{file_url, is_report_name, newest_report};
use mashless::recorder::Timestamp;
use mashless::state::{notice_kind, request_kind, AppState, Notice, Request};

const START: Timestamp = Timestamp { secs: 1_700_000_000, nanos: 0 };
const LATER: Timestamp = Timestamp { secs: 1_700_000_600, nanos: 5 };

#[test]
fn method_names() {
    assert_eq!(notice_kind("setup"), Notice::Setup);
    assert_eq!(notice_kind("key"), Notice::Key);
    assert_eq!(notice_kind("cursor"), Notice::Cursor);
    assert_eq!(notice_kind("buf"), Notice::Buf);
    assert_eq!(notice_kind("other"), Notice::Ignored);
    assert_eq!(request_kind("report"), Request::Report);
    assert_eq!(request_kind("open_latest"), Request::OpenLatest);
    assert_eq!(request_kind("nope"), Request::Unknown);
}

#[test]
fn notifications_fold_into_session() {
    let mut st = AppState::new(START);
    assert_eq!(st.config.min_keys, 20);
    st.setup("/out".to_string(), 2, 4, 6, 8, LATER);
    assert_eq!(st.session.start, LATER);
    assert_eq!(st.config.output_dir, "/out");
    assert_eq!((st.config.min_keys, st.config.vmin, st.config.hmin, st.config.xmin), (2, 4, 6, 8));
    st.key(String::new(), "n", 1, 1, None);
    assert_eq!(st.session.total_keys, 0);
    st.key("j".to_string(), "n", 1, 1, None);
    assert_eq!(st.session.total_keys, 1);
    st.cursor(7, 3);
    assert_eq!(st.session.last_pos, (7, 3));
    st.buf("/x".to_string());
    st.buf(String::new());
    assert_eq!(st.session.files, vec!["/x".to_string()]);
}

#[test]
fn report_honours_min_keys_on_exit() {
    let mut st = AppState::new(START);
    st.setup(".".to_string(), 2, 3, 5, 3, LATER);
    assert!(!st.report_due("exit"));
    assert!(st.report_due("manual"));
    st.key("j".to_string(), "n", 1, 1, None);
    st.key("j".to_string(), "n", 2, 1, None);
    assert!(st.report_due("exit"));
}

#[test]
fn negative_minimum_is_always_met() {
    let mut st = AppState::new(START);
    assert_eq!(st.session.start, START);
    st.setup(".".to_string(), -1, 3, 5, 3, LATER);
    assert!(st.report_due("exit"));
    st.setup(".".to_string(), 0, 3, 5, 3, LATER);
    assert!(st.report_due("exit"));
    st.setup(".".to_string(), 1, 3, 5, 3, LATER);
    assert!(!st.report_due("exit"));
}

#[test]
fn report_file_names() {
    assert!(is_report_name("mashless-2024-01-02-030405.html"));
    assert!(!is_report_name("mashless-2024.md"));
    assert!(!is_report_name("notes.html"));
    assert!(!is_report_name("mashless"));
    let names = vec![
        "mashless-2024-01-02-030405.html".to_string(),
        "zzz.html".to_string(),
        "mashless-2025-01-01-000000.html".to_string(),
        "mashless-2023-12-31-235959.html".to_string(),
    ];
    assert_eq!(newest_report(&names).as_deref(), Some("mashless-2025-01-01-000000.html"));
    assert_eq!(newest_report(&vec!["a".to_string()]), None);
}

#[test]
fn file_urls_escape_spaces() {
    assert_eq!(file_url("/tmp/my report.html"), "file:///tmp/my%20report.html");
    assert_eq!(file_url(""), "file://");
}

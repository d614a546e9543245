use mashless::analyzer::{Analysis, Countable, HRun, VRun, WordRun};
use mashless::markup::{html_escape, render_lines};
use mashless::notation::{decipher, expand_key, key_name};
use mashless::recorder::{Session, Timestamp};
use mashless::report::{
    build_tips, fmt_duration, plausible_time, plural, render, render_page, sorted_order, summarize,
};

fn empty_analysis() -> Analysis {
    Analysis { efficiency: 100, ..Default::default() }
}

#[test]
fn decipher_expands_notation() {
    assert_eq!(decipher("<CR>").as_deref(), Some("Enter"));
    assert_eq!(decipher("<C-o>").as_deref(), Some("Ctrl-o"));
    assert_eq!(decipher("<C-i>").as_deref(), Some("Ctrl-i"));
    assert_eq!(decipher("<Esc>").as_deref(), Some("Escape"));
    assert_eq!(decipher(":{N}<CR>").as_deref(), Some(":{N} Enter"));
    assert_eq!(decipher("/text<CR>").as_deref(), Some("/text Enter"));
    assert_eq!(decipher("<C-o>{motion}").as_deref(), Some("Ctrl-o {motion}"));
    assert_eq!(decipher("<S-Tab>").as_deref(), Some("Shift-Tab"));
}

#[test]
fn decipher_ignores_plain_spans() {
    assert_eq!(decipher("{N}G"), None);
    assert_eq!(decipher("diw"), None);
    // Unknown angle token is left alone (no gloss).
    assert_eq!(decipher("<Nope>"), None);
}

#[test]
fn inline_replaces_notation_with_description() {
    let html = mashless::markup::inline("Use `<C-o>` to go back");
    assert!(html.contains("<code>Ctrl-o</code>"), "{html}");
    // A plain code span stays untouched.
    assert!(mashless::markup::inline("Press `dd`").contains("<code>dd</code>"));
}

#[test]
fn inline_handles_cheatsheet_entry() {
    // The exact "Jump to line N" keys column from CHEATSHEET.
    let html = mashless::markup::inline("`{N}G` or `:{N}<CR>`");
    assert!(html.contains("<code>{N}G</code>"), "{html}");
    assert!(html.contains("<code>:{N} Enter</code>"), "{html}");
}

#[test]
fn inline_exact_output() {
    assert_eq!(
        mashless::markup::inline("a **b** `<C-d>` & <x>"),
        "a <strong>b</strong> <code>Ctrl-d</code> &amp; &lt;x&gt;"
    );
    assert_eq!(mashless::markup::inline("`a<b`"), "<code>a&lt;b</code>");
    assert_eq!(mashless::markup::inline("***x"), "<strong>*x</strong>");
}

#[test]
fn decipher_chords_and_spacing() {
    assert_eq!(decipher("<C-S-Right>").as_deref(), Some("Ctrl-Shift-Right arrow"));
    assert_eq!(decipher("<a-x>").as_deref(), Some("Alt-x"));
    assert_eq!(decipher("<D-m-Space>").as_deref(), Some("Cmd-Alt-Space"));
    assert_eq!(decipher("  <cr>  x\t<esc>").as_deref(), Some("  Enter  x\tEscape"));
    assert_eq!(decipher("<CR>a  b").as_deref(), Some("Enter a  b"));
    assert_eq!(decipher("<Nope><CR>").as_deref(), Some("<Nope> Enter"));
    assert_eq!(decipher("<C-o><C-i>").as_deref(), Some("Ctrl-o Ctrl-i"));
    assert_eq!(decipher("a <CR> b").as_deref(), Some("a Enter b"));
    assert_eq!(decipher("<aé><CR>").as_deref(), Some("<aé> Enter"));
    assert_eq!(decipher("<C->"), None);
    assert_eq!(decipher("<>"), None);
    assert_eq!(decipher("<CR"), None);
    assert_eq!(decipher("<<CR>"), None);
}

#[test]
fn key_names_ignore_case() {
    assert_eq!(key_name("PageDown"), Some("Page Down"));
    assert_eq!(key_name("return"), Some("Enter"));
    assert_eq!(key_name("LEADER"), Some("leader"));
    assert_eq!(key_name("f1"), None);
    assert_eq!(expand_key("<C-x>").as_deref(), Some("Ctrl-x"));
    assert_eq!(expand_key("<x>"), None);
    assert_eq!(expand_key("<aé>"), None);
    assert_eq!(expand_key("<éa>"), None);
    assert_eq!(expand_key("<C-é>").as_deref(), Some("Ctrl-é"));
    assert_eq!(expand_key("<C-aé>").as_deref(), Some("Ctrl-aé"));
    assert_eq!(expand_key("<m-S-pageup>").as_deref(), Some("Alt-Shift-Page Up"));
}

#[test]
fn escape_html() {
    assert_eq!(html_escape("a<b>&c"), "a&lt;b&gt;&amp;c");
    assert_eq!(html_escape("&lt;"), "&amp;lt;");
    assert_eq!(html_escape(""), "");
}

#[test]
fn plural_and_duration() {
    assert_eq!(plural(1, "time"), "1 time");
    assert_eq!(plural(0, "time"), "0 times");
    assert_eq!(plural(-3, "file"), "-3 files");
    assert_eq!(fmt_duration(-5), "0s");
    assert_eq!(fmt_duration(59), "59s");
    assert_eq!(fmt_duration(61), "1m 1s");
    assert_eq!(fmt_duration(3600), "1h 0m 0s");
    assert_eq!(fmt_duration(3725), "1h 2m 5s");
}

#[test]
fn summarize_counts() {
    assert_eq!(summarize(&vec![]), (0, 0));
    assert_eq!(summarize(&vec![3, 9, 4]), (9, 16));
    assert_eq!(summarize(&vec![-2, -5]), (-2, -7));
}

#[test]
fn render_lines_groups_bullets() {
    let lines = vec![
        "Intro `x`".to_string(),
        "  - one".to_string(),
        "  - **two**".to_string(),
        "after".to_string(),
        "  - three".to_string(),
    ];
    let mut out = String::new();
    render_lines(&lines, &mut out);
    assert_eq!(
        out,
        "<p>Intro <code>x</code></p>\n<ul>\n<li>one</li>\n<li><strong>two</strong></li>\n</ul>\n<p>after</p>\n<ul>\n<li>three</li>\n</ul>\n"
    );
}

#[test]
fn tips_built_in_order_and_sorted_by_severity() {
    let mut a = empty_analysis();
    a.vertical.push(VRun { tok: "k".to_string(), count: 12, dist: 12 });
    a.vertical.push(VRun { tok: "j".to_string(), count: 20, dist: 0 });
    a.horizontal.push(HRun { count: 5, ch: None });
    a.horizontal.push(HRun { count: 6, ch: Some('(') });
    a.normal_arrows = 1;
    a.insert_arrows = 2;
    a.x_runs.push(Countable { count: 4 });
    a.dd_runs.push(Countable { count: 2 });
    a.word_runs.push(WordRun { count: 7 });
    a.undo_runs.push(Countable { count: 5 });
    let tips = build_tips(&a);
    let heads: Vec<&str> = tips.iter().map(|t| t.heading.as_str()).collect();
    assert_eq!(
        heads,
        vec![
            "Vertical movement",
            "Horizontal movement",
            "Arrow keys in normal mode",
            "Arrow keys in insert mode",
            "Deleting character by character",
            "Deleting lines one at a time",
            "Long word-motion chains",
            "Long undo streaks"
        ]
    );
    assert_eq!(tips[0].severity, 3);
    assert_eq!(
        tips[0].lines[0],
        "You walked vertically with `j`/`k` in long unbroken runs 2 times (longest: **20 presses in a row**)."
    );
    // The longest run did not move, so no distance line.
    assert_eq!(tips[0].lines[1], "Faster ways to travel vertically:");
    assert_eq!(tips[1].severity, 2);
    assert_eq!(
        tips[1].lines[1],
        "One run ended on the character `(` — `f(` would have jumped straight there."
    );
    assert_eq!(tips[2].lines[0], "You used the arrow keys 1 time in normal mode.");
    assert_eq!(tips[3].lines[0], "You used the arrow keys 2 times while in insert mode.");
    let order = sorted_order(&tips);
    assert_eq!(order, vec![0, 1, 2, 4, 3, 5, 6, 7]);
}

#[test]
fn vertical_tip_distance_line() {
    let mut a = empty_analysis();
    a.vertical.push(VRun { tok: "<Up>".to_string(), count: 9, dist: 9 });
    let tips = build_tips(&a);
    assert_eq!(tips.len(), 1);
    assert_eq!(tips[0].severity, 2);
    assert_eq!(tips[0].lines[1], "That longest run moved you **9 lines** — `9k` does it in 2-3 keystrokes.");
}

/// The session length the page shows for a session from `start` to `now`.
fn shown_length(start: Timestamp, now: Timestamp) -> String {
    let html = render(&empty_analysis(), &Session::new(start), now, "", "");
    let key = "<span class=\"k\">Session length</span><span class=\"v\">";
    let from = html.find(key).unwrap() + key.len();
    let to = from + html[from..].find("</span>").unwrap();
    html[from..to].to_string()
}

#[test]
fn session_length_in_whole_seconds() {
    let t = |secs, nanos| Timestamp { secs, nanos };
    assert_eq!(shown_length(t(100, 900_000_000), t(101, 100_000_000)), "0s");
    assert_eq!(shown_length(t(100, 0), t(190, 999_999_999)), "1m 30s");
    assert_eq!(shown_length(t(100, 0), t(3825, 0)), "1h 2m 5s");
    assert_eq!(shown_length(t(100, 500_000_000), t(99, 0)), "0s");
    // A start inside a leap second: chrono counts that second too.
    assert_eq!(shown_length(t(59, 1_500_000_000), t(61, 0)), "1s");
    assert_eq!(shown_length(t(59, 1_500_000_000), t(62, 0)), "2s");
}

#[test]
fn page_for_a_given_length() {
    let s = Session::new(Timestamp { secs: 0, nanos: 0 });
    let html = render_page(&empty_analysis(), &s, 3725, "Tuesday", "p{}");
    assert!(html.contains("<span class=\"k\">Session length</span><span class=\"v\">1h 2m 5s</span>"));
    assert!(html.contains("<div class=\"date\">Tuesday</div>"));
    assert!(html.contains("<style>p{}</style>"));
    assert_eq!(html, render(&empty_analysis(), &s, Timestamp { secs: 3725, nanos: 0 }, "Tuesday", "p{}"));
}

#[test]
fn readings_chrono_can_hold() {
    let t = |secs, nanos| Timestamp { secs, nanos };
    assert!(plausible_time(t(1_700_000_000, 999_999_999)));
    assert!(plausible_time(t(59, 1_500_000_000)));
    assert!(plausible_time(t(-1, 1_000_000_000)));
    assert!(!plausible_time(t(60, 1_000_000_000)));
    assert!(!plausible_time(t(59, 2_000_000_000)));
    assert!(!plausible_time(t(9_000_000_000_000, 0)));
    assert!(plausible_time(t(-8_000_000_000_000, 0)));
}

#[test]
fn render_whole_page() {
    let mut s = Session::new(Timestamp { secs: 0, nanos: 0 });
    s.start = Timestamp { secs: 1000, nanos: 0 };
    s.files = vec!["/tmp/a b.rs".to_string()];
    let mut a = empty_analysis();
    a.total_keys = 25;
    a.x_runs.push(Countable { count: 4 });
    let html = render(&a, &s, Timestamp { secs: 1125, nanos: 5 }, "Monday <1>", "body{}");
    assert!(html.starts_with("<!doctype html>\n<html lang=\"en\">\n<head>\n"));
    assert!(html.contains("<style>body{}</style>"));
    assert!(html.contains("<div class=\"date\">Monday &lt;1&gt;</div>"));
    assert!(html.contains("<li><span class=\"k\">Session length</span><span class=\"v\">2m 5s</span></li>"));
    assert!(html.contains("<span class=\"v\">~0</span>"));
    assert!(html.contains("<span class=\"v\">100 / 100</span>"));
    assert!(html.contains("<p class=\"files\"><strong>1 file</strong> touched: <code>/tmp/a b.rs</code></p>"));
    assert!(html.contains("<div class=\"tip s2\">\n<h3>1. Deleting character by character <span class=\"badge s2\">worth fixing</span></h3>"));
    assert!(html.contains("<li><code>{count}x</code> — delete several characters at once.</li>"));
    assert!(html.contains("<tr><td>Jump to line N</td><td><code>{N}G</code> or <code>:{N} Enter</code></td></tr>"));
    assert!(html.contains("<tr><td>Half-page scroll</td><td><code>Ctrl-d</code> / <code>Ctrl-u</code></td></tr>"));
    assert!(html.ends_with("</div>\n</body>\n</html>\n"));
}

#[test]
fn render_without_tips() {
    let s = Session::new(Timestamp { secs: 1000, nanos: 0 });
    let now = Timestamp { secs: 1060, nanos: 0 };
    let a = empty_analysis();
    let html = render(&a, &s, now, "today", "");
    assert!(html.contains("<h2>No inefficiencies spotted</h2>"));
    assert!(html.contains("Barely any motions were recorded this session"));
    let mut a = empty_analysis();
    a.total_keys = 20;
    let html = render(&a, &s, now, "today", "");
    assert!(html.contains("Clean session — your motions looked efficient. Keep it up."));
    assert!(!html.contains("files"));
}

//! Renders an [`Analysis`] into a self-contained HTML page.

use vstd::prelude::*;

use crate::analyzer::{Analysis, Countable, HRun, VRun, WordRun};
use crate::markup::{escaped, html_escape, inlined, lines_html, render_lines};
use crate::recorder::{strictly_sorted, views, Session, Timestamp};
use crate::text::{
    decimal, push_char, push_decimal, push_signed, push_str, signed_decimal, str_eq,
};

verus! {

broadcast use vstd::string::group_string_axioms;

/// `"{n} {word}"`, with an `s` unless `n` is 1.
pub open spec fn plural_text(n: int, word: Seq<char>) -> Seq<char> {
    signed_decimal(n) + seq![' '] + word + if n == 1 {
        seq![]
    } else {
        seq!['s']
    }
}

/// `"{n} {word}"`, with an `s` unless `n` is 1.
pub fn plural(n: i64, word: &str) -> (s: String)
    ensures
        s@ == plural_text(n as int, word@),
{
    let mut s = String::new();
    push_signed(&mut s, n);
    push_char(&mut s, ' ');
    push_str(&mut s, word);
    if n != 1 {
        push_char(&mut s, 's');
    }
    assert(s@ =~= plural_text(n as int, word@));
    s
}

/// A duration as `{h}h {m}m {s}s`, leaving out leading zero units;
/// negative durations count as zero.
pub open spec fn duration_text(seconds: int) -> Seq<char> {
    let t = if seconds < 0 {
        0
    } else {
        seconds
    };
    let h = t / 3600;
    let m = (t % 3600) / 60;
    let s = t % 60;
    if h > 0 {
        decimal(h as nat) + seq!['h', ' '] + decimal(m as nat) + seq!['m', ' '] + decimal(s as nat)
            + seq!['s']
    } else if m > 0 {
        decimal(m as nat) + seq!['m', ' '] + decimal(s as nat) + seq!['s']
    } else {
        decimal(s as nat) + seq!['s']
    }
}

/// A duration in seconds, as hours, minutes and seconds.
pub fn fmt_duration(seconds: i64) -> (r: String)
    ensures
        r@ == duration_text(seconds as int),
{
    let t: i64 = if seconds < 0 {
        0
    } else {
        seconds
    };
    let h = t / 3600;
    let m = (t % 3600) / 60;
    let s = t % 60;
    let mut r = String::new();
    if h > 0 {
        push_decimal(&mut r, h as u64);
        push_char(&mut r, 'h');
        push_char(&mut r, ' ');
        push_decimal(&mut r, m as u64);
        push_char(&mut r, 'm');
        push_char(&mut r, ' ');
    } else if m > 0 {
        push_decimal(&mut r, m as u64);
        push_char(&mut r, 'm');
        push_char(&mut r, ' ');
    }
    push_decimal(&mut r, s as u64);
    push_char(&mut r, 's');
    assert(r@ =~= duration_text(seconds as int));
    r
}

/// The largest of `s`, or 0 when it is empty.
pub open spec fn max_of(s: Seq<int>) -> int
    decreases s.len(),
{
    if s.len() == 0 {
        0
    } else if s.len() == 1 {
        s[0]
    } else if max_of(s.drop_last()) >= s.last() {
        max_of(s.drop_last())
    } else {
        s.last()
    }
}

/// The sum of `s`.
pub open spec fn sum_of(s: Seq<int>) -> int
    decreases s.len(),
{
    if s.len() == 0 {
        0
    } else {
        sum_of(s.drop_last()) + s.last()
    }
}

/// Every running total of `s` fits in an `i64` (summing panics otherwise).
pub open spec fn sums_fit(s: Seq<int>) -> bool {
    forall|k: int| 0 <= k <= s.len() ==> i64::MIN <= #[trigger] sum_of(s.take(k)) <= i64::MAX
}

/// Machine integers as integers.
pub open spec fn i64_views(v: Seq<i64>) -> Seq<int> {
    v.map_values(|x: i64| x as int)
}

/// Longest run and total presses across a list of counted runs.
pub fn summarize(counts: &Vec<i64>) -> (r: (i64, i64))
    requires
        sums_fit(i64_views(counts@)),
    ensures
        r.0 == max_of(i64_views(counts@)),
        r.1 == sum_of(i64_views(counts@)),
{
    let ghost cs = i64_views(counts@);
    let mut longest: i64 = 0;
    let mut total: i64 = 0;
    let mut i: usize = 0;
    while i < counts.len()
        invariant
            i <= counts@.len(),
            cs == i64_views(counts@),
            sums_fit(cs),
            longest == max_of(cs.take(i as int)),
            total == sum_of(cs.take(i as int)),
        decreases counts@.len() - i,
    {
        let c = counts[i];
        proof {
            assert(cs.take(i as int + 1).drop_last() =~= cs.take(i as int));
            assert(cs.take(i as int + 1).last() == c);
            assert(i64::MIN <= sum_of(cs.take(i as int + 1)) <= i64::MAX);
        }
        if i == 0 || c > longest {
            longest = c;
        }
        total = total + c;
        i = i + 1;
    }
    assert(cs.take(cs.len() as int) =~= cs);
    (longest, total)
}

/// One suggestion: a heading, a severity from 1 (minor) to 3 (time sink),
/// and its lines (`  - ` lines are bullets).
pub struct Tip {
    pub heading: String,
    pub severity: u8,
    pub lines: Vec<String>,
}

/// A tip as heading, severity and lines.
pub open spec fn tip_view(t: Tip) -> (Seq<char>, u8, Seq<Seq<char>>) {
    (t.heading@, t.severity, views(t.lines@))
}

/// Tips as headings, severities and lines.
pub open spec fn tip_views(ts: Seq<Tip>) -> Seq<(Seq<char>, u8, Seq<Seq<char>>)> {
    ts.map_values(|t: Tip| tip_view(t))
}

/// The first index of `s` holding `c`, or `s.len()`.
pub open spec fn first_index_of(s: Seq<int>, c: int) -> int
    decreases s.len(),
{
    if s.len() == 0 {
        0
    } else if first_index_of(s.drop_last(), c) < s.len() - 1 {
        first_index_of(s.drop_last(), c)
    } else if s.last() == c {
        s.len() - 1
    } else {
        s.len() as int
    }
}

/// The lengths of the vertical findings.
pub open spec fn vertical_counts(a: Analysis) -> Seq<int> {
    a.vertical@.map_values(|r: VRun| r.count as int)
}

/// The lengths of the horizontal findings.
pub open spec fn horizontal_counts(a: Analysis) -> Seq<int> {
    a.horizontal@.map_values(|r: HRun| r.count as int)
}

/// The counts of counted findings.
pub open spec fn countable_counts(v: Seq<Countable>) -> Seq<int> {
    v.map_values(|r: Countable| r.count as int)
}

/// The lengths of the word-motion findings.
pub open spec fn word_counts(a: Analysis) -> Seq<int> {
    a.word_runs@.map_values(|r: WordRun| r.count as int)
}

/// Summing the counts of every list of findings does not overflow.
pub open spec fn counts_fit(a: Analysis) -> bool {
    &&& sums_fit(vertical_counts(a))
    &&& sums_fit(horizontal_counts(a))
    &&& sums_fit(countable_counts(a.x_runs@))
    &&& sums_fit(countable_counts(a.dd_runs@))
    &&& sums_fit(word_counts(a))
    &&& sums_fit(countable_counts(a.undo_runs@))
}

/// Faster ways to move vertically.
pub open spec fn vertical_advice() -> Seq<Seq<char>> {
    seq![
        "Faster ways to travel vertically:"@,
        "  - `{count}j` / `{count}k` — turn on `:set relativenumber` and the count is shown for you."@,
        "  - `}` / `{` — jump by paragraph / blank-line block."@,
        "  - `<C-d>` / `<C-u>` — scroll half a page and keep the cursor centred."@,
        "  - `gg` / `G` / `{line}G` — top, bottom, or an absolute line number."@,
        "  - `<C-o>` / `<C-i>` — jump back/forward through your jump history."@,
    ]
}

/// The vertical-movement tip, when there are long vertical runs: how many,
/// the longest, how far the longest one travelled (with the counted jump
/// that does it) and faster ways to move.
pub open spec fn vertical_tips(a: Analysis) -> Seq<(Seq<char>, u8, Seq<Seq<char>>)> {
    if a.vertical@.len() == 0 {
        seq![]
    } else {
        let counts = vertical_counts(a);
        let longest = max_of(counts);
        let total = sum_of(counts);
        let first = "You walked vertically with `j`/`k` in long unbroken runs "@ + plural_text(
            a.vertical@.len() as i64 as int,
            "time"@,
        ) + " (longest: **"@ + signed_decimal(longest) + " presses in a row**)."@;
        let k = first_index_of(counts, longest);
        let moved = if k < counts.len() && a.vertical@[k].dist > 0 {
            let lr = a.vertical@[k];
            let dir = if lr.tok@ == "k"@ || lr.tok@ == "<Up>"@ {
                "k"@
            } else {
                "j"@
            };
            seq![
                "That longest run moved you **"@ + signed_decimal(lr.dist as int) + " lines** — `"@
                    + signed_decimal(lr.dist as int) + dir + "` does it in 2-3 keystrokes."@,
            ]
        } else {
            seq![]
        };
        seq![
            (
                "Vertical movement"@,
                if total >= 30 {
                    3u8
                } else {
                    2u8
                },
                seq![first] + moved + vertical_advice(),
            ),
        ]
    }
}

/// Appends a string built from pieces to `lines`.
fn push_line(lines: &mut Vec<String>, line: String)
    ensures
        views(final(lines)@) == views(old(lines)@).push(line@),
{
    let ghost before = views(lines@);
    lines.push(line);
    assert(views(lines@) =~= before.push(line@));
}

fn push_lit(lines: &mut Vec<String>, line: &str)
    ensures
        views(final(lines)@) == views(old(lines)@).push(line@),
{
    push_line(lines, line.to_owned());
}

fn push_tip(tips: &mut Vec<Tip>, heading: &str, severity: u8, lines: Vec<String>)
    ensures
        tip_views(final(tips)@) == tip_views(old(tips)@).push((heading@, severity, views(lines@))),
{
    let ghost before = tip_views(tips@);
    tips.push(Tip { heading: heading.to_owned(), severity, lines });
    assert(tip_views(tips@) =~= before.push((heading@, severity, views(lines@))));
}

fn index_of_count(counts: &Vec<i64>, c: i64) -> (r: usize)
    ensures
        r == first_index_of(i64_views(counts@), c as int),
        r <= counts@.len(),
{
    let ghost cs = i64_views(counts@);
    let mut i: usize = 0;
    while i < counts.len()
        invariant
            i <= counts@.len(),
            cs == i64_views(counts@),
            first_index_of(cs.take(i as int), c as int) == i,
        decreases counts@.len() - i,
    {
        proof {
            assert(cs.take(i as int + 1).drop_last() =~= cs.take(i as int));
        }
        if counts[i] == c {
            proof {
                lemma_first_index_prefix(cs, c as int, i as int + 1);
                assert(first_index_of(cs.take(i as int + 1), c as int) == i);
            }
            return i;
        }
        i = i + 1;
    }
    assert(cs.take(i as int) =~= cs);
    i
}

/// Finding a value within a prefix finds it in the whole sequence.
pub proof fn lemma_first_index_prefix(s: Seq<int>, c: int, n: int)
    requires
        0 <= n <= s.len(),
        first_index_of(s.take(n), c) < n,
    ensures
        first_index_of(s, c) == first_index_of(s.take(n), c),
    decreases s.len(),
{
    if n < s.len() {
        assert(s.drop_last().take(n) =~= s.take(n));
        lemma_first_index_prefix(s.drop_last(), c, n);
    } else {
        assert(s.take(n) =~= s);
    }
}

fn vertical_counts_of(a: &Analysis) -> (r: Vec<i64>)
    ensures
        i64_views(r@) == vertical_counts(*a),
{
    let mut r: Vec<i64> = Vec::new();
    let mut i: usize = 0;
    while i < a.vertical.len()
        invariant
            i <= a.vertical@.len(),
            i64_views(r@) =~= vertical_counts(*a).take(i as int),
        decreases a.vertical@.len() - i,
    {
        let ghost before = r@;
        r.push(a.vertical[i].count);
        proof {
            assert(i64_views(r@) =~= i64_views(before).push(a.vertical@[i as int].count as int));
            assert(vertical_counts(*a).take(i as int + 1) =~= vertical_counts(*a).take(i as int).push(
                a.vertical@[i as int].count as int,
            ));
        }
        i = i + 1;
    }
    r
}

fn build_vertical(a: &Analysis, tips: &mut Vec<Tip>)
    requires
        counts_fit(*a),
    ensures
        tip_views(final(tips)@) == tip_views(old(tips)@) + vertical_tips(*a),
{
    if a.vertical.len() == 0 {
        assert(tip_views(tips@) + vertical_tips(*a) =~= tip_views(tips@));
        return;
    }
    let counts = vertical_counts_of(a);
    let (longest, total) = summarize(&counts);
    let mut first = String::new();
    push_str(&mut first, "You walked vertically with `j`/`k` in long unbroken runs ");
    let p = plural(a.vertical.len() as i64, "time");
    push_str(&mut first, p.as_str());
    push_str(&mut first, " (longest: **");
    push_signed(&mut first, longest);
    push_str(&mut first, " presses in a row**).");
    let mut lines: Vec<String> = Vec::new();
    push_line(&mut lines, first);
    let k = index_of_count(&counts, longest);
    if k < a.vertical.len() && a.vertical[k].dist > 0 {
        let lr = &a.vertical[k];
        let dir = if str_eq(lr.tok.as_str(), "k") || str_eq(lr.tok.as_str(), "<Up>") {
            "k"
        } else {
            "j"
        };
        let mut moved = String::new();
        push_str(&mut moved, "That longest run moved you **");
        push_signed(&mut moved, lr.dist);
        push_str(&mut moved, " lines** — `");
        push_signed(&mut moved, lr.dist);
        push_str(&mut moved, dir);
        push_str(&mut moved, "` does it in 2-3 keystrokes.");
        push_line(&mut lines, moved);
    }
    push_lit(&mut lines, "Faster ways to travel vertically:");
    push_lit(&mut lines, "  - `{count}j` / `{count}k` — turn on `:set relativenumber` and the count is shown for you.");
    push_lit(&mut lines, "  - `}` / `{` — jump by paragraph / blank-line block.");
    push_lit(&mut lines, "  - `<C-d>` / `<C-u>` — scroll half a page and keep the cursor centred.");
    push_lit(&mut lines, "  - `gg` / `G` / `{line}G` — top, bottom, or an absolute line number.");
    push_lit(&mut lines, "  - `<C-o>` / `<C-i>` — jump back/forward through your jump history.");
    let severity: u8 = if total >= 30 {
        3
    } else {
        2
    };
    let ghost ls = views(lines@);
    push_tip(tips, "Vertical movement", severity, lines);
    proof {
        let t = vertical_tips(*a);
        assert(t[0].2 =~= ls);
        assert(t =~= seq![("Vertical movement"@, severity, ls)]);
    }
}

/// Faster ways to move within a line.
pub open spec fn horizontal_advice() -> Seq<Seq<char>> {
    seq![
        "Faster ways to travel within a line:"@,
        "  - `w` / `b` / `e` — move word by word."@,
        "  - `f{char}` / `t{char}` — jump onto / just before the next occurrence of a char (`;` / `,` to repeat)."@,
        "  - `0` / `^` / `$` — start of line / first non-blank / end of line."@,
        "  - `%` — jump to the matching bracket."@,
    ]
}

/// The first index of a horizontal run with a landing character, or the
/// number of runs.
pub open spec fn first_landing(rs: Seq<HRun>) -> int
    decreases rs.len(),
{
    if rs.len() == 0 {
        0
    } else if first_landing(rs.drop_last()) < rs.len() - 1 {
        first_landing(rs.drop_last())
    } else if rs.last().ch is Some {
        rs.len() - 1
    } else {
        rs.len() as int
    }
}

/// The horizontal-movement tip, when there are long horizontal runs: how
/// many, the longest, an `f{char}` jump to where one landed, and faster ways
/// to move.
pub open spec fn horizontal_tips(a: Analysis) -> Seq<(Seq<char>, u8, Seq<Seq<char>>)> {
    if a.horizontal@.len() == 0 {
        seq![]
    } else {
        let counts = horizontal_counts(a);
        let longest = max_of(counts);
        let total = sum_of(counts);
        let first = "You inched sideways with `h`/`l` in long runs "@ + plural_text(
            a.horizontal@.len() as i64 as int,
            "time"@,
        ) + " (longest: **"@ + signed_decimal(longest) + " in a row**)."@;
        let k = first_landing(a.horizontal@);
        let landed = if k < a.horizontal@.len() {
            let ch = a.horizontal@[k].ch->0;
            seq![
                "One run ended on the character `"@ + seq![ch] + "` — `f"@ + seq![ch]
                    + "` would have jumped straight there."@,
            ]
        } else {
            seq![]
        };
        seq![
            (
                "Horizontal movement"@,
                if total >= 30 {
                    3u8
                } else {
                    2u8
                },
                seq![first] + landed + horizontal_advice(),
            ),
        ]
    }
}

/// The arrow-key tips: normal-mode arrows (severity 2), then insert-mode
/// arrows (severity 1), each when there were any.
pub open spec fn arrow_tips(a: Analysis) -> Seq<(Seq<char>, u8, Seq<Seq<char>>)> {
    (if a.normal_arrows > 0 {
        seq![
            (
                "Arrow keys in normal mode"@,
                2u8,
                seq![
                    "You used the arrow keys "@ + plural_text(a.normal_arrows as int, "time"@)
                        + " in normal mode."@,
                    "Stay on the home row: `h` `j` `k` `l` do the same thing without the reach."@,
                    "If it helps the habit stick, you can even unmap the arrows in normal mode."@,
                ],
            ),
        ]
    } else {
        seq![]
    }) + if a.insert_arrows > 0 {
        seq![
            (
                "Arrow keys in insert mode"@,
                1u8,
                seq![
                    "You used the arrow keys "@ + plural_text(a.insert_arrows as int, "time"@)
                        + " while in insert mode."@,
                    "Repositioning is usually cleaner from normal mode: `<Esc>`, move, then re-enter."@,
                    "For a single quick hop without leaving insert mode, use `<C-o>{motion}`."@,
                ],
            ),
        ]
    } else {
        seq![]
    }
}

/// The tip on deleting with repeated `x` (severity 2), when there were such
/// runs.
pub open spec fn x_tips(a: Analysis) -> Seq<(Seq<char>, u8, Seq<Seq<char>>)> {
    if a.x_runs@.len() > 0 {
        seq![
            (
                "Deleting character by character"@,
                2u8,
                seq![
                    "You pressed `x` repeatedly "@ + plural_text(a.x_runs@.len() as i64 as int, "time"@)
                        + " (longest: **"@ + signed_decimal(max_of(countable_counts(a.x_runs@)))
                        + " in a row**)."@,
                    "Delete in bigger bites:"@,
                    "  - `{count}x` — delete several characters at once."@,
                    "  - `dw` / `de` — delete to the end of a word."@,
                    "  - `d$` (or `D`) — delete to the end of the line."@,
                    "  - `diw` / `daw` — delete the inner word / a word plus its whitespace."@,
                ],
            ),
        ]
    } else {
        seq![]
    }
}

/// The tip on `dd` bursts (severity 1), when there were any.
pub open spec fn dd_tips(a: Analysis) -> Seq<(Seq<char>, u8, Seq<Seq<char>>)> {
    if a.dd_runs@.len() > 0 {
        seq![
            (
                "Deleting lines one at a time"@,
                1u8,
                seq![
                    "You ran `dd` in repeated bursts "@ + plural_text(a.dd_runs@.len() as i64 as int, "time"@)
                        + " (longest: **"@ + signed_decimal(max_of(countable_counts(a.dd_runs@)))
                        + " lines in a row**)."@,
                    "`{count}dd` deletes several lines at once, and `dap` / `dip` delete a whole paragraph."@,
                    "Or select with `V`, extend with `j`, then `d`."@,
                ],
            ),
        ]
    } else {
        seq![]
    }
}

/// The tip on word-motion chains (severity 1), when there were any.
pub open spec fn word_tips(a: Analysis) -> Seq<(Seq<char>, u8, Seq<Seq<char>>)> {
    if a.word_runs@.len() > 0 {
        seq![
            (
                "Long word-motion chains"@,
                1u8,
                seq![
                    "You chained `w`/`b`/`e` in long runs "@ + plural_text(
                        a.word_runs@.len() as i64 as int,
                        "time"@,
                    ) + " (longest: **"@ + signed_decimal(max_of(word_counts(a))) + " in a row**)."@,
                    "For a known target, `f{char}` or a `/search` jumps there directly instead of stepping word by word."@,
                ],
            ),
        ]
    } else {
        seq![]
    }
}

/// The tip on undo streaks (severity 1), when there were any.
pub open spec fn undo_tips(a: Analysis) -> Seq<(Seq<char>, u8, Seq<Seq<char>>)> {
    if a.undo_runs@.len() > 0 {
        seq![
            (
                "Long undo streaks"@,
                1u8,
                seq![
                    "You tapped `u` in long streaks "@ + plural_text(a.undo_runs@.len() as i64 as int, "time"@)
                        + " (longest: **"@ + signed_decimal(max_of(countable_counts(a.undo_runs@)))
                        + " in a row**)."@,
                    "`{count}u` undoes several steps at once, and `:earlier 1m` / `g-` travel the undo tree by time."@,
                ],
            ),
        ]
    } else {
        seq![]
    }
}

/// The tips on repeated edits.
pub open spec fn edit_tips(a: Analysis) -> Seq<(Seq<char>, u8, Seq<Seq<char>>)> {
    x_tips(a) + dd_tips(a) + word_tips(a) + undo_tips(a)
}

/// Every tip, in the order they are built.
pub open spec fn tips_of(a: Analysis) -> Seq<(Seq<char>, u8, Seq<Seq<char>>)> {
    vertical_tips(a) + horizontal_tips(a) + arrow_tips(a) + edit_tips(a)
}

fn horizontal_counts_of(a: &Analysis) -> (r: Vec<i64>)
    ensures
        i64_views(r@) == horizontal_counts(*a),
{
    let mut r: Vec<i64> = Vec::new();
    let mut i: usize = 0;
    while i < a.horizontal.len()
        invariant
            i <= a.horizontal@.len(),
            i64_views(r@) =~= horizontal_counts(*a).take(i as int),
        decreases a.horizontal@.len() - i,
    {
        let ghost before = r@;
        r.push(a.horizontal[i].count);
        proof {
            assert(i64_views(r@) =~= i64_views(before).push(a.horizontal@[i as int].count as int));
            assert(horizontal_counts(*a).take(i as int + 1) =~= horizontal_counts(*a).take(i as int).push(
                a.horizontal@[i as int].count as int,
            ));
        }
        i = i + 1;
    }
    r
}

fn countable_counts_of(v: &Vec<Countable>) -> (r: Vec<i64>)
    ensures
        i64_views(r@) == countable_counts(v@),
{
    let mut r: Vec<i64> = Vec::new();
    let mut i: usize = 0;
    while i < v.len()
        invariant
            i <= v@.len(),
            i64_views(r@) =~= countable_counts(v@).take(i as int),
        decreases v@.len() - i,
    {
        let ghost before = r@;
        r.push(v[i].count);
        proof {
            assert(i64_views(r@) =~= i64_views(before).push(v@[i as int].count as int));
            assert(countable_counts(v@).take(i as int + 1) =~= countable_counts(v@).take(i as int).push(
                v@[i as int].count as int,
            ));
        }
        i = i + 1;
    }
    r
}

fn word_counts_of(a: &Analysis) -> (r: Vec<i64>)
    ensures
        i64_views(r@) == word_counts(*a),
{
    let mut r: Vec<i64> = Vec::new();
    let mut i: usize = 0;
    while i < a.word_runs.len()
        invariant
            i <= a.word_runs@.len(),
            i64_views(r@) =~= word_counts(*a).take(i as int),
        decreases a.word_runs@.len() - i,
    {
        let ghost before = r@;
        r.push(a.word_runs[i].count);
        proof {
            assert(i64_views(r@) =~= i64_views(before).push(a.word_runs@[i as int].count as int));
            assert(word_counts(*a).take(i as int + 1) =~= word_counts(*a).take(i as int).push(
                a.word_runs@[i as int].count as int,
            ));
        }
        i = i + 1;
    }
    r
}

fn build_horizontal(a: &Analysis, tips: &mut Vec<Tip>)
    requires
        counts_fit(*a),
    ensures
        tip_views(final(tips)@) == tip_views(old(tips)@) + horizontal_tips(*a),
{
    if a.horizontal.len() == 0 {
        assert(tip_views(tips@) + horizontal_tips(*a) =~= tip_views(tips@));
        return;
    }
    let counts = horizontal_counts_of(a);
    let (longest, total) = summarize(&counts);
    let mut first = String::new();
    push_str(&mut first, "You inched sideways with `h`/`l` in long runs ");
    let p = plural(a.horizontal.len() as i64, "time");
    push_str(&mut first, p.as_str());
    push_str(&mut first, " (longest: **");
    push_signed(&mut first, longest);
    push_str(&mut first, " in a row**).");
    let mut lines: Vec<String> = Vec::new();
    push_line(&mut lines, first);
    let mut k: usize = 0;
    while k < a.horizontal.len() && a.horizontal[k].ch.is_none()
        invariant
            k <= a.horizontal@.len(),
            first_landing(a.horizontal@.take(k as int)) == k,
        decreases a.horizontal@.len() - k,
    {
        assert(a.horizontal@.take(k as int + 1).drop_last() =~= a.horizontal@.take(k as int));
        k = k + 1;
    }
    proof {
        if k < a.horizontal@.len() {
            assert(a.horizontal@.take(k as int + 1).drop_last() =~= a.horizontal@.take(k as int));
            lemma_first_landing_prefix(a.horizontal@, k as int + 1);
        } else {
            assert(a.horizontal@.take(k as int) =~= a.horizontal@);
        }
    }
    assert(first_landing(a.horizontal@) == k);
    let ghost l0 = views(lines@);
    if k < a.horizontal.len() {
        match a.horizontal[k].ch {
            Some(ch) => {
                let mut landed = String::new();
                push_str(&mut landed, "One run ended on the character `");
                push_char(&mut landed, ch);
                push_str(&mut landed, "` — `f");
                push_char(&mut landed, ch);
                push_str(&mut landed, "` would have jumped straight there.");
                assert(landed@ =~= "One run ended on the character `"@ + seq![ch] + "` — `f"@ + seq![ch]
                    + "` would have jumped straight there."@);
                push_line(&mut lines, landed);
            },
            None => {},
        }
    }
    push_lit(&mut lines, "Faster ways to travel within a line:");
    push_lit(&mut lines, "  - `w` / `b` / `e` — move word by word.");
    push_lit(&mut lines, "  - `f{char}` / `t{char}` — jump onto / just before the next occurrence of a char (`;` / `,` to repeat).");
    push_lit(&mut lines, "  - `0` / `^` / `$` — start of line / first non-blank / end of line.");
    push_lit(&mut lines, "  - `%` — jump to the matching bracket.");
    let severity: u8 = if total >= 30 {
        3
    } else {
        2
    };
    let ghost ls = views(lines@);
    push_tip(tips, "Horizontal movement", severity, lines);
    proof {
        let t = horizontal_tips(*a);
        assert(l0.len() == 1);
        assert(t[0].2 =~= ls);
        assert(t =~= seq![("Horizontal movement"@, severity, ls)]);
    }
}

/// Finding a landing within a prefix finds it in the whole sequence.
pub proof fn lemma_first_landing_prefix(s: Seq<HRun>, n: int)
    requires
        0 <= n <= s.len(),
        first_landing(s.take(n)) < n,
    ensures
        first_landing(s) == first_landing(s.take(n)),
    decreases s.len(),
{
    if n < s.len() {
        assert(s.drop_last().take(n) =~= s.take(n));
        lemma_first_landing_prefix(s.drop_last(), n);
    } else {
        assert(s.take(n) =~= s);
    }
}

fn build_arrows(a: &Analysis, tips: &mut Vec<Tip>)
    ensures
        tip_views(final(tips)@) == tip_views(old(tips)@) + arrow_tips(*a),
{
    let ghost start = tip_views(tips@);
    let ghost n = if a.normal_arrows > 0 {
        seq![
            (
                "Arrow keys in normal mode"@,
                2u8,
                seq![
                    "You used the arrow keys "@ + plural_text(a.normal_arrows as int, "time"@)
                        + " in normal mode."@,
                    "Stay on the home row: `h` `j` `k` `l` do the same thing without the reach."@,
                    "If it helps the habit stick, you can even unmap the arrows in normal mode."@,
                ],
            ),
        ]
    } else {
        seq![]
    };
    let ghost ins = if a.insert_arrows > 0 {
        seq![
            (
                "Arrow keys in insert mode"@,
                1u8,
                seq![
                    "You used the arrow keys "@ + plural_text(a.insert_arrows as int, "time"@)
                        + " while in insert mode."@,
                    "Repositioning is usually cleaner from normal mode: `<Esc>`, move, then re-enter."@,
                    "For a single quick hop without leaving insert mode, use `<C-o>{motion}`."@,
                ],
            ),
        ]
    } else {
        seq![]
    };
    if a.normal_arrows > 0 {
        let mut lines: Vec<String> = Vec::new();
        let mut first = String::new();
        push_str(&mut first, "You used the arrow keys ");
        let p = plural(a.normal_arrows, "time");
        push_str(&mut first, p.as_str());
        push_str(&mut first, " in normal mode.");
        push_line(&mut lines, first);
        push_lit(&mut lines, "Stay on the home row: `h` `j` `k` `l` do the same thing without the reach.");
        push_lit(&mut lines, "If it helps the habit stick, you can even unmap the arrows in normal mode.");
        assert(views(lines@) =~= n[0].2);
        push_tip(tips, "Arrow keys in normal mode", 2, lines);
    }
    assert(tip_views(tips@) =~= start + n);
    let ghost mid = tip_views(tips@);
    if a.insert_arrows > 0 {
        let mut lines: Vec<String> = Vec::new();
        let mut first = String::new();
        push_str(&mut first, "You used the arrow keys ");
        let p = plural(a.insert_arrows, "time");
        push_str(&mut first, p.as_str());
        push_str(&mut first, " while in insert mode.");
        push_line(&mut lines, first);
        push_lit(&mut lines, "Repositioning is usually cleaner from normal mode: `<Esc>`, move, then re-enter.");
        push_lit(&mut lines, "For a single quick hop without leaving insert mode, use `<C-o>{motion}`.");
        assert(views(lines@) =~= ins[0].2);
        push_tip(tips, "Arrow keys in insert mode", 1, lines);
    }
    assert(tip_views(tips@) =~= mid + ins);
    assert(arrow_tips(*a) == n + ins);
    assert(tip_views(tips@) =~= start + arrow_tips(*a));
}

/// `"{first}{plural(n, "time")}{middle}{longest}{last}"`.
fn count_line(first: &str, n: i64, middle: &str, longest: i64, last: &str) -> (r: String)
    ensures
        r@ == first@ + plural_text(n as int, "time"@) + middle@ + signed_decimal(longest as int) + last@,
{
    let mut r = String::new();
    push_str(&mut r, first);
    let p = plural(n, "time");
    push_str(&mut r, p.as_str());
    push_str(&mut r, middle);
    push_signed(&mut r, longest);
    push_str(&mut r, last);
    assert(r@ =~= first@ + plural_text(n as int, "time"@) + middle@ + signed_decimal(longest as int)
        + last@);
    r
}

fn build_x(a: &Analysis, tips: &mut Vec<Tip>)
    requires
        counts_fit(*a),
    ensures
        tip_views(final(tips)@) == tip_views(old(tips)@) + x_tips(*a),
{
    let ghost start = tip_views(tips@);
    if a.x_runs.len() > 0 {
        let counts = countable_counts_of(&a.x_runs);
        let (longest, _) = summarize(&counts);
        let mut lines: Vec<String> = Vec::new();
        push_line(&mut lines, count_line("You pressed `x` repeatedly ", a.x_runs.len() as i64, " (longest: **", longest, " in a row**)."));
        push_lit(&mut lines, "Delete in bigger bites:");
        push_lit(&mut lines, "  - `{count}x` — delete several characters at once.");
        push_lit(&mut lines, "  - `dw` / `de` — delete to the end of a word.");
        push_lit(&mut lines, "  - `d$` (or `D`) — delete to the end of the line.");
        push_lit(&mut lines, "  - `diw` / `daw` — delete the inner word / a word plus its whitespace.");
        assert(views(lines@) =~= x_tips(*a)[0].2);
        push_tip(tips, "Deleting character by character", 2, lines);
    }
    assert(tip_views(tips@) =~= start + x_tips(*a));
}

fn build_dd(a: &Analysis, tips: &mut Vec<Tip>)
    requires
        counts_fit(*a),
    ensures
        tip_views(final(tips)@) == tip_views(old(tips)@) + dd_tips(*a),
{
    let ghost start = tip_views(tips@);
    if a.dd_runs.len() > 0 {
        let counts = countable_counts_of(&a.dd_runs);
        let (longest, _) = summarize(&counts);
        let mut lines: Vec<String> = Vec::new();
        push_line(&mut lines, count_line("You ran `dd` in repeated bursts ", a.dd_runs.len() as i64, " (longest: **", longest, " lines in a row**)."));
        push_lit(&mut lines, "`{count}dd` deletes several lines at once, and `dap` / `dip` delete a whole paragraph.");
        push_lit(&mut lines, "Or select with `V`, extend with `j`, then `d`.");
        assert(views(lines@) =~= dd_tips(*a)[0].2);
        push_tip(tips, "Deleting lines one at a time", 1, lines);
    }
    assert(tip_views(tips@) =~= start + dd_tips(*a));
}

fn build_words(a: &Analysis, tips: &mut Vec<Tip>)
    requires
        counts_fit(*a),
    ensures
        tip_views(final(tips)@) == tip_views(old(tips)@) + word_tips(*a),
{
    let ghost start = tip_views(tips@);
    if a.word_runs.len() > 0 {
        let counts = word_counts_of(a);
        let (longest, _) = summarize(&counts);
        let mut lines: Vec<String> = Vec::new();
        push_line(&mut lines, count_line("You chained `w`/`b`/`e` in long runs ", a.word_runs.len() as i64, " (longest: **", longest, " in a row**)."));
        push_lit(&mut lines, "For a known target, `f{char}` or a `/search` jumps there directly instead of stepping word by word.");
        assert(views(lines@) =~= word_tips(*a)[0].2);
        push_tip(tips, "Long word-motion chains", 1, lines);
    }
    assert(tip_views(tips@) =~= start + word_tips(*a));
}

fn build_undo(a: &Analysis, tips: &mut Vec<Tip>)
    requires
        counts_fit(*a),
    ensures
        tip_views(final(tips)@) == tip_views(old(tips)@) + undo_tips(*a),
{
    let ghost start = tip_views(tips@);
    if a.undo_runs.len() > 0 {
        let counts = countable_counts_of(&a.undo_runs);
        let (longest, _) = summarize(&counts);
        let mut lines: Vec<String> = Vec::new();
        push_line(&mut lines, count_line("You tapped `u` in long streaks ", a.undo_runs.len() as i64, " (longest: **", longest, " in a row**)."));
        push_lit(&mut lines, "`{count}u` undoes several steps at once, and `:earlier 1m` / `g-` travel the undo tree by time.");
        assert(views(lines@) =~= undo_tips(*a)[0].2);
        push_tip(tips, "Long undo streaks", 1, lines);
    }
    assert(tip_views(tips@) =~= start + undo_tips(*a));
}

/// Build the ordered list of tips.
pub fn build_tips(a: &Analysis) -> (tips: Vec<Tip>)
    requires
        counts_fit(*a),
    ensures
        tip_views(tips@) == tips_of(*a),
{
    let mut tips: Vec<Tip> = Vec::new();
    assert(tip_views(tips@) =~= Seq::<(Seq<char>, u8, Seq<Seq<char>>)>::empty());
    build_vertical(a, &mut tips);
    build_horizontal(a, &mut tips);
    build_arrows(a, &mut tips);
    build_x(a, &mut tips);
    build_dd(a, &mut tips);
    build_words(a, &mut tips);
    build_undo(a, &mut tips);
    assert(tip_views(tips@) =~= tips_of(*a));
    tips
}

/// A clock reading that `chrono` can hold as a `DateTime`: within about
/// 253 000 years of 1970, and with a sub-second part of a second or more
/// only in the last second of a minute (a leap second).
pub open spec fn plausible(t: Timestamp) -> bool {
    &&& -8_000_000_000_000 <= t.secs <= 8_000_000_000_000
    &&& (t.nanos < 1_000_000_000 || (t.nanos < 2_000_000_000 && (t.secs as int) % 60 == 59))
}

/// The whole seconds from the reading `(start_secs, start_nanos)` to the
/// reading `(now_secs, now_nanos)` as `chrono` counts them.
pub uninterp spec fn chrono_seconds_between(start_secs: i64, start_nanos: u32, now_secs: i64, now_nanos: u32) -> i64;

/// `chrono`: both readings become `DateTime<Utc>` values through
/// `DateTime::from_timestamp` (which succeeds on every plausible reading),
/// and the result is `(now - start).num_seconds()`: the time between the two
/// instants, leap seconds counted as chrono counts them, truncated toward
/// zero. Local-time values subtract by these same instants. Nothing is
/// stated of the number beyond its name.
#[verifier::external_body]
fn seconds_between(start: Timestamp, now: Timestamp) -> (r: i64)
    requires
        plausible(start),
        plausible(now),
    ensures
        r == chrono_seconds_between(start.secs, start.nanos, now.secs, now.nanos),
{
    let s = chrono::DateTime::from_timestamp(start.secs, start.nanos).unwrap();
    let n = chrono::DateTime::from_timestamp(now.secs, now.nanos).unwrap();
    (n - s).num_seconds()
}

/// The label of a severity.
pub open spec fn severity_label(sev: int) -> Seq<char> {
    if sev == 1 {
        "minor"@
    } else if sev == 2 {
        "worth fixing"@
    } else {
        "time sink"@
    }
}

fn severity_name(sev: u8) -> (r: &'static str)
    ensures
        r@ == severity_label(sev as int),
{
    if sev == 1 {
        "minor"
    } else if sev == 2 {
        "worth fixing"
    } else {
        "time sink"
    }
}

/// Indices below `n` of the tips with severity `sev`, in increasing order.
pub open spec fn indices_with(ts: Seq<(Seq<char>, u8, Seq<Seq<char>>)>, sev: int, n: int) -> Seq<int>
    decreases n,
{
    if n <= 0 {
        seq![]
    } else if ts[n - 1].1 == sev {
        indices_with(ts, sev, n - 1).push(n - 1)
    } else {
        indices_with(ts, sev, n - 1)
    }
}

/// Indices of the tips with severity `sev` or lower, most severe first and
/// in build order within a severity.
pub open spec fn order_from(ts: Seq<(Seq<char>, u8, Seq<Seq<char>>)>, sev: int) -> Seq<int>
    decreases sev + 1,
{
    if sev < 0 {
        seq![]
    } else {
        indices_with(ts, sev, ts.len() as int) + order_from(ts, sev - 1)
    }
}

/// The order tips are shown in: most severe first, in build order within a
/// severity (a stable sort by decreasing severity).
pub open spec fn display_order(ts: Seq<(Seq<char>, u8, Seq<Seq<char>>)>) -> Seq<int> {
    order_from(ts, 255)
}

fn indices_of(tips: &Vec<Tip>, sev: u8, out: &mut Vec<usize>)
    ensures
        final(out)@.map_values(|k: usize| k as int) == old(out)@.map_values(|k: usize| k as int)
            + indices_with(tip_views(tips@), sev as int, tips@.len() as int),
        forall|k: int| 0 <= k < final(out)@.len() ==> (old(out)@.len() <= k ==> #[trigger] final(out)@[k] < tips@.len()),
        forall|k: int| 0 <= k < old(out)@.len() ==> #[trigger] final(out)@[k] == old(out)@[k],
{
    let ghost ts = tip_views(tips@);
    let ghost start = out@;
    let mut i: usize = 0;
    while i < tips.len()
        invariant
            i <= tips@.len(),
            ts == tip_views(tips@),
            out@.map_values(|k: usize| k as int) == start.map_values(|k: usize| k as int) + indices_with(ts, sev as int, i as int),
            out@.len() >= start.len(),
            forall|k: int| 0 <= k < out@.len() ==> (start.len() <= k ==> #[trigger] out@[k] < tips@.len()),
            forall|k: int| 0 <= k < start.len() ==> #[trigger] out@[k] == start[k],
        decreases tips@.len() - i,
    {
        let ghost before = out@;
        if tips[i].severity == sev {
            out.push(i);
            assert(out@.map_values(|k: usize| k as int) =~= before.map_values(|k: usize| k as int).push(i as int));
        }
        i = i + 1;
    }
}

/// The indices of `tips` in display order.
pub fn sorted_order(tips: &Vec<Tip>) -> (r: Vec<usize>)
    ensures
        r@.map_values(|k: usize| k as int) == display_order(tip_views(tips@)),
        forall|k: int| 0 <= k < r@.len() ==> #[trigger] r@[k] < tips@.len(),
{
    let ghost ts = tip_views(tips@);
    let mut r: Vec<usize> = Vec::new();
    let mut sev: u16 = 256;
    assert(r@.map_values(|k: usize| k as int) =~= Seq::<int>::empty());
    while sev > 0
        invariant
            sev <= 256,
            ts == tip_views(tips@),
            r@.map_values(|k: usize| k as int) + order_from(ts, sev - 1) == order_from(ts, 255),
            forall|k: int| 0 <= k < r@.len() ==> #[trigger] r@[k] < tips@.len(),
        decreases sev,
    {
        let s: u8 = (sev - 1) as u8;
        let ghost before = r@.map_values(|k: usize| k as int);
        indices_of(tips, s, &mut r);
        proof {
            assert(order_from(ts, s as int) == indices_with(ts, s as int, ts.len() as int) + order_from(ts, s - 1));
            assert(before + order_from(ts, s as int) =~= (before + indices_with(ts, s as int, ts.len() as int)) + order_from(ts, s - 1));
        }
        sev = sev - 1;
    }
    assert(order_from(ts, -1) =~= Seq::<int>::empty());
    assert(r@.map_values(|k: usize| k as int) =~= order_from(ts, 255));
    r
}

/// One summary entry.
pub open spec fn summary_item(k: Seq<char>, v: Seq<char>) -> Seq<char> {
    "<li><span class=\"k\">"@ + escaped(k) + "</span><span class=\"v\">"@ + escaped(v)
        + "</span></li>\n"@
}

/// The summary: session length, keystrokes, estimated waste, efficiency
/// and the number of tips.
pub open spec fn summary_html(a: Analysis, duration: int, ntips: nat) -> Seq<char> {
    "<h2>Summary</h2>\n<ul class=\"summary\">\n"@ + summary_item("Session length"@, duration_text(duration))
        + summary_item("Keystrokes"@, signed_decimal(a.total_keys as int)) + summary_item(
        "Wasted (est.)"@,
        seq!['~'] + signed_decimal(a.wasted as int),
    ) + summary_item("Efficiency"@, signed_decimal(a.efficiency as int) + " / 100"@) + summary_item(
        "Tips"@,
        decimal(ntips),
    ) + "</ul>\n"@
}

fn push_summary_item(b: &mut String, k: &str, v: &str)
    ensures
        final(b)@ == old(b)@ + summary_item(k@, v@),
{
    push_str(b, "<li><span class=\"k\">");
    let ek = html_escape(k);
    push_str(b, ek.as_str());
    push_str(b, "</span><span class=\"v\">");
    let ev = html_escape(v);
    push_str(b, ev.as_str());
    push_str(b, "</span></li>\n");
    assert(b@ =~= old(b)@ + summary_item(k@, v@));
}

fn push_summary(b: &mut String, a: &Analysis, duration: i64, ntips: usize)
    ensures
        final(b)@ == old(b)@ + summary_html(*a, duration as int, ntips as nat),
{
    let ghost start = b@;
    push_str(b, "<h2>Summary</h2>\n<ul class=\"summary\">\n");
    let d = fmt_duration(duration);
    push_summary_item(b, "Session length", d.as_str());
    let mut keys = String::new();
    push_signed(&mut keys, a.total_keys);
    assert(keys@ =~= signed_decimal(a.total_keys as int));
    push_summary_item(b, "Keystrokes", keys.as_str());
    let mut wasted = String::new();
    push_char(&mut wasted, '~');
    push_signed(&mut wasted, a.wasted);
    assert(wasted@ =~= seq!['~'] + signed_decimal(a.wasted as int));
    push_summary_item(b, "Wasted (est.)", wasted.as_str());
    let mut eff = String::new();
    push_signed(&mut eff, a.efficiency);
    push_str(&mut eff, " / 100");
    assert(eff@ =~= signed_decimal(a.efficiency as int) + " / 100"@);
    push_summary_item(b, "Efficiency", eff.as_str());
    let mut n = String::new();
    push_decimal(&mut n, ntips as u64);
    assert(n@ =~= decimal(ntips as nat));
    push_summary_item(b, "Tips", n.as_str());
    push_str(b, "</ul>\n");
    assert(b@ =~= start + summary_html(*a, duration as int, ntips as nat));
}

/// The visited files as code spans.
pub open spec fn file_codes(files: Seq<Seq<char>>) -> Seq<char>
    decreases files.len(),
{
    if files.len() == 0 {
        seq![]
    } else {
        file_codes(files.drop_last()) + " <code>"@ + escaped(files.last()) + "</code>"@
    }
}

/// The files touched, when there were any.
pub open spec fn files_html(files: Seq<Seq<char>>) -> Seq<char> {
    if files.len() == 0 {
        seq![]
    } else {
        "<p class=\"files\"><strong>"@ + plural_text(files.len() as i64 as int, "file"@)
            + "</strong> touched:"@ + file_codes(files) + "</p>\n"@
    }
}

fn push_files(b: &mut String, files: &Vec<String>)
    ensures
        final(b)@ == old(b)@ + files_html(views(files@)),
{
    let ghost fs = views(files@);
    if files.len() == 0 {
        assert(b@ =~= old(b)@ + files_html(fs));
        return;
    }
    let ghost start = b@;
    push_str(b, "<p class=\"files\"><strong>");
    let p = plural(files.len() as i64, "file");
    push_str(b, p.as_str());
    push_str(b, "</strong> touched:");
    let ghost mid = b@;
    let mut i: usize = 0;
    while i < files.len()
        invariant
            i <= files@.len(),
            fs == views(files@),
            b@ == mid + file_codes(fs.take(i as int)),
        decreases files@.len() - i,
    {
        push_str(b, " <code>");
        let e = html_escape(files[i].as_str());
        push_str(b, e.as_str());
        push_str(b, "</code>");
        proof {
            assert(fs.take(i as int + 1).drop_last() =~= fs.take(i as int));
            assert(fs.take(i as int + 1).last() == files@[i as int]@);
        }
        i = i + 1;
    }
    assert(fs.take(fs.len() as int) =~= fs);
    push_str(b, "</p>\n");
    assert(b@ =~= start + files_html(fs));
}

/// The severity shown for a tip: clamped to `1..=3`.
pub open spec fn shown_severity(sev: u8) -> int {
    if sev < 1 {
        1
    } else if sev > 3 {
        3
    } else {
        sev as int
    }
}

/// The HTML of the tip shown `i`-th (numbered from 1).
pub open spec fn tip_html(t: (Seq<char>, u8, Seq<Seq<char>>), i: int) -> Seq<char> {
    let sev = shown_severity(t.1);
    "<div class=\"tip s"@ + decimal(sev as nat) + "\">\n"@ + "<h3>"@ + decimal((i + 1) as nat) + ". "@
        + inlined(t.0) + " <span class=\"badge s"@ + decimal(sev as nat) + "\">"@ + severity_label(
        sev,
    ) + "</span></h3>\n"@ + lines_html(t.2) + "</div>\n"@
}

/// The tips shown in the order `order`, numbered from `shown.len() + 1`.
pub open spec fn tips_html(ts: Seq<(Seq<char>, u8, Seq<Seq<char>>)>, order: Seq<int>) -> Seq<char>
    decreases order.len(),
{
    if order.len() == 0 {
        seq![]
    } else {
        tips_html(ts, order.drop_last()) + tip_html(ts[order.last()], order.len() - 1)
    }
}

/// The tips section: the tips most severe first, or a note that there were
/// none (and whether the session was too short to judge).
pub open spec fn tips_section(a: Analysis, ts: Seq<(Seq<char>, u8, Seq<Seq<char>>)>) -> Seq<char> {
    if ts.len() == 0 {
        "<h2>No inefficiencies spotted</h2>\n<div class=\"clean\">\n"@ + (if a.total_keys < 20 {
            "<p>Barely any motions were recorded this session — not enough to judge.</p>\n"@
        } else {
            "<p>Clean session — your motions looked efficient. Keep it up.</p>\n"@
        }) + "</div>\n"@
    } else {
        "<h2>What you can improve</h2>\n"@ + tips_html(ts, display_order(ts))
    }
}

fn push_tip_html(b: &mut String, t: &Tip, i: usize)
    requires
        i < usize::MAX,
    ensures
        final(b)@ == old(b)@ + tip_html(tip_view(*t), i as int),
{
    let sev: u8 = if t.severity < 1 {
        1
    } else if t.severity > 3 {
        3
    } else {
        t.severity
    };
    assert(sev as int == shown_severity(t.severity));
    let mut head = String::new();
    push_str(&mut head, "<div class=\"tip s");
    push_decimal(&mut head, sev as u64);
    push_str(&mut head, "\">\n");
    push_str(&mut head, "<h3>");
    push_decimal(&mut head, (i + 1) as u64);
    push_str(&mut head, ". ");
    let h = crate::markup::inline(t.heading.as_str());
    push_str(&mut head, h.as_str());
    push_str(&mut head, " <span class=\"badge s");
    push_decimal(&mut head, sev as u64);
    push_str(&mut head, "\">");
    push_str(&mut head, severity_name(sev));
    push_str(&mut head, "</span></h3>\n");
    let ghost hv = head@;
    assert(hv =~= "<div class=\"tip s"@ + decimal(sev as nat) + "\">\n"@ + "<h3>"@ + decimal((i + 1) as nat)
        + ". "@ + inlined(t.heading@) + " <span class=\"badge s"@ + decimal(sev as nat) + "\">"@
        + severity_label(sev as int) + "</span></h3>\n"@);
    let mut body = String::new();
    render_lines(&t.lines, &mut body);
    let ghost bv = body@;
    assert(bv =~= lines_html(views(t.lines@)));
    push_str(b, head.as_str());
    push_str(b, body.as_str());
    push_str(b, "</div>\n");
    assert(b@ =~= old(b)@ + (hv + bv + "</div>\n"@));
}

fn push_tips_section(b: &mut String, a: &Analysis, tips: &Vec<Tip>)
    ensures
        final(b)@ == old(b)@ + tips_section(*a, tip_views(tips@)),
{
    let ghost ts = tip_views(tips@);
    let ghost start = b@;
    if tips.len() == 0 {
        push_str(b, "<h2>No inefficiencies spotted</h2>\n<div class=\"clean\">\n");
        if a.total_keys < 20 {
            push_str(b, "<p>Barely any motions were recorded this session — not enough to judge.</p>\n");
        } else {
            push_str(b, "<p>Clean session — your motions looked efficient. Keep it up.</p>\n");
        }
        push_str(b, "</div>\n");
        assert(b@ =~= start + tips_section(*a, ts));
        return;
    }
    push_str(b, "<h2>What you can improve</h2>\n");
    let order = sorted_order(tips);
    let ghost ord = order@.map_values(|k: usize| k as int);
    let ghost mid = b@;
    let mut i: usize = 0;
    while i < order.len()
        invariant
            i <= order@.len(),
            ts == tip_views(tips@),
            ord == order@.map_values(|k: usize| k as int),
            ord == display_order(ts),
            forall|k: int| 0 <= k < order@.len() ==> #[trigger] order@[k] < tips@.len(),
            b@ == mid + tips_html(ts, ord.take(i as int)),
        decreases order@.len() - i,
    {
        let k = order[i];
        assert(tip_view(tips@[k as int]) == ts[k as int]);
        push_tip_html(b, &tips[k], i);
        proof {
            assert(ord.take(i as int + 1).drop_last() =~= ord.take(i as int));
            assert(ord.take(i as int + 1).last() == k as int);
        }
        i = i + 1;
    }
    assert(ord.take(ord.len() as int) =~= ord);
    assert(b@ =~= start + tips_section(*a, ts));
}

/// The motion cheat-sheet: a goal and the keys for it (backticks separate
/// the code spans inside the keys column, which is itself one span).
pub open spec fn cheatsheet() -> Seq<(Seq<char>, Seq<char>)> {
    seq![
        ("Jump to line N"@, "{N}G` or `:{N}<CR>"@),
        ("Down/up N lines"@, "{N}j` / `{N}k"@),
        ("Next/prev word"@, "w` / `b` (`e` = end of word)"@),
        ("To char X on line"@, "f{X}` / `t{X}`, repeat with `;` / `,"@),
        ("Line ends"@, "0` start, `^` first non-blank, `$` end"@),
        ("Paragraph jump"@, "}` / `{"@),
        ("Half-page scroll"@, "<C-d>` / `<C-u>"@),
        ("Search"@, "/text<CR>`, `n` / `N`, `*` for word under cursor"@),
        ("Matching bracket"@, "%"@),
        ("Delete word / line"@, "diw`, `daw`, `dd`, `dap"@),
        ("Jump history"@, "<C-o>` back, `<C-i>` forward"@),
    ]
}

/// One cheat-sheet row.
pub open spec fn cheat_row(goal: Seq<char>, keys: Seq<char>) -> Seq<char> {
    "<tr><td>"@ + escaped(goal) + "</td><td>"@ + inlined(seq!['`'] + keys + seq!['`']) + "</td></tr>\n"@
}

/// The HTML of cheat-sheet rows.
pub open spec fn cheat_rows(rows: Seq<(Seq<char>, Seq<char>)>) -> Seq<char>
    decreases rows.len(),
{
    if rows.len() == 0 {
        seq![]
    } else {
        cheat_rows(rows.drop_last()) + cheat_row(rows.last().0, rows.last().1)
    }
}

/// The cheat-sheet table.
pub open spec fn cheatsheet_html() -> Seq<char> {
    "<h2>Motion cheat-sheet</h2>\n<table>\n<thead><tr><th>Goal</th><th>Keys</th></tr></thead>\n<tbody>\n"@
        + cheat_rows(cheatsheet()) + "</tbody>\n</table>\n"@
}

fn push_row(b: &mut String, goal: &str, keys: &str)
    ensures
        final(b)@ == old(b)@ + cheat_row(goal@, keys@),
{
    push_str(b, "<tr><td>");
    let g = html_escape(goal);
    push_str(b, g.as_str());
    push_str(b, "</td><td>");
    let mut span = String::new();
    push_char(&mut span, '`');
    push_str(&mut span, keys);
    push_char(&mut span, '`');
    assert(span@ =~= seq!['`'] + keys@ + seq!['`']);
    let k = crate::markup::inline(span.as_str());
    push_str(b, k.as_str());
    push_str(b, "</td></tr>\n");
    assert(b@ =~= old(b)@ + cheat_row(goal@, keys@));
}

/// Cheat-sheet rows as characters.
pub open spec fn row_views(rows: Seq<(&str, &str)>) -> Seq<(Seq<char>, Seq<char>)> {
    rows.map_values(|r: (&str, &str)| (r.0@, r.1@))
}

fn push_cheatsheet(b: &mut String)
    ensures
        final(b)@ == old(b)@ + cheatsheet_html(),
{
    let rows: Vec<(&str, &str)> = vec![
        ("Jump to line N", "{N}G` or `:{N}<CR>"),
        ("Down/up N lines", "{N}j` / `{N}k"),
        ("Next/prev word", "w` / `b` (`e` = end of word)"),
        ("To char X on line", "f{X}` / `t{X}`, repeat with `;` / `,"),
        ("Line ends", "0` start, `^` first non-blank, `$` end"),
        ("Paragraph jump", "}` / `{"),
        ("Half-page scroll", "<C-d>` / `<C-u>"),
        ("Search", "/text<CR>`, `n` / `N`, `*` for word under cursor"),
        ("Matching bracket", "%"),
        ("Delete word / line", "diw`, `daw`, `dd`, `dap"),
        ("Jump history", "<C-o>` back, `<C-i>` forward"),
    ];
    let ghost c = cheatsheet();
    assert(row_views(rows@) =~= c);
    let ghost start = b@;
    push_str(b, "<h2>Motion cheat-sheet</h2>\n<table>\n<thead><tr><th>Goal</th><th>Keys</th></tr></thead>\n<tbody>\n");
    let ghost mid = b@;
    let mut i: usize = 0;
    while i < rows.len()
        invariant
            i <= rows@.len(),
            c == cheatsheet(),
            row_views(rows@) == c,
            b@ == mid + cheat_rows(c.take(i as int)),
        decreases rows@.len() - i,
    {
        let (goal, keys) = rows[i];
        assert(c[i as int] == (goal@, keys@));
        push_row(b, goal, keys);
        proof {
            assert(c.take(i as int + 1).drop_last() =~= c.take(i as int));
            assert(c.take(i as int + 1).last() == c[i as int]);
        }
        i = i + 1;
    }
    assert(c.take(c.len() as int) =~= c);
    push_str(b, "</tbody>\n</table>\n");
    assert(b@ =~= start + cheatsheet_html());
}

/// The page body: header with the date, summary, files, tips and
/// cheat-sheet.
pub open spec fn body_html(a: Analysis, files: Seq<Seq<char>>, duration: int, date: Seq<char>) -> Seq<char> {
    let ts = tips_of(a);
    "<div class=\"wrap\">\n"@
        + "<header>\n<span class=\"eyebrow\">// motion analysis</span>\n<h1>mashless session report</h1>\n"@
        + "<div class=\"date\">"@ + escaped(date) + "</div>\n</header>\n"@ + summary_html(
        a,
        duration,
        ts.len(),
    ) + files_html(files) + tips_section(a, ts) + cheatsheet_html()
        + "<footer>Generated by mashless — badges: minor, worth fixing, time sink.</footer>\n"@
        + "</div>\n"@
}

/// The whole HTML document around a body, with `style` as its stylesheet.
pub open spec fn document(style: Seq<char>, body: Seq<char>) -> Seq<char> {
    "<!doctype html>\n<html lang=\"en\">\n<head>\n<meta charset=\"utf-8\">\n<meta name=\"viewport\" content=\"width=device-width, initial-scale=1\">\n<title>mashless session report</title>\n<style>"@
        + style + "</style>\n</head>\n<body>\n"@ + body + "</body>\n</html>\n"@
}

/// The report for an analysis of a session that has lasted `duration`
/// seconds, dated `date`.
pub open spec fn report_html(a: Analysis, session: Session, duration: int, date: Seq<char>, style: Seq<char>) -> Seq<char> {
    document(style, body_html(a, views(session.files@), duration, date))
}

/// Render an analysis and its session into a full HTML document, as of the
/// clock reading `now`, whose label is `date`: the session length is what
/// `chrono` counts from the session's start to `now`. `style` is the
/// stylesheet the page embeds. The session's files are listed in increasing
/// order, as the session keeps them.
pub fn render(a: &Analysis, session: &Session, now: Timestamp, date: &str, style: &str) -> (r: String)
    requires
        counts_fit(*a),
        strictly_sorted(views(session.files@)),
        plausible(session.start),
        plausible(now),
    ensures
        r@ == report_html(
            *a,
            *session,
            chrono_seconds_between(session.start.secs, session.start.nanos, now.secs, now.nanos) as int,
            date@,
            style@,
        ),
{
    let duration = seconds_between(session.start, now);
    render_page(a, session, duration, date, style)
}

/// The full HTML document for an analysis and its session, which has lasted
/// `duration` seconds, dated `date`, embedding the stylesheet `style`.
pub fn render_page(a: &Analysis, session: &Session, duration: i64, date: &str, style: &str) -> (r: String)
    requires
        counts_fit(*a),
        strictly_sorted(views(session.files@)),
    ensures
        r@ == report_html(*a, *session, duration as int, date@, style@),
{
    let tips = build_tips(a);
    let mut b = String::new();
    push_str(&mut b, "<div class=\"wrap\">\n");
    push_str(&mut b, "<header>\n<span class=\"eyebrow\">// motion analysis</span>\n<h1>mashless session report</h1>\n");
    push_str(&mut b, "<div class=\"date\">");
    let d = html_escape(date);
    push_str(&mut b, d.as_str());
    push_str(&mut b, "</div>\n</header>\n");
    let ghost head = b@;
    push_summary(&mut b, a, duration, tips.len());
    let ghost s1 = b@;
    push_files(&mut b, &session.files);
    let ghost s2 = b@;
    push_tips_section(&mut b, a, &tips);
    let ghost s3 = b@;
    push_cheatsheet(&mut b);
    let ghost s4 = b@;
    push_str(&mut b, "<footer>Generated by mashless — badges: minor, worth fixing, time sink.</footer>\n");
    push_str(&mut b, "</div>\n");
    assert(b@ =~= body_html(*a, views(session.files@), duration as int, date@));
    let mut out = String::new();
    push_str(&mut out, "<!doctype html>\n<html lang=\"en\">\n<head>\n<meta charset=\"utf-8\">\n<meta name=\"viewport\" content=\"width=device-width, initial-scale=1\">\n<title>mashless session report</title>\n<style>");
    push_str(&mut out, style);
    push_str(&mut out, "</style>\n</head>\n<body>\n");
    push_str(&mut out, b.as_str());
    push_str(&mut out, "</body>\n</html>\n");
    assert(out@ =~= document(style@, b@));
    out
}

proof fn lemma_indices_with(ts: Seq<(Seq<char>, u8, Seq<Seq<char>>)>, sev: int, n: int)
    requires
        0 <= n <= ts.len(),
    ensures
        forall|i: int| 0 <= i < indices_with(ts, sev, n).len() ==> 0 <= #[trigger] indices_with(ts, sev, n)[i] < n
            && ts[indices_with(ts, sev, n)[i]].1 == sev,
        forall|i: int, j: int|
            0 <= i < j < indices_with(ts, sev, n).len() ==> #[trigger] indices_with(ts, sev, n)[i]
                < #[trigger] indices_with(ts, sev, n)[j],
        forall|k: int| 0 <= k < n && ts[k].1 == sev ==> indices_with(ts, sev, n).contains(k),
    decreases n,
{
    if n > 0 {
        lemma_indices_with(ts, sev, n - 1);
        let prev = indices_with(ts, sev, n - 1);
        let cur = indices_with(ts, sev, n);
        if ts[n - 1].1 == sev {
            assert(cur == prev.push(n - 1));
            assert forall|k: int| 0 <= k < n && ts[k].1 == sev implies cur.contains(k) by {
                if k < n - 1 {
                    assert(prev.contains(k));
                    let p = choose|p: int| 0 <= p < prev.len() && prev[p] == k;
                    assert(cur[p] == k);
                } else {
                    assert(cur[cur.len() - 1] == k);
                }
            }
        }
    }
}

proof fn lemma_order_from(ts: Seq<(Seq<char>, u8, Seq<Seq<char>>)>, sev: int)
    requires
        sev <= 255,
    ensures
        forall|i: int| 0 <= i < order_from(ts, sev).len() ==> 0 <= #[trigger] order_from(ts, sev)[i] < ts.len()
            && ts[order_from(ts, sev)[i]].1 <= sev,
        forall|i: int, j: int|
            0 <= i < j < order_from(ts, sev).len() ==> ts[#[trigger] order_from(ts, sev)[i]].1 >= ts[#[trigger] order_from(
                ts,
                sev,
            )[j]].1 && (ts[order_from(ts, sev)[i]].1 == ts[order_from(ts, sev)[j]].1 ==> order_from(ts, sev)[i]
                < order_from(ts, sev)[j]),
        forall|k: int| 0 <= k < ts.len() && ts[k].1 <= sev ==> order_from(ts, sev).contains(k),
    decreases sev + 1,
{
    if sev >= 0 {
        lemma_order_from(ts, sev - 1);
        lemma_indices_with(ts, sev, ts.len() as int);
        let a = indices_with(ts, sev, ts.len() as int);
        let b = order_from(ts, sev - 1);
        let o = order_from(ts, sev);
        assert(o == a + b);
        assert forall|i: int| 0 <= i < o.len() implies 0 <= #[trigger] o[i] < ts.len() && ts[o[i]].1 <= sev by {
            if i >= a.len() {
                assert(o[i] == b[i - a.len()]);
            }
        }
        assert forall|i: int, j: int| 0 <= i < j < o.len() implies ts[#[trigger] o[i]].1 >= ts[#[trigger] o[j]].1
            && (ts[o[i]].1 == ts[o[j]].1 ==> o[i] < o[j]) by {
            if j < a.len() {
            } else if i < a.len() {
                assert(o[j] == b[j - a.len()]);
                assert(ts[b[j - a.len()]].1 <= sev - 1);
            } else {
                assert(o[i] == b[i - a.len()]);
                assert(o[j] == b[j - a.len()]);
            }
        }
        assert forall|k: int| 0 <= k < ts.len() && ts[k].1 <= sev implies o.contains(k) by {
            if ts[k].1 == sev {
                assert(a.contains(k));
                let p = choose|p: int| 0 <= p < a.len() && a[p] == k;
                assert(o[p] == k);
            } else {
                assert(b.contains(k));
                let p = choose|p: int| 0 <= p < b.len() && b[p] == k;
                assert(o[p + a.len()] == k);
            }
        }
    }
}

/// Tips are shown each exactly once, most severe first, and in build order
/// among tips of equal severity: a stable sort by decreasing severity.
pub proof fn lemma_display_order(ts: Seq<(Seq<char>, u8, Seq<Seq<char>>)>)
    ensures
        forall|i: int| 0 <= i < display_order(ts).len() ==> 0 <= #[trigger] display_order(ts)[i] < ts.len(),
        forall|k: int| 0 <= k < ts.len() ==> display_order(ts).contains(k),
        display_order(ts).no_duplicates(),
        forall|i: int, j: int|
            0 <= i < j < display_order(ts).len() ==> ts[#[trigger] display_order(ts)[i]].1 >= ts[#[trigger] display_order(
                ts,
            )[j]].1,
        forall|i: int, j: int|
            0 <= i < j < display_order(ts).len() && ts[#[trigger] display_order(ts)[i]].1 == ts[#[trigger] display_order(
                ts,
            )[j]].1 ==> display_order(ts)[i] < display_order(ts)[j],
{
    lemma_order_from(ts, 255);
    let o = display_order(ts);
    assert forall|i: int, j: int| 0 <= i < o.len() && 0 <= j < o.len() && i != j implies o[i] != o[j] by {
        if i < j {
            assert(ts[o[i]].1 >= ts[o[j]].1);
        } else {
            assert(ts[o[j]].1 >= ts[o[i]].1);
        }
    }
}

/// Whether every running total of `v` fits in an `i64`.
pub fn sums_fit_exec(v: &Vec<i64>) -> (r: bool)
    ensures
        r == sums_fit(i64_views(v@)),
{
    let ghost cs = i64_views(v@);
    let mut total: i128 = 0;
    let mut i: usize = 0;
    assert(cs.take(0) =~= Seq::<int>::empty());
    while i < v.len()
        invariant
            i <= v@.len(),
            cs == i64_views(v@),
            total == sum_of(cs.take(i as int)),
            forall|k: int| 0 <= k <= i ==> i64::MIN <= #[trigger] sum_of(cs.take(k)) <= i64::MAX,
        decreases v@.len() - i,
    {
        proof {
            assert(cs.take(i as int + 1).drop_last() =~= cs.take(i as int));
        }
        total = total + v[i] as i128;
        if total < i64::MIN as i128 || total > i64::MAX as i128 {
            assert(sum_of(cs.take(i as int + 1)) == total);
            return false;
        }
        i = i + 1;
    }
    assert(cs.take(cs.len() as int) =~= cs);
    true
}

/// Whether the tips of `a` can be built (see [`counts_fit`]).
pub fn counts_summable(a: &Analysis) -> (r: bool)
    ensures
        r == counts_fit(*a),
{
    let v = vertical_counts_of(a);
    let h = horizontal_counts_of(a);
    let x = countable_counts_of(&a.x_runs);
    let d = countable_counts_of(&a.dd_runs);
    let w = word_counts_of(a);
    let u = countable_counts_of(&a.undo_runs);
    sums_fit_exec(&v) && sums_fit_exec(&h) && sums_fit_exec(&x) && sums_fit_exec(&d) && sums_fit_exec(&w)
        && sums_fit_exec(&u)
}

/// Whether a clock reading is one [`render`] accepts.
pub fn plausible_time(t: Timestamp) -> (r: bool)
    ensures
        r == plausible(t),
{
    if t.secs < -8_000_000_000_000 || t.secs > 8_000_000_000_000 {
        return false;
    }
    if t.nanos < 1_000_000_000 {
        return true;
    }
    let shifted: i64 = t.secs + 12_000_000_000_000;
    let m: i64 = shifted % 60;
    assert(m == (t.secs as int) % 60) by (nonlinear_arith)
        requires
            shifted == t.secs + 12_000_000_000_000,
            shifted >= 0,
            m == shifted % 60,
    ;
    t.nanos < 2_000_000_000 && m == 59
}

/// The counted jump suggested for the longest vertical run goes the run's
/// way: after a run of `k` or `<Up>` it is `{N}k`, after a run of `j` or
/// `<Down>` it is `{N}j`, where `N` is the number of lines the run travelled.
pub proof fn lemma_jump_goes_the_runs_way(a: Analysis)
    requires
        a.vertical@.len() > 0,
        first_index_of(vertical_counts(a), max_of(vertical_counts(a))) < a.vertical@.len(),
        a.vertical@[first_index_of(vertical_counts(a), max_of(vertical_counts(a)))].dist > 0,
    ensures
        ({
            let lr = a.vertical@[first_index_of(vertical_counts(a), max_of(vertical_counts(a)))];
            let line = tips_of(a)[0].2[1];
            let n = signed_decimal(lr.dist as int);
            let head = "That longest run moved you **"@ + n + " lines** — `"@ + n;
            let tail = "` does it in 2-3 keystrokes."@;
            &&& (lr.tok@ == "k"@ || lr.tok@ == "<Up>"@) ==> line == head + "k"@ + tail
            &&& (lr.tok@ == "j"@ || lr.tok@ == "<Down>"@) ==> line == head + "j"@ + tail
        }),
{
    reveal_strlit("j");
    reveal_strlit("k");
    reveal_strlit("<Up>");
    reveal_strlit("<Down>");
    let counts = vertical_counts(a);
    let k = first_index_of(counts, max_of(counts));
    assert(counts.len() == a.vertical@.len());
    let vt = vertical_tips(a);
    assert(tips_of(a) == vt + horizontal_tips(a) + arrow_tips(a) + edit_tips(a));
    assert(vt.len() == 1);
    assert(tips_of(a)[0] == vt[0]);
    assert("j"@ != "k"@ && "j"@ != "<Up>"@ && "<Down>"@ != "k"@ && "<Down>"@ != "<Up>"@) by {
        assert("j"@[0] != "k"@[0]);
        assert("<Down>"@.len() != "<Up>"@.len());
    }
}

/// Every tip's badge names its severity as the page's footer legend does:
/// severity 1 (or less) reads `minor`, 2 `worth fixing`, and 3 (or more)
/// `time sink`, so a more severe tip never wears a milder label.
pub proof fn lemma_badge_names_severity(t: (Seq<char>, u8, Seq<Seq<char>>), i: int)
    ensures
        ({
            let n: int = if t.1 <= 1 {
                1
            } else if t.1 == 2 {
                2
            } else {
                3
            };
            let label = if n == 1 {
                "minor"@
            } else if n == 2 {
                "worth fixing"@
            } else {
                "time sink"@
            };
            tip_html(t, i) == "<div class=\"tip s"@ + decimal(n as nat) + "\">\n"@ + "<h3>"@ + decimal(
                (i + 1) as nat,
            ) + ". "@ + inlined(t.0) + " <span class=\"badge s"@ + decimal(n as nat) + "\">"@ + label
                + "</span>"@ + "</h3>\n"@ + lines_html(t.2) + "</div>\n"@
        }),
{
    reveal_strlit("</span></h3>\n");
    reveal_strlit("</span>");
    reveal_strlit("</h3>\n");
    assert("</span></h3>\n"@ =~= "</span>"@ + "</h3>\n"@);
    let sev = shown_severity(t.1);
    let pre = "<div class=\"tip s"@ + decimal(sev as nat) + "\">\n"@ + "<h3>"@ + decimal((i + 1) as nat)
        + ". "@ + inlined(t.0) + " <span class=\"badge s"@ + decimal(sev as nat) + "\">"@ + severity_label(sev);
    let post = lines_html(t.2) + "</div>\n"@;
    assert(tip_html(t, i) =~= pre + "</span></h3>\n"@ + post);
    assert(pre + "</span></h3>\n"@ + post =~= pre + "</span>"@ + "</h3>\n"@ + post);
}

} // verus!

//! Turns a recorded session into structured findings about inefficient
//! motions.

use vstd::prelude::*;

use crate::recorder::{arrow_token, Config, KeyEntry, Session};
use crate::text::{char_at_byte, char_at_byte_of, chars_are, chars_of, opt_view};

verus! {

broadcast use vstd::string::group_string_axioms;

/// `j`, `k` and the vertical arrow keys.
pub open spec fn vertical_token(t: Seq<char>) -> bool {
    t == "j"@ || t == "k"@ || t == "<Down>"@ || t == "<Up>"@
}

/// `l`, `h` and the horizontal arrow keys.
pub open spec fn horizontal_token(t: Seq<char>) -> bool {
    t == "l"@ || t == "h"@ || t == "<Right>"@ || t == "<Left>"@
}

/// The word motions.
pub open spec fn word_token(t: Seq<char>) -> bool {
    t == "w"@ || t == "b"@ || t == "e"@ || t == "W"@ || t == "B"@ || t == "E"@
}

fn vertical(tok: &Vec<char>) -> (r: bool)
    ensures
        r == vertical_token(tok@),
{
    chars_are(tok, "j") || chars_are(tok, "k") || chars_are(tok, "<Down>") || chars_are(tok, "<Up>")
}

fn horizontal(tok: &Vec<char>) -> (r: bool)
    ensures
        r == horizontal_token(tok@),
{
    chars_are(tok, "l") || chars_are(tok, "h") || chars_are(tok, "<Right>") || chars_are(
        tok,
        "<Left>",
    )
}

fn wordwise(tok: &Vec<char>) -> (r: bool)
    ensures
        r == word_token(tok@),
{
    chars_are(tok, "w") || chars_are(tok, "b") || chars_are(tok, "e") || chars_are(tok, "W")
        || chars_are(tok, "B") || chars_are(tok, "E")
}

/// A long run of vertical single-line motions.
pub struct VRun {
    pub tok: String,
    pub count: i64,
    pub dist: i64,
}

/// A long run of horizontal single-character motions, and the character it
/// landed on when that is a useful `f`/`t` target.
pub struct HRun {
    pub count: i64,
    pub ch: Option<char>,
}

/// A run of one repeated command.
pub struct Countable {
    pub count: i64,
}

/// A long chain of word motions.
pub struct WordRun {
    pub count: i64,
}

/// Structured findings. The report renders this directly.
pub struct Analysis {
    pub vertical: Vec<VRun>,
    pub horizontal: Vec<HRun>,
    pub x_runs: Vec<Countable>,
    pub dd_runs: Vec<Countable>,
    pub word_runs: Vec<WordRun>,
    pub undo_runs: Vec<Countable>,
    pub normal_arrows: i64,
    pub insert_arrows: i64,
    pub total_keys: i64,
    pub wasted: i64,
    pub efficiency: i64,
}

impl Default for Analysis {
    /// No findings and all counters zero.
    fn default() -> (a: Self)
        ensures
            a.vertical@.len() == 0,
            a.horizontal@.len() == 0,
            a.x_runs@.len() == 0,
            a.dd_runs@.len() == 0,
            a.word_runs@.len() == 0,
            a.undo_runs@.len() == 0,
            a.normal_arrows == 0,
            a.insert_arrows == 0,
            a.total_keys == 0,
            a.wasted == 0,
            a.efficiency == 0,
    {
        Analysis {
            vertical: Vec::new(),
            horizontal: Vec::new(),
            x_runs: Vec::new(),
            dd_runs: Vec::new(),
            word_runs: Vec::new(),
            undo_runs: Vec::new(),
            normal_arrows: 0,
            insert_arrows: 0,
            total_keys: 0,
            wasted: 0,
            efficiency: 0,
        }
    }
}

/// A maximal run of consecutive identical tokens. `s`/`e` are inclusive
/// indices into the keylog.
pub struct Run {
    pub tok: String,
    pub count: i64,
    pub s: usize,
    pub e: usize,
}

/// The token of each keylog entry.
pub open spec fn tokens(kl: Seq<KeyEntry>) -> Seq<Seq<char>> {
    kl.map_values(|e: KeyEntry| e.tok@)
}

/// The last index of the block of tokens equal to `t[i]` that starts at `i`.
pub open spec fn run_end(t: Seq<Seq<char>>, i: int) -> int
    decreases t.len() - i,
{
    if 0 <= i && i + 1 < t.len() && t[i + 1] == t[i] {
        run_end(t, i + 1)
    } else {
        i
    }
}

/// A run ends inside the stream, holds one token, and stops before a different one.
pub proof fn lemma_run_end(t: Seq<Seq<char>>, i: int)
    requires
        0 <= i < t.len(),
    ensures
        i <= run_end(t, i) < t.len(),
        forall|k: int| i <= k <= run_end(t, i) ==> #[trigger] t[k] == t[i],
        run_end(t, i) + 1 < t.len() ==> t[run_end(t, i) + 1] != t[i],
    decreases t.len() - i,
{
    if i + 1 < t.len() && t[i + 1] == t[i] {
        lemma_run_end(t, i + 1);
    }
}

/// The maximal runs of equal tokens of `t` from index `i` on, each as its
/// first and last index.
pub open spec fn runs_from(t: Seq<Seq<char>>, i: int) -> Seq<(int, int)>
    decreases t.len() - i,
{
    if i < 0 || i >= t.len() {
        seq![]
    } else {
        proof {
            lemma_run_end(t, i);
        }
        seq![(i, run_end(t, i))] + runs_from(t, run_end(t, i) + 1)
    }
}

/// The maximal runs of equal tokens of a keylog.
pub open spec fn runs_of(kl: Seq<KeyEntry>) -> Seq<(int, int)> {
    runs_from(tokens(kl), 0)
}

/// Number of keystrokes in a run.
pub open spec fn run_len(r: (int, int)) -> int {
    r.1 - r.0 + 1
}

/// A run as its first and last index.
pub open spec fn run_view(r: Run) -> (int, int) {
    (r.s as int, r.e as int)
}

/// Runs partition a token stream: they start at 0, each starts right after
/// the previous one ends, the last ends at the last token, every token of a
/// run equals its first, and two neighbouring runs hold different tokens.
pub open spec fn partitions(t: Seq<Seq<char>>, i: int, rs: Seq<(int, int)>) -> bool {
    &&& (rs.len() == 0 <==> i >= t.len())
    &&& rs.len() > 0 ==> rs[0].0 == i && rs.last().1 == t.len() - 1
    &&& forall|k: int| 0 <= k < rs.len() ==> i <= (#[trigger] rs[k]).0 <= rs[k].1 < t.len()
    &&& forall|k: int| 0 <= k < rs.len() - 1 ==> (#[trigger] rs[k]).1 + 1 == rs[k + 1].0
    &&& forall|k: int, m: int|
        0 <= k < rs.len() && rs[k].0 <= m <= rs[k].1 ==> #[trigger] t[m] == t[(#[trigger] rs[k]).0]
    &&& forall|k: int|
        0 <= k < rs.len() - 1 ==> t[(#[trigger] rs[k]).0] != t[rs[k + 1].0]
}

/// The runs of a token stream split it into maximal blocks of one repeated
/// token, in order and without gaps.
pub proof fn lemma_runs_partition(t: Seq<Seq<char>>, i: int)
    requires
        0 <= i,
    ensures
        partitions(t, i, runs_from(t, i)),
    decreases t.len() - i,
{
    if i < t.len() {
        lemma_run_end(t, i);
        let e = run_end(t, i);
        lemma_runs_partition(t, e + 1);
        let rest = runs_from(t, e + 1);
        let rs = runs_from(t, i);
        assert(rs == seq![(i, e)] + rest);
        assert forall|k: int| 0 <= k < rs.len() - 1 implies (#[trigger] rs[k]).1 + 1 == rs[k
            + 1].0 by {
            if k > 0 {
                assert(rs[k] == rest[k - 1]);
                assert(rs[k + 1] == rest[k]);
            }
        }
        assert forall|k: int, m: int|
            0 <= k < rs.len() && rs[k].0 <= m <= rs[k].1 implies #[trigger] t[m] == t[(
            #[trigger] rs[k]).0] by {
            if k > 0 {
                assert(rs[k] == rest[k - 1]);
            }
        }
        assert forall|k: int| 0 <= k < rs.len() - 1 implies t[(#[trigger] rs[k]).0] != t[rs[k
            + 1].0] by {
            if k > 0 {
                assert(rs[k] == rest[k - 1]);
                assert(rs[k + 1] == rest[k]);
            } else {
                assert(rs[1] == rest[0]);
            }
        }
        assert forall|k: int| 0 <= k < rs.len() implies i <= (#[trigger] rs[k]).0 <= rs[k].1
            < t.len() by {
            if k > 0 {
                assert(rs[k] == rest[k - 1]);
            }
        }
    }
}

/// Group the key stream into runs of consecutive identical tokens.
pub fn find_runs(keylog: &Vec<KeyEntry>) -> (runs: Vec<Run>)
    requires
        keylog@.len() <= i64::MAX,
    ensures
        runs@.map_values(|r: Run| run_view(r)) == runs_of(keylog@),
        forall|k: int|
            0 <= k < runs@.len() ==> (#[trigger] runs@[k]).tok@ == keylog@[runs@[k].s as int].tok@
                && runs@[k].count == runs@[k].e - runs@[k].s + 1,
{
    let ghost t = tokens(keylog@);
    let mut runs: Vec<Run> = Vec::new();
    let n = keylog.len();
    let mut i: usize = 0;
    while i < n
        invariant
            n == keylog@.len(),
            n <= i64::MAX,
            t == tokens(keylog@),
            i <= n,
            runs@.map_values(|r: Run| run_view(r)) + runs_from(t, i as int) == runs_from(t, 0),
            forall|k: int|
                0 <= k < runs@.len() ==> (#[trigger] runs@[k]).tok@ == keylog@[runs@[k].s as int].tok@
                    && runs@[k].count == runs@[k].e - runs@[k].s + 1 && runs@[k].e < n,
        decreases n - i,
    {
        let tok = &keylog[i].tok;
        let mut j = i;
        proof {
            lemma_run_end(t, i as int);
        }
        while j + 1 < n && keylog[j + 1].tok == *tok
            invariant
                n == keylog@.len(),
                t == tokens(keylog@),
                i <= j < n,
                run_end(t, i as int) == run_end(t, j as int),
                *tok == keylog@[i as int].tok,
                t[j as int] == t[i as int],
            decreases n - j,
        {
            j = j + 1;
        }
        proof {
            assert(run_end(t, j as int) == j);
        }
        let ghost before = runs@;
        runs.push(Run { tok: tok.clone(), count: (j - i + 1) as i64, s: i, e: j });
        proof {
            assert(runs@.map_values(|r: Run| run_view(r)) =~= before.map_values(|r: Run| run_view(r)).push(
                (i as int, j as int),
            ));
            assert(runs_from(t, i as int) == seq![(i as int, j as int)] + runs_from(t, j + 1));
        }
        proof {
            let bm = before.map_values(|r: Run| run_view(r));
            assert(bm.push((i as int, j as int)) + runs_from(t, j + 1) =~= bm + (seq![(i as int, j as int)] + runs_from(t, j + 1)));
        }
        i = j + 1;
    }
    assert(runs_from(t, n as int) =~= Seq::<(int, int)>::empty());
    assert(runs@.map_values(|r: Run| run_view(r)) =~= runs_from(t, 0));
    runs
}

/// Where the cursor was right after the run ending at index `e`: where the
/// next keystroke started, or the last known position when none followed.
pub open spec fn end_pos(kl: Seq<KeyEntry>, last: (i64, i64), e: int) -> (i64, i64) {
    if e + 1 < kl.len() {
        (kl[e + 1].line, kl[e + 1].col)
    } else {
        last
    }
}

/// Absolute value.
pub open spec fn abs(x: int) -> int {
    if x < 0 {
        -x
    } else {
        x
    }
}

/// `x`, or 0 when negative.
pub open spec fn max0(x: int) -> int {
    if x < 0 {
        0
    } else {
        x
    }
}

/// The first token of a run.
pub open spec fn run_tok(kl: Seq<KeyEntry>, r: (int, int)) -> Seq<char> {
    kl[r.0].tok@
}

/// Which kind of motion a run repeats: 0 vertical, 1 horizontal, 2 `x`,
/// 3 `d`, 4 word motion, 5 `u`, 6 anything else.
pub open spec fn category(t: Seq<char>) -> int {
    if vertical_token(t) {
        0
    } else if horizontal_token(t) {
        1
    } else if t == "x"@ {
        2
    } else if t == "d"@ {
        3
    } else if word_token(t) {
        4
    } else if t == "u"@ {
        5
    } else {
        6
    }
}

/// Vertical lines travelled by a run: from the line it started on to the line
/// the cursor was on right after it.
pub open spec fn run_dist(kl: Seq<KeyEntry>, last: (i64, i64), r: (int, int)) -> int {
    end_pos(kl, last, r.1).0 - kl[r.0].line
}

/// A flagged vertical run: its token, length and distance.
pub open spec fn vertical_finding(kl: Seq<KeyEntry>, last: (i64, i64), cfg: Config, r: (int, int)) -> Option<
    (Seq<char>, int, int),
> {
    if category(run_tok(kl, r)) == 0 && run_len(r) >= cfg.vmin {
        Some((run_tok(kl, r), run_len(r), abs(run_dist(kl, last, r))))
    } else {
        None
    }
}

/// The character a horizontal run landed on, read from the line text of its
/// last keystroke at the column the cursor reached, unless it is a space.
pub open spec fn landing(kl: Seq<KeyEntry>, last: (i64, i64), r: (int, int)) -> Option<char> {
    let ec = end_pos(kl, last, r.1).1;
    match opt_view(kl[r.1].text) {
        None => None,
        Some(t) => {
            if ec < 0 {
                None
            } else {
                match char_at_byte(t, (ec as usize) as int) {
                    Some(c) => if c == ' ' {
                        None
                    } else {
                        Some(c)
                    },
                    None => None,
                }
            }
        },
    }
}

/// A flagged horizontal run: its length and landing character.
pub open spec fn horizontal_finding(kl: Seq<KeyEntry>, last: (i64, i64), cfg: Config, r: (int, int)) -> Option<
    (int, Option<char>),
> {
    if category(run_tok(kl, r)) == 1 && run_len(r) >= cfg.hmin {
        Some((run_len(r), landing(kl, last, r)))
    } else {
        None
    }
}

/// A flagged run of `x`: its length.
pub open spec fn x_finding(kl: Seq<KeyEntry>, cfg: Config, r: (int, int)) -> Option<int> {
    if category(run_tok(kl, r)) == 2 && run_len(r) >= cfg.xmin {
        Some(run_len(r))
    } else {
        None
    }
}

/// A flagged run of `dd`: a literal `dd` is two `d` tokens, so a run of `d`
/// holds half its length in `dd`s, flagged from two on.
pub open spec fn dd_finding(kl: Seq<KeyEntry>, r: (int, int)) -> Option<int> {
    if category(run_tok(kl, r)) == 3 && run_len(r) / 2 >= 2 {
        Some(run_len(r) / 2)
    } else {
        None
    }
}

/// A flagged chain of word motions: its length, from five on.
pub open spec fn word_finding(kl: Seq<KeyEntry>, r: (int, int)) -> Option<int> {
    if category(run_tok(kl, r)) == 4 && run_len(r) >= 5 {
        Some(run_len(r))
    } else {
        None
    }
}

/// A flagged undo streak: its length, from four on.
pub open spec fn undo_finding(kl: Seq<KeyEntry>, r: (int, int)) -> Option<int> {
    if category(run_tok(kl, r)) == 5 && run_len(r) >= 4 {
        Some(run_len(r))
    } else {
        None
    }
}

/// Keystrokes a flagged run wasted over its optimal replacement: about 3
/// for a counted vertical jump or a word-motion chain, 2 for a horizontal
/// jump or a counted `x`, 1 for a counted `dd`.
pub open spec fn run_waste(kl: Seq<KeyEntry>, cfg: Config, r: (int, int)) -> int {
    let c = category(run_tok(kl, r));
    let n = run_len(r);
    if c == 0 {
        if n >= cfg.vmin {
            max0(n - 3)
        } else {
            0
        }
    } else if c == 1 {
        if n >= cfg.hmin {
            max0(n - 2)
        } else {
            0
        }
    } else if c == 2 {
        if n >= cfg.xmin {
            max0(n - 2)
        } else {
            0
        }
    } else if c == 3 {
        if n / 2 >= 2 {
            max0(n / 2 - 1)
        } else {
            0
        }
    } else if c == 4 {
        if n >= 5 {
            max0(n - 3)
        } else {
            0
        }
    } else {
        0
    }
}

/// Arrow keystrokes in a run of vertical or horizontal motions.
pub open spec fn run_arrows(kl: Seq<KeyEntry>, r: (int, int)) -> int {
    let t = run_tok(kl, r);
    if category(t) == 0 && (t == "<Up>"@ || t == "<Down>"@) {
        run_len(r)
    } else if category(t) == 1 && (t == "<Left>"@ || t == "<Right>"@) {
        run_len(r)
    } else {
        0
    }
}

/// `s` with the value of `o` appended, if any.
pub open spec fn push_some<A>(s: Seq<A>, o: Option<A>) -> Seq<A> {
    match o {
        Some(a) => s.push(a),
        None => s,
    }
}

/// The flagged vertical runs among `rs`, in order.
pub open spec fn vertical_findings(kl: Seq<KeyEntry>, last: (i64, i64), cfg: Config, rs: Seq<(int, int)>) -> Seq<
    (Seq<char>, int, int),
>
    decreases rs.len(),
{
    if rs.len() == 0 {
        seq![]
    } else {
        push_some(vertical_findings(kl, last, cfg, rs.drop_last()), vertical_finding(kl, last, cfg, rs.last()))
    }
}

/// The flagged horizontal runs among `rs`, in order.
pub open spec fn horizontal_findings(kl: Seq<KeyEntry>, last: (i64, i64), cfg: Config, rs: Seq<(int, int)>) -> Seq<
    (int, Option<char>),
>
    decreases rs.len(),
{
    if rs.len() == 0 {
        seq![]
    } else {
        push_some(
            horizontal_findings(kl, last, cfg, rs.drop_last()),
            horizontal_finding(kl, last, cfg, rs.last()),
        )
    }
}

/// The flagged `x` runs among `rs`, in order.
pub open spec fn x_findings(kl: Seq<KeyEntry>, cfg: Config, rs: Seq<(int, int)>) -> Seq<int>
    decreases rs.len(),
{
    if rs.len() == 0 {
        seq![]
    } else {
        push_some(x_findings(kl, cfg, rs.drop_last()), x_finding(kl, cfg, rs.last()))
    }
}

/// The flagged `dd` bursts among `rs`, in order.
pub open spec fn dd_findings(kl: Seq<KeyEntry>, rs: Seq<(int, int)>) -> Seq<int>
    decreases rs.len(),
{
    if rs.len() == 0 {
        seq![]
    } else {
        push_some(dd_findings(kl, rs.drop_last()), dd_finding(kl, rs.last()))
    }
}

/// The flagged word-motion chains among `rs`, in order.
pub open spec fn word_findings(kl: Seq<KeyEntry>, rs: Seq<(int, int)>) -> Seq<int>
    decreases rs.len(),
{
    if rs.len() == 0 {
        seq![]
    } else {
        push_some(word_findings(kl, rs.drop_last()), word_finding(kl, rs.last()))
    }
}

/// The flagged undo streaks among `rs`, in order.
pub open spec fn undo_findings(kl: Seq<KeyEntry>, rs: Seq<(int, int)>) -> Seq<int>
    decreases rs.len(),
{
    if rs.len() == 0 {
        seq![]
    } else {
        push_some(undo_findings(kl, rs.drop_last()), undo_finding(kl, rs.last()))
    }
}

/// Keystrokes wasted over the runs `rs`.
pub open spec fn total_waste(kl: Seq<KeyEntry>, cfg: Config, rs: Seq<(int, int)>) -> int
    decreases rs.len(),
{
    if rs.len() == 0 {
        0
    } else {
        total_waste(kl, cfg, rs.drop_last()) + run_waste(kl, cfg, rs.last())
    }
}

/// Arrow keystrokes over the runs `rs`.
pub open spec fn total_arrows(kl: Seq<KeyEntry>, rs: Seq<(int, int)>) -> int
    decreases rs.len(),
{
    if rs.len() == 0 {
        0
    } else {
        total_arrows(kl, rs.drop_last()) + run_arrows(kl, rs.last())
    }
}

/// The keystroke count as the efficiency score divides by it: at least 1.
pub open spec fn score_denominator(total: int) -> int {
    if total >= 1 {
        total
    } else {
        1
    }
}

/// A percentage clamped to `0..=100`.
pub open spec fn clamped(p: int) -> int {
    if p < 0 {
        0
    } else if p > 100 {
        100
    } else {
        p
    }
}

/// No vertical run travels a distance that `i64` cannot hold.
pub open spec fn distances_fit(kl: Seq<KeyEntry>, last: (i64, i64), cfg: Config) -> bool {
    forall|k: int|
        0 <= k < runs_of(kl).len() && category(run_tok(kl, #[trigger] runs_of(kl)[k])) == 0
            && run_len(runs_of(kl)[k]) >= cfg.vmin ==> i64::MIN < run_dist(kl, last, runs_of(kl)[k])
            <= i64::MAX
}

/// A vertical finding as token, length and distance.
pub open spec fn vrun_view(v: VRun) -> (Seq<char>, int, int) {
    (v.tok@, v.count as int, v.dist as int)
}

/// A horizontal finding as length and landing character.
pub open spec fn hrun_view(h: HRun) -> (int, Option<char>) {
    (h.count as int, h.ch)
}

/// A counted finding as its count.
pub open spec fn countable_view(c: Countable) -> int {
    c.count as int
}

/// A word-motion finding as its length.
pub open spec fn word_view(w: WordRun) -> int {
    w.count as int
}

/// The findings of a session, run by run: each maximal run of one repeated
/// token is flagged by its kind and length, the keystrokes it wasted are
/// summed, normal-mode arrow keystrokes are counted, and the efficiency
/// score is left to [`analyze`]'s caller.
pub open spec fn analysis_of(a: Analysis, s: Session, cfg: Config) -> bool {
    let kl = s.keylog@;
    let rs = runs_of(kl);
    &&& a.vertical@.map_values(|v: VRun| vrun_view(v)) == vertical_findings(kl, s.last_pos, cfg, rs)
    &&& a.horizontal@.map_values(|h: HRun| hrun_view(h)) == horizontal_findings(kl, s.last_pos, cfg, rs)
    &&& a.x_runs@.map_values(|c: Countable| countable_view(c)) == x_findings(kl, cfg, rs)
    &&& a.dd_runs@.map_values(|c: Countable| countable_view(c)) == dd_findings(kl, rs)
    &&& a.word_runs@.map_values(|w: WordRun| word_view(w)) == word_findings(kl, rs)
    &&& a.undo_runs@.map_values(|c: Countable| countable_view(c)) == undo_findings(kl, rs)
    &&& a.normal_arrows == total_arrows(kl, rs)
    &&& a.insert_arrows == s.insert_arrows as i64
    &&& a.total_keys == s.total_keys as i64
    &&& a.wasted == total_waste(kl, cfg, rs)
}

proof fn lemma_waste_bounded(kl: Seq<KeyEntry>, cfg: Config, r: (int, int))
    requires
        r.0 <= r.1,
    ensures
        0 <= run_waste(kl, cfg, r) <= run_len(r),
        0 <= run_arrows(kl, r) <= run_len(r),
{
}

/// A percentage clamped to `0..=100`.
fn clamp_percent(p: i64) -> (e: i64)
    ensures
        e == clamped(p as int),
{
    if p < 0 {
        0
    } else if p > 100 {
        100
    } else {
        p
    }
}

/// The findings gathered so far, after the runs `rs`.
pub open spec fn gathered(a: Analysis, kl: Seq<KeyEntry>, last: (i64, i64), cfg: Config, rs: Seq<(int, int)>) -> bool {
    &&& a.vertical@.map_values(|v: VRun| vrun_view(v)) == vertical_findings(kl, last, cfg, rs)
    &&& a.horizontal@.map_values(|h: HRun| hrun_view(h)) == horizontal_findings(kl, last, cfg, rs)
    &&& a.x_runs@.map_values(|c: Countable| countable_view(c)) == x_findings(kl, cfg, rs)
    &&& a.dd_runs@.map_values(|c: Countable| countable_view(c)) == dd_findings(kl, rs)
    &&& a.word_runs@.map_values(|w: WordRun| word_view(w)) == word_findings(kl, rs)
    &&& a.undo_runs@.map_values(|c: Countable| countable_view(c)) == undo_findings(kl, rs)
    &&& a.normal_arrows == total_arrows(kl, rs)
    &&& a.wasted == total_waste(kl, cfg, rs)
}

/// Fold one run into the findings.
fn absorb_run(a: &mut Analysis, kl: &Vec<KeyEntry>, last: (i64, i64), cfg: &Config, r: &Run)
    requires
        r.s <= r.e < kl@.len(),
        kl@.len() <= i64::MAX,
        r.tok@ == kl@[r.s as int].tok@,
        r.count == r.e - r.s + 1,
        0 <= old(a).normal_arrows <= r.s,
        0 <= old(a).wasted <= r.s,
        category(run_tok(kl@, (r.s as int, r.e as int))) == 0 && run_len((r.s as int, r.e as int))
            >= cfg.vmin ==> i64::MIN < run_dist(kl@, last, (r.s as int, r.e as int)) <= i64::MAX,
    ensures
        forall|rs: Seq<(int, int)>| gathered(*old(a), kl@, last, *cfg, rs) ==> gathered(
            *final(a),
            kl@,
            last,
            *cfg,
            #[trigger] rs.push((r.s as int, r.e as int)),
        ),
        0 <= final(a).normal_arrows <= r.e + 1,
        0 <= final(a).wasted <= r.e + 1,
        final(a).insert_arrows == old(a).insert_arrows,
        final(a).total_keys == old(a).total_keys,
        final(a).efficiency == old(a).efficiency,
{
    let ghost rr = (r.s as int, r.e as int);
    let ghost c = *cfg;
    let ghost va = a.vertical@;
    let ghost ha = a.horizontal@;
    let ghost xa = a.x_runs@;
    let ghost da = a.dd_runs@;
    let ghost wa = a.word_runs@;
    let ghost ua = a.undo_runs@;
    proof {
        lemma_waste_bounded(kl@, c, rr);
        assert forall|rs: Seq<(int, int)>| #![trigger rs.push(rr)] true implies rs.push(rr).drop_last()
            == rs && rs.push(rr).last() == rr by {
            assert(rs.push(rr).drop_last() =~= rs);
        }
    }
    let tok = chars_of(r.tok.as_str());
    let (el, ec) = if r.e < kl.len() - 1 {
        (kl[r.e + 1].line, kl[r.e + 1].col)
    } else {
        last
    };
    assert((el, ec) == end_pos(kl@, last, rr.1));
    if vertical(&tok) {
        if chars_are(&tok, "<Up>") || chars_are(&tok, "<Down>") {
            a.normal_arrows = a.normal_arrows + r.count;
        }
        if r.count >= cfg.vmin {
            let d = el - kl[r.s].line;
            let dist = if d < 0 {
                -d
            } else {
                d
            };
            a.vertical.push(VRun { tok: r.tok.clone(), count: r.count, dist });
            let w = if r.count - 3 > 0 {
                r.count - 3
            } else {
                0
            };
            a.wasted = a.wasted + w;
            proof {
                assert(a.vertical@.map_values(|v: VRun| vrun_view(v)) =~= va.map_values(
                    |v: VRun| vrun_view(v),
                ).push((r.tok@, r.count as int, dist as int)));
            }
        }
    } else if horizontal(&tok) {
        if chars_are(&tok, "<Left>") || chars_are(&tok, "<Right>") {
            a.normal_arrows = a.normal_arrows + r.count;
        }
        if r.count >= cfg.hmin {
            let ch: Option<char> = match &kl[r.e].text {
                None => None,
                Some(t) => {
                    if ec < 0 {
                        None
                    } else {
                        let tv = chars_of(t.as_str());
                        match char_at_byte_of(&tv, (ec as usize) as u64) {
                            Some(c) => if c == ' ' {
                                None
                            } else {
                                Some(c)
                            },
                            None => None,
                        }
                    }
                },
            };
            assert(ch == landing(kl@, last, rr));
            a.horizontal.push(HRun { count: r.count, ch });
            let w = if r.count - 2 > 0 {
                r.count - 2
            } else {
                0
            };
            a.wasted = a.wasted + w;
            proof {
                assert(a.horizontal@.map_values(|h: HRun| hrun_view(h)) =~= ha.map_values(
                    |h: HRun| hrun_view(h),
                ).push((r.count as int, ch)));
            }
        }
    } else if chars_are(&tok, "x") {
        if r.count >= cfg.xmin {
            a.x_runs.push(Countable { count: r.count });
            let w = if r.count - 2 > 0 {
                r.count - 2
            } else {
                0
            };
            a.wasted = a.wasted + w;
            proof {
                assert(a.x_runs@.map_values(|x: Countable| countable_view(x)) =~= xa.map_values(
                    |x: Countable| countable_view(x),
                ).push(r.count as int));
            }
        }
    } else if chars_are(&tok, "d") {
        let dds = r.count / 2;
        if dds >= 2 {
            a.dd_runs.push(Countable { count: dds });
            a.wasted = a.wasted + (dds - 1);
            proof {
                assert(a.dd_runs@.map_values(|x: Countable| countable_view(x)) =~= da.map_values(
                    |x: Countable| countable_view(x),
                ).push(dds as int));
            }
        }
    } else if wordwise(&tok) {
        if r.count >= 5 {
            a.word_runs.push(WordRun { count: r.count });
            a.wasted = a.wasted + (r.count - 3);
            proof {
                assert(a.word_runs@.map_values(|w: WordRun| word_view(w)) =~= wa.map_values(
                    |w: WordRun| word_view(w),
                ).push(r.count as int));
            }
        }
    } else if chars_are(&tok, "u") && r.count >= 4 {
        a.undo_runs.push(Countable { count: r.count });
        proof {
            assert(a.undo_runs@.map_values(|x: Countable| countable_view(x)) =~= ua.map_values(
                |x: Countable| countable_view(x),
            ).push(r.count as int));
        }
    }
}

/// Analyze a session: see [`analysis_of`]. The efficiency score is the
/// percentage that `percent` gives for the wasted keystrokes over the
/// keystroke count (at least 1), clamped to `0..=100`; the report rounds
/// `(1 - wasted / count) * 100` half up in double precision.
pub fn analyze(session: &Session, cfg: &Config, percent: impl Fn(i64, i64) -> i64) -> (a: Analysis)
    requires
        session.keylog@.len() <= i64::MAX,
        distances_fit(session.keylog@, session.last_pos, *cfg),
        forall|w: i64, d: i64| call_requires(percent, (w, d)),
    ensures
        analysis_of(a, *session, *cfg),
        exists|p: i64|
            call_ensures(percent, (a.wasted, score_denominator(a.total_keys as int) as i64), p)
                && a.efficiency == clamped(p as int),
        0 <= a.efficiency <= 100,
        0 <= a.wasted <= session.keylog@.len(),
        0 <= a.normal_arrows <= session.keylog@.len(),
{
    let kl = &session.keylog;
    let runs = find_runs(kl);
    let ghost rs = runs_of(kl@);
    let ghost c = *cfg;
    let ghost last = session.last_pos;
    proof {
        lemma_runs_partition(tokens(kl@), 0);
        assert forall|k: int| 0 <= k < runs@.len() implies (#[trigger] runs@[k]).s == rs[k].0
            && runs@[k].e == rs[k].1 by {
            assert(runs@.map_values(|r: Run| run_view(r))[k] == rs[k]);
        }
    }
    let mut a = Analysis {
        vertical: Vec::new(),
        horizontal: Vec::new(),
        x_runs: Vec::new(),
        dd_runs: Vec::new(),
        word_runs: Vec::new(),
        undo_runs: Vec::new(),
        normal_arrows: 0,
        insert_arrows: session.insert_arrows as i64,
        total_keys: session.total_keys as i64,
        wasted: 0,
        efficiency: 0,
    };
    proof {
        assert(rs.take(0) =~= Seq::<(int, int)>::empty());
        assert(a.vertical@.map_values(|v: VRun| vrun_view(v)) =~= Seq::<(Seq<char>, int, int)>::empty());
        assert(a.horizontal@.map_values(|h: HRun| hrun_view(h)) =~= Seq::<(int, Option<char>)>::empty());
        assert(a.x_runs@.map_values(|x: Countable| countable_view(x)) =~= Seq::<int>::empty());
        assert(a.dd_runs@.map_values(|x: Countable| countable_view(x)) =~= Seq::<int>::empty());
        assert(a.word_runs@.map_values(|x: WordRun| word_view(x)) =~= Seq::<int>::empty());
        assert(a.undo_runs@.map_values(|x: Countable| countable_view(x)) =~= Seq::<int>::empty());
    }
    let mut k: usize = 0;
    while k < runs.len()
        invariant
            k <= runs@.len(),
            runs@.len() == rs.len(),
            rs == runs_of(kl@),
            c == *cfg,
            last == session.last_pos,
            kl@.len() <= i64::MAX,
            distances_fit(kl@, last, c),
            partitions(tokens(kl@), 0, rs),
            forall|m: int|
                0 <= m < runs@.len() ==> (#[trigger] runs@[m]).s == rs[m].0 && runs@[m].e == rs[m].1
                    && runs@[m].tok@ == kl@[runs@[m].s as int].tok@ && runs@[m].count == runs@[m].e
                    - runs@[m].s + 1,
            gathered(a, kl@, last, c, rs.take(k as int)),
            a.insert_arrows == session.insert_arrows as i64,
            a.total_keys == session.total_keys as i64,
            0 <= a.normal_arrows <= (if k < rs.len() { rs[k as int].0 } else { kl@.len() as int }),
            0 <= a.wasted <= (if k < rs.len() { rs[k as int].0 } else { kl@.len() as int }),
        decreases runs@.len() - k,
    {
        let r = &runs[k];
        proof {
            assert(rs.take(k as int + 1) =~= rs.take(k as int).push(rs[k as int]));
            if k + 1 < rs.len() {
                assert(rs[k as int].1 + 1 == rs[k as int + 1].0);
            }
            assert(run_tok(kl@, rs[k as int]) == r.tok@);
            assert(distances_fit(kl@, last, c));
            if category(run_tok(kl@, rs[k as int])) == 0 && run_len(rs[k as int]) >= c.vmin {
                assert(i64::MIN < run_dist(kl@, last, rs[k as int]) <= i64::MAX);
            }
        }
        absorb_run(&mut a, kl, session.last_pos, cfg, r);
        k = k + 1;
    }
    proof {
        assert(rs.take(rs.len() as int) =~= rs);
    }
    let denom: i64 = if a.total_keys >= 1 {
        a.total_keys
    } else {
        1
    };
    let p = percent(a.wasted, denom);
    a.efficiency = clamp_percent(p);
    a
}

/// Number of the first `n` keystrokes that are arrow keys.
pub open spec fn arrow_count(kl: Seq<KeyEntry>, n: int) -> int
    decreases n,
{
    if n <= 0 {
        0
    } else {
        arrow_count(kl, n - 1) + if arrow_token(kl[n - 1].tok@) {
            1int
        } else {
            0int
        }
    }
}

proof fn lemma_arrow_count_run(kl: Seq<KeyEntry>, s: int, e: int)
    requires
        0 <= s <= e < kl.len(),
        forall|m: int| s <= m <= e ==> #[trigger] kl[m].tok@ == kl[s].tok@,
    ensures
        arrow_count(kl, e + 1) == arrow_count(kl, s) + if arrow_token(kl[s].tok@) {
            e - s + 1
        } else {
            0
        },
    decreases e - s,
{
    if e > s {
        lemma_arrow_count_run(kl, s, e - 1);
    }
    assert(kl[e].tok@ == kl[s].tok@);
}

proof fn lemma_run_arrows(kl: Seq<KeyEntry>, r: (int, int))
    ensures
        run_arrows(kl, r) == if arrow_token(run_tok(kl, r)) {
            run_len(r)
        } else {
            0
        },
{
    let t = run_tok(kl, r);
    if arrow_token(t) {
        reveal_strlit("j");
        reveal_strlit("k");
        reveal_strlit("<Up>");
        reveal_strlit("<Down>");
        reveal_strlit("<Left>");
        reveal_strlit("<Right>");
        if t == "<Left>"@ || t == "<Right>"@ {
            assert(t[1] == 'L' || t[1] == 'R');
            assert("<Down>"@[1] == 'D');
            assert(t.len() == 6 || t.len() == 7);
            assert("<Up>"@.len() == 4 && "j"@.len() == 1 && "k"@.len() == 1);
            assert(t != "<Down>"@);
            assert(!vertical_token(t));
        }
    }
}

/// The normal-mode arrow count is the number of logged keystrokes that are
/// arrow keys.
pub proof fn lemma_arrows_counted(kl: Seq<KeyEntry>)
    ensures
        total_arrows(kl, runs_of(kl)) == arrow_count(kl, kl.len() as int),
{
    let t = tokens(kl);
    let rs = runs_of(kl);
    lemma_runs_partition(t, 0);
    assert forall|k: int| 0 <= k <= rs.len() implies total_arrows(kl, #[trigger] rs.take(k))
        == arrow_count(kl, if k < rs.len() { rs[k].0 } else { kl.len() as int }) by {
        lemma_arrows_prefix(kl, rs, k);
    }
    assert(rs.take(rs.len() as int) =~= rs);
}

proof fn lemma_arrows_prefix(kl: Seq<KeyEntry>, rs: Seq<(int, int)>, k: int)
    requires
        rs == runs_of(kl),
        partitions(tokens(kl), 0, rs),
        0 <= k <= rs.len(),
    ensures
        total_arrows(kl, rs.take(k)) == arrow_count(kl, if k < rs.len() { rs[k].0 } else { kl.len() as int }),
    decreases k,
{
    let t = tokens(kl);
    if k == 0 {
        assert(rs.take(0) =~= Seq::<(int, int)>::empty());
        if rs.len() > 0 {
            assert(rs[0].0 == 0);
        }
    } else {
        lemma_arrows_prefix(kl, rs, k - 1);
        let r = rs[k - 1];
        assert(rs.take(k).drop_last() =~= rs.take(k - 1));
        assert(rs.take(k).last() == r);
        assert forall|m: int| r.0 <= m <= r.1 implies #[trigger] kl[m].tok@ == kl[r.0].tok@ by {
            assert(t[m] == t[r.0]);
        }
        lemma_arrow_count_run(kl, r.0, r.1);
        lemma_run_arrows(kl, r);
        if k < rs.len() {
            assert(rs[k - 1].1 + 1 == rs[k].0);
        }
    }
}

/// Whether [`analyze`] can measure every flagged vertical run of the
/// session (see [`distances_fit`]).
pub fn distances_measurable(session: &Session, cfg: &Config) -> (r: bool)
    requires
        session.keylog@.len() <= i64::MAX,
    ensures
        r == distances_fit(session.keylog@, session.last_pos, *cfg),
{
    let kl = &session.keylog;
    let runs = find_runs(kl);
    let ghost rs = runs_of(kl@);
    proof {
        assert forall|k: int| 0 <= k < runs@.len() implies (#[trigger] runs@[k]).s == rs[k].0
            && runs@[k].e == rs[k].1 by {
            assert(runs@.map_values(|r: Run| run_view(r))[k] == rs[k]);
        }
        lemma_runs_partition(tokens(kl@), 0);
    }
    let mut k: usize = 0;
    while k < runs.len()
        invariant
            k <= runs@.len(),
            runs@.len() == rs.len(),
            kl@ == session.keylog@,
            rs == runs_of(kl@),
            partitions(tokens(kl@), 0, rs),
            forall|m: int|
                0 <= m < runs@.len() ==> (#[trigger] runs@[m]).s == rs[m].0 && runs@[m].e == rs[m].1
                    && runs@[m].tok@ == kl@[runs@[m].s as int].tok@ && runs@[m].count == runs@[m].e
                    - runs@[m].s + 1,
            forall|m: int|
                0 <= m < k && category(run_tok(kl@, #[trigger] rs[m])) == 0 && run_len(rs[m]) >= cfg.vmin
                    ==> i64::MIN < run_dist(kl@, session.last_pos, rs[m]) <= i64::MAX,
        decreases runs@.len() - k,
    {
        let r = &runs[k];
        let tok = chars_of(r.tok.as_str());
        assert(run_tok(kl@, rs[k as int]) == tok@);
        if vertical(&tok) && r.count >= cfg.vmin {
            let el: i64 = if r.e < kl.len() - 1 {
                kl[r.e + 1].line
            } else {
                session.last_pos.0
            };
            let d: i128 = el as i128 - kl[r.s].line as i128;
            if !(d > i64::MIN as i128 && d <= i64::MAX as i128) {
                proof {
                    assert(end_pos(kl@, session.last_pos, rs[k as int].1).0 == el);
                    assert(run_dist(kl@, session.last_pos, runs_of(kl@)[k as int]) == d);
                    assert(category(run_tok(kl@, runs_of(kl@)[k as int])) == 0);
                }
                return false;
            }
        }
        k = k + 1;
    }
    true
}

proof fn lemma_word_findings_contain(kl: Seq<KeyEntry>, rs: Seq<(int, int)>, k: int)
    requires
        0 <= k < rs.len(),
        word_finding(kl, rs[k]) == Some(run_len(rs[k])),
    ensures
        word_findings(kl, rs).contains(run_len(rs[k])),
    decreases rs.len(),
{
    let pre = word_findings(kl, rs.drop_last());
    if k == rs.len() - 1 {
        assert(word_findings(kl, rs) == pre.push(run_len(rs[k])));
        assert(word_findings(kl, rs)[pre.len() as int] == run_len(rs[k]));
    } else {
        assert(rs.drop_last()[k] == rs[k]);
        lemma_word_findings_contain(kl, rs.drop_last(), k);
        let i = choose|i: int| 0 <= i < pre.len() && pre[i] == run_len(rs[k]);
        match word_finding(kl, rs.last()) {
            Some(x) => {
                assert(word_findings(kl, rs) == pre.push(x));
                assert(word_findings(kl, rs)[i] == pre[i]);
            },
            None => {
                assert(word_findings(kl, rs) == pre);
            },
        }
    }
}

proof fn lemma_total_waste_covers(kl: Seq<KeyEntry>, cfg: Config, rs: Seq<(int, int)>, k: int)
    requires
        0 <= k < rs.len(),
    ensures
        total_waste(kl, cfg, rs) >= run_waste(kl, cfg, rs[k]),
        total_waste(kl, cfg, rs) >= 0,
    decreases rs.len(),
{
    if rs.len() > 1 {
        if k < rs.len() - 1 {
            assert(rs.drop_last()[k] == rs[k]);
            lemma_total_waste_covers(kl, cfg, rs.drop_last(), k);
        } else {
            lemma_total_waste_covers(kl, cfg, rs.drop_last(), 0);
        }
    } else {
        assert(total_waste(kl, cfg, rs.drop_last()) == 0);
    }
}

/// A long chain of word motions is always flagged: in the analysis of any
/// session, every maximal run of five or more presses of one of `w`, `b`,
/// `e`, `W`, `B` or `E` is among the word-motion findings with its length,
/// and the estimated waste is at least that length less three.
pub proof fn lemma_word_chains_flagged(a: Analysis, s: Session, cfg: Config, k: int)
    requires
        analysis_of(a, s, cfg),
        0 <= k < runs_of(s.keylog@).len(),
        ({
            let t = run_tok(s.keylog@, runs_of(s.keylog@)[k]);
            t == "w"@ || t == "b"@ || t == "e"@ || t == "W"@ || t == "B"@ || t == "E"@
        }),
        run_len(runs_of(s.keylog@)[k]) >= 5,
    ensures
        exists|i: int| 0 <= i < a.word_runs@.len() && a.word_runs@[i].count == run_len(runs_of(s.keylog@)[k]),
        a.wasted >= run_len(runs_of(s.keylog@)[k]) - 3,
{
    reveal_strlit("j");
    reveal_strlit("k");
    reveal_strlit("<Down>");
    reveal_strlit("<Up>");
    reveal_strlit("l");
    reveal_strlit("h");
    reveal_strlit("<Right>");
    reveal_strlit("<Left>");
    reveal_strlit("x");
    reveal_strlit("d");
    reveal_strlit("w");
    reveal_strlit("b");
    reveal_strlit("e");
    reveal_strlit("W");
    reveal_strlit("B");
    reveal_strlit("E");
    let kl = s.keylog@;
    let rs = runs_of(kl);
    let r = rs[k];
    let t = run_tok(kl, r);
    assert(t.len() == 1 && (t[0] == 'w' || t[0] == 'b' || t[0] == 'e' || t[0] == 'W' || t[0] == 'B' || t[0]
        == 'E'));
    assert("j"@[0] == 'j' && "k"@[0] == 'k' && "l"@[0] == 'l' && "h"@[0] == 'h');
    assert("<Down>"@.len() != 1 && "<Up>"@.len() != 1 && "<Right>"@.len() != 1 && "<Left>"@.len() != 1);
    assert(!vertical_token(t));
    assert(!horizontal_token(t));
    assert(t != "x"@ && t != "d"@);
    assert(word_token(t));
    assert(category(t) == 4);
    lemma_word_findings_contain(kl, rs, k);
    let ws = a.word_runs@.map_values(|w: WordRun| word_view(w));
    assert(ws == word_findings(kl, rs));
    let i = choose|i: int| 0 <= i < ws.len() && ws[i] == run_len(r);
    assert(a.word_runs@[i].count == run_len(r));
    lemma_total_waste_covers(kl, cfg, rs, k);
}

proof fn lemma_fold_contains<A>(
    fold: spec_fn(Seq<(int, int)>) -> Seq<A>,
    f: spec_fn((int, int)) -> Option<A>,
    rs: Seq<(int, int)>,
    k: int,
    x: A,
)
    requires
        forall|q: Seq<(int, int)>| #[trigger] fold(q) == if q.len() == 0 {
            Seq::<A>::empty()
        } else {
            push_some(fold(q.drop_last()), f(q.last()))
        },
        0 <= k < rs.len(),
        f(rs[k]) == Some(x),
    ensures
        fold(rs).contains(x),
    decreases rs.len(),
{
    let pre = fold(rs.drop_last());
    assert(fold(rs) == push_some(pre, f(rs.last())));
    if k == rs.len() - 1 {
        assert(fold(rs) == pre.push(x));
        assert(fold(rs)[pre.len() as int] == x);
    } else {
        assert(rs.drop_last()[k] == rs[k]);
        lemma_fold_contains(fold, f, rs.drop_last(), k, x);
        let i = choose|i: int| 0 <= i < pre.len() && pre[i] == x;
        match f(rs.last()) {
            Some(y) => {
                assert(fold(rs) == pre.push(y));
                assert(fold(rs)[i] == pre[i]);
            },
            None => {},
        }
    }
}

/// The kind of motion each repeated key is: `j`, `k`, `<Down>`, `<Up>`
/// vertical; `l`, `h`, `<Right>`, `<Left>` horizontal; `x`; `d`; `w`, `b`,
/// `e`, `W`, `B`, `E` word motions; `u` undo.
proof fn lemma_token_kinds(t: Seq<char>)
    ensures
        (t == "j"@ || t == "k"@ || t == "<Down>"@ || t == "<Up>"@) ==> category(t) == 0,
        (t == "l"@ || t == "h"@ || t == "<Right>"@ || t == "<Left>"@) ==> category(t) == 1,
        t == "x"@ ==> category(t) == 2,
        t == "d"@ ==> category(t) == 3,
        (t == "w"@ || t == "b"@ || t == "e"@ || t == "W"@ || t == "B"@ || t == "E"@) ==> category(t) == 4,
        t == "u"@ ==> category(t) == 5,
{
    reveal_strlit("j");
    reveal_strlit("k");
    reveal_strlit("l");
    reveal_strlit("h");
    reveal_strlit("x");
    reveal_strlit("d");
    reveal_strlit("w");
    reveal_strlit("b");
    reveal_strlit("e");
    reveal_strlit("W");
    reveal_strlit("B");
    reveal_strlit("E");
    reveal_strlit("u");
    reveal_strlit("<Down>");
    reveal_strlit("<Up>");
    reveal_strlit("<Right>");
    reveal_strlit("<Left>");
    assert("j"@.len() == 1 && "j"@[0] == 'j');
    assert("k"@.len() == 1 && "k"@[0] == 'k');
    assert("l"@.len() == 1 && "l"@[0] == 'l');
    assert("h"@.len() == 1 && "h"@[0] == 'h');
    assert("x"@.len() == 1 && "x"@[0] == 'x');
    assert("d"@.len() == 1 && "d"@[0] == 'd');
    assert("w"@.len() == 1 && "w"@[0] == 'w');
    assert("b"@.len() == 1 && "b"@[0] == 'b');
    assert("e"@.len() == 1 && "e"@[0] == 'e');
    assert("W"@.len() == 1 && "W"@[0] == 'W');
    assert("B"@.len() == 1 && "B"@[0] == 'B');
    assert("E"@.len() == 1 && "E"@[0] == 'E');
    assert("u"@.len() == 1 && "u"@[0] == 'u');
    assert("<Down>"@.len() == 6 && "<Up>"@.len() == 4 && "<Right>"@.len() == 7 && "<Left>"@.len() == 6);
    assert("<Down>"@[1] == 'D' && "<Left>"@[1] == 'L');
}

/// Long runs are always flagged, each by its kind: in the analysis of any
/// session, a maximal run of `n` presses of one key is among the findings
/// whenever it is long enough: a vertical run (`j`, `k`, `<Down>`, `<Up>`)
/// of at least `vmin` with its key, a horizontal run (`l`, `h`, `<Right>`,
/// `<Left>`) of at least `hmin`, an `x` run of at least `xmin`, a `d` run
/// holding at least two `dd`s (as `n / 2` of them), an undo (`u`) streak of
/// at least four. The estimated waste then covers the run: at least `n - 3`
/// for a vertical run, `n - 2` for a horizontal or `x` run, `n / 2 - 1`
/// for `dd`s.
pub proof fn lemma_long_runs_flagged(a: Analysis, s: Session, cfg: Config, k: int)
    requires
        analysis_of(a, s, cfg),
        0 <= k < runs_of(s.keylog@).len(),
    ensures
        ({
            let kl = s.keylog@;
            let r = runs_of(kl)[k];
            let t = run_tok(kl, r);
            let n = run_len(r);
            &&& (t == "j"@ || t == "k"@ || t == "<Down>"@ || t == "<Up>"@) && n >= cfg.vmin ==> (exists|i: int|
                0 <= i < a.vertical@.len() && a.vertical@[i].tok@ == t && a.vertical@[i].count == n)
                && a.wasted >= n - 3
            &&& (t == "l"@ || t == "h"@ || t == "<Right>"@ || t == "<Left>"@) && n >= cfg.hmin ==> (exists|i: int|
                0 <= i < a.horizontal@.len() && a.horizontal@[i].count == n) && a.wasted >= n - 2
            &&& t == "x"@ && n >= cfg.xmin ==> (exists|i: int| 0 <= i < a.x_runs@.len() && a.x_runs@[i].count == n)
                && a.wasted >= n - 2
            &&& t == "d"@ && n / 2 >= 2 ==> (exists|i: int|
                0 <= i < a.dd_runs@.len() && a.dd_runs@[i].count == n / 2) && a.wasted >= n / 2 - 1
            &&& t == "u"@ && n >= 4 ==> exists|i: int| 0 <= i < a.undo_runs@.len() && a.undo_runs@[i].count == n
        }),
{
    let kl = s.keylog@;
    let rs = runs_of(kl);
    let r = rs[k];
    let t = run_tok(kl, r);
    let n = run_len(r);
    let last = s.last_pos;
    lemma_token_kinds(t);
    lemma_total_waste_covers(kl, cfg, rs, k);
    if category(t) == 0 && n >= cfg.vmin {
        let fv = |q: (int, int)| vertical_finding(kl, last, cfg, q);
        let x = (t, n, abs(run_dist(kl, last, r)));
        lemma_fold_contains(|q: Seq<(int, int)>| vertical_findings(kl, last, cfg, q), fv, rs, k, x);
        let vs = a.vertical@.map_values(|v: VRun| vrun_view(v));
        let i = choose|i: int| 0 <= i < vs.len() && vs[i] == x;
        assert(a.vertical@[i].tok@ == t && a.vertical@[i].count == n);
    }
    if category(t) == 1 && n >= cfg.hmin {
        let x = (n, landing(kl, last, r));
        lemma_fold_contains(
            |q: Seq<(int, int)>| horizontal_findings(kl, last, cfg, q),
            |q: (int, int)| horizontal_finding(kl, last, cfg, q),
            rs,
            k,
            x,
        );
        let hs = a.horizontal@.map_values(|h: HRun| hrun_view(h));
        let i = choose|i: int| 0 <= i < hs.len() && hs[i] == x;
        assert(a.horizontal@[i].count == n);
    }
    if category(t) == 2 && n >= cfg.xmin {
        lemma_fold_contains(
            |q: Seq<(int, int)>| x_findings(kl, cfg, q),
            |q: (int, int)| x_finding(kl, cfg, q),
            rs,
            k,
            n,
        );
        let xs = a.x_runs@.map_values(|c: Countable| countable_view(c));
        let i = choose|i: int| 0 <= i < xs.len() && xs[i] == n;
        assert(a.x_runs@[i].count == n);
    }
    if category(t) == 3 && n / 2 >= 2 {
        lemma_fold_contains(|q: Seq<(int, int)>| dd_findings(kl, q), |q: (int, int)| dd_finding(kl, q), rs, k, n / 2);
        let ds = a.dd_runs@.map_values(|c: Countable| countable_view(c));
        let i = choose|i: int| 0 <= i < ds.len() && ds[i] == n / 2;
        assert(a.dd_runs@[i].count == n / 2);
    }
    if category(t) == 5 && n >= 4 {
        lemma_fold_contains(|q: Seq<(int, int)>| undo_findings(kl, q), |q: (int, int)| undo_finding(kl, q), rs, k, n);
        let us = a.undo_runs@.map_values(|c: Countable| countable_view(c));
        let i = choose|i: int| 0 <= i < us.len() && us[i] == n;
        assert(a.undo_runs@[i].count == n);
    }
}

} // verus!

//! Session state: every forwarded keystroke, cursor move and visited file is
//! folded into a [`Session`], which the analyzer later consumes.

use vstd::prelude::*;

use crate::text::{chars_are, chars_eq, chars_of, opt_view};

verus! {

broadcast use vstd::string::group_string_axioms;

/// The arrow-key tokens, flagged both in normal mode and (separately) in
/// insert mode.
pub open spec fn arrow_token(t: Seq<char>) -> bool {
    t == "<Up>"@ || t == "<Down>"@ || t == "<Left>"@ || t == "<Right>"@
}

/// Tokens whose surrounding line text is kept, so the analyzer can suggest
/// `f`/`t`/search targets for horizontal motions.
pub open spec fn text_token(t: Seq<char>) -> bool {
    t == "l"@ || t == "h"@ || t == "<Right>"@ || t == "<Left>"@ || t == "w"@ || t == "b"@
        || t == "e"@ || t == "W"@ || t == "B"@ || t == "E"@
}

/// Whether `tok` is an arrow key.
pub fn is_arrow(tok: &str) -> (r: bool)
    ensures
        r == arrow_token(tok@),
{
    let v = chars_of(tok);
    chars_are(&v, "<Up>") || chars_are(&v, "<Down>") || chars_are(&v, "<Left>") || chars_are(
        &v,
        "<Right>",
    )
}

/// Whether the line under the cursor is worth keeping for `tok`.
pub fn keep_text(tok: &str) -> (r: bool)
    ensures
        r == text_token(tok@),
{
    let v = chars_of(tok);
    chars_are(&v, "l") || chars_are(&v, "h") || chars_are(&v, "<Right>") || chars_are(&v, "<Left>")
        || chars_are(&v, "w") || chars_are(&v, "b") || chars_are(&v, "e") || chars_are(&v, "W")
        || chars_are(&v, "B") || chars_are(&v, "E")
}

/// Coarse mode bucket, derived from Neovim's mode string.
#[derive(Clone, Copy, Debug, PartialEq, Eq, Structural)]
pub enum Kind {
    Normal,
    Visual,
    Insert,
    Other,
}

/// The bucket of a mode string, decided by its first character: `n` is
/// normal; `v`, `V`, `<C-v>`, `s`, `S` and `<C-s>` are visual (or select);
/// `i` is insert; anything else, the empty string included, is other.
pub open spec fn kind_of(mode: Seq<char>) -> Kind {
    if mode.len() == 0 {
        Kind::Other
    } else {
        let c = mode[0];
        if c == 'n' {
            Kind::Normal
        } else if c == 'v' || c == 'V' || c == '\u{16}' || c == 's' || c == 'S' || c == '\u{13}' {
            Kind::Visual
        } else if c == 'i' {
            Kind::Insert
        } else {
            Kind::Other
        }
    }
}

/// Reduce Neovim's mode string to a coarse bucket.
pub fn classify(mode: &str) -> (k: Kind)
    ensures
        k == kind_of(mode@),
{
    let v = chars_of(mode);
    if v.len() == 0 {
        return Kind::Other;
    }
    let c = v[0];
    if c == 'n' {
        Kind::Normal
    } else if c == 'v' || c == 'V' || c == '\u{16}' || c == 's' || c == 'S' || c == '\u{13}' {
        Kind::Visual
    } else if c == 'i' {
        Kind::Insert
    } else {
        Kind::Other
    }
}

/// One recorded normal/visual-mode keystroke, with the cursor position it
/// started from. `text` is the line under the cursor, kept only for the
/// tokens of [`keep_text`].
pub struct KeyEntry {
    pub tok: String,
    pub line: i64,
    pub col: i64,
    pub text: Option<String>,
}

/// Tunables, supplied by the editor side at setup time.
pub struct Config {
    pub output_dir: String,
    pub min_keys: i64,
    pub vmin: i64,
    pub hmin: i64,
    pub xmin: i64,
}

impl Default for Config {
    fn default() -> (c: Self)
        ensures
            c.output_dir@ == "."@,
            c.min_keys == 20,
            c.vmin == 3,
            c.hmin == 5,
            c.xmin == 3,
    {
        Config { output_dir: ".".to_owned(), min_keys: 20, vmin: 3, hmin: 5, xmin: 3 }
    }
}

/// A wall-clock reading: whole seconds since the Unix epoch and the
/// nanoseconds past that second.
#[derive(Clone, Copy, Debug, PartialEq, Eq, Structural)]
pub struct Timestamp {
    pub secs: i64,
    pub nanos: u32,
}

/// Strict order of strings: by characters, a proper prefix first (the order
/// of `String`, since UTF-8 preserves the order of code points).
pub open spec fn str_lt(a: Seq<char>, b: Seq<char>) -> bool
    decreases a.len(),
{
    if a.len() == 0 {
        b.len() > 0
    } else if b.len() == 0 {
        false
    } else if a[0] != b[0] {
        a[0] < b[0]
    } else {
        str_lt(a.drop_first(), b.drop_first())
    }
}

/// The characters of each string of a list.
pub open spec fn views(v: Seq<String>) -> Seq<Seq<char>> {
    v.map_values(|s: String| s@)
}

/// Strictly increasing, hence free of duplicates.
pub open spec fn strictly_sorted(s: Seq<Seq<char>>) -> bool {
    forall|i: int, j: int| 0 <= i < j < s.len() ==> str_lt(#[trigger] s[i], #[trigger] s[j])
}

/// `str_lt` never relates a string to itself.
pub proof fn lemma_str_lt_irreflexive(a: Seq<char>)
    ensures
        !str_lt(a, a),
    decreases a.len(),
{
    if a.len() > 0 {
        lemma_str_lt_irreflexive(a.drop_first());
    }
}

/// `str_lt` is transitive.
pub proof fn lemma_str_lt_transitive(a: Seq<char>, b: Seq<char>, c: Seq<char>)
    requires
        str_lt(a, b),
        str_lt(b, c),
    ensures
        str_lt(a, c),
    decreases a.len(),
{
    if a.len() > 0 && b.len() > 0 && c.len() > 0 && a[0] == b[0] && b[0] == c[0] {
        lemma_str_lt_transitive(a.drop_first(), b.drop_first(), c.drop_first());
    }
}

/// Any two different strings are ordered one way or the other.
pub proof fn lemma_str_lt_total(a: Seq<char>, b: Seq<char>)
    ensures
        a == b || str_lt(a, b) || str_lt(b, a),
    decreases a.len(),
{
    if a.len() > 0 && b.len() > 0 {
        if a[0] == b[0] {
            lemma_str_lt_total(a.drop_first(), b.drop_first());
            if a.drop_first() == b.drop_first() {
                assert(a =~= seq![a[0]] + a.drop_first());
                assert(b =~= seq![b[0]] + b.drop_first());
            }
        }
    } else if a.len() == 0 && b.len() == 0 {
        assert(a =~= b);
    }
}

/// Whether `a` sorts strictly before `b`.
pub fn chars_lt(a: &Vec<char>, b: &Vec<char>) -> (r: bool)
    ensures
        r == str_lt(a@, b@),
{
    let mut i: usize = 0;
    assert(a@.skip(0) =~= a@ && b@.skip(0) =~= b@);
    while i < a.len() && i < b.len() && a[i] == b[i]
        invariant
            i <= a.len(),
            i <= b.len(),
            str_lt(a@, b@) == str_lt(a@.skip(i as int), b@.skip(i as int)),
        decreases a.len() - i,
    {
        assert(a@.skip(i as int).drop_first() =~= a@.skip(i as int + 1));
        assert(b@.skip(i as int).drop_first() =~= b@.skip(i as int + 1));
        i = i + 1;
    }
    if i == a.len() {
        i < b.len()
    } else if i == b.len() {
        false
    } else {
        a[i] < b[i]
    }
}

/// Everything recorded for the current editing session.
pub struct Session {
    /// When the session started.
    pub start: Timestamp,
    /// Ordered stream of normal/visual keystrokes.
    pub keylog: Vec<KeyEntry>,
    /// Normal + visual keystrokes.
    pub total_keys: u64,
    /// Arrow keys pressed while in insert mode.
    pub insert_arrows: u64,
    /// Absolute paths of the files visited this session, in increasing order
    /// and each once.
    pub files: Vec<String>,
    /// Most recent cursor position, kept fresh by cursor moves.
    pub last_pos: (i64, i64),
}

/// What recording one keystroke does to a session's counters and log: an
/// insert-mode arrow is counted; a normal/visual keystroke is counted and
/// logged with its position, and with the line text only for the tokens of
/// [`keep_text`] and only when that text is non-empty; anything else is
/// ignored.
pub open spec fn recorded(
    old: &Session,
    new: &Session,
    tok: Seq<char>,
    mode: Seq<char>,
    line: i64,
    col: i64,
    text: Option<Seq<char>>,
) -> bool {
    &&& new.start == old.start
    &&& views(new.files@) == views(old.files@)
    &&& new.last_pos == old.last_pos
    &&& match kind_of(mode) {
        Kind::Insert => {
            &&& new.keylog@ == old.keylog@
            &&& new.total_keys == old.total_keys
            &&& new.insert_arrows == old.insert_arrows + if arrow_token(tok) {
                1int
            } else {
                0int
            }
        },
        Kind::Normal | Kind::Visual => {
            &&& new.insert_arrows == old.insert_arrows
            &&& new.total_keys == old.total_keys + 1
            &&& new.keylog@.len() == old.keylog@.len() + 1
            &&& new.keylog@.take(old.keylog@.len() as int) == old.keylog@
            &&& ({
                let e = new.keylog@.last();
                &&& e.tok@ == tok
                &&& e.line == line
                &&& e.col == col
                &&& opt_view(e.text) == if text_token(tok) && text.is_some()
                    && text.unwrap().len() > 0 {
                    text
                } else {
                    None
                }
            })
        },
        Kind::Other => {
            &&& new.keylog@ == old.keylog@
            &&& new.total_keys == old.total_keys
            &&& new.insert_arrows == old.insert_arrows
        },
    }
}

/// Only logged keystrokes are counted: when a session's keystroke count
/// matches its log, recording any keystroke keeps it so.
pub proof fn lemma_count_matches_log(
    old: Session,
    new: Session,
    tok: Seq<char>,
    mode: Seq<char>,
    line: i64,
    col: i64,
    text: Option<Seq<char>>,
)
    requires
        recorded(&old, &new, tok, mode, line, col, text),
        old.total_keys == old.keylog@.len(),
    ensures
        new.total_keys == new.keylog@.len(),
{
}

/// Logged line text is never empty, and only kept for the tokens of
/// [`keep_text`]: recording preserves this of every entry of the log.
pub proof fn lemma_text_kept_only_when_useful(
    old: Session,
    new: Session,
    tok: Seq<char>,
    mode: Seq<char>,
    line: i64,
    col: i64,
    text: Option<Seq<char>>,
)
    requires
        recorded(&old, &new, tok, mode, line, col, text),
        forall|k: int|
            0 <= k < old.keylog@.len() ==> (#[trigger] old.keylog@[k]).text is Some ==> text_token(
                old.keylog@[k].tok@,
            ) && opt_view(old.keylog@[k].text)->0.len() > 0,
    ensures
        forall|k: int|
            0 <= k < new.keylog@.len() ==> (#[trigger] new.keylog@[k]).text is Some ==> text_token(
                new.keylog@[k].tok@,
            ) && opt_view(new.keylog@[k].text)->0.len() > 0,
{
    assert forall|k: int| 0 <= k < new.keylog@.len() && (#[trigger] new.keylog@[k]).text is Some
        implies text_token(new.keylog@[k].tok@) && opt_view(new.keylog@[k].text)->0.len() > 0 by {
        if k < old.keylog@.len() {
            assert(new.keylog@[k] == new.keylog@.take(old.keylog@.len() as int)[k]);
        }
    }
}

/// Insert-mode text is ignored: a keystroke in insert mode never reaches the
/// log or the keystroke count; only an arrow key there is counted, apart.
pub proof fn lemma_insert_mode_not_logged(
    old: Session,
    new: Session,
    tok: Seq<char>,
    mode: Seq<char>,
    line: i64,
    col: i64,
    text: Option<Seq<char>>,
)
    requires
        recorded(&old, &new, tok, mode, line, col, text),
        kind_of(mode) == Kind::Insert,
    ensures
        new.keylog@ == old.keylog@,
        new.total_keys == old.total_keys,
        new.insert_arrows == old.insert_arrows + if arrow_token(tok) {
            1int
        } else {
            0int
        },
{
}

impl Session {
    /// A fresh session that started at the clock reading `start`.
    pub fn new(start: Timestamp) -> (s: Self)
        ensures
            s.start == start,
            s.keylog@.len() == 0,
            s.total_keys == 0,
            s.insert_arrows == 0,
            s.files@.len() == 0,
            s.last_pos == (1i64, 0i64),
    {
        Session {
            start,
            keylog: Vec::new(),
            total_keys: 0,
            insert_arrows: 0,
            files: Vec::new(),
            last_pos: (1, 0),
        }
    }

    /// Fold one forwarded keystroke into the session. `mode` is Neovim's raw
    /// mode string at the moment the key was pressed; `text` is the current
    /// line (empty when the editor side decided it wasn't worth sending).
    pub fn record_key(&mut self, tok: String, mode: &str, line: i64, col: i64, text: Option<String>)
        requires
            kind_of(mode@) == Kind::Insert && arrow_token(tok@) ==> old(self).insert_arrows
                < u64::MAX,
            kind_of(mode@) == Kind::Normal || kind_of(mode@) == Kind::Visual
                ==> old(self).total_keys < u64::MAX,
        ensures
            recorded(old(self), final(self), tok@, mode@, line, col, opt_view(text)),
    {
        match classify(mode) {
            Kind::Insert => {
                if is_arrow(tok.as_str()) {
                    self.insert_arrows = self.insert_arrows + 1;
                }
            },
            Kind::Normal | Kind::Visual => {
                self.total_keys = self.total_keys + 1;
                let text = if keep_text(tok.as_str()) {
                    match text {
                        Some(t) => {
                            if t.as_str().is_empty() {
                                None
                            } else {
                                Some(t)
                            }
                        },
                        None => None,
                    }
                } else {
                    None
                };
                self.keylog.push(KeyEntry { tok, line, col, text });
                assert(self.keylog@.take(old(self).keylog@.len() as int) =~= old(self).keylog@);
            },
            Kind::Other => {},
        }
    }

    /// Note a visited file. Empty paths are ignored; the list stays in
    /// increasing order with each path once.
    pub fn visit_file(&mut self, path: String)
        requires
            strictly_sorted(views(old(self).files@)),
        ensures
            strictly_sorted(views(final(self).files@)),
            views(final(self).files@).to_set() == if path@.len() == 0 {
                views(old(self).files@).to_set()
            } else {
                views(old(self).files@).to_set().insert(path@)
            },
            final(self).keylog@ == old(self).keylog@,
            final(self).total_keys == old(self).total_keys,
            final(self).insert_arrows == old(self).insert_arrows,
            final(self).last_pos == old(self).last_pos,
            final(self).start == old(self).start,
    {
        if path.as_str().is_empty() {
            return;
        }
        let p = chars_of(path.as_str());
        let ghost fs = views(self.files@);
        let mut i: usize = 0;
        while i < self.files.len()
            invariant
                i <= self.files.len(),
                fs == views(self.files@),
                p@ == path@,
                strictly_sorted(fs),
                forall|k: int| 0 <= k < i ==> str_lt(#[trigger] fs[k], p@),
            ensures
                i <= self.files.len(),
                fs == views(self.files@),
                forall|k: int| 0 <= k < i ==> str_lt(#[trigger] fs[k], p@),
                i < self.files.len() ==> !str_lt(fs[i as int], p@),
            decreases self.files.len() - i,
        {
            let f = chars_of(self.files[i].as_str());
            if !chars_lt(&f, &p) {
                break;
            }
            i = i + 1;
        }
        if i < self.files.len() {
            let f = chars_of(self.files[i].as_str());
            if chars_eq(&f, &p) {
                assert(fs.to_set().insert(path@) =~= fs.to_set()) by {
                    assert(fs[i as int] == path@);
                }
                return;
            }
            proof {
                lemma_str_lt_total(fs[i as int], path@);
            }
        }
        self.files.insert(i, path);
        proof {
            let nfs = views(self.files@);
            assert(nfs =~= fs.insert(i as int, path@));
            assert forall|a: int, b: int| 0 <= a < b < nfs.len() implies str_lt(
                #[trigger] nfs[a],
                #[trigger] nfs[b],
            ) by {
                if a < i && b == i {
                } else if a < i && b > i {
                    assert(str_lt(fs[a], fs[b - 1]));
                } else if a == i && b > i {
                    if b - 1 > i {
                        assert(str_lt(fs[i as int], fs[b - 1]));
                        lemma_str_lt_transitive(path@, fs[i as int], fs[b - 1]);
                    } else {
                        assert(nfs[b] == fs[i as int]);
                    }
                } else if a > i {
                    assert(str_lt(fs[a - 1], fs[b - 1]));
                } else {
                    assert(str_lt(fs[a], fs[b]));
                }
            }
            assert(nfs.to_set() =~= fs.to_set().insert(path@)) by {
                assert forall|x: Seq<char>| nfs.to_set().contains(x) == fs.to_set().insert(
                    path@,
                ).contains(x) by {
                    if nfs.contains(x) {
                        let k = choose|k: int| 0 <= k < nfs.len() && nfs[k] == x;
                        if k < i {
                            assert(fs[k] == x);
                        } else if k > i {
                            assert(fs[k - 1] == x);
                        }
                    }
                    if fs.contains(x) {
                        let k = choose|k: int| 0 <= k < fs.len() && fs[k] == x;
                        if k < i {
                            assert(nfs[k] == x);
                        } else {
                            assert(nfs[k + 1] == x);
                        }
                    }
                    if x == path@ {
                        assert(nfs[i as int] == x);
                    }
                }
            }
        }
    }
}

} // verus!

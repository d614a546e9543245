//! HTML for the report's prose: escaping, `code` spans and `**bold**`, and
//! bullet lists.

use vstd::prelude::*;

use crate::notation::{decipher, deciphered};
use crate::text::{
    chars_eq, chars_of, find_from, index_from, lemma_index_from, push_all, push_chars, push_str,
    slice_chars, string_of,
};

verus! {

broadcast use vstd::string::group_string_axioms;

/// The HTML escape of one character: `&`, `<` and `>` become entities.
pub open spec fn escape_char(c: char) -> Seq<char> {
    if c == '&' {
        "&amp;"@
    } else if c == '<' {
        "&lt;"@
    } else if c == '>' {
        "&gt;"@
    } else {
        seq![c]
    }
}

/// `s` with `&`, `<` and `>` replaced by their HTML entities.
pub open spec fn escaped(s: Seq<char>) -> Seq<char>
    decreases s.len(),
{
    if s.len() == 0 {
        seq![]
    } else {
        escaped(s.drop_last()) + escape_char(s.last())
    }
}

/// Escape characters for HTML.
pub fn escape_chars(v: &Vec<char>) -> (r: Vec<char>)
    ensures
        r@ == escaped(v@),
{
    let amp = chars_of("&amp;");
    let lt = chars_of("&lt;");
    let gt = chars_of("&gt;");
    let mut r: Vec<char> = Vec::new();
    let mut i: usize = 0;
    while i < v.len()
        invariant
            i <= v@.len(),
            amp@ == "&amp;"@,
            lt@ == "&lt;"@,
            gt@ == "&gt;"@,
            r@ == escaped(v@.take(i as int)),
        decreases v@.len() - i,
    {
        let c = v[i];
        if c == '&' {
            push_all(&mut r, &amp);
        } else if c == '<' {
            push_all(&mut r, &lt);
        } else if c == '>' {
            push_all(&mut r, &gt);
        } else {
            r.push(c);
        }
        assert(v@.take(i as int + 1).drop_last() =~= v@.take(i as int));
        assert(r@ =~= escaped(v@.take(i as int + 1)));
        i = i + 1;
    }
    assert(v@.take(v@.len() as int) =~= v@);
    r
}

/// Escape a string for HTML.
pub fn html_escape(s: &str) -> (r: String)
    ensures
        r@ == escaped(s@),
{
    let v = chars_of(s);
    let e = escape_chars(&v);
    string_of(&e)
}

/// The pieces of `s` between occurrences of `c`, from index `i` on
/// (`str::split` with a character).
pub open spec fn pieces_from(s: Seq<char>, c: char, i: int) -> Seq<Seq<char>>
    decreases s.len() - i,
{
    if i < 0 || i > s.len() {
        seq![]
    } else {
        let k = index_from(s, c, i);
        if k >= s.len() {
            seq![s.subrange(i, s.len() as int)]
        } else {
            proof {
                lemma_index_from(s, c, i);
            }
            seq![s.subrange(i, k)] + pieces_from(s, c, k + 1)
        }
    }
}

/// The first index at or after `i` where `**` starts, or `s.len()`.
pub open spec fn stars_from(s: Seq<char>, i: int) -> int
    decreases s.len() - i,
{
    if i < 0 || i + 1 >= s.len() {
        s.len() as int
    } else if s[i] == '*' && s[i + 1] == '*' {
        i
    } else {
        stars_from(s, i + 1)
    }
}

/// A `**` found starts inside the text, with its second star too.
pub proof fn lemma_stars_from(s: Seq<char>, i: int)
    requires
        0 <= i,
    ensures
        stars_from(s, i) == s.len() || (i <= stars_from(s, i) && stars_from(s, i) + 1 < s.len()),
    decreases s.len() - i,
{
    if i + 1 < s.len() && !(s[i] == '*' && s[i + 1] == '*') {
        lemma_stars_from(s, i + 1);
    }
}

/// The pieces of `s` between occurrences of `**`, from index `i` on
/// (`str::split("**")`: leftmost, non-overlapping).
pub open spec fn star_pieces_from(s: Seq<char>, i: int) -> Seq<Seq<char>>
    decreases s.len() - i,
{
    if i < 0 || i > s.len() {
        seq![]
    } else {
        let k = stars_from(s, i);
        if k >= s.len() {
            seq![s.subrange(i, s.len() as int)]
        } else {
            proof {
                lemma_stars_from(s, i);
            }
            seq![s.subrange(i, k)] + star_pieces_from(s, k + 2)
        }
    }
}

/// Odd-numbered pieces wrapped in `<strong>`.
pub open spec fn strong_pieces(ps: Seq<Seq<char>>) -> Seq<char>
    decreases ps.len(),
{
    if ps.len() == 0 {
        seq![]
    } else {
        strong_pieces(ps.drop_last()) + if (ps.len() - 1) % 2 == 1 {
            "<strong>"@ + ps.last() + "</strong>"@
        } else {
            ps.last()
        }
    }
}

/// What a code span shows: its plain-English reading, or the span itself.
pub open spec fn shown(seg: Seq<char>) -> Seq<char> {
    match deciphered(seg) {
        Some(g) => g,
        None => seg,
    }
}

/// The HTML of the `i`-th backtick-separated segment: odd ones are code
/// spans, even ones are prose with `**bold**`.
pub open spec fn segment_html(seg: Seq<char>, i: int) -> Seq<char> {
    if i % 2 == 1 {
        "<code>"@ + escaped(shown(seg)) + "</code>"@
    } else {
        strong_pieces(star_pieces_from(escaped(seg), 0))
    }
}

/// The HTML of backtick-separated segments, numbered from 0.
pub open spec fn segments_html(segs: Seq<Seq<char>>) -> Seq<char>
    decreases segs.len(),
{
    if segs.len() == 0 {
        seq![]
    } else {
        segments_html(segs.drop_last()) + segment_html(segs.last(), segs.len() - 1)
    }
}

/// The HTML of a line of report prose.
pub open spec fn inlined(s: Seq<char>) -> Seq<char> {
    segments_html(pieces_from(s, '`', 0))
}

/// Split at every occurrence of `c`.
pub fn split_on(v: &Vec<char>, c: char) -> (r: Vec<Vec<char>>)
    ensures
        r@.map_values(|p: Vec<char>| p@) == pieces_from(v@, c, 0),
{
    let mut r: Vec<Vec<char>> = Vec::new();
    let mut i: usize = 0;
    loop
        invariant
            i <= v@.len(),
            r@.map_values(|p: Vec<char>| p@) + pieces_from(v@, c, i as int) == pieces_from(v@, c, 0),
        decreases v@.len() - i,
    {
        let k = find_from(v, c, i);
        let piece = slice_chars(v, i, k);
        let ghost before = r@.map_values(|p: Vec<char>| p@);
        r.push(piece);
        assert(r@.map_values(|p: Vec<char>| p@) =~= before.push(piece@));
        if k == v.len() {
            assert(pieces_from(v@, c, i as int) =~= seq![piece@]);
            assert(r@.map_values(|p: Vec<char>| p@) =~= pieces_from(v@, c, 0));
            return r;
        }
        assert(before.push(piece@) + pieces_from(v@, c, k + 1) =~= before + (seq![piece@] + pieces_from(
            v@,
            c,
            k + 1,
        )));
        i = k + 1;
    }
}

fn find_stars(v: &Vec<char>, from: usize) -> (r: usize)
    requires
        from <= v@.len(),
    ensures
        r == stars_from(v@, from as int),
{
    let n = v.len();
    let mut i = from;
    while n > 0 && i < n - 1 && !(v[i] == '*' && v[i + 1] == '*')
        invariant
            n == v@.len(),
            from <= i <= v@.len(),
            stars_from(v@, from as int) == stars_from(v@, i as int),
        decreases v@.len() - i,
    {
        i = i + 1;
    }
    if n > 0 && i < n - 1 {
        i
    } else {
        n
    }
}

/// Split at every `**`.
pub fn split_on_stars(v: &Vec<char>) -> (r: Vec<Vec<char>>)
    ensures
        r@.map_values(|p: Vec<char>| p@) == star_pieces_from(v@, 0),
{
    let mut r: Vec<Vec<char>> = Vec::new();
    let mut i: usize = 0;
    loop
        invariant
            i <= v@.len(),
            r@.map_values(|p: Vec<char>| p@) + star_pieces_from(v@, i as int) == star_pieces_from(v@, 0),
        decreases v@.len() - i,
    {
        let k0 = find_stars(v, i);
        proof {
            lemma_stars_from(v@, i as int);
        }
        let k = k0;
        let piece = slice_chars(v, i, k);
        let ghost before = r@.map_values(|p: Vec<char>| p@);
        r.push(piece);
        assert(r@.map_values(|p: Vec<char>| p@) =~= before.push(piece@));
        if k == v.len() {
            assert(star_pieces_from(v@, i as int) =~= seq![piece@]);
            assert(r@.map_values(|p: Vec<char>| p@) =~= star_pieces_from(v@, 0));
            return r;
        }
        assert(before.push(piece@) + star_pieces_from(v@, k + 2) =~= before + (seq![piece@]
            + star_pieces_from(v@, k + 2)));
        i = k + 2;
    }
}

/// Escape HTML, then render `code` spans and **bold** to tags. Vim key
/// notation inside a code span is replaced with its plain-English reading.
pub fn inline(s: &str) -> (r: String)
    ensures
        r@ == inlined(s@),
{
    let v = chars_of(s);
    let segs = split_on(&v, '`');
    let ghost ss = segs@.map_values(|p: Vec<char>| p@);
    let mut out = String::new();
    let mut i: usize = 0;
    while i < segs.len()
        invariant
            i <= segs@.len(),
            ss == segs@.map_values(|p: Vec<char>| p@),
            ss == pieces_from(s@, '`', 0),
            out@ == segments_html(ss.take(i as int)),
        decreases segs@.len() - i,
    {
        let seg = &segs[i];
        let ghost before = out@;
        if i % 2 == 1 {
            assert(ss[i as int] == seg@);
            let seg_str = string_of(seg);
            let shown_text = match decipher(seg_str.as_str()) {
                Some(g) => g,
                None => seg_str,
            };
            let sv = chars_of(shown_text.as_str());
            let esc = escape_chars(&sv);
            push_str(&mut out, "<code>");
            push_chars(&mut out, &esc);
            push_str(&mut out, "</code>");
            assert(out@ =~= before + segment_html(seg@, i as int));
        } else {
            let esc = escape_chars(seg);
            let parts = split_on_stars(&esc);
            let ghost ps = parts@.map_values(|p: Vec<char>| p@);
            let mut j: usize = 0;
            while j < parts.len()
                invariant
                    j <= parts@.len(),
                    ps == parts@.map_values(|p: Vec<char>| p@),
                    out@ == before + strong_pieces(ps.take(j as int)),
                decreases parts@.len() - j,
            {
                let ghost mid = out@;
                if j % 2 == 1 {
                    push_str(&mut out, "<strong>");
                    push_chars(&mut out, &parts[j]);
                    push_str(&mut out, "</strong>");
                } else {
                    push_chars(&mut out, &parts[j]);
                }
                proof {
                    assert(ps.take(j as int + 1).drop_last() =~= ps.take(j as int));
                    assert(ps[j as int] == parts@[j as int]@);
                }
                j = j + 1;
            }
            assert(ps.take(ps.len() as int) =~= ps);
            assert(out@ == before + segment_html(seg@, i as int));
        }
        proof {
            assert(ss.take(i as int + 1).drop_last() =~= ss.take(i as int));
            assert(ss.take(i as int + 1).last() == seg@);
        }
        i = i + 1;
    }
    assert(ss.take(ss.len() as int) =~= ss);
    out
}

/// The item of a `  - ` bullet line.
pub open spec fn bullet_item(line: Seq<char>) -> Option<Seq<char>> {
    let p = "  - "@;
    if line.len() >= p.len() && line.take(p.len() as int) == p {
        Some(line.skip(p.len() as int))
    } else {
        None
    }
}

/// The HTML of a tip's lines so far, and whether a list is open.
pub open spec fn lines_fold(lines: Seq<Seq<char>>) -> (Seq<char>, bool)
    decreases lines.len(),
{
    if lines.len() == 0 {
        (seq![], false)
    } else {
        let (h, in_list) = lines_fold(lines.drop_last());
        let line = lines.last();
        match bullet_item(line) {
            Some(item) => (
                h + (if in_list {
                    seq![]
                } else {
                    "<ul>\n"@
                }) + "<li>"@ + inlined(item) + "</li>\n"@,
                true,
            ),
            None => (
                h + (if in_list {
                    "</ul>\n"@
                } else {
                    seq![]
                }) + "<p>"@ + inlined(line) + "</p>\n"@,
                false,
            ),
        }
    }
}

/// The HTML of a tip's lines: paragraphs, with consecutive `  - ` bullets
/// grouped into one list.
pub open spec fn lines_html(lines: Seq<Seq<char>>) -> Seq<char> {
    let (h, in_list) = lines_fold(lines);
    h + if in_list {
        "</ul>\n"@
    } else {
        seq![]
    }
}

/// Render a tip's flat line list into HTML, grouping `  - ` bullets into
/// lists.
pub fn render_lines(lines: &Vec<String>, out: &mut String)
    ensures
        final(out)@ == old(out)@ + lines_html(lines@.map_values(|l: String| l@)),
{
    let ghost ls = lines@.map_values(|l: String| l@);
    let ghost start = out@;
    let prefix = chars_of("  - ");
    let mut in_list = false;
    let mut i: usize = 0;
    while i < lines.len()
        invariant
            i <= lines@.len(),
            ls == lines@.map_values(|l: String| l@),
            prefix@ == "  - "@,
            (out@, in_list) == (start + lines_fold(ls.take(i as int)).0, lines_fold(ls.take(i as int)).1),
        decreases lines@.len() - i,
    {
        let line = &lines[i];
        let v = chars_of(line.as_str());
        assert(v@ == ls[i as int]);
        let is_bullet = v.len() >= prefix.len() && {
            let head = slice_chars(&v, 0, prefix.len());
            chars_eq(&head, &prefix)
        };
        assert(is_bullet == (bullet_item(v@) is Some)) by {
            if v@.len() >= prefix@.len() {
                assert(v@.subrange(0, prefix@.len() as int) =~= v@.take(prefix@.len() as int));
            }
        }
        if is_bullet {
            if !in_list {
                push_str(out, "<ul>\n");
                in_list = true;
            }
            let item = slice_chars(&v, prefix.len(), v.len());
            assert(item@ =~= v@.skip(prefix@.len() as int));
            let item_str = string_of(&item);
            let h = inline(item_str.as_str());
            push_str(out, "<li>");
            push_str(out, h.as_str());
            push_str(out, "</li>\n");
        } else {
            if in_list {
                push_str(out, "</ul>\n");
                in_list = false;
            }
            let h = inline(line.as_str());
            push_str(out, "<p>");
            push_str(out, h.as_str());
            push_str(out, "</p>\n");
        }
        proof {
            assert(ls.take(i as int + 1).drop_last() =~= ls.take(i as int));
            assert(ls.take(i as int + 1).last() == ls[i as int]);
            let prev = lines_fold(ls.take(i as int));
            match bullet_item(ls[i as int]) {
                Some(item) => {
                    assert(out@ =~= start + (prev.0 + (if prev.1 { seq![] } else { "<ul>\n"@ })
                        + "<li>"@ + inlined(item) + "</li>\n"@));
                },
                None => {
                    assert(out@ =~= start + (prev.0 + (if prev.1 { "</ul>\n"@ } else { seq![] })
                        + "<p>"@ + inlined(ls[i as int]) + "</p>\n"@));
                },
            }
        }
        i = i + 1;
    }
    assert(ls.take(ls.len() as int) =~= ls);
    if in_list {
        push_str(out, "</ul>\n");
    }
    assert(out@ =~= start + lines_html(ls));
}

/// Escaping works character by character: escaping a concatenation
/// concatenates the escapes.
pub proof fn lemma_escaped_concat(a: Seq<char>, b: Seq<char>)
    ensures
        escaped(a + b) == escaped(a) + escaped(b),
    decreases b.len(),
{
    if b.len() == 0 {
        assert(a + b =~= a);
        assert(escaped(b) =~= Seq::<char>::empty());
        assert(escaped(a) + escaped(b) =~= escaped(a));
    } else {
        lemma_escaped_concat(a, b.drop_last());
        assert((a + b).drop_last() =~= a + b.drop_last());
        assert((a + b).last() == b.last());
        assert(escaped(a) + escaped(b.drop_last()) + escape_char(b.last()) =~= escaped(a) + (escaped(
            b.drop_last(),
        ) + escape_char(b.last())));
    }
}

/// Escaped text holds no `<` or `>`: markup in it cannot open or close a tag.
pub proof fn lemma_escaped_no_angles(s: Seq<char>)
    ensures
        forall|k: int| 0 <= k < escaped(s).len() ==> #[trigger] escaped(s)[k] != '<' && escaped(s)[k] != '>',
    decreases s.len(),
{
    if s.len() > 0 {
        lemma_escaped_no_angles(s.drop_last());
        reveal_strlit("&amp;");
        reveal_strlit("&lt;");
        reveal_strlit("&gt;");
        let p = escaped(s.drop_last());
        let e = escape_char(s.last());
        assert(escaped(s) == p + e);
        assert forall|k: int| 0 <= k < escaped(s).len() implies #[trigger] escaped(s)[k] != '<' && escaped(s)[k] != '>' by {
            if k < p.len() {
                assert(escaped(s)[k] == p[k]);
            } else {
                assert(escaped(s)[k] == e[k - p.len()]);
            }
        }
    }
}

/// Decoding the entities `&amp;`, `&lt;` and `&gt;` in one left-to-right
/// scan; every other character stands for itself.
pub open spec fn unescaped(t: Seq<char>) -> Seq<char>
    decreases t.len(),
{
    if t.len() == 0 {
        seq![]
    } else if t.len() >= 5 && t.take(5) == "&amp;"@ {
        seq!['&'] + unescaped(t.skip(5))
    } else if t.len() >= 4 && t.take(4) == "&lt;"@ {
        seq!['<'] + unescaped(t.skip(4))
    } else if t.len() >= 4 && t.take(4) == "&gt;"@ {
        seq!['>'] + unescaped(t.skip(4))
    } else {
        seq![t[0]] + unescaped(t.skip(1))
    }
}

proof fn lemma_unescape_step(c: char, t: Seq<char>)
    ensures
        unescaped(escape_char(c) + t) == seq![c] + unescaped(t),
{
    reveal_strlit("&amp;");
    reveal_strlit("&lt;");
    reveal_strlit("&gt;");
    let e = escape_char(c);
    let u = e + t;
    if c == '&' {
        assert(u.take(5) =~= "&amp;"@);
        assert(u.skip(5) =~= t);
    } else if c == '<' {
        if u.len() >= 5 {
            assert(u.take(5)[1] == 'l' && "&amp;"@[1] == 'a');
        }
        assert(u.take(4) =~= "&lt;"@);
        assert(u.skip(4) =~= t);
    } else if c == '>' {
        if u.len() >= 5 {
            assert(u.take(5)[1] == 'g' && "&amp;"@[1] == 'a');
        }
        assert(u.take(4)[1] == 'g' && "&lt;"@[1] == 'l');
        assert(u.take(4) =~= "&gt;"@);
        assert(u.skip(4) =~= t);
    } else {
        assert(u[0] == c);
        if u.len() >= 5 {
            assert(u.take(5)[0] == c);
        }
        if u.len() >= 4 {
            assert(u.take(4)[0] == c);
        }
        assert(u.skip(1) =~= t);
    }
}

/// Escaping loses nothing: decoding the entities of the escaped text, left
/// to right, gives back the original text.
pub proof fn lemma_unescape_escaped(s: Seq<char>)
    ensures
        unescaped(escaped(s)) == s,
    decreases s.len(),
{
    if s.len() > 0 {
        let rest = s.drop_first();
        assert(s =~= seq![s[0]] + rest);
        lemma_escaped_concat(seq![s[0]], rest);
        let one = seq![s[0]];
        assert(one.drop_last() =~= Seq::<char>::empty());
        assert(one.last() == s[0]);
        assert(escaped(one.drop_last()) == Seq::<char>::empty());
        assert(escaped(one) =~= escape_char(s[0]));
        lemma_unescape_step(s[0], escaped(rest));
        lemma_unescape_escaped(rest);
    }
}

proof fn lemma_no_separator(s: Seq<char>, c: char)
    requires
        forall|k: int| 0 <= k < s.len() ==> s[k] != c,
    ensures
        pieces_from(s, c, 0) == seq![s],
{
    lemma_index_from(s, c, 0);
    assert(s.subrange(0, s.len() as int) =~= s);
}

proof fn lemma_escaped_plain(w: Seq<char>)
    requires
        forall|k: int| 0 <= k < w.len() ==> w[k] != '&' && w[k] != '<' && w[k] != '>',
    ensures
        escaped(w) == w,
    decreases w.len(),
{
    if w.len() > 0 {
        lemma_escaped_plain(w.drop_last());
        assert(w.drop_last() + seq![w.last()] =~= w);
    } else {
        assert(w =~= Seq::<char>::empty());
    }
}

proof fn lemma_escaped_last(p: Seq<char>)
    requires
        p.len() > 0,
        p.last() != '*',
    ensures
        escaped(p).len() > 0,
        escaped(p).last() != '*',
{
    reveal_strlit("&amp;");
    reveal_strlit("&lt;");
    reveal_strlit("&gt;");
    let e = escape_char(p.last());
    assert(escaped(p) == escaped(p.drop_last()) + e);
    assert(e.len() > 0 && e.last() != '*');
    assert((escaped(p.drop_last()) + e).last() == e.last());
}

/// A `**` ahead does not move the first `**` found in text that does not
/// end in `*`.
proof fn lemma_stars_before(e: Seq<char>, t: Seq<char>, i: int)
    requires
        0 <= i <= e.len(),
        e.len() > 0 ==> e.last() != '*',
        t.len() >= 2,
        t[0] == '*' && t[1] == '*',
    ensures
        stars_from(e + t, i) == stars_from(e, i),
    decreases e.len() - i,
{
    let u = e + t;
    if i == e.len() {
        assert(u[i] == '*' && u[i + 1] == '*');
    } else if i + 1 == e.len() {
        assert(u[i] == e.last());
        lemma_stars_before(e, t, i + 1);
    } else {
        assert(u[i] == e[i] && u[i + 1] == e[i + 1]);
        lemma_stars_before(e, t, i + 1);
    }
}

proof fn lemma_no_stars(w: Seq<char>, m: int)
    requires
        0 <= m <= w.len(),
        forall|k: int| 0 <= k < w.len() ==> w[k] != '*',
    ensures
        stars_from(w, m) == w.len(),
    decreases w.len() - m,
{
    if m + 1 < w.len() {
        lemma_no_stars(w, m + 1);
    }
}

proof fn lemma_stars_shift(x: Seq<char>, y: Seq<char>, j: int)
    requires
        0 <= j <= y.len(),
    ensures
        stars_from(x + y, x.len() + j) == x.len() + stars_from(y, j),
    decreases y.len() - j,
{
    if j + 1 < y.len() {
        assert((x + y)[x.len() + j] == y[j] && (x + y)[x.len() + j + 1] == y[j + 1]);
        lemma_stars_shift(x, y, j + 1);
    }
}

proof fn lemma_star_pieces_shift(x: Seq<char>, y: Seq<char>, j: int)
    requires
        0 <= j <= y.len(),
    ensures
        star_pieces_from(x + y, x.len() + j) == star_pieces_from(y, j),
    decreases y.len() - j,
{
    lemma_stars_shift(x, y, j);
    lemma_stars_from(y, j);
    let k = stars_from(y, j);
    if k >= y.len() {
        assert((x + y).subrange(x.len() + j, (x + y).len() as int) =~= y.subrange(j, y.len() as int));
    } else {
        assert((x + y).subrange(x.len() + j, x.len() + k) =~= y.subrange(j, k));
        lemma_star_pieces_shift(x, y, k + 2);
    }
}

/// Splitting at `**` across a `**` that follows text not ending in `*`:
/// the pieces of the two sides, one after the other.
proof fn lemma_star_pieces_join(e: Seq<char>, r: Seq<char>, i: int)
    requires
        0 <= i <= e.len(),
        e.len() > 0 ==> e.last() != '*',
    ensures
        star_pieces_from(e + (seq!['*', '*'] + r), i) == star_pieces_from(e, i) + star_pieces_from(r, 0),
    decreases e.len() - i,
{
    let t = seq!['*', '*'] + r;
    let u = e + t;
    lemma_stars_before(e, t, i);
    lemma_stars_from(e, i);
    let k = stars_from(e, i);
    if k < e.len() {
        assert(u.subrange(i, k) =~= e.subrange(i, k));
        lemma_star_pieces_join(e, r, k + 2);
        assert(star_pieces_from(u, i) == seq![e.subrange(i, k)] + star_pieces_from(u, k + 2));
        assert(star_pieces_from(e, i) == seq![e.subrange(i, k)] + star_pieces_from(e, k + 2));
        assert(seq![e.subrange(i, k)] + (star_pieces_from(e, k + 2) + star_pieces_from(r, 0)) =~= seq![
            e.subrange(i, k),
        ] + star_pieces_from(e, k + 2) + star_pieces_from(r, 0));
    } else {
        let x = e + seq!['*', '*'];
        assert(u =~= x + r);
        lemma_star_pieces_shift(x, r, 0);
        assert(u.subrange(i, e.len() as int) =~= e.subrange(i, e.len() as int));
        assert(star_pieces_from(u, i) == seq![e.subrange(i, e.len() as int)] + star_pieces_from(u, (e.len() + 2) as int));
    }
}

proof fn lemma_inlined_without_code(s: Seq<char>)
    requires
        forall|k: int| 0 <= k < s.len() ==> s[k] != '`',
    ensures
        inlined(s) == strong_pieces(star_pieces_from(escaped(s), 0)),
{
    lemma_no_separator(s, '`');
    let ps = pieces_from(s, '`', 0);
    assert(ps.drop_last() =~= Seq::<Seq<char>>::empty());
    assert(ps.last() == s);
    assert(segments_html(Seq::<Seq<char>>::empty()) == Seq::<char>::empty());
    assert(inlined(s) =~= strong_pieces(star_pieces_from(escaped(s), 0)));
}

proof fn lemma_closing_pair_pieces(w: Seq<char>)
    requires
        forall|k: int| 0 <= k < w.len() ==> w[k] != '*',
    ensures
        star_pieces_from(w + seq!['*', '*'], 0) == seq![w, Seq::<char>::empty()],
{
    let empty = Seq::<char>::empty();
    assert(w + seq!['*', '*'] =~= w + (seq!['*', '*'] + empty));
    if w.len() > 0 {
        assert(w.last() != '*');
    }
    lemma_star_pieces_join(w, empty, 0);
    lemma_no_stars(w, 0);
    assert(w.subrange(0, w.len() as int) =~= w);
    assert(star_pieces_from(w, 0) == seq![w]);
    assert(empty.subrange(0, 0) =~= empty);
    assert(star_pieces_from(empty, 0) =~= seq![empty]);
    assert(seq![w] + seq![empty] =~= seq![w, empty]);
}

proof fn lemma_strong_pair(a: Seq<Seq<char>>, w: Seq<char>)
    requires
        a.len() % 2 == 1,
    ensures
        strong_pieces(a + seq![w, Seq::<char>::empty()]) == strong_pieces(a) + "<strong>"@ + w + "</strong>"@,
{
    let empty = Seq::<char>::empty();
    let ps = a + seq![w, empty];
    assert(ps.drop_last() =~= a.push(w));
    assert(a.push(w).drop_last() =~= a);
    assert(ps.last() == empty);
    assert(a.push(w).last() == w);
    assert(strong_pieces(ps) == strong_pieces(a.push(w)) + empty);
    assert(strong_pieces(a.push(w)) == strong_pieces(a) + ("<strong>"@ + w + "</strong>"@));
    assert(strong_pieces(ps) =~= strong_pieces(a) + "<strong>"@ + w + "</strong>"@);
}

/// Bold pairs do not depend on one another: after prose without code spans
/// that leaves no `**` open (and does not end in `*`), a further `**word**`
/// is rendered as `<strong>word</strong>`, whatever bold came before it.
pub proof fn lemma_bold_pair_appended(p: Seq<char>, w: Seq<char>)
    requires
        forall|k: int| 0 <= k < p.len() ==> p[k] != '`',
        p.len() > 0 ==> p.last() != '*',
        star_pieces_from(escaped(p), 0).len() % 2 == 1,
        forall|k: int|
            0 <= k < w.len() ==> w[k] != '`' && w[k] != '*' && w[k] != '&' && w[k] != '<' && w[k] != '>',
    ensures
        inlined(p + "**"@ + w + "**"@) == inlined(p) + "<strong>"@ + w + "</strong>"@,
{
    reveal_strlit("**");
    let st = seq!['*', '*'];
    assert("**"@ =~= st);
    let s = p + st + w + st;
    assert forall|k: int| 0 <= k < s.len() implies s[k] != '`' by {
        if k < p.len() {
            assert(s[k] == p[k]);
        } else if p.len() + 2 <= k < p.len() + 2 + w.len() {
            assert(s[k] == w[k - p.len() - 2]);
        }
    }
    lemma_inlined_without_code(s);
    lemma_inlined_without_code(p);
    lemma_escaped_plain(w);
    lemma_escaped_plain(st);
    lemma_escaped_concat(p, st);
    lemma_escaped_concat(p + st, w);
    lemma_escaped_concat(p + st + w, st);
    let e = escaped(p);
    if p.len() > 0 {
        lemma_escaped_last(p);
    } else {
        assert(p =~= Seq::<char>::empty());
        assert(e =~= Seq::<char>::empty());
    }
    let r = w + st;
    assert(escaped(s) =~= e + (st + r));
    lemma_star_pieces_join(e, r, 0);
    lemma_closing_pair_pieces(w);
    lemma_strong_pair(star_pieces_from(e, 0), w);
}

} // verus!

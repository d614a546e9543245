//! Naming and finding report files.

use vstd::prelude::*;

use crate::recorder::{lemma_str_lt_irreflexive, lemma_str_lt_total, lemma_str_lt_transitive, str_lt, views};
use crate::text::{chars_of, chars_eq, push_char, push_str, slice_chars};

verus! {

broadcast use vstd::string::group_string_axioms;

/// A report's file name: `mashless-…​.html`.
pub open spec fn report_name(name: Seq<char>) -> bool {
    let p = "mashless-"@;
    let s = ".html"@;
    name.len() >= p.len() && name.take(p.len() as int) == p && name.len() >= s.len() && name.skip(
        name.len() - s.len(),
    ) == s
}

/// Whether a file name is a report's.
pub fn is_report_name(name: &str) -> (r: bool)
    ensures
        r == report_name(name@),
{
    let v = chars_of(name);
    let p = chars_of("mashless-");
    let s = chars_of(".html");
    if v.len() < p.len() || v.len() < s.len() {
        return false;
    }
    let head = slice_chars(&v, 0, p.len());
    let tail = slice_chars(&v, v.len() - s.len(), v.len());
    assert(head@ =~= v@.take(p@.len() as int));
    assert(tail@ =~= v@.skip(v@.len() - s@.len()));
    chars_eq(&head, &p) && chars_eq(&tail, &s)
}

/// `i` names the newest report of `names`: a report whose name sorts last.
pub open spec fn newest(names: Seq<Seq<char>>, i: int) -> bool {
    &&& 0 <= i < names.len()
    &&& report_name(names[i])
    &&& forall|j: int|
        0 <= j < names.len() && report_name(#[trigger] names[j]) ==> names[j] == names[i] || str_lt(
            names[j],
            names[i],
        )
}

/// The newest report among the file names of a directory (the greatest
/// report name), or `None` when there is none.
pub fn newest_report(names: &Vec<String>) -> (r: Option<String>)
    ensures
        match r {
            Some(n) => exists|i: int| newest(views(names@), i) && views(names@)[i] == n@,
            None => forall|j: int| 0 <= j < names@.len() ==> !report_name(#[trigger] views(names@)[j]),
        },
{
    let ghost ns = views(names@);
    let mut best: Option<usize> = None;
    let mut i: usize = 0;
    while i < names.len()
        invariant
            i <= names@.len(),
            ns == views(names@),
            match best {
                Some(b) => b < i && report_name(ns[b as int]) && forall|j: int|
                    0 <= j < i && report_name(#[trigger] ns[j]) ==> ns[j] == ns[b as int] || str_lt(
                        ns[j],
                        ns[b as int],
                    ),
                None => forall|j: int| 0 <= j < i ==> !report_name(#[trigger] ns[j]),
            },
        decreases names@.len() - i,
    {
        assert(ns[i as int] == names@[i as int]@);
        if is_report_name(names[i].as_str()) {
            match best {
                None => {
                    best = Some(i);
                },
                Some(b) => {
                    let cur = chars_of(names[i].as_str());
                    let top = chars_of(names[b].as_str());
                    if crate::recorder::chars_lt(&top, &cur) {
                        proof {
                            assert forall|j: int| 0 <= j < i + 1 && report_name(#[trigger] ns[j]) implies ns[j]
                                == ns[i as int] || str_lt(ns[j], ns[i as int]) by {
                                if j < i {
                                    if ns[j] != ns[b as int] {
                                        lemma_str_lt_transitive(ns[j], ns[b as int], ns[i as int]);
                                    }
                                }
                            }
                        }
                        best = Some(i);
                    } else {
                        proof {
                            lemma_str_lt_total(ns[b as int], ns[i as int]);
                        }
                    }
                },
            }
        }
        i = i + 1;
    }
    match best {
        Some(b) => Some(names[b].clone()),
        None => None,
    }
}

/// The report just written is the one found newest: when the listing holds
/// the report name `n` and every report name in it is `n` or sorts before
/// it, a report is found, and it is `n`.
pub proof fn lemma_written_report_is_newest(names: Seq<Seq<char>>, n: Seq<char>)
    requires
        names.contains(n),
        report_name(n),
        forall|j: int| 0 <= j < names.len() && report_name(#[trigger] names[j]) ==> names[j] == n || str_lt(names[j], n),
    ensures
        exists|j: int| 0 <= j < names.len() && report_name(#[trigger] names[j]),
        forall|i: int| newest(names, i) ==> names[i] == n,
{
    let k = choose|k: int| 0 <= k < names.len() && names[k] == n;
    assert(report_name(names[k]));
    assert forall|i: int| newest(names, i) implies names[i] == n by {
        let m = names[i];
        assert(report_name(names[k]));
        if m != n {
            assert(str_lt(m, n));
            assert(names[k] == m || str_lt(names[k], m));
            assert(str_lt(n, m));
            lemma_str_lt_transitive(m, n, m);
            lemma_str_lt_irreflexive(m);
        }
    }
}

/// The `file://` URL of a local path, with spaces written `%20`.
pub open spec fn url_of(path: Seq<char>) -> Seq<char>
    decreases path.len(),
{
    if path.len() == 0 {
        "file://"@
    } else {
        url_of(path.drop_last()) + if path.last() == ' ' {
            "%20"@
        } else {
            seq![path.last()]
        }
    }
}

/// The URL a report is opened at in the browser.
pub fn file_url(path: &str) -> (r: String)
    ensures
        r@ == url_of(path@),
{
    let v = chars_of(path);
    let mut r = String::new();
    push_str(&mut r, "file://");
    let mut i: usize = 0;
    while i < v.len()
        invariant
            i <= v@.len(),
            r@ == url_of(v@.take(i as int)),
        decreases v@.len() - i,
    {
        if v[i] == ' ' {
            push_str(&mut r, "%20");
        } else {
            push_char(&mut r, v[i]);
        }
        assert(v@.take(i as int + 1).drop_last() =~= v@.take(i as int));
        i = i + 1;
    }
    assert(v@.take(v@.len() as int) =~= v@);
    r
}

} // verus!

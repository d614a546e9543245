//! Reading Vim key notation (`<C-o>`, `<CR>`, `<S-Tab>`, ...) as plain
//! English.

use vstd::prelude::*;

use crate::text::{
    byte_len, char_width, chars_are, chars_of, exceeds_two_bytes, lower, lower_chars, lower_seq,
    find_from, index_from, lemma_index_from, push_all, slice_chars, string_of, to_lower,
    utf8_width, opt_view,
};

verus! {

broadcast use vstd::string::group_string_axioms;

/// Plain-English name for a bare key mnemonic (the text inside `< >`, or a
/// chord's trailing key), compared without regard to ASCII case.
pub open spec fn key_name_of(s: Seq<char>) -> Option<Seq<char>> {
    let l = lower_seq(s);
    if l == "cr"@ || l == "return"@ || l == "enter"@ {
        Some("Enter"@)
    } else if l == "esc"@ {
        Some("Escape"@)
    } else if l == "tab"@ {
        Some("Tab"@)
    } else if l == "bs"@ {
        Some("Backspace"@)
    } else if l == "del"@ {
        Some("Delete"@)
    } else if l == "space"@ {
        Some("Space"@)
    } else if l == "up"@ {
        Some("Up arrow"@)
    } else if l == "down"@ {
        Some("Down arrow"@)
    } else if l == "left"@ {
        Some("Left arrow"@)
    } else if l == "right"@ {
        Some("Right arrow"@)
    } else if l == "home"@ {
        Some("Home"@)
    } else if l == "end"@ {
        Some("End"@)
    } else if l == "pageup"@ {
        Some("Page Up"@)
    } else if l == "pagedown"@ {
        Some("Page Down"@)
    } else if l == "leader"@ {
        Some("leader"@)
    } else {
        None
    }
}

/// The characters of an optional string slice.
pub open spec fn opt_str_view(o: Option<&str>) -> Option<Seq<char>> {
    match o {
        Some(s) => Some(s@),
        None => None,
    }
}

/// Plain-English name for a bare Vim key mnemonic; `None` for anything
/// unrecognised.
pub fn key_name(s: &str) -> (r: Option<&'static str>)
    ensures
        opt_str_view(r) == key_name_of(s@),
{
    let v = chars_of(s);
    let l = lower_chars(&v);
    if chars_are(&l, "cr") || chars_are(&l, "return") || chars_are(&l, "enter") {
        Some("Enter")
    } else if chars_are(&l, "esc") {
        Some("Escape")
    } else if chars_are(&l, "tab") {
        Some("Tab")
    } else if chars_are(&l, "bs") {
        Some("Backspace")
    } else if chars_are(&l, "del") {
        Some("Delete")
    } else if chars_are(&l, "space") {
        Some("Space")
    } else if chars_are(&l, "up") {
        Some("Up arrow")
    } else if chars_are(&l, "down") {
        Some("Down arrow")
    } else if chars_are(&l, "left") {
        Some("Left arrow")
    } else if chars_are(&l, "right") {
        Some("Right arrow")
    } else if chars_are(&l, "home") {
        Some("Home")
    } else if chars_are(&l, "end") {
        Some("End")
    } else if chars_are(&l, "pageup") {
        Some("Page Up")
    } else if chars_are(&l, "pagedown") {
        Some("Page Down")
    } else if chars_are(&l, "leader") {
        Some("leader")
    } else {
        None
    }
}

/// The modifier a prefix letter stands for: `c-` Ctrl, `s-` Shift, `m-` and
/// `a-` Alt, `d-` Cmd (letters in either case).
pub open spec fn modifier_of(c: char) -> Option<Seq<char>> {
    let l = lower(c);
    if l == 'c' {
        Some("Ctrl"@)
    } else if l == 's' {
        Some("Shift"@)
    } else if l == 'm' {
        Some("Alt"@)
    } else if l == 'a' {
        Some("Alt"@)
    } else if l == 'd' {
        Some("Cmd"@)
    } else {
        None
    }
}

/// The modifier named by the first two bytes of `cur`, if they are one of
/// the prefixes of [`modifier_of`] followed by `-`.
pub open spec fn modifier_prefix(cur: Seq<char>) -> Option<Seq<char>> {
    if cur.len() >= 2 && utf8_width(cur[0]) == 1 && cur[1] == '-' {
        modifier_of(cur[0])
    } else {
        None
    }
}

/// Stacked modifier prefixes peeled off the front of `cur` (only while more
/// than two bytes are left), and what remains. Peeling stops where the first
/// two bytes are not two whole characters.
pub open spec fn peel(cur: Seq<char>) -> (Seq<Seq<char>>, Seq<char>)
    decreases cur.len(),
{
    if byte_len(cur) > 2 && modifier_prefix(cur) is Some {
        let rest = peel(cur.skip(2));
        (seq![modifier_prefix(cur)->0] + rest.0, rest.1)
    } else {
        (seq![], cur)
    }
}

/// The words joined with `sep` between them.
pub open spec fn join(parts: Seq<Seq<char>>, sep: Seq<char>) -> Seq<char>
    decreases parts.len(),
{
    if parts.len() == 0 {
        seq![]
    } else if parts.len() == 1 {
        parts[0]
    } else {
        join(parts.drop_last(), sep) + sep + parts.last()
    }
}

/// The text inside a `<...>` token.
pub open spec fn inner_of(token: Seq<char>) -> Option<Seq<char>> {
    if token.len() >= 2 && token[0] == '<' && token.last() == '>' {
        Some(token.subrange(1, token.len() - 1))
    } else {
        None
    }
}

/// The readable name of a `<...>` token: a known key name, or stacked
/// modifiers joined by `-` with the trailing key (named when known, else
/// verbatim). `None` for anything else.
pub open spec fn expansion(token: Seq<char>) -> Option<Seq<char>> {
    match inner_of(token) {
        None => None,
        Some(inner) => {
            if inner.len() == 0 {
                None
            } else if key_name_of(inner) is Some {
                key_name_of(inner)
            } else {
                let (mods, rest) = peel(inner);
                if mods.len() == 0 {
                    None
                } else {
                    let key = match key_name_of(rest) {
                        Some(k) => k,
                        None => rest,
                    };
                    Some(join(mods.push(key), "-"@))
                }
            }
        },
    }
}

/// The characters of `parts` joined with those of `sep` between them.
pub fn join_chars(parts: &Vec<Vec<char>>, sep: &str) -> (r: Vec<char>)
    ensures
        r@ == join(parts@.map_values(|p: Vec<char>| p@), sep@),
{
    let ghost ps = parts@.map_values(|p: Vec<char>| p@);
    let sv = chars_of(sep);
    let mut r: Vec<char> = Vec::new();
    let mut i: usize = 0;
    while i < parts.len()
        invariant
            i <= parts@.len(),
            ps == parts@.map_values(|p: Vec<char>| p@),
            sv@ == sep@,
            r@ == join(ps.take(i as int), sep@),
        decreases parts@.len() - i,
    {
        let ghost before = r@;
        if i > 0 {
            let mut k: usize = 0;
            while k < sv.len()
                invariant
                    k <= sv@.len(),
                    r@ == before + sv@.take(k as int),
                decreases sv@.len() - k,
            {
                r.push(sv[k]);
                assert(sv@.take(k as int + 1) =~= sv@.take(k as int).push(sv@[k as int]));
                k = k + 1;
            }
            assert(sv@.take(sv@.len() as int) =~= sv@);
        }
        let ghost mid = r@;
        let p = &parts[i];
        let mut k: usize = 0;
        while k < p.len()
            invariant
                k <= p@.len(),
                r@ == mid + p@.take(k as int),
            decreases p@.len() - k,
        {
            r.push(p[k]);
            assert(p@.take(k as int + 1) =~= p@.take(k as int).push(p@[k as int]));
            k = k + 1;
        }
        proof {
            assert(p@.take(p@.len() as int) =~= p@);
            assert(ps.take(i as int + 1).drop_last() =~= ps.take(i as int));
            assert(ps.take(i as int + 1).last() == p@);
            if i == 0 {
                assert(before =~= Seq::<char>::empty());
                assert(r@ =~= p@);
            } else {
                assert(r@ =~= before + sep@ + p@);
            }
        }
        i = i + 1;
    }
    assert(ps.take(parts@.len() as int) =~= ps);
    r
}

/// The modifier a prefix letter stands for.
fn modifier(c: char) -> (r: Option<&'static str>)
    ensures
        opt_str_view(r) == modifier_of(c),
{
    let l = to_lower(c);
    if l == 'c' {
        Some("Ctrl")
    } else if l == 's' {
        Some("Shift")
    } else if l == 'm' {
        Some("Alt")
    } else if l == 'a' {
        Some("Alt")
    } else if l == 'd' {
        Some("Cmd")
    } else {
        None
    }
}

/// Translate a single `<...>` token into a readable name, expanding modifier
/// chords (`<C-o>` to `Ctrl-o`, `<C-S-Right>` to `Ctrl-Shift-Right arrow`).
/// `None` for tokens that are not recognised, so they are left verbatim.
pub fn expand_key(token: &str) -> (r: Option<String>)
    ensures
        match r {
            Some(v) => expansion(token@) == Some(v@),
            None => expansion(token@) is None,
        },
{
    let token = &chars_of(token);
    let n = token.len();
    if n < 2 || token[0] != '<' || token[n - 1] != '>' {
        return None;
    }
    let inner = slice_chars(token, 1, n - 1);
    if inner.len() == 0 {
        return None;
    }
    let inner_text = string_of(&inner);
    match key_name(inner_text.as_str()) {
        Some(name) => {
            return Some(name.to_owned());
        },
        None => {},
    }
    let mut parts: Vec<Vec<char>> = Vec::new();
    let mut p: usize = 0;
    assert(inner@.skip(0) =~= inner@);
    loop
        invariant
            p <= inner@.len(),
            peel(inner@) == (parts@.map_values(|q: Vec<char>| q@) + peel(inner@.skip(p as int)).0, peel(
                inner@.skip(p as int),
            ).1),
        ensures
            p <= inner@.len(),
            peel(inner@) == (parts@.map_values(|q: Vec<char>| q@) + peel(inner@.skip(p as int)).0, peel(
                inner@.skip(p as int),
            ).1),
            peel(inner@.skip(p as int)).0.len() == 0,
        decreases inner@.len() - p,
    {
        let ghost cur = inner@.skip(p as int);
        if !exceeds_two_bytes(&inner, p) {
            break;
        }
        let len = inner.len();
        if len - p < 2 {
            break;
        }
        let next = p + 2;
        let c0 = inner[p];
        let c1 = inner[p + 1];
        if char_width(c0) != 1 || c1 != '-' {
            break;
        }
        match modifier(c0) {
            Some(name) => {
                let ghost before = parts@.map_values(|q: Vec<char>| q@);
                parts.push(chars_of(name));
                proof {
                    assert(cur.skip(2) =~= inner@.skip(p as int + 2));
                    assert(parts@.map_values(|q: Vec<char>| q@) =~= before.push(name@));
                    assert(peel(cur) == (seq![name@] + peel(cur.skip(2)).0, peel(cur.skip(2)).1));
                    assert(before + (seq![name@] + peel(cur.skip(2)).0) =~= before.push(name@) + peel(
                        cur.skip(2),
                    ).0);
                }
                p = next;
            },
            None => {
                break;
            },
        }
    }
    let ghost cur = inner@.skip(p as int);
    assert(parts@.map_values(|q: Vec<char>| q@) =~= peel(inner@).0);
    if parts.len() == 0 {
        return None;
    }
    let rest = slice_chars(&inner, p, inner.len());
    assert(rest@ =~= cur);
    let rest_text = string_of(&rest);
    let key = match key_name(rest_text.as_str()) {
        Some(k) => chars_of(k),
        None => rest,
    };
    let ghost before = parts@.map_values(|q: Vec<char>| q@);
    parts.push(key);
    assert(parts@.map_values(|q: Vec<char>| q@) =~= before.push(key@));
    let joined = join_chars(&parts, "-");
    Some(string_of(&joined))
}

/// `out` followed by `piece`. Where `set_off` holds and the two meet without
/// white space on either side of the seam, one space is put between them.
pub open spec fn attach(out: Seq<char>, piece: Seq<char>, set_off: bool) -> Seq<char> {
    if set_off && out.len() > 0 && piece.len() > 0 && !is_space(out.last()) && !is_space(piece[0]) {
        out + seq![' '] + piece
    } else {
        out + piece
    }
}

/// Reading `s` from index `pos` on, after the reading `out` so far, whose
/// last piece was a key name when `after_name` holds. Each `<...>` token
/// (from a `<` to the first `>` after it) that [`expansion`] recognises is
/// replaced by its name, set off from the text it touches by one space
/// unless white space already separates them; unrecognised tokens and all
/// other text are kept as written. Also whether any token was recognised.
pub open spec fn gloss_at(s: Seq<char>, pos: int, out: Seq<char>, after_name: bool) -> (Seq<char>, bool)
    decreases s.len() - pos,
{
    if pos < 0 || pos > s.len() {
        (out, false)
    } else {
        let lt = index_from(s, '<', pos);
        let gt = index_from(s, '>', lt);
        if lt >= s.len() || gt >= s.len() {
            (attach(out, s.subrange(pos, s.len() as int), after_name), false)
        } else {
            proof {
                lemma_index_from(s, '<', pos);
                lemma_index_from(s, '>', lt);
            }
            let text = s.subrange(pos, lt);
            let token = s.subrange(lt, gt + 1);
            let before = attach(out, text, after_name);
            match expansion(token) {
                Some(name) => (gloss_at(s, gt + 1, attach(before, name, true), true).0, true),
                None => gloss_at(s, gt + 1, attach(before, token, after_name && text.len() == 0), false),
            }
        }
    }
}

/// Unicode white space (`char::is_whitespace`).
pub open spec fn is_space(c: char) -> bool {
    let u = c as u32;
    (0x09 <= u <= 0x0d) || u == 0x20 || u == 0x85 || u == 0xa0 || u == 0x1680 || (0x2000 <= u
        <= 0x200a) || u == 0x2028 || u == 0x2029 || u == 0x202f || u == 0x205f || u == 0x3000
}

/// The plain-English reading of a code span, if it holds any Vim key
/// notation that [`expansion`] recognises.
pub open spec fn deciphered(span: Seq<char>) -> Option<Seq<char>> {
    if index_from(span, '<', 0) >= span.len() {
        None
    } else if gloss_at(span, 0, seq![], false).1 {
        Some(gloss_at(span, 0, seq![], false).0)
    } else {
        None
    }
}

/// Whether `c` is white space.
pub fn is_whitespace(c: char) -> (r: bool)
    ensures
        r == is_space(c),
{
    let u = c as u32;
    (0x09 <= u && u <= 0x0d) || u == 0x20 || u == 0x85 || u == 0xa0 || u == 0x1680 || (0x2000 <= u
        && u <= 0x200a) || u == 0x2028 || u == 0x2029 || u == 0x202f || u == 0x205f || u == 0x3000
}

/// Append `piece` to `out` as [`attach`] does.
fn attach_piece(out: &mut Vec<char>, piece: &Vec<char>, set_off: bool)
    ensures
        final(out)@ == attach(old(out)@, piece@, set_off),
{
    let n = out.len();
    if set_off && n > 0 && piece.len() > 0 && !is_whitespace(out[n - 1]) && !is_whitespace(piece[0]) {
        out.push(' ');
    }
    push_all(out, piece);
    assert(out@ =~= attach(old(out)@, piece@, set_off));
}

/// Read a code span for Vim key notation and return a plain-English gloss,
/// or `None` if it holds none. Angle-bracket tokens are expanded in place and
/// the rest of the span is left as written, e.g. `:{N}<CR>` reads
/// `:{N} Enter`.
pub fn decipher(span: &str) -> (r: Option<String>)
    ensures
        opt_view(r) == deciphered(span@),
{
    let v = chars_of(span);
    let first = find_from(&v, '<', 0);
    if first == v.len() {
        return None;
    }
    let mut out: Vec<char> = Vec::new();
    let mut after_name = false;
    let mut found = false;
    let mut pos: usize = 0;
    while pos < v.len()
        invariant
            pos <= v@.len(),
            gloss_at(v@, 0, seq![], false) == (gloss_at(v@, pos as int, out@, after_name).0, found
                || gloss_at(v@, pos as int, out@, after_name).1),
        decreases v@.len() - pos,
    {
        let lt = find_from(&v, '<', pos);
        let gt = if lt < v.len() {
            find_from(&v, '>', lt)
        } else {
            v.len()
        };
        if lt == v.len() || gt == v.len() {
            proof {
                if lt < v.len() {
                    assert(gt == index_from(v@, '>', lt as int));
                } else {
                    lemma_index_from(v@, '>', lt as int);
                }
            }
            let text = slice_chars(&v, pos, v.len());
            attach_piece(&mut out, &text, after_name);
            proof {
                let e = v@.subrange(v@.len() as int, v@.len() as int);
                assert(e =~= Seq::<char>::empty());
                assert(attach(out@, e, false) =~= out@);
                lemma_index_from(v@, '<', v@.len() as int);
                assert(gloss_at(v@, v@.len() as int, out@, false) == (out@, false));
            }
            after_name = false;
            pos = v.len();
        } else {
            let text = slice_chars(&v, pos, lt);
            let token = slice_chars(&v, lt, gt + 1);
            attach_piece(&mut out, &text, after_name);
            let token_text = string_of(&token);
            match expand_key(token_text.as_str()) {
                Some(name) => {
                    let name = chars_of(name.as_str());
                    attach_piece(&mut out, &name, true);
                    after_name = true;
                    found = true;
                },
                None => {
                    let set_off = after_name && text.len() == 0;
                    attach_piece(&mut out, &token, set_off);
                    after_name = false;
                },
            }
            pos = gt + 1;
        }
    }
    if found {
        Some(string_of(&out))
    } else {
        None
    }
}

/// The `<...>` tokens of `s` from index `pos` on, left to right: each runs
/// from a `<` to the first `>` after it, and a `<` with no `>` after it
/// starts none.
pub open spec fn tokens_from(s: Seq<char>, pos: int) -> Seq<Seq<char>>
    decreases s.len() - pos,
{
    if pos < 0 || pos > s.len() {
        seq![]
    } else {
        let lt = index_from(s, '<', pos);
        let gt = index_from(s, '>', lt);
        if lt >= s.len() || gt >= s.len() {
            seq![]
        } else {
            proof {
                lemma_index_from(s, '<', pos);
                lemma_index_from(s, '>', lt);
            }
            seq![s.subrange(lt, gt + 1)] + tokens_from(s, gt + 1)
        }
    }
}

/// Whether some token of `ts` is recognised.
pub open spec fn any_recognised(ts: Seq<Seq<char>>) -> bool {
    exists|k: int| 0 <= k < ts.len() && (#[trigger] expansion(ts[k])) is Some
}

proof fn lemma_gloss_found(s: Seq<char>, pos: int, out: Seq<char>, after_name: bool)
    ensures
        gloss_at(s, pos, out, after_name).1 == any_recognised(tokens_from(s, pos)),
    decreases s.len() - pos,
{
    if 0 <= pos <= s.len() {
        let lt = index_from(s, '<', pos);
        let gt = index_from(s, '>', lt);
        lemma_index_from(s, '<', pos);
        if lt < s.len() {
            lemma_index_from(s, '>', lt);
        }
        if lt < s.len() && gt < s.len() {
            let token = s.subrange(lt, gt + 1);
            let text = s.subrange(pos, lt);
            let before = attach(out, text, after_name);
            let ts = tokens_from(s, pos);
            let rest = tokens_from(s, gt + 1);
            assert(ts == seq![token] + rest);
            match expansion(token) {
                Some(name) => {
                    assert(ts[0] == token);
                },
                None => {
                    lemma_gloss_found(s, gt + 1, attach(before, token, after_name && text.len() == 0), false);
                    if any_recognised(rest) {
                        let k = choose|k: int| 0 <= k < rest.len() && (#[trigger] expansion(rest[k])) is Some;
                        assert(ts[k + 1] == rest[k]);
                    }
                    if any_recognised(ts) {
                        let k = choose|k: int| 0 <= k < ts.len() && (#[trigger] expansion(ts[k])) is Some;
                        assert(k > 0);
                        assert(rest[k - 1] == ts[k]);
                    }
                },
            }
        }
    }
}

/// A code span gets a reading exactly when one of its tokens, cut left to
/// right, is recognised; a span without `<` never does.
pub proof fn lemma_deciphered_iff_recognised(span: Seq<char>)
    ensures
        deciphered(span) is Some <==> any_recognised(tokens_from(span, 0)),
        (forall|k: int| 0 <= k < span.len() ==> span[k] != '<') ==> deciphered(span) is None,
{
    lemma_gloss_found(span, 0, seq![], false);
    lemma_index_from(span, '<', 0);
    if index_from(span, '<', 0) >= span.len() {
        assert(tokens_from(span, 0) =~= Seq::<Seq<char>>::empty());
    }
}

/// What each key mnemonic reads as, in any mix of letter case: `cr`,
/// `return` and `enter` read `Enter`, `esc` `Escape`, `bs` `Backspace`,
/// `del` `Delete`, the arrows name their direction, `pageup` and `pagedown`
/// read `Page Up` and `Page Down`, the rest their own capitalised name; any
/// other text has no name.
pub proof fn lemma_key_names(s: Seq<char>)
    ensures
        ({
            let l = lower_seq(s);
            &&& l == "cr"@ ==> key_name_of(s) == Some("Enter"@)
            &&& l == "return"@ ==> key_name_of(s) == Some("Enter"@)
            &&& l == "enter"@ ==> key_name_of(s) == Some("Enter"@)
            &&& l == "esc"@ ==> key_name_of(s) == Some("Escape"@)
            &&& l == "tab"@ ==> key_name_of(s) == Some("Tab"@)
            &&& l == "bs"@ ==> key_name_of(s) == Some("Backspace"@)
            &&& l == "del"@ ==> key_name_of(s) == Some("Delete"@)
            &&& l == "space"@ ==> key_name_of(s) == Some("Space"@)
            &&& l == "up"@ ==> key_name_of(s) == Some("Up arrow"@)
            &&& l == "down"@ ==> key_name_of(s) == Some("Down arrow"@)
            &&& l == "left"@ ==> key_name_of(s) == Some("Left arrow"@)
            &&& l == "right"@ ==> key_name_of(s) == Some("Right arrow"@)
            &&& l == "home"@ ==> key_name_of(s) == Some("Home"@)
            &&& l == "end"@ ==> key_name_of(s) == Some("End"@)
            &&& l == "pageup"@ ==> key_name_of(s) == Some("Page Up"@)
            &&& l == "pagedown"@ ==> key_name_of(s) == Some("Page Down"@)
            &&& l == "leader"@ ==> key_name_of(s) == Some("leader"@)
            &&& !(l == "cr"@ || l == "return"@ || l == "enter"@ || l == "esc"@ || l == "tab"@ ||
                l == "bs"@ || l == "del"@ || l == "space"@ || l == "up"@ || l == "down"@ ||
                l == "left"@ || l == "right"@ || l == "home"@ || l == "end"@ || l == "pageup"@ ||
                l == "pagedown"@ || l == "leader"@) ==> key_name_of(s) is None
        }),
{
    reveal_strlit("Backspace");
    reveal_strlit("Delete");
    reveal_strlit("Down arrow");
    reveal_strlit("End");
    reveal_strlit("Enter");
    reveal_strlit("Escape");
    reveal_strlit("Home");
    reveal_strlit("Left arrow");
    reveal_strlit("Page Down");
    reveal_strlit("Page Up");
    reveal_strlit("Right arrow");
    reveal_strlit("Space");
    reveal_strlit("Tab");
    reveal_strlit("Up arrow");
    reveal_strlit("bs");
    reveal_strlit("cr");
    reveal_strlit("del");
    reveal_strlit("down");
    reveal_strlit("end");
    reveal_strlit("enter");
    reveal_strlit("esc");
    reveal_strlit("home");
    reveal_strlit("leader");
    reveal_strlit("left");
    reveal_strlit("pagedown");
    reveal_strlit("pageup");
    reveal_strlit("return");
    reveal_strlit("right");
    reveal_strlit("space");
    reveal_strlit("tab");
    reveal_strlit("up");
    assert("cr"@.len() == 2);
    assert("return"@.len() == 6);
    assert("enter"@.len() == 5);
    assert("esc"@.len() == 3);
    assert("tab"@.len() == 3);
    assert("bs"@.len() == 2);
    assert("del"@.len() == 3);
    assert("space"@.len() == 5);
    assert("up"@.len() == 2);
    assert("down"@.len() == 4);
    assert("left"@.len() == 4);
    assert("right"@.len() == 5);
    assert("home"@.len() == 4);
    assert("end"@.len() == 3);
    assert("pageup"@.len() == 6);
    assert("pagedown"@.len() == 8);
    assert("leader"@.len() == 6);
    if lower_seq(s) == "tab"@ {
        assert("tab"@[0] != "esc"@[0]);
    }
    if lower_seq(s) == "bs"@ {
        assert("bs"@[0] != "cr"@[0]);
    }
    if lower_seq(s) == "del"@ {
        assert("del"@[0] != "esc"@[0] && "del"@[0] != "tab"@[0]);
    }
    if lower_seq(s) == "space"@ {
        assert("space"@[0] != "enter"@[0]);
    }
    if lower_seq(s) == "up"@ {
        assert("up"@[0] != "cr"@[0] && "up"@[0] != "bs"@[0]);
    }
    if lower_seq(s) == "left"@ {
        assert("left"@[0] != "down"@[0]);
    }
    if lower_seq(s) == "right"@ {
        assert("right"@[0] != "enter"@[0] && "right"@[0] != "space"@[0]);
    }
    if lower_seq(s) == "home"@ {
        assert("home"@[0] != "down"@[0] && "home"@[0] != "left"@[0]);
    }
    if lower_seq(s) == "end"@ {
        assert("end"@[1] != "esc"@[1] && "end"@[0] != "tab"@[0] && "end"@[0] != "del"@[0]);
    }
    if lower_seq(s) == "pageup"@ {
        assert("pageup"@[0] != "return"@[0]);
    }
    if lower_seq(s) == "leader"@ {
        assert("leader"@[0] != "return"@[0] && "leader"@[0] != "pageup"@[0]);
    }
}

/// An arrow key's name says which arrow it is: whenever a mnemonic reads
/// `<Direction> arrow`, the mnemonic is that direction, in any letter case.
pub proof fn lemma_arrow_names_direction(s: Seq<char>, w: Seq<char>)
    requires
        key_name_of(s) == Some(w + " arrow"@),
    ensures
        lower_seq(s) == lower_seq(w),
{
    reveal_strlit("Backspace");
    reveal_strlit("Delete");
    reveal_strlit("Down arrow");
    reveal_strlit("End");
    reveal_strlit("Enter");
    reveal_strlit("Escape");
    reveal_strlit("Home");
    reveal_strlit("Left arrow");
    reveal_strlit("Page Down");
    reveal_strlit("Page Up");
    reveal_strlit("Right arrow");
    reveal_strlit("Space");
    reveal_strlit("Tab");
    reveal_strlit("Up arrow");
    reveal_strlit("bs");
    reveal_strlit("cr");
    reveal_strlit("del");
    reveal_strlit("down");
    reveal_strlit("end");
    reveal_strlit("enter");
    reveal_strlit("esc");
    reveal_strlit("home");
    reveal_strlit("leader");
    reveal_strlit("left");
    reveal_strlit("pagedown");
    reveal_strlit("pageup");
    reveal_strlit("return");
    reveal_strlit("right");
    reveal_strlit("space");
    reveal_strlit("tab");
    reveal_strlit("up");
    reveal_strlit(" arrow");
    let n = w + " arrow"@;
    assert(n.len() == w.len() + 6);
    assert(n[w.len() as int] == ' ');
    let l = lower_seq(s);
    if l == "up"@ {
        assert(w =~= n.take(2));
        assert(lower_seq(w) =~= "up"@);
    } else if l == "down"@ {
        assert(w =~= n.take(4));
        assert(lower_seq(w) =~= "down"@);
    } else if l == "left"@ {
        assert(w =~= n.take(4));
        assert(lower_seq(w) =~= "left"@);
    } else if l == "right"@ {
        assert(w =~= n.take(5));
        assert(lower_seq(w) =~= "right"@);
    } else {
        assert(false);
    }
}

/// The modifier prefixes of a chord, in either letter case: `c` is Ctrl,
/// `s` Shift, `m` and `a` Alt, `d` Cmd, and no other letter is a modifier.
pub proof fn lemma_modifier_names(c: char)
    ensures
        (c == 'c' || c == 'C') ==> modifier_of(c) == Some("Ctrl"@),
        (c == 's' || c == 'S') ==> modifier_of(c) == Some("Shift"@),
        (c == 'm' || c == 'M' || c == 'a' || c == 'A') ==> modifier_of(c) == Some("Alt"@),
        (c == 'd' || c == 'D') ==> modifier_of(c) == Some("Cmd"@),
        !(c == 'c' || c == 'C' || c == 's' || c == 'S' || c == 'm' || c == 'M' || c == 'a' || c == 'A' || c
            == 'd' || c == 'D') ==> modifier_of(c) is None,
{
    if 'A' <= c <= 'Z' {
        assert(('A' as u32) <= (c as u32) <= ('Z' as u32));
        let d = ((c as u32) + 32) as char;
        assert((d as u32) == (c as u32) + 32);
    }
}

/// ASCII lower-casing twice is lower-casing once.
pub proof fn lemma_lower_idempotent(s: Seq<char>)
    ensures
        lower_seq(lower_seq(s)) == lower_seq(s),
{
    assert forall|k: int| 0 <= k < s.len() implies #[trigger] lower(lower(s[k])) == lower(s[k]) by {
        let c = s[k];
        if 'A' <= c <= 'Z' {
            assert(('A' as u32) <= (c as u32) <= ('Z' as u32));
            let d = ((c as u32) + 32) as char;
            assert((d as u32) == (c as u32) + 32);
        }
    }
    assert(lower_seq(lower_seq(s)) =~= lower_seq(s));
}

/// Key names ignore ASCII case.
pub proof fn lemma_key_name_case_insensitive(s: Seq<char>)
    ensures
        key_name_of(s) == key_name_of(lower_seq(s)),
{
    lemma_lower_idempotent(s);
}


} // verus!

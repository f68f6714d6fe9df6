//! Full-text search over the title projection.
//!
//! A query splits on whitespace; `after:` and `before:` parts set date
//! bounds and the rest are text terms. A projection row matches when every
//! term but the last occurs in its title as a whole word and the last as a
//! word prefix, folding ASCII letters to lower case; words are maximal
//! runs of ASCII letters and digits. Matches come back with the title
//! highlighted: matched words sit between bold tags.

use vstd::prelude::*;

use crate::store::EntryV;

verus! {

/// Whitespace that separates query parts.
pub open spec fn is_space(c: char) -> bool {
    (9 <= c as u32 <= 13) || c as u32 == 32
}

/// A word character: an ASCII letter or digit.
pub open spec fn is_alnum(c: char) -> bool {
    ('0' <= c <= '9') || ('a' <= c <= 'z') || ('A' <= c <= 'Z')
}

/// ASCII letters folded to lower case; anything else unchanged.
pub open spec fn fold(c: char) -> char {
    if 'A' <= c <= 'Z' {
        ((c as u32 + 32) as u8) as char
    } else {
        c
    }
}

/// The views of a list of strings.
pub open spec fn strings_view(s: Seq<String>) -> Seq<Seq<char>> {
    s.map_values(|x: String| x@)
}

/// Splits from position `i` on, with `cur` the part read so far.
pub open spec fn parts_acc(s: Seq<char>, i: int, cur: Seq<char>) -> Seq<Seq<char>>
    decreases s.len() - i,
{
    if i < 0 || i >= s.len() {
        if cur.len() > 0 {
            seq![cur]
        } else {
            Seq::empty()
        }
    } else if is_space(s[i]) {
        (if cur.len() > 0 {
            seq![cur]
        } else {
            Seq::empty()
        }) + parts_acc(s, i + 1, Seq::empty())
    } else {
        parts_acc(s, i + 1, cur.push(s[i]))
    }
}

/// The whitespace-separated parts of a query.
pub open spec fn query_parts(s: Seq<char>) -> Seq<Seq<char>> {
    parts_acc(s, 0, Seq::empty())
}

/// `p` begins with `prefix`.
pub open spec fn begins_with(p: Seq<char>, prefix: Seq<char>) -> bool {
    p.len() >= prefix.len() && p.take(prefix.len() as int) == prefix
}

/// The bound of the last `after:` part, if any.
pub open spec fn after_of(parts: Seq<Seq<char>>) -> Option<Seq<char>>
    decreases parts.len(),
{
    if parts.len() == 0 {
        None
    } else if begins_with(parts.last(), "after:"@) {
        Some(parts.last().skip(6))
    } else {
        after_of(parts.drop_last())
    }
}

/// The bound of the last `before:` part, if any.
pub open spec fn before_of(parts: Seq<Seq<char>>) -> Option<Seq<char>>
    decreases parts.len(),
{
    if parts.len() == 0 {
        None
    } else if begins_with(parts.last(), "after:"@) {
        before_of(parts.drop_last())
    } else if begins_with(parts.last(), "before:"@) {
        Some(parts.last().skip(7))
    } else {
        before_of(parts.drop_last())
    }
}

/// The parts that are free text, in order.
pub open spec fn text_terms(parts: Seq<Seq<char>>) -> Seq<Seq<char>>
    decreases parts.len(),
{
    if parts.len() == 0 {
        Seq::empty()
    } else {
        text_terms(parts.drop_last()) + if !begins_with(parts.last(), "after:"@) && !begins_with(
            parts.last(),
            "before:"@,
        ) {
            seq![parts.last()]
        } else {
            Seq::empty()
        }
    }
}

/// A word starts at `i`: a word character not preceded by one.
pub open spec fn token_start(text: Seq<char>, i: int) -> bool {
    0 <= i < text.len() && is_alnum(text[i]) && (i == 0 || !is_alnum(text[i - 1]))
}

/// `term` matches case-folded at the start of the word beginning at `i`.
pub open spec fn prefix_match_at(text: Seq<char>, term: Seq<char>, i: int) -> bool {
    token_start(text, i) && i + term.len() <= text.len() && (forall|k: int|
        0 <= k < term.len() ==> fold(#[trigger] text[i + k]) == fold(term[k]))
}

/// `term` matches a whole word beginning at `i`.
pub open spec fn word_match_at(text: Seq<char>, term: Seq<char>, i: int) -> bool {
    prefix_match_at(text, term, i) && (i + term.len() == text.len() || !is_alnum(
        text[i + term.len()],
    ))
}

/// Some word of `text` starts with `term`.
pub open spec fn has_prefix(text: Seq<char>, term: Seq<char>) -> bool {
    exists|i: int| #[trigger] prefix_match_at(text, term, i)
}

/// Some word of `text` is exactly `term`, case-folded.
pub open spec fn has_word(text: Seq<char>, term: Seq<char>) -> bool {
    exists|i: int| #[trigger] word_match_at(text, term, i)
}

/// The text matches the query terms: every term but the last as a whole
/// word, the last as a word prefix.
pub open spec fn entry_matches(text: Seq<char>, terms: Seq<Seq<char>>) -> bool {
    &&& terms.len() > 0
    &&& forall|k: int| 0 <= k < terms.len() - 1 ==> has_word(text, #[trigger] terms[k])
    &&& has_prefix(text, terms.last())
}

/// Decides whether two characters fold to the same character.
fn eq_fold(a: char, b: char) -> (r: bool)
    ensures
        r == (fold(a) == fold(b)),
{
    let ua = a as u32;
    let ub = b as u32;
    let fa: u32 = if 65 <= ua && ua <= 90 {
        ua + 32
    } else {
        ua
    };
    let fb: u32 = if 65 <= ub && ub <= 90 {
        ub + 32
    } else {
        ub
    };
    proof {
        assert(fa == fold(a) as u32);
        assert(fb == fold(b) as u32);
    }
    fa == fb
}

/// Decides `is_alnum`.
fn is_alnum_char(c: char) -> (r: bool)
    ensures
        r == is_alnum(c),
{
    let u = c as u32;
    (48 <= u && u <= 57) || (97 <= u && u <= 122) || (65 <= u && u <= 90)
}

/// Decides `is_space`.
fn is_space_char(c: char) -> (r: bool)
    ensures
        r == is_space(c),
{
    let u = c as u32;
    (9 <= u && u <= 13) || u == 32
}

/// Decides whether `term` matches at position `i` of `text`, as a word
/// prefix, or as a whole word when `whole` is set.
fn match_at(text: &str, term: &str, i: usize, whole: bool) -> (r: bool)
    requires
        i < text@.len(),
    ensures
        r == if whole {
            word_match_at(text@, term@, i as int)
        } else {
            prefix_match_at(text@, term@, i as int)
        },
{
    let n = text.unicode_len();
    let tn = term.unicode_len();
    let c0 = text.get_char(i);
    if !is_alnum_char(c0) {
        return false;
    }
    if i > 0 {
        let cp = text.get_char(i - 1);
        if is_alnum_char(cp) {
            return false;
        }
    }
    if tn > n || i > n - tn {
        proof {
            assert(i + term@.len() > text@.len());
        }
        return false;
    }
    let mut k: usize = 0;
    while k < tn
        invariant
            k <= tn,
            tn == term@.len(),
            n == text@.len(),
            i + tn <= n,
            i < n,
            forall|m: int| 0 <= m < k ==> fold(#[trigger] text@[i + m]) == fold(term@[m]),
        decreases tn - k,
    {
        let ct = text.get_char(i + k);
        let cq = term.get_char(k);
        if !eq_fold(ct, cq) {
            proof {
                assert(fold(text@[i + k]) != fold(term@[k as int]));
                assert(!prefix_match_at(text@, term@, i as int));
            }
            return false;
        }
        k = k + 1;
    }
    proof {
        assert(prefix_match_at(text@, term@, i as int));
    }
    if !whole {
        return true;
    }
    if i + tn == n {
        return true;
    }
    let ce = text.get_char(i + tn);
    let r = !is_alnum_char(ce);
    proof {
        assert(r == word_match_at(text@, term@, i as int));
    }
    r
}

/// Decides whether `term` occurs in `text` as a whole word, or as a word
/// prefix when `whole` is clear.
fn has_term(text: &str, term: &str, whole: bool) -> (r: bool)
    ensures
        r == if whole {
            has_word(text@, term@)
        } else {
            has_prefix(text@, term@)
        },
{
    let n = text.unicode_len();
    let mut i: usize = 0;
    while i < n
        invariant
            i <= n,
            n == text@.len(),
            forall|m: int|
                0 <= m < i ==> !(if whole {
                    word_match_at(text@, term@, m)
                } else {
                    prefix_match_at(text@, term@, m)
                }),
        decreases n - i,
    {
        if match_at(text, term, i, whole) {
            return true;
        }
        i = i + 1;
    }
    proof {
        if whole {
            assert forall|m: int| !(#[trigger] word_match_at(text@, term@, m)) by {
                if 0 <= m < n {
                } else {
                    assert(!token_start(text@, m));
                }
            }
        } else {
            assert forall|m: int| !(#[trigger] prefix_match_at(text@, term@, m)) by {
                if 0 <= m < n {
                } else {
                    assert(!token_start(text@, m));
                }
            }
        }
    }
    false
}

/// The terms fold-match this whole word (or, for the last term, a prefix
/// of it).
pub open spec fn fold_eq_seq(a: Seq<char>, b: Seq<char>) -> bool {
    a.len() == b.len() && forall|i: int| 0 <= i < a.len() ==> fold(#[trigger] a[i]) == fold(b[i])
}

pub open spec fn fold_prefix_seq(t: Seq<char>, tok: Seq<char>) -> bool {
    t.len() <= tok.len() && forall|i: int| 0 <= i < t.len() ==> fold(#[trigger] tok[i]) == fold(
        t[i],
    )
}

/// Some query term takes this word: any but the last exactly, the last
/// as a prefix.
pub open spec fn token_hit(tok: Seq<char>, terms: Seq<Seq<char>>) -> bool {
    exists|k: int|
        0 <= k < terms.len() && if k == terms.len() - 1 {
            fold_prefix_seq(#[trigger] terms[k], tok)
        } else {
            fold_eq_seq(terms[k], tok)
        }
}

/// A word as the snippet shows it: between bold tags when a term took it.
pub open spec fn wrap_if(tok: Seq<char>, terms: Seq<Seq<char>>) -> Seq<char> {
    if tok.len() == 0 {
        Seq::empty()
    } else if token_hit(tok, terms) {
        "<b>"@ + tok + "</b>"@
    } else {
        tok
    }
}

/// The snippet from position `i` on, with `cur` the word read so far.
pub open spec fn snip_acc(text: Seq<char>, terms: Seq<Seq<char>>, i: int, cur: Seq<char>) -> Seq<
    char,
>
    decreases text.len() - i,
{
    if i < 0 || i >= text.len() {
        wrap_if(cur, terms)
    } else if is_alnum(text[i]) {
        snip_acc(text, terms, i + 1, cur.push(text[i]))
    } else {
        wrap_if(cur, terms) + seq![text[i]] + snip_acc(text, terms, i + 1, Seq::empty())
    }
}

/// The highlighted snippet: the title with every word a term took
/// between bold tags.
pub open spec fn highlight(terms: Seq<Seq<char>>, text: Seq<char>) -> Seq<char> {
    snip_acc(text, terms, 0, Seq::empty())
}

/// Decides `fold_eq_seq` on string slices.
fn fold_eq_str(a: &str, b: &str) -> (r: bool)
    ensures
        r == fold_eq_seq(a@, b@),
{
    let n = a.unicode_len();
    if n != b.unicode_len() {
        return false;
    }
    let mut i: usize = 0;
    while i < n
        invariant
            i <= n,
            n == a@.len(),
            n == b@.len(),
            forall|m: int| 0 <= m < i ==> fold(#[trigger] a@[m]) == fold(b@[m]),
        decreases n - i,
    {
        if !eq_fold(a.get_char(i), b.get_char(i)) {
            return false;
        }
        i = i + 1;
    }
    true
}

/// Decides `fold_prefix_seq` on string slices.
fn fold_prefix_str(t: &str, tok: &str) -> (r: bool)
    ensures
        r == fold_prefix_seq(t@, tok@),
{
    let n = t.unicode_len();
    if n > tok.unicode_len() {
        return false;
    }
    let mut i: usize = 0;
    while i < n
        invariant
            i <= n,
            n == t@.len(),
            n <= tok@.len(),
            forall|m: int| 0 <= m < i ==> fold(#[trigger] tok@[m]) == fold(t@[m]),
        decreases n - i,
    {
        if !eq_fold(tok.get_char(i), t.get_char(i)) {
            return false;
        }
        i = i + 1;
    }
    true
}

/// Decides `token_hit`.
fn token_hit_on(terms: &Vec<String>, tok: &str) -> (r: bool)
    ensures
        r == token_hit(tok@, strings_view(terms@)),
{
    let n = terms.len();
    let mut k: usize = 0;
    while k < n
        invariant
            k <= n,
            n == terms@.len(),
            forall|m: int|
                0 <= m < k ==> !(if m == n - 1 {
                    fold_prefix_seq(#[trigger] strings_view(terms@)[m], tok@)
                } else {
                    fold_eq_seq(strings_view(terms@)[m], tok@)
                }),
        decreases n - k,
    {
        let hit = if k == n - 1 {
            fold_prefix_str(terms[k].as_str(), tok)
        } else {
            fold_eq_str(terms[k].as_str(), tok)
        };
        proof {
            assert(strings_view(terms@)[k as int] == terms@[k as int]@);
        }
        if hit {
            return true;
        }
        k = k + 1;
    }
    false
}

/// Appends the word `text[ts..i]` to the snippet, bold-tagged when a
/// term took it.
fn push_wrapped(out: &mut String, text: &str, ts: usize, i: usize, terms: &Vec<String>)
    requires
        ts <= i <= old(out)@.len() + text@.len(),
        i <= text@.len(),
    ensures
        final(out)@ == old(out)@ + wrap_if(text@.subrange(ts as int, i as int), strings_view(
            terms@,
        )),
{
    if ts == i {
        proof {
            assert(text@.subrange(ts as int, i as int) =~= Seq::<char>::empty());
            assert(old(out)@ + wrap_if(Seq::empty(), strings_view(terms@)) =~= old(out)@);
        }
        return ;
    }
    let tok = text.substring_char(ts, i);
    if token_hit_on(terms, tok) {
        proof {
            reveal_strlit("<b>");
            reveal_strlit("</b>");
        }
        out.append("<b>");
        out.append(tok);
        out.append("</b>");
        proof {
            assert(final(out)@ =~= old(out)@ + ("<b>"@ + text@.subrange(ts as int, i as int)
                + "</b>"@));
        }
    } else {
        out.append(tok);
    }
}

/// Renders the highlighted snippet of a matched title.
fn highlight_text(terms: &Vec<String>, text: &str) -> (r: String)
    ensures
        r@ == highlight(strings_view(terms@), text@),
{
    let n = text.unicode_len();
    let mut out = String::new();
    let mut in_tok = false;
    let mut ts: usize = 0;
    let mut i: usize = 0;
    while i < n
        invariant
            i <= n,
            n == text@.len(),
            in_tok ==> ts <= i,
            out@ + snip_acc(
                text@,
                strings_view(terms@),
                i as int,
                if in_tok {
                    text@.subrange(ts as int, i as int)
                } else {
                    Seq::empty()
                },
            ) == highlight(strings_view(terms@), text@),
        decreases n - i,
    {
        let ghost termsv = strings_view(terms@);
        let ghost cur: Seq<char> = if in_tok {
            text@.subrange(ts as int, i as int)
        } else {
            Seq::empty()
        };
        let c = text.get_char(i);
        if is_alnum_char(c) {
            if !in_tok {
                in_tok = true;
                ts = i;
            }
            proof {
                assert(cur.push(text@[i as int]) =~= text@.subrange(ts as int, i as int + 1));
            }
        } else {
            if in_tok {
                push_wrapped(&mut out, text, ts, i, terms);
                in_tok = false;
            } else {
                proof {
                    assert(wrap_if(cur, termsv) =~= Seq::<char>::empty());
                }
            }
            let sep = text.substring_char(i, i + 1);
            out.append(sep);
            proof {
                assert(sep@ =~= seq![text@[i as int]]);
                assert(out@ + snip_acc(text@, termsv, i as int + 1, Seq::empty()) =~= highlight(
                    termsv,
                    text@,
                )) by {
                    assert(snip_acc(text@, termsv, i as int, cur) == wrap_if(cur, termsv) + seq![
                        text@[i as int],
                    ] + snip_acc(text@, termsv, i as int + 1, Seq::empty()));
                }
            }
        }
        i = i + 1;
    }
    if in_tok {
        push_wrapped(&mut out, text, ts, n, terms);
        proof {
            assert(snip_acc(text@, strings_view(terms@), n as int, text@.subrange(
                ts as int,
                n as int,
            )) == wrap_if(text@.subrange(ts as int, n as int), strings_view(terms@)));
        }
    } else {
        proof {
            assert(snip_acc(text@, strings_view(terms@), n as int, Seq::<char>::empty())
                =~= Seq::<char>::empty());
            assert(out@ + Seq::<char>::empty() =~= out@);
        }
    }
    out
}

/// Decides whether a part carries the `after:` marker.
fn begins_after(p: &str) -> (r: bool)
    ensures
        r == begins_with(p@, "after:"@),
{
    proof {
        reveal_strlit("after:");
    }
    let n = p.unicode_len();
    if n < 6 {
        return false;
    }
    let r = p.get_char(0) == 'a' && p.get_char(1) == 'f' && p.get_char(2) == 't' && p.get_char(3)
        == 'e' && p.get_char(4) == 'r' && p.get_char(5) == ':';
    proof {
        if r {
            assert(p@.take(6) =~= "after:"@);
        } else {
            assert(p@.take(6) != "after:"@) by {
                if p@.take(6) == "after:"@ {
                    assert(p@.take(6)[0] == p@[0]);
                    assert(p@.take(6)[1] == p@[1]);
                    assert(p@.take(6)[2] == p@[2]);
                    assert(p@.take(6)[3] == p@[3]);
                    assert(p@.take(6)[4] == p@[4]);
                    assert(p@.take(6)[5] == p@[5]);
                }
            }
        }
    }
    r
}

/// Decides whether a part carries the `before:` marker.
fn begins_before(p: &str) -> (r: bool)
    ensures
        r == begins_with(p@, "before:"@),
{
    proof {
        reveal_strlit("before:");
    }
    let n = p.unicode_len();
    if n < 7 {
        return false;
    }
    let r = p.get_char(0) == 'b' && p.get_char(1) == 'e' && p.get_char(2) == 'f' && p.get_char(3)
        == 'o' && p.get_char(4) == 'r' && p.get_char(5) == 'e' && p.get_char(6) == ':';
    proof {
        if r {
            assert(p@.take(7) =~= "before:"@);
        } else {
            assert(p@.take(7) != "before:"@) by {
                if p@.take(7) == "before:"@ {
                    assert(p@.take(7)[0] == p@[0]);
                    assert(p@.take(7)[1] == p@[1]);
                    assert(p@.take(7)[2] == p@[2]);
                    assert(p@.take(7)[3] == p@[3]);
                    assert(p@.take(7)[4] == p@[4]);
                    assert(p@.take(7)[5] == p@[5]);
                    assert(p@.take(7)[6] == p@[6]);
                }
            }
        }
    }
    r
}

/// Files one completed query part: a date bound or a text term.
fn classify_part(p: String, terms: &mut Vec<String>, after: &mut Option<String>, before: &mut Option<String>)
    ensures
        strings_view(final(terms)@) == if !begins_with(p@, "after:"@) && !begins_with(
            p@,
            "before:"@,
        ) {
            strings_view(old(terms)@).push(p@)
        } else {
            strings_view(old(terms)@)
        },
        crate::models::view_opt(*final(after)) == if begins_with(p@, "after:"@) {
            Some(p@.skip(6))
        } else {
            crate::models::view_opt(*old(after))
        },
        crate::models::view_opt(*final(before)) == if begins_with(p@, "after:"@) {
            crate::models::view_opt(*old(before))
        } else if begins_with(p@, "before:"@) {
            Some(p@.skip(7))
        } else {
            crate::models::view_opt(*old(before))
        },
{
    if begins_after(&p) {
        proof {
            reveal_strlit("after:");
            assert(p@.len() >= 6);
        }
        let plen = p.unicode_len();
        let rest = p.as_str().substring_char(6, plen).to_owned();
        proof {
            assert(rest@ =~= p@.skip(6));
        }
        *after = Some(rest);
    } else if begins_before(&p) {
        proof {
            reveal_strlit("before:");
            assert(p@.len() >= 7);
        }
        let plen = p.unicode_len();
        let rest = p.as_str().substring_char(7, plen).to_owned();
        proof {
            assert(rest@ =~= p@.skip(7));
        }
        *before = Some(rest);
    } else {
        let ghost old_terms = terms@;
        let ghost pv = p@;
        terms.push(p);
        proof {
            assert(strings_view(terms@) =~= strings_view(old_terms).push(pv)) by {
                assert(strings_view(old_terms).len() == old_terms.len());
                assert forall|m: int| 0 <= m < terms@.len() implies #[trigger] strings_view(
                    terms@,
                )[m] == strings_view(old_terms).push(pv)[m] by {
                    if m < old_terms.len() {
                        assert(terms@[m] == old_terms[m]);
                    } else {
                        assert(terms@[m] == terms@[terms@.len() - 1]);
                    }
                }
            }
        }
    }
}

/// One more part moves the split state forward.
proof fn lemma_classify_step(parts_done: Seq<Seq<char>>, pv: Seq<char>)
    ensures
        text_terms(parts_done.push(pv)) == if !begins_with(pv, "after:"@) && !begins_with(
            pv,
            "before:"@,
        ) {
            text_terms(parts_done).push(pv)
        } else {
            text_terms(parts_done)
        },
        after_of(parts_done.push(pv)) == if begins_with(pv, "after:"@) {
            Some(pv.skip(6))
        } else {
            after_of(parts_done)
        },
        before_of(parts_done.push(pv)) == if begins_with(pv, "after:"@) {
            before_of(parts_done)
        } else if begins_with(pv, "before:"@) {
            Some(pv.skip(7))
        } else {
            before_of(parts_done)
        },
{
    let ps = parts_done.push(pv);
    assert(ps.drop_last() =~= parts_done);
    assert(ps.last() == pv);
    if !begins_with(pv, "after:"@) && !begins_with(pv, "before:"@) {
        assert(text_terms(ps) =~= text_terms(parts_done).push(pv));
    } else {
        assert(text_terms(ps) =~= text_terms(parts_done) + Seq::<Seq<char>>::empty());
        assert(text_terms(parts_done) + Seq::<Seq<char>>::empty() =~= text_terms(parts_done));
    }
}

/// Splits a query into its text terms and its two optional date bounds.
fn parse_query(q: &str) -> (r: (Vec<String>, Option<String>, Option<String>))
    ensures
        strings_view(r.0@) == text_terms(query_parts(q@)),
        crate::models::view_opt(r.1) == after_of(query_parts(q@)),
        crate::models::view_opt(r.2) == before_of(query_parts(q@)),
{
    let n = q.unicode_len();
    let mut terms: Vec<String> = Vec::new();
    let mut after: Option<String> = None;
    let mut before: Option<String> = None;
    let mut in_part = false;
    let mut ps: usize = 0;
    let mut i: usize = 0;
    let ghost mut parts_done: Seq<Seq<char>> = Seq::empty();
    proof {
        assert(strings_view(terms@) =~= text_terms(parts_done));
    }
    while i < n
        invariant
            i <= n,
            n == q@.len(),
            in_part ==> ps < i && i <= n,
            query_parts(q@) == parts_done + parts_acc(
                q@,
                i as int,
                if in_part {
                    q@.subrange(ps as int, i as int)
                } else {
                    Seq::empty()
                },
            ),
            strings_view(terms@) == text_terms(parts_done),
            crate::models::view_opt(after) == after_of(parts_done),
            crate::models::view_opt(before) == before_of(parts_done),
        decreases n - i,
    {
        let ghost cur: Seq<char> = if in_part {
            q@.subrange(ps as int, i as int)
        } else {
            Seq::empty()
        };
        let c = q.get_char(i);
        if is_space_char(c) {
            if in_part {
                let p = q.substring_char(ps, i).to_owned();
                let ghost pv = p@;
                let ghost old_done = parts_done;
                proof {
                    assert(pv =~= cur);
                    parts_done = parts_done.push(pv);
                    lemma_classify_step(old_done, pv);
                }
                classify_part(p, &mut terms, &mut after, &mut before);
                in_part = false;
                proof {
                    assert(parts_acc(q@, i as int, cur) == seq![cur] + parts_acc(
                        q@,
                        i as int + 1,
                        Seq::empty(),
                    ));
                    assert(old_done + (seq![cur] + parts_acc(q@, i as int + 1, Seq::empty()))
                        =~= parts_done + parts_acc(q@, i as int + 1, Seq::empty()));
                }
            } else {
                proof {
                    assert(parts_acc(q@, i as int, cur) == Seq::<Seq<char>>::empty() + parts_acc(
                        q@,
                        i as int + 1,
                        Seq::empty(),
                    ));
                    assert(parts_done + (Seq::<Seq<char>>::empty() + parts_acc(
                        q@,
                        i as int + 1,
                        Seq::empty(),
                    )) =~= parts_done + parts_acc(q@, i as int + 1, Seq::empty()));
                }
            }
        } else {
            if !in_part {
                in_part = true;
                ps = i;
            }
            proof {
                assert(cur.push(q@[i as int]) =~= q@.subrange(ps as int, i as int + 1));
            }
        }
        i = i + 1;
    }
    if in_part {
        let p = q.substring_char(ps, n).to_owned();
        let ghost pv = p@;
        let ghost old_done = parts_done;
        proof {
            assert(pv =~= q@.subrange(ps as int, n as int));
            assert(pv.len() > 0);
            parts_done = parts_done.push(pv);
            lemma_classify_step(old_done, pv);
            assert(parts_acc(q@, n as int, q@.subrange(ps as int, n as int)) == seq![pv]);
            assert(old_done + seq![pv] =~= parts_done);
            assert(query_parts(q@) == parts_done);
        }
        classify_part(p, &mut terms, &mut after, &mut before);
    } else {
        proof {
            assert(parts_acc(q@, n as int, Seq::<char>::empty()) =~= Seq::<Seq<char>>::empty());
            assert(parts_done + Seq::<Seq<char>>::empty() =~= parts_done);
        }
    }
    (terms, after, before)
}

/// Decides whether a title matches every query term.
pub(crate) fn text_matches(terms: &Vec<String>, text: &str) -> (r: bool)
    ensures
        r == entry_matches(text@, strings_view(terms@)),
{
    let tn = terms.len();
    if tn == 0 {
        return false;
    }
    let mut k: usize = 0;
    while k < tn - 1
        invariant
            k <= tn - 1,
            tn == terms@.len(),
            tn > 0,
            forall|m: int| 0 <= m < k ==> has_word(text@, #[trigger] strings_view(terms@)[m]),
        decreases tn - k,
    {
        if !has_term(text, terms[k].as_str(), true) {
            proof {
                assert(strings_view(terms@)[k as int] == terms@[k as int]@);
                assert(!has_word(text@, strings_view(terms@)[k as int]));
            }
            return false;
        }
        proof {
            assert(strings_view(terms@)[k as int] == terms@[k as int]@);
        }
        k = k + 1;
    }
    let r = has_term(text, terms[tn - 1].as_str(), false);
    proof {
        assert(strings_view(terms@).last() == terms@[tn - 1]@);
    }
    r
}

/// The searchable text of a projection row: its todo title for todo
/// rows, its card title for card rows.
pub open spec fn entry_text(e: EntryV) -> Seq<char> {
    match e.todo_title {
        Some(t) => t,
        None => match e.card_title {
            Some(c) => c,
            None => Seq::empty(),
        },
    }
}

/// The projection rows whose text matches the terms, in projection
/// order: cards before todos, each in table order.
pub open spec fn matching_entries(entries: Seq<EntryV>, terms: Seq<Seq<char>>) -> Seq<EntryV>
    decreases entries.len(),
{
    if entries.len() == 0 {
        Seq::empty()
    } else {
        matching_entries(entries.drop_last(), terms) + if entry_matches(
            entry_text(entries.last()),
            terms,
        ) {
            seq![entries.last()]
        } else {
            Seq::empty()
        }
    }
}

/// A matched projection row as a search result, its title highlighted.
pub open spec fn entry_result(e: EntryV, terms: Seq<Seq<char>>) -> crate::models::SearchResultDtoV {
    crate::models::SearchResultDtoV {
        card_id: e.card_id,
        todo_id: e.todo_id,
        card_title: e.card_title,
        todo_title: e.todo_title,
        snippet: highlight(terms, entry_text(e)),
    }
}

/// The search results of a run of matched rows.
pub open spec fn entry_results_of(es: Seq<EntryV>, terms: Seq<Seq<char>>) -> Seq<
    crate::models::SearchResultDtoV,
> {
    es.map_values(|e: EntryV| entry_result(e, terms))
}

/// The cards created within the two date bounds, in table order.
pub open spec fn date_matches(
    cards: Seq<crate::store::CardV>,
    a: Seq<char>,
    b: Seq<char>,
) -> Seq<crate::store::CardV>
    decreases cards.len(),
{
    if cards.len() == 0 {
        Seq::empty()
    } else {
        date_matches(cards.drop_last(), a, b) + if crate::text::lex_le(
            a,
            cards.last().created_at,
        ) && crate::text::lex_le(cards.last().created_at, b) {
            seq![cards.last()]
        } else {
            Seq::empty()
        }
    }
}

/// A date-range hit as a search result: the card, its title standing in
/// for the snippet, empty when it has none.
pub open spec fn date_result(c: crate::store::CardV) -> crate::models::SearchResultDtoV {
    crate::models::SearchResultDtoV {
        card_id: c.id,
        todo_id: None,
        card_title: c.title,
        todo_title: None,
        snippet: match c.title {
            Some(t) => t,
            None => Seq::empty(),
        },
    }
}

/// The search results of a run of date-range hits.
pub open spec fn date_results_of(cs: Seq<crate::store::CardV>) -> Seq<
    crate::models::SearchResultDtoV,
> {
    cs.map_values(|c: crate::store::CardV| date_result(c))
}

/// At most the first fifty rows.
pub open spec fn take50<T>(s: Seq<T>) -> Seq<T> {
    if s.len() <= 50 {
        s
    } else {
        s.take(50)
    }
}

/// What a search returns: nothing for an empty effective query;
/// otherwise up to fifty text matches over the projection, followed by
/// up to fifty date-range hits when both bounds are present. The two
/// lists are concatenated, not merged. Text hits come in projection
/// order — cards before todos, each in table order, with no relevance
/// weighting — and the highlight window is the whole title.
pub open spec fn spec_search(v: crate::store::StoreView, q: Seq<char>) -> Seq<
    crate::models::SearchResultDtoV,
> {
    let parts = query_parts(q);
    let terms = text_terms(parts);
    let aft = after_of(parts);
    let bef = before_of(parts);
    if terms.len() == 0 && aft is None && bef is None {
        Seq::empty()
    } else {
        (if terms.len() > 0 {
            entry_results_of(take50(matching_entries(v.search_index(), terms)), terms)
        } else {
            Seq::empty()
        }) + (match (aft, bef) {
            (Some(a), Some(b)) => date_results_of(take50(date_matches(v.cards, a, b))),
            _ => Seq::empty(),
        })
    }
}

/// A text with no characters matches no term list.
proof fn lemma_empty_text_matches_nothing(terms: Seq<Seq<char>>)
    ensures
        !entry_matches(Seq::empty(), terms),
{
    if terms.len() > 0 {
        assert forall|i: int| !(#[trigger] prefix_match_at(
            Seq::<char>::empty(),
            terms.last(),
            i,
        )) by {
            assert(!token_start(Seq::empty(), i));
        }
    }
}

impl crate::store::Store {
    /// Appends a matched card row to the results while they run under
    /// fifty.
    fn push_text_hit_card(
        &self,
        out: &mut Vec<crate::models::SearchResultDto>,
        i: usize,
        t: &String,
        terms: &Vec<String>,
        Ghost(prefix): Ghost<Seq<EntryV>>,
        Ghost(e): Ghost<EntryV>,
    )
        requires
            i < self@.cards.len(),
            e == crate::store::card_entry(self@.cards[i as int]),
            e.card_title == Some(t@),
            entry_matches(entry_text(e), strings_view(terms@)),
            crate::models::search_dtos_view(old(out)@) == entry_results_of(
                take50(matching_entries(prefix, strings_view(terms@))),
                strings_view(terms@),
            ),
        ensures
            crate::models::search_dtos_view(final(out)@) == entry_results_of(
                take50(matching_entries(prefix.push(e), strings_view(terms@))),
                strings_view(terms@),
            ),
    {
        let ghost termsv = strings_view(terms@);
        let ghost m0 = matching_entries(prefix, termsv);
        proof {
            assert(prefix.push(e).drop_last() =~= prefix);
            assert(prefix.push(e).last() == e);
            assert(matching_entries(prefix.push(e), termsv) =~= m0.push(e));
            assert(entry_results_of(take50(m0), termsv).len() == take50(m0).len());
            assert(crate::models::search_dtos_view(old(out)@).len() == old(out)@.len());
        }
        if out.len() < 50 {
            let c = &self.cards[i];
            let ghost old_out = out@;
            let dto = crate::models::SearchResultDto {
                card_id: c.id.clone(),
                todo_id: None,
                card_title: crate::store::clone_opt(&c.title),
                todo_title: None,
                snippet: highlight_text(terms, t.as_str()),
            };
            proof {
                assert(entry_text(e) == t@);
                assert(dto@ == entry_result(e, termsv));
            }
            out.push(dto);
            proof {
                assert(m0.len() < 50);
                assert(take50(m0.push(e)) =~= take50(m0).push(e));
                assert(crate::models::search_dtos_view(out@) =~= entry_results_of(
                    take50(m0.push(e)),
                    termsv,
                )) by {
                    assert forall|p: int| 0 <= p < out@.len() implies
                        #[trigger] crate::models::search_dtos_view(out@)[p] == entry_results_of(
                        take50(m0.push(e)),
                        termsv,
                    )[p] by {
                        if p < old_out.len() {
                            assert(out@[p] == old_out[p]);
                            assert(crate::models::search_dtos_view(old_out)[p] == entry_results_of(
                                take50(m0),
                                termsv,
                            )[p]);
                        } else {
                            assert(out@[p] == out@[out@.len() - 1]);
                        }
                    }
                }
            }
        } else {
            proof {
                assert(m0.len() >= 50);
                assert(take50(m0.push(e)) =~= take50(m0));
            }
        }
    }

    /// Appends a matched todo row to the results while they run under
    /// fifty.
    fn push_text_hit_todo(
        &self,
        out: &mut Vec<crate::models::SearchResultDto>,
        j: usize,
        terms: &Vec<String>,
        Ghost(prefix): Ghost<Seq<EntryV>>,
        Ghost(e): Ghost<EntryV>,
    )
        requires
            j < self@.todos.len(),
            e == crate::store::todo_entry(self@.todos[j as int]),
            entry_matches(entry_text(e), strings_view(terms@)),
            crate::models::search_dtos_view(old(out)@) == entry_results_of(
                take50(matching_entries(prefix, strings_view(terms@))),
                strings_view(terms@),
            ),
        ensures
            crate::models::search_dtos_view(final(out)@) == entry_results_of(
                take50(matching_entries(prefix.push(e), strings_view(terms@))),
                strings_view(terms@),
            ),
    {
        let ghost termsv = strings_view(terms@);
        let ghost m0 = matching_entries(prefix, termsv);
        proof {
            assert(prefix.push(e).drop_last() =~= prefix);
            assert(prefix.push(e).last() == e);
            assert(matching_entries(prefix.push(e), termsv) =~= m0.push(e));
            assert(entry_results_of(take50(m0), termsv).len() == take50(m0).len());
            assert(crate::models::search_dtos_view(old(out)@).len() == old(out)@.len());
        }
        if out.len() < 50 {
            let t = &self.todos[j];
            let ghost old_out = out@;
            let dto = crate::models::SearchResultDto {
                card_id: t.card_id.clone(),
                todo_id: Some(t.id.clone()),
                card_title: None,
                todo_title: Some(t.title.clone()),
                snippet: highlight_text(terms, t.title.as_str()),
            };
            proof {
                assert(entry_text(e) == t.title@);
                assert(dto@ == entry_result(e, termsv));
            }
            out.push(dto);
            proof {
                assert(m0.len() < 50);
                assert(take50(m0.push(e)) =~= take50(m0).push(e));
                assert(crate::models::search_dtos_view(out@) =~= entry_results_of(
                    take50(m0.push(e)),
                    termsv,
                )) by {
                    assert forall|p: int| 0 <= p < out@.len() implies
                        #[trigger] crate::models::search_dtos_view(out@)[p] == entry_results_of(
                        take50(m0.push(e)),
                        termsv,
                    )[p] by {
                        if p < old_out.len() {
                            assert(out@[p] == old_out[p]);
                            assert(crate::models::search_dtos_view(old_out)[p] == entry_results_of(
                                take50(m0),
                                termsv,
                            )[p]);
                        } else {
                            assert(out@[p] == out@[out@.len() - 1]);
                        }
                    }
                }
            }
        } else {
            proof {
                assert(m0.len() >= 50);
                assert(take50(m0.push(e)) =~= take50(m0));
            }
        }
    }

    /// Appends a date-range hit to the results while those run under
    /// fifty, returning the new count of date hits kept.
    fn push_date_hit(
        &self,
        out: &mut Vec<crate::models::SearchResultDto>,
        k: usize,
        dcount: usize,
        Ghost(text_part): Ghost<Seq<crate::models::SearchResultDtoV>>,
        Ghost(prefix): Ghost<Seq<crate::store::CardV>>,
        Ghost(av): Ghost<Seq<char>>,
        Ghost(bv): Ghost<Seq<char>>,
    ) -> (nd: usize)
        requires
            k < self@.cards.len(),
            crate::text::lex_le(av, self@.cards[k as int].created_at),
            crate::text::lex_le(self@.cards[k as int].created_at, bv),
            dcount as int == take50(date_matches(prefix, av, bv)).len(),
            crate::models::search_dtos_view(old(out)@) == text_part + date_results_of(
                take50(date_matches(prefix, av, bv)),
            ),
        ensures
            nd as int == take50(date_matches(prefix.push(self@.cards[k as int]), av, bv)).len(),
            crate::models::search_dtos_view(final(out)@) == text_part + date_results_of(
                take50(date_matches(prefix.push(self@.cards[k as int]), av, bv)),
            ),
    {
        let ghost cv = self@.cards[k as int];
        let ghost d0 = date_matches(prefix, av, bv);
        proof {
            assert(prefix.push(cv).drop_last() =~= prefix);
            assert(prefix.push(cv).last() == cv);
            assert(date_matches(prefix.push(cv), av, bv) =~= d0.push(cv));
        }
        if dcount < 50 {
            let c = &self.cards[k];
            let ghost old_out = out@;
            let dto = crate::models::SearchResultDto {
                card_id: c.id.clone(),
                todo_id: None,
                card_title: crate::store::clone_opt(&c.title),
                todo_title: None,
                snippet: match &c.title {
                    Some(t) => t.clone(),
                    None => String::new(),
                },
            };
            proof {
                assert(dto@ == date_result(cv));
            }
            out.push(dto);
            proof {
                assert(d0.len() < 50);
                assert(take50(d0.push(cv)) =~= take50(d0).push(cv));
                assert(crate::models::search_dtos_view(old_out).len() == old_out.len());
                assert((text_part + date_results_of(take50(d0))).len() == text_part.len() + take50(
                    d0,
                ).len());
                assert(crate::models::search_dtos_view(out@) =~= text_part + date_results_of(
                    take50(d0.push(cv)),
                )) by {
                    assert forall|p: int| 0 <= p < out@.len() implies
                        #[trigger] crate::models::search_dtos_view(out@)[p] == (text_part
                        + date_results_of(take50(d0.push(cv))))[p] by {
                        if p < old_out.len() {
                            assert(out@[p] == old_out[p]);
                            assert(crate::models::search_dtos_view(old_out)[p] == (text_part
                                + date_results_of(take50(d0)))[p]);
                        } else {
                            assert(out@[p] == out@[out@.len() - 1]);
                        }
                    }
                }
            }
            dcount + 1
        } else {
            proof {
                assert(d0.len() >= 50);
                assert(take50(d0.push(cv)) =~= take50(d0));
            }
            dcount
        }
    }

    /// Searches the title projection and, when both `after:` and
    /// `before:` bounds are given, appends a scan of card creation
    /// times. An empty effective query returns nothing at once.
    pub fn search(&self, query: String) -> (r: Result<
        Vec<crate::models::SearchResultDto>,
        crate::errors::AppError,
    >)
        ensures
            match r {
                Ok(list) => crate::models::search_dtos_view(list@) == spec_search(self@, query@),
                Err(_) => false,
            },
    {
        let (terms, after, before) = parse_query(query.as_str());
        let ghost termsv = strings_view(terms@);
        let ghost idx = self@.search_index();
        if terms.len() == 0 && after.is_none() && before.is_none() {
            let out: Vec<crate::models::SearchResultDto> = Vec::new();
            proof {
                assert(crate::models::search_dtos_view(out@) =~= spec_search(self@, query@));
            }
            return Ok(out);
        }
        let mut out: Vec<crate::models::SearchResultDto> = Vec::new();
        if terms.len() > 0 {
            let nc = self.cards.len();
            let mut i: usize = 0;
            proof {
                assert(idx.take(0) =~= Seq::<EntryV>::empty());
                assert(crate::models::search_dtos_view(out@) =~= entry_results_of(
                    take50(matching_entries(idx.take(0), termsv)),
                    termsv,
                ));
                assert(idx.len() == self@.cards.len() + self@.todos.len());
            }
            while i < nc
                invariant
                    i <= nc,
                    nc == self.cards.len(),
                    terms@.len() > 0,
                    termsv == strings_view(terms@),
                    idx == self@.search_index(),
                    idx.len() == self@.cards.len() + self@.todos.len(),
                    crate::models::search_dtos_view(out@) == entry_results_of(
                        take50(matching_entries(idx.take(i as int), termsv)),
                        termsv,
                    ),
                decreases nc - i,
            {
                let ghost e = idx[i as int];
                proof {
                    assert(e == crate::store::card_entry(self@.cards[i as int]));
                    assert(idx.take(i as int + 1).drop_last() =~= idx.take(i as int));
                    assert(idx.take(i as int + 1).last() == e);
                }
                let c = &self.cards[i];
                match &c.title {
                    Some(t) => {
                        if text_matches(&terms, t.as_str()) {
                            proof {
                                assert(entry_text(e) == t@);
                            }
                            proof {
                                assert(idx.take(i as int + 1) =~= idx.take(i as int).push(e));
                            }
                            self.push_text_hit_card(
                                &mut out,
                                i,
                                t,
                                &terms,
                                Ghost(idx.take(i as int)),
                                Ghost(e),
                            );
                        } else {
                            proof {
                                assert(!entry_matches(entry_text(e), termsv));
                                assert(matching_entries(idx.take(i as int + 1), termsv)
                                    =~= matching_entries(idx.take(i as int), termsv));
                            }
                        }
                    },
                    None => {
                        proof {
                            assert(entry_text(e) =~= Seq::<char>::empty());
                            lemma_empty_text_matches_nothing(termsv);
                            assert(!entry_matches(entry_text(e), termsv));
                            assert(matching_entries(idx.take(i as int + 1), termsv)
                                =~= matching_entries(idx.take(i as int), termsv));
                        }
                    },
                }
                i = i + 1;
            }
            let nt = self.todos.len();
            let mut j: usize = 0;
            while j < nt
                invariant
                    j <= nt,
                    nt == self.todos.len(),
                    nc == self.cards.len(),
                    nc == self@.cards.len(),
                    terms@.len() > 0,
                    termsv == strings_view(terms@),
                    idx == self@.search_index(),
                    idx.len() == self@.cards.len() + self@.todos.len(),
                    crate::models::search_dtos_view(out@) == entry_results_of(
                        take50(matching_entries(idx.take(nc + j as int), termsv)),
                        termsv,
                    ),
                decreases nt - j,
            {
                let ghost e = idx[nc + j as int];
                proof {
                    assert(e == crate::store::todo_entry(self@.todos[j as int]));
                    assert(idx.take(nc + j as int + 1).drop_last() =~= idx.take(nc + j as int));
                    assert(idx.take(nc + j as int + 1).last() == e);
                }
                let t = &self.todos[j];
                if text_matches(&terms, t.title.as_str()) {
                    proof {
                        assert(entry_text(e) == t.title@);
                    }
                    proof {
                        assert(idx.take(nc + j as int + 1) =~= idx.take(nc + j as int).push(e));
                    }
                    self.push_text_hit_todo(
                        &mut out,
                        j,
                        &terms,
                        Ghost(idx.take(nc + j as int)),
                        Ghost(e),
                    );
                } else {
                    proof {
                        assert(!entry_matches(entry_text(e), termsv));
                        assert(matching_entries(idx.take(nc + j as int + 1), termsv)
                            =~= matching_entries(idx.take(nc + j as int), termsv));
                    }
                }
                j = j + 1;
            }
            proof {
                assert(idx.take(nc + nt as int) =~= idx);
            }
        }
        let ghost text_part: Seq<crate::models::SearchResultDtoV> = if termsv.len() > 0 {
            entry_results_of(take50(matching_entries(idx, termsv)), termsv)
        } else {
            Seq::empty()
        };
        proof {
            assert(crate::models::search_dtos_view(out@) == text_part);
        }
        match (&after, &before) {
            (Some(a), Some(b)) => {
                let nc = self.cards.len();
                let ghost base = out@;
                let mut k: usize = 0;
                let mut dcount: usize = 0;
                proof {
                    assert(self@.cards.take(0) =~= Seq::<crate::store::CardV>::empty());
                    assert(crate::models::search_dtos_view(base) =~= text_part + date_results_of(
                        take50(date_matches(self@.cards.take(0), a@, b@)),
                    ));
                }
                while k < nc
                    invariant
                        k <= nc,
                        nc == self.cards.len(),
                        dcount as int == take50(
                            date_matches(self@.cards.take(k as int), a@, b@),
                        ).len(),
                        crate::models::search_dtos_view(out@) == text_part + date_results_of(
                            take50(date_matches(self@.cards.take(k as int), a@, b@)),
                        ),
                    decreases nc - k,
                {
                    let ghost prefix = self@.cards.take(k as int);
                    let ghost post = self@.cards.take(k as int + 1);
                    let ghost cv = self@.cards[k as int];
                    proof {
                        assert(post.drop_last() =~= prefix);
                        assert(post.last() == cv);
                    }
                    let c = &self.cards[k];
                    let hit = crate::text::str_le(a.as_str(), c.created_at.as_str())
                        && crate::text::str_le(c.created_at.as_str(), b.as_str());
                    if hit {
                        proof {
                            assert(date_matches(post, a@, b@) =~= date_matches(
                                prefix,
                                a@,
                                b@,
                            ).push(cv));
                        }
                        dcount = self.push_date_hit(
                            &mut out,
                            k,
                            dcount,
                            Ghost(text_part),
                            Ghost(prefix),
                            Ghost(a@),
                            Ghost(b@),
                        );
                        proof {
                            assert(post =~= prefix.push(cv));
                        }
                    } else {
                        proof {
                            assert(date_matches(post, a@, b@) =~= date_matches(prefix, a@, b@));
                        }
                    }
                    k = k + 1;
                }
                proof {
                    assert(self@.cards.take(nc as int) =~= self@.cards);
                    assert(crate::models::search_dtos_view(out@) =~= spec_search(self@, query@));
                }
            },
            _ => {
                proof {
                    assert(crate::models::search_dtos_view(out@) =~= spec_search(self@, query@));
                }
            },
        }
        Ok(out)
    }
}

} // verus!

//! Scanning stylesheet text for the two at-rules the crawler needs: font-face
//! blocks, whose `url(...)` references yield candidate font URLs, and import
//! directives, which yield nested stylesheet URLs.
//!
//! A font-face block is the word `@font-face`, optional whitespace, and a
//! non-empty brace-delimited body. Within a block, `url(` up to the next `)`
//! yields a reference, double quotes around it being stripped. A reference is
//! kept when its file extension is the supported binary-font extension `ttf`,
//! and exact duplicates within one stylesheet are suppressed.
//!
//! An import directive is the word `@import` (any ASCII case), whitespace,
//! `url`, `(`, a double-quoted, single-quoted or bare URL literal, `)` and a
//! closing `;`, with whitespace allowed between tokens.

use vstd::prelude::*;
use crate::text::{
    find_char_from, lit_at, lit_ci_at, skip_ws, views, find_char, lit_matches, lit_ci_matches,
    skip_ws_exec, subvec, contains_chars, lemma_find_char_from_bounds, lemma_skip_ws_bounds,
};
use crate::names::{ext_spec, ext_chars, lemma_filter_singleton};

verus! {

pub open spec fn face_kw() -> Seq<char> {
    seq!['@', 'f', 'o', 'n', 't', '-', 'f', 'a', 'c', 'e']
}

pub open spec fn url_open_kw() -> Seq<char> {
    seq!['u', 'r', 'l', '(']
}

pub open spec fn import_kw() -> Seq<char> {
    seq!['@', 'i', 'm', 'p', 'o', 'r', 't']
}

pub open spec fn url_word() -> Seq<char> {
    seq!['u', 'r', 'l']
}

fn face_kw_vec() -> (r: Vec<char>)
    ensures
        r@ == face_kw(),
{
    let mut v: Vec<char> = Vec::new();
    v.push('@');
    v.push('f');
    v.push('o');
    v.push('n');
    v.push('t');
    v.push('-');
    v.push('f');
    v.push('a');
    v.push('c');
    v.push('e');
    assert(v@ =~= face_kw());
    v
}

fn url_open_kw_vec() -> (r: Vec<char>)
    ensures
        r@ == url_open_kw(),
{
    let mut v: Vec<char> = Vec::new();
    v.push('u');
    v.push('r');
    v.push('l');
    v.push('(');
    assert(v@ =~= url_open_kw());
    v
}

fn import_kw_vec() -> (r: Vec<char>)
    ensures
        r@ == import_kw(),
{
    let mut v: Vec<char> = Vec::new();
    v.push('@');
    v.push('i');
    v.push('m');
    v.push('p');
    v.push('o');
    v.push('r');
    v.push('t');
    assert(v@ =~= import_kw());
    v
}

fn url_word_vec() -> (r: Vec<char>)
    ensures
        r@ == url_word(),
{
    let mut v: Vec<char> = Vec::new();
    v.push('u');
    v.push('r');
    v.push('l');
    assert(v@ =~= url_word());
    v
}

/// Attempt of a font-face block whose at-rule word starts at `p`: skip
/// whitespace, expect `{`, and take everything through the next `}` with a
/// non-empty body. The result is the end position and the whole block.
pub open spec fn try_face_block(text: Seq<char>, p: int) -> Option<(int, Seq<char>)> {
    let j = skip_ws(text, p + 10);
    if j < text.len() && text[j] == '{' {
        let k = find_char_from(text, j + 1, '}');
        if k < text.len() && k > j + 1 {
            Some(((k + 1) as int, text.subrange(p, k + 1)))
        } else {
            None
        }
    } else {
        None
    }
}

/// The font-face blocks of `text` at or after `from`, scanned left to right
/// and without overlap.
pub open spec fn face_blocks_from(text: Seq<char>, from: int) -> Seq<Seq<char>>
    decreases text.len() - from,
{
    if from < 0 || from >= text.len() {
        Seq::empty()
    } else if lit_at(text, from, face_kw()) {
        match try_face_block(text, from) {
            Some(r) => if from < r.0 <= text.len() {
                seq![r.1] + face_blocks_from(text, r.0)
            } else {
                seq![r.1]
            },
            None => face_blocks_from(text, from + 1),
        }
    } else {
        face_blocks_from(text, from + 1)
    }
}

/// The `url(...)` contents of a block at or after `from`: everything between
/// `url(` and the next `)`, non-empty.
pub open spec fn url_inners_from(b: Seq<char>, from: int) -> Seq<Seq<char>>
    decreases b.len() - from,
{
    if from < 0 || from >= b.len() {
        Seq::empty()
    } else if lit_at(b, from, url_open_kw()) {
        let k = find_char_from(b, from + 4, ')');
        if k < b.len() && k > from + 4 {
            if from < k + 1 <= b.len() {
                seq![b.subrange(from + 4, k)] + url_inners_from(b, k + 1)
            } else {
                seq![b.subrange(from + 4, k)]
            }
        } else {
            url_inners_from(b, from + 1)
        }
    } else {
        url_inners_from(b, from + 1)
    }
}

/// A reference with double quotes around it is stripped of them; anything
/// else is taken verbatim.
pub open spec fn unquote(inner: Seq<char>) -> Seq<char> {
    if inner.len() >= 2 && inner[0] == '"' && inner[inner.len() - 1] == '"' {
        inner.subrange(1, inner.len() - 1)
    } else {
        inner
    }
}

/// The reference has the supported binary-font extension.
pub open spec fn is_font_ref(u: Seq<char>) -> bool {
    ext_spec(u) == seq!['t', 't', 'f']
}

/// The `url(...)` contents of every block, in block order.
pub open spec fn all_inners(blocks: Seq<Seq<char>>) -> Seq<Seq<char>>
    decreases blocks.len(),
{
    if blocks.len() == 0 {
        Seq::empty()
    } else {
        all_inners(blocks.drop_last()) + url_inners_from(blocks.last(), 0)
    }
}

/// Candidate font references of a stylesheet: every unquoted `url(...)`
/// occurrence of every font-face block whose extension matches, in order.
pub open spec fn candidates(text: Seq<char>) -> Seq<Seq<char>> {
    all_inners(face_blocks_from(text, 0)).map_values(|i: Seq<char>| unquote(i)).filter(
        |u: Seq<char>| is_font_ref(u),
    )
}

/// First occurrence of each element, in order of first occurrence.
pub open spec fn dedup_first(s: Seq<Seq<char>>) -> Seq<Seq<char>>
    decreases s.len(),
{
    if s.len() == 0 {
        Seq::empty()
    } else {
        let rest = dedup_first(s.drop_last());
        if rest.contains(s.last()) {
            rest
        } else {
            rest.push(s.last())
        }
    }
}

/// The candidate font URLs of one stylesheet: matching extension, exact
/// duplicates suppressed, first occurrences in order.
pub open spec fn font_urls_spec(text: Seq<char>) -> Seq<Seq<char>> {
    dedup_first(candidates(text))
}

/// The deduplicated sequence holds exactly the elements of its input, each
/// once.
pub proof fn lemma_dedup_first_props(s: Seq<Seq<char>>)
    ensures
        forall|i: int| 0 <= i < dedup_first(s).len() ==> s.contains(#[trigger] dedup_first(s)[i]),
        forall|i: int, j: int|
            0 <= i < j < dedup_first(s).len() ==> dedup_first(s)[i] != dedup_first(s)[j],
        forall|x: Seq<char>| s.contains(x) ==> dedup_first(s).contains(x),
    decreases s.len(),
{
    if s.len() > 0 {
        let d = s.drop_last();
        lemma_dedup_first_props(d);
        let rest = dedup_first(d);
        assert(forall|i: int| 0 <= i < d.len() ==> s.contains(#[trigger] d[i])) by {
            assert(forall|i: int| 0 <= i < d.len() ==> d[i] == s[i]);
        }
        assert forall|i: int| 0 <= i < dedup_first(s).len() implies s.contains(
            #[trigger] dedup_first(s)[i],
        ) by {
            if i < rest.len() {
                assert(d.contains(rest[i]));
                let w = choose|w: int| 0 <= w < d.len() && d[w] == rest[i];
                assert(s[w] == rest[i]);
            } else {
                assert(dedup_first(s)[i] == s.last());
                assert(s[s.len() - 1] == s.last());
            }
        }
        assert forall|x: Seq<char>| s.contains(x) implies dedup_first(s).contains(x) by {
            let w = choose|w: int| 0 <= w < s.len() && s[w] == x;
            if w < s.len() - 1 {
                assert(d[w] == x);
                assert(d.contains(x));
                assert(rest.contains(x));
                if !rest.contains(s.last()) {
                    let v = choose|v: int| 0 <= v < rest.len() && rest[v] == x;
                    assert(dedup_first(s)[v] == x);
                }
            } else {
                assert(x == s.last());
                if rest.contains(x) {
                    let v = choose|v: int| 0 <= v < rest.len() && rest[v] == x;
                    if !rest.contains(s.last()) {
                        assert(dedup_first(s)[v] == x);
                    }
                } else {
                    assert(dedup_first(s)[rest.len() as int] == x);
                }
            }
        }
    }
}

/// Every candidate font URL of a stylesheet has the supported binary-font
/// extension: a reference with any other extension is never emitted.
pub proof fn lemma_font_urls_have_font_ext(text: Seq<char>)
    ensures
        forall|i: int|
            0 <= i < font_urls_spec(text).len() ==> is_font_ref(#[trigger] font_urls_spec(text)[i]),
{
    let cands = candidates(text);
    lemma_dedup_first_props(cands);
    assert forall|i: int| 0 <= i < font_urls_spec(text).len() implies is_font_ref(
        #[trigger] font_urls_spec(text)[i],
    ) by {
        assert(cands.contains(font_urls_spec(text)[i]));
        let w = choose|w: int| 0 <= w < cands.len() && cands[w] == font_urls_spec(text)[i];
        all_inners(face_blocks_from(text, 0)).map_values(
            |x: Seq<char>| unquote(x),
        ).lemma_filter_pred(|u: Seq<char>| is_font_ref(u), w);
    }
}

/// The candidate font URLs of one stylesheet are pairwise distinct: a font
/// referenced twice is listed once.
pub proof fn lemma_font_urls_distinct(text: Seq<char>)
    ensures
        forall|i: int, j: int|
            0 <= i < j < font_urls_spec(text).len() ==> font_urls_spec(text)[i]
                != font_urls_spec(text)[j],
{
    lemma_dedup_first_props(candidates(text));
}

fn try_face_block_exec(text: &Vec<char>, p: usize) -> (r: Option<(usize, Vec<char>)>)
    requires
        p + 10 <= text@.len(),
    ensures
        match r {
            Some(rr) => {
                &&& try_face_block(text@, p as int) matches Some(sp) && rr.0 == sp.0 && rr.1@
                    == sp.1
                &&& p < rr.0 <= text@.len()
            },
            None => try_face_block(text@, p as int) is None,
        },
{
    let n: usize = text.len();
    proof {
        lemma_skip_ws_bounds(text@, p + 10);
    }
    let j = skip_ws_exec(text, p + 10);
    if j < n && text[j] == '{' {
        proof {
            lemma_find_char_from_bounds(text@, j + 1, '}');
        }
        let k = find_char(text, j + 1, '}');
        if k < n && k > j + 1 {
            Some((k + 1, subvec(text, p, k + 1)))
        } else {
            None
        }
    } else {
        None
    }
}

/// The font-face blocks of a stylesheet, in order.
fn scan_face_blocks(text: &Vec<char>) -> (r: Vec<Vec<char>>)
    ensures
        views(r@) == face_blocks_from(text@, 0),
{
    let kw = face_kw_vec();
    let mut blocks: Vec<Vec<char>> = Vec::new();
    let mut pos: usize = 0;
    assert(views(blocks@) + face_blocks_from(text@, 0) =~= face_blocks_from(text@, 0));
    while pos < text.len()
        invariant
            0 <= pos <= text@.len(),
            kw@ == face_kw(),
            views(blocks@) + face_blocks_from(text@, pos as int) == face_blocks_from(text@, 0),
        decreases text@.len() - pos,
    {
        let ghost old_views = views(blocks@);
        let ghost old_pos = pos as int;
        if lit_matches(text, pos, &kw) {
            match try_face_block_exec(text, pos) {
                Some((e, b)) => {
                    let ghost bv = b@;
                    blocks.push(b);
                    pos = e;
                    proof {
                        assert(views(blocks@) =~= old_views.push(bv));
                        assert(face_blocks_from(text@, old_pos) == seq![bv] + face_blocks_from(
                            text@,
                            pos as int,
                        ));
                        assert(views(blocks@) + face_blocks_from(text@, pos as int) =~= old_views
                            + face_blocks_from(text@, old_pos));
                    }
                },
                None => {
                    pos = pos + 1;
                },
            }
        } else {
            pos = pos + 1;
        }
    }
    assert(face_blocks_from(text@, pos as int) =~= Seq::<Seq<char>>::empty());
    assert(views(blocks@) =~= views(blocks@) + face_blocks_from(text@, pos as int));
    blocks
}

/// The `url(...)` contents of one block, in order.
fn scan_url_inners(b: &Vec<char>) -> (r: Vec<Vec<char>>)
    ensures
        views(r@) == url_inners_from(b@, 0),
{
    let kw = url_open_kw_vec();
    let mut inners: Vec<Vec<char>> = Vec::new();
    let mut pos: usize = 0;
    assert(views(inners@) + url_inners_from(b@, 0) =~= url_inners_from(b@, 0));
    while pos < b.len()
        invariant
            0 <= pos <= b@.len(),
            kw@ == url_open_kw(),
            views(inners@) + url_inners_from(b@, pos as int) == url_inners_from(b@, 0),
        decreases b@.len() - pos,
    {
        let ghost old_views = views(inners@);
        let ghost old_pos = pos as int;
        if lit_matches(b, pos, &kw) {
            proof {
                lemma_find_char_from_bounds(b@, pos + 4, ')');
            }
            let k = find_char(b, pos + 4, ')');
            if k < b.len() && k > pos + 4 {
                let inner = subvec(b, pos + 4, k);
                let ghost iv = inner@;
                inners.push(inner);
                pos = k + 1;
                proof {
                    assert(views(inners@) =~= old_views.push(iv));
                    assert(url_inners_from(b@, old_pos) == seq![iv] + url_inners_from(
                        b@,
                        pos as int,
                    ));
                    assert(views(inners@) + url_inners_from(b@, pos as int) =~= old_views
                        + url_inners_from(b@, old_pos));
                }
            } else {
                pos = pos + 1;
            }
        } else {
            pos = pos + 1;
        }
    }
    assert(url_inners_from(b@, pos as int) =~= Seq::<Seq<char>>::empty());
    assert(views(inners@) =~= views(inners@) + url_inners_from(b@, pos as int));
    inners
}

/// Strip surrounding double quotes, when both are present.
fn unquote_exec(inner: &Vec<char>) -> (r: Vec<char>)
    ensures
        r@ == unquote(inner@),
{
    if inner.len() >= 2 && inner[0] == '"' && inner[inner.len() - 1] == '"' {
        subvec(inner, 1, inner.len() - 1)
    } else {
        let r = subvec(inner, 0, inner.len());
        assert(r@ =~= inner@);
        r
    }
}

/// Does the reference carry the supported binary-font extension?
fn is_font_ref_exec(u: &Vec<char>) -> (r: bool)
    ensures
        r == is_font_ref(u@),
{
    let e = ext_chars(u);
    if e.len() == 3 && e[0] == 't' && e[1] == 't' && e[2] == 'f' {
        assert(e@ =~= seq!['t', 't', 'f']);
        true
    } else {
        proof {
            if e@ == seq!['t', 't', 'f'] {
                assert(e@.len() == 3);
                assert(e@[0] == 't' && e@[1] == 't' && e@[2] == 'f');
            }
        }
        false
    }
}

/// The candidate font URLs of one stylesheet: every `url(...)` of every
/// font-face block, unquoted, kept when its extension is the binary-font
/// extension, exact duplicates suppressed, in order of first occurrence.
pub fn extract_font_urls(text: &Vec<char>) -> (r: Vec<Vec<char>>)
    ensures
        views(r@) == font_urls_spec(text@),
{
    let blocks = scan_face_blocks(text);
    let ghost bviews = views(blocks@);
    let mut inners: Vec<Vec<char>> = Vec::new();
    let mut bi: usize = 0;
    assert(views(inners@) =~= all_inners(bviews.take(0)));
    while bi < blocks.len()
        invariant
            0 <= bi <= blocks@.len(),
            bviews == views(blocks@),
            views(inners@) == all_inners(bviews.take(bi as int)),
        decreases blocks@.len() - bi,
    {
        let more = scan_url_inners(&blocks[bi]);
        let ghost old_views = views(inners@);
        let ghost mviews = views(more@);
        let mut mi: usize = 0;
        while mi < more.len()
            invariant
                0 <= mi <= more@.len(),
                mviews == views(more@),
                views(inners@) == old_views + mviews.take(mi as int),
            decreases more@.len() - mi,
        {
            let ghost prev = views(inners@);
            let item = subvec(&more[mi], 0, more[mi].len());
            assert(item@ =~= mviews[mi as int]);
            inners.push(item);
            mi = mi + 1;
            proof {
                assert(views(inners@) =~= prev.push(mviews[mi - 1]));
                assert(mviews.take(mi as int) =~= mviews.take(mi - 1).push(mviews[mi - 1]));
                assert(views(inners@) =~= old_views + mviews.take(mi as int));
            }
        }
        bi = bi + 1;
        proof {
            assert(mviews.take(more@.len() as int) =~= mviews);
            assert(bviews.take(bi as int).drop_last() =~= bviews.take(bi - 1));
            assert(bviews.take(bi as int).last() == bviews[bi - 1]);
            assert(mviews == url_inners_from(bviews[bi - 1], 0));
            assert(views(inners@) =~= all_inners(bviews.take(bi as int)));
        }
    }
    proof {
        assert(bviews.take(bi as int) =~= bviews);
    }
    let ghost pred = |u: Seq<char>| is_font_ref(u);
    let ghost unq = |i: Seq<char>| unquote(i);
    let ghost iviews = views(inners@);
    let mut out: Vec<Vec<char>> = Vec::new();
    let mut ii: usize = 0;
    assert(iviews.take(0).map_values(unq).filter(pred) =~= Seq::<Seq<char>>::empty());
    assert(views(out@) =~= dedup_first(iviews.take(0).map_values(unq).filter(pred)));
    while ii < inners.len()
        invariant
            0 <= ii <= inners@.len(),
            iviews == views(inners@),
            views(out@) == dedup_first(iviews.take(ii as int).map_values(unq).filter(pred)),
            unq == (|i: Seq<char>| unquote(i)),
            pred == (|u: Seq<char>| is_font_ref(u)),
        decreases inners@.len() - ii,
    {
        let u = unquote_exec(&inners[ii]);
        let ghost old_kept = iviews.take(ii as int).map_values(unq).filter(pred);
        let ghost new_kept = iviews.take(ii + 1).map_values(unq).filter(pred);
        proof {
            let old_mapped = iviews.take(ii as int).map_values(unq);
            let new_mapped = iviews.take(ii + 1).map_values(unq);
            assert(new_mapped =~= old_mapped + seq![unq(iviews[ii as int])]);
            Seq::filter_distributes_over_add(old_mapped, seq![unq(iviews[ii as int])], pred);
            lemma_filter_singleton(unq(iviews[ii as int]), pred);
            assert(u@ == unq(iviews[ii as int]));
        }
        let keep = is_font_ref_exec(&u);
        if keep && !contains_chars(&out, &u) {
            let ghost prev = views(out@);
            out.push(u);
            proof {
                assert(views(out@) =~= prev.push(unq(iviews[ii as int])));
                assert(new_kept =~= old_kept.push(unq(iviews[ii as int])));
                assert(new_kept.drop_last() =~= old_kept);
                assert(views(out@) =~= dedup_first(new_kept));
            }
        } else {
            proof {
                if keep {
                    assert(new_kept =~= old_kept.push(unq(iviews[ii as int])));
                    assert(new_kept.drop_last() =~= old_kept);
                    assert(views(out@) =~= dedup_first(new_kept));
                } else {
                    assert(new_kept =~= old_kept);
                }
            }
        }
        ii = ii + 1;
    }
    proof {
        assert(iviews.take(ii as int) =~= iviews);
        assert(iviews == all_inners(face_blocks_from(text@, 0)));
    }
    out
}

/// Attempt of an import directive whose at-rule word starts at `p`, for a
/// quoted literal opening at `c0`: the literal runs to the closing quote,
/// then `)` and `;` follow, whitespace allowed.
pub open spec fn import_quoted(text: Seq<char>, c0: int, q: char) -> Option<(int, Seq<char>)> {
    let d = find_char_from(text, c0 + 1, q);
    if d < text.len() && d > c0 + 1 {
        let e = skip_ws(text, d + 1);
        if e < text.len() && text[e] == ')' {
            let f = skip_ws(text, e + 1);
            if f < text.len() && text[f] == ';' {
                Some(((f + 1) as int, text.subrange(c0 + 1, d)))
            } else {
                None
            }
        } else {
            None
        }
    } else {
        None
    }
}

/// Attempt for a bare literal starting at `c0`: it runs to the closing `)`,
/// then `;` follows, whitespace allowed.
pub open spec fn import_bare(text: Seq<char>, c0: int) -> Option<(int, Seq<char>)> {
    let d = find_char_from(text, c0, ')');
    if d < text.len() && d > c0 {
        let e = skip_ws(text, d + 1);
        if e < text.len() && text[e] == ';' {
            Some(((e + 1) as int, text.subrange(c0, d)))
        } else {
            None
        }
    } else {
        None
    }
}

/// Attempt of an import directive at `p`: `@import`, at least one whitespace
/// character, `url`, `(`, then a double-quoted, single-quoted or bare URL
/// literal, `)` and `;`.
pub open spec fn try_import(text: Seq<char>, p: int) -> Option<(int, Seq<char>)> {
    let a = skip_ws(text, p + 7);
    if a <= p + 7 {
        None
    } else if lit_ci_at(text, a, url_word()) {
        let b = skip_ws(text, a + 3);
        if b < text.len() && text[b] == '(' {
            let c0 = skip_ws(text, b + 1);
            if c0 < text.len() && text[c0] == '"' {
                import_quoted(text, c0, '"')
            } else if c0 < text.len() && text[c0] == '\'' {
                import_quoted(text, c0, '\'')
            } else {
                import_bare(text, c0)
            }
        } else {
            None
        }
    } else {
        None
    }
}

/// The import URL literals of `text` at or after `from`, scanned left to
/// right and without overlap, at-rule keywords matched without regard to
/// ASCII case.
pub open spec fn imports_from(text: Seq<char>, from: int) -> Seq<Seq<char>>
    decreases text.len() - from,
{
    if from < 0 || from >= text.len() {
        Seq::empty()
    } else if lit_ci_at(text, from, import_kw()) {
        match try_import(text, from) {
            Some(r) => if from < r.0 <= text.len() {
                seq![r.1] + imports_from(text, r.0)
            } else {
                seq![r.1]
            },
            None => imports_from(text, from + 1),
        }
    } else {
        imports_from(text, from + 1)
    }
}

/// The import URL literals of a stylesheet, in order.
pub open spec fn import_urls_spec(text: Seq<char>) -> Seq<Seq<char>> {
    imports_from(text, 0)
}

fn import_quoted_exec(text: &Vec<char>, c0: usize, q: char) -> (r: Option<(usize, Vec<char>)>)
    requires
        c0 < text@.len(),
    ensures
        match r {
            Some(rr) => {
                &&& import_quoted(text@, c0 as int, q) matches Some(sp) && rr.0 == sp.0 && rr.1@
                    == sp.1
                &&& c0 < rr.0 <= text@.len()
            },
            None => import_quoted(text@, c0 as int, q) is None,
        },
{
    let n: usize = text.len();
    proof {
        lemma_find_char_from_bounds(text@, c0 + 1, q);
    }
    let d = find_char(text, c0 + 1, q);
    if d < n && d > c0 + 1 {
        proof {
            lemma_skip_ws_bounds(text@, d + 1);
        }
        let e = skip_ws_exec(text, d + 1);
        if e < n && text[e] == ')' {
            proof {
                lemma_skip_ws_bounds(text@, e + 1);
            }
            let f = skip_ws_exec(text, e + 1);
            if f < n && text[f] == ';' {
                Some((f + 1, subvec(text, c0 + 1, d)))
            } else {
                None
            }
        } else {
            None
        }
    } else {
        None
    }
}

fn import_bare_exec(text: &Vec<char>, c0: usize) -> (r: Option<(usize, Vec<char>)>)
    requires
        c0 <= text@.len(),
    ensures
        match r {
            Some(rr) => {
                &&& import_bare(text@, c0 as int) matches Some(sp) && rr.0 == sp.0 && rr.1@
                    == sp.1
                &&& c0 < rr.0 <= text@.len()
            },
            None => import_bare(text@, c0 as int) is None,
        },
{
    proof {
        lemma_find_char_from_bounds(text@, c0 as int, ')');
    }
    let d = find_char(text, c0, ')');
    if d < text.len() && d > c0 {
        proof {
            lemma_skip_ws_bounds(text@, d + 1);
        }
        let e = skip_ws_exec(text, d + 1);
        if e < text.len() && text[e] == ';' {
            Some((e + 1, subvec(text, c0, d)))
        } else {
            None
        }
    } else {
        None
    }
}

fn try_import_exec(text: &Vec<char>, p: usize, url_kw: &Vec<char>) -> (r: Option<(usize, Vec<
    char,
>)>)
    requires
        p + 7 <= text@.len(),
        url_kw@ == url_word(),
    ensures
        match r {
            Some(rr) => {
                &&& try_import(text@, p as int) matches Some(sp) && rr.0 == sp.0 && rr.1@ == sp.1
                &&& p < rr.0 <= text@.len()
            },
            None => try_import(text@, p as int) is None,
        },
{
    let n: usize = text.len();
    proof {
        lemma_skip_ws_bounds(text@, p + 7);
    }
    let a = skip_ws_exec(text, p + 7);
    if a <= p + 7 {
        return None;
    }
    if !lit_ci_matches(text, a, url_kw) {
        return None;
    }
    proof {
        lemma_skip_ws_bounds(text@, a + 3);
    }
    let b = skip_ws_exec(text, a + 3);
    if b < n && text[b] == '(' {
        proof {
            lemma_skip_ws_bounds(text@, b + 1);
        }
        let c0 = skip_ws_exec(text, b + 1);
        if c0 < n && text[c0] == '"' {
            import_quoted_exec(text, c0, '"')
        } else if c0 < n && text[c0] == '\'' {
            import_quoted_exec(text, c0, '\'')
        } else {
            import_bare_exec(text, c0)
        }
    } else {
        None
    }
}

/// The import URL literals of a stylesheet, in order of occurrence.
pub fn extract_imports(text: &Vec<char>) -> (r: Vec<Vec<char>>)
    ensures
        views(r@) == import_urls_spec(text@),
{
    let kw = import_kw_vec();
    let url_kw = url_word_vec();
    let mut found: Vec<Vec<char>> = Vec::new();
    let mut pos: usize = 0;
    assert(views(found@) + imports_from(text@, 0) =~= imports_from(text@, 0));
    while pos < text.len()
        invariant
            0 <= pos <= text@.len(),
            kw@ == import_kw(),
            url_kw@ == url_word(),
            views(found@) + imports_from(text@, pos as int) == imports_from(text@, 0),
        decreases text@.len() - pos,
    {
        let ghost old_views = views(found@);
        let ghost old_pos = pos as int;
        if lit_ci_matches(text, pos, &kw) {
            match try_import_exec(text, pos, &url_kw) {
                Some((e, b)) => {
                    let ghost bv = b@;
                    found.push(b);
                    pos = e;
                    proof {
                        assert(views(found@) =~= old_views.push(bv));
                        assert(imports_from(text@, old_pos) == seq![bv] + imports_from(
                            text@,
                            pos as int,
                        ));
                        assert(views(found@) + imports_from(text@, pos as int) =~= old_views
                            + imports_from(text@, old_pos));
                    }
                },
                None => {
                    pos = pos + 1;
                },
            }
        } else {
            pos = pos + 1;
        }
    }
    assert(imports_from(text@, pos as int) =~= Seq::<Seq<char>>::empty());
    assert(views(found@) =~= views(found@) + imports_from(text@, pos as int));
    found
}

} // verus!

//! The crawl state machine. The crawler holds a worklist of stylesheets to
//! fetch and fonts to download, a visited set of resolved stylesheet URLs,
//! and the icon records accumulated so far. An unverified shell drives it:
//! `next` says what to fetch, and the `*_ok` / `*_failed` events feed the
//! outcome back. A failure of the top-level stylesheet or of one of its fonts
//! is fatal; a failure inside a recursive import branch only skips that unit.
//!
//! Import directives are consulted only while the remaining depth is
//! positive; an accepted import must resolve against the current stylesheet,
//! keep its host, change its path, and not have been visited before.

use vstd::prelude::*;
use crate::names::normalize_spec;
use crate::names::normalize;
use crate::stylesheet::{extract_font_urls, extract_imports, font_urls_spec, import_urls_spec};
use crate::svg::{Glyph, font_records, font_to_svg, glyph_wf};
use crate::text::{views, chars_to_string, push_char};
use crate::web::{resolve_url, host_of_url, path_of_url, join_of, host_of, path_of};

verus! {

/// A stylesheet waiting to be fetched: its absolute URL, the recursion depth
/// remaining below it, and whether it is the top-level sheet.
pub struct SheetJob {
    pub url: String,
    pub depth: usize,
    pub top: bool,
}

/// A font waiting to be downloaded: its resolved URL, the reference it was
/// written as (which names its icons), and whether its stylesheet is the
/// top-level one.
pub struct FontJob {
    pub abs: String,
    pub rel: String,
    pub top: bool,
}

/// What the shell should do next.
pub enum Action {
    FetchStylesheet(SheetJob),
    FetchFont(FontJob),
    Finished,
}

/// The character views of a sequence of strings.
pub open spec fn str_views(vs: Seq<String>) -> Seq<Seq<char>> {
    vs.map_values(|s: String| s@)
}

/// The candidates that resolve against the base, each with its resolved
/// serialisation, in candidate order: exactly the fonts one stylesheet
/// contributes to the download queue.
pub open spec fn resolved_fonts(cands: Seq<Seq<char>>, base: Seq<char>) -> Seq<
    (Seq<char>, Seq<char>),
>
    decreases cands.len(),
{
    if cands.len() == 0 {
        Seq::empty()
    } else {
        let rest = resolved_fonts(cands.drop_last(), base);
        match join_of(base, cands.last()) {
            Some(abs) => rest.push((cands.last(), abs)),
            None => rest,
        }
    }
}

/// The resolved serialisation of an acceptable import: the literal must
/// resolve against the base, keep the base's host, and change its path;
/// malformed, cross-host and self imports yield `None`.
pub open spec fn import_accepted(lit: Seq<char>, base: Seq<char>) -> Option<Seq<char>> {
    match join_of(base, lit) {
        Some(abs) => if host_of(abs) == host_of(base) && path_of(abs) != path_of(base) {
            Some(abs)
        } else {
            None
        },
        None => None,
    }
}

/// The acceptable imports that are new against the visited set, in literal
/// order, each resolved serialisation once: exactly the stylesheets one
/// stylesheet contributes to the fetch queue.
pub open spec fn accepted_imports(
    lits: Seq<Seq<char>>,
    base: Seq<char>,
    visited: Seq<Seq<char>>,
) -> Seq<Seq<char>>
    decreases lits.len(),
{
    if lits.len() == 0 {
        Seq::empty()
    } else {
        let pre = accepted_imports(lits.drop_last(), base, visited);
        match import_accepted(lits.last(), base) {
            Some(abs) => if visited.contains(abs) || pre.contains(abs) {
                pre
            } else {
                pre.push(abs)
            },
            None => pre,
        }
    }
}

/// When the candidates are pairwise distinct (as one stylesheet's candidates
/// are), so are the references of the resolved font jobs: a font URL written
/// twice in one stylesheet is downloaded once.
pub proof fn lemma_resolved_fonts_distinct(cands: Seq<Seq<char>>, base: Seq<char>)
    requires
        forall|i: int, j: int| 0 <= i < j < cands.len() ==> cands[i] != cands[j],
    ensures
        forall|i: int|
            0 <= i < resolved_fonts(cands, base).len() ==> cands.contains(
                (#[trigger] resolved_fonts(cands, base)[i]).0,
            ),
        forall|i: int, j: int|
            0 <= i < j < resolved_fonts(cands, base).len() ==> resolved_fonts(cands, base)[i].0
                != resolved_fonts(cands, base)[j].0,
    decreases cands.len(),
{
    if cands.len() > 0 {
        let d = cands.drop_last();
        assert(forall|i: int, j: int| 0 <= i < j < d.len() ==> d[i] != d[j]) by {
            assert(forall|i: int| 0 <= i < d.len() ==> d[i] == cands[i]);
        }
        lemma_resolved_fonts_distinct(d, base);
        let rest = resolved_fonts(d, base);
        let all = resolved_fonts(cands, base);
        assert forall|i: int| 0 <= i < all.len() implies cands.contains(
            (#[trigger] all[i]).0,
        ) by {
            if i < rest.len() {
                assert(d.contains(rest[i].0));
                let w = choose|w: int| 0 <= w < d.len() && d[w] == rest[i].0;
                assert(cands[w] == rest[i].0);
            } else {
                assert(all[i].0 == cands.last());
                assert(cands[cands.len() - 1] == cands.last());
            }
        }
        assert forall|i: int, j: int| 0 <= i < j < all.len() implies all[i].0 != all[j].0 by {
            if j == rest.len() {
                assert(all[j].0 == cands.last());
                assert(d.contains(rest[i].0));
                let w = choose|w: int| 0 <= w < d.len() && d[w] == rest[i].0;
                assert(cands[w] == all[i].0);
            }
        }
    }
}

/// The imports one stylesheet enqueues were never visited before and are
/// pairwise distinct: no stylesheet is fetched twice.
pub proof fn lemma_accepted_imports_fresh(
    lits: Seq<Seq<char>>,
    base: Seq<char>,
    visited: Seq<Seq<char>>,
)
    ensures
        forall|i: int|
            0 <= i < accepted_imports(lits, base, visited).len() ==> !visited.contains(
                #[trigger] accepted_imports(lits, base, visited)[i],
            ),
        forall|i: int, j: int|
            0 <= i < j < accepted_imports(lits, base, visited).len() ==> accepted_imports(
                lits,
                base,
                visited,
            )[i] != accepted_imports(lits, base, visited)[j],
    decreases lits.len(),
{
    if lits.len() > 0 {
        lemma_accepted_imports_fresh(lits.drop_last(), base, visited);
        let pre = accepted_imports(lits.drop_last(), base, visited);
        let all = accepted_imports(lits, base, visited);
        if all.len() > pre.len() {
            assert forall|i: int, j: int| 0 <= i < j < all.len() implies all[i] != all[j] by {
                if j == pre.len() {
                    assert(pre.contains(pre[i]));
                }
            }
        }
    }
}

fn string_eq(a: &String, b: &String) -> (r: bool)
    ensures
        r == (a@ == b@),
{
    a.eq(b)
}

fn opt_string_eq(a: &Option<String>, b: &Option<String>) -> (r: bool)
    ensures
        r == match (a, b) {
            (Some(x), Some(y)) => x@ == y@,
            (None, None) => true,
            _ => false,
        },
{
    match (a, b) {
        (Some(x), Some(y)) => x.eq(y),
        (None, None) => true,
        _ => false,
    }
}

fn contains_string(vs: &Vec<String>, s: &String) -> (r: bool)
    ensures
        r == str_views(vs@).contains(s@),
{
    let mut i: usize = 0;
    while i < vs.len()
        invariant
            0 <= i <= vs@.len(),
            forall|j: int| 0 <= j < i ==> str_views(vs@)[j] != s@,
        decreases vs@.len() - i,
    {
        if vs[i].eq(s) {
            assert(str_views(vs@)[i as int] == s@);
            return true;
        }
        i = i + 1;
    }
    assert(forall|j: int| 0 <= j < str_views(vs@).len() ==> str_views(vs@)[j] != s@);
    false
}

/// The crawl state.
pub struct Crawler {
    /// Stylesheets still to fetch, in order.
    pub sheets: Vec<SheetJob>,
    /// Fonts still to download, in order; always served before stylesheets.
    pub fonts: Vec<FontJob>,
    /// Resolved stylesheet URLs ever enqueued, the root included.
    pub visited: Vec<String>,
    /// Icon records accumulated so far: name and vector-image markup.
    pub records: Vec<(String, String)>,
    /// A fatal failure happened; the crawl is over.
    pub failed: bool,
}

impl Crawler {
    /// Start a crawl at the root stylesheet with the given recursion depth.
    pub fn new(root_url: String, depth: usize) -> (c: Crawler)
        ensures
            c.sheets@.len() == 1,
            c.sheets@[0].url == root_url,
            c.sheets@[0].depth == depth,
            c.sheets@[0].top == true,
            c.fonts@.len() == 0,
            c.visited@.len() == 1,
            c.visited@[0] == root_url,
            c.records@.len() == 0,
            !c.failed,
    {
        let mut sheets: Vec<SheetJob> = Vec::new();
        let mut visited: Vec<String> = Vec::new();
        visited.push(root_url.clone());
        sheets.push(SheetJob { url: root_url, depth, top: true });
        Crawler { sheets, fonts: Vec::new(), visited, records: Vec::new(), failed: false }
    }

    /// The next unit of work: fonts of the current stylesheet first, then the
    /// next stylesheet; `Finished` once everything is done or a fatal failure
    /// happened.
    pub fn next(&mut self) -> (a: Action)
        ensures
            match a {
                Action::Finished => {
                    &&& *final(self) == *old(self)
                    &&& old(self).failed || (old(self).fonts@.len() == 0 && old(
                        self,
                    ).sheets@.len() == 0)
                },
                Action::FetchFont(f) => {
                    &&& !old(self).failed
                    &&& old(self).fonts@.len() > 0
                    &&& f == old(self).fonts@[0]
                    &&& final(self).fonts@ == old(self).fonts@.skip(1)
                    &&& final(self).sheets == old(self).sheets
                    &&& final(self).visited == old(self).visited
                    &&& final(self).records == old(self).records
                    &&& final(self).failed == old(self).failed
                },
                Action::FetchStylesheet(s) => {
                    &&& !old(self).failed
                    &&& old(self).fonts@.len() == 0
                    &&& old(self).sheets@.len() > 0
                    &&& s == old(self).sheets@[0]
                    &&& final(self).sheets@ == old(self).sheets@.skip(1)
                    &&& final(self).fonts == old(self).fonts
                    &&& final(self).visited == old(self).visited
                    &&& final(self).records == old(self).records
                    &&& final(self).failed == old(self).failed
                },
            },
    {
        if self.failed {
            return Action::Finished;
        }
        if self.fonts.len() > 0 {
            let f = self.fonts.remove(0);
            assert(self.fonts@ =~= old(self).fonts@.skip(1));
            return Action::FetchFont(f);
        }
        if self.sheets.len() > 0 {
            let s = self.sheets.remove(0);
            assert(self.sheets@ =~= old(self).sheets@.skip(1));
            return Action::FetchStylesheet(s);
        }
        Action::Finished
    }

    /// A stylesheet was fetched. Exactly one font job is enqueued for each
    /// candidate font URL that resolves against the stylesheet's URL, in
    /// candidate order, carrying the resolved serialisation; candidates are
    /// unique within the stylesheet, so each is downloaded once. Only when
    /// depth remains, exactly one sheet job is enqueued for each import
    /// literal that resolves, keeps the host, changes the path and was not
    /// visited before, in literal order; the visited set grows by exactly
    /// those URLs.
    pub fn stylesheet_ok(&mut self, job: &SheetJob, text: &Vec<char>)
        ensures
            final(self).records == old(self).records,
            final(self).failed == old(self).failed,
            ({
                let fj = resolved_fonts(font_urls_spec(text@), job.url@);
                &&& final(self).fonts@.len() == old(self).fonts@.len() + fj.len()
                &&& final(self).fonts@.subrange(0, old(self).fonts@.len() as int)
                    == old(self).fonts@
                &&& forall|i: int|
                    0 <= i < fj.len() ==> {
                        let f = #[trigger] final(self).fonts@[old(self).fonts@.len() + i];
                        f.rel@ == fj[i].0 && f.abs@ == fj[i].1 && f.top == job.top
                    }
            }),
            job.depth == 0 ==> final(self).sheets == old(self).sheets && final(self).visited
                == old(self).visited,
            job.depth > 0 ==> ({
                let acc = accepted_imports(
                    import_urls_spec(text@),
                    job.url@,
                    str_views(old(self).visited@),
                );
                &&& final(self).sheets@.len() == old(self).sheets@.len() + acc.len()
                &&& final(self).sheets@.subrange(0, old(self).sheets@.len() as int)
                    == old(self).sheets@
                &&& forall|i: int|
                    0 <= i < acc.len() ==> {
                        let s = #[trigger] final(self).sheets@[old(self).sheets@.len() + i];
                        s.url@ == acc[i] && s.depth + 1 == job.depth && s.top == false
                    }
                &&& str_views(final(self).visited@) == str_views(old(self).visited@) + acc
            }),
    {
        let urls = extract_font_urls(text);
        let ghost uviews = views(urls@);
        let ghost base_v = job.url@;
        let ghost old_flen = self.fonts@.len() as int;
        let mut i: usize = 0;
        assert(self.fonts@.subrange(0, old_flen) =~= self.fonts@);
        while i < urls.len()
            invariant
                0 <= i <= urls@.len(),
                uviews == views(urls@),
                uviews == font_urls_spec(text@),
                base_v == job.url@,
                old_flen == old(self).fonts@.len(),
                self.records == old(self).records,
                self.failed == old(self).failed,
                self.visited == old(self).visited,
                self.sheets == old(self).sheets,
                self.fonts@.len() == old_flen + resolved_fonts(uviews.take(i as int), base_v).len(),
                self.fonts@.subrange(0, old_flen) == old(self).fonts@,
                forall|j: int|
                    0 <= j < resolved_fonts(uviews.take(i as int), base_v).len() ==> {
                        let f = #[trigger] self.fonts@[old_flen + j];
                        f.rel@ == resolved_fonts(uviews.take(i as int), base_v)[j].0 && f.abs@
                            == resolved_fonts(uviews.take(i as int), base_v)[j].1 && f.top
                            == job.top
                    },
            decreases urls@.len() - i,
        {
            let rel = chars_to_string(&urls[i]);
            let ghost pre_r = resolved_fonts(uviews.take(i as int), base_v);
            let ghost post_r = resolved_fonts(uviews.take(i + 1), base_v);
            proof {
                assert(uviews.take(i + 1).drop_last() =~= uviews.take(i as int));
                assert(uviews.take(i + 1).last() == uviews[i as int]);
            }
            match resolve_url(job.url.as_str(), rel.as_str()) {
                Some(abs) => {
                    let ghost av = abs@;
                    let ghost pre_f = self.fonts@;
                    self.fonts.push(FontJob { abs, rel, top: job.top });
                    proof {
                        assert(join_of(base_v, uviews[i as int]) == Some(av));
                        assert(post_r == pre_r.push((uviews[i as int], av)));
                        assert(self.fonts@.subrange(0, old_flen) =~= pre_f.subrange(0, old_flen));
                        assert forall|j: int| 0 <= j < post_r.len() implies {
                            let f = #[trigger] self.fonts@[old_flen + j];
                            f.rel@ == post_r[j].0 && f.abs@ == post_r[j].1 && f.top == job.top
                        } by {
                            if j < pre_r.len() {
                                assert(self.fonts@[old_flen + j] == pre_f[old_flen + j]);
                                assert(post_r[j] == pre_r[j]);
                            } else {
                                assert(self.fonts@[old_flen + j] == self.fonts@.last());
                            }
                        }
                    }
                },
                None => {
                    proof {
                        assert(join_of(base_v, uviews[i as int]) is None);
                        assert(post_r == pre_r);
                    }
                },
            }
            i = i + 1;
        }
        proof {
            assert(uviews.take(i as int) =~= uviews);
        }
        if job.depth > 0 {
            let imports = extract_imports(text);
            let ghost lits = views(imports@);
            let ghost old_vviews = str_views(self.visited@);
            let ghost old_slen = self.sheets@.len() as int;
            let ghost fonts_snap = self.fonts@;
            let cur_host = host_of_url(job.url.as_str());
            let cur_path = path_of_url(job.url.as_str());
            let mut k: usize = 0;
            assert(self.sheets@.subrange(0, old_slen) =~= self.sheets@);
            assert(str_views(self.visited@) =~= old_vviews + accepted_imports(
                lits.take(0),
                base_v,
                old_vviews,
            ));
            while k < imports.len()
                invariant
                    0 <= k <= imports@.len(),
                    lits == views(imports@),
                    lits == import_urls_spec(text@),
                    base_v == job.url@,
                    job.depth > 0,
                    old_slen == old(self).sheets@.len(),
                    old_vviews == str_views(old(self).visited@),
                    match cur_host {
                        Some(h) => host_of(base_v) == Some(h@),
                        None => host_of(base_v) is None,
                    },
                    cur_path@ == path_of(base_v),
                    self.records == old(self).records,
                    self.failed == old(self).failed,
                    self.fonts@ == fonts_snap,
                    self.sheets@.len() == old_slen + accepted_imports(
                        lits.take(k as int),
                        base_v,
                        old_vviews,
                    ).len(),
                    self.sheets@.subrange(0, old_slen) == old(self).sheets@,
                    forall|j: int|
                        0 <= j < accepted_imports(lits.take(k as int), base_v, old_vviews).len()
                            ==> {
                            let s = #[trigger] self.sheets@[old_slen + j];
                            s.url@ == accepted_imports(lits.take(k as int), base_v, old_vviews)[j]
                                && s.depth + 1 == job.depth && s.top == false
                        },
                    str_views(self.visited@) == old_vviews + accepted_imports(
                        lits.take(k as int),
                        base_v,
                        old_vviews,
                    ),
                decreases imports@.len() - k,
            {
                let lit = chars_to_string(&imports[k]);
                let ghost pre_a = accepted_imports(lits.take(k as int), base_v, old_vviews);
                let ghost post_a = accepted_imports(lits.take(k + 1), base_v, old_vviews);
                proof {
                    assert(lits.take(k + 1).drop_last() =~= lits.take(k as int));
                    assert(lits.take(k + 1).last() == lits[k as int]);
                }
                match resolve_url(job.url.as_str(), lit.as_str()) {
                    Some(abs) => {
                        let ghost av = abs@;
                        proof {
                            assert(join_of(base_v, lits[k as int]) == Some(av));
                        }
                        let h = host_of_url(abs.as_str());
                        let p = path_of_url(abs.as_str());
                        let host_ok = opt_string_eq(&h, &cur_host);
                        let path_same = string_eq(&p, &cur_path);
                        proof {
                            assert(host_ok == (host_of(av) == host_of(base_v))) by {
                                match (h, cur_host) {
                                    (Some(x), Some(y)) => {
                                        assert(host_of(av) == Some(x@));
                                        assert(host_of(base_v) == Some(y@));
                                    },
                                    (Some(x), None) => {
                                        assert(host_of(av) == Some(x@));
                                    },
                                    (None, Some(y)) => {
                                        assert(host_of(base_v) == Some(y@));
                                    },
                                    (None, None) => {},
                                }
                            }
                            assert(path_same == (path_of(av) == path_of(base_v)));
                        }
                        if host_ok && !path_same {
                            proof {
                                assert(import_accepted(lits[k as int], base_v) == Some(av));
                            }
                            if !contains_string(&self.visited, &abs) {
                                proof {
                                    assert(!old_vviews.contains(av) && !pre_a.contains(av)) by {
                                        if old_vviews.contains(av) {
                                            let w = choose|w: int|
                                                0 <= w < old_vviews.len() && old_vviews[w] == av;
                                            assert(str_views(self.visited@)[w] == av);
                                        }
                                        if pre_a.contains(av) {
                                            let w = choose|w: int|
                                                0 <= w < pre_a.len() && pre_a[w] == av;
                                            assert(str_views(self.visited@)[old_vviews.len() + w]
                                                == av);
                                        }
                                    }
                                    assert(post_a == pre_a.push(av));
                                }
                                let ghost pre_sheets = self.sheets@;
                                let ghost pre_visited = self.visited@;
                                let abs2 = abs.clone();
                                self.visited.push(abs);
                                let d: usize = job.depth - 1;
                                self.sheets.push(SheetJob { url: abs2, depth: d, top: false });
                                proof {
                                    assert(self.sheets@.subrange(0, old_slen) =~= pre_sheets
                                        .subrange(0, old_slen));
                                    assert(str_views(self.visited@) =~= str_views(
                                        pre_visited,
                                    ).push(av));
                                    assert(str_views(self.visited@) =~= old_vviews + post_a);
                                    assert forall|j: int| 0 <= j < post_a.len() implies {
                                        let s = #[trigger] self.sheets@[old_slen + j];
                                        s.url@ == post_a[j] && s.depth + 1 == job.depth && s.top
                                            == false
                                    } by {
                                        if j < pre_a.len() {
                                            assert(self.sheets@[old_slen + j]
                                                == pre_sheets[old_slen + j]);
                                            assert(post_a[j] == pre_a[j]);
                                        } else {
                                            assert(self.sheets@[old_slen + j]
                                                == self.sheets@.last());
                                        }
                                    }
                                }
                            } else {
                                proof {
                                    assert(old_vviews.contains(av) || pre_a.contains(av)) by {
                                        let w = choose|w: int|
                                            0 <= w < str_views(self.visited@).len()
                                                && #[trigger] str_views(self.visited@)[w] == av;
                                        if w < old_vviews.len() {
                                            assert(old_vviews[w] == av);
                                        } else {
                                            assert(pre_a[w - old_vviews.len()] == av);
                                        }
                                    }
                                    assert(post_a == pre_a);
                                }
                            }
                        } else {
                            proof {
                                assert(import_accepted(lits[k as int], base_v) is None);
                                assert(post_a == pre_a);
                            }
                        }
                    },
                    None => {
                        proof {
                            assert(join_of(base_v, lits[k as int]) is None);
                            assert(import_accepted(lits[k as int], base_v) is None);
                            assert(post_a == pre_a);
                        }
                    },
                }
                k = k + 1;
            }
            proof {
                assert(lits.take(k as int) =~= lits);
            }
        }
    }

    /// The top-level stylesheet failing to arrive is fatal; a failed import
    /// branch is skipped.
    pub fn stylesheet_failed(&mut self, job: &SheetJob)
        ensures
            final(self).failed == (old(self).failed || job.top),
            final(self).sheets == old(self).sheets,
            final(self).fonts == old(self).fonts,
            final(self).visited == old(self).visited,
            final(self).records == old(self).records,
    {
        if job.top {
            self.failed = true;
        }
    }

    /// A font of the top-level stylesheet failing to arrive or to decode is
    /// fatal; one of an import branch is skipped.
    pub fn font_failed(&mut self, job: &FontJob)
        ensures
            final(self).failed == (old(self).failed || job.top),
            final(self).sheets == old(self).sheets,
            final(self).fonts == old(self).fonts,
            final(self).visited == old(self).visited,
            final(self).records == old(self).records,
    {
        if job.top {
            self.failed = true;
        }
    }

    /// A font arrived and was decoded: append one record per glyph with an
    /// outline, named by the normalised font reference, a dash, and the glyph
    /// name.
    pub fn font_ok(&mut self, job: &FontJob, glyphs: &Vec<Glyph>)
        requires
            forall|i: int| 0 <= i < glyphs@.len() ==> glyph_wf(#[trigger] glyphs@[i]),
        ensures
            final(self).sheets == old(self).sheets,
            final(self).fonts == old(self).fonts,
            final(self).visited == old(self).visited,
            final(self).failed == old(self).failed,
            final(self).records@.len() == old(self).records@.len() + font_records(glyphs@).len(),
            final(self).records@.subrange(0, old(self).records@.len() as int)
                == old(self).records@,
            forall|i: int|
                0 <= i < font_records(glyphs@).len() ==> (#[trigger] final(self).records@[old(self).records@.len() + i]).0@ == normalize_spec(job.rel@) + seq!['-'] + font_records(
                    glyphs@,
                )[i].0 && final(self).records@[old(self).records@.len() + i].1@ == font_records(
                    glyphs@,
                )[i].1,
    {
        let recs = font_to_svg(glyphs);
        let prefix = normalize(job.rel.as_str());
        let ghost old_rlen = self.records@.len() as int;
        let mut i: usize = 0;
        assert(self.records@.subrange(0, old_rlen) =~= self.records@);
        while i < recs.len()
            invariant
                0 <= i <= recs@.len(),
                old_rlen == old(self).records@.len(),
                prefix@ == normalize_spec(job.rel@),
                recs@.len() == font_records(glyphs@).len(),
                forall|j: int|
                    0 <= j < recs@.len() ==> (#[trigger] recs@[j]).0@ == font_records(
                        glyphs@,
                    )[j].0 && recs@[j].1@ == font_records(glyphs@)[j].1,
                self.sheets == old(self).sheets,
                self.fonts == old(self).fonts,
                self.visited == old(self).visited,
                self.failed == old(self).failed,
                self.records@.len() == old_rlen + i,
                self.records@.subrange(0, old_rlen) == old(self).records@,
                forall|j: int|
                    0 <= j < i ==> (#[trigger] self.records@[old_rlen + j]).0@ == normalize_spec(
                        job.rel@,
                    ) + seq!['-'] + font_records(glyphs@)[j].0 && self.records@[old_rlen + j].1@
                        == font_records(glyphs@)[j].1,
            decreases recs@.len() - i,
        {
            let mut name = String::new();
            name.append(prefix.as_str());
            push_char(&mut name, '-');
            name.append(recs[i].0.as_str());
            let doc = recs[i].1.clone();
            let ghost pre = self.records@;
            self.records.push((name, doc));
            i = i + 1;
            proof {
                assert(self.records@.subrange(0, old_rlen) =~= pre.subrange(0, old_rlen));
                assert(self.records@[old_rlen + (i - 1)].0@ =~= normalize_spec(job.rel@)
                    + seq!['-'] + font_records(glyphs@)[i - 1].0);
            }
        }
    }

    /// The crawl's outcome: the accumulated records, or `None` after a fatal
    /// failure.
    pub fn finish(self) -> (r: Option<Vec<(String, String)>>)
        ensures
            match r {
                None => self.failed,
                Some(v) => !self.failed && v == self.records,
            },
    {
        if self.failed {
            None
        } else {
            Some(self.records)
        }
    }
}

} // verus!

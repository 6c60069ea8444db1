//! Deriving a stable icon-name prefix from a font resource URL, and computing
//! a reference's file extension.
//!
//! A URL is first stripped of its query and fragment. The extension is what
//! follows the last `'.'` of the rest. The normalised name is the last
//! non-empty `'/'`-separated component of the part before the extension, with
//! a leading `fa-` prefix removed, and with every dash-separated segment that
//! parses entirely as an unsigned 32-bit integer dropped.

use vstd::prelude::*;
use crate::text::{
    find_char_from, rfind_char, rfind_other, find_char, rfind_char_exec, rfind_other_exec, subvec,
    str_to_chars, chars_to_string, push_char,
};
use crate::numerals::{is_u32_numeral, is_u32_numeral_exec};

verus! {

/// The URL up to (and not including) its first `'?'` or `'#'`.
pub open spec fn strip_query_fragment(s: Seq<char>) -> Seq<char> {
    let q = s.take(find_char_from(s, 0, '?'));
    q.take(find_char_from(q, 0, '#'))
}

/// Everything before the last `'.'`; the whole string when it has none.
pub open spec fn head_before_ext(t: Seq<char>) -> Seq<char> {
    if rfind_char(t, '.') >= 0 {
        t.take(rfind_char(t, '.'))
    } else {
        t
    }
}

/// The last non-empty `'/'`-separated component; empty when there is none.
pub open spec fn last_component(h: Seq<char>) -> Seq<char> {
    let e = rfind_other(h, '/');
    if e < 0 {
        Seq::empty()
    } else {
        let b = rfind_char(h.take(e + 1), '/');
        h.subrange(b + 1, e + 1)
    }
}

/// Remove a leading `fa-`, when present.
pub open spec fn strip_fa(b: Seq<char>) -> Seq<char> {
    if b.len() >= 3 && b[0] == 'f' && b[1] == 'a' && b[2] == '-' {
        b.skip(3)
    } else {
        b
    }
}

/// Split on `c`; a string without `c` is the one-element split of itself.
pub open spec fn split_on(s: Seq<char>, c: char) -> Seq<Seq<char>>
    decreases s.len(),
{
    let i = find_char_from(s, 0, c);
    if 0 <= i < s.len() {
        seq![s.take(i)] + split_on(s.skip(i + 1), c)
    } else {
        seq![s]
    }
}

/// Join with `'-'` between consecutive parts.
pub open spec fn join_dash(ps: Seq<Seq<char>>) -> Seq<char>
    decreases ps.len(),
{
    if ps.len() == 0 {
        Seq::empty()
    } else if ps.len() == 1 {
        ps[0]
    } else {
        ps[0] + seq!['-'] + join_dash(ps.skip(1))
    }
}

/// The extension of a font reference: the last `'.'`-delimited segment after
/// the query and fragment are stripped.
pub open spec fn ext_spec(s: Seq<char>) -> Seq<char> {
    let h = strip_query_fragment(s);
    h.skip(rfind_char(h, '.') + 1)
}

/// The normalised font-family slug of a font reference URL.
pub open spec fn normalize_spec(s: Seq<char>) -> Seq<char> {
    let base = strip_fa(last_component(head_before_ext(strip_query_fragment(s))));
    join_dash(split_on(base, '-').filter(|p: Seq<char>| !is_u32_numeral(p)))
}

/// File extension of a reference, with any `?query` and `#fragment` removed
/// first. The split always yields a segment, so the result is always `Some`.
pub fn ext(file_name: &str) -> (r: Option<String>)
    ensures
        r matches Some(e) && e@ == ext_spec(file_name@),
{
    let v = str_to_chars(file_name);
    let tail = ext_chars(&v);
    Some(chars_to_string(&tail))
}

/// The extension computation over a character buffer.
pub fn ext_chars(v: &Vec<char>) -> (r: Vec<char>)
    ensures
        r@ == ext_spec(v@),
{
    let h = strip_query_fragment_exec(&v);
    proof {
        crate::text::lemma_rfind_char_bounds(h@, '.');
    }
    let n: usize = h.len();
    let start: usize = match rfind_char_exec(&h, '.') {
        Some(i) => {
            assert(i < n);
            i + 1
        },
        None => 0,
    };
    let tail = subvec(&h, start, h.len());
    assert(tail@ =~= h@.skip(rfind_char(h@, '.') + 1));
    tail
}

/// The query/fragment stripping shared by `ext` and `normalize`.
fn strip_query_fragment_exec(v: &Vec<char>) -> (r: Vec<char>)
    ensures
        r@ == strip_query_fragment(v@),
{
    proof {
        crate::text::lemma_find_char_from_bounds(v@, 0, '?');
    }
    let q = find_char(v, 0, '?');
    let w = subvec(v, 0, q);
    assert(w@ =~= v@.take(q as int));
    proof {
        crate::text::lemma_find_char_from_bounds(w@, 0, '#');
    }
    let h = find_char(&w, 0, '#');
    let r = subvec(&w, 0, h);
    assert(r@ =~= w@.take(h as int));
    r
}

/// Joined non-numeral dash-segments of `v`; `None` when every segment is a
/// numeral (so that the caller can tell an empty final segment apart).
fn filter_join(v: &Vec<char>) -> (r: Option<String>)
    ensures
        ({
            let kept = split_on(v@, '-').filter(|p: Seq<char>| !is_u32_numeral(p));
            match r {
                None => kept.len() == 0,
                Some(s) => kept.len() > 0 && s@ == join_dash(kept),
            }
        }),
    decreases v@.len(),
{
    let ghost pred = |p: Seq<char>| !is_u32_numeral(p);
    proof {
        crate::text::lemma_find_char_from_bounds(v@, 0, '-');
    }
    let i = find_char(v, 0, '-');
    if i == v.len() {
        proof {
            lemma_filter_singleton(v@, pred);
            assert(split_on(v@, '-') == seq![v@]);
        }
        if is_u32_numeral_exec(v) {
            None
        } else {
            Some(chars_to_string(v))
        }
    } else {
        let part = subvec(v, 0, i);
        let rest = subvec(v, i + 1, v.len());
        proof {
            assert(rest@ =~= v@.skip(i + 1));
            assert(split_on(v@, '-') == seq![v@.take(i as int)] + split_on(rest@, '-'));
            Seq::filter_distributes_over_add(seq![v@.take(i as int)], split_on(rest@, '-'), pred);
            lemma_filter_singleton(v@.take(i as int), pred);
        }
        let tail = filter_join(&rest);
        let ghost kept_rest = split_on(rest@, '-').filter(pred);
        let ghost kept = split_on(v@, '-').filter(pred);
        if is_u32_numeral_exec(&part) {
            proof {
                assert(kept =~= kept_rest);
            }
            tail
        } else {
            proof {
                assert(kept =~= seq![part@] + kept_rest);
            }
            match tail {
                None => {
                    proof {
                        assert(kept =~= seq![part@]);
                    }
                    Some(chars_to_string(&part))
                },
                Some(t) => {
                    let mut s = chars_to_string(&part);
                    push_char(&mut s, '-');
                    s.append(t.as_str());
                    proof {
                        assert(kept[0] == part@);
                        assert(kept.skip(1) =~= kept_rest);
                        assert(s@ =~= join_dash(kept));
                    }
                    Some(s)
                },
            }
        }
    }
}

pub proof fn lemma_filter_singleton(x: Seq<char>, pred: spec_fn(Seq<char>) -> bool)
    ensures
        seq![x].filter(pred) == if pred(x) {
            seq![x]
        } else {
            Seq::<Seq<char>>::empty()
        },
{
    reveal_with_fuel(Seq::filter, 2);
    assert(seq![x].drop_last() =~= Seq::<Seq<char>>::empty());
    assert(seq![x].last() == x);
    if pred(x) {
        assert(seq![x].filter(pred) =~= seq![x]);
    }
}

/// Normalised font-family slug of a font reference URL, e.g. a reference to
/// `fonts/fa-solid-900.ttf?v=5.0.0` normalises to `solid`.
///
/// Total, deliberately: a usable non-empty base-name segment is a
/// precondition of the described algorithm, and on a reference without one
/// (an empty string, `/`, `..`) this function returns the empty slug rather
/// than reject or panic, as the second `ensures` clause states.
pub fn normalize(string: &str) -> (r: String)
    ensures
        r@ == normalize_spec(string@),
        last_component(head_before_ext(strip_query_fragment(string@))).len() == 0 ==> r@
            == Seq::<char>::empty(),
{
    let v = str_to_chars(string);
    let t = strip_query_fragment_exec(&v);
    proof {
        crate::text::lemma_rfind_char_bounds(t@, '.');
    }
    let head = match rfind_char_exec(&t, '.') {
        Some(i) => subvec(&t, 0, i),
        None => t,
    };
    assert(head@ == head_before_ext(strip_query_fragment(v@)));
    proof {
        crate::text::lemma_rfind_other_bounds(head@, '/');
    }
    let base: Vec<char> = match rfind_other_exec(&head, '/') {
        None => {
            let empty: Vec<char> = Vec::new();
            assert(empty@ =~= last_component(head@));
            empty
        },
        Some(e) => {
            let pre = subvec(&head, 0, e + 1);
            assert(pre@ =~= head@.take(e + 1));
            proof {
                crate::text::lemma_rfind_char_bounds(pre@, '/');
            }
            let b: usize = match rfind_char_exec(&pre, '/') {
                Some(bi) => bi + 1,
                None => 0,
            };
            assert(b == rfind_char(head@.take(e + 1), '/') + 1);
            let comp = subvec(&head, b, e + 1);
            assert(comp@ =~= last_component(head@));
            comp
        },
    };
    let base2: Vec<char> = if base.len() >= 3 && base[0] == 'f' && base[1] == 'a' && base[2]
        == '-' {
        let stripped = subvec(&base, 3, base.len());
        assert(stripped@ =~= base@.skip(3));
        stripped
    } else {
        base
    };
    assert(base2@ == strip_fa(last_component(head_before_ext(strip_query_fragment(v@)))));
    let result = match filter_join(&base2) {
        Some(s) => s,
        None => {
            let r = String::new();
            assert(r@ =~= normalize_spec(v@));
            r
        },
    };
    proof {
        if last_component(head_before_ext(strip_query_fragment(v@))).len() == 0 {
            lemma_normalize_empty_base(v@);
        }
    }
    result
}

/// A reference without a usable base-name segment normalises to the empty
/// slug.
proof fn lemma_normalize_empty_base(s: Seq<char>)
    requires
        last_component(head_before_ext(strip_query_fragment(s))).len() == 0,
    ensures
        normalize_spec(s) == Seq::<char>::empty(),
{
    let base = strip_fa(last_component(head_before_ext(strip_query_fragment(s))));
    assert(base =~= Seq::<char>::empty());
    lemma_filter_singleton(base, |p: Seq<char>| !is_u32_numeral(p));
    assert(split_on(base, '-') == seq![base]);
    assert(!is_u32_numeral(base));
    assert(join_dash(seq![base]) == base);
}

} // verus!

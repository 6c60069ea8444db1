//! Character-level helpers shared by the name normaliser and the stylesheet
//! scanner: locating characters and literal words inside a character buffer,
//! and moving between `String` values and `Vec<char>` buffers.

use vstd::prelude::*;

verus! {

/// Index of the first occurrence of `c` in `s` at or after `from`;
/// `s.len()` when there is none.
pub open spec fn find_char_from(s: Seq<char>, from: int, c: char) -> int
    decreases s.len() - from,
{
    if from < 0 || from >= s.len() {
        s.len() as int
    } else if s[from] == c {
        from
    } else {
        find_char_from(s, from + 1, c)
    }
}

/// Index of the last occurrence of `c` in `s`, or `-1` when there is none.
pub open spec fn rfind_char(s: Seq<char>, c: char) -> int
    decreases s.len(),
{
    if s.len() == 0 {
        -1
    } else if s[s.len() - 1] == c {
        s.len() - 1
    } else {
        rfind_char(s.drop_last(), c)
    }
}

/// The word `lit` occurs in `s` starting at index `i`.
pub open spec fn lit_at(s: Seq<char>, i: int, lit: Seq<char>) -> bool {
    &&& 0 <= i
    &&& i + lit.len() <= s.len()
    &&& s.subrange(i, i + lit.len()) == lit
}

pub proof fn lemma_find_char_from_bounds(s: Seq<char>, from: int, c: char)
    requires
        0 <= from <= s.len(),
    ensures
        from <= find_char_from(s, from, c) <= s.len(),
        find_char_from(s, from, c) < s.len() ==> s[find_char_from(s, from, c)] == c,
        forall|j: int| from <= j < find_char_from(s, from, c) ==> s[j] != c,
    decreases s.len() - from,
{
    if from < s.len() && s[from] != c {
        lemma_find_char_from_bounds(s, from + 1, c);
    }
}

pub proof fn lemma_rfind_char_bounds(s: Seq<char>, c: char)
    ensures
        -1 <= rfind_char(s, c) < s.len(),
        rfind_char(s, c) >= 0 ==> s[rfind_char(s, c)] == c,
        forall|j: int| rfind_char(s, c) < j < s.len() ==> s[j] != c,
    decreases s.len(),
{
    if s.len() > 0 && s[s.len() - 1] != c {
        lemma_rfind_char_bounds(s.drop_last(), c);
        assert forall|j: int| rfind_char(s, c) < j < s.len() implies s[j] != c by {
            if j < s.len() - 1 {
                assert(s.drop_last()[j] == s[j]);
            }
        }
    }
}

/// Index of the last character of `s` that differs from `c`, or `-1` when
/// every character equals `c` (in particular when `s` is empty).
pub open spec fn rfind_other(s: Seq<char>, c: char) -> int
    decreases s.len(),
{
    if s.len() == 0 {
        -1
    } else if s[s.len() - 1] != c {
        s.len() - 1
    } else {
        rfind_other(s.drop_last(), c)
    }
}

pub proof fn lemma_rfind_other_bounds(s: Seq<char>, c: char)
    ensures
        -1 <= rfind_other(s, c) < s.len(),
        rfind_other(s, c) >= 0 ==> s[rfind_other(s, c)] != c,
    decreases s.len(),
{
    if s.len() > 0 && s[s.len() - 1] == c {
        lemma_rfind_other_bounds(s.drop_last(), c);
    }
}

/// The character views of a sequence of character buffers.
pub open spec fn views(vs: Seq<Vec<char>>) -> Seq<Seq<char>> {
    vs.map_values(|v: Vec<char>| v@)
}

/// The whitespace characters recognised between stylesheet tokens.
pub open spec fn is_ws(c: char) -> bool {
    c == ' ' || c == '\t' || c == '\n' || c == '\r' || c == '\x0b' || c == '\x0c'
}

/// Index of the first non-whitespace character at or after `from`;
/// `s.len()` when there is none.
pub open spec fn skip_ws(s: Seq<char>, from: int) -> int
    decreases s.len() - from,
{
    if from < 0 || from >= s.len() {
        s.len() as int
    } else if is_ws(s[from]) {
        skip_ws(s, from + 1)
    } else {
        from
    }
}

pub proof fn lemma_skip_ws_bounds(s: Seq<char>, from: int)
    requires
        0 <= from <= s.len(),
    ensures
        from <= skip_ws(s, from) <= s.len(),
        skip_ws(s, from) < s.len() ==> !is_ws(s[skip_ws(s, from)]),
    decreases s.len() - from,
{
    if from < s.len() && is_ws(s[from]) {
        lemma_skip_ws_bounds(s, from + 1);
    }
}

/// First non-whitespace position at or after `from`.
pub fn skip_ws_exec(v: &Vec<char>, from: usize) -> (r: usize)
    requires
        from <= v@.len(),
    ensures
        r == skip_ws(v@, from as int),
    decreases v@.len() - from,
{
    proof {
        lemma_skip_ws_bounds(v@, from as int);
    }
    let mut i: usize = from;
    while i < v.len()
        invariant
            from <= i <= v@.len(),
            skip_ws(v@, from as int) == skip_ws(v@, i as int),
        decreases v@.len() - i,
    {
        let c = v[i];
        if !(c == ' ' || c == '\t' || c == '\n' || c == '\r' || c == '\x0b' || c == '\x0c') {
            return i;
        }
        i = i + 1;
    }
    i
}

/// ASCII lower-casing of one character.
pub open spec fn lower_ascii(c: char) -> char {
    if 65 <= c as u32 && c as u32 <= 90 {
        (((c as u32 + 32) as u8) as char)
    } else {
        c
    }
}

/// The word `lit` (given lower-case) occurs at `i`, letters matched without
/// regard to ASCII case.
pub open spec fn lit_ci_at(s: Seq<char>, i: int, lit: Seq<char>) -> bool {
    &&& 0 <= i
    &&& i + lit.len() <= s.len()
    &&& forall|j: int| 0 <= j < lit.len() ==> lower_ascii(s[i + j]) == lit[j]
}

/// Does the word `lit` occur at `i`, matched without regard to ASCII case?
pub fn lit_ci_matches(v: &Vec<char>, i: usize, lit: &Vec<char>) -> (r: bool)
    ensures
        r == lit_ci_at(v@, i as int, lit@),
{
    if i > v.len() || lit.len() > v.len() - i {
        return false;
    }
    let n: usize = v.len();
    let mut k: usize = 0;
    while k < lit.len()
        invariant
            0 <= k <= lit@.len(),
            n == v@.len(),
            i + lit@.len() <= n,
            forall|j: int| 0 <= j < k ==> lower_ascii(v@[i + j]) == lit@[j],
        decreases lit@.len() - k,
    {
        let c = v[i + k];
        let cv = c as u32;
        let lc: char = if 65 <= cv && cv <= 90 {
            ((cv + 32) as u8) as char
        } else {
            c
        };
        assert(lc == lower_ascii(v@[i + k]));
        if lc != lit[k] {
            return false;
        }
        k = k + 1;
    }
    true
}

/// Are the two character buffers equal?
pub fn vec_chars_eq(a: &Vec<char>, b: &Vec<char>) -> (r: bool)
    ensures
        r == (a@ == b@),
{
    if a.len() != b.len() {
        return false;
    }
    let mut i: usize = 0;
    while i < a.len()
        invariant
            0 <= i <= a@.len(),
            a@.len() == b@.len(),
            forall|j: int| 0 <= j < i ==> a@[j] == b@[j],
        decreases a@.len() - i,
    {
        if a[i] != b[i] {
            return false;
        }
        i = i + 1;
    }
    assert(a@ =~= b@);
    true
}

/// Is the view of `u` among the views of `vs`?
pub fn contains_chars(vs: &Vec<Vec<char>>, u: &Vec<char>) -> (r: bool)
    ensures
        r == views(vs@).contains(u@),
{
    let mut i: usize = 0;
    while i < vs.len()
        invariant
            0 <= i <= vs@.len(),
            forall|j: int| 0 <= j < i ==> views(vs@)[j] != u@,
        decreases vs@.len() - i,
    {
        if vec_chars_eq(&vs[i], u) {
            assert(views(vs@)[i as int] == u@);
            return true;
        }
        i = i + 1;
    }
    assert(forall|j: int| 0 <= j < views(vs@).len() ==> views(vs@)[j] != u@);
    false
}

/// Relies on `String::push`: appends the one character to the end of the string.
#[verifier::external_body]
pub fn push_char(s: &mut String, c: char)
    ensures
        final(s)@ == old(s)@.push(c),
{
    s.push(c)
}

/// Copy the characters of a string slice into a vector.
pub fn str_to_chars(s: &str) -> (r: Vec<char>)
    ensures
        r@ == s@,
{
    let n: usize = s.unicode_len();
    let mut r: Vec<char> = Vec::new();
    let mut i: usize = 0;
    while i < n
        invariant
            n == s@.len(),
            0 <= i <= n,
            r@ == s@.subrange(0, i as int),
        decreases n - i,
    {
        r.push(s.get_char(i));
        i = i + 1;
        assert(r@ =~= s@.subrange(0, i as int));
    }
    assert(r@ =~= s@);
    r
}

/// Build a `String` out of a character buffer.
pub fn chars_to_string(v: &Vec<char>) -> (r: String)
    ensures
        r@ == v@,
{
    let mut r = String::new();
    let mut i: usize = 0;
    while i < v.len()
        invariant
            0 <= i <= v@.len(),
            r@ == v@.subrange(0, i as int),
        decreases v@.len() - i,
    {
        push_char(&mut r, v[i]);
        i = i + 1;
        assert(r@ =~= v@.subrange(0, i as int));
    }
    assert(r@ =~= v@);
    r
}

/// First occurrence of `c` at or after `from`, as an index into `v`;
/// `v.len()` when there is none.
pub fn find_char(v: &Vec<char>, from: usize, c: char) -> (r: usize)
    requires
        from <= v@.len(),
    ensures
        r == find_char_from(v@, from as int, c),
    decreases v@.len() - from,
{
    proof {
        lemma_find_char_from_bounds(v@, from as int, c);
    }
    let mut i: usize = from;
    while i < v.len()
        invariant
            from <= i <= v@.len(),
            forall|j: int| from <= j < i ==> v@[j] != c,
            find_char_from(v@, from as int, c) == find_char_from(v@, i as int, c),
        decreases v@.len() - i,
    {
        if v[i] == c {
            return i;
        }
        i = i + 1;
    }
    i
}

/// Last occurrence of `c` in `v`, when there is one.
pub fn rfind_char_exec(v: &Vec<char>, c: char) -> (r: Option<usize>)
    ensures
        match r {
            Some(i) => i == rfind_char(v@, c),
            None => rfind_char(v@, c) == -1,
        },
{
    let mut i: usize = v.len();
    assert(v@.take(i as int) =~= v@);
    while i > 0
        invariant
            0 <= i <= v@.len(),
            rfind_char(v@, c) == rfind_char(v@.take(i as int), c),
        decreases i,
    {
        if v[i - 1] == c {
            proof {
                assert(v@.take(i as int).last() == v@[i - 1]);
            }
            return Some(i - 1);
        }
        i = i - 1;
        proof {
            assert(v@.take(i + 1).last() == v@[i as int]);
            assert(v@.take(i + 1).drop_last() =~= v@.take(i as int));
        }
    }
    assert(v@.take(0) =~= Seq::<char>::empty());
    None
}

/// Last index of `v` holding a character other than `c`, when there is one.
pub fn rfind_other_exec(v: &Vec<char>, c: char) -> (r: Option<usize>)
    ensures
        match r {
            Some(i) => i == rfind_other(v@, c),
            None => rfind_other(v@, c) == -1,
        },
{
    let mut i: usize = v.len();
    assert(v@.take(i as int) =~= v@);
    while i > 0
        invariant
            0 <= i <= v@.len(),
            rfind_other(v@, c) == rfind_other(v@.take(i as int), c),
        decreases i,
    {
        if v[i - 1] != c {
            proof {
                assert(v@.take(i as int).last() == v@[i - 1]);
            }
            return Some(i - 1);
        }
        i = i - 1;
        proof {
            assert(v@.take(i + 1).last() == v@[i as int]);
            assert(v@.take(i + 1).drop_last() =~= v@.take(i as int));
        }
    }
    assert(v@.take(0) =~= Seq::<char>::empty());
    None
}

/// Copy of the characters of `v` between `a` (inclusive) and `b` (exclusive).
pub fn subvec(v: &Vec<char>, a: usize, b: usize) -> (r: Vec<char>)
    requires
        a <= b <= v@.len(),
    ensures
        r@ == v@.subrange(a as int, b as int),
{
    let mut r: Vec<char> = Vec::new();
    let mut i: usize = a;
    while i < b
        invariant
            a <= i <= b <= v@.len(),
            r@ == v@.subrange(a as int, i as int),
        decreases b - i,
    {
        r.push(v[i]);
        i = i + 1;
        assert(r@ =~= v@.subrange(a as int, i as int));
    }
    assert(r@ =~= v@.subrange(a as int, b as int));
    r
}

/// Does the word `lit` occur in `v` starting at `i`?
pub fn lit_matches(v: &Vec<char>, i: usize, lit: &Vec<char>) -> (r: bool)
    ensures
        r == lit_at(v@, i as int, lit@),
{
    if i > v.len() || lit.len() > v.len() - i {
        return false;
    }
    let n: usize = v.len();
    let mut k: usize = 0;
    while k < lit.len()
        invariant
            0 <= k <= lit@.len(),
            n == v@.len(),
            i + lit@.len() <= n,
            forall|j: int| 0 <= j < k ==> v@[i + j] == lit@[j],
        decreases lit@.len() - k,
    {
        if v[i + k] != lit[k] {
            assert(v@.subrange(i as int, i + lit@.len())[k as int] != lit@[k as int]);
            return false;
        }
        k = k + 1;
    }
    assert(v@.subrange(i as int, i + lit@.len()) =~= lit@);
    true
}

} // verus!

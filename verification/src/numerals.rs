//! Decimal numerals over character sequences: recognising the dash-separated
//! version segments that the name normaliser drops, and rendering the signed
//! integer coordinates that appear in vector path data.

use vstd::prelude::*;

verus! {

pub open spec fn is_digit(c: char) -> bool {
    48 <= c as u32 && c as u32 <= 57
}

pub open spec fn digit_val(c: char) -> int {
    c as u32 - 48
}

/// The character `'0' + d`, for a digit value `0 <= d <= 9`.
pub open spec fn digit_char(d: int) -> char {
    ((48 + d) as u8) as char
}

pub open spec fn all_digits(s: Seq<char>) -> bool {
    forall|i: int| 0 <= i < s.len() ==> is_digit(s[i])
}

/// Value of a digit string read in base ten (0 for the empty string).
pub open spec fn digits_val(s: Seq<char>) -> int
    decreases s.len(),
{
    if s.len() == 0 {
        0
    } else {
        digits_val(s.drop_last()) * 10 + digit_val(s.last())
    }
}

/// The digit portion of a candidate numeral: the whole string, or what
/// follows an optional leading `'+'`.
pub open spec fn numeral_digits(s: Seq<char>) -> Seq<char> {
    if s.len() > 0 && s[0] == '+' {
        s.skip(1)
    } else {
        s
    }
}

/// Whether `s` parses entirely as an unsigned 32-bit integer: an optional
/// leading `'+'`, then one or more decimal digits, with a value that fits.
pub open spec fn is_u32_numeral(s: Seq<char>) -> bool {
    let d = numeral_digits(s);
    d.len() > 0 && all_digits(d) && digits_val(d) <= u32::MAX
}

proof fn lemma_digits_val_nonneg(s: Seq<char>)
    requires
        all_digits(s),
    ensures
        digits_val(s) >= 0,
    decreases s.len(),
{
    if s.len() > 0 {
        assert(all_digits(s.drop_last()));
        lemma_digits_val_nonneg(s.drop_last());
    }
}

proof fn lemma_digits_val_step(s: Seq<char>, k: int)
    requires
        0 <= k < s.len(),
    ensures
        digits_val(s.take(k + 1)) == digits_val(s.take(k)) * 10 + digit_val(s[k]),
{
    assert(s.take(k + 1).drop_last() =~= s.take(k));
    assert(s.take(k + 1).last() == s[k]);
}

/// Does the character buffer parse entirely as a `u32`, the way the original
/// version segments are recognised?
pub fn is_u32_numeral_exec(v: &Vec<char>) -> (r: bool)
    ensures
        r == is_u32_numeral(v@),
{
    let n: usize = v.len();
    let start: usize = if n > 0 && v[0] == '+' {
        1
    } else {
        0
    };
    let ghost d = numeral_digits(v@);
    proof {
        assert(d =~= v@.skip(start as int));
    }
    if start == n {
        assert(d.len() == 0);
        return false;
    }
    let mut acc: u64 = 0;
    let mut j: usize = start;
    while j < n
        invariant
            n == v@.len(),
            start <= j <= n,
            d == numeral_digits(v@),
            d == v@.skip(start as int),
            d.len() == n - start,
            all_digits(d.take(j - start)),
            acc == if digits_val(d.take(j - start)) <= u32::MAX {
                digits_val(d.take(j - start))
            } else {
                0x1_0000_0000int
            },
        decreases n - j,
    {
        let c = v[j];
        let cv = c as u32;
        if cv < 48 || cv > 57 {
            proof {
                assert(d[j - start] == v@[j as int]);
                assert(!is_digit(d[j - start]));
                assert(!all_digits(d));
                assert(!is_u32_numeral(v@));
            }
            return false;
        }
        let ghost pre = d.take(j - start);
        let ghost val = digits_val(pre);
        proof {
            lemma_digits_val_step(d, j - start);
            assert(d[j - start] == v@[j as int]);
            assert(all_digits(pre));
            lemma_digits_val_nonneg(pre);
        }
        let dv: u64 = (cv - 48) as u64;
        let t: u64 = acc * 10 + dv;
        acc = if t > 0xFFFF_FFFF {
            0x1_0000_0000
        } else {
            t
        };
        j = j + 1;
        proof {
            let post = d.take(j - start);
            assert(all_digits(post)) by {
                assert(forall|i: int| 0 <= i < post.len() ==> post[i] == #[trigger] d[i]);
            }
            if val > u32::MAX {
                assert(digits_val(post) == val * 10 + digit_val(d[j - start - 1]));
                assert(val * 10 >= val) by {
                    assert(val >= 0);
                }
                assert(digits_val(post) > u32::MAX);
            }
        }
    }
    assert(d.take(j - start) =~= d);
    proof {
        lemma_digits_val_nonneg(d);
    }
    acc <= 0xFFFF_FFFF
}

/// Decimal digit string of a non-negative integer.
pub open spec fn dec_str(n: nat) -> Seq<char>
    decreases n,
{
    if n < 10 {
        seq![digit_char(n as int)]
    } else {
        dec_str(n / 10) + seq![digit_char((n % 10) as int)]
    }
}

/// Decimal representation of a signed integer, with a leading `'-'` when
/// negative.
pub open spec fn int_str(v: int) -> Seq<char> {
    if v < 0 {
        seq!['-'] + dec_str((-v) as nat)
    } else {
        dec_str(v as nat)
    }
}

/// Reversal of a character sequence.
pub open spec fn rev(s: Seq<char>) -> Seq<char>
    decreases s.len(),
{
    if s.len() == 0 {
        Seq::empty()
    } else {
        seq![s.last()] + rev(s.drop_last())
    }
}

proof fn lemma_rev_len(s: Seq<char>)
    ensures
        rev(s).len() == s.len(),
    decreases s.len(),
{
    if s.len() > 0 {
        lemma_rev_len(s.drop_last());
    }
}

proof fn lemma_rev_index(s: Seq<char>, i: int)
    requires
        0 <= i < s.len(),
    ensures
        rev(s).len() == s.len(),
        rev(s)[i] == s[s.len() - 1 - i],
    decreases s.len(),
{
    lemma_rev_len(s);
    if i > 0 {
        lemma_rev_index(s.drop_last(), i - 1);
    }
}

/// Render a signed 64-bit integer in decimal.
pub fn i64_to_string(v: i64) -> (r: String)
    requires
        v > i64::MIN,
    ensures
        r@ == int_str(v as int),
{
    let neg = v < 0;
    let m0: u64 = if v < 0 {
        (-v) as u64
    } else {
        v as u64
    };
    let mut m: u64 = m0;
    let mut digits: Vec<char> = Vec::new();
    if m == 0 {
        let c: char = (48 as u8) as char;
        digits.push(c);
        proof {
            assert(c == digit_char(0));
            assert(digits@ =~= seq![c]);
            assert(digits@.last() == c);
            assert(digits@.drop_last() =~= Seq::<char>::empty());
            assert(rev(Seq::<char>::empty()) == Seq::<char>::empty());
            assert(rev(digits@) == seq![digits@.last()] + rev(digits@.drop_last()));
            assert(dec_str(m0 as nat) == seq![digit_char(0)]);
            assert(rev(digits@) =~= dec_str(m0 as nat));
        }
    } else {
        while m > 0
            invariant
                digits@.len() == 0 ==> m == m0,
                m > 0 && digits@.len() > 0 ==> dec_str(m0 as nat) == dec_str(m as nat) + rev(
                    digits@,
                ),
                m == 0 ==> digits@.len() > 0 && dec_str(m0 as nat) == rev(digits@),
            decreases m,
        {
            let dig: u64 = m % 10;
            let c: char = ((48 + dig) as u8) as char;
            let ghost old_digits = digits@;
            let ghost old_m = m as nat;
            digits.push(c);
            m = m / 10;
            proof {
                assert(c == digit_char((old_m % 10) as int));
                assert(digits@.drop_last() =~= old_digits);
                assert(rev(digits@) == seq![c] + rev(old_digits));
                if old_m < 10 {
                    assert(m == 0);
                    assert(dec_str(old_m) == seq![c]);
                    if old_digits.len() == 0 {
                        assert(dec_str(m0 as nat) =~= rev(digits@));
                    } else {
                        assert(dec_str(m0 as nat) =~= rev(digits@));
                    }
                } else {
                    assert(dec_str(old_m) == dec_str(old_m / 10) + seq![c]);
                    if old_digits.len() == 0 {
                        assert(dec_str(m0 as nat) =~= dec_str(m as nat) + rev(digits@));
                    } else {
                        assert(dec_str(m0 as nat) =~= dec_str(m as nat) + rev(digits@));
                    }
                }
            }
        }
    }
    let mut r = String::new();
    if neg {
        crate::text::push_char(&mut r, '-');
    }
    let ghost prefix = if neg {
        seq!['-']
    } else {
        Seq::<char>::empty()
    };
    assert(r@ =~= prefix);
    let n: usize = digits.len();
    let mut k: usize = 0;
    proof {
        lemma_rev_len(digits@);
    }
    while k < n
        invariant
            n == digits@.len(),
            0 <= k <= n,
            rev(digits@).len() == n,
            r@ == prefix + rev(digits@).take(k as int),
        decreases n - k,
    {
        crate::text::push_char(&mut r, digits[n - 1 - k]);
        k = k + 1;
        proof {
            lemma_rev_index(digits@, k - 1);
            assert(r@ =~= prefix + rev(digits@).take(k as int));
        }
    }
    assert(rev(digits@).take(n as int) =~= rev(digits@));
    proof {
        if neg {
            assert(v < 0);
            assert(m0 == -(v as int));
            assert(r@ =~= int_str(v as int));
        } else {
            assert(r@ =~= int_str(v as int));
        }
    }
    r
}

} // verus!

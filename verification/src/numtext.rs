//! Which texts read as integers, floating-point numbers or booleans, as the
//! standard library's `FromStr` for `i64`, `f64` and `bool` documents it.

use vstd::prelude::*;
use crate::text::{decimal, digit_char};

verus! {

pub open spec fn is_digit(c: char) -> bool {
    '0' <= c <= '9'
}

pub open spec fn all_digits(s: Seq<char>) -> bool {
    forall|i: int| 0 <= i < s.len() ==> is_digit(#[trigger] s[i])
}

/// The value of a string of decimal digits.
pub open spec fn digits_value(s: Seq<char>) -> nat
    decreases s.len(),
{
    if s.len() == 0 {
        0
    } else {
        digits_value(s.drop_last()) * 10 + (s.last() as nat - '0' as nat) as nat
    }
}

pub open spec fn is_sign(c: char) -> bool {
    c == '+' || c == '-'
}

/// The text after an optional leading sign.
pub open spec fn unsigned_part(s: Seq<char>) -> Seq<char> {
    if s.len() > 0 && is_sign(s[0]) { s.subrange(1, s.len() as int) } else { s }
}

/// The integer a text reads as: an optional sign, then one or more digits,
/// within the range of `i64`.
pub open spec fn int_text(s: Seq<char>) -> Option<int> {
    let d = unsigned_part(s);
    let v: int = if s.len() > 0 && s[0] == '-' { -(digits_value(d) as int) } else { digits_value(d) as int };
    if d.len() > 0 && all_digits(d) && i64::MIN <= v <= i64::MAX {
        Some(v)
    } else {
        None
    }
}

pub open spec fn lower(c: char) -> char {
    if 'A' <= c <= 'Z' { (((c as u8) + 32) as u8) as char } else { c }
}

/// Equal to an all-lower-case ASCII word, ignoring case.
pub open spec fn same_word(s: Seq<char>, w: Seq<char>) -> bool {
    s.len() == w.len() && forall|i: int| 0 <= i < s.len() ==> lower(#[trigger] s[i]) == w[i]
}

/// Position of the first `e` or `E`, or the length.
pub open spec fn exp_pos(s: Seq<char>) -> int
    decreases s.len(),
{
    if s.len() == 0 {
        0
    } else if s[0] == 'e' || s[0] == 'E' {
        0
    } else {
        1 + exp_pos(s.subrange(1, s.len() as int))
    }
}

/// Digits with at most one point and at least one digit.
pub open spec fn is_mantissa(m: Seq<char>) -> bool {
    &&& forall|i: int| 0 <= i < m.len() ==> is_digit(#[trigger] m[i]) || m[i] == '.'
    &&& forall|i: int, j: int| 0 <= i < j < m.len() && m[i] == '.' ==> m[j] != '.'
    &&& exists|i: int| 0 <= i < m.len() && is_digit(#[trigger] m[i])
}

/// The grammar of `f64::from_str`: an optional sign, then `inf`,
/// `infinity` or `nan` in any case, or a mantissa with an optional
/// exponent (`e` or `E`, an optional sign, digits).
pub open spec fn is_float_text(s: Seq<char>) -> bool {
    let b = unsigned_part(s);
    let p = exp_pos(b);
    let m = b.subrange(0, p);
    let e = if p < b.len() { unsigned_part(b.subrange(p + 1, b.len() as int)) } else { Seq::empty() };
    ||| same_word(b, "inf"@)
    ||| same_word(b, "infinity"@)
    ||| same_word(b, "nan"@)
    ||| (is_mantissa(m) && (p == b.len() || (e.len() > 0 && all_digits(e))))
}

proof fn lemma_exp_pos(s: Seq<char>)
    ensures
        0 <= exp_pos(s) <= s.len(),
        exp_pos(s) < s.len() ==> (s[exp_pos(s)] == 'e' || s[exp_pos(s)] == 'E'),
        forall|i: int| 0 <= i < exp_pos(s) ==> s[i] != 'e' && s[i] != 'E',
    decreases s.len(),
{
    if s.len() > 0 && s[0] != 'e' && s[0] != 'E' {
        let r = s.subrange(1, s.len() as int);
        lemma_exp_pos(r);
        assert forall|i: int| 0 <= i < exp_pos(s) implies s[i] != 'e' && s[i] != 'E' by {
            if i > 0 {
                assert(s[i] == r[i - 1]);
            }
        }
        if exp_pos(s) < s.len() {
            assert(s[exp_pos(s)] == r[exp_pos(r)]);
        }
    }
}

fn is_digit_exec(c: char) -> (r: bool)
    ensures
        r == is_digit(c),
{
    '0' <= c && c <= '9'
}

fn all_digits_exec(v: &Vec<char>, from: usize) -> (r: bool)
    requires
        from <= v@.len(),
    ensures
        r == all_digits(v@.subrange(from as int, v@.len() as int)),
{
    let mut i: usize = from;
    while i < v.len()
        invariant
            from <= i <= v@.len(),
            forall|k: int| from <= k < i ==> is_digit(v@[k]),
        decreases v@.len() - i,
    {
        if !is_digit_exec(v[i]) {
            proof {
                assert(!is_digit(v@.subrange(from as int, v@.len() as int)[i - from]));
            }
            return false;
        }
        i = i + 1;
    }
    proof {
        assert forall|k: int| 0 <= k < v@.len() - from implies is_digit(#[trigger] v@.subrange(from as int, v@.len() as int)[k]) by {
            assert(v@.subrange(from as int, v@.len() as int)[k] == v@[from + k]);
        }
    }
    true
}

proof fn lemma_digits_value_monotone(s: Seq<char>, k: int)
    requires
        0 <= k <= s.len(),
        all_digits(s),
    ensures
        digits_value(s.take(k)) <= digits_value(s),
    decreases s.len() - k,
{
    if k < s.len() {
        lemma_digits_value_monotone(s, k + 1);
        assert(s.take(k + 1).drop_last() =~= s.take(k));
        assert(is_digit(s[k]));
    } else {
        assert(s.take(k) =~= s);
    }
}

/// Reads an integer as `i64::from_str` does.
pub fn parse_int(v: &Vec<char>) -> (r: Option<i64>)
    ensures
        match r {
            Some(x) => int_text(v@) == Some(x as int),
            None => int_text(v@) is None,
        },
{
    let n = v.len();
    let neg = n > 0 && v[0] == '-';
    let from: usize = if n > 0 && (v[0] == '+' || v[0] == '-') { 1 } else { 0 };
    let ghost d = unsigned_part(v@);
    proof {
        if from == 0 {
            assert(v@.subrange(0, n as int) =~= v@);
        }
        assert(d =~= v@.subrange(from as int, n as int));
    }
    if from == n || !all_digits_exec(v, from) {
        return None;
    }
    let mut acc: u64 = 0;
    let mut i: usize = from;
    let limit: u64 = 9223372036854775808;
    while i < n
        invariant
            from <= i <= n,
            n == v@.len(),
            d == v@.subrange(from as int, n as int),
            d == unsigned_part(v@),
            all_digits(d),
            acc as nat == digits_value(d.take(i - from)),
            limit == 9223372036854775808u64,
            acc <= limit,
        decreases n - i,
    {
        proof {
            assert(d.take(i - from + 1).drop_last() =~= d.take(i - from));
            assert(d.take(i - from + 1).last() == v@[i as int]);
            assert(is_digit(d[i - from]));
            assert(d[i - from] == v@[i as int]);
        }
        let dig = (v[i] as u64) - ('0' as u64);
        if acc > (limit - dig) / 10 {
            proof {
                lemma_digits_value_monotone(d, i - from + 1);
                assert(digits_value(d.take(i - from + 1)) == acc * 10 + dig);
                assert(acc * 10 + dig > limit) by (nonlinear_arith)
                    requires
                        acc > (limit - dig) / 10,
                        dig <= 9,
                        limit == 9223372036854775808u64;
            }
            proof {
                assert(digits_value(d) > limit);
            }
            return None;
        }
        proof {
            assert(acc * 10 + dig <= limit) by (nonlinear_arith)
                requires
                    acc <= (limit - dig) / 10,
                    dig <= 9,
                    limit == 9223372036854775808u64;
        }
        acc = acc * 10 + dig;
        i = i + 1;
    }
    proof {
        assert(d.take(n - from) =~= d);
    }
    if neg {
        if acc == limit {
            Some(-9223372036854775807i64 - 1)
        } else {
            Some(-(acc as i64))
        }
    } else if acc == limit {
        None
    } else {
        Some(acc as i64)
    }
}

/// The number a text reads as an unsigned machine word: an optional `+`,
/// then one or more digits, no larger than `usize::MAX`.
pub open spec fn usize_text(s: Seq<char>) -> Option<nat> {
    let d = if s.len() > 0 && s[0] == '+' { s.subrange(1, s.len() as int) } else { s };
    if d.len() > 0 && all_digits(d) && digits_value(d) <= usize::MAX {
        Some(digits_value(d))
    } else {
        None
    }
}

/// Reads an unsigned machine word as `usize::from_str` does.
pub fn parse_usize(v: &Vec<char>) -> (r: Option<usize>)
    ensures
        match r {
            Some(x) => usize_text(v@) == Some(x as nat),
            None => usize_text(v@) is None,
        },
{
    let n = v.len();
    let from: usize = if n > 0 && v[0] == '+' { 1 } else { 0 };
    let ghost d = if v@.len() > 0 && v@[0] == '+' { v@.subrange(1, v@.len() as int) } else { v@ };
    proof {
        if from == 0 {
            assert(v@.subrange(0, n as int) =~= v@);
        }
        assert(d =~= v@.subrange(from as int, n as int));
    }
    if from == n || !all_digits_exec(v, from) {
        return None;
    }
    let mut acc: usize = 0;
    let mut i: usize = from;
    while i < n
        invariant
            from <= i <= n,
            n == v@.len(),
            d == v@.subrange(from as int, n as int),
            d == (if v@.len() > 0 && v@[0] == '+' { v@.subrange(1, v@.len() as int) } else { v@ }),
            all_digits(d),
            acc as nat == digits_value(d.take(i - from)),
        decreases n - i,
    {
        proof {
            assert(d.take(i - from + 1).drop_last() =~= d.take(i - from));
            assert(d.take(i - from + 1).last() == v@[i as int]);
            assert(is_digit(d[i - from]));
            assert(d[i - from] == v@[i as int]);
        }
        let dig: usize = ((v[i] as u32) - ('0' as u32)) as usize;
        let m: usize = match acc.checked_mul(10) {
            Some(m) => m,
            None => {
                proof {
                    lemma_digits_value_monotone(d, i - from + 1);
                    assert(digits_value(d.take(i - from + 1)) == acc * 10 + dig);
                    assert(acc * 10 + dig > usize::MAX);
                }
                return None;
            },
        };
        match m.checked_add(dig) {
            Some(x) => {
                acc = x;
            },
            None => {
                proof {
                    lemma_digits_value_monotone(d, i - from + 1);
                    assert(digits_value(d.take(i - from + 1)) == acc * 10 + dig);
                    assert(acc * 10 + dig > usize::MAX);
                }
                return None;
            },
        }
        i = i + 1;
    }
    proof {
        assert(d.take(n - from) =~= d);
    }
    Some(acc)
}

fn lower_exec(c: char) -> (r: char)
    ensures
        r == lower(c),
{
    if 'A' <= c && c <= 'Z' {
        let u: u8 = (c as u8) + 32;
        u as char
    } else {
        c
    }
}

fn same_word_exec(v: &Vec<char>, from: usize, w: &str) -> (r: bool)
    requires
        from <= v@.len(),
    ensures
        r == same_word(v@.subrange(from as int, v@.len() as int), w@),
{
    let wn = w.unicode_len();
    let vn = v.len();
    if vn - from != wn {
        return false;
    }
    let ghost b = v@.subrange(from as int, v@.len() as int);
    let mut i: usize = 0;
    while i < wn
        invariant
            i <= wn,
            wn == w@.len(),
            b == v@.subrange(from as int, v@.len() as int),
            b.len() == wn,
            from + wn == vn,
            vn == v@.len(),
            forall|k: int| 0 <= k < i ==> lower(#[trigger] b[k]) == w@[k],
        decreases wn - i,
    {
        if lower_exec(v[from + i]) != w.get_char(i) {
            proof {
                assert(b[i as int] == v@[from + i]);
            }
            return false;
        }
        proof {
            assert(b[i as int] == v@[from + i]);
        }
        i = i + 1;
    }
    true
}

/// Whether a text reads as `f64::from_str` accepts it.
#[verifier::spinoff_prover]
pub fn is_float_exec(v: &Vec<char>) -> (r: bool)
    ensures
        r == is_float_text(v@),
{
    let n = v.len();
    let from: usize = if n > 0 && (v[0] == '+' || v[0] == '-') { 1 } else { 0 };
    let ghost b = unsigned_part(v@);
    proof {
        if from == 0 {
            assert(v@.subrange(0, n as int) =~= v@);
        }
        assert(b =~= v@.subrange(from as int, n as int));
    }
    if same_word_exec(v, from, "inf") || same_word_exec(v, from, "infinity") || same_word_exec(v, from, "nan") {
        return true;
    }
    // the first exponent mark
    let mut p: usize = from;
    while p < n && v[p] != 'e' && v[p] != 'E'
        invariant
            from <= p <= n,
            n == v@.len(),
            forall|k: int| from <= k < p ==> v@[k] != 'e' && v@[k] != 'E',
        decreases n - p,
    {
        p = p + 1;
    }
    proof {
        lemma_exp_pos(b);
        let q = exp_pos(b);
        assert(q == p - from) by {
            if q < p - from {
                assert(b[q] == v@[from + q]);
            }
            if q > p - from {
                assert(b[p - from] == v@[p as int]);
            }
        }
    }
    // mantissa: digits with at most one point, at least one digit
    let mut dots: usize = 0;
    let mut digits: usize = 0;
    let mut k: usize = from;
    let ghost m = b.subrange(0, p - from);
    let ghost mut dot_at: int = -1;
    while k < p
        invariant
            from <= k <= p <= n,
            n == v@.len(),
            m == v@.subrange(from as int, p as int),
            b == unsigned_part(v@),
            m == b.subrange(0, exp_pos(b)),
            !same_word(b, "inf"@) && !same_word(b, "infinity"@) && !same_word(b, "nan"@),
            dots <= 1,
            forall|i: int| 0 <= i < k - from ==> is_digit(#[trigger] m[i]) || m[i] == '.',
            dots == 0 <==> dot_at == -1,
            dots == 1 ==> 0 <= dot_at < k - from,
            forall|i: int| 0 <= i < k - from ==> (m[i] == '.' <==> i == dot_at),
            digits > 0 <==> exists|i: int| 0 <= i < k - from && is_digit(#[trigger] m[i]),
            digits <= k,
        decreases p - k,
    {
        let c = v[k];
        proof {
            assert(m[k - from] == c);
        }
        if is_digit_exec(c) {
            digits = digits + 1;
        } else if c == '.' {
            if dots == 1 {
                proof {
                    assert(m[dot_at] == '.' && m[k - from] == '.' && dot_at < k - from);
                    assert(!is_mantissa(m));
                }
                return false;
            }
            dots = 1;
            proof {
                dot_at = k - from;
            }
        } else {
            proof {
                assert(!is_mantissa(m));
            }
            return false;
        }
        k = k + 1;
    }
    if digits == 0 {
        proof {
            assert(!is_mantissa(m));
        }
        return false;
    }
    proof {
        assert(is_mantissa(m));
    }
    if p == n {
        return true;
    }
    let efrom: usize = if p + 1 < n && (v[p + 1] == '+' || v[p + 1] == '-') { p + 2 } else { p + 1 };
    proof {
        let ex = b.subrange(p - from + 1, b.len() as int);
        assert(ex =~= v@.subrange(p + 1, n as int));
        if efrom == p + 1 {
            assert(unsigned_part(ex) =~= v@.subrange(efrom as int, n as int));
        } else {
            assert(unsigned_part(ex) =~= v@.subrange(efrom as int, n as int));
        }
    }
    efrom < n && all_digits_exec(v, efrom)
}

proof fn lemma_digit_char(d: nat)
    requires
        d < 10,
    ensures
        is_digit(digit_char(d)),
        digit_char(d) as nat - '0' as nat == d,
{
}

/// The decimal text of a natural number is a non-empty run of digits whose
/// value is the number.
pub proof fn lemma_decimal_reads_back(n: nat)
    ensures
        decimal(n).len() > 0,
        all_digits(decimal(n)),
        digits_value(decimal(n)) == n,
    decreases n,
{
    if n < 10 {
        lemma_digit_char(n);
        assert(decimal(n) == seq![digit_char(n)]);
        assert(decimal(n).drop_last() =~= Seq::<char>::empty());
        assert(digits_value(Seq::<char>::empty()) == 0);
        assert(decimal(n).last() == digit_char(n));
        assert(digits_value(decimal(n)) == digits_value(decimal(n).drop_last()) * 10 + (decimal(n).last() as nat - '0' as nat) as nat);
    } else {
        lemma_decimal_reads_back(n / 10);
        lemma_digit_char(n % 10);
        let s = decimal(n);
        let p = decimal(n / 10);
        assert(s == p + seq![digit_char(n % 10)]);
        assert(s.drop_last() =~= p);
        assert(n == (n / 10) * 10 + n % 10) by (nonlinear_arith);
        assert(s.last() == digit_char(n % 10));
        assert(digits_value(s) == digits_value(s.drop_last()) * 10 + (s.last() as nat - '0' as nat) as nat);
        assert(digits_value(s) == (n / 10) * 10 + n % 10);
        assert forall|i: int| 0 <= i < s.len() implies is_digit(#[trigger] s[i]) by {
            if i < p.len() {
                assert(s[i] == p[i]);
            }
        }
    }
}

} // verus!

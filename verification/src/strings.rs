//! Searching, splitting, trimming and replacing text, specified over
//! character sequences.

use vstd::prelude::*;
use crate::text::push_char;

verus! {

/// `p` occurs in `s` at position `i`.
pub open spec fn occurs_at(s: Seq<char>, p: Seq<char>, i: int) -> bool {
    0 <= i && i + p.len() <= s.len() && s.subrange(i, i + p.len()) == p
}

/// The first position at or after `i` where `p` occurs in `s`, or -1.
pub open spec fn find_from(s: Seq<char>, p: Seq<char>, i: int) -> int
    decreases s.len() - i,
{
    if i < 0 || i + p.len() > s.len() {
        -1
    } else if occurs_at(s, p, i) {
        i
    } else if i >= s.len() {
        -1
    } else {
        find_from(s, p, i + 1)
    }
}

/// The first position where `p` occurs in `s`, or -1.
pub open spec fn find(s: Seq<char>, p: Seq<char>) -> int {
    find_from(s, p, 0)
}

pub open spec fn contains_text(s: Seq<char>, p: Seq<char>) -> bool {
    find(s, p) >= 0
}

pub open spec fn starts_with(s: Seq<char>, p: Seq<char>) -> bool {
    occurs_at(s, p, 0)
}

pub proof fn lemma_find_from(s: Seq<char>, p: Seq<char>, i: int)
    requires
        0 <= i,
    ensures
        find_from(s, p, i) == -1 || (i <= find_from(s, p, i) && occurs_at(s, p, find_from(s, p, i))),
        forall|j: int| i <= j && (find_from(s, p, i) == -1 || j < find_from(s, p, i)) ==> !occurs_at(s, p, j),
    decreases s.len() - i,
{
    if i + p.len() <= s.len() && !occurs_at(s, p, i) && i < s.len() {
        lemma_find_from(s, p, i + 1);
    }
}

/// The parts of `s` between the occurrences of a non-empty separator.
pub open spec fn split_all(s: Seq<char>, sep: Seq<char>) -> Seq<Seq<char>>
    decreases s.len(),
{
    let j = find(s, sep);
    if sep.len() == 0 || j < 0 {
        seq![s]
    } else {
        proof {
            lemma_find_from(s, sep, 0);
        }
        seq![s.subrange(0, j)] + split_all(s.subrange(j + sep.len(), s.len() as int), sep)
    }
}

/// At most two parts: what precedes the first occurrence of `sep` and what
/// follows it.
pub open spec fn split_two(s: Seq<char>, sep: Seq<char>) -> Seq<Seq<char>> {
    let j = find(s, sep);
    if j < 0 {
        seq![s]
    } else {
        seq![s.subrange(0, j), s.subrange(j + sep.len(), s.len() as int)]
    }
}

/// Every occurrence of a non-empty `from`, left to right and not
/// overlapping, replaced by `to`.
pub open spec fn replace_all(s: Seq<char>, from: Seq<char>, to: Seq<char>) -> Seq<char>
    decreases s.len(),
{
    let j = find(s, from);
    if from.len() == 0 || j < 0 {
        s
    } else {
        proof {
            lemma_find_from(s, from, 0);
        }
        s.subrange(0, j) + to + replace_all(s.subrange(j + from.len(), s.len() as int), from, to)
    }
}

/// White space as Unicode's `White_Space` property lists it.
pub open spec fn is_white(c: char) -> bool {
    ||| '\u{9}' <= c <= '\u{d}'
    ||| c == ' '
    ||| c == '\u{85}'
    ||| c == '\u{a0}'
    ||| c == '\u{1680}'
    ||| '\u{2000}' <= c <= '\u{200a}'
    ||| c == '\u{2028}'
    ||| c == '\u{2029}'
    ||| c == '\u{202f}'
    ||| c == '\u{205f}'
    ||| c == '\u{3000}'
}

/// Number of leading white-space characters.
pub open spec fn lead_white(s: Seq<char>) -> nat
    decreases s.len(),
{
    if s.len() > 0 && is_white(s[0]) {
        1 + lead_white(s.subrange(1, s.len() as int))
    } else {
        0
    }
}

/// Number of trailing white-space characters.
pub open spec fn trail_white(s: Seq<char>) -> nat
    decreases s.len(),
{
    if s.len() > 0 && is_white(s.last()) {
        1 + trail_white(s.drop_last())
    } else {
        0
    }
}

/// `s` without leading and trailing white space.
pub open spec fn trim(s: Seq<char>) -> Seq<char> {
    let a = s.subrange(lead_white(s) as int, s.len() as int);
    a.subrange(0, a.len() - trail_white(a))
}

proof fn lemma_lead_white(s: Seq<char>)
    ensures
        lead_white(s) <= s.len(),
    decreases s.len(),
{
    if s.len() > 0 && is_white(s[0]) {
        lemma_lead_white(s.subrange(1, s.len() as int));
    }
}

proof fn lemma_trail_white(s: Seq<char>)
    ensures
        trail_white(s) <= s.len(),
    decreases s.len(),
{
    if s.len() > 0 && is_white(s.last()) {
        lemma_trail_white(s.drop_last());
    }
}

/// The characters of a string, one per element.
pub fn chars_of(s: &str) -> (r: Vec<char>)
    ensures
        r@ == s@,
{
    let n = s.unicode_len();
    let mut v: Vec<char> = Vec::new();
    let mut i: usize = 0;
    while i < n
        invariant
            i <= n,
            n == s@.len(),
            v@ == s@.take(i as int),
        decreases n - i,
    {
        v.push(s.get_char(i));
        proof {
            assert(v@ =~= s@.take(i as int + 1));
        }
        i = i + 1;
    }
    proof {
        assert(s@.take(n as int) =~= s@);
    }
    v
}

/// A string from characters `from..to` of a character vector.
pub fn string_of(v: &Vec<char>, from: usize, to: usize) -> (r: String)
    requires
        from <= to <= v@.len(),
    ensures
        r@ == v@.subrange(from as int, to as int),
{
    let mut s = String::new();
    let mut i: usize = from;
    while i < to
        invariant
            from <= i <= to,
            to <= v@.len(),
            s@ == v@.subrange(from as int, i as int),
        decreases to - i,
    {
        push_char(&mut s, v[i]);
        proof {
            assert(s@ =~= v@.subrange(from as int, i as int + 1));
        }
        i = i + 1;
    }
    s
}

/// Whether `p` occurs in `s` at position `i`.
pub fn occurs_at_exec(s: &Vec<char>, p: &Vec<char>, i: usize) -> (r: bool)
    ensures
        r == occurs_at(s@, p@, i as int),
{
    let n = s.len();
    if i > n || p.len() > n - i {
        return false;
    }
    let mut k: usize = 0;
    while k < p.len()
        invariant
            n == s@.len(),
            k <= p@.len(),
            i + p@.len() <= s@.len(),
            forall|m: int| 0 <= m < k ==> s@[i + m] == p@[m],
        decreases p@.len() - k,
    {
        if s[i + k] != p[k] {
            proof {
                assert(s@.subrange(i as int, i + p@.len())[k as int] != p@[k as int]);
            }
            return false;
        }
        k = k + 1;
    }
    proof {
        assert(s@.subrange(i as int, i + p@.len()) =~= p@);
    }
    true
}

/// The first position at or after `i` where `p` occurs in `s`.
pub fn find_from_exec(s: &Vec<char>, p: &Vec<char>, i: usize) -> (r: Option<usize>)
    ensures
        match r {
            Some(j) => j as int == find_from(s@, p@, i as int),
            None => find_from(s@, p@, i as int) == -1,
        },
{
    let mut j: usize = i;
    while j <= s.len()
        invariant
            i <= j,
            find_from(s@, p@, i as int) == find_from(s@, p@, j as int),
        decreases s@.len() + 1 - j,
    {
        if p.len() > s.len() - j {
            return None;
        }
        if occurs_at_exec(s, p, j) {
            return Some(j);
        }
        if j == s.len() {
            return None;
        }
        j = j + 1;
    }
    None
}

/// Whether `p` occurs in `s`.
pub fn contains_exec(s: &str, p: &str) -> (r: bool)
    ensures
        r == contains_text(s@, p@),
{
    let sv = chars_of(s);
    let pv = chars_of(p);
    find_from_exec(&sv, &pv, 0).is_some()
}

/// Whether `s` begins with `p`.
pub fn starts_with_exec(s: &str, p: &str) -> (r: bool)
    ensures
        r == starts_with(s@, p@),
{
    let sv = chars_of(s);
    let pv = chars_of(p);
    occurs_at_exec(&sv, &pv, 0)
}

/// Splits at the first occurrence of `sep` (std `splitn(2, sep)`).
pub fn split_two_exec(s: &str, sep: &str) -> (r: Vec<String>)
    ensures
        r@.len() == split_two(s@, sep@).len(),
        forall|k: int| 0 <= k < r@.len() ==> #[trigger] r@[k]@ == split_two(s@, sep@)[k],
{
    let sv = chars_of(s);
    let pv = chars_of(sep);
    let n = sv.len();
    let mut out: Vec<String> = Vec::new();
    match find_from_exec(&sv, &pv, 0) {
        Some(j) => {
            proof {
                lemma_find_from(sv@, pv@, 0);
            }
            out.push(string_of(&sv, 0, j));
            out.push(string_of(&sv, j + pv.len(), sv.len()));
        },
        None => {
            out.push(s.to_string());
        },
    }
    out
}

/// All parts of `s` between occurrences of a non-empty separator (std
/// `split`).
pub fn split_all_exec(s: &str, sep: &str) -> (r: Vec<String>)
    requires
        sep@.len() > 0,
    ensures
        r@.len() == split_all(s@, sep@).len(),
        forall|k: int| 0 <= k < r@.len() ==> #[trigger] r@[k]@ == split_all(s@, sep@)[k],
{
    let sv = chars_of(s);
    let pv = chars_of(sep);
    let mut out: Vec<String> = Vec::new();
    let mut pos: usize = 0;
    proof {
        assert(s@.subrange(0, s@.len() as int) =~= s@);
    }
    while pos <= sv.len()
        invariant
            pos <= sv@.len(),
            sv@ == s@,
            pv@ == sep@,
            sep@.len() > 0,
            split_all(s@, sep@) == split_all_prefix(out@) + split_all(s@.subrange(pos as int, s@.len() as int), sep@),
        decreases sv@.len() - pos,
    {
        let ghost rest = s@.subrange(pos as int, s@.len() as int);
        match find_from_exec(&sv, &pv, pos) {
            Some(j) => {
                proof {
                    lemma_find_from(s@, sep@, pos as int);
                    lemma_find_shift(s@, sep@, pos as int);
                    assert(find(rest, sep@) == j - pos);
                    assert(rest.subrange(0, j - pos) =~= s@.subrange(pos as int, j as int));
                    assert(rest.subrange(j - pos + sep@.len(), rest.len() as int)
                        =~= s@.subrange(j + sep@.len(), s@.len() as int));
                }
                let part = string_of(&sv, pos, j);
                let ghost old_out = out@;
                out.push(part);
                proof {
                    assert(out@.drop_last() =~= old_out);
                    assert(split_all_prefix(out@) == split_all_prefix(old_out) + seq![part@]);
                    assert(part@ =~= rest.subrange(0, j - pos));
                    assert(split_all(rest, sep@) == seq![rest.subrange(0, j - pos)]
                        + split_all(rest.subrange(j - pos + sep@.len(), rest.len() as int), sep@));
                    assert(split_all_prefix(old_out) + split_all(rest, sep@)
                        =~= split_all_prefix(out@) + split_all(s@.subrange(j + sep@.len(), s@.len() as int), sep@));
                }
                pos = j + pv.len();
            },
            None => {
                proof {
                    lemma_find_shift(s@, sep@, pos as int);
                    assert(find(rest, sep@) < 0);
                }
                let part = string_of(&sv, pos, sv.len());
                let ghost old_out = out@;
                out.push(part);
                proof {
                    assert(out@.drop_last() =~= old_out);
                    assert(split_all_prefix(out@) == split_all_prefix(old_out) + seq![part@]);
                    assert(part@ =~= rest);
                    assert(split_all(rest, sep@) == seq![rest]);
                    assert(split_all(s@, sep@) =~= split_all_prefix(out@));
                    lemma_split_all_prefix(out@);
                }
                return out;
            },
        }
    }
    proof {
        assert(false);
    }
    out
}

/// The characters of each string.
pub open spec fn split_all_prefix(v: Seq<String>) -> Seq<Seq<char>>
    decreases v.len(),
{
    if v.len() == 0 {
        Seq::empty()
    } else {
        split_all_prefix(v.drop_last()) + seq![v.last()@]
    }
}

proof fn lemma_split_all_prefix(v: Seq<String>)
    ensures
        split_all_prefix(v).len() == v.len(),
        forall|k: int| 0 <= k < v.len() ==> #[trigger] split_all_prefix(v)[k] == v[k]@,
    decreases v.len(),
{
    if v.len() > 0 {
        lemma_split_all_prefix(v.drop_last());
    }
}

/// Searching a suffix is searching the whole text from the suffix's start.
proof fn lemma_find_shift(s: Seq<char>, p: Seq<char>, pos: int)
    requires
        0 <= pos <= s.len(),
    ensures
        ({
            let r = s.subrange(pos, s.len() as int);
            &&& find_from(s, p, pos) == -1 ==> find(r, p) == -1
            &&& find_from(s, p, pos) >= 0 ==> find(r, p) == find_from(s, p, pos) - pos
        }),
{
    let r = s.subrange(pos, s.len() as int);
    lemma_find_shift_from(s, p, pos, 0);
}

proof fn lemma_find_shift_from(s: Seq<char>, p: Seq<char>, pos: int, k: int)
    requires
        0 <= pos <= s.len(),
        0 <= k,
    ensures
        ({
            let r = s.subrange(pos, s.len() as int);
            &&& find_from(s, p, pos + k) == -1 ==> find_from(r, p, k) == -1
            &&& find_from(s, p, pos + k) >= 0 ==> find_from(r, p, k) == find_from(s, p, pos + k) - pos
        }),
    decreases s.len() - pos - k,
{
    let r = s.subrange(pos, s.len() as int);
    if pos + k + p.len() <= s.len() {
        assert(r.subrange(k, k + p.len()) =~= s.subrange(pos + k, pos + k + p.len()));
        if !occurs_at(s, p, pos + k) && pos + k < s.len() {
            lemma_find_shift_from(s, p, pos, k + 1);
        }
    }
}

/// `s` with every occurrence of a non-empty `from` replaced by `to` (std
/// `str::replace`).
pub fn replace_all_exec(s: &str, from: &str, to: &str) -> (r: String)
    requires
        from@.len() > 0,
    ensures
        r@ == replace_all(s@, from@, to@),
{
    let sv = chars_of(s);
    let fv = chars_of(from);
    let mut out = String::new();
    let mut pos: usize = 0;
    proof {
        assert(s@.subrange(0, s@.len() as int) =~= s@);
    }
    while pos <= sv.len()
        invariant
            pos <= sv@.len(),
            sv@ == s@,
            fv@ == from@,
            from@.len() > 0,
            replace_all(s@, from@, to@) == out@ + replace_all(s@.subrange(pos as int, s@.len() as int), from@, to@),
        decreases sv@.len() - pos,
    {
        let ghost rest = s@.subrange(pos as int, s@.len() as int);
        match find_from_exec(&sv, &fv, pos) {
            Some(j) => {
                proof {
                    lemma_find_from(s@, from@, pos as int);
                    lemma_find_shift(s@, from@, pos as int);
                    assert(rest.subrange(0, j - pos) =~= s@.subrange(pos as int, j as int));
                    assert(rest.subrange(j - pos + from@.len(), rest.len() as int)
                        =~= s@.subrange(j + from@.len(), s@.len() as int));
                }
                let ghost before = out@;
                let part = string_of(&sv, pos, j);
                out.append(part.as_str());
                out.append(to);
                proof {
                    assert(out@ =~= before + s@.subrange(pos as int, j as int) + to@);
                }
                pos = j + fv.len();
            },
            None => {
                proof {
                    lemma_find_shift(s@, from@, pos as int);
                }
                let part = string_of(&sv, pos, sv.len());
                out.append(part.as_str());
                return out;
            },
        }
    }
    proof {
        assert(false);
    }
    out
}

/// `s` without leading and trailing white space (std `str::trim`).
pub fn trim_exec(s: &str) -> (r: String)
    ensures
        r@ == trim(s@),
{
    let sv = chars_of(s);
    let mut a: usize = 0;
    proof {
        lemma_lead_white(s@);
        assert(s@.subrange(0, s@.len() as int) =~= s@);
    }
    while a < sv.len() && is_white_exec(sv[a])
        invariant
            a <= sv@.len(),
            sv@ == s@,
            lead_white(s@) == a + lead_white(s@.subrange(a as int, s@.len() as int)),
        decreases sv@.len() - a,
    {
        proof {
            let t = s@.subrange(a as int, s@.len() as int);
            assert(t.subrange(1, t.len() as int) =~= s@.subrange(a + 1, s@.len() as int));
        }
        a = a + 1;
    }
    let ghost mid = s@.subrange(a as int, s@.len() as int);
    let mut b: usize = sv.len();
    proof {
        assert(mid.subrange(0, mid.len() as int) =~= mid);
        if a < sv@.len() {
            assert(mid[0] == s@[a as int]);
        }
        assert(lead_white(mid) == 0);
    }
    while b > a && is_white_exec(sv[b - 1])
        invariant
            a <= b <= sv@.len(),
            sv@ == s@,
            mid == s@.subrange(a as int, s@.len() as int),
            trail_white(mid) == (sv@.len() - b) + trail_white(s@.subrange(a as int, b as int)),
        decreases b - a,
    {
        proof {
            let t = s@.subrange(a as int, b as int);
            assert(t.drop_last() =~= s@.subrange(a as int, b - 1));
            assert(t.last() == sv@[b - 1]);
        }
        b = b - 1;
    }
    proof {
        let t = s@.subrange(a as int, b as int);
        if b > a {
            assert(t.last() == sv@[b - 1]);
        }
        assert(trail_white(t) == 0);
        assert(mid.subrange(0, mid.len() - trail_white(mid)) =~= t);
    }
    string_of(&sv, a, b)
}

/// Whether a character is white space.
pub fn is_white_exec(c: char) -> (r: bool)
    ensures
        r == is_white(c),
{
    ('\u{9}' <= c && c <= '\u{d}') || c == ' ' || c == '\u{85}' || c == '\u{a0}' || c == '\u{1680}'
        || ('\u{2000}' <= c && c <= '\u{200a}') || c == '\u{2028}' || c == '\u{2029}' || c == '\u{202f}'
        || c == '\u{205f}' || c == '\u{3000}'
}

} // verus!

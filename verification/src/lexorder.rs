//! The order `String` compares in (lexicographic by character), and lists
//! of texts kept sorted without repeats.

use vstd::prelude::*;
use crate::context::views_of;

verus! {

/// `a` comes before `b`: at the first position where they differ `a` has
/// the smaller character, or `a` is a proper prefix of `b`.
pub open spec fn lex_lt(a: Seq<char>, b: Seq<char>) -> bool {
    ||| (a.len() < b.len() && b.take(a.len() as int) == a)
    ||| exists|i: int| 0 <= i < a.len() && i < b.len() && a.take(i) == b.take(i) && (a[i] as int) < (b[i] as int)
}

/// Strictly increasing.
pub open spec fn strictly_sorted(s: Seq<Seq<char>>) -> bool {
    forall|i: int, j: int| 0 <= i < j < s.len() ==> lex_lt(#[trigger] s[i], #[trigger] s[j])
}

/// The position of the first difference, or the shorter length.
pub open spec fn common(a: Seq<char>, b: Seq<char>) -> int
    decreases a.len(),
{
    if a.len() == 0 || b.len() == 0 || a[0] != b[0] {
        0
    } else {
        1 + common(a.subrange(1, a.len() as int), b.subrange(1, b.len() as int))
    }
}

proof fn lemma_common(a: Seq<char>, b: Seq<char>)
    ensures
        0 <= common(a, b) <= a.len(),
        common(a, b) <= b.len(),
        a.take(common(a, b)) == b.take(common(a, b)),
        common(a, b) < a.len() && common(a, b) < b.len() ==> a[common(a, b)] != b[common(a, b)],
    decreases a.len(),
{
    if !(a.len() == 0 || b.len() == 0 || a[0] != b[0]) {
        let a1 = a.subrange(1, a.len() as int);
        let b1 = b.subrange(1, b.len() as int);
        lemma_common(a1, b1);
        let c = common(a1, b1);
        assert(a.take(c + 1) =~= seq![a[0]] + a1.take(c));
        assert(b.take(c + 1) =~= seq![b[0]] + b1.take(c));
        if c + 1 < a.len() && c + 1 < b.len() {
            assert(a[c + 1] == a1[c]);
            assert(b[c + 1] == b1[c]);
        }
    } else {
        assert(a.take(0) =~= b.take(0));
    }
}

/// `lex_lt` by the first difference.
proof fn lemma_lex_by_common(a: Seq<char>, b: Seq<char>)
    ensures
        lex_lt(a, b) <==> ({
            let c = common(a, b);
            (c == a.len() && a.len() < b.len()) || (c < a.len() && c < b.len() && (a[c] as int) < (b[c] as int))
        }),
{
    lemma_common(a, b);
    let c = common(a, b);
    if lex_lt(a, b) {
        if a.len() < b.len() && b.take(a.len() as int) == a {
            if c < a.len() {
                assert(a[c] == b.take(a.len() as int)[c]);
            }
        } else {
            let i = choose|i: int| 0 <= i < a.len() && i < b.len() && a.take(i) == b.take(i) && (a[i] as int) < (b[i] as int);
            if c < i {
                assert(a[c] == a.take(i)[c]);
                assert(b[c] == b.take(i)[c]);
            } else if c > i {
                assert(a[i] == a.take(c)[i]);
                assert(b[i] == b.take(c)[i]);
            }
        }
    } else {
        if c == a.len() && a.len() < b.len() {
            assert(b.take(a.len() as int) =~= a);
        }
        if c < a.len() && c < b.len() && (a[c] as int) < (b[c] as int) {
            assert(a.take(c) == b.take(c));
        }
    }
}

pub proof fn lemma_lex_total(a: Seq<char>, b: Seq<char>)
    ensures
        a == b || lex_lt(a, b) || lex_lt(b, a),
        !(lex_lt(a, b) && lex_lt(b, a)),
        !lex_lt(a, a),
{
    lemma_lex_by_common(a, b);
    lemma_lex_by_common(b, a);
    lemma_lex_by_common(a, a);
    lemma_common(a, b);
    lemma_common(b, a);
    lemma_common(a, a);
    lemma_common_sym(a, b);
    let c = common(a, b);
    if c == a.len() && c == b.len() {
        assert(a =~= a.take(c));
        assert(b =~= b.take(c));
    }
    if c < a.len() && c < b.len() {
        assert((a[c] as int) != (b[c] as int));
    }
    assert(common(a, a) == a.len()) by {
        lemma_common_self(a);
    }
}

proof fn lemma_common_self(a: Seq<char>)
    ensures
        common(a, a) == a.len(),
    decreases a.len(),
{
    if a.len() > 0 {
        lemma_common_self(a.subrange(1, a.len() as int));
    }
}

proof fn lemma_common_sym(a: Seq<char>, b: Seq<char>)
    ensures
        common(a, b) == common(b, a),
    decreases a.len(),
{
    if !(a.len() == 0 || b.len() == 0 || a[0] != b[0]) {
        lemma_common_sym(a.subrange(1, a.len() as int), b.subrange(1, b.len() as int));
    }
}

/// Two strictly increasing lists with the same members are the same list.
pub proof fn lemma_sorted_unique(a: Seq<Seq<char>>, b: Seq<Seq<char>>)
    requires
        strictly_sorted(a),
        strictly_sorted(b),
        a.to_set() == b.to_set(),
    ensures
        a == b,
    decreases a.len(),
{
    if a.len() == 0 {
        if b.len() > 0 {
            assert(b.to_set().contains(b[0]));
        }
        assert(a =~= b);
    } else {
        assert(a.to_set().contains(a[0]));
        assert(b.len() > 0);
        assert(b.to_set().contains(b[0]));
        let j = choose|j: int| 0 <= j < b.len() && b[j] == a[0];
        let i = choose|i: int| 0 <= i < a.len() && a[i] == b[0];
        lemma_lex_total(a[0], b[0]);
        if i > 0 && j > 0 {
            assert(lex_lt(a[0], a[i]));
            assert(lex_lt(b[0], b[j]));
        }
        assert(a[0] == b[0]);
        let a1 = a.drop_first();
        let b1 = b.drop_first();
        assert forall|x: Seq<char>| a1.to_set().contains(x) <==> b1.to_set().contains(x) by {
            if a1.to_set().contains(x) {
                let k = choose|k: int| 0 <= k < a1.len() && a1[k] == x;
                assert(a[k + 1] == x);
                assert(lex_lt(a[0], a[k + 1]));
                lemma_lex_total(a[0], x);
                assert(a.to_set().contains(x));
                let m = choose|m: int| 0 <= m < b.len() && b[m] == x;
                assert(m != 0);
                assert(b1[m - 1] == x);
            }
            if b1.to_set().contains(x) {
                let k = choose|k: int| 0 <= k < b1.len() && b1[k] == x;
                assert(b[k + 1] == x);
                assert(lex_lt(b[0], b[k + 1]));
                lemma_lex_total(b[0], x);
                assert(b.to_set().contains(x));
                let m = choose|m: int| 0 <= m < a.len() && a[m] == x;
                assert(m != 0);
                assert(a1[m - 1] == x);
            }
        }
        assert(a1.to_set() =~= b1.to_set());
        assert forall|p: int, q: int| 0 <= p < q < a1.len() implies lex_lt(#[trigger] a1[p], #[trigger] a1[q]) by {
            assert(a1[p] == a[p + 1] && a1[q] == a[q + 1]);
        }
        assert forall|p: int, q: int| 0 <= p < q < b1.len() implies lex_lt(#[trigger] b1[p], #[trigger] b1[q]) by {
            assert(b1[p] == b[p + 1] && b1[q] == b[q + 1]);
        }
        lemma_sorted_unique(a1, b1);
        assert(a =~= b) by {
            assert forall|k: int| 0 <= k < a.len() implies a[k] == b[k] by {
                if k > 0 {
                    assert(a[k] == a1[k - 1]);
                    assert(b[k] == b1[k - 1]);
                }
            }
        }
    }
}

pub proof fn lemma_lex_trans(a: Seq<char>, b: Seq<char>, c: Seq<char>)
    requires
        lex_lt(a, b),
        lex_lt(b, c),
    ensures
        lex_lt(a, c),
{
    lemma_lex_by_common(a, b);
    lemma_lex_by_common(b, c);
    lemma_lex_by_common(a, c);
    lemma_common(a, b);
    lemma_common(b, c);
    lemma_common(a, c);
    let x = common(a, b);
    let y = common(b, c);
    let m = if x < y { x } else { y };
    assert(a.take(m) =~= c.take(m)) by {
        assert forall|i: int| 0 <= i < m implies a.take(m)[i] == c.take(m)[i] by {
            assert(a[i] == a.take(x)[i]);
            assert(b[i] == b.take(x)[i]);
            assert(b[i] == b.take(y)[i]);
            assert(c[i] == c.take(y)[i]);
        }
    }
    if x < y {
        // a and c first differ at x, where a is smaller or a ended
        if x < a.len() {
            assert(b[x] == b.take(y)[x]);
            assert(c[x] == c.take(y)[x]);
            assert(a.take(x) == c.take(x));
            assert(0 <= x < a.len() && x < c.len() && a.take(x) == c.take(x) && (a[x] as int) < (c[x] as int));
        } else {
            assert(c.take(a.len() as int) =~= a) by {
                assert forall|i: int| 0 <= i < a.len() implies c.take(a.len() as int)[i] == a[i] by {
                    assert(a[i] == a.take(x)[i]);
                    assert(b[i] == b.take(x)[i]);
                    assert(b[i] == b.take(y)[i]);
                    assert(c[i] == c.take(y)[i]);
                }
            }
        }
    } else if y < x {
        assert(a[y] == a.take(x)[y]);
        assert(b[y] == b.take(x)[y]);
        if y < b.len() {
            assert(a.take(y) == c.take(y));
            assert(0 <= y < a.len() && y < c.len() && a.take(y) == c.take(y) && (a[y] as int) < (c[y] as int));
        }
    } else {
        if x < a.len() && x < b.len() && y < c.len() {
            assert(a.take(x) == c.take(x));
            assert(0 <= x < a.len() && x < c.len() && a.take(x) == c.take(x) && (a[x] as int) < (c[x] as int));
        } else if x == a.len() {
            if y < c.len() && y < b.len() {
                assert(c.take(a.len() as int) =~= a);
            } else {
                assert(c.take(a.len() as int) =~= a);
            }
        }
    }
}

/// Whether `a` comes before `b`.
pub fn lex_less(a: &String, b: &String) -> (r: bool)
    ensures
        r == lex_lt(a@, b@),
{
    let av = crate::strings::chars_of(a.as_str());
    let bv = crate::strings::chars_of(b.as_str());
    proof {
        lemma_lex_by_common(a@, b@);
        lemma_common(a@, b@);
    }
    let mut i: usize = 0;
    while i < av.len() && i < bv.len() && av[i] == bv[i]
        invariant
            av@ == a@,
            bv@ == b@,
            i <= av@.len(),
            i <= bv@.len(),
            i <= common(a@, b@),
        decreases av@.len() - i,
    {
        proof {
            lemma_common_step(a@, b@, i as int);
        }
        i = i + 1;
    }
    proof {
        lemma_common_stop(a@, b@, i as int);
    }
    if i < av.len() && i < bv.len() {
        av[i] < bv[i]
    } else {
        i == av.len() && av.len() < bv.len()
    }
}

proof fn lemma_common_step(a: Seq<char>, b: Seq<char>, i: int)
    requires
        0 <= i <= common(a, b),
        i < a.len(),
        i < b.len(),
        a[i] == b[i],
    ensures
        i + 1 <= common(a, b),
    decreases i,
{
    lemma_common(a, b);
    if i == common(a, b) {
        assert(false);
    }
}

proof fn lemma_common_stop(a: Seq<char>, b: Seq<char>, i: int)
    requires
        0 <= i <= common(a, b),
        i <= a.len(),
        i <= b.len(),
        !(i < a.len() && i < b.len() && a[i] == b[i]),
    ensures
        i == common(a, b),
{
    lemma_common(a, b);
    if i < common(a, b) {
        assert(a[i] == a.take(common(a, b))[i]);
        assert(b[i] == b.take(common(a, b))[i]);
    }
}

/// Adds a text to a strictly sorted list unless it is there.
pub fn insert_sorted_unique(v: &mut Vec<String>, x: String)
    requires
        strictly_sorted(views_of(old(v)@)),
    ensures
        strictly_sorted(views_of(final(v)@)),
        views_of(final(v)@).to_set() == views_of(old(v)@).to_set().insert(x@),
{
    let ghost before = views_of(v@);
    let mut p: usize = 0;
    while p < v.len() && lex_less(&v[p], &x)
        invariant
            p <= v@.len(),
            before == views_of(v@),
            forall|k: int| 0 <= k < p ==> lex_lt(#[trigger] before[k], x@),
        decreases v@.len() - p,
    {
        p = p + 1;
    }
    if p < v.len() && v[p] == x {
        proof {
            assert(before[p as int] == x@);
            assert(before.to_set().insert(x@) =~= before.to_set());
        }
        return;
    }
    proof {
        if p < v@.len() {
            lemma_lex_total(before[p as int], x@);
        }
    }
    v.insert(p, x);
    proof {
        let after = views_of(v@);
        assert(after =~= before.take(p as int).push(x@) + before.skip(p as int));
        assert forall|i: int, j: int| 0 <= i < j < after.len() implies lex_lt(#[trigger] after[i], #[trigger] after[j]) by {
            if j < p {
                assert(after[i] == before[i] && after[j] == before[j]);
            } else if j == p {
                assert(after[i] == before[i]);
            } else if i == p {
                assert(after[j] == before[j - 1]);
                if j - 1 > p {
                    lemma_lex_trans(x@, before[p as int], before[j - 1]);
                }
            } else if i < p {
                assert(after[i] == before[i]);
                assert(after[j] == before[j - 1]);
                if i < j - 1 {
                } else {
                }
            } else {
                assert(after[i] == before[i - 1]);
                assert(after[j] == before[j - 1]);
            }
        }
        assert forall|y: Seq<char>| after.to_set().contains(y) <==> before.to_set().insert(x@).contains(y) by {
            if after.to_set().contains(y) {
                let k = choose|k: int| 0 <= k < after.len() && after[k] == y;
                if k < p {
                    assert(before[k] == y);
                } else if k > p {
                    assert(before[k - 1] == y);
                }
            }
            if before.to_set().contains(y) {
                let k = choose|k: int| 0 <= k < before.len() && before[k] == y;
                if k < p {
                    assert(after[k] == y);
                } else {
                    assert(after[k + 1] == y);
                }
            }
            if y == x@ {
                assert(after[p as int] == y);
            }
        }
        assert(after.to_set() =~= before.to_set().insert(x@));
    }
}

} // verus!

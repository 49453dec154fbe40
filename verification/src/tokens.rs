//! Splitting expression text into literal text and provider expressions.
//!
//! The expression forms are recognised by regular expressions (the `regex`
//! crate); what is done with the matches, which of them count, in which
//! order, and the literal text between them, is specified here.

use vstd::prelude::*;
use crate::text::opt_view;
use crate::strings::{chars_of, string_of};

verus! {

/// One match of a regular expression: where it starts and ends, counted in
/// characters of the searched text, and each capture group's text (group 0
/// is the whole match; a group that took no part is `None`).
pub struct RegexMatch {
    pub start: usize,
    pub end: usize,
    pub groups: Vec<Option<String>>,
}

pub open spec fn match_view(m: RegexMatch) -> (int, int, Seq<Option<Seq<char>>>) {
    (m.start as int, m.end as int, m.groups@.map_values(|g: Option<String>| opt_view(g)))
}

pub open spec fn matches_view(ms: Seq<RegexMatch>) -> Seq<(int, int, Seq<Option<Seq<char>>>)> {
    ms.map_values(|m: RegexMatch| match_view(m))
}

/// Whether `regex::Regex::new` accepts a pattern.
pub uninterp spec fn regex_is_valid(pattern: Seq<char>) -> bool;

/// The successive non-overlapping matches that `regex::Regex::captures_iter`
/// yields for a pattern in a text.
pub uninterp spec fn regex_captures(pattern: Seq<char>, text: Seq<char>) -> Seq<(int, int, Seq<Option<Seq<char>>>)>;

/// Compiles `pattern` with `regex::Regex::new` and collects the matches of
/// `captures_iter` over `text`, positions turned from byte offsets into
/// character counts. The contract claims that the result is `None` exactly
/// when the pattern does not compile, that the matches are the named result
/// of the two calls, and that each match lies within the text, start before
/// end, as the crate documents for `Match`.
#[verifier::external_body]
pub(crate) fn captures_all(pattern: &str, text: &str) -> (r: Option<Vec<RegexMatch>>)
    ensures
        r is Some == regex_is_valid(pattern@),
        r matches Some(ms) ==> matches_view(ms@) == regex_captures(pattern@, text@)
            && forall|k: int| 0 <= k < ms@.len() ==> (#[trigger] ms@[k]).start <= ms@[k].end <= text@.len(),
{
    let re = regex::Regex::new(pattern).ok()?;
    Some(re.captures_iter(text).map(|c| {
        let m = c.get_match();
        RegexMatch {
            start: text[..m.start()].chars().count(),
            end: text[..m.end()].chars().count(),
            groups: c.iter().map(|g| g.map(|x| x.as_str().to_string())).collect(),
        }
    }).collect())
}

/// A piece of an expression.
#[derive(Debug)]
pub enum ExpressionToken {
    /// Text kept as it is.
    Literal(String),
    /// `${provider:expression}` or a form that maps to it.
    ProviderExpression { provider: String, expression: String },
    /// An expression in an older form, evaluated on its own.
    LegacyExpression(String),
}

pub enum TokenView {
    Literal(Seq<char>),
    Provider(Seq<char>, Seq<char>),
    Legacy(Seq<char>),
}

impl View for ExpressionToken {
    type V = TokenView;

    open spec fn view(&self) -> TokenView {
        match self {
            ExpressionToken::Literal(t) => TokenView::Literal(t@),
            ExpressionToken::ProviderExpression { provider, expression } => TokenView::Provider(provider@, expression@),
            ExpressionToken::LegacyExpression(e) => TokenView::Legacy(e@),
        }
    }
}

pub open spec fn tokens_view(ts: Seq<ExpressionToken>) -> Seq<TokenView> {
    ts.map_values(|t: ExpressionToken| t@)
}

/// The text of group `i` of a match; empty when the group is absent.
pub open spec fn group_text(m: (int, int, Seq<Option<Seq<char>>>), i: int) -> Seq<char> {
    if 0 <= i < m.2.len() {
        match m.2[i] {
            Some(t) => t,
            None => Seq::empty(),
        }
    } else {
        Seq::empty()
    }
}

/// `${provider:expression}` matches as tokens.
pub open spec fn provider_cands(ms: Seq<(int, int, Seq<Option<Seq<char>>>)>) -> Seq<(int, int, TokenView)> {
    ms.map_values(|m: (int, int, Seq<Option<Seq<char>>>)| (m.0, m.1, TokenView::Provider(group_text(m, 1), group_text(m, 2))))
}

/// Matches of an older form as tokens of a fixed provider, the expression
/// being `prefix` and group 1.
pub open spec fn fixed_cands(ms: Seq<(int, int, Seq<Option<Seq<char>>>)>, provider: Seq<char>, prefix: Seq<char>) -> Seq<(int, int, TokenView)> {
    ms.map_values(|m: (int, int, Seq<Option<Seq<char>>>)| (m.0, m.1, TokenView::Provider(provider, prefix + group_text(m, 1))))
}

/// Some token already found spans `start..end`.
pub open spec fn covered(acc: Seq<(int, int, TokenView)>, start: int, end: int) -> bool {
    exists|k: int| 0 <= k < acc.len() && acc[k].0 <= start && end <= (#[trigger] acc[k]).1
}

/// `${path}` matches as context tokens, each unless a token found before it
/// spans it.
pub open spec fn add_outputs(acc: Seq<(int, int, TokenView)>, ms: Seq<(int, int, Seq<Option<Seq<char>>>)>) -> Seq<(int, int, TokenView)>
    decreases ms.len(),
{
    if ms.len() == 0 {
        acc
    } else {
        let a = add_outputs(acc, ms.drop_last());
        let m = ms.last();
        if covered(a, m.0, m.1) {
            a
        } else {
            a.push((m.0, m.1, TokenView::Provider("ctx"@, group_text(m, 1))))
        }
    }
}

/// `x` placed after every element that does not start later than it.
pub open spec fn ins_by_start(s: Seq<(int, int, TokenView)>, x: (int, int, TokenView)) -> Seq<(int, int, TokenView)>
    decreases s.len(),
{
    if s.len() == 0 {
        seq![x]
    } else if s.last().0 <= x.0 {
        s.push(x)
    } else {
        ins_by_start(s.drop_last(), x).push(s.last())
    }
}

/// The stable sort by start position.
pub open spec fn sort_by_start(s: Seq<(int, int, TokenView)>) -> Seq<(int, int, TokenView)>
    decreases s.len(),
{
    if s.len() == 0 {
        s
    } else {
        ins_by_start(sort_by_start(s.drop_last()), s.last())
    }
}

/// Tokens for the matches in order, with the literal text before each match
/// that starts after the end of the previous one; and the end of the last.
pub open spec fn fold_tokens(input: Seq<char>, cs: Seq<(int, int, TokenView)>) -> (Seq<TokenView>, int)
    decreases cs.len(),
{
    if cs.len() == 0 {
        (Seq::empty(), 0)
    } else {
        let (ts, pos) = fold_tokens(input, cs.drop_last());
        let c = cs.last();
        let ts2 = if pos < c.0 { ts.push(TokenView::Literal(input.subrange(pos, c.0))) } else { ts };
        (ts2.push(c.2), c.1)
    }
}

/// The tokens of `input` for sorted matches: literal text around the
/// matches; the whole text as one literal when nothing else came out.
pub open spec fn tokens_of(input: Seq<char>, cs: Seq<(int, int, TokenView)>) -> Seq<TokenView> {
    let (ts, pos) = fold_tokens(input, cs);
    let ts2 = if pos < input.len() { ts.push(TokenView::Literal(input.subrange(pos, input.len() as int))) } else { ts };
    if ts2.len() == 0 && input.len() > 0 {
        seq![TokenView::Literal(input)]
    } else {
        ts2
    }
}

pub open spec fn provider_pattern() -> Seq<char> { "\\$\\{(\\w+):([^}]+)\\}"@ }
pub open spec fn legacy_env_pattern() -> Seq<char> { "\\$\\{\\{\\s*env\\.(\\w+)\\s*\\}\\}"@ }
pub open spec fn legacy_vars_pattern() -> Seq<char> { "\\$\\{\\{\\s*vars\\.(\\w+)\\s*\\}\\}"@ }
pub open spec fn legacy_output_pattern() -> Seq<char> { "\\$\\{([^}:]+)\\}"@ }
pub open spec fn legacy_env_simple_pattern() -> Seq<char> { "\\$env:(\\w+)"@ }
pub open spec fn legacy_jq_pattern() -> Seq<char> { "\\$jq:([^$\\s]+)"@ }

/// All matches as tokens, in the order they are collected: the provider
/// form, then `${{ env.X }}`, `${{ vars.X }}`, `$env:X`, `$jq:E`, and last
/// the `${path}` form where nothing collected before spans it.
pub open spec fn collected(input: Seq<char>) -> Seq<(int, int, TokenView)> {
    let c = provider_cands(regex_captures(provider_pattern(), input))
        + fixed_cands(regex_captures(legacy_env_pattern(), input), "env"@, Seq::empty())
        + fixed_cands(regex_captures(legacy_vars_pattern(), input), "ctx"@, "vars."@)
        + fixed_cands(regex_captures(legacy_env_simple_pattern(), input), "env"@, Seq::empty())
        + fixed_cands(regex_captures(legacy_jq_pattern(), input), "jq"@, Seq::empty());
    add_outputs(c, regex_captures(legacy_output_pattern(), input))
}

/// The tokens of an expression text.
pub open spec fn tokenize_spec(input: Seq<char>) -> Seq<TokenView> {
    tokens_of(input, sort_by_start(collected(input)))
}

/// Which pattern fails to compile first, if any, with its error text.
pub open spec fn pattern_error(input: Seq<char>) -> Option<Seq<char>> {
    if !regex_is_valid(provider_pattern()) {
        Some("Failed to compile provider regex"@)
    } else if !regex_is_valid(legacy_env_pattern()) {
        Some("Failed to compile legacy env regex"@)
    } else if !regex_is_valid(legacy_vars_pattern()) {
        Some("Failed to compile legacy vars regex"@)
    } else if !regex_is_valid(legacy_output_pattern()) {
        Some("Failed to compile legacy output regex"@)
    } else if !regex_is_valid(legacy_env_simple_pattern()) {
        Some("Failed to compile legacy env simple regex"@)
    } else if !regex_is_valid(legacy_jq_pattern()) {
        Some("Failed to compile legacy jq regex"@)
    } else {
        None
    }
}

// ---------------------------------------------------------------------

pub(crate) fn group_of(m: &RegexMatch, i: usize) -> (r: String)
    ensures
        r@ == group_text(match_view(*m), i as int),
{
    if i < m.groups.len() {
        match &m.groups[i] {
            Some(t) => t.clone(),
            None => String::new(),
        }
    } else {
        String::new()
    }
}

/// Candidates are within the text.
pub open spec fn within(cs: Seq<(usize, usize, ExpressionToken)>, n: int) -> bool {
    forall|k: int| 0 <= k < cs.len() ==> (#[trigger] cs[k]).0 <= cs[k].1 <= n
}

pub open spec fn cands_view(cs: Seq<(usize, usize, ExpressionToken)>) -> Seq<(int, int, TokenView)> {
    cs.map_values(|c: (usize, usize, ExpressionToken)| (c.0 as int, c.1 as int, c.2@))
}

/// Appends one token per match: from the provider form when `provider` is
/// `None`, else of the given provider with `prefix` before group 1.
fn push_cands(
    out: &mut Vec<(usize, usize, ExpressionToken)>,
    ms: &Vec<RegexMatch>,
    provider: Option<&str>,
    prefix: &str,
    Ghost(n): Ghost<int>,
)
    requires
        within(old(out)@, n),
        forall|k: int| 0 <= k < ms@.len() ==> (#[trigger] ms@[k]).start <= ms@[k].end <= n,
    ensures
        within(final(out)@, n),
        cands_view(final(out)@) == cands_view(old(out)@) + match provider {
            None => provider_cands(matches_view(ms@)),
            Some(p) => fixed_cands(matches_view(ms@), p@, prefix@),
        },
{
    let ghost want = match provider {
        None => provider_cands(matches_view(ms@)),
        Some(p) => fixed_cands(matches_view(ms@), p@, prefix@),
    };
    let ghost start = cands_view(out@);
    let mut i: usize = 0;
    while i < ms.len()
        invariant
            i <= ms@.len(),
            within(out@, n),
            forall|k: int| 0 <= k < ms@.len() ==> (#[trigger] ms@[k]).start <= ms@[k].end <= n,
            want == match provider {
                None => provider_cands(matches_view(ms@)),
                Some(p) => fixed_cands(matches_view(ms@), p@, prefix@),
            },
            want.len() == ms@.len(),
            cands_view(out@) == start + want.take(i as int),
        decreases ms@.len() - i,
    {
        let m = &ms[i];
        let token = match provider {
            None => ExpressionToken::ProviderExpression { provider: group_of(m, 1), expression: group_of(m, 2) },
            Some(p) => {
                let mut e = prefix.to_string();
                let g = group_of(m, 1);
                e.append(g.as_str());
                ExpressionToken::ProviderExpression { provider: p.to_string(), expression: e }
            },
        };
        let ghost old_out = out@;
        out.push((m.start, m.end, token));
        proof {
            assert(matches_view(ms@)[i as int] == match_view(ms@[i as int]));
            assert(cands_view(out@) =~= cands_view(old_out).push((m.start as int, m.end as int, token@)));
            assert(want.take(i as int + 1) =~= want.take(i as int).push(want[i as int]));
            assert forall|k: int| 0 <= k < out@.len() implies (#[trigger] out@[k]).0 <= out@[k].1 <= n by {
                if k < old_out.len() {
                    assert(out@[k] == old_out[k]);
                }
            }
        }
        i = i + 1;
    }
    proof {
        assert(want.take(want.len() as int) =~= want);
    }
}

/// Whether some candidate spans `start..end`.
fn is_covered(cs: &Vec<(usize, usize, ExpressionToken)>, start: usize, end: usize) -> (r: bool)
    ensures
        r == covered(cands_view(cs@), start as int, end as int),
{
    let mut k: usize = 0;
    while k < cs.len()
        invariant
            k <= cs@.len(),
            forall|j: int| 0 <= j < k ==> !(cs@[j].0 <= start && end <= cs@[j].1),
        decreases cs@.len() - k,
    {
        if cs[k].0 <= start && end <= cs[k].1 {
            proof {
                assert(cands_view(cs@)[k as int].0 <= start && end <= cands_view(cs@)[k as int].1);
            }
            return true;
        }
        k = k + 1;
    }
    proof {
        assert forall|j: int| 0 <= j < cands_view(cs@).len() implies
            !(cands_view(cs@)[j].0 <= start && end <= (#[trigger] cands_view(cs@)[j]).1) by {
            assert(cands_view(cs@)[j] == (cs@[j].0 as int, cs@[j].1 as int, cs@[j].2@));
        }
    }
    false
}

fn push_outputs(out: &mut Vec<(usize, usize, ExpressionToken)>, ms: &Vec<RegexMatch>, Ghost(n): Ghost<int>)
    requires
        within(old(out)@, n),
        forall|k: int| 0 <= k < ms@.len() ==> (#[trigger] ms@[k]).start <= ms@[k].end <= n,
    ensures
        within(final(out)@, n),
        cands_view(final(out)@) == add_outputs(cands_view(old(out)@), matches_view(ms@)),
{
    let ghost start = cands_view(out@);
    let mut i: usize = 0;
    while i < ms.len()
        invariant
            i <= ms@.len(),
            within(out@, n),
            forall|k: int| 0 <= k < ms@.len() ==> (#[trigger] ms@[k]).start <= ms@[k].end <= n,
            cands_view(out@) == add_outputs(start, matches_view(ms@).take(i as int)),
        decreases ms@.len() - i,
    {
        let m = &ms[i];
        proof {
            let mv = matches_view(ms@);
            assert(mv.take(i as int + 1).drop_last() =~= mv.take(i as int));
            assert(mv.take(i as int + 1).last() == match_view(ms@[i as int]));
        }
        if !is_covered(out, m.start, m.end) {
            let ghost old_out = out@;
            out.push((m.start, m.end, ExpressionToken::ProviderExpression { provider: "ctx".to_string(), expression: group_of(m, 1) }));
            proof {
                assert(cands_view(out@) =~= cands_view(old_out).push(cands_view(out@).last()));
                assert forall|k: int| 0 <= k < out@.len() implies (#[trigger] out@[k]).0 <= out@[k].1 <= n by {
                    if k < old_out.len() {
                        assert(out@[k] == old_out[k]);
                    }
                }
            }
        }
        i = i + 1;
    }
    proof {
        assert(matches_view(ms@).take(ms@.len() as int) =~= matches_view(ms@));
    }
}

proof fn lemma_ins_at(s: Seq<(int, int, TokenView)>, x: (int, int, TokenView), k: int)
    requires
        0 <= k <= s.len(),
        forall|j: int| k <= j < s.len() ==> (#[trigger] s[j]).0 > x.0,
        k == 0 || s[k - 1].0 <= x.0,
    ensures
        ins_by_start(s, x) == s.take(k).push(x) + s.skip(k),
    decreases s.len(),
{
    if s.len() == k {
        assert(s.skip(k) =~= Seq::<(int, int, TokenView)>::empty());
        assert(s.take(k) =~= s);
        if s.len() > 0 {
            assert(s.last() == s[k - 1]);
        }
        assert(s.take(k).push(x) + s.skip(k) =~= s.push(x));
    } else {
        assert(s.last() == s[s.len() - 1]);
        let d = s.drop_last();
        assert forall|j: int| k <= j < d.len() implies (#[trigger] d[j]).0 > x.0 by {
            assert(d[j] == s[j]);
        }
        if k > 0 {
            assert(d[k - 1] == s[k - 1]);
        }
        lemma_ins_at(d, x, k);
        assert(d.take(k) =~= s.take(k));
        assert(d.skip(k).push(s.last()) =~= s.skip(k));
        assert(ins_by_start(s, x) == ins_by_start(d, x).push(s.last()));
        assert(d.take(k).push(x) + d.skip(k).push(s.last()) =~= (d.take(k).push(x) + d.skip(k)).push(s.last()));
    }
}

/// Sorts by start position, keeping the order of equal starts.
fn sort_cands(cs: Vec<(usize, usize, ExpressionToken)>, Ghost(n): Ghost<int>) -> (r: Vec<(usize, usize, ExpressionToken)>)
    requires
        within(cs@, n),
    ensures
        within(r@, n),
        cands_view(r@) == sort_by_start(cands_view(cs@)),
{
    let ghost orig = cs@;
    let total = cs.len();
    let mut rest = cs;
    let mut out: Vec<(usize, usize, ExpressionToken)> = Vec::new();
    let mut i: usize = 0;
    while rest.len() > 0
        invariant
            i + rest@.len() == orig.len(),
            orig.len() == total,
            rest@ == orig.skip(i as int),
            within(orig, n),
            within(out@, n),
            cands_view(out@) == sort_by_start(cands_view(orig.take(i as int))),
        decreases rest@.len(),
    {
        let x = rest.remove(0);
        proof {
            assert(x == orig[i as int]);
            assert(rest@ =~= orig.skip(i as int + 1));
            assert(cands_view(orig.take(i as int + 1)).drop_last() =~= cands_view(orig.take(i as int)));
            assert(cands_view(orig.take(i as int + 1)).last() == (x.0 as int, x.1 as int, x.2@));
        }
        let mut k: usize = out.len();
        while k > 0 && out[k - 1].0 > x.0
            invariant
                k <= out@.len(),
                forall|j: int| k <= j < out@.len() ==> (#[trigger] out@[j]).0 > x.0,
            decreases k,
        {
            k = k - 1;
        }
        let ghost sv = cands_view(out@);
        let ghost xv = (x.0 as int, x.1 as int, x.2@);
        proof {
            assert forall|j: int| k <= j < sv.len() implies (#[trigger] sv[j]).0 > xv.0 by {
                assert(sv[j].0 == out@[j].0);
            }
            if k > 0 {
                assert(sv[k - 1].0 == out@[k - 1].0);
            }
            lemma_ins_at(sv, xv, k as int);
        }
        let ghost old_out = out@;
        out.insert(k, x);
        proof {
            assert(cands_view(out@) =~= sv.take(k as int).push(xv) + sv.skip(k as int));
            assert forall|j: int| 0 <= j < out@.len() implies (#[trigger] out@[j]).0 <= out@[j].1 <= n by {
                if j < k {
                    assert(out@[j] == old_out[j]);
                } else if j == k {
                    assert(out@[j] == x);
                } else {
                    assert(out@[j] == old_out[j - 1]);
                }
            }
        }
        i = i + 1;
    }
    proof {
        assert(orig.take(orig.len() as int) =~= orig);
    }
    out
}

/// Splits an expression text into literal pieces and provider expressions.
/// Every recognised form becomes a provider expression; the text between
/// them is kept as literals.
pub fn tokenize(input: &str) -> (r: Result<Vec<ExpressionToken>, String>)
    ensures
        match r {
            Ok(ts) => pattern_error(input@) is None && tokens_view(ts@) == tokenize_spec(input@),
            Err(e) => pattern_error(input@) == Some(e@),
        },
{
    let n = input.unicode_len();
    let ghost gn = n as int;
    let provider = match captures_all("\\$\\{(\\w+):([^}]+)\\}", input) {
        Some(m) => m,
        None => return Err("Failed to compile provider regex".to_string()),
    };
    let legacy_env = match captures_all("\\$\\{\\{\\s*env\\.(\\w+)\\s*\\}\\}", input) {
        Some(m) => m,
        None => return Err("Failed to compile legacy env regex".to_string()),
    };
    let legacy_vars = match captures_all("\\$\\{\\{\\s*vars\\.(\\w+)\\s*\\}\\}", input) {
        Some(m) => m,
        None => return Err("Failed to compile legacy vars regex".to_string()),
    };
    let legacy_output = match captures_all("\\$\\{([^}:]+)\\}", input) {
        Some(m) => m,
        None => return Err("Failed to compile legacy output regex".to_string()),
    };
    let legacy_env_simple = match captures_all("\\$env:(\\w+)", input) {
        Some(m) => m,
        None => return Err("Failed to compile legacy env simple regex".to_string()),
    };
    let legacy_jq = match captures_all("\\$jq:([^$\\s]+)", input) {
        Some(m) => m,
        None => return Err("Failed to compile legacy jq regex".to_string()),
    };
    let mut cs: Vec<(usize, usize, ExpressionToken)> = Vec::new();
    proof {
        assert(cands_view(cs@) =~= Seq::<(int, int, TokenView)>::empty());
    }
    push_cands(&mut cs, &provider, None, "", Ghost(gn));
    push_cands(&mut cs, &legacy_env, Some("env"), "", Ghost(gn));
    push_cands(&mut cs, &legacy_vars, Some("ctx"), "vars.", Ghost(gn));
    push_cands(&mut cs, &legacy_env_simple, Some("env"), "", Ghost(gn));
    push_cands(&mut cs, &legacy_jq, Some("jq"), "", Ghost(gn));
    push_outputs(&mut cs, &legacy_output, Ghost(gn));
    proof {
        reveal_strlit("");
        assert(""@ =~= Seq::<char>::empty());
        assert(Seq::<(int, int, TokenView)>::empty()
            + provider_cands(regex_captures(provider_pattern(), input@))
            =~= provider_cands(regex_captures(provider_pattern(), input@)));
        assert(cands_view(cs@) == collected(input@));
    }
    let sorted = sort_cands(cs, Ghost(gn));
    let chars = chars_of(input);
    let ghost all = sorted@;
    let total = sorted.len();
    let mut rest = sorted;
    let mut tokens: Vec<ExpressionToken> = Vec::new();
    let mut pos: usize = 0;
    let mut i: usize = 0;
    while rest.len() > 0
        invariant
            n == input@.len(),
            chars@ == input@,
            i + rest@.len() == all.len(),
            all.len() == total,
            rest@ == all.skip(i as int),
            within(all, n as int),
            pos <= n,
            (tokens_view(tokens@), pos as int) == fold_tokens(input@, cands_view(all.take(i as int))),
        decreases rest@.len(),
    {
        let (start, end, token) = rest.remove(0);
        proof {
            assert(all[i as int] == (start, end, token));
            assert(rest@ =~= all.skip(i as int + 1));
            assert(cands_view(all.take(i as int + 1)).drop_last() =~= cands_view(all.take(i as int)));
            assert(cands_view(all.take(i as int + 1)).last() == (start as int, end as int, token@));
        }
        let ghost before = tokens@;
        if pos < start {
            tokens.push(ExpressionToken::Literal(string_of(&chars, pos, start)));
        }
        let ghost mid = tokens@;
        tokens.push(token);
        proof {
            assert(tokens_view(mid) =~= if pos < start {
                tokens_view(before).push(TokenView::Literal(input@.subrange(pos as int, start as int)))
            } else {
                tokens_view(before)
            });
            assert(tokens_view(tokens@) =~= tokens_view(mid).push(token@));
        }
        pos = end;
        i = i + 1;
    }
    proof {
        assert(all.take(all.len() as int) =~= all);
    }
    if pos < n {
        let ghost before = tokens@;
        tokens.push(ExpressionToken::Literal(string_of(&chars, pos, n)));
        proof {
            assert(tokens_view(tokens@) =~= tokens_view(before).push(TokenView::Literal(input@.subrange(pos as int, n as int))));
        }
    }
    if tokens.len() == 0 && n > 0 {
        tokens.push(ExpressionToken::Literal(input.to_string()));
        proof {
            assert(tokens_view(tokens@) =~= seq![TokenView::Literal(input@)]);
        }
    }
    Ok(tokens)
}

} // verus!

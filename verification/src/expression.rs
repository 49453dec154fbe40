//! Evaluating expressions in workflow values: `${env:NAME}` reads an
//! environment variable, `${ctx:path}` a flow variable (`vars.NAME`) or a
//! context value, `${jq:query}` runs a jq query; text around expressions is
//! interpolated and the result read back as a number, a boolean or text.

use vstd::prelude::*;
use crate::strmap::StrMap;
use crate::yaml::{YamlValue, YamlNumber, YamlModel, NumberModel};
use crate::text::{decimal, decimal_string, same_text};
use crate::strings::{
    split_all, split_two, trim, starts_with, contains_text, find, chars_of, string_of, starts_with_exec,
    contains_exec, split_all_exec, split_two_exec, trim_exec, lemma_find_from,
};
use crate::numtext::{int_text, is_float_text, parse_int, is_float_exec};
use crate::tokens::{ExpressionToken, TokenView, tokens_view, tokenize, tokenize_spec, pattern_error};

verus! {

/// What evaluation needs from outside the library: floating-point numbers,
/// the YAML text of sequences and mappings, and jq queries. A host may
/// declare its answers (`answers_known`): then each answer is the one its
/// spec functions name. By default a host declares nothing, and nothing is
/// claimed of its answers.
pub trait ExpressionHost {
    /// Whether the host's answers are the ones its spec functions name.
    open spec fn answers_known(&self) -> bool {
        false
    }

    /// The text that `float_text` gives for a text, when declared.
    open spec fn float_spec(&self, text: Seq<char>) -> Seq<char> {
        text
    }

    /// The text that `yaml_text` gives for a value, when declared.
    open spec fn yaml_spec(&self, value: YamlModel) -> Seq<char> {
        Seq::empty()
    }

    /// What `jq_query` gives for a tree and a query, when declared.
    open spec fn jq_spec(&self, root: YamlModel, query: Seq<char>) -> Result<YamlModel, Seq<char>> {
        Err(query)
    }

    /// The text a float reads as, as YAML writes that float.
    fn float_text(&self, text: &str) -> (r: String)
        ensures
            self.answers_known() ==> r@ == self.float_spec(text@),
    ;

    /// The YAML text of a value.
    fn yaml_text(&self, value: &YamlValue) -> (r: String)
        ensures
            self.answers_known() ==> r@ == self.yaml_spec(value.model()),
    ;

    /// The result of a jq query over a tree of values.
    fn jq_query(&self, root: &YamlValue, expression: &str) -> (r: Result<YamlValue, String>)
        ensures
            self.answers_known() ==> res_model(r) == self.jq_spec(root.model(), expression@),
    ;
}

/// A source of expression values, selected by its name.
pub trait ExpressionProvider {
    fn evaluate(&self, expression: &str) -> Result<YamlValue, String>;

    fn name(&self) -> &str;
}

// ---------------------------------------------------------------------
// Specification

pub open spec fn res_model(r: Result<YamlValue, String>) -> Result<YamlModel, Seq<char>> {
    match r {
        Ok(v) => Ok(v.model()),
        Err(e) => Err(e@),
    }
}

/// Results that are the same, but for the text of a floating-point number.
pub open spec fn agrees(r: Result<YamlModel, Seq<char>>, x: Result<YamlModel, Seq<char>>) -> bool {
    match (r, x) {
        (Ok(YamlModel::Number(NumberModel::Float(_))), Ok(YamlModel::Number(NumberModel::Float(_)))) => true,
        _ => r == x,
    }
}

/// Index of the first key that `p` holds of, or -1.
pub open spec fn first_match(keys: Seq<Seq<char>>, p: spec_fn(Seq<char>) -> bool) -> int
    decreases keys.len(),
{
    if keys.len() == 0 {
        -1
    } else if p(keys[0]) {
        0
    } else {
        let r = first_match(keys.subrange(1, keys.len() as int), p);
        if r < 0 { -1 } else { r + 1 }
    }
}

/// `${env:NAME}`: the variable's text.
pub open spec fn env_spec(env: StrMap<String>, e: Seq<char>) -> Result<YamlModel, Seq<char>> {
    if env@.contains_key(e) {
        Ok(YamlModel::String(env@[e]@))
    } else {
        Err("Environment variable not found: "@ + e)
    }
}

/// What precedes the first `.` of a path (all of it when it has none).
pub open spec fn head_of(path: Seq<char>) -> Seq<char> {
    split_all(path, "."@)[0]
}

/// Keys that are `path` or start with `prefix`.
pub open spec fn key_hits(path: Seq<char>, prefix: Seq<char>) -> spec_fn(Seq<char>) -> bool {
    |k: Seq<char>| k == path || starts_with(k, prefix)
}

/// A context value for a path: the value under the path itself, else that
/// of the first key that is the path or starts with the path's first part
/// and a dot.
pub open spec fn ctx_lookup(ctx: StrMap<YamlValue>, path: Seq<char>) -> Option<YamlModel> {
    if ctx@.contains_key(path) {
        Some(ctx@[path].model())
    } else {
        let i = first_match(ctx.key_seq(), key_hits(path, head_of(path) + "."@));
        if i < 0 { None } else { Some(ctx.value_seq()[i].model()) }
    }
}

/// `${ctx:vars.NAME}` reads a flow variable; any other `${ctx:path}` a
/// context value.
pub open spec fn ctx_spec(ctx: StrMap<YamlValue>, flow: StrMap<YamlValue>, e: Seq<char>) -> Result<YamlModel, Seq<char>> {
    if starts_with(e, "vars."@) {
        let name = e.subrange(5, e.len() as int);
        if flow@.contains_key(name) {
            Ok(flow@[name].model())
        } else {
            Err("Flow variable not found: "@ + name)
        }
    } else {
        match ctx_lookup(ctx, e) {
            Some(v) => Ok(v),
            None => Err("Context path not found: "@ + e),
        }
    }
}

/// The text of a scalar as it is interpolated; `None` for sequences,
/// mappings and tagged values, whose YAML text comes from outside.
pub open spec fn scalar_text(m: YamlModel) -> Option<Seq<char>> {
    match m {
        YamlModel::String(s) => Some(s),
        YamlModel::Number(NumberModel::PosInt(n)) => Some(decimal(n)),
        YamlModel::Number(NumberModel::NegInt(i)) => Some(if i < 0 { "-"@ + decimal((-i) as nat) } else { decimal(i as nat) }),
        YamlModel::Number(NumberModel::Float(t)) => Some(t),
        YamlModel::Bool(b) => Some(if b { "true"@ } else { "false"@ }),
        YamlModel::Null => Some("null"@),
        _ => None,
    }
}

/// What an interpolated text reads back as: an integer, a float (kept here
/// as the text it was read from), a boolean, or the text itself.
pub open spec fn parse_model(s: Seq<char>) -> YamlModel {
    match int_text(s) {
        Some(i) => YamlModel::Number(if i >= 0 { NumberModel::PosInt(i as nat) } else { NumberModel::NegInt(i) }),
        None => if is_float_text(s) {
            YamlModel::Number(NumberModel::Float(s))
        } else if s == "true"@ {
            YamlModel::Bool(true)
        } else if s == "false"@ {
            YamlModel::Bool(false)
        } else {
            YamlModel::String(s)
        },
    }
}

/// The text a value is interpolated as: a scalar's own text, and the YAML
/// text the host gives for anything else, when it declares its answers.
pub open spec fn value_text<H: ExpressionHost>(host: H, m: YamlModel) -> Option<Seq<char>> {
    match scalar_text(m) {
        Some(t) => Some(t),
        None => if host.answers_known() { Some(host.yaml_spec(m)) } else { None },
    }
}

/// What an interpolated text reads back as, a float's text as the host
/// writes it when it declares its answers.
pub open spec fn read_back<H: ExpressionHost>(host: H, s: Seq<char>) -> YamlModel {
    match parse_model(s) {
        YamlModel::Number(NumberModel::Float(_)) => if host.answers_known() {
            YamlModel::Number(NumberModel::Float(host.float_spec(s)))
        } else {
            parse_model(s)
        },
        m => m,
    }
}

/// A result as specified: exactly, when the host declares its answers;
/// else but for the text of a floating-point number.
pub open spec fn as_specified<H: ExpressionHost>(host: H, r: Result<YamlModel, Seq<char>>, x: Result<YamlModel, Seq<char>>) -> bool {
    if host.answers_known() { r == x } else { agrees(r, x) }
}

/// A provider expression; `None` where the result is a jq answer of a host
/// that does not declare its answers.
pub open spec fn provider_spec<H: ExpressionHost>(ev: ExpressionEvaluator, host: H, provider: Seq<char>, e: Seq<char>) -> Option<Result<YamlModel, Seq<char>>> {
    if provider == "env"@ {
        Some(env_spec(ev.env(), e))
    } else if provider == "ctx"@ {
        Some(ctx_spec(ev.ctx(), ev.flow(), e))
    } else if provider == "jq"@ {
        match jq_root_spec(context_tree_spec(ev.ctx()), ev.flow(), ev.env(), e) {
            Err(msg) => Some(Err(msg)),
            Ok((root, query)) => if host.answers_known() { Some(host.jq_spec(root, query)) } else { None },
        }
    } else {
        Some(Err("Unknown provider: "@ + provider))
    }
}

/// The text one token contributes; `None` where it comes from outside.
pub open spec fn token_text<H: ExpressionHost>(ev: ExpressionEvaluator, host: H, t: TokenView) -> Option<Result<Seq<char>, Seq<char>>> {
    match t {
        TokenView::Literal(x) => Some(Ok(x)),
        TokenView::Provider(p, e) => match provider_spec(ev, host, p, e) {
            Some(Ok(v)) => match value_text(host, v) {
                Some(s) => Some(Ok(s)),
                None => None,
            },
            Some(Err(e)) => Some(Err(e)),
            None => None,
        },
        TokenView::Legacy(_) => None,
    }
}

/// The interpolated text of tokens, left to right; the first error stops it.
pub open spec fn interp<H: ExpressionHost>(ev: ExpressionEvaluator, host: H, ts: Seq<TokenView>) -> Option<Result<Seq<char>, Seq<char>>>
    decreases ts.len(),
{
    if ts.len() == 0 {
        Some(Ok(Seq::empty()))
    } else {
        match token_text(ev, host, ts[0]) {
            None => None,
            Some(Err(e)) => Some(Err(e)),
            Some(Ok(t)) => match interp(ev, host, ts.subrange(1, ts.len() as int)) {
                None => None,
                Some(Err(e)) => Some(Err(e)),
                Some(Ok(rest)) => Some(Ok(t + rest)),
            },
        }
    }
}

/// An expression text: a lone provider expression gives its value as it
/// is; anything else is interpolated and read back. `None` where the result
/// depends on what comes from outside.
pub open spec fn eval_spec<H: ExpressionHost>(ev: ExpressionEvaluator, host: H, input: Seq<char>) -> Option<Result<YamlModel, Seq<char>>> {
    match pattern_error(input) {
        Some(e) => Some(Err(e)),
        None => {
            let ts = tokenize_spec(input);
            if ts.len() == 1 && ts[0] is Provider {
                provider_spec(ev, host, ts[0]->Provider_0, ts[0]->Provider_1)
            } else {
                match interp(ev, host, ts) {
                    None => None,
                    Some(Err(e)) => Some(Err(e)),
                    Some(Ok(s)) => Some(Ok(read_back(host, s))),
                }
            }
        },
    }
}

/// The two sides around the first `sep`, trimmed, are equal.
pub open spec fn sides_equal(t: Seq<char>, sep: Seq<char>) -> bool {
    let parts = split_two(t, sep);
    parts.len() == 2 && trim(parts[0]) == trim(parts[1])
}

/// The two sides around the first `sep`, trimmed, differ.
pub open spec fn sides_differ(t: Seq<char>, sep: Seq<char>) -> bool {
    let parts = split_two(t, sep);
    parts.len() == 2 && trim(parts[0]) != trim(parts[1])
}

/// A condition: booleans as they are; text compared with `==` or `!=`,
/// combined with `&&` or `||`, else true when not empty; numbers true when
/// not zero; null false; anything else true. Each `&&` or `||` spends one
/// unit of `fuel`; with none left the condition is refused.
pub open spec fn cond_spec<H: ExpressionHost>(ev: ExpressionEvaluator, host: H, s: Seq<char>, fuel: nat) -> Option<Result<bool, Seq<char>>>
    decreases fuel, 0nat,
{
    match eval_spec(ev, host, s) {
        None => None,
        Some(Err(e)) => Some(Err(e)),
        Some(Ok(m)) => match m {
            YamlModel::Bool(b) => Some(Ok(b)),
            YamlModel::String(t) => if contains_text(t, "=="@) {
                Some(Ok(sides_equal(t, "=="@)))
            } else if contains_text(t, "!="@) {
                Some(Ok(sides_differ(t, "!="@)))
            } else if contains_text(t, "&&"@) {
                if fuel == 0 { Some(Err(too_deep())) } else { all_spec(ev, host, split_all(t, "&&"@), (fuel - 1) as nat) }
            } else if contains_text(t, "||"@) {
                if fuel == 0 { Some(Err(too_deep())) } else { any_spec(ev, host, split_all(t, "||"@), (fuel - 1) as nat) }
            } else {
                Some(Ok(t.len() > 0))
            },
            YamlModel::Number(NumberModel::PosInt(n)) => Some(Ok(n != 0)),
            YamlModel::Number(NumberModel::NegInt(i)) => Some(Ok(i != 0)),
            YamlModel::Number(NumberModel::Float(t)) => if host.answers_known() {
                Some(Ok(!(t == "0.0"@ || t == "-0.0"@)))
            } else {
                None
            },
            YamlModel::Null => Some(Ok(false)),
            _ => Some(Ok(true)),
        },
    }
}

/// Every part, trimmed, holds; the first part that fails or errs decides.
pub open spec fn all_spec<H: ExpressionHost>(ev: ExpressionEvaluator, host: H, parts: Seq<Seq<char>>, fuel: nat) -> Option<Result<bool, Seq<char>>>
    decreases fuel, parts.len() + 1,
{
    if parts.len() == 0 {
        Some(Ok(true))
    } else {
        match cond_spec(ev, host, trim(parts[0]), fuel) {
            None => None,
            Some(Err(e)) => Some(Err(e)),
            Some(Ok(false)) => Some(Ok(false)),
            Some(Ok(true)) => all_spec(ev, host, parts.subrange(1, parts.len() as int), fuel),
        }
    }
}

/// Some part, trimmed, holds; the first part that holds or errs decides.
pub open spec fn any_spec<H: ExpressionHost>(ev: ExpressionEvaluator, host: H, parts: Seq<Seq<char>>, fuel: nat) -> Option<Result<bool, Seq<char>>>
    decreases fuel, parts.len() + 1,
{
    if parts.len() == 0 {
        Some(Ok(false))
    } else {
        match cond_spec(ev, host, trim(parts[0]), fuel) {
            None => None,
            Some(Err(e)) => Some(Err(e)),
            Some(Ok(true)) => Some(Ok(true)),
            Some(Ok(false)) => any_spec(ev, host, parts.subrange(1, parts.len() as int), fuel),
        }
    }
}

pub open spec fn too_deep() -> Seq<char> {
    "Condition nests too deeply"@
}

/// How many `&&` and `||` levels a condition may nest.
pub open spec fn condition_fuel() -> nat {
    64
}

// ---------------------------------------------------------------------
// Providers

/// `${env:NAME}`.
pub struct EnvProvider {
    pub env_vars: StrMap<String>,
}

/// `${ctx:vars.NAME}` and `${ctx:path}`.
pub struct ContextProvider {
    pub context_vars: StrMap<YamlValue>,
    pub flow_vars: StrMap<YamlValue>,
}

/// `${env:NAME}` over a map of variables.
fn env_lookup(env_vars: &StrMap<String>, expression: &str) -> (r: Result<YamlValue, String>)
    ensures
        res_model(r) == env_spec(*env_vars, expression@),
{
    match env_vars.get(expression) {
        Some(v) => Ok(YamlValue::String(v.clone())),
        None => {
            let mut msg = "Environment variable not found: ".to_string();
            msg.append(expression);
            Err(msg)
        },
    }
}

impl EnvProvider {
    pub fn lookup(&self, expression: &str) -> (r: Result<YamlValue, String>)
        ensures
            res_model(r) == env_spec(self.env_vars, expression@),
    {
        env_lookup(&self.env_vars, expression)
    }
}

impl ExpressionProvider for EnvProvider {
    fn evaluate(&self, expression: &str) -> (r: Result<YamlValue, String>)
        ensures
            res_model(r) == env_spec(self.env_vars, expression@),
    {
        self.lookup(expression)
    }

    fn name(&self) -> (r: &str)
        ensures
            r@ == "env"@,
    {
        "env"
    }
}

/// The index of the first key that is `path` or starts with `prefix`.
fn first_key_with(ctx: &StrMap<YamlValue>, path: &str, prefix: &str) -> (r: Option<usize>)
    ensures
        match r {
            Some(i) => i as int == first_match(ctx.key_seq(), key_hits(path@, prefix@)) && i < ctx.key_seq().len(),
            None => first_match(ctx.key_seq(), key_hits(path@, prefix@)) < 0,
        },
{
    let es = ctx.entries();
    let ghost p = key_hits(path@, prefix@);
    let owned_path = path.to_string();
    let mut i: usize = 0;
    proof {
        assert(ctx.key_seq().skip(0) =~= ctx.key_seq());
    }
    while i < es.len()
        invariant
            i <= es@.len(),
            es@.len() == ctx.key_seq().len(),
            forall|k: int| 0 <= k < es@.len() ==> #[trigger] es@[k].0@ == ctx.key_seq()[k],
            p == key_hits(path@, prefix@),
            owned_path@ == path@,
            first_match(ctx.key_seq(), p) == if first_match(ctx.key_seq().skip(i as int), p) < 0 { -1 } else { first_match(ctx.key_seq().skip(i as int), p) + i },
        decreases es@.len() - i,
    {
        let key = &es[i].0;
        let ghost ks = ctx.key_seq().skip(i as int);
        proof {
            assert(ks[0] == es@[i as int].0@);
            assert(ks.subrange(1, ks.len() as int) =~= ctx.key_seq().skip(i as int + 1));
        }
        if same_text(key, path) || starts_with_exec(key.as_str(), prefix) {
            proof {
                assert(p(ks[0]));
            }
            return Some(i);
        }
        proof {
            assert(!p(ks[0]));
            assert(first_match(ks, p) == if first_match(ctx.key_seq().skip(i as int + 1), p) < 0 { -1 } else { first_match(ctx.key_seq().skip(i as int + 1), p) + 1 });
        }
        i = i + 1;
    }
    proof {
        assert(ctx.key_seq().skip(i as int).len() == 0);
    }
    None
}

/// The first part of a dotted path.
fn head_exec(path: &str) -> (r: String)
    ensures
        r@ == head_of(path@),
{
    proof {
        reveal_strlit(".");
    }
    let parts = split_all_exec(path, ".");
    proof {
        reveal_with_fuel(split_all, 1);
        lemma_split_all_nonempty(path@, "."@);
    }
    parts[0].clone()
}

pub proof fn lemma_split_all_nonempty(s: Seq<char>, sep: Seq<char>)
    ensures
        split_all(s, sep).len() >= 1,
    decreases s.len(),
{
    let j = find(s, sep);
    if sep.len() > 0 && j >= 0 {
        lemma_find_from(s, sep, 0);
        lemma_split_all_nonempty(s.subrange(j + sep.len(), s.len() as int), sep);
    }
}

/// A context value for a path, from a map of context values.
fn ctx_resolve(context_vars: &StrMap<YamlValue>, path: &str) -> (r: Option<YamlValue>)
    ensures
        match r {
            Some(v) => ctx_lookup(*context_vars, path@) == Some(v.model()),
            None => ctx_lookup(*context_vars, path@) is None,
        },
{
    match context_vars.get(path) {
        Some(v) => {
            return Some(v.duplicate());
        },
        None => {},
    }
    let mut prefix = head_exec(path);
    prefix.append(".");
    proof {
        assert(prefix@ == head_of(path@) + "."@);
    }
    match first_key_with(context_vars, path, prefix.as_str()) {
        Some(i) => {
            let es = context_vars.entries();
            proof {
                assert(es@[i as int].0@ == context_vars.key_seq()[i as int]);
                assert(es@[i as int].1 == context_vars.value_seq()[i as int]);
            }
            Some(es[i].1.duplicate())
        },
        None => None,
    }
}

/// `${ctx:...}` over maps of context values and flow variables.
fn ctx_lookup_exec(context_vars: &StrMap<YamlValue>, flow_vars: &StrMap<YamlValue>, expression: &str) -> (r: Result<YamlValue, String>)
    ensures
        res_model(r) == ctx_spec(*context_vars, *flow_vars, expression@),
{
    proof {
        reveal_strlit("vars.");
    }
    if starts_with_exec(expression, "vars.") {
        let n = expression.unicode_len();
        let name = expression.substring_char(5, n);
        match flow_vars.get(name) {
            Some(v) => Ok(v.duplicate()),
            None => {
                let mut msg = "Flow variable not found: ".to_string();
                msg.append(name);
                Err(msg)
            },
        }
    } else {
        match ctx_resolve(context_vars, expression) {
            Some(v) => Ok(v),
            None => {
                let mut msg = "Context path not found: ".to_string();
                msg.append(expression);
                Err(msg)
            },
        }
    }
}

impl ContextProvider {
    /// A context value for a path.
    pub fn resolve_context_path(&self, path: &str) -> (r: Option<YamlValue>)
        ensures
            match r {
                Some(v) => ctx_lookup(self.context_vars, path@) == Some(v.model()),
                None => ctx_lookup(self.context_vars, path@) is None,
            },
    {
        ctx_resolve(&self.context_vars, path)
    }

    pub fn lookup(&self, expression: &str) -> (r: Result<YamlValue, String>)
        ensures
            res_model(r) == ctx_spec(self.context_vars, self.flow_vars, expression@),
    {
        ctx_lookup_exec(&self.context_vars, &self.flow_vars, expression)
    }
}

impl ExpressionProvider for ContextProvider {
    fn evaluate(&self, expression: &str) -> (r: Result<YamlValue, String>)
        ensures
            res_model(r) == ctx_spec(self.context_vars, self.flow_vars, expression@),
    {
        self.lookup(expression)
    }

    fn name(&self) -> (r: &str)
        ensures
            r@ == "ctx"@,
    {
        "ctx"
    }
}

// ---------------------------------------------------------------------
// The evaluator

/// Evaluates expressions against environment variables, flow variables
/// and context values.
pub struct ExpressionEvaluator {
    env_vars: StrMap<String>,
    flow_vars: StrMap<YamlValue>,
    context_vars: StrMap<YamlValue>,
}

impl ExpressionEvaluator {
    pub closed spec fn env(self) -> StrMap<String> {
        self.env_vars
    }

    pub closed spec fn flow(self) -> StrMap<YamlValue> {
        self.flow_vars
    }

    pub closed spec fn ctx(self) -> StrMap<YamlValue> {
        self.context_vars
    }

    /// An evaluator with no variables.
    pub fn new() -> (r: Self)
        ensures
            r.env()@ == Map::<Seq<char>, String>::empty(),
            r.flow()@ == Map::<Seq<char>, YamlValue>::empty(),
            r.ctx()@ == Map::<Seq<char>, YamlValue>::empty(),
            r.ctx().key_seq() == Seq::<Seq<char>>::empty(),
    {
        ExpressionEvaluator { env_vars: StrMap::new(), flow_vars: StrMap::new(), context_vars: StrMap::new() }
    }

    /// A copy of the evaluator with the same variables.
    pub fn duplicate(&self) -> (r: Self)
        ensures
            r.env()@ == self.env()@,
            r.env().key_seq() == self.env().key_seq(),
            r.flow().model() == self.flow().model(),
            r.flow().key_seq() == self.flow().key_seq(),
            r.ctx().model() == self.ctx().model(),
            r.ctx().key_seq() == self.ctx().key_seq(),
    {
        ExpressionEvaluator {
            env_vars: self.env_vars.duplicate(),
            flow_vars: self.flow_vars.duplicate(),
            context_vars: self.context_vars.duplicate(),
        }
    }

    /// Replaces the environment variables.
    pub fn set_env_vars(&mut self, env_vars: StrMap<String>)
        ensures
            final(self).env() == env_vars,
            final(self).flow() == old(self).flow(),
            final(self).ctx() == old(self).ctx(),
    {
        self.env_vars = env_vars;
    }

    /// Replaces the flow variables.
    pub fn set_flow_vars(&mut self, flow_vars: StrMap<YamlValue>)
        ensures
            final(self).flow() == flow_vars,
            final(self).env() == old(self).env(),
            final(self).ctx() == old(self).ctx(),
    {
        self.flow_vars = flow_vars;
    }

    /// Sets one context value.
    pub fn set_context_var(&mut self, key: &str, value: YamlValue)
        ensures
            final(self).ctx()@ == old(self).ctx()@.insert(key@, value),
            old(self).ctx().key_seq().contains(key@) ==> final(self).ctx().key_seq() == old(self).ctx().key_seq(),
            !old(self).ctx().key_seq().contains(key@) ==> final(self).ctx().key_seq() == old(self).ctx().key_seq().push(key@),
            final(self).env() == old(self).env(),
            final(self).flow() == old(self).flow(),
    {
        self.context_vars.insert(key.to_string(), value);
    }

    /// The context value under a key.
    pub fn get_context_var(&self, key: &str) -> (r: Option<&YamlValue>)
        ensures
            match r {
                Some(v) => self.ctx()@.contains_key(key@) && *v == self.ctx()@[key@],
                None => !self.ctx()@.contains_key(key@),
            },
    {
        self.context_vars.get(key)
    }

    /// Reads an interpolated text back as an integer, a float, a boolean or
    /// text.
    fn parse_result<H: ExpressionHost>(&self, host: &H, result: &str) -> (r: YamlValue)
        ensures
            agrees(Ok(r.model()), Ok(parse_model(result@))),
            host.answers_known() ==> r.model() == read_back(*host, result@),
    {
        let chars = chars_of(result);
        match parse_int(&chars) {
            Some(i) => {
                if i >= 0 {
                    YamlValue::Number(YamlNumber::PosInt(i as u64))
                } else {
                    YamlValue::Number(YamlNumber::NegInt(i))
                }
            },
            None => {
                if is_float_exec(&chars) {
                    YamlValue::Number(YamlNumber::Float(host.float_text(result)))
                } else if same_text(&result.to_string(), "true") {
                    YamlValue::Bool(true)
                } else if same_text(&result.to_string(), "false") {
                    YamlValue::Bool(false)
                } else {
                    YamlValue::String(result.to_string())
                }
            },
        }
    }
}


// ---------------------------------------------------------------------
// Trees of values for jq

/// Position of the first pair whose key is the text `k`, or -1.
pub open spec fn key_pos(ps: Seq<(YamlModel, YamlModel)>, k: Seq<char>) -> int
    decreases ps.len(),
{
    if ps.len() == 0 {
        -1
    } else if ps[0].0 == YamlModel::String(k) {
        0
    } else {
        let r = key_pos(ps.subrange(1, ps.len() as int), k);
        if r < 0 { -1 } else { r + 1 }
    }
}

/// An object with the value under `k` set: replaced where the key is,
/// added last otherwise.
pub open spec fn obj_insert(ps: Seq<(YamlModel, YamlModel)>, k: Seq<char>, v: YamlModel) -> Seq<(YamlModel, YamlModel)> {
    let i = key_pos(ps, k);
    if i >= 0 { ps.update(i, (YamlModel::String(k), v)) } else { ps.push((YamlModel::String(k), v)) }
}

/// The nesting built for a dotted key: level `i` is an object whose one
/// key is part `i + 1`; the innermost holds the value under the last part.
pub open spec fn level(parts: Seq<Seq<char>>, i: int, v: YamlModel) -> YamlModel
    decreases parts.len() - i,
{
    if i >= parts.len() - 1 {
        YamlModel::Mapping(seq![(YamlModel::String(parts[parts.len() - 1]), v)])
    } else {
        YamlModel::Mapping(seq![(YamlModel::String(parts[i + 1]), level(parts, i + 1, v))])
    }
}

/// The context tree with one more context value: a plain key is set as it
/// is; a dotted key nests under its first part, merged into an object that
/// is there already, and dropped where something else is there.
pub open spec fn tree_step(ps: Seq<(YamlModel, YamlModel)>, key: Seq<char>, v: YamlModel) -> Seq<(YamlModel, YamlModel)> {
    let parts = split_all(key, "."@);
    if parts.len() <= 1 {
        obj_insert(ps, key, v)
    } else {
        let nested = level(parts, 0, v);
        let top = parts[0];
        let i = key_pos(ps, top);
        if i < 0 {
            obj_insert(ps, top, nested)
        } else {
            match ps[i].1 {
                YamlModel::Mapping(existing) => ps.update(i, (ps[i].0, YamlModel::Mapping(
                    obj_insert(existing, parts[1], level(parts, 1, v))))),
                _ => ps,
            }
        }
    }
}

/// The context tree of the first `n` context values.
pub open spec fn tree_of(keys: Seq<Seq<char>>, vals: Seq<YamlValue>, n: nat) -> Seq<(YamlModel, YamlModel)>
    decreases n,
{
    if n == 0 {
        Seq::empty()
    } else {
        tree_step(tree_of(keys, vals, (n - 1) as nat), keys[n - 1], vals[n - 1].model())
    }
}

/// The tree of all context values.
pub open spec fn context_tree_spec(ctx: StrMap<YamlValue>) -> YamlModel {
    YamlModel::Mapping(tree_of(ctx.key_seq(), ctx.value_seq(), ctx.key_seq().len()))
}

pub(crate) fn key_pos_exec(ps: &Vec<(YamlValue, YamlValue)>, k: &str) -> (r: Option<usize>)
    ensures
        match r {
            Some(i) => i as int == key_pos(crate::yaml::pairs_model(ps@), k@) && i < ps@.len(),
            None => key_pos(crate::yaml::pairs_model(ps@), k@) < 0,
        },
{
    let ghost pm = crate::yaml::pairs_model(ps@);
    proof {
        crate::yaml::lemma_pairs_model(ps@);
        assert(pm.skip(0) =~= pm);
    }
    let mut i: usize = 0;
    while i < ps.len()
        invariant
            i <= ps@.len(),
            pm == crate::yaml::pairs_model(ps@),
            pm.len() == ps@.len(),
            forall|j: int| 0 <= j < ps@.len() ==> #[trigger] pm[j] == (ps@[j].0.model(), ps@[j].1.model()),
            key_pos(pm, k@) == if key_pos(pm.skip(i as int), k@) < 0 { -1 } else { key_pos(pm.skip(i as int), k@) + i },
        decreases ps@.len() - i,
    {
        let ghost rest = pm.skip(i as int);
        proof {
            assert(rest[0] == pm[i as int]);
            assert(rest.subrange(1, rest.len() as int) =~= pm.skip(i as int + 1));
        }
        let hit = match &ps[i].0 {
            YamlValue::String(s) => same_text(s, k),
            _ => false,
        };
        if hit {
            return Some(i);
        }
        i = i + 1;
    }
    proof {
        assert(pm.skip(i as int).len() == 0);
    }
    None
}

/// Sets the value under a text key of an object.
fn obj_insert_exec(ps: &mut Vec<(YamlValue, YamlValue)>, k: String, v: YamlValue)
    ensures
        crate::yaml::pairs_model(final(ps)@) == obj_insert(crate::yaml::pairs_model(old(ps)@), k@, v.model()),
{
    proof {
        crate::yaml::lemma_pairs_model(ps@);
    }
    let ghost before = ps@;
    match key_pos_exec(ps, k.as_str()) {
        Some(i) => {
            let ghost vm = v.model();
            ps.set(i, (YamlValue::String(k), v));
            proof {
                crate::yaml::lemma_pairs_model(ps@);
                assert(crate::yaml::pairs_model(ps@) =~= crate::yaml::pairs_model(before).update(i as int, (YamlModel::String(k@), vm)));
            }
        },
        None => {
            let ghost vm = v.model();
            ps.push((YamlValue::String(k), v));
            proof {
                crate::yaml::lemma_pairs_model(ps@);
                assert(crate::yaml::pairs_model(ps@) =~= crate::yaml::pairs_model(before).push((YamlModel::String(k@), vm)));
            }
        },
    }
}

/// An object holding one value.
fn single(k: String, v: YamlValue) -> (r: YamlValue)
    ensures
        r.model() == YamlModel::Mapping(seq![(YamlModel::String(k@), v.model())]),
{
    let mut ps: Vec<(YamlValue, YamlValue)> = Vec::new();
    ps.push((YamlValue::String(k), v));
    let ghost g = ps@;
    let r = YamlValue::Mapping(ps);
    proof {
        crate::yaml::lemma_pairs_model(g);
        assert(crate::yaml::pairs_model(g) =~= seq![(YamlModel::String(g[0].0->String_0@), g[0].1.model())]);
    }
    r
}

/// The nesting for the parts of a dotted key, from level `from` inward.
fn level_exec(parts: &Vec<String>, from: usize, v: YamlValue) -> (r: YamlValue)
    requires
        parts@.len() >= 1,
        from < parts@.len(),
    ensures
        r.model() == level(crate::context::views_of(parts@), from as int, v.model()),
{
    let ghost ps = crate::context::views_of(parts@);
    let n = parts.len();
    let mut nested = single(parts[n - 1].clone(), v);
    let ghost vm = v.model();
    let mut i: usize = n - 1;
    proof {
        assert(ps[n - 1] == parts@[n - 1]@);
    }
    while i > from
        invariant
            from <= i <= n - 1,
            n == parts@.len(),
            ps == crate::context::views_of(parts@),
            nested.model() == level(ps, i as int, vm),
        decreases i,
    {
        proof {
            assert(ps[i as int] == parts@[i as int]@);
        }
        nested = single(parts[i].clone(), nested);
        i = i - 1;
    }
    nested
}

impl ExpressionEvaluator {
    /// The tree that jq queries see: each context value under its key, a
    /// dotted key nested under its first part.
    pub fn build_context_tree(&self) -> (r: YamlValue)
        ensures
            r.model() == context_tree_spec(self.ctx()),
    {
        let es = self.context_vars.entries();
        let mut map: Vec<(YamlValue, YamlValue)> = Vec::new();
        let mut i: usize = 0;
        proof {
            assert(crate::yaml::pairs_model(map@) =~= Seq::<(YamlModel, YamlModel)>::empty());
        }
        while i < es.len()
            invariant
                i <= es@.len(),
                es@.len() == self.context_vars.key_seq().len(),
                self.context_vars.key_seq().len() == self.context_vars.value_seq().len(),
                forall|k: int| 0 <= k < es@.len() ==> #[trigger] es@[k].0@ == self.context_vars.key_seq()[k]
                    && es@[k].1 == self.context_vars.value_seq()[k],
                crate::yaml::pairs_model(map@) == tree_of(self.context_vars.key_seq(), self.context_vars.value_seq(), i as nat),
            decreases es@.len() - i,
        {
            let key = &es[i].0;
            let value = es[i].1.duplicate();
            proof {
                assert(es@[i as int].0@ == self.context_vars.key_seq()[i as int]);
                reveal_strlit(".");
            }
            let parts = split_all_exec(key.as_str(), ".");
            proof {
                lemma_split_all_nonempty(key@, "."@);
                assert(crate::context::views_of(parts@) =~= split_all(key@, "."@));
            }
            let ghost before = crate::yaml::pairs_model(map@);
            if parts.len() <= 1 {
                obj_insert_exec(&mut map, key.clone(), value);
            } else {
                let top = &parts[0];
                match key_pos_exec(&map, top.as_str()) {
                    None => {
                        let nested = level_exec(&parts, 0, value);
                        obj_insert_exec(&mut map, top.clone(), nested);
                    },
                    Some(p) => {
                        proof {
                            crate::yaml::lemma_pairs_model(map@);
                        }
                        let inner = level_exec(&parts, 1, value);
                        let mut entry = map.remove(p);
                        match &mut entry.1 {
                            YamlValue::Mapping(existing) => {
                                obj_insert_exec(existing, parts[1].clone(), inner);
                            },
                            _ => {},
                        }
                        map.insert(p, entry);
                        proof {
                            crate::yaml::lemma_pairs_model(map@);
                            assert(crate::yaml::pairs_model(map@) =~= tree_step(before, key@, value.model()));
                        }
                    },
                }
            }
            proof {
                assert(tree_of(self.context_vars.key_seq(), self.context_vars.value_seq(), i as nat + 1)
                    == tree_step(before, key@, self.context_vars.value_seq()[i as int].model()));
            }
            i = i + 1;
        }
        YamlValue::Mapping(map)
    }
}


/// The value a jq query stands for, given all its results in order: the
/// one result where there is exactly one, else the sequence of them all.
pub fn jq_answer(results: Vec<YamlValue>) -> (r: YamlValue)
    ensures
        results@.len() == 1 ==> r == results@[0],
        results@.len() != 1 ==> r == YamlValue::Sequence(results),
{
    if results.len() == 1 {
        let mut rest = results;
        match rest.pop() {
            Some(x) => x,
            None => YamlValue::Null,
        }
    } else {
        YamlValue::Sequence(results)
    }
}

/// `${jq:query}`: a query over the context tree, over the flow variables
/// when it starts with `vars.`, over the environment when it starts with
/// `env.`, or, written `path | query`, over the value at a dotted path of
/// the context tree.
pub struct JqProvider {
    pub context_tree: YamlValue,
    pub flow_vars: StrMap<YamlValue>,
    pub env_vars: StrMap<String>,
}

/// The value under a text key of an object.
pub open spec fn obj_get(m: YamlModel, k: Seq<char>) -> Option<YamlModel> {
    match m {
        YamlModel::Mapping(ps) => {
            let i = key_pos(ps, k);
            if i >= 0 { Some(ps[i].1) } else { None }
        },
        _ => None,
    }
}

/// Following the parts of a path from a value.
pub open spec fn walk(m: YamlModel, parts: Seq<Seq<char>>) -> Option<YamlModel>
    decreases parts.len(),
{
    if parts.len() == 0 {
        Some(m)
    } else {
        match obj_get(m, parts[0]) {
            Some(n) => walk(n, parts.subrange(1, parts.len() as int)),
            None => None,
        }
    }
}

/// The flow variables as an object.
pub open spec fn vars_tree(flow: StrMap<YamlValue>) -> YamlModel {
    YamlModel::Mapping(Seq::new(flow.key_seq().len(), |i: int| (YamlModel::String(flow.key_seq()[i]), flow.value_seq()[i].model())))
}

/// The environment as an object of texts.
pub open spec fn env_tree(env: StrMap<String>) -> YamlModel {
    YamlModel::Mapping(Seq::new(env.key_seq().len(), |i: int| (YamlModel::String(env.key_seq()[i]), YamlModel::String(env.value_seq()[i]@))))
}

/// A jq query's result once its tree is found: what the host answers, or
/// the error in finding the tree.
pub open spec fn jq_spec_of<H: ExpressionHost>(host: H, root: Result<(YamlModel, Seq<char>), Seq<char>>) -> Result<YamlModel, Seq<char>> {
    match root {
        Ok((t, q)) => host.jq_spec(t, q),
        Err(e) => Err(e),
    }
}

/// The tree a jq expression is run over, and the query run over it.
pub open spec fn jq_root_spec(tree: YamlModel, flow: StrMap<YamlValue>, env: StrMap<String>, e: Seq<char>) -> Result<(YamlModel, Seq<char>), Seq<char>> {
    if contains_text(e, " | "@) {
        let parts = split_two(e, " | "@);
        let root_path = trim(parts[0]);
        match walk(tree, split_all(root_path, "."@)) {
            Some(root) => Ok((root, trim(parts[1]))),
            None => Err("Path not found in context: "@ + root_path),
        }
    } else if starts_with(e, "vars."@) {
        Ok((vars_tree(flow), e))
    } else if starts_with(e, "env."@) {
        Ok((env_tree(env), e))
    } else {
        Ok((tree, e))
    }
}

fn obj_get_exec<'a>(m: &'a YamlValue, k: &str) -> (r: Option<&'a YamlValue>)
    ensures
        match r {
            Some(v) => obj_get(m.model(), k@) == Some(v.model()),
            None => obj_get(m.model(), k@) is None,
        },
{
    match m {
        YamlValue::Mapping(ps) => {
            proof {
                crate::yaml::lemma_pairs_model(ps@);
            }
            match key_pos_exec(ps, k) {
                Some(i) => Some(&ps[i].1),
                None => None,
            }
        },
        _ => None,
    }
}

impl JqProvider {
    /// The value at a dotted path of the context tree.
    pub fn get_root_from_path(&self, path: &str) -> (r: Result<YamlValue, String>)
        ensures
            match r {
                Ok(v) => walk(self.context_tree.model(), split_all(path@, "."@)) == Some(v.model()),
                Err(e) => walk(self.context_tree.model(), split_all(path@, "."@)) is None
                    && e@ == "Path not found in context: "@ + path@,
            },
    {
        proof {
            reveal_strlit(".");
        }
        let parts = split_all_exec(path, ".");
        let ghost ps = crate::context::views_of(parts@);
        proof {
            assert(ps =~= split_all(path@, "."@));
            assert(ps.skip(0) =~= ps);
        }
        let mut current = &self.context_tree;
        let mut i: usize = 0;
        while i < parts.len()
            invariant
                i <= parts@.len(),
                ps == crate::context::views_of(parts@),
                ps == split_all(path@, "."@),
                walk(self.context_tree.model(), ps) == walk(current.model(), ps.skip(i as int)),
            decreases parts@.len() - i,
        {
            proof {
                let rest = ps.skip(i as int);
                assert(rest[0] == parts@[i as int]@);
                assert(rest.subrange(1, rest.len() as int) =~= ps.skip(i as int + 1));
            }
            match obj_get_exec(current, parts[i].as_str()) {
                Some(v) => {
                    current = v;
                },
                None => {
                    proof {
                        assert(walk(current.model(), ps.skip(i as int)) is None);
                    }
                    let mut msg = "Path not found in context: ".to_string();
                    msg.append(path);
                    return Err(msg);
                },
            }
            i = i + 1;
        }
        proof {
            assert(ps.skip(i as int).len() == 0);
        }
        Ok(current.duplicate())
    }

    fn vars_to_tree(&self) -> (r: YamlValue)
        ensures
            r.model() == vars_tree(self.flow_vars),
    {
        let es = self.flow_vars.entries();
        proof {
            assert forall|k: int| 0 <= k < es@.len() implies #[trigger] es@[k].0@ == self.flow_vars.key_seq()[k]
                && es@[k].1 == self.flow_vars.value_seq()[k] by {
                assert(es@[k].0@ == self.flow_vars.key_seq()[k]);
            }
        }
        let mut ps: Vec<(YamlValue, YamlValue)> = Vec::new();
        let mut i: usize = 0;
        while i < es.len()
            invariant
                i <= es@.len(),
                es@.len() == self.flow_vars.key_seq().len(),
                self.flow_vars.key_seq().len() == self.flow_vars.value_seq().len(),
                forall|k: int| 0 <= k < es@.len() ==> #[trigger] es@[k].0@ == self.flow_vars.key_seq()[k]
                    && es@[k].1 == self.flow_vars.value_seq()[k],
                ps@.len() == i,
                forall|k: int| 0 <= k < i ==> (#[trigger] ps@[k]).0.model() == YamlModel::String(self.flow_vars.key_seq()[k])
                    && ps@[k].1.model() == self.flow_vars.value_seq()[k].model(),
            decreases es@.len() - i,
        {
            proof {
                assert(es@[i as int].0@ == self.flow_vars.key_seq()[i as int]);
            }
            ps.push((YamlValue::String(es[i].0.clone()), es[i].1.duplicate()));
            i = i + 1;
        }
        let ghost g = ps@;
        proof {
            crate::yaml::lemma_pairs_model(g);
            assert(crate::yaml::pairs_model(g) =~= vars_tree(self.flow_vars)->Mapping_0);
        }
        YamlValue::Mapping(ps)
    }

    fn env_to_tree(&self) -> (r: YamlValue)
        ensures
            r.model() == env_tree(self.env_vars),
    {
        let es = self.env_vars.entries();
        proof {
            assert forall|k: int| 0 <= k < es@.len() implies #[trigger] es@[k].0@ == self.env_vars.key_seq()[k]
                && es@[k].1 == self.env_vars.value_seq()[k] by {
                assert(es@[k].0@ == self.env_vars.key_seq()[k]);
            }
        }
        let mut ps: Vec<(YamlValue, YamlValue)> = Vec::new();
        let mut i: usize = 0;
        while i < es.len()
            invariant
                i <= es@.len(),
                es@.len() == self.env_vars.key_seq().len(),
                self.env_vars.key_seq().len() == self.env_vars.value_seq().len(),
                forall|k: int| 0 <= k < es@.len() ==> #[trigger] es@[k].0@ == self.env_vars.key_seq()[k]
                    && es@[k].1 == self.env_vars.value_seq()[k],
                ps@.len() == i,
                forall|k: int| 0 <= k < i ==> (#[trigger] ps@[k]).0.model() == YamlModel::String(self.env_vars.key_seq()[k])
                    && ps@[k].1.model() == YamlModel::String(self.env_vars.value_seq()[k]@),
            decreases es@.len() - i,
        {
            proof {
                assert(es@[i as int].0@ == self.env_vars.key_seq()[i as int]);
            }
            ps.push((YamlValue::String(es[i].0.clone()), YamlValue::String(es[i].1.clone())));
            i = i + 1;
        }
        let ghost g = ps@;
        proof {
            crate::yaml::lemma_pairs_model(g);
            assert(crate::yaml::pairs_model(g) =~= env_tree(self.env_vars)->Mapping_0);
        }
        YamlValue::Mapping(ps)
    }

    /// The tree a query runs over and the query itself.
    pub fn query_root(&self, expression: &str) -> (r: Result<(YamlValue, String), String>)
        ensures
            match r {
                Ok((root, q)) => jq_root_spec(self.context_tree.model(), self.flow_vars, self.env_vars, expression@)
                    == Ok::<(YamlModel, Seq<char>), Seq<char>>((root.model(), q@)),
                Err(e) => jq_root_spec(self.context_tree.model(), self.flow_vars, self.env_vars, expression@)
                    == Err::<(YamlModel, Seq<char>), Seq<char>>(e@),
            },
    {
        proof {
            reveal_strlit(" | ");
            reveal_strlit("vars.");
            reveal_strlit("env.");
        }
        if contains_exec(expression, " | ") {
            let parts = split_two_exec(expression, " | ");
            proof {
                lemma_find_from(expression@, " | "@, 0);
                assert(parts@.len() == 2);
            }
            let root_path = trim_exec(parts[0].as_str());
            let query = trim_exec(parts[1].as_str());
            match self.get_root_from_path(root_path.as_str()) {
                Ok(root) => Ok((root, query)),
                Err(e) => Err(e),
            }
        } else if starts_with_exec(expression, "vars.") {
            Ok((self.vars_to_tree(), expression.to_string()))
        } else if starts_with_exec(expression, "env.") {
            Ok((self.env_to_tree(), expression.to_string()))
        } else {
            Ok((self.context_tree.duplicate(), expression.to_string()))
        }
    }

    /// Runs the query through the host. Whatever the host's jq answers is
    /// the result; errors in finding the tree come first.
    pub fn evaluate_with<H: ExpressionHost>(&self, host: &H, expression: &str) -> (r: Result<YamlValue, String>)
        ensures
            jq_root_spec(self.context_tree.model(), self.flow_vars, self.env_vars, expression@) matches Err(e)
                ==> r matches Err(e2) && e2@ == e,
            host.answers_known() ==> res_model(r) == jq_spec_of(*host, jq_root_spec(self.context_tree.model(), self.flow_vars, self.env_vars, expression@)),
    {
        match self.query_root(expression) {
            Ok((root, query)) => host.jq_query(&root, query.as_str()),
            Err(e) => Err(e),
        }
    }
}


/// The context value for a dotted path of two or more parts, in the older
/// form: the value under the path itself, else that of the first key that
/// starts with the path's first part.
pub open spec fn legacy_lookup(ctx: StrMap<YamlValue>, path: Seq<char>) -> Option<YamlModel> {
    let parts = split_all(path, "."@);
    if parts.len() < 2 {
        None
    } else if ctx@.contains_key(path) {
        Some(ctx@[path].model())
    } else {
        let i = first_match(ctx.key_seq(), |k: Seq<char>| starts_with(k, parts[0]));
        if i < 0 { None } else { Some(ctx.value_seq()[i].model()) }
    }
}

pub open spec fn legacy_env_regex() -> Seq<char> {
    "\\$\\{\\{\\s*env\\.(\\w+)\\s*\\}\\}"@
}

pub open spec fn legacy_vars_regex() -> Seq<char> {
    "\\$\\{\\{\\s*vars\\.(\\w+)\\s*\\}\\}"@
}

pub open spec fn legacy_path_regex() -> Seq<char> {
    "\\$\\{([^}]+)\\}"@
}

/// The text after replacing each match of `${{ env.NAME }}` in turn by the
/// variable's value; the first unknown name is an error.
pub open spec fn env_pass(env: StrMap<String>, ms: Seq<(int, int, Seq<Option<Seq<char>>>)>, acc: Seq<char>) -> Result<Seq<char>, Seq<char>>
    decreases ms.len(),
{
    if ms.len() == 0 {
        Ok(acc)
    } else {
        let whole = crate::tokens::group_text(ms[0], 0);
        let name = crate::tokens::group_text(ms[0], 1);
        if env@.contains_key(name) {
            env_pass(env, ms.drop_first(), if whole.len() > 0 { crate::strings::replace_all(acc, whole, env@[name]@) } else { acc })
        } else {
            Err("Environment variable not found: "@ + name)
        }
    }
}

/// The text after replacing each match of `${{ vars.NAME }}` in turn by the
/// text of the flow variable; the first unknown name is an error. `None`
/// where a value's text comes from outside.
pub open spec fn vars_pass(flow: StrMap<YamlValue>, ms: Seq<(int, int, Seq<Option<Seq<char>>>)>, acc: Seq<char>) -> Option<Result<Seq<char>, Seq<char>>>
    decreases ms.len(),
{
    if ms.len() == 0 {
        Some(Ok(acc))
    } else {
        let whole = crate::tokens::group_text(ms[0], 0);
        let name = crate::tokens::group_text(ms[0], 1);
        if flow@.contains_key(name) {
            match scalar_text(flow@[name].model()) {
                Some(t) => vars_pass(flow, ms.drop_first(), if whole.len() > 0 { crate::strings::replace_all(acc, whole, t) } else { acc }),
                None => None,
            }
        } else {
            Some(Err("Flow variable not found: "@ + name))
        }
    }
}

/// The text after replacing each match of `${path}` in turn by the text of
/// the context value for the path; the first path without a value is an
/// error. `None` where a value's text comes from outside.
pub open spec fn path_pass(ctx: StrMap<YamlValue>, ms: Seq<(int, int, Seq<Option<Seq<char>>>)>, acc: Seq<char>) -> Option<Result<Seq<char>, Seq<char>>>
    decreases ms.len(),
{
    if ms.len() == 0 {
        Some(Ok(acc))
    } else {
        let whole = crate::tokens::group_text(ms[0], 0);
        let path = crate::tokens::group_text(ms[0], 1);
        match legacy_lookup(ctx, path) {
            Some(v) => match scalar_text(v) {
                Some(t) => path_pass(ctx, ms.drop_first(), if whole.len() > 0 { crate::strings::replace_all(acc, whole, t) } else { acc }),
                None => None,
            },
            None => Some(Err("Context path not found: "@ + path)),
        }
    }
}

/// An expression in the older forms: the environment form, then the flow
/// variable form, then the path form replaced as the regular expressions
/// find them, and the text read back. `None` where the result depends on
/// what comes from outside.
pub open spec fn legacy_spec(ev: ExpressionEvaluator, e: Seq<char>) -> Option<Result<YamlModel, Seq<char>>> {
    if !crate::tokens::regex_is_valid(legacy_env_regex()) {
        Some(Err("Failed to compile env regex"@))
    } else {
        match env_pass(ev.env(), crate::tokens::regex_captures(legacy_env_regex(), e), e) {
            Err(x) => Some(Err(x)),
            Ok(s1) => if !crate::tokens::regex_is_valid(legacy_vars_regex()) {
                Some(Err("Failed to compile vars regex"@))
            } else {
                match vars_pass(ev.flow(), crate::tokens::regex_captures(legacy_vars_regex(), s1), s1) {
                    None => None,
                    Some(Err(x)) => Some(Err(x)),
                    Some(Ok(s2)) => if !crate::tokens::regex_is_valid(legacy_path_regex()) {
                        Some(Err("Failed to compile output regex"@))
                    } else {
                        match path_pass(ev.ctx(), crate::tokens::regex_captures(legacy_path_regex(), s2), s2) {
                            None => None,
                            Some(Err(x)) => Some(Err(x)),
                            Some(Ok(s3)) => Some(Ok(parse_model(s3))),
                        }
                    },
                }
            },
        }
    }
}

/// Step `i` of interpolation: the tokens before `i` gave `acc`.
pub open spec fn interp_from<H: ExpressionHost>(ev: ExpressionEvaluator, host: H, ts: Seq<TokenView>, i: int, acc: Seq<char>) -> Option<Result<Seq<char>, Seq<char>>> {
    match interp(ev, host, ts.skip(i)) {
        None => None,
        Some(Err(e)) => Some(Err(e)),
        Some(Ok(rest)) => Some(Ok(acc + rest)),
    }
}

proof fn lemma_interp_at<H: ExpressionHost>(ev: ExpressionEvaluator, host: H, ts: Seq<TokenView>, i: int, acc: Seq<char>)
    requires
        0 <= i < ts.len(),
    ensures
        token_text(ev, host, ts[i]) is None ==> interp_from(ev, host, ts, i, acc) is None,
        token_text(ev, host, ts[i]) matches Some(Err(e)) ==> interp_from(ev, host, ts, i, acc) == Some(Err::<Seq<char>, Seq<char>>(e)),
        token_text(ev, host, ts[i]) matches Some(Ok(piece)) ==> interp_from(ev, host, ts, i, acc) == interp_from(ev, host, ts, i + 1, acc + piece),
{
    let s = ts.skip(i);
    assert(s[0] == ts[i]);
    assert(s.subrange(1, s.len() as int) =~= ts.skip(i + 1));
    match token_text(ev, host, ts[i]) {
        Some(Ok(piece)) => {
            match interp(ev, host, ts.skip(i + 1)) {
                Some(Ok(rest)) => {
                    assert(acc + (piece + rest) =~= (acc + piece) + rest);
                },
                _ => {},
            }
        },
        _ => {},
    }
}

fn first_key_starting(ctx: &StrMap<YamlValue>, prefix: &str) -> (r: Option<usize>)
    ensures
        match r {
            Some(i) => i as int == first_match(ctx.key_seq(), |k: Seq<char>| starts_with(k, prefix@)) && i < ctx.key_seq().len(),
            None => first_match(ctx.key_seq(), |k: Seq<char>| starts_with(k, prefix@)) < 0,
        },
{
    let es = ctx.entries();
    let ghost p = |k: Seq<char>| starts_with(k, prefix@);
    let mut i: usize = 0;
    proof {
        assert(ctx.key_seq().skip(0) =~= ctx.key_seq());
    }
    while i < es.len()
        invariant
            i <= es@.len(),
            es@.len() == ctx.key_seq().len(),
            forall|k: int| 0 <= k < es@.len() ==> #[trigger] es@[k].0@ == ctx.key_seq()[k],
            p == (|k: Seq<char>| starts_with(k, prefix@)),
            first_match(ctx.key_seq(), p) == if first_match(ctx.key_seq().skip(i as int), p) < 0 { -1 } else { first_match(ctx.key_seq().skip(i as int), p) + i },
        decreases es@.len() - i,
    {
        let ghost ks = ctx.key_seq().skip(i as int);
        proof {
            assert(ks[0] == es@[i as int].0@);
            assert(ks.subrange(1, ks.len() as int) =~= ctx.key_seq().skip(i as int + 1));
        }
        if starts_with_exec(es[i].0.as_str(), prefix) {
            return Some(i);
        }
        i = i + 1;
    }
    proof {
        assert(ctx.key_seq().skip(i as int).len() == 0);
    }
    None
}

impl ExpressionEvaluator {
    /// The value of one provider expression.
    pub fn evaluate_provider_expression<H: ExpressionHost>(&self, host: &H, provider: &str, expression: &str) -> (r: Result<YamlValue, String>)
        ensures
            provider_spec(*self, *host, provider@, expression@) matches Some(x) ==> res_model(r) == x,
    {
        proof {
            reveal_strlit("env");
            reveal_strlit("ctx");
            reveal_strlit("jq");
        }
        let owned = provider.to_string();
        if same_text(&owned, "env") {
            env_lookup(&self.env_vars, expression)
        } else if same_text(&owned, "ctx") {
            ctx_lookup_exec(&self.context_vars, &self.flow_vars, expression)
        } else if same_text(&owned, "jq") {
            let context_tree = self.build_context_tree();
            let p = JqProvider { context_tree, flow_vars: self.flow_vars.duplicate(), env_vars: self.env_vars.duplicate() };
            proof {
                assert forall|i: int| 0 <= i < p.flow_vars.value_seq().len() implies
                    (#[trigger] p.flow_vars.value_seq()[i]).model() == self.flow_vars.value_seq()[i].model() by {}
                assert(vars_tree(p.flow_vars)->Mapping_0 =~= vars_tree(self.flow_vars)->Mapping_0);
                assert(vars_tree(p.flow_vars) == vars_tree(self.flow_vars));
                assert(env_tree(p.env_vars) == env_tree(self.env_vars));
            }
            p.evaluate_with(host, expression)
        } else {
            let mut msg = "Unknown provider: ".to_string();
            msg.append(provider);
            Err(msg)
        }
    }

    /// The text a value is interpolated as.
    pub fn yaml_value_to_string<H: ExpressionHost>(&self, host: &H, value: &YamlValue) -> (r: String)
        ensures
            value_text(*host, value.model()) matches Some(t) ==> r@ == t,
    {
        match value {
            YamlValue::String(s) => s.clone(),
            YamlValue::Number(YamlNumber::PosInt(n)) => decimal_string(*n),
            YamlValue::Number(YamlNumber::NegInt(i)) => {
                if *i < 0 {
                    let mut s = "-".to_string();
                    let magnitude: u64 = ((-(*i + 1)) as u64) + 1;
                    let digits = decimal_string(magnitude);
                    s.append(digits.as_str());
                    s
                } else {
                    decimal_string(*i as u64)
                }
            },
            YamlValue::Number(YamlNumber::Float(t)) => t.clone(),
            YamlValue::Bool(b) => if *b { "true".to_string() } else { "false".to_string() },
            YamlValue::Null => "null".to_string(),
            _ => host.yaml_text(value),
        }
    }

    /// Interpolates tokens and reads the text back.
    fn interpolate<H: ExpressionHost>(&self, host: &H, tokens: Vec<ExpressionToken>) -> (r: Result<YamlValue, String>)
        ensures
            match interp(*self, *host, tokens_view(tokens@)) {
                Some(Ok(s)) => as_specified(*host, res_model(r), Ok(read_back(*host, s))),
                Some(Err(e)) => res_model(r) == Err::<YamlModel, Seq<char>>(e),
                None => true,
            },
    {
        let ghost ts = tokens_view(tokens@);
        let ghost all = tokens@;
        let total = tokens.len();
        let mut rest = tokens;
        let mut result = String::new();
        let mut i: usize = 0;
        let ghost mut hosted = false;
        proof {
            assert(ts.skip(0) =~= ts);
            assert(result@ =~= Seq::<char>::empty());
            assert(Seq::<char>::empty() + Seq::<char>::empty() =~= Seq::<char>::empty());
        }
        while rest.len() > 0
            invariant
                i + rest@.len() == all.len(),
                all.len() == total,
                rest@ == all.skip(i as int),
                ts == tokens_view(all),
                all == tokens@,
                ts.len() == all.len(),
                !hosted ==> interp(*self, *host, ts) == interp_from(*self, *host, ts, i as int, result@),
                hosted ==> interp(*self, *host, ts) is None,
            decreases rest@.len(),
        {
            let token = rest.remove(0);
            let ghost tv = token@;
            proof {
                assert(token == all[i as int]);
                assert(rest@ =~= all.skip(i as int + 1));
                let s = ts.skip(i as int);
                assert(s[0] == tv);
                assert(s.subrange(1, s.len() as int) =~= ts.skip(i as int + 1));
            }
            let ghost before = result@;
            match token {
                ExpressionToken::Literal(text) => {
                    result.append(text.as_str());
                    proof {
                        lemma_interp_at(*self, *host, ts, i as int, before);
                    }
                },
                ExpressionToken::ProviderExpression { provider, expression } => {
                    proof {
                        assert(tv == TokenView::Provider(provider@, expression@));
                    }
                    let value = self.evaluate_provider_expression(host, provider.as_str(), expression.as_str());
                    match value {
                        Ok(v) => {
                            let text = self.yaml_value_to_string(host, &v);
                            result.append(text.as_str());
                            proof {
                                lemma_interp_at(*self, *host, ts, i as int, before);
                                if token_text(*self, *host, tv) is None {
                                    hosted = true;
                                }
                            }
                        },
                        Err(e) => {
                            proof {
                                lemma_interp_at(*self, *host, ts, i as int, before);
                            }
                            return Err(e);
                        },
                    }
                },
                ExpressionToken::LegacyExpression(expr) => {
                    // never produced by `tokenize`
                    proof {
                        assert(tv == TokenView::Legacy(expr@));
                        lemma_interp_at(*self, *host, ts, i as int, before);
                        hosted = true;
                    }
                    let value = self.legacy_evaluate(host, expr.as_str());
                    match value {
                        Ok(v) => {
                            let text = self.yaml_value_to_string(host, &v);
                            result.append(text.as_str());
                        },
                        Err(e) => {
                            return Err(e);
                        },
                    }
                },
            }
            i = i + 1;
        }
        proof {
            assert(ts.skip(i as int).len() == 0);
            if !hosted {
                assert(result@ + Seq::<char>::empty() =~= result@);
            }
        }
        Ok(self.parse_result(host, result.as_str()))
    }

    /// Evaluates an expression text: a lone provider expression keeps the
    /// type of its value; anything else is interpolated into text and read
    /// back as a number, a boolean or text.
    pub fn evaluate<H: ExpressionHost>(&self, host: &H, expression: &str) -> (r: Result<YamlValue, String>)
        ensures
            eval_spec(*self, *host, expression@) matches Some(x) ==> as_specified(*host, res_model(r), x),
    {
        let tokens = match tokenize(expression) {
            Ok(ts) => ts,
            Err(e) => return Err(e),
        };
        if tokens.len() == 1 {
            match &tokens[0] {
                ExpressionToken::ProviderExpression { provider, expression } => {
                    return self.evaluate_provider_expression(host, provider.as_str(), expression.as_str());
                },
                _ => {},
            }
        }
        self.interpolate(host, tokens)
    }

    /// Evaluates a value: text as an expression, anything else as it is.
    pub fn evaluate_yaml<H: ExpressionHost>(&self, host: &H, value: &YamlValue) -> (r: Result<YamlValue, String>)
        ensures
            match value {
                YamlValue::String(s) => eval_spec(*self, *host, s@) matches Some(x) ==> as_specified(*host, res_model(r), x),
                _ => res_model(r) == Ok::<YamlModel, Seq<char>>(value.model()),
            },
    {
        match value {
            YamlValue::String(s) => self.evaluate(host, s.as_str()),
            _ => Ok(value.duplicate()),
        }
    }

    /// The context value for a dotted path, in the older form.
    fn resolve_context_path(&self, path: &str) -> (r: Option<YamlValue>)
        ensures
            match r {
                Some(v) => legacy_lookup(self.context_vars, path@) == Some(v.model()),
                None => legacy_lookup(self.context_vars, path@) is None,
            },
    {
        proof {
            reveal_strlit(".");
        }
        let parts = split_all_exec(path, ".");
        if parts.len() < 2 {
            return None;
        }
        match self.context_vars.get(path) {
            Some(v) => {
                return Some(v.duplicate());
            },
            None => {},
        }
        match first_key_starting(&self.context_vars, parts[0].as_str()) {
            Some(i) => {
                let es = self.context_vars.entries();
                proof {
                    assert(es@[i as int].0@ == self.context_vars.key_seq()[i as int]);
                }
                Some(es[i].1.duplicate())
            },
            None => None,
        }
    }

    /// Replaces the older `${{ env.X }}`, `${{ vars.X }}` and `${path}`
    /// forms in turn, then reads the text back.
    fn legacy_evaluate<H: ExpressionHost>(&self, host: &H, expression: &str) -> (r: Result<YamlValue, String>)
        ensures
            legacy_spec(*self, expression@) matches Some(x) ==> agrees(res_model(r), x),
    {
        let env_matches = match crate::tokens::captures_all("\\$\\{\\{\\s*env\\.(\\w+)\\s*\\}\\}", expression) {
            Some(m) => m,
            None => return Err("Failed to compile env regex".to_string()),
        };
        let ghost mv = crate::tokens::matches_view(env_matches@);
        let mut result = expression.to_string();
        let mut i: usize = 0;
        proof {
            assert(mv.skip(0) =~= mv);
        }
        while i < env_matches.len()
            invariant
                i <= env_matches@.len(),
                mv == crate::tokens::matches_view(env_matches@),
                crate::tokens::regex_is_valid(legacy_env_regex()),
                mv == crate::tokens::regex_captures(legacy_env_regex(), expression@),
                env_pass(self.env_vars, mv, expression@) == env_pass(self.env_vars, mv.skip(i as int), result@),
            decreases env_matches@.len() - i,
        {
            let whole = crate::tokens::group_of(&env_matches[i], 0);
            let name = crate::tokens::group_of(&env_matches[i], 1);
            proof {
                let rest = mv.skip(i as int);
                assert(rest[0] == mv[i as int]);
                assert(rest.drop_first() =~= mv.skip(i as int + 1));
            }
            match self.env_vars.get(name.as_str()) {
                Some(value) => {
                    if whole.unicode_len() > 0 {
                        result = crate::strings::replace_all_exec(result.as_str(), whole.as_str(), value.as_str());
                    }
                },
                None => {
                    let mut msg = "Environment variable not found: ".to_string();
                    msg.append(name.as_str());
                    return Err(msg);
                },
            }
            i = i + 1;
        }
        proof {
            assert(mv.skip(i as int).len() == 0);
        }
        let ghost s1 = result@;
        let vars_matches = match crate::tokens::captures_all("\\$\\{\\{\\s*vars\\.(\\w+)\\s*\\}\\}", result.as_str()) {
            Some(m) => m,
            None => return Err("Failed to compile vars regex".to_string()),
        };
        let ghost mv2 = crate::tokens::matches_view(vars_matches@);
        let ghost mut known = true;
        let mut i: usize = 0;
        proof {
            assert(mv2.skip(0) =~= mv2);
        }
        while i < vars_matches.len()
            invariant
                i <= vars_matches@.len(),
                mv2 == crate::tokens::matches_view(vars_matches@),
                crate::tokens::regex_is_valid(legacy_env_regex()),
                env_pass(self.env_vars, crate::tokens::regex_captures(legacy_env_regex(), expression@), expression@) == Ok::<Seq<char>, Seq<char>>(s1),
                crate::tokens::regex_is_valid(legacy_vars_regex()),
                mv2 == crate::tokens::regex_captures(legacy_vars_regex(), s1),
                known ==> vars_pass(self.flow_vars, mv2, s1) == vars_pass(self.flow_vars, mv2.skip(i as int), result@),
                !known ==> vars_pass(self.flow_vars, mv2, s1) is None,
            decreases vars_matches@.len() - i,
        {
            let whole = crate::tokens::group_of(&vars_matches[i], 0);
            let name = crate::tokens::group_of(&vars_matches[i], 1);
            proof {
                let rest = mv2.skip(i as int);
                assert(rest[0] == mv2[i as int]);
                assert(rest.drop_first() =~= mv2.skip(i as int + 1));
            }
            match self.flow_vars.get(name.as_str()) {
                Some(value) => {
                    let text = self.yaml_value_to_string(host, value);
                    proof {
                        if scalar_text(value.model()) is None {
                            known = false;
                        }
                    }
                    if whole.unicode_len() > 0 {
                        result = crate::strings::replace_all_exec(result.as_str(), whole.as_str(), text.as_str());
                    }
                },
                None => {
                    let mut msg = "Flow variable not found: ".to_string();
                    msg.append(name.as_str());
                    return Err(msg);
                },
            }
            i = i + 1;
        }
        proof {
            assert(mv2.skip(i as int).len() == 0);
        }
        let ghost s2 = result@;
        let output_matches = match crate::tokens::captures_all("\\$\\{([^}]+)\\}", result.as_str()) {
            Some(m) => m,
            None => return Err("Failed to compile output regex".to_string()),
        };
        let ghost mv3 = crate::tokens::matches_view(output_matches@);
        let ghost mut known3 = true;
        let mut i: usize = 0;
        proof {
            assert(mv3.skip(0) =~= mv3);
        }
        while i < output_matches.len()
            invariant
                i <= output_matches@.len(),
                mv3 == crate::tokens::matches_view(output_matches@),
                crate::tokens::regex_is_valid(legacy_env_regex()),
                env_pass(self.env_vars, crate::tokens::regex_captures(legacy_env_regex(), expression@), expression@) == Ok::<Seq<char>, Seq<char>>(s1),
                crate::tokens::regex_is_valid(legacy_vars_regex()),
                known ==> vars_pass(self.flow_vars, crate::tokens::regex_captures(legacy_vars_regex(), s1), s1) == Some(Ok::<Seq<char>, Seq<char>>(s2)),
                !known ==> vars_pass(self.flow_vars, crate::tokens::regex_captures(legacy_vars_regex(), s1), s1) is None,
                crate::tokens::regex_is_valid(legacy_path_regex()),
                mv3 == crate::tokens::regex_captures(legacy_path_regex(), s2),
                known3 ==> path_pass(self.context_vars, mv3, s2) == path_pass(self.context_vars, mv3.skip(i as int), result@),
                !known3 ==> path_pass(self.context_vars, mv3, s2) is None,
            decreases output_matches@.len() - i,
        {
            let whole = crate::tokens::group_of(&output_matches[i], 0);
            let path = crate::tokens::group_of(&output_matches[i], 1);
            proof {
                let rest = mv3.skip(i as int);
                assert(rest[0] == mv3[i as int]);
                assert(rest.drop_first() =~= mv3.skip(i as int + 1));
            }
            match self.resolve_context_path(path.as_str()) {
                Some(value) => {
                    let text = self.yaml_value_to_string(host, &value);
                    proof {
                        if scalar_text(value.model()) is None {
                            known3 = false;
                        }
                    }
                    if whole.unicode_len() > 0 {
                        result = crate::strings::replace_all_exec(result.as_str(), whole.as_str(), text.as_str());
                    }
                },
                None => {
                    let mut msg = "Context path not found: ".to_string();
                    msg.append(path.as_str());
                    return Err(msg);
                },
            }
            i = i + 1;
        }
        proof {
            assert(mv3.skip(i as int).len() == 0);
        }
        Ok(self.parse_result(host, result.as_str()))
    }
}


pub open spec fn res_bool(r: Result<bool, String>) -> Result<bool, Seq<char>> {
    match r {
        Ok(b) => Ok(b),
        Err(e) => Err(e@),
    }
}

/// Step `k` of `&&` over parts: the parts before `k` all held.
pub open spec fn all_from<H: ExpressionHost>(ev: ExpressionEvaluator, host: H, parts: Seq<Seq<char>>, k: int, fuel: nat) -> Option<Result<bool, Seq<char>>> {
    all_spec(ev, host, parts.skip(k), fuel)
}

pub open spec fn any_from<H: ExpressionHost>(ev: ExpressionEvaluator, host: H, parts: Seq<Seq<char>>, k: int, fuel: nat) -> Option<Result<bool, Seq<char>>> {
    any_spec(ev, host, parts.skip(k), fuel)
}

impl ExpressionEvaluator {
    /// Whether the two sides of the first `==`, trimmed, are equal.
    fn evaluate_equality(&self, expr: &str) -> (r: bool)
        ensures
            r == sides_equal(expr@, "=="@),
    {
        let parts = split_two_exec(expr, "==");
        if parts.len() != 2 {
            return false;
        }
        let left = trim_exec(parts[0].as_str());
        let right = trim_exec(parts[1].as_str());
        left == right
    }

    /// Whether the two sides of the first `!=`, trimmed, differ.
    fn evaluate_inequality(&self, expr: &str) -> (r: bool)
        ensures
            r == sides_differ(expr@, "!="@),
    {
        let parts = split_two_exec(expr, "!=");
        if parts.len() != 2 {
            return false;
        }
        let left = trim_exec(parts[0].as_str());
        let right = trim_exec(parts[1].as_str());
        left != right
    }

    fn condition_at<H: ExpressionHost>(&self, host: &H, s: &str, fuel: u32) -> (r: Result<bool, String>)
        ensures
            cond_spec(*self, *host, s@, fuel as nat) matches Some(x) ==> res_bool(r) == x,
        decreases fuel, 0nat,
    {
        proof {
            reveal_strlit("==");
            reveal_strlit("!=");
            reveal_strlit("&&");
            reveal_strlit("||");
        }
        let value = match self.evaluate(host, s) {
            Ok(v) => v,
            Err(e) => return Err(e),
        };
        match value {
            YamlValue::Bool(b) => Ok(b),
            YamlValue::String(t) => {
                if contains_exec(t.as_str(), "==") {
                    Ok(self.evaluate_equality(t.as_str()))
                } else if contains_exec(t.as_str(), "!=") {
                    Ok(self.evaluate_inequality(t.as_str()))
                } else if contains_exec(t.as_str(), "&&") {
                    if fuel == 0 {
                        Err("Condition nests too deeply".to_string())
                    } else {
                        let parts = split_all_exec(t.as_str(), "&&");
                        proof {
                            assert(crate::context::views_of(parts@) =~= split_all(t@, "&&"@));
                        }
                        self.all_at(host, &parts, fuel - 1)
                    }
                } else if contains_exec(t.as_str(), "||") {
                    if fuel == 0 {
                        Err("Condition nests too deeply".to_string())
                    } else {
                        let parts = split_all_exec(t.as_str(), "||");
                        proof {
                            assert(crate::context::views_of(parts@) =~= split_all(t@, "||"@));
                        }
                        self.any_at(host, &parts, fuel - 1)
                    }
                } else {
                    Ok(t.unicode_len() > 0)
                }
            },
            YamlValue::Number(YamlNumber::PosInt(n)) => Ok(n != 0),
            YamlValue::Number(YamlNumber::NegInt(i)) => Ok(i != 0),
            YamlValue::Number(YamlNumber::Float(t)) => Ok(!(same_text(&t, "0.0") || same_text(&t, "-0.0"))),
            YamlValue::Null => Ok(false),
            _ => Ok(true),
        }
    }

    fn all_at<H: ExpressionHost>(&self, host: &H, parts: &Vec<String>, fuel: u32) -> (r: Result<bool, String>)
        ensures
            all_spec(*self, *host, crate::context::views_of(parts@), fuel as nat) matches Some(x) ==> res_bool(r) == x,
        decreases fuel, 1nat,
    {
        let ghost ps = crate::context::views_of(parts@);
        let ghost mut hosted = false;
        let mut k: usize = 0;
        proof {
            assert(ps.skip(0) =~= ps);
        }
        while k < parts.len()
            invariant
                k <= parts@.len(),
                ps == crate::context::views_of(parts@),
                !hosted ==> all_spec(*self, *host, ps, fuel as nat) == all_from(*self, *host, ps, k as int, fuel as nat),
                hosted ==> all_spec(*self, *host, ps, fuel as nat) is None,
            decreases parts@.len() - k,
        {
            let part = trim_exec(parts[k].as_str());
            proof {
                let s = ps.skip(k as int);
                assert(s[0] == parts@[k as int]@);
                assert(s.subrange(1, s.len() as int) =~= ps.skip(k as int + 1));
            }
            let c = self.condition_at(host, part.as_str(), fuel);
            proof {
                if cond_spec(*self, *host, part@, fuel as nat) is None {
                    hosted = true;
                }
            }
            match c {
                Ok(true) => {},
                Ok(false) => {
                    return Ok(false);
                },
                Err(e) => {
                    return Err(e);
                },
            }
            k = k + 1;
        }
        proof {
            assert(ps.skip(k as int).len() == 0);
        }
        Ok(true)
    }

    fn any_at<H: ExpressionHost>(&self, host: &H, parts: &Vec<String>, fuel: u32) -> (r: Result<bool, String>)
        ensures
            any_spec(*self, *host, crate::context::views_of(parts@), fuel as nat) matches Some(x) ==> res_bool(r) == x,
        decreases fuel, 1nat,
    {
        let ghost ps = crate::context::views_of(parts@);
        let ghost mut hosted = false;
        let mut k: usize = 0;
        proof {
            assert(ps.skip(0) =~= ps);
        }
        while k < parts.len()
            invariant
                k <= parts@.len(),
                ps == crate::context::views_of(parts@),
                !hosted ==> any_spec(*self, *host, ps, fuel as nat) == any_from(*self, *host, ps, k as int, fuel as nat),
                hosted ==> any_spec(*self, *host, ps, fuel as nat) is None,
            decreases parts@.len() - k,
        {
            let part = trim_exec(parts[k].as_str());
            proof {
                let s = ps.skip(k as int);
                assert(s[0] == parts@[k as int]@);
                assert(s.subrange(1, s.len() as int) =~= ps.skip(k as int + 1));
            }
            let c = self.condition_at(host, part.as_str(), fuel);
            proof {
                if cond_spec(*self, *host, part@, fuel as nat) is None {
                    hosted = true;
                }
            }
            match c {
                Ok(true) => {
                    return Ok(true);
                },
                Ok(false) => {},
                Err(e) => {
                    return Err(e);
                },
            }
            k = k + 1;
        }
        proof {
            assert(ps.skip(k as int).len() == 0);
        }
        Ok(false)
    }

    /// Evaluates a condition: booleans as they are; text compared with
    /// `==` or `!=`, combined with `&&` or `||` (each part a condition of
    /// its own), else true when not empty; numbers true when not zero; null
    /// false; anything else true.
    pub fn evaluate_condition<H: ExpressionHost>(&self, host: &H, condition: &str) -> (r: Result<bool, String>)
        ensures
            cond_spec(*self, *host, condition@, condition_fuel()) matches Some(x) ==> res_bool(r) == x,
    {
        self.condition_at(host, condition, 64)
    }
}

/// An interpolated integer reads back as the same integer: the text that a
/// whole number within the range of `i64` is interpolated as parses, as a
/// decimal integer, to that number; a negative number's text starts with
/// `-`.
pub proof fn law_integer_text_reads_back<H: ExpressionHost>(host: H, i: int)
    requires
        i64::MIN <= i <= i64::MAX,
    ensures
        value_text(host, YamlModel::Number(NumberModel::NegInt(i))) matches Some(t)
            && int_text(t) == Some(i) && (i < 0 ==> t.len() > 0 && t[0] == '-'),
        i >= 0 ==> (value_text(host, YamlModel::Number(NumberModel::PosInt(i as nat))) matches Some(t)
            && int_text(t) == Some(i)),
{
    if i < 0 {
        let m = (-i) as nat;
        crate::numtext::lemma_decimal_reads_back(m);
        reveal_strlit("-");
        let t = "-"@ + decimal(m);
        assert(t[0] == '-');
        assert(t.subrange(1, t.len() as int) =~= decimal(m));
        assert(crate::numtext::unsigned_part(t) == decimal(m));
    } else {
        crate::numtext::lemma_decimal_reads_back(i as nat);
        let t = decimal(i as nat);
        assert(crate::numtext::is_digit(t[0]));
        assert(!crate::numtext::is_sign(t[0]));
        assert(crate::numtext::unsigned_part(t) == t);
    }
}


#[verifier::rlimit(100)]
proof fn lemma_all_parts<H: ExpressionHost>(ev: ExpressionEvaluator, host: H, parts: Seq<Seq<char>>, fuel: nat)
    ensures
        all_spec(ev, host, parts, fuel) == Some(Ok::<bool, Seq<char>>(true)) <==>
            forall|k: int| 0 <= k < parts.len() ==> #[trigger] cond_spec(ev, host, trim(parts[k]), fuel) == Some(Ok::<bool, Seq<char>>(true)),
        forall|k: int| 0 <= k < parts.len()
            && #[trigger] cond_spec(ev, host, trim(parts[k]), fuel) == Some(Ok::<bool, Seq<char>>(false))
            && (forall|j: int| 0 <= j < k ==> cond_spec(ev, host, trim(parts[j]), fuel) == Some(Ok::<bool, Seq<char>>(true)))
            ==> all_spec(ev, host, parts, fuel) == Some(Ok::<bool, Seq<char>>(false)),
    decreases parts.len(),
{
    if parts.len() > 0 {
        let rest = parts.subrange(1, parts.len() as int);
        lemma_all_parts(ev, host, rest, fuel);
        assert forall|k: int| 0 <= k < rest.len() implies rest[k] == parts[k + 1] by {}
        if forall|k: int| 0 <= k < parts.len() ==> #[trigger] cond_spec(ev, host, trim(parts[k]), fuel) == Some(Ok::<bool, Seq<char>>(true)) {
            assert(cond_spec(ev, host, trim(parts[0]), fuel) == Some(Ok::<bool, Seq<char>>(true)));
            assert forall|k: int| 0 <= k < rest.len() implies #[trigger] cond_spec(ev, host, trim(rest[k]), fuel) == Some(Ok::<bool, Seq<char>>(true)) by {
                assert(rest[k] == parts[k + 1]);
            }
        }
        if all_spec(ev, host, parts, fuel) == Some(Ok::<bool, Seq<char>>(true)) {
            assert forall|k: int| 0 <= k < parts.len() implies #[trigger] cond_spec(ev, host, trim(parts[k]), fuel) == Some(Ok::<bool, Seq<char>>(true)) by {
                if k > 0 {
                    assert(parts[k] == rest[k - 1]);
                }
            }
        }
        assert forall|k: int| 0 <= k < parts.len()
            && #[trigger] cond_spec(ev, host, trim(parts[k]), fuel) == Some(Ok::<bool, Seq<char>>(false))
            && (forall|j: int| 0 <= j < k ==> cond_spec(ev, host, trim(parts[j]), fuel) == Some(Ok::<bool, Seq<char>>(true)))
            implies all_spec(ev, host, parts, fuel) == Some(Ok::<bool, Seq<char>>(false)) by {
            if k > 0 {
                assert(cond_spec(ev, host, trim(parts[0]), fuel) == Some(Ok::<bool, Seq<char>>(true)));
                assert(parts[k] == rest[k - 1]);
                assert forall|j: int| 0 <= j < k - 1 implies cond_spec(ev, host, trim(rest[j]), fuel) == Some(Ok::<bool, Seq<char>>(true)) by {
                    assert(rest[j] == parts[j + 1]);
                }
                assert(cond_spec(ev, host, trim(rest[k - 1]), fuel) == Some(Ok::<bool, Seq<char>>(false)));
            }
        }
    }
}

#[verifier::rlimit(100)]
proof fn lemma_any_parts<H: ExpressionHost>(ev: ExpressionEvaluator, host: H, parts: Seq<Seq<char>>, fuel: nat)
    ensures
        any_spec(ev, host, parts, fuel) == Some(Ok::<bool, Seq<char>>(false)) <==>
            forall|k: int| 0 <= k < parts.len() ==> #[trigger] cond_spec(ev, host, trim(parts[k]), fuel) == Some(Ok::<bool, Seq<char>>(false)),
        forall|k: int| 0 <= k < parts.len()
            && #[trigger] cond_spec(ev, host, trim(parts[k]), fuel) == Some(Ok::<bool, Seq<char>>(true))
            && (forall|j: int| 0 <= j < k ==> cond_spec(ev, host, trim(parts[j]), fuel) == Some(Ok::<bool, Seq<char>>(false)))
            ==> any_spec(ev, host, parts, fuel) == Some(Ok::<bool, Seq<char>>(true)),
    decreases parts.len(),
{
    if parts.len() > 0 {
        let rest = parts.subrange(1, parts.len() as int);
        lemma_any_parts(ev, host, rest, fuel);
        if forall|k: int| 0 <= k < parts.len() ==> #[trigger] cond_spec(ev, host, trim(parts[k]), fuel) == Some(Ok::<bool, Seq<char>>(false)) {
            assert(cond_spec(ev, host, trim(parts[0]), fuel) == Some(Ok::<bool, Seq<char>>(false)));
            assert forall|k: int| 0 <= k < rest.len() implies #[trigger] cond_spec(ev, host, trim(rest[k]), fuel) == Some(Ok::<bool, Seq<char>>(false)) by {
                assert(rest[k] == parts[k + 1]);
            }
        }
        if any_spec(ev, host, parts, fuel) == Some(Ok::<bool, Seq<char>>(false)) {
            assert forall|k: int| 0 <= k < parts.len() implies #[trigger] cond_spec(ev, host, trim(parts[k]), fuel) == Some(Ok::<bool, Seq<char>>(false)) by {
                if k > 0 {
                    assert(parts[k] == rest[k - 1]);
                }
            }
        }
        assert forall|k: int| 0 <= k < parts.len()
            && #[trigger] cond_spec(ev, host, trim(parts[k]), fuel) == Some(Ok::<bool, Seq<char>>(true))
            && (forall|j: int| 0 <= j < k ==> cond_spec(ev, host, trim(parts[j]), fuel) == Some(Ok::<bool, Seq<char>>(false)))
            implies any_spec(ev, host, parts, fuel) == Some(Ok::<bool, Seq<char>>(true)) by {
            if k > 0 {
                assert(cond_spec(ev, host, trim(parts[0]), fuel) == Some(Ok::<bool, Seq<char>>(false)));
                assert(parts[k] == rest[k - 1]);
                assert forall|j: int| 0 <= j < k - 1 implies cond_spec(ev, host, trim(rest[j]), fuel) == Some(Ok::<bool, Seq<char>>(false)) by {
                    assert(rest[j] == parts[j + 1]);
                }
                assert(cond_spec(ev, host, trim(rest[k - 1]), fuel) == Some(Ok::<bool, Seq<char>>(true)));
            }
        }
    }
}

/// A condition whose text (once evaluated) joins parts with `&&`, and has
/// no `==` or `!=`, holds exactly when every trimmed part, evaluated as a
/// condition, holds; a part that does not hold, after parts that all hold,
/// makes the whole condition false.
pub proof fn law_and_condition<H: ExpressionHost>(ev: ExpressionEvaluator, host: H, c: Seq<char>, fuel: nat, text: Seq<char>)
    requires
        fuel > 0,
        eval_spec(ev, host, c) == Some(Ok::<YamlModel, Seq<char>>(YamlModel::String(text))),
        contains_text(text, "&&"@),
        !contains_text(text, "=="@),
        !contains_text(text, "!="@),
    ensures
        cond_spec(ev, host, c, fuel) == Some(Ok::<bool, Seq<char>>(true)) <==>
            forall|k: int| 0 <= k < split_all(text, "&&"@).len()
                ==> #[trigger] cond_spec(ev, host, trim(split_all(text, "&&"@)[k]), (fuel - 1) as nat) == Some(Ok::<bool, Seq<char>>(true)),
        forall|k: int| 0 <= k < split_all(text, "&&"@).len()
            && #[trigger] cond_spec(ev, host, trim(split_all(text, "&&"@)[k]), (fuel - 1) as nat) == Some(Ok::<bool, Seq<char>>(false))
            && (forall|j: int| 0 <= j < k ==> cond_spec(ev, host, trim(split_all(text, "&&"@)[j]), (fuel - 1) as nat) == Some(Ok::<bool, Seq<char>>(true)))
            ==> cond_spec(ev, host, c, fuel) == Some(Ok::<bool, Seq<char>>(false)),
{
    lemma_all_parts(ev, host, split_all(text, "&&"@), (fuel - 1) as nat);
}

/// A condition whose text (once evaluated) joins parts with `||`, and has
/// no `==`, `!=` or `&&`, fails exactly when every trimmed part, evaluated
/// as a condition, fails; a part that holds, after parts that all fail,
/// makes the whole condition true.
pub proof fn law_or_condition<H: ExpressionHost>(ev: ExpressionEvaluator, host: H, c: Seq<char>, fuel: nat, text: Seq<char>)
    requires
        fuel > 0,
        eval_spec(ev, host, c) == Some(Ok::<YamlModel, Seq<char>>(YamlModel::String(text))),
        contains_text(text, "||"@),
        !contains_text(text, "=="@),
        !contains_text(text, "!="@),
        !contains_text(text, "&&"@),
    ensures
        cond_spec(ev, host, c, fuel) == Some(Ok::<bool, Seq<char>>(false)) <==>
            forall|k: int| 0 <= k < split_all(text, "||"@).len()
                ==> #[trigger] cond_spec(ev, host, trim(split_all(text, "||"@)[k]), (fuel - 1) as nat) == Some(Ok::<bool, Seq<char>>(false)),
        forall|k: int| 0 <= k < split_all(text, "||"@).len()
            && #[trigger] cond_spec(ev, host, trim(split_all(text, "||"@)[k]), (fuel - 1) as nat) == Some(Ok::<bool, Seq<char>>(true))
            && (forall|j: int| 0 <= j < k ==> cond_spec(ev, host, trim(split_all(text, "||"@)[j]), (fuel - 1) as nat) == Some(Ok::<bool, Seq<char>>(false)))
            ==> cond_spec(ev, host, c, fuel) == Some(Ok::<bool, Seq<char>>(true)),
{
    lemma_any_parts(ev, host, split_all(text, "||"@), (fuel - 1) as nat);
}


proof fn lemma_split_at_first(a: Seq<char>, sep: Seq<char>, b: Seq<char>)
    requires
        sep.len() == 2,
        forall|i: int| 0 <= i < a.len() ==> a[i] != sep[0],
    ensures
        find(a + sep + b, sep) == a.len(),
        split_two(a + sep + b, sep) == seq![a, b],
{
    let t = a + sep + b;
    assert(t.subrange(a.len() as int, a.len() as int + 2) =~= sep);
    assert(crate::strings::occurs_at(t, sep, a.len() as int));
    lemma_find_from(t, sep, 0);
    let f = find(t, sep);
    if 0 <= f < a.len() {
        assert(t.subrange(f, f + 2)[0] == t[f]);
        assert(t[f] == a[f]);
    }
    assert(t.subrange(0, a.len() as int) =~= a);
    assert(t.subrange(a.len() as int + 2, t.len() as int) =~= b);
}

/// A condition whose text (once evaluated) is `left == right`, with no `=`
/// in `left`, holds exactly when the two sides are equal once trimmed.
pub proof fn law_equality_condition<H: ExpressionHost>(ev: ExpressionEvaluator, host: H, c: Seq<char>, fuel: nat, left: Seq<char>, right: Seq<char>)
    requires
        eval_spec(ev, host, c) == Some(Ok::<YamlModel, Seq<char>>(YamlModel::String(left + "=="@ + right))),
        forall|i: int| 0 <= i < left.len() ==> left[i] != '=',
    ensures
        cond_spec(ev, host, c, fuel) == Some(Ok::<bool, Seq<char>>(trim(left) == trim(right))),
{
    reveal_strlit("==");
    lemma_split_at_first(left, "=="@, right);
}

/// A condition whose text (once evaluated) is `left != right`, with no `!`
/// in `left` and no `==` anywhere, holds exactly when the two sides differ
/// once trimmed.
pub proof fn law_inequality_condition<H: ExpressionHost>(ev: ExpressionEvaluator, host: H, c: Seq<char>, fuel: nat, left: Seq<char>, right: Seq<char>)
    requires
        eval_spec(ev, host, c) == Some(Ok::<YamlModel, Seq<char>>(YamlModel::String(left + "!="@ + right))),
        forall|i: int| 0 <= i < left.len() ==> left[i] != '!',
        !contains_text(left + "!="@ + right, "=="@),
    ensures
        cond_spec(ev, host, c, fuel) == Some(Ok::<bool, Seq<char>>(trim(left) != trim(right))),
{
    reveal_strlit("!=");
    lemma_split_at_first(left, "!="@, right);
}

} // verus!

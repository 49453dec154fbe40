//! What the task executor decides: which action runs, with which
//! parameters, what a finished command or HTTP request leaves in the
//! context, when a failed node is retried and after what delay, and how
//! results and statistics are kept. Running processes, sending requests,
//! sleeping and waiting happen outside; each step here takes what came back.

use vstd::prelude::*;
use std::time::{Duration, Instant};
use crate::strmap::StrMap;
use crate::yaml::{YamlValue, YamlModel, NumberModel, model_str, model_u64, model_seq, model_map, pairs_model, seq_model, lemma_pairs_model, lemma_seq_model};
use crate::plan::{ActionSpec, ActionView, ExecutionNode, ExecutionPhase, ExecutionPlan, Executor, ExecutorStatus, PhaseExecutionMode, RetryConfig, RetryStrategy};
use crate::context::FlowContext;
use crate::ids::{instant_now, elapsed_since, zero_duration, duration_nanos, duration_from_nanos, whole_nanos, span_of_nanos};
use crate::text::{decimal, decimal_string, same_text, opt_view, is_ascii, ascii_upper};
use crate::expression::{key_pos, key_pos_exec};

verus! {

/// Settings of the task executor.
#[derive(Debug, Clone, Copy, PartialEq, Eq, Structural)]
pub struct ExecutorConfig {
    /// How many nodes run at once.
    pub max_concurrent_tasks: usize,
    /// A node's time limit in milliseconds when it sets none.
    pub default_timeout: u64,
}

impl Default for ExecutorConfig {
    fn default() -> (r: Self)
        ensures
            r.max_concurrent_tasks == 10,
            r.default_timeout == 30000,
    {
        ExecutorConfig { max_concurrent_tasks: 10, default_timeout: 30000 }
    }
}

/// Counts of executed nodes and the time they took.
#[derive(Debug)]
pub struct ExecutionStats {
    pub total_tasks: usize,
    pub successful_tasks: usize,
    pub failed_tasks: usize,
    pub skipped_tasks: usize,
    pub total_execution_time: Duration,
    pub average_execution_time: Duration,
}

/// How one node ran.
#[derive(Debug)]
pub struct NodeResult {
    pub node_id: String,
    pub node_name: String,
    pub start_time: Instant,
    pub end_time: Option<Instant>,
    pub duration: Duration,
    pub success: bool,
    pub error_message: Option<String>,
    pub retry_count: u32,
}

/// How one phase ran.
#[derive(Debug)]
pub struct PhaseResult {
    pub phase_id: String,
    pub phase_name: String,
    pub start_time: Instant,
    pub end_time: Option<Instant>,
    pub duration: Duration,
    pub success: bool,
    pub error_message: Option<String>,
    pub node_results: Vec<NodeResult>,
}

/// How a plan ran.
#[derive(Debug)]
pub struct ExecutionResult {
    pub plan_id: String,
    pub start_time: Instant,
    pub end_time: Option<Instant>,
    pub phase_results: Vec<PhaseResult>,
    pub total_duration: Duration,
    pub success: bool,
    pub error_message: Option<String>,
}

/// The executor's settings, state and statistics.
pub struct EnhancedTaskExecutor {
    config: ExecutorConfig,
    status: ExecutorStatus,
    stats: ExecutionStats,
}

// ---------------------------------------------------------------------
// Parameters

/// The parameter under a key.
pub open spec fn param(a: ActionView, k: Seq<char>) -> Option<YamlModel> {
    if a.parameters.contains_key(k) { Some(a.parameters[k]) } else { None }
}

/// The text of a parameter, when it is text.
pub open spec fn param_str(a: ActionView, k: Seq<char>) -> Option<Seq<char>> {
    match param(a, k) {
        Some(m) => model_str(m),
        None => None,
    }
}

fn get_param<'a>(spec: &'a ActionSpec, k: &str) -> (r: Option<&'a YamlValue>)
    ensures
        match r {
            Some(v) => param(spec@, k@) == Some(v.model()),
            None => param(spec@, k@) is None,
        },
{
    let r = spec.parameters.get(k);
    proof {
        if spec.parameters@.contains_key(k@) {
            StrMap::<YamlValue>::lemma_model_at(spec.parameters, k@);
        }
        assert(spec@.parameters == spec.parameters.model());
        assert(spec.parameters.model().dom() == spec.parameters@.dom()) by {
            StrMap::<YamlValue>::lemma_model_dom(spec.parameters);
        }
    }
    r
}

fn get_param_str<'a>(spec: &'a ActionSpec, k: &str) -> (r: Option<&'a String>)
    ensures
        match r {
            Some(s) => param_str(spec@, k@) == Some(s@),
            None => param_str(spec@, k@) is None,
        },
{
    match get_param(spec, k) {
        Some(v) => v.as_str(),
        None => None,
    }
}

// ---------------------------------------------------------------------
// Which action runs

/// The kinds of action the executor runs.
#[derive(Debug, Clone, Copy, PartialEq, Eq, Structural)]
pub enum ActionKind {
    Builtin,
    Cmd,
    Http,
    Wasm,
    Composite,
}

pub open spec fn action_kind_of(t: Seq<char>) -> Result<ActionKind, Seq<char>> {
    if t == "builtin"@ {
        Ok(ActionKind::Builtin)
    } else if t == "cmd"@ {
        Ok(ActionKind::Cmd)
    } else if t == "http"@ {
        Ok(ActionKind::Http)
    } else if t == "wasm"@ {
        Ok(ActionKind::Wasm)
    } else if t == "composite"@ {
        Ok(ActionKind::Composite)
    } else {
        Err("不支持的动作类型: "@ + t)
    }
}

/// The kind of an action by its type name; any other name is refused.
pub fn classify_action(action_type: &String) -> (r: Result<ActionKind, String>)
    ensures
        match r {
            Ok(k) => action_kind_of(action_type@) == Ok::<ActionKind, Seq<char>>(k),
            Err(e) => action_kind_of(action_type@) == Err::<ActionKind, Seq<char>>(e@),
        },
{
    if same_text(action_type, "builtin") {
        Ok(ActionKind::Builtin)
    } else if same_text(action_type, "cmd") {
        Ok(ActionKind::Cmd)
    } else if same_text(action_type, "http") {
        Ok(ActionKind::Http)
    } else if same_text(action_type, "wasm") {
        Ok(ActionKind::Wasm)
    } else if same_text(action_type, "composite") {
        Ok(ActionKind::Composite)
    } else {
        let mut msg = "不支持的动作类型: ".to_string();
        msg.append(action_type.as_str());
        Err(msg)
    }
}

// ---------------------------------------------------------------------
// Built-in actions

/// How loudly a message is logged.
#[derive(Debug, Clone, Copy, PartialEq, Eq, Structural)]
pub enum LogLevel {
    Debug,
    Info,
    Warn,
    Error,
}

/// What a built-in action does.
#[derive(Debug)]
pub enum BuiltinOp {
    /// Sets a context variable to the `Debug` text of a value.
    SetVariable { key: String, value: YamlValue },
    /// Fails unless the context has the variable.
    GetVariable { key: String },
    /// Logs a value at a level.
    Log { level: LogLevel, message: YamlValue },
    /// Sleeps so many milliseconds.
    Sleep { millis: u64 },
}

pub enum BuiltinView {
    SetVariable(Seq<char>, YamlModel),
    GetVariable(Seq<char>),
    Log(LogLevel, YamlModel),
    Sleep(u64),
}

impl BuiltinOp {
    pub open spec fn view(&self) -> BuiltinView {
        match self {
            BuiltinOp::SetVariable { key, value } => BuiltinView::SetVariable(key@, value.model()),
            BuiltinOp::GetVariable { key } => BuiltinView::GetVariable(key@),
            BuiltinOp::Log { level, message } => BuiltinView::Log(*level, message.model()),
            BuiltinOp::Sleep { millis } => BuiltinView::Sleep(*millis),
        }
    }
}

pub open spec fn level_of(l: Option<Seq<char>>) -> LogLevel {
    match l {
        Some(t) => {
            if t == "debug"@ {
                LogLevel::Debug
            } else if t == "warn"@ {
                LogLevel::Warn
            } else if t == "error"@ {
                LogLevel::Error
            } else {
                LogLevel::Info
            }
        },
        None => LogLevel::Info,
    }
}

/// The built-in operation an action asks for, from its `operation`
/// parameter and the parameters that operation needs.
pub open spec fn builtin_spec(a: ActionView) -> Result<BuiltinView, Seq<char>> {
    match param_str(a, "operation"@) {
        None => Err("内置动作缺少 'operation' 参数"@),
        Some(op) => { if op == "set_variable"@ {
            match param_str(a, "key"@) {
                None => Err("set_variable 操作缺少 'key' 参数"@),
                Some(k) => match param(a, "value"@) {
                    None => Err("set_variable 操作缺少 'value' 参数"@),
                    Some(v) => Ok(BuiltinView::SetVariable(k, v)),
                },
            }
        } else if op == "get_variable"@ {
            match param_str(a, "key"@) {
                None => Err("get_variable 操作缺少 'key' 参数"@),
                Some(k) => Ok(BuiltinView::GetVariable(k)),
            }
        } else if op == "log"@ {
            match param(a, "message"@) {
                None => Err("log 操作缺少 'message' 参数"@),
                Some(m) => Ok(BuiltinView::Log(level_of(param_str(a, "level"@)), m)),
            }
        } else if op == "sleep"@ {
            match param(a, "duration"@) {
                Some(d) => match model_u64(d) {
                    Some(n) => Ok(BuiltinView::Sleep(n as u64)),
                    None => Err("sleep 操作缺少有效的 'duration' 参数"@),
                },
                None => Err("sleep 操作缺少有效的 'duration' 参数"@),
            }
        } else {
            Err("不支持的内置操作: "@ + op)
        } },
    }
}

/// The built-in operation of an action.
pub fn plan_builtin(spec: &ActionSpec) -> (r: Result<BuiltinOp, String>)
    ensures
        match r {
            Ok(op) => builtin_spec(spec@) == Ok::<BuiltinView, Seq<char>>(op.view()),
            Err(e) => builtin_spec(spec@) == Err::<BuiltinView, Seq<char>>(e@),
        },
{
    let operation = match get_param_str(spec, "operation") {
        Some(op) => op,
        None => return Err("内置动作缺少 'operation' 参数".to_string()),
    };
    if same_text(operation, "set_variable") {
        let key = match get_param_str(spec, "key") {
            Some(k) => k,
            None => return Err("set_variable 操作缺少 'key' 参数".to_string()),
        };
        match get_param(spec, "value") {
            Some(v) => Ok(BuiltinOp::SetVariable { key: key.clone(), value: v.duplicate() }),
            None => Err("set_variable 操作缺少 'value' 参数".to_string()),
        }
    } else if same_text(operation, "get_variable") {
        match get_param_str(spec, "key") {
            Some(k) => Ok(BuiltinOp::GetVariable { key: k.clone() }),
            None => Err("get_variable 操作缺少 'key' 参数".to_string()),
        }
    } else if same_text(operation, "log") {
        let message = match get_param(spec, "message") {
            Some(m) => m,
            None => return Err("log 操作缺少 'message' 参数".to_string()),
        };
        let level = match get_param_str(spec, "level") {
            Some(l) => {
                if same_text(l, "debug") {
                    LogLevel::Debug
                } else if same_text(l, "warn") {
                    LogLevel::Warn
                } else if same_text(l, "error") {
                    LogLevel::Error
                } else {
                    LogLevel::Info
                }
            },
            None => LogLevel::Info,
        };
        Ok(BuiltinOp::Log { level, message: message.duplicate() })
    } else if same_text(operation, "sleep") {
        match get_param(spec, "duration") {
            Some(d) => match d.as_u64() {
                Some(n) => Ok(BuiltinOp::Sleep { millis: n }),
                None => Err("sleep 操作缺少有效的 'duration' 参数".to_string()),
            },
            None => Err("sleep 操作缺少有效的 'duration' 参数".to_string()),
        }
    } else {
        let mut msg = "不支持的内置操作: ".to_string();
        msg.append(operation.as_str());
        Err(msg)
    }
}

/// The error when a variable to read is not in the context.
pub fn missing_variable_error(key: &String) -> (r: String)
    ensures
        r@ == "变量 '"@ + key@ + "' 不存在"@,
{
    let mut msg = "变量 '".to_string();
    msg.append(key.as_str());
    msg.append("' 不存在");
    msg
}


// ---------------------------------------------------------------------
// Commands

/// The texts among some values, in order.
pub open spec fn texts_of(items: Seq<YamlModel>) -> Seq<Seq<char>>
    decreases items.len(),
{
    if items.len() == 0 {
        Seq::empty()
    } else {
        let r = texts_of(items.drop_last());
        match model_str(items.last()) {
            Some(s) => r.push(s),
            None => r,
        }
    }
}

/// The pairs whose key and value are both texts, in order.
pub open spec fn text_pairs(ps: Seq<(YamlModel, YamlModel)>) -> Seq<(Seq<char>, Seq<char>)>
    decreases ps.len(),
{
    if ps.len() == 0 {
        Seq::empty()
    } else {
        let r = text_pairs(ps.drop_last());
        match (model_str(ps.last().0), model_str(ps.last().1)) {
            (Some(k), Some(v)) => r.push((k, v)),
            _ => r,
        }
    }
}

/// The text pairs of a mapping parameter; none when it is not a mapping.
pub open spec fn param_pairs(a: ActionView, k: Seq<char>) -> Seq<(Seq<char>, Seq<char>)> {
    match param(a, k) {
        Some(m) => match model_map(m) {
            Some(ps) => text_pairs(ps),
            None => Seq::empty(),
        },
        None => Seq::empty(),
    }
}

/// A process to start: program, arguments, working directory and extra
/// environment variables.
#[derive(Debug)]
pub struct CommandRequest {
    pub command: String,
    pub args: Vec<String>,
    pub working_dir: Option<String>,
    pub env: Vec<(String, String)>,
}

pub open spec fn pairs_view(v: Seq<(String, String)>) -> Seq<(Seq<char>, Seq<char>)> {
    v.map_values(|p: (String, String)| (p.0@, p.1@))
}

/// The process a command action starts.
pub open spec fn command_spec(a: ActionView, c: CommandRequest) -> bool {
    &&& param_str(a, "command"@) == Some(c.command@)
    &&& crate::context::views_of(c.args@) == match param(a, "args"@) {
        Some(m) => match model_seq(m) {
            Some(items) => texts_of(items),
            None => Seq::empty(),
        },
        None => Seq::empty(),
    }
    &&& opt_view(c.working_dir) == param_str(a, "working_dir"@)
    &&& pairs_view(c.env@) == param_pairs(a, "env"@)
}

fn texts_exec(items: &Vec<YamlValue>) -> (r: Vec<String>)
    ensures
        crate::context::views_of(r@) == texts_of(seq_model(items@)),
{
    let mut out: Vec<String> = Vec::new();
    let mut i: usize = 0;
    proof {
        lemma_seq_model(items@);
        assert(seq_model(items@).take(0) =~= Seq::<YamlModel>::empty());
        assert(crate::context::views_of(out@) =~= Seq::<Seq<char>>::empty());
    }
    while i < items.len()
        invariant
            i <= items@.len(),
            seq_model(items@).len() == items@.len(),
            forall|k: int| 0 <= k < items@.len() ==> #[trigger] seq_model(items@)[k] == items@[k].model(),
            crate::context::views_of(out@) == texts_of(seq_model(items@).take(i as int)),
        decreases items@.len() - i,
    {
        proof {
            let s = seq_model(items@);
            assert(s.take(i as int + 1).drop_last() =~= s.take(i as int));
            assert(s.take(i as int + 1).last() == items@[i as int].model());
        }
        match items[i].as_str() {
            Some(s) => {
                let ghost before = out@;
                out.push(s.clone());
                proof {
                    assert(crate::context::views_of(out@) =~= crate::context::views_of(before).push(s@));
                }
            },
            None => {},
        }
        i = i + 1;
    }
    proof {
        assert(seq_model(items@).take(items@.len() as int) =~= seq_model(items@));
    }
    out
}

fn text_pairs_exec(ps: &Vec<(YamlValue, YamlValue)>) -> (r: Vec<(String, String)>)
    ensures
        pairs_view(r@) == text_pairs(pairs_model(ps@)),
{
    let mut out: Vec<(String, String)> = Vec::new();
    let mut i: usize = 0;
    proof {
        lemma_pairs_model(ps@);
        assert(pairs_model(ps@).take(0) =~= Seq::<(YamlModel, YamlModel)>::empty());
        assert(pairs_view(out@) =~= Seq::<(Seq<char>, Seq<char>)>::empty());
    }
    while i < ps.len()
        invariant
            i <= ps@.len(),
            pairs_model(ps@).len() == ps@.len(),
            forall|k: int| 0 <= k < ps@.len() ==> #[trigger] pairs_model(ps@)[k] == (ps@[k].0.model(), ps@[k].1.model()),
            pairs_view(out@) == text_pairs(pairs_model(ps@).take(i as int)),
        decreases ps@.len() - i,
    {
        proof {
            let s = pairs_model(ps@);
            assert(s.take(i as int + 1).drop_last() =~= s.take(i as int));
            assert(s.take(i as int + 1).last() == (ps@[i as int].0.model(), ps@[i as int].1.model()));
        }
        match (ps[i].0.as_str(), ps[i].1.as_str()) {
            (Some(k), Some(v)) => {
                let ghost before = out@;
                out.push((k.clone(), v.clone()));
                proof {
                    assert(pairs_view(out@) =~= pairs_view(before).push((k@, v@)));
                }
            },
            _ => {},
        }
        i = i + 1;
    }
    proof {
        assert(pairs_model(ps@).take(ps@.len() as int) =~= pairs_model(ps@));
    }
    out
}

fn param_pairs_exec(spec: &ActionSpec, k: &str) -> (r: Vec<(String, String)>)
    ensures
        pairs_view(r@) == param_pairs(spec@, k@),
{
    match get_param(spec, k) {
        Some(v) => match v.as_mapping() {
            Some(ps) => text_pairs_exec(ps),
            None => {
                let r: Vec<(String, String)> = Vec::new();
                proof {
                    assert(pairs_view(r@) =~= Seq::<(Seq<char>, Seq<char>)>::empty());
                }
                r
            },
        },
        None => {
            let r: Vec<(String, String)> = Vec::new();
            proof {
                assert(pairs_view(r@) =~= Seq::<(Seq<char>, Seq<char>)>::empty());
            }
            r
        },
    }
}

/// The process a command action starts; the action needs a `command`.
pub fn plan_command(spec: &ActionSpec) -> (r: Result<CommandRequest, String>)
    ensures
        match r {
            Ok(c) => command_spec(spec@, c),
            Err(e) => param_str(spec@, "command"@) is None && e@ == "命令动作缺少 'command' 参数"@,
        },
{
    let command = match get_param_str(spec, "command") {
        Some(c) => c.clone(),
        None => return Err("命令动作缺少 'command' 参数".to_string()),
    };
    let args = match get_param(spec, "args") {
        Some(v) => match v.as_sequence() {
            Some(items) => texts_exec(items),
            None => {
                let r: Vec<String> = Vec::new();
                proof {
                    assert(crate::context::views_of(r@) =~= Seq::<Seq<char>>::empty());
                }
                r
            },
        },
        None => {
            let r: Vec<String> = Vec::new();
            proof {
                assert(crate::context::views_of(r@) =~= Seq::<Seq<char>>::empty());
            }
            r
        },
    };
    let working_dir = match get_param_str(spec, "working_dir") {
        Some(d) => Some(d.clone()),
        None => None,
    };
    let env = param_pairs_exec(spec, "env");
    Ok(CommandRequest { command, args, working_dir, env })
}

/// An integer as `Display` writes it.
pub open spec fn int_decimal(i: int) -> Seq<char> {
    if i < 0 { "-"@ + decimal((-i) as nat) } else { decimal(i as nat) }
}

fn i32_text(i: i32) -> (r: String)
    ensures
        r@ == int_decimal(i as int),
{
    if i < 0 {
        let mut s = "-".to_string();
        let magnitude: u64 = ((-(i + 1)) as u64) + 1;
        let digits = decimal_string(magnitude);
        s.append(digits.as_str());
        s
    } else {
        decimal_string(i as u64)
    }
}

/// What a finished process leaves: on success its output, error output and
/// exit code (-1 when it has none) as context variables; on failure an error
/// naming the exit code and the error output.
pub fn command_outcome(exit_code: Option<i32>, success: bool, stdout: String, stderr: String) -> (r: Result<Vec<(String, String)>, String>)
    ensures
        ({
            let code = match exit_code { Some(c) => c as int, None => -1 };
            match r {
                Ok(vars) => success && pairs_view(vars@) == seq![
                    ("cmd_stdout"@, stdout@), ("cmd_stderr"@, stderr@), ("cmd_exit_code"@, int_decimal(code))],
                Err(e) => !success && e@ == "命令执行失败，退出码: "@ + int_decimal(code) + "，错误输出: "@ + stderr@,
            }
        }),
{
    let code: i32 = match exit_code {
        Some(c) => c,
        None => -1,
    };
    let code_text = i32_text(code);
    if !success {
        let mut msg = "命令执行失败，退出码: ".to_string();
        msg.append(code_text.as_str());
        msg.append("，错误输出: ");
        msg.append(stderr.as_str());
        return Err(msg);
    }
    let mut vars: Vec<(String, String)> = Vec::new();
    vars.push(("cmd_stdout".to_string(), stdout));
    vars.push(("cmd_stderr".to_string(), stderr));
    vars.push(("cmd_exit_code".to_string(), code_text));
    proof {
        assert(pairs_view(vars@) =~= seq![
            ("cmd_stdout"@, stdout@), ("cmd_stderr"@, stderr@), ("cmd_exit_code"@, int_decimal(code as int))]);
    }
    Ok(vars)
}


// ---------------------------------------------------------------------
// HTTP requests

/// What `str::to_uppercase` returns for a text.
pub uninterp spec fn uppercase(s: Seq<char>) -> Seq<char>;

/// A text in upper case: letter by letter for an ASCII text, else what
/// `str::to_uppercase` returns.
pub open spec fn upper_text(s: Seq<char>) -> Seq<char> {
    if is_ascii(s) { s.map_values(|c: char| ascii_upper(c)) } else { uppercase(s) }
}

/// `str::to_uppercase`. The contract claims that the result is the named
/// function of the text and, for an ASCII text, that each letter is put in
/// upper case one for one and every other character is kept (the Unicode
/// upper-case mapping that the method applies, on ASCII).
#[verifier::external_body]
fn to_upper(s: &str) -> (r: String)
    ensures
        r@ == uppercase(s@),
        r@ == upper_text(s@),
{
    s.to_uppercase()
}

#[derive(Debug, Clone, Copy, PartialEq, Eq, Structural)]
pub enum HttpMethod {
    Get,
    Post,
    Put,
    Delete,
    Patch,
}

/// A request body: a value sent as JSON, or text.
#[derive(Debug)]
pub enum HttpBody {
    Json(YamlValue),
    Text(String),
}

/// A request to send.
#[derive(Debug)]
pub struct HttpRequestPlan {
    pub url: String,
    pub method: HttpMethod,
    pub headers: Vec<(String, String)>,
    pub body: Option<HttpBody>,
}

pub enum BodyView {
    Json(YamlModel),
    Text(Seq<char>),
}

pub open spec fn method_of(upper: Seq<char>) -> Option<HttpMethod> {
    if upper == "GET"@ {
        Some(HttpMethod::Get)
    } else if upper == "POST"@ {
        Some(HttpMethod::Post)
    } else if upper == "PUT"@ {
        Some(HttpMethod::Put)
    } else if upper == "DELETE"@ {
        Some(HttpMethod::Delete)
    } else if upper == "PATCH"@ {
        Some(HttpMethod::Patch)
    } else {
        None
    }
}

/// The method text: the `method` parameter, `GET` by default.
pub open spec fn method_text(a: ActionView) -> Seq<char> {
    match param_str(a, "method"@) {
        Some(m) => m,
        None => "GET"@,
    }
}

pub open spec fn content_type_of(a: ActionView) -> Seq<char> {
    match param_str(a, "content_type"@) {
        Some(c) => c,
        None => "application/json"@,
    }
}

/// The body of a request: none without a `body` parameter; the value as
/// JSON or its text, by the content type, which must be one of those two.
pub open spec fn body_spec(a: ActionView) -> Result<Option<BodyView>, Seq<char>> {
    match param(a, "body"@) {
        None => Ok(None),
        Some(b) => {
            let ct = content_type_of(a);
            if ct == "application/json"@ {
                Ok(Some(BodyView::Json(b)))
            } else if ct == "text/plain"@ {
                Ok(Some(BodyView::Text(match model_str(b) { Some(s) => s, None => Seq::empty() })))
            } else {
                Err("不支持的Content-Type: "@ + ct)
            }
        },
    }
}

/// What an HTTP action sends, or why it sends nothing: a `url`, a method
/// among GET, POST, PUT, DELETE and PATCH (in any case), text headers and
/// a body by its content type.
pub open spec fn http_spec(a: ActionView) -> Result<(Seq<char>, HttpMethod, Seq<(Seq<char>, Seq<char>)>, Option<BodyView>), Seq<char>> {
    match param_str(a, "url"@) {
        None => Err("HTTP动作缺少 'url' 参数"@),
        Some(url) => match method_of(upper_text(method_text(a))) {
            None => Err("不支持的HTTP方法: "@ + method_text(a)),
            Some(m) => match body_spec(a) {
                Err(e) => Err(e),
                Ok(body) => Ok((url, m, param_pairs(a, "headers"@), body)),
            },
        },
    }
}

impl HttpRequestPlan {
    pub open spec fn view(&self) -> (Seq<char>, HttpMethod, Seq<(Seq<char>, Seq<char>)>, Option<BodyView>) {
        (self.url@, self.method, pairs_view(self.headers@), match self.body {
            Some(HttpBody::Json(v)) => Some(BodyView::Json(v.model())),
            Some(HttpBody::Text(t)) => Some(BodyView::Text(t@)),
            None => None,
        })
    }
}

/// The request an HTTP action sends.
pub fn plan_http(spec: &ActionSpec) -> (r: Result<HttpRequestPlan, String>)
    ensures
        match r {
            Ok(p) => http_spec(spec@) == Ok::<(Seq<char>, HttpMethod, Seq<(Seq<char>, Seq<char>)>, Option<BodyView>), Seq<char>>(p@),
            Err(e) => http_spec(spec@) == Err::<(Seq<char>, HttpMethod, Seq<(Seq<char>, Seq<char>)>, Option<BodyView>), Seq<char>>(e@),
        },
{
    let url = match get_param_str(spec, "url") {
        Some(u) => u.clone(),
        None => return Err("HTTP动作缺少 'url' 参数".to_string()),
    };
    let method_text = match get_param_str(spec, "method") {
        Some(m) => m.clone(),
        None => "GET".to_string(),
    };
    let upper = to_upper(method_text.as_str());
    let method = if same_text(&upper, "GET") {
        HttpMethod::Get
    } else if same_text(&upper, "POST") {
        HttpMethod::Post
    } else if same_text(&upper, "PUT") {
        HttpMethod::Put
    } else if same_text(&upper, "DELETE") {
        HttpMethod::Delete
    } else if same_text(&upper, "PATCH") {
        HttpMethod::Patch
    } else {
        let mut msg = "不支持的HTTP方法: ".to_string();
        msg.append(method_text.as_str());
        return Err(msg);
    };
    let headers = param_pairs_exec(spec, "headers");
    let body = match get_param(spec, "body") {
        None => None,
        Some(b) => {
            let content_type = match get_param_str(spec, "content_type") {
                Some(c) => c.clone(),
                None => "application/json".to_string(),
            };
            if same_text(&content_type, "application/json") {
                Some(HttpBody::Json(b.duplicate()))
            } else if same_text(&content_type, "text/plain") {
                let text = match b.as_str() {
                    Some(s) => s.clone(),
                    None => String::new(),
                };
                Some(HttpBody::Text(text))
            } else {
                let mut msg = "不支持的Content-Type: ".to_string();
                msg.append(content_type.as_str());
                return Err(msg);
            }
        },
    };
    Ok(HttpRequestPlan { url, method, headers, body })
}

/// The context variables a response leaves: its status code, its body and
/// each header as `http_header_<name>`.
pub open spec fn response_vars(status: u16, body: Seq<char>, headers: Seq<(Seq<char>, Seq<char>)>) -> Seq<(Seq<char>, Seq<char>)> {
    seq![("http_status_code"@, decimal(status as nat)), ("http_response_body"@, body)]
        + headers.map_values(|h: (Seq<char>, Seq<char>)| ("http_header_"@ + h.0, h.1))
}

/// What a response means: an invalid status code (outside 100 to 999), a
/// failure (outside 200 to 299), or success.
pub open spec fn response_result(status: u16, body: Seq<char>) -> Result<(), Seq<char>> {
    if status < 100 || status > 999 {
        Err("无效的状态码: "@ + decimal(status as nat))
    } else if status < 200 || status > 299 {
        Err("HTTP请求失败，状态码: "@ + decimal(status as nat) + "，响应: "@ + body)
    } else {
        Ok(())
    }
}

/// A response is a success exactly when its status code is from 200 to
/// 299; every other status code makes the action fail.
pub proof fn law_http_success_is_2xx(status: u16, body: Seq<char>)
    ensures
        (response_result(status, body) is Ok) <==> (200 <= status && status <= 299),
{
}

/// What a response leaves in the context, and whether the action succeeded.
pub fn http_outcome(status: u16, body: String, headers: Vec<(String, String)>) -> (r: (Vec<(String, String)>, Result<(), String>))
    ensures
        pairs_view(r.0@) == response_vars(status, body@, pairs_view(headers@)),
        match r.1 {
            Ok(()) => response_result(status, body@) == Ok::<(), Seq<char>>(()),
            Err(e) => response_result(status, body@) == Err::<(), Seq<char>>(e@),
        },
{
    let code = decimal_string(status as u64);
    let mut vars: Vec<(String, String)> = Vec::new();
    vars.push(("http_status_code".to_string(), code.clone()));
    vars.push(("http_response_body".to_string(), body.clone()));
    let mut i: usize = 0;
    proof {
        assert(pairs_view(vars@) =~= response_vars(status, body@, pairs_view(headers@).take(0)));
    }
    while i < headers.len()
        invariant
            i <= headers@.len(),
            code@ == decimal(status as nat),
            pairs_view(vars@) == response_vars(status, body@, pairs_view(headers@).take(i as int)),
        decreases headers@.len() - i,
    {
        let mut name = "http_header_".to_string();
        name.append(headers[i].0.as_str());
        let ghost before = vars@;
        vars.push((name, headers[i].1.clone()));
        proof {
            let hs = pairs_view(headers@);
            assert(hs.take(i as int + 1) =~= hs.take(i as int).push(hs[i as int]));
            assert(pairs_view(vars@) =~= pairs_view(before).push(("http_header_"@ + hs[i as int].0, hs[i as int].1)));
            assert(response_vars(status, body@, hs.take(i as int + 1))
                =~= response_vars(status, body@, hs.take(i as int)).push(("http_header_"@ + hs[i as int].0, hs[i as int].1)));
        }
        i = i + 1;
    }
    proof {
        assert(pairs_view(headers@).take(headers@.len() as int) =~= pairs_view(headers@));
    }
    let result = if status < 100 || status > 999 {
        let mut msg = "无效的状态码: ".to_string();
        msg.append(code.as_str());
        Err(msg)
    } else if status < 200 || status > 299 {
        let mut msg = "HTTP请求失败，状态码: ".to_string();
        msg.append(code.as_str());
        msg.append("，响应: ");
        msg.append(body.as_str());
        Err(msg)
    } else {
        Ok(())
    };
    (vars, result)
}


// ---------------------------------------------------------------------
// Composite actions

/// One item of a composite action: a sub-action to run, an item that is no
/// mapping and is passed over, or an item without a type.
#[derive(Debug)]
pub enum CompositeItem {
    Skip,
    Run(ActionSpec),
    Invalid(String),
}

pub enum ItemView {
    Skip,
    Run(ActionView),
    Invalid(Seq<char>),
}

impl CompositeItem {
    pub open spec fn view(&self) -> ItemView {
        match self {
            CompositeItem::Skip => ItemView::Skip,
            CompositeItem::Run(a) => ItemView::Run(a@),
            CompositeItem::Invalid(e) => ItemView::Invalid(e@),
        }
    }
}

/// The value under the text key `k` of a mapping.
pub open spec fn map_get(ps: Seq<(YamlModel, YamlModel)>, k: Seq<char>) -> Option<YamlModel> {
    let i = key_pos(ps, k);
    if i >= 0 { Some(ps[i].1) } else { None }
}

/// A mapping as a map by key text (keys that are not text count as the
/// empty text; a later pair wins).
pub open spec fn pairs_as_map(ps: Seq<(YamlModel, YamlModel)>) -> Map<Seq<char>, YamlModel>
    decreases ps.len(),
{
    if ps.len() == 0 {
        Map::empty()
    } else {
        let k = match model_str(ps.last().0) { Some(s) => s, None => Seq::empty() };
        pairs_as_map(ps.drop_last()).insert(k, ps.last().1)
    }
}

/// A mapping entry of a sub-action as a map; empty when it is no mapping.
pub open spec fn sub_map(item: Seq<(YamlModel, YamlModel)>, k: Seq<char>) -> Map<Seq<char>, YamlModel> {
    match map_get(item, k) {
        Some(m) => match model_map(m) {
            Some(ps) => pairs_as_map(ps),
            None => Map::empty(),
        },
        None => Map::empty(),
    }
}

/// Item `index` of a composite action.
pub open spec fn item_spec(m: YamlModel, index: nat) -> ItemView {
    match model_map(m) {
        None => ItemView::Skip,
        Some(ps) => match map_get(ps, "type"@) {
            Some(t) => match model_str(t) {
                Some(ty) => ItemView::Run(ActionView { action_type: ty, parameters: sub_map(ps, "parameters"@), outputs: sub_map(ps, "outputs"@) }),
                None => ItemView::Invalid("子动作 "@ + decimal(index) + " 缺少 'type' 参数"@),
            },
            None => ItemView::Invalid("子动作 "@ + decimal(index) + " 缺少 'type' 参数"@),
        },
    }
}

fn map_get_exec<'a>(ps: &'a Vec<(YamlValue, YamlValue)>, k: &str) -> (r: Option<&'a YamlValue>)
    ensures
        match r {
            Some(v) => map_get(pairs_model(ps@), k@) == Some(v.model()),
            None => map_get(pairs_model(ps@), k@) is None,
        },
{
    proof {
        lemma_pairs_model(ps@);
    }
    match key_pos_exec(ps, k) {
        Some(i) => Some(&ps[i].1),
        None => None,
    }
}

fn pairs_as_map_exec(ps: &Vec<(YamlValue, YamlValue)>) -> (r: StrMap<YamlValue>)
    ensures
        r.model() == pairs_as_map(pairs_model(ps@)),
{
    let mut out: StrMap<YamlValue> = StrMap::empty_values();
    let mut i: usize = 0;
    proof {
        lemma_pairs_model(ps@);
        assert(pairs_model(ps@).take(0) =~= Seq::<(YamlModel, YamlModel)>::empty());
    }
    while i < ps.len()
        invariant
            i <= ps@.len(),
            pairs_model(ps@).len() == ps@.len(),
            forall|k: int| 0 <= k < ps@.len() ==> #[trigger] pairs_model(ps@)[k] == (ps@[k].0.model(), ps@[k].1.model()),
            out.model() == pairs_as_map(pairs_model(ps@).take(i as int)),
        decreases ps@.len() - i,
    {
        proof {
            let s = pairs_model(ps@);
            assert(s.take(i as int + 1).drop_last() =~= s.take(i as int));
            assert(s.take(i as int + 1).last() == (ps@[i as int].0.model(), ps@[i as int].1.model()));
        }
        let key = match ps[i].0.as_str() {
            Some(s) => s.clone(),
            None => String::new(),
        };
        let v = ps[i].1.duplicate();
        let ghost before = out;
        let ghost kv = key@;
        out.insert(key, v);
        proof {
            StrMap::<YamlValue>::lemma_model_insert(before, out, kv, v);
        }
        i = i + 1;
    }
    proof {
        assert(pairs_model(ps@).take(ps@.len() as int) =~= pairs_model(ps@));
    }
    out
}

fn sub_map_exec(item: &Vec<(YamlValue, YamlValue)>, k: &str) -> (r: StrMap<YamlValue>)
    ensures
        r.model() == sub_map(pairs_model(item@), k@),
{
    match map_get_exec(item, k) {
        Some(m) => match m.as_mapping() {
            Some(ps) => pairs_as_map_exec(ps),
            None => StrMap::empty_values(),
        },
        None => StrMap::empty_values(),
    }
}

fn missing_type_error(index: usize) -> (r: String)
    ensures
        r@ == "子动作 "@ + decimal(index as nat) + " 缺少 'type' 参数"@,
{
    let mut msg = "子动作 ".to_string();
    let digits = decimal_string(index as u64);
    msg.append(digits.as_str());
    msg.append(" 缺少 'type' 参数");
    msg
}

/// The items of a composite action's `actions` parameter, in order.
pub fn plan_composite(spec: &ActionSpec) -> (r: Result<Vec<CompositeItem>, String>)
    ensures
        match r {
            Ok(items) => match param(spec@, "actions"@) {
                Some(m) => match model_seq(m) {
                    Some(vals) => items@.len() == vals.len()
                        && forall|i: int| 0 <= i < vals.len() ==> (#[trigger] items@[i]).view() == item_spec(vals[i], i as nat),
                    None => false,
                },
                None => false,
            },
            Err(e) => e@ == "复合动作缺少 'actions' 参数"@ && match param(spec@, "actions"@) {
                Some(m) => model_seq(m) is None,
                None => true,
            },
        },
{
    let actions = match get_param(spec, "actions") {
        Some(v) => match v.as_sequence() {
            Some(items) => items,
            None => return Err("复合动作缺少 'actions' 参数".to_string()),
        },
        None => return Err("复合动作缺少 'actions' 参数".to_string()),
    };
    proof {
        lemma_seq_model(actions@);
    }
    let mut out: Vec<CompositeItem> = Vec::new();
    let mut i: usize = 0;
    while i < actions.len()
        invariant
            i <= actions@.len(),
            seq_model(actions@).len() == actions@.len(),
            forall|k: int| 0 <= k < actions@.len() ==> #[trigger] seq_model(actions@)[k] == actions@[k].model(),
            out@.len() == i,
            forall|k: int| 0 <= k < i ==> (#[trigger] out@[k]).view() == item_spec(seq_model(actions@)[k], k as nat),
        decreases actions@.len() - i,
    {
        let item = match actions[i].as_mapping() {
            None => CompositeItem::Skip,
            Some(ps) => match map_get_exec(ps, "type") {
                Some(t) => match t.as_str() {
                    Some(ty) => CompositeItem::Run(ActionSpec {
                        action_type: ty.clone(),
                        parameters: sub_map_exec(ps, "parameters"),
                        outputs: sub_map_exec(ps, "outputs"),
                    }),
                    None => CompositeItem::Invalid(missing_type_error(i)),
                },
                None => CompositeItem::Invalid(missing_type_error(i)),
            },
        };
        proof {
            assert(seq_model(actions@)[i as int] == actions@[i as int].model());
        }
        out.push(item);
        i = i + 1;
    }
    Ok(out)
}

// ---------------------------------------------------------------------
// Outputs and context variables

/// The declared outputs of an action, each stored in the context under its
/// key (as the `Debug` text of the value).
#[verifier::spinoff_prover]
pub fn output_entries(spec: &ActionSpec) -> (r: Vec<(String, YamlValue)>)
    ensures
        r@.len() == spec.outputs.key_seq().len(),
        forall|i: int| 0 <= i < r@.len() ==> (#[trigger] r@[i]).0@ == spec.outputs.key_seq()[i]
            && r@[i].1.model() == spec.outputs.value_seq()[i].model(),
{
    let es = spec.outputs.entries();
    let mut out: Vec<(String, YamlValue)> = Vec::new();
    let mut i: usize = 0;
    proof {
        assert forall|k: int| 0 <= k < es@.len() implies #[trigger] es@[k].0@ == spec.outputs.key_seq()[k] && es@[k].1 == spec.outputs.value_seq()[k] by {
            assert(es@[k].0@ == spec.outputs.key_seq()[k]);
            assert(es@[k].1 == spec.outputs.value_seq()[k]);
        }
    }
    while i < es.len()
        invariant
            i <= es@.len(),
            es@.len() == spec.outputs.key_seq().len(),
            forall|k: int| 0 <= k < es@.len() ==> #[trigger] es@[k].0@ == spec.outputs.key_seq()[k] && es@[k].1 == spec.outputs.value_seq()[k],
            out@.len() == i,
            forall|k: int| 0 <= k < i ==> (#[trigger] out@[k]).0@ == spec.outputs.key_seq()[k]
                && out@[k].1.model() == spec.outputs.value_seq()[k].model(),
        decreases es@.len() - i,
    {
        proof {
            assert(es@[i as int].0@ == spec.outputs.key_seq()[i as int]);
        }
        out.push((es[i].0.clone(), es[i].1.duplicate()));
        i = i + 1;
    }
    out
}

/// The plan's variables as they are stored in the context before it runs:
/// `env.<name>` for each environment variable, then `flow.<name>` for each
/// flow variable.
pub fn context_entries(plan: &ExecutionPlan) -> (r: Vec<(String, YamlValue)>)
    ensures
        r@.len() == plan.env_vars.key_seq().len() + plan.flow_vars.key_seq().len(),
        forall|i: int| 0 <= i < plan.env_vars.key_seq().len() ==> (#[trigger] r@[i]).0@ == "env."@ + plan.env_vars.key_seq()[i]
            && r@[i].1.model() == plan.env_vars.value_seq()[i].model(),
        forall|i: int| 0 <= i < plan.flow_vars.key_seq().len() ==>
            (#[trigger] r@[plan.env_vars.key_seq().len() + i]).0@ == "flow."@ + plan.flow_vars.key_seq()[i]
            && r@[plan.env_vars.key_seq().len() + i].1.model() == plan.flow_vars.value_seq()[i].model(),
{
    let mut out: Vec<(String, YamlValue)> = Vec::new();
    let es = plan.env_vars.entries();
    proof {
        assert forall|k: int| 0 <= k < es@.len() implies #[trigger] es@[k].0@ == plan.env_vars.key_seq()[k] && es@[k].1 == plan.env_vars.value_seq()[k] by {
            assert(es@[k].0@ == plan.env_vars.key_seq()[k]);
        }
    }
    let mut i: usize = 0;
    while i < es.len()
        invariant
            i <= es@.len(),
            es@.len() == plan.env_vars.key_seq().len(),
            forall|k: int| 0 <= k < es@.len() ==> #[trigger] es@[k].0@ == plan.env_vars.key_seq()[k] && es@[k].1 == plan.env_vars.value_seq()[k],
            out@.len() == i,
            forall|k: int| 0 <= k < i ==> (#[trigger] out@[k]).0@ == "env."@ + plan.env_vars.key_seq()[k]
                && out@[k].1.model() == plan.env_vars.value_seq()[k].model(),
        decreases es@.len() - i,
    {
        proof {
            assert(es@[i as int].0@ == plan.env_vars.key_seq()[i as int]);
        }
        let mut key = "env.".to_string();
        key.append(es[i].0.as_str());
        out.push((key, es[i].1.duplicate()));
        i = i + 1;
    }
    let n = out.len();
    let fs = plan.flow_vars.entries();
    proof {
        assert forall|k: int| 0 <= k < fs@.len() implies #[trigger] fs@[k].0@ == plan.flow_vars.key_seq()[k] && fs@[k].1 == plan.flow_vars.value_seq()[k] by {
            assert(fs@[k].0@ == plan.flow_vars.key_seq()[k]);
        }
    }
    let mut j: usize = 0;
    while j < fs.len()
        invariant
            j <= fs@.len(),
            n == es@.len(),
            es@.len() == plan.env_vars.key_seq().len(),
            fs@.len() == plan.flow_vars.key_seq().len(),
            forall|k: int| 0 <= k < fs@.len() ==> #[trigger] fs@[k].0@ == plan.flow_vars.key_seq()[k] && fs@[k].1 == plan.flow_vars.value_seq()[k],
            out@.len() == n + j,
            forall|k: int| 0 <= k < n ==> (#[trigger] out@[k]).0@ == "env."@ + plan.env_vars.key_seq()[k]
                && out@[k].1.model() == plan.env_vars.value_seq()[k].model(),
            forall|k: int| 0 <= k < j ==> (#[trigger] out@[n + k]).0@ == "flow."@ + plan.flow_vars.key_seq()[k]
                && out@[n + k].1.model() == plan.flow_vars.value_seq()[k].model(),
        decreases fs@.len() - j,
    {
        proof {
            assert(fs@[j as int].0@ == plan.flow_vars.key_seq()[j as int]);
        }
        let mut key = "flow.".to_string();
        key.append(fs[j].0.as_str());
        let ghost before = out@;
        out.push((key, fs[j].1.duplicate()));
        proof {
            assert forall|k: int| 0 <= k < n implies (#[trigger] out@[k]) == before[k] by {}
            assert forall|k: int| 0 <= k < j implies (#[trigger] out@[n + k]) == before[n + k] by {}
        }
        j = j + 1;
    }
    out
}


// ---------------------------------------------------------------------
// Nodes: time limits and retries

/// A node's time limit in milliseconds: its own, else the executor's.
pub fn node_timeout_ms(node: &ExecutionNode, config: &ExecutorConfig) -> (r: u64)
    ensures
        r == match node.timeout_config {
            Some(t) => t.duration,
            None => config.default_timeout,
        },
{
    match &node.timeout_config {
        Some(t) => t.duration,
        None => config.default_timeout,
    }
}

/// How often a failed node is retried: as its retries say, else never.
pub fn node_max_retries(node: &ExecutionNode) -> (r: u32)
    ensures
        r == match node.retry_config {
            Some(c) => c.max_retries,
            None => 0,
        },
{
    match &node.retry_config {
        Some(c) => c.max_retries,
        None => 0,
    }
}

/// How long to wait before a retry: a number of milliseconds, or for
/// exponential growth the base delay, the multiplier (a decimal text) and
/// the power to raise it to, whose floating-point product is computed
/// outside.
#[derive(Debug)]
pub enum RetryDelay {
    Millis(u64),
    Exponential { base: u64, multiplier: String, exponent: u32 },
}

/// The delay before retry number `retries`: the fixed delay; the delay
/// plus `retries` increments; or the delay times the multiplier to the
/// power `retries`.
pub open spec fn delay_for(config: RetryConfig, retries: u32, r: RetryDelay) -> bool {
    match config.strategy {
        RetryStrategy::Fixed => r matches RetryDelay::Millis(d) && d == config.delay,
        RetryStrategy::Linear { increment } => r matches RetryDelay::Millis(d) && d == config.delay + increment * retries,
        RetryStrategy::Exponential { multiplier } => r matches RetryDelay::Exponential { base, multiplier: m, exponent }
            && base == config.delay && m@ == multiplier@ && exponent == retries,
    }
}

/// The delay before retry number `retries`: the fixed delay; the delay
/// plus `retries` increments; or the delay times the multiplier to the
/// power `retries`.
pub fn retry_delay(config: &RetryConfig, retries: u32) -> (r: RetryDelay)
    requires
        config.strategy matches RetryStrategy::Linear { increment } ==> config.delay + increment * retries <= u64::MAX,
    ensures
        delay_for(*config, retries, r),
{
    match &config.strategy {
        RetryStrategy::Fixed => RetryDelay::Millis(config.delay),
        RetryStrategy::Linear { increment } => {
            proof {
                assert(*increment * retries <= u64::MAX) by (nonlinear_arith)
                    requires
                        config.delay + *increment * retries <= u64::MAX,
                        config.delay >= 0;
            }
            RetryDelay::Millis(config.delay + *increment * (retries as u64))
        },
        RetryStrategy::Exponential { multiplier } => RetryDelay::Exponential {
            base: config.delay,
            multiplier: multiplier.clone(),
            exponent: retries,
        },
    }
}

/// What follows an attempt to run a node's action.
#[derive(Debug)]
pub enum AttemptDecision {
    /// The action succeeded.
    Succeeded,
    /// Try again, as retry number `retry_count`, after the delay if the node
    /// has retries configured.
    Retry { retry_count: u32, delay: Option<RetryDelay> },
    /// Give up with the last error.
    Failed { error: String },
}

/// After attempt `retries + 1`: success ends it; a failure is retried while
/// fewer than the node's maximum retries were made.
pub fn after_attempt(node: &ExecutionNode, retries: u32, outcome: Result<(), String>) -> (r: AttemptDecision)
    requires
        node.retry_config matches Some(c) ==> (c.strategy matches RetryStrategy::Linear { increment }
            ==> c.delay + increment * (retries + 1) <= u64::MAX),
    ensures
        match outcome {
            Ok(()) => r is Succeeded,
            Err(e) => {
                let max = match node.retry_config { Some(c) => c.max_retries, None => 0u32 };
                if retries < max {
                    r matches AttemptDecision::Retry { retry_count, delay } && retry_count == retries + 1
                        && match (node.retry_config, delay) {
                            (Some(c), Some(d)) => delay_for(c, (retries + 1) as u32, d),
                            (None, None) => true,
                            _ => false,
                        }
                } else {
                    r matches AttemptDecision::Failed { error } && error@ == e@
                }
            },
        },
{
    match outcome {
        Ok(()) => AttemptDecision::Succeeded,
        Err(e) => {
            let max = node_max_retries(node);
            if retries < max {
                let next = retries + 1;
                let delay = match &node.retry_config {
                    Some(c) => Some(retry_delay(c, next)),
                    None => None,
                };
                AttemptDecision::Retry { retry_count: next, delay }
            } else {
                AttemptDecision::Failed { error: e }
            }
        },
    }
}

/// The error of a node that ran out of time.
pub fn timeout_error(node: &ExecutionNode) -> (r: String)
    ensures
        r@ == "节点 "@ + node.name@ + " 执行超时"@,
{
    let mut msg = "节点 ".to_string();
    msg.append(node.name.as_str());
    msg.append(" 执行超时");
    msg
}

// ---------------------------------------------------------------------
// Results

impl NodeResult {
    /// A node's result as it starts: successful, no retries yet.
    pub fn started(node: &ExecutionNode) -> (r: Self)
        ensures
            r.node_id == node.id,
            r.node_name == node.name,
            r.end_time is None,
            r.success,
            r.error_message is None,
            r.retry_count == 0,
    {
        NodeResult {
            node_id: node.id.clone(),
            node_name: node.name.clone(),
            start_time: instant_now(),
            end_time: None,
            duration: zero_duration(),
            success: true,
            error_message: None,
            retry_count: 0,
        }
    }

    /// Marks a retry.
    pub fn record_retry(&mut self, retry_count: u32)
        ensures
            final(self).retry_count == retry_count,
            final(self).node_id == old(self).node_id,
            final(self).node_name == old(self).node_name,
            final(self).success == old(self).success,
            final(self).error_message == old(self).error_message,
            final(self).end_time == old(self).end_time,
    {
        self.retry_count = retry_count;
    }

    /// Ends the node: successful, or failed with an error; the end time and
    /// duration are taken now.
    pub fn finish(&mut self, error: Option<String>)
        ensures
            final(self).success == error is None,
            final(self).error_message == error,
            final(self).end_time is Some,
            final(self).retry_count == old(self).retry_count,
            final(self).node_id == old(self).node_id,
            final(self).node_name == old(self).node_name,
    {
        self.success = error.is_none();
        self.error_message = error;
        self.end_time = Some(instant_now());
        self.duration = elapsed_since(&self.start_time);
    }
}

impl PhaseResult {
    /// A phase's result as it starts: successful, no nodes yet.
    pub fn started(phase: &ExecutionPhase) -> (r: Self)
        ensures
            r.phase_id == phase.id,
            r.phase_name == phase.name,
            r.end_time is None,
            r.success,
            r.error_message is None,
            r.node_results@.len() == 0,
    {
        PhaseResult {
            phase_id: phase.id.clone(),
            phase_name: phase.name.clone(),
            start_time: instant_now(),
            end_time: None,
            duration: zero_duration(),
            success: true,
            error_message: None,
            node_results: Vec::new(),
        }
    }

    /// Ends the phase; the end time and duration are taken now.
    pub fn finish(&mut self)
        ensures
            final(self).end_time is Some,
            final(self).success == old(self).success,
            final(self).error_message == old(self).error_message,
            final(self).node_results == old(self).node_results,
            final(self).phase_id == old(self).phase_id,
            final(self).phase_name == old(self).phase_name,
    {
        self.end_time = Some(instant_now());
        self.duration = elapsed_since(&self.start_time);
    }
}

impl ExecutionResult {
    /// A plan's result as it starts: successful, no phases yet.
    pub fn started(plan: &ExecutionPlan) -> (r: Self)
        ensures
            r.plan_id == plan.metadata.plan_id,
            r.end_time is None,
            r.success,
            r.error_message is None,
            r.phase_results@.len() == 0,
    {
        ExecutionResult {
            plan_id: plan.metadata.plan_id.clone(),
            start_time: instant_now(),
            end_time: None,
            phase_results: Vec::new(),
            total_duration: zero_duration(),
            success: true,
            error_message: None,
        }
    }

    /// Records how a phase went; a failed phase is recorded without nodes,
    /// with its error, and the plan fails. The result says whether to go on.
    pub fn record_phase(&mut self, phase: &ExecutionPhase, phase_start: Instant, outcome: Result<PhaseResult, String>) -> (go_on: bool)
        ensures
            go_on == outcome is Ok,
            final(self).phase_results@.len() == old(self).phase_results@.len() + 1,
            forall|i: int| 0 <= i < old(self).phase_results@.len() ==> #[trigger] final(self).phase_results@[i] == old(self).phase_results@[i],
            final(self).plan_id == old(self).plan_id,
            match outcome {
                Ok(p) => final(self).phase_results@.last() == p
                    && final(self).success == old(self).success
                    && final(self).error_message == old(self).error_message,
                Err(e) => {
                    let p = final(self).phase_results@.last();
                    &&& !final(self).success
                    &&& final(self).error_message == Some(e)
                    &&& p.phase_id == phase.id && p.phase_name == phase.name
                    &&& !p.success && p.error_message == Some(e)
                    &&& p.node_results@.len() == 0 && p.end_time is Some
                },
            },
    {
        match outcome {
            Ok(p) => {
                self.phase_results.push(p);
                true
            },
            Err(e) => {
                self.success = false;
                self.error_message = Some(e.clone());
                let failed = PhaseResult {
                    phase_id: phase.id.clone(),
                    phase_name: phase.name.clone(),
                    start_time: phase_start,
                    end_time: Some(instant_now()),
                    duration: elapsed_since(&phase_start),
                    success: false,
                    error_message: Some(e),
                    node_results: Vec::new(),
                };
                self.phase_results.push(failed);
                false
            },
        }
    }

    /// Ends the plan; the end time and total duration are taken now.
    pub fn finish(&mut self)
        ensures
            final(self).end_time is Some,
            final(self).success == old(self).success,
            final(self).error_message == old(self).error_message,
            final(self).phase_results == old(self).phase_results,
            final(self).plan_id == old(self).plan_id,
    {
        self.end_time = Some(instant_now());
        self.total_duration = elapsed_since(&self.start_time);
    }
}

// ---------------------------------------------------------------------
// The executor

/// Number of node results of the phases.
pub open spec fn node_count(ps: Seq<PhaseResult>) -> nat
    decreases ps.len(),
{
    if ps.len() == 0 { 0 } else { node_count(ps.drop_last()) + ps.last().node_results@.len() }
}

/// Number of successful node results of the phases.
pub open spec fn success_count(ps: Seq<PhaseResult>) -> nat
    decreases ps.len(),
{
    if ps.len() == 0 { 0 } else { success_count(ps.drop_last()) + ok_nodes(ps.last().node_results@) }
}

pub open spec fn ok_nodes(ns: Seq<NodeResult>) -> nat
    decreases ns.len(),
{
    if ns.len() == 0 { 0 } else { ok_nodes(ns.drop_last()) + if ns.last().success { 1nat } else { 0nat } }
}

proof fn lemma_ok_le(ns: Seq<NodeResult>)
    ensures
        ok_nodes(ns) <= ns.len(),
    decreases ns.len(),
{
    if ns.len() > 0 {
        lemma_ok_le(ns.drop_last());
    }
}

proof fn lemma_success_le(ps: Seq<PhaseResult>)
    ensures
        success_count(ps) <= node_count(ps),
    decreases ps.len(),
{
    if ps.len() > 0 {
        lemma_success_le(ps.drop_last());
        lemma_ok_le(ps.last().node_results@);
    }
}

proof fn lemma_counts_prefix(ps: Seq<PhaseResult>, k: int)
    requires
        0 <= k <= ps.len(),
    ensures
        node_count(ps.take(k)) <= node_count(ps),
    decreases ps.len() - k,
{
    if k < ps.len() {
        lemma_counts_prefix(ps, k + 1);
        assert(ps.take(k + 1).drop_last() =~= ps.take(k));
    } else {
        assert(ps.take(k) =~= ps);
    }
}

/// The average time per node after a plan: the plan's whole nanoseconds,
/// cut to 64 bits, divided by the number of nodes counted so far; with no
/// node counted the average stays as it was.
pub open spec fn average_time(total: Duration, tasks: usize, before: Duration) -> Duration {
    if tasks > 0 {
        span_of_nanos(((whole_nanos(total) as int % 18446744073709551616) / (tasks as int)) as u64)
    } else {
        before
    }
}

fn copy_status(s: &ExecutorStatus) -> (r: ExecutorStatus)
    ensures
        r == *s,
{
    match s {
        ExecutorStatus::Idle => ExecutorStatus::Idle,
        ExecutorStatus::Running => ExecutorStatus::Running,
        ExecutorStatus::Stopped => ExecutorStatus::Stopped,
        ExecutorStatus::Error(e) => ExecutorStatus::Error(e.clone()),
    }
}

impl EnhancedTaskExecutor {
    pub closed spec fn settings(&self) -> ExecutorConfig {
        self.config
    }

    pub closed spec fn state(&self) -> ExecutorStatus {
        self.status
    }

    pub closed spec fn counters(&self) -> (usize, usize, usize, usize) {
        (self.stats.total_tasks, self.stats.successful_tasks, self.stats.failed_tasks, self.stats.skipped_tasks)
    }

    /// The total execution time and the average per node.
    pub closed spec fn timings(&self) -> (Duration, Duration) {
        (self.stats.total_execution_time, self.stats.average_execution_time)
    }

    /// An idle executor with the default settings and no statistics.
    pub fn new() -> (r: Self)
        ensures
            r.settings().max_concurrent_tasks == 10,
            r.settings().default_timeout == 30000,
            r.state() == ExecutorStatus::Idle,
            r.counters() == (0usize, 0usize, 0usize, 0usize),
            r.timings() == (span_of_nanos(0), span_of_nanos(0)),
    {
        Self::with_config(ExecutorConfig::default())
    }

    /// An idle executor with the given settings and no statistics.
    pub fn with_config(config: ExecutorConfig) -> (r: Self)
        ensures
            r.settings() == config,
            r.state() == ExecutorStatus::Idle,
            r.counters() == (0usize, 0usize, 0usize, 0usize),
            r.timings() == (span_of_nanos(0), span_of_nanos(0)),
    {
        EnhancedTaskExecutor {
            config,
            status: ExecutorStatus::Idle,
            stats: ExecutionStats {
                total_tasks: 0,
                successful_tasks: 0,
                failed_tasks: 0,
                skipped_tasks: 0,
                total_execution_time: zero_duration(),
                average_execution_time: zero_duration(),
            },
        }
    }

    /// The executor's settings.
    pub fn config(&self) -> (r: ExecutorConfig)
        ensures
            r == self.settings(),
    {
        self.config
    }

    /// The executor's state.
    pub fn status(&self) -> (r: ExecutorStatus)
        ensures
            r == self.state(),
    {
        copy_status(&self.status)
    }

    /// Marks a plan as running.
    pub fn begin_plan(&mut self)
        ensures
            final(self).state() == ExecutorStatus::Running,
            final(self).settings() == old(self).settings(),
            final(self).counters() == old(self).counters(),
            final(self).timings() == old(self).timings(),
    {
        self.status = ExecutorStatus::Running;
    }

    /// Marks the plan as done: the statistics take in its results, and the
    /// executor is idle again.
    pub fn end_plan(&mut self, result: &ExecutionResult)
        requires
            old(self).counters().0 + node_count(result.phase_results@) <= usize::MAX,
            old(self).counters().1 + node_count(result.phase_results@) <= usize::MAX,
            old(self).counters().2 + node_count(result.phase_results@) <= usize::MAX,
        ensures
            final(self).state() == ExecutorStatus::Idle,
            final(self).settings() == old(self).settings(),
            final(self).counters().0 == old(self).counters().0 + node_count(result.phase_results@),
            final(self).counters().1 == old(self).counters().1 + success_count(result.phase_results@),
            final(self).counters().2 == old(self).counters().2 + (node_count(result.phase_results@) - success_count(result.phase_results@)),
            final(self).counters().3 == old(self).counters().3,
            final(self).timings().0 == result.total_duration,
            final(self).timings().1 == average_time(result.total_duration, final(self).counters().0, old(self).timings().1),
    {
        self.update_stats(result);
        self.status = ExecutorStatus::Idle;
    }

    /// Counts the nodes of a finished plan, successful and failed, and
    /// takes its duration and the average per node.
    pub fn update_stats(&mut self, result: &ExecutionResult)
        requires
            old(self).counters().0 + node_count(result.phase_results@) <= usize::MAX,
            old(self).counters().1 + node_count(result.phase_results@) <= usize::MAX,
            old(self).counters().2 + node_count(result.phase_results@) <= usize::MAX,
        ensures
            final(self).state() == old(self).state(),
            final(self).settings() == old(self).settings(),
            final(self).counters().0 == old(self).counters().0 + node_count(result.phase_results@),
            final(self).counters().1 == old(self).counters().1 + success_count(result.phase_results@),
            final(self).counters().2 == old(self).counters().2 + (node_count(result.phase_results@) - success_count(result.phase_results@)),
            final(self).counters().3 == old(self).counters().3,
            final(self).timings().0 == result.total_duration,
            final(self).timings().1 == average_time(result.total_duration, final(self).counters().0, old(self).timings().1),
    {
        self.stats.total_execution_time = result.total_duration;
        let ps = &result.phase_results;
        let ghost t0 = self.stats.total_tasks;
        let ghost s0 = self.stats.successful_tasks;
        let ghost f0 = self.stats.failed_tasks;
        let mut i: usize = 0;
        proof {
            lemma_success_le(ps@);
        }
        while i < ps.len()
            invariant
                i <= ps@.len(),
                t0 + node_count(ps@) <= usize::MAX,
                s0 + node_count(ps@) <= usize::MAX,
                f0 + node_count(ps@) <= usize::MAX,
                self.stats.total_tasks == t0 + node_count(ps@.take(i as int)),
                self.stats.successful_tasks == s0 + success_count(ps@.take(i as int)),
                self.stats.failed_tasks == f0 + (node_count(ps@.take(i as int)) - success_count(ps@.take(i as int))),
                success_count(ps@.take(i as int)) <= node_count(ps@.take(i as int)),
                old(self).counters().1 == s0 && old(self).counters().0 == t0 && old(self).counters().2 == f0,
                self.stats.skipped_tasks == old(self).counters().3,
                self.stats.total_execution_time == result.total_duration,
                self.stats.average_execution_time == old(self).timings().1,
                self.config == old(self).settings(),
                self.status == old(self).state(),
            decreases ps@.len() - i,
        {
            let nodes = &ps[i].node_results;
            proof {
                assert(ps@.take(i as int + 1).drop_last() =~= ps@.take(i as int));
                assert(ps@.take(i as int + 1).last() == ps@[i as int]);
                lemma_counts_prefix(ps@, i as int + 1);
                lemma_success_le(ps@.take(i as int + 1));
            }
            let mut j: usize = 0;
            while j < nodes.len()
                invariant
                    j <= nodes@.len(),
                    i < ps@.len(),
                    *nodes == ps@[i as int].node_results,
                    t0 + node_count(ps@.take(i as int)) + nodes@.len() <= usize::MAX,
                    s0 + node_count(ps@.take(i as int)) + nodes@.len() <= usize::MAX,
                    f0 + node_count(ps@.take(i as int)) + nodes@.len() <= usize::MAX,
                    self.stats.total_tasks == t0 + node_count(ps@.take(i as int)) + j,
                    self.stats.successful_tasks == s0 + success_count(ps@.take(i as int)) + ok_nodes(nodes@.take(j as int)),
                    self.stats.failed_tasks == f0 + (node_count(ps@.take(i as int)) - success_count(ps@.take(i as int))) + (j - ok_nodes(nodes@.take(j as int))),
                    ok_nodes(nodes@.take(j as int)) <= j,
                    success_count(ps@.take(i as int)) <= node_count(ps@.take(i as int)),
                    self.stats.skipped_tasks == old(self).counters().3,
                    self.stats.total_execution_time == result.total_duration,
                    self.stats.average_execution_time == old(self).timings().1,
                    self.config == old(self).settings(),
                    self.status == old(self).state(),
                decreases nodes@.len() - j,
            {
                proof {
                    assert(nodes@.take(j as int + 1).drop_last() =~= nodes@.take(j as int));
                    assert(nodes@.take(j as int + 1).last() == nodes@[j as int]);
                }
                self.stats.total_tasks = self.stats.total_tasks + 1;
                if nodes[j].success {
                    self.stats.successful_tasks = self.stats.successful_tasks + 1;
                } else {
                    self.stats.failed_tasks = self.stats.failed_tasks + 1;
                }
                j = j + 1;
            }
            proof {
                assert(nodes@.take(nodes@.len() as int) =~= nodes@);
            }
            i = i + 1;
        }
        proof {
            assert(ps@.take(ps@.len() as int) =~= ps@);
        }
        if self.stats.total_tasks > 0 {
            let total = duration_nanos(&self.stats.total_execution_time);
            let tasks = self.stats.total_tasks as u64;
            let truncated: u64 = (total % 18446744073709551616u128) as u64;
            self.stats.average_execution_time = duration_from_nanos(truncated / tasks);
        }
    }

    /// The statistics.
    pub fn get_stats(&self) -> (r: &ExecutionStats)
        ensures
            (r.total_tasks, r.successful_tasks, r.failed_tasks, r.skipped_tasks) == self.counters(),
            (r.total_execution_time, r.average_execution_time) == self.timings(),
    {
        &self.stats
    }

    /// Stops the executor; stopping always succeeds.
    pub fn stop(&mut self) -> (r: Result<(), String>)
        ensures
            r is Ok,
            final(self).state() == ExecutorStatus::Stopped,
            final(self).settings() == old(self).settings(),
            final(self).counters() == old(self).counters(),
            final(self).timings() == old(self).timings(),
    {
        self.status = ExecutorStatus::Stopped;
        Ok(())
    }
}

impl Executor for EnhancedTaskExecutor {
    type Input = (ExecutionPlan, FlowContext);
    type Output = ExecutionResult;
    type Error = String;

    fn status(&self) -> (r: ExecutorStatus)
        ensures
            r == self.state(),
    {
        EnhancedTaskExecutor::status(self)
    }

    fn stop(&mut self) -> (r: Result<(), String>)
        ensures
            r is Ok,
            final(self).state() == ExecutorStatus::Stopped,
            final(self).settings() == old(self).settings(),
            final(self).counters() == old(self).counters(),
            final(self).timings() == old(self).timings(),
    {
        EnhancedTaskExecutor::stop(self)
    }
}

} // verus!

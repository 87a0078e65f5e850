use vstd::prelude::*;

use crate::assoc::{
    assoc_map, has_key, keys_distinct, lemma_assoc_at, lemma_assoc_push, lemma_assoc_remove,
    lemma_assoc_update,
};
use crate::auth::session::ExecutionContext;
use crate::error::{DbError, ExecError, PlanError};
use crate::text::{chars_of, push_str, spec_trim, str_equal, string_of, trim_chars};

verus! {

/// Deployment settings of an edge function.
#[derive(Debug, Clone)]
pub struct FunctionMetadata {
    pub name: String,
    pub runtime: String,
    pub entrypoint: String,
    pub timeout_ms: u64,
    pub env: Vec<(String, String)>,
    pub verify_jwt: bool,
    pub created_at: u64,
}

/// A deployed function: its settings and script.
#[derive(Debug, Clone)]
pub struct DeployedFunction {
    pub metadata: FunctionMetadata,
    pub script: String,
}

/// The abstract content of function settings.
pub struct MetadataView {
    pub name: Seq<char>,
    pub runtime: Seq<char>,
    pub entrypoint: Seq<char>,
    pub timeout_ms: u64,
    pub env: Seq<(Seq<char>, Seq<char>)>,
    pub verify_jwt: bool,
    pub created_at: u64,
}

impl View for FunctionMetadata {
    type V = MetadataView;

    open spec fn view(&self) -> MetadataView {
        MetadataView {
            name: self.name@,
            runtime: self.runtime@,
            entrypoint: self.entrypoint@,
            timeout_ms: self.timeout_ms,
            env: Seq::new(self.env@.len(), |i: int| (self.env@[i].0@, self.env@[i].1@)),
            verify_jwt: self.verify_jwt,
            created_at: self.created_at,
        }
    }
}

impl View for DeployedFunction {
    type V = (MetadataView, Seq<char>);

    open spec fn view(&self) -> (MetadataView, Seq<char>) {
        (self.metadata@, self.script@)
    }
}

fn copy_env(env: &Vec<(String, String)>) -> (r: Vec<(String, String)>)
    ensures
        r@.len() == env@.len(),
        forall|i: int| 0 <= i < env@.len() ==> #[trigger] r@[i].0@ == env@[i].0@ && r@[i].1@ == env@[i].1@,
{
    let mut r: Vec<(String, String)> = Vec::new();
    let mut i: usize = 0;
    while i < env.len()
        invariant
            i <= env@.len(),
            r@.len() == i,
            forall|j: int| 0 <= j < i ==> #[trigger] r@[j].0@ == env@[j].0@ && r@[j].1@ == env@[j].1@,
        decreases env@.len() - i,
    {
        r.push((env[i].0.clone(), env[i].1.clone()));
        i = i + 1;
    }
    r
}

impl FunctionMetadata {
    /// A copy of the settings.
    pub fn copy(&self) -> (r: Self)
        ensures
            r@ == self@,
    {
        let env = copy_env(&self.env);
        let r = FunctionMetadata {
            name: self.name.clone(),
            runtime: self.runtime.clone(),
            entrypoint: self.entrypoint.clone(),
            timeout_ms: self.timeout_ms,
            env,
            verify_jwt: self.verify_jwt,
            created_at: self.created_at,
        };
        assert(r@.env =~= self@.env);
        r
    }
}

impl DeployedFunction {
    /// A copy of the deployed function.
    pub fn copy(&self) -> (r: Self)
        ensures
            r@ == self@,
    {
        DeployedFunction { metadata: self.metadata.copy(), script: self.script.clone() }
    }
}

/// The name a deployed function is registered under.
pub open spec fn function_name(f: DeployedFunction) -> Seq<char> {
    f.metadata.name@
}

/// The content of a deployed function.
pub open spec fn function_content(f: DeployedFunction) -> (MetadataView, Seq<char>) {
    f@
}

/// Deployed functions are keyed by name.
pub open spec fn name_key() -> spec_fn(DeployedFunction) -> Seq<char> {
    |f: DeployedFunction| function_name(f)
}

/// Deployed functions are mapped to their content.
pub open spec fn content_val() -> spec_fn(DeployedFunction) -> (MetadataView, Seq<char>) {
    |f: DeployedFunction| function_content(f)
}

/// The deployed functions, by name.
#[derive(Debug)]
pub struct FunctionRegistry {
    functions: Vec<DeployedFunction>,
}

/// The message of the error for a function deployed without a name.
pub open spec fn empty_name_message() -> Seq<char> {
    "function name cannot be empty"@
}

impl FunctionRegistry {
    /// Each name is registered once.
    #[verifier::type_invariant]
    spec fn names_distinct(&self) -> bool {
        keys_distinct(self.functions@, name_key())
    }

    /// The deployed functions by name.
    pub closed spec fn deployed(&self) -> Map<Seq<char>, (MetadataView, Seq<char>)> {
        assoc_map(self.functions@, name_key(), content_val())
    }

    /// A registry with nothing deployed.
    pub fn new() -> (r: Self)
        ensures
            r.deployed() == Map::<Seq<char>, (MetadataView, Seq<char>)>::empty(),
    {
        let r = FunctionRegistry { functions: Vec::new() };
        assert(r.deployed() =~= Map::<Seq<char>, (MetadataView, Seq<char>)>::empty());
        r
    }

    fn position(&self, name: &str) -> (r: Option<usize>)
        ensures
            r matches Some(i) ==> i < self.functions@.len() && function_name(self.functions@[i as int])
                == name@,
            r is None ==> !has_key(self.functions@, name_key(), name@),
    {
        let mut i: usize = 0;
        while i < self.functions.len()
            invariant
                i <= self.functions@.len(),
                forall|j: int| 0 <= j < i ==> function_name(self.functions@[j]) != name@,
            decreases self.functions@.len() - i,
        {
            if str_equal(self.functions[i].metadata.name.as_str(), name) {
                return Some(i);
            }
            i = i + 1;
        }
        None
    }

    /// Deploys a function under its name, replacing an earlier one; a name that is empty
    /// after trimming is refused.
    pub fn deploy(&mut self, meta: FunctionMetadata, script: String) -> (r: Result<(), DbError>)
        ensures
            spec_trim(meta.name@).len() == 0 ==> (r matches Err(DbError::Plan(PlanError::InvalidSchema(m)))
                && m@ == empty_name_message()) && final(self).deployed() == old(self).deployed(),
            spec_trim(meta.name@).len() > 0 ==> r is Ok && final(self).deployed() == old(
                self,
            ).deployed().insert(meta.name@, (meta@, script@)),
    {
        let trimmed = trim_chars(chars_of(meta.name.as_str()).as_slice());
        if trimmed.len() == 0 {
            return Err(
                DbError::Plan(PlanError::InvalidSchema(String::from_str("function name cannot be empty"))),
            );
        }
        proof {
            use_type_invariant(&*self);
        }
        let ghost key = name_key();
        let ghost val = content_val();
        let pos = self.position(meta.name.as_str());
        let f = DeployedFunction { metadata: meta, script };
        let mut fs: Vec<DeployedFunction> = Vec::new();
        std::mem::swap(&mut fs, &mut self.functions);
        let ghost before = fs@;
        match pos {
            Some(i) => {
                proof {
                    lemma_assoc_update(before, key, val, i as int, f);
                }
                fs.set(i, f);
            },
            None => {
                proof {
                    lemma_assoc_push(before, key, val, f);
                }
                fs.push(f);
            },
        }
        self.functions = fs;
        Ok(())
    }

    /// The function deployed under `name`.
    pub fn get(&self, name: &str) -> (r: Option<DeployedFunction>)
        ensures
            r is Some == self.deployed().contains_key(name@),
            r matches Some(f) ==> f@ == self.deployed()[name@],
    {
        proof {
            use_type_invariant(self);
        }
        match self.position(name) {
            Some(i) => {
                proof {
                    lemma_assoc_at(self.functions@, name_key(), content_val(), i as int);
                }
                Some(self.functions[i].copy())
            },
            None => None,
        }
    }

    /// The settings of every deployed function, each once.
    pub fn list(&self) -> (r: Vec<FunctionMetadata>)
        ensures
            r@.len() == self.deployed().len(),
            forall|i: int|
                0 <= i < r@.len() ==> self.deployed().contains_key(#[trigger] r@[i]@.name)
                    && self.deployed()[r@[i]@.name].0 == r@[i]@,
            forall|k: Seq<char>| #[trigger]
                self.deployed().contains_key(k) ==> exists|i: int| 0 <= i < r@.len() && r@[i]@.name == k,
    {
        proof {
            use_type_invariant(self);
        }
        let ghost key = name_key();
        let ghost val = content_val();
        let ghost s = self.functions@;
        let mut r: Vec<FunctionMetadata> = Vec::new();
        let mut i: usize = 0;
        while i < self.functions.len()
            invariant
                s == self.functions@,
                keys_distinct(s, key),
                key == name_key(),
                val == content_val(),
                i <= s.len(),
                r@.len() == i,
                forall|j: int| 0 <= j < i ==> #[trigger] r@[j]@ == s[j].metadata@,
            decreases s.len() - i,
        {
            r.push(self.functions[i].metadata.copy());
            i = i + 1;
        }
        proof {
            assert forall|j: int| 0 <= j < r@.len() implies self.deployed().contains_key(#[trigger] r@[j]@.name)
                && self.deployed()[r@[j]@.name].0 == r@[j]@ by {
                lemma_assoc_at(s, key, val, j);
            }
            assert forall|k: Seq<char>| #[trigger]
                self.deployed().contains_key(k) implies exists|j: int| 0 <= j < r@.len() && r@[j]@.name == k by {
                let j = choose|j: int| 0 <= j < s.len() && key(s[j]) == k;
                assert(r@[j]@.name == k);
            }
            lemma_assoc_len(s, key, val);
        }
        r
    }

    /// Removes the function deployed under `name`; whether one was.
    pub fn delete(&mut self, name: &str) -> (b: bool)
        ensures
            b == old(self).deployed().contains_key(name@),
            final(self).deployed() == old(self).deployed().remove(name@),
    {
        proof {
            use_type_invariant(&*self);
        }
        let ghost key = name_key();
        let ghost val = content_val();
        match self.position(name) {
            Some(i) => {
                let mut fs: Vec<DeployedFunction> = Vec::new();
                std::mem::swap(&mut fs, &mut self.functions);
                proof {
                    lemma_assoc_remove(fs@, key, val, i as int);
                    lemma_assoc_at(fs@, key, val, i as int);
                }
                fs.remove(i);
                self.functions = fs;
                true
            },
            None => {
                assert(old(self).deployed().remove(name@) =~= old(self).deployed());
                false
            },
        }
    }
}

/// How an invocation of a function is carried out.
#[derive(Debug)]
pub enum Invocation {
    /// Inside the server's sandbox, for the given runtime.
    InProcess { runtime: String },
    /// As a shell script in a child process, stopped after `timeout_ms` milliseconds, with
    /// the given extra environment.
    Subprocess { script: String, timeout_ms: u64, env: Vec<(String, String)> },
}

/// Runtimes run inside the server.
pub open spec fn in_process_runtime(r: Seq<char>) -> bool {
    r == "wasm"@ || r == "wasm-sandbox"@ || r == "embedded-js"@ || r == "isolated-js"@ || r
        == "sandbox"@ || r == "transform"@ || r == "default"@ || r == "json-worker"@
}

/// The message for a function that is not deployed.
pub open spec fn not_found_message(name: Seq<char>) -> Seq<char> {
    "function '"@ + name + "' not found"@
}

/// The message for an anonymous call of a function that requires a signed-in caller.
pub open spec fn auth_required_message() -> Seq<char> {
    "authentication required to invoke function"@
}

/// How a call of `name` by the caller of `ctx` is carried out, or why it is refused.
pub open spec fn invocation_ok(
    deployed: Map<Seq<char>, (MetadataView, Seq<char>)>,
    name: Seq<char>,
    ctx: ExecutionContext,
    r: Result<Invocation, DbError>,
) -> bool {
    if !deployed.contains_key(name) {
        r matches Err(DbError::Plan(PlanError::NoSuchTable(m))) && m@ == not_found_message(name)
    } else {
        let (meta, script) = deployed[name];
        if meta.verify_jwt && ctx.user_id is None && !ctx.is_admin {
            r matches Err(DbError::Exec(ExecError::InvalidValue(m))) && m@ == auth_required_message()
        } else if in_process_runtime(meta.runtime) || spec_trim(script).len() == 0 {
            r matches Ok(Invocation::InProcess { runtime }) && runtime@ == meta.runtime
        } else {
            r matches Ok(Invocation::Subprocess { script: sc, timeout_ms, env }) && sc@ == spec_trim(
                script,
            ) && timeout_ms == (if meta.timeout_ms == 0 {
                5000
            } else {
                meta.timeout_ms
            }) && Seq::new(env@.len(), |i: int| (env@[i].0@, env@[i].1@)) == meta.env
        }
    }
}

fn is_in_process(r: &str) -> (b: bool)
    ensures
        b == in_process_runtime(r@),
{
    str_equal(r, "wasm") || str_equal(r, "wasm-sandbox") || str_equal(r, "embedded-js") || str_equal(
        r,
        "isolated-js",
    ) || str_equal(r, "sandbox") || str_equal(r, "transform") || str_equal(r, "default")
        || str_equal(r, "json-worker")
}

impl FunctionRegistry {
    /// Decides how a call of `name` by the caller of `ctx` runs: refused when nothing is
    /// deployed under the name or when the function wants a signed-in caller and gets
    /// none; in the server for sandbox runtimes and empty scripts; otherwise as a script.
    pub fn prepare_invocation(&self, name: &str, ctx: &ExecutionContext) -> (r: Result<Invocation, DbError>)
        ensures
            invocation_ok(self.deployed(), name@, *ctx, r),
    {
        let f = match self.get(name) {
            Some(f) => f,
            None => {
                let mut m: Vec<char> = Vec::new();
                push_str(&mut m, "function '");
                push_str(&mut m, name);
                push_str(&mut m, "' not found");
                assert(m@ =~= not_found_message(name@));
                return Err(DbError::Plan(PlanError::NoSuchTable(string_of(m.as_slice()))));
            },
        };
        if f.metadata.verify_jwt && !ctx.is_authenticated() && !ctx.is_admin {
            return Err(
                DbError::Exec(
                    ExecError::InvalidValue(
                        String::from_str("authentication required to invoke function"),
                    ),
                ),
            );
        }
        let script = trim_chars(chars_of(f.script.as_str()).as_slice());
        if is_in_process(f.metadata.runtime.as_str()) || script.len() == 0 {
            return Ok(Invocation::InProcess { runtime: f.metadata.runtime });
        }
        let timeout_ms = if f.metadata.timeout_ms == 0 {
            5000
        } else {
            f.metadata.timeout_ms
        };
        let env = copy_env(&f.metadata.env);
        let r = Invocation::Subprocess { script: string_of(script.as_slice()), timeout_ms, env };
        assert(Seq::new(env@.len(), |i: int| (env@[i].0@, env@[i].1@)) =~= f.metadata@.env);
        Ok(r)
    }
}

/// A map built from entries with distinct keys has one key per entry.
pub proof fn lemma_assoc_len<T, K, V>(s: Seq<T>, key: spec_fn(T) -> K, val: spec_fn(T) -> V)
    requires
        keys_distinct(s, key),
    ensures
        assoc_map(s, key, val).dom().finite(),
        assoc_map(s, key, val).len() == s.len(),
    decreases s.len(),
{
    if s.len() == 0 {
        assert(assoc_map(s, key, val) =~= Map::<K, V>::empty());
    } else {
        let t = s.drop_last();
        assert(keys_distinct(t, key)) by {
            assert forall|i: int, j: int| 0 <= i < t.len() && 0 <= j < t.len() && i != j implies key(t[i]) != key(t[j]) by {
                assert(t[i] == s[i]);
                assert(t[j] == s[j]);
            }
        }
        lemma_assoc_len(t, key, val);
        assert(!has_key(t, key, key(s.last()))) by {
            if has_key(t, key, key(s.last())) {
                let i = choose|i: int| 0 <= i < t.len() && key(t[i]) == key(s.last());
                assert(t[i] == s[i]);
                assert(s.last() == s[s.len() - 1]);
            }
        }
        lemma_assoc_push(t, key, val, s.last());
        assert(t.push(s.last()) =~= s);
    }
}

/// A member of the object that a function run in the server answers with.
#[derive(Debug, Clone, PartialEq)]
pub enum WorkerValue {
    /// A JSON string.
    Str(String),
    /// A JSON value passed on as it came, as JSON text.
    Raw(String),
    /// A JSON integer.
    Int(i64),
    /// The caller: `{"user_id": .., "role": ..}`, each JSON null when absent.
    Caller(Option<i64>, Option<String>),
}

/// What a `WorkerValue` holds.
pub enum WorkerValueView {
    Str(Seq<char>),
    Raw(Seq<char>),
    Int(int),
    Caller(Option<i64>, Option<Seq<char>>),
}

impl View for WorkerValue {
    type V = WorkerValueView;

    open spec fn view(&self) -> WorkerValueView {
        match self {
            WorkerValue::Str(s) => WorkerValueView::Str(s@),
            WorkerValue::Raw(s) => WorkerValueView::Raw(s@),
            WorkerValue::Int(n) => WorkerValueView::Int(*n as int),
            WorkerValue::Caller(u, r) => WorkerValueView::Caller(
                *u,
                match r {
                    Some(x) => Some(x@),
                    None => None,
                },
            ),
        }
    }
}

/// A member of a JSON object payload: its key, its JSON text, and its value as an
/// integer when it is an integer that fits in `i64`.
#[derive(Debug, Clone)]
pub struct PayloadField {
    pub key: String,
    pub json: String,
    pub int_value: Option<i64>,
}

/// The caller's role as text.
pub open spec fn role_view(r: Option<String>) -> Option<Seq<char>> {
    match r {
        Some(x) => Some(x@),
        None => None,
    }
}

/// The views of a payload's members.
pub open spec fn fields_view(fs: Seq<PayloadField>) -> Seq<(Seq<char>, Seq<char>, Option<i64>)> {
    Seq::new(fs.len(), |i: int| (fs[i].key@, fs[i].json@, fs[i].int_value))
}

/// The views of an answer's members.
pub open spec fn answer_view(es: Seq<(String, WorkerValue)>) -> Seq<(Seq<char>, WorkerValueView)> {
    Seq::new(es.len(), |i: int| (es[i].0@, es[i].1@))
}

/// The first member of the payload under key `k`.
pub open spec fn member(fs: Seq<(Seq<char>, Seq<char>, Option<i64>)>, k: Seq<char>) -> Option<(Seq<char>, Seq<char>, Option<i64>)>
    decreases fs.len(),
{
    if fs.len() == 0 {
        None
    } else if fs[0].0 == k {
        Some(fs[0])
    } else {
        member(fs.drop_first(), k)
    }
}

proof fn lemma_member_key(fs: Seq<(Seq<char>, Seq<char>, Option<i64>)>, k: Seq<char>)
    ensures
        member(fs, k) matches Some(f) ==> f.0 == k,
    decreases fs.len(),
{
    if fs.len() > 0 && fs[0].0 != k {
        lemma_member_key(fs.drop_first(), k);
    }
}

/// Whether the answer already holds key `k`.
pub open spec fn answer_holds(es: Seq<(Seq<char>, WorkerValueView)>, k: Seq<char>) -> bool {
    exists|i: int| 0 <= i < es.len() && (#[trigger] es[i]).0 == k
}

/// The members every in-server answer starts with, then `echo` (the payload's `echo`
/// member as it came) and `result` (twice the payload's integer `calc` member) when
/// the payload has them.
pub open spec fn answer_head(
    name: Seq<char>,
    runtime: Seq<char>,
    input: Seq<char>,
    uid: Option<i64>,
    role: Option<Seq<char>>,
    fs: Seq<(Seq<char>, Seq<char>, Option<i64>)>,
) -> Seq<(Seq<char>, WorkerValueView)> {
    let base = seq![
        ("function"@, WorkerValueView::Str(name)),
        ("runtime"@, WorkerValueView::Str(runtime)),
        ("status"@, WorkerValueView::Str("executed"@)),
        ("input"@, WorkerValueView::Raw(input)),
        ("caller"@, WorkerValueView::Caller(uid, role)),
    ];
    let with_echo = match member(fs, "echo"@) {
        Some(f) => base.push(("echo"@, WorkerValueView::Raw(f.1))),
        None => base,
    };
    match member(fs, "calc"@) {
        Some(f) => match f.2 {
            Some(n) => with_echo.push(("result"@, WorkerValueView::Int(2 * n))),
            None => with_echo,
        },
        None => with_echo,
    }
}

/// Each payload member `k`, in order, copied as `out_k` unless the answer already holds
/// a member named `k`.
pub open spec fn add_out_members(
    es: Seq<(Seq<char>, WorkerValueView)>,
    fs: Seq<(Seq<char>, Seq<char>, Option<i64>)>,
) -> Seq<(Seq<char>, WorkerValueView)>
    decreases fs.len(),
{
    if fs.len() == 0 {
        es
    } else {
        let before = add_out_members(es, fs.drop_last());
        let f = fs.last();
        if answer_holds(before, f.0) {
            before
        } else {
            before.push(("out_"@ + f.0, WorkerValueView::Raw(f.1)))
        }
    }
}

fn answer_holds_exec(es: &Vec<(String, WorkerValue)>, k: &str) -> (r: bool)
    ensures
        r == answer_holds(answer_view(es@), k@),
{
    let mut i: usize = 0;
    while i < es.len()
        invariant
            i <= es@.len(),
            forall|j: int| 0 <= j < i ==> (#[trigger] answer_view(es@)[j]).0 != k@,
        decreases es@.len() - i,
    {
        if str_equal(es[i].0.as_str(), k) {
            assert(answer_view(es@)[i as int].0 == k@);
            return true;
        }
        i = i + 1;
    }
    false
}

fn member_exec(fs: &Vec<PayloadField>, k: &str) -> (r: Option<usize>)
    ensures
        match member(fields_view(fs@), k@) {
            Some(f) => r matches Some(i) && i < fs@.len() && fields_view(fs@)[i as int] == f,
            None => r is None,
        },
{
    let ghost v = fields_view(fs@);
    let mut i: usize = 0;
    assert(v.skip(0) =~= v);
    while i < fs.len()
        invariant
            i <= fs@.len(),
            v == fields_view(fs@),
            member(v, k@) == member(v.skip(i as int), k@),
        decreases fs@.len() - i,
    {
        assert(v.skip(i as int)[0] == v[i as int]);
        if str_equal(fs[i].key.as_str(), k) {
            return Some(i);
        }
        assert(v.skip(i as int).drop_first() =~= v.skip(i + 1));
        i = i + 1;
    }
    None
}

fn copy_opt_string(s: &Option<String>) -> (r: Option<String>)
    ensures
        r matches Some(x) ==> s matches Some(y) && x@ == y@,
        r is None <==> s is None,
{
    match s {
        Some(x) => Some(x.clone()),
        None => None,
    }
}

/// The answer of a function run in the server (sandbox runtimes and empty scripts):
/// its name, runtime, status and input, the caller's identity, the payload's `echo`
/// member, twice its integer `calc` member, and a copy `out_k` of every payload member
/// `k` whose name the answer does not hold yet. `fields` are the payload's members in
/// order, empty when the payload is no JSON object.
pub fn in_process_answer(
    name: &str,
    runtime: &str,
    input: &str,
    fields: &Vec<PayloadField>,
    ctx: &ExecutionContext,
) -> (r: Vec<(String, WorkerValue)>)
    requires
        forall|i: int|
            0 <= i < fields@.len() && (#[trigger] fields@[i]).key@ == "calc"@ && fields@[i].int_value is Some
                ==> i64::MIN <= 2 * fields@[i].int_value.unwrap() <= i64::MAX,
    ensures
        answer_view(r@) == add_out_members(
            answer_head(
                name@,
                runtime@,
                input@,
                ctx.user_id,
                role_view(ctx.role),
                fields_view(fields@),
            ),
            fields_view(fields@),
        ),
{
    let ghost fv = fields_view(fields@);
    let ghost role = role_view(ctx.role);
    let mut out: Vec<(String, WorkerValue)> = Vec::new();
    out.push((String::from_str("function"), WorkerValue::Str(name.to_string())));
    out.push((String::from_str("runtime"), WorkerValue::Str(runtime.to_string())));
    out.push((String::from_str("status"), WorkerValue::Str(String::from_str("executed"))));
    out.push((String::from_str("input"), WorkerValue::Raw(input.to_string())));
    let role_copy = copy_opt_string(&ctx.role);
    out.push((String::from_str("caller"), WorkerValue::Caller(ctx.user_id, role_copy)));
    proof {
        reveal_strlit("function");
        reveal_strlit("runtime");
        reveal_strlit("status");
        reveal_strlit("executed");
        reveal_strlit("input");
        reveal_strlit("caller");
    }
    if let Some(i) = member_exec(fields, "echo") {
        out.push((String::from_str("echo"), WorkerValue::Raw(fields[i].json.clone())));
        proof {
            reveal_strlit("echo");
        }
    }
    if let Some(i) = member_exec(fields, "calc") {
        if let Some(n) = fields[i].int_value {
            proof {
                reveal_strlit("calc");
                lemma_member_key(fv, "calc"@);
                assert(fv[i as int].0 == "calc"@);
                assert(fields@[i as int].key@ == "calc"@);
            }
            out.push((String::from_str("result"), WorkerValue::Int(2 * n)));
            proof {
                reveal_strlit("result");
            }
        }
    }
    let ghost head = answer_head(name@, runtime@, input@, ctx.user_id, role, fv);
    assert(answer_view(out@) =~= head);
    let mut k: usize = 0;
    assert(fv.take(0) =~= Seq::<(Seq<char>, Seq<char>, Option<i64>)>::empty());
    while k < fields.len()
        invariant
            k <= fields@.len(),
            fv == fields_view(fields@),
            answer_view(out@) == add_out_members(head, fv.take(k as int)),
        decreases fields@.len() - k,
    {
        assert(fv.take(k + 1).drop_last() =~= fv.take(k as int));
        assert(fv.take(k + 1).last() == fv[k as int]);
        if !answer_holds_exec(&out, fields[k].key.as_str()) {
            let mut key: Vec<char> = Vec::new();
            push_str(&mut key, "out_");
            push_str(&mut key, fields[k].key.as_str());
            let ghost before = answer_view(out@);
            out.push((string_of(key.as_slice()), WorkerValue::Raw(fields[k].json.clone())));
            assert(answer_view(out@) =~= before.push(("out_"@ + fv[k as int].0, WorkerValueView::Raw(fv[k as int].1))));
        }
        k = k + 1;
    }
    assert(fv.take(fields@.len() as int) =~= fv);
    out
}

} // verus!

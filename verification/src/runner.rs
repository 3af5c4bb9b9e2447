//! The sandboxed script runner: byte-size limits are enforced before any
//! guest work, and every accepted invocation is delegated to a dedicated
//! worker thread outside the verified core, joined there against the
//! wall-clock budget.  The expression-language evaluation the worker calls
//! lives here: sources are compiled once and cached by source hash, the
//! engine carries no clock, and the answer is deterministic in the limits,
//! the source, and the arguments.

use vstd::prelude::*;
use vstd::string::StringSliceAdditionalSpecFns;

verus! {

/// A guest language of the runner.
#[derive(Debug, Clone, Copy, PartialEq, Eq, Structural)]
pub enum Lang {
    Python,
    JavaScript,
    RustLite,
}

/// A script failure, as the caller sees it.
#[derive(Debug, Clone, Copy, PartialEq, Eq, Structural)]
pub enum ScriptError {
    /// The source or the arguments exceed the configured byte limits.
    TooLarge,
    /// The source does not compile.
    CompileError,
    /// Evaluation failed, ran over the operation budget, or produced an
    /// unconvertible value.
    RuntimeError,
    /// A worker thread outlived the wall-clock budget.
    Timeout,
}

/// The per-invocation resource limits.
#[derive(Debug, Clone, Copy, PartialEq, Eq, Structural)]
pub struct RunnerLimits {
    pub max_time_ms: u64,
    pub max_code_bytes: usize,
    pub max_args_bytes: usize,
    pub rhai_max_ops: u64,
    pub rhai_max_call_depth: u64,
}

impl Default for RunnerLimits {
    /// The default limits: a 200 ms wall clock, 128 KiB of source, 64 KiB of
    /// arguments, and the expression-language operation and call-depth
    /// budgets.
    fn default() -> (r: RunnerLimits)
        ensures
            r.max_time_ms == 200,
            r.max_code_bytes == 131072,
            r.max_args_bytes == 65536,
            r.rhai_max_ops == 200000,
            r.rhai_max_call_depth == 64,
    {
        RunnerLimits {
            max_time_ms: 200,
            max_code_bytes: 131072,
            max_args_bytes: 65536,
            rhai_max_ops: 200000,
            rhai_max_call_depth: 64,
        }
    }
}

#[verifier::external_type_specification]
#[verifier::external_body]
pub struct ExRhaiAst(rhai::AST);

/// The source text a compiled expression-language tree was compiled from.
pub uninterp spec fn ast_source(a: rhai::AST) -> Seq<char>;

/// Whether the expression language accepts a source text; a function of the
/// text alone.
pub uninterp spec fn rhai_compiles(code: Seq<char>) -> bool;

/// What evaluating an expression-language source computes under the given
/// budgets, with the arguments bound as `args`: the JSON text of its value,
/// or nothing on a runtime failure.  With the engine's clock facility
/// absent, this is a function of the budgets, the source, and the arguments
/// alone.
pub uninterp spec fn rhai_result(
    max_ops: u64,
    max_call_depth: u64,
    source: Seq<char>,
    args_json: Seq<char>,
) -> Option<Seq<char>>;

/// Relies on `rhai::Engine::compile`: acceptance depends on the source text
/// alone, and the tree remembers its source.
#[verifier::external_body]
fn rhai_compile(code: &str) -> (r: Option<rhai::AST>)
    ensures
        match r {
            Some(a) => rhai_compiles(code@) && ast_source(a) == code@,
            None => !rhai_compiles(code@),
        },
{
    match rhai::Engine::new().compile(code) {
        Ok(ast) => Some(ast),
        Err(_) => None,
    }
}

/// Relies on `rhai::Engine::eval_ast_with_scope` under `set_max_operations`
/// and `set_max_call_levels`, with the arguments bound through
/// `rhai::serde::to_dynamic` and the value read back through
/// `rhai::serde::from_dynamic`.  The engine is built without the clock
/// facility, so no registered function reads time or any other ambient
/// state: the outcome is deterministic in the budgets, the compiled source,
/// and the arguments.
#[verifier::external_body]
fn rhai_eval(max_ops: u64, max_call_depth: u64, ast: &rhai::AST, args_json: &str) -> (r: Option<
    String,
>)
    ensures
        match r {
            Some(s) => rhai_result(max_ops, max_call_depth, ast_source(*ast), args_json@) == Some(
                s@,
            ),
            None => (rhai_result(max_ops, max_call_depth, ast_source(*ast), args_json@) is None),
        },
{
    let mut engine = rhai::Engine::new();
    engine.set_max_operations(max_ops);
    engine.set_max_call_levels(max_call_depth as usize);
    let mut scope = rhai::Scope::new();
    if let Ok(d) = serde_json::from_str::<serde_json::Value>(args_json).map(|v| rhai::serde::to_dynamic(&v)) {
        d.map(|d| scope.push_dynamic("args", d)).ok();
    }
    match engine.eval_ast_with_scope::<rhai::Dynamic>(&mut scope, ast) {
        Ok(d) => rhai::serde::from_dynamic::<serde_json::Value>(&d).ok().map(|v| v.to_string()),
        Err(_) => None,
    }
}

/// What the 64-bit Fx hash of a byte sequence is: a function of the bytes
/// alone, stable within and across invocations.
pub uninterp spec fn fx64(bytes: Seq<u8>) -> u64;

/// Relies on `fxhash::FxHasher64`: the hash depends on the bytes alone.
#[verifier::external_body]
fn fxhash64(bytes: &[u8]) -> (r: u64)
    ensures
        r == fx64(bytes@),
{
    let mut h = <fxhash::FxHasher64 as core::default::Default>::default();
    core::hash::Hasher::write(&mut h, bytes);
    core::hash::Hasher::finish(&h)
}

/// The source cached under hash `h`: the source of the first tree stored
/// with that key.
pub open spec fn cache_source(c: Seq<(u64, rhai::AST)>, h: u64) -> Option<Seq<char>>
    decreases c.len(),
{
    if c.len() == 0 {
        None
    } else if c[0].0 == h {
        Some(ast_source(c[0].1))
    } else {
        cache_source(c.drop_first(), h)
    }
}

proof fn lemma_cache_push(c: Seq<(u64, rhai::AST)>, e: (u64, rhai::AST), h: u64)
    requires
        cache_source(c, h) is None,
        e.0 == h,
    ensures
        cache_source(c.push(e), h) == Some(ast_source(e.1)),
    decreases c.len(),
{
    reveal_with_fuel(cache_source, 2);
    if c.len() == 0 {
        assert(c.push(e)[0] == e);
    } else {
        lemma_cache_push(c.drop_first(), e, h);
        assert(c.push(e)[0] == c[0]);
        assert(c.push(e).drop_first() =~= c.drop_first().push(e));
    }
}

/// What one invocation answers: a finished expression-language result, or a
/// request delegated to an interpreter worker outside the verified core.
#[derive(Debug)]
pub enum RunOutcome {
    Done(Result<String, ScriptError>),
    Delegate(Lang),
}

/// The expression runner with its compiled-source cache.
pub struct Runner {
    pub limits: RunnerLimits,
    pub cache: Vec<(u64, rhai::AST)>,
}

impl Runner {
    /// A runner with the given limits and an empty cache.
    pub fn new_with_limits(limits: RunnerLimits) -> (r: Runner)
        ensures
            r.limits == limits,
            r.cache@ == Seq::<(u64, rhai::AST)>::empty(),
    {
        let r = Runner { limits, cache: Vec::new() };
        proof {
            assert(r.cache@ =~= Seq::<(u64, rhai::AST)>::empty());
        }
        r
    }

    /// A runner with the default limits.
    pub fn new() -> (r: Runner)
        ensures
            r.limits == (RunnerLimits {
                max_time_ms: 200,
                max_code_bytes: 131072,
                max_args_bytes: 65536,
                rhai_max_ops: 200000,
                rhai_max_call_depth: 64,
            }),
            r.cache@ == Seq::<(u64, rhai::AST)>::empty(),
    {
        Runner::new_with_limits(RunnerLimits::default())
    }

    /// One invocation.  Size limits are enforced first, in bytes, for every
    /// guest language; nothing else runs when they are exceeded.  Every
    /// accepted invocation is then delegated to a dedicated worker thread
    /// outside the verified core, joined against the wall-clock budget, so
    /// a runaway script of any guest language answers with a timeout.  The
    /// expression-language evaluation the worker calls is `run_expression`.
    pub fn run(&mut self, lang: Lang, code: &str, args_json: &str) -> (r: RunOutcome)
        ensures
            *final(self) == *old(self),
            (code.spec_bytes().len() > old(self).limits.max_code_bytes
                || args_json.spec_bytes().len() > old(self).limits.max_args_bytes) ==> r
                == RunOutcome::Done(Err::<String, ScriptError>(ScriptError::TooLarge)),
            (code.spec_bytes().len() <= old(self).limits.max_code_bytes
                && args_json.spec_bytes().len() <= old(self).limits.max_args_bytes) ==> r
                == RunOutcome::Delegate(lang),
    {
        broadcast use vstd::slice::axiom_spec_len;

        let code_len = code.as_bytes().len();
        let args_len = args_json.as_bytes().len();
        if code_len > self.limits.max_code_bytes || args_len > self.limits.max_args_bytes {
            return RunOutcome::Done(Err(ScriptError::TooLarge));
        }
        RunOutcome::Delegate(lang)
    }

    /// Evaluate an expression-language source with the arguments bound as
    /// `args`: compile and cache on a miss, reuse the cached tree on a hit,
    /// then evaluate under the configured budgets.  The answer is a function
    /// of the budgets, the (cached) source, and the arguments.
    pub fn run_expression(&mut self, code: &str, args_json: &str) -> (r: Result<
        String,
        ScriptError,
    >)
        ensures
            final(self).limits == old(self).limits,
            expression_outcome(
                *old(self),
                *final(self),
                code@,
                code.spec_bytes(),
                args_json@,
                RunOutcome::Done(r),
            ),
    {
        let h = fxhash64(code.as_bytes());
        proof {
            assert(self.cache@.subrange(0, self.cache@.len() as int) =~= self.cache@);
        }
        let mut i: usize = 0;
        while i < self.cache.len()
            invariant
                *self == *old(self),
                h == fx64(code.spec_bytes()),
                0 <= i <= self.cache@.len(),
                cache_source(self.cache@, h) == cache_source(
                    self.cache@.subrange(i as int, self.cache@.len() as int),
                    h,
                ),
                forall|j: int| 0 <= j < i ==> (#[trigger] self.cache@[j]).0 != h,
            decreases self.cache@.len() - i,
        {
            let ghost rest = self.cache@.subrange(i as int, self.cache@.len() as int);
            proof {
                assert(rest[0] == self.cache@[i as int]);
                assert(rest.drop_first() =~= self.cache@.subrange(
                    i + 1,
                    self.cache@.len() as int,
                ));
            }
            if self.cache[i].0 == h {
                let res = rhai_eval(
                    self.limits.rhai_max_ops,
                    self.limits.rhai_max_call_depth,
                    &self.cache[i].1,
                    args_json,
                );
                return match res {
                    Some(s) => Ok(s),
                    None => Err(ScriptError::RuntimeError),
                };
            }
            i = i + 1;
        }
        proof {
            assert(self.cache@.subrange(self.cache@.len() as int, self.cache@.len() as int) =~= Seq::<
                (u64, rhai::AST),
            >::empty());
        }
        match rhai_compile(code) {
            None => Err(ScriptError::CompileError),
            Some(ast) => {
                let res = rhai_eval(
                    self.limits.rhai_max_ops,
                    self.limits.rhai_max_call_depth,
                    &ast,
                    args_json,
                );
                let ghost prev = self.cache@;
                self.cache.push((h, ast));
                proof {
                    lemma_cache_push(prev, self.cache@.last(), h);
                    assert(self.cache@ =~= prev.push(self.cache@.last()));
                }
                match res {
                    Some(s) => Ok(s),
                    None => Err(ScriptError::RuntimeError),
                }
            },
        }
    }
}

/// The answer evaluation of `src` gives under the runner's budgets: an `Ok`
/// reading the deterministic evaluation text, or a runtime error.
pub open spec fn answers(
    limits: RunnerLimits,
    src: Seq<char>,
    args_json: Seq<char>,
    r: RunOutcome,
) -> bool {
    match rhai_result(limits.rhai_max_ops, limits.rhai_max_call_depth, src, args_json) {
        Some(s) => r matches RunOutcome::Done(res) && res matches Ok(out) && out@ == s,
        None => r == RunOutcome::Done(Err::<String, ScriptError>(ScriptError::RuntimeError)),
    }
}

/// The contract of one expression-language invocation: on a cache hit the
/// cached source answers; on a miss the source itself is compiled — failing
/// with `CompileError` exactly when the language rejects it — cached under
/// its byte hash, and evaluated.  Either way the answer is the deterministic
/// evaluation of that source, so two successive invocations with the same
/// source and arguments answer identically.
pub open spec fn expression_outcome(
    pre: Runner,
    post: Runner,
    code_chars: Seq<char>,
    code_bytes: Seq<u8>,
    args_json: Seq<char>,
    r: RunOutcome,
) -> bool {
    let h = fx64(code_bytes);
    match cache_source(pre.cache@, h) {
        Some(src) => post.cache@ == pre.cache@ && answers(pre.limits, src, args_json, r),
        None => {
            if rhai_compiles(code_chars) {
                &&& cache_source(post.cache@, h) == Some(code_chars)
                &&& answers(pre.limits, code_chars, args_json, r)
            } else {
                &&& post.cache@ == pre.cache@
                &&& r == RunOutcome::Done(Err::<String, ScriptError>(ScriptError::CompileError))
            }
        },
    }
}

/// The two outcomes read the same: both finished, with equal answer texts
/// or the same error.
pub open spec fn outcomes_agree(r1: RunOutcome, r2: RunOutcome) -> bool {
    match (r1, r2) {
        (RunOutcome::Done(Ok(a)), RunOutcome::Done(Ok(b))) => a@ == b@,
        (RunOutcome::Done(Err(e1)), RunOutcome::Done(Err(e2))) => e1 == e2,
        _ => false,
    }
}

/// Determinism of the expression language: two invocations of one runner
/// state with the same source and arguments answer identically, whether the
/// second is served from the compiled-source cache or not.
pub proof fn lemma_expression_deterministic(
    pre: Runner,
    post1: Runner,
    post2: Runner,
    code_chars: Seq<char>,
    code_bytes: Seq<u8>,
    args_json: Seq<char>,
    r1: RunOutcome,
    r2: RunOutcome,
)
    requires
        expression_outcome(pre, post1, code_chars, code_bytes, args_json, r1),
        expression_outcome(post1, post2, code_chars, code_bytes, args_json, r2),
        cache_source(pre.cache@, fx64(code_bytes)) matches Some(src) ==> src == code_chars,
        post1.limits == pre.limits,
    ensures
        outcomes_agree(r1, r2),
{
    let h = fx64(code_bytes);
    match cache_source(pre.cache@, h) {
        Some(src) => {
            assert(src == code_chars);
            assert(post1.cache@ == pre.cache@);
        },
        None => {
            if rhai_compiles(code_chars) {
                assert(cache_source(post1.cache@, h) == Some(code_chars));
            } else {
                assert(post1.cache@ == pre.cache@);
            }
        },
    }
}

} // verus!

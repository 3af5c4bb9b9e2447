use bullg::runner::{Lang, RunOutcome, Runner, RunnerLimits, ScriptError};

fn done(outcome: RunOutcome) -> Result<String, ScriptError> {
    match outcome {
        RunOutcome::Done(r) => r,
        RunOutcome::Delegate(lang) => panic!("unexpected delegation of {:?}", lang),
    }
}

#[test]
fn oversized_source_is_rejected_before_any_guest_work() {
    let mut runner = Runner::new_with_limits(RunnerLimits {
        max_time_ms: 200,
        max_code_bytes: 4,
        max_args_bytes: 64,
        rhai_max_ops: 1000,
        rhai_max_call_depth: 8,
    });
    let r = runner.run(Lang::RustLite, "1 + 1 + 1", "{}");
    assert_eq!(done(r), Err(ScriptError::TooLarge));
}

#[test]
fn oversized_arguments_are_rejected_for_every_language() {
    let mut runner = Runner::new_with_limits(RunnerLimits {
        max_time_ms: 200,
        max_code_bytes: 1024,
        max_args_bytes: 2,
        rhai_max_ops: 1000,
        rhai_max_call_depth: 8,
    });
    let r = runner.run(Lang::JavaScript, "1", "{\"k\": 1}");
    assert_eq!(done(r), Err(ScriptError::TooLarge));
}

#[test]
fn size_caps_count_bytes_not_characters() {
    let mut runner = Runner::new_with_limits(RunnerLimits {
        max_time_ms: 200,
        max_code_bytes: 4,
        max_args_bytes: 64,
        rhai_max_ops: 1000,
        rhai_max_call_depth: 8,
    });
    // Three characters, six bytes.
    let r = runner.run(Lang::RustLite, "\u{00e9}\u{00e9}\u{00e9}", "{}");
    assert_eq!(done(r), Err(ScriptError::TooLarge));
}

#[test]
fn accepted_scripts_are_delegated_to_the_workers() {
    let mut runner = Runner::new();
    assert!(matches!(
        runner.run(Lang::RustLite, "21 * 2", "{}"),
        RunOutcome::Delegate(Lang::RustLite)
    ));
    assert!(matches!(
        runner.run(Lang::JavaScript, "while(true){}", "{}"),
        RunOutcome::Delegate(Lang::JavaScript)
    ));
    assert!(matches!(
        runner.run(Lang::Python, "1", "{}"),
        RunOutcome::Delegate(Lang::Python)
    ));
}

#[test]
fn expression_evaluates_to_json_text() {
    let mut runner = Runner::new();
    let r = runner.run_expression("21 * 2", "{}");
    assert_eq!(r, Ok(String::from("42")));
}

#[test]
fn expression_reads_injected_args() {
    let mut runner = Runner::new();
    let r = runner.run_expression("args.amount + 1", "{\"amount\": 4}");
    assert_eq!(r, Ok(String::from("5")));
}

#[test]
fn identical_invocations_answer_identically() {
    let mut runner = Runner::new();
    let first = runner.run_expression("1 + 2 * 3", "{}");
    let second = runner.run_expression("1 + 2 * 3", "{}");
    assert_eq!(first, second);
    assert_eq!(first, Ok(String::from("7")));
}

#[test]
fn broken_source_is_a_compile_error() {
    let mut runner = Runner::new();
    let r = runner.run_expression("let = ;", "{}");
    assert_eq!(r, Err(ScriptError::CompileError));
}

#[test]
fn runaway_expression_hits_the_operation_budget() {
    let mut runner = Runner::new_with_limits(RunnerLimits {
        max_time_ms: 200,
        max_code_bytes: 131072,
        max_args_bytes: 65536,
        rhai_max_ops: 1000,
        rhai_max_call_depth: 8,
    });
    let r = runner.run_expression("let x = 0; while true { x += 1; } x", "{}");
    assert_eq!(r, Err(ScriptError::RuntimeError));
}

#[test]
fn expressions_cannot_read_a_clock() {
    let mut runner = Runner::new();
    let r = runner.run_expression("timestamp()", "{}");
    assert_eq!(r, Err(ScriptError::RuntimeError));
}

#[test]
fn default_limits_match_the_documented_budgets() {
    let limits = <RunnerLimits as Default>::default();
    assert_eq!(limits.max_time_ms, 200);
    assert_eq!(limits.max_code_bytes, 128 * 1024);
    assert_eq!(limits.max_args_bytes, 64 * 1024);
}

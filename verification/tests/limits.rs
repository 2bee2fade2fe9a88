use stacky_core::diag::RuntimeErrorKind;
use stacky_core::machine::Config;
use stacky_core::machine::Interpreter;
use stacky_core::program::Program;
use stacky_core::run;

#[test]
fn unbounded_pushing_hits_the_stack_cap() {
    // Depth 100 is the default cap; the push that would reach 101 faults.
    assert_eq!(
        run(String::from("l:\npush 1\ngoto l")),
        "main:2:1 stack overflow"
    );
}

#[test]
fn stack_cap_faults_at_the_exceeding_instruction() {
    let p = Program::from_source("push 1 2 3").unwrap();
    let mut it = Interpreter::new(Config { max_stack_size: 2, max_execution_time: 10 });
    let args: Vec<String> = Vec::new();
    let e = it.run(&p, &args).unwrap_err();
    assert_eq!(e.kind, RuntimeErrorKind::StackOverflow);
    assert_eq!(e.message(), "main:1:1 stack overflow");
    // The stack holds exactly one entry more than the cap, and no more work
    // was done after the fault.
    assert_eq!(it.stack().len(), 3);
}

#[test]
fn an_infinite_loop_times_out() {
    // No stack growth at all: only the step budget can stop this one.
    assert_eq!(run(String::from("l:\ngoto l")), "main:1:1 session timeout");
}

#[test]
fn budget_counts_executed_instructions() {
    let p = Program::from_source("nop\nnop\nnop\nnop\nnop").unwrap();
    let args: Vec<String> = Vec::new();

    let mut enough = Interpreter::new(Config { max_stack_size: 10, max_execution_time: 5 });
    assert!(enough.run(&p, &args).is_ok());

    let mut scarce = Interpreter::new(Config { max_stack_size: 10, max_execution_time: 4 });
    let e = scarce.run(&p, &args).unwrap_err();
    assert_eq!(e.kind, RuntimeErrorKind::Timeout);
    assert_eq!(e.message(), "main:5:1 session timeout");
}

#[test]
fn output_before_a_fault_is_kept() {
    let p = Program::from_source("println \"first\"\npush 1 0\ndiv").unwrap();
    let mut it = Interpreter::new(Config::new());
    let args: Vec<String> = Vec::new();
    assert!(it.run(&p, &args).is_err());
    assert_eq!(it.output().as_str(), "first\n");
}

#[test]
fn a_spent_budget_is_distinct_from_script_faults() {
    let timeout = run(String::from("l:\ngoto l"));
    let fault = run(String::from("push 1 0\ndiv"));
    assert!(timeout.contains("session timeout"));
    assert!(fault.contains("division by zero"));
    assert!(timeout != fault);
}

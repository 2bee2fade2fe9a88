use stacky_core::program::Program;
use stacky_core::run;

#[test]
fn every_defect_is_reported_with_its_position() {
    let errs = Program::from_source("foo\nbar\npush").unwrap_err();
    assert_eq!(errs.len(), 3);
    let msgs: Vec<String> = errs.iter().map(|e| e.message()).collect();
    assert_eq!(msgs[0], "main:1:1 unknown command: foo");
    assert_eq!(msgs[1], "main:2:1 unknown command: bar");
    assert_eq!(
        msgs[2],
        "main:3:1 unexpected argument to `push` (requires at least one value)"
    );
}

#[test]
fn two_defects_on_one_line_get_distinct_columns() {
    let errs = Program::from_source("push 1x 2y").unwrap_err();
    assert_eq!(errs.len(), 2);
    assert_eq!(errs[0].message(), "main:1:6 invalid value: 1x");
    assert_eq!(errs[1].message(), "main:1:9 invalid value: 2y");
}

#[test]
fn undefined_label_is_a_parse_failure() {
    assert_eq!(
        run(String::from("goto missing")),
        "main:1:6 label `missing` not found\n"
    );
}

#[test]
fn parse_errors_prevent_execution() {
    // The first line is fine, but the bad second line means nothing runs.
    let out = run(String::from("push 1\nwat"));
    assert_eq!(out, "main:2:1 unknown command: wat\n");
}

#[test]
fn parsing_is_idempotent() {
    let src = "start:\npush 1 2\nadd\nbr start\nprintln \"x\"";
    let p1 = Program::from_source(src).unwrap();
    let p2 = Program::from_source(src).unwrap();
    assert_eq!(p1, p2);
    // label, two pushes, add, br, push of the message, println
    assert_eq!(p1.len(), 7);
}

#[test]
fn inline_type_errors_are_parse_time() {
    let errs = Program::from_source("add 1 true").unwrap_err();
    assert_eq!(errs.len(), 1);
    assert_eq!(errs[0].message(), "main:1:5 attempt to add `int` and `bool`");
}

#[test]
fn argument_to_nop_is_rejected() {
    let errs = Program::from_source("nop 5").unwrap_err();
    assert_eq!(errs.len(), 1);
    assert_eq!(
        errs[0].message(),
        "main:1:5 unexpected argument to `nop` (takes no arguments)"
    );
}

#[test]
fn wrong_value_count_is_reported() {
    let errs = Program::from_source("add 1").unwrap_err();
    assert_eq!(errs.len(), 1);
    assert_eq!(errs[0].message(), "main:1:5 requires 2 value(s)");
}

#[test]
fn pop_wants_a_nonnegative_integer() {
    let errs = Program::from_source("pop x").unwrap_err();
    assert_eq!(errs.len(), 1);
    assert_eq!(
        errs[0].message(),
        "main:1:1 unexpected argument to `pop` (takes a positive integer)"
    );
}

#[test]
fn assert_message_must_be_quoted() {
    let errs = Program::from_source("assert yes").unwrap_err();
    assert_eq!(errs.len(), 1);
    assert_eq!(errs[0].message(), "main:1:8 assert message must be a string");
}

#[test]
fn exit_code_must_be_an_integer() {
    let errs = Program::from_source("exit soon").unwrap_err();
    assert_eq!(errs.len(), 1);
    assert_eq!(errs[0].message(), "main:1:6 exit code must be an integer");
}

#[test]
fn carriage_returns_are_tolerated() {
    assert_eq!(run(String::from("push 7\r\nprintln\r\n")), "7\n");
}

#[test]
fn labels_strip_their_trailing_colons() {
    assert_eq!(
        run(String::from("goto end\npush 9\nend:\npush 1\nprintln")),
        "1\n"
    );
}

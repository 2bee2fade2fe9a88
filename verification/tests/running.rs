use stacky_core::machine::Config;
use stacky_core::machine::Interpreter;
use stacky_core::program::Program;
use stacky_core::run;
use stacky_core::value::Value;

#[test]
fn push_and_add_leaves_sum_on_stack() {
    let p = Program::from_source("push 1 2\nadd").unwrap();
    let mut it = Interpreter::new(Config::new());
    let args: Vec<String> = Vec::new();
    assert!(it.run(&p, &args).is_ok());
    assert_eq!(it.stack(), &vec![Value::Int(3)]);
    assert_eq!(it.output().as_str(), "");
}

#[test]
fn division_by_zero_is_a_runtime_fault() {
    assert_eq!(run(String::from("push 1 0\ndiv")), "main:2:1 division by zero");
}

#[test]
fn division_by_zero_produces_no_output() {
    let p = Program::from_source("push 1 0\ndiv\nprintln").unwrap();
    let mut it = Interpreter::new(Config::new());
    let args: Vec<String> = Vec::new();
    assert!(it.run(&p, &args).is_err());
    assert_eq!(it.output().as_str(), "");
}

#[test]
fn min_int_divided_by_minus_one_wraps() {
    assert_eq!(
        run(String::from("push -9223372036854775808 -1\ndiv\nprintln")),
        "-9223372036854775808\n"
    );
}

#[test]
fn add_wraps_on_overflow() {
    assert_eq!(
        run(String::from("push 9223372036854775807 1\nadd\nprintln")),
        "-9223372036854775808\n"
    );
}

#[test]
fn mod_by_zero_is_a_runtime_fault() {
    assert_eq!(run(String::from("push 5 0\nmod")), "main:2:1 division by zero");
}

#[test]
fn string_concatenation_prints() {
    assert_eq!(run(String::from("push \"ab\" \"cd\"\nadd\nprint")), "abcd");
}

#[test]
fn quoted_string_with_space() {
    assert_eq!(run(String::from("println \"hello world\"")), "hello world\n");
}

#[test]
fn hex_and_binary_literals() {
    assert_eq!(run(String::from("push 0x10 0b101\nadd\nprintln")), "21\n");
}

#[test]
fn eq_across_kinds_is_false() {
    assert_eq!(run(String::from("push 1 \"1\"\neq\nprintln")), "false\n");
}

#[test]
fn bitwise_and_on_ints() {
    assert_eq!(run(String::from("push 6 3\nand\nprintln")), "2\n");
}

#[test]
fn boolean_or() {
    assert_eq!(run(String::from("push true false\nor\nprintln")), "true\n");
}

#[test]
fn inline_neg() {
    assert_eq!(run(String::from("neg -5\nprintln")), "5\n");
}

#[test]
fn variadic_min() {
    assert_eq!(run(String::from("min 3 1 2\nprintln")), "1\n");
}

#[test]
fn abs_and_sign() {
    assert_eq!(run(String::from("abs -7\nprintln")), "7\n");
    assert_eq!(run(String::from("sign -3\nprintln")), "-1\n");
}

#[test]
fn len_of_string() {
    assert_eq!(run(String::from("len \"abcd\"\nprintln")), "4\n");
}

#[test]
fn store_and_load() {
    assert_eq!(run(String::from("push 42\nstore x\nload x\nprintln")), "42\n");
}

#[test]
fn load_of_unknown_variable_faults() {
    assert_eq!(run(String::from("load y")), "main:1:1 variable `y` not found");
}

#[test]
fn br_skips_when_condition_true() {
    assert_eq!(
        run(String::from("push true\nbr end\npush 9\nend:\npush 1\nprintln")),
        "1\n"
    );
}

#[test]
fn br_falls_through_when_condition_false() {
    assert_eq!(
        run(String::from("push false\nbr end\npush 9\nend:\nprintln")),
        "9\n"
    );
}

#[test]
fn failed_assert_reports_its_message() {
    assert_eq!(
        run(String::from("push 0\nassert \"boom\"")),
        "main:2:1 assertion failed: boom"
    );
}

#[test]
fn passing_assert_continues() {
    assert_eq!(run(String::from("push 1\nassert\nprintln \"ok\"")), "ok\n");
}

#[test]
fn script_error_uses_its_message() {
    assert_eq!(run(String::from("error \"bad thing\"")), "main:1:1 bad thing");
}

#[test]
fn exit_reports_its_code() {
    assert_eq!(run(String::from("exit 3")), "main:1:1 exit with code: 3");
    assert_eq!(run(String::from("exit 0x10")), "main:1:1 exit with code: 16");
}

#[test]
fn pop_removes_that_many_values() {
    assert_eq!(run(String::from("push 1 2 3\npop 2\nprintln")), "1\n");
}

#[test]
fn arithmetic_on_empty_stack_faults() {
    assert_eq!(run(String::from("add")), "main:1:1 stack is empty");
}

#[test]
fn comments_and_blank_lines_are_skipped() {
    assert_eq!(
        run(String::from("; comment\n\npush 1\nprintln ; trailing")),
        "1\n"
    );
}

#[test]
fn add_of_int_and_bool_faults_at_runtime() {
    assert_eq!(
        run(String::from("push 1 true\nadd")),
        "main:2:1 attempt to add `int` and `bool`"
    );
}

#[test]
fn comparison_prints_a_boolean() {
    assert_eq!(run(String::from("gt 2 1\nprintln")), "true\n");
}

#[test]
fn getarg_without_arguments_yields_nil() {
    assert_eq!(run(String::from("getarg 0\nprintln")), "nil\n");
}

#[test]
fn getarg_reads_provided_arguments() {
    let p = Program::from_source("getarg 0\nprintln").unwrap();
    let mut it = Interpreter::new(Config::new());
    let args = vec![String::from("first")];
    assert!(it.run(&p, &args).is_ok());
    assert_eq!(it.output().as_str(), "first\n");
}

#[test]
fn read_faults_without_an_input_source() {
    assert_eq!(run(String::from("read")), "main:1:1 input is not set");
}

#[test]
fn empty_source_runs_to_nothing() {
    assert_eq!(run(String::new()), "");
}

#[test]
fn run_is_deterministic() {
    let src = "push 10 4\nsub\nprintln\npush 2 3\nmul\nprintln";
    let a = run(String::from(src));
    let b = run(String::from(src));
    assert_eq!(a, b);
    assert_eq!(a, "6\n6\n");
}

#[test]
fn countdown_loop_prints_each_value() {
    let src = "push 3\nloop:\ndup\nprintln\npush 1\nsub\ndup\npush 0\ngt\nbr loop\npop";
    assert_eq!(run(String::from(src)), "3\n2\n1\n");
}

#[test]
fn min_int_literal_round_trips() {
    assert_eq!(
        run(String::from("push -9223372036854775808\nprintln")),
        "-9223372036854775808\n"
    );
}

#[test]
fn literal_beyond_i64_range_is_invalid() {
    let errs = Program::from_source("push 9223372036854775808").unwrap_err();
    assert_eq!(errs.len(), 1);
    assert_eq!(
        errs[0].message(),
        "main:1:6 invalid value: 9223372036854775808"
    );
}

#[test]
fn duplicate_label_uses_the_last_definition() {
    // Both lines define `l`; the jump lands on the later one.
    let src = "goto l\nl:\npush 1\nprintln\nl:\npush 2\nprintln";
    assert_eq!(run(String::from(src)), "2\n");
}

#[test]
fn inline_min_with_one_value_needs_a_second_operand() {
    assert_eq!(run(String::from("min 5")), "main:1:1 stack is empty");
}

#[test]
fn print_on_empty_stack_does_nothing() {
    assert_eq!(run(String::from("print\nprintln \"done\"")), "done\n");
}

#[test]
fn dup_doubles_the_top_value() {
    assert_eq!(run(String::from("push 4\ndup\nadd\nprintln")), "8\n");
}

#[test]
fn store_overwrites_earlier_bindings() {
    assert_eq!(
        run(String::from("push 1\nstore x\npush 2\nstore x\nload x\nprintln")),
        "2\n"
    );
}

#[test]
fn xor_on_booleans() {
    assert_eq!(run(String::from("xor true true\nprintln")), "false\n");
    assert_eq!(run(String::from("xor true false\nprintln")), "true\n");
}

#[test]
fn ne_compares_structurally() {
    assert_eq!(run(String::from("ne 1 2\nprintln")), "true\n");
    assert_eq!(run(String::from("ne \"a\" \"a\"\nprintln")), "false\n");
}

#[test]
fn convert_string_to_int_and_back() {
    assert_eq!(
        run(String::from("push \"42\"\nconvert int\npush 1\nadd\nprintln")),
        "43\n"
    );
    assert_eq!(run(String::from("push -12\nconvert string\nprintln")), "-12\n");
    assert_eq!(run(String::from("push 7\nconvert string\nlen\nprintln")), "1\n");
}

#[test]
fn convert_between_int_and_bool() {
    assert_eq!(run(String::from("push 0\nconvert bool\nprintln")), "false\n");
    assert_eq!(run(String::from("push true\nconvert int\nprintln")), "1\n");
}

#[test]
fn convert_of_unparsable_string_faults() {
    assert_eq!(
        run(String::from("push \"x\"\nconvert int")),
        "main:2:1 cannot convert `x` to `int`"
    );
}

#[test]
fn convert_to_float_is_unsupported() {
    assert_eq!(
        run(String::from("push 1\nconvert float")),
        "main:2:1 cannot convert `int` to `float`"
    );
}

#[test]
fn convert_identity_succeeds() {
    assert_eq!(run(String::from("push \"a\"\nconvert string\nprintln")), "a\n");
}

#[test]
fn convert_wants_one_known_type_name() {
    let errs = Program::from_source("convert foo").unwrap_err();
    assert_eq!(errs.len(), 1);
    assert_eq!(errs[0].message(), "main:1:9 invalid type name: foo");
    let errs = Program::from_source("convert").unwrap_err();
    assert_eq!(
        errs[0].message(),
        "main:1:1 unexpected argument to `convert` (requires a type name)"
    );
}

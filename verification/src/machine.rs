//! The stack machine: a small-step semantics over a mathematical machine
//! state, and the executable interpreter proved to follow it exactly.
//!
//! Two governors make running untrusted scripts safe. The operand stack may
//! never exceed `max_stack_size` entries: after each instruction the depth is
//! checked and a deeper stack halts the run with a stack-overflow fault at
//! that instruction. Execution may never exceed `max_execution_time` steps
//! (one step per executed instruction, a deterministic budget): exceeding it
//! halts the run with a timeout fault, distinct from every script-level
//! fault. All faults are values; no input ever panics the interpreter.

use vstd::prelude::*;
use vstd::string::StrSliceExecFns;
use vstd::string::StringExecFns;

use crate::diag::RuntimeError;
use crate::diag::RuntimeErrorKind;
use crate::diag::RuntimeErrorKindV;
use crate::diag::RuntimeErrorV;
use crate::parse::apply_msg;
use crate::parse::attempt_msg;
use crate::parse::compare_msg;
use crate::program::Instr;
use crate::program::InstrV;
use crate::program::Program;
use crate::program::ProgramV;
use crate::text::int_str;
use crate::text::parse_int;
use crate::text::parse_int_spec;
use crate::text::push_i64_dec;
use crate::text::str_eq;
use crate::value::Value;
use crate::value::ValueV;
use crate::value::is_truthy;
use crate::value::kind_name_spec;
use crate::value::render_push;
use crate::value::render_spec;
use crate::value::truthy;
use crate::value::val_eq;
use crate::value::value_eq;

verus! {

/// Default operand-stack cap.
pub const DEFAULT_MAX_STACK_SIZE: usize = 100;

/// Default step budget.
pub const DEFAULT_MAX_EXECUTION_TIME: u64 = 500;

/// The two governors, fixed per run by the host and never script-controlled.
#[derive(Debug, Clone, Copy, PartialEq, Eq, Structural)]
pub struct Config {
    /// Hard cap on operand-stack depth.
    pub max_stack_size: usize,
    /// Step budget: the number of instructions one run may execute.
    pub max_execution_time: u64,
}

impl Config {
    pub fn new() -> (r: Config)
        ensures
            r.max_stack_size == DEFAULT_MAX_STACK_SIZE,
            r.max_execution_time == DEFAULT_MAX_EXECUTION_TIME,
    {
        Config {
            max_stack_size: DEFAULT_MAX_STACK_SIZE,
            max_execution_time: DEFAULT_MAX_EXECUTION_TIME,
        }
    }
}

impl Default for Config {
    fn default() -> (r: Config)
        ensures
            r.max_stack_size == DEFAULT_MAX_STACK_SIZE,
            r.max_execution_time == DEFAULT_MAX_EXECUTION_TIME,
    {
        Config::new()
    }
}

/// The mathematical machine state.
pub ghost struct StateV {
    pub pc: int,
    pub steps: int,
    pub stack: Seq<ValueV>,
    pub vars: Map<Seq<char>, ValueV>,
    pub output: Seq<char>,
}

/// One step either continues in a new state or halts with a fault kind.
pub ghost enum StepRes {
    Cont(StateV),
    Stop(StateV, RuntimeErrorKindV),
}

/// 64-bit wrapping negation: `i64::MIN` maps to itself.
pub open spec fn wrap_neg(x: i64) -> i64 {
    if x == i64::MIN {
        i64::MIN
    } else {
        (-(x as int)) as i64
    }
}

/// 64-bit wrapping absolute value: `i64::MIN` maps to itself.
pub open spec fn wrap_abs(x: i64) -> i64 {
    if x == i64::MIN {
        i64::MIN
    } else if x < 0 {
        (-(x as int)) as i64
    } else {
        x
    }
}

/// String length as an `i64`, saturating at `i64::MAX`.
pub open spec fn str_len_val(s: Seq<char>) -> i64 {
    if s.len() <= i64::MAX {
        s.len() as i64
    } else {
        i64::MAX
    }
}

pub open spec fn is_binop(i: InstrV) -> bool {
    match i {
        InstrV::Add => true,
        InstrV::Sub => true,
        InstrV::Mul => true,
        InstrV::Div => true,
        InstrV::Mod => true,
        InstrV::Greater => true,
        InstrV::Less => true,
        InstrV::GreaterEq => true,
        InstrV::LessEq => true,
        InstrV::Equal => true,
        InstrV::NotEqual => true,
        InstrV::And => true,
        InstrV::Or => true,
        InstrV::Xor => true,
        InstrV::Min => true,
        InstrV::Max => true,
        _ => false,
    }
}

pub open spec fn is_unop(i: InstrV) -> bool {
    match i {
        InstrV::Neg => true,
        InstrV::Not => true,
        InstrV::Abs => true,
        InstrV::Sign => true,
        InstrV::Len => true,
        _ => false,
    }
}

/// Meaning of a binary operation on the two topmost values (`a` below `b`).
/// Integer arithmetic wraps; `div`/`mod` by zero is a fault; `add`
/// concatenates strings; `eq`/`ne` compare any two values structurally.
pub open spec fn bin_sem(op: InstrV, a: ValueV, b: ValueV) -> Result<ValueV, RuntimeErrorKindV> {
    match op {
        InstrV::Add => match (a, b) {
            (ValueV::Int(x), ValueV::Int(y)) => Ok(ValueV::Int(vstd::wrapping::i64_specs::wrapping_add(x, y))),
            (ValueV::Str(x), ValueV::Str(y)) => Ok(ValueV::Str(x + y)),
            _ => Err(RuntimeErrorKindV::InvalidArgument(attempt_msg("add"@, a, b))),
        },
        InstrV::Sub => match (a, b) {
            (ValueV::Int(x), ValueV::Int(y)) => Ok(ValueV::Int(vstd::wrapping::i64_specs::wrapping_sub(x, y))),
            _ => Err(RuntimeErrorKindV::InvalidArgument(attempt_msg("sub"@, a, b))),
        },
        InstrV::Mul => match (a, b) {
            (ValueV::Int(x), ValueV::Int(y)) => Ok(ValueV::Int(vstd::wrapping::i64_specs::wrapping_mul(x, y))),
            _ => Err(RuntimeErrorKindV::InvalidArgument(attempt_msg("mul"@, a, b))),
        },
        InstrV::Div => match (a, b) {
            (ValueV::Int(x), ValueV::Int(y)) => match x.checked_div(y) {
                Some(q) => Ok(ValueV::Int(q)),
                None => if y == 0 {
                    Err(RuntimeErrorKindV::DivisionByZero)
                } else {
                    Ok(ValueV::Int(i64::MIN))
                },
            },
            _ => Err(RuntimeErrorKindV::InvalidArgument(attempt_msg("div"@, a, b))),
        },
        InstrV::Mod => match (a, b) {
            (ValueV::Int(x), ValueV::Int(y)) => match x.checked_rem(y) {
                Some(q) => Ok(ValueV::Int(q)),
                None => if y == 0 {
                    Err(RuntimeErrorKindV::DivisionByZero)
                } else {
                    Ok(ValueV::Int(0))
                },
            },
            _ => Err(RuntimeErrorKindV::InvalidArgument(attempt_msg("mod"@, a, b))),
        },
        InstrV::Greater => match (a, b) {
            (ValueV::Int(x), ValueV::Int(y)) => Ok(ValueV::Bool(x > y)),
            _ => Err(RuntimeErrorKindV::InvalidArgument(compare_msg(a, b))),
        },
        InstrV::Less => match (a, b) {
            (ValueV::Int(x), ValueV::Int(y)) => Ok(ValueV::Bool(x < y)),
            _ => Err(RuntimeErrorKindV::InvalidArgument(compare_msg(a, b))),
        },
        InstrV::GreaterEq => match (a, b) {
            (ValueV::Int(x), ValueV::Int(y)) => Ok(ValueV::Bool(x >= y)),
            _ => Err(RuntimeErrorKindV::InvalidArgument(compare_msg(a, b))),
        },
        InstrV::LessEq => match (a, b) {
            (ValueV::Int(x), ValueV::Int(y)) => Ok(ValueV::Bool(x <= y)),
            _ => Err(RuntimeErrorKindV::InvalidArgument(compare_msg(a, b))),
        },
        InstrV::Equal => Ok(ValueV::Bool(val_eq(a, b))),
        InstrV::NotEqual => Ok(ValueV::Bool(!val_eq(a, b))),
        InstrV::And => match (a, b) {
            (ValueV::Bool(x), ValueV::Bool(y)) => Ok(ValueV::Bool(x && y)),
            (ValueV::Int(x), ValueV::Int(y)) => Ok(ValueV::Int(x & y)),
            _ => Err(RuntimeErrorKindV::InvalidArgument(attempt_msg("and"@, a, b))),
        },
        InstrV::Or => match (a, b) {
            (ValueV::Bool(x), ValueV::Bool(y)) => Ok(ValueV::Bool(x || y)),
            (ValueV::Int(x), ValueV::Int(y)) => Ok(ValueV::Int(x | y)),
            _ => Err(RuntimeErrorKindV::InvalidArgument(attempt_msg("or"@, a, b))),
        },
        InstrV::Xor => match (a, b) {
            (ValueV::Bool(x), ValueV::Bool(y)) => Ok(ValueV::Bool(x != y)),
            (ValueV::Int(x), ValueV::Int(y)) => Ok(ValueV::Int(x ^ y)),
            _ => Err(RuntimeErrorKindV::InvalidArgument(attempt_msg("xor"@, a, b))),
        },
        InstrV::Min => match (a, b) {
            (ValueV::Int(x), ValueV::Int(y)) => Ok(ValueV::Int(if x < y { x } else { y })),
            _ => Err(RuntimeErrorKindV::InvalidArgument(attempt_msg("min"@, a, b))),
        },
        InstrV::Max => match (a, b) {
            (ValueV::Int(x), ValueV::Int(y)) => Ok(ValueV::Int(if x > y { x } else { y })),
            _ => Err(RuntimeErrorKindV::InvalidArgument(attempt_msg("max"@, a, b))),
        },
        _ => Err(RuntimeErrorKindV::StackIsEmpty),
    }
}

/// Meaning of a unary operation on the topmost value.
pub open spec fn un_sem(op: InstrV, v: ValueV) -> Result<ValueV, RuntimeErrorKindV> {
    match op {
        InstrV::Neg => match v {
            ValueV::Int(x) => Ok(ValueV::Int(wrap_neg(x))),
            _ => Err(RuntimeErrorKindV::InvalidArgument("neg: type mismatch: "@ + kind_name_spec(v))),
        },
        InstrV::Not => match v {
            ValueV::Bool(b) => Ok(ValueV::Bool(!b)),
            ValueV::Int(x) => Ok(ValueV::Int(!x)),
            _ => Err(RuntimeErrorKindV::InvalidArgument(apply_msg("not"@, v))),
        },
        InstrV::Abs => match v {
            ValueV::Int(x) => Ok(ValueV::Int(wrap_abs(x))),
            _ => Err(RuntimeErrorKindV::InvalidArgument("unexpected argument to `abs` ("@ + kind_name_spec(v) + ")"@)),
        },
        InstrV::Sign => match v {
            ValueV::Int(x) => Ok(ValueV::Int(if x > 0 { 1 as i64 } else if x < 0 { -1 as i64 } else { 0 as i64 })),
            _ => Err(RuntimeErrorKindV::InvalidArgument("unexpected argument to `sign` ("@ + kind_name_spec(v) + ")"@)),
        },
        InstrV::Len => match v {
            ValueV::Str(s) => Ok(ValueV::Int(str_len_val(s))),
            _ => Err(RuntimeErrorKindV::InvalidArgument("unexpected argument to `len` ("@ + kind_name_spec(v) + ")"@)),
        },
        _ => Err(RuntimeErrorKindV::StackIsEmpty),
    }
}


/// The message for a conversion that does not exist for the value's kind.
pub open spec fn conv_kind_msg(v: ValueV, to: Seq<char>) -> Seq<char> {
    "cannot convert `"@ + kind_name_spec(v) + "` to `"@ + to + "`"@
}

/// Meaning of `convert <type>` on the topmost value. Identity conversions
/// always succeed; integers, booleans and strings convert among themselves
/// as shown; everything else, including the `float` and `ptr` type names,
/// is a fault for this interpreter.
pub open spec fn conv_sem(to: Seq<char>, v: ValueV) -> Result<ValueV, RuntimeErrorKindV> {
    if to == "int"@ {
        match v {
            ValueV::Int(i) => Ok(ValueV::Int(i)),
            ValueV::Bool(b) => Ok(ValueV::Int(if b { 1 as i64 } else { 0 as i64 })),
            ValueV::Str(s) => match parse_int_spec(s) {
                Some(i) => Ok(ValueV::Int(i)),
                None => Err(
                    RuntimeErrorKindV::InvalidArgument("cannot convert `"@ + s + "` to `int`"@),
                ),
            },
            _ => Err(RuntimeErrorKindV::InvalidArgument(conv_kind_msg(v, to))),
        }
    } else if to == "string"@ {
        match v {
            ValueV::Str(_) => Ok(v),
            ValueV::Int(i) => Ok(ValueV::Str(int_str(i as int))),
            _ => Err(RuntimeErrorKindV::InvalidArgument(conv_kind_msg(v, to))),
        }
    } else if to == "bool"@ {
        match v {
            ValueV::Bool(_) => Ok(v),
            ValueV::Int(i) => Ok(ValueV::Bool(i != 0)),
            ValueV::Str(s) => if s == "true"@ {
                Ok(ValueV::Bool(true))
            } else if s == "false"@ {
                Ok(ValueV::Bool(false))
            } else {
                Err(RuntimeErrorKindV::InvalidArgument("cannot convert `"@ + s + "` to `bool`"@))
            },
            _ => Err(RuntimeErrorKindV::InvalidArgument(conv_kind_msg(v, to))),
        }
    } else if to == "nil"@ {
        match v {
            ValueV::Nil => Ok(v),
            _ => Err(RuntimeErrorKindV::InvalidArgument(conv_kind_msg(v, to))),
        }
    } else {
        Err(RuntimeErrorKindV::InvalidArgument(conv_kind_msg(v, to)))
    }
}

/// One step of the machine at `s.pc` (which must address an instruction).
/// The step never touches the step counter; the driver accounts for it.
pub open spec fn step(p: ProgramV, args: Seq<Seq<char>>, s: StateV) -> StepRes {
    let ins = p.instrs[s.pc];
    let n = s.stack.len() as int;
    if is_binop(ins) {
        if n < 2 {
            StepRes::Stop(s, RuntimeErrorKindV::StackIsEmpty)
        } else {
            let a = s.stack[n - 2];
            let b = s.stack[n - 1];
            let s2 = StateV { stack: s.stack.take(n - 2), ..s };
            match bin_sem(ins, a, b) {
                Ok(v) => StepRes::Cont(StateV { pc: s.pc + 1, stack: s2.stack.push(v), ..s2 }),
                Err(k) => StepRes::Stop(s2, k),
            }
        }
    } else if is_unop(ins) {
        if n < 1 {
            StepRes::Stop(s, RuntimeErrorKindV::StackIsEmpty)
        } else {
            let v = s.stack[n - 1];
            let s2 = StateV { stack: s.stack.take(n - 1), ..s };
            match un_sem(ins, v) {
                Ok(w) => StepRes::Cont(StateV { pc: s.pc + 1, stack: s2.stack.push(w), ..s2 }),
                Err(k) => StepRes::Stop(s2, k),
            }
        }
    } else {
        match ins {
            InstrV::Nop => StepRes::Cont(StateV { pc: s.pc + 1, ..s }),
            InstrV::Label(_) => StepRes::Cont(StateV { pc: s.pc + 1, ..s }),
            InstrV::Push(v) => StepRes::Cont(StateV { pc: s.pc + 1, stack: s.stack.push(v), ..s }),
            InstrV::PopN(k) => if 0 <= k && k <= n {
                StepRes::Cont(StateV { pc: s.pc + 1, stack: s.stack.take(n - k), ..s })
            } else {
                StepRes::Stop(s, RuntimeErrorKindV::StackIsEmpty)
            },
            InstrV::Dup => if n >= 1 {
                StepRes::Cont(StateV { pc: s.pc + 1, stack: s.stack.push(s.stack[n - 1]), ..s })
            } else {
                StepRes::Stop(s, RuntimeErrorKindV::StackIsEmpty)
            },
            InstrV::Print => if n >= 1 {
                StepRes::Cont(
                    StateV {
                        pc: s.pc + 1,
                        stack: s.stack.take(n - 1),
                        output: s.output + render_spec(s.stack[n - 1]),
                        ..s
                    },
                )
            } else {
                StepRes::Cont(StateV { pc: s.pc + 1, ..s })
            },
            InstrV::Println => if n >= 1 {
                StepRes::Cont(
                    StateV {
                        pc: s.pc + 1,
                        stack: s.stack.take(n - 1),
                        output: s.output + render_spec(s.stack[n - 1]) + "\n"@,
                        ..s
                    },
                )
            } else {
                StepRes::Cont(StateV { pc: s.pc + 1, output: s.output + "\n"@, ..s })
            },
            InstrV::Read => StepRes::Stop(s, RuntimeErrorKindV::CustomError("input is not set"@)),
            InstrV::GetArg => if n < 1 {
                StepRes::Stop(s, RuntimeErrorKindV::StackIsEmpty)
            } else {
                let v = s.stack[n - 1];
                let s2 = StateV { stack: s.stack.take(n - 1), ..s };
                match v {
                    ValueV::Int(i) => if i < 0 {
                        StepRes::Stop(
                            s2,
                            RuntimeErrorKindV::InvalidArgument(
                                "invalid argument #2: expected `non-negative index`, found `negative index`"@,
                            ),
                        )
                    } else {
                        let w = if i < args.len() {
                            ValueV::Str(args[i as int])
                        } else {
                            ValueV::Nil
                        };
                        StepRes::Cont(StateV { pc: s.pc + 1, stack: s2.stack.push(w), ..s2 })
                    },
                    _ => StepRes::Stop(
                        s2,
                        RuntimeErrorKindV::InvalidArgument(
                            "unexpected argument of type `"@ + kind_name_spec(v) + "`"@,
                        ),
                    ),
                }
            },
            InstrV::Convert(t) => if n < 1 {
                StepRes::Stop(s, RuntimeErrorKindV::StackIsEmpty)
            } else {
                let v = s.stack[n - 1];
                let s2 = StateV { stack: s.stack.take(n - 1), ..s };
                match conv_sem(t, v) {
                    Ok(w) => StepRes::Cont(StateV { pc: s.pc + 1, stack: s2.stack.push(w), ..s2 }),
                    Err(k) => StepRes::Stop(s2, k),
                }
            },
            InstrV::Goto(l) => StepRes::Cont(StateV { pc: p.labels[l], ..s }),
            InstrV::Br(l) => if n < 1 {
                StepRes::Stop(s, RuntimeErrorKindV::StackIsEmpty)
            } else {
                let v = s.stack[n - 1];
                let s2 = StateV { stack: s.stack.take(n - 1), ..s };
                match v {
                    ValueV::Bool(c) => if c {
                        StepRes::Cont(StateV { pc: p.labels[l], ..s2 })
                    } else {
                        StepRes::Cont(StateV { pc: s.pc + 1, ..s2 })
                    },
                    _ => StepRes::Stop(
                        s2,
                        RuntimeErrorKindV::InvalidArgument(
                            "expected `bool`, found `"@ + kind_name_spec(v) + "`"@,
                        ),
                    ),
                }
            },
            InstrV::Load(x) => if s.vars.contains_key(x) {
                StepRes::Cont(StateV { pc: s.pc + 1, stack: s.stack.push(s.vars[x]), ..s })
            } else {
                StepRes::Stop(s, RuntimeErrorKindV::VariableNotFound(x))
            },
            InstrV::Store(x) => if n >= 1 {
                StepRes::Cont(
                    StateV {
                        pc: s.pc + 1,
                        stack: s.stack.take(n - 1),
                        vars: s.vars.insert(x, s.stack[n - 1]),
                        ..s
                    },
                )
            } else {
                StepRes::Stop(s, RuntimeErrorKindV::StackIsEmpty)
            },
            InstrV::Assert => if n < 1 {
                StepRes::Stop(s, RuntimeErrorKindV::StackIsEmpty)
            } else {
                let v = s.stack[n - 1];
                let s1 = StateV { stack: s.stack.take(n - 1), ..s };
                match v {
                    ValueV::Str(m) => if n < 2 {
                        StepRes::Stop(s1, RuntimeErrorKindV::StackIsEmpty)
                    } else {
                        let c = s.stack[n - 2];
                        let s2 = StateV { stack: s.stack.take(n - 2), ..s };
                        if truthy(c) {
                            StepRes::Cont(StateV { pc: s.pc + 1, ..s2 })
                        } else {
                            StepRes::Stop(s2, RuntimeErrorKindV::AssertionFailed(m))
                        }
                    },
                    _ => if truthy(v) {
                        StepRes::Cont(StateV { pc: s.pc + 1, ..s1 })
                    } else {
                        StepRes::Stop(s1, RuntimeErrorKindV::AssertionFailed("false"@))
                    },
                }
            },
            InstrV::Raise => if n < 1 {
                StepRes::Stop(s, RuntimeErrorKindV::StackIsEmpty)
            } else {
                let v = s.stack[n - 1];
                let s1 = StateV { stack: s.stack.take(n - 1), ..s };
                match v {
                    ValueV::Str(m) => StepRes::Stop(s1, RuntimeErrorKindV::CustomError(m)),
                    _ => StepRes::Stop(
                        s1,
                        RuntimeErrorKindV::InvalidArgument(
                            "error message must be string, found "@ + kind_name_spec(v),
                        ),
                    ),
                }
            },
            InstrV::Exit => if n < 1 {
                StepRes::Stop(s, RuntimeErrorKindV::StackIsEmpty)
            } else {
                let v = s.stack[n - 1];
                let s1 = StateV { stack: s.stack.take(n - 1), ..s };
                match v {
                    ValueV::Int(c) => StepRes::Stop(s1, RuntimeErrorKindV::Exit(c)),
                    _ => StepRes::Stop(
                        s1,
                        RuntimeErrorKindV::InvalidArgument(
                            "exit code must be integer, found "@ + kind_name_spec(v),
                        ),
                    ),
                }
            },
            _ => StepRes::Stop(s, RuntimeErrorKindV::StackIsEmpty),
        }
    }
}

/// Runs the machine from `s` until the program ends, a fault halts it, or a
/// governor trips. Execution is a function of program, arguments,
/// configuration and starting state alone, so two runs of one program under
/// one configuration agree in every respect.
pub open spec fn run_from(p: ProgramV, args: Seq<Seq<char>>, max_stack: int, max_steps: int, s: StateV) -> (StateV, Option<RuntimeErrorV>)
    decreases max_steps + 1 - s.steps,
    when 0 <= s.steps <= max_steps
{
    if !(0 <= s.pc < p.instrs.len()) {
        (s, None)
    } else {
        match step(p, args, s) {
            StepRes::Stop(s2, k) => (s2, Some(RuntimeErrorV { kind: k, line: p.lines[s.pc] })),
            StepRes::Cont(s2) => {
                let s3 = StateV { steps: s.steps + 1, ..s2 };
                if s3.steps > max_steps {
                    (s3, Some(RuntimeErrorV { kind: RuntimeErrorKindV::Timeout, line: p.lines[s.pc] }))
                } else if s3.stack.len() > max_stack {
                    (
                        s3,
                        Some(
                            RuntimeErrorV {
                                kind: RuntimeErrorKindV::StackOverflow,
                                line: p.lines[s.pc],
                            },
                        ),
                    )
                } else {
                    run_from(p, args, max_stack, max_steps, s3)
                }
            },
        }
    }
}

} // verus!

verus! {

// ---------------------------------------------------------------------------
// Executable operations
// ---------------------------------------------------------------------------

fn is_binop_e(i: &Instr) -> (r: bool)
    ensures
        r == is_binop(i@),
{
    match i {
        Instr::Add | Instr::Sub | Instr::Mul | Instr::Div | Instr::Mod | Instr::Greater
            | Instr::Less | Instr::GreaterEq | Instr::LessEq | Instr::Equal | Instr::NotEqual
            | Instr::And | Instr::Or | Instr::Xor | Instr::Min | Instr::Max => true,
        _ => false,
    }
}

fn is_unop_e(i: &Instr) -> (r: bool)
    ensures
        r == is_unop(i@),
{
    match i {
        Instr::Neg | Instr::Not | Instr::Abs | Instr::Sign | Instr::Len => true,
        _ => false,
    }
}

fn mk_rt_attempt(name: &str, a: &Value, b: &Value) -> (k: RuntimeErrorKind)
    ensures
        k@ == RuntimeErrorKindV::InvalidArgument(attempt_msg(name@, a@, b@)),
{
    let mut m = String::from_str("attempt to ");
    m.append(name);
    m.append(" `");
    m.append(a.kind_name());
    m.append("` and `");
    m.append(b.kind_name());
    m.append("`");
    proof {
        assert(m@ =~= attempt_msg(name@, a@, b@));
    }
    RuntimeErrorKind::InvalidArgument(m)
}

fn mk_rt_compare(a: &Value, b: &Value) -> (k: RuntimeErrorKind)
    ensures
        k@ == RuntimeErrorKindV::InvalidArgument(compare_msg(a@, b@)),
{
    let mut m = String::from_str("cannot compare `");
    m.append(a.kind_name());
    m.append("` and `");
    m.append(b.kind_name());
    m.append("`");
    proof {
        assert(m@ =~= compare_msg(a@, b@));
    }
    RuntimeErrorKind::InvalidArgument(m)
}

fn mk_rt_typed(prefix: &str, v: &Value, suffix: &str) -> (k: RuntimeErrorKind)
    ensures
        k@ == RuntimeErrorKindV::InvalidArgument(prefix@ + kind_name_spec(v@) + suffix@),
{
    let mut m = String::from_str(prefix);
    m.append(v.kind_name());
    m.append(suffix);
    proof {
        assert(m@ =~= prefix@ + kind_name_spec(v@) + suffix@);
    }
    RuntimeErrorKind::InvalidArgument(m)
}

/// Executes one binary operation; `op` must be a binary opcode.
fn eval_bin(op: &Instr, a: Value, b: Value) -> (r: Result<Value, RuntimeErrorKind>)
    requires
        is_binop(op@),
    ensures
        match r {
            Ok(v) => bin_sem(op@, a@, b@) == Ok::<ValueV, RuntimeErrorKindV>(v@),
            Err(k) => bin_sem(op@, a@, b@) == Err::<ValueV, RuntimeErrorKindV>(k@),
        },
{
    match op {
        Instr::Add => match (a, b) {
            (Value::Int(x), Value::Int(y)) => Ok(Value::Int(x.wrapping_add(y))),
            (Value::Str(x), Value::Str(y)) => {
                let mut s = x;
                s.append(y.as_str());
                Ok(Value::Str(s))
            },
            (av, bv) => Err(mk_rt_attempt("add", &av, &bv)),
        },
        Instr::Sub => match (a, b) {
            (Value::Int(x), Value::Int(y)) => Ok(Value::Int(x.wrapping_sub(y))),
            (av, bv) => Err(mk_rt_attempt("sub", &av, &bv)),
        },
        Instr::Mul => match (a, b) {
            (Value::Int(x), Value::Int(y)) => Ok(Value::Int(x.wrapping_mul(y))),
            (av, bv) => Err(mk_rt_attempt("mul", &av, &bv)),
        },
        Instr::Div => match (a, b) {
            (Value::Int(x), Value::Int(y)) => match x.checked_div(y) {
                Some(q) => Ok(Value::Int(q)),
                None => if y == 0 {
                    Err(RuntimeErrorKind::DivisionByZero)
                } else {
                    Ok(Value::Int(i64::MIN))
                },
            },
            (av, bv) => Err(mk_rt_attempt("div", &av, &bv)),
        },
        Instr::Mod => match (a, b) {
            (Value::Int(x), Value::Int(y)) => match x.checked_rem(y) {
                Some(q) => Ok(Value::Int(q)),
                None => if y == 0 {
                    Err(RuntimeErrorKind::DivisionByZero)
                } else {
                    Ok(Value::Int(0))
                },
            },
            (av, bv) => Err(mk_rt_attempt("mod", &av, &bv)),
        },
        Instr::Greater => match (a, b) {
            (Value::Int(x), Value::Int(y)) => Ok(Value::Bool(x > y)),
            (av, bv) => Err(mk_rt_compare(&av, &bv)),
        },
        Instr::Less => match (a, b) {
            (Value::Int(x), Value::Int(y)) => Ok(Value::Bool(x < y)),
            (av, bv) => Err(mk_rt_compare(&av, &bv)),
        },
        Instr::GreaterEq => match (a, b) {
            (Value::Int(x), Value::Int(y)) => Ok(Value::Bool(x >= y)),
            (av, bv) => Err(mk_rt_compare(&av, &bv)),
        },
        Instr::LessEq => match (a, b) {
            (Value::Int(x), Value::Int(y)) => Ok(Value::Bool(x <= y)),
            (av, bv) => Err(mk_rt_compare(&av, &bv)),
        },
        Instr::Equal => Ok(Value::Bool(value_eq(&a, &b))),
        Instr::NotEqual => Ok(Value::Bool(!value_eq(&a, &b))),
        Instr::And => match (a, b) {
            (Value::Bool(x), Value::Bool(y)) => Ok(Value::Bool(x && y)),
            (Value::Int(x), Value::Int(y)) => Ok(Value::Int(x & y)),
            (av, bv) => Err(mk_rt_attempt("and", &av, &bv)),
        },
        Instr::Or => match (a, b) {
            (Value::Bool(x), Value::Bool(y)) => Ok(Value::Bool(x || y)),
            (Value::Int(x), Value::Int(y)) => Ok(Value::Int(x | y)),
            (av, bv) => Err(mk_rt_attempt("or", &av, &bv)),
        },
        Instr::Xor => match (a, b) {
            (Value::Bool(x), Value::Bool(y)) => Ok(Value::Bool(x != y)),
            (Value::Int(x), Value::Int(y)) => Ok(Value::Int(x ^ y)),
            (av, bv) => Err(mk_rt_attempt("xor", &av, &bv)),
        },
        Instr::Min => match (a, b) {
            (Value::Int(x), Value::Int(y)) => Ok(Value::Int(if x < y { x } else { y })),
            (av, bv) => Err(mk_rt_attempt("min", &av, &bv)),
        },
        Instr::Max => match (a, b) {
            (Value::Int(x), Value::Int(y)) => Ok(Value::Int(if x > y { x } else { y })),
            (av, bv) => Err(mk_rt_attempt("max", &av, &bv)),
        },
        _ => Err(RuntimeErrorKind::StackIsEmpty),
    }
}

/// Executes one unary operation; `op` must be a unary opcode.
fn eval_un(op: &Instr, v: Value) -> (r: Result<Value, RuntimeErrorKind>)
    requires
        is_unop(op@),
    ensures
        match r {
            Ok(w) => un_sem(op@, v@) == Ok::<ValueV, RuntimeErrorKindV>(w@),
            Err(k) => un_sem(op@, v@) == Err::<ValueV, RuntimeErrorKindV>(k@),
        },
{
    match op {
        Instr::Neg => match v {
            Value::Int(x) => {
                if x == i64::MIN {
                    Ok(Value::Int(i64::MIN))
                } else {
                    Ok(Value::Int(-x))
                }
            },
            w => {
                proof {
                    reveal_strlit("");
                    assert("neg: type mismatch: "@ + kind_name_spec(w@) + ""@
                        =~= "neg: type mismatch: "@ + kind_name_spec(w@));
                }
                Err(mk_rt_typed("neg: type mismatch: ", &w, ""))
            },
        },
        Instr::Not => match v {
            Value::Bool(b) => Ok(Value::Bool(!b)),
            Value::Int(x) => Ok(Value::Int(!x)),
            w => {
                proof {
                    lemma_apply_not_msg(w@);
                }
                Err(mk_rt_typed("cannot apply not to `", &w, "`"))
            },
        },
        Instr::Abs => match v {
            Value::Int(x) => {
                if x == i64::MIN {
                    Ok(Value::Int(i64::MIN))
                } else if x < 0 {
                    Ok(Value::Int(-x))
                } else {
                    Ok(Value::Int(x))
                }
            },
            w => Err(mk_rt_typed("unexpected argument to `abs` (", &w, ")")),
        },
        Instr::Sign => match v {
            Value::Int(x) => Ok(Value::Int(if x > 0 { 1 } else if x < 0 { -1 } else { 0 })),
            w => Err(mk_rt_typed("unexpected argument to `sign` (", &w, ")")),
        },
        Instr::Len => match v {
            Value::Str(s) => {
                let l = s.as_str().unicode_len();
                if (l as u64) <= (i64::MAX as u64) {
                    Ok(Value::Int(l as i64))
                } else {
                    Ok(Value::Int(i64::MAX))
                }
            },
            w => Err(mk_rt_typed("unexpected argument to `len` (", &w, ")")),
        },
        _ => Err(RuntimeErrorKind::StackIsEmpty),
    }
}

proof fn lemma_apply_not_msg(v: ValueV)
    ensures
        "cannot apply not to `"@ + kind_name_spec(v) + "`"@ == apply_msg("not"@, v),
{
    reveal_strlit("cannot apply not to `");
    reveal_strlit("cannot apply ");
    reveal_strlit("not");
    reveal_strlit(" to `");
    assert("cannot apply not to `"@ =~= "cannot apply "@ + "not"@ + " to `"@);
    assert("cannot apply not to `"@ + kind_name_spec(v) + "`"@
        =~= "cannot apply "@ + "not"@ + " to `"@ + kind_name_spec(v) + "`"@);
}


fn mk_conv_str_err(s: &String, suffix: &str) -> (k: RuntimeErrorKind)
    ensures
        k@ == RuntimeErrorKindV::InvalidArgument("cannot convert `"@ + s@ + suffix@),
{
    let mut m = String::from_str("cannot convert `");
    m.append(s.as_str());
    m.append(suffix);
    proof {
        assert(m@ =~= "cannot convert `"@ + s@ + suffix@);
    }
    RuntimeErrorKind::InvalidArgument(m)
}

fn mk_conv_kind_err(v: &Value, to: &str) -> (k: RuntimeErrorKind)
    ensures
        k@ == RuntimeErrorKindV::InvalidArgument(conv_kind_msg(v@, to@)),
{
    let mut m = String::from_str("cannot convert `");
    m.append(v.kind_name());
    m.append("` to `");
    m.append(to);
    m.append("`");
    proof {
        assert(m@ =~= conv_kind_msg(v@, to@));
    }
    RuntimeErrorKind::InvalidArgument(m)
}

/// Executes one `convert`.
fn eval_conv(to: &String, v: Value) -> (r: Result<Value, RuntimeErrorKind>)
    ensures
        match r {
            Ok(w) => conv_sem(to@, v@) == Ok::<ValueV, RuntimeErrorKindV>(w@),
            Err(k) => conv_sem(to@, v@) == Err::<ValueV, RuntimeErrorKindV>(k@),
        },
{
    if str_eq(to.as_str(), "int") {
        match v {
            Value::Int(i) => Ok(Value::Int(i)),
            Value::Bool(b) => Ok(Value::Int(if b { 1 } else { 0 })),
            Value::Str(s) => match parse_int(s.as_str()) {
                Some(i) => Ok(Value::Int(i)),
                None => {
                    proof {
                        reveal_strlit("` to `int`");
                        reveal_strlit("` to `");
                        reveal_strlit("int");
                        reveal_strlit("`");
                        assert("` to `int`"@ =~= "` to `"@ + "int"@ + "`"@);
                    }
                    Err(mk_conv_str_err(&s, "` to `int`"))
                },
            },
            w => Err(mk_conv_kind_err(&w, "int")),
        }
    } else if str_eq(to.as_str(), "string") {
        match v {
            Value::Str(s) => Ok(Value::Str(s)),
            Value::Int(i) => {
                let mut out = String::new();
                push_i64_dec(i, &mut out);
                proof {
                    assert(out@ =~= int_str(i as int));
                }
                Ok(Value::Str(out))
            },
            w => Err(mk_conv_kind_err(&w, "string")),
        }
    } else if str_eq(to.as_str(), "bool") {
        match v {
            Value::Bool(b) => Ok(Value::Bool(b)),
            Value::Int(i) => Ok(Value::Bool(i != 0)),
            Value::Str(s) => {
                if str_eq(s.as_str(), "true") {
                    Ok(Value::Bool(true))
                } else if str_eq(s.as_str(), "false") {
                    Ok(Value::Bool(false))
                } else {
                    proof {
                        reveal_strlit("` to `bool`");
                        reveal_strlit("` to `");
                        reveal_strlit("bool");
                        reveal_strlit("`");
                        assert("` to `bool`"@ =~= "` to `"@ + "bool"@ + "`"@);
                    }
                    Err(mk_conv_str_err(&s, "` to `bool`"))
                }
            },
            w => Err(mk_conv_kind_err(&w, "bool")),
        }
    } else if str_eq(to.as_str(), "nil") {
        match v {
            Value::Nil => Ok(Value::Nil),
            w => Err(mk_conv_kind_err(&w, "nil")),
        }
    } else {
        let w = v;
        let mut m = String::from_str("cannot convert `");
        m.append(w.kind_name());
        m.append("` to `");
        m.append(to.as_str());
        m.append("`");
        proof {
            assert(m@ =~= conv_kind_msg(w@, to@));
        }
        Err(RuntimeErrorKind::InvalidArgument(m))
    }
}

// ---------------------------------------------------------------------------
// Variables
// ---------------------------------------------------------------------------

/// The map denoted by a binding list: a later binding for a name wins.
pub open spec fn vars_map(s: Seq<(String, Value)>) -> Map<Seq<char>, ValueV>
    decreases s.len(),
{
    if s.len() == 0 {
        Map::empty()
    } else {
        vars_map(s.drop_last()).insert(s.last().0@, s.last().1@)
    }
}

fn vars_get(vars: &Vec<(String, Value)>, name: &str) -> (r: Option<Value>)
    ensures
        match r {
            Some(v) => vars_map(vars@).contains_key(name@) && v@ == vars_map(vars@)[name@],
            None => !vars_map(vars@).contains_key(name@),
        },
{
    let mut i = vars.len();
    proof {
        assert(vars@.take(vars@.len() as int) =~= vars@);
    }
    while i > 0
        invariant
            i <= vars@.len(),
            vars_map(vars@).contains_key(name@) == vars_map(vars@.take(i as int)).contains_key(name@),
            vars_map(vars@).contains_key(name@)
                ==> vars_map(vars@)[name@] == vars_map(vars@.take(i as int))[name@],
        decreases i,
    {
        let ghost tk = vars@.take(i as int);
        proof {
            assert(tk.drop_last() =~= vars@.take(i as int - 1));
            assert(tk.last() == vars@[i as int - 1]);
        }
        if str_eq(vars[i - 1].0.as_str(), name) {
            return Some(vars[i - 1].1.clone());
        }
        i = i - 1;
    }
    proof {
        assert(vars@.take(0) =~= Seq::<(String, Value)>::empty());
    }
    None
}

} // verus!

verus! {

fn labels_get(tab: &Vec<(String, usize)>, name: &str) -> (r: Option<usize>)
    ensures
        match r {
            Some(t) => crate::program::labels_map(tab@).contains_key(name@)
                && t as int == crate::program::labels_map(tab@)[name@],
            None => !crate::program::labels_map(tab@).contains_key(name@),
        },
{
    let mut i = tab.len();
    proof {
        assert(tab@.take(tab@.len() as int) =~= tab@);
    }
    while i > 0
        invariant
            i <= tab@.len(),
            crate::program::labels_map(tab@).contains_key(name@)
                == crate::program::labels_map(tab@.take(i as int)).contains_key(name@),
            crate::program::labels_map(tab@).contains_key(name@)
                ==> crate::program::labels_map(tab@)[name@]
                    == crate::program::labels_map(tab@.take(i as int))[name@],
        decreases i,
    {
        let ghost tk = tab@.take(i as int);
        proof {
            assert(tk.drop_last() =~= tab@.take(i as int - 1));
            assert(tk.last() == tab@[i as int - 1]);
        }
        if str_eq(tab[i - 1].0.as_str(), name) {
            return Some(tab[i - 1].1);
        }
        i = i - 1;
    }
    proof {
        assert(tab@.take(0) =~= Seq::<(String, usize)>::empty());
    }
    None
}

/// The execution context of one run: operand stack, variables, output text
/// and the configured governors. Create one per run; after a fault it is
/// spent and a new one should be made for the next script.
pub struct Interpreter {
    pub config: Config,
    pub stack: Vec<Value>,
    pub vars: Vec<(String, Value)>,
    pub output: String,
}

/// The machine state an interpreter embodies at program counter `pc` after
/// `steps` executed instructions.
pub open spec fn state_of(it: Interpreter, pc: int, steps: int) -> StateV {
    StateV {
        pc: pc,
        steps: steps,
        stack: it.stack.deep_view(),
        vars: vars_map(it.vars@),
        output: it.output@,
    }
}

impl Interpreter {
    /// A fresh interpreter: empty stack, no variables, empty output.
    pub fn new(config: Config) -> (r: Interpreter)
        ensures
            r.config == config,
            r.stack.deep_view() == Seq::<ValueV>::empty(),
            vars_map(r.vars@) == Map::<Seq<char>, ValueV>::empty(),
            r.output@ == Seq::<char>::empty(),
    {
        let r = Interpreter {
            config: config,
            stack: Vec::new(),
            vars: Vec::new(),
            output: String::new(),
        };
        proof {
            assert(r.stack.deep_view() =~= Seq::<ValueV>::empty());
        }
        r
    }

    /// The operand stack as it stands (after a run: the final stack).
    pub fn stack(&self) -> (r: &Vec<Value>)
        ensures
            r == &self.stack,
    {
        &self.stack
    }

    /// Everything the program has printed so far.
    pub fn output(&self) -> (r: &String)
        ensures
            r == &self.output,
    {
        &self.output
    }

    /// Executes `program` to its natural end, a fault, or a governor limit.
    /// The whole behaviour — final stack, variables, output, and the
    /// verdict — equals the mathematical run [`run_from`] started from this
    /// interpreter's state, so execution is deterministic. Output written
    /// before a fault stays written; nothing is rolled back.
    #[verifier::rlimit(100)]
    pub fn run(&mut self, program: &Program, args: &Vec<String>) -> (r: Result<(), RuntimeError>)
        requires
            program@.wf(),
        ensures
            ({
                let ran = run_from(
                    program@,
                    args.deep_view(),
                    old(self).config.max_stack_size as int,
                    old(self).config.max_execution_time as int,
                    state_of(*old(self), 0, 0),
                );
                &&& final(self).config == old(self).config
                &&& final(self).stack.deep_view() == ran.0.stack
                &&& vars_map(final(self).vars@) == ran.0.vars
                &&& final(self).output@ == ran.0.output
                &&& (match r {
                    Ok(_) => ran.1 is None,
                    Err(e) => ran.1 == Some(e@),
                })
            }),
    {
        let ghost pv = program@;
        let ghost av = args.deep_view();
        let ghost mstack = self.config.max_stack_size as int;
        let ghost msteps = self.config.max_execution_time as int;
        let ghost s0 = state_of(*self, 0, 0);
        let mut pc: usize = 0;
        let mut steps: u64 = 0;
        let len = program.instrs.len();
        while pc < len
            invariant
                pv == program@,
                av == args.deep_view(),
                pv.wf(),
                len == pv.instrs.len(),
                self.config == old(self).config,
                mstack == self.config.max_stack_size as int,
                msteps == self.config.max_execution_time as int,
                steps <= self.config.max_execution_time,
                pc <= len,
                s0 == state_of(*old(self), 0, 0),
                run_from(pv, av, mstack, msteps, s0)
                    == run_from(pv, av, mstack, msteps, state_of(*self, pc as int, steps as int)),
            decreases msteps + 1 - steps,
        {
            let ghost scur = state_of(*self, pc as int, steps as int);
            proof {
                assert(program.lines@.len() == pv.lines.len());
            }
            let cur_line = program.lines[pc];
            let ins = &program.instrs[pc];
            proof {
                assert(ins@ == pv.instrs[pc as int]);
            }
            if is_binop_e(ins) {
                if self.stack.len() < 2 {
                    proof {
                        assert(step(pv, av, scur) == StepRes::Stop(scur, RuntimeErrorKindV::StackIsEmpty));
                    }
                    return Err(RuntimeError { kind: RuntimeErrorKind::StackIsEmpty, line: cur_line });
                }
                let ghost n0 = scur.stack.len() as int;
                let b = self.stack.pop().unwrap();
                let a = self.stack.pop().unwrap();
                proof {
                    assert(self.stack.deep_view() =~= scur.stack.take(n0 - 2));
                    assert(a@ == scur.stack[n0 - 2]);
                    assert(b@ == scur.stack[n0 - 1]);
                }
                match eval_bin(ins, a, b) {
                    Ok(v) => {
                        let ghost gv = v@;
                        self.stack.push(v);
                        pc = pc + 1;
                        proof {
                            assert(self.stack.deep_view() =~= scur.stack.take(n0 - 2).push(gv));
                            assert(step(pv, av, scur)
                                == StepRes::Cont(state_of(*self, pc as int, steps as int)));
                        }
                    },
                    Err(k) => {
                        proof {
                            assert(step(pv, av, scur)
                                == StepRes::Stop(state_of(*self, pc as int, steps as int), k@));
                        }
                        return Err(RuntimeError { kind: k, line: cur_line });
                    },
                }
            } else if is_unop_e(ins) {
                if self.stack.len() < 1 {
                    proof {
                        assert(step(pv, av, scur) == StepRes::Stop(scur, RuntimeErrorKindV::StackIsEmpty));
                    }
                    return Err(RuntimeError { kind: RuntimeErrorKind::StackIsEmpty, line: cur_line });
                }
                let ghost n0 = scur.stack.len() as int;
                let v = self.stack.pop().unwrap();
                proof {
                    assert(self.stack.deep_view() =~= scur.stack.take(n0 - 1));
                    assert(v@ == scur.stack[n0 - 1]);
                }
                match eval_un(ins, v) {
                    Ok(w) => {
                        let ghost gw = w@;
                        self.stack.push(w);
                        pc = pc + 1;
                        proof {
                            assert(self.stack.deep_view() =~= scur.stack.take(n0 - 1).push(gw));
                            assert(step(pv, av, scur)
                                == StepRes::Cont(state_of(*self, pc as int, steps as int)));
                        }
                    },
                    Err(k) => {
                        proof {
                            assert(step(pv, av, scur)
                                == StepRes::Stop(state_of(*self, pc as int, steps as int), k@));
                        }
                        return Err(RuntimeError { kind: k, line: cur_line });
                    },
                }
            } else {
                match ins {
                    Instr::Nop => {
                        pc = pc + 1;
                    },
                    Instr::Label(_) => {
                        pc = pc + 1;
                    },
                    Instr::Push(v) => {
                        self.stack.push(v.clone());
                        pc = pc + 1;
                        proof {
                            assert(self.stack.deep_view() =~= scur.stack.push(v@));
                        }
                    },
                    Instr::PopN(k) => {
                        let k = *k;
                        if self.stack.len() < k {
                            proof {
                                assert(step(pv, av, scur)
                                    == StepRes::Stop(scur, RuntimeErrorKindV::StackIsEmpty));
                            }
                            return Err(RuntimeError { kind: RuntimeErrorKind::StackIsEmpty, line: cur_line });
                        }
                        let ghost n0 = scur.stack.len() as int;
                        let mut j: usize = 0;
                        while j < k
                            invariant
                                j <= k,
                                k <= n0,
                                n0 == scur.stack.len(),
                                self.stack.deep_view() =~= scur.stack.take(n0 - j),
                                self.config == old(self).config,
                                vars_map(self.vars@) == scur.vars,
                                self.output@ == scur.output,
                            decreases k - j,
                        {
                            let ghost pre = self.stack.deep_view();
                            let _ = self.stack.pop();
                            proof {
                                assert(self.stack.deep_view() =~= pre.drop_last());
                                assert(pre.drop_last() =~= scur.stack.take(n0 - j - 1));
                            }
                            j = j + 1;
                        }
                        pc = pc + 1;
                        proof {
                            assert(step(pv, av, scur)
                                == StepRes::Cont(state_of(*self, pc as int, steps as int)));
                        }
                    },
                    Instr::Dup => {
                        if self.stack.len() == 0 {
                            proof {
                                assert(step(pv, av, scur)
                                    == StepRes::Stop(scur, RuntimeErrorKindV::StackIsEmpty));
                            }
                            return Err(RuntimeError { kind: RuntimeErrorKind::StackIsEmpty, line: cur_line });
                        }
                        let v = self.stack[self.stack.len() - 1].clone();
                        self.stack.push(v);
                        pc = pc + 1;
                        proof {
                            assert(self.stack.deep_view()
                                =~= scur.stack.push(scur.stack[scur.stack.len() - 1]));
                        }
                    },
                    Instr::Print => {
                        let ghost n0 = scur.stack.len() as int;
                        match self.stack.pop() {
                            Some(v) => {
                                render_push(&v, &mut self.output);
                                proof {
                                    assert(self.stack.deep_view() =~= scur.stack.take(n0 - 1));
                                }
                            },
                            None => {},
                        }
                        pc = pc + 1;
                    },
                    Instr::Println => {
                        let ghost n0 = scur.stack.len() as int;
                        match self.stack.pop() {
                            Some(v) => {
                                render_push(&v, &mut self.output);
                                self.output.append("\n");
                                proof {
                                    assert(self.stack.deep_view() =~= scur.stack.take(n0 - 1));
                                    assert(self.output@ =~= scur.output + render_spec(v@) + "\n"@);
                                }
                            },
                            None => {
                                self.output.append("\n");
                            },
                        }
                        pc = pc + 1;
                    },
                    Instr::Read => {
                        proof {
                            assert(step(pv, av, scur)
                                == StepRes::Stop(scur, RuntimeErrorKindV::CustomError("input is not set"@)));
                        }
                        return Err(RuntimeError {
                            kind: RuntimeErrorKind::CustomError(String::from_str("input is not set")),
                            line: cur_line,
                        });
                    },
                    Instr::GetArg => {
                        let ghost n0 = scur.stack.len() as int;
                        match self.stack.pop() {
                            None => {
                                proof {
                                    assert(step(pv, av, scur)
                                        == StepRes::Stop(scur, RuntimeErrorKindV::StackIsEmpty));
                                }
                                return Err(RuntimeError { kind: RuntimeErrorKind::StackIsEmpty, line: cur_line });
                            },
                            Some(v) => {
                                proof {
                                    assert(self.stack.deep_view() =~= scur.stack.take(n0 - 1));
                                }
                                match v {
                                    Value::Int(i) => {
                                        if i < 0 {
                                            return Err(RuntimeError {
                                                kind: RuntimeErrorKind::InvalidArgument(
                                                    String::from_str(
                                                        "invalid argument #2: expected `non-negative index`, found `negative index`",
                                                    ),
                                                ),
                                                line: cur_line,
                                            });
                                        }
                                        if (i as u64) < (args.len() as u64) {
                                            let w = Value::Str(args[i as usize].clone());
                                            let ghost gw = w@;
                                            self.stack.push(w);
                                            proof {
                                                assert(gw == ValueV::Str(av[i as int]));
                                                assert(self.stack.deep_view()
                                                    =~= scur.stack.take(n0 - 1).push(gw));
                                            }
                                        } else {
                                            self.stack.push(Value::Nil);
                                            proof {
                                                assert(self.stack.deep_view()
                                                    =~= scur.stack.take(n0 - 1).push(ValueV::Nil));
                                            }
                                        }
                                        pc = pc + 1;
                                    },
                                    w => {
                                        let k = mk_rt_typed("unexpected argument of type `", &w, "`");
                                        return Err(RuntimeError { kind: k, line: cur_line });
                                    },
                                }
                            },
                        }
                    },
                    Instr::Convert(t) => {
                        let ghost n0 = scur.stack.len() as int;
                        match self.stack.pop() {
                            None => {
                                proof {
                                    assert(step(pv, av, scur)
                                        == StepRes::Stop(scur, RuntimeErrorKindV::StackIsEmpty));
                                }
                                return Err(RuntimeError { kind: RuntimeErrorKind::StackIsEmpty, line: cur_line });
                            },
                            Some(v) => {
                                proof {
                                    assert(self.stack.deep_view() =~= scur.stack.take(n0 - 1));
                                }
                                match eval_conv(t, v) {
                                    Ok(w) => {
                                        let ghost gw = w@;
                                        self.stack.push(w);
                                        pc = pc + 1;
                                        proof {
                                            assert(self.stack.deep_view()
                                                =~= scur.stack.take(n0 - 1).push(gw));
                                        }
                                    },
                                    Err(k) => {
                                        return Err(RuntimeError { kind: k, line: cur_line });
                                    },
                                }
                            },
                        }
                    },
                    Instr::Goto(l) => {
                        match labels_get(&program.labels, l.as_str()) {
                            Some(t) => {
                                pc = t;
                            },
                            None => {
                                proof {
                                    assert(pv.labels.contains_key(l@));
                                    assert(false);
                                }
                                return Err(RuntimeError { kind: RuntimeErrorKind::StackIsEmpty, line: cur_line });
                            },
                        }
                    },
                    Instr::Br(l) => {
                        let ghost n0 = scur.stack.len() as int;
                        match self.stack.pop() {
                            None => {
                                proof {
                                    assert(step(pv, av, scur)
                                        == StepRes::Stop(scur, RuntimeErrorKindV::StackIsEmpty));
                                }
                                return Err(RuntimeError { kind: RuntimeErrorKind::StackIsEmpty, line: cur_line });
                            },
                            Some(v) => {
                                proof {
                                    assert(self.stack.deep_view() =~= scur.stack.take(n0 - 1));
                                }
                                match v {
                                    Value::Bool(c) => {
                                        if c {
                                            match labels_get(&program.labels, l.as_str()) {
                                                Some(t) => {
                                                    pc = t;
                                                },
                                                None => {
                                                    proof {
                                                        assert(pv.labels.contains_key(l@));
                                                        assert(false);
                                                    }
                                                    return Err(RuntimeError { kind: RuntimeErrorKind::StackIsEmpty, line: cur_line });
                                                },
                                            }
                                        } else {
                                            pc = pc + 1;
                                        }
                                    },
                                    w => {
                                        let k = mk_rt_typed("expected `bool`, found `", &w, "`");
                                        return Err(RuntimeError { kind: k, line: cur_line });
                                    },
                                }
                            },
                        }
                    },
                    Instr::Load(x) => {
                        match vars_get(&self.vars, x.as_str()) {
                            Some(v) => {
                                self.stack.push(v);
                                pc = pc + 1;
                                proof {
                                    assert(self.stack.deep_view() =~= scur.stack.push(scur.vars[x@]));
                                }
                            },
                            None => {
                                proof {
                                    assert(step(pv, av, scur)
                                        == StepRes::Stop(scur, RuntimeErrorKindV::VariableNotFound(x@)));
                                }
                                return Err(RuntimeError {
                                    kind: RuntimeErrorKind::VariableNotFound(x.clone()),
                                    line: cur_line,
                                });
                            },
                        }
                    },
                    Instr::Store(x) => {
                        let ghost n0 = scur.stack.len() as int;
                        match self.stack.pop() {
                            None => {
                                proof {
                                    assert(step(pv, av, scur)
                                        == StepRes::Stop(scur, RuntimeErrorKindV::StackIsEmpty));
                                }
                                return Err(RuntimeError { kind: RuntimeErrorKind::StackIsEmpty, line: cur_line });
                            },
                            Some(v) => {
                                let ghost gv = v@;
                                let ghost pre_vars = self.vars@;
                                self.vars.push((x.clone(), v));
                                pc = pc + 1;
                                proof {
                                    assert(self.vars@.drop_last() =~= pre_vars);
                                    assert(self.vars@.last().0@ == x@);
                                    assert(self.stack.deep_view() =~= scur.stack.take(n0 - 1));
                                    assert(vars_map(self.vars@) =~= scur.vars.insert(x@, gv));
                                }
                            },
                        }
                    },
                    Instr::Assert => {
                        let ghost n0 = scur.stack.len() as int;
                        match self.stack.pop() {
                            None => {
                                proof {
                                    assert(step(pv, av, scur)
                                        == StepRes::Stop(scur, RuntimeErrorKindV::StackIsEmpty));
                                }
                                return Err(RuntimeError { kind: RuntimeErrorKind::StackIsEmpty, line: cur_line });
                            },
                            Some(v) => {
                                proof {
                                    assert(self.stack.deep_view() =~= scur.stack.take(n0 - 1));
                                }
                                match v {
                                    Value::Str(m) => {
                                        match self.stack.pop() {
                                            None => {
                                                return Err(RuntimeError { kind: RuntimeErrorKind::StackIsEmpty, line: cur_line });
                                            },
                                            Some(c) => {
                                                proof {
                                                    assert(self.stack.deep_view() =~= scur.stack.take(n0 - 2));
                                                }
                                                if is_truthy(&c) {
                                                    pc = pc + 1;
                                                } else {
                                                    return Err(RuntimeError {
                                                        kind: RuntimeErrorKind::AssertionFailed(m),
                                                        line: cur_line,
                                                    });
                                                }
                                            },
                                        }
                                    },
                                    other => {
                                        if is_truthy(&other) {
                                            pc = pc + 1;
                                        } else {
                                            return Err(RuntimeError {
                                                kind: RuntimeErrorKind::AssertionFailed(String::from_str("false")),
                                                line: cur_line,
                                            });
                                        }
                                    },
                                }
                            },
                        }
                    },
                    Instr::Raise => {
                        let ghost n0 = scur.stack.len() as int;
                        match self.stack.pop() {
                            None => {
                                return Err(RuntimeError { kind: RuntimeErrorKind::StackIsEmpty, line: cur_line });
                            },
                            Some(v) => {
                                proof {
                                    assert(self.stack.deep_view() =~= scur.stack.take(n0 - 1));
                                }
                                match v {
                                    Value::Str(m) => {
                                        return Err(RuntimeError {
                                            kind: RuntimeErrorKind::CustomError(m),
                                            line: cur_line,
                                        });
                                    },
                                    w => {
                                        proof {
                                            reveal_strlit("");
                                            assert("error message must be string, found "@ + kind_name_spec(w@) + ""@
                                                =~= "error message must be string, found "@ + kind_name_spec(w@));
                                        }
                                        let k = mk_rt_typed("error message must be string, found ", &w, "");
                                        return Err(RuntimeError { kind: k, line: cur_line });
                                    },
                                }
                            },
                        }
                    },
                    Instr::Exit => {
                        let ghost n0 = scur.stack.len() as int;
                        match self.stack.pop() {
                            None => {
                                return Err(RuntimeError { kind: RuntimeErrorKind::StackIsEmpty, line: cur_line });
                            },
                            Some(v) => {
                                proof {
                                    assert(self.stack.deep_view() =~= scur.stack.take(n0 - 1));
                                }
                                match v {
                                    Value::Int(c) => {
                                        return Err(RuntimeError {
                                            kind: RuntimeErrorKind::Exit(c),
                                            line: cur_line,
                                        });
                                    },
                                    w => {
                                        proof {
                                            reveal_strlit("");
                                            assert("exit code must be integer, found "@ + kind_name_spec(w@) + ""@
                                                =~= "exit code must be integer, found "@ + kind_name_spec(w@));
                                        }
                                        let k = mk_rt_typed("exit code must be integer, found ", &w, "");
                                        return Err(RuntimeError { kind: k, line: cur_line });
                                    },
                                }
                            },
                        }
                    },
                    _ => {
                        proof {
                            assert(is_binop(ins@) || is_unop(ins@));
                            assert(false);
                        }
                        return Err(RuntimeError { kind: RuntimeErrorKind::StackIsEmpty, line: cur_line });
                    },
                }
            }
            // One instruction done: account for it and check the governors.
            proof {
                assert(step(pv, av, scur)
                    == StepRes::Cont(state_of(*self, pc as int, steps as int)));
            }
            if steps >= self.config.max_execution_time {
                return Err(RuntimeError { kind: RuntimeErrorKind::Timeout, line: cur_line });
            }
            steps = steps + 1;
            if self.stack.len() > self.config.max_stack_size {
                return Err(RuntimeError { kind: RuntimeErrorKind::StackOverflow, line: cur_line });
            }
        }
        Ok(())
    }
}

} // verus!

verus! {

// ---------------------------------------------------------------------------
// Laws of the governors
// ---------------------------------------------------------------------------

/// One step grows the stack by at most one entry, never touches the step
/// counter, and never raises the governor fault kinds itself.
proof fn lemma_step_frame(p: ProgramV, args: Seq<Seq<char>>, s: StateV)
    requires
        0 <= s.pc < p.instrs.len(),
    ensures
        match step(p, args, s) {
            StepRes::Cont(s2) => s2.stack.len() <= s.stack.len() + 1 && s2.steps == s.steps,
            StepRes::Stop(s2, k) => s2.stack.len() <= s.stack.len() && s2.steps == s.steps
                && !(k is StackOverflow) && !(k is Timeout),
        },
{
}

/// Stack-cap enforcement: started within the cap, a run keeps the operand
/// stack within the cap at every state it passes through. Only the governor
/// ever reports a stack overflow, and it does so at the exact instruction
/// whose result first exceeded the cap, when the stack holds exactly one
/// entry more than the cap; any other verdict leaves a stack within the cap.
pub proof fn lemma_stack_cap(p: ProgramV, args: Seq<Seq<char>>, max_stack: int, max_steps: int, s: StateV)
    requires
        s.stack.len() <= max_stack,
        0 <= s.steps <= max_steps,
    ensures
        ({
            let ran = run_from(p, args, max_stack, max_steps, s);
            &&& (match ran.1 {
                None => ran.0.stack.len() <= max_stack,
                Some(e) => {
                    &&& (e.kind is StackOverflow ==> ran.0.stack.len() == max_stack + 1)
                    &&& (e.kind is Timeout ==> ran.0.stack.len() <= max_stack + 1)
                    &&& (!(e.kind is StackOverflow) && !(e.kind is Timeout)
                        ==> ran.0.stack.len() <= max_stack)
                },
            })
        }),
    decreases max_steps + 1 - s.steps,
{
    if 0 <= s.pc < p.instrs.len() {
        lemma_step_frame(p, args, s);
        match step(p, args, s) {
            StepRes::Stop(s2, k) => {},
            StepRes::Cont(s2) => {
                let s3 = StateV { steps: s.steps + 1, ..s2 };
                if s3.steps > max_steps {
                } else if s3.stack.len() > max_stack {
                } else {
                    lemma_stack_cap(p, args, max_stack, max_steps, s3);
                }
            },
        }
    }
}

/// Budget enforcement: a run executes at most `max_steps + 1 - s.steps`
/// further instructions, and reports a timeout exactly when the budget is
/// spent — so no program, not even an unconditional infinite loop, runs
/// unboundedly.
pub proof fn lemma_budget(p: ProgramV, args: Seq<Seq<char>>, max_stack: int, max_steps: int, s: StateV)
    requires
        0 <= s.steps <= max_steps,
    ensures
        ({
            let ran = run_from(p, args, max_stack, max_steps, s);
            &&& s.steps <= ran.0.steps <= max_steps + 1
            &&& (match ran.1 {
                None => ran.0.steps <= max_steps,
                Some(e) => e.kind is Timeout <==> ran.0.steps == max_steps + 1,
            })
        }),
    decreases max_steps + 1 - s.steps,
{
    if 0 <= s.pc < p.instrs.len() {
        lemma_step_frame(p, args, s);
        match step(p, args, s) {
            StepRes::Stop(s2, k) => {},
            StepRes::Cont(s2) => {
                let s3 = StateV { steps: s.steps + 1, ..s2 };
                if s3.steps > max_steps {
                } else if s3.stack.len() > max_stack {
                } else {
                    lemma_budget(p, args, max_stack, max_steps, s3);
                }
            },
        }
    }
}

/// Determinism: the verdict and the whole final state of a run are a
/// function of the program, arguments, governors and starting state alone.
/// Two runs that agree on those agree in every respect.
pub proof fn lemma_run_deterministic(
    p: ProgramV,
    args: Seq<Seq<char>>,
    max_stack: int,
    max_steps: int,
    s: StateV,
    r1: (StateV, Option<RuntimeErrorV>),
    r2: (StateV, Option<RuntimeErrorV>),
)
    requires
        r1 == run_from(p, args, max_stack, max_steps, s),
        r2 == run_from(p, args, max_stack, max_steps, s),
    ensures
        r1 == r2,
{
}

} // verus!

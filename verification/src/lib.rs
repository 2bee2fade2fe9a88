//! A sandboxed interpreter for a small stack-based scripting language.
//!
//! Source text is parsed into a validated [`program::Program`] (collecting
//! every syntax defect, not just the first), which a [`machine::Interpreter`]
//! then executes under two governors: a cap on operand-stack depth and a
//! step budget, so untrusted scripts can neither exhaust memory nor hang
//! the host.

pub mod diag;
pub mod machine;
pub mod parse;
pub mod program;
pub mod text;
pub mod value;

use vstd::prelude::*;
use vstd::string::StringExecFns;

use crate::diag::ParseErrorV;
use crate::diag::parse_error_str;
use crate::diag::runtime_error_str;
use crate::machine::Config;
use crate::machine::DEFAULT_MAX_EXECUTION_TIME;
use crate::machine::DEFAULT_MAX_STACK_SIZE;
use crate::machine::Interpreter;
use crate::machine::StateV;
use crate::machine::run_from;
use crate::machine::state_of;
use crate::parse::parse_spec;
use crate::program::Program;
use crate::program::ProgramV;
use crate::program::labels_of;

verus! {

/// The rendered parse diagnostics, one per line, in source order.
pub open spec fn diags_str(ds: Seq<ParseErrorV>) -> Seq<char>
    decreases ds.len(),
{
    if ds.len() == 0 {
        Seq::empty()
    } else {
        parse_error_str(ds[0]) + "\n"@ + diags_str(ds.drop_first())
    }
}

/// What running a source text under the default governors produces: all
/// parse diagnostics if parsing fails, the runtime diagnostic if execution
/// faults or hits a limit, and otherwise everything the script printed.
pub open spec fn run_spec(src: Seq<char>) -> Seq<char> {
    let pr = parse_spec(src);
    if pr.diags.len() > 0 {
        diags_str(pr.diags)
    } else {
        let p = ProgramV { instrs: pr.instrs, lines: pr.lines, labels: labels_of(pr.instrs) };
        let init = StateV {
            pc: 0,
            steps: 0,
            stack: Seq::empty(),
            vars: Map::empty(),
            output: Seq::empty(),
        };
        let ran = run_from(
            p,
            Seq::empty(),
            DEFAULT_MAX_STACK_SIZE as int,
            DEFAULT_MAX_EXECUTION_TIME as int,
            init,
        );
        match ran.1 {
            Some(e) => runtime_error_str(e),
            None => ran.0.output,
        }
    }
}

/// Parses and executes `source` under the default governors and renders the
/// outcome as text.
pub fn run(source: String) -> (r: String)
    requires
        source@.len() < usize::MAX,
    ensures
        r@ == run_spec(source@),
{
    match Program::from_source(source.as_str()) {
        Err(ds) => {
            let ghost dsv = ds.deep_view();
            let mut out = String::new();
            let n = ds.len();
            let mut k: usize = 0;
            proof {
                assert(dsv.skip(0) =~= dsv);
            }
            while k < n
                invariant
                    k <= n,
                    n == ds@.len(),
                    dsv == ds.deep_view(),
                    diags_str(dsv) == out@ + diags_str(dsv.skip(k as int)),
                decreases n - k,
            {
                let ghost tail = dsv.skip(k as int);
                proof {
                    assert(tail[0] == dsv[k as int]);
                    assert(tail.drop_first() =~= dsv.skip(k as int + 1));
                }
                ds[k].render_push(&mut out);
                out.append("\n");
                k = k + 1;
            }
            proof {
                assert(dsv.skip(n as int) =~= Seq::<ParseErrorV>::empty());
                assert(out@ + Seq::<char>::empty() =~= out@);
            }
            out
        },
        Ok(p) => {
            let mut interp = Interpreter::new(Config::new());
            let args: Vec<String> = Vec::new();
            proof {
                assert(args.deep_view() =~= Seq::<Seq<char>>::empty());
                let pr = parse_spec(source@);
                let pm = ProgramV { instrs: pr.instrs, lines: pr.lines, labels: labels_of(pr.instrs) };
                assert(p@ == pm);
                let init = StateV {
                    pc: 0,
                    steps: 0,
                    stack: Seq::<crate::value::ValueV>::empty(),
                    vars: Map::<Seq<char>, crate::value::ValueV>::empty(),
                    output: Seq::<char>::empty(),
                };
                assert(state_of(interp, 0, 0) == init);
            }
            match interp.run(&p, &args) {
                Ok(_) => {
                    let out = interp.output;
                    out
                },
                Err(e) => e.message(),
            }
        },
    }
}

/// Determinism of the whole pipeline: the rendered outcome is a function of
/// the source text alone, so running the same program with the same inputs
/// and limits always yields the same terminal state and output.
pub proof fn lemma_run_deterministic(src: Seq<char>, r1: Seq<char>, r2: Seq<char>)
    requires
        r1 == run_spec(src),
        r2 == run_spec(src),
    ensures
        r1 == r2,
{
}

/// Idempotence of parsing: two parses of the same source text yield
/// structurally identical programs (and identical diagnostics).
pub proof fn lemma_parse_idempotent(src1: Seq<char>, src2: Seq<char>)
    requires
        src1 == src2,
    ensures
        parse_spec(src1) == parse_spec(src2),
        labels_of(parse_spec(src1).instrs) == labels_of(parse_spec(src2).instrs),
{
}

} // verus!

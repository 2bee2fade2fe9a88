//! Diagnostics: parse-time defects (zero or many per source, batched) and
//! runtime faults (at most one per run, immediately terminal). The two
//! families stay distinct because their cardinality and timing differ.
//!
//! Each diagnostic renders to a stable message of the form
//! `main:<line>:<col> <description>`; the wording is part of the crate's
//! contract.

use vstd::prelude::*;
use vstd::string::StrSliceExecFns;
use vstd::string::StringExecFns;

use crate::text::dec_digits;
use crate::text::int_str;
use crate::text::push_i64_dec;
use crate::text::push_usize_dec;

verus! {

/// One parse-time defect.
#[derive(Debug, PartialEq)]
pub enum ParseErrorKind {
    /// A malformed or ill-typed argument; the payload is the full message.
    InvalidArgument(String),
    /// A word that names no instruction; the payload is the word.
    UnknownCommand(String),
    /// A jump to a label that no line defines; the payload is the label.
    LabelNotFound(String),
}

pub ghost enum ParseErrorKindV {
    InvalidArgument(Seq<char>),
    UnknownCommand(Seq<char>),
    LabelNotFound(Seq<char>),
}

impl View for ParseErrorKind {
    type V = ParseErrorKindV;

    open spec fn view(&self) -> ParseErrorKindV {
        match self {
            ParseErrorKind::InvalidArgument(m) => ParseErrorKindV::InvalidArgument(m@),
            ParseErrorKind::UnknownCommand(c) => ParseErrorKindV::UnknownCommand(c@),
            ParseErrorKind::LabelNotFound(l) => ParseErrorKindV::LabelNotFound(l@),
        }
    }
}

/// A parse-time defect with its source position (1-based line and column).
#[derive(Debug, PartialEq)]
pub struct ParseError {
    pub kind: ParseErrorKind,
    pub line: usize,
    pub col: usize,
}

pub ghost struct ParseErrorV {
    pub kind: ParseErrorKindV,
    pub line: int,
    pub col: int,
}

impl View for ParseError {
    type V = ParseErrorV;

    open spec fn view(&self) -> ParseErrorV {
        ParseErrorV { kind: self.kind@, line: self.line as int, col: self.col as int }
    }
}

impl DeepView for ParseError {
    type V = ParseErrorV;

    open spec fn deep_view(&self) -> ParseErrorV {
        self.view()
    }
}

/// The description part of a parse diagnostic.
pub open spec fn parse_kind_msg(k: ParseErrorKindV) -> Seq<char> {
    match k {
        ParseErrorKindV::InvalidArgument(m) => m,
        ParseErrorKindV::UnknownCommand(c) => "unknown command: "@ + c,
        ParseErrorKindV::LabelNotFound(l) => "label `"@ + l + "` not found"@,
    }
}

/// The full rendered form of one parse diagnostic.
pub open spec fn parse_error_str(e: ParseErrorV) -> Seq<char> {
    "main:"@ + dec_digits(e.line) + ":"@ + dec_digits(e.col) + " "@ + parse_kind_msg(e.kind)
}

impl ParseError {
    /// Appends the rendered diagnostic to `out`.
    pub fn render_push(&self, out: &mut String)
        ensures
            final(out)@ == old(out)@ + parse_error_str(self@),
    {
        out.append("main:");
        push_usize_dec(self.line, out);
        out.append(":");
        push_usize_dec(self.col, out);
        out.append(" ");
        match &self.kind {
            ParseErrorKind::InvalidArgument(m) => out.append(m.as_str()),
            ParseErrorKind::UnknownCommand(c) => {
                out.append("unknown command: ");
                out.append(c.as_str());
            },
            ParseErrorKind::LabelNotFound(l) => {
                out.append("label `");
                out.append(l.as_str());
                out.append("` not found");
            },
        }
        proof {
            assert(out@ =~= old(out)@ + parse_error_str(self@));
        }
    }

    /// The rendered diagnostic as a fresh string.
    pub fn message(&self) -> (r: String)
        ensures
            r@ == parse_error_str(self@),
    {
        let mut out = String::new();
        self.render_push(&mut out);
        proof {
            assert(out@ =~= parse_error_str(self@));
        }
        out
    }
}

/// One runtime fault; raising it terminates the run.
#[derive(Debug, PartialEq)]
pub enum RuntimeErrorKind {
    /// An operand of the wrong kind; the payload is the full message.
    InvalidArgument(String),
    /// An instruction needed more operands than the stack held.
    StackIsEmpty,
    /// The operand stack grew past the configured cap.
    StackOverflow,
    /// The step budget ran out.
    Timeout,
    /// Division or modulo by zero.
    DivisionByZero,
    /// `load` of a variable that was never stored; the payload is the name.
    VariableNotFound(String),
    /// A failed `assert`; the payload is its message.
    AssertionFailed(String),
    /// A script-raised `error`; the payload is its message.
    CustomError(String),
    /// A script-requested `exit`; the payload is the exit code.
    Exit(i64),
}

pub ghost enum RuntimeErrorKindV {
    InvalidArgument(Seq<char>),
    StackIsEmpty,
    StackOverflow,
    Timeout,
    DivisionByZero,
    VariableNotFound(Seq<char>),
    AssertionFailed(Seq<char>),
    CustomError(Seq<char>),
    Exit(i64),
}

impl View for RuntimeErrorKind {
    type V = RuntimeErrorKindV;

    open spec fn view(&self) -> RuntimeErrorKindV {
        match self {
            RuntimeErrorKind::InvalidArgument(m) => RuntimeErrorKindV::InvalidArgument(m@),
            RuntimeErrorKind::StackIsEmpty => RuntimeErrorKindV::StackIsEmpty,
            RuntimeErrorKind::StackOverflow => RuntimeErrorKindV::StackOverflow,
            RuntimeErrorKind::Timeout => RuntimeErrorKindV::Timeout,
            RuntimeErrorKind::DivisionByZero => RuntimeErrorKindV::DivisionByZero,
            RuntimeErrorKind::VariableNotFound(v) => RuntimeErrorKindV::VariableNotFound(v@),
            RuntimeErrorKind::AssertionFailed(m) => RuntimeErrorKindV::AssertionFailed(m@),
            RuntimeErrorKind::CustomError(m) => RuntimeErrorKindV::CustomError(m@),
            RuntimeErrorKind::Exit(c) => RuntimeErrorKindV::Exit(*c),
        }
    }
}

/// A runtime fault with the source line of the instruction that raised it.
#[derive(Debug, PartialEq)]
pub struct RuntimeError {
    pub kind: RuntimeErrorKind,
    pub line: usize,
}

pub ghost struct RuntimeErrorV {
    pub kind: RuntimeErrorKindV,
    pub line: int,
}

impl View for RuntimeError {
    type V = RuntimeErrorV;

    open spec fn view(&self) -> RuntimeErrorV {
        RuntimeErrorV { kind: self.kind@, line: self.line as int }
    }
}

/// The description part of a runtime diagnostic.
pub open spec fn runtime_kind_msg(k: RuntimeErrorKindV) -> Seq<char> {
    match k {
        RuntimeErrorKindV::InvalidArgument(m) => m,
        RuntimeErrorKindV::StackIsEmpty => "stack is empty"@,
        RuntimeErrorKindV::StackOverflow => "stack overflow"@,
        RuntimeErrorKindV::Timeout => "session timeout"@,
        RuntimeErrorKindV::DivisionByZero => "division by zero"@,
        RuntimeErrorKindV::VariableNotFound(v) => "variable `"@ + v + "` not found"@,
        RuntimeErrorKindV::AssertionFailed(m) => "assertion failed: "@ + m,
        RuntimeErrorKindV::CustomError(m) => m,
        RuntimeErrorKindV::Exit(c) => "exit with code: "@ + int_str(c as int),
    }
}

/// The full rendered form of one runtime diagnostic; the column is always 1.
pub open spec fn runtime_error_str(e: RuntimeErrorV) -> Seq<char> {
    "main:"@ + dec_digits(e.line) + ":1 "@ + runtime_kind_msg(e.kind)
}

impl RuntimeError {
    /// Appends the rendered diagnostic to `out`.
    pub fn render_push(&self, out: &mut String)
        ensures
            final(out)@ == old(out)@ + runtime_error_str(self@),
    {
        out.append("main:");
        push_usize_dec(self.line, out);
        out.append(":1 ");
        match &self.kind {
            RuntimeErrorKind::InvalidArgument(m) => out.append(m.as_str()),
            RuntimeErrorKind::StackIsEmpty => out.append("stack is empty"),
            RuntimeErrorKind::StackOverflow => out.append("stack overflow"),
            RuntimeErrorKind::Timeout => out.append("session timeout"),
            RuntimeErrorKind::DivisionByZero => out.append("division by zero"),
            RuntimeErrorKind::VariableNotFound(v) => {
                out.append("variable `");
                out.append(v.as_str());
                out.append("` not found");
            },
            RuntimeErrorKind::AssertionFailed(m) => {
                out.append("assertion failed: ");
                out.append(m.as_str());
            },
            RuntimeErrorKind::CustomError(m) => out.append(m.as_str()),
            RuntimeErrorKind::Exit(c) => {
                out.append("exit with code: ");
                push_i64_dec(*c, out);
            },
        }
        proof {
            assert(out@ =~= old(out)@ + runtime_error_str(self@));
        }
    }

    /// The rendered diagnostic as a fresh string.
    pub fn message(&self) -> (r: String)
        ensures
            r@ == runtime_error_str(self@),
    {
        let mut out = String::new();
        self.render_push(&mut out);
        proof {
            assert(out@ =~= runtime_error_str(self@));
        }
        out
    }
}

} // verus!

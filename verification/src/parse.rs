//! Source-to-program translation.
//!
//! The parser works line by line. A line is stripped of its `;` comment and
//! surrounding whitespace; the first space-delimited word is the command and
//! the rest is its argument. Parsing does not stop at the first defect: every
//! line is scanned and each defect becomes one diagnostic, so a whole source
//! file is diagnosed in one pass. A program is only produced when there are
//! no diagnostics at all, and every jump target is validated here, not at
//! execution time.

use vstd::prelude::*;
use vstd::string::StrSliceExecFns;
use vstd::string::StringExecFns;

use crate::diag::ParseError;
use crate::diag::ParseErrorKind;
use crate::diag::ParseErrorKindV;
use crate::diag::ParseErrorV;
use crate::program::Instr;
use crate::program::InstrV;
use crate::program::Program;
use crate::program::labels_map;
use crate::program::labels_of;
use crate::program::lemma_labels_of_contains;
use crate::program::lemma_labels_of_range;
use crate::text::dec_digits;
use crate::text::find_char_from;
use crate::text::find_char_in;
use crate::text::is_space;
use crate::text::is_space_char;
use crate::text::lemma_find_char_from;
use crate::text::lemma_skip_spaces;
use crate::text::lemma_trim_end;
use crate::text::parse_int;
use crate::text::parse_int_spec;
use crate::text::parse_usize;
use crate::text::parse_usize_spec;
use crate::text::push_usize_dec;
use crate::text::skip_spaces;
use crate::text::skip_spaces_in;
use crate::text::str_eq;
use crate::text::trim_end;
use crate::text::trim_end_in;
use crate::value::Value;
use crate::value::ValueV;
use crate::value::kind_name_spec;

verus! {

// ---------------------------------------------------------------------------
// Line segmentation
// ---------------------------------------------------------------------------

/// The `[start, end)` character ranges of the lines of `s[i..]`, split at
/// `'\n'`, with a `'\r'` immediately before the newline excluded (as
/// `str::lines` does).
pub open spec fn line_ranges(s: Seq<char>, i: int) -> Seq<(int, int)>
    decreases s.len() - i,
    when 0 <= i <= s.len()
{
    if i >= s.len() {
        Seq::empty()
    } else {
        let f = find_char_from(s, i, '\n');
        let n = if i <= f <= s.len() {
            f
        } else {
            s.len() as int
        };
        let e = if n < s.len() && n > i && s[n - 1] == '\r' {
            n - 1
        } else {
            n
        };
        if n >= s.len() {
            seq![(i, e)]
        } else {
            seq![(i, e)] + line_ranges(s, n + 1)
        }
    }
}

pub proof fn lemma_line_ranges_valid(s: Seq<char>, i: int)
    requires
        0 <= i <= s.len(),
    ensures
        line_ranges(s, i).len() <= s.len() - i,
        forall|k: int| 0 <= k < line_ranges(s, i).len()
            ==> i <= (#[trigger] line_ranges(s, i)[k]).0 <= line_ranges(s, i)[k].1 <= s.len(),
    decreases s.len() - i,
{
    if i < s.len() {
        let n = find_char_from(s, i, '\n');
        lemma_find_char_from(s, i, '\n');
        if n < s.len() {
            lemma_line_ranges_valid(s, n + 1);
        }
    }
}

// ---------------------------------------------------------------------------
// Line shape: comment strip, trim, command/argument split
// ---------------------------------------------------------------------------

/// Where the command and the argument of a line sit, as character indices.
pub ghost struct LineShape {
    pub blank: bool,
    pub cmd_start: int,
    pub cmd_end: int,
    pub arg_start: int,
    pub arg_end: int,
}

/// Segmentation of one line: everything from the first `;` on is comment;
/// the rest is trimmed; the command runs to the first space; the argument is
/// what follows, left-trimmed.
pub open spec fn shape_of(line: Seq<char>) -> LineShape {
    let wc = find_char_from(line, 0, ';');
    let st = skip_spaces(line, 0, wc);
    if st >= wc {
        LineShape { blank: true, cmd_start: 0, cmd_end: 0, arg_start: 0, arg_end: 0 }
    } else {
        let en = trim_end(line, st, wc);
        let f = find_char_from(line, st, ' ');
        let ce = if f < en {
            f
        } else {
            en
        };
        let ast = skip_spaces(line, ce, en);
        LineShape { blank: false, cmd_start: st, cmd_end: ce, arg_start: ast, arg_end: en }
    }
}

/// Executable counterpart of [`LineShape`].
pub struct Shape {
    pub blank: bool,
    pub cmd_start: usize,
    pub cmd_end: usize,
    pub arg_start: usize,
    pub arg_end: usize,
}

impl View for Shape {
    type V = LineShape;

    open spec fn view(&self) -> LineShape {
        LineShape {
            blank: self.blank,
            cmd_start: self.cmd_start as int,
            cmd_end: self.cmd_end as int,
            arg_start: self.arg_start as int,
            arg_end: self.arg_end as int,
        }
    }
}

pub fn shape_in(line: &str) -> (sh: Shape)
    ensures
        sh@ == shape_of(line@),
        !sh.blank ==> sh.cmd_start < sh.cmd_end <= sh.arg_start <= sh.arg_end <= line@.len(),
{
    let n = line.unicode_len();
    let wc = find_char_in(line, 0, ';');
    proof {
        lemma_find_char_from(line@, 0, ';');
    }
    let st = skip_spaces_in(line, 0, wc);
    proof {
        lemma_skip_spaces(line@, 0, wc as int);
    }
    if st >= wc {
        return Shape { blank: true, cmd_start: 0, cmd_end: 0, arg_start: 0, arg_end: 0 };
    }
    let en = trim_end_in(line, st, wc);
    proof {
        lemma_trim_end(line@, st as int, wc as int);
    }
    let f = find_char_in(line, st, ' ');
    proof {
        lemma_find_char_from(line@, st as int, ' ');
    }
    let ce = if f < en {
        f
    } else {
        en
    };
    let ast = skip_spaces_in(line, ce, en);
    proof {
        lemma_skip_spaces(line@, ce as int, en as int);
        assert(!is_space_char(line@[st as int]));
        assert(st < ce) by {
            if f < en {
                assert(forall|j: int| st <= j < f ==> line@[j] != ' ');
                if f == st {
                    assert(line@[st as int] == ' ');
                }
            }
        }
    }
    Shape { blank: false, cmd_start: st, cmd_end: ce, arg_start: ast, arg_end: en }
}

// ---------------------------------------------------------------------------
// Labels
// ---------------------------------------------------------------------------

/// `s` with every trailing `':'` removed.
pub open spec fn strip_colons(s: Seq<char>) -> Seq<char>
    decreases s.len(),
{
    if s.len() > 0 && s.last() == ':' {
        strip_colons(s.drop_last())
    } else {
        s
    }
}

/// The label a line defines, if its command word ends with `':'`.
pub open spec fn label_of(line: Seq<char>) -> Option<Seq<char>> {
    let sh = shape_of(line);
    if sh.blank {
        None
    } else {
        let cmd = line.subrange(sh.cmd_start, sh.cmd_end);
        if cmd.len() > 0 && cmd.last() == ':' {
            Some(strip_colons(cmd))
        } else {
            None
        }
    }
}

fn strip_colons_in(s: &str) -> (r: usize)
    ensures
        r <= s@.len(),
        s@.subrange(0, r as int) == strip_colons(s@),
{
    let n = s.unicode_len();
    proof {
        assert(s@.subrange(0, s@.len() as int) =~= s@);
    }
    let mut e = n;
    while e > 0 && s.get_char(e - 1) == ':'
        invariant
            e <= n,
            n == s@.len(),
            strip_colons(s@) == strip_colons(s@.subrange(0, e as int)),
        decreases e,
    {
        proof {
            let t = s@.subrange(0, e as int);
            assert(t.drop_last() =~= s@.subrange(0, e - 1));
        }
        e = e - 1;
    }
    proof {
        let t = s@.subrange(0, e as int);
        if e > 0 {
            assert(t.last() != ':');
        }
        assert(strip_colons(t) == t);
    }
    e
}

/// The names of all labels defined by the lines of `src` covered by `rs`.
pub open spec fn labels_in(src: Seq<char>, rs: Seq<(int, int)>) -> Seq<Seq<char>>
    decreases rs.len(),
{
    if rs.len() == 0 {
        Seq::empty()
    } else {
        let prev = labels_in(src, rs.drop_last());
        let line = src.subrange(rs.last().0, rs.last().1);
        match label_of(line) {
            Some(n) => prev + seq![n],
            None => prev,
        }
    }
}

fn contains_str(labs: &Vec<String>, name: &str) -> (r: bool)
    ensures
        r == labs.deep_view().contains(name@),
{
    let n = labs.len();
    let mut i: usize = 0;
    while i < n
        invariant
            i <= n,
            n == labs.len(),
            forall|j: int| 0 <= j < i ==> labs.deep_view()[j] != name@,
        decreases n - i,
    {
        if str_eq(labs[i].as_str(), name) {
            proof {
                assert(labs.deep_view()[i as int] == name@);
            }
            return true;
        }
        i = i + 1;
    }
    proof {
        assert(forall|j: int| 0 <= j < labs.deep_view().len() ==> labs.deep_view()[j] != name@);
    }
    false
}

// ---------------------------------------------------------------------------
// Inline value tokens
// ---------------------------------------------------------------------------

/// Token ranges of `s[i..end)`: maximal runs separated by spaces that stand
/// outside double quotes. Quote characters stay part of their token.
pub open spec fn val_ranges(s: Seq<char>, i: int, start: int, in_q: bool, end: int) -> Seq<(int, int)>
    decreases end - i,
    when 0 <= start <= i <= end <= s.len()
{
    if i >= end {
        if start < i {
            seq![(start, i)]
        } else {
            Seq::empty()
        }
    } else if s[i] == ' ' && !in_q {
        if start < i {
            seq![(start, i)] + val_ranges(s, i + 1, i + 1, in_q, end)
        } else {
            val_ranges(s, i + 1, i + 1, in_q, end)
        }
    } else if s[i] == '"' {
        val_ranges(s, i + 1, start, !in_q, end)
    } else {
        val_ranges(s, i + 1, start, in_q, end)
    }
}

pub proof fn lemma_val_ranges_valid(s: Seq<char>, i: int, start: int, in_q: bool, end: int)
    requires
        0 <= start <= i <= end <= s.len(),
    ensures
        forall|k: int| 0 <= k < val_ranges(s, i, start, in_q, end).len()
            ==> start <= (#[trigger] val_ranges(s, i, start, in_q, end)[k]).0
                < val_ranges(s, i, start, in_q, end)[k].1 <= end,
    decreases end - i,
{
    let whole = val_ranges(s, i, start, in_q, end);
    if i < end {
        if s[i] == ' ' && !in_q {
            lemma_val_ranges_valid(s, i + 1, i + 1, in_q, end);
            let rest = val_ranges(s, i + 1, i + 1, in_q, end);
            if start < i {
                assert(whole == seq![(start, i)] + rest);
                assert forall|k: int| 0 <= k < whole.len()
                    implies start <= (#[trigger] whole[k]).0 < whole[k].1 <= end by {
                    if k > 0 {
                        assert(0 <= k - 1 < rest.len());
                        assert(whole[k] == rest[k - 1]);
                        assert(i + 1 <= rest[k - 1].0 < rest[k - 1].1 <= end);
                    }
                }
            } else {
                assert(whole == rest);
                assert forall|k: int| 0 <= k < whole.len()
                    implies start <= (#[trigger] whole[k]).0 < whole[k].1 <= end by {
                    assert(whole[k] == rest[k]);
                    assert(i + 1 <= rest[k].0 < rest[k].1 <= end);
                }
            }
        } else if s[i] == '"' {
            lemma_val_ranges_valid(s, i + 1, start, !in_q, end);
            let rest = val_ranges(s, i + 1, start, !in_q, end);
            assert(whole == rest);
            assert forall|k: int| 0 <= k < whole.len()
                implies start <= (#[trigger] whole[k]).0 < whole[k].1 <= end by {
                assert(whole[k] == rest[k]);
                assert(start <= rest[k].0 < rest[k].1 <= end);
            }
        } else {
            lemma_val_ranges_valid(s, i + 1, start, in_q, end);
            let rest = val_ranges(s, i + 1, start, in_q, end);
            assert(whole == rest);
            assert forall|k: int| 0 <= k < whole.len()
                implies start <= (#[trigger] whole[k]).0 < whole[k].1 <= end by {
                assert(whole[k] == rest[k]);
                assert(start <= rest[k].0 < rest[k].1 <= end);
            }
        }
    }
}

spec fn rs_view(v: Seq<(usize, usize)>) -> Seq<(int, int)> {
    v.map_values(|p: (usize, usize)| (p.0 as int, p.1 as int))
}

fn scan_vals(line: &str, from: usize, end: usize) -> (rs: Vec<(usize, usize)>)
    requires
        from <= end <= line@.len(),
    ensures
        rs_view(rs@) == val_ranges(line@, from as int, from as int, false, end as int),
{
    let mut acc: Vec<(usize, usize)> = Vec::new();
    let mut i = from;
    let mut start = from;
    let mut in_q = false;
    while i < end
        invariant
            from <= start <= i <= end <= line@.len(),
            val_ranges(line@, from as int, from as int, false, end as int)
                =~= rs_view(acc@) + val_ranges(line@, i as int, start as int, in_q, end as int),
        decreases end - i,
    {
        let c = line.get_char(i);
        if c == ' ' && !in_q {
            if start < i {
                acc.push((start, i));
                proof {
                    assert(rs_view(acc@) =~= rs_view(acc@.drop_last()) + seq![(start as int, i as int)]);
                }
            }
            start = i + 1;
        } else if c == '"' {
            in_q = !in_q;
        }
        i = i + 1;
    }
    if start < end {
        acc.push((start, end));
        proof {
            assert(rs_view(acc@) =~= rs_view(acc@.drop_last()) + seq![(start as int, end as int)]);
        }
    }
    proof {
        assert(rs_view(acc@) =~= val_ranges(line@, from as int, from as int, false, end as int));
    }
    acc
}

/// The meaning of one argument token: an integer literal, `true`, `false`,
/// `nil`, or a double-quoted string.
pub open spec fn value_of_token(t: Seq<char>) -> Option<ValueV> {
    match parse_int_spec(t) {
        Some(i) => Some(ValueV::Int(i)),
        None => {
            if t == "true"@ {
                Some(ValueV::Bool(true))
            } else if t == "false"@ {
                Some(ValueV::Bool(false))
            } else if t == "nil"@ {
                Some(ValueV::Nil)
            } else if t.len() >= 2 && t[0] == '"' && t.last() == '"' {
                Some(ValueV::Str(t.subrange(1, t.len() - 1)))
            } else {
                None
            }
        },
    }
}

fn value_of_tok(t: &str) -> (r: Option<Value>)
    ensures
        match r {
            Some(v) => value_of_token(t@) == Some(v@),
            None => value_of_token(t@) is None,
        },
{
    match parse_int(t) {
        Some(i) => {
            return Some(Value::Int(i));
        },
        None => {},
    }
    if str_eq(t, "true") {
        return Some(Value::Bool(true));
    }
    if str_eq(t, "false") {
        return Some(Value::Bool(false));
    }
    if str_eq(t, "nil") {
        return Some(Value::Nil);
    }
    let n = t.unicode_len();
    if n >= 2 && t.get_char(0) == '"' && t.get_char(n - 1) == '"' {
        let inner = t.substring_char(1, n - 1);
        return Some(Value::Str(String::from_str(inner)));
    }
    None
}

/// Outcome of reading a token list: all values, or the first bad token with
/// its column.
pub ghost enum ValsOut {
    Good(Seq<ValueV>),
    Bad(int, Seq<char>),
}

/// Reads the tokens of `rs` in order, stopping at the first one that is no
/// value.
pub open spec fn parse_vals(s: Seq<char>, rs: Seq<(int, int)>) -> ValsOut
    decreases rs.len(),
{
    if rs.len() == 0 {
        ValsOut::Good(Seq::empty())
    } else {
        let a = rs[0].0;
        let b = rs[0].1;
        let ts = skip_spaces(s, a, b);
        let te = trim_end(s, ts, b);
        let tok = s.subrange(ts, te);
        match value_of_token(tok) {
            None => ValsOut::Bad(ts + 1, tok),
            Some(v) => match parse_vals(s, rs.drop_first()) {
                ValsOut::Good(vs) => ValsOut::Good(seq![v] + vs),
                ValsOut::Bad(c, t) => ValsOut::Bad(c, t),
            },
        }
    }
}

/// The diagnostic for a token that is no value.
pub open spec fn invalid_value_diag(line_no: int, col: int, tok: Seq<char>) -> ParseErrorV {
    ParseErrorV {
        kind: ParseErrorKindV::InvalidArgument("invalid value: "@ + tok),
        line: line_no,
        col: col,
    }
}

fn token_at(line: &str, a: usize, b: usize) -> (r: (&str, usize))
    requires
        a <= b <= line@.len(),
    ensures
        ({
            let ts = skip_spaces(line@, a as int, b as int);
            let te = trim_end(line@, ts, b as int);
            r.1 == ts && r.0@ == line@.subrange(ts, te)
        }),
        a <= r.1 <= b,
{
    let ts = skip_spaces_in(line, a, b);
    proof {
        lemma_skip_spaces(line@, a as int, b as int);
    }
    let te = trim_end_in(line, ts, b);
    proof {
        lemma_trim_end(line@, ts as int, b as int);
    }
    (line.substring_char(ts, te), ts)
}

fn get_vals(line: &str, rs: &Vec<(usize, usize)>, line_no: usize) -> (r: Result<Vec<Value>, ParseError>)
    requires
        line@.len() < usize::MAX,
        forall|k: int| 0 <= k < rs@.len()
            ==> (#[trigger] rs@[k]).0 <= rs@[k].1 <= line@.len(),
    ensures
        match r {
            Ok(vs) => parse_vals(line@, rs_view(rs@)) == ValsOut::Good(vs.deep_view()),
            Err(e) => match parse_vals(line@, rs_view(rs@)) {
                ValsOut::Bad(c, t) => e@ == invalid_value_diag(line_no as int, c, t),
                ValsOut::Good(_) => false,
            },
        },
{
    let n = rs.len();
    let mut vs: Vec<Value> = Vec::new();
    let mut k: usize = 0;
    proof {
        assert(rs_view(rs@).skip(0) =~= rs_view(rs@));
        match parse_vals(line@, rs_view(rs@)) {
            ValsOut::Good(rest) => {
                assert(vs.deep_view() + rest =~= rest);
            },
            ValsOut::Bad(c, t) => {},
        }
    }
    while k < n
        invariant
            k <= n,
            n == rs@.len(),
            line@.len() < usize::MAX,
            forall|j: int| 0 <= j < rs@.len() ==> (#[trigger] rs@[j]).0 <= rs@[j].1 <= line@.len(),
            parse_vals(line@, rs_view(rs@)) == (match parse_vals(line@, rs_view(rs@).skip(k as int)) {
                ValsOut::Good(rest) => ValsOut::Good(vs.deep_view() + rest),
                ValsOut::Bad(c, t) => ValsOut::Bad(c, t),
            }),
        decreases n - k,
    {
        let (a, b) = (rs[k].0, rs[k].1);
        proof {
            assert(rs@[k as int].0 <= rs@[k as int].1 <= line@.len());
        }
        let (tok, ts) = token_at(line, a, b);
        let ghost tail = rs_view(rs@).skip(k as int);
        proof {
            assert(tail[0] == (a as int, b as int));
            assert(tail.drop_first() =~= rs_view(rs@).skip(k as int + 1));
        }
        match value_of_tok(tok) {
            Some(v) => {
                let ghost pre = vs.deep_view();
                vs.push(v);
                proof {
                    assert(vs.deep_view() =~= pre.push(v@));
                    match parse_vals(line@, rs_view(rs@).skip(k as int + 1)) {
                        ValsOut::Good(rest) => {
                            assert(parse_vals(line@, tail) == ValsOut::Good(seq![v@] + rest));
                            assert(pre + (seq![v@] + rest) =~= vs.deep_view() + rest);
                        },
                        ValsOut::Bad(c, t) => {
                            assert(parse_vals(line@, tail) == ValsOut::Bad(c, t));
                        },
                    }
                }
            },
            None => {
                let mut m = String::from_str("invalid value: ");
                m.append(tok);
                proof {
                    assert(parse_vals(line@, tail) == ValsOut::Bad(ts + 1, tok@));
                }
                let e = ParseError {
                    kind: ParseErrorKind::InvalidArgument(m),
                    line: line_no,
                    col: ts + 1,
                };
                return Err(e);
            },
        }
        k = k + 1;
    }
    proof {
        assert(rs_view(rs@).skip(n as int) =~= Seq::<(int, int)>::empty());
        assert(vs.deep_view() + Seq::<ValueV>::empty() =~= vs.deep_view());
    }
    Ok(vs)
}

} // verus!

verus! {

// ---------------------------------------------------------------------------
// Per-command parse arms
// ---------------------------------------------------------------------------

/// What one parsed line contributes: instructions and diagnostics.
pub ghost struct LineOut {
    pub instrs: Seq<InstrV>,
    pub diags: Seq<ParseErrorV>,
}

pub open spec fn out_i(is: Seq<InstrV>) -> LineOut {
    LineOut { instrs: is, diags: Seq::empty() }
}

pub open spec fn out_d(ds: Seq<ParseErrorV>) -> LineOut {
    LineOut { instrs: Seq::empty(), diags: ds }
}

pub open spec fn diag1(line_no: int, col: int, m: Seq<char>) -> Seq<ParseErrorV> {
    seq![ParseErrorV { kind: ParseErrorKindV::InvalidArgument(m), line: line_no, col: col }]
}

pub open spec fn has_arg(sh: LineShape) -> bool {
    sh.arg_start < sh.arg_end
}

pub open spec fn arg_of(line: Seq<char>, sh: LineShape) -> Seq<char> {
    line.subrange(sh.arg_start, sh.arg_end)
}

pub open spec fn pushes(vs: Seq<ValueV>) -> Seq<InstrV> {
    vs.map_values(|v: ValueV| InstrV::Push(v))
}

pub open spec fn is_int(v: ValueV) -> bool {
    match v {
        ValueV::Int(_) => true,
        _ => false,
    }
}

pub open spec fn is_bool(v: ValueV) -> bool {
    match v {
        ValueV::Bool(_) => true,
        _ => false,
    }
}

pub open spec fn is_str(v: ValueV) -> bool {
    match v {
        ValueV::Str(_) => true,
        _ => false,
    }
}

pub open spec fn attempt_msg(op: Seq<char>, a: ValueV, b: ValueV) -> Seq<char> {
    "attempt to "@ + op + " `"@ + kind_name_spec(a) + "` and `"@ + kind_name_spec(b) + "`"@
}

pub open spec fn compare_msg(a: ValueV, b: ValueV) -> Seq<char> {
    "cannot compare `"@ + kind_name_spec(a) + "` and `"@ + kind_name_spec(b) + "`"@
}

pub open spec fn apply_msg(op: Seq<char>, v: ValueV) -> Seq<char> {
    "cannot apply "@ + op + " to `"@ + kind_name_spec(v) + "`"@
}

/// The argument tokens of the line, or the single diagnostic the token list
/// produces when its count is not `n` or some token is no value.
pub ghost enum ValsArm {
    Vals(Seq<ValueV>),
    Fail(Seq<ParseErrorV>),
}

pub open spec fn vals_exact(line: Seq<char>, line_no: int, sh: LineShape, n: int) -> ValsArm {
    let rs = val_ranges(line, sh.arg_start, sh.arg_start, false, sh.arg_end);
    if rs.len() != n {
        ValsArm::Fail(
            diag1(line_no, sh.arg_start + 1, "requires "@ + dec_digits(n) + " value(s)"@),
        )
    } else {
        match parse_vals(line, rs) {
            ValsOut::Good(vs) => ValsArm::Vals(vs),
            ValsOut::Bad(c, t) => ValsArm::Fail(seq![invalid_value_diag(line_no, c, t)]),
        }
    }
}

pub open spec fn arm_noarg(op: InstrV, msg: Seq<char>, line: Seq<char>, line_no: int, sh: LineShape) -> LineOut {
    if !has_arg(sh) {
        out_i(seq![op])
    } else {
        out_d(diag1(line_no, sh.arg_start + 1, msg))
    }
}

pub open spec fn arm_val1(op: InstrV, line: Seq<char>, line_no: int, sh: LineShape) -> LineOut {
    if !has_arg(sh) {
        out_i(seq![op])
    } else {
        match vals_exact(line, line_no, sh, 1) {
            ValsArm::Fail(ds) => out_d(ds),
            ValsArm::Vals(vs) => out_i(seq![InstrV::Push(vs[0]), op]),
        }
    }
}

pub open spec fn arm_arith(op: InstrV, name: Seq<char>, allow_str: bool, line: Seq<char>, line_no: int, sh: LineShape) -> LineOut {
    if !has_arg(sh) {
        out_i(seq![op])
    } else {
        match vals_exact(line, line_no, sh, 2) {
            ValsArm::Fail(ds) => out_d(ds),
            ValsArm::Vals(vs) => {
                let ok = (is_int(vs[0]) && is_int(vs[1]))
                    || (allow_str && is_str(vs[0]) && is_str(vs[1]));
                if ok {
                    out_i(seq![InstrV::Push(vs[0]), InstrV::Push(vs[1]), op])
                } else {
                    out_d(diag1(line_no, sh.arg_start + 1, attempt_msg(name, vs[0], vs[1])))
                }
            },
        }
    }
}

pub open spec fn arm_cmp2(op: InstrV, boolish: bool, line: Seq<char>, line_no: int, sh: LineShape) -> LineOut {
    if !has_arg(sh) {
        out_i(seq![op])
    } else {
        match vals_exact(line, line_no, sh, 2) {
            ValsArm::Fail(ds) => out_d(ds),
            ValsArm::Vals(vs) => {
                let ok = if boolish {
                    (is_bool(vs[0]) && is_bool(vs[1])) || (is_int(vs[0]) && is_int(vs[1]))
                } else {
                    is_int(vs[0]) && is_int(vs[1])
                };
                if ok {
                    out_i(seq![InstrV::Push(vs[0]), InstrV::Push(vs[1]), op])
                } else {
                    out_d(diag1(line_no, sh.arg_start + 1, compare_msg(vs[0], vs[1])))
                }
            },
        }
    }
}

pub open spec fn arm_any2(op: InstrV, line: Seq<char>, line_no: int, sh: LineShape) -> LineOut {
    if !has_arg(sh) {
        out_i(seq![op])
    } else {
        match vals_exact(line, line_no, sh, 2) {
            ValsArm::Fail(ds) => out_d(ds),
            ValsArm::Vals(vs) => out_i(seq![InstrV::Push(vs[0]), InstrV::Push(vs[1]), op]),
        }
    }
}

pub open spec fn arm_apply1(op: InstrV, name: Seq<char>, allow_bool: bool, line: Seq<char>, line_no: int, sh: LineShape) -> LineOut {
    if !has_arg(sh) {
        out_i(seq![op])
    } else {
        match vals_exact(line, line_no, sh, 1) {
            ValsArm::Fail(ds) => out_d(ds),
            ValsArm::Vals(vs) => {
                let ok = is_int(vs[0]) || (allow_bool && is_bool(vs[0]));
                if ok {
                    out_i(seq![InstrV::Push(vs[0]), op])
                } else {
                    out_d(diag1(line_no, sh.arg_start + 1, apply_msg(name, vs[0])))
                }
            },
        }
    }
}

pub open spec fn arm_typed1(op: InstrV, want_str: bool, msg: Seq<char>, line: Seq<char>, line_no: int, sh: LineShape) -> LineOut {
    if !has_arg(sh) {
        out_i(seq![op])
    } else {
        match vals_exact(line, line_no, sh, 1) {
            ValsArm::Fail(ds) => out_d(ds),
            ValsArm::Vals(vs) => {
                let ok = if want_str {
                    is_str(vs[0])
                } else {
                    is_int(vs[0])
                };
                if ok {
                    out_i(seq![InstrV::Push(vs[0]), op])
                } else {
                    out_d(diag1(line_no, sh.arg_start + 1, msg))
                }
            },
        }
    }
}

pub open spec fn arm_minmax(op: InstrV, line: Seq<char>, line_no: int, sh: LineShape) -> LineOut {
    if !has_arg(sh) {
        out_i(seq![op])
    } else {
        let rs = val_ranges(line, sh.arg_start, sh.arg_start, false, sh.arg_end);
        match parse_vals(line, rs) {
            ValsOut::Bad(c, t) => out_d(seq![invalid_value_diag(line_no, c, t)]),
            ValsOut::Good(vs) => {
                let cnt: int = if vs.len() <= 1 {
                    1
                } else {
                    vs.len() - 1
                };
                out_i(pushes(vs) + Seq::new(cnt as nat, |x: int| op))
            },
        }
    }
}

pub open spec fn arm_absign(op: InstrV, msg: Seq<char>, line: Seq<char>, line_no: int, sh: LineShape) -> LineOut {
    if !has_arg(sh) {
        out_i(seq![op])
    } else {
        match parse_int_spec(arg_of(line, sh)) {
            Some(i) => out_i(seq![InstrV::Push(ValueV::Int(i)), op]),
            None => out_d(diag1(line_no, sh.arg_start + 1, msg)),
        }
    }
}

pub open spec fn arm_strpush(op: InstrV, msg: Seq<char>, line: Seq<char>, line_no: int, sh: LineShape) -> LineOut {
    if !has_arg(sh) {
        out_i(seq![op])
    } else {
        let arg = arg_of(line, sh);
        if arg.len() >= 2 && arg[0] == '"' && arg.last() == '"' {
            out_i(seq![InstrV::Push(ValueV::Str(arg.subrange(1, arg.len() - 1))), op])
        } else {
            out_d(diag1(line_no, sh.arg_start + 1, msg))
        }
    }
}

pub open spec fn arm_exit(line: Seq<char>, line_no: int, sh: LineShape) -> LineOut {
    if !has_arg(sh) {
        out_i(seq![InstrV::Exit])
    } else {
        match parse_int_spec(arg_of(line, sh)) {
            Some(c) => out_i(seq![InstrV::Push(ValueV::Int(c)), InstrV::Exit]),
            None => out_d(diag1(line_no, sh.arg_start + 1, "exit code must be an integer"@)),
        }
    }
}

pub open spec fn arm_pop(line: Seq<char>, line_no: int, sh: LineShape) -> LineOut {
    if !has_arg(sh) {
        out_i(seq![InstrV::PopN(1)])
    } else {
        match parse_usize_spec(arg_of(line, sh)) {
            Some(n) => out_i(seq![InstrV::PopN(n as int)]),
            None => out_d(
                diag1(
                    line_no,
                    sh.cmd_start + 1,
                    "unexpected argument to `pop` (takes a positive integer)"@,
                ),
            ),
        }
    }
}

pub open spec fn arm_var(load: bool, msg: Seq<char>, line: Seq<char>, line_no: int, sh: LineShape) -> LineOut {
    if !has_arg(sh) {
        out_d(diag1(line_no, sh.cmd_start + 1, msg))
    } else {
        let arg = arg_of(line, sh);
        if load {
            out_i(seq![InstrV::Load(arg)])
        } else {
            out_i(seq![InstrV::Store(arg)])
        }
    }
}

pub open spec fn arm_jump(br: bool, msg: Seq<char>, line: Seq<char>, line_no: int, sh: LineShape, labs: Seq<Seq<char>>) -> LineOut {
    if !has_arg(sh) {
        out_d(diag1(line_no, sh.cmd_start + 1, msg))
    } else {
        let arg = arg_of(line, sh);
        if labs.contains(arg) {
            if br {
                out_i(seq![InstrV::Br(arg)])
            } else {
                out_i(seq![InstrV::Goto(arg)])
            }
        } else {
            LineOut {
                instrs: Seq::empty(),
                diags: seq![
                    ParseErrorV {
                        kind: ParseErrorKindV::LabelNotFound(arg),
                        line: line_no,
                        col: sh.arg_start + 1,
                    },
                ],
            }
        }
    }
}


/// Whether the argument holds any whitespace (so it is not one type name).
pub open spec fn has_ws(s: Seq<char>) -> bool {
    exists|i: int| 0 <= i < s.len() && is_space_char(s[i])
}

/// The type names `convert` accepts.
pub open spec fn valid_type_name(s: Seq<char>) -> bool {
    ||| s == "string"@
    ||| s == "int"@
    ||| s == "float"@
    ||| s == "ptr"@
    ||| s == "bool"@
    ||| s == "nil"@
}

pub open spec fn arm_convert(line: Seq<char>, line_no: int, sh: LineShape) -> LineOut {
    if !has_arg(sh) {
        out_d(
            diag1(
                line_no,
                sh.cmd_start + 1,
                "unexpected argument to `convert` (requires a type name)"@,
            ),
        )
    } else {
        let arg = arg_of(line, sh);
        if has_ws(arg) {
            out_d(
                diag1(
                    line_no,
                    sh.arg_start + 1,
                    "unexpected argument to `convert` (requires a type name)"@,
                ),
            )
        } else if !valid_type_name(arg) {
            out_d(diag1(line_no, sh.arg_start + 1, "invalid type name: "@ + arg))
        } else {
            out_i(seq![InstrV::Convert(arg)])
        }
    }
}

/// `push` reads every token, emitting a `Push` for each value and one
/// diagnostic for each bad token; it does not stop at the first defect.
pub open spec fn push_fold(line: Seq<char>, line_no: int, rs: Seq<(int, int)>) -> LineOut
    decreases rs.len(),
{
    if rs.len() == 0 {
        LineOut { instrs: Seq::empty(), diags: Seq::empty() }
    } else {
        let a = rs[0].0;
        let b = rs[0].1;
        let ts = skip_spaces(line, a, b);
        let te = trim_end(line, ts, b);
        let tok = line.subrange(ts, te);
        let rest = push_fold(line, line_no, rs.drop_first());
        match value_of_token(tok) {
            Some(v) => LineOut { instrs: seq![InstrV::Push(v)] + rest.instrs, diags: rest.diags },
            None => LineOut {
                instrs: rest.instrs,
                diags: seq![invalid_value_diag(line_no, ts + 1, tok)] + rest.diags,
            },
        }
    }
}

pub open spec fn arm_push(line: Seq<char>, line_no: int, sh: LineShape) -> LineOut {
    if !has_arg(sh) {
        out_d(
            diag1(
                line_no,
                sh.cmd_start + 1,
                "unexpected argument to `push` (requires at least one value)"@,
            ),
        )
    } else {
        push_fold(line, line_no, val_ranges(line, sh.arg_start, sh.arg_start, false, sh.arg_end))
    }
}

} // verus!

verus! {

// ---------------------------------------------------------------------------
// Executable parse arms
// ---------------------------------------------------------------------------

/// What the arm helpers assume of a non-blank line's shape.
pub open spec fn shape_pre(line: Seq<char>, sh: Shape) -> bool {
    &&& line.len() < usize::MAX
    &&& sh@ == shape_of(line)
    &&& !sh.blank
    &&& sh.cmd_start < sh.cmd_end <= sh.arg_start <= sh.arg_end <= line.len()
}

fn mk_diag(line_no: usize, col: usize, m: String) -> (e: ParseError)
    ensures
        e@ == (ParseErrorV {
            kind: ParseErrorKindV::InvalidArgument(m@),
            line: line_no as int,
            col: col as int,
        }),
{
    ParseError { kind: ParseErrorKind::InvalidArgument(m), line: line_no, col: col }
}

fn one_instr(i: Instr) -> (r: (Vec<Instr>, Vec<ParseError>))
    ensures
        r.0.deep_view() == seq![i@],
        r.1.deep_view() == Seq::<ParseErrorV>::empty(),
{
    let ghost gi = i@;
    let mut is: Vec<Instr> = Vec::new();
    is.push(i);
    let ds: Vec<ParseError> = Vec::new();
    proof {
        assert(is.deep_view() =~= seq![gi]);
        assert(ds.deep_view() =~= Seq::<ParseErrorV>::empty());
    }
    (is, ds)
}

fn two_instr(a: Instr, b: Instr) -> (r: (Vec<Instr>, Vec<ParseError>))
    ensures
        r.0.deep_view() == seq![a@, b@],
        r.1.deep_view() == Seq::<ParseErrorV>::empty(),
{
    let ghost ga = a@;
    let ghost gb = b@;
    let mut is: Vec<Instr> = Vec::new();
    is.push(a);
    is.push(b);
    let ds: Vec<ParseError> = Vec::new();
    proof {
        assert(is.deep_view() =~= seq![ga, gb]);
        assert(ds.deep_view() =~= Seq::<ParseErrorV>::empty());
    }
    (is, ds)
}

fn three_instr(a: Instr, b: Instr, c: Instr) -> (r: (Vec<Instr>, Vec<ParseError>))
    ensures
        r.0.deep_view() == seq![a@, b@, c@],
        r.1.deep_view() == Seq::<ParseErrorV>::empty(),
{
    let ghost ga = a@;
    let ghost gb = b@;
    let ghost gc = c@;
    let mut is: Vec<Instr> = Vec::new();
    is.push(a);
    is.push(b);
    is.push(c);
    let ds: Vec<ParseError> = Vec::new();
    proof {
        assert(is.deep_view() =~= seq![ga, gb, gc]);
        assert(ds.deep_view() =~= Seq::<ParseErrorV>::empty());
    }
    (is, ds)
}

fn one_diag(e: ParseError) -> (r: (Vec<Instr>, Vec<ParseError>))
    ensures
        r.0.deep_view() == Seq::<InstrV>::empty(),
        r.1.deep_view() == seq![e@],
{
    let ghost ge = e@;
    let is: Vec<Instr> = Vec::new();
    let mut ds: Vec<ParseError> = Vec::new();
    ds.push(e);
    proof {
        assert(is.deep_view() =~= Seq::<InstrV>::empty());
        assert(ds.deep_view() =~= seq![ge]);
    }
    (is, ds)
}

fn val_is_int(v: &Value) -> (r: bool)
    ensures
        r == is_int(v@),
{
    match v {
        Value::Int(_) => true,
        _ => false,
    }
}

fn val_is_bool(v: &Value) -> (r: bool)
    ensures
        r == is_bool(v@),
{
    match v {
        Value::Bool(_) => true,
        _ => false,
    }
}

fn val_is_str(v: &Value) -> (r: bool)
    ensures
        r == is_str(v@),
{
    match v {
        Value::Str(_) => true,
        _ => false,
    }
}

fn mk_attempt(name: &str, a: &Value, b: &Value) -> (m: String)
    ensures
        m@ == attempt_msg(name@, a@, b@),
{
    let mut m = String::from_str("attempt to ");
    m.append(name);
    m.append(" `");
    m.append(a.kind_name());
    m.append("` and `");
    m.append(b.kind_name());
    m.append("`");
    proof {
        assert(m@ =~= attempt_msg(name@, a@, b@));
    }
    m
}

fn mk_compare(a: &Value, b: &Value) -> (m: String)
    ensures
        m@ == compare_msg(a@, b@),
{
    let mut m = String::from_str("cannot compare `");
    m.append(a.kind_name());
    m.append("` and `");
    m.append(b.kind_name());
    m.append("`");
    proof {
        assert(m@ =~= compare_msg(a@, b@));
    }
    m
}

fn mk_apply(name: &str, v: &Value) -> (m: String)
    ensures
        m@ == apply_msg(name@, v@),
{
    let mut m = String::from_str("cannot apply ");
    m.append(name);
    m.append(" to `");
    m.append(v.kind_name());
    m.append("`");
    proof {
        assert(m@ =~= apply_msg(name@, v@));
    }
    m
}

pub proof fn lemma_parse_vals_len(s: Seq<char>, rs: Seq<(int, int)>)
    ensures
        match parse_vals(s, rs) {
            ValsOut::Good(vs) => vs.len() == rs.len(),
            ValsOut::Bad(_, _) => true,
        },
    decreases rs.len(),
{
    if rs.len() > 0 {
        lemma_parse_vals_len(s, rs.drop_first());
    }
}

fn e_vals_exact(line: &str, sh: &Shape, line_no: usize, n: usize) -> (r: Result<Vec<Value>, ParseError>)
    requires
        shape_pre(line@, *sh),
        1 <= n,
    ensures
        match r {
            Ok(vs) => vals_exact(line@, line_no as int, sh@, n as int) == ValsArm::Vals(
                vs.deep_view(),
            ) && vs@.len() == n,
            Err(e) => vals_exact(line@, line_no as int, sh@, n as int) == ValsArm::Fail(seq![e@]),
        },
{
    let rs = scan_vals(line, sh.arg_start, sh.arg_end);
    proof {
        lemma_val_ranges_valid(line@, sh.arg_start as int, sh.arg_start as int, false, sh.arg_end as int);
        assert forall|k: int| 0 <= k < rs@.len()
            implies (#[trigger] rs@[k]).0 <= rs@[k].1 <= line@.len() by {
            assert(rs_view(rs@)[k] == (rs@[k].0 as int, rs@[k].1 as int));
        }
        assert(rs_view(rs@).len() == rs@.len());
    }
    if rs.len() != n {
        let mut m = String::from_str("requires ");
        push_usize_dec(n, &mut m);
        m.append(" value(s)");
        proof {
            assert(m@ =~= "requires "@ + dec_digits(n as int) + " value(s)"@);
        }
        return Err(mk_diag(line_no, sh.arg_start + 1, m));
    }
    proof {
        lemma_parse_vals_len(line@, rs_view(rs@));
    }
    match get_vals(line, &rs, line_no) {
        Ok(vs) => Ok(vs),
        Err(e) => Err(e),
    }
}

fn e_noarg(op: Instr, msg: &str, line: &str, sh: &Shape, line_no: usize) -> (r: (Vec<Instr>, Vec<ParseError>))
    requires
        shape_pre(line@, *sh),
    ensures
        ({
            let o = arm_noarg(op@, msg@, line@, line_no as int, sh@);
            r.0.deep_view() == o.instrs && r.1.deep_view() == o.diags
        }),
{
    if sh.arg_start >= sh.arg_end {
        one_instr(op)
    } else {
        one_diag(mk_diag(line_no, sh.arg_start + 1, String::from_str(msg)))
    }
}

fn e_val1(op: Instr, line: &str, sh: &Shape, line_no: usize) -> (r: (Vec<Instr>, Vec<ParseError>))
    requires
        shape_pre(line@, *sh),
    ensures
        ({
            let o = arm_val1(op@, line@, line_no as int, sh@);
            r.0.deep_view() == o.instrs && r.1.deep_view() == o.diags
        }),
{
    if sh.arg_start >= sh.arg_end {
        return one_instr(op);
    }
    match e_vals_exact(line, sh, line_no, 1) {
        Err(e) => one_diag(e),
        Ok(vs) => {
            let v = vs[0].clone();
            two_instr(Instr::Push(v), op)
        },
    }
}

fn e_arith(op: Instr, name: &str, allow_str: bool, line: &str, sh: &Shape, line_no: usize) -> (r: (Vec<Instr>, Vec<ParseError>))
    requires
        shape_pre(line@, *sh),
    ensures
        ({
            let o = arm_arith(op@, name@, allow_str, line@, line_no as int, sh@);
            r.0.deep_view() == o.instrs && r.1.deep_view() == o.diags
        }),
{
    if sh.arg_start >= sh.arg_end {
        return one_instr(op);
    }
    match e_vals_exact(line, sh, line_no, 2) {
        Err(e) => one_diag(e),
        Ok(vs) => {
            let ok = (val_is_int(&vs[0]) && val_is_int(&vs[1]))
                || (allow_str && val_is_str(&vs[0]) && val_is_str(&vs[1]));
            if ok {
                let a = vs[0].clone();
                let b = vs[1].clone();
                three_instr(Instr::Push(a), Instr::Push(b), op)
            } else {
                let m = mk_attempt(name, &vs[0], &vs[1]);
                one_diag(mk_diag(line_no, sh.arg_start + 1, m))
            }
        },
    }
}

fn e_cmp2(op: Instr, boolish: bool, line: &str, sh: &Shape, line_no: usize) -> (r: (Vec<Instr>, Vec<ParseError>))
    requires
        shape_pre(line@, *sh),
    ensures
        ({
            let o = arm_cmp2(op@, boolish, line@, line_no as int, sh@);
            r.0.deep_view() == o.instrs && r.1.deep_view() == o.diags
        }),
{
    if sh.arg_start >= sh.arg_end {
        return one_instr(op);
    }
    match e_vals_exact(line, sh, line_no, 2) {
        Err(e) => one_diag(e),
        Ok(vs) => {
            let ok = if boolish {
                (val_is_bool(&vs[0]) && val_is_bool(&vs[1]))
                    || (val_is_int(&vs[0]) && val_is_int(&vs[1]))
            } else {
                val_is_int(&vs[0]) && val_is_int(&vs[1])
            };
            if ok {
                let a = vs[0].clone();
                let b = vs[1].clone();
                three_instr(Instr::Push(a), Instr::Push(b), op)
            } else {
                let m = mk_compare(&vs[0], &vs[1]);
                one_diag(mk_diag(line_no, sh.arg_start + 1, m))
            }
        },
    }
}

fn e_any2(op: Instr, line: &str, sh: &Shape, line_no: usize) -> (r: (Vec<Instr>, Vec<ParseError>))
    requires
        shape_pre(line@, *sh),
    ensures
        ({
            let o = arm_any2(op@, line@, line_no as int, sh@);
            r.0.deep_view() == o.instrs && r.1.deep_view() == o.diags
        }),
{
    if sh.arg_start >= sh.arg_end {
        return one_instr(op);
    }
    match e_vals_exact(line, sh, line_no, 2) {
        Err(e) => one_diag(e),
        Ok(vs) => {
            let a = vs[0].clone();
            let b = vs[1].clone();
            three_instr(Instr::Push(a), Instr::Push(b), op)
        },
    }
}

fn e_apply1(op: Instr, name: &str, allow_bool: bool, line: &str, sh: &Shape, line_no: usize) -> (r: (Vec<Instr>, Vec<ParseError>))
    requires
        shape_pre(line@, *sh),
    ensures
        ({
            let o = arm_apply1(op@, name@, allow_bool, line@, line_no as int, sh@);
            r.0.deep_view() == o.instrs && r.1.deep_view() == o.diags
        }),
{
    if sh.arg_start >= sh.arg_end {
        return one_instr(op);
    }
    match e_vals_exact(line, sh, line_no, 1) {
        Err(e) => one_diag(e),
        Ok(vs) => {
            let ok = val_is_int(&vs[0]) || (allow_bool && val_is_bool(&vs[0]));
            if ok {
                let v = vs[0].clone();
                two_instr(Instr::Push(v), op)
            } else {
                let m = mk_apply(name, &vs[0]);
                one_diag(mk_diag(line_no, sh.arg_start + 1, m))
            }
        },
    }
}

fn e_typed1(op: Instr, want_str: bool, msg: &str, line: &str, sh: &Shape, line_no: usize) -> (r: (Vec<Instr>, Vec<ParseError>))
    requires
        shape_pre(line@, *sh),
    ensures
        ({
            let o = arm_typed1(op@, want_str, msg@, line@, line_no as int, sh@);
            r.0.deep_view() == o.instrs && r.1.deep_view() == o.diags
        }),
{
    if sh.arg_start >= sh.arg_end {
        return one_instr(op);
    }
    match e_vals_exact(line, sh, line_no, 1) {
        Err(e) => one_diag(e),
        Ok(vs) => {
            let ok = if want_str {
                val_is_str(&vs[0])
            } else {
                val_is_int(&vs[0])
            };
            if ok {
                let v = vs[0].clone();
                two_instr(Instr::Push(v), op)
            } else {
                one_diag(mk_diag(line_no, sh.arg_start + 1, String::from_str(msg)))
            }
        },
    }
}

fn e_minmax(is_min: bool, line: &str, sh: &Shape, line_no: usize) -> (r: (Vec<Instr>, Vec<ParseError>))
    requires
        shape_pre(line@, *sh),
    ensures
        ({
            let opv = if is_min {
                InstrV::Min
            } else {
                InstrV::Max
            };
            let o = arm_minmax(opv, line@, line_no as int, sh@);
            r.0.deep_view() == o.instrs && r.1.deep_view() == o.diags
        }),
{
    let ghost opv = if is_min {
        InstrV::Min
    } else {
        InstrV::Max
    };
    if sh.arg_start >= sh.arg_end {
        if is_min {
            return one_instr(Instr::Min);
        } else {
            return one_instr(Instr::Max);
        }
    }
    let rs = scan_vals(line, sh.arg_start, sh.arg_end);
    proof {
        lemma_val_ranges_valid(line@, sh.arg_start as int, sh.arg_start as int, false, sh.arg_end as int);
        assert forall|k: int| 0 <= k < rs@.len()
            implies (#[trigger] rs@[k]).0 <= rs@[k].1 <= line@.len() by {
            assert(rs_view(rs@)[k] == (rs@[k].0 as int, rs@[k].1 as int));
        }
    }
    match get_vals(line, &rs, line_no) {
        Err(e) => one_diag(e),
        Ok(vs) => {
            let nv = vs.len();
            let mut is: Vec<Instr> = Vec::new();
            let mut i: usize = 0;
            while i < nv
                invariant
                    i <= nv,
                    nv == vs@.len(),
                    is.deep_view() =~= pushes(vs.deep_view().take(i as int)),
                decreases nv - i,
            {
                let ghost pre = is.deep_view();
                is.push(Instr::Push(vs[i].clone()));
                proof {
                    assert(is.deep_view() =~= pre.push(InstrV::Push(vs.deep_view()[i as int])));
                    assert(vs.deep_view().take(i as int + 1)
                        =~= vs.deep_view().take(i as int).push(vs.deep_view()[i as int]));
                    assert(is.deep_view() =~= pushes(vs.deep_view().take(i as int + 1)));
                }
                i = i + 1;
            }
            proof {
                assert(vs.deep_view().take(nv as int) =~= vs.deep_view());
            }
            let cnt: usize = if nv <= 1 {
                1
            } else {
                nv - 1
            };
            let mut j: usize = 0;
            while j < cnt
                invariant
                    j <= cnt,
                    is.deep_view() =~= pushes(vs.deep_view()) + Seq::new(j as nat, |x: int| opv),
                    opv == if is_min { InstrV::Min } else { InstrV::Max },
                decreases cnt - j,
            {
                let ghost pre = is.deep_view();
                if is_min {
                    is.push(Instr::Min);
                } else {
                    is.push(Instr::Max);
                }
                proof {
                    assert(is.deep_view() =~= pre.push(opv));
                    assert(Seq::new(j as nat + 1, |x: int| opv)
                        =~= Seq::new(j as nat, |x: int| opv).push(opv));
                    assert(is.deep_view() =~= pushes(vs.deep_view()) + Seq::new(j as nat + 1, |x: int| opv));
                }
                j = j + 1;
            }
            let ds: Vec<ParseError> = Vec::new();
            proof {
                assert(ds.deep_view() =~= Seq::<ParseErrorV>::empty());
            }
            (is, ds)
        },
    }
}

fn e_absign(op: Instr, msg: &str, line: &str, sh: &Shape, line_no: usize) -> (r: (Vec<Instr>, Vec<ParseError>))
    requires
        shape_pre(line@, *sh),
    ensures
        ({
            let o = arm_absign(op@, msg@, line@, line_no as int, sh@);
            r.0.deep_view() == o.instrs && r.1.deep_view() == o.diags
        }),
{
    if sh.arg_start >= sh.arg_end {
        return one_instr(op);
    }
    let arg = line.substring_char(sh.arg_start, sh.arg_end);
    match parse_int(arg) {
        Some(i) => two_instr(Instr::Push(Value::Int(i)), op),
        None => one_diag(mk_diag(line_no, sh.arg_start + 1, String::from_str(msg))),
    }
}

fn e_strpush(op: Instr, msg: &str, line: &str, sh: &Shape, line_no: usize) -> (r: (Vec<Instr>, Vec<ParseError>))
    requires
        shape_pre(line@, *sh),
    ensures
        ({
            let o = arm_strpush(op@, msg@, line@, line_no as int, sh@);
            r.0.deep_view() == o.instrs && r.1.deep_view() == o.diags
        }),
{
    if sh.arg_start >= sh.arg_end {
        return one_instr(op);
    }
    let arg = line.substring_char(sh.arg_start, sh.arg_end);
    let n = arg.unicode_len();
    if n >= 2 && arg.get_char(0) == '"' && arg.get_char(n - 1) == '"' {
        let inner = arg.substring_char(1, n - 1);
        two_instr(Instr::Push(Value::Str(String::from_str(inner))), op)
    } else {
        one_diag(mk_diag(line_no, sh.arg_start + 1, String::from_str(msg)))
    }
}

fn e_exit(line: &str, sh: &Shape, line_no: usize) -> (r: (Vec<Instr>, Vec<ParseError>))
    requires
        shape_pre(line@, *sh),
    ensures
        ({
            let o = arm_exit(line@, line_no as int, sh@);
            r.0.deep_view() == o.instrs && r.1.deep_view() == o.diags
        }),
{
    if sh.arg_start >= sh.arg_end {
        return one_instr(Instr::Exit);
    }
    let arg = line.substring_char(sh.arg_start, sh.arg_end);
    match parse_int(arg) {
        Some(c) => two_instr(Instr::Push(Value::Int(c)), Instr::Exit),
        None => one_diag(
            mk_diag(line_no, sh.arg_start + 1, String::from_str("exit code must be an integer")),
        ),
    }
}

fn e_pop(line: &str, sh: &Shape, line_no: usize) -> (r: (Vec<Instr>, Vec<ParseError>))
    requires
        shape_pre(line@, *sh),
    ensures
        ({
            let o = arm_pop(line@, line_no as int, sh@);
            r.0.deep_view() == o.instrs && r.1.deep_view() == o.diags
        }),
{
    if sh.arg_start >= sh.arg_end {
        return one_instr(Instr::PopN(1));
    }
    let arg = line.substring_char(sh.arg_start, sh.arg_end);
    match parse_usize(arg) {
        Some(n) => one_instr(Instr::PopN(n)),
        None => one_diag(
            mk_diag(
                line_no,
                sh.cmd_start + 1,
                String::from_str("unexpected argument to `pop` (takes a positive integer)"),
            ),
        ),
    }
}

fn e_var(load: bool, msg: &str, line: &str, sh: &Shape, line_no: usize) -> (r: (Vec<Instr>, Vec<ParseError>))
    requires
        shape_pre(line@, *sh),
    ensures
        ({
            let o = arm_var(load, msg@, line@, line_no as int, sh@);
            r.0.deep_view() == o.instrs && r.1.deep_view() == o.diags
        }),
{
    if sh.arg_start >= sh.arg_end {
        return one_diag(mk_diag(line_no, sh.cmd_start + 1, String::from_str(msg)));
    }
    let arg = line.substring_char(sh.arg_start, sh.arg_end);
    if load {
        one_instr(Instr::Load(String::from_str(arg)))
    } else {
        one_instr(Instr::Store(String::from_str(arg)))
    }
}

fn e_jump(br: bool, msg: &str, line: &str, sh: &Shape, line_no: usize, labs: &Vec<String>) -> (r: (Vec<Instr>, Vec<ParseError>))
    requires
        shape_pre(line@, *sh),
    ensures
        ({
            let o = arm_jump(br, msg@, line@, line_no as int, sh@, labs.deep_view());
            r.0.deep_view() == o.instrs && r.1.deep_view() == o.diags
        }),
{
    if sh.arg_start >= sh.arg_end {
        return one_diag(mk_diag(line_no, sh.cmd_start + 1, String::from_str(msg)));
    }
    let arg = line.substring_char(sh.arg_start, sh.arg_end);
    if contains_str(labs, arg) {
        if br {
            one_instr(Instr::Br(String::from_str(arg)))
        } else {
            one_instr(Instr::Goto(String::from_str(arg)))
        }
    } else {
        one_diag(
            ParseError {
                kind: ParseErrorKind::LabelNotFound(String::from_str(arg)),
                line: line_no,
                col: sh.arg_start + 1,
            },
        )
    }
}


fn arg_has_ws(line: &str, a: usize, b: usize) -> (r: bool)
    requires
        a <= b <= line@.len(),
    ensures
        r == has_ws(line@.subrange(a as int, b as int)),
{
    let ghost arg = line@.subrange(a as int, b as int);
    let mut i = a;
    while i < b
        invariant
            a <= i <= b <= line@.len(),
            arg == line@.subrange(a as int, b as int),
            forall|j: int| 0 <= j < i - a ==> !is_space_char(arg[j]),
        decreases b - i,
    {
        if is_space(line.get_char(i)) {
            proof {
                assert(arg[i - a] == line@[i as int]);
            }
            return true;
        }
        i = i + 1;
    }
    false
}

fn e_convert(line: &str, sh: &Shape, line_no: usize) -> (r: (Vec<Instr>, Vec<ParseError>))
    requires
        shape_pre(line@, *sh),
    ensures
        ({
            let o = arm_convert(line@, line_no as int, sh@);
            r.0.deep_view() == o.instrs && r.1.deep_view() == o.diags
        }),
{
    if sh.arg_start >= sh.arg_end {
        return one_diag(
            mk_diag(
                line_no,
                sh.cmd_start + 1,
                String::from_str("unexpected argument to `convert` (requires a type name)"),
            ),
        );
    }
    if arg_has_ws(line, sh.arg_start, sh.arg_end) {
        return one_diag(
            mk_diag(
                line_no,
                sh.arg_start + 1,
                String::from_str("unexpected argument to `convert` (requires a type name)"),
            ),
        );
    }
    let arg = line.substring_char(sh.arg_start, sh.arg_end);
    let valid = str_eq(arg, "string") || str_eq(arg, "int") || str_eq(arg, "float")
        || str_eq(arg, "ptr") || str_eq(arg, "bool") || str_eq(arg, "nil");
    if valid {
        one_instr(Instr::Convert(String::from_str(arg)))
    } else {
        let mut m = String::from_str("invalid type name: ");
        m.append(arg);
        one_diag(mk_diag(line_no, sh.arg_start + 1, m))
    }
}

fn e_push(line: &str, sh: &Shape, line_no: usize) -> (r: (Vec<Instr>, Vec<ParseError>))
    requires
        shape_pre(line@, *sh),
    ensures
        ({
            let o = arm_push(line@, line_no as int, sh@);
            r.0.deep_view() == o.instrs && r.1.deep_view() == o.diags
        }),
{
    if sh.arg_start >= sh.arg_end {
        return one_diag(
            mk_diag(
                line_no,
                sh.cmd_start + 1,
                String::from_str("unexpected argument to `push` (requires at least one value)"),
            ),
        );
    }
    let rs = scan_vals(line, sh.arg_start, sh.arg_end);
    proof {
        lemma_val_ranges_valid(line@, sh.arg_start as int, sh.arg_start as int, false, sh.arg_end as int);
        assert forall|k: int| 0 <= k < rs@.len()
            implies (#[trigger] rs@[k]).0 <= rs@[k].1 <= line@.len() by {
            assert(rs_view(rs@)[k] == (rs@[k].0 as int, rs@[k].1 as int));
        }
    }
    let n = rs.len();
    let mut is: Vec<Instr> = Vec::new();
    let mut ds: Vec<ParseError> = Vec::new();
    let ghost whole = push_fold(line@, line_no as int, rs_view(rs@));
    let mut k: usize = 0;
    proof {
        assert(rs_view(rs@).skip(0) =~= rs_view(rs@));
        assert(is.deep_view() + whole.instrs =~= whole.instrs);
        assert(ds.deep_view() + whole.diags =~= whole.diags);
    }
    while k < n
        invariant
            k <= n,
            n == rs@.len(),
            line@.len() < usize::MAX,
            forall|j: int| 0 <= j < rs@.len() ==> (#[trigger] rs@[j]).0 <= rs@[j].1 <= line@.len(),
            whole == push_fold(line@, line_no as int, rs_view(rs@)),
            whole.instrs == is.deep_view() + push_fold(
                line@,
                line_no as int,
                rs_view(rs@).skip(k as int),
            ).instrs,
            whole.diags == ds.deep_view() + push_fold(
                line@,
                line_no as int,
                rs_view(rs@).skip(k as int),
            ).diags,
        decreases n - k,
    {
        let (a, b) = (rs[k].0, rs[k].1);
        proof {
            assert(rs@[k as int].0 <= rs@[k as int].1 <= line@.len());
        }
        let (tok, ts) = token_at(line, a, b);
        let ghost tail = rs_view(rs@).skip(k as int);
        proof {
            assert(tail[0] == (a as int, b as int));
            assert(tail.drop_first() =~= rs_view(rs@).skip(k as int + 1));
        }
        match value_of_tok(tok) {
            Some(v) => {
                let ghost gv = v@;
                let ghost pre = is.deep_view();
                is.push(Instr::Push(v));
                proof {
                    assert(is.deep_view() =~= pre.push(InstrV::Push(gv)));
                    let rest = push_fold(line@, line_no as int, tail.drop_first());
                    assert(push_fold(line@, line_no as int, tail).instrs
                        =~= seq![InstrV::Push(gv)] + rest.instrs);
                    assert(pre + (seq![InstrV::Push(gv)] + rest.instrs) =~= is.deep_view() + rest.instrs);
                }
            },
            None => {
                let mut m = String::from_str("invalid value: ");
                m.append(tok);
                let ghost pre = ds.deep_view();
                ds.push(ParseError {
                    kind: ParseErrorKind::InvalidArgument(m),
                    line: line_no,
                    col: ts + 1,
                });
                proof {
                    let rest = push_fold(line@, line_no as int, tail.drop_first());
                    assert(ds.deep_view() =~= pre.push(invalid_value_diag(line_no as int, ts + 1, tok@)));
                    assert(push_fold(line@, line_no as int, tail).diags
                        =~= seq![invalid_value_diag(line_no as int, ts + 1, tok@)] + rest.diags);
                    assert(pre + (seq![invalid_value_diag(line_no as int, ts + 1, tok@)] + rest.diags)
                        =~= ds.deep_view() + rest.diags);
                }
            },
        }
        k = k + 1;
    }
    proof {
        assert(rs_view(rs@).skip(n as int) =~= Seq::<(int, int)>::empty());
        assert(is.deep_view() + Seq::<InstrV>::empty() =~= is.deep_view());
        assert(ds.deep_view() + Seq::<ParseErrorV>::empty() =~= ds.deep_view());
    }
    (is, ds)
}

} // verus!

verus! {

// ---------------------------------------------------------------------------
// One line
// ---------------------------------------------------------------------------

/// What one source line means: a label definition, an instruction (with any
/// inline operands expanded into `Push` instructions), or diagnostics.
pub open spec fn parse_line_spec(line: Seq<char>, line_no: int, labs: Seq<Seq<char>>) -> LineOut {
    let sh = shape_of(line);
    if sh.blank {
        LineOut { instrs: Seq::empty(), diags: Seq::empty() }
    } else {
        let cmd = line.subrange(sh.cmd_start, sh.cmd_end);
        if cmd.len() > 0 && cmd.last() == ':' {
            out_i(seq![InstrV::Label(strip_colons(cmd))])
        } else if cmd == "nop"@ {
            arm_noarg(InstrV::Nop, "unexpected argument to `nop` (takes no arguments)"@, line, line_no, sh)
        } else if cmd == "dup"@ {
            arm_noarg(InstrV::Dup, "unexpected argument to `dup` (takes no arguments)"@, line, line_no, sh)
        } else if cmd == "read"@ {
            arm_noarg(InstrV::Read, "unexpected argument to `read` (takes no arguments)"@, line, line_no, sh)
        } else if cmd == "print"@ {
            arm_val1(InstrV::Print, line, line_no, sh)
        } else if cmd == "println"@ {
            arm_val1(InstrV::Println, line, line_no, sh)
        } else if cmd == "push"@ {
            arm_push(line, line_no, sh)
        } else if cmd == "pop"@ {
            arm_pop(line, line_no, sh)
        } else if cmd == "add"@ {
            arm_arith(InstrV::Add, "add"@, true, line, line_no, sh)
        } else if cmd == "sub"@ {
            arm_arith(InstrV::Sub, "sub"@, false, line, line_no, sh)
        } else if cmd == "mul"@ {
            arm_arith(InstrV::Mul, "mul"@, false, line, line_no, sh)
        } else if cmd == "div"@ {
            arm_arith(InstrV::Div, "div"@, false, line, line_no, sh)
        } else if cmd == "mod"@ {
            arm_arith(InstrV::Mod, "mod"@, false, line, line_no, sh)
        } else if cmd == "neg"@ {
            arm_apply1(InstrV::Neg, "neg"@, false, line, line_no, sh)
        } else if cmd == "gt"@ {
            arm_cmp2(InstrV::Greater, false, line, line_no, sh)
        } else if cmd == "lt"@ {
            arm_cmp2(InstrV::Less, false, line, line_no, sh)
        } else if cmd == "ge"@ {
            arm_cmp2(InstrV::GreaterEq, false, line, line_no, sh)
        } else if cmd == "le"@ {
            arm_cmp2(InstrV::LessEq, false, line, line_no, sh)
        } else if cmd == "and"@ {
            arm_cmp2(InstrV::And, true, line, line_no, sh)
        } else if cmd == "or"@ {
            arm_cmp2(InstrV::Or, true, line, line_no, sh)
        } else if cmd == "xor"@ {
            arm_cmp2(InstrV::Xor, true, line, line_no, sh)
        } else if cmd == "not"@ {
            arm_apply1(InstrV::Not, "not"@, true, line, line_no, sh)
        } else if cmd == "eq"@ {
            arm_any2(InstrV::Equal, line, line_no, sh)
        } else if cmd == "ne"@ {
            arm_any2(InstrV::NotEqual, line, line_no, sh)
        } else if cmd == "convert"@ {
            arm_convert(line, line_no, sh)
        } else if cmd == "min"@ {
            arm_minmax(InstrV::Min, line, line_no, sh)
        } else if cmd == "max"@ {
            arm_minmax(InstrV::Max, line, line_no, sh)
        } else if cmd == "abs"@ {
            arm_absign(InstrV::Abs, "unexpected argument to `abs` (requires an integer)"@, line, line_no, sh)
        } else if cmd == "sign"@ {
            arm_absign(InstrV::Sign, "unexpected argument to `sign` (requires an integer)"@, line, line_no, sh)
        } else if cmd == "len"@ {
            arm_typed1(InstrV::Len, true, "unexpected argument to `len` (requires a string)"@, line, line_no, sh)
        } else if cmd == "getarg"@ {
            arm_typed1(InstrV::GetArg, false, "unexpected argument to `getarg` (requires a integer)"@, line, line_no, sh)
        } else if cmd == "load"@ {
            arm_var(true, "unexpected argument to `load` (requires a variable name)"@, line, line_no, sh)
        } else if cmd == "store"@ {
            arm_var(false, "unexpected argument to `store` (requires a variable name)"@, line, line_no, sh)
        } else if cmd == "br"@ {
            arm_jump(true, "unexpected argument to `br` (requires a label)"@, line, line_no, sh, labs)
        } else if cmd == "goto"@ {
            arm_jump(false, "unexpected argument to `goto` (requires a label)"@, line, line_no, sh, labs)
        } else if cmd == "assert"@ {
            arm_strpush(InstrV::Assert, "assert message must be a string"@, line, line_no, sh)
        } else if cmd == "error"@ {
            arm_strpush(InstrV::Raise, "error message must be a string"@, line, line_no, sh)
        } else if cmd == "exit"@ {
            arm_exit(line, line_no, sh)
        } else {
            LineOut {
                instrs: Seq::empty(),
                diags: seq![
                    ParseErrorV {
                        kind: ParseErrorKindV::UnknownCommand(cmd),
                        line: line_no,
                        col: sh.cmd_start + 1,
                    },
                ],
            }
        }
    }
}

/// Parses one line into the instructions and diagnostics it contributes.
#[verifier::rlimit(100)]
pub fn parse_line(line: &str, line_no: usize, labs: &Vec<String>) -> (r: (Vec<Instr>, Vec<ParseError>))
    requires
        line@.len() < usize::MAX,
    ensures
        ({
            let o = parse_line_spec(line@, line_no as int, labs.deep_view());
            r.0.deep_view() == o.instrs && r.1.deep_view() == o.diags
        }),
{
    let sh = shape_in(line);
    if sh.blank {
        let r = (Vec::<Instr>::new(), Vec::<ParseError>::new());
        proof {
            assert(r.0.deep_view() =~= Seq::<InstrV>::empty());
            assert(r.1.deep_view() =~= Seq::<ParseErrorV>::empty());
        }
        return r;
    }
    let cmd = line.substring_char(sh.cmd_start, sh.cmd_end);
    let cn = cmd.unicode_len();
    if cn > 0 && cmd.get_char(cn - 1) == ':' {
        let e = strip_colons_in(cmd);
        let name = cmd.substring_char(0, e);
        return one_instr(Instr::Label(String::from_str(name)));
    }
    if str_eq(cmd, "nop") {
        return e_noarg(Instr::Nop, "unexpected argument to `nop` (takes no arguments)", line, &sh, line_no);
    }
    if str_eq(cmd, "dup") {
        return e_noarg(Instr::Dup, "unexpected argument to `dup` (takes no arguments)", line, &sh, line_no);
    }
    if str_eq(cmd, "read") {
        return e_noarg(Instr::Read, "unexpected argument to `read` (takes no arguments)", line, &sh, line_no);
    }
    if str_eq(cmd, "print") {
        return e_val1(Instr::Print, line, &sh, line_no);
    }
    if str_eq(cmd, "println") {
        return e_val1(Instr::Println, line, &sh, line_no);
    }
    if str_eq(cmd, "push") {
        return e_push(line, &sh, line_no);
    }
    if str_eq(cmd, "pop") {
        return e_pop(line, &sh, line_no);
    }
    if str_eq(cmd, "add") {
        return e_arith(Instr::Add, "add", true, line, &sh, line_no);
    }
    if str_eq(cmd, "sub") {
        return e_arith(Instr::Sub, "sub", false, line, &sh, line_no);
    }
    if str_eq(cmd, "mul") {
        return e_arith(Instr::Mul, "mul", false, line, &sh, line_no);
    }
    if str_eq(cmd, "div") {
        return e_arith(Instr::Div, "div", false, line, &sh, line_no);
    }
    if str_eq(cmd, "mod") {
        return e_arith(Instr::Mod, "mod", false, line, &sh, line_no);
    }
    if str_eq(cmd, "neg") {
        return e_apply1(Instr::Neg, "neg", false, line, &sh, line_no);
    }
    if str_eq(cmd, "gt") {
        return e_cmp2(Instr::Greater, false, line, &sh, line_no);
    }
    if str_eq(cmd, "lt") {
        return e_cmp2(Instr::Less, false, line, &sh, line_no);
    }
    if str_eq(cmd, "ge") {
        return e_cmp2(Instr::GreaterEq, false, line, &sh, line_no);
    }
    if str_eq(cmd, "le") {
        return e_cmp2(Instr::LessEq, false, line, &sh, line_no);
    }
    if str_eq(cmd, "and") {
        return e_cmp2(Instr::And, true, line, &sh, line_no);
    }
    if str_eq(cmd, "or") {
        return e_cmp2(Instr::Or, true, line, &sh, line_no);
    }
    if str_eq(cmd, "xor") {
        return e_cmp2(Instr::Xor, true, line, &sh, line_no);
    }
    if str_eq(cmd, "not") {
        return e_apply1(Instr::Not, "not", true, line, &sh, line_no);
    }
    if str_eq(cmd, "eq") {
        return e_any2(Instr::Equal, line, &sh, line_no);
    }
    if str_eq(cmd, "ne") {
        return e_any2(Instr::NotEqual, line, &sh, line_no);
    }
    if str_eq(cmd, "convert") {
        return e_convert(line, &sh, line_no);
    }
    if str_eq(cmd, "min") {
        return e_minmax(true, line, &sh, line_no);
    }
    if str_eq(cmd, "max") {
        return e_minmax(false, line, &sh, line_no);
    }
    if str_eq(cmd, "abs") {
        return e_absign(Instr::Abs, "unexpected argument to `abs` (requires an integer)", line, &sh, line_no);
    }
    if str_eq(cmd, "sign") {
        return e_absign(Instr::Sign, "unexpected argument to `sign` (requires an integer)", line, &sh, line_no);
    }
    if str_eq(cmd, "len") {
        return e_typed1(Instr::Len, true, "unexpected argument to `len` (requires a string)", line, &sh, line_no);
    }
    if str_eq(cmd, "getarg") {
        return e_typed1(Instr::GetArg, false, "unexpected argument to `getarg` (requires a integer)", line, &sh, line_no);
    }
    if str_eq(cmd, "load") {
        return e_var(true, "unexpected argument to `load` (requires a variable name)", line, &sh, line_no);
    }
    if str_eq(cmd, "store") {
        return e_var(false, "unexpected argument to `store` (requires a variable name)", line, &sh, line_no);
    }
    if str_eq(cmd, "br") {
        return e_jump(true, "unexpected argument to `br` (requires a label)", line, &sh, line_no, labs);
    }
    if str_eq(cmd, "goto") {
        return e_jump(false, "unexpected argument to `goto` (requires a label)", line, &sh, line_no, labs);
    }
    if str_eq(cmd, "assert") {
        return e_strpush(Instr::Assert, "assert message must be a string", line, &sh, line_no);
    }
    if str_eq(cmd, "error") {
        return e_strpush(Instr::Raise, "error message must be a string", line, &sh, line_no);
    }
    if str_eq(cmd, "exit") {
        return e_exit(line, &sh, line_no);
    }
    one_diag(
        ParseError {
            kind: ParseErrorKind::UnknownCommand(String::from_str(cmd)),
            line: line_no,
            col: sh.cmd_start + 1,
        },
    )
}

} // verus!

verus! {

// ---------------------------------------------------------------------------
// Whole-source parse
// ---------------------------------------------------------------------------

/// Everything parsing a source yields: the instruction sequence, the source
/// line of each instruction, and the batched diagnostics (in source order).
pub ghost struct ParseResultV {
    pub instrs: Seq<InstrV>,
    pub lines: Seq<int>,
    pub diags: Seq<ParseErrorV>,
}

/// The accumulated result of parsing the first `k` lines.
pub open spec fn parse_upto(src: Seq<char>, rs: Seq<(int, int)>, labs: Seq<Seq<char>>, k: int) -> ParseResultV
    decreases k,
    when 0 <= k <= rs.len()
{
    if k <= 0 {
        ParseResultV { instrs: Seq::empty(), lines: Seq::empty(), diags: Seq::empty() }
    } else {
        let prev = parse_upto(src, rs, labs, k - 1);
        let line = src.subrange(rs[k - 1].0, rs[k - 1].1);
        let o = parse_line_spec(line, k, labs);
        ParseResultV {
            instrs: prev.instrs + o.instrs,
            lines: prev.lines + Seq::new(o.instrs.len(), |x: int| k),
            diags: prev.diags + o.diags,
        }
    }
}

/// The meaning of a whole source text.
pub open spec fn parse_spec(src: Seq<char>) -> ParseResultV {
    let rs = line_ranges(src, 0);
    parse_upto(src, rs, labels_in(src, rs), rs.len() as int)
}

// ---------------------------------------------------------------------------
// Facts needed to validate jumps
// ---------------------------------------------------------------------------

/// Every jump in `is` names a label of `labs`.
pub open spec fn instr_ok(ins: InstrV, labs: Seq<Seq<char>>) -> bool {
    match ins {
        InstrV::Goto(l) => labs.contains(l),
        InstrV::Br(l) => labs.contains(l),
        _ => true,
    }
}

pub open spec fn instrs_ok(is: Seq<InstrV>, labs: Seq<Seq<char>>) -> bool {
    forall|j: int| 0 <= j < is.len() ==> instr_ok(#[trigger] is[j], labs)
}

proof fn lemma_push_fold_ok(line: Seq<char>, line_no: int, rs: Seq<(int, int)>, labs: Seq<Seq<char>>)
    ensures
        instrs_ok(push_fold(line, line_no, rs).instrs, labs),
    decreases rs.len(),
{
    if rs.len() > 0 {
        lemma_push_fold_ok(line, line_no, rs.drop_first(), labs);
    }
}

/// Each parsed line emits only jumps whose labels exist, and a label line
/// emits exactly its `Label` instruction.
proof fn lemma_parse_line_ok(line: Seq<char>, line_no: int, labs: Seq<Seq<char>>)
    ensures
        instrs_ok(parse_line_spec(line, line_no, labs).instrs, labs),
        match label_of(line) {
            Some(n) => parse_line_spec(line, line_no, labs).instrs == seq![InstrV::Label(n)],
            None => true,
        },
{
    let sh = shape_of(line);
    if !sh.blank {
        let rs = val_ranges(line, sh.arg_start, sh.arg_start, false, sh.arg_end);
        lemma_push_fold_ok(line, line_no, rs, labs);
    }
}

proof fn lemma_parse_upto_ok(src: Seq<char>, rs: Seq<(int, int)>, labs: Seq<Seq<char>>, k: int)
    requires
        0 <= k <= rs.len(),
    ensures
        instrs_ok(parse_upto(src, rs, labs, k).instrs, labs),
        parse_upto(src, rs, labs, k).lines.len() == parse_upto(src, rs, labs, k).instrs.len(),
    decreases k,
{
    if k > 0 {
        lemma_parse_upto_ok(src, rs, labs, k - 1);
        let line = src.subrange(rs[k - 1].0, rs[k - 1].1);
        lemma_parse_line_ok(line, k, labs);
    }
}

/// Every label collected by the first pass is defined by a `Label`
/// instruction of the parse.
proof fn lemma_parse_upto_labels(src: Seq<char>, rs: Seq<(int, int)>, labs: Seq<Seq<char>>, k: int)
    requires
        0 <= k <= rs.len(),
    ensures
        forall|n: Seq<char>| labels_in(src, rs.take(k)).contains(n)
            ==> exists|j: int| 0 <= j < parse_upto(src, rs, labs, k).instrs.len()
                && parse_upto(src, rs, labs, k).instrs[j] == InstrV::Label(n),
    decreases k,
{
    if k > 0 {
        lemma_parse_upto_labels(src, rs, labs, k - 1);
        let line = src.subrange(rs[k - 1].0, rs[k - 1].1);
        lemma_parse_line_ok(line, k, labs);
        let prev = parse_upto(src, rs, labs, k - 1);
        let cur = parse_upto(src, rs, labs, k);
        let labk = labels_in(src, rs.take(k));
        assert(rs.take(k).drop_last() =~= rs.take(k - 1));
        assert(rs.take(k).last() == rs[k - 1]);
        assert forall|n: Seq<char>| labk.contains(n)
            implies exists|j: int| 0 <= j < cur.instrs.len()
                && cur.instrs[j] == InstrV::Label(n) by {
            let labp = labels_in(src, rs.take(k - 1));
            if labp.contains(n) {
                let j = choose|j: int| 0 <= j < prev.instrs.len()
                    && prev.instrs[j] == InstrV::Label(n);
                assert(cur.instrs[j] == InstrV::Label(n));
            } else {
                match label_of(line) {
                    Some(m) => {
                        assert(labk =~= labp + seq![m]);
                        assert(n == m) by {
                            let i = choose|i: int| 0 <= i < labk.len() && labk[i] == n;
                            if i < labp.len() {
                                assert(labp[i] == n);
                                assert(labp.contains(n));
                            }
                        }
                        let j = prev.instrs.len() as int;
                        assert(parse_line_spec(line, k, labs).instrs == seq![InstrV::Label(m)]);
                        assert(cur.instrs[j] == InstrV::Label(n));
                    },
                    None => {
                        assert(labk =~= labp);
                        assert(labp.contains(n));
                    },
                }
            }
        }
    } else {
        assert(rs.take(0) =~= Seq::<(int, int)>::empty());
    }
}

// ---------------------------------------------------------------------------
// Executable whole-source parse
// ---------------------------------------------------------------------------

fn split_lines(source: &str) -> (ranges: Vec<(usize, usize)>)
    ensures
        rs_view(ranges@) == line_ranges(source@, 0),
        forall|k: int| 0 <= k < ranges@.len()
            ==> (#[trigger] ranges@[k]).0 <= ranges@[k].1 <= source@.len(),
        ranges@.len() <= source@.len(),
{
    let n = source.unicode_len();
    let mut ranges: Vec<(usize, usize)> = Vec::new();
    let mut i: usize = 0;
    while i < n
        invariant
            i <= n,
            n == source@.len(),
            line_ranges(source@, 0) =~= rs_view(ranges@) + line_ranges(source@, i as int),
            forall|k: int| 0 <= k < ranges@.len()
                ==> (#[trigger] ranges@[k]).0 <= ranges@[k].1 <= source@.len(),
        decreases n - i,
    {
        let nl = find_char_in(source, i, '\n');
        proof {
            lemma_find_char_from(source@, i as int, '\n');
        }
        let e = if nl < n && nl > i && source.get_char(nl - 1) == '\r' {
            nl - 1
        } else {
            nl
        };
        ranges.push((i, e));
        proof {
            assert(rs_view(ranges@) =~= rs_view(ranges@.drop_last()) + seq![(i as int, e as int)]);
        }
        if nl >= n {
            i = n;
        } else {
            i = nl + 1;
        }
    }
    proof {
        assert(line_ranges(source@, n as int) =~= Seq::<(int, int)>::empty());
        assert(rs_view(ranges@) =~= line_ranges(source@, 0));
        lemma_line_ranges_valid(source@, 0);
        assert(ranges@.len() == rs_view(ranges@).len());
    }
    ranges
}

fn label_of_line(line: &str) -> (r: Option<String>)
    ensures
        match r {
            Some(n) => label_of(line@) == Some(n@),
            None => label_of(line@) is None,
        },
{
    let sh = shape_in(line);
    if sh.blank {
        return None;
    }
    let cmd = line.substring_char(sh.cmd_start, sh.cmd_end);
    let cn = cmd.unicode_len();
    if cn > 0 && cmd.get_char(cn - 1) == ':' {
        let e = strip_colons_in(cmd);
        let name = cmd.substring_char(0, e);
        Some(String::from_str(name))
    } else {
        None
    }
}

fn collect_labels(source: &str, ranges: &Vec<(usize, usize)>) -> (labs: Vec<String>)
    requires
        forall|k: int| 0 <= k < ranges@.len()
            ==> (#[trigger] ranges@[k]).0 <= ranges@[k].1 <= source@.len(),
    ensures
        labs.deep_view() == labels_in(source@, rs_view(ranges@)),
{
    let n = ranges.len();
    let mut labs: Vec<String> = Vec::new();
    let mut k: usize = 0;
    proof {
        assert(rs_view(ranges@).take(0) =~= Seq::<(int, int)>::empty());
        assert(labs.deep_view() =~= labels_in(source@, rs_view(ranges@).take(0)));
    }
    while k < n
        invariant
            k <= n,
            n == ranges@.len(),
            forall|j: int| 0 <= j < ranges@.len()
                ==> (#[trigger] ranges@[j]).0 <= ranges@[j].1 <= source@.len(),
            labs.deep_view() == labels_in(source@, rs_view(ranges@).take(k as int)),
        decreases n - k,
    {
        let (a, b) = (ranges[k].0, ranges[k].1);
        proof {
            assert(ranges@[k as int].0 <= ranges@[k as int].1 <= source@.len());
        }
        let line = source.substring_char(a, b);
        let ghost pre = labs.deep_view();
        let ghost tk = rs_view(ranges@).take(k as int + 1);
        proof {
            assert(tk.drop_last() =~= rs_view(ranges@).take(k as int));
            assert(tk.last() == (a as int, b as int));
        }
        match label_of_line(line) {
            Some(nm) => {
                labs.push(nm);
                proof {
                    assert(labs.deep_view() =~= pre + seq![labs.deep_view().last()]);
                }
            },
            None => {
                proof {
                    assert(labels_in(source@, tk) == pre);
                }
            },
        }
        k = k + 1;
    }
    proof {
        assert(rs_view(ranges@).take(n as int) =~= rs_view(ranges@));
    }
    labs
}

impl Program {
    /// Parses a whole source text. Returns the validated program when the
    /// text has no defect, and otherwise every diagnostic, ordered by source
    /// position; a program is never returned alongside diagnostics.
    #[verifier::rlimit(100)]
    pub fn from_source(source: &str) -> (r: Result<Program, Vec<ParseError>>)
        requires
            source@.len() < usize::MAX,
        ensures
            match r {
                Ok(p) => {
                    &&& parse_spec(source@).diags.len() == 0
                    &&& p@.instrs == parse_spec(source@).instrs
                    &&& p@.lines == parse_spec(source@).lines
                    &&& p@.labels == labels_of(parse_spec(source@).instrs)
                    &&& p@.wf()
                },
                Err(ds) => {
                    &&& parse_spec(source@).diags.len() > 0
                    &&& ds.deep_view() == parse_spec(source@).diags
                },
            },
    {
        let ranges = split_lines(source);
        let labs = collect_labels(source, &ranges);
        let ghost rsv = rs_view(ranges@);
        let ghost labsv = labs.deep_view();
        let n = ranges.len();
        let mut instrs: Vec<Instr> = Vec::new();
        let mut lines: Vec<usize> = Vec::new();
        let mut diags: Vec<ParseError> = Vec::new();
        let mut k: usize = 0;
        proof {
            assert(instrs.deep_view() =~= parse_upto(source@, rsv, labsv, 0).instrs);
            assert(lines@.map_values(|x: usize| x as int) =~= parse_upto(source@, rsv, labsv, 0).lines);
            assert(diags.deep_view() =~= parse_upto(source@, rsv, labsv, 0).diags);
        }
        while k < n
            invariant
                k <= n,
                n == ranges@.len(),
                n <= source@.len(),
                source@.len() < usize::MAX,
                rsv == rs_view(ranges@),
                labsv == labs.deep_view(),
                forall|j: int| 0 <= j < ranges@.len()
                    ==> (#[trigger] ranges@[j]).0 <= ranges@[j].1 <= source@.len(),
                instrs.deep_view() == parse_upto(source@, rsv, labsv, k as int).instrs,
                lines@.map_values(|x: usize| x as int) == parse_upto(source@, rsv, labsv, k as int).lines,
                diags.deep_view() == parse_upto(source@, rsv, labsv, k as int).diags,
            decreases n - k,
        {
            let (a, b) = (ranges[k].0, ranges[k].1);
            proof {
                assert(ranges@[k as int].0 <= ranges@[k as int].1 <= source@.len());
                assert(rsv[k as int] == (a as int, b as int));
            }
            let line = source.substring_char(a, b);
            let (mut li, mut ld) = parse_line(line, k + 1, &labs);
            let ghost pre_i = instrs.deep_view();
            let ghost pre_l = lines@.map_values(|x: usize| x as int);
            let ghost pre_d = diags.deep_view();
            let ghost ov = parse_line_spec(line@, k as int + 1, labsv);
            let cnt = li.len();
            instrs.append(&mut li);
            proof {
                assert(instrs.deep_view() =~= pre_i + ov.instrs);
            }
            let mut c: usize = 0;
            while c < cnt
                invariant
                    c <= cnt,
                    k < n <= source@.len() < usize::MAX,
                    lines@.map_values(|x: usize| x as int)
                        == pre_l + Seq::new(c as nat, |x: int| k as int + 1),
                decreases cnt - c,
            {
                let ghost pl = lines@.map_values(|x: usize| x as int);
                lines.push(k + 1);
                proof {
                    assert(lines@.map_values(|x: usize| x as int) =~= pl.push(k as int + 1));
                    assert(pre_l + Seq::new(c as nat + 1, |x: int| k as int + 1)
                        =~= (pre_l + Seq::new(c as nat, |x: int| k as int + 1)).push(k as int + 1));
                }
                c = c + 1;
            }
            diags.append(&mut ld);
            proof {
                assert(diags.deep_view() =~= pre_d + ov.diags);
                assert(Seq::new(ov.instrs.len(), |x: int| k as int + 1)
                    =~= Seq::new(cnt as nat, |x: int| k as int + 1));
                assert(source@.subrange(rsv[k as int].0, rsv[k as int].1) == line@);
            }
            k = k + 1;
        }
        proof {
            assert(parse_upto(source@, rsv, labsv, n as int) == parse_spec(source@));
        }
        if diags.len() > 0 {
            return Err(diags);
        }
        // No defects: resolve the label table and validate every jump.
        let ghost allv = parse_spec(source@).instrs;
        let m = instrs.len();
        let mut ltab: Vec<(String, usize)> = Vec::new();
        let mut i: usize = 0;
        proof {
            assert(labels_map(ltab@) =~= labels_of(instrs.deep_view().take(0)));
        }
        while i < m
            invariant
                i <= m,
                m == instrs@.len(),
                instrs.deep_view() == allv,
                labels_map(ltab@) == labels_of(instrs.deep_view().take(i as int)),
            decreases m - i,
        {
            let ghost pre = ltab@;
            let ghost tk = instrs.deep_view().take(i as int + 1);
            proof {
                assert(tk.drop_last() =~= instrs.deep_view().take(i as int));
                assert(tk.last() == instrs.deep_view()[i as int]);
            }
            match &instrs[i] {
                Instr::Label(nm) => {
                    ltab.push((nm.clone(), i));
                    proof {
                        assert(ltab@.drop_last() =~= pre);
                        assert(labels_map(ltab@) =~= labels_of(tk));
                    }
                },
                _ => {},
            }
            i = i + 1;
        }
        proof {
            assert(instrs.deep_view().take(m as int) =~= instrs.deep_view());
        }
        let p = Program { instrs: instrs, lines: lines, labels: ltab };
        proof {
            let rs_full = line_ranges(source@, 0);
            lemma_parse_upto_ok(source@, rs_full, labsv, rs_full.len() as int);
            lemma_parse_upto_labels(source@, rs_full, labsv, rs_full.len() as int);
            assert(rs_full.take(rs_full.len() as int) =~= rs_full);
            lemma_labels_of_range(allv);
            assert forall|q: int| 0 <= q < p@.instrs.len()
                implies crate::program::jump_ok(#[trigger] p@.instrs[q], p@.labels, p@.instrs.len() as int) by {
                match p@.instrs[q] {
                    InstrV::Goto(l) => {
                        assert(instr_ok(allv[q], labsv));
                        let j = choose|j: int| 0 <= j < allv.len() && allv[j] == InstrV::Label(l);
                        lemma_labels_of_contains(allv, j, l);
                    },
                    InstrV::Br(l) => {
                        assert(instr_ok(allv[q], labsv));
                        let j = choose|j: int| 0 <= j < allv.len() && allv[j] == InstrV::Label(l);
                        lemma_labels_of_contains(allv, j, l);
                    },
                    _ => {},
                }
            }
        }
        Ok(p)
    }
}

} // verus!

verus! {

// ---------------------------------------------------------------------------
// Ordering of diagnostics
// ---------------------------------------------------------------------------

proof fn lemma_push_fold_diag_lines(line: Seq<char>, line_no: int, rs: Seq<(int, int)>)
    ensures
        forall|j: int| 0 <= j < push_fold(line, line_no, rs).diags.len()
            ==> (#[trigger] push_fold(line, line_no, rs).diags[j]).line == line_no,
    decreases rs.len(),
{
    if rs.len() > 0 {
        lemma_push_fold_diag_lines(line, line_no, rs.drop_first());
    }
}

/// Every diagnostic a line yields carries that line's number.
proof fn lemma_parse_line_diag_lines(line: Seq<char>, line_no: int, labs: Seq<Seq<char>>)
    ensures
        forall|j: int| 0 <= j < parse_line_spec(line, line_no, labs).diags.len()
            ==> (#[trigger] parse_line_spec(line, line_no, labs).diags[j]).line == line_no,
{
    let sh = shape_of(line);
    if !sh.blank {
        let rs = val_ranges(line, sh.arg_start, sh.arg_start, false, sh.arg_end);
        lemma_push_fold_diag_lines(line, line_no, rs);
    }
}

proof fn lemma_parse_upto_diags_ordered(src: Seq<char>, rs: Seq<(int, int)>, labs: Seq<Seq<char>>, k: int)
    requires
        0 <= k <= rs.len(),
    ensures
        forall|j: int| 0 <= j < parse_upto(src, rs, labs, k).diags.len()
            ==> 1 <= (#[trigger] parse_upto(src, rs, labs, k).diags[j]).line <= k,
        forall|i: int, j: int|
            0 <= i <= j < parse_upto(src, rs, labs, k).diags.len()
                ==> (#[trigger] parse_upto(src, rs, labs, k).diags[i]).line
                    <= (#[trigger] parse_upto(src, rs, labs, k).diags[j]).line,
    decreases k,
{
    if k > 0 {
        lemma_parse_upto_diags_ordered(src, rs, labs, k - 1);
        let line = src.subrange(rs[k - 1].0, rs[k - 1].1);
        lemma_parse_line_diag_lines(line, k, labs);
    }
}

/// Parse diagnostics come out ordered by source position: a defect on an
/// earlier line is reported before one on a later line, and every reported
/// line number is a real line of the source.
pub proof fn lemma_parse_diags_ordered(src: Seq<char>)
    ensures
        forall|j: int| 0 <= j < parse_spec(src).diags.len()
            ==> 1 <= (#[trigger] parse_spec(src).diags[j]).line <= line_ranges(src, 0).len(),
        forall|i: int, j: int|
            0 <= i <= j < parse_spec(src).diags.len()
                ==> (#[trigger] parse_spec(src).diags[i]).line
                    <= (#[trigger] parse_spec(src).diags[j]).line,
{
    let rs = line_ranges(src, 0);
    lemma_parse_upto_diags_ordered(src, rs, labels_in(src, rs), rs.len() as int);
}

} // verus!

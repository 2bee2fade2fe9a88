//! Character-level scanning helpers shared by the parser and the renderers:
//! whitespace handling, radix-aware integer literal parsing, and decimal
//! rendering of integers.

use vstd::prelude::*;
use vstd::string::StrSliceExecFns;
use vstd::string::StringExecFns;

verus! {

/// Whitespace recognised by the scanner: space, tab, carriage return.
pub open spec fn is_space_char(c: char) -> bool {
    c == ' ' || c == '\t' || c == '\r'
}

pub fn is_space(c: char) -> (r: bool)
    ensures
        r == is_space_char(c),
{
    c == ' ' || c == '\t' || c == '\r'
}

/// Index of the first occurrence of `c` in `s[i..]`, or `s.len()` if absent.
pub open spec fn find_char_from(s: Seq<char>, i: int, c: char) -> int
    decreases s.len() - i,
    when 0 <= i <= s.len()
{
    if i >= s.len() {
        s.len() as int
    } else if s[i] == c {
        i
    } else {
        find_char_from(s, i + 1, c)
    }
}

pub proof fn lemma_find_char_from(s: Seq<char>, i: int, c: char)
    requires
        0 <= i <= s.len(),
    ensures
        i <= find_char_from(s, i, c) <= s.len(),
        find_char_from(s, i, c) < s.len() ==> s[find_char_from(s, i, c)] == c,
        forall|j: int| i <= j < find_char_from(s, i, c) ==> s[j] != c,
    decreases s.len() - i,
{
    if i < s.len() && s[i] != c {
        lemma_find_char_from(s, i + 1, c);
    }
}

/// First index in `s[i..end)` holding a non-whitespace character, or `end`.
pub open spec fn skip_spaces(s: Seq<char>, i: int, end: int) -> int
    decreases end - i,
    when 0 <= i && i <= end && end <= s.len()
{
    if i >= end {
        end
    } else if is_space_char(s[i]) {
        skip_spaces(s, i + 1, end)
    } else {
        i
    }
}

pub proof fn lemma_skip_spaces(s: Seq<char>, i: int, end: int)
    requires
        0 <= i <= end <= s.len(),
    ensures
        i <= skip_spaces(s, i, end) <= end,
        skip_spaces(s, i, end) < end ==> !is_space_char(s[skip_spaces(s, i, end)]),
    decreases end - i,
{
    if i < end && is_space_char(s[i]) {
        lemma_skip_spaces(s, i + 1, end);
    }
}

/// New right end of `s[i..end)` once trailing whitespace is dropped.
pub open spec fn trim_end(s: Seq<char>, i: int, end: int) -> int
    decreases end - i,
    when 0 <= i && i <= end && end <= s.len()
{
    if end <= i {
        end
    } else if is_space_char(s[end - 1]) {
        trim_end(s, i, end - 1)
    } else {
        end
    }
}

pub proof fn lemma_trim_end(s: Seq<char>, i: int, end: int)
    requires
        0 <= i <= end <= s.len(),
    ensures
        i <= trim_end(s, i, end) <= end,
        trim_end(s, i, end) > i ==> !is_space_char(s[trim_end(s, i, end) - 1]),
        i < end && !is_space_char(s[i]) ==> trim_end(s, i, end) > i,
    decreases end - i,
{
    if end > i && is_space_char(s[end - 1]) {
        lemma_trim_end(s, i, end - 1);
    }
}

pub fn find_char_in(s: &str, i: usize, c: char) -> (r: usize)
    requires
        i <= s@.len(),
    ensures
        r == find_char_from(s@, i as int, c),
{
    let n = s.unicode_len();
    let mut j = i;
    while j < n
        invariant
            i <= j <= n,
            n == s@.len(),
            find_char_from(s@, i as int, c) == find_char_from(s@, j as int, c),
        decreases n - j,
    {
        if s.get_char(j) == c {
            return j;
        }
        j = j + 1;
    }
    j
}

pub fn skip_spaces_in(s: &str, i: usize, end: usize) -> (r: usize)
    requires
        i <= end <= s@.len(),
    ensures
        r == skip_spaces(s@, i as int, end as int),
{
    let mut j = i;
    while j < end
        invariant
            i <= j <= end <= s@.len(),
            skip_spaces(s@, i as int, end as int) == skip_spaces(s@, j as int, end as int),
        decreases end - j,
    {
        if !is_space(s.get_char(j)) {
            return j;
        }
        j = j + 1;
    }
    j
}

pub fn trim_end_in(s: &str, i: usize, end: usize) -> (r: usize)
    requires
        i <= end <= s@.len(),
    ensures
        r == trim_end(s@, i as int, end as int),
{
    let mut j = end;
    while j > i
        invariant
            i <= j <= end <= s@.len(),
            trim_end(s@, i as int, end as int) == trim_end(s@, i as int, j as int),
        decreases j,
    {
        if !is_space(s.get_char(j - 1)) {
            return j;
        }
        j = j - 1;
    }
    j
}

/// Equality of two string slices, decided character by character.
pub fn str_eq(a: &str, b: &str) -> (r: bool)
    ensures
        r == (a@ == b@),
{
    let na = a.unicode_len();
    let nb = b.unicode_len();
    if na != nb {
        proof {
            assert(a@ != b@) by {
                assert(a@.len() != b@.len());
            }
        }
        return false;
    }
    let mut i: usize = 0;
    while i < na
        invariant
            i <= na,
            na == a@.len(),
            na == b@.len(),
            forall|j: int| 0 <= j < i ==> a@[j] == b@[j],
        decreases na - i,
    {
        if a.get_char(i) != b.get_char(i) {
            return false;
        }
        i = i + 1;
    }
    proof {
        assert(a@ =~= b@);
    }
    true
}

/// Value of `c` as a digit under `radix`, or -1 if it is not one.
/// Letter digits are accepted in either case, as `i64::from_str_radix` does.
pub open spec fn digit_value(c: char, radix: int) -> int {
    let v = if '0' <= c && c <= '9' {
        c as int - '0' as int
    } else if 'a' <= c && c <= 'z' {
        10 + c as int - 'a' as int
    } else if 'A' <= c && c <= 'Z' {
        10 + c as int - 'A' as int
    } else {
        -1
    };
    if 0 <= v && v < radix {
        v
    } else {
        -1
    }
}

/// Digit value of `c` under `radix`, or `None` if `c` is no digit.
pub fn digit_of(c: char, radix: u64) -> (r: Option<u64>)
    requires
        2 <= radix <= 36,
    ensures
        match r {
            Some(d) => digit_value(c, radix as int) == d as int && d < radix,
            None => digit_value(c, radix as int) == -1,
        },
{
    let cu = c as u32;
    let v: u64 = if cu >= ('0' as u32) && cu <= ('9' as u32) {
        (cu - ('0' as u32)) as u64
    } else if cu >= ('a' as u32) && cu <= ('z' as u32) {
        10 + (cu - ('a' as u32)) as u64
    } else if cu >= ('A' as u32) && cu <= ('Z' as u32) {
        10 + (cu - ('A' as u32)) as u64
    } else {
        return None;
    };
    if v < radix {
        Some(v)
    } else {
        None
    }
}

/// Every character of `s` is a digit under `radix`.
pub open spec fn digits_ok(s: Seq<char>, radix: int) -> bool {
    forall|i: int| 0 <= i < s.len() ==> digit_value(s[i], radix) >= 0
}

/// Numeric value of a digit string, most significant digit first.
pub open spec fn digits_val(s: Seq<char>, radix: int) -> int
    decreases s.len(),
{
    if s.len() == 0 {
        0
    } else {
        digits_val(s.drop_last(), radix) * radix + digit_value(s.last(), radix)
    }
}

pub proof fn lemma_digits_val_nonneg(s: Seq<char>, radix: int)
    requires
        radix >= 2,
        digits_ok(s, radix),
    ensures
        digits_val(s, radix) >= 0,
    decreases s.len(),
{
    if s.len() > 0 {
        assert(digits_ok(s.drop_last(), radix));
        lemma_digits_val_nonneg(s.drop_last(), radix);
    }
}

/// The value of a digit string is no less than the value of any prefix.
pub proof fn lemma_digits_val_prefix(s: Seq<char>, i: int, radix: int)
    requires
        radix >= 2,
        digits_ok(s, radix),
        0 <= i <= s.len(),
    ensures
        digits_val(s, radix) >= digits_val(s.take(i), radix),
    decreases s.len() - i,
{
    if i < s.len() {
        lemma_digits_val_prefix(s, i + 1, radix);
        let t = s.take(i + 1);
        assert(t.drop_last() =~= s.take(i));
        assert(t.last() == s[i]);
        assert(digits_ok(s.take(i), radix));
        lemma_digits_val_nonneg(s.take(i), radix);
        assert(digits_val(t, radix) == digits_val(s.take(i), radix) * radix + digit_value(s[i], radix));
        assert(digits_val(s.take(i), radix) * radix >= digits_val(s.take(i), radix)) by (nonlinear_arith)
            requires digits_val(s.take(i), radix) >= 0 && radix >= 2;
    } else {
        assert(s.take(i) =~= s);
    }
}

/// Meaning of an optionally signed digit string under `radix`, as
/// `i64::from_str_radix` defines it: an optional `+` or `-`, then at least
/// one digit, rejecting values outside the `i64` range.
pub open spec fn parse_radix_spec(s: Seq<char>, radix: int) -> Option<i64> {
    let neg = s.len() > 0 && s[0] == '-';
    let body = if s.len() > 0 && (s[0] == '-' || s[0] == '+') {
        s.subrange(1, s.len() as int)
    } else {
        s
    };
    if body.len() == 0 || !digits_ok(body, radix) {
        None
    } else {
        let m = digits_val(body, radix);
        if neg {
            if m <= 0x8000_0000_0000_0000 {
                Some((-m) as i64)
            } else {
                None
            }
        } else {
            if m <= 0x7fff_ffff_ffff_ffff {
                Some(m as i64)
            } else {
                None
            }
        }
    }
}

/// Meaning of an integer literal: `0x`/`0X` hexadecimal, `0b`/`0B` binary,
/// decimal otherwise.
pub open spec fn parse_int_spec(s: Seq<char>) -> Option<i64> {
    if s.len() >= 2 && s[0] == '0' && (s[1] == 'x' || s[1] == 'X') {
        parse_radix_spec(s.subrange(2, s.len() as int), 16)
    } else if s.len() >= 2 && s[0] == '0' && (s[1] == 'b' || s[1] == 'B') {
        parse_radix_spec(s.subrange(2, s.len() as int), 2)
    } else {
        parse_radix_spec(s, 10)
    }
}

/// Magnitude of the digits of `s[from..]`, capped by overflow detection.
fn digits_to_u64(s: &str, from: usize, radix: u64) -> (r: Option<u64>)
    requires
        2 <= radix <= 36,
        from <= s@.len(),
    ensures
        ({
            let body = s@.subrange(from as int, s@.len() as int);
            match r {
                Some(m) => digits_ok(body, radix as int) && body.len() > 0
                    && digits_val(body, radix as int) == m as int,
                None => body.len() == 0 || !digits_ok(body, radix as int)
                    || digits_val(body, radix as int) > u64::MAX,
            }
        }),
{
    let ghost body = s@.subrange(from as int, s@.len() as int);
    let n = s.unicode_len();
    if from == n {
        return None;
    }
    let mut acc: u64 = 0;
    let mut i = from;
    while i < n
        invariant
            from <= i <= n,
            n == s@.len(),
            2 <= radix <= 36,
            body == s@.subrange(from as int, s@.len() as int),
            digits_ok(body.take(i - from), radix as int),
            acc as int == digits_val(body.take(i - from), radix as int),
        decreases n - i,
    {
        let c = s.get_char(i);
        proof {
            assert(body[i - from] == s@[i as int]);
        }
        let d = match digit_of(c, radix) {
            Some(d) => d,
            None => {
                proof {
                    assert(!digits_ok(body, radix as int)) by {
                        assert(digit_value(body[i - from], radix as int) == -1);
                    }
                }
                return None;
            },
        };
        let next = match acc.checked_mul(radix) {
            Some(m) => m.checked_add(d),
            None => None,
        };
        proof {
            let pre = body.take(i - from);
            let ext = body.take(i - from + 1);
            assert(ext.drop_last() =~= pre);
            assert(ext.last() == body[i - from]);
            assert(digits_val(ext, radix as int) == acc as int * radix as int + d as int);
        }
        match next {
            Some(v) => {
                acc = v;
            },
            None => {
                proof {
                    let ext = body.take(i - from + 1);
                    assert(digits_val(ext, radix as int) > u64::MAX) by (nonlinear_arith)
                        requires
                            digits_val(ext, radix as int) == acc as int * radix as int + d as int,
                            acc as int * radix as int + d as int > u64::MAX;
                    if digits_ok(body, radix as int) {
                        lemma_digits_val_prefix(body, i - from + 1, radix as int);
                    }
                }
                return None;
            },
        }
        i = i + 1;
    }
    proof {
        assert(body.take(n - from) =~= body);
    }
    Some(acc)
}

/// Optionally signed digit string to `i64`, under `radix`.
fn parse_radix(s: &str, from: usize, radix: u64) -> (r: Option<i64>)
    requires
        2 <= radix <= 36,
        from <= s@.len(),
    ensures
        r == parse_radix_spec(s@.subrange(from as int, s@.len() as int), radix as int),
{
    let ghost whole = s@.subrange(from as int, s@.len() as int);
    let n = s.unicode_len();
    let mut neg = false;
    let mut start = from;
    if from < n {
        let c = s.get_char(from);
        if c == '-' {
            neg = true;
            start = from + 1;
        } else if c == '+' {
            start = from + 1;
        }
    }
    proof {
        if start > from {
            assert(s@.subrange(start as int, s@.len() as int) =~= whole.subrange(1, whole.len() as int));
        } else {
            assert(s@.subrange(start as int, s@.len() as int) =~= whole);
        }
    }
    let m = match digits_to_u64(s, start, radix) {
        Some(m) => m,
        None => {
            return None;
        },
    };
    proof {
        vstd::arithmetic::power2::lemma2_to64();
    }
    if neg {
        if m <= 0x8000_0000_0000_0000u64 {
            if m == 0x8000_0000_0000_0000u64 {
                Some(i64::MIN)
            } else {
                Some(-(m as i64))
            }
        } else {
            None
        }
    } else {
        if m <= 0x7fff_ffff_ffff_ffffu64 {
            Some(m as i64)
        } else {
            None
        }
    }
}

/// Integer literal of the scripting language: decimal, `0x` hex or `0b` binary.
pub fn parse_int(s: &str) -> (r: Option<i64>)
    ensures
        r == parse_int_spec(s@),
{
    let n = s.unicode_len();
    if n >= 2 && s.get_char(0) == '0' {
        let c1 = s.get_char(1);
        if c1 == 'x' || c1 == 'X' {
            return parse_radix(s, 2, 16);
        }
        if c1 == 'b' || c1 == 'B' {
            return parse_radix(s, 2, 2);
        }
    }
    proof {
        assert(s@.subrange(0, s@.len() as int) =~= s@);
    }
    parse_radix(s, 0, 10)
}

/// Meaning of an unsigned decimal `usize` literal, as `str::parse` defines it
/// (an optional `+`, then decimal digits).
pub open spec fn parse_usize_spec(s: Seq<char>) -> Option<usize> {
    let body = if s.len() > 0 && s[0] == '+' {
        s.subrange(1, s.len() as int)
    } else {
        s
    };
    if body.len() == 0 || !digits_ok(body, 10) {
        None
    } else {
        let m = digits_val(body, 10);
        if m <= usize::MAX {
            Some(m as usize)
        } else {
            None
        }
    }
}

/// Unsigned decimal literal to `usize`.
pub fn parse_usize(s: &str) -> (r: Option<usize>)
    ensures
        r == parse_usize_spec(s@),
{
    let n = s.unicode_len();
    let mut start: usize = 0;
    if n > 0 && s.get_char(0) == '+' {
        start = 1;
    }
    proof {
        assert(s@.subrange(0, s@.len() as int) =~= s@);
    }
    let m = match digits_to_u64(s, start, 10) {
        Some(m) => m,
        None => {
            proof {
                let body = s@.subrange(start as int, s@.len() as int);
                if body.len() > 0 && digits_ok(body, 10) {
                    assert(digits_val(body, 10) > u64::MAX >= usize::MAX);
                }
            }
            return None;
        },
    };
    if m <= usize::MAX as u64 {
        Some(m as usize)
    } else {
        None
    }
}

/// The decimal digit character for `d`.
pub open spec fn digit_char(d: int) -> char {
    if d == 0 { '0' }
    else if d == 1 { '1' }
    else if d == 2 { '2' }
    else if d == 3 { '3' }
    else if d == 4 { '4' }
    else if d == 5 { '5' }
    else if d == 6 { '6' }
    else if d == 7 { '7' }
    else if d == 8 { '8' }
    else { '9' }
}

/// Decimal rendering of a non-negative integer, no sign, no leading zeros.
pub open spec fn dec_digits(n: int) -> Seq<char>
    decreases n,
    when n >= 0
{
    if n < 10 {
        seq![digit_char(n)]
    } else {
        dec_digits(n / 10) + seq![digit_char(n % 10)]
    }
}

/// Decimal rendering of an integer, `-` prefix when negative.
pub open spec fn int_str(i: int) -> Seq<char> {
    if i < 0 {
        seq!['-'] + dec_digits(-i)
    } else {
        dec_digits(i)
    }
}

fn digit_str(d: u64) -> (r: &'static str)
    requires
        d < 10,
    ensures
        r@ =~= seq![digit_char(d as int)],
{
    proof {
        reveal_strlit("0");
        reveal_strlit("1");
        reveal_strlit("2");
        reveal_strlit("3");
        reveal_strlit("4");
        reveal_strlit("5");
        reveal_strlit("6");
        reveal_strlit("7");
        reveal_strlit("8");
        reveal_strlit("9");
    }
    match d {
        0 => "0",
        1 => "1",
        2 => "2",
        3 => "3",
        4 => "4",
        5 => "5",
        6 => "6",
        7 => "7",
        8 => "8",
        _ => "9",
    }
}

/// Appends the decimal rendering of `n` to `out`.
pub fn push_u64_dec(n: u64, out: &mut String)
    ensures
        final(out)@ == old(out)@ + dec_digits(n as int),
    decreases n,
{
    if n >= 10 {
        push_u64_dec(n / 10, out);
        let d = digit_str(n % 10);
        out.append(d);
        proof {
            assert(out@ =~= old(out)@ + dec_digits(n as int));
        }
    } else {
        let d = digit_str(n);
        out.append(d);
        proof {
            assert(out@ =~= old(out)@ + dec_digits(n as int));
        }
    }
}

/// Appends the decimal rendering of `n` to `out`.
pub fn push_usize_dec(n: usize, out: &mut String)
    ensures
        final(out)@ == old(out)@ + dec_digits(n as int),
{
    push_u64_dec(n as u64, out);
}

/// Appends the decimal rendering of `i` to `out`, `-` prefix when negative.
pub fn push_i64_dec(i: i64, out: &mut String)
    ensures
        final(out)@ == old(out)@ + int_str(i as int),
{
    if i < 0 {
        proof {
            reveal_strlit("-");
        }
        out.append("-");
        let m: u64 = ((-(i + 1)) as u64) + 1;
        proof {
            assert(m as int == -(i as int));
        }
        push_u64_dec(m, out);
        proof {
            assert(out@ =~= old(out)@ + int_str(i as int));
        }
    } else {
        push_u64_dec(i as u64, out);
    }
}

} // verus!

use vstd::prelude::*;
use crate::values::{Value, ValueV, VarName};
use crate::ast::{SExpr, SExprV, SBinOp, NumericalBinOp, BoolBinOp, StrBinOp, CompBinOp, LOLASpecification, exprs_view, annotations_view};
use crate::values::{StreamType, names_view};

verus! {

// ---------------------------------------------------------------------------
// The grammar, as functions from (text, position) to what is read there.
// A result `Some((x, q))` means that `x` was read and reading stopped at `q`.
// ---------------------------------------------------------------------------

/// Spaces and tabs.
pub open spec fn is_space(c: char) -> bool {
    c == ' ' || c == '\t'
}

/// Spaces, tabs, carriage returns and line feeds.
pub open spec fn is_multispace(c: char) -> bool {
    c == ' ' || c == '\t' || c == '\r' || c == '\n'
}

/// ASCII letters and digits.
pub open spec fn is_alnum(c: char) -> bool {
    ('a' <= c && c <= 'z') || ('A' <= c && c <= 'Z') || ('0' <= c && c <= '9')
}

pub open spec fn is_digit(c: char) -> bool {
    '0' <= c && c <= '9'
}

/// The position after the spaces and tabs at `p`.
pub open spec fn ws_end(s: Seq<char>, p: int) -> int
    decreases s.len() - p,
{
    if 0 <= p < s.len() && is_space(s[p]) {
        ws_end(s, p + 1)
    } else {
        p
    }
}

/// The position of the first line feed at or after `p`.
pub open spec fn next_newline(s: Seq<char>, p: int) -> Option<int>
    decreases s.len() - p,
{
    if p < 0 || p >= s.len() {
        None
    } else if s[p] == '\n' {
        Some(p)
    } else {
        next_newline(s, p + 1)
    }
}

/// Whether the text at `p` starts with `l`.
pub open spec fn lit_at(s: Seq<char>, p: int, l: Seq<char>) -> bool {
    0 <= p && p + l.len() <= s.len() && s.subrange(p, p + l.len()) == l
}

/// The position after the whitespace, line breaks and `//` comments at `p`.
/// A comment runs up to and including the next line feed; with no line feed
/// after it, only its `//` is passed over.
pub open spec fn skip_end(s: Seq<char>, p: int) -> int
    decreases s.len() - p,
{
    if 0 <= p < s.len() && is_multispace(s[p]) {
        skip_end(s, p + 1)
    } else if 0 <= p && p + 1 < s.len() && s[p] == '/' && s[p + 1] == '/' {
        match next_newline(s, p + 2) {
            Some(n) => if p + 2 <= n < s.len() {
                skip_end(s, n + 1)
            } else {
                p
            },
            None => skip_end(s, p + 2),
        }
    } else {
        p
    }
}

/// The end of the run of ASCII letters and digits at `p`.
pub open spec fn alnum_end(s: Seq<char>, p: int) -> int
    decreases s.len() - p,
{
    if 0 <= p < s.len() && is_alnum(s[p]) {
        alnum_end(s, p + 1)
    } else {
        p
    }
}

/// The end of the run of decimal digits at `p`.
pub open spec fn digits_end(s: Seq<char>, p: int) -> int
    decreases s.len() - p,
{
    if 0 <= p < s.len() && is_digit(s[p]) {
        digits_end(s, p + 1)
    } else {
        p
    }
}

/// The number written by the digits `s[a..b]`.
pub open spec fn digits_value(s: Seq<char>, a: int, b: int) -> int
    decreases b - a,
{
    if b <= a {
        0
    } else {
        digits_value(s, a, b - 1) * 10 + ((s[b - 1] as int) - ('0' as int))
    }
}

/// A decimal integer at `p`: an optional sign and a digit string that does
/// not start with `0`, or a lone `0`. The value is not bounded here.
pub open spec fn int_lit(s: Seq<char>, p: int) -> Option<(int, int)> {
    let signed = 0 <= p < s.len() && (s[p] == '+' || s[p] == '-');
    let q = if signed {
        p + 1
    } else {
        p
    };
    if 0 <= q < s.len() && '1' <= s[q] && s[q] <= '9' {
        let e = digits_end(s, q + 1);
        let v = digits_value(s, q, e);
        Some((if signed && s[p] == '-' {
            -v
        } else {
            v
        }, e))
    } else if 0 <= p < s.len() && s[p] == '0' {
        Some((0, p + 1))
    } else {
        None
    }
}

/// A decimal integer at `p` that fits in an `i64`.
pub open spec fn i64_lit(s: Seq<char>, p: int) -> Option<(i64, int)> {
    match int_lit(s, p) {
        Some((v, e)) => if i64::MIN <= v <= i64::MAX {
            Some((v as i64, e))
        } else {
            None
        },
        None => None,
    }
}

/// A string literal at `p`: the characters between a `"` and the next `"`.
pub open spec fn string_lit(s: Seq<char>, p: int) -> Option<(Seq<char>, int)> {
    if 0 <= p < s.len() && s[p] == '"' {
        match next_quote(s, p + 1) {
            Some(n) => Some((s.subrange(p + 1, n), n + 1)),
            None => None,
        }
    } else {
        None
    }
}

/// The position of the first `"` at or after `p`.
pub open spec fn next_quote(s: Seq<char>, p: int) -> Option<int>
    decreases s.len() - p,
{
    if p < 0 || p >= s.len() {
        None
    } else if s[p] == '"' {
        Some(p)
    } else {
        next_quote(s, p + 1)
    }
}

/// Whether a number read up to `e` goes on as a decimal fraction: a `.`
/// followed by a digit.
pub open spec fn fraction_follows(s: Seq<char>, e: int) -> bool {
    0 <= e && e + 1 < s.len() && s[e] == '.' && is_digit(s[e + 1])
}

/// Whether a number with a decimal fraction starts at `p`.
pub open spec fn fraction_at(s: Seq<char>, p: int) -> bool {
    match i64_lit(s, p) {
        Some((_, e)) => fraction_follows(s, e),
        None => false,
    }
}

/// A value at `p`, with surrounding spaces and tabs: an integer, a string,
/// `true`, `false`, or `List(...)` of values. A number with a decimal
/// fraction (a float) is not a value here.
pub open spec fn val_spec(s: Seq<char>, p: int) -> Option<(ValueV, int)>
    decreases s.len() - p, 2int,
{
    let p1 = ws_end(s, p);
    if p1 < p || p1 > s.len() {
        None
    } else {
        let body: Option<(ValueV, int)> = match i64_lit(s, p1) {
            Some((v, e)) => if fraction_follows(s, e) {
                None
            } else {
                Some((ValueV::Int(v), e))
            },
            None => match string_lit(s, p1) {
                Some((t, e)) => Some((ValueV::Str(t), e)),
                None => if lit_at(s, p1, seq!['t', 'r', 'u', 'e']) {
                    Some((ValueV::Bool(true), p1 + 4))
                } else if lit_at(s, p1, seq!['f', 'a', 'l', 's', 'e']) {
                    Some((ValueV::Bool(false), p1 + 5))
                } else {
                    match value_list_spec(s, p1) {
                        Some((vs, e)) => Some((ValueV::List(vs), e)),
                        None => None,
                    }
                },
            },
        };
        match body {
            Some((v, e)) => Some((v, ws_end(s, e))),
            None => None,
        }
    }
}

/// `List`, spaces, `(`, values separated by commas, `)`.
pub open spec fn value_list_spec(s: Seq<char>, p: int) -> Option<(Seq<ValueV>, int)>
    decreases s.len() - p, 1int,
{
    if !lit_at(s, p, seq!['L', 'i', 's', 't']) {
        None
    } else {
        let q = ws_end(s, p + 4);
        if !(p + 4 <= q < s.len() && s[q] == '(') {
            None
        } else {
            let (vs, r) = match val_spec(s, q + 1) {
                None => (Seq::empty(), q + 1),
                Some((v, q1)) => if q + 1 < q1 <= s.len() {
                    value_items_spec(s, seq![v], q1)
                } else {
                    (Seq::empty(), q + 1)
                },
            };
            if 0 <= r < s.len() && s[r] == ')' {
                Some((vs, r + 1))
            } else {
                None
            }
        }
    }
}

/// The values after the first in a value list: each is preceded by a comma
/// (with spaces around it); reading stops before a comma not followed by a value.
pub open spec fn value_items_spec(s: Seq<char>, acc: Seq<ValueV>, r: int) -> (Seq<ValueV>, int)
    decreases s.len() - r, 0int,
{
    let c = ws_end(s, r);
    if r <= c < s.len() && s[c] == ',' {
        let d = ws_end(s, c + 1);
        if c + 1 <= d <= s.len() {
            match val_spec(s, d) {
                Some((v, q)) => if r < q <= s.len() {
                    value_items_spec(s, acc.push(v), q)
                } else {
                    (acc, r)
                },
                None => (acc, r),
            }
        } else {
            (acc, r)
        }
    } else {
        (acc, r)
    }
}

// ---------------------------------------------------------------------------
// Reading the grammar.
// ---------------------------------------------------------------------------

/// A text together with its characters.
pub struct Source<'a> {
    pub text: &'a str,
    pub chars: Vec<char>,
}

impl<'a> Source<'a> {
    pub open spec fn wf(&self) -> bool {
        self.chars@ == self.text@
    }

    /// The characters of a text.
    pub fn new(text: &'a str) -> (res: Source<'a>)
        ensures
            res.wf(),
            res.text == text,
    {
        let n = text.unicode_len();
        let mut chars: Vec<char> = Vec::new();
        let mut i: usize = 0;
        while i < n
            invariant
                n == text@.len(),
                i <= n,
                chars@ == text@.take(i as int),
            decreases n - i,
        {
            let c = text.get_char(i);
            chars.push(c);
            proof {
                assert(chars@ =~= text@.take(i + 1));
            }
            i = i + 1;
        }
        proof {
            assert(text@.take(n as int) =~= text@);
        }
        Source { text, chars }
    }
}

/// The position after the spaces and tabs at `p`.
pub fn ws(s: &Vec<char>, p: usize) -> (res: usize)
    requires
        p <= s.len(),
    ensures
        res == ws_end(s@, p as int),
        p <= res <= s.len(),
    decreases s.len() - p,
{
    if p < s.len() && (s[p] == ' ' || s[p] == '\t') {
        ws(s, p + 1)
    } else {
        p
    }
}

fn find_newline(s: &Vec<char>, p: usize) -> (res: Option<usize>)
    requires
        p <= s.len(),
    ensures
        match res {
            Some(n) => next_newline(s@, p as int) == Some(n as int) && p <= n < s.len(),
            None => next_newline(s@, p as int) is None,
        },
    decreases s.len() - p,
{
    if p >= s.len() {
        None
    } else if s[p] == '\n' {
        Some(p)
    } else {
        find_newline(s, p + 1)
    }
}

/// The position after the whitespace, line breaks and comments at `p`.
pub fn loop_ms_or_lb_or_lc(s: &Vec<char>, p: usize) -> (res: usize)
    requires
        p <= s.len(),
    ensures
        res == skip_end(s@, p as int),
        p <= res <= s.len(),
    decreases s.len() - p,
{
    if p < s.len() && (s[p] == ' ' || s[p] == '\t' || s[p] == '\r' || s[p] == '\n') {
        loop_ms_or_lb_or_lc(s, p + 1)
    } else if s.len() - p > 1 && s[p] == '/' && s[p + 1] == '/' {
        match find_newline(s, p + 2) {
            Some(n) => loop_ms_or_lb_or_lc(s, n + 1),
            None => loop_ms_or_lb_or_lc(s, p + 2),
        }
    } else {
        p
    }
}

/// Whether the text at `p` starts with `l`.
pub fn lit(s: &Vec<char>, p: usize, l: &str) -> (res: bool)
    requires
        p <= s.len(),
    ensures
        res == lit_at(s@, p as int, l@),
{
    let n = l.unicode_len();
    if n > s.len() - p {
        return false;
    }
    let mut i: usize = 0;
    while i < n
        invariant
            n == l@.len(),
            p + n <= s.len(),
            i <= n,
            s@.subrange(p as int, p + i) == l@.take(i as int),
        decreases n - i,
    {
        let c = l.get_char(i);
        if s[p + i] != c {
            proof {
                assert(s@.subrange(p as int, p + n)[i as int] != l@[i as int]);
            }
            return false;
        }
        proof {
            assert(s@.subrange(p as int, p + i + 1) =~= s@.subrange(p as int, p + i).push(c));
            assert(l@.take(i + 1) =~= l@.take(i as int).push(c));
        }
        i = i + 1;
    }
    proof {
        assert(l@.take(n as int) =~= l@);
    }
    true
}

/// The end of the run of ASCII letters and digits at `p`.
pub fn alnum(s: &Vec<char>, p: usize) -> (res: usize)
    requires
        p <= s.len(),
    ensures
        res == alnum_end(s@, p as int),
        p <= res <= s.len(),
    decreases s.len() - p,
{
    if p < s.len() && (('a' <= s[p] && s[p] <= 'z') || ('A' <= s[p] && s[p] <= 'Z') || ('0' <= s[p]
        && s[p] <= '9')) {
        alnum(s, p + 1)
    } else {
        p
    }
}

fn digits(s: &Vec<char>, p: usize) -> (res: usize)
    requires
        p <= s.len(),
    ensures
        res == digits_end(s@, p as int),
        p <= res <= s.len(),
    decreases s.len() - p,
{
    if p < s.len() && '0' <= s[p] && s[p] <= '9' {
        digits(s, p + 1)
    } else {
        p
    }
}

/// The bound past which a digit string's value is no longer tracked exactly.
pub const DIGITS_CAP: u128 = 0x1_0000_0000_0000_0000;

proof fn lemma_digits_value_nonneg(s: Seq<char>, a: int, b: int)
    requires
        forall|i: int| a <= i < b ==> is_digit(#[trigger] s[i]),
    ensures
        digits_value(s, a, b) >= 0,
    decreases b - a,
{
    if b > a {
        lemma_digits_value_nonneg(s, a, b - 1);
    }
}

proof fn lemma_digits_value_grows(s: Seq<char>, a: int, b: int, c: int)
    requires
        a <= b <= c,
        forall|i: int| a <= i < c ==> is_digit(#[trigger] s[i]),
    ensures
        digits_value(s, a, b) <= digits_value(s, a, c),
    decreases c - b,
{
    if c > b {
        lemma_digits_value_grows(s, a, b, c - 1);
        lemma_digits_value_nonneg(s, a, c - 1);
    }
}

proof fn lemma_digits_end(s: Seq<char>, p: int)
    requires
        0 <= p <= s.len(),
    ensures
        p <= digits_end(s, p) <= s.len(),
        forall|i: int| p <= i < digits_end(s, p) ==> is_digit(#[trigger] s[i]),
    decreases s.len() - p,
{
    if 0 <= p < s.len() && is_digit(s[p]) {
        lemma_digits_end(s, p + 1);
    }
}

/// The value of the digits `s[a..b]`, or `None` when it exceeds `DIGITS_CAP`.
fn digits_val(s: &Vec<char>, a: usize, b: usize) -> (res: Option<u128>)
    requires
        a <= b <= s.len(),
        forall|i: int| a <= i < b ==> is_digit(#[trigger] s@[i]),
    ensures
        match res {
            Some(v) => v == digits_value(s@, a as int, b as int) && v <= DIGITS_CAP,
            None => digits_value(s@, a as int, b as int) > DIGITS_CAP,
        },
{
    let mut acc: u128 = 0;
    let mut i: usize = a;
    while i < b
        invariant
            a <= i <= b <= s.len(),
            forall|j: int| a <= j < b ==> is_digit(#[trigger] s@[j]),
            acc == digits_value(s@, a as int, i as int),
            acc <= DIGITS_CAP,
        decreases b - i,
    {
        let d: u128 = ((s[i] as u32) - ('0' as u32)) as u128;
        let next: u128 = acc * 10 + d;
        if next > DIGITS_CAP {
            proof {
                lemma_digits_value_grows(s@, a as int, i + 1, b as int);
            }
            return None;
        }
        acc = next;
        i = i + 1;
    }
    Some(acc)
}

/// A decimal integer at `p` that fits in an `i64`.
pub fn int_at(s: &Vec<char>, p: usize) -> (res: Option<(i64, usize)>)
    requires
        p <= s.len(),
    ensures
        match res {
            Some((v, e)) => i64_lit(s@, p as int) == Some((v, e as int)) && p < e <= s.len(),
            None => i64_lit(s@, p as int) is None,
        },
{
    let signed = p < s.len() && (s[p] == '+' || s[p] == '-');
    let q = if signed {
        p + 1
    } else {
        p
    };
    if q < s.len() && '1' <= s[q] && s[q] <= '9' {
        let e = digits(s, q + 1);
        proof {
            lemma_digits_end(s@, q + 1);
            assert forall|i: int| q <= i < e implies is_digit(#[trigger] s@[i]) by {}
        }
        let neg = signed && s[p] == '-';
        match digits_val(s, q, e) {
            Some(v) => {
                if neg {
                    if v <= 0x8000_0000_0000_0000 {
                        let r: i128 = -(v as i128);
                        Some((r as i64, e))
                    } else {
                        None
                    }
                } else {
                    if v <= 0x7fff_ffff_ffff_ffff {
                        Some((v as i64, e))
                    } else {
                        None
                    }
                }
            },
            None => None,
        }
    } else if p < s.len() && s[p] == '0' {
        Some((0, p + 1))
    } else {
        None
    }
}

/// A string literal at `p`: its text's bounds and the position after it.
pub fn string(s: &Vec<char>, p: usize) -> (res: Option<(usize, usize)>)
    requires
        p <= s.len(),
    ensures
        match res {
            Some((n, e)) => string_lit(s@, p as int) == Some((s@.subrange(p + 1, n as int), e as int))
                && p + 1 <= n && e == n + 1 && e <= s.len(),
            None => string_lit(s@, p as int) is None,
        },
{
    if p < s.len() && s[p] == '"' {
        let mut i: usize = p + 1;
        while i < s.len()
            invariant
                p + 1 <= i <= s.len(),
                s@[p as int] == '"',
                next_quote(s@, (p + 1) as int) == next_quote(s@, i as int),
            decreases s.len() - i,
        {
            if s[i] == '"' {
                proof {
                    assert(next_quote(s@, i as int) == Some(i as int));
                }
                return Some((i, i + 1));
            }
            i = i + 1;
        }
        None
    } else {
        None
    }
}

/// A value read at `p` (see `val_spec`).
pub fn val(src: &Source, p: usize) -> (res: Option<(Value, usize)>)
    requires
        src.wf(),
        p <= src.chars.len(),
    ensures
        match res {
            Some((v, e)) => val_spec(src.chars@, p as int) == Some((v@, e as int)) && p < e
                <= src.chars.len(),
            None => val_spec(src.chars@, p as int) is None,
        },
    decreases src.chars.len() - p, 2int,
{
    let s = &src.chars;
    let p1 = ws(s, p);
    let body: Option<(Value, usize)> = match int_at(s, p1) {
        Some((v, e)) => {
            if e < s.len() && e + 1 < s.len() && s[e] == '.' && '0' <= s[e + 1] && s[e + 1] <= '9' {
                return None;
            }
            Some((Value::Int(v), e))
        },
        None => match string(s, p1) {
            Some((n, e)) => {
                let t = src.text.substring_char(p1 + 1, n);
                Some((Value::from_str(t), e))
            },
            None => {
                if lit(s, p1, "true") {
                    proof {
                        reveal_strlit("true");
                        assert("true"@ =~= seq!['t', 'r', 'u', 'e']);
                    }
                    Some((Value::Bool(true), p1 + 4))
                } else if lit(s, p1, "false") {
                    proof {
                        reveal_strlit("false");
                        assert("false"@ =~= seq!['f', 'a', 'l', 's', 'e']);
                    }
                    Some((Value::Bool(false), p1 + 5))
                } else {
                    proof {
                        reveal_strlit("true");
                        reveal_strlit("false");
                        assert("true"@ =~= seq!['t', 'r', 'u', 'e']);
                        assert("false"@ =~= seq!['f', 'a', 'l', 's', 'e']);
                    }
                    match value_list(src, p1) {
                        Some((vs, e)) => {
                            let ghost vsv = vals_view(vs@);
                            let v = Value::List(vs);
                            proof {
                                assert(v@->List_0 =~= vsv);
                            }
                            Some((v, e))
                        },
                        None => None,
                    }
                }
            },
        },
    };
    match body {
        Some((v, e)) => Some((v, ws(s, e))),
        None => None,
    }
}

/// The views of a list of values.
pub open spec fn vals_view(vs: Seq<Value>) -> Seq<ValueV> {
    Seq::new(vs.len(), |i: int| vs[i]@)
}

/// A list of values read at `p` (see `value_list_spec`).
pub fn value_list(src: &Source, p: usize) -> (res: Option<(Vec<Value>, usize)>)
    requires
        src.wf(),
        p <= src.chars.len(),
    ensures
        match res {
            Some((vs, e)) => value_list_spec(src.chars@, p as int) == Some((vals_view(vs@), e as int))
                && p < e <= src.chars.len(),
            None => value_list_spec(src.chars@, p as int) is None,
        },
    decreases src.chars.len() - p, 1int,
{
    let s = &src.chars;
    proof {
        reveal_strlit("List");
        assert("List"@ =~= seq!['L', 'i', 's', 't']);
    }
    if !lit(s, p, "List") {
        return None;
    }
    let q = ws(s, p + 4);
    if !(q < s.len() && s[q] == '(') {
        return None;
    }
    let (vs, r) = match val(src, q + 1) {
        None => (Vec::new(), q + 1),
        Some((v, q1)) => {
            let mut first: Vec<Value> = Vec::new();
            first.push(v);
            proof {
                assert(vals_view(first@) =~= seq![v@]);
            }
            value_items(src, first, q1)
        },
    };
    proof {
        if vs.len() == 0 {
            assert(vals_view(vs@) =~= Seq::<ValueV>::empty());
        }
    }
    if r < s.len() && s[r] == ')' {
        Some((vs, r + 1))
    } else {
        None
    }
}

/// The remaining values of a value list (see `value_items_spec`).
pub fn value_items(src: &Source, acc: Vec<Value>, r: usize) -> (res: (Vec<Value>, usize))
    requires
        src.wf(),
        r <= src.chars.len(),
    ensures
        value_items_spec(src.chars@, vals_view(acc@), r as int) == (vals_view(res.0@), res.1 as int),
        r <= res.1 <= src.chars.len(),
    decreases src.chars.len() - r, 0int,
{
    let s = &src.chars;
    let c = ws(s, r);
    if c < s.len() && s[c] == ',' {
        let d = ws(s, c + 1);
        match val(src, d) {
            Some((v, q)) => {
                let mut acc2 = acc;
                acc2.push(v);
                proof {
                    assert(vals_view(acc2@) =~= vals_view(acc@).push(v@));
                }
                value_items(src, acc2, q)
            },
            None => (acc, r),
        }
    } else {
        (acc, r)
    }
}

/// Reads a value from a text: the value and the number of characters read.
pub fn parse_value(text: &str) -> (res: Option<(Value, usize)>)
    ensures
        match res {
            Some((v, e)) => val_spec(text@, 0) == Some((v@, e as int)),
            None => val_spec(text@, 0) is None,
        },
{
    let src = Source::new(text);
    val(&src, 0)
}

// ---------------------------------------------------------------------------
// Expressions.
// ---------------------------------------------------------------------------

/// The precedence levels of binary operators, from the loosest binding
/// (`++`) to the tightest (`%`).
#[derive(Debug, Clone, Copy, PartialEq, Eq, Structural)]
pub enum BinaryPrecedences {
    Concat,
    Or,
    And,
    Le,
    Ge,
    Lt,
    Gt,
    Eq,
    Sub,
    Add,
    Mul,
    Div,
    Mod,
}

/// The rank of a level: 0 for the loosest, 12 for the tightest.
pub open spec fn prec_rank(l: BinaryPrecedences) -> int {
    match l {
        BinaryPrecedences::Concat => 0,
        BinaryPrecedences::Or => 1,
        BinaryPrecedences::And => 2,
        BinaryPrecedences::Le => 3,
        BinaryPrecedences::Ge => 4,
        BinaryPrecedences::Lt => 5,
        BinaryPrecedences::Gt => 6,
        BinaryPrecedences::Eq => 7,
        BinaryPrecedences::Sub => 8,
        BinaryPrecedences::Add => 9,
        BinaryPrecedences::Mul => 10,
        BinaryPrecedences::Div => 11,
        BinaryPrecedences::Mod => 12,
    }
}

/// The next tighter level.
pub open spec fn prec_next(l: BinaryPrecedences) -> Option<BinaryPrecedences> {
    match l {
        BinaryPrecedences::Concat => Some(BinaryPrecedences::Or),
        BinaryPrecedences::Or => Some(BinaryPrecedences::And),
        BinaryPrecedences::And => Some(BinaryPrecedences::Le),
        BinaryPrecedences::Le => Some(BinaryPrecedences::Ge),
        BinaryPrecedences::Ge => Some(BinaryPrecedences::Lt),
        BinaryPrecedences::Lt => Some(BinaryPrecedences::Gt),
        BinaryPrecedences::Gt => Some(BinaryPrecedences::Eq),
        BinaryPrecedences::Eq => Some(BinaryPrecedences::Sub),
        BinaryPrecedences::Sub => Some(BinaryPrecedences::Add),
        BinaryPrecedences::Add => Some(BinaryPrecedences::Mul),
        BinaryPrecedences::Mul => Some(BinaryPrecedences::Div),
        BinaryPrecedences::Div => Some(BinaryPrecedences::Mod),
        BinaryPrecedences::Mod => None,
    }
}

/// The symbol of a level's operator.
pub open spec fn prec_lit(l: BinaryPrecedences) -> Seq<char> {
    match l {
        BinaryPrecedences::Concat => seq!['+', '+'],
        BinaryPrecedences::Or => seq!['|', '|'],
        BinaryPrecedences::And => seq!['&', '&'],
        BinaryPrecedences::Le => seq!['<', '='],
        BinaryPrecedences::Ge => seq!['>', '='],
        BinaryPrecedences::Lt => seq!['<'],
        BinaryPrecedences::Gt => seq!['>'],
        BinaryPrecedences::Eq => seq!['=', '='],
        BinaryPrecedences::Sub => seq!['-'],
        BinaryPrecedences::Add => seq!['+'],
        BinaryPrecedences::Mul => seq!['*'],
        BinaryPrecedences::Div => seq!['/'],
        BinaryPrecedences::Mod => seq!['%'],
    }
}

/// The operator of a level.
pub open spec fn prec_binop(l: BinaryPrecedences) -> SBinOp {
    match l {
        BinaryPrecedences::Concat => SBinOp::SOp(StrBinOp::Concat),
        BinaryPrecedences::Or => SBinOp::BOp(BoolBinOp::Or),
        BinaryPrecedences::And => SBinOp::BOp(BoolBinOp::And),
        BinaryPrecedences::Le => SBinOp::COp(CompBinOp::Le),
        BinaryPrecedences::Ge => SBinOp::COp(CompBinOp::Ge),
        BinaryPrecedences::Lt => SBinOp::COp(CompBinOp::Lt),
        BinaryPrecedences::Gt => SBinOp::COp(CompBinOp::Gt),
        BinaryPrecedences::Eq => SBinOp::COp(CompBinOp::Eq),
        BinaryPrecedences::Sub => SBinOp::NOp(NumericalBinOp::Sub),
        BinaryPrecedences::Add => SBinOp::NOp(NumericalBinOp::Add),
        BinaryPrecedences::Mul => SBinOp::NOp(NumericalBinOp::Mul),
        BinaryPrecedences::Div => SBinOp::NOp(NumericalBinOp::Div),
        BinaryPrecedences::Mod => SBinOp::NOp(NumericalBinOp::Mod),
    }
}

impl BinaryPrecedences {
    /// The next tighter level, `None` after the tightest.
    pub fn next(&self) -> (res: Option<BinaryPrecedences>)
        ensures
            res == prec_next(*self),
    {
        match self {
            BinaryPrecedences::Concat => Some(BinaryPrecedences::Or),
            BinaryPrecedences::Or => Some(BinaryPrecedences::And),
            BinaryPrecedences::And => Some(BinaryPrecedences::Le),
            BinaryPrecedences::Le => Some(BinaryPrecedences::Ge),
            BinaryPrecedences::Ge => Some(BinaryPrecedences::Lt),
            BinaryPrecedences::Lt => Some(BinaryPrecedences::Gt),
            BinaryPrecedences::Gt => Some(BinaryPrecedences::Eq),
            BinaryPrecedences::Eq => Some(BinaryPrecedences::Sub),
            BinaryPrecedences::Sub => Some(BinaryPrecedences::Add),
            BinaryPrecedences::Add => Some(BinaryPrecedences::Mul),
            BinaryPrecedences::Mul => Some(BinaryPrecedences::Div),
            BinaryPrecedences::Div => Some(BinaryPrecedences::Mod),
            BinaryPrecedences::Mod => None,
        }
    }

    /// The symbol of the level's operator.
    pub fn get_lit(&self) -> (res: &'static str)
        ensures
            res@ == prec_lit(*self),
    {
        proof {
            reveal_strlit("++");
            reveal_strlit("||");
            reveal_strlit("&&");
            reveal_strlit("<=");
            reveal_strlit(">=");
            reveal_strlit("<");
            reveal_strlit(">");
            reveal_strlit("==");
            reveal_strlit("-");
            reveal_strlit("+");
            reveal_strlit("*");
            reveal_strlit("/");
            reveal_strlit("%");
        }
        match self {
            BinaryPrecedences::Concat => {
                proof { assert("++"@ =~= seq!['+', '+']); }
                "++"
            },
            BinaryPrecedences::Or => {
                proof { assert("||"@ =~= seq!['|', '|']); }
                "||"
            },
            BinaryPrecedences::And => {
                proof { assert("&&"@ =~= seq!['&', '&']); }
                "&&"
            },
            BinaryPrecedences::Le => {
                proof { assert("<="@ =~= seq!['<', '=']); }
                "<="
            },
            BinaryPrecedences::Ge => {
                proof { assert(">="@ =~= seq!['>', '=']); }
                ">="
            },
            BinaryPrecedences::Lt => {
                proof { assert("<"@ =~= seq!['<']); }
                "<"
            },
            BinaryPrecedences::Gt => {
                proof { assert(">"@ =~= seq!['>']); }
                ">"
            },
            BinaryPrecedences::Eq => {
                proof { assert("=="@ =~= seq!['=', '=']); }
                "=="
            },
            BinaryPrecedences::Sub => {
                proof { assert("-"@ =~= seq!['-']); }
                "-"
            },
            BinaryPrecedences::Add => {
                proof { assert("+"@ =~= seq!['+']); }
                "+"
            },
            BinaryPrecedences::Mul => {
                proof { assert("*"@ =~= seq!['*']); }
                "*"
            },
            BinaryPrecedences::Div => {
                proof { assert("/"@ =~= seq!['/']); }
                "/"
            },
            BinaryPrecedences::Mod => {
                proof { assert("%"@ =~= seq!['%']); }
                "%"
            },
        }
    }

    /// The operator of the level.
    pub fn get_binop(&self) -> (res: SBinOp)
        ensures
            res == prec_binop(*self),
    {
        match self {
            BinaryPrecedences::Concat => SBinOp::SOp(StrBinOp::Concat),
            BinaryPrecedences::Or => SBinOp::BOp(BoolBinOp::Or),
            BinaryPrecedences::And => SBinOp::BOp(BoolBinOp::And),
            BinaryPrecedences::Le => SBinOp::COp(CompBinOp::Le),
            BinaryPrecedences::Ge => SBinOp::COp(CompBinOp::Ge),
            BinaryPrecedences::Lt => SBinOp::COp(CompBinOp::Lt),
            BinaryPrecedences::Gt => SBinOp::COp(CompBinOp::Gt),
            BinaryPrecedences::Eq => SBinOp::COp(CompBinOp::Eq),
            BinaryPrecedences::Sub => SBinOp::NOp(NumericalBinOp::Sub),
            BinaryPrecedences::Add => SBinOp::NOp(NumericalBinOp::Add),
            BinaryPrecedences::Mul => SBinOp::NOp(NumericalBinOp::Mul),
            BinaryPrecedences::Div => SBinOp::NOp(NumericalBinOp::Div),
            BinaryPrecedences::Mod => SBinOp::NOp(NumericalBinOp::Mod),
        }
    }

    /// The loosest level, where an expression starts.
    pub fn lowest_precedence() -> (res: BinaryPrecedences)
        ensures
            res == BinaryPrecedences::Concat,
    {
        BinaryPrecedences::Concat
    }
}

/// Whether `p <= q <= s.len()`: reading went forward and stayed in the text.
pub open spec fn fwd(s: Seq<char>, p: int, q: int) -> bool {
    p <= q <= s.len()
}

/// An expression at `p`, with surrounding spaces and tabs.
pub open spec fn sexpr_spec(s: Seq<char>, p: int) -> Option<(SExprV, int)>
    decreases s.len() - p, 40int,
{
    let p1 = ws_end(s, p);
    if !fwd(s, p, p1) {
        None
    } else {
        match level_spec(s, p1, BinaryPrecedences::Concat) {
            Some((e, q)) => Some((e, ws_end(s, q))),
            None => None,
        }
    }
}

/// An expression at `p` made of operators of level `l` or tighter:
/// operands of the next level joined by `l`'s operator, grouped to the left.
pub open spec fn level_spec(s: Seq<char>, p: int, l: BinaryPrecedences) -> Option<(SExprV, int)>
    decreases s.len() - p, 38 - 2 * prec_rank(l),
{
    let first = match prec_next(l) {
        Some(n) => level_spec(s, p, n),
        None => atom_spec(s, p),
    };
    match first {
        Some((e, q)) => if fwd(s, p, q) {
            Some(fold_spec(s, l, e, q))
        } else {
            None
        },
        None => None,
    }
}

/// Extends `acc` read up to `q` by `op operand` pairs of level `l` as long as
/// both parts read; stops before an operator not followed by an operand.
pub open spec fn fold_spec(s: Seq<char>, l: BinaryPrecedences, acc: SExprV, q: int) -> (SExprV, int)
    decreases s.len() - q, 37 - 2 * prec_rank(l),
{
    let op = prec_lit(l);
    if lit_at(s, q, op) {
        let r = q + op.len();
        let next = match prec_next(l) {
            Some(n) => level_spec(s, r, n),
            None => atom_spec(s, r),
        };
        match next {
            Some((e2, q2)) => if fwd(s, r, q2) {
                fold_spec(
                    s,
                    l,
                    SExprV::BinOp(Box::new(acc), Box::new(e2), prec_binop(l)),
                    q2,
                )
            } else {
                (acc, q)
            },
            None => (acc, q),
        }
    } else {
        (acc, q)
    }
}

/// The forms an atom can take, tried in this order.
pub open spec fn atom_spec(s: Seq<char>, p: int) -> Option<(SExprV, int)>
    decreases s.len() - p, 11int,
{
    let p1 = ws_end(s, p);
    if !fwd(s, p, p1) {
        None
    } else if fraction_at(s, p1) {
        None
    } else {
        match atom_body_spec(s, p1) {
            Some((e, q)) => Some((e, ws_end(s, q))),
            None => None,
        }
    }
}

pub open spec fn kw_list_get() -> Seq<char> {
    seq!['L', 'i', 's', 't', '.', 'g', 'e', 't']
}

pub open spec fn kw_list_append() -> Seq<char> {
    seq!['L', 'i', 's', 't', '.', 'a', 'p', 'p', 'e', 'n', 'd']
}

pub open spec fn kw_list_concat() -> Seq<char> {
    seq!['L', 'i', 's', 't', '.', 'c', 'o', 'n', 'c', 'a', 't']
}

pub open spec fn kw_list_head() -> Seq<char> {
    seq!['L', 'i', 's', 't', '.', 'h', 'e', 'a', 'd']
}

pub open spec fn kw_list_tail() -> Seq<char> {
    seq!['L', 'i', 's', 't', '.', 't', 'a', 'i', 'l']
}

pub open spec fn kw_dynamic() -> Seq<char> {
    seq!['d', 'y', 'n', 'a', 'm', 'i', 'c']
}

pub open spec fn kw_eval() -> Seq<char> {
    seq!['e', 'v', 'a', 'l']
}

pub open spec fn kw_defer() -> Seq<char> {
    seq!['d', 'e', 'f', 'e', 'r']
}

pub open spec fn kw_update() -> Seq<char> {
    seq!['u', 'p', 'd', 'a', 't', 'e']
}

pub open spec fn kw_default() -> Seq<char> {
    seq!['d', 'e', 'f', 'a', 'u', 'l', 't']
}

pub open spec fn kw_when() -> Seq<char> {
    seq!['w', 'h', 'e', 'n']
}

pub open spec fn kw_is_defined() -> Seq<char> {
    seq!['i', 's', '_', 'd', 'e', 'f', 'i', 'n', 'e', 'd']
}

pub open spec fn kw_if() -> Seq<char> {
    seq!['i', 'f']
}

pub open spec fn kw_then() -> Seq<char> {
    seq!['t', 'h', 'e', 'n']
}

pub open spec fn kw_else() -> Seq<char> {
    seq!['e', 'l', 's', 'e']
}

pub open spec fn kw_list() -> Seq<char> {
    seq!['L', 'i', 's', 't']
}

/// The first form that reads at `p`.
pub open spec fn atom_body_spec(s: Seq<char>, p: int) -> Option<(SExprV, int)>
    decreases s.len() - p, 10int,
{
    if let Some(r) = atom_lists_spec(s, p) {
        Some(r)
    } else if let Some(r) = atom_calls_spec(s, p) {
        Some(r)
    } else {
        atom_rest_spec(s, p)
    }
}

/// Stream indexing and the list operations.
pub open spec fn atom_lists_spec(s: Seq<char>, p: int) -> Option<(SExprV, int)>
    decreases s.len() - p, 9int,
{
    if let Some((e, q)) = sindex_spec(s, p) {
        Some((e, q))
    } else if let Some((a, b, q)) = call2_spec(s, p, kw_list_get(), true, true) {
        Some((SExprV::LIndex(Box::new(a), Box::new(b)), q))
    } else if let Some((a, b, q)) = call2_spec(s, p, kw_list_append(), true, true) {
        Some((SExprV::LAppend(Box::new(a), Box::new(b)), q))
    } else if let Some((a, b, q)) = call2_spec(s, p, kw_list_concat(), true, true) {
        Some((SExprV::LConcat(Box::new(a), Box::new(b)), q))
    } else if let Some((a, q)) = call1_spec(s, p, kw_list_head()) {
        Some((SExprV::LHead(Box::new(a)), q))
    } else if let Some((a, q)) = call1_spec(s, p, kw_list_tail()) {
        Some((SExprV::LTail(Box::new(a)), q))
    } else {
        None
    }
}

/// Negation, evaluation, values, conditionals and deferral.
pub open spec fn atom_calls_spec(s: Seq<char>, p: int) -> Option<(SExprV, int)>
    decreases s.len() - p, 9int,
{
    if let Some((e, q)) = not_spec(s, p) {
        Some((e, q))
    } else if let Some((a, q)) = call1_spec(s, p, kw_dynamic()) {
        Some((SExprV::Eval(Box::new(a)), q))
    } else if let Some((a, q)) = call1_spec(s, p, kw_eval()) {
        Some((SExprV::Eval(Box::new(a)), q))
    } else if let Some((v, q)) = val_spec(s, p) {
        Some((SExprV::Val(v), q))
    } else if let Some((e, q)) = ifelse_spec(s, p) {
        Some((e, q))
    } else if let Some((a, q)) = call1_spec(s, p, kw_defer()) {
        Some((SExprV::Defer(Box::new(a)), q))
    } else {
        None
    }
}

/// Update, default, `when`, `is_defined`, expression lists, variables and
/// parentheses.
pub open spec fn atom_rest_spec(s: Seq<char>, p: int) -> Option<(SExprV, int)>
    decreases s.len() - p, 9int,
{
    if let Some((a, b, q)) = call2_spec(s, p, kw_update(), true, false) {
        Some((SExprV::Update(Box::new(a), Box::new(b)), q))
    } else if let Some((a, b, q)) = call2_spec(s, p, kw_default(), false, true) {
        Some((SExprV::Default(Box::new(a), Box::new(b)), q))
    } else if let Some((a, q)) = call1_spec(s, p, kw_when()) {
        Some((SExprV::When(Box::new(a)), q))
    } else if let Some((a, q)) = call1_spec(s, p, kw_is_defined()) {
        Some((SExprV::IsDefined(Box::new(a)), q))
    } else if let Some((es, q)) = sexpr_list_spec(s, p) {
        Some((SExprV::List(es), q))
    } else if alnum_end(s, p) > p {
        Some((SExprV::Var(s.subrange(p, alnum_end(s, p))), alnum_end(s, p)))
    } else {
        paren_spec(s, p)
    }
}

/// `(` expression `)`.
pub open spec fn paren_spec(s: Seq<char>, p: int) -> Option<(SExprV, int)>
    decreases s.len() - p, 6int,
{
    if 0 <= p < s.len() && s[p] == '(' {
        match sexpr_spec(s, p + 1) {
            Some((e, q)) => if fwd(s, p + 1, q) && q < s.len() && s[q] == ')' {
                Some((e, q + 1))
            } else {
                None
            },
            None => None,
        }
    } else {
        None
    }
}

/// `!` then an atom.
pub open spec fn not_spec(s: Seq<char>, p: int) -> Option<(SExprV, int)>
    decreases s.len() - p, 8int,
{
    if 0 <= p < s.len() && s[p] == '!' {
        let r = skip_end(s, p + 1);
        if fwd(s, p + 1, r) {
            match atom_spec(s, r) {
                Some((e, q)) => Some((SExprV::Not(Box::new(e)), q)),
                None => None,
            }
        } else {
            None
        }
    } else {
        None
    }
}

/// `kw`, `(`, an expression, `)`, with whitespace and comments between.
pub open spec fn call1_spec(s: Seq<char>, p: int, kw: Seq<char>) -> Option<(SExprV, int)>
    decreases s.len() - p, 8int,
{
    if kw.len() > 0 && lit_at(s, p, kw) {
        let a = skip_end(s, p + kw.len());
        if fwd(s, p + kw.len(), a) && a < s.len() && s[a] == '(' {
            let b = skip_end(s, a + 1);
            if fwd(s, a + 1, b) {
                match sexpr_spec(s, b) {
                    Some((e, q)) => {
                        let c = skip_end(s, q);
                        if fwd(s, b, q) && fwd(s, q, c) && c < s.len() && s[c] == ')' {
                            Some((e, c + 1))
                        } else {
                            None
                        }
                    },
                    None => None,
                }
            } else {
                None
            }
        } else {
            None
        }
    } else {
        None
    }
}

/// `kw`, `(`, an expression, `,`, an expression, `)`; `skip_kw` and
/// `skip_open` say whether whitespace and comments may follow the keyword and
/// the `(`.
pub open spec fn call2_spec(s: Seq<char>, p: int, kw: Seq<char>, skip_kw: bool, skip_open: bool) -> Option<
    (SExprV, SExprV, int),
>
    decreases s.len() - p, 8int,
{
    if kw.len() > 0 && lit_at(s, p, kw) {
        let a = if skip_kw {
            skip_end(s, p + kw.len())
        } else {
            p + kw.len()
        };
        if fwd(s, p + kw.len(), a) && a < s.len() && s[a] == '(' {
            let b = if skip_open {
                skip_end(s, a + 1)
            } else {
                a + 1
            };
            if fwd(s, a + 1, b) {
                match sexpr_spec(s, b) {
                    Some((e1, q1)) => {
                        let c = skip_end(s, q1);
                        if fwd(s, b, q1) && fwd(s, q1, c) && c < s.len() && s[c] == ',' {
                            let d = skip_end(s, c + 1);
                            if fwd(s, c + 1, d) {
                                match sexpr_spec(s, d) {
                                    Some((e2, q2)) => {
                                        let f = skip_end(s, q2);
                                        if fwd(s, d, q2) && fwd(s, q2, f) && f < s.len() && s[f]
                                            == ')' {
                                            Some((e1, e2, f + 1))
                                        } else {
                                            None
                                        }
                                    },
                                    None => None,
                                }
                            } else {
                                None
                            }
                        } else {
                            None
                        }
                    },
                    None => None,
                }
            } else {
                None
            }
        } else {
            None
        }
    } else {
        None
    }
}

/// Reads `kw` at `p`, then an expression: the expression, or `None`. Before
/// the keyword, spaces and tabs are passed over when `first` holds, and
/// whitespace, line breaks and comments otherwise.
pub open spec fn kw_then_sexpr(s: Seq<char>, p: int, kw: Seq<char>, first: bool) -> Option<(SExprV, int)>
    decreases s.len() - p, 7int,
{
    let a = if first {
        ws_end(s, p)
    } else {
        skip_end(s, p)
    };
    if fwd(s, p, a) && kw.len() > 0 && lit_at(s, a, kw) {
        let b = skip_end(s, a + kw.len());
        if fwd(s, a + kw.len(), b) {
            match sexpr_spec(s, b) {
                Some((e, q)) => if fwd(s, b, q) {
                    Some((e, q))
                } else {
                    None
                },
                None => None,
            }
        } else {
            None
        }
    } else {
        None
    }
}

/// `if` expression `then` expression `else` expression.
pub open spec fn ifelse_spec(s: Seq<char>, p: int) -> Option<(SExprV, int)>
    decreases s.len() - p, 8int,
{
    match kw_then_sexpr(s, p, kw_if(), true) {
        Some((c, q1)) => if fwd(s, p, q1) {
            match kw_then_sexpr(s, q1, kw_then(), false) {
                Some((t, q2)) => if fwd(s, q1, q2) {
                    match kw_then_sexpr(s, q2, kw_else(), false) {
                        Some((f, q3)) => Some(
                            (SExprV::If(Box::new(c), Box::new(t), Box::new(f)), q3),
                        ),
                        None => None,
                    }
                } else {
                    None
                },
                None => None,
            }
        } else {
            None
        },
        None => None,
    }
}

/// A decimal integer at `p` that fits in an `isize`.
pub open spec fn isize_lit(s: Seq<char>, p: int) -> Option<(isize, int)> {
    match int_lit(s, p) {
        Some((v, e)) => if isize::MIN <= v <= isize::MAX {
            Some((v as isize, e))
        } else {
            None
        },
        None => None,
    }
}

/// The stream of a stream index: a value, a variable, or a parenthesised
/// expression.
pub open spec fn sindex_base_spec(s: Seq<char>, p: int) -> Option<(SExprV, int)>
    decreases s.len() - p, 7int,
{
    if let Some((v, q)) = val_spec(s, p) {
        Some((SExprV::Val(v), q))
    } else if alnum_end(s, p) > p {
        Some((SExprV::Var(s.subrange(p, alnum_end(s, p))), alnum_end(s, p)))
    } else {
        paren_spec(s, p)
    }
}

/// `e[i, d]`: stream `e` at relative time `i`, with default value `d`; or
/// `e[i]`, with no default (the value is unknown where there is none).
pub open spec fn sindex_spec(s: Seq<char>, p: int) -> Option<(SExprV, int)>
    decreases s.len() - p, 8int,
{
    match sindex_base_spec(s, p) {
        Some((e, q)) => {
            let a = skip_end(s, q);
            if fwd(s, q, a) && a < s.len() && s[a] == '[' {
                let b = skip_end(s, a + 1);
                if fwd(s, a + 1, b) {
                    match isize_lit(s, b) {
                        Some((i, q2)) => {
                            let c = skip_end(s, q2);
                            if fwd(s, q2, c) && c < s.len() && s[c] == ']' {
                                Some((SExprV::SIndex(Box::new(e), i, ValueV::Unknown), c + 1))
                            } else if fwd(s, q2, c) && c < s.len() && s[c] == ',' {
                                let d = skip_end(s, c + 1);
                                if fwd(s, c + 1, d) {
                                    match val_spec(s, d) {
                                        Some((v, q3)) => {
                                            let f = skip_end(s, q3);
                                            if fwd(s, q3, f) && f < s.len() && s[f] == ']' {
                                                Some((SExprV::SIndex(Box::new(e), i, v), f + 1))
                                            } else {
                                                None
                                            }
                                        },
                                        None => None,
                                    }
                                } else {
                                    None
                                }
                            } else {
                                None
                            }
                        },
                        None => None,
                    }
                } else {
                    None
                }
            } else {
                None
            }
        },
        None => None,
    }
}

/// `List`, `(`, expressions separated by commas, `)`.
pub open spec fn sexpr_list_spec(s: Seq<char>, p: int) -> Option<(Seq<SExprV>, int)>
    decreases s.len() - p, 8int,
{
    if lit_at(s, p, kw_list()) {
        let a = skip_end(s, p + 4);
        if fwd(s, p + 4, a) && a < s.len() && s[a] == '(' {
            let (es, r) = match sexpr_spec(s, a + 1) {
                None => (Seq::empty(), a + 1),
                Some((e, q)) => if fwd(s, a + 1, q) {
                    sexpr_items_spec(s, seq![e], q)
                } else {
                    (Seq::empty(), a + 1)
                },
            };
            if 0 <= r < s.len() && s[r] == ')' {
                Some((es, r + 1))
            } else {
                None
            }
        } else {
            None
        }
    } else {
        None
    }
}

/// The expressions after the first in an expression list.
pub open spec fn sexpr_items_spec(s: Seq<char>, acc: Seq<SExprV>, r: int) -> (Seq<SExprV>, int)
    decreases s.len() - r, 8int,
{
    let c = skip_end(s, r);
    if fwd(s, r, c) && c < s.len() && s[c] == ',' {
        let d = skip_end(s, c + 1);
        if fwd(s, c + 1, d) {
            match sexpr_spec(s, d) {
                Some((e, q)) => if fwd(s, d, q) {
                    sexpr_items_spec(s, acc.push(e), q)
                } else {
                    (acc, r)
                },
                None => (acc, r),
            }
        } else {
            (acc, r)
        }
    } else {
        (acc, r)
    }
}

/// The views of a list of expressions.
pub open spec fn sexprs_view(es: Seq<SExpr>) -> Seq<SExprV> {
    Seq::new(es.len(), |i: int| es[i]@)
}

/// An expression read at `p` (see `sexpr_spec`).
pub fn sexpr(src: &Source, p: usize) -> (res: Option<(SExpr, usize)>)
    requires
        src.wf(),
        p <= src.chars.len(),
    ensures
        match res {
            Some((e, q)) => sexpr_spec(src.chars@, p as int) == Some((e@, q as int)) && p <= q
                <= src.chars.len(),
            None => sexpr_spec(src.chars@, p as int) is None,
        },
    decreases src.chars.len() - p, 40int,
{
    let p1 = ws(&src.chars, p);
    match binary_op(src, p1, BinaryPrecedences::lowest_precedence()) {
        Some((e, q)) => Some((e, ws(&src.chars, q))),
        None => None,
    }
}

/// An expression of level `l` or tighter read at `p` (see `level_spec`).
pub fn binary_op(src: &Source, p: usize, l: BinaryPrecedences) -> (res: Option<(SExpr, usize)>)
    requires
        src.wf(),
        p <= src.chars.len(),
    ensures
        match res {
            Some((e, q)) => level_spec(src.chars@, p as int, l) == Some((e@, q as int)) && p <= q
                <= src.chars.len(),
            None => level_spec(src.chars@, p as int, l) is None,
        },
    decreases src.chars.len() - p, 38 - 2 * prec_rank(l),
{
    let first = match l.next() {
        Some(n) => binary_op(src, p, n),
        None => atom(src, p),
    };
    match first {
        Some((e, q)) => Some(fold(src, l, e, q)),
        None => None,
    }
}

/// Extends `acc` by operators of level `l` (see `fold_spec`).
#[verifier::spinoff_prover]
#[verifier::rlimit(40)]
pub fn fold(src: &Source, l: BinaryPrecedences, acc: SExpr, q: usize) -> (res: (SExpr, usize))
    requires
        src.wf(),
        q <= src.chars.len(),
    ensures
        fold_spec(src.chars@, l, acc@, q as int) == (res.0@, res.1 as int),
        q <= res.1 <= src.chars.len(),
    decreases src.chars.len() - q, 37 - 2 * prec_rank(l),
{
    let op = l.get_lit();
    let ghost opv = prec_lit(l);
    if lit(&src.chars, q, op) {
        let r = q + op.unicode_len();
        assert(r == q + opv.len());
        assert(fold_spec(src.chars@, l, acc@, q as int) == {
            let next = match prec_next(l) {
                Some(n) => level_spec(src.chars@, r as int, n),
                None => atom_spec(src.chars@, r as int),
            };
            match next {
                Some((e2, q2)) => if fwd(src.chars@, r as int, q2) {
                    fold_spec(
                        src.chars@,
                        l,
                        SExprV::BinOp(Box::new(acc@), Box::new(e2), prec_binop(l)),
                        q2,
                    )
                } else {
                    (acc@, q as int)
                },
                None => (acc@, q as int),
            }
        });
        let next = match l.next() {
            Some(n) => binary_op(src, r, n),
            None => atom(src, r),
        };
        match next {
            Some((e2, q2)) => {
                let ghost accv = acc@;
                let ghost e2v = e2@;
                let node = SExpr::BinOp(Box::new(acc), Box::new(e2), l.get_binop());
                proof {
                    assert(node@ == SExprV::BinOp(Box::new(accv), Box::new(e2v), prec_binop(l)));
                }
                fold(src, l, node, q2)
            },
            None => (acc, q),
        }
    } else {
        (acc, q)
    }
}

/// An atom read at `p` (see `atom_spec`).
pub fn atom(src: &Source, p: usize) -> (res: Option<(SExpr, usize)>)
    requires
        src.wf(),
        p <= src.chars.len(),
    ensures
        match res {
            Some((e, q)) => atom_spec(src.chars@, p as int) == Some((e@, q as int)) && p <= q
                <= src.chars.len(),
            None => atom_spec(src.chars@, p as int) is None,
        },
    decreases src.chars.len() - p, 11int,
{
    let s = &src.chars;
    let p1 = ws(s, p);
    if let Some((_, e)) = int_at(s, p1) {
        if e < s.len() && e + 1 < s.len() && s[e] == '.' && '0' <= s[e + 1] && s[e + 1] <= '9' {
            return None;
        }
    }
    match atom_body(src, p1) {
        Some((e, q)) => Some((e, ws(&src.chars, q))),
        None => None,
    }
}

/// A one-argument node.
fn node1(kind: u8, a: SExpr) -> (res: SExpr)
    ensures
        kind == 0 ==> res@ == SExprV::LHead(Box::new(a@)),
        kind == 1 ==> res@ == SExprV::LTail(Box::new(a@)),
        kind == 2 ==> res@ == SExprV::Eval(Box::new(a@)),
        kind == 3 ==> res@ == SExprV::Defer(Box::new(a@)),
        kind == 4 ==> res@ == SExprV::When(Box::new(a@)),
        kind >= 5 ==> res@ == SExprV::IsDefined(Box::new(a@)),
{
    if kind == 0 {
        SExpr::LHead(Box::new(a))
    } else if kind == 1 {
        SExpr::LTail(Box::new(a))
    } else if kind == 2 {
        SExpr::Eval(Box::new(a))
    } else if kind == 3 {
        SExpr::Defer(Box::new(a))
    } else if kind == 4 {
        SExpr::When(Box::new(a))
    } else {
        SExpr::IsDefined(Box::new(a))
    }
}

/// A two-argument node.
fn node2(kind: u8, a: SExpr, b: SExpr) -> (res: SExpr)
    ensures
        kind == 0 ==> res@ == SExprV::LIndex(Box::new(a@), Box::new(b@)),
        kind == 1 ==> res@ == SExprV::LAppend(Box::new(a@), Box::new(b@)),
        kind == 2 ==> res@ == SExprV::LConcat(Box::new(a@), Box::new(b@)),
        kind == 3 ==> res@ == SExprV::Update(Box::new(a@), Box::new(b@)),
        kind >= 4 ==> res@ == SExprV::Default(Box::new(a@), Box::new(b@)),
{
    if kind == 0 {
        SExpr::LIndex(Box::new(a), Box::new(b))
    } else if kind == 1 {
        SExpr::LAppend(Box::new(a), Box::new(b))
    } else if kind == 2 {
        SExpr::LConcat(Box::new(a), Box::new(b))
    } else if kind == 3 {
        SExpr::Update(Box::new(a), Box::new(b))
    } else {
        SExpr::Default(Box::new(a), Box::new(b))
    }
}

/// The first form that reads at `p` (see `atom_body_spec`).
pub fn atom_body(src: &Source, p: usize) -> (res: Option<(SExpr, usize)>)
    requires
        src.wf(),
        p <= src.chars.len(),
    ensures
        match res {
            Some((e, q)) => atom_body_spec(src.chars@, p as int) == Some((e@, q as int)) && p <= q
                <= src.chars.len(),
            None => atom_body_spec(src.chars@, p as int) is None,
        },
    decreases src.chars.len() - p, 10int,
{
    if let Some(r) = atom_lists(src, p) {
        return Some(r);
    }
    if let Some(r) = atom_calls(src, p) {
        return Some(r);
    }
    atom_rest(src, p)
}

fn atom_lists(src: &Source, p: usize) -> (res: Option<(SExpr, usize)>)
    requires
        src.wf(),
        p <= src.chars.len(),
    ensures
        match res {
            Some((e, q)) => atom_lists_spec(src.chars@, p as int) == Some((e@, q as int)) && p <= q
                <= src.chars.len(),
            None => atom_lists_spec(src.chars@, p as int) is None,
        },
    decreases src.chars.len() - p, 9int,
{
    proof {
        reveal_strlit("List.get");
        reveal_strlit("List.append");
        reveal_strlit("List.concat");
        reveal_strlit("List.head");
        reveal_strlit("List.tail");
        assert("List.get"@ =~= kw_list_get());
        assert("List.append"@ =~= kw_list_append());
        assert("List.concat"@ =~= kw_list_concat());
        assert("List.head"@ =~= kw_list_head());
        assert("List.tail"@ =~= kw_list_tail());
    }
    if let Some((e, q)) = sindex(src, p) {
        return Some((e, q));
    }
    if let Some((a, b, q)) = call2(src, p, "List.get", true, true) {
        return Some((node2(0, a, b), q));
    }
    if let Some((a, b, q)) = call2(src, p, "List.append", true, true) {
        return Some((node2(1, a, b), q));
    }
    if let Some((a, b, q)) = call2(src, p, "List.concat", true, true) {
        return Some((node2(2, a, b), q));
    }
    if let Some((a, q)) = call1(src, p, "List.head") {
        return Some((node1(0, a), q));
    }
    if let Some((a, q)) = call1(src, p, "List.tail") {
        return Some((node1(1, a), q));
    }
    None
}

fn atom_calls(src: &Source, p: usize) -> (res: Option<(SExpr, usize)>)
    requires
        src.wf(),
        p <= src.chars.len(),
    ensures
        match res {
            Some((e, q)) => atom_calls_spec(src.chars@, p as int) == Some((e@, q as int)) && p <= q
                <= src.chars.len(),
            None => atom_calls_spec(src.chars@, p as int) is None,
        },
    decreases src.chars.len() - p, 9int,
{
    proof {
        reveal_strlit("dynamic");
        reveal_strlit("eval");
        reveal_strlit("defer");
        assert("dynamic"@ =~= kw_dynamic());
        assert("eval"@ =~= kw_eval());
        assert("defer"@ =~= kw_defer());
    }
    if let Some((e, q)) = not_expr(src, p) {
        return Some((e, q));
    }
    if let Some((a, q)) = call1(src, p, "dynamic") {
        return Some((node1(2, a), q));
    }
    if let Some((a, q)) = call1(src, p, "eval") {
        return Some((node1(2, a), q));
    }
    if let Some((v, q)) = val(src, p) {
        let ghost vv = v@;
        let e = SExpr::Val(v);
        proof {
            assert(e@ == SExprV::Val(vv));
        }
        return Some((e, q));
    }
    if let Some((e, q)) = ifelse(src, p) {
        return Some((e, q));
    }
    if let Some((a, q)) = call1(src, p, "defer") {
        return Some((node1(3, a), q));
    }
    None
}

fn atom_rest(src: &Source, p: usize) -> (res: Option<(SExpr, usize)>)
    requires
        src.wf(),
        p <= src.chars.len(),
    ensures
        match res {
            Some((e, q)) => atom_rest_spec(src.chars@, p as int) == Some((e@, q as int)) && p <= q
                <= src.chars.len(),
            None => atom_rest_spec(src.chars@, p as int) is None,
        },
    decreases src.chars.len() - p, 9int,
{
    proof {
        reveal_strlit("update");
        reveal_strlit("default");
        reveal_strlit("when");
        reveal_strlit("is_defined");
        assert("update"@ =~= kw_update());
        assert("default"@ =~= kw_default());
        assert("when"@ =~= kw_when());
        assert("is_defined"@ =~= kw_is_defined());
    }
    if let Some((a, b, q)) = call2(src, p, "update", true, false) {
        return Some((node2(3, a, b), q));
    }
    if let Some((a, b, q)) = call2(src, p, "default", false, true) {
        return Some((node2(4, a, b), q));
    }
    if let Some((a, q)) = call1(src, p, "when") {
        return Some((node1(4, a), q));
    }
    if let Some((a, q)) = call1(src, p, "is_defined") {
        return Some((node1(5, a), q));
    }
    if let Some((es, q)) = sexpr_list(src, p) {
        let ghost esv = sexprs_view(es@);
        let e = SExpr::List(es);
        proof {
            assert(e@->List_0 =~= esv);
        }
        return Some((e, q));
    }
    let e = alnum(&src.chars, p);
    if e > p {
        let name = VarName::new(src.text.substring_char(p, e));
        return Some((SExpr::Var(name), e));
    }
    paren(src, p)
}

/// `(` expression `)` read at `p`.
pub fn paren(src: &Source, p: usize) -> (res: Option<(SExpr, usize)>)
    requires
        src.wf(),
        p <= src.chars.len(),
    ensures
        match res {
            Some((e, q)) => paren_spec(src.chars@, p as int) == Some((e@, q as int)) && p <= q
                <= src.chars.len(),
            None => paren_spec(src.chars@, p as int) is None,
        },
    decreases src.chars.len() - p, 6int,
{
    let s = &src.chars;
    if p < s.len() && s[p] == '(' {
        match sexpr(src, p + 1) {
            Some((e, q)) => {
                if q < s.len() && s[q] == ')' {
                    Some((e, q + 1))
                } else {
                    None
                }
            },
            None => None,
        }
    } else {
        None
    }
}

/// `!` then an atom, read at `p`.
pub fn not_expr(src: &Source, p: usize) -> (res: Option<(SExpr, usize)>)
    requires
        src.wf(),
        p <= src.chars.len(),
    ensures
        match res {
            Some((e, q)) => not_spec(src.chars@, p as int) == Some((e@, q as int)) && p <= q
                <= src.chars.len(),
            None => not_spec(src.chars@, p as int) is None,
        },
    decreases src.chars.len() - p, 8int,
{
    let s = &src.chars;
    if p < s.len() && s[p] == '!' {
        let r = loop_ms_or_lb_or_lc(s, p + 1);
        match atom(src, r) {
            Some((e, q)) => {
                let ghost ev = e@;
                let n = SExpr::Not(Box::new(e));
                proof {
                    assert(n@ == SExprV::Not(Box::new(ev)));
                }
                Some((n, q))
            },
            None => None,
        }
    } else {
        None
    }
}

/// `kw ( e )` read at `p` (see `call1_spec`).
pub fn call1(src: &Source, p: usize, kw: &str) -> (res: Option<(SExpr, usize)>)
    requires
        src.wf(),
        p <= src.chars.len(),
    ensures
        match res {
            Some((e, q)) => call1_spec(src.chars@, p as int, kw@) == Some((e@, q as int)) && p <= q
                <= src.chars.len(),
            None => call1_spec(src.chars@, p as int, kw@) is None,
        },
    decreases src.chars.len() - p, 8int,
{
    let s = &src.chars;
    let n = kw.unicode_len();
    if n == 0 || !lit(s, p, kw) {
        return None;
    }
    let a = loop_ms_or_lb_or_lc(s, p + n);
    if !(a < s.len() && s[a] == '(') {
        return None;
    }
    let b = loop_ms_or_lb_or_lc(s, a + 1);
    match sexpr(src, b) {
        Some((e, q)) => {
            let c = loop_ms_or_lb_or_lc(s, q);
            if c < s.len() && s[c] == ')' {
                Some((e, c + 1))
            } else {
                None
            }
        },
        None => None,
    }
}

/// `kw ( e1 , e2 )` read at `p` (see `call2_spec`).
pub fn call2(src: &Source, p: usize, kw: &str, skip_kw: bool, skip_open: bool) -> (res: Option<
    (SExpr, SExpr, usize),
>)
    requires
        src.wf(),
        p <= src.chars.len(),
    ensures
        match res {
            Some((e1, e2, q)) => call2_spec(src.chars@, p as int, kw@, skip_kw, skip_open) == Some(
                (e1@, e2@, q as int),
            ) && p <= q <= src.chars.len(),
            None => call2_spec(src.chars@, p as int, kw@, skip_kw, skip_open) is None,
        },
    decreases src.chars.len() - p, 8int,
{
    let s = &src.chars;
    let n = kw.unicode_len();
    if n == 0 || !lit(s, p, kw) {
        return None;
    }
    let a = if skip_kw {
        loop_ms_or_lb_or_lc(s, p + n)
    } else {
        p + n
    };
    if !(a < s.len() && s[a] == '(') {
        return None;
    }
    let b = if skip_open {
        loop_ms_or_lb_or_lc(s, a + 1)
    } else {
        a + 1
    };
    let (e1, q1) = match sexpr(src, b) {
        Some(r) => r,
        None => {
            return None;
        },
    };
    let c = loop_ms_or_lb_or_lc(s, q1);
    if !(c < s.len() && s[c] == ',') {
        return None;
    }
    let d = loop_ms_or_lb_or_lc(s, c + 1);
    let (e2, q2) = match sexpr(src, d) {
        Some(r) => r,
        None => {
            return None;
        },
    };
    let f = loop_ms_or_lb_or_lc(s, q2);
    if f < s.len() && s[f] == ')' {
        Some((e1, e2, f + 1))
    } else {
        None
    }
}

/// Whitespace, `kw`, then an expression (see `kw_then_sexpr`).
fn kw_sexpr(src: &Source, p: usize, kw: &str, first: bool) -> (res: Option<(SExpr, usize)>)
    requires
        src.wf(),
        p <= src.chars.len(),
    ensures
        match res {
            Some((e, q)) => kw_then_sexpr(src.chars@, p as int, kw@, first) == Some((e@, q as int))
                && p <= q <= src.chars.len(),
            None => kw_then_sexpr(src.chars@, p as int, kw@, first) is None,
        },
    decreases src.chars.len() - p, 7int,
{
    let s = &src.chars;
    let a = if first {
        ws(s, p)
    } else {
        loop_ms_or_lb_or_lc(s, p)
    };
    let n = kw.unicode_len();
    if n == 0 || !lit(s, a, kw) {
        return None;
    }
    let b = loop_ms_or_lb_or_lc(s, a + n);
    sexpr(src, b)
}

/// `if c then t else f` read at `p`.
pub fn ifelse(src: &Source, p: usize) -> (res: Option<(SExpr, usize)>)
    requires
        src.wf(),
        p <= src.chars.len(),
    ensures
        match res {
            Some((e, q)) => ifelse_spec(src.chars@, p as int) == Some((e@, q as int)) && p <= q
                <= src.chars.len(),
            None => ifelse_spec(src.chars@, p as int) is None,
        },
    decreases src.chars.len() - p, 8int,
{
    proof {
        reveal_strlit("if");
        reveal_strlit("then");
        reveal_strlit("else");
        assert("if"@ =~= kw_if());
        assert("then"@ =~= kw_then());
        assert("else"@ =~= kw_else());
    }
    let (c, q1) = match kw_sexpr(src, p, "if", true) {
        Some(r) => r,
        None => {
            return None;
        },
    };
    let (t, q2) = match kw_sexpr(src, q1, "then", false) {
        Some(r) => r,
        None => {
            return None;
        },
    };
    let (f, q3) = match kw_sexpr(src, q2, "else", false) {
        Some(r) => r,
        None => {
            return None;
        },
    };
    let ghost cv = c@;
    let ghost tv = t@;
    let ghost fv = f@;
    let e = SExpr::If(Box::new(c), Box::new(t), Box::new(f));
    proof {
        assert(e@ == SExprV::If(Box::new(cv), Box::new(tv), Box::new(fv)));
    }
    Some((e, q3))
}

/// A decimal integer at `p` that fits in an `isize`.
pub fn isize_at(s: &Vec<char>, p: usize) -> (res: Option<(isize, usize)>)
    requires
        p <= s.len(),
    ensures
        match res {
            Some((v, e)) => isize_lit(s@, p as int) == Some((v, e as int)) && p < e <= s.len(),
            None => isize_lit(s@, p as int) is None,
        },
{
    match int_at(s, p) {
        Some((v, e)) => {
            if (isize::MIN as i128) <= (v as i128) && (v as i128) <= (isize::MAX as i128) {
                Some((v as isize, e))
            } else {
                None
            }
        },
        None => {
            proof {
                if let Some((v, e)) = int_lit(s@, p as int) {
                    assert(!(i64::MIN <= v <= i64::MAX));
                }
            }
            None
        },
    }
}

/// The stream of a stream index, read at `p`.
fn sindex_base(src: &Source, p: usize) -> (res: Option<(SExpr, usize)>)
    requires
        src.wf(),
        p <= src.chars.len(),
    ensures
        match res {
            Some((e, q)) => sindex_base_spec(src.chars@, p as int) == Some((e@, q as int)) && p
                <= q <= src.chars.len(),
            None => sindex_base_spec(src.chars@, p as int) is None,
        },
    decreases src.chars.len() - p, 7int,
{
    if let Some((v, q)) = val(src, p) {
        let ghost vv = v@;
        let e = SExpr::Val(v);
        proof {
            assert(e@ == SExprV::Val(vv));
        }
        return Some((e, q));
    }
    let e = alnum(&src.chars, p);
    if e > p {
        let name = VarName::new(src.text.substring_char(p, e));
        return Some((SExpr::Var(name), e));
    }
    paren(src, p)
}

/// `e[i, d]` read at `p` (see `sindex_spec`).
pub fn sindex(src: &Source, p: usize) -> (res: Option<(SExpr, usize)>)
    requires
        src.wf(),
        p <= src.chars.len(),
    ensures
        match res {
            Some((e, q)) => sindex_spec(src.chars@, p as int) == Some((e@, q as int)) && p <= q
                <= src.chars.len(),
            None => sindex_spec(src.chars@, p as int) is None,
        },
    decreases src.chars.len() - p, 8int,
{
    let s = &src.chars;
    let (e, q) = match sindex_base(src, p) {
        Some(r) => r,
        None => {
            return None;
        },
    };
    let a = loop_ms_or_lb_or_lc(s, q);
    if !(a < s.len() && s[a] == '[') {
        return None;
    }
    let b = loop_ms_or_lb_or_lc(s, a + 1);
    let (i, q2) = match isize_at(s, b) {
        Some(r) => r,
        None => {
            return None;
        },
    };
    let c = loop_ms_or_lb_or_lc(s, q2);
    if c < s.len() && s[c] == ']' {
        let ghost ev = e@;
        let node = SExpr::SIndex(Box::new(e), i, Value::Unknown);
        proof {
            assert(node@ == SExprV::SIndex(Box::new(ev), i, ValueV::Unknown));
        }
        return Some((node, c + 1));
    }
    if !(c < s.len() && s[c] == ',') {
        return None;
    }
    let d = loop_ms_or_lb_or_lc(s, c + 1);
    let (v, q3) = match val(src, d) {
        Some(r) => r,
        None => {
            return None;
        },
    };
    let f = loop_ms_or_lb_or_lc(s, q3);
    if f < s.len() && s[f] == ']' {
        let ghost ev = e@;
        let ghost vv = v@;
        let node = SExpr::SIndex(Box::new(e), i, v);
        proof {
            assert(node@ == SExprV::SIndex(Box::new(ev), i, vv));
        }
        Some((node, f + 1))
    } else {
        None
    }
}

/// `List(e, ...)` read at `p` (see `sexpr_list_spec`).
pub fn sexpr_list(src: &Source, p: usize) -> (res: Option<(Vec<SExpr>, usize)>)
    requires
        src.wf(),
        p <= src.chars.len(),
    ensures
        match res {
            Some((es, q)) => sexpr_list_spec(src.chars@, p as int) == Some(
                (sexprs_view(es@), q as int),
            ) && p <= q <= src.chars.len(),
            None => sexpr_list_spec(src.chars@, p as int) is None,
        },
    decreases src.chars.len() - p, 8int,
{
    let s = &src.chars;
    proof {
        reveal_strlit("List");
        assert("List"@ =~= kw_list());
    }
    if !lit(s, p, "List") {
        return None;
    }
    let a = loop_ms_or_lb_or_lc(s, p + 4);
    if !(a < s.len() && s[a] == '(') {
        return None;
    }
    let (es, r) = match sexpr(src, a + 1) {
        None => (Vec::new(), a + 1),
        Some((e, q)) => {
            let mut first: Vec<SExpr> = Vec::new();
            first.push(e);
            proof {
                assert(sexprs_view(first@) =~= seq![first@[0]@]);
            }
            sexpr_items(src, first, q)
        },
    };
    proof {
        if es.len() == 0 {
            assert(sexprs_view(es@) =~= Seq::<SExprV>::empty());
        }
    }
    if r < s.len() && s[r] == ')' {
        Some((es, r + 1))
    } else {
        None
    }
}

/// The remaining expressions of an expression list.
pub fn sexpr_items(src: &Source, acc: Vec<SExpr>, r: usize) -> (res: (Vec<SExpr>, usize))
    requires
        src.wf(),
        r <= src.chars.len(),
    ensures
        sexpr_items_spec(src.chars@, sexprs_view(acc@), r as int) == (sexprs_view(res.0@), res.1 as int),
        r <= res.1 <= src.chars.len(),
    decreases src.chars.len() - r, 8int,
{
    let s = &src.chars;
    let c = loop_ms_or_lb_or_lc(s, r);
    if c < s.len() && s[c] == ',' {
        let d = loop_ms_or_lb_or_lc(s, c + 1);
        match sexpr(src, d) {
            Some((e, q)) => {
                let ghost ev = e@;
                let mut acc2 = acc;
                acc2.push(e);
                proof {
                    assert(sexprs_view(acc2@) =~= sexprs_view(acc@).push(ev));
                }
                sexpr_items(src, acc2, q)
            },
            None => (acc, r),
        }
    } else {
        (acc, r)
    }
}

/// Reads an expression from the start of a text: the expression and the number
/// of characters read.
pub fn lola_expression(text: &str) -> (res: Option<(SExpr, usize)>)
    ensures
        match res {
            Some((e, q)) => sexpr_spec(text@, 0) == Some((e@, q as int)),
            None => sexpr_spec(text@, 0) is None,
        },
{
    let src = Source::new(text);
    sexpr(&src, 0)
}

// ---------------------------------------------------------------------------
// Specifications.
// ---------------------------------------------------------------------------

/// A line break with spaces and tabs around it, at `p`.
pub open spec fn linebreak_spec(s: Seq<char>, p: int) -> Option<int> {
    let p1 = ws_end(s, p);
    if !fwd(s, p, p1) {
        None
    } else if lit_at(s, p1, seq!['\n']) {
        Some(ws_end(s, p1 + 1))
    } else if lit_at(s, p1, seq!['\r', '\n']) {
        Some(ws_end(s, p1 + 2))
    } else {
        None
    }
}

/// A `//` comment at `p` (after spaces and tabs): up to and including the
/// next line feed, or just the `//` when no line feed follows.
pub open spec fn line_comment_spec(s: Seq<char>, p: int) -> Option<int> {
    let p1 = ws_end(s, p);
    if fwd(s, p, p1) && lit_at(s, p1, seq!['/', '/']) {
        match next_newline(s, p1 + 2) {
            Some(n) => Some(ws_end(s, n + 1)),
            None => Some(ws_end(s, p1 + 2)),
        }
    } else {
        None
    }
}

/// A line break or a comment, at `p`.
pub open spec fn lb_or_lc_spec(s: Seq<char>, p: int) -> Option<int> {
    match linebreak_spec(s, p) {
        Some(q) => Some(q),
        None => line_comment_spec(s, p),
    }
}

/// The type names of type annotations.
pub open spec fn stream_type_keyword(t: StreamType) -> Seq<char> {
    match t {
        StreamType::Int => seq!['I', 'n', 't'],
        StreamType::Float => seq!['F', 'l', 'o', 'a', 't'],
        StreamType::Bool => seq!['B', 'o', 'o', 'l'],
        StreamType::Str => seq!['S', 't', 'r'],
        StreamType::Unit => seq!['U', 'n', 'i', 't'],
    }
}

/// `: Type` at `p`, with spaces around.
pub open spec fn type_annotation_spec(s: Seq<char>, p: int) -> Option<(StreamType, int)> {
    let p1 = ws_end(s, p);
    if fwd(s, p, p1) && lit_at(s, p1, seq![':']) {
        let a = skip_end(s, p1 + 1);
        if !fwd(s, p1 + 1, a) {
            None
        } else if lit_at(s, a, stream_type_keyword(StreamType::Int)) {
            Some((StreamType::Int, ws_end(s, a + 3)))
        } else if lit_at(s, a, stream_type_keyword(StreamType::Float)) {
            Some((StreamType::Float, ws_end(s, a + 5)))
        } else if lit_at(s, a, stream_type_keyword(StreamType::Bool)) {
            Some((StreamType::Bool, ws_end(s, a + 4)))
        } else if lit_at(s, a, stream_type_keyword(StreamType::Str)) {
            Some((StreamType::Str, ws_end(s, a + 3)))
        } else if lit_at(s, a, stream_type_keyword(StreamType::Unit)) {
            Some((StreamType::Unit, ws_end(s, a + 4)))
        } else {
            None
        }
    } else {
        None
    }
}

/// A declaration `kw name` with an optional type annotation, at `p`.
pub open spec fn decl_spec(s: Seq<char>, p: int, kw: Seq<char>) -> Option<
    (Seq<char>, Option<StreamType>, int),
> {
    let p1 = ws_end(s, p);
    if fwd(s, p, p1) && kw.len() > 0 && lit_at(s, p1, kw) {
        let a = skip_end(s, p1 + kw.len());
        let e = alnum_end(s, a);
        if fwd(s, p1 + kw.len(), a) && e > a {
            match type_annotation_spec(s, e) {
                Some((t, q)) => Some((s.subrange(a, e), Some(t), ws_end(s, q))),
                None => Some((s.subrange(a, e), None, ws_end(s, e))),
            }
        } else {
            None
        }
    } else {
        None
    }
}

/// Declarations with keyword `kw`, separated by line breaks or comments.
pub open spec fn decls_spec(s: Seq<char>, p: int, kw: Seq<char>) -> (
    Seq<(Seq<char>, Option<StreamType>)>,
    int,
) {
    match decl_spec(s, p, kw) {
        Some((n, t, q)) => if fwd(s, p, q) {
            decls_rest_spec(s, kw, seq![(n, t)], q)
        } else {
            (Seq::empty(), p)
        },
        None => (Seq::empty(), p),
    }
}

/// The declarations after the first.
pub open spec fn decls_rest_spec(
    s: Seq<char>,
    kw: Seq<char>,
    acc: Seq<(Seq<char>, Option<StreamType>)>,
    r: int,
) -> (Seq<(Seq<char>, Option<StreamType>)>, int)
    decreases s.len() - r,
{
    match lb_or_lc_spec(s, r) {
        Some(r2) => {
            let c = skip_end(s, r2);
            if r < r2 && fwd(s, r2, c) {
                match decl_spec(s, c, kw) {
                    Some((n, t, q)) => if c <= q <= s.len() {
                        decls_rest_spec(s, kw, acc.push((n, t)), q)
                    } else {
                        (acc, r)
                    },
                    None => (acc, r),
                }
            } else {
                (acc, r)
            }
        },
        None => (acc, r),
    }
}

/// `name = expression` at `p`.
pub open spec fn var_decl_spec(s: Seq<char>, p: int) -> Option<(Seq<char>, SExprV, int)> {
    let p1 = ws_end(s, p);
    let e = alnum_end(s, p1);
    if fwd(s, p, p1) && e > p1 {
        let a = skip_end(s, e);
        if fwd(s, e, a) && lit_at(s, a, seq!['=']) {
            let b = skip_end(s, a + 1);
            if fwd(s, a + 1, b) {
                match sexpr_spec(s, b) {
                    Some((x, q)) => Some((s.subrange(p1, e), x, ws_end(s, q))),
                    None => None,
                }
            } else {
                None
            }
        } else {
            None
        }
    } else {
        None
    }
}

/// Definitions `name = expression`, separated by line breaks or comments.
pub open spec fn var_decls_spec(s: Seq<char>, p: int) -> (Seq<(Seq<char>, SExprV)>, int) {
    match var_decl_spec(s, p) {
        Some((n, x, q)) => if fwd(s, p, q) {
            var_decls_rest_spec(s, seq![(n, x)], q)
        } else {
            (Seq::empty(), p)
        },
        None => (Seq::empty(), p),
    }
}

/// The definitions after the first.
pub open spec fn var_decls_rest_spec(s: Seq<char>, acc: Seq<(Seq<char>, SExprV)>, r: int) -> (
    Seq<(Seq<char>, SExprV)>,
    int,
)
    decreases s.len() - r,
{
    match lb_or_lc_spec(s, r) {
        Some(r2) => {
            let c = skip_end(s, r2);
            if r < r2 && fwd(s, r2, c) {
                match var_decl_spec(s, c) {
                    Some((n, x, q)) => if c <= q <= s.len() {
                        var_decls_rest_spec(s, acc.push((n, x)), q)
                    } else {
                        (acc, r)
                    },
                    None => (acc, r),
                }
            } else {
                (acc, r)
            }
        },
        None => (acc, r),
    }
}

/// A map from names as a list: `m` with `n` bound to `x` (replacing an
/// earlier binding of `n` in place, else added at the end).
pub open spec fn bind<X>(m: Seq<(Seq<char>, X)>, n: Seq<char>, x: X) -> Seq<(Seq<char>, X)> {
    match crate::runtime::stream_index(m, n, 0) {
        Some(i) => m.update(i, (n, x)),
        None => m.push((n, x)),
    }
}

/// The bindings of a list of definitions, later definitions of a name winning.
pub open spec fn bind_all<X>(m: Seq<(Seq<char>, X)>, defs: Seq<(Seq<char>, X)>) -> Seq<(Seq<char>, X)>
    decreases defs.len(),
{
    if defs.len() == 0 {
        m
    } else {
        bind(bind_all(m, defs.drop_last()), defs.last().0, defs.last().1)
    }
}

/// Binding names one by one, starting from no bindings, binds each name once.
proof fn lemma_bind_all_distinct<X>(defs: Seq<(Seq<char>, X)>)
    ensures
        crate::runtime::names_distinct(bind_all(Seq::<(Seq<char>, X)>::empty(), defs)),
    decreases defs.len(),
{
    if defs.len() > 0 {
        lemma_bind_all_distinct(defs.drop_last());
        let m = bind_all(Seq::<(Seq<char>, X)>::empty(), defs.drop_last());
        let n = defs.last().0;
        let p = bind(m, n, defs.last().1);
        crate::runtime::lemma_stream_index_range(m, n, 0);
        assert forall|a: int, b: int| 0 <= a < b < p.len() implies #[trigger] p[a].0 != #[trigger] p[b].0 by {
            match crate::runtime::stream_index(m, n, 0) {
                Some(i) => {
                    assert(p[a].0 == m[a].0 && p[b].0 == m[b].0);
                },
                None => {
                    assert(p[a] == m[a]);
                    if b < m.len() {
                        assert(p[b] == m[b]);
                    }
                },
            }
        }
    }
}

/// The type annotations of a list of declarations.
pub open spec fn annotated(decls: Seq<(Seq<char>, Option<StreamType>)>) -> Seq<(Seq<char>, StreamType)>
    decreases decls.len(),
{
    if decls.len() == 0 {
        Seq::empty()
    } else {
        let rest = annotated(decls.drop_last());
        match decls.last().1 {
            Some(t) => rest.push((decls.last().0, t)),
            None => rest,
        }
    }
}

/// The names of a list of declarations.
pub open spec fn decl_names(decls: Seq<(Seq<char>, Option<StreamType>)>) -> Seq<Seq<char>> {
    Seq::new(decls.len(), |i: int| decls[i].0)
}

/// The model of a specification read from a text.
pub struct SpecV {
    pub inputs: Seq<Seq<char>>,
    pub outputs: Seq<Seq<char>>,
    pub exprs: Seq<(Seq<char>, SExprV)>,
    pub types: Seq<(Seq<char>, StreamType)>,
}

/// A specification at the start of `s`: input declarations, output
/// declarations, then definitions, with whitespace and comments between.
pub open spec fn lola_spec(s: Seq<char>) -> (SpecV, int) {
    let a = skip_end(s, 0);
    let (ins, q1) = decls_spec(s, a, seq!['i', 'n']);
    let b = skip_end(s, q1);
    let (outs, q2) = decls_spec(s, b, seq!['o', 'u', 't']);
    let c = skip_end(s, q2);
    let (defs, q3) = var_decls_spec(s, c);
    (
        SpecV {
            inputs: decl_names(ins),
            outputs: decl_names(outs),
            exprs: bind_all(Seq::empty(), defs),
            types: bind_all(Seq::empty(), annotated(ins + outs)),
        },
        skip_end(s, q3),
    )
}

/// A line break at `p` (see `linebreak_spec`).
pub fn linebreak(s: &Vec<char>, p: usize) -> (res: Option<usize>)
    requires
        p <= s.len(),
    ensures
        match res {
            Some(q) => linebreak_spec(s@, p as int) == Some(q as int) && p < q <= s.len(),
            None => linebreak_spec(s@, p as int) is None,
        },
{
    proof {
        reveal_strlit("\n");
        reveal_strlit("\r\n");
        assert("\n"@ =~= seq!['\n']);
        assert("\r\n"@ =~= seq!['\r', '\n']);
    }
    let p1 = ws(s, p);
    if lit(s, p1, "\n") {
        Some(ws(s, p1 + 1))
    } else if lit(s, p1, "\r\n") {
        Some(ws(s, p1 + 2))
    } else {
        None
    }
}

/// A comment at `p` (see `line_comment_spec`).
pub fn line_comment(s: &Vec<char>, p: usize) -> (res: Option<usize>)
    requires
        p <= s.len(),
    ensures
        match res {
            Some(q) => line_comment_spec(s@, p as int) == Some(q as int) && p < q <= s.len(),
            None => line_comment_spec(s@, p as int) is None,
        },
{
    proof {
        reveal_strlit("//");
        assert("//"@ =~= seq!['/', '/']);
    }
    let p1 = ws(s, p);
    if lit(s, p1, "//") {
        match find_newline(s, p1 + 2) {
            Some(n) => Some(ws(s, n + 1)),
            None => Some(ws(s, p1 + 2)),
        }
    } else {
        None
    }
}

/// A line break or comment at `p` (see `lb_or_lc_spec`).
pub fn lb_or_lc(s: &Vec<char>, p: usize) -> (res: Option<usize>)
    requires
        p <= s.len(),
    ensures
        match res {
            Some(q) => lb_or_lc_spec(s@, p as int) == Some(q as int) && p < q <= s.len(),
            None => lb_or_lc_spec(s@, p as int) is None,
        },
{
    match linebreak(s, p) {
        Some(q) => Some(q),
        None => line_comment(s, p),
    }
}

/// A type annotation at `p` (see `type_annotation_spec`).
fn type_annotation(s: &Vec<char>, p: usize) -> (res: Option<(StreamType, usize)>)
    requires
        p <= s.len(),
    ensures
        match res {
            Some((t, q)) => type_annotation_spec(s@, p as int) == Some((t, q as int)) && p < q
                <= s.len(),
            None => type_annotation_spec(s@, p as int) is None,
        },
{
    proof {
        reveal_strlit(":");
        reveal_strlit("Int");
        reveal_strlit("Float");
        reveal_strlit("Bool");
        reveal_strlit("Str");
        reveal_strlit("Unit");
        assert(":"@ =~= seq![':']);
        assert("Int"@ =~= stream_type_keyword(StreamType::Int));
        assert("Float"@ =~= stream_type_keyword(StreamType::Float));
        assert("Bool"@ =~= stream_type_keyword(StreamType::Bool));
        assert("Str"@ =~= stream_type_keyword(StreamType::Str));
        assert("Unit"@ =~= stream_type_keyword(StreamType::Unit));
    }
    let p1 = ws(s, p);
    if !lit(s, p1, ":") {
        return None;
    }
    let a = loop_ms_or_lb_or_lc(s, p1 + 1);
    if lit(s, a, "Int") {
        Some((StreamType::Int, ws(s, a + 3)))
    } else if lit(s, a, "Float") {
        Some((StreamType::Float, ws(s, a + 5)))
    } else if lit(s, a, "Bool") {
        Some((StreamType::Bool, ws(s, a + 4)))
    } else if lit(s, a, "Str") {
        Some((StreamType::Str, ws(s, a + 3)))
    } else if lit(s, a, "Unit") {
        Some((StreamType::Unit, ws(s, a + 4)))
    } else {
        None
    }
}

/// A declaration with keyword `kw` at `p` (see `decl_spec`).
fn decl(src: &Source, p: usize, kw: &str) -> (res: Option<(VarName, Option<StreamType>, usize)>)
    requires
        src.wf(),
        p <= src.chars.len(),
    ensures
        match res {
            Some((n, t, q)) => decl_spec(src.chars@, p as int, kw@) == Some((n@, t, q as int)) && p
                < q <= src.chars.len(),
            None => decl_spec(src.chars@, p as int, kw@) is None,
        },
{
    let s = &src.chars;
    let p1 = ws(s, p);
    let k = kw.unicode_len();
    if k == 0 || !lit(s, p1, kw) {
        return None;
    }
    let a = loop_ms_or_lb_or_lc(s, p1 + k);
    let e = alnum(s, a);
    if e <= a {
        return None;
    }
    let name = VarName::new(src.text.substring_char(a, e));
    match type_annotation(s, e) {
        Some((t, q)) => Some((name, Some(t), ws(s, q))),
        None => Some((name, None, ws(s, e))),
    }
}

/// The model of a list of declarations.
pub open spec fn decls_view(ds: Seq<(VarName, Option<StreamType>)>) -> Seq<(Seq<char>, Option<StreamType>)> {
    Seq::new(ds.len(), |i: int| (ds[i].0@, ds[i].1))
}

/// Declarations with keyword `kw` at `p` (see `decls_spec`).
fn decls(src: &Source, p: usize, kw: &str) -> (res: (Vec<(VarName, Option<StreamType>)>, usize))
    requires
        src.wf(),
        p <= src.chars.len(),
    ensures
        decls_spec(src.chars@, p as int, kw@) == (decls_view(res.0@), res.1 as int),
        p <= res.1 <= src.chars.len(),
{
    let s = &src.chars;
    let mut acc: Vec<(VarName, Option<StreamType>)> = Vec::new();
    let (n, t, q) = match decl(src, p, kw) {
        Some(d) => d,
        None => {
            proof {
                assert(decls_view(acc@) =~= Seq::<(Seq<char>, Option<StreamType>)>::empty());
            }
            return (acc, p);
        },
    };
    acc.push((n, t));
    proof {
        assert(decls_view(acc@) =~= seq![(acc@[0].0@, t)]);
    }
    let mut r = q;
    loop
        invariant
            src.wf(),
            p < r <= s.len(),
            s == &src.chars,
            decls_spec(src.chars@, p as int, kw@) == decls_rest_spec(
                src.chars@,
                kw@,
                decls_view(acc@),
                r as int,
            ),
        decreases s.len() - r,
    {
        let r2 = match lb_or_lc(s, r) {
            Some(r2) => r2,
            None => {
                return (acc, r);
            },
        };
        let c = loop_ms_or_lb_or_lc(s, r2);
        match decl(src, c, kw) {
            Some((n, t, q2)) => {
                let ghost before = decls_view(acc@);
                acc.push((n, t));
                proof {
                    assert(decls_view(acc@) =~= before.push((acc@[acc.len() - 1].0@, t)));
                }
                r = q2;
            },
            None => {
                return (acc, r);
            },
        }
    }
}

/// A definition at `p` (see `var_decl_spec`).
fn var_decl(src: &Source, p: usize) -> (res: Option<(VarName, SExpr, usize)>)
    requires
        src.wf(),
        p <= src.chars.len(),
    ensures
        match res {
            Some((n, x, q)) => var_decl_spec(src.chars@, p as int) == Some((n@, x@, q as int)) && p
                < q <= src.chars.len(),
            None => var_decl_spec(src.chars@, p as int) is None,
        },
{
    proof {
        reveal_strlit("=");
        assert("="@ =~= seq!['=']);
    }
    let s = &src.chars;
    let p1 = ws(s, p);
    let e = alnum(s, p1);
    if e <= p1 {
        return None;
    }
    let a = loop_ms_or_lb_or_lc(s, e);
    if !lit(s, a, "=") {
        return None;
    }
    let b = loop_ms_or_lb_or_lc(s, a + 1);
    match sexpr(src, b) {
        Some((x, q)) => {
            let name = VarName::new(src.text.substring_char(p1, e));
            Some((name, x, ws(s, q)))
        },
        None => None,
    }
}

/// Definitions at `p` (see `var_decls_spec`).
fn var_decls(src: &Source, p: usize) -> (res: (Vec<(VarName, SExpr)>, usize))
    requires
        src.wf(),
        p <= src.chars.len(),
    ensures
        var_decls_spec(src.chars@, p as int) == (exprs_view(res.0@), res.1 as int),
        p <= res.1 <= src.chars.len(),
{
    let s = &src.chars;
    let mut acc: Vec<(VarName, SExpr)> = Vec::new();
    let (n, x, q) = match var_decl(src, p) {
        Some(d) => d,
        None => {
            proof {
                assert(exprs_view(acc@) =~= Seq::<(Seq<char>, SExprV)>::empty());
            }
            return (acc, p);
        },
    };
    let ghost nx = (n@, x@);
    acc.push((n, x));
    proof {
        assert(exprs_view(acc@) =~= seq![nx]);
    }
    let mut r = q;
    loop
        invariant
            src.wf(),
            p < r <= s.len(),
            s == &src.chars,
            var_decls_spec(src.chars@, p as int) == var_decls_rest_spec(
                src.chars@,
                exprs_view(acc@),
                r as int,
            ),
        decreases s.len() - r,
    {
        let r2 = match lb_or_lc(s, r) {
            Some(r2) => r2,
            None => {
                return (acc, r);
            },
        };
        let c = loop_ms_or_lb_or_lc(s, r2);
        match var_decl(src, c) {
            Some((n, x, q2)) => {
                let ghost before = exprs_view(acc@);
                let ghost nx = (n@, x@);
                acc.push((n, x));
                proof {
                    assert(exprs_view(acc@) =~= before.push(nx));
                }
                r = q2;
            },
            None => {
                return (acc, r);
            },
        }
    }
}

/// The position of the first binding of `n`.
fn find_binding<X>(m: &Vec<(VarName, X)>, n: &VarName) -> (res: Option<usize>)
    ensures
        match res {
            Some(i) => crate::runtime::stream_index(Seq::new(m.len() as nat, |j: int| (m@[j].0@, ())), n@, 0)
                == Some(i as int) && i < m.len(),
            None => crate::runtime::stream_index(Seq::new(m.len() as nat, |j: int| (m@[j].0@, ())), n@, 0) is None,
        },
{
    let ghost keys = Seq::new(m.len() as nat, |j: int| (m@[j].0@, ()));
    let mut i: usize = 0;
    while i < m.len()
        invariant
            i <= m.len(),
            keys == Seq::new(m.len() as nat, |j: int| (m@[j].0@, ())),
            crate::runtime::stream_index(keys, n@, 0) == crate::runtime::stream_index(keys, n@, i as int),
        decreases m.len() - i,
    {
        if m[i].0.equals(n) {
            return Some(i);
        }
        i = i + 1;
    }
    None
}

proof fn lemma_index_keys<X, Y>(a: Seq<(Seq<char>, X)>, b: Seq<(Seq<char>, Y)>, n: Seq<char>, k: int)
    requires
        a.len() == b.len(),
        forall|j: int| 0 <= j < a.len() ==> a[j].0 == b[j].0,
    ensures
        crate::runtime::stream_index(a, n, k) == crate::runtime::stream_index(b, n, k),
    decreases a.len() - k,
{
    if 0 <= k < a.len() {
        lemma_index_keys(a, b, n, k + 1);
    }
}

/// Binds `n` to `x` in a list of definitions (see `bind`).
fn bind_expr(m: &mut Vec<(VarName, SExpr)>, n: VarName, x: SExpr)
    ensures
        exprs_view(final(m)@) == bind(exprs_view(old(m)@), n@, x@),
{
    let ghost mv = exprs_view(m@);
    let ghost nx = (n@, x@);
    proof {
        lemma_index_keys(Seq::new(m.len() as nat, |j: int| (m@[j].0@, ())), mv, n@, 0);
    }
    match find_binding(m, &n) {
        Some(i) => {
            m.set(i, (n, x));
            proof {
                assert(exprs_view(m@) =~= mv.update(i as int, nx));
            }
        },
        None => {
            m.push((n, x));
            proof {
                assert(exprs_view(m@) =~= mv.push(nx));
            }
        },
    }
}

/// Binds `n` to `t` in a list of type annotations (see `bind`).
fn bind_type(m: &mut Vec<(VarName, StreamType)>, n: VarName, t: StreamType)
    ensures
        annotations_view(final(m)@) == bind(annotations_view(old(m)@), n@, t),
{
    let ghost mv = annotations_view(m@);
    let ghost nt = (n@, t);
    proof {
        lemma_index_keys(Seq::new(m.len() as nat, |j: int| (m@[j].0@, ())), mv, n@, 0);
    }
    match find_binding(m, &n) {
        Some(i) => {
            m.set(i, (n, t));
            proof {
                assert(annotations_view(m@) =~= mv.update(i as int, nt));
            }
        },
        None => {
            m.push((n, t));
            proof {
                assert(annotations_view(m@) =~= mv.push(nt));
            }
        },
    }
}

/// The input names, output names and type annotations of the declarations.
fn decl_parts(
    ins: &Vec<(VarName, Option<StreamType>)>,
    outs: &Vec<(VarName, Option<StreamType>)>,
) -> (res: (Vec<VarName>, Vec<VarName>, Vec<(VarName, StreamType)>))
    ensures
        names_view(res.0@) == decl_names(decls_view(ins@)),
        names_view(res.1@) == decl_names(decls_view(outs@)),
        annotations_view(res.2@) == bind_all(
            Seq::empty(),
            annotated(decls_view(ins@) + decls_view(outs@)),
        ),
{
    let mut input_vars: Vec<VarName> = Vec::new();
    let mut output_vars: Vec<VarName> = Vec::new();
    let mut types: Vec<(VarName, StreamType)> = Vec::new();
    let ghost all = decls_view(ins@) + decls_view(outs@);
    let mut i: usize = 0;
    while i < ins.len()
        invariant
            i <= ins.len(),
            all == decls_view(ins@) + decls_view(outs@),
            input_vars.len() == i,
            forall|j: int| 0 <= j < i ==> (#[trigger] input_vars@[j])@ == ins@[j].0@,
            annotations_view(types@) == bind_all(Seq::empty(), annotated(all.take(i as int))),
        decreases ins.len() - i,
    {
        proof {
            assert(all.take(i + 1).drop_last() =~= all.take(i as int));
            assert(all.take(i + 1).last() == all[i as int]);
        }
        input_vars.push(ins[i].0.clone());
        let ghost prev = annotated(all.take(i as int));
        match ins[i].1 {
            Some(t) => {
                bind_type(&mut types, ins[i].0.clone(), t);
                proof {
                    assert(annotated(all.take(i + 1)) == prev.push((ins@[i as int].0@, t)));
                    assert(prev.push((ins@[i as int].0@, t)).drop_last() =~= prev);
                }
            },
            None => {
                proof {
                    assert(annotated(all.take(i + 1)) == prev);
                }
            },
        }
        i = i + 1;
    }
    let mut k: usize = 0;
    while k < outs.len()
        invariant
            k <= outs.len(),
            all == decls_view(ins@) + decls_view(outs@),
            output_vars.len() == k,
            forall|j: int| 0 <= j < k ==> (#[trigger] output_vars@[j])@ == outs@[j].0@,
            annotations_view(types@) == bind_all(
                Seq::empty(),
                annotated(all.take(ins.len() + k)),
            ),
        decreases outs.len() - k,
    {
        proof {
            assert(all.take(ins.len() + k + 1).drop_last() =~= all.take(ins.len() + k));
            assert(all.take(ins.len() + k + 1).last() == all[ins.len() + k]);
        }
        output_vars.push(outs[k].0.clone());
        let ghost prev = annotated(all.take(ins.len() + k));
        match outs[k].1 {
            Some(t) => {
                bind_type(&mut types, outs[k].0.clone(), t);
                proof {
                    assert(annotated(all.take(ins.len() + k + 1)) == prev.push((outs@[k as int].0@, t)));
                    assert(prev.push((outs@[k as int].0@, t)).drop_last() =~= prev);
                }
            },
            None => {
                proof {
                    assert(annotated(all.take(ins.len() + k + 1)) == prev);
                }
            },
        }
        k = k + 1;
    }
    proof {
        assert(all.take(ins.len() + outs.len()) =~= all);
        assert(names_view(input_vars@) =~= decl_names(decls_view(ins@)));
        assert(names_view(output_vars@) =~= decl_names(decls_view(outs@)));
    }
    (input_vars, output_vars, types)
}

/// The bindings of a list of definitions, later ones winning.
fn bind_defs(defs: &Vec<(VarName, SExpr)>) -> (res: Vec<(VarName, SExpr)>)
    ensures
        exprs_view(res@) == bind_all(Seq::empty(), exprs_view(defs@)),
{
    let mut exprs: Vec<(VarName, SExpr)> = Vec::new();
    let ghost dv = exprs_view(defs@);
    let mut d: usize = 0;
    while d < defs.len()
        invariant
            d <= defs.len(),
            dv == exprs_view(defs@),
            exprs_view(exprs@) == bind_all(Seq::empty(), dv.take(d as int)),
        decreases defs.len() - d,
    {
        proof {
            assert(dv.take(d + 1).drop_last() =~= dv.take(d as int));
            assert(dv.take(d + 1).last() == dv[d as int]);
        }
        bind_expr(&mut exprs, defs[d].0.clone(), defs[d].1.deep_clone());
        d = d + 1;
    }
    proof {
        assert(dv.take(defs.len() as int) =~= dv);
        if exprs.len() == 0 {
            assert(exprs_view(exprs@) =~= Seq::<(Seq<char>, SExprV)>::empty());
        }
    }
    exprs
}

/// Reads a specification from a text: the specification and the number of
/// characters read. Reading always succeeds; what does not fit the grammar is
/// left unread.
pub fn lola_specification(text: &str) -> (res: (LOLASpecification, usize))
    ensures
        ({
            let (m, q) = lola_spec(text@);
            &&& names_view(res.0.input_vars@) == m.inputs
            &&& names_view(res.0.output_vars@) == m.outputs
            &&& exprs_view(res.0.exprs@) == m.exprs
            &&& annotations_view(res.0.type_annotations@) == m.types
            &&& res.1 == q
        }),
        crate::runtime::names_distinct(exprs_view(res.0.exprs@)),
{
    proof {
        reveal_strlit("in");
        reveal_strlit("out");
        assert("in"@ =~= seq!['i', 'n']);
        assert("out"@ =~= seq!['o', 'u', 't']);
    }
    let src = Source::new(text);
    let s = &src.chars;
    let a = loop_ms_or_lb_or_lc(s, 0);
    let (ins, q1) = decls(&src, a, "in");
    let b = loop_ms_or_lb_or_lc(s, q1);
    let (outs, q2) = decls(&src, b, "out");
    let c = loop_ms_or_lb_or_lc(s, q2);
    let (defs, q3) = var_decls(&src, c);
    let end = loop_ms_or_lb_or_lc(s, q3);
    let (input_vars, output_vars, types) = decl_parts(&ins, &outs);
    let exprs = bind_defs(&defs);
    proof {
        lemma_bind_all_distinct(exprs_view(defs@));
    }
    (LOLASpecification::new(input_vars, output_vars, exprs, types), end)
}

} // verus!

use vstd::prelude::*;
use crate::values::{Value, ValueV};
use crate::ast::{SBinOp, NumericalBinOp, BoolBinOp, StrBinOp, CompBinOp};
use crate::dist::{DistConstraintBody, DistBodyV};

verus! {

/// The character of a decimal digit.
pub open spec fn digit_char(d: int) -> char {
    if d == 0 {
        '0'
    } else if d == 1 {
        '1'
    } else if d == 2 {
        '2'
    } else if d == 3 {
        '3'
    } else if d == 4 {
        '4'
    } else if d == 5 {
        '5'
    } else if d == 6 {
        '6'
    } else if d == 7 {
        '7'
    } else if d == 8 {
        '8'
    } else {
        '9'
    }
}

/// The decimal digits of `n`, most significant first, with no leading zero.
pub open spec fn decimal(n: nat) -> Seq<char>
    decreases n,
{
    if n < 10 {
        seq![digit_char(n as int)]
    } else {
        decimal(n / 10).push(digit_char((n % 10) as int))
    }
}

/// An integer written in decimal, with a `-` in front when it is negative.
pub open spec fn int_text(i: int) -> Seq<char> {
    if i < 0 {
        seq!['-'] + decimal((-i) as nat)
    } else {
        decimal(i as nat)
    }
}

/// The text of a value, or `None` when a float occurs in it.
/// A list is written `[` then each element followed by `, `, then `]`.
pub open spec fn value_text(v: ValueV) -> Option<Seq<char>>
    decreases v, 0nat,
{
    match v {
        ValueV::Int(i) => Some(int_text(i as int)),
        ValueV::Float(_) => None,
        ValueV::Str(s) => Some(s),
        ValueV::Bool(b) => Some(
            if b {
                seq!['t', 'r', 'u', 'e']
            } else {
                seq!['f', 'a', 'l', 's', 'e']
            },
        ),
        ValueV::List(vs) => match items_text(vs, vs.len()) {
            Some(t) => Some(seq!['['] + t + seq![']']),
            None => None,
        },
        ValueV::Unknown => Some(seq!['u', 'n', 'k', 'n', 'o', 'w', 'n']),
        ValueV::Unit => Some(seq!['(', ')']),
    }
}

/// The first `n` elements of a list, each followed by `, `.
pub open spec fn items_text(vs: Seq<ValueV>, n: nat) -> Option<Seq<char>>
    decreases vs, n,
{
    if n == 0 || n > vs.len() {
        Some(Seq::empty())
    } else {
        match items_text(vs, (n - 1) as nat) {
            Some(a) => match value_text(vs[n - 1]) {
                Some(b) => Some(a + b + seq![',', ' ']),
                None => None,
            },
            None => None,
        }
    }
}

/// Once an element has no text, no longer prefix of the list has one.
proof fn lemma_items_text_none(vs: Seq<ValueV>, n: nat, m: nat)
    requires
        0 < n <= m <= vs.len(),
        items_text(vs, n) is None,
    ensures
        items_text(vs, m) is None,
    decreases m - n,
{
    if n < m {
        lemma_items_text_none(vs, n, (m - 1) as nat);
    }
}

/// The text of a digit.
fn digit_str(d: u64) -> (res: &'static str)
    requires
        d < 10,
    ensures
        res@ == seq![digit_char(d as int)],
{
    proof {
        reveal_strlit("0");
        reveal_strlit("1");
        reveal_strlit("2");
        reveal_strlit("3");
        reveal_strlit("4");
        reveal_strlit("5");
        reveal_strlit("6");
        reveal_strlit("7");
        reveal_strlit("8");
        reveal_strlit("9");
    }
    if d == 0 {
        "0"
    } else if d == 1 {
        "1"
    } else if d == 2 {
        "2"
    } else if d == 3 {
        "3"
    } else if d == 4 {
        "4"
    } else if d == 5 {
        "5"
    } else if d == 6 {
        "6"
    } else if d == 7 {
        "7"
    } else if d == 8 {
        "8"
    } else {
        "9"
    }
}

/// Appends the decimal digits of `n`.
pub fn write_decimal(out: &mut String, n: u64)
    ensures
        final(out)@ == old(out)@ + decimal(n as nat),
    decreases n,
{
    if n >= 10 {
        write_decimal(out, n / 10);
    }
    out.append(digit_str(n % 10));
    proof {
        if n < 10 {
            assert(decimal(n as nat) == seq![digit_char(n as int)]);
        }
        assert(out@ =~= old(out)@ + decimal(n as nat));
    }
}

/// Appends an integer in decimal.
pub fn write_int(out: &mut String, i: i64)
    ensures
        final(out)@ == old(out)@ + int_text(i as int),
{
    if i < 0 {
        proof {
            reveal_strlit("-");
        }
        out.append("-");
        let m: i128 = 0i128 - (i as i128);
        write_decimal(out, m as u64);
        proof {
            assert(out@ =~= old(out)@ + int_text(i as int));
        }
    } else {
        write_decimal(out, i as u64);
    }
}

/// Appends a text.
fn write_str(out: &mut String, s: &str)
    ensures
        final(out)@ == old(out)@ + s@,
{
    out.append(s);
}

impl Value {
    /// Appends the text of the value (see `value_text`); `false`, with the
    /// text only partly written, when a float occurs in it.
    #[verifier::loop_isolation(false)]
    pub fn write_text(&self, out: &mut String) -> (ok: bool)
        ensures
            ok == value_text(self@) is Some,
            ok ==> final(out)@ == old(out)@ + value_text(self@).unwrap(),
        decreases self,
    {
        proof {
            reveal_strlit("true");
            reveal_strlit("false");
            reveal_strlit("unknown");
            reveal_strlit("()");
            reveal_strlit("[");
            reveal_strlit("]");
            reveal_strlit(", ");
        }
        match self {
            Value::Int(i) => {
                write_int(out, *i);
                true
            },
            Value::Float(_) => false,
            Value::Str(s) => {
                write_str(out, s.as_str());
                true
            },
            Value::Bool(b) => {
                if *b {
                    write_str(out, "true");
                } else {
                    write_str(out, "false");
                }
                proof {
                    assert("true"@ =~= seq!['t', 'r', 'u', 'e']);
                    assert("false"@ =~= seq!['f', 'a', 'l', 's', 'e']);
                }
                true
            },
            Value::List(vs) => {
                let ghost vsv = self@->List_0;
                let ghost start = out@;
                write_str(out, "[");
                let mut i: usize = 0;
                proof {
                    assert(out@ =~= start + seq!['['] + Seq::<char>::empty());
                }
                while i < vs.len()
                    invariant
                        i <= vs.len(),
                        vsv == self@->List_0,
                        vsv.len() == vs.len(),
                        forall|j: int| 0 <= j < vs.len() ==> vsv[j] == (#[trigger] vs@[j])@,
                        items_text(vsv, i as nat) is Some,
                        out@ == start + seq!['['] + items_text(vsv, i as nat).unwrap(),
                    decreases vs.len() - i,
                {
                    proof {
                        assert(decreases_to!(*vs => vs[i as int]));
                    }
                    if !vs[i].write_text(out) {
                        proof {
                            assert(items_text(vsv, (i + 1) as nat) is None);
                            lemma_items_text_none(vsv, (i + 1) as nat, vsv.len());
                            assert(value_text(self@) is None);
                        }
                        return false;
                    }
                    write_str(out, ", ");
                    proof {
                        assert(", "@ =~= seq![',', ' ']);
                        assert(out@ =~= start + seq!['['] + items_text(vsv, (i + 1) as nat).unwrap());
                    }
                    i = i + 1;
                }
                write_str(out, "]");
                proof {
                    assert(out@ =~= start + value_text(self@).unwrap());
                }
                true
            },
            Value::Unknown => {
                write_str(out, "unknown");
                proof {
                    assert("unknown"@ =~= seq!['u', 'n', 'k', 'n', 'o', 'w', 'n']);
                }
                true
            },
            Value::Unit => {
                write_str(out, "()");
                proof {
                    assert("()"@ =~= seq!['(', ')']);
                }
                true
            },
        }
    }

    /// The text of the value, or `None` when a float occurs in it (a float's
    /// decimal form is left to the caller).
    pub fn display(&self) -> (res: Option<String>)
        ensures
            match res {
                Some(s) => value_text(self@) == Some(s@),
                None => value_text(self@) is None,
            },
    {
        let mut out = String::new();
        if self.write_text(&mut out) {
            proof {
                assert(out@ =~= value_text(self@).unwrap());
            }
            Some(out)
        } else {
            None
        }
    }
}

/// The identifier of a monitoring context, and that of the context it was
/// made from, if any.
#[derive(Debug, Clone, Copy, PartialEq, Eq, Structural)]
pub struct ContextId {
    pub id: u16,
    pub parent_id: Option<u16>,
}

/// The text of a context identifier: `(id: 3, parent: 1)` or `(id: 3, parent: None)`.
pub open spec fn context_id_text(c: ContextId) -> Seq<char> {
    seq!['(', 'i', 'd', ':', ' '] + decimal(c.id as nat) + seq![',', ' ', 'p', 'a', 'r', 'e', 'n', 't', ':', ' ']
        + match c.parent_id {
        Some(p) => decimal(p as nat),
        None => seq!['N', 'o', 'n', 'e'],
    } + seq![')']
}

impl ContextId {
    /// A context identifier.
    pub fn new(id: u16, parent_id: Option<u16>) -> (res: ContextId)
        ensures
            res.id == id,
            res.parent_id == parent_id,
    {
        ContextId { id, parent_id }
    }

    /// The text of the identifier (see `context_id_text`).
    pub fn display(&self) -> (res: String)
        ensures
            res@ == context_id_text(*self),
    {
        proof {
            reveal_strlit("(id: ");
            reveal_strlit(", parent: ");
            reveal_strlit("None");
            reveal_strlit(")");
        }
        let mut out = String::new();
        write_str(&mut out, "(id: ");
        write_decimal(&mut out, self.id as u64);
        write_str(&mut out, ", parent: ");
        match self.parent_id {
            Some(p) => write_decimal(&mut out, p as u64),
            None => write_str(&mut out, "None"),
        }
        write_str(&mut out, ")");
        proof {
            assert("(id: "@ =~= seq!['(', 'i', 'd', ':', ' ']);
            assert(", parent: "@ =~= seq![',', ' ', 'p', 'a', 'r', 'e', 'n', 't', ':', ' ']);
            assert("None"@ =~= seq!['N', 'o', 'n', 'e']);
            assert(")"@ =~= seq![')']);
            assert(out@ =~= context_id_text(*self));
        }
        out
    }
}

/// `name(a)`.
pub open spec fn call1_text(name: Seq<char>, a: Option<Seq<char>>) -> Option<Seq<char>> {
    match a {
        Some(x) => Some(name + "("@ + x + ")"@),
        None => None,
    }
}

/// `name(a, b)`.
pub open spec fn call2_text(name: Seq<char>, a: Option<Seq<char>>, b: Option<Seq<char>>) -> Option<
    Seq<char>,
> {
    match (a, b) {
        (Some(x), Some(y)) => Some(name + "("@ + x + ", "@ + y + ")"@),
        _ => None,
    }
}

/// `(a op b)`.
pub open spec fn infix_text(op: Seq<char>, a: Option<Seq<char>>, b: Option<Seq<char>>) -> Option<
    Seq<char>,
> {
    match (a, b) {
        (Some(x), Some(y)) => Some("("@ + x + " "@ + op + " "@ + y + ")"@),
        _ => None,
    }
}

/// The symbol written for an operator. Every comparison other than `==` is
/// written `<=`.
pub open spec fn op_symbol(op: SBinOp) -> Seq<char> {
    match op {
        SBinOp::NOp(NumericalBinOp::Add) => "+"@,
        SBinOp::NOp(NumericalBinOp::Sub) => "-"@,
        SBinOp::NOp(NumericalBinOp::Mul) => "*"@,
        SBinOp::NOp(NumericalBinOp::Div) => "/"@,
        SBinOp::NOp(NumericalBinOp::Mod) => "%"@,
        SBinOp::BOp(BoolBinOp::Or) => "||"@,
        SBinOp::BOp(BoolBinOp::And) => "&&"@,
        SBinOp::SOp(StrBinOp::Concat) => "++"@,
        SBinOp::COp(CompBinOp::Eq) => "=="@,
        SBinOp::COp(_) => "<="@,
    }
}

/// The text of a constraint body, or `None` when a float occurs in it.
pub open spec fn body_text(b: DistBodyV) -> Option<Seq<char>>
    decreases b, 0nat,
{
    match b {
        DistBodyV::If(c, t, f) => match (body_text(*c), body_text(*t), body_text(*f)) {
            (Some(x), Some(y), Some(z)) => Some("if "@ + x + " then "@ + y + " else "@ + z),
            _ => None,
        },
        DistBodyV::SIndex(x, i, d) => match (body_text(*x), value_text(d)) {
            (Some(a), Some(c)) => Some(a + "["@ + int_text(i as int) + ","@ + c + "]"@),
            _ => None,
        },
        DistBodyV::Val(v) => value_text(v),
        DistBodyV::BinOp(x, y, op) => infix_text(op_symbol(op), body_text(*x), body_text(*y)),
        DistBodyV::Not(x) => match body_text(*x) {
            Some(a) => Some("!"@ + a),
            None => None,
        },
        DistBodyV::Var(n) => Some(n),
        DistBodyV::Default(x, d) => call2_text("default"@, body_text(*x), body_text(*d)),
        DistBodyV::IsDefined(x) => call1_text("is_defined"@, body_text(*x)),
        DistBodyV::List(es) => match join_text(es, es.len()) {
            Some(t) => Some("["@ + t + "]"@),
            None => None,
        },
        DistBodyV::LIndex(x, y) => call2_text("List.get"@, body_text(*x), body_text(*y)),
        DistBodyV::LAppend(x, y) => call2_text("List.append"@, body_text(*x), body_text(*y)),
        DistBodyV::LConcat(x, y) => call2_text("List.concat"@, body_text(*x), body_text(*y)),
        DistBodyV::LHead(x) => call1_text("List.head"@, body_text(*x)),
        DistBodyV::LTail(x) => call1_text("List.tail"@, body_text(*x)),
        DistBodyV::Sin(x) => call1_text("sin"@, body_text(*x)),
        DistBodyV::Cos(x) => call1_text("cos"@, body_text(*x)),
        DistBodyV::Tan(x) => call1_text("tan"@, body_text(*x)),
        DistBodyV::Monitor(n) => Some("monitor("@ + n + ")"@),
        DistBodyV::Source(n) => Some("source("@ + n + ")"@),
        DistBodyV::Dist(x) => call1_text("dist"@, body_text(*x)),
        DistBodyV::WeightedDist(w, x) => call2_text("weighted_dist"@, body_text(*w), body_text(*x)),
        DistBodyV::Sum(n) => Some("sum("@ + n + ")"@),
    }
}

/// The texts of the first `n` bodies of a list, separated by `, `.
pub open spec fn join_text(es: Seq<DistBodyV>, n: nat) -> Option<Seq<char>>
    decreases es, n,
{
    if n == 0 || n > es.len() {
        Some(Seq::empty())
    } else if n == 1 {
        body_text(es[0])
    } else {
        match (join_text(es, (n - 1) as nat), body_text(es[n - 1])) {
            (Some(a), Some(b)) => Some(a + ", "@ + b),
            _ => None,
        }
    }
}

/// Once a body has no text, no longer prefix of the list has one.
proof fn lemma_join_text_none(es: Seq<DistBodyV>, n: nat, m: nat)
    requires
        0 < n <= m <= es.len(),
        join_text(es, n) is None,
    ensures
        join_text(es, m) is None,
    decreases m - n,
{
    if n < m {
        lemma_join_text_none(es, n, (m - 1) as nat);
    }
}

/// The symbol of an operator (see `op_symbol`).
fn op_str(op: SBinOp) -> (res: &'static str)
    ensures
        res@ == op_symbol(op),
{
    match op {
        SBinOp::NOp(NumericalBinOp::Add) => "+",
        SBinOp::NOp(NumericalBinOp::Sub) => "-",
        SBinOp::NOp(NumericalBinOp::Mul) => "*",
        SBinOp::NOp(NumericalBinOp::Div) => "/",
        SBinOp::NOp(NumericalBinOp::Mod) => "%",
        SBinOp::BOp(BoolBinOp::Or) => "||",
        SBinOp::BOp(BoolBinOp::And) => "&&",
        SBinOp::SOp(StrBinOp::Concat) => "++",
        SBinOp::COp(CompBinOp::Eq) => "==",
        SBinOp::COp(_) => "<=",
    }
}

/// `name(a)`.
fn call1_string(name: &str, a: Option<String>) -> (res: Option<String>)
    ensures
        match res {
            Some(r) => call1_text(name@, opt_text(a)) == Some(r@),
            None => call1_text(name@, opt_text(a)) is None,
        },
{
    match a {
        Some(x) => {
            let mut out = String::new();
            write_str(&mut out, name);
            write_str(&mut out, "(");
            write_str(&mut out, x.as_str());
            write_str(&mut out, ")");
            proof {
                assert(out@ =~= name@ + "("@ + x@ + ")"@);
            }
            Some(out)
        },
        None => None,
    }
}

/// `name(a, b)`.
fn call2_string(name: &str, a: Option<String>, b: Option<String>) -> (res: Option<String>)
    ensures
        match res {
            Some(r) => call2_text(name@, opt_text(a), opt_text(b)) == Some(r@),
            None => call2_text(name@, opt_text(a), opt_text(b)) is None,
        },
{
    match (a, b) {
        (Some(x), Some(y)) => {
            let mut out = String::new();
            write_str(&mut out, name);
            write_str(&mut out, "(");
            write_str(&mut out, x.as_str());
            write_str(&mut out, ", ");
            write_str(&mut out, y.as_str());
            write_str(&mut out, ")");
            proof {
                assert(out@ =~= name@ + "("@ + x@ + ", "@ + y@ + ")"@);
            }
            Some(out)
        },
        _ => None,
    }
}

/// `(a op b)`.
fn infix_string(op: &str, a: Option<String>, b: Option<String>) -> (res: Option<String>)
    ensures
        match res {
            Some(r) => infix_text(op@, opt_text(a), opt_text(b)) == Some(r@),
            None => infix_text(op@, opt_text(a), opt_text(b)) is None,
        },
{
    match (a, b) {
        (Some(x), Some(y)) => {
            let mut out = String::new();
            write_str(&mut out, "(");
            write_str(&mut out, x.as_str());
            write_str(&mut out, " ");
            write_str(&mut out, op);
            write_str(&mut out, " ");
            write_str(&mut out, y.as_str());
            write_str(&mut out, ")");
            proof {
                assert(out@ =~= "("@ + x@ + " "@ + op@ + " "@ + y@ + ")"@);
            }
            Some(out)
        },
        _ => None,
    }
}

/// `prefix name suffix`.
fn wrap_string(prefix: &str, name: &str, suffix: &str) -> (res: String)
    ensures
        res@ == prefix@ + name@ + suffix@,
{
    let mut out = String::new();
    write_str(&mut out, prefix);
    write_str(&mut out, name);
    write_str(&mut out, suffix);
    proof {
        assert(out@ =~= prefix@ + name@ + suffix@);
    }
    out
}

/// The model of an optional text.
pub open spec fn opt_text(a: Option<String>) -> Option<Seq<char>> {
    match a {
        Some(x) => Some(x@),
        None => None,
    }
}

impl DistConstraintBody {
    /// The text of the body (see `body_text`), or `None` when a float occurs
    /// in it (a float's decimal form is left to the caller).
    #[verifier::loop_isolation(false)]
    #[verifier::spinoff_prover]
    #[verifier::rlimit(50)]
    pub fn display(&self) -> (res: Option<String>)
        ensures
            opt_text(res) == body_text(self@),
        decreases self,
    {
        match self {
            DistConstraintBody::If(c, t, f) => {
                let x = c.display();
                let y = t.display();
                let z = f.display();
                match (x, y, z) {
                    (Some(a), Some(b), Some(d)) => {
                        let mut out = String::new();
                        write_str(&mut out, "if ");
                        write_str(&mut out, a.as_str());
                        write_str(&mut out, " then ");
                        write_str(&mut out, b.as_str());
                        write_str(&mut out, " else ");
                        write_str(&mut out, d.as_str());
                        proof {
                            assert(out@ =~= "if "@ + a@ + " then "@ + b@ + " else "@ + d@);
                        }
                        Some(out)
                    },
                    _ => None,
                }
            },
            DistConstraintBody::SIndex(x, i, d) => {
                let a = x.display();
                let c = d.display();
                match (a, c) {
                    (Some(a), Some(c)) => {
                        let mut out = String::new();
                        write_str(&mut out, a.as_str());
                        write_str(&mut out, "[");
                                        write_int(&mut out, *i as i64);
                        write_str(&mut out, ",");
                        write_str(&mut out, c.as_str());
                        write_str(&mut out, "]");
                        proof {
                            assert(out@ =~= a@ + "["@ + int_text(*i as int) + ","@ + c@ + "]"@);
                        }
                        Some(out)
                    },
                    _ => None,
                }
            },
            DistConstraintBody::Val(v) => v.display(),
            DistConstraintBody::BinOp(x, y, op) => infix_string(op_str(*op), x.display(), y.display()),
            DistConstraintBody::Not(x) => match x.display() {
                Some(a) => {
                    let mut out = String::new();
                    write_str(&mut out, "!");
                    write_str(&mut out, a.as_str());
                    proof {
                        assert(out@ =~= "!"@ + a@);
                    }
                    Some(out)
                },
                None => None,
            },
            DistConstraintBody::Var(n) => Some(n.name()),
            DistConstraintBody::Default(x, d) => call2_string("default", x.display(), d.display()),
            DistConstraintBody::IsDefined(x) => call1_string("is_defined", x.display()),
            DistConstraintBody::List(es) => {
                let ghost esv = self@->List_0;
                let mut out = String::new();
                let mut i: usize = 0;
                while i < es.len()
                    invariant
                        i <= es.len(),
                        esv == self@->List_0,
                        esv.len() == es.len(),
                        forall|j: int| 0 <= j < es.len() ==> esv[j] == (#[trigger] es@[j])@,
                        join_text(esv, i as nat) == Some(out@),
                    decreases es.len() - i,
                {
                    proof {
                        assert(decreases_to!(*es => es[i as int]));
                    }
                    match es[i].display() {
                        Some(t) => {
                            let ghost before = out@;
                            if i > 0 {
                                write_str(&mut out, ", ");
                            }
                            write_str(&mut out, t.as_str());
                            proof {
                                if i == 0 {
                                    assert(out@ =~= t@);
                                } else {
                                    assert(out@ =~= before + ", "@ + t@);
                                }
                            }
                        },
                        None => {
                            proof {
                                assert(join_text(esv, (i + 1) as nat) is None);
                                lemma_join_text_none(esv, (i + 1) as nat, esv.len());
                            }
                            return None;
                        },
                    }
                    i = i + 1;
                }
                let res = wrap_string("[", out.as_str(), "]");
                Some(res)
            },
            DistConstraintBody::LIndex(x, y) => call2_string("List.get", x.display(), y.display()),
            DistConstraintBody::LAppend(x, y) => call2_string("List.append", x.display(), y.display()),
            DistConstraintBody::LConcat(x, y) => call2_string("List.concat", x.display(), y.display()),
            DistConstraintBody::LHead(x) => call1_string("List.head", x.display()),
            DistConstraintBody::LTail(x) => call1_string("List.tail", x.display()),
            DistConstraintBody::Sin(x) => call1_string("sin", x.display()),
            DistConstraintBody::Cos(x) => call1_string("cos", x.display()),
            DistConstraintBody::Tan(x) => call1_string("tan", x.display()),
            DistConstraintBody::Monitor(n) => Some(wrap_string("monitor(", n.name().as_str(), ")")),
            DistConstraintBody::Source(n) => Some(wrap_string("source(", n.name().as_str(), ")")),
            DistConstraintBody::Dist(x) => call1_string("dist", x.display()),
            DistConstraintBody::WeightedDist(w, x) => call2_string(
                "weighted_dist",
                w.display(),
                x.display(),
            ),
            DistConstraintBody::Sum(n) => Some(wrap_string("sum(", n.name().as_str(), ")")),
        }
    }
}

} // verus!

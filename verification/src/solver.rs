use vstd::prelude::*;
use crate::values::{Value, ValueV, VarName};
use crate::deps::{DependencyManager, DepsV};
use crate::parser::{sexpr_spec, lola_expression};
use crate::runtime::{streams_view, entries_view, stream_index};
use crate::laws::{lookup, entry_at};
use crate::ast::{
    SExpr, SExprV, SBinOp, NumericalBinOp, BoolBinOp, StrBinOp, CompBinOp, LOLASpecification,
    exprs_view,
};

verus! {

/// Why an expression could not be solved. Solving never stops the program:
/// an expression that has no value (ill-typed operands, a division by zero,
/// an overflow, a condition that is not a boolean, a deferred property that is
/// not a string or does not parse, a node the solver does not take) gives one
/// of these errors instead.
#[derive(Debug, Clone, Copy, PartialEq, Eq, Structural)]
pub enum SolverError {
    /// An operator was applied to values of types it does not take, or a
    /// condition was not a boolean.
    TypeMismatch,
    /// Integer division or remainder by zero.
    DivisionByZero,
    /// Integer arithmetic, or a stream time, left its range.
    Overflow,
    /// Arithmetic on floats, which this solver does not evaluate.
    FloatOperation,
    /// A construct the constraint solver does not handle.
    Unsupported,
    /// A deferred property was neither a string nor unknown.
    InvalidDeferProperty,
    /// A deferred property did not parse as an expression.
    DeferParse,
    /// Deferred properties kept unfolding into further deferred properties.
    DeferDepth,
    /// The output expressions kept changing from one pass to the next.
    NoFixpoint,
}

/// Integer division rounding toward zero (Rust's `/`).
pub open spec fn trunc_div(x: int, d: int) -> int {
    if x == 0 {
        0
    } else if x > 0 && d > 0 {
        x / d
    } else if x < 0 && d < 0 {
        (x * -1) / (d * -1)
    } else if x < 0 {
        ((x * -1) / d) * -1
    } else {
        (x / (d * -1)) * -1
    }
}

/// The remainder that goes with `trunc_div` (Rust's `%`).
pub open spec fn trunc_rem(x: int, d: int) -> int {
    if x == 0 {
        0
    } else if x > 0 && d > 0 {
        x % d
    } else if x < 0 && d < 0 {
        ((x * -1) % (d * -1)) * -1
    } else if x < 0 {
        ((x * -1) % d) * -1
    } else {
        x % (d * -1)
    }
}

/// An integer result, or `Overflow` when it does not fit in an `i64`.
pub open spec fn int_result(x: int) -> Result<ValueV, SolverError> {
    if i64::MIN <= x <= i64::MAX {
        Ok(ValueV::Int(x as i64))
    } else {
        Err(SolverError::Overflow)
    }
}

/// Lexicographic order on strings, character by character.
pub open spec fn str_lt(a: Seq<char>, b: Seq<char>) -> bool
    decreases a.len(),
{
    if b.len() == 0 {
        false
    } else if a.len() == 0 {
        true
    } else if a[0] != b[0] {
        (a[0] as u32) < (b[0] as u32)
    } else {
        str_lt(a.drop_first(), b.drop_first())
    }
}

/// The result of applying a binary operator to two values.
pub open spec fn binop_spec(v1: ValueV, v2: ValueV, op: SBinOp) -> Result<ValueV, SolverError> {
    match (v1, v2, op) {
        (ValueV::Int(a), ValueV::Int(b), SBinOp::NOp(nop)) => match nop {
            NumericalBinOp::Add => int_result(a + b),
            NumericalBinOp::Sub => int_result(a - b),
            NumericalBinOp::Mul => int_result(a * b),
            NumericalBinOp::Div => if b == 0 {
                Err(SolverError::DivisionByZero)
            } else {
                int_result(trunc_div(a as int, b as int))
            },
            NumericalBinOp::Mod => if b == 0 {
                Err(SolverError::DivisionByZero)
            } else if a == i64::MIN && b == -1 {
                Err(SolverError::Overflow)
            } else {
                int_result(trunc_rem(a as int, b as int))
            },
        },
        (ValueV::Float(_), ValueV::Int(_), SBinOp::NOp(_)) => Err(SolverError::FloatOperation),
        (ValueV::Int(_), ValueV::Float(_), SBinOp::NOp(_)) => Err(SolverError::FloatOperation),
        (ValueV::Float(_), ValueV::Float(_), SBinOp::NOp(_)) => Err(SolverError::FloatOperation),
        (ValueV::Bool(a), ValueV::Bool(b), SBinOp::BOp(bop)) => match bop {
            BoolBinOp::Or => Ok(ValueV::Bool(a || b)),
            BoolBinOp::And => Ok(ValueV::Bool(a && b)),
        },
        (ValueV::Str(a), ValueV::Str(b), SBinOp::SOp(StrBinOp::Concat)) => Ok(ValueV::Str(a + b)),
        (ValueV::Str(a), ValueV::Str(b), SBinOp::COp(cop)) => match cop {
            CompBinOp::Eq => Ok(ValueV::Bool(a == b)),
            CompBinOp::Le => Ok(ValueV::Bool(!str_lt(b, a))),
            CompBinOp::Lt => Ok(ValueV::Bool(str_lt(a, b))),
            CompBinOp::Ge => Ok(ValueV::Bool(!str_lt(a, b))),
            CompBinOp::Gt => Ok(ValueV::Bool(str_lt(b, a))),
        },
        _ => Err(SolverError::TypeMismatch),
    }
}

/// Whether `a` comes before `b` in lexicographic order.
fn str_less(a: &str, b: &str) -> (res: bool)
    ensures
        res == str_lt(a@, b@),
{
    let la = a.unicode_len();
    let lb = b.unicode_len();
    let mut i: usize = 0;
    proof {
        assert(a@.skip(0) =~= a@);
        assert(b@.skip(0) =~= b@);
    }
    while i < la && i < lb
        invariant
            la == a@.len(),
            lb == b@.len(),
            i <= la,
            i <= lb,
            a@.take(i as int) == b@.take(i as int),
            str_lt(a@, b@) == str_lt(a@.skip(i as int), b@.skip(i as int)),
        decreases la - i,
    {
        let ca = a.get_char(i);
        let cb = b.get_char(i);
        if ca != cb {
            proof {
                assert(a@.skip(i as int)[0] == ca);
                assert(b@.skip(i as int)[0] == cb);
            }
            return (ca as u32) < (cb as u32);
        }
        proof {
            assert(a@.skip(i as int).drop_first() =~= a@.skip(i + 1));
            assert(b@.skip(i as int).drop_first() =~= b@.skip(i + 1));
            assert(a@.take(i + 1) =~= a@.take(i as int).push(ca));
            assert(b@.take(i + 1) =~= b@.take(i as int).push(cb));
        }
        i = i + 1;
    }
    proof {
        assert(a@.skip(i as int).len() == la - i);
        assert(b@.skip(i as int).len() == lb - i);
    }
    i == la && i < lb
}

/// Applies a binary operator to two values. Operands of types the operator
/// does not take, a division by zero and an overflow give an error (see
/// `SolverError`), as does arithmetic on floats.
pub fn binop_table(v1: &Value, v2: &Value, op: SBinOp) -> (res: Result<Value, SolverError>)
    ensures
        match res {
            Ok(v) => binop_spec(v1@, v2@, op) == Ok::<ValueV, SolverError>(v@),
            Err(e) => binop_spec(v1@, v2@, op) == Err::<ValueV, SolverError>(e),
        },
{
    match (v1, v2, op) {
        (Value::Int(a), Value::Int(b), SBinOp::NOp(nop)) => {
            let a = *a;
            let b = *b;
            match nop {
                NumericalBinOp::Add => match a.checked_add(b) {
                    Some(x) => Ok(Value::Int(x)),
                    None => Err(SolverError::Overflow),
                },
                NumericalBinOp::Sub => match a.checked_sub(b) {
                    Some(x) => Ok(Value::Int(x)),
                    None => Err(SolverError::Overflow),
                },
                NumericalBinOp::Mul => match a.checked_mul(b) {
                    Some(x) => Ok(Value::Int(x)),
                    None => Err(SolverError::Overflow),
                },
                NumericalBinOp::Div => {
                    if b == 0 {
                        Err(SolverError::DivisionByZero)
                    } else {
                        match a.checked_div(b) {
                            Some(x) => Ok(Value::Int(x)),
                            None => Err(SolverError::Overflow),
                        }
                    }
                },
                NumericalBinOp::Mod => {
                    if b == 0 {
                        Err(SolverError::DivisionByZero)
                    } else if a == i64::MIN && b == -1 {
                        Err(SolverError::Overflow)
                    } else {
                        match a.checked_rem(b) {
                            Some(x) => Ok(Value::Int(x)),
                            None => Err(SolverError::Overflow),
                        }
                    }
                },
            }
        },
        (Value::Float(_), Value::Int(_), SBinOp::NOp(_)) => Err(SolverError::FloatOperation),
        (Value::Int(_), Value::Float(_), SBinOp::NOp(_)) => Err(SolverError::FloatOperation),
        (Value::Float(_), Value::Float(_), SBinOp::NOp(_)) => Err(SolverError::FloatOperation),
        (Value::Bool(a), Value::Bool(b), SBinOp::BOp(bop)) => match bop {
            BoolBinOp::Or => Ok(Value::Bool(*a || *b)),
            BoolBinOp::And => Ok(Value::Bool(*a && *b)),
        },
        (Value::Str(a), Value::Str(b), SBinOp::SOp(StrBinOp::Concat)) => {
            let mut s = a.clone();
            s.append(b.as_str());
            Ok(Value::Str(s))
        },
        (Value::Str(a), Value::Str(b), SBinOp::COp(cop)) => {
            let sa = a.as_str();
            let sb = b.as_str();
            match cop {
                CompBinOp::Eq => Ok(Value::Bool(*a == *b)),
                CompBinOp::Le => Ok(Value::Bool(!str_less(sb, sa))),
                CompBinOp::Lt => Ok(Value::Bool(str_less(sa, sb))),
                CompBinOp::Ge => Ok(Value::Bool(!str_less(sa, sb))),
                CompBinOp::Gt => Ok(Value::Bool(str_less(sb, sa))),
            }
        },
        _ => Err(SolverError::TypeMismatch),
    }
}

/// An expression whose stream references are at absolute times.
#[derive(Debug)]
pub enum SExprAbs {
    If(Box<SExprAbs>, Box<SExprAbs>, Box<SExprAbs>),
    /// `e` read at the absolute time given, with a default
    SIndex(Box<SExprAbs>, usize, Value),
    Val(Value),
    BinOp(Box<SExprAbs>, Box<SExprAbs>, SBinOp),
    Var(usize, VarName),
    Eval(Box<SExprAbs>),
    Default(Box<SExprAbs>, Box<SExprAbs>),
    When(Box<SExprAbs>),
    Not(Box<SExprAbs>),
    List(Vec<SExprAbs>),
    LIndex(Box<SExprAbs>, Box<SExprAbs>),
    LAppend(Box<SExprAbs>, Box<SExprAbs>),
    LConcat(Box<SExprAbs>, Box<SExprAbs>),
    LHead(Box<SExprAbs>),
    LTail(Box<SExprAbs>),
}

/// The mathematical model of an `SExprAbs`.
pub enum SExprAbsV {
    If(Box<SExprAbsV>, Box<SExprAbsV>, Box<SExprAbsV>),
    SIndex(Box<SExprAbsV>, usize, ValueV),
    Val(ValueV),
    BinOp(Box<SExprAbsV>, Box<SExprAbsV>, SBinOp),
    Var(usize, Seq<char>),
    Eval(Box<SExprAbsV>),
    Default(Box<SExprAbsV>, Box<SExprAbsV>),
    When(Box<SExprAbsV>),
    Not(Box<SExprAbsV>),
    List(Seq<SExprAbsV>),
    LIndex(Box<SExprAbsV>, Box<SExprAbsV>),
    LAppend(Box<SExprAbsV>, Box<SExprAbsV>),
    LConcat(Box<SExprAbsV>, Box<SExprAbsV>),
    LHead(Box<SExprAbsV>),
    LTail(Box<SExprAbsV>),
}

impl View for SExprAbs {
    type V = SExprAbsV;

    open spec fn view(&self) -> SExprAbsV {
        abs_view(*self)
    }
}

/// The model of an absolute expression, node by node.
pub open spec fn abs_view(e: SExprAbs) -> SExprAbsV
    decreases e,
{
    match e {
        SExprAbs::If(b, t, f) => SExprAbsV::If(
            Box::new(abs_view(*b)),
            Box::new(abs_view(*t)),
            Box::new(abs_view(*f)),
        ),
        SExprAbs::SIndex(x, i, d) => SExprAbsV::SIndex(Box::new(abs_view(*x)), i, d@),
        SExprAbs::Val(v) => SExprAbsV::Val(v@),
        SExprAbs::BinOp(a, b, op) => SExprAbsV::BinOp(
            Box::new(abs_view(*a)),
            Box::new(abs_view(*b)),
            op,
        ),
        SExprAbs::Var(t, n) => SExprAbsV::Var(t, n@),
        SExprAbs::Eval(x) => SExprAbsV::Eval(Box::new(abs_view(*x))),
        SExprAbs::Default(a, b) => SExprAbsV::Default(Box::new(abs_view(*a)), Box::new(abs_view(*b))),
        SExprAbs::When(x) => SExprAbsV::When(Box::new(abs_view(*x))),
        SExprAbs::Not(x) => SExprAbsV::Not(Box::new(abs_view(*x))),
        SExprAbs::List(es) => SExprAbsV::List(
            Seq::new(
                es.len() as nat,
                |i: int|
                    if 0 <= i < es.len() {
                        abs_view(es@[i])
                    } else {
                        SExprAbsV::Val(ValueV::Unknown)
                    },
            ),
        ),
        SExprAbs::LIndex(a, b) => SExprAbsV::LIndex(Box::new(abs_view(*a)), Box::new(abs_view(*b))),
        SExprAbs::LAppend(a, b) => SExprAbsV::LAppend(Box::new(abs_view(*a)), Box::new(abs_view(*b))),
        SExprAbs::LConcat(a, b) => SExprAbsV::LConcat(Box::new(abs_view(*a)), Box::new(abs_view(*b))),
        SExprAbs::LHead(x) => SExprAbsV::LHead(Box::new(abs_view(*x))),
        SExprAbs::LTail(x) => SExprAbsV::LTail(Box::new(abs_view(*x))),
    }
}

impl SExprAbs {
    /// A copy of the expression.
    #[verifier::loop_isolation(false)]
    pub fn deep_clone(&self) -> (res: SExprAbs)
        ensures
            res@ == self@,
        decreases self,
    {
        match self {
            SExprAbs::If(b, t, f) => SExprAbs::If(
                Box::new(b.deep_clone()),
                Box::new(t.deep_clone()),
                Box::new(f.deep_clone()),
            ),
            SExprAbs::SIndex(x, i, d) => SExprAbs::SIndex(Box::new(x.deep_clone()), *i, d.clone()),
            SExprAbs::Val(v) => SExprAbs::Val(v.clone()),
            SExprAbs::BinOp(a, b, op) => SExprAbs::BinOp(
                Box::new(a.deep_clone()),
                Box::new(b.deep_clone()),
                *op,
            ),
            SExprAbs::Var(t, n) => SExprAbs::Var(*t, n.clone()),
            SExprAbs::Eval(x) => SExprAbs::Eval(Box::new(x.deep_clone())),
            SExprAbs::Default(a, b) => SExprAbs::Default(
                Box::new(a.deep_clone()),
                Box::new(b.deep_clone()),
            ),
            SExprAbs::When(x) => SExprAbs::When(Box::new(x.deep_clone())),
            SExprAbs::Not(x) => SExprAbs::Not(Box::new(x.deep_clone())),
            SExprAbs::List(es) => {
                let mut out: Vec<SExprAbs> = Vec::new();
                let mut i: usize = 0;
                while i < es.len()
                    invariant
                        i <= es.len(),
                        out.len() == i,
                        forall|j: int| 0 <= j < i ==> (#[trigger] out@[j])@ == es@[j]@,
                    decreases es.len() - i,
                {
                    proof {
                        assert(decreases_to!(*es => es[i as int]));
                    }
                    let c = es[i].deep_clone();
                    out.push(c);
                    i = i + 1;
                }
                let res = SExprAbs::List(out);
                proof {
                    assert(res@->List_0 =~= self@->List_0);
                }
                res
            },
            SExprAbs::LIndex(a, b) => SExprAbs::LIndex(
                Box::new(a.deep_clone()),
                Box::new(b.deep_clone()),
            ),
            SExprAbs::LAppend(a, b) => SExprAbs::LAppend(
                Box::new(a.deep_clone()),
                Box::new(b.deep_clone()),
            ),
            SExprAbs::LConcat(a, b) => SExprAbs::LConcat(
                Box::new(a.deep_clone()),
                Box::new(b.deep_clone()),
            ),
            SExprAbs::LHead(x) => SExprAbs::LHead(Box::new(x.deep_clone())),
            SExprAbs::LTail(x) => SExprAbs::LTail(Box::new(x.deep_clone())),
        }
    }
}

/// The absolute form of `e` read at time `base`: relative offsets become
/// absolute times, and an offset before time 0 becomes its default value.
pub open spec fn to_absolute_spec(e: SExprV, base: usize) -> Result<SExprAbsV, SolverError>
    decreases e,
{
    match e {
        SExprV::Val(v) => Ok(SExprAbsV::Val(v)),
        SExprV::BinOp(a, b, op) => match to_absolute_spec(*a, base) {
            Err(err) => Err(err),
            Ok(aa) => match to_absolute_spec(*b, base) {
                Err(err) => Err(err),
                Ok(ab) => Ok(SExprAbsV::BinOp(Box::new(aa), Box::new(ab), op)),
            },
        },
        SExprV::Var(n) => Ok(SExprAbsV::Var(base, n)),
        SExprV::SIndex(x, off, d) => {
            let t = base + off;
            if t < 0 {
                Ok(SExprAbsV::Val(d))
            } else if t > usize::MAX {
                Err(SolverError::Overflow)
            } else {
                match to_absolute_spec(*x, base) {
                    Err(err) => Err(err),
                    Ok(ax) => Ok(SExprAbsV::SIndex(Box::new(ax), t as usize, d)),
                }
            }
        },
        SExprV::If(b, x, y) => match to_absolute_spec(*b, base) {
            Err(err) => Err(err),
            Ok(ab) => match to_absolute_spec(*x, base) {
                Err(err) => Err(err),
                Ok(ax) => match to_absolute_spec(*y, base) {
                    Err(err) => Err(err),
                    Ok(ay) => Ok(SExprAbsV::If(Box::new(ab), Box::new(ax), Box::new(ay))),
                },
            },
        },
        SExprV::Defer(_) => Ok(SExprAbsV::Val(ValueV::Unknown)),
        SExprV::Update(l, _) => to_absolute_spec(*l, base),
        SExprV::Default(x, d) => match to_absolute_spec(*x, base) {
            Err(err) => Err(err),
            Ok(ax) => match to_absolute_spec(*d, base) {
                Err(err) => Err(err),
                Ok(ad) => Ok(SExprAbsV::Default(Box::new(ax), Box::new(ad))),
            },
        },
        _ => Err(SolverError::Unsupported),
    }
}

impl SExpr {
    /// The absolute form of the expression read at time `base_time`.
    pub fn to_absolute(&self, base_time: usize) -> (res: Result<SExprAbs, SolverError>)
        ensures
            match res {
                Ok(a) => to_absolute_spec(self@, base_time) == Ok::<SExprAbsV, SolverError>(a@),
                Err(err) => to_absolute_spec(self@, base_time) == Err::<SExprAbsV, SolverError>(err),
            },
        decreases self,
    {
        match self {
            SExpr::Val(v) => Ok(SExprAbs::Val(v.clone())),
            SExpr::BinOp(a, b, op) => {
                let aa = match a.to_absolute(base_time) {
                    Ok(x) => x,
                    Err(err) => {
                        return Err(err);
                    },
                };
                let ab = match b.to_absolute(base_time) {
                    Ok(x) => x,
                    Err(err) => {
                        return Err(err);
                    },
                };
                Ok(SExprAbs::BinOp(Box::new(aa), Box::new(ab), *op))
            },
            SExpr::Var(n) => Ok(SExprAbs::Var(base_time, n.clone())),
            SExpr::SIndex(x, off, d) => {
                let t: i128 = (base_time as i128) + (*off as i128);
                if t < 0 {
                    Ok(SExprAbs::Val(d.clone()))
                } else if t > usize::MAX as i128 {
                    Err(SolverError::Overflow)
                } else {
                    match x.to_absolute(base_time) {
                        Ok(ax) => Ok(SExprAbs::SIndex(Box::new(ax), t as usize, d.clone())),
                        Err(err) => Err(err),
                    }
                }
            },
            SExpr::If(b, x, y) => {
                let ab = match b.to_absolute(base_time) {
                    Ok(v) => v,
                    Err(err) => {
                        return Err(err);
                    },
                };
                let ax = match x.to_absolute(base_time) {
                    Ok(v) => v,
                    Err(err) => {
                        return Err(err);
                    },
                };
                let ay = match y.to_absolute(base_time) {
                    Ok(v) => v,
                    Err(err) => {
                        return Err(err);
                    },
                };
                Ok(SExprAbs::If(Box::new(ab), Box::new(ax), Box::new(ay)))
            },
            SExpr::Defer(_) => Ok(SExprAbs::Val(Value::Unknown)),
            SExpr::Update(l, _) => l.to_absolute(base_time),
            SExpr::Default(x, d) => {
                let ax = match x.to_absolute(base_time) {
                    Ok(v) => v,
                    Err(err) => {
                        return Err(err);
                    },
                };
                let ad = match d.to_absolute(base_time) {
                    Ok(v) => v,
                    Err(err) => {
                        return Err(err);
                    },
                };
                Ok(SExprAbs::Default(Box::new(ax), Box::new(ad)))
            },
            _ => Err(SolverError::Unsupported),
        }
    }
}

/// The values (or expressions) of each stream, by time.
pub type SyncStream<T> = Vec<(VarName, Vec<(usize, T)>)>;

/// The environment of the solver: the inputs received so far, the current
/// expression of each output, and the outputs resolved and still unresolved
/// at each time.
#[derive(Debug)]
pub struct ConstraintStore {
    pub input_streams: Vec<(VarName, Vec<(usize, Value)>)>,
    pub output_exprs: Vec<(VarName, SExpr)>,
    pub outputs_resolved: Vec<(VarName, Vec<(usize, Value)>)>,
    pub outputs_unresolved: Vec<(VarName, Vec<(usize, SExprAbs)>)>,
}

/// The entries of the first stream named `name`.
pub open spec fn stream_of<T>(m: Seq<(VarName, Vec<(usize, T)>)>, name: Seq<char>) -> Option<
    Seq<(usize, T)>,
>
    decreases m.len(),
{
    if m.len() == 0 {
        None
    } else if m[0].0@ == name {
        Some(m[0].1@)
    } else {
        stream_of(m.drop_first(), name)
    }
}

/// The first entry at time `t`.
pub open spec fn at_time<T>(s: Seq<(usize, T)>, t: usize) -> Option<T>
    decreases s.len(),
{
    if s.len() == 0 {
        None
    } else if s[0].0 == t {
        Some(s[0].1)
    } else {
        at_time(s.drop_first(), t)
    }
}

/// The entry of stream `name` at time `t`.
pub open spec fn stream_lookup<T>(m: Seq<(VarName, Vec<(usize, T)>)>, name: Seq<char>, t: usize) -> Option<T> {
    match stream_of(m, name) {
        Some(s) => at_time(s, t),
        None => None,
    }
}

/// The first stream named `n` from position `k` on, in a collection and in
/// its model, is the same stream.
proof fn lemma_stream_of_view<T: View>(m: Seq<(VarName, Vec<(usize, T)>)>, n: Seq<char>, k: int)
    requires
        0 <= k <= m.len(),
    ensures
        match stream_index(streams_view(m), n, k) {
            Some(i) => k <= i < m.len() && stream_of(m.skip(k), n) == Some(m[i].1@) && streams_view(m)[i].1
                == entries_view(m[i].1@),
            None => stream_of(m.skip(k), n) is None,
        },
    decreases m.len() - k,
{
    if k < m.len() {
        assert(m.skip(k)[0] == m[k]);
        assert(m.skip(k).drop_first() =~= m.skip(k + 1));
        if m[k].0@ != n {
            lemma_stream_of_view(m, n, k + 1);
        }
    }
}

/// The first entry at time `t` of a stream and of its model are the same.
proof fn lemma_at_time_view<T: View>(s: Seq<(usize, T)>, t: usize)
    ensures
        entry_at(entries_view(s), t) == match at_time(s, t) {
            Some(v) => Some(v@),
            None => None::<T::V>,
        },
    decreases s.len(),
{
    if s.len() > 0 {
        assert(entries_view(s).drop_first() =~= entries_view(s.drop_first()));
        lemma_at_time_view(s.drop_first(), t);
    }
}

/// Looking up an entry in a collection of streams and in its model agree.
pub proof fn lemma_lookup_view<T: View>(m: Seq<(VarName, Vec<(usize, T)>)>, n: Seq<char>, t: usize)
    ensures
        lookup(streams_view(m), n, t) == match stream_lookup(m, n, t) {
            Some(v) => Some(v@),
            None => None::<T::V>,
        },
{
    lemma_stream_of_view(m, n, 0);
    assert(m.skip(0) =~= m);
    match stream_index(streams_view(m), n, 0) {
        Some(i) => {
            lemma_at_time_view(m[i].1@, t);
        },
        None => {},
    }
}

/// The model of a store's streams: the input values, the resolved output
/// values and the unresolved output expressions, stream by stream.
pub struct StoreV {
    pub inputs: Seq<(Seq<char>, Seq<(usize, ValueV)>)>,
    pub resolved: Seq<(Seq<char>, Seq<(usize, ValueV)>)>,
    pub unresolved: Seq<(Seq<char>, Seq<(usize, SExprAbsV)>)>,
}

impl StoreV {
    /// The resolved output value of `name` at `t`, or else its input value.
    pub open spec fn resolved_then_input(self, name: Seq<char>, t: usize) -> Option<ValueV> {
        match lookup(self.resolved, name, t) {
            Some(v) => Some(v),
            None => lookup(self.inputs, name, t),
        }
    }

    /// The input value of `name` at `t`, or else its resolved output value.
    pub open spec fn input_then_resolved(self, name: Seq<char>, t: usize) -> Option<ValueV> {
        match lookup(self.inputs, name, t) {
            Some(v) => Some(v),
            None => lookup(self.resolved, name, t),
        }
    }

    /// The unresolved expression of output `name` at `t`.
    pub open spec fn unresolved_at(self, name: Seq<char>, t: usize) -> Option<SExprAbsV> {
        lookup(self.unresolved, name, t)
    }
}

impl ConstraintStore {
    /// The model of the store's streams.
    pub open spec fn streams(&self) -> StoreV {
        StoreV {
            inputs: streams_view(self.input_streams@),
            resolved: streams_view(self.outputs_resolved@),
            unresolved: streams_view(self.outputs_unresolved@),
        }
    }

    /// The resolved output value of `name` at `t`, or else its input value.
    pub open spec fn resolved_then_input(&self, name: Seq<char>, t: usize) -> Option<ValueV> {
        self.streams().resolved_then_input(name, t)
    }

    /// The input value of `name` at `t`, or else its resolved output value.
    pub open spec fn input_then_resolved(&self, name: Seq<char>, t: usize) -> Option<ValueV> {
        self.streams().input_then_resolved(name, t)
    }

    /// The unresolved expression of output `name` at `t`.
    pub open spec fn unresolved_at(&self, name: Seq<char>, t: usize) -> Option<SExprAbsV> {
        self.streams().unresolved_at(name, t)
    }

    /// A store with no streams and no expressions.
    pub fn new() -> (res: ConstraintStore)
        ensures
            res.input_streams@.len() == 0,
            res.output_exprs@.len() == 0,
            res.outputs_resolved@.len() == 0,
            res.outputs_unresolved@.len() == 0,
    {
        ConstraintStore {
            input_streams: Vec::new(),
            output_exprs: Vec::new(),
            outputs_resolved: Vec::new(),
            outputs_unresolved: Vec::new(),
        }
    }

    /// Looks up the entry of stream `name` at time `idx` in a collection of streams.
    pub fn get_value_from_stream<'a, T>(
        name: &VarName,
        idx: &usize,
        map: &'a Vec<(VarName, Vec<(usize, T)>)>,
    ) -> (res: Option<&'a T>)
        ensures
            match res {
                Some(r) => stream_lookup(map@, name@, *idx) == Some(*r),
                None => stream_lookup(map@, name@, *idx) is None,
            },
    {
        let mut i: usize = 0;
        proof {
            assert(map@.skip(0) =~= map@);
        }
        while i < map.len()
            invariant
                i <= map.len(),
                stream_of(map@, name@) == stream_of(map@.skip(i as int), name@),
            decreases map.len() - i,
        {
            proof {
                assert(map@.skip(i as int).drop_first() =~= map@.skip(i + 1));
            }
            if map[i].0.equals(name) {
                let inner = &map[i].1;
                let mut j: usize = 0;
                proof {
                    assert(inner@.skip(0) =~= inner@);
                }
                while j < inner.len()
                    invariant
                        j <= inner.len(),
                        stream_of(map@, name@) == Some(inner@),
                        at_time(inner@, *idx) == at_time(inner@.skip(j as int), *idx),
                    decreases inner.len() - j,
                {
                    proof {
                        assert(inner@.skip(j as int).drop_first() =~= inner@.skip(j + 1));
                    }
                    if inner[j].0 == *idx {
                        return Some(&inner[j].1);
                    }
                    j = j + 1;
                }
                return None;
            }
            i = i + 1;
        }
        None
    }

    /// The input value of `name` at time `idx`.
    pub fn get_from_input_streams(&self, name: &VarName, idx: &usize) -> (res: Option<&Value>)
        ensures
            match res {
                Some(r) => stream_lookup(self.input_streams@, name@, *idx) == Some(*r),
                None => stream_lookup(self.input_streams@, name@, *idx) is None,
            },
            lookup(streams_view(self.input_streams@), name@, *idx) == match res {
                Some(r) => Some(r@),
                None => None::<ValueV>,
            },
    {
        proof {
            lemma_lookup_view(self.input_streams@, name@, *idx);
        }
        Self::get_value_from_stream(name, idx, &self.input_streams)
    }

    /// The resolved value of output `name` at time `idx`.
    pub fn get_from_outputs_resolved(&self, name: &VarName, idx: &usize) -> (res: Option<&Value>)
        ensures
            match res {
                Some(r) => stream_lookup(self.outputs_resolved@, name@, *idx) == Some(*r),
                None => stream_lookup(self.outputs_resolved@, name@, *idx) is None,
            },
            lookup(streams_view(self.outputs_resolved@), name@, *idx) == match res {
                Some(r) => Some(r@),
                None => None::<ValueV>,
            },
    {
        proof {
            lemma_lookup_view(self.outputs_resolved@, name@, *idx);
        }
        Self::get_value_from_stream(name, idx, &self.outputs_resolved)
    }

    /// The unresolved expression of output `name` at time `idx`.
    pub fn get_from_outputs_unresolved(&self, name: &VarName, idx: &usize) -> (res: Option<&SExprAbs>)
        ensures
            match res {
                Some(r) => stream_lookup(self.outputs_unresolved@, name@, *idx) == Some(*r),
                None => stream_lookup(self.outputs_unresolved@, name@, *idx) is None,
            },
            lookup(streams_view(self.outputs_unresolved@), name@, *idx) == match res {
                Some(r) => Some(r@),
                None => None::<SExprAbsV>,
            },
    {
        proof {
            lemma_lookup_view(self.outputs_unresolved@, name@, *idx);
        }
        Self::get_value_from_stream(name, idx, &self.outputs_unresolved)
    }
}

/// The store of a specification: its output expressions and nothing else.
pub fn model_constraints(model: LOLASpecification) -> (res: ConstraintStore)
    ensures
        res.input_streams@.len() == 0,
        exprs_view(res.output_exprs@) == exprs_view(model.exprs@),
        res.outputs_resolved@.len() == 0,
        res.outputs_unresolved@.len() == 0,
{
    let mut constraints = ConstraintStore::new();
    constraints.output_exprs = model.exprs;
    constraints
}

/// The outcome of simplifying an expression: a value, or what is left of the
/// expression.
#[derive(Debug)]
pub enum SimplifyResult<T> {
    Resolved(Value),
    Unresolved(T),
}

/// The model of a `SimplifyResult`.
pub enum SimpV<T> {
    Resolved(ValueV),
    Unresolved(T),
}

/// The model of the outcome of simplifying an absolute expression.
pub open spec fn abs_outcome(r: Result<SimplifyResult<Box<SExprAbs>>, SolverError>) -> Result<
    SimpV<SExprAbsV>,
    SolverError,
> {
    match r {
        Ok(SimplifyResult::Resolved(v)) => Ok(SimpV::Resolved(v@)),
        Ok(SimplifyResult::Unresolved(e)) => Ok(SimpV::Unresolved((*e)@)),
        Err(err) => Err(err),
    }
}

/// Simplifying an absolute expression at time `t` against the streams of a store.
pub open spec fn simplify_abs_in(e: SExprAbsV, t: usize, st: StoreV) -> Result<
    SimpV<SExprAbsV>,
    SolverError,
>
    decreases e,
{
    match e {
        SExprAbsV::Val(v) => Ok(SimpV::Resolved(v)),
        SExprAbsV::BinOp(a, b, op) => match simplify_abs_in(*a, t, st) {
            Err(err) => Err(err),
            Ok(ra) => match simplify_abs_in(*b, t, st) {
                Err(err) => Err(err),
                Ok(rb) => match (ra, rb) {
                    (SimpV::Resolved(va), SimpV::Resolved(vb)) => match binop_spec(va, vb, op) {
                        Ok(v) => Ok(SimpV::Resolved(v)),
                        Err(err) => Err(err),
                    },
                    (SimpV::Unresolved(ua), SimpV::Resolved(vb)) => Ok(
                        SimpV::Unresolved(
                            SExprAbsV::BinOp(Box::new(ua), Box::new(SExprAbsV::Val(vb)), op),
                        ),
                    ),
                    (SimpV::Resolved(va), SimpV::Unresolved(ub)) => Ok(
                        SimpV::Unresolved(
                            SExprAbsV::BinOp(Box::new(ub), Box::new(SExprAbsV::Val(va)), op),
                        ),
                    ),
                    (SimpV::Unresolved(ua), SimpV::Unresolved(ub)) => Ok(
                        SimpV::Unresolved(SExprAbsV::BinOp(Box::new(ua), Box::new(ub), op)),
                    ),
                },
            },
        },
        SExprAbsV::Var(_, name) => match st.resolved_then_input(name, t) {
            Some(v) => Ok(SimpV::Resolved(v)),
            None => match st.unresolved_at(name, t) {
                Some(u) => Ok(SimpV::Unresolved(u)),
                None => Ok(SimpV::Resolved(ValueV::Unknown)),
            },
        },
        SExprAbsV::SIndex(x, at, d) => if at <= t {
            simplify_abs_in(*x, at, st)
        } else {
            Ok(SimpV::Unresolved(SExprAbsV::SIndex(x, at, d)))
        },
        SExprAbsV::If(b, x, y) => match simplify_abs_in(*b, t, st) {
            Err(err) => Err(err),
            Ok(SimpV::Resolved(ValueV::Bool(true))) => simplify_abs_in(*x, t, st),
            Ok(SimpV::Resolved(ValueV::Bool(false))) => simplify_abs_in(*y, t, st),
            Ok(SimpV::Unresolved(ub)) => Ok(SimpV::Unresolved(SExprAbsV::If(Box::new(ub), x, y))),
            Ok(SimpV::Resolved(_)) => Err(SolverError::TypeMismatch),
        },
        SExprAbsV::Default(x, d) => match simplify_abs_in(*x, t, st) {
            Err(err) => Err(err),
            Ok(SimpV::Resolved(ValueV::Unknown)) => simplify_abs_in(*d, t, st),
            Ok(SimpV::Resolved(v)) => Ok(SimpV::Resolved(v)),
            Ok(SimpV::Unresolved(ux)) => Ok(SimpV::Unresolved(SExprAbsV::Default(Box::new(ux), d))),
        },
        _ => Err(SolverError::Unsupported),
    }
}

/// Simplifying an absolute expression at time `t` against a store.
pub open spec fn simplify_abs_spec(e: SExprAbsV, t: usize, store: ConstraintStore) -> Result<
    SimpV<SExprAbsV>,
    SolverError,
> {
    simplify_abs_in(e, t, store.streams())
}

impl SExprAbs {
    /// Simplifies the expression at time `base_time` as far as the store allows.
    /// Where the expression has no value, the result is an error (see
    /// `SolverError`).
    pub fn simplify(&self, base_time: usize, store: &ConstraintStore) -> (res: Result<
        SimplifyResult<Box<SExprAbs>>,
        SolverError,
    >)
        ensures
            abs_outcome(res) == simplify_abs_spec(self@, base_time, *store),
        decreases self,
    {
        match self {
            SExprAbs::Val(v) => Ok(SimplifyResult::Resolved(v.clone())),
            SExprAbs::BinOp(a, b, op) => {
                let ra = match a.simplify(base_time, store) {
                    Ok(r) => r,
                    Err(err) => {
                        return Err(err);
                    },
                };
                let rb = match b.simplify(base_time, store) {
                    Ok(r) => r,
                    Err(err) => {
                        return Err(err);
                    },
                };
                match (ra, rb) {
                    (SimplifyResult::Resolved(va), SimplifyResult::Resolved(vb)) => {
                        match binop_table(&va, &vb, *op) {
                            Ok(v) => Ok(SimplifyResult::Resolved(v)),
                            Err(err) => Err(err),
                        }
                    },
                    (SimplifyResult::Unresolved(ua), SimplifyResult::Resolved(vb)) => {
                        let node = SExprAbs::Val(vb);
                        proof {
                            assert(node@ == SExprAbsV::Val(vb@));
                        }
                        Ok(SimplifyResult::Unresolved(Box::new(SExprAbs::BinOp(ua, Box::new(node), *op))))
                    },
                    (SimplifyResult::Resolved(va), SimplifyResult::Unresolved(ub)) => {
                        let node = SExprAbs::Val(va);
                        proof {
                            assert(node@ == SExprAbsV::Val(va@));
                        }
                        Ok(SimplifyResult::Unresolved(Box::new(SExprAbs::BinOp(ub, Box::new(node), *op))))
                    },
                    (SimplifyResult::Unresolved(ua), SimplifyResult::Unresolved(ub)) => Ok(
                        SimplifyResult::Unresolved(Box::new(SExprAbs::BinOp(ua, ub, *op))),
                    ),
                }
            },
            SExprAbs::Var(_, name) => {
                match store.get_from_outputs_resolved(name, &base_time) {
                    Some(v) => {
                        return Ok(SimplifyResult::Resolved(v.clone()));
                    },
                    None => {},
                }
                match store.get_from_input_streams(name, &base_time) {
                    Some(v) => {
                        return Ok(SimplifyResult::Resolved(v.clone()));
                    },
                    None => {},
                }
                match store.get_from_outputs_unresolved(name, &base_time) {
                    Some(e) => Ok(SimplifyResult::Unresolved(Box::new(e.deep_clone()))),
                    None => Ok(SimplifyResult::Resolved(Value::Unknown)),
                }
            },
            SExprAbs::SIndex(x, at, d) => {
                if *at <= base_time {
                    x.simplify(*at, store)
                } else {
                    Ok(
                        SimplifyResult::Unresolved(
                            Box::new(SExprAbs::SIndex(Box::new(x.deep_clone()), *at, d.clone())),
                        ),
                    )
                }
            },
            SExprAbs::If(b, x, y) => {
                match b.simplify(base_time, store) {
                    Err(err) => Err(err),
                    Ok(SimplifyResult::Resolved(Value::Bool(true))) => x.simplify(base_time, store),
                    Ok(SimplifyResult::Resolved(Value::Bool(false))) => y.simplify(base_time, store),
                    Ok(SimplifyResult::Unresolved(ub)) => Ok(
                        SimplifyResult::Unresolved(
                            Box::new(
                                SExprAbs::If(
                                    ub,
                                    Box::new(x.deep_clone()),
                                    Box::new(y.deep_clone()),
                                ),
                            ),
                        ),
                    ),
                    Ok(SimplifyResult::Resolved(_)) => Err(SolverError::TypeMismatch),
                }
            },
            SExprAbs::Default(x, d) => {
                match x.simplify(base_time, store) {
                    Err(err) => Err(err),
                    Ok(SimplifyResult::Resolved(Value::Unknown)) => d.simplify(base_time, store),
                    Ok(SimplifyResult::Resolved(v)) => Ok(SimplifyResult::Resolved(v)),
                    Ok(SimplifyResult::Unresolved(ux)) => Ok(
                        SimplifyResult::Unresolved(
                            Box::new(SExprAbs::Default(ux, Box::new(d.deep_clone()))),
                        ),
                    ),
                }
            },
            _ => Err(SolverError::Unsupported),
        }
    }
}

/// Whether `e` can be solved at time `t` for good (not only at `t`): every
/// variable it reads now has a known value.
pub open spec fn is_solveable_spec(e: SExprV, t: usize, store: ConstraintStore) -> Result<
    bool,
    SolverError,
>
    decreases e,
{
    match e {
        SExprV::Val(_) => Ok(true),
        SExprV::BinOp(a, b, _) => match is_solveable_spec(*a, t, store) {
            Err(err) => Err(err),
            Ok(false) => Ok(false),
            Ok(true) => is_solveable_spec(*b, t, store),
        },
        SExprV::Var(name) => Ok(
            match store.resolved_then_input(name, t) {
                Some(v) => v != ValueV::Unknown,
                None => false,
            },
        ),
        SExprV::SIndex(x, rel, _) => {
            let nt = t + rel;
            if nt < 0 {
                Ok(true)
            } else if nt > usize::MAX {
                Err(SolverError::Overflow)
            } else {
                is_solveable_spec(*x, nt as usize, store)
            }
        },
        SExprV::If(b, x, y) => match is_solveable_spec(*b, t, store) {
            Err(err) => Err(err),
            Ok(false) => Ok(false),
            Ok(true) => match is_solveable_spec(*x, t, store) {
                Err(err) => Err(err),
                Ok(false) => Ok(false),
                Ok(true) => is_solveable_spec(*y, t, store),
            },
        },
        SExprV::Defer(x) => is_solveable_spec(*x, t, store),
        SExprV::Update(_, r) => is_solveable_spec(*r, t, store),
        SExprV::Default(_, _) => Ok(true),
        _ => Err(SolverError::Unsupported),
    }
}

impl SExpr {
    /// Whether the expression can be solved at `base_time` for good.
    pub fn is_solveable(&self, base_time: usize, store: &ConstraintStore) -> (res: Result<
        bool,
        SolverError,
    >)
        ensures
            res == is_solveable_spec(self@, base_time, *store),
        decreases self,
    {
        match self {
            SExpr::Val(_) => Ok(true),
            SExpr::BinOp(a, b, _) => match a.is_solveable(base_time, store) {
                Err(err) => Err(err),
                Ok(false) => Ok(false),
                Ok(true) => b.is_solveable(base_time, store),
            },
            SExpr::Var(name) => {
                let v = match store.get_from_outputs_resolved(name, &base_time) {
                    Some(v) => Some(v),
                    None => store.get_from_input_streams(name, &base_time),
                };
                match v {
                    Some(v) => Ok(!v.equals(&Value::Unknown)),
                    None => Ok(false),
                }
            },
            SExpr::SIndex(x, rel, _) => {
                let nt: i128 = (base_time as i128) + (*rel as i128);
                if nt < 0 {
                    Ok(true)
                } else if nt > usize::MAX as i128 {
                    Err(SolverError::Overflow)
                } else {
                    x.is_solveable(nt as usize, store)
                }
            },
            SExpr::If(b, x, y) => match b.is_solveable(base_time, store) {
                Err(err) => Err(err),
                Ok(false) => Ok(false),
                Ok(true) => match x.is_solveable(base_time, store) {
                    Err(err) => Err(err),
                    Ok(false) => Ok(false),
                    Ok(true) => y.is_solveable(base_time, store),
                },
            },
            SExpr::Defer(x) => x.is_solveable(base_time, store),
            SExpr::Update(_, r) => r.is_solveable(base_time, store),
            SExpr::Default(_, _) => Ok(true),
            _ => Err(SolverError::Unsupported),
        }
    }
}

/// The expression read from the start of a deferred property.
pub open spec fn parse_defer(s: Seq<char>) -> Option<SExprV> {
    match sexpr_spec(s, 0) {
        Some((e, _)) => Some(e),
        None => None,
    }
}

/// What a deferred property amounts to at a given time.
pub enum DeferProp {
    /// The text of the property.
    Text(Seq<char>),
    /// No property yet: the deferral stays, over this expression.
    Wait(SExprV),
    /// The property is of a wrong type, or finding it failed.
    Fail(SolverError),
}

/// The property of `defer(x)` at time `t`, given the outcome `r` of
/// simplifying `x`.
pub open spec fn defer_property(
    x: SExprV,
    r: Result<SimpV<SExprV>, SolverError>,
    t: usize,
    store: ConstraintStore,
) -> DeferProp {
    match r {
        Err(err) => DeferProp::Fail(err),
        Ok(SimpV::Resolved(ValueV::Str(s))) => DeferProp::Text(s),
        Ok(SimpV::Resolved(ValueV::Unknown)) => DeferProp::Wait(x),
        Ok(SimpV::Resolved(_)) => DeferProp::Fail(SolverError::InvalidDeferProperty),
        Ok(SimpV::Unresolved(SExprV::Var(name))) => match store.input_then_resolved(name, t) {
            Some(ValueV::Str(s)) => DeferProp::Text(s),
            Some(ValueV::Unknown) => DeferProp::Wait(SExprV::Var(name)),
            Some(_) => DeferProp::Fail(SolverError::InvalidDeferProperty),
            None => DeferProp::Wait(SExprV::Var(name)),
        },
        Ok(SimpV::Unresolved(other)) => match to_absolute_spec(other, t) {
            Err(err) => DeferProp::Fail(err),
            Ok(a) => match simplify_abs_spec(a, t, store) {
                Err(err) => DeferProp::Fail(err),
                Ok(SimpV::Resolved(ValueV::Str(s))) => DeferProp::Text(s),
                Ok(SimpV::Resolved(ValueV::Unknown)) => DeferProp::Wait(other),
                Ok(SimpV::Unresolved(_)) => DeferProp::Wait(other),
                Ok(SimpV::Resolved(_)) => DeferProp::Fail(SolverError::InvalidDeferProperty),
            },
        },
    }
}

/// The model of the outcome of simplifying an expression.
pub open spec fn sexpr_outcome(r: Result<SimplifyResult<Box<SExpr>>, SolverError>) -> Result<
    SimpV<SExprV>,
    SolverError,
> {
    match r {
        Ok(SimplifyResult::Resolved(v)) => Ok(SimpV::Resolved(v@)),
        Ok(SimplifyResult::Unresolved(e)) => Ok(SimpV::Unresolved((*e)@)),
        Err(err) => Err(err),
    }
}

/// Simplifying `e` (the expression of output `var`) at time `t`: the outcome
/// and the dependencies afterwards. A deferred property is read as an
/// expression and simplified in place of the deferral, at most `fuel` times
/// in a row.
pub open spec fn simplify_spec(
    e: SExprV,
    t: usize,
    store: ConstraintStore,
    var: Seq<char>,
    deps: DepsV,
    fuel: nat,
) -> (Result<SimpV<SExprV>, SolverError>, DepsV)
    decreases fuel, e,
{
    match e {
        SExprV::Val(v) => (Ok(SimpV::Resolved(v)), deps),
        SExprV::BinOp(a, b, op) => {
            let (ra, d1) = simplify_spec(*a, t, store, var, deps, fuel);
            match ra {
                Err(err) => (Err(err), d1),
                Ok(ra) => {
                    let (rb, d2) = simplify_spec(*b, t, store, var, d1, fuel);
                    match rb {
                        Err(err) => (Err(err), d2),
                        Ok(rb) => (
                            match (ra, rb) {
                                (SimpV::Resolved(va), SimpV::Resolved(vb)) => match binop_spec(
                                    va,
                                    vb,
                                    op,
                                ) {
                                    Ok(v) => Ok(SimpV::Resolved(v)),
                                    Err(err) => Err(err),
                                },
                                (SimpV::Unresolved(ua), SimpV::Resolved(vb)) => Ok(
                                    SimpV::Unresolved(
                                        SExprV::BinOp(Box::new(ua), Box::new(SExprV::Val(vb)), op),
                                    ),
                                ),
                                (SimpV::Resolved(va), SimpV::Unresolved(ub)) => Ok(
                                    SimpV::Unresolved(
                                        SExprV::BinOp(Box::new(ub), Box::new(SExprV::Val(va)), op),
                                    ),
                                ),
                                (SimpV::Unresolved(ua), SimpV::Unresolved(ub)) => Ok(
                                    SimpV::Unresolved(SExprV::BinOp(Box::new(ua), Box::new(ub), op)),
                                ),
                            },
                            d2,
                        ),
                    }
                },
            }
        },
        SExprV::Var(name) => (Ok(SimpV::Unresolved(SExprV::Var(name))), deps),
        SExprV::SIndex(x, rel, d) => if rel == 0 {
            simplify_spec(*x, t, store, var, deps, fuel)
        } else {
            let (rx, d1) = simplify_spec(*x, t, store, var, deps, fuel);
            (
                match rx {
                    Err(err) => Err(err),
                    Ok(SimpV::Unresolved(ux)) => Ok(
                        SimpV::Unresolved(SExprV::SIndex(Box::new(ux), rel, d)),
                    ),
                    Ok(SimpV::Resolved(v)) => Ok(
                        SimpV::Unresolved(SExprV::SIndex(Box::new(SExprV::Val(v)), rel, d)),
                    ),
                },
                d1,
            )
        },
        SExprV::If(b, x, y) => {
            let (rb, d1) = simplify_spec(*b, t, store, var, deps, fuel);
            match rb {
                Err(err) => (Err(err), d1),
                Ok(SimpV::Resolved(ValueV::Bool(true))) => simplify_spec(*x, t, store, var, d1, fuel),
                Ok(SimpV::Resolved(ValueV::Bool(false))) => simplify_spec(*y, t, store, var, d1, fuel),
                Ok(SimpV::Unresolved(ub)) => (
                    Ok(SimpV::Unresolved(SExprV::If(Box::new(ub), x, y))),
                    d1,
                ),
                Ok(SimpV::Resolved(_)) => (Err(SolverError::TypeMismatch), d1),
            }
        },
        SExprV::Defer(x) => {
            let (rx, d1) = simplify_spec(*x, t, store, var, deps, fuel);
            match defer_property(*x, rx, t, store) {
                DeferProp::Fail(err) => (Err(err), d1),
                DeferProp::Wait(w) => (Ok(SimpV::Unresolved(SExprV::Defer(Box::new(w)))), d1),
                DeferProp::Text(text) => match parse_defer(text) {
                    None => (Err(SolverError::DeferParse), d1),
                    Some(ne) => if fuel == 0 {
                        (Err(SolverError::DeferDepth), d1)
                    } else {
                        let (r2, d2) = simplify_spec(ne, t, store, var, d1, (fuel - 1) as nat);
                        match r2 {
                            Err(err) => (Err(err), d2),
                            Ok(SimpV::Resolved(v)) => (
                                r2,
                                d2.removed(var, *x).added(var, SExprV::Val(v)),
                            ),
                            Ok(SimpV::Unresolved(u)) => (r2, d2.removed(var, *x).added(var, u)),
                        }
                    },
                },
            }
        },
        SExprV::Update(l, r) => match is_solveable_spec(*r, t, store) {
            Err(err) => (Err(err), deps),
            Ok(true) => simplify_spec(*r, t, store, var, deps, fuel),
            Ok(false) => {
                let (rl, d1) = simplify_spec(*l, t, store, var, deps, fuel);
                (
                    match rl {
                        Err(err) => Err(err),
                        Ok(SimpV::Resolved(v)) => Ok(
                            SimpV::Unresolved(SExprV::Update(Box::new(SExprV::Val(v)), r)),
                        ),
                        Ok(SimpV::Unresolved(ul)) => Ok(
                            SimpV::Unresolved(SExprV::Update(Box::new(ul), r)),
                        ),
                    },
                    d1,
                )
            },
        },
        SExprV::Default(x, d) => {
            let (rx, d1) = simplify_spec(*x, t, store, var, deps, fuel);
            match rx {
                Err(err) => (Err(err), d1),
                Ok(SimpV::Resolved(ValueV::Unknown)) => simplify_spec(*d, t, store, var, d1, fuel),
                Ok(SimpV::Resolved(v)) => (Ok(SimpV::Resolved(v)), d1),
                Ok(SimpV::Unresolved(ux)) => (
                    Ok(SimpV::Unresolved(SExprV::Default(Box::new(ux), d))),
                    d1,
                ),
            }
        },
        _ => (Err(SolverError::Unsupported), deps),
    }
}

/// What a deferred property amounts to (see `DeferProp`).
pub enum DeferOutcome {
    Text(String),
    Wait(SExpr),
    Fail(SolverError),
}

/// The model of a `DeferOutcome`.
pub open spec fn defer_outcome_view(o: DeferOutcome) -> DeferProp {
    match o {
        DeferOutcome::Text(s) => DeferProp::Text(s@),
        DeferOutcome::Wait(e) => DeferProp::Wait(e@),
        DeferOutcome::Fail(err) => DeferProp::Fail(err),
    }
}

/// The property of `defer(x)` at time `t`, given the outcome `rx` of
/// simplifying `x` (see `defer_property`).
fn find_defer_property(
    x: &SExpr,
    rx: Result<SimplifyResult<Box<SExpr>>, SolverError>,
    t: usize,
    store: &ConstraintStore,
) -> (res: DeferOutcome)
    ensures
        defer_outcome_view(res) == defer_property(x@, sexpr_outcome(rx), t, *store),
{
    match rx {
        Err(err) => DeferOutcome::Fail(err),
        Ok(SimplifyResult::Resolved(Value::Str(s))) => DeferOutcome::Text(s),
        Ok(SimplifyResult::Resolved(Value::Unknown)) => DeferOutcome::Wait(x.deep_clone()),
        Ok(SimplifyResult::Resolved(_)) => DeferOutcome::Fail(SolverError::InvalidDeferProperty),
        Ok(SimplifyResult::Unresolved(u)) => {
            match *u {
                SExpr::Var(name) => {
                    let found = match store.get_from_input_streams(&name, &t) {
                        Some(v) => Some(v),
                        None => store.get_from_outputs_resolved(&name, &t),
                    };
                    match found {
                        Some(Value::Str(s)) => DeferOutcome::Text(s.clone()),
                        Some(Value::Unknown) => DeferOutcome::Wait(SExpr::Var(name)),
                        Some(_) => DeferOutcome::Fail(SolverError::InvalidDeferProperty),
                        None => DeferOutcome::Wait(SExpr::Var(name)),
                    }
                },
                other => {
                    match other.to_absolute(t) {
                        Err(err) => DeferOutcome::Fail(err),
                        Ok(a) => match a.simplify(t, store) {
                            Err(err) => DeferOutcome::Fail(err),
                            Ok(SimplifyResult::Resolved(Value::Str(s))) => DeferOutcome::Text(s),
                            Ok(SimplifyResult::Resolved(Value::Unknown)) => DeferOutcome::Wait(other),
                            Ok(SimplifyResult::Unresolved(_)) => DeferOutcome::Wait(other),
                            Ok(SimplifyResult::Resolved(_)) => DeferOutcome::Fail(
                                SolverError::InvalidDeferProperty,
                            ),
                        },
                    }
                },
            }
        },
    }
}

impl SExpr {
    /// Simplifies the expression of output `var` at time `base_time` as far as
    /// the store allows, recording in `deps` what a deferred property turned into.
    /// At most `fuel` deferred properties are unfolded in a row. Where the
    /// expression has no value, the result is an error (see `SolverError`).
    pub fn simplify(
        &self,
        base_time: usize,
        store: &ConstraintStore,
        var: &VarName,
        deps: &mut DependencyManager,
        fuel: usize,
    ) -> (res: Result<SimplifyResult<Box<SExpr>>, SolverError>)
        ensures
            (sexpr_outcome(res), final(deps)@) == simplify_spec(
                self@,
                base_time,
                *store,
                var@,
                old(deps)@,
                fuel as nat,
            ),
        decreases fuel, self, 1int,
    {
        match self {
            SExpr::Val(v) => Ok(SimplifyResult::Resolved(v.clone())),
            SExpr::BinOp(..) => self.simplify_binop(base_time, store, var, deps, fuel),
            SExpr::Var(name) => Ok(SimplifyResult::Unresolved(Box::new(SExpr::Var(name.clone())))),
            SExpr::SIndex(..) => self.simplify_sindex(base_time, store, var, deps, fuel),
            SExpr::If(..) => self.simplify_if(base_time, store, var, deps, fuel),
            SExpr::Defer(..) => self.simplify_defer(base_time, store, var, deps, fuel),
            SExpr::Update(..) => self.simplify_update(base_time, store, var, deps, fuel),
            SExpr::Default(..) => self.simplify_default(base_time, store, var, deps, fuel),
            _ => Err(SolverError::Unsupported),
        }
    }

    /// Simplifies a binary operation.
    fn simplify_binop(
        &self,
        base_time: usize,
        store: &ConstraintStore,
        var: &VarName,
        deps: &mut DependencyManager,
        fuel: usize,
    ) -> (res: Result<SimplifyResult<Box<SExpr>>, SolverError>)
        requires
            self is BinOp,
        ensures
            (sexpr_outcome(res), final(deps)@) == simplify_spec(
                self@,
                base_time,
                *store,
                var@,
                old(deps)@,
                fuel as nat,
            ),
        decreases fuel, self, 0int,
    {
        match self {
            SExpr::BinOp(a, b, op) => {
                let ra = match a.simplify(base_time, store, var, deps, fuel) {
                    Ok(r) => r,
                    Err(err) => {
                        return Err(err);
                    },
                };
                let rb = match b.simplify(base_time, store, var, deps, fuel) {
                    Ok(r) => r,
                    Err(err) => {
                        return Err(err);
                    },
                };
                match (ra, rb) {
                    (SimplifyResult::Resolved(va), SimplifyResult::Resolved(vb)) => {
                        match binop_table(&va, &vb, *op) {
                            Ok(v) => Ok(SimplifyResult::Resolved(v)),
                            Err(err) => Err(err),
                        }
                    },
                    (SimplifyResult::Unresolved(ua), SimplifyResult::Resolved(vb)) => {
                        let node = SExpr::Val(vb);
                        proof {
                            assert(node@ == SExprV::Val(vb@));
                        }
                        Ok(SimplifyResult::Unresolved(Box::new(SExpr::BinOp(ua, Box::new(node), *op))))
                    },
                    (SimplifyResult::Resolved(va), SimplifyResult::Unresolved(ub)) => {
                        let node = SExpr::Val(va);
                        proof {
                            assert(node@ == SExprV::Val(va@));
                        }
                        Ok(SimplifyResult::Unresolved(Box::new(SExpr::BinOp(ub, Box::new(node), *op))))
                    },
                    (SimplifyResult::Unresolved(ua), SimplifyResult::Unresolved(ub)) => Ok(
                        SimplifyResult::Unresolved(Box::new(SExpr::BinOp(ua, ub, *op))),
                    ),
                }
            },
            _ => Err(SolverError::Unsupported),
        }
    }

    /// Simplifies a stream index.
    fn simplify_sindex(
        &self,
        base_time: usize,
        store: &ConstraintStore,
        var: &VarName,
        deps: &mut DependencyManager,
        fuel: usize,
    ) -> (res: Result<SimplifyResult<Box<SExpr>>, SolverError>)
        requires
            self is SIndex,
        ensures
            (sexpr_outcome(res), final(deps)@) == simplify_spec(
                self@,
                base_time,
                *store,
                var@,
                old(deps)@,
                fuel as nat,
            ),
        decreases fuel, self, 0int,
    {
        match self {
            SExpr::SIndex(x, rel, d) => {
                if *rel == 0 {
                    x.simplify(base_time, store, var, deps, fuel)
                } else {
                    match x.simplify(base_time, store, var, deps, fuel) {
                        Err(err) => Err(err),
                        Ok(SimplifyResult::Unresolved(ux)) => Ok(
                            SimplifyResult::Unresolved(Box::new(SExpr::SIndex(ux, *rel, d.clone()))),
                        ),
                        Ok(SimplifyResult::Resolved(v)) => {
                            let node = SExpr::Val(v);
                            proof {
                                assert(node@ == SExprV::Val(v@));
                            }
                            Ok(
                                SimplifyResult::Unresolved(
                                    Box::new(SExpr::SIndex(Box::new(node), *rel, d.clone())),
                                ),
                            )
                        },
                    }
                }
            },
            _ => Err(SolverError::Unsupported),
        }
    }

    /// Simplifies a conditional.
    fn simplify_if(
        &self,
        base_time: usize,
        store: &ConstraintStore,
        var: &VarName,
        deps: &mut DependencyManager,
        fuel: usize,
    ) -> (res: Result<SimplifyResult<Box<SExpr>>, SolverError>)
        requires
            self is If,
        ensures
            (sexpr_outcome(res), final(deps)@) == simplify_spec(
                self@,
                base_time,
                *store,
                var@,
                old(deps)@,
                fuel as nat,
            ),
        decreases fuel, self, 0int,
    {
        match self {
            SExpr::If(b, x, y) => {
                match b.simplify(base_time, store, var, deps, fuel) {
                    Err(err) => Err(err),
                    Ok(SimplifyResult::Resolved(Value::Bool(true))) => x.simplify(
                        base_time,
                        store,
                        var,
                        deps,
                        fuel,
                    ),
                    Ok(SimplifyResult::Resolved(Value::Bool(false))) => y.simplify(
                        base_time,
                        store,
                        var,
                        deps,
                        fuel,
                    ),
                    Ok(SimplifyResult::Unresolved(ub)) => Ok(
                        SimplifyResult::Unresolved(
                            Box::new(SExpr::If(ub, Box::new(x.deep_clone()), Box::new(y.deep_clone()))),
                        ),
                    ),
                    Ok(SimplifyResult::Resolved(_)) => Err(SolverError::TypeMismatch),
                }
            },
            _ => Err(SolverError::Unsupported),
        }
    }

    /// Simplifies a deferral: reads its property once it is known.
    fn simplify_defer(
        &self,
        base_time: usize,
        store: &ConstraintStore,
        var: &VarName,
        deps: &mut DependencyManager,
        fuel: usize,
    ) -> (res: Result<SimplifyResult<Box<SExpr>>, SolverError>)
        requires
            self is Defer,
        ensures
            (sexpr_outcome(res), final(deps)@) == simplify_spec(
                self@,
                base_time,
                *store,
                var@,
                old(deps)@,
                fuel as nat,
            ),
        decreases fuel, self, 0int,
    {
        match self {
            SExpr::Defer(x) => {
                let rx = x.simplify(base_time, store, var, deps, fuel);
                match find_defer_property(x, rx, base_time, store) {
                    DeferOutcome::Fail(err) => Err(err),
                    DeferOutcome::Wait(w) => Ok(
                        SimplifyResult::Unresolved(Box::new(SExpr::Defer(Box::new(w)))),
                    ),
                    DeferOutcome::Text(text) => {
                        match lola_expression(text.as_str()) {
                            None => Err(SolverError::DeferParse),
                            Some((ne, _)) => {
                                if fuel == 0 {
                                    Err(SolverError::DeferDepth)
                                } else {
                                    match ne.simplify(base_time, store, var, deps, fuel - 1) {
                                        Err(err) => Err(err),
                                        Ok(SimplifyResult::Resolved(v)) => {
                                            deps.remove_dependency(var, x);
                                            let node = SExpr::Val(v.clone());
                                            proof {
                                                assert(node@ == SExprV::Val(v@));
                                            }
                                            deps.add_dependency(var, &node);
                                            Ok(SimplifyResult::Resolved(v))
                                        },
                                        Ok(SimplifyResult::Unresolved(u)) => {
                                            deps.remove_dependency(var, x);
                                            deps.add_dependency(var, &u);
                                            Ok(SimplifyResult::Unresolved(u))
                                        },
                                    }
                                }
                            },
                        }
                    },
                }
            },
            _ => Err(SolverError::Unsupported),
        }
    }

    /// Simplifies an update.
    fn simplify_update(
        &self,
        base_time: usize,
        store: &ConstraintStore,
        var: &VarName,
        deps: &mut DependencyManager,
        fuel: usize,
    ) -> (res: Result<SimplifyResult<Box<SExpr>>, SolverError>)
        requires
            self is Update,
        ensures
            (sexpr_outcome(res), final(deps)@) == simplify_spec(
                self@,
                base_time,
                *store,
                var@,
                old(deps)@,
                fuel as nat,
            ),
        decreases fuel, self, 0int,
    {
        match self {
            SExpr::Update(l, r) => {
                match r.is_solveable(base_time, store) {
                    Err(err) => Err(err),
                    Ok(true) => r.simplify(base_time, store, var, deps, fuel),
                    Ok(false) => {
                        match l.simplify(base_time, store, var, deps, fuel) {
                            Err(err) => Err(err),
                            Ok(SimplifyResult::Resolved(v)) => {
                                let node = SExpr::Val(v);
                                proof {
                                    assert(node@ == SExprV::Val(v@));
                                }
                                Ok(
                                    SimplifyResult::Unresolved(
                                        Box::new(SExpr::Update(Box::new(node), Box::new(r.deep_clone()))),
                                    ),
                                )
                            },
                            Ok(SimplifyResult::Unresolved(ul)) => Ok(
                                SimplifyResult::Unresolved(
                                    Box::new(SExpr::Update(ul, Box::new(r.deep_clone()))),
                                ),
                            ),
                        }
                    },
                }
            },
            _ => Err(SolverError::Unsupported),
        }
    }

    /// Simplifies a default.
    fn simplify_default(
        &self,
        base_time: usize,
        store: &ConstraintStore,
        var: &VarName,
        deps: &mut DependencyManager,
        fuel: usize,
    ) -> (res: Result<SimplifyResult<Box<SExpr>>, SolverError>)
        requires
            self is Default,
        ensures
            (sexpr_outcome(res), final(deps)@) == simplify_spec(
                self@,
                base_time,
                *store,
                var@,
                old(deps)@,
                fuel as nat,
            ),
        decreases fuel, self, 0int,
    {
        match self {
            SExpr::Default(x, d) => {
                match x.simplify(base_time, store, var, deps, fuel) {
                    Err(err) => Err(err),
                    Ok(SimplifyResult::Resolved(Value::Unknown)) => d.simplify(
                        base_time,
                        store,
                        var,
                        deps,
                        fuel,
                    ),
                    Ok(SimplifyResult::Resolved(v)) => Ok(SimplifyResult::Resolved(v)),
                    Ok(SimplifyResult::Unresolved(ux)) => Ok(
                        SimplifyResult::Unresolved(
                            Box::new(SExpr::Default(ux, Box::new(d.deep_clone()))),
                        ),
                    ),
                }
            },
            _ => Err(SolverError::Unsupported),
        }
    }

}

/// The outcome of simplifying does not depend on the dependencies recorded
/// so far: they are only written.
pub proof fn lemma_simplify_outcome_ignores_deps(
    e: SExprV,
    t: usize,
    store: ConstraintStore,
    var: Seq<char>,
    d1: DepsV,
    d2: DepsV,
    fuel: nat,
)
    ensures
        simplify_spec(e, t, store, var, d1, fuel).0 == simplify_spec(e, t, store, var, d2, fuel).0,
    decreases fuel, e,
{
    match e {
        SExprV::BinOp(a, b, op) => {
            lemma_simplify_outcome_ignores_deps(*a, t, store, var, d1, d2, fuel);
            let (ra, da1) = simplify_spec(*a, t, store, var, d1, fuel);
            let (_, da2) = simplify_spec(*a, t, store, var, d2, fuel);
            lemma_simplify_outcome_ignores_deps(*b, t, store, var, da1, da2, fuel);
        },
        SExprV::SIndex(x, rel, d) => {
            lemma_simplify_outcome_ignores_deps(*x, t, store, var, d1, d2, fuel);
        },
        SExprV::If(b, x, y) => {
            lemma_simplify_outcome_ignores_deps(*b, t, store, var, d1, d2, fuel);
            let (_, db1) = simplify_spec(*b, t, store, var, d1, fuel);
            let (_, db2) = simplify_spec(*b, t, store, var, d2, fuel);
            lemma_simplify_outcome_ignores_deps(*x, t, store, var, db1, db2, fuel);
            lemma_simplify_outcome_ignores_deps(*y, t, store, var, db1, db2, fuel);
        },
        SExprV::Defer(x) => {
            lemma_simplify_outcome_ignores_deps(*x, t, store, var, d1, d2, fuel);
            let (rx, dx1) = simplify_spec(*x, t, store, var, d1, fuel);
            let (_, dx2) = simplify_spec(*x, t, store, var, d2, fuel);
            match defer_property(*x, rx, t, store) {
                DeferProp::Text(text) => match parse_defer(text) {
                    Some(ne) => if fuel > 0 {
                        lemma_simplify_outcome_ignores_deps(
                            ne,
                            t,
                            store,
                            var,
                            dx1,
                            dx2,
                            (fuel - 1) as nat,
                        );
                    },
                    None => {},
                },
                _ => {},
            }
        },
        SExprV::Update(l, r) => {
            lemma_simplify_outcome_ignores_deps(*l, t, store, var, d1, d2, fuel);
            lemma_simplify_outcome_ignores_deps(*r, t, store, var, d1, d2, fuel);
        },
        SExprV::Default(x, d) => {
            lemma_simplify_outcome_ignores_deps(*x, t, store, var, d1, d2, fuel);
            let (_, dx1) = simplify_spec(*x, t, store, var, d1, fuel);
            let (_, dx2) = simplify_spec(*x, t, store, var, d2, fuel);
            lemma_simplify_outcome_ignores_deps(*d, t, store, var, dx1, dx2, fuel);
        },
        _ => {},
    }
}

} // verus!

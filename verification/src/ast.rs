use vstd::prelude::*;
use crate::values::{Value, ValueV, VarName, StreamType, names_view, clone_names};

verus! {

/// Arithmetic operators.
#[derive(Debug, Clone, Copy, PartialEq, Eq, Structural)]
pub enum NumericalBinOp {
    Add,
    Sub,
    Mul,
    Div,
    Mod,
}

/// Arithmetic operators on integers.
#[derive(Debug, Clone, Copy, PartialEq, Eq, Structural)]
pub enum IntBinOp {
    Add,
    Sub,
    Mul,
    Div,
    Mod,
}

/// Arithmetic operators on floats.
#[derive(Debug, Clone, Copy, PartialEq, Eq, Structural)]
pub enum FloatBinOp {
    Add,
    Sub,
    Mul,
    Div,
    Mod,
}

/// Boolean connectives.
#[derive(Debug, Clone, Copy, PartialEq, Eq, Structural)]
pub enum BoolBinOp {
    Or,
    And,
}

/// Operators on strings.
#[derive(Debug, Clone, Copy, PartialEq, Eq, Structural)]
pub enum StrBinOp {
    Concat,
}

/// Comparison operators.
#[derive(Debug, Clone, Copy, PartialEq, Eq, Structural)]
pub enum CompBinOp {
    Eq,
    Le,
    Ge,
    Lt,
    Gt,
}

/// The binary operators of stream expressions.
#[derive(Debug, Clone, Copy, PartialEq, Eq, Structural)]
pub enum SBinOp {
    NOp(NumericalBinOp),
    BOp(BoolBinOp),
    SOp(StrBinOp),
    COp(CompBinOp),
}

impl IntBinOp {
    /// The integer operator with the same meaning as an arithmetic operator.
    pub fn from_numerical(op: NumericalBinOp) -> (res: IntBinOp)
        ensures
            res == (match op {
                NumericalBinOp::Add => IntBinOp::Add,
                NumericalBinOp::Sub => IntBinOp::Sub,
                NumericalBinOp::Mul => IntBinOp::Mul,
                NumericalBinOp::Div => IntBinOp::Div,
                NumericalBinOp::Mod => IntBinOp::Mod,
            }),
    {
        match op {
            NumericalBinOp::Add => IntBinOp::Add,
            NumericalBinOp::Sub => IntBinOp::Sub,
            NumericalBinOp::Mul => IntBinOp::Mul,
            NumericalBinOp::Div => IntBinOp::Div,
            NumericalBinOp::Mod => IntBinOp::Mod,
        }
    }
}

impl FloatBinOp {
    /// The float operator with the same meaning as an arithmetic operator.
    pub fn from_numerical(op: NumericalBinOp) -> (res: FloatBinOp)
        ensures
            res == (match op {
                NumericalBinOp::Add => FloatBinOp::Add,
                NumericalBinOp::Sub => FloatBinOp::Sub,
                NumericalBinOp::Mul => FloatBinOp::Mul,
                NumericalBinOp::Div => FloatBinOp::Div,
                NumericalBinOp::Mod => FloatBinOp::Mod,
            }),
    {
        match op {
            NumericalBinOp::Add => FloatBinOp::Add,
            NumericalBinOp::Sub => FloatBinOp::Sub,
            NumericalBinOp::Mul => FloatBinOp::Mul,
            NumericalBinOp::Div => FloatBinOp::Div,
            NumericalBinOp::Mod => FloatBinOp::Mod,
        }
    }
}

/// The operator written by a symbol, if the symbol names one.
pub open spec fn binop_of_symbol(s: Seq<char>) -> Option<SBinOp> {
    if s == seq!['+'] {
        Some(SBinOp::NOp(NumericalBinOp::Add))
    } else if s == seq!['-'] {
        Some(SBinOp::NOp(NumericalBinOp::Sub))
    } else if s == seq!['*'] {
        Some(SBinOp::NOp(NumericalBinOp::Mul))
    } else if s == seq!['/'] {
        Some(SBinOp::NOp(NumericalBinOp::Div))
    } else if s == seq!['|', '|'] {
        Some(SBinOp::BOp(BoolBinOp::Or))
    } else if s == seq!['&', '&'] {
        Some(SBinOp::BOp(BoolBinOp::And))
    } else if s == seq!['+', '+'] {
        Some(SBinOp::SOp(StrBinOp::Concat))
    } else if s == seq!['=', '='] {
        Some(SBinOp::COp(CompBinOp::Eq))
    } else if s == seq!['<', '='] {
        Some(SBinOp::COp(CompBinOp::Le))
    } else {
        None
    }
}

impl SBinOp {
    /// The operator written by a symbol; `None` for a symbol that names no operator.
    pub fn from_symbol(s: &str) -> (res: Option<SBinOp>)
        ensures
            res == binop_of_symbol(s@),
    {
        let n = s.unicode_len();
        if n == 1 {
            let c = s.get_char(0);
            proof {
                assert(s@ =~= seq![c]);
            }
            if c == '+' {
                Some(SBinOp::NOp(NumericalBinOp::Add))
            } else if c == '-' {
                Some(SBinOp::NOp(NumericalBinOp::Sub))
            } else if c == '*' {
                Some(SBinOp::NOp(NumericalBinOp::Mul))
            } else if c == '/' {
                Some(SBinOp::NOp(NumericalBinOp::Div))
            } else {
                None
            }
        } else if n == 2 {
            let c0 = s.get_char(0);
            let c1 = s.get_char(1);
            proof {
                assert(s@ =~= seq![c0, c1]);
            }
            if c0 == '|' && c1 == '|' {
                Some(SBinOp::BOp(BoolBinOp::Or))
            } else if c0 == '&' && c1 == '&' {
                Some(SBinOp::BOp(BoolBinOp::And))
            } else if c0 == '+' && c1 == '+' {
                Some(SBinOp::SOp(StrBinOp::Concat))
            } else if c0 == '=' && c1 == '=' {
                Some(SBinOp::COp(CompBinOp::Eq))
            } else if c0 == '<' && c1 == '=' {
                Some(SBinOp::COp(CompBinOp::Le))
            } else {
                None
            }
        } else {
            None
        }
    }
}

/// A stream expression, with stream offsets relative to the current time.
#[derive(Debug)]
pub enum SExpr {
    /// if-then-else
    If(Box<SExpr>, Box<SExpr>, Box<SExpr>),
    /// `e[i, c]`: the value of `e` at the relative time `i`, `c` before the stream starts
    SIndex(Box<SExpr>, isize, Value),
    Val(Value),
    BinOp(Box<SExpr>, Box<SExpr>, SBinOp),
    Var(VarName),
    Eval(Box<SExpr>),
    Defer(Box<SExpr>),
    Update(Box<SExpr>, Box<SExpr>),
    Default(Box<SExpr>, Box<SExpr>),
    IsDefined(Box<SExpr>),
    When(Box<SExpr>),
    Not(Box<SExpr>),
    List(Vec<SExpr>),
    LIndex(Box<SExpr>, Box<SExpr>),
    LAppend(Box<SExpr>, Box<SExpr>),
    LConcat(Box<SExpr>, Box<SExpr>),
    LHead(Box<SExpr>),
    LTail(Box<SExpr>),
}

/// The mathematical model of an `SExpr`.
pub enum SExprV {
    If(Box<SExprV>, Box<SExprV>, Box<SExprV>),
    SIndex(Box<SExprV>, isize, ValueV),
    Val(ValueV),
    BinOp(Box<SExprV>, Box<SExprV>, SBinOp),
    Var(Seq<char>),
    Eval(Box<SExprV>),
    Defer(Box<SExprV>),
    Update(Box<SExprV>, Box<SExprV>),
    Default(Box<SExprV>, Box<SExprV>),
    IsDefined(Box<SExprV>),
    When(Box<SExprV>),
    Not(Box<SExprV>),
    List(Seq<SExprV>),
    LIndex(Box<SExprV>, Box<SExprV>),
    LAppend(Box<SExprV>, Box<SExprV>),
    LConcat(Box<SExprV>, Box<SExprV>),
    LHead(Box<SExprV>),
    LTail(Box<SExprV>),
}

impl View for SExpr {
    type V = SExprV;

    open spec fn view(&self) -> SExprV {
        sexpr_view(*self)
    }
}

/// The model of an expression, node by node.
pub open spec fn sexpr_view(e: SExpr) -> SExprV
    decreases e,
{
    match e {
        SExpr::If(b, t, f) => SExprV::If(
            Box::new(sexpr_view(*b)),
            Box::new(sexpr_view(*t)),
            Box::new(sexpr_view(*f)),
        ),
        SExpr::SIndex(x, i, d) => SExprV::SIndex(Box::new(sexpr_view(*x)), i, d@),
        SExpr::Val(v) => SExprV::Val(v@),
        SExpr::BinOp(a, b, op) => SExprV::BinOp(
            Box::new(sexpr_view(*a)),
            Box::new(sexpr_view(*b)),
            op,
        ),
        SExpr::Var(n) => SExprV::Var(n@),
        SExpr::Eval(x) => SExprV::Eval(Box::new(sexpr_view(*x))),
        SExpr::Defer(x) => SExprV::Defer(Box::new(sexpr_view(*x))),
        SExpr::Update(a, b) => SExprV::Update(Box::new(sexpr_view(*a)), Box::new(sexpr_view(*b))),
        SExpr::Default(a, b) => SExprV::Default(
            Box::new(sexpr_view(*a)),
            Box::new(sexpr_view(*b)),
        ),
        SExpr::IsDefined(x) => SExprV::IsDefined(Box::new(sexpr_view(*x))),
        SExpr::When(x) => SExprV::When(Box::new(sexpr_view(*x))),
        SExpr::Not(x) => SExprV::Not(Box::new(sexpr_view(*x))),
        SExpr::List(es) => SExprV::List(
            Seq::new(
                es.len() as nat,
                |i: int|
                    if 0 <= i < es.len() {
                        sexpr_view(es@[i])
                    } else {
                        SExprV::Val(ValueV::Unknown)
                    },
            ),
        ),
        SExpr::LIndex(a, b) => SExprV::LIndex(Box::new(sexpr_view(*a)), Box::new(sexpr_view(*b))),
        SExpr::LAppend(a, b) => SExprV::LAppend(
            Box::new(sexpr_view(*a)),
            Box::new(sexpr_view(*b)),
        ),
        SExpr::LConcat(a, b) => SExprV::LConcat(
            Box::new(sexpr_view(*a)),
            Box::new(sexpr_view(*b)),
        ),
        SExpr::LHead(x) => SExprV::LHead(Box::new(sexpr_view(*x))),
        SExpr::LTail(x) => SExprV::LTail(Box::new(sexpr_view(*x))),
    }
}

impl SExpr {
    /// A copy of the expression.
    #[verifier::loop_isolation(false)]
    pub fn deep_clone(&self) -> (res: SExpr)
        ensures
            res@ == self@,
        decreases self,
    {
        match self {
            SExpr::If(b, t, f) => SExpr::If(
                Box::new(b.deep_clone()),
                Box::new(t.deep_clone()),
                Box::new(f.deep_clone()),
            ),
            SExpr::SIndex(x, i, d) => SExpr::SIndex(Box::new(x.deep_clone()), *i, d.clone()),
            SExpr::Val(v) => SExpr::Val(v.clone()),
            SExpr::BinOp(a, b, op) => SExpr::BinOp(
                Box::new(a.deep_clone()),
                Box::new(b.deep_clone()),
                *op,
            ),
            SExpr::Var(n) => SExpr::Var(n.clone()),
            SExpr::Eval(x) => SExpr::Eval(Box::new(x.deep_clone())),
            SExpr::Defer(x) => SExpr::Defer(Box::new(x.deep_clone())),
            SExpr::Update(a, b) => SExpr::Update(Box::new(a.deep_clone()), Box::new(b.deep_clone())),
            SExpr::Default(a, b) => SExpr::Default(
                Box::new(a.deep_clone()),
                Box::new(b.deep_clone()),
            ),
            SExpr::IsDefined(x) => SExpr::IsDefined(Box::new(x.deep_clone())),
            SExpr::When(x) => SExpr::When(Box::new(x.deep_clone())),
            SExpr::Not(x) => SExpr::Not(Box::new(x.deep_clone())),
            SExpr::List(es) => {
                let mut out: Vec<SExpr> = Vec::new();
                let mut i: usize = 0;
                while i < es.len()
                    invariant
                        i <= es.len(),
                        out.len() == i,
                        forall|j: int| 0 <= j < i ==> (#[trigger] out@[j])@ == es@[j]@,
                    decreases es.len() - i,
                {
                    proof {
                        assert(decreases_to!(*es => es[i as int]));
                    }
                    let c = es[i].deep_clone();
                    out.push(c);
                    i = i + 1;
                }
                let res = SExpr::List(out);
                proof {
                    assert(res@->List_0 =~= self@->List_0);
                }
                res
            },
            SExpr::LIndex(a, b) => SExpr::LIndex(Box::new(a.deep_clone()), Box::new(b.deep_clone())),
            SExpr::LAppend(a, b) => SExpr::LAppend(
                Box::new(a.deep_clone()),
                Box::new(b.deep_clone()),
            ),
            SExpr::LConcat(a, b) => SExpr::LConcat(
                Box::new(a.deep_clone()),
                Box::new(b.deep_clone()),
            ),
            SExpr::LHead(x) => SExpr::LHead(Box::new(x.deep_clone())),
            SExpr::LTail(x) => SExpr::LTail(Box::new(x.deep_clone())),
        }
    }

    /// Structural equality of two expressions.
    #[verifier::loop_isolation(false)]
    pub fn equals(&self, other: &SExpr) -> (res: bool)
        ensures
            res == (self@ == other@),
        decreases self,
    {
        match self {
            SExpr::If(b, t, f) => match other {
                SExpr::If(b2, t2, f2) => b.equals(b2) && t.equals(t2) && f.equals(f2),
                _ => false,
            },
            SExpr::SIndex(x, i, d) => match other {
                SExpr::SIndex(x2, i2, d2) => *i == *i2 && d.equals(d2) && x.equals(x2),
                _ => false,
            },
            SExpr::Val(v) => match other {
                SExpr::Val(v2) => v.equals(v2),
                _ => false,
            },
            SExpr::BinOp(a, b, op) => match other {
                SExpr::BinOp(a2, b2, op2) => *op == *op2 && a.equals(a2) && b.equals(b2),
                _ => false,
            },
            SExpr::Var(n) => match other {
                SExpr::Var(n2) => n.equals(n2),
                _ => false,
            },
            SExpr::Eval(x) => match other {
                SExpr::Eval(x2) => x.equals(x2),
                _ => false,
            },
            SExpr::Defer(x) => match other {
                SExpr::Defer(x2) => x.equals(x2),
                _ => false,
            },
            SExpr::Update(a, b) => match other {
                SExpr::Update(a2, b2) => a.equals(a2) && b.equals(b2),
                _ => false,
            },
            SExpr::Default(a, b) => match other {
                SExpr::Default(a2, b2) => a.equals(a2) && b.equals(b2),
                _ => false,
            },
            SExpr::IsDefined(x) => match other {
                SExpr::IsDefined(x2) => x.equals(x2),
                _ => false,
            },
            SExpr::When(x) => match other {
                SExpr::When(x2) => x.equals(x2),
                _ => false,
            },
            SExpr::Not(x) => match other {
                SExpr::Not(x2) => x.equals(x2),
                _ => false,
            },
            SExpr::List(a) => {
                let b = match other {
                    SExpr::List(b) => b,
                    _ => {
                        return false;
                    },
                };
                if a.len() != b.len() {
                    proof {
                        assert(self@->List_0.len() != other@->List_0.len());
                    }
                    return false;
                }
                let mut i: usize = 0;
                while i < a.len()
                    invariant
                        i <= a.len(),
                        a.len() == b.len(),
                        forall|j: int| 0 <= j < i ==> (#[trigger] a@[j])@ == b@[j]@,
                    decreases a.len() - i,
                {
                    proof {
                        assert(decreases_to!(*a => a[i as int]));
                    }
                    if !a[i].equals(&b[i]) {
                        proof {
                            assert(self@->List_0[i as int] == a@[i as int]@);
                            assert(other@->List_0[i as int] == b@[i as int]@);
                        }
                        return false;
                    }
                    i = i + 1;
                }
                proof {
                    assert(self@->List_0 =~= other@->List_0);
                }
                true
            },
            SExpr::LIndex(a, b) => match other {
                SExpr::LIndex(a2, b2) => a.equals(a2) && b.equals(b2),
                _ => false,
            },
            SExpr::LAppend(a, b) => match other {
                SExpr::LAppend(a2, b2) => a.equals(a2) && b.equals(b2),
                _ => false,
            },
            SExpr::LConcat(a, b) => match other {
                SExpr::LConcat(a2, b2) => a.equals(a2) && b.equals(b2),
                _ => false,
            },
            SExpr::LHead(x) => match other {
                SExpr::LHead(x2) => x.equals(x2),
                _ => false,
            },
            SExpr::LTail(x) => match other {
                SExpr::LTail(x2) => x.equals(x2),
                _ => false,
            },
        }
    }
}

/// A specification: its input and output streams, the expression defining
/// each output, and the declared types of some streams.
#[derive(Debug)]
pub struct LOLASpecification {
    pub input_vars: Vec<VarName>,
    pub output_vars: Vec<VarName>,
    pub exprs: Vec<(VarName, SExpr)>,
    pub type_annotations: Vec<(VarName, StreamType)>,
}

/// The first expression recorded for `name`.
pub open spec fn expr_lookup(exprs: Seq<(VarName, SExpr)>, name: Seq<char>) -> Option<SExprV>
    decreases exprs.len(),
{
    if exprs.len() == 0 {
        None
    } else if exprs[0].0@ == name {
        Some(exprs[0].1@)
    } else {
        expr_lookup(exprs.drop_first(), name)
    }
}

impl LOLASpecification {
    /// Makes a specification from its parts.
    pub fn new(
        input_vars: Vec<VarName>,
        output_vars: Vec<VarName>,
        exprs: Vec<(VarName, SExpr)>,
        type_annotations: Vec<(VarName, StreamType)>,
    ) -> (res: LOLASpecification)
        ensures
            res.input_vars == input_vars,
            res.output_vars == output_vars,
            res.exprs == exprs,
            res.type_annotations == type_annotations,
    {
        LOLASpecification { input_vars, output_vars, exprs, type_annotations }
    }

    /// The inputs followed by the outputs.
    pub open spec fn vars_view(&self) -> Seq<Seq<char>> {
        names_view(self.input_vars@) + names_view(self.output_vars@)
    }

    /// A copy of the specification.
    pub fn deep_clone(&self) -> (res: LOLASpecification)
        ensures
            names_view(res.input_vars@) == names_view(self.input_vars@),
            names_view(res.output_vars@) == names_view(self.output_vars@),
            exprs_view(res.exprs@) == exprs_view(self.exprs@),
            annotations_view(res.type_annotations@) == annotations_view(self.type_annotations@),
    {
        let mut exprs: Vec<(VarName, SExpr)> = Vec::new();
        let mut j: usize = 0;
        while j < self.exprs.len()
            invariant
                j <= self.exprs.len(),
                exprs.len() == j,
                forall|t: int|
                    0 <= t < j ==> (#[trigger] exprs@[t]).0@ == self.exprs@[t].0@ && exprs@[t].1@
                        == self.exprs@[t].1@,
            decreases self.exprs.len() - j,
        {
            let entry = (self.exprs[j].0.clone(), self.exprs[j].1.deep_clone());
            exprs.push(entry);
            j = j + 1;
        }
        let mut anns: Vec<(VarName, StreamType)> = Vec::new();
        let mut k: usize = 0;
        while k < self.type_annotations.len()
            invariant
                k <= self.type_annotations.len(),
                anns.len() == k,
                forall|t: int|
                    0 <= t < k ==> (#[trigger] anns@[t]).0@ == self.type_annotations@[t].0@
                        && anns@[t].1 == self.type_annotations@[t].1,
            decreases self.type_annotations.len() - k,
        {
            let entry = (self.type_annotations[k].0.clone(), self.type_annotations[k].1);
            anns.push(entry);
            k = k + 1;
        }
        proof {
            assert(exprs_view(exprs@) =~= exprs_view(self.exprs@));
            assert(annotations_view(anns@) =~= annotations_view(self.type_annotations@));
        }
        LOLASpecification {
            input_vars: clone_names(&self.input_vars),
            output_vars: clone_names(&self.output_vars),
            exprs,
            type_annotations: anns,
        }
    }
}

/// What a monitor needs of a specification: its input and output streams,
/// and the expression that defines each output.
pub trait Specification {
    type Expr;

    fn input_vars(&self) -> Vec<VarName>;

    fn output_vars(&self) -> Vec<VarName>;

    fn var_expr(&self, var: &VarName) -> Option<Self::Expr>;
}

impl Specification for LOLASpecification {
    type Expr = SExpr;

    /// The input streams.
    fn input_vars(&self) -> (res: Vec<VarName>)
        ensures
            names_view(res@) == names_view(self.input_vars@),
    {
        clone_names(&self.input_vars)
    }

    /// The output streams.
    fn output_vars(&self) -> (res: Vec<VarName>)
        ensures
            names_view(res@) == names_view(self.output_vars@),
    {
        clone_names(&self.output_vars)
    }

    /// The expression that defines `var`, if there is one.
    fn var_expr(&self, var: &VarName) -> (res: Option<SExpr>)
        ensures
            match res {
                Some(e) => expr_lookup(self.exprs@, var@) == Some(e@),
                None => expr_lookup(self.exprs@, var@) is None,
            },
    {
        let mut i: usize = 0;
        proof {
            assert(self.exprs@.skip(0) =~= self.exprs@);
        }
        while i < self.exprs.len()
            invariant
                i <= self.exprs.len(),
                expr_lookup(self.exprs@, var@) == expr_lookup(self.exprs@.skip(i as int), var@),
            decreases self.exprs.len() - i,
        {
            proof {
                assert(self.exprs@.skip(i as int).drop_first() =~= self.exprs@.skip(i + 1));
            }
            if self.exprs[i].0.equals(var) {
                return Some(self.exprs[i].1.deep_clone());
            }
            i = i + 1;
        }
        None
    }
}

/// The views of the defining expressions of a specification.
pub open spec fn exprs_view(es: Seq<(VarName, SExpr)>) -> Seq<(Seq<char>, SExprV)> {
    Seq::new(es.len(), |i: int| (es[i].0@, es[i].1@))
}

/// The views of the type annotations of a specification.
pub open spec fn annotations_view(ts: Seq<(VarName, StreamType)>) -> Seq<(Seq<char>, StreamType)> {
    Seq::new(ts.len(), |i: int| (ts[i].0@, ts[i].1))
}

} // verus!

use trustworthiness_checker::ast::SBinOp;
use trustworthiness_checker::dist::{DistConstraint, DistConstraintBody, DistConstraintType};
use trustworthiness_checker::dist_parser::{dist_constraint, dist_constraint_body, dist_constraints};
use trustworthiness_checker::display::ContextId;
use trustworthiness_checker::values::{Value, VarName};

fn show_str(s: &str) -> String {
    format!("{:?}", s)
}

fn show_value(v: &Value) -> String {
    match v {
        Value::Int(i) => format!("Int({})", i),
        Value::Float(b) => format!("Float({:?})", f32::from_bits(*b)),
        Value::Str(s) => format!("Str({})", show_str(s)),
        Value::Bool(b) => format!("Bool({})", b),
        Value::List(vs) => format!("List([{}])", vs.iter().map(show_value).collect::<Vec<_>>().join(", ")),
        Value::Unknown => "Unknown".to_string(),
        Value::Unit => "Unit".to_string(),
    }
}

fn show_name(n: &VarName) -> String {
    format!("VarName::new({})", show_str(&n.name()))
}

fn show_op(op: &SBinOp) -> String {
    format!("{:?}", op)
}

fn show(e: &DistConstraintBody) -> String {
    match e {
        DistConstraintBody::If(b, t, f) => format!("If({}, {}, {})", show(b), show(t), show(f)),
        DistConstraintBody::SIndex(x, i, d) => format!("SIndex({}, {}, {})", show(x), i, show_value(d)),
        DistConstraintBody::Val(v) => format!("Val({})", show_value(v)),
        DistConstraintBody::BinOp(a, b, op) => format!("BinOp({}, {}, {})", show(a), show(b), show_op(op)),
        DistConstraintBody::Var(n) => format!("Var({})", show_name(n)),
        DistConstraintBody::Default(a, b) => format!("Default({}, {})", show(a), show(b)),
        DistConstraintBody::IsDefined(x) => format!("IsDefined({})", show(x)),
        DistConstraintBody::Not(x) => format!("Not({})", show(x)),
        DistConstraintBody::List(es) => format!("List([{}])", es.iter().map(show).collect::<Vec<_>>().join(", ")),
        DistConstraintBody::LIndex(a, b) => format!("LIndex({}, {})", show(a), show(b)),
        DistConstraintBody::LAppend(a, b) => format!("LAppend({}, {})", show(a), show(b)),
        DistConstraintBody::LConcat(a, b) => format!("LConcat({}, {})", show(a), show(b)),
        DistConstraintBody::LHead(x) => format!("LHead({})", show(x)),
        DistConstraintBody::LTail(x) => format!("LTail({})", show(x)),
        DistConstraintBody::Sin(x) => format!("Sin({})", show(x)),
        DistConstraintBody::Cos(x) => format!("Cos({})", show(x)),
        DistConstraintBody::Tan(x) => format!("Tan({})", show(x)),
        DistConstraintBody::Monitor(n) => format!("Monitor({})", show_name(n)),
        DistConstraintBody::Source(n) => format!("Source({})", show_name(n)),
        DistConstraintBody::Dist(x) => format!("Dist({})", show(x)),
        DistConstraintBody::WeightedDist(a, b) => format!("WeightedDist({}, {})", show(a), show(b)),
        DistConstraintBody::Sum(n) => format!("Sum({})", show_name(n)),
    }
}

fn body_str(s: &str) -> String {
    match dist_constraint_body(s) {
        Some((e, _)) => format!("Ok({})", show(&e)),
        None => "Err(ContextError { context: [], cause: None })".to_string(),
    }
}

fn body(s: &str) -> DistConstraintBody {
    dist_constraint_body(s).unwrap().0
}

fn same(a: &DistConstraintBody, b: &DistConstraintBody) -> bool {
    show(a) == show(b)
}

fn var(n: &str) -> DistConstraintBody {
    DistConstraintBody::Var(VarName::new(n))
}

fn num(i: i64) -> DistConstraintBody {
    DistConstraintBody::Val(Value::Int(i))
}

fn bin(a: DistConstraintBody, b: DistConstraintBody, op: &str) -> DistConstraintBody {
    DistConstraintBody::BinOp(Box::new(a), Box::new(b), SBinOp::from_symbol(op).unwrap())
}

#[test]
fn test_dist_constraint_body_source() {
    assert!(same(&body("source(x)"), &DistConstraintBody::Source(VarName::new("x"))));
}

#[test]
fn test_dist_constraint_source() {
    let (name, DistConstraint(kind, b), _) = dist_constraint("can_run x: source(y)").unwrap();
    assert!(name.equals(&VarName::new("x")));
    assert_eq!(kind, DistConstraintType::CanRun);
    assert!(same(&b, &DistConstraintBody::Source(VarName::new("y"))));
}

#[test]
fn test_dist_constraints_sources() {
    let (cs, _) = dist_constraints("can_run x: source(y)\ncan_run z: source(w)");
    assert_eq!(cs.len(), 2);
    assert!(cs[0].0.equals(&VarName::new("x")));
    assert_eq!(cs[0].1 .0, DistConstraintType::CanRun);
    assert!(same(&cs[0].1 .1, &DistConstraintBody::Source(VarName::new("y"))));
    assert!(cs[1].0.equals(&VarName::new("z")));
    assert_eq!(cs[1].1 .0, DistConstraintType::CanRun);
    assert!(same(&cs[1].1 .1, &DistConstraintBody::Source(VarName::new("w"))));
}

#[test]
fn test_dist_constraint_body() {
    assert!(same(&body("1 + 2"), &bin(num(1), num(2), "+")));
    assert!(same(&body("1 + 2 * 3"), &bin(num(1), bin(num(2), num(3), "*"), "+")));
    assert!(same(&body("x + (y + 2)"), &bin(var("x"), bin(var("y"), num(2), "+"), "+")));
    assert!(same(
        &body("if true then 1 else 2"),
        &DistConstraintBody::If(
            Box::new(DistConstraintBody::Val(Value::Bool(true))),
            Box::new(num(1)),
            Box::new(num(2)),
        ),
    ));
    assert!(same(
        &body("(x)[-1, 0]"),
        &DistConstraintBody::SIndex(Box::new(var("x")), -1, Value::Int(0)),
    ));
    assert!(same(
        &body("(x + y)[-3, 2]"),
        &DistConstraintBody::SIndex(Box::new(bin(var("x"), var("y"), "+")), -3, Value::Int(2)),
    ));
    assert!(same(
        &body("1 + (x)[-1, 0]"),
        &bin(num(1), DistConstraintBody::SIndex(Box::new(var("x")), -1, Value::Int(0)), "+"),
    ));
    assert!(same(&body("\"test\""), &DistConstraintBody::Val(Value::from_str("test"))));
    assert!(same(
        &body("(stage == \"m\")"),
        &bin(var("stage"), DistConstraintBody::Val(Value::from_str("m")), "=="),
    ));
}

#[test]
fn dist_parser_test_integer_exprs() {
    assert_eq!(body_str("0"), "Ok(Val(Int(0)))");
    assert_eq!(body_str("  1 +2  "), "Ok(BinOp(Val(Int(1)), Val(Int(2)), NOp(Add)))");
    assert_eq!(
        body_str(" 1  + 2 +3"),
        "Ok(BinOp(BinOp(Val(Int(1)), Val(Int(2)), NOp(Add)), Val(Int(3)), NOp(Add)))"
    );
    assert_eq!(body_str("  1 -2  "), "Ok(BinOp(Val(Int(1)), Val(Int(2)), NOp(Sub)))");
    assert_eq!(
        body_str(" 1  - 2 -3"),
        "Ok(BinOp(BinOp(Val(Int(1)), Val(Int(2)), NOp(Sub)), Val(Int(3)), NOp(Sub)))"
    );
    assert_eq!(body_str("  1 *2  "), "Ok(BinOp(Val(Int(1)), Val(Int(2)), NOp(Mul)))");
    assert_eq!(
        body_str(" 1  * 2 *3"),
        "Ok(BinOp(BinOp(Val(Int(1)), Val(Int(2)), NOp(Mul)), Val(Int(3)), NOp(Mul)))"
    );
    assert_eq!(body_str("  1 /2  "), "Ok(BinOp(Val(Int(1)), Val(Int(2)), NOp(Div)))");
    assert_eq!(
        body_str("(1 + x) * if y then 3 else z / 2"),
        r#"Ok(BinOp(BinOp(Val(Int(1)), Var(VarName::new("x")), NOp(Add)), If(Var(VarName::new("y")), Val(Int(3)), BinOp(Var(VarName::new("z")), Val(Int(2)), NOp(Div))), NOp(Mul)))"#
    );
}

#[test]
fn dist_parser_test_parse_empty_string() {
    assert_eq!(body_str(""), "Err(ContextError { context: [], cause: None })");
}

#[test]
fn dist_parser_test_parse_invalid_expression() {
    assert_eq!(body_str("&& true"), "Err(ContextError { context: [], cause: None })");
}

#[test]
fn dist_parser_test_parse_boolean_expressions() {
    assert_eq!(body_str("true && false"), "Ok(BinOp(Val(Bool(true)), Val(Bool(false)), BOp(And)))");
    assert_eq!(body_str("true || false"), "Ok(BinOp(Val(Bool(true)), Val(Bool(false)), BOp(Or)))");
}

#[test]
fn dist_parser_test_parse_mixed_boolean_and_arithmetic() {
    assert_eq!(
        body_str("1 + 2 && 3"),
        "Ok(BinOp(BinOp(Val(Int(1)), Val(Int(2)), NOp(Add)), Val(Int(3)), BOp(And)))"
    );
    assert_eq!(
        body_str("true || 1 * 2"),
        "Ok(BinOp(Val(Bool(true)), BinOp(Val(Int(1)), Val(Int(2)), NOp(Mul)), BOp(Or)))"
    );
}

#[test]
fn dist_parser_test_parse_string_concatenation() {
    assert_eq!(
        body_str(r#""foo" ++ "bar""#),
        r#"Ok(BinOp(Val(Str("foo")), Val(Str("bar")), SOp(Concat)))"#
    );
    assert_eq!(
        body_str(r#""hello" ++ " " ++ "world""#),
        r#"Ok(BinOp(BinOp(Val(Str("hello")), Val(Str(" ")), SOp(Concat)), Val(Str("world")), SOp(Concat)))"#
    );
    assert_eq!(
        body_str(r#""a" ++ "b" ++ "c""#),
        r#"Ok(BinOp(BinOp(Val(Str("a")), Val(Str("b")), SOp(Concat)), Val(Str("c")), SOp(Concat)))"#
    );
}

#[test]
fn dist_parser_test_parse_default() {
    assert_eq!(
        body_str(r#"default(x, 0)"#),
        r#"Ok(Default(Var(VarName::new("x")), Val(Int(0))))"#
    )
}

#[test]
fn test_parse_default_dist_constraint_body() {
    assert_eq!(
        body_str(r#"default(x, y)"#),
        r#"Ok(Default(Var(VarName::new("x")), Var(VarName::new("y"))))"#
    )
}

#[test]
fn dist_parser_test_parse_lindex() {
    assert_eq!(
        body_str(r#"List.get(List(1, 2), 42)"#),
        r#"Ok(LIndex(Val(List([Int(1), Int(2)])), Val(Int(42))))"#
    );
    assert_eq!(
        body_str(r#"List.get(x, 42)"#),
        r#"Ok(LIndex(Var(VarName::new("x")), Val(Int(42))))"#
    );
    assert_eq!(
        body_str(r#"List.get(x, 1+2)"#),
        r#"Ok(LIndex(Var(VarName::new("x")), BinOp(Val(Int(1)), Val(Int(2)), NOp(Add))))"#
    );
    assert_eq!(
        body_str(r#"List.get(List.get(List(List(1, 2), List(3, 4)), 0), 1)"#),
        r#"Ok(LIndex(LIndex(Val(List([List([Int(1), Int(2)]), List([Int(3), Int(4)])])), Val(Int(0))), Val(Int(1))))"#
    );
}

#[test]
fn dist_parser_test_parse_lconcat() {
    assert_eq!(
        body_str(r#"List.concat(List(1, 2), List(3, 4))"#),
        r#"Ok(LConcat(Val(List([Int(1), Int(2)])), Val(List([Int(3), Int(4)]))))"#
    );
    assert_eq!(
        body_str(r#"List.concat(List(), List())"#),
        r#"Ok(LConcat(Val(List([])), Val(List([]))))"#
    );
}

#[test]
fn dist_parser_test_parse_lappend() {
    assert_eq!(
        body_str(r#"List.append(List(1, 2), 3)"#),
        r#"Ok(LAppend(Val(List([Int(1), Int(2)])), Val(Int(3))))"#
    );
    assert_eq!(
        body_str(r#"List.append(List(), 3)"#),
        r#"Ok(LAppend(Val(List([])), Val(Int(3))))"#
    );
    assert_eq!(
        body_str(r#"List.append(List(), x)"#),
        r#"Ok(LAppend(Val(List([])), Var(VarName::new("x"))))"#
    );
}

#[test]
fn dist_parser_test_parse_lhead() {
    assert_eq!(
        body_str(r#"List.head(List(1, 2))"#),
        r#"Ok(LHead(Val(List([Int(1), Int(2)]))))"#
    );
    assert_eq!(body_str(r#"List.head(List())"#), r#"Ok(LHead(Val(List([]))))"#);
}

#[test]
fn dist_parser_test_parse_ltail() {
    assert_eq!(
        body_str(r#"List.tail(List(1, 2))"#),
        r#"Ok(LTail(Val(List([Int(1), Int(2)]))))"#
    );
    assert_eq!(body_str(r#"List.tail(List())"#), r#"Ok(LTail(Val(List([]))))"#);
}

#[test]
fn placements_trigonometry_and_body_lists() {
    assert_eq!(body_str("monitor( x )"), r#"Ok(Monitor(VarName::new("x")))"#);
    assert_eq!(body_str("sin(x) + cos(1)"), r#"Ok(BinOp(Sin(Var(VarName::new("x"))), Cos(Val(Int(1))), NOp(Add)))"#);
    assert_eq!(body_str("tan(!x)"), r#"Ok(Tan(Not(Var(VarName::new("x")))))"#);
    assert_eq!(
        body_str("List(x, 1 + 2)"),
        r#"Ok(List([Var(VarName::new("x")), BinOp(Val(Int(1)), Val(Int(2)), NOp(Add))]))"#
    );
    assert_eq!(body_str("is_defined(x)"), r#"Ok(IsDefined(Var(VarName::new("x"))))"#);
}

#[test]
fn constraint_kinds_and_separators() {
    let (cs, n) = dist_constraints("locality a: 1\n// comment\nredundancy b: monitor(c)\n\ncan_run d: source(e)");
    assert_eq!(cs.len(), 3);
    assert_eq!(cs[0].1 .0, DistConstraintType::LocalityScore);
    assert_eq!(cs[1].1 .0, DistConstraintType::Redundancy);
    assert_eq!(cs[2].1 .0, DistConstraintType::CanRun);
    assert_eq!(n, "locality a: 1\n// comment\nredundancy b: monitor(c)\n\ncan_run d: source(e)".len());
    let (none, m) = dist_constraints("nothing here");
    assert!(none.is_empty());
    assert_eq!(m, 0);
    assert!(dist_constraint("can_run : source(y)").is_none());
}

#[test]
fn bodies_are_written_back_as_text() {
    assert_eq!(body("1 + 2 * 3").display().unwrap(), "(1 + (2 * 3))");
    assert_eq!(body("if x then \"a\" else 2").display().unwrap(), "if x then a else 2");
    assert_eq!(body("(x)[-1, 0]").display().unwrap(), "x[-1,0]");
    assert_eq!(body("default(x, List(1, 2))").display().unwrap(), "default(x, [1, 2, ])");
    assert_eq!(body("List(x, y)").display().unwrap(), "[x, y]");
    assert_eq!(body("monitor(x) && !source(y)").display().unwrap(), "(monitor(x) && !source(y))");
    assert_eq!(body("x < y").display().unwrap(), "(x <= y)");
    assert!(DistConstraintBody::Val(Value::Float(1.5f32.to_bits())).display().is_none());
}

#[test]
fn values_are_written_as_text() {
    assert_eq!(Value::Int(-42).display().unwrap(), "-42");
    assert_eq!(Value::Int(i64::MIN).display().unwrap(), "-9223372036854775808");
    assert_eq!(Value::Int(0).display().unwrap(), "0");
    assert_eq!(Value::Bool(true).display().unwrap(), "true");
    assert_eq!(Value::from_str("abc").display().unwrap(), "abc");
    assert_eq!(Value::List(vec![Value::Int(1), Value::Unit]).display().unwrap(), "[1, (), ]");
    assert_eq!(Value::Unknown.display().unwrap(), "unknown");
    assert!(Value::List(vec![Value::Float(0)]).display().is_none());
}

#[test]
fn context_ids_are_written_as_text() {
    assert_eq!(ContextId::new(3, Some(1)).display(), "(id: 3, parent: 1)");
    assert_eq!(ContextId::new(65535, None).display(), "(id: 65535, parent: None)");
}

use trustworthiness_checker::ast::{CompBinOp, NumericalBinOp, SBinOp, SExpr};
use trustworthiness_checker::parser::{lola_expression, lola_specification, parse_value};
use trustworthiness_checker::values::{StreamType, Value, VarName};

fn show_str(s: &str) -> String {
    format!("{:?}", s)
}

fn show_value(v: &Value) -> String {
    match v {
        Value::Int(i) => format!("Int({})", i),
        Value::Float(b) => format!("Float({:?})", f32::from_bits(*b)),
        Value::Str(s) => format!("Str({})", show_str(s)),
        Value::Bool(b) => format!("Bool({})", b),
        Value::List(vs) => format!("List([{}])", vs.iter().map(show_value).collect::<Vec<_>>().join(", ")),
        Value::Unknown => "Unknown".to_string(),
        Value::Unit => "Unit".to_string(),
    }
}

fn show_name(n: &VarName) -> String {
    format!("VarName::new({})", show_str(&n.name()))
}

fn show_op(op: &SBinOp) -> String {
    format!("{:?}", op)
}

fn show(e: &SExpr) -> String {
    match e {
        SExpr::If(b, t, f) => format!("If({}, {}, {})", show(b), show(t), show(f)),
        // An index written without a default (`e[i]`) has the unknown value
        // as its default, and is shown without it.
        SExpr::SIndex(x, i, Value::Unknown) => format!("SIndex({}, {})", show(x), i),
        SExpr::SIndex(x, i, d) => format!("SIndex({}, {}, {})", show(x), i, show_value(d)),
        SExpr::Val(v) => format!("Val({})", show_value(v)),
        SExpr::BinOp(a, b, op) => format!("BinOp({}, {}, {})", show(a), show(b), show_op(op)),
        SExpr::Var(n) => format!("Var({})", show_name(n)),
        SExpr::Eval(x) => format!("Eval({})", show(x)),
        SExpr::Defer(x) => format!("Defer({})", show(x)),
        SExpr::Update(a, b) => format!("Update({}, {})", show(a), show(b)),
        SExpr::Default(a, b) => format!("Default({}, {})", show(a), show(b)),
        SExpr::IsDefined(x) => format!("IsDefined({})", show(x)),
        SExpr::When(x) => format!("When({})", show(x)),
        SExpr::Not(x) => format!("Not({})", show(x)),
        SExpr::List(es) => format!("List([{}])", es.iter().map(show).collect::<Vec<_>>().join(", ")),
        SExpr::LIndex(a, b) => format!("LIndex({}, {})", show(a), show(b)),
        SExpr::LAppend(a, b) => format!("LAppend({}, {})", show(a), show(b)),
        SExpr::LConcat(a, b) => format!("LConcat({}, {})", show(a), show(b)),
        SExpr::LHead(x) => format!("LHead({})", show(x)),
        SExpr::LTail(x) => format!("LTail({})", show(x)),
    }
}

fn sexpr_str(s: &str) -> String {
    match lola_expression(s) {
        Some((e, _)) => format!("Ok({})", show(&e)),
        None => "Err(ContextError { context: [], cause: None })".to_string(),
    }
}

fn spec_str(s: &str) -> String {
    let (spec, _) = lola_specification(s);
    let mut exprs: Vec<(String, String)> =
        spec.exprs.iter().map(|(n, e)| (n.name(), show(e))).collect();
    exprs.sort();
    let mut types: Vec<(String, StreamType)> =
        spec.type_annotations.iter().map(|(n, t)| (n.name(), *t)).collect();
    types.sort_by(|a, b| a.0.cmp(&b.0));
    format!(
        "Ok(LOLASpecification {{ input_vars: [{}], output_vars: [{}], exprs: {{{}}}, type_annotations: {{{}}} }})",
        spec.input_vars.iter().map(show_name).collect::<Vec<_>>().join(", "),
        spec.output_vars.iter().map(show_name).collect::<Vec<_>>().join(", "),
        exprs
            .iter()
            .map(|(n, e)| format!("VarName::new({}): {}", show_str(n), e))
            .collect::<Vec<_>>()
            .join(", "),
        types
            .iter()
            .map(|(n, t)| format!("VarName::new({}): {:?}", show_str(n), t))
            .collect::<Vec<_>>()
            .join(", "),
    )
}

#[test]
fn parser_test_integer_exprs() {
    // Add
    assert_eq!(sexpr_str("0"), "Ok(Val(Int(0)))");
    assert_eq!(
        sexpr_str("  1 +2  "),
        "Ok(BinOp(Val(Int(1)), Val(Int(2)), NOp(Add)))"
    );
    assert_eq!(
        sexpr_str(" 1  + 2 +3"),
        "Ok(BinOp(BinOp(Val(Int(1)), Val(Int(2)), NOp(Add)), Val(Int(3)), NOp(Add)))"
    );
    // Sub
    assert_eq!(
        sexpr_str("  1 -2  "),
        "Ok(BinOp(Val(Int(1)), Val(Int(2)), NOp(Sub)))"
    );
    assert_eq!(
        sexpr_str(" 1  - 2 -3"),
        "Ok(BinOp(BinOp(Val(Int(1)), Val(Int(2)), NOp(Sub)), Val(Int(3)), NOp(Sub)))"
    );
    // Mul
    assert_eq!(
        sexpr_str("  1 *2  "),
        "Ok(BinOp(Val(Int(1)), Val(Int(2)), NOp(Mul)))"
    );
    assert_eq!(
        sexpr_str(" 1  * 2 *3"),
        "Ok(BinOp(BinOp(Val(Int(1)), Val(Int(2)), NOp(Mul)), Val(Int(3)), NOp(Mul)))"
    );
    // Div
    assert_eq!(
        sexpr_str("  1 /2  "),
        "Ok(BinOp(Val(Int(1)), Val(Int(2)), NOp(Div)))"
    );
    assert_eq!(
        sexpr_str(" 1  / 2 /3"),
        "Ok(BinOp(BinOp(Val(Int(1)), Val(Int(2)), NOp(Div)), Val(Int(3)), NOp(Div)))"
    );
    // Var
    assert_eq!(
        sexpr_str("  x  "),
        r#"Ok(Var(VarName::new("x")))"#
    );
    assert_eq!(
        sexpr_str("  xsss "),
        r#"Ok(Var(VarName::new("xsss")))"#
    );
    // Time index
    assert_eq!(
        sexpr_str("x [-1]"),
        r#"Ok(SIndex(Var(VarName::new("x")), -1))"#
    );
    assert_eq!(
        sexpr_str("x[1 ]"),
        r#"Ok(SIndex(Var(VarName::new("x")), 1))"#
    );
    // Paren
    assert_eq!(sexpr_str("  (1)  "), "Ok(Val(Int(1)))");
    // Don't care about order of eval; care about what the AST looks like
    assert_eq!(
        sexpr_str(" 2 + (2 + 3)"),
        "Ok(BinOp(Val(Int(2)), BinOp(Val(Int(2)), Val(Int(3)), NOp(Add)), NOp(Add)))"
    );
    // If then else
    assert_eq!(
        sexpr_str("if true then 1 else 2"),
        "Ok(If(Val(Bool(true)), Val(Int(1)), Val(Int(2))))"
    );
    assert_eq!(
        sexpr_str("if true then x+x else y+y"),
        r#"Ok(If(Val(Bool(true)), BinOp(Var(VarName::new("x")), Var(VarName::new("x")), NOp(Add)), BinOp(Var(VarName::new("y")), Var(VarName::new("y")), NOp(Add))))"#
    );

    // ChatGPT generated tests with mixed arithmetic and parentheses iexprs. It only had knowledge of the tests above.
    // Basic mixed addition and multiplication
    assert_eq!(
        sexpr_str("1 + 2 * 3"),
        "Ok(BinOp(Val(Int(1)), BinOp(Val(Int(2)), Val(Int(3)), NOp(Mul)), NOp(Add)))"
    );
    assert_eq!(
        sexpr_str("1 * 2 + 3"),
        "Ok(BinOp(BinOp(Val(Int(1)), Val(Int(2)), NOp(Mul)), Val(Int(3)), NOp(Add)))"
    );
    // Mixed addition, subtraction, and multiplication
    assert_eq!(
        sexpr_str("1 + 2 * 3 - 4"),
        "Ok(BinOp(BinOp(Val(Int(1)), BinOp(Val(Int(2)), Val(Int(3)), NOp(Mul)), NOp(Add)), Val(Int(4)), NOp(Sub)))"
    );
    assert_eq!(
        sexpr_str("1 * 2 + 3 - 4"),
        "Ok(BinOp(BinOp(BinOp(Val(Int(1)), Val(Int(2)), NOp(Mul)), Val(Int(3)), NOp(Add)), Val(Int(4)), NOp(Sub)))"
    );
    // Mixed addition and division
    assert_eq!(
        sexpr_str("10 + 20 / 5"),
        "Ok(BinOp(Val(Int(10)), BinOp(Val(Int(20)), Val(Int(5)), NOp(Div)), NOp(Add)))"
    );
    // Nested parentheses with mixed operations
    assert_eq!(
        sexpr_str("(1 + 2) * (3 - 4)"),
        "Ok(BinOp(BinOp(Val(Int(1)), Val(Int(2)), NOp(Add)), BinOp(Val(Int(3)), Val(Int(4)), NOp(Sub)), NOp(Mul)))"
    );
    assert_eq!(
        sexpr_str("1 + (2 * (3 + 4))"),
        "Ok(BinOp(Val(Int(1)), BinOp(Val(Int(2)), BinOp(Val(Int(3)), Val(Int(4)), NOp(Add)), NOp(Mul)), NOp(Add)))"
    );
    // Complex nested expressions
    assert_eq!(
        sexpr_str("((1 + 2) * 3) + (4 / (5 - 6))"),
        "Ok(BinOp(BinOp(BinOp(Val(Int(1)), Val(Int(2)), NOp(Add)), Val(Int(3)), NOp(Mul)), BinOp(Val(Int(4)), BinOp(Val(Int(5)), Val(Int(6)), NOp(Sub)), NOp(Div)), NOp(Add)))"
    );
    assert_eq!(
        sexpr_str("(1 + (2 * (3 - (4 / 5))))"),
        "Ok(BinOp(Val(Int(1)), BinOp(Val(Int(2)), BinOp(Val(Int(3)), BinOp(Val(Int(4)), Val(Int(5)), NOp(Div)), NOp(Sub)), NOp(Mul)), NOp(Add)))"
    );
    // More complex expressions with deep nesting
    assert_eq!(
        sexpr_str("((1 + 2) * (3 + 4))"),
        "Ok(BinOp(BinOp(Val(Int(1)), Val(Int(2)), NOp(Add)), BinOp(Val(Int(3)), Val(Int(4)), NOp(Add)), NOp(Mul)))"
    );
    assert_eq!(
        sexpr_str("((1 * 2) + (3 * 4)) / 5"),
        "Ok(BinOp(BinOp(BinOp(Val(Int(1)), Val(Int(2)), NOp(Mul)), BinOp(Val(Int(3)), Val(Int(4)), NOp(Mul)), NOp(Add)), Val(Int(5)), NOp(Div)))"
    );
    // Multiple levels of nested expressions
    assert_eq!(
        sexpr_str("1 + (2 * (3 + (4 / (5 - 6))))"),
        "Ok(BinOp(Val(Int(1)), BinOp(Val(Int(2)), BinOp(Val(Int(3)), BinOp(Val(Int(4)), BinOp(Val(Int(5)), Val(Int(6)), NOp(Sub)), NOp(Div)), NOp(Add)), NOp(Mul)), NOp(Add)))"
    );

    // ChatGPT generated tests with mixed iexprs. It only had knowledge of the tests above.
    // Mixing addition, subtraction, and variables
    assert_eq!(
        sexpr_str("x + 2 - y"),
        r#"Ok(BinOp(BinOp(Var(VarName::new("x")), Val(Int(2)), NOp(Add)), Var(VarName::new("y")), NOp(Sub)))"#
    );
    assert_eq!(
        sexpr_str("(x + y) * 3"),
        r#"Ok(BinOp(BinOp(Var(VarName::new("x")), Var(VarName::new("y")), NOp(Add)), Val(Int(3)), NOp(Mul)))"#
    );
    // Nested arithmetic with variables and parentheses
    assert_eq!(
        sexpr_str("(a + b) / (c - d)"),
        r#"Ok(BinOp(BinOp(Var(VarName::new("a")), Var(VarName::new("b")), NOp(Add)), BinOp(Var(VarName::new("c")), Var(VarName::new("d")), NOp(Sub)), NOp(Div)))"#
    );
    assert_eq!(
        sexpr_str("x * (y + 3) - z / 2"),
        r#"Ok(BinOp(BinOp(Var(VarName::new("x")), BinOp(Var(VarName::new("y")), Val(Int(3)), NOp(Add)), NOp(Mul)), BinOp(Var(VarName::new("z")), Val(Int(2)), NOp(Div)), NOp(Sub)))"#
    );
    // If-then-else with mixed arithmetic
    assert_eq!(
        sexpr_str("if true then 1 + 2 else 3 * 4"),
        "Ok(If(Val(Bool(true)), BinOp(Val(Int(1)), Val(Int(2)), NOp(Add)), BinOp(Val(Int(3)), Val(Int(4)), NOp(Mul))))"
    );
    // Time index in arithmetic expression
    assert_eq!(
        sexpr_str("x[0] + y[-1]"),
        r#"Ok(BinOp(SIndex(Var(VarName::new("x")), 0), SIndex(Var(VarName::new("y")), -1), NOp(Add)))"#
    );
    assert_eq!(
        sexpr_str("x[1] * (y + 3)"),
        r#"Ok(BinOp(SIndex(Var(VarName::new("x")), 1), BinOp(Var(VarName::new("y")), Val(Int(3)), NOp(Add)), NOp(Mul)))"#
    );
    // Complex expression with nested if-then-else and mixed operations
    assert_eq!(
        sexpr_str("(1 + x) * if y then 3 else z / 2"),
        r#"Ok(BinOp(BinOp(Val(Int(1)), Var(VarName::new("x")), NOp(Add)), If(Var(VarName::new("y")), Val(Int(3)), BinOp(Var(VarName::new("z")), Val(Int(2)), NOp(Div))), NOp(Mul)))"#
    );
}

#[test]
fn test_var_decl() {
    let cases = [
        ("x = 0", r#"Val(Int(0))"#),
        (r#"x = "hello""#, r#"Val(Str("hello"))"#),
        ("x = true", r#"Val(Bool(true))"#),
        ("x = false", r#"Val(Bool(false))"#),
    ];
    for (input, expr) in cases {
        let (spec, _) = lola_specification(input);
        assert_eq!(spec.exprs.len(), 1);
        assert_eq!(show_name(&spec.exprs[0].0), r#"VarName::new("x")"#);
        assert_eq!(show(&spec.exprs[0].1), expr);
    }
}

#[test]
fn parser_test_parse_empty_string() {
    assert_eq!(sexpr_str(""), "Err(ContextError { context: [], cause: None })");
}

#[test]
fn parser_test_parse_invalid_expression() {
    assert_eq!(sexpr_str("&& true"), "Err(ContextError { context: [], cause: None })");
}

#[test]
fn parser_test_parse_boolean_expressions() {
    assert_eq!(sexpr_str("true && false"), "Ok(BinOp(Val(Bool(true)), Val(Bool(false)), BOp(And)))");
    assert_eq!(sexpr_str("true || false"), "Ok(BinOp(Val(Bool(true)), Val(Bool(false)), BOp(Or)))");
}

#[test]
fn parser_test_parse_mixed_boolean_and_arithmetic() {
    assert_eq!(
        sexpr_str("1 + 2 && 3"),
        "Ok(BinOp(BinOp(Val(Int(1)), Val(Int(2)), NOp(Add)), Val(Int(3)), BOp(And)))"
    );
    assert_eq!(
        sexpr_str("true || 1 * 2"),
        "Ok(BinOp(Val(Bool(true)), BinOp(Val(Int(1)), Val(Int(2)), NOp(Mul)), BOp(Or)))"
    );
}

#[test]
fn parser_test_parse_string_concatenation() {
    assert_eq!(
        sexpr_str(r#""foo" ++ "bar""#),
        r#"Ok(BinOp(Val(Str("foo")), Val(Str("bar")), SOp(Concat)))"#
    );
    assert_eq!(
        sexpr_str(r#""hello" ++ " " ++ "world""#),
        r#"Ok(BinOp(BinOp(Val(Str("hello")), Val(Str(" ")), SOp(Concat)), Val(Str("world")), SOp(Concat)))"#
    );
    assert_eq!(
        sexpr_str(r#""a" ++ "b" ++ "c""#),
        r#"Ok(BinOp(BinOp(Val(Str("a")), Val(Str("b")), SOp(Concat)), Val(Str("c")), SOp(Concat)))"#
    );
}

#[test]
fn test_parse_defer() {
    assert_eq!(sexpr_str("defer(x)"), r#"Ok(Defer(Var(VarName::new("x"))))"#);
}

#[test]
fn test_parse_update() {
    assert_eq!(sexpr_str("update(x, y)"), r#"Ok(Update(Var(VarName::new("x")), Var(VarName::new("y"))))"#);
}

#[test]
fn parser_test_parse_default() {
    assert_eq!(sexpr_str("default(x, 0)"), r#"Ok(Default(Var(VarName::new("x")), Val(Int(0))))"#);
}

#[test]
fn test_parse_default_sexpr() {
    assert_eq!(
        sexpr_str("default(x, y)"),
        r#"Ok(Default(Var(VarName::new("x")), Var(VarName::new("y"))))"#
    );
}

#[test]
fn test_parse_list() {
    assert_eq!(sexpr_str("List()"), "Ok(Val(List([])))");
    assert_eq!(sexpr_str("List () "), "Ok(Val(List([])))");
    assert_eq!(sexpr_str("List(1,2)"), "Ok(Val(List([Int(1), Int(2)])))");
    assert_eq!(
        sexpr_str("List(1+2,2*5)"),
        "Ok(List([BinOp(Val(Int(1)), Val(Int(2)), NOp(Add)), BinOp(Val(Int(2)), Val(Int(5)), NOp(Mul))]))"
    );
    assert_eq!(sexpr_str(r#"List("hello","world")"#), r#"Ok(Val(List([Str("hello"), Str("world")])))"#);
    assert_eq!(
        sexpr_str("List(true || false, true && false)"),
        "Ok(List([BinOp(Val(Bool(true)), Val(Bool(false)), BOp(Or)), BinOp(Val(Bool(true)), Val(Bool(false)), BOp(And))]))"
    );
    assert_eq!(sexpr_str(r#"List(1,"hello")"#), r#"Ok(Val(List([Int(1), Str("hello")])))"#);
    let (spec, _) = lola_specification("y = List()");
    assert_eq!(spec.exprs.len(), 1);
    assert_eq!(spec.exprs[0].0.name(), "y");
    assert_eq!(show(&spec.exprs[0].1), "Val(List([]))");
}

#[test]
fn parser_test_parse_lindex() {
    assert_eq!(sexpr_str("List.get(List(1, 2), 42)"), "Ok(LIndex(Val(List([Int(1), Int(2)])), Val(Int(42))))");
    assert_eq!(sexpr_str("List.get(x, 42)"), r#"Ok(LIndex(Var(VarName::new("x")), Val(Int(42))))"#);
    assert_eq!(
        sexpr_str("List.get(x, 1+2)"),
        r#"Ok(LIndex(Var(VarName::new("x")), BinOp(Val(Int(1)), Val(Int(2)), NOp(Add))))"#
    );
    assert_eq!(
        sexpr_str("List.get(List.get(List(List(1, 2), List(3, 4)), 0), 1)"),
        "Ok(LIndex(LIndex(Val(List([List([Int(1), Int(2)]), List([Int(3), Int(4)])])), Val(Int(0))), Val(Int(1))))"
    );
}

#[test]
fn parser_test_parse_lconcat() {
    assert_eq!(
        sexpr_str("List.concat(List(1, 2), List(3, 4))"),
        "Ok(LConcat(Val(List([Int(1), Int(2)])), Val(List([Int(3), Int(4)]))))"
    );
    assert_eq!(sexpr_str("List.concat(List(), List())"), "Ok(LConcat(Val(List([])), Val(List([]))))");
}

#[test]
fn parser_test_parse_lappend() {
    assert_eq!(sexpr_str("List.append(List(1, 2), 3)"), "Ok(LAppend(Val(List([Int(1), Int(2)])), Val(Int(3))))");
    assert_eq!(sexpr_str("List.append(List(), 3)"), "Ok(LAppend(Val(List([])), Val(Int(3))))");
    assert_eq!(sexpr_str("List.append(List(), x)"), r#"Ok(LAppend(Val(List([])), Var(VarName::new("x"))))"#);
}

#[test]
fn parser_test_parse_lhead() {
    assert_eq!(sexpr_str("List.head(List(1, 2))"), "Ok(LHead(Val(List([Int(1), Int(2)]))))");
    assert_eq!(sexpr_str("List.head(List())"), "Ok(LHead(Val(List([]))))");
}

#[test]
fn parser_test_parse_ltail() {
    assert_eq!(sexpr_str("List.tail(List(1, 2))"), "Ok(LTail(Val(List([Int(1), Int(2)]))))");
    assert_eq!(sexpr_str("List.tail(List())"), "Ok(LTail(Val(List([]))))");
}

#[test]
fn test_input_decl() {
    let (spec, _) = lola_specification("in x");
    assert_eq!(spec.input_vars.len(), 1);
    assert_eq!(spec.input_vars[0].name(), "x");
    assert!(spec.type_annotations.is_empty());
}

#[test]
fn test_typed_input_decl() {
    let (spec, _) = lola_specification("in x: Int");
    assert_eq!(spec.input_vars[0].name(), "x");
    assert_eq!(spec.type_annotations.len(), 1);
    assert_eq!(spec.type_annotations[0].1, StreamType::Int);
    let (spec, _) = lola_specification("in x: Float");
    assert_eq!(spec.type_annotations[0].1, StreamType::Float);
}

#[test]
fn test_input_decls() {
    let (spec, _) = lola_specification("");
    assert!(spec.input_vars.is_empty());
    let (spec, _) = lola_specification("in x");
    assert_eq!(spec.input_vars.iter().map(|v| v.name()).collect::<Vec<_>>(), vec!["x"]);
    let (spec, _) = lola_specification("in x\nin y");
    assert_eq!(spec.input_vars.iter().map(|v| v.name()).collect::<Vec<_>>(), vec!["x", "y"]);
}

#[test]
fn test_parse_lola_simple_add() {
    assert_eq!(
        spec_str("in x\nin y\nout z\nz = x + y"),
        r#"Ok(LOLASpecification { input_vars: [VarName::new("x"), VarName::new("y")], output_vars: [VarName::new("z")], exprs: {VarName::new("z"): BinOp(Var(VarName::new("x")), Var(VarName::new("y")), NOp(Add))}, type_annotations: {} })"#
    );
}

#[test]
fn test_parse_lola_dynamic() {
    // `dynamic(s)` is read as the node that evaluates a property given as a
    // string (`Eval` in this library's expressions).
    assert_eq!(
        spec_str("in x\nin y\nin s\nout z\nout w\nz = x + y\nw = dynamic(s)"),
        r#"Ok(LOLASpecification { input_vars: [VarName::new("x"), VarName::new("y"), VarName::new("s")], output_vars: [VarName::new("z"), VarName::new("w")], exprs: {VarName::new("w"): Eval(Var(VarName::new("s"))), VarName::new("z"): BinOp(Var(VarName::new("x")), Var(VarName::new("y")), NOp(Add))}, type_annotations: {} })"#
    );
}

#[test]
fn test_parse_lola_simple_add_typed() {
    assert_eq!(
        spec_str("in x: Int\nin y: Int\nout z: Int\nz = x + y"),
        r#"Ok(LOLASpecification { input_vars: [VarName::new("x"), VarName::new("y")], output_vars: [VarName::new("z")], exprs: {VarName::new("z"): BinOp(Var(VarName::new("x")), Var(VarName::new("y")), NOp(Add))}, type_annotations: {VarName::new("x"): Int, VarName::new("y"): Int, VarName::new("z"): Int} })"#
    );
}

#[test]
fn test_parse_lola_simple_add_float_typed() {
    assert_eq!(
        spec_str("in x: Float\nin y: Float\nout z: Float\nz = x + y"),
        r#"Ok(LOLASpecification { input_vars: [VarName::new("x"), VarName::new("y")], output_vars: [VarName::new("z")], exprs: {VarName::new("z"): BinOp(Var(VarName::new("x")), Var(VarName::new("y")), NOp(Add))}, type_annotations: {VarName::new("x"): Float, VarName::new("y"): Float, VarName::new("z"): Float} })"#
    );
}

fn specs() -> Vec<(&'static str, &'static str)> {
    vec![
        (
            "in x\nout z\nz = default(z[-1], 0) + x",
            "Ok(LOLASpecification { input_vars: [VarName::new(\"x\")], output_vars: [VarName::new(\"z\")], exprs: {VarName::new(\"z\"): BinOp(Default(SIndex(Var(VarName::new(\"z\")), -1), Val(Int(0))), Var(VarName::new(\"x\")), NOp(Add))}, type_annotations: {} })",
        ),
        (
            "out z\nz = default(z[-1], 0) + 1",
            "Ok(LOLASpecification { input_vars: [], output_vars: [VarName::new(\"z\")], exprs: {VarName::new(\"z\"): BinOp(Default(SIndex(Var(VarName::new(\"z\")), -1), Val(Int(0))), Val(Int(1)), NOp(Add))}, type_annotations: {} })",
        ),
        (
            "in x\nin y\nout z\nout a\nz = x[1]\na = y",
            "Ok(LOLASpecification { input_vars: [VarName::new(\"x\"), VarName::new(\"y\")], output_vars: [VarName::new(\"z\"), VarName::new(\"a\")], exprs: {VarName::new(\"a\"): Var(VarName::new(\"y\")), VarName::new(\"z\"): SIndex(Var(VarName::new(\"x\")), 1)}, type_annotations: {} })",
        ),
        (
            "in iList\nout oList\nout nestedList\nout listIndex\nout listAppend\nout listConcat\nout listHead\nout listTail\noList = iList\nnestedList = List(iList, iList)\nlistIndex = List.get(iList, 0)\nlistAppend = List.append(iList, (1+1)/2)\nlistConcat = List.concat(iList, iList)\nlistHead = List.head(iList)\nlistTail = List.tail(iList)",
            "Ok(LOLASpecification { input_vars: [VarName::new(\"iList\")], output_vars: [VarName::new(\"oList\"), VarName::new(\"nestedList\"), VarName::new(\"listIndex\"), VarName::new(\"listAppend\"), VarName::new(\"listConcat\"), VarName::new(\"listHead\"), VarName::new(\"listTail\")], exprs: {VarName::new(\"listAppend\"): LAppend(Var(VarName::new(\"iList\")), BinOp(BinOp(Val(Int(1)), Val(Int(1)), NOp(Add)), Val(Int(2)), NOp(Div))), VarName::new(\"listConcat\"): LConcat(Var(VarName::new(\"iList\")), Var(VarName::new(\"iList\"))), VarName::new(\"listHead\"): LHead(Var(VarName::new(\"iList\"))), VarName::new(\"listIndex\"): LIndex(Var(VarName::new(\"iList\")), Val(Int(0))), VarName::new(\"listTail\"): LTail(Var(VarName::new(\"iList\"))), VarName::new(\"nestedList\"): List([Var(VarName::new(\"iList\")), Var(VarName::new(\"iList\"))]), VarName::new(\"oList\"): Var(VarName::new(\"iList\"))}, type_annotations: {} })",
        ),
        (
            "in x: Int\nin y: Int\nout z: Int\nz = x + y",
            "Ok(LOLASpecification { input_vars: [VarName::new(\"x\"), VarName::new(\"y\")], output_vars: [VarName::new(\"z\")], exprs: {VarName::new(\"z\"): BinOp(Var(VarName::new(\"x\")), Var(VarName::new(\"y\")), NOp(Add))}, type_annotations: {VarName::new(\"x\"): Int, VarName::new(\"y\"): Int, VarName::new(\"z\"): Int} })",
        ),
        (
            "// Begin\nin x: Int\nin y: Int\nout z: Int\nz = x + y// End",
            "Ok(LOLASpecification { input_vars: [VarName::new(\"x\"), VarName::new(\"y\")], output_vars: [VarName::new(\"z\")], exprs: {VarName::new(\"z\"): BinOp(Var(VarName::new(\"x\")), Var(VarName::new(\"y\")), NOp(Add))}, type_annotations: {VarName::new(\"x\"): Int, VarName::new(\"y\"): Int, VarName::new(\"z\"): Int} })",
        ),
        (
            "in x\nin y\nout z\nz = if x == 0 then y else 42",
            "Ok(LOLASpecification { input_vars: [VarName::new(\"x\"), VarName::new(\"y\")], output_vars: [VarName::new(\"z\")], exprs: {VarName::new(\"z\"): If(BinOp(Var(VarName::new(\"x\")), Val(Int(0)), COp(Eq)), Var(VarName::new(\"y\")), Val(Int(42)))}, type_annotations: {} })",
        ),
        (
            "in x\nin y\nout z\nz = if\nx == 0\nthen\ny\n else\n42",
            "Ok(LOLASpecification { input_vars: [VarName::new(\"x\"), VarName::new(\"y\")], output_vars: [VarName::new(\"z\")], exprs: {VarName::new(\"z\"): If(BinOp(Var(VarName::new(\"x\")), Val(Int(0)), COp(Eq)), Var(VarName::new(\"y\")), Val(Int(42)))}, type_annotations: {} })",
        ),
    ]
}

#[test]
fn test_lola_specs_normal() {
    for (spec, exp) in specs() {
        assert_eq!(spec_str(spec), exp, "{}", spec);
    }
}

#[test]
fn test_lola_specs_added_newlines() {
    for (spec, exp) in specs() {
        let spec = spec.replace("\n", "\n\n");
        assert_eq!(spec_str(&spec), exp, "{}", spec);
    }
}

#[test]
fn test_lola_specs_added_comments() {
    for (spec, exp) in specs() {
        let mod_spec = spec.replace("\n", "\n//This is a comment\n");
        assert_eq!(spec_str(&mod_spec), exp, "{}", mod_spec);
        let mod_spec = spec.replace("\n", "//This is a comment\n");
        assert_eq!(spec_str(&mod_spec), exp, "{}", mod_spec);
    }
}

#[test]
fn parser_test_streamdata() {
    let cases = [
        ("42", Value::Int(42)),
        ("\"abc2d\"", Value::from_str("abc2d")),
        ("true", Value::Bool(true)),
        ("false", Value::Bool(false)),
        ("\"x+y\"", Value::from_str("x+y")),
    ];
    for (text, expected) in cases {
        let (v, _) = parse_value(text).unwrap();
        assert!(v.equals(&expected), "{}", text);
    }
}

#[test]
fn stream_index_with_default() {
    assert_eq!(sexpr_str("x[-1, 0]"), r#"Ok(SIndex(Var(VarName::new("x")), -1, Int(0)))"#);
    assert_eq!(sexpr_str("(x + y)[ -3 , \"d\" ]"), r#"Ok(SIndex(BinOp(Var(VarName::new("x")), Var(VarName::new("y")), NOp(Add)), -3, Str("d")))"#);
}

#[test]
fn integer_literals_follow_decimal_rules() {
    assert!(parse_value("-0").is_none());
    let (v, n) = parse_value("007").unwrap();
    assert!(v.equals(&Value::Int(0)));
    assert_eq!(n, 1);
    assert!(parse_value("9223372036854775808").is_none());
    let (v, _) = parse_value("-9223372036854775808").unwrap();
    assert!(v.equals(&Value::Int(i64::MIN)));
}

fn var(n: &str) -> SExpr {
    SExpr::Var(VarName::new(n))
}

fn int_val(i: i64) -> SExpr {
    SExpr::Val(Value::Int(i))
}

fn binop(a: SExpr, b: SExpr, op: SBinOp) -> SExpr {
    SExpr::BinOp(Box::new(a), Box::new(b), op)
}

fn parses_to(text: &str, expected: &SExpr) {
    let (e, _) = lola_expression(text).unwrap();
    assert!(e.equals(expected), "{}: {}", text, show(&e));
}

#[test]
fn test_sexpr() {
    let add = SBinOp::NOp(NumericalBinOp::Add);
    let mul = SBinOp::NOp(NumericalBinOp::Mul);
    parses_to("1 + 2", &binop(int_val(1), int_val(2), add));
    parses_to("1 + 2 * 3", &binop(int_val(1), binop(int_val(2), int_val(3), mul), add));
    parses_to("x + (y + 2)", &binop(var("x"), binop(var("y"), int_val(2), add), add));
    parses_to(
        "if true then 1 else 2",
        &SExpr::If(Box::new(SExpr::Val(Value::Bool(true))), Box::new(int_val(1)), Box::new(int_val(2))),
    );
    parses_to("(x)[-1]", &SExpr::SIndex(Box::new(var("x")), -1, Value::Unknown));
    parses_to(
        "(x + y)[-3]",
        &SExpr::SIndex(Box::new(binop(var("x"), var("y"), add)), -3, Value::Unknown),
    );
    parses_to(
        "1 + (x)[-1]",
        &binop(int_val(1), SExpr::SIndex(Box::new(var("x")), -1, Value::Unknown), add),
    );
    parses_to("\"test\"", &SExpr::Val(Value::from_str("test")));
    parses_to(
        "(stage == \"m\")",
        &binop(var("stage"), SExpr::Val(Value::from_str("m")), SBinOp::COp(CompBinOp::Eq)),
    );
}

#[test]
fn test_parse_lola_count() {
    assert_eq!(
        spec_str("out x\nx = 1 + (x)[-1]"),
        r#"Ok(LOLASpecification { input_vars: [], output_vars: [VarName::new("x")], exprs: {VarName::new("x"): BinOp(Val(Int(1)), SIndex(Var(VarName::new("x")), -1), NOp(Add))}, type_annotations: {} })"#
    );
}

#[test]
fn numbers_with_a_decimal_fraction_are_not_read_as_integers() {
    assert!(parse_value("42.0").is_none());
    assert_eq!(sexpr_str("1.5"), "Err(ContextError { context: [], cause: None })");
    let (v, n) = parse_value("42.").unwrap();
    assert!(v.equals(&Value::Int(42)));
    assert_eq!(n, 2);
}

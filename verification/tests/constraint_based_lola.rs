use trustworthiness_checker::ast::Specification;
use trustworthiness_checker::deps::{create_dependency_manager, DependencyKind};
use trustworthiness_checker::parser::lola_specification;
use trustworthiness_checker::runtime::{
    monitor_outputs_untyped_constraints_no_overhead, ConstraintBasedRuntime,
};
use trustworthiness_checker::values::{Value, VarName};

const KINDS: [DependencyKind; 2] = [DependencyKind::Empty, DependencyKind::DepGraph];

fn ival(i: i64) -> Value {
    Value::Int(i)
}

fn text(s: &str) -> Value {
    Value::from_str(s)
}

/// Runs the constraint runtime the way the monitor does: one step per set of
/// input values, sending at most one value per output and step, and gives back
/// the outputs grouped by time (as far as every output has a value).
fn run(spec_text: &str, inputs: Vec<(&str, Vec<Value>)>, steps: usize, kind: DependencyKind) -> Vec<Vec<Value>> {
    let (spec, _) = lola_specification(spec_text);
    let deps = create_dependency_manager(kind, &spec);
    let outs = spec.output_vars();
    let ins = spec.input_vars();
    let mut rt = ConstraintBasedRuntime::new(deps);
    rt.store_from_spec(spec);
    let n = if ins.is_empty() {
        steps
    } else {
        ins.iter()
            .map(|v| {
                inputs
                    .iter()
                    .find(|(n, _)| *n == v.name().as_str())
                    .map(|(_, vs)| vs.len())
                    .unwrap_or(0)
            })
            .min()
            .unwrap_or(0)
    };
    let mut idx = vec![0usize; outs.len()];
    let mut collected: Vec<Vec<Value>> = vec![Vec::new(); outs.len()];
    for k in 0..n {
        let step_inputs: Vec<(VarName, Value)> = ins
            .iter()
            .map(|v| {
                let vs = &inputs.iter().find(|(n, _)| *n == v.name().as_str()).unwrap().1;
                (v.clone(), vs[k].clone())
            })
            .collect();
        rt.step(&step_inputs).unwrap();
        let vals = rt.resolved_outputs(&outs, &mut idx);
        for (i, v) in vals.into_iter().enumerate() {
            if let Some(v) = v {
                collected[i].push(v);
            }
        }
        rt.cleanup();
    }
    let len = collected.iter().map(|c| c.len()).min().unwrap_or(0);
    (0..len)
        .map(|k| collected.iter().map(|c| c[k].clone()).collect())
        .collect()
}

fn same(a: &Vec<Vec<Value>>, b: &Vec<Vec<Value>>) -> bool {
    a.len() == b.len()
        && a.iter().zip(b.iter()).all(|(x, y)| {
            x.len() == y.len() && x.iter().zip(y.iter()).all(|(p, q)| p.equals(q))
        })
}

fn check(spec: &str, inputs: Vec<(&str, Vec<Value>)>, steps: usize, kinds: &[DependencyKind], expected: Vec<Vec<Value>>) {
    for kind in kinds {
        let got = run(spec, inputs.clone(), steps, *kind);
        assert!(same(&got, &expected), "{:?}: got {:?}, expected {:?}", kind, got, expected);
    }
}

fn xy() -> Vec<(&'static str, Vec<Value>)> {
    vec![("x", vec![ival(1), ival(3), ival(5)]), ("y", vec![ival(2), ival(4), ival(6)])]
}

#[test]
fn constraint_based_lola_test_simple_add_monitor() {
    check("in x\nin y\nout z\nz = x + y", xy(), 0, &KINDS, vec![vec![ival(3)], vec![ival(7)], vec![ival(11)]]);
}

#[test]
fn test_simple_modulo() {
    check("in x\nin y\nout z\nz = y % x", xy(), 0, &KINDS, vec![vec![ival(0)], vec![ival(1)], vec![ival(1)]]);
}

#[test]
fn constraint_based_lola_test_simple_add_monitor_large_input() {
    let xs: Vec<Value> = (0..100).map(|i| ival(i * 2)).collect();
    let ys: Vec<Value> = (0..100).map(|i| ival(i * 2 + 1)).collect();
    for kind in KINDS {
        let got = run("in x\nin y\nout z\nz = x + y", vec![("x", xs.clone()), ("y", ys.clone())], 0, kind);
        assert_eq!(got.len(), 100);
    }
}

#[test]
fn constraint_based_lola_test_var() {
    check("in x\nout z\nz =x", xy(), 0, &KINDS, vec![vec![ival(1)], vec![ival(3)], vec![ival(5)]]);
}

#[test]
fn constraint_based_lola_test_literal_expression() {
    check("out z\nz =42", vec![], 3, &KINDS, vec![vec![ival(42)], vec![ival(42)], vec![ival(42)]]);
}

#[test]
fn constraint_based_lola_test_addition() {
    check("in x\nout z\nz =x+1", xy(), 0, &KINDS, vec![vec![ival(2)], vec![ival(4)], vec![ival(6)]]);
}

#[test]
fn constraint_based_lola_test_subtraction() {
    check("in x\nout z\nz =x-10", xy(), 0, &KINDS, vec![vec![ival(-9)], vec![ival(-7)], vec![ival(-5)]]);
}

#[test]
fn constraint_based_lola_test_index_past() {
    check("in x\nout z\nz =x[-1, 0]", xy(), 0, &KINDS, vec![vec![ival(0)], vec![ival(1)], vec![ival(3)]]);
}

#[test]
fn constraint_based_lola_test_index_past_mult_dependencies() {
    check(
        "in x\nout z1\nout z2\nz2 = x[-2, 0]\nz1 = x[-1, 0]",
        xy(),
        0,
        &KINDS,
        vec![vec![ival(0), ival(0)], vec![ival(1), ival(0)], vec![ival(3), ival(1)]],
    );
}

#[test]
fn constraint_based_lola_test_index_future() {
    check("in x\nout z\nz =x[1, 0]", xy(), 0, &[DependencyKind::Empty], vec![vec![ival(3)], vec![ival(5)]]);
}

#[test]
fn constraint_based_lola_test_if_else_expression() {
    let inputs = vec![
        ("x", vec![Value::Bool(true), Value::Bool(false), Value::Bool(true)]),
        ("y", vec![Value::Bool(true), Value::Bool(true), Value::Bool(false)]),
    ];
    check(
        "in x\nin y\nout z\nz =if(x) then y else false",
        inputs,
        0,
        &KINDS,
        vec![vec![Value::Bool(true)], vec![Value::Bool(false)], vec![Value::Bool(false)]],
    );
}

#[test]
fn constraint_based_lola_test_string_append() {
    let inputs = vec![("x", vec![text("a"), text("c")]), ("y", vec![text("b"), text("d")])];
    check("in x\nin y\nout z\nz =x++y", inputs, 0, &KINDS, vec![vec![text("ab")], vec![text("cd")]]);
}

#[test]
fn constraint_based_lola_test_multiple_parameters() {
    check(
        "in x\nin y\nout r1\nout r2\nr1 =x+y\nr2 = x * y",
        xy(),
        0,
        &KINDS,
        vec![vec![ival(3), ival(2)], vec![ival(7), ival(12)], vec![ival(11), ival(30)]],
    );
}

#[test]
fn constraint_based_lola_test_default_no_unknown() {
    check(
        "in x\nout y\ny=default(x, 42)",
        vec![("x", vec![ival(0), ival(1), ival(2)])],
        0,
        &KINDS,
        vec![vec![ival(0)], vec![ival(1)], vec![ival(2)]],
    );
}

#[test]
fn constraint_based_lola_test_default_all_unknown() {
    check(
        "in x\nout y\ny=default(x, 42)",
        vec![("x", vec![Value::Unknown, Value::Unknown, Value::Unknown])],
        0,
        &KINDS,
        vec![vec![ival(42)], vec![ival(42)], vec![ival(42)]],
    );
}

#[test]
fn constraint_based_lola_test_default_one_unknown() {
    check(
        "in x\nout y\ny=default(x, 42)",
        vec![("x", vec![ival(0), Value::Unknown, ival(2)])],
        0,
        &KINDS,
        vec![vec![ival(0)], vec![ival(42)], vec![ival(2)]],
    );
}

#[test]
fn constraint_based_lola_test_counter() {
    check("out y\ny=y[-1, 0] + 1", vec![], 3, &KINDS, vec![vec![ival(1)], vec![ival(2)], vec![ival(3)]]);
}

#[test]
fn constraint_based_lola_test_defer() {
    let inputs = vec![
        ("x", vec![ival(0), ival(1), ival(2)]),
        ("e", vec![text("x + 1"), text("x + 2"), text("x + 3")]),
    ];
    check("in x\nin e\nout z\nz = defer(e)", inputs, 0, &KINDS, vec![vec![ival(1)], vec![ival(2)], vec![ival(3)]]);
}

#[test]
fn constraint_based_lola_test_defer_x_squared() {
    let inputs = vec![
        ("x", vec![ival(1), ival(2), ival(3)]),
        ("e", vec![text("x * x"), text("x * x + 1"), text("x * x + 2")]),
    ];
    check("in x\nin e\nout z\nz = defer(e)", inputs, 0, &KINDS, vec![vec![ival(1)], vec![ival(4)], vec![ival(9)]]);
}

#[test]
fn constraint_based_lola_test_defer_unknown() {
    let inputs = vec![
        ("x", vec![ival(0), ival(1), ival(2)]),
        ("e", vec![Value::Unknown, text("x + 1"), text("x + 2")]),
    ];
    check(
        "in x\nin e\nout z\nz = defer(e)",
        inputs,
        0,
        &KINDS,
        vec![vec![Value::Unknown], vec![ival(2)], vec![ival(3)]],
    );
}

#[test]
fn constraint_based_lola_test_defer_unknown2() {
    let inputs = vec![
        ("x", vec![ival(0), ival(1), ival(2)]),
        ("e", vec![Value::Unknown, text("x + 1"), Value::Unknown]),
    ];
    check(
        "in x\nin e\nout z\nz = defer(e)",
        inputs,
        0,
        &KINDS,
        vec![vec![Value::Unknown], vec![ival(2)], vec![ival(3)]],
    );
}

#[test]
fn constraint_based_lola_test_defer_dependency() {
    let inputs = vec![
        ("x", vec![ival(0), ival(1), ival(2), ival(3)]),
        ("e", vec![Value::Unknown, text("x[-1, 42]"), Value::Unknown, Value::Unknown]),
    ];
    for kind in KINDS {
        let sample_1 = if kind == DependencyKind::DepGraph { Value::Unknown } else { ival(0) };
        let expected = vec![vec![Value::Unknown], vec![sample_1], vec![ival(1)], vec![ival(2)]];
        let got = run("in x\nin e\nout z\nz = defer(e)", inputs.clone(), 0, kind);
        assert!(same(&got, &expected), "{:?}: got {:?}", kind, got);
    }
}

#[test]
fn test_update_both_init() {
    let inputs = vec![
        ("x", vec![text("x0"), text("x1"), text("x2")]),
        ("y", vec![text("y0"), text("y1"), text("y2")]),
    ];
    check(
        "in x\nin y\nout z\nz = update(x, y)",
        inputs,
        0,
        &KINDS,
        vec![vec![text("y0")], vec![text("y1")], vec![text("y2")]],
    );
}

#[test]
fn test_update_first_x_then_y() {
    let inputs = vec![
        ("x", vec![text("x0"), text("x1"), text("x2"), text("x3")]),
        ("y", vec![Value::Unknown, text("y1"), Value::Unknown, text("y3")]),
    ];
    check(
        "in x\nin y\nout z\nz = update(x, y)",
        inputs,
        0,
        &KINDS,
        vec![vec![text("x0")], vec![text("y1")], vec![Value::Unknown], vec![text("y3")]],
    );
}

#[test]
fn test_update_defer() {
    let inputs = vec![
        ("x", vec![text("x0"), text("x1"), text("x2"), text("x3")]),
        ("e", vec![Value::Unknown, text("x"), text("x"), text("x")]),
    ];
    check(
        "in x\nin e\nout z\nz = update(\"def\", defer(e))",
        inputs,
        0,
        &KINDS,
        vec![vec![text("def")], vec![text("x1")], vec![text("x2")], vec![text("x3")]],
    );
}

#[test]
fn test_defer_update() {
    let inputs = vec![
        ("x", vec![Value::Unknown, text("x"), text("x_lost"), text("x_sad")]),
        ("y", vec![Value::Unknown, text("y"), text("y_won!"), text("y_happy")]),
    ];
    check(
        "in x\nin y\nout z\nz = defer(update(x, y))",
        inputs,
        0,
        &KINDS,
        vec![vec![Value::Unknown], vec![text("y")], vec![text("y_won!")], vec![text("y_happy")]],
    );
}

#[test]
fn test_recursive_update() {
    let inputs = vec![("x", vec![text("x0"), text("x1"), text("x2"), text("x3")])];
    check(
        "in x\nout z\nz = update(x, z)",
        inputs,
        0,
        &KINDS,
        vec![vec![text("x0")], vec![text("x1")], vec![text("x2")], vec![text("x3")]],
    );
}

#[test]
fn test_recursive_update_defer() {
    let inputs = vec![("x", vec![text("0"), text("1"), text("2"), text("3")])];
    check(
        "in x\nout z\nz = update(defer(x), z)",
        inputs,
        0,
        &KINDS,
        vec![vec![ival(0)], vec![ival(0)], vec![ival(0)], vec![ival(0)]],
    );
}

#[test]
fn benchmark_driver_runs_every_step() {
    let (spec, _) = lola_specification("in x\nin y\nout z\nz = x + y");
    let deps = create_dependency_manager(DependencyKind::DepGraph, &spec);
    let rt = monitor_outputs_untyped_constraints_no_overhead(spec, 10, deps).unwrap();
    assert_eq!(rt.time, 10);
}

use trustworthiness_checker::dist::{
    check, check_path_constraint, gen_paths, CheckError, DistConstraint, DistConstraintBody,
    DistConstraintType, LabelledDistributionGraph,
};
use trustworthiness_checker::values::VarName;

fn chain() -> LabelledDistributionGraph {
    LabelledDistributionGraph {
        var_names: vec![VarName::new("x"), VarName::new("y"), VarName::new("z")],
        node_names: ["A", "B", "C", "D", "E", "F"].iter().map(|s| s.to_string()).collect(),
        edges: vec![(0, 1), (1, 2), (2, 3), (3, 4), (4, 5)],
        central_monitor: 5,
        node_labels: vec![
            (0, vec![VarName::new("x")]),
            (1, vec![VarName::new("y")]),
            (2, vec![VarName::new("z")]),
            (3, vec![VarName::new("x"), VarName::new("y")]),
            (4, vec![VarName::new("z")]),
            (5, vec![VarName::new("y")]),
        ],
    }
}

#[test]
fn test_dist_graph_paths() {
    let g = chain();
    let paths = gen_paths("A", &g);
    assert_eq!(paths, vec![vec![0, 1, 2, 3, 4, 5]]);
}

#[test]
fn paths_through_a_diamond() {
    let g = LabelledDistributionGraph {
        var_names: vec![],
        node_names: ["A", "B", "C", "D"].iter().map(|s| s.to_string()).collect(),
        edges: vec![(0, 1), (0, 2), (1, 3), (2, 3)],
        central_monitor: 3,
        node_labels: vec![],
    };
    let mut paths = gen_paths("A", &g);
    paths.sort();
    assert_eq!(paths, vec![vec![0, 1, 3], vec![0, 2, 3]]);
}

#[test]
fn can_run_constraints_look_along_the_path() {
    let g = chain();
    let path = vec![2usize, 4, 5];
    let on_y = DistConstraint(DistConstraintType::CanRun, DistConstraintBody::Monitor(VarName::new("y")));
    let on_x = DistConstraint(DistConstraintType::CanRun, DistConstraintBody::Source(VarName::new("x")));
    assert_eq!(check_path_constraint(&path, &g.node_labels, &on_y), Ok(true));
    assert_eq!(check_path_constraint(&path, &g.node_labels, &on_x), Ok(false));
    let other = DistConstraint(DistConstraintType::Redundancy, DistConstraintBody::Monitor(VarName::new("y")));
    assert_eq!(check_path_constraint(&path, &g.node_labels, &other), Err(CheckError::Unsupported));
    let all = check("E", &g, &vec![on_y, on_x]).unwrap();
    assert_eq!(all, vec![false]);
}

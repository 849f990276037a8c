use vstd::prelude::*;
use crate::values::{Value, ValueV, VarName, names_view};
use crate::ast::SBinOp;

verus! {

/// The kinds of distribution constraints.
#[derive(Debug, Clone, Copy, PartialEq, Eq, Structural)]
pub enum DistConstraintType {
    CanRun,
    LocalityScore,
    Redundancy,
}

/// The body of a distribution constraint.
#[derive(Debug)]
pub enum DistConstraintBody {
    If(Box<DistConstraintBody>, Box<DistConstraintBody>, Box<DistConstraintBody>),
    SIndex(Box<DistConstraintBody>, isize, Value),
    Val(Value),
    BinOp(Box<DistConstraintBody>, Box<DistConstraintBody>, SBinOp),
    Var(VarName),
    Default(Box<DistConstraintBody>, Box<DistConstraintBody>),
    IsDefined(Box<DistConstraintBody>),
    Not(Box<DistConstraintBody>),
    List(Vec<DistConstraintBody>),
    LIndex(Box<DistConstraintBody>, Box<DistConstraintBody>),
    LAppend(Box<DistConstraintBody>, Box<DistConstraintBody>),
    LConcat(Box<DistConstraintBody>, Box<DistConstraintBody>),
    LHead(Box<DistConstraintBody>),
    LTail(Box<DistConstraintBody>),
    Sin(Box<DistConstraintBody>),
    Cos(Box<DistConstraintBody>),
    Tan(Box<DistConstraintBody>),
    /// The variable is monitored on the node.
    Monitor(VarName),
    /// The variable originates on the node.
    Source(VarName),
    Dist(Box<DistConstraintBody>),
    WeightedDist(Box<DistConstraintBody>, Box<DistConstraintBody>),
    Sum(VarName),
}

/// The mathematical model of a constraint body.
pub enum DistBodyV {
    If(Box<DistBodyV>, Box<DistBodyV>, Box<DistBodyV>),
    SIndex(Box<DistBodyV>, isize, ValueV),
    Val(ValueV),
    BinOp(Box<DistBodyV>, Box<DistBodyV>, SBinOp),
    Var(Seq<char>),
    Default(Box<DistBodyV>, Box<DistBodyV>),
    IsDefined(Box<DistBodyV>),
    Not(Box<DistBodyV>),
    List(Seq<DistBodyV>),
    LIndex(Box<DistBodyV>, Box<DistBodyV>),
    LAppend(Box<DistBodyV>, Box<DistBodyV>),
    LConcat(Box<DistBodyV>, Box<DistBodyV>),
    LHead(Box<DistBodyV>),
    LTail(Box<DistBodyV>),
    Sin(Box<DistBodyV>),
    Cos(Box<DistBodyV>),
    Tan(Box<DistBodyV>),
    Monitor(Seq<char>),
    Source(Seq<char>),
    Dist(Box<DistBodyV>),
    WeightedDist(Box<DistBodyV>, Box<DistBodyV>),
    Sum(Seq<char>),
}

impl View for DistConstraintBody {
    type V = DistBodyV;

    open spec fn view(&self) -> DistBodyV {
        dist_body_view(*self)
    }
}

/// The model of a constraint body, node by node.
pub open spec fn dist_body_view(b: DistConstraintBody) -> DistBodyV
    decreases b,
{
    match b {
        DistConstraintBody::If(c, t, f) => DistBodyV::If(
            Box::new(dist_body_view(*c)),
            Box::new(dist_body_view(*t)),
            Box::new(dist_body_view(*f)),
        ),
        DistConstraintBody::SIndex(x, i, d) => DistBodyV::SIndex(Box::new(dist_body_view(*x)), i, d@),
        DistConstraintBody::Val(v) => DistBodyV::Val(v@),
        DistConstraintBody::BinOp(a, b, op) => DistBodyV::BinOp(
            Box::new(dist_body_view(*a)),
            Box::new(dist_body_view(*b)),
            op,
        ),
        DistConstraintBody::Var(n) => DistBodyV::Var(n@),
        DistConstraintBody::Default(a, b) => DistBodyV::Default(
            Box::new(dist_body_view(*a)),
            Box::new(dist_body_view(*b)),
        ),
        DistConstraintBody::IsDefined(x) => DistBodyV::IsDefined(Box::new(dist_body_view(*x))),
        DistConstraintBody::Not(x) => DistBodyV::Not(Box::new(dist_body_view(*x))),
        DistConstraintBody::List(es) => DistBodyV::List(
            Seq::new(
                es.len() as nat,
                |i: int|
                    if 0 <= i < es.len() {
                        dist_body_view(es@[i])
                    } else {
                        DistBodyV::Val(ValueV::Unknown)
                    },
            ),
        ),
        DistConstraintBody::LIndex(a, b) => DistBodyV::LIndex(
            Box::new(dist_body_view(*a)),
            Box::new(dist_body_view(*b)),
        ),
        DistConstraintBody::LAppend(a, b) => DistBodyV::LAppend(
            Box::new(dist_body_view(*a)),
            Box::new(dist_body_view(*b)),
        ),
        DistConstraintBody::LConcat(a, b) => DistBodyV::LConcat(
            Box::new(dist_body_view(*a)),
            Box::new(dist_body_view(*b)),
        ),
        DistConstraintBody::LHead(x) => DistBodyV::LHead(Box::new(dist_body_view(*x))),
        DistConstraintBody::LTail(x) => DistBodyV::LTail(Box::new(dist_body_view(*x))),
        DistConstraintBody::Sin(x) => DistBodyV::Sin(Box::new(dist_body_view(*x))),
        DistConstraintBody::Cos(x) => DistBodyV::Cos(Box::new(dist_body_view(*x))),
        DistConstraintBody::Tan(x) => DistBodyV::Tan(Box::new(dist_body_view(*x))),
        DistConstraintBody::Monitor(n) => DistBodyV::Monitor(n@),
        DistConstraintBody::Source(n) => DistBodyV::Source(n@),
        DistConstraintBody::Dist(x) => DistBodyV::Dist(Box::new(dist_body_view(*x))),
        DistConstraintBody::WeightedDist(a, b) => DistBodyV::WeightedDist(
            Box::new(dist_body_view(*a)),
            Box::new(dist_body_view(*b)),
        ),
        DistConstraintBody::Sum(n) => DistBodyV::Sum(n@),
    }
}

/// The views of a list of bodies.
pub open spec fn bodies_view(es: Seq<DistConstraintBody>) -> Seq<DistBodyV> {
    Seq::new(es.len(), |i: int| es[i]@)
}

/// A distribution constraint: its kind and its body.
#[derive(Debug)]
pub struct DistConstraint(pub DistConstraintType, pub DistConstraintBody);

/// Why a constraint could not be checked.
#[derive(Debug, Clone, Copy, PartialEq, Eq, Structural)]
pub enum CheckError {
    /// A kind of constraint, or a body, that checking does not handle.
    Unsupported,
}

/// A distribution graph: named nodes, directed edges between node indices,
/// the node of the central monitor, and the variables placed on each node.
#[derive(Debug)]
pub struct LabelledDistributionGraph {
    pub var_names: Vec<VarName>,
    pub node_names: Vec<String>,
    pub edges: Vec<(usize, usize)>,
    pub central_monitor: usize,
    pub node_labels: Vec<(usize, Vec<VarName>)>,
}

impl LabelledDistributionGraph {
    /// Every edge, and the central monitor, refer to nodes of the graph.
    pub open spec fn wf(&self) -> bool {
        &&& 0 < self.node_names.len() < 0xffff_ffff
        &&& self.edges.len() < 0xffff_ffff
        &&& self.central_monitor < self.node_names.len()
        &&& forall|i: int|
            0 <= i < self.edges.len() ==> (#[trigger] self.edges@[i]).0 < self.node_names.len()
                && self.edges@[i].1 < self.node_names.len()
    }
}

/// The labels of a node: those of the first entry for it.
pub open spec fn labels_of(labels: Seq<(usize, Vec<VarName>)>, node: usize) -> Option<Seq<Seq<char>>>
    decreases labels.len(),
{
    if labels.len() == 0 {
        None
    } else if labels[0].0 == node {
        Some(names_view(labels[0].1@))
    } else {
        labels_of(labels.drop_first(), node)
    }
}

/// Whether the labels of `node` contain `v`.
pub open spec fn carries(labels: Seq<(usize, Vec<VarName>)>, node: usize, v: Seq<char>) -> bool {
    match labels_of(labels, node) {
        Some(ls) => ls.contains(v),
        None => false,
    }
}

/// Whether some node of the path carries the variable `v`.
pub open spec fn path_carries(path: Seq<usize>, labels: Seq<(usize, Vec<VarName>)>, v: Seq<char>) -> bool {
    exists|k: int| 0 <= k < path.len() && #[trigger] carries(labels, path[k], v)
}

/// The result of checking one constraint against a path.
pub open spec fn check_spec(path: Seq<usize>, labels: Seq<(usize, Vec<VarName>)>, c: DistConstraint) -> Result<
    bool,
    CheckError,
> {
    match c.0 {
        DistConstraintType::CanRun => match c.1 {
            DistConstraintBody::Monitor(v) => Ok(path_carries(path, labels, v@)),
            DistConstraintBody::Source(v) => Ok(path_carries(path, labels, v@)),
            _ => Err(CheckError::Unsupported),
        },
        _ => Err(CheckError::Unsupported),
    }
}

/// Whether the labels of `node` contain `v`.
fn node_carries(labels: &Vec<(usize, Vec<VarName>)>, node: usize, v: &VarName) -> (res: bool)
    ensures
        res == carries(labels@, node, v@),
{
    let mut i: usize = 0;
    proof {
        assert(labels@.skip(0) =~= labels@);
    }
    while i < labels.len()
        invariant
            i <= labels.len(),
            labels_of(labels@, node) == labels_of(labels@.skip(i as int), node),
        decreases labels.len() - i,
    {
        proof {
            assert(labels@.skip(i as int).drop_first() =~= labels@.skip(i + 1));
        }
        if labels[i].0 == node {
            return crate::deps::contains_name(&labels[i].1, v);
        }
        i = i + 1;
    }
    false
}

/// Checks a constraint against a path of nodes: whether a `can_run` constraint
/// on a monitored or source variable finds the variable on some node of the
/// path. Other constraints are not checked.
pub fn check_path_constraint(
    path: &Vec<usize>,
    node_labels: &Vec<(usize, Vec<VarName>)>,
    constraint: &DistConstraint,
) -> (res: Result<bool, CheckError>)
    ensures
        res == check_spec(path@, node_labels@, *constraint),
{
    match constraint.0 {
        DistConstraintType::CanRun => {
            let v = match &constraint.1 {
                DistConstraintBody::Monitor(v) => v,
                DistConstraintBody::Source(v) => v,
                _ => {
                    return Err(CheckError::Unsupported);
                },
            };
            let mut k: usize = 0;
            while k < path.len()
                invariant
                    k <= path.len(),
                    check_spec(path@, node_labels@, *constraint) == Ok::<bool, CheckError>(
                        path_carries(path@, node_labels@, v@),
                    ),
                    forall|j: int| 0 <= j < k ==> !(#[trigger] carries(node_labels@, path@[j], v@)),
                decreases path.len() - k,
            {
                if node_carries(node_labels, path[k], v) {
                    proof {
                        assert(carries(node_labels@, path@[k as int], v@));
                    }
                    return Ok(true);
                }
                k = k + 1;
            }
            Ok(false)
        },
        _ => Err(CheckError::Unsupported),
    }
}

/// All simple paths from `from` to `to` in the directed graph with `n` nodes
/// and the given edges, in the order in which the path search finds them.
pub uninterp spec fn simple_paths(n: nat, edges: Seq<(usize, usize)>, from: usize, to: usize) -> Seq<
    Seq<usize>,
>;

/// Whether `p` is a path from `from` to `to` along `edges` whose nodes before
/// the last are all different, and none of them `to` but the first (a path
/// from a node back to itself is a cycle through it).
pub open spec fn is_simple_path(p: Seq<usize>, edges: Seq<(usize, usize)>, from: usize, to: usize) -> bool {
    &&& p.len() >= 2
    &&& p[0] == from
    &&& p.last() == to
    &&& forall|k: int| 0 <= k < p.len() - 1 ==> #[trigger] edges.contains((p[k], p[k + 1]))
    &&& forall|a: int, b: int| 0 <= a < b < p.len() - 1 ==> p[a] != p[b]
    &&& forall|k: int| 0 < k < p.len() - 1 ==> #[trigger] p[k] != to
}

/// The model of a list of paths.
pub open spec fn paths_view(ps: Seq<Vec<usize>>) -> Seq<Seq<usize>> {
    Seq::new(ps.len(), |i: int| ps[i]@)
}

/// Calls petgraph's `algo::all_simple_paths` (with no bound on the number of
/// intermediate nodes) on a `Graph` built from `n` nodes and `edges`, and
/// gives back each path as node indices. The contract names the result, and
/// states what the search ensures of each path: it runs from `from` along the
/// edges to `to` without repeating a node before the last one, and that
/// every such path of at most `n` nodes is among them (a path appears once per
/// choice of parallel edges). It does not state the order of the paths.
#[verifier::external_body]
fn all_simple_paths(n: usize, edges: &Vec<(usize, usize)>, from: usize, to: usize) -> (res: Vec<Vec<usize>>)
    requires
        0 < n < 0xffff_ffff,
        edges.len() < 0xffff_ffff,
        from < n,
        to < n,
        forall|i: int| 0 <= i < edges.len() ==> (#[trigger] edges@[i]).0 < n && edges@[i].1 < n,
    ensures
        paths_view(res@) == simple_paths(n as nat, edges@, from, to),
        forall|i: int| 0 <= i < res.len() ==> is_simple_path(#[trigger] res@[i]@, edges@, from, to),
        forall|p: Seq<usize>|
            #[trigger] is_simple_path(p, edges@, from, to) && p.len() <= n ==> paths_view(res@).contains(p),
{
    let mut g = petgraph::Graph::<(), ()>::new();
    let nodes: Vec<petgraph::graph::NodeIndex> = (0..n).map(|_| g.add_node(())).collect();
    for (a, b) in edges.iter() {
        g.add_edge(nodes[*a], nodes[*b], ());
    }
    petgraph::algo::all_simple_paths::<Vec<_>, _>(&g, nodes[from], nodes[to], 0, None)
        .map(|p| p.into_iter().map(|x| x.index()).collect())
        .collect()
}

/// The position of the first node with the given name.
pub open spec fn node_index_of(names: Seq<String>, name: Seq<char>, k: int) -> Option<int>
    decreases names.len() - k,
{
    if k < 0 || k >= names.len() {
        None
    } else if names[k]@ == name {
        Some(k)
    } else {
        node_index_of(names, name, k + 1)
    }
}

/// All simple paths from the node named `node_name` to the central monitor.
pub fn gen_paths(node_name: &str, graph: &LabelledDistributionGraph) -> (res: Vec<Vec<usize>>)
    requires
        graph.wf(),
        node_index_of(graph.node_names@, node_name@, 0) is Some,
    ensures
        paths_view(res@) == simple_paths(
            graph.node_names.len() as nat,
            graph.edges@,
            node_index_of(graph.node_names@, node_name@, 0)->0 as usize,
            graph.central_monitor,
        ),
        forall|i: int|
            0 <= i < res.len() ==> is_simple_path(
                #[trigger] res@[i]@,
                graph.edges@,
                node_index_of(graph.node_names@, node_name@, 0)->0 as usize,
                graph.central_monitor,
            ),
        forall|p: Seq<usize>|
            #[trigger] is_simple_path(
                p,
                graph.edges@,
                node_index_of(graph.node_names@, node_name@, 0)->0 as usize,
                graph.central_monitor,
            ) && p.len() <= graph.node_names.len() ==> paths_view(res@).contains(p),
{
    let mut i: usize = 0;
    while i < graph.node_names.len()
        invariant
            graph.wf(),
            i <= graph.node_names.len(),
            node_index_of(graph.node_names@, node_name@, 0) == node_index_of(
                graph.node_names@,
                node_name@,
                i as int,
            ),
        decreases graph.node_names.len() - i,
    {
        if crate::topics::str_equal(graph.node_names[i].as_str(), node_name) {
            return all_simple_paths(graph.node_names.len(), &graph.edges, i, graph.central_monitor);
        }
        i = i + 1;
    }
    Vec::new()
}

/// Whether every constraint holds on a path, checked in order up to the first
/// that fails; `Err` when a constraint reached cannot be checked.
pub open spec fn all_hold(path: Seq<usize>, labels: Seq<(usize, Vec<VarName>)>, cs: Seq<DistConstraint>) -> Result<
    bool,
    CheckError,
>
    decreases cs.len(),
{
    if cs.len() == 0 {
        Ok(true)
    } else {
        match check_spec(path, labels, cs[0]) {
            Err(e) => Err(e),
            Ok(false) => Ok(false),
            Ok(true) => all_hold(path, labels, cs.drop_first()),
        }
    }
}

/// Checks the constraints on every simple path from the node named
/// `node_name` to the central monitor: for each path, whether all hold.
pub fn check(node_name: &str, graph: &LabelledDistributionGraph, constraints: &Vec<DistConstraint>) -> (res:
    Result<Vec<bool>, CheckError>)
    requires
        graph.wf(),
        node_index_of(graph.node_names@, node_name@, 0) is Some,
    ensures
        ({
            let paths = simple_paths(
                graph.node_names.len() as nat,
                graph.edges@,
                node_index_of(graph.node_names@, node_name@, 0)->0 as usize,
                graph.central_monitor,
            );
            match res {
                Ok(bs) => bs.len() == paths.len() && forall|i: int|
                    0 <= i < bs.len() ==> all_hold(paths[i], graph.node_labels@, constraints@) == Ok::<
                        bool,
                        CheckError,
                    >(#[trigger] bs@[i]),
                Err(e) => exists|i: int|
                    0 <= i < paths.len() && #[trigger] all_hold(paths[i], graph.node_labels@, constraints@)
                        == Err::<bool, CheckError>(e),
            }
        }),
{
    let paths = gen_paths(node_name, graph);
    let ghost sp = simple_paths(
        graph.node_names.len() as nat,
        graph.edges@,
        node_index_of(graph.node_names@, node_name@, 0)->0 as usize,
        graph.central_monitor,
    );
    assert(sp == paths_view(paths@));
    let mut out: Vec<bool> = Vec::new();
    let mut i: usize = 0;
    while i < paths.len()
        invariant
            i <= paths.len(),
            out.len() == i,
            sp == paths_view(paths@),
            sp == simple_paths(
                graph.node_names.len() as nat,
                graph.edges@,
                node_index_of(graph.node_names@, node_name@, 0)->0 as usize,
                graph.central_monitor,
            ),
            forall|j: int|
                0 <= j < i ==> all_hold(paths_view(paths@)[j], graph.node_labels@, constraints@)
                    == Ok::<bool, CheckError>(#[trigger] out@[j]),
        decreases paths.len() - i,
    {
        let mut all = true;
        let mut k: usize = 0;
        proof {
            assert(constraints@.skip(0) =~= constraints@);
        }
        while all && k < constraints.len()
            invariant
                k <= constraints.len(),
                i < paths.len(),
                sp == paths_view(paths@),
                sp == simple_paths(
                    graph.node_names.len() as nat,
                    graph.edges@,
                    node_index_of(graph.node_names@, node_name@, 0)->0 as usize,
                    graph.central_monitor,
                ),
                all ==> all_hold(paths_view(paths@)[i as int], graph.node_labels@, constraints@)
                    == all_hold(
                    paths_view(paths@)[i as int],
                    graph.node_labels@,
                    constraints@.skip(k as int),
                ),
                !all ==> all_hold(paths_view(paths@)[i as int], graph.node_labels@, constraints@)
                    == Ok::<bool, CheckError>(false),
            decreases constraints.len() - k + (if all {
                1int
            } else {
                0int
            }),
        {
            proof {
                assert(constraints@.skip(k as int).drop_first() =~= constraints@.skip(k + 1));
                assert(constraints@.skip(k as int)[0] == constraints@[k as int]);
            }
            match check_path_constraint(&paths[i], &graph.node_labels, &constraints[k]) {
                Err(e) => {
                    proof {
                        assert(all_hold(paths_view(paths@)[i as int], graph.node_labels@, constraints@)
                            == Err::<bool, CheckError>(e));
                        assert(all_hold(sp[i as int], graph.node_labels@, constraints@) == Err::<
                            bool,
                            CheckError,
                        >(e));
                    }
                    return Err(e);
                },
                Ok(false) => {
                    all = false;
                },
                Ok(true) => {
                    k = k + 1;
                },
            }
        }
        proof {
            if all {
                assert(constraints@.skip(constraints.len() as int) =~= Seq::<DistConstraint>::empty());
            }
        }
        out.push(all);
        i = i + 1;
    }
    Ok(out)
}

/// The state of a walk that grows paths from an origin node one neighbour at
/// a time: the paths being extended, the paths found for the next round, and
/// the neighbours still to add.
pub struct PathGenerator {
    pub active_paths: Vec<Vec<usize>>,
    pub next_paths: Vec<Vec<usize>>,
    pub active_neighbours: Vec<usize>,
}

impl PathGenerator {
    /// Neighbours are only pending while some path is there to extend.
    pub open spec fn wf(&self) -> bool {
        self.active_paths.len() > 0 || self.active_neighbours.len() == 0
    }

    /// The start of a walk from `origin`: one empty path, and `origin` as the
    /// only neighbour to add.
    pub fn new(origin: usize) -> (res: PathGenerator)
        ensures
            res.wf(),
            res.active_paths.len() == 1,
            res.active_paths@[0]@.len() == 0,
            res.next_paths.len() == 0,
            res.active_neighbours@ == seq![origin],
    {
        let mut active_paths: Vec<Vec<usize>> = Vec::new();
        active_paths.push(Vec::new());
        let mut active_neighbours: Vec<usize> = Vec::new();
        active_neighbours.push(origin);
        PathGenerator { active_paths, next_paths: Vec::new(), active_neighbours }
    }
}

} // verus!

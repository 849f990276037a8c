use vstd::prelude::*;
use crate::values::{VarName, names_view, clone_names};
use crate::ast::{SExpr, SExprV, LOLASpecification};

verus! {

/// The bound within which accumulated stream offsets are tracked exactly.
pub const OFFSET_BOUND: i128 = 0x1_0000_0000_0000_0000_0000;

/// An offset sum, clamped into `[-OFFSET_BOUND, OFFSET_BOUND]`.
pub open spec fn clamp_offset(x: int) -> int {
    if x > OFFSET_BOUND {
        OFFSET_BOUND as int
    } else if x < -OFFSET_BOUND {
        -OFFSET_BOUND
    } else {
        x
    }
}

/// How far into the past `e` looks at variable `v`, when `e` itself is read at
/// the relative time `offset`: the largest `-t` over the occurrences of `v` read at
/// a relative time `t < 0` (offsets along the way clamped), capped at `usize::MAX`.
pub open spec fn look_back(e: SExprV, v: Seq<char>, offset: int) -> nat
    decreases e,
{
    match e {
        SExprV::Var(n) => if n == v && offset < 0 {
            if -offset > usize::MAX {
                usize::MAX as nat
            } else {
                (-offset) as nat
            }
        } else {
            0
        },
        SExprV::SIndex(x, i, _) => look_back(*x, v, clamp_offset(offset + i)),
        SExprV::Val(_) => 0,
        SExprV::If(b, t, f) => nat_max(
            look_back(*b, v, offset),
            nat_max(look_back(*t, v, offset), look_back(*f, v, offset)),
        ),
        SExprV::BinOp(a, b, _) => nat_max(look_back(*a, v, offset), look_back(*b, v, offset)),
        SExprV::Eval(x) => look_back(*x, v, offset),
        SExprV::Defer(x) => look_back(*x, v, offset),
        SExprV::Update(a, b) => nat_max(look_back(*a, v, offset), look_back(*b, v, offset)),
        SExprV::Default(a, b) => nat_max(look_back(*a, v, offset), look_back(*b, v, offset)),
        SExprV::IsDefined(x) => look_back(*x, v, offset),
        SExprV::When(x) => look_back(*x, v, offset),
        SExprV::Not(x) => look_back(*x, v, offset),
        SExprV::List(es) => list_look_back(es, v, offset),
        SExprV::LIndex(a, b) => nat_max(look_back(*a, v, offset), look_back(*b, v, offset)),
        SExprV::LAppend(a, b) => nat_max(look_back(*a, v, offset), look_back(*b, v, offset)),
        SExprV::LConcat(a, b) => nat_max(look_back(*a, v, offset), look_back(*b, v, offset)),
        SExprV::LHead(x) => look_back(*x, v, offset),
        SExprV::LTail(x) => look_back(*x, v, offset),
    }
}

/// The largest `look_back` over a list of expressions (0 for none).
pub open spec fn list_look_back(es: Seq<SExprV>, v: Seq<char>, offset: int) -> nat
    decreases es,
{
    if es.len() == 0 {
        0
    } else {
        nat_max(list_look_back(es.drop_last(), v, offset), look_back(es.last(), v, offset))
    }
}

pub open spec fn nat_max(a: nat, b: nat) -> nat {
    if a >= b {
        a
    } else {
        b
    }
}

/// The largest look-back at `v` over a list of dependency edges (0 for none).
pub open spec fn edges_look_back(edges: Seq<(Seq<char>, SExprV)>, v: Seq<char>) -> nat
    decreases edges.len(),
{
    if edges.len() == 0 {
        0
    } else {
        nat_max(edges_look_back(edges.drop_last(), v), look_back(edges.last().1, v, 0))
    }
}

/// The kinds of dependency managers.
#[derive(Debug, Clone, Copy, PartialEq, Eq, Structural)]
pub enum DependencyKind {
    Empty,
    DepGraph,
}

/// The manager that keeps no dependency information: every stored value of a
/// known variable is kept for ever.
#[derive(Debug)]
pub struct Empty {
    pub vars: Vec<VarName>,
}

/// The manager that keeps, for each output, the expressions it currently
/// depends on, and derives from them how long each variable must be kept.
#[derive(Debug)]
pub struct DepGraph {
    pub vars: Vec<VarName>,
    pub edges: Vec<(VarName, SExpr)>,
}

/// A dependency manager of either kind.
#[derive(Debug)]
pub enum DependencyManager {
    Empty(Empty),
    DepGraph(DepGraph),
}

/// The model of a dependency manager.
pub enum DepsV {
    Empty(Seq<Seq<char>>),
    DepGraph(Seq<Seq<char>>, Seq<(Seq<char>, SExprV)>),
}

/// The views of a list of dependency edges.
pub open spec fn edges_view(edges: Seq<(VarName, SExpr)>) -> Seq<(Seq<char>, SExprV)> {
    Seq::new(edges.len(), |i: int| (edges[i].0@, edges[i].1@))
}

impl View for DependencyManager {
    type V = DepsV;

    open spec fn view(&self) -> DepsV {
        match self {
            DependencyManager::Empty(e) => DepsV::Empty(names_view(e.vars@)),
            DependencyManager::DepGraph(g) => DepsV::DepGraph(
                names_view(g.vars@),
                edges_view(g.edges@),
            ),
        }
    }
}

impl DepsV {
    /// The variables the manager knows about.
    pub open spec fn vars(self) -> Seq<Seq<char>> {
        match self {
            DepsV::Empty(vs) => vs,
            DepsV::DepGraph(vs, _) => vs,
        }
    }

    /// How long (in time steps) the values of `v` must be kept; `None` for a
    /// variable the manager does not know.
    pub open spec fn longest(self, v: Seq<char>) -> Option<nat> {
        if !self.vars().contains(v) {
            None
        } else {
            match self {
                DepsV::Empty(_) => Some(usize::MAX as nat),
                DepsV::DepGraph(_, edges) => Some(edges_look_back(edges, v)),
            }
        }
    }

    /// The manager after `var` is recorded to depend on `e`.
    pub open spec fn added(self, var: Seq<char>, e: SExprV) -> DepsV {
        match self {
            DepsV::Empty(vs) => DepsV::Empty(vs),
            DepsV::DepGraph(vs, edges) => DepsV::DepGraph(vs, edges.push((var, e))),
        }
    }

    /// The manager after the first record that `var` depends on `e` is dropped.
    pub open spec fn removed(self, var: Seq<char>, e: SExprV) -> DepsV {
        match self {
            DepsV::Empty(vs) => DepsV::Empty(vs),
            DepsV::DepGraph(vs, edges) => DepsV::DepGraph(vs, remove_first_edge(edges, var, e)),
        }
    }
}

/// `edges` without its first occurrence of `(var, e)` (unchanged if there is none).
pub open spec fn remove_first_edge(
    edges: Seq<(Seq<char>, SExprV)>,
    var: Seq<char>,
    e: SExprV,
) -> Seq<(Seq<char>, SExprV)>
    decreases edges.len(),
{
    if edges.len() == 0 {
        edges
    } else if edges[0] == (var, e) {
        edges.drop_first()
    } else {
        seq![edges[0]] + remove_first_edge(edges.drop_first(), var, e)
    }
}

/// The largest backward offset at which `e`, read at relative time `offset`,
/// reads `v` (see `look_back`).
#[verifier::loop_isolation(false)]
fn look_back_exec(e: &SExpr, v: &VarName, offset: i128) -> (res: usize)
    requires
        -OFFSET_BOUND <= offset <= OFFSET_BOUND,
    ensures
        res == look_back(e@, v@, offset as int),
    decreases e,
{
    match e {
        SExpr::Var(n) => {
            if n.equals(v) && offset < 0 {
                if -offset > usize::MAX as i128 {
                    usize::MAX
                } else {
                    (-offset) as usize
                }
            } else {
                0
            }
        },
        SExpr::SIndex(x, i, _) => {
            let s: i128 = offset + (*i as i128);
            let c: i128 = if s > OFFSET_BOUND {
                OFFSET_BOUND
            } else if s < -OFFSET_BOUND {
                -OFFSET_BOUND
            } else {
                s
            };
            look_back_exec(x, v, c)
        },
        SExpr::Val(_) => 0,
        SExpr::If(b, t, f) => {
            let a1 = look_back_exec(b, v, offset);
            let a2 = look_back_exec(t, v, offset);
            let a3 = look_back_exec(f, v, offset);
            let m = if a2 >= a3 {
                a2
            } else {
                a3
            };
            if a1 >= m {
                a1
            } else {
                m
            }
        },
        SExpr::BinOp(a, b, _) | SExpr::Update(a, b) | SExpr::Default(a, b) | SExpr::LIndex(a, b)
        | SExpr::LAppend(a, b) | SExpr::LConcat(a, b) => {
            let a1 = look_back_exec(a, v, offset);
            let a2 = look_back_exec(b, v, offset);
            if a1 >= a2 {
                a1
            } else {
                a2
            }
        },
        SExpr::Eval(x) | SExpr::Defer(x) | SExpr::IsDefined(x) | SExpr::When(x) | SExpr::Not(x)
        | SExpr::LHead(x) | SExpr::LTail(x) => look_back_exec(x, v, offset),
        SExpr::List(es) => {
            let mut best: usize = 0;
            let mut i: usize = 0;
            while i < es.len()
                invariant
                    i <= es.len(),
                    -OFFSET_BOUND <= offset <= OFFSET_BOUND,
                    e@ == SExprV::List(e@->List_0),
                    e@->List_0.len() == es.len(),
                    forall|j: int| 0 <= j < es.len() ==> e@->List_0[j] == (#[trigger] es@[j])@,
                    best == list_look_back(e@->List_0.take(i as int), v@, offset as int),
                decreases es.len() - i,
            {
                proof {
                    assert(decreases_to!(*es => es[i as int]));
                }
                let d = look_back_exec(&es[i], v, offset);
                proof {
                    let l = e@->List_0;
                    assert(l.take(i + 1).drop_last() =~= l.take(i as int));
                    assert(l.take(i + 1).last() == es@[i as int]@);
                }
                if d > best {
                    best = d;
                }
                i = i + 1;
            }
            proof {
                assert(e@->List_0.take(es.len() as int) =~= e@->List_0);
            }
            best
        },
    }
}

/// The largest look-back at `v` over a list of edges.
fn edges_look_back_exec(edges: &Vec<(VarName, SExpr)>, v: &VarName) -> (res: usize)
    ensures
        res == edges_look_back(edges_view(edges@), v@),
{
    let mut best: usize = 0;
    let mut i: usize = 0;
    while i < edges.len()
        invariant
            i <= edges.len(),
            best == edges_look_back(edges_view(edges@).take(i as int), v@),
        decreases edges.len() - i,
    {
        let d = look_back_exec(&edges[i].1, v, 0);
        proof {
            let l = edges_view(edges@);
            assert(l.take(i + 1).drop_last() =~= l.take(i as int));
            assert(l.take(i + 1).last() == l[i as int]);
        }
        if d > best {
            best = d;
        }
        i = i + 1;
    }
    proof {
        assert(edges_view(edges@).take(edges.len() as int) =~= edges_view(edges@));
    }
    best
}

/// Whether `v` occurs among `vars`.
pub fn contains_name(vars: &Vec<VarName>, v: &VarName) -> (res: bool)
    ensures
        res == names_view(vars@).contains(v@),
{
    let mut i: usize = 0;
    while i < vars.len()
        invariant
            i <= vars.len(),
            forall|j: int| 0 <= j < i ==> vars@[j]@ != v@,
        decreases vars.len() - i,
    {
        if vars[i].equals(v) {
            proof {
                assert(names_view(vars@)[i as int] == v@);
            }
            return true;
        }
        i = i + 1;
    }
    proof {
        if names_view(vars@).contains(v@) {
            let j = choose|j: int| 0 <= j < names_view(vars@).len() && names_view(vars@)[j] == v@;
            assert(vars@[j]@ == v@);
        }
    }
    false
}

/// The variables of a specification: its inputs, then its outputs.
fn spec_vars(spec: &LOLASpecification) -> (res: Vec<VarName>)
    ensures
        names_view(res@) == spec.vars_view(),
{
    let mut vars = clone_names(&spec.input_vars);
    let outs = clone_names(&spec.output_vars);
    let ghost ins_v = names_view(vars@);
    let mut i: usize = 0;
    while i < outs.len()
        invariant
            i <= outs.len(),
            vars.len() == ins_v.len() + i,
            forall|j: int| 0 <= j < ins_v.len() ==> (#[trigger] vars@[j])@ == ins_v[j],
            forall|j: int| 0 <= j < i ==> (#[trigger] vars@[ins_v.len() + j])@ == outs@[j]@,
        decreases outs.len() - i,
    {
        let n = outs[i].clone();
        vars.push(n);
        i = i + 1;
    }
    proof {
        assert forall|j: int| 0 <= j < vars.len() implies names_view(vars@)[j] == (ins_v + names_view(outs@))[j] by {
            if j >= ins_v.len() {
                assert(vars@[ins_v.len() + (j - ins_v.len())]@ == outs@[j - ins_v.len()]@);
            }
        }
        assert(names_view(vars@) =~= ins_v + names_view(outs@));
    }
    vars
}

/// A copy of a list of dependency edges.
fn clone_edges(edges: &Vec<(VarName, SExpr)>) -> (res: Vec<(VarName, SExpr)>)
    ensures
        edges_view(res@) == edges_view(edges@),
{
    let mut out: Vec<(VarName, SExpr)> = Vec::new();
    let mut j: usize = 0;
    while j < edges.len()
        invariant
            j <= edges.len(),
            out.len() == j,
            forall|t: int|
                0 <= t < j ==> (#[trigger] out@[t]).0@ == edges@[t].0@ && out@[t].1@ == edges@[t].1@,
        decreases edges.len() - j,
    {
        let entry = (edges[j].0.clone(), edges[j].1.deep_clone());
        out.push(entry);
        j = j + 1;
    }
    proof {
        assert(edges_view(out@) =~= edges_view(edges@));
    }
    out
}

/// The model of a manager over `vars`: one without dependency information
/// when `edges` is `None`, else a dependency graph with those edges.
pub open spec fn model_of(vars: Seq<VarName>, edges: Option<Seq<(VarName, SExpr)>>) -> DepsV {
    match edges {
        None => DepsV::Empty(names_view(vars)),
        Some(es) => DepsV::DepGraph(names_view(vars), edges_view(es)),
    }
}

/// `longest` for every variable in `vars`, in order (see `model_of`).
fn longest_for_vars(vars: &Vec<VarName>, edges: Option<&Vec<(VarName, SExpr)>>) -> (res: Vec<
    (VarName, usize),
>)
    ensures
        ({
            let m = model_of(vars@, match edges { Some(es) => Some(es@), None => None });
            &&& res.len() == m.vars().len()
            &&& forall|i: int|
                0 <= i < res.len() ==> (#[trigger] res@[i]).0@ == m.vars()[i] && m.longest(res@[i].0@)
                    == Some(res@[i].1 as nat)
        }),
{
    let ghost m = model_of(vars@, match edges { Some(es) => Some(es@), None => None });
    let mut out: Vec<(VarName, usize)> = Vec::new();
    let mut i: usize = 0;
    while i < vars.len()
        invariant
            i <= vars.len(),
            m == model_of(vars@, match edges { Some(es) => Some(es@), None => None }),
            out.len() == i,
            forall|j: int|
                0 <= j < i ==> (#[trigger] out@[j]).0@ == m.vars()[j] && m.longest(out@[j].0@)
                    == Some(out@[j].1 as nat),
        decreases vars.len() - i,
    {
        proof {
            assert(names_view(vars@)[i as int] == vars@[i as int]@);
            assert(m.vars().contains(vars@[i as int]@));
        }
        let d = match edges {
            None => usize::MAX,
            Some(es) => edges_look_back_exec(es, &vars[i]),
        };
        out.push((vars[i].clone(), d));
        i = i + 1;
    }
    out
}

/// What a dependency manager offers: built from a specification, it is told
/// which expressions each output depends on, and answers how long the values
/// of each variable must be kept.
pub trait DependencyResolver: Sized {
    /// How long (in time steps) the values of `v` must be kept; `None` for a
    /// variable the resolver does not know.
    spec fn longest_model(&self, v: Seq<char>) -> Option<nat>;

    /// Builds the dependency structure of a specification.
    fn new(spec: &LOLASpecification) -> Self;

    /// Records that `var` depends on `sexpr`.
    fn add_dependency(&mut self, var: &VarName, sexpr: &SExpr);

    /// Drops the first record that `var` depends on `sexpr`.
    fn remove_dependency(&mut self, var: &VarName, sexpr: &SExpr);

    /// How long the values of `var` must be kept before they can be forgotten.
    fn longest_time_dependency(&self, var: &VarName) -> (res: Option<usize>)
        ensures
            match res {
                Some(d) => self.longest_model(var@) == Some(d as nat),
                None => self.longest_model(var@) is None,
            },
    ;

    /// `longest_time_dependency` for every variable the resolver knows, in order.
    fn longest_time_dependencies(&self) -> Vec<(VarName, usize)>;
}

impl Empty {
    /// The model of the manager.
    pub open spec fn model(&self) -> DepsV {
        DepsV::Empty(names_view(self.vars@))
    }
}

impl DepGraph {
    /// The model of the manager.
    pub open spec fn model(&self) -> DepsV {
        DepsV::DepGraph(names_view(self.vars@), edges_view(self.edges@))
    }
}

impl DependencyResolver for Empty {
    open spec fn longest_model(&self, v: Seq<char>) -> Option<nat> {
        self.model().longest(v)
    }

    fn new(spec: &LOLASpecification) -> (res: Empty)
        ensures
            res.model() == DepsV::Empty(spec.vars_view()),
    {
        Empty { vars: spec_vars(spec) }
    }

    fn add_dependency(&mut self, var: &VarName, sexpr: &SExpr)
        ensures
            final(self).model() == old(self).model().added(var@, sexpr@),
    {
    }

    fn remove_dependency(&mut self, var: &VarName, sexpr: &SExpr)
        ensures
            final(self).model() == old(self).model().removed(var@, sexpr@),
    {
    }

    fn longest_time_dependency(&self, var: &VarName) -> (res: Option<usize>) {
        if contains_name(&self.vars, var) {
            Some(usize::MAX)
        } else {
            None
        }
    }

    fn longest_time_dependencies(&self) -> (res: Vec<(VarName, usize)>)
        ensures
            res.len() == self.model().vars().len(),
            forall|i: int|
                0 <= i < res.len() ==> (#[trigger] res@[i]).0@ == self.model().vars()[i]
                    && self.model().longest(res@[i].0@) == Some(res@[i].1 as nat),
    {
        longest_for_vars(&self.vars, None)
    }
}

impl DependencyResolver for DepGraph {
    open spec fn longest_model(&self, v: Seq<char>) -> Option<nat> {
        self.model().longest(v)
    }

    fn new(spec: &LOLASpecification) -> (res: DepGraph)
        ensures
            res.model() == DepsV::DepGraph(spec.vars_view(), edges_view(spec.exprs@)),
    {
        DepGraph { vars: spec_vars(spec), edges: clone_edges(&spec.exprs) }
    }

    fn add_dependency(&mut self, var: &VarName, sexpr: &SExpr)
        ensures
            final(self).model() == old(self).model().added(var@, sexpr@),
    {
        let entry = (var.clone(), sexpr.deep_clone());
        self.edges.push(entry);
        proof {
            assert(edges_view(self.edges@) =~= edges_view(old(self).edges@).push((var@, sexpr@)));
        }
    }

    fn remove_dependency(&mut self, var: &VarName, sexpr: &SExpr)
        ensures
            final(self).model() == old(self).model().removed(var@, sexpr@),
    {
        let ghost old_edges = edges_view(self.edges@);
        match find_edge(&self.edges, var, sexpr) {
            Some(i) => {
                proof {
                    lemma_remove_first_at(old_edges, var@, sexpr@, i as int);
                }
                self.edges.remove(i);
                proof {
                    assert(edges_view(self.edges@) =~= old_edges.take(i as int) + old_edges.skip(i + 1));
                }
            },
            None => {
                proof {
                    lemma_remove_first_absent(old_edges, var@, sexpr@);
                }
            },
        }
    }

    fn longest_time_dependency(&self, var: &VarName) -> (res: Option<usize>) {
        if contains_name(&self.vars, var) {
            Some(edges_look_back_exec(&self.edges, var))
        } else {
            None
        }
    }

    fn longest_time_dependencies(&self) -> (res: Vec<(VarName, usize)>)
        ensures
            res.len() == self.model().vars().len(),
            forall|i: int|
                0 <= i < res.len() ==> (#[trigger] res@[i]).0@ == self.model().vars()[i]
                    && self.model().longest(res@[i].0@) == Some(res@[i].1 as nat),
    {
        longest_for_vars(&self.vars, Some(&self.edges))
    }
}

/// Builds a dependency manager of the given kind for a specification.
pub fn create_dependency_manager(kind: DependencyKind, spec: &LOLASpecification) -> (res: DependencyManager)
    ensures
        res@.vars() == spec.vars_view(),
        kind == DependencyKind::Empty ==> res@ is Empty,
        kind == DependencyKind::DepGraph ==> res@ == DepsV::DepGraph(
            spec.vars_view(),
            edges_view(spec.exprs@),
        ),
{
    match kind {
        DependencyKind::Empty => DependencyManager::Empty(Empty::new(spec)),
        DependencyKind::DepGraph => DependencyManager::DepGraph(DepGraph::new(spec)),
    }
}

impl DependencyManager {
    /// How long the values of `v` must be kept before they can be forgotten.
    pub fn longest_time_dependency(&self, v: &VarName) -> (res: Option<usize>)
        ensures
            match res {
                Some(d) => self@.longest(v@) == Some(d as nat),
                None => self@.longest(v@) is None,
            },
    {
        match self {
            DependencyManager::Empty(e) => e.longest_time_dependency(v),
            DependencyManager::DepGraph(g) => g.longest_time_dependency(v),
        }
    }

    /// `longest_time_dependency` for every variable the manager knows, in order.
    pub fn longest_time_dependencies(&self) -> (res: Vec<(VarName, usize)>)
        ensures
            res.len() == self@.vars().len(),
            forall|i: int|
                0 <= i < res.len() ==> (#[trigger] res@[i]).0@ == self@.vars()[i] && self@.longest(
                    res@[i].0@,
                ) == Some(res@[i].1 as nat),
    {
        match self {
            DependencyManager::Empty(e) => e.longest_time_dependencies(),
            DependencyManager::DepGraph(g) => g.longest_time_dependencies(),
        }
    }

    /// Records that `var` depends on `e`.
    pub fn add_dependency(&mut self, var: &VarName, e: &SExpr)
        ensures
            final(self)@ == old(self)@.added(var@, e@),
    {
        match self {
            DependencyManager::Empty(m) => m.add_dependency(var, e),
            DependencyManager::DepGraph(g) => g.add_dependency(var, e),
        }
    }

    /// Drops the first record that `var` depends on `e`.
    pub fn remove_dependency(&mut self, var: &VarName, e: &SExpr)
        ensures
            final(self)@ == old(self)@.removed(var@, e@),
    {
        match self {
            DependencyManager::Empty(m) => m.remove_dependency(var, e),
            DependencyManager::DepGraph(g) => g.remove_dependency(var, e),
        }
    }

    /// A copy of the manager.
    pub fn deep_clone(&self) -> (res: DependencyManager)
        ensures
            res@ == self@,
    {
        match self {
            DependencyManager::Empty(e) => DependencyManager::Empty(Empty { vars: clone_names(&e.vars) }),
            DependencyManager::DepGraph(g) => DependencyManager::DepGraph(
                DepGraph { vars: clone_names(&g.vars), edges: clone_edges(&g.edges) },
            ),
        }
    }
}

/// The position of the first edge equal to `(var, e)`.
fn find_edge(edges: &Vec<(VarName, SExpr)>, var: &VarName, e: &SExpr) -> (res: Option<usize>)
    ensures
        match res {
            Some(i) => i < edges.len() && edges_view(edges@)[i as int] == (var@, e@) && forall|j: int|
                0 <= j < i ==> edges_view(edges@)[j] != (var@, e@),
            None => forall|j: int| 0 <= j < edges.len() ==> edges_view(edges@)[j] != (var@, e@),
        },
{
    let mut i: usize = 0;
    while i < edges.len()
        invariant
            i <= edges.len(),
            forall|j: int| 0 <= j < i ==> edges_view(edges@)[j] != (var@, e@),
        decreases edges.len() - i,
    {
        if edges[i].0.equals(var) && edges[i].1.equals(e) {
            return Some(i);
        }
        i = i + 1;
    }
    None
}

proof fn lemma_remove_first_at(edges: Seq<(Seq<char>, SExprV)>, var: Seq<char>, e: SExprV, i: int)
    requires
        0 <= i < edges.len(),
        edges[i] == (var, e),
        forall|j: int| 0 <= j < i ==> edges[j] != (var, e),
    ensures
        remove_first_edge(edges, var, e) == edges.take(i) + edges.skip(i + 1),
    decreases i,
{
    if i == 0 {
        assert(edges.take(0) + edges.skip(1) =~= edges.drop_first());
    } else {
        let rest = edges.drop_first();
        assert forall|j: int| 0 <= j < i - 1 implies rest[j] != (var, e) by {
            assert(rest[j] == edges[j + 1]);
        }
        lemma_remove_first_at(rest, var, e, i - 1);
        assert(seq![edges[0]] + (rest.take(i - 1) + rest.skip(i)) =~= edges.take(i) + edges.skip(
            i + 1,
        ));
    }
}

proof fn lemma_remove_first_absent(edges: Seq<(Seq<char>, SExprV)>, var: Seq<char>, e: SExprV)
    requires
        forall|j: int| 0 <= j < edges.len() ==> edges[j] != (var, e),
    ensures
        remove_first_edge(edges, var, e) == edges,
    decreases edges.len(),
{
    if edges.len() > 0 {
        let rest = edges.drop_first();
        assert forall|j: int| 0 <= j < rest.len() implies rest[j] != (var, e) by {
            assert(rest[j] == edges[j + 1]);
        }
        lemma_remove_first_absent(rest, var, e);
        assert(seq![edges[0]] + rest =~= edges);
    }
}

} // verus!

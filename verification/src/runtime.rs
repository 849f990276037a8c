use vstd::prelude::*;
use crate::values::{Value, ValueV, VarName};
use crate::ast::{SExpr, SExprV, LOLASpecification, exprs_view};
use crate::deps::{DependencyManager, DepsV};
use crate::laws::{lookup, law_writes_keep_recorded_reads};
use crate::solver::{
    ConstraintStore, SExprAbs, SExprAbsV, SimplifyResult, SolverError, model_constraints,
    to_absolute_spec, simplify_spec, simplify_abs_in, StoreV, SimpV, lemma_simplify_outcome_ignores_deps,
};

verus! {

/// The model of a collection of streams: each name with its entries by time.
pub open spec fn streams_view<T: View>(m: Seq<(VarName, Vec<(usize, T)>)>) -> Seq<
    (Seq<char>, Seq<(usize, T::V)>),
> {
    Seq::new(m.len(), |i: int| (m[i].0@, entries_view(m[i].1@)))
}

/// The model of the entries of one stream.
pub open spec fn entries_view<T: View>(s: Seq<(usize, T)>) -> Seq<(usize, T::V)> {
    Seq::new(s.len(), |j: int| (s[j].0, s[j].1@))
}

/// The position of the first stream named `n`, from position `k` on.
pub open spec fn stream_index<V>(m: Seq<(Seq<char>, V)>, n: Seq<char>, k: int) -> Option<int>
    decreases m.len() - k,
{
    if k < 0 || k >= m.len() {
        None
    } else if m[k].0 == n {
        Some(k)
    } else {
        stream_index(m, n, k + 1)
    }
}

/// The streams after the entry `(t, v)` is appended to stream `n` (a new
/// stream at the end when there is none named `n`).
pub open spec fn pushed<V>(m: Seq<(Seq<char>, Seq<(usize, V)>)>, n: Seq<char>, t: usize, v: V) -> Seq<
    (Seq<char>, Seq<(usize, V)>),
> {
    match stream_index(m, n, 0) {
        Some(i) => m.update(i, (m[i].0, m[i].1.push((t, v)))),
        None => m.push((n, seq![(t, v)])),
    }
}

/// The number of entries over all streams.
pub open spec fn total_entries<V>(m: Seq<(Seq<char>, Seq<(usize, V)>)>) -> nat
    decreases m.len(),
{
    if m.len() == 0 {
        0
    } else {
        total_entries(m.drop_last()) + m.last().1.len()
    }
}

proof fn lemma_total_update<V>(m: Seq<(Seq<char>, Seq<(usize, V)>)>, i: int, x: (Seq<char>, Seq<(usize, V)>))
    requires
        0 <= i < m.len(),
    ensures
        total_entries(m.update(i, x)) + m[i].1.len() == total_entries(m) + x.1.len(),
    decreases m.len(),
{
    if i == m.len() - 1 {
        assert(m.update(i, x).drop_last() =~= m.drop_last());
    } else {
        lemma_total_update(m.drop_last(), i, x);
        assert(m.update(i, x).drop_last() =~= m.drop_last().update(i, x));
    }
}

proof fn lemma_total_pushed<V>(m: Seq<(Seq<char>, Seq<(usize, V)>)>, n: Seq<char>, t: usize, v: V)
    ensures
        total_entries(pushed(m, n, t, v)) == total_entries(m) + 1,
{
    match stream_index(m, n, 0) {
        Some(i) => {
            lemma_stream_index_range(m, n, 0);
            lemma_total_update(m, i, (m[i].0, m[i].1.push((t, v))));
        },
        None => {
            assert(m.push((n, seq![(t, v)])).drop_last() =~= m);
        },
    }
}

pub proof fn lemma_stream_index_range<V>(m: Seq<(Seq<char>, V)>, n: Seq<char>, k: int)
    requires
        k >= 0,
    ensures
        match stream_index(m, n, k) {
            Some(i) => k <= i < m.len() && m[i].0 == n && forall|j: int| k <= j < i ==> m[j].0 != n,
            None => forall|j: int| k <= j < m.len() ==> m[j].0 != n,
        },
    decreases m.len() - k,
{
    if 0 <= k < m.len() && m[k].0 != n {
        lemma_stream_index_range(m, n, k + 1);
    }
}

/// The position of the first stream named `n`.
fn find_stream<T>(m: &Vec<(VarName, Vec<(usize, T)>)>, n: &VarName) -> (res: Option<usize>)
    where T: View,
    ensures
        match res {
            Some(i) => stream_index(streams_view(m@), n@, 0) == Some(i as int) && i < m.len(),
            None => stream_index(streams_view(m@), n@, 0) is None,
        },
{
    let ghost mv = streams_view(m@);
    let mut i: usize = 0;
    while i < m.len()
        invariant
            i <= m.len(),
            mv == streams_view(m@),
            stream_index(mv, n@, 0) == stream_index(mv, n@, i as int),
        decreases m.len() - i,
    {
        if m[i].0.equals(n) {
            return Some(i);
        }
        i = i + 1;
    }
    None
}

/// Appends the entry `(t, v)` to stream `n`.
pub fn push_entry<T>(m: &mut Vec<(VarName, Vec<(usize, T)>)>, n: &VarName, t: usize, v: T)
    where T: View,
    ensures
        streams_view(final(m)@) == pushed(streams_view(old(m)@), n@, t, v@),
{
    let ghost mv = streams_view(m@);
    match find_stream(m, n) {
        Some(i) => {
            let (name, mut entries) = m.remove(i);
            let ghost old_entries = entries@;
            entries.push((t, v));
            m.insert(i, (name, entries));
            proof {
                assert(entries_view(entries@) =~= entries_view(old_entries).push((t, v@)));
                assert(streams_view(m@) =~= mv.update(i as int, (mv[i as int].0, mv[i as int].1.push((t, v@)))));
            }
        },
        None => {
            let mut entries: Vec<(usize, T)> = Vec::new();
            entries.push((t, v));
            m.push((n.clone(), entries));
            proof {
                assert(entries_view(entries@) =~= seq![(t, v@)]);
                assert(streams_view(m@) =~= mv.push((n@, seq![(t, v@)])));
            }
        },
    }
}

/// The largest number of passes over the output expressions in one step: the
/// largest count a machine word holds, so that the passes go on while they
/// change something, as long as any run can last.
pub const MAX_PASSES: usize = usize::MAX;

/// How many deferred properties may unfold in a row: the largest count a
/// machine word holds, far beyond the nesting the call stack can hold.
pub const DEFER_FUEL: usize = usize::MAX;

/// Whether output expression `e` of `var` is settled at time `t`: it is a
/// value, or simplifying it against `store` gives it back unchanged.
pub open spec fn settled(e: SExprV, t: usize, store: ConstraintStore, var: Seq<char>, d: DepsV) -> bool {
    e is Val || simplify_spec(e, t, store, var, d, DEFER_FUEL as nat).0 == Ok::<SimpV<SExprV>, SolverError>(
        SimpV::Unresolved(e),
    )
}

/// Whether every output expression is settled at time `t` against `store`.
pub open spec fn all_settled(exprs: Seq<(VarName, SExpr)>, t: usize, store: ConstraintStore) -> bool {
    forall|i: int, d: DepsV|
        0 <= i < exprs.len() ==> #[trigger] settled(exprs[i].1@, t, store, exprs[i].0@, d)
}

/// The streams after the entries `(t, v)` of `inputs` are appended in turn.
pub open spec fn pushed_inputs(m: Seq<(Seq<char>, Seq<(usize, ValueV)>)>, inputs: Seq<(VarName, Value)>, t: usize) -> Seq<
    (Seq<char>, Seq<(usize, ValueV)>),
>
    decreases inputs.len(),
{
    if inputs.len() == 0 {
        m
    } else {
        pushed(
            pushed_inputs(m, inputs.drop_last(), t),
            inputs.last().0@,
            t,
            inputs.last().1@,
        )
    }
}

/// The unresolved streams after the absolute form at time `t` of each output
/// expression is appended to its output's stream.
pub open spec fn pushed_absolute(m: Seq<(Seq<char>, Seq<(usize, SExprAbsV)>)>, exprs: Seq<(Seq<char>, SExprV)>, t: usize) -> Seq<
    (Seq<char>, Seq<(usize, SExprAbsV)>),
>
    decreases exprs.len(),
{
    if exprs.len() == 0 {
        m
    } else {
        let rest = pushed_absolute(m, exprs.drop_last(), t);
        match to_absolute_spec(exprs.last().1, t) {
            Ok(a) => pushed(rest, exprs.last().0, t, a),
            Err(_) => rest,
        }
    }
}

/// The names of a list of named expressions.
pub open spec fn expr_names(exprs: Seq<(Seq<char>, SExprV)>) -> Seq<Seq<char>> {
    Seq::new(exprs.len(), |i: int| exprs[i].0)
}

/// Whether a value recorded at time `t` is still needed at time `now` by a
/// variable that must be kept `longest` steps (kept for ever past `usize::MAX`).
pub open spec fn keep_entry(longest: nat, t: usize, now: usize) -> bool {
    longest + t > usize::MAX || longest + t >= now
}

/// The entries of a stream that are still needed.
pub open spec fn kept<V>(s: Seq<(usize, V)>, longest: nat, now: usize) -> Seq<(usize, V)>
    decreases s.len(),
{
    if s.len() == 0 {
        s
    } else {
        let r = kept(s.drop_last(), longest, now);
        if keep_entry(longest, s.last().0, now) {
            r.push(s.last())
        } else {
            r
        }
    }
}

/// How long a variable must be kept, 0 for one the manager does not know.
pub open spec fn longest_or_zero(d: DepsV, n: Seq<char>) -> nat {
    match d.longest(n) {
        Some(x) => x,
        None => 0,
    }
}

/// The streams with only the entries still needed at time `now`.
pub open spec fn cleaned<V>(m: Seq<(Seq<char>, Seq<(usize, V)>)>, d: DepsV, now: usize) -> Seq<
    (Seq<char>, Seq<(usize, V)>),
> {
    Seq::new(m.len(), |i: int| (m[i].0, kept(m[i].1, longest_or_zero(d, m[i].0), now)))
}

/// One expression of a pass: a value stays as it is; any other expression
/// `e` of output `n` is simplified at time `t` against `store`. Appends the
/// result to `done`, notes whether it changed, and threads the dependency model.
#[verifier::opaque]
pub open spec fn pass_step(
    done: Seq<(Seq<char>, SExprV)>,
    ch: bool,
    n: Seq<char>,
    e: SExprV,
    t: usize,
    store: ConstraintStore,
    d: DepsV,
) -> (Result<(Seq<(Seq<char>, SExprV)>, bool), SolverError>, DepsV) {
    if e is Val {
        (Ok((done.push((n, e)), ch)), d)
    } else {
        let (r2, d2) = simplify_spec(e, t, store, n, d, DEFER_FUEL as nat);
        match r2 {
            Err(err) => (Err(err), d2),
            Ok(SimpV::Resolved(v)) => (Ok((done.push((n, SExprV::Val(v))), true)), d2),
            Ok(SimpV::Unresolved(u)) => (Ok((done.push((n, u)), ch || u != e)), d2),
        }
    }
}

/// One pass over the output expressions `es`, each handled by `pass_step`
/// in order: the new expressions and whether any of them changed (or the
/// first error), and the dependency model after the pass.
pub open spec fn pass_spec(es: Seq<(Seq<char>, SExprV)>, t: usize, store: ConstraintStore, d: DepsV) -> (
    Result<(Seq<(Seq<char>, SExprV)>, bool), SolverError>,
    DepsV,
)
    decreases es.len(),
{
    if es.len() == 0 {
        (Ok((Seq::empty(), false)), d)
    } else {
        let (r, d1) = pass_spec(es.drop_last(), t, store, d);
        match r {
            Err(err) => (Err(err), d1),
            Ok((done, ch)) => pass_step(done, ch, es.last().0, es.last().1, t, store, d1),
        }
    }
}

/// Passes over the output expressions, repeated while a pass changes
/// something, at most `k` of them: the expressions after the first pass that
/// changes nothing, or the first error (`NoFixpoint` when every one of the
/// `k` passes changed something), and the dependency model at the end.
pub open spec fn passes_spec(es: Seq<(Seq<char>, SExprV)>, t: usize, store: ConstraintStore, d: DepsV, k: nat) -> (
    Result<Seq<(Seq<char>, SExprV)>, SolverError>,
    DepsV,
)
    decreases k,
{
    if k == 0 {
        (Err(SolverError::NoFixpoint), d)
    } else {
        let (r, d1) = pass_spec(es, t, store, d);
        match r {
            Err(err) => (Err(err), d1),
            Ok((next, changed)) => if changed {
                passes_spec(next, t, store, d1, (k - 1) as nat)
            } else {
                (Ok(next), d1)
            },
        }
    }
}

/// The first error in turning the expressions `es` into absolute form at time `t`.
pub open spec fn first_abs_error(es: Seq<(Seq<char>, SExprV)>, t: usize) -> Option<SolverError>
    decreases es.len(),
{
    if es.len() == 0 {
        None
    } else {
        match first_abs_error(es.drop_last(), t) {
            Some(e) => Some(e),
            None => match to_absolute_spec(es.last().1, t) {
                Err(e) => Some(e),
                Ok(_) => None,
            },
        }
    }
}

/// An error in a pass over a prefix of the expressions is the error of the
/// whole pass.
proof fn lemma_pass_error_spreads(es: Seq<(Seq<char>, SExprV)>, t: usize, store: ConstraintStore, d: DepsV, k: nat)
    requires
        k <= es.len(),
        pass_spec(es.take(k as int), t, store, d).0 is Err,
    ensures
        pass_spec(es, t, store, d) == pass_spec(es.take(k as int), t, store, d),
    decreases es.len() - k,
{
    if k < es.len() {
        assert(es.drop_last().take(k as int) =~= es.take(k as int));
        lemma_pass_error_spreads(es.drop_last(), t, store, d, k);
    } else {
        assert(es.take(k as int) =~= es);
    }
}

/// An error in turning a prefix of the expressions into absolute form is the
/// first error for all of them.
proof fn lemma_abs_error_spreads(es: Seq<(Seq<char>, SExprV)>, t: usize, k: nat)
    requires
        k <= es.len(),
        first_abs_error(es.take(k as int), t) is Some,
    ensures
        first_abs_error(es, t) == first_abs_error(es.take(k as int), t),
    decreases es.len() - k,
{
    if k < es.len() {
        assert(es.drop_last().take(k as int) =~= es.take(k as int));
        lemma_abs_error_spreads(es.drop_last(), t, k);
    } else {
        assert(es.take(k as int) =~= es);
    }
}

/// How receiving inputs went, from runtime `old` to runtime `new` with result
/// `res`, given the store `s` that the passes simplify against: `s` holds the
/// new input streams and the old output streams (and no expressions). The
/// passes over the old output expressions (see `passes_spec`) give the new
/// dependency model and either the error or the new expressions, which are
/// settled against `s`; then either the first error in making them absolute,
/// or success with their absolute forms recorded as unresolved.
pub open spec fn received(
    old: ConstraintBasedRuntime,
    new: ConstraintBasedRuntime,
    res: Result<(), SolverError>,
    s: ConstraintStore,
) -> bool {
    let passes = passes_spec(exprs_view(old.store.output_exprs@), old.time, s, old.dependencies@, MAX_PASSES as nat);
    &&& s.input_streams == new.store.input_streams
    &&& s.outputs_resolved == old.store.outputs_resolved
    &&& s.outputs_unresolved == old.store.outputs_unresolved
    &&& s.output_exprs@.len() == 0
    &&& passes.1 == new.dependencies@
    &&& match passes.0 {
        Err(e) => res == Err::<(), SolverError>(e),
        Ok(es) => {
            &&& exprs_view(new.store.output_exprs@) == es
            &&& all_settled(new.store.output_exprs@, old.time, s)
            &&& match first_abs_error(es, old.time) {
                Some(e) => res == Err::<(), SolverError>(e),
                None => res is Ok && streams_view(new.store.outputs_unresolved@) == pushed_absolute(
                    streams_view(old.store.outputs_unresolved@),
                    es,
                    old.time,
                ),
            }
        },
    }
}

/// The entries of the stream named `n` (none when there is no such stream).
pub open spec fn stream_of<V>(m: Seq<(Seq<char>, Seq<(usize, V)>)>, n: Seq<char>) -> Seq<(usize, V)> {
    match stream_index(m, n, 0) {
        Some(i) => m[i].1,
        None => Seq::empty(),
    }
}

/// Whether no two of the named items share a name.
pub open spec fn names_distinct<V>(m: Seq<(Seq<char>, V)>) -> bool {
    forall|a: int, b: int| 0 <= a < b < m.len() ==> #[trigger] m[a].0 != #[trigger] m[b].0
}

proof fn lemma_index_same_names<V, W>(m: Seq<(Seq<char>, V)>, m2: Seq<(Seq<char>, W)>, n: Seq<char>, k: int)
    requires
        k >= 0,
        m.len() == m2.len(),
        forall|j: int| 0 <= j < m.len() ==> #[trigger] m[j].0 == m2[j].0,
    ensures
        stream_index(m2, n, k) == stream_index(m, n, k),
    decreases m.len() - k,
{
    if k < m.len() && m[k].0 != n {
        lemma_index_same_names(m, m2, n, k + 1);
    }
}

proof fn lemma_index_push<V>(m: Seq<(Seq<char>, V)>, x: (Seq<char>, V), n: Seq<char>, k: int)
    requires
        0 <= k <= m.len(),
    ensures
        stream_index(m.push(x), n, k) == match stream_index(m, n, k) {
            Some(i) => Some(i),
            None => if x.0 == n {
                Some(m.len() as int)
            } else {
                None::<int>
            },
        },
    decreases m.len() - k,
{
    if k < m.len() {
        assert(m.push(x)[k] == m[k]);
        if m[k].0 != n {
            lemma_index_push(m, x, n, k + 1);
        }
    } else {
        assert(m.push(x)[k] == x);
        assert(stream_index(m.push(x), n, k + 1) is None);
    }
}

/// Appending to a stream keeps the names of the streams distinct.
proof fn lemma_pushed_distinct<V>(m: Seq<(Seq<char>, Seq<(usize, V)>)>, n: Seq<char>, t: usize, v: V)
    requires
        names_distinct(m),
    ensures
        names_distinct(pushed(m, n, t, v)),
{
    lemma_stream_index_range(m, n, 0);
    let p = pushed(m, n, t, v);
    match stream_index(m, n, 0) {
        Some(i) => {
            assert forall|a: int, b: int| 0 <= a < b < p.len() implies #[trigger] p[a].0 != #[trigger] p[b].0 by {
                assert(p[a].0 == m[a].0 && p[b].0 == m[b].0);
            }
        },
        None => {
            assert forall|a: int, b: int| 0 <= a < b < p.len() implies #[trigger] p[a].0 != #[trigger] p[b].0 by {
                if b < m.len() {
                    assert(p[a] == m[a] && p[b] == m[b]);
                } else {
                    assert(p[a] == m[a]);
                }
            }
        },
    }
}

/// Appending the entries of the inputs keeps the names of the streams distinct.
proof fn lemma_pushed_inputs_distinct(m: Seq<(Seq<char>, Seq<(usize, ValueV)>)>, inputs: Seq<(VarName, Value)>, t: usize)
    requires
        names_distinct(m),
    ensures
        names_distinct(pushed_inputs(m, inputs, t)),
    decreases inputs.len(),
{
    if inputs.len() > 0 {
        lemma_pushed_inputs_distinct(m, inputs.drop_last(), t);
        lemma_pushed_distinct(pushed_inputs(m, inputs.drop_last(), t), inputs.last().0@, t, inputs.last().1@);
    }
}

/// Recording absolute forms keeps the names of the streams distinct.
proof fn lemma_pushed_absolute_distinct(m: Seq<(Seq<char>, Seq<(usize, SExprAbsV)>)>, es: Seq<(Seq<char>, SExprV)>, t: usize)
    requires
        names_distinct(m),
    ensures
        names_distinct(pushed_absolute(m, es, t)),
    decreases es.len(),
{
    if es.len() > 0 {
        lemma_pushed_absolute_distinct(m, es.drop_last(), t);
        match to_absolute_spec(es.last().1, t) {
            Ok(a) => lemma_pushed_distinct(pushed_absolute(m, es.drop_last(), t), es.last().0, t, a),
            Err(_) => {},
        }
    }
}

/// Distinct names stay distinct under a renaming that keeps them.
proof fn lemma_same_names_distinct<V, W>(m: Seq<(Seq<char>, V)>, m2: Seq<(Seq<char>, W)>)
    requires
        names_distinct(m),
        m.len() == m2.len(),
        forall|j: int| 0 <= j < m.len() ==> #[trigger] m[j].0 == m2[j].0,
    ensures
        names_distinct(m2),
{
    assert forall|a: int, b: int| 0 <= a < b < m2.len() implies #[trigger] m2[a].0 != #[trigger] m2[b].0 by {
        assert(m[a].0 == m2[a].0 && m[b].0 == m2[b].0);
    }
}

/// The store's collections, each keyed by name, hold each name at most once.
pub open spec fn store_wf(st: ConstraintStore) -> bool {
    &&& names_distinct(streams_view(st.input_streams@))
    &&& names_distinct(exprs_view(st.output_exprs@))
    &&& names_distinct(streams_view(st.outputs_resolved@))
    &&& names_distinct(streams_view(st.outputs_unresolved@))
}

/// Receiving inputs keeps each collection of the store free of repeated names.
proof fn lemma_receive_keeps_wf(old: ConstraintStore, new: ConstraintStore, inputs: Seq<(VarName, Value)>, t: usize)
    requires
        streams_view(new.input_streams@) == pushed_inputs(streams_view(old.input_streams@), inputs, t),
        expr_names(exprs_view(new.output_exprs@)) == expr_names(exprs_view(old.output_exprs@)),
        new.outputs_resolved == old.outputs_resolved,
        names_distinct(streams_view(old.outputs_unresolved@)) ==> names_distinct(
            streams_view(new.outputs_unresolved@),
        ),
    ensures
        store_wf(old) ==> store_wf(new),
{
    if store_wf(old) {
        lemma_pushed_inputs_distinct(streams_view(old.input_streams@), inputs, t);
        let a = exprs_view(old.output_exprs@);
        let b = exprs_view(new.output_exprs@);
        assert(expr_names(a).len() == a.len() && expr_names(b).len() == b.len());
        assert forall|j: int| 0 <= j < a.len() implies #[trigger] a[j].0 == b[j].0 by {
            assert(expr_names(a)[j] == a[j].0 && expr_names(b)[j] == b[j].0);
        }
        lemma_same_names_distinct(a, b);
    }
}

/// Appending to stream `n` extends that stream by the entry and leaves every
/// other stream as it was.
proof fn lemma_stream_of_pushed<V>(m: Seq<(Seq<char>, Seq<(usize, V)>)>, n: Seq<char>, t: usize, v: V, n2: Seq<char>)
    ensures
        stream_of(pushed(m, n, t, v), n2) == if n2 == n {
            stream_of(m, n).push((t, v))
        } else {
            stream_of(m, n2)
        },
{
    lemma_stream_index_range(m, n, 0);
    lemma_stream_index_range(m, n2, 0);
    match stream_index(m, n, 0) {
        Some(i) => {
            let p = m.update(i, (m[i].0, m[i].1.push((t, v))));
            lemma_index_same_names(m, p, n2, 0);
        },
        None => {
            lemma_index_push(m, (n, seq![(t, v)]), n2, 0);
            if n2 == n {
                assert(seq![(t, v)] =~= Seq::<(usize, V)>::empty().push((t, v)));
            }
        },
    }
}

/// When every expression has an absolute form, recording them extends the
/// stream of each output by exactly its absolute form, and leaves every other
/// stream as it was.
proof fn lemma_stream_of_pushed_absolute(
    m: Seq<(Seq<char>, Seq<(usize, SExprAbsV)>)>,
    es: Seq<(Seq<char>, SExprV)>,
    t: usize,
    n: Seq<char>,
)
    requires
        first_abs_error(es, t) is None,
        names_distinct(es),
    ensures
        stream_of(pushed_absolute(m, es, t), n) == match stream_index(es, n, 0) {
            Some(i) => match to_absolute_spec(es[i].1, t) {
                Ok(a) => stream_of(m, n).push((t, a)),
                Err(_) => stream_of(m, n),
            },
            None => stream_of(m, n),
        },
        forall|i: int| 0 <= i < es.len() ==> #[trigger] to_absolute_spec(es[i].1, t) is Ok,
    decreases es.len(),
{
    if es.len() > 0 {
        let rest = es.drop_last();
        assert(es =~= rest.push(es.last()));
        assert(names_distinct(rest)) by {
            assert forall|a: int, b: int| 0 <= a < b < rest.len() implies #[trigger] rest[a].0 != #[trigger] rest[b].0 by {
                assert(rest[a] == es[a] && rest[b] == es[b]);
            }
        }
        lemma_stream_of_pushed_absolute(m, rest, t, n);
        lemma_index_push(rest, es.last(), n, 0);
        lemma_stream_index_range(rest, n, 0);
        let a = to_absolute_spec(es.last().1, t)->Ok_0;
        lemma_stream_of_pushed(pushed_absolute(m, rest, t), es.last().0, t, a, n);
        if es.last().0 == n {
            assert(stream_index(rest, n, 0) is None) by {
                lemma_stream_index_range(rest, n, 0);
                if stream_index(rest, n, 0) is Some {
                    let j = stream_index(rest, n, 0)->Some_0;
                    assert(es[j].0 != es[es.len() - 1].0);
                }
            }
        }
        assert forall|i: int| 0 <= i < es.len() implies #[trigger] to_absolute_spec(es[i].1, t) is Ok by {
            if i < es.len() - 1 {
                assert(es[i] == rest[i]);
            }
        }
    }
}

/// Receiving inputs that succeeds leaves the output expressions at a fixed
/// point: simplifying any of them that is not a value, against the store the
/// passes read, gives it back unchanged. It then records, at the current time,
/// exactly one new entry for each output, the absolute form of its expression,
/// at the end of that output's stream of unresolved expressions; every other
/// stream stays as it was.
pub proof fn law_receive_settles_and_records(
    old: ConstraintBasedRuntime,
    new: ConstraintBasedRuntime,
    s: ConstraintStore,
)
    requires
        received(old, new, Ok(()), s),
        names_distinct(exprs_view(new.store.output_exprs@)),
    ensures
        forall|i: int, d: DepsV|
            0 <= i < new.store.output_exprs@.len() && !(new.store.output_exprs@[i].1@ is Val) ==> (
            #[trigger] simplify_spec(
                new.store.output_exprs@[i].1@,
                old.time,
                s,
                new.store.output_exprs@[i].0@,
                d,
                DEFER_FUEL as nat,
            )).0 == Ok::<SimpV<SExprV>, SolverError>(SimpV::Unresolved(new.store.output_exprs@[i].1@)),
        forall|n: Seq<char>|
            #[trigger] stream_of(streams_view(new.store.outputs_unresolved@), n) == match stream_index(
                exprs_view(new.store.output_exprs@),
                n,
                0,
            ) {
                Some(i) => stream_of(streams_view(old.store.outputs_unresolved@), n).push(
                    (old.time, to_absolute_spec(new.store.output_exprs@[i].1@, old.time)->Ok_0),
                ),
                None => stream_of(streams_view(old.store.outputs_unresolved@), n),
            },
{
    let es = exprs_view(new.store.output_exprs@);
    assert forall|i: int, d: DepsV|
        0 <= i < new.store.output_exprs@.len() && !(new.store.output_exprs@[i].1@ is Val) implies (
        #[trigger] simplify_spec(
            new.store.output_exprs@[i].1@,
            old.time,
            s,
            new.store.output_exprs@[i].0@,
            d,
            DEFER_FUEL as nat,
        )).0 == Ok::<SimpV<SExprV>, SolverError>(SimpV::Unresolved(new.store.output_exprs@[i].1@)) by {
        assert(settled(new.store.output_exprs@[i].1@, old.time, s, new.store.output_exprs@[i].0@, d));
    }
    assert forall|n: Seq<char>|
        #[trigger] stream_of(streams_view(new.store.outputs_unresolved@), n) == match stream_index(es, n, 0) {
            Some(i) => stream_of(streams_view(old.store.outputs_unresolved@), n).push(
                (old.time, to_absolute_spec(new.store.output_exprs@[i].1@, old.time)->Ok_0),
            ),
            None => stream_of(streams_view(old.store.outputs_unresolved@), n),
        } by {
        lemma_stream_of_pushed_absolute(streams_view(old.store.outputs_unresolved@), es, old.time, n);
        lemma_stream_index_range(es, n, 0);
        if stream_index(es, n, 0) is Some {
            let i = stream_index(es, n, 0)->Some_0;
            assert(es[i].1 == new.store.output_exprs@[i].1@);
            assert(to_absolute_spec(es[i].1, old.time) is Ok);
        }
    }
}

/// Streams of values, by name and time.
pub type ValueStreams = Seq<(Seq<char>, Seq<(usize, ValueV)>)>;

/// Streams of unresolved expressions, by name and time.
pub type ExprStreams = Seq<(Seq<char>, Seq<(usize, SExprAbsV)>)>;

/// Resolution of the entries `es` of stream `name`, in order, starting from
/// `acc`: the resolved values, the entries still unresolved, and whether any
/// entry resolved. Each entry is simplified at time `t` against the inputs,
/// the values resolved so far, and the unresolved entries `uv` the pass
/// started with; it moves to the resolved values or, simplified, to the
/// unresolved entries. The first error stops the pass.
pub open spec fn resolve_entries(
    acc: (ValueStreams, ExprStreams, bool),
    name: Seq<char>,
    es: Seq<(usize, SExprAbsV)>,
    t: usize,
    inputs: ValueStreams,
    uv: ExprStreams,
) -> Result<(ValueStreams, ExprStreams, bool), SolverError>
    decreases es.len(),
{
    if es.len() == 0 {
        Ok(acc)
    } else {
        match resolve_entries(acc, name, es.drop_last(), t, inputs, uv) {
            Err(err) => Err(err),
            Ok((r, u, ch)) => match simplify_abs_in(
                es.last().1,
                t,
                StoreV { inputs, resolved: r, unresolved: uv },
            ) {
                Err(err) => Err(err),
                Ok(SimpV::Resolved(v)) => Ok((pushed(r, name, es.last().0, v), u, true)),
                Ok(SimpV::Unresolved(x)) => Ok((r, pushed(u, name, es.last().0, x), ch)),
            },
        }
    }
}

/// One resolution pass over the streams `m` (those of `uv`, or a prefix of
/// them), stream by stream, starting from the resolved values `r`.
pub open spec fn resolve_pass(m: ExprStreams, t: usize, inputs: ValueStreams, uv: ExprStreams, r: ValueStreams) -> Result<
    (ValueStreams, ExprStreams, bool),
    SolverError,
>
    decreases m.len(),
{
    if m.len() == 0 {
        Ok((r, Seq::empty(), false))
    } else {
        match resolve_pass(m.drop_last(), t, inputs, uv, r) {
            Err(err) => Err(err),
            Ok(acc) => resolve_entries(acc, m.last().0, m.last().1, t, inputs, uv),
        }
    }
}

/// An entry that resolves moves from the unresolved entries to the resolved
/// values: the number of entries is kept, and some entry resolved exactly
/// when there are more resolved values.
pub proof fn lemma_resolve_entries_counts(
    acc: (ValueStreams, ExprStreams, bool),
    name: Seq<char>,
    es: Seq<(usize, SExprAbsV)>,
    t: usize,
    inputs: ValueStreams,
    uv: ExprStreams,
)
    ensures
        match resolve_entries(acc, name, es, t, inputs, uv) {
            Ok((r, u, ch)) => total_entries(r) + total_entries(u) == total_entries(acc.0) + total_entries(acc.1)
                + es.len() && total_entries(r) >= total_entries(acc.0) && ch == (acc.2 || total_entries(r)
                > total_entries(acc.0)),
            Err(_) => true,
        },
    decreases es.len(),
{
    if es.len() > 0 {
        lemma_resolve_entries_counts(acc, name, es.drop_last(), t, inputs, uv);
        match resolve_entries(acc, name, es.drop_last(), t, inputs, uv) {
            Ok((r, u, ch)) => {
                lemma_total_pushed(r, name, es.last().0, ValueV::Unknown);
                match simplify_abs_in(es.last().1, t, StoreV { inputs, resolved: r, unresolved: uv }) {
                    Ok(SimpV::Resolved(v)) => {
                        lemma_total_pushed(r, name, es.last().0, v);
                    },
                    Ok(SimpV::Unresolved(x)) => {
                        lemma_total_pushed(u, name, es.last().0, x);
                    },
                    Err(_) => {},
                }
            },
            Err(_) => {},
        }
    }
}

/// A pass keeps the number of entries, and changes something exactly when
/// some entry resolved.
pub proof fn lemma_resolve_pass_counts(m: ExprStreams, t: usize, inputs: ValueStreams, uv: ExprStreams, r: ValueStreams)
    ensures
        match resolve_pass(m, t, inputs, uv, r) {
            Ok((r2, u2, ch)) => total_entries(r2) + total_entries(u2) == total_entries(r) + total_entries(m)
                && total_entries(r2) >= total_entries(r) && ch == (total_entries(r2) > total_entries(r)),
            Err(_) => true,
        },
    decreases m.len(),
{
    if m.len() == 0 {
        assert(total_entries(Seq::<(Seq<char>, Seq<(usize, SExprAbsV)>)>::empty()) == 0);
    } else {
        lemma_resolve_pass_counts(m.drop_last(), t, inputs, uv, r);
        assert(total_entries(m) == total_entries(m.drop_last()) + m.last().1.len());
        match resolve_pass(m.drop_last(), t, inputs, uv, r) {
            Ok(acc) => {
                lemma_resolve_entries_counts(acc, m.last().0, m.last().1, t, inputs, uv);
            },
            Err(_) => {},
        }
    }
}

/// Resolution passes over the unresolved entries `uv`, repeated while a pass
/// resolves something: the resolved values and the entries left unresolved
/// after the first pass that resolves nothing, or the first error.
pub open spec fn resolve_fix(uv: ExprStreams, t: usize, inputs: ValueStreams, r: ValueStreams) -> Result<
    (ValueStreams, ExprStreams),
    SolverError,
>
    decreases total_entries(uv),
{
    match resolve_pass(uv, t, inputs, uv, r) {
        Err(err) => Err(err),
        Ok((r2, u2, ch)) => if ch {
            proof {
                lemma_resolve_pass_counts(uv, t, inputs, uv, r);
            }
            resolve_fix(u2, t, inputs, r2)
        } else {
            Ok((r2, u2))
        },
    }
}

/// How resolving went, from runtime `old` to runtime `new` with result `res`:
/// only the output streams change, as `resolve_fix` says.
pub open spec fn resolved(old: ConstraintBasedRuntime, new: ConstraintBasedRuntime, res: Result<(), SolverError>) -> bool {
    &&& new.time == old.time
    &&& new.dependencies == old.dependencies
    &&& new.store.input_streams == old.store.input_streams
    &&& new.store.output_exprs == old.store.output_exprs
    &&& match resolve_fix(
        streams_view(old.store.outputs_unresolved@),
        old.time,
        streams_view(old.store.input_streams@),
        streams_view(old.store.outputs_resolved@),
    ) {
        Err(e) => res == Err::<(), SolverError>(e),
        Ok((r, u)) => res is Ok && streams_view(new.store.outputs_resolved@) == r
            && streams_view(new.store.outputs_unresolved@) == u,
    }
}

/// An error in resolving a prefix of a stream's entries is the error of all of them.
proof fn lemma_entries_error_spreads(
    acc: (ValueStreams, ExprStreams, bool),
    name: Seq<char>,
    es: Seq<(usize, SExprAbsV)>,
    t: usize,
    inputs: ValueStreams,
    uv: ExprStreams,
    k: nat,
)
    requires
        k <= es.len(),
        resolve_entries(acc, name, es.take(k as int), t, inputs, uv) is Err,
    ensures
        resolve_entries(acc, name, es, t, inputs, uv) == resolve_entries(acc, name, es.take(k as int), t, inputs, uv),
    decreases es.len() - k,
{
    if k < es.len() {
        assert(es.drop_last().take(k as int) =~= es.take(k as int));
        lemma_entries_error_spreads(acc, name, es.drop_last(), t, inputs, uv, k);
    } else {
        assert(es.take(k as int) =~= es);
    }
}

/// An error in a pass over a prefix of the streams is the error of the whole pass.
proof fn lemma_resolve_pass_error_spreads(
    m: ExprStreams,
    t: usize,
    inputs: ValueStreams,
    uv: ExprStreams,
    r: ValueStreams,
    k: nat,
)
    requires
        k <= m.len(),
        resolve_pass(m.take(k as int), t, inputs, uv, r) is Err,
    ensures
        resolve_pass(m, t, inputs, uv, r) == resolve_pass(m.take(k as int), t, inputs, uv, r),
    decreases m.len() - k,
{
    if k < m.len() {
        assert(m.drop_last().take(k as int) =~= m.take(k as int));
        lemma_resolve_pass_error_spreads(m.drop_last(), t, inputs, uv, r, k);
    } else {
        assert(m.take(k as int) =~= m);
    }
}

/// The runtime of the constraint-based monitor: the store, the current time,
/// and the dependency manager that decides how long values are kept.
#[derive(Debug)]
pub struct ConstraintBasedRuntime {
    pub store: ConstraintStore,
    pub time: usize,
    pub dependencies: DependencyManager,
}

/// The streams after appending the entries of `inputs` (see `pushed_inputs`).
fn push_inputs(m: &mut Vec<(VarName, Vec<(usize, Value)>)>, inputs: &Vec<(VarName, Value)>, t: usize)
    ensures
        streams_view(final(m)@) == pushed_inputs(streams_view(old(m)@), inputs@, t),
{
    let ghost m0 = streams_view(m@);
    let mut i: usize = 0;
    while i < inputs.len()
        invariant
            i <= inputs.len(),
            streams_view(m@) == pushed_inputs(m0, inputs@.take(i as int), t),
        decreases inputs.len() - i,
    {
        proof {
            assert(inputs@.take(i + 1).drop_last() =~= inputs@.take(i as int));
            assert(inputs@.take(i + 1).last() == inputs@[i as int]);
        }
        push_entry(m, &inputs[i].0, t, inputs[i].1.clone());
        i = i + 1;
    }
    proof {
        assert(inputs@.take(inputs.len() as int) =~= inputs@);
    }
}

/// Handles one output expression of a pass (see `pass_step`): a value is
/// kept; any other expression is simplified, and its simplified form is
/// returned with whether it differs from the expression.
fn simplify_output(
    e: &SExpr,
    name: &VarName,
    t: usize,
    store: &ConstraintStore,
    deps: &mut DependencyManager,
    done: Ghost<Seq<(Seq<char>, SExprV)>>,
    ch: bool,
) -> (res: Result<(SExpr, bool), SolverError>)
    ensures
        match res {
            Ok((n, c)) => pass_step(done@, ch, name@, e@, t, *store, old(deps)@) == (
                Ok::<(Seq<(Seq<char>, SExprV)>, bool), SolverError>((done@.push((name@, n@)), ch || c)),
                final(deps)@,
            ) && (!c ==> n@ == e@ && forall|d: DepsV| #[trigger] settled(e@, t, *store, name@, d)),
            Err(err) => pass_step(done@, ch, name@, e@, t, *store, old(deps)@).0 == Err::<
                (Seq<(Seq<char>, SExprV)>, bool),
                SolverError,
            >(err) && pass_step(done@, ch, name@, e@, t, *store, old(deps)@).1 == final(deps)@,
        },
{
    proof {
        reveal(pass_step);
    }
    let ghost before = deps@;
    match e {
        SExpr::Val(v) => {
            let n = SExpr::Val(v.clone());
            proof {
                assert(n@ == e@);
            }
            Ok((n, false))
        },
        _ => {
            match e.simplify(t, store, name, deps, DEFER_FUEL) {
                Err(err) => Err(err),
                Ok(SimplifyResult::Resolved(v)) => Ok((SExpr::Val(v), true)),
                Ok(SimplifyResult::Unresolved(u)) => {
                    if u.equals(e) {
                        proof {
                            assert forall|d: DepsV| #[trigger] settled(e@, t, *store, name@, d) by {
                                lemma_simplify_outcome_ignores_deps(
                                    e@,
                                    t,
                                    *store,
                                    name@,
                                    before,
                                    d,
                                    DEFER_FUEL as nat,
                                );
                            }
                        }
                        Ok((*u, false))
                    } else {
                        Ok((*u, true))
                    }
                },
            }
        },
    }
}

impl ConstraintBasedRuntime {
    /// A runtime at time 0 with an empty store.
    pub fn new(dependencies: DependencyManager) -> (res: ConstraintBasedRuntime)
        ensures
            res.time == 0,
            res.dependencies == dependencies,
            res.store.input_streams@.len() == 0,
            res.store.output_exprs@.len() == 0,
            res.store.outputs_resolved@.len() == 0,
            res.store.outputs_unresolved@.len() == 0,
            store_wf(res.store),
    {
        ConstraintBasedRuntime { store: ConstraintStore::new(), time: 0, dependencies }
    }

    /// Replaces the store by the store of a specification.
    pub fn store_from_spec(&mut self, spec: LOLASpecification)
        ensures
            final(self).time == old(self).time,
            final(self).dependencies == old(self).dependencies,
            final(self).store.input_streams@.len() == 0,
            exprs_view(final(self).store.output_exprs@) == exprs_view(spec.exprs@),
            final(self).store.outputs_resolved@.len() == 0,
            final(self).store.outputs_unresolved@.len() == 0,
            names_distinct(exprs_view(spec.exprs@)) ==> store_wf(final(self).store),
    {
        self.store = model_constraints(spec);
    }

    /// Records the inputs of the current time, simplifies the output
    /// expressions until no pass changes them (see `passes_spec`), and records
    /// the absolute form of each output expression as unresolved at the
    /// current time. Simplifying reads the store's streams, which do not change
    /// during the passes.
    #[verifier::spinoff_prover]
    #[verifier::rlimit(60)]
    pub fn receive_inputs(&mut self, inputs: &Vec<(VarName, Value)>) -> (res: Result<(), SolverError>)
        ensures
            final(self).time == old(self).time,
            final(self).store.outputs_resolved == old(self).store.outputs_resolved,
            streams_view(final(self).store.input_streams@) == pushed_inputs(
                streams_view(old(self).store.input_streams@),
                inputs@,
                old(self).time,
            ),
            expr_names(exprs_view(final(self).store.output_exprs@)) == expr_names(
                exprs_view(old(self).store.output_exprs@),
            ),
            exists|s: ConstraintStore| #[trigger] received(*old(self), *final(self), res, s),
            store_wf(old(self).store) ==> store_wf(final(self).store),
    {
        push_inputs(&mut self.store.input_streams, inputs, self.time);
        let ghost names = expr_names(exprs_view(self.store.output_exprs@));
        let ghost es0 = exprs_view(self.store.output_exprs@);
        let ghost d0 = self.dependencies@;
        let mut exprs: Vec<(VarName, SExpr)> = Vec::new();
        std::mem::swap(&mut exprs, &mut self.store.output_exprs);
        let ghost s = self.store;
        let mut passes: usize = 0;
        let mut changed = true;
        while changed
            invariant
                self.store == s,
                s.output_exprs@.len() == 0,
                s.outputs_resolved == old(self).store.outputs_resolved,
                s.outputs_unresolved == old(self).store.outputs_unresolved,
                self.time == old(self).time,
                streams_view(s.input_streams@) == pushed_inputs(
                    streams_view(old(self).store.input_streams@),
                    inputs@,
                    old(self).time,
                ),
                passes <= MAX_PASSES,
                expr_names(exprs_view(exprs@)) == names,
                names == expr_names(exprs_view(old(self).store.output_exprs@)),
                es0 == exprs_view(old(self).store.output_exprs@),
                d0 == old(self).dependencies@,
                passes_spec(es0, self.time, s, d0, MAX_PASSES as nat) == (if changed {
                    passes_spec(
                        exprs_view(exprs@),
                        self.time,
                        s,
                        self.dependencies@,
                        (MAX_PASSES - passes) as nat,
                    )
                } else {
                    (Ok(exprs_view(exprs@)), self.dependencies@)
                }),
                !changed ==> all_settled(exprs@, self.time, s),
            decreases MAX_PASSES - passes,
        {
            if passes == MAX_PASSES {
                self.store.output_exprs = exprs;
                proof {
                    assert(passes_spec(es0, self.time, s, d0, MAX_PASSES as nat) == (
                        Err::<Seq<(Seq<char>, SExprV)>, SolverError>(SolverError::NoFixpoint),
                        self.dependencies@,
                    ));
                    assert(received(*old(self), *self, Err(SolverError::NoFixpoint), s));
                }
                proof {
                    lemma_receive_keeps_wf(old(self).store, self.store, inputs@, old(self).time);
                }
                return Err(SolverError::NoFixpoint);
            }
            let ghost left = (MAX_PASSES - passes) as nat;
            passes = passes + 1;
            changed = false;
            let ghost cur = exprs_view(exprs@);
            let ghost d_start = self.dependencies@;
            let mut new_exprs: Vec<(VarName, SExpr)> = Vec::new();
            let mut i: usize = 0;
            proof {
                assert(cur.take(0) =~= Seq::<(Seq<char>, SExprV)>::empty());
                assert(exprs_view(new_exprs@) =~= Seq::<(Seq<char>, SExprV)>::empty());
            }
            while i < exprs.len()
                invariant
                    self.store == s,
                    s.output_exprs@.len() == 0,
                    s.outputs_resolved == old(self).store.outputs_resolved,
                    s.outputs_unresolved == old(self).store.outputs_unresolved,
                    self.time == old(self).time,
                    streams_view(s.input_streams@) == pushed_inputs(
                        streams_view(old(self).store.input_streams@),
                        inputs@,
                        old(self).time,
                    ),
                    expr_names(cur) == names,
                    names == expr_names(exprs_view(old(self).store.output_exprs@)),
                    es0 == exprs_view(old(self).store.output_exprs@),
                    d0 == old(self).dependencies@,
                    left >= 1,
                    passes_spec(es0, self.time, s, d0, MAX_PASSES as nat) == passes_spec(
                        cur,
                        self.time,
                        s,
                        d_start,
                        left,
                    ),
                    cur == exprs_view(exprs@),
                    i <= exprs.len(),
                    new_exprs.len() == i,
                    forall|j: int| 0 <= j < i ==> (#[trigger] new_exprs@[j]).0@ == exprs@[j].0@,
                    pass_spec(cur.take(i as int), self.time, s, d_start) == (
                        Ok::<(Seq<(Seq<char>, SExprV)>, bool), SolverError>((exprs_view(new_exprs@), changed)),
                        self.dependencies@,
                    ),
                    !changed ==> forall|j: int| 0 <= j < i ==> (#[trigger] new_exprs@[j]).1@ == exprs@[j].1@,
                    !changed ==> forall|j: int, d: DepsV|
                        0 <= j < i ==> #[trigger] settled(exprs@[j].1@, self.time, s, exprs@[j].0@, d),
                decreases exprs.len() - i,
            {
                let name = exprs[i].0.clone();
                let ghost done = exprs_view(new_exprs@);
                proof {
                    assert(cur.take(i + 1).drop_last() =~= cur.take(i as int));
                    assert(cur.take(i + 1).last() == (name@, exprs@[i as int].1@));
                }
                let (next, changed_here) = match simplify_output(
                    &exprs[i].1,
                    &name,
                    self.time,
                    &self.store,
                    &mut self.dependencies,
                    Ghost(done),
                    changed,
                ) {
                    Ok(r) => r,
                    Err(err) => {
                        self.store.output_exprs = exprs;
                        proof {
                            lemma_pass_error_spreads(cur, self.time, s, d_start, (i + 1) as nat);
                            assert(cur.take(cur.len() as int) =~= cur);
                            assert(passes_spec(es0, self.time, s, d0, MAX_PASSES as nat) == (
                                Err::<Seq<(Seq<char>, SExprV)>, SolverError>(err),
                                self.dependencies@,
                            ));
                            assert(received(*old(self), *self, Err(err), s));
                        }
                        proof {
                            lemma_receive_keeps_wf(old(self).store, self.store, inputs@, old(self).time);
                        }
                        return Err(err);
                    },
                };
                changed = changed || changed_here;
                let ghost nv = next@;
                new_exprs.push((name, next));
                proof {
                    assert(exprs_view(new_exprs@) =~= done.push((exprs@[i as int].0@, nv)));
                }
                i = i + 1;
            }
            proof {
                assert(cur.take(cur.len() as int) =~= cur);
                assert(expr_names(exprs_view(new_exprs@)) =~= names);
                assert(passes_spec(cur, self.time, s, d_start, left) == (if changed {
                    passes_spec(exprs_view(new_exprs@), self.time, s, self.dependencies@, (left - 1) as nat)
                } else {
                    (Ok(exprs_view(new_exprs@)), self.dependencies@)
                }));
                if !changed {
                    assert forall|j: int| 0 <= j < cur.len() implies exprs_view(new_exprs@)[j] == cur[j] by {
                        assert(new_exprs@[j].1@ == exprs@[j].1@);
                    }
                    assert(exprs_view(new_exprs@) =~= cur);
                    assert forall|j: int, d: DepsV|
                        0 <= j < new_exprs.len() implies #[trigger] settled(
                        new_exprs@[j].1@,
                        self.time,
                        s,
                        new_exprs@[j].0@,
                        d,
                    ) by {
                        assert(exprs_view(new_exprs@)[j] == cur[j]);
                        assert(settled(exprs@[j].1@, self.time, s, exprs@[j].0@, d));
                    }
                }
            }
            exprs = new_exprs;
        }
        let ghost es = exprs_view(exprs@);
        let ghost u0 = streams_view(self.store.outputs_unresolved@);
        let mut k: usize = 0;
        while k < exprs.len()
            invariant
                es == exprs_view(exprs@),
                k <= exprs.len(),
                self.store.input_streams == s.input_streams,
                self.store.outputs_resolved == old(self).store.outputs_resolved,
                self.store.output_exprs@.len() == 0,
                self.time == old(self).time,
                u0 == streams_view(old(self).store.outputs_unresolved@),
                first_abs_error(es.take(k as int), self.time) is None,
                streams_view(self.store.outputs_unresolved@) == pushed_absolute(u0, es.take(k as int), self.time),
                s.output_exprs@.len() == 0,
                s.outputs_resolved == old(self).store.outputs_resolved,
                s.outputs_unresolved == old(self).store.outputs_unresolved,
                streams_view(s.input_streams@) == pushed_inputs(
                    streams_view(old(self).store.input_streams@),
                    inputs@,
                    old(self).time,
                ),
                expr_names(es) == expr_names(exprs_view(old(self).store.output_exprs@)),
                passes_spec(
                    exprs_view(old(self).store.output_exprs@),
                    old(self).time,
                    s,
                    old(self).dependencies@,
                    MAX_PASSES as nat,
                ) == (Ok::<Seq<(Seq<char>, SExprV)>, SolverError>(es), self.dependencies@),
                all_settled(exprs@, self.time, s),
            decreases exprs.len() - k,
        {
            proof {
                assert(es.take(k + 1).drop_last() =~= es.take(k as int));
                assert(es.take(k + 1).last() == es[k as int]);
            }
            let a = match exprs[k].1.to_absolute(self.time) {
                Ok(a) => a,
                Err(err) => {
                    self.store.output_exprs = exprs;
                    proof {
                        lemma_abs_error_spreads(es, self.time, (k + 1) as nat);
                        assert(es.take(es.len() as int) =~= es);
                        assert(received(*old(self), *self, Err(err), s));
                    }
                    proof {
                        if names_distinct(u0) {
                            lemma_pushed_absolute_distinct(u0, es.take(k as int), self.time);
                        }
                        lemma_receive_keeps_wf(old(self).store, self.store, inputs@, old(self).time);
                    }
                    return Err(err);
                },
            };
            let name = exprs[k].0.clone();
            push_entry(&mut self.store.outputs_unresolved, &name, self.time, a);
            k = k + 1;
        }
        self.store.output_exprs = exprs;
        proof {
            assert(es.take(es.len() as int) =~= es);
            assert(received(*old(self), *self, Ok(()), s));
        }
        proof {
            if names_distinct(u0) {
                lemma_pushed_absolute_distinct(u0, es, self.time);
            }
            lemma_receive_keeps_wf(old(self).store, self.store, inputs@, old(self).time);
        }
        Ok(())
    }

    /// Resolves as many unresolved output entries as the store allows,
    /// repeating passes until one resolves nothing (see `resolve_fix`). An
    /// entry that resolves moves to the resolved outputs; values resolved
    /// before are never changed.
    #[verifier::spinoff_prover]
    #[verifier::rlimit(60)]
    pub fn resolve_possible(&mut self) -> (res: Result<(), SolverError>)
        ensures
            resolved(*old(self), *final(self), res),
            forall|n: Seq<char>, t: usize|
                #[trigger] lookup(streams_view(old(self).store.outputs_resolved@), n, t) is Some
                    ==> lookup(streams_view(final(self).store.outputs_resolved@), n, t) == lookup(
                    streams_view(old(self).store.outputs_resolved@),
                    n,
                    t,
                ),
            store_wf(old(self).store) ==> store_wf(final(self).store),
    {
        let ghost inputs_v = streams_view(self.store.input_streams@);
        let ghost target = resolve_fix(
            streams_view(self.store.outputs_unresolved@),
            self.time,
            inputs_v,
            streams_view(self.store.outputs_resolved@),
        );
        let ghost r_start = streams_view(self.store.outputs_resolved@);
        let mut changed = true;
        while changed
            invariant
                self.time == old(self).time,
                self.dependencies == old(self).dependencies,
                self.store.input_streams == old(self).store.input_streams,
                self.store.output_exprs == old(self).store.output_exprs,
                inputs_v == streams_view(old(self).store.input_streams@),
                target == resolve_fix(
                    streams_view(old(self).store.outputs_unresolved@),
                    old(self).time,
                    inputs_v,
                    streams_view(old(self).store.outputs_resolved@),
                ),
                target == (if changed {
                    resolve_fix(
                        streams_view(self.store.outputs_unresolved@),
                        self.time,
                        inputs_v,
                        streams_view(self.store.outputs_resolved@),
                    )
                } else {
                    Ok((streams_view(self.store.outputs_resolved@), streams_view(self.store.outputs_unresolved@)))
                }),
                r_start == streams_view(old(self).store.outputs_resolved@),
                names_distinct(streams_view(old(self).store.outputs_resolved@)) ==> names_distinct(streams_view(self.store.outputs_resolved@)),
                names_distinct(streams_view(old(self).store.outputs_unresolved@)) ==> names_distinct(streams_view(self.store.outputs_unresolved@)),
                forall|nm: Seq<char>, tm: usize|
                    #[trigger] lookup(r_start, nm, tm) is Some ==> lookup(
                        streams_view(self.store.outputs_resolved@),
                        nm,
                        tm,
                    ) == lookup(r_start, nm, tm),
            decreases total_entries(streams_view(self.store.outputs_unresolved@)) + (if changed {
                1int
            } else {
                0int
            }),
        {
            changed = false;
            let ghost uv = streams_view(self.store.outputs_unresolved@);
            let ghost r_pass = streams_view(self.store.outputs_resolved@);
            proof {
                lemma_resolve_pass_counts(uv, self.time, inputs_v, uv, r_pass);
                assert(uv.take(0) =~= Seq::<(Seq<char>, Seq<(usize, SExprAbsV)>)>::empty());
            }
            let mut new_unresolved: Vec<(VarName, Vec<(usize, SExprAbs)>)> = Vec::new();
            let mut i: usize = 0;
            proof {
                assert(streams_view(new_unresolved@) =~= Seq::<(Seq<char>, Seq<(usize, SExprAbsV)>)>::empty());
            }
            while i < self.store.outputs_unresolved.len()
                invariant
                    i <= self.store.outputs_unresolved.len(),
                    uv == streams_view(self.store.outputs_unresolved@),
                    self.time == old(self).time,
                    self.dependencies == old(self).dependencies,
                    self.store.input_streams == old(self).store.input_streams,
                    self.store.output_exprs == old(self).store.output_exprs,
                    inputs_v == streams_view(old(self).store.input_streams@),
                    target == resolve_fix(uv, self.time, inputs_v, r_pass),
                    target == resolve_fix(
                        streams_view(old(self).store.outputs_unresolved@),
                        old(self).time,
                        inputs_v,
                        streams_view(old(self).store.outputs_resolved@),
                    ),
                    resolve_pass(uv.take(i as int), self.time, inputs_v, uv, r_pass) == Ok::<
                        (ValueStreams, ExprStreams, bool),
                        SolverError,
                    >((streams_view(self.store.outputs_resolved@), streams_view(new_unresolved@), changed)),
                    r_start == streams_view(old(self).store.outputs_resolved@),
                    names_distinct(streams_view(old(self).store.outputs_resolved@)) ==> names_distinct(streams_view(self.store.outputs_resolved@)),
                    names_distinct(streams_view(old(self).store.outputs_unresolved@)) ==> names_distinct(streams_view(self.store.outputs_unresolved@)),
                    names_distinct(streams_view(new_unresolved@)),
                    forall|nm: Seq<char>, tm: usize|
                        #[trigger] lookup(r_start, nm, tm) is Some ==> lookup(
                            streams_view(self.store.outputs_resolved@),
                            nm,
                            tm,
                        ) == lookup(r_start, nm, tm),
                decreases self.store.outputs_unresolved.len() - i,
            {
                let name = self.store.outputs_unresolved[i].0.clone();
                let n = self.store.outputs_unresolved[i].1.len();
                let ghost acc = (streams_view(self.store.outputs_resolved@), streams_view(new_unresolved@), changed);
                let ghost es = uv[i as int].1;
                proof {
                    assert(uv.take(i + 1).drop_last() =~= uv.take(i as int));
                    assert(uv.take(i + 1).last() == uv[i as int]);
                    assert(es.take(0) =~= Seq::<(usize, SExprAbsV)>::empty());
                }
                let mut j: usize = 0;
                while j < n
                    invariant
                        i < self.store.outputs_unresolved.len(),
                        j <= n,
                        n == self.store.outputs_unresolved@[i as int].1.len(),
                        name@ == uv[i as int].0,
                        es == uv[i as int].1,
                        uv == streams_view(self.store.outputs_unresolved@),
                        self.time == old(self).time,
                        self.dependencies == old(self).dependencies,
                        self.store.input_streams == old(self).store.input_streams,
                        self.store.output_exprs == old(self).store.output_exprs,
                        inputs_v == streams_view(old(self).store.input_streams@),
                        target == resolve_fix(uv, self.time, inputs_v, r_pass),
                        target == resolve_fix(
                            streams_view(old(self).store.outputs_unresolved@),
                            old(self).time,
                            inputs_v,
                            streams_view(old(self).store.outputs_resolved@),
                        ),
                        resolve_pass(uv.take(i + 1), self.time, inputs_v, uv, r_pass) == resolve_entries(
                            acc,
                            name@,
                            es,
                            self.time,
                            inputs_v,
                            uv,
                        ),
                        resolve_entries(acc, name@, es.take(j as int), self.time, inputs_v, uv) == Ok::<
                            (ValueStreams, ExprStreams, bool),
                            SolverError,
                        >((streams_view(self.store.outputs_resolved@), streams_view(new_unresolved@), changed)),
                        r_start == streams_view(old(self).store.outputs_resolved@),
                        names_distinct(streams_view(old(self).store.outputs_resolved@)) ==> names_distinct(streams_view(self.store.outputs_resolved@)),
                        names_distinct(streams_view(old(self).store.outputs_unresolved@)) ==> names_distinct(streams_view(self.store.outputs_unresolved@)),
                        names_distinct(streams_view(new_unresolved@)),
                        forall|nm: Seq<char>, tm: usize|
                            #[trigger] lookup(r_start, nm, tm) is Some ==> lookup(
                                streams_view(self.store.outputs_resolved@),
                                nm,
                                tm,
                            ) == lookup(r_start, nm, tm),
                    decreases n - j,
                {
                    let t = self.store.outputs_unresolved[i].1[j].0;
                    proof {
                        assert(es.take(j + 1).drop_last() =~= es.take(j as int));
                        assert(es.take(j + 1).last() == es[j as int]);
                        assert(es[j as int] == (t, self.store.outputs_unresolved@[i as int].1@[j as int].1@));
                    }
                    proof {
                        assert(self.store.streams() == StoreV {
                            inputs: inputs_v,
                            resolved: streams_view(self.store.outputs_resolved@),
                            unresolved: uv,
                        });
                    }
                    let outcome = self.store.outputs_unresolved[i].1[j].1.simplify(self.time, &self.store);
                    match outcome {
                        Err(err) => {
                            proof {
                                assert(simplify_abs_in(
                                    es[j as int].1,
                                    self.time,
                                    StoreV {
                                        inputs: inputs_v,
                                        resolved: streams_view(self.store.outputs_resolved@),
                                        unresolved: uv,
                                    },
                                ) == Err::<SimpV<SExprAbsV>, SolverError>(err));
                                assert(resolve_entries(acc, name@, es.take(j + 1), self.time, inputs_v, uv)
                                    == Err::<(ValueStreams, ExprStreams, bool), SolverError>(err));
                                lemma_entries_error_spreads(acc, name@, es, self.time, inputs_v, uv, (j + 1) as nat);
                                lemma_resolve_pass_error_spreads(uv, self.time, inputs_v, uv, r_pass, (i + 1) as nat);
                                assert(uv.take(uv.len() as int) =~= uv);
                            }
                            return Err(err);
                        },
                        Ok(SimplifyResult::Resolved(v)) => {
                            let ghost before = streams_view(self.store.outputs_resolved@);
                            let ghost vv = v@;
                            push_entry(&mut self.store.outputs_resolved, &name, t, v);
                            proof {
                                if names_distinct(streams_view(old(self).store.outputs_resolved@)) {
                                    lemma_pushed_distinct(before, name@, t, vv);
                                }
                                assert forall|n2: Seq<char>, t2: usize|
                                    #[trigger] lookup(r_start, n2, t2) is Some implies lookup(
                                    streams_view(self.store.outputs_resolved@),
                                    n2,
                                    t2,
                                ) == lookup(r_start, n2, t2) by {
                                    law_writes_keep_recorded_reads(before, name@, t, vv, n2, t2);
                                }
                            }
                            changed = true;
                        },
                        Ok(SimplifyResult::Unresolved(u)) => {
                            let ghost prev = streams_view(new_unresolved@);
                            let ghost uu = (*u)@;
                            push_entry(&mut new_unresolved, &name, t, *u);
                            proof {
                                lemma_pushed_distinct(prev, name@, t, uu);
                            }
                        },
                    }
                    j = j + 1;
                }
                proof {
                    assert(es.take(n as int) =~= es);
                }
                i = i + 1;
            }
            proof {
                assert(uv.take(uv.len() as int) =~= uv);
                assert(resolve_pass(uv, self.time, inputs_v, uv, r_pass) == Ok::<
                    (ValueStreams, ExprStreams, bool),
                    SolverError,
                >((streams_view(self.store.outputs_resolved@), streams_view(new_unresolved@), changed)));
            }
            self.store.outputs_unresolved = new_unresolved;
        }
        Ok(())
    }

    /// Forgets the input values and resolved outputs that are no longer needed:
    /// an entry recorded at time `t` for a variable that must be kept `d`
    /// steps stays while `t + d` reaches the current time (or overflows).
    pub fn cleanup(&mut self)
        ensures
            final(self).time == old(self).time,
            final(self).dependencies == old(self).dependencies,
            final(self).store.output_exprs == old(self).store.output_exprs,
            final(self).store.outputs_unresolved == old(self).store.outputs_unresolved,
            streams_view(final(self).store.input_streams@) == cleaned(
                streams_view(old(self).store.input_streams@),
                old(self).dependencies@,
                old(self).time,
            ),
            streams_view(final(self).store.outputs_resolved@) == cleaned(
                streams_view(old(self).store.outputs_resolved@),
                old(self).dependencies@,
                old(self).time,
            ),
            store_wf(old(self).store) ==> store_wf(final(self).store),
    {
        let longest = self.dependencies.longest_time_dependencies();
        let inputs = clean_streams(&self.store.input_streams, &longest, &self.dependencies, self.time);
        let resolved = clean_streams(
            &self.store.outputs_resolved,
            &longest,
            &self.dependencies,
            self.time,
        );
        self.store.input_streams = inputs;
        self.store.outputs_resolved = resolved;
        proof {
            if store_wf(old(self).store) {
                lemma_same_names_distinct(
                    streams_view(old(self).store.input_streams@),
                    streams_view(self.store.input_streams@),
                );
                lemma_same_names_distinct(
                    streams_view(old(self).store.outputs_resolved@),
                    streams_view(self.store.outputs_resolved@),
                );
            }
        }
    }

    /// One step of the monitor: receive the inputs of the current time (see
    /// `received`), resolve what can be resolved (see `resolved`), and move on
    /// to the next time. A step that fails stops at the first error.
    pub fn step(&mut self, inputs: &Vec<(VarName, Value)>) -> (res: Result<(), SolverError>)
        requires
            old(self).time < usize::MAX,
        ensures
            exists|mid: ConstraintBasedRuntime, r1: Result<(), SolverError>, s: ConstraintStore|
                {
                    &&& #[trigger] received(*old(self), mid, r1, s)
                    &&& mid.time == old(self).time
                    &&& match r1 {
                        Err(e) => res == Err::<(), SolverError>(e) && *final(self) == mid,
                        Ok(()) => exists|after: ConstraintBasedRuntime, r2: Result<(), SolverError>|
                            {
                                &&& #[trigger] resolved(mid, after, r2)
                                &&& match r2 {
                                    Err(e) => res == Err::<(), SolverError>(e) && *final(self) == after,
                                    Ok(()) => res is Ok && *final(self) == (ConstraintBasedRuntime {
                                        time: (old(self).time + 1) as usize,
                                        ..after
                                    }),
                                }
                            },
                    }
                },
            res is Ok ==> final(self).time == old(self).time + 1,
            streams_view(final(self).store.input_streams@) == pushed_inputs(
                streams_view(old(self).store.input_streams@),
                inputs@,
                old(self).time,
            ),
            forall|n: Seq<char>, t: usize|
                #[trigger] lookup(streams_view(old(self).store.outputs_resolved@), n, t) is Some
                    ==> lookup(streams_view(final(self).store.outputs_resolved@), n, t) == lookup(
                    streams_view(old(self).store.outputs_resolved@),
                    n,
                    t,
                ),
            store_wf(old(self).store) ==> store_wf(final(self).store),
    {
        let ghost start = *self;
        let r1 = self.receive_inputs(inputs);
        let ghost mid = *self;
        let ghost s = choose|s: ConstraintStore| received(start, mid, r1, s);
        proof {
            assert(received(start, mid, r1, s));
        }
        match r1 {
            Ok(()) => {},
            Err(err) => {
                return Err(err);
            },
        }
        let r2 = self.resolve_possible();
        let ghost after = *self;
        proof {
            assert(resolved(mid, after, r2));
        }
        match r2 {
            Ok(()) => {},
            Err(err) => {
                return Err(err);
            },
        }
        self.time = self.time + 1;
        proof {
            assert(*self == (ConstraintBasedRuntime { time: (start.time + 1) as usize, ..after }));
        }
        Ok(())
    }

    /// For each output, the value resolved at its next index, if there is one;
    /// the index of each output whose value is handed out moves on by one.
    pub fn resolved_outputs(&self, output_vars: &Vec<VarName>, var_indexes: &mut Vec<usize>) -> (res:
        Vec<Option<Value>>)
        requires
            old(var_indexes).len() == output_vars.len(),
            forall|i: int| 0 <= i < old(var_indexes).len() ==> old(var_indexes)@[i] < usize::MAX,
        ensures
            res.len() == output_vars.len(),
            final(var_indexes).len() == output_vars.len(),
            forall|i: int|
                0 <= i < output_vars.len() ==> match crate::solver::stream_lookup(
                    self.store.outputs_resolved@,
                    (#[trigger] output_vars@[i])@,
                    old(var_indexes)@[i],
                ) {
                    Some(v) => res@[i] matches Some(r) && r@ == v@ && final(var_indexes)@[i]
                        == old(var_indexes)@[i] + 1,
                    None => res@[i] is None && final(var_indexes)@[i] == old(var_indexes)@[i],
                },
    {
        let ghost old_idx = var_indexes@;
        let mut out: Vec<Option<Value>> = Vec::new();
        let mut i: usize = 0;
        while i < output_vars.len()
            invariant
                i <= output_vars.len(),
                var_indexes.len() == output_vars.len(),
                out.len() == i,
                forall|j: int| i <= j < var_indexes.len() ==> var_indexes@[j] == old_idx[j],
                forall|j: int| 0 <= j < old_idx.len() ==> old_idx[j] < usize::MAX,
                old_idx.len() == output_vars.len(),
                old_idx == old(var_indexes)@,
                forall|j: int|
                    0 <= j < i ==> match crate::solver::stream_lookup(
                        self.store.outputs_resolved@,
                        (#[trigger] output_vars@[j])@,
                        old_idx[j],
                    ) {
                        Some(v) => out@[j] matches Some(r) && r@ == v@ && var_indexes@[j]
                            == old_idx[j] + 1,
                        None => out@[j] is None && var_indexes@[j] == old_idx[j],
                    },
            decreases output_vars.len() - i,
        {
            let idx = var_indexes[i];
            assert(idx == old_idx[i as int]);
            assert(old_idx[i as int] < usize::MAX);
            match self.store.get_from_outputs_resolved(&output_vars[i], &idx) {
                Some(v) => {
                    out.push(Some(v.clone()));
                    var_indexes.set(i, idx + 1);
                },
                None => {
                    out.push(None);
                },
            }
            i = i + 1;
        }
        out
    }
}

/// How long `n` must be kept according to a table of longest dependencies
/// (0 for a name not in the table).
fn longest_of(longest: &Vec<(VarName, usize)>, n: &VarName, deps: &DependencyManager) -> (res: usize)
    requires
        longest.len() == deps@.vars().len(),
        forall|i: int|
            0 <= i < longest.len() ==> (#[trigger] longest@[i]).0@ == deps@.vars()[i] && deps@.longest(
                longest@[i].0@,
            ) == Some(longest@[i].1 as nat),
    ensures
        res == longest_or_zero(deps@, n@),
{
    let mut i: usize = 0;
    while i < longest.len()
        invariant
            i <= longest.len(),
            longest.len() == deps@.vars().len(),
            forall|j: int|
                0 <= j < longest.len() ==> (#[trigger] longest@[j]).0@ == deps@.vars()[j]
                    && deps@.longest(longest@[j].0@) == Some(longest@[j].1 as nat),
            forall|j: int| 0 <= j < i ==> deps@.vars()[j] != n@,
        decreases longest.len() - i,
    {
        if longest[i].0.equals(n) {
            return longest[i].1;
        }
        i = i + 1;
    }
    proof {
        assert(!deps@.vars().contains(n@));
    }
    0
}

/// The entries of one stream still needed at time `now`.
fn clean_entries(s: &Vec<(usize, Value)>, longest: usize, now: usize) -> (res: Vec<(usize, Value)>)
    ensures
        entries_view(res@) == kept(entries_view(s@), longest as nat, now),
{
    let mut out: Vec<(usize, Value)> = Vec::new();
    let mut j: usize = 0;
    while j < s.len()
        invariant
            j <= s.len(),
            entries_view(out@) == kept(entries_view(s@).take(j as int), longest as nat, now),
        decreases s.len() - j,
    {
        let t = s[j].0;
        proof {
            let ev = entries_view(s@);
            assert(ev.take(j + 1).drop_last() =~= ev.take(j as int));
            assert(ev.take(j + 1).last() == ev[j as int]);
        }
        let keep = match longest.checked_add(t) {
            None => true,
            Some(sum) => sum >= now,
        };
        if keep {
            let ghost before = entries_view(out@);
            out.push((t, s[j].1.clone()));
            proof {
                assert(entries_view(out@) =~= before.push(entries_view(s@)[j as int]));
            }
        }
        j = j + 1;
    }
    proof {
        assert(entries_view(s@).take(s.len() as int) =~= entries_view(s@));
    }
    out
}

/// The streams with only the entries still needed at time `now`.
fn clean_streams(
    m: &Vec<(VarName, Vec<(usize, Value)>)>,
    longest: &Vec<(VarName, usize)>,
    deps: &DependencyManager,
    now: usize,
) -> (res: Vec<(VarName, Vec<(usize, Value)>)>)
    requires
        longest.len() == deps@.vars().len(),
        forall|i: int|
            0 <= i < longest.len() ==> (#[trigger] longest@[i]).0@ == deps@.vars()[i] && deps@.longest(
                longest@[i].0@,
            ) == Some(longest@[i].1 as nat),
    ensures
        streams_view(res@) == cleaned(streams_view(m@), deps@, now),
{
    let mut out: Vec<(VarName, Vec<(usize, Value)>)> = Vec::new();
    let mut i: usize = 0;
    while i < m.len()
        invariant
            i <= m.len(),
            longest.len() == deps@.vars().len(),
            forall|k: int|
                0 <= k < longest.len() ==> (#[trigger] longest@[k]).0@ == deps@.vars()[k]
                    && deps@.longest(longest@[k].0@) == Some(longest@[k].1 as nat),
            out.len() == i,
            forall|k: int|
                0 <= k < i ==> (#[trigger] streams_view(out@)[k]) == cleaned(
                    streams_view(m@),
                    deps@,
                    now,
                )[k],
        decreases m.len() - i,
    {
        let d = longest_of(longest, &m[i].0, deps);
        let kept_entries = clean_entries(&m[i].1, d, now);
        let ghost before = out@;
        out.push((m[i].0.clone(), kept_entries));
        proof {
            assert(streams_view(out@)[i as int] == cleaned(streams_view(m@), deps@, now)[i as int]);
            assert forall|k: int| 0 <= k < i implies (#[trigger] streams_view(out@)[k]) == cleaned(
                streams_view(m@),
                deps@,
                now,
            )[k] by {
                assert(out@[k] == before[k]);
                assert(streams_view(out@)[k] == streams_view(before)[k]);
            }
        }
        i = i + 1;
    }
    proof {
        assert(streams_view(out@) =~= cleaned(streams_view(m@), deps@, now));
    }
    out
}

/// What a step does (see `step`): receiving from `old` gives an intermediate
/// runtime and result; if that succeeds, resolving gives another; the first
/// error is the result, and on success the clock moves on by one.
pub open spec fn stepped(old: ConstraintBasedRuntime, new: ConstraintBasedRuntime, res: Result<(), SolverError>) -> bool {
    exists|mid: ConstraintBasedRuntime, r1: Result<(), SolverError>, s: ConstraintStore|
        {
            &&& #[trigger] received(old, mid, r1, s)
            &&& mid.time == old.time
            &&& match r1 {
                Err(e) => res == Err::<(), SolverError>(e) && new == mid,
                Ok(()) => exists|after: ConstraintBasedRuntime, r2: Result<(), SolverError>|
                    {
                        &&& #[trigger] resolved(mid, after, r2)
                        &&& match r2 {
                            Err(e) => res == Err::<(), SolverError>(e) && new == after,
                            Ok(()) => res is Ok && new == (ConstraintBasedRuntime {
                                time: (old.time + 1) as usize,
                                ..after
                            }),
                        }
                    },
            }
        }
}

/// What a cleanup does (see `cleanup`).
pub open spec fn cleaned_up(old: ConstraintBasedRuntime, new: ConstraintBasedRuntime) -> bool {
    &&& new.time == old.time
    &&& new.dependencies == old.dependencies
    &&& new.store.output_exprs == old.store.output_exprs
    &&& new.store.outputs_unresolved == old.store.outputs_unresolved
    &&& streams_view(new.store.input_streams@) == cleaned(
        streams_view(old.store.input_streams@),
        old.dependencies@,
        old.time,
    )
    &&& streams_view(new.store.outputs_resolved@) == cleaned(
        streams_view(old.store.outputs_resolved@),
        old.dependencies@,
        old.time,
    )
}

/// The input streams after step `i` of the benchmark run records `x = 2i` and
/// then `y = 2i + 1` at time `t`.
pub open spec fn bench_pushed(m: ValueStreams, i: int, t: usize) -> ValueStreams {
    pushed(pushed(m, seq!['x'], t, ValueV::Int((2 * i) as i64)), seq!['y'], t, ValueV::Int((2 * i + 1) as i64))
}

/// Step `i` of the benchmark run, from `old` to `new` with result `res`.
pub open spec fn bench_step(old: ConstraintBasedRuntime, i: int, new: ConstraintBasedRuntime, res: Result<(), SolverError>) -> bool {
    &&& streams_view(new.store.input_streams@) == bench_pushed(streams_view(old.store.input_streams@), i, old.time)
    &&& stepped(old, new, res)
}

/// Round `i` of the benchmark run: a successful step, then a cleanup.
pub open spec fn bench_round(old: ConstraintBasedRuntime, i: int, new: ConstraintBasedRuntime) -> bool {
    exists|mid: ConstraintBasedRuntime| #[trigger] bench_step(old, i, mid, Ok(())) && cleaned_up(mid, new)
}

/// The runtime that a benchmark run starts from: time 0, the given
/// dependencies, the specification's expressions and no stream entries.
pub open spec fn bench_start(spec: LOLASpecification, deps: DependencyManager, rt: ConstraintBasedRuntime) -> bool {
    &&& rt.time == 0
    &&& rt.dependencies == deps
    &&& rt.store.input_streams@.len() == 0
    &&& exprs_view(rt.store.output_exprs@) == exprs_view(spec.exprs@)
    &&& rt.store.outputs_resolved@.len() == 0
    &&& rt.store.outputs_unresolved@.len() == 0
}

/// A benchmark run of `n` rounds through the runtimes `rts`, one per round
/// completed, ending in `res`: either every round succeeded and the result is
/// the last runtime, or the step of the round after the last completed one
/// failed with the result's error.
pub open spec fn bench_run(
    spec: LOLASpecification,
    deps: DependencyManager,
    n: int,
    rts: Seq<ConstraintBasedRuntime>,
    res: Result<ConstraintBasedRuntime, SolverError>,
) -> bool {
    &&& rts.len() >= 1
    &&& bench_start(spec, deps, rts[0])
    &&& forall|k: int| 0 <= k < rts.len() - 1 ==> #[trigger] bench_round(rts[k], k, rts[k + 1])
    &&& match res {
        Ok(rt) => rts.len() - 1 == (if n < 0 {
            0
        } else {
            n
        }) && rt == rts.last(),
        Err(e) => rts.len() - 1 < n && exists|after: ConstraintBasedRuntime|
            #[trigger] bench_step(rts.last(), rts.len() - 1, after, Err(e)),
    }
}

/// Runs the runtime of a specification with inputs `x` and `y` taking the values
/// `2i` and `2i + 1` at step `i`, for `num_outputs` steps, cleaning up after
/// each step; gives back the runtime after the last step, or the error of the
/// first step that fails.
pub fn monitor_outputs_untyped_constraints_no_overhead(
    spec: LOLASpecification,
    num_outputs: i64,
    dep_manager: DependencyManager,
) -> (res: Result<ConstraintBasedRuntime, SolverError>)
    requires
        num_outputs < 0x4000_0000_0000_0000,
        num_outputs <= usize::MAX,
    ensures
        res matches Ok(rt) ==> rt.time == (if num_outputs < 0 {
            0
        } else {
            num_outputs as int
        }),
        exists|rts: Seq<ConstraintBasedRuntime>| #[trigger] bench_run(spec, dep_manager, num_outputs as int, rts, res),
{
    let mut runtime = ConstraintBasedRuntime::new(dep_manager);
    runtime.store_from_spec(spec);
    let ghost rts: Seq<ConstraintBasedRuntime> = seq![runtime];
    let mut i: i64 = 0;
    while i < num_outputs
        invariant
            0 <= i,
            num_outputs < 0x4000_0000_0000_0000,
            num_outputs <= usize::MAX,
            i <= num_outputs || num_outputs < 0,
            num_outputs < 0 ==> i == 0,
            runtime.time == i,
            rts.len() == i + 1,
            rts.last() == runtime,
            bench_start(spec, dep_manager, rts[0]),
            forall|k: int| 0 <= k < rts.len() - 1 ==> #[trigger] bench_round(rts[k], k, rts[k + 1]),
        decreases num_outputs - i,
    {
        let ghost before = runtime;
        let mut inputs: Vec<(VarName, Value)> = Vec::new();
        inputs.push((VarName::new("x"), Value::Int(i * 2)));
        inputs.push((VarName::new("y"), Value::Int(i * 2 + 1)));
        proof {
            reveal_strlit("x");
            reveal_strlit("y");
            let m = streams_view(before.store.input_streams@);
            assert(inputs@.drop_last().drop_last() =~= Seq::<(VarName, Value)>::empty());
            assert(inputs@.drop_last().last() == inputs@[0]);
            assert(inputs@.last() == inputs@[1]);
            assert("x"@ =~= seq!['x']);
            assert("y"@ =~= seq!['y']);
            assert(inputs@[0].0@ == seq!['x'] && inputs@[0].1@ == ValueV::Int((2 * i) as i64));
            assert(inputs@[1].0@ == seq!['y'] && inputs@[1].1@ == ValueV::Int((2 * i + 1) as i64));
            assert(pushed_inputs(m, inputs@.drop_last().drop_last(), before.time) == m);
            assert(pushed_inputs(m, inputs@.drop_last(), before.time) == pushed(
                m,
                seq!['x'],
                before.time,
                ValueV::Int((2 * i) as i64),
            ));
            assert(pushed_inputs(streams_view(before.store.input_streams@), inputs@, before.time)
                == bench_pushed(streams_view(before.store.input_streams@), i as int, before.time));
        }
        let r = runtime.step(&inputs);
        proof {
            assert(stepped(before, runtime, r));
            assert(bench_step(before, i as int, runtime, r));
        }
        match r {
            Ok(()) => {},
            Err(err) => {
                proof {
                    assert(bench_run(spec, dep_manager, num_outputs as int, rts, Err(err)));
                }
                return Err(err);
            },
        }
        let ghost mid = runtime;
        runtime.cleanup();
        proof {
            assert(cleaned_up(mid, runtime));
            assert(bench_step(before, i as int, mid, Ok(())));
            assert(bench_round(before, i as int, runtime));
            let old_rts = rts;
            rts = rts.push(runtime);
            assert forall|k: int| 0 <= k < rts.len() - 1 implies #[trigger] bench_round(rts[k], k, rts[k + 1]) by {
                if k < old_rts.len() - 1 {
                    assert(rts[k] == old_rts[k] && rts[k + 1] == old_rts[k + 1]);
                } else {
                    assert(rts[k] == before && rts[k + 1] == runtime);
                }
            }
        }
        i = i + 1;
    }
    proof {
        assert(bench_run(spec, dep_manager, num_outputs as int, rts, Ok(runtime)));
    }
    Ok(runtime)
}

} // verus!

use vstd::prelude::*;
use crate::values::{ValueV, VarName};
use crate::ast::{SExprV, SBinOp, NumericalBinOp, BoolBinOp, CompBinOp};
use crate::deps::{DepsV, edges_look_back, look_back, list_look_back, clamp_offset, nat_max, OFFSET_BOUND};
use crate::ast::{StrBinOp, binop_of_symbol};
use crate::parser::{BinaryPrecedences, prec_lit, prec_binop};
use crate::dist::{check_spec, DistConstraint, DistConstraintType, DistConstraintBody, CheckError};
use crate::solver::{binop_spec, str_lt};
use crate::runtime::{stream_index, pushed, kept, keep_entry, cleaned, longest_or_zero};
use crate::topics::{topic_table, topic_index};
use crate::parser::{skip_end, next_newline, is_multispace};

verus! {

/// The first entry at time `t` of one stream's entries.
pub open spec fn entry_at<V>(s: Seq<(usize, V)>, t: usize) -> Option<V>
    decreases s.len(),
{
    if s.len() == 0 {
        None
    } else if s[0].0 == t {
        Some(s[0].1)
    } else {
        entry_at(s.drop_first(), t)
    }
}

/// The entry of stream `n` at time `t` in the model of a collection of streams.
pub open spec fn lookup<V>(m: Seq<(Seq<char>, Seq<(usize, V)>)>, n: Seq<char>, t: usize) -> Option<V> {
    match stream_index(m, n, 0) {
        Some(i) => entry_at(m[i].1, t),
        None => None,
    }
}

proof fn lemma_index_bounds<V>(m: Seq<(Seq<char>, V)>, n: Seq<char>, k: int)
    requires
        k >= 0,
    ensures
        match stream_index(m, n, k) {
            Some(i) => k <= i < m.len() && m[i].0 == n && forall|j: int| k <= j < i ==> m[j].0 != n,
            None => forall|j: int| k <= j < m.len() ==> m[j].0 != n,
        },
    decreases m.len() - k,
{
    if 0 <= k < m.len() && m[k].0 != n {
        lemma_index_bounds(m, n, k + 1);
    }
}

proof fn lemma_index_unique<V>(m: Seq<(Seq<char>, V)>, n: Seq<char>, i: int)
    requires
        0 <= i < m.len(),
        m[i].0 == n,
        forall|j: int| 0 <= j < i ==> m[j].0 != n,
    ensures
        stream_index(m, n, 0) == Some(i),
{
    lemma_index_bounds(m, n, 0);
}

proof fn lemma_entry_at_push<V>(s: Seq<(usize, V)>, t: usize, v: V, t2: usize)
    ensures
        entry_at(s.push((t, v)), t2) == (if entry_at(s, t2) is Some {
            entry_at(s, t2)
        } else if t2 == t {
            Some(v)
        } else {
            None
        }),
    decreases s.len(),
{
    if s.len() > 0 {
        assert(s.push((t, v)).drop_first() =~= s.drop_first().push((t, v)));
        assert(s.push((t, v))[0] == s[0]);
        lemma_entry_at_push(s.drop_first(), t, v, t2);
    } else {
        assert(s.push((t, v)).drop_first() =~= Seq::<(usize, V)>::empty());
        assert(s.push((t, v))[0] == (t, v));
        assert(entry_at(Seq::<(usize, V)>::empty(), t2) == None::<V>);
        assert(entry_at(s, t2) == None::<V>);
    }
}

/// What a read gives back of a write: after `(t, v)` is appended to stream
/// `n`, reading `n` at `t` gives `v` (when nothing was recorded for `n` at `t`
/// before), and every other read gives what it gave before.
pub proof fn law_read_after_write<V>(
    m: Seq<(Seq<char>, Seq<(usize, V)>)>,
    n: Seq<char>,
    t: usize,
    v: V,
    n2: Seq<char>,
    t2: usize,
)
    requires
        lookup(m, n, t) is None,
    ensures
        lookup(pushed(m, n, t, v), n, t) == Some(v),
        (n2 != n || t2 != t) ==> lookup(pushed(m, n, t, v), n2, t2) == lookup(m, n2, t2),
{
    let p = pushed(m, n, t, v);
    lemma_index_bounds(m, n, 0);
    lemma_index_bounds(m, n2, 0);
    match stream_index(m, n, 0) {
        Some(i) => {
            assert(p == m.update(i, (m[i].0, m[i].1.push((t, v)))));
            assert forall|j: int| 0 <= j < m.len() implies #[trigger] p[j].0 == m[j].0 by {}
            lemma_index_unique(p, n, i);
            lemma_entry_at_push(m[i].1, t, v, t);
            lemma_entry_at_push(m[i].1, t, v, t2);
            match stream_index(m, n2, 0) {
                Some(i2) => {
                    lemma_index_unique(p, n2, i2);
                },
                None => {
                    lemma_index_bounds(p, n2, 0);
                },
            }
        },
        None => {
            assert(p == m.push((n, seq![(t, v)])));
            lemma_index_unique(p, n, m.len() as int);
            assert(seq![(t, v)].drop_first() =~= Seq::<(usize, V)>::empty());
            assert(entry_at(seq![(t, v)], t) == Some(v));
            match stream_index(m, n2, 0) {
                Some(i2) => {
                    lemma_index_unique(p, n2, i2);
                },
                None => {
                    lemma_index_bounds(p, n2, 0);
                    if n2 == n && t2 != t {
                        lemma_index_unique(p, n, m.len() as int);
                        assert(seq![(t, v)].drop_first() =~= Seq::<(usize, V)>::empty());
                        assert(entry_at(Seq::<(usize, V)>::empty(), t2) == None::<V>);
                        assert(entry_at(seq![(t, v)], t2) == None::<V>);
                    }
                },
            }
        },
    }
}

/// A write never changes a read that already gave a value: appending
/// `(t, v)` to stream `n` leaves every recorded entry as it was read before.
pub proof fn law_writes_keep_recorded_reads<V>(
    m: Seq<(Seq<char>, Seq<(usize, V)>)>,
    n: Seq<char>,
    t: usize,
    v: V,
    n2: Seq<char>,
    t2: usize,
)
    requires
        lookup(m, n2, t2) is Some,
    ensures
        lookup(pushed(m, n, t, v), n2, t2) == lookup(m, n2, t2),
{
    let p = pushed(m, n, t, v);
    lemma_index_bounds(m, n, 0);
    lemma_index_bounds(m, n2, 0);
    let i2 = stream_index(m, n2, 0)->0;
    match stream_index(m, n, 0) {
        Some(i) => {
            assert(p == m.update(i, (m[i].0, m[i].1.push((t, v)))));
            assert forall|j: int| 0 <= j < m.len() implies #[trigger] p[j].0 == m[j].0 by {}
            lemma_index_unique(p, n2, i2);
            lemma_entry_at_push(m[i].1, t, v, t2);
        },
        None => {
            assert(p == m.push((n, seq![(t, v)])));
            lemma_index_unique(p, n2, i2);
        },
    }
}

proof fn lemma_kept_all<V>(s: Seq<(usize, V)>, longest: nat, now: usize)
    requires
        forall|j: int| 0 <= j < s.len() ==> keep_entry(longest, #[trigger] s[j].0, now),
    ensures
        kept(s, longest, now) == s,
    decreases s.len(),
{
    if s.len() > 0 {
        lemma_kept_all(s.drop_last(), longest, now);
        assert(s.drop_last().push(s.last()) =~= s);
    }
}

/// With no dependency information every value of a known variable is kept for
/// ever: cleaning up under an `Empty` manager changes no stream it knows.
pub proof fn law_empty_manager_keeps_everything<V>(
    m: Seq<(Seq<char>, Seq<(usize, V)>)>,
    vars: Seq<Seq<char>>,
    now: usize,
)
    requires
        forall|i: int| 0 <= i < m.len() ==> vars.contains(#[trigger] m[i].0),
    ensures
        cleaned(m, DepsV::Empty(vars), now) == m,
{
    assert forall|i: int| 0 <= i < m.len() implies #[trigger] cleaned(m, DepsV::Empty(vars), now)[i]
        == m[i] by {
        assert(vars.contains(m[i].0));
        assert(longest_or_zero(DepsV::Empty(vars), m[i].0) == usize::MAX as nat);
        lemma_kept_all(m[i].1, usize::MAX as nat, now);
    }
    assert(cleaned(m, DepsV::Empty(vars), now) =~= m);
}

proof fn lemma_kept_keeps<V>(s: Seq<(usize, V)>, longest: nat, now: usize)
    ensures
        kept(kept(s, longest, now), longest, now) == kept(s, longest, now),
        forall|j: int| 0 <= j < kept(s, longest, now).len() ==> keep_entry(longest, #[trigger] kept(s, longest, now)[j].0, now),
    decreases s.len(),
{
    if s.len() > 0 {
        lemma_kept_keeps(s.drop_last(), longest, now);
        let r = kept(s.drop_last(), longest, now);
        if keep_entry(longest, s.last().0, now) {
            assert(r.push(s.last()).drop_last() =~= r);
        }
    }
    lemma_kept_all(kept(s, longest, now), longest, now);
}

/// Cleaning up twice at the same time forgets nothing more than cleaning up once.
pub proof fn law_cleanup_idempotent<V>(m: Seq<(Seq<char>, Seq<(usize, V)>)>, d: DepsV, now: usize)
    ensures
        cleaned(cleaned(m, d, now), d, now) == cleaned(m, d, now),
{
    let c = cleaned(m, d, now);
    assert forall|i: int| 0 <= i < m.len() implies #[trigger] cleaned(c, d, now)[i] == c[i] by {
        lemma_kept_keeps(m[i].1, longest_or_zero(d, m[i].0), now);
    }
    assert(cleaned(c, d, now) =~= c);
}

proof fn lemma_kept_contains<V>(s: Seq<(usize, V)>, longest: nat, now: usize, j: int)
    requires
        0 <= j < s.len(),
        keep_entry(longest, s[j].0, now),
    ensures
        kept(s, longest, now).contains(s[j]),
    decreases s.len(),
{
    if j == s.len() - 1 {
        assert(kept(s, longest, now) == kept(s.drop_last(), longest, now).push(s.last()));
        assert(kept(s, longest, now).last() == s[j]);
    } else {
        lemma_kept_contains(s.drop_last(), longest, now, j);
        let r = kept(s.drop_last(), longest, now);
        let k = choose|k: int| 0 <= k < r.len() && r[k] == s[j];
        if keep_entry(longest, s.last().0, now) {
            assert(r.push(s.last())[k] == s[j]);
        }
    }
}

proof fn lemma_edges_look_back_ge(edges: Seq<(Seq<char>, SExprV)>, v: Seq<char>, k: int)
    requires
        0 <= k < edges.len(),
    ensures
        edges_look_back(edges, v) >= look_back(edges[k].1, v, 0),
    decreases edges.len(),
{
    if k < edges.len() - 1 {
        lemma_edges_look_back_ge(edges.drop_last(), v, k);
    }
}

/// The dependency graph keeps what past reads need: when output expression
/// `edges[k]` reads `v[i, c]` with `i < 0`, cleanup keeps every value of `v`
/// recorded no more than `-i` steps before the current time.
pub proof fn law_dep_graph_keeps_past_reads<V>(
    vars: Seq<Seq<char>>,
    edges: Seq<(Seq<char>, SExprV)>,
    k: int,
    v: Seq<char>,
    i: isize,
    c: ValueV,
    s: Seq<(usize, V)>,
    j: int,
    now: usize,
)
    requires
        vars.contains(v),
        0 <= k < edges.len(),
        edges[k].1 == SExprV::SIndex(Box::new(SExprV::Var(v)), i, c),
        i < 0,
        0 <= j < s.len(),
        s[j].0 - i >= now,
    ensures
        kept(s, longest_or_zero(DepsV::DepGraph(vars, edges), v), now).contains(s[j]),
{
    lemma_edges_look_back_ge(edges, v, k);
    assert(crate::deps::clamp_offset(0 + i) == i);
    let lb = look_back(edges[k].1, v, 0);
    assert(lb == look_back(SExprV::Var(v), v, i as int));
    assert(lb == (if -i > usize::MAX {
        usize::MAX as nat
    } else {
        (-i) as nat
    }));
    let d = longest_or_zero(DepsV::DepGraph(vars, edges), v);
    assert(d >= lb);
    assert(keep_entry(d, s[j].0, now));
    lemma_kept_contains(s, d, now, j);
}

/// Recording a dependency and then dropping it leaves the manager as it was,
/// when that dependency was not recorded before.
pub proof fn law_add_then_remove_dependency(d: DepsV, var: Seq<char>, e: SExprV)
    requires
        d matches DepsV::DepGraph(_, edges) ==> !edges.contains((var, e)),
    ensures
        d.added(var, e).removed(var, e) == d,
{
    match d {
        DepsV::Empty(_) => {},
        DepsV::DepGraph(vs, edges) => {
            lemma_remove_pushed(edges, var, e);
        },
    }
}

proof fn lemma_remove_pushed(edges: Seq<(Seq<char>, SExprV)>, var: Seq<char>, e: SExprV)
    requires
        !edges.contains((var, e)),
    ensures
        crate::deps::remove_first_edge(edges.push((var, e)), var, e) == edges,
    decreases edges.len(),
{
    if edges.len() == 0 {
        assert(edges.push((var, e)).drop_first() =~= edges);
    } else {
        let rest = edges.drop_first();
        assert(!rest.contains((var, e))) by {
            if rest.contains((var, e)) {
                let k = choose|k: int| 0 <= k < rest.len() && rest[k] == (var, e);
                assert(edges[k + 1] == (var, e));
            }
        }
        assert(edges[0] != (var, e));
        lemma_remove_pushed(rest, var, e);
        assert(edges.push((var, e)).drop_first() =~= rest.push((var, e)));
        assert(seq![edges[0]] + rest =~= edges);
    }
}

/// Addition, multiplication, conjunction, disjunction and string equality give
/// the same result whichever operand comes first.
pub proof fn law_commutative_operators(a: ValueV, b: ValueV, op: SBinOp)
    requires
        op == SBinOp::NOp(NumericalBinOp::Add) || op == SBinOp::NOp(NumericalBinOp::Mul)
            || op == SBinOp::BOp(BoolBinOp::And) || op == SBinOp::BOp(BoolBinOp::Or) || op
            == SBinOp::COp(CompBinOp::Eq),
    ensures
        binop_spec(a, b, op) == binop_spec(b, a, op),
{
    match (a, b) {
        (ValueV::Int(x), ValueV::Int(y)) => {
            assert(x * y == y * x) by (nonlinear_arith);
        },
        _ => {},
    }
}

/// The order on strings is strict: no string comes before itself, and of two
/// strings at most one comes before the other.
pub proof fn law_string_order_is_strict(a: Seq<char>, b: Seq<char>)
    ensures
        !str_lt(a, a),
        !(str_lt(a, b) && str_lt(b, a)),
    decreases a.len(),
{
    if a.len() > 0 && b.len() > 0 {
        law_string_order_is_strict(a.drop_first(), b.drop_first());
    }
    if a.len() > 0 {
        law_string_order_is_strict(a.drop_first(), a.drop_first());
    }
}

/// Every known topic is found again by its ROS name and by its MQTT name.
pub proof fn law_topics_found_by_name(i: int)
    requires
        0 <= i < topic_table().len(),
    ensures
        topic_index(true, topic_table()[i].0, 0) == Some(i),
        topic_index(false, topic_table()[i].1, 0) == Some(i),
{
    reveal_strlit("/scan_safe");
    reveal_strlit("/Scan");
    reveal_strlit("/spin_config");
    reveal_strlit("/cmd_vel_monitor");
    reveal_strlit("CollisionDetect");
    reveal_strlit("/cmd_vel");
    reveal_strlit("NormalVelocity");
    reveal_strlit("/odom");
    reveal_strlit("Odometry");
    reveal_strlit("/goal_pose");
    let t = topic_table();
    assert forall|a: int, b: int| 0 <= a < b < t.len() implies t[a].0 != t[b].0 && t[a].1 != t[b].1 by {
        if t[a].0 == t[b].0 {
            assert(t[a].0.len() == t[b].0.len());
            assert(t[a].0[1] == t[b].0[1]);
            assert(t[a].0[t[a].0.len() - 1] == t[b].0[t[b].0.len() - 1]);
        }
        if t[a].1 == t[b].1 {
            assert(t[a].1.len() == t[b].1.len());
            assert(t[a].1[1] == t[b].1[1]);
            assert(t[a].1[t[a].1.len() - 1] == t[b].1[t[b].1.len() - 1]);
        }
    }
    lemma_topic_index(true, t[i].0, 0, i);
    lemma_topic_index(false, t[i].1, 0, i);
}

proof fn lemma_topic_index(by_ros: bool, name: Seq<char>, k: int, i: int)
    requires
        0 <= k <= i < topic_table().len(),
        (if by_ros {
            topic_table()[i].0
        } else {
            topic_table()[i].1
        }) == name,
        forall|j: int|
            k <= j < i ==> (if by_ros {
                topic_table()[j].0
            } else {
                topic_table()[j].1
            }) != name,
    ensures
        topic_index(by_ros, name, k) == Some(i),
    decreases i - k,
{
    if k < i {
        lemma_topic_index(by_ros, name, k + 1, i);
    }
}

/// Names behave like the texts they are made from: two names are equal
/// exactly when their texts are.
pub proof fn law_names_are_their_texts(a: VarName, b: VarName)
    ensures
        (a@ == b@) == (a.text@ == b.text@),
{
}


/// A line of layout: a line feed, or a `//` comment running to the line feed
/// that ends it.
pub open spec fn layout_line(x: Seq<char>) -> bool {
    ||| x == seq!['\n']
    ||| (x.len() >= 3 && x[0] == '/' && x[1] == '/' && x.last() == '\n' && forall|i: int|
        0 <= i < x.len() - 1 ==> #[trigger] x[i] != '\n')
}

/// Where `t` is `s` from position `q0` on, moved `d` places later, the line
/// feeds found from there are too.
proof fn lemma_newline_shift(s: Seq<char>, t: Seq<char>, d: int, q0: int, q: int)
    requires
        0 <= q0 <= q,
        d >= 0,
        t.len() == s.len() + d,
        forall|i: int| q0 <= i < s.len() ==> #[trigger] t[i + d] == s[i],
    ensures
        next_newline(t, q + d) == match next_newline(s, q) {
            Some(n) => Some(n + d),
            None => None::<int>,
        },
    decreases s.len() - q,
{
    if q < s.len() {
        assert(t[q + d] == s[q]);
        if s[q] != '\n' {
            lemma_newline_shift(s, t, d, q0, q + 1);
        }
    }
}

/// Where `t` is `s` from position `q0` on, moved `d` places later, runs of
/// layout from there end at the same place, moved too.
proof fn lemma_skip_shift(s: Seq<char>, t: Seq<char>, d: int, q0: int, q: int)
    requires
        0 <= q0 <= q,
        d >= 0,
        t.len() == s.len() + d,
        forall|i: int| q0 <= i < s.len() ==> #[trigger] t[i + d] == s[i],
    ensures
        skip_end(t, q + d) == skip_end(s, q) + d,
    decreases s.len() - q,
{
    if q < s.len() {
        assert(t[q + d] == s[q]);
        if is_multispace(s[q]) {
            lemma_skip_shift(s, t, d, q0, q + 1);
            assert(skip_end(t, q + d) == skip_end(t, q + 1 + d));
        } else if q + 1 < s.len() && s[q] == '/' && s[q + 1] == '/' {
            assert(t[q + 1 + d] == s[q + 1]);
            lemma_newline_shift(s, t, d, q0, q + 2);
            match next_newline(s, q + 2) {
                Some(n) => {
                    if q + 2 <= n < s.len() {
                        lemma_skip_shift(s, t, d, q0, n + 1);
                        assert(skip_end(t, q + d) == skip_end(t, n + 1 + d));
                    } else {
                        assert(skip_end(t, q + d) == q + d);
                    }
                },
                None => {
                    lemma_skip_shift(s, t, d, q0, q + 2);
                    assert(skip_end(t, q + d) == skip_end(t, q + 2 + d));
                },
            }
        } else if q + 1 >= s.len() {
            assert(!(q + d + 1 < t.len()));
            assert(skip_end(t, q + d) == q + d);
        } else {
            assert(t[q + 1 + d] == s[q + 1]);
            assert(skip_end(t, q + d) == q + d);
        }
    } else {
        assert(skip_end(t, q + d) == q + d);
    }
}

/// Where `s` and `t` agree before `m` and a line feed stands just before `m`,
/// a line feed is found from any earlier position, the same one in both.
proof fn lemma_newline_before(s: Seq<char>, t: Seq<char>, m: int, q: int)
    requires
        0 <= q < m <= s.len(),
        m <= t.len(),
        s[m - 1] == '\n',
        forall|i: int| 0 <= i < m ==> #[trigger] t[i] == s[i],
    ensures
        next_newline(s, q) == next_newline(t, q),
        next_newline(s, q) matches Some(n) && q <= n < m,
    decreases m - q,
{
    assert(t[q] == s[q]);
    if s[q] != '\n' {
        lemma_newline_before(s, t, m, q + 1);
    }
}

/// Where `s` and `t` agree before `m`, a line feed stands just before `m`, and
/// the run of layout in `s` from `p` reaches `m`, the runs from `p` in both
/// texts pass through `m`.
proof fn lemma_skip_through(s: Seq<char>, t: Seq<char>, m: int, p: int)
    requires
        0 <= p <= m <= s.len(),
        m <= t.len(),
        m > 0,
        s[m - 1] == '\n',
        forall|i: int| 0 <= i < m ==> #[trigger] t[i] == s[i],
        skip_end(s, p) >= m,
    ensures
        skip_end(s, p) == skip_end(s, m),
        skip_end(t, p) == skip_end(t, m),
    decreases m - p,
{
    if p < m {
        assert(t[p] == s[p]);
        if is_multispace(s[p]) {
            lemma_skip_through(s, t, m, p + 1);
        } else if p + 1 < s.len() && s[p] == '/' && s[p + 1] == '/' {
            assert(p + 1 < m - 1);
            assert(t[p + 1] == s[p + 1]);
            lemma_newline_before(s, t, m, p + 2);
            let n = next_newline(s, p + 2)->Some_0;
            lemma_skip_through(s, t, m, n + 1);
        } else {
            assert(skip_end(s, p) == p);
        }
    }
}

/// A line of layout is passed over whole.
proof fn lemma_skip_line(t: Seq<char>, m: int, x: Seq<char>)
    requires
        0 <= m,
        m + x.len() <= t.len(),
        layout_line(x),
        forall|i: int| 0 <= i < x.len() ==> #[trigger] t[m + i] == x[i],
    ensures
        skip_end(t, m) == skip_end(t, m + x.len()),
{
    if x == seq!['\n'] {
        assert(t[m + 0] == x[0]);
    } else {
        assert(t[m + 0] == x[0] && t[m + 1] == x[1]);
        lemma_comment_newline(t, m, x, 2);
    }
}

proof fn lemma_comment_newline(t: Seq<char>, m: int, x: Seq<char>, k: int)
    requires
        0 <= m,
        2 <= k < x.len(),
        m + x.len() <= t.len(),
        x.last() == '\n',
        forall|i: int| 0 <= i < x.len() - 1 ==> #[trigger] x[i] != '\n',
        forall|i: int| 0 <= i < x.len() ==> #[trigger] t[m + i] == x[i],
    ensures
        next_newline(t, m + k) == Some(m + x.len() - 1),
    decreases x.len() - k,
{
    assert(t[m + k] == x[k]);
    if k < x.len() - 1 {
        lemma_comment_newline(t, m, x, k + 1);
    }
}

/// Blank lines and comment lines are layout: where a run of layout (spaces,
/// line breaks and `//` comments) from `p` reaches a position just after a
/// line feed, inserting a blank line or a comment line there moves the end
/// of the run by exactly the inserted text.
pub proof fn law_layout_absorbs_blank_lines_and_comments(a: Seq<char>, b: Seq<char>, x: Seq<char>, p: int)
    requires
        a.len() > 0,
        a.last() == '\n',
        0 <= p <= a.len(),
        layout_line(x),
        skip_end(a + b, p) >= a.len(),
    ensures
        skip_end(a + x + b, p) == skip_end(a + b, p) + x.len(),
{
    let s = a + b;
    let t = a + x + b;
    let m = a.len() as int;
    let d = x.len() as int;
    assert forall|i: int| 0 <= i < m implies #[trigger] t[i] == s[i] by {
        assert(t[i] == a[i] && s[i] == a[i]);
    }
    assert(s[m - 1] == a[m - 1]);
    lemma_skip_through(s, t, m, p);
    assert forall|i: int| 0 <= i < x.len() implies #[trigger] t[m + i] == x[i] by {
        assert(t[m + i] == (a + x)[m + i]);
    }
    lemma_skip_line(t, m, x);
    assert forall|i: int| m <= i < s.len() implies #[trigger] t[i + d] == s[i] by {
        assert(s[i] == b[i - m]);
        assert(t[i + d] == b[i - m]);
    }
    lemma_skip_shift(s, t, d, m, m);
}


// ---------------------------------------------------------------------------
// How long values are kept: every read into the past is covered.
// ---------------------------------------------------------------------------

/// Whether `e`, itself read at relative time `offset`, reads variable `v` at
/// relative time `t`: some occurrence of `v` in it sits under indices whose
/// offsets add up, with `offset`, to `t`.
pub open spec fn reads_at(e: SExprV, v: Seq<char>, offset: int, t: int) -> bool
    decreases e,
{
    match e {
        SExprV::Var(n) => n == v && offset == t,
        SExprV::SIndex(x, i, _) => reads_at(*x, v, clamp_offset(offset + i), t),
        SExprV::Val(_) => false,
        SExprV::If(b, x, y) => reads_at(*b, v, offset, t) || reads_at(*x, v, offset, t) || reads_at(
            *y,
            v,
            offset,
            t,
        ),
        SExprV::BinOp(a, b, _) => reads_at(*a, v, offset, t) || reads_at(*b, v, offset, t),
        SExprV::Update(a, b) => reads_at(*a, v, offset, t) || reads_at(*b, v, offset, t),
        SExprV::Default(a, b) => reads_at(*a, v, offset, t) || reads_at(*b, v, offset, t),
        SExprV::LIndex(a, b) => reads_at(*a, v, offset, t) || reads_at(*b, v, offset, t),
        SExprV::LAppend(a, b) => reads_at(*a, v, offset, t) || reads_at(*b, v, offset, t),
        SExprV::LConcat(a, b) => reads_at(*a, v, offset, t) || reads_at(*b, v, offset, t),
        SExprV::Eval(x) => reads_at(*x, v, offset, t),
        SExprV::Defer(x) => reads_at(*x, v, offset, t),
        SExprV::IsDefined(x) => reads_at(*x, v, offset, t),
        SExprV::When(x) => reads_at(*x, v, offset, t),
        SExprV::Not(x) => reads_at(*x, v, offset, t),
        SExprV::LHead(x) => reads_at(*x, v, offset, t),
        SExprV::LTail(x) => reads_at(*x, v, offset, t),
        SExprV::List(es) => exists|j: int| 0 <= j < es.len() && reads_at(#[trigger] es[j], v, offset, t),
    }
}

/// How many steps back a read at relative time `t < 0` reaches, capped at the
/// largest machine word.
pub open spec fn steps_back(t: int) -> nat {
    if -t > usize::MAX {
        usize::MAX as nat
    } else if t < 0 {
        (-t) as nat
    } else {
        0
    }
}

proof fn lemma_list_look_back_ge(es: Seq<SExprV>, v: Seq<char>, offset: int, j: int)
    requires
        0 <= j < es.len(),
    ensures
        list_look_back(es, v, offset) >= look_back(es[j], v, offset),
    decreases es.len(),
{
    if j < es.len() - 1 {
        lemma_list_look_back_ge(es.drop_last(), v, offset, j);
    }
}

/// Every read into the past counts: wherever `e` reads `v` at a relative time
/// `t < 0` (on either side of an operator, in any branch, under any index),
/// how far `e` looks back at `v` is at least `-t` steps.
pub proof fn law_look_back_covers_every_past_read(e: SExprV, v: Seq<char>, offset: int, t: int)
    requires
        reads_at(e, v, offset, t),
        t < 0,
    ensures
        look_back(e, v, offset) >= steps_back(t),
    decreases e,
{
    match e {
        SExprV::Var(n) => {},
        SExprV::SIndex(x, i, _) => {
            law_look_back_covers_every_past_read(*x, v, clamp_offset(offset + i), t);
        },
        SExprV::Val(_) => {},
        SExprV::If(b, x, y) => {
            if reads_at(*b, v, offset, t) {
                law_look_back_covers_every_past_read(*b, v, offset, t);
            } else if reads_at(*x, v, offset, t) {
                law_look_back_covers_every_past_read(*x, v, offset, t);
            } else {
                law_look_back_covers_every_past_read(*y, v, offset, t);
            }
        },
        SExprV::BinOp(a, b, _) => {
            if reads_at(*a, v, offset, t) {
                law_look_back_covers_every_past_read(*a, v, offset, t);
            } else {
                law_look_back_covers_every_past_read(*b, v, offset, t);
            }
        },
        SExprV::Update(a, b) => {
            if reads_at(*a, v, offset, t) {
                law_look_back_covers_every_past_read(*a, v, offset, t);
            } else {
                law_look_back_covers_every_past_read(*b, v, offset, t);
            }
        },
        SExprV::Default(a, b) => {
            if reads_at(*a, v, offset, t) {
                law_look_back_covers_every_past_read(*a, v, offset, t);
            } else {
                law_look_back_covers_every_past_read(*b, v, offset, t);
            }
        },
        SExprV::LIndex(a, b) => {
            if reads_at(*a, v, offset, t) {
                law_look_back_covers_every_past_read(*a, v, offset, t);
            } else {
                law_look_back_covers_every_past_read(*b, v, offset, t);
            }
        },
        SExprV::LAppend(a, b) => {
            if reads_at(*a, v, offset, t) {
                law_look_back_covers_every_past_read(*a, v, offset, t);
            } else {
                law_look_back_covers_every_past_read(*b, v, offset, t);
            }
        },
        SExprV::LConcat(a, b) => {
            if reads_at(*a, v, offset, t) {
                law_look_back_covers_every_past_read(*a, v, offset, t);
            } else {
                law_look_back_covers_every_past_read(*b, v, offset, t);
            }
        },
        SExprV::Eval(x) => law_look_back_covers_every_past_read(*x, v, offset, t),
        SExprV::Defer(x) => law_look_back_covers_every_past_read(*x, v, offset, t),
        SExprV::IsDefined(x) => law_look_back_covers_every_past_read(*x, v, offset, t),
        SExprV::When(x) => law_look_back_covers_every_past_read(*x, v, offset, t),
        SExprV::Not(x) => law_look_back_covers_every_past_read(*x, v, offset, t),
        SExprV::LHead(x) => law_look_back_covers_every_past_read(*x, v, offset, t),
        SExprV::LTail(x) => law_look_back_covers_every_past_read(*x, v, offset, t),
        SExprV::List(es) => {
            let j = choose|j: int| 0 <= j < es.len() && reads_at(#[trigger] es[j], v, offset, t);
            law_look_back_covers_every_past_read(es[j], v, offset, t);
            lemma_list_look_back_ge(es, v, offset, j);
        },
    }
}

/// A dependency graph keeps each known variable at least as long as any
/// recorded expression reads into its past: when expression `k` reads `v` at
/// relative time `t < 0`, `v` must be kept at least `-t` steps.
pub proof fn law_dep_graph_covers_every_past_read(
    vars: Seq<Seq<char>>,
    edges: Seq<(Seq<char>, SExprV)>,
    k: int,
    v: Seq<char>,
    t: int,
)
    requires
        vars.contains(v),
        0 <= k < edges.len(),
        reads_at(edges[k].1, v, 0, t),
        t < 0,
    ensures
        DepsV::DepGraph(vars, edges).longest(v) matches Some(n) && n >= steps_back(t),
{
    law_look_back_covers_every_past_read(edges[k].1, v, 0, t);
    lemma_edges_look_back_ge(edges, v, k);
}

// ---------------------------------------------------------------------------
// Comparing strings.
// ---------------------------------------------------------------------------

/// Dictionary order on character codes: `a` is a prefix of `b`, or at the
/// first position where they differ `a` has the smaller character code.
pub open spec fn dictionary_le(a: Seq<char>, b: Seq<char>) -> bool {
    ||| (a.len() <= b.len() && a == b.take(a.len() as int))
    ||| exists|k: int|
        0 <= k < a.len() && k < b.len() && a.take(k) == b.take(k) && #[trigger] a[k] != b[k] && (a[k] as u32)
            <= (b[k] as u32)
}

proof fn lemma_dictionary_order(a: Seq<char>, b: Seq<char>)
    ensures
        !str_lt(b, a) <==> dictionary_le(a, b),
    decreases a.len(),
{
    if a.len() == 0 {
        assert(a == b.take(0));
    } else if b.len() == 0 {
        assert(!dictionary_le(a, b));
    } else if a[0] != b[0] {
        if (a[0] as u32) <= (b[0] as u32) {
            assert(a.take(0) =~= b.take(0));
            assert(dictionary_le(a, b));
        } else {
            assert(!(a.len() <= b.len() && a == b.take(a.len() as int))) by {
                if a.len() <= b.len() && a == b.take(a.len() as int) {
                    assert(a[0] == b.take(a.len() as int)[0]);
                }
            }
            assert forall|k: int|
                0 <= k < a.len() && k < b.len() && a.take(k) == b.take(k) && a[k] != b[k] implies !((a[k] as u32) <= (
                b[k] as u32)) by {
                if k > 0 {
                    assert(a.take(k)[0] == b.take(k)[0]);
                }
            }
        }
    } else {
        let a1 = a.drop_first();
        let b1 = b.drop_first();
        lemma_dictionary_order(a1, b1);
        if a.len() <= b.len() && a == b.take(a.len() as int) {
            assert(a1 =~= b1.take(a1.len() as int));
        }
        if a1.len() <= b1.len() && a1 == b1.take(a1.len() as int) {
            assert(a =~= b.take(a.len() as int)) by {
                assert forall|i: int| 0 <= i < a.len() implies a[i] == b.take(a.len() as int)[i] by {
                    if i > 0 {
                        assert(a[i] == a1[i - 1]);
                        assert(b1.take(a1.len() as int)[i - 1] == b[i]);
                    }
                }
            }
        }
        if exists|k: int|
            0 <= k < a.len() && k < b.len() && a.take(k) == b.take(k) && #[trigger] a[k] != b[k] && (a[k] as u32) <= (b[k] as u32) {
            let k = choose|k: int|
                0 <= k < a.len() && k < b.len() && a.take(k) == b.take(k) && #[trigger] a[k] != b[k] && (a[k] as u32) <= (b[k] as u32);
            assert(k > 0);
            assert forall|i: int| 0 <= i < k - 1 implies #[trigger] a1[i] == b1[i] by {
                assert(a.take(k)[i + 1] == b.take(k)[i + 1]);
            }
            assert(a1.take(k - 1) =~= b1.take(k - 1));
            assert(a1[k - 1] == a[k] && b1[k - 1] == b[k]);
        }
        if exists|k: int|
            0 <= k < a1.len() && k < b1.len() && a1.take(k) == b1.take(k) && #[trigger] a1[k] != b1[k] && (a1[k] as u32) <= (
            b1[k] as u32) {
            let k = choose|k: int|
                0 <= k < a1.len() && k < b1.len() && a1.take(k) == b1.take(k) && #[trigger] a1[k] != b1[k] && (a1[k] as u32) <= (
                b1[k] as u32);
            assert forall|i: int| 0 <= i < k + 1 implies #[trigger] a[i] == b[i] by {
                if i > 0 {
                    assert(a1.take(k)[i - 1] == b1.take(k)[i - 1]);
                }
            }
            assert(a.take(k + 1) =~= b.take(k + 1));
            assert(a[k + 1] == a1[k] && b[k + 1] == b1[k]);
        }
    }
}

/// `<=` on strings is dictionary order: `a <= b` holds exactly when `a` is a
/// prefix of `b` or `a` has the smaller character where they first differ;
/// `>=`, `<` and `>` are the same order seen from the other side or strictly.
/// In particular every string is `<=` itself, and of two strings one is `<=`
/// the other. `==` on strings holds exactly for equal strings.
pub proof fn law_string_comparisons(a: Seq<char>, b: Seq<char>)
    ensures
        binop_spec(ValueV::Str(a), ValueV::Str(b), SBinOp::COp(CompBinOp::Le)) == Ok::<ValueV, crate::solver::SolverError>(
            ValueV::Bool(dictionary_le(a, b)),
        ),
        binop_spec(ValueV::Str(a), ValueV::Str(a), SBinOp::COp(CompBinOp::Le)) == Ok::<ValueV, crate::solver::SolverError>(
            ValueV::Bool(true),
        ),
        binop_spec(ValueV::Str(a), ValueV::Str(b), SBinOp::COp(CompBinOp::Le)) == Ok::<ValueV, crate::solver::SolverError>(
            ValueV::Bool(true),
        ) || binop_spec(ValueV::Str(b), ValueV::Str(a), SBinOp::COp(CompBinOp::Le)) == Ok::<ValueV, crate::solver::SolverError>(
            ValueV::Bool(true),
        ),
        binop_spec(ValueV::Str(a), ValueV::Str(b), SBinOp::COp(CompBinOp::Eq)) == Ok::<ValueV, crate::solver::SolverError>(
            ValueV::Bool(a == b),
        ),
        binop_spec(ValueV::Str(a), ValueV::Str(b), SBinOp::COp(CompBinOp::Ge)) == Ok::<ValueV, crate::solver::SolverError>(
            ValueV::Bool(dictionary_le(b, a)),
        ),
        binop_spec(ValueV::Str(a), ValueV::Str(b), SBinOp::COp(CompBinOp::Lt)) == Ok::<ValueV, crate::solver::SolverError>(
            ValueV::Bool(!dictionary_le(b, a)),
        ),
        binop_spec(ValueV::Str(a), ValueV::Str(b), SBinOp::COp(CompBinOp::Gt)) == Ok::<ValueV, crate::solver::SolverError>(
            ValueV::Bool(!dictionary_le(a, b)),
        ),
{
    lemma_dictionary_order(a, b);
    lemma_dictionary_order(b, a);
    lemma_dictionary_order(a, a);
    assert(a == a.take(a.len() as int));
    law_string_order_is_strict(a, b);
}

// ---------------------------------------------------------------------------
// Distribution constraints.
// ---------------------------------------------------------------------------

/// Whether node `n` has `v` among its labels, the labels of a node being those
/// of the first entry for it.
pub open spec fn labelled_with(labels: Seq<(usize, Vec<VarName>)>, n: usize, v: Seq<char>) -> bool {
    exists|i: int, j: int|
        0 <= i < labels.len() && labels[i].0 == n && (forall|h: int| 0 <= h < i ==> labels[h].0 != n) && 0
            <= j < labels[i].1.len() && (#[trigger] labels[i].1@[j])@ == v
}

proof fn lemma_labelled_with(labels: Seq<(usize, Vec<VarName>)>, n: usize, v: Seq<char>)
    ensures
        crate::dist::carries(labels, n, v) <==> labelled_with(labels, n, v),
    decreases labels.len(),
{
    if labels.len() > 0 {
        let rest = labels.drop_first();
        lemma_labelled_with(rest, n, v);
        if labels[0].0 == n {
            let ls = crate::values::names_view(labels[0].1@);
            if ls.contains(v) {
                let j = choose|j: int| 0 <= j < ls.len() && ls[j] == v;
                assert(labels[0].1@[j]@ == v);
            }
            if labelled_with(labels, n, v) {
                let (i, j) = choose|i: int, j: int|
                    0 <= i < labels.len() && labels[i].0 == n && (forall|h: int| 0 <= h < i ==> labels[h].0 != n)
                        && 0 <= j < labels[i].1.len() && (#[trigger] labels[i].1@[j])@ == v;
                assert(i == 0);
                assert(ls[j] == v);
            }
        } else {
            if labelled_with(rest, n, v) {
                let (i, j) = choose|i: int, j: int|
                    0 <= i < rest.len() && rest[i].0 == n && (forall|h: int| 0 <= h < i ==> rest[h].0 != n) && 0
                        <= j < rest[i].1.len() && (#[trigger] rest[i].1@[j])@ == v;
                assert(labels[i + 1] == rest[i]);
                assert forall|h: int| 0 <= h < i + 1 implies labels[h].0 != n by {
                    if h > 0 {
                        assert(labels[h] == rest[h - 1]);
                    }
                }
                assert(labels[i + 1].1@[j]@ == v);
            }
            if labelled_with(labels, n, v) {
                let (i, j) = choose|i: int, j: int|
                    0 <= i < labels.len() && labels[i].0 == n && (forall|h: int| 0 <= h < i ==> labels[h].0 != n)
                        && 0 <= j < labels[i].1.len() && (#[trigger] labels[i].1@[j])@ == v;
                assert(i > 0);
                assert(rest[i - 1] == labels[i]);
                assert forall|h: int| 0 <= h < i - 1 implies rest[h].0 != n by {
                    assert(rest[h] == labels[h + 1]);
                }
                assert(rest[i - 1].1@[j]@ == v);
            }
        }
    }
}

/// A `can_run` constraint on a monitored or source variable holds on a path
/// exactly when some node of the path, anywhere along it, has the variable
/// among its labels; any other constraint is not checked.
pub proof fn law_can_run_looks_along_the_whole_path(
    path: Seq<usize>,
    labels: Seq<(usize, Vec<VarName>)>,
    c: DistConstraint,
)
    ensures
        c.0 == DistConstraintType::CanRun ==> (c.1 matches DistConstraintBody::Monitor(v) ==> check_spec(
            path,
            labels,
            c,
        ) == Ok::<bool, CheckError>(exists|k: int| 0 <= k < path.len() && #[trigger] labelled_with(labels, path[k], v@))),
        c.0 == DistConstraintType::CanRun ==> (c.1 matches DistConstraintBody::Source(v) ==> check_spec(
            path,
            labels,
            c,
        ) == Ok::<bool, CheckError>(exists|k: int| 0 <= k < path.len() && #[trigger] labelled_with(labels, path[k], v@))),
        c.0 != DistConstraintType::CanRun ==> check_spec(path, labels, c) == Err::<bool, CheckError>(CheckError::Unsupported),
{
    if c.0 == DistConstraintType::CanRun {
        match c.1 {
            DistConstraintBody::Monitor(v) => lemma_path_labelled(path, labels, v@),
            DistConstraintBody::Source(v) => lemma_path_labelled(path, labels, v@),
            _ => {},
        }
    }
}

proof fn lemma_path_labelled(path: Seq<usize>, labels: Seq<(usize, Vec<VarName>)>, v: Seq<char>)
    ensures
        crate::dist::path_carries(path, labels, v) == (exists|k: int|
            0 <= k < path.len() && #[trigger] labelled_with(labels, path[k], v)),
{
    if crate::dist::path_carries(path, labels, v) {
        let k = choose|k: int| 0 <= k < path.len() && #[trigger] crate::dist::carries(labels, path[k], v);
        lemma_labelled_with(labels, path[k], v);
    }
    if exists|k: int| 0 <= k < path.len() && #[trigger] labelled_with(labels, path[k], v) {
        let k = choose|k: int| 0 <= k < path.len() && #[trigger] labelled_with(labels, path[k], v);
        lemma_labelled_with(labels, path[k], v);
    }
}

// ---------------------------------------------------------------------------
// Operator symbols.
// ---------------------------------------------------------------------------

/// The operator that each binary operator symbol of the expression language names.
pub open spec fn operator_named(s: Seq<char>) -> Option<SBinOp> {
    if s.len() == 1 {
        let c = s[0];
        if c == '<' {
            Some(SBinOp::COp(CompBinOp::Lt))
        } else if c == '>' {
            Some(SBinOp::COp(CompBinOp::Gt))
        } else if c == '-' {
            Some(SBinOp::NOp(NumericalBinOp::Sub))
        } else if c == '+' {
            Some(SBinOp::NOp(NumericalBinOp::Add))
        } else if c == '*' {
            Some(SBinOp::NOp(NumericalBinOp::Mul))
        } else if c == '/' {
            Some(SBinOp::NOp(NumericalBinOp::Div))
        } else if c == '%' {
            Some(SBinOp::NOp(NumericalBinOp::Mod))
        } else {
            None
        }
    } else if s.len() == 2 {
        let (c0, c1) = (s[0], s[1]);
        if c0 == '+' && c1 == '+' {
            Some(SBinOp::SOp(StrBinOp::Concat))
        } else if c0 == '|' && c1 == '|' {
            Some(SBinOp::BOp(BoolBinOp::Or))
        } else if c0 == '&' && c1 == '&' {
            Some(SBinOp::BOp(BoolBinOp::And))
        } else if c0 == '<' && c1 == '=' {
            Some(SBinOp::COp(CompBinOp::Le))
        } else if c0 == '>' && c1 == '=' {
            Some(SBinOp::COp(CompBinOp::Ge))
        } else if c0 == '=' && c1 == '=' {
            Some(SBinOp::COp(CompBinOp::Eq))
        } else {
            None
        }
    } else {
        None
    }
}

proof fn lemma_level_operator(l: BinaryPrecedences)
    ensures
        operator_named(prec_lit(l)) == Some(prec_binop(l)),
{
}

/// Each precedence level reads its symbol as the operator the symbol names
/// (`>=` is greater-or-equal, `<` is less-than, and so on), and no two levels
/// share a symbol.
pub proof fn law_levels_read_the_operator_their_symbol_names(l: BinaryPrecedences, l2: BinaryPrecedences)
    ensures
        operator_named(prec_lit(l)) == Some(prec_binop(l)),
        l != l2 ==> prec_lit(l) != prec_lit(l2),
{
    lemma_level_operator(l);
    lemma_level_operator(l2);
}

// ---------------------------------------------------------------------------
// Integer arithmetic.
// ---------------------------------------------------------------------------

/// Subtraction undoes addition: where `a + b` fits, subtracting `b` from it
/// gives back `a`.
pub proof fn law_subtraction_undoes_addition(a: i64, b: i64)
    requires
        i64::MIN <= a + b <= i64::MAX,
    ensures
        binop_spec(ValueV::Int(a), ValueV::Int(b), SBinOp::NOp(NumericalBinOp::Add)) matches Ok(ValueV::Int(s))
            && binop_spec(ValueV::Int(s), ValueV::Int(b), SBinOp::NOp(NumericalBinOp::Sub)) == Ok::<
            ValueV,
            crate::solver::SolverError,
        >(ValueV::Int(a)),
{
}

/// Integer division rounds toward zero: the quotient `q` and remainder `r` of
/// `a` by `b != 0` satisfy `a == q * b + r`, the remainder is smaller than the
/// divisor in size, and it is zero or has the sign of `a`.
pub proof fn law_integer_division(a: i64, b: i64)
    requires
        b != 0,
        !(a == i64::MIN && b == -1),
    ensures
        binop_spec(ValueV::Int(a), ValueV::Int(b), SBinOp::NOp(NumericalBinOp::Div)) matches Ok(ValueV::Int(q))
            && binop_spec(ValueV::Int(a), ValueV::Int(b), SBinOp::NOp(NumericalBinOp::Mod)) matches Ok(
            ValueV::Int(r),
        ) && a == q * b + r && (if r < 0 {
            -r
        } else {
            r as int
        }) < (if b < 0 {
            -b
        } else {
            b as int
        }) && (r == 0 || (r < 0) == (a < 0)),
{
    let x = a as int;
    let d = b as int;
    let q = crate::solver::trunc_div(x, d);
    let r = crate::solver::trunc_rem(x, d);
    if x == 0 {
    } else if x > 0 && d > 0 {
        assert(x == (x / d) * d + x % d && 0 <= x % d < d && 0 <= x / d <= x) by (nonlinear_arith)
            requires
                x > 0,
                d > 0,
        ;
    } else if x < 0 && d < 0 {
        let y = x * -1;
        let e = d * -1;
        assert(y == (y / e) * e + y % e && 0 <= y % e < e && 0 <= y / e <= y) by (nonlinear_arith)
            requires
                y > 0,
                e > 0,
        ;
        assert(y / e < 0x8000_0000_0000_0000) by (nonlinear_arith)
            requires
                y > 0,
                e > 0,
                y <= 0x8000_0000_0000_0000,
                e >= 2 || y < 0x8000_0000_0000_0000,
        ;
        assert(q == y / e && r == (y % e) * -1);
        assert(x == q * d + r) by (nonlinear_arith)
            requires
                y == x * -1,
                e == d * -1,
                y == (y / e) * e + y % e,
                q == y / e,
                r == (y % e) * -1,
        ;
    } else if x < 0 {
        let y = x * -1;
        assert(y == (y / d) * d + y % d && 0 <= y % d < d && 0 <= y / d <= y) by (nonlinear_arith)
            requires
                y > 0,
                d > 0,
        ;
        assert(q == (y / d) * -1 && r == (y % d) * -1);
        assert(x == q * d + r) by (nonlinear_arith)
            requires
                y == x * -1,
                y == (y / d) * d + y % d,
                q == (y / d) * -1,
                r == (y % d) * -1,
        ;
    } else {
        let e = d * -1;
        assert(x == (x / e) * e + x % e && 0 <= x % e < e && 0 <= x / e <= x) by (nonlinear_arith)
            requires
                x > 0,
                e > 0,
        ;
        assert(q == (x / e) * -1 && r == x % e);
        assert(x == q * d + r) by (nonlinear_arith)
            requires
                e == d * -1,
                x == (x / e) * e + x % e,
                q == (x / e) * -1,
                r == x % e,
        ;
    }
    assert(i64::MIN <= q <= i64::MAX && i64::MIN <= r <= i64::MAX);
    assert(binop_spec(ValueV::Int(a), ValueV::Int(b), SBinOp::NOp(NumericalBinOp::Div)) == Ok::<
        ValueV,
        crate::solver::SolverError,
    >(ValueV::Int(q as i64)));
    assert(binop_spec(ValueV::Int(a), ValueV::Int(b), SBinOp::NOp(NumericalBinOp::Mod)) == Ok::<
        ValueV,
        crate::solver::SolverError,
    >(ValueV::Int(r as i64)));
}

/// `false` decides a conjunction and `true` a disjunction; otherwise the
/// result is the other operand.
pub proof fn law_boolean_operators(y: bool)
    ensures
        binop_spec(ValueV::Bool(false), ValueV::Bool(y), SBinOp::BOp(BoolBinOp::And)) == Ok::<
            ValueV,
            crate::solver::SolverError,
        >(ValueV::Bool(false)),
        binop_spec(ValueV::Bool(true), ValueV::Bool(y), SBinOp::BOp(BoolBinOp::And)) == Ok::<
            ValueV,
            crate::solver::SolverError,
        >(ValueV::Bool(y)),
        binop_spec(ValueV::Bool(true), ValueV::Bool(y), SBinOp::BOp(BoolBinOp::Or)) == Ok::<
            ValueV,
            crate::solver::SolverError,
        >(ValueV::Bool(true)),
        binop_spec(ValueV::Bool(false), ValueV::Bool(y), SBinOp::BOp(BoolBinOp::Or)) == Ok::<
            ValueV,
            crate::solver::SolverError,
        >(ValueV::Bool(y)),
{
}

/// Concatenating strings keeps the first in front and the second after it.
pub proof fn law_concatenation(a: Seq<char>, b: Seq<char>)
    ensures
        binop_spec(ValueV::Str(a), ValueV::Str(b), SBinOp::SOp(StrBinOp::Concat)) matches Ok(ValueV::Str(c))
            && c.len() == a.len() + b.len() && c.take(a.len() as int) == a && c.skip(a.len() as int) == b,
{
    assert((a + b).take(a.len() as int) =~= a);
    assert((a + b).skip(a.len() as int) =~= b);
}

} // verus!

use vstd::prelude::*;
use crate::values::VarName;
use crate::dist::{DistConstraintBody, DistBodyV, DistConstraint, DistConstraintType, bodies_view};
use crate::parser::{
    Source, BinaryPrecedences, ws_end, skip_end, lit_at, alnum_end, val_spec, isize_lit, fwd,
    prec_rank, prec_next, prec_lit, prec_binop, lb_or_lc_spec, kw_list_get, kw_list_append,
    kw_list_concat, kw_list_head, kw_list_tail, kw_default, kw_is_defined, kw_if, kw_then, kw_else,
    kw_list, ws, loop_ms_or_lb_or_lc, lit, alnum, val, isize_at, lb_or_lc, fraction_at, int_at,
};

verus! {

// ---------------------------------------------------------------------------
// The grammar of constraint bodies, as functions from (text, position) to
// what is read there: `Some((x, q))` when `x` was read and reading stopped at `q`.
// ---------------------------------------------------------------------------

pub open spec fn kw_monitor() -> Seq<char> {
    seq!['m', 'o', 'n', 'i', 't', 'o', 'r']
}

pub open spec fn kw_source() -> Seq<char> {
    seq!['s', 'o', 'u', 'r', 'c', 'e']
}

pub open spec fn kw_sin() -> Seq<char> {
    seq!['s', 'i', 'n']
}

pub open spec fn kw_cos() -> Seq<char> {
    seq!['c', 'o', 's']
}

pub open spec fn kw_tan() -> Seq<char> {
    seq!['t', 'a', 'n']
}

/// A body at `p`, with surrounding spaces and tabs.
pub open spec fn body_spec(s: Seq<char>, p: int) -> Option<(DistBodyV, int)>
    decreases s.len() - p, 40int,
{
    let p1 = ws_end(s, p);
    if !fwd(s, p, p1) {
        None
    } else {
        match body_level_spec(s, p1, BinaryPrecedences::Concat) {
            Some((e, q)) => Some((e, ws_end(s, q))),
            None => None,
        }
    }
}

/// A body at `p` made of operators of level `l` or tighter: operands of the
/// next level joined by `l`'s operator, grouped to the left.
pub open spec fn body_level_spec(s: Seq<char>, p: int, l: BinaryPrecedences) -> Option<(DistBodyV, int)>
    decreases s.len() - p, 38 - 2 * prec_rank(l),
{
    let first = match prec_next(l) {
        Some(n) => body_level_spec(s, p, n),
        None => body_atom_spec(s, p),
    };
    match first {
        Some((e, q)) => if fwd(s, p, q) {
            Some(body_fold_spec(s, l, e, q))
        } else {
            None
        },
        None => None,
    }
}

/// Extends `acc` read up to `q` by `op operand` pairs of level `l` as long as
/// both parts read; stops before an operator not followed by an operand.
pub open spec fn body_fold_spec(s: Seq<char>, l: BinaryPrecedences, acc: DistBodyV, q: int) -> (DistBodyV, int)
    decreases s.len() - q, 37 - 2 * prec_rank(l),
{
    let op = prec_lit(l);
    if lit_at(s, q, op) {
        let r = q + op.len();
        let next = match prec_next(l) {
            Some(n) => body_level_spec(s, r, n),
            None => body_atom_spec(s, r),
        };
        match next {
            Some((e2, q2)) => if fwd(s, r, q2) {
                body_fold_spec(s, l, DistBodyV::BinOp(Box::new(acc), Box::new(e2), prec_binop(l)), q2)
            } else {
                (acc, q)
            },
            None => (acc, q),
        }
    } else {
        (acc, q)
    }
}

/// An atom at `p`, with surrounding spaces and tabs.
pub open spec fn body_atom_spec(s: Seq<char>, p: int) -> Option<(DistBodyV, int)>
    decreases s.len() - p, 11int,
{
    let p1 = ws_end(s, p);
    if !fwd(s, p, p1) {
        None
    } else if fraction_at(s, p1) {
        None
    } else {
        match atom_forms_spec(s, p1) {
            Some((e, q)) => Some((e, ws_end(s, q))),
            None => None,
        }
    }
}

/// The first form of atom that reads at `p`.
pub open spec fn atom_forms_spec(s: Seq<char>, p: int) -> Option<(DistBodyV, int)>
    decreases s.len() - p, 10int,
{
    if let Some(r) = lists_group_spec(s, p) {
        Some(r)
    } else if let Some(r) = calls_group_spec(s, p) {
        Some(r)
    } else {
        rest_group_spec(s, p)
    }
}

/// Stream indexing, the list operations and negation.
pub open spec fn lists_group_spec(s: Seq<char>, p: int) -> Option<(DistBodyV, int)>
    decreases s.len() - p, 9int,
{
    if let Some((e, q)) = body_sindex_spec(s, p) {
        Some((e, q))
    } else if let Some((a, b, q)) = body_call2_spec(s, p, kw_list_get(), true) {
        Some((DistBodyV::LIndex(Box::new(a), Box::new(b)), q))
    } else if let Some((a, b, q)) = body_call2_spec(s, p, kw_list_append(), true) {
        Some((DistBodyV::LAppend(Box::new(a), Box::new(b)), q))
    } else if let Some((a, b, q)) = body_call2_spec(s, p, kw_list_concat(), true) {
        Some((DistBodyV::LConcat(Box::new(a), Box::new(b)), q))
    } else if let Some((a, q)) = body_call1_spec(s, p, kw_list_head(), true) {
        Some((DistBodyV::LHead(Box::new(a)), q))
    } else if let Some((a, q)) = body_call1_spec(s, p, kw_list_tail(), true) {
        Some((DistBodyV::LTail(Box::new(a)), q))
    } else {
        body_not_spec(s, p)
    }
}

/// Values, conditionals, placements and the trigonometric functions.
pub open spec fn calls_group_spec(s: Seq<char>, p: int) -> Option<(DistBodyV, int)>
    decreases s.len() - p, 9int,
{
    if let Some((v, q)) = val_spec(s, p) {
        Some((DistBodyV::Val(v), q))
    } else if let Some((e, q)) = body_ifelse_spec(s, p) {
        Some((e, q))
    } else if let Some((n, q)) = name_call_spec(s, p, kw_monitor()) {
        Some((DistBodyV::Monitor(n), q))
    } else if let Some((n, q)) = name_call_spec(s, p, kw_source()) {
        Some((DistBodyV::Source(n), q))
    } else if let Some((a, q)) = body_call1_spec(s, p, kw_sin(), true) {
        Some((DistBodyV::Sin(Box::new(a)), q))
    } else if let Some((a, q)) = body_call1_spec(s, p, kw_cos(), true) {
        Some((DistBodyV::Cos(Box::new(a)), q))
    } else if let Some((a, q)) = body_call1_spec(s, p, kw_tan(), true) {
        Some((DistBodyV::Tan(Box::new(a)), q))
    } else {
        None
    }
}

/// Default, `is_defined`, body lists, variables and parentheses.
pub open spec fn rest_group_spec(s: Seq<char>, p: int) -> Option<(DistBodyV, int)>
    decreases s.len() - p, 9int,
{
    if let Some((a, b, q)) = body_call2_spec(s, p, kw_default(), false) {
        Some((DistBodyV::Default(Box::new(a), Box::new(b)), q))
    } else if let Some((a, q)) = body_call1_spec(s, p, kw_is_defined(), false) {
        Some((DistBodyV::IsDefined(Box::new(a)), q))
    } else if let Some((es, q)) = body_list_spec(s, p) {
        Some((DistBodyV::List(es), q))
    } else if alnum_end(s, p) > p {
        Some((DistBodyV::Var(s.subrange(p, alnum_end(s, p))), alnum_end(s, p)))
    } else {
        body_paren_spec(s, p)
    }
}

/// `(` body `)`.
pub open spec fn body_paren_spec(s: Seq<char>, p: int) -> Option<(DistBodyV, int)>
    decreases s.len() - p, 6int,
{
    if 0 <= p < s.len() && s[p] == '(' {
        match body_spec(s, p + 1) {
            Some((e, q)) => if fwd(s, p + 1, q) && q < s.len() && s[q] == ')' {
                Some((e, q + 1))
            } else {
                None
            },
            None => None,
        }
    } else {
        None
    }
}

/// Spaces and tabs, `!`, an atom, spaces and tabs.
pub open spec fn body_not_spec(s: Seq<char>, p: int) -> Option<(DistBodyV, int)>
    decreases s.len() - p, 8int,
{
    let p1 = ws_end(s, p);
    if fwd(s, p, p1) && p1 < s.len() && s[p1] == '!' {
        let r = skip_end(s, p1 + 1);
        if fwd(s, p1 + 1, r) {
            match body_atom_spec(s, r) {
                Some((e, q)) => Some((DistBodyV::Not(Box::new(e)), ws_end(s, q))),
                None => None,
            }
        } else {
            None
        }
    } else {
        None
    }
}

/// Spaces and tabs, `kw`, `(`, a body, `)`, with whitespace and comments
/// between; then spaces and tabs when `trailing` holds.
pub open spec fn body_call1_spec(s: Seq<char>, p: int, kw: Seq<char>, trailing: bool) -> Option<(DistBodyV, int)>
    decreases s.len() - p, 8int,
{
    let p1 = ws_end(s, p);
    if fwd(s, p, p1) && kw.len() > 0 && lit_at(s, p1, kw) {
        let a = skip_end(s, p1 + kw.len());
        if fwd(s, p1 + kw.len(), a) && a < s.len() && s[a] == '(' {
            let b = skip_end(s, a + 1);
            if fwd(s, a + 1, b) {
                match body_spec(s, b) {
                    Some((e, q)) => {
                        let c = skip_end(s, q);
                        if fwd(s, b, q) && fwd(s, q, c) && c < s.len() && s[c] == ')' {
                            Some((e, if trailing { ws_end(s, c + 1) } else { c + 1 }))
                        } else {
                            None
                        }
                    },
                    None => None,
                }
            } else {
                None
            }
        } else {
            None
        }
    } else {
        None
    }
}

/// Spaces and tabs, `kw`, `(`, a body, `,`, a body, `)`; whitespace and
/// comments may stand between the parts, and after the keyword only when
/// `skip_kw` holds.
pub open spec fn body_call2_spec(s: Seq<char>, p: int, kw: Seq<char>, skip_kw: bool) -> Option<
    (DistBodyV, DistBodyV, int),
>
    decreases s.len() - p, 8int,
{
    let p1 = ws_end(s, p);
    if fwd(s, p, p1) && kw.len() > 0 && lit_at(s, p1, kw) {
        let a = if skip_kw {
            skip_end(s, p1 + kw.len())
        } else {
            p1 + kw.len()
        };
        if fwd(s, p1 + kw.len(), a) && a < s.len() && s[a] == '(' {
            let b = skip_end(s, a + 1);
            if fwd(s, a + 1, b) {
                match body_spec(s, b) {
                    Some((e1, q1)) => {
                        let c = skip_end(s, q1);
                        if fwd(s, b, q1) && fwd(s, q1, c) && c < s.len() && s[c] == ',' {
                            let d = skip_end(s, c + 1);
                            if fwd(s, c + 1, d) {
                                match body_spec(s, d) {
                                    Some((e2, q2)) => {
                                        let f = skip_end(s, q2);
                                        if fwd(s, d, q2) && fwd(s, q2, f) && f < s.len() && s[f]
                                            == ')' {
                                            Some((e1, e2, f + 1))
                                        } else {
                                            None
                                        }
                                    },
                                    None => None,
                                }
                            } else {
                                None
                            }
                        } else {
                            None
                        }
                    },
                    None => None,
                }
            } else {
                None
            }
        } else {
            None
        }
    } else {
        None
    }
}

/// Spaces and tabs, `kw`, `(`, a variable name, `)`, spaces and tabs, with
/// whitespace and comments between the parts.
pub open spec fn name_call_spec(s: Seq<char>, p: int, kw: Seq<char>) -> Option<(Seq<char>, int)> {
    let p1 = ws_end(s, p);
    if fwd(s, p, p1) && kw.len() > 0 && lit_at(s, p1, kw) {
        let a = skip_end(s, p1 + kw.len());
        if fwd(s, p1 + kw.len(), a) && a < s.len() && s[a] == '(' {
            let b = skip_end(s, a + 1);
            let e = alnum_end(s, b);
            if fwd(s, a + 1, b) && fwd(s, b, e) && e > b {
                let c = skip_end(s, e);
                if fwd(s, e, c) && c < s.len() && s[c] == ')' {
                    Some((s.subrange(b, e), ws_end(s, c + 1)))
                } else {
                    None
                }
            } else {
                None
            }
        } else {
            None
        }
    } else {
        None
    }
}

/// Reads `kw` at `p`, then a body. Before the keyword, spaces and tabs are
/// passed over when `first` holds, and whitespace and comments otherwise.
pub open spec fn kw_then_body(s: Seq<char>, p: int, kw: Seq<char>, first: bool) -> Option<(DistBodyV, int)>
    decreases s.len() - p, 7int,
{
    let a = if first {
        ws_end(s, p)
    } else {
        skip_end(s, p)
    };
    if fwd(s, p, a) && kw.len() > 0 && lit_at(s, a, kw) {
        let b = skip_end(s, a + kw.len());
        if fwd(s, a + kw.len(), b) {
            match body_spec(s, b) {
                Some((e, q)) => if fwd(s, b, q) {
                    Some((e, q))
                } else {
                    None
                },
                None => None,
            }
        } else {
            None
        }
    } else {
        None
    }
}

/// `if` body `then` body `else` body, then spaces and tabs.
pub open spec fn body_ifelse_spec(s: Seq<char>, p: int) -> Option<(DistBodyV, int)>
    decreases s.len() - p, 8int,
{
    match kw_then_body(s, p, kw_if(), true) {
        Some((c, q1)) => if fwd(s, p, q1) {
            match kw_then_body(s, q1, kw_then(), false) {
                Some((t, q2)) => if fwd(s, q1, q2) {
                    match kw_then_body(s, q2, kw_else(), false) {
                        Some((f, q3)) => Some(
                            (DistBodyV::If(Box::new(c), Box::new(t), Box::new(f)), ws_end(s, q3)),
                        ),
                        None => None,
                    }
                } else {
                    None
                },
                None => None,
            }
        } else {
            None
        },
        None => None,
    }
}

/// The stream of a stream index: a value, a variable, or a parenthesised body.
pub open spec fn body_sindex_base_spec(s: Seq<char>, p: int) -> Option<(DistBodyV, int)>
    decreases s.len() - p, 7int,
{
    if let Some((v, q)) = val_spec(s, p) {
        Some((DistBodyV::Val(v), q))
    } else if alnum_end(s, p) > p {
        Some((DistBodyV::Var(s.subrange(p, alnum_end(s, p))), alnum_end(s, p)))
    } else {
        body_paren_spec(s, p)
    }
}

/// Spaces and tabs, then `e[i, d]`: stream `e` at relative time `i`, with
/// default value `d`.
pub open spec fn body_sindex_spec(s: Seq<char>, p: int) -> Option<(DistBodyV, int)>
    decreases s.len() - p, 8int,
{
    let p1 = ws_end(s, p);
    if !fwd(s, p, p1) {
        None
    } else {
        match body_sindex_base_spec(s, p1) {
            Some((e, q)) => {
                let a = skip_end(s, q);
                if fwd(s, q, a) && a < s.len() && s[a] == '[' {
                    let b = skip_end(s, a + 1);
                    if fwd(s, a + 1, b) {
                        match isize_lit(s, b) {
                            Some((i, q2)) => {
                                let c = skip_end(s, q2);
                                if fwd(s, q2, c) && c < s.len() && s[c] == ',' {
                                    let d = skip_end(s, c + 1);
                                    if fwd(s, c + 1, d) {
                                        match val_spec(s, d) {
                                            Some((v, q3)) => {
                                                let f = skip_end(s, q3);
                                                if fwd(s, q3, f) && f < s.len() && s[f] == ']' {
                                                    Some((DistBodyV::SIndex(Box::new(e), i, v), f + 1))
                                                } else {
                                                    None
                                                }
                                            },
                                            None => None,
                                        }
                                    } else {
                                        None
                                    }
                                } else {
                                    None
                                }
                            },
                            None => None,
                        }
                    } else {
                        None
                    }
                } else {
                    None
                }
            },
            None => None,
        }
    }
}

/// `List`, `(`, bodies separated by commas, `)`.
pub open spec fn body_list_spec(s: Seq<char>, p: int) -> Option<(Seq<DistBodyV>, int)>
    decreases s.len() - p, 8int,
{
    if lit_at(s, p, kw_list()) {
        let a = skip_end(s, p + 4);
        if fwd(s, p + 4, a) && a < s.len() && s[a] == '(' {
            let (es, r) = match body_spec(s, a + 1) {
                None => (Seq::empty(), a + 1),
                Some((e, q)) => if fwd(s, a + 1, q) {
                    body_items_spec(s, seq![e], q)
                } else {
                    (Seq::empty(), a + 1)
                },
            };
            if 0 <= r < s.len() && s[r] == ')' {
                Some((es, r + 1))
            } else {
                None
            }
        } else {
            None
        }
    } else {
        None
    }
}

/// The bodies after the first in a body list.
pub open spec fn body_items_spec(s: Seq<char>, acc: Seq<DistBodyV>, r: int) -> (Seq<DistBodyV>, int)
    decreases s.len() - r, 8int,
{
    let c = skip_end(s, r);
    if fwd(s, r, c) && c < s.len() && s[c] == ',' {
        let d = skip_end(s, c + 1);
        if fwd(s, c + 1, d) {
            match body_spec(s, d) {
                Some((e, q)) => if fwd(s, d, q) {
                    body_items_spec(s, acc.push(e), q)
                } else {
                    (acc, r)
                },
                None => (acc, r),
            }
        } else {
            (acc, r)
        }
    } else {
        (acc, r)
    }
}

// ---------------------------------------------------------------------------
// Reading bodies.
// ---------------------------------------------------------------------------

/// A body read at `p` (see `body_spec`).
pub fn body_at(src: &Source, p: usize) -> (res: Option<(DistConstraintBody, usize)>)
    requires
        src.wf(),
        p <= src.chars.len(),
    ensures
        match res {
            Some((e, q)) => body_spec(src.chars@, p as int) == Some((e@, q as int)) && p <= q
                <= src.chars.len(),
            None => body_spec(src.chars@, p as int) is None,
        },
    decreases src.chars.len() - p, 40int,
{
    let p1 = ws(&src.chars, p);
    match body_level(src, p1, BinaryPrecedences::lowest_precedence()) {
        Some((e, q)) => Some((e, ws(&src.chars, q))),
        None => None,
    }
}

/// A body of level `l` or tighter read at `p` (see `body_level_spec`).
fn body_level(src: &Source, p: usize, l: BinaryPrecedences) -> (res: Option<(DistConstraintBody, usize)>)
    requires
        src.wf(),
        p <= src.chars.len(),
    ensures
        match res {
            Some((e, q)) => body_level_spec(src.chars@, p as int, l) == Some((e@, q as int)) && p
                <= q <= src.chars.len(),
            None => body_level_spec(src.chars@, p as int, l) is None,
        },
    decreases src.chars.len() - p, 38 - 2 * prec_rank(l),
{
    let first = match l.next() {
        Some(n) => body_level(src, p, n),
        None => body_atom(src, p),
    };
    match first {
        Some((e, q)) => Some(body_fold(src, l, e, q)),
        None => None,
    }
}

/// Extends `acc` by operators of level `l` (see `body_fold_spec`).
#[verifier::spinoff_prover]
#[verifier::rlimit(40)]
fn body_fold(src: &Source, l: BinaryPrecedences, acc: DistConstraintBody, q: usize) -> (res: (
    DistConstraintBody,
    usize,
))
    requires
        src.wf(),
        q <= src.chars.len(),
    ensures
        body_fold_spec(src.chars@, l, acc@, q as int) == (res.0@, res.1 as int),
        q <= res.1 <= src.chars.len(),
    decreases src.chars.len() - q, 37 - 2 * prec_rank(l),
{
    let op = l.get_lit();
    let ghost opv = prec_lit(l);
    if lit(&src.chars, q, op) {
        let r = q + op.unicode_len();
        assert(r == q + opv.len());
        assert(body_fold_spec(src.chars@, l, acc@, q as int) == {
            let next = match prec_next(l) {
                Some(n) => body_level_spec(src.chars@, r as int, n),
                None => body_atom_spec(src.chars@, r as int),
            };
            match next {
                Some((e2, q2)) => if fwd(src.chars@, r as int, q2) {
                    body_fold_spec(
                        src.chars@,
                        l,
                        DistBodyV::BinOp(Box::new(acc@), Box::new(e2), prec_binop(l)),
                        q2,
                    )
                } else {
                    (acc@, q as int)
                },
                None => (acc@, q as int),
            }
        });
        let next = match l.next() {
            Some(n) => body_level(src, r, n),
            None => body_atom(src, r),
        };
        match next {
            Some((e2, q2)) => {
                let ghost accv = acc@;
                let ghost e2v = e2@;
                let node = DistConstraintBody::BinOp(Box::new(acc), Box::new(e2), l.get_binop());
                proof {
                    assert(node@ == DistBodyV::BinOp(Box::new(accv), Box::new(e2v), prec_binop(l)));
                }
                body_fold(src, l, node, q2)
            },
            None => (acc, q),
        }
    } else {
        (acc, q)
    }
}

/// An atom read at `p` (see `body_atom_spec`).
fn body_atom(src: &Source, p: usize) -> (res: Option<(DistConstraintBody, usize)>)
    requires
        src.wf(),
        p <= src.chars.len(),
    ensures
        match res {
            Some((e, q)) => body_atom_spec(src.chars@, p as int) == Some((e@, q as int)) && p <= q
                <= src.chars.len(),
            None => body_atom_spec(src.chars@, p as int) is None,
        },
    decreases src.chars.len() - p, 11int,
{
    let s = &src.chars;
    let p1 = ws(s, p);
    if let Some((_, e)) = int_at(s, p1) {
        if e < s.len() && e + 1 < s.len() && s[e] == '.' && '0' <= s[e + 1] && s[e + 1] <= '9' {
            return None;
        }
    }
    match atom_forms(src, p1) {
        Some((e, q)) => Some((e, ws(&src.chars, q))),
        None => None,
    }
}

/// A one-argument node.
fn node1(kind: u8, a: DistConstraintBody) -> (res: DistConstraintBody)
    ensures
        kind == 0 ==> res@ == DistBodyV::LHead(Box::new(a@)),
        kind == 1 ==> res@ == DistBodyV::LTail(Box::new(a@)),
        kind == 2 ==> res@ == DistBodyV::Sin(Box::new(a@)),
        kind == 3 ==> res@ == DistBodyV::Cos(Box::new(a@)),
        kind == 4 ==> res@ == DistBodyV::Tan(Box::new(a@)),
        kind >= 5 ==> res@ == DistBodyV::IsDefined(Box::new(a@)),
{
    if kind == 0 {
        DistConstraintBody::LHead(Box::new(a))
    } else if kind == 1 {
        DistConstraintBody::LTail(Box::new(a))
    } else if kind == 2 {
        DistConstraintBody::Sin(Box::new(a))
    } else if kind == 3 {
        DistConstraintBody::Cos(Box::new(a))
    } else if kind == 4 {
        DistConstraintBody::Tan(Box::new(a))
    } else {
        DistConstraintBody::IsDefined(Box::new(a))
    }
}

/// A two-argument node.
fn node2(kind: u8, a: DistConstraintBody, b: DistConstraintBody) -> (res: DistConstraintBody)
    ensures
        kind == 0 ==> res@ == DistBodyV::LIndex(Box::new(a@), Box::new(b@)),
        kind == 1 ==> res@ == DistBodyV::LAppend(Box::new(a@), Box::new(b@)),
        kind == 2 ==> res@ == DistBodyV::LConcat(Box::new(a@), Box::new(b@)),
        kind >= 3 ==> res@ == DistBodyV::Default(Box::new(a@), Box::new(b@)),
{
    if kind == 0 {
        DistConstraintBody::LIndex(Box::new(a), Box::new(b))
    } else if kind == 1 {
        DistConstraintBody::LAppend(Box::new(a), Box::new(b))
    } else if kind == 2 {
        DistConstraintBody::LConcat(Box::new(a), Box::new(b))
    } else {
        DistConstraintBody::Default(Box::new(a), Box::new(b))
    }
}

/// The first form of atom that reads at `p` (see `atom_forms_spec`).
fn atom_forms(src: &Source, p: usize) -> (res: Option<(DistConstraintBody, usize)>)
    requires
        src.wf(),
        p <= src.chars.len(),
    ensures
        match res {
            Some((e, q)) => atom_forms_spec(src.chars@, p as int) == Some((e@, q as int)) && p <= q
                <= src.chars.len(),
            None => atom_forms_spec(src.chars@, p as int) is None,
        },
    decreases src.chars.len() - p, 10int,
{
    if let Some(r) = lists_group(src, p) {
        return Some(r);
    }
    if let Some(r) = calls_group(src, p) {
        return Some(r);
    }
    rest_group(src, p)
}

fn lists_group(src: &Source, p: usize) -> (res: Option<(DistConstraintBody, usize)>)
    requires
        src.wf(),
        p <= src.chars.len(),
    ensures
        match res {
            Some((e, q)) => lists_group_spec(src.chars@, p as int) == Some((e@, q as int)) && p <= q
                <= src.chars.len(),
            None => lists_group_spec(src.chars@, p as int) is None,
        },
    decreases src.chars.len() - p, 9int,
{
    proof {
        reveal_strlit("List.get");
        reveal_strlit("List.append");
        reveal_strlit("List.concat");
        reveal_strlit("List.head");
        reveal_strlit("List.tail");
        assert("List.get"@ =~= kw_list_get());
        assert("List.append"@ =~= kw_list_append());
        assert("List.concat"@ =~= kw_list_concat());
        assert("List.head"@ =~= kw_list_head());
        assert("List.tail"@ =~= kw_list_tail());
    }
    if let Some((e, q)) = body_sindex(src, p) {
        return Some((e, q));
    }
    if let Some((a, b, q)) = body_call2(src, p, "List.get", true) {
        return Some((node2(0, a, b), q));
    }
    if let Some((a, b, q)) = body_call2(src, p, "List.append", true) {
        return Some((node2(1, a, b), q));
    }
    if let Some((a, b, q)) = body_call2(src, p, "List.concat", true) {
        return Some((node2(2, a, b), q));
    }
    if let Some((a, q)) = body_call1(src, p, "List.head", true) {
        return Some((node1(0, a), q));
    }
    if let Some((a, q)) = body_call1(src, p, "List.tail", true) {
        return Some((node1(1, a), q));
    }
    body_not(src, p)
}

fn calls_group(src: &Source, p: usize) -> (res: Option<(DistConstraintBody, usize)>)
    requires
        src.wf(),
        p <= src.chars.len(),
    ensures
        match res {
            Some((e, q)) => calls_group_spec(src.chars@, p as int) == Some((e@, q as int)) && p <= q
                <= src.chars.len(),
            None => calls_group_spec(src.chars@, p as int) is None,
        },
    decreases src.chars.len() - p, 9int,
{
    proof {
        reveal_strlit("monitor");
        reveal_strlit("source");
        reveal_strlit("sin");
        reveal_strlit("cos");
        reveal_strlit("tan");
        assert("monitor"@ =~= kw_monitor());
        assert("source"@ =~= kw_source());
        assert("sin"@ =~= kw_sin());
        assert("cos"@ =~= kw_cos());
        assert("tan"@ =~= kw_tan());
    }
    if let Some((v, q)) = val(src, p) {
        let ghost vv = v@;
        let e = DistConstraintBody::Val(v);
        proof {
            assert(e@ == DistBodyV::Val(vv));
        }
        return Some((e, q));
    }
    if let Some((e, q)) = body_ifelse(src, p) {
        return Some((e, q));
    }
    if let Some((n, q)) = name_call(src, p, "monitor") {
        return Some((DistConstraintBody::Monitor(n), q));
    }
    if let Some((n, q)) = name_call(src, p, "source") {
        return Some((DistConstraintBody::Source(n), q));
    }
    if let Some((a, q)) = body_call1(src, p, "sin", true) {
        return Some((node1(2, a), q));
    }
    if let Some((a, q)) = body_call1(src, p, "cos", true) {
        return Some((node1(3, a), q));
    }
    if let Some((a, q)) = body_call1(src, p, "tan", true) {
        return Some((node1(4, a), q));
    }
    None
}

fn rest_group(src: &Source, p: usize) -> (res: Option<(DistConstraintBody, usize)>)
    requires
        src.wf(),
        p <= src.chars.len(),
    ensures
        match res {
            Some((e, q)) => rest_group_spec(src.chars@, p as int) == Some((e@, q as int)) && p <= q
                <= src.chars.len(),
            None => rest_group_spec(src.chars@, p as int) is None,
        },
    decreases src.chars.len() - p, 9int,
{
    proof {
        reveal_strlit("default");
        reveal_strlit("is_defined");
        assert("default"@ =~= kw_default());
        assert("is_defined"@ =~= kw_is_defined());
    }
    if let Some((a, b, q)) = body_call2(src, p, "default", false) {
        return Some((node2(3, a, b), q));
    }
    if let Some((a, q)) = body_call1(src, p, "is_defined", false) {
        return Some((node1(5, a), q));
    }
    if let Some((es, q)) = body_list(src, p) {
        let ghost esv = bodies_view(es@);
        let e = DistConstraintBody::List(es);
        proof {
            assert(e@->List_0 =~= esv);
        }
        return Some((e, q));
    }
    let e = alnum(&src.chars, p);
    if e > p {
        let name = VarName::new(src.text.substring_char(p, e));
        return Some((DistConstraintBody::Var(name), e));
    }
    body_paren(src, p)
}

/// `(` body `)` read at `p`.
fn body_paren(src: &Source, p: usize) -> (res: Option<(DistConstraintBody, usize)>)
    requires
        src.wf(),
        p <= src.chars.len(),
    ensures
        match res {
            Some((e, q)) => body_paren_spec(src.chars@, p as int) == Some((e@, q as int)) && p <= q
                <= src.chars.len(),
            None => body_paren_spec(src.chars@, p as int) is None,
        },
    decreases src.chars.len() - p, 6int,
{
    let s = &src.chars;
    if p < s.len() && s[p] == '(' {
        match body_at(src, p + 1) {
            Some((e, q)) => {
                if q < s.len() && s[q] == ')' {
                    Some((e, q + 1))
                } else {
                    None
                }
            },
            None => None,
        }
    } else {
        None
    }
}

/// `!` then an atom, read at `p`.
fn body_not(src: &Source, p: usize) -> (res: Option<(DistConstraintBody, usize)>)
    requires
        src.wf(),
        p <= src.chars.len(),
    ensures
        match res {
            Some((e, q)) => body_not_spec(src.chars@, p as int) == Some((e@, q as int)) && p <= q
                <= src.chars.len(),
            None => body_not_spec(src.chars@, p as int) is None,
        },
    decreases src.chars.len() - p, 8int,
{
    let s = &src.chars;
    let p1 = ws(s, p);
    if p1 < s.len() && s[p1] == '!' {
        let r = loop_ms_or_lb_or_lc(s, p1 + 1);
        match body_atom(src, r) {
            Some((e, q)) => {
                let ghost ev = e@;
                let n = DistConstraintBody::Not(Box::new(e));
                proof {
                    assert(n@ == DistBodyV::Not(Box::new(ev)));
                }
                Some((n, ws(s, q)))
            },
            None => None,
        }
    } else {
        None
    }
}

/// `kw ( e )` read at `p` (see `body_call1_spec`).
fn body_call1(src: &Source, p: usize, kw: &str, trailing: bool) -> (res: Option<(DistConstraintBody, usize)>)
    requires
        src.wf(),
        p <= src.chars.len(),
    ensures
        match res {
            Some((e, q)) => body_call1_spec(src.chars@, p as int, kw@, trailing) == Some((e@, q as int))
                && p <= q <= src.chars.len(),
            None => body_call1_spec(src.chars@, p as int, kw@, trailing) is None,
        },
    decreases src.chars.len() - p, 8int,
{
    let s = &src.chars;
    let p1 = ws(s, p);
    let n = kw.unicode_len();
    if n == 0 || !lit(s, p1, kw) {
        return None;
    }
    let a = loop_ms_or_lb_or_lc(s, p1 + n);
    if !(a < s.len() && s[a] == '(') {
        return None;
    }
    let b = loop_ms_or_lb_or_lc(s, a + 1);
    match body_at(src, b) {
        Some((e, q)) => {
            let c = loop_ms_or_lb_or_lc(s, q);
            if c < s.len() && s[c] == ')' {
                if trailing {
                    Some((e, ws(s, c + 1)))
                } else {
                    Some((e, c + 1))
                }
            } else {
                None
            }
        },
        None => None,
    }
}

/// `kw ( e1 , e2 )` read at `p` (see `body_call2_spec`).
fn body_call2(src: &Source, p: usize, kw: &str, skip_kw: bool) -> (res: Option<
    (DistConstraintBody, DistConstraintBody, usize),
>)
    requires
        src.wf(),
        p <= src.chars.len(),
    ensures
        match res {
            Some((e1, e2, q)) => body_call2_spec(src.chars@, p as int, kw@, skip_kw) == Some(
                (e1@, e2@, q as int),
            ) && p <= q <= src.chars.len(),
            None => body_call2_spec(src.chars@, p as int, kw@, skip_kw) is None,
        },
    decreases src.chars.len() - p, 8int,
{
    let s = &src.chars;
    let p1 = ws(s, p);
    let n = kw.unicode_len();
    if n == 0 || !lit(s, p1, kw) {
        return None;
    }
    let a = if skip_kw {
        loop_ms_or_lb_or_lc(s, p1 + n)
    } else {
        p1 + n
    };
    if !(a < s.len() && s[a] == '(') {
        return None;
    }
    let b = loop_ms_or_lb_or_lc(s, a + 1);
    let (e1, q1) = match body_at(src, b) {
        Some(r) => r,
        None => {
            return None;
        },
    };
    let c = loop_ms_or_lb_or_lc(s, q1);
    if !(c < s.len() && s[c] == ',') {
        return None;
    }
    let d = loop_ms_or_lb_or_lc(s, c + 1);
    let (e2, q2) = match body_at(src, d) {
        Some(r) => r,
        None => {
            return None;
        },
    };
    let f = loop_ms_or_lb_or_lc(s, q2);
    if f < s.len() && s[f] == ')' {
        Some((e1, e2, f + 1))
    } else {
        None
    }
}

/// `kw ( name )` read at `p` (see `name_call_spec`).
fn name_call(src: &Source, p: usize, kw: &str) -> (res: Option<(VarName, usize)>)
    requires
        src.wf(),
        p <= src.chars.len(),
    ensures
        match res {
            Some((v, q)) => name_call_spec(src.chars@, p as int, kw@) == Some((v@, q as int)) && p
                <= q <= src.chars.len(),
            None => name_call_spec(src.chars@, p as int, kw@) is None,
        },
{
    let s = &src.chars;
    let p1 = ws(s, p);
    let n = kw.unicode_len();
    if n == 0 || !lit(s, p1, kw) {
        return None;
    }
    let a = loop_ms_or_lb_or_lc(s, p1 + n);
    if !(a < s.len() && s[a] == '(') {
        return None;
    }
    let b = loop_ms_or_lb_or_lc(s, a + 1);
    let e = alnum(s, b);
    if e == b {
        return None;
    }
    let c = loop_ms_or_lb_or_lc(s, e);
    if c < s.len() && s[c] == ')' {
        let name = VarName::new(src.text.substring_char(b, e));
        Some((name, ws(s, c + 1)))
    } else {
        None
    }
}

/// Whitespace, `kw`, then a body (see `kw_then_body`).
fn kw_body(src: &Source, p: usize, kw: &str, first: bool) -> (res: Option<(DistConstraintBody, usize)>)
    requires
        src.wf(),
        p <= src.chars.len(),
    ensures
        match res {
            Some((e, q)) => kw_then_body(src.chars@, p as int, kw@, first) == Some((e@, q as int)) && p
                <= q <= src.chars.len(),
            None => kw_then_body(src.chars@, p as int, kw@, first) is None,
        },
    decreases src.chars.len() - p, 7int,
{
    let s = &src.chars;
    let a = if first {
        ws(s, p)
    } else {
        loop_ms_or_lb_or_lc(s, p)
    };
    let n = kw.unicode_len();
    if n == 0 || !lit(s, a, kw) {
        return None;
    }
    let b = loop_ms_or_lb_or_lc(s, a + n);
    body_at(src, b)
}

/// `if c then t else f` read at `p`.
fn body_ifelse(src: &Source, p: usize) -> (res: Option<(DistConstraintBody, usize)>)
    requires
        src.wf(),
        p <= src.chars.len(),
    ensures
        match res {
            Some((e, q)) => body_ifelse_spec(src.chars@, p as int) == Some((e@, q as int)) && p <= q
                <= src.chars.len(),
            None => body_ifelse_spec(src.chars@, p as int) is None,
        },
    decreases src.chars.len() - p, 8int,
{
    proof {
        reveal_strlit("if");
        reveal_strlit("then");
        reveal_strlit("else");
        assert("if"@ =~= kw_if());
        assert("then"@ =~= kw_then());
        assert("else"@ =~= kw_else());
    }
    let (c, q1) = match kw_body(src, p, "if", true) {
        Some(r) => r,
        None => {
            return None;
        },
    };
    let (t, q2) = match kw_body(src, q1, "then", false) {
        Some(r) => r,
        None => {
            return None;
        },
    };
    let (f, q3) = match kw_body(src, q2, "else", false) {
        Some(r) => r,
        None => {
            return None;
        },
    };
    let ghost cv = c@;
    let ghost tv = t@;
    let ghost fv = f@;
    let e = DistConstraintBody::If(Box::new(c), Box::new(t), Box::new(f));
    proof {
        assert(e@ == DistBodyV::If(Box::new(cv), Box::new(tv), Box::new(fv)));
    }
    Some((e, ws(&src.chars, q3)))
}

/// The stream of a stream index, read at `p`.
fn body_sindex_base(src: &Source, p: usize) -> (res: Option<(DistConstraintBody, usize)>)
    requires
        src.wf(),
        p <= src.chars.len(),
    ensures
        match res {
            Some((e, q)) => body_sindex_base_spec(src.chars@, p as int) == Some((e@, q as int)) && p
                <= q <= src.chars.len(),
            None => body_sindex_base_spec(src.chars@, p as int) is None,
        },
    decreases src.chars.len() - p, 7int,
{
    if let Some((v, q)) = val(src, p) {
        let ghost vv = v@;
        let e = DistConstraintBody::Val(v);
        proof {
            assert(e@ == DistBodyV::Val(vv));
        }
        return Some((e, q));
    }
    let e = alnum(&src.chars, p);
    if e > p {
        let name = VarName::new(src.text.substring_char(p, e));
        return Some((DistConstraintBody::Var(name), e));
    }
    body_paren(src, p)
}

/// `e[i, d]` read at `p` (see `body_sindex_spec`).
fn body_sindex(src: &Source, p: usize) -> (res: Option<(DistConstraintBody, usize)>)
    requires
        src.wf(),
        p <= src.chars.len(),
    ensures
        match res {
            Some((e, q)) => body_sindex_spec(src.chars@, p as int) == Some((e@, q as int)) && p <= q
                <= src.chars.len(),
            None => body_sindex_spec(src.chars@, p as int) is None,
        },
    decreases src.chars.len() - p, 8int,
{
    let s = &src.chars;
    let p1 = ws(s, p);
    let (e, q) = match body_sindex_base(src, p1) {
        Some(r) => r,
        None => {
            return None;
        },
    };
    let a = loop_ms_or_lb_or_lc(s, q);
    if !(a < s.len() && s[a] == '[') {
        return None;
    }
    let b = loop_ms_or_lb_or_lc(s, a + 1);
    let (i, q2) = match isize_at(s, b) {
        Some(r) => r,
        None => {
            return None;
        },
    };
    let c = loop_ms_or_lb_or_lc(s, q2);
    if !(c < s.len() && s[c] == ',') {
        return None;
    }
    let d = loop_ms_or_lb_or_lc(s, c + 1);
    let (v, q3) = match val(src, d) {
        Some(r) => r,
        None => {
            return None;
        },
    };
    let f = loop_ms_or_lb_or_lc(s, q3);
    if f < s.len() && s[f] == ']' {
        let ghost ev = e@;
        let ghost vv = v@;
        let node = DistConstraintBody::SIndex(Box::new(e), i, v);
        proof {
            assert(node@ == DistBodyV::SIndex(Box::new(ev), i, vv));
        }
        Some((node, f + 1))
    } else {
        None
    }
}

/// `List(e, ...)` read at `p` (see `body_list_spec`).
fn body_list(src: &Source, p: usize) -> (res: Option<(Vec<DistConstraintBody>, usize)>)
    requires
        src.wf(),
        p <= src.chars.len(),
    ensures
        match res {
            Some((es, q)) => body_list_spec(src.chars@, p as int) == Some(
                (bodies_view(es@), q as int),
            ) && p <= q <= src.chars.len(),
            None => body_list_spec(src.chars@, p as int) is None,
        },
    decreases src.chars.len() - p, 8int,
{
    let s = &src.chars;
    proof {
        reveal_strlit("List");
        assert("List"@ =~= kw_list());
    }
    if !lit(s, p, "List") {
        return None;
    }
    let a = loop_ms_or_lb_or_lc(s, p + 4);
    if !(a < s.len() && s[a] == '(') {
        return None;
    }
    let (es, r) = match body_at(src, a + 1) {
        None => (Vec::new(), a + 1),
        Some((e, q)) => {
            let mut first: Vec<DistConstraintBody> = Vec::new();
            first.push(e);
            proof {
                assert(bodies_view(first@) =~= seq![first@[0]@]);
            }
            body_items(src, first, q)
        },
    };
    proof {
        if es.len() == 0 {
            assert(bodies_view(es@) =~= Seq::<DistBodyV>::empty());
        }
    }
    if r < s.len() && s[r] == ')' {
        Some((es, r + 1))
    } else {
        None
    }
}

/// The remaining bodies of a body list.
fn body_items(src: &Source, acc: Vec<DistConstraintBody>, r: usize) -> (res: (Vec<DistConstraintBody>, usize))
    requires
        src.wf(),
        r <= src.chars.len(),
    ensures
        body_items_spec(src.chars@, bodies_view(acc@), r as int) == (bodies_view(res.0@), res.1 as int),
        r <= res.1 <= src.chars.len(),
    decreases src.chars.len() - r, 8int,
{
    let s = &src.chars;
    let c = loop_ms_or_lb_or_lc(s, r);
    if c < s.len() && s[c] == ',' {
        let d = loop_ms_or_lb_or_lc(s, c + 1);
        match body_at(src, d) {
            Some((e, q)) => {
                let ghost ev = e@;
                let mut acc2 = acc;
                acc2.push(e);
                proof {
                    assert(bodies_view(acc2@) =~= bodies_view(acc@).push(ev));
                }
                body_items(src, acc2, q)
            },
            None => (acc, r),
        }
    } else {
        (acc, r)
    }
}

/// Reads a constraint body from the start of a text: the body and the number
/// of characters read.
pub fn dist_constraint_body(text: &str) -> (res: Option<(DistConstraintBody, usize)>)
    ensures
        match res {
            Some((e, q)) => body_spec(text@, 0) == Some((e@, q as int)),
            None => body_spec(text@, 0) is None,
        },
{
    let src = Source::new(text);
    body_at(&src, 0)
}

// ---------------------------------------------------------------------------
// Constraints: `kind name: body`, one per line.
// ---------------------------------------------------------------------------

pub open spec fn kw_can_run() -> Seq<char> {
    seq!['c', 'a', 'n', '_', 'r', 'u', 'n']
}

pub open spec fn kw_locality() -> Seq<char> {
    seq!['l', 'o', 'c', 'a', 'l', 'i', 't', 'y']
}

pub open spec fn kw_redundancy() -> Seq<char> {
    seq!['r', 'e', 'd', 'u', 'n', 'd', 'a', 'n', 'c', 'y']
}

/// The kind of a constraint at `p`, with spaces and tabs around it.
pub open spec fn constraint_type_spec(s: Seq<char>, p: int) -> Option<(DistConstraintType, int)> {
    let a = ws_end(s, p);
    if lit_at(s, a, kw_can_run()) {
        Some((DistConstraintType::CanRun, ws_end(s, a + 7)))
    } else if lit_at(s, a, kw_locality()) {
        Some((DistConstraintType::LocalityScore, ws_end(s, a + 8)))
    } else if lit_at(s, a, kw_redundancy()) {
        Some((DistConstraintType::Redundancy, ws_end(s, a + 10)))
    } else {
        None
    }
}

/// A constraint at `p`: its kind, the variable it is about, `:` and its body,
/// with whitespace and comments between and spaces and tabs around.
pub open spec fn constraint_spec(s: Seq<char>, p: int) -> Option<
    (Seq<char>, DistConstraintType, DistBodyV, int),
> {
    let a = ws_end(s, p);
    match constraint_type_spec(s, a) {
        Some((k, q1)) => {
            let b = skip_end(s, q1);
            let e = alnum_end(s, b);
            if e > b {
                let c = skip_end(s, e);
                if 0 <= c < s.len() && s[c] == ':' {
                    match body_spec(s, skip_end(s, c + 1)) {
                        Some((x, q)) => Some((s.subrange(b, e), k, x, ws_end(s, q))),
                        None => None,
                    }
                } else {
                    None
                }
            } else {
                None
            }
        },
        None => None,
    }
}

/// The model of a list of read constraints.
pub open spec fn constraints_view(cs: Seq<(VarName, DistConstraint)>) -> Seq<
    (Seq<char>, DistConstraintType, DistBodyV),
> {
    Seq::new(cs.len(), |i: int| (cs[i].0@, cs[i].1.0, cs[i].1.1@))
}

/// Constraints at `p`, separated by line breaks or comments (and the
/// whitespace and comments after them): those read and where reading stopped.
pub open spec fn constraints_spec(s: Seq<char>, p: int) -> (
    Seq<(Seq<char>, DistConstraintType, DistBodyV)>,
    int,
) {
    match constraint_spec(s, p) {
        Some((n, k, x, q)) => if fwd(s, p, q) {
            constraints_rest_spec(s, seq![(n, k, x)], q)
        } else {
            (Seq::empty(), p)
        },
        None => (Seq::empty(), p),
    }
}

/// The constraints after the first.
pub open spec fn constraints_rest_spec(
    s: Seq<char>,
    acc: Seq<(Seq<char>, DistConstraintType, DistBodyV)>,
    r: int,
) -> (Seq<(Seq<char>, DistConstraintType, DistBodyV)>, int)
    decreases s.len() - r,
{
    match lb_or_lc_spec(s, r) {
        Some(a) => match constraint_spec(s, skip_end(s, a)) {
            Some((n, k, x, q)) => if r < q <= s.len() {
                constraints_rest_spec(s, acc.push((n, k, x)), q)
            } else {
                (acc, r)
            },
            None => (acc, r),
        },
        None => (acc, r),
    }
}

// ---------------------------------------------------------------------------
// Reading constraints.
// ---------------------------------------------------------------------------

/// The kind of a constraint read at `p`.
fn constraint_type(s: &Vec<char>, p: usize) -> (res: Option<(DistConstraintType, usize)>)
    requires
        p <= s.len(),
    ensures
        match res {
            Some((k, q)) => constraint_type_spec(s@, p as int) == Some((k, q as int)) && p <= q
                <= s.len(),
            None => constraint_type_spec(s@, p as int) is None,
        },
{
    proof {
        reveal_strlit("can_run");
        reveal_strlit("locality");
        reveal_strlit("redundancy");
        assert("can_run"@ =~= kw_can_run());
        assert("locality"@ =~= kw_locality());
        assert("redundancy"@ =~= kw_redundancy());
    }
    let a = ws(s, p);
    if lit(s, a, "can_run") {
        Some((DistConstraintType::CanRun, ws(s, a + 7)))
    } else if lit(s, a, "locality") {
        Some((DistConstraintType::LocalityScore, ws(s, a + 8)))
    } else if lit(s, a, "redundancy") {
        Some((DistConstraintType::Redundancy, ws(s, a + 10)))
    } else {
        None
    }
}

/// A constraint read at `p` (see `constraint_spec`).
pub fn constraint_at(src: &Source, p: usize) -> (res: Option<(VarName, DistConstraint, usize)>)
    requires
        src.wf(),
        p <= src.chars.len(),
    ensures
        match res {
            Some((n, c, q)) => constraint_spec(src.chars@, p as int) == Some(
                (n@, c.0, c.1@, q as int),
            ) && p <= q <= src.chars.len(),
            None => constraint_spec(src.chars@, p as int) is None,
        },
{
    let s = &src.chars;
    let a = ws(s, p);
    let (k, q1) = match constraint_type(s, a) {
        Some(r) => r,
        None => {
            return None;
        },
    };
    let b = loop_ms_or_lb_or_lc(s, q1);
    let e = alnum(s, b);
    if e == b {
        return None;
    }
    let c = loop_ms_or_lb_or_lc(s, e);
    if !(c < s.len() && s[c] == ':') {
        return None;
    }
    let d = loop_ms_or_lb_or_lc(s, c + 1);
    match body_at(src, d) {
        Some((x, q)) => {
            let name = VarName::new(src.text.substring_char(b, e));
            Some((name, DistConstraint(k, x), ws(s, q)))
        },
        None => None,
    }
}

/// Reads one constraint from the start of a text: the variable it is about,
/// the constraint, and the number of characters read.
pub fn dist_constraint(text: &str) -> (res: Option<(VarName, DistConstraint, usize)>)
    ensures
        match res {
            Some((n, c, q)) => constraint_spec(text@, 0) == Some((n@, c.0, c.1@, q as int)),
            None => constraint_spec(text@, 0) is None,
        },
{
    let src = Source::new(text);
    constraint_at(&src, 0)
}

/// Reads the constraints at the start of a text, one after another: the
/// constraints, each with the variable it is about, and the number of
/// characters read (see `constraints_spec`). Reading never fails: with no
/// constraint at the start, nothing is read.
pub fn dist_constraints(text: &str) -> (res: (Vec<(VarName, DistConstraint)>, usize))
    ensures
        constraints_spec(text@, 0) == (constraints_view(res.0@), res.1 as int),
{
    let src = Source::new(text);
    let s = &src.chars;
    let mut out: Vec<(VarName, DistConstraint)> = Vec::new();
    let (n, c, q) = match constraint_at(&src, 0) {
        Some(r) => r,
        None => {
            proof {
                assert(constraints_view(out@) =~= Seq::empty());
            }
            return (out, 0);
        },
    };
    let ghost first = (n@, c.0, c.1@);
    out.push((n, c));
    proof {
        assert(constraints_view(out@) =~= seq![first]);
    }
    let mut r: usize = q;
    loop
        invariant
            src.wf(),
            s == &src.chars,
            src.text == text,
            r <= s.len(),
            constraints_spec(text@, 0) == constraints_rest_spec(s@, constraints_view(out@), r as int),
        decreases s.len() - r,
    {
        let a = match lb_or_lc(s, r) {
            Some(a) => a,
            None => {
                return (out, r);
            },
        };
        let b = loop_ms_or_lb_or_lc(s, a);
        match constraint_at(&src, b) {
            Some((n2, c2, q2)) => {
                let ghost item = (n2@, c2.0, c2.1@);
                let ghost before = constraints_view(out@);
                out.push((n2, c2));
                proof {
                    assert(constraints_view(out@) =~= before.push(item));
                }
                r = q2;
            },
            None => {
                return (out, r);
            },
        }
    }
}

} // verus!

use vstd::prelude::*;

verus! {

/// A value of a typed stream, or the mark that it is not known.
#[derive(Debug, Clone, Copy, PartialEq, Eq, Structural)]
pub enum PossiblyUnknown<T> {
    Known(T),
    Unknown,
}

/// The length of the shorter of two streams.
pub open spec fn min_len(a: nat, b: nat) -> nat {
    if a <= b {
        a
    } else {
        b
    }
}

/// Applies `f` to the known values of a stream; unknown stays unknown.
pub fn unknown_lift1<S: Copy, R, F: Fn(S) -> R>(f: F, x: &Vec<PossiblyUnknown<S>>) -> (res: Vec<
    PossiblyUnknown<R>,
>)
    requires
        forall|i: int| 0 <= i < x.len() ==> (#[trigger] x@[i] matches PossiblyUnknown::Known(a) ==> f.requires((a,))),
    ensures
        res.len() == x.len(),
        forall|i: int|
            #![trigger x@[i]]
            0 <= i < x.len() ==> match x@[i] {
                PossiblyUnknown::Known(a) => res@[i] matches PossiblyUnknown::Known(c) && f.ensures((a,), c),
                PossiblyUnknown::Unknown => res@[i] is Unknown,
            },
{
    let mut out: Vec<PossiblyUnknown<R>> = Vec::new();
    let mut i: usize = 0;
    while i < x.len()
        invariant
            i <= x.len(),
            out.len() == i,
            forall|j: int| 0 <= j < x.len() ==> (#[trigger] x@[j] matches PossiblyUnknown::Known(a) ==> f.requires((a,))),
            forall|j: int|
                #![trigger x@[j]]
                0 <= j < i ==> match x@[j] {
                    PossiblyUnknown::Known(a) => out@[j] matches PossiblyUnknown::Known(c) && f.ensures((a,), c),
                    PossiblyUnknown::Unknown => out@[j] is Unknown,
                },
        decreases x.len() - i,
    {
        let next = match x[i] {
            PossiblyUnknown::Known(a) => PossiblyUnknown::Known(f(a)),
            PossiblyUnknown::Unknown => PossiblyUnknown::Unknown,
        };
        out.push(next);
        i = i + 1;
    }
    out
}

/// Applies `f` pointwise to two streams where both values are known; the
/// result is unknown where either is, and as long as the shorter stream.
pub fn unknown_lift2<S: Copy, R: Copy, U, F: Fn(S, R) -> U>(
    f: F,
    x: &Vec<PossiblyUnknown<S>>,
    y: &Vec<PossiblyUnknown<R>>,
) -> (res: Vec<PossiblyUnknown<U>>)
    requires
        forall|i: int|
            0 <= i < x.len() && i < y.len() ==> (#[trigger] x@[i] matches PossiblyUnknown::Known(a) ==> (
            y@[i] matches PossiblyUnknown::Known(b) ==> f.requires((a, b)))),
    ensures
        res.len() == min_len(x.len() as nat, y.len() as nat),
        forall|i: int|
            #![trigger x@[i]]
            0 <= i < res.len() ==> match (x@[i], y@[i]) {
                (PossiblyUnknown::Known(a), PossiblyUnknown::Known(b)) => res@[i] matches PossiblyUnknown::Known(c)
                    && f.ensures((a, b), c),
                _ => res@[i] is Unknown,
            },
{
    let n = if x.len() <= y.len() {
        x.len()
    } else {
        y.len()
    };
    let mut out: Vec<PossiblyUnknown<U>> = Vec::new();
    let mut i: usize = 0;
    while i < n
        invariant
            n == min_len(x.len() as nat, y.len() as nat),
            i <= n,
            out.len() == i,
            forall|j: int|
                0 <= j < x.len() && j < y.len() ==> (#[trigger] x@[j] matches PossiblyUnknown::Known(a) ==> (
                y@[j] matches PossiblyUnknown::Known(b) ==> f.requires((a, b)))),
            forall|j: int|
                #![trigger x@[j]]
                0 <= j < i ==> match (x@[j], y@[j]) {
                    (PossiblyUnknown::Known(a), PossiblyUnknown::Known(b)) => out@[j] matches PossiblyUnknown::Known(c)
                        && f.ensures((a, b), c),
                    _ => out@[j] is Unknown,
                },
        decreases n - i,
    {
        let next = match (x[i], y[i]) {
            (PossiblyUnknown::Known(a), PossiblyUnknown::Known(b)) => PossiblyUnknown::Known(f(a, b)),
            _ => PossiblyUnknown::Unknown,
        };
        out.push(next);
        i = i + 1;
    }
    out
}

/// The pointwise result of a binary operation `g` on two typed streams.
pub open spec fn lifted2<S, R, U>(x: Seq<PossiblyUnknown<S>>, y: Seq<PossiblyUnknown<R>>, i: int, g: spec_fn(S, R) -> U) -> PossiblyUnknown<U> {
    match (x[i], y[i]) {
        (PossiblyUnknown::Known(a), PossiblyUnknown::Known(b)) => PossiblyUnknown::Known(g(a, b)),
        _ => PossiblyUnknown::Unknown,
    }
}

fn both(a: bool, b: bool) -> (r: bool)
    ensures
        r == (a && b),
{
    a && b
}

fn either(a: bool, b: bool) -> (r: bool)
    ensures
        r == (a || b),
{
    a || b
}

fn negate(a: bool) -> (r: bool)
    ensures
        r == !a,
{
    !a
}

fn same_int(a: i64, b: i64) -> (r: bool)
    ensures
        r == (a == b),
{
    a == b
}

fn at_most(a: i64, b: i64) -> (r: bool)
    ensures
        r == (a <= b),
{
    a <= b
}

fn add_known(a: i64, b: i64) -> (r: i64)
    requires
        i64::MIN <= a + b <= i64::MAX,
    ensures
        r == a + b,
{
    a + b
}

fn sub_known(a: i64, b: i64) -> (r: i64)
    requires
        i64::MIN <= a - b <= i64::MAX,
    ensures
        r == a - b,
{
    a - b
}

fn mul_known(a: i64, b: i64) -> (r: i64)
    requires
        i64::MIN <= a * b <= i64::MAX,
    ensures
        r == a * b,
{
    a * b
}

proof fn lemma_quotient_bounds(x: int, d: int)
    requires
        x >= 0,
        d >= 1,
    ensures
        0 <= x / d <= x,
        d >= 2 ==> x / d <= x / 2,
{
    assert(0 <= x / d <= x) by (nonlinear_arith)
        requires
            x >= 0,
            d >= 1,
    ;
    if d >= 2 {
        assert(x / d <= x / 2) by (nonlinear_arith)
            requires
                x >= 0,
                d >= 2,
        ;
    }
}

proof fn lemma_trunc_div_fits(a: i64, b: i64)
    requires
        b != 0 && !(a == i64::MIN && b == -1),
    ensures
        i64::MIN <= crate::solver::trunc_div(a as int, b as int) <= i64::MAX,
{
    let x = a as int;
    let d = b as int;
    if x > 0 && d > 0 {
        lemma_quotient_bounds(x, d);
    } else if x < 0 && d < 0 {
        lemma_quotient_bounds(-x, -d);
    } else if x < 0 {
        lemma_quotient_bounds(-x, d);
    } else if x > 0 {
        lemma_quotient_bounds(x, -d);
    }
}

fn div_known(a: i64, b: i64) -> (r: i64)
    requires
        b != 0 && !(a == i64::MIN && b == -1),
    ensures
        r == crate::solver::trunc_div(a as int, b as int),
{
    proof {
        lemma_trunc_div_fits(a, b);
    }
    match a.checked_div(b) {
        Some(q) => q,
        None => 0,
    }
}

fn rem_known(a: i64, b: i64) -> (r: i64)
    requires
        b != 0 && !(a == i64::MIN && b == -1),
    ensures
        r == crate::solver::trunc_rem(a as int, b as int),
{
    match a.checked_rem(b) {
        Some(q) => q,
        None => 0,
    }
}

/// Pointwise conjunction.
pub fn and(x: &Vec<PossiblyUnknown<bool>>, y: &Vec<PossiblyUnknown<bool>>) -> (res: Vec<PossiblyUnknown<bool>>)
    ensures
        res.len() == min_len(x.len() as nat, y.len() as nat),
        forall|i: int| 0 <= i < res.len() ==> res@[i] == lifted2(x@, y@, i, |a: bool, b: bool| a && b),
{
    unknown_lift2(both, x, y)
}

/// Pointwise disjunction.
pub fn or(x: &Vec<PossiblyUnknown<bool>>, y: &Vec<PossiblyUnknown<bool>>) -> (res: Vec<PossiblyUnknown<bool>>)
    ensures
        res.len() == min_len(x.len() as nat, y.len() as nat),
        forall|i: int| 0 <= i < res.len() ==> res@[i] == lifted2(x@, y@, i, |a: bool, b: bool| a || b),
{
    unknown_lift2(either, x, y)
}

/// Pointwise negation.
pub fn not(x: &Vec<PossiblyUnknown<bool>>) -> (res: Vec<PossiblyUnknown<bool>>)
    ensures
        res.len() == x.len(),
        forall|i: int|
            0 <= i < x.len() ==> res@[i] == match x@[i] {
                PossiblyUnknown::Known(a) => PossiblyUnknown::Known(!a),
                PossiblyUnknown::Unknown => PossiblyUnknown::Unknown,
            },
{
    unknown_lift1(negate, x)
}

/// Pointwise equality of integers.
pub fn eq(x: &Vec<PossiblyUnknown<i64>>, y: &Vec<PossiblyUnknown<i64>>) -> (res: Vec<PossiblyUnknown<bool>>)
    ensures
        res.len() == min_len(x.len() as nat, y.len() as nat),
        forall|i: int| 0 <= i < res.len() ==> res@[i] == lifted2(x@, y@, i, |a: i64, b: i64| a == b),
{
    unknown_lift2(same_int, x, y)
}

/// Pointwise `<=` on integers.
pub fn le(x: &Vec<PossiblyUnknown<i64>>, y: &Vec<PossiblyUnknown<i64>>) -> (res: Vec<PossiblyUnknown<bool>>)
    ensures
        res.len() == min_len(x.len() as nat, y.len() as nat),
        forall|i: int| 0 <= i < res.len() ==> res@[i] == lifted2(x@, y@, i, |a: i64, b: i64| a <= b),
{
    unknown_lift2(at_most, x, y)
}

/// Whether an integer operation stays in range wherever both values are known.
pub open spec fn fits_pointwise(x: Seq<PossiblyUnknown<i64>>, y: Seq<PossiblyUnknown<i64>>, g: spec_fn(int, int) -> int) -> bool {
    forall|i: int|
        0 <= i < x.len() && i < y.len() ==> (#[trigger] x[i] matches PossiblyUnknown::Known(a) ==> (
        y[i] matches PossiblyUnknown::Known(b) ==> i64::MIN <= g(a as int, b as int) <= i64::MAX))
}

/// Pointwise sum.
pub fn plus(x: &Vec<PossiblyUnknown<i64>>, y: &Vec<PossiblyUnknown<i64>>) -> (res: Vec<PossiblyUnknown<i64>>)
    requires
        fits_pointwise(x@, y@, |a: int, b: int| a + b),
    ensures
        res.len() == min_len(x.len() as nat, y.len() as nat),
        forall|i: int| 0 <= i < res.len() ==> res@[i] == lifted2(x@, y@, i, |a: i64, b: i64| (a + b) as i64),
{
    unknown_lift2(
        add_known,
        x,
        y,
    )
}

/// Pointwise difference.
pub fn minus(x: &Vec<PossiblyUnknown<i64>>, y: &Vec<PossiblyUnknown<i64>>) -> (res: Vec<PossiblyUnknown<i64>>)
    requires
        fits_pointwise(x@, y@, |a: int, b: int| a - b),
    ensures
        res.len() == min_len(x.len() as nat, y.len() as nat),
        forall|i: int| 0 <= i < res.len() ==> res@[i] == lifted2(x@, y@, i, |a: i64, b: i64| (a - b) as i64),
{
    unknown_lift2(
        sub_known,
        x,
        y,
    )
}

/// Pointwise product.
pub fn mult(x: &Vec<PossiblyUnknown<i64>>, y: &Vec<PossiblyUnknown<i64>>) -> (res: Vec<PossiblyUnknown<i64>>)
    requires
        fits_pointwise(x@, y@, |a: int, b: int| a * b),
    ensures
        res.len() == min_len(x.len() as nat, y.len() as nat),
        forall|i: int| 0 <= i < res.len() ==> res@[i] == lifted2(x@, y@, i, |a: i64, b: i64| (a * b) as i64),
{
    unknown_lift2(
        mul_known,
        x,
        y,
    )
}

/// Whether no known divisor is zero and no known quotient overflows.
pub open spec fn divisible_pointwise(x: Seq<PossiblyUnknown<i64>>, y: Seq<PossiblyUnknown<i64>>) -> bool {
    forall|i: int|
        0 <= i < x.len() && i < y.len() ==> (#[trigger] x[i] matches PossiblyUnknown::Known(a) ==> (
        y[i] matches PossiblyUnknown::Known(b) ==> b != 0 && !(a == i64::MIN && b == -1)))
}

/// Pointwise integer division (rounding toward zero).
pub fn div(x: &Vec<PossiblyUnknown<i64>>, y: &Vec<PossiblyUnknown<i64>>) -> (res: Vec<PossiblyUnknown<i64>>)
    requires
        divisible_pointwise(x@, y@),
    ensures
        res.len() == min_len(x.len() as nat, y.len() as nat),
        forall|i: int|
            0 <= i < res.len() ==> res@[i] == lifted2(
                x@,
                y@,
                i,
                |a: i64, b: i64| crate::solver::trunc_div(a as int, b as int) as i64,
            ),
{
    unknown_lift2(
        div_known,
        x,
        y,
    )
}

/// Pointwise remainder (with the sign of the dividend).
pub fn modulo(x: &Vec<PossiblyUnknown<i64>>, y: &Vec<PossiblyUnknown<i64>>) -> (res: Vec<PossiblyUnknown<i64>>)
    requires
        divisible_pointwise(x@, y@),
    ensures
        res.len() == min_len(x.len() as nat, y.len() as nat),
        forall|i: int|
            0 <= i < res.len() ==> res@[i] == lifted2(
                x@,
                y@,
                i,
                |a: i64, b: i64| crate::solver::trunc_rem(a as int, b as int) as i64,
            ),
{
    unknown_lift2(
        rem_known,
        x,
        y,
    )
}

/// Pointwise concatenation of strings.
pub fn concat(x: &Vec<PossiblyUnknown<String>>, y: &Vec<PossiblyUnknown<String>>) -> (res: Vec<
    PossiblyUnknown<String>,
>)
    ensures
        res.len() == min_len(x.len() as nat, y.len() as nat),
        forall|i: int|
            #![trigger x@[i]]
            0 <= i < res.len() ==> match (x@[i], y@[i]) {
                (PossiblyUnknown::Known(a), PossiblyUnknown::Known(b)) => res@[i] matches PossiblyUnknown::Known(c)
                    && c@ == a@ + b@,
                _ => res@[i] is Unknown,
            },
{
    let n = if x.len() <= y.len() {
        x.len()
    } else {
        y.len()
    };
    let mut out: Vec<PossiblyUnknown<String>> = Vec::new();
    let mut i: usize = 0;
    while i < n
        invariant
            n == min_len(x.len() as nat, y.len() as nat),
            i <= n,
            out.len() == i,
            forall|j: int|
                #![trigger x@[j]]
                0 <= j < i ==> match (x@[j], y@[j]) {
                    (PossiblyUnknown::Known(a), PossiblyUnknown::Known(b)) => out@[j] matches PossiblyUnknown::Known(c)
                        && c@ == a@ + b@,
                    _ => out@[j] is Unknown,
                },
        decreases n - i,
    {
        let next = match (&x[i], &y[i]) {
            (PossiblyUnknown::Known(a), PossiblyUnknown::Known(b)) => {
                let mut c = a.clone();
                c.append(b.as_str());
                PossiblyUnknown::Known(c)
            },
            _ => PossiblyUnknown::Unknown,
        };
        out.push(next);
        i = i + 1;
    }
    out
}

/// The constant stream of `x`, its first `n` values.
pub fn val<X: Copy>(x: X, n: usize) -> (res: Vec<X>)
    ensures
        res.len() == n,
        forall|i: int| 0 <= i < n ==> res@[i] == x,
{
    let mut out: Vec<X> = Vec::new();
    let mut i: usize = 0;
    while i < n
        invariant
            i <= n,
            out.len() == i,
            forall|j: int| 0 <= j < i ==> out@[j] == x,
        decreases n - i,
    {
        out.push(x);
        i = i + 1;
    }
    out
}

/// Pointwise choice: `y` where `x` is true, `z` where it is false, unknown
/// where `x` is unknown; as long as the shortest of the three.
pub fn if_stm<X: Copy>(
    x: &Vec<PossiblyUnknown<bool>>,
    y: &Vec<PossiblyUnknown<X>>,
    z: &Vec<PossiblyUnknown<X>>,
) -> (res: Vec<PossiblyUnknown<X>>)
    ensures
        res.len() == min_len(min_len(x.len() as nat, y.len() as nat), z.len() as nat),
        forall|i: int|
            #![trigger res@[i]]
            0 <= i < res.len() ==> res@[i] == match x@[i] {
                PossiblyUnknown::Known(true) => y@[i],
                PossiblyUnknown::Known(false) => z@[i],
                PossiblyUnknown::Unknown => PossiblyUnknown::Unknown,
            },
{
    let n0 = if x.len() <= y.len() {
        x.len()
    } else {
        y.len()
    };
    let n = if n0 <= z.len() {
        n0
    } else {
        z.len()
    };
    let mut out: Vec<PossiblyUnknown<X>> = Vec::new();
    let mut i: usize = 0;
    while i < n
        invariant
            n == min_len(min_len(x.len() as nat, y.len() as nat), z.len() as nat),
            i <= n,
            out.len() == i,
            forall|j: int|
                #![trigger out@[j]]
                0 <= j < i ==> out@[j] == match x@[j] {
                    PossiblyUnknown::Known(true) => y@[j],
                    PossiblyUnknown::Known(false) => z@[j],
                    PossiblyUnknown::Unknown => PossiblyUnknown::Unknown,
                },
        decreases n - i,
    {
        let next = match x[i] {
            PossiblyUnknown::Known(true) => y[i],
            PossiblyUnknown::Known(false) => z[i],
            PossiblyUnknown::Unknown => PossiblyUnknown::Unknown,
        };
        out.push(next);
        i = i + 1;
    }
    out
}

/// Pointwise default: the value of `x` where it is known, else that of `d`.
pub fn default<X: Copy>(x: &Vec<PossiblyUnknown<X>>, d: &Vec<PossiblyUnknown<X>>) -> (res: Vec<
    PossiblyUnknown<X>,
>)
    ensures
        res.len() == min_len(x.len() as nat, d.len() as nat),
        forall|i: int|
            #![trigger res@[i]]
            0 <= i < res.len() ==> res@[i] == match x@[i] {
                PossiblyUnknown::Known(a) => PossiblyUnknown::Known(a),
                PossiblyUnknown::Unknown => d@[i],
            },
{
    let n = if x.len() <= d.len() {
        x.len()
    } else {
        d.len()
    };
    let mut out: Vec<PossiblyUnknown<X>> = Vec::new();
    let mut i: usize = 0;
    while i < n
        invariant
            n == min_len(x.len() as nat, d.len() as nat),
            i <= n,
            out.len() == i,
            forall|j: int|
                #![trigger out@[j]]
                0 <= j < i ==> out@[j] == match x@[j] {
                    PossiblyUnknown::Known(a) => PossiblyUnknown::Known(a),
                    PossiblyUnknown::Unknown => d@[j],
                },
        decreases n - i,
    {
        let next = match x[i] {
            PossiblyUnknown::Known(a) => PossiblyUnknown::Known(a),
            PossiblyUnknown::Unknown => d[i],
        };
        out.push(next);
        i = i + 1;
    }
    out
}

/// The stream shifted by `i`: for `i < 0`, `|i|` copies of `c` followed by
/// `x`; otherwise `x` without its first `i` values, followed by `i` copies of `c`.
pub open spec fn shifted<X>(x: Seq<X>, i: int, c: X) -> Seq<X> {
    let n = if i < 0 {
        -i
    } else {
        i
    };
    if i < 0 {
        Seq::new(n as nat, |_j: int| c) + x
    } else if n <= x.len() {
        x.skip(n) + Seq::new(n as nat, |_j: int| c)
    } else {
        Seq::new(n as nat, |_j: int| c)
    }
}

/// A stream index on a finite stream (see `shifted`).
pub fn sindex<X: Copy>(x: &Vec<X>, i: isize, c: X) -> (res: Vec<X>)
    requires
        i > isize::MIN,
    ensures
        res@ == shifted(x@, i as int, c),
{
    let n: usize = if i < 0 {
        (-i) as usize
    } else {
        i as usize
    };
    let mut out: Vec<X> = Vec::new();
    if i < 0 {
        let cs = val(c, n);
        let mut k: usize = 0;
        while k < n
            invariant
                k <= n,
                cs.len() == n,
                forall|j: int| 0 <= j < n ==> cs@[j] == c,
                out@ == Seq::new(k as nat, |_j: int| c),
            decreases n - k,
        {
            out.push(c);
            proof {
                assert(out@ =~= Seq::new((k + 1) as nat, |_j: int| c));
            }
            k = k + 1;
        }
        let mut j: usize = 0;
        while j < x.len()
            invariant
                j <= x.len(),
                out@ == Seq::new(n as nat, |_j: int| c) + x@.take(j as int),
            decreases x.len() - j,
        {
            out.push(x[j]);
            proof {
                assert(out@ =~= Seq::new(n as nat, |_j: int| c) + x@.take(j + 1));
            }
            j = j + 1;
        }
        proof {
            assert(x@.take(x.len() as int) =~= x@);
        }
    } else {
        let start = if n <= x.len() {
            n
        } else {
            x.len()
        };
        let mut j: usize = start;
        proof {
            assert(out@ =~= x@.subrange(start as int, start as int));
        }
        while j < x.len()
            invariant
                start <= j <= x.len(),
                out@ == x@.subrange(start as int, j as int),
            decreases x.len() - j,
        {
            out.push(x[j]);
            proof {
                assert(out@ =~= x@.subrange(start as int, j + 1));
            }
            j = j + 1;
        }
        let ghost prefix = out@;
        let mut k: usize = 0;
        while k < n
            invariant
                k <= n,
                out@ == prefix + Seq::new(k as nat, |_j: int| c),
            decreases n - k,
        {
            out.push(c);
            proof {
                assert(out@ =~= prefix + Seq::new((k + 1) as nat, |_j: int| c));
            }
            k = k + 1;
        }
        proof {
            if n <= x.len() {
                assert(prefix =~= x@.skip(n as int));
            } else {
                assert(prefix =~= Seq::<X>::empty());
                assert(out@ =~= Seq::new(n as nat, |_j: int| c));
            }
        }
    }
    out
}

} // verus!

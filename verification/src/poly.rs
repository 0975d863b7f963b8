//! Polynomials with integer coefficients, read modulo a prime.
//!
//! A polynomial is the sequence of its coefficients, constant term first.
//! Evaluation stays in the integers; two polynomials are the same modulo `m`
//! when they are congruent at every point.
use vstd::arithmetic::div_mod::*;
use vstd::arithmetic::mul::*;
use vstd::arithmetic::power::*;
use vstd::prelude::*;

use crate::arith;

verus! {

/// The value of the polynomial `p` at `x`.
pub open spec fn eval(p: Seq<int>, x: int) -> int
    decreases p.len(),
{
    if p.len() == 0 {
        0
    } else {
        eval(p.drop_last(), x) + p.last() * pow(x, (p.len() - 1) as nat)
    }
}

/// Every coefficient is a residue of `m`.
pub open spec fn reduced(p: Seq<int>, m: int) -> bool {
    forall|i: int| 0 <= i < p.len() ==> 0 <= #[trigger] p[i] < m
}

/// Every coefficient is a multiple of `m`.
pub open spec fn vanishes(p: Seq<int>, m: int) -> bool {
    forall|i: int| 0 <= i < p.len() ==> #[trigger] p[i] % m == 0
}

/// No two of the points are congruent modulo `m`.
pub open spec fn distinct(xs: Seq<int>, m: int) -> bool {
    forall|i: int, j: int|
        #![trigger xs[i], xs[j]]
        0 <= i < j < xs.len() ==> (xs[i] - xs[j]) % m != 0
}

/// The polynomial `p` takes the values `ys` at the points `xs`.
pub open spec fn passes(p: Seq<int>, xs: Seq<int>, ys: Seq<int>, m: int) -> bool {
    forall|i: int| 0 <= i < xs.len() ==> eval(p, #[trigger] xs[i]) % m == ys[i] % m
}

/// The coefficients of `p` as residues of `m`.
pub open spec fn reduce(p: Seq<int>, m: int) -> Seq<int> {
    Seq::new(p.len(), |i: int| p[i] % m)
}

/// The coefficient of `x^i`, zero beyond the end.
pub open spec fn coeff(p: Seq<int>, i: int) -> int {
    if 0 <= i < p.len() {
        p[i]
    } else {
        0
    }
}

/// The sum of two polynomials.
pub open spec fn plus(p: Seq<int>, q: Seq<int>) -> Seq<int> {
    Seq::new(
        if p.len() > q.len() {
            p.len()
        } else {
            q.len()
        },
        |i: int| coeff(p, i) + coeff(q, i),
    )
}

/// The polynomial `p` times the number `c`.
pub open spec fn scale(c: int, p: Seq<int>) -> Seq<int> {
    Seq::new(p.len(), |i: int| c * p[i])
}

/// The polynomial `p` times `x^k`.
pub open spec fn shift(p: Seq<int>, k: nat) -> Seq<int> {
    Seq::new(p.len() + k, |i: int| coeff(p, i - k))
}

/// The product of two polynomials.
pub open spec fn times(p: Seq<int>, q: Seq<int>) -> Seq<int>
    decreases p.len(),
{
    if p.len() == 0 {
        seq![]
    } else {
        plus(times(p.drop_last(), q), shift(scale(p.last(), q), (p.len() - 1) as nat))
    }
}

/// The product of `x - r` over the roots `rs`.
pub open spec fn from_roots(rs: Seq<int>) -> Seq<int>
    decreases rs.len(),
{
    if rs.len() == 0 {
        seq![1int]
    } else {
        times(from_roots(rs.drop_last()), seq![-rs.last(), 1int])
    }
}

/// The quotient of `p` by `x - a`.
spec fn synthetic(p: Seq<int>, a: int) -> Seq<int>
    decreases p.len(),
{
    if p.len() <= 1 {
        seq![]
    } else {
        seq![eval(p.drop_first(), a)] + synthetic(p.drop_first(), a)
    }
}

/// The polynomial of degree below the number of points that passes through
/// them, with residues for coefficients.
pub open spec fn interpolant(xs: Seq<int>, ys: Seq<int>, m: int) -> Seq<int> {
    choose|p: Seq<int>| p.len() == xs.len() && reduced(p, m) && #[trigger] passes(p, xs, ys, m)
}

// ---------------------------------------------------------------------------
// Evaluation
// ---------------------------------------------------------------------------

/// One more coefficient.
pub proof fn eval_push(p: Seq<int>, c: int, x: int)
    ensures
        eval(p.push(c), x) == eval(p, x) + c * pow(x, p.len()),
{
    assert(p.push(c).drop_last() =~= p);
}

/// Horner's rule.
pub proof fn eval_front(p: Seq<int>, x: int)
    requires
        p.len() > 0,
    ensures
        eval(p, x) == p[0] + x * eval(p.drop_first(), x),
    decreases p.len(),
{
    let rest = p.drop_first();
    if p.len() == 1 {
        assert(p.drop_last() =~= Seq::<int>::empty());
        assert(rest =~= Seq::<int>::empty());
        lemma_pow0(x);
        assert(eval(p.drop_last(), x) == 0);
        assert(eval(rest, x) == 0);
        assert(x * 0 == 0);
        assert(p.last() * 1 == p[0]);
    } else {
        let init = p.drop_last();
        eval_front(init, x);
        assert(init.drop_first() =~= rest.drop_last());
        let k = (p.len() - 1) as nat;
        lemma_pow_adds(x, 1, (k - 1) as nat);
        lemma_pow1(x);
        let a = eval(rest.drop_last(), x);
        let c = p.last();
        let w = pow(x, (k - 1) as nat);
        assert(p[0] + x * a + c * (x * w) == p[0] + x * (a + c * w)) by (nonlinear_arith);
    }
}

/// The value at zero is the constant term.
pub proof fn eval_zero(p: Seq<int>)
    ensures
        eval(p, 0) == coeff(p, 0),
{
    if p.len() > 0 {
        eval_front(p, 0);
        lemma_mul_basics(eval(p.drop_first(), 0));
    }
}

/// Zeros at the end do not matter.
proof fn eval_pad(p: Seq<int>, q: Seq<int>, x: int)
    requires
        p.len() <= q.len(),
        forall|i: int| 0 <= i < q.len() ==> #[trigger] q[i] == coeff(p, i),
    ensures
        eval(q, x) == eval(p, x),
    decreases q.len(),
{
    if p.len() == q.len() {
        assert(p =~= q);
    } else {
        eval_pad(p, q.drop_last(), x);
        lemma_mul_basics(pow(x, (q.len() - 1) as nat));
    }
}

proof fn eval_plus_same(p: Seq<int>, q: Seq<int>, x: int)
    requires
        p.len() == q.len(),
    ensures
        eval(plus(p, q), x) == eval(p, x) + eval(q, x),
    decreases p.len(),
{
    if p.len() > 0 {
        eval_plus_same(p.drop_last(), q.drop_last(), x);
        assert(plus(p, q).drop_last() =~= plus(p.drop_last(), q.drop_last()));
        let w = pow(x, (p.len() - 1) as nat);
        lemma_mul_is_distributive_add_other_way(w, p.last(), q.last());
    }
}

pub proof fn eval_plus(p: Seq<int>, q: Seq<int>, x: int)
    ensures
        eval(plus(p, q), x) == eval(p, x) + eval(q, x),
{
    let n = plus(p, q).len();
    let pp = Seq::new(n, |i: int| coeff(p, i));
    let qq = Seq::new(n, |i: int| coeff(q, i));
    eval_pad(p, pp, x);
    eval_pad(q, qq, x);
    eval_plus_same(pp, qq, x);
    assert(plus(pp, qq) =~= plus(p, q));
}

pub proof fn eval_scale(c: int, p: Seq<int>, x: int)
    ensures
        eval(scale(c, p), x) == c * eval(p, x),
    decreases p.len(),
{
    if p.len() > 0 {
        eval_scale(c, p.drop_last(), x);
        assert(scale(c, p).drop_last() =~= scale(c, p.drop_last()));
        let w = pow(x, (p.len() - 1) as nat);
        let a = eval(p.drop_last(), x);
        assert(c * a + (c * p.last()) * w == c * (a + p.last() * w)) by (nonlinear_arith);
    } else {
        lemma_mul_basics(c);
    }
}

pub proof fn eval_shift(p: Seq<int>, k: nat, x: int)
    ensures
        eval(shift(p, k), x) == eval(p, x) * pow(x, k),
    decreases p.len(),
{
    let s = shift(p, k);
    if p.len() == 0 {
        eval_pad(p, s, x);
        lemma_mul_basics(pow(x, k));
    } else {
        eval_shift(p.drop_last(), k, x);
        assert(s.drop_last() =~= shift(p.drop_last(), k));
        let n = (p.len() - 1) as nat;
        lemma_pow_adds(x, n, k);
        let a = eval(p.drop_last(), x);
        let c = p.last();
        let v = pow(x, n);
        let w = pow(x, k);
        assert(s.last() == c);
        assert(a * w + c * (v * w) == (a + c * v) * w) by (nonlinear_arith);
    }
}

/// The product has the expected length, values and leading coefficient.
pub proof fn times_is_product(p: Seq<int>, q: Seq<int>)
    requires
        p.len() > 0,
        q.len() > 0,
    ensures
        times(p, q).len() == p.len() + q.len() - 1,
        times(p, q).last() == p.last() * q.last(),
        forall|x: int| #[trigger] eval(times(p, q), x) == eval(p, x) * eval(q, x),
    decreases p.len(),
{
    let init = p.drop_last();
    let k = (p.len() - 1) as nat;
    let top = shift(scale(p.last(), q), k);
    if init.len() == 0 {
        assert(times(init, q) =~= Seq::<int>::empty());
    } else {
        times_is_product(init, q);
    }
    assert(top.last() == p.last() * q.last());
    assert forall|x: int| #[trigger] eval(times(p, q), x) == eval(p, x) * eval(q, x) by {
        eval_plus(times(init, q), top, x);
        eval_shift(scale(p.last(), q), k, x);
        eval_scale(p.last(), q, x);
        if init.len() == 0 {
            lemma_mul_basics(eval(q, x));
        }
        let a = eval(init, x);
        let c = p.last();
        let w = pow(x, k);
        let b = eval(q, x);
        assert(a * b + (c * b) * w == (a + c * w) * b) by (nonlinear_arith);
    }
}

pub proof fn eval_pair(a: int, b: int, x: int)
    ensures
        eval(seq![a, b], x) == a + b * x,
{
    let s = seq![a, b];
    assert(s.drop_last() =~= seq![a]);
    assert(seq![a].drop_last() =~= Seq::<int>::empty());
    lemma_pow0(x);
    lemma_pow1(x);
    assert(eval(Seq::<int>::empty(), x) == 0);
    assert(eval(seq![a], x) == a * 1);
}

/// Congruent coefficients and points give congruent values.
pub proof fn eval_cong(p: Seq<int>, q: Seq<int>, x: int, y: int, m: int)
    requires
        m > 0,
        p.len() == q.len(),
        forall|i: int| 0 <= i < p.len() ==> #[trigger] p[i] % m == q[i] % m,
        x % m == y % m,
    ensures
        eval(p, x) % m == eval(q, y) % m,
    decreases p.len(),
{
    if p.len() > 0 {
        let k = (p.len() - 1) as nat;
        assert forall|i: int| 0 <= i < k implies #[trigger] p.drop_last()[i] % m
            == q.drop_last()[i] % m by {
            assert(p[i] % m == q[i] % m);
        }
        eval_cong(p.drop_last(), q.drop_last(), x, y, m);
        arith::cong_pow(x, y, k, m);
        arith::cong_mul(p.last(), q.last(), pow(x, k), pow(y, k), m);
        arith::cong_add(
            eval(p.drop_last(), x),
            eval(q.drop_last(), y),
            p.last() * pow(x, k),
            q.last() * pow(y, k),
            m,
        );
    }
}

pub proof fn eval_reduce(p: Seq<int>, x: int, m: int)
    requires
        m > 0,
    ensures
        reduced(reduce(p, m), m),
        reduce(p, m).len() == p.len(),
        eval(reduce(p, m), x) % m == eval(p, x) % m,
{
    assert forall|i: int| 0 <= i < p.len() implies #[trigger] reduce(p, m)[i] % m == p[i] % m
        && 0 <= reduce(p, m)[i] < m by {
        arith::mod_idem(p[i], m);
    }
    eval_cong(reduce(p, m), p, x, x, m);
}

/// A vanishing polynomial has the value zero everywhere.
pub proof fn eval_vanishing(p: Seq<int>, x: int, m: int)
    requires
        m > 0,
        vanishes(p, m),
    ensures
        eval(p, x) % m == 0,
{
    let z = scale(0, p);
    arith::mod_small(0, m);
    assert forall|i: int| 0 <= i < p.len() implies #[trigger] p[i] % m == z[i] % m by {
        lemma_mul_basics(p[i]);
    }
    eval_cong(p, z, x, x, m);
    eval_scale(0, p, x);
    lemma_mul_basics(eval(p, x));
}

// ---------------------------------------------------------------------------
// Roots
// ---------------------------------------------------------------------------

proof fn synthetic_division(p: Seq<int>, a: int, x: int)
    ensures
        p.len() > 0 ==> synthetic(p, a).len() == p.len() - 1,
        eval(p, x) - eval(p, a) == (x - a) * eval(synthetic(p, a), x),
    decreases p.len(),
{
    if p.len() == 0 {
        lemma_mul_basics(x - a);
    } else {
        eval_front(p, x);
        eval_front(p, a);
        let rest = p.drop_first();
        if p.len() == 1 {
            assert(rest =~= Seq::<int>::empty());
            lemma_mul_basics(x - a);
            lemma_mul_basics(x);
            lemma_mul_basics(a);
        } else {
            synthetic_division(rest, a, x);
            let q = synthetic(p, a);
            let r = synthetic(rest, a);
            eval_front(q, x);
            assert(q.drop_first() =~= r);
            let s = eval(rest, x);
            let t = eval(rest, a);
            let w = eval(r, x);
            assert(x * s - a * t == (x - a) * (t + x * w)) by (nonlinear_arith)
                requires
                    s - t == (x - a) * w,
            ;
        }
    }
}

/// If the quotient by `x - a` and the remainder vanish, so does `p`.
proof fn synthetic_vanishes(p: Seq<int>, a: int, m: int)
    requires
        m > 0,
        vanishes(synthetic(p, a), m),
        eval(p, a) % m == 0,
    ensures
        vanishes(p, m),
    decreases p.len(),
{
    if p.len() > 0 {
        let rest = p.drop_first();
        eval_front(p, a);
        arith::mod_small(0, m);
        if p.len() == 1 {
            assert(rest =~= Seq::<int>::empty());
            lemma_mul_basics(a);
            assert(p[0] % m == 0);
        } else {
            let q = synthetic(p, a);
            synthetic_division(p, a, 0);
            synthetic_division(rest, a, 0);
            assert(q[0] % m == 0);
            assert forall|i: int| 0 <= i < synthetic(rest, a).len() implies #[trigger] synthetic(
                rest,
                a,
            )[i] % m == 0 by {
                assert(q[i + 1] % m == 0);
            }
            synthetic_vanishes(rest, a, m);
            let t = eval(rest, a);
            arith::cong_mul(a, a, t, 0, m);
            arith::cong_sub(eval(p, a), 0, a * t, 0, m);
            assert(p[0] % m == 0);
        }
        assert forall|i: int| 0 <= i < p.len() implies #[trigger] p[i] % m == 0 by {
            if i > 0 {
                assert(rest[i - 1] % m == 0);
            }
        }
    }
}

/// A polynomial with at least as many roots as coefficients vanishes.
pub proof fn too_many_roots(p: Seq<int>, xs: Seq<int>, m: int)
    requires
        arith::is_prime(m),
        p.len() <= xs.len(),
        distinct(xs, m),
        forall|i: int| 0 <= i < xs.len() ==> eval(p, #[trigger] xs[i]) % m == 0,
    ensures
        vanishes(p, m),
    decreases p.len(),
{
    if p.len() > 0 {
        let a = xs.last();
        let q = synthetic(p, a);
        let init = xs.drop_last();
        synthetic_division(p, a, 0);
        assert forall|i: int| 0 <= i < init.len() implies eval(q, #[trigger] init[i]) % m == 0 by {
            let x = init[i];
            assert(x == xs[i]);
            synthetic_division(p, a, x);
            arith::cong_sub(eval(p, x), 0, eval(p, a), 0, m);
            arith::mod_small(0, m);
            assert((xs[i] - xs[xs.len() - 1]) % m != 0);
            arith::euclid(x - a, eval(q, x), m);
        }
        assert forall|i: int, j: int|
            #![trigger init[i], init[j]]
            0 <= i < j < init.len() implies (init[i] - init[j]) % m != 0 by {
            assert((xs[i] - xs[j]) % m != 0);
        }
        too_many_roots(q, init, m);
        synthetic_vanishes(p, a, m);
    }
}

/// A polynomial that is zero everywhere vanishes.
pub proof fn zero_everywhere(p: Seq<int>, m: int)
    requires
        arith::is_prime(m),
        p.len() <= m,
        forall|x: int| #[trigger] eval(p, x) % m == 0,
    ensures
        vanishes(p, m),
{
    let xs = Seq::new(p.len(), |i: int| i);
    assert forall|i: int, j: int|
        #![trigger xs[i], xs[j]]
        0 <= i < j < xs.len() implies (xs[i] - xs[j]) % m != 0 by {
        lemma_mod_add_multiples_vanish(i - j, m);
        arith::mod_small(m + i - j, m);
    }
    too_many_roots(p, xs, m);
}

/// The difference of two polynomials.
pub open spec fn minus(p: Seq<int>, q: Seq<int>) -> Seq<int> {
    plus(p, scale(-1, q))
}

pub proof fn eval_minus(p: Seq<int>, q: Seq<int>, x: int)
    ensures
        eval(minus(p, q), x) == eval(p, x) - eval(q, x),
        minus(p, q).len() == (if p.len() > q.len() {
            p.len()
        } else {
            q.len()
        }),
{
    eval_plus(p, scale(-1, q), x);
    eval_scale(-1, q, x);
}

/// A vanishing difference means congruent coefficients.
pub proof fn minus_vanishes(p: Seq<int>, q: Seq<int>, m: int)
    requires
        m > 0,
        p.len() == q.len(),
        vanishes(minus(p, q), m),
    ensures
        forall|i: int| 0 <= i < p.len() ==> #[trigger] p[i] % m == q[i] % m,
        reduced(p, m) && reduced(q, m) ==> p == q,
{
    let d = minus(p, q);
    assert forall|i: int| 0 <= i < p.len() implies #[trigger] p[i] % m == q[i] % m by {
        assert(d[i] == p[i] + -1 * q[i]);
        assert(d[i] % m == 0);
        lemma_mod_equivalence(p[i], q[i], m);
    }
    if reduced(p, m) && reduced(q, m) {
        assert forall|i: int| 0 <= i < p.len() implies p[i] == q[i] by {
            assert(p[i] % m == q[i] % m);
            arith::mod_small(p[i], m);
            arith::mod_small(q[i], m);
        }
        assert(p =~= q);
    }
}

/// Two polynomials of the same length that agree at that many points have
/// congruent coefficients.
pub proof fn agreement(p: Seq<int>, q: Seq<int>, xs: Seq<int>, m: int)
    requires
        arith::is_prime(m),
        p.len() == q.len(),
        p.len() <= xs.len(),
        distinct(xs, m),
        forall|i: int| 0 <= i < xs.len() ==> eval(p, #[trigger] xs[i]) % m == eval(q, xs[i]) % m,
    ensures
        vanishes(minus(p, q), m),
        forall|i: int| 0 <= i < p.len() ==> #[trigger] p[i] % m == q[i] % m,
        forall|x: int| #[trigger] eval(p, x) % m == eval(q, x) % m,
        reduced(p, m) && reduced(q, m) ==> p == q,
{
    let d = minus(p, q);
    eval_minus(p, q, 0);
    assert forall|i: int| 0 <= i < xs.len() implies eval(d, #[trigger] xs[i]) % m == 0 by {
        eval_minus(p, q, xs[i]);
        lemma_mod_equivalence(eval(p, xs[i]), eval(q, xs[i]), m);
    }
    too_many_roots(d, xs, m);
    minus_vanishes(p, q, m);
    assert forall|x: int| #[trigger] eval(p, x) % m == eval(q, x) % m by {
        eval_cong(p, q, x, x, m);
    }
}

/// A multiple of `d` of lower degree than `d` is the zero multiple.
pub proof fn low_multiple(a: Seq<int>, d: Seq<int>, r: Seq<int>, m: int)
    requires
        arith::is_prime(m),
        r.len() < d.len(),
        a.len() + d.len() <= m,
        d.last() % m != 0,
        forall|x: int| #[trigger] eval(r, x) % m == (eval(a, x) * eval(d, x)) % m,
    ensures
        vanishes(a, m),
    decreases a.len(),
{
    if a.len() > 0 {
        times_is_product(a, d);
        let s = times(a, d);
        let z = minus(s, r);
        eval_minus(s, r, 0);
        assert forall|x: int| #[trigger] eval(z, x) % m == 0 by {
            eval_minus(s, r, x);
            assert(eval(r, x) % m == (eval(a, x) * eval(d, x)) % m);
            lemma_mod_equivalence(eval(s, x), eval(r, x), m);
        }
        zero_everywhere(z, m);
        let top = s.len() - 1;
        assert(z[top] == s[top] + coeff(scale(-1, r), top));
        assert(z[top] % m == 0);
        arith::euclid(a.last(), d.last(), m);
        let init = a.drop_last();
        let k = (a.len() - 1) as nat;
        assert forall|x: int| #[trigger] eval(r, x) % m == (eval(init, x) * eval(d, x)) % m by {
            arith::mod_small(0, m);
            arith::cong_mul(a.last(), 0, pow(x, k), pow(x, k), m);
            lemma_mul_basics(pow(x, k));
            arith::cong_add(eval(init, x), eval(init, x), a.last() * pow(x, k), 0, m);
            arith::cong_mul(eval(a, x), eval(init, x), eval(d, x), eval(d, x), m);
        }
        low_multiple(init, d, r, m);
        assert forall|i: int| 0 <= i < a.len() implies #[trigger] a[i] % m == 0 by {
            if i < k {
                assert(init[i] % m == 0);
            }
        }
    }
}

/// The monic polynomial with given roots.
#[verifier::rlimit(40)]
pub proof fn from_roots_eval(rs: Seq<int>, m: int)
    requires
        arith::is_prime(m),
    ensures
        from_roots(rs).len() == rs.len() + 1,
        from_roots(rs).last() == 1,
        forall|i: int| 0 <= i < rs.len() ==> eval(from_roots(rs), #[trigger] rs[i]) == 0,
        forall|x: int|
            (forall|i: int| 0 <= i < rs.len() ==> (x - #[trigger] rs[i]) % m != 0)
                ==> #[trigger] eval(from_roots(rs), x) % m != 0,
    decreases rs.len(),
{
    if rs.len() == 0 {
        assert forall|x: int| #[trigger] eval(from_roots(rs), x) % m != 0 by {
            assert(seq![1int].drop_last() =~= Seq::<int>::empty());
            lemma_pow0(x);
            assert(eval(Seq::<int>::empty(), x) == 0);
            arith::mod_small(1, m);
        }
    } else {
        let init = rs.drop_last();
        let a = rs.last();
        let f = seq![-a, 1int];
        from_roots_eval(init, m);
        times_is_product(from_roots(init), f);
        assert forall|i: int| 0 <= i < rs.len() implies eval(from_roots(rs), #[trigger] rs[i])
            == 0 by {
            let x = rs[i];
            eval_pair(-a, 1, x);
            assert(eval(from_roots(rs), x) == eval(from_roots(init), x) * eval(f, x));
            if i < init.len() {
                assert(x == init[i]);
                lemma_mul_basics(eval(f, x));
            } else {
                lemma_mul_basics(eval(from_roots(init), x));
            }
        }
        assert forall|x: int|
            (forall|i: int| 0 <= i < rs.len() ==> (x - #[trigger] rs[i]) % m
                != 0) implies #[trigger] eval(from_roots(rs), x) % m != 0 by {
            eval_pair(-a, 1, x);
            assert forall|i: int| 0 <= i < init.len() implies (x - #[trigger] init[i]) % m
                != 0 by {
                assert((x - rs[i]) % m != 0);
            }
            assert((x - rs[rs.len() - 1]) % m != 0);
            assert(eval(from_roots(rs), x) == eval(from_roots(init), x) * eval(f, x));
            if eval(from_roots(rs), x) % m == 0 {
                arith::euclid(eval(from_roots(init), x), x - a, m);
            }
        }
    }
}

// ---------------------------------------------------------------------------
// Interpolation
// ---------------------------------------------------------------------------

/// There is a polynomial through any points with distinct abscissae.
pub proof fn interpolation_exists(xs: Seq<int>, ys: Seq<int>, m: int)
    requires
        arith::is_prime(m),
        xs.len() == ys.len(),
        distinct(xs, m),
    ensures
        interpolant(xs, ys, m).len() == xs.len(),
        reduced(interpolant(xs, ys, m), m),
        passes(interpolant(xs, ys, m), xs, ys, m),
    decreases xs.len(),
{
    if xs.len() == 0 {
        let p = Seq::<int>::empty();
        assert(p.len() == xs.len() && reduced(p, m) && passes(p, xs, ys, m));
    } else {
        let init = xs.drop_last();
        let inity = ys.drop_last();
        assert forall|i: int, j: int|
            #![trigger init[i], init[j]]
            0 <= i < j < init.len() implies (init[i] - init[j]) % m != 0 by {
            assert((xs[i] - xs[j]) % m != 0);
        }
        interpolation_exists(init, inity, m);
        let q = interpolant(init, inity, m);
        let n = from_roots(init);
        from_roots_eval(init, m);
        let x = xs.last();
        assert forall|i: int| 0 <= i < init.len() implies (x - #[trigger] init[i]) % m != 0 by {
            assert((xs[i] - xs[xs.len() - 1]) % m != 0);
            negated_difference(xs[i], x, m);
        }
        let v = eval(n, x);
        let w = arith::prime_has_inverse(v, m);
        let gap = ys.last() - eval(q, x);
        let c = gap * w;
        let sum = plus(q, scale(c, n));
        let p = reduce(sum, m);
        assert forall|i: int| 0 <= i < xs.len() implies eval(p, #[trigger] xs[i]) % m == ys[i]
            % m by {
            let a = xs[i];
            eval_reduce(sum, a, m);
            eval_plus(q, scale(c, n), a);
            eval_scale(c, n, a);
            if i < init.len() {
                assert(a == init[i]);
                lemma_mul_basics(c);
                assert(eval(q, init[i]) % m == inity[i] % m);
            } else {
                arith::mod_small(1, m);
                arith::cong_mul(v * w, 1, gap, gap, m);
                assert(c * v == (v * w) * gap) by (nonlinear_arith)
                    requires
                        c == gap * w,
                ;
                arith::cong_add(eval(q, x), eval(q, x), c * v, gap, m);
            }
        }
        eval_reduce(sum, 0, m);
        assert(p.len() == xs.len() && reduced(p, m) && passes(p, xs, ys, m));
    }
}

pub proof fn negated_difference(a: int, b: int, m: int)
    requires
        m > 0,
    ensures
        (a - b) % m == 0 <==> (b - a) % m == 0,
{
    lemma_mod_equivalence(a, b, m);
    lemma_mod_equivalence(b, a, m);
}

/// There is only one such polynomial.
pub proof fn interpolation_unique(p: Seq<int>, xs: Seq<int>, ys: Seq<int>, m: int)
    requires
        arith::is_prime(m),
        xs.len() == ys.len(),
        distinct(xs, m),
        p.len() <= xs.len(),
        passes(p, xs, ys, m),
    ensures
        forall|x: int| #[trigger]
            eval(interpolant(xs, ys, m), x) % m == eval(p, x) % m,
        reduced(p, m) && p.len() == xs.len() ==> interpolant(xs, ys, m) == p,
{
    interpolation_exists(xs, ys, m);
    let q = interpolant(xs, ys, m);
    let pp = Seq::new(xs.len(), |i: int| coeff(p, i));
    assert forall|i: int| 0 <= i < xs.len() implies eval(q, #[trigger] xs[i]) % m == eval(
        pp,
        xs[i],
    ) % m by {
        eval_pad(p, pp, xs[i]);
        assert(eval(p, xs[i]) % m == ys[i] % m);
        assert(eval(q, xs[i]) % m == ys[i] % m);
    }
    agreement(q, pp, xs, m);
    assert forall|x: int| #[trigger] eval(q, x) % m == eval(p, x) % m by {
        eval_pad(p, pp, x);
    }
    if reduced(p, m) && p.len() == xs.len() {
        assert(pp =~= p);
    }
}

/// The product of `(xs[j] - z) / (xs[j] - xs[i])` over the first `k` indices
/// `j` other than `i`.
pub open spec fn basis(xs: Seq<int>, i: int, k: int, z: int, m: int) -> int
    decreases k,
{
    if k <= 0 {
        1
    } else if k - 1 == i {
        basis(xs, i, k - 1, z, m)
    } else {
        basis(xs, i, k - 1, z, m) * ((xs[k - 1] - z) * arith::inverse_of(xs[k - 1] - xs[i], m))
    }
}

/// The sum of `ys[i]` times the basis at `z` over the first `k` indices `i`.
pub open spec fn lagrange(xs: Seq<int>, ys: Seq<int>, k: int, z: int, m: int) -> int
    decreases k,
{
    if k <= 0 {
        0
    } else {
        lagrange(xs, ys, k - 1, z, m) + ys[k - 1] * basis(xs, k - 1, xs.len() as int, z, m)
    }
}

spec fn basis_poly(xs: Seq<int>, i: int, k: int, m: int) -> Seq<int>
    decreases k,
{
    if k <= 0 {
        seq![1int]
    } else if k - 1 == i {
        basis_poly(xs, i, k - 1, m)
    } else {
        let c = arith::inverse_of(xs[k - 1] - xs[i], m);
        times(basis_poly(xs, i, k - 1, m), seq![xs[k - 1] * c, -c])
    }
}

spec fn lagrange_poly(xs: Seq<int>, ys: Seq<int>, k: int, m: int) -> Seq<int>
    decreases k,
{
    if k <= 0 {
        seq![]
    } else {
        plus(
            lagrange_poly(xs, ys, k - 1, m),
            scale(ys[k - 1], basis_poly(xs, k - 1, xs.len() as int, m)),
        )
    }
}

proof fn basis_poly_eval(xs: Seq<int>, i: int, k: int, m: int)
    requires
        0 <= k <= xs.len(),
        0 <= i,
    ensures
        basis_poly(xs, i, k, m).len() == (if i < k {
            k
        } else {
            k + 1
        }),
        forall|z: int| #[trigger] eval(basis_poly(xs, i, k, m), z) == basis(xs, i, k, z, m),
    decreases k,
{
    if k == 0 {
        assert forall|z: int| #[trigger] eval(basis_poly(xs, i, k, m), z) == basis(
            xs,
            i,
            k,
            z,
            m,
        ) by {
            assert(seq![1int].drop_last() =~= Seq::<int>::empty());
            lemma_pow0(z);
            assert(eval(Seq::<int>::empty(), z) == 0);
        }
    } else {
        basis_poly_eval(xs, i, k - 1, m);
        if k - 1 != i {
            let c = arith::inverse_of(xs[k - 1] - xs[i], m);
            let f = seq![xs[k - 1] * c, -c];
            times_is_product(basis_poly(xs, i, k - 1, m), f);
            assert forall|z: int| #[trigger] eval(basis_poly(xs, i, k, m), z) == basis(
                xs,
                i,
                k,
                z,
                m,
            ) by {
                eval_pair(xs[k - 1] * c, -c, z);
                let a = xs[k - 1];
                assert(a * c + -c * z == (a - z) * c) by (nonlinear_arith);
                assert(eval(basis_poly(xs, i, k - 1, m), z) == basis(xs, i, k - 1, z, m));
            }
        }
    }
}

/// The basis at one of the points: one at its own, zero at the others.
proof fn basis_at_point(xs: Seq<int>, i: int, k: int, l: int, m: int)
    requires
        arith::is_prime(m),
        distinct(xs, m),
        0 <= k <= xs.len(),
        0 <= i < xs.len(),
        0 <= l < xs.len(),
    ensures
        l == i ==> basis(xs, i, k, xs[l], m) % m == 1,
        l != i && l < k ==> basis(xs, i, k, xs[l], m) == 0,
    decreases k,
{
    arith::mod_small(1, m);
    if k > 0 {
        basis_at_point(xs, i, k - 1, l, m);
        if k - 1 != i {
            let a = xs[k - 1] - xs[i];
            let c = arith::inverse_of(a, m);
            let b = basis(xs, i, k - 1, xs[l], m);
            if l == i {
                if k - 1 < i {
                    assert((xs[k - 1] - xs[i]) % m != 0);
                } else {
                    assert((xs[i] - xs[k - 1]) % m != 0);
                    negated_difference(xs[i], xs[k - 1], m);
                }
                let unused = arith::prime_has_inverse(a, m);
                arith::cong_mul(b, 1, a * c, 1, m);
            } else if l == k - 1 {
                assert((xs[k - 1] - xs[l]) * c == 0) by (nonlinear_arith)
                    requires
                        xs[k - 1] - xs[l] == 0,
                ;
                lemma_mul_basics(b);
            } else if l < k - 1 {
                lemma_mul_basics((xs[k - 1] - xs[l]) * c);
            }
        }
    }
}

proof fn lagrange_poly_eval(xs: Seq<int>, ys: Seq<int>, k: int, z: int, m: int)
    requires
        0 <= k <= xs.len(),
    ensures
        lagrange_poly(xs, ys, k, m).len() == (if k == 0 {
            0
        } else {
            xs.len() as int
        }),
        eval(lagrange_poly(xs, ys, k, m), z) == lagrange(xs, ys, k, z, m),
    decreases k,
{
    if k > 0 {
        lagrange_poly_eval(xs, ys, k - 1, z, m);
        basis_poly_eval(xs, k - 1, xs.len() as int, m);
        let b = basis_poly(xs, k - 1, xs.len() as int, m);
        eval_plus(lagrange_poly(xs, ys, k - 1, m), scale(ys[k - 1], b), z);
        eval_scale(ys[k - 1], b, z);
        assert(eval(b, z) == basis(xs, k - 1, xs.len() as int, z, m));
    }
}

proof fn lagrange_at_point(xs: Seq<int>, ys: Seq<int>, k: int, l: int, m: int)
    requires
        arith::is_prime(m),
        distinct(xs, m),
        xs.len() == ys.len(),
        0 <= k <= xs.len(),
        0 <= l < xs.len(),
    ensures
        lagrange(xs, ys, k, xs[l], m) % m == (if l < k {
            ys[l] % m
        } else {
            0
        }),
    decreases k,
{
    arith::mod_small(0, m);
    arith::mod_small(1, m);
    if k > 0 {
        lagrange_at_point(xs, ys, k - 1, l, m);
        basis_at_point(xs, k - 1, xs.len() as int, l, m);
        let b = basis(xs, k - 1, xs.len() as int, xs[l], m);
        let s = lagrange(xs, ys, k - 1, xs[l], m);
        let y = ys[k - 1];
        if l == k - 1 {
            arith::cong_mul(y, y, b, 1, m);
            lemma_mul_basics(y);
            arith::cong_add(s, 0, y * b, y, m);
        } else {
            lemma_mul_basics(y);
        }
    }
}

/// Lagrange's formula gives the values of the interpolant.
pub proof fn lagrange_is_interpolant(xs: Seq<int>, ys: Seq<int>, z: int, m: int)
    requires
        arith::is_prime(m),
        distinct(xs, m),
        xs.len() == ys.len(),
    ensures
        lagrange(xs, ys, xs.len() as int, z, m) % m == eval(interpolant(xs, ys, m), z) % m,
{
    let n = xs.len() as int;
    let p = lagrange_poly(xs, ys, n, m);
    lagrange_poly_eval(xs, ys, n, z, m);
    assert forall|l: int| 0 <= l < n implies eval(p, #[trigger] xs[l]) % m == ys[l] % m by {
        lagrange_poly_eval(xs, ys, n, xs[l], m);
        lagrange_at_point(xs, ys, n, l, m);
    }
    interpolation_unique(p, xs, ys, m);
}

} // verus!

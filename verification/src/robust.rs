//! Why decoding finds the polynomial that most of the shares lie on.
use vstd::arithmetic::div_mod::*;
use vstd::arithmetic::mul::*;
use vstd::prelude::*;

use crate::arith;
use crate::decoding;
use crate::field;
use crate::poly;
use crate::prime;
use crate::shamir::{self, Share};

verus! {

/// The share lies on the polynomial.
pub open spec fn agrees(share: Share, p: Seq<int>) -> bool {
    shamir::value_at(p, share.index as int) == share.value@
}

/// The shares that lie on the polynomial, in their order.
pub open spec fn agreeing(shares: Seq<Share>, p: Seq<int>) -> Seq<Share>
    decreases shares.len(),
{
    if shares.len() == 0 {
        seq![]
    } else if agrees(shares.last(), p) {
        agreeing(shares.drop_last(), p).push(shares.last())
    } else {
        agreeing(shares.drop_last(), p)
    }
}

/// The shares that do not lie on the polynomial, in their order.
pub open spec fn disagreeing(shares: Seq<Share>, p: Seq<int>) -> Seq<Share>
    decreases shares.len(),
{
    if shares.len() == 0 {
        seq![]
    } else if agrees(shares.last(), p) {
        disagreeing(shares.drop_last(), p)
    } else {
        disagreeing(shares.drop_last(), p).push(shares.last())
    }
}

/// The polynomial has `t` coefficients, and so few shares miss it that they
/// can be told from the others: two for each of them, and `t`, are at most
/// as many as there are shares.
pub open spec fn close(shares: Seq<Share>, t: int, p: Seq<int>) -> bool {
    &&& t >= 1
    &&& p.len() == t
    &&& poly::reduced(p, prime::modulus())
    &&& 2 * disagreeing(shares, p).len() + t <= shares.len()
}

/// Decoding with `e` errors gives the polynomial, and it misses at most `e`
/// shares and at least `t` lie on it.
pub open spec fn stage(shares: Seq<Share>, t: int, e: int, p: Seq<int>) -> bool {
    &&& decoding::decodes(
        shamir::points(shares),
        shamir::values(shares),
        t,
        e,
        p,
        prime::modulus(),
    )
    &&& agreeing(shares, p).len() >= t
    &&& disagreeing(shares, p).len() <= e
}

/// Every share is on one of the two sides.
pub proof fn sides(shares: Seq<Share>, p: Seq<int>)
    ensures
        agreeing(shares, p).len() + disagreeing(shares, p).len() == shares.len(),
        forall|i: int|
            0 <= i < agreeing(shares, p).len() ==> shares.contains(#[trigger] agreeing(shares, p)[i])
                && agrees(agreeing(shares, p)[i], p),
        forall|i: int|
            0 <= i < disagreeing(shares, p).len() ==> shares.contains(
                #[trigger] disagreeing(shares, p)[i],
            ) && !agrees(disagreeing(shares, p)[i], p),
        forall|i: int|
            0 <= i < shares.len() ==> if agrees(#[trigger] shares[i], p) {
                agreeing(shares, p).contains(shares[i])
            } else {
                disagreeing(shares, p).contains(shares[i])
            },
    decreases shares.len(),
{
    if shares.len() > 0 {
        let init = shares.drop_last();
        let last = shares.last();
        sides(init, p);
        let (a, b) = (agreeing(init, p), disagreeing(init, p));
        let (c, d) = (agreeing(shares, p), disagreeing(shares, p));
        assert(shares[shares.len() - 1] == last);
        assert forall|s: Share| init.contains(s) implies shares.contains(s) by {
            let i = choose|i: int| 0 <= i < init.len() && init[i] == s;
            assert(shares[i] == s);
        }
        assert forall|i: int| 0 <= i < c.len() implies shares.contains(#[trigger] c[i]) && agrees(
            c[i],
            p,
        ) by {
            if i < a.len() {
                assert(c[i] == a[i]);
            }
        }
        assert forall|i: int| 0 <= i < d.len() implies shares.contains(#[trigger] d[i]) && !agrees(
            d[i],
            p,
        ) by {
            if i < b.len() {
                assert(d[i] == b[i]);
            }
        }
        assert forall|s: Share| a.contains(s) implies c.contains(s) by {
            let i = choose|i: int| 0 <= i < a.len() && a[i] == s;
            assert(c[i] == s);
        }
        assert forall|s: Share| b.contains(s) implies d.contains(s) by {
            let i = choose|i: int| 0 <= i < b.len() && b[i] == s;
            assert(d[i] == s);
        }
        assert forall|i: int| 0 <= i < shares.len() implies if agrees(#[trigger] shares[i], p) {
            c.contains(shares[i])
        } else {
            d.contains(shares[i])
        } by {
            if i < init.len() {
                assert(shares[i] == init[i]);
            } else if agrees(last, p) {
                assert(c[c.len() - 1] == last);
            } else {
                assert(d[d.len() - 1] == last);
            }
        }
    }
}

/// Each side of shares with distinct indices has distinct indices.
pub proof fn sides_distinct(shares: Seq<Share>, p: Seq<int>)
    requires
        shamir::distinct_indices(shares),
    ensures
        shamir::distinct_indices(agreeing(shares, p)),
        shamir::distinct_indices(disagreeing(shares, p)),
    decreases shares.len(),
{
    if shares.len() > 0 {
        let init = shares.drop_last();
        let last = shares.last();
        sides_distinct(init, p);
        sides(init, p);
        assert forall|s: Share| #[trigger] init.contains(s) implies s.index != last.index by {
            let i = choose|i: int| 0 <= i < init.len() && init[i] == s;
            assert(shares[i] == s);
            assert(shares[shares.len() - 1] == last);
        }
    }
}

/// The polynomial takes the value of each share on it.
proof fn value_on(share: Share, p: Seq<int>)
    requires
        agrees(share, p),
    ensures
        poly::eval(p, share.index as int) % prime::modulus() == share.value@ % prime::modulus(),
{
    arith::mod_idem(poly::eval(p, share.index as int), prime::modulus());
}

/// The shares are among the others, lie on the polynomial, and have distinct indices.
pub open spec fn witnesses(shares: Seq<Share>, p: Seq<int>, good: Seq<Share>) -> bool {
    &&& shamir::distinct_indices(good)
    &&& forall|i: int|
        0 <= i < good.len() ==> shares.contains(#[trigger] good[i]) && agrees(good[i], p)
}

/// With enough shares on it, a solution of the key equations is the polynomial times
/// a locator that vanishes at the errors.
proof fn solution_is_multiple(
    shares: Seq<Share>,
    t: int,
    p: Seq<int>,
    good: Seq<Share>,
    e: int,
    u: Seq<int>,
)
    requires
        t >= 1,
        p.len() == t,
        e >= 0,
        witnesses(shares, p, good),
        good.len() >= t + e,
        decoding::key_solution(
            shamir::points(shares),
            shamir::values(shares),
            u,
            t + e,
            e,
            prime::modulus(),
        ),
    ensures
        decoding::is_quotient(
            u.take(t + e),
            decoding::locator(u, t + e),
            p,
            prime::modulus(),
        ),
        forall|i: int|
            0 <= i < disagreeing(shares, p).len() ==> poly::eval(
                decoding::locator(u, t + e),
                #[trigger] shamir::points(disagreeing(shares, p))[i],
            ) % prime::modulus() == 0,
{
    let m = prime::modulus();
    let (xs, ys) = (shamir::points(shares), shamir::values(shares));
    let bad = disagreeing(shares, p);
    let gx = shamir::points(good);
    let bx = shamir::points(bad);
    let q = u.take(t + e);
    let l = decoding::locator(u, t + e);
    let product = poly::times(p, l);
    let r = poly::minus(q, product);
    prime::modulus_is_prime();
    sides(shares, p);
    shamir::distinct_points(good);
    poly::times_is_product(p, l);
    poly::eval_minus(q, product, 0);
    assert(r.len() == t + e);
    assert(gx.len() >= t + e);
    assert forall|i: int| 0 <= i < gx.len() implies poly::eval(r, #[trigger] gx[i]) % m == 0 by {
        let s = good[i];
        let x = gx[i];
        let j = choose|j: int| 0 <= j < shares.len() && shares[j] == s;
        assert(xs[j] == x && ys[j] == s.value@);
        poly::eval_minus(q, product, x);
        assert(poly::eval(q, xs[j]) % m == (ys[j] * poly::eval(l, xs[j])) % m);
        value_on(s, p);
        arith::cong_mul(s.value@, poly::eval(p, x), poly::eval(l, x), poly::eval(l, x), m);
        lemma_mod_equivalence(poly::eval(q, x), poly::eval(product, x), m);
    }
    poly::too_many_roots(r, gx, m);
    assert forall|x: int| #[trigger] poly::eval(q, x) % m == (poly::eval(p, x) * poly::eval(l, x))
        % m by {
        poly::eval_vanishing(r, x, m);
        poly::eval_minus(q, product, x);
        lemma_mod_equivalence(poly::eval(q, x), poly::eval(product, x), m);
    }
    assert forall|i: int| 0 <= i < bad.len() implies poly::eval(l, #[trigger] bx[i]) % m == 0 by {
        let s = bad[i];
        let x = bx[i];
        let j = choose|j: int| 0 <= j < shares.len() && shares[j] == s;
        assert(xs[j] == x && ys[j] == s.value@);
        let (f, g, y) = (poly::eval(p, x), poly::eval(l, x), s.value@);
        assert(poly::eval(q, xs[j]) % m == (ys[j] * poly::eval(l, xs[j])) % m);
        assert(poly::eval(q, x) % m == (f * g) % m);
        lemma_mod_equivalence(y * g, f * g, m);
        lemma_mul_is_distributive_sub_other_way(g, y, f);
        arith::euclid(y - f, g, m);
        if (y - f) % m == 0 {
            lemma_mod_equivalence(y, f, m);
            field::residue_range(s.value);
            arith::mod_small(y, m);
            assert(false);
        }
    }
}

/// The polynomial that vanishes at the errors and nowhere else among the shares.
spec fn error_locator(shares: Seq<Share>, p: Seq<int>) -> Seq<int> {
    poly::from_roots(shamir::points(disagreeing(shares, p)))
}

/// The close polynomial times the error locator, and the error locator.
spec fn error_solution(shares: Seq<Share>, p: Seq<int>) -> Seq<int> {
    let l = error_locator(shares, p);
    poly::reduce(poly::times(p, l), prime::modulus()) + poly::reduce(
        l.drop_last(),
        prime::modulus(),
    )
}

/// The two parts of that solution.
#[verifier::rlimit(40)]
proof fn error_solution_parts(shares: Seq<Share>, t: int, p: Seq<int>)
    requires
        p.len() == t,
        t >= 1,
    ensures
        ({
            let m = prime::modulus();
            let e = disagreeing(shares, p).len() as int;
            let v = error_solution(shares, p);
            let l = error_locator(shares, p);
            &&& v.len() == t + e + e
            &&& poly::reduced(v, m)
            &&& forall|x: int| #[trigger]
                poly::eval(v.take(t + e), x) % m == (poly::eval(p, x) * poly::eval(l, x)) % m
            &&& forall|x: int| #[trigger]
                poly::eval(decoding::locator(v, t + e), x) % m == poly::eval(l, x) % m
        }),
{
    let m = prime::modulus();
    let e = disagreeing(shares, p).len() as int;
    let v = error_solution(shares, p);
    let l = error_locator(shares, p);
    let product = poly::times(p, l);
    let (hi, lo) = (poly::reduce(product, m), poly::reduce(l.drop_last(), m));
    prime::modulus_is_prime();
    poly::from_roots_eval(shamir::points(disagreeing(shares, p)), m);
    poly::times_is_product(p, l);
    poly::eval_reduce(product, 0, m);
    poly::eval_reduce(l.drop_last(), 0, m);
    assert(v.take(t + e) =~= hi);
    assert(v.skip(t + e) =~= lo);
    assert forall|i: int| 0 <= i < v.len() implies 0 <= #[trigger] v[i] < m by {
        if i < t + e {
            assert(v[i] == hi[i]);
        } else {
            assert(v[i] == lo[i - (t + e)]);
        }
    }
    assert forall|x: int| #[trigger] poly::eval(v.take(t + e), x) % m == (poly::eval(p, x)
        * poly::eval(l, x)) % m by {
        poly::eval_reduce(product, x, m);
    }
    let k = decoding::locator(v, t + e);
    assert forall|x: int| #[trigger] poly::eval(k, x) % m == poly::eval(l, x) % m by {
        assert forall|i: int| 0 <= i < k.len() implies #[trigger] k[i] % m == l[i] % m by {
            if i < e {
                arith::mod_idem(l[i], m);
            }
        }
        poly::eval_cong(k, l, x, x, m);
    }
}

/// It solves the key equations.
proof fn error_solution_solves(shares: Seq<Share>, t: int, p: Seq<int>)
    requires
        p.len() == t,
        t >= 1,
    ensures
        decoding::key_solution(
            shamir::points(shares),
            shamir::values(shares),
            error_solution(shares, p),
            t + disagreeing(shares, p).len(),
            disagreeing(shares, p).len() as int,
            prime::modulus(),
        ),
{
    let m = prime::modulus();
    let (xs, ys) = (shamir::points(shares), shamir::values(shares));
    let bad = disagreeing(shares, p);
    let e = bad.len() as int;
    let v = error_solution(shares, p);
    let roots = error_locator(shares, p);
    let (q, l) = (v.take(t + e), decoding::locator(v, t + e));
    prime::modulus_is_prime();
    sides(shares, p);
    error_solution_parts(shares, t, p);
    poly::from_roots_eval(shamir::points(bad), m);
    assert forall|i: int| 0 <= i < xs.len() implies poly::eval(q, #[trigger] xs[i]) % m == (ys[i]
        * poly::eval(l, xs[i])) % m by {
        let s = shares[i];
        let x = xs[i];
        let (f, g, h, y) = (poly::eval(p, x), poly::eval(roots, x), poly::eval(l, x), s.value@);
        assert(poly::eval(q, x) % m == (f * g) % m);
        assert(h % m == g % m);
        if agrees(s, p) {
            value_on(s, p);
            arith::cong_mul(y, f, h, g, m);
        } else {
            let j = choose|j: int| 0 <= j < bad.len() && bad[j] == s;
            assert(shamir::points(bad)[j] == x);
            assert(g == 0);
            arith::cong_mul(y, y, h, 0, m);
            assert(f * 0 == 0 && y * 0 == 0);
        }
    }
}

/// Decoding with the number of errors there are gives the close polynomial.
pub proof fn close_decodes(shares: Seq<Share>, t: int, p: Seq<int>)
    requires
        shamir::distinct_indices(shares),
        close(shares, t, p),
    ensures
        stage(shares, t, disagreeing(shares, p).len() as int, p),
{
    sides(shares, p);
    sides_distinct(shares, p);
    witnessed_decodes(shares, t, p, agreeing(shares, p));
}

/// The same with repeated indices, as long as no error repeats one, and enough of the
/// shares on the polynomial do not.
pub proof fn witnessed_decodes(shares: Seq<Share>, t: int, p: Seq<int>, good: Seq<Share>)
    requires
        t >= 1,
        p.len() == t,
        poly::reduced(p, prime::modulus()),
        shamir::distinct_indices(disagreeing(shares, p)),
        witnesses(shares, p, good),
        good.len() >= t + disagreeing(shares, p).len(),
        agreeing(shares, p).len() >= t,
    ensures
        stage(shares, t, disagreeing(shares, p).len() as int, p),
{
    let m = prime::modulus();
    let (xs, ys) = (shamir::points(shares), shamir::values(shares));
    let e = disagreeing(shares, p).len() as int;
    let v = error_solution(shares, p);
    error_solution_solves(shares, t, p);
    assert forall|u: Seq<int>| #[trigger]
        decoding::key_solution(xs, ys, u, t + e, e, m) implies u == v by {
        sole_solution_at_errors(shares, t, p, good, v, u);
    }
    assert(decoding::sole_key_solution(xs, ys, v, t + e, e, m));
    solution_is_multiple(shares, t, p, good, e, v);
}

/// With exactly the errors there are, the key equations have one solution.
proof fn sole_solution_at_errors(
    shares: Seq<Share>,
    t: int,
    p: Seq<int>,
    good: Seq<Share>,
    v: Seq<int>,
    u: Seq<int>,
)
    requires
        t >= 1,
        p.len() == t,
        shamir::distinct_indices(disagreeing(shares, p)),
        witnesses(shares, p, good),
        good.len() >= t + disagreeing(shares, p).len(),
        decoding::key_solution(
            shamir::points(shares),
            shamir::values(shares),
            v,
            t + disagreeing(shares, p).len(),
            disagreeing(shares, p).len() as int,
            prime::modulus(),
        ),
        decoding::key_solution(
            shamir::points(shares),
            shamir::values(shares),
            u,
            t + disagreeing(shares, p).len(),
            disagreeing(shares, p).len() as int,
            prime::modulus(),
        ),
    ensures
        u == v,
{
    let m = prime::modulus();
    let bad = disagreeing(shares, p);
    let gx = shamir::points(good);
    let bx = shamir::points(bad);
    let e = bad.len() as int;
    prime::modulus_is_prime();
    shamir::distinct_points(good);
    shamir::distinct_points(bad);
    solution_is_multiple(shares, t, p, good, e, v);
    solution_is_multiple(shares, t, p, good, e, u);
    let (q, l) = (v.take(t + e), decoding::locator(v, t + e));
    let (s, k) = (u.take(t + e), decoding::locator(u, t + e));
    let (a, b) = (v.skip(t + e), u.skip(t + e));
    // The locators agree at the errors and both lead with one.
    assert forall|i: int| 0 <= i < bx.len() implies poly::eval(a, #[trigger] bx[i]) % m
        == poly::eval(b, bx[i]) % m by {
        let x = bx[i];
        poly::eval_push(a, 1, x);
        poly::eval_push(b, 1, x);
        let (f, g) = (poly::eval(l, x), poly::eval(k, x));
        assert(f % m == 0 && g % m == 0);
        arith::cong_sub(f, g, f - poly::eval(a, x), f - poly::eval(a, x), m);
    }
    poly::agreement(a, b, bx, m);
    assert(a == b);
    assert(l == k);
    assert forall|i: int| 0 <= i < gx.len() implies poly::eval(q, #[trigger] gx[i]) % m
        == poly::eval(s, gx[i]) % m by {
        assert(poly::eval(q, gx[i]) % m == (poly::eval(p, gx[i]) * poly::eval(l, gx[i])) % m);
        assert(poly::eval(s, gx[i]) % m == (poly::eval(p, gx[i]) * poly::eval(k, gx[i])) % m);
    }
    poly::agreement(q, s, gx, m);
    assert(q == s);
    assert(v =~= q + a);
    assert(u =~= s + b);
}

/// A locator of degree `f` that vanishes at the errors, with `c` in the lowest place
/// of what it has beyond them.
spec fn wide_locator(shares: Seq<Share>, p: Seq<int>, f: int, c: int) -> Seq<int> {
    poly::times(error_locator(shares, p), wide_factor(f - disagreeing(shares, p).len(), c))
}

/// The polynomial `x^k + c`.
spec fn wide_factor(k: int, c: int) -> Seq<int> {
    seq![c] + Seq::new((k - 1) as nat, |i: int| 0int) + seq![1int]
}

/// The values of `x^k + c`.
proof fn wide_factor_values(k: int, x: int)
    requires
        k >= 1,
    ensures
        poly::eval(wide_factor(k, 1), x) == poly::eval(wide_factor(k, 0), x) + 1,
        wide_factor(k, 0).len() == k + 1,
        wide_factor(k, 1).len() == k + 1,
        wide_factor(k, 0).last() == 1,
        wide_factor(k, 1).last() == 1,
{
    let (a, b) = (wide_factor(k, 0), wide_factor(k, 1));
    poly::eval_front(a, x);
    poly::eval_front(b, x);
    assert(a.drop_first() =~= b.drop_first());
}

/// A solution of the key equations with such a locator.
#[verifier::rlimit(30)]
proof fn wide_solution(shares: Seq<Share>, t: int, p: Seq<int>, f: int, c: int) -> (v: Seq<int>)
    requires
        t >= 1,
        p.len() == t,
        f > disagreeing(shares, p).len(),
        c == 0 || c == 1,
    ensures
        decoding::key_solution(
            shamir::points(shares),
            shamir::values(shares),
            v,
            t + f,
            f,
            prime::modulus(),
        ),
        forall|x: int| #[trigger]
            poly::eval(decoding::locator(v, t + f), x) % prime::modulus() == poly::eval(
                wide_locator(shares, p, f, c),
                x,
            ) % prime::modulus(),
{
    let m = prime::modulus();
    let (xs, ys) = (shamir::points(shares), shamir::values(shares));
    let bad = disagreeing(shares, p);
    let k = f - bad.len();
    let l = wide_locator(shares, p, f, c);
    let roots = error_locator(shares, p);
    prime::modulus_is_prime();
    sides(shares, p);
    wide_factor_values(k, 0);
    poly::from_roots_eval(shamir::points(bad), m);
    poly::times_is_product(roots, wide_factor(k, c));
    poly::times_is_product(p, l);
    assert(l.last() == 1);
    let product = poly::times(p, l);
    let (hi, lo) = (poly::reduce(product, m), poly::reduce(l.drop_last(), m));
    poly::eval_reduce(product, 0, m);
    poly::eval_reduce(l.drop_last(), 0, m);
    let v = hi + lo;
    assert(v.take(t + f) =~= hi);
    assert(v.skip(t + f) =~= lo);
    assert forall|i: int| 0 <= i < v.len() implies 0 <= #[trigger] v[i] < m by {
        if i < t + f {
            assert(v[i] == hi[i]);
        } else {
            assert(v[i] == lo[i - (t + f)]);
        }
    }
    let g = decoding::locator(v, t + f);
    assert forall|x: int| #[trigger] poly::eval(g, x) % m == poly::eval(l, x) % m by {
        assert forall|i: int| 0 <= i < g.len() implies #[trigger] g[i] % m == l[i] % m by {
            if i < f {
                arith::mod_idem(l[i], m);
            }
        }
        poly::eval_cong(g, l, x, x, m);
    }
    assert forall|i: int| 0 <= i < xs.len() implies poly::eval(v.take(t + f), #[trigger] xs[i]) % m
        == (ys[i] * poly::eval(g, xs[i])) % m by {
        let s = shares[i];
        let x = xs[i];
        let (a, b, y) = (poly::eval(p, x), poly::eval(l, x), s.value@);
        poly::eval_reduce(product, x, m);
        assert(poly::eval(product, x) == a * b);
        assert(poly::eval(g, x) % m == b % m);
        if agrees(s, p) {
            value_on(s, p);
            arith::cong_mul(y, a, poly::eval(g, x), b, m);
        } else {
            let j = choose|j: int| 0 <= j < bad.len() && bad[j] == s;
            assert(shamir::points(bad)[j] == x);
            assert(poly::eval(roots, x) == 0);
            assert(b == 0 * poly::eval(wide_factor(k, c), x));
            assert(b == 0);
            arith::cong_mul(y, y, poly::eval(g, x), 0, m);
            assert(a * 0 == 0 && y * 0 == 0);
        }
    }
    v
}

/// With more errors looked for than there are, the key equations leave the locator
/// open, so that nothing is decoded.
pub proof fn more_errors_decode_nothing(
    shares: Seq<Share>,
    t: int,
    p: Seq<int>,
    f: int,
    q: Seq<int>,
)
    requires
        t >= 1,
        p.len() == t,
        shares.len() <= u64::MAX,
        f > disagreeing(shares, p).len(),
    ensures
        !decoding::decodes(
            shamir::points(shares),
            shamir::values(shares),
            t,
            f,
            q,
            prime::modulus(),
        ),
{
    let m = prime::modulus();
    let (xs, ys) = (shamir::points(shares), shamir::values(shares));
    let bad = disagreeing(shares, p);
    let k = f - bad.len();
    let roots = error_locator(shares, p);
    if decoding::decodes(xs, ys, t, f, q, m) {
        let v = choose|v: Seq<int>| #[trigger]
            decoding::sole_key_solution(xs, ys, v, t + f, f, m) && decoding::is_quotient(
                v.take(t + f),
                decoding::locator(v, t + f),
                q,
                m,
            );
        let a = wide_solution(shares, t, p, f, 0);
        let b = wide_solution(shares, t, p, f, 1);
        assert(a == v && b == v);
        prime::modulus_is_prime();
        sides(shares, p);
        poly::from_roots_eval(shamir::points(bad), m);
        wide_factor_values(k, 0);
        poly::times_is_product(roots, wide_factor(k, 0));
        poly::times_is_product(roots, wide_factor(k, 1));
        assert forall|x: int| #[trigger] poly::eval(roots, x) % m == 0 by {
            let (r, u, w) = (
                poly::eval(roots, x),
                poly::eval(wide_factor(k, 0), x),
                poly::eval(wide_factor(k, 1), x),
            );
            wide_factor_values(k, x);
            assert(poly::eval(decoding::locator(v, t + f), x) % m == (r * u) % m);
            assert(poly::eval(decoding::locator(v, t + f), x) % m == (r * w) % m);
            lemma_mod_equivalence(r * w, r * u, m);
            lemma_mul_is_distributive_add(r, u, 1);
        }
        poly::zero_everywhere(roots, m);
        arith::mod_small(1, m);
        assert(roots[roots.len() - 1] == 1);
    }
}

/// At most one polynomial is close to shares with distinct indices.
pub proof fn close_unique(shares: Seq<Share>, t: int, p: Seq<int>, q: Seq<int>)
    requires
        shamir::distinct_indices(shares),
        close(shares, t, p),
        close(shares, t, q),
    ensures
        p == q,
{
    let m = prime::modulus();
    let both = agreeing(agreeing(shares, p), q);
    prime::modulus_is_prime();
    sides(shares, p);
    sides(shares, q);
    sides(agreeing(shares, p), q);
    sides_distinct(shares, p);
    sides_distinct(agreeing(shares, p), q);
    shamir::distinct_points(both);
    fewer_disagree(shares, p, q);
    let xs = shamir::points(both);
    assert forall|i: int| 0 <= i < xs.len() implies poly::eval(p, #[trigger] xs[i]) % m
        == poly::eval(q, xs[i]) % m by {
        let s = both[i];
        assert(agreeing(shares, p).contains(s));
        let j = choose|j: int| 0 <= j < agreeing(shares, p).len() && agreeing(shares, p)[j] == s;
        assert(agrees(s, p));
        value_on(s, p);
        value_on(s, q);
    }
    poly::agreement(p, q, xs, m);
}

/// No more shares on one polynomial miss another one than shares do in all.
proof fn fewer_disagree(shares: Seq<Share>, p: Seq<int>, q: Seq<int>)
    ensures
        disagreeing(agreeing(shares, p), q).len() <= disagreeing(shares, q).len(),
    decreases shares.len(),
{
    if shares.len() > 0 {
        let init = shares.drop_last();
        fewer_disagree(init, p, q);
        if agrees(shares.last(), p) {
            assert(agreeing(shares, p).drop_last() =~= agreeing(init, p));
        }
    }
}

} // verus!

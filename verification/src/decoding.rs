//! Berlekamp-Welch decoding: the polynomial that most of the shares lie on.
use core::ops::Neg;
use vstd::arithmetic::div_mod::*;
use vstd::arithmetic::mul::*;
use vstd::arithmetic::power::*;
use vstd::prelude::*;

use crate::arith;
use crate::field::{self, Fr};
use crate::linear;
use crate::poly;
use crate::prime;
use crate::shamir::{self, Share};

verus! {

// ---------------------------------------------------------------------------
// Exact division
// ---------------------------------------------------------------------------

/// The polynomial `p` is `q` times `d` modulo `m`.
pub open spec fn is_quotient(p: Seq<int>, d: Seq<int>, q: Seq<int>, m: int) -> bool {
    forall|x: int| #[trigger] poly::eval(p, x) % m == (poly::eval(q, x) * poly::eval(d, x)) % m
}

/// Replacing one coefficient.
proof fn eval_update(p: Seq<int>, k: int, c: int, x: int)
    requires
        0 <= k < p.len(),
    ensures
        poly::eval(p.update(k, c), x) == poly::eval(p, x) + (c - p[k]) * pow(x, k as nat),
    decreases p.len(),
{
    let q = p.update(k, c);
    let w = pow(x, (p.len() - 1) as nat);
    if k == p.len() - 1 {
        assert(q.drop_last() =~= p.drop_last());
        lemma_mul_is_distributive_sub_other_way(w, c, p[k]);
    } else {
        assert(q.drop_last() =~= p.drop_last().update(k, c));
        eval_update(p.drop_last(), k, c, x);
    }
}

/// One step of long division: taking `c x^k` times the divisor off the
/// remainder and adding `c x^k` to the quotient keeps the dividend.
proof fn division_step(
    rem: Seq<int>,
    next: Seq<int>,
    q: Seq<int>,
    d: Seq<int>,
    c: int,
    k: nat,
    x: int,
    m: int,
)
    requires
        m > 0,
        next.len() == rem.len(),
        d.len() + k <= rem.len(),
        k < q.len(),
        q[k as int] == 0,
        forall|i: int|
            0 <= i < rem.len() ==> #[trigger] next[i] % m == (rem[i] - c * poly::coeff(d, i - k))
                % m,
    ensures
        (poly::eval(next, x) + poly::eval(q.update(k as int, c), x) * poly::eval(d, x)) % m == (
        poly::eval(rem, x) + poly::eval(q, x) * poly::eval(d, x)) % m,
{
    let s = poly::shift(poly::scale(c, d), k);
    let r = poly::minus(rem, s);
    let w = pow(x, k);
    let e = poly::eval(d, x);
    poly::eval_minus(rem, s, x);
    poly::eval_shift(poly::scale(c, d), k, x);
    poly::eval_scale(c, d, x);
    eval_update(q, k as int, c, x);
    assert(r.len() == next.len());
    assert forall|i: int| 0 <= i < next.len() implies #[trigger] next[i] % m == r[i] % m by {
        let f = poly::coeff(d, i - k);
        assert(poly::coeff(s, i) == c * f) by {
            if 0 <= i - k < d.len() {
                assert(s[i] == poly::coeff(poly::scale(c, d), i - k));
            } else {
                assert(c * 0 == 0);
            }
        }
        assert(r[i] == rem[i] - c * f);
    }
    poly::eval_cong(next, r, x, x, m);
    // (E(rem) - c e w) + (E(q) + c w) e
    let (a, b) = (poly::eval(rem, x), poly::eval(q, x));
    assert((b + (c - 0) * w) * e == b * e + (c * e) * w) by (nonlinear_arith);
    let s = b * e + (c * e) * w;
    arith::cong_add(poly::eval(next, x), a - (c * e) * w, s, s, m);
}

/// A remainder of low degree settles whether there is a quotient: only where
/// it vanishes.
pub proof fn remainder_decides(
    p: Seq<int>,
    d: Seq<int>,
    q: Seq<int>,
    rem: Seq<int>,
    other: Seq<int>,
    m: int,
)
    requires
        arith::is_prime(m),
        rem.len() < d.len(),
        q.len() == other.len(),
        q.len() + d.len() <= m,
        d.last() % m != 0,
        forall|x: int| #[trigger]
            poly::eval(p, x) % m == (poly::eval(rem, x) + poly::eval(q, x) * poly::eval(d, x)) % m,
        is_quotient(p, d, other, m),
    ensures
        poly::vanishes(rem, m),
        poly::reduced(q, m) && poly::reduced(other, m) ==> q == other,
{
    let a = poly::minus(other, q);
    assert forall|x: int| #[trigger] poly::eval(rem, x) % m == (poly::eval(a, x) * poly::eval(d, x))
        % m by {
        let (r, u, v, e) = (
            poly::eval(rem, x),
            poly::eval(other, x),
            poly::eval(q, x),
            poly::eval(d, x),
        );
        poly::eval_minus(other, q, x);
        assert(poly::eval(p, x) % m == (u * e) % m);
        assert(poly::eval(p, x) % m == (r + v * e) % m);
        arith::cong_sub(r + v * e, u * e, v * e, v * e, m);
        lemma_mul_is_distributive_sub_other_way(e, u, v);
    }
    poly::eval_minus(other, q, 0);
    poly::low_multiple(a, d, rem, m);
    assert forall|x: int| #[trigger] poly::eval(rem, x) % m == 0 by {
        poly::eval_vanishing(a, x, m);
        arith::mod_small(0, m);
        arith::cong_mul(poly::eval(a, x), 0, poly::eval(d, x), poly::eval(d, x), m);
        assert(0 * poly::eval(d, x) == 0);
    }
    poly::zero_everywhere(rem, m);
    poly::minus_vanishes(other, q, m);
}

/// Divides one polynomial by another. There is a result exactly where the
/// division leaves no remainder.
pub fn divide_exact(dividend: &[Fr], divisor: &[Fr], quotient_len: usize) -> (r: Option<Vec<Fr>>)
    requires
        quotient_len + divisor@.len() == dividend@.len() + 1,
    ensures
        match r {
            Some(q) => {
                &&& divisor@.len() > 0 && divisor@.last()@ != 0 && quotient_len > 0
                &&& q@.len() == quotient_len
                &&& is_quotient(
                    field::residues(dividend@),
                    field::residues(divisor@),
                    field::residues(q@),
                    prime::modulus(),
                )
            },
            None => divisor@.len() > 0 && divisor@.last()@ != 0 && quotient_len > 0
                ==> forall|q: Seq<int>|
                q.len() == quotient_len ==> !#[trigger] is_quotient(
                    field::residues(dividend@),
                    field::residues(divisor@),
                    q,
                    prime::modulus(),
                ),
        },
{
    let ghost m = prime::modulus();
    let ghost p = field::residues(dividend@);
    let ghost d = field::residues(divisor@);
    if divisor.len() == 0 {
        return None;
    }
    let divisor_degree: usize = divisor.len() - 1;
    let leading = divisor[divisor_degree];
    if dividend.len() < divisor.len() {
        return None;
    }
    let inv = match leading.inverse() {
        Some(inv) => inv,
        None => {
            return None;
        },
    };
    let mut remainder: Vec<Fr> = field::copied(dividend);
    let mut quotient: Vec<Fr> = vec![Fr::zero(); quotient_len];
    proof {
        let z = field::residues(quotient@);
        assert forall|x: int| #[trigger] poly::eval(p, x) % m == (poly::eval(p, x) + poly::eval(z, x)
            * poly::eval(d, x)) % m by {
            assert(poly::eval(z, x) == 0) by {
                zeros(z, x);
            }
            assert(0 * poly::eval(d, x) == 0);
        }
    }
    let total: usize = dividend.len();
    let mut k: usize = quotient_len;
    while k > 0
        invariant
            m == prime::modulus(),
            p == field::residues(dividend@),
            d == field::residues(divisor@),
            d.len() == divisor_degree + 1,
            quotient_len + d.len() == p.len() + 1,
            p.len() == total,
            k <= quotient_len,
            inv@ * leading@ % m == 1,
            leading@ == d[divisor_degree as int],
            remainder@.len() == p.len(),
            quotient@.len() == quotient_len,
            forall|i: int| 0 <= i < k ==> (#[trigger] quotient@[i])@ == 0,
            forall|i: int| divisor_degree + k <= i < p.len() ==> (#[trigger] remainder@[i])@ == 0,
            forall|x: int| #[trigger]
                poly::eval(p, x) % m == (poly::eval(field::residues(remainder@), x) + poly::eval(
                    field::residues(quotient@),
                    x,
                ) * poly::eval(d, x)) % m,
        decreases k,
    {
        k = k - 1;
        let ghost rem = field::residues(remainder@);
        let ghost q = field::residues(quotient@);
        let coeff = remainder[divisor_degree + k] * inv;
        quotient.set(k, coeff);
        subtract_multiple(&mut remainder, divisor, coeff, k);
        proof {
            let next = field::residues(remainder@);
            assert(field::residues(quotient@) =~= q.update(k as int, coeff@));
            assert forall|i: int| divisor_degree + k <= i < p.len() implies (
            #[trigger] remainder@[i])@ == 0 by {
                if i > divisor_degree + k {
                    assert(coeff@ * 0 == 0);
                    arith::mod_small(0, m);
                } else {
                    let (a, l, v) = (rem[i], leading@, inv@);
                    arith::mod_idem(a * v, m);
                    arith::cong_mul(coeff@, a * v, l, l, m);
                    assert((a * v) * l == a * (v * l)) by (nonlinear_arith);
                    arith::mod_small(1, m);
                    arith::cong_mul(a, a, v * l, 1, m);
                    assert(a * 1 == a);
                    arith::cong_sub(a, a, coeff@ * l, a, m);
                    arith::mod_small(0, m);
                }
            }
            assert forall|x: int| #[trigger] poly::eval(p, x) % m == (poly::eval(next, x) + poly::eval(
                field::residues(quotient@),
                x,
            ) * poly::eval(d, x)) % m by {
                assert forall|i: int| 0 <= i < rem.len() implies #[trigger] next[i] % m == (rem[i]
                    - coeff@ * poly::coeff(d, i - k)) % m by {
                    arith::mod_idem(rem[i] - coeff@ * poly::coeff(d, i - k), m);
                }
                division_step(rem, next, q, d, coeff@, k as nat, x, m);
            }
        }
    }
    let ghost rem = field::residues(remainder@);
    let ghost low = rem.take(divisor_degree as int);
    let ghost q = field::residues(quotient@);
    proof {
        prime::modulus_is_prime();
        field::residues_reduced(remainder@);
        assert forall|x: int| #[trigger] poly::eval(p, x) % m == (poly::eval(low, x) + poly::eval(
            q,
            x,
        ) * poly::eval(d, x)) % m by {
            trailing_zeros(rem, divisor_degree as int, x);
        }
    }
    if !field::all_zero(&remainder, divisor_degree) {
        proof {
            let i = choose|i: int| 0 <= i < divisor_degree && (#[trigger] remainder@[i])@ != 0;
            assert forall|other: Seq<int>|
                other.len() == quotient_len implies !#[trigger] is_quotient(p, d, other, m) by {
                if is_quotient(p, d, other, m) {
                    field::residue_range(leading);
                    arith::mod_small(leading@, m);
                    remainder_decides(p, d, q, low, other, m);
                    assert(low[i] % m == 0);
                    field::residue_range(remainder@[i]);
                    arith::mod_small(low[i], m);
                }
            }
        }
        return None;
    }
    proof {
        assert forall|x: int| #[trigger] poly::eval(p, x) % m == (poly::eval(q, x) * poly::eval(
            d,
            x,
        )) % m by {
            zeros(low, x);
        }
    }
    Some(quotient)
}

/// A polynomial without nonzero coefficients is zero.
proof fn zeros(p: Seq<int>, x: int)
    requires
        forall|i: int| 0 <= i < p.len() ==> #[trigger] p[i] == 0,
    ensures
        poly::eval(p, x) == 0,
    decreases p.len(),
{
    if p.len() > 0 {
        zeros(p.drop_last(), x);
        assert(p.last() == 0);
        assert(0 * pow(x, (p.len() - 1) as nat) == 0);
    }
}

/// Zero coefficients at the top add nothing.
pub proof fn trailing_zeros(p: Seq<int>, k: int, x: int)
    requires
        0 <= k <= p.len(),
        forall|i: int| k <= i < p.len() ==> #[trigger] p[i] == 0,
    ensures
        poly::eval(p, x) == poly::eval(p.take(k), x),
    decreases p.len(),
{
    if k < p.len() {
        trailing_zeros(p.drop_last(), k, x);
        assert(p.drop_last().take(k) =~= p.take(k));
        assert(p.last() == 0);
        assert(0 * pow(x, (p.len() - 1) as nat) == 0);
    } else {
        assert(p.take(k) =~= p);
    }
}

/// Takes `c x^k` times the divisor off the remainder.
fn subtract_multiple(remainder: &mut Vec<Fr>, divisor: &[Fr], c: Fr, k: usize)
    requires
        divisor@.len() + k <= old(remainder)@.len(),
    ensures
        final(remainder)@.len() == old(remainder)@.len(),
        forall|i: int|
            0 <= i < old(remainder)@.len() ==> (#[trigger] final(remainder)@[i])@ == (old(
                remainder,
            )@[i]@ - c@ * poly::coeff(field::residues(divisor@), i - k)) % prime::modulus(),
{
    let ghost m = prime::modulus();
    let ghost start = remainder@;
    let ghost d = field::residues(divisor@);
    let total: usize = remainder.len();
    let mut j: usize = 0;
    while j < divisor.len()
        invariant
            j <= divisor@.len(),
            m == prime::modulus(),
            d == field::residues(divisor@),
            divisor@.len() + k <= total,
            total == start.len(),
            remainder@.len() == start.len(),
            forall|i: int|
                0 <= i < start.len() && !(k <= i < k + j) ==> #[trigger] remainder@[i] == start[i],
            forall|i: int|
                k <= i < k + j ==> (#[trigger] remainder@[i])@ == (start[i]@ - c@ * d[i - k]) % m,
        decreases divisor@.len() - j,
    {
        let value = remainder[j + k] - c * divisor[j];
        proof {
            let t = c@ * divisor@[j as int]@;
            let s = start[j + k]@;
            arith::mod_idem(t, m);
            arith::cong_sub(s, s, t % m, t, m);
        }
        remainder.set(j + k, value);
        j = j + 1;
    }
    assert forall|i: int| 0 <= i < start.len() implies (#[trigger] remainder@[i])@ == (start[i]@
        - c@ * poly::coeff(d, i - k)) % m by {
        if !(k <= i < k + j) {
            field::residue_range(start[i]);
            arith::mod_small(start[i]@, m);
            assert(c@ * 0 == 0);
        }
    }
}

// ---------------------------------------------------------------------------
// The key equations
// ---------------------------------------------------------------------------

/// The error locator in a solution: its last coefficients, and a one on top.
pub open spec fn locator(v: Seq<int>, q_len: int) -> Seq<int> {
    v.skip(q_len).push(1)
}

/// The residues `v` hold a polynomial with `q_len` coefficients and a locator of
/// degree `e`, such that at every point the polynomial is the value there times
/// the locator.
pub open spec fn key_solution(
    xs: Seq<int>,
    ys: Seq<int>,
    v: Seq<int>,
    q_len: int,
    e: int,
    m: int,
) -> bool {
    &&& v.len() == q_len + e
    &&& poly::reduced(v, m)
    &&& forall|i: int|
        0 <= i < xs.len() ==> poly::eval(v.take(q_len), #[trigger] xs[i]) % m == (ys[i]
            * poly::eval(locator(v, q_len), xs[i])) % m
}

/// The residues `v` are the only solution of the key equations.
pub open spec fn sole_key_solution(
    xs: Seq<int>,
    ys: Seq<int>,
    v: Seq<int>,
    q_len: int,
    e: int,
    m: int,
) -> bool {
    &&& key_solution(xs, ys, v, q_len, e, m)
    &&& forall|u: Seq<int>| #[trigger] key_solution(xs, ys, u, q_len, e, m) ==> u == v
}

/// The polynomial `p` with `t` coefficients comes out of decoding with `e`
/// errors: the key equations have one solution, and `p` is its polynomial
/// divided by its locator.
pub open spec fn decodes(xs: Seq<int>, ys: Seq<int>, t: int, e: int, p: Seq<int>, m: int) -> bool {
    &&& p.len() == t
    &&& poly::reduced(p, m)
    &&& exists|v: Seq<int>| #[trigger]
        sole_key_solution(xs, ys, v, t + e, e, m) && is_quotient(
            v.take(t + e),
            locator(v, t + e),
            p,
            m,
        )
}

/// At most one polynomial comes out of decoding.
pub proof fn decodes_unique(
    xs: Seq<int>,
    ys: Seq<int>,
    t: int,
    e: int,
    p: Seq<int>,
    q: Seq<int>,
)
    requires
        0 <= t,
        0 <= e,
        t + e < prime::modulus(),
        decodes(xs, ys, t, e, p, prime::modulus()),
        decodes(xs, ys, t, e, q, prime::modulus()),
    ensures
        p == q,
{
    let m = prime::modulus();
    let v = choose|v: Seq<int>| #[trigger]
        sole_key_solution(xs, ys, v, t + e, e, m) && is_quotient(
            v.take(t + e),
            locator(v, t + e),
            p,
            m,
        );
    let u = choose|u: Seq<int>| #[trigger]
        sole_key_solution(xs, ys, u, t + e, e, m) && is_quotient(
            u.take(t + e),
            locator(u, t + e),
            q,
            m,
        );
    assert(u == v);
    let (f, l) = (v.take(t + e), locator(v, t + e));
    prime::modulus_is_prime();
    assert(l.last() == 1);
    arith::mod_small(1, m);
    assert forall|x: int| #[trigger] poly::eval(f, x) % m == (poly::eval(seq![], x) + poly::eval(p, x)
        * poly::eval(l, x)) % m by {
        assert(poly::eval(seq![], x) == 0);
    }
    remainder_decides(f, l, p, seq![], q, m);
}

/// The row of one key equation: the powers of the point, then minus the value
/// times the powers; on the right the value times the power `e`.
pub open spec fn is_key_row(row: Seq<int>, x: int, y: int, q_len: int, e: int, m: int) -> bool {
    &&& row.len() == q_len + e + 1
    &&& forall|i: int| 0 <= i < q_len ==> #[trigger] row[i] % m == pow(x, i as nat) % m
    &&& forall|i: int|
        q_len <= i < q_len + e ==> #[trigger] row[i] % m == (-y * pow(x, (i - q_len) as nat)) % m
    &&& row[q_len + e] % m == (y * pow(x, e as nat)) % m
}

/// The left-hand side of a key equation.
proof fn key_row_product(
    row: Seq<int>,
    x: int,
    y: int,
    v: Seq<int>,
    q_len: int,
    e: int,
    n: int,
    m: int,
)
    requires
        m > 0,
        0 <= q_len,
        0 <= e,
        v.len() == q_len + e,
        0 <= n <= q_len + e,
        is_key_row(row, x, y, q_len, e, m),
    ensures
        n <= q_len ==> linear::dot(row, v, n) % m == poly::eval(v.take(n), x) % m,
        n >= q_len ==> linear::dot(row, v, n) % m == (poly::eval(v.take(q_len), x) - y * poly::eval(
            v.subrange(q_len, n),
            x,
        )) % m,
    decreases n,
{
    if n == 0 {
        assert(y * 0 == 0);
    } else {
        key_row_product(row, x, y, v, q_len, e, n - 1, m);
        let c = v[n - 1];
        let before = linear::dot(row, v, n - 1);
        if n <= q_len {
            let w = pow(x, (n - 1) as nat);
            assert(v.take(n).drop_last() =~= v.take(n - 1));
            assert(row[n - 1] % m == w % m);
            arith::cong_mul(row[n - 1], w, c, c, m);
            lemma_mul_is_commutative(w, c);
            arith::cong_add(before, poly::eval(v.take(n - 1), x), row[n - 1] * c, c * w, m);
            if n == q_len {
                assert(v.subrange(q_len, n) =~= seq![]);
                assert(y * 0 == 0);
            }
        } else {
            let w = pow(x, (n - 1 - q_len) as nat);
            let s = v.subrange(q_len, n);
            assert(s.drop_last() =~= v.subrange(q_len, n - 1));
            let g = poly::eval(s.drop_last(), x);
            let f = poly::eval(v.take(q_len), x);
            assert(row[n - 1] % m == (-y * w) % m);
            arith::cong_mul(row[n - 1], -y * w, c, c, m);
            arith::cong_add(before, f - y * g, row[n - 1] * c, (-y * w) * c, m);
            assert(f - y * g + (-y * w) * c == f - y * (g + c * w)) by {
                assert((-y * w) * c == -(y * (c * w))) by (nonlinear_arith);
                lemma_mul_is_distributive_add(y, g, c * w);
            }
        }
    }
}

/// A key row states the key equation.
proof fn key_row_equation(row: Seq<int>, x: int, y: int, v: Seq<int>, q_len: int, e: int, m: int)
    requires
        m > 0,
        0 <= q_len,
        0 <= e,
        v.len() == q_len + e,
        is_key_row(row, x, y, q_len, e, m),
    ensures
        linear::dot(row, v, q_len + e) % m == row[q_len + e] % m <==> poly::eval(v.take(q_len), x)
            % m == (y * poly::eval(locator(v, q_len), x)) % m,
{
    key_row_product(row, x, y, v, q_len, e, q_len + e, m);
    assert(v.subrange(q_len, q_len + e) =~= v.skip(q_len));
    poly::eval_push(v.skip(q_len), 1, x);
    let f = poly::eval(v.take(q_len), x);
    let g = poly::eval(v.skip(q_len), x);
    let w = pow(x, e as nat);
    lemma_mul_is_distributive_add(y, g, w);
    assert(1 * w == w);
    // f - y g = y w exactly where f = y (g + w)
    lemma_mod_equivalence(f - y * g, y * w, m);
    lemma_mod_equivalence(f, y * (g + w), m);
}

/// The first `count` powers of `x`.
fn powers(x: Fr, count: usize) -> (r: Vec<Fr>)
    ensures
        r@.len() == count,
        forall|i: int|
            0 <= i < count ==> (#[trigger] r@[i])@ == pow(x@, i as nat) % prime::modulus(),
{
    let ghost m = prime::modulus();
    let mut powers: Vec<Fr> = Vec::with_capacity(count);
    let mut power = Fr::from(1u64);
    proof {
        lemma_pow0(x@);
        arith::mod_small(1, m);
    }
    let mut i: usize = 0;
    while i < count
        invariant
            i <= count,
            m == prime::modulus(),
            powers@.len() == i,
            power@ == pow(x@, i as nat) % m,
            forall|j: int| 0 <= j < i ==> (#[trigger] powers@[j])@ == pow(x@, j as nat) % m,
        decreases count - i,
    {
        powers.push(power);
        proof {
            let w = pow(x@, i as nat);
            lemma_pow1(x@);
            lemma_pow_adds(x@, i as nat, 1);
            arith::mod_idem(w, m);
            arith::cong_mul(w % m, w, x@, x@, m);
        }
        power = power * x;
        i = i + 1;
    }
    powers
}

/// The row of the key equation of one share.
fn key_row(share: Share, q_len: usize, error_count: usize) -> (row: Vec<Fr>)
    requires
        q_len + error_count <= usize::MAX,
        error_count < usize::MAX,
    ensures
        is_key_row(
            field::residues(row@),
            share.index as int,
            share.value@,
            q_len as int,
            error_count as int,
            prime::modulus(),
        ),
{
    let ghost m = prime::modulus();
    let x = Fr::from(share.index as u64);
    let y = share.value;
    let count: usize = if q_len > error_count + 1 {
        q_len
    } else {
        error_count + 1
    };
    let powers = powers(x, count);
    let mut row: Vec<Fr> = Vec::new();
    let mut i: usize = 0;
    while i < q_len
        invariant
            i <= q_len,
            q_len <= count,
            m == prime::modulus(),
            powers@.len() == count,
            forall|j: int| 0 <= j < count ==> (#[trigger] powers@[j])@ == pow(x@, j as nat) % m,
            row@.len() == i,
            forall|j: int| 0 <= j < i ==> (#[trigger] row@[j])@ % m == pow(x@, j as nat) % m,
        decreases q_len - i,
    {
        proof {
            arith::mod_idem(pow(x@, i as nat), m);
        }
        row.push(powers[i]);
        i = i + 1;
    }
    let mut k: usize = 0;
    while k < error_count
        invariant
            k <= error_count,
            error_count < count,
            m == prime::modulus(),
            powers@.len() == count,
            forall|j: int| 0 <= j < count ==> (#[trigger] powers@[j])@ == pow(x@, j as nat) % m,
            row@.len() == q_len + k,
            forall|j: int| 0 <= j < q_len ==> (#[trigger] row@[j])@ % m == pow(x@, j as nat) % m,
            forall|j: int|
                q_len <= j < q_len + k ==> (#[trigger] row@[j])@ % m == (-y@ * pow(
                    x@,
                    (j - q_len) as nat,
                )) % m,
        decreases error_count - k,
    {
        let entry = y.neg() * powers[k];
        proof {
            let w = pow(x@, k as nat);
            arith::mod_idem(w, m);
            arith::mod_idem(-y@, m);
            arith::cong_mul((-y@) % m, -y@, w % m, w, m);
            arith::mod_idem(-y@ * w, m);
        }
        row.push(entry);
        k = k + 1;
    }
    let last = y * powers[error_count];
    proof {
        let w = pow(x@, error_count as nat);
        arith::mod_idem(w, m);
        arith::cong_mul(y@, y@, w % m, w, m);
        arith::mod_idem(y@ * w, m);
    }
    row.push(last);
    row
}

/// Decodes with `error_count` errors. There is a result exactly where the key
/// equations have a single solution and the division by the locator is exact.
pub fn berlekamp_welch(shares: &[Share], threshold: usize, error_count: usize) -> (r: Option<
    Vec<Fr>,
>)
    requires
        threshold > 0,
        threshold + 2 * error_count <= shares@.len(),
    ensures
        match r {
            Some(p) => decodes(
                shamir::points(shares@),
                shamir::values(shares@),
                threshold as int,
                error_count as int,
                field::residues(p@),
                prime::modulus(),
            ),
            None => forall|p: Seq<int>| !#[trigger] decodes(
                shamir::points(shares@),
                shamir::values(shares@),
                threshold as int,
                error_count as int,
                p,
                prime::modulus(),
            ),
        },
{
    let ghost m = prime::modulus();
    let ghost xs = shamir::points(shares@);
    let ghost ys = shamir::values(shares@);
    let ghost t = threshold as int;
    let ghost e = error_count as int;
    let total: usize = shares.len();
    let q_len: usize = threshold + error_count;
    let unknowns: usize = q_len + error_count;
    let mut rows: Vec<Vec<Fr>> = Vec::new();
    let mut i: usize = 0;
    while i < shares.len()
        invariant
            i <= shares@.len(),
            m == prime::modulus(),
            q_len + error_count <= usize::MAX,
            error_count < usize::MAX,
            rows@.len() == i,
            forall|j: int|
                0 <= j < i ==> is_key_row(
                    field::residues((#[trigger] rows@[j])@),
                    shares@[j].index as int,
                    shares@[j].value@,
                    q_len as int,
                    error_count as int,
                    m,
                ),
        decreases shares@.len() - i,
    {
        rows.push(key_row(shares[i], q_len, error_count));
        i = i + 1;
    }
    let ghost a = linear::matrix(rows@);
    proof {
        assert forall|v: Seq<int>| #[trigger] key_solution(xs, ys, v, t + e, e, m)
            <==> linear::is_solution(a, v, t + 2 * e, m) by {
            same_key_solutions(a, xs, ys, v, t + e, e, m);
        }
    }
    match linear::solve_linear_system(rows, unknowns) {
        Some(solution) => {
            let ghost v = field::residues(solution@);
            let q = field::copied(&solution.as_slice()[0..q_len]);
            let mut error_locator = field::copied(&solution.as_slice()[q_len..unknowns]);
            error_locator.push(Fr::from(1u64));
            proof {
                assert(field::residues(q@) =~= v.take(t + e));
                assert(field::residues(error_locator@) =~= locator(v, t + e));
                assert(sole_key_solution(xs, ys, v, t + e, e, m));
            }
            let r = divide_exact(q.as_slice(), error_locator.as_slice(), threshold);
            proof {
                match &r {
                    Some(p) => {
                        field::residues_reduced(p@);
                        assert(decodes(xs, ys, t, e, field::residues(p@), m));
                    },
                    None => {
                        assert forall|p: Seq<int>| !#[trigger] decodes(xs, ys, t, e, p, m) by {
                            if decodes(xs, ys, t, e, p, m) {
                                let u = choose|u: Seq<int>| #[trigger]
                                    sole_key_solution(xs, ys, u, t + e, e, m) && is_quotient(
                                        u.take(t + e),
                                        locator(u, t + e),
                                        p,
                                        m,
                                    );
                                assert(u == v);
                                assert(is_quotient(v.take(t + e), locator(v, t + e), p, m));
                            }
                        }
                    },
                }
            }
            r
        },
        None => {
            proof {
                assert forall|p: Seq<int>| !#[trigger] decodes(xs, ys, t, e, p, m) by {
                    if decodes(xs, ys, t, e, p, m) {
                        let u = choose|u: Seq<int>| #[trigger]
                            sole_key_solution(xs, ys, u, t + e, e, m) && is_quotient(
                                u.take(t + e),
                                locator(u, t + e),
                                p,
                                m,
                            );
                        assert(linear::sole_solution(a, u, t + 2 * e, m)) by {
                            assert forall|w: Seq<int>| #[trigger]
                                linear::is_solution(a, w, t + 2 * e, m) implies w == u by {
                                assert(key_solution(xs, ys, w, t + e, e, m));
                            }
                            assert(key_solution(xs, ys, u, t + e, e, m));
                        }
                    }
                }
            }
            None
        },
    }
}

/// The system of the key rows has the solutions of the key equations.
proof fn same_key_solutions(
    a: Seq<Seq<int>>,
    xs: Seq<int>,
    ys: Seq<int>,
    v: Seq<int>,
    q_len: int,
    e: int,
    m: int,
)
    requires
        m > 0,
        0 <= q_len,
        0 <= e,
        a.len() == xs.len(),
        xs.len() == ys.len(),
        forall|i: int| 0 <= i < a.len() ==> is_key_row(#[trigger] a[i], xs[i], ys[i], q_len, e, m),
    ensures
        key_solution(xs, ys, v, q_len, e, m) <==> linear::is_solution(a, v, q_len + e, m),
{
    if v.len() == q_len + e {
        assert forall|i: int| 0 <= i < a.len() implies (linear::dot(#[trigger] a[i], v, q_len + e)
            % m == a[i][q_len + e] % m <==> poly::eval(v.take(q_len), xs[i]) % m == (ys[i]
            * poly::eval(locator(v, q_len), xs[i])) % m) by {
            key_row_equation(a[i], xs[i], ys[i], v, q_len, e, m);
        }
        if key_solution(xs, ys, v, q_len, e, m) {
            assert forall|i: int| 0 <= i < a.len() implies linear::dot(
                #[trigger] a[i],
                v,
                q_len + e,
            ) % m == a[i][q_len + e] % m by {
                assert(poly::eval(v.take(q_len), xs[i]) % m == (ys[i] * poly::eval(
                    locator(v, q_len),
                    xs[i],
                )) % m);
            }
        }
        if linear::is_solution(a, v, q_len + e, m) {
            assert forall|i: int| 0 <= i < xs.len() implies poly::eval(
                v.take(q_len),
                #[trigger] xs[i],
            ) % m == (ys[i] * poly::eval(locator(v, q_len), xs[i])) % m by {
                assert(linear::dot(a[i], v, q_len + e) % m == a[i][q_len + e] % m);
            }
        }
    }
}

} // verus!

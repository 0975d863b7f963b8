//! What holds of the library as a whole.
use vstd::arithmetic::div_mod::*;
use vstd::arithmetic::mul::*;
use vstd::prelude::*;

use crate::arith;
use crate::backend;
use crate::binding;
use crate::decoding;
use crate::field;
use crate::messages;
use crate::pedersen;
use crate::poly;
use crate::prime;
use crate::protocol::{
    self, AuthError, AuthorizationReceipt, CoefficientShare, Contribution, CustodyPolicy,
    SetupOutput, ShareCorrectnessProfile, ShareCorrectnessProfileKind, ShareOpening,
};
use crate::robust;
use crate::setup::{self, SlotPolys};
use crate::shamir::{self, RobustReconstruction, Share};
use crate::signature::SigningKey;

verus! {

// ---------------------------------------------------------------------------
// Secret sharing
// ---------------------------------------------------------------------------

/// Every share lies on the polynomial.
pub open spec fn all_agree(shares: Seq<Share>, p: Seq<int>) -> bool {
    forall|i: int| 0 <= i < shares.len() ==> robust::agrees(#[trigger] shares[i], p)
}

/// At least as many shares as a polynomial has coefficients determine its
/// constant term: any `t` shares of a dealing with distinct indices reconstruct
/// the secret.
pub proof fn shares_reconstruct(shares: Seq<Share>, coeffs: Seq<int>)
    requires
        0 < coeffs.len() <= shares.len(),
        0 <= coeffs[0] < prime::modulus(),
        shamir::distinct_indices(shares),
        all_agree(shares, coeffs),
    ensures
        shamir::secret_of(shares) == coeffs[0],
{
    let m = prime::modulus();
    let (xs, ys) = (shamir::points(shares), shamir::values(shares));
    prime::modulus_is_prime();
    shamir::distinct_points(shares);
    assert forall|i: int| 0 <= i < xs.len() implies poly::eval(coeffs, #[trigger] xs[i]) % m == ys[i]
        % m by {
        assert(robust::agrees(shares[i], coeffs));
        arith::mod_idem(poly::eval(coeffs, xs[i]), m);
    }
    poly::interpolation_unique(coeffs, xs, ys, m);
    assert(poly::eval(poly::interpolant(xs, ys, m), 0) % m == poly::eval(coeffs, 0) % m);
    poly::eval_zero(coeffs);
    arith::mod_small(coeffs[0], m);
}

/// Splitting and reconstructing: any shares picked from a dealing, with distinct
/// indices and at least as many as the threshold, reconstruct the secret.
pub proof fn dealing_reconstructs(
    dealt: Seq<Share>,
    coeffs: Seq<int>,
    n: nat,
    shares: Seq<Share>,
)
    requires
        shamir::is_dealing(dealt, coeffs, n),
        0 < coeffs.len() <= shares.len(),
        0 <= coeffs[0] < prime::modulus(),
        shamir::distinct_indices(shares),
        forall|i: int| 0 <= i < shares.len() ==> dealt.contains(#[trigger] shares[i]),
    ensures
        shamir::secret_of(shares) == coeffs[0],
{
    assert forall|i: int| 0 <= i < shares.len() implies robust::agrees(
        #[trigger] shares[i],
        coeffs,
    ) by {
        let j = choose|j: int| 0 <= j < dealt.len() && dealt[j] == shares[i];
        assert(dealt[j].value@ == shamir::value_at(coeffs, j + 1));
    }
    shares_reconstruct(shares, coeffs);
}

/// The polynomial has `t` coefficients, the secret as its constant term, and the
/// shares lie on it.
pub open spec fn consistent(shares: Seq<Share>, t: int, secret: int, p: Seq<int>) -> bool {
    &&& p.len() == t
    &&& poly::reduced(p, prime::modulus())
    &&& p[0] == secret
    &&& all_agree(shares, p)
}

/// The shares have distinct indices, and none is zero.
pub open spec fn member_shares(shares: Seq<Share>) -> bool {
    &&& shamir::distinct_indices(shares)
    &&& forall|i: int| 0 <= i < shares.len() ==> (#[trigger] shares[i]).index > 0
}

/// The coefficientwise sum of two polynomials in the field.
pub open spec fn sum(p: Seq<int>, q: Seq<int>) -> Seq<int> {
    Seq::new(p.len(), |i: int| (p[i] + q[i]) % prime::modulus())
}

/// The coefficientwise difference of two polynomials in the field.
pub open spec fn difference(p: Seq<int>, q: Seq<int>) -> Seq<int> {
    Seq::new(p.len(), |i: int| (p[i] - q[i]) % prime::modulus())
}

/// The points of shares and the point zero are distinct.
proof fn points_and_zero(shares: Seq<Share>)
    requires
        member_shares(shares),
    ensures
        poly::distinct(shamir::points(shares).push(0), prime::modulus()),
{
    let m = prime::modulus();
    let xs = shamir::points(shares);
    let zs = xs.push(0);
    shamir::distinct_points(shares);
    assert forall|i: int, j: int|
        #![trigger zs[i], zs[j]]
        0 <= i < j < zs.len() implies (zs[i] - zs[j]) % m != 0 by {
        if j < xs.len() {
            assert((xs[i] - xs[j]) % m != 0);
        } else {
            assert(shares[i].index > 0);
            arith::mod_small(zs[i], m);
        }
    }
}

/// Threshold secrecy: fewer than `t` shares say nothing about the secret. For
/// any two secrets, adding a fixed polynomial carries those that are consistent
/// with the shares and the first secret one to one to those that are consistent
/// with the shares and the second: there are equally many.
pub proof fn fewer_shares_reveal_nothing(
    shares: Seq<Share>,
    t: int,
    secret: int,
    other: int,
) -> (d: Seq<int>)
    requires
        shares.len() < t,
        member_shares(shares),
        0 <= secret < prime::modulus(),
        0 <= other < prime::modulus(),
    ensures
        d.len() == t,
        forall|p: Seq<int>| #[trigger]
            consistent(shares, t, secret, p) ==> consistent(shares, t, other, sum(p, d))
                && difference(sum(p, d), d) == p,
        forall|p: Seq<int>| #[trigger]
            consistent(shares, t, other, p) ==> consistent(shares, t, secret, difference(p, d))
                && sum(difference(p, d), d) == p,
{
    let m = prime::modulus();
    let k = shares.len() as int;
    let xs = shamir::points(shares).push(0);
    let ys = Seq::new(k as nat, |i: int| 0int).push((other - secret) % m);
    prime::modulus_is_prime();
    points_and_zero(shares);
    poly::interpolation_exists(xs, ys, m);
    let low = poly::interpolant(xs, ys, m);
    let d = low + Seq::new((t - k - 1) as nat, |i: int| 0int);
    assert(d.take(k + 1) =~= low);
    assert forall|x: int| #[trigger] poly::eval(d, x) == poly::eval(low, x) by {
        decoding::trailing_zeros(d, k + 1, x);
    }
    arith::mod_small(0, m);
    assert forall|i: int| 0 <= i < k implies poly::eval(d, (#[trigger] shares[i]).index as int) % m
        == 0 by {
        assert(xs[i] == shares[i].index);
        assert(ys[i] == 0);
        assert(poly::eval(low, xs[i]) % m == ys[i] % m);
    }
    assert(d[0] % m == (other - secret) % m) by {
        assert(xs[k] == 0);
        assert(poly::eval(low, xs[k]) % m == ys[k] % m);
        poly::eval_zero(low);
        arith::mod_idem(other - secret, m);
    }
    assert forall|p: Seq<int>| #[trigger] consistent(shares, t, secret, p) implies consistent(
        shares,
        t,
        other,
        sum(p, d),
    ) && difference(sum(p, d), d) == p by {
        shifted_consistent(shares, t, secret, other, p, d);
        sum_difference(p, d);
    }
    assert forall|p: Seq<int>| #[trigger] consistent(shares, t, other, p) implies consistent(
        shares,
        t,
        secret,
        difference(p, d),
    ) && sum(difference(p, d), d) == p by {
        let e = poly::scale(-1, d);
        assert(difference(p, d) =~= sum(p, e)) by {
            assert forall|i: int| 0 <= i < t implies p[i] - d[i] == p[i] + #[trigger] e[i] by {
                assert(-1 * d[i] == -d[i]);
            }
        }
        assert forall|i: int| 0 <= i < k implies poly::eval(e, (#[trigger] shares[i]).index as int) % m
            == 0 by {
            let v = poly::eval(d, shares[i].index as int);
            poly::eval_scale(-1, d, shares[i].index as int);
            assert(-1 * v == 0 - v);
            arith::cong_sub(0, 0, v, 0, m);
        }
        assert(e[0] % m == (secret - other) % m) by {
            assert(e[0] == 0 - d[0]);
            arith::cong_sub(0, 0, d[0], other - secret, m);
        }
        shifted_consistent(shares, t, other, secret, p, e);
        sum_difference(p, d);
    }
    d
}

/// Adding a polynomial that vanishes at the shares moves the secret only.
proof fn shifted_consistent(
    shares: Seq<Share>,
    t: int,
    secret: int,
    other: int,
    p: Seq<int>,
    d: Seq<int>,
)
    requires
        t >= 1,
        d.len() == t,
        0 <= other < prime::modulus(),
        consistent(shares, t, secret, p),
        d[0] % prime::modulus() == (other - secret) % prime::modulus(),
        forall|i: int|
            0 <= i < shares.len() ==> poly::eval(d, (#[trigger] shares[i]).index as int)
                % prime::modulus() == 0,
    ensures
        consistent(shares, t, other, sum(p, d)),
{
    let m = prime::modulus();
    let q = sum(p, d);
    assert forall|i: int| 0 <= i < t implies 0 <= #[trigger] q[i] < m by {
        arith::mod_idem(p[i] + d[i], m);
    }
    arith::cong_add(p[0], secret, d[0], other - secret, m);
    arith::mod_small(other, m);
    assert forall|i: int| 0 <= i < shares.len() implies robust::agrees(#[trigger] shares[i], q) by {
        let x = shares[i].index as int;
        let r = poly::plus(p, d);
        poly::eval_plus(p, d, x);
        assert forall|j: int| 0 <= j < t implies #[trigger] q[j] % m == r[j] % m by {
            arith::mod_idem(p[j] + d[j], m);
        }
        poly::eval_cong(q, r, x, x, m);
        assert(poly::eval(d, x) % m == 0);
        arith::mod_small(0, m);
        arith::cong_add(poly::eval(p, x), poly::eval(p, x), poly::eval(d, x), 0, m);
        assert(robust::agrees(shares[i], p));
    }
}

/// Sum and difference undo each other.
pub proof fn sum_difference(p: Seq<int>, d: Seq<int>)
    requires
        poly::reduced(p, prime::modulus()),
        p.len() == d.len(),
    ensures
        difference(sum(p, d), d) == p,
        sum(difference(p, d), d) == p,
{
    let m = prime::modulus();
    assert forall|i: int| 0 <= i < p.len() implies #[trigger] difference(sum(p, d), d)[i] == p[i] by {
        arith::mod_idem(p[i] + d[i], m);
        arith::cong_sub((p[i] + d[i]) % m, p[i] + d[i], d[i], d[i], m);
        arith::mod_small(p[i], m);
    }
    assert forall|i: int| 0 <= i < p.len() implies #[trigger] sum(difference(p, d), d)[i] == p[i] by {
        arith::mod_idem(p[i] - d[i], m);
        arith::cong_add((p[i] - d[i]) % m, p[i] - d[i], d[i], d[i], m);
        arith::mod_small(p[i], m);
    }
    assert(difference(sum(p, d), d) =~= p);
    assert(sum(difference(p, d), d) =~= p);
}

/// With one share less than the threshold, exactly one polynomial goes with each
/// secret.
pub proof fn one_polynomial_per_secret(shares: Seq<Share>, t: int, secret: int) -> (p: Seq<int>)
    requires
        shares.len() == t - 1,
        member_shares(shares),
        0 <= secret < prime::modulus(),
    ensures
        consistent(shares, t, secret, p),
        forall|q: Seq<int>| #[trigger] consistent(shares, t, secret, q) ==> q == p,
{
    let m = prime::modulus();
    let k = shares.len() as int;
    let xs = shamir::points(shares).push(0);
    let ys = shamir::values(shares).push(secret);
    prime::modulus_is_prime();
    points_and_zero(shares);
    poly::interpolation_exists(xs, ys, m);
    let p = poly::interpolant(xs, ys, m);
    arith::mod_small(secret, m);
    assert(p[0] == secret) by {
        assert(xs[k] == 0);
        assert(poly::eval(p, xs[k]) % m == ys[k] % m);
        poly::eval_zero(p);
        arith::mod_small(p[0], m);
    }
    assert forall|i: int| 0 <= i < shares.len() implies robust::agrees(#[trigger] shares[i], p) by {
        assert(xs[i] == shares[i].index);
        assert(ys[i] == shares[i].value@);
        assert(poly::eval(p, xs[i]) % m == ys[i] % m);
        field::residue_range(shares[i].value);
        arith::mod_small(ys[i], m);
    }
    assert forall|q: Seq<int>| #[trigger] consistent(shares, t, secret, q) implies q == p by {
        assert forall|i: int| 0 <= i < xs.len() implies poly::eval(q, #[trigger] xs[i]) % m == ys[i]
            % m by {
            if i < k {
                assert(robust::agrees(shares[i], q));
                arith::mod_idem(poly::eval(q, xs[i]), m);
            } else {
                poly::eval_zero(q);
            }
        }
        poly::interpolation_unique(q, xs, ys, m);
    }
    p
}

/// Robust reconstruction gives the secret back as long as at most
/// `floor((m - t) / 2)` of the `m` shares do not lie on the polynomial, accepts
/// exactly the others, and counts the errors.
pub proof fn errors_are_corrected(
    r: Option<RobustReconstruction>,
    shares: Seq<Share>,
    t: int,
    p: Seq<int>,
)
    requires
        shamir::distinct_indices(shares),
        shamir::is_robust(r, shares, t),
        robust::close(shares, t, p),
    ensures
        r is Some,
        r->0.reads(shares, p),
{
    match r {
        Some(d) => {
            let q = choose|q: Seq<int>| #[trigger]
                robust::close(shares, t, q) && d.reads(shares, q);
            robust::close_unique(shares, t, p, q);
        },
        None => {
            assert(!robust::close(shares, t, p));
        },
    }
}

// ---------------------------------------------------------------------------
// The affine authorization value
// ---------------------------------------------------------------------------

/// Unforgeability: the authorization values at two different scalars are
/// independent. Every pair of values comes from exactly one coefficient pair, so
/// the value at one scalar says nothing about the value at another.
pub proof fn values_are_independent(x: int, y: int, sigma: int, tau: int) -> (k: (int, int))
    requires
        0 <= x < prime::modulus(),
        0 <= y < prime::modulus(),
        x != y,
        0 <= sigma < prime::modulus(),
        0 <= tau < prime::modulus(),
    ensures
        0 <= k.0 < prime::modulus(),
        0 <= k.1 < prime::modulus(),
        protocol::affine(k.0, x, k.1) == sigma,
        protocol::affine(k.0, y, k.1) == tau,
        forall|a: int, b: int|
            0 <= a < prime::modulus() && 0 <= b < prime::modulus() && #[trigger] protocol::affine(
                a,
                x,
                b,
            ) == sigma && protocol::affine(a, y, b) == tau ==> a == k.0 && b == k.1,
{
    let m = prime::modulus();
    prime::modulus_is_prime();
    assert((x - y) % m != 0) by {
        lemma_mod_equivalence(x, y, m);
        arith::mod_small(x, m);
        arith::mod_small(y, m);
    }
    let i = arith::prime_has_inverse(x - y, m);
    let a = (i * (sigma - tau)) % m;
    let b = (sigma - a * x) % m;
    arith::mod_idem(i * (sigma - tau), m);
    arith::mod_idem(sigma - a * x, m);
    arith::mod_small(sigma, m);
    arith::mod_small(tau, m);
    // a (x - y) = sigma - tau
    arith::cong_mul(a, i * (sigma - tau), x - y, x - y, m);
    assert((i * (sigma - tau)) * (x - y) == ((x - y) * i) * (sigma - tau)) by (nonlinear_arith);
    arith::mod_small(1, m);
    arith::cong_mul((x - y) * i, 1, sigma - tau, sigma - tau, m);
    assert(1 * (sigma - tau) == sigma - tau);
    assert((a * (x - y)) % m == (sigma - tau) % m);
    arith::cong_add(a * x, a * x, b, sigma - a * x, m);
    arith::cong_add(a * y, a * y, b, sigma - a * x, m);
    lemma_mul_is_distributive_sub(a, x, y);
    arith::cong_sub(sigma, sigma, a * (x - y), sigma - tau, m);
    assert forall|c: int, d: int|
        0 <= c < m && 0 <= d < m && #[trigger] protocol::affine(c, x, d) == sigma
            && protocol::affine(c, y, d) == tau implies c == a && d == b by {
        arith::cong_sub(c * x + d, sigma, c * y + d, tau, m);
        lemma_mul_is_distributive_sub(c, x, y);
        arith::cancel(c, a, x - y, m);
        arith::mod_small(c, m);
        arith::mod_small(a, m);
        arith::cong_sub(c * x + d, sigma, c * x, c * x, m);
        arith::mod_small(d, m);
    }
    (a, b)
}

/// Different scalars give different authorization values, unless the first
/// coefficient is zero.
pub proof fn different_scalars_different_values(k1: int, k2: int, x: int, y: int)
    requires
        k1 % prime::modulus() != 0,
        0 <= x < prime::modulus(),
        0 <= y < prime::modulus(),
        x != y,
    ensures
        protocol::affine(k1, x, k2) != protocol::affine(k1, y, k2),
{
    let m = prime::modulus();
    prime::modulus_is_prime();
    if protocol::affine(k1, x, k2) == protocol::affine(k1, y, k2) {
        arith::cong_sub(k1 * x + k2, k1 * y + k2, k2, k2, m);
        lemma_mul_is_commutative(k1, x);
        lemma_mul_is_commutative(k1, y);
        arith::cancel(x, y, k1, m);
        arith::mod_small(x, m);
        arith::mod_small(y, m);
    }
}

/// The polynomial that the evaluation shares of a slot lie on: `k1 * x + k2`,
/// coefficient by coefficient.
pub open spec fn evaluation_poly(p: SlotPolys, x: int) -> Seq<int> {
    Seq::new(p.k1.len(), |i: int| protocol::affine(p.k1[i], x, p.k2[i]))
}

/// The polynomial `k1 * x + k2` takes the combination of the values.
proof fn evaluation_poly_value(p: SlotPolys, x: int, z: int)
    requires
        p.k1.len() == p.k2.len(),
    ensures
        poly::reduced(evaluation_poly(p, x), prime::modulus()),
        shamir::value_at(evaluation_poly(p, x), z) == (poly::eval(p.k1, z) * x + poly::eval(p.k2, z))
            % prime::modulus(),
        shamir::value_at(evaluation_poly(p, x), z) == protocol::affine(
            shamir::value_at(p.k1, z),
            x,
            shamir::value_at(p.k2, z),
        ),
{
    let m = prime::modulus();
    let e = evaluation_poly(p, x);
    let s = poly::scale(x, p.k1);
    let r = poly::plus(s, p.k2);
    let (u, v) = (poly::eval(p.k1, z), poly::eval(p.k2, z));
    poly::eval_plus(s, p.k2, z);
    poly::eval_scale(x, p.k1, z);
    assert forall|i: int| 0 <= i < e.len() implies #[trigger] e[i] % m == r[i] % m && 0 <= e[i]
        < m by {
        arith::mod_idem(p.k1[i] * x + p.k2[i], m);
        lemma_mul_is_commutative(p.k1[i], x);
        assert(poly::coeff(s, i) == x * p.k1[i]);
    }
    poly::eval_cong(e, r, z, z, m);
    lemma_mul_is_commutative(u, x);
    arith::mod_idem(u, m);
    arith::mod_idem(v, m);
    arith::cong_mul(u % m, u, x, x, m);
    arith::cong_add((u % m) * x, u * x, v % m, v, m);
}

/// Verifier independence: the evaluation polynomial of an operation, and with it
/// all its evaluation shares, goes with every first coefficient polynomial and
/// exactly one second one.
pub proof fn evaluation_hides_coefficients(sigma: Seq<int>, x: int, k1: Seq<int>) -> (k2: Seq<int>)
    requires
        poly::reduced(sigma, prime::modulus()),
        poly::reduced(k1, prime::modulus()),
        k1.len() == sigma.len(),
    ensures
        k2.len() == k1.len(),
        poly::reduced(k2, prime::modulus()),
        forall|i: int|
            0 <= i < k1.len() ==> protocol::affine(k1[i], x, #[trigger] k2[i]) == sigma[i],
        forall|l: Seq<int>|
            #![trigger poly::reduced(l, prime::modulus())]
            l.len() == k1.len() && poly::reduced(l, prime::modulus()) && (forall|i: int|
                0 <= i < k1.len() ==> protocol::affine(k1[i], x, #[trigger] l[i]) == sigma[i])
                ==> l == k2,
{
    let m = prime::modulus();
    let k2 = Seq::new(k1.len(), |i: int| (sigma[i] - k1[i] * x) % m);
    assert forall|i: int| 0 <= i < k1.len() implies 0 <= #[trigger] k2[i] < m && protocol::affine(
        k1[i],
        x,
        k2[i],
    ) == sigma[i] by {
        let t = k1[i] * x;
        arith::mod_idem(sigma[i] - t, m);
        arith::cong_add(t, t, k2[i], sigma[i] - t, m);
        arith::mod_small(sigma[i], m);
    }
    assert forall|l: Seq<int>|
        #![trigger poly::reduced(l, m)]
        l.len() == k1.len() && poly::reduced(l, m) && (forall|i: int|
            0 <= i < k1.len() ==> protocol::affine(k1[i], x, #[trigger] l[i])
                == sigma[i]) implies l == k2 by {
        assert forall|i: int| 0 <= i < k1.len() implies l[i] == k2[i] by {
            let t = k1[i] * x;
            assert(protocol::affine(k1[i], x, l[i]) == sigma[i]);
            arith::mod_small(sigma[i], m);
            arith::cong_sub(t + l[i], sigma[i], t, t, m);
            arith::mod_small(l[i], m);
        }
        assert(l =~= k2);
    }
    k2
}

/// One dealer is enough: whatever the other dealers dealt, every sum comes from
/// exactly one polynomial of one more dealer.
pub proof fn one_dealer_decides(rows: Seq<Seq<int>>, t: int, target: Seq<int>) -> (p: Seq<int>)
    requires
        target.len() == t,
        poly::reduced(target, prime::modulus()),
    ensures
        p.len() == t,
        poly::reduced(p, prime::modulus()),
        setup::combined(rows.push(p), t) == target,
        forall|q: Seq<int>|
            q.len() == t && poly::reduced(q, prime::modulus()) && #[trigger] setup::combined(
                rows.push(q),
                t,
            ) == target ==> q == p,
{
    let m = prime::modulus();
    let s = Seq::new(t as nat, |i: int| pedersen::column_sum(rows, i));
    let p = difference(target, s);
    assert(rows.push(p).drop_last() =~= rows);
    assert forall|i: int| 0 <= i < t implies 0 <= #[trigger] p[i] < m && setup::combined(
        rows.push(p),
        t,
    )[i] == target[i] by {
        arith::mod_idem(target[i] - s[i], m);
        arith::cong_add(s[i], s[i], p[i], target[i] - s[i], m);
        arith::mod_small(target[i], m);
    }
    assert(setup::combined(rows.push(p), t) =~= target);
    assert forall|q: Seq<int>|
        q.len() == t && poly::reduced(q, m) && #[trigger] setup::combined(rows.push(q), t)
            == target implies q == p by {
        assert(rows.push(q).drop_last() =~= rows);
        assert forall|i: int| 0 <= i < t implies q[i] == p[i] by {
            assert(setup::combined(rows.push(q), t)[i] == (s[i] + q[i]) % m);
            arith::mod_small(target[i], m);
            arith::cong_sub(s[i] + q[i], target[i], s[i], s[i], m);
            arith::mod_small(q[i], m);
        }
        assert(q =~= p);
    }
    p
}

// ---------------------------------------------------------------------------
// Authorization
// ---------------------------------------------------------------------------

/// No member contributes twice.
pub open spec fn distinct_members(contributions: Seq<Contribution>) -> bool {
    forall|i: int, j: int|
        #![trigger contributions[i], contributions[j]]
        0 <= i < j < contributions.len() ==> contributions[i].member_index
            != contributions[j].member_index
}

/// Nothing is wrong with any of the contributions.
pub open spec fn all_accepted(
    policy: CustodyPolicy,
    contributions: Seq<Contribution>,
    coeff_id: u64,
    op_type: Seq<char>,
    nonce: u64,
    message: Seq<u8>,
) -> bool {
    forall|i: int|
        0 <= i < contributions.len() ==> protocol::contribution_error(
            policy,
            #[trigger] contributions[i],
            coeff_id,
            op_type,
            nonce,
            message,
        ) is None
}

/// There is a duplicate exactly where two contributions have one member.
pub proof fn duplicates_found(contributions: Seq<Contribution>)
    ensures
        protocol::first_duplicate(contributions) is None <==> distinct_members(contributions),
    decreases contributions.len(),
{
    if contributions.len() > 0 {
        let init = contributions.drop_last();
        let k = contributions.len() - 1;
        let seen = protocol::member_indices(init);
        duplicates_found(init);
        if protocol::first_duplicate(contributions) is None {
            assert forall|i: int, j: int|
                #![trigger contributions[i], contributions[j]]
                0 <= i < j < contributions.len() implies contributions[i].member_index
                != contributions[j].member_index by {
                if j < k {
                    assert(init[i].member_index != init[j].member_index);
                } else {
                    assert(seen[i] == contributions[i].member_index);
                    assert(!seen.contains(contributions[k].member_index));
                }
            }
        }
        if distinct_members(contributions) {
            assert forall|i: int, j: int|
                #![trigger init[i], init[j]]
                0 <= i < j < init.len() implies init[i].member_index != init[j].member_index by {
                assert(contributions[i].member_index != contributions[j].member_index);
            }
            if seen.contains(contributions[k].member_index) {
                let i = choose|i: int|
                    0 <= i < seen.len() && seen[i] == contributions[k].member_index;
                assert(contributions[i].member_index == contributions[k].member_index);
            }
        }
    }
}

/// There is a first error exactly where something is wrong.
pub proof fn errors_found(
    policy: CustodyPolicy,
    contributions: Seq<Contribution>,
    coeff_id: u64,
    op_type: Seq<char>,
    nonce: u64,
    message: Seq<u8>,
)
    ensures
        protocol::first_error(policy, contributions, coeff_id, op_type, nonce, message) is None
            <==> all_accepted(policy, contributions, coeff_id, op_type, nonce, message),
    decreases contributions.len(),
{
    if contributions.len() > 0 {
        let init = contributions.drop_last();
        let k = contributions.len() - 1;
        errors_found(policy, init, coeff_id, op_type, nonce, message);
        if protocol::first_error(policy, contributions, coeff_id, op_type, nonce, message) is None {
            assert forall|i: int| 0 <= i < contributions.len() implies protocol::contribution_error(
                policy,
                #[trigger] contributions[i],
                coeff_id,
                op_type,
                nonce,
                message,
            ) is None by {
                if i < k {
                    assert(init[i] == contributions[i]);
                }
            }
        }
        if all_accepted(policy, contributions, coeff_id, op_type, nonce, message) {
            assert forall|i: int| 0 <= i < init.len() implies protocol::contribution_error(
                policy,
                #[trigger] init[i],
                coeff_id,
                op_type,
                nonce,
                message,
            ) is None by {
                assert(init[i] == contributions[i]);
            }
            assert(contributions[k] == contributions.last());
        }
    }
}

/// Distinct members have distinct evaluation shares.
pub proof fn distinct_evaluations(contributions: Seq<Contribution>)
    requires
        distinct_members(contributions),
    ensures
        shamir::distinct_indices(protocol::evaluation_shares(contributions)),
{
    let shares = protocol::evaluation_shares(contributions);
    assert forall|i: int, j: int|
        #![trigger shares[i], shares[j]]
        0 <= i < j < shares.len() implies shares[i].index != shares[j].index by {
        assert(contributions[i].member_index != contributions[j].member_index);
    }
}

/// An operation is authorized exactly where its coefficient identifier is
/// unused, no member contributes twice, nothing is wrong with any contribution,
/// the contributions reach the threshold, and some polynomial is close to their
/// evaluation shares.
pub proof fn authorized_exactly_when(
    result: Result<AuthorizationReceipt, AuthError>,
    before: CustodyPolicy,
    after: CustodyPolicy,
    contributions: Seq<Contribution>,
    coeff_id: u64,
    op_type: Seq<char>,
    nonce: u64,
    message: Seq<u8>,
)
    requires
        protocol::is_outcome(
            result,
            before,
            after,
            contributions,
            coeff_id,
            op_type,
            nonce,
            message,
        ),
    ensures
        result is Ok <==> {
            &&& !before.consumed_coeffids@.contains(coeff_id)
            &&& distinct_members(contributions)
            &&& all_accepted(before, contributions, coeff_id, op_type, nonce, message)
            &&& contributions.len() >= before.threshold
            &&& exists|p: Seq<int>| #[trigger]
                robust::close(
                    protocol::evaluation_shares(contributions),
                    before.threshold as int,
                    p,
                )
        },
{
    duplicates_found(contributions);
    errors_found(before, contributions, coeff_id, op_type, nonce, message);
}

/// The first gate: an authorized operation has at least as many contributions as
/// the threshold, from distinct registered members, each with a signature that
/// verifies under the member's key over the envelope of the operation.
pub proof fn authorization_needs_a_signed_quorum(
    result: Result<AuthorizationReceipt, AuthError>,
    before: CustodyPolicy,
    after: CustodyPolicy,
    contributions: Seq<Contribution>,
    coeff_id: u64,
    op_type: Seq<char>,
    nonce: u64,
    message: Seq<u8>,
)
    requires
        protocol::is_outcome(
            result,
            before,
            after,
            contributions,
            coeff_id,
            op_type,
            nonce,
            message,
        ),
        result is Ok,
    ensures
        1 <= before.threshold <= contributions.len(),
        distinct_members(contributions),
        forall|i: int|
            #![trigger contributions[i]]
            0 <= i < contributions.len() ==> {
                let c = contributions[i];
                &&& 1 <= c.member_index <= before.member_keys@.len()
                &&& c.envelope@ == before.expected_envelope(c, coeff_id, op_type, nonce, message)
                &&& before.member_keys@[c.member_index - 1].accepts(c.envelope@, c.signature)
            },
{
    authorized_exactly_when(
        result,
        before,
        after,
        contributions,
        coeff_id,
        op_type,
        nonce,
        message,
    );
    assert forall|i: int|
        #![trigger contributions[i]]
        0 <= i < contributions.len() implies {
        let c = contributions[i];
        &&& 1 <= c.member_index <= before.member_keys@.len()
        &&& c.envelope@ == before.expected_envelope(c, coeff_id, op_type, nonce, message)
        &&& before.member_keys@[c.member_index - 1].accepts(c.envelope@, c.signature)
    } by {
        assert(protocol::contribution_error(
            before,
            contributions[i],
            coeff_id,
            op_type,
            nonce,
            message,
        ) is None);
    }
}

/// A quorum whose evaluation shares are close to a polynomial is authorized with
/// its constant term, and the receipt names the members whose shares lie on it.
pub proof fn close_quorum_authorizes(
    result: Result<AuthorizationReceipt, AuthError>,
    before: CustodyPolicy,
    after: CustodyPolicy,
    contributions: Seq<Contribution>,
    coeff_id: u64,
    op_type: Seq<char>,
    nonce: u64,
    message: Seq<u8>,
    p: Seq<int>,
)
    requires
        protocol::is_outcome(
            result,
            before,
            after,
            contributions,
            coeff_id,
            op_type,
            nonce,
            message,
        ),
        !before.consumed_coeffids@.contains(coeff_id),
        distinct_members(contributions),
        all_accepted(before, contributions, coeff_id, op_type, nonce, message),
        robust::close(protocol::evaluation_shares(contributions), before.threshold as int, p),
    ensures
        result is Ok,
        result->Ok_0.attests(
            contributions,
            before.threshold,
            coeff_id,
            backend::sha256(message),
            p,
        ),
        protocol::consumes(before, after, coeff_id),
{
    let shares = protocol::evaluation_shares(contributions);
    let t = before.threshold as int;
    duplicates_found(contributions);
    errors_found(before, contributions, coeff_id, op_type, nonce, message);
    distinct_evaluations(contributions);
    assert(protocol::refusal(before, contributions, coeff_id, op_type, nonce, message) is None);
    let q = choose|q: Seq<int>| #[trigger]
        result->Ok_0.attests(
            contributions,
            before.threshold,
            coeff_id,
            backend::sha256(message),
            q,
        );
    robust::close_unique(shares, t, p, q);
}

/// A polynomial with `t` coefficients, all residues.
pub open spec fn is_sized(p: Seq<int>, t: int) -> bool {
    p.len() == t && poly::reduced(p, prime::modulus())
}

/// Every polynomial of the setup has `t` coefficients, all residues.
pub open spec fn sized(polys: Seq<SlotPolys>, t: int) -> bool {
    forall|s: int|
        #![trigger polys[s]]
        0 <= s < polys.len() ==> is_sized(polys[s].k1, t) && is_sized(polys[s].k2, t) && is_sized(
            polys[s].k1_blind,
            t,
        ) && is_sized(polys[s].k2_blind, t)
}

/// The polynomials that a setup sums up have `t` coefficients, all residues.
pub proof fn setup_polys_sized(d: Seq<int>, t: int, n: int, slots: int)
    requires
        t >= 0,
        slots >= 0,
    ensures
        sized(setup::setup_polys(d, t, n, slots), t),
{
    let m = prime::modulus();
    assert forall|rows: Seq<Seq<int>>| is_sized(#[trigger] setup::combined(rows, t), t) by {
        let c = setup::combined(rows, t);
        assert forall|i: int| 0 <= i < c.len() implies 0 <= #[trigger] c[i] < m by {
            arith::mod_idem(pedersen::column_sum(rows, i), m);
        }
    }
}

/// The first coefficient shares of some members for a slot.
pub open spec fn k1_shares(out: SetupOutput, slot: int, members: Seq<int>) -> Seq<Share> {
    Seq::new(members.len(), |i: int| out.member_shares@[members[i]]@[slot].k1_share)
}

/// The second coefficient shares of some members for a slot.
pub open spec fn k2_shares(out: SetupOutput, slot: int, members: Seq<int>) -> Seq<Share> {
    Seq::new(members.len(), |i: int| out.member_shares@[members[i]]@[slot].k2_share)
}

/// The setup shares the coefficients: any `t` members hold shares that
/// reconstruct the first coefficient of a slot, and shares that reconstruct the
/// second.
pub proof fn setup_shares_coefficients(
    out: SetupOutput,
    polys: Seq<SlotPolys>,
    t: u32,
    n: u32,
    kind: ShareCorrectnessProfileKind,
    slot: int,
    members: Seq<int>,
)
    requires
        setup::is_setup(out, polys, t, n, kind),
        sized(polys, t as int),
        0 <= slot < polys.len(),
        1 <= t <= members.len(),
        forall|i: int| 0 <= i < members.len() ==> 0 <= #[trigger] members[i] < n,
        forall|i: int, j: int|
            #![trigger members[i], members[j]]
            0 <= i < j < members.len() ==> members[i] != members[j],
    ensures
        shamir::secret_of(k1_shares(out, slot, members)) == polys[slot].k1[0],
        shamir::secret_of(k2_shares(out, slot, members)) == polys[slot].k2[0],
{
    let p = polys[slot];
    let a = k1_shares(out, slot, members);
    let b = k2_shares(out, slot, members);
    assert forall|i: int| 0 <= i < members.len() implies setup::is_member_share(
        out.member_shares@[#[trigger] members[i]]@[slot],
        p,
        slot,
        members[i],
    ) by {}
    assert forall|i: int, j: int|
        #![trigger a[i], a[j]]
        0 <= i < j < a.len() implies a[i].index != a[j].index by {
        assert(members[i] != members[j]);
    }
    assert forall|i: int, j: int|
        #![trigger b[i], b[j]]
        0 <= i < j < b.len() implies b[i].index != b[j].index by {
        assert(members[i] != members[j]);
    }
    assert forall|i: int| 0 <= i < a.len() implies robust::agrees(#[trigger] a[i], p.k1) by {
        assert(0 <= members[i] < n);
    }
    assert forall|i: int| 0 <= i < b.len() implies robust::agrees(#[trigger] b[i], p.k2) by {
        assert(0 <= members[i] < n);
    }
    shares_reconstruct(a, p.k1);
    shares_reconstruct(b, p.k2);
}

/// The policy registers the members of the setup: their verifying keys, its
/// threshold, and a profile that commits to its polynomials.
pub open spec fn governs(
    policy: CustodyPolicy,
    keys: Seq<SigningKey>,
    polys: Seq<SlotPolys>,
    t: u32,
    n: u32,
    kind: ShareCorrectnessProfileKind,
) -> bool {
    &&& policy.threshold == t
    &&& policy.member_keys@.len() == n
    &&& keys.len() == n
    &&& forall|i: int| 0 <= i < n ==> #[trigger] policy.member_keys@[i] == keys[i].public()
    &&& setup::is_profile(policy.share_profile, kind, polys, n as int)
}

/// The contribution is one that a member of the setup approves the operation
/// with: its own coefficient share of the slot, signed with its own key.
pub open spec fn is_honest(
    c: Contribution,
    policy: CustodyPolicy,
    keys: Seq<SigningKey>,
    out: SetupOutput,
    slot: int,
    op_type: Seq<char>,
    nonce: u64,
    message: Seq<u8>,
) -> bool {
    &&& 1 <= c.member_index <= out.n
    &&& protocol::is_evaluation(
        c.eval_share,
        c.opening,
        out.member_shares@[c.member_index - 1]@[slot],
        policy.share_profile,
        policy.scalar(slot as u64, op_type, nonce, message),
    )
    &&& protocol::is_signed(
        c,
        keys[c.member_index - 1],
        policy,
        slot as u64,
        op_type,
        nonce,
        message,
    )
}

/// An identifier that does not occur has no position.
proof fn no_position(ids: Seq<u64>, id: u64)
    requires
        forall|i: int| 0 <= i < ids.len() ==> #[trigger] ids[i] != id,
    ensures
        protocol::position(ids, id) is None,
    decreases ids.len(),
{
    if ids.len() > 0 {
        no_position(ids.drop_last(), id);
    }
}

/// In a list that counts up from zero, every identifier is its own position.
proof fn counting_position(ids: Seq<u64>, id: u64)
    requires
        id < ids.len(),
        forall|i: int| 0 <= i < ids.len() ==> #[trigger] ids[i] == i,
    ensures
        protocol::position(ids, id) == Some(id as int),
    decreases ids.len(),
{
    let init = ids.drop_last();
    if id < init.len() {
        counting_position(init, id);
    } else {
        no_position(init, id);
        assert(ids.last() == id);
    }
}

/// Every honest approval opens correctly under the profile that the setup
/// activated, whatever its kind, and its evaluation share lies on `k1 * x + k2`.
pub proof fn honest_opening_accepted(
    c: Contribution,
    profile: ShareCorrectnessProfile,
    share: CoefficientShare,
    polys: Seq<SlotPolys>,
    t: u32,
    n: u32,
    kind: ShareCorrectnessProfileKind,
    slot: int,
    x: int,
)
    requires
        setup::is_profile(profile, kind, polys, n as int),
        sized(polys, t as int),
        0 <= slot < polys.len(),
        slot <= u64::MAX,
        1 <= c.member_index <= n,
        setup::is_member_share(share, polys[slot], slot, c.member_index - 1),
        protocol::is_evaluation(c.eval_share, c.opening, share, profile, x),
    ensures
        protocol::opening_error(profile, slot as u64, x, c) is None,
        robust::agrees(
            Share { index: c.member_index, value: c.eval_share },
            evaluation_poly(polys[slot], x),
        ),
{
    let m = prime::modulus();
    let p = polys[slot];
    let i = c.member_index - 1;
    let z = c.member_index as int;
    evaluation_poly_value(p, x, z);
    assert(c.eval_share@ == protocol::affine(
        shamir::value_at(p.k1, z),
        x,
        shamir::value_at(p.k2, z),
    ));
    match profile {
        ShareCorrectnessProfile::HashCommitted { commitments, setuproot } => {
            let ids = protocol::hash_ids(commitments@);
            assert forall|s: int| 0 <= s < ids.len() implies #[trigger] ids[s] == s by {
                assert(setup::is_hash_slot(commitments@[s], polys[s], s, n as int));
            }
            counting_position(ids, slot as u64);
            assert(setup::is_hash_slot(commitments@[slot], p, slot, n as int));
            assert(commitments@[slot].per_member@[i] == messages::share_commitment(
                slot as u64,
                (i + 1) as u32,
                shamir::value_at(p.k1, i + 1),
                shamir::value_at(p.k2, i + 1),
            ));
        },
        ShareCorrectnessProfile::Pedersen { commitments } => {
            let ids = protocol::pedersen_ids(commitments@);
            assert forall|s: int| 0 <= s < ids.len() implies #[trigger] ids[s] == s by {
                assert(setup::is_pedersen_slot(commitments@[s], polys[s], s));
            }
            counting_position(ids, slot as u64);
            let com = commitments@[slot];
            assert(setup::is_pedersen_slot(com, p, slot));
            let blinds = SlotPolys { k1: p.k1_blind, k2: p.k2_blind, ..p };
            evaluation_poly_value(blinds, x, z);
            let b = c.opening->eval_blind;
            arith::mod_idem(poly::eval(p.k1, z) * x + poly::eval(p.k2, z), m);
            arith::mod_idem(poly::eval(p.k1_blind, z) * x + poly::eval(p.k2_blind, z), m);
            pedersen::honest_evaluation_opens(
                com.k1.logs(),
                com.k2.logs(),
                p.k1,
                p.k1_blind,
                p.k2,
                p.k2_blind,
                z,
                x,
                c.eval_share@,
                b@,
            );
        },
        ShareCorrectnessProfile::ExternalAvssTranscript => {},
    }
}

/// An honest contribution is accepted, under every profile, and its evaluation
/// share lies on `k1 * x + k2`.
pub proof fn honest_contribution_accepted(
    c: Contribution,
    policy: CustodyPolicy,
    keys: Seq<SigningKey>,
    out: SetupOutput,
    polys: Seq<SlotPolys>,
    t: u32,
    n: u32,
    kind: ShareCorrectnessProfileKind,
    slot: int,
    op_type: Seq<char>,
    nonce: u64,
    message: Seq<u8>,
)
    requires
        setup::is_setup(out, polys, t, n, kind),
        sized(polys, t as int),
        governs(policy, keys, polys, t, n, kind),
        0 <= slot < polys.len(),
        slot <= u64::MAX,
        is_honest(c, policy, keys, out, slot, op_type, nonce, message),
    ensures
        protocol::contribution_error(policy, c, slot as u64, op_type, nonce, message) is None,
        robust::agrees(
            Share { index: c.member_index, value: c.eval_share },
            evaluation_poly(polys[slot], policy.scalar(slot as u64, op_type, nonce, message)),
        ),
{
    let i = c.member_index - 1;
    let share = out.member_shares@[i]@[slot];
    assert(setup::is_member_share(share, polys[slot], slot, i));
    assert(policy.member_keys@[i] == keys[i].public());
    honest_opening_accepted(
        c,
        policy.share_profile,
        share,
        polys,
        t,
        n,
        kind,
        slot,
        policy.scalar(slot as u64, op_type, nonce, message),
    );
}

/// A Pedersen opening cannot be changed in one place: with another evaluation
/// share, or with another blinding factor, what was accepted is refused as an
/// invalid opening.
pub proof fn changed_pedersen_opening_refused(
    profile: ShareCorrectnessProfile,
    coeff_id: u64,
    x: int,
    c: Contribution,
    changed: Contribution,
)
    requires
        profile is Pedersen,
        pedersen::h_exists(),
        protocol::opening_error(profile, coeff_id, x, c) is None,
        changed.member_index == c.member_index,
        changed.opening is Pedersen,
        (changed.eval_share@ != c.eval_share@) != (changed.opening->eval_blind@
            != c.opening->eval_blind@),
    ensures
        protocol::opening_error(profile, coeff_id, x, changed) == Some(
            AuthError::InvalidShareOpening { member_index: c.member_index },
        ),
{
    let m = prime::modulus();
    let (e, b) = (c.eval_share, c.opening->eval_blind);
    let (e2, b2) = (changed.eval_share, changed.opening->eval_blind);
    field::residue_range(e);
    field::residue_range(b);
    field::residue_range(e2);
    field::residue_range(b2);
    arith::mod_small(e@, m);
    arith::mod_small(b@, m);
    arith::mod_small(e2@, m);
    arith::mod_small(b2@, m);
    match profile {
        ShareCorrectnessProfile::Pedersen { commitments } => {
            let s = protocol::position(protocol::pedersen_ids(commitments@), coeff_id)->0;
            pedersen::changed_evaluation_refused(
                commitments@[s].k1.logs(),
                commitments@[s].k2.logs(),
                c.member_index as int,
                x,
                e@,
                b@,
                e2@,
                b2@,
            );
        },
        _ => {},
    }
}

/// Beside the same revealed shares, an evaluation share cannot be changed: the
/// hash-committed opening is refused as invalid.
pub proof fn changed_hash_evaluation_refused(
    profile: ShareCorrectnessProfile,
    coeff_id: u64,
    x: int,
    c: Contribution,
    changed: Contribution,
)
    requires
        profile is HashCommitted,
        protocol::opening_error(profile, coeff_id, x, c) is None,
        changed.member_index == c.member_index,
        messages::same_opening(changed.opening, c.opening),
        changed.eval_share@ != c.eval_share@,
    ensures
        protocol::opening_error(profile, coeff_id, x, changed) == Some(
            AuthError::InvalidShareOpening { member_index: c.member_index },
        ),
{
}

/// A member who signs a changed Pedersen contribution is refused for the opening:
/// the envelope and the signature are right, and the operation is not authorized.
pub proof fn changed_pedersen_contribution_refused(
    policy: CustodyPolicy,
    key: SigningKey,
    c: Contribution,
    changed: Contribution,
    coeff_id: u64,
    op_type: Seq<char>,
    nonce: u64,
    message: Seq<u8>,
)
    requires
        policy.share_profile is Pedersen,
        pedersen::h_exists(),
        protocol::contribution_error(policy, c, coeff_id, op_type, nonce, message) is None,
        policy.member_keys@[c.member_index - 1] == key.public(),
        changed.member_index == c.member_index,
        changed.opening is Pedersen,
        (changed.eval_share@ != c.eval_share@) != (changed.opening->eval_blind@
            != c.opening->eval_blind@),
        protocol::is_signed(changed, key, policy, coeff_id, op_type, nonce, message),
    ensures
        protocol::contribution_error(policy, changed, coeff_id, op_type, nonce, message) == Some(
            AuthError::InvalidShareOpening { member_index: c.member_index },
        ),
{
    changed_pedersen_opening_refused(
        policy.share_profile,
        coeff_id,
        policy.scalar(coeff_id, op_type, nonce, message),
        c,
        changed,
    );
}

/// Where every share lies on the polynomial, all are on one side.
proof fn one_side(shares: Seq<Share>, p: Seq<int>)
    requires
        all_agree(shares, p),
    ensures
        robust::agreeing(shares, p) == shares,
        robust::disagreeing(shares, p).len() == 0,
    decreases shares.len(),
{
    if shares.len() > 0 {
        let init = shares.drop_last();
        assert(robust::agrees(shares[shares.len() - 1], p));
        assert(all_agree(init, p)) by {
            assert forall|i: int| 0 <= i < init.len() implies robust::agrees(
                #[trigger] init[i],
                p,
            ) by {
                assert(robust::agrees(shares[i], p));
            }
        }
        one_side(init, p);
        assert(init.push(shares.last()) =~= shares);
    }
}

/// Where all evaluation shares of an authorized operation lie on `k1 * x + k2`,
/// this is the authorization value, and the receipt names all contributors.
proof fn agreeing_quorum_value(
    result: Result<AuthorizationReceipt, AuthError>,
    before: CustodyPolicy,
    after: CustodyPolicy,
    contributions: Seq<Contribution>,
    p: SlotPolys,
    coeff_id: u64,
    op_type: Seq<char>,
    nonce: u64,
    message: Seq<u8>,
)
    requires
        p.k1.len() == before.threshold,
        p.k2.len() == before.threshold,
        before.threshold >= 1,
        contributions.len() >= before.threshold,
        !before.consumed_coeffids@.contains(coeff_id),
        distinct_members(contributions),
        all_accepted(before, contributions, coeff_id, op_type, nonce, message),
        all_agree(
            protocol::evaluation_shares(contributions),
            evaluation_poly(p, before.scalar(coeff_id, op_type, nonce, message)),
        ),
        protocol::is_outcome(
            result,
            before,
            after,
            contributions,
            coeff_id,
            op_type,
            nonce,
            message,
        ),
    ensures
        result is Ok,
        result->Ok_0.sigma@ == protocol::affine(
            p.k1[0],
            before.scalar(coeff_id, op_type, nonce, message),
            p.k2[0],
        ),
        result->Ok_0.member_bitmap@ == protocol::member_indices(contributions),
        result->Ok_0.coeff_id == coeff_id,
        result->Ok_0.message_hash == backend::sha256(message),
        protocol::consumes(before, after, coeff_id),
{
    let shares = protocol::evaluation_shares(contributions);
    let x = before.scalar(coeff_id, op_type, nonce, message);
    let q = evaluation_poly(p, x);
    one_side(shares, q);
    evaluation_poly_value(p, x, 0);
    assert(robust::close(shares, before.threshold as int, q));
    close_quorum_authorizes(
        result,
        before,
        after,
        contributions,
        coeff_id,
        op_type,
        nonce,
        message,
        q,
    );
    assert(shamir::indices(shares) =~= protocol::member_indices(contributions));
}

/// Both gates pass for an honest quorum, under every profile: the operation is
/// authorized, the authorization value is `k1 * x + k2` for the shared
/// coefficients, the receipt names all contributors, and the coefficient
/// identifier is consumed.
pub proof fn honest_quorum_authorizes(
    result: Result<AuthorizationReceipt, AuthError>,
    before: CustodyPolicy,
    after: CustodyPolicy,
    contributions: Seq<Contribution>,
    keys: Seq<SigningKey>,
    out: SetupOutput,
    polys: Seq<SlotPolys>,
    t: u32,
    n: u32,
    kind: ShareCorrectnessProfileKind,
    slot: int,
    op_type: Seq<char>,
    nonce: u64,
    message: Seq<u8>,
)
    requires
        t >= 1,
        setup::is_setup(out, polys, t, n, kind),
        sized(polys, t as int),
        governs(before, keys, polys, t, n, kind),
        0 <= slot < polys.len(),
        slot <= u64::MAX,
        !before.consumed_coeffids@.contains(slot as u64),
        contributions.len() >= t,
        distinct_members(contributions),
        forall|i: int|
            0 <= i < contributions.len() ==> is_honest(
                #[trigger] contributions[i],
                before,
                keys,
                out,
                slot,
                op_type,
                nonce,
                message,
            ),
        protocol::is_outcome(
            result,
            before,
            after,
            contributions,
            slot as u64,
            op_type,
            nonce,
            message,
        ),
    ensures
        result is Ok,
        result->Ok_0.sigma@ == protocol::affine(
            polys[slot].k1[0],
            before.scalar(slot as u64, op_type, nonce, message),
            polys[slot].k2[0],
        ),
        result->Ok_0.member_bitmap@ == protocol::member_indices(contributions),
        result->Ok_0.coeff_id == slot,
        result->Ok_0.message_hash == backend::sha256(message),
        protocol::consumes(before, after, slot as u64),
{
    let shares = protocol::evaluation_shares(contributions);
    let x = before.scalar(slot as u64, op_type, nonce, message);
    let p = evaluation_poly(polys[slot], x);
    assert forall|i: int| 0 <= i < contributions.len() implies protocol::contribution_error(
        before,
        #[trigger] contributions[i],
        slot as u64,
        op_type,
        nonce,
        message,
    ) is None && robust::agrees(shares[i], p) by {
        honest_contribution_accepted(
            contributions[i],
            before,
            keys,
            out,
            polys,
            t,
            n,
            kind,
            slot,
            op_type,
            nonce,
            message,
        );
    }
    assert(all_agree(shares, p)) by {
        assert forall|i: int| 0 <= i < shares.len() implies robust::agrees(
            #[trigger] shares[i],
            p,
        ) by {
            assert(shares[i].index == contributions[i].member_index);
        }
    }
    agreeing_quorum_value(
        result,
        before,
        after,
        contributions,
        polys[slot],
        slot as u64,
        op_type,
        nonce,
        message,
    );
}

/// From setup to authorization: whatever random elements a setup drew, under the
/// profile it activated any honest quorum is authorized, in any order, with
/// `K1 * x + K2`, where `K1` and `K2` are what the shares of any `t` members
/// reconstruct to.
pub proof fn setup_to_authorization(
    result: Result<AuthorizationReceipt, AuthError>,
    before: CustodyPolicy,
    after: CustodyPolicy,
    contributions: Seq<Contribution>,
    keys: Seq<SigningKey>,
    out: SetupOutput,
    t: u32,
    n: u32,
    batch_size: usize,
    kind: ShareCorrectnessProfileKind,
    slot: int,
    members: Seq<int>,
    op_type: Seq<char>,
    nonce: u64,
    message: Seq<u8>,
)
    requires
        t >= 1,
        setup::is_random_setup(out, t, n, batch_size, kind),
        before.threshold == t,
        before.share_profile == out.share_profile,
        before.member_keys@.len() == n,
        keys.len() == n,
        forall|i: int| 0 <= i < n ==> #[trigger] before.member_keys@[i] == keys[i].public(),
        0 <= slot < batch_size,
        !before.consumed_coeffids@.contains(slot as u64),
        contributions.len() >= t,
        distinct_members(contributions),
        forall|i: int|
            0 <= i < contributions.len() ==> is_honest(
                #[trigger] contributions[i],
                before,
                keys,
                out,
                slot,
                op_type,
                nonce,
                message,
            ),
        members.len() >= t,
        forall|i: int| 0 <= i < members.len() ==> 0 <= #[trigger] members[i] < n,
        forall|i: int, j: int|
            #![trigger members[i], members[j]]
            0 <= i < j < members.len() ==> members[i] != members[j],
        protocol::is_outcome(
            result,
            before,
            after,
            contributions,
            slot as u64,
            op_type,
            nonce,
            message,
        ),
    ensures
        result is Ok,
        result->Ok_0.sigma@ == protocol::affine(
            shamir::secret_of(k1_shares(out, slot, members)),
            before.scalar(slot as u64, op_type, nonce, message),
            shamir::secret_of(k2_shares(out, slot, members)),
        ),
        result->Ok_0.member_bitmap@ == protocol::member_indices(contributions),
        protocol::consumes(before, after, slot as u64),
{
    let d = choose|d: Seq<int>|
        d.len() == 4 * t * n * batch_size && setup::is_setup(
            out,
            #[trigger] setup::setup_polys(d, t as int, n as int, batch_size as int),
            t,
            n,
            kind,
        );
    let polys = setup::setup_polys(d, t as int, n as int, batch_size as int);
    setup_polys_sized(d, t as int, n as int, batch_size as int);
    assert(governs(before, keys, polys, t, n, kind));
    honest_quorum_authorizes(
        result,
        before,
        after,
        contributions,
        keys,
        out,
        polys,
        t,
        n,
        kind,
        slot,
        op_type,
        nonce,
        message,
    );
    setup_shares_coefficients(out, polys, t, n, kind, slot, members);
}

/// Any two honest quorums reconstruct the same authorization value for one
/// operation.
pub proof fn any_quorum_reconstructs_the_same(
    result: Result<AuthorizationReceipt, AuthError>,
    after: CustodyPolicy,
    contributions: Seq<Contribution>,
    result2: Result<AuthorizationReceipt, AuthError>,
    after2: CustodyPolicy,
    contributions2: Seq<Contribution>,
    policy: CustodyPolicy,
    keys: Seq<SigningKey>,
    out: SetupOutput,
    polys: Seq<SlotPolys>,
    t: u32,
    n: u32,
    kind: ShareCorrectnessProfileKind,
    slot: int,
    op_type: Seq<char>,
    nonce: u64,
    message: Seq<u8>,
)
    requires
        t >= 1,
        setup::is_setup(out, polys, t, n, kind),
        sized(polys, t as int),
        governs(policy, keys, polys, t, n, kind),
        0 <= slot < polys.len(),
        slot <= u64::MAX,
        !policy.consumed_coeffids@.contains(slot as u64),
        contributions.len() >= t,
        distinct_members(contributions),
        forall|i: int|
            0 <= i < contributions.len() ==> is_honest(
                #[trigger] contributions[i],
                policy,
                keys,
                out,
                slot,
                op_type,
                nonce,
                message,
            ),
        contributions2.len() >= t,
        distinct_members(contributions2),
        forall|i: int|
            0 <= i < contributions2.len() ==> is_honest(
                #[trigger] contributions2[i],
                policy,
                keys,
                out,
                slot,
                op_type,
                nonce,
                message,
            ),
        protocol::is_outcome(
            result,
            policy,
            after,
            contributions,
            slot as u64,
            op_type,
            nonce,
            message,
        ),
        protocol::is_outcome(
            result2,
            policy,
            after2,
            contributions2,
            slot as u64,
            op_type,
            nonce,
            message,
        ),
    ensures
        result is Ok,
        result2 is Ok,
        result->Ok_0.sigma@ == result2->Ok_0.sigma@,
{
    honest_quorum_authorizes(
        result,
        policy,
        after,
        contributions,
        keys,
        out,
        polys,
        t,
        n,
        kind,
        slot,
        op_type,
        nonce,
        message,
    );
    honest_quorum_authorizes(
        result2,
        policy,
        after2,
        contributions2,
        keys,
        out,
        polys,
        t,
        n,
        kind,
        slot,
        op_type,
        nonce,
        message,
    );
}

/// Malformed shares are corrected: where the contributions are accepted and at
/// most `floor((m - t) / 2)` of their `m` evaluation shares miss `k1 * x + k2`,
/// the operation is authorized with the same value, and the receipt names the
/// members whose shares lie on the polynomial.
pub proof fn malformed_shares_are_corrected(
    result: Result<AuthorizationReceipt, AuthError>,
    before: CustodyPolicy,
    after: CustodyPolicy,
    contributions: Seq<Contribution>,
    p: SlotPolys,
    coeff_id: u64,
    op_type: Seq<char>,
    nonce: u64,
    message: Seq<u8>,
)
    requires
        before.threshold >= 1,
        p.k1.len() == before.threshold,
        p.k2.len() == before.threshold,
        !before.consumed_coeffids@.contains(coeff_id),
        distinct_members(contributions),
        all_accepted(before, contributions, coeff_id, op_type, nonce, message),
        2 * robust::disagreeing(
            protocol::evaluation_shares(contributions),
            evaluation_poly(p, before.scalar(coeff_id, op_type, nonce, message)),
        ).len() + before.threshold <= contributions.len(),
        protocol::is_outcome(
            result,
            before,
            after,
            contributions,
            coeff_id,
            op_type,
            nonce,
            message,
        ),
    ensures
        result is Ok,
        result->Ok_0.sigma@ == protocol::affine(
            p.k1[0],
            before.scalar(coeff_id, op_type, nonce, message),
            p.k2[0],
        ),
        result->Ok_0.member_bitmap@ == shamir::indices(
            robust::agreeing(
                protocol::evaluation_shares(contributions),
                evaluation_poly(p, before.scalar(coeff_id, op_type, nonce, message)),
            ),
        ),
{
    let x = before.scalar(coeff_id, op_type, nonce, message);
    evaluation_poly_value(p, x, 0);
    close_quorum_authorizes(
        result,
        before,
        after,
        contributions,
        coeff_id,
        op_type,
        nonce,
        message,
        evaluation_poly(p, x),
    );
}

/// One step in the life of a policy: an operation is answered.
pub open spec fn is_step(before: CustodyPolicy, after: CustodyPolicy) -> bool {
    exists|
        result: Result<AuthorizationReceipt, AuthError>,
        contributions: Seq<Contribution>,
        coeff_id: u64,
        op_type: Seq<char>,
        nonce: u64,
        message: Seq<u8>,
    | #[trigger]
        protocol::is_outcome(
            result,
            before,
            after,
            contributions,
            coeff_id,
            op_type,
            nonce,
            message,
        )
}

/// Coefficient reuse prevention: once a coefficient identifier is consumed, it
/// stays consumed through every later operation, and every request to use it
/// again is refused as such.
pub proof fn consumed_stays_consumed(
    history: Seq<CustodyPolicy>,
    k: int,
    coeff_id: u64,
    contributions: Seq<Contribution>,
    op_type: Seq<char>,
    nonce: u64,
    message: Seq<u8>,
)
    requires
        0 <= k < history.len(),
        history[0].consumed_coeffids@.contains(coeff_id),
        forall|i: int|
            0 <= i < history.len() - 1 ==> is_step(#[trigger] history[i], history[i + 1]),
    ensures
        history[k].consumed_coeffids@.contains(coeff_id),
        protocol::refusal(history[k], contributions, coeff_id, op_type, nonce, message) == Some(
            AuthError::CoeffIdConsumed(coeff_id),
        ),
    decreases k,
{
    if k > 0 {
        consumed_stays_consumed(
            history,
            k - 1,
            coeff_id,
            contributions,
            op_type,
            nonce,
            message,
        );
        let (before, after) = (history[k - 1], history[k]);
        assert(is_step(history[k - 1], history[k - 1 + 1]));
        if after != before {
            let id = choose|id: u64| #[trigger] protocol::consumes(before, after, id);
            let (old, new) = (before.consumed_coeffids@, after.consumed_coeffids@);
            let i = choose|i: int| 0 <= i < old.len() && old[i] == coeff_id;
            assert(new[i] == coeff_id);
        }
    }
}

/// A request to use a consumed coefficient identifier is refused as such, whatever
/// else is wrong with it, and the policy stays as it is.
pub proof fn reuse_is_refused(
    result: Result<AuthorizationReceipt, AuthError>,
    before: CustodyPolicy,
    after: CustodyPolicy,
    contributions: Seq<Contribution>,
    coeff_id: u64,
    op_type: Seq<char>,
    nonce: u64,
    message: Seq<u8>,
)
    requires
        protocol::is_outcome(
            result,
            before,
            after,
            contributions,
            coeff_id,
            op_type,
            nonce,
            message,
        ),
        before.consumed_coeffids@.contains(coeff_id),
    ensures
        result == Err::<AuthorizationReceipt, AuthError>(AuthError::CoeffIdConsumed(coeff_id)),
        after == before,
{
}

/// Using a coefficient identifier consumes it.
pub proof fn authorized_is_consumed(
    result: Result<AuthorizationReceipt, AuthError>,
    before: CustodyPolicy,
    after: CustodyPolicy,
    contributions: Seq<Contribution>,
    coeff_id: u64,
    op_type: Seq<char>,
    nonce: u64,
    message: Seq<u8>,
)
    requires
        protocol::is_outcome(
            result,
            before,
            after,
            contributions,
            coeff_id,
            op_type,
            nonce,
            message,
        ),
        result is Ok,
    ensures
        after.consumed_coeffids@.contains(coeff_id),
{
    let new = after.consumed_coeffids@;
    assert(new[new.len() - 1] == coeff_id);
}

/// Message binding: one contribution is accepted for two operations only where
/// they have the same canonical message and coefficient identifier. A relay
/// cannot retarget what a member signed.
pub proof fn contribution_is_bound(
    policy: CustodyPolicy,
    c: Contribution,
    coeff_id: u64,
    op_type: Seq<char>,
    nonce: u64,
    message: Seq<u8>,
    coeff_id2: u64,
    op_type2: Seq<char>,
    nonce2: u64,
    message2: Seq<u8>,
)
    requires
        protocol::contribution_error(policy, c, coeff_id, op_type, nonce, message) is None,
        protocol::contribution_error(policy, c, coeff_id2, op_type2, nonce2, message2) is None,
    ensures
        coeff_id == coeff_id2,
        policy.bound(op_type, nonce, message) == policy.bound(op_type2, nonce2, message2),
{
    let (a, b) = (policy.bound(op_type, nonce, message), policy.bound(op_type2, nonce2, message2));
    messages::bound_message_range(
        policy.address@,
        policy.policy_id,
        op_type,
        nonce,
        message,
    );
    messages::bound_message_range(
        policy.address@,
        policy.policy_id,
        op_type2,
        nonce2,
        message2,
    );
    field::residue_range(c.eval_share);
    messages::envelope_determined(
        policy.address@,
        policy.policy_id,
        coeff_id,
        c.member_index,
        a,
        c.eval_share@,
        c.opening,
        policy.address@,
        policy.policy_id,
        coeff_id2,
        c.member_index,
        b,
        c.eval_share@,
        c.opening,
    );
}

// ---------------------------------------------------------------------------
// What an accepted opening shows
// ---------------------------------------------------------------------------

/// The shares of a slot that the setup gave a member.
pub open spec fn dealt_pair(p: SlotPolys, member_index: u32) -> (int, int) {
    (
        shamir::value_at(p.k1, member_index as int),
        shamir::value_at(p.k2, member_index as int),
    )
}

/// The opening reveals another pair than the setup dealt, and the byte strings that
/// the two are committed to with have one SHA-256 digest.
pub open spec fn is_collision(c: Contribution, p: SlotPolys, coeff_id: u64) -> bool {
    let (a, b) = dealt_pair(p, c.member_index);
    &&& c.opening matches ShareOpening::HashCommitted { k1_share, k2_share }
    &&& binding::digests_collide(
        binding::commitment_preimage(coeff_id, c.member_index, k1_share@, k2_share@),
        binding::commitment_preimage(coeff_id, c.member_index, a, b),
    )
}

/// Hash-committed openings bind: an accepted contribution reveals the very shares
/// that the setup dealt, and its evaluation share lies on `k1 * x + k2`, unless
/// it exhibits a collision of the hash. A stolen signing key without the shares
/// does not get past this.
pub proof fn hash_opening_binds(
    c: Contribution,
    policy: CustodyPolicy,
    polys: Seq<SlotPolys>,
    t: int,
    n: int,
    slot: int,
    op_type: Seq<char>,
    nonce: u64,
    message: Seq<u8>,
)
    requires
        setup::is_profile(
            policy.share_profile,
            ShareCorrectnessProfileKind::HashCommitted,
            polys,
            n,
        ),
        sized(polys, t),
        0 <= slot < polys.len(),
        slot <= u64::MAX,
        protocol::contribution_error(policy, c, slot as u64, op_type, nonce, message) is None,
    ensures
        c.opening is HashCommitted,
        !is_collision(c, polys[slot], slot as u64) ==> (c.opening->k1_share@, c.opening->k2_share@)
            == dealt_pair(polys[slot], c.member_index) && robust::agrees(
            Share { index: c.member_index, value: c.eval_share },
            evaluation_poly(polys[slot], policy.scalar(slot as u64, op_type, nonce, message)),
        ),
{
    let m = prime::modulus();
    let p = polys[slot];
    let x = policy.scalar(slot as u64, op_type, nonce, message);
    let i = c.member_index - 1;
    let (a, b) = dealt_pair(p, c.member_index);
    match policy.share_profile {
        ShareCorrectnessProfile::HashCommitted { commitments, setuproot } => {
            let ids = protocol::hash_ids(commitments@);
            assert forall|s: int| 0 <= s < ids.len() implies #[trigger] ids[s] == s by {
                assert(setup::is_hash_slot(commitments@[s], polys[s], s, n));
            }
            counting_position(ids, slot as u64);
            assert(setup::is_hash_slot(commitments@[slot], p, slot, n));
            match c.opening {
                ShareOpening::HashCommitted { k1_share, k2_share } => {
                    assert(commitments@[slot].per_member@[i] == messages::share_commitment(
                        slot as u64,
                        (i + 1) as u32,
                        shamir::value_at(p.k1, i + 1),
                        shamir::value_at(p.k2, i + 1),
                    ));
                    if !is_collision(c, p, slot as u64) {
                        field::residue_range(k1_share);
                        field::residue_range(k2_share);
                        arith::mod_idem(poly::eval(p.k1, i + 1), m);
                        arith::mod_idem(poly::eval(p.k2, i + 1), m);
                        binding::share_commitment_binds(
                            slot as u64,
                            c.member_index,
                            k1_share@,
                            k2_share@,
                            slot as u64,
                            c.member_index,
                            a,
                            b,
                        );
                        evaluation_poly_value(p, x, c.member_index as int);
                    }
                },
                _ => {},
            }
        },
        _ => {},
    }
}

/// Under the hash-committed profile, whatever is authorized is authorized with
/// `k1 * x + k2` by members who reveal the shares that the setup dealt them,
/// unless one of the contributions exhibits a collision of the hash.
pub proof fn hash_authorization_is_genuine(
    result: Result<AuthorizationReceipt, AuthError>,
    before: CustodyPolicy,
    after: CustodyPolicy,
    contributions: Seq<Contribution>,
    polys: Seq<SlotPolys>,
    n: int,
    slot: int,
    op_type: Seq<char>,
    nonce: u64,
    message: Seq<u8>,
)
    requires
        setup::is_profile(
            before.share_profile,
            ShareCorrectnessProfileKind::HashCommitted,
            polys,
            n,
        ),
        sized(polys, before.threshold as int),
        0 <= slot < polys.len(),
        slot <= u64::MAX,
        protocol::is_outcome(
            result,
            before,
            after,
            contributions,
            slot as u64,
            op_type,
            nonce,
            message,
        ),
        result is Ok,
        forall|i: int|
            0 <= i < contributions.len() ==> !is_collision(
                #[trigger] contributions[i],
                polys[slot],
                slot as u64,
            ),
    ensures
        result->Ok_0.sigma@ == protocol::affine(
            polys[slot].k1[0],
            before.scalar(slot as u64, op_type, nonce, message),
            polys[slot].k2[0],
        ),
        result->Ok_0.member_bitmap@ == protocol::member_indices(contributions),
        forall|i: int|
            0 <= i < contributions.len() ==> (#[trigger] contributions[i]).opening is HashCommitted
                && (contributions[i].opening->k1_share@, contributions[i].opening->k2_share@)
                == dealt_pair(polys[slot], contributions[i].member_index),
{
    let x = before.scalar(slot as u64, op_type, nonce, message);
    let p = evaluation_poly(polys[slot], x);
    let shares = protocol::evaluation_shares(contributions);
    let t = before.threshold as int;
    authorized_exactly_when(
        result,
        before,
        after,
        contributions,
        slot as u64,
        op_type,
        nonce,
        message,
    );
    assert forall|i: int| 0 <= i < contributions.len() implies (
    #[trigger] contributions[i]).opening is HashCommitted && (
        contributions[i].opening->k1_share@,
        contributions[i].opening->k2_share@,
    ) == dealt_pair(polys[slot], contributions[i].member_index) && robust::agrees(shares[i], p) by {
        hash_opening_binds(
            contributions[i],
            before,
            polys,
            t,
            n,
            slot,
            op_type,
            nonce,
            message,
        );
    }
    assert(all_agree(shares, p)) by {
        assert forall|i: int| 0 <= i < shares.len() implies robust::agrees(
            #[trigger] shares[i],
            p,
        ) by {
            assert(shares[i].index == contributions[i].member_index);
        }
    }
    agreeing_quorum_value(
        result,
        before,
        after,
        contributions,
        polys[slot],
        slot as u64,
        op_type,
        nonce,
        message,
    );
}

/// The opening gives away the logarithm of the second generator: it opens the
/// commitment to another evaluation share than `k1 * x + k2`, and the differences
/// of the blinding factors and of the shares determine the logarithm.
pub open spec fn reveals_generator(c: Contribution, p: SlotPolys, x: int) -> bool {
    let z = c.member_index as int;
    let e = shamir::value_at(evaluation_poly(p, x), z);
    let b = protocol::affine(shamir::value_at(p.k1_blind, z), x, shamir::value_at(p.k2_blind, z));
    &&& c.opening matches ShareOpening::Pedersen { eval_blind }
    &&& c.eval_share@ != e
    &&& (eval_blind@ - b) % prime::modulus() != 0
    &&& (pedersen::h_log() * (b - eval_blind@)) % prime::modulus() == (c.eval_share@ - e)
        % prime::modulus()
}

/// Pedersen openings bind: the evaluation share of an accepted contribution lies
/// on `k1 * x + k2`, unless the contribution gives away the logarithm of the
/// second generator.
pub proof fn pedersen_opening_binds(
    c: Contribution,
    policy: CustodyPolicy,
    polys: Seq<SlotPolys>,
    t: int,
    n: int,
    slot: int,
    op_type: Seq<char>,
    nonce: u64,
    message: Seq<u8>,
)
    requires
        setup::is_profile(policy.share_profile, ShareCorrectnessProfileKind::Pedersen, polys, n),
        sized(polys, t),
        0 <= slot < polys.len(),
        slot <= u64::MAX,
        protocol::contribution_error(policy, c, slot as u64, op_type, nonce, message) is None,
    ensures
        c.opening is Pedersen,
        !reveals_generator(c, polys[slot], policy.scalar(slot as u64, op_type, nonce, message))
            ==> robust::agrees(
            Share { index: c.member_index, value: c.eval_share },
            evaluation_poly(polys[slot], policy.scalar(slot as u64, op_type, nonce, message)),
        ),
{
    let m = prime::modulus();
    let p = polys[slot];
    let x = policy.scalar(slot as u64, op_type, nonce, message);
    let z = c.member_index as int;
    match policy.share_profile {
        ShareCorrectnessProfile::Pedersen { commitments } => {
            let ids = protocol::pedersen_ids(commitments@);
            assert forall|s: int| 0 <= s < ids.len() implies #[trigger] ids[s] == s by {
                assert(setup::is_pedersen_slot(commitments@[s], polys[s], s));
            }
            counting_position(ids, slot as u64);
            let com = commitments@[slot];
            assert(setup::is_pedersen_slot(com, p, slot));
            let blinds = SlotPolys { k1: p.k1_blind, k2: p.k2_blind, ..p };
            evaluation_poly_value(p, x, z);
            evaluation_poly_value(blinds, x, z);
            let e = shamir::value_at(evaluation_poly(p, x), z);
            let b = shamir::value_at(evaluation_poly(blinds, x), z);
            arith::mod_idem(poly::eval(p.k1, z) * x + poly::eval(p.k2, z), m);
            arith::mod_idem(poly::eval(p.k1_blind, z) * x + poly::eval(p.k2_blind, z), m);
            pedersen::honest_evaluation_opens(
                com.k1.logs(),
                com.k2.logs(),
                p.k1,
                p.k1_blind,
                p.k2,
                p.k2_blind,
                z,
                x,
                e,
                b,
            );
            if c.eval_share@ != e {
                field::residue_range(c.eval_share);
                arith::mod_small(c.eval_share@, m);
                arith::mod_small(e, m);
                pedersen::commitments_bind(c.eval_share@, c.opening->eval_blind@, e, b);
            }
        },
        _ => {},
    }
}

/// Under the Pedersen profile, whatever is authorized is authorized with
/// `k1 * x + k2`, unless one of the contributions gives away the logarithm of the
/// second generator.
pub proof fn pedersen_authorization_is_genuine(
    result: Result<AuthorizationReceipt, AuthError>,
    before: CustodyPolicy,
    after: CustodyPolicy,
    contributions: Seq<Contribution>,
    polys: Seq<SlotPolys>,
    n: int,
    slot: int,
    op_type: Seq<char>,
    nonce: u64,
    message: Seq<u8>,
)
    requires
        setup::is_profile(before.share_profile, ShareCorrectnessProfileKind::Pedersen, polys, n),
        sized(polys, before.threshold as int),
        0 <= slot < polys.len(),
        slot <= u64::MAX,
        protocol::is_outcome(
            result,
            before,
            after,
            contributions,
            slot as u64,
            op_type,
            nonce,
            message,
        ),
        result is Ok,
        forall|i: int|
            0 <= i < contributions.len() ==> !reveals_generator(
                #[trigger] contributions[i],
                polys[slot],
                before.scalar(slot as u64, op_type, nonce, message),
            ),
    ensures
        result->Ok_0.sigma@ == protocol::affine(
            polys[slot].k1[0],
            before.scalar(slot as u64, op_type, nonce, message),
            polys[slot].k2[0],
        ),
        result->Ok_0.member_bitmap@ == protocol::member_indices(contributions),
{
    let x = before.scalar(slot as u64, op_type, nonce, message);
    let p = evaluation_poly(polys[slot], x);
    let shares = protocol::evaluation_shares(contributions);
    authorized_exactly_when(
        result,
        before,
        after,
        contributions,
        slot as u64,
        op_type,
        nonce,
        message,
    );
    assert forall|i: int| 0 <= i < shares.len() implies robust::agrees(#[trigger] shares[i], p) by {
        pedersen_opening_binds(
            contributions[i],
            before,
            polys,
            before.threshold as int,
            n,
            slot,
            op_type,
            nonce,
            message,
        );
    }
    agreeing_quorum_value(
        result,
        before,
        after,
        contributions,
        polys[slot],
        slot as u64,
        op_type,
        nonce,
        message,
    );
}

} // verus!

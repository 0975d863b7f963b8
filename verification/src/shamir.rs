//! Shamir secret sharing over the scalar field of secp256k1, with
//! reconstruction that tolerates malformed shares.
use vstd::arithmetic::power::*;
use vstd::prelude::*;

use crate::arith;
use crate::decoding;
use crate::field::{self, Fr};
use crate::poly;
use crate::prime;
use crate::random::ScalarSource;
use crate::robust;

verus! {

/// One member's share of a secret.
#[derive(Clone, Copy, Debug)]
pub struct Share {
    /// 1-indexed member identifier (evaluation point).
    pub index: u32,
    pub value: Fr,
}

/// What robust reconstruction found.
#[derive(Clone, Debug, PartialEq, Eq)]
pub struct RobustReconstruction {
    pub secret: Fr,
    pub accepted_indices: Vec<u32>,
    pub corrected_errors: usize,
}

impl RobustReconstruction {
    /// The result for the polynomial `p`: its constant term, the indices of the
    /// shares on it in their order, and how many shares are not.
    pub open spec fn reads(&self, shares: Seq<Share>, p: Seq<int>) -> bool {
        &&& self.secret@ == p[0]
        &&& self.accepted_indices@ == indices(robust::agreeing(shares, p))
        &&& self.corrected_errors == robust::disagreeing(shares, p).len()
    }
}

/// The indices of some shares.
pub open spec fn indices(shares: Seq<Share>) -> Seq<u32> {
    Seq::new(shares.len(), |i: int| shares[i].index)
}

/// The evaluation points of some shares.
pub open spec fn points(shares: Seq<Share>) -> Seq<int> {
    Seq::new(shares.len(), |i: int| shares[i].index as int)
}

/// The values of some shares.
pub open spec fn values(shares: Seq<Share>) -> Seq<int> {
    Seq::new(shares.len(), |i: int| shares[i].value@)
}

/// No two shares have the same index.
pub open spec fn distinct_indices(shares: Seq<Share>) -> bool {
    forall|i: int, j: int|
        #![trigger shares[i], shares[j]]
        0 <= i < j < shares.len() ==> shares[i].index != shares[j].index
}

/// The value of the polynomial at a point, as a residue.
pub open spec fn value_at(coeffs: Seq<int>, x: int) -> int {
    poly::eval(coeffs, x) % prime::modulus()
}

/// The shares are the values of the polynomial at the points one to `n`.
pub open spec fn is_dealing(shares: Seq<Share>, coeffs: Seq<int>, n: nat) -> bool {
    &&& shares.len() == n
    &&& forall|i: int|
        #![trigger shares[i]]
        0 <= i < n ==> shares[i].index == i + 1 && shares[i].value@ == value_at(coeffs, i + 1)
}

/// Distinct indices are distinct points of the field.
pub proof fn distinct_points(shares: Seq<Share>)
    requires
        distinct_indices(shares),
    ensures
        poly::distinct(points(shares), prime::modulus()),
{
    let xs = points(shares);
    let m = prime::modulus();
    assert forall|i: int, j: int|
        #![trigger xs[i], xs[j]]
        0 <= i < j < xs.len() implies (xs[i] - xs[j]) % m != 0 by {
        assert(shares[i].index != shares[j].index);
        if xs[i] > xs[j] {
            arith::mod_small(xs[i] - xs[j], m);
        } else {
            arith::mod_small(xs[j] - xs[i], m);
            poly::negated_difference(xs[i], xs[j], m);
        }
    }
}

/// The polynomial that splits a secret: the secret below the drawn coefficients.
pub open spec fn split_polynomial(secret: int, draws: Seq<int>) -> Seq<int> {
    seq![secret] + draws
}

/// Splits `secret` into `n` shares with threshold `t`: any `t` of them
/// determine the secret. The polynomial has the secret as its constant term
/// and `t - 1` elements of the source above it.
pub fn split<R: ScalarSource>(secret: Fr, t: u32, n: u32, rng: &mut R) -> (r: Vec<Share>)
    requires
        t >= 1,
    ensures
        final(rng).drawn().len() == old(rng).drawn().len() + t - 1,
        old(rng).drawn() == final(rng).drawn().take(old(rng).drawn().len() as int),
        is_dealing(
            r@,
            split_polynomial(
                secret@,
                final(rng).drawn().skip(old(rng).drawn().len() as int),
            ),
            n as nat,
        ),
{
    let ghost before = rng.drawn();
    let coeffs = random_polynomial(secret, t, rng);
    proof {
        let c = field::residues(coeffs@);
        assert(rng.drawn().take(before.len() as int) =~= before);
        assert(rng.drawn().skip(before.len() as int) =~= c.skip(1));
        assert(seq![secret@] + c.skip(1) =~= c);
    }
    shares_from_coefficients(coeffs.as_slice(), n)
}

/// The polynomial with constant term `secret` and `t - 1` elements of the
/// source as its other coefficients.
pub fn random_polynomial<R: ScalarSource>(secret: Fr, t: u32, rng: &mut R) -> (r: Vec<Fr>)
    requires
        t >= 1,
    ensures
        r@.len() == t,
        r@[0]@ == secret@,
        final(rng).drawn() == old(rng).drawn() + field::residues(r@).skip(1),
{
    let ghost before = rng.drawn();
    let mut coeffs: Vec<Fr> = Vec::with_capacity(t as usize);
    coeffs.push(secret);
    assert(rng.drawn() =~= before + field::residues(coeffs@).skip(1));
    let mut i: u32 = 1;
    while i < t
        invariant
            1 <= i <= t,
            coeffs@.len() == i,
            coeffs@[0]@ == secret@,
            rng.drawn() == before + field::residues(coeffs@).skip(1),
        decreases t - i,
    {
        let c = rng.next_scalar();
        let ghost prev = field::residues(coeffs@);
        coeffs.push(c);
        proof {
            assert(field::residues(coeffs@) =~= prev.push(c@));
            assert(prev.push(c@).skip(1) =~= prev.skip(1).push(c@));
            assert((before + prev.skip(1)).push(c@) =~= before + prev.skip(1).push(c@));
        }
        i = i + 1;
    }
    coeffs
}

/// The shares of the first `n` members: the values of the polynomial at the
/// points one to `n`.
pub fn shares_from_coefficients(coeffs: &[Fr], n: u32) -> (r: Vec<Share>)
    requires
        coeffs@.len() > 0,
    ensures
        is_dealing(r@, field::residues(coeffs@), n as nat),
{
    let mut shares: Vec<Share> = Vec::new();
    let mut i: u32 = 0;
    while i < n
        invariant
            i <= n,
            is_dealing(shares@, field::residues(coeffs@), i as nat),
        decreases n - i,
    {
        let index: u32 = i + 1;
        let x = Fr::from(index as u64);
        let value = eval_poly(coeffs, x);
        shares.push(Share { index, value });
        i = index;
    }
    shares
}

/// The secret that some shares determine: the value at zero of the polynomial
/// of least degree through them.
pub open spec fn secret_of(shares: Seq<Share>) -> int {
    value_at(poly::interpolant(points(shares), values(shares), prime::modulus()), 0)
}

/// Reconstructs the secret (the polynomial evaluated at zero) from `shares`.
/// Requires at least `t` shares for a polynomial of degree `t - 1`.
pub fn reconstruct(shares: &[Share]) -> (r: Fr)
    requires
        distinct_indices(shares@),
    ensures
        r@ == secret_of(shares@),
{
    let ghost m = prime::modulus();
    let ghost xs = points(shares@);
    let ghost ys = values(shares@);
    proof {
        prime::modulus_is_prime();
        distinct_points(shares@);
        arith::mod_small(0, m);
    }
    let mut secret = Fr::zero();
    let mut i: usize = 0;
    while i < shares.len()
        invariant
            i <= shares@.len(),
            m == prime::modulus(),
            arith::is_prime(m),
            xs == points(shares@),
            ys == values(shares@),
            poly::distinct(xs, m),
            secret@ == poly::lagrange(xs, ys, i as int, 0, m) % m,
        decreases shares@.len() - i,
    {
        let basis = basis_at_zero(shares, i);
        let term = shares[i].value * basis;
        proof {
            let b = poly::basis(xs, i as int, xs.len() as int, 0, m);
            let l = poly::lagrange(xs, ys, i as int, 0, m);
            let y = ys[i as int];
            arith::mod_idem(b, m);
            arith::mod_idem(l, m);
            arith::cong_mul(y, y, b % m, b, m);
            arith::mod_idem(y * (b % m), m);
            arith::cong_add(l % m, l, term@, y * b, m);
        }
        secret = secret + term;
        i = i + 1;
    }
    proof {
        poly::lagrange_is_interpolant(xs, ys, 0, m);
    }
    secret
}

/// The product of `xj / (xj - xi)` over the other shares.
fn basis_at_zero(shares: &[Share], i: usize) -> (r: Fr)
    requires
        i < shares@.len(),
        arith::is_prime(prime::modulus()),
        poly::distinct(points(shares@), prime::modulus()),
    ensures
        r@ == poly::basis(points(shares@), i as int, shares@.len() as int, 0, prime::modulus())
            % prime::modulus(),
{
    let ghost m = prime::modulus();
    let ghost xs = points(shares@);
    let xi = Fr::from(shares[i].index as u64);
    let mut basis = Fr::from(1u64);
    proof {
        arith::mod_small(1, m);
    }
    let mut j: usize = 0;
    while j < shares.len()
        invariant
            j <= shares@.len(),
            i < shares@.len(),
            m == prime::modulus(),
            arith::is_prime(m),
            xs == points(shares@),
            poly::distinct(xs, m),
            xi@ == xs[i as int],
            basis@ == poly::basis(xs, i as int, j as int, 0, m) % m,
        decreases shares@.len() - j,
    {
        if j != i {
            let xj = Fr::from(shares[j].index as u64);
            let difference = xj - xi;
            let ghost d = xs[j as int] - xs[i as int];
            proof {
                let (a, b) = (xs[i as int], xs[j as int]);
                assert(d % m != 0) by {
                    if i < j {
                        assert((a - b) % m != 0);
                        poly::negated_difference(a, b, m);
                    } else {
                        assert((b - a) % m != 0);
                    }
                }
            }
            match difference.inverse() {
                Some(inv) => {
                    let factor = xj * inv;
                    proof {
                        let c = arith::inverse_of(d, m);
                        let x = xs[j as int];
                        let b = poly::basis(xs, i as int, j as int, 0, m);
                        arith::prime_has_inverse(d, m);
                        arith::mod_idem(d, m);
                        arith::cong_mul(d % m, d, inv@, inv@, m);
                        field::residue_range(inv);
                        arith::inverse_unique(d, inv@, c, m);
                        arith::mod_idem(b, m);
                        arith::mod_idem(x * c, m);
                        arith::cong_mul(b % m, b, (x * c) % m, x * c, m);
                    }
                    basis = basis * factor;
                },
                None => {
                    assert(false);
                },
            }
        }
        j = j + 1;
    }
    basis
}

/// The largest number of errors that can be corrected.
pub open spec fn max_errors(len: int, t: int) -> int {
    (len - t) / 2
}

/// The result is that of a polynomial close enough to the shares, and there is
/// none only where no polynomial is.
pub open spec fn is_robust(
    r: Option<RobustReconstruction>,
    shares: Seq<Share>,
    t: int,
) -> bool {
    match r {
        Some(d) => exists|p: Seq<int>| #[trigger] robust::close(shares, t, p) && d.reads(shares, p),
        None => forall|p: Seq<int>| !#[trigger] robust::close(shares, t, p),
    }
}

/// Reconstructs a secret of threshold `threshold` while rejecting malformed
/// shares. With `m` submitted shares this corrects up to
/// `floor((m - threshold) / 2)` bad shares using Berlekamp-Welch decoding for
/// the Reed-Solomon code.
///
/// Numbers of errors are tried from the largest down. With distinct indices
/// the result is that of the polynomial close enough to the shares, and there
/// is none only where no polynomial is.
pub fn reconstruct_robust(shares: &[Share], threshold: u32) -> (r: Option<RobustReconstruction>)
    ensures
        match r {
            Some(d) => 1 <= threshold <= shares@.len() && exists|e: int, p: Seq<int>|
                #![trigger robust::stage(shares@, threshold as int, e, p)]
                0 <= e <= max_errors(shares@.len() as int, threshold as int) && robust::stage(
                    shares@,
                    threshold as int,
                    e,
                    p,
                ) && d.reads(shares@, p) && forall|f: int, q: Seq<int>|
                    e < f <= max_errors(shares@.len() as int, threshold as int)
                        ==> !#[trigger] robust::stage(shares@, threshold as int, f, q),
            None => 1 <= threshold <= shares@.len() ==> forall|e: int, p: Seq<int>|
                0 <= e <= max_errors(shares@.len() as int, threshold as int)
                    ==> !#[trigger] robust::stage(shares@, threshold as int, e, p),
        },
        distinct_indices(shares@) ==> is_robust(r, shares@, threshold as int),
{
    let ghost t = threshold as int;
    let ghost m = prime::modulus();
    let ghost most = max_errors(shares@.len() as int, t);
    let needed: usize = threshold as usize;
    if needed == 0 || shares.len() < needed {
        return None;
    }
    let max: usize = (shares.len() - needed) / 2;
    let mut left: usize = max + 1;
    while left > 0
        invariant
            t == threshold,
            t == needed,
            1 <= t <= shares@.len(),
            most == max_errors(shares@.len() as int, t),
            most == max,
            left <= max + 1,
            max < usize::MAX,
            m == prime::modulus(),
            forall|f: int, q: Seq<int>|
                left <= f <= most ==> !#[trigger] robust::stage(shares@, t, f, q),
        decreases left,
    {
        let error_count: usize = left - 1;
        let ghost e = error_count as int;
        match decoding::berlekamp_welch(shares, needed, error_count) {
            Some(poly) => {
                let ghost p = field::residues(poly@);
                let accepted_indices = accepted(shares, poly.as_slice());
                proof {
                    robust::sides(shares@, p);
                }
                let corrected_errors: usize = shares.len() - accepted_indices.len();
                if accepted_indices.len() >= needed && corrected_errors <= error_count {
                    let d = RobustReconstruction {
                        secret: poly[0],
                        accepted_indices,
                        corrected_errors,
                    };
                    assert(robust::stage(shares@, t, e, p));
                    assert(d.reads(shares@, p));
                    assert(robust::close(shares@, t, p));
                    return Some(d);
                }
                assert forall|q: Seq<int>| !#[trigger] robust::stage(shares@, t, e, q) by {
                    if robust::stage(shares@, t, e, q) {
                        decoding::decodes_unique(points(shares@), values(shares@), t, e, p, q);
                    }
                }
            },
            None => {
            },
        }
        left = error_count;
    }
    proof {
        if distinct_indices(shares@) {
            assert forall|p: Seq<int>| !#[trigger] robust::close(shares@, t, p) by {
                if robust::close(shares@, t, p) {
                    robust::close_decodes(shares@, t, p);
                }
            }
        }
    }
    None
}

/// The indices of the shares that lie on the polynomial.
fn accepted(shares: &[Share], coeffs: &[Fr]) -> (r: Vec<u32>)
    ensures
        r@ == indices(robust::agreeing(shares@, field::residues(coeffs@))),
{
    let ghost p = field::residues(coeffs@);
    let mut out: Vec<u32> = Vec::new();
    let mut i: usize = 0;
    assert(shares@.take(0) =~= seq![]);
    while i < shares.len()
        invariant
            i <= shares@.len(),
            p == field::residues(coeffs@),
            out@ == indices(robust::agreeing(shares@.take(i as int), p)),
        decreases shares@.len() - i,
    {
        let share = shares[i];
        proof {
            let next = shares@.take(i + 1);
            assert(next.drop_last() =~= shares@.take(i as int));
            assert(next.last() == share);
        }
        if eval_poly(coeffs, Fr::from(share.index as u64)) == share.value {
            out.push(share.index);
        }
        assert(out@ =~= indices(robust::agreeing(shares@.take(i + 1), p)));
        i = i + 1;
    }
    assert(shares@.take(i as int) =~= shares@);
    out
}

/// The value of the polynomial with the given coefficients at `x`.
pub fn eval_poly(coeffs: &[Fr], x: Fr) -> (r: Fr)
    ensures
        r@ == value_at(field::residues(coeffs@), x@),
{
    let ghost m = prime::modulus();
    let ghost c = field::residues(coeffs@);
    let mut result = Fr::zero();
    let mut power = Fr::from(1u64);
    proof {
        arith::mod_small(0, m);
        arith::mod_small(1, m);
        lemma_pow0(x@);
    }
    let mut i: usize = 0;
    while i < coeffs.len()
        invariant
            i <= coeffs@.len(),
            m == prime::modulus(),
            c == field::residues(coeffs@),
            result@ == poly::eval(c.take(i as int), x@) % m,
            power@ == pow(x@, i as nat) % m,
        decreases coeffs@.len() - i,
    {
        let term = coeffs[i] * power;
        proof {
            let p = c.take(i + 1);
            assert(p.drop_last() =~= c.take(i as int));
            let e = poly::eval(c.take(i as int), x@);
            let w = pow(x@, i as nat);
            arith::mod_idem(e, m);
            arith::mod_idem(w, m);
            arith::cong_mul(c[i as int], c[i as int], w % m, w, m);
            arith::mod_idem(c[i as int] * (w % m), m);
            arith::cong_add(e % m, e, term@, c[i as int] * w, m);
            lemma_pow1(x@);
            lemma_pow_adds(x@, i as nat, 1);
            arith::cong_mul(w % m, w, x@, x@, m);
        }
        result = result + term;
        power = power * x;
        i = i + 1;
    }
    assert(c.take(i as int) =~= c);
    result
}

} // verus!

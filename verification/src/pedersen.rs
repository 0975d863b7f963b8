//! Classical Pedersen commitments to secret-sharing polynomials.
//!
//! They give setup-bound openings at operation time, but rely on discrete-log
//! binding over secp256k1 and are therefore not the post-quantum-clean profile a
//! production deployment would want.
use vstd::arithmetic::mul::*;
use vstd::arithmetic::power::*;
use vstd::prelude::*;

use crate::arith;
use crate::backend;
use crate::bytes;
use crate::curve::{self, Projective};
use crate::field::{self, Fr};
use crate::poly;
use crate::prime;
use crate::shamir::Share;

verus! {

/// Commitments to the coefficients of one polynomial.
#[derive(Clone, Debug)]
pub struct PedersenPolyCommitment {
    pub coeffs: Vec<Projective>,
}

/// Commitments to the two polynomials of one coefficient pair.
#[derive(Clone, Debug)]
pub struct CoefficientCommitments {
    pub coeff_id: u64,
    pub k1: PedersenPolyCommitment,
    pub k2: PedersenPolyCommitment,
}

impl PedersenPolyCommitment {
    /// The logarithms of the committed coefficients.
    pub open spec fn logs(&self) -> Seq<int> {
        curve::logs(self.coeffs@)
    }
}

// ---------------------------------------------------------------------------
// The second generator
// ---------------------------------------------------------------------------

/// The bytes that are hashed for the candidate with the given number.
pub open spec fn h_preimage(counter: int) -> Seq<u8> {
    bytes::text("dual-gate-demo-pedersen-h"@) + bytes::be_bytes(counter, 4)
}

/// The point that the digest of those bytes lifts to, if any.
pub open spec fn h_candidate(counter: int) -> Option<(int, int)> {
    curve::lift(backend::sha256(h_preimage(counter))@)
}

/// The candidate is the first one that is a point.
pub open spec fn is_h_counter(counter: int) -> bool {
    &&& 0 <= counter <= u32::MAX
    &&& h_candidate(counter) is Some
    &&& forall|c: int| 0 <= c < counter ==> #[trigger] h_candidate(c) is None
}

/// Some candidate with a 32-bit number is a point.
pub open spec fn h_exists() -> bool {
    exists|counter: int| is_h_counter(counter)
}

/// The number of the first candidate that is a point.
pub open spec fn h_counter() -> int {
    choose|counter: int| is_h_counter(counter)
}

/// The logarithm of the second generator.
pub open spec fn h_log() -> int {
    backend::point_log(h_candidate(h_counter()))
}

/// There is one first candidate.
proof fn h_counter_is(counter: int)
    requires
        is_h_counter(counter),
    ensures
        h_exists(),
        h_counter() == counter,
{
    let c = h_counter();
    assert(is_h_counter(c));
    if c < counter {
        assert(h_candidate(c) is None);
    }
    if counter < c {
        assert(h_candidate(counter) is None);
    }
}

/// The second generator: the point over the digest for the first candidate that
/// has one, with the smaller second coordinate. It is on the curve, and it is not
/// the neutral element.
pub proof fn second_generator()
    requires
        h_exists(),
    ensures
        is_h_counter(h_counter()),
        h_candidate(h_counter()) is Some,
        curve::is_lift(
            bytes::be_value(backend::sha256(h_preimage(h_counter()))@) % backend::base_modulus(),
            h_candidate(h_counter()),
        ),
        0 < h_log() < prime::modulus(),
{
    curve::lift_is_smaller_root(
        bytes::be_value(backend::sha256(h_preimage(h_counter()))@) % backend::base_modulus(),
    );
    curve::point_log_range(h_candidate(h_counter()));
}

/// The point is the second generator.
pub open spec fn is_second_generator(h: Projective) -> bool {
    &&& is_h_counter(h_counter())
    &&& h.coordinates() == h_candidate(h_counter())
    &&& curve::is_lift(
        bytes::be_value(backend::sha256(h_preimage(h_counter()))@) % backend::base_modulus(),
        h.coordinates(),
    )
    &&& h@ == h_log()
    &&& h@ != 0
}

/// The second generator by try-and-increment, if any candidate is a point.
fn find_h() -> (r: Option<Projective>)
    ensures
        match r {
            Some(h) => h_exists() && is_second_generator(h),
            None => !h_exists(),
        },
{
    let mut counter: u32 = 0;
    loop
        invariant
            forall|c: int| 0 <= c < counter ==> #[trigger] h_candidate(c) is None,
        decreases u32::MAX - counter,
    {
        let mut input: Vec<u8> = Vec::new();
        bytes::append_text(&mut input, "dual-gate-demo-pedersen-h");
        bytes::append_bytes(&mut input, bytes::be_bytes_of(counter as u64, 4).as_slice());
        assert(input@ =~= h_preimage(counter as int));
        let digest = backend::sha256_digest(input.as_slice());
        match Projective::lift_be_bytes(digest.as_slice()) {
            Some(h) => {
                proof {
                    h_counter_is(counter as int);
                    second_generator();
                }
                return Some(h);
            },
            None => {},
        }
        if counter == u32::MAX {
            return None;
        }
        counter = counter + 1;
    }
}

/// Whether there is a second generator.
pub fn has_generator() -> (r: bool)
    ensures
        r == h_exists(),
        r ==> h_log() != 0,
{
    find_h().is_some()
}

/// The second generator.
pub fn h_generator() -> (r: Projective)
    requires
        h_exists(),
    ensures
        is_second_generator(r),
{
    match find_h() {
        Some(h) => h,
        None => vstd::pervasive::unreached(),
    }
}

// ---------------------------------------------------------------------------
// Commitments
// ---------------------------------------------------------------------------

/// The logarithm of the commitment to a value with a blinding factor, for a
/// second generator with the given logarithm.
pub open spec fn commit_with(h: int, value: int, blind: int) -> int {
    (value + h * blind) % prime::modulus()
}

/// The logarithm of the commitment to a value with a blinding factor.
pub open spec fn commit_log(value: int, blind: int) -> int {
    commit_with(h_log(), value, blind)
}

/// The commitment to a value: the value times the generator plus the blinding
/// factor times the second generator.
pub fn commit_value(value: Fr, blind: Fr) -> (r: Projective)
    requires
        h_exists(),
    ensures
        r@ == commit_log(value@, blind@),
{
    commit_value_with(h_generator(), value, blind)
}

/// The commitment to a value for the given second generator.
pub fn commit_value_with(h: Projective, value: Fr, blind: Fr) -> (r: Projective)
    ensures
        r@ == commit_with(h@, value@, blind@),
{
    let r = Projective::generator().times(value) + h.times(blind);
    proof {
        let m = prime::modulus();
        let t = h@ * blind@;
        assert(1 * value@ == value@);
        arith::mod_idem(value@, m);
        arith::mod_idem(t, m);
        arith::cong_add(value@ % m, value@, t % m, t, m);
    }
    r
}

/// The commitments to the coefficients of a polynomial are `logs`.
pub open spec fn commits_to(logs: Seq<int>, values: Seq<int>, blinds: Seq<int>) -> bool {
    &&& logs.len() == values.len()
    &&& logs.len() == blinds.len()
    &&& forall|i: int|
        0 <= i < logs.len() ==> #[trigger] logs[i] == commit_log(values[i], blinds[i])
}

/// Commits to each coefficient of a polynomial.
pub fn commit_polynomial(values: &[Fr], blinds: &[Fr]) -> (r: PedersenPolyCommitment)
    requires
        values@.len() == blinds@.len(),
        values@.len() > 0 ==> h_exists(),
    ensures
        commits_to(r.logs(), field::residues(values@), field::residues(blinds@)),
{
    let mut coeffs: Vec<Projective> = Vec::with_capacity(values.len());
    let mut i: usize = 0;
    while i < values.len()
        invariant
            i <= values@.len(),
            values@.len() == blinds@.len(),
            values@.len() > 0 ==> h_exists(),
            coeffs@.len() == i,
            forall|j: int|
                0 <= j < i ==> (#[trigger] coeffs@[j])@ == commit_log(values@[j]@, blinds@[j]@),
        decreases values@.len() - i,
    {
        coeffs.push(commit_value(values[i], blinds[i]));
        i = i + 1;
    }
    PedersenPolyCommitment { coeffs }
}

/// The sum of the entries in one column.
pub open spec fn column_sum(rows: Seq<Seq<int>>, i: int) -> int
    decreases rows.len(),
{
    if rows.len() == 0 {
        0
    } else {
        column_sum(rows.drop_last(), i) + rows.last()[i]
    }
}

/// The logarithms in several commitments.
pub open spec fn commitment_rows(commitments: Seq<PedersenPolyCommitment>) -> Seq<Seq<int>> {
    Seq::new(commitments.len(), |j: int| commitments[j].logs())
}

/// Adds commitments coefficient by coefficient.
pub fn aggregate_commitments(commitments: &[PedersenPolyCommitment]) -> (r: PedersenPolyCommitment)
    requires
        commitments@.len() > 0,
        forall|j: int|
            0 <= j < commitments@.len() ==> (#[trigger] commitments@[j]).coeffs@.len()
                == commitments@[0].coeffs@.len(),
    ensures
        r.coeffs@.len() == commitments@[0].coeffs@.len(),
        forall|i: int|
            0 <= i < r.coeffs@.len() ==> (#[trigger] r.coeffs@[i])@ == column_sum(
                commitment_rows(commitments@),
                i,
            ) % prime::modulus(),
{
    let ghost m = prime::modulus();
    let ghost rows = commitment_rows(commitments@);
    let len: usize = commitments[0].coeffs.len();
    let mut coeffs: Vec<Projective> = vec![Projective::zero(); len];
    proof {
        arith::mod_small(0, m);
    }
    let mut j: usize = 0;
    while j < commitments.len()
        invariant
            j <= commitments@.len(),
            m == prime::modulus(),
            rows == commitment_rows(commitments@),
            coeffs@.len() == len,
            forall|k: int|
                0 <= k < commitments@.len() ==> (#[trigger] commitments@[k]).coeffs@.len() == len,
            forall|i: int|
                0 <= i < len ==> (#[trigger] coeffs@[i])@ == column_sum(rows.take(j as int), i) % m,
        decreases commitments@.len() - j,
    {
        let ghost before = coeffs@;
        let mut i: usize = 0;
        while i < len
            invariant
                i <= len,
                j < commitments@.len(),
                m == prime::modulus(),
                rows == commitment_rows(commitments@),
                coeffs@.len() == len,
                before.len() == len,
                commitments@[j as int].coeffs@.len() == len,
                forall|k: int|
                    0 <= k < len ==> (#[trigger] before[k])@ == column_sum(rows.take(j as int), k)
                        % m,
                forall|k: int|
                    0 <= k < i ==> (#[trigger] coeffs@[k])@ == column_sum(rows.take(j + 1), k) % m,
                forall|k: int| i <= k < len ==> #[trigger] coeffs@[k] == before[k],
            decreases len - i,
        {
            let sum = coeffs[i] + commitments[j].coeffs[i];
            proof {
                assert(rows.take(j + 1).drop_last() =~= rows.take(j as int));
                assert(coeffs@[i as int] == before[i as int]);
                let s = column_sum(rows.take(j as int), i as int);
                let p = rows[j as int][i as int];
                arith::mod_idem(s, m);
                arith::cong_add(s % m, s, p, p, m);
            }
            coeffs.set(i, sum);
            i = i + 1;
        }
        j = j + 1;
    }
    assert(rows.take(j as int) =~= rows);
    PedersenPolyCommitment { coeffs }
}

/// The commitment to the value at `index` of the committed polynomial.
pub fn evaluate_commitment(commitment: &PedersenPolyCommitment, index: u32) -> (r: Projective)
    ensures
        r@ == poly::eval(commitment.logs(), index as int) % prime::modulus(),
{
    let ghost m = prime::modulus();
    let ghost c = commitment.logs();
    let x = Fr::from(index as u64);
    let mut power = Fr::from(1u64);
    let mut result = Projective::zero();
    proof {
        arith::mod_small(0, m);
        arith::mod_small(1, m);
        lemma_pow0(x@);
    }
    let mut i: usize = 0;
    while i < commitment.coeffs.len()
        invariant
            i <= commitment.coeffs@.len(),
            m == prime::modulus(),
            c == commitment.logs(),
            result@ == poly::eval(c.take(i as int), x@) % m,
            power@ == pow(x@, i as nat) % m,
        decreases commitment.coeffs@.len() - i,
    {
        let term = commitment.coeffs[i].times(power);
        proof {
            let p = c.take(i + 1);
            assert(p.drop_last() =~= c.take(i as int));
            let e = poly::eval(c.take(i as int), x@);
            let w = pow(x@, i as nat);
            arith::mod_idem(e, m);
            arith::mod_idem(w, m);
            arith::cong_mul(c[i as int], c[i as int], w % m, w, m);
            arith::mod_idem(c[i as int] * (w % m), m);
            arith::cong_add(e % m, e, term@, c[i as int] * w, m);
            lemma_pow1(x@);
            lemma_pow_adds(x@, i as nat, 1);
            arith::cong_mul(w % m, w, x@, x@, m);
        }
        result = result + term;
        power = power * x;
        i = i + 1;
    }
    assert(c.take(i as int) =~= c);
    result
}

/// The two shares have one index and open the commitment there, for a second
/// generator with the given logarithm.
pub open spec fn share_opens_with(
    h: int,
    logs: Seq<int>,
    value_share: Share,
    blind_share: Share,
) -> bool {
    &&& value_share.index == blind_share.index
    &&& commit_with(h, value_share.value@, blind_share.value@) == poly::eval(
        logs,
        value_share.index as int,
    ) % prime::modulus()
}

/// The two shares have one index and open the commitment there.
pub open spec fn share_opens(logs: Seq<int>, value_share: Share, blind_share: Share) -> bool {
    share_opens_with(h_log(), logs, value_share, blind_share)
}

/// Checks a share and its blinding share against the commitment to their
/// polynomials.
pub fn verify_share(
    commitment: &PedersenPolyCommitment,
    value_share: &Share,
    blind_share: &Share,
) -> (r: bool)
    requires
        value_share.index == blind_share.index ==> h_exists(),
    ensures
        r == share_opens(commitment.logs(), *value_share, *blind_share),
{
    value_share.index == blind_share.index && verify_share_with(
        h_generator(),
        commitment,
        value_share,
        blind_share,
    )
}

/// Checks a share and its blinding share for the given second generator.
pub fn verify_share_with(
    h: Projective,
    commitment: &PedersenPolyCommitment,
    value_share: &Share,
    blind_share: &Share,
) -> (r: bool)
    ensures
        r == share_opens_with(h@, commitment.logs(), *value_share, *blind_share),
{
    value_share.index == blind_share.index && commit_value_with(
        h,
        value_share.value,
        blind_share.value,
    ) == evaluate_commitment(commitment, value_share.index)
}

/// The evaluation share and its blinding factor open, at the member's index,
/// the combination of the two commitments that `x` gives, for a second generator
/// with the given logarithm.
pub open spec fn evaluation_opens_with(
    h: int,
    k1: Seq<int>,
    k2: Seq<int>,
    index: int,
    x: int,
    eval_share: int,
    eval_blind: int,
) -> bool {
    commit_with(h, eval_share, eval_blind) == (poly::eval(k1, index) * x + poly::eval(k2, index))
        % prime::modulus()
}

/// The evaluation share and its blinding factor open, at the member's index,
/// the combination of the two commitments that `x` gives.
pub open spec fn evaluation_opens(
    k1: Seq<int>,
    k2: Seq<int>,
    index: int,
    x: int,
    eval_share: int,
    eval_blind: int,
) -> bool {
    evaluation_opens_with(h_log(), k1, k2, index, x, eval_share, eval_blind)
}

/// Checks an evaluation share `k1 * x + k2` of a member against the commitments
/// to the two polynomials.
pub fn verify_evaluation_share(
    k1_commitment: &PedersenPolyCommitment,
    k2_commitment: &PedersenPolyCommitment,
    member_index: u32,
    x: Fr,
    eval_share: Fr,
    eval_blind: Fr,
) -> (r: bool)
    requires
        h_exists(),
    ensures
        r == evaluation_opens(
            k1_commitment.logs(),
            k2_commitment.logs(),
            member_index as int,
            x@,
            eval_share@,
            eval_blind@,
        ),
{
    verify_evaluation_share_with(
        h_generator(),
        k1_commitment,
        k2_commitment,
        member_index,
        x,
        eval_share,
        eval_blind,
    )
}

/// Checks an evaluation share of a member for the given second generator.
pub fn verify_evaluation_share_with(
    h: Projective,
    k1_commitment: &PedersenPolyCommitment,
    k2_commitment: &PedersenPolyCommitment,
    member_index: u32,
    x: Fr,
    eval_share: Fr,
    eval_blind: Fr,
) -> (r: bool)
    ensures
        r == evaluation_opens_with(
            h@,
            k1_commitment.logs(),
            k2_commitment.logs(),
            member_index as int,
            x@,
            eval_share@,
            eval_blind@,
        ),
{
    let expected = evaluate_commitment(k1_commitment, member_index).times(x) + evaluate_commitment(
        k2_commitment,
        member_index,
    );
    proof {
        let m = prime::modulus();
        let a = poly::eval(k1_commitment.logs(), member_index as int);
        let b = poly::eval(k2_commitment.logs(), member_index as int);
        arith::mod_idem(a, m);
        arith::mod_idem(b, m);
        arith::cong_mul(a % m, a, x@, x@, m);
        arith::mod_idem((a % m) * x@, m);
        arith::cong_add(((a % m) * x@) % m, a * x@, b % m, b, m);
    }
    commit_value_with(h, eval_share, eval_blind) == expected
}

// ---------------------------------------------------------------------------
// Laws
// ---------------------------------------------------------------------------

/// A commitment depends on the residues only.
pub proof fn commit_log_cong(v: int, w: int, b: int, c: int)
    requires
        v % prime::modulus() == w % prime::modulus(),
        b % prime::modulus() == c % prime::modulus(),
    ensures
        commit_log(v, b) == commit_log(w, c),
{
    let m = prime::modulus();
    arith::cong_mul(h_log(), h_log(), b, c, m);
    arith::cong_add(v, w, h_log() * b, h_log() * c, m);
}

/// Commitments are homomorphic: the sum of two commitments is the commitment to
/// the sum of the values with the sum of the blinding factors.
pub proof fn commitments_add(v: int, b: int, w: int, c: int)
    ensures
        (commit_log(v, b) + commit_log(w, c)) % prime::modulus() == commit_log(v + w, b + c),
{
    let m = prime::modulus();
    let h = h_log();
    arith::mod_idem(v + h * b, m);
    arith::mod_idem(w + h * c, m);
    arith::cong_add(commit_log(v, b), v + h * b, commit_log(w, c), w + h * c, m);
    lemma_mul_is_distributive_add(h, b, c);
}

/// A multiple of a commitment is the commitment to the multiples.
pub proof fn commitments_scale(k: int, v: int, b: int)
    ensures
        (commit_log(v, b) * k) % prime::modulus() == commit_log(v * k, b * k),
{
    let m = prime::modulus();
    let h = h_log();
    arith::mod_idem(v + h * b, m);
    arith::cong_mul(commit_log(v, b), v + h * b, k, k, m);
    lemma_mul_is_distributive_add_other_way(k, v, h * b);
    lemma_mul_is_associative(h, b, k);
}

/// Evaluating the commitments to a polynomial gives the commitment to its value
/// at that point.
pub proof fn committed_evaluation(logs: Seq<int>, values: Seq<int>, blinds: Seq<int>, x: int)
    requires
        commits_to(logs, values, blinds),
    ensures
        poly::eval(logs, x) % prime::modulus() == commit_log(
            poly::eval(values, x),
            poly::eval(blinds, x),
        ),
        poly::eval(logs, x) % prime::modulus() == commit_log(
            crate::shamir::value_at(values, x),
            crate::shamir::value_at(blinds, x),
        ),
{
    let m = prime::modulus();
    let h = h_log();
    let combined = poly::plus(values, poly::scale(h, blinds));
    poly::eval_plus(values, poly::scale(h, blinds), x);
    poly::eval_scale(h, blinds, x);
    assert forall|i: int| 0 <= i < logs.len() implies #[trigger] logs[i] % m == combined[i] % m by {
        arith::mod_idem(values[i] + h * blinds[i], m);
        assert(poly::coeff(poly::scale(h, blinds), i) == h * blinds[i]);
    }
    poly::eval_cong(logs, combined, x, x, m);
    let (v, b) = (poly::eval(values, x), poly::eval(blinds, x));
    arith::mod_idem(v, m);
    arith::mod_idem(b, m);
    commit_log_cong(v, v % m, b, b % m);
}

/// The shares that the two polynomials give a member open the commitment.
pub proof fn dealt_shares_open(
    logs: Seq<int>,
    values: Seq<int>,
    blinds: Seq<int>,
    value_share: Share,
    blind_share: Share,
)
    requires
        commits_to(logs, values, blinds),
        value_share.index == blind_share.index,
        value_share.value@ == crate::shamir::value_at(values, value_share.index as int),
        blind_share.value@ == crate::shamir::value_at(blinds, value_share.index as int),
    ensures
        share_opens(logs, value_share, blind_share),
{
    let m = prime::modulus();
    let x = value_share.index as int;
    committed_evaluation(logs, values, blinds, x);
    arith::mod_idem(poly::eval(values, x), m);
    arith::mod_idem(poly::eval(blinds, x), m);
    commit_log_cong(
        value_share.value@,
        poly::eval(values, x),
        blind_share.value@,
        poly::eval(blinds, x),
    );
}

/// An evaluation share computed from shares on the committed polynomials opens
/// the combination of the commitments.
pub proof fn honest_evaluation_opens(
    k1: Seq<int>,
    k2: Seq<int>,
    values1: Seq<int>,
    blinds1: Seq<int>,
    values2: Seq<int>,
    blinds2: Seq<int>,
    index: int,
    x: int,
    eval_share: int,
    eval_blind: int,
)
    requires
        commits_to(k1, values1, blinds1),
        commits_to(k2, values2, blinds2),
        eval_share % prime::modulus() == (poly::eval(values1, index) * x + poly::eval(
            values2,
            index,
        )) % prime::modulus(),
        eval_blind % prime::modulus() == (poly::eval(blinds1, index) * x + poly::eval(
            blinds2,
            index,
        )) % prime::modulus(),
    ensures
        evaluation_opens(k1, k2, index, x, eval_share, eval_blind),
{
    let m = prime::modulus();
    let (v, b) = (poly::eval(values1, index), poly::eval(blinds1, index));
    let (w, c) = (poly::eval(values2, index), poly::eval(blinds2, index));
    let (e, f) = (poly::eval(k1, index), poly::eval(k2, index));
    committed_evaluation(k1, values1, blinds1, index);
    committed_evaluation(k2, values2, blinds2, index);
    commitments_scale(x, v, b);
    commitments_add(v * x, b * x, w, c);
    commit_log_cong(eval_share, v * x + w, eval_blind, b * x + c);
    arith::mod_idem(e, m);
    arith::mod_idem(f, m);
    arith::cong_mul(commit_log(v, b), e, x, x, m);
    arith::mod_idem(commit_log(v, b) * x, m);
    arith::cong_add(commit_log(v * x, b * x), e * x, commit_log(w, c), f, m);
}

/// The column sums of commitments commit to the column sums of what was
/// committed to.
pub proof fn aggregated_commitments(
    rows: Seq<Seq<int>>,
    values: Seq<Seq<int>>,
    blinds: Seq<Seq<int>>,
    i: int,
)
    requires
        rows.len() == values.len(),
        rows.len() == blinds.len(),
        forall|j: int|
            0 <= j < rows.len() ==> commits_to(#[trigger] rows[j], values[j], blinds[j]) && 0 <= i
                < rows[j].len(),
    ensures
        column_sum(rows, i) % prime::modulus() == commit_log(
            column_sum(values, i),
            column_sum(blinds, i),
        ),
    decreases rows.len(),
{
    let m = prime::modulus();
    if rows.len() == 0 {
        assert(h_log() * 0 == 0);
    } else {
        let k = rows.len() - 1;
        aggregated_commitments(rows.drop_last(), values.drop_last(), blinds.drop_last(), i);
        let (s, v, b) = (
            column_sum(rows.drop_last(), i),
            column_sum(values.drop_last(), i),
            column_sum(blinds.drop_last(), i),
        );
        assert(rows[k][i] == commit_log(values[k][i], blinds[k][i]));
        commitments_add(v, b, values[k][i], blinds[k][i]);
        arith::mod_idem(s, m);
        arith::cong_add(s % m, s, rows[k][i], rows[k][i], m);
    }
}

/// Opening one commitment to two values reveals the logarithm of the second
/// generator: it times the difference of the blinding factors is the
/// difference of the values, and the blinding factors differ.
pub proof fn commitments_bind(v: int, b: int, w: int, c: int)
    requires
        commit_log(v, b) == commit_log(w, c),
        v % prime::modulus() != w % prime::modulus(),
    ensures
        (b - c) % prime::modulus() != 0,
        (h_log() * (c - b)) % prime::modulus() == (v - w) % prime::modulus(),
{
    let m = prime::modulus();
    let h = h_log();
    arith::cong_sub(v + h * b, w + h * c, w + h * b, w + h * b, m);
    lemma_mul_is_distributive_sub(h, c, b);
    if (b - c) % m == 0 {
        arith::mod_small(0, m);
        poly::negated_difference(b, c, m);
        arith::cong_mul(h, h, c - b, 0, m);
        assert(h * 0 == 0);
        vstd::arithmetic::div_mod::lemma_mod_equivalence(v, w, m);
    }
}

/// An opening cannot be changed in one place: where a value and a blinding factor
/// open a commitment, another value with that factor does not, nor does that value
/// with another factor.
pub proof fn changed_commitment_differs(v: int, b: int, w: int, c: int)
    requires
        h_exists(),
        (v % prime::modulus() != w % prime::modulus()) != (b % prime::modulus() != c
            % prime::modulus()),
    ensures
        commit_log(v, b) != commit_log(w, c),
{
    let m = prime::modulus();
    let h = h_log();
    if commit_log(v, b) == commit_log(w, c) {
        if v % m != w % m {
            commitments_bind(v, b, w, c);
            vstd::arithmetic::div_mod::lemma_mod_equivalence(b, c, m);
        } else {
            prime::modulus_is_prime();
            second_generator();
            arith::mod_small(h, m);
            arith::cong_sub(v + h * b, w + h * c, v, w, m);
            lemma_mul_is_commutative(h, b);
            lemma_mul_is_commutative(h, c);
            arith::cancel(b, c, h, m);
        }
    }
}

/// An evaluation opening cannot be changed in one place: with another evaluation
/// share, or with another blinding factor, it does not open the commitments.
pub proof fn changed_evaluation_refused(
    k1: Seq<int>,
    k2: Seq<int>,
    index: int,
    x: int,
    eval_share: int,
    eval_blind: int,
    eval_share2: int,
    eval_blind2: int,
)
    requires
        h_exists(),
        evaluation_opens(k1, k2, index, x, eval_share, eval_blind),
        (eval_share % prime::modulus() != eval_share2 % prime::modulus()) != (eval_blind
            % prime::modulus() != eval_blind2 % prime::modulus()),
    ensures
        !evaluation_opens(k1, k2, index, x, eval_share2, eval_blind2),
{
    changed_commitment_differs(eval_share, eval_blind, eval_share2, eval_blind2);
}

/// A commitment hides the value: every commitment opens to every value, with
/// exactly one blinding factor.
pub proof fn commitments_hide(log: int, v: int) -> (b: int)
    requires
        h_exists(),
        0 <= log < prime::modulus(),
    ensures
        0 <= b < prime::modulus(),
        commit_log(v, b) == log,
        forall|c: int| 0 <= c < prime::modulus() && #[trigger] commit_log(v, c) == log ==> c == b,
{
    let m = prime::modulus();
    let h = h_log();
    prime::modulus_is_prime();
    second_generator();
    arith::mod_small(h, m);
    let i = arith::prime_has_inverse(h, m);
    let b = (i * (log - v)) % m;
    arith::mod_idem(i * (log - v), m);
    arith::cong_mul(h, h, b, i * (log - v), m);
    lemma_mul_is_associative(h, i, log - v);
    arith::mod_small(1, m);
    arith::cong_mul(h * i, 1, log - v, log - v, m);
    assert(1 * (log - v) == log - v);
    arith::cong_add(v, v, h * b, log - v, m);
    arith::mod_small(log, m);
    assert forall|c: int| 0 <= c < m && #[trigger] commit_log(v, c) == log implies c == b by {
        arith::cong_sub(v + h * c, v + h * b, v, v, m);
        lemma_mul_is_commutative(h, c);
        lemma_mul_is_commutative(h, b);
        arith::cancel(c, b, h, m);
        arith::mod_small(c, m);
        arith::mod_small(b, m);
    }
    b
}

} // verus!

//! Joint random secret sharing: the dealer-free coefficient setup.
//!
//! Each member deals two random polynomials and their blinding polynomials; the
//! coefficient polynomials of a slot are the sums over the dealers.
use vstd::arithmetic::mul::*;
use vstd::prelude::*;

use crate::arith;
use crate::field::{self, Fr};
use crate::messages;
use crate::pedersen::{self, CoefficientCommitments, PedersenPolyCommitment};
use crate::poly;
use crate::prime;
use crate::protocol::{
    CoefficientShare, HashShareCommitments, SetupOutput, ShareCorrectnessProfile,
    ShareCorrectnessProfileKind,
};
use crate::random::{OsScalars, ScalarSource};
use crate::shamir::{self, Share};

verus! {

// ---------------------------------------------------------------------------
// Model
// ---------------------------------------------------------------------------

/// The polynomials behind one coefficient pair, each with its blinding
/// polynomial.
pub struct SlotPolys {
    pub k1: Seq<int>,
    pub k2: Seq<int>,
    pub k1_blind: Seq<int>,
    pub k2_blind: Seq<int>,
}

/// The `k`-th of consecutive pieces of the given size.
pub open spec fn chunk(d: Seq<int>, size: int, k: int) -> Seq<int> {
    d.subrange(size * k, size * k + size)
}

/// What one dealer deals from `4 t` random elements: first the two constant
/// terms, then the rest of the two polynomials, then the blinding polynomials.
pub open spec fn dealer(c: Seq<int>, t: int) -> SlotPolys {
    SlotPolys {
        k1: seq![c[0]] + c.subrange(2, t + 1),
        k2: seq![c[1]] + c.subrange(t + 1, 2 * t),
        k1_blind: c.subrange(2 * t, 3 * t),
        k2_blind: c.subrange(3 * t, 4 * t),
    }
}

/// What the `n` dealers of one slot deal from `4 t n` random elements.
pub open spec fn dealers(d: Seq<int>, t: int, n: int) -> Seq<SlotPolys> {
    Seq::new(n as nat, |j: int| dealer(chunk(d, 4 * t, j), t))
}

/// The sum of polynomials with `t` coefficients each.
pub open spec fn combined(rows: Seq<Seq<int>>, t: int) -> Seq<int> {
    Seq::new(t as nat, |i: int| pedersen::column_sum(rows, i) % prime::modulus())
}

/// The first polynomials of some dealers.
pub open spec fn k1_rows(ds: Seq<SlotPolys>) -> Seq<Seq<int>> {
    Seq::new(ds.len(), |j: int| ds[j].k1)
}

/// The second polynomials of some dealers.
pub open spec fn k2_rows(ds: Seq<SlotPolys>) -> Seq<Seq<int>> {
    Seq::new(ds.len(), |j: int| ds[j].k2)
}

/// The first blinding polynomials of some dealers.
pub open spec fn k1_blind_rows(ds: Seq<SlotPolys>) -> Seq<Seq<int>> {
    Seq::new(ds.len(), |j: int| ds[j].k1_blind)
}

/// The second blinding polynomials of some dealers.
pub open spec fn k2_blind_rows(ds: Seq<SlotPolys>) -> Seq<Seq<int>> {
    Seq::new(ds.len(), |j: int| ds[j].k2_blind)
}

/// The sum over dealers, polynomial by polynomial.
pub open spec fn combine(ds: Seq<SlotPolys>, t: int) -> SlotPolys {
    SlotPolys {
        k1: combined(k1_rows(ds), t),
        k2: combined(k2_rows(ds), t),
        k1_blind: combined(k1_blind_rows(ds), t),
        k2_blind: combined(k2_blind_rows(ds), t),
    }
}

/// The polynomials of every slot, from the random elements of all slots.
pub open spec fn setup_polys(d: Seq<int>, t: int, n: int, slots: int) -> Seq<SlotPolys> {
    Seq::new(slots as nat, |s: int| combine(dealers(chunk(d, 4 * t * n, s), t, n), t))
}

/// The shares of member `i` (from zero) for one slot.
pub open spec fn is_member_share(c: CoefficientShare, p: SlotPolys, slot: int, i: int) -> bool {
    &&& c.coeff_id == slot
    &&& c.k1_share.index == i + 1
    &&& c.k2_share.index == i + 1
    &&& c.k1_blind_share.index == i + 1
    &&& c.k2_blind_share.index == i + 1
    &&& c.k1_share.value@ == shamir::value_at(p.k1, i + 1)
    &&& c.k2_share.value@ == shamir::value_at(p.k2, i + 1)
    &&& c.k1_blind_share.value@ == shamir::value_at(p.k1_blind, i + 1)
    &&& c.k2_blind_share.value@ == shamir::value_at(p.k2_blind, i + 1)
}

/// The hash commitments of one slot.
pub open spec fn is_hash_slot(h: HashShareCommitments, p: SlotPolys, slot: int, n: int) -> bool {
    &&& h.coeff_id == slot
    &&& h.per_member@.len() == n
    &&& forall|i: int|
        #![trigger h.per_member@[i]]
        0 <= i < n ==> h.per_member@[i] == messages::share_commitment(
            slot as u64,
            (i + 1) as u32,
            shamir::value_at(p.k1, i + 1),
            shamir::value_at(p.k2, i + 1),
        )
}

/// The Pedersen commitments of one slot.
pub open spec fn is_pedersen_slot(c: CoefficientCommitments, p: SlotPolys, slot: int) -> bool {
    &&& c.coeff_id == slot
    &&& pedersen::commits_to(c.k1.logs(), p.k1, p.k1_blind)
    &&& pedersen::commits_to(c.k2.logs(), p.k2, p.k2_blind)
}

/// The profile has the given kind and commits to the polynomials of every slot.
pub open spec fn is_profile(
    profile: ShareCorrectnessProfile,
    kind: ShareCorrectnessProfileKind,
    polys: Seq<SlotPolys>,
    n: int,
) -> bool {
    match kind {
        ShareCorrectnessProfileKind::HashCommitted => {
            &&& profile matches ShareCorrectnessProfile::HashCommitted { commitments, setuproot }
            &&& commitments@.len() == polys.len()
            &&& forall|s: int|
                0 <= s < polys.len() ==> is_hash_slot(#[trigger] commitments@[s], polys[s], s, n)
            &&& setuproot == messages::setuproot_of(commitments@)
        },
        ShareCorrectnessProfileKind::Pedersen => {
            &&& profile matches ShareCorrectnessProfile::Pedersen { commitments }
            &&& commitments@.len() == polys.len()
            &&& forall|s: int|
                0 <= s < polys.len() ==> is_pedersen_slot(#[trigger] commitments@[s], polys[s], s)
        },
        ShareCorrectnessProfileKind::ExternalAvssTranscript => {
            profile is ExternalAvssTranscript
        },
    }
}

/// The setup shares the given polynomials among `n` members.
pub open spec fn is_setup(
    out: SetupOutput,
    polys: Seq<SlotPolys>,
    t: u32,
    n: u32,
    kind: ShareCorrectnessProfileKind,
) -> bool {
    &&& out.n == n
    &&& out.t == t
    &&& out.member_shares@.len() == n
    &&& forall|i: int| 0 <= i < n ==> (#[trigger] out.member_shares@[i])@.len() == polys.len()
    &&& forall|i: int, s: int|
        0 <= i < n && 0 <= s < polys.len() ==> is_member_share(
            #[trigger] out.member_shares@[i]@[s],
            polys[s],
            s,
            i,
        )
    &&& is_profile(out.share_profile, kind, polys, n as int)
}

// ---------------------------------------------------------------------------
// Sums of polynomials
// ---------------------------------------------------------------------------

/// One more polynomial in the sum.
proof fn combined_push(rows: Seq<Seq<int>>, p: Seq<int>, t: int, x: int)
    requires
        p.len() == t,
    ensures
        poly::eval(combined(rows.push(p), t), x) % prime::modulus() == (poly::eval(
            combined(rows, t),
            x,
        ) + poly::eval(p, x)) % prime::modulus(),
{
    let m = prime::modulus();
    let before = combined(rows, t);
    let after = combined(rows.push(p), t);
    let sum = poly::plus(before, p);
    poly::eval_plus(before, p, x);
    assert(rows.push(p).drop_last() =~= rows);
    assert forall|i: int| 0 <= i < t implies #[trigger] after[i] % m == sum[i] % m by {
        let s = pedersen::column_sum(rows, i);
        arith::mod_idem(s, m);
        arith::mod_idem(s + p[i], m);
        arith::cong_add(s, s % m, p[i], p[i], m);
    }
    poly::eval_cong(after, sum, x, x, m);
}

/// The empty sum is zero.
proof fn combined_empty(t: int, x: int)
    requires
        t >= 0,
    ensures
        poly::eval(combined(seq![], t), x) % prime::modulus() == 0,
{
    let z = combined(seq![], t);
    arith::mod_small(0, prime::modulus());
    assert forall|i: int| 0 <= i < z.len() implies #[trigger] z[i] % prime::modulus() == 0 by {}
    poly::eval_vanishing(z, x, prime::modulus());
}

/// Pieces before the end stay when a piece is appended, which is the next one.
proof fn chunk_append(d: Seq<int>, e: Seq<int>, size: int, k: int)
    requires
        size >= 0,
        k >= 0,
        d.len() == size * k,
        e.len() == size,
    ensures
        (d + e).len() == size * (k + 1),
        chunk(d + e, size, k) == e,
        forall|j: int| 0 <= j < k ==> #[trigger] chunk(d + e, size, j) == chunk(d, size, j),
{
    lemma_mul_is_distributive_add(size, k, 1);
    assert(chunk(d + e, size, k) =~= e);
    assert forall|j: int| 0 <= j < k implies #[trigger] chunk(d + e, size, j) == chunk(
        d,
        size,
        j,
    ) by {
        assert(0 <= size * j && size * j + size <= size * k) by (nonlinear_arith)
            requires
                0 <= j < k,
                size >= 0,
        ;
        assert(chunk(d + e, size, j) =~= chunk(d, size, j));
    }
}

// ---------------------------------------------------------------------------
// One dealer
// ---------------------------------------------------------------------------

/// The shares that one dealer hands out, and its commitments under the Pedersen
/// profile.
struct Dealing {
    a: Vec<Share>,
    b: Vec<Share>,
    a_blind: Vec<Share>,
    b_blind: Vec<Share>,
    commitments: Option<(PedersenPolyCommitment, PedersenPolyCommitment)>,
}

impl Dealing {
    /// The dealing shares the polynomials, and commits to them if it has to.
    spec fn shares(&self, p: SlotPolys, n: nat, kind: ShareCorrectnessProfileKind) -> bool {
        &&& shamir::is_dealing(self.a@, p.k1, n)
        &&& shamir::is_dealing(self.b@, p.k2, n)
        &&& shamir::is_dealing(self.a_blind@, p.k1_blind, n)
        &&& shamir::is_dealing(self.b_blind@, p.k2_blind, n)
        &&& match self.commitments {
            Some((a, b)) => kind is Pedersen && pedersen::commits_to(a.logs(), p.k1, p.k1_blind)
                && pedersen::commits_to(b.logs(), p.k2, p.k2_blind),
            None => !(kind is Pedersen),
        }
    }
}

/// Checks every member's shares of one polynomial against the commitment to it.
fn all_open(commitment: &PedersenPolyCommitment, values: &Vec<Share>, blinds: &Vec<Share>) -> (r:
    bool)
    requires
        pedersen::h_exists(),
        values@.len() == blinds@.len(),
    ensures
        r == forall|i: int|
            0 <= i < values@.len() ==> pedersen::share_opens(
                commitment.logs(),
                #[trigger] values@[i],
                blinds@[i],
            ),
{
    let mut i: usize = 0;
    while i < values.len()
        invariant
            i <= values@.len(),
            pedersen::h_exists(),
            values@.len() == blinds@.len(),
            forall|j: int|
                0 <= j < i ==> pedersen::share_opens(
                    commitment.logs(),
                    #[trigger] values@[j],
                    blinds@[j],
                ),
        decreases values@.len() - i,
    {
        if !pedersen::verify_share(commitment, &values[i], &blinds[i]) {
            return false;
        }
        i = i + 1;
    }
    true
}

/// One member contributes two random secrets, shares them and their blinding
/// secrets, and under the Pedersen profile commits to the polynomials.
fn deal<R: ScalarSource>(
    t: u32,
    n: u32,
    kind: ShareCorrectnessProfileKind,
    rng: &mut R,
) -> (r: Dealing)
    requires
        t >= 1,
        kind is Pedersen ==> pedersen::h_exists(),
    ensures
        final(rng).drawn().len() == old(rng).drawn().len() + 4 * t,
        old(rng).drawn() == final(rng).drawn().take(old(rng).drawn().len() as int),
        r.shares(
            dealer(final(rng).drawn().skip(old(rng).drawn().len() as int), t as int),
            n as nat,
            kind,
        ),
{
    let ghost before = rng.drawn();
    let a_j = rng.next_scalar();
    let b_j = rng.next_scalar();
    let a_poly = shamir::random_polynomial(a_j, t, rng);
    let b_poly = shamir::random_polynomial(b_j, t, rng);
    let a_blind_secret = rng.next_scalar();
    let a_blind_poly = shamir::random_polynomial(a_blind_secret, t, rng);
    let b_blind_secret = rng.next_scalar();
    let b_blind_poly = shamir::random_polynomial(b_blind_secret, t, rng);
    let ghost p = dealer(rng.drawn().skip(before.len() as int), t as int);
    proof {
        let (a, b) = (field::residues(a_poly@), field::residues(b_poly@));
        let (u, v) = (field::residues(a_blind_poly@), field::residues(b_blind_poly@));
        let d = rng.drawn().skip(before.len() as int);
        assert(d =~= seq![a_j@, b_j@] + a.skip(1) + b.skip(1) + u + v) by {
            assert(u =~= seq![a_blind_secret@] + u.skip(1));
            assert(v =~= seq![b_blind_secret@] + v.skip(1));
        }
        assert(rng.drawn().take(before.len() as int) =~= before);
        assert(p.k1 =~= a);
        assert(p.k2 =~= b);
        assert(p.k1_blind =~= u);
        assert(p.k2_blind =~= v);
    }
    let a = shamir::shares_from_coefficients(a_poly.as_slice(), n);
    let b = shamir::shares_from_coefficients(b_poly.as_slice(), n);
    let a_blind = shamir::shares_from_coefficients(a_blind_poly.as_slice(), n);
    let b_blind = shamir::shares_from_coefficients(b_blind_poly.as_slice(), n);
    let commitments = match kind {
        ShareCorrectnessProfileKind::Pedersen => {
            let a_commitment = pedersen::commit_polynomial(
                a_poly.as_slice(),
                a_blind_poly.as_slice(),
            );
            let b_commitment = pedersen::commit_polynomial(
                b_poly.as_slice(),
                b_blind_poly.as_slice(),
            );
            let a_opens = all_open(&a_commitment, &a, &a_blind);
            let b_opens = all_open(&b_commitment, &b, &b_blind);
            proof {
                assert forall|i: int| 0 <= i < n implies pedersen::share_opens(
                    a_commitment.logs(),
                    #[trigger] a@[i],
                    a_blind@[i],
                ) by {
                    pedersen::dealt_shares_open(
                        a_commitment.logs(),
                        p.k1,
                        p.k1_blind,
                        a@[i],
                        a_blind@[i],
                    );
                }
                assert forall|i: int| 0 <= i < n implies pedersen::share_opens(
                    b_commitment.logs(),
                    #[trigger] b@[i],
                    b_blind@[i],
                ) by {
                    pedersen::dealt_shares_open(
                        b_commitment.logs(),
                        p.k2,
                        p.k2_blind,
                        b@[i],
                        b_blind@[i],
                    );
                }
            }
            assert(a_opens && b_opens);
            Some((a_commitment, b_commitment))
        },
        _ => None,
    };
    Dealing { a, b, a_blind, b_blind, commitments }
}

// ---------------------------------------------------------------------------
// One slot
// ---------------------------------------------------------------------------

/// Every member's shares of one coefficient pair, and the commitments to it
/// under the Pedersen profile.
struct Slot {
    k1: Vec<Fr>,
    k2: Vec<Fr>,
    k1_blind: Vec<Fr>,
    k2_blind: Vec<Fr>,
    commitments: Option<CoefficientCommitments>,
}

/// The values are those of the polynomial at the points one to `n`.
spec fn are_values(values: Seq<Fr>, p: Seq<int>, n: int) -> bool {
    &&& values.len() == n
    &&& forall|i: int|
        #![trigger values[i]]
        0 <= i < n ==> values[i]@ == shamir::value_at(p, i + 1)
}

/// Adds the values of some shares to running sums.
fn accumulate(
    sums: &mut Vec<Fr>,
    shares: &Vec<Share>,
    Ghost(rows): Ghost<Seq<Seq<int>>>,
    Ghost(p): Ghost<Seq<int>>,
    Ghost(t): Ghost<int>,
)
    requires
        p.len() == t,
        are_values(old(sums)@, combined(rows, t), shares@.len() as int),
        shamir::is_dealing(shares@, p, shares@.len()),
    ensures
        are_values(final(sums)@, combined(rows.push(p), t), shares@.len() as int),
{
    let ghost m = prime::modulus();
    let ghost n = shares@.len() as int;
    let ghost start = sums@;
    let mut i: usize = 0;
    while i < shares.len()
        invariant
            i <= n,
            m == prime::modulus(),
            n == shares@.len(),
            p.len() == t,
            start.len() == n,
            sums@.len() == n,
            are_values(start, combined(rows, t), n),
            shamir::is_dealing(shares@, p, n as nat),
            forall|j: int|
                #![trigger sums@[j]]
                0 <= j < i ==> sums@[j]@ == shamir::value_at(combined(rows.push(p), t), j + 1),
            forall|j: int| i <= j < n ==> #[trigger] sums@[j] == start[j],
        decreases n - i,
    {
        let sum = sums[i] + shares[i].value;
        proof {
            let x = i + 1;
            let (e, f) = (poly::eval(combined(rows, t), x), poly::eval(p, x));
            combined_push(rows, p, t, x);
            assert(sums@[i as int] == start[i as int]);
            assert(shares@[i as int].value@ == f % m);
            arith::mod_idem(e, m);
            arith::mod_idem(f, m);
            arith::cong_add(e % m, e, f % m, f, m);
        }
        sums.set(i, sum);
        i = i + 1;
    }
}

/// Sums of nothing.
fn zeros(n: u32, Ghost(t): Ghost<int>) -> (r: Vec<Fr>)
    requires
        t >= 0,
    ensures
        are_values(r@, combined(seq![], t), n as int),
{
    let r: Vec<Fr> = vec![Fr::zero(); n as usize];
    proof {
        assert forall|i: int|
            #![trigger r@[i]]
            0 <= i < n implies r@[i]@ == shamir::value_at(combined(seq![], t), i + 1) by {
            combined_empty(t, i + 1);
        }
    }
    r
}

/// The sum of commitments is a commitment to the sums.
fn aggregate(
    commitments: &Vec<PedersenPolyCommitment>,
    Ghost(values): Ghost<Seq<Seq<int>>>,
    Ghost(blinds): Ghost<Seq<Seq<int>>>,
    Ghost(t): Ghost<int>,
) -> (r: PedersenPolyCommitment)
    requires
        commitments@.len() > 0,
        values.len() == commitments@.len(),
        blinds.len() == commitments@.len(),
        forall|j: int|
            0 <= j < values.len() ==> pedersen::commits_to(
                (#[trigger] commitments@[j]).logs(),
                values[j],
                blinds[j],
            ) && values[j].len() == t,
    ensures
        pedersen::commits_to(r.logs(), combined(values, t), combined(blinds, t)),
{
    let ghost m = prime::modulus();
    let ghost rows = pedersen::commitment_rows(commitments@);
    proof {
        assert forall|j: int| 0 <= j < commitments@.len() implies (
        #[trigger] commitments@[j]).coeffs@.len() == commitments@[0].coeffs@.len() by {
            assert(commitments@[j].logs().len() == t);
            assert(commitments@[0].logs().len() == t);
        }
    }
    let r = pedersen::aggregate_commitments(commitments.as_slice());
    proof {
        assert(commitments@[0].logs().len() == t);
        assert forall|i: int| 0 <= i < t implies #[trigger] r.logs()[i] == pedersen::commit_log(
            combined(values, t)[i],
            combined(blinds, t)[i],
        ) by {
            assert forall|j: int| 0 <= j < rows.len() implies pedersen::commits_to(
                #[trigger] rows[j],
                values[j],
                blinds[j],
            ) && 0 <= i < rows[j].len() by {
                assert(rows[j] == commitments@[j].logs());
            }
            pedersen::aggregated_commitments(rows, values, blinds, i);
            let (v, b) = (pedersen::column_sum(values, i), pedersen::column_sum(blinds, i));
            arith::mod_idem(v, m);
            arith::mod_idem(b, m);
            pedersen::commit_log_cong(v, v % m, b, b % m);
            assert(r.logs()[i] == r.coeffs@[i]@);
        }
    }
    r
}

/// Every member deals for one slot; the shares are summed up.
fn deal_slot<R: ScalarSource>(
    coeff_id: u64,
    t: u32,
    n: u32,
    kind: ShareCorrectnessProfileKind,
    rng: &mut R,
) -> (r: Slot)
    requires
        n > 0 ==> t >= 1,
        kind is Pedersen ==> n > 0 && pedersen::h_exists(),
    ensures
        final(rng).drawn().len() == old(rng).drawn().len() + 4 * t * n,
        old(rng).drawn() == final(rng).drawn().take(old(rng).drawn().len() as int),
        ({
            let p = combine(
                dealers(
                    final(rng).drawn().skip(old(rng).drawn().len() as int),
                    t as int,
                    n as int,
                ),
                t as int,
            );
            &&& are_values(r.k1@, p.k1, n as int)
            &&& are_values(r.k2@, p.k2, n as int)
            &&& are_values(r.k1_blind@, p.k1_blind, n as int)
            &&& are_values(r.k2_blind@, p.k2_blind, n as int)
            &&& match r.commitments {
                Some(c) => kind is Pedersen && is_pedersen_slot(c, p, coeff_id as int),
                None => !(kind is Pedersen),
            }
        }),
{
    let ghost before = rng.drawn();
    let ghost b = before.len() as int;
    let ghost tt = t as int;
    let mut k1 = zeros(n, Ghost(tt));
    let mut k2 = zeros(n, Ghost(tt));
    let mut k1_blind = zeros(n, Ghost(tt));
    let mut k2_blind = zeros(n, Ghost(tt));
    let mut k1_commitments: Vec<PedersenPolyCommitment> = Vec::new();
    let mut k2_commitments: Vec<PedersenPolyCommitment> = Vec::new();
    let ghost mut ds: Seq<SlotPolys> = seq![];
    proof {
        assert(k1_rows(ds) =~= seq![]);
        assert(k2_rows(ds) =~= seq![]);
        assert(k1_blind_rows(ds) =~= seq![]);
        assert(k2_blind_rows(ds) =~= seq![]);
        assert(rng.drawn().skip(b) =~= seq![]);
        assert(rng.drawn().take(b) =~= before);
        lemma_mul_by_zero_is_zero(4 * tt);
    }
    let mut j: u32 = 0;
    while j < n
        invariant
            j <= n,
            tt == t,
            n > 0 ==> t >= 1,
            kind is Pedersen ==> pedersen::h_exists(),
            b == before.len(),
            rng.drawn().len() == b + 4 * tt * j,
            before == rng.drawn().take(b),
            ds == dealers(rng.drawn().skip(b), tt, j as int),
            are_values(k1@, combined(k1_rows(ds), tt), n as int),
            are_values(k2@, combined(k2_rows(ds), tt), n as int),
            are_values(k1_blind@, combined(k1_blind_rows(ds), tt), n as int),
            are_values(k2_blind@, combined(k2_blind_rows(ds), tt), n as int),
            kind is Pedersen ==> k1_commitments@.len() == j && k2_commitments@.len() == j,
            kind is Pedersen ==> forall|i: int|
                0 <= i < j ==> pedersen::commits_to(
                    (#[trigger] k1_commitments@[i]).logs(),
                    ds[i].k1,
                    ds[i].k1_blind,
                ) && ds[i].k1.len() == tt,
            kind is Pedersen ==> forall|i: int|
                0 <= i < j ==> pedersen::commits_to(
                    (#[trigger] k2_commitments@[i]).logs(),
                    ds[i].k2,
                    ds[i].k2_blind,
                ) && ds[i].k2.len() == tt,
        decreases n - j,
    {
        let ghost log = rng.drawn();
        let dealing = deal(t, n, kind, rng);
        let ghost added = rng.drawn().skip(log.len() as int);
        let ghost p = dealer(added, tt);
        proof {
            assert(log.skip(b) + added =~= rng.drawn().skip(b));
            assert(rng.drawn().take(b) =~= log.take(b));
            chunk_append(log.skip(b), added, 4 * tt, j as int);
            assert(ds.push(p) =~= dealers(rng.drawn().skip(b), tt, j + 1));
            assert(p.k1.len() == tt && p.k2.len() == tt);
            assert(p.k1_blind.len() == tt && p.k2_blind.len() == tt);
            assert(k1_rows(ds.push(p)) =~= k1_rows(ds).push(p.k1));
            assert(k2_rows(ds.push(p)) =~= k2_rows(ds).push(p.k2));
            assert(k1_blind_rows(ds.push(p)) =~= k1_blind_rows(ds).push(p.k1_blind));
            assert(k2_blind_rows(ds.push(p)) =~= k2_blind_rows(ds).push(p.k2_blind));
        }
        accumulate(&mut k1, &dealing.a, Ghost(k1_rows(ds)), Ghost(p.k1), Ghost(tt));
        accumulate(&mut k2, &dealing.b, Ghost(k2_rows(ds)), Ghost(p.k2), Ghost(tt));
        accumulate(
            &mut k1_blind,
            &dealing.a_blind,
            Ghost(k1_blind_rows(ds)),
            Ghost(p.k1_blind),
            Ghost(tt),
        );
        accumulate(
            &mut k2_blind,
            &dealing.b_blind,
            Ghost(k2_blind_rows(ds)),
            Ghost(p.k2_blind),
            Ghost(tt),
        );
        match dealing.commitments {
            Some((a_commitment, b_commitment)) => {
                k1_commitments.push(a_commitment);
                k2_commitments.push(b_commitment);
            },
            None => {},
        }
        proof {
            ds = ds.push(p);
        }
        j = j + 1;
    }
    let commitments = match kind {
        ShareCorrectnessProfileKind::Pedersen => {
            let k1 = aggregate(
                &k1_commitments,
                Ghost(k1_rows(ds)),
                Ghost(k1_blind_rows(ds)),
                Ghost(tt),
            );
            let k2 = aggregate(
                &k2_commitments,
                Ghost(k2_rows(ds)),
                Ghost(k2_blind_rows(ds)),
                Ghost(tt),
            );
            Some(CoefficientCommitments { coeff_id, k1, k2 })
        },
        _ => None,
    };
    Slot { k1, k2, k1_blind, k2_blind, commitments }
}

/// The hash commitments to every member's shares of one slot.
fn commit_slot(coeff_id: u64, n: u32, k1: &Vec<Fr>, k2: &Vec<Fr>, Ghost(p): Ghost<SlotPolys>) -> (r:
    HashShareCommitments)
    requires
        are_values(k1@, p.k1, n as int),
        are_values(k2@, p.k2, n as int),
    ensures
        is_hash_slot(r, p, coeff_id as int, n as int),
{
    let mut per_member: Vec<[u8; 32]> = Vec::new();
    let mut i: u32 = 0;
    while i < n
        invariant
            i <= n,
            are_values(k1@, p.k1, n as int),
            are_values(k2@, p.k2, n as int),
            per_member@.len() == i,
            forall|j: int|
                #![trigger per_member@[j]]
                0 <= j < i ==> per_member@[j] == messages::share_commitment(
                    coeff_id,
                    (j + 1) as u32,
                    shamir::value_at(p.k1, j + 1),
                    shamir::value_at(p.k2, j + 1),
                ),
        decreases n - i,
    {
        per_member.push(messages::commit_share(coeff_id, i + 1, k1[i as usize], k2[i as usize]));
        i = i + 1;
    }
    HashShareCommitments { coeff_id, per_member }
}

/// Hands the shares of one slot to the members.
fn distribute(
    member_shares: &mut Vec<Vec<CoefficientShare>>,
    coeff_id: u64,
    n: u32,
    slot: &Slot,
    Ghost(p): Ghost<SlotPolys>,
)
    requires
        old(member_shares)@.len() == n,
        are_values(slot.k1@, p.k1, n as int),
        are_values(slot.k2@, p.k2, n as int),
        are_values(slot.k1_blind@, p.k1_blind, n as int),
        are_values(slot.k2_blind@, p.k2_blind, n as int),
    ensures
        final(member_shares)@.len() == n,
        forall|i: int|
            #![trigger final(member_shares)@[i]]
            0 <= i < n ==> final(member_shares)@[i]@.drop_last() == old(member_shares)@[i]@
                && final(member_shares)@[i]@.len() == old(member_shares)@[i]@.len() + 1
                && is_member_share(final(member_shares)@[i]@.last(), p, coeff_id as int, i),
{
    let ghost start = member_shares@;
    let mut i: u32 = 0;
    while i < n
        invariant
            i <= n,
            start.len() == n,
            member_shares@.len() == n,
            are_values(slot.k1@, p.k1, n as int),
            are_values(slot.k2@, p.k2, n as int),
            are_values(slot.k1_blind@, p.k1_blind, n as int),
            are_values(slot.k2_blind@, p.k2_blind, n as int),
            forall|j: int| i <= j < n ==> #[trigger] member_shares@[j] == start[j],
            forall|j: int|
                #![trigger member_shares@[j]]
                0 <= j < i ==> member_shares@[j]@.drop_last() == start[j]@
                    && member_shares@[j]@.len() == start[j]@.len() + 1 && is_member_share(
                    member_shares@[j]@.last(),
                    p,
                    coeff_id as int,
                    j,
                ),
        decreases n - i,
    {
        let k: usize = i as usize;
        let index: u32 = i + 1;
        let share = CoefficientShare {
            coeff_id,
            k1_share: Share { index, value: slot.k1[k] },
            k2_share: Share { index, value: slot.k2[k] },
            k1_blind_share: Share { index, value: slot.k1_blind[k] },
            k2_blind_share: Share { index, value: slot.k2_blind[k] },
        };
        member_shares[k].push(share);
        assert(member_shares@[k as int]@.drop_last() =~= start[k as int]@);
        i = index;
    }
}

// ---------------------------------------------------------------------------
// The setup
// ---------------------------------------------------------------------------

/// There are enough members and a positive threshold to deal with. Without
/// members the threshold does not matter, except under the Pedersen profile,
/// whose commitments are sums over at least one dealer.
pub open spec fn can_deal(
    t: u32,
    n: u32,
    batch_size: usize,
    kind: ShareCorrectnessProfileKind,
) -> bool {
    batch_size > 0 ==> (n > 0 ==> t >= 1) && (kind is Pedersen ==> n > 0)
}

/// Runs the setup with random elements from the given source: `4 t` for each
/// dealer, dealer by dealer and slot by slot.
pub fn jrss_setup_from<R: ScalarSource>(
    t: u32,
    n: u32,
    batch_size: usize,
    profile_kind: ShareCorrectnessProfileKind,
    rng: &mut R,
) -> (r: SetupOutput)
    requires
        can_deal(t, n, batch_size, profile_kind),
        profile_kind is Pedersen && batch_size > 0 ==> pedersen::h_exists(),
    ensures
        final(rng).drawn().len() == old(rng).drawn().len() + 4 * t * n * batch_size,
        old(rng).drawn() == final(rng).drawn().take(old(rng).drawn().len() as int),
        is_setup(
            r,
            setup_polys(
                final(rng).drawn().skip(old(rng).drawn().len() as int),
                t as int,
                n as int,
                batch_size as int,
            ),
            t,
            n,
            profile_kind,
        ),
{
    let ghost before = rng.drawn();
    let ghost b = before.len() as int;
    let ghost (tt, nn) = (t as int, n as int);
    let ghost size = 4 * tt * nn;
    let mut member_shares: Vec<Vec<CoefficientShare>> = Vec::new();
    let mut i: u32 = 0;
    while i < n
        invariant
            i <= n,
            member_shares@.len() == i,
            forall|j: int| 0 <= j < i ==> (#[trigger] member_shares@[j])@.len() == 0,
        decreases n - i,
    {
        member_shares.push(Vec::with_capacity(batch_size));
        i = i + 1;
    }
    let mut commitments: Vec<CoefficientCommitments> = Vec::new();
    let mut hash_commitments: Vec<HashShareCommitments> = Vec::new();
    let ghost mut polys: Seq<SlotPolys> = seq![];
    proof {
        assert(rng.drawn().skip(b) =~= seq![]);
        assert(rng.drawn().take(b) =~= before);
        lemma_mul_by_zero_is_zero(size);
    }
    let mut slot: usize = 0;
    while slot < batch_size
        invariant
            slot <= batch_size,
            tt == t,
            nn == n,
            size == 4 * tt * nn,
            can_deal(t, n, batch_size, profile_kind),
            profile_kind is Pedersen && batch_size > 0 ==> pedersen::h_exists(),
            b == before.len(),
            rng.drawn().len() == b + size * slot,
            before == rng.drawn().take(b),
            polys == setup_polys(rng.drawn().skip(b), tt, nn, slot as int),
            member_shares@.len() == n,
            forall|i: int| 0 <= i < n ==> (#[trigger] member_shares@[i])@.len() == slot,
            forall|i: int, s: int|
                0 <= i < n && 0 <= s < slot ==> is_member_share(
                    #[trigger] member_shares@[i]@[s],
                    polys[s],
                    s,
                    i,
                ),
            profile_kind is Pedersen ==> commitments@.len() == slot,
            profile_kind is Pedersen ==> forall|s: int|
                0 <= s < slot ==> is_pedersen_slot(#[trigger] commitments@[s], polys[s], s),
            profile_kind is HashCommitted ==> hash_commitments@.len() == slot,
            profile_kind is HashCommitted ==> forall|s: int|
                0 <= s < slot ==> is_hash_slot(#[trigger] hash_commitments@[s], polys[s], s, nn),
        decreases batch_size - slot,
    {
        let coeff_id: u64 = slot as u64;
        let ghost log = rng.drawn();
        let dealt = deal_slot(coeff_id, t, n, profile_kind, rng);
        let ghost added = rng.drawn().skip(log.len() as int);
        let ghost p = combine(dealers(added, tt, nn), tt);
        proof {
            assert(log.skip(b) + added =~= rng.drawn().skip(b));
            assert(rng.drawn().take(b) =~= log.take(b));
            assert(size >= 0) by (nonlinear_arith)
                requires
                    size == 4 * tt * nn,
                    tt >= 0,
                    nn >= 0,
            ;
            chunk_append(log.skip(b), added, size, slot as int);
            assert(polys.push(p) =~= setup_polys(rng.drawn().skip(b), tt, nn, slot + 1));
        }
        if let ShareCorrectnessProfileKind::HashCommitted = profile_kind {
            hash_commitments.push(commit_slot(coeff_id, n, &dealt.k1, &dealt.k2, Ghost(p)));
        }
        let ghost old_shares = member_shares@;
        distribute(&mut member_shares, coeff_id, n, &dealt, Ghost(p));
        proof {
            assert forall|i: int, s: int| 0 <= i < n && 0 <= s < slot + 1 implies is_member_share(
                #[trigger] member_shares@[i]@[s],
                polys.push(p)[s],
                s,
                i,
            ) by {
                let row = member_shares@[i]@;
                if s < slot {
                    assert(row[s] == row.drop_last()[s]);
                    assert(old_shares[i]@[s] == row[s]);
                } else {
                    assert(row[s] == row.last());
                }
            }
            polys = polys.push(p);
        }
        match dealt.commitments {
            Some(c) => {
                commitments.push(c);
            },
            None => {},
        }
        slot = slot + 1;
    }
    let share_profile = match profile_kind {
        ShareCorrectnessProfileKind::HashCommitted => {
            let setuproot = messages::compute_setuproot(hash_commitments.as_slice());
            ShareCorrectnessProfile::HashCommitted { commitments: hash_commitments, setuproot }
        },
        ShareCorrectnessProfileKind::Pedersen => {
            ShareCorrectnessProfile::Pedersen { commitments }
        },
        ShareCorrectnessProfileKind::ExternalAvssTranscript => {
            ShareCorrectnessProfile::ExternalAvssTranscript
        },
    };
    SetupOutput { member_shares, n, t, share_profile }
}

/// The setup comes from some random elements, as many as it takes.
pub open spec fn is_random_setup(
    out: SetupOutput,
    t: u32,
    n: u32,
    batch_size: usize,
    kind: ShareCorrectnessProfileKind,
) -> bool {
    exists|d: Seq<int>|
        d.len() == 4 * t * n * batch_size && is_setup(
            out,
            #[trigger] setup_polys(d, t as int, n as int, batch_size as int),
            t,
            n,
            kind,
        )
}

/// Runs dealer-free JRSS to generate `batch_size` coefficient pairs shared at
/// threshold `t` among `n` members. Each member contributes randomness; no
/// single party learns the full (k1, k2).
pub fn jrss_setup(t: u32, n: u32, batch_size: usize) -> (r: SetupOutput)
    requires
        can_deal(t, n, batch_size, ShareCorrectnessProfileKind::Pedersen),
        batch_size > 0 ==> pedersen::h_exists(),
    ensures
        is_random_setup(r, t, n, batch_size, ShareCorrectnessProfileKind::Pedersen),
{
    jrss_setup_with_profile(t, n, batch_size, ShareCorrectnessProfileKind::Pedersen)
}

/// Runs the setup for the given share-correctness profile, with the random
/// numbers of the operating system.
pub fn jrss_setup_with_profile(
    t: u32,
    n: u32,
    batch_size: usize,
    profile_kind: ShareCorrectnessProfileKind,
) -> (r: SetupOutput)
    requires
        can_deal(t, n, batch_size, profile_kind),
        profile_kind is Pedersen && batch_size > 0 ==> pedersen::h_exists(),
    ensures
        is_random_setup(r, t, n, batch_size, profile_kind),
{
    let mut rng = OsScalars::new();
    let r = jrss_setup_from(t, n, batch_size, profile_kind, &mut rng);
    assert(rng.drawn().skip(0) =~= rng.drawn());
    r
}

/// Runs the setup unless it needs the second generator of the Pedersen
/// commitments and there is none.
pub fn try_jrss_setup_with_profile(
    t: u32,
    n: u32,
    batch_size: usize,
    profile_kind: ShareCorrectnessProfileKind,
) -> (r: Option<SetupOutput>)
    requires
        can_deal(t, n, batch_size, profile_kind),
    ensures
        match r {
            Some(out) => is_random_setup(out, t, n, batch_size, profile_kind),
            None => profile_kind is Pedersen && batch_size > 0 && !pedersen::h_exists(),
        },
        profile_kind is Pedersen && batch_size > 0 && !pedersen::h_exists() ==> r is None,
{
    match profile_kind {
        ShareCorrectnessProfileKind::Pedersen => {
            if batch_size == 0 || pedersen::has_generator() {
                Some(jrss_setup(t, n, batch_size))
            } else {
                None
            }
        },
        _ => Some(jrss_setup_with_profile(t, n, batch_size, profile_kind)),
    }
}

} // verus!

//! What a setup hands out and commits to, and what approving makes of it.
use vstd::arithmetic::div_mod::*;
use vstd::prelude::*;

use crate::arith;
use crate::backend;
use crate::binding;
use crate::bytes;
use crate::curve::{self, Projective};
use crate::field;
use crate::laws;
use crate::messages;
use crate::openings;
use crate::pedersen;
use crate::poly;
use crate::prime;
use crate::protocol::{
    self, Contribution, CustodyPolicy, SetupOutput, ShareCorrectnessProfile,
    ShareCorrectnessProfileKind,
};
use crate::secrecy;
use crate::setup::{self, SlotPolys};
use crate::shamir::{self, Share};
use crate::signature::SigningKey;

verus! {

/// The share is the value of the polynomial at the number of member `i`, counted from
/// zero.
pub open spec fn is_share_of(share: Share, p: Seq<int>, i: int) -> bool {
    &&& share.index == i + 1
    &&& (share.value@ - poly::eval(p, i + 1)) % prime::modulus() == 0
}

/// The value of a polynomial is congruent to it.
proof fn value_is_share(share: Share, p: Seq<int>, i: int)
    requires
        share.index == i + 1,
        share.value@ == shamir::value_at(p, i + 1),
    ensures
        is_share_of(share, p, i),
{
    let m = prime::modulus();
    arith::mod_idem(poly::eval(p, i + 1), m);
    lemma_mod_equivalence(share.value@, poly::eval(p, i + 1), m);
}

/// Every member gets, for every slot, its shares of the two coefficient polynomials
/// and of their two blinding polynomials, under the number of the slot.
pub proof fn setup_hands_out(
    out: SetupOutput,
    polys: Seq<SlotPolys>,
    t: u32,
    n: u32,
    kind: ShareCorrectnessProfileKind,
    i: int,
    s: int,
)
    requires
        setup::is_setup(out, polys, t, n, kind),
        0 <= i < n,
        0 <= s < polys.len(),
    ensures
        out.n == n,
        out.t == t,
        out.member_shares@.len() == n,
        out.member_shares@[i]@.len() == polys.len(),
        out.member_shares@[i]@[s].coeff_id == s,
        is_share_of(out.member_shares@[i]@[s].k1_share, polys[s].k1, i),
        is_share_of(out.member_shares@[i]@[s].k2_share, polys[s].k2, i),
        is_share_of(out.member_shares@[i]@[s].k1_blind_share, polys[s].k1_blind, i),
        is_share_of(out.member_shares@[i]@[s].k2_blind_share, polys[s].k2_blind, i),
{
    let c = out.member_shares@[i]@[s];
    assert(setup::is_member_share(c, polys[s], s, i));
    value_is_share(c.k1_share, polys[s].k1, i);
    value_is_share(c.k2_share, polys[s].k2, i);
    value_is_share(c.k1_blind_share, polys[s].k1_blind, i);
    value_is_share(c.k2_blind_share, polys[s].k2_blind, i);
}

/// The profile of a setup has the kind that was asked for.
pub proof fn setup_has_kind(
    out: SetupOutput,
    polys: Seq<SlotPolys>,
    t: u32,
    n: u32,
    kind: ShareCorrectnessProfileKind,
)
    requires
        setup::is_setup(out, polys, t, n, kind),
    ensures
        kind is HashCommitted <==> out.share_profile is HashCommitted,
        kind is Pedersen <==> out.share_profile is Pedersen,
        kind is ExternalAvssTranscript <==> out.share_profile is ExternalAvssTranscript,
{
}

/// The hash-committed profile holds, for every slot and member, the digest of the slot
/// number, the member's number and the two shares that the member got; and its root is
/// the digest of all of them.
pub proof fn setup_hash_commits(
    out: SetupOutput,
    polys: Seq<SlotPolys>,
    t: u32,
    n: u32,
    i: int,
    s: int,
)
    requires
        setup::is_setup(out, polys, t, n, ShareCorrectnessProfileKind::HashCommitted),
        0 <= i < n,
        0 <= s < polys.len(),
        s <= u64::MAX,
    ensures
        out.share_profile is HashCommitted,
        ({
            let commitments = out.share_profile->HashCommitted_commitments@;
            let c = out.member_shares@[i]@[s];
            &&& commitments.len() == polys.len()
            &&& commitments[s].coeff_id == s
            &&& commitments[s].per_member@.len() == n
            &&& commitments[s].per_member@[i] == backend::sha256(
                binding::commitment_preimage(
                    s as u64,
                    (i + 1) as u32,
                    c.k1_share.value@,
                    c.k2_share.value@,
                ),
            )
            &&& out.share_profile->setuproot == backend::sha256(
                binding::root_preimage(commitments),
            )
        }),
{
    let commitments = out.share_profile->HashCommitted_commitments@;
    let c = out.member_shares@[i]@[s];
    assert(setup::is_member_share(c, polys[s], s, i));
    assert(setup::is_hash_slot(commitments[s], polys[s], s, n as int));
    field::residue_range(c.k1_share.value);
    field::residue_range(c.k2_share.value);
    binding::share_commitment_reads_back(
        s as u64,
        (i + 1) as u32,
        c.k1_share.value@,
        c.k2_share.value@,
    );
    assert(commitments[s].per_member@[i] == messages::share_commitment(
        s as u64,
        (i + 1) as u32,
        c.k1_share.value@,
        c.k2_share.value@,
    ));
    assert forall|j: int| 0 <= j < commitments.len() implies (
    #[trigger] commitments[j]).per_member@.len() == n by {
        assert(setup::is_hash_slot(commitments[j], polys[j], j, n as int));
    }
    binding::setup_root_reads_back(commitments, n as nat, s, i);
}

/// The Pedersen profile holds, for every slot, a commitment to every coefficient of
/// the two polynomials with the coefficient of its blinding polynomial.
pub proof fn setup_pedersen_commits(
    out: SetupOutput,
    polys: Seq<SlotPolys>,
    t: u32,
    n: u32,
    s: int,
    i: int,
)
    requires
        setup::is_setup(out, polys, t, n, ShareCorrectnessProfileKind::Pedersen),
        laws::sized(polys, t as int),
        0 <= s < polys.len(),
        0 <= i < t,
    ensures
        out.share_profile is Pedersen,
        ({
            let commitments = out.share_profile->Pedersen_commitments@;
            let c = commitments[s];
            let p = polys[s];
            let (h, m) = (pedersen::h_log(), prime::modulus());
            &&& commitments.len() == polys.len()
            &&& c.coeff_id == s
            &&& c.k1.coeffs@.len() == t
            &&& c.k2.coeffs@.len() == t
            &&& (c.k1.coeffs@[i]@ - p.k1[i] - h * p.k1_blind[i]) % m == 0
            &&& (c.k2.coeffs@[i]@ - p.k2[i] - h * p.k2_blind[i]) % m == 0
        }),
{
    let commitments = out.share_profile->Pedersen_commitments@;
    let c = commitments[s];
    let p = polys[s];
    assert(setup::is_pedersen_slot(c, p, s));
    assert(laws::is_sized(p.k1, t as int));
    openings::committed_coefficient(c.k1.logs(), p.k1, p.k1_blind, i);
    openings::committed_coefficient(c.k2.logs(), p.k2, p.k2_blind, i);
}

/// The members of a setup verify what they were dealt: under the Pedersen profile the
/// shares of every member open the commitments of every slot.
pub proof fn setup_shares_verify(
    out: SetupOutput,
    polys: Seq<SlotPolys>,
    t: u32,
    n: u32,
    i: int,
    s: int,
)
    requires
        setup::is_setup(out, polys, t, n, ShareCorrectnessProfileKind::Pedersen),
        0 <= i < n,
        0 <= s < polys.len(),
    ensures
        ({
            let c = out.share_profile->Pedersen_commitments@[s];
            let share = out.member_shares@[i]@[s];
            &&& pedersen::share_opens(c.k1.logs(), share.k1_share, share.k1_blind_share)
            &&& pedersen::share_opens(c.k2.logs(), share.k2_share, share.k2_blind_share)
        }),
{
    let c = out.share_profile->Pedersen_commitments@[s];
    let share = out.member_shares@[i]@[s];
    let p = polys[s];
    assert(setup::is_member_share(share, p, s, i));
    assert(setup::is_pedersen_slot(c, p, s));
    pedersen::dealt_shares_open(
        c.k1.logs(),
        p.k1,
        p.k1_blind,
        share.k1_share,
        share.k1_blind_share,
    );
    pedersen::dealt_shares_open(
        c.k2.logs(),
        p.k2,
        p.k2_blind,
        share.k2_share,
        share.k2_blind_share,
    );
}

/// A threshold and members are all that dealing takes.
pub proof fn dealing_is_possible(
    t: u32,
    n: u32,
    batch_size: usize,
    kind: ShareCorrectnessProfileKind,
)
    ensures
        t >= 1 && n >= 1 ==> setup::can_deal(t, n, batch_size, kind),
        batch_size == 0 ==> setup::can_deal(t, n, batch_size, kind),
        n == 0 && !(kind is Pedersen) ==> setup::can_deal(t, n, batch_size, kind),
{
}

/// A setup from random draws shares polynomials with `t` coefficients for every slot.
pub proof fn random_setup_shares(
    out: SetupOutput,
    t: u32,
    n: u32,
    batch_size: usize,
    kind: ShareCorrectnessProfileKind,
) -> (polys: Seq<SlotPolys>)
    requires
        setup::is_random_setup(out, t, n, batch_size, kind),
    ensures
        polys.len() == batch_size,
        laws::sized(polys, t as int),
        setup::is_setup(out, polys, t, n, kind),
{
    let d = choose|d: Seq<int>|
        d.len() == 4 * t * n * batch_size && setup::is_setup(
            out,
            #[trigger] setup::setup_polys(d, t as int, n as int, batch_size as int),
            t,
            n,
            kind,
        );
    laws::setup_polys_sized(d, t as int, n as int, batch_size as int);
    setup::setup_polys(d, t as int, n as int, batch_size as int)
}

/// Nothing is left out: every setup that shares polynomials with `t` coefficients may
/// come from random draws.
pub proof fn every_setup_may_come(
    out: SetupOutput,
    polys: Seq<SlotPolys>,
    t: u32,
    n: u32,
    batch_size: usize,
    kind: ShareCorrectnessProfileKind,
)
    requires
        t >= 1,
        n >= 1,
        polys.len() == batch_size,
        laws::sized(polys, t as int),
        setup::is_setup(out, polys, t, n, kind),
    ensures
        setup::is_random_setup(out, t, n, batch_size, kind),
{
    assert forall|s: int| 0 <= s < batch_size implies secrecy::has_size(
        #[trigger] polys[s],
        t as int,
    ) && secrecy::all_reduced(polys[s]) by {
        assert(laws::is_sized(polys[s].k1, t as int));
    }
    let d = secrecy::every_setup_is_drawn(t as int, n as int, batch_size as int, polys);
    assert(setup::setup_polys(d, t as int, n as int, batch_size as int) == polys);
}

/// What a member of the setup approves with its own share and key is honest.
pub proof fn approval_is_honest(
    c: Contribution,
    policy: CustodyPolicy,
    keys: Seq<SigningKey>,
    out: SetupOutput,
    polys: Seq<SlotPolys>,
    t: u32,
    n: u32,
    kind: ShareCorrectnessProfileKind,
    i: int,
    slot: int,
    op_type: Seq<char>,
    nonce: u64,
    message: Seq<u8>,
)
    requires
        setup::is_setup(out, polys, t, n, kind),
        0 <= i < n,
        0 <= slot < polys.len(),
        c.member_index == i + 1,
        protocol::is_evaluation(
            c.eval_share,
            c.opening,
            out.member_shares@[i]@[slot],
            policy.share_profile,
            policy.scalar(out.member_shares@[i]@[slot].coeff_id, op_type, nonce, message),
        ),
        protocol::is_signed(
            c,
            keys[i],
            policy,
            out.member_shares@[i]@[slot].coeff_id,
            op_type,
            nonce,
            message,
        ),
    ensures
        laws::is_honest(c, policy, keys, out, slot, op_type, nonce, message),
{
    setup_hands_out(out, polys, t, n, kind, i, slot);
}

/// Bytes lift to the point over the number that they spell, as a coordinate, in the
/// lower half, and to nothing only where the curve has no point there.
pub proof fn bytes_lift(data: Seq<u8>)
    ensures
        match curve::lift(data) {
            Some((u, v)) => {
                &&& u == bytes::be_value(data) % backend::base_modulus()
                &&& backend::on_curve(Some((u, v)))
                &&& 2 * v < backend::base_modulus()
            },
            None => forall|y: int| !#[trigger]
                backend::on_curve(Some((bytes::be_value(data) % backend::base_modulus(), y))),
        },
{
    curve::lift_is_smaller_root(bytes::be_value(data) % backend::base_modulus());
}

/// The first coordinate that is tried for the second generator under a number.
pub open spec fn tried_coordinate(counter: int) -> int {
    bytes::be_value(
        backend::sha256(
            bytes::text("dual-gate-demo-pedersen-h"@) + bytes::be_bytes(counter, 4),
        )@,
    ) % backend::base_modulus()
}

/// The second generator is the first point that is tried: on the curve, over the first
/// coordinate for its number, in the lower half, and not the neutral element; no
/// smaller number gives a point.
pub proof fn second_generator_is_first(h: Projective) -> (counter: int)
    requires
        pedersen::is_second_generator(h),
    ensures
        0 <= counter <= u32::MAX,
        backend::on_curve(h.coordinates()),
        h.coordinates() matches Some((u, v)) && u == tried_coordinate(counter) && 2 * v
            < backend::base_modulus(),
        forall|c: int, y: int|
            0 <= c < counter ==> !#[trigger] backend::on_curve(Some((tried_coordinate(c), y))),
        h@ != 0,
        h@ == pedersen::h_log(),
{
    let counter = pedersen::h_counter();
    assert forall|c: int, y: int| 0 <= c < counter implies !#[trigger] backend::on_curve(
        Some((tried_coordinate(c), y)),
    ) by {
        assert(pedersen::h_candidate(c) is None);
        curve::lift_is_smaller_root(tried_coordinate(c));
    }
    counter
}

/// There is no second generator only where no number gives a point.
pub proof fn no_second_generator()
    requires
        !pedersen::h_exists(),
    ensures
        forall|c: int, y: int|
            0 <= c <= u32::MAX ==> !#[trigger] backend::on_curve(Some((tried_coordinate(c), y))),
{
    assert forall|c: int, y: int| 0 <= c <= u32::MAX implies !#[trigger] backend::on_curve(
        Some((tried_coordinate(c), y)),
    ) by {
        no_candidate(c);
        assert(pedersen::h_candidate(c) is None);
        curve::lift_is_smaller_root(tried_coordinate(c));
    }
}

/// Without a first candidate there is none up to any number.
proof fn no_candidate(c: int)
    requires
        !pedersen::h_exists(),
        0 <= c <= u32::MAX,
    ensures
        forall|b: int| 0 <= b <= c ==> #[trigger] pedersen::h_candidate(b) is None,
    decreases c,
{
    if c > 0 {
        no_candidate(c - 1);
    }
    assert(!pedersen::is_h_counter(c));
}

} // verus!

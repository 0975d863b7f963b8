//! What authorization answers, request by request.
//!
//! Each law takes what is the case with a request, in terms of its own fields, of
//! digests, signatures and polynomials, and says which answer it gets.
use vstd::arithmetic::div_mod::*;
use vstd::prelude::*;

use crate::arith;
use crate::backend;
use crate::binding;
use crate::bytes;
use crate::field;
use crate::laws;
use crate::openings;
use crate::pedersen::{self, CoefficientCommitments};
use crate::poly;
use crate::prime;
use crate::protocol::{
    self, AuthError, AuthorizationReceipt, CoefficientShare, Contribution, CustodyPolicy,
    HashShareCommitments, ShareCorrectnessProfile, ShareOpening,
};
use crate::recovery;
use crate::robust;
use crate::signature::SigningKey;

verus! {

// ---------------------------------------------------------------------------
// Openings
// ---------------------------------------------------------------------------

/// The evaluation is the line through `k2` with slope `k1`.
pub proof fn evaluation_is_a_line(k1: int, x: int, k2: int)
    ensures
        0 <= protocol::affine(k1, x, k2) < prime::modulus(),
        (protocol::affine(k1, x, k2) - k1 * x - k2) % prime::modulus() == 0,
{
    let m = prime::modulus();
    arith::mod_idem(k1 * x + k2, m);
    lemma_mod_equivalence(protocol::affine(k1, x, k2), k1 * x + k2, m);
}

/// The position of an identifier is that of its first occurrence.
pub proof fn position_is_first(ids: Seq<u64>, id: u64)
    ensures
        match protocol::position(ids, id) {
            Some(s) => {
                &&& 0 <= s < ids.len()
                &&& ids[s] == id
                &&& forall|i: int| 0 <= i < s ==> #[trigger] ids[i] != id
            },
            None => forall|i: int| 0 <= i < ids.len() ==> #[trigger] ids[i] != id,
        },
    decreases ids.len(),
{
    if ids.len() > 0 {
        position_is_first(ids.drop_last(), id);
        let init = ids.drop_last();
        match protocol::position(init, id) {
            Some(s) => {
                assert forall|i: int| 0 <= i < s implies #[trigger] ids[i] != id by {
                    assert(init[i] != id);
                }
            },
            None => {
                assert forall|i: int| 0 <= i < ids.len() - 1 implies #[trigger] ids[i] != id by {
                    assert(init[i] != id);
                }
            },
        }
    }
}

/// The first hash commitments with the identifier are those of slot `s`.
pub open spec fn first_hash_slot(
    commitments: Seq<HashShareCommitments>,
    coeff_id: u64,
    s: int,
) -> bool {
    &&& 0 <= s < commitments.len()
    &&& commitments[s].coeff_id == coeff_id
    &&& forall|i: int| 0 <= i < s ==> (#[trigger] commitments[i]).coeff_id != coeff_id
}

/// The first Pedersen commitments with the identifier are those of slot `s`.
pub open spec fn first_pedersen_slot(
    commitments: Seq<CoefficientCommitments>,
    coeff_id: u64,
    s: int,
) -> bool {
    &&& 0 <= s < commitments.len()
    &&& commitments[s].coeff_id == coeff_id
    &&& forall|i: int| 0 <= i < s ==> (#[trigger] commitments[i]).coeff_id != coeff_id
}

/// Where a slot is the first, it is the position.
proof fn hash_slot_found(commitments: Seq<HashShareCommitments>, coeff_id: u64)
    ensures
        match protocol::position(protocol::hash_ids(commitments), coeff_id) {
            Some(s) => first_hash_slot(commitments, coeff_id, s),
            None => forall|s: int|
                0 <= s < commitments.len() ==> (#[trigger] commitments[s]).coeff_id != coeff_id,
        },
{
    let ids = protocol::hash_ids(commitments);
    position_is_first(ids, coeff_id);
    assert forall|i: int| 0 <= i < ids.len() implies #[trigger] commitments[i].coeff_id
        == ids[i] by {}
}

/// Where a slot is the first, it is the position.
proof fn pedersen_slot_found(commitments: Seq<CoefficientCommitments>, coeff_id: u64)
    ensures
        match protocol::position(protocol::pedersen_ids(commitments), coeff_id) {
            Some(s) => first_pedersen_slot(commitments, coeff_id, s),
            None => forall|s: int|
                0 <= s < commitments.len() ==> (#[trigger] commitments[s]).coeff_id != coeff_id,
        },
{
    let ids = protocol::pedersen_ids(commitments);
    position_is_first(ids, coeff_id);
    assert forall|i: int| 0 <= i < ids.len() implies #[trigger] commitments[i].coeff_id
        == ids[i] by {}
}

/// An opening under the hash-committed profile: without commitments for the
/// identifier it is unknown; an opening of another kind is invalid; a member without a
/// commitment is unknown; and the opening is accepted exactly where the revealed
/// shares have the committed digest and the evaluation share is `k1 * x + k2` of
/// them.
pub proof fn hash_opening_answer(
    profile: ShareCorrectnessProfile,
    coeff_id: u64,
    x: int,
    c: Contribution,
    s: int,
)
    requires
        profile is HashCommitted,
    ensures
        ({
            let commitments = profile->HashCommitted_commitments@;
            let answer = protocol::opening_error(profile, coeff_id, x, c);
            let invalid = Some(AuthError::InvalidShareOpening { member_index: c.member_index });
            &&& (forall|i: int|
                0 <= i < commitments.len() ==> (#[trigger] commitments[i]).coeff_id != coeff_id)
                ==> answer == Some(AuthError::UnknownCommitment(coeff_id))
            &&& first_hash_slot(commitments, coeff_id, s) ==> match c.opening {
                ShareOpening::HashCommitted { k1_share, k2_share } => {
                    let digests = commitments[s].per_member@;
                    &&& !(1 <= c.member_index <= digests.len()) ==> answer == Some(
                        AuthError::UnknownMember(c.member_index),
                    )
                    &&& 1 <= c.member_index <= digests.len() ==> if {
                        &&& backend::sha256(
                            binding::commitment_preimage(
                                coeff_id,
                                c.member_index,
                                k1_share@,
                                k2_share@,
                            ),
                        )@ == digests[c.member_index - 1]@
                        &&& (c.eval_share@ - k1_share@ * x - k2_share@) % prime::modulus() == 0
                    } {
                        answer is None
                    } else {
                        answer == invalid
                    }
                },
                _ => answer == invalid,
            }
        }),
{
    let commitments = profile->HashCommitted_commitments@;
    hash_slot_found(commitments, coeff_id);
    if first_hash_slot(commitments, coeff_id, s) {
        match protocol::position(protocol::hash_ids(commitments), coeff_id) {
            Some(i) => {
                if i < s {
                    assert(commitments[i].coeff_id != coeff_id);
                }
                if s < i {
                    assert(commitments[s].coeff_id != coeff_id);
                }
            },
            None => {
                assert(commitments[s].coeff_id != coeff_id);
            },
        }
        match c.opening {
            ShareOpening::HashCommitted { k1_share, k2_share } => {
                let m = prime::modulus();
                field::residue_range(k1_share);
                field::residue_range(k2_share);
                field::residue_range(c.eval_share);
                binding::share_commitment_reads_back(
                    coeff_id,
                    c.member_index,
                    k1_share@,
                    k2_share@,
                );
                evaluation_is_a_line(k1_share@, x, k2_share@);
                arith::mod_small(c.eval_share@, m);
                arith::mod_idem(k1_share@ * x + k2_share@, m);
                lemma_mod_equivalence(c.eval_share@, k1_share@ * x + k2_share@, m);
            },
            _ => {},
        }
    }
}

/// An opening under the Pedersen profile: without commitments for the identifier it
/// is unknown; an opening of another kind is invalid; and it is accepted exactly
/// where the evaluation share on the generator plus the blinding factor on the second
/// one is `x` times the first committed polynomial at the member's index plus the
/// second.
pub proof fn pedersen_opening_answer(
    profile: ShareCorrectnessProfile,
    coeff_id: u64,
    x: int,
    c: Contribution,
    s: int,
)
    requires
        profile is Pedersen,
    ensures
        ({
            let commitments = profile->Pedersen_commitments@;
            let answer = protocol::opening_error(profile, coeff_id, x, c);
            let invalid = Some(AuthError::InvalidShareOpening { member_index: c.member_index });
            let z = c.member_index as int;
            &&& (forall|i: int|
                0 <= i < commitments.len() ==> (#[trigger] commitments[i]).coeff_id != coeff_id)
                ==> answer == Some(AuthError::UnknownCommitment(coeff_id))
            &&& first_pedersen_slot(commitments, coeff_id, s) ==> match c.opening {
                ShareOpening::Pedersen { eval_blind } => if (c.eval_share@ + pedersen::h_log()
                    * eval_blind@ - poly::eval(commitments[s].k1.logs(), z) * x - poly::eval(
                    commitments[s].k2.logs(),
                    z,
                )) % prime::modulus() == 0 {
                    answer is None
                } else {
                    answer == invalid
                },
                _ => answer == invalid,
            }
        }),
{
    let commitments = profile->Pedersen_commitments@;
    pedersen_slot_found(commitments, coeff_id);
    if first_pedersen_slot(commitments, coeff_id, s) {
        match protocol::position(protocol::pedersen_ids(commitments), coeff_id) {
            Some(i) => {
                if i < s {
                    assert(commitments[i].coeff_id != coeff_id);
                }
                if s < i {
                    assert(commitments[s].coeff_id != coeff_id);
                }
            },
            None => {
                assert(commitments[s].coeff_id != coeff_id);
            },
        }
        match c.opening {
            ShareOpening::Pedersen { eval_blind } => {
                openings::evaluation_verifies_exactly_when(
                    pedersen::h_log(),
                    commitments[s].k1.logs(),
                    commitments[s].k2.logs(),
                    c.member_index as int,
                    x,
                    c.eval_share@,
                    eval_blind@,
                );
            },
            _ => {},
        }
    }
}

/// Under an external transcript nothing may be revealed.
pub proof fn external_opening_answer(
    profile: ShareCorrectnessProfile,
    coeff_id: u64,
    x: int,
    c: Contribution,
)
    requires
        profile is ExternalAvssTranscript,
    ensures
        protocol::opening_error(profile, coeff_id, x, c) is None <==> c.opening is Absent,
        !(c.opening is Absent) ==> protocol::opening_error(profile, coeff_id, x, c) == Some(
            AuthError::InvalidShareOpening { member_index: c.member_index },
        ),
{
}

/// Only an opening of Pedersen commitments that are there is checked with the second
/// generator.
pub proof fn generator_is_for_pedersen_openings(
    profile: ShareCorrectnessProfile,
    coeff_id: u64,
    c: Contribution,
)
    ensures
        protocol::opening_needs_generator(profile, coeff_id, c) <==> {
            &&& profile is Pedersen
            &&& c.opening is Pedersen
            &&& exists|s: int|
                0 <= s < profile->Pedersen_commitments@.len() && (
                #[trigger] profile->Pedersen_commitments@[s]).coeff_id == coeff_id
        },
{
    match profile {
        ShareCorrectnessProfile::Pedersen { commitments } => {
            pedersen_slot_found(commitments@, coeff_id);
            match protocol::position(protocol::pedersen_ids(commitments@), coeff_id) {
                Some(s) => {
                    assert(commitments@[s].coeff_id == coeff_id);
                },
                None => {},
            }
        },
        _ => {},
    }
}

// ---------------------------------------------------------------------------
// Contributions
// ---------------------------------------------------------------------------

/// The bytes of an opening in an envelope.
pub open spec fn opening_bytes(opening: ShareOpening) -> Seq<u8> {
    match opening {
        ShareOpening::HashCommitted { k1_share, k2_share } => seq![2u8] + bytes::be_bytes(
            k1_share@,
            32,
        ) + bytes::be_bytes(k2_share@, 32),
        ShareOpening::Pedersen { eval_blind } => seq![1u8] + bytes::be_bytes(eval_blind@, 32),
        ShareOpening::Absent => seq![0u8],
    }
}

/// The bytes that a member signs for an operation, with the evaluation share and the
/// opening of its contribution.
pub open spec fn signed_bytes(
    policy: CustodyPolicy,
    c: Contribution,
    coeff_id: u64,
    op_type: Seq<char>,
    nonce: u64,
    message: Seq<u8>,
) -> Seq<u8> {
    bytes::text("custody-share"@) + policy.address@ + bytes::be_bytes(policy.policy_id as int, 8)
        + bytes::be_bytes(coeff_id as int, 8) + bytes::be_bytes(c.member_index as int, 4)
        + bytes::be_bytes(binding::canonical(policy, op_type, nonce, message), 32)
        + bytes::be_bytes(c.eval_share@, 32) + opening_bytes(c.opening)
}

/// The policy expects those bytes in the envelope.
pub proof fn expected_envelope_is(
    policy: CustodyPolicy,
    c: Contribution,
    coeff_id: u64,
    op_type: Seq<char>,
    nonce: u64,
    message: Seq<u8>,
)
    ensures
        policy.expected_envelope(c, coeff_id, op_type, nonce, message) == signed_bytes(
            policy,
            c,
            coeff_id,
            op_type,
            nonce,
            message,
        ),
        c.opening.layout() == opening_bytes(c.opening),
{
    binding::operation_hashes(policy, coeff_id, op_type, nonce, message);
    assert(c.opening.layout() =~= opening_bytes(c.opening));
}

/// What is wrong with a contribution, check by check: a member that is not registered
/// is unknown; other bytes in the envelope than those of the operation are a
/// mismatch; a signature that does not verify under the member's key is invalid; and
/// beyond that the opening decides, with the scalar of the operation.
pub proof fn contribution_answer(
    policy: CustodyPolicy,
    c: Contribution,
    coeff_id: u64,
    op_type: Seq<char>,
    nonce: u64,
    message: Seq<u8>,
)
    ensures
        protocol::contribution_error(policy, c, coeff_id, op_type, nonce, message) == (
        if c.member_index == 0 || c.member_index > policy.member_keys@.len() {
            Some(AuthError::UnknownMember(c.member_index))
        } else if c.envelope@ != signed_bytes(policy, c, coeff_id, op_type, nonce, message) {
            Some(AuthError::EnvelopeMismatch { member_index: c.member_index })
        } else if !backend::ed25519_verifies(
            policy.member_keys@[c.member_index - 1].bytes@,
            c.envelope@,
            c.signature.bytes@,
        ) {
            Some(AuthError::InvalidSignature { member_index: c.member_index })
        } else {
            protocol::opening_error(
                policy.share_profile,
                coeff_id,
                binding::scalar_of(policy, coeff_id, op_type, nonce, message),
                c,
            )
        }),
{
    binding::operation_hashes(policy, coeff_id, op_type, nonce, message);
    expected_envelope_is(policy, c, coeff_id, op_type, nonce, message);
}

/// What approving signs: the bytes of the operation, with the member's key, and a
/// signature that verifies.
pub proof fn signed_contribution(
    c: Contribution,
    key: SigningKey,
    policy: CustodyPolicy,
    coeff_id: u64,
    op_type: Seq<char>,
    nonce: u64,
    message: Seq<u8>,
)
    requires
        protocol::is_signed(c, key, policy, coeff_id, op_type, nonce, message),
    ensures
        c.envelope@ == signed_bytes(policy, c, coeff_id, op_type, nonce, message),
        c.signature.bytes == backend::ed25519_signature(key.secret@, c.envelope@),
        backend::ed25519_verifies(
            backend::ed25519_public_key(key.secret@)@,
            c.envelope@,
            c.signature.bytes@,
        ),
{
    expected_envelope_is(policy, c, coeff_id, op_type, nonce, message);
}

/// What a coefficient share evaluates to: `k1 * x + k2` of the two shares; to open it,
/// the two shares, or `k1 * x + k2` of the two blinding shares, or nothing, as the
/// profile asks.
pub proof fn evaluation_of_share(
    c: Contribution,
    share: CoefficientShare,
    profile: ShareCorrectnessProfile,
    x: int,
)
    requires
        protocol::is_evaluation(c.eval_share, c.opening, share, profile, x),
    ensures
        (c.eval_share@ - share.k1_share.value@ * x - share.k2_share.value@) % prime::modulus() == 0,
        match profile {
            ShareCorrectnessProfile::HashCommitted { .. } => {
                &&& c.opening is HashCommitted
                &&& c.opening->k1_share@ == share.k1_share.value@
                &&& c.opening->k2_share@ == share.k2_share.value@
            },
            ShareCorrectnessProfile::Pedersen { .. } => {
                &&& c.opening is Pedersen
                &&& (c.opening->eval_blind@ - share.k1_blind_share.value@ * x
                    - share.k2_blind_share.value@) % prime::modulus() == 0
            },
            ShareCorrectnessProfile::ExternalAvssTranscript => c.opening is Absent,
        },
{
    evaluation_is_a_line(share.k1_share.value@, x, share.k2_share.value@);
    evaluation_is_a_line(share.k1_blind_share.value@, x, share.k2_blind_share.value@);
}

// ---------------------------------------------------------------------------
// Requests
// ---------------------------------------------------------------------------

/// A member that contributes twice is named: where the first `k` contributions come
/// from different members and the next one comes from one of them, the request for an
/// unused identifier is refused for that member, and the policy stays as it is.
pub proof fn repeated_member_is_named(
    result: Result<AuthorizationReceipt, AuthError>,
    before: CustodyPolicy,
    after: CustodyPolicy,
    contributions: Seq<Contribution>,
    coeff_id: u64,
    op_type: Seq<char>,
    nonce: u64,
    message: Seq<u8>,
    j: int,
    k: int,
)
    requires
        protocol::is_outcome(
            result,
            before,
            after,
            contributions,
            coeff_id,
            op_type,
            nonce,
            message,
        ),
        !before.consumed_coeffids@.contains(coeff_id),
        0 <= j < k < contributions.len(),
        contributions[j].member_index == contributions[k].member_index,
        laws::distinct_members(contributions.take(k)),
    ensures
        result == Err::<AuthorizationReceipt, AuthError>(
            AuthError::DuplicateMember(contributions[k].member_index),
        ),
        after == before,
{
    first_repeat(contributions, j, k);
}

/// The first repeated member.
proof fn first_repeat(contributions: Seq<Contribution>, j: int, k: int)
    requires
        0 <= j < k < contributions.len(),
        contributions[j].member_index == contributions[k].member_index,
        laws::distinct_members(contributions.take(k)),
    ensures
        protocol::first_duplicate(contributions) == Some(contributions[k].member_index),
    decreases contributions.len(),
{
    let init = contributions.drop_last();
    if k < contributions.len() - 1 {
        assert(init.take(k) =~= contributions.take(k));
        first_repeat(init, j, k);
    } else {
        assert(init =~= contributions.take(k));
        laws::duplicates_found(init);
        assert(protocol::member_indices(init)[j] == contributions[k].member_index);
    }
}

/// The first contribution with something wrong decides: where the members are
/// different and nothing is wrong with the first `k` contributions, the request for
/// an unused identifier is refused for what is wrong with the next one, and the
/// policy stays as it is.
pub proof fn first_wrong_contribution_decides(
    result: Result<AuthorizationReceipt, AuthError>,
    before: CustodyPolicy,
    after: CustodyPolicy,
    contributions: Seq<Contribution>,
    coeff_id: u64,
    op_type: Seq<char>,
    nonce: u64,
    message: Seq<u8>,
    k: int,
)
    requires
        protocol::is_outcome(
            result,
            before,
            after,
            contributions,
            coeff_id,
            op_type,
            nonce,
            message,
        ),
        !before.consumed_coeffids@.contains(coeff_id),
        laws::distinct_members(contributions),
        0 <= k < contributions.len(),
        laws::all_accepted(before, contributions.take(k), coeff_id, op_type, nonce, message),
        protocol::contribution_error(
            before,
            contributions[k],
            coeff_id,
            op_type,
            nonce,
            message,
        ) is Some,
    ensures
        result is Err,
        Some(result->Err_0) == protocol::contribution_error(
            before,
            contributions[k],
            coeff_id,
            op_type,
            nonce,
            message,
        ),
        after == before,
{
    laws::duplicates_found(contributions);
    first_wrong(before, contributions, coeff_id, op_type, nonce, message, k);
}

/// The first contribution with something wrong.
proof fn first_wrong(
    policy: CustodyPolicy,
    contributions: Seq<Contribution>,
    coeff_id: u64,
    op_type: Seq<char>,
    nonce: u64,
    message: Seq<u8>,
    k: int,
)
    requires
        0 <= k < contributions.len(),
        laws::all_accepted(policy, contributions.take(k), coeff_id, op_type, nonce, message),
        protocol::contribution_error(
            policy,
            contributions[k],
            coeff_id,
            op_type,
            nonce,
            message,
        ) is Some,
    ensures
        protocol::first_error(policy, contributions, coeff_id, op_type, nonce, message)
            == protocol::contribution_error(
            policy,
            contributions[k],
            coeff_id,
            op_type,
            nonce,
            message,
        ),
    decreases contributions.len(),
{
    let init = contributions.drop_last();
    if k < contributions.len() - 1 {
        assert(init.take(k) =~= contributions.take(k));
        assert(init[k] == contributions[k]);
        first_wrong(policy, init, coeff_id, op_type, nonce, message, k);
    } else {
        assert(init =~= contributions.take(k));
        laws::errors_found(policy, init, coeff_id, op_type, nonce, message);
    }
}

/// The evaluation share of a contribution stands under its member's number.
pub proof fn evaluation_share_of(contributions: Seq<Contribution>, i: int)
    requires
        0 <= i < contributions.len(),
    ensures
        protocol::evaluation_shares(contributions).len() == contributions.len(),
        protocol::evaluation_shares(contributions)[i].index == contributions[i].member_index,
        protocol::evaluation_shares(contributions)[i].value == contributions[i].eval_share,
{
}

/// The positions, in their order, of exactly those contributions whose evaluation
/// share is the polynomial's value at their member's number.
pub open spec fn contributions_on(
    contributions: Seq<Contribution>,
    p: Seq<int>,
    kept: Seq<int>,
) -> bool {
    &&& forall|k: int|
        0 <= k < kept.len() ==> 0 <= #[trigger] kept[k] < contributions.len() && poly::eval(
            p,
            contributions[kept[k]].member_index as int,
        ) % prime::modulus() == contributions[kept[k]].eval_share@
    &&& forall|j: int, k: int|
        #![trigger kept[j], kept[k]]
        0 <= j < k < kept.len() ==> kept[j] < kept[k]
    &&& forall|i: int|
        0 <= i < contributions.len() && poly::eval(
            p,
            (#[trigger] contributions[i]).member_index as int,
        ) % prime::modulus() == contributions[i].eval_share@ ==> kept.contains(i)
}

/// A polynomial with `t` coefficients on which all but few contributions lie, and the
/// positions of those.
pub open spec fn is_agreement(
    contributions: Seq<Contribution>,
    t: int,
    p: Seq<int>,
    kept: Seq<int>,
) -> bool {
    &&& t >= 1
    &&& p.len() == t
    &&& poly::reduced(p, prime::modulus())
    &&& contributions_on(contributions, p, kept)
    &&& 2 * (contributions.len() - kept.len()) + t <= contributions.len()
}

/// Agreement of contributions is recovery of their evaluation shares.
proof fn agreement_recovers(contributions: Seq<Contribution>, t: int, p: Seq<int>, kept: Seq<int>)
    ensures
        is_agreement(contributions, t, p, kept) <==> recovery::is_recovery(
            protocol::evaluation_shares(contributions),
            t,
            p,
            kept,
        ),
        is_agreement(contributions, t, p, kept) ==> robust::close(
            protocol::evaluation_shares(contributions),
            t,
            p,
        ),
{
    let shares = protocol::evaluation_shares(contributions);
    assert forall|i: int| 0 <= i < contributions.len() implies (#[trigger] shares[i]).index
        == contributions[i].member_index && shares[i].value == contributions[i].eval_share by {}
    if is_agreement(contributions, t, p, kept) {
        assert forall|k: int| 0 <= k < kept.len() implies 0 <= #[trigger] kept[k] < shares.len()
            && poly::eval(p, shares[kept[k]].index as int) % prime::modulus()
            == shares[kept[k]].value@ by {}
        assert forall|i: int|
            0 <= i < shares.len() && poly::eval(p, (#[trigger] shares[i]).index as int)
                % prime::modulus() == shares[i].value@ implies kept.contains(i) by {
            assert(contributions[i].member_index == shares[i].index);
        }
        recovery::close_by_positions(shares, t, p, kept);
    }
    if recovery::is_recovery(shares, t, p, kept) {
        assert forall|k: int| 0 <= k < kept.len() implies 0 <= #[trigger] kept[k]
            < contributions.len() && poly::eval(p, contributions[kept[k]].member_index as int)
            % prime::modulus() == contributions[kept[k]].eval_share@ by {
            assert(shares[kept[k]].index == contributions[kept[k]].member_index);
        }
        assert forall|i: int|
            0 <= i < contributions.len() && poly::eval(
                p,
                (#[trigger] contributions[i]).member_index as int,
            ) % prime::modulus() == contributions[i].eval_share@ implies kept.contains(i) by {
            assert(shares[i].index == contributions[i].member_index);
        }
    }
}

/// Too few contributions are counted: where nothing else is wrong, the refusal says
/// how many there are and how many it takes, and the policy stays as it is.
pub proof fn too_few_are_counted(
    result: Result<AuthorizationReceipt, AuthError>,
    before: CustodyPolicy,
    after: CustodyPolicy,
    contributions: Seq<Contribution>,
    coeff_id: u64,
    op_type: Seq<char>,
    nonce: u64,
    message: Seq<u8>,
)
    requires
        protocol::is_outcome(
            result,
            before,
            after,
            contributions,
            coeff_id,
            op_type,
            nonce,
            message,
        ),
        !before.consumed_coeffids@.contains(coeff_id),
        laws::distinct_members(contributions),
        laws::all_accepted(before, contributions, coeff_id, op_type, nonce, message),
        contributions.len() < before.threshold,
        contributions.len() <= usize::MAX,
    ensures
        result matches Err(AuthError::BelowThreshold { have, need }) && have == contributions.len()
            && need == before.threshold,
        after == before,
{
    laws::duplicates_found(contributions);
    laws::errors_found(before, contributions, coeff_id, op_type, nonce, message);
}

/// Malformed shares are counted: where nothing else is wrong and there are enough
/// contributions, but no polynomial goes through all evaluation shares but few, the
/// refusal says how many were submitted, the threshold, and the largest number of
/// errors for which there would have been room, and the policy stays as it is.
pub proof fn malformed_are_counted(
    result: Result<AuthorizationReceipt, AuthError>,
    before: CustodyPolicy,
    after: CustodyPolicy,
    contributions: Seq<Contribution>,
    coeff_id: u64,
    op_type: Seq<char>,
    nonce: u64,
    message: Seq<u8>,
)
    requires
        protocol::is_outcome(
            result,
            before,
            after,
            contributions,
            coeff_id,
            op_type,
            nonce,
            message,
        ),
        !before.consumed_coeffids@.contains(coeff_id),
        laws::distinct_members(contributions),
        laws::all_accepted(before, contributions, coeff_id, op_type, nonce, message),
        before.threshold <= contributions.len() <= usize::MAX,
        forall|p: Seq<int>, kept: Seq<int>| !#[trigger]
            is_agreement(contributions, before.threshold as int, p, kept),
    ensures
        result matches Err(
            AuthError::MalformedShares { submitted, threshold, max_correctable },
        ) && submitted == contributions.len() && threshold == before.threshold && 2
            * max_correctable + threshold <= submitted && submitted < 2 * (max_correctable + 1)
            + threshold,
        after == before,
{
    let shares = protocol::evaluation_shares(contributions);
    let t = before.threshold as int;
    laws::duplicates_found(contributions);
    laws::errors_found(before, contributions, coeff_id, op_type, nonce, message);
    assert forall|p: Seq<int>| !#[trigger] robust::close(shares, t, p) by {
        if robust::close(shares, t, p) {
            let kept = recovery::positions_exist(shares, p);
            recovery::close_by_positions(shares, t, p, kept);
            agreement_recovers(contributions, t, p, kept);
            assert(!is_agreement(contributions, t, p, kept));
        }
    }
}

/// What a granted request gets: where the identifier is unused, the members are
/// different, nothing is wrong with any contribution, and a polynomial goes through
/// all evaluation shares but few, there is a receipt with the polynomial's constant
/// term, the identifier, the digest of the message, and the members on the
/// polynomial, in their order; the identifier is consumed, and nothing else in the
/// policy changes.
pub proof fn granted_receipt(
    result: Result<AuthorizationReceipt, AuthError>,
    before: CustodyPolicy,
    after: CustodyPolicy,
    contributions: Seq<Contribution>,
    coeff_id: u64,
    op_type: Seq<char>,
    nonce: u64,
    message: Seq<u8>,
    p: Seq<int>,
    kept: Seq<int>,
)
    requires
        protocol::is_outcome(
            result,
            before,
            after,
            contributions,
            coeff_id,
            op_type,
            nonce,
            message,
        ),
        !before.consumed_coeffids@.contains(coeff_id),
        laws::distinct_members(contributions),
        laws::all_accepted(before, contributions, coeff_id, op_type, nonce, message),
        is_agreement(contributions, before.threshold as int, p, kept),
    ensures
        result is Ok,
        result->Ok_0.sigma@ == p[0],
        result->Ok_0.coeff_id == coeff_id,
        result->Ok_0.message_hash == backend::sha256(message),
        result->Ok_0.member_bitmap@ == Seq::new(
            kept.len(),
            |k: int| contributions[kept[k]].member_index,
        ),
        after.consumed_coeffids@ == before.consumed_coeffids@.push(coeff_id),
        after.address == before.address,
        after.policy_id == before.policy_id,
        after.threshold == before.threshold,
        after.member_keys == before.member_keys,
        after.share_profile == before.share_profile,
{
    let shares = protocol::evaluation_shares(contributions);
    agreement_recovers(contributions, before.threshold as int, p, kept);
    laws::close_quorum_authorizes(
        result,
        before,
        after,
        contributions,
        coeff_id,
        op_type,
        nonce,
        message,
        p,
    );
    recovery::positions_of_agreeing(shares, p, kept);
    assert(recovery::indices_at(shares, kept) =~= Seq::new(
        kept.len(),
        |k: int| contributions[kept[k]].member_index,
    )) by {
        assert forall|k: int| 0 <= k < kept.len() implies recovery::indices_at(shares, kept)[k]
            == contributions[kept[k]].member_index by {
            assert(0 <= kept[k] < contributions.len());
        }
    }
}

/// A receipt is only given for such a request: the identifier was unused, the members
/// are different, nothing is wrong with any contribution, and a polynomial with as
/// many coefficients as the threshold goes through all evaluation shares but few.
pub proof fn receipt_needs_agreement(
    result: Result<AuthorizationReceipt, AuthError>,
    before: CustodyPolicy,
    after: CustodyPolicy,
    contributions: Seq<Contribution>,
    coeff_id: u64,
    op_type: Seq<char>,
    nonce: u64,
    message: Seq<u8>,
) -> (w: (Seq<int>, Seq<int>))
    requires
        protocol::is_outcome(
            result,
            before,
            after,
            contributions,
            coeff_id,
            op_type,
            nonce,
            message,
        ),
        result is Ok,
    ensures
        !before.consumed_coeffids@.contains(coeff_id),
        laws::distinct_members(contributions),
        laws::all_accepted(before, contributions, coeff_id, op_type, nonce, message),
        is_agreement(contributions, before.threshold as int, w.0, w.1),
        w.1.len() >= before.threshold,
        result->Ok_0.sigma@ == w.0[0],
{
    let shares = protocol::evaluation_shares(contributions);
    let t = before.threshold as int;
    laws::authorized_exactly_when(
        result,
        before,
        after,
        contributions,
        coeff_id,
        op_type,
        nonce,
        message,
    );
    let p = choose|p: Seq<int>| #[trigger] robust::close(shares, t, p);
    let kept = recovery::positions_exist(shares, p);
    recovery::close_by_positions(shares, t, p, kept);
    agreement_recovers(contributions, t, p, kept);
    granted_receipt(
        result,
        before,
        after,
        contributions,
        coeff_id,
        op_type,
        nonce,
        message,
        p,
        kept,
    );
    (p, kept)
}

/// Contributions authorize one operation only: where the same ones are granted two
/// requests, at any states of any policies, both are for the same account, policy,
/// coefficient identifier, type, nonce and message, unless byte strings that are
/// written out collide.
pub proof fn contributions_authorize_one_operation(
    contributions: Seq<Contribution>,
    result: Result<AuthorizationReceipt, AuthError>,
    before: CustodyPolicy,
    after: CustodyPolicy,
    coeff_id: u64,
    op_type: Seq<char>,
    nonce: u64,
    message: Seq<u8>,
    result2: Result<AuthorizationReceipt, AuthError>,
    before2: CustodyPolicy,
    after2: CustodyPolicy,
    coeff_id2: u64,
    op_type2: Seq<char>,
    nonce2: u64,
    message2: Seq<u8>,
)
    requires
        protocol::is_outcome(
            result,
            before,
            after,
            contributions,
            coeff_id,
            op_type,
            nonce,
            message,
        ),
        protocol::is_outcome(
            result2,
            before2,
            after2,
            contributions,
            coeff_id2,
            op_type2,
            nonce2,
            message2,
        ),
        result is Ok,
        result2 is Ok,
    ensures
        before.address@ == before2.address@,
        before.policy_id == before2.policy_id,
        coeff_id == coeff_id2,
        binding::same_operation(
            before,
            op_type,
            nonce,
            message,
            before2,
            op_type2,
            nonce2,
            message2,
        ),
{
    laws::authorization_needs_a_signed_quorum(
        result,
        before,
        after,
        contributions,
        coeff_id,
        op_type,
        nonce,
        message,
    );
    laws::authorized_exactly_when(
        result,
        before,
        after,
        contributions,
        coeff_id,
        op_type,
        nonce,
        message,
    );
    laws::authorized_exactly_when(
        result2,
        before2,
        after2,
        contributions,
        coeff_id2,
        op_type2,
        nonce2,
        message2,
    );
    let c = contributions[0];
    assert(protocol::contribution_error(before, c, coeff_id, op_type, nonce, message) is None);
    assert(protocol::contribution_error(
        before2,
        c,
        coeff_id2,
        op_type2,
        nonce2,
        message2,
    ) is None);
    binding::accepted_contribution_binds(
        c,
        before,
        coeff_id,
        op_type,
        nonce,
        message,
        before2,
        coeff_id2,
        op_type2,
        nonce2,
        message2,
    );
}

/// A refused request leaves the policy as it is.
pub proof fn refusal_changes_nothing(
    result: Result<AuthorizationReceipt, AuthError>,
    before: CustodyPolicy,
    after: CustodyPolicy,
    contributions: Seq<Contribution>,
    coeff_id: u64,
    op_type: Seq<char>,
    nonce: u64,
    message: Seq<u8>,
)
    requires
        protocol::is_outcome(
            result,
            before,
            after,
            contributions,
            coeff_id,
            op_type,
            nonce,
            message,
        ),
        result is Err,
    ensures
        after == before,
{
}

/// A request takes the second generator exactly where it gets as far as its openings
/// and one of them is of Pedersen commitments that are there.
pub proof fn request_takes_generator(
    policy: CustodyPolicy,
    contributions: Seq<Contribution>,
    coeff_id: u64,
)
    ensures
        protocol::needs_generator(policy, contributions, coeff_id) <==> {
            &&& !policy.consumed_coeffids@.contains(coeff_id)
            &&& laws::distinct_members(contributions)
            &&& policy.share_profile is Pedersen
            &&& exists|s: int|
                0 <= s < policy.share_profile->Pedersen_commitments@.len() && (
                #[trigger] policy.share_profile->Pedersen_commitments@[s]).coeff_id == coeff_id
            &&& exists|i: int|
                0 <= i < contributions.len() && (#[trigger] contributions[i]).opening is Pedersen
        },
{
    laws::duplicates_found(contributions);
    let profile = policy.share_profile;
    assert forall|i: int| 0 <= i < contributions.len() implies protocol::opening_needs_generator(
        profile,
        coeff_id,
        #[trigger] contributions[i],
    ) == {
        &&& profile is Pedersen
        &&& contributions[i].opening is Pedersen
        &&& exists|s: int|
            0 <= s < profile->Pedersen_commitments@.len() && (
            #[trigger] profile->Pedersen_commitments@[s]).coeff_id == coeff_id
    } by {
        generator_is_for_pedersen_openings(profile, coeff_id, contributions[i]);
    }
}

} // verus!

//! The dual-gate protocol: coefficient setup, member approval, authorization.
//!
//! Two gates must both pass over the same canonical message: each approving
//! member signs a contribution envelope, and the signed evaluation shares
//! reconstruct the affine authorization value.
use vstd::prelude::*;

use crate::arith;
use crate::backend;
use crate::bytes;
use crate::field::Fr;
use crate::messages;
use crate::pedersen::{self, CoefficientCommitments};
use crate::prime;
use crate::robust;
use crate::shamir::{self, Share};
use crate::signature::{Signature, SigningKey, VerifyingKey};

pub use crate::setup::{
    jrss_setup, jrss_setup_from, jrss_setup_with_profile, try_jrss_setup_with_profile,
};

verus! {

// ---------------------------------------------------------------------------
// Types
// ---------------------------------------------------------------------------

/// The two keys of a member.
#[derive(Clone)]
pub struct MemberKey {
    pub signing_key: SigningKey,
    pub verifying_key: VerifyingKey,
}

/// Per-member share of one coefficient pair (k1, k2) for a single operation slot.
#[derive(Clone, Copy, Debug)]
pub struct CoefficientShare {
    pub coeff_id: u64,
    pub k1_share: Share,
    pub k2_share: Share,
    pub k1_blind_share: Share,
    pub k2_blind_share: Share,
}

/// Output of JRSS setup: per-member coefficient shares for a batch of operation slots.
#[derive(Clone, Debug)]
pub struct SetupOutput {
    /// member_shares[i] = shares for member i (0-indexed), one per coefficient slot.
    pub member_shares: Vec<Vec<CoefficientShare>>,
    /// Number of members.
    pub n: u32,
    /// Threshold.
    pub t: u32,
    /// Share-correctness profile activated for this setup.
    pub share_profile: ShareCorrectnessProfile,
}

/// A signed contribution from one custody member for one operation.
#[derive(Clone, Debug)]
pub struct Contribution {
    pub member_index: u32,
    pub eval_share: Fr,
    pub opening: ShareOpening,
    pub envelope: Vec<u8>,
    pub signature: Signature,
}

/// The result of a successful authorization.
#[derive(Clone, Debug)]
pub struct AuthorizationReceipt {
    pub sigma: Fr,
    pub coeff_id: u64,
    pub message_hash: [u8; 32],
    pub member_bitmap: Vec<u32>,
}

/// Policy binding a custody account.
#[derive(Clone, Debug)]
pub struct CustodyPolicy {
    pub address: [u8; 20],
    pub policy_id: u64,
    pub threshold: u32,
    pub member_keys: Vec<VerifyingKey>,
    pub share_profile: ShareCorrectnessProfile,
    /// Tracks which coefficient IDs have been consumed.
    pub consumed_coeffids: Vec<u64>,
}

/// The kinds of share-correctness profile.
#[derive(Clone, Copy, Debug)]
pub enum ShareCorrectnessProfileKind {
    HashCommitted,
    Pedersen,
    ExternalAvssTranscript,
}

/// How the shares of an operation are checked.
#[derive(Clone, Debug)]
pub enum ShareCorrectnessProfile {
    /// Post-quantum-clean operation-time openings. Setup commits each member's
    /// slot shares with a collision-resistant hash bound under `setuproot`; at
    /// operation time the member reveals the shares inside the signed envelope
    /// and the verifier recomputes the commitment. Hash-only, so it is the
    /// recommended profile for a PQ deployment. Reveals single-use slot material
    /// (presignature model), which is consumed under finality.
    HashCommitted { commitments: Vec<HashShareCommitments>, setuproot: [u8; 32] },
    /// Classical discrete-log Pedersen openings. Demonstrates public VSS-style
    /// operation-time checks, but relies on discrete-log binding and is therefore
    /// not PQ-clean. Kept as a classical demonstrator.
    Pedersen { commitments: Vec<CoefficientCommitments> },
    /// Adapter for an existing VSS/AVSS setup transcript that already handled
    /// dealing, complaints, and agreement externally, but does not export cheap
    /// public operation-time openings. Provides only Berlekamp-Welch robust
    /// decoding: an honest-majority *liveness* mechanism, not a share-correctness
    /// (anti-forgery) mechanism. It does NOT defend the keys-without-shares
    /// adversary; use only when member signing keys and coefficient shares share
    /// one compromise domain.
    ExternalAvssTranscript,
}

/// Per-slot hash commitments to each member's coefficient shares.
#[derive(Clone, Debug)]
pub struct HashShareCommitments {
    pub coeff_id: u64,
    /// per_member[i] commits member (i+1)'s shares for this slot.
    pub per_member: Vec<[u8; 32]>,
}

/// What a contribution reveals for the check of its share.
#[derive(Clone, Copy, Debug)]
pub enum ShareOpening {
    /// PQ-clean: reveal the member's slot shares; the verifier recomputes the
    /// hash commitment and the affine evaluation.
    HashCommitted { k1_share: Fr, k2_share: Fr },
    Pedersen { eval_blind: Fr },
    /// Nothing is revealed.
    Absent,
}

/// An operation that members approve.
#[derive(Clone, Copy, Debug)]
pub struct Operation<'a> {
    pub op_type: &'a str,
    pub nonce: u64,
    pub message: &'a [u8],
}

// ---------------------------------------------------------------------------
// Per-operation: member approval (Gate 1 + Gate 2 share production)
// ---------------------------------------------------------------------------

/// The affine combination `k1 * x + k2`.
pub open spec fn affine(k1: int, x: int, k2: int) -> int {
    (k1 * x + k2) % prime::modulus()
}

/// The combination `k1 * x + k2` in the field.
fn combine(k1: Fr, x: Fr, k2: Fr) -> (r: Fr)
    ensures
        r@ == affine(k1@, x@, k2@),
{
    let product = k1 * x;
    proof {
        let m = prime::modulus();
        arith::mod_idem(k1@ * x@, m);
        arith::cong_add((k1@ * x@) % m, k1@ * x@, k2@, k2@, m);
    }
    product + k2
}

impl CustodyPolicy {
    /// The canonical message of an operation under this policy.
    pub open spec fn bound(&self, op_type: Seq<char>, nonce: u64, message: Seq<u8>) -> int {
        messages::bound_message(self.address@, self.policy_id, op_type, nonce, message)
    }

    /// The common affine scalar of an operation under this policy.
    pub open spec fn scalar(
        &self,
        coeff_id: u64,
        op_type: Seq<char>,
        nonce: u64,
        message: Seq<u8>,
    ) -> int {
        messages::affine_x(self.bound(op_type, nonce, message), coeff_id)
    }

    /// The envelope that the policy expects around a contribution to an
    /// operation.
    pub open spec fn expected_envelope(
        &self,
        c: Contribution,
        coeff_id: u64,
        op_type: Seq<char>,
        nonce: u64,
        message: Seq<u8>,
    ) -> Seq<u8> {
        messages::envelope(
            self.address@,
            self.policy_id,
            coeff_id,
            c.member_index,
            self.bound(op_type, nonce, message),
            c.eval_share@,
            c.opening,
        )
    }
}

/// The contribution has the envelope of the operation, and the key signed it.
pub open spec fn is_signed(
    c: Contribution,
    key: SigningKey,
    policy: CustodyPolicy,
    coeff_id: u64,
    op_type: Seq<char>,
    nonce: u64,
    message: Seq<u8>,
) -> bool {
    &&& c.envelope@ == policy.expected_envelope(c, coeff_id, op_type, nonce, message)
    &&& c.signature.bytes == backend::ed25519_signature(key.secret@, c.envelope@)
    &&& key.public().accepts(c.envelope@, c.signature)
}

/// The evaluation share and the opening are those that the coefficient share
/// gives for the scalar `x` under the profile.
pub open spec fn is_evaluation(
    eval_share: Fr,
    opening: ShareOpening,
    share: CoefficientShare,
    profile: ShareCorrectnessProfile,
    x: int,
) -> bool {
    &&& eval_share@ == affine(share.k1_share.value@, x, share.k2_share.value@)
    &&& match profile {
        ShareCorrectnessProfile::HashCommitted { .. } => {
            &&& opening matches ShareOpening::HashCommitted { k1_share, k2_share }
            &&& k1_share == share.k1_share.value
            &&& k2_share == share.k2_share.value
        },
        ShareCorrectnessProfile::Pedersen { .. } => {
            &&& opening matches ShareOpening::Pedersen { eval_blind }
            &&& eval_blind@ == affine(
                share.k1_blind_share.value@,
                x,
                share.k2_blind_share.value@,
            )
        },
        ShareCorrectnessProfile::ExternalAvssTranscript => opening is Absent,
    }
}

/// Evaluates a coefficient share at the scalar `x`: the evaluation share, and the
/// opening that the profile asks for.
pub fn evaluate_share(
    coeff_share: &CoefficientShare,
    profile: &ShareCorrectnessProfile,
    x: Fr,
) -> (r: (Fr, ShareOpening))
    ensures
        is_evaluation(r.0, r.1, *coeff_share, *profile, x@),
{
    let eval_share = combine(coeff_share.k1_share.value, x, coeff_share.k2_share.value);
    let opening = match profile {
        ShareCorrectnessProfile::HashCommitted { .. } => ShareOpening::HashCommitted {
            k1_share: coeff_share.k1_share.value,
            k2_share: coeff_share.k2_share.value,
        },
        ShareCorrectnessProfile::Pedersen { .. } => ShareOpening::Pedersen {
            eval_blind: combine(
                coeff_share.k1_blind_share.value,
                x,
                coeff_share.k2_blind_share.value,
            ),
        },
        ShareCorrectnessProfile::ExternalAvssTranscript => ShareOpening::Absent,
    };
    (eval_share, opening)
}

/// A custody member approves an operation: evaluates its affine share and signs
/// the contribution envelope (Gate 1 + Gate 2 share production).
pub fn approve(
    member_key: &MemberKey,
    coeff_share: &CoefficientShare,
    policy: &CustodyPolicy,
    member_index: u32,
    op_type: &str,
    nonce: u64,
    message: &[u8],
) -> (r: Contribution)
    ensures
        r.member_index == member_index,
        is_evaluation(
            r.eval_share,
            r.opening,
            *coeff_share,
            policy.share_profile,
            policy.scalar(coeff_share.coeff_id, op_type@, nonce, message@),
        ),
        is_signed(
            r,
            member_key.signing_key,
            *policy,
            coeff_share.coeff_id,
            op_type@,
            nonce,
            message@,
        ),
{
    let m_par_n = messages::bind_message(
        &policy.address,
        policy.policy_id,
        op_type,
        nonce,
        message,
    );
    let x = messages::derive_x(m_par_n, coeff_share.coeff_id);
    let (eval_share, opening) = evaluate_share(coeff_share, &policy.share_profile, x);
    let operation = Operation { op_type, nonce, message };
    sign_evaluation_share(
        member_key,
        policy,
        member_index,
        coeff_share.coeff_id,
        operation,
        eval_share,
        opening,
    )
}

/// Signs a caller-provided evaluation share. Honest members call `approve`;
/// this lower-level function also models a stolen signing key that signs
/// malformed field elements without knowing the matching coefficient share.
pub fn sign_evaluation_share(
    member_key: &MemberKey,
    policy: &CustodyPolicy,
    member_index: u32,
    coeff_id: u64,
    operation: Operation<'_>,
    eval_share: Fr,
    opening: ShareOpening,
) -> (r: Contribution)
    ensures
        r.member_index == member_index,
        r.eval_share == eval_share,
        r.opening == opening,
        is_signed(
            r,
            member_key.signing_key,
            *policy,
            coeff_id,
            operation.op_type@,
            operation.nonce,
            operation.message@,
        ),
{
    let m_par_n = messages::bind_message(
        &policy.address,
        policy.policy_id,
        operation.op_type,
        operation.nonce,
        operation.message,
    );
    let envelope = messages::build_envelope(
        &policy.address,
        policy.policy_id,
        coeff_id,
        member_index,
        m_par_n,
        eval_share,
        &opening,
    );
    let signature = member_key.signing_key.sign(envelope.as_slice());
    Contribution { member_index, eval_share, opening, envelope, signature }
}

// ---------------------------------------------------------------------------
// Authorization: verify contributions and reconstruct (enforcement layer)
// ---------------------------------------------------------------------------

/// Why an operation is not authorized.
#[derive(Debug)]
pub enum AuthError {
    BelowThreshold { have: usize, need: u32 },
    InvalidSignature { member_index: u32 },
    EnvelopeMismatch { member_index: u32 },
    CoeffIdConsumed(u64),
    DuplicateMember(u32),
    UnknownMember(u32),
    UnknownCommitment(u64),
    InvalidShareOpening { member_index: u32 },
    MalformedShares { submitted: usize, threshold: u32, max_correctable: usize },
}

/// The first position of an identifier.
pub open spec fn position(ids: Seq<u64>, id: u64) -> Option<int>
    decreases ids.len(),
{
    if ids.len() == 0 {
        None
    } else {
        match position(ids.drop_last(), id) {
            Some(i) => Some(i),
            None => if ids.last() == id {
                Some(ids.len() - 1)
            } else {
                None
            },
        }
    }
}

/// The identifiers of hash commitments.
pub open spec fn hash_ids(commitments: Seq<HashShareCommitments>) -> Seq<u64> {
    Seq::new(commitments.len(), |i: int| commitments[i].coeff_id)
}

/// The identifiers of Pedersen commitments.
pub open spec fn pedersen_ids(commitments: Seq<CoefficientCommitments>) -> Seq<u64> {
    Seq::new(commitments.len(), |i: int| commitments[i].coeff_id)
}

/// What is wrong with the opening of a contribution, if anything.
pub open spec fn opening_error(
    profile: ShareCorrectnessProfile,
    coeff_id: u64,
    x: int,
    c: Contribution,
) -> Option<AuthError> {
    let invalid = Some(AuthError::InvalidShareOpening { member_index: c.member_index });
    match profile {
        ShareCorrectnessProfile::HashCommitted { commitments, .. } => match position(
            hash_ids(commitments@),
            coeff_id,
        ) {
            None => Some(AuthError::UnknownCommitment(coeff_id)),
            Some(s) => match c.opening {
                ShareOpening::HashCommitted { k1_share, k2_share } => {
                    let per_member = commitments@[s].per_member@;
                    if !(1 <= c.member_index <= per_member.len()) {
                        Some(AuthError::UnknownMember(c.member_index))
                    } else if messages::share_commitment(
                        coeff_id,
                        c.member_index,
                        k1_share@,
                        k2_share@,
                    )@ == per_member[c.member_index - 1]@ && c.eval_share@ == affine(
                        k1_share@,
                        x,
                        k2_share@,
                    ) {
                        None
                    } else {
                        invalid
                    }
                },
                _ => invalid,
            },
        },
        ShareCorrectnessProfile::Pedersen { commitments } => match position(
            pedersen_ids(commitments@),
            coeff_id,
        ) {
            None => Some(AuthError::UnknownCommitment(coeff_id)),
            Some(s) => match c.opening {
                ShareOpening::Pedersen { eval_blind } => if pedersen::evaluation_opens(
                    commitments@[s].k1.logs(),
                    commitments@[s].k2.logs(),
                    c.member_index as int,
                    x,
                    c.eval_share@,
                    eval_blind@,
                ) {
                    None
                } else {
                    invalid
                },
                _ => invalid,
            },
        },
        ShareCorrectnessProfile::ExternalAvssTranscript => if c.opening is Absent {
            None
        } else {
            invalid
        },
    }
}

/// Whether checking the opening of the contribution takes the second Pedersen
/// generator.
pub open spec fn opening_needs_generator(
    profile: ShareCorrectnessProfile,
    coeff_id: u64,
    c: Contribution,
) -> bool {
    match profile {
        ShareCorrectnessProfile::Pedersen { commitments } => {
            &&& position(pedersen_ids(commitments@), coeff_id) is Some
            &&& c.opening is Pedersen
        },
        _ => false,
    }
}

/// Finds the first hash commitments with the given identifier.
fn find_hash(commitments: &Vec<HashShareCommitments>, coeff_id: u64) -> (r: Option<usize>)
    ensures
        match r {
            Some(s) => s < commitments@.len() && position(hash_ids(commitments@), coeff_id) == Some(
                s as int,
            ),
            None => position(hash_ids(commitments@), coeff_id) is None,
        },
{
    let ghost ids = hash_ids(commitments@);
    let mut i: usize = 0;
    while i < commitments.len()
        invariant
            i <= commitments@.len(),
            ids == hash_ids(commitments@),
            position(ids.take(i as int), coeff_id) is None,
        decreases commitments@.len() - i,
    {
        assert(ids.take(i + 1).drop_last() =~= ids.take(i as int));
        if commitments[i].coeff_id == coeff_id {
            proof {
                position_extends(ids, i + 1, coeff_id);
            }
            return Some(i);
        }
        i = i + 1;
    }
    assert(ids.take(i as int) =~= ids);
    None
}

/// Finds the first Pedersen commitments with the given identifier.
fn find_pedersen(commitments: &Vec<CoefficientCommitments>, coeff_id: u64) -> (r: Option<usize>)
    ensures
        match r {
            Some(s) => s < commitments@.len() && position(pedersen_ids(commitments@), coeff_id)
                == Some(s as int),
            None => position(pedersen_ids(commitments@), coeff_id) is None,
        },
{
    let ghost ids = pedersen_ids(commitments@);
    let mut i: usize = 0;
    while i < commitments.len()
        invariant
            i <= commitments@.len(),
            ids == pedersen_ids(commitments@),
            position(ids.take(i as int), coeff_id) is None,
        decreases commitments@.len() - i,
    {
        assert(ids.take(i + 1).drop_last() =~= ids.take(i as int));
        if commitments[i].coeff_id == coeff_id {
            proof {
                position_extends(ids, i + 1, coeff_id);
            }
            return Some(i);
        }
        i = i + 1;
    }
    assert(ids.take(i as int) =~= ids);
    None
}

/// A position in the front part is the position.
proof fn position_extends(ids: Seq<u64>, k: int, id: u64)
    requires
        0 <= k <= ids.len(),
        position(ids.take(k), id) is Some,
    ensures
        position(ids, id) == position(ids.take(k), id),
    decreases ids.len(),
{
    if k < ids.len() {
        assert(ids.drop_last().take(k) =~= ids.take(k));
        position_extends(ids.drop_last(), k, id);
    } else {
        assert(ids.take(k) =~= ids);
    }
}

/// Binding: revealed shares must match the setup commitment, and the affine
/// evaluation used for reconstruction must match the revealed shares. A stolen
/// signing key without the shares fails the first check; a tampered evaluation
/// fails the second.
pub fn shares_match(
    recomputed: &[u8; 32],
    committed: &[u8; 32],
    k1_share: Fr,
    k2_share: Fr,
    x: Fr,
    eval_share: Fr,
) -> (r: bool)
    ensures
        r == (recomputed@ == committed@ && eval_share@ == affine(k1_share@, x@, k2_share@)),
{
    bytes::equal(recomputed.as_slice(), committed.as_slice()) && eval_share == combine(
        k1_share,
        x,
        k2_share,
    )
}

/// Checks the opening of a contribution against the profile.
pub fn verify_share_opening(
    profile: &ShareCorrectnessProfile,
    coeff_id: u64,
    x: Fr,
    contribution: &Contribution,
) -> (r: Result<(), AuthError>)
    requires
        opening_needs_generator(*profile, coeff_id, *contribution) ==> pedersen::h_exists(),
    ensures
        match opening_error(*profile, coeff_id, x@, *contribution) {
            Some(e) => r == Err::<(), AuthError>(e),
            None => r is Ok,
        },
{
    let member_index: u32 = contribution.member_index;
    match profile {
        ShareCorrectnessProfile::HashCommitted { commitments, .. } => {
            let s: usize = match find_hash(commitments, coeff_id) {
                Some(s) => s,
                None => {
                    return Err(AuthError::UnknownCommitment(coeff_id));
                },
            };
            match &contribution.opening {
                ShareOpening::HashCommitted { k1_share, k2_share } => {
                    let per_member = &commitments[s].per_member;
                    if member_index == 0 || member_index as usize > per_member.len() {
                        return Err(AuthError::UnknownMember(member_index));
                    }
                    let recomputed = messages::commit_share(
                        coeff_id,
                        member_index,
                        *k1_share,
                        *k2_share,
                    );
                    let slot: usize = member_index as usize - 1;
                    if shares_match(
                        &recomputed,
                        &per_member[slot],
                        *k1_share,
                        *k2_share,
                        x,
                        contribution.eval_share,
                    ) {
                        Ok(())
                    } else {
                        Err(AuthError::InvalidShareOpening { member_index })
                    }
                },
                _ => Err(AuthError::InvalidShareOpening { member_index }),
            }
        },
        ShareCorrectnessProfile::Pedersen { commitments } => {
            let s: usize = match find_pedersen(commitments, coeff_id) {
                Some(s) => s,
                None => {
                    return Err(AuthError::UnknownCommitment(coeff_id));
                },
            };
            match &contribution.opening {
                ShareOpening::Pedersen { eval_blind } => {
                    if pedersen::verify_evaluation_share(
                        &commitments[s].k1,
                        &commitments[s].k2,
                        member_index,
                        x,
                        contribution.eval_share,
                        *eval_blind,
                    ) {
                        Ok(())
                    } else {
                        Err(AuthError::InvalidShareOpening { member_index })
                    }
                },
                _ => Err(AuthError::InvalidShareOpening { member_index }),
            }
        },
        ShareCorrectnessProfile::ExternalAvssTranscript => {
            match &contribution.opening {
                ShareOpening::Absent => Ok(()),
                _ => Err(AuthError::InvalidShareOpening { member_index }),
            }
        },
    }
}

/// The first member that contributes a second time, if any.
pub open spec fn first_duplicate(contributions: Seq<Contribution>) -> Option<u32>
    decreases contributions.len(),
{
    if contributions.len() == 0 {
        None
    } else {
        let init = contributions.drop_last();
        let index = contributions.last().member_index;
        match first_duplicate(init) {
            Some(i) => Some(i),
            None => if member_indices(init).contains(index) {
                Some(index)
            } else {
                None
            },
        }
    }
}

/// The members of some contributions.
pub open spec fn member_indices(contributions: Seq<Contribution>) -> Seq<u32> {
    Seq::new(contributions.len(), |i: int| contributions[i].member_index)
}

/// What is wrong with the member and the envelope of a contribution, for the given
/// canonical message: the member is not registered, or the envelope is another
/// one.
pub open spec fn envelope_error(
    policy: CustodyPolicy,
    c: Contribution,
    coeff_id: u64,
    m_par_n: int,
) -> Option<AuthError> {
    if !(1 <= c.member_index <= policy.member_keys@.len()) {
        Some(AuthError::UnknownMember(c.member_index))
    } else if c.envelope@ != messages::envelope(
        policy.address@,
        policy.policy_id,
        coeff_id,
        c.member_index,
        m_par_n,
        c.eval_share@,
        c.opening,
    ) {
        Some(AuthError::EnvelopeMismatch { member_index: c.member_index })
    } else {
        None
    }
}

/// What is wrong with a contribution to an operation, if anything: its member is
/// not registered, its envelope is not that of the operation, its signature does
/// not verify, or its opening is refused.
pub open spec fn contribution_error(
    policy: CustodyPolicy,
    c: Contribution,
    coeff_id: u64,
    op_type: Seq<char>,
    nonce: u64,
    message: Seq<u8>,
) -> Option<AuthError> {
    let misfit = envelope_error(policy, c, coeff_id, policy.bound(op_type, nonce, message));
    if misfit is Some {
        misfit
    } else if !policy.member_keys@[c.member_index - 1].accepts(c.envelope@, c.signature) {
        Some(AuthError::InvalidSignature { member_index: c.member_index })
    } else {
        opening_error(
            policy.share_profile,
            coeff_id,
            policy.scalar(coeff_id, op_type, nonce, message),
            c,
        )
    }
}

/// What is wrong with the first contribution that has something wrong, if any.
pub open spec fn first_error(
    policy: CustodyPolicy,
    contributions: Seq<Contribution>,
    coeff_id: u64,
    op_type: Seq<char>,
    nonce: u64,
    message: Seq<u8>,
) -> Option<AuthError>
    decreases contributions.len(),
{
    if contributions.len() == 0 {
        None
    } else {
        match first_error(policy, contributions.drop_last(), coeff_id, op_type, nonce, message) {
            Some(e) => Some(e),
            None => contribution_error(
                policy,
                contributions.last(),
                coeff_id,
                op_type,
                nonce,
                message,
            ),
        }
    }
}

/// The evaluation shares in some contributions.
pub open spec fn evaluation_shares(contributions: Seq<Contribution>) -> Seq<Share> {
    Seq::new(
        contributions.len(),
        |i: int| Share { index: contributions[i].member_index, value: contributions[i].eval_share },
    )
}

/// What is wrong with contributions that were all accepted, if anything: they are
/// too few, or too many of their evaluation shares are malformed.
pub open spec fn quorum_error(contributions: Seq<Contribution>, threshold: u32) -> Option<
    AuthError,
> {
    if contributions.len() < threshold {
        Some(
            AuthError::BelowThreshold { have: contributions.len() as usize, need: threshold },
        )
    } else if forall|p: Seq<int>| !#[trigger] robust::close(
        evaluation_shares(contributions),
        threshold as int,
        p,
    ) {
        Some(
            AuthError::MalformedShares {
                submitted: contributions.len() as usize,
                threshold,
                max_correctable: shamir::max_errors(
                    contributions.len() as int,
                    threshold as int,
                ) as usize,
            },
        )
    } else {
        None
    }
}

/// Why the operation is refused, if it is: the first of the checks that fails, in
/// their order.
pub open spec fn refusal(
    policy: CustodyPolicy,
    contributions: Seq<Contribution>,
    coeff_id: u64,
    op_type: Seq<char>,
    nonce: u64,
    message: Seq<u8>,
) -> Option<AuthError> {
    let failed = first_error(policy, contributions, coeff_id, op_type, nonce, message);
    if policy.consumed_coeffids@.contains(coeff_id) {
        Some(AuthError::CoeffIdConsumed(coeff_id))
    } else if first_duplicate(contributions) is Some {
        Some(AuthError::DuplicateMember(first_duplicate(contributions)->0))
    } else if failed is Some {
        failed
    } else {
        quorum_error(contributions, policy.threshold)
    }
}

impl AuthorizationReceipt {
    /// The receipt of an operation whose evaluation shares lie on `p`, but for so
    /// few that they can be told apart.
    pub open spec fn attests(
        &self,
        contributions: Seq<Contribution>,
        threshold: u32,
        coeff_id: u64,
        message_hash: [u8; 32],
        p: Seq<int>,
    ) -> bool {
        &&& robust::close(evaluation_shares(contributions), threshold as int, p)
        &&& self.sigma@ == p[0]
        &&& self.coeff_id == coeff_id
        &&& self.message_hash == message_hash
        &&& self.member_bitmap@ == shamir::indices(
            robust::agreeing(evaluation_shares(contributions), p),
        )
    }
}

/// The policy after the operation: the coefficient identifier is consumed.
pub open spec fn consumes(before: CustodyPolicy, after: CustodyPolicy, coeff_id: u64) -> bool {
    &&& after.address == before.address
    &&& after.policy_id == before.policy_id
    &&& after.threshold == before.threshold
    &&& after.member_keys == before.member_keys
    &&& after.share_profile == before.share_profile
    &&& after.consumed_coeffids@ == before.consumed_coeffids@.push(coeff_id)
}

/// What authorization answers: the refusal, with the policy unchanged, or a
/// receipt, with the coefficient identifier consumed.
pub open spec fn is_outcome(
    result: Result<AuthorizationReceipt, AuthError>,
    before: CustodyPolicy,
    after: CustodyPolicy,
    contributions: Seq<Contribution>,
    coeff_id: u64,
    op_type: Seq<char>,
    nonce: u64,
    message: Seq<u8>,
) -> bool {
    match refusal(before, contributions, coeff_id, op_type, nonce, message) {
        Some(e) => result == Err::<AuthorizationReceipt, AuthError>(e) && after == before,
        None => is_granted(
            result,
            before,
            after,
            contributions,
            coeff_id,
            backend::sha256(message),
        ),
    }
}

/// There is a receipt, and the coefficient identifier is consumed.
pub open spec fn is_granted(
    result: Result<AuthorizationReceipt, AuthError>,
    before: CustodyPolicy,
    after: CustodyPolicy,
    contributions: Seq<Contribution>,
    coeff_id: u64,
    message_hash: [u8; 32],
) -> bool {
    &&& result is Ok
    &&& exists|p: Seq<int>| #[trigger]
        result->Ok_0.attests(contributions, before.threshold, coeff_id, message_hash, p)
    &&& consumes(before, after, coeff_id)
}

/// Whether an identifier is in the list.
fn contains(ids: &Vec<u64>, id: u64) -> (r: bool)
    ensures
        r == ids@.contains(id),
{
    let mut i: usize = 0;
    while i < ids.len()
        invariant
            i <= ids@.len(),
            forall|j: int| 0 <= j < i ==> #[trigger] ids@[j] != id,
        decreases ids@.len() - i,
    {
        if ids[i] == id {
            assert(ids@[i as int] == id);
            return true;
        }
        i = i + 1;
    }
    false
}

/// Whether a member is among the first `count` contributions.
fn contributed(contributions: &[Contribution], count: usize, index: u32) -> (r: bool)
    requires
        count <= contributions@.len(),
    ensures
        r == member_indices(contributions@.take(count as int)).contains(index),
{
    let ghost seen = member_indices(contributions@.take(count as int));
    let mut i: usize = 0;
    while i < count
        invariant
            i <= count,
            count <= contributions@.len(),
            seen == member_indices(contributions@.take(count as int)),
            forall|j: int| 0 <= j < i ==> #[trigger] seen[j] != index,
        decreases count - i,
    {
        if contributions[i].member_index == index {
            assert(seen[i as int] == index);
            return true;
        }
        i = i + 1;
    }
    false
}

/// Finds the first member that contributes a second time.
fn find_duplicate(contributions: &[Contribution]) -> (r: Option<u32>)
    ensures
        r == first_duplicate(contributions@),
        r is None ==> shamir::distinct_indices(evaluation_shares(contributions@)),
{
    let ghost all = contributions@;
    let mut i: usize = 0;
    while i < contributions.len()
        invariant
            i <= contributions@.len(),
            all == contributions@,
            first_duplicate(all.take(i as int)) is None,
            forall|j: int, k: int|
                #![trigger all[j], all[k]]
                0 <= j < k < i ==> all[j].member_index != all[k].member_index,
        decreases contributions@.len() - i,
    {
        let index: u32 = contributions[i].member_index;
        proof {
            assert(all.take(i + 1).drop_last() =~= all.take(i as int));
            assert(all.take(i + 1).last() == all[i as int]);
        }
        if contributed(contributions, i, index) {
            proof {
                duplicate_extends(all, i + 1);
            }
            return Some(index);
        }
        proof {
            let seen = member_indices(all.take(i as int));
            assert forall|j: int| 0 <= j < i implies #[trigger] all[j].member_index != index by {
                assert(seen[j] == all[j].member_index);
                assert(!seen.contains(index));
            }
        }
        i = i + 1;
    }
    assert(all.take(i as int) =~= all);
    None
}

/// A duplicate in the front part is the first one.
proof fn duplicate_extends(contributions: Seq<Contribution>, k: int)
    requires
        0 <= k <= contributions.len(),
        first_duplicate(contributions.take(k)) is Some,
    ensures
        first_duplicate(contributions) == first_duplicate(contributions.take(k)),
    decreases contributions.len(),
{
    if k < contributions.len() {
        assert(contributions.drop_last().take(k) =~= contributions.take(k));
        duplicate_extends(contributions.drop_last(), k);
    } else {
        assert(contributions.take(k) =~= contributions);
    }
}

/// An error in the front part is the first one.
proof fn error_extends(
    policy: CustodyPolicy,
    contributions: Seq<Contribution>,
    k: int,
    coeff_id: u64,
    op_type: Seq<char>,
    nonce: u64,
    message: Seq<u8>,
)
    requires
        0 <= k <= contributions.len(),
        first_error(policy, contributions.take(k), coeff_id, op_type, nonce, message) is Some,
    ensures
        first_error(policy, contributions, coeff_id, op_type, nonce, message) == first_error(
            policy,
            contributions.take(k),
            coeff_id,
            op_type,
            nonce,
            message,
        ),
    decreases contributions.len(),
{
    if k < contributions.len() {
        assert(contributions.drop_last().take(k) =~= contributions.take(k));
        error_extends(policy, contributions.drop_last(), k, coeff_id, op_type, nonce, message);
    } else {
        assert(contributions.take(k) =~= contributions);
    }
}

/// Checks that a contribution comes from a registered member and has the envelope
/// of the operation with the given canonical message.
pub fn check_envelope(
    policy: &CustodyPolicy,
    c: &Contribution,
    coeff_id: u64,
    m_par_n: Fr,
) -> (r: Result<(), AuthError>)
    ensures
        match envelope_error(*policy, *c, coeff_id, m_par_n@) {
            Some(e) => r == Err::<(), AuthError>(e),
            None => r is Ok,
        },
{
    let member_index: u32 = c.member_index;
    if member_index == 0 || member_index as usize > policy.member_keys.len() {
        return Err(AuthError::UnknownMember(member_index));
    }
    let expected = messages::build_envelope(
        &policy.address,
        policy.policy_id,
        coeff_id,
        member_index,
        m_par_n,
        c.eval_share,
        &c.opening,
    );
    if !bytes::equal(c.envelope.as_slice(), expected.as_slice()) {
        return Err(AuthError::EnvelopeMismatch { member_index });
    }
    Ok(())
}

/// Checks one contribution to an operation: registration, envelope, signature
/// and opening.
fn verify_contribution(
    policy: &CustodyPolicy,
    c: &Contribution,
    coeff_id: u64,
    m_par_n: Fr,
    x: Fr,
    Ghost(op_type): Ghost<Seq<char>>,
    Ghost(nonce): Ghost<u64>,
    Ghost(message): Ghost<Seq<u8>>,
) -> (r: Result<(), AuthError>)
    requires
        opening_needs_generator(policy.share_profile, coeff_id, *c) ==> pedersen::h_exists(),
        m_par_n@ == policy.bound(op_type, nonce, message),
        x@ == policy.scalar(coeff_id, op_type, nonce, message),
    ensures
        match contribution_error(*policy, *c, coeff_id, op_type, nonce, message) {
            Some(e) => r == Err::<(), AuthError>(e),
            None => r is Ok,
        },
{
    match check_envelope(policy, c, coeff_id, m_par_n) {
        Ok(_) => {},
        Err(e) => {
            return Err(e);
        },
    }
    let member_index: u32 = c.member_index;
    if !policy.member_keys[member_index as usize - 1].verify(c.envelope.as_slice(), &c.signature) {
        return Err(AuthError::InvalidSignature { member_index });
    }
    verify_share_opening(&policy.share_profile, coeff_id, x, c)
}

/// The evaluation shares in some contributions.
fn collect_shares(contributions: &[Contribution]) -> (r: Vec<Share>)
    ensures
        r@ == evaluation_shares(contributions@),
{
    let mut shares: Vec<Share> = Vec::with_capacity(contributions.len());
    let mut i: usize = 0;
    while i < contributions.len()
        invariant
            i <= contributions@.len(),
            shares@.len() == i,
            forall|j: int|
                0 <= j < i ==> #[trigger] shares@[j] == (Share {
                    index: contributions@[j].member_index,
                    value: contributions@[j].eval_share,
                }),
        decreases contributions@.len() - i,
    {
        shares.push(
            Share { index: contributions[i].member_index, value: contributions[i].eval_share },
        );
        i = i + 1;
    }
    assert(shares@ =~= evaluation_shares(contributions@));
    shares
}

/// Answers an operation whose contributions were all accepted: with enough of them
/// reconstructs the authorization value and consumes the coefficient identifier.
pub fn settle(
    policy: &mut CustodyPolicy,
    contributions: &[Contribution],
    coeff_id: u64,
    message_hash: [u8; 32],
) -> (r: Result<AuthorizationReceipt, AuthError>)
    requires
        shamir::distinct_indices(evaluation_shares(contributions@)),
    ensures
        match quorum_error(contributions@, old(policy).threshold) {
            Some(e) => r == Err::<AuthorizationReceipt, AuthError>(e) && *final(policy) == *old(
                policy,
            ),
            None => is_granted(
                r,
                *old(policy),
                *final(policy),
                contributions@,
                coeff_id,
                message_hash,
            ),
        },
{
    // G1: quorum check
    if contributions.len() < policy.threshold as usize {
        return Err(
            AuthError::BelowThreshold { have: contributions.len(), need: policy.threshold },
        );
    }
    // G2: robustly decode the degree-(threshold-1) evaluation polynomial.
    let shares = collect_shares(contributions);
    let decoded = match shamir::reconstruct_robust(shares.as_slice(), policy.threshold) {
        Some(decoded) => decoded,
        None => {
            return Err(
                AuthError::MalformedShares {
                    submitted: contributions.len(),
                    threshold: policy.threshold,
                    max_correctable: (contributions.len() - policy.threshold as usize) / 2,
                },
            );
        },
    };
    let ghost p = choose|p: Seq<int>| #[trigger]
        robust::close(shares@, policy.threshold as int, p) && decoded.reads(shares@, p);
    assert(robust::close(evaluation_shares(contributions@), policy.threshold as int, p));
    // Consume the coefficient ID
    policy.consumed_coeffids.push(coeff_id);
    let receipt = AuthorizationReceipt {
        sigma: decoded.secret,
        coeff_id,
        message_hash,
        member_bitmap: decoded.accepted_indices,
    };
    let result: Result<AuthorizationReceipt, AuthError> = Ok(receipt);
    assert(result->Ok_0.attests(contributions@, old(policy).threshold, coeff_id, message_hash, p));
    result
}

/// Whether authorization takes the second Pedersen generator: where the identifier
/// is unused and no member contributes twice, and an opening is checked with it.
pub open spec fn needs_generator(
    policy: CustodyPolicy,
    contributions: Seq<Contribution>,
    coeff_id: u64,
) -> bool {
    &&& !policy.consumed_coeffids@.contains(coeff_id)
    &&& first_duplicate(contributions) is None
    &&& exists|i: int|
        #![trigger contributions[i]]
        0 <= i < contributions.len() && opening_needs_generator(
            policy.share_profile,
            coeff_id,
            contributions[i],
        )
}

/// Verifies all contributions and reconstructs the authorization value.
/// This is the enforcement layer's validation logic.
pub fn authorize(
    policy: &mut CustodyPolicy,
    contributions: &[Contribution],
    coeff_id: u64,
    op_type: &str,
    nonce: u64,
    message: &[u8],
) -> (r: Result<AuthorizationReceipt, AuthError>)
    requires
        needs_generator(*old(policy), contributions@, coeff_id) ==> pedersen::h_exists(),
    ensures
        is_outcome(
            r,
            *old(policy),
            *final(policy),
            contributions@,
            coeff_id,
            op_type@,
            nonce,
            message@,
        ),
{
    // G3: coefficient ID not consumed
    if contains(&policy.consumed_coeffids, coeff_id) {
        return Err(AuthError::CoeffIdConsumed(coeff_id));
    }
    // Check for duplicate members
    match find_duplicate(contributions) {
        Some(index) => {
            return Err(AuthError::DuplicateMember(index));
        },
        None => {},
    }
    // G1: verify signatures and envelope binding
    let m_par_n = messages::bind_message(
        &policy.address,
        policy.policy_id,
        op_type,
        nonce,
        message,
    );
    let x = messages::derive_x(m_par_n, coeff_id);
    let ghost all = contributions@;
    let mut i: usize = 0;
    while i < contributions.len()
        invariant
            i <= contributions@.len(),
            all == contributions@,
            *policy == *old(policy),
            needs_generator(*policy, all, coeff_id) ==> pedersen::h_exists(),
            m_par_n@ == policy.bound(op_type@, nonce, message@),
            x@ == policy.scalar(coeff_id, op_type@, nonce, message@),
            !policy.consumed_coeffids@.contains(coeff_id),
            first_duplicate(all) is None,
            first_error(*policy, all.take(i as int), coeff_id, op_type@, nonce, message@) is None,
        decreases contributions@.len() - i,
    {
        proof {
            assert(all.take(i + 1).drop_last() =~= all.take(i as int));
            assert(all.take(i + 1).last() == all[i as int]);
        }
        match verify_contribution(
            policy,
            &contributions[i],
            coeff_id,
            m_par_n,
            x,
            Ghost(op_type@),
            Ghost(nonce),
            Ghost(message@),
        ) {
            Ok(_) => {},
            Err(e) => {
                proof {
                    error_extends(*policy, all, i + 1, coeff_id, op_type@, nonce, message@);
                }
                return Err(e);
            },
        }
        i = i + 1;
    }
    assert(all.take(i as int) =~= all);
    settle(policy, contributions, coeff_id, backend::sha256_digest(message))
}

/// Whether an operation that is not refused before its contributions are checked
/// has one whose check takes the second Pedersen generator.
fn asks_generator(policy: &CustodyPolicy, contributions: &[Contribution], coeff_id: u64) -> (r:
    bool)
    ensures
        r == needs_generator(*policy, contributions@, coeff_id),
{
    let found = match &policy.share_profile {
        ShareCorrectnessProfile::Pedersen { commitments } => find_pedersen(
            commitments,
            coeff_id,
        ).is_some(),
        _ => false,
    };
    if !found || contains(&policy.consumed_coeffids, coeff_id) || find_duplicate(
        contributions,
    ).is_some() {
        return false;
    }
    let mut i: usize = 0;
    while i < contributions.len()
        invariant
            i <= contributions@.len(),
            forall|c: Contribution| #[trigger]
                opening_needs_generator(policy.share_profile, coeff_id, c) == (
                c.opening is Pedersen),
            !policy.consumed_coeffids@.contains(coeff_id),
            first_duplicate(contributions@) is None,
            forall|j: int| 0 <= j < i ==> !((#[trigger] contributions@[j]).opening is Pedersen),
        decreases contributions@.len() - i,
    {
        match &contributions[i].opening {
            ShareOpening::Pedersen { .. } => {
                assert(opening_needs_generator(
                    policy.share_profile,
                    coeff_id,
                    contributions@[i as int],
                ));
                return true;
            },
            _ => {},
        }
        i = i + 1;
    }
    false
}

/// Authorizes unless an opening needs the second generator of the Pedersen
/// commitments and there is none; then the policy stays as it is.
pub fn try_authorize(
    policy: &mut CustodyPolicy,
    contributions: &[Contribution],
    coeff_id: u64,
    op_type: &str,
    nonce: u64,
    message: &[u8],
) -> (r: Option<Result<AuthorizationReceipt, AuthError>>)
    ensures
        r is None <==> needs_generator(*old(policy), contributions@, coeff_id)
            && !pedersen::h_exists(),
        r is None ==> *final(policy) == *old(policy),
        r matches Some(result) ==> is_outcome(
            result,
            *old(policy),
            *final(policy),
            contributions@,
            coeff_id,
            op_type@,
            nonce,
            message@,
        ),
{
    if !asks_generator(policy, contributions, coeff_id) || pedersen::has_generator() {
        Some(authorize(policy, contributions, coeff_id, op_type, nonce, message))
    } else {
        None
    }
}

// ---------------------------------------------------------------------------
// Helpers
// ---------------------------------------------------------------------------

/// A fresh member key: a signing key and the verifying key that belongs to it.
pub fn generate_member_key() -> (r: MemberKey)
    ensures
        r.verifying_key == r.signing_key.public(),
{
    let signing_key = SigningKey::generate();
    let verifying_key = signing_key.verifying_key();
    MemberKey { signing_key, verifying_key }
}

} // verus!

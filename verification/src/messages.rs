//! The byte strings that are hashed and signed, and what they determine.
use vstd::prelude::*;

use crate::backend;
use crate::bytes;
use crate::field::{self, Fr};
use crate::prime;
use crate::protocol::{HashShareCommitments, ShareOpening};

verus! {

// ---------------------------------------------------------------------------
// Layouts
// ---------------------------------------------------------------------------

/// The bytes that the canonical message is hashed from: the account address, the
/// policy, the operation type, the nonce and the digest of the message.
pub open spec fn bound_data(
    address: Seq<u8>,
    policy_id: u64,
    op_type: Seq<char>,
    nonce: u64,
    msg: Seq<u8>,
) -> Seq<u8> {
    address + bytes::be_bytes(policy_id as int, 8) + bytes::text(op_type) + bytes::be_bytes(
        nonce as int,
        8,
    ) + backend::sha256(msg)@
}

/// The canonical message.
pub open spec fn bound_message(
    address: Seq<u8>,
    policy_id: u64,
    op_type: Seq<char>,
    nonce: u64,
    msg: Seq<u8>,
) -> int {
    field::hash_residue(
        bytes::text("custody-op"@),
        bound_data(address, policy_id, op_type, nonce, msg),
    )
}

/// The bytes that the affine scalar is hashed from: the canonical message and the
/// coefficient identifier.
pub open spec fn affine_data(m_par_n: int, coeff_id: u64) -> Seq<u8> {
    field::residue_bytes(m_par_n) + bytes::be_bytes(coeff_id as int, 8)
}

/// The common affine scalar.
pub open spec fn affine_x(m_par_n: int, coeff_id: u64) -> int {
    field::hash_residue(bytes::text("custody-affine-x"@), affine_data(m_par_n, coeff_id))
}

impl ShareOpening {
    /// The opening in an envelope: a tag, and what is revealed.
    pub open spec fn layout(&self) -> Seq<u8> {
        match self {
            ShareOpening::HashCommitted { k1_share, k2_share } => seq![2u8] + field::residue_bytes(
                k1_share@,
            ) + field::residue_bytes(k2_share@),
            ShareOpening::Pedersen { eval_blind } => seq![1u8] + field::residue_bytes(eval_blind@),
            ShareOpening::Absent => seq![0u8],
        }
    }

    /// The bytes of the opening in an envelope.
    pub(crate) fn envelope_bytes(&self) -> (r: Vec<u8>)
        ensures
            r@ == self.layout(),
    {
        let mut out: Vec<u8> = Vec::new();
        match self {
            ShareOpening::HashCommitted { k1_share, k2_share } => {
                out.push(2);
                bytes::append_bytes(&mut out, field::field_to_bytes(k1_share).as_slice());
                bytes::append_bytes(&mut out, field::field_to_bytes(k2_share).as_slice());
            },
            ShareOpening::Pedersen { eval_blind } => {
                out.push(1);
                bytes::append_bytes(&mut out, field::field_to_bytes(eval_blind).as_slice());
            },
            ShareOpening::Absent => {
                out.push(0);
            },
        }
        assert(out@ =~= self.layout());
        out
    }
}

/// The envelope that a member signs.
pub open spec fn envelope(
    address: Seq<u8>,
    policy_id: u64,
    coeff_id: u64,
    member_index: u32,
    m_par_n: int,
    eval_share: int,
    opening: ShareOpening,
) -> Seq<u8> {
    bytes::text("custody-share"@) + address + bytes::be_bytes(policy_id as int, 8)
        + bytes::be_bytes(coeff_id as int, 8) + bytes::be_bytes(member_index as int, 4)
        + field::residue_bytes(m_par_n) + field::residue_bytes(eval_share) + opening.layout()
}

/// The bytes that the commitment to a member's slot shares is hashed from.
pub open spec fn commitment_data(coeff_id: u64, member_index: u32, k1: int, k2: int) -> Seq<u8> {
    bytes::text("custody-share-commit"@) + bytes::be_bytes(coeff_id as int, 8) + bytes::be_bytes(
        member_index as int,
        4,
    ) + field::residue_bytes(k1) + field::residue_bytes(k2)
}

/// The commitment to a member's slot shares.
pub open spec fn share_commitment(coeff_id: u64, member_index: u32, k1: int, k2: int) -> [u8; 32] {
    backend::sha256(commitment_data(coeff_id, member_index, k1, k2))
}

/// The commitments of one slot, one after the other.
pub open spec fn member_data(per_member: Seq<[u8; 32]>) -> Seq<u8>
    decreases per_member.len(),
{
    if per_member.len() == 0 {
        seq![]
    } else {
        member_data(per_member.drop_last()) + per_member.last()@
    }
}

/// The slots, each with its coefficient identifier and its commitments.
pub open spec fn slots_data(commitments: Seq<HashShareCommitments>) -> Seq<u8>
    decreases commitments.len(),
{
    if commitments.len() == 0 {
        seq![]
    } else {
        slots_data(commitments.drop_last()) + bytes::be_bytes(
            commitments.last().coeff_id as int,
            8,
        ) + member_data(commitments.last().per_member@)
    }
}

/// The binding root over all commitments.
pub open spec fn setuproot_of(commitments: Seq<HashShareCommitments>) -> [u8; 32] {
    backend::sha256(bytes::text("custody-setuproot"@) + slots_data(commitments))
}

// ---------------------------------------------------------------------------
// Writers
// ---------------------------------------------------------------------------

/// Derives the canonical message binding.
pub(crate) fn bind_message(
    address: &[u8; 20],
    policy_id: u64,
    op_type: &str,
    nonce: u64,
    msg: &[u8],
) -> (r: Fr)
    ensures
        r@ == bound_message(address@, policy_id, op_type@, nonce, msg@),
{
    let msg_hash = backend::sha256_digest(msg);
    let mut data: Vec<u8> = Vec::new();
    bytes::append_bytes(&mut data, address.as_slice());
    bytes::append_bytes(&mut data, bytes::be_bytes_of(policy_id, 8).as_slice());
    bytes::append_text(&mut data, op_type);
    bytes::append_bytes(&mut data, bytes::be_bytes_of(nonce, 8).as_slice());
    bytes::append_bytes(&mut data, msg_hash.as_slice());
    assert(data@ =~= bound_data(address@, policy_id, op_type@, nonce, msg@));
    field::hash_to_field("custody-op".as_bytes(), data.as_slice())
}

/// Derives the common affine scalar x.
pub(crate) fn derive_x(m_parallel_n: Fr, coeff_id: u64) -> (r: Fr)
    ensures
        r@ == affine_x(m_parallel_n@, coeff_id),
{
    let mut data: Vec<u8> = Vec::new();
    bytes::append_bytes(&mut data, field::field_to_bytes(&m_parallel_n).as_slice());
    bytes::append_bytes(&mut data, bytes::be_bytes_of(coeff_id, 8).as_slice());
    assert(data@ =~= affine_data(m_parallel_n@, coeff_id));
    field::hash_to_field("custody-affine-x".as_bytes(), data.as_slice())
}

/// Builds the contribution envelope bytes for signing.
pub fn build_envelope(
    address: &[u8; 20],
    policy_id: u64,
    coeff_id: u64,
    member_index: u32,
    m_parallel_n: Fr,
    eval_share: Fr,
    opening: &ShareOpening,
) -> (r: Vec<u8>)
    ensures
        r@ == envelope(
            address@,
            policy_id,
            coeff_id,
            member_index,
            m_parallel_n@,
            eval_share@,
            *opening,
        ),
{
    let mut out: Vec<u8> = Vec::new();
    bytes::append_text(&mut out, "custody-share");
    bytes::append_bytes(&mut out, address.as_slice());
    bytes::append_bytes(&mut out, bytes::be_bytes_of(policy_id, 8).as_slice());
    bytes::append_bytes(&mut out, bytes::be_bytes_of(coeff_id, 8).as_slice());
    bytes::append_bytes(&mut out, bytes::be_bytes_of(member_index as u64, 4).as_slice());
    bytes::append_bytes(&mut out, field::field_to_bytes(&m_parallel_n).as_slice());
    bytes::append_bytes(&mut out, field::field_to_bytes(&eval_share).as_slice());
    bytes::append_bytes(&mut out, opening.envelope_bytes().as_slice());
    assert(out@ =~= envelope(
        address@,
        policy_id,
        coeff_id,
        member_index,
        m_parallel_n@,
        eval_share@,
        *opening,
    ));
    out
}

/// Collision-resistant commitment to a member's slot shares. The shares are
/// uniform 256-bit field elements, so the commitment is hiding under hash
/// one-wayness and binding under collision resistance; both are PQ-clean.
pub(crate) fn commit_share(coeff_id: u64, member_index: u32, k1_share: Fr, k2_share: Fr) -> (r:
    [u8; 32])
    ensures
        r == share_commitment(coeff_id, member_index, k1_share@, k2_share@),
{
    let mut data: Vec<u8> = Vec::new();
    bytes::append_text(&mut data, "custody-share-commit");
    bytes::append_bytes(&mut data, bytes::be_bytes_of(coeff_id, 8).as_slice());
    bytes::append_bytes(&mut data, bytes::be_bytes_of(member_index as u64, 4).as_slice());
    bytes::append_bytes(&mut data, field::field_to_bytes(&k1_share).as_slice());
    bytes::append_bytes(&mut data, field::field_to_bytes(&k2_share).as_slice());
    assert(data@ =~= commitment_data(coeff_id, member_index, k1_share@, k2_share@));
    backend::sha256_digest(data.as_slice())
}

/// Compact binding root over all per-member slot commitments. A production
/// deployment stores only this root on chain and supplies Merkle paths at
/// operation time; here the commitment list is kept beside it.
pub(crate) fn compute_setuproot(commitments: &[HashShareCommitments]) -> (r: [u8; 32])
    ensures
        r == setuproot_of(commitments@),
{
    let mut data: Vec<u8> = Vec::new();
    bytes::append_text(&mut data, "custody-setuproot");
    let ghost head = data@;
    let mut i: usize = 0;
    assert(data@ =~= head + slots_data(commitments@.take(0)));
    while i < commitments.len()
        invariant
            i <= commitments@.len(),
            data@ == head + slots_data(commitments@.take(i as int)),
        decreases commitments@.len() - i,
    {
        let slot = &commitments[i];
        let ghost start = data@;
        bytes::append_bytes(&mut data, bytes::be_bytes_of(slot.coeff_id, 8).as_slice());
        let ghost id = bytes::be_bytes(slot.coeff_id as int, 8);
        let mut k: usize = 0;
        assert(data@ =~= start + id + member_data(slot.per_member@.take(0)));
        while k < slot.per_member.len()
            invariant
                k <= slot.per_member@.len(),
                data@ == start + id + member_data(slot.per_member@.take(k as int)),
            decreases slot.per_member@.len() - k,
        {
            let ghost before = data@;
            bytes::append_bytes(&mut data, slot.per_member[k].as_slice());
            proof {
                let next = slot.per_member@.take(k + 1);
                assert(next.drop_last() =~= slot.per_member@.take(k as int));
                assert(next.last() == slot.per_member@[k as int]);
                assert(data@ =~= start + id + member_data(next));
            }
            k = k + 1;
        }
        proof {
            assert(slot.per_member@.take(k as int) =~= slot.per_member@);
            let next = commitments@.take(i + 1);
            assert(next.drop_last() =~= commitments@.take(i as int));
            assert(next.last() == commitments@[i as int]);
            assert(data@ =~= head + slots_data(next));
        }
        i = i + 1;
    }
    assert(commitments@.take(i as int) =~= commitments@);
    backend::sha256_digest(data.as_slice())
}

// ---------------------------------------------------------------------------
// What the byte strings determine
// ---------------------------------------------------------------------------

/// The canonical message is a residue.
pub proof fn bound_message_range(
    address: Seq<u8>,
    policy_id: u64,
    op_type: Seq<char>,
    nonce: u64,
    msg: Seq<u8>,
)
    ensures
        0 <= bound_message(address, policy_id, op_type, nonce, msg) < prime::modulus(),
{
    let data = bound_data(address, policy_id, op_type, nonce, msg);
    let input = field::domain_separated(bytes::text("custody-op"@), data);
    crate::arith::mod_idem(bytes::be_value(backend::sha256(input)@), prime::modulus());
}

/// The two openings reveal the same.
pub open spec fn same_opening(a: ShareOpening, b: ShareOpening) -> bool {
    match (a, b) {
        (
            ShareOpening::HashCommitted { k1_share: u, k2_share: v },
            ShareOpening::HashCommitted { k1_share: x, k2_share: y },
        ) => u@ == x@ && v@ == y@,
        (
            ShareOpening::Pedersen { eval_blind: u },
            ShareOpening::Pedersen { eval_blind: x },
        ) => u@ == x@,
        (ShareOpening::Absent, ShareOpening::Absent) => true,
        _ => false,
    }
}

/// The first byte of an opening tells its variant.
proof fn tag_leads(a: ShareOpening)
    ensures
        a.layout()[0] == (match a {
            ShareOpening::HashCommitted { .. } => 2u8,
            ShareOpening::Pedersen { .. } => 1u8,
            ShareOpening::Absent => 0u8,
        }),
{
    match a {
        ShareOpening::HashCommitted { k1_share, k2_share } => {
            let (p, q) = (field::residue_bytes(k1_share@), field::residue_bytes(k2_share@));
            assert((seq![2u8] + p + q)[0] == (seq![2u8] + p)[0]);
        },
        ShareOpening::Pedersen { eval_blind } => {},
        ShareOpening::Absent => {},
    }
}

/// The bytes of an opening determine what it reveals.
pub proof fn opening_determined(a: ShareOpening, b: ShareOpening)
    requires
        a.layout() == b.layout(),
    ensures
        same_opening(a, b),
{
    tag_leads(a);
    tag_leads(b);
    match (a, b) {
        (
            ShareOpening::HashCommitted { k1_share: u, k2_share: v },
            ShareOpening::HashCommitted { k1_share: x, k2_share: y },
        ) => {
            field::residue_range(u);
            field::residue_range(v);
            field::residue_range(x);
            field::residue_range(y);
            bytes::be_bytes_len(u@, 32);
            bytes::be_bytes_len(x@, 32);
            let (p, q) = (field::residue_bytes(u@), field::residue_bytes(x@));
            let (r, s) = (field::residue_bytes(v@), field::residue_bytes(y@));
            bytes::split(seq![2u8] + p, r, seq![2u8] + q, s);
            bytes::split(seq![2u8], p, seq![2u8], q);
            field::residue_bytes_determined(u@, x@);
            field::residue_bytes_determined(v@, y@);
        },
        (
            ShareOpening::Pedersen { eval_blind: u },
            ShareOpening::Pedersen { eval_blind: x },
        ) => {
            field::residue_range(u);
            field::residue_range(x);
            bytes::split(
                seq![1u8],
                field::residue_bytes(u@),
                seq![1u8],
                field::residue_bytes(x@),
            );
            field::residue_bytes_determined(u@, x@);
        },
        _ => {},
    }
}

/// Message binding: an envelope determines the account, the policy, the
/// coefficient identifier, the member, the canonical message, the evaluation
/// share and the opening. A signed contribution cannot be retargeted.
pub proof fn envelope_determined(
    address: Seq<u8>,
    policy_id: u64,
    coeff_id: u64,
    member_index: u32,
    m_par_n: int,
    eval_share: int,
    opening: ShareOpening,
    address2: Seq<u8>,
    policy_id2: u64,
    coeff_id2: u64,
    member_index2: u32,
    m_par_n2: int,
    eval_share2: int,
    opening2: ShareOpening,
)
    requires
        address.len() == 20,
        address2.len() == 20,
        0 <= m_par_n < prime::modulus(),
        0 <= m_par_n2 < prime::modulus(),
        0 <= eval_share < prime::modulus(),
        0 <= eval_share2 < prime::modulus(),
        envelope(address, policy_id, coeff_id, member_index, m_par_n, eval_share, opening)
            == envelope(
            address2,
            policy_id2,
            coeff_id2,
            member_index2,
            m_par_n2,
            eval_share2,
            opening2,
        ),
    ensures
        address == address2,
        policy_id == policy_id2,
        coeff_id == coeff_id2,
        member_index == member_index2,
        m_par_n == m_par_n2,
        eval_share == eval_share2,
        same_opening(opening, opening2),
{
    let tag = bytes::text("custody-share"@);
    let (p, p2) = (bytes::be_bytes(policy_id as int, 8), bytes::be_bytes(policy_id2 as int, 8));
    let (c, c2) = (bytes::be_bytes(coeff_id as int, 8), bytes::be_bytes(coeff_id2 as int, 8));
    let (i, i2) = (
        bytes::be_bytes(member_index as int, 4),
        bytes::be_bytes(member_index2 as int, 4),
    );
    let (m, m2) = (field::residue_bytes(m_par_n), field::residue_bytes(m_par_n2));
    let (e, e2) = (field::residue_bytes(eval_share), field::residue_bytes(eval_share2));
    bytes::be_bytes_len(policy_id as int, 8);
    bytes::be_bytes_len(policy_id2 as int, 8);
    bytes::be_bytes_len(coeff_id as int, 8);
    bytes::be_bytes_len(coeff_id2 as int, 8);
    bytes::be_bytes_len(member_index as int, 4);
    bytes::be_bytes_len(member_index2 as int, 4);
    bytes::be_bytes_len(m_par_n, 32);
    bytes::be_bytes_len(m_par_n2, 32);
    bytes::be_bytes_len(eval_share, 32);
    bytes::be_bytes_len(eval_share2, 32);
    bytes::split(
        tag + address + p + c + i + m + e,
        opening.layout(),
        tag + address2 + p2 + c2 + i2 + m2 + e2,
        opening2.layout(),
    );
    bytes::split(tag + address + p + c + i + m, e, tag + address2 + p2 + c2 + i2 + m2, e2);
    bytes::split(tag + address + p + c + i, m, tag + address2 + p2 + c2 + i2, m2);
    bytes::split(tag + address + p + c, i, tag + address2 + p2 + c2, i2);
    bytes::split(tag + address + p, c, tag + address2 + p2, c2);
    bytes::split(tag + address, p, tag + address2, p2);
    bytes::split(tag, address, tag, address2);
    bytes::words_determined();
    field::residue_bytes_determined(m_par_n, m_par_n2);
    field::residue_bytes_determined(eval_share, eval_share2);
    opening_determined(opening, opening2);
}

/// What the canonical message is hashed from determines the account, the policy,
/// the operation type, the nonce and the digest of the message.
pub proof fn bound_data_determined(
    address: Seq<u8>,
    policy_id: u64,
    op_type: Seq<char>,
    nonce: u64,
    msg: Seq<u8>,
    address2: Seq<u8>,
    policy_id2: u64,
    op_type2: Seq<char>,
    nonce2: u64,
    msg2: Seq<u8>,
)
    requires
        address.len() == 20,
        address2.len() == 20,
        bound_data(address, policy_id, op_type, nonce, msg) == bound_data(
            address2,
            policy_id2,
            op_type2,
            nonce2,
            msg2,
        ),
    ensures
        address == address2,
        policy_id == policy_id2,
        op_type == op_type2,
        nonce == nonce2,
        backend::sha256(msg)@ == backend::sha256(msg2)@,
{
    let (p, p2) = (bytes::be_bytes(policy_id as int, 8), bytes::be_bytes(policy_id2 as int, 8));
    let (n, n2) = (bytes::be_bytes(nonce as int, 8), bytes::be_bytes(nonce2 as int, 8));
    let (o, o2) = (bytes::text(op_type), bytes::text(op_type2));
    bytes::be_bytes_len(policy_id as int, 8);
    bytes::be_bytes_len(policy_id2 as int, 8);
    bytes::be_bytes_len(nonce as int, 8);
    bytes::be_bytes_len(nonce2 as int, 8);
    bytes::split(
        address + p + o + n,
        backend::sha256(msg)@,
        address2 + p2 + o2 + n2,
        backend::sha256(msg2)@,
    );
    bytes::split(address + p + o, n, address2 + p2 + o2, n2);
    bytes::split(address + p, o, address2 + p2, o2);
    bytes::split(address, p, address2, p2);
    bytes::words_determined();
    bytes::text_determined(op_type, op_type2);
}

/// What the affine scalar is hashed from determines the canonical message and
/// the coefficient identifier.
pub proof fn affine_data_determined(m_par_n: int, coeff_id: u64, m_par_n2: int, coeff_id2: u64)
    requires
        0 <= m_par_n < prime::modulus(),
        0 <= m_par_n2 < prime::modulus(),
        affine_data(m_par_n, coeff_id) == affine_data(m_par_n2, coeff_id2),
    ensures
        m_par_n == m_par_n2,
        coeff_id == coeff_id2,
{
    bytes::be_bytes_len(m_par_n, 32);
    bytes::be_bytes_len(m_par_n2, 32);
    bytes::split(
        field::residue_bytes(m_par_n),
        bytes::be_bytes(coeff_id as int, 8),
        field::residue_bytes(m_par_n2),
        bytes::be_bytes(coeff_id2 as int, 8),
    );
    bytes::words_determined();
    field::residue_bytes_determined(m_par_n, m_par_n2);
}

/// Share commitments are binding up to a collision of the hash: what one is
/// hashed from determines the coefficient identifier, the member and the shares.
pub proof fn commitment_data_determined(
    coeff_id: u64,
    member_index: u32,
    k1: int,
    k2: int,
    coeff_id2: u64,
    member_index2: u32,
    l1: int,
    l2: int,
)
    requires
        0 <= k1 < prime::modulus(),
        0 <= k2 < prime::modulus(),
        0 <= l1 < prime::modulus(),
        0 <= l2 < prime::modulus(),
        commitment_data(coeff_id, member_index, k1, k2) == commitment_data(
            coeff_id2,
            member_index2,
            l1,
            l2,
        ),
    ensures
        coeff_id == coeff_id2,
        member_index == member_index2,
        k1 == l1,
        k2 == l2,
{
    let tag = bytes::text("custody-share-commit"@);
    let (c, c2) = (bytes::be_bytes(coeff_id as int, 8), bytes::be_bytes(coeff_id2 as int, 8));
    let (i, i2) = (
        bytes::be_bytes(member_index as int, 4),
        bytes::be_bytes(member_index2 as int, 4),
    );
    let (a, a2) = (field::residue_bytes(k1), field::residue_bytes(l1));
    let (b, b2) = (field::residue_bytes(k2), field::residue_bytes(l2));
    bytes::be_bytes_len(coeff_id as int, 8);
    bytes::be_bytes_len(coeff_id2 as int, 8);
    bytes::be_bytes_len(member_index as int, 4);
    bytes::be_bytes_len(member_index2 as int, 4);
    bytes::be_bytes_len(k1, 32);
    bytes::be_bytes_len(l1, 32);
    bytes::split(tag + c + i + a, b, tag + c2 + i2 + a2, b2);
    bytes::split(tag + c + i, a, tag + c2 + i2, a2);
    bytes::split(tag + c, i, tag + c2, i2);
    bytes::split(tag, c, tag, c2);
    bytes::words_determined();
    field::residue_bytes_determined(k1, l1);
    field::residue_bytes_determined(k2, l2);
}

/// The commitments of one slot are 32 bytes each.
pub proof fn member_data_len(per_member: Seq<[u8; 32]>)
    ensures
        member_data(per_member).len() == 32 * per_member.len(),
    decreases per_member.len(),
{
    if per_member.len() > 0 {
        member_data_len(per_member.drop_last());
    }
}

/// The commitments of a slot are determined by their bytes.
proof fn member_data_determined(a: Seq<[u8; 32]>, b: Seq<[u8; 32]>)
    requires
        a.len() == b.len(),
        member_data(a) == member_data(b),
    ensures
        forall|i: int| 0 <= i < a.len() ==> (#[trigger] a[i])@ == b[i]@,
    decreases a.len(),
{
    if a.len() > 0 {
        bytes::split(
            member_data(a.drop_last()),
            a.last()@,
            member_data(b.drop_last()),
            b.last()@,
        );
        member_data_determined(a.drop_last(), b.drop_last());
        assert forall|i: int| 0 <= i < a.len() implies (#[trigger] a[i])@ == b[i]@ by {
            if i < a.len() - 1 {
                assert(a.drop_last()[i]@ == b.drop_last()[i]@);
            }
        }
    }
}

/// The setup root binds every commitment up to a collision of the hash: for a
/// given number of slots and members, what the root is hashed from determines
/// the identifiers and the commitments.
pub proof fn slots_data_determined(
    a: Seq<HashShareCommitments>,
    b: Seq<HashShareCommitments>,
    n: nat,
)
    requires
        a.len() == b.len(),
        forall|s: int| 0 <= s < a.len() ==> (#[trigger] a[s]).per_member@.len() == n,
        forall|s: int| 0 <= s < b.len() ==> (#[trigger] b[s]).per_member@.len() == n,
        slots_data(a) == slots_data(b),
    ensures
        forall|s: int| 0 <= s < a.len() ==> (#[trigger] a[s]).coeff_id == b[s].coeff_id,
        forall|s: int, i: int|
            0 <= s < a.len() && 0 <= i < n ==> (#[trigger] a[s].per_member@[i])@
                == b[s].per_member@[i]@,
    decreases a.len(),
{
    if a.len() > 0 {
        let (x, y) = (a.last(), b.last());
        let k = a.len() - 1;
        assert(a[k] == x && b[k] == y);
        let (c, d) = (
            bytes::be_bytes(x.coeff_id as int, 8),
            bytes::be_bytes(y.coeff_id as int, 8),
        );
        bytes::be_bytes_len(x.coeff_id as int, 8);
        bytes::be_bytes_len(y.coeff_id as int, 8);
        member_data_len(x.per_member@);
        member_data_len(y.per_member@);
        bytes::split(
            slots_data(a.drop_last()) + c,
            member_data(x.per_member@),
            slots_data(b.drop_last()) + d,
            member_data(y.per_member@),
        );
        bytes::split(slots_data(a.drop_last()), c, slots_data(b.drop_last()), d);
        bytes::words_determined();
        member_data_determined(x.per_member@, y.per_member@);
        slots_data_determined(a.drop_last(), b.drop_last(), n);
        assert forall|s: int| 0 <= s < a.len() implies (#[trigger] a[s]).coeff_id
            == b[s].coeff_id by {
            if s < k {
                assert(a.drop_last()[s].coeff_id == b.drop_last()[s].coeff_id);
            }
        }
        assert forall|s: int, i: int| 0 <= s < a.len() && 0 <= i < n implies (
        #[trigger] a[s].per_member@[i])@ == b[s].per_member@[i]@ by {
            if s < k {
                assert(a.drop_last()[s].per_member@[i]@ == b.drop_last()[s].per_member@[i]@);
            }
        }
    }
}

} // verus!

//! What hashing and signing binds, down to the bytes.
//!
//! Two inputs with one hash are either the same or a collision of SHA-256 itself,
//! on byte strings that are written out here; and every field of what is hashed or
//! signed can be read back from its place.
use vstd::arithmetic::div_mod::*;
use vstd::arithmetic::mul::*;
use vstd::arithmetic::power::*;
use vstd::prelude::*;

use crate::arith;
use crate::backend;
use crate::bytes;
use crate::field;
use crate::messages;
use crate::prime;
use crate::protocol::{self, Contribution, CustodyPolicy, HashShareCommitments, ShareOpening};

verus! {

/// Two different byte strings with one SHA-256 digest.
pub open spec fn digests_collide(p: Seq<u8>, q: Seq<u8>) -> bool {
    p != q && backend::sha256(p)@ == backend::sha256(q)@
}

/// Two different byte strings whose SHA-256 digests are congruent modulo the order
/// of the field.
pub open spec fn residues_collide(p: Seq<u8>, q: Seq<u8>) -> bool {
    &&& p != q
    &&& bytes::be_value(backend::sha256(p)@) % prime::modulus() == bytes::be_value(
        backend::sha256(q)@,
    ) % prime::modulus()
}

// ---------------------------------------------------------------------------
// Numbers and texts
// ---------------------------------------------------------------------------

/// The value of two strings, one after the other: the first counts 256 to the
/// length of the second.
pub proof fn value_of_concatenation(a: Seq<u8>, b: Seq<u8>)
    ensures
        bytes::be_value(a + b) == bytes::be_value(a) * pow(256, b.len()) + bytes::be_value(b),
    decreases b.len(),
{
    if b.len() == 0 {
        assert(a + b =~= a);
        lemma_pow0(256);
        assert(bytes::be_value(a) * 1 == bytes::be_value(a));
    } else {
        let k = (b.len() - 1) as nat;
        assert((a + b).drop_last() =~= a + b.drop_last());
        value_of_concatenation(a, b.drop_last());
        lemma_pow_adds(256, k, 1);
        lemma_pow1(256);
        let (v, w) = (bytes::be_value(a), pow(256, k));
        lemma_mul_is_associative(v, w, 256);
        lemma_mul_is_distributive_add_other_way(256, v * w, bytes::be_value(b.drop_last()));
    }
}

/// One byte spells itself, and none spells zero.
pub proof fn value_of_one_byte(b: u8)
    ensures
        bytes::be_value(seq![b]) == b,
        bytes::be_value(Seq::<u8>::empty()) == 0,
{
    let s = seq![b];
    assert(s.drop_last() =~= Seq::<u8>::empty());
    assert(s.last() == b);
    reveal_with_fuel(bytes::be_value, 2);
}

/// An encoding has its width, and spells the number as far as the width reaches.
pub proof fn encoding_spells_the_number(v: int, n: nat)
    requires
        0 <= v,
    ensures
        bytes::be_bytes(v, n).len() == n,
        bytes::be_value(bytes::be_bytes(v, n)) == v % (pow(256, n)),
    decreases n,
{
    bytes::be_bytes_len(v, n);
    if n == 0 {
        lemma_pow0(256);
    } else {
        let k = (n - 1) as nat;
        encoding_spells_the_number(v / 256, k);
        lemma_pow_positive(256, k);
        lemma_pow_adds(256, 1, k);
        lemma_pow1(256);
        assert(bytes::be_bytes(v, n).drop_last() =~= bytes::be_bytes(v / 256, k));
        lemma_mod_breakdown(v, 256, pow(256, k));
    }
}

/// The bytes of a text are its UTF-8 encoding: valid, and decoding gives the text.
pub proof fn text_decodes(s: Seq<char>)
    ensures
        vstd::utf8::valid_utf8(bytes::text(s)),
        vstd::utf8::decode_utf8(bytes::text(s)) == s,
{
    vstd::utf8::encode_utf8_valid_utf8(s);
    vstd::utf8::encode_utf8_decode_utf8(s);
}

/// An eight-byte place that holds a 64-bit number, and a four-byte one that holds a
/// 32-bit number, spell them.
proof fn words_spell()
    ensures
        forall|a: u64| bytes::be_value(#[trigger] bytes::be_bytes(a as int, 8)) == a,
        forall|a: u32| bytes::be_value(#[trigger] bytes::be_bytes(a as int, 4)) == a,
        forall|v: int, n: nat| (#[trigger] bytes::be_bytes(v, n)).len() == n,
{
    bytes::widths();
    assert forall|a: u64| bytes::be_value(#[trigger] bytes::be_bytes(a as int, 8)) == a by {
        bytes::be_round_trip(a as int, 8);
    }
    assert forall|a: u32| bytes::be_value(#[trigger] bytes::be_bytes(a as int, 4)) == a by {
        bytes::be_round_trip(a as int, 4);
    }
    assert forall|v: int, n: nat| (#[trigger] bytes::be_bytes(v, n)).len() == n by {
        bytes::be_bytes_len(v, n);
    }
}

// ---------------------------------------------------------------------------
// The hash into the field
// ---------------------------------------------------------------------------

/// The bytes hashed for a domain and data: the length of the domain in four bytes,
/// the domain, the data.
pub open spec fn hash_preimage(domain: Seq<u8>, data: Seq<u8>) -> Seq<u8> {
    bytes::be_bytes(domain.len() as int, 4) + domain + data
}

/// Hashing into the field binds the domain and the data: two pairs with one hash
/// are the same pair, or their byte strings collide.
pub proof fn field_hash_binds(d: Seq<u8>, data: Seq<u8>, e: Seq<u8>, other: Seq<u8>)
    requires
        d.len() < 0x1_0000_0000,
        e.len() < 0x1_0000_0000,
        field::hash_residue(d, data) == field::hash_residue(e, other),
    ensures
        (d == e && data == other) || residues_collide(
            hash_preimage(d, data),
            hash_preimage(e, other),
        ),
{
    if hash_preimage(d, data) == hash_preimage(e, other) {
        field::domains_separated(d, data, e, other);
    }
}

/// The hash into the field is the residue of a digest whose input reads back: the
/// length of the domain in four bytes, the domain, the data.
pub proof fn field_hash_reads_back(domain: Seq<u8>, data: Seq<u8>)
    requires
        domain.len() < 0x1_0000_0000,
    ensures
        ({
            let p = hash_preimage(domain, data);
            let k = 4 + domain.len() as int;
            &&& field::hash_residue(domain, data) == bytes::be_value(backend::sha256(p)@)
                % prime::modulus()
            &&& bytes::be_value(p.subrange(0, 4)) == domain.len()
            &&& p.subrange(4, k) == domain
            &&& p.subrange(k, p.len() as int) == data
        }),
{
    let p = hash_preimage(domain, data);
    let k = 4 + domain.len() as int;
    let head = bytes::be_bytes(domain.len() as int, 4);
    words_spell();
    let len = domain.len() as u32;
    assert(bytes::be_value(bytes::be_bytes(len as int, 4)) == len);
    assert(p.subrange(0, 4) =~= head);
    assert(p.subrange(4, k) =~= domain);
    assert(p.subrange(k, p.len() as int) =~= data);
}

// ---------------------------------------------------------------------------
// The canonical message and the affine scalar
// ---------------------------------------------------------------------------

/// The bytes that the canonical message of an operation is hashed from.
pub open spec fn message_preimage(
    address: Seq<u8>,
    policy_id: u64,
    op_type: Seq<char>,
    nonce: u64,
    msg: Seq<u8>,
) -> Seq<u8> {
    let tag = bytes::text("custody-op"@);
    bytes::be_bytes(tag.len() as int, 4) + tag + (address + bytes::be_bytes(policy_id as int, 8)
        + bytes::text(op_type) + bytes::be_bytes(nonce as int, 8) + backend::sha256(msg)@)
}

/// The canonical message binds the account, the policy, the operation type, the
/// nonce and the whole message: two operations with one canonical message are the
/// same, or the messages collide, or the byte strings hashed for them do.
pub proof fn canonical_message_binds(
    address: Seq<u8>,
    policy_id: u64,
    op_type: Seq<char>,
    nonce: u64,
    msg: Seq<u8>,
    address2: Seq<u8>,
    policy_id2: u64,
    op_type2: Seq<char>,
    nonce2: u64,
    msg2: Seq<u8>,
)
    requires
        address.len() == 20,
        address2.len() == 20,
        messages::bound_message(address, policy_id, op_type, nonce, msg)
            == messages::bound_message(address2, policy_id2, op_type2, nonce2, msg2),
    ensures
        ({
            &&& address == address2
            &&& policy_id == policy_id2
            &&& op_type == op_type2
            &&& nonce == nonce2
            &&& msg == msg2 || digests_collide(msg, msg2)
        }) || residues_collide(
            message_preimage(address, policy_id, op_type, nonce, msg),
            message_preimage(address2, policy_id2, op_type2, nonce2, msg2),
        ),
{
    let tag = bytes::text("custody-op"@);
    let p = message_preimage(address, policy_id, op_type, nonce, msg);
    let q = message_preimage(address2, policy_id2, op_type2, nonce2, msg2);
    if p == q {
        let head = bytes::be_bytes(tag.len() as int, 4) + tag;
        bytes::split(
            head,
            messages::bound_data(address, policy_id, op_type, nonce, msg),
            head,
            messages::bound_data(address2, policy_id2, op_type2, nonce2, msg2),
        );
        messages::bound_data_determined(
            address,
            policy_id,
            op_type,
            nonce,
            msg,
            address2,
            policy_id2,
            op_type2,
            nonce2,
            msg2,
        );
    }
}

/// The bytes that the affine scalar of a canonical message and a coefficient
/// identifier is hashed from.
pub open spec fn scalar_preimage(m_par_n: int, coeff_id: u64) -> Seq<u8> {
    let tag = bytes::text("custody-affine-x"@);
    bytes::be_bytes(tag.len() as int, 4) + tag + (bytes::be_bytes(m_par_n, 32)
        + bytes::be_bytes(coeff_id as int, 8))
}

/// The affine scalar binds the canonical message and the coefficient identifier:
/// two scalars are equal only where both are, or the byte strings hashed for them
/// collide.
pub proof fn scalar_binds(m_par_n: int, coeff_id: u64, m_par_n2: int, coeff_id2: u64)
    requires
        0 <= m_par_n < prime::modulus(),
        0 <= m_par_n2 < prime::modulus(),
        messages::affine_x(m_par_n, coeff_id) == messages::affine_x(m_par_n2, coeff_id2),
    ensures
        (m_par_n == m_par_n2 && coeff_id == coeff_id2) || residues_collide(
            scalar_preimage(m_par_n, coeff_id),
            scalar_preimage(m_par_n2, coeff_id2),
        ),
{
    let tag = bytes::text("custody-affine-x"@);
    if scalar_preimage(m_par_n, coeff_id) == scalar_preimage(m_par_n2, coeff_id2) {
        let head = bytes::be_bytes(tag.len() as int, 4) + tag;
        bytes::split(
            head,
            messages::affine_data(m_par_n, coeff_id),
            head,
            messages::affine_data(m_par_n2, coeff_id2),
        );
        messages::affine_data_determined(m_par_n, coeff_id, m_par_n2, coeff_id2);
    }
}

/// The canonical message of an operation, as the residue of a digest.
pub open spec fn canonical(
    policy: CustodyPolicy,
    op_type: Seq<char>,
    nonce: u64,
    msg: Seq<u8>,
) -> int {
    bytes::be_value(
        backend::sha256(
            message_preimage(policy.address@, policy.policy_id, op_type, nonce, msg),
        )@,
    ) % prime::modulus()
}

/// The scalar of an operation, as the residue of a digest.
pub open spec fn scalar_of(
    policy: CustodyPolicy,
    coeff_id: u64,
    op_type: Seq<char>,
    nonce: u64,
    msg: Seq<u8>,
) -> int {
    bytes::be_value(
        backend::sha256(scalar_preimage(canonical(policy, op_type, nonce, msg), coeff_id))@,
    ) % prime::modulus()
}

/// The operations are the same to the end: one account, one policy, one type, one
/// nonce, one message; or two byte strings that collide are at hand.
pub open spec fn same_operation(
    policy: CustodyPolicy,
    op_type: Seq<char>,
    nonce: u64,
    msg: Seq<u8>,
    policy2: CustodyPolicy,
    op_type2: Seq<char>,
    nonce2: u64,
    msg2: Seq<u8>,
) -> bool {
    ||| {
        &&& policy.address@ == policy2.address@
        &&& policy.policy_id == policy2.policy_id
        &&& op_type == op_type2
        &&& nonce == nonce2
        &&& msg == msg2 || digests_collide(msg, msg2)
    }
    ||| residues_collide(
        message_preimage(policy.address@, policy.policy_id, op_type, nonce, msg),
        message_preimage(policy2.address@, policy2.policy_id, op_type2, nonce2, msg2),
    )
}

/// The scalar of an operation binds the whole operation: two operations have one
/// scalar only where they are the same and use one coefficient identifier, or where
/// the byte strings hashed on the way collide.
pub proof fn operation_scalar_binds(
    policy: CustodyPolicy,
    coeff_id: u64,
    op_type: Seq<char>,
    nonce: u64,
    msg: Seq<u8>,
    policy2: CustodyPolicy,
    coeff_id2: u64,
    op_type2: Seq<char>,
    nonce2: u64,
    msg2: Seq<u8>,
)
    requires
        policy.scalar(coeff_id, op_type, nonce, msg) == policy2.scalar(
            coeff_id2,
            op_type2,
            nonce2,
            msg2,
        ),
    ensures
        ({
            &&& coeff_id == coeff_id2
            &&& same_operation(policy, op_type, nonce, msg, policy2, op_type2, nonce2, msg2)
        }) || residues_collide(
            scalar_preimage(canonical(policy, op_type, nonce, msg), coeff_id),
            scalar_preimage(canonical(policy2, op_type2, nonce2, msg2), coeff_id2),
        ),
{
    let a = policy.bound(op_type, nonce, msg);
    let b = policy2.bound(op_type2, nonce2, msg2);
    operation_hashes(policy, coeff_id, op_type, nonce, msg);
    operation_hashes(policy2, coeff_id2, op_type2, nonce2, msg2);
    messages::bound_message_range(policy.address@, policy.policy_id, op_type, nonce, msg);
    messages::bound_message_range(policy2.address@, policy2.policy_id, op_type2, nonce2, msg2);
    scalar_binds(a, coeff_id, b, coeff_id2);
    if a == b {
        canonical_message_binds(
            policy.address@,
            policy.policy_id,
            op_type,
            nonce,
            msg,
            policy2.address@,
            policy2.policy_id,
            op_type2,
            nonce2,
            msg2,
        );
    }
}

/// The canonical message and the scalar of an operation are the residues of those
/// digests.
pub proof fn operation_hashes(
    policy: CustodyPolicy,
    coeff_id: u64,
    op_type: Seq<char>,
    nonce: u64,
    msg: Seq<u8>,
)
    ensures
        policy.bound(op_type, nonce, msg) == canonical(policy, op_type, nonce, msg),
        policy.scalar(coeff_id, op_type, nonce, msg) == scalar_of(
            policy,
            coeff_id,
            op_type,
            nonce,
            msg,
        ),
        0 <= canonical(policy, op_type, nonce, msg) < prime::modulus(),
        0 <= scalar_of(policy, coeff_id, op_type, nonce, msg) < prime::modulus(),
{
    let p = message_preimage(policy.address@, policy.policy_id, op_type, nonce, msg);
    let c = canonical(policy, op_type, nonce, msg);
    arith::mod_idem(bytes::be_value(backend::sha256(p)@), prime::modulus());
    canonical_message_reads_back(policy.address@, policy.policy_id, op_type, nonce, msg);
    scalar_reads_back(c, coeff_id);
    arith::mod_idem(
        bytes::be_value(backend::sha256(scalar_preimage(c, coeff_id))@),
        prime::modulus(),
    );
}

/// Different operations have different evaluation shares and authorization values,
/// for coefficients with a first one that is not zero, unless byte strings that are
/// hashed on the way collide.
pub proof fn operation_value_binds(
    k1: int,
    k2: int,
    policy: CustodyPolicy,
    coeff_id: u64,
    op_type: Seq<char>,
    nonce: u64,
    msg: Seq<u8>,
    policy2: CustodyPolicy,
    coeff_id2: u64,
    op_type2: Seq<char>,
    nonce2: u64,
    msg2: Seq<u8>,
)
    requires
        k1 % prime::modulus() != 0,
        protocol::affine(k1, policy.scalar(coeff_id, op_type, nonce, msg), k2)
            == protocol::affine(k1, policy2.scalar(coeff_id2, op_type2, nonce2, msg2), k2),
    ensures
        ({
            &&& coeff_id == coeff_id2
            &&& same_operation(policy, op_type, nonce, msg, policy2, op_type2, nonce2, msg2)
        }) || residues_collide(
            scalar_preimage(canonical(policy, op_type, nonce, msg), coeff_id),
            scalar_preimage(canonical(policy2, op_type2, nonce2, msg2), coeff_id2),
        ),
{
    let x = policy.scalar(coeff_id, op_type, nonce, msg);
    let y = policy2.scalar(coeff_id2, op_type2, nonce2, msg2);
    operation_hashes(policy, coeff_id, op_type, nonce, msg);
    operation_hashes(policy2, coeff_id2, op_type2, nonce2, msg2);
    if x != y {
        crate::laws::different_scalars_different_values(k1, k2, x, y);
    }
    operation_scalar_binds(
        policy,
        coeff_id,
        op_type,
        nonce,
        msg,
        policy2,
        coeff_id2,
        op_type2,
        nonce2,
        msg2,
    );
}

// ---------------------------------------------------------------------------
// Contributions
// ---------------------------------------------------------------------------

/// Message binding to the end: a contribution that is accepted for two operations,
/// under one policy or two, is accepted for one operation: the same account, policy,
/// coefficient identifier, type, nonce and message, unless byte strings that are
/// written out here collide.
pub proof fn accepted_contribution_binds(
    c: Contribution,
    policy: CustodyPolicy,
    coeff_id: u64,
    op_type: Seq<char>,
    nonce: u64,
    msg: Seq<u8>,
    policy2: CustodyPolicy,
    coeff_id2: u64,
    op_type2: Seq<char>,
    nonce2: u64,
    msg2: Seq<u8>,
)
    requires
        protocol::contribution_error(policy, c, coeff_id, op_type, nonce, msg) is None,
        protocol::contribution_error(policy2, c, coeff_id2, op_type2, nonce2, msg2) is None,
    ensures
        policy.address@ == policy2.address@,
        policy.policy_id == policy2.policy_id,
        coeff_id == coeff_id2,
        same_operation(policy, op_type, nonce, msg, policy2, op_type2, nonce2, msg2),
{
    let a = policy.bound(op_type, nonce, msg);
    let b = policy2.bound(op_type2, nonce2, msg2);
    messages::bound_message_range(policy.address@, policy.policy_id, op_type, nonce, msg);
    messages::bound_message_range(policy2.address@, policy2.policy_id, op_type2, nonce2, msg2);
    field::residue_range(c.eval_share);
    messages::envelope_determined(
        policy.address@,
        policy.policy_id,
        coeff_id,
        c.member_index,
        a,
        c.eval_share@,
        c.opening,
        policy2.address@,
        policy2.policy_id,
        coeff_id2,
        c.member_index,
        b,
        c.eval_share@,
        c.opening,
    );
    canonical_message_binds(
        policy.address@,
        policy.policy_id,
        op_type,
        nonce,
        msg,
        policy2.address@,
        policy2.policy_id,
        op_type2,
        nonce2,
        msg2,
    );
}

/// What a member signs for one operation is signed for no other: an envelope that
/// two policies expect for two operations is for one operation, with one evaluation
/// share and one opening, unless byte strings that are written out here collide.
pub proof fn expected_envelope_binds(
    c: Contribution,
    policy: CustodyPolicy,
    coeff_id: u64,
    op_type: Seq<char>,
    nonce: u64,
    msg: Seq<u8>,
    c2: Contribution,
    policy2: CustodyPolicy,
    coeff_id2: u64,
    op_type2: Seq<char>,
    nonce2: u64,
    msg2: Seq<u8>,
)
    requires
        policy.expected_envelope(c, coeff_id, op_type, nonce, msg) == policy2.expected_envelope(
            c2,
            coeff_id2,
            op_type2,
            nonce2,
            msg2,
        ),
    ensures
        c.member_index == c2.member_index,
        c.eval_share@ == c2.eval_share@,
        messages::same_opening(c.opening, c2.opening),
        coeff_id == coeff_id2,
        same_operation(policy, op_type, nonce, msg, policy2, op_type2, nonce2, msg2),
{
    let a = policy.bound(op_type, nonce, msg);
    let b = policy2.bound(op_type2, nonce2, msg2);
    messages::bound_message_range(policy.address@, policy.policy_id, op_type, nonce, msg);
    messages::bound_message_range(policy2.address@, policy2.policy_id, op_type2, nonce2, msg2);
    field::residue_range(c.eval_share);
    field::residue_range(c2.eval_share);
    messages::envelope_determined(
        policy.address@,
        policy.policy_id,
        coeff_id,
        c.member_index,
        a,
        c.eval_share@,
        c.opening,
        policy2.address@,
        policy2.policy_id,
        coeff_id2,
        c2.member_index,
        b,
        c2.eval_share@,
        c2.opening,
    );
    canonical_message_binds(
        policy.address@,
        policy.policy_id,
        op_type,
        nonce,
        msg,
        policy2.address@,
        policy2.policy_id,
        op_type2,
        nonce2,
        msg2,
    );
}

// ---------------------------------------------------------------------------
// Share commitments and the setup root
// ---------------------------------------------------------------------------

/// The bytes that the commitment to a member's slot shares is hashed from.
pub open spec fn commitment_preimage(coeff_id: u64, member_index: u32, k1: int, k2: int) -> Seq<
    u8,
> {
    bytes::text("custody-share-commit"@) + bytes::be_bytes(coeff_id as int, 8) + bytes::be_bytes(
        member_index as int,
        4,
    ) + bytes::be_bytes(k1, 32) + bytes::be_bytes(k2, 32)
}

/// A hash commitment binds the coefficient identifier, the member and both shares:
/// two openings of one commitment are the same, or the byte strings hashed for them
/// are different and have one SHA-256 digest.
pub proof fn share_commitment_binds(
    coeff_id: u64,
    member_index: u32,
    k1: int,
    k2: int,
    coeff_id2: u64,
    member_index2: u32,
    l1: int,
    l2: int,
)
    requires
        0 <= k1 < prime::modulus(),
        0 <= k2 < prime::modulus(),
        0 <= l1 < prime::modulus(),
        0 <= l2 < prime::modulus(),
        messages::share_commitment(coeff_id, member_index, k1, k2)@ == messages::share_commitment(
            coeff_id2,
            member_index2,
            l1,
            l2,
        )@,
    ensures
        ({
            &&& coeff_id == coeff_id2
            &&& member_index == member_index2
            &&& k1 == l1
            &&& k2 == l2
        }) || digests_collide(
            commitment_preimage(coeff_id, member_index, k1, k2),
            commitment_preimage(coeff_id2, member_index2, l1, l2),
        ),
{
    if commitment_preimage(coeff_id, member_index, k1, k2) == commitment_preimage(
        coeff_id2,
        member_index2,
        l1,
        l2,
    ) {
        messages::commitment_data_determined(
            coeff_id,
            member_index,
            k1,
            k2,
            coeff_id2,
            member_index2,
            l1,
            l2,
        );
    }
}

/// The bytes that the setup root is hashed from.
pub open spec fn root_preimage(commitments: Seq<HashShareCommitments>) -> Seq<u8> {
    bytes::text("custody-setuproot"@) + messages::slots_data(commitments)
}

/// The setup root binds every identifier and every commitment: two lists of as many
/// slots and members with one root are the same, or the byte strings hashed for them
/// are different and have one SHA-256 digest.
pub proof fn setup_root_binds(
    a: Seq<HashShareCommitments>,
    b: Seq<HashShareCommitments>,
    n: nat,
)
    requires
        a.len() == b.len(),
        forall|s: int| 0 <= s < a.len() ==> (#[trigger] a[s]).per_member@.len() == n,
        forall|s: int| 0 <= s < b.len() ==> (#[trigger] b[s]).per_member@.len() == n,
        messages::setuproot_of(a)@ == messages::setuproot_of(b)@,
    ensures
        ({
            &&& forall|s: int| 0 <= s < a.len() ==> (#[trigger] a[s]).coeff_id == b[s].coeff_id
            &&& forall|s: int, i: int|
                0 <= s < a.len() && 0 <= i < n ==> (#[trigger] a[s].per_member@[i])@
                    == b[s].per_member@[i]@
        }) || digests_collide(root_preimage(a), root_preimage(b)),
{
    if root_preimage(a) == root_preimage(b) {
        let tag = bytes::text("custody-setuproot"@);
        bytes::split(tag, messages::slots_data(a), tag, messages::slots_data(b));
        messages::slots_data_determined(a, b, n);
    }
}

// ---------------------------------------------------------------------------
// Reading fields back
// ---------------------------------------------------------------------------

/// Every field of an envelope stands in its place behind the tag: the address in 20
/// bytes, the policy and the coefficient identifier in eight each, the member in
/// four, the canonical message and the evaluation share in 32 each, and at the end
/// the opening.
pub proof fn envelope_reads_back(
    address: Seq<u8>,
    policy_id: u64,
    coeff_id: u64,
    member_index: u32,
    m_par_n: int,
    eval_share: int,
    opening: ShareOpening,
)
    requires
        address.len() == 20,
        0 <= m_par_n < prime::modulus(),
        0 <= eval_share < prime::modulus(),
    ensures
        ({
            let e = messages::envelope(
                address,
                policy_id,
                coeff_id,
                member_index,
                m_par_n,
                eval_share,
                opening,
            );
            let tag = bytes::text("custody-share"@);
            let k = tag.len() as int;
            &&& e.len() == k + 104 + opening.layout().len()
            &&& e.subrange(0, k) == tag
            &&& e.subrange(k, k + 20) == address
            &&& bytes::be_value(e.subrange(k + 20, k + 28)) == policy_id
            &&& bytes::be_value(e.subrange(k + 28, k + 36)) == coeff_id
            &&& bytes::be_value(e.subrange(k + 36, k + 40)) == member_index
            &&& bytes::be_value(e.subrange(k + 40, k + 72)) == m_par_n
            &&& bytes::be_value(e.subrange(k + 72, k + 104)) == eval_share
            &&& e.subrange(k + 104, e.len() as int) == opening.layout()
        }),
{
    let e = messages::envelope(
        address,
        policy_id,
        coeff_id,
        member_index,
        m_par_n,
        eval_share,
        opening,
    );
    let tag = bytes::text("custody-share"@);
    let k = tag.len() as int;
    let (p, c) = (bytes::be_bytes(policy_id as int, 8), bytes::be_bytes(coeff_id as int, 8));
    let i = bytes::be_bytes(member_index as int, 4);
    let (m, v) = (field::residue_bytes(m_par_n), field::residue_bytes(eval_share));
    words_spell();
    field::residue_bytes_round_trip(m_par_n);
    field::residue_bytes_round_trip(eval_share);
    assert(e == tag + address + p + c + i + m + v + opening.layout());
    assert(e.subrange(0, k) =~= tag);
    assert(e.subrange(k, k + 20) =~= address);
    assert(e.subrange(k + 20, k + 28) =~= p);
    assert(e.subrange(k + 28, k + 36) =~= c);
    assert(e.subrange(k + 36, k + 40) =~= i);
    assert(e.subrange(k + 40, k + 72) =~= m);
    assert(e.subrange(k + 72, k + 104) =~= v);
    assert(e.subrange(k + 104, e.len() as int) =~= opening.layout());
}

/// An opening reads back by its first byte: two and both shares, one and the
/// blinding factor, or zero alone.
pub proof fn opening_reads_back(opening: ShareOpening)
    ensures
        match opening {
            ShareOpening::HashCommitted { k1_share, k2_share } => {
                &&& opening.layout().len() == 65
                &&& opening.layout()[0] == 2
                &&& bytes::be_value(opening.layout().subrange(1, 33)) == k1_share@
                &&& bytes::be_value(opening.layout().subrange(33, 65)) == k2_share@
            },
            ShareOpening::Pedersen { eval_blind } => {
                &&& opening.layout().len() == 33
                &&& opening.layout()[0] == 1
                &&& bytes::be_value(opening.layout().subrange(1, 33)) == eval_blind@
            },
            ShareOpening::Absent => opening.layout().len() == 1 && opening.layout()[0] == 0,
        },
{
    let l = opening.layout();
    match opening {
        ShareOpening::HashCommitted { k1_share, k2_share } => {
            field::residue_range(k1_share);
            field::residue_range(k2_share);
            field::residue_bytes_round_trip(k1_share@);
            field::residue_bytes_round_trip(k2_share@);
            assert(l.subrange(1, 33) =~= field::residue_bytes(k1_share@));
            assert(l.subrange(33, 65) =~= field::residue_bytes(k2_share@));
        },
        ShareOpening::Pedersen { eval_blind } => {
            field::residue_range(eval_blind);
            field::residue_bytes_round_trip(eval_blind@);
            assert(l.subrange(1, 33) =~= field::residue_bytes(eval_blind@));
        },
        ShareOpening::Absent => {},
    }
}

/// The canonical message is the residue of a digest whose input reads back: the tag
/// with its length before it, the address, the policy, the type, the nonce, and the
/// digest of the whole message.
pub proof fn canonical_message_reads_back(
    address: Seq<u8>,
    policy_id: u64,
    op_type: Seq<char>,
    nonce: u64,
    msg: Seq<u8>,
)
    requires
        address.len() == 20,
    ensures
        ({
            let p = message_preimage(address, policy_id, op_type, nonce, msg);
            let tag = bytes::text("custody-op"@);
            let k = 4 + tag.len() as int;
            let n = p.len() as int;
            &&& messages::bound_message(address, policy_id, op_type, nonce, msg)
                == bytes::be_value(backend::sha256(p)@) % prime::modulus()
            &&& p.subrange(4, k) == tag
            &&& p.subrange(k, k + 20) == address
            &&& bytes::be_value(p.subrange(k + 20, k + 28)) == policy_id
            &&& vstd::utf8::decode_utf8(p.subrange(k + 28, n - 40)) == op_type
            &&& bytes::be_value(p.subrange(n - 40, n - 32)) == nonce
            &&& p.subrange(n - 32, n) == backend::sha256(msg)@
        }),
{
    let p = message_preimage(address, policy_id, op_type, nonce, msg);
    let tag = bytes::text("custody-op"@);
    let k = 4 + tag.len() as int;
    let n = p.len() as int;
    let head = bytes::be_bytes(tag.len() as int, 4);
    let (i, j) = (bytes::be_bytes(policy_id as int, 8), bytes::be_bytes(nonce as int, 8));
    let o = bytes::text(op_type);
    words_spell();
    text_decodes(op_type);
    let data = messages::bound_data(address, policy_id, op_type, nonce, msg);
    assert(p == field::domain_separated(tag, data));
    assert(p == head + tag + (address + i + o + j + backend::sha256(msg)@));
    assert(p.subrange(4, k) =~= tag);
    assert(p.subrange(k, k + 20) =~= address);
    assert(p.subrange(k + 20, k + 28) =~= i);
    assert(p.subrange(k + 28, n - 40) =~= o);
    assert(p.subrange(n - 40, n - 32) =~= j);
    assert(p.subrange(n - 32, n) =~= backend::sha256(msg)@);
}

/// The affine scalar is the residue of a digest whose input reads back: the tag, the
/// canonical message and the coefficient identifier.
pub proof fn scalar_reads_back(m_par_n: int, coeff_id: u64)
    requires
        0 <= m_par_n < prime::modulus(),
    ensures
        ({
            let p = scalar_preimage(m_par_n, coeff_id);
            let tag = bytes::text("custody-affine-x"@);
            let k = 4 + tag.len() as int;
            &&& messages::affine_x(m_par_n, coeff_id) == bytes::be_value(backend::sha256(p)@)
                % prime::modulus()
            &&& p.len() == k + 40
            &&& p.subrange(4, k) == tag
            &&& bytes::be_value(p.subrange(k, k + 32)) == m_par_n
            &&& bytes::be_value(p.subrange(k + 32, k + 40)) == coeff_id
        }),
{
    let p = scalar_preimage(m_par_n, coeff_id);
    let tag = bytes::text("custody-affine-x"@);
    let k = 4 + tag.len() as int;
    let (m, c) = (field::residue_bytes(m_par_n), bytes::be_bytes(coeff_id as int, 8));
    words_spell();
    field::residue_bytes_round_trip(m_par_n);
    assert(p == bytes::be_bytes(tag.len() as int, 4) + tag + (m + c));
    assert(p == field::domain_separated(tag, messages::affine_data(m_par_n, coeff_id)));
    assert(p.subrange(4, k) =~= tag);
    assert(p.subrange(k, k + 32) =~= m);
    assert(p.subrange(k + 32, k + 40) =~= c);
}

/// A hash commitment is a digest whose input reads back: the tag, the coefficient
/// identifier, the member and both shares.
pub proof fn share_commitment_reads_back(coeff_id: u64, member_index: u32, k1: int, k2: int)
    requires
        0 <= k1 < prime::modulus(),
        0 <= k2 < prime::modulus(),
    ensures
        ({
            let p = commitment_preimage(coeff_id, member_index, k1, k2);
            let tag = bytes::text("custody-share-commit"@);
            let k = tag.len() as int;
            &&& messages::share_commitment(coeff_id, member_index, k1, k2) == backend::sha256(p)
            &&& p.len() == k + 76
            &&& p.subrange(0, k) == tag
            &&& bytes::be_value(p.subrange(k, k + 8)) == coeff_id
            &&& bytes::be_value(p.subrange(k + 8, k + 12)) == member_index
            &&& bytes::be_value(p.subrange(k + 12, k + 44)) == k1
            &&& bytes::be_value(p.subrange(k + 44, k + 76)) == k2
        }),
{
    let p = commitment_preimage(coeff_id, member_index, k1, k2);
    let tag = bytes::text("custody-share-commit"@);
    let k = tag.len() as int;
    let (c, i) = (bytes::be_bytes(coeff_id as int, 8), bytes::be_bytes(member_index as int, 4));
    let (a, b) = (field::residue_bytes(k1), field::residue_bytes(k2));
    words_spell();
    field::residue_bytes_round_trip(k1);
    field::residue_bytes_round_trip(k2);
    assert(p == tag + c + i + a + b);
    assert(p == messages::commitment_data(coeff_id, member_index, k1, k2));
    assert(p.subrange(0, k) =~= tag);
    assert(p.subrange(k, k + 8) =~= c);
    assert(p.subrange(k + 8, k + 12) =~= i);
    assert(p.subrange(k + 12, k + 44) =~= a);
    assert(p.subrange(k + 44, k + 76) =~= b);
}

/// The setup root is a digest whose input reads back, slot by slot: with `n` members
/// a slot takes eight bytes for its identifier and 32 for each commitment.
pub proof fn setup_root_reads_back(commitments: Seq<HashShareCommitments>, n: nat, s: int, i: int)
    requires
        forall|j: int|
            0 <= j < commitments.len() ==> (#[trigger] commitments[j]).per_member@.len() == n,
        0 <= s < commitments.len(),
        0 <= i < n,
    ensures
        ({
            let p = root_preimage(commitments);
            let tag = bytes::text("custody-setuproot"@);
            let k = tag.len() as int + (8 + 32 * n) * s;
            &&& messages::setuproot_of(commitments) == backend::sha256(p)
            &&& p.len() == tag.len() + (8 + 32 * n) * commitments.len()
            &&& p.subrange(0, tag.len() as int) == tag
            &&& bytes::be_value(p.subrange(k, k + 8)) == commitments[s].coeff_id
            &&& p.subrange(k + 8 + 32 * i, k + 40 + 32 * i) == commitments[s].per_member@[i]@
        }),
{
    let p = root_preimage(commitments);
    let tag = bytes::text("custody-setuproot"@);
    let d = messages::slots_data(commitments);
    let w = 8 + 32 * n as int;
    slot_reads_back(commitments, n, s, i);
    assert(p.subrange(0, tag.len() as int) =~= tag);
    let b = tag.len() as int;
    assert(0 <= w * s && w * s + w <= w * commitments.len()) by (nonlinear_arith)
        requires
            0 <= s < commitments.len(),
            w >= 8,
    ;
    assert(p.subrange(b + w * s, b + w * s + 8) =~= d.subrange(w * s, w * s + 8));
    assert(p.subrange(b + w * s + 8 + 32 * i, b + w * s + 40 + 32 * i) =~= d.subrange(
        w * s + 8 + 32 * i,
        w * s + 40 + 32 * i,
    ));
}

/// The places in the data of the slots.
proof fn slot_reads_back(commitments: Seq<HashShareCommitments>, n: nat, s: int, i: int)
    requires
        forall|j: int|
            0 <= j < commitments.len() ==> (#[trigger] commitments[j]).per_member@.len() == n,
        0 <= s < commitments.len(),
        0 <= i < n,
    ensures
        ({
            let d = messages::slots_data(commitments);
            let w = 8 + 32 * n as int;
            &&& d.len() == w * commitments.len()
            &&& bytes::be_value(d.subrange(w * s, w * s + 8)) == commitments[s].coeff_id
            &&& d.subrange(w * s + 8 + 32 * i, w * s + 40 + 32 * i)
                == commitments[s].per_member@[i]@
        }),
    decreases commitments.len(),
{
    let d = messages::slots_data(commitments);
    let w = 8 + 32 * n as int;
    let init = commitments.drop_last();
    let last = commitments.last();
    let k = commitments.len() - 1;
    assert(commitments[k] == last);
    let a = messages::slots_data(init);
    let id = bytes::be_bytes(last.coeff_id as int, 8);
    let b = messages::member_data(last.per_member@);
    words_spell();
    slots_data_len(init, n);
    member_reads_back(last.per_member@, i);
    lemma_mul_is_distributive_add(w, k, 1);
    assert(d == a + id + b);
    if s == k {
        assert(d.subrange(w * s, w * s + 8) =~= id);
        assert(d.subrange(w * s + 8 + 32 * i, w * s + 40 + 32 * i) =~= b.subrange(
            32 * i,
            32 * i + 32,
        ));
    } else {
        slot_reads_back(init, n, s, i);
        assert(0 <= w * s && w * s + w <= w * k) by (nonlinear_arith)
            requires
                0 <= s < k,
                w >= 8,
        ;
        assert(d.subrange(w * s, w * s + 8) =~= a.subrange(w * s, w * s + 8));
        assert(d.subrange(w * s + 8 + 32 * i, w * s + 40 + 32 * i) =~= a.subrange(
            w * s + 8 + 32 * i,
            w * s + 40 + 32 * i,
        ));
        assert(init[s] == commitments[s]);
    }
}

/// The length of the data of the slots.
proof fn slots_data_len(commitments: Seq<HashShareCommitments>, n: nat)
    requires
        forall|j: int|
            0 <= j < commitments.len() ==> (#[trigger] commitments[j]).per_member@.len() == n,
    ensures
        messages::slots_data(commitments).len() == (8 + 32 * n) * commitments.len(),
    decreases commitments.len(),
{
    let w = 8 + 32 * n as int;
    if commitments.len() > 0 {
        let k = commitments.len() - 1;
        assert(commitments[k] == commitments.last());
        slots_data_len(commitments.drop_last(), n);
        messages::member_data_len(commitments.last().per_member@);
        bytes::be_bytes_len(commitments.last().coeff_id as int, 8);
        lemma_mul_is_distributive_add(w, k, 1);
    } else {
        assert(w * 0 == 0);
    }
}

/// The places in the commitments of one slot.
proof fn member_reads_back(per_member: Seq<[u8; 32]>, i: int)
    requires
        0 <= i < per_member.len(),
    ensures
        messages::member_data(per_member).len() == 32 * per_member.len(),
        messages::member_data(per_member).subrange(32 * i, 32 * i + 32) == per_member[i]@,
    decreases per_member.len(),
{
    let d = messages::member_data(per_member);
    let init = per_member.drop_last();
    messages::member_data_len(per_member);
    messages::member_data_len(init);
    if i == per_member.len() - 1 {
        assert(d.subrange(32 * i, 32 * i + 32) =~= per_member.last()@);
    } else {
        member_reads_back(init, i);
        assert(d.subrange(32 * i, 32 * i + 32) =~= messages::member_data(init).subrange(
            32 * i,
            32 * i + 32,
        ));
    }
}

} // verus!

use dual_gate_demo::field::{field_to_bytes, Fr};
use dual_gate_demo::messages::build_envelope;
use dual_gate_demo::pedersen::verify_share;
use dual_gate_demo::protocol::{
    approve, authorize, check_envelope, evaluate_share, generate_member_key, jrss_setup_from,
    jrss_setup_with_profile, settle, shares_match, sign_evaluation_share, try_authorize,
    try_jrss_setup_with_profile, verify_share_opening, AuthError, CoefficientShare, Contribution,
    CustodyPolicy, HashShareCommitments, MemberKey, Operation, SetupOutput,
    ShareCorrectnessProfile, ShareCorrectnessProfileKind, ShareOpening,
};
use dual_gate_demo::random::{PreparedScalars, ScalarSource};
use dual_gate_demo::shamir::{reconstruct, Share};
use dual_gate_demo::signature::Signature;

fn fr(v: u64) -> Fr {
    Fr::from(v)
}

fn hex(bytes: &[u8]) -> String {
    let mut out = String::new();
    for b in bytes {
        out.push_str(&format!("{:02x}", b));
    }
    out
}

/// Hands out the numbers from one on.
fn counting() -> PreparedScalars {
    PreparedScalars::new((1..100u64).map(Fr::from).collect())
}

fn keys(n: usize) -> Vec<MemberKey> {
    (0..n).map(|_| generate_member_key()).collect()
}

fn policy(t: u32, keys: &[MemberKey], profile: ShareCorrectnessProfile) -> CustodyPolicy {
    CustodyPolicy {
        address: [0xAA; 20],
        policy_id: 1,
        threshold: t,
        member_keys: keys.iter().map(|k| k.verifying_key).collect(),
        share_profile: profile,
        consumed_coeffids: Vec::new(),
    }
}

fn approve_all(
    keys: &[MemberKey],
    setup: &SetupOutput,
    policy: &CustodyPolicy,
    members: &[u32],
    slot: usize,
) -> Vec<Contribution> {
    members
        .iter()
        .map(|m| {
            approve(
                &keys[*m as usize - 1],
                &setup.member_shares[*m as usize - 1][slot],
                policy,
                *m,
                "withdraw",
                7,
                b"withdraw 100",
            )
        })
        .collect()
}

fn run(policy: &mut CustodyPolicy, contributions: &[Contribution], slot: u64) -> Result<Fr, AuthError> {
    authorize(policy, contributions, slot, "withdraw", 7, b"withdraw 100").map(|r| r.sigma)
}

fn share(index: u32, value: u64) -> Share {
    Share { index, value: fr(value) }
}

fn coefficient_share() -> CoefficientShare {
    CoefficientShare {
        coeff_id: 3,
        k1_share: share(2, 11),
        k2_share: share(2, 13),
        k1_blind_share: share(2, 17),
        k2_blind_share: share(2, 19),
    }
}

const KINDS: [ShareCorrectnessProfileKind; 3] = [
    ShareCorrectnessProfileKind::HashCommitted,
    ShareCorrectnessProfileKind::Pedersen,
    ShareCorrectnessProfileKind::ExternalAvssTranscript,
];

// The affine scalar of "withdraw", 7, "withdraw 100", slot 3, under the policy
// above is 4f0831be5f191111de3bf709df0c77ea380d6fcbfe634da79b4e2dce7b323259.
const EVAL: &str = "655a232e1613bbc48c939d6c958927143887370fe06a75806ce4dc38da85661d";

#[test]
fn approval_under_the_hash_profile() {
    let key = generate_member_key();
    let policy = policy(
        2,
        &[],
        ShareCorrectnessProfile::HashCommitted { commitments: vec![], setuproot: [0; 32] },
    );
    let c = approve(&key, &coefficient_share(), &policy, 2, "withdraw", 7, b"withdraw 100");
    assert_eq!(c.member_index, 2);
    assert_eq!(hex(&field_to_bytes(&c.eval_share)), EVAL);
    assert_eq!(
        hex(&c.envelope),
        "637573746f64792d7368617265aaaaaaaaaaaaaaaaaaaaaaaaaaaaaaaaaaaaaaaa\
         0000000000000001000000000000000300000002\
         afa574f6b61095302660d91efe2d84db9a2d9785d9b22a51dbcdc5dd85f1d925\
         655a232e1613bbc48c939d6c958927143887370fe06a75806ce4dc38da85661d\
         02\
         000000000000000000000000000000000000000000000000000000000000000b\
         000000000000000000000000000000000000000000000000000000000000000d"
    );
    assert!(key.verifying_key.verify(&c.envelope, &c.signature));
}

#[test]
fn approval_under_the_pedersen_profile() {
    let key = generate_member_key();
    let policy = policy(2, &[], ShareCorrectnessProfile::Pedersen { commitments: vec![] });
    let c = approve(&key, &coefficient_share(), &policy, 2, "withdraw", 7, b"withdraw 100");
    assert_eq!(hex(&field_to_bytes(&c.eval_share)), EVAL);
    assert_eq!(
        hex(&c.envelope[117..]),
        "013f8b4da450aa222fc1fb67a7cfd3f694137a1c0a782d06f6911531f61d4611b7"
    );
}

#[test]
fn approval_under_the_transcript_profile() {
    let key = generate_member_key();
    let policy = policy(2, &[], ShareCorrectnessProfile::ExternalAvssTranscript);
    let c = approve(&key, &coefficient_share(), &policy, 2, "withdraw", 7, b"withdraw 100");
    assert_eq!(hex(&field_to_bytes(&c.eval_share)), EVAL);
    assert_eq!(hex(&c.envelope[117..]), "00");
    assert!(matches!(c.opening, ShareOpening::Absent));
}

#[test]
fn setup_from_known_elements() {
    let mut source = counting();
    let setup = jrss_setup_from(2, 3, 1, ShareCorrectnessProfileKind::HashCommitted, &mut source);
    // four times the threshold for each of three dealers
    assert_eq!(source.next_scalar(), fr(25));
    assert_eq!(setup.n, 3);
    assert_eq!(setup.t, 2);
    assert_eq!(setup.member_shares.len(), 3);
    for i in 1..=3u64 {
        let s = &setup.member_shares[i as usize - 1];
        assert_eq!(s.len(), 1);
        assert_eq!(s[0].coeff_id, 0);
        assert_eq!(s[0].k1_share.index, i as u32);
        assert_eq!(s[0].k1_share.value, fr(27 + 33 * i));
        assert_eq!(s[0].k2_share.value, fr(30 + 36 * i));
        assert_eq!(s[0].k1_blind_share.value, fr(39 + 42 * i));
        assert_eq!(s[0].k2_blind_share.value, fr(45 + 48 * i));
    }
    let ShareCorrectnessProfile::HashCommitted { commitments, setuproot } = &setup.share_profile
    else {
        panic!("expected hash commitments");
    };
    assert_eq!(commitments.len(), 1);
    assert_eq!(commitments[0].coeff_id, 0);
    let per_member: Vec<String> = commitments[0].per_member.iter().map(|c| hex(c)).collect();
    assert_eq!(
        per_member,
        vec![
            "6f3c7c23e3d6dc7de42854f3d291e751e08c9f98e39f30833e8b6a36c86bf2b9",
            "4209a9d84f743c44e455da6d0d3b981c6c02e9b8fcb0059bee8f2448cbe6189f",
            "0964de9dd80f50a42dc81b3868a1b2a9b5fc12535948ec36d72f871ab6bffea8",
        ]
    );
    assert_eq!(
        hex(setuproot),
        "d38ab7f81ce1f110f20154cfa660c97962f741dfcb6ac06c2c7169d81937f5dd"
    );
}

#[test]
fn pedersen_setup_commits_to_the_summed_polynomials() {
    let mut source = counting();
    let setup = jrss_setup_from(2, 3, 2, ShareCorrectnessProfileKind::Pedersen, &mut source);
    assert_eq!(source.next_scalar(), fr(49));
    let ShareCorrectnessProfile::Pedersen { commitments } = &setup.share_profile else {
        panic!("expected Pedersen commitments");
    };
    assert_eq!(commitments.len(), 2);
    for (slot, c) in commitments.iter().enumerate() {
        assert_eq!(c.coeff_id, slot as u64);
        assert_eq!(c.k1.coeffs.len(), 2);
        for member in &setup.member_shares {
            let s = &member[slot];
            assert!(verify_share(&c.k1, &s.k1_share, &s.k1_blind_share));
            assert!(verify_share(&c.k2, &s.k2_share, &s.k2_blind_share));
            assert!(!verify_share(&c.k1, &s.k2_share, &s.k2_blind_share));
        }
    }
}

#[test]
fn empty_setups() {
    let none = jrss_setup_with_profile(0, 0, 0, ShareCorrectnessProfileKind::Pedersen);
    assert!(none.member_shares.is_empty());
    let no_slots = jrss_setup_with_profile(2, 3, 0, ShareCorrectnessProfileKind::HashCommitted);
    assert_eq!(no_slots.member_shares.len(), 3);
    assert!(no_slots.member_shares.iter().all(|m| m.is_empty()));
    let no_members =
        jrss_setup_with_profile(0, 0, 2, ShareCorrectnessProfileKind::ExternalAvssTranscript);
    assert!(no_members.member_shares.is_empty());
}

#[test]
fn the_authorization_value_is_affine_in_the_shared_coefficients() {
    for kind in KINDS {
        let keys = keys(4);
        let setup = try_jrss_setup_with_profile(3, 4, 2, kind).unwrap();
        let k1: Vec<Share> = (0..3).map(|i| setup.member_shares[i][1].k1_share).collect();
        let k2: Vec<Share> = (0..3).map(|i| setup.member_shares[i][1].k2_share).collect();
        let (k1, k2) = (reconstruct(&k1), reconstruct(&k2));
        let base = policy(3, &keys, setup.share_profile.clone());
        // the scalar, from a coefficient share of one and zero
        let mut probe = setup.member_shares[0][1];
        probe.k1_share.value = fr(1);
        probe.k2_share.value = fr(0);
        let x = approve(&keys[0], &probe, &base, 1, "withdraw", 7, b"withdraw 100").eval_share;
        for members in [vec![1, 2, 3], vec![4, 2, 1], vec![1, 2, 3, 4]] {
            let contributions = approve_all(&keys, &setup, &base, &members, 1);
            let mut p = base.clone();
            let receipt =
                authorize(&mut p, &contributions, 1, "withdraw", 7, b"withdraw 100").unwrap();
            assert_eq!(receipt.sigma, k1 * x + k2);
            assert_eq!(receipt.member_bitmap, members);
            assert_eq!(receipt.coeff_id, 1);
            assert_eq!(
                hex(&receipt.message_hash),
                "1c1c4a2273d243aca8492be7b2c58887db540db797ba824a646aead3a90b77fa"
            );
            assert_eq!(p.consumed_coeffids, vec![1]);
        }
    }
}

#[test]
fn a_refusal_leaves_the_policy_alone() {
    let keys = keys(3);
    let setup = jrss_setup_with_profile(2, 3, 2, ShareCorrectnessProfileKind::HashCommitted);
    let mut p = policy(2, &keys, setup.share_profile.clone());
    p.consumed_coeffids = vec![9];
    let one = approve_all(&keys, &setup, &p, &[1], 0);
    assert!(matches!(
        run(&mut p, &one, 0),
        Err(AuthError::BelowThreshold { have: 1, need: 2 })
    ));
    assert_eq!(p.consumed_coeffids, vec![9]);
    assert!(matches!(run(&mut p, &one, 9), Err(AuthError::CoeffIdConsumed(9))));
    let two = approve_all(&keys, &setup, &p, &[1, 3], 0);
    assert!(run(&mut p, &two, 0).is_ok());
    assert_eq!(p.consumed_coeffids, vec![9, 0]);
    assert!(matches!(run(&mut p, &two, 0), Err(AuthError::CoeffIdConsumed(0))));
    let next = approve_all(&keys, &setup, &p, &[2, 3], 1);
    assert!(run(&mut p, &next, 1).is_ok());
    assert!(matches!(run(&mut p, &two, 0), Err(AuthError::CoeffIdConsumed(0))));
}

#[test]
fn duplicates_come_before_everything_in_the_contributions() {
    let keys = keys(3);
    let setup =
        jrss_setup_with_profile(2, 3, 1, ShareCorrectnessProfileKind::ExternalAvssTranscript);
    let mut p = policy(2, &keys, setup.share_profile.clone());
    let mut c = approve_all(&keys, &setup, &p, &[1, 2, 3, 2, 1], 0);
    c[0].envelope.push(0);
    assert!(matches!(run(&mut p, &c, 0), Err(AuthError::DuplicateMember(2))));
}

#[test]
fn unknown_members_are_refused() {
    let keys = keys(3);
    let setup =
        jrss_setup_with_profile(2, 3, 1, ShareCorrectnessProfileKind::ExternalAvssTranscript);
    let mut p = policy(2, &keys[0..2], setup.share_profile.clone());
    let c = approve_all(&keys, &setup, &p, &[1, 3], 0);
    assert!(matches!(run(&mut p, &c, 0), Err(AuthError::UnknownMember(3))));
    let mut zero = approve_all(&keys, &setup, &p, &[1, 2], 0);
    zero[0].member_index = 0;
    assert!(matches!(run(&mut p, &zero, 0), Err(AuthError::UnknownMember(0))));
}

#[test]
fn the_first_wrong_contribution_decides() {
    let keys = keys(3);
    let setup =
        jrss_setup_with_profile(2, 3, 1, ShareCorrectnessProfileKind::ExternalAvssTranscript);
    let mut p = policy(2, &keys, setup.share_profile.clone());
    let mut c = approve_all(&keys, &setup, &p, &[3, 1, 2], 0);
    c[1].signature = keys[2].signing_key.sign(&c[1].envelope);
    c[2].envelope.push(0);
    assert!(matches!(
        run(&mut p, &c, 0),
        Err(AuthError::InvalidSignature { member_index: 1 })
    ));
    c.swap(1, 2);
    assert!(matches!(
        run(&mut p, &c, 0),
        Err(AuthError::EnvelopeMismatch { member_index: 2 })
    ));
}

#[test]
fn contributions_cannot_be_retargeted() {
    let keys = keys(3);
    let setup =
        jrss_setup_with_profile(2, 3, 2, ShareCorrectnessProfileKind::ExternalAvssTranscript);
    let base = policy(2, &keys, setup.share_profile.clone());
    let c = approve_all(&keys, &setup, &base, &[1, 2], 0);
    let mut p = base.clone();
    let attempts = [
        authorize(&mut p, &c, 1, "withdraw", 7, b"withdraw 100"),
        authorize(&mut p, &c, 0, "deposit", 7, b"withdraw 100"),
        authorize(&mut p, &c, 0, "withdraw", 8, b"withdraw 100"),
        authorize(&mut p, &c, 0, "withdraw", 7, b"withdraw 101"),
    ];
    for a in attempts {
        assert!(matches!(a, Err(AuthError::EnvelopeMismatch { member_index: 1 })));
    }
    let mut other = base.clone();
    other.address = [0xAB; 20];
    assert!(matches!(
        run(&mut other, &c, 0),
        Err(AuthError::EnvelopeMismatch { member_index: 1 })
    ));
    other = base.clone();
    other.policy_id = 2;
    assert!(matches!(
        run(&mut other, &c, 0),
        Err(AuthError::EnvelopeMismatch { member_index: 1 })
    ));
    assert!(run(&mut p, &c, 0).is_ok());
}

#[test]
fn openings_have_to_fit_the_profile() {
    let keys = keys(3);
    for kind in KINDS {
        let setup = jrss_setup_with_profile(2, 3, 1, kind);
        for wrong in KINDS {
            if std::mem::discriminant(&wrong) == std::mem::discriminant(&kind) {
                continue;
            }
            let mut p = policy(2, &keys, setup.share_profile.clone());
            let other = jrss_setup_with_profile(2, 3, 0, wrong);
            let signing = policy(2, &keys, other.share_profile);
            let c = approve_all(&keys, &setup, &signing, &[2, 1], 0);
            assert!(matches!(
                run(&mut p, &c, 0),
                Err(AuthError::InvalidShareOpening { member_index: 2 })
            ));
        }
    }
}

#[test]
fn hash_commitments_have_to_be_there() {
    let keys = keys(3);
    let setup = jrss_setup_with_profile(2, 3, 1, ShareCorrectnessProfileKind::HashCommitted);
    let mut p = policy(2, &keys, setup.share_profile.clone());
    let c = approve_all(&keys, &setup, &p, &[1, 3], 0);
    let ShareCorrectnessProfile::HashCommitted { commitments, setuproot } = &setup.share_profile
    else {
        panic!("expected hash commitments");
    };
    let mut short = commitments.clone();
    short[0].per_member.pop();
    p.share_profile =
        ShareCorrectnessProfile::HashCommitted { commitments: short, setuproot: *setuproot };
    assert!(matches!(run(&mut p, &c, 0), Err(AuthError::UnknownMember(3))));
    p.share_profile =
        ShareCorrectnessProfile::HashCommitted { commitments: vec![], setuproot: *setuproot };
    assert!(matches!(run(&mut p, &c, 0), Err(AuthError::UnknownCommitment(0))));
    // the first list with the identifier counts
    let mut doubled: Vec<HashShareCommitments> =
        vec![HashShareCommitments { coeff_id: 0, per_member: vec![[0; 32]; 3] }];
    doubled.extend(commitments.iter().cloned());
    p.share_profile =
        ShareCorrectnessProfile::HashCommitted { commitments: doubled, setuproot: *setuproot };
    assert!(matches!(
        run(&mut p, &c, 0),
        Err(AuthError::InvalidShareOpening { member_index: 1 })
    ));
}

#[test]
fn malformed_shares_are_corrected_up_to_the_bound() {
    let keys = keys(7);
    let setup =
        jrss_setup_with_profile(3, 7, 1, ShareCorrectnessProfileKind::ExternalAvssTranscript);
    let base = policy(3, &keys, setup.share_profile.clone());
    let honest = approve_all(&keys, &setup, &base, &[1, 2, 3, 4, 5, 6, 7], 0);
    let sigma = run(&mut base.clone(), &honest, 0).unwrap();
    let mut c = honest.clone();
    for (k, expected) in [vec![1, 3, 4, 5, 6, 7], vec![1, 3, 4, 5, 7]].iter().enumerate() {
        let bad = [1usize, 5][k];
        c[bad] = sign_evaluation_share(
            &keys[bad],
            &base,
            bad as u32 + 1,
            0,
            Operation { op_type: "withdraw", nonce: 7, message: b"withdraw 100" },
            honest[bad].eval_share + fr(k as u64 + 1),
            ShareOpening::Absent,
        );
        let mut p = base.clone();
        let receipt = authorize(&mut p, &c, 0, "withdraw", 7, b"withdraw 100").unwrap();
        assert_eq!(receipt.sigma, sigma);
        assert_eq!(&receipt.member_bitmap, expected);
    }
    c[6] = sign_evaluation_share(
        &keys[6],
        &base,
        7,
        0,
        Operation { op_type: "withdraw", nonce: 7, message: b"withdraw 100" },
        honest[6].eval_share + fr(9),
        ShareOpening::Absent,
    );
    assert!(matches!(
        run(&mut base.clone(), &c, 0),
        Err(AuthError::MalformedShares { submitted: 7, threshold: 3, max_correctable: 2 })
    ));
}

#[test]
fn a_zero_threshold_authorizes_nothing() {
    let mut p = policy(0, &[], ShareCorrectnessProfile::ExternalAvssTranscript);
    assert!(matches!(
        run(&mut p, &[], 0),
        Err(AuthError::MalformedShares { submitted: 0, threshold: 0, max_correctable: 0 })
    ));
}

#[test]
fn the_second_generator_is_there() {
    let keys = keys(2);
    let setup = try_jrss_setup_with_profile(1, 2, 1, ShareCorrectnessProfileKind::Pedersen).unwrap();
    let mut p = policy(1, &keys, setup.share_profile.clone());
    let c = approve_all(&keys, &setup, &p, &[2], 0);
    let result = try_authorize(&mut p, &c, 0, "withdraw", 7, b"withdraw 100").unwrap();
    assert_eq!(result.unwrap().member_bitmap, vec![2]);
    let again = try_authorize(&mut p, &c, 0, "withdraw", 7, b"withdraw 100").unwrap();
    assert!(matches!(again, Err(AuthError::CoeffIdConsumed(0))));
}

#[test]
fn shares_are_evaluated_at_the_scalar() {
    let share = coefficient_share();
    let hash = ShareCorrectnessProfile::HashCommitted { commitments: vec![], setuproot: [0; 32] };
    let (eval, opening) = evaluate_share(&share, &hash, fr(100));
    assert_eq!(eval, fr(1113));
    assert!(matches!(
        opening,
        ShareOpening::HashCommitted { k1_share, k2_share }
            if k1_share == fr(11) && k2_share == fr(13)
    ));
    let pedersen = ShareCorrectnessProfile::Pedersen { commitments: vec![] };
    let (eval, opening) = evaluate_share(&share, &pedersen, fr(100));
    assert_eq!(eval, fr(1113));
    assert!(matches!(
        opening,
        ShareOpening::Pedersen { eval_blind } if eval_blind == fr(1719)
    ));
    let transcript = ShareCorrectnessProfile::ExternalAvssTranscript;
    let (eval, opening) = evaluate_share(&share, &transcript, fr(100));
    assert_eq!(eval, fr(1113));
    assert!(matches!(opening, ShareOpening::Absent));
}

#[test]
fn revealed_shares_match_both_ways() {
    let (a, b) = ([1u8; 32], [2u8; 32]);
    assert!(shares_match(&a, &a, fr(11), fr(13), fr(100), fr(1113)));
    assert!(!shares_match(&a, &b, fr(11), fr(13), fr(100), fr(1113)));
    assert!(!shares_match(&a, &a, fr(11), fr(13), fr(100), fr(1114)));
}

fn unsigned(member_index: u32, eval_share: Fr, m_par_n: Fr) -> Contribution {
    let opening = ShareOpening::Absent;
    let envelope = build_envelope(&[0xAA; 20], 1, 3, member_index, m_par_n, eval_share, &opening);
    Contribution {
        member_index,
        eval_share,
        opening,
        envelope,
        signature: Signature { bytes: [0; 64] },
    }
}

#[test]
fn envelopes_are_checked_for_the_canonical_message() {
    let keys = keys(2);
    let p = policy(2, &keys, ShareCorrectnessProfile::ExternalAvssTranscript);
    let c = unsigned(2, fr(5), fr(77));
    assert_eq!(c.envelope.len(), 118);
    assert!(check_envelope(&p, &c, 3, fr(77)).is_ok());
    assert!(matches!(
        check_envelope(&p, &c, 3, fr(78)),
        Err(AuthError::EnvelopeMismatch { member_index: 2 })
    ));
    assert!(matches!(
        check_envelope(&p, &c, 4, fr(77)),
        Err(AuthError::EnvelopeMismatch { member_index: 2 })
    ));
    let outsider = unsigned(3, fr(5), fr(77));
    assert!(matches!(
        check_envelope(&p, &outsider, 3, fr(77)),
        Err(AuthError::UnknownMember(3))
    ));
}

#[test]
fn settling_decodes_and_consumes() {
    let mut p = policy(2, &[], ShareCorrectnessProfile::ExternalAvssTranscript);
    // 10 + 3 x at 1, 2, 4 and a malformed share at 5
    let c: Vec<Contribution> = [(1, 13), (2, 16), (4, 22), (5, 26)]
        .iter()
        .map(|(i, v)| unsigned(*i, fr(*v), fr(77)))
        .collect();
    assert!(matches!(
        settle(&mut p, &c[0..1], 3, [9; 32]),
        Err(AuthError::BelowThreshold { have: 1, need: 2 })
    ));
    assert!(p.consumed_coeffids.is_empty());
    let receipt = settle(&mut p, &c, 3, [9; 32]).unwrap();
    assert_eq!(receipt.sigma, fr(10));
    assert_eq!(receipt.coeff_id, 3);
    assert_eq!(receipt.message_hash, [9; 32]);
    assert_eq!(receipt.member_bitmap, vec![1, 2, 4]);
    assert_eq!(p.consumed_coeffids, vec![3]);
    assert!(matches!(
        settle(&mut p, &c[1..4], 4, [9; 32]),
        Err(AuthError::MalformedShares { submitted: 3, threshold: 2, max_correctable: 0 })
    ));
    assert_eq!(p.consumed_coeffids, vec![3]);
}

#[test]
fn pedersen_openings_cannot_be_changed_in_one_place() {
    let mut source = counting();
    let setup = jrss_setup_from(2, 3, 1, ShareCorrectnessProfileKind::Pedersen, &mut source);
    let x = fr(1000);
    let (eval, opening) = evaluate_share(&setup.member_shares[1][0], &setup.share_profile, x);
    let mut c = unsigned(2, eval, fr(77));
    c.opening = opening;
    assert!(verify_share_opening(&setup.share_profile, 0, x, &c).is_ok());
    let ShareOpening::Pedersen { eval_blind } = opening else {
        panic!("expected a Pedersen opening");
    };
    let mut share = c.clone();
    share.eval_share = eval + fr(123);
    let mut blind = c.clone();
    blind.opening = ShareOpening::Pedersen { eval_blind: eval_blind + fr(456) };
    for changed in [share, blind] {
        assert!(matches!(
            verify_share_opening(&setup.share_profile, 0, x, &changed),
            Err(AuthError::InvalidShareOpening { member_index: 2 })
        ));
    }
}

#[test]
fn honest_openings_are_accepted_under_every_profile() {
    for kind in KINDS {
        let setup = jrss_setup_with_profile(2, 3, 2, kind);
        for i in 0..3usize {
            let x = fr(17);
            let share = &setup.member_shares[i][1];
            let (eval, opening) = evaluate_share(share, &setup.share_profile, x);
            let mut c = unsigned(i as u32 + 1, eval, fr(77));
            c.opening = opening;
            assert!(verify_share_opening(&setup.share_profile, 1, x, &c).is_ok());
            assert!(verify_share_opening(&setup.share_profile, 1, fr(18), &c).is_err()
                || matches!(kind, ShareCorrectnessProfileKind::ExternalAvssTranscript));
        }
    }
}

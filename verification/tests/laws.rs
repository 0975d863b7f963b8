use dual_gate_demo::field::Fr;
use dual_gate_demo::protocol::{
    approve, generate_member_key, jrss_setup_from, CoefficientShare, Contribution, CustodyPolicy,
    ShareCorrectnessProfile, ShareCorrectnessProfileKind,
};
use dual_gate_demo::random::{OsScalars, PreparedScalars, ScalarSource};
use dual_gate_demo::shamir::{eval_poly, reconstruct, shares_from_coefficients, Share};

fn fr(v: u64) -> Fr {
    Fr::from(v)
}

fn evaluate(k1: Fr, k2: Fr, nonce: u64) -> Contribution {
    let policy = CustodyPolicy {
        address: [1; 20],
        policy_id: 5,
        threshold: 1,
        member_keys: vec![],
        share_profile: ShareCorrectnessProfile::ExternalAvssTranscript,
        consumed_coeffids: vec![],
    };
    let share = |value| Share { index: 1, value };
    let coefficients = CoefficientShare {
        coeff_id: 0,
        k1_share: share(k1),
        k2_share: share(k2),
        k1_blind_share: share(fr(0)),
        k2_blind_share: share(fr(0)),
    };
    let key = generate_member_key();
    approve(&key, &coefficients, &policy, 1, "pay", nonce, b"message")
}

fn scalar(nonce: u64) -> Fr {
    evaluate(fr(1), fr(0), nonce).eval_share
}

#[test]
fn values_at_two_scalars_are_independent() {
    let (x, y) = (scalar(0), scalar(1));
    assert_ne!(x, y);
    let sigma = OsScalars::new().next_scalar();
    for tau in [fr(0), fr(1), sigma, OsScalars::new().next_scalar()] {
        // the one pair of coefficients that gives both values
        let k1 = (sigma - tau) * (x - y).inverse().unwrap();
        let k2 = sigma - k1 * x;
        assert_eq!(evaluate(k1, k2, 0).eval_share, sigma);
        assert_eq!(evaluate(k1, k2, 1).eval_share, tau);
    }
}

#[test]
fn different_scalars_give_different_values() {
    assert_ne!(
        evaluate(fr(3), fr(4), 0).eval_share,
        evaluate(fr(3), fr(4), 1).eval_share
    );
    assert_eq!(
        evaluate(fr(0), fr(4), 0).eval_share,
        evaluate(fr(0), fr(4), 1).eval_share
    );
}

#[test]
fn an_evaluation_goes_with_every_first_coefficient() {
    let x = scalar(0);
    let sigma = fr(99);
    for k1 in [fr(0), fr(1), OsScalars::new().next_scalar()] {
        let k2 = sigma - k1 * x;
        assert_eq!(evaluate(k1, k2, 0).eval_share, sigma);
    }
}

#[test]
fn evaluation_shares_lie_on_the_combined_polynomial() {
    let x = scalar(0);
    let (k1, k2) = ([fr(3), fr(5)], [fr(7), fr(11)]);
    let combined = [fr(3) * x + fr(7), fr(5) * x + fr(11)];
    for i in 1..4 {
        let z = fr(i);
        let share = evaluate(eval_poly(&k1, z), eval_poly(&k2, z), 0).eval_share;
        assert_eq!(share, eval_poly(&combined, z));
    }
}

#[test]
fn one_dealer_moves_the_sum_anywhere() {
    // two dealers, threshold one: the constant terms add up
    for target in [0u64, 1, 1000] {
        let first = OsScalars::new().next_scalar();
        let second = fr(target) - first;
        let blind = fr(1);
        let mut draws = PreparedScalars::new(vec![
            first, fr(2), blind, blind, second, fr(3), blind, blind,
        ]);
        let setup = jrss_setup_from(
            1,
            2,
            1,
            ShareCorrectnessProfileKind::ExternalAvssTranscript,
            &mut draws,
        );
        assert_eq!(setup.member_shares[0][0].k1_share.value, fr(target));
        assert_eq!(setup.member_shares[1][0].k1_share.value, fr(target));
        assert_eq!(setup.member_shares[1][0].k2_share.value, fr(5));
    }
}

#[test]
fn the_root_changes_with_every_commitment() {
    let root = |values: Vec<u64>| {
        let mut draws = PreparedScalars::new(values.into_iter().map(Fr::from).collect());
        let setup =
            jrss_setup_from(1, 1, 2, ShareCorrectnessProfileKind::HashCommitted, &mut draws);
        match setup.share_profile {
            ShareCorrectnessProfile::HashCommitted { setuproot, .. } => setuproot,
            _ => panic!("expected hash commitments"),
        }
    };
    let base = root(vec![1, 2, 0, 0, 3, 4, 0, 0]);
    assert_eq!(base, root(vec![1, 2, 9, 9, 3, 4, 9, 9]));
    assert_ne!(base, root(vec![2, 2, 0, 0, 3, 4, 0, 0]));
    assert_ne!(base, root(vec![1, 3, 0, 0, 3, 4, 0, 0]));
    assert_ne!(base, root(vec![1, 2, 0, 0, 3, 5, 0, 0]));
    assert_ne!(base, root(vec![3, 4, 0, 0, 1, 2, 0, 0]));
}

#[test]
fn dealings_of_two_secrets_look_alike_below_the_threshold() {
    // adding a multiple of (x - 1)(x - 2) moves the secret and keeps two shares
    let p = [fr(40), fr(5), fr(6)];
    let shifted = [fr(40) + fr(2), fr(5) - fr(3), fr(6) + fr(1)];
    let (a, b) = (shares_from_coefficients(&p, 3), shares_from_coefficients(&shifted, 3));
    assert_eq!(a[0].value, b[0].value);
    assert_eq!(a[1].value, b[1].value);
    assert_ne!(a[2].value, b[2].value);
    assert_eq!(reconstruct(&a), fr(40));
    assert_eq!(reconstruct(&b), fr(42));
}

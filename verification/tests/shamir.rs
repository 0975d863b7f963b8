use dual_gate_demo::field::Fr;
use dual_gate_demo::random::{OsScalars, PreparedScalars, ScalarSource};
use dual_gate_demo::shamir::{
    eval_poly, random_polynomial, reconstruct, reconstruct_robust, shares_from_coefficients, split,
    RobustReconstruction, Share,
};

#[test]
fn roundtrip_2_of_3() {
    let secret = Fr::from(42u64);
    let shares = split(secret, 2, 3, &mut OsScalars::new());
    assert_eq!(shares.len(), 3);

    // Any 2 shares reconstruct the secret
    assert_eq!(reconstruct(&shares[0..2]), secret);
    assert_eq!(reconstruct(&shares[1..3]), secret);
    assert_eq!(reconstruct(&[shares[0].clone(), shares[2].clone()]), secret);
}

#[test]
fn roundtrip_3_of_5() {
    let secret = OsScalars::new().next_scalar();
    let shares = split(secret, 3, 5, &mut OsScalars::new());

    assert_eq!(reconstruct(&shares[0..3]), secret);
    assert_eq!(reconstruct(&shares[2..5]), secret);
    assert_eq!(
        reconstruct(&[shares[0].clone(), shares[2].clone(), shares[4].clone()]),
        secret
    );
}

#[test]
fn below_threshold_gives_wrong_value() {
    let secret = Fr::from(99u64);
    let shares = split(secret, 3, 5, &mut OsScalars::new());
    // Only 2 shares for a t=3 scheme — should NOT reconstruct correctly
    let wrong = reconstruct(&shares[0..2]);
    assert_ne!(wrong, secret);
}

#[test]
fn robust_reconstruction_corrects_one_bad_share() {
    let secret = Fr::from(1234u64);
    let mut shares = split(secret, 3, 5, &mut OsScalars::new());
    shares[4].value = shares[4].value + Fr::from(99u64);

    let decoded = reconstruct_robust(&shares, 3).unwrap();

    assert_eq!(decoded.secret, secret);
    assert_eq!(decoded.corrected_errors, 1);
    assert_eq!(decoded.accepted_indices, vec![1, 2, 3, 4]);
}

#[test]
fn robust_reconstruction_rejects_too_many_bad_shares() {
    let secret = Fr::from(1234u64);
    let mut shares = split(secret, 3, 5, &mut OsScalars::new());
    shares[3].value = shares[3].value + Fr::from(99u64);
    shares[4].value = shares[4].value + Fr::from(100u64);

    assert!(reconstruct_robust(&shares, 3).is_none());
}

/// Hands out the numbers from one on.
fn counting() -> PreparedScalars {
    PreparedScalars::new((1..100u64).map(Fr::from).collect())
}

#[test]
fn polynomials_take_their_coefficients_from_the_source() {
    let mut source = counting();
    let coeffs = random_polynomial(Fr::from(100u64), 3, &mut source);
    assert_eq!(coeffs, vec![Fr::from(100u64), Fr::from(1u64), Fr::from(2u64)]);
    let constant = random_polynomial(Fr::from(5u64), 1, &mut source);
    assert_eq!(constant, vec![Fr::from(5u64)]);
    assert_eq!(source.next_scalar(), Fr::from(3u64));
}

#[test]
fn split_evaluates_the_polynomial() {
    // 100 + x + 2 x^2
    let shares = split(Fr::from(100u64), 3, 4, &mut counting());
    let indices: Vec<u32> = shares.iter().map(|s| s.index).collect();
    let values: Vec<Fr> = shares.iter().map(|s| s.value).collect();
    assert_eq!(indices, vec![1, 2, 3, 4]);
    assert_eq!(
        values,
        vec![
            Fr::from(103u64),
            Fr::from(110u64),
            Fr::from(121u64),
            Fr::from(136u64)
        ]
    );
}

#[test]
fn polynomials_are_evaluated_from_the_constant_term() {
    let coeffs = [Fr::from(1u64), Fr::from(2u64), Fr::from(3u64)];
    assert_eq!(eval_poly(&coeffs, Fr::from(10u64)), Fr::from(321u64));
    assert_eq!(eval_poly(&coeffs, Fr::zero()), Fr::from(1u64));
    assert_eq!(eval_poly(&[], Fr::from(10u64)), Fr::zero());
}

#[test]
fn no_members_no_shares() {
    assert!(shares_from_coefficients(&[Fr::from(1u64)], 0).is_empty());
}

#[test]
fn reconstruction_interpolates_at_zero() {
    // the line through (2, 7) and (5, 13) meets zero at 3
    let shares = [
        Share { index: 2, value: Fr::from(7u64) },
        Share { index: 5, value: Fr::from(13u64) },
    ];
    assert_eq!(reconstruct(&shares), Fr::from(3u64));
    assert_eq!(reconstruct(&[]), Fr::zero());
    assert_eq!(reconstruct(&shares[0..1]), Fr::from(7u64));
}

#[test]
fn every_quorum_reconstructs_the_secret() {
    let secret = OsScalars::new().next_scalar();
    let shares = split(secret, 3, 6, &mut OsScalars::new());
    for a in 0..6 {
        for b in (a + 1)..6 {
            for c in (b + 1)..6 {
                assert_eq!(reconstruct(&[shares[c], shares[a], shares[b]]), secret);
            }
        }
    }
    assert_eq!(reconstruct(&shares), secret);
}

#[test]
fn one_share_less_fits_every_secret() {
    let shares = split(Fr::from(77u64), 3, 2, &mut OsScalars::new());
    for guess in 0..5u64 {
        // a third share that makes the guess the secret
        let mut all = vec![Share { index: 3, value: Fr::zero() }, shares[0], shares[1]];
        let base = reconstruct(&all);
        all[0].value = Fr::from(1u64);
        let slope = reconstruct(&all) - base;
        all[0].value = (Fr::from(guess) - base) * slope.inverse().unwrap();
        assert_eq!(reconstruct(&all), Fr::from(guess));
    }
}

#[test]
fn robust_reconstruction_corrects_as_many_errors_as_it_can() {
    let secret = Fr::from(5u64);
    let mut shares = split(secret, 2, 8, &mut OsScalars::new());
    for (k, i) in [0usize, 3, 6].iter().enumerate() {
        shares[*i].value = shares[*i].value + Fr::from(k as u64 + 1);
    }
    let decoded = reconstruct_robust(&shares, 2).unwrap();
    assert_eq!(
        decoded,
        RobustReconstruction {
            secret,
            accepted_indices: vec![2, 3, 5, 6, 8],
            corrected_errors: 3,
        }
    );
}

#[test]
fn robust_reconstruction_without_errors() {
    let shares = split(Fr::from(5u64), 3, 5, &mut OsScalars::new());
    for m in 3..=5 {
        let decoded = reconstruct_robust(&shares[0..m], 3).unwrap();
        assert_eq!(decoded.secret, Fr::from(5u64));
        assert_eq!(decoded.corrected_errors, 0);
        assert_eq!(decoded.accepted_indices.len(), m);
    }
}

#[test]
fn robust_reconstruction_needs_a_threshold_of_shares() {
    let shares = split(Fr::from(5u64), 3, 5, &mut OsScalars::new());
    assert!(reconstruct_robust(&shares[0..2], 3).is_none());
    assert!(reconstruct_robust(&shares, 0).is_none());
    assert!(reconstruct_robust(&[], 0).is_none());
}

#[test]
fn robust_reconstruction_of_repeated_shares() {
    let share = Share { index: 1, value: Fr::from(4u64) };
    // one point repeated does not determine a line
    assert!(reconstruct_robust(&[share, share], 2).is_none());
    // but it does determine a constant
    let decoded = reconstruct_robust(&[share, share], 1).unwrap();
    assert_eq!(decoded.secret, Fr::from(4u64));
    assert_eq!(decoded.accepted_indices, vec![1, 1]);
    // two values at one point agree on none
    let other = Share { index: 1, value: Fr::from(5u64) };
    assert!(reconstruct_robust(&[share, other], 1).is_none());
}

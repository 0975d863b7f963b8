use dual_gate_demo::curve::Projective;
use dual_gate_demo::field::Fr;
use dual_gate_demo::pedersen::{
    aggregate_commitments, commit_polynomial, commit_value, commit_value_with,
    evaluate_commitment, h_generator, has_generator,
    verify_evaluation_share, verify_evaluation_share_with, verify_share, verify_share_with,
    PedersenPolyCommitment,
};
use dual_gate_demo::shamir::{eval_poly, shares_from_coefficients, Share};

fn fr(v: u64) -> Fr {
    Fr::from(v)
}

fn poly(values: &[u64]) -> Vec<Fr> {
    values.iter().map(|v| Fr::from(*v)).collect()
}

/// SHA-256 of "dual-gate-demo-pedersen-h" followed by four zero bytes.
fn h() -> Projective {
    let digest: [u8; 32] = [
        0x26, 0xf0, 0x86, 0x11, 0x9d, 0xa0, 0x1b, 0xbc, 0xb0, 0x9d, 0x67, 0x04, 0x68, 0x9f, 0x8f,
        0x22, 0x71, 0x37, 0x83, 0x7c, 0xf3, 0x61, 0xad, 0x18, 0x17, 0x3b, 0x3c, 0x9e, 0x1e, 0xc1,
        0x22, 0x97,
    ];
    Projective::lift_be_bytes(&digest).unwrap()
}

#[test]
fn the_curve_is_a_group() {
    let g = Projective::generator();
    let zero = Projective::zero();
    assert_eq!(g + zero, g);
    assert_eq!(g + g, g.times(fr(2)));
    assert_eq!(g.times(fr(3)) + g.times(fr(4)), g.times(fr(7)));
    assert_eq!(g.times(Fr::zero()), zero);
    assert_eq!(g.times(Fr::zero() - fr(1)) + g, zero);
    assert_eq!(zero.times(fr(5)), zero);
    assert_eq!(g.times(fr(6)).times(fr(7)), g.times(fr(42)));
    assert_ne!(g, zero);
    assert_ne!(g, g + g);
}

#[test]
fn points_are_lifted_from_their_first_coordinate() {
    // the first coordinate of the generator, whose second one is the smaller root
    let x: [u8; 32] = [
        0x79, 0xbe, 0x66, 0x7e, 0xf9, 0xdc, 0xbb, 0xac, 0x55, 0xa0, 0x62, 0x95, 0xce, 0x87, 0x0b,
        0x07, 0x02, 0x9b, 0xfc, 0xdb, 0x2d, 0xce, 0x28, 0xd9, 0x59, 0xf2, 0x81, 0x5b, 0x16, 0xf8,
        0x17, 0x98,
    ];
    assert_eq!(Projective::lift_be_bytes(&x), Some(Projective::generator()));
    assert!(Projective::lift_be_bytes(&[4]).is_some());
    assert!(Projective::lift_be_bytes(&[5]).is_none());
}

#[test]
fn commitments_combine_two_generators() {
    assert!(has_generator());
    let c = commit_polynomial(&poly(&[3, 5]), &poly(&[7, 11]));
    let g = Projective::generator();
    assert_eq!(
        c.coeffs,
        vec![
            g.times(fr(3)) + h().times(fr(7)),
            g.times(fr(5)) + h().times(fr(11)),
        ]
    );
    assert!(commit_polynomial(&[], &[]).coeffs.is_empty());
}

#[test]
fn dealt_shares_verify() {
    let (values, blinds) = (poly(&[3, 5, 8]), poly(&[7, 11, 13]));
    let commitment = commit_polynomial(&values, &blinds);
    let shares = shares_from_coefficients(&values, 4);
    let blind_shares = shares_from_coefficients(&blinds, 4);
    for i in 0..4 {
        assert!(verify_share(&commitment, &shares[i], &blind_shares[i]));
    }
    assert!(!verify_share(&commitment, &shares[0], &blind_shares[1]));
    let wrong = Share { index: 1, value: shares[0].value + fr(1) };
    assert!(!verify_share(&commitment, &wrong, &blind_shares[0]));
    let moved = Share { index: 2, value: shares[0].value };
    let moved_blind = Share { index: 2, value: blind_shares[0].value };
    assert!(!verify_share(&commitment, &moved, &moved_blind));
}

#[test]
fn commitments_are_homomorphic() {
    let a = commit_polynomial(&poly(&[1, 2]), &poly(&[3, 4]));
    let b = commit_polynomial(&poly(&[10, 20]), &poly(&[30, 40]));
    let c = commit_polynomial(&poly(&[100, 200]), &poly(&[300, 400]));
    let sum = aggregate_commitments(&[a.clone(), b, c]);
    assert_eq!(
        sum.coeffs,
        commit_polynomial(&poly(&[111, 222]), &poly(&[333, 444])).coeffs
    );
    assert_eq!(aggregate_commitments(&[a.clone()]).coeffs, a.coeffs);
}

#[test]
fn evaluation_shares_verify() {
    let (k1, b1) = (poly(&[3, 5]), poly(&[7, 11]));
    let (k2, b2) = (poly(&[13, 17]), poly(&[19, 23]));
    let c1 = commit_polynomial(&k1, &b1);
    let c2 = commit_polynomial(&k2, &b2);
    let x = fr(1000);
    // at index 2: 13 * x + 47 and 29 * x + 65
    let share = fr(13) * x + fr(47);
    let blind = fr(29) * x + fr(65);
    assert!(verify_evaluation_share(&c1, &c2, 2, x, share, blind));
    assert!(!verify_evaluation_share(&c1, &c2, 3, x, share, blind));
    assert!(!verify_evaluation_share(&c1, &c2, 2, fr(999), share, blind));
    assert!(!verify_evaluation_share(&c1, &c2, 2, x, share + fr(1), blind));
    assert!(!verify_evaluation_share(&c1, &c2, 2, x, share, blind + fr(1)));
    assert!(!verify_evaluation_share(&c2, &c1, 2, x, share, blind));
}

#[test]
fn opening_with_the_logarithm_of_the_second_generator() {
    // without its logarithm the blinding factor cannot make up for the value
    let one = commit_polynomial(&poly(&[1]), &poly(&[0]));
    let other = commit_polynomial(&poly(&[0]), &poly(&[1]));
    assert_ne!(one.coeffs[0], other.coeffs[0]);
    assert_eq!(one.coeffs[0], Projective::generator());
    assert_eq!(other.coeffs[0], h());
}

#[test]
fn an_empty_commitment_opens_to_zero() {
    let empty = PedersenPolyCommitment { coeffs: vec![] };
    let zero = Share { index: 1, value: Fr::zero() };
    let one = Share { index: 1, value: fr(1) };
    assert!(verify_share(&empty, &zero, &zero));
    assert!(!verify_share(&empty, &one, &zero));
}

#[test]
fn other_second_generators() {
    let g = Projective::generator();
    // with three times the generator in the place of the second one
    let three = g.times(fr(3));
    assert_eq!(commit_value_with(three, fr(4), fr(5)), g.times(fr(19)));
    let commitment = PedersenPolyCommitment { coeffs: vec![g.times(fr(19)), g.times(fr(2))] };
    let value = Share { index: 1, value: fr(12) };
    let blind = Share { index: 1, value: fr(3) };
    assert!(verify_share_with(three, &commitment, &value, &blind));
    assert!(!verify_share_with(g, &commitment, &value, &blind));
    let elsewhere = Share { index: 2, value: fr(3) };
    assert!(!verify_share_with(three, &commitment, &value, &elsewhere));
    // 21 * 10 + 21 = 231 = 201 + 3 * 10
    assert!(verify_evaluation_share_with(
        three,
        &commitment,
        &commitment,
        1,
        fr(10),
        fr(201),
        fr(10)
    ));
    assert!(!verify_evaluation_share_with(
        three,
        &commitment,
        &commitment,
        1,
        fr(10),
        fr(202),
        fr(10)
    ));
}

#[test]
fn the_second_generator_is_the_point_over_the_first_digest() {
    assert_eq!(h_generator(), h());
    assert_eq!(h_generator(), h_generator());
    assert_ne!(h_generator(), Projective::zero());
    assert_ne!(h_generator(), Projective::generator());
}

#[test]
fn evaluating_a_commitment_commits_to_the_evaluation() {
    let (values, blinds) = (poly(&[3, 5, 8]), poly(&[7, 11, 13]));
    let commitment = commit_polynomial(&values, &blinds);
    for i in [0u32, 1, 2, 77] {
        let x = fr(i as u64);
        assert_eq!(
            evaluate_commitment(&commitment, i),
            commit_value(eval_poly(&values, x), eval_poly(&blinds, x))
        );
    }
    let empty = PedersenPolyCommitment { coeffs: vec![] };
    assert_eq!(evaluate_commitment(&empty, 5), Projective::zero());
}

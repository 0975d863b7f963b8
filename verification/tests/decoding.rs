use dual_gate_demo::decoding::{berlekamp_welch, divide_exact};
use dual_gate_demo::field::Fr;
use dual_gate_demo::linear::solve_linear_system;
use dual_gate_demo::shamir::{shares_from_coefficients, Share};

fn fr(v: u64) -> Fr {
    Fr::from(v)
}

fn row(values: &[u64]) -> Vec<Fr> {
    values.iter().map(|v| Fr::from(*v)).collect()
}

#[test]
fn a_unique_solution_is_found() {
    // x + y = 5, x - y = 1 with a zero pivot first
    let rows = vec![
        vec![fr(0), fr(1), fr(2)],
        vec![fr(1), fr(1), fr(5)],
        vec![fr(2), fr(2), fr(10)],
    ];
    assert_eq!(solve_linear_system(rows, 2), Some(row(&[3, 2])));
}

#[test]
fn an_inconsistent_system_has_no_solution() {
    let rows = vec![row(&[1, 1, 5]), row(&[1, 1, 6])];
    assert_eq!(solve_linear_system(rows, 2), None);
}

#[test]
fn an_underdetermined_system_has_no_single_solution() {
    let rows = vec![row(&[1, 1, 5]), row(&[2, 2, 10])];
    assert_eq!(solve_linear_system(rows, 2), None);
    assert_eq!(solve_linear_system(vec![], 1), None);
}

#[test]
fn a_system_without_unknowns() {
    assert_eq!(solve_linear_system(vec![row(&[0])], 0), Some(vec![]));
    assert_eq!(solve_linear_system(vec![row(&[1])], 0), None);
}

#[test]
fn exact_division() {
    // (2 + 3x)(5 + 7x) = 10 + 29x + 21x^2
    let product = row(&[10, 29, 21]);
    assert_eq!(divide_exact(&product, &row(&[2, 3]), 2), Some(row(&[5, 7])));
    assert_eq!(divide_exact(&product, &row(&[2, 4]), 2), None);
    assert_eq!(divide_exact(&product, &row(&[2, 0]), 2), None);
    assert_eq!(divide_exact(&product, &row(&[10, 29, 21]), 1), Some(row(&[1])));
    assert_eq!(divide_exact(&product, &[], 4), None);
    assert_eq!(divide_exact(&row(&[1]), &row(&[1, 1]), 0), None);
}

#[test]
fn decoding_with_the_right_number_of_errors() {
    let coeffs = row(&[9, 8, 7]);
    let mut shares = shares_from_coefficients(&coeffs, 7);
    assert_eq!(berlekamp_welch(&shares, 3, 0), Some(coeffs.clone()));
    // more errors assumed than there are: the locator is not determined
    assert_eq!(berlekamp_welch(&shares, 3, 1), None);
    shares[1].value = shares[1].value + fr(1);
    shares[4].value = shares[4].value + fr(2);
    assert_eq!(berlekamp_welch(&shares, 3, 0), None);
    assert_eq!(berlekamp_welch(&shares, 3, 1), None);
    assert_eq!(berlekamp_welch(&shares, 3, 2), Some(coeffs));
}

#[test]
fn a_constant_polynomial_decodes() {
    let shares: Vec<Share> = (1..=3).map(|index| Share { index, value: fr(4) }).collect();
    assert_eq!(berlekamp_welch(&shares, 1, 0), Some(row(&[4])));
}

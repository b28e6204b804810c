use rustimizer::vector::index_of_best_vector;
use rustimizer::vector::l2_norm;
use rustimizer::vector::l2_norm_vectors;

const SQRT2: f64 = std::f64::consts::SQRT_2;

fn bits(xs: &[f64]) -> Vec<u64> {
    xs.iter().map(|x| x.to_bits()).collect()
}

fn matrix_bits(rows: &[&[f64]]) -> Vec<Vec<u64>> {
    rows.iter().map(|r| bits(r)).collect()
}

fn floats(bs: &Vec<u64>) -> Vec<f64> {
    bs.iter().map(|b| f64::from_bits(*b)).collect()
}

#[test]
fn l2_norm_single_value_zero() {
    let v = bits(&[0.]);
    assert_eq!(f64::from_bits(l2_norm(&v)), 0.);
}

#[test]
fn l2_norm_single_value_exact() {
    let v = bits(&[2.]);
    assert_eq!(f64::from_bits(l2_norm(&v)), 2.);
}

#[test]
fn l2_norm_vector2_ones() {
    let v = bits(&[1., 1.]);
    assert_eq!(f64::from_bits(l2_norm(&v)), SQRT2);
}

#[test]
fn l2_norm_vector_zeros() {
    let v = bits(&[0., 0., 0., 0., 0.]);
    assert_eq!(f64::from_bits(l2_norm(&v)), 0.);
}

#[test]
fn l2_norm_vector_ones() {
    let v = bits(&[1., 1., 1., 1., 1.]);
    assert_eq!(f64::from_bits(l2_norm(&v)), (5.0_f64).sqrt());
}

#[test]
fn best_vector_from_matrix_success_1() {
    let m = matrix_bits(&[&[1., 1.], &[0., 0.], &[1., 0.], &[0., 1.]]);
    assert_eq!(floats(&l2_norm_vectors(&m)), vec![SQRT2, 0., 1., 1.]);
    assert_eq!(index_of_best_vector(&m), 1);
}

#[test]
fn best_vector_from_matrix_success_2() {
    let m = matrix_bits(&[&[1., 1.], &[2., 0.], &[1., 0.], &[0., 2.]]);
    assert_eq!(floats(&l2_norm_vectors(&m)), vec![SQRT2, 2., 1., 2.]);
    assert_eq!(index_of_best_vector(&m), 2);
}

#[test]
fn best_vector_from_matrix_success_3() {
    let sqrt3: f64 = (3.0_f64).sqrt();
    let m = matrix_bits(&[&[1., 1., 1.], &[2., 0., 0.], &[1., 0., 1.], &[1., 0., 1.]]);
    assert_eq!(floats(&l2_norm_vectors(&m)), vec![sqrt3, 2., SQRT2, SQRT2]);
    assert_eq!(index_of_best_vector(&m), 2);
}

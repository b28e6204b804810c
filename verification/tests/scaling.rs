use rustimizer::variables::Values;
use rustimizer::variables::scaling::autorescale_vector;
use rustimizer::variables::scaling::rescale_and_invert_vector;
use rustimizer::variables::scaling::rescale_vector;

fn bits(xs: &[f64]) -> Vec<u64> {
    xs.iter().map(|x| x.to_bits()).collect()
}

fn floats(bs: &Vec<u64>) -> Vec<f64> {
    bs.iter().map(|b| f64::from_bits(*b)).collect()
}

// Tolerant comparison: equal within machine epsilon, or within 4 units in
// the last place.
fn ulps_eq(a: f64, b: f64) -> bool {
    if (a - b).abs() <= f64::EPSILON {
        return true;
    }
    if a.signum() != b.signum() {
        return false;
    }
    let ia = a.to_bits() as i64;
    let ib = b.to_bits() as i64;
    (ia - ib).abs() <= 4
}

fn assert_ulps_eq_vec(actual: &Vec<f64>, expected: &Vec<f64>) {
    assert_eq!(actual.len(), expected.len());
    for k in 0..actual.len() {
        assert!(
            ulps_eq(actual[k], expected[k]),
            "entry {}: {} vs {}",
            k,
            actual[k],
            expected[k]
        );
    }
}

#[test]
fn rescale_vector_pos_already_scaled() {
    let v = Values::try_from(bits(&[0., 0.5, 1.])).unwrap();
    let scaled = rescale_vector(v.values(), 0f64.to_bits(), 1f64.to_bits());
    assert_ulps_eq_vec(&floats(&scaled), &floats(v.values()));
    let auto = autorescale_vector(&v, false);
    assert_ulps_eq_vec(&floats(auto.values()), &floats(v.values()));
}

#[test]
fn rescale_vector_pos_scaling() {
    let v = Values::try_from(bits(&[1., 6., 11.])).unwrap();
    let expected_scaled = vec![0., 0.5, 1.];
    let scaled = rescale_vector(v.values(), 1f64.to_bits(), 0.1f64.to_bits());
    assert_ulps_eq_vec(&floats(&scaled), &expected_scaled);
    let auto = autorescale_vector(&v, false);
    assert_ulps_eq_vec(&floats(auto.values()), &expected_scaled);
}

#[test]
fn rescale_vector_neg_scaling() {
    let v = Values::try_from(bits(&[-3., -2., -1.])).unwrap();
    let expected_scaled = vec![0., 0.5, 1.];
    let scaled = rescale_vector(v.values(), (-3f64).to_bits(), 0.5f64.to_bits());
    assert_ulps_eq_vec(&floats(&scaled), &expected_scaled);
    let auto = autorescale_vector(&v, false);
    assert_ulps_eq_vec(&floats(auto.values()), &expected_scaled);
}

#[test]
fn rescale_vector_scaling() {
    let v = Values::try_from(bits(&[0., 1., 6., 11., 12.])).unwrap();
    let scaled = rescale_vector(v.values(), 1f64.to_bits(), 0.1f64.to_bits());
    assert_ulps_eq_vec(&floats(&scaled), &vec![-0.1, 0., 0.5, 1., 1.1]);
    let auto = autorescale_vector(&v, false);
    assert_ulps_eq_vec(
        &floats(auto.values()),
        &vec![0., 0.08333333333333333, 0.5, 0.9166666666666666, 1.],
    );
}

#[test]
fn rescale_and_invert_vector_full() {
    let v = Values::try_from(bits(&[0., 1., 6., 11., 12.])).unwrap();
    let scaled = rescale_and_invert_vector(v.values(), 1f64.to_bits(), 0.1f64.to_bits());
    assert_ulps_eq_vec(&floats(&scaled), &vec![1.1, 1., 0.5, 0., -0.1]);
    let auto = autorescale_vector(&v, true);
    assert_ulps_eq_vec(
        &floats(auto.values()),
        &vec![1., 0.9166666666666666, 0.5, 0.08333333333333337, 0.],
    );
}

#[test]
fn autorescale_hits_bounds_exactly() {
    let v = Values::try_from(bits(&[3., 49.5, 0.25, 17.])).unwrap();
    let direct = floats(autorescale_vector(&v, false).values());
    assert_eq!(direct[2], 0.0);
    assert_eq!(direct[1], 1.0);
    for x in &direct {
        assert!((0.0..=1.0).contains(x));
    }
    let inverted = floats(autorescale_vector(&v, true).values());
    assert_eq!(inverted[2], 1.0);
    assert_eq!(inverted[1], 0.0);
    for (d, i) in direct.iter().zip(inverted.iter()) {
        assert_eq!(*i, 1.0 - *d);
    }
}

#[test]
fn autorescale_overflowing_span_gives_zeros() {
    // The span of these values overflows to infinity, so the vector is
    // treated as degenerate and maps to all zeros.
    let v = Values::try_from(bits(&[-f64::MAX, f64::MAX])).unwrap();
    assert_eq!(floats(autorescale_vector(&v, false).values()), vec![0., 0.]);
}

#[test]
fn autorescale_all_equal_values_gives_zeros() {
    let v = Values::try_from(bits(&[2., 2., 2.])).unwrap();
    assert_eq!(floats(autorescale_vector(&v, false).values()), vec![0., 0., 0.]);
    assert_eq!(floats(autorescale_vector(&v, true).values()), vec![0., 0., 0.]);
}

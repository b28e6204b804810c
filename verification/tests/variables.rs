use rustimizer::variables::Name;
use rustimizer::variables::Values;
use rustimizer::variables::VariableAutoscale;
use rustimizer::variables::VariableInvertedAutoscale;
use rustimizer::variables::VariableProperties;

fn bits(xs: &[f64]) -> Vec<u64> {
    xs.iter().map(|x| x.to_bits()).collect()
}

fn floats(bs: &Vec<u64>) -> Vec<f64> {
    bs.iter().map(|b| f64::from_bits(*b)).collect()
}

// Tolerant comparison: equal within machine epsilon, or within 4 units in
// the last place.
fn ulps_eq(a: f64, b: f64) -> bool {
    if (a - b).abs() <= f64::EPSILON {
        return true;
    }
    if a.signum() != b.signum() {
        return false;
    }
    let ia = a.to_bits() as i64;
    let ib = b.to_bits() as i64;
    (ia - ib).abs() <= 4
}

fn assert_ulps_eq_vec(actual: &Vec<f64>, expected: &Vec<f64>) {
    assert_eq!(actual.len(), expected.len());
    for k in 0..actual.len() {
        assert!(
            ulps_eq(actual[k], expected[k]),
            "entry {}: {} vs {}",
            k,
            actual[k],
            expected[k]
        );
    }
}

#[test]
fn variableautoscale_create_variable_with_single_value_and_rescale() {
    let var = VariableAutoscale::new(
        Name::try_from("x").unwrap(),
        Values::try_from(bits(&[0.])).unwrap(),
    );
    assert_eq!(var.name().as_str(), "x");
    assert_eq!(floats(var.rescale().values()), vec![0.]);
}

#[test]
fn variableautoscale_create_variable_with_values_and_rescale() {
    let var = VariableAutoscale::new(
        Name::try_from("x").unwrap(),
        Values::try_from(bits(&[0., 0.5, 1., 1.5])).unwrap(),
    );
    assert_eq!(var.name().as_str(), "x");
    assert_ulps_eq_vec(
        &floats(var.rescale().values()),
        &vec![0., 0.3333333333333333, 0.6666666666666666, 1.],
    );
}

#[test]
fn variableinvertedautoscale_create_variable_with_single_value_and_rescale() {
    let var = VariableInvertedAutoscale::new(
        Name::try_from("x").unwrap(),
        Values::try_from(bits(&[0.])).unwrap(),
    );
    assert_eq!(var.name().as_str(), "x");
    assert_eq!(floats(var.rescale().values()), vec![0.]);
}

#[test]
fn variableinvertedautoscale_create_variable_with_values_and_rescale() {
    let var = VariableInvertedAutoscale::new(
        Name::try_from("x").unwrap(),
        Values::try_from(bits(&[0., 0.5, 1., 1.5])).unwrap(),
    );
    assert_eq!(var.name().as_str(), "x");
    assert_ulps_eq_vec(
        &floats(var.rescale().values()),
        &vec![1., 0.6666666666666667, 0.33333333333333337, 0.],
    );
}

#[test]
fn variable_raw_values_read_back() {
    let var = VariableAutoscale::new(
        Name::try_from("x").unwrap(),
        Values::try_from(bits(&[4., -2.5, 0.])).unwrap(),
    );
    assert_eq!(floats(var.values().values()), vec![4., -2.5, 0.]);
}

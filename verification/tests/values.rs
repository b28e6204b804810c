use rustimizer::variables::Values;
use rustimizer::variables::ValuesError;

fn bits(xs: &[f64]) -> Vec<u64> {
    xs.iter().map(|x| x.to_bits()).collect()
}

fn floats(bs: &Vec<u64>) -> Vec<f64> {
    bs.iter().map(|b| f64::from_bits(*b)).collect()
}

#[test]
fn test_try_from_array_size_1() {
    let expected = vec![0.];
    let v = Values::try_from(bits(&expected)).unwrap();
    assert_eq!(floats(v.values()), expected);
}

#[test]
fn test_try_from_array_size_2() {
    let expected = vec![0., 1.];
    let v = Values::try_from(bits(&expected)).unwrap();
    assert_eq!(floats(v.values()), expected);
}

#[test]
fn test_try_from_array_size_0_failure() {
    let err = Values::try_from(Vec::new()).unwrap_err();
    assert_eq!(err, ValuesError::Empty);
}

#[test]
fn test_try_from_array_with_nan_failure() {
    let err = Values::try_from(bits(&[0., f64::NAN, 1.])).unwrap_err();
    assert_eq!(err, ValuesError::NoFiniteValues);
}

#[test]
fn test_try_from_array_with_infinity_pos_failure() {
    let err = Values::try_from(bits(&[0., f64::INFINITY, 1.])).unwrap_err();
    assert_eq!(err, ValuesError::NoFiniteValues);
}

#[test]
fn test_try_from_array_with_infinity_neg_failure() {
    let err = Values::try_from(bits(&[0., f64::NEG_INFINITY, 1.])).unwrap_err();
    assert_eq!(err, ValuesError::NoFiniteValues);
}

#[test]
fn test_values_error_messages() {
    assert_eq!(ValuesError::Empty.message(), "The values cannot be empty");
    assert_eq!(
        ValuesError::NoFiniteValues.message(),
        "The values cannot be NaN or Infinity"
    );
}

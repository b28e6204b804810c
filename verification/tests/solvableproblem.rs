use rustimizer::solver::SolvableProblem;
use rustimizer::solver::SolvableProblemError;
use rustimizer::variables::Name;
use rustimizer::variables::Values;
use rustimizer::variables::Variable;
use rustimizer::variables::VariableAutoscale;
use rustimizer::variables::VariableInvertedAutoscale;

fn bits(xs: &[f64]) -> Vec<u64> {
    xs.iter().map(|x| x.to_bits()).collect()
}

fn direct(name: &str, xs: &[f64]) -> Variable {
    Variable::Autoscale(VariableAutoscale::new(
        Name::try_from(name).unwrap(),
        Values::try_from(bits(xs)).unwrap(),
    ))
}

fn inverted(name: &str, xs: &[f64]) -> Variable {
    Variable::InvertedAutoscale(VariableInvertedAutoscale::new(
        Name::try_from(name).unwrap(),
        Values::try_from(bits(xs)).unwrap(),
    ))
}

fn matrix_floats(m: &Vec<Vec<u64>>) -> Vec<Vec<f64>> {
    m.iter()
        .map(|row| row.iter().map(|b| f64::from_bits(*b)).collect())
        .collect()
}

fn create_test_problem() -> SolvableProblem {
    SolvableProblem::define(vec![
        direct("x", &[1., 2., 3.]),
        inverted("y", &[3., 4., 5.]),
    ])
    .unwrap()
}

#[test]
fn test_problem_matrix_is_rescaled() {
    let p = create_test_problem();
    assert_eq!(
        matrix_floats(&p.get_problem_matrix()),
        vec![
            //x  y   (rescaled)
            vec![0., 1.],
            vec![0.5, 0.5],
            vec![1., 0.],
        ]
    );
}

#[test]
fn test_problem_is_solved() {
    let p = create_test_problem();
    assert_eq!(p.solve(), 1);
}

#[test]
fn solvableproblem_solve_problem_with_single_value() {
    let p = SolvableProblem::define(vec![direct("x", &[1.])]).unwrap();
    assert_eq!(p.solve(), 0);
}

#[test]
fn test_add_variable() {
    let mut p = SolvableProblem::new();
    assert_eq!(p.add_variable(direct("x", &[1., 2., 3.])), 1);
    assert_eq!(p.add_variable(inverted("y", &[3., 4., 5.])), 2);
}

#[test]
fn define_problem_empty_failure() {
    let err = SolvableProblem::define(vec![]).unwrap_err();
    assert_eq!(err, SolvableProblemError::Empty);
}

#[test]
fn define_problem_redefine_variable_failure() {
    let err = SolvableProblem::define(vec![
        direct("x", &[1., 2., 3.]),
        inverted("x", &[3., 4., 5.]),
    ])
    .unwrap_err();
    assert_eq!(err, SolvableProblemError::RedefinitionVariable);
}

#[test]
fn define_problem_variable_with_different_size_failure() {
    let err = SolvableProblem::define(vec![
        direct("x", &[1., 2., 3.]),
        inverted("y", &[3., 4.]),
    ])
    .unwrap_err();
    assert_eq!(err, SolvableProblemError::VariableSizeMismatch);
}

#[test]
fn test_two_direct_criteria_scenario() {
    let p = SolvableProblem::define(vec![
        direct("var1", &[2., 1., 3.]),
        direct("var2", &[5., 4., 6.]),
    ])
    .unwrap();
    assert_eq!(
        matrix_floats(&p.get_problem_matrix()),
        vec![vec![0.5, 0.5], vec![0., 0.], vec![1., 1.]]
    );
    assert_eq!(p.solve(), 1);
}

#[test]
fn test_solve_is_idempotent() {
    let p = create_test_problem();
    let first = p.solve();
    let second = p.solve();
    assert_eq!(first, second);
}

#[test]
fn test_columns_follow_name_order() {
    // The same variables in the opposite input order give the same matrix.
    let p = SolvableProblem::define(vec![
        inverted("y", &[3., 4., 5.]),
        direct("x", &[1., 2., 3.]),
    ])
    .unwrap();
    assert_eq!(
        matrix_floats(&p.get_problem_matrix()),
        vec![vec![0., 1.], vec![0.5, 0.5], vec![1., 0.]]
    );
    assert_eq!(p.solve(), 1);
}

#[test]
fn test_duplicate_reported_before_mismatch() {
    // The scan meets the repeated name first, although a length mismatch
    // follows at the same position.
    let err = SolvableProblem::define(vec![
        direct("x", &[1., 2., 3.]),
        direct("x", &[1., 2.]),
    ])
    .unwrap_err();
    assert_eq!(err, SolvableProblemError::RedefinitionVariable);
}

#[test]
fn test_problem_error_messages() {
    assert_eq!(
        SolvableProblemError::Empty.message(),
        "The problem cannot be empty"
    );
    assert_eq!(
        SolvableProblemError::VariableSizeMismatch.message(),
        "All variables must have the same number of values"
    );
    assert_eq!(
        SolvableProblemError::RedefinitionVariable.message(),
        "Each variable must have an unique name. You cannot redefine existing variables"
    );
}

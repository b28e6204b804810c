use rustimizer::variables::Name;
use rustimizer::variables::NameError;

#[test]
fn test_try_from_valid_name_str() {
    let name = Name::try_from("x1_valid").unwrap();
    assert_eq!(name, Name::try_from("x1_valid").unwrap());
    assert_eq!(name.as_str(), "x1_valid");
}

#[test]
fn test_try_from_valid_name_string() {
    let name = Name::try_from_string("x".to_string()).unwrap();
    assert_eq!(name.as_str(), "x");
}

#[test]
fn test_try_from_empty_string_failure() {
    let err = Name::try_from("").unwrap_err();
    assert_eq!(err, NameError::Empty);
}

#[test]
fn test_try_from_invalid_string_failure() {
    let err = Name::try_from("a?").unwrap_err();
    assert_eq!(err, NameError::InvalidCharacters);
}

#[test]
fn test_ordering() {
    let name1 = Name::try_from("a").unwrap();
    let name2 = Name::try_from("b").unwrap();

    assert_eq!(name1, name1);
    assert_eq!(name2, name2);
    assert_ne!(name1, name2);

    assert!(name1 < name2);
    assert!(name2 > name1);
    assert!(name2 >= name1);

    assert!(name1 >= name1);
    assert!(name1 <= name1);

    assert!(name2 >= name2);
    assert!(name2 <= name2);
}

#[test]
fn test_unicode_alphanumeric_name() {
    let name = Name::try_from("crit\u{e9}rium_1").unwrap();
    assert_eq!(name.as_str(), "crit\u{e9}rium_1");
}

#[test]
fn test_name_error_messages() {
    assert_eq!(NameError::Empty.message(), "The name cannot be empty");
    assert_eq!(
        NameError::InvalidCharacters.message(),
        "The name must have only the following allowed characters: alphanumeric, underscore"
    );
}

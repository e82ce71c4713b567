use session_auth::errors::{FieldError, FieldErrors};
use session_auth::user::UserResult;
use session_auth::validate::Validate;

fn messages(errors: &FieldErrors) -> Vec<String> {
    errors.errors.iter().map(|e| e.message.clone()).collect()
}

#[test]
fn field_error_carries_its_texts() {
    let e = FieldError::new("email", "invalid email");
    assert_eq!(e.field, "email");
    assert_eq!(e.message, "invalid email");
}

#[test]
fn field_errors_collects_in_order() {
    let mut errors = FieldErrors::new();
    assert!(errors.empty());
    errors.push(FieldError::new("a", "first"));
    errors.push(FieldError::new("b", "second"));
    assert!(!errors.empty());
    assert_eq!(messages(&errors), vec!["first".to_string(), "second".to_string()]);
}

#[test]
fn valid_email_passes() {
    let mut errors = FieldErrors::new();
    Validate::email("email", "alice@example.com", &mut errors);
    assert!(errors.empty());
}

#[test]
fn invalid_email_is_reported() {
    let mut errors = FieldErrors::new();
    Validate::email("email", "not-an-address", &mut errors);
    assert_eq!(messages(&errors), vec!["invalid email".to_string()]);
    assert_eq!(errors.errors[0].field, "email");
}

#[test]
fn strong_password_passes() {
    let mut errors = FieldErrors::new();
    Validate::password("password", "Abcdefg9", &mut errors);
    assert!(errors.empty());
}

#[test]
fn short_password_without_variety_earns_every_error() {
    let mut errors = FieldErrors::new();
    Validate::password("password", "", &mut errors);
    assert_eq!(
        messages(&errors),
        vec![
            "must have at least 8 characters".to_string(),
            "must contain an uppercase character".to_string(),
            "must contain an lowercase character".to_string(),
            "must contain a number or special character".to_string(),
        ]
    );
}

#[test]
fn missing_uppercase_is_reported() {
    let mut errors = FieldErrors::new();
    Validate::password("password", "abcdefg9", &mut errors);
    assert_eq!(messages(&errors), vec!["must contain an uppercase character".to_string()]);
}

#[test]
fn missing_number_or_special_is_reported() {
    let mut errors = FieldErrors::new();
    Validate::password("password", "Abcdefgh", &mut errors);
    assert_eq!(
        messages(&errors),
        vec!["must contain a number or special character".to_string()]
    );
}

#[test]
fn overlong_password_is_reported() {
    let mut errors = FieldErrors::new();
    let long = format!("Aa1{}", "x".repeat(130));
    Validate::password("password", &long, &mut errors);
    assert_eq!(messages(&errors), vec!["can't have more than 128 characters".to_string()]);
}

#[test]
fn space_counts_as_special_character() {
    let mut errors = FieldErrors::new();
    Validate::password("password", "Abcd efgh", &mut errors);
    assert!(errors.empty());
}

#[test]
fn result_constructors_carry_their_reasons() {
    match UserResult::server() {
        UserResult::GeneralError(g) => assert_eq!(g.message, "something went wrong"),
        _ => panic!("expected a general error"),
    }
    match UserResult::conflict("user already exists") {
        UserResult::GeneralError(g) => assert_eq!(g.message, "user already exists"),
        _ => panic!("expected a general error"),
    }
}

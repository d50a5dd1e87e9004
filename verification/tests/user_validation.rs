use sudokuroyale::user::validation::{validate_email, validate_password, validate_username};

#[test]
fn username_valid() {
    assert!(validate_username("Player_123").is_ok());
}

#[test]
fn username_empty() {
    assert_eq!(validate_username("   "), Err("Username cannot be empty"));
}

#[test]
fn username_too_short() {
    assert_eq!(
        validate_username("ab"),
        Err("Username must be at between 3 and 20 characters long")
    );
}

#[test]
fn username_too_long() {
    let long_name = "a".repeat(21);
    assert_eq!(
        validate_username(&long_name),
        Err("Username must be at between 3 and 20 characters long")
    );
}

#[test]
fn username_invalid_characters() {
    assert_eq!(
        validate_username("Player!"),
        Err("Username may only contain letter, numbers and underscores")
    );
}

#[test]
fn email_valid() {
    assert!(validate_email("test@example.com").is_ok());
}

#[test]
fn email_empty() {
    assert_eq!(validate_email(" "), Err("Email cannot be empty"));
}

#[test]
fn email_invalid_format() {
    assert_eq!(validate_email("invalid-email"), Err("Email format is invalid"));
}

#[test]
fn password_valid() {
    assert!(validate_password("Password1!").is_ok());
}

#[test]
fn password_too_short() {
    assert_eq!(
        validate_password("Pw1!"),
        Err("Password must be at least 8 characters long")
    );
}

#[test]
fn password_missing_uppercase() {
    assert_eq!(
        validate_password("password1!"),
        Err("Password must contain at least one uppercase letter")
    );
}

#[test]
fn password_missing_number() {
    assert_eq!(
        validate_password("Password!"),
        Err("Password must contain at least one number")
    );
}

#[test]
fn password_missing_special_char() {
    assert_eq!(
        validate_password("Password1"),
        Err("Password must contain at least one special character")
    );
}

#[test]
fn username_is_trimmed_before_the_checks() {
    assert!(validate_username("  abc  ").is_ok());
    assert!(validate_username("  ab  ").is_err());
}

#[test]
fn username_length_bounds_are_inclusive() {
    assert!(validate_username(&"a".repeat(3)).is_ok());
    assert!(validate_username(&"a".repeat(20)).is_ok());
}

#[test]
fn username_accepts_non_ascii_letters() {
    assert!(validate_username("Jürgen").is_ok());
}

#[test]
fn username_length_counts_bytes() {
    // Two letters of two bytes each: four bytes.
    assert!(validate_username("üü").is_ok());
}

#[test]
fn email_is_trimmed_before_matching() {
    assert!(validate_email("  a@b.c  ").is_ok());
    assert_eq!(validate_email("a b@c.d"), Err("Email format is invalid"));
    assert_eq!(validate_email("a@@b.c"), Err("Email format is invalid"));
}

#[test]
fn password_checks_come_in_order() {
    assert_eq!(
        validate_password("short"),
        Err("Password must be at least 8 characters long")
    );
    assert!(validate_password("Abcdefg1_").is_ok());
}

use argon2::password_hash::{PasswordHasher, SaltString};
use argon2::Argon2;
use valpago::errors::ApiError;
use valpago::password::{authenticate, verify_password};
use valpago::records::User;

fn hash_of(plain: &str) -> String {
    let salt = SaltString::encode_b64(b"fixed-salt-bytes").unwrap();
    Argon2::default().hash_password(plain.as_bytes(), &salt).unwrap().to_string()
}

fn user_with(hash: String) -> User {
    User {
        id: Some("65a1".into()),
        name: "Ana".into(),
        lastname: "Gil".into(),
        email: "a@x.co".into(),
        password: hash,
        celular: "300".into(),
    }
}

#[test]
fn verify_password_checks_the_hash() {
    let h = hash_of("s3cret");
    assert!(verify_password(&h, "s3cret"));
    assert!(!verify_password(&h, "other"));
    assert!(!verify_password("", "s3cret"));
    assert!(!verify_password("not a hash", "s3cret"));
}

#[test]
fn authenticate_outcomes() {
    let u = authenticate(Some(user_with(hash_of("pw"))), "pw").unwrap();
    assert_eq!(u.email, "a@x.co");
    match authenticate(Some(user_with(hash_of("pw"))), "nope") {
        Err(ApiError::Unauthorized(m)) => assert_eq!(m, "invalid credentials"),
        _ => panic!("expected a refusal"),
    }
    match authenticate(None, "pw") {
        Err(ApiError::Unauthorized(m)) => assert_eq!(m, "invalid credentials"),
        _ => panic!("expected a refusal"),
    }
}

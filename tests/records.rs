use valpago::access::{bearer_token, is_public_path, starts_with, JwtLayer, JwtMiddleware};
use valpago::config::{consumer_group, consumer_name, stream_namespace, READ_COUNT, STREAM_MAX_LEN};
use valpago::errors::ApiError;
use valpago::records::{
    str_equal, Claims, CreateTransactionDto, CreateUserDto, Transaction, TransactionStatus, UpdateUserDto, User,
};

#[test]
fn status_names_round_trip() {
    for s in [
        TransactionStatus::PENDING,
        TransactionStatus::REVIEW,
        TransactionStatus::APPROVED,
        TransactionStatus::REJECTED,
    ] {
        assert_eq!(TransactionStatus::parse(s.as_str()), Some(s));
    }
    assert_eq!(TransactionStatus::APPROVED.as_str(), "approved");
    assert_eq!(TransactionStatus::parse("APPROVED"), None);
    assert_eq!(TransactionStatus::parse(""), None);
}

#[test]
fn new_transaction_is_pending() {
    let dto = CreateTransactionDto {
        metodo_pago: "nequi".into(),
        monto: "1000".into(),
        cuenta_consignacion: "123".into(),
        referencia: "ref".into(),
        cuenta_origen: "456".into(),
        beneficiario: "ana".into(),
        tel_whatsapp_send: "300".into(),
        estado: "approved".into(),
        url_soporte: "http://x".into(),
        date: "2024-01-01".into(),
    };
    let t = Transaction::from_create(dto);
    assert_eq!(t.estado, TransactionStatus::PENDING);
    assert!(t.id.is_none());
    assert_eq!(t.monto, "1000");
    assert_eq!(t.date, "2024-01-01");
}

#[test]
fn user_update_replaces_given_fields() {
    let dto = CreateUserDto {
        name: "Ana".into(),
        lastname: "Gil".into(),
        email: "a@x.co".into(),
        password: "plain".into(),
        celular: "300".into(),
    };
    let mut u = User::from_create(dto, "hashed".into());
    assert_eq!(u.password, "hashed");
    u.apply_update(UpdateUserDto { name: Some("Eva".into()), lastname: None, celular: Some("301".into()) });
    assert_eq!(u.name, "Eva");
    assert_eq!(u.lastname, "Gil");
    assert_eq!(u.celular, "301");
    assert_eq!(u.email, "a@x.co");
}

#[test]
fn api_error_parts() {
    let (status, body) = ApiError::NotFound("transaction not found".into()).into_parts();
    assert_eq!(status, 404);
    assert_eq!(body.error, "not found: transaction not found");
    assert_eq!(body.message, "transaction not found");
    assert_eq!(ApiError::BadRequest("invalid id".into()).status_code(), 400);
    assert_eq!(ApiError::Unauthorized("m".into()).status_code(), 401);
    assert_eq!(ApiError::Forbidden("m".into()).status_code(), 403);
    assert_eq!(ApiError::Conflict("m".into()).status_code(), 409);
    assert_eq!(ApiError::Internal("boom".into()).to_string(), "internal error: boom");
    assert_eq!(ApiError::Forbidden("invalid API key".into()).to_string(), "forbidden: invalid API key");
}

#[test]
fn claims_expiry() {
    let c = Claims::expiring("u1".into(), 1_000, 24).unwrap();
    assert_eq!(c.exp, 1_000 + 24 * 3600);
    assert_eq!(c.sub, "u1");
    assert!(Claims::expiring("u".into(), i64::MAX - 10, 1).is_none());
    assert!(Claims::expiring("u".into(), 0, i64::MAX).is_none());
}

#[test]
fn config_defaults() {
    assert_eq!(stream_namespace(None), "valpago:transactions");
    assert_eq!(consumer_group(None), "valpago:cg");
    assert_eq!(consumer_name(None), "worker-1");
    assert_eq!(stream_namespace(Some("other".into())), "other");
    assert_eq!(STREAM_MAX_LEN, 10000);
    assert_eq!(READ_COUNT, 100);
}

#[test]
fn public_paths_and_tokens() {
    assert!(is_public_path("/api/auth/login"));
    assert!(is_public_path("/health"));
    assert!(is_public_path("/api/transactions/create"));
    assert!(!is_public_path("/health/x"));
    assert!(!is_public_path("/api/users"));
    assert!(JwtMiddleware::<()>::admits("/api/users", true));
    assert!(!JwtMiddleware::<()>::admits("/api/users", false));
    assert_eq!(bearer_token("Bearer abc.def"), "abc.def");
    assert_eq!(bearer_token("abc"), "abc");
    assert!(starts_with("hello", "he"));
    assert!(!starts_with("he", "hello"));
    assert!(str_equal("a", "a"));
    let m = JwtLayer.layer(5u8);
    assert_eq!(m.inner, 5);
}

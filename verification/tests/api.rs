use streamq::admin::ActionFlag;
use streamq::alipay::AlipayConfig;
use streamq::books::BookType;
use streamq::codec::get_field;
use streamq::errors::{ej, es, OkErr};
use streamq::jwt::Claims;
use streamq::middleware::{ContentLengthLimit, ContentLengthLimitMiddleware};
use streamq::users::{Paging, SearchUser, UserListQuery, UserType};
use streamq::valid::{default_false, default_true, phone};
use streamq::wx::{validation_message, ValidationMessage};

#[test]
fn user_type_codes() {
    assert_eq!(UserType::account(), 1);
    assert_eq!(UserType::phone(), 2);
}

#[test]
fn book_and_action_codes() {
    assert_eq!(BookType::Paper.code(), 1);
    assert_eq!(BookType::Pdf.code(), 2);
    assert_eq!(BookType::Txt.code(), 3);
    assert_eq!(ActionFlag::Add.code(), 1);
    assert_eq!(ActionFlag::Del.code(), 2);
    assert_eq!(ActionFlag::Update.code(), 3);
}

#[test]
fn phone_validation() {
    // An absent number passes; a present one must be eleven digits
    // starting 1 with a second digit from 3 to 9.
    assert!(phone("").is_ok());
    assert!(phone("13912345678").is_ok());
    assert!(phone("19999999999").is_ok());
    assert!(phone("12912345678").is_err());
    assert!(phone("23912345678").is_err());
    assert!(phone("1391234567").is_err());
    assert!(phone("139123456789").is_err());
    assert!(phone("13912a45678").is_err());
}

#[test]
fn validation_defaults() {
    assert!(!default_false());
    assert!(default_true());
}

#[test]
fn error_shape_and_builders() {
    let mut e = ej("boom");
    assert_eq!(e.error_code, '1');
    assert_eq!(e.show_type, 2);
    assert_eq!(e.error_message, "boom");
    e.show_type(4);
    assert_eq!(e.show_type, 4);
    e.error_code('9');
    assert_eq!(e.error_code, '9');
    e.auth();
    assert_eq!(e.error_code, '2');
    let built = e.build();
    assert_eq!(built.error_code, '2');
    assert_eq!(built.error_message, "boom");
    assert_eq!(built.show_type, 4);
    assert_eq!(es("plain text"), "plain text");
    let direct = OkErr::new(17u32);
    assert_eq!(direct.error_message, "17");
}

#[test]
fn content_length_limit() {
    assert_eq!(ContentLengthLimit::default().limit, 5 * 1024 * 1024);
    let mw = ContentLengthLimitMiddleware { service: (), limit: 100 };
    assert_eq!(mw.is_big(b"101"), Ok(true));
    assert_eq!(mw.is_big(b"100"), Ok(false));
    assert_eq!(mw.is_big(b"99"), Ok(false));
    assert_eq!(mw.is_big(b""), Err(()));
    assert_eq!(mw.is_big(b"12x"), Err(()));
}

#[test]
fn alipay_params() {
    let mut cfg = AlipayConfig::empty();
    cfg.version("1.0").method("alipay.trade.page.pay").charset("UTF-8");
    assert_eq!(
        get_field(&cfg.public_params, &"version".to_string()),
        Some("1.0".to_string())
    );
    assert_eq!(
        get_field(&cfg.public_params, &"method".to_string()),
        Some("alipay.trade.page.pay".to_string())
    );
    // A second write replaces the value and leaves the others alone.
    cfg.version("2.0");
    assert_eq!(
        get_field(&cfg.public_params, &"version".to_string()),
        Some("2.0".to_string())
    );
    assert_eq!(
        get_field(&cfg.public_params, &"charset".to_string()),
        Some("UTF-8".to_string())
    );
    assert_eq!(get_field(&cfg.public_params, &"sign".to_string()), None);
}

#[test]
fn message_origin_check() {
    // SHA-1 of "123abcxyz", the sorted join of the three inputs.
    let good = ValidationMessage {
        signature: "94ffbd20c84766e871799062cb1bc3e3f40c5e13".to_string(),
        timestamp: "123".to_string(),
        nonce: "xyz".to_string(),
        echostr: "echo".to_string(),
    };
    assert!(validation_message("abc", &good));
    let bad = ValidationMessage {
        signature: "0000000000000000000000000000000000000000".to_string(),
        timestamp: "123".to_string(),
        nonce: "xyz".to_string(),
        echostr: "echo".to_string(),
    };
    assert!(!validation_message("abc", &bad));
}

#[test]
fn message_origin_check_sorts_inputs() {
    // SHA-1 of "100alphazeta": the token sorts last here.
    let q = ValidationMessage {
        signature: "7ce02fccc174a3e9bf8167621f7193c91175bc8f".to_string(),
        timestamp: "100".to_string(),
        nonce: "alpha".to_string(),
        echostr: "echo".to_string(),
    };
    assert!(validation_message("zeta", &q));
    assert!(!validation_message("beta", &q));
}

#[test]
fn paging_query() {
    let filters = SearchUser {
        user_type: None,
        email: None,
        username: None,
        phone: None,
        avatar: None,
        is_superadmin: None,
        is_active: None,
        is_staff: None,
        last_login: None,
        create_at: None,
        update_at: None,
    };
    let without_page = UserListQuery { page: None, limit: Some(20), user: filters };
    assert!(!without_page.has_page());
    let filters = SearchUser {
        user_type: Some(1),
        email: None,
        username: None,
        phone: None,
        avatar: None,
        is_superadmin: None,
        is_active: None,
        is_staff: None,
        last_login: None,
        create_at: None,
        update_at: None,
    };
    let with_page = UserListQuery { page: Some(1), limit: Some(20), user: filters };
    assert!(with_page.has_page());
}

#[test]
fn claims_payload() {
    let c = Claims::with_exp(42, UserType::account(), 1_700_000_000);
    assert_eq!(c.id, 42);
    assert_eq!(c.user_type, 1);
    assert_eq!(c.exp, 1_700_000_000);
}

use sentence_base::models::user::User;
use sentence_base::models::user::UserRegistrationError;
use sentence_base::store::Store;
use sentence_base::tokens::authenticate;
use sentence_base::tokens::generate_token;
use sentence_base::tokens::token_error_to_response;
use sentence_base::tokens::validate_token;
use sentence_base::tokens::TokenError;
use sentence_base::tokens::TokenType;

const SECRET: &str = "test-signing-secret";
const COST: u32 = 4;
const NOW: u64 = 1_700_000_000;

fn store_with_user() -> (Store, User) {
    let mut store = Store::new();
    let user = User::register(&mut store, "test_user", "test@domain.com", "password", COST)
        .expect("registration should succeed");
    (store, user)
}

fn bearer(token: &str) -> String {
    format!("Bearer {}", token)
}

fn error_message(e: &TokenError) -> String {
    token_error_to_response(e).message
}

#[test]
fn register_should_add_new_user() {
    let (store, user) = store_with_user();
    assert_eq!(user.id, 1);
    assert_eq!(user.username, "test_user");
    assert_eq!(user.email, "test@domain.com");
    assert_eq!(user.token_generation, 0);
    // the user should be queryable
    let found = User::find_by_id(&store, user.id).expect("the user should be queryable");
    assert_eq!(found.username, "test_user");
    // password should be hashed
    assert_ne!(found.hash, "password");
}

#[test]
fn register_should_fail_on_duplicate_data() {
    let (mut store, _) = store_with_user();
    // duplicate username
    let dup_name = User::register(
        &mut store,
        "test_user",
        "different@domain.com",
        "password",
        COST,
    );
    assert!(matches!(dup_name, Err(UserRegistrationError::DuplicateUsername)));
    // duplicate email
    let dup_mail = User::register(&mut store, "different_test", "test@domain.com", "password", COST);
    assert!(matches!(dup_mail, Err(UserRegistrationError::DuplicateEmail)));
    assert_eq!(store.users.len(), 1);
}

#[test]
fn login_should_reject_on_wrong_creds() {
    let (store, _) = store_with_user();
    assert!(User::find_by_credentials(&store, "wrong@domain.com", "password").is_none());
    assert!(User::find_by_credentials(&store, "test@domain.com", "wrong").is_none());
}

#[test]
fn login_should_return_a_jwt() {
    let (store, user) = store_with_user();
    let logged_in =
        User::find_by_credentials(&store, "test@domain.com", "password").expect("should log in");
    assert_eq!(logged_in.id, user.id);
    let access_token = generate_token(&logged_in, TokenType::Access, NOW, 3600, 43800, SECRET)
        .expect("should include 'access_token' field");
    let refresh_token = generate_token(&logged_in, TokenType::Refresh, NOW, 3600, 43800, SECRET)
        .expect("should include 'refresh_token' field");
    assert!(!access_token.is_empty());
    assert!(!refresh_token.is_empty());
    assert_ne!(access_token, refresh_token);
}

#[test]
fn me_should_reject_no_token() {
    let (store, _) = store_with_user();
    let outcome = authenticate("", &store, NOW, SECRET);
    assert!(matches!(outcome, Err(TokenError::NoToken)));
    assert_eq!(error_message(&outcome.unwrap_err()), "No Token Provided");
}

#[test]
fn me_should_reject_malformed_token() {
    let (store, _) = store_with_user();
    let outcome = authenticate(&bearer("wrong token"), &store, NOW, SECRET);
    assert!(matches!(outcome, Err(TokenError::MalformedToken)));
    assert_eq!(error_message(&outcome.unwrap_err()), "Malformed Token Provided");
}

#[test]
fn me_should_reject_future_iat_token() {
    let (store, user) = store_with_user();
    // iat = now + 10, exp = now + 3610
    let token = generate_token(&user, TokenType::Access, NOW + 10, 3600, 43800, SECRET)
        .expect("should sign");
    let outcome = authenticate(&bearer(&token), &store, NOW, SECRET);
    assert!(matches!(outcome, Err(TokenError::IatInTheFuture)));
    assert_eq!(
        error_message(&outcome.unwrap_err()),
        "Token with IAT in the Future Provided"
    );
}

#[test]
fn me_should_reject_expired_token() {
    let (store, user) = store_with_user();
    // iat = now - 3600, exp = now
    let token = generate_token(&user, TokenType::Access, NOW - 3600, 3600, 43800, SECRET)
        .expect("should sign");
    let outcome = authenticate(&bearer(&token), &store, NOW, SECRET);
    assert!(matches!(outcome, Err(TokenError::Expired)));
    assert_eq!(error_message(&outcome.unwrap_err()), "Expired Token Provided");
}

#[test]
fn me_should_reject_invalid_subject() {
    let (store, _) = store_with_user();
    let ghost_user = User {
        id: 999,
        username: "nobody".to_string(),
        email: "nobody@domain.com".to_string(),
        hash: String::new(),
        token_generation: 0,
    };
    let token = generate_token(&ghost_user, TokenType::Access, NOW, 3600, 43800, SECRET)
        .expect("should sign");
    let outcome = authenticate(&bearer(&token), &store, NOW, SECRET);
    assert!(matches!(outcome, Err(TokenError::InvalidSubject)));
    assert_eq!(
        error_message(&outcome.unwrap_err()),
        "Token with Invalid Subject Provided"
    );
}

#[test]
fn me_should_reject_invalid_type() {
    let (store, user) = store_with_user();
    let token = generate_token(&user, TokenType::Refresh, NOW, 3600, 43800, SECRET)
        .expect("should sign");
    let outcome = authenticate(&bearer(&token), &store, NOW, SECRET);
    assert!(matches!(outcome, Err(TokenError::InvalidType)));
    assert_eq!(
        error_message(&outcome.unwrap_err()),
        "Token with Invalid Type Provided"
    );
}

#[test]
fn me_should_resolve_with_proper_token() {
    let (store, user) = store_with_user();
    let token = generate_token(&user, TokenType::Access, NOW, 3600, 43800, SECRET)
        .expect("should sign");
    let resolved = authenticate(&bearer(&token), &store, NOW, SECRET).expect("should resolve");
    // should include 'username', 'email' and 'id' fields
    assert_eq!(resolved.id, user.id);
    assert_eq!(resolved.username, "test_user");
    assert_eq!(resolved.email, "test@domain.com");
}

#[test]
fn refresh_should_reject_malformed_token() {
    let (store, _) = store_with_user();
    let outcome = validate_token("wrong token", TokenType::Refresh, &store, NOW, SECRET);
    assert!(matches!(outcome, Err(TokenError::MalformedToken)));
    assert_eq!(error_message(&outcome.unwrap_err()), "Malformed Token Provided");
}

#[test]
fn refresh_should_reject_future_iat_token() {
    let (store, user) = store_with_user();
    // iat = now + 10, exp = now + 3610
    let token = generate_token(&user, TokenType::Refresh, NOW + 10, 3600, 3600, SECRET)
        .expect("should sign");
    let outcome = validate_token(&token, TokenType::Refresh, &store, NOW, SECRET);
    assert!(matches!(outcome, Err(TokenError::IatInTheFuture)));
    assert_eq!(
        error_message(&outcome.unwrap_err()),
        "Token with IAT in the Future Provided"
    );
}

#[test]
fn refresh_should_reject_expired_token() {
    let (store, user) = store_with_user();
    let token = generate_token(&user, TokenType::Refresh, NOW - 3600, 3600, 3600, SECRET)
        .expect("should sign");
    let outcome = validate_token(&token, TokenType::Refresh, &store, NOW, SECRET);
    assert!(matches!(outcome, Err(TokenError::Expired)));
    assert_eq!(error_message(&outcome.unwrap_err()), "Expired Token Provided");
}

#[test]
fn refresh_should_reject_invalid_subject() {
    let (store, _) = store_with_user();
    let ghost_user = User {
        id: 999,
        username: "nobody".to_string(),
        email: "nobody@domain.com".to_string(),
        hash: String::new(),
        token_generation: 0,
    };
    let token = generate_token(&ghost_user, TokenType::Refresh, NOW, 3600, 3600, SECRET)
        .expect("should sign");
    let outcome = validate_token(&token, TokenType::Refresh, &store, NOW, SECRET);
    assert!(matches!(outcome, Err(TokenError::InvalidSubject)));
    assert_eq!(
        error_message(&outcome.unwrap_err()),
        "Token with Invalid Subject Provided"
    );
}

#[test]
fn refresh_should_reject_invalid_type() {
    let (store, user) = store_with_user();
    let token = generate_token(&user, TokenType::Access, NOW, 3600, 3600, SECRET)
        .expect("should sign");
    let outcome = validate_token(&token, TokenType::Refresh, &store, NOW, SECRET);
    assert!(matches!(outcome, Err(TokenError::InvalidType)));
    assert_eq!(
        error_message(&outcome.unwrap_err()),
        "Token with Invalid Type Provided"
    );
}

#[test]
fn refresh_should_resolve_with_proper_token() {
    let (store, user) = store_with_user();
    let token = generate_token(&user, TokenType::Refresh, NOW, 3600, 43800, SECRET)
        .expect("should sign");
    let resolved =
        validate_token(&token, TokenType::Refresh, &store, NOW, SECRET).expect("should resolve");
    assert_eq!(resolved.id, user.id);
    // a fresh pair can be issued for the resolved user
    let access_token = generate_token(&resolved, TokenType::Access, NOW, 3600, 43800, SECRET)
        .expect("should include 'access_token' field");
    let refresh_token = generate_token(&resolved, TokenType::Refresh, NOW, 3600, 43800, SECRET)
        .expect("should include 'refresh_token' field");
    assert!(!access_token.is_empty());
    assert!(!refresh_token.is_empty());
}

#[test]
fn issuing_always_produces_a_token() {
    let (store, user) = store_with_user();
    // the HMAC key accepts any secret length, so issuing never fails
    let long_secret = "long-secret-".repeat(40);
    for secret in ["", "s", long_secret.as_str()] {
        let token = generate_token(&user, TokenType::Access, NOW, 3600, 43800, secret)
            .expect("issuing should always produce a token");
        assert!(!token.is_empty());
        let resolved = authenticate(&bearer(&token), &store, NOW, secret);
        assert!(resolved.is_ok());
    }
}

#[test]
fn should_respect_token_generation() {
    let (mut store, user) = store_with_user();
    let token = generate_token(&user, TokenType::Access, NOW, 3600, 43800, SECRET)
        .expect("should sign");
    // valid before the bump
    let before = authenticate(&bearer(&token), &store, NOW, SECRET);
    assert!(before.is_ok());
    // bump the generation: every outstanding token is revoked
    let new_gen = User::increment_token_generation(&mut store, user.id)
        .expect("user should exist");
    assert_eq!(new_gen, 1);
    let after = authenticate(&bearer(&token), &store, NOW, SECRET);
    assert!(matches!(after, Err(TokenError::Revoked)));
    assert_eq!(error_message(&after.unwrap_err()), "Revoked Token Provided");
    // a token issued under the new generation works again
    let updated = User::find_by_id(&store, user.id).expect("user should exist");
    let fresh = generate_token(&updated, TokenType::Access, NOW, 3600, 43800, SECRET)
        .expect("should sign");
    assert!(authenticate(&bearer(&fresh), &store, NOW, SECRET).is_ok());
}

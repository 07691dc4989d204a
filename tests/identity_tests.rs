use contact_core::credential::PasswordService;
use contact_core::error::ServiceError;
use contact_core::identity::{
    LoginRequest, RegisterRequest, User, UserDirectory, UserRepository, UserUsecase,
};
use contact_core::token::{JwtService, TOKEN_LIFETIME_SECS};
use contact_core::validation::Violation;

const SECRET: &str = "test-signing-secret";

fn usecase() -> UserUsecase<UserDirectory> {
    UserUsecase::with_hash_cost(UserDirectory::new(), JwtService::new(SECRET.to_string()), 4)
}

fn register_req(username: &str, email: &str, password: &str) -> RegisterRequest {
    RegisterRequest {
        username: username.to_string(),
        email: email.to_string(),
        password: password.to_string(),
    }
}

fn login_req(email: &str, password: &str) -> LoginRequest {
    LoginRequest { email: email.to_string(), password: password.to_string() }
}

#[test]
fn test_register_user_success() {
    let mut usecase = UserUsecase::new(UserDirectory::new(), JwtService::new(SECRET.to_string()));
    let req = register_req("testuser", "test@example.com", "password123");
    let result = usecase.register(req);
    assert!(result.is_ok());
    let user = result.unwrap();
    assert_eq!(user.email, "test@example.com");
}

#[test]
fn test_register_user_already_exists() {
    let mut directory = UserDirectory::new();
    let existing = User {
        id: 7,
        username: "existing".to_string(),
        email: "test@example.com".to_string(),
        password_hash: "hash".to_string(),
        created_at: 0,
        updated_at: 0,
    };
    assert!(directory.create_user(existing).is_ok());
    let mut usecase = UserUsecase::with_hash_cost(directory, JwtService::new(SECRET.to_string()), 4);
    let req = register_req("testuser", "test@example.com", "password123");
    let result = usecase.register(req);
    assert!(result.is_err());
    assert_eq!(result.err().unwrap().message(), "Email already exists");
}

#[test]
fn test_register_user() {
    let mut usecase = usecase();
    let user = usecase.register(register_req("testuser", "test@example.com", "password123")).unwrap();
    assert_eq!(user.username, "testuser");
    assert_eq!(user.email, "test@example.com");
}

#[test]
fn test_login_user() {
    let mut usecase = usecase();
    usecase.register(register_req("testuser", "test@example.com", "password123")).unwrap();
    let res = usecase.login(login_req("test@example.com", "password123")).unwrap();
    assert!(!res.token.is_empty());
}

#[test]
fn register_then_login_token_names_the_user() {
    let mut usecase = usecase();
    let user = usecase.register(register_req("alice", "alice@example.com", "secret-pw")).unwrap();
    let now: u64 = 1_700_000_000;
    let res = usecase.login_at(login_req("alice@example.com", "secret-pw"), now).unwrap();
    assert_eq!(res.user.id, user.id);
    assert_eq!(res.user.username, "alice");
    let jwt = JwtService::new(SECRET.to_string());
    let claims = jwt.verify_token_at(&res.token, now).unwrap();
    assert_eq!(claims.sub, uuid::Uuid::from_u128(user.id).to_string());
    assert_eq!(claims.iat, now);
    assert_eq!(claims.exp, now + TOKEN_LIFETIME_SECS);
    let header = format!("Bearer {}", res.token);
    assert_eq!(jwt.extract_user_id_at(Some(&header), now), Ok(user.id));
}

#[test]
fn second_registration_with_same_email_conflicts() {
    let mut usecase = usecase();
    assert!(usecase.register(register_req("first", "dup@example.com", "password1")).is_ok());
    let second = usecase.register(register_req("second", "dup@example.com", "other-password"));
    assert!(matches!(second, Err(ServiceError::Conflict)));
}

#[test]
fn wrong_password_and_unknown_email_fail_alike() {
    let mut usecase = usecase();
    usecase.register(register_req("bob", "bob@example.com", "right-password")).unwrap();
    let wrong = usecase.login(login_req("bob@example.com", "wrong-password")).err().unwrap();
    let unknown = usecase.login(login_req("nobody@example.com", "right-password")).err().unwrap();
    assert!(matches!(wrong, ServiceError::InvalidCredentials));
    assert!(matches!(unknown, ServiceError::InvalidCredentials));
    assert_eq!(wrong.message(), unknown.message());
    assert_eq!(wrong.message(), "Invalid credentials");
}

#[test]
fn register_reports_every_violation() {
    let mut usecase = usecase();
    match usecase.register(register_req("ab", "not-an-email", "12345")) {
        Err(ServiceError::Validation(vs)) => assert_eq!(
            vs,
            vec![Violation::UsernameTooShort, Violation::InvalidEmail, Violation::PasswordTooShort]
        ),
        other => panic!("unexpected {:?}", other),
    }
    match usecase.register(register_req("abc", "a@b.com", "123456")) {
        Ok(u) => assert_eq!(u.username, "abc"),
        other => panic!("unexpected {:?}", other),
    }
}

#[test]
fn validation_message_joins_violations() {
    let e = ServiceError::Validation(vec![Violation::UsernameTooShort, Violation::PasswordTooShort]);
    assert_eq!(
        e.message(),
        "Username must be at least 3 characters; Password must be at least 6 characters"
    );
}

#[test]
fn password_hash_verifies_only_its_password() {
    let digest = PasswordService::hash_password_with_cost("hunter22", 4).unwrap();
    assert_ne!(digest, "hunter22");
    assert_eq!(PasswordService::verify_password("hunter22", &digest), Ok(true));
    assert_eq!(PasswordService::verify_password("hunter23", &digest), Ok(false));
    assert!(PasswordService::verify_password("hunter22", "not-a-digest").is_err());
}

#[test]
fn same_password_hashes_differently() {
    let a = PasswordService::hash_password_with_cost("pw-123456", 4).unwrap();
    let b = PasswordService::hash_password_with_cost("pw-123456", 4).unwrap();
    assert_ne!(a, b);
}

#[test]
fn disallowed_cost_fails_to_hash() {
    assert!(PasswordService::hash_password_with_cost("pw-123456", 2).is_err());
}

#[test]
fn register_with_given_digest_and_id() {
    let mut usecase = usecase();
    let digest = PasswordService::hash_password_with_cost("password123", 4).unwrap();
    let view = usecase
        .register_with(register_req("carol", "carol@example.com", "password123"), 5, Some(digest), 900)
        .unwrap();
    assert_eq!(view.id, 5);
    assert_eq!(view.created_at, 900);
    let again = usecase.register_with(register_req("dave", "dave@example.com", "password123"), 5, Some("x".to_string()), 901);
    assert!(matches!(again, Err(ServiceError::Repository)));
    let unhashed = usecase.register_with(register_req("erin", "erin@example.com", "password123"), 6, None, 902);
    assert!(matches!(unhashed, Err(ServiceError::Hashing)));
    let res = usecase.login_at(login_req("carol@example.com", "password123"), 1_000).unwrap();
    assert_eq!(res.user.id, 5);
}

#[test]
fn digest_records_the_cost_factor() {
    let digest = PasswordService::hash_password_with_cost("", 4).unwrap();
    assert_eq!(digest.len(), 60);
    assert!(digest.starts_with("$2b$04$"));
    let weak = PasswordService::hash_password_with_cost("abc", 5).unwrap();
    assert!(weak.starts_with("$2b$05$"));
    assert_eq!(PasswordService::verify_password("abc", &weak), Ok(true));
    assert!(PasswordService::verify_password("abc", &weak[..57]).is_err());
}

#[test]
fn directory_lookups() {
    let mut directory = UserDirectory::new();
    let user = User {
        id: 3,
        username: "zed".to_string(),
        email: "zed@example.com".to_string(),
        password_hash: "h".to_string(),
        created_at: 0,
        updated_at: 0,
    };
    directory.create_user(user).unwrap();
    assert_eq!(directory.find_user_by_email("zed@example.com").unwrap().unwrap().id, 3);
    assert!(directory.find_user_by_email("nobody@example.com").unwrap().is_none());
    assert_eq!(directory.find_user_by_id(3).unwrap().unwrap().username, "zed");
    assert!(directory.find_user_by_id(4).unwrap().is_none());
}

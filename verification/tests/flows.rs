use session_auth::hash;
use session_auth::routes::add_user;
use session_auth::routes::authenticate_user;
use session_auth::routes::bad_request;
use session_auth::routes::change_user_password;
use session_auth::routes::delete_user;
use session_auth::routes::get_all_users;
use session_auth::routes::not_found;
use session_auth::types::ApiKey;
use session_auth::types::NewPassword;
use session_auth::types::User;
use session_auth::types::UserCredendials;
use session_auth::Backend;
use session_auth::Error;
use session_auth::Tokenizer;

fn provisioned_backend() -> Backend {
    let mut backend = Backend::new();
    backend
        .add_user(User {
            username: "alice".to_string(),
            email: "alice@example.com".to_string(),
            password: hash("secret"),
            is_admin: true,
            token: None,
        })
        .unwrap();
    backend
}

fn credentials(username: &str, password: &str) -> UserCredendials {
    UserCredendials { username: username.to_string(), password: password.to_string() }
}

#[test]
fn login_with_right_password_succeeds() {
    let backend = provisioned_backend();
    let looked_up = backend.find_user(credentials("alice", &hash("secret")));
    assert!(looked_up.is_ok());
    assert_eq!(looked_up.unwrap().username, "alice");
}

#[test]
fn login_with_wrong_password_fails() {
    let backend = provisioned_backend();
    let looked_up = backend.find_user(credentials("alice", &hash("wrong")));
    assert!(matches!(looked_up, Err(Error::NotFound)));
}

#[test]
fn session_replacement() {
    let mut backend = provisioned_backend();
    let tokenizer = Tokenizer::new(3600, Some("server-key"));

    let first = authenticate_user(credentials("alice", "secret"), &tokenizer, &mut backend, 1000)
        .unwrap();
    let second = authenticate_user(credentials("alice", "secret"), &tokenizer, &mut backend, 2000)
        .unwrap();

    assert_ne!(first.token, second.token);
    assert!(matches!(backend.find_user_by_token(&first.token), Err(Error::NotFound)));
    let current = backend.find_user_by_token(&second.token).unwrap();
    assert_eq!(current.username, "alice");
}

#[test]
fn update_nonexistent_user_fails() {
    let mut backend = provisioned_backend();
    let ghost_row = User {
        username: "nobody".to_string(),
        email: "nobody@example.com".to_string(),
        password: hash("x"),
        is_admin: false,
        token: None,
    };
    assert!(matches!(backend.update_user(ghost_row), Err(Error::NotFound)));
}

#[test]
fn delete_nonexistent_user_fails() {
    let mut backend = provisioned_backend();
    assert!(matches!(backend.delete_user("nobody"), Err(Error::NotFound)));
}

#[test]
fn duplicate_username_fails() {
    let mut backend = provisioned_backend();
    let duplicate = User {
        username: "alice".to_string(),
        email: "other@example.com".to_string(),
        password: hash("other"),
        is_admin: false,
        token: None,
    };
    assert!(matches!(backend.add_user(duplicate), Err(Error::DuplicateKey)));
}

#[test]
fn admin_listing_end_to_end() {
    let mut backend = provisioned_backend();
    let tokenizer = Tokenizer::new(3600, Some("server-key"));
    let now = 1000;

    let key = authenticate_user(credentials("alice", "secret"), &tokenizer, &mut backend, now)
        .unwrap();

    let header = format!("Bearer {}", key.token);
    let authorized = ApiKey::from_request(Some(&header), &tokenizer, &backend, now);
    assert!(authorized.is_ok());

    let listing = get_all_users(&backend, authorized).unwrap();
    assert_eq!(listing.len(), 1);
    assert_eq!(listing[0].username, "alice");
    assert_eq!(listing[0].email, "alice@example.com");
    assert!(listing[0].is_admin);

    let rejected = ApiKey::from_request(Some("Bearer garbage"), &tokenizer, &backend, now);
    assert!(matches!(rejected, Err(Error::UnauthenticatedUser)));
}

#[test]
fn change_password_end_to_end() {
    let mut backend = provisioned_backend();
    let tokenizer = Tokenizer::new(3600, Some("server-key"));
    let now = 1000;

    let key = authenticate_user(credentials("alice", "secret"), &tokenizer, &mut backend, now)
        .unwrap();

    let change = NewPassword { current: "secret".to_string(), new: "secret2".to_string() };
    assert!(change_user_password(change, Ok(key), &mut backend).is_ok());

    let with_old = authenticate_user(credentials("alice", "secret"), &tokenizer, &mut backend, now);
    assert!(matches!(with_old, Err(Error::NotFound)));

    let with_new =
        authenticate_user(credentials("alice", "secret2"), &tokenizer, &mut backend, now);
    assert!(with_new.is_ok());
}

#[test]
fn change_password_with_wrong_current_fails() {
    let mut backend = provisioned_backend();
    let tokenizer = Tokenizer::new(3600, Some("server-key"));

    let key = authenticate_user(credentials("alice", "secret"), &tokenizer, &mut backend, 1000)
        .unwrap();

    let change = NewPassword { current: "not-it".to_string(), new: "secret2".to_string() };
    match change_user_password(change, Ok(key), &mut backend) {
        Err(Error::BadRequest(message)) => assert_eq!(message, "Invalid password"),
        other => panic!("expected a bad-request error, got {:?}", other),
    }
}

#[test]
fn non_admin_session_is_forbidden() {
    let mut backend = provisioned_backend();
    backend
        .add_user(User {
            username: "bob".to_string(),
            email: "bob@example.com".to_string(),
            password: hash("hunter2"),
            is_admin: false,
            token: None,
        })
        .unwrap();
    let tokenizer = Tokenizer::new(3600, Some("server-key"));
    let now = 1000;

    let key = authenticate_user(credentials("bob", "hunter2"), &tokenizer, &mut backend, now)
        .unwrap();

    let header = format!("Bearer {}", key.token);
    let outcome = ApiKey::from_request(Some(&header), &tokenizer, &backend, now);
    assert!(matches!(outcome, Err(Error::ForbiddenAccess)));
}

#[test]
fn missing_or_malformed_header_is_unauthenticated() {
    let backend = provisioned_backend();
    let tokenizer = Tokenizer::new(3600, Some("server-key"));

    let missing = ApiKey::from_request(None, &tokenizer, &backend, 1000);
    assert!(matches!(missing, Err(Error::UnauthenticatedUser)));

    let no_prefix = ApiKey::from_request(Some("Basic abc"), &tokenizer, &backend, 1000);
    assert!(matches!(no_prefix, Err(Error::UnauthenticatedUser)));

    let empty = ApiKey::from_request(Some(""), &tokenizer, &backend, 1000);
    assert!(matches!(empty, Err(Error::UnauthenticatedUser)));
}

#[test]
fn guard_trims_header_spaces() {
    let mut backend = provisioned_backend();
    let tokenizer = Tokenizer::new(3600, Some("server-key"));
    let now = 1000;

    let key = authenticate_user(credentials("alice", "secret"), &tokenizer, &mut backend, now)
        .unwrap();

    let padded = format!("Bearer   {}  ", key.token);
    let outcome = ApiKey::from_request(Some(&padded), &tokenizer, &backend, now);
    assert!(outcome.is_ok());
    assert_eq!(outcome.unwrap().token, key.token);
}

#[test]
fn guarded_mutations_propagate_guard_errors() {
    let mut backend = provisioned_backend();

    let row = User {
        username: "carol".to_string(),
        email: "carol@example.com".to_string(),
        password: "plain".to_string(),
        is_admin: false,
        token: None,
    };
    let denied = add_user(row, Err(Error::UnauthenticatedUser), &mut backend);
    assert!(matches!(denied, Err(Error::UnauthenticatedUser)));

    let denied = delete_user("alice".to_string(), Err(Error::ForbiddenAccess), &mut backend);
    assert!(matches!(denied, Err(Error::ForbiddenAccess)));

    assert!(backend.find_user(credentials("alice", &hash("secret"))).is_ok());
}

#[test]
fn guarded_add_hashes_and_delete_removes() {
    let mut backend = provisioned_backend();
    let tokenizer = Tokenizer::new(3600, Some("server-key"));
    let now = 1000;

    let key = authenticate_user(credentials("alice", "secret"), &tokenizer, &mut backend, now)
        .unwrap();

    let row = User {
        username: "carol".to_string(),
        email: "carol@example.com".to_string(),
        password: "plaintext".to_string(),
        is_admin: false,
        token: None,
    };
    assert!(add_user(row, Ok(key.clone()), &mut backend).is_ok());
    assert!(backend.find_user(credentials("carol", &hash("plaintext"))).is_ok());

    assert!(delete_user("carol".to_string(), Ok(key), &mut backend).is_ok());
    assert!(matches!(
        backend.find_user(credentials("carol", &hash("plaintext"))),
        Err(Error::NotFound)
    ));
}

#[test]
fn catcher_errors() {
    match bad_request() {
        Error::BadRequest(message) => assert_eq!(message, "Request is ill-formed"),
        other => panic!("expected a bad-request error, got {:?}", other),
    }
    assert!(matches!(not_found(), Error::UnknownRoute));
}

//! End-to-end tests of the credential store: the signup, login, reset and
//! delete flows, the outcome taxonomy, and the hashing discipline.

use rust_auth_service::models::{LoginRequest, PasswordResetRequest, SignupRequest};
use rust_auth_service::store::{CredentialStore, Outcome};

#[test]
fn test_user_signup_and_login_success() {
    let mut store = CredentialStore::new();

    let signup = store.register(&"test1".to_string(), &"1234".to_string());
    assert_eq!(signup, Outcome::Created, "Signup failed => {:?}", signup);

    let login = store.authenticate(&"test1".to_string(), &"1234".to_string());
    assert_eq!(login, Outcome::Authenticated, "Login failed => {:?}", login);
}

#[test]
fn test_duplicate_signup_should_fail() {
    let mut store = CredentialStore::new();

    let first = store.register(&"test2".to_string(), &"pass123".to_string());
    let second = store.register(&"test2".to_string(), &"pass123".to_string());

    assert_eq!(first, Outcome::Created, "First signup failed: {:?}", first);
    assert_eq!(
        second,
        Outcome::AlreadyExists,
        "Duplicate signup not rejected: {:?}",
        second
    );
}

#[test]
fn test_wrong_password_login_should_fail() {
    let mut store = CredentialStore::new();

    store.register(&"wrongpass_user".to_string(), &"password".to_string());

    let res = store.authenticate(&"wrongpass_user".to_string(), &"incorrect".to_string());
    assert_eq!(
        res,
        Outcome::InvalidCredentials,
        "Expected login failure, got: {:?}",
        res
    );
}

#[test]
fn test_password_reset_flow() {
    let mut store = CredentialStore::new();

    store.register(&"reset_user".to_string(), &"oldpass".to_string());

    let reset = store.reset_password(&"reset_user".to_string(), &"newpass".to_string());
    assert_eq!(reset, Outcome::Reset, "Password reset failed: {:?}", reset);

    let old_login = store.authenticate(&"reset_user".to_string(), &"oldpass".to_string());
    assert_eq!(
        old_login,
        Outcome::InvalidCredentials,
        "Old password should no longer work: {:?}",
        old_login
    );

    let new_login = store.authenticate(&"reset_user".to_string(), &"newpass".to_string());
    assert_eq!(
        new_login,
        Outcome::Authenticated,
        "Login with new password failed: {:?}",
        new_login
    );
}

#[test]
fn test_delete_user_flow() {
    let mut store = CredentialStore::new();

    store.register(&"todelete".to_string(), &"12345".to_string());

    let delete = store.delete_user(&"todelete".to_string());
    assert_eq!(delete, Outcome::Deleted, "Delete failed => {:?}", delete);

    let login = store.authenticate(&"todelete".to_string(), &"12345".to_string());
    assert_eq!(
        login,
        Outcome::NotFound,
        "User should be deleted, got: {:?}",
        login
    );
}

#[test]
fn end_to_end_scenario() {
    let mut store = CredentialStore::new();
    let alice = "alice".to_string();

    assert_eq!(store.register(&alice, &"pw1".to_string()), Outcome::Created);
    assert_eq!(
        store.authenticate(&alice, &"pw1".to_string()),
        Outcome::Authenticated
    );
    assert_eq!(
        store.authenticate(&alice, &"wrong".to_string()),
        Outcome::InvalidCredentials
    );
    assert_eq!(
        store.reset_password(&alice, &"pw2".to_string()),
        Outcome::Reset
    );
    assert_eq!(
        store.authenticate(&alice, &"pw1".to_string()),
        Outcome::InvalidCredentials
    );
    assert_eq!(
        store.authenticate(&alice, &"pw2".to_string()),
        Outcome::Authenticated
    );
    assert_eq!(store.delete_user(&alice), Outcome::Deleted);
    assert_eq!(
        store.authenticate(&alice, &"pw2".to_string()),
        Outcome::NotFound
    );
}

#[test]
fn deleted_username_can_be_registered_again() {
    let mut store = CredentialStore::new();
    let u = "phoenix".to_string();

    assert_eq!(store.register(&u, &"first".to_string()), Outcome::Created);
    assert_eq!(store.delete_user(&u), Outcome::Deleted);
    assert_eq!(store.register(&u, &"second".to_string()), Outcome::Created);
    assert_eq!(
        store.authenticate(&u, &"second".to_string()),
        Outcome::Authenticated
    );
    assert_eq!(
        store.authenticate(&u, &"first".to_string()),
        Outcome::InvalidCredentials
    );
}

#[test]
fn unknown_username_reports_not_found_everywhere() {
    let mut store = CredentialStore::new();
    let ghost_user = "nobody".to_string();

    assert_eq!(
        store.authenticate(&ghost_user, &"anything".to_string()),
        Outcome::NotFound
    );
    assert_eq!(
        store.reset_password(&ghost_user, &"anything".to_string()),
        Outcome::NotFound
    );
    assert_eq!(store.delete_user(&ghost_user), Outcome::NotFound);
}

#[test]
fn empty_strings_are_stored_verbatim() {
    // The store does not validate formats: the transport layer is expected
    // to reject empty usernames and passwords before calling it.
    let mut store = CredentialStore::new();
    let empty = String::new();

    assert_eq!(store.register(&empty, &empty), Outcome::Created);
    assert_eq!(store.authenticate(&empty, &empty), Outcome::Authenticated);
    assert_eq!(
        store.authenticate(&empty, &"x".to_string()),
        Outcome::InvalidCredentials
    );
}

#[test]
fn users_are_independent() {
    let mut store = CredentialStore::new();

    assert_eq!(
        store.register(&"ann".to_string(), &"pa".to_string()),
        Outcome::Created
    );
    assert_eq!(
        store.register(&"bob".to_string(), &"pb".to_string()),
        Outcome::Created
    );
    assert_eq!(
        store.reset_password(&"ann".to_string(), &"pa2".to_string()),
        Outcome::Reset
    );
    assert_eq!(store.delete_user(&"bob".to_string()), Outcome::Deleted);
    assert_eq!(
        store.authenticate(&"ann".to_string(), &"pa2".to_string()),
        Outcome::Authenticated
    );
    assert_eq!(
        store.authenticate(&"bob".to_string(), &"pb".to_string()),
        Outcome::NotFound
    );
}

#[test]
fn hash_nondeterminism() {
    // Two bcrypt digests of one password differ (fresh salts), and both
    // accept the password they hash.
    let first = bcrypt::hash("secret", bcrypt::DEFAULT_COST).unwrap();
    let second = bcrypt::hash("secret", bcrypt::DEFAULT_COST).unwrap();
    assert_ne!(first, second);
    assert!(bcrypt::verify("secret", &first).unwrap());
    assert!(bcrypt::verify("secret", &second).unwrap());
}

#[test]
fn request_payloads_carry_plain_strings() {
    let signup = SignupRequest {
        username: "carol".to_string(),
        password: "pw".to_string(),
    };
    let login = LoginRequest {
        username: "carol".to_string(),
        password: "pw".to_string(),
    };
    let reset = PasswordResetRequest {
        username: "carol".to_string(),
        new_password: "pw2".to_string(),
    };

    let mut store = CredentialStore::new();
    assert_eq!(
        store.register(&signup.username, &signup.password),
        Outcome::Created
    );
    assert_eq!(
        store.authenticate(&login.username, &login.password),
        Outcome::Authenticated
    );
    assert_eq!(
        store.reset_password(&reset.username, &reset.new_password),
        Outcome::Reset
    );
    assert_eq!(
        store.authenticate(&reset.username, &reset.new_password),
        Outcome::Authenticated
    );
}

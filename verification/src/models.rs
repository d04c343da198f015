//! The data carried by the credential store: one record per user, and the
//! plain payloads that a transport layer hands to the four operations.

use vstd::prelude::*;

verus! {

/// One stored credential record.
///
/// `id` is the 128-bit value of a randomly drawn version-4 UUID, assigned at
/// registration and immutable thereafter. `password_hash` is the bcrypt
/// digest of the user's current password; the plaintext is never stored.
pub struct User {
    pub id: u128,
    pub username: String,
    pub password_hash: String,
}

/// The mathematical content of a [`User`]. The store's view keys records by
/// username, so the record's own view carries identifier and digest.
pub ghost struct RecordView {
    pub id: u128,
    pub password_hash: Seq<char>,
}

impl View for User {
    type V = RecordView;

    open spec fn view(&self) -> RecordView {
        RecordView { id: self.id, password_hash: self.password_hash@ }
    }
}

/// Payload of a login (and of a delete) request.
pub struct LoginRequest {
    pub username: String,
    pub password: String,
}

/// Payload of a signup request.
pub struct SignupRequest {
    pub username: String,
    pub password: String,
}

/// Payload of a password-reset request.
pub struct PasswordResetRequest {
    pub username: String,
    pub new_password: String,
}

} // verus!

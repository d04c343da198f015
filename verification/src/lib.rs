//! A minimal credential-management library: an in-process store that
//! registers users, authenticates login attempts, rotates passwords and
//! removes accounts, with bcrypt password hashing behind trusted wrappers.
//!
//! The store owns a username-to-record mapping and exposes four operations,
//! each specified against the store's view, a `Map` from username to record.
//! A transport layer around the library is expected to decode requests into
//! plain strings, call one operation per request under exclusive access, and
//! render the returned [`store::Outcome`].

pub mod hashing;
pub mod laws;
pub mod models;
pub mod store;

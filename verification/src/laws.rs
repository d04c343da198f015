//! The library's laws: what chains of store operations guarantee, proved
//! once and for all over the operation relations that the store's
//! contracts state.
//!
//! Each lemma takes the views before and after the operations it speaks of,
//! with the operation relations as hypotheses; a caller of the store
//! obtains those relations from the operations' `ensures`.

use vstd::prelude::*;

use crate::hashing::{bcrypt_digest, bcrypt_matches};
use crate::store::{
    authenticate_spec, delete_spec, digests_wf, register_spec, reset_spec, Outcome, StoreView,
};

verus! {

/// A username that one registration just created is taken for the next:
/// a second registration of `u` reports `AlreadyExists` and changes
/// nothing, so the hash stored for the first password is still in place.
pub proof fn lemma_duplicate_registration_rejected(
    m0: StoreView,
    m1: StoreView,
    m2: StoreView,
    u: Seq<char>,
    p1: Seq<char>,
    p2: Seq<char>,
    r2: Outcome,
)
    requires
        register_spec(m0, m1, u, p1, Outcome::Created),
        register_spec(m1, m2, u, p2, r2),
    ensures
        r2 == Outcome::AlreadyExists,
        m2 == m1,
        bcrypt_matches(p1, m1[u].password_hash),
{
}

/// Right after a registration of `(u, p)`, authenticating `u` with `p`
/// succeeds: the stored digest accepts the registered password.
pub proof fn lemma_fresh_password_authenticates(
    m0: StoreView,
    m1: StoreView,
    u: Seq<char>,
    p: Seq<char>,
    r: Outcome,
)
    requires
        register_spec(m0, m1, u, p, Outcome::Created),
        authenticate_spec(m1, u, p, r),
    ensures
        r == Outcome::Authenticated,
{
}

/// For any registered user, a password that the stored digest accepts
/// authenticates — whether the digest came from registration or from a
/// later reset.
pub proof fn lemma_matching_password_authenticates(
    m: StoreView,
    u: Seq<char>,
    p: Seq<char>,
    r: Outcome,
)
    requires
        m.contains_key(u),
        bcrypt_digest(m[u].password_hash),
        bcrypt_matches(p, m[u].password_hash),
        authenticate_spec(m, u, p, r),
    ensures
        r == Outcome::Authenticated,
{
}

/// A registered user presented with a password that the stored digest does
/// not accept is turned away with `InvalidCredentials`. (bcrypt equates
/// two passwords exactly when their digests agree; candidates beyond
/// bcrypt's 72-byte truncation limit can collide with the stored one, so
/// the mismatch is a hypothesis rather than `p != p_stored`.)
pub proof fn lemma_wrong_password_rejected(m: StoreView, u: Seq<char>, p: Seq<char>, r: Outcome)
    requires
        m.contains_key(u),
        bcrypt_digest(m[u].password_hash),
        !bcrypt_matches(p, m[u].password_hash),
        authenticate_spec(m, u, p, r),
    ensures
        r == Outcome::InvalidCredentials,
{
}

/// Authenticating a username with no record reports `NotFound`, whatever
/// the password.
pub proof fn lemma_unknown_user_not_found(m: StoreView, u: Seq<char>, p: Seq<char>, r: Outcome)
    requires
        !m.contains_key(u),
        authenticate_spec(m, u, p, r),
    ensures
        r == Outcome::NotFound,
{
}

/// After a password reset, the new password authenticates on the very
/// next call.
pub proof fn lemma_reset_new_password_authenticates(
    m0: StoreView,
    m1: StoreView,
    u: Seq<char>,
    p_new: Seq<char>,
    r: Outcome,
)
    requires
        reset_spec(m0, m1, u, p_new, Outcome::Reset),
        authenticate_spec(m1, u, p_new, r),
    ensures
        r == Outcome::Authenticated,
{
}

/// After a password reset, a candidate that the fresh digest does not
/// accept — the old password, short of a bcrypt collision with the new
/// one — no longer authenticates.
pub proof fn lemma_reset_old_password_rejected(
    m0: StoreView,
    m1: StoreView,
    u: Seq<char>,
    p_new: Seq<char>,
    p_old: Seq<char>,
    r: Outcome,
)
    requires
        reset_spec(m0, m1, u, p_new, Outcome::Reset),
        !bcrypt_matches(p_old, m1[u].password_hash),
        authenticate_spec(m1, u, p_old, r),
    ensures
        r == Outcome::InvalidCredentials,
{
}

/// After a deletion, authenticating the username reports `NotFound` —
/// never `InvalidCredentials` — whatever the password.
pub proof fn lemma_deleted_user_not_found(
    m0: StoreView,
    m1: StoreView,
    u: Seq<char>,
    p: Seq<char>,
    r: Outcome,
)
    requires
        delete_spec(m0, m1, u, Outcome::Deleted),
        authenticate_spec(m1, u, p, r),
    ensures
        r == Outcome::NotFound,
{
}

/// After a deletion, the username is free again: a new registration is
/// not refused as a duplicate, so it succeeds with `Created` short of a
/// failure of the hashing primitive.
pub proof fn lemma_deleted_username_free_again(
    m0: StoreView,
    m1: StoreView,
    m2: StoreView,
    u: Seq<char>,
    p: Seq<char>,
    r: Outcome,
)
    requires
        delete_spec(m0, m1, u, Outcome::Deleted),
        register_spec(m1, m2, u, p, r),
    ensures
        r == Outcome::Created || r == Outcome::InternalError,
        r != Outcome::AlreadyExists,
{
}

/// Once the store holds `u`, a run of registrations of `u` keeps holding
/// it, each reporting `AlreadyExists` and changing nothing.
proof fn lemma_registered_persists(
    ms: Seq<StoreView>,
    ps: Seq<Seq<char>>,
    rs: Seq<Outcome>,
    u: Seq<char>,
    k1: int,
    k2: int,
)
    requires
        ms.len() == rs.len() + 1,
        ps.len() == rs.len(),
        forall|k: int| 0 <= k < rs.len() ==> register_spec(ms[k], ms[k + 1], u, ps[k], rs[k]),
        0 <= k1 <= k2 <= rs.len(),
        ms[k1].contains_key(u),
    ensures
        ms[k2].contains_key(u),
        forall|k: int| k1 <= k < k2 ==> rs[k] == Outcome::AlreadyExists,
    decreases k2 - k1,
{
    if k1 < k2 {
        assert(register_spec(ms[k1], ms[k1 + 1], u, ps[k1], rs[k1]));
        assert(rs[k1] == Outcome::AlreadyExists);
        lemma_registered_persists(ms, ps, rs, u, k1 + 1, k2);
    }
}

/// In any linearization of registrations of one username `u` — the shape
/// that N concurrent `register` calls take once an exclusive lock orders
/// them — at most one call reports `Created`, and every call after the
/// successful one reports `AlreadyExists`.
pub proof fn lemma_register_race_single_winner(
    ms: Seq<StoreView>,
    ps: Seq<Seq<char>>,
    rs: Seq<Outcome>,
    u: Seq<char>,
)
    requires
        ms.len() == rs.len() + 1,
        ps.len() == rs.len(),
        forall|k: int| 0 <= k < rs.len() ==> register_spec(ms[k], ms[k + 1], u, ps[k], rs[k]),
    ensures
        forall|k1: int, k2: int|
            0 <= k1 < k2 < rs.len() && rs[k1] == Outcome::Created ==> rs[k2]
                == Outcome::AlreadyExists,
{
    assert forall|k1: int, k2: int|
        0 <= k1 < k2 < rs.len() && rs[k1] == Outcome::Created implies rs[k2]
        == Outcome::AlreadyExists by {
        assert(register_spec(ms[k1], ms[k1 + 1], u, ps[k1], rs[k1]));
        assert(ms[k1 + 1].contains_key(u));
        lemma_registered_persists(ms, ps, rs, u, k1 + 1, k2 + 1);
    }
}

/// When the username starts out free and the hashing primitive does not
/// fail, a linearization of N registrations of `u` yields exactly one
/// `Created` — the first call — and N−1 `AlreadyExists`.
pub proof fn lemma_register_race_exactly_one_winner(
    ms: Seq<StoreView>,
    ps: Seq<Seq<char>>,
    rs: Seq<Outcome>,
    u: Seq<char>,
)
    requires
        ms.len() == rs.len() + 1,
        ps.len() == rs.len(),
        rs.len() > 0,
        forall|k: int| 0 <= k < rs.len() ==> register_spec(ms[k], ms[k + 1], u, ps[k], rs[k]),
        !ms[0].contains_key(u),
        forall|k: int| 0 <= k < rs.len() ==> rs[k] != Outcome::InternalError,
    ensures
        rs[0] == Outcome::Created,
        forall|k: int| 1 <= k < rs.len() ==> rs[k] == Outcome::AlreadyExists,
{
    assert(register_spec(ms[0], ms[1], u, ps[0], rs[0]));
    assert(rs[0] == Outcome::Created);
    lemma_registered_persists(ms, ps, rs, u, 1, rs.len() as int);
}

/// Registration preserves the hashing discipline: if every stored hash was
/// a well-formed bcrypt digest before, it still is after.
pub proof fn lemma_register_preserves_digests(
    m0: StoreView,
    m1: StoreView,
    u: Seq<char>,
    p: Seq<char>,
    r: Outcome,
)
    requires
        digests_wf(m0),
        register_spec(m0, m1, u, p, r),
    ensures
        digests_wf(m1),
{
    if r == Outcome::Created {
        assert forall|v: Seq<char>| #[trigger] m1.contains_key(v) implies bcrypt_digest(
            m1[v].password_hash,
        ) && m1[v].password_hash.len() == 60 by {
            if v != u {
                assert(m0.contains_key(v));
                assert(m1[v] == m0[v]);
            }
        }
    }
}

/// A password reset preserves the hashing discipline.
pub proof fn lemma_reset_preserves_digests(
    m0: StoreView,
    m1: StoreView,
    u: Seq<char>,
    p: Seq<char>,
    r: Outcome,
)
    requires
        digests_wf(m0),
        reset_spec(m0, m1, u, p, r),
    ensures
        digests_wf(m1),
{
    if r == Outcome::Reset {
        assert forall|v: Seq<char>| #[trigger] m1.contains_key(v) implies bcrypt_digest(
            m1[v].password_hash,
        ) && m1[v].password_hash.len() == 60 by {
            if v != u {
                assert(m0.contains_key(v));
                assert(m1[v] == m0[v]);
            }
        }
    }
}

/// A deletion preserves the hashing discipline.
pub proof fn lemma_delete_preserves_digests(
    m0: StoreView,
    m1: StoreView,
    u: Seq<char>,
    r: Outcome,
)
    requires
        digests_wf(m0),
        delete_spec(m0, m1, u, r),
    ensures
        digests_wf(m1),
{
    if r == Outcome::Deleted {
        assert forall|v: Seq<char>| #[trigger] m1.contains_key(v) implies bcrypt_digest(
            m1[v].password_hash,
        ) && m1[v].password_hash.len() == 60 by {
            assert(m0.contains_key(v));
            assert(m1[v] == m0[v]);
        }
    }
}

/// On a store that keeps the hashing discipline, authentication never
/// reports `InternalError`: the hashing primitive is consulted for
/// failures only while writing, never while checking.
pub proof fn lemma_authenticate_total(m: StoreView, u: Seq<char>, p: Seq<char>, r: Outcome)
    requires
        digests_wf(m),
        authenticate_spec(m, u, p, r),
    ensures
        r != Outcome::InternalError,
{
}

} // verus!

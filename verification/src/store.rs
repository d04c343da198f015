//! The credential store: a username-to-record mapping under a single owner,
//! with the four operations register, authenticate, reset and delete.
//!
//! Contracts are stated against the store's view, a `Map` from username to
//! [`RecordView`], through one relation per operation (`register_spec` and
//! friends). A caller that needs the operations atomic under concurrency
//! wraps the store in one exclusive lock; the store itself is sequential.

use vstd::prelude::*;

use crate::hashing::{bcrypt_digest, bcrypt_matches, fresh_id, hash_password, verify_password};
use crate::models::{RecordView, User};

verus! {

/// The result of one credential-store operation.
#[derive(Clone, Copy, Debug, PartialEq, Eq, Structural)]
pub enum Outcome {
    /// A new user record was inserted.
    Created,
    /// The presented password matches the stored hash.
    Authenticated,
    /// The stored hash was replaced by a hash of the new password.
    Reset,
    /// The user record was removed.
    Deleted,
    /// Registration of a username that is already taken.
    AlreadyExists,
    /// The named username has no record in the store.
    NotFound,
    /// The presented password does not match the stored hash.
    InvalidCredentials,
    /// The hashing primitive failed; the store was left unchanged.
    InternalError,
}

/// The in-process credential store: at most one record per username.
pub struct CredentialStore {
    records: Vec<User>,
}

/// What a credential store denotes: its records keyed by username.
pub type StoreView = Map<Seq<char>, RecordView>;

/// The store's hashing discipline, stated of a view: every record holds a
/// well-formed 60-character bcrypt digest — in particular never an empty
/// string, and never a retained plaintext of any other length.
pub open spec fn digests_wf(m: StoreView) -> bool {
    forall|u: Seq<char>| #[trigger]
        m.contains_key(u) ==> bcrypt_digest(m[u].password_hash) && m[u].password_hash.len() == 60
}

/// The mapping that a sequence of records denotes: each record keyed by its
/// username, later records taking precedence (the store never holds two
/// records of one username, so nothing is lost).
pub closed spec fn map_of(rs: Seq<User>) -> Map<Seq<char>, RecordView>
    decreases rs.len(),
{
    if rs.len() == 0 {
        Map::empty()
    } else {
        map_of(rs.drop_last()).insert(rs.last().username@, rs.last()@)
    }
}

/// Pairwise-distinct usernames: the store invariant.
pub closed spec fn distinct_usernames(rs: Seq<User>) -> bool {
    forall|i: int, j: int|
        0 <= i < j < rs.len() ==> rs[i].username@ != rs[j].username@
}

impl View for CredentialStore {
    type V = Map<Seq<char>, RecordView>;

    closed spec fn view(&self) -> Map<Seq<char>, RecordView> {
        map_of(self.records@)
    }
}

impl CredentialStore {
    /// Well-formedness: no username occurs twice.
    pub closed spec fn wf(&self) -> bool {
        distinct_usernames(self.records@)
    }

    /// An empty store.
    pub fn new() -> (s: CredentialStore)
        ensures
            s.wf(),
            s@ == Map::<Seq<char>, RecordView>::empty(),
            digests_wf(s@),
    {
        CredentialStore { records: Vec::new() }
    }

    /// The index of the record of `username`, if there is one.
    fn find_index(&self, username: &String) -> (r: Option<usize>)
        ensures
            match r {
                Some(i) => i < self.records@.len() && self.records@[i as int].username@
                    == username@,
                None => forall|j: int|
                    0 <= j < self.records@.len() ==> self.records@[j].username@ != username@,
            },
    {
        let mut i: usize = 0;
        while i < self.records.len()
            invariant
                i <= self.records@.len(),
                forall|j: int| 0 <= j < i ==> self.records@[j].username@ != username@,
            decreases self.records@.len() - i,
        {
            if self.records[i].username == *username {
                return Some(i);
            }
            i = i + 1;
        }
        None
    }
}

/// What registering `u` with password `p` does: `AlreadyExists` exactly on
/// a taken username, leaving the store unchanged; otherwise either a new
/// record whose hash bcrypt accepts against `p` is inserted and nothing else
/// moves (`Created`), or the hashing primitive failed and the store is
/// unchanged (`InternalError`).
pub open spec fn register_spec(
    pre: Map<Seq<char>, RecordView>,
    post: Map<Seq<char>, RecordView>,
    u: Seq<char>,
    p: Seq<char>,
    r: Outcome,
) -> bool {
    &&& (r == Outcome::AlreadyExists <==> pre.contains_key(u))
    &&& (r == Outcome::AlreadyExists || r == Outcome::InternalError ==> post == pre)
    &&& (r == Outcome::Created ==> {
        &&& post.contains_key(u)
        &&& bcrypt_matches(p, post[u].password_hash)
        &&& bcrypt_digest(post[u].password_hash)
        &&& post[u].password_hash.len() == 60
        &&& forall|v: Seq<char>| #[trigger]
            post.contains_key(v) <==> pre.contains_key(v) || v == u
        &&& forall|v: Seq<char>|
            v != u && pre.contains_key(v) ==> post[v] == #[trigger] pre[v]
    })
    &&& (r == Outcome::Created || r == Outcome::AlreadyExists || r == Outcome::InternalError)
}

/// What authenticating `u` with password `p` observes (never a change):
/// `NotFound` exactly on an unknown username; otherwise the verdict of
/// bcrypt on `p` against the stored digest, with `InternalError` possible
/// only if the stored digest is not one bcrypt's own hashing produces.
pub open spec fn authenticate_spec(
    m: Map<Seq<char>, RecordView>,
    u: Seq<char>,
    p: Seq<char>,
    r: Outcome,
) -> bool {
    &&& (r == Outcome::NotFound <==> !m.contains_key(u))
    &&& (r == Outcome::Authenticated ==> m.contains_key(u) && bcrypt_matches(
        p,
        m[u].password_hash,
    ))
    &&& (r == Outcome::InvalidCredentials ==> m.contains_key(u) && !bcrypt_matches(
        p,
        m[u].password_hash,
    ))
    &&& (m.contains_key(u) && bcrypt_digest(m[u].password_hash) ==> r != Outcome::InternalError)
    &&& (r == Outcome::NotFound || r == Outcome::Authenticated || r == Outcome::InvalidCredentials
        || r == Outcome::InternalError)
}

/// What resetting the password of `u` to `p` does: `NotFound` exactly on an
/// unknown username; otherwise the record keeps its identifier and gets a
/// hash that bcrypt accepts against `p`, no other entry moving (`Reset`),
/// or the hashing primitive failed and the store is unchanged.
pub open spec fn reset_spec(
    pre: Map<Seq<char>, RecordView>,
    post: Map<Seq<char>, RecordView>,
    u: Seq<char>,
    p: Seq<char>,
    r: Outcome,
) -> bool {
    &&& (r == Outcome::NotFound <==> !pre.contains_key(u))
    &&& (r == Outcome::NotFound || r == Outcome::InternalError ==> post == pre)
    &&& (r == Outcome::InternalError ==> pre.contains_key(u))
    &&& (r == Outcome::Reset ==> {
        &&& pre.contains_key(u)
        &&& post.contains_key(u)
        &&& post[u].id == pre[u].id
        &&& bcrypt_matches(p, post[u].password_hash)
        &&& bcrypt_digest(post[u].password_hash)
        &&& post[u].password_hash.len() == 60
        &&& forall|v: Seq<char>| #[trigger] post.contains_key(v) <==> pre.contains_key(v)
        &&& forall|v: Seq<char>|
            v != u && pre.contains_key(v) ==> post[v] == #[trigger] pre[v]
    })
    &&& (r == Outcome::Reset || r == Outcome::NotFound || r == Outcome::InternalError)
}

/// What deleting `u` does: `NotFound` exactly on an unknown username, with
/// no change; `Deleted` exactly on a known one, whose entry alone leaves.
pub open spec fn delete_spec(
    pre: Map<Seq<char>, RecordView>,
    post: Map<Seq<char>, RecordView>,
    u: Seq<char>,
    r: Outcome,
) -> bool {
    &&& (r == Outcome::Deleted <==> pre.contains_key(u))
    &&& (r == Outcome::NotFound <==> !pre.contains_key(u))
    &&& (r == Outcome::NotFound ==> post == pre)
    &&& (r == Outcome::Deleted ==> {
        &&& !post.contains_key(u)
        &&& forall|v: Seq<char>| #[trigger]
            post.contains_key(v) <==> pre.contains_key(v) && v != u
        &&& forall|v: Seq<char>|
            v != u && pre.contains_key(v) ==> post[v] == #[trigger] pre[v]
    })
    &&& (r == Outcome::Deleted || r == Outcome::NotFound)
}

impl CredentialStore {
    /// Register `username` with `password`: refuse a taken username, and
    /// otherwise insert a record with a fresh random identifier and the
    /// bcrypt hash of the password. The plaintext is not retained.
    pub fn register(&mut self, username: &String, password: &String) -> (r: Outcome)
        requires
            old(self).wf(),
        ensures
            final(self).wf(),
            register_spec(old(self)@, final(self)@, username@, password@, r),
    {
        proof {
            lemma_map_of_dom(self.records@);
        }
        match self.find_index(username) {
            Some(_) => Outcome::AlreadyExists,
            None => match hash_password(password) {
                None => Outcome::InternalError,
                Some(h) => {
                    let id = fresh_id();
                    let rec = User { id, username: username.clone(), password_hash: h };
                    proof {
                        let rs = self.records@;
                        lemma_map_of_push(rs, rec);
                        assert forall|a: int, b: int|
                            0 <= a < b < rs.push(rec).len() implies rs.push(
                            rec,
                        )[a].username@ != rs.push(rec)[b].username@ by {
                            if b == rs.len() {
                                assert(rs[a].username@ != username@);
                            }
                        }
                    }
                    self.records.push(rec);
                    Outcome::Created
                },
            },
        }
    }

    /// Authenticate `username` with `password`: `NotFound` for an unknown
    /// username, otherwise bcrypt's verdict on the password against the
    /// stored digest. The store is not changed.
    pub fn authenticate(&self, username: &String, password: &String) -> (r: Outcome)
        requires
            self.wf(),
        ensures
            authenticate_spec(self@, username@, password@, r),
    {
        proof {
            lemma_map_of_dom(self.records@);
        }
        match self.find_index(username) {
            None => Outcome::NotFound,
            Some(i) => {
                proof {
                    lemma_map_of_index(self.records@, i as int);
                }
                match verify_password(password, &self.records[i].password_hash) {
                    Some(true) => Outcome::Authenticated,
                    Some(false) => Outcome::InvalidCredentials,
                    None => Outcome::InternalError,
                }
            },
        }
    }

    /// Replace the password of `username` by `new_password`: the record
    /// keeps its identifier and gets the bcrypt hash of the new password,
    /// immediately and in full.
    pub fn reset_password(&mut self, username: &String, new_password: &String) -> (r: Outcome)
        requires
            old(self).wf(),
        ensures
            final(self).wf(),
            reset_spec(old(self)@, final(self)@, username@, new_password@, r),
    {
        proof {
            lemma_map_of_dom(self.records@);
        }
        match self.find_index(username) {
            None => Outcome::NotFound,
            Some(i) => {
                proof {
                    lemma_map_of_index(self.records@, i as int);
                }
                match hash_password(new_password) {
                    None => Outcome::InternalError,
                    Some(h) => {
                        let id = self.records[i].id;
                        let rec = User { id, username: username.clone(), password_hash: h };
                        proof {
                            let rs = self.records@;
                            lemma_map_of_update(rs, i as int, rec);
                            assert forall|a: int, b: int|
                                0 <= a < b < rs.update(i as int, rec).len() implies rs.update(
                                i as int,
                                rec,
                            )[a].username@ != rs.update(i as int, rec)[b].username@ by {
                                assert(rs.update(i as int, rec)[a].username@ == rs[a].username@);
                                assert(rs.update(i as int, rec)[b].username@ == rs[b].username@);
                            }
                        }
                        self.records[i] = rec;
                        Outcome::Reset
                    },
                }
            },
        }
    }

    /// Remove the record of `username`: `NotFound` for an unknown username,
    /// `Deleted` otherwise, with that entry alone leaving the store.
    pub fn delete_user(&mut self, username: &String) -> (r: Outcome)
        requires
            old(self).wf(),
        ensures
            final(self).wf(),
            delete_spec(old(self)@, final(self)@, username@, r),
    {
        proof {
            lemma_map_of_dom(self.records@);
        }
        match self.find_index(username) {
            None => Outcome::NotFound,
            Some(i) => {
                proof {
                    let rs = self.records@;
                    lemma_map_of_index(rs, i as int);
                    lemma_map_of_remove(rs, i as int);
                    assert forall|a: int, b: int|
                        0 <= a < b < rs.remove(i as int).len() implies rs.remove(
                        i as int,
                    )[a].username@ != rs.remove(i as int)[b].username@ by {
                        if a < i as int {
                            assert(rs.remove(i as int)[a] == rs[a]);
                        } else {
                            assert(rs.remove(i as int)[a] == rs[a + 1]);
                        }
                        if b < i as int {
                            assert(rs.remove(i as int)[b] == rs[b]);
                        } else {
                            assert(rs.remove(i as int)[b] == rs[b + 1]);
                        }
                    }
                }
                self.records.remove(i);
                Outcome::Deleted
            },
        }
    }
}

/// A key is in the denoted mapping exactly when some record carries it.
proof fn lemma_map_of_dom(rs: Seq<User>)
    ensures
        forall|u: Seq<char>|
            #[trigger] map_of(rs).contains_key(u) <==> exists|i: int|
                0 <= i < rs.len() && rs[i].username@ == u,
    decreases rs.len(),
{
    if rs.len() > 0 {
        lemma_map_of_dom(rs.drop_last());
        assert forall|u: Seq<char>| #[trigger]
            map_of(rs).contains_key(u) implies exists|i: int|
            0 <= i < rs.len() && rs[i].username@ == u by {
            if u == rs.last().username@ {
                assert(rs[rs.len() - 1].username@ == u);
            } else {
                assert(map_of(rs.drop_last()).contains_key(u));
                let i = choose|i: int|
                    0 <= i < rs.drop_last().len() && rs.drop_last()[i].username@ == u;
                assert(rs.drop_last()[i] == rs[i]);
                assert(rs[i].username@ == u);
            }
        }
        assert forall|u: Seq<char>|
            exists|i: int|
                0 <= i < rs.len() && rs[i].username@ == u implies #[trigger] map_of(
            rs,
        ).contains_key(u) by {
            let i = choose|i: int| 0 <= i < rs.len() && rs[i].username@ == u;
            if i < rs.len() - 1 {
                assert(rs.drop_last()[i].username@ == u);
                assert(map_of(rs.drop_last()).contains_key(u));
            } else {
                assert(u == rs.last().username@);
            }
        }
    }
}

/// With distinct usernames, the mapping sends each record's username to
/// that record's view.
proof fn lemma_map_of_index(rs: Seq<User>, i: int)
    requires
        distinct_usernames(rs),
        0 <= i < rs.len(),
    ensures
        map_of(rs).contains_key(rs[i].username@),
        map_of(rs)[rs[i].username@] == rs[i]@,
    decreases rs.len(),
{
    if i == rs.len() - 1 {
        assert(map_of(rs)[rs.last().username@] == rs.last()@);
    } else {
        assert(distinct_usernames(rs.drop_last()));
        lemma_map_of_index(rs.drop_last(), i);
        assert(rs.drop_last()[i] == rs[i]);
        assert(rs[i].username@ != rs.last().username@);
    }
}

/// Appending a record inserts it into the denoted mapping.
proof fn lemma_map_of_push(rs: Seq<User>, rec: User)
    ensures
        map_of(rs.push(rec)) == map_of(rs).insert(rec.username@, rec@),
{
    assert(rs.push(rec).drop_last() =~= rs);
    assert(rs.push(rec).last() == rec);
}

/// Overwriting the record at `i` with one of the same username updates the
/// denoted mapping at that username alone.
proof fn lemma_map_of_update(rs: Seq<User>, i: int, rec: User)
    requires
        distinct_usernames(rs),
        0 <= i < rs.len(),
        rec.username@ == rs[i].username@,
    ensures
        map_of(rs.update(i, rec)) == map_of(rs).insert(rec.username@, rec@),
    decreases rs.len(),
{
    let u = rec.username@;
    if i == rs.len() - 1 {
        assert(rs.update(i, rec).drop_last() =~= rs.drop_last());
        assert(rs.update(i, rec).last() == rec);
        assert(map_of(rs.drop_last()).insert(u, rec@) =~= map_of(rs.drop_last()).insert(
            u,
            rs.last()@,
        ).insert(u, rec@));
    } else {
        let d = rs.drop_last();
        assert(distinct_usernames(d));
        lemma_map_of_update(d, i, rec);
        assert(rs.update(i, rec).drop_last() =~= d.update(i, rec));
        assert(rs.update(i, rec).last() == rs.last());
        assert(rs.last().username@ != u);
        assert(map_of(d).insert(u, rec@).insert(rs.last().username@, rs.last()@) =~= map_of(
            d,
        ).insert(rs.last().username@, rs.last()@).insert(u, rec@));
    }
}

/// Removing the record at `i` removes its username from the denoted mapping.
proof fn lemma_map_of_remove(rs: Seq<User>, i: int)
    requires
        distinct_usernames(rs),
        0 <= i < rs.len(),
    ensures
        map_of(rs.remove(i)) == map_of(rs).remove(rs[i].username@),
    decreases rs.len(),
{
    let u = rs[i].username@;
    if i == rs.len() - 1 {
        assert(rs.remove(i) =~= rs.drop_last());
        lemma_map_of_dom(rs.drop_last());
        assert(!map_of(rs.drop_last()).contains_key(u));
        assert(map_of(rs.drop_last()) =~= map_of(rs.drop_last()).insert(u, rs.last()@).remove(u));
    } else {
        let d = rs.drop_last();
        assert(distinct_usernames(d));
        lemma_map_of_remove(d, i);
        assert(d[i] == rs[i]);
        assert(rs.remove(i).drop_last() =~= d.remove(i));
        assert(rs.remove(i).last() == rs.last());
        assert(rs.last().username@ != u);
        assert(map_of(d).remove(u).insert(rs.last().username@, rs.last()@) =~= map_of(d).insert(
            rs.last().username@,
            rs.last()@,
        ).remove(u));
    }
}

} // verus!

//! Durable registry of device sessions. A session records the refresh-token
//! lineage of one logged-in device: its current generation counter advances
//! on every successful refresh, and presenting a token from any other
//! generation proves that a second copy of the credential exists, so the
//! whole session is revoked.
use crate::auth::RefreshToken;
use crate::error::VaultError;
use vstd::prelude::*;

verus! {

/// One device session owned by one account.
pub struct Session {
    pub id: u64,
    pub account_id: u64,
    /// Client-reported device fingerprint; informational only.
    pub fingerprint: String,
    /// Generation counter the current refresh token is bound to.
    pub generation: u64,
    pub issued_at: u64,
    pub last_used: u64,
    pub revoked: bool,
}

/// Whether some row carries the given session id.
pub open spec fn has_session(s: Seq<Session>, id: u64) -> bool {
    exists|i: int| 0 <= i < s.len() && s[i].id == id
}

/// The row index carrying the given session id; meaningful only when ids
/// are unique and the id is present.
pub open spec fn session_index(s: Seq<Session>, id: u64) -> int {
    choose|i: int| 0 <= i < s.len() && s[i].id == id
}

/// No two rows share a session id.
pub open spec fn ids_unique(s: Seq<Session>) -> bool {
    forall|i: int, j: int|
        0 <= i < s.len() && 0 <= j < s.len() && i != j ==> s[i].id != s[j].id
}

/// What presenting a refresh token does to the registry. An unknown or
/// already-revoked session fails with `NotFound`. A token bound to the
/// session's current generation rotates it: the counter advances and the
/// new generation is returned. A token from any other generation proves a
/// second live copy of the credential exists, so the session is revoked and
/// the outcome is `RefreshTokenReused`.
pub open spec fn spec_refresh(s: Seq<Session>, tok: RefreshToken, now: u64) -> (Seq<Session>,
    Result<u64, VaultError>) {
    if !has_session(s, tok.session_id) {
        (s, Err(VaultError::NotFound))
    } else {
        let i = session_index(s, tok.session_id);
        let sess = s[i];
        if sess.revoked {
            (s, Err(VaultError::NotFound))
        } else if tok.generation == sess.generation && sess.generation < u64::MAX {
            (
                s.update(
                    i,
                    Session {
                        generation: (sess.generation + 1) as u64,
                        last_used: now,
                        ..sess
                    },
                ),
                Ok((sess.generation + 1) as u64),
            )
        } else {
            (s.update(i, Session { revoked: true, ..sess }), Err(VaultError::RefreshTokenReused))
        }
    }
}

/// Durable store of device sessions.
pub struct SessionRegistry {
    sessions: Vec<Session>,
    next_id: u64,
}

impl SessionRegistry {
    /// The rows of the registry.
    pub closed spec fn rows(&self) -> Seq<Session> {
        self.sessions@
    }

    /// The id the next created session will get.
    pub closed spec fn next(&self) -> u64 {
        self.next_id
    }

    /// Well-formedness: session ids are unique and below the allocation
    /// counter.
    pub open spec fn wf(&self) -> bool {
        &&& ids_unique(self.rows())
        &&& forall|i: int| 0 <= i < self.rows().len() ==> (#[trigger] self.rows()[i]).id
            < self.next()
    }

    /// An empty registry.
    pub fn new() -> (r: SessionRegistry)
        ensures
            r.wf(),
            r.rows() == Seq::<Session>::empty(),
            r.next() == 0,
    {
        SessionRegistry { sessions: Vec::new(), next_id: 0 }
    }

    /// Whether the id allocator is exhausted.
    pub fn next_is_max(&self) -> (r: bool)
        ensures
            r == (self.next() == u64::MAX),
    {
        self.next_id == u64::MAX
    }

    /// Records a new session for `account_id` at generation zero and
    /// returns its id.
    pub fn create(&mut self, account_id: u64, fingerprint: String, now: u64) -> (id: u64)
        requires
            old(self).wf(),
            old(self).next() < u64::MAX,
        ensures
            final(self).wf(),
            id == old(self).next(),
            final(self).next() == old(self).next() + 1,
            final(self).rows() == old(self).rows().push(
                Session {
                    id,
                    account_id,
                    fingerprint,
                    generation: 0,
                    issued_at: now,
                    last_used: now,
                    revoked: false,
                },
            ),
    {
        let id = self.next_id;
        self.sessions.push(
            Session {
                id,
                account_id,
                fingerprint,
                generation: 0,
                issued_at: now,
                last_used: now,
                revoked: false,
            },
        );
        self.next_id = self.next_id + 1;
        id
    }

    /// The row index holding session `id`, if any.
    fn index_of(&self, id: u64) -> (r: Option<usize>)
        ensures
            match r {
                Some(i) => i < self.rows().len() && self.rows()[i as int].id == id,
                None => !has_session(self.rows(), id),
            },
    {
        let mut i: usize = 0;
        while i < self.sessions.len()
            invariant
                i <= self.rows().len(),
                forall|j: int| 0 <= j < i ==> (#[trigger] self.rows()[j]).id != id,
            decreases self.rows().len() - i,
        {
            if self.sessions[i].id == id {
                return Some(i);
            }
            i = i + 1;
        }
        None
    }

    /// Looks a session up by id.
    pub fn lookup(&self, id: u64) -> (r: Option<&Session>)
        requires
            self.wf(),
        ensures
            match r {
                Some(s) => has_session(self.rows(), id) && *s == self.rows()[session_index(
                    self.rows(),
                    id,
                )],
                None => !has_session(self.rows(), id),
            },
    {
        match self.index_of(id) {
            Some(i) => {
                let s = &self.sessions[i];
                proof {
                    assert(self.rows()[session_index(self.rows(), id)].id == id);
                    assert(session_index(self.rows(), id) == i);
                }
                Some(s)
            },
            None => None,
        }
    }

    /// Revokes the session with the given id; returns whether it existed.
    pub fn revoke(&mut self, id: u64) -> (found: bool)
        requires
            old(self).wf(),
        ensures
            final(self).wf(),
            final(self).next() == old(self).next(),
            found == has_session(old(self).rows(), id),
            found ==> final(self).rows() == old(self).rows().update(
                session_index(old(self).rows(), id),
                Session { revoked: true, ..old(self).rows()[session_index(old(self).rows(), id)] },
            ),
            !found ==> final(self).rows() == old(self).rows(),
    {
        match self.index_of(id) {
            Some(i) => {
                proof {
                    assert(old(self).rows()[session_index(old(self).rows(), id)].id == id);
                    assert(session_index(old(self).rows(), id) == i);
                }
                let slot = &mut self.sessions[i];
                slot.revoked = true;
                true
            },
            None => false,
        }
    }

    /// Revokes every session of the given account, as on a forced logout of
    /// all devices.
    pub fn revoke_all_for_account(&mut self, account_id: u64)
        requires
            old(self).wf(),
        ensures
            final(self).wf(),
            final(self).next() == old(self).next(),
            final(self).rows().len() == old(self).rows().len(),
            forall|i: int|
                0 <= i < old(self).rows().len() ==> final(self).rows()[i] == (
                if old(self).rows()[i].account_id == account_id {
                    Session { revoked: true, ..old(self).rows()[i] }
                } else {
                    old(self).rows()[i]
                }),
    {
        let mut i: usize = 0;
        while i < self.sessions.len()
            invariant
                i <= self.rows().len(),
                self.rows().len() == old(self).rows().len(),
                self.next() == old(self).next(),
                forall|j: int|
                    i <= j < self.rows().len() ==> self.rows()[j] == old(self).rows()[j],
                forall|j: int|
                    0 <= j < i ==> self.rows()[j] == (
                    if old(self).rows()[j].account_id == account_id {
                        Session { revoked: true, ..old(self).rows()[j] }
                    } else {
                        old(self).rows()[j]
                    }),
            decreases self.rows().len() - i,
        {
            if self.sessions[i].account_id == account_id {
                let slot = &mut self.sessions[i];
                slot.revoked = true;
            }
            i = i + 1;
        }
        proof {
            assert(ids_unique(self.rows())) by {
                assert(forall|i: int, j: int|
                    0 <= i < self.rows().len() && 0 <= j < self.rows().len() && i != j
                        ==> self.rows()[i].id == old(self).rows()[i].id && self.rows()[j].id == old(
                        self,
                    ).rows()[j].id);
            }
        }
    }

    /// Presents a refresh token: rotates the session on a current-generation
    /// token, revokes it on a token from any other generation.
    pub fn refresh(&mut self, tok: &RefreshToken, now: u64) -> (r: Result<u64, VaultError>)
        requires
            old(self).wf(),
        ensures
            final(self).wf(),
            final(self).next() == old(self).next(),
            final(self).rows() == spec_refresh(old(self).rows(), *tok, now).0,
            r == spec_refresh(old(self).rows(), *tok, now).1,
    {
        match self.index_of(tok.session_id) {
            None => Err(VaultError::NotFound),
            Some(i) => {
                proof {
                    assert(old(self).rows()[session_index(old(self).rows(), tok.session_id)].id
                        == tok.session_id);
                    assert(session_index(old(self).rows(), tok.session_id) == i);
                }
                if self.sessions[i].revoked {
                    Err(VaultError::NotFound)
                } else if tok.generation == self.sessions[i].generation
                    && self.sessions[i].generation < u64::MAX {
                    let gen = self.sessions[i].generation + 1;
                    let slot = &mut self.sessions[i];
                    slot.generation = gen;
                    slot.last_used = now;
                    Ok(gen)
                } else {
                    let slot = &mut self.sessions[i];
                    slot.revoked = true;
                    Err(VaultError::RefreshTokenReused)
                }
            },
        }
    }
}

/// Submitting a previously-rotated-away refresh token after a successful
/// refresh fails with `RefreshTokenReused`, revokes the session, and every
/// later refresh against that session fails.
pub proof fn lemma_refresh_rotation_detects_reuse(
    s: Seq<Session>,
    tok: RefreshToken,
    now1: u64,
    now2: u64,
)
    requires
        ids_unique(s),
        spec_refresh(s, tok, now1).1 is Ok,
    ensures
        ({
            let s1 = spec_refresh(s, tok, now1).0;
            let after = spec_refresh(s1, tok, now2);
            &&& after.1 == Err::<u64, VaultError>(VaultError::RefreshTokenReused)
            &&& after.0[session_index(after.0, tok.session_id)].revoked
            &&& forall|t3: RefreshToken, n3: u64|
                t3.session_id == tok.session_id ==> spec_refresh(after.0, t3, n3).1 == Err::<
                    u64,
                    VaultError,
                >(VaultError::NotFound)
        }),
{
    let i = session_index(s, tok.session_id);
    let s1 = spec_refresh(s, tok, now1).0;
    assert(0 <= i < s.len() && s[i].id == tok.session_id);
    assert(s1 == s.update(i, Session { generation: (s[i].generation + 1) as u64, last_used: now1, ..s[i] }));
    assert(s1[i].id == tok.session_id);
    assert(has_session(s1, tok.session_id));
    let i1 = session_index(s1, tok.session_id);
    assert(0 <= i1 < s1.len() && s1[i1].id == tok.session_id);
    assert(i1 == i) by {
        if i1 != i {
            assert(s1[i1] == s[i1]);
            assert(s[i1].id == s[i].id);
        }
    }
    assert(s1[i].generation != tok.generation);
    let s2 = spec_refresh(s1, tok, now2).0;
    assert(s2 == s1.update(i, Session { revoked: true, ..s1[i] }));
    assert(s2[i].id == tok.session_id && s2[i].revoked);
    let i2 = session_index(s2, tok.session_id);
    assert(0 <= i2 < s2.len() && s2[i2].id == tok.session_id);
    assert(i2 == i) by {
        if i2 != i {
            assert(s2[i2] == s[i2]);
            assert(s[i2].id == s[i].id);
        }
    }
    assert forall|t3: RefreshToken, n3: u64|
        t3.session_id == tok.session_id implies spec_refresh(s2, t3, n3).1 == Err::<
        u64,
        VaultError,
    >(VaultError::NotFound) by {
        assert(has_session(s2, t3.session_id));
        let i3 = session_index(s2, t3.session_id);
        assert(0 <= i3 < s2.len() && s2[i3].id == t3.session_id);
        if i3 != i {
            assert(s2[i3] == s[i3]);
            assert(s[i3].id == s[i].id);
        }
        assert(i3 == i);
        assert(s2[i3].revoked);
    }
}

} // verus!

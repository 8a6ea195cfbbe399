//! Accounts and the credential verifier. A submitted master-password proof
//! (a slow-hash output, never the raw password) is compared against the
//! stored hash in constant time, and a failure is indistinguishable from a
//! non-existent account. Failed primary verifications are counted on the
//! account so the login flow can apply backoff. The security stamp is
//! bumped on any credential change and invalidates outstanding access
//! tokens by mismatch alone.
use crate::crypto::ct_eq_bytes;
use crate::twofactor::{Challenge, SecondFactor};
use vstd::prelude::*;

verus! {

/// One registered account.
pub struct Account {
    pub id: u64,
    /// Login identifier, unique across the store.
    pub identifier: String,
    /// Stored slow-hash of the master password.
    pub password_hash: Vec<u8>,
    /// Bumped on any credential change; access tokens snapshot it.
    pub security_stamp: u64,
    /// Monotonic revision stamp of the account's vault data.
    pub revision: u64,
    /// Consecutive failed primary verifications, for caller-applied backoff.
    pub failed_logins: u32,
    /// Configured second-factor providers.
    pub factors: Vec<SecondFactor>,
    /// Outstanding hardware-assertion challenges, each single use.
    pub challenges: Vec<Challenge>,
}

/// Whether some account carries the given id.
pub open spec fn has_account(s: Seq<Account>, id: u64) -> bool {
    exists|i: int| 0 <= i < s.len() && s[i].id == id
}

/// The row index of the account with the given id.
pub open spec fn account_index(s: Seq<Account>, id: u64) -> int {
    choose|i: int| 0 <= i < s.len() && s[i].id == id
}

/// Whether some account carries the given login identifier.
pub open spec fn has_identifier(s: Seq<Account>, ident: Seq<char>) -> bool {
    exists|i: int| 0 <= i < s.len() && s[i].identifier@ == ident
}

/// The row index of the account with the given login identifier.
pub open spec fn identifier_index(s: Seq<Account>, ident: Seq<char>) -> int {
    choose|i: int| 0 <= i < s.len() && s[i].identifier@ == ident
}

/// No two accounts share an id or a login identifier.
pub open spec fn accounts_unique(s: Seq<Account>) -> bool {
    &&& forall|i: int, j: int|
        0 <= i < s.len() && 0 <= j < s.len() && i != j ==> (#[trigger] s[i].id) != (
        #[trigger] s[j].id)
    &&& forall|i: int, j: int|
        0 <= i < s.len() && 0 <= j < s.len() && i != j ==> (#[trigger] s[i].identifier@) != (
        #[trigger] s[j].identifier@)
}

/// Durable store of accounts.
pub struct AccountStore {
    accounts: Vec<Account>,
    next_id: u64,
}

impl AccountStore {
    /// The rows of the store.
    pub closed spec fn rows(&self) -> Seq<Account> {
        self.accounts@
    }

    /// The id the next registered account will get.
    pub closed spec fn next(&self) -> u64 {
        self.next_id
    }

    /// Well-formedness: ids and identifiers unique, ids below the counter.
    pub open spec fn wf(&self) -> bool {
        &&& accounts_unique(self.rows())
        &&& forall|i: int| 0 <= i < self.rows().len() ==> (#[trigger] self.rows()[i]).id
            < self.next()
    }

    /// An empty store.
    pub fn new() -> (r: AccountStore)
        ensures
            r.wf(),
            r.rows() == Seq::<Account>::empty(),
            r.next() == 0,
    {
        AccountStore { accounts: Vec::new(), next_id: 0 }
    }

    /// Whether the id allocator is exhausted.
    pub fn next_is_max(&self) -> (r: bool)
        ensures
            r == (self.next() == u64::MAX),
    {
        self.next_id == u64::MAX
    }

    /// The row index holding account `id`, if any.
    pub(crate) fn index_of(&self, id: u64) -> (r: Option<usize>)
        ensures
            match r {
                Some(i) => i < self.rows().len() && self.rows()[i as int].id == id,
                None => !has_account(self.rows(), id),
            },
    {
        let mut i: usize = 0;
        while i < self.accounts.len()
            invariant
                i <= self.rows().len(),
                forall|j: int| 0 <= j < i ==> (#[trigger] self.rows()[j]).id != id,
            decreases self.rows().len() - i,
        {
            if self.accounts[i].id == id {
                return Some(i);
            }
            i = i + 1;
        }
        None
    }

    /// The row index holding the account with `identifier`, if any.
    fn index_of_identifier(&self, identifier: &String) -> (r: Option<usize>)
        ensures
            match r {
                Some(i) => i < self.rows().len() && self.rows()[i as int].identifier@
                    == identifier@,
                None => !has_identifier(self.rows(), identifier@),
            },
    {
        let mut i: usize = 0;
        while i < self.accounts.len()
            invariant
                i <= self.rows().len(),
                forall|j: int| 0 <= j < i ==> (#[trigger] self.rows()[j]).identifier@
                    != identifier@,
            decreases self.rows().len() - i,
        {
            if self.accounts[i].identifier.eq(identifier) {
                return Some(i);
            }
            i = i + 1;
        }
        None
    }

    /// Reads the account with the given id.
    pub fn get(&self, id: u64) -> (r: Option<&Account>)
        requires
            self.wf(),
        ensures
            match r {
                Some(a) => has_account(self.rows(), id) && *a == self.rows()[account_index(
                    self.rows(),
                    id,
                )],
                None => !has_account(self.rows(), id),
            },
    {
        match self.index_of(id) {
            Some(i) => {
                proof {
                    assert(self.rows()[account_index(self.rows(), id)].id == id);
                    assert(account_index(self.rows(), id) == i);
                }
                Some(&self.accounts[i])
            },
            None => None,
        }
    }

    /// Registers a new account and returns its id, or `None` when the
    /// identifier is already taken.
    pub fn register(
        &mut self,
        identifier: String,
        password_hash: Vec<u8>,
        factors: Vec<SecondFactor>,
    ) -> (r: Option<u64>)
        requires
            old(self).wf(),
            old(self).next() < u64::MAX,
        ensures
            final(self).wf(),
            has_identifier(old(self).rows(), identifier@) ==> r is None && final(self).rows()
                == old(self).rows() && final(self).next() == old(self).next(),
            !has_identifier(old(self).rows(), identifier@) ==> r == Some(old(self).next())
                && final(self).next() == old(self).next() + 1 && final(self).rows().len() == old(
                self,
            ).rows().len() + 1 && final(self).rows().drop_last() == old(self).rows() && ({
                let a = final(self).rows().last();
                &&& a.id == old(self).next()
                &&& a.identifier == identifier
                &&& a.password_hash == password_hash
                &&& a.security_stamp == 0
                &&& a.revision == 0
                &&& a.failed_logins == 0
                &&& a.factors == factors
                &&& a.challenges@ == Seq::<Challenge>::empty()
            }),
    {
        match self.index_of_identifier(&identifier) {
            Some(_) => None,
            None => {
                let id = self.next_id;
                self.accounts.push(
                    Account {
                        id,
                        identifier,
                        password_hash,
                        security_stamp: 0,
                        revision: 0,
                        failed_logins: 0,
                        factors,
                        challenges: Vec::new(),
                    },
                );
                self.next_id = self.next_id + 1;
                Some(id)
            },
        }
    }

    /// Verifies a submitted password proof for `identifier` in constant
    /// time. On success the failure counter resets and the account id is
    /// returned; on a wrong proof the account's failure counter advances;
    /// an unknown identifier reports plain failure, indistinguishable from
    /// a wrong proof.
    pub fn verify_credentials(&mut self, identifier: &String, proof_bytes: &[u8]) -> (r: Option<
        u64,
    >)
        requires
            old(self).wf(),
        ensures
            final(self).wf(),
            final(self).next() == old(self).next(),
            ({
                let s = old(self).rows();
                if has_identifier(s, identifier@) {
                    let i = identifier_index(s, identifier@);
                    if s[i].password_hash@ == proof_bytes@ {
                        r == Some(s[i].id) && final(self).rows() == s.update(
                            i,
                            Account { failed_logins: 0, ..s[i] },
                        )
                    } else {
                        r is None && final(self).rows() == s.update(
                            i,
                            Account {
                                failed_logins: if s[i].failed_logins < u32::MAX {
                                    (s[i].failed_logins + 1) as u32
                                } else {
                                    u32::MAX
                                },
                                ..s[i]
                            },
                        )
                    }
                } else {
                    r is None && final(self).rows() == s
                }
            }),
    {
        match self.index_of_identifier(identifier) {
            None => None,
            Some(i) => {
                proof {
                    assert(self.rows()[identifier_index(self.rows(), identifier@)].identifier@
                        == identifier@);
                    assert(identifier_index(self.rows(), identifier@) == i);
                }
                let stored_len = self.accounts[i].password_hash.len();
                let matches = if stored_len == proof_bytes.len() {
                    ct_eq_bytes(self.accounts[i].password_hash.as_slice(), proof_bytes)
                } else {
                    false
                };
                if matches {
                    let slot = &mut self.accounts[i];
                    slot.failed_logins = 0;
                    Some(self.accounts[i].id)
                } else {
                    let slot = &mut self.accounts[i];
                    if slot.failed_logins < u32::MAX {
                        slot.failed_logins = slot.failed_logins + 1;
                    }
                    None
                }
            },
        }
    }

    /// Changes the stored password hash and bumps the security stamp, which
    /// invalidates every outstanding access token by stamp mismatch while
    /// leaving sessions and their refresh tokens untouched.
    pub fn change_password(&mut self, id: u64, new_hash: Vec<u8>) -> (r: bool)
        requires
            old(self).wf(),
        ensures
            final(self).wf(),
            final(self).next() == old(self).next(),
            r == has_account(old(self).rows(), id),
            r ==> final(self).rows() == old(self).rows().update(
                account_index(old(self).rows(), id),
                Account {
                    password_hash: new_hash,
                    security_stamp: bumped_stamp(
                        old(self).rows()[account_index(old(self).rows(), id)].security_stamp,
                    ),
                    ..old(self).rows()[account_index(old(self).rows(), id)]
                },
            ),
            !r ==> final(self).rows() == old(self).rows(),
    {
        match self.index_of(id) {
            None => false,
            Some(i) => {
                proof {
                    assert(self.rows()[account_index(self.rows(), id)].id == id);
                    assert(account_index(self.rows(), id) == i);
                }
                let stamp = self.accounts[i].security_stamp;
                let slot = &mut self.accounts[i];
                slot.password_hash = new_hash;
                slot.security_stamp = if stamp < u64::MAX {
                    stamp + 1
                } else {
                    0
                };
                true
            },
        }
    }
}

/// What consuming a hardware-assertion challenge found.
#[derive(Clone, Copy, Debug, PartialEq, Eq, Structural)]
pub enum ChallengeUse {
    /// No challenge with that nonce is outstanding.
    Missing,
    /// The challenge was already consumed once; a replay.
    AlreadyUsed,
    /// The challenge was outstanding and is now marked used.
    Consumed,
}

/// `b` is `a` with its challenge list replaced by `chs` and every other
/// field unchanged.
pub open spec fn same_but_challenges(a: Account, chs: Seq<Challenge>, b: Account) -> bool {
    &&& b.id == a.id
    &&& b.identifier == a.identifier
    &&& b.password_hash == a.password_hash
    &&& b.security_stamp == a.security_stamp
    &&& b.revision == a.revision
    &&& b.failed_logins == a.failed_logins
    &&& b.factors == a.factors
    &&& b.challenges@ == chs
}

impl AccountStore {
    /// Issues a new hardware-assertion challenge nonce on the account.
    pub fn add_challenge(&mut self, id: u64, nonce: u64) -> (r: bool)
        requires
            old(self).wf(),
        ensures
            final(self).wf(),
            final(self).next() == old(self).next(),
            final(self).rows().len() == old(self).rows().len(),
            r == has_account(old(self).rows(), id),
            !r ==> final(self).rows() == old(self).rows(),
            r ==> ({
                let ai = account_index(old(self).rows(), id);
                &&& forall|j: int|
                    0 <= j < old(self).rows().len() && j != ai ==> final(self).rows()[j]
                        == old(self).rows()[j]
                &&& same_but_challenges(
                    old(self).rows()[ai],
                    old(self).rows()[ai].challenges@.push(Challenge { nonce, used: false }),
                    final(self).rows()[ai],
                )
            }),
    {
        match self.index_of(id) {
            None => false,
            Some(i) => {
                proof {
                    assert(self.rows()[account_index(self.rows(), id)].id == id);
                    assert(account_index(self.rows(), id) == i);
                }
                let slot = &mut self.accounts[i];
                slot.challenges.push(Challenge { nonce, used: false });
                true
            },
        }
    }

    /// Consumes the outstanding challenge with the given nonce on the
    /// account: single use, whether or not the assertion that follows
    /// verifies. A missing or already-used nonce changes nothing.
    pub fn consume_challenge(&mut self, id: u64, nonce: u64) -> (r: ChallengeUse)
        requires
            old(self).wf(),
            has_account(old(self).rows(), id),
        ensures
            final(self).wf(),
            final(self).next() == old(self).next(),
            final(self).rows().len() == old(self).rows().len(),
            ({
                let ai = account_index(old(self).rows(), id);
                let chs = old(self).rows()[ai].challenges@;
                match r {
                    ChallengeUse::Missing => !(exists|k: int|
                        0 <= k < chs.len() && (#[trigger] chs[k]).nonce == nonce)
                        && final(self).rows() == old(self).rows(),
                    ChallengeUse::AlreadyUsed => (exists|k: int|
                        0 <= k < chs.len() && (#[trigger] chs[k]).nonce == nonce)
                        && (forall|k: int|
                        0 <= k < chs.len() && (#[trigger] chs[k]).nonce == nonce ==> chs[k].used)
                        && final(self).rows() == old(self).rows(),
                    ChallengeUse::Consumed => exists|k: int|
                        #![all_triggers]
                        0 <= k < chs.len() && chs[k].nonce == nonce && !chs[k].used && (forall|
                            j: int,
                        |
                            0 <= j < old(self).rows().len() && j != ai ==> final(self).rows()[j]
                                == old(self).rows()[j]) && same_but_challenges(
                            old(self).rows()[ai],
                            chs.update(k, Challenge { nonce, used: true }),
                            final(self).rows()[ai],
                        ),
                }
            }),
    {
        let i = match self.index_of(id) {
            Some(i) => i,
            None => {
                proof {
                    assert(false);
                }
                0
            },
        };
        proof {
            assert(self.rows()[account_index(self.rows(), id)].id == id);
            assert(account_index(self.rows(), id) == i);
        }
        let n = self.accounts[i].challenges.len();
        let mut k: usize = 0;
        let mut seen_any = false;
        while k < n
            invariant
                k <= n,
                old(self).wf(),
                i < self.rows().len(),
                n == self.rows()[i as int].challenges@.len(),
                *self == *old(self),
                account_index(old(self).rows(), id) == i,
                seen_any == (exists|m: int|
                    0 <= m < k && (#[trigger] self.rows()[i as int].challenges@[m]).nonce == nonce),
                forall|m: int|
                    0 <= m < k && (#[trigger] self.rows()[i as int].challenges@[m]).nonce == nonce
                        ==> self.rows()[i as int].challenges@[m].used,
            decreases n - k,
        {
            if self.accounts[i].challenges[k].nonce == nonce {
                if !self.accounts[i].challenges[k].used {
                    let cur = self.accounts[i].challenges[k];
                    self.accounts[i].challenges[k] = Challenge { nonce: cur.nonce, used: true };
                    proof {
                        lemma_unique_preserved(old(self).rows(), self.rows());
                    }
                    return ChallengeUse::Consumed;
                }
                seen_any = true;
            }
            k = k + 1;
        }
        if seen_any {
            ChallengeUse::AlreadyUsed
        } else {
            ChallengeUse::Missing
        }
    }
}

impl AccountStore {
    /// Advances the account's revision stamp, saturating at the top of the
    /// counter's range; every accepted mutation passes through here in the
    /// same call that changes the data.
    pub fn bump_revision(&mut self, id: u64) -> (r: u64)
        requires
            old(self).wf(),
            has_account(old(self).rows(), id),
        ensures
            final(self).wf(),
            final(self).next() == old(self).next(),
            ({
                let ai = account_index(old(self).rows(), id);
                &&& r == crate::engine::bump(old(self).rows()[ai].revision)
                &&& final(self).rows() == old(self).rows().update(
                    ai,
                    Account { revision: r, ..old(self).rows()[ai] },
                )
            }),
    {
        let i = match self.index_of(id) {
            Some(i) => i,
            None => {
                proof {
                    assert(false);
                }
                0
            },
        };
        proof {
            assert(self.rows()[account_index(self.rows(), id)].id == id);
            assert(account_index(self.rows(), id) == i);
        }
        let cur = self.accounts[i].revision;
        let newrev = if cur < u64::MAX {
            cur + 1
        } else {
            cur
        };
        let slot = &mut self.accounts[i];
        slot.revision = newrev;
        newrev
    }
}

/// Identifier and id uniqueness carries over to a row sequence whose ids
/// and identifiers are unchanged element by element.
proof fn lemma_unique_preserved(s1: Seq<Account>, s2: Seq<Account>)
    requires
        accounts_unique(s1),
        s2.len() == s1.len(),
        forall|i: int|
            0 <= i < s1.len() ==> (#[trigger] s2[i]).id == s1[i].id && s2[i].identifier@
                == s1[i].identifier@,
    ensures
        accounts_unique(s2),
{
    assert forall|x: int, y: int|
        0 <= x < s2.len() && 0 <= y < s2.len() && x != y implies (#[trigger] s2[x].id) != (
    #[trigger] s2[y].id) by {
        assert(s1[x].id != s1[y].id);
    }
    assert forall|x: int, y: int|
        0 <= x < s2.len() && 0 <= y < s2.len() && x != y implies (#[trigger] s2[x].identifier@)
        != (#[trigger] s2[y].identifier@) by {
        assert(s1[x].identifier@ != s1[y].identifier@);
    }
}

/// The security stamp after a credential change: the successor, wrapping to
/// zero at the top so the new stamp always differs from the old one.
pub open spec fn bumped_stamp(s: u64) -> u64 {
    if s < u64::MAX {
        (s + 1) as u64
    } else {
        0
    }
}

/// A credential change always yields a different security stamp, so every
/// token carrying the old stamp fails validation immediately.
pub proof fn lemma_bumped_stamp_differs(s: u64)
    ensures
        bumped_stamp(s) != s,
{
}

} // verus!

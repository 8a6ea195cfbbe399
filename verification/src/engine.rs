//! The synchronization engine and the operations gluing the components
//! together: login and second-factor flow, token refresh, password change,
//! channel registration, mutations with atomic revision-stamp advance, and
//! full-state sync. Every accepted mutation advances the acting account's
//! revision stamp — and the organization's when the object is
//! organization-owned — in the same call that changes the data, so a stamp
//! never advances without its data change and a change is never visible to
//! a sync without the stamp reflecting it.
use crate::accounts::{
    account_index, bumped_stamp, has_account, has_identifier, identifier_index, Account,
    AccountStore,
};
use crate::auth::{spec_validate_token, token_signed, AccessToken, KeyManager, RefreshToken};
use crate::authz::{role_allows, Capability, CollectionGrant, Role};
use crate::config::Config;
use crate::error::VaultError;
use crate::hub::{fanout, fanout_deliveries, Channel, ChangeKind, Delivery, EntityKind, Event,
    Subject};
use crate::sessions::{has_session, session_index, spec_refresh, Session, SessionRegistry};
use crate::twofactor::{kind_of, Challenge, FactorKind, FactorProof, SecondFactor};
use vstd::prelude::*;

verus! {

/// An organization grouping collections and memberships, with its own
/// revision stamp.
pub struct Organization {
    pub id: u64,
    pub name: String,
    pub revision: u64,
}

/// A link between an account and an organization: a role plus optional
/// per-collection grants, possibly suspended.
#[verifier::ext_equal]
pub struct Membership {
    pub account_id: u64,
    pub org_id: u64,
    pub role: Role,
    pub grants: Vec<CollectionGrant>,
    pub suspended: bool,
}

/// A grouping of vault items within an organization.
#[verifier::ext_equal]
pub struct Collection {
    pub id: u64,
    pub org_id: u64,
    pub name: String,
}

/// The exclusive owner of a vault item: exactly one account or exactly one
/// organization, never both.
#[derive(Clone, Copy, Debug, PartialEq, Eq, Structural)]
pub enum CipherOwner {
    Account { account_id: u64 },
    Org { org_id: u64 },
}

/// An opaque encrypted vault item. The server never reads its contents;
/// ordering authority rests with the owner's revision stamp, while the
/// item's own timestamp only serves clients for conflict display.
#[derive(Debug)]
#[verifier::ext_equal]
pub struct Cipher {
    pub id: u64,
    pub owner: CipherOwner,
    /// Collections the item is filed under; only for organization-owned
    /// items.
    pub collection_ids: Vec<u64>,
    pub data: Vec<u8>,
    pub last_modified: u64,
}

/// An in-flight login attempt that passed primary verification and now
/// awaits a second factor.
pub struct LoginAttempt {
    pub id: u64,
    pub account_id: u64,
    pub fingerprint: String,
    pub failures: u32,
}

// Lookup helpers over the engine's stores.
pub open spec fn has_org(s: Seq<Organization>, id: u64) -> bool {
    exists|i: int| 0 <= i < s.len() && s[i].id == id
}

pub open spec fn org_index(s: Seq<Organization>, id: u64) -> int {
    choose|i: int| 0 <= i < s.len() && s[i].id == id
}

pub open spec fn has_cipher(s: Seq<Cipher>, id: u64) -> bool {
    exists|i: int| 0 <= i < s.len() && s[i].id == id
}

pub open spec fn cipher_index(s: Seq<Cipher>, id: u64) -> int {
    choose|i: int| 0 <= i < s.len() && s[i].id == id
}

pub open spec fn has_collection(s: Seq<Collection>, id: u64) -> bool {
    exists|i: int| 0 <= i < s.len() && s[i].id == id
}

pub open spec fn collection_index(s: Seq<Collection>, id: u64) -> int {
    choose|i: int| 0 <= i < s.len() && s[i].id == id
}

pub open spec fn has_membership(s: Seq<Membership>, account_id: u64, org_id: u64) -> bool {
    exists|i: int| 0 <= i < s.len() && s[i].account_id == account_id && s[i].org_id == org_id
}

pub open spec fn membership_index(s: Seq<Membership>, account_id: u64, org_id: u64) -> int {
    choose|i: int| 0 <= i < s.len() && s[i].account_id == account_id && s[i].org_id == org_id
}

pub open spec fn has_attempt(s: Seq<LoginAttempt>, id: u64) -> bool {
    exists|i: int| 0 <= i < s.len() && s[i].id == id
}

pub open spec fn attempt_index(s: Seq<LoginAttempt>, id: u64) -> int {
    choose|i: int| 0 <= i < s.len() && s[i].id == id
}

/// How many Owner memberships an organization has.
pub open spec fn owner_count(s: Seq<Membership>, org_id: u64) -> nat
    decreases s.len(),
{
    if s.len() == 0 {
        0
    } else {
        owner_count(s.drop_last(), org_id) + (if s.last().org_id == org_id && s.last().role
            == Role::Owner {
            1nat
        } else {
            0nat
        })
    }
}

/// The revision stamp after an accepted mutation: the successor, saturating
/// at the top of the counter's range.
pub open spec fn bump(r: u64) -> u64 {
    if r < u64::MAX {
        (r + 1) as u64
    } else {
        r
    }
}

/// Ids in a sequence of organizations are unique and below the allocator.
pub open spec fn orgs_ok(s: Seq<Organization>, next: u64) -> bool {
    &&& forall|i: int, j: int|
        0 <= i < s.len() && 0 <= j < s.len() && i != j ==> s[i].id != s[j].id
    &&& forall|i: int| 0 <= i < s.len() ==> (#[trigger] s[i]).id < next
}

/// Ids in a sequence of ciphers are unique and below the allocator.
pub open spec fn ciphers_ok(s: Seq<Cipher>, next: u64) -> bool {
    &&& forall|i: int, j: int|
        0 <= i < s.len() && 0 <= j < s.len() && i != j ==> s[i].id != s[j].id
    &&& forall|i: int| 0 <= i < s.len() ==> (#[trigger] s[i]).id < next
}

/// Ids in a sequence of collections are unique and below the allocator.
pub open spec fn collections_ok(s: Seq<Collection>, next: u64) -> bool {
    &&& forall|i: int, j: int|
        0 <= i < s.len() && 0 <= j < s.len() && i != j ==> s[i].id != s[j].id
    &&& forall|i: int| 0 <= i < s.len() ==> (#[trigger] s[i]).id < next
}

/// Ids in a sequence of channels are unique and below the allocator.
pub open spec fn channels_ok(s: Seq<Channel>, next: u64) -> bool {
    &&& forall|i: int, j: int|
        0 <= i < s.len() && 0 <= j < s.len() && i != j ==> s[i].id != s[j].id
    &&& forall|i: int| 0 <= i < s.len() ==> (#[trigger] s[i]).id < next
}

/// Ids in a sequence of login attempts are unique and below the allocator.
pub open spec fn attempts_ok(s: Seq<LoginAttempt>, next: u64) -> bool {
    &&& forall|i: int, j: int|
        0 <= i < s.len() && 0 <= j < s.len() && i != j ==> s[i].id != s[j].id
    &&& forall|i: int| 0 <= i < s.len() ==> (#[trigger] s[i]).id < next
}

/// Each account has at most one membership per organization, and every
/// membership names an organization id the allocator has issued.
pub open spec fn memberships_ok(s: Seq<Membership>, next: u64) -> bool {
    &&& forall|i: int, j: int|
        0 <= i < s.len() && 0 <= j < s.len() && i != j ==> !(s[i].account_id == s[j].account_id
            && s[i].org_id == s[j].org_id)
    &&& forall|i: int| 0 <= i < s.len() ==> (#[trigger] s[i]).org_id < next
}

/// Every organization holds at least one Owner membership.
pub open spec fn owner_invariant(orgs: Seq<Organization>, mems: Seq<Membership>) -> bool {
    forall|i: int| 0 <= i < orgs.len() ==> owner_count(mems, (#[trigger] orgs[i]).id) >= 1
}

/// The whole engine: configuration and key manager fixed at startup,
/// durable stores, and the transient live-channel index.
pub struct Vault {
    config: Config,
    keys: KeyManager,
    accounts: AccountStore,
    sessions: SessionRegistry,
    orgs: Vec<Organization>,
    memberships: Vec<Membership>,
    collections: Vec<Collection>,
    ciphers: Vec<Cipher>,
    channels: Vec<Channel>,
    attempts: Vec<LoginAttempt>,
    next_id: u64,
}

impl Vault {
    pub closed spec fn key(&self) -> Seq<u8> {
        self.keys.key()
    }

    /// The configuration the engine was built with.
    pub closed spec fn cfg(&self) -> Config {
        self.config
    }

    /// Reads the configuration.
    pub fn config(&self) -> (c: Config)
        ensures
            c == self.cfg(),
    {
        self.config
    }

    /// Well-formedness of the account store (unique ids and identifiers).
    pub closed spec fn accounts_wf(&self) -> bool {
        self.accounts.wf()
    }

    /// Well-formedness of the session registry (unique session ids).
    pub closed spec fn sessions_wf(&self) -> bool {
        self.sessions.wf()
    }

    /// The id the account store will give to the next registration.
    pub closed spec fn accounts_next(&self) -> u64 {
        self.accounts.next()
    }

    pub closed spec fn accounts(&self) -> Seq<Account> {
        self.accounts.rows()
    }

    pub closed spec fn sessions(&self) -> Seq<Session> {
        self.sessions.rows()
    }

    pub closed spec fn orgs(&self) -> Seq<Organization> {
        self.orgs@
    }

    pub closed spec fn memberships(&self) -> Seq<Membership> {
        self.memberships@
    }

    pub closed spec fn collections(&self) -> Seq<Collection> {
        self.collections@
    }

    pub closed spec fn ciphers(&self) -> Seq<Cipher> {
        self.ciphers@
    }

    pub closed spec fn channels(&self) -> Seq<Channel> {
        self.channels@
    }

    pub closed spec fn attempts(&self) -> Seq<LoginAttempt> {
        self.attempts@
    }

    pub closed spec fn next(&self) -> u64 {
        self.next_id
    }

    /// The current revision stamp of an account.
    pub open spec fn account_revision(&self, id: u64) -> u64 {
        self.accounts()[account_index(self.accounts(), id)].revision
    }

    /// The current security stamp of an account.
    pub open spec fn account_stamp(&self, id: u64) -> u64 {
        self.accounts()[account_index(self.accounts(), id)].security_stamp
    }

    /// The current revision stamp of an organization.
    pub open spec fn org_revision(&self, id: u64) -> u64 {
        self.orgs()[org_index(self.orgs(), id)].revision
    }

    /// Well-formedness: the component stores are well-formed, ids issued
    /// from the shared allocator are unique and below it, each account has
    /// at most one membership per organization, and every organization has
    /// at least one Owner membership.
    pub open spec fn wf(&self) -> bool {
        &&& self.cfg().wf()
        &&& self.accounts_wf()
        &&& self.sessions_wf()
        &&& orgs_ok(self.orgs(), self.next())
        &&& ciphers_ok(self.ciphers(), self.next())
        &&& collections_ok(self.collections(), self.next())
        &&& channels_ok(self.channels(), self.next())
        &&& attempts_ok(self.attempts(), self.next())
        &&& memberships_ok(self.memberships(), self.next())
        &&& owner_invariant(self.orgs(), self.memberships())
    }

    /// A fresh engine around an already-loaded signing key and the
    /// deployment configuration.
    pub fn new(config: Config, keys: KeyManager) -> (r: Vault)
        requires
            config.wf(),
        ensures
            r.wf(),
            r.cfg() == config,
            r.key() == keys.key(),
            r.accounts() == Seq::<Account>::empty(),
            r.sessions() == Seq::<Session>::empty(),
            r.orgs() == Seq::<Organization>::empty(),
            r.memberships() == Seq::<Membership>::empty(),
            r.collections() == Seq::<Collection>::empty(),
            r.ciphers() == Seq::<Cipher>::empty(),
            r.channels() == Seq::<Channel>::empty(),
            r.attempts() == Seq::<LoginAttempt>::empty(),
    {
        Vault {
            config,
            keys,
            accounts: AccountStore::new(),
            sessions: SessionRegistry::new(),
            orgs: Vec::new(),
            memberships: Vec::new(),
            collections: Vec::new(),
            ciphers: Vec::new(),
            channels: Vec::new(),
            attempts: Vec::new(),
            next_id: 0,
        }
    }

    /// Registers a new account; `None` when the identifier is taken.
    pub fn register_account(
        &mut self,
        identifier: String,
        password_hash: Vec<u8>,
        factors: Vec<SecondFactor>,
    ) -> (r: Option<u64>)
        requires
            old(self).wf(),
        ensures
            final(self).wf(),
            unchanged_directory(old(self), final(self)),
            final(self).sessions() == old(self).sessions(),
            final(self).attempts() == old(self).attempts(),
            old(self).accounts_next() < u64::MAX ==> (r is Some <==> !has_identifier(
                old(self).accounts(),
                identifier@,
            )),
            r is Some ==> !has_identifier(old(self).accounts(), identifier@),
            r is None ==> final(self).accounts() == old(self).accounts(),
            r is Some ==> final(self).accounts().len() == old(self).accounts().len() + 1
                && final(self).accounts().drop_last() == old(self).accounts() && ({
                let a = final(self).accounts().last();
                &&& a.id == r->0
                &&& a.identifier == identifier
                &&& a.password_hash == password_hash
                &&& a.security_stamp == 0
                &&& a.revision == 0
                &&& a.failed_logins == 0
                &&& a.factors == factors
                &&& a.challenges@ == Seq::<Challenge>::empty()
            }),
    {
        if self.accounts.next_is_max() {
            // The id space is effectively inexhaustible; refuse rather
            // than reuse an id.
            return None;
        }
        self.accounts.register(identifier, password_hash, factors)
    }

    /// Validates an access token against the subject account's current
    /// security stamp: signature, expiry, then stamp. An unknown subject
    /// reports `InvalidCredentials`, indistinguishable from a forged token.
    pub fn validate_token(&self, t: &AccessToken, now: u64) -> (r: Result<u64, VaultError>)
        requires
            self.wf(),
        ensures
            r == spec_validate_vault(self.key(), self.accounts(), *t, now),
    {
        match self.accounts.index_of(t.account_id) {
            None => {
                proof {
                    assert(!has_account(self.accounts(), t.account_id));
                }
                Err(VaultError::InvalidCredentials)
            },
            Some(i) => {
                proof {
                    assert(self.accounts()[account_index(self.accounts(), t.account_id)].id
                        == t.account_id);
                    assert(account_index(self.accounts(), t.account_id) == i);
                }
                let stamp = self.accounts.get(t.account_id).unwrap().security_stamp;
                self.keys.validate_access_token(t, stamp, now)
            },
        }
    }

    /// Presents a refresh token. A current-generation token rotates the
    /// session and yields a fresh access/refresh pair carrying the
    /// account's current stamps; a token from any other generation revokes
    /// the session and fails with `RefreshTokenReused`.
    pub fn refresh_session(&mut self, tok: &RefreshToken, now: u64) -> (r: Result<
        TokenPair,
        VaultError,
    >)
        requires
            old(self).wf(),
            now + old(self).cfg().access_token_ttl <= u64::MAX,
        ensures
            final(self).wf(),
            unchanged_directory(old(self), final(self)),
            final(self).accounts() == old(self).accounts(),
            final(self).attempts() == old(self).attempts(),
            final(self).sessions() == spec_refresh(old(self).sessions(), *tok, now).0,
            r is Ok <==> spec_refresh(old(self).sessions(), *tok, now).1 is Ok && has_account(
                old(self).accounts(),
                old(self).sessions()[session_index(old(self).sessions(), tok.session_id)].account_id,
            ),
            r is Ok ==> ({
                let sess = old(self).sessions()[session_index(
                    old(self).sessions(),
                    tok.session_id,
                )];
                let p = r->Ok_0;
                &&& p.refresh.session_id == tok.session_id
                &&& p.refresh.generation == spec_refresh(old(self).sessions(), *tok, now).1->Ok_0
                &&& p.access.account_id == sess.account_id
                &&& p.access.session_id == tok.session_id
                &&& p.access.issued_at == now
                &&& p.access.expires_at == now + old(self).cfg().access_token_ttl
                &&& p.access.security_stamp == old(self).account_stamp(sess.account_id)
                &&& token_signed(p.access, old(self).key())
                &&& p.revision == old(self).account_revision(sess.account_id)
            }),
            r is Err && spec_refresh(old(self).sessions(), *tok, now).1 is Err ==> r->Err_0
                == spec_refresh(old(self).sessions(), *tok, now).1->Err_0,
            r is Err && spec_refresh(old(self).sessions(), *tok, now).1 is Ok ==> r->Err_0
                == VaultError::NotFound,
    {
        let ghost pre = *old(self);
        let account_id = match self.sessions.lookup(tok.session_id) {
            Some(s) => s.account_id,
            None => 0,
        };
        let res = self.sessions.refresh(tok, now);
        match res {
            Err(e) => Err(e),
            Ok(generation) => {
                proof {
                    assert(has_session(pre.sessions(), tok.session_id));
                    assert(account_id == pre.sessions()[session_index(
                        pre.sessions(),
                        tok.session_id,
                    )].account_id);
                }
                match self.accounts.get(account_id) {
                    None => Err(VaultError::NotFound),
                    Some(a) => {
                        let stamp = a.security_stamp;
                        let revision = a.revision;
                        let access = self.keys.mint_access_token(
                            account_id,
                            tok.session_id,
                            now,
                            self.config.access_token_ttl,
                            stamp,
                        );
                        Ok(
                            TokenPair {
                                access,
                                refresh: RefreshToken { session_id: tok.session_id, generation },
                                revision,
                            },
                        )
                    },
                }
            },
        }
    }

    /// Changes an account's password hash. The security stamp is bumped,
    /// which invalidates every outstanding access token at its next
    /// validation, while sessions and their refresh tokens stay usable.
    pub fn change_password(&mut self, account_id: u64, new_hash: Vec<u8>) -> (r: bool)
        requires
            old(self).wf(),
        ensures
            final(self).wf(),
            unchanged_directory(old(self), final(self)),
            final(self).sessions() == old(self).sessions(),
            final(self).attempts() == old(self).attempts(),
            r == has_account(old(self).accounts(), account_id),
            r ==> final(self).accounts() == old(self).accounts().update(
                account_index(old(self).accounts(), account_id),
                Account {
                    password_hash: new_hash,
                    security_stamp: bumped_stamp(old(self).account_stamp(account_id)),
                    ..old(self).accounts()[account_index(old(self).accounts(), account_id)]
                },
            ),
            !r ==> final(self).accounts() == old(self).accounts(),
    {
        self.accounts.change_password(account_id, new_hash)
    }

    /// Revokes every session of the account, as for a "log out everywhere"
    /// request or an administrative action.
    pub fn logout_everywhere(&mut self, account_id: u64)
        requires
            old(self).wf(),
        ensures
            final(self).wf(),
            unchanged_directory(old(self), final(self)),
            final(self).accounts() == old(self).accounts(),
            final(self).attempts() == old(self).attempts(),
            final(self).sessions().len() == old(self).sessions().len(),
            forall|i: int|
                0 <= i < old(self).sessions().len() ==> final(self).sessions()[i] == (
                if old(self).sessions()[i].account_id == account_id {
                    Session { revoked: true, ..old(self).sessions()[i] }
                } else {
                    old(self).sessions()[i]
                }),
    {
        self.sessions.revoke_all_for_account(account_id);
    }
}


/// The failure counter after one more failure, saturating.
pub open spec fn inc32(x: u32) -> u32 {
    if x < u32::MAX {
        (x + 1) as u32
    } else {
        x
    }
}

/// The account rows after a primary-credential check: on a match the
/// failure counter resets, on a mismatch it advances, an unknown
/// identifier changes nothing.
pub open spec fn after_primary(s: Seq<Account>, ident: Seq<char>, p: Seq<u8>) -> Seq<Account> {
    if !has_identifier(s, ident) {
        s
    } else {
        let i = identifier_index(s, ident);
        if s[i].password_hash@ == p {
            s.update(i, Account { failed_logins: 0, ..s[i] })
        } else {
            s.update(i, Account { failed_logins: inc32(s[i].failed_logins), ..s[i] })
        }
    }
}

/// Whether the submitted identifier and password proof match a stored
/// account exactly.
pub open spec fn credentials_match(s: Seq<Account>, ident: Seq<char>, p: Seq<u8>) -> bool {
    has_identifier(s, ident) && s[identifier_index(s, ident)].password_hash@ == p
}

/// Whether a submitted non-hardware factor proof verifies against some
/// configured factor of the matching variant.
pub open spec fn pure_factor_ok(a: Account, p: FactorProof, now: u64, step_len: u64) -> bool {
    !(p is Hardware) && exists|fi: int|
        0 <= fi < a.factors@.len() && factor_accepts(
            #[trigger] a.factors@[fi],
            p,
            now,
            now / step_len,
        )
}

/// Whether one configured factor accepts a hardware assertion over a
/// nonce.
pub open spec fn accepts_hardware(f: SecondFactor, nonce: u64, assertion: Seq<u8>) -> bool {
    f matches SecondFactor::Hardware { public_key } && crate::twofactor::assertion_ok(
        public_key@,
        nonce,
        assertion,
    )
}

/// Whether a hardware assertion over `nonce` verifies against some
/// configured hardware-bound key.
pub open spec fn hardware_factor_ok(a: Account, nonce: u64, assertion: Seq<u8>) -> bool {
    exists|fi: int|
        0 <= fi < a.factors@.len() && accepts_hardware(
            #[trigger] a.factors@[fi],
            nonce,
            assertion,
        )
}

/// What the login endpoint answers.
pub enum LoginResponse {
    /// Wrong identifier or password proof; deliberately uninformative.
    Failure,
    /// Primary verification passed but a second factor is configured; the
    /// attempt id and the available provider variants are returned.
    SecondFactorRequired { attempt_id: u64, providers: Vec<FactorKind> },
    /// Fully authenticated.
    LoggedIn { tokens: TokenPair },
}

/// What a second-factor submission answers.
pub enum SecondFactorOutcome {
    /// The factor verified; the login completes with fresh tokens.
    Completed { tokens: TokenPair },
    /// The factor failed; the attempt stays open with this failure count.
    Retry { failures: u32 },
    /// Too many failures; the attempt is discarded and no token issued.
    Rejected,
    /// The submission could not be evaluated at all.
    Denied { error: VaultError },
}

impl Vault {
    /// The id the session registry will give to the next session.
    pub closed spec fn sessions_next(&self) -> u64 {
        self.sessions.next()
    }

    /// Whether every id allocator still has room, which the operations
    /// that create rows ask of their callers.
    pub fn allocator_headroom(&self) -> (r: bool)
        ensures
            r == (self.next() < u64::MAX && self.sessions_next() < u64::MAX
                && self.accounts_next() < u64::MAX),
    {
        self.next_id < u64::MAX && !self.sessions.next_is_max() && !self.accounts.next_is_max()
    }

    /// Creates a session at generation zero and mints the first
    /// access/refresh pair for it.
    fn issue_tokens(&mut self, account_id: u64, fingerprint: String, now: u64) -> (t: TokenPair)
        requires
            old(self).wf(),
            old(self).sessions_next() < u64::MAX,
            now + old(self).cfg().access_token_ttl <= u64::MAX,
            has_account(old(self).accounts(), account_id),
        ensures
            final(self).wf(),
            unchanged_directory(old(self), final(self)),
            final(self).accounts() == old(self).accounts(),
            final(self).attempts() == old(self).attempts(),
            final(self).sessions_next() == old(self).sessions_next() + 1,
            final(self).sessions() == old(self).sessions().push(
                Session {
                    id: old(self).sessions_next(),
                    account_id,
                    fingerprint,
                    generation: 0,
                    issued_at: now,
                    last_used: now,
                    revoked: false,
                },
            ),
            t.refresh.session_id == old(self).sessions_next(),
            t.refresh.generation == 0,
            t.access.account_id == account_id,
            t.access.session_id == old(self).sessions_next(),
            t.access.issued_at == now,
            t.access.expires_at == now + old(self).cfg().access_token_ttl,
            t.access.security_stamp == old(self).account_stamp(account_id),
            token_signed(t.access, old(self).key()),
            t.revision == old(self).account_revision(account_id),
    {
        let (stamp, revision) = {
            let a = self.accounts.get(account_id).unwrap();
            (a.security_stamp, a.revision)
        };
        let session_id = self.sessions.create(account_id, fingerprint, now);
        let access = self.keys.mint_access_token(
            account_id,
            session_id,
            now,
            self.config.access_token_ttl,
            stamp,
        );
        TokenPair { access, refresh: RefreshToken { session_id, generation: 0 }, revision }
    }

    /// The login endpoint: verifies the password proof, then either
    /// completes (no second factor configured), or opens a second-factor
    /// attempt listing the configured providers. A wrong identifier and a
    /// wrong proof are indistinguishable failures.
    pub fn login(&mut self, identifier: &String, proof_bytes: &[u8], fingerprint: String, now: u64)
        -> (r: LoginResponse)
        requires
            old(self).wf(),
            old(self).sessions_next() < u64::MAX,
            old(self).next() < u64::MAX,
            now + old(self).cfg().access_token_ttl <= u64::MAX,
        ensures
            final(self).wf(),
            final(self).orgs() == old(self).orgs(),
            final(self).memberships() == old(self).memberships(),
            final(self).collections() == old(self).collections(),
            final(self).ciphers() == old(self).ciphers(),
            final(self).channels() == old(self).channels(),
            final(self).cfg() == old(self).cfg(),
            final(self).key() == old(self).key(),
            final(self).accounts() == after_primary(old(self).accounts(), identifier@, proof_bytes@),
            !credentials_match(old(self).accounts(), identifier@, proof_bytes@) ==> r is Failure
                && final(self).sessions() == old(self).sessions() && final(self).attempts() == old(self).attempts() && final(self).next() == old(self).next(),
            credentials_match(old(self).accounts(), identifier@, proof_bytes@) ==> ({
                let ai = identifier_index(old(self).accounts(), identifier@);
                let a = old(self).accounts()[ai];
                if a.factors@.len() == 0 {
                    &&& r is LoggedIn
                    &&& final(self).attempts() == old(self).attempts()
                    &&& final(self).next() == old(self).next()
                    &&& final(self).sessions() == old(self).sessions().push(
                        Session {
                            id: old(self).sessions_next(),
                            account_id: a.id,
                            fingerprint,
                            generation: 0,
                            issued_at: now,
                            last_used: now,
                            revoked: false,
                        },
                    )
                    &&& ({
                        let t = r->LoggedIn_tokens;
                        &&& t.refresh.session_id == old(self).sessions_next()
                        &&& t.refresh.generation == 0
                        &&& t.access.account_id == a.id
                        &&& t.access.issued_at == now
                        &&& t.access.expires_at == now + old(self).cfg().access_token_ttl
                        &&& t.access.security_stamp == a.security_stamp
                        &&& token_signed(t.access, old(self).key())
                        &&& t.revision == a.revision
                    })
                } else {
                    &&& r is SecondFactorRequired
                    &&& r->SecondFactorRequired_attempt_id == old(self).next()
                    &&& r->SecondFactorRequired_providers@ == a.factors@.map_values(
                        |f: SecondFactor| kind_of(f),
                    )
                    &&& final(self).sessions() == old(self).sessions()
                    &&& final(self).next() == old(self).next() + 1
                    &&& final(self).attempts() == old(self).attempts().push(
                        LoginAttempt { id: old(self).next(), account_id: a.id, fingerprint, failures: 0 },
                    )
                }
            }),
    {
        let verified = self.accounts.verify_credentials(identifier, proof_bytes);
        match verified {
            None => LoginResponse::Failure,
            Some(account_id) => {
                proof {
                    let s0 = old(self).accounts();
                    let ii = identifier_index(s0, identifier@);
                    assert(s0[ii].identifier@ == identifier@);
                    assert(credentials_match(s0, identifier@, proof_bytes@));
                    assert(self.accounts()[ii].id == account_id);
                    assert(has_account(self.accounts(), account_id));
                    let ci = account_index(self.accounts(), account_id);
                    assert(0 <= ci < self.accounts().len() && self.accounts()[ci].id
                        == account_id);
                    if ci != ii {
                        assert(self.accounts()[ci] == s0[ci]);
                        assert(s0[ci].id == s0[ii].id);
                        assert(false);
                    }
                    assert(account_index(self.accounts(), account_id) == ii);
                }
                let factor_count = {
                    let a = self.accounts.get(account_id).unwrap();
                    a.factors.len()
                };
                if factor_count == 0 {
                    let tokens = self.issue_tokens(account_id, fingerprint, now);
                    LoginResponse::LoggedIn { tokens }
                } else {
                    let providers = {
                        let a = self.accounts.get(account_id).unwrap();
                        let mut out: Vec<FactorKind> = Vec::new();
                        let mut i: usize = 0;
                        while i < a.factors.len()
                            invariant
                                i <= a.factors@.len(),
                                out@ == a.factors@.take(i as int).map_values(
                                    |f: SecondFactor| kind_of(f),
                                ),
                            decreases a.factors@.len() - i,
                        {
                            out.push(a.factors[i].kind());
                            proof {
                                assert(a.factors@.take(i + 1).drop_last() =~= a.factors@.take(
                                    i as int,
                                ));
                                assert(out@ =~= a.factors@.take(i + 1).map_values(
                                    |f: SecondFactor| kind_of(f),
                                ));
                            }
                            i = i + 1;
                        }
                        proof {
                            assert(a.factors@.take(a.factors@.len() as int) =~= a.factors@);
                        }
                        out
                    };
                    let attempt_id = self.next_id;
                    self.next_id = self.next_id + 1;
                    self.attempts.push(
                        LoginAttempt { id: attempt_id, account_id, fingerprint, failures: 0 },
                    );
                    LoginResponse::SecondFactorRequired { attempt_id, providers }
                }
            },
        }
    }
}


impl Vault {
    /// Issues a hardware-assertion challenge nonce for the account; the
    /// nonce is single use.
    pub fn issue_challenge(&mut self, account_id: u64) -> (r: Option<u64>)
        requires
            old(self).wf(),
            old(self).next() < u64::MAX,
        ensures
            final(self).wf(),
            final(self).sessions() == old(self).sessions(),
            final(self).attempts() == old(self).attempts(),
            final(self).orgs() == old(self).orgs(),
            final(self).memberships() == old(self).memberships(),
            final(self).collections() == old(self).collections(),
            final(self).ciphers() == old(self).ciphers(),
            final(self).channels() == old(self).channels(),
            final(self).cfg() == old(self).cfg(),
            final(self).key() == old(self).key(),
            r is Some <==> has_account(old(self).accounts(), account_id),
            r is None ==> final(self).accounts() == old(self).accounts() && final(self).next()
                == old(self).next(),
            r is Some ==> r->0 == old(self).next() && final(self).next() == old(self).next() + 1
                && ({
                let ai = account_index(old(self).accounts(), account_id);
                &&& final(self).accounts().len() == old(self).accounts().len()
                &&& forall|j: int|
                    0 <= j < old(self).accounts().len() && j != ai ==> final(self).accounts()[j]
                        == old(self).accounts()[j]
                &&& crate::accounts::same_but_challenges(
                    old(self).accounts()[ai],
                    old(self).accounts()[ai].challenges@.push(
                        Challenge { nonce: old(self).next(), used: false },
                    ),
                    final(self).accounts()[ai],
                )
            }),
    {
        let nonce = self.next_id;
        if self.accounts.add_challenge(account_id, nonce) {
            self.next_id = self.next_id + 1;
            Some(nonce)
        } else {
            None
        }
    }

    /// Submits a second-factor proof for an open login attempt. A verified
    /// factor completes the login with fresh tokens and discards the
    /// attempt; a failed one advances the attempt's failure counter and,
    /// past the configured limit, rejects and discards the attempt. A
    /// hardware assertion consumes its challenge nonce whether or not it
    /// verifies, and a missing or replayed nonce is refused without
    /// touching the attempt.
    pub fn submit_second_factor(&mut self, attempt_id: u64, fproof: &FactorProof, now: u64) -> (r:
        SecondFactorOutcome)
        requires
            old(self).wf(),
            old(self).sessions_next() < u64::MAX,
            now + old(self).cfg().access_token_ttl <= u64::MAX,
            old(self).cfg().totp_step_seconds > 0,
        ensures
            final(self).wf(),
            final(self).orgs() == old(self).orgs(),
            final(self).memberships() == old(self).memberships(),
            final(self).collections() == old(self).collections(),
            final(self).ciphers() == old(self).ciphers(),
            final(self).channels() == old(self).channels(),
            final(self).next() == old(self).next(),
            final(self).cfg() == old(self).cfg(),
            final(self).key() == old(self).key(),
            !has_attempt(old(self).attempts(), attempt_id) ==> r == (SecondFactorOutcome::Denied {
                error: VaultError::NotFound,
            }) && final(self).accounts() == old(self).accounts() && final(self).sessions() == old(self).sessions() && final(self).attempts() == old(self).attempts(),
            has_attempt(old(self).attempts(), attempt_id) ==> ({
                let ti = attempt_index(old(self).attempts(), attempt_id);
                let at = old(self).attempts()[ti];
                if !has_account(old(self).accounts(), at.account_id) {
                    r == (SecondFactorOutcome::Denied { error: VaultError::NotFound }) && final(self).accounts() == old(self).accounts() && final(self).sessions() == old(self).sessions() && final(self).attempts() == old(self).attempts()
                } else {
                    let ai = account_index(old(self).accounts(), at.account_id);
                    let a = old(self).accounts()[ai];
                    match *fproof {
                        FactorProof::Hardware { nonce, assertion } => ({
                            let chs = a.challenges@;
                            &&& (!(exists|k: int|
                                0 <= k < chs.len() && (#[trigger] chs[k]).nonce == nonce
                                    && !chs[k].used)) ==> r == (SecondFactorOutcome::Denied {
                                error: VaultError::ChallengeExpiredOrReplayed,
                            }) && final(self).accounts() == old(self).accounts() && final(self).sessions() == old(self).sessions() && final(self).attempts() == old(self).attempts()
                            &&& (exists|k: int|
                                0 <= k < chs.len() && (#[trigger] chs[k]).nonce == nonce
                                    && !chs[k].used) ==> ({
                                let ok = hardware_factor_ok(a, nonce, assertion@);
                                &&& final(self).accounts().len() == old(self).accounts().len()
                                &&& (forall|j: int|
                                    0 <= j < old(self).accounts().len() && j != ai ==> final(self).accounts()[j] == old(self).accounts()[j])
                                &&& exists|k: int|
                                    #![all_triggers]
                                    0 <= k < chs.len() && chs[k].nonce == nonce && !chs[k].used
                                        && crate::accounts::same_but_challenges(
                                        a,
                                        chs.update(k, Challenge { nonce, used: true }),
                                        final(self).accounts()[ai],
                                    )
                                &&& ok ==> r is Completed && final(self).attempts() == old(self).attempts().remove(ti) && final(self).sessions() == old(self).sessions().push(
                                    Session {
                                        id: old(self).sessions_next(),
                                        account_id: at.account_id,
                                        fingerprint: at.fingerprint,
                                        generation: 0,
                                        issued_at: now,
                                        last_used: now,
                                        revoked: false,
                                    },
                                ) && ({
                                    let t = r->Completed_tokens;
                                    &&& t.refresh.session_id == old(self).sessions_next()
                                    &&& t.refresh.generation == 0
                                    &&& t.access.account_id == at.account_id
                                    &&& t.access.security_stamp == a.security_stamp
                                    &&& t.access.issued_at == now
                                    &&& t.access.expires_at == now + old(self).cfg().access_token_ttl
                                    &&& token_signed(t.access, old(self).key())
                                    &&& t.revision == a.revision
                                })
                                &&& !ok ==> final(self).sessions() == old(self).sessions() && ({
                                    let nf = inc32(at.failures);
                                    if nf >= old(self).cfg().second_factor_fail_limit {
                                        r is Rejected && final(self).attempts() == old(self).attempts().remove(ti)
                                    } else {
                                        r == (SecondFactorOutcome::Retry { failures: nf }) && final(self).attempts() == old(self).attempts().update(
                                            ti,
                                            LoginAttempt { failures: nf, ..at },
                                        )
                                    }
                                })
                            })
                        }),
                        _ => ({
                            let ok = pure_factor_ok(a, *fproof, now, old(self).cfg().totp_step_seconds);
                            &&& final(self).accounts() == old(self).accounts()
                            &&& ok ==> r is Completed && final(self).attempts() == old(self).attempts().remove(ti) && final(self).sessions() == old(self).sessions().push(
                                Session {
                                    id: old(self).sessions_next(),
                                    account_id: at.account_id,
                                    fingerprint: at.fingerprint,
                                    generation: 0,
                                    issued_at: now,
                                    last_used: now,
                                    revoked: false,
                                },
                            ) && ({
                                let t = r->Completed_tokens;
                                &&& t.refresh.session_id == old(self).sessions_next()
                                &&& t.refresh.generation == 0
                                &&& t.access.account_id == at.account_id
                                &&& t.access.security_stamp == a.security_stamp
                                &&& t.access.issued_at == now
                                &&& t.access.expires_at == now + old(self).cfg().access_token_ttl
                                &&& token_signed(t.access, old(self).key())
                                &&& t.revision == a.revision
                            })
                            &&& !ok ==> final(self).sessions() == old(self).sessions() && ({
                                let nf = inc32(at.failures);
                                if nf >= old(self).cfg().second_factor_fail_limit {
                                    r is Rejected && final(self).attempts() == old(self).attempts().remove(ti)
                                } else {
                                    r == (SecondFactorOutcome::Retry { failures: nf }) && final(self).attempts() == old(self).attempts().update(
                                        ti,
                                        LoginAttempt { failures: nf, ..at },
                                    )
                                }
                            })
                        }),
                    }
                }
            }),
    {
        let ti = match self.find_attempt(attempt_id) {
            Some(i) => i,
            None => {
                return SecondFactorOutcome::Denied { error: VaultError::NotFound };
            },
        };
        let account_id = self.attempts[ti].account_id;
        let failures = self.attempts[ti].failures;
        proof {
            assert(old(self).attempts()[attempt_index(old(self).attempts(), attempt_id)].id
                == attempt_id);
            assert(attempt_index(old(self).attempts(), attempt_id) == ti);
        }
        let a_exists = match self.accounts.index_of(account_id) {
            Some(_) => true,
            None => false,
        };
        if !a_exists {
            return SecondFactorOutcome::Denied { error: VaultError::NotFound };
        }
        proof {
            assert(old(self).accounts()[account_index(old(self).accounts(), account_id)].id
                == account_id);
        }
        let ok: bool = match fproof {
            FactorProof::Hardware { nonce, assertion } => {
                match self.accounts.consume_challenge(account_id, *nonce) {
                    crate::accounts::ChallengeUse::Consumed => {
                        proof {
                            let s0 = old(self).accounts();
                            let ai = account_index(s0, account_id);
                            assert(self.accounts()[ai].id == s0[ai].id);
                            assert(has_account(self.accounts(), account_id));
                            let ci = account_index(self.accounts(), account_id);
                            assert(0 <= ci < self.accounts().len() && self.accounts()[ci].id
                                == account_id);
                            if ci != ai {
                                assert(self.accounts()[ci] == s0[ci]);
                                assert(s0[ci].id == s0[ai].id);
                                assert(false);
                            }
                            assert(self.accounts()[ai].factors == s0[ai].factors);
                        }
                        let hw_ok = self.check_hardware(account_id, *nonce, assertion.as_slice());
                        proof {
                            let s0 = old(self).accounts();
                            let ai = account_index(s0, account_id);
                            assert(hw_ok == hardware_factor_ok(s0[ai], *nonce, assertion@)) by {
                                assert(self.accounts()[ai].factors@ == s0[ai].factors@);
                            }
                        }
                        hw_ok
                    },
                    _ => {
                        return SecondFactorOutcome::Denied {
                            error: VaultError::ChallengeExpiredOrReplayed,
                        };
                    },
                }
            },
            _ => self.check_pure(account_id, fproof, now),
        };
        if ok {
            let fingerprint = self.attempts.remove(ti).fingerprint;
            let tokens = self.issue_tokens(account_id, fingerprint, now);
            SecondFactorOutcome::Completed { tokens }
        } else {
            let nf = if failures < u32::MAX {
                failures + 1
            } else {
                failures
            };
            if nf >= self.config.second_factor_fail_limit {
                self.attempts.remove(ti);
                SecondFactorOutcome::Rejected
            } else {
                let slot = &mut self.attempts[ti];
                slot.failures = nf;
                SecondFactorOutcome::Retry { failures: nf }
            }
        }
    }

    /// The row index of the open attempt with the given id.
    fn find_attempt(&self, id: u64) -> (r: Option<usize>)
        ensures
            match r {
                Some(i) => i < self.attempts().len() && self.attempts()[i as int].id == id,
                None => !has_attempt(self.attempts(), id),
            },
    {
        let mut i: usize = 0;
        while i < self.attempts.len()
            invariant
                i <= self.attempts().len(),
                forall|j: int| 0 <= j < i ==> (#[trigger] self.attempts()[j]).id != id,
            decreases self.attempts().len() - i,
        {
            if self.attempts[i].id == id {
                return Some(i);
            }
            i = i + 1;
        }
        None
    }

    /// Checks a non-hardware factor proof against every configured factor
    /// of its variant.
    fn check_pure(&self, account_id: u64, fproof: &FactorProof, now: u64) -> (r: bool)
        requires
            self.wf(),
            has_account(self.accounts(), account_id),
            self.cfg().totp_step_seconds > 0,
            !(fproof is Hardware),
        ensures
            r == pure_factor_ok(
                self.accounts()[account_index(self.accounts(), account_id)],
                *fproof,
                now,
                self.cfg().totp_step_seconds,
            ),
    {
        let a = self.accounts.get(account_id).unwrap();
        let step: u64 = now / self.config.totp_step_seconds;
        let ghost ga = self.accounts()[account_index(self.accounts(), account_id)];
        let mut i: usize = 0;
        let n = a.factors.len();
        while i < n
            invariant
                i <= n,
                n == ga.factors@.len(),
                a.factors@ == ga.factors@,
                ga == self.accounts()[account_index(self.accounts(), account_id)],
                step == now / self.cfg().totp_step_seconds,
                !(fproof is Hardware),
                forall|fi: int|
                    0 <= fi < i ==> !factor_accepts(
                        (#[trigger] ga.factors@[fi]),
                        *fproof,
                        now,
                        step,
                    ),
            decreases n - i,
        {
            let hit: bool = match (&a.factors[i], fproof) {
                (SecondFactor::Totp { secret }, FactorProof::Totp { code }) => {
                    crate::twofactor::check_totp(secret.as_slice(), step, *code)
                },
                (SecondFactor::Email { code: stored, expires_at }, FactorProof::Email { code }) => {
                    if now <= *expires_at && stored.len() == code.len() {
                        crate::crypto::ct_eq_bytes(stored.as_slice(), code.as_slice())
                    } else {
                        false
                    }
                },
                (SecondFactor::Push, FactorProof::Push { approved }) => *approved,
                _ => false,
            };
            if hit {
                proof {
                    assert(factor_accepts(ga.factors@[i as int], *fproof, now, step));
                }
                return true;
            }
            i = i + 1;
        }
        false
    }

    /// Checks a hardware assertion over a consumed nonce against every
    /// configured hardware-bound key.
    fn check_hardware(&self, account_id: u64, nonce: u64, assertion: &[u8]) -> (r: bool)
        requires
            self.wf(),
            has_account(self.accounts(), account_id),
        ensures
            r == hardware_factor_ok(
                self.accounts()[account_index(self.accounts(), account_id)],
                nonce,
                assertion@,
            ),
    {
        let a = self.accounts.get(account_id).unwrap();
        let ghost ga = self.accounts()[account_index(self.accounts(), account_id)];
        let mut i: usize = 0;
        let n = a.factors.len();
        while i < n
            invariant
                i <= n,
                n == ga.factors@.len(),
                a.factors@ == ga.factors@,
                ga == self.accounts()[account_index(self.accounts(), account_id)],
                forall|fi: int|
                    0 <= fi < i ==> !accepts_hardware((#[trigger] ga.factors@[fi]), nonce, assertion@),
            decreases n - i,
        {
            let hit: bool = match &a.factors[i] {
                SecondFactor::Hardware { public_key } => {
                    crate::twofactor::check_assertion(public_key.as_slice(), nonce, assertion)
                },
                _ => false,
            };
            if hit {
                proof {
                    assert(accepts_hardware(ga.factors@[i as int], nonce, assertion@));
                }
                return true;
            }
            i = i + 1;
        }
        false
    }
}

/// Whether one configured factor accepts a submitted non-hardware proof.
pub open spec fn factor_accepts(f: SecondFactor, p: FactorProof, now: u64, step: u64) -> bool {
    match (f, p) {
        (SecondFactor::Totp { secret }, FactorProof::Totp { code }) =>
            crate::twofactor::totp_window_ok(secret@, step, code),
        (SecondFactor::Email { code: stored, expires_at }, FactorProof::Email { code }) => now
            <= expires_at && stored@ == code@,
        (SecondFactor::Push, FactorProof::Push { approved }) => approved,
        _ => false,
    }
}


/// Appending one membership changes an organization's Owner count by one
/// exactly when the new membership is an Owner of that organization.
pub proof fn lemma_owner_count_push(s: Seq<Membership>, m: Membership, org_id: u64)
    ensures
        owner_count(s.push(m), org_id) == owner_count(s, org_id) + (
        if m.org_id == org_id && m.role == Role::Owner {
            1nat
        } else {
            0nat
        }),
{
    assert(s.push(m).drop_last() =~= s);
    assert(s.push(m).last() == m);
}

impl Vault {
    /// Creates an organization owned by `actor`: the organization starts at
    /// revision zero with one Owner membership for the creator.
    pub fn create_org(&mut self, actor: u64, name: String) -> (r: Result<u64, VaultError>)
        requires
            old(self).wf(),
            old(self).next() < u64::MAX,
        ensures
            final(self).wf(),
            final(self).accounts() == old(self).accounts(),
            final(self).sessions() == old(self).sessions(),
            final(self).attempts() == old(self).attempts(),
            final(self).collections() == old(self).collections(),
            final(self).ciphers() == old(self).ciphers(),
            final(self).channels() == old(self).channels(),
            final(self).cfg() == old(self).cfg(),
            final(self).key() == old(self).key(),
            r is Ok <==> has_account(old(self).accounts(), actor),
            r is Err ==> r->Err_0 == VaultError::NotFound && final(self).orgs() == old(self).orgs()
                && final(self).memberships() == old(self).memberships() && final(self).next()
                == old(self).next(),
            r is Ok ==> r->Ok_0 == old(self).next() && final(self).next() == old(self).next() + 1
                && final(self).orgs().len() == old(self).orgs().len() + 1 && final(
                self).orgs().drop_last() == old(self).orgs() && ({
                let o = final(self).orgs().last();
                o.id == old(self).next() && o.name == name && o.revision == 0
            }) && final(self).memberships().len() == old(self).memberships().len() + 1 && final(
                self).memberships().drop_last() == old(self).memberships() && ({
                let m = final(self).memberships().last();
                &&& m.account_id == actor
                &&& m.org_id == old(self).next()
                &&& m.role == Role::Owner
                &&& m.grants@ == Seq::<CollectionGrant>::empty()
                &&& !m.suspended
            }),
    {
        match self.accounts.index_of(actor) {
            None => Err(VaultError::NotFound),
            Some(_) => {
                let org_id = self.next_id;
                self.next_id = self.next_id + 1;
                self.orgs.push(Organization { id: org_id, name, revision: 0 });
                self.memberships.push(
                    Membership {
                        account_id: actor,
                        org_id,
                        role: Role::Owner,
                        grants: Vec::new(),
                        suspended: false,
                    },
                );
                proof {
                    let m = self.memberships().last();
                    assert forall|i: int| 0 <= i < self.orgs().len() implies owner_count(
                        self.memberships(),
                        (#[trigger] self.orgs()[i]).id,
                    ) >= 1 by {
                        lemma_owner_count_push(
                            old(self).memberships(),
                            m,
                            self.orgs()[i].id,
                        );
                        assert(self.memberships().drop_last() =~= old(self).memberships());
                        assert(self.memberships() =~= old(self).memberships().push(m));
                        if i < old(self).orgs().len() {
                            assert(self.orgs()[i] == old(self).orgs()[i]);
                            assert(owner_count(old(self).memberships(), self.orgs()[i].id) >= 1);
                        } else {
                            assert(self.orgs()[i].id == org_id);
                        }
                    }
                }
                Ok(org_id)
            },
        }
    }

    /// The row index of the membership linking `account_id` to `org_id`.
    fn find_membership(&self, account_id: u64, org_id: u64) -> (r: Option<usize>)
        ensures
            match r {
                Some(i) => i < self.memberships().len() && self.memberships()[i as int].account_id
                    == account_id && self.memberships()[i as int].org_id == org_id,
                None => !has_membership(self.memberships(), account_id, org_id),
            },
    {
        let mut i: usize = 0;
        while i < self.memberships.len()
            invariant
                i <= self.memberships().len(),
                forall|j: int|
                    0 <= j < i ==> !((#[trigger] self.memberships()[j]).account_id == account_id
                        && self.memberships()[j].org_id == org_id),
            decreases self.memberships().len() - i,
        {
            if self.memberships[i].account_id == account_id && self.memberships[i].org_id == org_id
            {
                return Some(i);
            }
            i = i + 1;
        }
        None
    }

    /// Whether registering a channel for the subject is allowed to `actor`:
    /// only the own account, or an organization where the actor holds a
    /// non-suspended membership.
    pub open spec fn channel_allowed(&self, actor: u64, subject: Subject) -> bool {
        match subject {
            Subject::Account { account_id } => account_id == actor && has_account(
                self.accounts(),
                actor,
            ),
            Subject::Org { org_id } => has_membership(self.memberships(), actor, org_id)
                && !self.memberships()[membership_index(
                self.memberships(),
                actor,
                org_id,
            )].suspended,
        }
    }

    /// Connects a live-update channel for the subject from the device
    /// session `session_id`. A subject the actor may not watch is refused
    /// as `NotFound`, hiding whether it exists.
    pub fn register_channel(&mut self, actor: u64, subject: Subject, session_id: u64) -> (r:
        Result<u64, VaultError>)
        requires
            old(self).wf(),
            old(self).next() < u64::MAX,
        ensures
            final(self).wf(),
            final(self).accounts() == old(self).accounts(),
            final(self).sessions() == old(self).sessions(),
            final(self).attempts() == old(self).attempts(),
            final(self).orgs() == old(self).orgs(),
            final(self).memberships() == old(self).memberships(),
            final(self).collections() == old(self).collections(),
            final(self).ciphers() == old(self).ciphers(),
            final(self).cfg() == old(self).cfg(),
            final(self).key() == old(self).key(),
            r is Ok <==> old(self).channel_allowed(actor, subject),
            r is Err ==> r->Err_0 == VaultError::NotFound && final(self).channels() == old(
                self).channels() && final(self).next() == old(self).next(),
            r is Ok ==> r->Ok_0 == old(self).next() && final(self).next() == old(self).next() + 1
                && final(self).channels() == old(self).channels().push(
                Channel { id: old(self).next(), subject, session_id },
            ),
    {
        let allowed = match subject {
            Subject::Account { account_id } => {
                account_id == actor && match self.accounts.index_of(actor) {
                    Some(_) => true,
                    None => false,
                }
            },
            Subject::Org { org_id } => {
                match self.find_membership(actor, org_id) {
                    Some(mi) => {
                        proof {
                            assert(self.memberships()[membership_index(
                                self.memberships(),
                                actor,
                                org_id,
                            )].account_id == actor);
                            assert(membership_index(self.memberships(), actor, org_id) == mi);
                        }
                        !self.memberships[mi].suspended
                    },
                    None => false,
                }
            },
        };
        if allowed {
            let id = self.next_id;
            self.next_id = self.next_id + 1;
            self.channels.push(Channel { id, subject, session_id });
            Ok(id)
        } else {
            Err(VaultError::NotFound)
        }
    }

    /// Disconnects a live-update channel; clients that drop their
    /// connection simply disappear from the index this way.
    pub fn unregister_channel(&mut self, channel_id: u64) -> (r: bool)
        requires
            old(self).wf(),
        ensures
            final(self).wf(),
            final(self).accounts() == old(self).accounts(),
            final(self).sessions() == old(self).sessions(),
            final(self).attempts() == old(self).attempts(),
            final(self).orgs() == old(self).orgs(),
            final(self).memberships() == old(self).memberships(),
            final(self).collections() == old(self).collections(),
            final(self).ciphers() == old(self).ciphers(),
            final(self).next() == old(self).next(),
            final(self).cfg() == old(self).cfg(),
            final(self).key() == old(self).key(),
            r == (exists|i: int|
                0 <= i < old(self).channels().len() && (#[trigger] old(self).channels()[i]).id
                    == channel_id),
            r ==> exists|i: int|
                #![all_triggers]
                0 <= i < old(self).channels().len() && old(self).channels()[i].id == channel_id
                    && final(self).channels() == old(self).channels().remove(i),
            !r ==> final(self).channels() == old(self).channels(),
    {
        let mut i: usize = 0;
        while i < self.channels.len()
            invariant
                i <= self.channels().len(),
                old(self).wf(),
                *self == *old(self),
                forall|j: int| 0 <= j < i ==> (#[trigger] self.channels()[j]).id != channel_id,
            decreases self.channels().len() - i,
        {
            if self.channels[i].id == channel_id {
                self.channels.remove(i);
                proof {
                    old(self).channels().remove_ensures(i as int);
                    assert forall|x: int, y: int|
                        0 <= x < self.channels().len() && 0 <= y < self.channels().len() && x
                            != y implies self.channels()[x].id != self.channels()[y].id by {
                        let ox: int = if x < i { x } else { x + 1 };
                        let oy: int = if y < i { y } else { y + 1 };
                        assert(self.channels()[x] == old(self).channels()[ox]);
                        assert(self.channels()[y] == old(self).channels()[oy]);
                    }
                }
                return true;
            }
            i = i + 1;
        }
        false
    }
}


/// The account rows with the actor's revision stamp advanced.
pub open spec fn accounts_bumped(s: Seq<Account>, actor: u64) -> Seq<Account> {
    let ai = account_index(s, actor);
    s.update(ai, Account { revision: bump(s[ai].revision), ..s[ai] })
}

/// The organization rows with one organization's revision stamp advanced.
pub open spec fn orgs_bumped(s: Seq<Organization>, org_id: u64) -> Seq<Organization> {
    let oi = org_index(s, org_id);
    s.update(oi, Organization { revision: bump(s[oi].revision), ..s[oi] })
}

/// The test every organization-scoped call passes: a missing membership
/// hides the organization as `NotFound`; a suspended membership or a role
/// without the needed capability is `Forbidden`.
pub open spec fn org_access(
    mems: Seq<Membership>,
    actor: u64,
    org_id: u64,
    cap: Capability,
) -> Option<VaultError> {
    if !has_membership(mems, actor, org_id) {
        Some(VaultError::NotFound)
    } else {
        let m = mems[membership_index(mems, actor, org_id)];
        if m.suspended {
            Some(VaultError::Forbidden)
        } else if !role_allows(m.role, m.grants@, cap) {
            Some(VaultError::Forbidden)
        } else {
            None
        }
    }
}

/// Whether a collection with this id exists inside the organization.
pub open spec fn col_present(cols: Seq<Collection>, cid: u64, org_id: u64) -> bool {
    exists|j: int| 0 <= j < cols.len() && (#[trigger] cols[j]).id == cid && cols[j].org_id == org_id
}

/// Whether every listed collection exists and belongs to the organization.
pub open spec fn cols_in_org(cols: Seq<Collection>, cids: Seq<u64>, org_id: u64) -> bool {
    forall|i: int| 0 <= i < cids.len() ==> col_present(cols, #[trigger] cids[i], org_id)
}

/// Whether the role with these grants may write every listed collection.
pub open spec fn all_writable(role: Role, grants: Seq<CollectionGrant>, cids: Seq<u64>) -> bool {
    forall|i: int|
        0 <= i < cids.len() ==> role_allows(
            role,
            grants,
            Capability::WriteCollection { collection_id: #[trigger] cids[i] },
        )
}

/// Whether the role with these grants may write some collection the item
/// is filed under.
pub open spec fn some_writable(role: Role, grants: Seq<CollectionGrant>, cids: Seq<u64>) -> bool {
    exists|i: int|
        0 <= i < cids.len() && role_allows(
            role,
            grants,
            Capability::WriteCollection { collection_id: #[trigger] cids[i] },
        )
}

/// What the authorization resolver answers for creating a vault item: an
/// account-owned item only for the owner itself (with no collections), an
/// organization-owned one for a member whose role may write every listed
/// collection, Owners and Admins unrestricted.
pub open spec fn create_cipher_access(
    orgs: Seq<Organization>,
    mems: Seq<Membership>,
    cols: Seq<Collection>,
    actor: u64,
    owner: CipherOwner,
    cids: Seq<u64>,
) -> Option<VaultError> {
    match owner {
        CipherOwner::Account { account_id } => {
            if account_id != actor {
                Some(VaultError::NotFound)
            } else if cids.len() > 0 {
                Some(VaultError::Forbidden)
            } else {
                None
            }
        },
        CipherOwner::Org { org_id } => {
            if !has_org(orgs, org_id) {
                Some(VaultError::NotFound)
            } else if !has_membership(mems, actor, org_id) {
                Some(VaultError::NotFound)
            } else {
                let m = mems[membership_index(mems, actor, org_id)];
                if m.suspended {
                    Some(VaultError::Forbidden)
                } else if !cols_in_org(cols, cids, org_id) {
                    Some(VaultError::NotFound)
                } else if m.role == Role::Owner || m.role == Role::Admin {
                    None
                } else if cids.len() == 0 {
                    Some(VaultError::Forbidden)
                } else if all_writable(m.role, m.grants@, cids) {
                    None
                } else {
                    Some(VaultError::Forbidden)
                }
            }
        },
    }
}

/// What the authorization resolver answers for writing or deleting an
/// existing vault item: the owning account itself, or a member of the
/// owning organization whose role may write some collection the item is
/// filed under.
pub open spec fn write_cipher_access(
    mems: Seq<Membership>,
    actor: u64,
    c: Cipher,
) -> Option<VaultError> {
    match c.owner {
        CipherOwner::Account { account_id } => {
            if account_id != actor {
                Some(VaultError::NotFound)
            } else {
                None
            }
        },
        CipherOwner::Org { org_id } => {
            if !has_membership(mems, actor, org_id) {
                Some(VaultError::NotFound)
            } else {
                let m = mems[membership_index(mems, actor, org_id)];
                if m.suspended {
                    Some(VaultError::Forbidden)
                } else if m.role == Role::Owner || m.role == Role::Admin {
                    None
                } else if some_writable(m.role, m.grants@, c.collection_ids@) {
                    None
                } else {
                    Some(VaultError::Forbidden)
                }
            }
        },
    }
}

/// Replacing one membership adjusts an organization's Owner count by the
/// difference of the two rows' contributions.
pub proof fn lemma_owner_count_update(s: Seq<Membership>, i: int, m2: Membership, org_id: u64)
    requires
        0 <= i < s.len(),
    ensures
        owner_count(s.update(i, m2), org_id) + (if s[i].org_id == org_id && s[i].role
            == Role::Owner {
            1nat
        } else {
            0nat
        }) == owner_count(s, org_id) + (if m2.org_id == org_id && m2.role == Role::Owner {
            1nat
        } else {
            0nat
        }),
    decreases s.len(),
{
    if i == s.len() - 1 {
        assert(s.update(i, m2).drop_last() =~= s.drop_last());
        assert(s.update(i, m2).last() == m2);
    } else {
        lemma_owner_count_update(s.drop_last(), i, m2, org_id);
        assert(s.update(i, m2).drop_last() =~= s.drop_last().update(i, m2));
        assert(s.update(i, m2).last() == s.last());
    }
}

/// Removing one membership lowers an organization's Owner count by that
/// row's contribution.
pub proof fn lemma_owner_count_remove(s: Seq<Membership>, i: int, org_id: u64)
    requires
        0 <= i < s.len(),
    ensures
        owner_count(s.remove(i), org_id) + (if s[i].org_id == org_id && s[i].role == Role::Owner {
            1nat
        } else {
            0nat
        }) == owner_count(s, org_id),
    decreases s.len(),
{
    if i == s.len() - 1 {
        assert(s.remove(i) =~= s.drop_last());
    } else {
        lemma_owner_count_remove(s.drop_last(), i, org_id);
        assert(s.remove(i).drop_last() =~= s.drop_last().remove(i));
        assert(s.remove(i).last() == s.last());
        assert(s.remove(i) =~= s.remove(i).drop_last().push(s.last()));
        lemma_owner_count_push(s.drop_last().remove(i), s.last(), org_id);
        assert(owner_count(s.remove(i), org_id) == owner_count(s.drop_last().remove(i), org_id)
            + (if s.last().org_id == org_id && s.last().role == Role::Owner {
            1nat
        } else {
            0nat
        })) by {
            assert(s.remove(i) == s.drop_last().remove(i).push(s.last()));
        }
    }
}

/// What an accepted mutation hands back: the acting account's new revision
/// stamp, the affected entity, the typed change event, and the
/// best-effort deliveries for the currently connected channels.
#[derive(Debug)]
pub struct Applied {
    pub revision: u64,
    pub entity_id: u64,
    pub event: Event,
    pub deliveries: Vec<Delivery>,
}


/// The subject whose channels a cipher change concerns.
pub open spec fn cipher_subject(owner: CipherOwner) -> Subject {
    match owner {
        CipherOwner::Account { account_id } => Subject::Account { account_id },
        CipherOwner::Org { org_id } => Subject::Org { org_id },
    }
}

impl Vault {
    /// The row index of the organization with the given id.
    fn find_org(&self, id: u64) -> (r: Option<usize>)
        ensures
            match r {
                Some(i) => i < self.orgs().len() && self.orgs()[i as int].id == id,
                None => !has_org(self.orgs(), id),
            },
    {
        let mut i: usize = 0;
        while i < self.orgs.len()
            invariant
                i <= self.orgs().len(),
                forall|j: int| 0 <= j < i ==> (#[trigger] self.orgs()[j]).id != id,
            decreases self.orgs().len() - i,
        {
            if self.orgs[i].id == id {
                return Some(i);
            }
            i = i + 1;
        }
        None
    }

    /// The row index of the cipher with the given id.
    fn find_cipher(&self, id: u64) -> (r: Option<usize>)
        ensures
            match r {
                Some(i) => i < self.ciphers().len() && self.ciphers()[i as int].id == id,
                None => !has_cipher(self.ciphers(), id),
            },
    {
        let mut i: usize = 0;
        while i < self.ciphers.len()
            invariant
                i <= self.ciphers().len(),
                forall|j: int| 0 <= j < i ==> (#[trigger] self.ciphers()[j]).id != id,
            decreases self.ciphers().len() - i,
        {
            if self.ciphers[i].id == id {
                return Some(i);
            }
            i = i + 1;
        }
        None
    }

    /// Whether a collection with this id exists inside the organization.
    fn find_col_in_org(&self, cid: u64, org_id: u64) -> (r: bool)
        ensures
            r == col_present(self.collections(), cid, org_id),
    {
        let mut j: usize = 0;
        while j < self.collections.len()
            invariant
                j <= self.collections().len(),
                forall|x: int|
                    0 <= x < j ==> !((#[trigger] self.collections()[x]).id == cid
                        && self.collections()[x].org_id == org_id),
            decreases self.collections().len() - j,
        {
            if self.collections[j].id == cid && self.collections[j].org_id == org_id {
                return true;
            }
            j = j + 1;
        }
        false
    }

    /// Whether every listed collection exists inside the organization.
    fn check_cols_in_org(&self, cids: &Vec<u64>, org_id: u64) -> (r: bool)
        ensures
            r == cols_in_org(self.collections(), cids@, org_id),
    {
        let mut i: usize = 0;
        while i < cids.len()
            invariant
                i <= cids@.len(),
                forall|k: int|
                    0 <= k < i ==> col_present(self.collections(), #[trigger] cids@[k], org_id),
            decreases cids@.len() - i,
        {
            if !self.find_col_in_org(cids[i], org_id) {
                return false;
            }
            i = i + 1;
        }
        true
    }

    /// Whether the role with these grants may write every listed
    /// collection.
    fn check_all_writable(role: Role, grants: &Vec<CollectionGrant>, cids: &Vec<u64>) -> (r: bool)
        ensures
            r == all_writable(role, grants@, cids@),
    {
        let mut i: usize = 0;
        while i < cids.len()
            invariant
                i <= cids@.len(),
                forall|k: int|
                    0 <= k < i ==> role_allows(
                        role,
                        grants@,
                        Capability::WriteCollection { collection_id: #[trigger] cids@[k] },
                    ),
            decreases cids@.len() - i,
        {
            if !crate::authz::allows(
                role,
                grants,
                Capability::WriteCollection { collection_id: cids[i] },
            ) {
                return false;
            }
            i = i + 1;
        }
        true
    }

    /// Whether the role with these grants may write some listed collection.
    fn check_some_writable(role: Role, grants: &Vec<CollectionGrant>, cids: &Vec<u64>) -> (r: bool)
        ensures
            r == some_writable(role, grants@, cids@),
    {
        let mut i: usize = 0;
        while i < cids.len()
            invariant
                i <= cids@.len(),
                forall|k: int|
                    0 <= k < i ==> !role_allows(
                        role,
                        grants@,
                        Capability::WriteCollection { collection_id: #[trigger] cids@[k] },
                    ),
            decreases cids@.len() - i,
        {
            if crate::authz::allows(
                role,
                grants,
                Capability::WriteCollection { collection_id: cids[i] },
            ) {
                return true;
            }
            i = i + 1;
        }
        false
    }

    /// Advances the acting account's stamp — and the organization's where
    /// one is affected — builds the typed event, and computes the
    /// deliveries; the single place every accepted mutation ends in, so a
    /// stamp never advances without its data change.
    fn finish_mutation(
        &mut self,
        actor: u64,
        org: Option<u64>,
        subject: Subject,
        change: ChangeKind,
        entity: EntityKind,
        entity_id: u64,
        origin: Option<u64>,
    ) -> (r: Applied)
        requires
            old(self).wf(),
            has_account(old(self).accounts(), actor),
            org is Some ==> has_org(old(self).orgs(), org->0),
        ensures
            final(self).wf(),
            final(self).sessions() == old(self).sessions(),
            final(self).attempts() == old(self).attempts(),
            final(self).memberships() == old(self).memberships(),
            final(self).collections() == old(self).collections(),
            final(self).ciphers() == old(self).ciphers(),
            final(self).channels() == old(self).channels(),
            final(self).next() == old(self).next(),
            final(self).cfg() == old(self).cfg(),
            final(self).key() == old(self).key(),
            final(self).accounts() == accounts_bumped(old(self).accounts(), actor),
            org is Some ==> final(self).orgs() == orgs_bumped(old(self).orgs(), org->0),
            org is None ==> final(self).orgs() == old(self).orgs(),
            r.revision == bump(old(self).account_revision(actor)),
            r.entity_id == entity_id,
            r.event == (Event { subject, change, entity, entity_id }),
            r.deliveries@ == fanout(old(self).channels(), r.event, origin),
    {
        let revision = self.accounts.bump_revision(actor);
        match org {
            Some(org_id) => {
                let oi = self.find_org(org_id).unwrap();
                proof {
                    assert(self.orgs()[org_index(self.orgs(), org_id)].id == org_id);
                    assert(org_index(self.orgs(), org_id) == oi);
                }
                let cur = self.orgs[oi].revision;
                let newrev = if cur < u64::MAX {
                    cur + 1
                } else {
                    cur
                };
                let slot = &mut self.orgs[oi];
                slot.revision = newrev;
                proof {
                    assert(forall|k: int|
                        0 <= k < self.orgs().len() ==> (#[trigger] self.orgs()[k]).id == old(
                            self,
                        ).orgs()[k].id);
                }
            },
            None => {},
        }
        let event = Event { subject, change, entity, entity_id };
        let deliveries = fanout_deliveries(&self.channels, event, origin);
        Applied { revision, entity_id, event, deliveries }
    }

    /// Creates a vault item. The authorization resolver admits the owning
    /// account itself (no collections), or an organization member whose
    /// role may write every listed collection; the owner's stamps advance
    /// atomically with the item and one `Created` event fans out.
    pub fn create_cipher(
        &mut self,
        actor: u64,
        origin: Option<u64>,
        owner: CipherOwner,
        data: Vec<u8>,
        collection_ids: Vec<u64>,
        now: u64,
    ) -> (r: Result<Applied, VaultError>)
        requires
            old(self).wf(),
            old(self).next() < u64::MAX,
        ensures
            final(self).wf(),
            final(self).sessions() == old(self).sessions(),
            final(self).attempts() == old(self).attempts(),
            final(self).channels() == old(self).channels(),
            final(self).memberships() == old(self).memberships(),
            final(self).collections() == old(self).collections(),
            final(self).cfg() == old(self).cfg(),
            final(self).key() == old(self).key(),
            !has_account(old(self).accounts(), actor) ==> r == Err::<Applied, VaultError>(
                VaultError::NotFound,
            ),
            has_account(old(self).accounts(), actor) ==> ({
                let access = create_cipher_access(
                    old(self).orgs(),
                    old(self).memberships(),
                    old(self).collections(),
                    actor,
                    owner,
                    collection_ids@,
                );
                match access {
                    Some(e) => r == Err::<Applied, VaultError>(e),
                    None => r is Ok && ({
                        let a = r->Ok_0;
                        &&& a.entity_id == old(self).next()
                        &&& final(self).next() == old(self).next() + 1
                        &&& final(self).ciphers() == old(self).ciphers().push(
                            Cipher {
                                id: old(self).next(),
                                owner,
                                collection_ids,
                                data,
                                last_modified: now,
                            },
                        )
                        &&& final(self).accounts() == accounts_bumped(
                            old(self).accounts(),
                            actor,
                        )
                        &&& a.revision == bump(old(self).account_revision(actor))
                        &&& a.event == (Event {
                            subject: cipher_subject(owner),
                            change: ChangeKind::Created,
                            entity: EntityKind::Cipher,
                            entity_id: old(self).next(),
                        })
                        &&& a.deliveries@ == fanout(old(self).channels(), a.event, origin)
                        &&& (owner matches CipherOwner::Org { org_id } ==> final(self).orgs()
                            == orgs_bumped(old(self).orgs(), org_id))
                        &&& (owner is Account ==> final(self).orgs() == old(self).orgs())
                    }),
                }
            }),
            r is Err ==> final(self).accounts() == old(self).accounts() && final(self).orgs()
                == old(self).orgs() && final(self).ciphers() == old(self).ciphers() && final(
                self).next() == old(self).next(),
    {
        if self.accounts.index_of(actor).is_none() {
            return Err(VaultError::NotFound);
        }
        let org: Option<u64> = match owner {
            CipherOwner::Account { account_id } => {
                if account_id != actor {
                    return Err(VaultError::NotFound);
                }
                if collection_ids.len() > 0 {
                    return Err(VaultError::Forbidden);
                }
                None
            },
            CipherOwner::Org { org_id } => {
                if self.find_org(org_id).is_none() {
                    return Err(VaultError::NotFound);
                }
                let mi = match self.find_membership(actor, org_id) {
                    Some(mi) => mi,
                    None => {
                        return Err(VaultError::NotFound);
                    },
                };
                proof {
                    assert(self.memberships()[membership_index(
                        self.memberships(),
                        actor,
                        org_id,
                    )].account_id == actor);
                    assert(membership_index(self.memberships(), actor, org_id) == mi);
                }
                if self.memberships[mi].suspended {
                    return Err(VaultError::Forbidden);
                }
                if !self.check_cols_in_org(&collection_ids, org_id) {
                    return Err(VaultError::NotFound);
                }
                let role = self.memberships[mi].role;
                let admin = match role {
                    Role::Owner => true,
                    Role::Admin => true,
                    _ => false,
                };
                if !admin {
                    if collection_ids.len() == 0 {
                        return Err(VaultError::Forbidden);
                    }
                    if !Self::check_all_writable(role, &self.memberships[mi].grants, &collection_ids)
                    {
                        return Err(VaultError::Forbidden);
                    }
                }
                Some(org_id)
            },
        };
        let entity_id = self.next_id;
        self.next_id = self.next_id + 1;
        self.ciphers.push(
            Cipher { id: entity_id, owner, collection_ids, data, last_modified: now },
        );
        let subject = match owner {
            CipherOwner::Account { account_id } => Subject::Account { account_id },
            CipherOwner::Org { org_id } => Subject::Org { org_id },
        };
        let applied = self.finish_mutation(
            actor,
            org,
            subject,
            ChangeKind::Created,
            EntityKind::Cipher,
            entity_id,
            origin,
        );
        Ok(applied)
    }
}


impl Vault {
    /// Decides the organization access check for an actor and capability.
    fn check_org_access(&self, actor: u64, org_id: u64, cap: Capability) -> (g: Option<VaultError>)
        requires
            self.wf(),
        ensures
            g == org_access(self.memberships(), actor, org_id, cap),
    {
        match self.find_membership(actor, org_id) {
            None => Some(VaultError::NotFound),
            Some(mi) => {
                proof {
                    assert(self.memberships()[membership_index(
                        self.memberships(),
                        actor,
                        org_id,
                    )].account_id == actor);
                    assert(membership_index(self.memberships(), actor, org_id) == mi);
                }
                if self.memberships[mi].suspended {
                    Some(VaultError::Forbidden)
                } else if !crate::authz::allows(
                    self.memberships[mi].role,
                    &self.memberships[mi].grants,
                    cap,
                ) {
                    Some(VaultError::Forbidden)
                } else {
                    None
                }
            },
        }
    }

    /// Decides the authorization for writing or deleting an existing vault item.
    fn check_cipher_write(&self, actor: u64, ci: usize) -> (g: Option<VaultError>)
        requires
            self.wf(),
            ci < self.ciphers().len(),
        ensures
            g == write_cipher_access(self.memberships(), actor, self.ciphers()[ci as int]),
    {
        let owner = self.ciphers[ci].owner;
        match owner {
            CipherOwner::Account { account_id } => {
                if account_id != actor {
                    Some(VaultError::NotFound)
                } else {
                    None
                }
            },
            CipherOwner::Org { org_id } => {
                match self.find_membership(actor, org_id) {
                    None => Some(VaultError::NotFound),
                    Some(mi) => {
                        proof {
                            assert(self.memberships()[membership_index(
                                self.memberships(),
                                actor,
                                org_id,
                            )].account_id == actor);
                            assert(membership_index(self.memberships(), actor, org_id) == mi);
                        }
                        if self.memberships[mi].suspended {
                            Some(VaultError::Forbidden)
                        } else {
                            let role = self.memberships[mi].role;
                            let admin = match role {
                                Role::Owner => true,
                                Role::Admin => true,
                                _ => false,
                            };
                            if admin {
                                None
                            } else if Self::check_some_writable(
                                role,
                                &self.memberships[mi].grants,
                                &self.ciphers[ci].collection_ids,
                            ) {
                                None
                            } else {
                                Some(VaultError::Forbidden)
                            }
                        }
                    },
                }
            },
        }
    }

    /// Replaces a vault item's encrypted contents, last-committed-wins at
    /// whole-item granularity; stamps advance atomically and one `Updated`
    /// event fans out.
    pub fn update_cipher(
        &mut self,
        actor: u64,
        origin: Option<u64>,
        cipher_id: u64,
        data: Vec<u8>,
        now: u64,
    ) -> (r: Result<Applied, VaultError>)
        requires
            old(self).wf(),
        ensures
            final(self).wf(),
            final(self).sessions() == old(self).sessions(),
            final(self).attempts() == old(self).attempts(),
            final(self).channels() == old(self).channels(),
            final(self).memberships() == old(self).memberships(),
            final(self).collections() == old(self).collections(),
            final(self).next() == old(self).next(),
            final(self).cfg() == old(self).cfg(),
            final(self).key() == old(self).key(),
            r is Err ==> final(self).accounts() == old(self).accounts() && final(self).orgs()
                == old(self).orgs() && final(self).ciphers() == old(self).ciphers(),
            !has_account(old(self).accounts(), actor) ==> r == Err::<Applied, VaultError>(
                VaultError::NotFound,
            ),
            has_account(old(self).accounts(), actor) && !has_cipher(old(self).ciphers(), cipher_id)
                ==> r == Err::<Applied, VaultError>(VaultError::NotFound),
            has_account(old(self).accounts(), actor) && has_cipher(old(self).ciphers(), cipher_id)
                ==> ({
                let ci = cipher_index(old(self).ciphers(), cipher_id);
                let c = old(self).ciphers()[ci];
                match write_cipher_access(old(self).memberships(), actor, c) {
                    Some(e) => r == Err::<Applied, VaultError>(e),
                    None => r is Ok && ({
                        let a = r->Ok_0;
                        &&& a.entity_id == cipher_id
                        &&& final(self).ciphers() == old(self).ciphers().update(
                            ci,
                            Cipher { data, last_modified: now, ..c },
                        )
                        &&& final(self).accounts() == accounts_bumped(old(self).accounts(), actor)
                        &&& a.revision == bump(old(self).account_revision(actor))
                        &&& a.event == (Event {
                            subject: cipher_subject(c.owner),
                            change: ChangeKind::Updated,
                            entity: EntityKind::Cipher,
                            entity_id: cipher_id,
                        })
                        &&& a.deliveries@ == fanout(old(self).channels(), a.event, origin)
                        &&& (match c.owner {
                            CipherOwner::Org { org_id } => if has_org(old(self).orgs(), org_id) {
                                final(self).orgs() == orgs_bumped(old(self).orgs(), org_id)
                            } else {
                                final(self).orgs() == old(self).orgs()
                            },
                            CipherOwner::Account { .. } => final(self).orgs() == old(self).orgs(),
                        })
                    }),
                }
            }),
    {
        if self.accounts.index_of(actor).is_none() {
            return Err(VaultError::NotFound);
        }
        let ci = match self.find_cipher(cipher_id) {
            Some(ci) => ci,
            None => {
                return Err(VaultError::NotFound);
            },
        };
        proof {
            assert(self.ciphers()[cipher_index(self.ciphers(), cipher_id)].id == cipher_id);
            assert(cipher_index(self.ciphers(), cipher_id) == ci);
        }
        match self.check_cipher_write(actor, ci) {
            Some(e) => Err(e),
            None => {
                let owner = self.ciphers[ci].owner;
                let slot = &mut self.ciphers[ci];
                slot.data = data;
                slot.last_modified = now;
                let org: Option<u64> = match owner {
                    CipherOwner::Org { org_id } => {
                        if self.find_org(org_id).is_some() {
                            Some(org_id)
                        } else {
                            None
                        }
                    },
                    CipherOwner::Account { .. } => None,
                };
                let subject = match owner {
                    CipherOwner::Account { account_id } => Subject::Account { account_id },
                    CipherOwner::Org { org_id } => Subject::Org { org_id },
                };
                let applied = self.finish_mutation(
                    actor,
                    org,
                    subject,
                    ChangeKind::Updated,
                    EntityKind::Cipher,
                    cipher_id,
                    origin,
                );
                Ok(applied)
            },
        }
    }

    /// Deletes a vault item under the same authorization as writing it; stamps
    /// advance atomically and one `Deleted` event fans out.
    pub fn delete_cipher(&mut self, actor: u64, origin: Option<u64>, cipher_id: u64) -> (r: Result<
        Applied,
        VaultError,
    >)
        requires
            old(self).wf(),
        ensures
            final(self).wf(),
            final(self).sessions() == old(self).sessions(),
            final(self).attempts() == old(self).attempts(),
            final(self).channels() == old(self).channels(),
            final(self).memberships() == old(self).memberships(),
            final(self).collections() == old(self).collections(),
            final(self).next() == old(self).next(),
            final(self).cfg() == old(self).cfg(),
            final(self).key() == old(self).key(),
            r is Err ==> final(self).accounts() == old(self).accounts() && final(self).orgs()
                == old(self).orgs() && final(self).ciphers() == old(self).ciphers(),
            !has_account(old(self).accounts(), actor) ==> r == Err::<Applied, VaultError>(
                VaultError::NotFound,
            ),
            has_account(old(self).accounts(), actor) && !has_cipher(old(self).ciphers(), cipher_id)
                ==> r == Err::<Applied, VaultError>(VaultError::NotFound),
            has_account(old(self).accounts(), actor) && has_cipher(old(self).ciphers(), cipher_id)
                ==> ({
                let ci = cipher_index(old(self).ciphers(), cipher_id);
                let c = old(self).ciphers()[ci];
                match write_cipher_access(old(self).memberships(), actor, c) {
                    Some(e) => r == Err::<Applied, VaultError>(e),
                    None => r is Ok && ({
                        let a = r->Ok_0;
                        &&& a.entity_id == cipher_id
                        &&& final(self).ciphers() == old(self).ciphers().remove(ci)
                        &&& final(self).accounts() == accounts_bumped(old(self).accounts(), actor)
                        &&& a.revision == bump(old(self).account_revision(actor))
                        &&& a.event == (Event {
                            subject: cipher_subject(c.owner),
                            change: ChangeKind::Deleted,
                            entity: EntityKind::Cipher,
                            entity_id: cipher_id,
                        })
                        &&& a.deliveries@ == fanout(old(self).channels(), a.event, origin)
                        &&& (match c.owner {
                            CipherOwner::Org { org_id } => if has_org(old(self).orgs(), org_id) {
                                final(self).orgs() == orgs_bumped(old(self).orgs(), org_id)
                            } else {
                                final(self).orgs() == old(self).orgs()
                            },
                            CipherOwner::Account { .. } => final(self).orgs() == old(self).orgs(),
                        })
                    }),
                }
            }),
    {
        if self.accounts.index_of(actor).is_none() {
            return Err(VaultError::NotFound);
        }
        let ci = match self.find_cipher(cipher_id) {
            Some(ci) => ci,
            None => {
                return Err(VaultError::NotFound);
            },
        };
        proof {
            assert(self.ciphers()[cipher_index(self.ciphers(), cipher_id)].id == cipher_id);
            assert(cipher_index(self.ciphers(), cipher_id) == ci);
        }
        match self.check_cipher_write(actor, ci) {
            Some(e) => Err(e),
            None => {
                let owner = self.ciphers[ci].owner;
                self.ciphers.remove(ci);
                proof {
                    old(self).ciphers().remove_ensures(ci as int);
                    assert forall|x: int, y: int|
                        0 <= x < self.ciphers().len() && 0 <= y < self.ciphers().len() && x
                            != y implies self.ciphers()[x].id != self.ciphers()[y].id by {
                        let ox: int = if x < ci { x } else { x + 1 };
                        let oy: int = if y < ci { y } else { y + 1 };
                        assert(self.ciphers()[x] == old(self).ciphers()[ox]);
                        assert(self.ciphers()[y] == old(self).ciphers()[oy]);
                    }
                    assert forall|x: int| 0 <= x < self.ciphers().len() implies (
                    #[trigger] self.ciphers()[x]).id < self.next() by {
                        let ox: int = if x < ci { x } else { x + 1 };
                        assert(self.ciphers()[x] == old(self).ciphers()[ox]);
                    }
                }
                let org: Option<u64> = match owner {
                    CipherOwner::Org { org_id } => {
                        if self.find_org(org_id).is_some() {
                            Some(org_id)
                        } else {
                            None
                        }
                    },
                    CipherOwner::Account { .. } => None,
                };
                let subject = match owner {
                    CipherOwner::Account { account_id } => Subject::Account { account_id },
                    CipherOwner::Org { org_id } => Subject::Org { org_id },
                };
                let applied = self.finish_mutation(
                    actor,
                    org,
                    subject,
                    ChangeKind::Deleted,
                    EntityKind::Cipher,
                    cipher_id,
                    origin,
                );
                Ok(applied)
            },
        }
    }

    /// Creates a collection inside an organization; organization
    /// management, so Owners and Admins only.
    pub fn create_collection(
        &mut self,
        actor: u64,
        origin: Option<u64>,
        org_id: u64,
        name: String,
    ) -> (r: Result<Applied, VaultError>)
        requires
            old(self).wf(),
            old(self).next() < u64::MAX,
        ensures
            final(self).wf(),
            final(self).sessions() == old(self).sessions(),
            final(self).attempts() == old(self).attempts(),
            final(self).channels() == old(self).channels(),
            final(self).memberships() == old(self).memberships(),
            final(self).ciphers() == old(self).ciphers(),
            final(self).cfg() == old(self).cfg(),
            final(self).key() == old(self).key(),
            r is Err ==> final(self).accounts() == old(self).accounts() && final(self).orgs()
                == old(self).orgs() && final(self).collections() == old(self).collections()
                && final(self).next() == old(self).next(),
            !has_account(old(self).accounts(), actor) ==> r == Err::<Applied, VaultError>(
                VaultError::NotFound,
            ),
            has_account(old(self).accounts(), actor) && !has_org(old(self).orgs(), org_id) ==> r
                == Err::<Applied, VaultError>(VaultError::NotFound),
            has_account(old(self).accounts(), actor) && has_org(old(self).orgs(), org_id) ==> ({
                match org_access(old(self).memberships(), actor, org_id, Capability::ManageOrg) {
                    Some(e) => r == Err::<Applied, VaultError>(e),
                    None => r is Ok && ({
                        let a = r->Ok_0;
                        &&& a.entity_id == old(self).next()
                        &&& final(self).next() == old(self).next() + 1
                        &&& final(self).collections() == old(self).collections().push(
                            Collection { id: old(self).next(), org_id, name },
                        )
                        &&& final(self).accounts() == accounts_bumped(old(self).accounts(), actor)
                        &&& final(self).orgs() == orgs_bumped(old(self).orgs(), org_id)
                        &&& a.revision == bump(old(self).account_revision(actor))
                        &&& a.event == (Event {
                            subject: Subject::Org { org_id },
                            change: ChangeKind::Created,
                            entity: EntityKind::Collection,
                            entity_id: old(self).next(),
                        })
                        &&& a.deliveries@ == fanout(old(self).channels(), a.event, origin)
                    }),
                }
            }),
    {
        if self.accounts.index_of(actor).is_none() {
            return Err(VaultError::NotFound);
        }
        if self.find_org(org_id).is_none() {
            return Err(VaultError::NotFound);
        }
        match self.check_org_access(actor, org_id, Capability::ManageOrg) {
            Some(e) => Err(e),
            None => {
                let entity_id = self.next_id;
                self.next_id = self.next_id + 1;
                self.collections.push(Collection { id: entity_id, org_id, name });
                let applied = self.finish_mutation(
                    actor,
                    Some(org_id),
                    Subject::Org { org_id },
                    ChangeKind::Created,
                    EntityKind::Collection,
                    entity_id,
                    origin,
                );
                Ok(applied)
            },
        }
    }
}


impl Vault {
    /// Counts the Owner memberships of an organization.
    fn count_owners(&self, org_id: u64) -> (c: usize)
        ensures
            c == owner_count(self.memberships(), org_id),
    {
        let mut c: usize = 0;
        let mut i: usize = 0;
        while i < self.memberships.len()
            invariant
                i <= self.memberships().len(),
                c <= i,
                c == owner_count(self.memberships().take(i as int), org_id),
            decreases self.memberships().len() - i,
        {
            proof {
                assert(self.memberships().take(i + 1).drop_last() =~= self.memberships().take(
                    i as int,
                ));
                assert(self.memberships().take(i + 1).last() == self.memberships()[i as int]);
            }
            let is_owner = match self.memberships[i].role {
                Role::Owner => true,
                _ => false,
            };
            if self.memberships[i].org_id == org_id && is_owner {
                c = c + 1;
            }
            i = i + 1;
        }
        proof {
            assert(self.memberships().take(self.memberships().len() as int)
                =~= self.memberships());
        }
        c
    }

    /// Adds a membership to an organization: organization management, so
    /// Owners and Admins only; the member must exist and not already
    /// belong.
    pub fn add_membership(
        &mut self,
        actor: u64,
        origin: Option<u64>,
        org_id: u64,
        member: u64,
        role: Role,
        grants: Vec<CollectionGrant>,
    ) -> (r: Result<Applied, VaultError>)
        requires
            old(self).wf(),
        ensures
            final(self).wf(),
            final(self).sessions() == old(self).sessions(),
            final(self).attempts() == old(self).attempts(),
            final(self).channels() == old(self).channels(),
            final(self).collections() == old(self).collections(),
            final(self).ciphers() == old(self).ciphers(),
            final(self).next() == old(self).next(),
            final(self).cfg() == old(self).cfg(),
            final(self).key() == old(self).key(),
            r is Err ==> final(self).accounts() == old(self).accounts() && final(self).orgs()
                == old(self).orgs() && final(self).memberships() == old(self).memberships(),
            !has_account(old(self).accounts(), actor) ==> r == Err::<Applied, VaultError>(
                VaultError::NotFound,
            ),
            has_account(old(self).accounts(), actor) && !has_org(old(self).orgs(), org_id) ==> r
                == Err::<Applied, VaultError>(VaultError::NotFound),
            has_account(old(self).accounts(), actor) && has_org(old(self).orgs(), org_id) ==> ({
                match org_access(old(self).memberships(), actor, org_id, Capability::ManageOrg) {
                    Some(e) => r == Err::<Applied, VaultError>(e),
                    None => {
                        if !has_account(old(self).accounts(), member) {
                            r == Err::<Applied, VaultError>(VaultError::NotFound)
                        } else if has_membership(old(self).memberships(), member, org_id) {
                            r == Err::<Applied, VaultError>(VaultError::Forbidden)
                        } else {
                            r is Ok && ({
                                let a = r->Ok_0;
                                &&& a.entity_id == member
                                &&& final(self).memberships() == old(self).memberships().push(
                                    Membership {
                                        account_id: member,
                                        org_id,
                                        role,
                                        grants,
                                        suspended: false,
                                    },
                                )
                                &&& final(self).accounts() == accounts_bumped(
                                    old(self).accounts(),
                                    actor,
                                )
                                &&& final(self).orgs() == orgs_bumped(old(self).orgs(), org_id)
                                &&& a.revision == bump(old(self).account_revision(actor))
                                &&& a.event == (Event {
                                    subject: Subject::Org { org_id },
                                    change: ChangeKind::Created,
                                    entity: EntityKind::Membership,
                                    entity_id: member,
                                })
                                &&& a.deliveries@ == fanout(old(self).channels(), a.event, origin)
                            })
                        }
                    },
                }
            }),
    {
        if self.accounts.index_of(actor).is_none() {
            return Err(VaultError::NotFound);
        }
        if self.find_org(org_id).is_none() {
            return Err(VaultError::NotFound);
        }
        match self.check_org_access(actor, org_id, Capability::ManageOrg) {
            Some(e) => Err(e),
            None => {
                if self.accounts.index_of(member).is_none() {
                    return Err(VaultError::NotFound);
                }
                if self.find_membership(member, org_id).is_some() {
                    return Err(VaultError::Forbidden);
                }
                let m = Membership { account_id: member, org_id, role, grants, suspended: false };
                self.memberships.push(m);
                proof {
                    assert forall|i: int| 0 <= i < self.orgs().len() implies owner_count(
                        self.memberships(),
                        (#[trigger] self.orgs()[i]).id,
                    ) >= 1 by {
                        assert(self.memberships() =~= old(self).memberships().push(
                            self.memberships().last(),
                        ));
                        lemma_owner_count_push(
                            old(self).memberships(),
                            self.memberships().last(),
                            self.orgs()[i].id,
                        );
                    }
                }
                let applied = self.finish_mutation(
                    actor,
                    Some(org_id),
                    Subject::Org { org_id },
                    ChangeKind::Created,
                    EntityKind::Membership,
                    member,
                    origin,
                );
                Ok(applied)
            },
        }
    }

    /// Changes a membership's role: organization management. Demoting the
    /// sole Owner of an organization is rejected as
    /// `OwnerInvariantViolation`; with two or more Owners it succeeds.
    pub fn set_membership_role(
        &mut self,
        actor: u64,
        origin: Option<u64>,
        org_id: u64,
        member: u64,
        role: Role,
    ) -> (r: Result<Applied, VaultError>)
        requires
            old(self).wf(),
        ensures
            final(self).wf(),
            final(self).sessions() == old(self).sessions(),
            final(self).attempts() == old(self).attempts(),
            final(self).channels() == old(self).channels(),
            final(self).collections() == old(self).collections(),
            final(self).ciphers() == old(self).ciphers(),
            final(self).next() == old(self).next(),
            final(self).cfg() == old(self).cfg(),
            final(self).key() == old(self).key(),
            r is Err ==> final(self).accounts() == old(self).accounts() && final(self).orgs()
                == old(self).orgs() && final(self).memberships() == old(self).memberships(),
            !has_account(old(self).accounts(), actor) ==> r == Err::<Applied, VaultError>(
                VaultError::NotFound,
            ),
            has_account(old(self).accounts(), actor) && !has_org(old(self).orgs(), org_id) ==> r
                == Err::<Applied, VaultError>(VaultError::NotFound),
            has_account(old(self).accounts(), actor) && has_org(old(self).orgs(), org_id) ==> ({
                match org_access(old(self).memberships(), actor, org_id, Capability::ManageOrg) {
                    Some(e) => r == Err::<Applied, VaultError>(e),
                    None => {
                        if !has_membership(old(self).memberships(), member, org_id) {
                            r == Err::<Applied, VaultError>(VaultError::NotFound)
                        } else {
                            let mi = membership_index(old(self).memberships(), member, org_id);
                            let m = old(self).memberships()[mi];
                            if m.role == Role::Owner && !(role == Role::Owner) && owner_count(
                                old(self).memberships(),
                                org_id,
                            ) <= 1 {
                                r == Err::<Applied, VaultError>(
                                    VaultError::OwnerInvariantViolation,
                                )
                            } else {
                                r is Ok && ({
                                    let a = r->Ok_0;
                                    &&& a.entity_id == member
                                    &&& final(self).memberships() == old(
                                        self).memberships().update(
                                        mi,
                                        Membership { role, ..m },
                                    )
                                    &&& final(self).accounts() == accounts_bumped(
                                        old(self).accounts(),
                                        actor,
                                    )
                                    &&& final(self).orgs() == orgs_bumped(old(self).orgs(), org_id)
                                    &&& a.revision == bump(old(self).account_revision(actor))
                                    &&& a.event == (Event {
                                        subject: Subject::Org { org_id },
                                        change: ChangeKind::Updated,
                                        entity: EntityKind::Membership,
                                        entity_id: member,
                                    })
                                    &&& a.deliveries@ == fanout(
                                        old(self).channels(),
                                        a.event,
                                        origin,
                                    )
                                })
                            }
                        }
                    },
                }
            }),
    {
        if self.accounts.index_of(actor).is_none() {
            return Err(VaultError::NotFound);
        }
        if self.find_org(org_id).is_none() {
            return Err(VaultError::NotFound);
        }
        match self.check_org_access(actor, org_id, Capability::ManageOrg) {
            Some(e) => Err(e),
            None => {
                let mi = match self.find_membership(member, org_id) {
                    Some(mi) => mi,
                    None => {
                        return Err(VaultError::NotFound);
                    },
                };
                proof {
                    assert(self.memberships()[membership_index(
                        self.memberships(),
                        member,
                        org_id,
                    )].account_id == member);
                    assert(membership_index(self.memberships(), member, org_id) == mi);
                }
                let was_owner = match self.memberships[mi].role {
                    Role::Owner => true,
                    _ => false,
                };
                let stays_owner = match role {
                    Role::Owner => true,
                    _ => false,
                };
                if was_owner && !stays_owner && self.count_owners(org_id) <= 1 {
                    return Err(VaultError::OwnerInvariantViolation);
                }
                let slot = &mut self.memberships[mi];
                slot.role = role;
                proof {
                    assert forall|i: int| 0 <= i < self.orgs().len() implies owner_count(
                        self.memberships(),
                        (#[trigger] self.orgs()[i]).id,
                    ) >= 1 by {
                        lemma_owner_count_update(
                            old(self).memberships(),
                            mi as int,
                            self.memberships()[mi as int],
                            self.orgs()[i].id,
                        );
                    }
                }
                let applied = self.finish_mutation(
                    actor,
                    Some(org_id),
                    Subject::Org { org_id },
                    ChangeKind::Updated,
                    EntityKind::Membership,
                    member,
                    origin,
                );
                Ok(applied)
            },
        }
    }

    /// Removes a membership: organization management. Removing the sole
    /// Owner of an organization is rejected as `OwnerInvariantViolation`;
    /// removing one of two or more Owners succeeds.
    pub fn remove_membership(
        &mut self,
        actor: u64,
        origin: Option<u64>,
        org_id: u64,
        member: u64,
    ) -> (r: Result<Applied, VaultError>)
        requires
            old(self).wf(),
        ensures
            final(self).wf(),
            final(self).sessions() == old(self).sessions(),
            final(self).attempts() == old(self).attempts(),
            final(self).channels() == old(self).channels(),
            final(self).collections() == old(self).collections(),
            final(self).ciphers() == old(self).ciphers(),
            final(self).next() == old(self).next(),
            final(self).cfg() == old(self).cfg(),
            final(self).key() == old(self).key(),
            r is Err ==> final(self).accounts() == old(self).accounts() && final(self).orgs()
                == old(self).orgs() && final(self).memberships() == old(self).memberships(),
            !has_account(old(self).accounts(), actor) ==> r == Err::<Applied, VaultError>(
                VaultError::NotFound,
            ),
            has_account(old(self).accounts(), actor) && !has_org(old(self).orgs(), org_id) ==> r
                == Err::<Applied, VaultError>(VaultError::NotFound),
            has_account(old(self).accounts(), actor) && has_org(old(self).orgs(), org_id) ==> ({
                match org_access(old(self).memberships(), actor, org_id, Capability::ManageOrg) {
                    Some(e) => r == Err::<Applied, VaultError>(e),
                    None => {
                        if !has_membership(old(self).memberships(), member, org_id) {
                            r == Err::<Applied, VaultError>(VaultError::NotFound)
                        } else {
                            let mi = membership_index(old(self).memberships(), member, org_id);
                            let m = old(self).memberships()[mi];
                            if m.role == Role::Owner && owner_count(
                                old(self).memberships(),
                                org_id,
                            ) <= 1 {
                                r == Err::<Applied, VaultError>(
                                    VaultError::OwnerInvariantViolation,
                                )
                            } else {
                                r is Ok && ({
                                    let a = r->Ok_0;
                                    &&& a.entity_id == member
                                    &&& final(self).memberships() == old(
                                        self).memberships().remove(mi)
                                    &&& final(self).accounts() == accounts_bumped(
                                        old(self).accounts(),
                                        actor,
                                    )
                                    &&& final(self).orgs() == orgs_bumped(old(self).orgs(), org_id)
                                    &&& a.revision == bump(old(self).account_revision(actor))
                                    &&& a.event == (Event {
                                        subject: Subject::Org { org_id },
                                        change: ChangeKind::Deleted,
                                        entity: EntityKind::Membership,
                                        entity_id: member,
                                    })
                                    &&& a.deliveries@ == fanout(
                                        old(self).channels(),
                                        a.event,
                                        origin,
                                    )
                                })
                            }
                        }
                    },
                }
            }),
    {
        if self.accounts.index_of(actor).is_none() {
            return Err(VaultError::NotFound);
        }
        if self.find_org(org_id).is_none() {
            return Err(VaultError::NotFound);
        }
        match self.check_org_access(actor, org_id, Capability::ManageOrg) {
            Some(e) => Err(e),
            None => {
                let mi = match self.find_membership(member, org_id) {
                    Some(mi) => mi,
                    None => {
                        return Err(VaultError::NotFound);
                    },
                };
                proof {
                    assert(self.memberships()[membership_index(
                        self.memberships(),
                        member,
                        org_id,
                    )].account_id == member);
                    assert(membership_index(self.memberships(), member, org_id) == mi);
                }
                let was_owner = match self.memberships[mi].role {
                    Role::Owner => true,
                    _ => false,
                };
                if was_owner && self.count_owners(org_id) <= 1 {
                    return Err(VaultError::OwnerInvariantViolation);
                }
                let ghost old_m = self.memberships()[mi as int];
                self.memberships.remove(mi);
                proof {
                    old(self).memberships().remove_ensures(mi as int);
                    assert forall|x: int, y: int|
                        0 <= x < self.memberships().len() && 0 <= y < self.memberships().len()
                            && x != y implies !(self.memberships()[x].account_id
                            == self.memberships()[y].account_id && self.memberships()[x].org_id
                            == self.memberships()[y].org_id) by {
                        let ox: int = if x < mi { x } else { x + 1 };
                        let oy: int = if y < mi { y } else { y + 1 };
                        assert(self.memberships()[x] == old(self).memberships()[ox]);
                        assert(self.memberships()[y] == old(self).memberships()[oy]);
                    }
                    assert forall|x: int| 0 <= x < self.memberships().len() implies (
                    #[trigger] self.memberships()[x]).org_id < self.next() by {
                        let ox: int = if x < mi { x } else { x + 1 };
                        assert(self.memberships()[x] == old(self).memberships()[ox]);
                    }
                    assert forall|i: int| 0 <= i < self.orgs().len() implies owner_count(
                        self.memberships(),
                        (#[trigger] self.orgs()[i]).id,
                    ) >= 1 by {
                        lemma_owner_count_remove(
                            old(self).memberships(),
                            mi as int,
                            self.orgs()[i].id,
                        );
                        if old_m.org_id == self.orgs()[i].id && old_m.role == Role::Owner {
                            assert(self.orgs()[i].id == org_id);
                            assert(owner_count(old(self).memberships(), org_id) >= 2);
                        }
                    }
                }
                let applied = self.finish_mutation(
                    actor,
                    Some(org_id),
                    Subject::Org { org_id },
                    ChangeKind::Deleted,
                    EntityKind::Membership,
                    member,
                    origin,
                );
                Ok(applied)
            },
        }
    }
}


/// Whether a vault item is visible to an identity: its own items, and
/// organization items where a non-suspended membership grants at least
/// read access to one of the item's collections (Owners and Admins see
/// everything in the organization).
pub open spec fn cipher_visible(mems: Seq<Membership>, actor: u64, c: Cipher) -> bool {
    match c.owner {
        CipherOwner::Account { account_id } => account_id == actor,
        CipherOwner::Org { org_id } => {
            &&& has_membership(mems, actor, org_id)
            &&& ({
                let m = mems[membership_index(mems, actor, org_id)];
                &&& !m.suspended
                &&& (m.role == Role::Owner || m.role == Role::Admin || exists|i: int|
                    0 <= i < c.collection_ids@.len() && crate::authz::grants_include(
                        m.grants@,
                        #[trigger] c.collection_ids@[i],
                    ))
            })
        },
    }
}

/// The ids of the vault items visible to an identity, in store order.
pub open spec fn visible_cipher_ids(ciphers: Seq<Cipher>, mems: Seq<Membership>, actor: u64)
    -> Seq<u64>
    decreases ciphers.len(),
{
    if ciphers.len() == 0 {
        Seq::empty()
    } else {
        visible_cipher_ids(ciphers.drop_last(), mems, actor) + (if cipher_visible(
            mems,
            actor,
            ciphers.last(),
        ) {
            seq![ciphers.last().id]
        } else {
            Seq::empty()
        })
    }
}

/// Whether a collection is visible to an identity: a non-suspended
/// membership in its organization whose role sees every collection
/// (Owner, Admin) or holds a grant for this one.
pub open spec fn collection_visible(mems: Seq<Membership>, actor: u64, c: Collection) -> bool {
    &&& has_membership(mems, actor, c.org_id)
    &&& ({
        let m = mems[membership_index(mems, actor, c.org_id)];
        &&& !m.suspended
        &&& (m.role == Role::Owner || m.role == Role::Admin || crate::authz::grants_include(
            m.grants@,
            c.id,
        ))
    })
}

/// The ids of the collections visible to an identity, in store order.
pub open spec fn visible_collection_ids(cols: Seq<Collection>, mems: Seq<Membership>, actor: u64)
    -> Seq<u64>
    decreases cols.len(),
{
    if cols.len() == 0 {
        Seq::empty()
    } else {
        visible_collection_ids(cols.drop_last(), mems, actor) + (if collection_visible(
            mems,
            actor,
            cols.last(),
        ) {
            seq![cols.last().id]
        } else {
            Seq::empty()
        })
    }
}

/// The organization revision stamps an identity syncs: one entry per
/// organization in which it holds a non-suspended membership, in store
/// order.
pub open spec fn member_org_revisions(orgs: Seq<Organization>, mems: Seq<Membership>, actor: u64)
    -> Seq<(u64, u64)>
    decreases orgs.len(),
{
    if orgs.len() == 0 {
        Seq::empty()
    } else {
        member_org_revisions(orgs.drop_last(), mems, actor) + (if has_membership(
            mems,
            actor,
            orgs.last().id,
        ) && !mems[membership_index(mems, actor, orgs.last().id)].suspended {
            seq![(orgs.last().id, orgs.last().revision)]
        } else {
            Seq::empty()
        })
    }
}

/// Everything a full sync returns: the account's revision stamp, each
/// visible organization's stamp, and the ids of every visible vault item.
pub struct FullState {
    pub revision: u64,
    pub org_revisions: Vec<(u64, u64)>,
    pub collection_ids: Vec<u64>,
    pub cipher_ids: Vec<u64>,
}

impl Vault {
    /// Whether the membership of `actor` in `org_id` is live (present and
    /// not suspended); decides it together with the membership row index.
    fn live_membership(&self, actor: u64, org_id: u64) -> (r: Option<usize>)
        requires
            self.wf(),
        ensures
            match r {
                Some(i) => has_membership(self.memberships(), actor, org_id) && i
                    == membership_index(self.memberships(), actor, org_id)
                    && !self.memberships()[i as int].suspended,
                None => !has_membership(self.memberships(), actor, org_id) || self.memberships()[
                    membership_index(self.memberships(), actor, org_id)].suspended,
            },
    {
        match self.find_membership(actor, org_id) {
            None => None,
            Some(mi) => {
                proof {
                    assert(self.memberships()[membership_index(
                        self.memberships(),
                        actor,
                        org_id,
                    )].account_id == actor);
                    assert(membership_index(self.memberships(), actor, org_id) == mi);
                }
                if self.memberships[mi].suspended {
                    None
                } else {
                    Some(mi)
                }
            },
        }
    }

    /// Decides whether one vault item is visible to the identity.
    fn cipher_visible_exec(&self, actor: u64, ci: usize) -> (r: bool)
        requires
            self.wf(),
            ci < self.ciphers().len(),
        ensures
            r == cipher_visible(self.memberships(), actor, self.ciphers()[ci as int]),
    {
        let owner = self.ciphers[ci].owner;
        match owner {
            CipherOwner::Account { account_id } => account_id == actor,
            CipherOwner::Org { org_id } => {
                match self.live_membership(actor, org_id) {
                    None => false,
                    Some(mi) => {
                        let role = self.memberships[mi].role;
                        let admin = match role {
                            Role::Owner => true,
                            Role::Admin => true,
                            _ => false,
                        };
                        if admin {
                            true
                        } else {
                            let cids = &self.ciphers[ci].collection_ids;
                            let grants = &self.memberships[mi].grants;
                            let mut k: usize = 0;
                            let mut found = false;
                            while k < cids.len()
                                invariant
                                    k <= cids@.len(),
                                    found == exists|x: int|
                                        0 <= x < k && crate::authz::grants_include(
                                            grants@,
                                            #[trigger] cids@[x],
                                        ),
                                decreases cids@.len() - k,
                            {
                                if crate::authz::allows(
                                    Role::User,
                                    grants,
                                    Capability::ReadCollection { collection_id: cids[k] },
                                ) {
                                    found = true;
                                }
                                k = k + 1;
                            }
                            found
                        }
                    },
                }
            },
        }
    }

    /// A full sync: the account's revision stamp, the stamp of every
    /// organization the identity belongs to, and the ids of every vault
    /// item visible to it. What this returns is exactly the engine's
    /// current state for that identity, so a client whose stamps match
    /// needs nothing else.
    pub fn get_full_state(&self, actor: u64) -> (r: Result<FullState, VaultError>)
        requires
            self.wf(),
        ensures
            r is Ok <==> has_account(self.accounts(), actor),
            !has_account(self.accounts(), actor) ==> r == Err::<FullState, VaultError>(
                VaultError::NotFound,
            ),
            r is Ok ==> ({
                let f = r->Ok_0;
                &&& f.revision == self.account_revision(actor)
                &&& f.org_revisions@ == member_org_revisions(
                    self.orgs(),
                    self.memberships(),
                    actor,
                )
                &&& f.collection_ids@ == visible_collection_ids(
                    self.collections(),
                    self.memberships(),
                    actor,
                )
                &&& f.cipher_ids@ == visible_cipher_ids(self.ciphers(), self.memberships(), actor)
            }),
    {
        let revision = match self.accounts.get(actor) {
            None => {
                return Err(VaultError::NotFound);
            },
            Some(a) => a.revision,
        };
        let mut org_revisions: Vec<(u64, u64)> = Vec::new();
        let mut i: usize = 0;
        while i < self.orgs.len()
            invariant
                self.wf(),
                i <= self.orgs().len(),
                org_revisions@ == member_org_revisions(
                    self.orgs().take(i as int),
                    self.memberships(),
                    actor,
                ),
            decreases self.orgs().len() - i,
        {
            proof {
                assert(self.orgs().take(i + 1).drop_last() =~= self.orgs().take(i as int));
                assert(self.orgs().take(i + 1).last() == self.orgs()[i as int]);
            }
            if self.live_membership(actor, self.orgs[i].id).is_some() {
                org_revisions.push((self.orgs[i].id, self.orgs[i].revision));
            }
            i = i + 1;
        }
        proof {
            assert(self.orgs().take(self.orgs().len() as int) =~= self.orgs());
        }
        let mut collection_ids: Vec<u64> = Vec::new();
        let mut k: usize = 0;
        while k < self.collections.len()
            invariant
                self.wf(),
                k <= self.collections().len(),
                collection_ids@ == visible_collection_ids(
                    self.collections().take(k as int),
                    self.memberships(),
                    actor,
                ),
            decreases self.collections().len() - k,
        {
            proof {
                assert(self.collections().take(k + 1).drop_last() =~= self.collections().take(
                    k as int,
                ));
                assert(self.collections().take(k + 1).last() == self.collections()[k as int]);
            }
            let visible = match self.live_membership(actor, self.collections[k].org_id) {
                None => false,
                Some(mi) => {
                    let role = self.memberships[mi].role;
                    let admin = match role {
                        Role::Owner => true,
                        Role::Admin => true,
                        _ => false,
                    };
                    admin || crate::authz::find_grant(
                        &self.memberships[mi].grants,
                        self.collections[k].id,
                        false,
                    )
                },
            };
            if visible {
                collection_ids.push(self.collections[k].id);
            }
            k = k + 1;
        }
        proof {
            assert(self.collections().take(self.collections().len() as int)
                =~= self.collections());
        }
        let mut cipher_ids: Vec<u64> = Vec::new();
        let mut j: usize = 0;
        while j < self.ciphers.len()
            invariant
                self.wf(),
                j <= self.ciphers().len(),
                cipher_ids@ == visible_cipher_ids(
                    self.ciphers().take(j as int),
                    self.memberships(),
                    actor,
                ),
            decreases self.ciphers().len() - j,
        {
            proof {
                assert(self.ciphers().take(j + 1).drop_last() =~= self.ciphers().take(j as int));
                assert(self.ciphers().take(j + 1).last() == self.ciphers()[j as int]);
            }
            if self.cipher_visible_exec(actor, j) {
                cipher_ids.push(self.ciphers[j].id);
            }
            j = j + 1;
        }
        proof {
            assert(self.ciphers().take(self.ciphers().len() as int) =~= self.ciphers());
        }
        Ok(FullState { revision, org_revisions, collection_ids, cipher_ids })
    }

    /// Reads one vault item, under the read side of the capability table;
    /// an invisible item is `NotFound`, never confirmed to exist.
    pub fn get_cipher(&self, actor: u64, cipher_id: u64) -> (r: Result<&Cipher, VaultError>)
        requires
            self.wf(),
        ensures
            ({
                let cs = self.ciphers();
                if has_cipher(cs, cipher_id) && cipher_visible(
                    self.memberships(),
                    actor,
                    cs[cipher_index(cs, cipher_id)],
                ) {
                    r is Ok && *r->Ok_0 == cs[cipher_index(cs, cipher_id)]
                } else {
                    r == Err::<&Cipher, VaultError>(VaultError::NotFound)
                }
            }),
    {
        match self.find_cipher(cipher_id) {
            None => Err(VaultError::NotFound),
            Some(ci) => {
                proof {
                    assert(self.ciphers()[cipher_index(self.ciphers(), cipher_id)].id
                        == cipher_id);
                    assert(cipher_index(self.ciphers(), cipher_id) == ci);
                }
                if self.cipher_visible_exec(actor, ci) {
                    Ok(&self.ciphers[ci])
                } else {
                    Err(VaultError::NotFound)
                }
            },
        }
    }
}

/// Over any run in which every accepted mutation advances a revision stamp
/// through `bump`, the stamp is strictly increasing as long as it stays
/// below the counter's top; a client comparing stamps therefore never
/// misses an accepted mutation.
pub proof fn lemma_revision_trace_strictly_increasing(trace: Seq<u64>)
    requires
        forall|i: int| 0 <= i < trace.len() - 1 ==> trace[i + 1] == bump(#[trigger] trace[i]),
        forall|i: int| 0 <= i < trace.len() ==> #[trigger] trace[i] < u64::MAX,
    ensures
        forall|i: int, j: int| 0 <= i < j < trace.len() ==> trace[i] < trace[j],
{
    assert forall|i: int, j: int| 0 <= i < j < trace.len() implies trace[i] < trace[j] by {
        lemma_trace_mono(trace, i, j);
    }
}

proof fn lemma_trace_mono(trace: Seq<u64>, i: int, j: int)
    requires
        forall|k: int| 0 <= k < trace.len() - 1 ==> trace[k + 1] == bump(#[trigger] trace[k]),
        forall|k: int| 0 <= k < trace.len() ==> #[trigger] trace[k] < u64::MAX,
        0 <= i < j < trace.len(),
    ensures
        trace[i] < trace[j],
    decreases j - i,
{
    if j == i + 1 {
        assert(trace[j] == bump(trace[i]));
    } else {
        lemma_trace_mono(trace, i, j - 1);
        assert(trace[j] == bump(trace[j - 1]));
    }
}

/// Changing the password bumps the security stamp, so every access token
/// minted under the old stamp fails validation at once with a stamp
/// mismatch even before its expiry, while a token minted under the new
/// stamp — as a still-valid session obtains through refresh — validates.
pub proof fn lemma_password_change_invalidates_tokens(
    key: Seq<u8>,
    t: AccessToken,
    old_stamp: u64,
    now: u64,
    t2: AccessToken,
)
    requires
        spec_validate_token(key, t, old_stamp, now) is Ok,
        token_signed(t2, key),
        t2.security_stamp == bumped_stamp(old_stamp),
        t2.expires_at >= now,
    ensures
        spec_validate_token(key, t, bumped_stamp(old_stamp), now) == Err::<u64, VaultError>(
            VaultError::TokenSecurityStampMismatch,
        ),
        spec_validate_token(key, t2, bumped_stamp(old_stamp), now) == Ok::<u64, VaultError>(
            t2.account_id,
        ),
{
    crate::accounts::lemma_bumped_stamp_differs(old_stamp);
}


/// One requested change to the vault, as the mutation endpoints submit it.
pub enum Mutation {
    CipherCreate { owner: CipherOwner, data: Vec<u8>, collection_ids: Vec<u64> },
    CipherUpdate { cipher_id: u64, data: Vec<u8> },
    CipherDelete { cipher_id: u64 },
    CollectionCreate { org_id: u64, name: String },
    MembershipAdd { org_id: u64, account_id: u64, role: Role, grants: Vec<CollectionGrant> },
    MembershipSetRole { org_id: u64, account_id: u64, role: Role },
    MembershipRemove { org_id: u64, account_id: u64 },
    OrgDelete { org_id: u64 },
}

impl Vault {
    /// Applies one mutation for `actor` in a single atomic step: the data
    /// change, the advance of the acting account's revision stamp — and of
    /// the organization's where the object is organization-owned — and the
    /// fan-out of one typed event happen together, or, on any refusal,
    /// nothing changes at all. Each mutation kind's own operation states
    /// the exact outcome; this entry point guarantees the atomicity they
    /// share.
    pub fn apply_mutation(&mut self, actor: u64, origin: Option<u64>, m: Mutation, now: u64) -> (r:
        Result<Applied, VaultError>)
        requires
            old(self).wf(),
            old(self).next() < u64::MAX,
        ensures
            final(self).wf(),
            final(self).sessions() == old(self).sessions(),
            final(self).attempts() == old(self).attempts(),
            final(self).channels() == old(self).channels(),
            final(self).cfg() == old(self).cfg(),
            final(self).key() == old(self).key(),
            r is Err ==> final(self).accounts() == old(self).accounts() && final(self).orgs()
                == old(self).orgs() && final(self).memberships() == old(self).memberships()
                && final(self).collections() == old(self).collections() && final(self).ciphers()
                == old(self).ciphers() && final(self).next() == old(self).next(),
            !has_account(old(self).accounts(), actor) ==> r == Err::<Applied, VaultError>(
                VaultError::NotFound,
            ),
            r is Ok ==> final(self).accounts() == accounts_bumped(old(self).accounts(), actor)
                && r->Ok_0.revision == bump(old(self).account_revision(actor))
                && r->Ok_0.deliveries@ == fanout(old(self).channels(), r->Ok_0.event, origin),
    {
        match m {
            Mutation::CipherCreate { owner, data, collection_ids } => {
                self.create_cipher(actor, origin, owner, data, collection_ids, now)
            },
            Mutation::CipherUpdate { cipher_id, data } => {
                self.update_cipher(actor, origin, cipher_id, data, now)
            },
            Mutation::CipherDelete { cipher_id } => self.delete_cipher(actor, origin, cipher_id),
            Mutation::CollectionCreate { org_id, name } => {
                self.create_collection(actor, origin, org_id, name)
            },
            Mutation::MembershipAdd { org_id, account_id, role, grants } => {
                self.add_membership(actor, origin, org_id, account_id, role, grants)
            },
            Mutation::MembershipSetRole { org_id, account_id, role } => {
                self.set_membership_role(actor, origin, org_id, account_id, role)
            },
            Mutation::MembershipRemove { org_id, account_id } => {
                self.remove_membership(actor, origin, org_id, account_id)
            },
            Mutation::OrgDelete { org_id } => self.delete_org(actor, origin, org_id),
        }
    }
}


impl Vault {
    /// Suspends or reinstates a membership: organization management. A
    /// suspended membership stays on the books — an Owner still counts for
    /// the owner invariant — but every organization-scoped call it would
    /// authorize is refused until reinstated.
    pub fn set_membership_suspended(
        &mut self,
        actor: u64,
        origin: Option<u64>,
        org_id: u64,
        member: u64,
        suspended: bool,
    ) -> (r: Result<Applied, VaultError>)
        requires
            old(self).wf(),
        ensures
            final(self).wf(),
            final(self).sessions() == old(self).sessions(),
            final(self).attempts() == old(self).attempts(),
            final(self).channels() == old(self).channels(),
            final(self).collections() == old(self).collections(),
            final(self).ciphers() == old(self).ciphers(),
            final(self).next() == old(self).next(),
            final(self).cfg() == old(self).cfg(),
            final(self).key() == old(self).key(),
            r is Err ==> final(self).accounts() == old(self).accounts() && final(self).orgs()
                == old(self).orgs() && final(self).memberships() == old(self).memberships(),
            !has_account(old(self).accounts(), actor) ==> r == Err::<Applied, VaultError>(
                VaultError::NotFound,
            ),
            has_account(old(self).accounts(), actor) && !has_org(old(self).orgs(), org_id) ==> r
                == Err::<Applied, VaultError>(VaultError::NotFound),
            has_account(old(self).accounts(), actor) && has_org(old(self).orgs(), org_id) ==> ({
                match org_access(old(self).memberships(), actor, org_id, Capability::ManageOrg) {
                    Some(e) => r == Err::<Applied, VaultError>(e),
                    None => {
                        if !has_membership(old(self).memberships(), member, org_id) {
                            r == Err::<Applied, VaultError>(VaultError::NotFound)
                        } else {
                            let mi = membership_index(old(self).memberships(), member, org_id);
                            let m = old(self).memberships()[mi];
                            r is Ok && ({
                                let a = r->Ok_0;
                                &&& a.entity_id == member
                                &&& final(self).memberships() == old(self).memberships().update(
                                    mi,
                                    Membership { suspended, ..m },
                                )
                                &&& final(self).accounts() == accounts_bumped(
                                    old(self).accounts(),
                                    actor,
                                )
                                &&& final(self).orgs() == orgs_bumped(old(self).orgs(), org_id)
                                &&& a.revision == bump(old(self).account_revision(actor))
                                &&& a.event == (Event {
                                    subject: Subject::Org { org_id },
                                    change: ChangeKind::Updated,
                                    entity: EntityKind::Membership,
                                    entity_id: member,
                                })
                                &&& a.deliveries@ == fanout(old(self).channels(), a.event, origin)
                            })
                        }
                    },
                }
            }),
    {
        if self.accounts.index_of(actor).is_none() {
            return Err(VaultError::NotFound);
        }
        if self.find_org(org_id).is_none() {
            return Err(VaultError::NotFound);
        }
        match self.check_org_access(actor, org_id, Capability::ManageOrg) {
            Some(e) => Err(e),
            None => {
                let mi = match self.find_membership(member, org_id) {
                    Some(mi) => mi,
                    None => {
                        return Err(VaultError::NotFound);
                    },
                };
                proof {
                    assert(self.memberships()[membership_index(
                        self.memberships(),
                        member,
                        org_id,
                    )].account_id == member);
                    assert(membership_index(self.memberships(), member, org_id) == mi);
                }
                let slot = &mut self.memberships[mi];
                slot.suspended = suspended;
                proof {
                    assert forall|i: int| 0 <= i < self.orgs().len() implies owner_count(
                        self.memberships(),
                        (#[trigger] self.orgs()[i]).id,
                    ) >= 1 by {
                        lemma_owner_count_update(
                            old(self).memberships(),
                            mi as int,
                            self.memberships()[mi as int],
                            self.orgs()[i].id,
                        );
                    }
                }
                let applied = self.finish_mutation(
                    actor,
                    Some(org_id),
                    Subject::Org { org_id },
                    ChangeKind::Updated,
                    EntityKind::Membership,
                    member,
                    origin,
                );
                Ok(applied)
            },
        }
    }
}


/// The membership rows without those of one organization, in order.
pub open spec fn mems_without_org(s: Seq<Membership>, org_id: u64) -> Seq<Membership>
    decreases s.len(),
{
    if s.len() == 0 {
        Seq::empty()
    } else {
        mems_without_org(s.drop_last(), org_id) + (if s.last().org_id == org_id {
            Seq::empty()
        } else {
            seq![s.last()]
        })
    }
}

/// The collection rows without those of one organization, in order.
pub open spec fn cols_without_org(s: Seq<Collection>, org_id: u64) -> Seq<Collection>
    decreases s.len(),
{
    if s.len() == 0 {
        Seq::empty()
    } else {
        cols_without_org(s.drop_last(), org_id) + (if s.last().org_id == org_id {
            Seq::empty()
        } else {
            seq![s.last()]
        })
    }
}

/// The cipher rows without those owned by one organization, in order.
pub open spec fn ciphers_without_org(s: Seq<Cipher>, org_id: u64) -> Seq<Cipher>
    decreases s.len(),
{
    if s.len() == 0 {
        Seq::empty()
    } else {
        ciphers_without_org(s.drop_last(), org_id) + (if s.last().owner == (CipherOwner::Org {
            org_id,
        }) {
            Seq::empty()
        } else {
            seq![s.last()]
        })
    }
}

/// Dropping one organization's memberships leaves every other
/// organization's Owner count unchanged.
pub proof fn lemma_owner_count_without(s: Seq<Membership>, org_id: u64, other: u64)
    requires
        other != org_id,
    ensures
        owner_count(mems_without_org(s, org_id), other) == owner_count(s, other),
    decreases s.len(),
{
    if s.len() > 0 {
        lemma_owner_count_without(s.drop_last(), org_id, other);
        if s.last().org_id == org_id {
            assert(mems_without_org(s, org_id) =~= mems_without_org(s.drop_last(), org_id));
        } else {
            assert(mems_without_org(s, org_id) =~= mems_without_org(
                s.drop_last(),
                org_id,
            ).push(s.last()));
            lemma_owner_count_push(mems_without_org(s.drop_last(), org_id), s.last(), other);
        }
    }
}

impl Vault {
    /// Deletes an organization: organization management, so Owners and
    /// Admins only. Its memberships, collections and vault items are
    /// dropped in the same step, the actor's revision stamp advances, and
    /// one `Deleted` event fans out to the organization's channels.
    pub fn delete_org(&mut self, actor: u64, origin: Option<u64>, org_id: u64) -> (r: Result<
        Applied,
        VaultError,
    >)
        requires
            old(self).wf(),
        ensures
            final(self).wf(),
            final(self).sessions() == old(self).sessions(),
            final(self).attempts() == old(self).attempts(),
            final(self).channels() == old(self).channels(),
            final(self).next() == old(self).next(),
            final(self).cfg() == old(self).cfg(),
            final(self).key() == old(self).key(),
            r is Err ==> final(self).accounts() == old(self).accounts() && final(self).orgs()
                == old(self).orgs() && final(self).memberships() == old(self).memberships()
                && final(self).collections() == old(self).collections() && final(self).ciphers()
                == old(self).ciphers(),
            !has_account(old(self).accounts(), actor) ==> r == Err::<Applied, VaultError>(
                VaultError::NotFound,
            ),
            has_account(old(self).accounts(), actor) && !has_org(old(self).orgs(), org_id) ==> r
                == Err::<Applied, VaultError>(VaultError::NotFound),
            has_account(old(self).accounts(), actor) && has_org(old(self).orgs(), org_id) ==> ({
                match org_access(old(self).memberships(), actor, org_id, Capability::ManageOrg) {
                    Some(e) => r == Err::<Applied, VaultError>(e),
                    None => r is Ok && ({
                        let a = r->Ok_0;
                        &&& a.entity_id == org_id
                        &&& final(self).orgs() == old(self).orgs().remove(
                            org_index(old(self).orgs(), org_id),
                        )
                        &&& final(self).memberships() == mems_without_org(
                            old(self).memberships(),
                            org_id,
                        )
                        &&& final(self).collections() == cols_without_org(
                            old(self).collections(),
                            org_id,
                        )
                        &&& final(self).ciphers() == ciphers_without_org(
                            old(self).ciphers(),
                            org_id,
                        )
                        &&& final(self).accounts() == accounts_bumped(old(self).accounts(), actor)
                        &&& a.revision == bump(old(self).account_revision(actor))
                        &&& a.event == (Event {
                            subject: Subject::Org { org_id },
                            change: ChangeKind::Deleted,
                            entity: EntityKind::Organization,
                            entity_id: org_id,
                        })
                        &&& a.deliveries@ == fanout(old(self).channels(), a.event, origin)
                    }),
                }
            }),
    {
        if self.accounts.index_of(actor).is_none() {
            return Err(VaultError::NotFound);
        }
        let oi = match self.find_org(org_id) {
            Some(oi) => oi,
            None => {
                return Err(VaultError::NotFound);
            },
        };
        proof {
            assert(self.orgs()[org_index(self.orgs(), org_id)].id == org_id);
            assert(org_index(self.orgs(), org_id) == oi);
        }
        match self.check_org_access(actor, org_id, Capability::ManageOrg) {
            Some(e) => Err(e),
            None => {
                self.orgs.remove(oi);
                proof {
                    old(self).orgs().remove_ensures(oi as int);
                    assert forall|x: int, y: int|
                        0 <= x < self.orgs().len() && 0 <= y < self.orgs().len() && x
                            != y implies self.orgs()[x].id != self.orgs()[y].id by {
                        let ox: int = if x < oi { x } else { x + 1 };
                        let oy: int = if y < oi { y } else { y + 1 };
                        assert(self.orgs()[x] == old(self).orgs()[ox]);
                        assert(self.orgs()[y] == old(self).orgs()[oy]);
                    }
                    assert forall|x: int| 0 <= x < self.orgs().len() implies (
                    #[trigger] self.orgs()[x]).id < self.next() by {
                        let ox: int = if x < oi { x } else { x + 1 };
                        assert(self.orgs()[x] == old(self).orgs()[ox]);
                    }
                    assert forall|x: int| 0 <= x < self.orgs().len() implies (
                    #[trigger] self.orgs()[x]).id != org_id by {
                        let ox: int = if x < oi { x } else { x + 1 };
                        assert(self.orgs()[x] == old(self).orgs()[ox]);
                    }
                    assert(orgs_ok(self.orgs(), self.next()));
                }
                self.drop_org_memberships(org_id);
                self.drop_org_collections(org_id);
                self.drop_org_ciphers(org_id);
                proof {
                    assert forall|i: int| 0 <= i < self.orgs().len() implies owner_count(
                        self.memberships(),
                        (#[trigger] self.orgs()[i]).id,
                    ) >= 1 by {
                        lemma_owner_count_without(
                            old(self).memberships(),
                            org_id,
                            self.orgs()[i].id,
                        );
                    }
                    assert(self.wf());
                }
                let applied = self.finish_mutation(
                    actor,
                    None,
                    Subject::Org { org_id },
                    ChangeKind::Deleted,
                    EntityKind::Organization,
                    org_id,
                    origin,
                );
                Ok(applied)
            },
        }
    }

    /// Drops every membership of the organization, keeping the rest in
    /// order.
    fn drop_org_memberships(&mut self, org_id: u64)
        requires
            memberships_ok(old(self).memberships(), old(self).next()),
        ensures
            final(self).memberships() == mems_without_org(old(self).memberships(), org_id),
            memberships_ok(final(self).memberships(), old(self).next()),
            final(self).accounts() == old(self).accounts(),
            old(self).accounts_wf() ==> final(self).accounts_wf(),
            old(self).sessions_wf() ==> final(self).sessions_wf(),
            final(self).sessions() == old(self).sessions(),
            final(self).attempts() == old(self).attempts(),
            final(self).orgs() == old(self).orgs(),
            final(self).collections() == old(self).collections(),
            final(self).ciphers() == old(self).ciphers(),
            final(self).channels() == old(self).channels(),
            final(self).next() == old(self).next(),
            final(self).cfg() == old(self).cfg(),
            final(self).key() == old(self).key(),
    {
        let mut rest: Vec<Membership> = Vec::new();
        core::mem::swap(&mut rest, &mut self.memberships);
        let ghost orig = rest@;
        let n0 = rest.len();
        let mut kept: Vec<Membership> = Vec::new();
        let mut i: usize = 0;
        while rest.len() > 0
            invariant
                orig == old(self).memberships(),
                memberships_ok(orig, old(self).next()),
                i + rest@.len() == orig.len(),
                orig.len() == n0,
                rest@ == orig.skip(i as int),
                kept@ == mems_without_org(orig.take(i as int), org_id),
            decreases rest@.len(),
        {
            let m = rest.remove(0);
            proof {
                assert(m == orig[i as int]);
                assert(rest@ =~= orig.skip(i as int + 1));
                assert(orig.take(i as int + 1).drop_last() =~= orig.take(i as int));
                assert(orig.take(i as int + 1).last() == orig[i as int]);
            }
            if m.org_id != org_id {
                kept.push(m);
                proof {
                    assert(kept@ =~= mems_without_org(orig.take(i as int + 1), org_id));
                }
            } else {
                proof {
                    assert(kept@ =~= mems_without_org(orig.take(i as int + 1), org_id));
                }
            }
            i = i + 1;
        }
        proof {
            assert(orig.take(orig.len() as int) =~= orig);
            lemma_mems_without_org_ok(orig, org_id, old(self).next());
        }
        self.memberships = kept;
    }

    /// Drops every collection of the organization, keeping the rest in
    /// order.
    fn drop_org_collections(&mut self, org_id: u64)
        requires
            collections_ok(old(self).collections(), old(self).next()),
        ensures
            final(self).collections() == cols_without_org(old(self).collections(), org_id),
            collections_ok(final(self).collections(), old(self).next()),
            final(self).accounts() == old(self).accounts(),
            old(self).accounts_wf() ==> final(self).accounts_wf(),
            old(self).sessions_wf() ==> final(self).sessions_wf(),
            final(self).sessions() == old(self).sessions(),
            final(self).attempts() == old(self).attempts(),
            final(self).orgs() == old(self).orgs(),
            final(self).memberships() == old(self).memberships(),
            final(self).ciphers() == old(self).ciphers(),
            final(self).channels() == old(self).channels(),
            final(self).next() == old(self).next(),
            final(self).cfg() == old(self).cfg(),
            final(self).key() == old(self).key(),
    {
        let mut rest: Vec<Collection> = Vec::new();
        core::mem::swap(&mut rest, &mut self.collections);
        let ghost orig = rest@;
        let n0 = rest.len();
        let mut kept: Vec<Collection> = Vec::new();
        let mut i: usize = 0;
        while rest.len() > 0
            invariant
                orig == old(self).collections(),
                collections_ok(orig, old(self).next()),
                i + rest@.len() == orig.len(),
                orig.len() == n0,
                rest@ == orig.skip(i as int),
                kept@ == cols_without_org(orig.take(i as int), org_id),
            decreases rest@.len(),
        {
            let m = rest.remove(0);
            proof {
                assert(m == orig[i as int]);
                assert(rest@ =~= orig.skip(i as int + 1));
                assert(orig.take(i as int + 1).drop_last() =~= orig.take(i as int));
                assert(orig.take(i as int + 1).last() == orig[i as int]);
            }
            if m.org_id != org_id {
                kept.push(m);
                proof {
                    assert(kept@ =~= cols_without_org(orig.take(i as int + 1), org_id));
                }
            } else {
                proof {
                    assert(kept@ =~= cols_without_org(orig.take(i as int + 1), org_id));
                }
            }
            i = i + 1;
        }
        proof {
            assert(orig.take(orig.len() as int) =~= orig);
            lemma_cols_without_org_ok(orig, org_id, old(self).next());
        }
        self.collections = kept;
    }

    /// Drops every cipher owned by the organization, keeping the rest in
    /// order.
    fn drop_org_ciphers(&mut self, org_id: u64)
        requires
            ciphers_ok(old(self).ciphers(), old(self).next()),
        ensures
            final(self).ciphers() == ciphers_without_org(old(self).ciphers(), org_id),
            ciphers_ok(final(self).ciphers(), old(self).next()),
            final(self).accounts() == old(self).accounts(),
            old(self).accounts_wf() ==> final(self).accounts_wf(),
            old(self).sessions_wf() ==> final(self).sessions_wf(),
            final(self).sessions() == old(self).sessions(),
            final(self).attempts() == old(self).attempts(),
            final(self).orgs() == old(self).orgs(),
            final(self).collections() == old(self).collections(),
            final(self).memberships() == old(self).memberships(),
            final(self).channels() == old(self).channels(),
            final(self).next() == old(self).next(),
            final(self).cfg() == old(self).cfg(),
            final(self).key() == old(self).key(),
    {
        let mut rest: Vec<Cipher> = Vec::new();
        core::mem::swap(&mut rest, &mut self.ciphers);
        let ghost orig = rest@;
        let n0 = rest.len();
        let mut kept: Vec<Cipher> = Vec::new();
        let mut i: usize = 0;
        while rest.len() > 0
            invariant
                orig == old(self).ciphers(),
                ciphers_ok(orig, old(self).next()),
                i + rest@.len() == orig.len(),
                orig.len() == n0,
                rest@ == orig.skip(i as int),
                kept@ == ciphers_without_org(orig.take(i as int), org_id),
            decreases rest@.len(),
        {
            let m = rest.remove(0);
            proof {
                assert(m == orig[i as int]);
                assert(rest@ =~= orig.skip(i as int + 1));
                assert(orig.take(i as int + 1).drop_last() =~= orig.take(i as int));
                assert(orig.take(i as int + 1).last() == orig[i as int]);
            }
            if (match m.owner { CipherOwner::Org { org_id: o } => o != org_id, CipherOwner::Account { .. } => true }) {
                kept.push(m);
                proof {
                    assert(kept@ =~= ciphers_without_org(orig.take(i as int + 1), org_id));
                }
            } else {
                proof {
                    assert(kept@ =~= ciphers_without_org(orig.take(i as int + 1), org_id));
                }
            }
            i = i + 1;
        }
        proof {
            assert(orig.take(orig.len() as int) =~= orig);
            lemma_ciphers_without_org_ok(orig, org_id, old(self).next());
        }
        self.ciphers = kept;
    }
}





/// Every filtered membership row stands in the original rows.
pub open spec fn mem_of(s: Seq<Membership>, m: Membership) -> bool {
    exists|j: int| 0 <= j < s.len() && s[j] == m
}

proof fn lemma_mems_without_org_sub(s: Seq<Membership>, org_id: u64)
    ensures
        forall|x: int|
            0 <= x < mems_without_org(s, org_id).len() ==> mem_of(
                s,
                #[trigger] mems_without_org(s, org_id)[x],
            ),
    decreases s.len(),
{
    if s.len() > 0 {
        lemma_mems_without_org_sub(s.drop_last(), org_id);
        assert(forall|j: int| 0 <= j < s.len() - 1 ==> s.drop_last()[j] == s[j]);
        assert(forall|m: Membership| mem_of(s.drop_last(), m) ==> mem_of(s, m));
        assert(mem_of(s, s.last()));
        if s.last().org_id == org_id {
            assert(mems_without_org(s, org_id) =~= mems_without_org(s.drop_last(), org_id));
        } else {
            assert(mems_without_org(s, org_id) =~= mems_without_org(
                s.drop_last(),
                org_id,
            ).push(s.last()));
        }
    }
}

/// Filtering one organization out preserves the membership store's own
/// well-formedness: each remaining pair is unique and each remaining
/// organization id stays below the allocator.
proof fn lemma_mems_without_org_ok(s: Seq<Membership>, org_id: u64, next: u64)
    requires
        memberships_ok(s, next),
    ensures
        memberships_ok(mems_without_org(s, org_id), next),
    decreases s.len(),
{
    if s.len() > 0 {
        let sp = s.drop_last();
        assert(forall|j: int| 0 <= j < sp.len() ==> sp[j] == s[j]);
        assert(memberships_ok(sp, next));
        lemma_mems_without_org_ok(sp, org_id, next);
        lemma_mems_without_org_sub(sp, org_id);
        if s.last().org_id == org_id {
            assert(mems_without_org(s, org_id) =~= mems_without_org(sp, org_id));
        } else {
            let f = mems_without_org(sp, org_id);
            assert(mems_without_org(s, org_id) =~= f.push(s.last()));
            assert forall|x: int, y: int|
                0 <= x < f.push(s.last()).len() && 0 <= y < f.push(s.last()).len() && x
                    != y implies !(f.push(s.last())[x].account_id == f.push(
                s.last(),
            )[y].account_id && f.push(s.last())[x].org_id == f.push(s.last())[y].org_id) by {
                if x < f.len() && y < f.len() {
                } else {
                    let inner: int = if x < f.len() { x } else { y };
                    assert(f.push(s.last())[inner] == f[inner]);
                    assert(mem_of(sp, f[inner]));
                    let j = choose|j: int| 0 <= j < sp.len() && sp[j] == f[inner];
                    assert(s[j] == f[inner]);
                    assert(!(s[j].account_id == s.last().account_id && s[j].org_id
                        == s.last().org_id));
                }
            }
            assert forall|x: int| 0 <= x < f.push(s.last()).len() implies (#[trigger] f.push(
                s.last(),
            )[x]).org_id < next by {
                if x < f.len() {
                    assert(f.push(s.last())[x] == f[x]);
                }
            }
        }
    }
}

/// Every filtered collection row stands in the original rows.
pub open spec fn col_of(s: Seq<Collection>, c: Collection) -> bool {
    exists|j: int| 0 <= j < s.len() && s[j] == c
}

proof fn lemma_cols_without_org_sub(s: Seq<Collection>, org_id: u64)
    ensures
        forall|x: int|
            0 <= x < cols_without_org(s, org_id).len() ==> col_of(
                s,
                #[trigger] cols_without_org(s, org_id)[x],
            ),
    decreases s.len(),
{
    if s.len() > 0 {
        lemma_cols_without_org_sub(s.drop_last(), org_id);
        assert(forall|j: int| 0 <= j < s.len() - 1 ==> s.drop_last()[j] == s[j]);
        assert(forall|c: Collection| col_of(s.drop_last(), c) ==> col_of(s, c));
        assert(col_of(s, s.last()));
        if s.last().org_id == org_id {
            assert(cols_without_org(s, org_id) =~= cols_without_org(s.drop_last(), org_id));
        } else {
            assert(cols_without_org(s, org_id) =~= cols_without_org(
                s.drop_last(),
                org_id,
            ).push(s.last()));
        }
    }
}

/// Filtering one organization's collections out preserves id uniqueness
/// and the allocator bound.
proof fn lemma_cols_without_org_ok(s: Seq<Collection>, org_id: u64, next: u64)
    requires
        collections_ok(s, next),
    ensures
        collections_ok(cols_without_org(s, org_id), next),
    decreases s.len(),
{
    if s.len() > 0 {
        let sp = s.drop_last();
        assert(forall|j: int| 0 <= j < sp.len() ==> sp[j] == s[j]);
        assert(collections_ok(sp, next));
        lemma_cols_without_org_ok(sp, org_id, next);
        lemma_cols_without_org_sub(sp, org_id);
        if s.last().org_id == org_id {
            assert(cols_without_org(s, org_id) =~= cols_without_org(sp, org_id));
        } else {
            let f = cols_without_org(sp, org_id);
            assert(cols_without_org(s, org_id) =~= f.push(s.last()));
            assert forall|x: int, y: int|
                0 <= x < f.push(s.last()).len() && 0 <= y < f.push(s.last()).len() && x
                    != y implies f.push(s.last())[x].id != f.push(s.last())[y].id by {
                if x < f.len() && y < f.len() {
                } else {
                    let inner: int = if x < f.len() { x } else { y };
                    assert(f.push(s.last())[inner] == f[inner]);
                    assert(col_of(sp, f[inner]));
                    let j = choose|j: int| 0 <= j < sp.len() && sp[j] == f[inner];
                    assert(s[j] == f[inner]);
                    assert(s[j].id != s.last().id);
                }
            }
            assert forall|x: int| 0 <= x < f.push(s.last()).len() implies (#[trigger] f.push(
                s.last(),
            )[x]).id < next by {
                if x < f.len() {
                    assert(f.push(s.last())[x] == f[x]);
                }
            }
        }
    }
}

/// Every filtered cipher row stands in the original rows.
pub open spec fn cipher_of(s: Seq<Cipher>, c: Cipher) -> bool {
    exists|j: int| 0 <= j < s.len() && s[j] == c
}

proof fn lemma_ciphers_without_org_sub(s: Seq<Cipher>, org_id: u64)
    ensures
        forall|x: int|
            0 <= x < ciphers_without_org(s, org_id).len() ==> cipher_of(
                s,
                #[trigger] ciphers_without_org(s, org_id)[x],
            ),
    decreases s.len(),
{
    if s.len() > 0 {
        lemma_ciphers_without_org_sub(s.drop_last(), org_id);
        assert(forall|j: int| 0 <= j < s.len() - 1 ==> s.drop_last()[j] == s[j]);
        assert(forall|c: Cipher| cipher_of(s.drop_last(), c) ==> cipher_of(s, c));
        assert(cipher_of(s, s.last()));
        if s.last().owner == (CipherOwner::Org { org_id }) {
            assert(ciphers_without_org(s, org_id) =~= ciphers_without_org(
                s.drop_last(),
                org_id,
            ));
        } else {
            assert(ciphers_without_org(s, org_id) =~= ciphers_without_org(
                s.drop_last(),
                org_id,
            ).push(s.last()));
        }
    }
}

/// Filtering one organization's ciphers out preserves id uniqueness and
/// the allocator bound.
proof fn lemma_ciphers_without_org_ok(s: Seq<Cipher>, org_id: u64, next: u64)
    requires
        ciphers_ok(s, next),
    ensures
        ciphers_ok(ciphers_without_org(s, org_id), next),
    decreases s.len(),
{
    if s.len() > 0 {
        let sp = s.drop_last();
        assert(forall|j: int| 0 <= j < sp.len() ==> sp[j] == s[j]);
        assert(ciphers_ok(sp, next));
        lemma_ciphers_without_org_ok(sp, org_id, next);
        lemma_ciphers_without_org_sub(sp, org_id);
        if s.last().owner == (CipherOwner::Org { org_id }) {
            assert(ciphers_without_org(s, org_id) =~= ciphers_without_org(sp, org_id));
        } else {
            let f = ciphers_without_org(sp, org_id);
            assert(ciphers_without_org(s, org_id) =~= f.push(s.last()));
            assert forall|x: int, y: int|
                0 <= x < f.push(s.last()).len() && 0 <= y < f.push(s.last()).len() && x
                    != y implies f.push(s.last())[x].id != f.push(s.last())[y].id by {
                if x < f.len() && y < f.len() {
                } else {
                    let inner: int = if x < f.len() { x } else { y };
                    assert(f.push(s.last())[inner] == f[inner]);
                    assert(cipher_of(sp, f[inner]));
                    let j = choose|j: int| 0 <= j < sp.len() && sp[j] == f[inner];
                    assert(s[j] == f[inner]);
                    assert(s[j].id != s.last().id);
                }
            }
            assert forall|x: int| 0 <= x < f.push(s.last()).len() implies (#[trigger] f.push(
                s.last(),
            )[x]).id < next by {
                if x < f.len() {
                    assert(f.push(s.last())[x] == f[x]);
                }
            }
        }
    }
}

/// An access/refresh pair plus the account revision stamp at issuance, as
/// the login and refresh endpoints return.
#[derive(Debug)]
pub struct TokenPair {
    pub access: AccessToken,
    pub refresh: RefreshToken,
    pub revision: u64,
}

/// Validation of an access token at the engine: unknown subject accounts
/// are reported as `InvalidCredentials`, otherwise the token is checked
/// against the subject's current security stamp.
pub open spec fn spec_validate_vault(
    key: Seq<u8>,
    accounts: Seq<Account>,
    t: AccessToken,
    now: u64,
) -> Result<u64, VaultError> {
    if !has_account(accounts, t.account_id) {
        Err(VaultError::InvalidCredentials)
    } else {
        spec_validate_token(
            key,
            t,
            accounts[account_index(accounts, t.account_id)].security_stamp,
            now,
        )
    }
}

/// The organization-directory part of the state (organizations,
/// memberships, collections, ciphers, channels, allocator) is unchanged.
pub open spec fn unchanged_directory(a: &Vault, b: &Vault) -> bool {
    &&& b.orgs() == a.orgs()
    &&& b.memberships() == a.memberships()
    &&& b.collections() == a.collections()
    &&& b.ciphers() == a.ciphers()
    &&& b.channels() == a.channels()
    &&& b.next() == a.next()
    &&& b.cfg() == a.cfg()
    &&& b.key() == a.key()
}

} // verus!

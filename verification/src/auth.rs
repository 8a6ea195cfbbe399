//! Token issuance and validation. Access tokens are short-lived, carry the
//! subject account, the session (device) they were minted for, issue and
//! expiry instants, and a snapshot of the account's security stamp; they are
//! authenticated with the key manager's signing key. A changed security
//! stamp invalidates every outstanding access token without a revocation
//! list, because the stamp comparison alone fails validation.
use crate::crypto::{le_bytes, mac_matches, mac_of, push_u64_le, compute_mac};
use crate::error::VaultError;
use vstd::prelude::*;

verus! {

/// Owns the signing key used to mint and verify bearer tokens; loaded once
/// at startup and immutable for the life of the process.
pub struct KeyManager {
    signing_key: Vec<u8>,
}

impl KeyManager {
    /// The bytes of the signing key.
    pub closed spec fn key(&self) -> Seq<u8> {
        self.signing_key@
    }

    /// Wraps an already-loaded signing key; provisioning the key material is
    /// the caller's concern.
    pub fn new(signing_key: Vec<u8>) -> (r: KeyManager)
        ensures
            r.key() == signing_key@,
    {
        KeyManager { signing_key }
    }
}

/// A short-lived signed credential authorizing calls on behalf of an account
/// from one device session.
#[derive(Debug)]
pub struct AccessToken {
    pub account_id: u64,
    pub session_id: u64,
    pub issued_at: u64,
    pub expires_at: u64,
    pub security_stamp: u64,
    pub sig: Vec<u8>,
}

/// The bytes over which an access token's authentication code is computed.
pub open spec fn token_payload(
    account_id: u64,
    session_id: u64,
    issued_at: u64,
    expires_at: u64,
    security_stamp: u64,
) -> Seq<u8> {
    le_bytes(account_id as nat, 8) + le_bytes(session_id as nat, 8) + le_bytes(
        issued_at as nat,
        8,
    ) + le_bytes(expires_at as nat, 8) + le_bytes(security_stamp as nat, 8)
}

/// Whether the token's signature is the one the given key produces over the
/// token's own claims.
pub open spec fn token_signed(t: AccessToken, key: Seq<u8>) -> bool {
    t.sig@ == mac_of(
        key,
        token_payload(t.account_id, t.session_id, t.issued_at, t.expires_at, t.security_stamp),
    )
}

fn encode_payload(
    account_id: u64,
    session_id: u64,
    issued_at: u64,
    expires_at: u64,
    security_stamp: u64,
) -> (r: Vec<u8>)
    ensures
        r@ == token_payload(account_id, session_id, issued_at, expires_at, security_stamp),
{
    let mut out: Vec<u8> = Vec::new();
    push_u64_le(&mut out, account_id);
    push_u64_le(&mut out, session_id);
    push_u64_le(&mut out, issued_at);
    push_u64_le(&mut out, expires_at);
    push_u64_le(&mut out, security_stamp);
    proof {
        assert(out@ =~= token_payload(
            account_id,
            session_id,
            issued_at,
            expires_at,
            security_stamp,
        ));
    }
    out
}

/// What validation decides for a token against the account's current
/// security stamp at instant `now`: a bad signature is reported like a bad
/// credential, then expiry, then the stamp snapshot; the subject account is
/// returned when all three hold.
pub open spec fn spec_validate_token(
    key: Seq<u8>,
    t: AccessToken,
    current_stamp: u64,
    now: u64,
) -> Result<u64, VaultError> {
    if !token_signed(t, key) {
        Err(VaultError::InvalidCredentials)
    } else if now > t.expires_at {
        Err(VaultError::TokenExpired)
    } else if t.security_stamp != current_stamp {
        Err(VaultError::TokenSecurityStampMismatch)
    } else {
        Ok(t.account_id)
    }
}

impl KeyManager {
    /// Mints an access token for `account_id` on session `session_id`,
    /// valid for `ttl` seconds from `now`, carrying the account's current
    /// security stamp.
    pub fn mint_access_token(
        &self,
        account_id: u64,
        session_id: u64,
        now: u64,
        ttl: u64,
        security_stamp: u64,
    ) -> (t: AccessToken)
        requires
            now + ttl <= u64::MAX,
        ensures
            t.account_id == account_id,
            t.session_id == session_id,
            t.issued_at == now,
            t.expires_at == now + ttl,
            t.security_stamp == security_stamp,
            token_signed(t, self.key()),
    {
        let expires_at = now + ttl;
        let payload = encode_payload(account_id, session_id, now, expires_at, security_stamp);
        let sig = compute_mac(self.signing_key.as_slice(), payload.as_slice());
        AccessToken { account_id, session_id, issued_at: now, expires_at, security_stamp, sig }
    }

    /// Validates an access token: signature, expiry, then security-stamp
    /// snapshot against the account's current stamp. Returns the subject
    /// account id on success.
    pub fn validate_access_token(&self, t: &AccessToken, current_stamp: u64, now: u64) -> (r:
        Result<u64, VaultError>)
        ensures
            r == spec_validate_token(self.key(), *t, current_stamp, now),
    {
        let payload = encode_payload(
            t.account_id,
            t.session_id,
            t.issued_at,
            t.expires_at,
            t.security_stamp,
        );
        if !mac_matches(self.signing_key.as_slice(), payload.as_slice(), t.sig.as_slice()) {
            Err(VaultError::InvalidCredentials)
        } else if now > t.expires_at {
            Err(VaultError::TokenExpired)
        } else if t.security_stamp != current_stamp {
            Err(VaultError::TokenSecurityStampMismatch)
        } else {
            Ok(t.account_id)
        }
    }
}

/// A longer-lived rotating credential bound to a session's current
/// generation counter; each successful refresh advances the counter, so a
/// token from an earlier generation is detectable as reused.
#[derive(Clone, Copy, Debug, PartialEq, Eq, Structural)]
pub struct RefreshToken {
    pub session_id: u64,
    pub generation: u64,
}

} // verus!

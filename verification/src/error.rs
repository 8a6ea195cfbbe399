//! Failure taxonomy of the core. Verification and authorization failures are
//! recovered at the request boundary and mapped to one of these caller-visible
//! outcomes; they are never silently downgraded except where resource
//! existence itself is sensitive, in which case `NotFound` hides the resource.
use vstd::prelude::*;

verus! {

/// Caller-visible failure outcomes of the core operations.
#[derive(Clone, Copy, Debug, PartialEq, Eq, Structural)]
pub enum VaultError {
    /// Wrong identifier or password; reported generically to avoid
    /// account enumeration.
    InvalidCredentials,
    /// A submitted second-factor proof did not verify.
    SecondFactorInvalid,
    /// A hardware-assertion challenge was expired or already consumed.
    ChallengeExpiredOrReplayed,
    /// The access token is past its expiry.
    TokenExpired,
    /// The access token carries a security stamp that no longer matches the
    /// account; the caller must re-authenticate.
    TokenSecurityStampMismatch,
    /// A refresh token from an already-rotated generation was presented;
    /// the whole session is revoked.
    RefreshTokenReused,
    /// The identity lacks the capability the operation needs.
    Forbidden,
    /// The resource is absent, or deliberately hidden from this identity.
    NotFound,
    /// The attempt would leave an organization without any Owner.
    OwnerInvariantViolation,
}

impl VaultError {
    /// Stable wire label of the failure, for the layer that renders responses.
    pub fn label(&self) -> (r: &'static str)
        ensures
            r@.len() > 0,
    {
        proof {
            reveal_strlit("invalid_credentials");
            reveal_strlit("second_factor_invalid");
            reveal_strlit("challenge_expired_or_replayed");
            reveal_strlit("token_expired");
            reveal_strlit("token_security_stamp_mismatch");
            reveal_strlit("refresh_token_reused");
            reveal_strlit("forbidden");
            reveal_strlit("not_found");
            reveal_strlit("owner_invariant_violation");
        }
        match self {
            VaultError::InvalidCredentials => "invalid_credentials",
            VaultError::SecondFactorInvalid => "second_factor_invalid",
            VaultError::ChallengeExpiredOrReplayed => "challenge_expired_or_replayed",
            VaultError::TokenExpired => "token_expired",
            VaultError::TokenSecurityStampMismatch => "token_security_stamp_mismatch",
            VaultError::RefreshTokenReused => "refresh_token_reused",
            VaultError::Forbidden => "forbidden",
            VaultError::NotFound => "not_found",
            VaultError::OwnerInvariantViolation => "owner_invariant_violation",
        }
    }
}

} // verus!

//! Second-factor verification. Providers are a closed set of variants, each
//! carrying its own verification data; dispatch is by exhaustive matching.
//! Time-based codes are derived from the shared secret and a rolling time
//! step and accepted within a one-step window either way; hardware-bound
//! assertions verify against a stored key and a single-use challenge nonce;
//! emailed codes are short-TTL stored codes; push approval is decided by an
//! external service and only its reported outcome is consumed here.
use crate::crypto::{compute_mac, le_bytes, mac_of, push_u64_le};
use vstd::prelude::*;

verus! {

/// One configured second-factor provider of an account.
pub enum SecondFactor {
    /// Time-based code derived from a shared secret.
    Totp { secret: Vec<u8> },
    /// Hardware-bound public-key assertion against server-issued challenges.
    Hardware { public_key: Vec<u8> },
    /// Short-TTL code delivered out of band by mail.
    Email { code: Vec<u8>, expires_at: u64 },
    /// External push-approval service; only its decision reaches the core.
    Push,
}

/// The provider variant, without its verification data.
#[derive(Clone, Copy, Debug, PartialEq, Eq, Structural)]
pub enum FactorKind {
    Totp,
    Hardware,
    Email,
    Push,
}

/// The variant a configured factor belongs to.
pub open spec fn kind_of(f: SecondFactor) -> FactorKind {
    match f {
        SecondFactor::Totp { .. } => FactorKind::Totp,
        SecondFactor::Hardware { .. } => FactorKind::Hardware,
        SecondFactor::Email { .. } => FactorKind::Email,
        SecondFactor::Push => FactorKind::Push,
    }
}

impl SecondFactor {
    /// Reports which provider variant this factor is.
    pub fn kind(&self) -> (k: FactorKind)
        ensures
            k == kind_of(*self),
    {
        match self {
            SecondFactor::Totp { .. } => FactorKind::Totp,
            SecondFactor::Hardware { .. } => FactorKind::Hardware,
            SecondFactor::Email { .. } => FactorKind::Email,
            SecondFactor::Push => FactorKind::Push,
        }
    }
}

/// The proof a client submits for one provider variant.
pub enum FactorProof {
    Totp { code: u32 },
    Hardware { nonce: u64, assertion: Vec<u8> },
    Email { code: Vec<u8> },
    /// The external service's approval decision, relayed by the caller.
    Push { approved: bool },
}

/// A server-issued hardware-assertion challenge; single use, whether the
/// verification that consumes it succeeds or fails.
#[derive(Clone, Copy, Debug, PartialEq, Eq, Structural)]
pub struct Challenge {
    pub nonce: u64,
    pub used: bool,
}

/// The low 32-bit word read little-endian from the head of a digest.
pub open spec fn word32(d: Seq<u8>) -> int {
    d[0] + 256 * d[1] + 65536 * d[2] + 16777216 * d[3]
}

/// The time-based code for one time step: six decimal digits taken from the
/// keyed digest of the step counter under the shared secret.
pub open spec fn totp_code_of(secret: Seq<u8>, step: u64) -> u32 {
    (word32(mac_of(secret, le_bytes(step as nat, 8))) % 1000000) as u32
}

/// Derives the time-based code for one time step.
pub fn totp_code(secret: &[u8], step: u64) -> (c: u32)
    ensures
        c == totp_code_of(secret@, step),
{
    let mut msg: Vec<u8> = Vec::new();
    push_u64_le(&mut msg, step);
    proof {
        assert(msg@ =~= Seq::<u8>::empty() + le_bytes(step as nat, 8));
        assert(msg@ =~= le_bytes(step as nat, 8));
    }
    let d = compute_mac(secret, msg.as_slice());
    let w: u64 = d[0] as u64 + 256 * (d[1] as u64) + 65536 * (d[2] as u64) + 16777216 * (
    d[3] as u64);
    assert(w == word32(d@));
    (w % 1000000) as u32
}

/// Whether a submitted time-based code falls in the accepted rolling window:
/// the current step or one step either side.
pub open spec fn totp_window_ok(secret: Seq<u8>, step: u64, code: u32) -> bool {
    ||| code == totp_code_of(secret, step)
    ||| step > 0 && code == totp_code_of(secret, (step - 1) as u64)
    ||| step < u64::MAX && code == totp_code_of(secret, (step + 1) as u64)
}

/// Checks a submitted time-based code against the rolling window around
/// `step`.
pub fn check_totp(secret: &[u8], step: u64, code: u32) -> (r: bool)
    ensures
        r == totp_window_ok(secret@, step, code),
{
    if code == totp_code(secret, step) {
        true
    } else if step > 0 && code == totp_code(secret, step - 1) {
        true
    } else if step < u64::MAX && code == totp_code(secret, step + 1) {
        true
    } else {
        false
    }
}

/// Whether an assertion is the one the stored key produces over a nonce:
/// the model of verifying a hardware-bound signature against a challenge.
pub open spec fn assertion_ok(public_key: Seq<u8>, nonce: u64, assertion: Seq<u8>) -> bool {
    assertion == mac_of(public_key, le_bytes(nonce as nat, 8))
}

/// Verifies a hardware-bound assertion over a challenge nonce.
pub fn check_assertion(public_key: &[u8], nonce: u64, assertion: &[u8]) -> (r: bool)
    ensures
        r == assertion_ok(public_key@, nonce, assertion@),
{
    let mut msg: Vec<u8> = Vec::new();
    push_u64_le(&mut msg, nonce);
    proof {
        assert(msg@ =~= Seq::<u8>::empty() + le_bytes(nonce as nat, 8));
        assert(msg@ =~= le_bytes(nonce as nat, 8));
    }
    crate::crypto::mac_matches(public_key, msg.as_slice(), assertion)
}

} // verus!

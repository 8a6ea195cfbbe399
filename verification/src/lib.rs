//! Core of a self-hosted password-vault server: authentication and session
//! lifecycle, organization-scoped authorization, and revision-stamped
//! synchronization with change notification. The server never reads vault
//! plaintext; it manages identity, permissions, consistency and distribution
//! of opaque encrypted items.
use vstd::prelude::*;

mod accounts;
mod auth;
mod authz;
mod config;
mod crypto;
mod engine;
mod error;
mod hub;
mod sessions;
mod twofactor;
mod util;

pub use accounts::{Account, AccountStore, ChallengeUse};
pub use auth::{AccessToken, KeyManager, RefreshToken};
pub use authz::{allows, Capability, CollectionGrant, Role};
pub use config::Config;
pub use engine::{
    Applied, Cipher, CipherOwner, Collection, FullState, LoginAttempt, LoginResponse, Membership, Mutation,
    Organization, SecondFactorOutcome, TokenPair, Vault,
};
pub use error::VaultError;
pub use hub::{Channel, ChangeKind, Delivery, EntityKind, Event, Subject};
pub use sessions::{Session, SessionRegistry};
pub use twofactor::{check_totp, totp_code, Challenge, FactorKind, FactorProof, SecondFactor};
pub use util::{format_timestamp, get_display_size, get_uuid, logged_route, retry, str_starts_with, try_parse_string, upcase_first, _process_key, AppHeaders, BetterLogging, Cached, LimitedReader, CORS};


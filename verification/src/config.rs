//! Immutable deployment configuration, constructed once at startup and
//! passed by reference into the components that need it; there is no
//! process-wide mutable singleton.
use vstd::prelude::*;

verus! {

/// Deployment configuration for the core.
#[derive(Clone, Copy, Debug, PartialEq, Eq, Structural)]
pub struct Config {
    /// Lifetime of an access token, in seconds.
    pub access_token_ttl: u64,
    /// Width of one time-based-code step, in seconds.
    pub totp_step_seconds: u64,
    /// Failed second-factor submissions tolerated before an in-flight
    /// login attempt is rejected outright.
    pub second_factor_fail_limit: u32,
}

impl Config {
    /// A configuration is usable when its periods are positive and at
    /// least one second-factor failure is tolerated before rejection.
    pub open spec fn wf(&self) -> bool {
        &&& self.access_token_ttl > 0
        &&& self.totp_step_seconds > 0
        &&& self.second_factor_fail_limit > 0
    }

    /// Builds a configuration from the deployment's settings.
    pub fn new(access_token_ttl: u64, totp_step_seconds: u64, second_factor_fail_limit: u32) -> (r:
        Config)
        requires
            access_token_ttl > 0,
            totp_step_seconds > 0,
            second_factor_fail_limit > 0,
        ensures
            r.access_token_ttl == access_token_ttl,
            r.totp_step_seconds == totp_step_seconds,
            r.second_factor_fail_limit == second_factor_fail_limit,
            r.wf(),
    {
        Config { access_token_ttl, totp_step_seconds, second_factor_fail_limit }
    }
}

} // verus!

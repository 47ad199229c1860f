//! Upkeep: when the rules are loaded anew, when the incident log is rotated, and
//! what is said of the number of rules.

use vstd::prelude::*;
use crate::cooldown::{elapsed, elapsed_nanos};
use crate::text::{decimal, decimal_text};

verus! {

/// How long loaded rules are used, in nanoseconds.
pub const RULE_RELOAD_INTERVAL_NANOS: u64 = 10_000_000_000;

/// The size from which on the incident log is rotated, in bytes.
pub const MAX_INCIDENT_LOG_BYTES: u64 = 10_485_760;

/// How long to wait between two looks at the monitored log, in seconds.
pub const POLL_INTERVAL_SECS: u64 = 2;

/// Whether rules that were loaded at one moment are to be loaded anew at another.
pub fn should_reload_rules(last_reload: u64, now: u64) -> (r: bool)
    ensures
        r == (elapsed_nanos(last_reload, now) >= RULE_RELOAD_INTERVAL_NANOS),
        r == (now - last_reload >= 10_000_000_000),
{
    elapsed(last_reload, now) >= RULE_RELOAD_INTERVAL_NANOS
}

/// Whether the incident log is to be rotated. Its size may be unknown.
pub fn needs_rotation(size: Option<u64>) -> (r: bool)
    ensures
        r == (size is Some && size->0 >= MAX_INCIDENT_LOG_BYTES),
        r == (size is Some && size->0 >= 10 * 1024 * 1024),
{
    match size {
        Some(size) => size >= MAX_INCIDENT_LOG_BYTES,
        None => false,
    }
}

/// What is said of the number of rules when the engine starts.
pub fn readiness_notice(count: usize) -> (r: String)
    ensures
        r@ == (if count == 0 {
            "[WARNING] No valid remediation rules loaded"@
        } else {
            "[INFO] "@ + decimal(count as nat) + " remediation rules ready"@
        }),
{
    if count == 0 {
        "[WARNING] No valid remediation rules loaded".to_owned()
    } else {
        "[INFO] ".to_owned().concat(decimal_text(count as u64).as_str()).concat(
            " remediation rules ready",
        )
    }
}

/// What is said of the number of rules when they have been loaded anew.
pub fn reload_notice(count: usize) -> (r: String)
    ensures
        r@ == "[RULES] Reload complete. Active rules: "@ + decimal(count as nat),
{
    "[RULES] Reload complete. Active rules: ".to_owned().concat(
        decimal_text(count as u64).as_str(),
    )
}

} // verus!

//! The blocklist enforcer on platforms without a writable hosts-equivalent
//! file: every operation is a designed no-op, not a failure. Applying and
//! removing succeed without effect, nothing is ever reported as blocked,
//! and the process never counts as privileged.

use vstd::prelude::*;

verus! {

/// Applying any domain list succeeds without effect.
pub fn add_domains(domains: &Vec<String>) -> (r: Result<(), String>)
    ensures
        r is Ok,
{
    let _ = domains.len();
    Ok(())
}

/// Removing succeeds without effect.
pub fn remove_domains() -> (r: Result<(), String>)
    ensures
        r is Ok,
{
    Ok(())
}

/// No domains are ever blocked here.
pub fn get_blocked_domains() -> (r: Result<Vec<String>, String>)
    ensures
        r matches Ok(v) && v@.len() == 0,
{
    Ok(Vec::new())
}

/// The process is never privileged here, and the probe never fails.
pub fn is_admin() -> (r: bool)
    ensures
        !r,
{
    false
}

} // verus!

//! The plain data shapes the command layer exchanges with its callers, and
//! the rules that fill them.

use vstd::prelude::*;

verus! {

/// The blocker's externally visible state.
pub struct BlockerState {
    pub is_active: bool,
    pub is_admin: bool,
    pub blocked_domains: Vec<String>,
}

/// The blocker's externally visible state as the plugin reports it; the
/// same shape as `BlockerState`, kept as its own type because the desktop
/// command layer and the plugin hand it to different callers.
pub struct BlockerStatus {
    pub is_active: bool,
    pub is_admin: bool,
    pub blocked_domains: Vec<String>,
}

/// State of the mobile VPN-based blocker.
pub struct VpnStatus {
    pub is_running: bool,
    pub blocked_count: u64,
    pub domains_loaded: u64,
}

/// One installed application, as the mobile bridge lists them.
pub struct InstalledApp {
    pub package_name: String,
    pub app_name: String,
    pub icon_base64: String,
}

/// Builds the blocker state from a privilege probe and the domains read
/// back from the managed section: the blocker is active exactly when that
/// list is non-empty.
pub fn blocker_state_from(is_admin: bool, blocked_domains: Vec<String>) -> (r: BlockerState)
    ensures
        r.is_admin == is_admin,
        r.blocked_domains@ == blocked_domains@,
        r.is_active == (blocked_domains@.len() > 0),
{
    let is_active = blocked_domains.len() > 0;
    BlockerState { is_active, is_admin, blocked_domains }
}

/// Builds the plugin-facing blocker status under the same rule as
/// `blocker_state_from`.
pub fn blocker_status_from(is_admin: bool, blocked_domains: Vec<String>) -> (r: BlockerStatus)
    ensures
        r.is_admin == is_admin,
        r.blocked_domains@ == blocked_domains@,
        r.is_active == (blocked_domains@.len() > 0),
{
    let is_active = blocked_domains.len() > 0;
    BlockerStatus { is_active, is_admin, blocked_domains }
}

/// The VPN status reported where no VPN blocker runs: not running, nothing
/// blocked, nothing loaded.
pub fn vpn_status_inactive() -> (r: VpnStatus)
    ensures
        !r.is_running,
        r.blocked_count == 0,
        r.domains_loaded == 0,
{
    VpnStatus { is_running: false, blocked_count: 0, domains_loaded: 0 }
}

} // verus!

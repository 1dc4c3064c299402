//! The tamper-protection watcher's state and decisions. The watcher is a
//! long-lived task: it is handed a fixed domain set when it starts, never
//! receives updates, and on every tick re-applies that set unless the set is
//! empty, in which case a tick does nothing. The timed loop that performs
//! the ticks lives outside this library; the owned state and the decision of
//! what a tick must do are here.

use vstd::prelude::*;

verus! {

/// Seconds between two ticks of the watcher.
pub const WATCH_INTERVAL_SECS: u64 = 60;

/// The watcher's whole state: the desired domain set it was started with,
/// immutable for its lifetime.
pub struct Watcher {
    domains: Vec<String>,
}

impl Watcher {
    /// The desired domain set.
    pub closed spec fn domain_set(self) -> Seq<String> {
        self.domains@
    }

    /// Starts a watcher owning the given domain set.
    pub fn new(domains: Vec<String>) -> (r: Watcher)
        ensures
            r.domain_set() == domains@,
    {
        Watcher { domains }
    }

    /// What one tick must re-apply: the whole owned set when it is
    /// non-empty, nothing otherwise.
    pub fn tick_domains(&self) -> (r: Option<&Vec<String>>)
        ensures
            match r {
                Some(v) => self.domain_set().len() > 0 && v@ == self.domain_set(),
                None => self.domain_set().len() == 0,
            },
    {
        if self.domains.len() == 0 {
            None
        } else {
            Some(&self.domains)
        }
    }
}

} // verus!

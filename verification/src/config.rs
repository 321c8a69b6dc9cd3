//! The settings of the bouncer.
use crate::blacklist::IpRangeMixed;
use vstd::prelude::*;

verus! {

/// The settings under which a firewall group is kept in step.
pub struct Config {
    /// The name of the group.
    pub firewall_group: String,
    /// The addresses that are never banned.
    pub trusted_ips: IpRangeMixed,
    /// The pause between two rounds, in seconds.
    pub update_period_secs: u64,
    /// After how many nanoseconds the whole group is to be reconciled again, if ever.
    pub full_sync_interval: Option<u128>,
    /// Whether changes of the configuration are saved.
    pub vyos_save_config: bool,
}

} // verus!

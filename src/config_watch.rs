//! The sidebar configuration watcher's decisions: where the configuration
//! lives, and which of its changes are announced.
use vstd::prelude::*;
use crate::resolver::{join, join_path};

verus! {

/// Changes of the configuration file closer together than this are one change.
pub const CONFIG_DEBOUNCE_MS: u64 = 500;

/// The directory that holds the sidebar configuration.
pub fn config_dir(home: Option<&str>) -> (r: String)
    ensures
        r@ == match home {
            Some(h) => join(h@, ".hecate/config"@),
            None => "/run/hecate/config"@,
        },
{
    match home {
        Some(h) => join_path(h, ".hecate/config"),
        None => String::from_str("/run/hecate/config"),
    }
}

/// Announces a change of the configuration file at most once per debounce window.
pub struct ConfigDebounce {
    pub last_announced: Option<u64>,
}

impl ConfigDebounce {
    pub fn new() -> (r: ConfigDebounce)
        ensures
            r.last_announced is None,
    {
        ConfigDebounce { last_announced: None }
    }

    /// The file was created or modified at `now_ms`: whether to announce it.
    pub fn changed(&mut self, now_ms: u64) -> (r: bool)
        ensures
            ({
                let quiet = match old(self).last_announced {
                    Some(t) => t <= now_ms && now_ms - t < CONFIG_DEBOUNCE_MS,
                    None => false,
                };
                &&& r == !quiet
                &&& r ==> final(self).last_announced == Some(now_ms)
                &&& !r ==> final(self).last_announced == old(self).last_announced
            }),
    {
        let quiet = match self.last_announced {
            Some(t) => t <= now_ms && now_ms - t < CONFIG_DEBOUNCE_MS,
            None => false,
        };
        if quiet {
            false
        } else {
            self.last_announced = Some(now_ms);
            true
        }
    }
}

} // verus!

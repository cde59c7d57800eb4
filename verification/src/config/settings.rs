//! The manager's application-wide settings record.
use vstd::prelude::*;

verus! {

/// Application settings persisted in the manager's configuration directory.
#[derive(Debug, PartialEq)]
pub struct MythicalSettingsData {
    pub discover_on_launch: bool,
}

impl Default for MythicalSettingsData {
    /// Discovery on launch is on until a user turns it off.
    fn default() -> (d: Self)
        ensures
            d.discover_on_launch,
    {
        MythicalSettingsData { discover_on_launch: true }
    }
}

} // verus!

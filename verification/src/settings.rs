//! User settings edited on the Settings tab.
use vstd::prelude::*;

verus! {

/// The refresh interval and battery capacity, with the row that is selected
/// and whether the settings panel has keyboard focus.
pub struct Settings {
    pub refresh_ms: u64,
    pub battery_mah: u32,
    pub selected: usize,
    pub focused: bool,
}

/// The settings a fresh start begins with.
pub open spec fn default_settings() -> Settings {
    Settings { refresh_ms: 500, battery_mah: 4000, selected: 0, focused: false }
}

impl Default for Settings {
    fn default() -> (s: Self)
        ensures
            s == default_settings(),
    {
        Settings { refresh_ms: 500, battery_mah: 4000, selected: 0, focused: false }
    }
}

impl Settings {
    /// The values the Settings tab lets a user reach: a refresh interval of
    /// 100 to 2000 ms, a capacity of 1000 to 10000 mAh, and one of the two rows.
    pub open spec fn in_range(self) -> bool {
        &&& 100 <= self.refresh_ms <= 2000
        &&& 1000 <= self.battery_mah <= 10000
        &&& self.selected <= 1
    }
}

/// The default settings lie in the range the Settings tab keeps.
pub proof fn lemma_default_in_range()
    ensures
        default_settings().in_range(),
{
}

} // verus!

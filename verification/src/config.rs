//! The reconfiguration coordinator: decides which axes of a configuration
//! update require action and tracks the hotkey registration state machine.
//!
//! The platform work itself — parsing the key combo and registering it with
//! the OS — happens outside the crate; its outcome is handed back in and
//! the verified transition decides the resulting state.

use vstd::prelude::*;

use crate::types::{str_eq, AppConfig, ConfigError};

verus! {

/// The hotkey axis: either no hotkey is registered, or exactly one is.
#[derive(Debug, Clone)]
pub enum HotkeyState {
    Unregistered,
    Registered(String),
}

/// Which axes of a configuration update require action.
#[derive(Debug, Clone, Copy, PartialEq, Eq, Structural)]
pub struct ReconfigPlan {
    pub hotkey_change: bool,
    pub cap_change: bool,
}

/// Compares the current and requested configuration by value: an axis
/// triggers exactly when its field actually differs.
pub fn plan_config_update(current: &AppConfig, requested: &AppConfig) -> (p: ReconfigPlan)
    ensures
        p.hotkey_change == (current.hotkey@ != requested.hotkey@),
        p.cap_change == (current.max_history_count != requested.max_history_count),
{
    ReconfigPlan {
        hotkey_change: !str_eq(current.hotkey.as_str(), requested.hotkey.as_str()),
        cap_change: current.max_history_count != requested.max_history_count,
    }
}

/// The hotkey transition of an update. By the time it runs, the old
/// registration is already gone (unregistering is best-effort and its
/// failure is not fatal), and `outcome` reports whether the platform
/// accepted the new hotkey. On success the new hotkey is registered; on
/// failure no hotkey is registered at all — the error is surfaced and the
/// removal of the old registration is not rolled back.
pub fn update_hotkey(new_hotkey: String, outcome: Option<ConfigError>) -> (r: (
    HotkeyState,
    Result<(), ConfigError>,
))
    ensures
        outcome is None ==> (r.0 matches HotkeyState::Registered(h) && h == new_hotkey) && r.1
            is Ok,
        outcome matches Some(e) ==> r.0 is Unregistered && r.1 == Err::<(), ConfigError>(e),
{
    match outcome {
        None => (HotkeyState::Registered(new_hotkey), Ok(())),
        Some(e) => (HotkeyState::Unregistered, Err(e)),
    }
}

} // verus!

//! The whole-system snapshot and its source, the `sysinfo` crate.

use vstd::prelude::*;

verus! {

/// A snapshot of whole-system information: seconds since boot. Replaced
/// wholesale by every `SystemInfo` event; never patched.
#[derive(Clone, Copy)]
pub struct SystemInfo {
    pub uptime: u64,
}

impl Default for SystemInfo {
    /// The snapshot before any sampling: uptime zero.
    fn default() -> (r: Self)
        ensures
            r.uptime == 0,
    {
        SystemInfo { uptime: 0 }
    }
}

/// The `sysinfo` system handle, declared so that verified code can pass a
/// refreshed handle through to the row collector; its inside stays opaque.
#[verifier::external_type_specification]
#[verifier::external_body]
pub struct ExSystem(sysinfo::System);

/// Takes the current whole-system snapshot.
///
/// Relies on `sysinfo::System::uptime`: seconds since the machine booted,
/// read at the moment of the call. The value depends on the machine and the
/// time, so nothing is promised of it.
#[verifier::external_body]
pub fn fetch_system_info() -> SystemInfo {
    SystemInfo { uptime: sysinfo::System::uptime() }
}

} // verus!

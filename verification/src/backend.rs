//! Choice of the sandbox backend for untrusted adapter workers: only a
//! Windows build that passed qualification, with the stable AppContainer
//! APIs present, enables strong untrusted launch; everything else fails
//! closed.
use vstd::prelude::*;
use vstd::string::StringExecFns;

verus! {

/// Version of the qualification matrix that `select_backend_for` encodes.
pub const SANDBOX_BACKEND_MATRIX_VERSION: u32 = 1;

/// The Windows builds on which the sandbox backend was measured.
pub const MEASURED_WINDOWS_BUILDS: [u32; 1] = [26200];

/// A Windows version as the kernel reports it.
#[derive(Debug, Clone, Copy, PartialEq, Eq, Structural)]
pub struct WindowsVersion {
    pub major: u32,
    pub minor: u32,
    pub build: u32,
}

/// The backend chosen for a host, with the facts it was chosen on.
pub struct SandboxBackendSelection {
    pub matrix_version: u32,
    pub windows: WindowsVersion,
    pub measured_build: bool,
    pub stable_appcontainer_api_available: bool,
    pub selected_backend: String,
    pub strong_untrusted_launch_enabled: bool,
    pub direct_worker_network: bool,
    pub brokered_egress_required: bool,
    pub reason: String,
}

/// Whether a build is in the measured set.
pub open spec fn is_measured_build(build: u32) -> bool {
    build == 26200
}

/// Whether `build` occurs in `MEASURED_WINDOWS_BUILDS`.
pub fn measured_build(build: u32) -> (r: bool)
    ensures
        r == is_measured_build(build),
{
    let builds = MEASURED_WINDOWS_BUILDS;
    let mut i: usize = 0;
    while i < builds.len()
        invariant
            builds@ == seq![26200u32],
            i <= builds@.len(),
            forall|k: int| 0 <= k < i ==> builds@[k] != build,
        decreases builds@.len() - i,
    {
        if builds[i] == build {
            return true;
        }
        i = i + 1;
    }
    false
}

/// `r` is the backend selection for `windows`: enabled exactly when the
/// stable APIs are present and the build was measured; then the worker gets
/// no direct network and all egress is brokered. Otherwise the backend is
/// `disabled`, with the first missing condition as the reason.
pub open spec fn is_backend_selection(windows: WindowsVersion, stable_available: bool, r: SandboxBackendSelection) -> bool {
    &&& r.matrix_version == SANDBOX_BACKEND_MATRIX_VERSION
    &&& r.windows == windows
    &&& r.measured_build == is_measured_build(windows.build)
    &&& r.stable_appcontainer_api_available == stable_available
    &&& r.strong_untrusted_launch_enabled == (stable_available && is_measured_build(windows.build))
    &&& r.selected_backend@ == (if stable_available && is_measured_build(windows.build) {
        "stable_lpac_brokered_egress"@
    } else {
        "disabled"@
    })
    &&& !r.direct_worker_network
    &&& r.brokered_egress_required
    &&& r.reason@ == (if stable_available && is_measured_build(windows.build) {
        "stable AppContainer/LPAC backend is qualified on this Windows build"@
    } else if !stable_available {
        "stable AppContainer APIs are unavailable"@
    } else {
        "Windows build has not passed RELAY sandbox qualification"@
    })
}

/// The sandbox backend for a Windows version and the presence of the stable
/// AppContainer APIs.
pub fn select_backend_for(windows: WindowsVersion, stable_available: bool) -> (r:
    SandboxBackendSelection)
    ensures
        is_backend_selection(windows, stable_available, r),
{
    let measured = measured_build(windows.build);
    if stable_available && measured {
        return SandboxBackendSelection {
            matrix_version: SANDBOX_BACKEND_MATRIX_VERSION,
            windows,
            measured_build: true,
            stable_appcontainer_api_available: true,
            selected_backend: String::from_str("stable_lpac_brokered_egress"),
            strong_untrusted_launch_enabled: true,
            direct_worker_network: false,
            brokered_egress_required: true,
            reason: String::from_str(
                "stable AppContainer/LPAC backend is qualified on this Windows build",
            ),
        };
    }
    let reason = if !stable_available {
        String::from_str("stable AppContainer APIs are unavailable")
    } else {
        String::from_str("Windows build has not passed RELAY sandbox qualification")
    };
    SandboxBackendSelection {
        matrix_version: SANDBOX_BACKEND_MATRIX_VERSION,
        windows,
        measured_build: measured,
        stable_appcontainer_api_available: stable_available,
        selected_backend: String::from_str("disabled"),
        strong_untrusted_launch_enabled: false,
        direct_worker_network: false,
        brokered_egress_required: true,
        reason,
    }
}

/// The backend for the running host, from the version the kernel reported
/// (`None` when it could not be read) and whether the stable AppContainer
/// APIs were found.
pub fn select_release_backend(windows: Option<WindowsVersion>, stable_available: bool) -> (r:
    Option<SandboxBackendSelection>)
    ensures
        r is Some <==> windows is Some,
        r matches Some(s) ==> is_backend_selection(windows->0, stable_available, s),
{
    match windows {
        Some(w) => Some(select_backend_for(w, stable_available)),
        None => None,
    }
}

} // verus!

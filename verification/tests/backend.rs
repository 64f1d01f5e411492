use relay::backend::{select_backend_for, select_release_backend, WindowsVersion, MEASURED_WINDOWS_BUILDS, SANDBOX_BACKEND_MATRIX_VERSION};

fn windows(build: u32) -> WindowsVersion {
    WindowsVersion { major: 10, minor: 0, build }
}

#[test]
fn measured_build_selects_stable_backend() {
    let selected = select_backend_for(windows(26200), true);
    assert_eq!(selected.selected_backend, "stable_lpac_brokered_egress");
    assert!(selected.strong_untrusted_launch_enabled);
    assert!(!selected.direct_worker_network);
    assert!(selected.brokered_egress_required);
}

#[test]
fn unmeasured_build_fails_closed() {
    let selected = select_backend_for(windows(19045), true);
    assert_eq!(selected.selected_backend, "disabled");
    assert!(!selected.strong_untrusted_launch_enabled);
}

#[test]
fn missing_stable_api_fails_closed() {
    let selected = select_backend_for(windows(26200), false);
    assert_eq!(selected.selected_backend, "disabled");
    assert!(!selected.strong_untrusted_launch_enabled);
}

#[test]
fn disabled_backend_reason_names_the_first_missing_condition() {
    let no_api = select_backend_for(windows(19045), false);
    assert_eq!(no_api.reason, "stable AppContainer APIs are unavailable");
    assert!(!no_api.measured_build);
    let unmeasured = select_backend_for(windows(19045), true);
    assert_eq!(unmeasured.reason, "Windows build has not passed RELAY sandbox qualification");
    assert!(unmeasured.brokered_egress_required);
    assert!(!unmeasured.direct_worker_network);
    let qualified = select_backend_for(windows(26200), true);
    assert_eq!(qualified.reason, "stable AppContainer/LPAC backend is qualified on this Windows build");
    assert_eq!(qualified.matrix_version, SANDBOX_BACKEND_MATRIX_VERSION);
    assert_eq!(qualified.windows, windows(26200));
    assert_eq!(MEASURED_WINDOWS_BUILDS, [26200]);
}

#[test]
fn release_backend_needs_a_known_windows_version() {
    assert!(select_release_backend(None, true).is_none());
    let selected = select_release_backend(Some(windows(26200)), true).unwrap();
    assert!(selected.strong_untrusted_launch_enabled);
    assert!(!selected.direct_worker_network && selected.brokered_egress_required);
    let disabled = select_release_backend(Some(windows(22631)), true).unwrap();
    assert_eq!(disabled.selected_backend, "disabled");
    assert!(!disabled.measured_build && disabled.stable_appcontainer_api_available);
    assert!(!disabled.direct_worker_network && disabled.brokered_egress_required);
    assert_eq!(disabled.reason, "Windows build has not passed RELAY sandbox qualification");
    assert_eq!(disabled.matrix_version, SANDBOX_BACKEND_MATRIX_VERSION);
}

use std::sync::atomic::Ordering;

use beava::{banner, AppState, VERSION};

#[test]
fn banner_includes_version() {
    let b = banner();
    assert!(b.contains(VERSION));
    assert!(b.starts_with("beava v"));
}

#[test]
fn banner_in_full() {
    assert_eq!(banner(), "beava v0.1.0 (skeleton)");
}

#[test]
fn state_starts_as_in_production() {
    let state = AppState::new("registry", 3u8, 'c');
    assert_eq!(state.dev_agg, "registry");
    assert_eq!(state.wal_sink, 3);
    assert_eq!(state.idem_cache, 'c');
    assert!(!state.dev_endpoints_enabled());
    assert!(!state.effective_test_mode);
    assert!(state.memory_governance_enforce);
}

#[test]
fn all_clones_share_the_flag_of_the_dev_endpoints() {
    let state = AppState::new((), (), ());
    let clone = state.clone();
    let other = clone.clone();
    for on in [true, false, true] {
        clone.dev_endpoints.store(on, Ordering::Relaxed);
        assert_eq!(clone.dev_endpoints_enabled(), on);
        assert_eq!(state.dev_endpoints_enabled(), on);
        assert_eq!(other.dev_endpoints_enabled(), on);
    }
    state.dev_endpoints.store(false, Ordering::Relaxed);
    assert!(!clone.dev_endpoints_enabled());
    assert!(!AppState::new((), (), ()).dev_endpoints_enabled());
}

#[test]
fn a_clone_keeps_the_settings() {
    let mut state = AppState::new("registry", 3u8, 'c');
    state.effective_test_mode = true;
    state.memory_governance_enforce = false;
    let clone = state.clone();
    assert_eq!((clone.dev_agg, clone.wal_sink, clone.idem_cache), ("registry", 3, 'c'));
    assert!(clone.effective_test_mode);
    assert!(!clone.memory_governance_enforce);
}

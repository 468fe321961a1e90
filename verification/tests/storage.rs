use renderer::assets::batch::check_result;
use renderer::assets::storage::{AssetState, Fetch, StorageTable};

#[test]
fn storage_first_request_queues_and_repeats_do_not() {
    let mut s = StorageTable::new();
    assert_eq!(s.state(1), None);
    assert!(s.request_load(1, false));
    assert_eq!(s.state(1), Some(AssetState::Queued));
    assert!(!s.request_load(1, false));
    s.start_loading(1);
    assert_eq!(s.state(1), Some(AssetState::Loading));
    assert!(!s.request_load(1, true));
    s.load_finished(1, 100);
    assert_eq!(s.state(1), Some(AssetState::Loaded { loaded_at: 100 }));
    assert!(!s.request_load(1, false));
}

#[test]
fn storage_failed_load_is_queued_again() {
    let mut s = StorageTable::new();
    s.request_load(2, false);
    s.start_loading(2);
    s.load_failed(2);
    assert_eq!(s.state(2), Some(AssetState::LoadError));
    assert!(!s.is_ready(2, true));
    assert!(s.request_load(2, false));
    assert_eq!(s.state(2), Some(AssetState::Queued));
    assert_eq!(s.revision(2), 0);
}

#[test]
fn storage_revisions_count_completed_loads() {
    let mut s = StorageTable::new();
    assert_eq!(s.revision(3), 0);
    s.request_load(3, false);
    s.load_finished(3, 5);
    assert_eq!(s.revision(3), 1);
    s.request_reload(3);
    assert_eq!(s.state(3), Some(AssetState::Queued));
    assert_eq!(s.revision(3), 1);
    s.load_finished(3, 9);
    assert_eq!(s.revision(3), 2);
}

#[test]
fn storage_fetch_hands_out_once_then_upgrades() {
    let mut s = StorageTable::new();
    assert_eq!(s.fetch(4), Fetch::Unavailable);
    s.request_load(4, false);
    assert_eq!(s.fetch(4), Fetch::Unavailable);
    s.load_finished(4, 1);
    assert!(s.is_ready(4, false));
    assert_eq!(s.fetch(4), Fetch::TakeLoaded);
    assert_eq!(s.state(4), Some(AssetState::HandedOut));
    assert_eq!(s.fetch(4), Fetch::Upgrade);
    assert!(s.is_ready(4, true));
    assert!(!s.is_ready(4, false));
    // a handed-out asset is queued again only while its handle is alive
    assert!(!s.request_load(4, false));
    assert!(s.request_load(4, true));
}

#[test]
fn storage_gc_drops_only_old_loaded_assets() {
    let mut s = StorageTable::new();
    for (id, at) in [(10u128, 0u64), (11, 50), (12, 90)] {
        s.request_load(id, false);
        s.load_finished(id, at);
    }
    s.request_load(13, false);
    s.request_load(14, false);
    s.load_finished(14, 0);
    assert_eq!(s.fetch(14), Fetch::TakeLoaded);
    let mut removed = s.gc(100, 20);
    removed.sort();
    assert_eq!(removed, vec![10, 11]);
    assert_eq!(s.state(10), None);
    assert_eq!(s.state(11), None);
    assert_eq!(s.state(12), Some(AssetState::Loaded { loaded_at: 90 }));
    assert_eq!(s.state(13), Some(AssetState::Queued));
    assert_eq!(s.state(14), Some(AssetState::HandedOut));
    assert_eq!(s.revision(10), 1);
    assert!(s.gc(100, 20).is_empty());
    // an asset dropped by the collector is loaded again on request
    assert!(s.request_load(10, false));
}

#[test]
fn storage_batch_requests_and_progress() {
    let mut s = StorageTable::new();
    s.request_load(21, false);
    s.load_finished(21, 0);
    s.request_load_batch(&[20, 21, 22, 20], &[false, false, false, false]);
    assert_eq!(s.state(20), Some(AssetState::Queued));
    assert_eq!(s.state(21), Some(AssetState::Loaded { loaded_at: 0 }));
    assert_eq!(s.state(22), Some(AssetState::Queued));
    let ready = s.readiness(&[20, 21, 22], &[false, false, false]);
    assert_eq!(ready, vec![false, true, false]);
    let results = check_result(&ready);
    assert_eq!(results.loaded, 1);
    assert_eq!(results.unloaded, 2);
    assert!(!results.is_complete());
}

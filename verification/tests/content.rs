use crossbeam::channel::bounded;
use renderer::assets::content::{
    asset_file_name, bf_file_name, must_wait, AssetSlot, AssetTable, SignalState,
};

#[test]
fn content_unknown_asset_reads_nothing() {
    let table: AssetTable<String> = AssetTable::new();
    assert!(!table.contains(7));
    assert_eq!(table.revision(7), 0);
    assert!(table.get(7).is_none());
    assert!(table.receiver_to_wait_on(7).is_none());
}

#[test]
fn content_request_then_store_then_read() {
    let mut table: AssetTable<String> = AssetTable::new();
    let (_tx, rx) = bounded::<()>(1);
    table.request(42, rx);
    assert!(table.contains(42));
    assert_eq!(table.revision(42), 0);
    assert!(table.get(42).is_none());
    table.store_loaded(42, "mesh".to_string());
    assert_eq!(table.get(42), Some(&"mesh".to_string()));
    assert_eq!(table.revision(42), 1);
    assert!(table.get(43).is_none());
}

#[test]
fn content_new_request_keeps_loaded_asset() {
    let mut table: AssetTable<u32> = AssetTable::new();
    let (_tx1, rx1) = bounded::<()>(1);
    table.request(1, rx1);
    table.store_loaded(1, 10);
    let (_tx2, rx2) = bounded::<()>(1);
    table.request(1, rx2);
    assert_eq!(table.get(1), Some(&10));
    assert_eq!(table.revision(1), 1);
    table.store_loaded(1, 11);
    assert_eq!(table.get(1), Some(&11));
    assert_eq!(table.revision(1), 2);
}

#[test]
fn content_wait_only_while_load_pending() {
    let mut table: AssetTable<u32> = AssetTable::new();
    let (tx, rx) = bounded::<()>(1);
    table.request(5, rx);
    let pending = table.receiver_to_wait_on(5);
    assert!(pending.is_some());
    tx.send(()).unwrap();
    assert!(pending.unwrap().recv().is_ok());
    drop(tx);
    assert!(table.receiver_to_wait_on(5).is_none());
}

#[test]
fn content_signal_received_means_no_wait() {
    let mut table: AssetTable<u32> = AssetTable::new();
    let (tx, rx) = bounded::<()>(1);
    table.request(6, rx);
    tx.send(()).unwrap();
    assert!(table.receiver_to_wait_on(6).is_none());
}

#[test]
fn content_must_wait_only_when_pending() {
    assert!(must_wait(SignalState::Pending));
    assert!(!must_wait(SignalState::Received));
    assert!(!must_wait(SignalState::Disconnected));
}

#[test]
fn content_empty_slot() {
    let (_tx, rx) = bounded::<()>(1);
    let _slot: AssetSlot<u8> = AssetSlot::new_empty(rx);
}

#[test]
fn asset_file_name_is_hyphenated_lowercase_uuid() {
    assert_eq!(
        asset_file_name(0x936DA01F9ABD4D9D80C702AF85C822A8),
        "936da01f-9abd-4d9d-80c7-02af85c822a8.bf"
    );
    assert_eq!(asset_file_name(0), "00000000-0000-0000-0000-000000000000.bf");
    let id: u128 = 0x0123_4567_89ab_cdef_fedc_ba98_7654_3210;
    let expected = format!("{}.bf", uuid::Uuid::from_u128(id).to_hyphenated());
    assert_eq!(asset_file_name(id), expected);
    assert_eq!(asset_file_name(id).len(), 39);
}

#[test]
fn bf_file_name_appends_extension() {
    assert_eq!(bf_file_name(String::from("sphere")), "sphere.bf");
    assert_eq!(bf_file_name(String::new()), ".bf");
}

#[test]
fn content_observe_signal_reports_state() {
    let mut table: AssetTable<u32> = AssetTable::new();
    let (none_rx, none_state) = table.observe_signal(3);
    assert!(none_rx.is_none());
    assert_eq!(none_state, None);

    let (tx, rx) = bounded::<()>(1);
    table.request(3, rx);
    let (pending_rx, pending_state) = table.observe_signal(3);
    assert_eq!(pending_state, Some(SignalState::Pending));
    assert!(pending_rx.is_some());

    tx.send(()).unwrap();
    let (received_rx, received_state) = table.observe_signal(3);
    assert_eq!(received_state, Some(SignalState::Received));
    assert!(received_rx.is_none());

    drop(tx);
    let (gone_rx, gone_state) = table.observe_signal(3);
    assert_eq!(gone_state, Some(SignalState::Disconnected));
    assert!(gone_rx.is_none());
}

#[test]
fn content_handed_out_receiver_is_the_slot_signal() {
    let mut table: AssetTable<u32> = AssetTable::new();
    let (tx, rx) = bounded::<()>(1);
    table.request(9, rx);
    let waiting = table.observe_signal(9).0.expect("load pending");
    tx.send(()).unwrap();
    // the one message reaches the handed-out receiver: it is the same channel
    assert!(waiting.recv().is_ok());
    assert_eq!(table.observe_signal(9).1, Some(SignalState::Pending));
}

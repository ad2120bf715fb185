//! Checks of the trusted-device store.

use prontafon::devices::TrustedDeviceStore;

#[test]
fn test_new_store_empty() {
    let store = TrustedDeviceStore::new();
    assert_eq!(store.len(), 0);
}

#[test]
fn test_add_trusted_device() {
    let mut store = TrustedDeviceStore::new();

    store.add_trusted(
        "device-123".to_string(),
        Some("My Phone".to_string()),
        "2024-01-01T00:00:00Z".to_string(),
    );

    assert!(store.is_trusted("device-123"));
    assert!(!store.is_trusted("device-456"));
    assert_eq!(store.len(), 1);
}

#[test]
fn test_add_duplicate_device() {
    let mut store = TrustedDeviceStore::new();

    store.add_trusted(
        "device-123".to_string(),
        Some("My Phone".to_string()),
        "2024-01-01T00:00:00Z".to_string(),
    );
    store.add_trusted(
        "device-123".to_string(),
        Some("My Phone 2".to_string()),
        "2024-01-02T00:00:00Z".to_string(),
    );

    assert_eq!(store.len(), 1);
    assert_eq!(store.get(0).device_name, Some("My Phone 2".to_string()));
}

#[test]
fn refresh_keeps_first_paired() {
    let mut store = TrustedDeviceStore::new();
    store.add_trusted("d".to_string(), None, "t1".to_string());
    store.add_trusted("d".to_string(), Some("N".to_string()), "t2".to_string());
    assert_eq!(store.len(), 1);
    assert_eq!(store.get(0).first_paired, "t1");
    assert_eq!(store.get(0).last_connected, "t2");
    assert_eq!(store.get(0).device_name, Some("N".to_string()));
}

#[test]
fn test_update_last_connected() {
    let mut store = TrustedDeviceStore::new();

    store.add_trusted(
        "device-123".to_string(),
        Some("My Phone".to_string()),
        "2024-01-01T00:00:00Z".to_string(),
    );

    let original_time = store.get(0).last_connected.clone();

    // 10 milliseconds later on the caller's clock.
    assert!(store.update_last_connected("device-123", "2024-01-01T00:00:00.010Z".to_string()));

    assert_ne!(store.get(0).last_connected, original_time);
    assert!(!store.update_last_connected("device-999", "2024-01-01T00:00:01Z".to_string()));
}

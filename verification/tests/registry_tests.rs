use key_remap::registry::PendingRegistry;

#[test]
fn record_is_idempotent_per_pair() {
    let mut reg = PendingRegistry::new();
    assert_eq!(reg.len(), 0);
    reg.record(0x1D, 1);
    reg.record(0x1D, 1);
    assert_eq!(reg.len(), 1);
    assert!(reg.contains(0x1D, 1));
}

#[test]
fn same_code_on_two_devices_is_two_entries() {
    let mut reg = PendingRegistry::new();
    reg.record(0x1D, 1);
    reg.record(0x1D, 2);
    assert_eq!(reg.len(), 2);
    assert!(reg.contains(0x1D, 1));
    assert!(reg.contains(0x1D, 2));
    assert!(!reg.contains(0x01, 1));
}

#[test]
fn release_removes_only_the_pair() {
    let mut reg = PendingRegistry::new();
    reg.record(0x01, 1);
    reg.record(0x1D, 1);
    reg.release(0x01, 1);
    assert!(!reg.contains(0x01, 1));
    assert!(reg.contains(0x1D, 1));
    assert_eq!(reg.len(), 1);
}

#[test]
fn release_of_absent_pair_is_noop() {
    let mut reg = PendingRegistry::new();
    reg.record(0x1D, 1);
    reg.release(0x1D, 9);
    assert_eq!(reg.len(), 1);
    assert!(reg.contains(0x1D, 1));
}

#[test]
fn entries_keep_insertion_order() {
    let mut reg = PendingRegistry::new();
    reg.record(0x01, 2);
    reg.record(0x1D, 1);
    assert_eq!(reg.get(0), (0x01, 2));
    assert_eq!(reg.get(1), (0x1D, 1));
}

#[test]
fn clear_empties_the_registry() {
    let mut reg = PendingRegistry::new();
    reg.record(0x01, 1);
    reg.record(0x1D, 2);
    reg.clear();
    assert_eq!(reg.len(), 0);
    assert!(!reg.contains(0x01, 1));
}

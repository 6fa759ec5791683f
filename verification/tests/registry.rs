use render_core::arena::Registry;
use render_core::handle::Handle;

#[test]
fn insert_then_get_resolves() {
    let mut registry: Registry<u32> = Registry::new();
    let a = registry.insert(10);
    let b = registry.insert(20);
    assert_ne!(a, b);
    assert_eq!(registry.get(a), Some(&10));
    assert_eq!(registry.get(b), Some(&20));
    assert_eq!(registry.len(), 2);
    assert!(registry.contains(a));
}

#[test]
fn removed_handle_stays_absent_after_slot_reuse() {
    let mut registry: Registry<&'static str> = Registry::new();
    let first = registry.insert("first");
    assert_eq!(registry.remove(first), Some("first"));
    assert_eq!(registry.get(first), None);
    let second = registry.insert("second");
    assert_eq!(second.index, first.index);
    assert_ne!(second.generation, first.generation);
    assert_eq!(registry.get(first), None);
    assert!(!registry.contains(first));
    assert_eq!(registry.get(second), Some(&"second"));
    assert_eq!(registry.remove(first), None);
    assert_eq!(registry.get(second), Some(&"second"));
}

#[test]
fn remove_moves_last_row_into_gap() {
    let mut registry: Registry<u32> = Registry::new();
    let a = registry.insert(1);
    let b = registry.insert(2);
    let c = registry.insert(3);
    assert_eq!(registry.handle_at(0), Some(a));
    assert_eq!(registry.handle_at(1), Some(b));
    assert_eq!(registry.handle_at(2), Some(c));
    assert_eq!(registry.remove(a), Some(1));
    assert_eq!(registry.len(), 2);
    assert_eq!(registry.handle_at(0), Some(c));
    assert_eq!(registry.handle_at(1), Some(b));
    assert_eq!(registry.get(b), Some(&2));
    assert_eq!(registry.get(c), Some(&3));
    assert_eq!(registry.remove(c), Some(3));
    assert_eq!(registry.handle_at(0), Some(b));
    assert_eq!(registry.get(b), Some(&2));
}

#[test]
fn get_mut_changes_only_its_value() {
    let mut registry: Registry<u32> = Registry::new();
    let a = registry.insert(1);
    let b = registry.insert(2);
    if let Some(value) = registry.get_mut(a) {
        *value = 7;
    }
    assert_eq!(registry.get(a), Some(&7));
    assert_eq!(registry.get(b), Some(&2));
    assert!(registry.get_mut(Handle::from_raw_parts(9, 0)).is_none());
}

#[test]
fn unknown_handle_is_absent() {
    let registry: Registry<u32> = Registry::new();
    assert_eq!(registry.get(Handle::from_raw_parts(0, 0)), None);
    assert_eq!(Handle::from_raw_parts(3, 4).into_raw_parts(), (3, 4));
}

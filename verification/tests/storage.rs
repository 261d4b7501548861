use navagfx_engine::assets::AssetHandle;
use navagfx_engine::assets::AssetsStorage;

#[test]
fn new_storage_is_empty() {
    let storage: AssetsStorage<String> = AssetsStorage::new();
    assert_eq!(storage.len(), 0);
    assert!(!storage.is_full());
}

#[test]
fn ids_are_issued_in_sequence_from_zero() {
    let mut storage = AssetsStorage::new();
    let first = storage.store_asset("a");
    let second = storage.store_asset("b");
    let third = storage.store_asset("c");
    assert_eq!(first.id(), 0);
    assert_eq!(second.id(), 1);
    assert_eq!(third.id(), 2);
    assert_eq!(storage.len(), 3);
}

#[test]
fn store_then_get_yields_the_stored_value() {
    let mut storage = AssetsStorage::new();
    let handle = storage.store_asset(vec![1u8, 2, 3]);
    assert_eq!(storage.get_asset(handle), &vec![1u8, 2, 3]);
    assert_eq!(storage.find_asset(handle), Some(&vec![1u8, 2, 3]));
}

#[test]
fn earlier_handles_keep_their_values() {
    let mut storage = AssetsStorage::new();
    let first = storage.store_asset(10u64);
    let second = storage.store_asset(20u64);
    for extra in 0..50u64 {
        storage.store_asset(extra);
    }
    assert_eq!(*storage.get_asset(first), 10);
    assert_eq!(*storage.get_asset(second), 20);
}

#[test]
fn a_handle_of_another_storage_may_be_absent() {
    let mut large = AssetsStorage::new();
    large.store_asset(1u8);
    let handle = large.store_asset(2u8);
    let mut small = AssetsStorage::new();
    small.store_asset(7u8);
    assert!(large.contains(handle));
    assert!(!small.contains(handle));
    assert_eq!(small.find_asset(handle), None);
}

#[test]
fn handles_are_copied_and_compared_by_id() {
    let mut storage = AssetsStorage::new();
    let first: AssetHandle<char> = storage.store_asset('x');
    let second = storage.store_asset('y');
    let copy = first;
    let clone = first.clone();
    assert!(copy == first);
    assert!(clone == first);
    assert!(first != second);
    assert_eq!(format!("{:?}", first).contains("0"), true);
}

#[test]
fn handles_do_not_need_the_asset_to_be_comparable() {
    struct Opaque;
    let mut storage = AssetsStorage::new();
    let first = storage.store_asset(Opaque);
    let second = storage.store_asset(Opaque);
    assert!(first == first);
    assert!(first != second);
}

#[test]
fn handles_are_hashed_by_id() {
    let mut storage = AssetsStorage::new();
    let first = storage.store_asset(7u8);
    let second = storage.store_asset(7u8);
    let mut seen = std::collections::HashSet::new();
    assert!(seen.insert(first));
    assert!(seen.insert(second));
    assert!(!seen.insert(first));
    assert_eq!(seen.len(), 2);
    let mut by_key = std::collections::HashMap::new();
    by_key.insert((first, -3i32), "behind");
    by_key.insert((first, 0i32), "front");
    assert_eq!(by_key.get(&(first, -3)), Some(&"behind"));
    assert_eq!(by_key.get(&(second, 0)), None);
}

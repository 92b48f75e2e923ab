use swap_pool::pool::SwapPool;

fn bytes(n: usize, fill: u8) -> Vec<u8> {
    vec![fill; n]
}

#[test]
fn spawn_within_budget_stays_hot() {
    // Budget 128, one 128-byte value: hot, used 128, available 0.
    let mut pool: SwapPool<Vec<u8>, _, _> = SwapPool::new(128, "pool".to_string());
    let id = pool.spawn_named("v", bytes(128, 7)).unwrap();
    let e = pool.handle().entities()[id].as_ref().unwrap();
    assert!(e.is_hot());
    assert!(!e.is_cold());
    assert_eq!(pool.handle().used(), 128);
    assert_eq!(pool.handle().available(), 0);
}

#[test]
fn spawn_evicts_older_entity() {
    // Budget 128: a 128-byte value, then a 64-byte one. The second
    // spawn forces the first entity to its file.
    let mut pool: SwapPool<Vec<u8>, _, _> = SwapPool::new(128, "pool".to_string());
    let id1 = pool.spawn_named("v1", bytes(128, 1)).unwrap();
    let id2 = pool.spawn_named("v2", bytes(64, 2)).unwrap();
    let e1 = pool.handle().entities()[id1].as_ref().unwrap();
    let e2 = pool.handle().entities()[id2].as_ref().unwrap();
    assert!(e1.file_exists());
    assert!(e1.is_cold());
    assert!(e2.is_hot());
    assert_eq!(pool.handle().used(), 64);
}

#[test]
fn value_unallocate_leaves_entity_cold() {
    // Budget 128, one hot 128-byte value: a one-shot read returns the
    // bytes, demotes the entity, and leaves the file in place.
    let mut pool: SwapPool<Vec<u8>, _, _> = SwapPool::new(128, "pool".to_string());
    let id = pool.spawn_named("v1", bytes(128, 3)).unwrap();
    let v = pool.handle_mut().value_unallocate(id).unwrap();
    assert_eq!(v, bytes(128, 3));
    let e = pool.handle().entities()[id].as_ref().unwrap();
    assert!(e.is_cold());
    assert!(e.file_exists());
    assert_eq!(pool.handle().used(), 0);
}

#[test]
fn update_to_smaller_value_succeeds() {
    // A replacement no larger than the old value is admitted: the
    // entity is hot with the new value and its file is gone.
    let mut pool: SwapPool<Vec<u8>, _, _> = SwapPool::new(128, "pool".to_string());
    let id = pool.spawn_named("v", bytes(64, 4)).unwrap();
    let ok = pool.handle_mut().update(id, bytes(32, 5)).unwrap();
    assert!(ok);
    let e = pool.handle().entities()[id].as_ref().unwrap();
    assert!(e.is_hot());
    assert!(!e.file_exists());
    assert_eq!(pool.handle_mut().value(id).unwrap(), bytes(32, 5));
}

#[test]
fn update_past_budget_fails_and_keeps_file() {
    // Budget 64, two 32-byte values. Updating one to 128 bytes cannot
    // fit; the update reports false and the old bytes stay on file.
    let mut pool: SwapPool<Vec<u8>, _, _> = SwapPool::new(64, "pool".to_string());
    let id1 = pool.spawn_named("v", bytes(32, 6)).unwrap();
    let _id2 = pool.spawn_named("w", bytes(32, 7)).unwrap();
    let ok = pool.handle_mut().update(id1, bytes(128, 8)).unwrap();
    assert!(!ok);
    let e1 = pool.handle().entities()[id1].as_ref().unwrap();
    assert!(e1.is_cold());
    assert!(e1.file_exists());
    assert_eq!(e1.file().as_ref().unwrap(), &bytes(32, 6));
}

#[test]
fn dropped_entity_loses_its_file() {
    // Dropping the entity spawned as "x" removes folder/x.
    let mut pool: SwapPool<Vec<u8>, _, _> = SwapPool::new(16, "folder".to_string());
    let id = pool.spawn_named("x", bytes(64, 9)).unwrap();
    let path = "folder/x".to_string();
    assert!(pool.handle().has_path(&path));
    pool.handle_mut().drop_entity(id);
    assert!(pool.handle().entities()[id].is_none());
    assert!(!pool.handle().has_path(&path));
}

#[test]
fn spawn_derives_hex_name_from_value() {
    let mut pool: SwapPool<Vec<u8>, _, _> = SwapPool::new(128, "pool".to_string());
    let payload = bytes(16, 11);
    let id = pool.spawn(payload.clone()).unwrap();
    let expected = format!(
        "pool/{}.swap",
        swap_pool::uuid::to_hex(swap_pool::uuid::get(payload.as_slice()))
    );
    let e = pool.handle().entities()[id].as_ref().unwrap();
    assert_eq!(e.path(), &expected);
}

#[test]
fn spawn_same_value_twice_refuses_collision() {
    let mut pool: SwapPool<Vec<u8>, _, _> = SwapPool::new(128, "pool".to_string());
    pool.spawn(bytes(8, 12)).unwrap();
    let second = pool.spawn(bytes(8, 12));
    assert_eq!(second, Err(swap_pool::error::SwapError::Io));
}

#[test]
fn spawn_from_file_adopts_cold_entity() {
    let mut pool: SwapPool<Vec<u8>, _, _> = SwapPool::new(64, "pool".to_string());
    let id = pool
        .spawn_from_file("pool/old.swap".to_string(), bytes(32, 9))
        .unwrap();
    let e = pool.handle().entities()[id].as_ref().unwrap();
    assert!(e.is_cold());
    assert!(e.file_exists());
    assert_eq!(e.file().as_ref().unwrap(), &bytes(32, 9));
    assert_eq!(e.uuid(), swap_pool::uuid::get("pool/old.swap".as_bytes()));
    assert_eq!(pool.handle().used(), 0);
    assert_eq!(pool.handle_mut().value(id).unwrap(), bytes(32, 9));
    assert!(pool.handle().entities()[id].as_ref().unwrap().is_hot());
}

#[test]
fn builder_configures_the_pool() {
    let mut pool = SwapPool::<Vec<u8>, swap_pool::manager::SwapUpgradeCountManager, swap_pool::transformer::SwapIdentityTransformer>::builder()
        .with_manager(swap_pool::manager::SwapUpgradeCountManager::new(true))
        .with_transformer(swap_pool::transformer::SwapIdentityTransformer)
        .with_thread_safe(false)
        .build(256, "b".to_string());
    assert_eq!(pool.handle().allocated(), 256);
    let id = pool.spawn_named("v", bytes(10, 1)).unwrap();
    assert!(pool.handle().entities()[id].as_ref().unwrap().is_hot());
}

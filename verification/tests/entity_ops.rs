use swap_pool::entity::SwapEntity;
use swap_pool::pool::SwapPool;
use swap_pool::transformer::SwapIdentityTransformer;
use swap_pool::value::SwapValue;

fn bytes(n: usize, fill: u8) -> Vec<u8> {
    vec![fill; n]
}

#[test]
fn create_within_budget_is_hot_without_file() {
    let e: SwapEntity<Vec<u8>> =
        SwapEntity::create(bytes(8, 1), 8, "p/a".to_string(), true, &SwapIdentityTransformer)
            .unwrap();
    assert!(e.is_hot());
    assert!(!e.file_exists());
}

#[test]
fn create_past_budget_writes_file_and_is_cold() {
    let e: SwapEntity<Vec<u8>> =
        SwapEntity::create(bytes(8, 2), 7, "p/b".to_string(), true, &SwapIdentityTransformer)
            .unwrap();
    assert!(e.is_cold());
    assert!(e.file_exists());
    assert_eq!(e.file().as_ref().unwrap(), &bytes(8, 2));
}

#[test]
fn exactly_one_of_hot_and_cold_holds() {
    let x = SwapIdentityTransformer;
    let mut e: SwapEntity<Vec<u8>> =
        SwapEntity::create(bytes(4, 3), 4, "p/c".to_string(), true, &x).unwrap();
    assert!(e.is_hot() != e.is_cold());
    e.flush(&x).unwrap();
    assert!(e.is_hot() != e.is_cold());
    assert!(e.file_exists());
}

#[test]
fn round_trip_through_flush_returns_the_value() {
    // create, flush, value: the bytes that went in come back.
    let mut pool: SwapPool<Vec<u8>, _, _> = SwapPool::new(128, "pool".to_string());
    let id = pool.spawn_named("v", bytes(100, 4)).unwrap();
    pool.handle_mut().flush().unwrap();
    assert!(pool.handle().entities()[id].as_ref().unwrap().is_cold());
    let v = pool.handle_mut().value(id).unwrap();
    assert_eq!(v, bytes(100, 4));
}

#[test]
fn flush_twice_is_flush_once() {
    let x = SwapIdentityTransformer;
    let mut e: SwapEntity<Vec<u8>> =
        SwapEntity::create(bytes(6, 5), 6, "p/d".to_string(), true, &x).unwrap();
    e.flush(&x).unwrap();
    let cold_once = e.is_cold();
    let file_once = e.file().clone();
    e.flush(&x).unwrap();
    assert_eq!(e.is_cold(), cold_once);
    assert_eq!(e.file(), &file_once);
}

#[test]
fn value_allocate_forces_hot_past_budget() {
    let mut pool: SwapPool<Vec<u8>, _, _> = SwapPool::new(16, "pool".to_string());
    let id = pool.spawn_named("big", bytes(64, 6)).unwrap();
    assert!(pool.handle().entities()[id].as_ref().unwrap().is_cold());
    let v = pool.handle_mut().value_allocate(id).unwrap();
    assert_eq!(v, bytes(64, 6));
    let e = pool.handle().entities()[id].as_ref().unwrap();
    assert!(e.is_hot());
    assert!(e.file_exists());
    assert_eq!(pool.handle().used(), 64);
}

#[test]
fn value_stays_cold_when_nothing_can_be_evicted() {
    // One oversized entity: reading it hands the bytes out but cannot
    // promote it, and the backing file stays.
    let mut pool: SwapPool<Vec<u8>, _, _> = SwapPool::new(16, "pool".to_string());
    let id = pool.spawn_named("big", bytes(64, 7)).unwrap();
    let v = pool.handle_mut().value(id).unwrap();
    assert_eq!(v, bytes(64, 7));
    let e = pool.handle().entities()[id].as_ref().unwrap();
    assert!(e.is_cold());
    assert!(e.file_exists());
    assert_eq!(pool.handle().used(), 0);
}

#[test]
fn value_promotes_cold_entity_that_fits() {
    let mut pool: SwapPool<Vec<u8>, _, _> = SwapPool::new(64, "pool".to_string());
    let id = pool.spawn_named("v", bytes(48, 8)).unwrap();
    pool.handle_mut().flush().unwrap();
    let v = pool.handle_mut().value(id).unwrap();
    assert_eq!(v, bytes(48, 8));
    assert!(pool.handle().entities()[id].as_ref().unwrap().is_hot());
    assert_eq!(pool.handle().used(), 48);
}

#[test]
fn replace_removes_file_and_stores_value() {
    let x = SwapIdentityTransformer;
    let mut e: SwapEntity<Vec<u8>> =
        SwapEntity::create(bytes(6, 9), 6, "p/e".to_string(), true, &x).unwrap();
    e.flush(&x).unwrap();
    assert!(e.file_exists());
    e.replace(bytes(3, 10)).unwrap();
    assert!(e.is_hot());
    assert!(!e.file_exists());
    assert_eq!(e.value_size().unwrap(), 3);
}

#[test]
fn value_size_reports_memory_or_file() {
    let x = SwapIdentityTransformer;
    let mut e: SwapEntity<Vec<u8>> =
        SwapEntity::create(bytes(5, 11), 5, "p/f".to_string(), true, &x).unwrap();
    assert_eq!(e.value_size().unwrap(), 5);
    e.flush(&x).unwrap();
    assert_eq!(e.value_size().unwrap(), 5);
}

#[test]
fn entity_uuid_follows_its_path() {
    let x = SwapIdentityTransformer;
    let a: SwapEntity<Vec<u8>> =
        SwapEntity::create(bytes(1, 1), 1, "p/same".to_string(), true, &x).unwrap();
    let b: SwapEntity<Vec<u8>> =
        SwapEntity::create(bytes(2, 2), 2, "p/same".to_string(), true, &x).unwrap();
    let c: SwapEntity<Vec<u8>> =
        SwapEntity::create(bytes(1, 1), 1, "p/other".to_string(), true, &x).unwrap();
    assert_eq!(a.uuid(), b.uuid());
    assert_ne!(a.uuid(), c.uuid());
    assert_eq!(a.uuid(), swap_pool::uuid::get("p/same".as_bytes()));
}

#[test]
fn codec_for_bytes_is_identity() {
    let v = bytes(9, 12);
    let enc = v.encode().unwrap();
    assert_eq!(enc, v);
    let dec: Vec<u8> = <Vec<u8> as SwapValue>::decode(enc).unwrap();
    assert_eq!(dec, v);
    assert_eq!(v.clone_value(), v);
}

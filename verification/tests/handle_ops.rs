use swap_pool::manager::{SwapManager, SwapUpgradeCountManager};
use swap_pool::pool::SwapPool;

fn bytes(n: usize, fill: u8) -> Vec<u8> {
    vec![fill; n]
}

fn counting_pool(budget: usize) -> SwapPool<Vec<u8>, SwapUpgradeCountManager, swap_pool::transformer::SwapIdentityTransformer> {
    SwapPool::<Vec<u8>, SwapUpgradeCountManager, swap_pool::transformer::SwapIdentityTransformer>::builder()
        .with_manager(SwapUpgradeCountManager::new(true))
        .build(budget, "pool".to_string())
}

#[test]
fn free_reclaims_enough_and_respects_budget() {
    // Force the pool over budget, then ask free for the overshoot:
    // afterwards used() is back within the budget.
    let mut pool = counting_pool(64);
    let a = pool.spawn_named("a", bytes(40, 1)).unwrap();
    let b = pool.spawn_named("b", bytes(40, 2)).unwrap();
    pool.handle_mut().value_allocate(a).unwrap();
    pool.handle_mut().value_allocate(b).unwrap();
    assert_eq!(pool.handle().used(), 80);
    let overshoot = pool.handle().used() - pool.handle().allocated();
    let freed = pool.handle_mut().free(overshoot).unwrap();
    assert!(freed);
    assert!(pool.handle().used() <= pool.handle().allocated());
}

#[test]
fn free_returns_false_when_nothing_hot_remains() {
    let mut pool = counting_pool(64);
    pool.spawn_named("a", bytes(16, 1)).unwrap();
    pool.spawn_named("b", bytes(16, 2)).unwrap();
    let freed = pool.handle_mut().free(1000).unwrap();
    assert!(!freed);
    assert_eq!(pool.handle().used(), 0);
}

#[test]
fn free_zero_succeeds_without_evicting() {
    let mut pool = counting_pool(64);
    pool.spawn_named("a", bytes(16, 1)).unwrap();
    assert!(pool.handle_mut().free(0).unwrap());
    assert_eq!(pool.handle().used(), 16);
}

#[test]
fn free_evicts_lowest_ranked_first() {
    let mut pool = counting_pool(200);
    let a = pool.spawn_named("a", bytes(10, 1)).unwrap();
    let b = pool.spawn_named("b", bytes(10, 2)).unwrap();
    let c = pool.spawn_named("c", bytes(10, 3)).unwrap();
    // Raise the ranks of b and c; a stays at one upgrade.
    pool.handle_mut().value_allocate(b).unwrap();
    pool.handle_mut().value_allocate(c).unwrap();
    assert!(pool.handle_mut().free(10).unwrap());
    assert!(pool.handle().entities()[a].as_ref().unwrap().is_cold());
    assert!(pool.handle().entities()[b].as_ref().unwrap().is_hot());
    assert!(pool.handle().entities()[c].as_ref().unwrap().is_hot());
}

#[test]
fn flush_makes_every_entity_cold() {
    let mut pool = counting_pool(100);
    pool.spawn_named("a", bytes(10, 1)).unwrap();
    pool.spawn_named("b", bytes(20, 2)).unwrap();
    pool.handle_mut().flush().unwrap();
    assert_eq!(pool.handle().used(), 0);
    for slot in pool.handle().entities() {
        let e = slot.as_ref().unwrap();
        assert!(e.is_cold());
        assert!(e.file_exists());
    }
}

#[test]
fn pool_flush_twice_changes_nothing() {
    let mut pool = counting_pool(100);
    pool.spawn_named("a", bytes(10, 1)).unwrap();
    pool.handle_mut().flush().unwrap();
    let file_before = pool.handle().entities()[0].as_ref().unwrap().file().clone();
    pool.handle_mut().flush().unwrap();
    assert_eq!(pool.handle().used(), 0);
    assert_eq!(pool.handle().entities()[0].as_ref().unwrap().file(), &file_before);
}

#[test]
fn collect_garbage_prunes_dropped_entities() {
    let mut pool = counting_pool(100);
    let a = pool.spawn_named("a", bytes(10, 1)).unwrap();
    let b = pool.spawn_named("b", bytes(20, 2)).unwrap();
    pool.handle_mut().drop_entity(a);
    assert_eq!(pool.handle().entities().len(), 2);
    pool.handle_mut().collect_garbage();
    assert_eq!(pool.handle().entities().len(), 1);
    assert_eq!(pool.handle().used(), 20);
    let survivor = pool.handle().entities()[0].as_ref().unwrap();
    assert_eq!(survivor.path(), &"pool/b".to_string());
    let _ = b;
}

#[test]
fn ranks_upgrade_and_read_back() {
    let mut pool = counting_pool(100);
    let a = pool.spawn_named("a", bytes(10, 1)).unwrap();
    let uuid = pool.handle().entities()[a].as_ref().unwrap().uuid();
    // One upgrade happened at registration.
    assert_eq!(pool.handle().rank_entity(uuid), 1);
    let r = pool.handle_mut().upgrade_entity(uuid);
    assert_eq!(r, 2);
    assert!(pool.handle().rank_entity(uuid) >= r);
    // A uuid never upgraded ranks at zero.
    assert_eq!(pool.handle().rank_entity(uuid.wrapping_add(1)), 0);
}

#[test]
fn reads_bump_ranks_but_one_shot_reads_do_not() {
    let mut pool = counting_pool(100);
    let a = pool.spawn_named("a", bytes(10, 1)).unwrap();
    let uuid = pool.handle().entities()[a].as_ref().unwrap().uuid();
    pool.handle_mut().value(a).unwrap();
    assert_eq!(pool.handle().rank_entity(uuid), 2);
    pool.handle_mut().value_unallocate(a).unwrap();
    assert_eq!(pool.handle().rank_entity(uuid), 2);
    pool.handle_mut().value_allocate(a).unwrap();
    assert_eq!(pool.handle().rank_entity(uuid), 3);
}

#[test]
fn upgrade_count_manager_counts() {
    let mut m = SwapUpgradeCountManager::new(false);
    assert_eq!(m.rank(9), 0);
    assert_eq!(m.upgrade(9), 1);
    assert_eq!(m.upgrade(9), 2);
    assert_eq!(m.rank(9), 2);
    assert_eq!(m.rank(10), 0);
}

#[test]
fn last_use_manager_reports_upgrade_time() {
    let mut m = swap_pool::manager::SwapLastUseManager::new(true);
    assert_eq!(m.rank(4), 0);
    let r = m.upgrade(4);
    assert_eq!(m.rank(4), r);
}

#[test]
fn has_path_sees_live_entities_only() {
    let mut pool = counting_pool(100);
    let a = pool.spawn_named("a", bytes(10, 1)).unwrap();
    assert!(pool.handle().has_path(&"pool/a".to_string()));
    assert!(!pool.handle().has_path(&"pool/z".to_string()));
    pool.handle_mut().drop_entity(a);
    assert!(!pool.handle().has_path(&"pool/a".to_string()));
}

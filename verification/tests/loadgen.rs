use qubit::loadgen::{request_url, ConfigMapAction, ConfigMapPool, Stats};

#[test]
fn stats_count_and_wrap() {
    let mut s = Stats::default();
    s.ok();
    s.ok();
    s.err();
    assert_eq!(s.snapshot(), (2, 1));
    let fresh = Stats::new();
    assert_eq!(fresh.snapshot(), (0, 0));
}

#[test]
fn pool_cycles_create_patch_delete() {
    let mut pool = ConfigMapPool::new();
    match pool.next_action(0) {
        ConfigMapAction::Create(name) => {
            assert_eq!(name, "load-gen-0");
            pool.created(name);
        }
        _ => panic!("an empty pool creates"),
    }
    match pool.next_action(3) {
        ConfigMapAction::Patch(name, value) => {
            assert_eq!(name, "load-gen-0");
            assert_eq!(value, "3");
        }
        _ => panic!("tick 3 patches"),
    }
    match pool.next_action(6) {
        ConfigMapAction::Create(name) => {
            assert_eq!(name, "load-gen-6");
            pool.created(name);
        }
        _ => panic!("tick 6 creates under the cap"),
    }
    match pool.next_action(8) {
        ConfigMapAction::Delete(name) => assert_eq!(name, "load-gen-0"),
        _ => panic!("tick 8 deletes"),
    }
    assert_eq!(pool.names(), &vec!["load-gen-6".to_string()]);
}

#[test]
fn pool_at_capacity_patches_instead_of_creating() {
    let mut pool = ConfigMapPool::new();
    for i in 0..50 {
        pool.created(format!("cm-{}", i));
    }
    match pool.next_action(17) {
        ConfigMapAction::Patch(name, value) => {
            assert_eq!(name, "cm-17");
            assert_eq!(value, "17");
        }
        _ => panic!("a full pool patches at tick 17"),
    }
}

#[test]
fn urls_cycle_through_paths() {
    assert_eq!(request_url("http://svc/", 0), "http://svc/");
    assert_eq!(request_url("http://svc///", 1), "http://svc/api/v1/users");
    assert_eq!(request_url("http://svc", 2), "http://svc/api/v1/orders");
    assert_eq!(request_url("http://svc", 3), "http://svc/api/v1/status");
    assert_eq!(request_url("http://svc", 9), "http://svc/metrics");
    assert_eq!(request_url("", 5), "/");
}

#[test]
fn settle_records_created_configmaps_and_counts() {
    let mut pool = ConfigMapPool::new();
    let mut stats = Stats::new();
    let action = pool.next_action(0);
    pool.settle(&action, false, &mut stats);
    assert!(pool.names().is_empty());
    assert_eq!(stats.snapshot(), (0, 1));
    let action = pool.next_action(1);
    pool.settle(&action, true, &mut stats);
    assert_eq!(pool.names(), &vec!["load-gen-1".to_string()]);
    assert_eq!(stats.snapshot(), (1, 1));
    let action = pool.next_action(2);
    pool.settle(&action, true, &mut stats);
    assert_eq!(pool.names(), &vec!["load-gen-1".to_string()]);
    assert_eq!(stats.snapshot(), (2, 1));
}

#[test]
fn pool_never_exceeds_fifty() {
    let mut pool = ConfigMapPool::new();
    let mut stats = Stats::new();
    for tick in 0..2000u64 {
        let action = pool.next_action(tick);
        pool.settle(&action, tick % 9 != 4, &mut stats);
        assert!(pool.names().len() <= 50);
    }
    assert_eq!(stats.snapshot().0 + stats.snapshot().1, 2000);
}

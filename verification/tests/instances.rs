use corewar::battle::BattleInstanceStatus;
use corewar::instances::{BattleInstance, InstanceManager};

fn names(list: &[&str]) -> Vec<String> {
    list.iter().map(|s| s.to_string()).collect()
}

#[test]
fn instances_get_sequential_ids() {
    let mut manager = InstanceManager::new();
    assert_eq!(manager.create_instance(names(&["imp", "dwarf"])), "battle-1");
    assert_eq!(manager.create_instance(names(&["imp", "mice"])), "battle-2");
    assert_eq!(manager.opened_count(), 2);

    let second = manager.get("battle-2").unwrap();
    assert_eq!(second.id(), "battle-2");
    assert_eq!(second.warrior_ids(), names(&["imp", "mice"]).as_slice());
    assert_eq!(second.status(), BattleInstanceStatus::Pending);
    assert!(manager.get("battle-3").is_none());
}

#[test]
fn instances_list_in_string_order() {
    let mut manager = InstanceManager::new();
    for _ in 0..11 {
        manager.create_instance(Vec::new());
    }
    let ids: Vec<String> = manager.list().iter().map(|i| i.id().to_string()).collect();
    assert_eq!(
        ids,
        names(&[
            "battle-1", "battle-10", "battle-11", "battle-2", "battle-3", "battle-4", "battle-5",
            "battle-6", "battle-7", "battle-8", "battle-9",
        ])
    );
}

#[test]
fn instance_status_follows_the_battle() {
    let mut manager = InstanceManager::new();
    manager.create_instance(names(&["a", "b"]));
    manager.create_instance(names(&["c", "d"]));
    assert!(manager.set_status("battle-1", BattleInstanceStatus::Running));
    assert_eq!(manager.get("battle-1").unwrap().status(), BattleInstanceStatus::Running);
    assert_eq!(manager.get("battle-2").unwrap().status(), BattleInstanceStatus::Pending);
    assert!(!manager.set_status("battle-9", BattleInstanceStatus::Complete));

    let mut single = BattleInstance::new("solo".to_string(), names(&["x"]));
    single.set_status(BattleInstanceStatus::Complete);
    assert_eq!(single.status(), BattleInstanceStatus::Complete);
    assert_eq!(single.copy().id(), "solo");
}

use corewar::registry::SubscriptionRegistry;
use corewar::snapshot::{instruction_listing, snapshot_from_setup, BattleSetup, LoadedWarrior};
use corewar::{AddressingMode, Instruction, Modifier, Opcode};

#[test]
fn empty_cell_lists_as_default_dat() {
    assert_eq!(instruction_listing(&Instruction::default_dat()), "DAT.F $0, $0");
}

#[test]
fn listing_shows_modes_and_signed_values() {
    let mov = Instruction::new(
        Opcode::MOV,
        Modifier::I,
        AddressingMode::Direct,
        0,
        AddressingMode::Direct,
        1,
    );
    assert_eq!(instruction_listing(&mov), "MOV.I $0, $1");
    let spl = Instruction::new(
        Opcode::SPL,
        Modifier::B,
        AddressingMode::Immediate,
        -7,
        AddressingMode::IndirectB,
        12,
    );
    assert_eq!(instruction_listing(&spl), "SPL.B #-7, @12");
}

#[test]
fn snapshot_places_warriors_and_wraps_around() {
    let imp = Instruction::new(
        Opcode::MOV,
        Modifier::I,
        AddressingMode::Direct,
        0,
        AddressingMode::Direct,
        1,
    );
    let setup = BattleSetup {
        core_size: 4,
        warriors: vec![
            LoadedWarrior { warrior_id: 1, start: 1, instructions: vec![imp] },
            LoadedWarrior { warrior_id: 2, start: 3, instructions: vec![imp, imp] },
        ],
    };
    let cells = snapshot_from_setup(&setup);
    assert_eq!(cells.len(), 4);
    let owners: Vec<Option<u32>> = cells.iter().map(|c| c.owner).collect();
    assert_eq!(owners, vec![Some(2), Some(1), None, Some(2)]);
    for (i, cell) in cells.iter().enumerate() {
        assert_eq!(cell.address, i);
    }
    assert_eq!(cells[2].instruction_summary, "DAT.F $0, $0");
    assert_eq!(cells[0].instruction_summary, "MOV.I $0, $1");
}

#[test]
fn later_warrior_overwrites_shared_cell() {
    let dat = Instruction::new(
        Opcode::DAT,
        Modifier::F,
        AddressingMode::Immediate,
        5,
        AddressingMode::Immediate,
        5,
    );
    let setup = BattleSetup {
        core_size: 8,
        warriors: vec![
            LoadedWarrior { warrior_id: 1, start: 2, instructions: vec![dat, dat] },
            LoadedWarrior { warrior_id: 7, start: 3, instructions: vec![dat] },
        ],
    };
    let cells = snapshot_from_setup(&setup);
    assert_eq!(cells[2].owner, Some(1));
    assert_eq!(cells[3].owner, Some(7));
    assert_eq!(cells[3].instruction_summary, "DAT.F #5, #5");
}

#[test]
fn subscriptions_follow_clients() {
    let mut registry = SubscriptionRegistry::new();
    registry.add_client(1);
    registry.add_client(2);
    assert_eq!(registry.subscribe_client(1, "arena-1".to_string()), Ok(()));
    assert_eq!(registry.subscribe_client(2, "arena-1".to_string()), Ok(()));
    assert_eq!(registry.subscribe_client(2, "arena-2".to_string()), Ok(()));
    let mut followers = registry.subscribers_for("arena-1");
    followers.sort();
    assert_eq!(followers, vec![1, 2]);
    assert_eq!(registry.subscribers_for("arena-2"), vec![2]);

    registry.unsubscribe_client(2, "arena-1");
    assert_eq!(registry.subscribers_for("arena-1"), vec![1]);

    registry.remove_client(1);
    assert!(registry.subscribers_for("arena-1").is_empty());
    assert_eq!(registry.subscribers_for("arena-2"), vec![2]);
}

#[test]
fn unknown_client_cannot_subscribe() {
    let mut registry = SubscriptionRegistry::new();
    assert_eq!(
        registry.subscribe_client(9, "arena-1".to_string()),
        Err("unknown client: 9".to_string())
    );
    assert!(registry.subscribers_for("arena-1").is_empty());
}

#[test]
fn repeated_subscription_is_listed_once() {
    let mut registry = SubscriptionRegistry::new();
    registry.add_client(4);
    assert_eq!(registry.subscribe_client(4, "arena-1".to_string()), Ok(()));
    assert_eq!(registry.subscribe_client(4, "arena-1".to_string()), Ok(()));
    assert_eq!(registry.subscribers_for("arena-1"), vec![4]);
}

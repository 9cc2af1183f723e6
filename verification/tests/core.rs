use corewar::event::CoreEventKind;
use corewar::{
    AddressingMode, Core, CoreEvent, EventBus, EventFilter, Instruction, Modifier, Opcode,
    ProcessQueue, TimedEvent, Warrior,
};

#[test]
fn event_bus_records_and_drains_events() {
    let mut bus = EventBus::new();
    bus.set_cycle(7);
    bus.emit(CoreEvent::CycleComplete);
    bus.emit(CoreEvent::WarriorEliminated { warrior_id: 3 });

    assert_eq!(bus.len(), 2);
    assert!(!bus.is_empty());
    assert_eq!(
        bus.drain(),
        vec![
            TimedEvent {
                cycle: 7,
                event: CoreEvent::CycleComplete,
            },
            TimedEvent {
                cycle: 7,
                event: CoreEvent::WarriorEliminated { warrior_id: 3 },
            },
        ]
    );
    assert!(bus.is_empty());
}

#[test]
fn event_filter_matches_expected_kinds() {
    let filter = EventFilter::only(CoreEventKind::Execute).with_kind(CoreEventKind::Read);
    let instruction = Instruction::new(
        Opcode::MOV,
        Modifier::I,
        AddressingMode::Direct,
        0,
        AddressingMode::Direct,
        1,
    );

    assert!(filter.matches(&TimedEvent {
        cycle: 1,
        event: CoreEvent::Execute {
            address: 4,
            warrior_id: 2,
        },
    }));
    assert!(filter.matches(&TimedEvent {
        cycle: 1,
        event: CoreEvent::Read {
            address: 4,
            warrior_id: 2,
        },
    }));
    assert!(!filter.matches(&TimedEvent {
        cycle: 1,
        event: CoreEvent::MemoryWrite {
            address: 4,
            warrior_id: 2,
            instruction,
        },
    }));
}

#[test]
fn event_filters_all_and_none() {
    let all = EventFilter::all();
    let none = EventFilter::none();
    for kind in [
        CoreEventKind::Execute,
        CoreEventKind::Read,
        CoreEventKind::MemoryWrite,
        CoreEventKind::ProcessCreated,
        CoreEventKind::ProcessKilled,
        CoreEventKind::WarriorEliminated,
        CoreEventKind::CycleComplete,
    ] {
        assert!(all.matches_kind(kind));
        assert!(!none.matches_kind(kind));
        assert!(EventFilter::only(kind).matches_kind(kind));
    }
    assert!(!EventFilter::only(CoreEventKind::Read).matches_kind(CoreEventKind::Execute));
    assert!(EventFilter::default().matches_event(&CoreEvent::CycleComplete));
}

#[test]
fn events_report_kind_and_warrior() {
    let event = CoreEvent::ProcessCreated {
        warrior_id: 5,
        address: 9,
    };
    assert_eq!(event.kind(), CoreEventKind::ProcessCreated);
    assert_eq!(event.warrior_id(), Some(5));
    assert_eq!(CoreEvent::CycleComplete.warrior_id(), None);
}

#[test]
fn queue_is_fifo() {
    let mut queue = ProcessQueue::new();
    queue.push(10);
    queue.push(20);

    assert_eq!(queue.pop(), Some(10));
    assert_eq!(queue.pop(), Some(20));
    assert_eq!(queue.pop(), None);
}

#[test]
fn queue_reports_capacity_state() {
    let mut queue = ProcessQueue::new();
    assert!(queue.is_empty());
    assert!(!queue.is_full(2));

    queue.push(1);
    queue.push(2);

    assert_eq!(queue.len(), 2);
    assert!(queue.is_full(2));
}

#[test]
fn core_wraps_addresses_and_reports_writes() {
    let mut core = Core::new(8);
    let mut bus = EventBus::new();
    bus.set_cycle(3);
    let imp = Instruction::new(
        Opcode::MOV,
        Modifier::I,
        AddressingMode::Direct,
        0,
        AddressingMode::Direct,
        1,
    );
    assert_eq!(core.size(), 8);
    assert_eq!(*core.read(5), Instruction::default_dat());
    core.write(13, imp, 2, &mut bus);
    assert_eq!(*core.read(5), imp);
    assert_eq!(*core.read(21), imp);
    assert_eq!(
        bus.drain(),
        vec![TimedEvent {
            cycle: 3,
            event: CoreEvent::MemoryWrite {
                address: 5,
                warrior_id: 2,
                instruction: imp,
            },
        }]
    );
    core.load(9, imp);
    assert_eq!(core.as_slice()[1], imp);
    assert!(bus.is_empty());
}

#[test]
fn default_instruction_is_dat_f_zero() {
    let dat = Instruction::default();
    assert_eq!(
        dat,
        Instruction::new(
            Opcode::DAT,
            Modifier::F,
            AddressingMode::Direct,
            0,
            AddressingMode::Direct,
            0,
        )
    );
}

#[test]
fn warrior_reports_its_length() {
    let warrior = Warrior::new("Imp", vec![Instruction::default_dat()]);
    assert_eq!(warrior.name, "Imp");
    assert_eq!(warrior.author, "");
    assert_eq!(warrior.len(), 1);
    assert!(!warrior.is_empty());
    assert!(Warrior::new("empty", Vec::new()).is_empty());
}

#[test]
fn filters_are_equal_when_they_admit_the_same_kinds() {
    let kinds = [
        CoreEventKind::Execute,
        CoreEventKind::Read,
        CoreEventKind::MemoryWrite,
        CoreEventKind::ProcessCreated,
        CoreEventKind::ProcessKilled,
        CoreEventKind::WarriorEliminated,
        CoreEventKind::CycleComplete,
    ];
    for &a in &kinds {
        assert_eq!(EventFilter::all().with_kind(a), EventFilter::all());
        let once = EventFilter::none().with_kind(a);
        assert_eq!(once.with_kind(a), once);
        assert_eq!(once, EventFilter::only(a));
        for &b in &kinds {
            assert_eq!(
                EventFilter::only(CoreEventKind::Read).with_kind(a).with_kind(b),
                EventFilter::only(CoreEventKind::Read).with_kind(b).with_kind(a)
            );
        }
    }
    let mut every = EventFilter::none();
    for &k in &kinds {
        every = every.with_kind(k);
    }
    assert_eq!(every, EventFilter::all());
    assert_eq!(EventFilter::default(), EventFilter::all());
}

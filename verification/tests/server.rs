use corewar::protocol::InstanceStatus;
use corewar::server::{parse_log_level, LogLevel, PlaceholderOrchestrator};

#[test]
fn placeholder_starts_with_seed_arena() {
    let orchestrator = PlaceholderOrchestrator::default();
    let instances = orchestrator.list_instances();
    assert_eq!(instances.len(), 1);
    assert_eq!(instances[0].id, "arena-1");
    assert_eq!(instances[0].warrior_names, vec!["Imp", "Dwarf"]);
    assert_eq!(instances[0].core_size, 8000);
    assert_eq!(instances[0].status, InstanceStatus::Running);
}

#[test]
fn warriors_get_sequential_ids() {
    let mut orchestrator = PlaceholderOrchestrator::default();
    assert_eq!(orchestrator.load_warrior("MOV 0, 1"), Ok("warrior-1".to_string()));
    assert_eq!(orchestrator.load_warrior("DAT #0"), Ok("warrior-2".to_string()));
    assert_eq!(
        orchestrator.load_warrior("  \n\t"),
        Err("warrior source cannot be empty".to_string())
    );
    assert_eq!(orchestrator.load_warrior("JMP 0"), Ok("warrior-3".to_string()));
}

#[test]
fn tournaments_open_arenas_listed_by_id() {
    let mut orchestrator = PlaceholderOrchestrator::default();
    assert_eq!(
        orchestrator.start_tournament(Vec::new()),
        Err("at least one warrior id is required to start a tournament".to_string())
    );
    let started = orchestrator
        .start_tournament(vec!["warrior-1".to_string()])
        .unwrap();
    assert_eq!(started.id, "arena-2");
    assert_eq!(started.cycle, 0);
    for _ in 0..9 {
        orchestrator
            .start_tournament(vec!["warrior-2".to_string()])
            .unwrap();
    }
    let ids: Vec<String> = orchestrator
        .list_instances()
        .into_iter()
        .map(|i| i.id)
        .collect();
    assert_eq!(ids.len(), 11);
    assert_eq!(ids[0], "arena-1");
    assert_eq!(ids[1], "arena-10");
    assert_eq!(ids[2], "arena-11");
    assert_eq!(ids[3], "arena-2");
}

#[test]
fn toggling_pause_flips_status_and_counts_cycles() {
    let mut orchestrator = PlaceholderOrchestrator::default();
    let paused = orchestrator.toggle_pause("arena-1").unwrap();
    assert_eq!(paused.status, InstanceStatus::Paused);
    assert_eq!(paused.cycle, 1);
    let resumed = orchestrator.toggle_pause("arena-1").unwrap();
    assert_eq!(resumed.status, InstanceStatus::Running);
    assert_eq!(resumed.cycle, 2);
    assert_eq!(
        orchestrator.toggle_pause("arena-9"),
        Err("unknown instance: arena-9".to_string())
    );
}

#[test]
fn snapshots_show_sixteen_cells() {
    let orchestrator = PlaceholderOrchestrator::default();
    let cells = orchestrator.snapshot_for("arena-1").unwrap();
    assert_eq!(cells.len(), 16);
    assert_eq!(cells[3].address, 3);
    assert_eq!(cells[3].owner, Some(1));
    assert_eq!(cells[3].instruction_summary, "DAT #3");
    assert_eq!(cells[12].instruction_summary, "DAT #12");
    assert!(orchestrator.snapshot_for("arena-7").is_none());
}

#[test]
fn log_levels_parse_case_insensitively() {
    assert_eq!(parse_log_level("TRACE"), Ok(LogLevel::Trace));
    assert_eq!(parse_log_level("debug"), Ok(LogLevel::Debug));
    assert_eq!(parse_log_level("Info"), Ok(LogLevel::Info));
    assert_eq!(parse_log_level("warning"), Ok(LogLevel::Warn));
    assert_eq!(parse_log_level("WARN"), Ok(LogLevel::Warn));
    assert_eq!(parse_log_level("error"), Ok(LogLevel::Error));
    assert_eq!(
        parse_log_level("Loud"),
        Err("unsupported log level: loud".to_string())
    );
}

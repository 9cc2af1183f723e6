use corewar::protocol::{BattleResultMsg, CellInfo, ClientMessage, CycleEvent, WarriorInfo};
use corewar::sync::{StateSynchronizer, SyncMessage};
use corewar::viewer::{apply_snapshot, CoreState, Viewer};
use corewar::viz::{
    map_key, mouse_button, next_backoff, InputAction, KeyCode, MouseButton, PlaybackSpeed,
    INITIAL_BACKOFF_MS, MAX_BACKOFF_MS,
};

fn cell(address: usize, owner: Option<u32>, summary: &str) -> CellInfo {
    CellInfo { address, owner, instruction_summary: summary.to_string() }
}

fn warrior(id: u32, process_count: usize) -> WarriorInfo {
    WarriorInfo {
        id,
        name: format!("w{id}"),
        author: "anon".to_string(),
        process_count,
        color_index: id,
    }
}

#[test]
fn core_state_updates_heat_and_cycle() {
    let mut core = CoreState::new(4, 4);
    let lit = core.apply_events(&[CycleEvent::Write { address: 3, warrior_id: 7 }]);

    assert_eq!(core.current_cycle, 1);
    assert_eq!(core.cells[3].owner, Some(7));
    // The touched cell is the one the frontend lights up at full heat.
    assert_eq!(lit, vec![3]);
}

#[test]
fn core_state_starts_blank() {
    let core = CoreState::new(3, 2);
    assert_eq!(core.len(), 6);
    assert!(!core.is_empty());
    assert!(core.cells.iter().all(|c| c.owner.is_none() && c.last_access_cycle == 0));
    assert!(CoreState::new(0, 5).is_empty());
}

#[test]
fn events_replay_in_order_and_skip_outside_cells() {
    let mut core = CoreState::new(2, 2);
    let lit = core.apply_events(&[
        CycleEvent::Execute { address: 1, warrior_id: 2 },
        CycleEvent::Read { address: 0, warrior_id: 2 },
        CycleEvent::ProcessCreated { warrior_id: 3, address: 9 },
        CycleEvent::ProcessKilled { warrior_id: 2, address: 1 },
        CycleEvent::ProcessCreated { warrior_id: 3, address: 2 },
    ]);
    assert_eq!(lit, vec![1, 1, 2]);
    assert_eq!(core.cells[0].owner, None);
    assert_eq!(core.cells[0].last_access_cycle, 0);
    assert_eq!(core.cells[1].owner, None);
    assert_eq!(core.cells[1].last_access_cycle, 1);
    assert_eq!(core.cells[2].owner, Some(3));

    let lit = core.apply_events(&[]);
    assert!(lit.is_empty());
    assert_eq!(core.current_cycle, 2);
}

#[test]
fn cycle_counter_stops_at_its_maximum() {
    let mut core = CoreState::new(1, 1);
    core.current_cycle = u64::MAX;
    core.apply_events(&[CycleEvent::Write { address: 0, warrior_id: 1 }]);
    assert_eq!(core.current_cycle, u64::MAX);
    assert_eq!(core.cells[0].last_access_cycle, u64::MAX);
}

#[test]
fn snapshot_resets_the_grid() {
    let mut core = CoreState::new(2, 2);
    core.apply_events(&[CycleEvent::Write { address: 0, warrior_id: 5 }]);
    apply_snapshot(
        &mut core,
        &[cell(1, Some(2), "MOV.I $0, $1"), cell(7, Some(4), "DAT.F $0, $0"), cell(1, Some(3), "x")],
    );
    assert_eq!(core.current_cycle, 0);
    assert_eq!(core.cells[0].owner, None);
    assert_eq!(core.cells[1].owner, Some(3));
    assert!(core.cells.iter().all(|c| c.last_access_cycle == 0));
}

#[test]
fn viewer_counts_processes() {
    let mut viewer = Viewer::new(CoreState::new(4, 1));
    viewer.set_warriors(&[warrior(2, 1), warrior(1, 0)]);
    assert_eq!(viewer.process_overlay_entries(), vec![(1, 0), (2, 1)]);
    assert_eq!(viewer.warriors_alive(), 1);

    let lit = viewer.apply_cycle_events(&[
        CycleEvent::ProcessCreated { warrior_id: 1, address: 0 },
        CycleEvent::ProcessKilled { warrior_id: 2, address: 3 },
        CycleEvent::ProcessKilled { warrior_id: 2, address: 3 },
        CycleEvent::ProcessKilled { warrior_id: 9, address: 2 },
    ]);
    assert_eq!(lit, vec![0, 3, 3, 2]);
    assert_eq!(viewer.process_overlay_entries(), vec![(1, 1), (2, 0), (9, 0)]);
    assert_eq!(viewer.warriors_alive(), 1);
    assert_eq!(viewer.core_model().current_cycle, 1);
}

#[test]
fn alive_warriors_come_from_owners_before_counts_are_known() {
    let mut viewer = Viewer::new(CoreState::new(5, 1));
    assert_eq!(viewer.warriors_alive(), 0);
    viewer.apply_snapshot(&[cell(0, Some(4), "a"), cell(2, Some(6), "b"), cell(3, Some(4), "c")]);
    assert_eq!(viewer.infer_alive_warriors(), 2);
    assert_eq!(viewer.warriors_alive(), 2);
}

#[test]
fn selection_shows_listing_and_owner() {
    let mut viewer = Viewer::new(CoreState::new(3, 1));
    viewer.apply_snapshot(&[cell(1, Some(2), "SPL.B #0, $0")]);
    let info = viewer.selected_cell_info(Some(1)).unwrap();
    assert_eq!(info.address, 1);
    assert_eq!(info.instruction, "SPL.B #0, $0");
    assert_eq!(info.owner, Some(2));
    let blank = viewer.selected_cell_info(Some(0)).unwrap();
    assert_eq!(blank.instruction, "Unknown instruction");
    assert_eq!(blank.owner, None);
    assert!(viewer.selected_cell_info(Some(3)).is_none());
    assert!(viewer.selected_cell_info(None).is_none());

    viewer.apply_input_action(InputAction::SelectAddress(1));
    assert_eq!(viewer.selected_address(), Some(1));
}

#[test]
fn snapshot_clears_earlier_listings() {
    let mut viewer = Viewer::new(CoreState::new(2, 1));
    viewer.apply_snapshot(&[cell(0, Some(1), "first")]);
    viewer.apply_snapshot(&[cell(1, Some(1), "second")]);
    assert_eq!(viewer.selected_cell_info(Some(0)).unwrap().instruction, "Unknown instruction");
    assert_eq!(viewer.selected_cell_info(Some(0)).unwrap().owner, None);
    assert_eq!(viewer.selected_cell_info(Some(1)).unwrap().instruction, "second");
}

#[test]
fn input_actions_change_playback() {
    let mut viewer = Viewer::new(CoreState::new(1, 1));
    assert!(!viewer.is_paused());
    viewer.apply_input_action(InputAction::TogglePause);
    assert!(viewer.is_paused());
    viewer.apply_input_action(InputAction::TogglePause);
    assert!(!viewer.is_paused());
    viewer.apply_input_action(InputAction::IncreaseSpeed);
    viewer.apply_input_action(InputAction::IncreaseSpeed);
    assert_eq!(viewer.playback_speed(), PlaybackSpeed::X10);
    viewer.apply_input_action(InputAction::DecreaseSpeed);
    assert_eq!(viewer.playback_speed(), PlaybackSpeed::X2);
    viewer.apply_input_action(InputAction::FitAll);
    viewer.apply_input_action(InputAction::ResetView);
    assert_eq!(viewer.playback_speed(), PlaybackSpeed::X2);
    assert_eq!(viewer.selected_address(), None);
}

#[test]
fn queued_cycles_play_back_oldest_first() {
    let mut viewer = Viewer::new(CoreState::new(4, 1));
    viewer.queue_cycle_events(vec![
        vec![CycleEvent::Write { address: 0, warrior_id: 1 }],
        vec![CycleEvent::Write { address: 0, warrior_id: 2 }],
        vec![CycleEvent::Write { address: 1, warrior_id: 3 }],
    ]);
    assert_eq!(viewer.pending_len(), 3);
    assert!(viewer.can_advance(2));
    let lit = viewer.advance(2);
    assert_eq!(lit, vec![0, 0]);
    assert_eq!(viewer.pending_len(), 1);
    assert_eq!(viewer.core_model().cells[0].owner, Some(2));
    assert_eq!(viewer.core_model().current_cycle, 2);
    let lit = viewer.advance(10);
    assert_eq!(lit, vec![1]);
    assert_eq!(viewer.pending_len(), 0);
    assert_eq!(viewer.core_model().current_cycle, 3);
}

#[test]
fn counts_near_the_limit_block_advancing() {
    let mut viewer = Viewer::new(CoreState::new(1, 1));
    viewer.set_warriors(&[warrior(1, usize::MAX)]);
    assert!(viewer.has_room_for(0));
    assert!(!viewer.has_room_for(1));
    viewer.queue_cycle_events(vec![vec![CycleEvent::Read { address: 0, warrior_id: 1 }]]);
    assert!(viewer.can_advance(0));
    assert!(!viewer.can_advance(1));
}

#[test]
fn synchronizer_follows_its_instance() {
    let mut core = CoreState::new(4, 1);
    let mut sync = StateSynchronizer::new("arena-1".to_string(), true);
    assert!(!sync.is_initialized());

    sync.handle_message(&mut core, SyncMessage::Hello { version: 1 });
    assert_eq!(sync.overlay_message(), None);
    sync.handle_message(&mut core, SyncMessage::Hello { version: 2 });
    assert_eq!(sync.overlay_message(), Some("protocol mismatch: expected 1, got 2"));

    let shown = sync.handle_message(
        &mut core,
        SyncMessage::CoreSnapshot { instance_id: "arena-2".to_string(), cells: vec![cell(0, Some(9), "x")] },
    );
    assert!(!shown);
    assert_eq!(core.cells[0].owner, None);
    assert!(!sync.is_initialized());

    let shown = sync.handle_message(
        &mut core,
        SyncMessage::CoreSnapshot { instance_id: "arena-1".to_string(), cells: vec![cell(0, Some(9), "x")] },
    );
    assert!(shown);
    assert_eq!(core.cells[0].owner, Some(9));
    assert!(sync.is_initialized());
    assert_eq!(sync.overlay_message(), None);

    sync.handle_message(
        &mut core,
        SyncMessage::CycleEvents {
            instance_id: "arena-1".to_string(),
            events: vec![CycleEvent::Write { address: 2, warrior_id: 9 }],
        },
    );
    sync.handle_message(
        &mut core,
        SyncMessage::CycleEvents {
            instance_id: "arena-1".to_string(),
            events: vec![CycleEvent::Execute { address: 3, warrior_id: 9 }],
        },
    );
    assert_eq!(core.current_cycle, 0);
    let lit = sync.flush_pending(&mut core);
    assert_eq!(lit, vec![2, 3]);
    assert_eq!(core.current_cycle, 1);
    assert!(sync.flush_pending(&mut core).is_empty());
    assert_eq!(core.current_cycle, 1);

    sync.handle_message(
        &mut core,
        SyncMessage::BattleComplete {
            instance_id: "arena-1".to_string(),
            result: BattleResultMsg::Win { winner: "Imp".to_string() },
        },
    );
    assert_eq!(sync.overlay_message(), Some("battle complete - winner: Imp"));
    sync.handle_message(&mut core, SyncMessage::Error { message: "boom".to_string() });
    assert_eq!(sync.overlay_message(), Some("boom"));
}

#[test]
fn synchronizer_resubscribes_after_reconnecting() {
    let mut sync = StateSynchronizer::new("arena-1".to_string(), true);
    assert_eq!(sync.refresh_connection_state(true), None);
    assert_eq!(sync.refresh_connection_state(false), None);
    assert_eq!(sync.overlay_message(), Some("reconnecting..."));
    let again = sync.refresh_connection_state(true);
    assert_eq!(again, Some(ClientMessage::Subscribe { instance_id: "arena-1".to_string() }));
    assert_eq!(sync.overlay_message(), Some("reconnected - syncing..."));
    // Until the subscription is confirmed as sent, it is asked for again.
    assert!(sync.refresh_connection_state(true).is_some());
    sync.resubscribed();
    assert_eq!(sync.refresh_connection_state(true), None);
}

#[test]
fn synchronizer_feeds_a_viewer() {
    let mut viewer = Viewer::new(CoreState::new(2, 1));
    let mut sync = StateSynchronizer::new("arena-1".to_string(), true);
    sync.handle_app_message(
        &mut viewer,
        SyncMessage::CoreSnapshot { instance_id: "arena-1".to_string(), cells: vec![cell(1, Some(4), "JMP.B $0, $0")] },
    );
    sync.handle_app_message(
        &mut viewer,
        SyncMessage::CycleEvents {
            instance_id: "arena-1".to_string(),
            events: vec![CycleEvent::Write { address: 0, warrior_id: 4 }],
        },
    );
    sync.handle_app_message(&mut viewer, SyncMessage::Other);
    assert!(sync.is_initialized());
    assert_eq!(viewer.pending_len(), 1);
    assert_eq!(viewer.selected_cell_info(Some(1)).unwrap().instruction, "JMP.B $0, $0");
    assert_eq!(viewer.advance(1), vec![0]);
    assert_eq!(viewer.core_model().cells[0].owner, Some(4));
}

#[test]
fn browser_keys_and_buttons_map_to_controls() {
    assert_eq!(map_key(" "), Some(KeyCode::Space));
    assert_eq!(map_key("+"), Some(KeyCode::Plus));
    assert_eq!(map_key("="), Some(KeyCode::Equals));
    assert_eq!(map_key("-"), Some(KeyCode::Minus));
    assert_eq!(map_key("R"), Some(KeyCode::R));
    assert_eq!(map_key("f"), Some(KeyCode::F));
    assert_eq!(map_key("Q"), Some(KeyCode::Character('q')));
    assert_eq!(map_key("Enter"), None);
    assert_eq!(map_key(""), None);
    assert_eq!(mouse_button(0), MouseButton::Left);
    assert_eq!(mouse_button(1), MouseButton::Middle);
    assert_eq!(mouse_button(2), MouseButton::Right);
    assert_eq!(mouse_button(4), MouseButton::Other(4));
    assert_eq!(mouse_button(-1), MouseButton::Other(65535));
}

#[test]
fn reconnection_backoff_doubles_up_to_its_cap() {
    let mut delay = INITIAL_BACKOFF_MS;
    let mut seen = vec![delay];
    for _ in 0..6 {
        delay = next_backoff(delay);
        seen.push(delay);
    }
    assert_eq!(seen, vec![250, 500, 1000, 2000, 4000, 5000, 5000]);
    assert_eq!(next_backoff(2499), 4998);
    assert_eq!(next_backoff(2500), MAX_BACKOFF_MS);
    assert_eq!(next_backoff(u64::MAX), MAX_BACKOFF_MS);
}

use corewar::battle::{
    aggregate_battle_result, battle_result_message, battle_result_to_outcomes, cycle_events,
    map_cycle_event, merge_stats, pick_advancing_warrior, stats_for_slot, warrior_name,
    BattleResult, BattleStats, Match, ScheduleStrategy, TournamentConfig,
};
use corewar::leaderboard::MatchOutcome;
use corewar::protocol::{BattleResultMsg, CycleEvent};
use corewar::standings::{
    initialise_standings, ordered_participants, record_standing, standing_for, standings_vec,
};
use corewar::{CoreEvent, TimedEvent};

fn stats(id: u32, score: u64, wins: u64, draws: u64) -> BattleStats {
    BattleStats {
        warrior_id: id,
        score,
        wins,
        draws,
        ..BattleStats::default()
    }
}

fn names(list: &[&str]) -> Vec<String> {
    list.iter().map(|n| n.to_string()).collect()
}

#[test]
fn aggregate_picks_unique_leader() {
    let result = aggregate_battle_result(&[stats(1, 3, 1, 0), stats(2, 5, 1, 0), stats(3, 5, 0, 2)]);
    assert_eq!(result, BattleResult::Win { winner_id: 2 });
}

#[test]
fn aggregate_reports_draw_between_tied_leaders() {
    let result = aggregate_battle_result(&[stats(1, 2, 1, 0), stats(2, 1, 0, 0), stats(3, 2, 1, 0)]);
    assert_eq!(
        result,
        BattleResult::Draw {
            survivor_ids: vec![1, 3]
        }
    );
    assert_eq!(
        aggregate_battle_result(&[]),
        BattleResult::Draw {
            survivor_ids: Vec::new()
        }
    );
}

#[test]
fn result_message_names_winner_or_falls_back() {
    let warriors = names(&["alpha", "beta"]);
    assert_eq!(
        battle_result_message(&warriors, &BattleResult::Win { winner_id: 2 }),
        BattleResultMsg::Win {
            winner: "beta".to_string()
        }
    );
    assert_eq!(
        battle_result_message(&warriors, &BattleResult::Win { winner_id: 7 }),
        BattleResultMsg::Win {
            winner: "warrior-7".to_string()
        }
    );
    assert_eq!(
        battle_result_message(
            &warriors,
            &BattleResult::Draw {
                survivor_ids: vec![0, 2, 1]
            }
        ),
        BattleResultMsg::Draw {
            survivors: names(&["beta", "alpha"])
        }
    );
    assert_eq!(warrior_name(&warriors, 0), None);
    assert_eq!(warrior_name(&warriors, 1), Some("alpha".to_string()));
}

#[test]
fn outcomes_pair_winner_with_every_other_warrior() {
    let warriors = names(&["alpha", "beta", "gamma"]);
    assert_eq!(
        battle_result_to_outcomes(&warriors, &BattleResult::Win { winner_id: 1 }),
        vec![
            MatchOutcome::Win {
                winner: "alpha".to_string(),
                loser: "beta".to_string()
            },
            MatchOutcome::Win {
                winner: "alpha".to_string(),
                loser: "gamma".to_string()
            },
        ]
    );
    assert!(battle_result_to_outcomes(&warriors, &BattleResult::Win { winner_id: 9 }).is_empty());
    assert_eq!(
        battle_result_to_outcomes(
            &warriors,
            &BattleResult::Draw {
                survivor_ids: vec![3, 1]
            }
        ),
        vec![MatchOutcome::Draw {
            players: names(&["gamma", "alpha"])
        }]
    );
    assert!(battle_result_to_outcomes(
        &warriors,
        &BattleResult::Draw {
            survivor_ids: vec![2]
        }
    )
    .is_empty());
}

#[test]
fn advancing_warrior_follows_result() {
    let scheduled = Match {
        id: "elimination-r1-m1".to_string(),
        round: 1,
        warrior_ids: names(&["alpha", "beta"]),
    };
    assert_eq!(
        pick_advancing_warrior(&scheduled, &BattleResult::Win { winner_id: 2 }),
        Some("beta".to_string())
    );
    assert_eq!(
        pick_advancing_warrior(
            &scheduled,
            &BattleResult::Draw {
                survivor_ids: vec![5, 2]
            }
        ),
        Some("beta".to_string())
    );
    assert_eq!(
        pick_advancing_warrior(
            &scheduled,
            &BattleResult::Draw {
                survivor_ids: Vec::new()
            }
        ),
        Some("alpha".to_string())
    );
    assert_eq!(
        pick_advancing_warrior(&scheduled, &BattleResult::Win { winner_id: 0 }),
        None
    );
}

#[test]
fn merging_adds_counts() {
    let mut total = stats(1, 2, 1, 1);
    merge_stats(&mut total, &stats(9, 3, 2, 0));
    assert_eq!(total.warrior_id, 1);
    assert_eq!((total.score, total.wins, total.draws), (5, 3, 1));
}

#[test]
fn slot_stats_fall_back_to_zero() {
    let report = vec![stats(2, 4, 1, 0), stats(1, 1, 0, 0)];
    assert_eq!(stats_for_slot(&report, 0), stats(1, 1, 0, 0));
    assert_eq!(stats_for_slot(&report, 2), stats(3, 0, 0, 0));
}

#[test]
fn tournament_config_defaults() {
    let config = TournamentConfig::default();
    assert_eq!(config.strategy, ScheduleStrategy::RoundRobin);
    assert_eq!(config.rounds_per_match, 100);
    assert_eq!(config.concurrency, 4);
}

#[test]
fn cycle_events_skip_eliminations() {
    let events = vec![
        TimedEvent {
            cycle: 1,
            event: CoreEvent::Execute {
                address: 3,
                warrior_id: 1,
            },
        },
        TimedEvent {
            cycle: 1,
            event: CoreEvent::WarriorEliminated { warrior_id: 2 },
        },
        TimedEvent {
            cycle: 1,
            event: CoreEvent::CycleComplete,
        },
        TimedEvent {
            cycle: 1,
            event: CoreEvent::ProcessKilled {
                warrior_id: 1,
                address: 4,
            },
        },
    ];
    assert_eq!(
        cycle_events(&events),
        vec![
            CycleEvent::Execute {
                address: 3,
                warrior_id: 1
            },
            CycleEvent::ProcessKilled {
                warrior_id: 1,
                address: 4
            },
        ]
    );
    assert_eq!(map_cycle_event(&events[1]), None);
}

#[test]
fn standings_rank_by_score_then_name() {
    let mut standings = initialise_standings(&names(&["gamma", "alpha", "beta"]));
    record_standing(&mut standings, &"beta".to_string(), &stats(0, 2, 2, 0));
    record_standing(&mut standings, &"gamma".to_string(), &stats(0, 2, 2, 0));
    record_standing(&mut standings, &"delta".to_string(), &stats(0, 1, 1, 0));
    assert_eq!(standing_for(&standings, &"beta".to_string()).score, 2);
    assert_eq!(standing_for(&standings, &"zeta".to_string()).score, 0);
    let ranked: Vec<String> = standings_vec(&standings)
        .into_iter()
        .map(|(name, _)| name)
        .collect();
    assert_eq!(ranked, names(&["beta", "gamma", "delta", "alpha"]));
}

#[test]
fn participants_order_uses_seed_after_stats() {
    let standings = initialise_standings(&names(&["a", "b", "c"]));
    let seeds = vec![
        ("c".to_string(), 0usize),
        ("a".to_string(), 1usize),
        ("b".to_string(), 2usize),
    ];
    let ordered = ordered_participants(&names(&["a", "b", "c"]), &standings, &seeds);
    assert_eq!(ordered, names(&["c", "a", "b"]));
}
